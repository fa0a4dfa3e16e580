//! Names of the Dublin Core terms.

use crate::iri::Iri;
use crate::text::push_text;
use vstd::prelude::*;

verus! {

/// The prefix that the vocabulary is usually written with.
pub const PREFIX: &'static str = "dcterms";

/// The namespace of the vocabulary.
pub const NAMESPACE: &'static str = "http://purl.org/dc/terms/";

/// The name `local` in this namespace.
pub open spec fn name(local: Seq<char>) -> Seq<char> {
    NAMESPACE@ + local
}

/// The IRI of the name `local` in this namespace.
fn iri_of(local: &str) -> (r: Iri)
    ensures
        r@ == name(local@),
        !r.relative(),
{
    let mut text = String::new();
    push_text(&mut text, NAMESPACE);
    push_text(&mut text, local);
    Iri::known(text.as_str())
}

/// The namespace itself.
pub fn namespace_iri() -> (r: Iri)
    ensures
        r@ == NAMESPACE@,
        !r.relative(),
{
    Iri::known(NAMESPACE)
}

/// `dcterms:created`.
pub fn created() -> (r: Iri)
    ensures
        r@ == name("created"@),
        !r.relative(),
{
    iri_of("created")
}

/// `dcterms:creator`.
pub fn creator() -> (r: Iri)
    ensures
        r@ == name("creator"@),
        !r.relative(),
{
    iri_of("creator")
}

/// `dcterms:description`.
pub fn description() -> (r: Iri)
    ensures
        r@ == name("description"@),
        !r.relative(),
{
    iri_of("description")
}

/// `dcterms:issued`.
pub fn issued() -> (r: Iri)
    ensures
        r@ == name("issued"@),
        !r.relative(),
{
    iri_of("issued")
}

/// `dcterms:modified`.
pub fn modified() -> (r: Iri)
    ensures
        r@ == name("modified"@),
        !r.relative(),
{
    iri_of("modified")
}

/// `dcterms:publisher`.
pub fn publisher() -> (r: Iri)
    ensures
        r@ == name("publisher"@),
        !r.relative(),
{
    iri_of("publisher")
}

/// `dcterms:rights`.
pub fn rights() -> (r: Iri)
    ensures
        r@ == name("rights"@),
        !r.relative(),
{
    iri_of("rights")
}

/// `dcterms:subject`.
pub fn subject() -> (r: Iri)
    ensures
        r@ == name("subject"@),
        !r.relative(),
{
    iri_of("subject")
}

/// `dcterms:title`.
pub fn title() -> (r: Iri)
    ensures
        r@ == name("title"@),
        !r.relative(),
{
    iri_of("title")
}

} // verus!
