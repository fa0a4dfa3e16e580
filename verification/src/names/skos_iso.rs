//! Names of the ISO 25964 extension of SKOS.

use crate::iri::Iri;
use crate::text::push_text;
use vstd::prelude::*;

verus! {

/// The prefix that the vocabulary is usually written with.
pub const PREFIX: &'static str = "iso-thes";

/// The namespace of the vocabulary.
pub const NAMESPACE: &'static str = "http://purl.org/iso25964/skos-thes#";

/// The name `local` in this namespace.
pub open spec fn name(local: Seq<char>) -> Seq<char> {
    NAMESPACE@ + local
}

/// The IRI of the name `local` in this namespace.
fn iri_of(local: &str) -> (r: Iri)
    ensures
        r@ == name(local@),
        !r.relative(),
{
    let mut text = String::new();
    push_text(&mut text, NAMESPACE);
    push_text(&mut text, local);
    Iri::known(text.as_str())
}

/// The namespace itself.
pub fn namespace_iri() -> (r: Iri)
    ensures
        r@ == NAMESPACE@,
        !r.relative(),
{
    Iri::known(NAMESPACE)
}

/// `iso-thes:broaderGeneric`.
pub fn broader_generic() -> (r: Iri)
    ensures
        r@ == name("broaderGeneric"@),
        !r.relative(),
{
    iri_of("broaderGeneric")
}

/// `iso-thes:broaderInstantial`.
pub fn broader_instantial() -> (r: Iri)
    ensures
        r@ == name("broaderInstantial"@),
        !r.relative(),
{
    iri_of("broaderInstantial")
}

/// `iso-thes:broaderPartitive`.
pub fn broader_partitive() -> (r: Iri)
    ensures
        r@ == name("broaderPartitive"@),
        !r.relative(),
{
    iri_of("broaderPartitive")
}

/// `iso-thes:narrowerGeneric`.
pub fn narrower_generic() -> (r: Iri)
    ensures
        r@ == name("narrowerGeneric"@),
        !r.relative(),
{
    iri_of("narrowerGeneric")
}

/// `iso-thes:narrowerInstantial`.
pub fn narrower_instantial() -> (r: Iri)
    ensures
        r@ == name("narrowerInstantial"@),
        !r.relative(),
{
    iri_of("narrowerInstantial")
}

/// `iso-thes:narrowerPartitive`.
pub fn narrower_partitive() -> (r: Iri)
    ensures
        r@ == name("narrowerPartitive"@),
        !r.relative(),
{
    iri_of("narrowerPartitive")
}

} // verus!
