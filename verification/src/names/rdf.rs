//! Names of the RDF vocabulary.

use crate::iri::Iri;
use crate::text::{decimal, push_decimal, push_text};
use vstd::prelude::*;

verus! {

/// The prefix that the vocabulary is usually written with.
pub const PREFIX: &'static str = "rdf";

/// The namespace of the vocabulary.
pub const NAMESPACE: &'static str = "http://www.w3.org/1999/02/22-rdf-syntax-ns#";

/// The name `local` in this namespace.
pub open spec fn name(local: Seq<char>) -> Seq<char> {
    NAMESPACE@ + local
}

/// The IRI of the name `local` in this namespace.
fn iri_of(local: &str) -> (r: Iri)
    ensures
        r@ == name(local@),
        !r.relative(),
{
    let mut text = String::new();
    push_text(&mut text, NAMESPACE);
    push_text(&mut text, local);
    Iri::known(text.as_str())
}

/// The namespace itself.
pub fn namespace_iri() -> (r: Iri)
    ensures
        r@ == NAMESPACE@,
        !r.relative(),
{
    Iri::known(NAMESPACE)
}

/// `rdf:type`.
pub fn a_type() -> (r: Iri)
    ensures
        r@ == name("type"@),
        !r.relative(),
{
    iri_of("type")
}

/// `rdf:Alt`.
pub fn alt() -> (r: Iri)
    ensures
        r@ == name("Alt"@),
        !r.relative(),
{
    iri_of("Alt")
}

/// `rdf:Bag`.
pub fn bag() -> (r: Iri)
    ensures
        r@ == name("Bag"@),
        !r.relative(),
{
    iri_of("Bag")
}

/// `rdf:Seq`.
pub fn seq() -> (r: Iri)
    ensures
        r@ == name("Seq"@),
        !r.relative(),
{
    iri_of("Seq")
}

/// The membership property with the number `index`: `rdf:_1`, `rdf:_2` and
/// so on.
pub open spec fn member_name(index: nat) -> Seq<char> {
    name("_"@ + decimal(index))
}

/// The membership property with the number `index`.
pub fn member(index: usize) -> (r: Iri)
    ensures
        r@ == member_name(index as nat),
        !r.relative(),
{
    let mut text = String::new();
    push_text(&mut text, NAMESPACE);
    push_text(&mut text, "_");
    push_decimal(&mut text, index as u64);
    assert(text@ == member_name(index as nat));
    Iri::known(text.as_str())
}

} // verus!
