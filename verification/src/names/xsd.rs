//! Names of the XML Schema datatypes.

use crate::iri::Iri;
use crate::text::push_text;
use vstd::prelude::*;

verus! {

/// The prefix that the vocabulary is usually written with.
pub const PREFIX: &'static str = "xsd";

/// The namespace of the vocabulary.
pub const NAMESPACE: &'static str = "http://www.w3.org/2001/XMLSchema#";

/// The name `local` in this namespace.
pub open spec fn name(local: Seq<char>) -> Seq<char> {
    NAMESPACE@ + local
}

/// The IRI of the name `local` in this namespace.
pub(crate) fn iri_of(local: &str) -> (r: Iri)
    ensures
        r@ == name(local@),
        !r.relative(),
{
    let mut text = String::new();
    push_text(&mut text, NAMESPACE);
    push_text(&mut text, local);
    Iri::known(text.as_str())
}

/// The namespace itself.
pub fn namespace_iri() -> (r: Iri)
    ensures
        r@ == NAMESPACE@,
        !r.relative(),
{
    Iri::known(NAMESPACE)
}

} // verus!
