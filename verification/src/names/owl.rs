//! The namespace of the Web Ontology Language.

use crate::iri::Iri;
use vstd::prelude::*;

verus! {

/// The prefix that the vocabulary is usually written with.
pub const PREFIX: &'static str = "owl";

/// The namespace of the vocabulary.
pub const NAMESPACE: &'static str = "http://www.w3.org/2002/07/owl#";

/// The namespace itself.
pub fn namespace_iri() -> (r: Iri)
    ensures
        r@ == NAMESPACE@,
        !r.relative(),
{
    Iri::known(NAMESPACE)
}

} // verus!
