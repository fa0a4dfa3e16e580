//! The namespace of the vocabulary of term status.

use crate::iri::Iri;
use vstd::prelude::*;

verus! {

/// The prefix that the vocabulary is usually written with.
pub const PREFIX: &'static str = "ts";

/// The namespace of the vocabulary.
pub const NAMESPACE: &'static str = "http://www.w3.org/2003/06/sw-vocab-status/ns#";

/// The namespace itself.
pub fn namespace_iri() -> (r: Iri)
    ensures
        r@ == NAMESPACE@,
        !r.relative(),
{
    Iri::known(NAMESPACE)
}

} // verus!
