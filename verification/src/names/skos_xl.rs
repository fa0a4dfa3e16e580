//! The namespace of the SKOS extension for labels.

use crate::iri::Iri;
use vstd::prelude::*;

verus! {

/// The prefix that the vocabulary is usually written with.
pub const PREFIX: &'static str = "skosxl";

/// The namespace of the vocabulary.
pub const NAMESPACE: &'static str = "http://www.w3.org/2008/05/skos-xl#";

/// The namespace itself.
pub fn namespace_iri() -> (r: Iri)
    ensures
        r@ == NAMESPACE@,
        !r.relative(),
{
    Iri::known(NAMESPACE)
}

} // verus!
