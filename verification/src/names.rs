//! The IRIs of the vocabularies that the library itself writes.

pub mod dc_terms;
pub mod owl;
pub mod rdf;
pub mod skos;
pub mod skos_iso;
pub mod skos_xl;
pub mod term_status;
pub mod xsd;
