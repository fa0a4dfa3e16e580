//! Thesauri in the terms of SKOS: schemes of concepts and collections.

pub mod model;
