//! A toolkit for graphs of statements: the terms and the statements, a
//! builder that turns a tree of values about one subject into statements, a
//! reader and a writer of the line-oriented format, and a writer of the
//! compact format with prefixes.

use vstd::prelude::*;

pub mod common;
pub mod error;
pub mod escape;
pub mod graph;
pub mod iri;
pub mod literal;
pub mod mapping;
pub mod names;
pub mod nt;
pub mod qname;
pub mod resource;
pub mod skos;
pub mod statement;
pub mod text;
pub mod turtle;

pub use crate::error::Error;
pub use crate::graph::Graph;
pub use crate::iri::Iri;
pub use crate::literal::{DataType, Literal};
pub use crate::mapping::{Prefix, PrefixMappings};
pub use crate::qname::QName;
pub use crate::resource::{Predicate, Resource};
pub use crate::statement::{ObjectNode, Statement, SubjectNode};

verus! {

} // verus!
