//! Graphs with a name.

use crate::iri::Iri;
use vstd::prelude::*;

verus! {

/// A graph that may have a name.
pub trait NamedGraph {
    /// The name of the graph, as text.
    spec fn graph_name(&self) -> Option<Seq<char>>;

    /// The name of the graph.
    fn name(&self) -> (r: &Option<Iri>)
        ensures
            match r {
                Some(name) => self.graph_name() == Some(name@),
                None => self.graph_name() is None,
            },
    ;
}

/// A named graph whose name can be set and taken away.
pub trait MutableNamedGraph: NamedGraph {
    /// Gives the graph the name `name` and returns the name it had.
    fn set_name(&mut self, name: Iri) -> (r: Option<Iri>)
        ensures
            final(self).graph_name() == Some(name@),
            match r {
                Some(before) => old(self).graph_name() == Some(before@),
                None => old(self).graph_name() is None,
            },
    ;

    /// Takes the name of the graph away and returns it.
    fn unset_name(&mut self) -> (r: Option<Iri>)
        ensures
            final(self).graph_name() is None,
            match r {
                Some(before) => old(self).graph_name() == Some(before@),
                None => old(self).graph_name() is None,
            },
    ;
}

} // verus!
