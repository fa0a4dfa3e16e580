//! The writer of the line-oriented format.

use crate::error::ErrorView;
use crate::graph::{Graph, GraphView};
use crate::nt::parser::read_graph;
use crate::nt::round_trip::{all_writable, is_writable_graph, lemma_round_trip, writable};
use crate::statement::{statement_views, StatementView};
use crate::text::push_text;
use vstd::prelude::*;

verus! {

/// The lines of the statements from the `i`-th on: each statement as it is
/// written, and a line break.
pub open spec fn lines(statements: Seq<StatementView>, i: int) -> Seq<char>
    decreases statements.len() - i,
{
    if 0 <= i < statements.len() {
        statements[i].text() + "\n"@ + lines(statements, i + 1)
    } else {
        Seq::empty()
    }
}

/// The writer.
#[derive(Debug)]
pub struct NTripleWriter {}

impl Default for NTripleWriter {
    fn default() -> (r: NTripleWriter) {
        NTripleWriter {  }
    }
}

impl NTripleWriter {
    /// The document of the graph: its statements in their order, one on
    /// each line. Where every statement can be read back, the document is
    /// read as the statements of the graph.
    pub fn write(&self, graph: &Graph) -> (r: String)
        ensures
            r@ == lines(graph@.statements, 0),
            (forall|k: int|
                0 <= k < graph@.statements.len() ==> writable(#[trigger] graph@.statements[k]))
                ==> read_graph(r@) == Ok::<GraphView, ErrorView>(
                GraphView { statements: graph@.statements, mappings: Seq::empty(), name: None },
            ),
    {
        let statements = graph.statements();
        proof {
            if forall|k: int|
                0 <= k < graph@.statements.len() ==> writable(#[trigger] graph@.statements[k]) {
                lemma_round_trip(graph@.statements);
            }
        }
        let ghost views = statement_views(statements@);
        let mut out = String::new();
        let mut i: usize = 0;
        assert(Seq::<char>::empty() + lines(views, 0) == lines(views, 0));
        while i < statements.len()
            invariant
                i <= statements.len(),
                views == statement_views(statements@),
                lines(views, 0) == out@ + lines(views, i as int),
            decreases statements.len() - i,
        {
            let ghost before = out@;
            let line = statements[i].to_string();
            assert(statements@[i as int]@ == views[i as int]);
            push_text(&mut out, line.as_str());
            push_text(&mut out, "\n");
            proof {
                let rest = lines(views, i + 1);
                assert(before + (views[i as int].text() + "\n"@ + rest) == before
                    + views[i as int].text() + "\n"@ + rest);
            }
            i = i + 1;
        }
        assert(out@ + Seq::<char>::empty() == out@);
        out
    }

    /// The document of the graph, where every statement of the graph is read
    /// back as itself, and `None` where one is not. The document that is
    /// returned is read as the statements of the graph.
    pub fn write_checked(&self, graph: &Graph) -> (r: Option<String>)
        ensures
            match r {
                Some(text) => {
                    &&& all_writable(graph@.statements)
                    &&& text@ == lines(graph@.statements, 0)
                    &&& read_graph(text@) == Ok::<GraphView, ErrorView>(
                        GraphView {
                            statements: graph@.statements,
                            mappings: Seq::empty(),
                            name: None,
                        },
                    )
                },
                None => !all_writable(graph@.statements),
            },
    {
        if is_writable_graph(graph) {
            Some(self.write(graph))
        } else {
            None
        }
    }
}

} // verus!
