//! The writer of the compact format: the base, the prefixes, then one block
//! for each subject, with blank nodes written inside the block of the node
//! that refers to them.

use crate::common::{indentation, spaces, Indenter};
use crate::graph::{subject_views, Graph, GraphView};
use crate::iri::Iri;
use crate::literal::Literal;
use crate::mapping::{longest_match, Binding, Prefix, PrefixMappings};
use crate::qname::QNameView;
use crate::statement::{NodeView, ObjectNode, SubjectNode};
use crate::text::{chars_of, has_prefix, push_range, push_text, starts_with};
use vstd::prelude::*;

verus! {

/// How a graph is to be written.
#[derive(Clone, Copy, Debug)]
pub struct TurtleOptions {
    /// Whether a blank node is written inside the block of the node that
    /// refers to it, between square brackets, and not by its label.
    pub nest_blank_nodes: bool,
    /// Whether the base and the prefixes are written as `BASE` and `PREFIX`
    /// lines, and not as `@base` and `@prefix` lines.
    pub use_sparql_style: bool,
}

impl Default for TurtleOptions {
    /// Blank nodes are nested, and the lines begin with `@`.
    fn default() -> (r: TurtleOptions)
        ensures
            r.nest_blank_nodes,
            !r.use_sparql_style,
    {
        TurtleOptions { nest_blank_nodes: true, use_sparql_style: false }
    }
}

/// The writer.
#[derive(Debug)]
pub struct TurtleWriter {
    base: Option<String>,
    options: TurtleOptions,
}

/// The mathematical content of a [`TurtleWriter`].
pub struct WriterView {
    pub base: Option<Seq<char>>,
    pub nest_blank_nodes: bool,
    pub use_sparql_style: bool,
}

impl View for TurtleWriter {
    type V = WriterView;

    closed spec fn view(&self) -> WriterView {
        WriterView {
            base: match self.base {
                Some(base) => Some(base@),
                None => None,
            },
            nest_blank_nodes: self.options.nest_blank_nodes,
            use_sparql_style: self.options.use_sparql_style,
        }
    }
}

/// The deepest that blank nodes are nested.
pub const MAX_NESTING: usize = 0x3FFF_FFFF;

/// How deep blank nodes may be nested when a graph is written: one more than
/// the graph has statements, and no more than `MAX_NESTING`. No chain of
/// blank nodes without a circle is longer.
pub open spec fn nesting(graph: GraphView) -> nat {
    if graph.statements.len() < MAX_NESTING {
        graph.statements.len() + 1
    } else {
        MAX_NESTING as nat
    }
}

impl WriterView {
    /// The line of the base, where there is a base.
    pub open spec fn base_text(self) -> Seq<char> {
        match self.base {
            Some(base) => if self.use_sparql_style {
                "BASE <"@ + base + ">\n"@
            } else {
                "@base <"@ + base + "> .\n"@
            },
            None => Seq::empty(),
        }
    }

    /// The line of one prefix.
    pub open spec fn prefix_line(self, binding: Binding) -> Seq<char> {
        let prefix = match binding.0 {
            Some(prefix) => prefix,
            None => Seq::empty(),
        };
        if self.use_sparql_style {
            "PREFIX "@ + prefix + ": <"@ + binding.1 + ">\n"@
        } else {
            "@prefix "@ + prefix + ": <"@ + binding.1 + "> .\n"@
        }
    }

    /// The lines of the prefixes from the `i`-th on.
    pub open spec fn prefix_lines(self, mappings: Seq<Binding>, i: int) -> Seq<char>
        decreases mappings.len() - i,
    {
        if 0 <= i < mappings.len() {
            self.prefix_line(mappings[i]) + self.prefix_lines(mappings, i + 1)
        } else {
            Seq::empty()
        }
    }

    /// An IRI as it is written, with the space behind it: what follows the
    /// base, in angle brackets, where the IRI begins with the base; else the
    /// qualified name, where the IRI begins with a namespace of the table;
    /// else the IRI in angle brackets.
    pub open spec fn iri_text(self, mappings: Seq<Binding>, iri: Seq<char>) -> Seq<char> {
        if self.base is Some && starts_with(iri, self.base->0) {
            "<"@ + iri.skip(self.base->0.len() as int) + "> "@
        } else {
            let k = longest_match(mappings, iri, mappings.len() as int);
            if k >= 0 {
                (QNameView { prefix: mappings[k].0, name: iri.skip(mappings[k].1.len() as int) }).text()
                    + " "@
            } else {
                "<"@ + iri + "> "@
            }
        }
    }

    /// The block of a subject at the depth `depth`, and the blank nodes that
    /// are written inside it.
    ///
    /// The block begins with the indentation and the subject: an IRI as
    /// `iri_text` writes it, a blank node by its label where the block is not
    /// nested, and nothing where it is. Then come the predicates, and at the
    /// end a period where the block is not nested, and a line break.
    /// `path` holds the blank nodes inside whose blocks this block stands,
    /// and `fuel` says how much deeper blocks may be nested.
    pub open spec fn block(
        self,
        graph: GraphView,
        subject: NodeView,
        depth: nat,
        path: Seq<NodeView>,
        fuel: nat,
    ) -> (Seq<char>, Seq<NodeView>)
        decreases fuel, 3nat, 0nat,
    {
        let head = indentation(depth) + match subject {
            NodeView::Named(iri) => self.iri_text(graph.mappings, iri),
            NodeView::Blank(label) => if depth == 0 {
                "_:"@ + label + " "@
            } else {
                Seq::empty()
            },
            NodeView::Literal(_) => Seq::empty(),
        };
        let (body, written) = self.predicates_text(
            graph,
            subject,
            graph.predicates_for(subject),
            0,
            depth + 1,
            path,
            fuel,
        );
        let tail = if depth == 0 {
            ".\n"@
        } else {
            "\n"@
        };
        (head + body + tail, written)
    }

    /// The predicates from the `i`-th on, each with its objects. Between two
    /// predicates stand a semicolon, a line break and the indentation. The
    /// objects of a predicate with more than one object are one step deeper.
    pub open spec fn predicates_text(
        self,
        graph: GraphView,
        subject: NodeView,
        predicates: Seq<Seq<char>>,
        i: int,
        depth: nat,
        path: Seq<NodeView>,
        fuel: nat,
    ) -> (Seq<char>, Seq<NodeView>)
        decreases fuel, 2nat, predicates.len() - i,
    {
        if 0 <= i < predicates.len() {
            let objects = graph.objects_for(subject, predicates[i]);
            let inner = if objects.len() > 1 {
                depth + 1
            } else {
                depth
            };
            let (text, written) = self.objects_text(graph, objects, 0, inner, path, fuel);
            let between = if i + 1 < predicates.len() {
                ";\n"@ + indentation(inner)
            } else {
                Seq::empty()
            };
            let (rest, more) = self.predicates_text(
                graph,
                subject,
                predicates,
                i + 1,
                depth,
                path,
                fuel,
            );
            (self.iri_text(graph.mappings, predicates[i]) + text + between + rest, written + more)
        } else {
            (Seq::empty(), Seq::empty())
        }
    }

    /// The objects from the `j`-th on. Between two objects stand a comma and
    /// a line break.
    pub open spec fn objects_text(
        self,
        graph: GraphView,
        objects: Seq<NodeView>,
        j: int,
        depth: nat,
        path: Seq<NodeView>,
        fuel: nat,
    ) -> (Seq<char>, Seq<NodeView>)
        decreases fuel, 1nat, objects.len() - j,
    {
        if 0 <= j < objects.len() {
            let (text, written) = self.object_text(graph, objects[j], depth, path, fuel);
            let between = if j + 1 < objects.len() {
                ",\n"@
            } else {
                Seq::empty()
            };
            let (rest, more) = self.objects_text(graph, objects, j + 1, depth, path, fuel);
            (text + between + rest, written + more)
        } else {
            (Seq::empty(), Seq::empty())
        }
    }

    /// One object. A blank node is written as a nested block between square
    /// brackets where blank nodes are to be nested, unless the block would
    /// stand inside a block of the same node, or too deep; else by its label.
    /// An IRI is written as `iri_text` writes it, and a literal as it is
    /// written in the line-oriented format, with a space behind it.
    pub open spec fn object_text(
        self,
        graph: GraphView,
        object: NodeView,
        depth: nat,
        path: Seq<NodeView>,
        fuel: nat,
    ) -> (Seq<char>, Seq<NodeView>)
        decreases fuel, 0nat, 0nat,
    {
        match object {
            NodeView::Blank(label) => if self.nest_blank_nodes && fuel > 0 && !path.contains(
                object,
            ) {
                let (inner, written) = self.block(
                    graph,
                    object,
                    depth,
                    path.push(object),
                    (fuel - 1) as nat,
                );
                ("[\n"@ + spaces(2) + inner + indentation(depth) + "]"@, seq![object] + written)
            } else {
                ("_:"@ + label, Seq::empty())
            },
            NodeView::Named(iri) => (self.iri_text(graph.mappings, iri), Seq::empty()),
            NodeView::Literal(literal) => (literal.text() + " "@, Seq::empty()),
        }
    }

    /// The first part of the blocks: for each subject from the `i`-th on
    /// that an IRI names, its block; and a line break for every subject. The
    /// result is the text, the blank nodes written inside the blocks, and
    /// the blank subjects, which are still to be written.
    pub open spec fn named_blocks(self, graph: GraphView, subjects: Seq<NodeView>, i: int) -> (
        Seq<char>,
        Seq<NodeView>,
        Seq<NodeView>,
    )
        decreases subjects.len() - i,
    {
        if 0 <= i < subjects.len() {
            let (rest, written, pending) = self.named_blocks(graph, subjects, i + 1);
            if subjects[i] is Blank {
                ("\n"@ + rest, written, seq![subjects[i]] + pending)
            } else {
                let (text, inside) = self.block(
                    graph,
                    subjects[i],
                    0,
                    Seq::empty(),
                    nesting(graph),
                );
                (text + "\n"@ + rest, inside + written, pending)
            }
        } else {
            (Seq::empty(), Seq::empty(), Seq::empty())
        }
    }

    /// The second part of the blocks: for each blank subject from the `k`-th
    /// on that is not written inside a block of the first part, its block.
    pub open spec fn blank_blocks(
        self,
        graph: GraphView,
        pending: Seq<NodeView>,
        k: int,
        written: Seq<NodeView>,
    ) -> Seq<char>
        decreases pending.len() - k,
    {
        if 0 <= k < pending.len() {
            let text = if written.contains(pending[k]) {
                Seq::empty()
            } else {
                self.block(graph, pending[k], 0, seq![pending[k]], nesting(graph)).0
            };
            text + self.blank_blocks(graph, pending, k + 1, written)
        } else {
            Seq::empty()
        }
    }

    /// The whole document: the line of the base, an empty line, the lines of
    /// the prefixes, an empty line, and the blocks.
    pub open spec fn document(self, graph: GraphView) -> Seq<char> {
        let (blocks, written, pending) = self.named_blocks(graph, graph.subjects(), 0);
        self.base_text() + "\n"@ + self.prefix_lines(graph.mappings, 0) + "\n"@ + blocks
            + self.blank_blocks(graph, pending, 0, written)
    }
}

/// A copy of a list of subjects.
fn clone_subjects(nodes: &Vec<SubjectNode>) -> (r: Vec<SubjectNode>)
    ensures
        subject_views(r@) == subject_views(nodes@),
{
    let mut out: Vec<SubjectNode> = Vec::new();
    let mut i: usize = 0;
    while i < nodes.len()
        invariant
            i <= nodes.len(),
            out.len() == i,
            forall|j: int| 0 <= j < i ==> out@[j]@ == nodes@[j]@,
        decreases nodes.len() - i,
    {
        out.push(nodes[i].clone());
        i = i + 1;
    }
    assert(subject_views(out@) =~= subject_views(nodes@));
    out
}

/// Moves the subjects of `more` to the end of `nodes`.
fn append_subjects(nodes: &mut Vec<SubjectNode>, more: Vec<SubjectNode>)
    ensures
        subject_views(final(nodes)@) == subject_views(old(nodes)@) + subject_views(more@),
{
    let ghost added = more@;
    let mut more = more;
    nodes.append(&mut more);
    assert(subject_views(nodes@) =~= subject_views(old(nodes)@) + subject_views(added));
}

impl TurtleWriter {
    /// A writer without base.
    pub fn new(options: TurtleOptions) -> (r: TurtleWriter)
        ensures
            r@ == (WriterView {
                base: None,
                nest_blank_nodes: options.nest_blank_nodes,
                use_sparql_style: options.use_sparql_style,
            }),
    {
        TurtleWriter { base: None, options }
    }

    /// A writer with the base `base`.
    pub fn with_base(base: Iri, options: TurtleOptions) -> (r: TurtleWriter)
        ensures
            r@ == (WriterView {
                base: Some(base@),
                nest_blank_nodes: options.nest_blank_nodes,
                use_sparql_style: options.use_sparql_style,
            }),
    {
        TurtleWriter { base: Some(base.to_string()), options }
    }

    /// Writes an IRI, and a space behind it.
    pub fn write_iri(&self, out: &mut String, iri: &Iri, mappings: &PrefixMappings)
        ensures
            final(out)@ == old(out)@ + self@.iri_text(mappings@, iri@),
    {
        let text = chars_of(iri.as_str());
        let relative = match &self.base {
            Some(base) => {
                let base_chars = chars_of(base.as_str());
                if has_prefix(&text, &base_chars) {
                    Some(base_chars.len())
                } else {
                    None
                }
            },
            None => None,
        };
        match relative {
            Some(from) => {
                push_text(out, "<");
                push_range(out, &text, from, text.len());
                push_text(out, "> ");
                assert(text@.subrange(from as int, text.len() as int) == iri@.skip(from as int));
                assert(out@ == old(out)@ + ("<"@ + iri@.skip(from as int) + "> "@));
            },
            None => {
                match mappings.compress(iri) {
                    Some(name) => {
                        let written = name.to_string();
                        push_text(out, written.as_str());
                        push_text(out, " ");
                        assert(out@ == old(out)@ + (name@.text() + " "@));
                    },
                    None => {
                        push_text(out, "<");
                        push_text(out, iri.as_str());
                        push_text(out, "> ");
                        assert(out@ == old(out)@ + ("<"@ + iri@ + "> "@));
                    },
                }
            },
        }
    }

    /// Writes a literal, and a space behind it.
    pub fn write_literal(&self, out: &mut String, literal: &Literal)
        ensures
            final(out)@ == old(out)@ + (literal@.text() + " "@),
    {
        let written = literal.to_string();
        push_text(out, written.as_str());
        push_text(out, " ");
        assert(out@ == old(out)@ + (literal@.text() + " "@));
    }

    /// Writes one object and returns the blank nodes written inside it.
    fn write_object(
        &self,
        out: &mut String,
        object: &ObjectNode,
        graph: &Graph,
        indenter: Indenter,
        path: &Vec<SubjectNode>,
        fuel: usize,
    ) -> (r: Vec<SubjectNode>)
        requires
            indenter@ + 2 * fuel <= usize::MAX,
        ensures
            ({
                let text = self@.object_text(
                    graph@,
                    object@,
                    indenter@,
                    subject_views(path@),
                    fuel as nat,
                );
                &&& final(out)@ == old(out)@ + text.0
                &&& subject_views(r@) == text.1
            }),
        decreases fuel, 0nat, 0nat,
    {
        match object {
            ObjectNode::Blank(label) => {
                let node = SubjectNode::Blank(label.clone());
                if self.options.nest_blank_nodes && fuel > 0 && !crate::graph::has_subject(
                    path,
                    &node,
                ) {
                    push_text(out, "[\n");
                    let one = indenter.one();
                    push_text(out, one.as_str());
                    let mut inner_path = clone_subjects(path);
                    inner_path.push(node.clone());
                    assert(subject_views(inner_path@) =~= subject_views(path@).push(node@));
                    let inside = self.write_block(out, &node, graph, indenter, &inner_path, fuel - 1);
                    indenter.write(out);
                    push_text(out, "]");
                    let mut written: Vec<SubjectNode> = Vec::new();
                    written.push(node);
                    assert(subject_views(written@) =~= seq![object@]);
                    append_subjects(&mut written, inside);
                    proof {
                        let inner = self@.block(
                            graph@,
                            object@,
                            indenter@,
                            subject_views(path@).push(object@),
                            (fuel - 1) as nat,
                        );
                        assert(out@ == old(out)@ + ("[\n"@ + spaces(2) + inner.0 + indentation(
                            indenter@,
                        ) + "]"@));
                    }
                    written
                } else {
                    push_text(out, "_:");
                    push_text(out, label.as_str());
                    assert(out@ == old(out)@ + ("_:"@ + label@));
                    let written: Vec<SubjectNode> = Vec::new();
                    assert(subject_views(written@) =~= Seq::empty());
                    written
                }
            },
            ObjectNode::Named(iri) => {
                self.write_iri(out, iri, graph.prefix_mappings());
                let written: Vec<SubjectNode> = Vec::new();
                assert(subject_views(written@) =~= Seq::empty());
                written
            },
            ObjectNode::Literal(literal) => {
                self.write_literal(out, literal);
                let written: Vec<SubjectNode> = Vec::new();
                assert(subject_views(written@) =~= Seq::empty());
                written
            },
        }
    }

    /// Writes the objects of one predicate and returns the blank nodes
    /// written inside them.
    fn write_objects(
        &self,
        out: &mut String,
        objects: &Vec<ObjectNode>,
        graph: &Graph,
        indenter: Indenter,
        path: &Vec<SubjectNode>,
        fuel: usize,
    ) -> (r: Vec<SubjectNode>)
        requires
            indenter@ + 2 * fuel <= usize::MAX,
        ensures
            ({
                let text = self@.objects_text(
                    graph@,
                    crate::graph::object_node_views(objects@),
                    0,
                    indenter@,
                    subject_views(path@),
                    fuel as nat,
                );
                &&& final(out)@ == old(out)@ + text.0
                &&& subject_views(r@) == text.1
            }),
        decreases fuel, 1nat, 0nat,
    {
        let ghost views = crate::graph::object_node_views(objects@);
        let ghost trail = subject_views(path@);
        let ghost whole = self@.objects_text(graph@, views, 0, indenter@, trail, fuel as nat);
        let mut written: Vec<SubjectNode> = Vec::new();
        let mut j: usize = 0;
        assert(subject_views(written@) =~= Seq::empty());
        assert(Seq::<NodeView>::empty() + whole.1 == whole.1);
        while j < objects.len()
            invariant
                j <= objects.len(),
                indenter@ + 2 * fuel <= usize::MAX,
                views == crate::graph::object_node_views(objects@),
                trail == subject_views(path@),
                whole == self@.objects_text(graph@, views, 0, indenter@, trail, fuel as nat),
                ({
                    let rest = self@.objects_text(
                        graph@,
                        views,
                        j as int,
                        indenter@,
                        trail,
                        fuel as nat,
                    );
                    &&& old(out)@ + whole.0 == out@ + rest.0
                    &&& whole.1 == subject_views(written@) + rest.1
                }),
            decreases objects.len() - j,
        {
            let ghost before = out@;
            let ghost seen = subject_views(written@);
            assert(objects@[j as int]@ == views[j as int]);
            let inside = self.write_object(out, &objects[j], graph, indenter, path, fuel);
            append_subjects(&mut written, inside);
            if j + 1 < objects.len() {
                push_text(out, ",\n");
            }
            proof {
                let one = self@.object_text(graph@, views[j as int], indenter@, trail, fuel as nat);
                let between = if j + 1 < views.len() {
                    ",\n"@
                } else {
                    Seq::empty()
                };
                let rest = self@.objects_text(graph@, views, j + 1, indenter@, trail, fuel as nat);
                assert(out@ == before + one.0 + between);
                assert(before + (one.0 + between + rest.0) == before + one.0 + between + rest.0);
                assert(seen + (one.1 + rest.1) == seen + one.1 + rest.1);
            }
            j = j + 1;
        }
        assert(out@ + Seq::<char>::empty() == out@);
        assert(subject_views(written@) + Seq::<NodeView>::empty() == subject_views(written@));
        written
    }

    /// Writes the block of a subject and returns the blank nodes written
    /// inside it.
    fn write_block(
        &self,
        out: &mut String,
        subject: &SubjectNode,
        graph: &Graph,
        indenter: Indenter,
        path: &Vec<SubjectNode>,
        fuel: usize,
    ) -> (r: Vec<SubjectNode>)
        requires
            indenter@ + 2 * fuel + 2 <= usize::MAX,
        ensures
            ({
                let text = self@.block(
                    graph@,
                    subject@,
                    indenter@,
                    subject_views(path@),
                    fuel as nat,
                );
                &&& final(out)@ == old(out)@ + text.0
                &&& subject_views(r@) == text.1
            }),
        decreases fuel, 3nat, 0nat,
    {
        let ghost trail = subject_views(path@);
        indenter.write(out);
        match subject {
            SubjectNode::Blank(label) => {
                if indenter.depth() == 0 {
                    push_text(out, "_:");
                    push_text(out, label.as_str());
                    push_text(out, " ");
                    assert(out@ == old(out)@ + (indentation(indenter@) + ("_:"@ + label@ + " "@)));
                } else {
                    assert(out@ == old(out)@ + (indentation(indenter@) + Seq::<char>::empty()));
                }
            },
            SubjectNode::Named(iri) => {
                self.write_iri(out, iri, graph.prefix_mappings());
                assert(out@ == old(out)@ + (indentation(indenter@) + self@.iri_text(
                    graph@.mappings,
                    iri@,
                )));
            },
        }
        let ghost headed = out@;
        let predicates = graph.predicates_for(subject);
        let ghost names = crate::graph::iri_views(predicates@);
        let deeper = indenter.indent();
        let ghost whole = self@.predicates_text(
            graph@,
            subject@,
            names,
            0,
            deeper@,
            trail,
            fuel as nat,
        );
        let mut written: Vec<SubjectNode> = Vec::new();
        let mut i: usize = 0;
        assert(subject_views(written@) =~= Seq::empty());
        assert(Seq::<NodeView>::empty() + whole.1 == whole.1);
        while i < predicates.len()
            invariant
                i <= predicates.len(),
                deeper@ == indenter@ + 1,
                indenter@ + 2 * fuel + 2 <= usize::MAX,
                names == crate::graph::iri_views(predicates@),
                trail == subject_views(path@),
                whole == self@.predicates_text(
                    graph@,
                    subject@,
                    names,
                    0,
                    deeper@,
                    trail,
                    fuel as nat,
                ),
                ({
                    let rest = self@.predicates_text(
                        graph@,
                        subject@,
                        names,
                        i as int,
                        deeper@,
                        trail,
                        fuel as nat,
                    );
                    &&& headed + whole.0 == out@ + rest.0
                    &&& whole.1 == subject_views(written@) + rest.1
                }),
            decreases predicates.len() - i,
        {
            let ghost before = out@;
            let ghost seen = subject_views(written@);
            let predicate = &predicates[i];
            assert(predicate@ == names[i as int]);
            self.write_iri(out, predicate, graph.prefix_mappings());
            let objects = graph.objects_for(subject, predicate);
            let inner = if objects.len() > 1 {
                deeper.indent()
            } else {
                deeper
            };
            let inside = self.write_objects(out, &objects, graph, inner, path, fuel);
            append_subjects(&mut written, inside);
            if i + 1 < predicates.len() {
                push_text(out, ";\n");
                inner.write(out);
            }
            proof {
                let views = graph@.objects_for(subject@, names[i as int]);
                let name = self@.iri_text(graph@.mappings, names[i as int]);
                let text = self@.objects_text(graph@, views, 0, inner@, trail, fuel as nat);
                let between = if i + 1 < names.len() {
                    ";\n"@ + indentation(inner@)
                } else {
                    Seq::empty()
                };
                let rest = self@.predicates_text(
                    graph@,
                    subject@,
                    names,
                    i + 1,
                    deeper@,
                    trail,
                    fuel as nat,
                );
                assert(out@ == before + name + text.0 + between);
                assert(before + (name + text.0 + between + rest.0) == before + name + text.0
                    + between + rest.0);
                assert(seen + (text.1 + rest.1) == seen + text.1 + rest.1);
            }
            i = i + 1;
        }
        assert(out@ + Seq::<char>::empty() == out@);
        assert(subject_views(written@) + Seq::<NodeView>::empty() == subject_views(written@));
        if indenter.depth() == 0 {
            push_text(out, ".\n");
        } else {
            push_text(out, "\n");
        }
        proof {
            let head = indentation(indenter@) + match subject@ {
                NodeView::Named(iri) => self@.iri_text(graph@.mappings, iri),
                NodeView::Blank(label) => if indenter@ == 0 {
                    "_:"@ + label + " "@
                } else {
                    Seq::empty()
                },
                NodeView::Literal(_) => Seq::empty(),
            };
            let tail = if indenter@ == 0 {
                ".\n"@
            } else {
                "\n"@
            };
            assert(headed == old(out)@ + head);
            assert(out@ == headed + whole.0 + tail);
            assert(old(out)@ + (head + whole.0 + tail) == old(out)@ + head + whole.0 + tail);
        }
        written
    }

    /// How deep blank nodes may be nested when `graph` is written.
    fn nesting_of(graph: &Graph) -> (r: usize)
        ensures
            r == nesting(graph@),
            r <= MAX_NESTING,
    {
        if graph.len() < MAX_NESTING {
            graph.len() + 1
        } else {
            MAX_NESTING
        }
    }

    /// Writes the block of `subject` at the depth of `indenter`, and returns
    /// the blank nodes that are written inside the block.
    pub fn write_sub_graph(
        &self,
        out: &mut String,
        subject: &SubjectNode,
        in_graph: &Graph,
        indenter: Indenter,
    ) -> (r: Vec<SubjectNode>)
        requires
            indenter@ <= MAX_NESTING,
        ensures
            ({
                let path = if subject@ is Blank {
                    seq![subject@]
                } else {
                    Seq::empty()
                };
                let text = self@.block(in_graph@, subject@, indenter@, path, nesting(in_graph@));
                &&& final(out)@ == old(out)@ + text.0
                &&& subject_views(r@) == text.1
            }),
    {
        let mut path: Vec<SubjectNode> = Vec::new();
        if subject.is_blank() {
            path.push(subject.clone());
            assert(subject_views(path@) =~= seq![subject@]);
        } else {
            assert(subject_views(path@) =~= Seq::empty());
        }
        let fuel = TurtleWriter::nesting_of(in_graph);
        self.write_block(out, subject, in_graph, indenter, &path, fuel)
    }

    /// Writes the blocks of the subjects that an IRI names, and a line break
    /// for every subject. Returns the blank nodes written inside the blocks,
    /// and the blank subjects.
    fn write_named(&self, out: &mut String, graph: &Graph) -> (r: (
        Vec<SubjectNode>,
        Vec<SubjectNode>,
    ))
        ensures
            ({
                let whole = self@.named_blocks(graph@, graph@.subjects(), 0);
                &&& final(out)@ == old(out)@ + whole.0
                &&& subject_views(r.0@) == whole.1
                &&& subject_views(r.1@) == whole.2
                &&& forall|j: int| 0 <= j < r.1@.len() ==> (#[trigger] r.1@[j])@ is Blank
            }),
    {
        let subjects = graph.subjects();
        let ghost nodes = subject_views(subjects@);
        let ghost whole = self@.named_blocks(graph@, nodes, 0);
        let mut pending: Vec<SubjectNode> = Vec::new();
        let mut written: Vec<SubjectNode> = Vec::new();
        let mut i: usize = 0;
        assert(subject_views(pending@) =~= Seq::empty());
        assert(subject_views(written@) =~= Seq::empty());
        assert(Seq::<NodeView>::empty() + whole.1 == whole.1);
        assert(Seq::<NodeView>::empty() + whole.2 == whole.2);
        while i < subjects.len()
            invariant
                i <= subjects.len(),
                nodes == subject_views(subjects@),
                whole == self@.named_blocks(graph@, nodes, 0),
                forall|j: int| 0 <= j < pending@.len() ==> (#[trigger] pending@[j])@ is Blank,
                old(out)@ + whole.0 == out@ + self@.named_blocks(graph@, nodes, i as int).0,
                whole.1 == subject_views(written@) + self@.named_blocks(graph@, nodes, i as int).1,
                whole.2 == subject_views(pending@) + self@.named_blocks(graph@, nodes, i as int).2,
            decreases subjects.len() - i,
        {
            let ghost before = out@;
            let ghost seen = subject_views(written@);
            let ghost waiting = subject_views(pending@);
            let subject = &subjects[i];
            assert(subject@ == nodes[i as int]);
            let ghost rest = self@.named_blocks(graph@, nodes, i + 1);
            if subject.is_blank() {
                pending.push(subject.clone());
                assert(subject_views(pending@) =~= waiting + seq![subject@]);
                push_text(out, "\n");
                proof {
                    assert(before + ("\n"@ + rest.0) == before + "\n"@ + rest.0);
                    assert(waiting + (seq![subject@] + rest.2) == waiting + seq![subject@]
                        + rest.2);
                }
            } else {
                let inside = self.write_sub_graph(out, subject, graph, Indenter::default());
                append_subjects(&mut written, inside);
                push_text(out, "\n");
                proof {
                    let text = self@.block(graph@, subject@, 0, Seq::empty(), nesting(graph@));
                    assert(before + (text.0 + "\n"@ + rest.0) == before + text.0 + "\n"@ + rest.0);
                    assert(seen + (text.1 + rest.1) == seen + text.1 + rest.1);
                }
            }
            i = i + 1;
        }
        assert(out@ + Seq::<char>::empty() == out@);
        assert(subject_views(written@) + Seq::<NodeView>::empty() == subject_views(written@));
        assert(subject_views(pending@) + Seq::<NodeView>::empty() == subject_views(pending@));
        (written, pending)
    }

    /// The document of the graph.
    pub fn write(&self, graph: &Graph) -> (r: String)
        ensures
            r@ == self@.document(graph@),
    {
        let mut out = String::new();
        // the base
        match &self.base {
            Some(base) => {
                if self.options.use_sparql_style {
                    push_text(&mut out, "BASE <");
                    push_text(&mut out, base.as_str());
                    push_text(&mut out, ">\n");
                } else {
                    push_text(&mut out, "@base <");
                    push_text(&mut out, base.as_str());
                    push_text(&mut out, "> .\n");
                }
            },
            None => {},
        }
        assert(out@ =~= self@.base_text());
        push_text(&mut out, "\n");
        // the prefixes
        let mappings = graph.prefix_mappings();
        let ghost started = out@;
        let ghost lines = self@.prefix_lines(mappings@, 0);
        let count = mappings.len();
        let mut i: usize = 0;
        while i < count
            invariant
                i <= count == mappings@.len(),
                mappings@ == graph@.mappings,
                lines == self@.prefix_lines(mappings@, 0),
                started + lines == out@ + self@.prefix_lines(mappings@, i as int),
            decreases count - i,
        {
            let ghost before = out@;
            let (prefix, namespace) = mappings.get(i);
            if self.options.use_sparql_style {
                push_text(&mut out, "PREFIX ");
            } else {
                push_text(&mut out, "@prefix ");
            }
            match prefix {
                Prefix::Default => {
                    assert(out@ + Seq::<char>::empty() == out@);
                },
                Prefix::Named(name) => {
                    push_text(&mut out, name.as_str());
                },
            }
            push_text(&mut out, ": <");
            push_text(&mut out, namespace.as_str());
            if self.options.use_sparql_style {
                push_text(&mut out, ">\n");
            } else {
                push_text(&mut out, "> .\n");
            }
            proof {
                let line = self@.prefix_line(mappings@[i as int]);
                let rest = self@.prefix_lines(mappings@, i + 1);
                assert(out@ == before + line);
                assert(before + (line + rest) == before + line + rest);
            }
            i = i + 1;
        }
        assert(out@ + Seq::<char>::empty() == out@);
        push_text(&mut out, "\n");
        // the subjects that an IRI names
        let ghost preamble = out@;
        let ghost whole = self@.named_blocks(graph@, graph@.subjects(), 0);
        let (written, pending) = self.write_named(&mut out, graph);
        // the blank subjects that are not written yet
        let ghost named = out@;
        let ghost waiting = subject_views(pending@);
        let ghost seen = subject_views(written@);
        let ghost blanks = self@.blank_blocks(graph@, waiting, 0, seen);
        let mut k: usize = 0;
        while k < pending.len()
            invariant
                k <= pending.len(),
                waiting == subject_views(pending@),
                seen == subject_views(written@),
                forall|j: int| 0 <= j < pending@.len() ==> (#[trigger] pending@[j])@ is Blank,
                blanks == self@.blank_blocks(graph@, waiting, 0, seen),
                named + blanks == out@ + self@.blank_blocks(graph@, waiting, k as int, seen),
            decreases pending.len() - k,
        {
            let ghost before = out@;
            let subject = &pending[k];
            assert(subject@ == waiting[k as int]);
            let ghost rest = self@.blank_blocks(graph@, waiting, k + 1, seen);
            if !crate::graph::has_subject(&written, subject) {
                self.write_sub_graph(&mut out, subject, graph, Indenter::default());
                proof {
                    let text = self@.block(graph@, subject@, 0, seq![subject@], nesting(graph@));
                    assert(before + (text.0 + rest) == before + text.0 + rest);
                }
            } else {
                assert(before + (Seq::<char>::empty() + rest) == before + rest);
            }
            k = k + 1;
        }
        assert(out@ + Seq::<char>::empty() == out@);
        proof {
            assert(out@ == self@.base_text() + "\n"@ + lines + "\n"@ + whole.0 + blanks);
        }
        out
    }
}

impl Default for TurtleWriter {
    /// A writer without base, with the options that `TurtleOptions::default`
    /// gives.
    fn default() -> (r: TurtleWriter)
        ensures
            r@ == (WriterView { base: None, nest_blank_nodes: true, use_sparql_style: false }),
    {
        TurtleWriter::new(TurtleOptions::default())
    }
}

} // verus!
