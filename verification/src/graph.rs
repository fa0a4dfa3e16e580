//! A graph: statements without repetition, in the order in which they were
//! added, with a table of prefixes and, where it is a named graph, a name.

use crate::graph::named::{MutableNamedGraph, NamedGraph};
use crate::iri::Iri;
use crate::mapping::{Binding, PrefixMappings};
use crate::statement::{
    statement_views, NodeView, ObjectNode, Statement, StatementView, SubjectNode,
};
use vstd::prelude::*;

pub mod named;

verus! {

/// The statements with `statement` added at the end, unless it is among them
/// already.
pub open spec fn inserted(statements: Seq<StatementView>, statement: StatementView) -> Seq<
    StatementView,
> {
    if statements.contains(statement) {
        statements
    } else {
        statements.push(statement)
    }
}

/// The subjects of the first `upto` statements, each once, in the order in
/// which they first occur.
pub open spec fn subjects_of(statements: Seq<StatementView>, upto: int) -> Seq<NodeView>
    decreases upto,
{
    if upto <= 0 || upto > statements.len() {
        Seq::empty()
    } else {
        let before = subjects_of(statements, upto - 1);
        if before.contains(statements[upto - 1].subject) {
            before
        } else {
            before.push(statements[upto - 1].subject)
        }
    }
}

/// The predicates of those of the first `upto` statements that are about
/// `subject`, each once, in the order in which they first occur.
pub open spec fn predicates_of(statements: Seq<StatementView>, subject: NodeView, upto: int)
    -> Seq<Seq<char>>
    decreases upto,
{
    if upto <= 0 || upto > statements.len() {
        Seq::empty()
    } else {
        let before = predicates_of(statements, subject, upto - 1);
        if statements[upto - 1].subject != subject || before.contains(
            statements[upto - 1].predicate,
        ) {
            before
        } else {
            before.push(statements[upto - 1].predicate)
        }
    }
}

/// The objects of those of the first `upto` statements that have the subject
/// `subject` and the predicate `predicate`, in their order.
pub open spec fn objects_of(
    statements: Seq<StatementView>,
    subject: NodeView,
    predicate: Seq<char>,
    upto: int,
) -> Seq<NodeView>
    decreases upto,
{
    if upto <= 0 || upto > statements.len() {
        Seq::empty()
    } else {
        let before = objects_of(statements, subject, predicate, upto - 1);
        if statements[upto - 1].subject == subject && statements[upto - 1].predicate
            == predicate {
            before.push(statements[upto - 1].object)
        } else {
            before
        }
    }
}

/// Adding a statement a second time changes nothing, and a list without
/// repetition stays without repetition.
pub proof fn lemma_inserted(statements: Seq<StatementView>, statement: StatementView)
    ensures
        inserted(inserted(statements, statement), statement) == inserted(statements, statement),
        inserted(statements, statement).contains(statement),
        statements.no_duplicates() ==> inserted(statements, statement).no_duplicates(),
{
    if !statements.contains(statement) {
        let after = statements.push(statement);
        assert(after[statements.len() as int] == statement);
        if statements.no_duplicates() {
            assert forall|i: int, j: int| 0 <= i < after.len() && 0 <= j < after.len() && i
                != j implies after[i] != after[j] by {
                if i < statements.len() && j < statements.len() {
                } else if i < statements.len() {
                    assert(statements.contains(statements[i]));
                } else {
                    assert(statements.contains(statements[j]));
                }
            }
        }
    }
}

/// The content of a list of subjects.
pub open spec fn subject_views(nodes: Seq<SubjectNode>) -> Seq<NodeView> {
    Seq::new(nodes.len(), |i: int| nodes[i]@)
}

/// The content of a list of objects.
pub open spec fn object_node_views(nodes: Seq<ObjectNode>) -> Seq<NodeView> {
    Seq::new(nodes.len(), |i: int| nodes[i]@)
}

/// The content of a list of IRIs.
pub open spec fn iri_views(iris: Seq<Iri>) -> Seq<Seq<char>> {
    Seq::new(iris.len(), |i: int| iris[i]@)
}

/// Whether `node` is in the list.
pub fn has_subject(nodes: &Vec<SubjectNode>, node: &SubjectNode) -> (r: bool)
    ensures
        r == subject_views(nodes@).contains(node@),
{
    let ghost views = subject_views(nodes@);
    let mut i: usize = 0;
    while i < nodes.len()
        invariant
            i <= nodes.len(),
            views == subject_views(nodes@),
            forall|j: int| 0 <= j < i ==> views[j] != node@,
        decreases nodes.len() - i,
    {
        if nodes[i] == *node {
            assert(views[i as int] == node@);
            return true;
        }
        i = i + 1;
    }
    false
}

/// Whether `iri` is in the list.
pub fn has_iri(iris: &Vec<Iri>, iri: &Iri) -> (r: bool)
    ensures
        r == iri_views(iris@).contains(iri@),
{
    let ghost views = iri_views(iris@);
    let mut i: usize = 0;
    while i < iris.len()
        invariant
            i <= iris.len(),
            views == iri_views(iris@),
            forall|j: int| 0 <= j < i ==> views[j] != iri@,
        decreases iris.len() - i,
    {
        if iris[i] == *iri {
            assert(views[i as int] == iri@);
            return true;
        }
        i = i + 1;
    }
    false
}

/// A graph.
#[derive(Debug)]
pub struct Graph {
    statements: Vec<Statement>,
    mappings: PrefixMappings,
    name: Option<Iri>,
}

/// The mathematical content of a [`Graph`].
pub struct GraphView {
    pub statements: Seq<StatementView>,
    pub mappings: Seq<Binding>,
    pub name: Option<Seq<char>>,
}

impl GraphView {
    /// The graph without statements, prefixes or name.
    pub open spec fn empty() -> GraphView {
        GraphView { statements: Seq::empty(), mappings: Seq::empty(), name: None }
    }

    /// The subjects of the graph, each once, in the order in which they
    /// first occur.
    pub open spec fn subjects(self) -> Seq<NodeView> {
        subjects_of(self.statements, self.statements.len() as int)
    }

    /// The predicates under which the graph says something about `subject`,
    /// each once, in the order in which they first occur.
    pub open spec fn predicates_for(self, subject: NodeView) -> Seq<Seq<char>> {
        predicates_of(self.statements, subject, self.statements.len() as int)
    }

    /// What the graph says about `subject` under `predicate`, in order.
    pub open spec fn objects_for(self, subject: NodeView, predicate: Seq<char>) -> Seq<NodeView> {
        objects_of(self.statements, subject, predicate, self.statements.len() as int)
    }
}

impl View for Graph {
    type V = GraphView;

    closed spec fn view(&self) -> GraphView {
        GraphView {
            statements: statement_views(self.statements@),
            mappings: self.mappings@,
            name: match self.name {
                Some(name) => Some(name@),
                None => None,
            },
        }
    }
}

impl Graph {
    /// Whether every IRI in the statements of the graph has a scheme.
    pub closed spec fn absolute(&self) -> bool {
        forall|i: int| 0 <= i < self.statements@.len() ==> (#[trigger] self.statements@[i]).absolute()
    }

    #[verifier::type_invariant]
    spec fn inv(self) -> bool {
        statement_views(self.statements@).no_duplicates()
    }

    /// A graph without statements, prefixes or name.
    pub fn new() -> (r: Graph)
        ensures
            r.absolute(),
            r@ == GraphView::empty(),
    {
        let r = Graph { statements: Vec::new(), mappings: PrefixMappings::new(), name: None };
        assert(r@.statements =~= Seq::empty());
        r
    }

    /// Whether the graph has no statement.
    pub fn is_empty(&self) -> (r: bool)
        ensures
            r == (self@.statements.len() == 0),
    {
        self.statements.len() == 0
    }

    /// The number of statements.
    pub fn len(&self) -> (r: usize)
        ensures
            r == self@.statements.len(),
    {
        self.statements.len()
    }

    /// Whether the statement is in the graph.
    pub fn contains(&self, statement: &Statement) -> (r: bool)
        ensures
            r == self@.statements.contains(statement@),
    {
        let ghost views = self@.statements;
        let mut i: usize = 0;
        while i < self.statements.len()
            invariant
                i <= self.statements.len(),
                views == statement_views(self.statements@),
                forall|j: int| 0 <= j < i ==> views[j] != statement@,
            decreases self.statements.len() - i,
        {
            if self.statements[i] == *statement {
                assert(views[i as int] == statement@);
                return true;
            }
            i = i + 1;
        }
        false
    }

    /// Adds the statement, unless it is in the graph already.
    pub fn insert(&mut self, statement: Statement)
        ensures
            old(self).absolute() && statement.absolute() ==> final(self).absolute(),
            final(self)@.statements == inserted(old(self)@.statements, statement@),
            final(self)@.mappings == old(self)@.mappings,
            final(self)@.name == old(self)@.name,
    {
        proof {
            use_type_invariant(&*self);
            lemma_inserted(self@.statements, statement@);
        }
        if !self.contains(&statement) {
            let mut statements: Vec<Statement> = Vec::new();
            assert(statement_views(statements@) =~= Seq::empty());
            std::mem::swap(&mut self.statements, &mut statements);
            statements.push(statement);
            assert(statement_views(statements@) =~= old(self)@.statements.push(statement@));
            std::mem::swap(&mut self.statements, &mut statements);
        }
    }

    /// The statements, in the order in which they were added. None occurs
    /// twice.
    pub fn statements(&self) -> (r: &Vec<Statement>)
        ensures
            self.absolute() == (forall|i: int| 0 <= i < r@.len() ==> (#[trigger] r@[i]).absolute()),
            statement_views(r@) == self@.statements,
            self@.statements.no_duplicates(),
    {
        proof {
            use_type_invariant(self);
        }
        &self.statements
    }

    /// The table of prefixes.
    pub fn prefix_mappings(&self) -> (r: &PrefixMappings)
        ensures
            r@ == self@.mappings,
    {
        &self.mappings
    }

    /// Replaces the table of prefixes.
    pub fn set_prefix_mappings(&mut self, mappings: PrefixMappings)
        ensures
            final(self).absolute() == old(self).absolute(),
            final(self)@.mappings == mappings@,
            final(self)@.statements == old(self)@.statements,
            final(self)@.name == old(self)@.name,
    {
        proof {
            use_type_invariant(&*self);
        }
        self.mappings = mappings;
    }

    /// The subjects, each once, in the order in which they first occur.
    pub fn subjects(&self) -> (r: Vec<SubjectNode>)
        ensures
            subject_views(r@) == self@.subjects(),
    {
        let ghost views = self@.statements;
        let mut out: Vec<SubjectNode> = Vec::new();
        let mut i: usize = 0;
        assert(subject_views(out@) =~= subjects_of(views, 0));
        while i < self.statements.len()
            invariant
                i <= self.statements.len(),
                views == statement_views(self.statements@),
                subject_views(out@) == subjects_of(views, i as int),
            decreases self.statements.len() - i,
        {
            let subject = self.statements[i].subject();
            assert(subject@ == views[i as int].subject);
            if !has_subject(&out, subject) {
                let ghost before = subject_views(out@);
                out.push(subject.clone());
                assert(subject_views(out@) =~= before.push(subject@));
            }
            i = i + 1;
        }
        out
    }

    /// The predicates under which the graph says something about `subject`,
    /// each once, in the order in which they first occur.
    pub fn predicates_for(&self, subject: &SubjectNode) -> (r: Vec<Iri>)
        ensures
            iri_views(r@) == self@.predicates_for(subject@),
    {
        let ghost views = self@.statements;
        let mut out: Vec<Iri> = Vec::new();
        let mut i: usize = 0;
        assert(iri_views(out@) =~= predicates_of(views, subject@, 0));
        while i < self.statements.len()
            invariant
                i <= self.statements.len(),
                views == statement_views(self.statements@),
                iri_views(out@) == predicates_of(views, subject@, i as int),
            decreases self.statements.len() - i,
        {
            let statement = &self.statements[i];
            assert(statement@ == views[i as int]);
            if *statement.subject() == *subject && !has_iri(&out, statement.predicate()) {
                let ghost before = iri_views(out@);
                out.push(statement.predicate().clone());
                assert(iri_views(out@) =~= before.push(statement@.predicate));
            }
            i = i + 1;
        }
        out
    }

    /// What the graph says about `subject` under `predicate`, in order.
    pub fn objects_for(&self, subject: &SubjectNode, predicate: &Iri) -> (r: Vec<ObjectNode>)
        ensures
            object_node_views(r@) == self@.objects_for(subject@, predicate@),
    {
        let ghost views = self@.statements;
        let mut out: Vec<ObjectNode> = Vec::new();
        let mut i: usize = 0;
        assert(object_node_views(out@) =~= objects_of(views, subject@, predicate@, 0));
        while i < self.statements.len()
            invariant
                i <= self.statements.len(),
                views == statement_views(self.statements@),
                object_node_views(out@) == objects_of(views, subject@, predicate@, i as int),
            decreases self.statements.len() - i,
        {
            let statement = &self.statements[i];
            assert(statement@ == views[i as int]);
            if *statement.subject() == *subject && *statement.predicate() == *predicate {
                let ghost before = object_node_views(out@);
                out.push(statement.object().clone());
                assert(object_node_views(out@) =~= before.push(statement@.object));
            }
            i = i + 1;
        }
        out
    }
}

impl NamedGraph for Graph {
    open spec fn graph_name(&self) -> Option<Seq<char>> {
        self@.name
    }

    fn name(&self) -> (r: &Option<Iri>) {
        &self.name
    }
}

impl MutableNamedGraph for Graph {
    fn set_name(&mut self, name: Iri) -> (r: Option<Iri>)
        ensures
            final(self).absolute() == old(self).absolute(),
            final(self)@.name == Some(name@),
            final(self)@.statements == old(self)@.statements,
            final(self)@.mappings == old(self)@.mappings,
    {
        proof {
            use_type_invariant(&*self);
        }
        let mut slot = Some(name);
        std::mem::swap(&mut self.name, &mut slot);
        slot
    }

    fn unset_name(&mut self) -> (r: Option<Iri>)
        ensures
            final(self).absolute() == old(self).absolute(),
            final(self)@.name is None,
            final(self)@.statements == old(self)@.statements,
            final(self)@.mappings == old(self)@.mappings,
    {
        proof {
            use_type_invariant(&*self);
        }
        let mut slot: Option<Iri> = None;
        std::mem::swap(&mut self.name, &mut slot);
        slot
    }
}

} // verus!
