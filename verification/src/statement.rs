//! Nodes and statements: the triple of a subject, a predicate and an object.

use crate::iri::Iri;
use crate::literal::{Literal, LiteralView};
use crate::text::push_text;
use vstd::prelude::*;
use vstd::std_specs::cmp::PartialEqSpecImpl;
use vstd::std_specs::convert::FromSpecImpl;

verus! {

/// The mathematical content of a node.
pub enum NodeView {
    /// The node that the IRI names.
    Named(Seq<char>),
    /// The blank node with the label.
    Blank(Seq<char>),
    /// A literal.
    Literal(LiteralView),
}

impl NodeView {
    /// The node as it is written in the line-oriented format.
    pub open spec fn text(self) -> Seq<char> {
        match self {
            NodeView::Named(iri) => "<"@ + iri + ">"@,
            NodeView::Blank(label) => "_:"@ + label,
            NodeView::Literal(literal) => literal.text(),
        }
    }
}

/// A node in the place of a subject: named by an IRI, or blank.
#[derive(Debug, Hash)]
pub enum SubjectNode {
    /// The node that the IRI names.
    Named(Iri),
    /// The blank node with the label.
    Blank(String),
}

impl View for SubjectNode {
    type V = NodeView;

    open spec fn view(&self) -> NodeView {
        match self {
            SubjectNode::Named(iri) => NodeView::Named(iri@),
            SubjectNode::Blank(label) => NodeView::Blank(label@),
        }
    }
}

impl SubjectNode {
    /// Whether the IRI of the node, where it has one, has a scheme.
    pub open spec fn absolute(&self) -> bool {
        match self {
            SubjectNode::Named(iri) => !iri.relative(),
            SubjectNode::Blank(_) => true,
        }
    }

    /// The blank node with the label `name`.
    pub fn blank_named(name: &str) -> (r: SubjectNode)
        ensures
            r@ == NodeView::Blank(name@),
    {
        SubjectNode::Blank(name.to_owned())
    }

    /// The node that `name` names.
    pub fn named(name: Iri) -> (r: SubjectNode)
        ensures
            r@ == NodeView::Named(name@),
    {
        SubjectNode::Named(name)
    }

    /// Whether the node is blank.
    pub fn is_blank(&self) -> (r: bool)
        ensures
            r == self@ is Blank,
    {
        match self {
            SubjectNode::Blank(_) => true,
            _ => false,
        }
    }

    /// The label, if the node is blank.
    pub fn as_blank(&self) -> (r: Option<&String>)
        ensures
            match r {
                Some(label) => self@ == NodeView::Blank(label@),
                None => !(self@ is Blank),
            },
    {
        match self {
            SubjectNode::Blank(label) => Some(label),
            _ => None,
        }
    }

    /// Whether an IRI names the node.
    pub fn is_iri(&self) -> (r: bool)
        ensures
            r == self@ is Named,
    {
        match self {
            SubjectNode::Named(_) => true,
            _ => false,
        }
    }

    /// Whether an IRI names the node.
    pub fn is_named(&self) -> (r: bool)
        ensures
            r == self@ is Named,
    {
        self.is_iri()
    }

    /// The IRI, if one names the node.
    pub fn as_iri(&self) -> (r: Option<&Iri>)
        ensures
            match r {
                Some(iri) => self@ == NodeView::Named(iri@),
                None => !(self@ is Named),
            },
    {
        match self {
            SubjectNode::Named(iri) => Some(iri),
            _ => None,
        }
    }

    /// The node as it is written in the line-oriented format.
    pub fn to_string(&self) -> (r: String)
        ensures
            r@ == self@.text(),
    {
        let mut out = String::new();
        match self {
            SubjectNode::Named(iri) => {
                push_text(&mut out, "<");
                push_text(&mut out, iri.as_str());
                push_text(&mut out, ">");
            },
            SubjectNode::Blank(label) => {
                push_text(&mut out, "_:");
                push_text(&mut out, label.as_str());
            },
        }
        out
    }
}

impl Clone for SubjectNode {
    fn clone(&self) -> (r: Self)
        ensures
            r.absolute() == self.absolute(),
            r@ == self@,
    {
        match self {
            SubjectNode::Named(iri) => SubjectNode::Named(iri.clone()),
            SubjectNode::Blank(label) => SubjectNode::Blank(label.clone()),
        }
    }
}

impl PartialEq for SubjectNode {
    fn eq(&self, other: &Self) -> (r: bool) {
        match (self, other) {
            (SubjectNode::Named(a), SubjectNode::Named(b)) => a == b,
            (SubjectNode::Blank(a), SubjectNode::Blank(b)) => *a == *b,
            _ => false,
        }
    }
}

impl Eq for SubjectNode {

}

impl PartialEqSpecImpl for SubjectNode {
    open spec fn obeys_eq_spec() -> bool {
        true
    }

    open spec fn eq_spec(&self, other: &Self) -> bool {
        self@ == other@
    }
}

/// A node in the place of an object: named by an IRI, blank, or a literal.
#[derive(Debug, Hash)]
pub enum ObjectNode {
    /// The node that the IRI names.
    Named(Iri),
    /// The blank node with the label.
    Blank(String),
    /// A literal.
    Literal(Literal),
}

impl View for ObjectNode {
    type V = NodeView;

    open spec fn view(&self) -> NodeView {
        match self {
            ObjectNode::Named(iri) => NodeView::Named(iri@),
            ObjectNode::Blank(label) => NodeView::Blank(label@),
            ObjectNode::Literal(literal) => NodeView::Literal(literal@),
        }
    }
}

impl ObjectNode {
    /// Whether the IRI of the node, and the IRI of the datatype where the
    /// node is a literal with one, has a scheme.
    pub open spec fn absolute(&self) -> bool {
        match self {
            ObjectNode::Named(iri) => !iri.relative(),
            ObjectNode::Blank(_) => true,
            ObjectNode::Literal(literal) => literal.absolute(),
        }
    }

    /// The blank node with the label `name`.
    pub fn blank_named(name: &str) -> (r: ObjectNode)
        ensures
            r@ == NodeView::Blank(name@),
    {
        ObjectNode::Blank(name.to_owned())
    }

    /// The node that `name` names.
    pub fn named(name: Iri) -> (r: ObjectNode)
        ensures
            r@ == NodeView::Named(name@),
    {
        ObjectNode::Named(name)
    }

    /// The literal as a node.
    pub fn literal(literal: Literal) -> (r: ObjectNode)
        ensures
            r@ == NodeView::Literal(literal@),
    {
        ObjectNode::Literal(literal)
    }

    /// Whether the node is blank.
    pub fn is_blank(&self) -> (r: bool)
        ensures
            r == self@ is Blank,
    {
        match self {
            ObjectNode::Blank(_) => true,
            _ => false,
        }
    }

    /// The label, if the node is blank.
    pub fn as_blank(&self) -> (r: Option<&String>)
        ensures
            match r {
                Some(label) => self@ == NodeView::Blank(label@),
                None => !(self@ is Blank),
            },
    {
        match self {
            ObjectNode::Blank(label) => Some(label),
            _ => None,
        }
    }

    /// Whether an IRI names the node.
    pub fn is_iri(&self) -> (r: bool)
        ensures
            r == self@ is Named,
    {
        match self {
            ObjectNode::Named(_) => true,
            _ => false,
        }
    }

    /// The IRI, if one names the node.
    pub fn as_iri(&self) -> (r: Option<&Iri>)
        ensures
            match r {
                Some(iri) => self@ == NodeView::Named(iri@),
                None => !(self@ is Named),
            },
    {
        match self {
            ObjectNode::Named(iri) => Some(iri),
            _ => None,
        }
    }

    /// Whether the node is a literal.
    pub fn is_literal(&self) -> (r: bool)
        ensures
            r == self@ is Literal,
    {
        match self {
            ObjectNode::Literal(_) => true,
            _ => false,
        }
    }

    /// The literal, if the node is one.
    pub fn as_literal(&self) -> (r: Option<&Literal>)
        ensures
            match r {
                Some(literal) => self@ == NodeView::Literal(literal@),
                None => !(self@ is Literal),
            },
    {
        match self {
            ObjectNode::Literal(literal) => Some(literal),
            _ => None,
        }
    }

    /// The same node in the place of a subject, unless it is a literal.
    pub fn as_subject(&self) -> (r: Option<SubjectNode>)
        ensures
            r matches Some(subject) ==> subject.absolute() == self.absolute(),
            match r {
                Some(subject) => subject@ == self@,
                None => self@ is Literal,
            },
    {
        match self {
            ObjectNode::Named(iri) => Some(SubjectNode::Named(iri.clone())),
            ObjectNode::Blank(label) => Some(SubjectNode::Blank(label.clone())),
            ObjectNode::Literal(_) => None,
        }
    }

    /// The node as it is written in the line-oriented format.
    pub fn to_string(&self) -> (r: String)
        ensures
            r@ == self@.text(),
    {
        match self {
            ObjectNode::Named(iri) => {
                let mut out = String::new();
                push_text(&mut out, "<");
                push_text(&mut out, iri.as_str());
                push_text(&mut out, ">");
                out
            },
            ObjectNode::Blank(label) => {
                let mut out = String::new();
                push_text(&mut out, "_:");
                push_text(&mut out, label.as_str());
                out
            },
            ObjectNode::Literal(literal) => literal.to_string(),
        }
    }
}

impl Clone for ObjectNode {
    fn clone(&self) -> (r: Self)
        ensures
            r.absolute() == self.absolute(),
            r@ == self@,
    {
        match self {
            ObjectNode::Named(iri) => ObjectNode::Named(iri.clone()),
            ObjectNode::Blank(label) => ObjectNode::Blank(label.clone()),
            ObjectNode::Literal(literal) => ObjectNode::Literal(literal.clone()),
        }
    }
}

impl PartialEq for ObjectNode {
    fn eq(&self, other: &Self) -> (r: bool) {
        match (self, other) {
            (ObjectNode::Named(a), ObjectNode::Named(b)) => a == b,
            (ObjectNode::Blank(a), ObjectNode::Blank(b)) => *a == *b,
            (ObjectNode::Literal(a), ObjectNode::Literal(b)) => a == b,
            _ => false,
        }
    }
}

impl Eq for ObjectNode {

}

impl PartialEqSpecImpl for ObjectNode {
    open spec fn obeys_eq_spec() -> bool {
        true
    }

    open spec fn eq_spec(&self, other: &Self) -> bool {
        self@ == other@
    }
}

impl From<SubjectNode> for ObjectNode {
    fn from(subject: SubjectNode) -> (r: ObjectNode)
        ensures
            r.absolute() == subject.absolute(),
            r@ == subject@,
    {
        match subject {
            SubjectNode::Named(iri) => ObjectNode::Named(iri),
            SubjectNode::Blank(label) => ObjectNode::Blank(label),
        }
    }
}

impl FromSpecImpl<SubjectNode> for ObjectNode {
    open spec fn obeys_from_spec() -> bool {
        false
    }

    open spec fn from_spec(subject: SubjectNode) -> ObjectNode {
        arbitrary()
    }
}

impl From<Literal> for ObjectNode {
    fn from(literal: Literal) -> (r: ObjectNode)
        ensures
            r@ == NodeView::Literal(literal@),
    {
        ObjectNode::Literal(literal)
    }
}

impl FromSpecImpl<Literal> for ObjectNode {
    open spec fn obeys_from_spec() -> bool {
        false
    }

    open spec fn from_spec(literal: Literal) -> ObjectNode {
        arbitrary()
    }
}

impl From<Iri> for ObjectNode {
    fn from(iri: Iri) -> (r: ObjectNode)
        ensures
            r@ == NodeView::Named(iri@),
    {
        ObjectNode::Named(iri)
    }
}

impl FromSpecImpl<Iri> for ObjectNode {
    open spec fn obeys_from_spec() -> bool {
        false
    }

    open spec fn from_spec(iri: Iri) -> ObjectNode {
        arbitrary()
    }
}

impl From<Iri> for SubjectNode {
    fn from(iri: Iri) -> (r: SubjectNode)
        ensures
            r@ == NodeView::Named(iri@),
    {
        SubjectNode::Named(iri)
    }
}

impl FromSpecImpl<Iri> for SubjectNode {
    open spec fn obeys_from_spec() -> bool {
        false
    }

    open spec fn from_spec(iri: Iri) -> SubjectNode {
        arbitrary()
    }
}

/// A statement: a subject, a predicate and an object.
#[derive(Debug, Hash)]
pub struct Statement {
    subject: SubjectNode,
    predicate: Iri,
    object: ObjectNode,
}

/// The mathematical content of a [`Statement`].
pub struct StatementView {
    pub subject: NodeView,
    pub predicate: Seq<char>,
    pub object: NodeView,
}

impl StatementView {
    /// The statement as one line of the line-oriented format, without the
    /// line break.
    pub open spec fn text(self) -> Seq<char> {
        self.subject.text() + " <"@ + self.predicate + "> "@ + self.object.text() + " ."@
    }
}

impl View for Statement {
    type V = StatementView;

    closed spec fn view(&self) -> StatementView {
        StatementView {
            subject: self.subject@,
            predicate: self.predicate@,
            object: self.object@,
        }
    }
}

impl Statement {
    /// Whether every IRI in the statement has a scheme: that of the subject,
    /// the predicate, that of the object, and that of the datatype of a
    /// literal.
    pub closed spec fn absolute(&self) -> bool {
        self.subject.absolute() && !self.predicate.relative() && self.object.absolute()
    }

    /// The statement of the three terms.
    pub fn new(subject: SubjectNode, predicate: Iri, object: ObjectNode) -> (r: Statement)
        ensures
            r.absolute() == (subject.absolute() && !predicate.relative() && object.absolute()),
            r@ == (StatementView { subject: subject@, predicate: predicate@, object: object@ }),
    {
        Statement { subject, predicate, object }
    }

    /// The subject.
    pub fn subject(&self) -> (r: &SubjectNode)
        ensures
            self.absolute() ==> r.absolute(),
            r@ == self@.subject,
    {
        &self.subject
    }

    /// The predicate.
    pub fn predicate(&self) -> (r: &Iri)
        ensures
            self.absolute() ==> !r.relative(),
            r@ == self@.predicate,
    {
        &self.predicate
    }

    /// The object.
    pub fn object(&self) -> (r: &ObjectNode)
        ensures
            self.absolute() ==> r.absolute(),
            r@ == self@.object,
    {
        &self.object
    }

    /// The statement as one line of the line-oriented format, without the
    /// line break.
    pub fn to_string(&self) -> (r: String)
        ensures
            r@ == self@.text(),
    {
        let mut out = self.subject.to_string();
        push_text(&mut out, " <");
        push_text(&mut out, self.predicate.as_str());
        push_text(&mut out, "> ");
        let object = self.object.to_string();
        push_text(&mut out, object.as_str());
        push_text(&mut out, " .");
        out
    }
}

impl Clone for Statement {
    fn clone(&self) -> (r: Self)
        ensures
            r.absolute() == self.absolute(),
            r@ == self@,
    {
        Statement {
            subject: self.subject.clone(),
            predicate: self.predicate.clone(),
            object: self.object.clone(),
        }
    }
}

impl PartialEq for Statement {
    fn eq(&self, other: &Self) -> (r: bool) {
        self.subject == other.subject && self.predicate == other.predicate && self.object
            == other.object
    }
}

impl Eq for Statement {

}

impl PartialEqSpecImpl for Statement {
    open spec fn obeys_eq_spec() -> bool {
        true
    }

    open spec fn eq_spec(&self, other: &Self) -> bool {
        self@ == other@
    }
}

/// The mathematical content of a list of statements.
pub open spec fn statement_views(statements: Seq<Statement>) -> Seq<StatementView> {
    statements.map_values(|statement: Statement| statement@)
}

} // verus!
