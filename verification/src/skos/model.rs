//! A model of a thesaurus: a scheme holds concepts and collections, each
//! with labels and notes, and concepts are related to one another. The model
//! is turned into statements and into a graph.

use crate::escape::escaped;
use crate::graph::{Graph, GraphView};
use crate::iri::Iri;
use crate::literal::{DataTypeView, Literal, LiteralView};
use crate::mapping::{bind, Binding, PrefixMappings};
use crate::names::{dc_terms, owl, rdf, skos, skos_iso, skos_xl, term_status, xsd};
use crate::nt::parser::inserted_all;
use crate::statement::{
    statement_views, NodeView, ObjectNode, Statement, StatementView, SubjectNode,
};
use vstd::prelude::*;
use vstd::std_specs::cmp::PartialEqSpecImpl;

verus! {

/// A property whose value is a literal: a label, a note, a date.
#[derive(Debug, Hash)]
pub struct LiteralProperty {
    predicate: Iri,
    value: Literal,
}

/// The mathematical content of a [`LiteralProperty`].
pub struct PropertyView {
    pub predicate: Seq<char>,
    pub value: LiteralView,
}

/// A property whose value is another concept or collection.
#[derive(Debug, Hash)]
pub struct ObjectProperty {
    predicate: Iri,
    other: Iri,
}

/// The mathematical content of an [`ObjectProperty`].
pub struct RelationView {
    pub predicate: Seq<char>,
    pub other: Seq<char>,
}

/// What can be said as one statement about a given subject.
pub trait ToStatement {
    /// The statement about `subject`.
    spec fn statement(&self, subject: NodeView) -> StatementView;

    /// The statement about `subject`.
    fn to_statement(&self, subject: &SubjectNode) -> (r: Statement)
        ensures
            r@ == self.statement(subject@),
    ;
}

/// What can be said as a list of statements.
pub trait ToStatements {
    /// The statements.
    spec fn statements(&self) -> Seq<StatementView>;

    /// The statements.
    fn to_statements(&self) -> (r: Vec<Statement>)
        ensures
            statement_views(r@) == self.statements(),
    ;
}

/// What an IRI names.
pub trait Named: Sized {
    /// The IRI, as text.
    spec fn name(&self) -> Seq<char>;

    /// The thing that `uri` names, with nothing said about it.
    fn new(uri: Iri) -> (r: Self)
        ensures
            r.name() == uri@,
    ;

    /// The thing that `uri` names, with a preferred label: in the language
    /// `language`, or typed as a string where no language is given.
    fn new_with_label(uri: Iri, text: &str, language: Option<&str>) -> (r: Self)
        ensures
            r.name() == uri@,
    ;

    /// The IRI.
    fn uri(&self) -> (r: &Iri)
        ensures
            r@ == self.name(),
    ;
}

impl View for LiteralProperty {
    type V = PropertyView;

    closed spec fn view(&self) -> PropertyView {
        PropertyView { predicate: self.predicate@, value: self.value@ }
    }
}

impl View for ObjectProperty {
    type V = RelationView;

    closed spec fn view(&self) -> RelationView {
        RelationView { predicate: self.predicate@, other: self.other@ }
    }
}

/// The content of a list of properties.
pub open spec fn property_views(properties: Seq<LiteralProperty>) -> Seq<PropertyView> {
    Seq::new(properties.len(), |i: int| properties[i]@)
}

/// The content of a list of relations.
pub open spec fn relation_views(relations: Seq<ObjectProperty>) -> Seq<RelationView> {
    Seq::new(relations.len(), |i: int| relations[i]@)
}

impl LiteralProperty {
    /// The property with the predicate `predicate` and the value `value`.
    pub fn new(predicate: Iri, value: Literal) -> (r: LiteralProperty)
        ensures
            r@ == (PropertyView { predicate: predicate@, value: value@ }),
    {
        LiteralProperty { predicate, value }
    }

    /// A preferred label, typed as a string.
    pub fn preferred_label(text: &str) -> (r: LiteralProperty)
        ensures
            r@ == (PropertyView {
                predicate: skos::name("prefLabel"@),
                value: LiteralView::typed(escaped(text@), DataTypeView::String),
            }),
    {
        LiteralProperty::new(skos::pref_label(), Literal::from(text))
    }

    /// A preferred label in the language `language`.
    pub fn preferred_label_with(text: &str, language: &str) -> (r: LiteralProperty)
        ensures
            r@ == (PropertyView {
                predicate: skos::name("prefLabel"@),
                value: LiteralView::tagged(escaped(text@), language@),
            }),
    {
        LiteralProperty::new(skos::pref_label(), Literal::with_language(text, language))
    }

    /// An alternative label, typed as a string.
    pub fn alternative_label(text: &str) -> (r: LiteralProperty)
        ensures
            r@ == (PropertyView {
                predicate: skos::name("altLabel"@),
                value: LiteralView::typed(escaped(text@), DataTypeView::String),
            }),
    {
        LiteralProperty::new(skos::alt_label(), Literal::from(text))
    }

    /// An alternative label in the language `language`.
    pub fn alternative_label_with(text: &str, language: &str) -> (r: LiteralProperty)
        ensures
            r@ == (PropertyView {
                predicate: skos::name("altLabel"@),
                value: LiteralView::tagged(escaped(text@), language@),
            }),
    {
        LiteralProperty::new(skos::alt_label(), Literal::with_language(text, language))
    }

    /// A hidden label, typed as a string.
    pub fn hidden_label(text: &str) -> (r: LiteralProperty)
        ensures
            r@ == (PropertyView {
                predicate: skos::name("hiddenLabel"@),
                value: LiteralView::typed(escaped(text@), DataTypeView::String),
            }),
    {
        LiteralProperty::new(skos::hidden_label(), Literal::from(text))
    }

    /// A hidden label in the language `language`.
    pub fn hidden_label_with(text: &str, language: &str) -> (r: LiteralProperty)
        ensures
            r@ == (PropertyView {
                predicate: skos::name("hiddenLabel"@),
                value: LiteralView::tagged(escaped(text@), language@),
            }),
    {
        LiteralProperty::new(skos::hidden_label(), Literal::with_language(text, language))
    }

    /// A note on a change, typed as a string.
    pub fn change_note(text: &str) -> (r: LiteralProperty)
        ensures
            r@ == (PropertyView {
                predicate: skos::name("changeNote"@),
                value: LiteralView::typed(escaped(text@), DataTypeView::String),
            }),
    {
        LiteralProperty::new(skos::change_note(), Literal::from(text))
    }

    /// A note on a change in the language `language`.
    pub fn change_note_with(text: &str, language: &str) -> (r: LiteralProperty)
        ensures
            r@ == (PropertyView {
                predicate: skos::name("changeNote"@),
                value: LiteralView::tagged(escaped(text@), language@),
            }),
    {
        LiteralProperty::new(skos::change_note(), Literal::with_language(text, language))
    }

    /// A definition, typed as a string.
    pub fn definition(text: &str) -> (r: LiteralProperty)
        ensures
            r@ == (PropertyView {
                predicate: skos::name("definition"@),
                value: LiteralView::typed(escaped(text@), DataTypeView::String),
            }),
    {
        LiteralProperty::new(skos::definition(), Literal::from(text))
    }

    /// A definition in the language `language`.
    pub fn definition_with(text: &str, language: &str) -> (r: LiteralProperty)
        ensures
            r@ == (PropertyView {
                predicate: skos::name("definition"@),
                value: LiteralView::tagged(escaped(text@), language@),
            }),
    {
        LiteralProperty::new(skos::definition(), Literal::with_language(text, language))
    }

    /// A note for editors, typed as a string.
    pub fn editorial_note(text: &str) -> (r: LiteralProperty)
        ensures
            r@ == (PropertyView {
                predicate: skos::name("editorialNote"@),
                value: LiteralView::typed(escaped(text@), DataTypeView::String),
            }),
    {
        LiteralProperty::new(skos::editorial_note(), Literal::from(text))
    }

    /// A note for editors in the language `language`.
    pub fn editorial_note_with(text: &str, language: &str) -> (r: LiteralProperty)
        ensures
            r@ == (PropertyView {
                predicate: skos::name("editorialNote"@),
                value: LiteralView::tagged(escaped(text@), language@),
            }),
    {
        LiteralProperty::new(skos::editorial_note(), Literal::with_language(text, language))
    }

    /// An example, typed as a string.
    pub fn example(text: &str) -> (r: LiteralProperty)
        ensures
            r@ == (PropertyView {
                predicate: skos::name("example"@),
                value: LiteralView::typed(escaped(text@), DataTypeView::String),
            }),
    {
        LiteralProperty::new(skos::example(), Literal::from(text))
    }

    /// An example in the language `language`.
    pub fn example_with(text: &str, language: &str) -> (r: LiteralProperty)
        ensures
            r@ == (PropertyView {
                predicate: skos::name("example"@),
                value: LiteralView::tagged(escaped(text@), language@),
            }),
    {
        LiteralProperty::new(skos::example(), Literal::with_language(text, language))
    }

    /// A note on the history, typed as a string.
    pub fn history_note(text: &str) -> (r: LiteralProperty)
        ensures
            r@ == (PropertyView {
                predicate: skos::name("historyNote"@),
                value: LiteralView::typed(escaped(text@), DataTypeView::String),
            }),
    {
        LiteralProperty::new(skos::history_note(), Literal::from(text))
    }

    /// A note on the history in the language `language`.
    pub fn history_note_with(text: &str, language: &str) -> (r: LiteralProperty)
        ensures
            r@ == (PropertyView {
                predicate: skos::name("historyNote"@),
                value: LiteralView::tagged(escaped(text@), language@),
            }),
    {
        LiteralProperty::new(skos::history_note(), Literal::with_language(text, language))
    }

    /// A note, typed as a string.
    pub fn note(text: &str) -> (r: LiteralProperty)
        ensures
            r@ == (PropertyView {
                predicate: skos::name("note"@),
                value: LiteralView::typed(escaped(text@), DataTypeView::String),
            }),
    {
        LiteralProperty::new(skos::note(), Literal::from(text))
    }

    /// A note in the language `language`.
    pub fn note_with(text: &str, language: &str) -> (r: LiteralProperty)
        ensures
            r@ == (PropertyView {
                predicate: skos::name("note"@),
                value: LiteralView::tagged(escaped(text@), language@),
            }),
    {
        LiteralProperty::new(skos::note(), Literal::with_language(text, language))
    }

    /// A note on the scope, typed as a string.
    pub fn scope_note(text: &str) -> (r: LiteralProperty)
        ensures
            r@ == (PropertyView {
                predicate: skos::name("scopeNote"@),
                value: LiteralView::typed(escaped(text@), DataTypeView::String),
            }),
    {
        LiteralProperty::new(skos::scope_note(), Literal::from(text))
    }

    /// A note on the scope in the language `language`.
    pub fn scope_note_with(text: &str, language: &str) -> (r: LiteralProperty)
        ensures
            r@ == (PropertyView {
                predicate: skos::name("scopeNote"@),
                value: LiteralView::tagged(escaped(text@), language@),
            }),
    {
        LiteralProperty::new(skos::scope_note(), Literal::with_language(text, language))
    }

    /// A notation.
    pub fn notation(text: &str) -> (r: LiteralProperty)
        ensures
            r@ == (PropertyView {
                predicate: skos::name("notation"@),
                value: LiteralView::plain(escaped(text@)),
            }),
    {
        LiteralProperty::new(skos::notation(), Literal::new(text))
    }

    /// The date of creation.
    pub fn created(text: &str) -> (r: LiteralProperty)
        ensures
            r@ == (PropertyView {
                predicate: dc_terms::name("created"@),
                value: LiteralView::plain(escaped(text@)),
            }),
    {
        LiteralProperty::new(dc_terms::created(), Literal::new(text))
    }

    /// The creator.
    pub fn creator(text: &str) -> (r: LiteralProperty)
        ensures
            r@ == (PropertyView {
                predicate: dc_terms::name("creator"@),
                value: LiteralView::plain(escaped(text@)),
            }),
    {
        LiteralProperty::new(dc_terms::creator(), Literal::new(text))
    }

    /// A description.
    pub fn description(text: &str) -> (r: LiteralProperty)
        ensures
            r@ == (PropertyView {
                predicate: dc_terms::name("description"@),
                value: LiteralView::plain(escaped(text@)),
            }),
    {
        LiteralProperty::new(dc_terms::description(), Literal::new(text))
    }

    /// The date of issue.
    pub fn issued(text: &str) -> (r: LiteralProperty)
        ensures
            r@ == (PropertyView {
                predicate: dc_terms::name("issued"@),
                value: LiteralView::plain(escaped(text@)),
            }),
    {
        LiteralProperty::new(dc_terms::issued(), Literal::new(text))
    }

    /// The date of the last change.
    pub fn modified(text: &str) -> (r: LiteralProperty)
        ensures
            r@ == (PropertyView {
                predicate: dc_terms::name("modified"@),
                value: LiteralView::plain(escaped(text@)),
            }),
    {
        LiteralProperty::new(dc_terms::modified(), Literal::new(text))
    }

    /// The publisher.
    pub fn publisher(text: &str) -> (r: LiteralProperty)
        ensures
            r@ == (PropertyView {
                predicate: dc_terms::name("publisher"@),
                value: LiteralView::plain(escaped(text@)),
            }),
    {
        LiteralProperty::new(dc_terms::publisher(), Literal::new(text))
    }

    /// The rights.
    pub fn rights(text: &str) -> (r: LiteralProperty)
        ensures
            r@ == (PropertyView {
                predicate: dc_terms::name("rights"@),
                value: LiteralView::plain(escaped(text@)),
            }),
    {
        LiteralProperty::new(dc_terms::rights(), Literal::new(text))
    }

    /// The subject.
    pub fn subject(text: &str) -> (r: LiteralProperty)
        ensures
            r@ == (PropertyView {
                predicate: dc_terms::name("subject"@),
                value: LiteralView::plain(escaped(text@)),
            }),
    {
        LiteralProperty::new(dc_terms::subject(), Literal::new(text))
    }

    /// The title.
    pub fn title(text: &str) -> (r: LiteralProperty)
        ensures
            r@ == (PropertyView {
                predicate: dc_terms::name("title"@),
                value: LiteralView::plain(escaped(text@)),
            }),
    {
        LiteralProperty::new(dc_terms::title(), Literal::new(text))
    }

    /// The predicate.
    pub fn predicate(&self) -> (r: &Iri)
        ensures
            r@ == self@.predicate,
    {
        &self.predicate
    }

    /// The value.
    pub fn value(&self) -> (r: &Literal)
        ensures
            r@ == self@.value,
    {
        &self.value
    }
}

impl Clone for LiteralProperty {
    fn clone(&self) -> (r: Self)
        ensures
            r@ == self@,
    {
        LiteralProperty { predicate: self.predicate.clone(), value: self.value.clone() }
    }
}

impl PartialEq for LiteralProperty {
    fn eq(&self, other: &Self) -> (r: bool) {
        self.predicate == other.predicate && self.value == other.value
    }
}

impl Eq for LiteralProperty {

}

impl PartialEqSpecImpl for LiteralProperty {
    open spec fn obeys_eq_spec() -> bool {
        true
    }

    open spec fn eq_spec(&self, other: &Self) -> bool {
        self@ == other@
    }
}

impl ToStatement for LiteralProperty {
    open spec fn statement(&self, subject: NodeView) -> StatementView {
        StatementView {
            subject,
            predicate: self@.predicate,
            object: NodeView::Literal(self@.value),
        }
    }

    fn to_statement(&self, subject: &SubjectNode) -> (r: Statement) {
        Statement::new(
            subject.clone(),
            self.predicate.clone(),
            ObjectNode::Literal(self.value.clone()),
        )
    }
}

impl ObjectProperty {
    /// The property with the predicate `predicate` and the value `other`.
    pub fn new(predicate: Iri, other: Iri) -> (r: ObjectProperty)
        ensures
            r@ == (RelationView { predicate: predicate@, other: other@ }),
    {
        ObjectProperty { predicate, other }
    }

    /// A broader concept.
    pub fn broader(other: Iri) -> (r: ObjectProperty)
        ensures
            r@ == (RelationView { predicate: skos::name("broader"@), other: other@ }),
    {
        ObjectProperty::new(skos::broader(), other)
    }

    /// A concept that is broader, be it by several steps.
    pub fn transitively_broader(other: Iri) -> (r: ObjectProperty)
        ensures
            r@ == (RelationView { predicate: skos::name("broaderTransitive"@), other: other@ }),
    {
        ObjectProperty::new(skos::broader_transitive(), other)
    }

    /// A narrower concept.
    pub fn narrower(other: Iri) -> (r: ObjectProperty)
        ensures
            r@ == (RelationView { predicate: skos::name("narrower"@), other: other@ }),
    {
        ObjectProperty::new(skos::narrower(), other)
    }

    /// A concept that is narrower, be it by several steps.
    pub fn transitively_narrower(other: Iri) -> (r: ObjectProperty)
        ensures
            r@ == (RelationView { predicate: skos::name("narrowerTransitive"@), other: other@ }),
    {
        ObjectProperty::new(skos::narrower_transitive(), other)
    }

    /// A related concept.
    pub fn related_to(other: Iri) -> (r: ObjectProperty)
        ensures
            r@ == (RelationView { predicate: skos::name("related"@), other: other@ }),
    {
        ObjectProperty::new(skos::related(), other)
    }

    /// A broader concept of another scheme.
    pub fn broad_match(other: Iri) -> (r: ObjectProperty)
        ensures
            r@ == (RelationView { predicate: skos::name("broadMatch"@), other: other@ }),
    {
        ObjectProperty::new(skos::broad_match(), other)
    }

    /// A concept of another scheme that is close.
    pub fn close_match(other: Iri) -> (r: ObjectProperty)
        ensures
            r@ == (RelationView { predicate: skos::name("closeMatch"@), other: other@ }),
    {
        ObjectProperty::new(skos::close_match(), other)
    }

    /// The same concept in another scheme.
    pub fn exact_match(other: Iri) -> (r: ObjectProperty)
        ensures
            r@ == (RelationView { predicate: skos::name("exactMatch"@), other: other@ }),
    {
        ObjectProperty::new(skos::exact_match(), other)
    }

    /// A narrower concept of another scheme.
    pub fn narrow_match(other: Iri) -> (r: ObjectProperty)
        ensures
            r@ == (RelationView { predicate: skos::name("narrowMatch"@), other: other@ }),
    {
        ObjectProperty::new(skos::narrow_match(), other)
    }

    /// A related concept of another scheme.
    pub fn related_match(other: Iri) -> (r: ObjectProperty)
        ensures
            r@ == (RelationView { predicate: skos::name("relatedMatch"@), other: other@ }),
    {
        ObjectProperty::new(skos::related_match(), other)
    }

    /// A member of a collection.
    pub fn member(other: Iri) -> (r: ObjectProperty)
        ensures
            r@ == (RelationView { predicate: skos::name("member"@), other: other@ }),
    {
        ObjectProperty::new(skos::member(), other)
    }

    /// The list of the members of an ordered collection.
    pub fn member_list(other: Iri) -> (r: ObjectProperty)
        ensures
            r@ == (RelationView { predicate: skos::name("memberList"@), other: other@ }),
    {
        ObjectProperty::new(skos::member_list(), other)
    }

    /// A broader concept of which this one is a kind.
    pub fn broader_generic(other: Iri) -> (r: ObjectProperty)
        ensures
            r@ == (RelationView { predicate: skos_iso::name("broaderGeneric"@), other: other@ }),
    {
        ObjectProperty::new(skos_iso::broader_generic(), other)
    }

    /// A broader concept of which this one is an instance.
    pub fn broader_instantial(other: Iri) -> (r: ObjectProperty)
        ensures
            r@ == (RelationView { predicate: skos_iso::name("broaderInstantial"@), other: other@ }),
    {
        ObjectProperty::new(skos_iso::broader_instantial(), other)
    }

    /// A broader concept of which this one is a part.
    pub fn broader_partitive(other: Iri) -> (r: ObjectProperty)
        ensures
            r@ == (RelationView { predicate: skos_iso::name("broaderPartitive"@), other: other@ }),
    {
        ObjectProperty::new(skos_iso::broader_partitive(), other)
    }

    /// A narrower concept that is a kind of this one.
    pub fn narrower_generic(other: Iri) -> (r: ObjectProperty)
        ensures
            r@ == (RelationView { predicate: skos_iso::name("narrowerGeneric"@), other: other@ }),
    {
        ObjectProperty::new(skos_iso::narrower_generic(), other)
    }

    /// A narrower concept that is an instance of this one.
    pub fn narrower_instantial(other: Iri) -> (r: ObjectProperty)
        ensures
            r@ == (RelationView { predicate: skos_iso::name("narrowerInstantial"@), other: other@ }),
    {
        ObjectProperty::new(skos_iso::narrower_instantial(), other)
    }

    /// A narrower concept that is a part of this one.
    pub fn narrower_partitive(other: Iri) -> (r: ObjectProperty)
        ensures
            r@ == (RelationView { predicate: skos_iso::name("narrowerPartitive"@), other: other@ }),
    {
        ObjectProperty::new(skos_iso::narrower_partitive(), other)
    }

    /// The predicate.
    pub fn predicate(&self) -> (r: &Iri)
        ensures
            r@ == self@.predicate,
    {
        &self.predicate
    }

    /// The value.
    pub fn other(&self) -> (r: &Iri)
        ensures
            r@ == self@.other,
    {
        &self.other
    }
}

impl Clone for ObjectProperty {
    fn clone(&self) -> (r: Self)
        ensures
            r@ == self@,
    {
        ObjectProperty { predicate: self.predicate.clone(), other: self.other.clone() }
    }
}

impl PartialEq for ObjectProperty {
    fn eq(&self, other: &Self) -> (r: bool) {
        self.predicate == other.predicate && self.other == other.other
    }
}

impl Eq for ObjectProperty {

}

impl PartialEqSpecImpl for ObjectProperty {
    open spec fn obeys_eq_spec() -> bool {
        true
    }

    open spec fn eq_spec(&self, other: &Self) -> bool {
        self@ == other@
    }
}

impl ToStatement for ObjectProperty {
    open spec fn statement(&self, subject: NodeView) -> StatementView {
        StatementView {
            subject,
            predicate: self@.predicate,
            object: NodeView::Named(self@.other),
        }
    }

    fn to_statement(&self, subject: &SubjectNode) -> (r: Statement) {
        Statement::new(subject.clone(), self.predicate.clone(), ObjectNode::Named(self.other.clone()))
    }
}

/// The table of the prefixes that a thesaurus is usually written with.
pub open spec fn standard_bindings() -> Seq<Binding> {
    seq![
        (Some(skos::PREFIX@), skos::NAMESPACE@),
        (Some(skos_xl::PREFIX@), skos_xl::NAMESPACE@),
        (Some(skos_iso::PREFIX@), skos_iso::NAMESPACE@),
        (Some(term_status::PREFIX@), term_status::NAMESPACE@),
        (Some(dc_terms::PREFIX@), dc_terms::NAMESPACE@),
        (Some(rdf::PREFIX@), rdf::NAMESPACE@),
        (Some(owl::PREFIX@), owl::NAMESPACE@),
        (Some(xsd::PREFIX@), xsd::NAMESPACE@),
    ]
}

/// The table of the prefixes that a thesaurus is usually written with.
pub fn standard_mappings() -> (r: PrefixMappings)
    ensures
        r@ == standard_bindings(),
{
    let mut mappings = PrefixMappings::new();
    proof {
        reveal_strlit("skos");
        reveal_strlit("skosxl");
        reveal_strlit("iso-thes");
        reveal_strlit("ts");
        reveal_strlit("dcterms");
        reveal_strlit("rdf");
        reveal_strlit("owl");
        reveal_strlit("xsd");
        reveal_with_fuel(crate::mapping::bound_at, 9);
    }
    let ghost all = standard_bindings();
    proof {
        assert(skos::PREFIX@.len() == 4);
        assert(skos_xl::PREFIX@.len() == 6);
        assert(skos_iso::PREFIX@.len() == 8);
        assert(term_status::PREFIX@.len() == 2);
        assert(dc_terms::PREFIX@.len() == 7);
        assert(rdf::PREFIX@.len() == 3 && rdf::PREFIX@[0] == 'r');
        assert(owl::PREFIX@.len() == 3 && owl::PREFIX@[0] == 'o');
        assert(xsd::PREFIX@.len() == 3 && xsd::PREFIX@[0] == 'x');
    }
    let _ = mappings.insert(skos::PREFIX, skos::namespace_iri());
    assert(mappings@ =~= all.take(1));
    assert(crate::mapping::bound_at(mappings@, Some(skos_xl::PREFIX@), 1) == -1);
    let _ = mappings.insert(skos_xl::PREFIX, skos_xl::namespace_iri());
    assert(mappings@ =~= all.take(2));
    assert(crate::mapping::bound_at(mappings@, Some(skos_iso::PREFIX@), 2) == -1);
    let _ = mappings.insert(skos_iso::PREFIX, skos_iso::namespace_iri());
    assert(mappings@ =~= all.take(3));
    assert(crate::mapping::bound_at(mappings@, Some(term_status::PREFIX@), 3) == -1);
    let _ = mappings.insert(term_status::PREFIX, term_status::namespace_iri());
    assert(mappings@ =~= all.take(4));
    assert(crate::mapping::bound_at(mappings@, Some(dc_terms::PREFIX@), 4) == -1);
    let _ = mappings.insert(dc_terms::PREFIX, dc_terms::namespace_iri());
    assert(mappings@ =~= all.take(5));
    assert(crate::mapping::bound_at(mappings@, Some(rdf::PREFIX@), 5) == -1);
    let _ = mappings.insert(rdf::PREFIX, rdf::namespace_iri());
    assert(mappings@ =~= all.take(6));
    assert(crate::mapping::bound_at(mappings@, Some(owl::PREFIX@), 6) == -1);
    let _ = mappings.insert(owl::PREFIX, owl::namespace_iri());
    assert(mappings@ =~= all.take(7));
    assert(crate::mapping::bound_at(mappings@, Some(xsd::PREFIX@), 7) == -1);
    let _ = mappings.insert(xsd::PREFIX, xsd::namespace_iri());
    assert(mappings@ =~= all.take(8));
    assert(all.take(8) =~= all);
    mappings
}

/// What has properties whose values are literals.
pub trait Propertied {
    /// The properties, in the order in which they were added.
    spec fn property_list(&self) -> Seq<PropertyView>;

    /// Adds a property at the end.
    fn add_property(&mut self, property: LiteralProperty)
        ensures
            final(self).property_list() == old(self).property_list().push(property@),
    ;

    /// The properties, in the order in which they were added.
    fn properties(&self) -> (r: &Vec<LiteralProperty>)
        ensures
            property_views(r@) == self.property_list(),
    ;

    /// Whether a property has the predicate `predicate`.
    fn has_property(&self, predicate: &Iri) -> (r: bool)
        ensures
            r == has_predicate(self.property_list(), predicate@),
    ;

    /// Whether there is a property.
    fn has_properties(&self) -> (r: bool)
        ensures
            r == (self.property_list().len() > 0),
    ;
}

/// What has labels among its properties.
pub trait Labeled: Propertied {
    /// The preferred label for a reader of the language `for_language`: the
    /// last preferred label in that language; where there is none, the last
    /// without language; where there is none either, the first preferred
    /// label. `None` where there is no preferred label at all.
    fn preferred_label(&self, for_language: &str) -> (r: Option<String>)
        ensures
            match r {
                Some(text) => preferred(self.property_list(), for_language@) == Some(text@),
                None => preferred(self.property_list(), for_language@) is None,
            },
    ;

    /// Whether a property is a label.
    fn has_labels(&self) -> (r: bool)
        ensures
            r == (labels_of(self.property_list(), self.property_list().len() as int).len() > 0),
    ;

    /// The labels, in the order in which they were added.
    fn labels(&self) -> (r: Vec<LiteralProperty>)
        ensures
            property_views(r@) == labels_of(
                self.property_list(),
                self.property_list().len() as int,
            ),
    ;

    /// Adds a preferred label, typed as a string.
    fn add_preferred_label(&mut self, text: &str)
        ensures
            final(self).property_list() == old(self).property_list().push(
                PropertyView {
                    predicate: skos::name("prefLabel"@),
                    value: LiteralView::typed(escaped(text@), DataTypeView::String),
                },
            ),
    ;

    /// Adds a preferred label in the language `language`.
    fn add_preferred_label_with(&mut self, text: &str, language: &str)
        ensures
            final(self).property_list() == old(self).property_list().push(
                PropertyView {
                    predicate: skos::name("prefLabel"@),
                    value: LiteralView::tagged(escaped(text@), language@),
                },
            ),
    ;

    /// Adds an alternative label, typed as a string.
    fn add_alternative_label(&mut self, text: &str)
        ensures
            final(self).property_list() == old(self).property_list().push(
                PropertyView {
                    predicate: skos::name("altLabel"@),
                    value: LiteralView::typed(escaped(text@), DataTypeView::String),
                },
            ),
    ;

    /// Adds an alternative label in the language `language`.
    fn add_alternative_label_with(&mut self, text: &str, language: &str)
        ensures
            final(self).property_list() == old(self).property_list().push(
                PropertyView {
                    predicate: skos::name("altLabel"@),
                    value: LiteralView::tagged(escaped(text@), language@),
                },
            ),
    ;

    /// Adds a hidden label, typed as a string.
    fn add_hidden_label(&mut self, text: &str)
        ensures
            final(self).property_list() == old(self).property_list().push(
                PropertyView {
                    predicate: skos::name("hiddenLabel"@),
                    value: LiteralView::typed(escaped(text@), DataTypeView::String),
                },
            ),
    ;

    /// Adds a hidden label in the language `language`.
    fn add_hidden_label_with(&mut self, text: &str, language: &str)
        ensures
            final(self).property_list() == old(self).property_list().push(
                PropertyView {
                    predicate: skos::name("hiddenLabel"@),
                    value: LiteralView::tagged(escaped(text@), language@),
                },
            ),
    ;
}

/// Whether a property in the list has the predicate `predicate`.
pub open spec fn has_predicate(properties: Seq<PropertyView>, predicate: Seq<char>) -> bool {
    exists|i: int| 0 <= i < properties.len() && (#[trigger] properties[i]).predicate == predicate
}

/// Whether the predicate is that of a preferred, an alternative or a hidden
/// label.
pub open spec fn is_label(predicate: Seq<char>) -> bool {
    predicate == skos::name("prefLabel"@) || predicate == skos::name("altLabel"@) || predicate
        == skos::name("hiddenLabel"@)
}

/// The labels among the first `upto` properties, in their order.
pub open spec fn labels_of(properties: Seq<PropertyView>, upto: int) -> Seq<PropertyView>
    decreases upto,
{
    if upto <= 0 || upto > properties.len() {
        Seq::empty()
    } else if is_label(properties[upto - 1].predicate) {
        labels_of(properties, upto - 1).push(properties[upto - 1])
    } else {
        labels_of(properties, upto - 1)
    }
}

/// The text of the last preferred label among the first `upto` properties
/// whose language is `language`.
pub open spec fn last_preferred(
    properties: Seq<PropertyView>,
    language: Option<Seq<char>>,
    upto: int,
) -> Option<Seq<char>>
    decreases upto,
{
    if upto <= 0 || upto > properties.len() {
        None
    } else if properties[upto - 1].predicate == skos::name("prefLabel"@) && properties[upto
        - 1].value.language == language {
        Some(properties[upto - 1].value.lexical_form)
    } else {
        last_preferred(properties, language, upto - 1)
    }
}

/// The text of the first preferred label among the first `upto`
/// properties.
pub open spec fn first_preferred(properties: Seq<PropertyView>, upto: int) -> Option<Seq<char>>
    decreases upto,
{
    if upto <= 0 || upto > properties.len() {
        None
    } else {
        match first_preferred(properties, upto - 1) {
            Some(text) => Some(text),
            None => if properties[upto - 1].predicate == skos::name("prefLabel"@) {
                Some(properties[upto - 1].value.lexical_form)
            } else {
                None
            },
        }
    }
}

/// The preferred label for a reader of the language `language`: the last
/// preferred label in that language; where there is none, the last without
/// language; where there is none either, the first preferred label.
pub open spec fn preferred(properties: Seq<PropertyView>, language: Seq<char>) -> Option<
    Seq<char>,
> {
    let n = properties.len() as int;
    match last_preferred(properties, Some(language), n) {
        Some(text) => Some(text),
        None => match last_preferred(properties, None, n) {
            Some(text) => Some(text),
            None => first_preferred(properties, n),
        },
    }
}

/// Decides `is_label`.
fn label_predicate(predicate: &Iri) -> (r: bool)
    ensures
        r == is_label(predicate@),
{
    *predicate == skos::pref_label() || *predicate == skos::alt_label() || *predicate
        == skos::hidden_label()
}

/// The text of the last preferred label in the list whose language is
/// `language`.
fn last_preferred_in(properties: &Vec<LiteralProperty>, language: Option<&str>) -> (r: Option<
    String,
>)
    ensures
        match r {
            Some(text) => last_preferred(
                property_views(properties@),
                match language {
                    Some(language) => Some(language@),
                    None => None,
                },
                properties.len() as int,
            ) == Some(text@),
            None => last_preferred(
                property_views(properties@),
                match language {
                    Some(language) => Some(language@),
                    None => None,
                },
                properties.len() as int,
            ) is None,
        },
{
    let ghost views = property_views(properties@);
    let ghost wanted: Option<Seq<char>> = match language {
        Some(language) => Some(language@),
        None => None,
    };
    let pref_label = skos::pref_label();
    let mut k: usize = properties.len();
    while k > 0
        invariant
            k <= properties.len(),
            views == property_views(properties@),
            pref_label@ == skos::name("prefLabel"@),
            wanted == match language {
                Some(language) => Some(language@),
                None => None,
            },
            last_preferred(views, wanted, properties.len() as int) == last_preferred(
                views,
                wanted,
                k as int,
            ),
        decreases k,
    {
        let property = &properties[k - 1];
        assert(property@ == views[k - 1]);
        if *property.predicate() == pref_label {
            let same = match (property.value().language(), language) {
                (Some(a), Some(b)) => *a.as_str() == *b,
                (None, None) => true,
                _ => false,
            };
            if same {
                return Some(property.value().lexical_form().clone());
            }
        }
        k = k - 1;
    }
    None
}

/// The text of the first preferred label in the list.
fn first_preferred_in(properties: &Vec<LiteralProperty>) -> (r: Option<String>)
    ensures
        match r {
            Some(text) => first_preferred(property_views(properties@), properties.len() as int)
                == Some(text@),
            None => first_preferred(property_views(properties@), properties.len() as int)
                is None,
        },
{
    let ghost views = property_views(properties@);
    let pref_label = skos::pref_label();
    let mut i: usize = 0;
    while i < properties.len()
        invariant
            i <= properties.len(),
            views == property_views(properties@),
            pref_label@ == skos::name("prefLabel"@),
            first_preferred(views, i as int) is None,
        decreases properties.len() - i,
    {
        let property = &properties[i];
        assert(property@ == views[i as int]);
        if *property.predicate() == pref_label {
            let text = property.value().lexical_form().clone();
            proof {
                lemma_first_preferred(views, i + 1, properties.len() as int);
            }
            return Some(text);
        }
        i = i + 1;
    }
    None
}

/// The first preferred label stays the first when more properties follow.
proof fn lemma_first_preferred(properties: Seq<PropertyView>, found: int, upto: int)
    requires
        0 <= found <= upto <= properties.len(),
        first_preferred(properties, found) is Some,
    ensures
        first_preferred(properties, upto) == first_preferred(properties, found),
    decreases upto - found,
{
    if found < upto {
        lemma_first_preferred(properties, found, upto - 1);
    }
}

/// Whether a property in the list has the predicate `predicate`.
fn has_predicate_in(properties: &Vec<LiteralProperty>, predicate: &Iri) -> (r: bool)
    ensures
        r == has_predicate(property_views(properties@), predicate@),
{
    let ghost views = property_views(properties@);
    let mut i: usize = 0;
    while i < properties.len()
        invariant
            i <= properties.len(),
            views == property_views(properties@),
            forall|j: int| 0 <= j < i ==> (#[trigger] views[j]).predicate != predicate@,
        decreases properties.len() - i,
    {
        if *properties[i].predicate() == *predicate {
            assert(views[i as int].predicate == predicate@);
            return true;
        }
        i = i + 1;
    }
    false
}

/// The preferred label among the properties for a reader of the language
/// `for_language`.
fn preferred_in(properties: &Vec<LiteralProperty>, for_language: &str) -> (r: Option<String>)
    ensures
        match r {
            Some(text) => preferred(property_views(properties@), for_language@) == Some(text@),
            None => preferred(property_views(properties@), for_language@) is None,
        },
{
    match last_preferred_in(properties, Some(for_language)) {
        Some(text) => Some(text),
        None => match last_preferred_in(properties, None) {
            Some(text) => Some(text),
            None => first_preferred_in(properties),
        },
    }
}

/// The labels among the properties, in their order.
fn labels_in(properties: &Vec<LiteralProperty>) -> (r: Vec<LiteralProperty>)
    ensures
        property_views(r@) == labels_of(property_views(properties@), properties.len() as int),
{
    let ghost views = property_views(properties@);
    let mut out: Vec<LiteralProperty> = Vec::new();
    let mut i: usize = 0;
    assert(property_views(out@) =~= labels_of(views, 0));
    while i < properties.len()
        invariant
            i <= properties.len(),
            views == property_views(properties@),
            property_views(out@) == labels_of(views, i as int),
        decreases properties.len() - i,
    {
        let property = &properties[i];
        assert(property@ == views[i as int]);
        if label_predicate(property.predicate()) {
            let ghost before = property_views(out@);
            out.push(property.clone());
            assert(property_views(out@) =~= before.push(property@));
        }
        i = i + 1;
    }
    out
}

/// A copy of a list of properties.
fn clone_properties(properties: &Vec<LiteralProperty>) -> (r: Vec<LiteralProperty>)
    ensures
        property_views(r@) == property_views(properties@),
{
    let mut out: Vec<LiteralProperty> = Vec::new();
    let mut i: usize = 0;
    while i < properties.len()
        invariant
            i <= properties.len(),
            out.len() == i,
            forall|j: int| 0 <= j < i ==> out@[j]@ == properties@[j]@,
        decreases properties.len() - i,
    {
        out.push(properties[i].clone());
        i = i + 1;
    }
    assert(property_views(out@) =~= property_views(properties@));
    out
}

/// A copy of a list of relations.
fn clone_relations(relations: &Vec<ObjectProperty>) -> (r: Vec<ObjectProperty>)
    ensures
        relation_views(r@) == relation_views(relations@),
{
    let mut out: Vec<ObjectProperty> = Vec::new();
    let mut i: usize = 0;
    while i < relations.len()
        invariant
            i <= relations.len(),
            out.len() == i,
            forall|j: int| 0 <= j < i ==> out@[j]@ == relations@[j]@,
        decreases relations.len() - i,
    {
        out.push(relations[i].clone());
        i = i + 1;
    }
    assert(relation_views(out@) =~= relation_views(relations@));
    out
}

/// Whether two lists of properties hold the same.
fn same_properties(a: &Vec<LiteralProperty>, b: &Vec<LiteralProperty>) -> (r: bool)
    ensures
        r == (property_views(a@) == property_views(b@)),
{
    if a.len() != b.len() {
        assert(property_views(a@).len() != property_views(b@).len());
        return false;
    }
    let mut i: usize = 0;
    while i < a.len()
        invariant
            i <= a.len() == b.len(),
            forall|j: int| 0 <= j < i ==> a@[j]@ == b@[j]@,
        decreases a.len() - i,
    {
        if !(a[i] == b[i]) {
            assert(property_views(a@)[i as int] != property_views(b@)[i as int]);
            return false;
        }
        i = i + 1;
    }
    assert(property_views(a@) =~= property_views(b@));
    true
}

/// Whether two lists of relations hold the same.
fn same_relations(a: &Vec<ObjectProperty>, b: &Vec<ObjectProperty>) -> (r: bool)
    ensures
        r == (relation_views(a@) == relation_views(b@)),
{
    if a.len() != b.len() {
        assert(relation_views(a@).len() != relation_views(b@).len());
        return false;
    }
    let mut i: usize = 0;
    while i < a.len()
        invariant
            i <= a.len() == b.len(),
            forall|j: int| 0 <= j < i ==> a@[j]@ == b@[j]@,
        decreases a.len() - i,
    {
        if !(a[i] == b[i]) {
            assert(relation_views(a@)[i as int] != relation_views(b@)[i as int]);
            return false;
        }
        i = i + 1;
    }
    assert(relation_views(a@) =~= relation_views(b@));
    true
}

/// The statements that say of `subject` what the relations say.
pub open spec fn relation_statements(subject: NodeView, relations: Seq<RelationView>) -> Seq<
    StatementView,
> {
    Seq::new(
        relations.len(),
        |i: int|
            StatementView {
                subject,
                predicate: relations[i].predicate,
                object: NodeView::Named(relations[i].other),
            },
    )
}

/// The statements that say of `subject` what the properties say.
pub open spec fn property_statements(subject: NodeView, properties: Seq<PropertyView>) -> Seq<
    StatementView,
> {
    Seq::new(
        properties.len(),
        |i: int|
            StatementView {
                subject,
                predicate: properties[i].predicate,
                object: NodeView::Literal(properties[i].value),
            },
    )
}

/// The statement that `subject` is of the class `class`.
pub open spec fn type_statement(subject: NodeView, class: Seq<char>) -> StatementView {
    StatementView { subject, predicate: rdf::name("type"@), object: NodeView::Named(class) }
}

/// Adds one statement to the list.
fn emit(sts: &mut Vec<Statement>, statement: Statement)
    ensures
        statement_views(final(sts)@) == statement_views(old(sts)@).push(statement@),
{
    sts.push(statement);
    assert(statement_views(sts@) =~= statement_views(old(sts)@).push(statement@));
}

/// Moves the statements of `more` to the end of the list.
fn emit_all(sts: &mut Vec<Statement>, more: Vec<Statement>)
    ensures
        statement_views(final(sts)@) == statement_views(old(sts)@) + statement_views(more@),
{
    let ghost added = more@;
    let mut more = more;
    sts.append(&mut more);
    assert(statement_views(sts@) =~= statement_views(old(sts)@) + statement_views(added));
}

/// Adds the statements of the relations to the list.
fn emit_relations(sts: &mut Vec<Statement>, subject: &SubjectNode, relations: &Vec<ObjectProperty>)
    ensures
        statement_views(final(sts)@) == statement_views(old(sts)@) + relation_statements(
            subject@,
            relation_views(relations@),
        ),
{
    let ghost before = statement_views(sts@);
    let ghost all = relation_statements(subject@, relation_views(relations@));
    let mut i: usize = 0;
    assert(before + all.take(0) =~= before);
    while i < relations.len()
        invariant
            i <= relations.len(),
            all == relation_statements(subject@, relation_views(relations@)),
            statement_views(sts@) == before + all.take(i as int),
        decreases relations.len() - i,
    {
        emit(sts, relations[i].to_statement(subject));
        assert(before + all.take(i + 1) =~= (before + all.take(i as int)).push(all[i as int]));
        i = i + 1;
    }
    assert(all.take(relations.len() as int) =~= all);
}

/// Adds the statements of the properties to the list.
fn emit_properties(
    sts: &mut Vec<Statement>,
    subject: &SubjectNode,
    properties: &Vec<LiteralProperty>,
)
    ensures
        statement_views(final(sts)@) == statement_views(old(sts)@) + property_statements(
            subject@,
            property_views(properties@),
        ),
{
    let ghost before = statement_views(sts@);
    let ghost all = property_statements(subject@, property_views(properties@));
    let mut i: usize = 0;
    assert(before + all.take(0) =~= before);
    while i < properties.len()
        invariant
            i <= properties.len(),
            all == property_statements(subject@, property_views(properties@)),
            statement_views(sts@) == before + all.take(i as int),
        decreases properties.len() - i,
    {
        emit(sts, properties[i].to_statement(subject));
        assert(before + all.take(i + 1) =~= (before + all.take(i as int)).push(all[i as int]));
        i = i + 1;
    }
    assert(all.take(properties.len() as int) =~= all);
}

/// The first property of a thing made with a label: a preferred label in
/// the language `language`, or typed as a string where no language is given.
pub open spec fn first_label(text: Seq<char>, language: Option<Seq<char>>) -> PropertyView {
    PropertyView {
        predicate: skos::name("prefLabel"@),
        value: match language {
            Some(language) => LiteralView::tagged(escaped(text), language),
            None => LiteralView::typed(escaped(text), DataTypeView::String),
        },
    }
}

/// The language as text.
pub open spec fn language_view(language: Option<&str>) -> Option<Seq<char>> {
    match language {
        Some(language) => Some(language@),
        None => None,
    }
}

/// A preferred label in the language `language`, or typed as a string where
/// no language is given.
fn label_property(text: &str, language: Option<&str>) -> (r: LiteralProperty)
    ensures
        r@ == first_label(text@, language_view(language)),
{
    match language {
        None => LiteralProperty::preferred_label(text),
        Some(language) => LiteralProperty::preferred_label_with(text, language),
    }
}

/// A concept.
#[derive(Debug, Hash)]
pub struct Concept {
    uri: Iri,
    relations: Vec<ObjectProperty>,
    properties: Vec<LiteralProperty>,
}

/// The mathematical content of a [`Concept`].
pub struct ConceptView {
    pub uri: Seq<char>,
    pub relations: Seq<RelationView>,
    pub properties: Seq<PropertyView>,
}

impl ConceptView {
    /// The concept that `uri` names, with nothing said about it.
    pub open spec fn empty(uri: Seq<char>) -> ConceptView {
        ConceptView { uri, relations: Seq::empty(), properties: Seq::empty() }
    }

    /// What the concept says: that it is a concept, then its relations, then
    /// its properties.
    pub open spec fn statements(self) -> Seq<StatementView> {
        let subject = NodeView::Named(self.uri);
        seq![type_statement(subject, skos::name("Concept"@))] + relation_statements(
            subject,
            self.relations,
        ) + property_statements(subject, self.properties)
    }
}

impl View for Concept {
    type V = ConceptView;

    closed spec fn view(&self) -> ConceptView {
        ConceptView {
            uri: self.uri@,
            relations: relation_views(self.relations@),
            properties: property_views(self.properties@),
        }
    }
}

impl Named for Concept {
    closed spec fn name(&self) -> Seq<char> {
        self.uri@
    }

    fn new(uri: Iri) -> (r: Concept)
        ensures
            r@ == ConceptView::empty(uri@),
    {
        let r = Concept { uri, relations: Vec::new(), properties: Vec::new() };
        assert(r@.relations =~= Seq::empty());
        assert(r@.properties =~= Seq::empty());
        r
    }

    fn new_with_label(uri: Iri, text: &str, language: Option<&str>) -> (r: Concept)
        ensures
            r@ == (ConceptView {
                properties: seq![first_label(text@, language_view(language))],
                ..ConceptView::empty(uri@)
            }),
    {
        let mut properties: Vec<LiteralProperty> = Vec::new();
        properties.push(label_property(text, language));
        let r = Concept { uri, relations: Vec::new(), properties };
        assert(r@.relations =~= Seq::empty());
        assert(r@.properties =~= seq![first_label(text@, language_view(language))]);
        r
    }

    fn uri(&self) -> (r: &Iri) {
        &self.uri
    }
}

impl Propertied for Concept {
    closed spec fn property_list(&self) -> Seq<PropertyView> {
        property_views(self.properties@)
    }

    fn add_property(&mut self, property: LiteralProperty)
        ensures
            final(self)@ == (ConceptView { properties: old(self)@.properties.push(property@), ..old(self)@ }),
    {
        self.properties.push(property);
        assert(property_views(self.properties@) =~= property_views(old(self).properties@).push(
            property@,
        ));
    }

    fn properties(&self) -> (r: &Vec<LiteralProperty>) {
        &self.properties
    }

    fn has_property(&self, predicate: &Iri) -> (r: bool) {
        has_predicate_in(&self.properties, predicate)
    }

    fn has_properties(&self) -> (r: bool) {
        self.properties.len() > 0
    }
}

impl Labeled for Concept {
    fn preferred_label(&self, for_language: &str) -> (r: Option<String>) {
        preferred_in(&self.properties, for_language)
    }

    fn has_labels(&self) -> (r: bool) {
        labels_in(&self.properties).len() > 0
    }

    fn labels(&self) -> (r: Vec<LiteralProperty>) {
        labels_in(&self.properties)
    }

    fn add_preferred_label(&mut self, text: &str) {
        self.add_property(LiteralProperty::preferred_label(text))
    }

    fn add_preferred_label_with(&mut self, text: &str, language: &str) {
        self.add_property(LiteralProperty::preferred_label_with(text, language))
    }

    fn add_alternative_label(&mut self, text: &str) {
        self.add_property(LiteralProperty::alternative_label(text))
    }

    fn add_alternative_label_with(&mut self, text: &str, language: &str) {
        self.add_property(LiteralProperty::alternative_label_with(text, language))
    }

    fn add_hidden_label(&mut self, text: &str) {
        self.add_property(LiteralProperty::hidden_label(text))
    }

    fn add_hidden_label_with(&mut self, text: &str, language: &str) {
        self.add_property(LiteralProperty::hidden_label_with(text, language))
    }
}

impl ToStatements for Concept {
    closed spec fn statements(&self) -> Seq<StatementView> {
        self@.statements()
    }

    fn to_statements(&self) -> (r: Vec<Statement>)
        ensures
            statement_views(r@) == self@.statements(),
    {
        let mut sts: Vec<Statement> = Vec::new();
        let subject = SubjectNode::Named(self.uri.clone());
        assert(statement_views(sts@) =~= Seq::empty());
        emit(
            &mut sts,
            Statement::new(subject.clone(), rdf::a_type(), ObjectNode::Named(skos::concept())),
        );
        assert(statement_views(sts@) =~= seq![type_statement(subject@, skos::name("Concept"@))]);
        emit_relations(&mut sts, &subject, &self.relations);
        emit_properties(&mut sts, &subject, &self.properties);
        sts
    }
}

impl Concept {
    /// Adds a relation at the end.
    pub fn add_relation(&mut self, relation: ObjectProperty)
        ensures
            final(self)@ == (ConceptView {
                relations: old(self)@.relations.push(relation@),
                ..old(self)@
            }),
    {
        self.relations.push(relation);
        assert(relation_views(self.relations@) =~= relation_views(old(self).relations@).push(
            relation@,
        ));
    }

    /// A new concept that is broader than this one: each is related to the
    /// other.
    pub fn broader(&mut self, uri: Iri) -> (r: Concept)
        ensures
            r@ == (ConceptView {
                relations: seq![
                    RelationView { predicate: skos::name("narrower"@), other: old(self)@.uri },
                ],
                ..ConceptView::empty(uri@)
            }),
            final(self)@ == (ConceptView {
                relations: old(self)@.relations.push(
                    RelationView { predicate: skos::name("broader"@), other: uri@ },
                ),
                ..old(self)@
            }),
    {
        let mut new_concept = Concept::new(uri);
        new_concept.add_relation(ObjectProperty::narrower(self.uri.clone()));
        self.add_relation(ObjectProperty::broader(new_concept.uri.clone()));
        assert(new_concept@.relations =~= seq![
            RelationView { predicate: skos::name("narrower"@), other: old(self)@.uri },
        ]);
        new_concept
    }

    /// A new concept that is narrower than this one: each is related to the
    /// other.
    pub fn narrower(&mut self, uri: Iri) -> (r: Concept)
        ensures
            r@ == (ConceptView {
                relations: seq![
                    RelationView { predicate: skos::name("broader"@), other: old(self)@.uri },
                ],
                ..ConceptView::empty(uri@)
            }),
            final(self)@ == (ConceptView {
                relations: old(self)@.relations.push(
                    RelationView { predicate: skos::name("narrower"@), other: uri@ },
                ),
                ..old(self)@
            }),
    {
        let mut new_concept = Concept::new(uri);
        new_concept.add_relation(ObjectProperty::broader(self.uri.clone()));
        self.add_relation(ObjectProperty::narrower(new_concept.uri.clone()));
        assert(new_concept@.relations =~= seq![
            RelationView { predicate: skos::name("broader"@), other: old(self)@.uri },
        ]);
        new_concept
    }

    /// Whether a relation has the predicate `predicate`.
    pub fn has_relation(&self, predicate: &Iri) -> (r: bool)
        ensures
            r == exists|i: int|
                0 <= i < self@.relations.len() && (#[trigger] self@.relations[i]).predicate
                    == predicate@,
    {
        let ghost views = self@.relations;
        let mut i: usize = 0;
        while i < self.relations.len()
            invariant
                i <= self.relations.len(),
                views == relation_views(self.relations@),
                views == self@.relations,
                forall|j: int| 0 <= j < i ==> (#[trigger] views[j]).predicate != predicate@,
            decreases self.relations.len() - i,
        {
            if *self.relations[i].predicate() == *predicate {
                assert(views[i as int].predicate == predicate@);
                return true;
            }
            i = i + 1;
        }
        false
    }

    /// Whether there is a relation.
    pub fn has_relations(&self) -> (r: bool)
        ensures
            r == (self@.relations.len() > 0),
    {
        self.relations.len() > 0
    }

    /// The relations, in the order in which they were added.
    pub fn relations(&self) -> (r: &Vec<ObjectProperty>)
        ensures
            relation_views(r@) == self@.relations,
    {
        &self.relations
    }
}

impl Clone for Concept {
    fn clone(&self) -> (r: Self)
        ensures
            r@ == self@,
    {
        Concept {
            uri: self.uri.clone(),
            relations: clone_relations(&self.relations),
            properties: clone_properties(&self.properties),
        }
    }
}

impl PartialEq for Concept {
    fn eq(&self, other: &Self) -> (r: bool) {
        self.uri == other.uri && same_relations(&self.relations, &other.relations)
            && same_properties(&self.properties, &other.properties)
    }
}

impl Eq for Concept {

}

impl PartialEqSpecImpl for Concept {
    open spec fn obeys_eq_spec() -> bool {
        true
    }

    open spec fn eq_spec(&self, other: &Self) -> bool {
        self@ == other@
    }
}

/// A collection of concepts and of other collections.
#[derive(Debug, Hash)]
pub struct Collection {
    uri: Iri,
    ordered: bool,
    members: Vec<ObjectProperty>,
    properties: Vec<LiteralProperty>,
}

/// The mathematical content of a [`Collection`].
pub struct CollectionView {
    pub uri: Seq<char>,
    pub ordered: bool,
    pub members: Seq<RelationView>,
    pub properties: Seq<PropertyView>,
}

impl CollectionView {
    /// The collection that `uri` names, unordered, with nothing said about
    /// it.
    pub open spec fn empty(uri: Seq<char>) -> CollectionView {
        CollectionView { uri, ordered: false, members: Seq::empty(), properties: Seq::empty() }
    }

    /// What the collection says: that it is a collection, ordered or not,
    /// then its members, then its properties.
    pub open spec fn statements(self) -> Seq<StatementView> {
        let subject = NodeView::Named(self.uri);
        let class = if self.ordered {
            skos::name("OrderedCollection"@)
        } else {
            skos::name("Collection"@)
        };
        seq![type_statement(subject, class)] + relation_statements(subject, self.members)
            + property_statements(subject, self.properties)
    }
}

impl View for Collection {
    type V = CollectionView;

    closed spec fn view(&self) -> CollectionView {
        CollectionView {
            uri: self.uri@,
            ordered: self.ordered,
            members: relation_views(self.members@),
            properties: property_views(self.properties@),
        }
    }
}

impl Named for Collection {
    closed spec fn name(&self) -> Seq<char> {
        self.uri@
    }

    fn new(uri: Iri) -> (r: Collection)
        ensures
            r@ == CollectionView::empty(uri@),
    {
        let r = Collection { uri, ordered: false, members: Vec::new(), properties: Vec::new() };
        assert(r@.members =~= Seq::empty());
        assert(r@.properties =~= Seq::empty());
        r
    }

    fn new_with_label(uri: Iri, text: &str, language: Option<&str>) -> (r: Collection)
        ensures
            r@ == (CollectionView {
                properties: seq![first_label(text@, language_view(language))],
                ..CollectionView::empty(uri@)
            }),
    {
        let mut properties: Vec<LiteralProperty> = Vec::new();
        properties.push(label_property(text, language));
        let r = Collection { uri, ordered: false, members: Vec::new(), properties };
        assert(r@.members =~= Seq::empty());
        assert(r@.properties =~= seq![first_label(text@, language_view(language))]);
        r
    }

    fn uri(&self) -> (r: &Iri) {
        &self.uri
    }
}

impl Propertied for Collection {
    closed spec fn property_list(&self) -> Seq<PropertyView> {
        property_views(self.properties@)
    }

    fn add_property(&mut self, property: LiteralProperty)
        ensures
            final(self)@ == (CollectionView { properties: old(self)@.properties.push(property@), ..old(self)@ }),
    {
        self.properties.push(property);
        assert(property_views(self.properties@) =~= property_views(old(self).properties@).push(
            property@,
        ));
    }

    fn properties(&self) -> (r: &Vec<LiteralProperty>) {
        &self.properties
    }

    fn has_property(&self, predicate: &Iri) -> (r: bool) {
        has_predicate_in(&self.properties, predicate)
    }

    fn has_properties(&self) -> (r: bool) {
        self.properties.len() > 0
    }
}

impl Labeled for Collection {
    fn preferred_label(&self, for_language: &str) -> (r: Option<String>) {
        preferred_in(&self.properties, for_language)
    }

    fn has_labels(&self) -> (r: bool) {
        labels_in(&self.properties).len() > 0
    }

    fn labels(&self) -> (r: Vec<LiteralProperty>) {
        labels_in(&self.properties)
    }

    fn add_preferred_label(&mut self, text: &str) {
        self.add_property(LiteralProperty::preferred_label(text))
    }

    fn add_preferred_label_with(&mut self, text: &str, language: &str) {
        self.add_property(LiteralProperty::preferred_label_with(text, language))
    }

    fn add_alternative_label(&mut self, text: &str) {
        self.add_property(LiteralProperty::alternative_label(text))
    }

    fn add_alternative_label_with(&mut self, text: &str, language: &str) {
        self.add_property(LiteralProperty::alternative_label_with(text, language))
    }

    fn add_hidden_label(&mut self, text: &str) {
        self.add_property(LiteralProperty::hidden_label(text))
    }

    fn add_hidden_label_with(&mut self, text: &str, language: &str) {
        self.add_property(LiteralProperty::hidden_label_with(text, language))
    }
}

impl ToStatements for Collection {
    closed spec fn statements(&self) -> Seq<StatementView> {
        self@.statements()
    }

    fn to_statements(&self) -> (r: Vec<Statement>)
        ensures
            statement_views(r@) == self@.statements(),
    {
        let mut sts: Vec<Statement> = Vec::new();
        let subject = SubjectNode::Named(self.uri.clone());
        let class = if self.ordered {
            skos::ordered_collection()
        } else {
            skos::collection()
        };
        assert(statement_views(sts@) =~= Seq::empty());
        emit(&mut sts, Statement::new(subject.clone(), rdf::a_type(), ObjectNode::Named(class)));
        assert(statement_views(sts@) =~= seq![type_statement(subject@, class@)]);
        emit_relations(&mut sts, &subject, &self.members);
        emit_properties(&mut sts, &subject, &self.properties);
        sts
    }
}

impl Collection {
    /// Whether the order of the members matters.
    pub fn is_ordered(&self) -> (r: bool)
        ensures
            r == self@.ordered,
    {
        self.ordered
    }

    /// Says whether the order of the members matters.
    pub fn set_ordered(&mut self, ordered: bool)
        ensures
            final(self)@ == (CollectionView { ordered, ..old(self)@ }),
    {
        self.ordered = ordered;
    }

    /// Adds a member at the end.
    pub fn add_member(&mut self, uri: Iri)
        ensures
            final(self)@ == (CollectionView {
                members: old(self)@.members.push(
                    RelationView { predicate: skos::name("member"@), other: uri@ },
                ),
                ..old(self)@
            }),
    {
        self.members.push(ObjectProperty::member(uri));
        assert(relation_views(self.members@) =~= relation_views(old(self).members@).push(
            RelationView { predicate: skos::name("member"@), other: uri@ },
        ));
    }

    /// Adds the list of the members at the end.
    pub fn add_list_member(&mut self, uri: Iri)
        ensures
            final(self)@ == (CollectionView {
                members: old(self)@.members.push(
                    RelationView { predicate: skos::name("memberList"@), other: uri@ },
                ),
                ..old(self)@
            }),
    {
        self.members.push(ObjectProperty::member_list(uri));
        assert(relation_views(self.members@) =~= relation_views(old(self).members@).push(
            RelationView { predicate: skos::name("memberList"@), other: uri@ },
        ));
    }

    /// A new collection that is a member of this one.
    pub fn member_collection(&mut self, uri: Iri, ordered: bool) -> (r: Collection)
        ensures
            r@ == (CollectionView { ordered, ..CollectionView::empty(uri@) }),
            final(self)@ == (CollectionView {
                members: old(self)@.members.push(
                    RelationView { predicate: skos::name("member"@), other: uri@ },
                ),
                ..old(self)@
            }),
    {
        let mut member = Collection::new(uri.clone());
        member.set_ordered(ordered);
        self.add_member(uri);
        member
    }

    /// A new collection with a label that is a member of this one.
    pub fn member_collection_labeled(
        &mut self,
        uri: Iri,
        ordered: bool,
        label: &str,
        language: Option<&str>,
    ) -> (r: Collection)
        ensures
            r@ == (CollectionView {
                ordered,
                properties: seq![first_label(label@, language_view(language))],
                ..CollectionView::empty(uri@)
            }),
            final(self)@ == (CollectionView {
                members: old(self)@.members.push(
                    RelationView { predicate: skos::name("member"@), other: uri@ },
                ),
                ..old(self)@
            }),
    {
        let mut member = Collection::new_with_label(uri.clone(), label, language);
        member.set_ordered(ordered);
        self.add_member(uri);
        member
    }

    /// Whether there is a member.
    pub fn has_members(&self) -> (r: bool)
        ensures
            r == (self@.members.len() > 0),
    {
        self.members.len() > 0
    }

    /// The members, in the order in which they were added.
    pub fn members(&self) -> (r: &Vec<ObjectProperty>)
        ensures
            relation_views(r@) == self@.members,
    {
        &self.members
    }
}

impl Clone for Collection {
    fn clone(&self) -> (r: Self)
        ensures
            r@ == self@,
    {
        Collection {
            uri: self.uri.clone(),
            ordered: self.ordered,
            members: clone_relations(&self.members),
            properties: clone_properties(&self.properties),
        }
    }
}

impl PartialEq for Collection {
    fn eq(&self, other: &Self) -> (r: bool) {
        self.uri == other.uri && self.ordered == other.ordered && same_relations(
            &self.members,
            &other.members,
        ) && same_properties(&self.properties, &other.properties)
    }
}

impl Eq for Collection {

}

impl PartialEqSpecImpl for Collection {
    open spec fn obeys_eq_spec() -> bool {
        true
    }

    open spec fn eq_spec(&self, other: &Self) -> bool {
        self@ == other@
    }
}

/// The index of the first concept at or after `from` that `uri` names, or
/// -1.
pub open spec fn concept_at(concepts: Seq<ConceptView>, uri: Seq<char>, from: int) -> int
    decreases concepts.len() - from,
{
    if from < 0 || from >= concepts.len() {
        -1
    } else if concepts[from].uri == uri {
        from
    } else {
        concept_at(concepts, uri, from + 1)
    }
}

/// The index of the first collection at or after `from` that `uri` names,
/// or -1.
pub open spec fn collection_at(collections: Seq<CollectionView>, uri: Seq<char>, from: int) -> int
    decreases collections.len() - from,
{
    if from < 0 || from >= collections.len() {
        -1
    } else if collections[from].uri == uri {
        from
    } else {
        collection_at(collections, uri, from + 1)
    }
}

/// The concepts with `concept` among them: in the place of the first concept
/// with the same IRI, where there is one, and else at the end.
pub open spec fn with_concept(concepts: Seq<ConceptView>, concept: ConceptView) -> Seq<
    ConceptView,
> {
    let k = concept_at(concepts, concept.uri, 0);
    if k >= 0 {
        concepts.update(k, concept)
    } else {
        concepts.push(concept)
    }
}

/// The list with `item` at the end, unless it is in the list already.
pub open spec fn with_item<T>(items: Seq<T>, item: T) -> Seq<T> {
    if items.contains(item) {
        items
    } else {
        items.push(item)
    }
}

/// A scheme of concepts.
#[derive(Debug)]
pub struct Scheme {
    uri: Iri,
    concepts: Vec<Concept>,
    top_concepts: Vec<Iri>,
    collections: Vec<Collection>,
    properties: Vec<LiteralProperty>,
}

/// The mathematical content of a [`Scheme`].
pub struct SchemeView {
    pub uri: Seq<char>,
    pub concepts: Seq<ConceptView>,
    pub top_concepts: Seq<Seq<char>>,
    pub collections: Seq<CollectionView>,
    pub properties: Seq<PropertyView>,
}

/// The content of a list of concepts.
pub open spec fn concept_views(concepts: Seq<Concept>) -> Seq<ConceptView> {
    Seq::new(concepts.len(), |i: int| concepts[i]@)
}

/// The content of a list of collections.
pub open spec fn collection_views(collections: Seq<Collection>) -> Seq<CollectionView> {
    Seq::new(collections.len(), |i: int| collections[i]@)
}

impl SchemeView {
    /// The scheme that `uri` names, with nothing in it.
    pub open spec fn empty(uri: Seq<char>) -> SchemeView {
        SchemeView {
            uri,
            concepts: Seq::empty(),
            top_concepts: Seq::empty(),
            collections: Seq::empty(),
            properties: Seq::empty(),
        }
    }

    /// The statement that the scheme holds what `member` names.
    pub open spec fn in_scheme(self, member: Seq<char>) -> StatementView {
        StatementView {
            subject: NodeView::Named(member),
            predicate: skos::name("inScheme"@),
            object: NodeView::Named(self.uri),
        }
    }

    /// What the concepts from the `i`-th on say, each followed by the
    /// statement that it is a top concept of the scheme, where it is one,
    /// and by the statement that the scheme holds it.
    pub open spec fn concept_statements(self, i: int) -> Seq<StatementView>
        decreases self.concepts.len() - i,
    {
        if 0 <= i < self.concepts.len() {
            let concept = self.concepts[i];
            let top = if self.top_concepts.contains(concept.uri) {
                seq![
                    StatementView {
                        subject: NodeView::Named(concept.uri),
                        predicate: skos::name("topConceptOf"@),
                        object: NodeView::Named(self.uri),
                    },
                ]
            } else {
                Seq::empty()
            };
            concept.statements() + top + seq![self.in_scheme(concept.uri)]
                + self.concept_statements(i + 1)
        } else {
            Seq::empty()
        }
    }

    /// The statements that name the top concepts of the scheme.
    pub open spec fn top_statements(self) -> Seq<StatementView> {
        Seq::new(
            self.top_concepts.len(),
            |i: int|
                StatementView {
                    subject: NodeView::Named(self.uri),
                    predicate: skos::name("hasTopConcept"@),
                    object: NodeView::Named(self.top_concepts[i]),
                },
        )
    }

    /// What the collections from the `i`-th on say, each followed by the
    /// statement that the scheme holds it.
    pub open spec fn collection_statements(self, i: int) -> Seq<StatementView>
        decreases self.collections.len() - i,
    {
        if 0 <= i < self.collections.len() {
            let collection = self.collections[i];
            collection.statements() + seq![self.in_scheme(collection.uri)]
                + self.collection_statements(i + 1)
        } else {
            Seq::empty()
        }
    }

    /// What the scheme says: that it is a scheme, then what its concepts
    /// say, its top concepts, what its collections say, and its properties.
    pub open spec fn statements(self) -> Seq<StatementView> {
        seq![type_statement(NodeView::Named(self.uri), skos::name("ConceptScheme"@))]
            + self.concept_statements(0) + self.top_statements() + self.collection_statements(0)
            + property_statements(NodeView::Named(self.uri), self.properties)
    }
}

impl View for Scheme {
    type V = SchemeView;

    closed spec fn view(&self) -> SchemeView {
        SchemeView {
            uri: self.uri@,
            concepts: concept_views(self.concepts@),
            top_concepts: crate::graph::iri_views(self.top_concepts@),
            collections: collection_views(self.collections@),
            properties: property_views(self.properties@),
        }
    }
}

impl Named for Scheme {
    closed spec fn name(&self) -> Seq<char> {
        self.uri@
    }

    fn new(uri: Iri) -> (r: Scheme)
        ensures
            r@ == SchemeView::empty(uri@),
    {
        let r = Scheme {
            uri,
            concepts: Vec::new(),
            top_concepts: Vec::new(),
            collections: Vec::new(),
            properties: Vec::new(),
        };
        assert(r@.concepts =~= Seq::empty());
        assert(r@.top_concepts =~= Seq::empty());
        assert(r@.collections =~= Seq::empty());
        assert(r@.properties =~= Seq::empty());
        r
    }

    fn new_with_label(uri: Iri, text: &str, language: Option<&str>) -> (r: Scheme)
        ensures
            r@ == (SchemeView {
                properties: seq![first_label(text@, language_view(language))],
                ..SchemeView::empty(uri@)
            }),
    {
        let mut scheme = Scheme::new(uri);
        scheme.add_property(label_property(text, language));
        assert(scheme@.properties =~= seq![first_label(text@, language_view(language))]);
        scheme
    }

    fn uri(&self) -> (r: &Iri) {
        &self.uri
    }
}

impl Propertied for Scheme {
    closed spec fn property_list(&self) -> Seq<PropertyView> {
        property_views(self.properties@)
    }

    fn add_property(&mut self, property: LiteralProperty)
        ensures
            final(self)@ == (SchemeView { properties: old(self)@.properties.push(property@), ..old(self)@ }),
    {
        self.properties.push(property);
        assert(property_views(self.properties@) =~= property_views(old(self).properties@).push(
            property@,
        ));
    }

    fn properties(&self) -> (r: &Vec<LiteralProperty>) {
        &self.properties
    }

    fn has_property(&self, predicate: &Iri) -> (r: bool) {
        has_predicate_in(&self.properties, predicate)
    }

    fn has_properties(&self) -> (r: bool) {
        self.properties.len() > 0
    }
}

impl Labeled for Scheme {
    fn preferred_label(&self, for_language: &str) -> (r: Option<String>) {
        preferred_in(&self.properties, for_language)
    }

    fn has_labels(&self) -> (r: bool) {
        labels_in(&self.properties).len() > 0
    }

    fn labels(&self) -> (r: Vec<LiteralProperty>) {
        labels_in(&self.properties)
    }

    fn add_preferred_label(&mut self, text: &str) {
        self.add_property(LiteralProperty::preferred_label(text))
    }

    fn add_preferred_label_with(&mut self, text: &str, language: &str) {
        self.add_property(LiteralProperty::preferred_label_with(text, language))
    }

    fn add_alternative_label(&mut self, text: &str) {
        self.add_property(LiteralProperty::alternative_label(text))
    }

    fn add_alternative_label_with(&mut self, text: &str, language: &str) {
        self.add_property(LiteralProperty::alternative_label_with(text, language))
    }

    fn add_hidden_label(&mut self, text: &str) {
        self.add_property(LiteralProperty::hidden_label(text))
    }

    fn add_hidden_label_with(&mut self, text: &str, language: &str) {
        self.add_property(LiteralProperty::hidden_label_with(text, language))
    }
}


impl ToStatements for Scheme {
    closed spec fn statements(&self) -> Seq<StatementView> {
        self@.statements()
    }

    fn to_statements(&self) -> (r: Vec<Statement>)
        ensures
            statement_views(r@) == self@.statements(),
    {
        let mut sts: Vec<Statement> = Vec::new();
        let subject = SubjectNode::Named(self.uri.clone());
        let ghost view = self@;
        assert(statement_views(sts@) =~= Seq::empty());
        emit(
            &mut sts,
            Statement::new(subject.clone(), rdf::a_type(), ObjectNode::Named(skos::concept_scheme())),
        );
        let ghost head = seq![type_statement(subject@, skos::name("ConceptScheme"@))];
        assert(statement_views(sts@) =~= head);
        // the concepts
        let ghost all = view.concept_statements(0);
        let mut i: usize = 0;
        while i < self.concepts.len()
            invariant
                i <= self.concepts.len(),
                view == self@,
                subject@ == NodeView::Named(view.uri),
                all == view.concept_statements(0),
                head + all == statement_views(sts@) + view.concept_statements(i as int),
            decreases self.concepts.len() - i,
        {
            let ghost before = statement_views(sts@);
            let member = &self.concepts[i];
            assert(member@ == view.concepts[i as int]);
            emit_all(&mut sts, member.to_statements());
            let is_top = crate::graph::has_iri(&self.top_concepts, &member.uri);
            if is_top {
                emit(
                    &mut sts,
                    Statement::new(
                        SubjectNode::Named(member.uri.clone()),
                        skos::top_concept_of(),
                        ObjectNode::Named(self.uri.clone()),
                    ),
                );
            }
            emit(
                &mut sts,
                Statement::new(
                    SubjectNode::Named(member.uri.clone()),
                    skos::in_scheme(),
                    ObjectNode::Named(self.uri.clone()),
                ),
            );
            proof {
                let top = if view.top_concepts.contains(member@.uri) {
                    seq![
                        StatementView {
                            subject: NodeView::Named(member@.uri),
                            predicate: skos::name("topConceptOf"@),
                            object: NodeView::Named(view.uri),
                        },
                    ]
                } else {
                    Seq::empty()
                };
                let rest = view.concept_statements(i + 1);
                assert(statement_views(sts@) =~= before + member@.statements() + top + seq![
                    view.in_scheme(member@.uri),
                ]);
                assert(before + (member@.statements() + top + seq![view.in_scheme(member@.uri)]
                    + rest) =~= before + member@.statements() + top + seq![
                    view.in_scheme(member@.uri),
                ] + rest);
            }
            i = i + 1;
        }
        assert(statement_views(sts@) =~= head + all);
        // the top concepts
        let ghost tops = view.top_statements();
        let ghost before = statement_views(sts@);
        let mut k: usize = 0;
        assert(before + tops.take(0) =~= before);
        while k < self.top_concepts.len()
            invariant
                k <= self.top_concepts.len(),
                view == self@,
                subject@ == NodeView::Named(view.uri),
                tops == view.top_statements(),
                statement_views(sts@) == before + tops.take(k as int),
            decreases self.top_concepts.len() - k,
        {
            emit(
                &mut sts,
                Statement::new(
                    subject.clone(),
                    skos::has_top_concept(),
                    ObjectNode::Named(self.top_concepts[k].clone()),
                ),
            );
            assert(before + tops.take(k + 1) =~= (before + tops.take(k as int)).push(
                tops[k as int],
            ));
            k = k + 1;
        }
        assert(tops.take(self.top_concepts.len() as int) =~= tops);
        // the collections
        let ghost groups = view.collection_statements(0);
        let ghost started = statement_views(sts@);
        let mut j: usize = 0;
        while j < self.collections.len()
            invariant
                j <= self.collections.len(),
                view == self@,
                groups == view.collection_statements(0),
                started + groups == statement_views(sts@) + view.collection_statements(j as int),
            decreases self.collections.len() - j,
        {
            let ghost done = statement_views(sts@);
            let member = &self.collections[j];
            assert(member@ == view.collections[j as int]);
            emit_all(&mut sts, member.to_statements());
            emit(
                &mut sts,
                Statement::new(
                    SubjectNode::Named(member.uri.clone()),
                    skos::in_scheme(),
                    ObjectNode::Named(self.uri.clone()),
                ),
            );
            proof {
                let rest = view.collection_statements(j + 1);
                assert(statement_views(sts@) =~= done + member@.statements() + seq![
                    view.in_scheme(member@.uri),
                ]);
                assert(done + (member@.statements() + seq![view.in_scheme(member@.uri)] + rest)
                    =~= done + member@.statements() + seq![view.in_scheme(member@.uri)] + rest);
            }
            j = j + 1;
        }
        assert(statement_views(sts@) =~= started + groups);
        emit_properties(&mut sts, &subject, &self.properties);
        sts
    }
}

impl Scheme {
    /// Where the concept stands that `uri` names.
    fn find_concept(&self, uri: &Iri) -> (r: Option<usize>)
        ensures
            match r {
                Some(k) => k == concept_at(self@.concepts, uri@, 0) && k < self.concepts.len(),
                None => concept_at(self@.concepts, uri@, 0) == -1,
            },
    {
        let ghost views = self@.concepts;
        let mut i: usize = 0;
        while i < self.concepts.len()
            invariant
                i <= self.concepts.len(),
                views == concept_views(self.concepts@),
                concept_at(views, uri@, 0) == concept_at(views, uri@, i as int),
            decreases self.concepts.len() - i,
        {
            if self.concepts[i].uri == *uri {
                return Some(i);
            }
            i = i + 1;
        }
        None
    }

    /// Where the collection stands that `uri` names.
    fn find_collection(&self, uri: &Iri) -> (r: Option<usize>)
        ensures
            match r {
                Some(k) => k == collection_at(self@.collections, uri@, 0) && k
                    < self.collections.len(),
                None => collection_at(self@.collections, uri@, 0) == -1,
            },
    {
        let ghost views = self@.collections;
        let mut i: usize = 0;
        while i < self.collections.len()
            invariant
                i <= self.collections.len(),
                views == collection_views(self.collections@),
                collection_at(views, uri@, 0) == collection_at(views, uri@, i as int),
            decreases self.collections.len() - i,
        {
            if self.collections[i].uri == *uri {
                return Some(i);
            }
            i = i + 1;
        }
        None
    }

    /// Puts the concept into the scheme, in the place of the concept with
    /// the same IRI where there is one.
    pub fn add_concept(&mut self, concept: Concept)
        ensures
            final(self)@ == (SchemeView {
                concepts: with_concept(old(self)@.concepts, concept@),
                ..old(self)@
            }),
    {
        match self.find_concept(&concept.uri) {
            Some(k) => {
                self.concepts.set(k, concept);
                assert(concept_views(self.concepts@) =~= concept_views(old(self).concepts@).update(
                    k as int,
                    concept@,
                ));
            },
            None => {
                self.concepts.push(concept);
                assert(concept_views(self.concepts@) =~= concept_views(old(self).concepts@).push(
                    concept@,
                ));
            },
        }
    }

    /// Puts the concept into the scheme as one of its top concepts.
    pub fn add_top_concept(&mut self, concept: Concept)
        ensures
            final(self)@ == (SchemeView {
                concepts: with_concept(old(self)@.concepts, concept@),
                top_concepts: with_item(old(self)@.top_concepts, concept@.uri),
                ..old(self)@
            }),
    {
        let uri = concept.uri.clone();
        self.add_concept(concept);
        if !crate::graph::has_iri(&self.top_concepts, &uri) {
            self.top_concepts.push(uri);
            assert(crate::graph::iri_views(self.top_concepts@) =~= crate::graph::iri_views(
                old(self).top_concepts@,
            ).push(uri@));
        }
    }

    /// Whether `uri` names a top concept of the scheme.
    pub fn is_top_collection(&self, uri: &Iri) -> (r: bool)
        ensures
            r == self@.top_concepts.contains(uri@),
    {
        crate::graph::has_iri(&self.top_concepts, uri)
    }

    /// Whether the scheme holds a concept.
    pub fn has_concepts(&self) -> (r: bool)
        ensures
            r == (self@.concepts.len() > 0),
    {
        self.concepts.len() > 0
    }

    /// Whether the scheme holds the concept that `uri` names.
    pub fn has_concept(&self, uri: &Iri) -> (r: bool)
        ensures
            r == (concept_at(self@.concepts, uri@, 0) >= 0),
    {
        self.find_concept(uri).is_some()
    }

    /// The concepts, in the order in which they came into the scheme.
    pub fn concepts(&self) -> (r: &Vec<Concept>)
        ensures
            concept_views(r@) == self@.concepts,
    {
        &self.concepts
    }

    /// The concept that `uri` names.
    pub fn concept(&self, uri: &Iri) -> (r: Option<&Concept>)
        ensures
            match r {
                Some(concept) => {
                    let k = concept_at(self@.concepts, uri@, 0);
                    k >= 0 && concept@ == self@.concepts[k]
                },
                None => concept_at(self@.concepts, uri@, 0) == -1,
            },
    {
        match self.find_concept(uri) {
            Some(k) => Some(&self.concepts[k]),
            None => None,
        }
    }

    /// Puts the collection into the scheme, unless the scheme holds the
    /// same collection already.
    pub fn add_collection(&mut self, collection: Collection)
        ensures
            final(self)@ == (SchemeView {
                collections: with_item(old(self)@.collections, collection@),
                ..old(self)@
            }),
    {
        let ghost views = self@.collections;
        let mut i: usize = 0;
        while i < self.collections.len()
            invariant
                i <= self.collections.len(),
                *self == *old(self),
                views == collection_views(self.collections@),
                forall|j: int| 0 <= j < i ==> views[j] != collection@,
            decreases self.collections.len() - i,
        {
            if self.collections[i] == collection {
                assert(views[i as int] == collection@);
                return ;
            }
            i = i + 1;
        }
        self.collections.push(collection);
        assert(collection_views(self.collections@) =~= views.push(collection@));
    }

    /// Whether the scheme holds a collection.
    pub fn has_collections(&self) -> (r: bool)
        ensures
            r == (self@.collections.len() > 0),
    {
        self.collections.len() > 0
    }

    /// Whether the scheme holds the collection that `uri` names.
    pub fn has_collection(&self, uri: &Iri) -> (r: bool)
        ensures
            r == (collection_at(self@.collections, uri@, 0) >= 0),
    {
        self.find_collection(uri).is_some()
    }

    /// The collections, in the order in which they came into the scheme.
    pub fn collections(&self) -> (r: &Vec<Collection>)
        ensures
            collection_views(r@) == self@.collections,
    {
        &self.collections
    }

    /// The collection that `uri` names.
    pub fn collection(&self, uri: &Iri) -> (r: Option<&Collection>)
        ensures
            match r {
                Some(collection) => {
                    let k = collection_at(self@.collections, uri@, 0);
                    k >= 0 && collection@ == self@.collections[k]
                },
                None => collection_at(self@.collections, uri@, 0) == -1,
            },
    {
        match self.find_collection(uri) {
            Some(k) => Some(&self.collections[k]),
            None => None,
        }
    }
}

/// The graph of a scheme: the usual prefixes, with `default_namespace` for
/// the default prefix where one is given, and what the scheme says.
pub open spec fn scheme_graph(scheme: SchemeView, default_namespace: Option<Seq<char>>)
    -> GraphView {
    GraphView {
        statements: inserted_all(scheme.statements(), scheme.statements().len() as int),
        mappings: match default_namespace {
            Some(namespace) => bind(standard_bindings(), None, namespace),
            None => standard_bindings(),
        },
        name: None,
    }
}

/// The graph of a scheme.
pub fn to_rdf_graph(scheme: &Scheme, default_namespace: Option<Iri>) -> (r: Graph)
    ensures
        r@ == scheme_graph(
            scheme@,
            match default_namespace {
                Some(namespace) => Some(namespace@),
                None => None,
            },
        ),
{
    let mut mappings = standard_mappings();
    match default_namespace {
        Some(namespace) => {
            mappings.set_default(namespace);
        },
        None => {},
    }
    to_rdf_graph_with_mappings(scheme, mappings)
}

/// The graph of a scheme with the table of prefixes `mappings`.
pub fn to_rdf_graph_with_mappings(scheme: &Scheme, mappings: PrefixMappings) -> (r: Graph)
    ensures
        r@ == (GraphView {
            statements: inserted_all(scheme@.statements(), scheme@.statements().len() as int),
            mappings: mappings@,
            name: None,
        }),
{
    let mut graph = Graph::new();
    graph.set_prefix_mappings(mappings);
    let statements = scheme.to_statements();
    let ghost all = scheme@.statements();
    let mut i: usize = 0;
    while i < statements.len()
        invariant
            i <= statements.len(),
            all == statement_views(statements@),
            graph@ == (GraphView {
                statements: inserted_all(all, i as int),
                mappings: mappings@,
                name: None,
            }),
        decreases statements.len() - i,
    {
        assert(statements@[i as int]@ == all[i as int]);
        graph.insert(statements[i].clone());
        i = i + 1;
    }
    graph
}

/// What can be given as an IRI.
pub trait ToUri {
    /// The IRI, as text.
    spec fn uri_text(&self) -> Seq<char>;

    /// The IRI.
    fn to_uri(&self) -> (r: Iri)
        ensures
            r@ == self.uri_text(),
    ;
}

/// What can be given as an IRI.
pub trait ToURI {
    /// The IRI, as text.
    spec fn uri_text(&self) -> Seq<char>;

    /// The IRI.
    fn to_uri(&self) -> (r: Iri)
        ensures
            r@ == self.uri_text(),
    ;
}

impl ToUri for Scheme {
    open spec fn uri_text(&self) -> Seq<char> {
        self@.uri
    }

    fn to_uri(&self) -> (r: Iri) {
        self.uri.clone()
    }
}

impl ToUri for Concept {
    open spec fn uri_text(&self) -> Seq<char> {
        self@.uri
    }

    fn to_uri(&self) -> (r: Iri) {
        self.uri.clone()
    }
}

impl ToUri for Collection {
    open spec fn uri_text(&self) -> Seq<char> {
        self@.uri
    }

    fn to_uri(&self) -> (r: Iri) {
        self.uri.clone()
    }
}

impl ToURI for Scheme {
    open spec fn uri_text(&self) -> Seq<char> {
        self@.uri
    }

    fn to_uri(&self) -> (r: Iri) {
        self.uri.clone()
    }
}

impl ToURI for Concept {
    open spec fn uri_text(&self) -> Seq<char> {
        self@.uri
    }

    fn to_uri(&self) -> (r: Iri) {
        self.uri.clone()
    }
}

impl ToURI for Collection {
    open spec fn uri_text(&self) -> Seq<char> {
        self@.uri
    }

    fn to_uri(&self) -> (r: Iri) {
        self.uri.clone()
    }
}

} // verus!
