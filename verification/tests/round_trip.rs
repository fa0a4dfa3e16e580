use rdftk::graph::named::{MutableNamedGraph, NamedGraph};
use rdftk::graph::Graph;
use rdftk::iri::Iri;
use rdftk::literal::{DataType, Literal};
use rdftk::nt::parser::parse_graph;
use rdftk::nt::round_trip::{
    is_blank_label, is_lower_lang_tag, is_quotable, is_stable_iri, is_writable,
    is_writable_graph, is_writable_literal,
};
use rdftk::nt::writer::NTripleWriter;
use rdftk::resource::Resource;
use rdftk::skos::model::{Collection, Concept, Named, Scheme, ToURI, ToUri};
use rdftk::statement::{ObjectNode, Statement, SubjectNode};
use std::collections::HashSet;
use std::rc::Rc;

fn iri(text: &str) -> Iri {
    Iri::parse(text).unwrap()
}

fn about(object: ObjectNode) -> Statement {
    Statement::new(SubjectNode::named(iri("http://a/s")), iri("http://a/p"), object)
}

#[test]
fn checked_writer_gives_only_what_is_read_back() {
    let mut graph = Graph::new();
    graph.insert(about(ObjectNode::literal(Literal::with_language("x", "en-gb"))));
    graph.insert(about(ObjectNode::blank_named("b1")));
    assert!(is_writable_graph(&graph));
    let text = NTripleWriter::default().write_checked(&graph).unwrap();
    assert_eq!(
        text,
        "<http://a/s> <http://a/p> \"x\"@en-gb .\n<http://a/s> <http://a/p> _:b1 .\n"
    );
    assert_eq!(parse_graph(&text).unwrap().statements(), graph.statements());

    graph.insert(about(ObjectNode::literal(Literal::from(true))));
    assert!(!is_writable_graph(&graph));
    assert_eq!(NTripleWriter::default().write_checked(&graph), None);
    assert_eq!(
        NTripleWriter::default().write_checked(&Graph::new()),
        Some(String::new())
    );
}

#[test]
fn statements_that_are_not_read_back_are_told_apart() {
    assert!(is_writable(&about(ObjectNode::named(iri("http://a/o")))));
    assert!(is_writable(&about(ObjectNode::literal(Literal::new("line\nbreak \"q\"")))));
    assert!(is_writable(&about(ObjectNode::literal(Literal::with_type(
        "1",
        DataType::Other(iri("http://a/int"))
    )))));
    assert!(!is_writable(&about(ObjectNode::literal(Literal::from(1u8)))));
    assert!(!is_writable(&about(ObjectNode::literal(Literal::with_language("x", "EN")))));
    assert!(!is_writable(&about(ObjectNode::literal(Literal::with_language("x", "en_us")))));
    assert!(!is_writable(&about(ObjectNode::literal(Literal::from_lexical_form("a\"b")))));
    assert!(!is_writable(&about(ObjectNode::blank_named("ends."))));
    assert!(!is_writable(&about(ObjectNode::named(iri("relative/path")))));
    assert!(!is_writable(&Statement::new(
        SubjectNode::blank_named(""),
        iri("http://a/p"),
        ObjectNode::blank_named("o")
    )));
    assert!(!is_writable(&Statement::new(
        SubjectNode::blank_named("s"),
        iri("p"),
        ObjectNode::blank_named("o")
    )));
}

#[test]
fn parts_of_a_statement_are_judged_one_by_one() {
    assert!(is_stable_iri(&iri("http://example.org/a?b#c")));
    assert!(is_stable_iri(&iri("urn:isbn:0451450523")));
    assert!(is_stable_iri(&iri("http://[0:0:0:0:0:0:0:1]/x")));
    assert!(!is_stable_iri(&iri("//example.org/x")));
    assert!(is_blank_label("a"));
    assert!(is_blank_label("0"));
    assert!(is_blank_label("a.b-c"));
    assert!(is_blank_label("_:"));
    assert!(!is_blank_label(""));
    assert!(!is_blank_label("-a"));
    assert!(!is_blank_label(".a"));
    assert!(!is_blank_label("a."));
    assert!(!is_blank_label("a b"));
    assert!(is_quotable(""));
    assert!(is_quotable("plain é"));
    assert!(is_quotable("\\t\\b\\n\\r\\f\\\"\\'\\\\\\u00e9\\U0001F600"));
    assert!(!is_quotable("\""));
    assert!(!is_quotable("a\nb"));
    assert!(!is_quotable("a\\"));
    assert!(!is_quotable("\\q"));
    assert!(!is_quotable("\\u12"));
    assert!(is_lower_lang_tag("en"));
    assert!(is_lower_lang_tag("fr-be-x1"));
    assert!(!is_lower_lang_tag(""));
    assert!(!is_lower_lang_tag("En"));
    assert!(!is_lower_lang_tag("en-"));
    assert!(!is_lower_lang_tag("1en"));
    assert!(!is_lower_lang_tag("en--gb"));
    assert!(is_writable_literal(&Literal::new("x")));
    assert!(!is_writable_literal(&Literal::from("x")));
}

#[test]
fn equal_values_have_equal_hashes() {
    let mut statements: HashSet<Statement> = HashSet::new();
    statements.insert(about(ObjectNode::literal(Literal::new("x"))));
    statements.insert(about(ObjectNode::literal(Literal::new("x"))));
    statements.insert(about(ObjectNode::literal(Literal::with_language("x", "en"))));
    statements.insert(about(ObjectNode::named(iri("http://a/o"))));
    statements.insert(about(ObjectNode::named(Iri::parse("http://a/o").unwrap())));
    assert_eq!(statements.len(), 3);
    let mut iris: HashSet<Iri> = HashSet::new();
    iris.insert(rdftk::names::rdf::a_type());
    iris.insert(iri("http://www.w3.org/1999/02/22-rdf-syntax-ns#type"));
    iris.insert(Iri::from(DataType::String));
    iris.insert(rdftk::names::xsd::namespace_iri());
    assert_eq!(iris.len(), 3);
}

#[test]
fn datatype_gives_its_iri() {
    assert_eq!(
        Iri::from(DataType::UnsignedInt).as_str(),
        "http://www.w3.org/2001/XMLSchema#unsignedInt"
    );
    assert_eq!(Iri::from(DataType::Other(iri("http://a/t"))), iri("http://a/t"));
}

#[test]
fn resource_gives_shared_statements() {
    let resource = Resource::named(iri("http://a/s"))
        .literal(iri("http://a/p"), Literal::new("1"))
        .literal(iri("http://a/q"), Literal::new("2"))
        .literal(iri("http://a/p"), Literal::new("3"))
        .to_owned();
    let plain: Vec<Statement> = resource.clone().into();
    let shared: Vec<Rc<Statement>> = resource.into();
    assert_eq!(shared.len(), 3);
    for (a, b) in plain.iter().zip(shared.iter()) {
        assert_eq!(a, b.as_ref());
    }
    assert_eq!(shared[1].to_string(), "<http://a/s> <http://a/p> \"3\" .");
    let none: Vec<Rc<Statement>> = Resource::blank().into();
    assert!(none.is_empty());
}

#[test]
fn things_of_a_thesaurus_give_their_iris() {
    let scheme = Scheme::new(iri("http://a/scheme"));
    let concept = Concept::new(iri("http://a/concept"));
    let collection = Collection::new(iri("http://a/collection"));
    assert_eq!(ToUri::to_uri(&scheme), iri("http://a/scheme"));
    assert_eq!(ToUri::to_uri(&concept), iri("http://a/concept"));
    assert_eq!(ToUri::to_uri(&collection), iri("http://a/collection"));
    assert_eq!(ToURI::to_uri(&scheme), iri("http://a/scheme"));
    assert_eq!(ToURI::to_uri(&concept), iri("http://a/concept"));
    assert_eq!(ToURI::to_uri(&collection), iri("http://a/collection"));
}

#[test]
fn graph_name_is_kept_beside_the_statements() {
    let mut graph = Graph::new();
    graph.insert(about(ObjectNode::blank_named("o")));
    graph.set_name(iri("http://a/g"));
    assert_eq!(graph.name(), &Some(iri("http://a/g")));
    assert_eq!(graph.len(), 1);
    graph.unset_name();
    assert_eq!(graph.name(), &None);
    assert_eq!(graph.len(), 1);
}
