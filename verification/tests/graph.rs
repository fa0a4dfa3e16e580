use rdftk::error::Error;
use rdftk::graph::named::{MutableNamedGraph, NamedGraph};
use rdftk::graph::Graph;
use rdftk::iri::Iri;
use rdftk::literal::Literal;
use rdftk::mapping::{Prefix, PrefixMappings};
use rdftk::qname::QName;
use rdftk::statement::{ObjectNode, Statement, SubjectNode};

fn example(name: &str) -> Iri {
    Iri::parse(&format!("http://example.org/{}", name)).unwrap()
}

fn statement(subject: &str, predicate: &str, object: &str) -> Statement {
    Statement::new(
        SubjectNode::named(example(subject)),
        example(predicate),
        ObjectNode::literal(Literal::new(object)),
    )
}

#[test]
fn inserting_twice_changes_nothing() {
    let mut graph = Graph::new();
    assert!(graph.is_empty());
    graph.insert(statement("s", "p", "1"));
    graph.insert(statement("s", "p", "2"));
    graph.insert(statement("s", "p", "1"));
    assert_eq!(graph.len(), 2);
    assert!(graph.contains(&statement("s", "p", "1")));
    assert!(!graph.contains(&statement("s", "p", "3")));
    assert_eq!(
        graph.statements(),
        &vec![statement("s", "p", "1"), statement("s", "p", "2")]
    );
}

#[test]
fn subjects_predicates_and_objects_keep_their_first_order() {
    let mut graph = Graph::new();
    graph.insert(statement("b", "q", "1"));
    graph.insert(statement("a", "p", "2"));
    graph.insert(statement("b", "p", "3"));
    graph.insert(statement("b", "q", "4"));
    graph.insert(Statement::new(
        SubjectNode::blank_named("b"),
        example("p"),
        ObjectNode::blank_named("b"),
    ));
    assert_eq!(
        graph.subjects(),
        vec![
            SubjectNode::named(example("b")),
            SubjectNode::named(example("a")),
            SubjectNode::blank_named("b"),
        ]
    );
    let b = SubjectNode::named(example("b"));
    assert_eq!(graph.predicates_for(&b), vec![example("q"), example("p")]);
    assert_eq!(
        graph.objects_for(&b, &example("q")),
        vec![
            ObjectNode::literal(Literal::new("1")),
            ObjectNode::literal(Literal::new("4")),
        ]
    );
    assert!(graph.predicates_for(&SubjectNode::named(example("c"))).is_empty());
    assert!(graph.objects_for(&b, &example("r")).is_empty());
}

#[test]
fn graph_can_be_named() {
    let mut graph = Graph::new();
    assert_eq!(graph.name(), &None);
    assert_eq!(graph.set_name(example("g")), None);
    assert_eq!(graph.name(), &Some(example("g")));
    assert_eq!(graph.set_name(example("h")), Some(example("g")));
    assert_eq!(graph.unset_name(), Some(example("h")));
    assert_eq!(graph.unset_name(), None);
    assert_eq!(graph.name(), &None);
}

#[test]
fn prefix_is_bound_once() {
    let mut mappings = PrefixMappings::new();
    assert!(mappings.is_empty());
    assert!(mappings.insert("ex", example("")).is_ok());
    assert!(mappings.insert("ex", example("")).is_ok());
    assert_eq!(mappings.len(), 1);
    let conflict = mappings.insert("ex", example("other/")).unwrap_err();
    assert_eq!(
        format!("{:?}", conflict),
        format!("{:?}", Error::PrefixConflict("ex".to_string()))
    );
    assert_eq!(
        conflict.message(),
        "the prefix is bound to another namespace: ex"
    );
    assert_eq!(
        mappings.get_namespace(&Prefix::Named("ex".to_string())),
        Some(&example(""))
    );
    assert_eq!(mappings.get_namespace(&Prefix::Named("no".to_string())), None);
}

#[test]
fn default_namespace_can_be_replaced() {
    let mut mappings = PrefixMappings::new();
    assert_eq!(mappings.get_default_namespace(), None);
    mappings.set_default(example("a/"));
    mappings.insert("ex", example("")).unwrap();
    mappings.set_default(example("b/"));
    assert_eq!(mappings.get_default_namespace(), Some(&example("b/")));
    assert_eq!(
        mappings.prefixes(),
        vec![Prefix::Default, Prefix::Named("ex".to_string())]
    );
    assert_eq!(mappings.get_prefix(&example("")), Some(&Prefix::Named("ex".to_string())));
    assert_eq!(mappings.get_prefix(&example("b/")), Some(&Prefix::Default));
    assert_eq!(mappings.get_prefix(&example("a/")), None);
    let (prefix, namespace) = mappings.get(1);
    assert_eq!(prefix, &Prefix::Named("ex".to_string()));
    assert_eq!(namespace, &example(""));
}

#[test]
fn compress_takes_the_longest_namespace() {
    let mut mappings = PrefixMappings::new();
    mappings.insert("ex", example("")).unwrap();
    mappings.insert("deep", example("a/b/")).unwrap();
    mappings.insert("again", example("a/b/")).unwrap();
    mappings.set_default(example("a/"));
    let name = mappings.compress(&example("a/b/c")).unwrap();
    assert_eq!(name.prefix(), &Some("deep".to_string()));
    assert_eq!(name.name(), "c");
    assert_eq!(name.to_string(), "deep:c");
    assert_eq!(mappings.compress(&example("a/x")).unwrap().to_string(), ":x");
    assert_eq!(mappings.compress(&example("x")).unwrap().to_string(), "ex:x");
    assert_eq!(mappings.compress(&example("")).unwrap().to_string(), "ex:");
    assert!(mappings
        .compress(&Iri::parse("http://other.example/x").unwrap())
        .is_none());
    assert_eq!(QName::new("n").to_string(), ":n");
    assert_eq!(QName::with_prefix("p", "n").to_string(), "p:n");
}

#[test]
fn mappings_can_be_copied() {
    let mut mappings = PrefixMappings::new();
    mappings.insert("ex", example("")).unwrap();
    let copy = mappings.clone();
    mappings.set_default(example("d/"));
    assert_eq!(copy.len(), 1);
    assert_eq!(mappings.len(), 2);
    let mut graph = Graph::new();
    graph.set_prefix_mappings(copy);
    assert_eq!(graph.prefix_mappings().len(), 1);
}
