use rdftk::iri::Iri;
use rdftk::literal::Literal;
use rdftk::mapping::PrefixMappings;
use rdftk::names::{dc_terms, rdf, skos_iso, xsd};
use rdftk::resource::{Resource, ResourceObject};
use rdftk::statement::{ObjectNode, Statement, SubjectNode};

fn example(name: &str) -> Iri {
    Iri::parse(&format!("http://example.org/{}", name)).unwrap()
}

#[test]
fn nodes_say_what_they_are() {
    let named = SubjectNode::named(example("s"));
    assert!(named.is_iri());
    assert!(named.is_named());
    assert!(!named.is_blank());
    assert_eq!(named.as_iri(), Some(&example("s")));
    assert_eq!(named.as_blank(), None);
    assert_eq!(named.to_string(), "<http://example.org/s>");
    let blank = SubjectNode::blank_named("b");
    assert!(blank.is_blank());
    assert!(!blank.is_iri());
    assert_eq!(blank.as_blank(), Some(&"b".to_string()));
    assert_eq!(blank.to_string(), "_:b");
    assert_ne!(named, blank);
    assert_eq!(SubjectNode::from(example("s")), named);

    let literal = ObjectNode::literal(Literal::new("x"));
    assert!(literal.is_literal());
    assert!(!literal.is_iri());
    assert!(!literal.is_blank());
    assert_eq!(literal.as_literal(), Some(&Literal::new("x")));
    assert_eq!(literal.as_subject(), None);
    assert_eq!(literal.as_iri(), None);
    assert_eq!(literal.to_string(), "\"x\"");
    assert_eq!(ObjectNode::from(Literal::new("x")), literal);
    let object = ObjectNode::named(example("o"));
    assert_eq!(object.as_subject(), Some(SubjectNode::named(example("o"))));
    assert_eq!(object.as_iri(), Some(&example("o")));
    assert_eq!(object.as_literal(), None);
    assert_eq!(ObjectNode::from(example("o")), object);
    let other = ObjectNode::blank_named("b");
    assert_eq!(other.as_subject(), Some(blank.clone()));
    assert_eq!(other.as_blank(), Some(&"b".to_string()));
    assert_eq!(ObjectNode::from(blank), other);
    assert_ne!(object, other);
}

#[test]
fn statement_keeps_its_terms() {
    let statement = Statement::new(
        SubjectNode::blank_named("s"),
        example("p"),
        ObjectNode::literal(Literal::with_language("x", "en")),
    );
    assert_eq!(statement.subject(), &SubjectNode::blank_named("s"));
    assert_eq!(statement.predicate(), &example("p"));
    assert_eq!(
        statement.object(),
        &ObjectNode::literal(Literal::with_language("x", "en"))
    );
    assert_eq!(statement.to_string(), "_:s <http://example.org/p> \"x\"@en .");
    assert_eq!(statement.clone(), statement);
    let other = Statement::new(
        SubjectNode::blank_named("s"),
        example("p"),
        ObjectNode::literal(Literal::with_language("x", "de")),
    );
    assert_ne!(statement, other);
}

#[test]
fn values_of_a_resource_say_whether_they_are_containers() {
    assert!(!ResourceObject::Literal(Literal::new("x")).is_container());
    assert!(!ResourceObject::Resource(Resource::blank()).is_container());
    assert!(ResourceObject::Literals(rdftk::resource::ContainerKind::Bag, vec![]).is_container());
    assert!(
        ResourceObject::Resources(rdftk::resource::ContainerKind::Alt, vec![]).is_container()
    );
}

#[test]
fn vocabularies_name_their_terms() {
    assert_eq!(
        rdf::a_type().as_str(),
        "http://www.w3.org/1999/02/22-rdf-syntax-ns#type"
    );
    assert_eq!(rdf::alt().as_str(), "http://www.w3.org/1999/02/22-rdf-syntax-ns#Alt");
    assert_eq!(rdf::bag().as_str(), "http://www.w3.org/1999/02/22-rdf-syntax-ns#Bag");
    assert_eq!(rdf::seq().as_str(), "http://www.w3.org/1999/02/22-rdf-syntax-ns#Seq");
    assert_eq!(
        rdf::member(1).as_str(),
        "http://www.w3.org/1999/02/22-rdf-syntax-ns#_1"
    );
    assert_eq!(
        rdf::member(120).as_str(),
        "http://www.w3.org/1999/02/22-rdf-syntax-ns#_120"
    );
    assert_eq!(
        rdf::member(0).as_str(),
        "http://www.w3.org/1999/02/22-rdf-syntax-ns#_0"
    );
    assert_eq!(rdf::namespace_iri().as_str(), rdf::NAMESPACE);
    assert_eq!(xsd::namespace_iri().as_str(), "http://www.w3.org/2001/XMLSchema#");
    assert_eq!(dc_terms::created().as_str(), "http://purl.org/dc/terms/created");
    assert_eq!(
        skos_iso::narrower_instantial().as_str(),
        "http://purl.org/iso25964/skos-thes#narrowerInstantial"
    );
    assert_eq!(rdf::PREFIX, "rdf");
    for iri in [rdf::a_type(), rdf::member(7), dc_terms::title(), xsd::namespace_iri()] {
        assert_eq!(Iri::parse(iri.as_str()).unwrap(), iri);
        assert!(!iri.is_relative_reference());
    }
}

#[test]
fn namespaces_come_in_the_order_of_their_binding() {
    let mut mappings = PrefixMappings::new();
    mappings.insert("b", example("b/")).unwrap();
    mappings.set_default(example("d/"));
    mappings.insert("a", example("a/")).unwrap();
    mappings.set_default(example("e/"));
    assert_eq!(
        mappings.namespaces_in_use_order(),
        vec![example("b/"), example("e/"), example("a/")]
    );
}
