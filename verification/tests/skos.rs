use rdftk::iri::Iri;
use rdftk::literal::Literal;
use rdftk::mapping::Prefix;
use rdftk::names::{rdf, skos};
use rdftk::skos::model::{
    standard_mappings, to_rdf_graph, Collection, Concept, Labeled, LiteralProperty, Named,
    ObjectProperty, Propertied, Scheme, ToStatement, ToStatements,
};
use rdftk::statement::{Statement, SubjectNode};
use rdftk::turtle::writer::TurtleWriter;

fn example(name: &str) -> Iri {
    Iri::parse(&format!("http://example.org/{}", name)).unwrap()
}

fn lines(statements: &[Statement]) -> Vec<String> {
    statements.iter().map(|st| st.to_string()).collect()
}

#[test]
fn standard_mappings_bind_the_usual_prefixes() {
    let mappings = standard_mappings();
    assert_eq!(mappings.len(), 8);
    let expected = vec![
        ("skos", "http://www.w3.org/2004/02/skos/core#"),
        ("skosxl", "http://www.w3.org/2008/05/skos-xl#"),
        ("iso-thes", "http://purl.org/iso25964/skos-thes#"),
        ("ts", "http://www.w3.org/2003/06/sw-vocab-status/ns#"),
        ("dcterms", "http://purl.org/dc/terms/"),
        ("rdf", "http://www.w3.org/1999/02/22-rdf-syntax-ns#"),
        ("owl", "http://www.w3.org/2002/07/owl#"),
        ("xsd", "http://www.w3.org/2001/XMLSchema#"),
    ];
    for (i, (prefix, namespace)) in expected.iter().enumerate() {
        let (bound, iri) = mappings.get(i);
        assert_eq!(bound, &Prefix::Named(prefix.to_string()));
        assert_eq!(iri.as_str(), *namespace);
    }
    assert_eq!(
        mappings.compress(&skos::pref_label()).unwrap().to_string(),
        "skos:prefLabel"
    );
}

#[test]
fn properties_say_one_statement_each() {
    let subject = SubjectNode::named(example("c"));
    assert_eq!(
        LiteralProperty::preferred_label_with("chat", "fr")
            .to_statement(&subject)
            .to_string(),
        "<http://example.org/c> <http://www.w3.org/2004/02/skos/core#prefLabel> \"chat\"@fr ."
    );
    assert_eq!(
        LiteralProperty::notation("n 1").to_statement(&subject).to_string(),
        "<http://example.org/c> <http://www.w3.org/2004/02/skos/core#notation> \"n 1\" ."
    );
    assert_eq!(
        LiteralProperty::title("t").to_statement(&subject).to_string(),
        "<http://example.org/c> <http://purl.org/dc/terms/title> \"t\" ."
    );
    assert_eq!(
        LiteralProperty::definition("d").to_statement(&subject).to_string(),
        "<http://example.org/c> <http://www.w3.org/2004/02/skos/core#definition> \"d\"^^<http://www.w3.org/2001/XMLSchema#string> ."
    );
    assert_eq!(
        ObjectProperty::broader_partitive(example("o"))
            .to_statement(&subject)
            .to_string(),
        "<http://example.org/c> <http://purl.org/iso25964/skos-thes#broaderPartitive> <http://example.org/o> ."
    );
    let property = LiteralProperty::new(example("p"), Literal::new("v"));
    assert_eq!(property.predicate(), &example("p"));
    assert_eq!(property.value(), &Literal::new("v"));
    let relation = ObjectProperty::new(example("p"), example("o"));
    assert_eq!(relation.predicate(), &example("p"));
    assert_eq!(relation.other(), &example("o"));
    assert_eq!(ObjectProperty::member(example("o")).predicate(), &skos::member());
}

#[test]
fn broader_and_narrower_relate_both_ways() {
    let mut cat = Concept::new(example("cat"));
    let animal = cat.broader(example("animal"));
    let siamese = cat.narrower(example("siamese"));
    assert_eq!(animal.uri(), &example("animal"));
    assert_eq!(
        animal.relations(),
        &vec![ObjectProperty::narrower(example("cat"))]
    );
    assert_eq!(
        siamese.relations(),
        &vec![ObjectProperty::broader(example("cat"))]
    );
    assert_eq!(
        cat.relations(),
        &vec![
            ObjectProperty::broader(example("animal")),
            ObjectProperty::narrower(example("siamese")),
        ]
    );
    assert!(cat.has_relations());
    assert!(cat.has_relation(&skos::broader()));
    assert!(!cat.has_relation(&skos::related()));
    assert!(!Concept::new(example("x")).has_relations());
}

#[test]
fn preferred_label_follows_the_language() {
    let mut concept = Concept::new_with_label(example("c"), "cat", Some("en"));
    assert_eq!(concept.preferred_label("en"), Some("cat".to_string()));
    assert_eq!(concept.preferred_label("de"), Some("cat".to_string()));
    concept.add_preferred_label_with("chat", "fr");
    concept.add_alternative_label_with("minou", "fr");
    concept.add_preferred_label_with("Katze", "de");
    concept.add_preferred_label_with("Kater", "de");
    assert_eq!(concept.preferred_label("fr"), Some("chat".to_string()));
    assert_eq!(concept.preferred_label("de"), Some("Kater".to_string()));
    assert_eq!(concept.preferred_label("it"), Some("cat".to_string()));
    let mut untagged = Concept::new(example("d"));
    assert_eq!(untagged.preferred_label("en"), None);
    assert!(!untagged.has_labels());
    untagged.add_hidden_label("h");
    assert_eq!(untagged.preferred_label("en"), None);
    assert!(untagged.has_labels());
    untagged.add_property(LiteralProperty::new(skos::pref_label(), Literal::new("plain")));
    untagged.add_preferred_label_with("chien", "fr");
    assert_eq!(untagged.preferred_label("en"), Some("plain".to_string()));
    assert_eq!(untagged.preferred_label("fr"), Some("chien".to_string()));
    assert_eq!(untagged.labels().len(), 3);
    assert!(untagged.has_property(&skos::hidden_label()));
    assert!(!untagged.has_property(&skos::alt_label()));
    assert!(untagged.has_properties());
    assert_eq!(untagged.properties().len(), 3);
}

#[test]
fn concept_says_its_type_relations_and_properties() {
    let mut concept = Concept::new_with_label(example("c"), "cat", None);
    concept.add_relation(ObjectProperty::related_to(example("d")));
    concept.add_property(LiteralProperty::scope_note_with("pets", "en"));
    assert_eq!(
        lines(&concept.to_statements()),
        vec![
            "<http://example.org/c> <http://www.w3.org/1999/02/22-rdf-syntax-ns#type> <http://www.w3.org/2004/02/skos/core#Concept> .",
            "<http://example.org/c> <http://www.w3.org/2004/02/skos/core#related> <http://example.org/d> .",
            "<http://example.org/c> <http://www.w3.org/2004/02/skos/core#prefLabel> \"cat\"^^<http://www.w3.org/2001/XMLSchema#string> .",
            "<http://example.org/c> <http://www.w3.org/2004/02/skos/core#scopeNote> \"pets\"@en .",
        ]
    );
}

#[test]
fn collection_says_whether_it_is_ordered() {
    let mut collection = Collection::new(example("all"));
    assert!(!collection.is_ordered());
    assert!(!collection.has_members());
    collection.add_member(example("c"));
    let inner = collection.member_collection_labeled(example("some"), true, "Some", Some("en"));
    collection.add_list_member(example("list"));
    let other = collection.member_collection(example("other"), false);
    assert!(inner.is_ordered());
    assert!(!other.is_ordered());
    assert_eq!(other, Collection::new(example("other")));
    assert_eq!(collection.members().len(), 4);
    assert_eq!(
        lines(&inner.to_statements()),
        vec![
            "<http://example.org/some> <http://www.w3.org/1999/02/22-rdf-syntax-ns#type> <http://www.w3.org/2004/02/skos/core#OrderedCollection> .",
            "<http://example.org/some> <http://www.w3.org/2004/02/skos/core#prefLabel> \"Some\"@en .",
        ]
    );
    collection.set_ordered(false);
    assert_eq!(
        lines(&collection.to_statements()),
        vec![
            "<http://example.org/all> <http://www.w3.org/1999/02/22-rdf-syntax-ns#type> <http://www.w3.org/2004/02/skos/core#Collection> .",
            "<http://example.org/all> <http://www.w3.org/2004/02/skos/core#member> <http://example.org/c> .",
            "<http://example.org/all> <http://www.w3.org/2004/02/skos/core#member> <http://example.org/some> .",
            "<http://example.org/all> <http://www.w3.org/2004/02/skos/core#memberList> <http://example.org/list> .",
            "<http://example.org/all> <http://www.w3.org/2004/02/skos/core#member> <http://example.org/other> .",
        ]
    );
}

#[test]
fn scheme_says_what_it_holds() {
    let mut scheme = Scheme::new_with_label(example("scheme"), "Pets", Some("en"));
    assert!(!scheme.has_concepts());
    assert!(!scheme.has_collections());
    scheme.add_top_concept(Concept::new(example("animal")));
    scheme.add_concept(Concept::new(example("cat")));
    scheme.add_concept(Concept::new_with_label(example("cat"), "cat", None));
    scheme.add_collection(Collection::new(example("group")));
    scheme.add_collection(Collection::new(example("group")));
    assert_eq!(scheme.concepts().len(), 2);
    assert_eq!(scheme.collections().len(), 1);
    assert!(scheme.has_concept(&example("cat")));
    assert!(!scheme.has_concept(&example("dog")));
    assert!(scheme.is_top_collection(&example("animal")));
    assert!(!scheme.is_top_collection(&example("cat")));
    assert!(scheme.has_collection(&example("group")));
    assert!(scheme.collection(&example("none")).is_none());
    assert_eq!(
        scheme.concept(&example("cat")).unwrap().preferred_label("en"),
        Some("cat".to_string())
    );
    assert_eq!(scheme.uri(), &example("scheme"));
    let statements = scheme.to_statements();
    assert_eq!(
        lines(&statements),
        vec![
            "<http://example.org/scheme> <http://www.w3.org/1999/02/22-rdf-syntax-ns#type> <http://www.w3.org/2004/02/skos/core#ConceptScheme> .",
            "<http://example.org/animal> <http://www.w3.org/1999/02/22-rdf-syntax-ns#type> <http://www.w3.org/2004/02/skos/core#Concept> .",
            "<http://example.org/animal> <http://www.w3.org/2004/02/skos/core#topConceptOf> <http://example.org/scheme> .",
            "<http://example.org/animal> <http://www.w3.org/2004/02/skos/core#inScheme> <http://example.org/scheme> .",
            "<http://example.org/cat> <http://www.w3.org/1999/02/22-rdf-syntax-ns#type> <http://www.w3.org/2004/02/skos/core#Concept> .",
            "<http://example.org/cat> <http://www.w3.org/2004/02/skos/core#prefLabel> \"cat\"^^<http://www.w3.org/2001/XMLSchema#string> .",
            "<http://example.org/cat> <http://www.w3.org/2004/02/skos/core#inScheme> <http://example.org/scheme> .",
            "<http://example.org/scheme> <http://www.w3.org/2004/02/skos/core#hasTopConcept> <http://example.org/animal> .",
            "<http://example.org/group> <http://www.w3.org/1999/02/22-rdf-syntax-ns#type> <http://www.w3.org/2004/02/skos/core#Collection> .",
            "<http://example.org/group> <http://www.w3.org/2004/02/skos/core#inScheme> <http://example.org/scheme> .",
            "<http://example.org/scheme> <http://www.w3.org/2004/02/skos/core#prefLabel> \"Pets\"@en .",
        ]
    );
    let graph = to_rdf_graph(&scheme, Some(example("")));
    assert_eq!(graph.len(), 11);
    assert_eq!(graph.prefix_mappings().len(), 9);
    assert_eq!(graph.prefix_mappings().get_default_namespace(), Some(&example("")));
    assert_eq!(graph.statements()[1].predicate(), &rdf::a_type());
    let text = TurtleWriter::default().write(&graph);
    assert!(text.contains("@prefix skos: <http://www.w3.org/2004/02/skos/core#> .\n"));
    assert!(text.contains(":cat rdf:type skos:Concept ;\n"));
    assert_eq!(to_rdf_graph(&scheme, None).prefix_mappings().len(), 8);
}
