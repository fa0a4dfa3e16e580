use rdftk::iri::Iri;
use rdftk::literal::Literal;
use rdftk::names::rdf;
use rdftk::resource::{Predicate, Resource};
use rdftk::statement::{ObjectNode, Statement, SubjectNode};

fn contact(name: &str) -> Iri {
    Iri::parse(&format!(
        "http://www.w3.org/2000/10/swap/pim/contact#{}",
        name
    ))
    .unwrap()
}

fn example(name: &str) -> Iri {
    Iri::parse(&format!("http://example.org/{}", name)).unwrap()
}

fn lines(statements: &[Statement]) -> Vec<String> {
    statements.iter().map(|st| st.to_string()).collect()
}

#[test]
fn test_wikipedia_example_01() {
    let resource = Resource::named(
        Iri::parse("http://www.w3.org/People/EM/contact#me").unwrap(),
    )
    .literal(contact("fullName"), "Eric Miller".into())
    .resource_named(
        contact("mailbox"),
        Iri::parse("mailto:e.miller123(at)example").unwrap(),
    )
    .literal(contact("personalTitle"), "Dr.".into())
    .instance_of(contact("Person"))
    .to_owned();
    let sts: Vec<Statement> = resource.into();
    assert_eq!(sts.len(), 4);
    for st in sts {
        println!("{}", st.to_string());
    }
}

#[test]
fn literal_and_type_give_two_statements() {
    let resource = Resource::named(example("u"))
        .literal(example("p1"), Literal::new("hello"))
        .instance_of(example("U2"))
        .to_owned();
    let sts = resource.to_statements();
    assert_eq!(
        lines(&sts),
        vec![
            "<http://example.org/u> <http://example.org/p1> \"hello\" .",
            "<http://example.org/u> <http://www.w3.org/1999/02/22-rdf-syntax-ns#type> <http://example.org/U2> .",
        ]
    );
    assert_eq!(sts[0].subject(), &SubjectNode::named(example("u")));
    assert_eq!(sts[0].predicate(), &example("p1"));
    assert_eq!(sts[0].object(), &ObjectNode::literal(Literal::new("hello")));
    assert_eq!(sts[1].predicate(), &rdf::a_type());
    assert_eq!(sts[1].object(), &ObjectNode::named(example("U2")));
}

#[test]
fn sequence_of_three_gives_five_statements() {
    let resource = Resource::named(example("s"))
        .property_sequence(
            example("p"),
            &[Literal::new("a"), Literal::new("b"), Literal::new("c")],
        )
        .to_owned();
    let sts = resource.to_statements();
    assert_eq!(
        lines(&sts),
        vec![
            "<http://example.org/s> <http://example.org/p> _:B1 .",
            "_:B1 <http://www.w3.org/1999/02/22-rdf-syntax-ns#type> <http://www.w3.org/1999/02/22-rdf-syntax-ns#Seq> .",
            "_:B1 <http://www.w3.org/1999/02/22-rdf-syntax-ns#_1> \"a\" .",
            "_:B1 <http://www.w3.org/1999/02/22-rdf-syntax-ns#_2> \"b\" .",
            "_:B1 <http://www.w3.org/1999/02/22-rdf-syntax-ns#_3> \"c\" .",
        ]
    );
}

#[test]
fn container_kinds_name_their_classes() {
    let resource = Resource::named(example("s"))
        .property_alternatives(example("p"), &[Literal::new("a")])
        .property_bag(example("p"), &[])
        .property_container(example("q"), &[Literal::new("z")], example("Kind"))
        .to_owned();
    let sts = resource.to_statements();
    assert_eq!(
        lines(&sts),
        vec![
            "<http://example.org/s> <http://example.org/p> _:B1 .",
            "_:B1 <http://www.w3.org/1999/02/22-rdf-syntax-ns#type> <http://www.w3.org/1999/02/22-rdf-syntax-ns#Alt> .",
            "_:B1 <http://www.w3.org/1999/02/22-rdf-syntax-ns#_1> \"a\" .",
            "<http://example.org/s> <http://example.org/p> _:B2 .",
            "_:B2 <http://www.w3.org/1999/02/22-rdf-syntax-ns#type> <http://www.w3.org/1999/02/22-rdf-syntax-ns#Bag> .",
            "<http://example.org/s> <http://example.org/q> _:B3 .",
            "_:B3 <http://www.w3.org/1999/02/22-rdf-syntax-ns#type> <http://example.org/Kind> .",
            "_:B3 <http://www.w3.org/1999/02/22-rdf-syntax-ns#_1> \"z\" .",
        ]
    );
}

#[test]
fn nested_resource_comes_before_its_link() {
    let resource = Resource::named(example("tony"))
        .value_of(example("publisher"), Literal::new("Wikipedia"))
        .resource(
            example("description"),
            Resource::blank()
                .resource_named(rdf::a_type(), example("Person"))
                .value_of(example("name"), Literal::new("Tony Benn"))
                .to_owned(),
        )
        .value_of(example("title"), Literal::new("Tony Benn"))
        .to_owned();
    let sts: Vec<Statement> = resource.into();
    assert_eq!(
        lines(&sts),
        vec![
            "<http://example.org/tony> <http://example.org/publisher> \"Wikipedia\" .",
            "_:B1 <http://www.w3.org/1999/02/22-rdf-syntax-ns#type> <http://example.org/Person> .",
            "_:B1 <http://example.org/name> \"Tony Benn\" .",
            "<http://example.org/tony> <http://example.org/description> _:B1 .",
            "<http://example.org/tony> <http://example.org/title> \"Tony Benn\" .",
        ]
    );
}

#[test]
fn container_of_resources_links_before_members() {
    let first = Resource::named(example("one"))
        .literal(example("n"), Literal::new("1"))
        .to_owned();
    let second = Resource::blank_named("two");
    let third = Resource::blank()
        .literal(example("n"), Literal::new("3"))
        .to_owned();
    let resource = Resource::blank()
        .resource_sequence(example("members"), &[first, second, third])
        .to_owned();
    let sts = resource.to_statements();
    assert_eq!(
        lines(&sts),
        vec![
            "_:B___1 <http://example.org/members> _:B___2 .",
            "_:B___2 <http://www.w3.org/1999/02/22-rdf-syntax-ns#type> <http://www.w3.org/1999/02/22-rdf-syntax-ns#Seq> .",
            "<http://example.org/one> <http://example.org/n> \"1\" .",
            "_:B___2 <http://www.w3.org/1999/02/22-rdf-syntax-ns#_1> <http://example.org/one> .",
            "_:B___2 <http://www.w3.org/1999/02/22-rdf-syntax-ns#_2> _:two .",
            "_:B___3 <http://example.org/n> \"3\" .",
            "_:B___2 <http://www.w3.org/1999/02/22-rdf-syntax-ns#_3> _:B___3 .",
        ]
    );
}

#[test]
fn new_labels_avoid_the_labels_of_the_tree() {
    let resource = Resource::blank_named("B1")
        .property_bag(example("p"), &[Literal::new("x")])
        .to_owned();
    let sts = resource.to_statements();
    assert_eq!(sts.len(), 3);
    assert_eq!(sts[0].subject(), &SubjectNode::blank_named("B1"));
    assert_eq!(sts[0].object(), &ObjectNode::blank_named("B__1"));
    assert_eq!(sts[1].subject(), &SubjectNode::blank_named("B__1"));
}

#[test]
fn new_labels_count_past_nine() {
    let members: Vec<Literal> = Vec::new();
    let mut resource = Resource::named(example("s"));
    for _ in 0..11 {
        resource.property_bag(example("p"), &members);
    }
    let sts = resource.to_statements();
    assert_eq!(sts.len(), 22);
    assert_eq!(sts[16].object(), &ObjectNode::blank_named("B9"));
    assert_eq!(sts[18].object(), &ObjectNode::blank_named("B10"));
    assert_eq!(sts[20].object(), &ObjectNode::blank_named("B11"));
}

#[test]
fn resource_without_predicates_gives_nothing() {
    assert_eq!(Resource::named(example("s")).to_statements().len(), 0);
    assert_eq!(Resource::blank().to_statements().len(), 0);
}

#[test]
fn flattening_twice_gives_the_same_statements() {
    let resource = Resource::blank()
        .property_sequence(example("p"), &[Literal::new("a")])
        .resource(example("q"), Resource::blank())
        .to_owned();
    assert_eq!(resource.to_statements(), resource.to_statements());
    assert_eq!(resource.to_statements().len(), 4);
}

#[test]
fn values_of_one_predicate_stay_together() {
    let resource = Resource::named(example("s"))
        .literal(example("p"), Literal::new("1"))
        .literal(example("q"), Literal::new("2"))
        .literal(example("p"), Literal::new("3"))
        .to_owned();
    assert_eq!(
        lines(&resource.to_statements()),
        vec![
            "<http://example.org/s> <http://example.org/p> \"1\" .",
            "<http://example.org/s> <http://example.org/p> \"3\" .",
            "<http://example.org/s> <http://example.org/q> \"2\" .",
        ]
    );
}

#[test]
fn predicate_builder_adds_its_values_in_order() {
    let predicate = Predicate::new(example("p"))
        .literal(Literal::new("1"))
        .resource_named(example("o"))
        .resource_blank_named("b")
        .to_owned();
    let resource = Resource::named(example("s"))
        .literal(example("p"), Literal::new("0"))
        .predicate(predicate)
        .to_owned();
    assert_eq!(
        lines(&resource.to_statements()),
        vec![
            "<http://example.org/s> <http://example.org/p> \"0\" .",
            "<http://example.org/s> <http://example.org/p> \"1\" .",
            "<http://example.org/s> <http://example.org/p> <http://example.org/o> .",
            "<http://example.org/s> <http://example.org/p> _:b .",
        ]
    );
}

#[test]
fn individuals_have_a_type() {
    let mut resource = Resource::named(example("s"));
    assert!(resource.is_a_resource());
    assert!(!resource.is_an_individual());
    resource.instance_of(example("Class"));
    assert!(resource.is_an_individual());
    assert!(!Resource::blank().is_a_resource());
    assert!(!Resource::blank_named("x").is_a_resource());
}
