use rdftk::common::Indenter;
use rdftk::graph::Graph;
use rdftk::iri::Iri;
use rdftk::literal::Literal;
use rdftk::mapping::PrefixMappings;
use rdftk::statement::{ObjectNode, Statement, SubjectNode};
use rdftk::turtle::writer::{TurtleOptions, TurtleWriter};

fn example(name: &str) -> Iri {
    Iri::parse(&format!("http://example.org/{}", name)).unwrap()
}

fn named(subject: &str, predicate: &str, object: ObjectNode) -> Statement {
    Statement::new(SubjectNode::named(example(subject)), example(predicate), object)
}

fn blank(subject: &str, predicate: &str, object: ObjectNode) -> Statement {
    Statement::new(SubjectNode::blank_named(subject), example(predicate), object)
}

fn text(value: &str) -> ObjectNode {
    ObjectNode::literal(Literal::new(value))
}

fn graph_of(statements: Vec<Statement>) -> Graph {
    let mut graph = Graph::new();
    for statement in statements {
        graph.insert(statement);
    }
    graph
}

fn by_reference() -> TurtleOptions {
    TurtleOptions {
        nest_blank_nodes: false,
        use_sparql_style: false,
    }
}

#[test]
fn options_have_their_defaults() {
    let options = TurtleOptions::default();
    assert!(options.nest_blank_nodes);
    assert!(!options.use_sparql_style);
    let graph = graph_of(vec![named("s", "p", text("o"))]);
    assert_eq!(
        TurtleWriter::default().write(&graph),
        TurtleWriter::new(TurtleOptions::default()).write(&graph)
    );
}

#[test]
fn empty_graph_gives_two_empty_lines() {
    assert_eq!(TurtleWriter::default().write(&Graph::new()), "\n\n");
}

#[test]
fn one_statement_is_one_block() {
    let graph = graph_of(vec![named("s", "p", text("o"))]);
    assert_eq!(
        TurtleWriter::default().write(&graph),
        "\n\n<http://example.org/s> <http://example.org/p> \"o\" .\n\n"
    );
}

#[test]
fn predicates_are_joined_by_semicolons_and_objects_by_commas() {
    let graph = graph_of(vec![
        named("s", "p", text("a")),
        named("s", "q", ObjectNode::named(example("o"))),
        named("s", "q", text("b")),
        named("t", "p", text("c")),
        named("s", "r", text("d")),
    ]);
    assert_eq!(
        TurtleWriter::default().write(&graph),
        "\n\n<http://example.org/s> <http://example.org/p> \"a\" ;\n  \
         <http://example.org/q> <http://example.org/o> ,\n\"b\" ;\n    \
         <http://example.org/r> \"d\" .\n\n\
         <http://example.org/t> <http://example.org/p> \"c\" .\n\n"
    );
}

#[test]
fn base_and_prefixes_are_declared_in_both_styles() {
    let mut mappings = PrefixMappings::new();
    mappings.insert("ex", example("")).unwrap();
    mappings.set_default(Iri::parse("http://default.example/").unwrap());
    let mut graph = graph_of(vec![
        named("s", "p", ObjectNode::named(Iri::parse("http://default.example/o").unwrap())),
        Statement::new(
            SubjectNode::named(Iri::parse("http://base.example/x/y").unwrap()),
            Iri::parse("http://other.example/p").unwrap(),
            ObjectNode::named(Iri::parse("http://base.example/x/").unwrap()),
        ),
    ]);
    graph.set_prefix_mappings(mappings);
    let base = Iri::parse("http://base.example/x/").unwrap();
    assert_eq!(
        TurtleWriter::with_base(base.clone(), TurtleOptions::default()).write(&graph),
        "@base <http://base.example/x/> .\n\n\
         @prefix ex: <http://example.org/> .\n\
         @prefix : <http://default.example/> .\n\n\
         ex:s ex:p :o .\n\n\
         <y> <http://other.example/p> <> .\n\n"
    );
    let sparql = TurtleOptions {
        nest_blank_nodes: true,
        use_sparql_style: true,
    };
    assert_eq!(
        TurtleWriter::with_base(base, sparql).write(&graph),
        "BASE <http://base.example/x/>\n\n\
         PREFIX ex: <http://example.org/>\n\
         PREFIX : <http://default.example/>\n\n\
         ex:s ex:p :o .\n\n\
         <y> <http://other.example/p> <> .\n\n"
    );
}

#[test]
fn longest_namespace_is_taken() {
    let mut mappings = PrefixMappings::new();
    mappings.insert("ex", example("")).unwrap();
    mappings.insert("deep", example("a/b/")).unwrap();
    mappings.insert("mid", example("a/")).unwrap();
    let mut graph = graph_of(vec![named("a/b/c", "a/c", ObjectNode::named(example("a/b/")))]);
    graph.set_prefix_mappings(mappings);
    assert_eq!(
        TurtleWriter::default().write(&graph),
        "\n@prefix ex: <http://example.org/> .\n\
         @prefix deep: <http://example.org/a/b/> .\n\
         @prefix mid: <http://example.org/a/> .\n\n\
         deep:c mid:c deep: .\n\n"
    );
}

#[test]
fn blank_nodes_are_nested_where_they_are_referred_to() {
    let graph = graph_of(vec![
        named("s", "p", ObjectNode::blank_named("b")),
        blank("b", "q", text("x")),
        blank("c", "q", text("y")),
    ]);
    assert_eq!(
        TurtleWriter::default().write(&graph),
        "\n\n<http://example.org/s> <http://example.org/p> [\n    \
         <http://example.org/q> \"x\" \n  ].\n\n\n\n\
         _:c <http://example.org/q> \"y\" .\n"
    );
}

#[test]
fn blank_nodes_are_written_by_label_where_nesting_is_off() {
    let graph = graph_of(vec![
        named("s", "p", ObjectNode::blank_named("b")),
        blank("b", "q", text("x")),
    ]);
    assert_eq!(
        TurtleWriter::new(by_reference()).write(&graph),
        "\n\n<http://example.org/s> <http://example.org/p> _:b.\n\n\n\
         _:b <http://example.org/q> \"x\" .\n"
    );
}

#[test]
fn blank_nodes_in_a_circle_are_written_once_on_each_path() {
    let graph = graph_of(vec![
        blank("a", "p", ObjectNode::blank_named("b")),
        blank("b", "p", ObjectNode::blank_named("a")),
    ]);
    assert_eq!(
        TurtleWriter::default().write(&graph),
        "\n\n\n\n_:a <http://example.org/p> [\n    \
         <http://example.org/p> _:a\n  ].\n\
         _:b <http://example.org/p> [\n    \
         <http://example.org/p> _:b\n  ].\n"
    );
}

#[test]
fn sub_graph_reports_the_blank_nodes_it_has_written() {
    let graph = graph_of(vec![
        named("s", "p", ObjectNode::blank_named("b")),
        blank("b", "q", ObjectNode::blank_named("c")),
        blank("c", "q", text("x")),
        named("s", "p", ObjectNode::blank_named("d")),
    ]);
    let writer = TurtleWriter::default();
    let mut out = String::new();
    let written = writer.write_sub_graph(
        &mut out,
        &SubjectNode::named(example("s")),
        &graph,
        Indenter::default(),
    );
    assert_eq!(
        written,
        vec![
            SubjectNode::blank_named("b"),
            SubjectNode::blank_named("c"),
            SubjectNode::blank_named("d"),
        ]
    );
    assert_eq!(
        out,
        "<http://example.org/s> <http://example.org/p> [\n      \
         <http://example.org/q> [\n        \
         <http://example.org/q> \"x\" \n      ]\n    ],\n[\n      \n    ].\n"
    );
    let mut nested = String::new();
    let none = writer.write_sub_graph(
        &mut nested,
        &SubjectNode::blank_named("c"),
        &graph,
        Indenter::default().indent(),
    );
    assert!(none.is_empty());
    assert_eq!(nested, "  <http://example.org/q> \"x\" \n");
}

#[test]
fn literals_are_written_with_type_and_language() {
    let graph = graph_of(vec![
        named("s", "p", ObjectNode::literal(Literal::from(7u8))),
        named("s", "p", ObjectNode::literal(Literal::with_language("chat", "FR"))),
        named("s", "p", text("say \"hi\"")),
    ]);
    assert_eq!(
        TurtleWriter::default().write(&graph),
        "\n\n<http://example.org/s> <http://example.org/p> \
         \"7\"^^<http://www.w3.org/2001/XMLSchema#unsignedByte> ,\n\
         \"chat\"@fr ,\n\"say \\\"hi\\\"\" .\n\n"
    );
}

#[test]
fn indenter_counts_steps_of_two_spaces() {
    let indenter = Indenter::default();
    assert_eq!(indenter.depth(), 0);
    assert_eq!(indenter.to_string(), "");
    assert_eq!(indenter.one(), "  ");
    let deeper = indenter.indent().indent();
    assert_eq!(deeper.depth(), 2);
    assert_eq!(deeper.to_string(), "    ");
    assert_eq!(deeper.outdent().depth(), 1);
    assert_eq!(indenter.outdent().depth(), 0);
    let mut out = String::from("x");
    deeper.outdent().write(&mut out);
    assert_eq!(out, "x  ");
}
