use rdftk::error::{Error, Rule};
use rdftk::escape::unescape_uchar;
use rdftk::graph::Graph;
use rdftk::iri::Iri;
use rdftk::literal::{DataType, Literal};
use rdftk::nt::parser::{parse_graph, unescape_iri};
use rdftk::statement::{ObjectNode, Statement, SubjectNode};

fn write_graph(graph: &Graph) {
    for statement in graph.statements() {
        println!("{}", statement.to_string());
    }
}

fn iri(text: &str) -> Iri {
    Iri::parse(text).unwrap()
}

fn syntax(rule: Rule, position: usize, found: &str) -> Error {
    Error::Syntax {
        rule,
        position,
        found: found.to_string(),
    }
}

fn error_of(input: &str) -> String {
    format!("{:?}", parse_graph(input).unwrap_err())
}

#[test]
fn parse_simple() {
    let result: Result<Graph, Error> = parse_graph(
        r###"
<http://example.org/show/218> <http://www.w3.org/2000/01/rdf-schema#label> "That Seventies Show"^^<http://www.w3.org/2001/XMLSchema#string> . # literal with XML Schema string datatype
<http://example.org/show/218> <http://www.w3.org/2000/01/rdf-schema#label> "That Seventies Show" . # same as above
<http://example.org/show/218> <http://example.org/show/localName> "That Seventies Show"@en . # literal with a language tag
<http://example.org/show/218> <http://example.org/show/localName> "Cette Série des Années Septante"@fr-be .  # literal outside of ASCII range with a region subtag
<http://example.org/#spiderman> <http://example.org/text> "This is a multi-line\nliteral with many quotes (\"\"\"\"\")\nand two apostrophes ('')." .
<http://en.wikipedia.org/wiki/Helium> <http://example.org/elements/atomicNumber> "2"^^<http://www.w3.org/2001/XMLSchema#integer> . # xsd:integer
<http://en.wikipedia.org/wiki/Helium> <http://example.org/elements/specificGravity> "1.663E-4"^^<http://www.w3.org/2001/XMLSchema#double> .     # xsd:double
"###,
    );
    match result {
        Ok(g) => {
            println!("ok");
            write_graph(&g);
        }
        Err(e) => {
            println!("{:?}", e);
            panic!();
        }
    }
}

#[test]
fn parse_simple_with_blanks() {
    let result: Result<Graph, Error> = parse_graph(
        r###"
<http://one.example/subject1> <http://one.example/predicate1> <http://one.example/object1> . # comments here
# or on a line by themselves
_:subject1 <http://an.example/predicate1> "object1" .
_:subject2 <http://an.example/predicate2> "object2" .
"###,
    );
    match result {
        Ok(g) => {
            println!("ok");
            write_graph(&g);
        }
        Err(e) => {
            println!("{:?}", e);
            panic!();
        }
    }
}

#[test]
fn parse_simple_yields_its_statements_in_order() {
    let graph = parse_graph(
        "<http://example.org/show/218> <http://example.org/p> \"That Seventies Show\"^^<http://www.w3.org/2001/XMLSchema#string> . # c\n\
         <http://example.org/#spiderman> <http://example.org/text> \"a\\nb (\\\"\\\")\" .\n\
         _:subject1 <http://an.example/predicate1> \"object1\" .",
    )
    .unwrap();
    let lines: Vec<String> = graph.statements().iter().map(|s| s.to_string()).collect();
    assert_eq!(
        lines,
        vec![
            "<http://example.org/show/218> <http://example.org/p> \"That Seventies Show\"^^<http://www.w3.org/2001/XMLSchema#string> .",
            "<http://example.org/#spiderman> <http://example.org/text> \"a\\nb (\\\"\\\")\" .",
            "_:subject1 <http://an.example/predicate1> \"object1\" .",
        ]
    );
}

#[test]
fn language_tagged_literal_is_read() {
    let graph = parse_graph("<http://a/s> <http://a/p> \"hi\"@en .").unwrap();
    assert_eq!(graph.len(), 1);
    let statement = &graph.statements()[0];
    assert_eq!(statement.subject(), &SubjectNode::named(iri("http://a/s")));
    assert_eq!(statement.predicate(), &iri("http://a/p"));
    let literal = statement.object().as_literal().unwrap();
    assert_eq!(literal.lexical_form(), "hi");
    assert_eq!(literal.data_type(), &None);
    assert_eq!(literal.language(), &Some("en".to_string()));
}

#[test]
fn missing_object_is_an_error() {
    let result = parse_graph("<http://a/s> <http://a/p> .");
    assert_eq!(
        format!("{:?}", result.unwrap_err()),
        format!("{:?}", syntax(Rule::Object, 26, "."))
    );
}

#[test]
fn datatype_is_kept_as_the_iri_that_stands_there() {
    let graph =
        parse_graph("<http://a/s> <http://a/p> \"1\"^^<http://www.w3.org/2001/XMLSchema#string> .")
            .unwrap();
    let literal = graph.statements()[0].object().as_literal().unwrap();
    assert_eq!(
        literal.data_type(),
        &Some(DataType::Other(iri("http://www.w3.org/2001/XMLSchema#string")))
    );
    assert_ne!(literal.data_type(), &Some(DataType::String));
    assert_eq!(literal.language(), &None);
}

#[test]
fn language_tag_is_kept_as_it_stands() {
    let graph = parse_graph("<http://a/s> <http://a/p> \"x\"@EN-gb-x1 .").unwrap();
    let literal = graph.statements()[0].object().as_literal().unwrap();
    assert_eq!(literal.language(), &Some("EN-gb-x1".to_string()));
    assert_eq!(literal.to_string(), "\"x\"@en-gb-x1");
}

#[test]
fn lexical_form_stays_escaped() {
    let graph = parse_graph("<http://a/s> <http://a/p> \"a\\\"b\\\\c\\u00e9\" .").unwrap();
    let literal = graph.statements()[0].object().as_literal().unwrap();
    assert_eq!(literal.lexical_form(), "a\\\"b\\\\c\\u00e9");
    assert_eq!(
        graph.statements()[0].object(),
        &ObjectNode::literal(Literal::from_lexical_form("a\\\"b\\\\c\\u00e9"))
    );
}

#[test]
fn same_label_is_the_same_node() {
    let graph = parse_graph(
        "_:a <http://a/p> _:b .\n_:b <http://a/p> _:a .\n_:a.b <http://a/p> _:a.b.\n",
    )
    .unwrap();
    let statements = graph.statements();
    assert_eq!(statements.len(), 3);
    assert_eq!(statements[0].subject(), &SubjectNode::blank_named("a"));
    assert_eq!(statements[0].object(), &ObjectNode::blank_named("b"));
    assert_eq!(statements[1].subject(), &SubjectNode::blank_named("b"));
    assert_eq!(statements[1].object(), &ObjectNode::blank_named("a"));
    assert_eq!(statements[2].subject(), &SubjectNode::blank_named("a.b"));
    assert_eq!(statements[2].object(), &ObjectNode::blank_named("a.b"));
    assert_eq!(graph.subjects().len(), 3);
}

#[test]
fn repeated_statement_is_kept_once() {
    let graph = parse_graph(
        "<http://a/s> <http://a/p> \"x\" .\n<http://a/s> <http://a/p> \"x\" .\n<http://a/s> <http://a/p> \"y\" .",
    )
    .unwrap();
    assert_eq!(graph.len(), 2);
}

#[test]
fn empty_documents_give_empty_graphs() {
    assert!(parse_graph("").unwrap().is_empty());
    assert!(parse_graph("\n\n  \t\r\n# only a comment").unwrap().is_empty());
    assert!(parse_graph("#").unwrap().is_empty());
}

#[test]
fn escapes_in_iris_are_replaced() {
    let graph = parse_graph("<http://a/\\u00e9\\U0001F600> <http://a/p> <http://a/o> .").unwrap();
    assert_eq!(
        graph.statements()[0].subject(),
        &SubjectNode::named(iri("http://a/é\u{1F600}"))
    );
    assert_eq!(
        unescape_iri("a\\u0041\\U00000042c\\u00e9").unwrap(),
        "aABcé"
    );
    assert_eq!(unescape_iri("").unwrap(), "");
    assert_eq!(unescape_iri("\\u12").unwrap(), "\\u12");
    assert_eq!(unescape_iri("é\\u0041é").unwrap(), "éAé");
    assert_eq!(
        format!("{:?}", unescape_iri("ab\\uD800cd").unwrap_err()),
        format!("{:?}", Error::InvalidEscape("\\uD800".to_string()))
    );
    assert_eq!(unescape_uchar("\\u0041"), Some('A'));
    assert_eq!(unescape_uchar("\\U0010FFFF"), Some('\u{10FFFF}'));
    assert_eq!(unescape_uchar("\\U00110000"), None);
    assert_eq!(unescape_uchar("\\uDFFF"), None);
    assert_eq!(unescape_uchar("\\u004"), None);
    assert_eq!(unescape_uchar("\\u00411"), None);
    assert_eq!(unescape_uchar("u0041"), None);
    assert_eq!(unescape_uchar("\\uabCD"), Some('\u{abcd}'));
}

#[test]
fn relative_iri_is_an_error() {
    assert_eq!(
        error_of("<a/s> <http://a/p> <http://a/o> ."),
        format!("{:?}", Error::AbsoluteIriExpected("a/s".to_string()))
    );
    assert_eq!(
        error_of("<http://a/s> <//a/p> <http://a/o> ."),
        format!("{:?}", Error::AbsoluteIriExpected("//a/p".to_string()))
    );
}

#[test]
fn iri_that_cannot_be_read_is_an_error() {
    assert_eq!(
        error_of("<http://1.2.3.4:99999/> <http://a/p> <http://a/o> ."),
        format!("{:?}", Error::InvalidIri("http://1.2.3.4:99999/".to_string()))
    );
    assert_eq!(
        error_of("<http://a/s> <http://a/p> <1http://x> ."),
        format!("{:?}", Error::InvalidIri("1http://x".to_string()))
    );
    assert_eq!(
        error_of("<http://a/\\uD800> <http://a/p> <http://a/o> ."),
        format!("{:?}", Error::InvalidEscape("\\uD800".to_string()))
    );
}

#[test]
fn malformed_input_is_reported_with_rule_and_place() {
    assert_eq!(
        error_of("http://a/s <http://a/p> <http://a/o> ."),
        format!("{:?}", syntax(Rule::Subject, 0, "http://a/s <http://a/p> <http://a/o> ."))
    );
    assert_eq!(
        error_of("<http://a/s> \"p\" <http://a/o> ."),
        format!("{:?}", syntax(Rule::Predicate, 13, "\"p\" <http://a/o> ."))
    );
    assert_eq!(
        error_of("<http://a/s> <http://a/p> <http://a/o>"),
        format!("{:?}", syntax(Rule::Triple, 38, ""))
    );
    assert_eq!(
        error_of("<http://a/s> <http://a/p> <http://a/o> . <http://a/s>"),
        format!("{:?}", syntax(Rule::NtriplesDoc, 41, "<http://a/s>"))
    );
    assert_eq!(
        error_of("\n<http://a/s> <http://a/p> \"never closed .\n"),
        format!("{:?}", syntax(Rule::QuotedString, 27, "\"never closed ."))
    );
    assert_eq!(
        error_of("<http://a/s> <http://a/p> \"bad \\q escape\" ."),
        format!("{:?}", syntax(Rule::QuotedString, 26, "\"bad \\q escape\" ."))
    );
    assert_eq!(
        error_of("<http://a/s> <http://a/p> \"x\"@ ."),
        format!("{:?}", syntax(Rule::LangTag, 29, "@ ."))
    );
    assert_eq!(
        error_of("<http://a/s> <http://a/p> \"x\"^^\"y\" ."),
        format!("{:?}", syntax(Rule::IriRef, 31, "\"y\" ."))
    );
    assert_eq!(
        error_of("<http://a/s> <http://a/p> _:.x ."),
        format!("{:?}", syntax(Rule::BlankNode, 26, "_:.x ."))
    );
    assert_eq!(
        error_of("<http://a/ s> <http://a/p> <http://a/o> ."),
        format!("{:?}", syntax(Rule::IriRef, 0, "<http://a/ s> <http://a/p> <http://a/o> ."))
    );
    assert_eq!(
        error_of("<http://a/s> <http://a/p\\n> <http://a/o> ."),
        format!("{:?}", syntax(Rule::IriRef, 13, "<http://a/p\\n> <http://a/o> ."))
    );
    assert_eq!(
        error_of("<http://a/s>\n<http://a/p> <http://a/o> ."),
        format!("{:?}", syntax(Rule::Predicate, 12, ""))
    );
}

#[test]
fn first_error_ends_the_reading() {
    let result = parse_graph("<http://a/s> <http://a/p> \"ok\" .\n<http://a/s> <http://a/p> .\n");
    assert!(result.is_err());
    assert_eq!(
        result.unwrap_err().message(),
        "the input does not match the grammar at character 59: ."
    );
}

#[test]
fn statements_can_be_compared() {
    let graph = parse_graph("<http://a/s> <http://a/p> <http://a/o> .").unwrap();
    let expected = Statement::new(
        SubjectNode::named(iri("http://a/s")),
        iri("http://a/p"),
        ObjectNode::named(iri("http://a/o")),
    );
    assert!(graph.contains(&expected));
    assert_eq!(graph.statements()[0], expected);
}

#[test]
fn what_is_written_is_read_back() {
    let mut graph = Graph::new();
    graph.insert(Statement::new(
        SubjectNode::named(iri("http://a/s")),
        iri("http://a/p"),
        ObjectNode::named(iri("mailto:a@b.example")),
    ));
    graph.insert(Statement::new(
        SubjectNode::blank_named("b.1-x"),
        iri("http://a/p"),
        ObjectNode::blank_named("0"),
    ));
    graph.insert(Statement::new(
        SubjectNode::blank_named("c"),
        iri("http://a/q#f"),
        ObjectNode::literal(Literal::new("a \"quoted\"\\ text\nover two lines\t.")),
    ));
    graph.insert(Statement::new(
        SubjectNode::blank_named("c"),
        iri("http://a/q#f"),
        ObjectNode::literal(Literal::with_language("été", "fr-be")),
    ));
    graph.insert(Statement::new(
        SubjectNode::blank_named("c"),
        iri("http://a/q#f"),
        ObjectNode::literal(Literal::with_type("7", DataType::Other(iri("http://a/int")))),
    ));
    graph.insert(Statement::new(
        SubjectNode::blank_named("c"),
        iri("http://a/q#f"),
        ObjectNode::literal(Literal::from_lexical_form("\\u00e9\\'")),
    ));
    let text = rdftk::nt::writer::NTripleWriter::default().write(&graph);
    assert_eq!(
        text,
        "<http://a/s> <http://a/p> <mailto:a@b.example> .\n\
         _:b.1-x <http://a/p> _:0 .\n\
         _:c <http://a/q#f> \"a \\\"quoted\\\"\\\\ text\\nover two lines\\t.\" .\n\
         _:c <http://a/q#f> \"été\"@fr-be .\n\
         _:c <http://a/q#f> \"7\"^^<http://a/int> .\n\
         _:c <http://a/q#f> \"\\u00e9\\'\" .\n"
    );
    let back = parse_graph(&text).unwrap();
    assert_eq!(back.statements(), graph.statements());
}

#[test]
fn built_in_datatype_is_read_back_as_its_iri() {
    let mut graph = Graph::new();
    graph.insert(Statement::new(
        SubjectNode::named(iri("http://a/s")),
        iri("http://a/p"),
        ObjectNode::literal(Literal::from(true)),
    ));
    let text = rdftk::nt::writer::NTripleWriter::default().write(&graph);
    let back = parse_graph(&text).unwrap();
    assert_ne!(back.statements(), graph.statements());
    assert_eq!(
        back.statements()[0].object(),
        &ObjectNode::literal(Literal::from_lexical_form_with_type(
            "true",
            DataType::Other(iri("http://www.w3.org/2001/XMLSchema#boolean"))
        ))
    );
    assert_eq!(rdftk::nt::writer::NTripleWriter::default().write(&back), text);
}
