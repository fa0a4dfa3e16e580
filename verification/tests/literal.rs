use rdftk::escape::{escape_string, unescape_string};
use rdftk::iri::Iri;
use rdftk::literal::{DataType, Literal};

#[test]
fn test_untyped() {
    let value = Literal::new("a string");
    assert!(!value.has_data_type());
    assert!(!value.has_language());
    assert_eq!(value.lexical_form(), "a string");
    assert_eq!(value.to_string(), "\"a string\"");
}

#[test]
fn test_needs_escape() {
    let value = Literal::new(r#"\ta "string"#);
    assert!(!value.has_data_type());
    assert!(!value.has_language());
    assert_eq!(value.lexical_form(), "\\\\ta \\\"string");
    assert_eq!(value.to_string(), "\"\\\\ta \\\"string\"");
}

#[test]
fn test_language_string() {
    let value = Literal::with_language("a string", "en_us");
    assert!(!value.has_data_type());
    assert!(value.has_language());
    assert_eq!(value.lexical_form(), "a string");
    assert_eq!(value.to_string(), "\"a string\"@en_us");
}

#[test]
fn test_typed_as_string() {
    let value: Literal = "a string".to_string().into();
    assert!(value.has_data_type());
    assert!(!value.has_language());
    assert_eq!(value.lexical_form(), "a string");
    assert_eq!(
        value.to_string(),
        "\"a string\"^^<http://www.w3.org/2001/XMLSchema#string>"
    );
}

#[test]
fn test_typed_as_boolean() {
    let value: Literal = true.into();
    assert!(value.has_data_type());
    assert!(!value.has_language());
    assert_eq!(value.lexical_form(), "true");
    assert_eq!(
        value.to_string(),
        "\"true\"^^<http://www.w3.org/2001/XMLSchema#boolean>"
    );
}

#[test]
fn test_typed_as_long() {
    let value: Literal = 1u64.into();
    assert!(value.has_data_type());
    assert!(!value.has_language());
    assert_eq!(value.lexical_form(), "1");
    assert_eq!(
        value.to_string(),
        "\"1\"^^<http://www.w3.org/2001/XMLSchema#unsignedLong>"
    );
}

#[test]
fn duration_has_nine_digits_of_nanoseconds() {
    let value = Literal::from_duration(2, 5_000_123);
    assert!(value.has_data_type());
    assert!(!value.has_language());
    assert_eq!(value.lexical_form(), "T2.005000123S");
    assert_eq!(
        value.to_string(),
        "\"T2.005000123S\"^^<http://www.w3.org/2001/XMLSchema#duration>"
    );
    assert_eq!(Literal::from_duration(0, 0).lexical_form(), "T0.000000000S");
    assert_eq!(
        Literal::from_duration(18446744073709551615, 999_999_999).lexical_form(),
        "T18446744073709551615.999999999S"
    );
}

#[test]
fn duration_is_written_in_seconds_and_nanoseconds() {
    let value: Literal = std::time::Duration::new(2, 70).into();
    assert!(value.has_data_type());
    assert!(!value.has_language());
    let value_str = value.to_string();
    assert!(value_str.starts_with("\"T2."));
    assert!(value_str.ends_with("S\"^^<http://www.w3.org/2001/XMLSchema#duration>"));
    assert_eq!(value.lexical_form(), "T2.000000070S");
    assert_eq!(
        Literal::from(std::time::Duration::from_millis(1500)).lexical_form(),
        "T1.500000000S"
    );
}

#[test]
fn typed_conversions_set_the_datatype_and_no_language() {
    let values: Vec<(Literal, DataType, &str)> = vec![
        (Literal::from(-9223372036854775808i64), DataType::Long, "-9223372036854775808"),
        (Literal::from(9223372036854775807i64), DataType::Long, "9223372036854775807"),
        (Literal::from(-17i32), DataType::Int, "-17"),
        (Literal::from(-32768i16), DataType::Short, "-32768"),
        (Literal::from(-128i8), DataType::Byte, "-128"),
        (Literal::from(0u64), DataType::UnsignedLong, "0"),
        (Literal::from(4294967295u32), DataType::UnsignedInt, "4294967295"),
        (Literal::from(65535u16), DataType::UnsignedShort, "65535"),
        (Literal::from(255u8), DataType::UnsignedByte, "255"),
        (Literal::from(false), DataType::Boolean, "false"),
        (Literal::from("x\"y"), DataType::String, "x\\\"y"),
    ];
    for (literal, data_type, lexical) in values {
        assert_eq!(literal.data_type(), &Some(data_type));
        assert_eq!(literal.language(), &None);
        assert_eq!(literal.lexical_form(), lexical);
    }
}

#[test]
fn language_construction_sets_no_datatype() {
    let value = Literal::with_language("chat", "FR");
    assert_eq!(value.data_type(), &None);
    assert_eq!(value.language(), &Some("FR".to_string()));
    assert_eq!(value.to_string(), "\"chat\"@fr");
}

#[test]
fn literal_of_an_iri_keeps_its_text() {
    let iri = Iri::parse("http://example.org/a").unwrap();
    let value: Literal = iri.into();
    assert_eq!(value.data_type(), &Some(DataType::IRI));
    assert_eq!(
        value.to_string(),
        "\"http://example.org/a\"^^<http://www.w3.org/2001/XMLSchema#anyURI>"
    );
}

#[test]
fn other_datatype_is_written_with_its_iri() {
    let iri = Iri::parse("http://example.org/kind").unwrap();
    let data_type = DataType::from(iri);
    assert_eq!(data_type.as_iri().to_string(), "http://example.org/kind");
    let value = Literal::with_type("7", data_type);
    assert_eq!(value.to_string(), "\"7\"^^<http://example.org/kind>");
}

#[test]
fn built_in_datatypes_have_fixed_iris() {
    let names = vec![
        (DataType::String, "string"),
        (DataType::QName, "QName"),
        (DataType::IRI, "anyURI"),
        (DataType::Boolean, "boolean"),
        (DataType::Float, "float"),
        (DataType::Double, "double"),
        (DataType::Long, "long"),
        (DataType::Int, "int"),
        (DataType::Short, "short"),
        (DataType::Byte, "byte"),
        (DataType::UnsignedLong, "unsignedLong"),
        (DataType::UnsignedInt, "unsignedInt"),
        (DataType::UnsignedShort, "unsignedShort"),
        (DataType::UnsignedByte, "unsignedByte"),
        (DataType::Duration, "duration"),
    ];
    for (data_type, name) in names {
        assert_eq!(
            data_type.to_string(),
            format!("http://www.w3.org/2001/XMLSchema#{}", name)
        );
    }
}

#[test]
fn escaping_round_trips() {
    for text in ["", "plain", "a \"quoted\" word", "back\\slash", "line\nbreak\r\ttab", "\\\"\\\\", "é \u{1F600} \u{1}"] {
        let escaped = escape_string(text);
        assert!(!escaped.contains('\n'));
        assert_eq!(unescape_string(&escaped), Some(text.to_string()));
    }
    assert_eq!(escape_string("a\"b\\c\nd\re\tf"), "a\\\"b\\\\c\\nd\\re\\tf");
}

#[test]
fn unescaping_reads_every_escape_of_the_format() {
    assert_eq!(
        unescape_string("\\t\\b\\n\\r\\f\\\"\\'\\\\"),
        Some("\t\u{8}\n\r\u{c}\"'\\".to_string())
    );
    assert_eq!(unescape_string("\\u00e9\\U0001F600"), Some("é\u{1F600}".to_string()));
    assert_eq!(unescape_string("\\x"), None);
    assert_eq!(unescape_string("tail\\"), None);
    assert_eq!(unescape_string("\\u12"), None);
    assert_eq!(unescape_string("\\uD800"), None);
    assert_eq!(unescape_string("\\U00110000"), None);
}
