//! The literal: a lexical form with either a datatype or a language, or
//! neither.

use crate::escape::{escape_string, escaped};
use crate::iri::Iri;
use crate::names::xsd;
use crate::qname::QName;
use crate::text::{decimal, digit_char, digit_of, push_decimal, push_text};
use vstd::prelude::*;
use vstd::std_specs::cmp::PartialEqSpecImpl;
use vstd::std_specs::convert::FromSpecImpl;

verus! {

/// `str::to_lowercase` of the standard library. What it returns depends on
/// the text alone and is named, not stated.
pub assume_specification[ str::to_lowercase ](s: &str) -> (r: std::string::String)
    ensures
        r@ == lowercased(s@),
;

/// The lower-case form of a text, as the standard library computes it.
pub uninterp spec fn lowercased(s: Seq<char>) -> Seq<char>;

/// The whole seconds of a duration.
pub uninterp spec fn duration_seconds(d: std::time::Duration) -> u64;

/// The part of a duration below one second, in nanoseconds.
pub uninterp spec fn duration_nanoseconds(d: std::time::Duration) -> u32;

/// `Duration::as_secs` of the standard library: the whole seconds of the
/// duration, which are named.
pub assume_specification[ std::time::Duration::as_secs ](d: &std::time::Duration) -> (r: u64)
    ensures
        r == duration_seconds(*d),
;

/// `Duration::subsec_nanos` of the standard library: the part of the
/// duration below one second, in nanoseconds, which is named and is less
/// than a billion.
pub assume_specification[ std::time::Duration::subsec_nanos ](d: &std::time::Duration) -> (r:
    u32)
    ensures
        r == duration_nanoseconds(*d),
        r < 1_000_000_000,
;

/// The kind of value that a literal holds.
#[derive(Debug, Hash)]
pub enum DataType {
    /// `xsd:string`.
    String,
    /// `xsd:QName`.
    QName,
    /// `xsd:anyURI`.
    IRI,
    /// `xsd:boolean`.
    Boolean,
    /// `xsd:float`.
    Float,
    /// `xsd:double`.
    Double,
    /// `xsd:long`.
    Long,
    /// `xsd:int`.
    Int,
    /// `xsd:short`.
    Short,
    /// `xsd:byte`.
    Byte,
    /// `xsd:unsignedLong`.
    UnsignedLong,
    /// `xsd:unsignedInt`.
    UnsignedInt,
    /// `xsd:unsignedShort`.
    UnsignedShort,
    /// `xsd:unsignedByte`.
    UnsignedByte,
    /// `xsd:duration`.
    Duration,
    /// The datatype that the IRI names.
    Other(Iri),
}

/// The mathematical content of a [`DataType`].
pub enum DataTypeView {
    String,
    QName,
    IRI,
    Boolean,
    Float,
    Double,
    Long,
    Int,
    Short,
    Byte,
    UnsignedLong,
    UnsignedInt,
    UnsignedShort,
    UnsignedByte,
    Duration,
    Other(Seq<char>),
}

impl DataTypeView {
    /// The IRI of the datatype.
    pub open spec fn iri(self) -> Seq<char> {
        match self {
            DataTypeView::String => xsd::name("string"@),
            DataTypeView::QName => xsd::name("QName"@),
            DataTypeView::IRI => xsd::name("anyURI"@),
            DataTypeView::Boolean => xsd::name("boolean"@),
            DataTypeView::Float => xsd::name("float"@),
            DataTypeView::Double => xsd::name("double"@),
            DataTypeView::Long => xsd::name("long"@),
            DataTypeView::Int => xsd::name("int"@),
            DataTypeView::Short => xsd::name("short"@),
            DataTypeView::Byte => xsd::name("byte"@),
            DataTypeView::UnsignedLong => xsd::name("unsignedLong"@),
            DataTypeView::UnsignedInt => xsd::name("unsignedInt"@),
            DataTypeView::UnsignedShort => xsd::name("unsignedShort"@),
            DataTypeView::UnsignedByte => xsd::name("unsignedByte"@),
            DataTypeView::Duration => xsd::name("duration"@),
            DataTypeView::Other(iri) => iri,
        }
    }
}

impl View for DataType {
    type V = DataTypeView;

    open spec fn view(&self) -> DataTypeView {
        match self {
            DataType::String => DataTypeView::String,
            DataType::QName => DataTypeView::QName,
            DataType::IRI => DataTypeView::IRI,
            DataType::Boolean => DataTypeView::Boolean,
            DataType::Float => DataTypeView::Float,
            DataType::Double => DataTypeView::Double,
            DataType::Long => DataTypeView::Long,
            DataType::Int => DataTypeView::Int,
            DataType::Short => DataTypeView::Short,
            DataType::Byte => DataTypeView::Byte,
            DataType::UnsignedLong => DataTypeView::UnsignedLong,
            DataType::UnsignedInt => DataTypeView::UnsignedInt,
            DataType::UnsignedShort => DataTypeView::UnsignedShort,
            DataType::UnsignedByte => DataTypeView::UnsignedByte,
            DataType::Duration => DataTypeView::Duration,
            DataType::Other(iri) => DataTypeView::Other(iri@),
        }
    }
}

impl DataType {
    /// Whether the IRI of the datatype has a scheme. The IRIs of the
    /// built-in datatypes have one.
    pub open spec fn absolute(&self) -> bool {
        match self {
            DataType::Other(iri) => !iri.relative(),
            _ => true,
        }
    }

    /// The IRI of the datatype: the fixed name of a built-in datatype, and
    /// the IRI that `Other` holds.
    pub fn as_iri(&self) -> (r: Iri)
        ensures
            r.relative() == !self.absolute(),
            r@ == self@.iri(),
    {
        match self {
            DataType::String => xsd::iri_of("string"),
            DataType::QName => xsd::iri_of("QName"),
            DataType::IRI => xsd::iri_of("anyURI"),
            DataType::Boolean => xsd::iri_of("boolean"),
            DataType::Float => xsd::iri_of("float"),
            DataType::Double => xsd::iri_of("double"),
            DataType::Long => xsd::iri_of("long"),
            DataType::Int => xsd::iri_of("int"),
            DataType::Short => xsd::iri_of("short"),
            DataType::Byte => xsd::iri_of("byte"),
            DataType::UnsignedLong => xsd::iri_of("unsignedLong"),
            DataType::UnsignedInt => xsd::iri_of("unsignedInt"),
            DataType::UnsignedShort => xsd::iri_of("unsignedShort"),
            DataType::UnsignedByte => xsd::iri_of("unsignedByte"),
            DataType::Duration => xsd::iri_of("duration"),
            DataType::Other(iri) => iri.clone(),
        }
    }

    /// The IRI of the datatype, as text.
    pub fn to_string(&self) -> (r: String)
        ensures
            r@ == self@.iri(),
    {
        self.as_iri().to_string()
    }
}

impl Clone for DataType {
    fn clone(&self) -> (r: Self)
        ensures
            r.absolute() == self.absolute(),
            r@ == self@,
    {
        match self {
            DataType::String => DataType::String,
            DataType::QName => DataType::QName,
            DataType::IRI => DataType::IRI,
            DataType::Boolean => DataType::Boolean,
            DataType::Float => DataType::Float,
            DataType::Double => DataType::Double,
            DataType::Long => DataType::Long,
            DataType::Int => DataType::Int,
            DataType::Short => DataType::Short,
            DataType::Byte => DataType::Byte,
            DataType::UnsignedLong => DataType::UnsignedLong,
            DataType::UnsignedInt => DataType::UnsignedInt,
            DataType::UnsignedShort => DataType::UnsignedShort,
            DataType::UnsignedByte => DataType::UnsignedByte,
            DataType::Duration => DataType::Duration,
            DataType::Other(iri) => DataType::Other(iri.clone()),
        }
    }
}

impl PartialEq for DataType {
    fn eq(&self, other: &Self) -> (r: bool) {
        match (self, other) {
            (DataType::String, DataType::String) => true,
            (DataType::QName, DataType::QName) => true,
            (DataType::IRI, DataType::IRI) => true,
            (DataType::Boolean, DataType::Boolean) => true,
            (DataType::Float, DataType::Float) => true,
            (DataType::Double, DataType::Double) => true,
            (DataType::Long, DataType::Long) => true,
            (DataType::Int, DataType::Int) => true,
            (DataType::Short, DataType::Short) => true,
            (DataType::Byte, DataType::Byte) => true,
            (DataType::UnsignedLong, DataType::UnsignedLong) => true,
            (DataType::UnsignedInt, DataType::UnsignedInt) => true,
            (DataType::UnsignedShort, DataType::UnsignedShort) => true,
            (DataType::UnsignedByte, DataType::UnsignedByte) => true,
            (DataType::Duration, DataType::Duration) => true,
            (DataType::Other(a), DataType::Other(b)) => a == b,
            _ => false,
        }
    }
}

impl Eq for DataType {

}

impl PartialEqSpecImpl for DataType {
    open spec fn obeys_eq_spec() -> bool {
        true
    }

    open spec fn eq_spec(&self, other: &Self) -> bool {
        self@ == other@
    }
}

impl From<Iri> for DataType {
    fn from(v: Iri) -> (r: DataType)
        ensures
            r.absolute() == !v.relative(),
            r@ == DataTypeView::Other(v@),
    {
        DataType::Other(v)
    }
}

impl FromSpecImpl<Iri> for DataType {
    open spec fn obeys_from_spec() -> bool {
        true
    }

    open spec fn from_spec(v: Iri) -> DataType {
        DataType::Other(v)
    }
}

/// A literal.
#[derive(Debug, Hash)]
pub struct Literal {
    lexical_form: String,
    data_type: Option<DataType>,
    language: Option<String>,
}

/// The mathematical content of a [`Literal`].
pub struct LiteralView {
    pub lexical_form: Seq<char>,
    pub data_type: Option<DataTypeView>,
    pub language: Option<Seq<char>>,
}

impl LiteralView {
    /// A literal has a datatype or a language, never both.
    pub open spec fn wf(self) -> bool {
        !(self.data_type is Some && self.language is Some)
    }

    /// The literal with the lexical form `lexical_form` and nothing else.
    pub open spec fn plain(lexical_form: Seq<char>) -> LiteralView {
        LiteralView { lexical_form, data_type: None, language: None }
    }

    /// The literal with the lexical form `lexical_form` and the datatype
    /// `data_type`.
    pub open spec fn typed(lexical_form: Seq<char>, data_type: DataTypeView) -> LiteralView {
        LiteralView { lexical_form, data_type: Some(data_type), language: None }
    }

    /// The literal with the lexical form `lexical_form` in the language
    /// `language`.
    pub open spec fn tagged(lexical_form: Seq<char>, language: Seq<char>) -> LiteralView {
        LiteralView { lexical_form, data_type: None, language: Some(language) }
    }

    /// What follows the closing quote when the literal is written: `^^` and
    /// the datatype's IRI in angle brackets, `@` and the language in lower
    /// case, or nothing.
    pub open spec fn suffix(self) -> Seq<char> {
        match (self.data_type, self.language) {
            (Some(data_type), None) => "^^<"@ + data_type.iri() + ">"@,
            (None, Some(language)) => "@"@ + lowercased(language),
            _ => Seq::empty(),
        }
    }

    /// The literal as it is written: the lexical form between quotes, then
    /// the suffix.
    pub open spec fn text(self) -> Seq<char> {
        "\""@ + self.lexical_form + "\""@ + self.suffix()
    }
}

impl View for Literal {
    type V = LiteralView;

    closed spec fn view(&self) -> LiteralView {
        LiteralView {
            lexical_form: self.lexical_form@,
            data_type: match self.data_type {
                Some(data_type) => Some(data_type@),
                None => None,
            },
            language: match self.language {
                Some(language) => Some(language@),
                None => None,
            },
        }
    }
}

/// The numeral of an integer: a minus sign before the numeral of its
/// magnitude where it is negative.
pub open spec fn signed_decimal(i: int) -> Seq<char> {
    if i < 0 {
        "-"@ + decimal((-i) as nat)
    } else {
        decimal(i as nat)
    }
}

/// The last nine digits of the numeral of `n`, with zeros in front where `n`
/// has fewer.
pub open spec fn nine_digits(n: nat) -> Seq<char> {
    seq![
        digit_char(n / 100_000_000 % 10),
        digit_char(n / 10_000_000 % 10),
        digit_char(n / 1_000_000 % 10),
        digit_char(n / 100_000 % 10),
        digit_char(n / 10_000 % 10),
        digit_char(n / 1_000 % 10),
        digit_char(n / 100 % 10),
        digit_char(n / 10 % 10),
        digit_char(n % 10),
    ]
}

/// The lexical form of a duration of `seconds` whole seconds and
/// `nanoseconds` more: `T`, the seconds, a point, the nanoseconds in nine
/// digits, `S`.
pub open spec fn duration_text(seconds: nat, nanoseconds: nat) -> Seq<char> {
    "T"@ + decimal(seconds) + "."@ + nine_digits(nanoseconds) + "S"@
}

/// `true` or `false`.
pub open spec fn boolean_text(value: bool) -> Seq<char> {
    if value {
        "true"@
    } else {
        "false"@
    }
}

/// The numeral of an integer as a string.
fn integer_string(negative: bool, magnitude: u64) -> (r: String)
    ensures
        r@ == if negative {
            "-"@ + decimal(magnitude as nat)
        } else {
            decimal(magnitude as nat)
        },
{
    let mut out = String::new();
    if negative {
        push_text(&mut out, "-");
    }
    push_decimal(&mut out, magnitude);
    out
}

/// The numeral of a signed integer as a string.
fn signed_string(value: i64) -> (r: String)
    ensures
        r@ == signed_decimal(value as int),
{
    if value < 0 {
        let magnitude: u64 = ((-(value + 1)) as u64) + 1;
        integer_string(true, magnitude)
    } else {
        integer_string(false, value as u64)
    }
}

impl Literal {
    /// Whether the IRI of the datatype, where the literal has one, has a
    /// scheme.
    pub closed spec fn absolute(&self) -> bool {
        match self.data_type {
            Some(data_type) => data_type.absolute(),
            None => true,
        }
    }

    #[verifier::type_invariant]
    spec fn inv(self) -> bool {
        !(self.data_type is Some && self.language is Some)
    }

    /// A literal without datatype or language. The text is escaped here.
    pub fn new(value: &str) -> (r: Literal)
        ensures
            r.absolute(),
            r@ == LiteralView::plain(escaped(value@)),
    {
        Literal { lexical_form: escape_string(value), data_type: None, language: None }
    }

    /// A literal with a datatype. The text is escaped here.
    pub fn with_type(value: &str, data_type: DataType) -> (r: Literal)
        ensures
            r.absolute() == data_type.absolute(),
            r@ == LiteralView::typed(escaped(value@), data_type@),
    {
        Literal { lexical_form: escape_string(value), data_type: Some(data_type), language: None }
    }

    /// A literal with a language. The text is escaped here.
    pub fn with_language(value: &str, language: &str) -> (r: Literal)
        ensures
            r.absolute(),
            r@ == LiteralView::tagged(escaped(value@), language@),
    {
        Literal {
            lexical_form: escape_string(value),
            data_type: None,
            language: Some(language.to_owned()),
        }
    }

    /// A literal whose lexical form is given as it stands, already escaped.
    pub fn from_lexical_form(lexical_form: &str) -> (r: Literal)
        ensures
            r.absolute(),
            r@ == LiteralView::plain(lexical_form@),
    {
        Literal { lexical_form: lexical_form.to_owned(), data_type: None, language: None }
    }

    /// A literal with a datatype whose lexical form is given as it stands.
    pub fn from_lexical_form_with_type(lexical_form: &str, data_type: DataType) -> (r: Literal)
        ensures
            r.absolute() == data_type.absolute(),
            r@ == LiteralView::typed(lexical_form@, data_type@),
    {
        Literal {
            lexical_form: lexical_form.to_owned(),
            data_type: Some(data_type),
            language: None,
        }
    }

    /// A literal with a language whose lexical form is given as it stands.
    pub fn from_lexical_form_with_language(lexical_form: &str, language: &str) -> (r: Literal)
        ensures
            r.absolute(),
            r@ == LiteralView::tagged(lexical_form@, language@),
    {
        Literal {
            lexical_form: lexical_form.to_owned(),
            data_type: None,
            language: Some(language.to_owned()),
        }
    }

    /// The literal of a duration of `seconds` whole seconds and
    /// `nanoseconds` more.
    pub fn from_duration(seconds: u64, nanoseconds: u32) -> (r: Literal)
        ensures
            r.absolute(),
            r@ == LiteralView::typed(
                duration_text(seconds as nat, nanoseconds as nat),
                DataTypeView::Duration,
            ),
    {
        let mut out = String::new();
        push_text(&mut out, "T");
        push_decimal(&mut out, seconds);
        push_text(&mut out, ".");
        let ghost before = out@;
        out.push(digit_of((nanoseconds / 100_000_000 % 10) as u8));
        out.push(digit_of((nanoseconds / 10_000_000 % 10) as u8));
        out.push(digit_of((nanoseconds / 1_000_000 % 10) as u8));
        out.push(digit_of((nanoseconds / 100_000 % 10) as u8));
        out.push(digit_of((nanoseconds / 10_000 % 10) as u8));
        out.push(digit_of((nanoseconds / 1_000 % 10) as u8));
        out.push(digit_of((nanoseconds / 100 % 10) as u8));
        out.push(digit_of((nanoseconds / 10 % 10) as u8));
        out.push(digit_of((nanoseconds % 10) as u8));
        assert(out@ == before + nine_digits(nanoseconds as nat));
        push_text(&mut out, "S");
        Literal { lexical_form: out, data_type: Some(DataType::Duration), language: None }
    }

    /// The lexical form, escaped.
    pub fn lexical_form(&self) -> (r: &String)
        ensures
            r@ == self@.lexical_form,
            self@.wf(),
    {
        proof {
            use_type_invariant(self);
        }
        &self.lexical_form
    }

    /// Whether the literal has a datatype.
    pub fn has_data_type(&self) -> (r: bool)
        ensures
            r == self@.data_type is Some,
            self@.wf(),
    {
        proof {
            use_type_invariant(self);
        }
        self.data_type.is_some()
    }

    /// The datatype, if the literal has one.
    pub fn data_type(&self) -> (r: &Option<DataType>)
        ensures
            self.absolute() == (r matches Some(data_type) ==> data_type.absolute()),
            match r {
                Some(data_type) => self@.data_type == Some(data_type@),
                None => self@.data_type is None,
            },
            self@.wf(),
    {
        proof {
            use_type_invariant(self);
        }
        &self.data_type
    }

    /// Whether the literal has a language.
    pub fn has_language(&self) -> (r: bool)
        ensures
            r == self@.language is Some,
            self@.wf(),
    {
        proof {
            use_type_invariant(self);
        }
        self.language.is_some()
    }

    /// The language, if the literal has one.
    pub fn language(&self) -> (r: &Option<String>)
        ensures
            match r {
                Some(language) => self@.language == Some(language@),
                None => self@.language is None,
            },
            self@.wf(),
    {
        proof {
            use_type_invariant(self);
        }
        &self.language
    }

    /// The literal as it is written in the line-oriented formats.
    pub fn to_string(&self) -> (r: String)
        ensures
            r@ == self@.text(),
    {
        proof {
            use_type_invariant(self);
        }
        let mut out = String::new();
        push_text(&mut out, "\"");
        push_text(&mut out, self.lexical_form.as_str());
        push_text(&mut out, "\"");
        let ghost quoted = out@;
        match (&self.data_type, &self.language) {
            (Some(data_type), None) => {
                push_text(&mut out, "^^<");
                let iri = data_type.as_iri();
                push_text(&mut out, iri.as_str());
                push_text(&mut out, ">");
                assert(out@ == quoted + ("^^<"@ + data_type@.iri() + ">"@));
            },
            (None, Some(language)) => {
                push_text(&mut out, "@");
                let lower = language.as_str().to_lowercase();
                push_text(&mut out, lower.as_str());
                assert(out@ == quoted + ("@"@ + lowercased(language@)));
            },
            _ => {
                assert(out@ == quoted + Seq::<char>::empty());
            },
        }
        out
    }
}

impl Clone for Literal {
    fn clone(&self) -> (r: Self)
        ensures
            r.absolute() == self.absolute(),
            r@ == self@,
    {
        proof {
            use_type_invariant(self);
        }
        Literal {
            lexical_form: self.lexical_form.clone(),
            data_type: match &self.data_type {
                Some(data_type) => Some(data_type.clone()),
                None => None,
            },
            language: match &self.language {
                Some(language) => Some(language.clone()),
                None => None,
            },
        }
    }
}

impl PartialEq for Literal {
    fn eq(&self, other: &Self) -> (r: bool) {
        let same_type = match (&self.data_type, &other.data_type) {
            (Some(a), Some(b)) => a == b,
            (None, None) => true,
            _ => false,
        };
        let same_language = match (&self.language, &other.language) {
            (Some(a), Some(b)) => *a == *b,
            (None, None) => true,
            _ => false,
        };
        let same_form = self.lexical_form == other.lexical_form;
        proof {
            assert(same_form == (self@.lexical_form == other@.lexical_form));
            assert(same_type == (self@.data_type == other@.data_type));
            assert(same_language == (self@.language == other@.language));
        }
        same_form && same_type && same_language
    }
}

impl Eq for Literal {

}

impl PartialEqSpecImpl for Literal {
    open spec fn obeys_eq_spec() -> bool {
        true
    }

    open spec fn eq_spec(&self, other: &Self) -> bool {
        self@ == other@
    }
}

/// A text as it stands in a literal of a boolean.
fn boolean_string(value: bool) -> (r: String)
    ensures
        r@ == boolean_text(value),
{
    if value {
        "true".to_owned()
    } else {
        "false".to_owned()
    }
}

impl From<String> for Literal {
    fn from(value: String) -> (r: Literal)
        ensures
            r.absolute(),
            r@ == LiteralView::typed(escaped(value@), DataTypeView::String),
    {
        Literal { lexical_form: escape_string(value.as_str()), data_type: Some(DataType::String), language: None }
    }
}

impl FromSpecImpl<String> for Literal {
    open spec fn obeys_from_spec() -> bool {
        false
    }

    open spec fn from_spec(value: String) -> Literal {
        arbitrary()
    }
}

impl From<&str> for Literal {
    fn from(value: &str) -> (r: Literal)
        ensures
            r.absolute(),
            r@ == LiteralView::typed(escaped(value@), DataTypeView::String),
    {
        Literal { lexical_form: escape_string(value), data_type: Some(DataType::String), language: None }
    }
}

impl FromSpecImpl<&str> for Literal {
    open spec fn obeys_from_spec() -> bool {
        false
    }

    open spec fn from_spec(value: &str) -> Literal {
        arbitrary()
    }
}

impl From<Iri> for Literal {
    fn from(value: Iri) -> (r: Literal)
        ensures
            r.absolute(),
            r@ == LiteralView::typed(value@, DataTypeView::IRI),
    {
        Literal { lexical_form: value.to_string(), data_type: Some(DataType::IRI), language: None }
    }
}

impl FromSpecImpl<Iri> for Literal {
    open spec fn obeys_from_spec() -> bool {
        false
    }

    open spec fn from_spec(value: Iri) -> Literal {
        arbitrary()
    }
}

impl From<QName> for Literal {
    fn from(value: QName) -> (r: Literal)
        ensures
            r.absolute(),
            r@ == LiteralView::typed(value@.text(), DataTypeView::QName),
    {
        Literal { lexical_form: value.to_string(), data_type: Some(DataType::QName), language: None }
    }
}

impl FromSpecImpl<QName> for Literal {
    open spec fn obeys_from_spec() -> bool {
        false
    }

    open spec fn from_spec(value: QName) -> Literal {
        arbitrary()
    }
}

impl From<bool> for Literal {
    fn from(value: bool) -> (r: Literal)
        ensures
            r.absolute(),
            r@ == LiteralView::typed(boolean_text(value), DataTypeView::Boolean),
    {
        Literal { lexical_form: boolean_string(value), data_type: Some(DataType::Boolean), language: None }
    }
}

impl FromSpecImpl<bool> for Literal {
    open spec fn obeys_from_spec() -> bool {
        false
    }

    open spec fn from_spec(value: bool) -> Literal {
        arbitrary()
    }
}

impl From<i64> for Literal {
    fn from(value: i64) -> (r: Literal)
        ensures
            r.absolute(),
            r@ == LiteralView::typed(signed_decimal(value as int), DataTypeView::Long),
    {
        Literal { lexical_form: signed_string(value), data_type: Some(DataType::Long), language: None }
    }
}

impl FromSpecImpl<i64> for Literal {
    open spec fn obeys_from_spec() -> bool {
        false
    }

    open spec fn from_spec(value: i64) -> Literal {
        arbitrary()
    }
}

impl From<i32> for Literal {
    fn from(value: i32) -> (r: Literal)
        ensures
            r.absolute(),
            r@ == LiteralView::typed(signed_decimal(value as int), DataTypeView::Int),
    {
        Literal { lexical_form: signed_string(value as i64), data_type: Some(DataType::Int), language: None }
    }
}

impl FromSpecImpl<i32> for Literal {
    open spec fn obeys_from_spec() -> bool {
        false
    }

    open spec fn from_spec(value: i32) -> Literal {
        arbitrary()
    }
}

impl From<i16> for Literal {
    fn from(value: i16) -> (r: Literal)
        ensures
            r.absolute(),
            r@ == LiteralView::typed(signed_decimal(value as int), DataTypeView::Short),
    {
        Literal { lexical_form: signed_string(value as i64), data_type: Some(DataType::Short), language: None }
    }
}

impl FromSpecImpl<i16> for Literal {
    open spec fn obeys_from_spec() -> bool {
        false
    }

    open spec fn from_spec(value: i16) -> Literal {
        arbitrary()
    }
}

impl From<i8> for Literal {
    fn from(value: i8) -> (r: Literal)
        ensures
            r.absolute(),
            r@ == LiteralView::typed(signed_decimal(value as int), DataTypeView::Byte),
    {
        Literal { lexical_form: signed_string(value as i64), data_type: Some(DataType::Byte), language: None }
    }
}

impl FromSpecImpl<i8> for Literal {
    open spec fn obeys_from_spec() -> bool {
        false
    }

    open spec fn from_spec(value: i8) -> Literal {
        arbitrary()
    }
}

impl From<u64> for Literal {
    fn from(value: u64) -> (r: Literal)
        ensures
            r.absolute(),
            r@ == LiteralView::typed(decimal(value as nat), DataTypeView::UnsignedLong),
    {
        Literal { lexical_form: integer_string(false, value), data_type: Some(DataType::UnsignedLong), language: None }
    }
}

impl FromSpecImpl<u64> for Literal {
    open spec fn obeys_from_spec() -> bool {
        false
    }

    open spec fn from_spec(value: u64) -> Literal {
        arbitrary()
    }
}

impl From<u32> for Literal {
    fn from(value: u32) -> (r: Literal)
        ensures
            r.absolute(),
            r@ == LiteralView::typed(decimal(value as nat), DataTypeView::UnsignedInt),
    {
        Literal { lexical_form: integer_string(false, value as u64), data_type: Some(DataType::UnsignedInt), language: None }
    }
}

impl FromSpecImpl<u32> for Literal {
    open spec fn obeys_from_spec() -> bool {
        false
    }

    open spec fn from_spec(value: u32) -> Literal {
        arbitrary()
    }
}

impl From<u16> for Literal {
    fn from(value: u16) -> (r: Literal)
        ensures
            r.absolute(),
            r@ == LiteralView::typed(decimal(value as nat), DataTypeView::UnsignedShort),
    {
        Literal { lexical_form: integer_string(false, value as u64), data_type: Some(DataType::UnsignedShort), language: None }
    }
}

impl FromSpecImpl<u16> for Literal {
    open spec fn obeys_from_spec() -> bool {
        false
    }

    open spec fn from_spec(value: u16) -> Literal {
        arbitrary()
    }
}

impl From<u8> for Literal {
    fn from(value: u8) -> (r: Literal)
        ensures
            r.absolute(),
            r@ == LiteralView::typed(decimal(value as nat), DataTypeView::UnsignedByte),
    {
        Literal { lexical_form: integer_string(false, value as u64), data_type: Some(DataType::UnsignedByte), language: None }
    }
}

impl FromSpecImpl<u8> for Literal {
    open spec fn obeys_from_spec() -> bool {
        false
    }

    open spec fn from_spec(value: u8) -> Literal {
        arbitrary()
    }
}

impl From<std::time::Duration> for Literal {
    /// The literal of a duration: `from_duration` of its whole seconds and
    /// of its nanoseconds.
    fn from(value: std::time::Duration) -> (r: Literal)
        ensures
            r.absolute(),
            r@ == LiteralView::typed(
                duration_text(
                    duration_seconds(value) as nat,
                    duration_nanoseconds(value) as nat,
                ),
                DataTypeView::Duration,
            ),
            duration_nanoseconds(value) < 1_000_000_000,
    {
        Literal::from_duration(value.as_secs(), value.subsec_nanos())
    }
}

impl FromSpecImpl<std::time::Duration> for Literal {
    open spec fn obeys_from_spec() -> bool {
        false
    }

    open spec fn from_spec(value: std::time::Duration) -> Literal {
        arbitrary()
    }
}

impl From<DataType> for Iri {
    /// The IRI of the datatype.
    fn from(v: DataType) -> (r: Iri)
        ensures
            r@ == v@.iri(),
            r.relative() == !v.absolute(),
    {
        v.as_iri()
    }
}

impl FromSpecImpl<DataType> for Iri {
    open spec fn obeys_from_spec() -> bool {
        false
    }

    open spec fn from_spec(v: DataType) -> Iri {
        arbitrary()
    }
}

} // verus!
