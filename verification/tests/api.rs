use hjson_ser::CompactFormatter;
use hjson_ser::Formatter;
use hjson_ser::PrettyFormatter;
use hjson_ser::Serializer;
use hjson_ser::EncodeError;
use hjson_ser::Value;
use hjson_ser::key_must_be_a_string;

fn s(text: &str) -> Value {
    Value::Str(text.as_bytes().to_vec())
}

#[test]
fn serializer_new_is_compact() {
    let mut ser = Serializer::new(Vec::new());
    ser.serialize(&s("hello")).unwrap();
    assert_eq!(ser.into_inner(), b"\"hello\"".to_vec());
}

#[test]
fn serializer_pretty_default_indent() {
    let mut ser = Serializer::pretty(Vec::new());
    let v = Value::Object(vec![(s("a"), Value::Int(1))]);
    ser.serialize(&v).unwrap();
    assert_eq!(String::from_utf8(ser.into_inner()).unwrap(), "{\n  a: 1\n}");
}

#[test]
fn serializer_appends_to_existing_buffer() {
    let mut ser = Serializer::new(b"pre:".to_vec());
    ser.serialize(&Value::Int(1)).unwrap();
    ser.serialize(&Value::Bool(true)).unwrap();
    assert_eq!(ser.into_inner(), b"pre:1true".to_vec());
}

#[test]
fn with_formatter_compact() {
    let mut ser = Serializer::with_formatter(Vec::new(), Formatter::Compact(CompactFormatter));
    ser.serialize(&Value::Array(vec![Value::Int(1)])).unwrap();
    assert_eq!(ser.into_inner(), b"[1]".to_vec());
}

#[test]
fn with_formatter_custom_indent() {
    let pf = PrettyFormatter::with_indent(vec![0x09]);
    let mut ser = Serializer::with_formatter(Vec::new(), Formatter::Pretty(pf));
    let v = Value::Object(vec![(s("a"), Value::Int(1))]);
    ser.serialize(&v).unwrap();
    assert_eq!(String::from_utf8(ser.into_inner()).unwrap(), "{\n\ta: 1\n}");
}

#[test]
fn pretty_formatter_new_is_two_spaces() {
    let pf = PrettyFormatter::new();
    assert_eq!(pf.indent, vec![0x20, 0x20]);
}

#[test]
fn serialize_error_reports_key() {
    let mut ser = Serializer::new(Vec::new());
    let v = Value::Object(vec![(Value::Bool(true), Value::Null)]);
    assert_eq!(ser.serialize(&v), Err(EncodeError::KeyMustBeAString));
}

#[test]
fn key_error_constructor() {
    assert_eq!(key_must_be_a_string(), EncodeError::KeyMustBeAString);
}
