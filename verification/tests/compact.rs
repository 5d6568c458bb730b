use hjson_ser::to_string;
use hjson_ser::to_vec;
use hjson_ser::EncodeError;
use hjson_ser::Value;

fn s(text: &str) -> Value {
    Value::Str(text.as_bytes().to_vec())
}

fn name(text: &str) -> Vec<u8> {
    text.as_bytes().to_vec()
}

fn enc(v: &Value) -> String {
    String::from_utf8(to_vec(v).unwrap()).unwrap()
}

#[test]
fn compact_null() {
    assert_eq!(enc(&Value::Null), "null");
}

#[test]
fn compact_bools() {
    assert_eq!(enc(&Value::Bool(true)), "true");
    assert_eq!(enc(&Value::Bool(false)), "false");
}

#[test]
fn compact_integers() {
    assert_eq!(enc(&Value::Int(0)), "0");
    assert_eq!(enc(&Value::Int(-42)), "-42");
    assert_eq!(enc(&Value::Int(i64::MIN)), "-9223372036854775808");
    assert_eq!(enc(&Value::Uint(u64::MAX)), "18446744073709551615");
}

#[test]
fn compact_finite_float_uses_given_text() {
    assert_eq!(enc(&Value::Float(Some(name("1.5")))), "1.5");
}

#[test]
fn compact_nonfinite_float_is_null() {
    let f = f64::NAN;
    let v = if f.is_finite() {
        Value::Float(Some(name("unreachable")))
    } else {
        Value::Float(None)
    };
    assert_eq!(enc(&v), "null");
    let g = f32::INFINITY;
    let w = if g.is_finite() {
        Value::Float(Some(name("unreachable")))
    } else {
        Value::Float(None)
    };
    assert_eq!(enc(&w), "null");
}

#[test]
fn compact_strings_always_double_quoted() {
    assert_eq!(enc(&s("hello")), "\"hello\"");
    assert_eq!(enc(&s("true")), "\"true\"");
    assert_eq!(enc(&s("")), "\"\"");
}

#[test]
fn compact_string_escapes() {
    assert_eq!(enc(&s("a\"b\\c")), "\"a\\\"b\\\\c\"");
    assert_eq!(enc(&s("tab\tnl\ncr\rbs\x08ff\x0c")), "\"tab\\tnl\\ncr\\rbs\\bff\\f\"");
    assert_eq!(enc(&s("\x01")), "\"\\u0001\"");
}

#[test]
fn compact_multibyte_passthrough() {
    assert_eq!(enc(&s("caf\u{e9}")), "\"caf\u{e9}\"");
}

#[test]
fn compact_forced_code_points_escaped() {
    assert_eq!(enc(&s("a\u{feff}b")), "\"a\\ufeffb\"");
    assert_eq!(enc(&s("x\u{ad}y")), "\"x\\u00ady\"");
    assert_eq!(enc(&s("p\u{2028}q")), "\"p\\u2028q\"");
}

#[test]
fn compact_supplementary_plane_brace_escape() {
    assert_eq!(enc(&s("\u{1f600}")), "\"\\u{01f600}\"");
}

#[test]
fn compact_char_takes_string_path() {
    assert_eq!(enc(&Value::Char('a')), "\"a\"");
    assert_eq!(enc(&Value::Char('\n')), "\"\\n\"");
    assert_eq!(enc(&Value::Char('\u{e9}')), "\"\u{e9}\"");
}

#[test]
fn compact_bytes_as_decimal_sequence() {
    assert_eq!(enc(&Value::Bytes(vec![1, 2, 255])), "[1,2,255]");
    assert_eq!(enc(&Value::Bytes(vec![])), "[]");
}

#[test]
fn compact_arrays() {
    assert_eq!(enc(&Value::Array(vec![])), "[]");
    assert_eq!(enc(&Value::Array(vec![Value::Int(1), s("x"), Value::Null])), "[1,\"x\",null]");
}

#[test]
fn compact_objects() {
    assert_eq!(enc(&Value::Object(vec![])), "{}");
    let v = Value::Object(vec![(s("a"), Value::Int(1)), (s("b"), Value::Bool(true))]);
    assert_eq!(enc(&v), "{\"a\":1,\"b\":true}");
}

#[test]
fn compact_integer_keys_are_quoted() {
    let v = Value::Object(vec![(Value::Uint(5), Value::Bool(true)), (Value::Int(-1), Value::Null)]);
    assert_eq!(enc(&v), "{\"5\":true,\"-1\":null}");
}

#[test]
fn compact_variants() {
    assert_eq!(enc(&Value::UnitVariant(name("Go"))), "\"Go\"");
    assert_eq!(enc(&Value::NewtypeStruct(Box::new(Value::Int(7)))), "7");
    assert_eq!(enc(&Value::NewtypeVariant(name("N"), Box::new(Value::Int(7)))), "{\"N\":7}");
    assert_eq!(
        enc(&Value::TupleVariant(name("T"), vec![Value::Int(1), Value::Int(2)])),
        "{\"T\":[1,2]}"
    );
    assert_eq!(
        enc(&Value::StructVariant(name("S"), vec![(name("a"), Value::Int(1))])),
        "{\"S\":{\"a\":1}}"
    );
    assert_eq!(enc(&Value::TupleVariant(name("T"), vec![])), "{\"T\":[]}");
    assert_eq!(enc(&Value::StructVariant(name("S"), vec![])), "{\"S\":{}}");
}

#[test]
fn compact_nested() {
    let v = Value::Object(vec![(
        s("xs"),
        Value::Array(vec![Value::Object(vec![]), Value::Array(vec![Value::Int(3)])]),
    )]);
    assert_eq!(enc(&v), "{\"xs\":[{},[3]]}");
}

#[test]
fn composite_key_fails() {
    let v = Value::Object(vec![(Value::Array(vec![]), Value::Null)]);
    assert_eq!(to_vec(&v), Err(EncodeError::KeyMustBeAString));
    let w = Value::Object(vec![(Value::Object(vec![]), Value::Null)]);
    assert_eq!(to_vec(&w), Err(EncodeError::KeyMustBeAString));
}

#[test]
fn scalar_nonstring_keys_fail() {
    for bad in [
        Value::Bool(true),
        Value::Float(None),
        Value::Char('a'),
        Value::Bytes(vec![1]),
        Value::Null,
        Value::NewtypeVariant(name("N"), Box::new(s("x"))),
    ] {
        let v = Value::Object(vec![(bad, Value::Null)]);
        assert_eq!(to_vec(&v), Err(EncodeError::KeyMustBeAString));
    }
}

#[test]
fn bad_key_deep_in_tree_fails() {
    let inner = Value::Object(vec![(Value::Bool(false), Value::Null)]);
    let v = Value::Array(vec![Value::Int(1), Value::TupleVariant(name("T"), vec![inner])]);
    assert_eq!(to_vec(&v), Err(EncodeError::KeyMustBeAString));
}

#[test]
fn newtype_struct_key_unwraps() {
    let k = Value::NewtypeStruct(Box::new(Value::Uint(9)));
    let v = Value::Object(vec![(k, Value::Null)]);
    assert_eq!(enc(&v), "{\"9\":null}");
}

#[test]
fn unit_variant_key_uses_string_path() {
    let v = Value::Object(vec![(Value::UnitVariant(name("K")), Value::Int(1))]);
    assert_eq!(enc(&v), "{\"K\":1}");
}

#[test]
fn duplicate_keys_are_both_written() {
    let v = Value::Object(vec![(s("a"), Value::Int(1)), (s("a"), Value::Int(2))]);
    assert_eq!(enc(&v), "{\"a\":1,\"a\":2}");
}

#[test]
fn to_string_matches_to_vec() {
    assert_eq!(to_string(&s("hello")).unwrap(), "\"hello\"");
    assert_eq!(to_string(&Value::Int(5)).unwrap(), "5");
    let v = Value::Object(vec![(Value::Char('x'), Value::Null)]);
    assert_eq!(to_string(&v), Err(EncodeError::KeyMustBeAString));
}
