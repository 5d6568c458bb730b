use hjson_ser::to_string_pretty;
use hjson_ser::to_vec_pretty;
use hjson_ser::EncodeError;
use hjson_ser::Value;

fn s(text: &str) -> Value {
    Value::Str(text.as_bytes().to_vec())
}

fn name(text: &str) -> Vec<u8> {
    text.as_bytes().to_vec()
}

fn enc(v: &Value) -> String {
    String::from_utf8(to_vec_pretty(v).unwrap()).unwrap()
}

#[test]
fn pretty_scalars() {
    assert_eq!(enc(&Value::Null), "null");
    assert_eq!(enc(&Value::Bool(false)), "false");
    assert_eq!(enc(&Value::Int(-3)), "-3");
    assert_eq!(enc(&Value::Uint(12)), "12");
    assert_eq!(enc(&Value::Float(Some(name("2.75")))), "2.75");
}

#[test]
fn pretty_nonfinite_float_is_null() {
    let f = 0.0f64 / 0.0f64;
    let v = if f.is_finite() {
        Value::Float(Some(name("unreachable")))
    } else {
        Value::Float(None)
    };
    assert_eq!(enc(&v), "null");
}

#[test]
fn bare_identifier_string() {
    assert_eq!(enc(&s("hello")), "hello");
}

#[test]
fn bare_string_with_inner_spaces() {
    assert_eq!(enc(&s("true xyz")), "true xyz");
    assert_eq!(enc(&s("a#b")), "a#b");
}

#[test]
fn literal_collisions_are_quoted() {
    assert_eq!(enc(&s("true")), "\"true\"");
    assert_eq!(enc(&s("false")), "\"false\"");
    assert_eq!(enc(&s("null")), "\"null\"");
    assert_eq!(enc(&s("3")), "\"3\"");
    assert_eq!(enc(&s("-0.5e+3")), "\"-0.5e+3\"");
    assert_eq!(enc(&s("5 #c")), "\"5 #c\"");
}

#[test]
fn number_lookalikes_that_are_not_numbers_stay_bare() {
    assert_eq!(enc(&s("00")), "00");
    assert_eq!(enc(&s("0.")), "0.");
    assert_eq!(enc(&s("1e")), "1e");
    assert_eq!(enc(&s("1e5x")), "1e5x");
}

#[test]
fn literal_with_trailing_delimiter_is_quoted() {
    assert_eq!(enc(&s("3,")), "\"3,\"");
    assert_eq!(enc(&s("-0")), "\"-0\"");
    assert_eq!(enc(&s("0.5e10 }")), "\"0.5e10 }\"");
    assert_eq!(enc(&s("true,")), "\"true,\"");
}

#[test]
fn literal_prefix_with_more_text_stays_bare() {
    assert_eq!(enc(&s("truex")), "truex");
    assert_eq!(enc(&s("nullable")), "nullable");
}

#[test]
fn inner_apostrophe_is_bare_safe() {
    assert_eq!(enc(&s("a'b")), "a'b");
}

#[test]
fn trailing_tab_uses_verbatim_block() {
    assert_eq!(enc(&s("tab\t")), "'''tab\t'''");
}

#[test]
fn unsafe_openers_are_quoted() {
    assert_eq!(enc(&s("{x")), "\"{x\"");
    assert_eq!(enc(&s("#c")), "\"#c\"");
    assert_eq!(enc(&s(" lead")), "\" lead\"");
    assert_eq!(enc(&s("trail ")), "\"trail \"");
    assert_eq!(enc(&s("//c")), "\"//c\"");
    assert_eq!(enc(&s("/*c")), "\"/*c\"");
    assert_eq!(enc(&s("/x")), "/x");
}

#[test]
fn whitespace_only_strings_stay_double_quoted() {
    assert_eq!(enc(&s(" ")), "\" \"");
    assert_eq!(enc(&s(" \n ")), "\" \\n \"");
}

#[test]
fn empty_string_is_a_collapsed_verbatim_block() {
    assert_eq!(enc(&s("")), "''''''");
}

#[test]
fn quotes_without_newline_use_verbatim_block() {
    assert_eq!(enc(&s("say \"hi\"")), "'''say \"hi\"'''");
    assert_eq!(enc(&s("a\tb")), "'''a\tb'''");
}

#[test]
fn triple_apostrophes_fall_back_to_double_quotes() {
    assert_eq!(enc(&s("'''")), "\"'''\"");
    assert_eq!(enc(&s("a\nb''' ")), "\"a\\nb''' \"");
    assert_eq!(enc(&s("x\"y\nz'")), "\"x\\\"y\\nz'\"");
}

#[test]
fn multiline_block_top_level() {
    assert_eq!(enc(&s("a\"\nb")), "'''\na\"\nb\n'''");
}

#[test]
fn multiline_block_keeps_empty_lines_unindented() {
    let v = Value::Object(vec![(s("k"), s("a\"\n\nb"))]);
    assert_eq!(enc(&v), "{\n  k:\n    '''\n    a\"\n\n    b\n    '''\n}");
}

#[test]
fn multiline_block_as_object_value_indents_one_deeper() {
    let v = Value::Object(vec![(s("k"), s("l1\"\nl2"))]);
    assert_eq!(enc(&v), "{\n  k:\n    '''\n    l1\"\n    l2\n    '''\n}");
}

#[test]
fn multiline_block_with_trailing_newline() {
    assert_eq!(enc(&s("a\"\n")), "'''\na\"\n\n'''");
}

#[test]
fn forced_code_points_always_escaped_even_if_otherwise_bare() {
    assert_eq!(enc(&s("a\u{feff}b")), "\"a\\ufeffb\"");
    assert_eq!(enc(&s("r\u{200e}l")), "\"r\\u200el\"");
    assert_eq!(enc(&s("zw\u{200d}j")), "\"zw\\u200dj\"");
}

#[test]
fn forced_code_point_blocks_verbatim_styles() {
    assert_eq!(enc(&s("q\"\u{feff}")), "\"q\\\"\\ufeff\"");
    assert_eq!(enc(&s("l1\nl2\u{2066}")), "\"l1\\nl2\\u2066\"");
}

#[test]
fn pretty_empty_containers_collapse() {
    assert_eq!(enc(&Value::Array(vec![])), "[]");
    assert_eq!(enc(&Value::Object(vec![])), "{}");
    let v = Value::Object(vec![(s("k"), Value::Array(vec![]))]);
    assert_eq!(enc(&v), "{\n  k: []\n}");
    let w = Value::Array(vec![Value::Object(vec![]), Value::Array(vec![])]);
    assert_eq!(enc(&w), "[\n  {}\n  []\n]");
    let deep = Value::Object(vec![(s("a"), Value::Object(vec![(s("b"), Value::Object(vec![]))]))]);
    assert_eq!(enc(&deep), "{\n  a:\n  {\n    b: {}\n  }\n}");
}

#[test]
fn pretty_array_elements_one_per_line() {
    let v = Value::Array(vec![Value::Int(1), s("x"), Value::Null]);
    assert_eq!(enc(&v), "[\n  1\n  x\n  null\n]");
}

#[test]
fn pretty_object_scalar_value_gets_one_space() {
    let v = Value::Object(vec![(s("a"), Value::Int(1)), (s("b"), s("hi"))]);
    assert_eq!(enc(&v), "{\n  a: 1\n  b: hi\n}");
}

#[test]
fn pretty_nested_container_value_starts_on_its_own_line() {
    let v = Value::Object(vec![(s("k"), Value::Array(vec![Value::Int(1), Value::Int(2)]))]);
    assert_eq!(enc(&v), "{\n  k:\n  [\n    1\n    2\n  ]\n}");
}

#[test]
fn pretty_bytes_one_per_line() {
    assert_eq!(enc(&Value::Bytes(vec![7, 255])), "[\n  7\n  255\n]");
    assert_eq!(enc(&Value::Bytes(vec![])), "[]");
}

#[test]
fn pretty_member_keys() {
    let v = Value::Object(vec![
        (s("plain"), Value::Int(1)),
        (s("a b"), Value::Int(2)),
        (s("a/b"), Value::Int(3)),
        (s("/x"), Value::Int(4)),
        (Value::Uint(5), Value::Int(5)),
    ]);
    assert_eq!(enc(&v), "{\n  plain: 1\n  \"a b\": 2\n  \"a/b\": 3\n  /x: 4\n  \"5\": 5\n}");
}

#[test]
fn pretty_char_takes_string_path() {
    assert_eq!(enc(&Value::Char('a')), "a");
    assert_eq!(enc(&Value::Char('5')), "\"5\"");
}

#[test]
fn pretty_variants() {
    assert_eq!(enc(&Value::UnitVariant(name("Go"))), "Go");
    assert_eq!(enc(&Value::NewtypeVariant(name("N"), Box::new(Value::Int(7)))), "{\n  N: 7\n}");
    assert_eq!(
        enc(&Value::TupleVariant(name("T"), vec![Value::Int(1)])),
        "{\n  T:\n  [\n    1\n  ]\n}"
    );
    assert_eq!(enc(&Value::TupleVariant(name("T"), vec![])), "{\n  T: []\n}");
    assert_eq!(
        enc(&Value::StructVariant(name("S"), vec![(name("a"), Value::Int(1))])),
        "{\n  S:\n  {\n    a: 1\n  }\n}"
    );
    assert_eq!(enc(&Value::StructVariant(name("S"), vec![])), "{\n  S: {}\n}");
}

#[test]
fn pretty_variant_nested_as_object_value() {
    let v = Value::Object(vec![(s("v"), Value::NewtypeVariant(name("N"), Box::new(s("hi"))))]);
    assert_eq!(enc(&v), "{\n  v:\n  {\n    N: hi\n  }\n}");
}

#[test]
fn pretty_key_error() {
    let v = Value::Object(vec![(Value::Array(vec![]), Value::Null)]);
    assert_eq!(to_vec_pretty(&v), Err(EncodeError::KeyMustBeAString));
    assert_eq!(to_string_pretty(&v), Err(EncodeError::KeyMustBeAString));
}

#[test]
fn pretty_to_string() {
    let v = Value::Object(vec![(s("a"), s("hello"))]);
    assert_eq!(to_string_pretty(&v).unwrap(), "{\n  a: hello\n}");
}
