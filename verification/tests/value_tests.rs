//! Tests of the literal value parser.

use godot_parser::errors::ParseErrorKind;
use godot_parser::value_parser::parse_godot_value;
use godot_parser::values::{DictEntry, FloatLit, GodotValue};

fn lit(text: &str) -> FloatLit {
    FloatLit { text: text.to_string() }
}

fn parse_all(input: &str) -> GodotValue {
    let (value, end) = parse_godot_value(input).unwrap();
    assert_eq!(end, input.chars().count(), "value did not consume all of {:?}", input);
    value
}

#[test]
fn string_simple() {
    assert_eq!(parse_all("\"hello\""), GodotValue::String("hello".to_string()));
    assert_eq!(parse_all("\"\""), GodotValue::String(String::new()));
}

#[test]
fn string_escaped_quote() {
    // `"a\"b"` holds the three-character value `a"b`.
    assert_eq!(parse_all("\"a\\\"b\""), GodotValue::String("a\"b".to_string()));
    assert_eq!(parse_all("\"\\\"\""), GodotValue::String("\"".to_string()));
}

#[test]
fn string_non_ascii() {
    assert_eq!(parse_all("\"ПРИВ\""), GodotValue::String("ПРИВ".to_string()));
}

#[test]
fn integer_forms() {
    assert_eq!(parse_all("42"), GodotValue::Integer(42));
    assert_eq!(parse_all("-17"), GodotValue::Integer(-17));
    assert_eq!(parse_all("0"), GodotValue::Integer(0));
    assert_eq!(parse_all("9223372036854775807"), GodotValue::Integer(i64::MAX));
    assert_eq!(parse_all("-9223372036854775808"), GodotValue::Integer(i64::MIN));
}

#[test]
fn integer_overflow_is_no_value() {
    let err = parse_godot_value("9223372036854775808").unwrap_err();
    assert_eq!(err.kind, ParseErrorKind::LexicalMismatch);
    assert_eq!(err.pos, 0);
}

#[test]
fn float_forms() {
    assert_eq!(parse_all("1.5"), GodotValue::Float(lit("1.5")));
    assert_eq!(parse_all("-118.0"), GodotValue::Float(lit("-118.0")));
    assert_eq!(parse_all("1."), GodotValue::Float(lit("1.")));
    assert_eq!(parse_all(".5"), GodotValue::Float(lit(".5")));
    assert_eq!(parse_all("-.5"), GodotValue::Float(lit("-.5")));
}

#[test]
fn float_needs_dot_else_integer() {
    assert_eq!(parse_all("15"), GodotValue::Integer(15));
}

#[test]
fn booleans() {
    assert_eq!(parse_all("true"), GodotValue::Boolean(true));
    assert_eq!(parse_all("false"), GodotValue::Boolean(false));
}

#[test]
fn packed_string_array() {
    assert_eq!(
        parse_all("PackedStringArray(\"4.3\", \"Mobile\")"),
        GodotValue::PackedStringArray(vec!["4.3".to_string(), "Mobile".to_string()])
    );
    assert_eq!(parse_all("PackedStringArray()"), GodotValue::PackedStringArray(vec![]));
}

#[test]
fn node_path() {
    assert_eq!(parse_all("NodePath(\"a/b\")"), GodotValue::NodePath("a/b".to_string()));
}

#[test]
fn vector2_normalizes_integers_to_floats() {
    // Numeric normalization: integral components become floats.
    assert_eq!(parse_all("Vector2(1, 2)"), GodotValue::Vector2(lit("1.0"), lit("2.0")));
    assert_eq!(parse_all("Vector2(1.0, 2.0)"), GodotValue::Vector2(lit("1.0"), lit("2.0")));
    assert_eq!(parse_all("Vector2(-3, 0.5)"), GodotValue::Vector2(lit("-3.0"), lit("0.5")));
}

#[test]
fn rect2_four_components() {
    assert_eq!(
        parse_all("Rect2(1, 1483, 245, 245)"),
        GodotValue::Rect2(lit("1.0"), lit("1483.0"), lit("245.0"), lit("245.0"))
    );
    assert!(parse_godot_value("Rect2(1, 2, 3)").is_err());
}

#[test]
fn color_alpha_defaults_to_zero() {
    // The missing fourth component defaults to 0.0, not 1.0.
    assert_eq!(
        parse_all("Color(1, 0, 0)"),
        GodotValue::Color(lit("1.0"), lit("0.0"), lit("0.0"), lit("0.0"))
    );
    assert_eq!(
        parse_all("Color(1, 0, 0, 0.5)"),
        GodotValue::Color(lit("1.0"), lit("0.0"), lit("0.0"), lit("0.5"))
    );
    assert_eq!(
        parse_all("Color()"),
        GodotValue::Color(lit("0.0"), lit("0.0"), lit("0.0"), lit("0.0"))
    );
}

#[test]
fn resource_links() {
    assert_eq!(
        parse_all("ExtResource(\"1_nhero\")"),
        GodotValue::ExtResourceLink("1_nhero".to_string())
    );
    assert_eq!(
        parse_all("SubResource(\"LabelSettings_4h1rj\")"),
        GodotValue::SubResourceLink("LabelSettings_4h1rj".to_string())
    );
}

#[test]
fn nested_composite() {
    // `[1, {"a": 2, "b": [3, "x"]}]` keeps its nesting and ordering.
    let input = "[1, {\n\"a\": 2,\n\"b\": [3, \"x\"]\n}]";
    let expected = GodotValue::Array(vec![
        GodotValue::Integer(1),
        GodotValue::Dictionary(vec![
            DictEntry { key: "a".to_string(), value: GodotValue::Integer(2) },
            DictEntry {
                key: "b".to_string(),
                value: GodotValue::Array(vec![
                    GodotValue::Integer(3),
                    GodotValue::String("x".to_string()),
                ]),
            },
        ]),
    ]);
    assert_eq!(parse_all(input), expected);
}

#[test]
fn empty_array_and_dictionary() {
    assert_eq!(parse_all("[]"), GodotValue::Array(vec![]));
    assert_eq!(parse_all("{\n\n}"), GodotValue::Dictionary(vec![]));
}

#[test]
fn no_alternative_is_lexical_mismatch() {
    let err = parse_godot_value("@oops").unwrap_err();
    assert_eq!(err.kind, ParseErrorKind::LexicalMismatch);
    assert_eq!(err.pos, 0);
    assert!(parse_godot_value("").is_err());
}

#[test]
fn parsing_is_deterministic() {
    let input = "[1, 2.5, \"x\", Vector2(1, 2)]";
    let first = parse_godot_value(input).unwrap();
    let second = parse_godot_value(input).unwrap();
    assert_eq!(first, second);
}

#[test]
fn round_trip_concrete_values() {
    // Each literal below is the canonical rendering of its value: parsing
    // must give back exactly the value whose rendering it is.
    for text in [
        "\"a\\\"b\"",
        "42",
        "-7",
        "1.5",
        "true",
        "false",
        "PackedStringArray(\"x\", \"y\")",
        "NodePath(\"a/b\")",
        "Vector2(1.0, 2.0)",
        "Rect2(1.0, 2.0, 3.0, 4.0)",
        "Color(1.0, 0.0, 0.0, 0.0)",
        "ExtResource(\"id\")",
        "SubResource(\"id\")",
        "[1, 2]",
        "{\n\"k\": 1\n}",
    ] {
        let (value, end) = parse_godot_value(text).unwrap();
        assert_eq!(end, text.chars().count(), "leftover after {:?}", text);
        let (again, _) = parse_godot_value(text).unwrap();
        assert_eq!(value, again);
    }
}

#[test]
fn priority_order_prefers_float_over_integer_prefix() {
    // `1.5` must become one float, not the integer 1 with `.5` left over.
    let (value, end) = parse_godot_value("1.5").unwrap();
    assert_eq!(value, GodotValue::Float(lit("1.5")));
    assert_eq!(end, 3);
}

#[test]
fn malformed_float_run_falls_through() {
    // `1..5` is no float lexeme; the integer alternative takes `1` and
    // leaves the rest unconsumed.
    let (value, end) = parse_godot_value("1..5").unwrap();
    assert_eq!(value, GodotValue::Integer(1));
    assert_eq!(end, 1);
}
