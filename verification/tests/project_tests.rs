//! Tests of the project-settings parser and the generator helper.

use godot_parser::errors::ParseErrorKind;
use godot_parser::project_parser::parse_project_file;
use godot_parser::ser_gen::{ser_proxy_guard, Field, FieldAttribute, FieldType};
use godot_parser::values::GodotValue;

#[test]
fn test_parse_comment() {
    let input = r#"; Engine configuration file.
; It's best edited using the editor UI and not directly,
; since the parameters that go here are not all obvious.
;
; Format:
;   [section] ; section goes between []
;   param=value ; assign values to parameters

config_version=5

[application]

config/name="test"
run/main_scene="res://game.tscn"
config/features=PackedStringArray("4.3", "Mobile")
config/icon="res://icon.svg"

[rendering]

renderer/rendering_method="mobile"
"#;
    let (godot_file, _) = parse_project_file(input).unwrap();
    println!("{:?}", godot_file);
    assert_eq!(godot_file.config_version, 5);
    let application = godot_file.sections.get("application").expect("application section");
    assert_eq!(
        application.get("config/name"),
        Some(&GodotValue::String("test".to_string()))
    );
    assert_eq!(
        application.get("config/features"),
        Some(&GodotValue::PackedStringArray(vec![
            "4.3".to_string(),
            "Mobile".to_string(),
        ]))
    );
    let rendering = godot_file.sections.get("rendering").expect("rendering section");
    assert_eq!(
        rendering.get("renderer/rendering_method"),
        Some(&GodotValue::String("mobile".to_string()))
    );
}

#[test]
fn missing_config_version_fails() {
    let err = parse_project_file("\n[application]\n").unwrap_err();
    assert_eq!(err.kind, ParseErrorKind::StructuralMismatch);
    let err = parse_project_file("").unwrap_err();
    assert_eq!(err.kind, ParseErrorKind::IncompleteInput);
}

#[test]
fn config_version_out_of_range_fails() {
    let err = parse_project_file("\nconfig_version=4294967296\n").unwrap_err();
    assert_eq!(err.kind, ParseErrorKind::StructuralMismatch);
    let (ok, _) = parse_project_file("\nconfig_version=4294967295\n").unwrap();
    assert_eq!(ok.config_version, u32::MAX);
}

#[test]
fn duplicate_parameter_last_write_wins() {
    // Within a section a later duplicate key overwrites — the inverse of
    // the resource-id rule of the scene dialect.
    let input = "\nconfig_version=5\n\n[application]\n\nconfig/name=\"first\"\nconfig/name=\"second\"\n";
    let (godot_file, _) = parse_project_file(input).unwrap();
    let application = godot_file.sections.get("application").unwrap();
    assert_eq!(
        application.get("config/name"),
        Some(&GodotValue::String("second".to_string()))
    );
}

#[test]
fn duplicate_section_last_write_wins() {
    let input = "\nconfig_version=5\n\n[s]\n\na=1\nb=2\n\n[s]\n\na=3\n";
    let (godot_file, _) = parse_project_file(input).unwrap();
    let s = godot_file.sections.get("s").unwrap();
    assert_eq!(s.get("a"), Some(&GodotValue::Integer(3)));
    assert_eq!(s.get("b"), None);
}

#[test]
fn section_names_are_trimmed() {
    let input = "\nconfig_version=5\n\n[ spaced ]\n\nk=1\n";
    let (godot_file, _) = parse_project_file(input).unwrap();
    assert!(godot_file.sections.get("spaced").is_some());
}

#[test]
fn no_sections_is_fine() {
    let (godot_file, _) = parse_project_file("\nconfig_version=5\n").unwrap();
    assert!(godot_file.sections.entries.is_empty());
}

#[test]
fn ser_proxy_guard_without_proxy() {
    let field = Field { attributes: vec![], ty: FieldType { base: "i64".to_string() } };
    assert_eq!(ser_proxy_guard("self.count", &field), "self.count");
}

#[test]
fn ser_proxy_guard_with_proxy() {
    let field = Field {
        attributes: vec![FieldAttribute {
            name: "nserde".to_string(),
            tokens: vec!["proxy".to_string(), "MyProxy".to_string()],
        }],
        ty: FieldType { base: "Thing".to_string() },
    };
    assert_eq!(
        ser_proxy_guard("self.thing", &field),
        "{let proxy: MyProxy = Into::into(&self.thing);proxy}"
    );
}

#[test]
fn ser_proxy_guard_with_proxy_option() {
    let field = Field {
        attributes: vec![FieldAttribute {
            name: "nserde".to_string(),
            tokens: vec!["proxy".to_string(), "MyProxy".to_string()],
        }],
        ty: FieldType { base: "Option".to_string() },
    };
    assert_eq!(
        ser_proxy_guard("self.thing", &field),
        "{self.thing.as_ref().map(|f| {let proxy: MyProxy = Into::into(f);proxy})}"
    );
}
