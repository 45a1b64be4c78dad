//! Tests of the scene and resource assemblers.

use godot_parser::errors::ParseErrorKind;
use godot_parser::tscn_file::TagType;
use godot_parser::values::{FloatLit, GodotValue};

#[test]
fn tscn_parser_test_parse_tscn() {
    let input = r#"[gd_scene format=3 uid="uid://lrpk7b420cd7"]

[node name="Game" type="Node2D"]
        "#;
    let (tscn, _) = godot_parser::tscn_parser::parse_tscn_file(input).unwrap();
    assert_eq!(tscn.header._type, TagType::GdScene);
    assert_eq!(tscn.nodes.len(), 1);
}

#[test]
fn tscn_tres_parser_test_parse_tscn() {
    let input = r#"[gd_scene format=3 uid="uid://lrpk7b420cd7"]

[node name="Game" type="Node2D"]

[node name="scores" type="Label" parent="."]
layout_mode = 1
anchors_preset = 5
anchor_left = 0.5
anchor_right = 0.5
offset_left = -118.0
offset_top = 75.0
offset_right = 120.0
offset_bottom = 168.0
grow_horizontal = 2
text = "ПРИВ"
label_settings = SubResource("LabelSettings_4h1rj")
autowrap_mode = 2
justification_flags = 2
clip_text = true
        "#;
    let (tscn, _) = godot_parser::tscn_tres_parser::parse_tscn_file(input).unwrap();
    assert_eq!(tscn.header._type, TagType::GdScene);
    assert_eq!(tscn.nodes.len(), 2);
    let scores = &tscn.nodes[1];
    assert_eq!(
        scores.attrs.get("name"),
        Some(&GodotValue::String("scores".to_string()))
    );
    assert_eq!(
        scores.props.get("anchor_left"),
        Some(&GodotValue::Float(FloatLit { text: "0.5".to_string() }))
    );
    assert_eq!(
        scores.props.get("offset_left"),
        Some(&GodotValue::Float(FloatLit { text: "-118.0".to_string() }))
    );
    assert_eq!(
        scores.props.get("text"),
        Some(&GodotValue::String("ПРИВ".to_string()))
    );
    assert_eq!(
        scores.props.get("label_settings"),
        Some(&GodotValue::SubResourceLink("LabelSettings_4h1rj".to_string()))
    );
    assert_eq!(scores.props.get("clip_text"), Some(&GodotValue::Boolean(true)));
}

#[test]
fn test_parse_tres() {
    let input = r#"[gd_resource type="AtlasTexture" load_steps=2 format=3 uid="uid://bcjbib14mot8s"]

[ext_resource type="Texture2D" uid="uid://bqov4kuchixhi" path="res://atlases/icons.png" id="1_nhero"]

[resource]
atlas = ExtResource("1_nhero")
region = Rect2(1, 1483, 245, 245)"#;
    let (tscn, _) = godot_parser::tscn_tres_parser::parse_tres_file(input).unwrap();
    assert_eq!(tscn.header._type, TagType::GdResource);
    let ext = tscn.ext_resources.get("1_nhero").expect("ext resource 1_nhero");
    assert_eq!(ext._type, TagType::ExtResource);
    assert_eq!(
        ext.attrs.get("path"),
        Some(&GodotValue::String("res://atlases/icons.png".to_string()))
    );
    assert_eq!(tscn.nodes.len(), 1);
    let resource = &tscn.nodes[0];
    assert_eq!(resource._type, TagType::Resource);
    assert_eq!(
        resource.props.get("atlas"),
        Some(&GodotValue::ExtResourceLink("1_nhero".to_string()))
    );
    assert_eq!(
        resource.props.get("region"),
        Some(&GodotValue::Rect2(
            FloatLit { text: "1.0".to_string() },
            FloatLit { text: "1483.0".to_string() },
            FloatLit { text: "245.0".to_string() },
            FloatLit { text: "245.0".to_string() },
        ))
    );
    assert!(tscn.connections.is_empty());
}

#[test]
fn empty_scene_has_empty_collections() {
    let (tscn, _) = godot_parser::tscn_tres_parser::parse_tscn_file("[gd_scene format=3]")
        .unwrap();
    assert_eq!(tscn.header._type, TagType::GdScene);
    assert_eq!(tscn.header.attrs.get("format"), Some(&GodotValue::Integer(3)));
    assert!(tscn.ext_resources.entries.is_empty());
    assert!(tscn.sub_resources.entries.is_empty());
    assert!(tscn.nodes.is_empty());
    assert!(tscn.connections.is_empty());
}

#[test]
fn unknown_tag_type_fails() {
    let err = godot_parser::tscn_tres_parser::parse_tscn_file("[widget foo=1]").unwrap_err();
    assert_eq!(err.kind, ParseErrorKind::UnknownTagType);
    assert_eq!(err.pos, 1);
}

#[test]
fn wrong_header_type_is_structural_mismatch() {
    let err = godot_parser::tscn_tres_parser::parse_tscn_file("[node name=\"x\"]").unwrap_err();
    assert_eq!(err.kind, ParseErrorKind::StructuralMismatch);
}

#[test]
fn empty_input_is_incomplete() {
    let err = godot_parser::tscn_tres_parser::parse_tscn_file("").unwrap_err();
    assert_eq!(err.kind, ParseErrorKind::IncompleteInput);
    let err = godot_parser::tscn_tres_parser::parse_tres_file("").unwrap_err();
    assert_eq!(err.kind, ParseErrorKind::IncompleteInput);
}

#[test]
fn first_resource_with_an_id_wins() {
    // Two ExtResource declarations with the same id but different paths:
    // the map keeps the first.
    let input = r#"[gd_scene load_steps=3 format=3]

[ext_resource type="Texture2D" path="res://first.png" id="X"]

[ext_resource type="Texture2D" path="res://second.png" id="X"]
"#;
    let (tscn, _) = godot_parser::tscn_tres_parser::parse_tscn_file(input).unwrap();
    let kept = tscn.ext_resources.get("X").expect("id X");
    assert_eq!(
        kept.attrs.get("path"),
        Some(&GodotValue::String("res://first.png".to_string()))
    );
}

#[test]
fn load_steps_counts_tags_not_types() {
    // load_steps=3 sends exactly the next two tags into the declaration
    // phase, whatever their types; the node among them is dropped, and
    // the third node is the only one left for the node phase.
    let input = r#"[gd_scene load_steps=3 format=3]

[ext_resource type="Texture2D" path="res://a.png" id="A"]

[node name="swallowed" type="Node2D"]

[node name="kept" type="Node2D"]
"#;
    let (tscn, _) = godot_parser::tscn_tres_parser::parse_tscn_file(input).unwrap();
    assert!(tscn.ext_resources.get("A").is_some());
    assert_eq!(tscn.nodes.len(), 1);
    assert_eq!(
        tscn.nodes[0].attrs.get("name"),
        Some(&GodotValue::String("kept".to_string()))
    );
}

#[test]
fn scene_classifies_connections() {
    let input = r#"[gd_scene format=3]

[node name="a" type="Node2D"]

[connection signal="pressed" from="a" to="." method="go"]

[node name="b" type="Node2D"]
"#;
    let (tscn, _) = godot_parser::tscn_tres_parser::parse_tscn_file(input).unwrap();
    assert_eq!(tscn.nodes.len(), 2);
    assert_eq!(tscn.connections.len(), 1);
    assert_eq!(
        tscn.connections[0].attrs.get("signal"),
        Some(&GodotValue::String("pressed".to_string()))
    );
}

#[test]
fn duplicate_attribute_key_overwrites() {
    // Attribute maps use insert semantics: a later duplicate key wins,
    // unlike the resource-id maps.
    let input = "[gd_scene format=3 format=4]";
    let (tscn, _) = godot_parser::tscn_tres_parser::parse_tscn_file(input).unwrap();
    assert_eq!(tscn.header.attrs.get("format"), Some(&GodotValue::Integer(4)));
}

#[test]
fn property_block_stops_at_blank_line() {
    let input = "[gd_scene format=3]\n\n[node name=\"x\"]\nkept = 1\n\nlost = 2\n";
    let (tscn, end) = godot_parser::tscn_tres_parser::parse_tscn_file(input).unwrap();
    assert_eq!(tscn.nodes.len(), 1);
    assert_eq!(tscn.nodes[0].props.get("kept"), Some(&GodotValue::Integer(1)));
    assert_eq!(tscn.nodes[0].props.get("lost"), None);
    // the line after the blank line is no tag, so it stays unconsumed
    assert!(end < input.chars().count());
}

#[test]
fn node_at_end_of_input_has_no_properties() {
    let input = "[gd_scene format=3]\n\n[node name=\"x\"]";
    let (tscn, _) = godot_parser::tscn_tres_parser::parse_tscn_file(input).unwrap();
    assert_eq!(tscn.nodes.len(), 1);
    assert!(tscn.nodes[0].props.entries.is_empty());
}

#[test]
fn malformed_attribute_ends_the_attribute_list() {
    // text in the brackets after the last well-formed attribute is dropped
    let input = "[gd_scene format=3 junk]";
    let (tscn, _) = godot_parser::tscn_tres_parser::parse_tscn_file(input).unwrap();
    assert_eq!(tscn.header.attrs.get("format"), Some(&GodotValue::Integer(3)));
    assert_eq!(tscn.header.attrs.get("junk"), None);
}

#[test]
fn load_steps_below_one_cannot_be_satisfied() {
    let err = godot_parser::tscn_tres_parser::parse_tscn_file(
        "[gd_scene load_steps=0 format=3]",
    )
    .unwrap_err();
    assert_eq!(err.kind, ParseErrorKind::IncompleteInput);
}

#[test]
fn tag_type_names() {
    assert_eq!(TagType::from_str("gd_scene"), Some(TagType::GdScene));
    assert_eq!(TagType::from_str("gd_resource"), Some(TagType::GdResource));
    assert_eq!(TagType::from_str("ext_resource"), Some(TagType::ExtResource));
    assert_eq!(TagType::from_str("sub_resource"), Some(TagType::SubResource));
    assert_eq!(TagType::from_str("node"), Some(TagType::Node));
    assert_eq!(TagType::from_str("resource"), Some(TagType::Resource));
    assert_eq!(TagType::from_str("connection"), Some(TagType::Connection));
    assert_eq!(TagType::from_str("widget"), None);
}
