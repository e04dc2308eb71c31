use ocppx_codegen::compile::{compile_schema, Definition, EnumDef, TypeRef};
use ocppx_codegen::error::CompileError;
use ocppx_codegen::ident::{to_field_identifier, to_type_identifier};
use ocppx_codegen::schema::parse_schema;
use ocppx_codegen::{compile_version, SchemaFile};

fn file(path: &str, content: &str) -> SchemaFile {
    SchemaFile {
        path: path.as_bytes().to_vec(),
        content: content.as_bytes().to_vec(),
    }
}

fn compile_one(content: &str) -> Result<String, CompileError> {
    compile_version(&vec![file("a.json", content)])
        .map(|out| String::from_utf8(out).unwrap())
}

const BOOT: &str = r#"{
    "id": "urn:OCPP:1.6:2019:12:BootNotificationRequest",
    "title": "BootNotification",
    "type": "object",
    "properties": {
        "chargePointVendor": {"type": "string", "minLength": 1, "maxLength": 20},
        "status": {"type": "string", "enum": ["Accepted", "Rejected"]}
    },
    "required": ["chargePointVendor"]
}"#;

#[test]
fn end_to_end_boot_notification() {
    let out = compile_one(BOOT).unwrap();
    let mut expected = String::new();
    expected.push_str("use serde::{Deserialize, Serialize};\nuse validator::Validate;\n\n");
    expected.push_str("#[derive(Debug, Copy, Clone, Serialize, Deserialize)]\n");
    expected.push_str("pub enum BootNotificationStatus {\n");
    expected.push_str("    Accepted,\n");
    expected.push_str("    Rejected,\n");
    expected.push_str("}\n\n");
    expected.push_str("#[derive(Debug, Clone, Serialize, Deserialize, Validate)]\n");
    expected.push_str("pub struct BootNotification {\n");
    expected.push_str("    #[validate(length(min = 1, max = 20))]\n");
    expected.push_str("    pub r#charge_point_vendor: String,\n");
    expected.push_str("    pub r#status: Option<BootNotificationStatus>,\n");
    expected.push_str("}\n\n");
    assert_eq!(out, expected);
}

#[test]
fn determinism_same_input_same_output() {
    let files = vec![file("a.json", BOOT)];
    let out1 = compile_version(&files).unwrap();
    let out2 = compile_version(&files).unwrap();
    assert_eq!(out1, out2);
}

#[test]
fn file_order_does_not_matter() {
    let a = r#"{"id":"a","title":"Alpha","type":"object",
        "properties":{"v":{"type":"integer"}}}"#;
    let b = r#"{"id":"b","title":"Beta","type":"object",
        "properties":{"w":{"type":"boolean"}}}"#;
    let one = compile_version(&vec![file("a.json", a), file("b.json", b)]).unwrap();
    let two = compile_version(&vec![file("b.json", b), file("a.json", a)]).unwrap();
    assert_eq!(one, two);
}

#[test]
fn required_and_optional_fields() {
    let out = compile_one(
        r#"{"id":"t","title":"T","type":"object",
            "properties":{"a":{"type":"integer"},"b":{"type":"integer"}},
            "required":["a"]}"#,
    )
    .unwrap();
    assert!(out.contains("    pub r#a: i32,\n"));
    assert!(out.contains("    pub r#b: Option<i32>,\n"));
}

#[test]
fn field_and_type_identifiers_idempotent() {
    let raw = b"chargePointVendor".to_vec();
    let once = to_field_identifier(&raw);
    assert_eq!(once, b"charge_point_vendor".to_vec());
    let twice = to_field_identifier(&once);
    assert_eq!(once, twice);

    let traw = b"BootNotification".to_vec();
    let tonce = to_type_identifier(&traw);
    let ttwice = to_type_identifier(&tonce);
    assert_eq!(tonce, ttwice);
    assert_eq!(tonce, b"BootNotification".to_vec());
}

#[test]
fn identifier_conventions() {
    assert_eq!(to_type_identifier(&b"boot notification".to_vec()), b"BootNotification".to_vec());
    assert_eq!(to_type_identifier(&b"Occupied.NonCharging".to_vec()), b"OccupiedNonCharging".to_vec());
    assert_eq!(to_field_identifier(&b"chargeBoxSerialNumber".to_vec()), b"charge_box_serial_number".to_vec());
    assert_eq!(to_field_identifier(&b"Charge Point".to_vec()), b"charge_point".to_vec());
    assert_eq!(to_field_identifier(&b"status".to_vec()), b"status".to_vec());
}

#[test]
fn enum_literal_fidelity() {
    let path = b"s.json".to_vec();
    let schema = parse_schema(
        &path,
        br#"{"id":"c","title":"Connector","type":"object",
             "properties":{"status":{"type":"string",
                "enum":["Occupied.NonCharging","available"]}}}"#,
    )
    .unwrap();
    let mut defs: Vec<Definition> = Vec::new();
    compile_schema(&mut defs, &schema, &path).unwrap();
    let members = match &defs[0] {
        Definition::Enum(EnumDef { name, members }) => {
            assert_eq!(name, &b"ConnectorStatus".to_vec());
            members
        }
        other => panic!("expected the enum first, got {:?}", other),
    };
    assert_eq!(members[0].ident, b"OccupiedNonCharging".to_vec());
    assert_eq!(members[0].rename, Some(b"Occupied.NonCharging".to_vec()));
    assert_eq!(members[1].ident, b"Available".to_vec());
    assert_eq!(members[1].rename, Some(b"available".to_vec()));
}

#[test]
fn enum_wire_value_kept_when_ident_unchanged() {
    let path = b"s.json".to_vec();
    let schema = parse_schema(
        &path,
        br#"{"id":"b","title":"B","type":"object",
             "properties":{"s":{"type":"string","enum":["Accepted"]}}}"#,
    )
    .unwrap();
    let mut defs: Vec<Definition> = Vec::new();
    compile_schema(&mut defs, &schema, &path).unwrap();
    match &defs[0] {
        Definition::Enum(EnumDef { members, .. }) => {
            assert_eq!(members[0].ident, b"Accepted".to_vec());
            assert_eq!(members[0].rename, None);
        }
        other => panic!("expected an enum, got {:?}", other),
    }
}

#[test]
fn sibling_nested_names_do_not_collide() {
    let a = r#"{"id":"a","title":"Alpha","type":"object",
        "properties":{"status":{"type":"object",
            "properties":{"x":{"type":"integer"}}}}}"#;
    let b = r#"{"id":"b","title":"Beta","type":"object",
        "properties":{"status":{"type":"object",
            "properties":{"y":{"type":"boolean"}}}}}"#;
    let out = compile_version(&vec![file("a.json", a), file("b.json", b)]).unwrap();
    let text = String::from_utf8(out).unwrap();
    assert!(text.contains("pub struct AlphaStatus {"));
    assert!(text.contains("pub struct BetaStatus {"));
    assert!(text.contains("pub r#status: Option<AlphaStatus>,"));
    assert!(text.contains("pub r#status: Option<BetaStatus>,"));
}

#[test]
fn unsupported_format_is_rejected() {
    let err = compile_one(
        r#"{"id":"t","title":"T","type":"object",
            "properties":{"mail":{"type":"string","format":"email"}}}"#,
    )
    .unwrap_err();
    match err {
        CompileError::SchemaPropertyFormatNotSupported { path, property, format } => {
            assert_eq!(path, b"a.json".to_vec());
            assert_eq!(property, b"mail".to_vec());
            assert_eq!(format, b"email".to_vec());
        }
        other => panic!("wrong error: {:?}", other),
    }
}

#[test]
fn known_formats_map_to_timestamp_and_uri() {
    let out = compile_one(
        r#"{"id":"t","title":"T","type":"object",
            "properties":{"at":{"type":"string","format":"date-time"},
                          "link":{"type":"string","format":"uri"}},
            "required":["at","link"]}"#,
    )
    .unwrap();
    assert!(out.contains("    pub r#at: chrono::DateTime<chrono::Utc>,\n"));
    assert!(out.contains("    pub r#link: url::Url,\n"));
}

#[test]
fn malformed_json_is_invalid_schema() {
    let err = compile_one("{not json").unwrap_err();
    assert_eq!(err, CompileError::InvalidSchema { path: b"a.json".to_vec() });
}

#[test]
fn missing_id_is_invalid_schema() {
    let err = compile_one(r#"{"title":"T","type":"object","properties":{}}"#).unwrap_err();
    assert_eq!(err, CompileError::InvalidSchema { path: b"a.json".to_vec() });
}

#[test]
fn missing_title_is_invalid_schema() {
    let err = compile_one(r#"{"id":"t","type":"object","properties":{}}"#).unwrap_err();
    assert_eq!(err, CompileError::InvalidSchema { path: b"a.json".to_vec() });
}

#[test]
fn missing_properties_is_invalid_schema() {
    let err = compile_one(r#"{"id":"t","title":"T","type":"object"}"#).unwrap_err();
    assert_eq!(err, CompileError::InvalidSchema { path: b"a.json".to_vec() });
}

#[test]
fn unknown_type_tag_is_invalid_schema() {
    let err =
        compile_one(r#"{"id":"t","title":"T","type":"thing","properties":{}}"#).unwrap_err();
    assert_eq!(err, CompileError::InvalidSchema { path: b"a.json".to_vec() });
}

#[test]
fn fractional_number_in_ignored_member_is_accepted() {
    let out = compile_one(
        r#"{"id":"t","title":"T","type":"object",
            "properties":{"v":{"type":"integer","multipleOf":0.5}},
            "required":["v"]}"#,
    )
    .unwrap();
    assert!(out.contains("    pub r#v: i32,\n"));
}

#[test]
fn fractional_length_bound_is_invalid_schema() {
    let err = compile_one(
        r#"{"id":"t","title":"T","type":"object",
            "properties":{"s":{"type":"string","minLength":1.5}}}"#,
    )
    .unwrap_err();
    assert_eq!(err, CompileError::InvalidSchema { path: b"a.json".to_vec() });
}

#[test]
fn non_object_root_is_unsupported() {
    let err =
        compile_one(r#"{"id":"t","title":"T","type":"string","properties":{}}"#).unwrap_err();
    match err {
        CompileError::SchemaTypeNotSupported { path, .. } => {
            assert_eq!(path, b"a.json".to_vec());
        }
        other => panic!("wrong error: {:?}", other),
    }
}

#[test]
fn null_property_is_unsupported() {
    let err = compile_one(
        r#"{"id":"t","title":"T","type":"object","properties":{"n":{"type":"null"}}}"#,
    )
    .unwrap_err();
    assert_eq!(
        err,
        CompileError::SchemaPropertyTypeNotSupported {
            path: b"a.json".to_vec(),
            property: b"n".to_vec(),
        }
    );
}

#[test]
fn object_property_without_properties_is_unsupported() {
    let err = compile_one(
        r#"{"id":"t","title":"T","type":"object","properties":{"o":{"type":"object"}}}"#,
    )
    .unwrap_err();
    assert_eq!(
        err,
        CompileError::SchemaPropertyTypeNotSupported {
            path: b"a.json".to_vec(),
            property: b"o".to_vec(),
        }
    );
}

#[test]
fn array_of_primitive_items_is_unsupported() {
    let err = compile_one(
        r#"{"id":"t","title":"T","type":"object",
            "properties":{"xs":{"type":"array","items":{"type":"integer"}}}}"#,
    )
    .unwrap_err();
    assert_eq!(
        err,
        CompileError::SchemaPropertyTypeNotSupported {
            path: b"a.json".to_vec(),
            property: b"xs".to_vec(),
        }
    );
}

#[test]
fn array_of_strings_and_of_objects() {
    let out = compile_one(
        r#"{"id":"t","title":"T","type":"object",
            "properties":{
                "tags":{"type":"array","items":{"type":"string"}},
                "rows":{"type":"array","items":{"type":"object",
                    "properties":{"v":{"type":"integer"}},"required":["v"]}}},
            "required":["tags","rows"]}"#,
    )
    .unwrap();
    assert!(out.contains("    pub r#tags: Vec<String>,\n"));
    assert!(out.contains("    pub r#rows: Vec<TRows>,\n"));
    assert!(out.contains("pub struct TRows {\n    pub r#v: i32,\n}"));
}

#[test]
fn colliding_enum_literals_are_detected() {
    let err = compile_one(
        r#"{"id":"t","title":"T","type":"object",
            "properties":{"s":{"type":"string","enum":["A-B","A.B"]}}}"#,
    )
    .unwrap_err();
    assert_eq!(
        err,
        CompileError::NamingCollision {
            path: b"a.json".to_vec(),
            name: b"TS".to_vec(),
        }
    );
}

#[test]
fn identical_definitions_deduplicate() {
    let s = r#"{"id":"s","title":"Same","type":"object",
        "properties":{"v":{"type":"integer"}},"required":["v"]}"#;
    let out = compile_version(&vec![file("a.json", s), file("b.json", s)]).unwrap();
    let text = String::from_utf8(out).unwrap();
    assert_eq!(text.matches("pub struct Same {").count(), 1);
}

#[test]
fn different_definitions_under_one_name_collide() {
    let a = r#"{"id":"a","title":"Same","type":"object",
        "properties":{"v":{"type":"integer"}},"required":["v"]}"#;
    let b = r#"{"id":"b","title":"Same","type":"object",
        "properties":{"v":{"type":"boolean"}},"required":["v"]}"#;
    let err = compile_version(&vec![file("a.json", a), file("b.json", b)]).unwrap_err();
    assert_eq!(
        err,
        CompileError::NamingCollision {
            path: b"b.json".to_vec(),
            name: b"Same".to_vec(),
        }
    );
}

#[test]
fn max_length_alone_implies_min_of_one() {
    let out = compile_one(
        r#"{"id":"t","title":"T","type":"object",
            "properties":{"s":{"type":"string","maxLength":8}},"required":["s"]}"#,
    )
    .unwrap();
    assert!(out.contains("#[validate(length(min = 1, max = 8))]"));
}

#[test]
fn min_length_alone_is_kept_as_given() {
    let out = compile_one(
        r#"{"id":"t","title":"T","type":"object",
            "properties":{"s":{"type":"string","minLength":3}},"required":["s"]}"#,
    )
    .unwrap();
    assert!(out.contains("#[validate(length(min = 3))]"));
}

#[test]
fn boolean_and_number_primitives() {
    let path = b"p.json".to_vec();
    let schema = parse_schema(
        &path,
        br#"{"id":"p","title":"P","type":"object",
             "properties":{"on":{"type":"boolean"},"n":{"type":"number"}},
             "required":["on","n"]}"#,
    )
    .unwrap();
    let mut defs: Vec<Definition> = Vec::new();
    compile_schema(&mut defs, &schema, &path).unwrap();
    match &defs[0] {
        Definition::Struct(s) => {
            assert_eq!(s.fields[0].name, b"n".to_vec());
            assert_eq!(s.fields[0].ty, TypeRef::Int);
            assert_eq!(s.fields[1].name, b"on".to_vec());
            assert_eq!(s.fields[1].ty, TypeRef::Bool);
        }
        other => panic!("expected a struct, got {:?}", other),
    }
}

#[test]
fn empty_file_set_emits_only_the_header() {
    let out = compile_version(&Vec::new()).unwrap();
    assert_eq!(
        String::from_utf8(out).unwrap(),
        "use serde::{Deserialize, Serialize};\nuse validator::Validate;\n\n"
    );
}
