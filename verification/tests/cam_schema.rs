use haptic_core::api::cam_schema::{fenced_json, json_body, CamConfig, CamField, CamType, SchemaError};

const MARKDOWN: &str = "# Camera\n\n```json\n{\n  \"id\": \"Testing\",\n  \"version\": 1,\n  \"shader\": \"Custom/DataReference\",\n  \"totalBits\": 97,\n  \"fields\": [\n    { \"name\": \"_D00\", \"type\": \"float\", \"bits\": 32 },\n    { \"name\": \"_D01\", \"type\": \"int\",   \"bits\": 32 },\n    { \"name\": \"_D02\", \"type\": \"uint\",  \"bits\": 32 },\n    { \"name\": \"_D03\", \"type\": \"bool\",  \"bits\": 1 }\n  ]\n}\n```\n";

/// Reads a schema the way the application does: the JSON body of the file,
/// then the JSON object.
fn parse_schema(content: &str) -> Result<CamConfig, String> {
    let value: serde_json::Value = serde_json::from_str(json_body(content)).map_err(|e| e.to_string())?;
    let text = |key: &str| -> Result<String, String> {
        value.get(key).and_then(|v| v.as_str()).map(|s| s.to_string()).ok_or(format!("missing {key}"))
    };
    let fields = value
        .get("fields")
        .and_then(|v| v.as_array())
        .ok_or("missing fields".to_string())?
        .iter()
        .map(|f| {
            let kind = match f.get("type").and_then(|v| v.as_str()) {
                Some("float") => CamType::Float,
                Some("int") => CamType::Int,
                Some("uint") => CamType::Uint,
                Some("bool") => CamType::Bool,
                _ => return Err("bad type".to_string()),
            };
            Ok(CamField {
                osc: f.get("name").and_then(|v| v.as_str()).ok_or("missing name".to_string())?.to_string(),
                kind,
                bits: f.get("bits").and_then(|v| v.as_u64()).ok_or("missing bits".to_string())? as u32,
            })
        })
        .collect::<Result<Vec<_>, String>>()?;
    Ok(CamConfig {
        id: text("id")?,
        version: value.get("version").and_then(|v| v.as_u64()).ok_or("missing version".to_string())? as u32,
        shader: text("shader")?,
        total_bits: value.get("totalBits").and_then(|v| v.as_u64()).unwrap_or(0) as u32,
        fields,
    })
}

#[test]
fn reads_a_fenced_schema() {
    let schema = parse_schema(MARKDOWN).expect("parse");
    assert_eq!(schema.id, "Testing");
    assert_eq!(schema.version, 1);
    assert_eq!(schema.fields.len(), 4);
    assert_eq!(schema.bit_sum(), 97);
    schema.validate().expect("valid");
}

#[test]
fn reads_a_nested_fence() {
    let nested = format!("```markdown\n{}```\n", MARKDOWN);
    let schema = parse_schema(&nested).expect("parse");
    assert_eq!(schema.id, "Testing");
}

#[test]
fn reads_plain_json() {
    let plain = json_body(MARKDOWN).to_string();
    let schema = parse_schema(&plain).expect("parse");
    assert_eq!(schema.fields[3].kind, CamType::Bool);
}

#[test]
fn rejects_a_bad_total() {
    let mut schema = parse_schema(MARKDOWN).expect("parse");
    schema.total_bits = 96;
    assert!(matches!(schema.validate(), Err(SchemaError::BitTotal { stated: 96, sum: 97 })));
}

fn field(osc: &str, kind: CamType, bits: u32) -> CamField {
    CamField { osc: osc.to_string(), kind, bits }
}

fn config(id: &str, total_bits: u32, fields: Vec<CamField>) -> CamConfig {
    CamConfig { id: id.to_string(), version: 1, shader: "s".to_string(), total_bits, fields }
}

#[test]
fn json_body_takes_plain_json_whole() {
    assert_eq!(json_body("  {\"a\": 1}  "), "  {\"a\": 1}  ");
}

#[test]
fn json_body_falls_back_to_braces() {
    assert_eq!(json_body("text {\"a\": {\"b\": 2}} more"), "{\"a\": {\"b\": 2}}");
    assert_eq!(json_body("no braces"), "no braces");
    assert_eq!(json_body("} backwards {"), "} backwards {");
}

#[test]
fn fence_without_close_runs_to_the_end() {
    assert_eq!(fenced_json("```JSON\n{1}\n"), Some("{1}\n"));
    assert_eq!(fenced_json("``` json \n{2}\n```\nafter"), Some("{2}\n"));
    assert_eq!(fenced_json("```rust\n{3}\n```\n"), None);
}

#[test]
fn validate_reports_each_rule() {
    assert!(matches!(config("", 0, vec![field("a", CamType::Float, 8)]).validate(), Err(SchemaError::EmptyId)));
    assert!(matches!(config("x", 0, vec![]).validate(), Err(SchemaError::NoFields)));
    match config("x", 0, vec![field("a", CamType::Float, 8), field("b", CamType::Float, 33)]).validate() {
        Err(SchemaError::FieldWidth { name, bits }) => {
            assert_eq!(name, "b");
            assert_eq!(bits, 33);
        }
        _ => panic!("expected a width error"),
    }
    match config("x", 0, vec![field("flag", CamType::Bool, 2)]).validate() {
        Err(SchemaError::FieldWidth { name, bits }) => {
            assert_eq!(name, "flag");
            assert_eq!(bits, 2);
        }
        _ => panic!("expected a width error"),
    }
    assert!(config("x", 9, vec![field("a", CamType::Uint, 8), field("b", CamType::Bool, 1)]).validate().is_ok());
}

#[test]
fn bit_total_defaults_to_the_sum() {
    let c = config("x", 0, vec![field("a", CamType::Uint, 8), field("b", CamType::Int, 5)]);
    assert_eq!(c.bit_sum(), 13);
    assert_eq!(c.bit_total(), 13);
    let d = config("x", 40, vec![field("a", CamType::Uint, 8)]);
    assert_eq!(d.bit_total(), 40);
}

#[test]
fn abi_codes_of_kinds() {
    assert_eq!(CamType::Float.abi_code(), 0);
    assert_eq!(CamType::Int.abi_code(), 1);
    assert_eq!(CamType::Uint.abi_code(), 2);
    assert_eq!(CamType::Bool.abi_code(), 3);
}

#[test]
fn schema_error_messages() {
    assert_eq!(SchemaError::EmptyId.message(), "the schema has an empty id");
    assert_eq!(SchemaError::NoFields.message(), "the schema has no fields");
    assert_eq!(
        SchemaError::FieldWidth { name: "speed".to_string(), bits: 40 }.message(),
        "field speed has an illegal width of 40 bits"
    );
    assert_eq!(
        SchemaError::BitTotal { stated: 96, sum: 97 }.message(),
        "totalBits is 96 but the fields sum to 97"
    );
}

#[test]
fn widths_fit_for_ordinary_schemas() {
    assert!(config("x", 0, vec![field("a", CamType::Uint, 32), field("b", CamType::Int, 32)]).fits_u32());
    assert!(config("x", 0, vec![field("a", CamType::Float, 33)]).fits_u32());
    assert!(config("x", 0, vec![]).fits_u32());
}
