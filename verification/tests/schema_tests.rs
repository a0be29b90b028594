use keel::oracles::schema_oracle_verdict;

const DIRECTIVE: &str = r#"{
    "type": "object",
    "required": ["action", "intensity"],
    "properties": {
        "action": { "type": "string" },
        "intensity": { "type": "integer", "minimum": 0, "maximum": 10 }
    },
    "additionalProperties": false
}"#;

#[test]
fn schema_oracle_validates_and_rejects() {
    let good = schema_oracle_verdict(DIRECTIVE, "", Some(r#"{"action":"spawn","intensity":7}"#));
    assert!(good.passed, "conformant Directive must validate");

    let v = schema_oracle_verdict(DIRECTIVE, "", Some(r#"{"intensity":"high"}"#));
    assert!(!v.passed, "malformed Directive must be rejected");
    assert!(!v.failures.is_empty(), "rejection must list the violations");

    let oob = schema_oracle_verdict(DIRECTIVE, "", Some(r#"{"action":"x","intensity":99,"extra":true}"#));
    assert!(!oob.passed, "out-of-range / extra-prop must be rejected");

    let nonjson = schema_oracle_verdict(DIRECTIVE, "not json at all", None);
    assert!(!nonjson.passed, "non-JSON output fails closed");
}

#[test]
fn golden_model_tier_schema_is_enforced() {
    let schema = r#"{"type":"object","required":["path"],"properties":{"path":{"type":"string"}}}"#;
    assert!(schema_oracle_verdict(schema, "", Some(r#"{"path":"/etc/hosts"}"#)).passed, "conformant tool-call must validate");
    assert!(!schema_oracle_verdict(schema, "", Some(r#"{"wrong":1}"#)).passed, "non-conformant tool-call must be rejected");
}

#[test]
fn schema_oracle_pins_the_draft() {
    let schema = r#"{"$schema":"http://json-schema.org/draft-04/schema#","type":"integer","exclusiveMinimum":5}"#;
    assert!(!schema_oracle_verdict(schema, "", Some("5")).passed, "pinned Draft 2020-12: 5 is not > 5");
    assert!(schema_oracle_verdict(schema, "", Some("6")).passed, "6 > 5 validates");
}

#[test]
fn schema_gate_reads_the_content_when_there_is_no_artifact() {
    let ok = schema_oracle_verdict(DIRECTIVE, r#"{"action":"go","intensity":1}"#, None);
    assert!(ok.passed);
    assert_eq!(ok.evidence[0].detail, "output validates against the schema");
    let bad = schema_oracle_verdict(DIRECTIVE, "not json", None);
    assert_eq!(bad.failures.len(), 1);
    assert!(bad.failures[0].starts_with("schema: output is not JSON ("));
    assert!(bad.failures[0].ends_with(") \u{2014} rejected, never partially applied"));
}

#[test]
fn schema_gate_fails_closed_on_a_schema_that_does_not_compile() {
    let v = schema_oracle_verdict(r#"{"type": 12}"#, "1", None);
    assert!(!v.passed);
    assert!(v.failures[0].starts_with("schema: cannot compile schema ("));
}

#[test]
fn schema_violations_are_listed_each_with_its_prefix() {
    let v = schema_oracle_verdict(DIRECTIVE, "", Some(r#"{"intensity":"high"}"#));
    assert!(v.failures.iter().all(|f| f.starts_with("schema: ")));
    assert!(v.evidence[0].detail.starts_with("schema-invalid (rejected, never partially applied): "));
}
