use spider::json::{json_text, parse_json, Json};
use spider::provider::AnthropicProvider;

fn provider() -> AnthropicProvider {
    AnthropicProvider::new("k".to_string(), false)
}

fn parse(s: &str) -> Json {
    parse_json(s).expect("valid JSON")
}

fn canon(j: &Json) -> serde_json::Value {
    serde_json::from_str(&json_text(j)).unwrap()
}

fn val(s: &str) -> serde_json::Value {
    serde_json::from_str(s).unwrap()
}

#[test]
fn schema_transformation_scenario() {
    let input = parse(
        r##"{"$defs":{"X":{"type":"string"}},"properties":{"a":{"$ref":"#/$defs/X"},"b":{"default":0,"description":"n"},"bad name":{"type":"string"}},"required":["a"],"annotations":{"x":1}}"##,
    );
    let out = provider().transform_mcp_to_anthropic_schema(&input);
    assert_eq!(
        canon(&out),
        val(r#"{"type":"object","properties":{"a":{"type":"string"},"b":{"type":"integer","default":0,"description":"n"}},"required":["a"]}"#)
    );
    let props = out.get("properties").unwrap();
    assert!(props.get("bad name").is_none());
    assert!(out.get("annotations").is_none());
}

#[test]
fn transform_is_idempotent_on_examples() {
    let p = provider();
    for text in [
        r##"{"$defs":{"X":{"type":"string"}},"properties":{"a":{"$ref":"#/$defs/X"},"b":{"default":0.5}},"required":["a"]}"##,
        r#"{"type":"object","properties":{"q":{"type":"string","readOnlyHint":true,"items":[{"default":"z"}]}}}"#,
        r#"{"properties":"not an object","required":3}"#,
        r#"[1,2,3]"#,
        r#"{}"#,
    ] {
        let once = p.transform_mcp_to_anthropic_schema(&parse(text));
        let twice = p.transform_mcp_to_anthropic_schema(&once);
        assert_eq!(json_text(&once), json_text(&twice));
    }
}

#[test]
fn types_are_inferred_from_defaults() {
    let p = provider();
    let cases = [
        (r#"{"default":"s"}"#, "string"),
        (r#"{"default":3}"#, "integer"),
        (r#"{"default":1.5}"#, "number"),
        (r#"{"default":true}"#, "boolean"),
        (r#"{"default":[]}"#, "array"),
        (r#"{"default":{}}"#, "object"),
        (r#"{"default":null}"#, "null"),
    ];
    for (text, kind) in cases {
        let cleaned = p.clean_schema_value_for_anthropic(&parse(text));
        assert_eq!(cleaned.get_str("type"), Some(kind));
        assert!(cleaned.get("default").is_some());
    }
    let typed = p.clean_schema_value_for_anthropic(&parse(r#"{"type":"integer","default":"x","examples":[1]}"#));
    assert_eq!(canon(&typed), val(r#"{"type":"integer","default":"x"}"#));
}

#[test]
fn property_names_follow_the_pattern() {
    let p = provider();
    assert!(p.is_valid_anthropic_property_name("a_b.c-9"));
    assert!(p.is_valid_anthropic_property_name(&"x".repeat(64)));
    assert!(!p.is_valid_anthropic_property_name(&"x".repeat(65)));
    assert!(!p.is_valid_anthropic_property_name(""));
    assert!(!p.is_valid_anthropic_property_name("bad name"));
    assert!(!p.is_valid_anthropic_property_name("naïve"));
}

#[test]
fn references_resolve_and_unknown_ones_drop() {
    let p = provider();
    let defs = parse(r##"{"A":{"type":"object","properties":{"inner":{"$ref":"#/$defs/B"}}},"B":{"type":"number"}}"##);
    let schema = parse(r##"{"x":{"$ref":"#/$defs/A","description":"d"},"y":{"$ref":"#/$defs/Missing"},"$schema":"s"}"##);
    let out = p.resolve_schema_refs(&schema, Some(&defs));
    assert_eq!(
        canon(&out),
        val(r##"{"x":{"type":"object","properties":{"inner":{"type":"number"}},"description":"d"},"y":{"$ref":"#/$defs/Missing"}}"##)
    );
    assert!(p.resolve_ref_path("#/$defs/B", Some(&defs)).is_some());
    assert!(p.resolve_ref_path("#/definitions/B", Some(&defs)).is_none());
    assert!(p.resolve_ref_path("#/$defs/B", None).is_none());
}

#[test]
fn inlined_definitions_lose_defs_and_schema() {
    let p = provider();
    let defs = parse(r#"{"A":{"$schema":"s","$defs":{"B":{}},"type":"string"}}"#);
    let schema = parse(r##"{"p":{"$ref":"#/$defs/A"}}"##);
    let out = p.resolve_schema_refs(&schema, Some(&defs));
    assert_eq!(canon(&out), val(r#"{"p":{"type":"string"}}"#));
}

#[test]
fn cyclic_references_stop() {
    let p = provider();
    let schema = parse(r##"{"$defs":{"L":{"type":"object","properties":{"next":{"$ref":"#/$defs/L"}}}},"properties":{"head":{"$ref":"#/$defs/L"}}}"##);
    let out = p.transform_mcp_to_anthropic_schema(&schema);
    assert!(out.get("properties").unwrap().get("head").is_some());
}

#[test]
fn json_text_and_parse_round_trip() {
    let j = parse(r#"{"b":[1,-2,3.5,"s",null,true],"a":{}}"#);
    let again = parse(&json_text(&j));
    assert_eq!(json_text(&j), json_text(&again));
    assert!(parse_json("{not json").is_none());
    assert_eq!(json_text(&Json::Str("x\"y".to_string())), r#""x\"y""#);
}
