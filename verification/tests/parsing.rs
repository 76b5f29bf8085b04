use real_ai::JsonValue;
use real_ai::json_get;
use real_ai::parse::JsonParser;
use real_ai::parse::JsonStreamStatus;
use real_ai::parse::build_typed_prompt;
use real_ai::parse::extract_and_parse_json;
use real_ai::parse::extract_json_from_code_block;
use real_ai::parse::extract_json_object;
use real_ai::parse::schema_description_from_fields;
use real_ai::parse::to_snake_case;
use real_ai::parse::try_repair_json;

#[test]
fn test_parse_pure_json() {
    let json = r#"{"name": "test", "value": 42}"#;
    let result: JsonValue = extract_and_parse_json(json).expect("should parse");
    assert_eq!(json_get(&result, "name"), Some(&JsonValue::Str("test".to_string())));
    assert_eq!(json_get(&result, "value"), Some(&JsonValue::Number("42".to_string())));
}

#[test]
fn test_parse_json_in_code_block() {
    let response = "Here is the result:\n```json\n{\"name\": \"test\", \"value\": 42}\n```\n";
    let result: JsonValue = extract_and_parse_json(response).expect("should parse");
    assert_eq!(json_get(&result, "name"), Some(&JsonValue::Str("test".to_string())));
    assert_eq!(json_get(&result, "value"), Some(&JsonValue::Number("42".to_string())));
}

#[test]
fn test_parse_json_embedded_in_text() {
    let response =
        r#"Sure, here's what you asked for: {"name": "test", "value": 42} Hope that helps!"#;
    let result: JsonValue = extract_and_parse_json(response).expect("should parse");
    assert_eq!(json_get(&result, "name"), Some(&JsonValue::Str("test".to_string())));
    assert_eq!(json_get(&result, "value"), Some(&JsonValue::Number("42".to_string())));
}

#[test]
fn test_extract_json_object_handles_nested() {
    let text = r#"Result: {"outer": {"inner": 1}, "value": 2}"#;
    let json = extract_json_object(text).expect("should find json");
    assert_eq!(json, r#"{"outer": {"inner": 1}, "value": 2}"#);
}

#[test]
fn test_repair_missing_array_bracket() {
    // The incoming AI response is missing the closing ']' for the actions array.
    let broken = r#"{"name":"spawn","type":"action","args":{"target":"player","actions":[{"actor":"npc_goblins.girl", "x": 7 , "y" :9} },"id":"goblin_spawn"}"#;
    // First ensure naive extraction gives us the broken string
    let extracted = extract_json_object(broken).expect("should extract");
    assert!(serde_json::from_str::<serde_json::Value>(&extracted).is_err());

    // Try repair
    let repaired = try_repair_json(&extracted);
    // Now repaired should parse
    let v: serde_json::Value =
        serde_json::from_str(&repaired).expect("repaired json should parse");
    assert_eq!(v["name"], "spawn");
    assert_eq!(v["id"], "goblin_spawn");
    // Ensure actions is an array
    assert!(v["args"]["actions"].is_array());
}

#[test]
fn json_parser_parses_embedded() {
    let parser = JsonParser;
    let state = parser.create_parser_state();
    let input = "Some text before {\"name\": \"x\", \"value\": 3} trailing";
    match parser.parse(&state, input).expect("parse") {
        JsonStreamStatus::Finished { result, .. } => {
            assert_eq!(json_get(&result, "name"), Some(&JsonValue::Str("x".to_string())));
            assert_eq!(json_get(&result, "value"), Some(&JsonValue::Number("3".to_string())));
        },
        other => panic!("unexpected parse status: {:?}", other),
    }
}

#[test]
fn json_parser_asks_for_more_input() {
    let parser = JsonParser;
    let state = parser.create_parser_state();
    match parser.parse(&state, "no braces here").expect("parse") {
        JsonStreamStatus::Incomplete { state: st } => {
            match parser.parse(&st, " tail {\"k\": 1}").expect("parse") {
                JsonStreamStatus::Finished { result, .. } => {
                    assert_eq!(json_get(&result, "k"), Some(&JsonValue::Number("1".to_string())));
                },
                other => panic!("unexpected parse status: {:?}", other),
            }
        },
        other => panic!("unexpected parse status: {:?}", other),
    }
}

#[test]
fn parser_and_serde_agree_on_canonical_text() {
    // Cross-check the library's own JSON writer and parser against serde_json.
    let text = r#"{"a":[1,2.5,-3e2],"b":{"c":"x\ny"},"d":[true,false,null]}"#;
    let v = real_ai::parse_json(text).expect("parses");
    let canonical = v.to_json_text();
    let ours_again = real_ai::parse_json(&canonical).expect("round trips");
    assert_eq!(v, ours_again);
    let theirs: serde_json::Value = serde_json::from_str(&canonical).expect("serde agrees");
    assert_eq!(theirs["b"]["c"], "x\ny");
}

#[test]
fn parse_json_decodes_escapes() {
    let v = real_ai::parse_json(r#""a\"b\\cAé\n""#).expect("string parses");
    assert_eq!(v, JsonValue::Str("a\"b\\cA\u{e9}\n".to_string()));
    // A raw non-ASCII character is fine; surrogate escapes are rejected
    // rather than miscomputed.
    assert_eq!(
        real_ai::parse_json("\"😀\""),
        Some(JsonValue::Str("😀".to_string()))
    );
    assert!(real_ai::parse_json(r#""\uD83D\uDE00""#).is_none());
}

#[test]
fn extraction_failure_is_bounded() {
    let long = "x".repeat(500);
    let err = extract_and_parse_json(&long).expect_err("no json anywhere");
    assert!(err.starts_with("Failed to parse JSON from AI response. Response was: "));
    assert!(err.ends_with("..."));
    let prefix_len = "Failed to parse JSON from AI response. Response was: ".len();
    assert_eq!(err.len(), prefix_len + 200 + 3);
}

#[test]
fn code_block_prefers_json_tag() {
    let text = "```\nplain\n```\n```json\n{\"k\": 1}\n```";
    let block = extract_json_from_code_block(text).expect("block");
    assert_eq!(block, "{\"k\": 1}");
}

#[test]
fn to_snake_case_splits_camel_case() {
    assert_eq!(to_snake_case("SpawnEntityAction"), "spawn_entity_action");
    assert_eq!(to_snake_case("Spawn"), "spawn");
    assert_eq!(to_snake_case("already_snake"), "already_snake");
}

#[test]
fn schema_description_is_generated_correctly() {
    let fields = vec![
        ("name".to_string(), "string".to_string()),
        ("x".to_string(), "integer".to_string()),
        ("y".to_string(), "integer".to_string()),
    ];
    let schema = schema_description_from_fields(&fields);

    // Verify the schema contains our field names and types
    assert!(schema.contains("name"), "Schema should contain 'name' field");
    assert!(schema.contains("x"), "Schema should contain 'x' field");
    assert!(schema.contains("y"), "Schema should contain 'y' field");
    assert!(schema.contains("string"), "Schema should contain 'string' type");
    assert!(schema.contains("integer"), "Schema should contain 'integer' type");
    assert_eq!(
        schema,
        "JSON object with fields:\n{\n  \"name\": <string>,\n  \"x\": <integer>,\n  \"y\": <integer>\n}"
    );
}

#[test]
fn parse_extracts_json_from_various_formats() {
    // Test pure JSON
    let json = r#"{"name": "test", "x": 5, "y": 10}"#;
    let result = extract_and_parse_json(json).expect("should parse pure JSON");
    assert_eq!(json_get(&result, "name"), Some(&JsonValue::Str("test".to_string())));
    assert_eq!(json_get(&result, "x"), Some(&JsonValue::Number("5".to_string())));
    assert_eq!(json_get(&result, "y"), Some(&JsonValue::Number("10".to_string())));

    // Test JSON in code block
    let markdown = "Here's your action:\n```json\n{\"name\": \"player\", \"x\": 0, \"y\": 0}\n```\n";
    let result = extract_and_parse_json(markdown).expect("should parse from code block");
    assert_eq!(json_get(&result, "name"), Some(&JsonValue::Str("player".to_string())));

    // Test JSON embedded in text
    let mixed = r#"Sure! {"name": "enemy", "x": -5, "y": 15} That should work."#;
    let result = extract_and_parse_json(mixed).expect("should parse from mixed text");
    assert_eq!(json_get(&result, "name"), Some(&JsonValue::Str("enemy".to_string())));
    assert_eq!(json_get(&result, "x"), Some(&JsonValue::Number("-5".to_string())));
    assert_eq!(json_get(&result, "y"), Some(&JsonValue::Number("15".to_string())));
}

#[test]
fn typed_prompt_embeds_schema_and_request() {
    let p = build_typed_prompt("JSON object with fields:\n{\n  \"x\": <integer>\n}", "do it");
    assert!(p.starts_with("You must respond with ONLY a valid JSON object matching this schema:\n"));
    assert!(p.contains("\"x\": <integer>"));
    assert!(p.contains("User request: do it"));
    assert!(p.ends_with("Respond with only the JSON object, no explanation."));
}
