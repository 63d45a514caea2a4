use praxec_core::json::{Json, JsonMap, Number};
use praxec_core::slot::slot_constraint::{
    check_path_allowlist, check_subset_of, evaluate_constraints, validate_constraints_in_definition,
};
use praxec_core::slot::slot_table::{assert_reachable, build_slot_table, SlotSource, SlotTable};

fn convert(v: &serde_json::Value) -> Json {
    match v {
        serde_json::Value::Null => Json::Null,
        serde_json::Value::Bool(b) => Json::Bool(*b),
        serde_json::Value::Number(n) => {
            if let Some(u) = n.as_u64() {
                Json::Number(Number::PosInt(u))
            } else if let Some(i) = n.as_i64() {
                Json::Number(Number::NegInt(i))
            } else {
                Json::Number(Number::Float(n.to_string()))
            }
        }
        serde_json::Value::String(s) => Json::Str(s.clone()),
        serde_json::Value::Array(a) => Json::Array(a.iter().map(convert).collect()),
        serde_json::Value::Object(m) => {
            let mut out = JsonMap::new();
            for (k, v) in m {
                out.insert(k.clone(), convert(v));
            }
            Json::Object(out)
        }
    }
}

fn json(text: &str) -> Json {
    convert(&serde_json::from_str::<serde_json::Value>(text).unwrap())
}

fn caps(text: &str) -> JsonMap {
    match json(text) {
        Json::Object(m) => m,
        _ => panic!("capabilities are an object"),
    }
}

fn cap_outputs() -> JsonMap {
    caps(r#"{ "cap.plan.vet": { "verdict": { "type": "string", "enum": ["pass", "fail"] } } }"#)
}

#[test]
fn path_allowlist_star_does_not_span_separator() {
    let value = json(r#"["allowed/a", "allowed/a/b"]"#);
    let params = json(r#"{ "allow": ["allowed/*"] }"#);
    let err = check_path_allowlist("paths", &params, &value).err().unwrap();
    assert!(err.message.contains("allowed/a/b"), "{}", err.message);
}

#[test]
fn path_allowlist_single_segment_passes() {
    let value = json(r#"["allowed/a"]"#);
    let params = json(r#"{ "allow": ["allowed/*"] }"#);
    assert!(check_path_allowlist("paths", &params, &value).is_ok());
}

#[test]
fn path_allowlist_double_star_spans_separator() {
    let value = json(r#"["allowed/a/b/c"]"#);
    let params = json(r#"{ "allow": ["allowed/**"] }"#);
    assert!(check_path_allowlist("paths", &params, &value).is_ok());
}

#[test]
fn path_denylist_wins_over_the_allowlist() {
    let value = json(r#"["src/secret.rs"]"#);
    let params = json(r#"{ "allow": ["src/*"], "deny": ["src/secret*"] }"#);
    let err = check_path_allowlist("paths", &params, &value).err().unwrap();
    assert_eq!(err.slot, "paths");
    assert_eq!(err.constraint_kind, "path_allowlist");
    assert!(err.message.contains("src/secret.rs"));
}

#[test]
fn a_pattern_that_does_not_parse_is_refused_when_the_definition_is_loaded() {
    let def = json(
        r#"{ "blackboard": { "files": { "constraint": { "path_allowlist": { "allow": ["src/["] } } } } }"#,
    );
    assert!(validate_constraints_in_definition(&def).is_err());
    let good = json(
        r#"{ "blackboard": { "files": { "constraint": { "path_allowlist": { "allow": ["src/*"] } } } } }"#,
    );
    assert!(validate_constraints_in_definition(&good).is_ok());
}

#[test]
fn a_subset_holds_only_members_of_the_other_slot() {
    let context = json(r#"{ "scope": ["a", "b"] }"#);
    let params = json(r#""$.context.scope""#);
    assert!(check_subset_of("picked", &params, &json(r#"["a"]"#), &context).is_ok());
    let err = check_subset_of("picked", &params, &json(r#"["a", "z"]"#), &context).err().unwrap();
    assert_eq!(err.constraint_kind, "subset_of");
}

#[test]
fn constraints_are_held_against_the_context() {
    let def = json(
        r#"{
            "blackboard": { "files": { "constraint": { "path_allowlist": { "allow": ["src/*"] } } } },
            "states": { "s": {} }
        }"#,
    );
    assert!(evaluate_constraints(&def, "s", &json(r#"{ "files": ["src/a.rs"] }"#)).is_ok());
    let err = evaluate_constraints(&def, "s", &json(r#"{ "files": ["etc/passwd"] }"#)).err().unwrap();
    assert_eq!(err.slot, "files");
    assert!(evaluate_constraints(&def, "s", &json("{}")).is_ok());
}

#[test]
fn constraint_under_array_blackboard_is_rejected() {
    let def = json(
        r#"{
            "blackboard": [
                { "name": "files", "constraint": { "path_allowlist": { "allow": ["src/*"] } } }
            ]
        }"#,
    );
    let err = validate_constraints_in_definition(&def).unwrap_err();
    assert!(err.contains("CONSTRAINT_REQUIRES_OBJECT_BLACKBOARD"), "{err}");
}

#[test]
fn array_blackboard_without_constraint_is_ok() {
    let def = json(r#"{ "blackboard": ["files", "verdict"] }"#);
    assert!(validate_constraints_in_definition(&def).is_ok());
}

#[test]
fn constraint_under_array_state_slots_is_rejected() {
    let def = json(
        r#"{
            "states": {
                "s1": {
                    "slots": [
                        { "name": "x", "constraint": { "subset_of": "$.context.scope" } }
                    ]
                }
            }
        }"#,
    );
    let err = validate_constraints_in_definition(&def).unwrap_err();
    assert!(err.contains("CONSTRAINT_REQUIRES_OBJECT_BLACKBOARD"), "{err}");
}

#[test]
fn build_seeds_from_inputs_block() {
    let orch = json(r#"{ "inputs": { "feature_brief": { "type": "string" } }, "states": {} }"#);
    let t = build_slot_table(&orch, &JsonMap::new()).ok().unwrap();
    let entry = t.get("$.context.feature_brief").unwrap();
    assert!(matches!(entry.source, SlotSource::Input));
    assert_eq!(t.len(), 1);
    assert!(!t.is_empty());
    assert_eq!(t.iter().len(), 1);
}

#[test]
fn build_harvests_use_outputs_from_states() {
    let orch = json(
        r#"{
            "states": { "vetting": { "transitions": { "vet": { "executor": {
                "kind": "workflow",
                "definitionId": "cap.plan.vet",
                "use": { "outputs": { "$.context.verdict": "verdict" } }
            } } } } }
        }"#,
    );
    let t = build_slot_table(&orch, &cap_outputs()).ok().unwrap();
    let entry = t.get("$.context.verdict").unwrap();
    assert!(matches!(&entry.source, SlotSource::State(s) if s == "vetting"));
    assert_eq!(entry.schema.pointer("/type").and_then(|v| v.as_str()), Some("string"));
}

#[test]
fn build_flags_v14_when_two_states_write_incompatible_types() {
    let caps = caps(r#"{ "cap.a": { "v": { "type": "string" } }, "cap.b": { "v": { "type": "integer" } } }"#);
    let orch = json(
        r#"{
            "states": {
                "s1": { "transitions": { "t1": { "executor": {
                    "kind": "workflow", "definitionId": "cap.a",
                    "use": { "outputs": { "$.context.x": "v" } }
                } } } },
                "s2": { "transitions": { "t1": { "executor": {
                    "kind": "workflow", "definitionId": "cap.b",
                    "use": { "outputs": { "$.context.x": "v" } }
                } } } }
            }
        }"#,
    );
    let err = build_slot_table(&orch, &caps).err().unwrap();
    assert!(err.iter().any(|d| d.message().contains("SLOT_TYPE_CONFLICT")));
    assert!(err[0].message().contains("state 's1'") && err[0].message().contains("state 's2'"));
}

#[test]
fn writers_of_one_type_agree_and_the_first_is_named() {
    let caps = caps(r#"{ "cap.a": { "v": { "type": "string" } }, "cap.b": { "w": { "type": "string" } } }"#);
    let orch = json(
        r#"{
            "states": {
                "s1": { "transitions": { "t1": { "executor": {
                    "kind": "workflow", "definitionId": "cap.a",
                    "use": { "outputs": { "$.context.x": "v" } }
                } } } },
                "s2": { "transitions": { "t1": { "executor": {
                    "kind": "workflow", "definitionId": "cap.b",
                    "use": { "outputs": { "$.context.x": "w" } }
                } } } }
            }
        }"#,
    );
    let t = build_slot_table(&orch, &caps).ok().unwrap();
    assert!(matches!(&t.get("$.context.x").unwrap().source, SlotSource::State(s) if s == "s1"));
}

#[test]
fn build_flags_unknown_cap_output() {
    let orch = json(
        r#"{
            "states": { "vetting": { "transitions": { "vet": { "executor": {
                "kind": "workflow",
                "definitionId": "cap.plan.vet",
                "use": { "outputs": { "$.context.verdict": "nonexistent" } }
            } } } } }
        }"#,
    );
    let err = build_slot_table(&orch, &cap_outputs()).err().unwrap();
    assert!(err
        .iter()
        .any(|d| d.message().contains("UNKNOWN_CAP_OUTPUT") && d.message().contains("nonexistent")));
}

#[test]
fn build_flags_unknown_cap_output_target() {
    let orch = json(
        r#"{
            "states": { "vetting": { "transitions": { "vet": { "executor": {
                "kind": "workflow",
                "definitionId": "cap.does.not.exist",
                "use": { "outputs": { "$.context.verdict": "verdict" } }
            } } } } }
        }"#,
    );
    let err = build_slot_table(&orch, &JsonMap::new()).err().unwrap();
    assert!(err.iter().any(|d| d.message().contains("UNKNOWN_CAP_OUTPUT_TARGET")
        && d.message().contains("cap.does.not.exist")));
}

#[test]
fn build_allows_null_schema_when_output_declared() {
    let caps = caps(r#"{ "cap.x": { "out": null } }"#);
    let orch = json(
        r#"{
            "states": { "s": { "transitions": { "t": { "executor": {
                "kind": "workflow", "definitionId": "cap.x",
                "use": { "outputs": { "$.context.v": "out" } }
            } } } } }
        }"#,
    );
    let t = build_slot_table(&orch, &caps).ok().unwrap();
    assert!(t.get("$.context.v").is_some());
}

#[test]
fn assert_reachable_returns_none_for_declared_slot() {
    let orch = json(r#"{ "inputs": { "x": { "type": "string" } }, "states": {} }"#);
    let t = build_slot_table(&orch, &JsonMap::new()).ok().unwrap();
    assert!(assert_reachable(&t, "$.context.x", "flow", "s", "t").is_none());
}

#[test]
fn assert_reachable_returns_diagnostic_for_undeclared_slot() {
    let t = SlotTable::default();
    let d = assert_reachable(&t, "$.context.missing", "flow", "s", "t").unwrap();
    assert!(d.message().contains("UNREACHABLE_SLOT"));
    assert!(d.message().contains("$.context.missing"));
}

#[test]
fn assert_reachable_allows_subfield_of_a_declared_object_slot() {
    let orch = json(r#"{ "inputs": { "schedule": { "type": "object" } }, "states": {} }"#);
    let t = build_slot_table(&orch, &JsonMap::new()).ok().unwrap();
    assert!(assert_reachable(&t, "$.context.schedule.plan_id", "flow", "s", "t").is_none());
}

#[test]
fn assert_reachable_still_rejects_subfield_of_an_undeclared_slot() {
    let t = SlotTable::default();
    let d = assert_reachable(&t, "$.context.nope.plan_id", "flow", "s", "t").unwrap();
    assert!(d.message().contains("UNREACHABLE_SLOT"));
}

#[test]
fn schemas_of_one_slot_are_held_against_each_other_as_texts() {
    let caps = caps(
        r#"{ "cap.a": { "v": { "const": 0.0, "type": "number" } }, "cap.b": { "v": { "const": -0.0, "type": "number" } } }"#,
    );
    let flow = |target: &str| {
        json(&format!(
            r#"{{
                "inputs": {{ "x": {{ "type": "number", "const": 0.0 }} }},
                "states": {{ "s": {{ "transitions": {{ "t": {{ "executor": {{
                    "kind": "workflow", "definitionId": "{target}",
                    "use": {{ "outputs": {{ "$.context.x": "v" }} }}
                }} }} }} }} }}
            }}"#
        ))
    };
    let t = build_slot_table(&flow("cap.a"), &caps).ok().unwrap();
    assert!(matches!(&t.get("$.context.x").unwrap().source, SlotSource::Input));
    let err = build_slot_table(&flow("cap.b"), &caps).err().unwrap();
    assert_eq!(err.len(), 1);
    assert!(err[0].message().contains("SLOT_TYPE_CONFLICT: '$.context.x'"));
}
