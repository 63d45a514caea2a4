use praxec_core::json::{Json, JsonMap, Number};
use praxec_core::structural_fingerprint::{
    exact_duplicate_groups, features, fingerprint, fingerprint_catalog, overlaps, shared_features, structural_form,
    FlowFingerprint,
};

fn convert(v: &serde_json::Value) -> Json {
    match v {
        serde_json::Value::Null => Json::Null,
        serde_json::Value::Bool(b) => Json::Bool(*b),
        serde_json::Value::Number(n) => {
            if let Some(u) = n.as_u64() {
                Json::Number(Number::PosInt(u))
            } else if let Some(i) = n.as_i64() {
                Json::Number(Number::NegInt(i))
            } else {
                Json::Number(Number::Float(n.to_string()))
            }
        }
        serde_json::Value::String(s) => Json::Str(s.clone()),
        serde_json::Value::Array(a) => Json::Array(a.iter().map(convert).collect()),
        serde_json::Value::Object(m) => {
            let mut out = JsonMap::new();
            for (k, v) in m {
                out.insert(k.clone(), convert(v));
            }
            Json::Object(out)
        }
    }
}

fn json(text: &str) -> Json {
    convert(&serde_json::from_str::<serde_json::Value>(text).unwrap())
}

fn flow() -> Json {
    json(
        r#"{
            "initialState": "start",
            "states": {
                "start": { "transitions": { "go": { "target": "done", "executor": { "kind": "noop" } } } },
                "done":  { "terminal": true }
            }
        }"#,
    )
}

#[test]
fn fingerprint_is_sha256_prefixed_and_deterministic() {
    let h = fingerprint(&flow());
    assert!(h.starts_with("sha256:"));
    assert_eq!(h.len(), "sha256:".len() + 64);
    assert_eq!(h, fingerprint(&flow()));
}

#[test]
fn guard_declaration_order_does_not_move_the_hash() {
    let mk = |guards: &str| {
        json(&format!(
            r#"{{
                "initialState": "s",
                "states": {{ "s": {{ "transitions": {{ "go": {{ "target": "s", "guards": {guards} }} }} }} }}
            }}"#
        ))
    };
    let a = mk(
        r#"[{ "kind": "role", "role": "admin" }, { "kind": "expr", "expr": "$.context.ok == true" }]"#,
    );
    let b = mk(
        r#"[{ "kind": "expr", "expr": "$.context.ok == true" }, { "kind": "role", "role": "admin" }]"#,
    );
    assert_eq!(fingerprint(&a), fingerprint(&b));
}

#[test]
fn parallel_branch_order_does_not_move_the_hash() {
    let mk = |branches: &str| {
        json(&format!(
            r#"{{
                "initialState": "s",
                "states": {{ "s": {{ "transitions": {{ "go": {{
                    "target": "s",
                    "executor": {{ "kind": "parallel", "branches": {branches} }}
                }} }} }} }}
            }}"#
        ))
    };
    let a = mk(r#"[{ "kind": "noop" }, { "kind": "script", "subject": "check.x" }]"#);
    let b = mk(r#"[{ "kind": "script", "subject": "check.x" }, { "kind": "noop" }]"#);
    assert_eq!(fingerprint(&a), fingerprint(&b));
}

#[test]
fn json_schema_property_named_title_survives_prose_stripping() {
    let with_title = json(
        r#"{
            "initialState": "s",
            "states": { "s": { "transitions": { "go": {
                "target": "s",
                "inputSchema": { "type": "object", "properties": { "title": { "type": "string" } } }
            } } } }
        }"#,
    );
    let without = json(
        r#"{
            "initialState": "s",
            "states": { "s": { "transitions": { "go": {
                "target": "s",
                "inputSchema": { "type": "object", "properties": {} }
            } } } }
        }"#,
    );
    assert_ne!(fingerprint(&with_title), fingerprint(&without));
}

#[test]
fn prose_and_blocks_outside_the_graph_do_not_move_the_hash() {
    let reworded = json(
        r#"{
            "title": "Another title", "description": "Other words", "version": "2.0.0", "tags": ["x"],
            "initialState": "start",
            "states": {
                "start": {
                    "goal": "Get going",
                    "transitions": { "go": {
                        "title": "Go!", "target": "done",
                        "executor": { "kind": "noop", "description": "nothing" }
                    } }
                },
                "done":  { "terminal": true, "guidance": "all done" }
            }
        }"#,
    );
    assert_eq!(fingerprint(&flow()), fingerprint(&reworded));
    assert!(structural_form(&flow()).equals(&structural_form(&reworded)));
}

#[test]
fn the_graph_moves_the_hash() {
    let changed = [
        r#"{ "initialState": "done", "states": {
            "start": { "transitions": { "go": { "target": "done", "executor": { "kind": "noop" } } } },
            "done":  { "terminal": true } } }"#,
        r#"{ "initialState": "start", "states": {
            "start": { "transitions": { "go": { "target": "start", "executor": { "kind": "noop" } } } },
            "done":  { "terminal": true } } }"#,
        r#"{ "initialState": "start", "states": {
            "start": { "transitions": { "run": { "target": "done", "executor": { "kind": "noop" } } } },
            "done":  { "terminal": true } } }"#,
        r#"{ "initialState": "start", "states": {
            "start": { "transitions": { "go": { "target": "done", "executor": { "kind": "script" } } } },
            "done":  { "terminal": true } } }"#,
        r#"{ "initialState": "start", "states": {
            "start": { "transitions": { "go": { "target": "done", "executor": { "kind": "noop" } } } },
            "done":  {} } }"#,
    ];
    for text in changed {
        assert_ne!(fingerprint(&flow()), fingerprint(&json(text)), "{text}");
    }
}

#[test]
fn features_are_the_facts_of_the_machine() {
    assert_eq!(
        features(&flow()),
        vec![
            "edge:start-go->done".to_string(),
            "exec:start.go:noop".to_string(),
            "initial:start".to_string(),
            "state:done".to_string(),
            "state:start".to_string(),
            "terminal:done".to_string(),
        ]
    );
    let f = features(&flow());
    assert!(f.windows(2).all(|w| w[0] < w[1]));
    assert_eq!(shared_features(&f, &f), f.len());
    assert_eq!(shared_features(&f, &vec!["state:done".to_string()]), 1);
    assert_eq!(shared_features(&f, &vec![]), 0);
}

#[test]
fn flows_of_the_same_machine_are_grouped() {
    let mut workflows = JsonMap::new();
    workflows.insert("flow.b".to_string(), flow());
    workflows.insert("flow.a".to_string(), flow());
    workflows.insert("flow.c".to_string(), json(r#"{ "initialState": "x", "states": {} }"#));
    let catalog = fingerprint_catalog(&workflows);
    assert_eq!(catalog.len(), 3);
    assert_eq!(catalog[0].id, "flow.a");
    assert_eq!(
        exact_duplicate_groups(&catalog),
        vec![vec!["flow.a".to_string(), "flow.b".to_string()]]
    );
    let one = FlowFingerprint::compute("flow.a", &flow());
    assert_eq!(one.fingerprint, catalog[1].fingerprint);
    assert!(exact_duplicate_groups(&vec![one]).is_empty());
}

#[test]
fn flows_that_differ_are_compared_by_their_facts() {
    let other = json(
        r#"{
            "initialState": "start",
            "states": {
                "start": { "transitions": { "go": { "target": "end", "executor": { "kind": "noop" } } } },
                "end":  { "terminal": true }
            }
        }"#,
    );
    let catalog = vec![
        FlowFingerprint::compute("flow.z", &flow()),
        FlowFingerprint::compute("flow.same", &flow()),
        FlowFingerprint::compute("flow.a", &other),
    ];
    let found = overlaps(&catalog);
    assert_eq!(found.len(), 2);
    assert_eq!((found[0].a.as_str(), found[0].b.as_str()), ("flow.a", "flow.z"));
    assert_eq!((found[0].shared, found[0].only_a, found[0].only_b), (3, 3, 3));
    assert_eq!((found[1].a.as_str(), found[1].b.as_str()), ("flow.a", "flow.same"));
    assert!(overlaps(&vec![]).is_empty());
}

fn known(id: &str, fingerprint: &str) -> FlowFingerprint {
    FlowFingerprint {
        id: id.to_string(),
        fingerprint: fingerprint.to_string(),
        features: vec![],
    }
}

#[test]
fn groups_do_not_depend_on_the_order_of_the_catalog() {
    let expected = vec![
        vec!["a".to_string(), "d".to_string()],
        vec!["b".to_string(), "c".to_string(), "f".to_string()],
    ];
    let ids = [("f", "2"), ("d", "1"), ("c", "2"), ("e", "3"), ("b", "2"), ("a", "1")];
    let one: Vec<FlowFingerprint> = ids.iter().map(|(i, p)| known(i, p)).collect();
    let other: Vec<FlowFingerprint> = ids.iter().rev().map(|(i, p)| known(i, p)).collect();
    assert_eq!(exact_duplicate_groups(&one), expected);
    assert_eq!(exact_duplicate_groups(&other), expected);
}

#[test]
fn many_idle_changes_leave_the_hash_alone() {
    let a = json(
        r#"{
            "initialState": "s",
            "states": { "s": { "transitions": { "go": {
                "target": "s",
                "guards": [{ "kind": "role", "role": "x" }, { "kind": "expr", "expr": "y" }]
            } } } }
        }"#,
    );
    let b = json(
        r#"{
            "title": "T", "version": "9",
            "states": { "s": { "goal": "G", "transitions": { "go": {
                "description": "D",
                "guards": [{ "expr": "y", "kind": "expr", "title": "W" }, { "kind": "role", "role": "x" }],
                "target": "s"
            } } } },
            "initialState": "s"
        }"#,
    );
    assert_eq!(fingerprint(&a), fingerprint(&b));
}
