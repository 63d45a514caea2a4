use praxec_core::json::{Json, JsonMap, Number};
use praxec_core::runtime::agent::{affinity_for, auto_affinity, auto_effort, render_agent_data_block};

fn convert(v: &serde_json::Value) -> Json {
    match v {
        serde_json::Value::Null => Json::Null,
        serde_json::Value::Bool(b) => Json::Bool(*b),
        serde_json::Value::Number(n) => {
            if let Some(u) = n.as_u64() {
                Json::Number(Number::PosInt(u))
            } else if let Some(i) = n.as_i64() {
                Json::Number(Number::NegInt(i))
            } else {
                Json::Number(Number::Float(n.to_string()))
            }
        }
        serde_json::Value::String(s) => Json::Str(s.clone()),
        serde_json::Value::Array(a) => Json::Array(a.iter().map(convert).collect()),
        serde_json::Value::Object(m) => {
            let mut out = JsonMap::new();
            for (k, v) in m {
                out.insert(k.clone(), convert(v));
            }
            Json::Object(out)
        }
    }
}

fn json(text: &str) -> Json {
    convert(&serde_json::from_str::<serde_json::Value>(text).unwrap())
}

#[test]
fn test_auto_effort_context_override() {
    let context = json(r#"{"effort_override": "xhigh"}"#);
    let input = json("{}");
    assert_eq!(auto_effort(&context, &input), Some("xhigh".to_string()));
}

#[test]
fn test_auto_effort_input_override() {
    let context = json("{}");
    let input = json(r#"{"effort_override": "high"}"#);
    assert_eq!(auto_effort(&context, &input), Some("high".to_string()));
}

#[test]
fn test_auto_effort_empty_string() {
    let context = json(r#"{"effort_override": ""}"#);
    let input = json(r#"{"effort_override": "medium"}"#);
    assert_eq!(auto_effort(&context, &input), Some("medium".to_string()));

    let context = json(r#"{"effort_override": "low"}"#);
    let input = json(r#"{"effort_override": ""}"#);
    assert_eq!(auto_effort(&context, &input), Some("low".to_string()));

    let context = json(r#"{"effort_override": ""}"#);
    let input = json(r#"{"effort_override": ""}"#);
    assert_eq!(auto_effort(&context, &input), None);
}

#[test]
fn test_auto_effort_neither() {
    let context = json("{}");
    let input = json("{}");
    assert_eq!(auto_effort(&context, &input), None);
}

#[test]
fn affinity_for_implement_gives_coding() {
    assert_eq!(affinity_for("cognitive/cap.implement.build-loop", "reasoning"), "coding");
}

#[test]
fn affinity_for_plan_gives_default() {
    assert_eq!(affinity_for("cognitive/cap.plan.technical-design", "reasoning"), "reasoning");
}

#[test]
fn affinity_for_refactor_gives_coding() {
    assert_eq!(affinity_for("cognitive/cap.refactor.cleanup", "reasoning"), "coding");
}

#[test]
fn affinity_for_run_gives_coding() {
    assert_eq!(affinity_for("cognitive/cap.run.tests", "reasoning"), "coding");
}

#[test]
fn affinity_for_scaffold_gives_coding() {
    assert_eq!(affinity_for("cognitive/cap.scaffold.new-service", "reasoning"), "coding");
}

#[test]
fn affinity_for_unknown_id_gives_default() {
    assert_eq!(affinity_for("something/totally/unknown", "reasoning"), "reasoning");
}

#[test]
fn affinity_for_empty_gives_default() {
    assert_eq!(affinity_for("", "reasoning"), "reasoning");
}

#[test]
fn auto_affinity_context_wins_over_input_and_verb() {
    let ctx = json(r#"{"affinity_override": "reasoning"}"#);
    let input = json(r#"{"affinity_override": "coding"}"#);
    assert_eq!(
        auto_affinity(None, &ctx, &input, "cognitive/cap.implement.tdd.discipline", "reasoning"),
        "reasoning"
    );
}

#[test]
fn auto_affinity_input_wins_when_context_absent() {
    let ctx = json("{}");
    let input = json(r#"{"affinity_override": "coding"}"#);
    assert_eq!(
        auto_affinity(None, &ctx, &input, "cognitive/cap.plan.technical-design", "reasoning"),
        "coding"
    );
}

#[test]
fn auto_affinity_falls_back_when_both_absent() {
    let ctx = json("{}");
    let input = json("{}");
    assert_eq!(
        auto_affinity(None, &ctx, &input, "cognitive/cap.implement.build-loop", "reasoning"),
        "coding"
    );
}

#[test]
fn auto_affinity_empty_context_skipped_input_applies() {
    let ctx = json(r#"{"affinity_override": ""}"#);
    let input = json(r#"{"affinity_override": "coding"}"#);
    assert_eq!(
        auto_affinity(None, &ctx, &input, "cognitive/cap.plan.technical-design", "reasoning"),
        "coding"
    );
}

#[test]
fn auto_affinity_empty_context_empty_input_falls_back() {
    let ctx = json(r#"{"affinity_override": "  "}"#);
    let input = json(r#"{"affinity_override": ""}"#);
    assert_eq!(
        auto_affinity(None, &ctx, &input, "cognitive/cap.implement.build-loop", "reasoning"),
        "coding"
    );
}

#[test]
fn auto_affinity_context_override_wins_over_input_override() {
    let ctx = json(r#"{"affinity_override": "reasoning"}"#);
    let input = json(r#"{"affinity_override": "coding"}"#);
    assert_eq!(
        auto_affinity(None, &ctx, &input, "cognitive/cap.implement.build-loop", "reasoning"),
        "reasoning"
    );
}

#[test]
fn auto_affinity_of_the_state_wins_over_all() {
    let ctx = json(r#"{"affinity_override": "reasoning"}"#);
    assert_eq!(
        auto_affinity(Some(" vision "), &ctx, &json("{}"), "cognitive/cap.run.x", "reasoning"),
        "vision"
    );
}

#[test]
fn an_agent_data_block_holds_the_data() {
    assert_eq!(
        render_agent_data_block("INPUT", &json(r#"{ "goal": "ship", "_private": 1 }"#)),
        "\n\nINPUT:\n{\n  \"goal\": \"ship\"\n}"
    );
    assert_eq!(render_agent_data_block("INPUT", &json(r#"{ "_private": 1 }"#)), "");
    assert_eq!(render_agent_data_block("INPUT", &json("[1]")), "");
}
