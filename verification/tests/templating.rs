use praxec_core::json::{Json, JsonMap, Number};
use praxec_core::model::{Timestamp, WorkflowInstance};
use praxec_core::run_env::{RepoRoot, RunEnv};
use praxec_core::templating::{render_template, resolve_template_path};

fn convert(v: &serde_json::Value) -> Json {
    match v {
        serde_json::Value::Null => Json::Null,
        serde_json::Value::Bool(b) => Json::Bool(*b),
        serde_json::Value::Number(n) => {
            if let Some(u) = n.as_u64() {
                Json::Number(Number::PosInt(u))
            } else if let Some(i) = n.as_i64() {
                Json::Number(Number::NegInt(i))
            } else {
                Json::Number(Number::Float(n.to_string()))
            }
        }
        serde_json::Value::String(s) => Json::Str(s.clone()),
        serde_json::Value::Array(a) => Json::Array(a.iter().map(convert).collect()),
        serde_json::Value::Object(m) => {
            let mut out = JsonMap::new();
            for (k, v) in m {
                out.insert(k.clone(), convert(v));
            }
            Json::Object(out)
        }
    }
}

fn json(text: &str) -> Json {
    convert(&serde_json::from_str::<serde_json::Value>(text).unwrap())
}

fn root() -> RepoRoot {
    match RepoRoot::from_persisted("/tmp/praxec-root".to_string()) {
        Ok(r) => r,
        Err(e) => panic!("{}", e.message()),
    }
}

fn instance() -> WorkflowInstance {
    WorkflowInstance {
        id: "wf".to_string(),
        definition_id: "d".to_string(),
        definition_version: "1".to_string(),
        definition: json("{}"),
        state: "s".to_string(),
        version: 1,
        input: json("{}"),
        context: json("{}"),
        started_at: Timestamp::new(1_700_000_000, 0).unwrap(),
        run_env: RunEnv::for_test(root()),
        cancelled_at: None,
        cancelled_reason: None,
        depth: 0,
        parent: None,
    }
}

#[test]
fn templating_resolves_run_repo_root_to_the_ambient_root() {
    let inst = instance();
    let rendered = render_template("{{ $.run.repo_root }}", &inst);
    assert_eq!(rendered, inst.run_env.repo_root.as_str());
}

#[test]
fn templating_does_not_prefix_match_run_repo_root() {
    let inst = instance();
    let rendered = render_template("{{ $.run.repo_root.x }}", &inst);
    assert_ne!(rendered, inst.run_env.repo_root.as_str());
    assert_eq!(rendered, "(x: unset)");
}

#[test]
fn places_are_filled_in_from_the_instance() {
    let mut inst = instance();
    inst.context = json(r#"{ "name": "Ada", "n": 3, "deep": { "list": [1, 2] }, "none": null }"#);
    inst.input = json(r#"{ "goal": "ship" }"#);
    inst.definition = json(r#"{ "_authoringPrefs": { "tone": "dry" } }"#);
    assert_eq!(
        render_template("{{$.workflow.id}}/{{ $.workflow.state }}@{{$.workflow.version}}", &inst),
        "wf/s@1"
    );
    assert_eq!(render_template("Hi {{ $.context.name }}!", &inst), "Hi Ada!");
    assert_eq!(render_template("{{ $.context.n }}", &inst), "3");
    assert_eq!(render_template("{{ $.context.deep.list }}", &inst), "[1,2]");
    assert_eq!(render_template("{{ $.context.deep.list.1 }}", &inst), "2");
    assert_eq!(render_template("{{ $.context.none }}", &inst), "(null)");
    assert_eq!(render_template("{{ $.context.gone.away }}", &inst), "(away: unset)");
    assert_eq!(render_template("{{ $.workflow.input.goal }}", &inst), "ship");
    assert_eq!(render_template("{{ $.praxec.authoring.tone }}", &inst), "dry");
    assert_eq!(resolve_template_path("nonsense", &inst), "(nonsense: unset)");
}

#[test]
fn text_without_places_is_kept() {
    let inst = instance();
    for text in ["", "plain", "a } b", "open {{ without an end", "{ $.workflow.id }"] {
        assert_eq!(render_template(text, &inst), text);
    }
    assert_eq!(render_template("{{ }}", &inst), "{{}}");
}

#[test]
fn what_is_filled_in_is_not_read_again() {
    let mut inst = instance();
    inst.context = json(r#"{ "sly": "{{ $.workflow.id }}" }"#);
    assert_eq!(
        render_template("{{ $.context.sly }} {{ $.workflow.id }}", &inst),
        "{{ $.workflow.id }} wf"
    );
}
