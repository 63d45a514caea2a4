use praxec_core::json::{Json, JsonMap, Number};
use praxec_core::model::{Principal, Timestamp, WorkflowInstance};
use praxec_core::pointer::pointer_escape;
use praxec_core::repo_locks::{RepoLockSpace, RepoLocks};
use praxec_core::run_env::{RepoRoot, RepoRootError, RunEnv};
use praxec_core::runtime::context::{clear_state_local_slots_on_exit, read_counter_slot};
use praxec_core::runtime::links::{links, push_failed_chain_recovery_link, push_state_recovery_links};
use praxec_core::runtime::records::{blackboard_delta, slot_checks, validate_blackboard_writes};
use praxec_core::runtime::response::evaluate_outcomes;
use praxec_core::runtime::runtime::WorkflowRuntime;
use praxec_core::runtime::schema::{apply_schema_defaults, required_str, validate_schema, SchemaVerdict};
use praxec_core::runtime::script::{Effect, GuardFault, Reply, Step};
use praxec_core::shared::{Handle, Shared};

fn convert(v: &serde_json::Value) -> Json {
    match v {
        serde_json::Value::Null => Json::Null,
        serde_json::Value::Bool(b) => Json::Bool(*b),
        serde_json::Value::Number(n) => {
            if let Some(u) = n.as_u64() {
                Json::Number(Number::PosInt(u))
            } else if let Some(i) = n.as_i64() {
                Json::Number(Number::NegInt(i))
            } else {
                Json::Number(Number::Float(n.to_string()))
            }
        }
        serde_json::Value::String(s) => Json::Str(s.clone()),
        serde_json::Value::Array(a) => Json::Array(a.iter().map(convert).collect()),
        serde_json::Value::Object(m) => {
            let mut out = JsonMap::new();
            for (k, v) in m {
                out.insert(k.clone(), convert(v));
            }
            Json::Object(out)
        }
    }
}

fn json(text: &str) -> Json {
    convert(&serde_json::from_str::<serde_json::Value>(text).unwrap())
}

type Runtime = WorkflowRuntime<(), (), (), (), (), (), (), ()>;

fn runtime() -> Runtime {
    Runtime::new((), (), (), (), ())
}

fn root(path: &str) -> RepoRoot {
    match RepoRoot::from_persisted(path.to_string()) {
        Ok(r) => r,
        Err(e) => panic!("{}", e.message()),
    }
}

fn inst(id: &str, definition: Json, state: &str) -> WorkflowInstance {
    WorkflowInstance {
        id: id.to_string(),
        definition_id: "demo".to_string(),
        definition_version: "1.0.0".to_string(),
        definition,
        state: state.to_string(),
        version: 0,
        input: json("{}"),
        context: json("{}"),
        started_at: Timestamp::new(1_700_000_000, 0).unwrap(),
        run_env: RunEnv::for_test(root("/tmp/praxec-root")),
        cancelled_at: None,
        cancelled_reason: None,
        depth: 0,
        parent: None,
    }
}

fn running_def() -> Json {
    json(
        r#"{
            "initialState": "working",
            "states": {
                "working": { "transitions": { "go": { "target": "done", "actor": "agent" } } },
                "done": { "terminal": true }
            }
        }"#,
    )
}

#[test]
fn reap_cancels_only_orphaned_running_instances() {
    let human = json(
        r#"{
            "initialState": "gate",
            "states": {
                "gate": { "actor": "human", "transitions": { "ok": { "target": "done" } } },
                "done": { "terminal": true }
            }
        }"#,
    );
    let mut locked = inst("wf_lock", running_def(), "working");
    locked.context = json(r#"{ "_lock_wait": { "files": ["a"] } }"#);
    let mut cancelled = inst("wf_cancelled", running_def(), "working");
    cancelled.cancelled_at = Timestamp::new(1_700_000_001, 0);
    let all = vec![
        inst("wf_running", running_def(), "working"),
        inst("wf_human", human, "gate"),
        locked,
        inst("wf_done", running_def(), "done"),
        cancelled,
    ];
    let reaped = runtime().reap_orphaned_runs(&all);
    assert_eq!(reaped.len(), 1);
    assert_eq!(reaped[0].0, "wf_running");
}

#[test]
fn reap_quarantines_an_over_budget_agent_await_instance() {
    let mut wedged = inst("wf_livelock", running_def(), "working");
    wedged.context = json(r#"{ "_agent_await": { "correlation_id": "x" }, "_chain_hops_total": 300 }"#);
    let mut healthy = inst("wf_await", running_def(), "working");
    healthy.context = json(r#"{ "_agent_await": { "correlation_id": "y" }, "_chain_hops_total": 12 }"#);
    let reaped = runtime().reap_orphaned_runs(&vec![wedged, healthy]);
    assert_eq!(reaped.len(), 1);
    assert_eq!(reaped[0].0, "wf_livelock");
    assert!(reaped[0].1.contains("livelock_quarantine"), "{}", reaped[0].1);
}

#[test]
fn exact_declared_root_resolves() {
    let rt = runtime().with_writable_repo_roots(vec![root("/srv/repo")]);
    let got = rt
        .resolve_run_repo_root(Some(("/srv/repo", Ok(root("/srv/repo")))))
        .ok()
        .unwrap();
    assert_eq!(got.as_str(), "/srv/repo");
}

#[test]
fn subpath_of_a_declared_root_resolves_to_that_subpath() {
    let rt = runtime().with_writable_repo_roots(vec![root("/srv/repo")]);
    let sub = "/srv/repo/worktrees/feature-x";
    let got = rt.resolve_run_repo_root(Some((sub, Ok(root(sub))))).ok().unwrap();
    assert_eq!(got.as_path(), sub);
}

#[test]
fn path_outside_every_declared_root_is_rejected() {
    let rt = runtime().with_writable_repo_roots(vec![root("/srv/repo")]);
    let err = rt
        .resolve_run_repo_root(Some(("/srv/elsewhere", Ok(root("/srv/elsewhere")))))
        .err()
        .unwrap();
    assert!(err.contains("REPO_ROOT_OUTSIDE_ALLOWLIST"), "{err}");
}

#[test]
fn nonexistent_selector_is_rejected_as_unknown() {
    let rt = runtime().with_writable_repo_roots(vec![root("/srv/repo")]);
    let raw = "/definitely/not/here/praxec-fb3-xyz";
    let gone = RepoRootError::Canonicalize {
        path: raw.to_string(),
        source: "No such file or directory (os error 2)".to_string(),
    };
    let err = rt.resolve_run_repo_root(Some((raw, Err(gone)))).err().unwrap();
    assert!(err.contains("REPO_ROOT_UNKNOWN"), "{err}");
}

#[test]
fn sibling_with_shared_string_prefix_is_not_a_subpath() {
    let rt = runtime().with_writable_repo_roots(vec![root("/srv/repo")]);
    let err = rt
        .resolve_run_repo_root(Some(("/srv/repo-foo", Ok(root("/srv/repo-foo")))))
        .err()
        .unwrap();
    assert!(err.contains("REPO_ROOT_OUTSIDE_ALLOWLIST"));
}

#[test]
fn resolve_fails_fast_on_empty_writable_set() {
    let err = runtime().resolve_run_repo_root(None).err().unwrap();
    assert!(err.contains("REPO_ROOT_REQUIRED"), "{err}");
}

#[test]
fn set_writable_repo_roots_rewires_resolution_and_snapshot() {
    let mut rt = runtime();
    assert!(rt.resolve_run_repo_root(None).is_err());
    assert!(rt.writable_repo_roots_snapshot().is_empty());
    rt.set_writable_repo_roots(vec![root("/srv/repo")]);
    assert_eq!(rt.resolve_run_repo_root(None).ok().unwrap().as_str(), "/srv/repo");
    assert_eq!(rt.writable_repo_roots_snapshot(), vec!["/srv/repo".to_string()]);
}

#[test]
fn swap_is_visible_through_a_runtime_clone() {
    let mut runtimes = Shared::new();
    let rt = runtimes.share(runtime());
    let other = runtimes.share(runtime());
    let handle = rt.clone();
    runtimes.get_mut(rt).set_writable_repo_roots(vec![root("/srv/repo")]);
    assert!(
        runtimes.get(handle).resolve_run_repo_root(None).is_ok(),
        "a runtime clone must see the swap"
    );
    assert_eq!(runtimes.get(handle).writable_repo_roots_snapshot(), vec!["/srv/repo".to_string()]);
    runtimes.get_mut(handle).set_writable_repo_roots(vec![root("/srv/a"), root("/srv/b")]);
    assert_eq!(
        runtimes.get(rt).writable_repo_roots_snapshot(),
        vec!["/srv/a".to_string(), "/srv/b".to_string()]
    );
    assert!(runtimes.get(other).writable_repo_roots_snapshot().is_empty());
}

#[test]
fn every_handle_sees_the_drain() {
    let mut runtimes = Shared::new();
    let rt = runtimes.share(runtime());
    let other = runtimes.share(runtime());
    let early = rt.clone();
    assert!(!runtimes.get(early).is_draining());
    runtimes.get_mut(early.clone()).begin_drain();
    let late = early.clone();
    assert!(runtimes.get(rt).is_draining());
    assert!(runtimes.get(early).is_draining());
    assert!(runtimes.get(late).is_draining());
    assert!(!runtimes.get(other).is_draining());
    runtimes.get_mut(late).set_writable_repo_roots(vec![]);
    assert!(runtimes.get(rt).is_draining());
    assert!(runtimes.knows(late));
}

#[test]
fn the_locks_of_a_runtime_are_those_that_were_wired() {
    let mut spaces = Shared::new();
    let l = spaces.share(RepoLockSpace::new());
    let apart = spaces.share(RepoLockSpace::new());
    let rt: WorkflowRuntime<(), (), (), (), (), (), Handle, ()> = WorkflowRuntime::new((), (), (), (), ());
    assert!(rt.repo_locks().is_none());
    let rt = rt.with_repo_locks(l);
    let own = *rt.repo_locks().unwrap();
    let now = Timestamp::new(1_700_000_000, 0).unwrap();
    assert!(spaces.get_mut(own).acquire(&vec!["a".to_string()], "wf", 60, 0, &now).is_ok());
    let held = spaces.get_mut(l).held(&now);
    assert_eq!(held.len(), 1);
    assert_eq!(held[0].file, "a");
    assert_eq!(held[0].holder, "wf");
    assert!(spaces.get_mut(apart).held(&now).is_empty());
}

#[test]
fn selection_error_recovery_surfaces_every_state_transition() {
    let definition = json(
        r#"{
            "states": {
                "gate": { "transitions": {
                    "to_a": { "actor": "deterministic", "target": "a" },
                    "to_human": { "actor": "human", "target": "h" }
                }}
            }
        }"#,
    );
    let mut i = inst("wf_test", json("{}"), "gate");
    i.version = 3;
    let mut response = JsonMap::new();
    response.insert("links".to_string(), Json::Array(vec![]));
    push_state_recovery_links(&mut response, &definition, &i);
    assert_eq!(response.get("links").unwrap().as_array().unwrap().len(), 2);
    let mut one = JsonMap::new();
    one.insert("links".to_string(), Json::Array(vec![]));
    push_failed_chain_recovery_link(&mut one, &definition, &i, "to_a");
    assert_eq!(one.get("links").unwrap().as_array().unwrap().len(), 1);
}

#[test]
fn the_runtime_s_own_transitions_are_not_offered() {
    let definition = json(
        r#"{ "states": { "s": { "transitions": {
            "own": { "actor": "deterministic", "target": "a" },
            "ask": { "actor": "human", "target": "h", "title": "Ask" }
        } } } }"#,
    );
    let i = inst("wf", definition.clone(), "s");
    let offered = links(&definition, &i, &JsonMap::new());
    let rels: Vec<&str> = offered.iter().filter_map(|l| l.get_str("rel")).collect();
    assert_eq!(rels, vec!["ask"]);
}

fn schema() -> Json {
    json(
        r#"{
            "type": "object",
            "properties": {
                "cargo_scope": { "type": "string", "default": "--workspace" },
                "min_tests":   { "type": "integer", "default": 1 },
                "provided":    { "type": "string", "default": "d" },
                "no_default":  { "type": "string" }
            }
        }"#,
    )
}

#[test]
fn absent_key_gets_default() {
    let mut v = json("{}");
    apply_schema_defaults(Some(&schema()), &mut v);
    assert_eq!(v.get_str("cargo_scope"), Some("--workspace"));
    assert_eq!(v.get_u64("min_tests"), Some(1));
}

#[test]
fn present_non_null_value_is_preserved() {
    let mut v = json(r#"{ "cargo_scope": "-p praxec-core" }"#);
    apply_schema_defaults(Some(&schema()), &mut v);
    assert_eq!(v.get_str("cargo_scope"), Some("-p praxec-core"));
}

#[test]
fn present_null_is_filled_by_default() {
    let mut v = json(r#"{ "cargo_scope": null, "min_tests": null }"#);
    apply_schema_defaults(Some(&schema()), &mut v);
    assert_eq!(v.get_str("cargo_scope"), Some("--workspace"));
    assert_eq!(v.get_u64("min_tests"), Some(1));
}

#[test]
fn present_null_without_default_is_untouched() {
    let mut v = json(r#"{ "no_default": null }"#);
    apply_schema_defaults(Some(&schema()), &mut v);
    assert!(v.get("no_default").unwrap().is_null());
}

#[test]
fn nested_object_defaults_still_apply() {
    let s = json(
        r#"{
            "type": "object",
            "properties": {
                "opts": {
                    "type": "object",
                    "properties": { "retries": { "type": "integer", "default": 3 } }
                }
            }
        }"#,
    );
    let mut v = json(r#"{ "opts": {} }"#);
    apply_schema_defaults(Some(&s), &mut v);
    assert_eq!(v.pointer("/opts/retries").and_then(|x| x.as_u64()), Some(3));
}

#[test]
fn verdicts_of_schemas_are_worded() {
    let s = schema();
    assert_eq!(validate_schema(None, &SchemaVerdict::Valid, "input"), Ok(()));
    assert_eq!(validate_schema(Some(&s), &SchemaVerdict::Valid, "input"), Ok(()));
    assert!(validate_schema(Some(&s), &SchemaVerdict::Uncompilable("bad".to_string()), "input").is_err());
    let err = validate_schema(
        Some(&s),
        &SchemaVerdict::Invalid(vec!["a is missing".to_string(), "b is no number".to_string()]),
        "input",
    )
    .unwrap_err();
    assert!(err.contains("a is missing") && err.contains("b is no number"), "{err}");
    assert_eq!(required_str(&json(r#"{ "x": { "y": "z" } }"#), "/x/y"), Ok("z"));
    assert!(required_str(&json(r#"{ "x": 1 }"#), "/x").is_err());
}

#[test]
fn a_delta_replays_the_change_of_a_blackboard() {
    let pre = json(r#"{ "kept": 1, "changed": 1, "gone": 1 }"#);
    let post = json(r#"{ "kept": 1, "changed": 2, "new": 3 }"#);
    let d = blackboard_delta(&pre, &post);
    assert_eq!(d.len(), 3);
    assert_eq!(d.get("changed").unwrap().as_u64(), Some(2));
    assert_eq!(d.get("new").unwrap().as_u64(), Some(3));
    assert!(d.get("gone").unwrap().is_null());
}

#[test]
fn writes_are_held_against_the_schemas_of_their_slots() {
    let definition = json(
        r#"{
            "blackboard": { "typed": { "type": "string" }, "bare": {} },
            "_schemasRegistry": { "patch": { "type": "object" } }
        }"#,
    );
    let mapping = json(r#"{ "typed": "$.output.t", "bare": "$.output.b", "other": "$.output.o" }"#);
    let context = json(r#"{ "typed": 5, "other": { "findings": [
        { "fix": { "schema_ref": "patch", "value": 1 } },
        { "fix": { "schema_ref": "ghost", "value": 1 } }
    ] } }"#);
    let checks = slot_checks(&definition, Some(&mapping), &context);
    assert_eq!(checks.len(), 3);
    let valid = || SchemaVerdict::Valid;
    let err = validate_blackboard_writes(
        &checks,
        &vec![SchemaVerdict::Invalid(vec!["5 is no string".to_string()]), valid(), valid()],
    )
    .unwrap_err();
    assert_eq!(err, ("typed".to_string(), "5 is no string".to_string()));
    let err = validate_blackboard_writes(&checks, &vec![valid(), valid(), valid()]).unwrap_err();
    assert_eq!(err.0, "other");
    assert!(err.1.contains("'ghost' is not a registered schema; registered: [patch]"), "{}", err.1);
}

#[test]
fn slots_of_a_state_are_cleared_when_it_is_left() {
    let definition = json(r#"{ "states": { "s": { "slots": { "local": { "scope": "state" }, "kept": {} } }, "t": {} } }"#);
    let (left, cleared) =
        clear_state_local_slots_on_exit(&definition, "s", "t", json(r#"{ "local": 1, "kept": 2 }"#));
    assert!(left.get("local").is_none());
    assert_eq!(left.get_u64("kept"), Some(2));
    assert_eq!(cleared, vec!["local".to_string()]);
    let (same, none) = clear_state_local_slots_on_exit(&definition, "s", "s", json(r#"{ "local": 1 }"#));
    assert_eq!(same.get_u64("local"), Some(1));
    assert!(none.is_empty());
}

#[test]
fn a_counter_that_is_no_number_is_told() {
    assert_eq!(read_counter_slot(&json("{}"), "n"), Ok(0));
    assert_eq!(read_counter_slot(&json(r#"{ "n": 4 }"#), "n"), Ok(4));
    assert!(read_counter_slot(&json(r#"{ "n": "four" }"#), "n").is_err());
}

#[test]
fn queries_read_what_stands_in_the_instance() {
    let definition = json(
        r#"{
            "states": { "s": { "transitions": {
                "own": { "actor": "deterministic", "target": "a" },
                "ask": { "actor": "human", "target": "h" }
            } } },
            "_scriptsLibrary": { "check.x": { "hash": "h1", "body": "exit 0" } }
        }"#,
    );
    let i = inst("wf", definition, "s");
    let rt = runtime();
    assert_eq!(rt.deterministic_legal_now(&i), vec!["own".to_string()]);
    let script = rt.describe_script_for_workflow(&i, "check.x").unwrap();
    assert!(script.equals(&json(
        r#"{ "kind": "script", "subject": "check.x", "verb": "", "lifecycle": "", "hash": "h1", "body": "exit 0" }"#
    )));
    assert!(rt.describe_script_for_workflow(&i, "gone").is_none());
    let told = Json::Object(rt.explain(&i, "ask"));
    assert!(told.equals(&json(
        r#"{
            "workflowId": "wf", "currentState": "s", "transition": "ask",
            "allowedFromCurrentState": true, "actor": "human", "deterministic": false,
            "legalTransitionsNow": ["ask", "own"]
        }"#
    )));
}

#[test]
fn guidance_that_is_there_has_a_verb_and_a_hash() {
    let definition = json(
        r#"{
            "states": {},
            "_skillsLibrary": {
                "plan": { "verb": "do", "lifecycle": "stable", "hash": "h1", "body": "first" },
                "verbless": { "hash": "h1" },
                "hashless": { "verb": "do" }
            }
        }"#,
    );
    let i = inst("wf", definition, "s");
    let rt = runtime();
    let plan = rt.describe_guidance_for_workflow(&i, "plan").unwrap().unwrap();
    assert!(plan.equals(&json(
        r#"{ "kind": "guidance", "subject": "plan", "verb": "do", "lifecycle": "stable", "hash": "h1", "body": "first" }"#
    )));
    assert!(rt.describe_guidance_for_workflow(&i, "gone").unwrap().is_none());
    assert_eq!(
        rt.describe_guidance_for_workflow(&i, "verbless").err().unwrap(),
        "CORRUPT_GUIDANCE_ENTRY: skills library entry for subject 'verbless' is present but has no string `verb`"
    );
    assert_eq!(
        rt.describe_guidance_for_workflow(&i, "hashless").err().unwrap(),
        "CORRUPT_GUIDANCE_ENTRY: skills library entry for subject 'hashless' is present but has no string `hash` \
         (required for hash-flip ack guards)"
    );
}

#[test]
fn declared_outcomes_are_judged_one_by_one() {
    let none = inst("wf", json(r#"{ "states": {} }"#), "s");
    match evaluate_outcomes(&none.definition, &none, &Principal::anonymous(), &vec![]) {
        Step::Done((lines, met)) => assert!(lines.is_none() && met),
        _ => panic!("nothing is to be asked"),
    }
    let i = inst(
        "wf",
        json(
            r#"{ "outcomes": [
                { "id": "a", "statement": "first", "check": "context.a" },
                { "id": "b", "statement": "second", "check": "context.b" }
            ] }"#,
        ),
        "s",
    );
    match evaluate_outcomes(&i.definition, &i, &Principal::anonymous(), &vec![]) {
        Step::Do(Effect::AskGuard { guard, .. }) => {
            assert!(guard.equals(&json(r#"{ "kind": "expr", "expr": "context.a" }"#)))
        }
        _ => panic!("the first check is asked"),
    }
    let fault = GuardFault {
        unset_slot: true,
        message: "context.b is not set".to_string(),
    };
    let replies = vec![Reply::Judged(Ok((true, None))), Reply::Judged(Err(fault))];
    match evaluate_outcomes(&i.definition, &i, &Principal::anonymous(), &replies) {
        Step::Done((Some(lines), met)) => {
            assert!(!met);
            assert!(Json::Array(lines).equals(&json(
                r#"[
                    { "id": "a", "statement": "first", "met": true },
                    { "id": "b", "statement": "second", "met": false }
                ]"#
            )));
        }
        _ => panic!("both checks are judged"),
    }
}

#[test]
fn names_of_states_are_escaped_in_pointers() {
    assert_eq!(pointer_escape("a/b~c"), "a~1b~0c");
    assert_eq!(pointer_escape("plain"), "plain");
    let definition = json(r#"{ "states": { "a/b~c": { "terminal": true } } }"#);
    let at = format!("/states/{}/terminal", pointer_escape("a/b~c"));
    assert!(definition.pointer(&at).unwrap().equals(&Json::Bool(true)));
}

#[test]
fn driving_agents_keeps_what_is_left_open() {
    let rt = runtime().with_auto_drive_agents(true, "coding".to_string(), vec!["files".to_string()], 30);
    assert!(rt.auto_drive.enabled);
    assert_eq!(rt.auto_drive.affinity, "coding");
    assert_eq!(rt.auto_drive.tools, vec!["files".to_string()]);
    assert_eq!(rt.auto_drive.max_seconds, 30);
    let rt = runtime().with_auto_drive_agents(true, String::new(), vec![], 0);
    assert_eq!(rt.auto_drive.affinity, "reasoning");
    assert_eq!(rt.auto_drive.max_seconds, 180);
}

#[test]
fn the_wiring_tells_what_is_there() {
    let w = runtime().wiring();
    assert!(!w.locks && !w.scheduler && !w.evidence);
    let w = runtime()
        .with_repo_locks(())
        .with_lock_scheduler(())
        .with_evidence(())
        .wiring();
    assert!(w.locks && w.scheduler && w.evidence);
}

#[test]
fn a_side_that_is_no_object_leaves_nothing_to_tell() {
    let one = json(r#"{ "a": 1 }"#);
    assert_eq!(blackboard_delta(&Json::Null, &one).len(), 0);
    assert_eq!(blackboard_delta(&one, &json("[1]")).len(), 0);
    let gone = Json::Object(blackboard_delta(&one, &json("{}")));
    assert!(gone.equals(&json(r#"{ "a": null }"#)));
}

#[test]
fn zeros_are_equal_whatever_their_sign() {
    let a = json(r#"{ "x": [0.0, { "y": -0.0 }] }"#);
    let b = json(r#"{ "x": [-0.0, { "y": 0.0 }] }"#);
    assert!(a.equals(&b));
    assert_eq!(blackboard_delta(&a, &b).len(), 0);
    assert!(!json("0.0").equals(&json("0.5")));
    assert!(!json("0.0").equals(&json("0")));
}
