use praxec_core::json::{Json, JsonMap, Number};
use praxec_core::model::{Timestamp, WorkflowInstance};
use praxec_core::repo_git::GitRun;
use praxec_core::run_env::{RepoRoot, RunEnv};
use praxec_core::store::repo_definition_store::{
    ConfiguredRepo, Reading, RegisterStep, RepoDefinitionStore, RepoLayout, RepoManifest, StoreReply,
};
use praxec_core::store::store_file::{
    find_by_run_id, list_waiting_on_lock, list_waiting_on_subworkflow, FileWorkflowStore,
};
use praxec_core::store::{store_sqlite, store_sqlite_aux};

fn convert(v: &serde_json::Value) -> Json {
    match v {
        serde_json::Value::Null => Json::Null,
        serde_json::Value::Bool(b) => Json::Bool(*b),
        serde_json::Value::Number(n) => {
            if let Some(u) = n.as_u64() {
                Json::Number(Number::PosInt(u))
            } else if let Some(i) = n.as_i64() {
                Json::Number(Number::NegInt(i))
            } else {
                Json::Number(Number::Float(n.to_string()))
            }
        }
        serde_json::Value::String(s) => Json::Str(s.clone()),
        serde_json::Value::Array(a) => Json::Array(a.iter().map(convert).collect()),
        serde_json::Value::Object(m) => {
            let mut out = JsonMap::new();
            for (k, v) in m {
                out.insert(k.clone(), convert(v));
            }
            Json::Object(out)
        }
    }
}

fn json(text: &str) -> Json {
    convert(&serde_json::from_str::<serde_json::Value>(text).unwrap())
}

fn repo(root: &str, namespace: &str, writable: bool, push: bool) -> ConfiguredRepo {
    ConfiguredRepo {
        root: root.to_string(),
        manifest: Ok(RepoManifest {
            namespace: namespace.to_string(),
            layout: RepoLayout {
                capabilities: "capabilities".to_string(),
                flows: "flows".to_string(),
                skills: "skills".to_string(),
                scripts: "scripts".to_string(),
            },
        }),
        writable,
        push,
    }
}

/// A disk, a record and a git that the store works on.
struct Disk {
    store: RepoDefinitionStore,
    files: Vec<(String, Json)>,
    published: Vec<Json>,
    git: Vec<Vec<String>>,
    pushed: usize,
    audit_fails: bool,
}

/// A stand-in for the hash of a definition.
fn hash(v: &Json) -> String {
    praxec_core::hashing::sha256_text(&praxec_core::json_text::compact_text(v))
}

impl Disk {
    fn new(writable: bool, push: bool) -> Disk {
        Disk {
            store: RepoDefinitionStore::from_repos(vec![repo("/srv/t", "test", writable, push)])
                .ok()
                .unwrap(),
            files: vec![],
            published: vec![],
            git: vec![],
            pushed: 0,
            audit_fails: false,
        }
    }

    fn read(&self, path: &str) -> Reading {
        match self.files.iter().find(|f| f.0 == path) {
            Some((_, v)) => Reading::Parsed(v.clone()),
            None => Reading::Missing("No such file or directory (os error 2)".to_string()),
        }
    }

    fn load(&self, id: &str) -> Result<Json, String> {
        let path = self.store.locate(id)?;
        self.store.load(id, &self.read(&path))
    }

    fn register(&mut self, id: &str, definition: &Json, expected: Option<&str>) -> Result<(), String> {
        let mut replies: Vec<StoreReply> = vec![];
        loop {
            let reply = match self.store.register(id, definition, expected, &replies) {
                RegisterStep::Read(path) => StoreReply::Read(self.read(&path)),
                RegisterStep::Hash(v) => StoreReply::Hash(hash(&v)),
                RegisterStep::Record(event) => {
                    assert_eq!(event.event_type, "definition.published");
                    assert_eq!(event.actor.as_deref(), Some("authoring"));
                    if self.audit_fails {
                        StoreReply::Made(Err("audit host unreachable".to_string()))
                    } else {
                        self.published.push(event.payload);
                        StoreReply::Made(Ok(()))
                    }
                }
                RegisterStep::Write { path, file } => {
                    self.files.retain(|f| f.0 != path);
                    self.files.push((path, file));
                    StoreReply::Made(Ok(()))
                }
                RegisterStep::Git { args, .. } => {
                    self.git.push(args);
                    StoreReply::Git(GitRun::Exited {
                        success: true,
                        stderr: String::new(),
                    })
                }
                RegisterStep::Push(_) => {
                    self.pushed += 1;
                    StoreReply::Pushed(Ok(()))
                }
                RegisterStep::Done => return Ok(()),
                RegisterStep::Failed { message, .. } => return Err(message),
                RegisterStep::Misfit => panic!("a reply does not fit its question"),
            };
            replies.push(reply);
        }
    }
}

#[test]
fn register_round_trips_and_commits() {
    let mut d = Disk::new(true, false);
    let def = json(r#"{ "verb": "implement", "initialState": "ready", "states": {} }"#);
    assert_eq!(d.register("test/cap.foo", &def, None), Ok(()));
    assert_eq!(d.files[0].0, "/srv/t/capabilities/cap.foo.yaml");
    assert!(d.load("test/cap.foo").ok().unwrap().equals(&def));
    assert_eq!(d.git[0], vec!["add".to_string(), "capabilities/cap.foo.yaml".to_string()]);
    assert!(d.git[1].contains(&"author: publish test/cap.foo".to_string()));
    assert_eq!(d.published[0].get_str("definitionId"), Some("test/cap.foo"));
    assert_eq!(d.published[0].get_str("namespace"), Some("test"));
    assert_eq!(d.published[0].get_str("repo"), Some("/srv/t"));
    assert_eq!(d.pushed, 0);
}

#[test]
fn flow_ids_route_to_flows() {
    let mut d = Disk::new(true, false);
    assert_eq!(d.register("test/flow.bar", &json(r#"{ "states": {} }"#), None), Ok(()));
    assert_eq!(d.files[0].0, "/srv/t/flows/flow.bar.yaml");
    assert_eq!(d.store.locate("test/skill.x").ok().unwrap(), "/srv/t/skills/skill.x.yaml");
    assert_eq!(d.store.locate("test/script.x").ok().unwrap(), "/srv/t/scripts/script.x.yaml");
    assert_eq!(d.store.locate("test/other").ok().unwrap(), "/srv/t/flows/other.yaml");
}

#[test]
fn audit_failure_aborts_the_write_before_anything_lands() {
    let mut d = Disk::new(true, false);
    d.audit_fails = true;
    let err = d.register("test/cap.x", &json("{}"), None).unwrap_err();
    assert!(err.contains("RECORD_WRITE_FAILED"));
    assert!(d.files.is_empty());
    assert!(d.git.is_empty());
}

#[test]
fn read_only_repo_refuses_writes() {
    let mut d = Disk::new(false, false);
    let err = d.register("test/cap.x", &json("{}"), None).unwrap_err();
    assert!(err.contains("read-only"));
    assert!(d.published.is_empty());
}

#[test]
fn unknown_namespace_is_rejected() {
    let mut d = Disk::new(true, false);
    let err = d.register("nope/cap.x", &json("{}"), None).unwrap_err();
    assert!(err.contains("no configured repo"));
    assert_eq!(d.load("nope/cap.x").err().unwrap(), "no configured repo for namespace 'nope'");
}

#[test]
fn unprefixed_id_is_rejected() {
    let mut d = Disk::new(true, false);
    assert!(d.register("cap.x", &json("{}"), None).is_err());
    assert_eq!(
        d.load("cap.x").err().unwrap(),
        "definition id 'cap.x' is not namespace-prefixed (`<namespace>/<id>`)"
    );
}

#[test]
fn push_enabled_repo_publishes_commits_to_its_remote() {
    let mut d = Disk::new(true, true);
    assert_eq!(d.register("test/cap.shipped", &json(r#"{ "initialState": "s" }"#), None), Ok(()));
    assert!(d.git[1].contains(&"author: publish test/cap.shipped".to_string()));
    assert_eq!(d.pushed, 1);
}

#[test]
fn edit_with_matching_prior_hash_succeeds_and_stale_hash_conflicts() {
    let mut d = Disk::new(true, false);
    let v1 = json(r#"{ "initialState": "a", "states": {} }"#);
    assert_eq!(d.register("test/cap.edit", &v1, None), Ok(()));
    let base = hash(&v1);
    let v2 = json(r#"{ "initialState": "b", "states": {} }"#);
    assert_eq!(d.register("test/cap.edit", &v2, Some(base.as_str())), Ok(()));
    assert!(d.load("test/cap.edit").ok().unwrap().equals(&v2));
    let err = d
        .register("test/cap.edit", &json(r#"{ "initialState": "c" }"#), Some(base.as_str()))
        .unwrap_err();
    assert!(err.contains("CONFLICT_STALE"), "got: {err}");
    assert!(d.load("test/cap.edit").ok().unwrap().equals(&v2));
    let absent = d.register("test/cap.new", &v1, Some(base.as_str())).unwrap_err();
    assert!(absent.contains("found <absent>"), "got: {absent}");
}

#[test]
fn an_unreadable_definition_is_no_conflict() {
    let d = Disk::new(true, false);
    let replies = vec![StoreReply::Read(Reading::Unreadable("permission denied".to_string()))];
    match d.store.register("test/cap.x", &json("{}"), Some("h"), &replies) {
        RegisterStep::Failed { message, cause } => {
            assert!(message.starts_with("reading current definition 'test/cap.x'"));
            assert!(cause.unwrap().contains("permission denied"));
        }
        _ => panic!("what cannot be read cannot be edited"),
    }
}

#[test]
fn of_two_repositories_with_one_namespace_the_later_wins() {
    let s = RepoDefinitionStore::from_repos(vec![
        repo("/srv/old", "acme", false, false),
        repo("/srv/other", "other", false, false),
        repo("/srv/new/", "acme", true, false),
    ])
    .ok()
    .unwrap();
    assert_eq!(s.locate("acme/flow.x").ok().unwrap(), "/srv/new/flows/flow.x.yaml");
    assert_eq!(s.locate("other/flow.x").ok().unwrap(), "/srv/other/flows/flow.x.yaml");
    let mut broken = repo("/srv/b", "b", true, false);
    broken.manifest = Err("no manifest".to_string());
    assert_eq!(
        RepoDefinitionStore::from_repos(vec![repo("/srv/a", "a", true, false), broken]).err().unwrap(),
        "no manifest"
    );
}

fn instance(id: &str, version: u64, context: &str, run_id: Option<&str>) -> WorkflowInstance {
    let root = match RepoRoot::from_persisted("/tmp/praxec-root".to_string()) {
        Ok(r) => r,
        Err(e) => panic!("{}", e.message()),
    };
    WorkflowInstance {
        id: id.to_string(),
        definition_id: "demo".to_string(),
        definition_version: "1.0.0".to_string(),
        definition: json(r#"{"initialState": "s", "states": {}}"#),
        state: "s".to_string(),
        version,
        input: json("{}"),
        context: json(context),
        started_at: Timestamp::new(1_700_000_000, 0).unwrap(),
        run_env: RunEnv::new(root, run_id.map(|s| s.to_string()), None),
        cancelled_at: None,
        cancelled_reason: None,
        depth: 0,
        parent: None,
    }
}

#[test]
fn load_rejects_id_mismatch() {
    let err = store_sqlite::load("wf_wrong", Some(instance("wf_real", 0, "{}", None))).err().unwrap();
    assert!(err.contains("CORRUPT_INSTANCE"), "{err}");
    assert!(store_sqlite::load("wf_real", Some(instance("wf_real", 0, "{}", None))).is_ok());
    assert_eq!(store_sqlite::load("wf", None).err().unwrap(), "workflow wf not found");
}

#[test]
fn constraints_of_the_table_are_told_apart() {
    let run = store_sqlite::InsertOutcome::Constraint(Some(
        "UNIQUE constraint failed: index 'idx_workflows_run_id'".to_string(),
    ));
    assert_eq!(
        store_sqlite::create("wf", &run).unwrap_err(),
        "RUN_ID_ALREADY_RUNNING: run_id already has an in-flight instance"
    );
    let key = store_sqlite::InsertOutcome::Constraint(Some("UNIQUE constraint failed: workflows.id".to_string()));
    assert_eq!(store_sqlite::create("wf", &key).unwrap_err(), "workflow id collision: wf");
    let failed = store_sqlite::InsertOutcome::Failed("disk I/O error".to_string());
    assert_eq!(store_sqlite::create("wf", &failed).unwrap_err(), "disk I/O error");
    assert_eq!(store_sqlite::create("wf", &store_sqlite::InsertOutcome::Made), Ok(()));
    assert_eq!(store_sqlite::save_if_version("wf", 3, true, 1), Ok(()));
    assert_eq!(
        store_sqlite::save_if_version("wf", 3, true, 0).unwrap_err(),
        "stale workflow version (expected 3 for wf)"
    );
    assert_eq!(store_sqlite::save_if_version("wf", 3, false, 0).unwrap_err(), "workflow wf not found");
}

#[test]
fn files_are_named_by_their_ids() {
    let s = FileWorkflowStore::new("/var/wf".to_string());
    assert_eq!(s.root(), "/var/wf");
    assert_eq!(s.path_for("wf_0a-1"), "/var/wf/wf_0a-1.json");
    assert_eq!(s.path_for("../etc/passwd"), "/var/wf/___etc_passwd.json");
    assert_eq!(s.path_for("wf é"), "/var/wf/wf_é.json");
}

#[test]
fn a_file_is_created_once_and_saved_by_version() {
    let s = FileWorkflowStore::new("/var/wf".to_string());
    let i = instance("wf", 2, "{}", None);
    assert_eq!(s.create(&i, &None), Ok(()));
    assert_eq!(
        s.create(&i, &Some(instance("wf", 0, "{}", None))).unwrap_err(),
        "workflow id collision: wf"
    );
    let stored = Some(instance("wf", 1, "{}", None));
    assert_eq!(s.save_if_version(&i, 1, &stored), Ok(()));
    assert_eq!(
        s.save_if_version(&i, 0, &stored).unwrap_err(),
        "stale workflow version: stored=1, expected=0"
    );
    assert_eq!(s.save_if_version(&i, 0, &None).unwrap_err(), "workflow wf not found");
    assert_eq!(s.load("wf", None).err().unwrap(), "workflow wf not found");
    assert_eq!(s.load("wf", stored).ok().unwrap().version, 1);
}

#[test]
fn a_scan_finds_runs_and_those_who_wait() {
    let all = || {
        vec![
            instance("wf_a", 0, r#"{ "_lock_wait": {} }"#, Some("run-1")),
            instance("wf_b", 0, r#"{ "_subworkflow_wait": {} }"#, Some("run-2")),
            instance("wf_c", 0, "{}", Some("run-2")),
        ]
    };
    assert_eq!(find_by_run_id(&all(), "run-2"), Some("wf_b".to_string()));
    assert_eq!(find_by_run_id(&all(), "run-3"), None);
    let ids = |v: Vec<WorkflowInstance>| v.into_iter().map(|i| i.id).collect::<Vec<String>>();
    assert_eq!(ids(list_waiting_on_lock(all())), vec!["wf_a".to_string()]);
    assert_eq!(ids(list_waiting_on_subworkflow(all())), vec!["wf_b".to_string()]);
}

#[test]
fn only_tables_of_acknowledgements_are_named() {
    assert!(store_sqlite_aux::is_ack_table("guidance_acks"));
    assert!(store_sqlite_aux::is_ack_table("script_acks"));
    assert!(!store_sqlite_aux::is_ack_table("workflows; DROP TABLE workflows"));
}

#[test]
fn parking_a_duplicate_correlation_id_is_refused() {
    assert_eq!(store_sqlite_aux::park("corr-1", &store_sqlite::InsertOutcome::Made), Ok(()));
    assert_eq!(
        store_sqlite_aux::park("corr-1", &store_sqlite::InsertOutcome::Constraint(None)).unwrap_err(),
        "PARKED_SESSION_DUPLICATE: correlation_id 'corr-1' is already parked"
    );
}

#[test]
fn a_corrupt_parked_row_is_a_typed_error_not_a_panic() {
    let err = store_sqlite_aux::parse_row("corr-1", &Err("expected value at line 1 column 1".to_string()))
        .unwrap_err();
    assert!(err.starts_with("PARKED_SESSION_CORRUPT: row 'corr-1' is not a valid record"), "{err}");
}

#[test]
fn a_row_whose_embedded_id_disagrees_is_corrupt() {
    assert_eq!(store_sqlite_aux::parse_row("corr-1", &Ok("corr-1".to_string())), Ok(()));
    let err = store_sqlite_aux::parse_row("corr-1", &Ok("corr-2".to_string())).unwrap_err();
    assert!(err.contains("PARKED_SESSION_CORRUPT"), "{err}");
}
