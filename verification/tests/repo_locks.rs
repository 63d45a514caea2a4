use praxec_core::json::{Json, JsonMap, Number};
use praxec_core::model::Timestamp;
use praxec_core::repo_locks::{owned_files_in, RepoLockSpace, RepoLocks};

fn convert(v: &serde_json::Value) -> Json {
    match v {
        serde_json::Value::Null => Json::Null,
        serde_json::Value::Bool(b) => Json::Bool(*b),
        serde_json::Value::Number(n) => {
            if let Some(u) = n.as_u64() {
                Json::Number(Number::PosInt(u))
            } else if let Some(i) = n.as_i64() {
                Json::Number(Number::NegInt(i))
            } else {
                Json::Number(Number::Float(n.to_string()))
            }
        }
        serde_json::Value::String(s) => Json::Str(s.clone()),
        serde_json::Value::Array(a) => Json::Array(a.iter().map(convert).collect()),
        serde_json::Value::Object(m) => {
            let mut out = JsonMap::new();
            for (k, v) in m {
                out.insert(k.clone(), convert(v));
            }
            Json::Object(out)
        }
    }
}

fn json(text: &str) -> Json {
    convert(&serde_json::from_str::<serde_json::Value>(text).unwrap())
}

const TTL: u64 = 300;

fn p(s: &str) -> String {
    s.to_string()
}

fn at(secs: i64) -> Timestamp {
    Timestamp::new(1_700_000_000 + secs, 0).unwrap()
}

fn held_files(space: &mut RepoLockSpace, secs: i64) -> Vec<String> {
    space.held(&at(secs)).into_iter().map(|h| h.file).collect()
}

#[test]
fn acquire_free_files_succeeds() {
    let mut space = RepoLockSpace::new();
    assert!(space.acquire(&vec![p("a")], "h1", TTL, 0, &at(0)).is_ok());
}

#[test]
fn acquire_any_takes_one_free_slot_from_the_pool() {
    let mut space = RepoLockSpace::new();
    let got = space
        .acquire_any(&vec![p("slot-1"), p("slot-2")], "h1", TTL, 0, &at(0))
        .ok()
        .unwrap();
    assert!(got == p("slot-1") || got == p("slot-2"));
    assert_eq!(held_files(&mut space, 0).len(), 1);
}

#[test]
fn acquire_any_skips_a_held_slot_and_takes_the_free_one() {
    let mut space = RepoLockSpace::new();
    assert!(space.acquire(&vec![p("slot-1")], "other", TTL, 0, &at(0)).is_ok());
    let got = space
        .acquire_any(&vec![p("slot-1"), p("slot-2")], "h1", TTL, 0, &at(0))
        .ok()
        .unwrap();
    assert_eq!(got, p("slot-2"));
}

#[test]
fn acquire_any_fails_when_every_slot_is_held() {
    let mut space = RepoLockSpace::new();
    assert!(space.acquire(&vec![p("slot-1")], "o1", TTL, 0, &at(0)).is_ok());
    assert!(space.acquire(&vec![p("slot-2")], "o2", TTL, 0, &at(0)).is_ok());
    let err = space
        .acquire_any(&vec![p("slot-1"), p("slot-2")], "h1", TTL, 0, &at(0))
        .err()
        .unwrap();
    assert_eq!(err.conflicts.len(), 2);
}

#[test]
fn acquire_any_on_an_empty_candidate_list_fails_rather_than_granting() {
    let mut space = RepoLockSpace::new();
    assert!(space.acquire_any(&vec![], "h1", TTL, 0, &at(0)).is_err());
}

#[test]
fn held_lists_the_acquired_file_and_holder() {
    let mut space = RepoLockSpace::new();
    assert!(space.acquire(&vec![p("a")], "h1", TTL, 0, &at(0)).is_ok());
    let held: Vec<(String, String)> = space
        .held(&at(0))
        .into_iter()
        .map(|h| (h.file, h.holder))
        .collect();
    assert_eq!(held, vec![(p("a"), "h1".to_string())]);
}

#[test]
fn acquire_is_atomic_all_or_nothing() {
    let mut space = RepoLockSpace::new();
    assert!(space.acquire(&vec![p("b")], "h1", TTL, 0, &at(0)).is_ok());
    assert!(space.acquire(&vec![p("a"), p("b")], "h2", TTL, 0, &at(0)).is_err());
    assert!(!held_files(&mut space, 0).contains(&p("a")));
}

#[test]
fn conflict_reports_the_blocking_file_and_holder() {
    let mut space = RepoLockSpace::new();
    assert!(space.acquire(&vec![p("b")], "h1", TTL, 0, &at(0)).is_ok());
    let err = space
        .acquire(&vec![p("a"), p("b")], "h2", TTL, 0, &at(0))
        .err()
        .unwrap();
    assert_eq!(err.conflicts, vec![(p("b"), "h1".to_string())]);
}

#[test]
fn release_frees_the_files() {
    let mut space = RepoLockSpace::new();
    assert!(space.acquire(&vec![p("a")], "h1", TTL, 0, &at(0)).is_ok());
    space.release(&vec![p("a")], "h1");
    assert!(space.held(&at(0)).is_empty());
}

#[test]
fn release_by_non_holder_leaves_the_lock_intact() {
    let mut space = RepoLockSpace::new();
    assert!(space.acquire(&vec![p("a")], "h1", TTL, 0, &at(0)).is_ok());
    space.release(&vec![p("a")], "h2");
    assert!(held_files(&mut space, 0).contains(&p("a")));
}

#[test]
fn holder_of_ab_blocks_acquirer_of_bc() {
    let mut space = RepoLockSpace::new();
    assert!(space.acquire(&vec![p("a"), p("b")], "h1", TTL, 0, &at(0)).is_ok());
    assert!(space.acquire(&vec![p("b"), p("c")], "h2", TTL, 0, &at(0)).is_err());
}

#[test]
fn same_holder_reacquiring_its_own_files_is_idempotent() {
    let mut space = RepoLockSpace::new();
    assert!(space.acquire(&vec![p("a")], "h1", TTL, 0, &at(0)).is_ok());
    assert!(space.acquire(&vec![p("a")], "h1", TTL, 0, &at(0)).is_ok());
}

#[test]
fn lock_past_ttl_is_reaped_on_next_acquire() {
    let mut space = RepoLockSpace::new();
    assert!(space.acquire(&vec![p("a")], "h1", 10, 0, &at(0)).is_ok());
    assert!(space.acquire(&vec![p("a")], "h2", 10, 0, &at(20)).is_ok());
}

#[test]
fn heartbeat_extends_ttl_so_a_busy_holder_keeps_its_lock() {
    let mut space = RepoLockSpace::new();
    assert!(space.acquire(&vec![p("a")], "h1", 10, 0, &at(0)).is_ok());
    space.heartbeat(&vec![p("a")], "h1", &at(8));
    assert!(space.acquire(&vec![p("a")], "h2", 10, 0, &at(12)).is_err());
}

#[test]
fn heartbeat_does_not_resurrect_an_already_expired_lock() {
    let mut space = RepoLockSpace::new();
    assert!(space.acquire(&vec![p("a")], "h1", 10, 0, &at(0)).is_ok());
    space.heartbeat(&vec![p("a")], "h1", &at(20));
    assert!(held_files(&mut space, 20).is_empty());
}

#[test]
fn reaping_frees_only_the_expired_lock_not_others() {
    let mut space = RepoLockSpace::new();
    assert!(space.acquire(&vec![p("a")], "h1", 10, 0, &at(0)).is_ok());
    assert!(space.acquire(&vec![p("b")], "h2", 100, 0, &at(0)).is_ok());
    assert_eq!(held_files(&mut space, 20), vec![p("b")]);
}

#[test]
fn a_lock_is_held_up_to_its_last_moment() {
    let mut space = RepoLockSpace::new();
    assert!(space.acquire(&vec![p("a")], "h1", 10, 0, &at(0)).is_ok());
    assert_eq!(held_files(&mut space, 10), vec![p("a")]);
    assert!(held_files(&mut space, 11).is_empty());
}

#[test]
fn two_spellings_of_a_path_are_one_file() {
    let mut space = RepoLockSpace::new();
    assert!(space.acquire(&vec![p("src/./a.rs")], "h1", TTL, 0, &at(0)).is_ok());
    let err = space
        .acquire(&vec![p("src//a.rs")], "h2", TTL, 0, &at(0))
        .err()
        .unwrap();
    assert_eq!(err.conflicts.len(), 1);
}

#[test]
fn owned_files_single_executor() {
    let cfg = json(r#"{ "kind": "agent", "owned_files": ["a", "b"] }"#);
    assert_eq!(owned_files_in(&cfg), vec![p("a"), p("b")]);
}

#[test]
fn owned_files_none_when_undeclared() {
    let cfg = json(r#"{ "kind": "noop" }"#);
    assert!(owned_files_in(&cfg).is_empty());
}

#[test]
fn owned_files_parallel_is_union_of_branches() {
    let cfg = json(
        r#"{
            "kind": "parallel",
            "branches": [
                { "kind": "agent", "owned_files": ["a"] },
                { "kind": "agent", "owned_files": ["b"] }
            ]
        }"#,
    );
    assert_eq!(owned_files_in(&cfg), vec![p("a"), p("b")]);
}

#[test]
fn owned_files_dedups_overlapping_branches() {
    let cfg = json(
        r#"{
            "kind": "parallel",
            "branches": [
                { "owned_files": ["a"] },
                { "owned_files": ["a"] }
            ]
        }"#,
    );
    assert_eq!(owned_files_in(&cfg), vec![p("a")]);
}

#[test]
fn the_last_who_took_a_file_holds_it() {
    let mut space = RepoLockSpace::new();
    let files = vec![p("a")];
    assert!(space.acquire(&files, "h1", 10, 0, &at(0)).is_ok());
    assert!(space.acquire(&files, "h2", 10, 0, &at(5)).is_err());
    space.release(&files, "h2");
    space.heartbeat(&files, "h1", &at(8));
    assert!(space.acquire(&files, "h2", 10, 0, &at(15)).is_err());
    assert!(space.acquire(&files, "h2", 10, 0, &at(19)).is_ok());
    space.release(&files, "h1");
    let held: Vec<(String, String)> = space.held(&at(20)).into_iter().map(|h| (h.file, h.holder)).collect();
    assert_eq!(held, vec![(p("a"), "h2".to_string())]);
}
