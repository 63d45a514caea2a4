use praxec_core::run_env::{RepoRoot, RepoRootError, RunEnv};

fn root(path: &str) -> RepoRoot {
    match RepoRoot::from_persisted(path.to_string()) {
        Ok(r) => r,
        Err(e) => panic!("{}", e.message()),
    }
}

#[test]
fn new_rejects_relative() {
    assert!(RepoRoot::new("rel/path", Err("No such file or directory".to_string()), false).is_err());
    let r = RepoRoot::new("rel/path", Ok("rel/path".to_string()), true);
    assert!(matches!(r, Err(RepoRootError::NotAbsolute(_))));
}

#[test]
fn new_rejects_nonexistent() {
    let r = RepoRoot::new(
        "/definitely/not/here/praxec-xyz-4a1b",
        Err("No such file or directory (os error 2)".to_string()),
        false,
    );
    assert!(r.is_err());
    assert!(matches!(r, Err(RepoRootError::Canonicalize { .. })));
}

#[test]
fn new_rejects_a_file() {
    let r = RepoRoot::new("/tmp/praxec-runenv.tmp", Ok("/tmp/praxec-runenv.tmp".to_string()), false);
    assert!(matches!(r, Err(RepoRootError::NotADir(_))));
}

#[test]
fn new_accepts_and_canonicalizes_a_dir() {
    match RepoRoot::new("/tmp/link", Ok("/private/tmp".to_string()), true) {
        Ok(r) => {
            assert!(r.as_path().starts_with('/'));
            assert_eq!(r.as_str(), "/private/tmp");
        }
        Err(e) => panic!("{}", e.message()),
    }
}

#[test]
fn from_persisted_is_structural_only() {
    match RepoRoot::from_persisted("/gone/but/absolute".to_string()) {
        Ok(r) => assert_eq!(r.as_str(), "/gone/but/absolute"),
        Err(e) => panic!("{}", e.message()),
    }
    assert!(RepoRoot::from_persisted("rel".to_string()).is_err());
}

#[test]
fn run_env_clone_keeps_everything() {
    let e = RunEnv::new(
        root("/tmp"),
        Some("run_1".to_string()),
        Some("trace_1".to_string()),
    );
    let back = e.clone();
    assert_eq!(back.run_id.as_deref(), Some("run_1"));
    assert_eq!(back.trace_id.as_deref(), Some("trace_1"));
    assert_eq!(back.repo_root.as_str(), e.repo_root.as_str());
}

#[test]
fn leases_are_found_by_pool() {
    let mut e = RunEnv::for_test(root("/tmp"));
    assert_eq!(e.leased_member("browser"), None);
    e.leased.insert("browser".to_string(), "chrome-2".to_string());
    e.leased.insert("db".to_string(), "pg-1".to_string());
    e.leased.insert("browser".to_string(), "chrome-3".to_string());
    assert_eq!(e.leased_member("browser"), Some("chrome-3"));
    assert_eq!(e.leased_member("db"), Some("pg-1"));
}

#[test]
fn root_errors_say_which_path() {
    match RepoRoot::from_persisted("rel".to_string()) {
        Ok(_) => panic!("a relative path is no root"),
        Err(e) => assert!(e.message().contains("rel")),
    }
}
