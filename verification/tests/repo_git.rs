use praxec_core::repo_git::{
    behind_range, cache_dir_name, clone_next, clone_or_update, clone_url, default_branch, git_currency,
    origin_head_branch, pack_provenance, push, resolved_sha, run_git, upstream_ref, CloneAction, GitAnswers,
    GitRun,
};

/// What git says of a clean checkout of `branch` at `/work/pack`, without a remote.
fn clean(branch: &str, has_dev: bool) -> GitAnswers {
    GitAnswers {
        path: Some("/work/pack".to_string()),
        toplevel: Some("/work/pack".to_string()),
        head: Some(format!("{branch}\n")),
        origin_head: None,
        local_dev: has_dev,
        remote_dev: false,
        status: Some(String::new()),
        upstream_known: false,
        behind: None,
    }
}

#[test]
fn clone_url_strips_the_git_prefix() {
    assert_eq!(clone_url("git+https://h/r"), "https://h/r");
    assert_eq!(clone_url("https://h/r"), "https://h/r");
    assert_eq!(clone_url("file:///tmp/r"), "file:///tmp/r");
}

#[test]
fn cache_dir_name_is_filesystem_safe_and_stable() {
    let a = cache_dir_name("git+https://github.com/acme/repo@main");
    assert!(!a.contains('/') && !a.contains(':') && !a.contains('@'));
    assert_eq!(a, cache_dir_name("git+https://github.com/acme/repo@main"));
}

#[test]
fn non_git_dir_is_none() {
    let a = GitAnswers {
        toplevel: None,
        head: None,
        status: None,
        ..clean("dev", false)
    };
    assert!(git_currency(&a).is_none());
}

#[test]
fn subdir_of_a_larger_repo_is_none() {
    let a = GitAnswers {
        path: Some("/work/repo/crates/pack".to_string()),
        toplevel: Some("/work/repo".to_string()),
        ..clean("dev", true)
    };
    assert!(git_currency(&a).is_none());
}

#[test]
fn clean_checkout_on_dev_has_no_drift_no_dirt_unknown_upstream() {
    let c = git_currency(&clean("dev", true)).unwrap();
    assert_eq!(c.branch.as_deref(), Some("dev"));
    assert_eq!(c.default_branch, "dev");
    assert!(c.on_default_branch);
    assert!(!c.dirty);
    assert_eq!(c.behind_upstream, None);
}

#[test]
fn feature_branch_checkout_is_off_default_branch() {
    let c = git_currency(&clean("feat/react-review", true)).unwrap();
    assert_eq!(c.branch.as_deref(), Some("feat/react-review"));
    assert_eq!(c.default_branch, "dev");
    assert!(!c.on_default_branch);
}

#[test]
fn detached_head_reports_no_branch() {
    let a = GitAnswers {
        head: None,
        ..clean("dev", true)
    };
    let c = git_currency(&a).unwrap();
    assert_eq!(c.branch, None);
    assert!(!c.on_default_branch);
}

#[test]
fn uncommitted_changes_are_dirty() {
    let a = GitAnswers {
        status: Some(" M praxec.repo.yaml\n".to_string()),
        ..clean("dev", true)
    };
    let c = git_currency(&a).unwrap();
    assert!(c.dirty);
    assert!(c.on_default_branch);
}

#[test]
fn behind_known_upstream_reports_commit_count() {
    let a = GitAnswers {
        upstream_known: true,
        behind: Some("1\n".to_string()),
        ..clean("dev", true)
    };
    let c = git_currency(&a).unwrap();
    assert!(c.on_default_branch);
    assert!(!c.dirty);
    assert_eq!(c.behind_upstream, Some(1));
    let unknown = GitAnswers {
        upstream_known: false,
        ..a
    };
    assert_eq!(git_currency(&unknown).unwrap().behind_upstream, None);
}

#[test]
fn a_count_that_is_no_number_is_unknown() {
    for (text, expected) in [
        ("", None),
        ("+7", Some(7)),
        ("-1", None),
        ("4294967295", Some(u32::MAX)),
        ("4294967296", None),
        ("1x", None),
    ] {
        let a = GitAnswers {
            upstream_known: true,
            behind: Some(text.to_string()),
            ..clean("dev", true)
        };
        assert_eq!(git_currency(&a).unwrap().behind_upstream, expected, "{text}");
    }
}

#[test]
fn clean_master_repo_with_origin_head_is_not_flagged_as_drift() {
    let a = GitAnswers {
        origin_head: Some("origin/master\n".to_string()),
        ..clean("master", false)
    };
    let c = git_currency(&a).unwrap();
    assert_eq!(c.branch.as_deref(), Some("master"));
    assert_eq!(c.default_branch, "master");
    assert!(c.on_default_branch);
}

#[test]
fn unborn_head_does_not_panic() {
    let c = git_currency(&clean("dev", false)).unwrap();
    assert_eq!(c.branch.as_deref(), Some("dev"));
    assert_eq!(c.behind_upstream, None);
}

#[test]
fn the_default_branch_is_guessed_without_a_remote() {
    assert_eq!(default_branch(&None, true, false), "dev");
    assert_eq!(default_branch(&None, false, true), "dev");
    assert_eq!(default_branch(&None, false, false), "main");
    assert_eq!(default_branch(&Some("origin/trunk\n".to_string()), true, true), "trunk");
    assert_eq!(origin_head_branch(&Some("origin/trunk\n".to_string())).as_deref(), Some("trunk"));
    assert_eq!(origin_head_branch(&None), None);
    assert_eq!(upstream_ref("dev"), "refs/remotes/origin/dev");
    assert_eq!(behind_range("dev"), "HEAD..origin/dev");
}

#[test]
fn clean_git_pack_provenance_carries_namespace_sha_ref_dirty() {
    let c = git_currency(&clean("dev", true));
    let prov = pack_provenance("acme", "/some/path", c, &Some("abc123\n".to_string()), None);
    assert_eq!(prov.namespace, "acme");
    assert_eq!(prov.source, "/some/path");
    assert_eq!(prov.sha.as_deref(), Some("abc123"));
    assert_eq!(prov.git_ref.as_deref(), Some("dev"));
    assert_eq!(prov.dirty, Some(false));
}

#[test]
fn dirty_git_pack_provenance_reports_dirty_true() {
    let a = GitAnswers {
        status: Some("?? NOTES.md\n".to_string()),
        ..clean("dev", true)
    };
    let prov = pack_provenance("acme", "/some/path", git_currency(&a), &Some("abc123\n".to_string()), None);
    assert_eq!(prov.dirty, Some(true));
    assert!(prov.sha.is_some());
}

#[test]
fn non_git_path_pack_provenance_has_no_sha_ref_or_dirty() {
    let prov = pack_provenance("plain", "/plain/path", None, &None, None);
    assert_eq!(prov.namespace, "plain");
    assert_eq!(prov.source, "/plain/path");
    assert_eq!(prov.sha, None);
    assert_eq!(prov.git_ref, None);
    assert_eq!(prov.dirty, None);
}

#[test]
fn remote_pack_provenance_uses_the_declared_ref_not_the_cache_dirs_local_branch_name() {
    let c = git_currency(&clean("master", false));
    let prov = pack_provenance(
        "remote-pack",
        "file:///origin",
        c,
        &Some("abc123\n".to_string()),
        Some("main"),
    );
    assert_eq!(prov.sha.as_deref(), Some("abc123"));
    assert_eq!(prov.git_ref.as_deref(), Some("main"));
    assert_eq!(prov.dirty, Some(false));
}

#[test]
fn resolved_sha_matches_git_rev_parse_head() {
    assert_eq!(resolved_sha(&Some("0f3c\n".to_string())), Some("0f3c".to_string()));
}

#[test]
fn resolved_sha_is_none_for_a_non_git_dir() {
    assert_eq!(resolved_sha(&None), None);
}

fn ok() -> Result<(), String> {
    Ok(())
}

#[test]
fn a_cold_clone_runs_init_remote_fetch_checkout() {
    let mut seen: Vec<Vec<String>> = Vec::new();
    let mut action = clone_or_update("git+https://h/r", "abc", "/cache/r", false);
    loop {
        match action {
            CloneAction::Git { step, args, .. } => {
                seen.push(args);
                action = clone_next(step, ok(), "git+https://h/r", "abc", "/cache/r");
            }
            CloneAction::Done => break,
            _ => panic!("a clone whose commands succeed comes to its end"),
        }
    }
    assert_eq!(seen.len(), 4);
    assert!(seen[0].contains(&"init".to_string()));
    assert!(seen[1].contains(&"https://h/r".to_string()));
    assert!(seen[2].contains(&"abc".to_string()));
    assert!(seen[3].contains(&"FETCH_HEAD".to_string()));
}

#[test]
fn git_failures_are_worded() {
    let args = vec!["fetch".to_string(), "origin".to_string()];
    assert_eq!(
        run_git(&args, &GitRun::Exited { success: true, stderr: String::new() }),
        Ok(())
    );
    assert_eq!(
        run_git(&args, &GitRun::Exited { success: false, stderr: "no such ref\n".to_string() }),
        Err("`git fetch origin` failed: no such ref".to_string())
    );
    assert_eq!(
        run_git(&args, &GitRun::NotStarted("not found".to_string())),
        Err("running `git fetch origin`: not found (is git on PATH?)".to_string())
    );
    assert_eq!(push("/r", Ok(())), Ok(()));
    assert_eq!(
        push("/r", Err("denied".to_string())),
        Err("REPO_PUSH_FAILED: pushing /r: denied".to_string())
    );
}

#[test]
fn a_failed_clone_removes_what_it_began_and_a_failed_update_does_not() {
    match clone_or_update("https://h/r", "main", "/cache/r", false) {
        CloneAction::Git { step, .. } => {
            match clone_next(step, Err("disk full".to_string()), "https://h/r", "main", "/cache/r") {
                CloneAction::Fail { message, remove_dest } => {
                    assert_eq!(message, "REPO_CLONE_FAILED: initializing 'https://h/r': disk full");
                    assert!(remove_dest);
                }
                _ => panic!("a failed step gives up"),
            }
        }
        _ => panic!("a clone begins with a command"),
    }
    match clone_or_update("https://h/r", "main", "/cache/r", true) {
        CloneAction::Git { step, args, .. } => {
            assert_eq!(args, vec!["rev-parse".to_string(), "--git-dir".to_string()]);
            match clone_next(step, Err("bad object".to_string()), "https://h/r", "main", "/cache/r") {
                CloneAction::Fail { message, remove_dest } => {
                    assert!(message.starts_with("REPO_CACHE_CORRUPT: '/cache/r'"));
                    assert!(!remove_dest);
                }
                _ => panic!("a failed step gives up"),
            }
        }
        _ => panic!("an update begins with a command"),
    }
}
