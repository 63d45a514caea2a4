use praxec_core::json::{Json, JsonMap, Number};
use praxec_core::sandbox::{
    judge_run, wall_clock, BwrapProvider, ConfinementProfile, Egress, HostFacts, OciProvider, Probe,
    ResourceLimits, RunEnd, SandboxProvider, SandboxSpec,
};

fn convert(v: &serde_json::Value) -> Json {
    match v {
        serde_json::Value::Null => Json::Null,
        serde_json::Value::Bool(b) => Json::Bool(*b),
        serde_json::Value::Number(n) => {
            if let Some(u) = n.as_u64() {
                Json::Number(Number::PosInt(u))
            } else if let Some(i) = n.as_i64() {
                Json::Number(Number::NegInt(i))
            } else {
                Json::Number(Number::Float(n.to_string()))
            }
        }
        serde_json::Value::String(s) => Json::Str(s.clone()),
        serde_json::Value::Array(a) => Json::Array(a.iter().map(convert).collect()),
        serde_json::Value::Object(m) => {
            let mut out = JsonMap::new();
            for (k, v) in m {
                out.insert(k.clone(), convert(v));
            }
            Json::Object(out)
        }
    }
}

fn json(text: &str) -> Json {
    convert(&serde_json::from_str::<serde_json::Value>(text).unwrap())
}

fn spec(egress: Egress) -> SandboxSpec {
    SandboxSpec {
        workspace: None,
        command: vec!["true".to_string()],
        ro_binds: vec![],
        env: vec![],
        egress,
        env_allowlist: vec![],
        limits: ResourceLimits::default(),
    }
}

fn host() -> HostFacts {
    HostFacts {
        ambient: vec![],
        cgroup_scope: false,
    }
}

#[test]
fn absent_confinement_parses_to_none_unconfined() {
    for text in [
        r#"{ "kind": "script" }"#,
        r#"{ "confinement": null }"#,
        r#"{ "confinement": "none" }"#,
    ] {
        assert!(matches!(ConfinementProfile::from_executor_config(&json(text)), Ok(None)), "{text}");
    }
}

#[test]
fn confined_string_parses_to_deny_all_scrubbed() {
    let p = ConfinementProfile::from_executor_config(&json(r#"{ "confinement": "confined" }"#))
        .ok()
        .unwrap()
        .unwrap();
    assert!(matches!(p.egress, Egress::DenyAll));
    assert!(p.env_allowlist.is_empty());
}

#[test]
fn object_profile_parses_egress_and_env() {
    let p = ConfinementProfile::from_executor_config(&json(
        r#"{ "confinement": { "egress": ["api.internal:443"], "env": ["HOME", "TZ"] } }"#,
    ))
    .ok()
    .unwrap()
    .unwrap();
    assert!(matches!(&p.egress, Egress::Allow(hosts) if hosts == &vec!["api.internal:443".to_string()]));
    assert_eq!(p.env_allowlist, vec!["HOME".to_string(), "TZ".to_string()]);
}

#[test]
fn invalid_confinement_fails_fast_not_silent_default() {
    let err = ConfinementProfile::from_executor_config(&json(r#"{ "confinement": "sandboxed" }"#))
        .err()
        .unwrap();
    assert!(err.contains("INVALID_CONFINEMENT"));
    let err2 = ConfinementProfile::from_executor_config(&json(r#"{ "confinement": 42 }"#))
        .err()
        .unwrap();
    assert!(err2.contains("INVALID_CONFINEMENT"));
}

#[test]
fn bwrap_egress_allowlist_fails_fast_not_silent() {
    let p = BwrapProvider::new();
    let err = p
        .run(&spec(Egress::Allow(vec!["api:443".to_string()])), &host())
        .err()
        .unwrap();
    assert!(err.contains("BWRAP_EGRESS_UNSUPPORTED"));
}

#[test]
fn oci_translates_the_same_spec_to_container_args() {
    let p = OciProvider::new("docker", "debian:stable-slim");
    let spec = SandboxSpec {
        workspace: Some("/work".to_string()),
        command: vec!["bash".to_string(), "/tmp/s.sh".to_string()],
        ro_binds: vec!["/tmp/s.sh".to_string()],
        env: vec![("FLAG".to_string(), "ok".to_string())],
        egress: Egress::DenyAll,
        env_allowlist: vec!["TZ".to_string()],
        limits: ResourceLimits {
            wall_clock_secs: 30,
            max_pids: 64,
        },
    };
    let args = p.run_args(&spec).unwrap();
    let joined = args.join(" ");
    assert!(args.starts_with(&["run".to_string(), "--rm".to_string()]));
    assert!(joined.contains("--network none"), "deny egress: {joined}");
    assert!(joined.contains("--pids-limit 64"), "cgroup pids limit: {joined}");
    assert!(joined.contains("-e FLAG=ok"), "explicit env: {joined}");
    assert!(joined.contains("-e TZ"), "allowlist passthrough: {joined}");
    assert!(joined.contains("-v /tmp/s.sh:/tmp/s.sh:ro"), "ro bind: {joined}");
    assert!(joined.contains("-v /work:/work"), "workspace mount: {joined}");
    assert!(joined.contains("-w /work"), "workdir: {joined}");
    assert!(joined.ends_with("debian:stable-slim bash /tmp/s.sh"), "image + command: {joined}");
}

#[test]
fn oci_egress_allowlist_fails_fast() {
    let p = OciProvider::new("docker", "x");
    let err = p
        .run(&spec(Egress::Allow(vec!["api:443".to_string()])), &host())
        .err()
        .unwrap();
    assert!(err.contains("OCI_EGRESS_UNSUPPORTED"));
}

#[test]
fn oci_preflight_is_coherent() {
    let p = OciProvider::new("docker", "debian:stable-slim");
    let up = Probe::Exited {
        success: true,
        stderr: String::new(),
    };
    let down = Probe::Exited {
        success: false,
        stderr: "no daemon".to_string(),
    };
    let gone = Probe::NotStarted("not found".to_string());
    for (probe, usable) in [(up, true), (down, false), (gone, false)] {
        let pf = p.preflight(&probe);
        assert_eq!(pf.usable, usable);
        assert_eq!(pf.usable, pf.install_hint.is_none());
    }
}

#[test]
fn bwrap_clears_the_environment_and_passes_what_is_given() {
    let mut s = spec(Egress::DenyAll);
    s.env = vec![("FLAG".to_string(), "ok".to_string())];
    s.env_allowlist = vec!["TZ".to_string(), "GONE".to_string()];
    let facts = HostFacts {
        ambient: vec![Some("UTC".to_string()), None],
        cgroup_scope: false,
    };
    let c = BwrapProvider::new().run(&s, &facts).ok().unwrap();
    assert_eq!(c.program, "bwrap");
    let joined = c.args.join(" ");
    assert!(joined.contains("--clearenv"), "{joined}");
    assert!(joined.contains("--setenv FLAG ok"), "{joined}");
    assert!(joined.contains("--setenv TZ UTC"), "{joined}");
    assert!(!joined.contains("GONE"), "{joined}");
    assert!(joined.ends_with("true"), "{joined}");
}

#[test]
fn a_run_past_its_time_is_an_error() {
    let limits = ResourceLimits {
        wall_clock_secs: 30,
        max_pids: 64,
    };
    assert_eq!(wall_clock(&limits), 30);
    assert!(judge_run("bwrap", &limits, RunEnd::TimedOut).is_err());
    assert!(judge_run("bwrap", &limits, RunEnd::SpawnFailed("no such file".to_string())).is_err());
}

#[test]
fn an_object_profile_sets_its_bounds() {
    let p = ConfinementProfile::from_executor_config(&json(
        r#"{ "confinement": { "limits": { "wall_clock_secs": 30, "max_pids": 64 } } }"#,
    ))
    .ok()
    .unwrap()
    .unwrap();
    assert_eq!((p.limits.wall_clock_secs, p.limits.max_pids), (30, 64));
    let p = ConfinementProfile::from_executor_config(&json(r#"{ "confinement": { "limits": { "max_pids": 8 } } }"#))
        .ok()
        .unwrap()
        .unwrap();
    assert_eq!((p.limits.wall_clock_secs, p.limits.max_pids), (300, 8));
    for bad in [
        r#"{ "confinement": { "limits": 5 } }"#,
        r#"{ "confinement": { "limits": { "max_pids": "many" } } }"#,
        r#"{ "confinement": { "limits": { "max_pids": 4294967296 } } }"#,
        r#"{ "confinement": { "limits": { "wall_clock_secs": -1 } } }"#,
    ] {
        let e = ConfinementProfile::from_executor_config(&json(bad)).err().unwrap();
        assert!(e.starts_with("INVALID_CONFINEMENT: `confinement.limits"), "{e}");
    }
}

#[test]
fn an_array_that_holds_anything_but_strings_is_refused() {
    for (config, expected) in [
        (
            r#"{ "confinement": { "egress": ["api:443", 7] } }"#,
            "INVALID_CONFINEMENT: `confinement.egress` must be \"deny\" or an array of host:port allowlist entries \
             (got an array that holds a value of type number)",
        ),
        (
            r#"{ "confinement": { "env": [null] } }"#,
            "INVALID_CONFINEMENT: `confinement.env` must be an array of env var names to pass through \
             (got an array that holds a value of type null)",
        ),
    ] {
        let err = ConfinementProfile::from_executor_config(&json(config)).err().unwrap();
        assert_eq!(err, expected);
    }
    assert!(ConfinementProfile::from_executor_config(&json(r#"{ "confinement": { "egress": [], "env": ["A"] } }"#)).is_ok());
}
