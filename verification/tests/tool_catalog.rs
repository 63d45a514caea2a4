use praxec_core::json::Json;
use praxec_core::tool_catalog::candidate::{Requires, ToolCandidate, ToolSource, Transport, TrustTier};
use praxec_core::tool_catalog::catalog::{assemble, discover, evaluate, Cache, DEFAULT_TTL_SECS};
use praxec_core::tool_catalog::registry::{CatalogIo, GhRepo, RegistrySpec};

struct NoopIo;
impl CatalogIo for NoopIo {
    fn github_org_repos(&self, _org: &str) -> Result<Vec<GhRepo>, String> {
        Err("unused".to_string())
    }
    fn fetch_json(&self, _url: &str) -> Result<Json, String> {
        Err("unused".to_string())
    }
}

struct ErroringGh;
impl CatalogIo for ErroringGh {
    fn github_org_repos(&self, _org: &str) -> Result<Vec<GhRepo>, String> {
        Err("rate limited".to_string())
    }
    fn fetch_json(&self, _url: &str) -> Result<Json, String> {
        Err("unused".to_string())
    }
}

fn candidate(name: &str, trust_tier: TrustTier) -> ToolCandidate {
    ToolCandidate {
        name: name.to_string(),
        description: format!("{name} description"),
        transport: Transport::Stdio,
        source: ToolSource::Crate {
            name: name.to_string(),
        },
        verbs: vec![],
        tags: vec![],
        trust_tier,
        requires: Requires::default(),
        provenance: "".to_string(),
    }
}

fn candidate_with_verbs(name: &str, verbs: Vec<&str>, trust_tier: TrustTier) -> ToolCandidate {
    ToolCandidate {
        verbs: verbs.into_iter().map(String::from).collect(),
        ..candidate(name, trust_tier)
    }
}

#[test]
fn assemble_dedups_keeping_highest_trust() {
    let specs = vec![
        RegistrySpec::Static {
            name: "community-reg".to_string(),
            candidates: vec![candidate("x", TrustTier::Community)],
        },
        RegistrySpec::Static {
            name: "verified-reg".to_string(),
            candidates: vec![candidate("x", TrustTier::Verified)],
        },
    ];
    let (cat, warns) = assemble(&specs, &NoopIo, &vec![]);
    assert_eq!(cat.iter().filter(|c| c.name == "x").count(), 1);
    assert_eq!(
        cat.iter().find(|c| c.name == "x").unwrap().trust_tier,
        TrustTier::Verified
    );
    assert!(warns.is_empty());
}

#[test]
fn evaluate_ranks_by_verb_overlap_then_trust() {
    let a = candidate_with_verbs("A", vec!["diagnose"], TrustTier::Community);
    let b = candidate_with_verbs("B", vec!["diagnose", "verify"], TrustTier::Org);
    let cat = vec![a, b];
    let hits = evaluate(&cat, &vec!["diagnose".to_string(), "verify".to_string()]);
    assert_eq!(hits[0].name, "B");
}

#[test]
fn cache_is_stale_after_ttl() {
    let c = Cache {
        fetched_at: 0,
        catalog: vec![],
    };
    assert!(c.is_stale(86_401, 86_400));
    assert!(!c.is_stale(100, 86_400));
}

#[test]
fn a_failing_adapter_becomes_a_warning_not_an_abort() {
    let specs = vec![
        RegistrySpec::GithubOrg {
            name: "gh".to_string(),
            org: "org".to_string(),
        },
        RegistrySpec::Static {
            name: "static-ok".to_string(),
            candidates: vec![candidate("y", TrustTier::Community)],
        },
    ];
    let (cat, warns) = assemble(&specs, &ErroringGh, &vec![]);
    assert_eq!(warns.len(), 1);
    assert!(!cat.is_empty());
    assert_eq!(warns[0], "registry 'gh' failed: rate limited");
}

#[test]
fn discover_ranks_name_hits_above_description_hits() {
    let cat = vec![candidate("browser-mcp", TrustTier::Community), {
        let mut c = candidate("other", TrustTier::Community);
        c.description = "a browser automation tool".to_string();
        c
    }];
    let hits = discover(&cat, "browser");
    assert_eq!(hits.len(), 2);
    assert_eq!(hits[0].name, "browser-mcp");
}

#[test]
fn discover_empty_query_returns_full_catalog() {
    let cat = vec![candidate("a", TrustTier::Community)];
    assert_eq!(discover(&cat, "").len(), 1);
}

#[test]
fn discover_ignores_the_case_of_letters() {
    let mut tagged = candidate("zeta", TrustTier::Org);
    tagged.description = "nothing".to_string();
    tagged.tags = vec!["BROWSER".to_string()];
    let cat = vec![tagged, candidate("Browser-MCP", TrustTier::Community), candidate("no", TrustTier::Org)];
    let hits = discover(&cat, "bRowser");
    assert_eq!(hits.len(), 2);
    assert_eq!(hits[0].name, "Browser-MCP");
    assert_eq!(hits[1].name, "zeta");
}

#[test]
fn the_cache_lives_a_day() {
    let c = Cache { fetched_at: -5, catalog: vec![] };
    assert!(!c.is_stale(86_395, DEFAULT_TTL_SECS));
    assert!(c.is_stale(86_396, DEFAULT_TTL_SECS));
    assert!(c.is_stale(i64::MAX, DEFAULT_TTL_SECS));
}
