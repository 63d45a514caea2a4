use praxec_core::json::{Json, JsonMap, Number};
use praxec_core::tool_catalog::adapters::github_org::GithubOrgAdapter;
use praxec_core::tool_catalog::adapters::mcp_registry::{default_mcp_registry_url, McpRegistryAdapter};
use praxec_core::tool_catalog::adapters::rest::RestAdapter;
use praxec_core::tool_catalog::adapters::static_adapter::StaticAdapter;
use praxec_core::tool_catalog::candidate::{
    parse_candidate, Requires, ToolCandidate, ToolSource, Transport, TrustTier,
};
use praxec_core::tool_catalog::registry::{
    org_repos_url, parse_gh_repos, registries_from, CatalogIo, GhRepo, RegistryAdapter, RegistrySpec,
};

fn convert(v: &serde_json::Value) -> Json {
    match v {
        serde_json::Value::Null => Json::Null,
        serde_json::Value::Bool(b) => Json::Bool(*b),
        serde_json::Value::Number(n) => {
            if let Some(u) = n.as_u64() {
                Json::Number(Number::PosInt(u))
            } else if let Some(i) = n.as_i64() {
                Json::Number(Number::NegInt(i))
            } else {
                Json::Number(Number::Float(n.to_string()))
            }
        }
        serde_json::Value::String(s) => Json::Str(s.clone()),
        serde_json::Value::Array(a) => Json::Array(a.iter().map(convert).collect()),
        serde_json::Value::Object(m) => {
            let mut out = JsonMap::new();
            for (k, v) in m {
                out.insert(k.clone(), convert(v));
            }
            Json::Object(out)
        }
    }
}

fn json(text: &str) -> Json {
    convert(&serde_json::from_str::<serde_json::Value>(text).unwrap())
}

/// Answers every fetch with the same reply.
struct Fetching(Result<Json, String>);

impl CatalogIo for Fetching {
    fn github_org_repos(&self, _org: &str) -> Result<Vec<GhRepo>, String> {
        Err("n/a".to_string())
    }
    fn fetch_json(&self, _u: &str) -> Result<Json, String> {
        self.0.clone()
    }
}

struct FakeGh(Result<Vec<(&'static str, &'static str, Vec<&'static str>)>, String>);

impl CatalogIo for FakeGh {
    fn github_org_repos(&self, _org: &str) -> Result<Vec<GhRepo>, String> {
        match &self.0 {
            Ok(repos) => Ok(repos
                .iter()
                .map(|(name, description, topics)| GhRepo {
                    name: name.to_string(),
                    description: description.to_string(),
                    topics: topics.iter().map(|t| t.to_string()).collect(),
                })
                .collect()),
            Err(e) => Err(e.clone()),
        }
    }
    fn fetch_json(&self, _u: &str) -> Result<Json, String> {
        Err("n/a".to_string())
    }
}

fn verbs() -> Vec<String> {
    vec!["review".to_string(), "diagnose".to_string()]
}

fn mcp(body: &str) -> Result<Vec<ToolCandidate>, String> {
    McpRegistryAdapter::new("official", default_mcp_registry_url())
        .candidates(&Fetching(Ok(json(body))), &verbs())
}

fn rest(body: &str) -> Result<Vec<ToolCandidate>, String> {
    RestAdapter::new("acme-rest", "https://example.com/tools")
        .candidates(&Fetching(Ok(json(body))), &verbs())
}

#[test]
fn github_org_maps_repos_to_org_tier_candidates() {
    let io = FakeGh(Ok(vec![("fmeca", "FMECA MCP", vec!["mcp", "review"])]));
    let out = GithubOrgAdapter::new("praxec-org", "praxec")
        .candidates(&io, &verbs())
        .ok()
        .unwrap();
    assert_eq!(out.len(), 1);
    assert!(matches!(out[0].trust_tier, TrustTier::Org));
    assert!(matches!(&out[0].source, ToolSource::Repo { url } if url == "https://github.com/praxec/fmeca"));
    assert!(out[0].verbs.contains(&"review".to_string()));
    assert!(out[0].tags.contains(&"mcp".to_string()));
    assert_eq!(out[0].provenance, "praxec-org");
}

#[test]
fn adapter_propagates_io_error() {
    let err = GithubOrgAdapter::new("praxec-org", "praxec")
        .candidates(&FakeGh(Err("rate limited".to_string())), &verbs())
        .err()
        .unwrap();
    assert_eq!(err, "rate limited");
}

#[test]
fn maps_npm_package_entry_to_stdio_npm_verified() {
    let out = mcp(
        r#"{ "servers": [
            {
                "name": "io.github.acme/browser-mcp",
                "description": "Playwright-backed browser automation MCP server.",
                "repository": { "url": "https://github.com/acme/browser-mcp", "source": "github" },
                "packages": [
                    { "registry_name": "npm", "name": "@acme/browser-mcp", "version": "1.2.0" }
                ]
            }
        ]}"#,
    )
    .ok()
    .unwrap();
    assert_eq!(out.len(), 1);
    assert_eq!(out[0].name, "io.github.acme/browser-mcp");
    assert!(matches!(out[0].transport, Transport::Stdio));
    assert!(matches!(&out[0].source, ToolSource::Npm { pkg } if pkg == "@acme/browser-mcp"));
    assert!(matches!(out[0].trust_tier, TrustTier::Verified));
    assert_eq!(out[0].provenance, "official");
}

#[test]
fn maps_docker_package_entry_to_docker_image() {
    let out = mcp(
        r#"{ "servers": [
            {
                "name": "io.github.acme/sandbox-mcp",
                "description": "Sandboxed exec MCP server.",
                "packages": [
                    { "registry_name": "docker", "name": "acme/sandbox-mcp", "version": "0.4.0" }
                ]
            }
        ]}"#,
    )
    .ok()
    .unwrap();
    assert!(matches!(out[0].transport, Transport::Docker));
    assert!(matches!(&out[0].source, ToolSource::Image { image } if image == "acme/sandbox-mcp"));
}

#[test]
fn maps_remote_only_entry_to_remote_url() {
    let out = mcp(
        r#"{ "servers": [
            {
                "name": "io.github.acme/remote-mcp",
                "description": "Hosted MCP server.",
                "remotes": [
                    { "transport_type": "sse", "url": "https://mcp.acme.dev/remote" }
                ]
            }
        ]}"#,
    )
    .ok()
    .unwrap();
    assert!(matches!(out[0].transport, Transport::Remote));
    assert!(matches!(&out[0].source, ToolSource::Url { url } if url == "https://mcp.acme.dev/remote"));
}

#[test]
fn maps_repository_only_entry_to_repo_stdio() {
    let out = mcp(
        r#"{ "servers": [
            {
                "name": "io.github.acme/repo-only-mcp",
                "description": "Repo-only entry, no packages/remotes.",
                "repository": { "url": "https://github.com/acme/repo-only-mcp", "source": "github" }
            }
        ]}"#,
    )
    .ok()
    .unwrap();
    assert!(matches!(out[0].transport, Transport::Stdio));
    assert!(matches!(&out[0].source, ToolSource::Repo { url } if url == "https://github.com/acme/repo-only-mcp"));
}

#[test]
fn skips_entries_with_no_packages_remotes_or_repository() {
    let out = mcp(
        r#"{ "servers": [
            { "name": "io.github.acme/nothing-mcp", "description": "no install info" },
            {
                "name": "io.github.acme/good-mcp",
                "packages": [ { "registry_name": "npm", "name": "@acme/good-mcp" } ]
            }
        ]}"#,
    )
    .ok()
    .unwrap();
    assert_eq!(out.len(), 1);
    assert_eq!(out[0].name, "io.github.acme/good-mcp");
}

#[test]
fn accepts_bare_top_level_array_envelope() {
    let out = mcp(
        r#"[
            {
                "name": "io.github.acme/bare-mcp",
                "packages": [ { "registry_name": "npm", "name": "@acme/bare-mcp" } ]
            }
        ]"#,
    )
    .ok()
    .unwrap();
    assert_eq!(out.len(), 1);
}

#[test]
fn errors_when_no_servers_array_present() {
    let err = mcp(r#"{ "message": "not found" }"#).err().unwrap();
    assert!(err.contains("no 'servers' array"));
}

#[test]
fn propagates_fetch_error() {
    let err = McpRegistryAdapter::new("official", default_mcp_registry_url())
        .candidates(&Fetching(Err("timed out".to_string())), &verbs())
        .err()
        .unwrap();
    assert_eq!(err, "timed out");
}

#[test]
fn rest_adapter_maps_full_entry() {
    let out = rest(
        r#"[
            {
                "name": "browser-mcp",
                "description": "Playwright browser automation",
                "transport": "stdio",
                "source": { "npm": { "pkg": "@playwright/mcp" } },
                "verbs": ["diagnose"],
                "tags": ["browser", "e2e"],
                "trust_tier": "verified",
                "requires": { "secrets": [{"name": "API_KEY", "description": "token"}], "config": [] }
            }
        ]"#,
    )
    .ok()
    .unwrap();
    assert_eq!(out.len(), 1);
    assert_eq!(out[0].name, "browser-mcp");
    assert!(matches!(out[0].transport, Transport::Stdio));
    assert!(matches!(&out[0].source, ToolSource::Npm { pkg } if pkg == "@playwright/mcp"));
    assert_eq!(out[0].verbs, vec!["diagnose".to_string()]);
    assert!(matches!(out[0].trust_tier, TrustTier::Verified));
    assert_eq!(out[0].requires.secrets.len(), 1);
    assert_eq!(out[0].provenance, "acme-rest");
}

#[test]
fn rest_adapter_defaults_missing_optional_fields() {
    let out = rest(
        r#"[
            {
                "name": "minimal-tool",
                "transport": "remote",
                "source": { "url": { "url": "https://tools.example.com/minimal" } }
            }
        ]"#,
    )
    .ok()
    .unwrap();
    assert_eq!(out.len(), 1);
    assert_eq!(out[0].description, "");
    assert!(out[0].verbs.is_empty());
    assert!(out[0].tags.is_empty());
    assert!(matches!(out[0].trust_tier, TrustTier::Community));
    assert!(out[0].requires.secrets.is_empty());
}

#[test]
fn rest_adapter_skips_malformed_entries_without_failing() {
    let out = rest(
        r#"[
            { "description": "no name or transport or source" },
            { "name": "bad-transport", "transport": "carrier-pigeon", "source": { "url": { "url": "x" } } },
            { "name": "good", "transport": "docker", "source": { "image": { "image": "acme/good:latest" } } }
        ]"#,
    )
    .ok()
    .unwrap();
    assert_eq!(out.len(), 1);
    assert_eq!(out[0].name, "good");
}

#[test]
fn rest_adapter_errors_on_non_array_body() {
    let err = rest(r#"{ "message": "not an array" }"#).err().unwrap();
    assert!(err.contains("not a JSON array"));
}

#[test]
fn rest_adapter_propagates_fetch_error() {
    let err = RestAdapter::new("acme-rest", "https://example.com/tools")
        .candidates(&Fetching(Err("connection refused".to_string())), &verbs())
        .err()
        .unwrap();
    assert_eq!(err, "connection refused");
}

#[test]
fn static_adapter_returns_its_candidates_with_provenance() {
    let c = ToolCandidate {
        name: "x".to_string(),
        description: "desc".to_string(),
        transport: Transport::Stdio,
        source: ToolSource::Crate {
            name: "x".to_string(),
        },
        verbs: vec![],
        tags: vec![],
        trust_tier: TrustTier::Community,
        requires: Requires::default(),
        provenance: "".to_string(),
    };
    let a = StaticAdapter::new("local", vec![c]);
    let out = a
        .candidates(&Fetching(Err("unused".to_string())), &verbs())
        .ok()
        .unwrap();
    assert_eq!(out.len(), 1);
    assert_eq!(out[0].provenance, "local");
}

#[test]
fn a_candidate_is_read_from_its_document() {
    let text = r#"{
        "name": "browser-mcp",
        "description": "Playwright browser",
        "transport": "stdio",
        "source": { "npm": { "pkg": "@playwright/mcp" } },
        "verbs": ["diagnose", "research"],
        "tags": ["browser"],
        "trust_tier": "verified",
        "requires": { "secrets": [], "config": [] },
        "provenance": "mcp-registry"
    }"#;
    let c = parse_candidate(&json(text)).unwrap();
    assert_eq!(c.name, "browser-mcp");
    assert!(matches!(c.transport, Transport::Stdio));
    assert!(matches!(&c.source, ToolSource::Npm { pkg } if pkg == "@playwright/mcp"));
    assert_eq!(c.verbs, vec!["diagnose".to_string(), "research".to_string()]);
    assert!(matches!(c.trust_tier, TrustTier::Verified));
    assert_eq!(c.provenance, "mcp-registry");
    assert!(parse_candidate(&json(r#"{ "name": "x" }"#)).is_none());
}

#[test]
fn parse_gh_repos_maps_name_description_topics() {
    let body = json(
        r#"[
            { "name": "fmeca", "description": "FMECA MCP", "topics": ["mcp", "review"] },
            { "name": "no-desc", "description": null, "topics": [] }
        ]"#,
    );
    let repos = parse_gh_repos(&body).unwrap();
    assert_eq!(repos.len(), 2);
    assert_eq!(repos[0].name, "fmeca");
    assert_eq!(repos[0].description, "FMECA MCP");
    assert_eq!(repos[0].topics, vec!["mcp".to_string(), "review".to_string()]);
    assert_eq!(repos[1].name, "no-desc");
    assert_eq!(repos[1].description, "");
    assert!(repos[1].topics.is_empty());
}

#[test]
fn parse_gh_repos_skips_entries_missing_a_name() {
    let body = json(r#"[ { "description": "no name here" }, { "name": "ok" } ]"#);
    let repos = parse_gh_repos(&body).unwrap();
    assert_eq!(repos.len(), 1);
    assert_eq!(repos[0].name, "ok");
}

#[test]
fn parse_gh_repos_rejects_non_array_body() {
    assert!(parse_gh_repos(&json(r#"{ "message": "Not Found" }"#)).is_none());
}

#[test]
fn the_repositories_of_an_organisation_are_asked_of_github() {
    assert_eq!(org_repos_url("praxec"), "https://api.github.com/orgs/praxec/repos?per_page=100");
}

#[test]
fn parses_static_and_github_org_and_flags_unknown() {
    let cfg = json(
        r#"{ "registries": [
            { "kind": "github-org", "name": "praxec", "org": "praxec" },
            { "kind": "static", "name": "local", "candidates": [] },
            { "kind": "smithery", "name": "sm" }
        ]}"#,
    );
    let specs = registries_from(&cfg);
    assert_eq!(specs.len(), 3);
    assert!(matches!(&specs[0], RegistrySpec::GithubOrg { org, .. } if org == "praxec"));
    assert!(matches!(&specs[1], RegistrySpec::Static { .. }));
    assert!(matches!(&specs[2], RegistrySpec::Unknown { kind, .. } if kind == "smithery"));
}

#[test]
fn missing_registries_key_yields_empty() {
    assert!(registries_from(&json("{}")).is_empty());
}

#[test]
fn parses_rest_with_explicit_url() {
    let cfg = json(
        r#"{ "registries": [
            { "kind": "rest", "name": "acme-rest", "url": "https://tools.acme.dev/registry.json" }
        ]}"#,
    );
    let specs = registries_from(&cfg);
    assert_eq!(specs.len(), 1);
    assert!(matches!(&specs[0], RegistrySpec::Rest { name, url }
        if name == "acme-rest" && url == "https://tools.acme.dev/registry.json"));
}

#[test]
fn parses_mcp_registry_with_explicit_url() {
    let cfg = json(
        r#"{ "registries": [
            { "kind": "mcp-registry", "name": "official", "url": "https://mirror.example.com/v0/servers" }
        ]}"#,
    );
    let specs = registries_from(&cfg);
    assert!(matches!(&specs[0], RegistrySpec::McpRegistry { name, url }
        if name == "official" && url == "https://mirror.example.com/v0/servers"));
}

#[test]
fn mcp_registry_defaults_url_when_omitted() {
    let cfg = json(r#"{ "registries": [ { "kind": "mcp-registry", "name": "official" } ]}"#);
    let specs = registries_from(&cfg);
    assert!(matches!(&specs[0], RegistrySpec::McpRegistry { url, .. }
        if url == default_mcp_registry_url()));
}

/// Hands the address or the organisation back as the reason of a failure.
struct Echo;

impl CatalogIo for Echo {
    fn github_org_repos(&self, org: &str) -> Result<Vec<GhRepo>, String> {
        Err(format!("org {org}"))
    }
    fn fetch_json(&self, url: &str) -> Result<Json, String> {
        Err(format!("url {url}"))
    }
}

#[test]
fn registries_ask_for_their_own_address() {
    let none: Vec<String> = vec![];
    let asked = |r: Result<Vec<ToolCandidate>, String>| r.err().unwrap();
    assert_eq!(asked(RestAdapter::new("n", "https://a/tools").candidates(&Echo, &none)), "url https://a/tools");
    assert_eq!(asked(McpRegistryAdapter::new("n", "https://b/v0").candidates(&Echo, &none)), "url https://b/v0");
    assert_eq!(asked(GithubOrgAdapter::new("n", "acme").candidates(&Echo, &none)), "org acme");
}
