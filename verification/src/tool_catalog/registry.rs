//! The registries that a configuration declares, and the seam through which they are
//! read.

use vstd::prelude::*;

use crate::json::{views, Json, JsonView};
use crate::runtime::links::{collect_strings, strings_in, text_or};
use crate::text::{same, texts};
use crate::tool_catalog::adapters::mcp_registry::default_mcp_registry_url;
use crate::tool_catalog::candidate::{
    candidate_views, candidates_in, parse_candidates, CandidateView, ToolCandidate,
};

verus! {

/// One declared registry. A kind that is not known is kept, to be reported.
pub enum RegistrySpec {
    Static { name: String, candidates: Vec<ToolCandidate> },
    GithubOrg { name: String, org: String },
    Rest { name: String, url: String },
    McpRegistry { name: String, url: String },
    Unknown { name: String, kind: String },
}

/// The model of a declared registry.
pub enum RegistryView {
    Static { name: Seq<char>, candidates: Seq<CandidateView> },
    GithubOrg { name: Seq<char>, org: Seq<char> },
    Rest { name: Seq<char>, url: Seq<char> },
    McpRegistry { name: Seq<char>, url: Seq<char> },
    Unknown { name: Seq<char>, kind: Seq<char> },
}

impl RegistrySpec {
    pub open spec fn view(&self) -> RegistryView {
        match self {
            RegistrySpec::Static { name, candidates } => RegistryView::Static {
                name: name@,
                candidates: candidate_views(candidates@),
            },
            RegistrySpec::GithubOrg { name, org } => RegistryView::GithubOrg {
                name: name@,
                org: org@,
            },
            RegistrySpec::Rest { name, url } => RegistryView::Rest { name: name@, url: url@ },
            RegistrySpec::McpRegistry { name, url } => RegistryView::McpRegistry {
                name: name@,
                url: url@,
            },
            RegistrySpec::Unknown { name, kind } => RegistryView::Unknown {
                name: name@,
                kind: kind@,
            },
        }
    }
}

pub open spec fn registry_views(s: Seq<RegistrySpec>) -> Seq<RegistryView> {
    s.map_values(|r: RegistrySpec| r@)
}

/// The registry that an entry of the configuration declares.
pub open spec fn registry_in(entry: JsonView) -> RegistryView {
    let name = text_or(entry.get_str("name"@), Seq::empty());
    let kind = text_or(entry.get_str("kind"@), Seq::empty());
    if kind == "static"@ {
        RegistryView::Static {
            name,
            candidates: match entry.get("candidates"@) {
                Some(c) => match candidates_in(c) {
                    Some(list) => list,
                    None => Seq::empty(),
                },
                None => Seq::empty(),
            },
        }
    } else if kind == "github-org"@ {
        RegistryView::GithubOrg { name, org: text_or(entry.get_str("org"@), Seq::empty()) }
    } else if kind == "rest"@ {
        RegistryView::Rest { name, url: text_or(entry.get_str("url"@), Seq::empty()) }
    } else if kind == "mcp-registry"@ {
        RegistryView::McpRegistry {
            name,
            url: text_or(
                entry.get_str("url"@),
                "https://registry.modelcontextprotocol.io/v0/servers"@,
            ),
        }
    } else {
        RegistryView::Unknown { name, kind }
    }
}

/// The registries that a configuration declares, one for each entry.
pub open spec fn registries_in(config: JsonView) -> Seq<RegistryView> {
    match config.step("registries"@) {
        Some(JsonView::Array(a)) => a.map_values(|e: JsonView| registry_in(e)),
        _ => Seq::empty(),
    }
}

fn text_or_empty(v: Option<&str>) -> (r: String)
    ensures
        r@ == text_or(crate::json::opt_text(v), Seq::empty()),
{
    match v {
        Some(s) => s.to_owned(),
        None => String::new(),
    }
}

fn registry_from(entry: &Json) -> (r: RegistrySpec)
    ensures
        r@ == registry_in(entry@),
{
    let name = text_or_empty(entry.get_str("name"));
    let kind = text_or_empty(entry.get_str("kind"));
    if same(kind.as_str(), "static") {
        let none: Vec<ToolCandidate> = Vec::new();
        assert(candidate_views(none@) =~= Seq::empty());
        let candidates = match entry.get("candidates") {
            Some(c) => match parse_candidates(c) {
                Some(list) => list,
                None => none,
            },
            None => none,
        };
        RegistrySpec::Static { name, candidates }
    } else if same(kind.as_str(), "github-org") {
        RegistrySpec::GithubOrg { name, org: text_or_empty(entry.get_str("org")) }
    } else if same(kind.as_str(), "rest") {
        RegistrySpec::Rest { name, url: text_or_empty(entry.get_str("url")) }
    } else if same(kind.as_str(), "mcp-registry") {
        let url = match entry.get_str("url") {
            Some(u) => u.to_owned(),
            None => default_mcp_registry_url().to_owned(),
        };
        RegistrySpec::McpRegistry { name, url }
    } else {
        RegistrySpec::Unknown { name, kind }
    }
}

/// Reads the declared registries. No entry is an error: one of a kind that is not known
/// is kept as such.
pub fn registries_from(config: &Json) -> (r: Vec<RegistrySpec>)
    ensures
        registry_views(r@) == registries_in(config@),
{
    let mut out: Vec<RegistrySpec> = Vec::new();
    assert(registry_views(out@) =~= Seq::empty());
    let entries = match config.step("registries") {
        Some(v) => match v.as_array() {
            Some(a) => a,
            None => {
                return out;
            },
        },
        None => {
            return out;
        },
    };
    let mut i: usize = 0;
    while i < entries.len()
        invariant
            i <= entries@.len(),
            i == out@.len(),
            forall|j: int| 0 <= j < i ==> (#[trigger] out@[j])@ == registry_in(entries@[j]@),
        decreases entries@.len() - i,
    {
        out.push(registry_from(&entries[i]));
        i = i + 1;
    }
    assert(registry_views(out@) =~= views(entries@).map_values(|e: JsonView| registry_in(e)));
    out
}

/// A repository of an organisation.
pub struct GhRepo {
    pub name: String,
    pub description: String,
    pub topics: Vec<String>,
}

/// The model of a repository.
pub struct RepoView {
    pub name: Seq<char>,
    pub description: Seq<char>,
    pub topics: Seq<Seq<char>>,
}

impl GhRepo {
    pub open spec fn view(&self) -> RepoView {
        RepoView {
            name: self.name@,
            description: self.description@,
            topics: texts(self.topics@),
        }
    }
}

pub open spec fn repo_views(s: Seq<GhRepo>) -> Seq<RepoView> {
    s.map_values(|r: GhRepo| r@)
}

/// The repository that an element of the list writes, if it has a name.
pub open spec fn repo_in(v: JsonView) -> Option<RepoView> {
    match v.get_str("name"@) {
        Some(name) => Some(
            RepoView {
                name,
                description: text_or(v.get_str("description"@), Seq::empty()),
                topics: strings_in(v.get("topics"@)),
            },
        ),
        None => None,
    }
}

/// The repositories with a name among the elements of a list.
pub open spec fn repos_in(a: Seq<JsonView>) -> Seq<RepoView>
    decreases a.len(),
{
    if a.len() == 0 {
        Seq::empty()
    } else {
        match repo_in(a.last()) {
            Some(r) => repos_in(a.drop_last()).push(r),
            None => repos_in(a.drop_last()),
        }
    }
}

/// Reads a list of repositories; nothing where the body is no array.
pub fn parse_gh_repos(body: &Json) -> (r: Option<Vec<GhRepo>>)
    ensures
        match r {
            Some(repos) => body@ is Array && repo_views(repos@) == repos_in(body@->Array_0),
            None => !(body@ is Array),
        },
{
    let a = match body.as_array() {
        Some(a) => a,
        None => {
            return None;
        },
    };
    let mut out: Vec<GhRepo> = Vec::new();
    let mut i: usize = 0;
    assert(repo_views(out@) =~= Seq::empty());
    while i < a.len()
        invariant
            i <= a@.len(),
            repo_views(out@) == repos_in(views(a@).take(i as int)),
        decreases a@.len() - i,
    {
        let ghost next = views(a@).take(i + 1);
        let ghost before = out@;
        assert(next.drop_last() =~= views(a@).take(i as int));
        assert(next.last() == a@[i as int]@);
        if let Some(name) = a[i].get_str("name") {
            let repo = GhRepo {
                name: name.to_owned(),
                description: text_or_empty(a[i].get_str("description")),
                topics: collect_strings(a[i].get("topics")),
            };
            out.push(repo);
            assert(repo_views(out@) =~= repo_views(before).push(repo@));
        }
        i = i + 1;
    }
    assert(views(a@).take(i as int) =~= views(a@));
    Some(out)
}

/// The address of the list of an organisation's repositories.
pub fn org_repos_url(org: &str) -> (r: String)
    ensures
        r@ == "https://api.github.com/orgs/"@ + org@ + "/repos?per_page=100"@,
{
    let mut u = "https://api.github.com/orgs/".to_owned();
    u.append(org);
    u.append("/repos?per_page=100");
    u
}

/// A list of repositories or an error, as its model.
pub open spec fn repos_reply(r: Result<Vec<GhRepo>, String>) -> Result<Seq<RepoView>, Seq<char>> {
    match r {
        Ok(repos) => Ok(repo_views(repos@)),
        Err(e) => Err(e@),
    }
}

/// A document or an error, as its model.
pub open spec fn json_reply(r: Result<Json, String>) -> Result<JsonView, Seq<char>> {
    match r {
        Ok(v) => Ok(v@),
        Err(e) => Err(e@),
    }
}

/// Tools or an error, as their model.
pub open spec fn tools_reply(r: Result<Vec<ToolCandidate>, String>) -> Result<
    Seq<CandidateView>,
    Seq<char>,
> {
    match r {
        Ok(list) => Ok(candidate_views(list@)),
        Err(e) => Err(e@),
    }
}

/// What registries are read through. Nothing is known of what comes back.
pub trait CatalogIo {
    /// The repositories of an organisation.
    fn github_org_repos(&self, org: &str) -> Result<Vec<GhRepo>, String>;

    /// The JSON document at an address.
    fn fetch_json(&self, url: &str) -> Result<Json, String>;
}

/// Whether the document at an address may have come as `got`: it is what `io` gave for this
/// very address.
pub open spec fn may_fetch<I: CatalogIo>(io: &I, url: Seq<char>, got: Result<Json, String>) -> bool {
    exists|u: &str| u@ == url && #[trigger] call_ensures(I::fetch_json, (io, u), got)
}

/// Whether the repositories of an organisation may have come as `got`: it is what `io` gave
/// for this very organisation.
pub open spec fn may_list<I: CatalogIo>(
    io: &I,
    org: Seq<char>,
    got: Result<Vec<GhRepo>, String>,
) -> bool {
    exists|o: &str| o@ == org && #[trigger] call_ensures(I::github_org_repos, (io, o), got)
}

/// A registry that offers tools.
pub trait RegistryAdapter {
    /// The name of the registry.
    spec fn label(&self) -> Seq<char>;

    fn name(&self) -> (r: &str)
        ensures
            r@ == self.label(),
    ;

    /// The tools of the registry, read through `io`. Every one carries the registry's
    /// name. `vocabulary` has the words that count as verbs.
    fn candidates<I: CatalogIo>(&self, io: &I, vocabulary: &Vec<String>) -> (r: Result<
        Vec<ToolCandidate>,
        String,
    >)
        ensures
            r matches Ok(list) ==> forall|i: int|
                0 <= i < list@.len() ==> (#[trigger] list@[i]).provenance@ == self.label(),
    ;
}

} // verus!
