//! The registry of published MCP servers, or a mirror of it.
//!
//! A response is an object with an array `servers`, or that array itself. An entry may
//! list packages, remotes and a repository; the first of these that it has tells where
//! the tool comes from.

use vstd::prelude::*;

use crate::json::{opt_view, then_step, views, Json, JsonView};
use crate::runtime::links::text_or;
use crate::text::{same, texts};
use crate::tool_catalog::candidate::{
    candidate_views, nothing_required, CandidateView, Requires, SourceView, ToolCandidate,
    ToolSource, Transport, TrustTier,
};
use crate::tool_catalog::registry::{
    json_reply, may_fetch, tools_reply, CatalogIo, RegistryAdapter,
};

verus! {

/// The address of the registry that is used where none is declared.
pub fn default_mcp_registry_url() -> (r: &'static str)
    ensures
        r@ == "https://registry.modelcontextprotocol.io/v0/servers"@,
{
    "https://registry.modelcontextprotocol.io/v0/servers"
}

/// The registry of published servers.
pub struct McpRegistryAdapter {
    name: String,
    url: String,
}

/// A list under a key that is there and not empty.
pub open spec fn list_at(v: JsonView, key: Seq<char>) -> Option<Seq<JsonView>> {
    match v.get_array(key) {
        Some(a) => if a.len() > 0 {
            Some(a)
        } else {
            None
        },
        None => None,
    }
}

/// The address of an entry's repository.
pub open spec fn repository_url(v: JsonView) -> Option<Seq<char>> {
    match then_step(v.step("repository"@), "url"@) {
        Some(u) => u.as_str(),
        None => None,
    }
}

/// How an entry's tool is launched and where it comes from.
pub open spec fn server_source(v: JsonView, name: Seq<char>) -> Option<(Transport, SourceView)> {
    match list_at(v, "packages"@) {
        Some(packages) => {
            let registry = text_or(packages[0].get_str("registry_name"@), Seq::empty());
            let package = text_or(packages[0].get_str("name"@), name);
            Some(
                if registry == "npm"@ {
                    (Transport::Stdio, SourceView::Npm(package))
                } else if registry == "docker"@ || registry == "oci"@ {
                    (Transport::Docker, SourceView::Image(package))
                } else {
                    (
                        Transport::Stdio,
                        match repository_url(v) {
                            Some(u) => SourceView::Repo(u),
                            None => SourceView::Npm(package),
                        },
                    )
                },
            )
        },
        None => match list_at(v, "remotes"@) {
            Some(remotes) => match remotes[0].get_str("url"@) {
                Some(u) => Some((Transport::Remote, SourceView::Url(u))),
                None => None,
            },
            None => match repository_url(v) {
                Some(u) => Some((Transport::Stdio, SourceView::Repo(u))),
                None => None,
            },
        },
    }
}

/// The tool that an entry writes; none without a name or a source.
pub open spec fn server_tool(v: JsonView, registry: Seq<char>) -> Option<CandidateView> {
    match v.get_str("name"@) {
        Some(name) => match server_source(v, name) {
            Some((transport, source)) => Some(
                CandidateView {
                    name,
                    description: text_or(v.get_str("description"@), Seq::empty()),
                    transport,
                    source,
                    verbs: Seq::empty(),
                    tags: Seq::empty(),
                    trust_tier: TrustTier::Verified,
                    requires: nothing_required(),
                    provenance: registry,
                },
            ),
            None => None,
        },
        None => None,
    }
}

/// The tools that the entries write.
pub open spec fn server_tools(a: Seq<JsonView>, registry: Seq<char>) -> Seq<CandidateView>
    decreases a.len(),
{
    if a.len() == 0 {
        Seq::empty()
    } else {
        match server_tool(a.last(), registry) {
            Some(c) => server_tools(a.drop_last(), registry).push(c),
            None => server_tools(a.drop_last(), registry),
        }
    }
}

/// The entries of a response.
pub open spec fn server_entries(body: JsonView) -> Option<Seq<JsonView>> {
    match body.get_array("servers"@) {
        Some(a) => Some(a),
        None => body.as_array(),
    }
}

/// What a response offers, or why it is none.
pub open spec fn server_offer(body: JsonView, registry: Seq<char>) -> Result<
    Seq<CandidateView>,
    Seq<char>,
> {
    match server_entries(body) {
        Some(a) => Ok(server_tools(a, registry)),
        None => Err("mcp-registry '"@ + registry + "' response had no 'servers' array"@),
    }
}

fn first_of<'a>(v: &'a Json, key: &str) -> (r: Option<&'a Json>)
    ensures
        opt_view(r) == (match list_at(v@, key@) {
            Some(a) => Some(a[0]),
            None => None,
        }),
{
    match v.get_array(key) {
        Some(a) => {
            assert(views(a@).len() == a@.len());
            if a.len() > 0 {
                assert(views(a@)[0] == a@[0]@);
                Some(&a[0])
            } else {
                None
            }
        },
        None => None,
    }
}

fn source_of(v: &Json, name: &str) -> (r: Option<(Transport, ToolSource)>)
    ensures
        (match r {
            Some((t, s)) => Some((t, s@)),
            None => None,
        }) == server_source(v@, name@),
{
    let repo_url = match v.at2("repository", "url") {
        Some(u) => u.as_str(),
        None => None,
    };
    if let Some(pkg) = first_of(v, "packages") {
        let registry = match pkg.get_str("registry_name") {
            Some(r) => r,
            None => "",
        };
        proof {
            reveal_strlit("");
            assert(""@ =~= Seq::empty());
        }
        let package = match pkg.get_str("name") {
            Some(n) => n.to_owned(),
            None => name.to_owned(),
        };
        if same(registry, "npm") {
            Some((Transport::Stdio, ToolSource::Npm { pkg: package }))
        } else if same(registry, "docker") || same(registry, "oci") {
            Some((Transport::Docker, ToolSource::Image { image: package }))
        } else {
            match repo_url {
                Some(u) => Some((Transport::Stdio, ToolSource::Repo { url: u.to_owned() })),
                None => Some((Transport::Stdio, ToolSource::Npm { pkg: package })),
            }
        }
    } else if let Some(remote) = first_of(v, "remotes") {
        match remote.get_str("url") {
            Some(u) => Some((Transport::Remote, ToolSource::Url { url: u.to_owned() })),
            None => None,
        }
    } else {
        match repo_url {
            Some(u) => Some((Transport::Stdio, ToolSource::Repo { url: u.to_owned() })),
            None => None,
        }
    }
}

impl McpRegistryAdapter {
    pub closed spec fn address(&self) -> Seq<char> {
        self.url@
    }

    pub fn new(name: &str, url: &str) -> (r: McpRegistryAdapter)
        ensures
            r.label() == name@,
            r.address() == url@,
    {
        McpRegistryAdapter { name: name.to_owned(), url: url.to_owned() }
    }

    /// Reads one entry.
    pub fn parse_one(&self, v: &Json) -> (r: Option<ToolCandidate>)
        ensures
            (match r {
                Some(c) => Some(c@),
                None => None,
            }) == server_tool(v@, self.label()),
    {
        let name = match v.get_str("name") {
            Some(n) => n.to_owned(),
            None => {
                return None;
            },
        };
        let description = match v.get_str("description") {
            Some(d) => d.to_owned(),
            None => String::new(),
        };
        match source_of(v, name.as_str()) {
            Some((transport, source)) => {
                let verbs: Vec<String> = Vec::new();
                let tags: Vec<String> = Vec::new();
                assert(texts(verbs@) =~= Seq::empty());
                assert(texts(tags@) =~= Seq::empty());
                Some(
                    ToolCandidate {
                        name,
                        description,
                        transport,
                        source,
                        verbs,
                        tags,
                        trust_tier: TrustTier::Verified,
                        requires: Requires::default(),
                        provenance: self.name.clone(),
                    },
                )
            },
            None => None,
        }
    }

    /// Reads a response.
    pub fn offered(&self, body: &Json) -> (r: Result<Vec<ToolCandidate>, String>)
        ensures
            match r {
                Ok(list) => server_offer(body@, self.label()) == Ok::<
                    Seq<CandidateView>,
                    Seq<char>,
                >(candidate_views(list@)),
                Err(e) => server_offer(body@, self.label()) == Err::<Seq<CandidateView>, Seq<char>>(
                    e@,
                ),
            },
    {
        let entries = match body.get_array("servers") {
            Some(a) => Some(a),
            None => body.as_array(),
        };
        let a = match entries {
            Some(a) => a,
            None => {
                let mut m = "mcp-registry '".to_owned();
                m.append(self.name.as_str());
                m.append("' response had no 'servers' array");
                return Err(m);
            },
        };
        let mut out: Vec<ToolCandidate> = Vec::new();
        let mut i: usize = 0;
        assert(candidate_views(out@) =~= Seq::empty());
        while i < a.len()
            invariant
                i <= a@.len(),
                candidate_views(out@) == server_tools(views(a@).take(i as int), self.label()),
            decreases a@.len() - i,
        {
            let ghost next = views(a@).take(i + 1);
            let ghost before = out@;
            assert(next.drop_last() =~= views(a@).take(i as int));
            assert(next.last() == a@[i as int]@);
            if let Some(c) = self.parse_one(&a[i]) {
                out.push(c);
                assert(candidate_views(out@) =~= candidate_views(before).push(c@));
            }
            i = i + 1;
        }
        assert(views(a@).take(i as int) =~= views(a@));
        Ok(out)
    }
}

/// What a reply offers: an error is handed on.
pub open spec fn mcp_reply(reply: Result<JsonView, Seq<char>>, registry: Seq<char>) -> Result<
    Seq<CandidateView>,
    Seq<char>,
> {
    match reply {
        Ok(body) => server_offer(body, registry),
        Err(e) => Err(e),
    }
}

pub proof fn lemma_server_provenance(a: Seq<JsonView>, registry: Seq<char>)
    ensures
        forall|i: int|
            0 <= i < server_tools(a, registry).len() ==> (#[trigger] server_tools(
                a,
                registry,
            )[i]).provenance == registry,
    decreases a.len(),
{
    if a.len() > 0 {
        lemma_server_provenance(a.drop_last(), registry);
        let before = server_tools(a.drop_last(), registry);
        assert forall|i: int| 0 <= i < server_tools(a, registry).len() implies (
        #[trigger] server_tools(a, registry)[i]).provenance == registry by {
            if i < before.len() {
                assert(server_tools(a, registry)[i] == before[i]);
            }
        }
    }
}

impl RegistryAdapter for McpRegistryAdapter {
    closed spec fn label(&self) -> Seq<char> {
        self.name@
    }

    fn name(&self) -> (r: &str) {
        self.name.as_str()
    }

    fn candidates<I: CatalogIo>(&self, io: &I, vocabulary: &Vec<String>) -> (r: Result<
        Vec<ToolCandidate>,
        String,
    >)
        ensures
            exists|got: Result<Json, String>| #[trigger]
                may_fetch(io, self.address(), got) && tools_reply(r) == mcp_reply(
                    json_reply(got),
                    self.label(),
                ),
    {
        let reply = io.fetch_json(self.url.as_str());
        let ghost asked = json_reply(reply);
        assert(may_fetch(io, self.address(), reply));
        match reply {
            Ok(body) => {
                let r = self.offered(&body);
                proof {
                    assert(tools_reply(r) == mcp_reply(asked, self.label()));
                    if let Ok(ref list) = r {
                        lemma_server_provenance(server_entries(body@)->0, self.label());
                        assert forall|i: int| 0 <= i < list@.len() implies (
                        #[trigger] list@[i]).provenance@ == self.label() by {
                            assert(candidate_views(list@)[i] == list@[i]@);
                        }
                    }
                }
                r
            },
            Err(e) => {
                assert(mcp_reply(asked, self.label()) == Err::<Seq<CandidateView>, Seq<char>>(e@));
                Err(e)
            },
        }
    }
}

} // verus!
