//! What is read of tools that registries offer is what was written.

use vstd::prelude::*;

use crate::json::JsonView;
use crate::runtime::agent_laws::lists;
use crate::tool_catalog::adapters::github_org::{picked, repo_tool};
use crate::tool_catalog::adapters::mcp_registry::{server_tool, server_tools};
use crate::tool_catalog::adapters::rest::{rest_tool, rest_tools};
use crate::tool_catalog::candidate::{
    candidate_in, nothing_required, source_in, texts_in, tier_in, transport_in, CandidateView,
    SourceView, Transport, TrustTier,
};
use crate::tool_catalog::catalog::registry_name;
use crate::tool_catalog::registry::{registries_in, RegistryView, RepoView};

verus! {

/// The word for a transport.
pub open spec fn transport_word(t: Transport) -> Seq<char> {
    match t {
        Transport::Stdio => "stdio"@,
        Transport::Docker => "docker"@,
        Transport::Remote => "remote"@,
        Transport::Rest => "rest"@,
    }
}

/// The word for a tier of trust.
pub open spec fn tier_word(t: TrustTier) -> Seq<char> {
    match t {
        TrustTier::Community => "community"@,
        TrustTier::Org => "org"@,
        TrustTier::Verified => "verified"@,
    }
}

/// The word for a source, and the name of its only field, with its value.
pub open spec fn source_words(s: SourceView) -> (Seq<char>, Seq<char>, Seq<char>) {
    match s {
        SourceView::Repo(u) => ("repo"@, "url"@, u),
        SourceView::Crate(n) => ("crate"@, "name"@, n),
        SourceView::Npm(p) => ("npm"@, "pkg"@, p),
        SourceView::Image(i) => ("image"@, "image"@, i),
        SourceView::Url(u) => ("url"@, "url"@, u),
    }
}

/// Whether a value writes a source.
pub open spec fn writes_source(v: JsonView, s: SourceView) -> bool {
    let (word, key, value) = source_words(s);
    v matches JsonView::Object(m) && m.len() == 1 && m[0].0 == word && m[0].1.get_str(key) == Some(
        value,
    )
}

/// Whether an object writes a tool that needs nothing, member by member.
pub open spec fn writes_tool(v: JsonView, c: CandidateView) -> bool {
    &&& v is Object
    &&& v.get("name"@) == Some(JsonView::Str(c.name))
    &&& v.get("description"@) == Some(JsonView::Str(c.description))
    &&& v.get("transport"@) == Some(JsonView::Str(transport_word(c.transport)))
    &&& v.get("source"@) matches Some(s) && writes_source(s, c.source)
    &&& lists(v.get("verbs"@), c.verbs)
    &&& lists(v.get("tags"@), c.tags)
    &&& v.get("trust_tier"@) == Some(JsonView::Str(tier_word(c.trust_tier)))
    &&& v.get("requires"@) is None && c.requires == nothing_required()
    &&& v.get("provenance"@) == Some(JsonView::Str(c.provenance))
}

proof fn lemma_tool_words()
    ensures
        "stdio"@ != "docker"@,
        "stdio"@ != "remote"@,
        "stdio"@ != "rest"@,
        "docker"@ != "remote"@,
        "docker"@ != "rest"@,
        "remote"@ != "rest"@,
        "community"@ != "org"@,
        "community"@ != "verified"@,
        "org"@ != "verified"@,
        "repo"@ != "crate"@,
        "repo"@ != "npm"@,
        "repo"@ != "image"@,
        "repo"@ != "url"@,
        "crate"@ != "npm"@,
        "crate"@ != "image"@,
        "crate"@ != "url"@,
        "npm"@ != "image"@,
        "npm"@ != "url"@,
        "image"@ != "url"@,
        "static"@ != "github-org"@,
        "static"@ != "rest"@,
        "static"@ != "mcp-registry"@,
        "github-org"@ != "rest"@,
        "github-org"@ != "mcp-registry"@,
        "rest"@ != "mcp-registry"@,
        "npm"@ != "docker"@,
        "npm"@ != "oci"@,
{
    reveal_strlit("stdio");
    reveal_strlit("docker");
    reveal_strlit("remote");
    reveal_strlit("rest");
    reveal_strlit("community");
    reveal_strlit("org");
    reveal_strlit("verified");
    reveal_strlit("repo");
    reveal_strlit("crate");
    reveal_strlit("npm");
    reveal_strlit("image");
    reveal_strlit("url");
    reveal_strlit("static");
    reveal_strlit("github-org");
    reveal_strlit("mcp-registry");
    reveal_strlit("oci");
    assert("stdio"@.len() == 5);
    assert("docker"@.len() == 6);
    assert("remote"@.len() == 6);
    assert("rest"@.len() == 4);
    assert("community"@.len() == 9);
    assert("org"@.len() == 3);
    assert("verified"@.len() == 8);
    assert("repo"@.len() == 4);
    assert("crate"@.len() == 5);
    assert("npm"@.len() == 3);
    assert("image"@.len() == 5);
    assert("url"@.len() == 3);
    assert("static"@.len() == 6);
    assert("github-org"@.len() == 10);
    assert("mcp-registry"@.len() == 12);
    assert("oci"@.len() == 3);
    assert("docker"@[0] != "remote"@[0]);
    assert("crate"@[0] != "image"@[0]);
    assert("npm"@[0] != "url"@[0]);
    assert("npm"@[0] != "oci"@[0]);
}

proof fn lemma_texts_in(v: JsonView, texts: Seq<Seq<char>>)
    requires
        lists(Some(v), texts),
    ensures
        texts_in(v) == Some(texts),
{
    if let JsonView::Array(a) = v {
        assert forall|i: int| 0 <= i < a.len() implies (#[trigger] a[i]) is Str by {}
        assert(a.map_values(|e: JsonView| e->Str_0) =~= texts);
    }
}

/// A tool that is written down is read as it was written, by the catalog itself and from a registry,
/// which puts its own name to it.
pub proof fn law_tools_are_read_as_written(v: JsonView, c: CandidateView, registry: Seq<char>)
    requires
        writes_tool(v, c),
    ensures
        candidate_in(v) == Some(c),
        rest_tool(v, registry) == Some(CandidateView { provenance: registry, ..c }),
{
    lemma_tool_words();
    lemma_texts_in(v.get("verbs"@)->0, c.verbs);
    lemma_texts_in(v.get("tags"@)->0, c.tags);
    let s = v.get("source"@)->0;
    assert(source_in(s) == Some(c.source));
}

/// Words that stand for no transport, no tier and no source are not read as one.
pub proof fn law_unknown_words_are_not_read(word: Seq<char>)
    ensures
        transport_in(JsonView::Str(word)) is Some <==> exists|t: Transport| word == #[trigger]
            transport_word(t),
        tier_in(JsonView::Str(word)) is Some <==> exists|t: TrustTier| word == #[trigger] tier_word(t),
{
    if transport_in(JsonView::Str(word)) is Some {
        assert(word == transport_word(transport_in(JsonView::Str(word))->0));
    }
    if tier_in(JsonView::Str(word)) is Some {
        assert(word == tier_word(tier_in(JsonView::Str(word))->0));
    }
}

/// A registry offers exactly the tools that its elements write.
pub proof fn law_registries_offer_what_is_written(
    a: Seq<JsonView>,
    registry: Seq<char>,
    c: CandidateView,
)
    ensures
        rest_tools(a, registry).contains(c) <==> exists|k: int|
            0 <= k < a.len() && rest_tool(#[trigger] a[k], registry) == Some(c),
        server_tools(a, registry).contains(c) <==> exists|k: int|
            0 <= k < a.len() && server_tool(#[trigger] a[k], registry) == Some(c),
    decreases a.len(),
{
    if a.len() > 0 {
        let init = a.drop_last();
        law_registries_offer_what_is_written(init, registry, c);
        let n = a.len() - 1;
        assert(a[n] == a.last());
        assert forall|k: int| 0 <= k < init.len() implies init[k] == #[trigger] a[k] by {}
        lemma_offered(
            rest_tools(init, registry),
            rest_tools(a, registry),
            rest_tool(a.last(), registry),
            c,
        );
        lemma_offered(
            server_tools(init, registry),
            server_tools(a, registry),
            server_tool(a.last(), registry),
            c,
        );
        if exists|k: int| 0 <= k < init.len() && rest_tool(#[trigger] init[k], registry) == Some(c) {
            let k = choose|k: int|
                0 <= k < init.len() && rest_tool(#[trigger] init[k], registry) == Some(c);
            assert(rest_tool(a[k], registry) == Some(c));
        }
        if exists|k: int| 0 <= k < a.len() && rest_tool(#[trigger] a[k], registry) == Some(c) {
            let k = choose|k: int| 0 <= k < a.len() && rest_tool(#[trigger] a[k], registry) == Some(c);
            if k < n {
                assert(rest_tool(init[k], registry) == Some(c));
            }
        }
        if exists|k: int|
            0 <= k < init.len() && server_tool(#[trigger] init[k], registry) == Some(c) {
            let k = choose|k: int|
                0 <= k < init.len() && server_tool(#[trigger] init[k], registry) == Some(c);
            assert(server_tool(a[k], registry) == Some(c));
        }
        if exists|k: int| 0 <= k < a.len() && server_tool(#[trigger] a[k], registry) == Some(c) {
            let k = choose|k: int|
                0 <= k < a.len() && server_tool(#[trigger] a[k], registry) == Some(c);
            if k < n {
                assert(server_tool(init[k], registry) == Some(c));
            }
        }
    }
}

proof fn lemma_offered(
    before: Seq<CandidateView>,
    now: Seq<CandidateView>,
    last: Option<CandidateView>,
    c: CandidateView,
)
    requires
        now == (match last {
            Some(x) => before.push(x),
            None => before,
        }),
    ensures
        now.contains(c) <==> before.contains(c) || last == Some(c),
{
    if before.contains(c) {
        let x = choose|x: int| 0 <= x < before.len() && before[x] == c;
        assert(now[x] == c);
    }
    if last == Some(c) {
        assert(now[before.len() as int] == c);
    }
}

/// What a server's entry is read as: its own name and description, never trusted less or more than as
/// verified, under the registry's name; from its first package by the kind of that, else from its
/// first remote, else from its repository.
pub proof fn law_servers_are_read(v: JsonView, registry: Seq<char>)
    ensures
        server_tool(v, registry) matches Some(c) ==> {
            let listed = |key: Seq<char>|
                match v.get(key) {
                    Some(JsonView::Array(a)) => if a.len() > 0 {
                        Some(a[0])
                    } else {
                        None
                    },
                    _ => None::<JsonView>,
                };
            &&& v.get("name"@) == Some(JsonView::Str(c.name))
            &&& c.provenance == registry
            &&& c.trust_tier == TrustTier::Verified
            &&& c.verbs.len() == 0 && c.tags.len() == 0 && c.requires == nothing_required()
            &&& c.description == (match v.get_str("description"@) {
                Some(d) => d,
                None => Seq::empty(),
            })
            &&& match listed("packages"@) {
                Some(p) => {
                    let named = match p.get_str("name"@) {
                        Some(n) => n,
                        None => c.name,
                    };
                    &&& p.get_str("registry_name"@) == Some("npm"@) ==> c.source == SourceView::Npm(
                        named,
                    ) && c.transport == Transport::Stdio
                    &&& p.get_str("registry_name"@) == Some("docker"@) || p.get_str(
                        "registry_name"@,
                    ) == Some("oci"@) ==> c.source == SourceView::Image(named) && c.transport
                        == Transport::Docker
                },
                None => match listed("remotes"@) {
                    Some(x) => c.transport == Transport::Remote && (c.source matches SourceView::Url(u)
                        && x.get_str("url"@) == Some(u)),
                    None => c.transport == Transport::Stdio && (c.source matches SourceView::Repo(u)
                        && v.at(seq!["repository"@, "url"@]) == Some(JsonView::Str(u))),
                },
            }
        },
{
    lemma_tool_words();
    let path = seq!["repository"@, "url"@];
    reveal_with_fuel(JsonView::at, 3);
    assert(path.drop_first() =~= seq!["url"@]);
    assert(path.drop_first().drop_first() =~= Seq::empty());
}

/// Of the topics of a repository those that are verbs become its verbs, and exactly the others its
/// tags. It is offered under the registry's name, as a tool of the organisation.
pub proof fn law_topics_are_verbs_or_tags(
    r: RepoView,
    name: Seq<char>,
    org: Seq<char>,
    vocabulary: Seq<Seq<char>>,
    topic: Seq<char>,
)
    ensures
        ({
            let c = repo_tool(r, name, org, vocabulary);
            &&& c.verbs.contains(topic) <==> r.topics.contains(topic) && vocabulary.contains(topic)
            &&& c.tags.contains(topic) <==> r.topics.contains(topic) && !vocabulary.contains(topic)
            &&& c.name == r.name
            &&& c.description == r.description
            &&& c.provenance == name
            &&& c.trust_tier == TrustTier::Org
            &&& c.transport == Transport::Stdio
            &&& c.source == SourceView::Repo("https://github.com/"@ + org + "/"@ + r.name)
            &&& c.requires == nothing_required()
        }),
{
    lemma_picked(r.topics, vocabulary, true, topic);
    lemma_picked(r.topics, vocabulary, false, topic);
}

proof fn lemma_picked(
    list: Seq<Seq<char>>,
    vocabulary: Seq<Seq<char>>,
    inside: bool,
    topic: Seq<char>,
)
    ensures
        picked(list, vocabulary, inside).contains(topic) <==> list.contains(topic)
            && vocabulary.contains(topic) == inside,
    decreases list.len(),
{
    if list.len() > 0 {
        let init = list.drop_last();
        lemma_picked(init, vocabulary, inside, topic);
        let before = picked(init, vocabulary, inside);
        let now = picked(list, vocabulary, inside);
        if before.contains(topic) {
            let x = choose|x: int| 0 <= x < before.len() && before[x] == topic;
            assert(now[x] == topic);
        }
        if init.contains(topic) {
            let x = choose|x: int| 0 <= x < init.len() && init[x] == topic;
            assert(list[x] == topic);
        }
        if now.contains(topic) {
            let x = choose|x: int| 0 <= x < now.len() && now[x] == topic;
            if x < before.len() {
                assert(before[x] == topic);
            } else {
                assert(list[list.len() - 1] == topic);
            }
        }
        if list.contains(topic) {
            let x = choose|x: int| 0 <= x < list.len() && list[x] == topic;
            if x < init.len() {
                assert(init[x] == topic);
            } else if vocabulary.contains(topic) == inside {
                assert(now[before.len() as int] == topic);
            }
        }
    }
}

/// The registries of a configuration: one for each entry, in their order, of the kind and under the
/// name that the entry says, at the address that it gives.
pub proof fn law_registries_are_read(config: JsonView, k: int)
    ensures
        config.get("registries"@) matches Some(JsonView::Array(a)) ==> registries_in(config).len()
            == a.len() && (0 <= k < a.len() ==> {
            let r = registries_in(config)[k];
            let said = |key: Seq<char>|
                match a[k].get_str(key) {
                    Some(s) => s,
                    None => Seq::<char>::empty(),
                };
            &&& registry_name(r) == said("name"@)
            &&& r is Static <==> said("kind"@) == "static"@
            &&& r is GithubOrg <==> said("kind"@) == "github-org"@
            &&& r is Rest <==> said("kind"@) == "rest"@
            &&& r is McpRegistry <==> said("kind"@) == "mcp-registry"@
            &&& r matches RegistryView::GithubOrg { org, .. } ==> org == said("org"@)
            &&& r matches RegistryView::Rest { url, .. } ==> url == said("url"@)
            &&& r matches RegistryView::McpRegistry { url, .. } ==> (a[k].get_str("url"@) is Some
                ==> url == said("url"@))
            &&& r matches RegistryView::Unknown { kind, .. } ==> kind == said("kind"@)
        }),
{
    lemma_tool_words();
}

} // verus!
