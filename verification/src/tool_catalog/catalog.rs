//! One catalog out of all registries, and what is found in it.

use vstd::prelude::*;

use crate::json::Json;
use crate::text::{
    contains, holds, lemma_lt_asymmetric, lemma_lt_total, lemma_lt_transitive, lowercase, lt,
    occurs, same, text_lt, texts, to_lowercase,
};
use crate::tool_catalog::adapters::github_org::{org_reply, GithubOrgAdapter};
use crate::tool_catalog::adapters::mcp_registry::{mcp_reply, McpRegistryAdapter};
use crate::tool_catalog::adapters::rest::{rest_reply, RestAdapter};
use crate::tool_catalog::adapters::static_adapter::{stamped, StaticAdapter};
use crate::tool_catalog::candidate::{
    candidate_views, copy_candidates, CandidateView, ToolCandidate,
};
use crate::tool_catalog::ranking::{
    arranged, kept, law_arranged, lemma_arranged_push, lemma_place_at, place,
};
use crate::tool_catalog::registry::{
    json_reply, may_fetch, may_list, registry_views, repos_reply, tools_reply, CatalogIo, GhRepo,
    RegistryAdapter, RegistrySpec, RegistryView,
};

verus! {

/// Whether both are the same tool: the same name and the same source.
pub open spec fn same_tool(a: CandidateView, b: CandidateView) -> bool {
    a.name == b.name && a.source == b.source
}

/// Where a tool stands in a list, or the list's length.
pub open spec fn position(list: Seq<CandidateView>, c: CandidateView) -> int
    decreases list.len(),
{
    if list.len() == 0 {
        0
    } else {
        let p = position(list.drop_last(), c);
        if p < list.len() - 1 {
            p
        } else if same_tool(list.last(), c) {
            list.len() - 1
        } else {
            list.len() as int
        }
    }
}

/// A list with one more tool. Of two copies the one of higher trust stays, the earlier
/// one where both have the same.
pub open spec fn merged(list: Seq<CandidateView>, c: CandidateView) -> Seq<CandidateView> {
    let p = position(list, c);
    if p == list.len() {
        list.push(c)
    } else if list[p].trust_tier.level() >= c.trust_tier.level() {
        list
    } else {
        list.update(p, c)
    }
}

/// A list with more tools.
pub open spec fn merged_all(list: Seq<CandidateView>, more: Seq<CandidateView>) -> Seq<
    CandidateView,
>
    decreases more.len(),
{
    if more.len() == 0 {
        list
    } else {
        merged(merged_all(list, more.drop_last()), more.last())
    }
}

/// The name under which a registry is declared.
pub open spec fn registry_name(r: RegistryView) -> Seq<char> {
    match r {
        RegistryView::Static { name, .. } => name,
        RegistryView::GithubOrg { name, .. } => name,
        RegistryView::Rest { name, .. } => name,
        RegistryView::McpRegistry { name, .. } => name,
        RegistryView::Unknown { name, .. } => name,
    }
}

/// The tools of all registries, before they are put in order, and the warnings. A
/// registry that failed or whose kind is not known gives a warning and no tool.
pub open spec fn gathered(
    registries: Seq<RegistryView>,
    replies: Seq<Result<Seq<CandidateView>, Seq<char>>>,
) -> (Seq<CandidateView>, Seq<Seq<char>>)
    decreases registries.len(),
{
    if registries.len() == 0 {
        (Seq::empty(), Seq::empty())
    } else {
        let (list, warnings) = gathered(registries.drop_last(), replies.drop_last());
        match registries.last() {
            RegistryView::Unknown { name, kind } => (
                list,
                warnings.push(
                    "registry '"@ + name + "' has unknown kind '"@ + kind + "' — skipped"@,
                ),
            ),
            r => match replies.last() {
                Ok(tools) => (merged_all(list, tools), warnings),
                Err(e) => (
                    list,
                    warnings.push("registry '"@ + registry_name(r) + "' failed: "@ + e),
                ),
            },
        }
    }
}

/// The order by name.
pub open spec fn by_name() -> spec_fn(CandidateView, CandidateView) -> bool {
    |a: CandidateView, b: CandidateView| text_lt(a.name, b.name)
}

/// The catalog and the warnings.
pub open spec fn assembled(
    registries: Seq<RegistryView>,
    replies: Seq<Result<Seq<CandidateView>, Seq<char>>>,
) -> (Seq<CandidateView>, Seq<Seq<char>>) {
    let (list, warnings) = gathered(registries, replies);
    (arranged(list, by_name()), warnings)
}

/// Whether a reply is read off what `io` gave for the address of a registry of this kind.
pub open spec fn may_rest_reply<I: CatalogIo>(
    io: &I,
    name: Seq<char>,
    url: Seq<char>,
    reply: Result<Seq<CandidateView>, Seq<char>>,
) -> bool {
    exists|got: Result<Json, String>| #[trigger]
        may_fetch(io, url, got) && reply == rest_reply(json_reply(got), name)
}

/// Whether a reply is read off what `io` gave for the address of a registry of this kind.
pub open spec fn may_mcp_reply<I: CatalogIo>(
    io: &I,
    name: Seq<char>,
    url: Seq<char>,
    reply: Result<Seq<CandidateView>, Seq<char>>,
) -> bool {
    exists|got: Result<Json, String>| #[trigger]
        may_fetch(io, url, got) && reply == mcp_reply(json_reply(got), name)
}

/// Whether a reply may be that of a declared registry: it is read off what `io` gave for the
/// address or the organisation that the registry declares.
pub open spec fn may_reply<I: CatalogIo>(
    io: &I,
    registry: RegistryView,
    vocabulary: Seq<Seq<char>>,
    reply: Result<Seq<CandidateView>, Seq<char>>,
) -> bool {
    match registry {
        RegistryView::Static { name, candidates } => reply == Ok::<Seq<CandidateView>, Seq<char>>(
            stamped(candidates, name),
        ),
        RegistryView::GithubOrg { name, org } => exists|got: Result<Vec<GhRepo>, String>| #[trigger]
            may_list(io, org, got) && reply == org_reply(repos_reply(got), name, org, vocabulary),
        RegistryView::Rest { name, url } => may_rest_reply(io, name, url, reply),
        RegistryView::McpRegistry { name, url } => may_mcp_reply(io, name, url, reply),
        RegistryView::Unknown { .. } => true,
    }
}

pub open spec fn reply_views(s: Seq<Result<Vec<ToolCandidate>, String>>) -> Seq<
    Result<Seq<CandidateView>, Seq<char>>,
> {
    s.map_values(|r: Result<Vec<ToolCandidate>, String>| tools_reply(r))
}

/// Where a tool stands in a list, or the list's length.
fn dedup_key(list: &Vec<ToolCandidate>, c: &ToolCandidate) -> (r: usize)
    ensures
        r == position(candidate_views(list@), c@),
        r <= list@.len(),
{
    let mut p: usize = 0;
    let mut i: usize = 0;
    while i < list.len()
        invariant
            i <= list@.len(),
            p <= i,
            p == position(candidate_views(list@).take(i as int), c@),
        decreases list@.len() - i,
    {
        let ghost next = candidate_views(list@).take(i + 1);
        assert(next.drop_last() =~= candidate_views(list@).take(i as int));
        assert(next.last() == list@[i as int]@);
        if p == i {
            let found = same(list[i].name.as_str(), c.name.as_str()) && list[i].source.equals(
                &c.source,
            );
            if !found {
                p = i + 1;
            }
        }
        i = i + 1;
    }
    assert(candidate_views(list@).take(i as int) =~= candidate_views(list@));
    p
}

/// Adds what a registry replied, or a warning.
fn collect(
    name: &str,
    reply: &Result<Vec<ToolCandidate>, String>,
    list: &mut Vec<ToolCandidate>,
    warnings: &mut Vec<String>,
)
    ensures
        match *reply {
            Ok(tools) => {
                &&& candidate_views(final(list)@) == merged_all(
                    candidate_views(old(list)@),
                    candidate_views(tools@),
                )
                &&& final(warnings)@ == old(warnings)@
            },
            Err(e) => {
                &&& final(list)@ == old(list)@
                &&& texts(final(warnings)@) == texts(old(warnings)@).push(
                    "registry '"@ + name@ + "' failed: "@ + e@,
                )
            },
        },
{
    match reply {
        Ok(tools) => {
            let mut i: usize = 0;
            let ghost all = candidate_views(tools@);
            while i < tools.len()
                invariant
                    i <= tools@.len(),
                    all == candidate_views(tools@),
                    candidate_views(list@) == merged_all(
                        candidate_views(old(list)@),
                        all.take(i as int),
                    ),
                decreases tools@.len() - i,
            {
                let ghost next = all.take(i + 1);
                assert(next.drop_last() =~= all.take(i as int));
                assert(next.last() == tools@[i as int]@);
                let ghost before = list@;
                let p: usize = dedup_key(list, &tools[i]);
                if p == list.len() {
                    list.push(tools[i].clone());
                    assert(candidate_views(list@) =~= candidate_views(before).push(
                        tools@[i as int]@,
                    ));
                } else if list[p].trust_tier.rank() < tools[i].trust_tier.rank() {
                    let c = tools[i].clone();
                    list.set(p, c);
                    assert(candidate_views(list@) =~= candidate_views(before).update(
                        p as int,
                        tools@[i as int]@,
                    ));
                }
                i = i + 1;
            }
            assert(all.take(i as int) =~= all);
        },
        Err(e) => {
            let mut m = "registry '".to_owned();
            m.append(name);
            m.append("' failed: ");
            m.append(e.as_str());
            let ghost before = warnings@;
            warnings.push(m);
            assert(texts(warnings@) =~= texts(before).push(m@));
        },
    }
}

fn place_by_name(list: &mut Vec<ToolCandidate>, c: ToolCandidate)
    ensures
        candidate_views(final(list)@) == place(candidate_views(old(list)@), c@, by_name()),
{
    let mut at: usize = list.len();
    while at > 0 && lt(c.name.as_str(), list[at - 1].name.as_str())
        invariant
            at <= list@.len(),
            forall|j: int| at <= j < list@.len() ==> text_lt(c.name@, (#[trigger] list@[j]).name@),
        decreases at,
    {
        at = at - 1;
    }
    let ghost before = list@;
    let ghost s = candidate_views(before);
    proof {
        assert forall|j: int| at <= j < s.len() implies by_name()(c@, #[trigger] s[j]) by {
            assert(s[j] == before[j]@);
        }
        if at > 0 {
            assert(s[at - 1] == before[at - 1]@);
        }
        lemma_place_at(s, c@, by_name(), at as int);
    }
    list.insert(at, c);
    assert(candidate_views(list@) =~= s.insert(at as int, c@));
}

fn arrange_by_name(list: &Vec<ToolCandidate>) -> (r: Vec<ToolCandidate>)
    ensures
        candidate_views(r@) == arranged(candidate_views(list@), by_name()),
{
    let mut out: Vec<ToolCandidate> = Vec::new();
    let mut i: usize = 0;
    assert(candidate_views(out@) =~= Seq::empty());
    let ghost all = candidate_views(list@);
    while i < list.len()
        invariant
            i <= list@.len(),
            all == candidate_views(list@),
            candidate_views(out@) == arranged(all.take(i as int), by_name()),
        decreases list@.len() - i,
    {
        place_by_name(&mut out, list[i].clone());
        proof {
            lemma_arranged_push(all.take(i as int), list@[i as int]@, by_name());
            assert(all.take(i + 1) =~= all.take(i as int).push(list@[i as int]@));
        }
        i = i + 1;
    }
    assert(all.take(i as int) =~= all);
    out
}

/// The catalog of the registries that replied so, and the warnings.
pub fn assemble_replies(
    specs: &Vec<RegistrySpec>,
    replies: &Vec<Result<Vec<ToolCandidate>, String>>,
) -> (r: (Vec<ToolCandidate>, Vec<String>))
    requires
        specs@.len() == replies@.len(),
    ensures
        (candidate_views(r.0@), texts(r.1@)) == assembled(
            registry_views(specs@),
            reply_views(replies@),
        ),
{
    let mut list: Vec<ToolCandidate> = Vec::new();
    let mut warnings: Vec<String> = Vec::new();
    assert(candidate_views(list@) =~= Seq::empty());
    assert(texts(warnings@) =~= Seq::empty());
    let ghost rs = registry_views(specs@);
    let ghost ps = reply_views(replies@);
    let mut i: usize = 0;
    while i < specs.len()
        invariant
            i <= specs@.len(),
            specs@.len() == replies@.len(),
            rs == registry_views(specs@),
            ps == reply_views(replies@),
            (candidate_views(list@), texts(warnings@)) == gathered(
                rs.take(i as int),
                ps.take(i as int),
            ),
        decreases specs@.len() - i,
    {
        let ghost next = rs.take(i + 1);
        let ghost answers = ps.take(i + 1);
        assert(next.drop_last() =~= rs.take(i as int));
        assert(answers.drop_last() =~= ps.take(i as int));
        assert(next.last() == specs@[i as int]@);
        assert(answers.last() == tools_reply(replies@[i as int]));
        match &specs[i] {
            RegistrySpec::Static { name, .. } => {
                collect(name.as_str(), &replies[i], &mut list, &mut warnings);
            },
            RegistrySpec::GithubOrg { name, .. } => {
                collect(name.as_str(), &replies[i], &mut list, &mut warnings);
            },
            RegistrySpec::Rest { name, .. } => {
                collect(name.as_str(), &replies[i], &mut list, &mut warnings);
            },
            RegistrySpec::McpRegistry { name, .. } => {
                collect(name.as_str(), &replies[i], &mut list, &mut warnings);
            },
            RegistrySpec::Unknown { name, kind } => {
                let mut m = "registry '".to_owned();
                m.append(name.as_str());
                m.append("' has unknown kind '");
                m.append(kind.as_str());
                m.append("' — skipped");
                let ghost before = warnings@;
                warnings.push(m);
                assert(texts(warnings@) =~= texts(before).push(m@));
            },
        }
        i = i + 1;
    }
    assert(rs.take(i as int) =~= rs);
    assert(ps.take(i as int) =~= ps);
    (arrange_by_name(&list), warnings)
}

/// Asks one registry.
fn ask<I: CatalogIo>(spec: &RegistrySpec, io: &I, vocabulary: &Vec<String>) -> (r: Result<
    Vec<ToolCandidate>,
    String,
>)
    ensures
        may_reply(io, spec@, texts(vocabulary@), tools_reply(r)),
{
    match spec {
        RegistrySpec::Static { name, candidates } => {
            let adapter = StaticAdapter::new(name.as_str(), copy_candidates(candidates));
            adapter.candidates(io, vocabulary)
        },
        RegistrySpec::GithubOrg { name, org } => {
            let adapter = GithubOrgAdapter::new(name.as_str(), org.as_str());
            adapter.candidates(io, vocabulary)
        },
        RegistrySpec::Rest { name, url } => {
            let adapter = RestAdapter::new(name.as_str(), url.as_str());
            let r = adapter.candidates(io, vocabulary);
            assert(may_rest_reply(io, name@, url@, tools_reply(r)));
            r
        },
        RegistrySpec::McpRegistry { name, url } => {
            let adapter = McpRegistryAdapter::new(name.as_str(), url.as_str());
            let r = adapter.candidates(io, vocabulary);
            assert(may_mcp_reply(io, name@, url@, tools_reply(r)));
            r
        },
        RegistrySpec::Unknown { .. } => Ok(Vec::new()),
    }
}

/// Asks every declared registry and puts what they offer into one catalog. A registry
/// that fails, or whose kind is not known, becomes a warning. `vocabulary` has the words
/// that count as verbs.
pub fn assemble<I: CatalogIo>(specs: &Vec<RegistrySpec>, io: &I, vocabulary: &Vec<String>) -> (r: (
    Vec<ToolCandidate>,
    Vec<String>,
))
    ensures
        exists|replies: Seq<Result<Seq<CandidateView>, Seq<char>>>|
            {
                &&& replies.len() == specs@.len()
                &&& forall|i: int|
                    0 <= i < specs@.len() ==> may_reply(
                        io,
                        (#[trigger] specs@[i])@,
                        texts(vocabulary@),
                        replies[i],
                    )
                &&& (candidate_views(r.0@), texts(r.1@)) == #[trigger] assembled(
                    registry_views(specs@),
                    replies,
                )
            },
{
    let mut replies: Vec<Result<Vec<ToolCandidate>, String>> = Vec::new();
    let mut i: usize = 0;
    while i < specs.len()
        invariant
            i <= specs@.len(),
            i == replies@.len(),
            forall|j: int|
                0 <= j < i ==> may_reply(
                        io,
                        (#[trigger] specs@[j])@,
                    texts(vocabulary@),
                    tools_reply(replies@[j]),
                ),
        decreases specs@.len() - i,
    {
        replies.push(ask(&specs[i], io, vocabulary));
        i = i + 1;
    }
    let r = assemble_replies(specs, &replies);
    proof {
        let given = reply_views(replies@);
        assert forall|j: int| 0 <= j < specs@.len() implies may_reply(
                        io,
                        (#[trigger] specs@[j])@,
            texts(vocabulary@),
            given[j],
        ) by {
            assert(given[j] == tools_reply(replies@[j]));
        }
        assert((candidate_views(r.0@), texts(r.1@)) == assembled(registry_views(specs@), given));
    }
    r
}

/// Whether one of the texts has the query in it.
pub open spec fn some_has(list: Seq<Seq<char>>, query: Seq<char>) -> bool {
    exists|i: int| 0 <= i < list.len() && occurs(lowercase(#[trigger] list[i]), query)
}

/// How well a tool fits a query in lower case: its name counts most, then its
/// description, then its tags and verbs.
pub open spec fn score(c: CandidateView, query: Seq<char>) -> int {
    (if occurs(lowercase(c.name), query) {
        3int
    } else {
        0
    }) + (if occurs(lowercase(c.description), query) {
        2int
    } else {
        0
    }) + (if some_has(c.tags, query) || some_has(c.verbs, query) {
        1int
    } else {
        0
    })
}

/// The order by how well tools fit a query.
pub open spec fn by_score(query: Seq<char>) -> spec_fn(CandidateView, CandidateView) -> bool {
    |a: CandidateView, b: CandidateView| score(a, query) > score(b, query)
}

/// Whether a tool fits a query at all.
pub open spec fn fits(query: Seq<char>) -> spec_fn(CandidateView) -> bool {
    |c: CandidateView| score(c, query) > 0
}

/// The tools that fit a query, the best first; all of them for the empty query.
pub open spec fn discovered(catalog: Seq<CandidateView>, query: Seq<char>) -> Seq<CandidateView> {
    let q = lowercase(query);
    if q.len() == 0 {
        catalog
    } else {
        arranged(kept(catalog, fits(q)), by_score(q))
    }
}

fn any_has(list: &Vec<String>, query: &str) -> (r: bool)
    ensures
        r == some_has(texts(list@), query@),
{
    let mut i: usize = 0;
    while i < list.len()
        invariant
            i <= list@.len(),
            forall|j: int|
                0 <= j < i ==> !occurs(lowercase(#[trigger] texts(list@)[j]), query@),
        decreases list@.len() - i,
    {
        assert(texts(list@)[i as int] == list@[i as int]@);
        if contains(to_lowercase(list[i].as_str()).as_str(), query) {
            return true;
        }
        i = i + 1;
    }
    false
}

/// How well a tool fits a query in lower case.
pub fn discover_score(c: &ToolCandidate, query_lower: &str) -> (r: i32)
    ensures
        r == score(c@, query_lower@),
{
    let mut score: i32 = 0;
    if contains(to_lowercase(c.name.as_str()).as_str(), query_lower) {
        score = score + 3;
    }
    if contains(to_lowercase(c.description.as_str()).as_str(), query_lower) {
        score = score + 2;
    }
    if any_has(&c.tags, query_lower) || any_has(&c.verbs, query_lower) {
        score = score + 1;
    }
    score
}

fn place_by_score(list: &mut Vec<ToolCandidate>, c: ToolCandidate, query: &str)
    ensures
        candidate_views(final(list)@) == place(candidate_views(old(list)@), c@, by_score(query@)),
{
    let mut at: usize = list.len();
    let own: i32 = discover_score(&c, query);
    while at > 0 && own > discover_score(&list[at - 1], query)
        invariant
            at <= list@.len(),
            own == score(c@, query@),
            forall|j: int|
                at <= j < list@.len() ==> own > score((#[trigger] list@[j])@, query@),
        decreases at,
    {
        at = at - 1;
    }
    let ghost before = list@;
    let ghost s = candidate_views(before);
    proof {
        assert forall|j: int| at <= j < s.len() implies by_score(query@)(c@, #[trigger] s[j]) by {
            assert(s[j] == before[j]@);
        }
        if at > 0 {
            assert(s[at - 1] == before[at - 1]@);
        }
        lemma_place_at(s, c@, by_score(query@), at as int);
    }
    list.insert(at, c);
    assert(candidate_views(list@) =~= s.insert(at as int, c@));
}

/// The tools that fit a query, the best first; tools that fit equally well keep their
/// order. The case of letters does not count. The empty query gives all tools.
pub fn discover(catalog: &Vec<ToolCandidate>, query: &str) -> (r: Vec<ToolCandidate>)
    ensures
        candidate_views(r@) == discovered(candidate_views(catalog@), query@),
{
    let q = to_lowercase(query);
    if q.as_str().is_empty() {
        return copy_candidates(catalog);
    }
    let mut out: Vec<ToolCandidate> = Vec::new();
    let mut i: usize = 0;
    let ghost all = candidate_views(catalog@);
    assert(candidate_views(out@) =~= Seq::empty());
    while i < catalog.len()
        invariant
            i <= catalog@.len(),
            all == candidate_views(catalog@),
            candidate_views(out@) == arranged(kept(all.take(i as int), fits(q@)), by_score(q@)),
        decreases catalog@.len() - i,
    {
        let ghost next = all.take(i + 1);
        assert(next.drop_last() =~= all.take(i as int));
        assert(next.last() == catalog@[i as int]@);
        if discover_score(&catalog[i], q.as_str()) > 0 {
            place_by_score(&mut out, catalog[i].clone(), q.as_str());
            proof {
                lemma_arranged_push(
                    kept(all.take(i as int), fits(q@)),
                    catalog@[i as int]@,
                    by_score(q@),
                );
            }
        }
        i = i + 1;
    }
    assert(all.take(i as int) =~= all);
    out
}

/// How many of the texts are needed.
pub open spec fn overlap(verbs: Seq<Seq<char>>, needed: Seq<Seq<char>>) -> nat
    decreases verbs.len(),
{
    if verbs.len() == 0 {
        0
    } else {
        overlap(verbs.drop_last(), needed) + if needed.contains(verbs.last()) {
            1nat
        } else {
            0
        }
    }
}

/// The order by how many needed verbs tools have, then by trust.
pub open spec fn by_overlap(needed: Seq<Seq<char>>) -> spec_fn(
    CandidateView,
    CandidateView,
) -> bool {
    |a: CandidateView, b: CandidateView|
        overlap(a.verbs, needed) > overlap(b.verbs, needed) || (overlap(a.verbs, needed) == overlap(
            b.verbs,
            needed,
        ) && a.trust_tier.level() > b.trust_tier.level())
}

/// Whether a tool has a needed verb.
pub open spec fn helps(needed: Seq<Seq<char>>) -> spec_fn(CandidateView) -> bool {
    |c: CandidateView| overlap(c.verbs, needed) > 0
}

/// The tools that have needed verbs, the best first.
pub open spec fn evaluated(catalog: Seq<CandidateView>, needed: Seq<Seq<char>>) -> Seq<
    CandidateView,
> {
    arranged(kept(catalog, helps(needed)), by_overlap(needed))
}

fn count_overlap(verbs: &Vec<String>, needed: &Vec<String>) -> (r: usize)
    ensures
        r == overlap(texts(verbs@), texts(needed@)),
{
    let mut n: usize = 0;
    let mut i: usize = 0;
    while i < verbs.len()
        invariant
            i <= verbs@.len(),
            n <= i,
            n == overlap(texts(verbs@).take(i as int), texts(needed@)),
        decreases verbs@.len() - i,
    {
        let ghost next = texts(verbs@).take(i + 1);
        assert(next.drop_last() =~= texts(verbs@).take(i as int));
        assert(next.last() == verbs@[i as int]@);
        if holds(needed, verbs[i].as_str()) {
            n = n + 1;
        }
        i = i + 1;
    }
    assert(texts(verbs@).take(i as int) =~= texts(verbs@));
    n
}

fn precedes(a: &ToolCandidate, b: &ToolCandidate, needed: &Vec<String>) -> (r: bool)
    ensures
        r == by_overlap(texts(needed@))(a@, b@),
{
    let x: usize = count_overlap(&a.verbs, needed);
    let y: usize = count_overlap(&b.verbs, needed);
    x > y || (x == y && a.trust_tier.rank() > b.trust_tier.rank())
}

fn place_by_overlap(list: &mut Vec<ToolCandidate>, c: ToolCandidate, needed: &Vec<String>)
    ensures
        candidate_views(final(list)@) == place(
            candidate_views(old(list)@),
            c@,
            by_overlap(texts(needed@)),
        ),
{
    let mut at: usize = list.len();
    while at > 0 && precedes(&c, &list[at - 1], needed)
        invariant
            at <= list@.len(),
            forall|j: int|
                at <= j < list@.len() ==> by_overlap(texts(needed@))(c@, (#[trigger] list@[j])@),
        decreases at,
    {
        at = at - 1;
    }
    let ghost before = list@;
    let ghost s = candidate_views(before);
    proof {
        assert forall|j: int| at <= j < s.len() implies by_overlap(texts(needed@))(
            c@,
            #[trigger] s[j],
        ) by {
            assert(s[j] == before[j]@);
        }
        if at > 0 {
            assert(s[at - 1] == before[at - 1]@);
        }
        lemma_place_at(s, c@, by_overlap(texts(needed@)), at as int);
    }
    list.insert(at, c);
    assert(candidate_views(list@) =~= s.insert(at as int, c@));
}

/// The tools that have needed verbs: those with more of them first, then those of higher
/// trust; otherwise they keep their order.
pub fn evaluate(catalog: &Vec<ToolCandidate>, needed_verbs: &Vec<String>) -> (r: Vec<
    ToolCandidate,
>)
    ensures
        candidate_views(r@) == evaluated(candidate_views(catalog@), texts(needed_verbs@)),
{
    let mut out: Vec<ToolCandidate> = Vec::new();
    let mut i: usize = 0;
    let ghost all = candidate_views(catalog@);
    let ghost needed = texts(needed_verbs@);
    assert(candidate_views(out@) =~= Seq::empty());
    while i < catalog.len()
        invariant
            i <= catalog@.len(),
            all == candidate_views(catalog@),
            needed == texts(needed_verbs@),
            candidate_views(out@) == arranged(
                kept(all.take(i as int), helps(needed)),
                by_overlap(needed),
            ),
        decreases catalog@.len() - i,
    {
        let ghost next = all.take(i + 1);
        assert(next.drop_last() =~= all.take(i as int));
        assert(next.last() == catalog@[i as int]@);
        if count_overlap(&catalog[i].verbs, needed_verbs) > 0 {
            place_by_overlap(&mut out, catalog[i].clone(), needed_verbs);
            proof {
                lemma_arranged_push(
                    kept(all.take(i as int), helps(needed)),
                    catalog@[i as int]@,
                    by_overlap(needed),
                );
            }
        }
        i = i + 1;
    }
    assert(all.take(i as int) =~= all);
    out
}

/// A catalog and when it was fetched, in seconds.
pub struct Cache {
    pub fetched_at: i64,
    pub catalog: Vec<ToolCandidate>,
}

/// How long a catalog stays fresh: a day.
pub const DEFAULT_TTL_SECS: i64 = 86400;

impl Cache {
    /// Whether more than `ttl_secs` have passed since the catalog was fetched.
    pub fn is_stale(&self, now: i64, ttl_secs: i64) -> (r: bool)
        ensures
            r == (now - self.fetched_at > ttl_secs),
    {
        now as i128 - self.fetched_at as i128 > ttl_secs as i128
    }
}

/// Tools, no two of which are the same.
pub open spec fn one_of_each(list: Seq<CandidateView>) -> bool {
    forall|i: int, j: int|
        0 <= i < j < list.len() ==> !same_tool(#[trigger] list[i], #[trigger] list[j])
}

/// Whether a list has a tool with at least the trust of this copy.
pub open spec fn covers(list: Seq<CandidateView>, c: CandidateView) -> bool {
    exists|i: int|
        0 <= i < list.len() && same_tool(#[trigger] list[i], c) && list[i].trust_tier.level()
            >= c.trust_tier.level()
}

proof fn lemma_position(list: Seq<CandidateView>, c: CandidateView)
    ensures
        0 <= position(list, c) <= list.len(),
        position(list, c) < list.len() ==> same_tool(list[position(list, c)], c),
        forall|i: int| 0 <= i < position(list, c) ==> !same_tool(#[trigger] list[i], c),
    decreases list.len(),
{
    if list.len() > 0 {
        let rest = list.drop_last();
        lemma_position(rest, c);
        assert forall|i: int| 0 <= i < position(list, c) implies !same_tool(
            #[trigger] list[i],
            c,
        ) by {
            if i < rest.len() {
                assert(rest[i] == list[i]);
            }
        }
    }
}

proof fn lemma_merged(list: Seq<CandidateView>, c: CandidateView)
    requires
        one_of_each(list),
    ensures
        one_of_each(merged(list, c)),
        covers(merged(list, c), c),
        forall|d: CandidateView| covers(list, d) ==> #[trigger] covers(merged(list, c), d),
        forall|i: int|
            0 <= i < merged(list, c).len() ==> list.contains(#[trigger] merged(list, c)[i])
                || merged(list, c)[i] == c,
{
    lemma_position(list, c);
    let p = position(list, c);
    let r = merged(list, c);
    assert(0 <= p < r.len() && same_tool(r[p], c));
    assert forall|d: CandidateView| covers(list, d) implies #[trigger] covers(r, d) by {
        let i = choose|i: int|
            0 <= i < list.len() && same_tool(#[trigger] list[i], d) && list[i].trust_tier.level()
                >= d.trust_tier.level();
        assert(same_tool(r[i], d) && r[i].trust_tier.level() >= d.trust_tier.level());
    }
    assert forall|i: int| 0 <= i < r.len() implies list.contains(#[trigger] r[i]) || r[i] == c by {
        if i < list.len() && i != p {
            assert(r[i] == list[i]);
        } else if p < list.len() && r == list {
            assert(r[i] == list[i]);
        }
    }
}

/// Merging keeps one copy of each tool, with the highest trust that any of them has; every
/// tool kept is one of those that were offered.
pub proof fn law_highest_trust_is_kept(list: Seq<CandidateView>, more: Seq<CandidateView>)
    requires
        one_of_each(list),
    ensures
        one_of_each(merged_all(list, more)),
        forall|c: CandidateView|
            list.contains(c) || more.contains(c) ==> #[trigger] covers(merged_all(list, more), c),
        forall|i: int|
            0 <= i < merged_all(list, more).len() ==> list.contains(
                #[trigger] merged_all(list, more)[i],
            ) || more.contains(merged_all(list, more)[i]),
    decreases more.len(),
{
    let r = merged_all(list, more);
    if more.len() == 0 {
        assert forall|c: CandidateView| list.contains(c) || more.contains(c) implies
            #[trigger] covers(r, c) by {
            let i = list.index_of(c);
            assert(same_tool(r[i], c));
        }
        assert forall|i: int| 0 <= i < r.len() implies list.contains(#[trigger] r[i])
            || more.contains(r[i]) by {
            assert(list[i] == r[i]);
        }
    } else {
        let rest = more.drop_last();
        law_highest_trust_is_kept(list, rest);
        let before = merged_all(list, rest);
        lemma_merged(before, more.last());
        assert forall|c: CandidateView| list.contains(c) || more.contains(c) implies
            #[trigger] covers(r, c) by {
            if c != more.last() {
                if more.contains(c) {
                    let k = more.index_of(c);
                    assert(rest[k] == c);
                }
                assert(covers(before, c));
            }
        }
        assert forall|i: int| 0 <= i < r.len() implies list.contains(#[trigger] r[i])
            || more.contains(r[i]) by {
            if r[i] == more.last() {
                assert(more[more.len() - 1] == r[i]);
            } else {
                let k = before.index_of(r[i]);
                assert(before[k] == r[i]);
                if rest.contains(before[k]) {
                    let m = rest.index_of(before[k]);
                    assert(more[m] == r[i]);
                }
            }
        }
    }
}

/// No registry can keep another's tools out: a registry of a known kind that replied with
/// tools has each of them in the catalog, whatever the others did.
pub proof fn law_every_registry_lands(
    registries: Seq<RegistryView>,
    replies: Seq<Result<Seq<CandidateView>, Seq<char>>>,
)
    requires
        registries.len() == replies.len(),
    ensures
        one_of_each(gathered(registries, replies).0),
        forall|i: int, c: CandidateView|
            #![trigger registries[i], covers(gathered(registries, replies).0, c)]
            0 <= i < registries.len() && !(registries[i] is Unknown) && (replies[i] matches Ok(
                tools,
            ) && tools.contains(c)) ==> covers(gathered(registries, replies).0, c),
    decreases registries.len(),
{
    if registries.len() > 0 {
        let rs = registries.drop_last();
        let ps = replies.drop_last();
        law_every_registry_lands(rs, ps);
        let before = gathered(rs, ps).0;
        let r = gathered(registries, replies).0;
        let more = match (registries.last(), replies.last()) {
            (RegistryView::Unknown { .. }, _) => Seq::empty(),
            (_, Ok(tools)) => tools,
            _ => Seq::empty(),
        };
        assert(r == merged_all(before, more));
        law_highest_trust_is_kept(before, more);
        assert forall|i: int, c: CandidateView|
            #![trigger registries[i], covers(r, c)]
            0 <= i < registries.len() && !(registries[i] is Unknown) && (replies[i] matches Ok(
                tools,
            ) && tools.contains(c)) implies covers(r, c) by {
            if i < rs.len() {
                assert(rs[i] == registries[i]);
                assert(ps[i] == replies[i]);
                assert(covers(before, c));
                lemma_merged_covers(before, more, c);
            }
        }
    }
}

proof fn lemma_merged_covers(
    list: Seq<CandidateView>,
    more: Seq<CandidateView>,
    c: CandidateView,
)
    requires
        one_of_each(list),
        covers(list, c),
    ensures
        covers(merged_all(list, more), c),
    decreases more.len(),
{
    if more.len() > 0 {
        lemma_merged_covers(list, more.drop_last(), c);
        law_highest_trust_is_kept(list, more.drop_last());
        lemma_merged(merged_all(list, more.drop_last()), more.last());
    }
}

/// The catalog is in order of the names and has the gathered tools, each once.
pub proof fn law_catalog_in_order(
    registries: Seq<RegistryView>,
    replies: Seq<Result<Seq<CandidateView>, Seq<char>>>,
)
    ensures
        assembled(registries, replies).0.to_multiset() == gathered(
            registries,
            replies,
        ).0.to_multiset(),
        forall|i: int, j: int|
            0 <= i < j < assembled(registries, replies).0.len() ==> !text_lt(
                (#[trigger] assembled(registries, replies).0[j]).name,
                (#[trigger] assembled(registries, replies).0[i]).name,
            ),
{
    let before = by_name();
    assert forall|a: CandidateView, b: CandidateView| #[trigger] before(a, b) implies !before(
        b,
        a,
    ) by {
        lemma_lt_asymmetric(a.name, b.name);
    }
    assert forall|a: CandidateView, b: CandidateView, c: CandidateView|
        #![trigger before(a, b), before(b, c)]
        !before(a, b) && !before(b, c) implies !before(a, c) by {
        if before(a, c) {
            lemma_lt_total(a.name, b.name);
            lemma_lt_total(b.name, c.name);
            if text_lt(b.name, a.name) {
                lemma_lt_transitive(b.name, a.name, c.name);
            }
        }
    }
    law_arranged(gathered(registries, replies).0, before);
    let list = assembled(registries, replies).0;
    assert forall|i: int, j: int| 0 <= i < j < list.len() implies !text_lt(
        (#[trigger] list[j]).name,
        (#[trigger] list[i]).name,
    ) by {
        assert(!before(list[j], list[i]));
    }
}

/// What is found comes best first, and holds exactly the tools that fit.
pub proof fn law_discovered_in_order(catalog: Seq<CandidateView>, query: Seq<char>)
    requires
        lowercase(query).len() > 0,
    ensures
        discovered(catalog, query).to_multiset() == kept(
            catalog,
            fits(lowercase(query)),
        ).to_multiset(),
        forall|i: int, j: int|
            0 <= i < j < discovered(catalog, query).len() ==> score(
                #[trigger] discovered(catalog, query)[i],
                lowercase(query),
            ) >= score(#[trigger] discovered(catalog, query)[j], lowercase(query)),
{
    let q = lowercase(query);
    law_arranged(kept(catalog, fits(q)), by_score(q));
    let r = discovered(catalog, query);
    assert forall|i: int, j: int| 0 <= i < j < r.len() implies score(#[trigger] r[i], q) >= score(
        #[trigger] r[j],
        q,
    ) by {
        assert(!by_score(q)(r[j], r[i]));
    }
}

/// What helps comes best first: more needed verbs before fewer, higher trust before lower.
pub proof fn law_evaluated_in_order(catalog: Seq<CandidateView>, needed: Seq<Seq<char>>)
    ensures
        evaluated(catalog, needed).to_multiset() == kept(catalog, helps(needed)).to_multiset(),
        forall|i: int, j: int|
            0 <= i < j < evaluated(catalog, needed).len() ==> !by_overlap(needed)(
                #[trigger] evaluated(catalog, needed)[j],
                #[trigger] evaluated(catalog, needed)[i],
            ),
{
    law_arranged(kept(catalog, helps(needed)), by_overlap(needed));
}

} // verus!
