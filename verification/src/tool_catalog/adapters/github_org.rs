//! The repositories of an organisation as tools.

use vstd::prelude::*;

use crate::text::{holds, texts};
use crate::tool_catalog::candidate::{
    candidate_views, nothing_required, CandidateView, Requires, SourceView, ToolCandidate,
    ToolSource, Transport, TrustTier,
};
use crate::tool_catalog::registry::{
    may_list, repo_views, repos_reply, tools_reply, CatalogIo, GhRepo, RegistryAdapter, RepoView,
};

verus! {

/// The repositories of one organisation.
pub struct GithubOrgAdapter {
    name: String,
    org: String,
}

/// The texts of a list that are in the vocabulary, or those that are not.
pub open spec fn picked(list: Seq<Seq<char>>, vocabulary: Seq<Seq<char>>, inside: bool) -> Seq<
    Seq<char>,
>
    decreases list.len(),
{
    if list.len() == 0 {
        Seq::empty()
    } else {
        let before = picked(list.drop_last(), vocabulary, inside);
        if vocabulary.contains(list.last()) == inside {
            before.push(list.last())
        } else {
            before
        }
    }
}

/// A repository as a tool: topics that are verbs become its verbs, the others its tags.
pub open spec fn repo_tool(
    r: RepoView,
    name: Seq<char>,
    org: Seq<char>,
    vocabulary: Seq<Seq<char>>,
) -> CandidateView {
    CandidateView {
        name: r.name,
        description: r.description,
        transport: Transport::Stdio,
        source: SourceView::Repo("https://github.com/"@ + org + "/"@ + r.name),
        verbs: picked(r.topics, vocabulary, true),
        tags: picked(r.topics, vocabulary, false),
        trust_tier: TrustTier::Org,
        requires: nothing_required(),
        provenance: name,
    }
}

/// Repositories as tools.
pub open spec fn repo_tools(
    repos: Seq<RepoView>,
    name: Seq<char>,
    org: Seq<char>,
    vocabulary: Seq<Seq<char>>,
) -> Seq<CandidateView> {
    repos.map_values(|r: RepoView| repo_tool(r, name, org, vocabulary))
}

/// What a reply offers: an error is handed on.
pub open spec fn org_reply(
    reply: Result<Seq<RepoView>, Seq<char>>,
    name: Seq<char>,
    org: Seq<char>,
    vocabulary: Seq<Seq<char>>,
) -> Result<Seq<CandidateView>, Seq<char>> {
    match reply {
        Ok(repos) => Ok(repo_tools(repos, name, org, vocabulary)),
        Err(e) => Err(e),
    }
}

fn pick(list: &Vec<String>, vocabulary: &Vec<String>, inside: bool) -> (r: Vec<String>)
    ensures
        texts(r@) == picked(texts(list@), texts(vocabulary@), inside),
{
    let mut out: Vec<String> = Vec::new();
    let mut i: usize = 0;
    assert(texts(out@) =~= Seq::empty());
    while i < list.len()
        invariant
            i <= list@.len(),
            texts(out@) == picked(texts(list@).take(i as int), texts(vocabulary@), inside),
        decreases list@.len() - i,
    {
        let ghost next = texts(list@).take(i + 1);
        let ghost before = out@;
        assert(next.drop_last() =~= texts(list@).take(i as int));
        assert(next.last() == list@[i as int]@);
        if holds(vocabulary, list[i].as_str()) == inside {
            out.push(list[i].clone());
            assert(texts(out@) =~= texts(before).push(list@[i as int]@));
        }
        i = i + 1;
    }
    assert(texts(list@).take(i as int) =~= texts(list@));
    out
}

impl GithubOrgAdapter {
    pub closed spec fn org_name(&self) -> Seq<char> {
        self.org@
    }

    pub fn new(name: &str, org: &str) -> (r: GithubOrgAdapter)
        ensures
            r.label() == name@,
            r.org_name() == org@,
    {
        GithubOrgAdapter { name: name.to_owned(), org: org.to_owned() }
    }

    /// The organisation's repositories as tools.
    pub fn offered(&self, repos: &Vec<GhRepo>, vocabulary: &Vec<String>) -> (r: Vec<ToolCandidate>)
        ensures
            candidate_views(r@) == repo_tools(
                repo_views(repos@),
                self.label(),
                self.org_name(),
                texts(vocabulary@),
            ),
    {
        let mut out: Vec<ToolCandidate> = Vec::new();
        let mut i: usize = 0;
        while i < repos.len()
            invariant
                i <= repos@.len(),
                i == out@.len(),
                forall|j: int|
                    0 <= j < i ==> (#[trigger] out@[j])@ == repo_tool(
                        repos@[j]@,
                        self.name@,
                        self.org@,
                        texts(vocabulary@),
                    ),
            decreases repos@.len() - i,
        {
            let repo = &repos[i];
            let mut url = "https://github.com/".to_owned();
            url.append(self.org.as_str());
            url.append("/");
            url.append(repo.name.as_str());
            let c = ToolCandidate {
                name: repo.name.clone(),
                description: repo.description.clone(),
                transport: Transport::Stdio,
                source: ToolSource::Repo { url },
                verbs: pick(&repo.topics, vocabulary, true),
                tags: pick(&repo.topics, vocabulary, false),
                trust_tier: TrustTier::Org,
                requires: Requires::default(),
                provenance: self.name.clone(),
            };
            out.push(c);
            i = i + 1;
        }
        assert(candidate_views(out@) =~= repo_tools(
            repo_views(repos@),
            self.label(),
            self.org_name(),
            texts(vocabulary@),
        ));
        out
    }
}

impl RegistryAdapter for GithubOrgAdapter {
    closed spec fn label(&self) -> Seq<char> {
        self.name@
    }

    fn name(&self) -> (r: &str) {
        self.name.as_str()
    }

    fn candidates<I: CatalogIo>(&self, io: &I, vocabulary: &Vec<String>) -> (r: Result<
        Vec<ToolCandidate>,
        String,
    >)
        ensures
            exists|got: Result<Vec<GhRepo>, String>| #[trigger]
                may_list(io, self.org_name(), got) && tools_reply(r) == org_reply(
                    repos_reply(got),
                    self.label(),
                    self.org_name(),
                    texts(vocabulary@),
                ),
    {
        let reply = io.github_org_repos(self.org.as_str());
        let ghost asked = repos_reply(reply);
        assert(may_list(io, self.org_name(), reply));
        assert(org_reply(asked, self.label(), self.org_name(), texts(vocabulary@)) is Ok == asked is Ok);
        match reply {
            Ok(repos) => {
                let list = self.offered(&repos, vocabulary);
                proof {
                    assert forall|i: int| 0 <= i < list@.len() implies (
                    #[trigger] list@[i]).provenance@ == self.label() by {
                        assert(candidate_views(list@)[i] == list@[i]@);
                        assert(candidate_views(list@).len() == list@.len());
                        assert(candidate_views(list@)[i].provenance == self.label());
                    }
                }
                Ok(list)
            },
            Err(e) => Err(e),
        }
    }
}

} // verus!
