//! A registry at any address that serves tools in the normal form: an array whose
//! elements have at least a name, a transport and a source.

use vstd::prelude::*;

use crate::json::{views, Json, JsonView};
use crate::runtime::links::text_or;
use crate::text::texts;
use crate::tool_catalog::candidate::{
    candidate_views, nothing_required, parse_requires, parse_source, parse_texts, parse_tier,
    parse_transport, requires_in, source_in, texts_in, tier_in, transport_in, CandidateView,
    Requires, ToolCandidate, TrustTier,
};
use crate::tool_catalog::registry::{
    json_reply, may_fetch, tools_reply, CatalogIo, RegistryAdapter,
};

verus! {

/// A registry that serves the normal form.
pub struct RestAdapter {
    name: String,
    url: String,
}

/// A list of texts under a key; none where there is no such list.
pub open spec fn texts_at(v: JsonView, key: Seq<char>) -> Seq<Seq<char>> {
    match v.get(key) {
        Some(x) => match texts_in(x) {
            Some(l) => l,
            None => Seq::empty(),
        },
        None => Seq::empty(),
    }
}

/// The tool that an element of the response writes. Without a name, a transport or a
/// source it writes none; anything else that is missing or malformed takes its default.
pub open spec fn rest_tool(v: JsonView, registry: Seq<char>) -> Option<CandidateView> {
    let transport = match v.get("transport"@) {
        Some(x) => transport_in(x),
        None => None,
    };
    let source = match v.get("source"@) {
        Some(x) => source_in(x),
        None => None,
    };
    match (v.get_str("name"@), transport, source) {
        (Some(name), Some(transport), Some(source)) => Some(
            CandidateView {
                name,
                description: text_or(v.get_str("description"@), Seq::empty()),
                transport,
                source,
                verbs: texts_at(v, "verbs"@),
                tags: texts_at(v, "tags"@),
                trust_tier: match v.get("trust_tier"@) {
                    Some(x) => match tier_in(x) {
                        Some(t) => t,
                        None => TrustTier::Community,
                    },
                    None => TrustTier::Community,
                },
                requires: match v.get("requires"@) {
                    Some(x) => match requires_in(x) {
                        Some(q) => q,
                        None => nothing_required(),
                    },
                    None => nothing_required(),
                },
                provenance: registry,
            },
        ),
        _ => None,
    }
}

/// The tools that the elements of the response write.
pub open spec fn rest_tools(a: Seq<JsonView>, registry: Seq<char>) -> Seq<CandidateView>
    decreases a.len(),
{
    if a.len() == 0 {
        Seq::empty()
    } else {
        match rest_tool(a.last(), registry) {
            Some(c) => rest_tools(a.drop_last(), registry).push(c),
            None => rest_tools(a.drop_last(), registry),
        }
    }
}

/// What a response offers, or why it is none.
pub open spec fn rest_offer(body: JsonView, registry: Seq<char>) -> Result<
    Seq<CandidateView>,
    Seq<char>,
> {
    match body {
        JsonView::Array(a) => Ok(rest_tools(a, registry)),
        _ => Err("rest registry '"@ + registry + "' response was not a JSON array"@),
    }
}

fn list_at(v: &Json, key: &str) -> (r: Vec<String>)
    ensures
        texts(r@) == texts_at(v@, key@),
{
    let none: Vec<String> = Vec::new();
    assert(texts(none@) =~= Seq::empty());
    match v.get(key) {
        Some(x) => match parse_texts(x) {
            Some(l) => l,
            None => none,
        },
        None => none,
    }
}

impl RestAdapter {
    pub closed spec fn address(&self) -> Seq<char> {
        self.url@
    }

    pub fn new(name: &str, url: &str) -> (r: RestAdapter)
        ensures
            r.label() == name@,
            r.address() == url@,
    {
        RestAdapter { name: name.to_owned(), url: url.to_owned() }
    }

    /// Reads one element of the response.
    pub fn parse_one(&self, v: &Json) -> (r: Option<ToolCandidate>)
        ensures
            (match r {
                Some(c) => Some(c@),
                None => None,
            }) == rest_tool(v@, self.label()),
    {
        let name = match v.get_str("name") {
            Some(n) => n.to_owned(),
            None => {
                return None;
            },
        };
        let description = match v.get_str("description") {
            Some(d) => d.to_owned(),
            None => String::new(),
        };
        let transport = match v.get("transport") {
            Some(x) => parse_transport(x),
            None => None,
        };
        let source = match v.get("source") {
            Some(x) => parse_source(x),
            None => None,
        };
        let trust_tier = match v.get("trust_tier") {
            Some(x) => match parse_tier(x) {
                Some(t) => t,
                None => TrustTier::Community,
            },
            None => TrustTier::Community,
        };
        let needs = match v.get("requires") {
            Some(x) => match parse_requires(x) {
                Some(q) => q,
                None => Requires::default(),
            },
            None => Requires::default(),
        };
        match (transport, source) {
            (Some(transport), Some(source)) => Some(
                ToolCandidate {
                    name,
                    description,
                    transport,
                    source,
                    verbs: list_at(v, "verbs"),
                    tags: list_at(v, "tags"),
                    trust_tier,
                    requires: needs,
                    provenance: self.name.clone(),
                },
            ),
            _ => None,
        }
    }

    /// Reads a response.
    pub fn offered(&self, body: &Json) -> (r: Result<Vec<ToolCandidate>, String>)
        ensures
            match r {
                Ok(list) => rest_offer(body@, self.label()) == Ok::<Seq<CandidateView>, Seq<char>>(
                    candidate_views(list@),
                ),
                Err(e) => rest_offer(body@, self.label()) == Err::<Seq<CandidateView>, Seq<char>>(
                    e@,
                ),
            },
    {
        let a = match body.as_array() {
            Some(a) => a,
            None => {
                let mut m = "rest registry '".to_owned();
                m.append(self.name.as_str());
                m.append("' response was not a JSON array");
                return Err(m);
            },
        };
        let mut out: Vec<ToolCandidate> = Vec::new();
        let mut i: usize = 0;
        assert(candidate_views(out@) =~= Seq::empty());
        while i < a.len()
            invariant
                i <= a@.len(),
                candidate_views(out@) == rest_tools(views(a@).take(i as int), self.label()),
            decreases a@.len() - i,
        {
            let ghost next = views(a@).take(i + 1);
            let ghost before = out@;
            assert(next.drop_last() =~= views(a@).take(i as int));
            assert(next.last() == a@[i as int]@);
            if let Some(c) = self.parse_one(&a[i]) {
                out.push(c);
                assert(candidate_views(out@) =~= candidate_views(before).push(c@));
            }
            i = i + 1;
        }
        assert(views(a@).take(i as int) =~= views(a@));
        Ok(out)
    }
}

/// What a reply offers: an error is handed on.
pub open spec fn rest_reply(reply: Result<JsonView, Seq<char>>, registry: Seq<char>) -> Result<
    Seq<CandidateView>,
    Seq<char>,
> {
    match reply {
        Ok(body) => rest_offer(body, registry),
        Err(e) => Err(e),
    }
}

pub proof fn lemma_rest_provenance(a: Seq<JsonView>, registry: Seq<char>)
    ensures
        forall|i: int|
            0 <= i < rest_tools(a, registry).len() ==> (#[trigger] rest_tools(
                a,
                registry,
            )[i]).provenance == registry,
    decreases a.len(),
{
    if a.len() > 0 {
        lemma_rest_provenance(a.drop_last(), registry);
        let before = rest_tools(a.drop_last(), registry);
        assert forall|i: int| 0 <= i < rest_tools(a, registry).len() implies (
        #[trigger] rest_tools(a, registry)[i]).provenance == registry by {
            if i < before.len() {
                assert(rest_tools(a, registry)[i] == before[i]);
            }
        }
    }
}

impl RegistryAdapter for RestAdapter {
    closed spec fn label(&self) -> Seq<char> {
        self.name@
    }

    fn name(&self) -> (r: &str) {
        self.name.as_str()
    }

    fn candidates<I: CatalogIo>(&self, io: &I, vocabulary: &Vec<String>) -> (r: Result<
        Vec<ToolCandidate>,
        String,
    >)
        ensures
            exists|got: Result<Json, String>| #[trigger]
                may_fetch(io, self.address(), got) && tools_reply(r) == rest_reply(
                    json_reply(got),
                    self.label(),
                ),
    {
        let reply = io.fetch_json(self.url.as_str());
        let ghost asked = json_reply(reply);
        assert(may_fetch(io, self.address(), reply));
        match reply {
            Ok(body) => {
                let r = self.offered(&body);
                proof {
                    assert(tools_reply(r) == rest_reply(asked, self.label()));
                    if let Ok(ref list) = r {
                        lemma_rest_provenance(body@->Array_0, self.label());
                        assert forall|i: int| 0 <= i < list@.len() implies (
                        #[trigger] list@[i]).provenance@ == self.label() by {
                            assert(candidate_views(list@)[i] == list@[i]@);
                        }
                    }
                }
                r
            },
            Err(e) => {
                assert(rest_reply(asked, self.label()) == Err::<Seq<CandidateView>, Seq<char>>(e@));
                Err(e)
            },
        }
    }
}

} // verus!
