//! The one form in which every registry's tools are held.

use vstd::prelude::*;

use crate::json::{lookup, opt_view, views, Json, JsonView};
use crate::text::{copy_strings, same, texts};

verus! {

/// How a tool is launched.
#[derive(Debug, Clone, Copy, PartialEq, Eq, Structural)]
pub enum Transport {
    Stdio,
    Docker,
    Remote,
    Rest,
}

/// Where a tool comes from.
pub enum ToolSource {
    Repo { url: String },
    Crate { name: String },
    Npm { pkg: String },
    Image { image: String },
    Url { url: String },
}

/// The model of a source.
pub enum SourceView {
    Repo(Seq<char>),
    Crate(Seq<char>),
    Npm(Seq<char>),
    Image(Seq<char>),
    Url(Seq<char>),
}

impl ToolSource {
    pub open spec fn view(&self) -> SourceView {
        match self {
            ToolSource::Repo { url } => SourceView::Repo(url@),
            ToolSource::Crate { name } => SourceView::Crate(name@),
            ToolSource::Npm { pkg } => SourceView::Npm(pkg@),
            ToolSource::Image { image } => SourceView::Image(image@),
            ToolSource::Url { url } => SourceView::Url(url@),
        }
    }

    /// Whether both are the same source.
    pub fn equals(&self, other: &ToolSource) -> (r: bool)
        ensures
            r == (self@ == other@),
    {
        match (self, other) {
            (ToolSource::Repo { url: a }, ToolSource::Repo { url: b }) => same(
                a.as_str(),
                b.as_str(),
            ),
            (ToolSource::Crate { name: a }, ToolSource::Crate { name: b }) => same(
                a.as_str(),
                b.as_str(),
            ),
            (ToolSource::Npm { pkg: a }, ToolSource::Npm { pkg: b }) => same(
                a.as_str(),
                b.as_str(),
            ),
            (ToolSource::Image { image: a }, ToolSource::Image { image: b }) => same(
                a.as_str(),
                b.as_str(),
            ),
            (ToolSource::Url { url: a }, ToolSource::Url { url: b }) => same(
                a.as_str(),
                b.as_str(),
            ),
            _ => false,
        }
    }
}

impl Clone for ToolSource {
    fn clone(&self) -> (r: ToolSource)
        ensures
            r@ == self@,
    {
        match self {
            ToolSource::Repo { url } => ToolSource::Repo { url: url.clone() },
            ToolSource::Crate { name } => ToolSource::Crate { name: name.clone() },
            ToolSource::Npm { pkg } => ToolSource::Npm { pkg: pkg.clone() },
            ToolSource::Image { image } => ToolSource::Image { image: image.clone() },
            ToolSource::Url { url } => ToolSource::Url { url: url.clone() },
        }
    }
}

/// How much the registry of a tool is trusted, in ascending order.
#[derive(Debug, Clone, Copy, PartialEq, Eq, Structural)]
pub enum TrustTier {
    Community,
    Org,
    Verified,
}

impl TrustTier {
    /// The place of a tier in the order of trust.
    pub open spec fn level(self) -> nat {
        match self {
            TrustTier::Community => 0,
            TrustTier::Org => 1,
            TrustTier::Verified => 2,
        }
    }

    /// The place of a tier in the order of trust.
    pub fn rank(self) -> (r: u8)
        ensures
            r == self.level(),
    {
        match self {
            TrustTier::Community => 0,
            TrustTier::Org => 1,
            TrustTier::Verified => 2,
        }
    }
}

/// Something that a tool needs before it can run.
pub struct RequiredField {
    pub name: String,
    pub description: String,
}

/// The models of a list of needs.
pub open spec fn field_views(s: Seq<RequiredField>) -> Seq<(Seq<char>, Seq<char>)> {
    s.map_values(|f: RequiredField| (f.name@, f.description@))
}

fn copy_fields(v: &Vec<RequiredField>) -> (r: Vec<RequiredField>)
    ensures
        field_views(r@) == field_views(v@),
{
    let mut out: Vec<RequiredField> = Vec::new();
    let mut i: usize = 0;
    while i < v.len()
        invariant
            i == out@.len(),
            i <= v@.len(),
            forall|j: int|
                0 <= j < i ==> (#[trigger] out@[j]).name@ == v@[j].name@ && out@[j].description@
                    == v@[j].description@,
        decreases v@.len() - i,
    {
        let f = RequiredField {
            name: v[i].name.clone(),
            description: v[i].description.clone(),
        };
        out.push(f);
        i = i + 1;
    }
    assert(field_views(out@) =~= field_views(v@));
    out
}

/// The secrets and settings that a tool needs.
pub struct Requires {
    pub secrets: Vec<RequiredField>,
    pub config: Vec<RequiredField>,
}

/// The model of the needs of a tool.
pub type RequiresView = (Seq<(Seq<char>, Seq<char>)>, Seq<(Seq<char>, Seq<char>)>);

impl Requires {
    pub open spec fn view(&self) -> RequiresView {
        (field_views(self.secrets@), field_views(self.config@))
    }
}

/// No needs.
pub open spec fn nothing_required() -> RequiresView {
    (Seq::empty(), Seq::empty())
}

impl Default for Requires {
    fn default() -> (r: Requires)
        ensures
            r@ == nothing_required(),
    {
        let r = Requires { secrets: Vec::new(), config: Vec::new() };
        assert(field_views(r.secrets@) =~= Seq::empty());
        assert(field_views(r.config@) =~= Seq::empty());
        r
    }
}

impl Clone for Requires {
    fn clone(&self) -> (r: Requires)
        ensures
            r@ == self@,
    {
        Requires { secrets: copy_fields(&self.secrets), config: copy_fields(&self.config) }
    }
}

/// A tool as a registry offers it.
pub struct ToolCandidate {
    pub name: String,
    pub description: String,
    pub transport: Transport,
    pub source: ToolSource,
    pub verbs: Vec<String>,
    pub tags: Vec<String>,
    pub trust_tier: TrustTier,
    pub requires: Requires,
    /// The registry that offers it.
    pub provenance: String,
}

/// The model of a tool.
pub struct CandidateView {
    pub name: Seq<char>,
    pub description: Seq<char>,
    pub transport: Transport,
    pub source: SourceView,
    pub verbs: Seq<Seq<char>>,
    pub tags: Seq<Seq<char>>,
    pub trust_tier: TrustTier,
    pub requires: RequiresView,
    pub provenance: Seq<char>,
}

impl ToolCandidate {
    pub open spec fn view(&self) -> CandidateView {
        CandidateView {
            name: self.name@,
            description: self.description@,
            transport: self.transport,
            source: self.source@,
            verbs: texts(self.verbs@),
            tags: texts(self.tags@),
            trust_tier: self.trust_tier,
            requires: self.requires@,
            provenance: self.provenance@,
        }
    }
}

impl Clone for ToolCandidate {
    fn clone(&self) -> (r: ToolCandidate)
        ensures
            r@ == self@,
    {
        ToolCandidate {
            name: self.name.clone(),
            description: self.description.clone(),
            transport: self.transport,
            source: self.source.clone(),
            verbs: copy_strings(&self.verbs),
            tags: copy_strings(&self.tags),
            trust_tier: self.trust_tier,
            requires: self.requires.clone(),
            provenance: self.provenance.clone(),
        }
    }
}

/// The models of a list of tools.
pub open spec fn candidate_views(s: Seq<ToolCandidate>) -> Seq<CandidateView> {
    s.map_values(|c: ToolCandidate| c@)
}

/// A copy of a list of tools.
pub fn copy_candidates(v: &Vec<ToolCandidate>) -> (r: Vec<ToolCandidate>)
    ensures
        candidate_views(r@) == candidate_views(v@),
{
    let mut out: Vec<ToolCandidate> = Vec::new();
    let mut i: usize = 0;
    while i < v.len()
        invariant
            i == out@.len(),
            i <= v@.len(),
            forall|j: int| 0 <= j < i ==> (#[trigger] out@[j])@ == v@[j]@,
        decreases v@.len() - i,
    {
        let c = v[i].clone();
        out.push(c);
        i = i + 1;
    }
    assert(candidate_views(out@) =~= candidate_views(v@));
    out
}

// The written form of tools. A record is an object with its fields by name, or an
// array with them in order; a choice without fields is its name, or an object that
// holds the name with null; a choice with fields is an object that holds its name with
// the object of its fields.

/// Whether a value can be a record of `n` fields.
pub open spec fn record(v: JsonView, n: nat) -> bool {
    match v {
        JsonView::Object(_) => true,
        JsonView::Array(a) => a.len() <= n,
        _ => false,
    }
}

/// A field of a record.
pub open spec fn field(v: JsonView, name: Seq<char>, index: int) -> Option<JsonView> {
    match v {
        JsonView::Object(m) => lookup(m, name),
        JsonView::Array(a) => if 0 <= index < a.len() {
            Some(a[index])
        } else {
            None
        },
        _ => None,
    }
}

fn is_record(v: &Json, n: usize) -> (r: bool)
    ensures
        r == record(v@, n as nat),
{
    broadcast use crate::json::array_view;

    match v {
        Json::Object(_) => true,
        Json::Array(a) => {
            assert(views(a@).len() == a@.len());
            a.len() <= n
        },
        _ => false,
    }
}

fn field_of<'a>(v: &'a Json, name: &str, index: usize) -> (r: Option<&'a Json>)
    ensures
        opt_view(r) == field(v@, name@, index as int),
{
    broadcast use crate::json::array_view;

    match v {
        Json::Object(m) => m.get(name),
        Json::Array(a) => {
            assert(views(a@).len() == a@.len());
            if index < a.len() {
                assert(views(a@)[index as int] == a@[index as int]@);
                Some(&a[index])
            } else {
                None
            }
        },
        _ => None,
    }
}

/// A text field.
pub open spec fn text_field(v: JsonView, name: Seq<char>, index: int) -> Option<Seq<char>> {
    match field(v, name, index) {
        Some(f) => f.as_str(),
        None => None,
    }
}

fn text_of_field(v: &Json, name: &str, index: usize) -> (r: Option<String>)
    ensures
        crate::text::opt_string(r) == text_field(v@, name@, index as int),
{
    match field_of(v, name, index) {
        Some(f) => match f.as_str() {
            Some(s) => Some(s.to_owned()),
            None => None,
        },
        None => None,
    }
}

/// The name of a choice without fields.
pub open spec fn choice_name(v: JsonView) -> Option<Seq<char>> {
    match v {
        JsonView::Str(s) => Some(s),
        JsonView::Object(m) => if m.len() == 1 && m[0].1 == JsonView::Null {
            Some(m[0].0)
        } else {
            None
        },
        _ => None,
    }
}

fn name_of_choice(v: &Json) -> (r: Option<&str>)
    ensures
        crate::json::opt_text(r) == choice_name(v@),
{
    match v {
        Json::Str(s) => Some(s.as_str()),
        Json::Object(m) => if m.len() == 1 && m.value_at(0).is_null() {
            Some(m.key_at(0).as_str())
        } else {
            None
        },
        _ => None,
    }
}

/// The transport that a value writes.
pub open spec fn transport_in(v: JsonView) -> Option<Transport> {
    match choice_name(v) {
        Some(n) => if n == "stdio"@ {
            Some(Transport::Stdio)
        } else if n == "docker"@ {
            Some(Transport::Docker)
        } else if n == "remote"@ {
            Some(Transport::Remote)
        } else if n == "rest"@ {
            Some(Transport::Rest)
        } else {
            None
        },
        None => None,
    }
}

pub fn parse_transport(v: &Json) -> (r: Option<Transport>)
    ensures
        r == transport_in(v@),
{
    match name_of_choice(v) {
        Some(n) => if same(n, "stdio") {
            Some(Transport::Stdio)
        } else if same(n, "docker") {
            Some(Transport::Docker)
        } else if same(n, "remote") {
            Some(Transport::Remote)
        } else if same(n, "rest") {
            Some(Transport::Rest)
        } else {
            None
        },
        None => None,
    }
}

/// The tier that a value writes.
pub open spec fn tier_in(v: JsonView) -> Option<TrustTier> {
    match choice_name(v) {
        Some(n) => if n == "community"@ {
            Some(TrustTier::Community)
        } else if n == "org"@ {
            Some(TrustTier::Org)
        } else if n == "verified"@ {
            Some(TrustTier::Verified)
        } else {
            None
        },
        None => None,
    }
}

pub fn parse_tier(v: &Json) -> (r: Option<TrustTier>)
    ensures
        r == tier_in(v@),
{
    match name_of_choice(v) {
        Some(n) => if same(n, "community") {
            Some(TrustTier::Community)
        } else if same(n, "org") {
            Some(TrustTier::Org)
        } else if same(n, "verified") {
            Some(TrustTier::Verified)
        } else {
            None
        },
        None => None,
    }
}

fn the_field(v: &Json, name: &str) -> (r: Option<String>)
    ensures
        crate::text::opt_string(r) == v@.get_str(name@),
{
    match v.get_str(name) {
        Some(s) => Some(s.to_owned()),
        None => None,
    }
}

/// The source that a value writes.
pub open spec fn source_in(v: JsonView) -> Option<SourceView> {
    match v {
        JsonView::Object(m) => if m.len() != 1 {
            None
        } else if m[0].0 == "repo"@ {
            match m[0].1.get_str("url"@) {
                Some(s) => Some(SourceView::Repo(s)),
                None => None,
            }
        } else if m[0].0 == "crate"@ {
            match m[0].1.get_str("name"@) {
                Some(s) => Some(SourceView::Crate(s)),
                None => None,
            }
        } else if m[0].0 == "npm"@ {
            match m[0].1.get_str("pkg"@) {
                Some(s) => Some(SourceView::Npm(s)),
                None => None,
            }
        } else if m[0].0 == "image"@ {
            match m[0].1.get_str("image"@) {
                Some(s) => Some(SourceView::Image(s)),
                None => None,
            }
        } else if m[0].0 == "url"@ {
            match m[0].1.get_str("url"@) {
                Some(s) => Some(SourceView::Url(s)),
                None => None,
            }
        } else {
            None
        },
        _ => None,
    }
}

pub fn parse_source(v: &Json) -> (r: Option<ToolSource>)
    ensures
        (match r {
            Some(s) => Some(s@),
            None => None,
        }) == source_in(v@),
{
    match v {
        Json::Object(m) => {
            if m.len() != 1 {
                return None;
            }
            let k = m.key_at(0).as_str();
            let c = m.value_at(0);
            if same(k, "repo") {
                match the_field(c, "url") {
                    Some(url) => Some(ToolSource::Repo { url }),
                    None => None,
                }
            } else if same(k, "crate") {
                match the_field(c, "name") {
                    Some(name) => Some(ToolSource::Crate { name }),
                    None => None,
                }
            } else if same(k, "npm") {
                match the_field(c, "pkg") {
                    Some(pkg) => Some(ToolSource::Npm { pkg }),
                    None => None,
                }
            } else if same(k, "image") {
                match the_field(c, "image") {
                    Some(image) => Some(ToolSource::Image { image }),
                    None => None,
                }
            } else if same(k, "url") {
                match the_field(c, "url") {
                    Some(url) => Some(ToolSource::Url { url }),
                    None => None,
                }
            } else {
                None
            }
        },
        _ => None,
    }
}

/// The texts of an array that holds texts only.
pub open spec fn texts_in(v: JsonView) -> Option<Seq<Seq<char>>> {
    match v {
        JsonView::Array(a) => if forall|i: int| 0 <= i < a.len() ==> (#[trigger] a[i]) is Str {
            Some(a.map_values(|e: JsonView| e->Str_0))
        } else {
            None
        },
        _ => None,
    }
}

pub fn parse_texts(v: &Json) -> (r: Option<Vec<String>>)
    ensures
        (match r {
            Some(s) => Some(texts(s@)),
            None => None,
        }) == texts_in(v@),
{
    broadcast use crate::json::array_view;

    let a = match v {
        Json::Array(a) => a,
        _ => {
            return None;
        },
    };
    let ghost all = views(a@);
    assert(v@ == JsonView::Array(all));
    let mut out: Vec<String> = Vec::new();
    let mut i: usize = 0;
    while i < a.len()
        invariant
            i <= a@.len(),
            i == out@.len(),
            all == views(a@),
            v@ == JsonView::Array(all),
            forall|j: int|
                0 <= j < i ==> (#[trigger] all[j]) is Str && out@[j]@ == all[j]->Str_0,
        decreases a@.len() - i,
    {
        match a[i].as_str() {
            Some(s) => {
                out.push(s.to_owned());
            },
            None => {
                assert(!(all[i as int] is Str));
                return None;
            },
        }
        i = i + 1;
    }
    assert(texts(out@) =~= all.map_values(|e: JsonView| e->Str_0));
    Some(out)
}

/// The need that a value writes.
pub open spec fn need_in(v: JsonView) -> Option<(Seq<char>, Seq<char>)> {
    if record(v, 2) {
        match (text_field(v, "name"@, 0), text_field(v, "description"@, 1)) {
            (Some(n), Some(d)) => Some((n, d)),
            _ => None,
        }
    } else {
        None
    }
}

fn parse_need(v: &Json) -> (r: Option<RequiredField>)
    ensures
        (match r {
            Some(f) => Some((f.name@, f.description@)),
            None => None,
        }) == need_in(v@),
{
    if !is_record(v, 2) {
        return None;
    }
    match (text_of_field(v, "name", 0), text_of_field(v, "description", 1)) {
        (Some(name), Some(description)) => Some(RequiredField { name, description }),
        _ => None,
    }
}

/// The needs that an array writes; none where the field is absent.
pub open spec fn needs_in(v: Option<JsonView>) -> Option<Seq<(Seq<char>, Seq<char>)>> {
    match v {
        None => Some(Seq::empty()),
        Some(JsonView::Array(a)) => if forall|i: int|
            0 <= i < a.len() ==> need_in(#[trigger] a[i]) is Some {
            Some(a.map_values(|e: JsonView| need_in(e)->0))
        } else {
            None
        },
        _ => None,
    }
}

fn parse_needs(v: Option<&Json>) -> (r: Option<Vec<RequiredField>>)
    ensures
        (match r {
            Some(f) => Some(field_views(f@)),
            None => None,
        }) == needs_in(opt_view(v)),
{
    broadcast use crate::json::array_view;

    let mut out: Vec<RequiredField> = Vec::new();
    assert(field_views(out@) =~= Seq::empty());
    let a = match v {
        None => {
            return Some(out);
        },
        Some(Json::Array(a)) => a,
        Some(_) => {
            return None;
        },
    };
    let ghost all = views(a@);
    assert(opt_view(v) == Some(JsonView::Array(all)));
    let mut i: usize = 0;
    while i < a.len()
        invariant
            i <= a@.len(),
            i == out@.len(),
            all == views(a@),
            opt_view(v) == Some(JsonView::Array(all)),
            forall|j: int|
                0 <= j < i ==> need_in(#[trigger] all[j]) == Some(
                    (out@[j].name@, out@[j].description@),
                ),
        decreases a@.len() - i,
    {
        match parse_need(&a[i]) {
            Some(f) => {
                out.push(f);
            },
            None => {
                assert(need_in(all[i as int]) is None);
                return None;
            },
        }
        i = i + 1;
    }
    assert(field_views(out@) =~= all.map_values(|e: JsonView| need_in(e)->0));
    Some(out)
}

/// The secrets and settings that a value writes.
pub open spec fn requires_in(v: JsonView) -> Option<RequiresView> {
    if record(v, 2) {
        match (needs_in(field(v, "secrets"@, 0)), needs_in(field(v, "config"@, 1))) {
            (Some(s), Some(c)) => Some((s, c)),
            _ => None,
        }
    } else {
        None
    }
}

pub fn parse_requires(v: &Json) -> (r: Option<Requires>)
    ensures
        (match r {
            Some(q) => Some(q@),
            None => None,
        }) == requires_in(v@),
{
    if !is_record(v, 2) {
        return None;
    }
    match (parse_needs(field_of(v, "secrets", 0)), parse_needs(field_of(v, "config", 1))) {
        (Some(secrets), Some(config)) => Some(Requires { secrets, config }),
        _ => None,
    }
}

/// A list of texts that may be absent.
pub open spec fn list_field(v: JsonView, name: Seq<char>, index: int) -> Option<Seq<Seq<char>>> {
    match field(v, name, index) {
        None => Some(Seq::empty()),
        Some(f) => texts_in(f),
    }
}

fn list_of_field(v: &Json, name: &str, index: usize) -> (r: Option<Vec<String>>)
    ensures
        (match r {
            Some(s) => Some(texts(s@)),
            None => None,
        }) == list_field(v@, name@, index as int),
{
    match field_of(v, name, index) {
        None => {
            let none: Vec<String> = Vec::new();
            assert(texts(none@) =~= Seq::empty());
            Some(none)
        },
        Some(f) => parse_texts(f),
    }
}

/// The tool that a value writes.
pub open spec fn candidate_in(v: JsonView) -> Option<CandidateView> {
    let transport = match field(v, "transport"@, 2) {
        Some(f) => transport_in(f),
        None => None,
    };
    let source = match field(v, "source"@, 3) {
        Some(f) => source_in(f),
        None => None,
    };
    let tier = match field(v, "trust_tier"@, 6) {
        Some(f) => tier_in(f),
        None => None,
    };
    let requires_ = match field(v, "requires"@, 7) {
        Some(f) => requires_in(f),
        None => Some(nothing_required()),
    };
    if record(v, 9) {
        match (
            text_field(v, "name"@, 0),
            text_field(v, "description"@, 1),
            transport,
            source,
            list_field(v, "verbs"@, 4),
            list_field(v, "tags"@, 5),
            tier,
            requires_,
            text_field(v, "provenance"@, 8),
        ) {
            (
                Some(name),
                Some(description),
                Some(transport),
                Some(source),
                Some(verbs),
                Some(tags),
                Some(trust_tier),
                Some(requires_),
                Some(provenance),
            ) => Some(
                CandidateView {
                    name,
                    description,
                    transport,
                    source,
                    verbs,
                    tags,
                    trust_tier,
                    requires: requires_,
                    provenance,
                },
            ),
            _ => None,
        }
    } else {
        None
    }
}

pub fn parse_candidate(v: &Json) -> (r: Option<ToolCandidate>)
    ensures
        (match r {
            Some(c) => Some(c@),
            None => None,
        }) == candidate_in(v@),
{
    if !is_record(v, 9) {
        return None;
    }
    let transport = match field_of(v, "transport", 2) {
        Some(f) => parse_transport(f),
        None => None,
    };
    let source = match field_of(v, "source", 3) {
        Some(f) => parse_source(f),
        None => None,
    };
    let tier = match field_of(v, "trust_tier", 6) {
        Some(f) => parse_tier(f),
        None => None,
    };
    let needs = match field_of(v, "requires", 7) {
        Some(f) => parse_requires(f),
        None => Some(Requires::default()),
    };
    match (
        text_of_field(v, "name", 0),
        text_of_field(v, "description", 1),
        transport,
        source,
        list_of_field(v, "verbs", 4),
        list_of_field(v, "tags", 5),
        tier,
        needs,
        text_of_field(v, "provenance", 8),
    ) {
        (
            Some(name),
            Some(description),
            Some(transport),
            Some(source),
            Some(verbs),
            Some(tags),
            Some(trust_tier),
            Some(needs),
            Some(provenance),
        ) => Some(
            ToolCandidate {
                name,
                description,
                transport,
                source,
                verbs,
                tags,
                trust_tier,
                requires: needs,
                provenance,
            },
        ),
        _ => None,
    }
}

/// The tools that an array writes, where every element writes one.
pub open spec fn candidates_in(v: JsonView) -> Option<Seq<CandidateView>> {
    match v {
        JsonView::Array(a) => if forall|i: int|
            0 <= i < a.len() ==> candidate_in(#[trigger] a[i]) is Some {
            Some(a.map_values(|e: JsonView| candidate_in(e)->0))
        } else {
            None
        },
        _ => None,
    }
}

pub fn parse_candidates(v: &Json) -> (r: Option<Vec<ToolCandidate>>)
    ensures
        (match r {
            Some(c) => Some(candidate_views(c@)),
            None => None,
        }) == candidates_in(v@),
{
    broadcast use crate::json::array_view;

    let a = match v {
        Json::Array(a) => a,
        _ => {
            return None;
        },
    };
    let ghost all = views(a@);
    assert(v@ == JsonView::Array(all));
    let mut out: Vec<ToolCandidate> = Vec::new();
    let mut i: usize = 0;
    while i < a.len()
        invariant
            i <= a@.len(),
            i == out@.len(),
            all == views(a@),
            v@ == JsonView::Array(all),
            forall|j: int| 0 <= j < i ==> candidate_in(#[trigger] all[j]) == Some(out@[j]@),
        decreases a@.len() - i,
    {
        match parse_candidate(&a[i]) {
            Some(c) => {
                out.push(c);
            },
            None => {
                assert(candidate_in(all[i as int]) is None);
                return None;
            },
        }
        i = i + 1;
    }
    assert(candidate_views(out@) =~= all.map_values(|e: JsonView| candidate_in(e)->0));
    Some(out)
}

} // verus!
