//! Definitions kept in repositories, one file each. An id names its repository before the
//! first slash; only a writable repository takes new definitions, and none lands without its
//! audit entry.

use vstd::prelude::*;

use crate::json::{lemma_put_lookup, obj, Json, JsonMap, JsonView};
use crate::model::{AuditEvent, AuditView};
use crate::path::{below, join_path, rest_below, strip_base};
use crate::repo_git::GitRun;
use crate::text::{cut_at, join, joined, opt_string, same, split_once, starts_with, texts};

verus! {

/// The directories of a repository.
pub struct RepoLayout {
    pub capabilities: String,
    pub flows: String,
    pub skills: String,
    pub scripts: String,
}

/// The model of a layout.
pub struct LayoutView {
    pub capabilities: Seq<char>,
    pub flows: Seq<char>,
    pub skills: Seq<char>,
    pub scripts: Seq<char>,
}

impl RepoLayout {
    pub open spec fn view(&self) -> LayoutView {
        LayoutView {
            capabilities: self.capabilities@,
            flows: self.flows@,
            skills: self.skills@,
            scripts: self.scripts@,
        }
    }
}

/// What a repository says of itself.
pub struct RepoManifest {
    pub namespace: String,
    pub layout: RepoLayout,
}

/// A configured repository: where it lies, what its manifest says or why it could not be
/// read, whether it is writable, and whether commits are pushed.
pub struct ConfiguredRepo {
    pub root: String,
    pub manifest: Result<RepoManifest, String>,
    pub writable: bool,
    pub push: bool,
}

/// A repository that ids are routed to.
pub struct RepoEntry {
    pub namespace: String,
    pub root: String,
    pub layout: RepoLayout,
    pub writable: bool,
    pub push: bool,
}

/// The model of a repository.
pub struct EntryView {
    pub namespace: Seq<char>,
    pub root: Seq<char>,
    pub layout: LayoutView,
    pub writable: bool,
    pub push: bool,
}

impl RepoEntry {
    pub open spec fn view(&self) -> EntryView {
        EntryView {
            namespace: self.namespace@,
            root: self.root@,
            layout: self.layout@,
            writable: self.writable,
            push: self.push,
        }
    }
}

/// The models of repositories.
pub open spec fn entry_views(v: Seq<RepoEntry>) -> Seq<EntryView> {
    v.map_values(|e: RepoEntry| e@)
}

/// The repositories by their namespaces: of two with one namespace, the later.
pub open spec fn by_namespace(v: Seq<EntryView>) -> Map<Seq<char>, EntryView>
    decreases v.len(),
{
    if v.len() == 0 {
        Map::empty()
    } else {
        by_namespace(v.drop_last()).insert(v.last().namespace, v.last())
    }
}

/// The first repository whose manifest could not be read, and why.
pub open spec fn first_unreadable(v: Seq<ConfiguredRepo>) -> Option<Seq<char>>
    decreases v.len(),
{
    if v.len() == 0 {
        None
    } else {
        match v[0].manifest {
            Err(e) => Some(e@),
            Ok(_) => first_unreadable(v.drop_first()),
        }
    }
}

/// The entry of a configured repository.
pub open spec fn entry_of(c: ConfiguredRepo) -> EntryView {
    EntryView {
        namespace: c.manifest->Ok_0.namespace@,
        root: c.root@,
        layout: c.manifest->Ok_0.layout@,
        writable: c.writable,
        push: c.push,
    }
}

/// The entries of configured repositories.
pub open spec fn entries_of(v: Seq<ConfiguredRepo>) -> Seq<EntryView> {
    v.map_values(|c: ConfiguredRepo| entry_of(c))
}

proof fn lemma_all_readable(v: Seq<ConfiguredRepo>)
    requires
        forall|i: int| 0 <= i < v.len() ==> (#[trigger] v[i]).manifest is Ok,
    ensures
        first_unreadable(v) is None,
    decreases v.len(),
{
    if v.len() > 0 {
        assert(v[0].manifest is Ok);
        assert forall|i: int| 0 <= i < v.drop_first().len() implies (#[trigger] v.drop_first()[i]).manifest is Ok by {
            assert(v.drop_first()[i] == v[i + 1]);
        }
        lemma_all_readable(v.drop_first());
    }
}

proof fn lemma_first_unreadable(v: Seq<ConfiguredRepo>, k: int)
    requires
        0 <= k < v.len(),
        v[k].manifest is Err,
        forall|i: int| 0 <= i < k ==> (#[trigger] v[i]).manifest is Ok,
    ensures
        first_unreadable(v) == Some(v[k].manifest->Err_0@),
    decreases v.len(),
{
    if k > 0 {
        assert(v[0].manifest is Ok);
        assert forall|i: int| 0 <= i < k - 1 implies (#[trigger] v.drop_first()[i]).manifest is Ok by {
            assert(v.drop_first()[i] == v[i + 1]);
        }
        assert(v.drop_first()[k - 1] == v[k]);
        lemma_first_unreadable(v.drop_first(), k - 1);
    }
}

/// Routes ids to the configured repositories.
pub struct RepoDefinitionStore {
    entries: Vec<RepoEntry>,
}

impl RepoDefinitionStore {
    /// The repositories by their namespaces.
    pub closed spec fn view(&self) -> Map<Seq<char>, EntryView> {
        by_namespace(entry_views(self.entries@))
    }

    /// Builds the routes. On a clash of namespaces the later repository wins; a manifest that
    /// cannot be read fails the whole.
    pub fn from_repos(repos: Vec<ConfiguredRepo>) -> (r: Result<RepoDefinitionStore, String>)
        ensures
            match first_unreadable(repos@) {
                Some(e) => r matches Err(m) && m@ == e,
                None => r matches Ok(s) && s@ == by_namespace(entries_of(repos@)),
            },
    {
        let ghost all = repos@;
        let mut i: usize = 0;
        while i < repos.len()
            invariant
                i <= repos@.len(),
                forall|k: int| 0 <= k < i ==> (#[trigger] repos@[k]).manifest is Ok,
            decreases repos@.len() - i,
        {
            if let Err(e) = &repos[i].manifest {
                proof {
                    lemma_first_unreadable(repos@, i as int);
                }
                return Err(e.as_str().to_owned());
            }
            i = i + 1;
        }
        proof {
            lemma_all_readable(all);
        }
        let mut entries: Vec<RepoEntry> = Vec::new();
        let mut last: Vec<RepoEntry> = Vec::new();
        let mut left = repos;
        while left.len() > 0
            invariant
                left@ == all.take(left@.len() as int),
                left@.len() <= all.len(),
                last@.len() + left@.len() == all.len(),
                forall|k: int| 0 <= k < all.len() ==> (#[trigger] all[k]).manifest is Ok,
                forall|k: int|
                    0 <= k < last@.len() ==> (#[trigger] last@[k])@ == entry_of(all[all.len() - 1 - k]),
            decreases left@.len(),
        {
            let ghost n = left@.len();
            if let Some(c) = left.pop() {
                assert(c == all[n - 1]);
                let ConfiguredRepo { root, manifest, writable, push } = c;
                if let Ok(RepoManifest { namespace, layout }) = manifest {
                    last.push(RepoEntry { namespace, root, layout, writable, push });
                }
            }
        }
        while last.len() > 0
            invariant
                last@.len() + entries@.len() == all.len(),
                forall|k: int|
                    0 <= k < last@.len() ==> (#[trigger] last@[k])@ == entry_of(all[all.len() - 1 - k]),
                forall|k: int| 0 <= k < entries@.len() ==> (#[trigger] entries@[k])@ == entry_of(all[k]),
            decreases last@.len(),
        {
            if let Some(e) = last.pop() {
                entries.push(e);
            }
        }
        assert(entry_views(entries@) =~= entries_of(all));
        Ok(RepoDefinitionStore { entries })
    }

    fn find(&self, namespace: &str) -> (r: Option<&RepoEntry>)
        ensures
            match r {
                Some(e) => self@.dom().contains(namespace@) && self@[namespace@] == e@,
                None => !self@.dom().contains(namespace@),
            },
    {
        let ghost all = entry_views(self.entries@);
        let mut i: usize = self.entries.len();
        assert(all.take(i as int) =~= all);
        while i > 0
            invariant
                all == entry_views(self.entries@),
                i <= self.entries@.len(),
                by_namespace(all).dom().contains(namespace@) == by_namespace(all.take(i as int)).dom().contains(namespace@),
                by_namespace(all)[namespace@] == by_namespace(all.take(i as int))[namespace@],
            decreases i,
        {
            proof {
                assert(all.take(i as int).drop_last() =~= all.take(i - 1));
                assert(all.take(i as int).last() == self.entries@[i - 1]@);
            }
            if same(self.entries[i - 1].namespace.as_str(), namespace) {
                return Some(&self.entries[i - 1]);
            }
            i = i - 1;
        }
        None
    }
}

/// The namespace and the local part of an id, or why it has none.
pub open spec fn parts_of(id: Seq<char>) -> Result<(Seq<char>, Seq<char>), Seq<char>> {
    match cut_at(id, '/') {
        Some(p) => Ok(p),
        None => Err(
            "definition id '"@ + id + "' is not namespace-prefixed (`<namespace>/<id>`)"@,
        ),
    }
}

fn split(id: &str) -> (r: Result<(String, String), String>)
    ensures
        parts_of(id@) == match r {
            Ok((a, b)) => Ok((a@, b@)),
            Err(m) => Err(m@),
        },
{
    match split_once(id, '/') {
        Some(p) => Ok(p),
        None => {
            let mut m = "definition id '".to_owned();
            m.append(id);
            m.append("' is not namespace-prefixed (`<namespace>/<id>`)");
            Err(m)
        },
    }
}

/// The directory that holds a local id, by its first word.
pub open spec fn tier_of(layout: LayoutView, local: Seq<char>) -> Seq<char> {
    if "cap."@.is_prefix_of(local) {
        layout.capabilities
    } else if "skill."@.is_prefix_of(local) {
        layout.skills
    } else if "script."@.is_prefix_of(local) {
        layout.scripts
    } else {
        layout.flows
    }
}

fn tier_dir<'a>(layout: &'a RepoLayout, local_id: &str) -> (r: &'a str)
    ensures
        r@ == tier_of(layout@, local_id@),
{
    if starts_with(local_id, "cap.") {
        layout.capabilities.as_str()
    } else if starts_with(local_id, "skill.") {
        layout.skills.as_str()
    } else if starts_with(local_id, "script.") {
        layout.scripts.as_str()
    } else {
        layout.flows.as_str()
    }
}

/// The file of a local id.
pub open spec fn file_of(e: EntryView, local: Seq<char>) -> Seq<char> {
    below(below(e.root, tier_of(e.layout, local)), local + ".yaml"@)
}

fn file_path(entry: &RepoEntry, local_id: &str) -> (r: String)
    ensures
        r@ == file_of(entry@, local_id@),
{
    let mut name = local_id.to_owned();
    name.append(".yaml");
    let dir = join_path(entry.root.as_str(), tier_dir(&entry.layout, local_id));
    join_path(dir.as_str(), name.as_str())
}

/// The repository of an id that is read, and the local part.
pub open spec fn read_from(
    s: Map<Seq<char>, EntryView>,
    id: Seq<char>,
) -> Result<(EntryView, Seq<char>), Seq<char>> {
    match parts_of(id) {
        Err(m) => Err(m),
        Ok((ns, local)) => if s.dom().contains(ns) {
            Ok((s[ns], local))
        } else {
            Err("no configured repo for namespace '"@ + ns + "'"@)
        },
    }
}

/// The repository of an id that is written, and the local part: it must be writable.
pub open spec fn write_to(
    s: Map<Seq<char>, EntryView>,
    id: Seq<char>,
) -> Result<(EntryView, Seq<char>), Seq<char>> {
    match parts_of(id) {
        Err(m) => Err(m),
        Ok((ns, local)) => if !s.dom().contains(ns) {
            Err("no configured repo for namespace '"@ + ns + "' (id '"@ + id + "')"@)
        } else if !s[ns].writable {
            Err("repo '"@ + ns + "' is read-only — author into a writable repo"@)
        } else {
            Ok((s[ns], local))
        },
    }
}

/// What came of reading a file: there is none, it could not be read, it does not parse, or
/// what it holds.
pub enum Reading {
    Missing(String),
    Unreadable(String),
    Malformed(String),
    Parsed(Json),
}

/// The model of a reading.
pub enum ReadingView {
    Missing(Seq<char>),
    Unreadable(Seq<char>),
    Malformed(Seq<char>),
    Parsed(JsonView),
}

impl Reading {
    pub open spec fn view(&self) -> ReadingView {
        match self {
            Reading::Missing(e) => ReadingView::Missing(e@),
            Reading::Unreadable(e) => ReadingView::Unreadable(e@),
            Reading::Malformed(e) => ReadingView::Malformed(e@),
            Reading::Parsed(v) => ReadingView::Parsed(v@),
        }
    }
}

/// Why a file could not be read.
pub open spec fn unread(id: Seq<char>, path: Seq<char>, e: Seq<char>) -> Seq<char> {
    "reading definition '"@ + id + "' at "@ + path + ": "@ + e
}

/// The definition that a file holds for a local id, or why there is none.
pub open spec fn held(
    id: Seq<char>,
    local: Seq<char>,
    path: Seq<char>,
    reading: ReadingView,
) -> Result<JsonView, Seq<char>> {
    match reading {
        ReadingView::Missing(e) => Err(unread(id, path, e)),
        ReadingView::Unreadable(e) => Err(unread(id, path, e)),
        ReadingView::Malformed(e) => Err(e),
        ReadingView::Parsed(file) => {
            let found = match file.get("workflows"@) {
                Some(w) => w.get(local),
                None => None,
            };
            match found {
                Some(v) => Ok(v),
                None => Err("definition '"@ + local + "' not found in "@ + path),
            }
        },
    }
}

fn unread_text(id: &str, path: &str, e: &str) -> (r: String)
    ensures
        r@ == unread(id@, path@, e@),
{
    let mut m = "reading definition '".to_owned();
    m.append(id);
    m.append("' at ");
    m.append(path);
    m.append(": ");
    m.append(e);
    m
}

/// The model of what a read gives.
pub open spec fn given(r: Result<Json, String>) -> Result<JsonView, Seq<char>> {
    match r {
        Ok(v) => Ok(v@),
        Err(m) => Err(m@),
    }
}

fn hold(id: &str, local: &str, path: &str, reading: &Reading) -> (r: Result<Json, String>)
    ensures
        given(r) == held(id@, local@, path@, reading@),
{
    match reading {
        Reading::Missing(e) => Err(unread_text(id, path, e.as_str())),
        Reading::Unreadable(e) => Err(unread_text(id, path, e.as_str())),
        Reading::Malformed(e) => Err(e.as_str().to_owned()),
        Reading::Parsed(file) => {
            let found = match file.get("workflows") {
                Some(w) => w.get(local),
                None => None,
            };
            match found {
                Some(v) => Ok(v.clone()),
                None => {
                    let mut m = "definition '".to_owned();
                    m.append(local);
                    m.append("' not found in ");
                    m.append(path);
                    Err(m)
                },
            }
        },
    }
}

impl RepoDefinitionStore {
    /// The file that holds an id.
    pub fn locate(&self, definition_id: &str) -> (r: Result<String, String>)
        ensures
            match read_from(self@, definition_id@) {
                Ok((e, local)) => r matches Ok(p) && p@ == file_of(e, local),
                Err(t) => r matches Err(m) && m@ == t,
            },
    {
        match self.source(definition_id) {
            Ok((_, _, path)) => Ok(path),
            Err(m) => Err(m),
        }
    }

    fn source(&self, definition_id: &str) -> (r: Result<(&RepoEntry, String, String), String>)
        ensures
            match read_from(self@, definition_id@) {
                Ok((e, local)) => r matches Ok((x, l, p)) && x@ == e && l@ == local && p@ == file_of(e, local),
                Err(t) => r matches Err(m) && m@ == t,
            },
    {
        let (ns, local) = match split(definition_id) {
            Ok(p) => p,
            Err(m) => return Err(m),
        };
        match self.find(ns.as_str()) {
            Some(entry) => {
                let path = file_path(entry, local.as_str());
                Ok((entry, local, path))
            },
            None => {
                let mut m = "no configured repo for namespace '".to_owned();
                m.append(ns.as_str());
                m.append("'");
                Err(m)
            },
        }
    }

    /// The definition of an id, from what came of reading its file.
    pub fn load(&self, definition_id: &str, reading: &Reading) -> (r: Result<Json, String>)
        ensures
            given(r) == match read_from(self@, definition_id@) {
                Ok((e, local)) => held(definition_id@, local, file_of(e, local), reading@),
                Err(m) => Err(m),
            },
    {
        match self.source(definition_id) {
            Ok((_, local, path)) => hold(definition_id, local.as_str(), path.as_str(), reading),
            Err(m) => Err(m),
        }
    }

    fn writable_entry(&self, namespaced_id: &str) -> (r: Result<(&RepoEntry, String), String>)
        ensures
            match write_to(self@, namespaced_id@) {
                Ok((e, local)) => r matches Ok((x, l)) && x@ == e && l@ == local,
                Err(t) => r matches Err(m) && m@ == t,
            },
    {
        let (ns, local) = match split(namespaced_id) {
            Ok(p) => p,
            Err(m) => return Err(m),
        };
        match self.find(ns.as_str()) {
            None => {
                let mut m = "no configured repo for namespace '".to_owned();
                m.append(ns.as_str());
                m.append("' (id '");
                m.append(namespaced_id);
                m.append("')");
                Err(m)
            },
            Some(entry) => if !entry.writable {
                let mut m = "repo '".to_owned();
                m.append(ns.as_str());
                m.append("' is read-only — author into a writable repo");
                Err(m)
            } else {
                Ok((entry, local))
            },
        }
    }
}

/// What registering a definition asks for next.
pub enum RegisterStep {
    /// Read a file.
    Read(String),
    /// Hash a definition.
    Hash(Json),
    /// Put an entry on the record.
    Record(AuditEvent),
    /// Write a file that holds a document.
    Write { path: String, file: Json },
    /// Run git in a directory.
    Git { root: String, args: Vec<String> },
    /// Push what was committed.
    Push(String),
    /// The definition is registered.
    Done,
    /// It is not, and why; where another failure is behind this one, that too.
    Failed { message: String, cause: Option<String> },
    /// The answers do not fit the questions.
    Misfit,
}

/// The model of a step.
pub enum RegisterView {
    Read(Seq<char>),
    Hash(JsonView),
    Record(AuditView),
    Write { path: Seq<char>, file: JsonView },
    Git { root: Seq<char>, args: Seq<Seq<char>> },
    Push(Seq<char>),
    Done,
    Failed { message: Seq<char>, cause: Option<Seq<char>> },
    Misfit,
}

impl RegisterStep {
    pub open spec fn view(&self) -> RegisterView {
        match self {
            RegisterStep::Read(p) => RegisterView::Read(p@),
            RegisterStep::Hash(v) => RegisterView::Hash(v@),
            RegisterStep::Record(e) => RegisterView::Record(e@),
            RegisterStep::Write { path, file } => RegisterView::Write { path: path@, file: file@ },
            RegisterStep::Git { root, args } => RegisterView::Git { root: root@, args: texts(args@) },
            RegisterStep::Push(p) => RegisterView::Push(p@),
            RegisterStep::Done => RegisterView::Done,
            RegisterStep::Failed { message, cause } => RegisterView::Failed {
                message: message@,
                cause: opt_string(*cause),
            },
            RegisterStep::Misfit => RegisterView::Misfit,
        }
    }
}

/// An answer to a step.
pub enum StoreReply {
    Read(Reading),
    Hash(String),
    /// Whether a record or a write was made, or why not.
    Made(Result<(), String>),
    Git(GitRun),
    Pushed(Result<(), String>),
}

/// The model of an answer.
pub enum StoreReplyView {
    Read(ReadingView),
    Hash(Seq<char>),
    Made(Option<Seq<char>>),
    Git { started: bool, success: bool, text: Seq<char> },
    Pushed(Option<Seq<char>>),
}

/// The failure in a result.
pub open spec fn failure(r: Result<(), String>) -> Option<Seq<char>> {
    match r {
        Ok(_) => None,
        Err(e) => Some(e@),
    }
}

impl StoreReply {
    pub open spec fn view(&self) -> StoreReplyView {
        match self {
            StoreReply::Read(r) => StoreReplyView::Read(r@),
            StoreReply::Hash(h) => StoreReplyView::Hash(h@),
            StoreReply::Made(r) => StoreReplyView::Made(failure(*r)),
            StoreReply::Git(run) => match run {
                GitRun::Exited { success, stderr } => StoreReplyView::Git {
                    started: true,
                    success: *success,
                    text: stderr@,
                },
                GitRun::NotStarted(e) => StoreReplyView::Git {
                    started: false,
                    success: false,
                    text: e@,
                },
            },
            StoreReply::Pushed(r) => StoreReplyView::Pushed(failure(*r)),
        }
    }
}

/// The models of answers.
pub open spec fn store_replies(v: Seq<StoreReply>) -> Seq<StoreReplyView> {
    v.map_values(|r: StoreReply| r@)
}

/// A plain failure.
pub open spec fn refused(message: Seq<char>) -> RegisterView {
    RegisterView::Failed { message, cause: None }
}

/// What one definition is registered as: its id, its repository, its local id and itself.
pub struct Registration {
    pub id: Seq<char>,
    pub entry: EntryView,
    pub local: Seq<char>,
    pub definition: JsonView,
}

/// The entry that a definition was published.
pub open spec fn published(g: Registration) -> AuditView {
    AuditView {
        event_type: "definition.published"@,
        workflow_id: None,
        actor: Some("authoring"@),
        correlation_id: None,
        topology: None,
        payload: obj().with("definitionId"@, JsonView::Str(g.id)).with(
            "namespace"@,
            JsonView::Str(g.entry.namespace),
        ).with("repo"@, JsonView::Str(g.entry.root)).json(),
    }
}

/// The document that a file holds.
pub open spec fn document(g: Registration) -> JsonView {
    obj().with("workflows"@, obj().with(g.local, g.definition).json()).json()
}

/// The name of a file within its repository.
pub open spec fn name_within(g: Registration) -> Seq<char> {
    let path = file_of(g.entry, g.local);
    match rest_below(path, g.entry.root) {
        Some(p) => p,
        None => path,
    }
}

/// The arguments that stage a file.
pub open spec fn add_args(g: Registration) -> Seq<Seq<char>> {
    Seq::empty().push("add"@).push(name_within(g))
}

/// The arguments that commit it.
pub open spec fn commit_args(g: Registration) -> Seq<Seq<char>> {
    Seq::empty().push("-c"@).push("user.email=authoring@praxec.local"@).push("-c"@).push(
        "user.name=praxec authoring"@,
    ).push("commit"@).push("-m"@).push("author: publish "@ + g.id)
}

/// Why a git run failed, where it did.
pub open spec fn git_fault(args: Seq<Seq<char>>, reply: StoreReplyView) -> Option<Seq<char>> {
    match reply {
        StoreReplyView::Git { started, success, text } => if !started {
            Some("running `git "@ + joined(args, " "@) + "`: "@ + text + " (is git on PATH?)"@)
        } else if !success {
            Some("`git "@ + joined(args, " "@) + "` failed: "@ + text)
        } else {
            None
        },
        _ => None,
    }
}

/// After the commit: push where the repository asks for it.
pub open spec fn pushing(g: Registration, replies: Seq<StoreReplyView>, n: int) -> RegisterView {
    if !g.entry.push {
        RegisterView::Done
    } else if n >= replies.len() {
        RegisterView::Push(g.entry.root)
    } else {
        match replies[n] {
            StoreReplyView::Pushed(Some(e)) => refused(e),
            StoreReplyView::Pushed(None) => RegisterView::Done,
            _ => RegisterView::Misfit,
        }
    }
}

/// A git run, then what follows.
pub open spec fn after_git(
    g: Registration,
    args: Seq<Seq<char>>,
    replies: Seq<StoreReplyView>,
    n: int,
    then_do: RegisterView,
) -> RegisterView {
    if n >= replies.len() {
        RegisterView::Git { root: g.entry.root, args }
    } else if !(replies[n] is Git) {
        RegisterView::Misfit
    } else {
        match git_fault(args, replies[n]) {
            Some(m) => refused(m),
            None => then_do,
        }
    }
}

/// Record, write, stage, commit, push: each only after the one before succeeded.
pub open spec fn publishing(g: Registration, replies: Seq<StoreReplyView>, n: int) -> RegisterView {
    if n >= replies.len() {
        RegisterView::Record(published(g))
    } else {
        match replies[n] {
            StoreReplyView::Made(Some(e)) => refused(
                "RECORD_WRITE_FAILED: audit of '"@ + g.id + "' failed, write aborted: "@ + e,
            ),
            StoreReplyView::Made(None) => if n + 1 >= replies.len() {
                RegisterView::Write { path: file_of(g.entry, g.local), file: document(g) }
            } else {
                match replies[n + 1] {
                    StoreReplyView::Made(Some(e)) => refused(e),
                    StoreReplyView::Made(None) => after_git(
                        g,
                        add_args(g),
                        replies,
                        n + 2,
                        after_git(g, commit_args(g), replies, n + 3, pushing(g, replies, n + 4)),
                    ),
                    _ => RegisterView::Misfit,
                }
            },
            _ => RegisterView::Misfit,
        }
    }
}

/// That a definition is not the one that was edited.
pub open spec fn stale(id: Seq<char>, expected: Seq<char>, found: Seq<char>) -> RegisterView {
    refused(
        "CONFLICT_STALE: '"@ + id + "' has changed since you read it (expected "@ + expected
            + ", found "@ + found + "). Re-read the current definition and re-apply your edit."@,
    )
}

/// What registering a definition does next, after the answers so far.
pub open spec fn registering(
    s: Map<Seq<char>, EntryView>,
    id: Seq<char>,
    definition: JsonView,
    expected: Option<Seq<char>>,
    replies: Seq<StoreReplyView>,
) -> RegisterView {
    match write_to(s, id) {
        Err(m) => refused(m),
        Ok((entry, local)) => {
            let g = Registration { id, entry, local, definition };
            let path = file_of(entry, local);
            match expected {
                None => publishing(g, replies, 0),
                Some(hash) => if replies.len() == 0 {
                    RegisterView::Read(path)
                } else {
                    match replies[0] {
                        StoreReplyView::Read(ReadingView::Missing(_)) => stale(id, hash, "<absent>"@),
                        StoreReplyView::Read(reading) => match held(id, local, path, reading) {
                            Err(e) => RegisterView::Failed {
                                message: "reading current definition '"@ + id
                                    + "' for the optimistic-concurrency check"@,
                                cause: Some(e),
                            },
                            Ok(v) => if replies.len() == 1 {
                                RegisterView::Hash(v)
                            } else {
                                match replies[1] {
                                    StoreReplyView::Hash(found) => if found != hash {
                                        stale(id, hash, found)
                                    } else {
                                        publishing(g, replies, 2)
                                    },
                                    _ => RegisterView::Misfit,
                                }
                            },
                        },
                        _ => RegisterView::Misfit,
                    }
                },
            }
        },
    }
}

fn refuse(message: String) -> (r: RegisterStep)
    ensures
        r@ == refused(message@),
{
    RegisterStep::Failed { message, cause: None }
}

/// What a registration works on.
struct Target<'a> {
    id: &'a str,
    entry: &'a RepoEntry,
    local: &'a str,
    definition: &'a Json,
}

impl<'a> Target<'a> {
    spec fn view(&self) -> Registration {
        Registration {
            id: self.id@,
            entry: self.entry@,
            local: self.local@,
            definition: self.definition@,
        }
    }
}

fn publish(g: &Target) -> (r: AuditEvent)
    ensures
        r@ == published(g@),
{
    let payload = JsonMap::new().with("definitionId", Json::text(g.id)).with(
        "namespace",
        Json::text(g.entry.namespace.as_str()),
    ).with("repo", Json::text(g.entry.root.as_str()));
    AuditEvent {
        event_type: "definition.published".to_owned(),
        workflow_id: None,
        actor: Some("authoring".to_owned()),
        correlation_id: None,
        topology: None,
        payload: Json::Object(payload),
    }
}

fn make_document(g: &Target) -> (r: Json)
    ensures
        r@ == document(g@),
{
    let inner = JsonMap::new().with(g.local, g.definition.clone());
    Json::Object(JsonMap::new().with("workflows", Json::Object(inner)))
}

fn make_add_args(g: &Target) -> (r: Vec<String>)
    ensures
        texts(r@) == add_args(g@),
{
    let path = file_path(g.entry, g.local);
    let name = match strip_base(path.as_str(), g.entry.root.as_str()) {
        Some(p) => p,
        None => path,
    };
    let mut v: Vec<String> = Vec::new();
    v.push("add".to_owned());
    v.push(name);
    assert(texts(v@) =~= add_args(g@));
    v
}

fn make_commit_args(g: &Target) -> (r: Vec<String>)
    ensures
        texts(r@) == commit_args(g@),
{
    let mut message = "author: publish ".to_owned();
    message.append(g.id);
    let mut v: Vec<String> = Vec::new();
    v.push("-c".to_owned());
    v.push("user.email=authoring@praxec.local".to_owned());
    v.push("-c".to_owned());
    v.push("user.name=praxec authoring".to_owned());
    v.push("commit".to_owned());
    v.push("-m".to_owned());
    v.push(message);
    assert(texts(v@) =~= commit_args(g@));
    v
}

fn find_git_fault(args: &Vec<String>, run: &GitRun) -> (r: Option<String>)
    ensures
        opt_string(r) == git_fault(texts(args@), StoreReply::Git(*run)@),
{
    match run {
        GitRun::NotStarted(e) => {
            let mut m = "running `git ".to_owned();
            m.append(join(args, " ").as_str());
            m.append("`: ");
            m.append(e.as_str());
            m.append(" (is git on PATH?)");
            Some(m)
        },
        GitRun::Exited { success, stderr } => if *success {
            None
        } else {
            let mut m = "`git ".to_owned();
            m.append(join(args, " ").as_str());
            m.append("` failed: ");
            m.append(stderr.as_str());
            Some(m)
        },
    }
}

fn do_push(g: &Target, replies: &Vec<StoreReply>, n: usize) -> (r: RegisterStep)
    ensures
        r@ == pushing(g@, store_replies(replies@), n as int),
{
    if !g.entry.push {
        return RegisterStep::Done;
    }
    if n >= replies.len() {
        return RegisterStep::Push(g.entry.root.as_str().to_owned());
    }
    assert(store_replies(replies@)[n as int] == replies@[n as int]@);
    match &replies[n] {
        StoreReply::Pushed(Err(e)) => refuse(e.as_str().to_owned()),
        StoreReply::Pushed(Ok(_)) => RegisterStep::Done,
        _ => RegisterStep::Misfit,
    }
}

/// Runs one git command. `None` where it succeeded.
fn do_git(g: &Target, args: Vec<String>, replies: &Vec<StoreReply>, n: usize) -> (r: Option<RegisterStep>)
    ensures
        forall|next: RegisterView| #[trigger]
            after_git(g@, texts(args@), store_replies(replies@), n as int, next) == match r {
                Some(s) => s@,
                None => next,
            },
{
    if n >= replies.len() {
        return Some(RegisterStep::Git { root: g.entry.root.as_str().to_owned(), args });
    }
    assert(store_replies(replies@)[n as int] == replies@[n as int]@);
    match &replies[n] {
        StoreReply::Git(run) => match find_git_fault(&args, run) {
            Some(m) => Some(refuse(m)),
            None => None,
        },
        _ => Some(RegisterStep::Misfit),
    }
}

fn do_publish(g: &Target, replies: &Vec<StoreReply>, n: usize) -> (r: RegisterStep)
    requires
        n <= 2,
    ensures
        r@ == publishing(g@, store_replies(replies@), n as int),
{
    if n >= replies.len() {
        return RegisterStep::Record(publish(g));
    }
    assert(store_replies(replies@)[n as int] == replies@[n as int]@);
    match &replies[n] {
        StoreReply::Made(Err(e)) => {
            let mut m = "RECORD_WRITE_FAILED: audit of '".to_owned();
            m.append(g.id);
            m.append("' failed, write aborted: ");
            m.append(e.as_str());
            return refuse(m);
        },
        StoreReply::Made(Ok(_)) => {},
        _ => return RegisterStep::Misfit,
    }
    if n + 1 >= replies.len() {
        return RegisterStep::Write { path: file_path(g.entry, g.local), file: make_document(g) };
    }
    assert(store_replies(replies@)[n + 1] == replies@[n + 1]@);
    match &replies[n + 1] {
        StoreReply::Made(Err(e)) => return refuse(e.as_str().to_owned()),
        StoreReply::Made(Ok(_)) => {},
        _ => return RegisterStep::Misfit,
    }
    let add = make_add_args(g);
    if let Some(s) = do_git(g, add, replies, n + 2) {
        return s;
    }
    let commit = make_commit_args(g);
    if let Some(s) = do_git(g, commit, replies, n + 3) {
        return s;
    }
    do_push(g, replies, n + 4)
}

fn refuse_stale(id: &str, expected: &str, found: &str) -> (r: RegisterStep)
    ensures
        r@ == stale(id@, expected@, found@),
{
    let mut m = "CONFLICT_STALE: '".to_owned();
    m.append(id);
    m.append("' has changed since you read it (expected ");
    m.append(expected);
    m.append(", found ");
    m.append(found);
    m.append("). Re-read the current definition and re-apply your edit.");
    refuse(m)
}

impl RepoDefinitionStore {
    /// Registers a definition. Where `expected_prior_hash` is given, it is the hash of the
    /// definition that the author edited, and the one on disk must still be that one.
    pub fn register(
        &self,
        definition_id: &str,
        definition: &Json,
        expected_prior_hash: Option<&str>,
        replies: &Vec<StoreReply>,
    ) -> (r: RegisterStep)
        ensures
            r@ == registering(
                self@,
                definition_id@,
                definition@,
                crate::json::opt_text(expected_prior_hash),
                store_replies(replies@),
            ),
    {
        let (entry, local) = match self.writable_entry(definition_id) {
            Ok(p) => p,
            Err(m) => return refuse(m),
        };
        let g = Target { id: definition_id, entry, local: local.as_str(), definition };
        let expected = match expected_prior_hash {
            None => return do_publish(&g, replies, 0),
            Some(h) => h,
        };
        let path = file_path(entry, local.as_str());
        if replies.len() == 0 {
            return RegisterStep::Read(path);
        }
        assert(store_replies(replies@)[0] == replies@[0]@);
        let reading = match &replies[0] {
            StoreReply::Read(Reading::Missing(_)) => {
                return refuse_stale(definition_id, expected, "<absent>");
            },
            StoreReply::Read(reading) => reading,
            _ => return RegisterStep::Misfit,
        };
        let current = match hold(definition_id, local.as_str(), path.as_str(), reading) {
            Ok(v) => v,
            Err(e) => {
                let mut m = "reading current definition '".to_owned();
                m.append(definition_id);
                m.append("' for the optimistic-concurrency check");
                return RegisterStep::Failed { message: m, cause: Some(e) };
            },
        };
        if replies.len() == 1 {
            return RegisterStep::Hash(current);
        }
        assert(store_replies(replies@)[1] == replies@[1]@);
        match &replies[1] {
            StoreReply::Hash(found) => if !same(found.as_str(), expected) {
                refuse_stale(definition_id, expected, found.as_str())
            } else {
                do_publish(&g, replies, 2)
            },
            _ => RegisterStep::Misfit,
        }
    }
}

/// Whether a step changes the repository of a definition.
pub open spec fn touches(step: RegisterView) -> bool {
    step is Write || step is Git || step is Push || step is Done
}

/// Nothing is written, committed or pushed before the entry on it is on the record, and where
/// the record failed, nothing is at all.
pub proof fn law_recorded_before_written(
    s: Map<Seq<char>, EntryView>,
    id: Seq<char>,
    definition: JsonView,
    expected: Option<Seq<char>>,
    replies: Seq<StoreReplyView>,
)
    ensures
        touches(registering(s, id, definition, expected, replies)) ==> {
            let n: int = if expected is None {
                0
            } else {
                2
            };
            &&& replies.len() > n
            &&& replies[n] == StoreReplyView::Made(None)
            &&& write_to(s, id) matches Ok((entry, local))
            &&& registering(s, id, definition, expected, replies.take(n)) == RegisterView::Record(
                published(Registration { id, entry, local, definition }),
            )
        },
{
    if touches(registering(s, id, definition, expected, replies)) {
        let (entry, local) = write_to(s, id)->Ok_0;
        let g = Registration { id, entry, local, definition };
        if expected is None {
            assert(publishing(g, replies.take(0), 0) == RegisterView::Record(published(g)));
        } else {
            assert(replies.len() > 2);
            assert(replies.take(2)[0] == replies[0] && replies.take(2)[1] == replies[1]);
        }
    }
}

/// A definition that was edited on the basis of another than the one on disk is neither
/// recorded nor written.
pub proof fn law_stale_edits_are_refused(
    s: Map<Seq<char>, EntryView>,
    id: Seq<char>,
    definition: JsonView,
    expected: Seq<char>,
    replies: Seq<StoreReplyView>,
)
    ensures
        ({
            let step = registering(s, id, definition, Some(expected), replies);
            touches(step) || step is Record ==> replies.len() >= 2 && replies[1]
                == StoreReplyView::Hash(expected)
        }),
{
}

/// A repository that is not writable takes nothing, whatever is answered.
pub proof fn law_read_only_repos_take_nothing(
    s: Map<Seq<char>, EntryView>,
    id: Seq<char>,
    definition: JsonView,
    expected: Option<Seq<char>>,
    replies: Seq<StoreReplyView>,
)
    requires
        read_from(s, id) is Ok,
        !read_from(s, id)->Ok_0.0.writable,
    ensures
        registering(s, id, definition, expected, replies) is Failed,
{
}

/// A definition that was registered is what is read back: the document that is written holds
/// it under the id that it is read by.
pub proof fn law_registered_is_loaded(
    s: Map<Seq<char>, EntryView>,
    id: Seq<char>,
    definition: JsonView,
    expected: Option<Seq<char>>,
    replies: Seq<StoreReplyView>,
)
    ensures
        registering(s, id, definition, expected, replies) matches RegisterView::Write { path, file } ==> {
            &&& read_from(s, id) matches Ok((entry, local))
            &&& file_of(entry, local) == path
            &&& held(id, local, path, ReadingView::Parsed(file)) == Ok::<JsonView, Seq<char>>(definition)
        },
{
    if registering(s, id, definition, expected, replies) is Write {
        let (entry, local) = write_to(s, id)->Ok_0;
        let inner = obj().with(local, definition);
        lemma_put_lookup(obj().m, local, definition, local);
        lemma_put_lookup(obj().m, "workflows"@, inner.json(), "workflows"@);
    }
}

/// What stands at paths: a path that is not in it has no file.
pub type Disk = Map<Seq<char>, ReadingView>;

/// Whether a reading is what stands at a path.
pub open spec fn reads_at(disk: Disk, path: Seq<char>, reading: ReadingView) -> bool {
    if disk.contains_key(path) {
        reading == disk[path] && !(reading is Missing)
    } else {
        reading is Missing
    }
}

/// What registering does next on a disk, over the answers so far, and the disk then. A file that
/// was written reads as its document.
pub open spec fn disk_after(
    s: Map<Seq<char>, EntryView>,
    id: Seq<char>,
    definition: JsonView,
    expected: Option<Seq<char>>,
    disk: Disk,
    replies: Seq<StoreReplyView>,
) -> Disk
    decreases replies.len(),
{
    if replies.len() == 0 {
        disk
    } else {
        let before = disk_after(s, id, definition, expected, disk, replies.drop_last());
        match registering(s, id, definition, expected, replies.drop_last()) {
            RegisterView::Write { path, file } => if replies.last() == StoreReplyView::Made(None) {
                before.insert(path, ReadingView::Parsed(file))
            } else {
                before
            },
            _ => before,
        }
    }
}

/// Whether the answers tell what stands on the disk and what it hashes to.
pub open spec fn truthful(
    s: Map<Seq<char>, EntryView>,
    id: Seq<char>,
    definition: JsonView,
    expected: Option<Seq<char>>,
    disk: Disk,
    hash: spec_fn(JsonView) -> Seq<char>,
    replies: Seq<StoreReplyView>,
) -> bool {
    forall|k: int|
        0 <= k < replies.len() ==> match registering(
            s,
            id,
            definition,
            expected,
            #[trigger] replies.take(k),
        ) {
            RegisterView::Read(path) => replies[k] matches StoreReplyView::Read(x) && reads_at(
                disk,
                path,
                x,
            ),
            RegisterView::Hash(v) => replies[k] == StoreReplyView::Hash(hash(v)),
            _ => true,
        }
}

/// Whether an id is loaded as a definition.
pub open spec fn loads_as(
    s: Map<Seq<char>, EntryView>,
    id: Seq<char>,
    disk: Disk,
    definition: JsonView,
) -> bool {
    &&& read_from(s, id) matches Ok((entry, local))
    &&& forall|x: ReadingView| #[trigger]
        reads_at(disk, file_of(entry, local), x) ==> held(
            id,
            local,
            file_of(entry, local),
            x,
        ) == Ok::<JsonView, Seq<char>>(definition)
}

/// The answer that tells how the write went.
spec fn write_reply(expected: Option<Seq<char>>) -> int {
    if expected is None {
        1
    } else {
        3
    }
}

proof fn lemma_disk_after(
    s: Map<Seq<char>, EntryView>,
    id: Seq<char>,
    definition: JsonView,
    expected: Option<Seq<char>>,
    disk: Disk,
    replies: Seq<StoreReplyView>,
)
    ensures
        ({
            let n = write_reply(expected);
            let after = disk_after(s, id, definition, expected, disk, replies);
            if replies.len() > n && replies[n] == StoreReplyView::Made(None) {
                match registering(s, id, definition, expected, replies.take(n)) {
                    RegisterView::Write { path, file } => after == disk.insert(
                        path,
                        ReadingView::Parsed(file),
                    ),
                    _ => after == disk,
                }
            } else {
                after == disk
            }
        }),
    decreases replies.len(),
{
    let n = write_reply(expected);
    if replies.len() > 0 {
        let init = replies.drop_last();
        lemma_disk_after(s, id, definition, expected, disk, init);
        if init.len() > n {
            assert(init.take(n) =~= replies.take(n));
            assert(init[n] == replies[n]);
            assert(!(registering(s, id, definition, expected, init) is Write));
        } else if init.len() == n {
            assert(init =~= replies.take(n));
        } else {
            assert(!(registering(s, id, definition, expected, init) is Write));
        }
    }
}

/// Registering over what stands on the disk. Where it is done, the id loads as the definition.
/// Where the definition that was edited is gone or is another, the edit is refused as stale,
/// with nothing put on the record, and where the record fails that is the reason; in both the
/// disk stays as it was.
pub proof fn law_register_then_load(
    s: Map<Seq<char>, EntryView>,
    id: Seq<char>,
    definition: JsonView,
    expected: Option<Seq<char>>,
    disk: Disk,
    hash: spec_fn(JsonView) -> Seq<char>,
    replies: Seq<StoreReplyView>,
)
    requires
        write_to(s, id) is Ok,
        truthful(s, id, definition, expected, disk, hash, replies),
    ensures
        ({
            let (entry, local) = write_to(s, id)->Ok_0;
            let path = file_of(entry, local);
            let step = registering(s, id, definition, expected, replies);
            let after = disk_after(s, id, definition, expected, disk, replies);
            let n: int = if expected is None {
                0
            } else {
                2
            };
            &&& step is Done ==> loads_as(s, id, after, definition)
            &&& expected matches Some(h) ==> {
                &&& !disk.contains_key(path) ==> after == disk && (step == RegisterView::Read(path)
                    || step == stale(id, h, "<absent>"@))
                &&& disk.contains_key(path) ==> (held(id, local, path, disk[path]) matches Ok(cur)
                    ==> hash(cur) != h ==> after == disk && (step == RegisterView::Read(path)
                    || step == RegisterView::Hash(cur) || step == stale(id, h, hash(cur))))
            }
            &&& replies.len() > n && registering(s, id, definition, expected, replies.take(n)) is Record
                ==> (replies[n] matches StoreReplyView::Made(Some(e)) ==> after == disk && step
                == refused(
                "RECORD_WRITE_FAILED: audit of '"@ + id + "' failed, write aborted: "@ + e,
            ))
        }),
{
    let (entry, local) = write_to(s, id)->Ok_0;
    let path = file_of(entry, local);
    let step = registering(s, id, definition, expected, replies);
    let after = disk_after(s, id, definition, expected, disk, replies);
    let g = Registration { id, entry, local, definition };
    let n = write_reply(expected);
    lemma_disk_after(s, id, definition, expected, disk, replies);
    if replies.len() > n {
        let some = replies.take(n);
        assert(some.len() == n);
        assert forall|k: int| 0 <= k < n implies some[k] == replies[k] by {}
        if expected is Some {
            assert(some[0] == replies[0] && some[1] == replies[1] && some[2] == replies[2]);
        } else {
            assert(some[0] == replies[0]);
        }
        law_registered_is_loaded(s, id, definition, expected, some);
        if step is Done {
            assert(registering(s, id, definition, expected, some) == RegisterView::Write {
                path,
                file: document(g),
            });
            assert(after[path] == ReadingView::Parsed(document(g)));
        }
    }
    if expected is Some && replies.len() > 0 {
        assert(replies.take(0) =~= Seq::empty());
        assert(registering(s, id, definition, expected, replies.take(0)) == RegisterView::Read(path));
        if replies.len() > 1 {
            assert(replies.take(1)[0] == replies[0]);
            let asked = registering(s, id, definition, expected, replies.take(1));
            assert(asked is Hash ==> replies[1] == StoreReplyView::Hash(hash(asked->Hash_0)));
        }
    }
    if replies.len() > 2 && expected is Some {
        assert(replies.take(2)[0] == replies[0] && replies.take(2)[1] == replies[1]);
    }
    if replies.len() > 0 && expected is None {
        assert(replies.take(0) =~= Seq::empty());
    }
}

} // verus!
