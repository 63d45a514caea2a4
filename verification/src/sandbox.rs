//! Confined execution: the policy of a script, and the commands by which a backend
//! enforces it.

use vstd::prelude::*;

use crate::json::{opt_view, views, Json, JsonView};
use crate::runtime::links::{collect_strings, strings_in};
use crate::scan::{first_some, lemma_first_some};
use crate::text::{
    copy_strings, decimal, decimal_text, opt_string, same, texts, trim, trimmed,
};

verus! {

/// Which network addresses a confined script can reach.
pub enum Egress {
    DenyAll,
    /// Only the listed `host:port` entries.
    Allow(Vec<String>),
}

/// Bounds on a confined run.
pub struct ResourceLimits {
    pub wall_clock_secs: u64,
    pub max_pids: u32,
}

impl Default for ResourceLimits {
    fn default() -> (r: ResourceLimits)
        ensures
            r == (ResourceLimits { wall_clock_secs: 300, max_pids: 256 }),
    {
        ResourceLimits { wall_clock_secs: 300, max_pids: 256 }
    }
}

/// The confinement of one script.
pub struct ConfinementProfile {
    pub egress: Egress,
    /// Names of variables of the host that pass into the sandbox.
    pub env_allowlist: Vec<String>,
    pub limits: ResourceLimits,
}

/// The model of an egress policy: the entries of an allowlist, if there is one.
pub open spec fn egress_view(e: Egress) -> Option<Seq<Seq<char>>> {
    match e {
        Egress::DenyAll => None,
        Egress::Allow(a) => Some(texts(a@)),
    }
}

/// The bounds of a run that sets no others.
pub open spec fn default_limits() -> ResourceLimits {
    ResourceLimits { wall_clock_secs: 300, max_pids: 256 }
}

/// Whether a profile has the given policy and bounds.
pub open spec fn profile_is(
    p: ConfinementProfile,
    egress: Option<Seq<Seq<char>>>,
    env: Seq<Seq<char>>,
    limits: ResourceLimits,
) -> bool {
    &&& egress_view(p.egress) == egress
    &&& texts(p.env_allowlist@) == env
    &&& p.limits == limits
}

/// The name of a value's type.
pub open spec fn kind_name(v: JsonView) -> Seq<char> {
    match v {
        JsonView::Null => "null"@,
        JsonView::Bool(_) => "boolean"@,
        JsonView::Number(_) => "number"@,
        JsonView::Str(_) => "string"@,
        JsonView::Array(_) => "array"@,
        JsonView::Object(_) => "object"@,
    }
}

/// The name of a value's type.
pub fn kind_of(v: &Json) -> (r: &'static str)
    ensures
        r@ == kind_name(v@),
{
    match v {
        Json::Null => "null",
        Json::Bool(_) => "boolean",
        Json::Number(_) => "number",
        Json::Str(_) => "string",
        Json::Array(_) => "array",
        Json::Object(_) => "object",
    }
}

/// What a policy block says: nothing is confined, a profile, or why it says nothing
/// that can be understood.
pub enum PolicyView {
    Unconfined,
    Profile { egress: Option<Seq<Seq<char>>>, env: Seq<Seq<char>>, limits: ResourceLimits },
    Invalid(Seq<char>),
}

/// The types of the elements that are no strings.
pub open spec fn odd_at(a: Seq<JsonView>) -> spec_fn(int) -> Option<Seq<char>> {
    |i: int|
        if a[i] is Str {
            None
        } else {
            Some(kind_name(a[i]))
        }
}

/// The strings of an array of a block. Every element has to be one.
pub open spec fn entries_policy(a: Seq<JsonView>, what: Seq<char>) -> Result<
    Seq<Seq<char>>,
    Seq<char>,
> {
    match first_some(a.len(), odd_at(a)) {
        None => Ok(strings_in(Some(JsonView::Array(a)))),
        Some(kind) => Err(what + "an array that holds a value of type "@ + kind + ")"@),
    }
}

/// The egress policy of a block, or why it has none.
pub open spec fn egress_policy(v: Option<JsonView>) -> Result<Option<Seq<Seq<char>>>, Seq<char>> {
    match v {
        None => Ok(None),
        Some(JsonView::Null) => Ok(None),
        Some(JsonView::Array(a)) => match entries_policy(
            a,
            "INVALID_CONFINEMENT: `confinement.egress` must be \"deny\" or an array of host:port allowlist entries (got "@,
        ) {
            Ok(entries) => Ok(Some(entries)),
            Err(m) => Err(m),
        },
        Some(other) => if other == JsonView::Str("deny"@) {
            Ok(None)
        } else {
            Err(
                "INVALID_CONFINEMENT: `confinement.egress` must be \"deny\" or an array of host:port allowlist entries (got "@
                    + kind_name(other) + ")"@,
            )
        },
    }
}

/// The variables that a block lets pass, or why it names none.
pub open spec fn env_policy(v: Option<JsonView>) -> Result<Seq<Seq<char>>, Seq<char>> {
    match v {
        None => Ok(Seq::empty()),
        Some(JsonView::Null) => Ok(Seq::empty()),
        Some(JsonView::Array(a)) => entries_policy(
            a,
            "INVALID_CONFINEMENT: `confinement.env` must be an array of env var names to pass through (got "@,
        ),
        Some(other) => Err(
            "INVALID_CONFINEMENT: `confinement.env` must be an array of env var names to pass through (got "@
                + kind_name(other) + ")"@,
        ),
    }
}

/// A bound of a block, or why it is none.
pub open spec fn bound_policy(
    v: Option<JsonView>,
    key: Seq<char>,
    default: u64,
    most: u64,
) -> Result<u64, Seq<char>> {
    match v {
        None => Ok(default),
        Some(JsonView::Null) => Ok(default),
        Some(other) => match other.as_u64() {
            Some(n) if n <= most => Ok(n),
            _ => Err(
                "INVALID_CONFINEMENT: `confinement.limits."@ + key
                    + "` must be an unsigned integer of at most "@ + decimal(most as nat)
                    + " (got "@ + kind_name(other) + ")"@,
            ),
        },
    }
}

/// The bounds of a block, each as it is set or as it is by default, or why it has none.
pub open spec fn limits_policy(v: Option<JsonView>) -> Result<ResourceLimits, Seq<char>> {
    match v {
        None => Ok(default_limits()),
        Some(JsonView::Null) => Ok(default_limits()),
        Some(JsonView::Object(m)) => {
            let block = JsonView::Object(m);
            match bound_policy(
                block.get("wall_clock_secs"@),
                "wall_clock_secs"@,
                default_limits().wall_clock_secs,
                u64::MAX,
            ) {
                Err(e) => Err(e),
                Ok(secs) => match bound_policy(
                    block.get("max_pids"@),
                    "max_pids"@,
                    default_limits().max_pids as u64,
                    u32::MAX as u64,
                ) {
                    Err(e) => Err(e),
                    Ok(pids) => Ok(ResourceLimits { wall_clock_secs: secs, max_pids: pids as u32 }),
                },
            }
        },
        Some(other) => Err(
            "INVALID_CONFINEMENT: `confinement.limits` must be an object (got "@ + kind_name(other)
                + ")"@,
        ),
    }
}

/// What the `confinement` of an executor says.
pub open spec fn policy(config: JsonView) -> PolicyView {
    match config.get("confinement"@) {
        None => PolicyView::Unconfined,
        Some(JsonView::Null) => PolicyView::Unconfined,
        Some(JsonView::Str(s)) => if s == "none"@ {
            PolicyView::Unconfined
        } else if s == "confined"@ {
            PolicyView::Profile { egress: None, env: Seq::empty(), limits: default_limits() }
        } else {
            PolicyView::Invalid(
                "INVALID_CONFINEMENT: `confinement` string must be \"none\" or \"confined\" (got \""@
                    + s + "\"); use an object for a custom profile"@,
            )
        },
        Some(JsonView::Object(m)) => {
            let block = JsonView::Object(m);
            match egress_policy(block.get("egress"@)) {
                Err(e) => PolicyView::Invalid(e),
                Ok(egress) => match env_policy(block.get("env"@)) {
                    Err(e) => PolicyView::Invalid(e),
                    Ok(env) => match limits_policy(block.get("limits"@)) {
                        Err(e) => PolicyView::Invalid(e),
                        Ok(limits) => PolicyView::Profile { egress, env, limits },
                    },
                },
            }
        },
        Some(other) => PolicyView::Invalid(
            "INVALID_CONFINEMENT: `confinement` must be \"none\", \"confined\", or an object (got "@
                + kind_name(other) + ")"@,
        ),
    }
}

fn read_entries(v: &Json, a: &Vec<Json>, what: &str) -> (r: Result<Vec<String>, String>)
    requires
        v@ == JsonView::Array(views(a@)),
    ensures
        match entries_policy(views(a@), what@) {
            Ok(e) => r matches Ok(x) && texts(x@) == e,
            Err(m) => r matches Err(x) && x@ == m,
        },
{
    let ghost f = odd_at(views(a@));
    let mut i: usize = 0;
    while i < a.len()
        invariant
            i <= a@.len(),
            f == odd_at(views(a@)),
            first_some(i as nat, f) is None,
        decreases a@.len() - i,
    {
        assert(views(a@)[i as int] == a@[i as int]@);
        if a[i].as_str().is_none() {
            let mut m = what.to_owned();
            m.append("an array that holds a value of type ");
            m.append(kind_of(&a[i]));
            m.append(")");
            proof {
                assert(first_some((i + 1) as nat, f) == f(i as int));
                lemma_first_some((i + 1) as nat, a@.len(), f);
            }
            return Err(m);
        }
        i = i + 1;
    }
    Ok(collect_strings(Some(v)))
}

fn read_egress(v: Option<&Json>) -> (r: Result<Egress, String>)
    ensures
        match egress_policy(opt_view(v)) {
            Ok(e) => r matches Ok(x) && egress_view(x) == e,
            Err(m) => r matches Err(x) && x@ == m,
        },
{
    broadcast use crate::json::array_view;

    match v {
        None => Ok(Egress::DenyAll),
        Some(Json::Null) => Ok(Egress::DenyAll),
        Some(list @ Json::Array(a)) => match read_entries(
            list,
            a,
            "INVALID_CONFINEMENT: `confinement.egress` must be \"deny\" or an array of host:port allowlist entries (got ",
        ) {
            Ok(entries) => Ok(Egress::Allow(entries)),
            Err(m) => Err(m),
        },
        Some(other) => {
            let deny = match other.as_str() {
                Some(s) => same(s, "deny"),
                None => false,
            };
            if deny {
                Ok(Egress::DenyAll)
            } else {
                let mut m =
                    "INVALID_CONFINEMENT: `confinement.egress` must be \"deny\" or an array of host:port allowlist entries (got ".to_owned();
                m.append(kind_of(other));
                m.append(")");
                Err(m)
            }
        },
    }
}

fn read_env(v: Option<&Json>) -> (r: Result<Vec<String>, String>)
    ensures
        match env_policy(opt_view(v)) {
            Ok(e) => r matches Ok(x) && texts(x@) == e,
            Err(m) => r matches Err(x) && x@ == m,
        },
{
    broadcast use crate::json::array_view;

    let none: Vec<String> = Vec::new();
    assert(texts(none@) =~= Seq::empty());
    match v {
        None => Ok(none),
        Some(Json::Null) => Ok(none),
        Some(list @ Json::Array(a)) => read_entries(
            list,
            a,
            "INVALID_CONFINEMENT: `confinement.env` must be an array of env var names to pass through (got ",
        ),
        Some(other) => {
            let mut m =
                "INVALID_CONFINEMENT: `confinement.env` must be an array of env var names to pass through (got ".to_owned();
            m.append(kind_of(other));
            m.append(")");
            Err(m)
        },
    }
}

fn read_bound(v: Option<&Json>, key: &str, default: u64, most: u64) -> (r: Result<u64, String>)
    ensures
        match bound_policy(opt_view(v), key@, default, most) {
            Ok(n) => r == Ok::<u64, String>(n),
            Err(m) => r matches Err(x) && x@ == m,
        },
{
    match v {
        None => Ok(default),
        Some(Json::Null) => Ok(default),
        Some(other) => {
            if let Some(n) = other.as_u64() {
                if n <= most {
                    return Ok(n);
                }
            }
            let mut m = "INVALID_CONFINEMENT: `confinement.limits.".to_owned();
            m.append(key);
            m.append("` must be an unsigned integer of at most ");
            m.append(decimal_text(most).as_str());
            m.append(" (got ");
            m.append(kind_of(other));
            m.append(")");
            Err(m)
        },
    }
}

fn read_limits(v: Option<&Json>) -> (r: Result<ResourceLimits, String>)
    ensures
        match limits_policy(opt_view(v)) {
            Ok(l) => r == Ok::<ResourceLimits, String>(l),
            Err(m) => r matches Err(x) && x@ == m,
        },
{
    match v {
        None => Ok(ResourceLimits::default()),
        Some(Json::Null) => Ok(ResourceLimits::default()),
        Some(Json::Object(block)) => {
            let secs: u64 = match read_bound(
                block.get("wall_clock_secs"),
                "wall_clock_secs",
                300,
                u64::MAX,
            ) {
                Ok(n) => n,
                Err(m) => {
                    return Err(m);
                },
            };
            match read_bound(block.get("max_pids"), "max_pids", 256, u32::MAX as u64) {
                Ok(n) => Ok(ResourceLimits { wall_clock_secs: secs, max_pids: n as u32 }),
                Err(m) => Err(m),
            }
        },
        Some(other) => {
            let mut m = "INVALID_CONFINEMENT: `confinement.limits` must be an object (got ".to_owned();
            m.append(kind_of(other));
            m.append(")");
            Err(m)
        },
    }
}

impl ConfinementProfile {
    /// The strict profile: no network, a clean environment, default bounds.
    pub fn confined() -> (r: ConfinementProfile)
        ensures
            profile_is(r, None, Seq::empty(), default_limits()),
    {
        let none: Vec<String> = Vec::new();
        assert(texts(none@) =~= Seq::empty());
        ConfinementProfile {
            egress: Egress::DenyAll,
            env_allowlist: none,
            limits: ResourceLimits::default(),
        }
    }

    /// Reads the `confinement` of an executor. A block that cannot be understood is an
    /// error, never a default.
    pub fn from_executor_config(cfg: &Json) -> (r: Result<Option<ConfinementProfile>, String>)
        ensures
            match policy(cfg@) {
                PolicyView::Unconfined => r matches Ok(None),
                PolicyView::Profile { egress, env, limits } => r matches Ok(Some(p)) && profile_is(
                    p,
                    egress,
                    env,
                    limits,
                ),
                PolicyView::Invalid(m) => r matches Err(e) && e@ == m,
            },
    {
        match cfg.get("confinement") {
            None => Ok(None),
            Some(Json::Null) => Ok(None),
            Some(Json::Str(s)) => if same(s.as_str(), "none") {
                Ok(None)
            } else if same(s.as_str(), "confined") {
                Ok(Some(ConfinementProfile::confined()))
            } else {
                let mut m =
                    "INVALID_CONFINEMENT: `confinement` string must be \"none\" or \"confined\" (got \"".to_owned();
                m.append(s.as_str());
                m.append("\"); use an object for a custom profile");
                Err(m)
            },
            Some(Json::Object(block)) => {
                let egress = match read_egress(block.get("egress")) {
                    Ok(e) => e,
                    Err(m) => {
                        return Err(m);
                    },
                };
                let env_allowlist = match read_env(block.get("env")) {
                    Ok(e) => e,
                    Err(m) => {
                        return Err(m);
                    },
                };
                let limits = match read_limits(block.get("limits")) {
                    Ok(l) => l,
                    Err(m) => {
                        return Err(m);
                    },
                };
                Ok(Some(ConfinementProfile { egress, env_allowlist, limits }))
            },
            Some(other) => {
                let mut m =
                    "INVALID_CONFINEMENT: `confinement` must be \"none\", \"confined\", or an object (got ".to_owned();
                m.append(kind_of(other));
                m.append(")");
                Err(m)
            },
        }
    }
}

/// What to run, confined. The first element of `command` is the program.
pub struct SandboxSpec {
    pub workspace: Option<String>,
    pub command: Vec<String>,
    /// Files of the host that can be read inside, under their own paths.
    pub ro_binds: Vec<String>,
    pub env: Vec<(String, String)>,
    pub egress: Egress,
    pub env_allowlist: Vec<String>,
    pub limits: ResourceLimits,
}

/// What a confined run left.
pub struct SandboxOutput {
    pub code: Option<i32>,
    pub success: bool,
    pub stdout: Vec<u8>,
    pub stderr: Vec<u8>,
}

/// Whether a backend can be used on this host.
pub struct Preflight {
    pub usable: bool,
    pub detail: String,
    pub install_hint: Option<String>,
}

impl Preflight {
    /// Whether it has this detail and this hint.
    pub open spec fn tells(&self, detail: Seq<char>, hint: Option<Seq<char>>) -> bool {
        self.detail@ == detail && opt_string(self.install_hint) == hint
    }
}

/// What came of a trial run.
pub enum Probe {
    Exited { success: bool, stderr: String },
    NotStarted(String),
}

/// What the host contributes to a confined run.
pub struct HostFacts {
    /// For each name of the allowlist, the value that the host has for it.
    pub ambient: Vec<Option<String>>,
    /// Whether a scope with a bound on processes can be had.
    pub cgroup_scope: bool,
}

/// A program and its arguments.
pub struct SandboxCommand {
    pub program: String,
    pub args: Vec<String>,
}

/// How a confined run ended.
pub enum RunEnd {
    Finished(SandboxOutput),
    SpawnFailed(String),
    TimedOut,
}

/// A backend that enforces a `SandboxSpec`.
pub trait SandboxProvider {
    /// Reads a trial run: a backend is usable, or there is a remedy.
    fn preflight(&self, probe: &Probe) -> (r: Preflight)
        ensures
            r.usable == (*probe matches Probe::Exited { success, .. } && success),
            r.usable == (r.install_hint is None),
    ;

    /// The command that runs `spec` confined. An allowlist of addresses is refused: it
    /// could only be widened or ignored.
    fn run(&self, spec: &SandboxSpec, host: &HostFacts) -> (r: Result<SandboxCommand, String>)
        requires
            host.ambient@.len() == spec.env_allowlist@.len(),
        ensures
            r is Ok <==> spec.egress is DenyAll,
    ;
}

/// The bound on the time of a run: at least a second.
pub open spec fn time_bound(limits: ResourceLimits) -> u64 {
    if limits.wall_clock_secs < 1 {
        1
    } else {
        limits.wall_clock_secs
    }
}

pub fn wall_clock(limits: &ResourceLimits) -> (r: u64)
    ensures
        r == time_bound(*limits),
        r >= 1,
{
    if limits.wall_clock_secs < 1 {
        1
    } else {
        limits.wall_clock_secs
    }
}

/// Words the end of a run of the backend `name`.
pub fn judge_run(name: &str, limits: &ResourceLimits, end: RunEnd) -> (r: Result<
    SandboxOutput,
    String,
>)
    ensures
        match end {
            RunEnd::Finished(o) => r == Ok::<SandboxOutput, String>(o),
            RunEnd::SpawnFailed(e) => r matches Err(m) && m@ == name@ + " spawn failed: "@ + e@,
            RunEnd::TimedOut => r matches Err(m) && m@
                == "SANDBOX_TIMEOUT: confined run exceeded "@ + decimal(
                time_bound(*limits) as nat,
            ) + "s"@,
        },
{
    match end {
        RunEnd::Finished(o) => Ok(o),
        RunEnd::SpawnFailed(e) => {
            let mut m = name.to_owned();
            m.append(" spawn failed: ");
            m.append(e.as_str());
            Err(m)
        },
        RunEnd::TimedOut => {
            let mut m = "SANDBOX_TIMEOUT: confined run exceeded ".to_owned();
            m.append(decimal_text(wall_clock(limits)).as_str());
            m.append("s");
            Err(m)
        },
    }
}

fn push1(out: &mut Vec<String>, a: &str)
    ensures
        texts(final(out)@) == texts(old(out)@) + seq![a@],
{
    let ghost before = out@;
    out.push(a.to_owned());
    assert(texts(out@) =~= texts(before) + seq![a@]);
}

fn push2(out: &mut Vec<String>, a: &str, b: &str)
    ensures
        texts(final(out)@) == texts(old(out)@) + seq![a@, b@],
{
    let ghost before = out@;
    out.push(a.to_owned());
    out.push(b.to_owned());
    assert(texts(out@) =~= texts(before) + seq![a@, b@]);
}

fn push3(out: &mut Vec<String>, a: &str, b: &str, c: &str)
    ensures
        texts(final(out)@) == texts(old(out)@) + seq![a@, b@, c@],
{
    let ghost before = out@;
    out.push(a.to_owned());
    out.push(b.to_owned());
    out.push(c.to_owned());
    assert(texts(out@) =~= texts(before) + seq![a@, b@, c@]);
}

fn push_all(out: &mut Vec<String>, more: &Vec<String>)
    ensures
        texts(final(out)@) == texts(old(out)@) + texts(more@),
{
    let ghost before = texts(out@);
    let mut copy = copy_strings(more);
    let ghost added = texts(copy@);
    out.append(&mut copy);
    assert(texts(out@) =~= before + added);
}

/// The read-only runtime that every sandbox gets.
pub open spec fn scaffold_args() -> Seq<Seq<char>> {
    seq!["--ro-bind"@, "/usr"@, "/usr"@] + seq!["--symlink"@, "usr/bin"@, "/bin"@] + seq![
        "--symlink"@,
        "usr/lib"@,
        "/lib"@,
    ] + seq!["--symlink"@, "usr/lib64"@, "/lib64"@] + seq!["--symlink"@, "usr/sbin"@, "/sbin"@]
}

/// The variables of the host that pass into the sandbox.
pub open spec fn ambient_args(names: Seq<Seq<char>>, values: Seq<Option<String>>) -> Seq<Seq<char>>
    decreases names.len(),
{
    if names.len() == 0 {
        Seq::empty()
    } else {
        let before = ambient_args(names.drop_last(), values);
        match values[names.len() - 1] {
            Some(v) => before + seq!["--setenv"@, names.last(), v@],
            None => before,
        }
    }
}

/// The variables that are set inside the sandbox.
pub open spec fn setenv_args(env: Seq<(String, String)>) -> Seq<Seq<char>>
    decreases env.len(),
{
    if env.len() == 0 {
        Seq::empty()
    } else {
        setenv_args(env.drop_last()) + seq!["--setenv"@, env.last().0@, env.last().1@]
    }
}

/// The files that can be read inside.
pub open spec fn bind_args(files: Seq<Seq<char>>) -> Seq<Seq<char>>
    decreases files.len(),
{
    if files.len() == 0 {
        Seq::empty()
    } else {
        bind_args(files.drop_last()) + seq!["--ro-bind"@, files.last(), files.last()]
    }
}

/// The workspace: writable, under its own path, and the directory to run in.
pub open spec fn workspace_args(w: Option<String>) -> Seq<Seq<char>> {
    match w {
        Some(s) => seq!["--bind"@, s@, s@] + seq!["--chdir"@, s@],
        None => Seq::empty(),
    }
}

/// The arguments of bubblewrap for a confined run.
pub open spec fn bwrap_args(spec: SandboxSpec, ambient: Seq<Option<String>>) -> Seq<Seq<char>> {
    seq!["--unshare-user"@, "--unshare-pid"@, "--unshare-ipc"@] + seq![
        "--unshare-uts"@,
        "--unshare-net"@,
    ] + seq!["--clearenv"@] + seq!["--setenv"@, "PATH"@, "/usr/bin:/bin"@] + scaffold_args() + seq![
        "--proc"@,
        "/proc"@,
    ] + seq!["--dev"@, "/dev"@] + seq!["--tmpfs"@, "/tmp"@] + ambient_args(
        texts(spec.env_allowlist@),
        ambient,
    ) + setenv_args(spec.env@) + bind_args(texts(spec.ro_binds@)) + workspace_args(spec.workspace)
        + seq!["--"@] + texts(spec.command@)
}

/// The prefix that bounds the number of processes.
pub open spec fn scope_args(max_pids: u32) -> Seq<Seq<char>> {
    seq!["--user"@, "--scope"@, "--quiet"@] + seq!["--collect"@] + seq![
        "--property=TasksMax="@ + decimal(max_pids as nat),
        "--"@,
        "bwrap"@,
    ]
}

/// The command of the bubblewrap backend.
pub open spec fn bwrap_command(spec: SandboxSpec, host: HostFacts) -> (Seq<char>, Seq<Seq<char>>) {
    if host.cgroup_scope {
        (
            "systemd-run"@,
            scope_args(spec.limits.max_pids) + bwrap_args(spec, host.ambient@),
        )
    } else {
        ("bwrap"@, bwrap_args(spec, host.ambient@))
    }
}

/// The bubblewrap backend.
pub struct BwrapProvider {}

impl BwrapProvider {
    pub fn new() -> (r: BwrapProvider)
        ensures
            r == (BwrapProvider {  }),
    {
        BwrapProvider {  }
    }

    /// The read-only runtime that every sandbox gets.
    pub fn scaffold() -> (r: Vec<String>)
        ensures
            texts(r@) == scaffold_args(),
    {
        let mut out: Vec<String> = Vec::new();
        push3(&mut out, "--ro-bind", "/usr", "/usr");
        push3(&mut out, "--symlink", "usr/bin", "/bin");
        push3(&mut out, "--symlink", "usr/lib", "/lib");
        push3(&mut out, "--symlink", "usr/lib64", "/lib64");
        push3(&mut out, "--symlink", "usr/sbin", "/sbin");
        assert(texts(out@) =~= scaffold_args());
        out
    }

    /// The arguments of a trial run.
    pub fn preflight_args() -> (r: Vec<String>)
        ensures
            texts(r@) == seq!["--unshare-user"@, "--unshare-net"@] + scaffold_args() + seq![
                "/usr/bin/true"@,
            ],
    {
        let mut out: Vec<String> = Vec::new();
        assert(texts(out@) =~= Seq::empty());
        push2(&mut out, "--unshare-user", "--unshare-net");
        assert(texts(out@) =~= seq!["--unshare-user"@, "--unshare-net"@]);
        push_all(&mut out, &BwrapProvider::scaffold());
        push1(&mut out, "/usr/bin/true");
        out
    }

    fn args(spec: &SandboxSpec, host: &HostFacts) -> (r: Vec<String>)
        requires
            host.ambient@.len() == spec.env_allowlist@.len(),
        ensures
            texts(r@) == bwrap_args(*spec, host.ambient@),
    {
        let mut out: Vec<String> = Vec::new();
        assert(texts(out@) =~= Seq::empty());
        push3(&mut out, "--unshare-user", "--unshare-pid", "--unshare-ipc");
        assert(texts(out@) =~= seq!["--unshare-user"@, "--unshare-pid"@, "--unshare-ipc"@]);
        push2(&mut out, "--unshare-uts", "--unshare-net");
        push1(&mut out, "--clearenv");
        push3(&mut out, "--setenv", "PATH", "/usr/bin:/bin");
        push_all(&mut out, &BwrapProvider::scaffold());
        push2(&mut out, "--proc", "/proc");
        push2(&mut out, "--dev", "/dev");
        push2(&mut out, "--tmpfs", "/tmp");
        let ghost base = texts(out@);
        let ghost names = texts(spec.env_allowlist@);
        let mut i: usize = 0;
        assert(names.take(0) =~= Seq::empty());
        assert(texts(out@) =~= base + ambient_args(names.take(0), host.ambient@));
        while i < spec.env_allowlist.len()
            invariant
                i <= names.len(),
                names == texts(spec.env_allowlist@),
                host.ambient@.len() == spec.env_allowlist@.len(),
                texts(out@) == base + ambient_args(names.take(i as int), host.ambient@),
            decreases names.len() - i,
        {
            let ghost next = names.take(i + 1);
            let ghost before = texts(out@);
            assert(next.drop_last() =~= names.take(i as int));
            assert(next.last() == spec.env_allowlist@[i as int]@);
            if let Some(v) = &host.ambient[i] {
                push3(&mut out, "--setenv", spec.env_allowlist[i].as_str(), v.as_str());
            }
            assert(texts(out@) =~= base + ambient_args(next, host.ambient@));
            i = i + 1;
        }
        assert(names.take(i as int) =~= names);
        let ghost base = texts(out@);
        i = 0;
        assert(spec.env@.take(0) =~= Seq::empty());
        assert(texts(out@) =~= base + setenv_args(spec.env@.take(0)));
        while i < spec.env.len()
            invariant
                i <= spec.env@.len(),
                texts(out@) == base + setenv_args(spec.env@.take(i as int)),
            decreases spec.env@.len() - i,
        {
            let ghost next = spec.env@.take(i + 1);
            assert(next.drop_last() =~= spec.env@.take(i as int));
            assert(next.last() == spec.env@[i as int]);
            push3(&mut out, "--setenv", spec.env[i].0.as_str(), spec.env[i].1.as_str());
            assert(texts(out@) =~= base + setenv_args(next));
            i = i + 1;
        }
        assert(spec.env@.take(i as int) =~= spec.env@);
        let ghost base = texts(out@);
        let ghost files = texts(spec.ro_binds@);
        i = 0;
        assert(files.take(0) =~= Seq::empty());
        assert(texts(out@) =~= base + bind_args(files.take(0)));
        while i < spec.ro_binds.len()
            invariant
                i <= files.len(),
                files == texts(spec.ro_binds@),
                texts(out@) == base + bind_args(files.take(i as int)),
            decreases files.len() - i,
        {
            let ghost next = files.take(i + 1);
            assert(next.drop_last() =~= files.take(i as int));
            assert(next.last() == spec.ro_binds@[i as int]@);
            let f = spec.ro_binds[i].as_str();
            push3(&mut out, "--ro-bind", f, f);
            assert(texts(out@) =~= base + bind_args(next));
            i = i + 1;
        }
        assert(files.take(i as int) =~= files);
        let ghost base = texts(out@);
        if let Some(w) = &spec.workspace {
            push3(&mut out, "--bind", w.as_str(), w.as_str());
            push2(&mut out, "--chdir", w.as_str());
        }
        assert(texts(out@) =~= base + workspace_args(spec.workspace));
        push1(&mut out, "--");
        push_all(&mut out, &spec.command);
        out
    }
}

impl SandboxProvider for BwrapProvider {
    fn preflight(&self, probe: &Probe) -> (r: Preflight)
        ensures
            match *probe {
                Probe::Exited { success, stderr } => if success {
                    r.tells("bubblewrap usable (namespaces ok)"@, None)
                } else {
                    r.tells(
                        "bubblewrap present but unusable: "@ + trimmed(stderr@),
                        Some(
                            "enable unprivileged user namespaces (e.g. sysctl kernel.unprivileged_userns_clone=1) or use a container/VM backend"@,
                        ),
                    )
                },
                Probe::NotStarted(e) => r.tells(
                    "bubblewrap not runnable: "@ + e@,
                    Some(
                        "install bubblewrap (`apt install bubblewrap`) or use a container/VM backend"@,
                    ),
                ),
            },
    {
        match probe {
            Probe::Exited { success, stderr } => if *success {
                Preflight {
                    usable: true,
                    detail: "bubblewrap usable (namespaces ok)".to_owned(),
                    install_hint: None,
                }
            } else {
                Preflight {
                    usable: false,
                    detail: "bubblewrap present but unusable: ".to_owned().concat(
                        trim(stderr.as_str()).as_str(),
                    ),
                    install_hint: Some(
                        "enable unprivileged user namespaces (e.g. sysctl kernel.unprivileged_userns_clone=1) or use a container/VM backend".to_owned(),
                    ),
                }
            },
            Probe::NotStarted(e) => Preflight {
                usable: false,
                detail: "bubblewrap not runnable: ".to_owned().concat(e.as_str()),
                install_hint: Some(
                    "install bubblewrap (`apt install bubblewrap`) or use a container/VM backend".to_owned(),
                ),
            },
        }
    }

    fn run(&self, spec: &SandboxSpec, host: &HostFacts) -> (r: Result<SandboxCommand, String>)
        ensures
            match r {
                Ok(c) => (c.program@, texts(c.args@)) == bwrap_command(*spec, *host),
                Err(m) => m@
                    == "BWRAP_EGRESS_UNSUPPORTED: the bubblewrap backend cannot enforce an egress allowlist yet; use egress \"deny\" or route the call via a governed connection"@,
            },
    {
        match &spec.egress {
            Egress::Allow(_) => Err(
                "BWRAP_EGRESS_UNSUPPORTED: the bubblewrap backend cannot enforce an egress allowlist yet; use egress \"deny\" or route the call via a governed connection".to_owned(),
            ),
            Egress::DenyAll => {
                let args = BwrapProvider::args(spec, host);
                if host.cgroup_scope {
                    let mut out: Vec<String> = Vec::new();
                    assert(texts(out@) =~= Seq::empty());
                    push3(&mut out, "--user", "--scope", "--quiet");
                    assert(texts(out@) =~= seq!["--user"@, "--scope"@, "--quiet"@]);
                    push1(&mut out, "--collect");
                    let tasks = "--property=TasksMax=".to_owned().concat(
                        decimal_text(spec.limits.max_pids as u64).as_str(),
                    );
                    push3(&mut out, tasks.as_str(), "--", "bwrap");
                    push_all(&mut out, &args);
                    Ok(SandboxCommand { program: "systemd-run".to_owned(), args: out })
                } else {
                    Ok(SandboxCommand { program: "bwrap".to_owned(), args })
                }
            },
        }
    }
}

/// The container backend.
pub struct OciProvider {
    runtime: String,
    image: String,
}

/// The variables that are set in the container.
pub open spec fn env_flags(env: Seq<(String, String)>) -> Seq<Seq<char>>
    decreases env.len(),
{
    if env.len() == 0 {
        Seq::empty()
    } else {
        env_flags(env.drop_last()) + seq!["-e"@, env.last().0@ + "="@ + env.last().1@]
    }
}

/// The variables of the host that pass into the container.
pub open spec fn passthrough_flags(names: Seq<Seq<char>>) -> Seq<Seq<char>>
    decreases names.len(),
{
    if names.len() == 0 {
        Seq::empty()
    } else {
        passthrough_flags(names.drop_last()) + seq!["-e"@, names.last()]
    }
}

/// The files that can be read in the container.
pub open spec fn volume_flags(files: Seq<Seq<char>>) -> Seq<Seq<char>>
    decreases files.len(),
{
    if files.len() == 0 {
        Seq::empty()
    } else {
        volume_flags(files.drop_last()) + seq![
            "-v"@,
            files.last() + ":"@ + files.last() + ":ro"@,
        ]
    }
}

/// The workspace of the container.
pub open spec fn mount_flags(w: Option<String>) -> Seq<Seq<char>> {
    match w {
        Some(s) => seq!["-v"@, s@ + ":"@ + s@] + seq!["-w"@, s@],
        None => Seq::empty(),
    }
}

/// The arguments of the container runtime for a confined run.
pub open spec fn container_args(spec: SandboxSpec, image: Seq<char>) -> Seq<Seq<char>> {
    seq!["run"@, "--rm"@] + seq!["--network"@, "none"@] + seq![
        "--pids-limit"@,
        decimal(spec.limits.max_pids as nat),
    ] + env_flags(spec.env@) + passthrough_flags(texts(spec.env_allowlist@)) + volume_flags(
        texts(spec.ro_binds@),
    ) + mount_flags(spec.workspace) + seq![image] + texts(spec.command@)
}

impl OciProvider {
    pub closed spec fn image_name(&self) -> Seq<char> {
        self.image@
    }

    pub closed spec fn runtime_name(&self) -> Seq<char> {
        self.runtime@
    }

    /// A backend that runs `image` with `runtime` (`docker` or `podman`).
    pub fn new(runtime: &str, image: &str) -> (r: OciProvider)
        ensures
            r.runtime_name() == runtime@,
            r.image_name() == image@,
    {
        OciProvider { runtime: runtime.to_owned(), image: image.to_owned() }
    }

    /// The arguments of the container runtime; an allowlist of addresses is refused.
    pub fn run_args(&self, spec: &SandboxSpec) -> (r: Result<Vec<String>, String>)
        ensures
            r is Ok <==> spec.egress is DenyAll,
            match r {
                Ok(args) => texts(args@) == container_args(*spec, self.image_name()),
                Err(m) => m@
                    == "OCI_EGRESS_UNSUPPORTED: the container backend cannot enforce an egress allowlist yet; use egress \"deny\" or route the call via a governed connection"@,
            },
    {
        match &spec.egress {
            Egress::DenyAll => {},
            Egress::Allow(_) => {
                return Err(
                    "OCI_EGRESS_UNSUPPORTED: the container backend cannot enforce an egress allowlist yet; use egress \"deny\" or route the call via a governed connection".to_owned(),
                );
            },
        }
        let mut out: Vec<String> = Vec::new();
        assert(texts(out@) =~= Seq::empty());
        push2(&mut out, "run", "--rm");
        assert(texts(out@) =~= seq!["run"@, "--rm"@]);
        push2(&mut out, "--network", "none");
        push2(&mut out, "--pids-limit", decimal_text(spec.limits.max_pids as u64).as_str());
        let ghost base = texts(out@);
        let mut i: usize = 0;
        assert(spec.env@.take(0) =~= Seq::empty());
        assert(texts(out@) =~= base + env_flags(spec.env@.take(0)));
        while i < spec.env.len()
            invariant
                i <= spec.env@.len(),
                texts(out@) == base + env_flags(spec.env@.take(i as int)),
            decreases spec.env@.len() - i,
        {
            let ghost next = spec.env@.take(i + 1);
            assert(next.drop_last() =~= spec.env@.take(i as int));
            assert(next.last() == spec.env@[i as int]);
            let mut setting = spec.env[i].0.clone();
            setting.append("=");
            setting.append(spec.env[i].1.as_str());
            push2(&mut out, "-e", setting.as_str());
            assert(texts(out@) =~= base + env_flags(next));
            i = i + 1;
        }
        assert(spec.env@.take(i as int) =~= spec.env@);
        let ghost base = texts(out@);
        let ghost names = texts(spec.env_allowlist@);
        i = 0;
        assert(names.take(0) =~= Seq::empty());
        assert(texts(out@) =~= base + passthrough_flags(names.take(0)));
        while i < spec.env_allowlist.len()
            invariant
                i <= names.len(),
                names == texts(spec.env_allowlist@),
                texts(out@) == base + passthrough_flags(names.take(i as int)),
            decreases names.len() - i,
        {
            let ghost next = names.take(i + 1);
            assert(next.drop_last() =~= names.take(i as int));
            assert(next.last() == spec.env_allowlist@[i as int]@);
            push2(&mut out, "-e", spec.env_allowlist[i].as_str());
            assert(texts(out@) =~= base + passthrough_flags(next));
            i = i + 1;
        }
        assert(names.take(i as int) =~= names);
        let ghost base = texts(out@);
        let ghost files = texts(spec.ro_binds@);
        i = 0;
        assert(files.take(0) =~= Seq::empty());
        assert(texts(out@) =~= base + volume_flags(files.take(0)));
        while i < spec.ro_binds.len()
            invariant
                i <= files.len(),
                files == texts(spec.ro_binds@),
                texts(out@) == base + volume_flags(files.take(i as int)),
            decreases files.len() - i,
        {
            let ghost next = files.take(i + 1);
            assert(next.drop_last() =~= files.take(i as int));
            assert(next.last() == spec.ro_binds@[i as int]@);
            let mut volume = spec.ro_binds[i].clone();
            volume.append(":");
            volume.append(spec.ro_binds[i].as_str());
            volume.append(":ro");
            push2(&mut out, "-v", volume.as_str());
            assert(texts(out@) =~= base + volume_flags(next));
            i = i + 1;
        }
        assert(files.take(i as int) =~= files);
        let ghost base = texts(out@);
        if let Some(w) = &spec.workspace {
            let mut mount = w.clone();
            mount.append(":");
            mount.append(w.as_str());
            push2(&mut out, "-v", mount.as_str());
            push2(&mut out, "-w", w.as_str());
        }
        assert(texts(out@) =~= base + mount_flags(spec.workspace));
        push1(&mut out, self.image.as_str());
        push_all(&mut out, &spec.command);
        Ok(out)
    }
}

impl SandboxProvider for OciProvider {
    fn preflight(&self, probe: &Probe) -> (r: Preflight)
        ensures
            match *probe {
                Probe::Exited { success, stderr } => if success {
                    r.tells(self.runtime_name() + " daemon reachable"@, None)
                } else {
                    r.tells(
                        self.runtime_name() + " present but daemon not reachable: "@ + trimmed(
                            stderr@,
                        ),
                        Some(
                            "start the container runtime (e.g. Docker Desktop, `systemctl start docker`, or rootless podman)"@,
                        ),
                    )
                },
                Probe::NotStarted(e) => r.tells(
                    self.runtime_name() + " not runnable: "@ + e@,
                    Some("install a container runtime (Docker or podman)"@),
                ),
            },
    {
        let mut detail = self.runtime.clone();
        match probe {
            Probe::Exited { success, stderr } => if *success {
                detail.append(" daemon reachable");
                Preflight { usable: true, detail, install_hint: None }
            } else {
                detail.append(" present but daemon not reachable: ");
                detail.append(trim(stderr.as_str()).as_str());
                Preflight {
                    usable: false,
                    detail,
                    install_hint: Some(
                        "start the container runtime (e.g. Docker Desktop, `systemctl start docker`, or rootless podman)".to_owned(),
                    ),
                }
            },
            Probe::NotStarted(e) => {
                detail.append(" not runnable: ");
                detail.append(e.as_str());
                Preflight {
                    usable: false,
                    detail,
                    install_hint: Some(
                        "install a container runtime (Docker or podman)".to_owned(),
                    ),
                }
            },
        }
    }

    fn run(&self, spec: &SandboxSpec, host: &HostFacts) -> (r: Result<SandboxCommand, String>)
        ensures
            match r {
                Ok(c) => c.program@ == self.runtime_name() && texts(c.args@) == container_args(
                    *spec,
                    self.image_name(),
                ),
                Err(m) => m@
                    == "OCI_EGRESS_UNSUPPORTED: the container backend cannot enforce an egress allowlist yet; use egress \"deny\" or route the call via a governed connection"@,
            },
    {
        match self.run_args(spec) {
            Ok(args) => Ok(SandboxCommand { program: self.runtime.clone(), args }),
            Err(m) => Err(m),
        }
    }
}

} // verus!
