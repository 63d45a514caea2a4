//! The records that the runtime works on.

use vstd::prelude::*;

use crate::json::{Json, JsonMap, JsonView, Members};
use crate::run_env::{copy_opt, RunEnv, RunEnvView};
use crate::text::{copy_strings, holds, opt_string, texts};

verus! {

/// A moment: seconds since the epoch and the nanoseconds within the second, in
/// the range of calendar years that time stamps are kept for.
pub struct Timestamp {
    secs: i64,
    nanos: u32,
}

/// Bounds of the seconds of a time stamp.
pub const MIN_SECS: i64 = -8_334_601_228_800;

pub const MAX_SECS: i64 = 8_210_266_876_799;

impl Timestamp {
    #[verifier::type_invariant]
    spec fn in_range(&self) -> bool {
        MIN_SECS <= self.secs <= MAX_SECS && self.nanos < 1_000_000_000
    }

    /// The moment as nanoseconds since the epoch.
    pub closed spec fn view(&self) -> int {
        self.secs * 1_000_000_000 + self.nanos
    }

    pub closed spec fn seconds(&self) -> i64 {
        self.secs
    }

    pub closed spec fn subsec(&self) -> u32 {
        self.nanos
    }

    pub fn new(secs: i64, nanos: u32) -> (r: Option<Timestamp>)
        ensures
            match r {
                Some(t) => MIN_SECS <= secs <= MAX_SECS && nanos < 1_000_000_000 && t@ == secs
                    * 1_000_000_000 + nanos && t.seconds() == secs && t.subsec() == nanos,
                None => !(MIN_SECS <= secs <= MAX_SECS && nanos < 1_000_000_000),
            },
    {
        if MIN_SECS <= secs && secs <= MAX_SECS && nanos < 1_000_000_000 {
            Some(Timestamp { secs, nanos })
        } else {
            None
        }
    }

    pub fn secs(&self) -> (r: i64)
        ensures
            r == self.seconds(),
            MIN_SECS <= r <= MAX_SECS,
    {
        proof {
            use_type_invariant(self);
        }
        self.secs
    }

    pub fn nanos(&self) -> (r: u32)
        ensures
            r == self.subsec(),
            r < 1_000_000_000,
    {
        proof {
            use_type_invariant(self);
        }
        self.nanos
    }

    /// The moment `span` later.
    pub fn plus(&self, span: &Span) -> (r: Timestamp)
        requires
            in_calendar(self@ + span@),
        ensures
            r@ == self@ + span@,
    {
        proof {
            use_type_invariant(self);
            use_type_invariant(span);
        }
        let total: u32 = self.nanos + span.nanos;
        if total >= 1_000_000_000 {
            Timestamp { secs: self.secs + span.secs + 1, nanos: total - 1_000_000_000 }
        } else {
            Timestamp { secs: self.secs + span.secs, nanos: total }
        }
    }

    /// Whether this moment is before `other`.
    pub fn before(&self, other: &Timestamp) -> (r: bool)
        ensures
            r == (self@ < other@),
    {
        proof {
            use_type_invariant(self);
            use_type_invariant(other);
        }
        self.secs < other.secs || (self.secs == other.secs && self.nanos < other.nanos)
    }

    /// Whole milliseconds from `since` to this moment, negative if it is before it.
    pub fn millis_since(&self, since: &Timestamp) -> (r: i64)
        ensures
            r == elapsed(self@, since@),
    {
        proof {
            use_type_invariant(self);
            use_type_invariant(since);
        }
        let a: i128 = self.secs as i128 * 1_000_000_000 + self.nanos as i128;
        let b: i128 = since.secs as i128 * 1_000_000_000 + since.nanos as i128;
        if a < b {
            let d: i128 = (b - a) / 1_000_000;
            -(d as i64)
        } else {
            let d: i128 = (a - b) / 1_000_000;
            d as i64
        }
    }
}

/// Whole milliseconds from one moment to another, negative if the other is earlier.
pub open spec fn elapsed(now: int, since: int) -> int {
    if now >= since {
        (now - since) / 1_000_000
    } else {
        -((since - now) / 1_000_000)
    }
}

impl Clone for Timestamp {
    fn clone(&self) -> (r: Timestamp)
        ensures
            r@ == self@,
            r.seconds() == self.seconds(),
            r.subsec() == self.subsec(),
    {
        proof {
            use_type_invariant(self);
        }
        Timestamp { secs: self.secs, nanos: self.nanos }
    }
}

/// Whether a number of nanoseconds since the epoch is a moment of the calendar.
pub open spec fn in_calendar(t: int) -> bool {
    MIN_SECS * 1_000_000_000 <= t < (MAX_SECS + 1) * 1_000_000_000
}

/// A length of time that is not negative.
pub struct Span {
    secs: i64,
    nanos: u32,
}

/// The longest length of time: the milliseconds that fit 63 bits.
pub const MAX_SPAN_SECS: i64 = 9_223_372_036_854_775;

pub const MAX_SPAN_NANOS: u32 = 807_000_000;

/// Whether seconds and nanoseconds make a length of time that can be kept.
pub open spec fn span_fits(secs: u64, nanos: u32) -> bool {
    secs < MAX_SPAN_SECS || (secs == MAX_SPAN_SECS && nanos <= MAX_SPAN_NANOS)
}

/// `chrono::TimeDelta::from_std` on a duration of `secs` seconds and `nanos`
/// nanoseconds: the same length of time, or nothing where its milliseconds do not fit
/// 63 bits.
#[verifier::external_body]
fn time_delta(secs: u64, nanos: u32) -> (r: Option<(i64, i32)>)
    requires
        nanos < 1_000_000_000,
    ensures
        match r {
            Some((s, n)) => span_fits(secs, nanos) && s == secs && n == nanos,
            None => !span_fits(secs, nanos),
        },
{
    match chrono::TimeDelta::from_std(std::time::Duration::new(secs, nanos)) {
        Ok(d) => Some((d.num_seconds(), d.subsec_nanos())),
        Err(_) => None,
    }
}

impl Span {
    #[verifier::type_invariant]
    spec fn in_range(&self) -> bool {
        0 <= self.secs <= MAX_SPAN_SECS && self.nanos < 1_000_000_000
    }

    /// The length in nanoseconds.
    pub closed spec fn view(&self) -> int {
        self.secs * 1_000_000_000 + self.nanos
    }

    /// A length of whole seconds.
    pub fn seconds(secs: u32) -> (r: Span)
        ensures
            r@ == secs * 1_000_000_000,
    {
        Span { secs: secs as i64, nanos: 0 }
    }

    /// The length of `secs` seconds and `nanos` nanoseconds, where it can be kept.
    pub fn new(secs: u64, nanos: u32) -> (r: Option<Span>)
        requires
            nanos < 1_000_000_000,
        ensures
            match r {
                Some(d) => span_fits(secs, nanos) && d@ == secs * 1_000_000_000 + nanos,
                None => !span_fits(secs, nanos),
            },
    {
        match time_delta(secs, nanos) {
            Some((s, n)) => Some(Span { secs: s, nanos: n as u32 }),
            None => None,
        }
    }
}

impl Clone for Span {
    fn clone(&self) -> (r: Span)
        ensures
            r@ == self@,
    {
        proof {
            use_type_invariant(self);
        }
        Span { secs: self.secs, nanos: self.nanos }
    }
}

/// A moment as `chrono` displays it.
pub uninterp spec fn utc_display(secs: int, nanos: int) -> Seq<char>;

/// `<chrono::DateTime<chrono::Utc> as std::fmt::Display>::fmt`. Claimed: the result depends
/// on the moment alone. Not stated: the form of the text.
#[verifier::external_body]
fn display_utc(secs: i64, nanos: u32) -> (r: String)
    requires
        MIN_SECS <= secs <= MAX_SECS,
        nanos < 1_000_000_000,
    ensures
        r@ == utc_display(secs as int, nanos as int),
{
    chrono::DateTime::from_timestamp(secs, nanos).map(|t| t.to_string()).unwrap_or_default()
}

/// A moment in the form of RFC 3339, with the offset written out.
pub uninterp spec fn utc_rfc3339(secs: int, nanos: int) -> Seq<char>;

/// `chrono::DateTime::to_rfc3339`. Claimed: the result depends on the moment alone. Not
/// stated: the form of the text.
#[verifier::external_body]
fn format_rfc3339(secs: i64, nanos: u32) -> (r: String)
    requires
        MIN_SECS <= secs <= MAX_SECS,
        nanos < 1_000_000_000,
    ensures
        r@ == utc_rfc3339(secs as int, nanos as int),
{
    chrono::DateTime::from_timestamp(secs, nanos).map(|t| t.to_rfc3339()).unwrap_or_default()
}

/// A moment as it is written into a JSON document.
pub uninterp spec fn utc_json(secs: int, nanos: int) -> Seq<char>;

/// `chrono::DateTime::to_rfc3339_opts` with as many digits as needed and `Z`, the form
/// that `chrono` serialises. Claimed: the result depends on the moment alone. Not stated:
/// the form of the text.
#[verifier::external_body]
fn format_json(secs: i64, nanos: u32) -> (r: String)
    requires
        MIN_SECS <= secs <= MAX_SECS,
        nanos < 1_000_000_000,
    ensures
        r@ == utc_json(secs as int, nanos as int),
{
    chrono::DateTime::from_timestamp(secs, nanos).map(
        |t| t.to_rfc3339_opts(chrono::SecondsFormat::AutoSi, true),
    ).unwrap_or_default()
}

/// The seconds of a moment.
pub open spec fn secs_of(at: int) -> int {
    at / 1_000_000_000
}

/// The nanoseconds of a moment beyond its seconds.
pub open spec fn nanos_of(at: int) -> int {
    at % 1_000_000_000
}

impl Timestamp {
    /// The moment as `chrono` displays it.
    pub fn display_text(&self) -> (r: String)
        ensures
            r@ == utc_display(secs_of(self@), nanos_of(self@)),
    {
        display_utc(self.secs(), self.nanos())
    }

    /// The moment in the form of RFC 3339.
    pub fn rfc3339_text(&self) -> (r: String)
        ensures
            r@ == utc_rfc3339(secs_of(self@), nanos_of(self@)),
    {
        format_rfc3339(self.secs(), self.nanos())
    }

    /// The moment as it is written into a JSON document.
    pub fn json_text(&self) -> (r: String)
        ensures
            r@ == utc_json(secs_of(self@), nanos_of(self@)),
    {
        format_json(self.secs(), self.nanos())
    }
}

/// Who acts.
pub struct Principal {
    pub subject: String,
    pub roles: Vec<String>,
}

/// The role that marks a person.
pub fn human_role() -> (r: &'static str)
    ensures
        r@ == "human"@,
{
    "human"
}

/// The model of who acts.
pub struct PrincipalView {
    pub subject: Seq<char>,
    pub roles: Seq<Seq<char>>,
}

impl PrincipalView {
    /// Whether the principal is a person.
    pub open spec fn human(&self) -> bool {
        self.roles.contains("human"@)
    }
}

/// A caller without a name or a role.
pub open spec fn nobody() -> PrincipalView {
    PrincipalView { subject: "anonymous"@, roles: Seq::empty() }
}

impl Principal {
    pub open spec fn view(&self) -> PrincipalView {
        PrincipalView { subject: self.subject@, roles: texts(self.roles@) }
    }

    pub fn is_human(&self) -> (r: bool)
        ensures
            r == self@.human(),
    {
        holds(&self.roles, human_role())
    }

    /// A caller without a name or a role.
    pub fn anonymous() -> (r: Principal)
        ensures
            r@ == nobody(),
    {
        let r = Principal { subject: "anonymous".to_owned(), roles: Vec::new() };
        assert(texts(r.roles@) =~= Seq::empty());
        r
    }
}

impl Clone for Principal {
    fn clone(&self) -> (r: Principal)
        ensures
            r@ == self@,
    {
        Principal { subject: self.subject.clone(), roles: copy_strings(&self.roles) }
    }
}

/// Whom a drive acts for, and the id that ties its entries together.
pub struct Acting {
    pub principal: Principal,
    pub correlation_id: String,
}

/// The model of whom a drive acts for.
pub struct ActingView {
    pub principal: PrincipalView,
    pub correlation_id: Seq<char>,
}

impl Acting {
    pub open spec fn view(&self) -> ActingView {
        ActingView { principal: self.principal@, correlation_id: self.correlation_id@ }
    }
}

impl Clone for Acting {
    fn clone(&self) -> (r: Acting)
        ensures
            r@ == self@,
    {
        Acting { principal: self.principal.clone(), correlation_id: self.correlation_id.clone() }
    }
}

/// The transition of another instance that spawned this one.
pub struct ParentLink {
    pub workflow_id: String,
    pub transition: String,
}

impl ParentLink {
    pub open spec fn view(&self) -> (Seq<char>, Seq<char>) {
        (self.workflow_id@, self.transition@)
    }
}

/// One run of a definition.
pub struct WorkflowInstance {
    pub id: String,
    pub definition_id: String,
    pub definition_version: String,
    pub definition: Json,
    pub state: String,
    pub version: u64,
    pub input: Json,
    pub context: Json,
    pub started_at: Timestamp,
    pub run_env: RunEnv,
    pub cancelled_at: Option<Timestamp>,
    pub cancelled_reason: Option<String>,
    pub depth: u32,
    pub parent: Option<ParentLink>,
}

/// The model of an instance.
pub struct InstanceView {
    pub id: Seq<char>,
    pub definition_id: Seq<char>,
    pub definition_version: Seq<char>,
    pub definition: JsonView,
    pub state: Seq<char>,
    pub version: u64,
    pub input: JsonView,
    pub context: JsonView,
    pub started_at: int,
    pub run_env: RunEnvView,
    pub cancelled_at: Option<int>,
    pub cancelled_reason: Option<Seq<char>>,
    pub depth: u32,
    pub parent: Option<(Seq<char>, Seq<char>)>,
}

impl WorkflowInstance {
    pub open spec fn view(&self) -> InstanceView {
        InstanceView {
            id: self.id@,
            definition_id: self.definition_id@,
            definition_version: self.definition_version@,
            definition: self.definition@,
            state: self.state@,
            version: self.version,
            input: self.input@,
            context: self.context@,
            started_at: self.started_at@,
            run_env: self.run_env@,
            cancelled_at: match self.cancelled_at {
                Some(t) => Some(t@),
                None => None,
            },
            cancelled_reason: opt_string(self.cancelled_reason),
            depth: self.depth,
            parent: match self.parent {
                Some(p) => Some(p@),
                None => None,
            },
        }
    }
}

impl Clone for WorkflowInstance {
    fn clone(&self) -> (r: WorkflowInstance)
        ensures
            r@ == self@,
    {
        let parent = match &self.parent {
            Some(p) => Some(
                ParentLink {
                    workflow_id: p.workflow_id.clone(),
                    transition: p.transition.clone(),
                },
            ),
            None => None,
        };
        let cancelled_at = match &self.cancelled_at {
            Some(t) => Some(t.clone()),
            None => None,
        };
        WorkflowInstance {
            id: self.id.clone(),
            definition_id: self.definition_id.clone(),
            definition_version: self.definition_version.clone(),
            definition: self.definition.clone(),
            state: self.state.clone(),
            version: self.version,
            input: self.input.clone(),
            context: self.context.clone(),
            started_at: self.started_at.clone(),
            run_env: self.run_env.clone(),
            cancelled_at,
            cancelled_reason: copy_opt(&self.cancelled_reason),
            depth: self.depth,
            parent,
        }
    }
}

/// One entry of the audit trail.
pub struct AuditEvent {
    pub event_type: String,
    pub workflow_id: Option<String>,
    pub actor: Option<String>,
    pub correlation_id: Option<String>,
    /// The instance that spawned this one, and how deep this one is below the first.
    pub topology: Option<(Option<String>, u32)>,
    pub payload: Json,
}

/// The model of an audit entry.
pub struct AuditView {
    pub event_type: Seq<char>,
    pub workflow_id: Option<Seq<char>>,
    pub actor: Option<Seq<char>>,
    pub correlation_id: Option<Seq<char>>,
    pub topology: Option<(Option<Seq<char>>, u32)>,
    pub payload: JsonView,
}

impl AuditEvent {
    pub open spec fn view(&self) -> AuditView {
        AuditView {
            event_type: self.event_type@,
            workflow_id: opt_string(self.workflow_id),
            actor: opt_string(self.actor),
            correlation_id: opt_string(self.correlation_id),
            topology: match self.topology {
                Some((parent, depth)) => Some((opt_string(parent), depth)),
                None => None,
            },
            payload: self.payload@,
        }
    }
}

/// An audit entry on an instance.
pub open spec fn entry(
    event_type: Seq<char>,
    workflow_id: Seq<char>,
    actor: Option<Seq<char>>,
    correlation_id: Option<Seq<char>>,
    payload: Members,
) -> AuditView {
    AuditView {
        event_type,
        workflow_id: Some(workflow_id),
        actor,
        correlation_id,
        topology: None,
        payload: JsonView::Object(payload),
    }
}

/// An audit entry on the instance `workflow_id`.
pub fn audit_entry(
    event_type: &str,
    workflow_id: &str,
    actor: Option<&str>,
    correlation_id: Option<&str>,
    payload: JsonMap,
) -> (r: AuditEvent)
    ensures
        r@ == entry(
            event_type@,
            workflow_id@,
            crate::json::opt_text(actor),
            crate::json::opt_text(correlation_id),
            payload@,
        ),
{
    let actor = match actor {
        Some(a) => Some(a.to_owned()),
        None => None,
    };
    let correlation_id = match correlation_id {
        Some(c) => Some(c.to_owned()),
        None => None,
    };
    AuditEvent {
        event_type: event_type.to_owned(),
        workflow_id: Some(workflow_id.to_owned()),
        actor,
        correlation_id,
        topology: None,
        payload: Json::Object(payload),
    }
}

} // verus!
