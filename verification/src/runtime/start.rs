//! The start of an instance: the checks before it exists, its first state, and the chain
//! from there.

use vstd::prelude::*;

use crate::json::{lookup, number, obj, put, Json, JsonMap, JsonView, Members};
use crate::model::{
    audit_entry, entry, Acting, ActingView, AuditEvent, AuditView, InstanceView, ParentLink,
    Principal, PrincipalView, Timestamp, WorkflowInstance,
};
use crate::run_env::{RunEnv, RunEnvView};
use crate::runtime::dispatch::{
    broke, broken, chain_bound, chain_error, completed_entry, decorate, decorated, do_quarantined,
    do_suspend_on_lock, do_suspend_on_step, ended, failed_response, make_chain_error,
    make_completed_entry, make_failed_response, max_chain_depth, noted, quarantined,
    suspend_on_lock, suspend_on_step, DispatchOutcome, DispatchStep, DispatchView,
};
use crate::runtime::effects::{
    AuditMode, ChainOutcome, ChainResult, Failure, FailureView, OutcomeView, ProgressView,
    StatusHint,
};
use crate::runtime::guards::empty_object;
use crate::runtime::links::{is_terminal, terminal};
use crate::runtime::runtime::WorkflowRuntime;
use crate::runtime::schema::{
    apply_schema_defaults, defaulted, required_str, schema_fault, text_at, validate_schema,
};
use crate::runtime::script::{
    can_grow, chain_end, first, reply_at, reply_views, rest, sound, Effect, EffectView, Reply,
    ReplyView,
};
use crate::text::{holds, opt_string, same, texts};

verus! {

/// What is asked to be started.
pub struct StartWorkflow {
    pub definition_id: String,
    pub input: Json,
    pub principal: Principal,
    pub run_env: RunEnv,
    pub depth: u32,
    pub parent: Option<ParentLink>,
}

/// The model of what is asked to be started.
pub struct StartView {
    pub definition_id: Seq<char>,
    pub input: JsonView,
    pub principal: PrincipalView,
    pub run_env: RunEnvView,
    pub depth: u32,
    pub parent: Option<(Seq<char>, Seq<char>)>,
}

impl StartWorkflow {
    pub open spec fn view(&self) -> StartView {
        StartView {
            definition_id: self.definition_id@,
            input: self.input@,
            principal: self.principal@,
            run_env: self.run_env@,
            depth: self.depth,
            parent: match self.parent {
                Some(p) => Some(p@),
                None => None,
            },
        }
    }
}

/// A start with what is wired and the id that ties its entries together.
pub struct StartJob<'a> {
    pub request: &'a StartWorkflow,
    /// Whether no new instances are taken.
    pub draining: bool,
    /// The subjects that still need a definition, where that is tracked.
    pub pending: &'a Option<Vec<String>>,
    /// Whether there is a line of those who wait for files.
    pub scheduler: bool,
    pub correlation_id: &'a str,
}

/// The model of a start.
pub struct StartJobView {
    pub request: StartView,
    pub draining: bool,
    pub pending: Option<Seq<Seq<char>>>,
    pub scheduler: bool,
    pub correlation_id: Seq<char>,
}

pub open spec fn opt_texts(v: Option<Vec<String>>) -> Option<Seq<Seq<char>>> {
    match v {
        Some(v) => Some(texts(v@)),
        None => None,
    }
}

impl StartJobView {
    /// Whom the start acts for.
    pub open spec fn acting(self) -> ActingView {
        ActingView { principal: self.request.principal, correlation_id: self.correlation_id }
    }
}

impl<'a> StartJob<'a> {
    fn acting(&self) -> (r: Acting)
        ensures
            r@ == self@.acting(),
    {
        Acting {
            principal: self.request.principal.clone(),
            correlation_id: self.correlation_id.to_owned(),
        }
    }

    pub open spec fn view(&self) -> StartJobView {
        StartJobView {
            request: self.request@,
            draining: self.draining,
            pending: opt_texts(*self.pending),
            scheduler: self.scheduler,
            correlation_id: self.correlation_id@,
        }
    }
}

/// Whether a subject of the lexicon still needs a definition: by what is tracked, else by
/// what the definition says of it.
pub open spec fn undefined(e: (Seq<char>, JsonView), pending: Option<Seq<Seq<char>>>) -> bool {
    match pending {
        Some(p) => p.contains(e.0),
        None => e.1.get_str("state"@) == Some("PENDING_DEFINITION"@),
    }
}

/// The first subject of the lexicon that still needs a definition, with its context.
pub open spec fn first_undefined(lib: Members, pending: Option<Seq<Seq<char>>>) -> Option<
    (Seq<char>, Option<Seq<char>>),
> {
    crate::scan::first_some(
        lib.len(),
        |k: int|
            if undefined(lib[k], pending) {
                Some((lib[k].0, lib[k].1.get_str("bounded_context"@)))
            } else {
                None
            },
    )
}

fn is_undefined(term: &str, e: &Json, pending: &Option<Vec<String>>) -> (r: bool)
    ensures
        r == undefined(
            (term@, e@),
            opt_texts(*pending),
        ),
{
    match pending {
        Some(p) => holds(p, term),
        None => match e.get_str("state") {
            Some(s) => same(s, "PENDING_DEFINITION"),
            None => false,
        },
    }
}

spec fn undefined_pair(x: Option<(String, Option<String>)>) -> Option<(Seq<char>, Option<Seq<char>>)> {
    match x {
        Some((t, c)) => Some((t@, opt_string(c))),
        None => None,
    }
}

fn find_undefined(lib: &JsonMap, pending: &Option<Vec<String>>) -> (r: Option<
    (String, Option<String>),
>)
    ensures
        undefined_pair(r) == first_undefined(
            lib@,
            opt_texts(*pending),
        ),
{
    let ghost m = lib@;
    let ghost ps = opt_texts(*pending);
    let ghost f = |k: int|
        if undefined(m[k], ps) {
            Some((m[k].0, m[k].1.get_str("bounded_context"@)))
        } else {
            None
        };
    let mut i: usize = 0;
    while i < lib.len()
        invariant
            i <= lib@.len(),
            m == lib@,
            ps == opt_texts(*pending),
            f == (|k: int|
                if undefined(m[k], ps) {
                    Some((m[k].0, m[k].1.get_str("bounded_context"@)))
                } else {
                    None
                }),
            crate::scan::first_some(i as nat, f) is None,
        decreases lib@.len() - i,
    {
        assert(m[i as int] == (m[i as int].0, m[i as int].1));
        let e = lib.value_at(i);
        if is_undefined(lib.key_at(i).as_str(), e, pending) {
            proof {
                crate::scan::lemma_first_some((i + 1) as nat, m.len(), f);
            }
            let bounded = match e.get_str("bounded_context") {
                Some(s) => Some(s.to_owned()),
                None => None,
            };
            return Some((lib.key_at(i).clone(), bounded));
        }
        i = i + 1;
    }
    None
}

/// The subject of a definition's lexicon that still needs a definition.
pub open spec fn lexicon_gap(definition: JsonView, pending: Option<Seq<Seq<char>>>) -> Option<
    (Seq<char>, Option<Seq<char>>),
> {
    match definition.get_object("_lexiconLibrary"@) {
        Some(lib) => first_undefined(lib, pending),
        None => None,
    }
}

/// A context with what it lacks of an input.
pub open spec fn seeded(context: Members, input: Members) -> Members
    decreases input.len(),
{
    if input.len() == 0 {
        context
    } else {
        let before = seeded(context, input.drop_last());
        if lookup(before, input.last().0) is Some {
            before
        } else {
            put(before, input.last().0, input.last().1)
        }
    }
}

/// The context that an instance starts with: the declared one, with what it lacks of the
/// input.
pub open spec fn first_context(definition: JsonView, input: JsonView) -> JsonView {
    let declared = match definition.get("initialContext"@) {
        Some(c) => c,
        None => empty_object(),
    };
    match (declared, input) {
        (JsonView::Object(c), JsonView::Object(i)) => JsonView::Object(seeded(c, i)),
        _ => declared,
    }
}

fn seed(context: JsonMap, input: &JsonMap) -> (r: JsonMap)
    ensures
        r@ == seeded(context@, input@),
{
    let ghost c = context@;
    let mut out = context;
    let mut i: usize = 0;
    assert(input@.take(0) =~= Seq::empty());
    while i < input.len()
        invariant
            i <= input@.len(),
            out@ == seeded(c, input@.take(i as int)),
        decreases input@.len() - i,
    {
        let ghost next = input@.take(i + 1);
        assert(next.drop_last() =~= input@.take(i as int));
        assert(next.last() == input@[i as int]);
        if !out.contains_key(input.key_at(i).as_str()) {
            out = out.with(input.key_at(i).as_str(), input.value_at(i).clone());
        }
        i = i + 1;
    }
    assert(input@.take(i as int) =~= input@);
    out
}

fn make_first_context(definition: &Json, input: &Json) -> (r: Json)
    ensures
        r@ == first_context(definition@, input@),
{
    broadcast use crate::json::array_view;

    let declared = match definition.get("initialContext") {
        Some(c) => c.clone(),
        None => Json::Object(JsonMap::new()),
    };
    match declared {
        Json::Object(c) => match input {
            Json::Object(i) => Json::Object(seed(c, i)),
            _ => Json::Object(c),
        },
        other => other,
    }
}

/// That a definition has no version.
pub open spec fn corrupt_definition(id: Seq<char>) -> Seq<char> {
    "CORRUPT_DEFINITION: workflow definition '"@ + id
        + "' has no string `version`; the config loader guarantees one by load time, so this snapshot bypassed loading."@
}

fn make_corrupt_definition(id: &str) -> (r: String)
    ensures
        r@ == corrupt_definition(id@),
{
    let mut m = "CORRUPT_DEFINITION: workflow definition '".to_owned();
    m.append(id);
    m.append(
        "' has no string `version`; the config loader guarantees one by load time, so this snapshot bypassed loading.",
    );
    m
}

/// A new instance, in its first state at version zero.
pub open spec fn newborn(
    q: StartView,
    definition: JsonView,
    version: Seq<char>,
    state: Seq<char>,
    input: JsonView,
    id: Seq<char>,
    now: int,
) -> InstanceView {
    InstanceView {
        id,
        definition_id: q.definition_id,
        definition_version: version,
        definition,
        state,
        version: 0,
        input,
        context: first_context(definition, input),
        started_at: now,
        run_env: q.run_env,
        cancelled_at: None,
        cancelled_reason: None,
        depth: q.depth,
        parent: q.parent,
    }
}

fn make_newborn(
    q: &StartWorkflow,
    definition: &Json,
    version: &str,
    state: &str,
    input: &Json,
    id: &str,
    now: &Timestamp,
) -> (r: WorkflowInstance)
    ensures
        r@ == newborn(q@, definition@, version@, state@, input@, id@, now@),
{
    let parent = match &q.parent {
        Some(p) => Some(
            ParentLink {
                workflow_id: p.workflow_id.clone(),
                transition: p.transition.clone(),
            },
        ),
        None => None,
    };
    WorkflowInstance {
        id: id.to_owned(),
        definition_id: q.definition_id.clone(),
        definition_version: version.to_owned(),
        definition: definition.clone(),
        state: state.to_owned(),
        version: 0,
        input: input.clone(),
        context: make_first_context(definition, input),
        started_at: now.clone(),
        run_env: q.run_env.clone(),
        cancelled_at: None,
        cancelled_reason: None,
        depth: q.depth,
        parent,
    }
}

/// The entry of a start: it carries the edge to the instance that spawned this one.
pub open spec fn started_entry(j: StartJobView, i: InstanceView) -> AuditView {
    AuditView {
        topology: Some(
            (
                match i.parent {
                    Some(p) => Some(p.0),
                    None => None,
                },
                i.depth,
            ),
        ),
        ..entry(
            "workflow.started"@,
            i.id,
            Some(j.request.principal.subject),
            Some(j.correlation_id),
            obj().with("definitionId"@, JsonView::Str(i.definition_id)).with(
                "state"@,
                JsonView::Str(i.state),
            ).with("version"@, number(i.version)).m,
        )
    }
}

fn make_started_entry(j: &StartJob, i: &WorkflowInstance) -> (r: AuditEvent)
    ensures
        r@ == started_entry(j@, i@),
{
    let payload = JsonMap::new().with("definitionId", Json::text(i.definition_id.as_str())).with(
        "state",
        Json::text(i.state.as_str()),
    ).with("version", Json::uint(i.version));
    let mut event = audit_entry(
        "workflow.started",
        i.id.as_str(),
        Some(j.request.principal.subject.as_str()),
        Some(j.correlation_id),
        payload,
    );
    let parent = match &i.parent {
        Some(p) => Some(p.workflow_id.clone()),
        None => None,
    };
    event.topology = Some((parent, i.depth));
    event
}

/// The response to a start whose chain came to its end.
pub open spec fn start_settled(who: ActingView, p: ProgressView, r: Seq<ReplyView>) -> DispatchView {
    match first(r) {
        None => DispatchView::Do(
            EffectView::Respond {
                principal: who.principal,
                instance: p.instance,
                hint: StatusHint::Started,
                error: None,
            },
        ),
        Some(ReplyView::Response(m)) => ended(decorated(m, p.evidence, p.steps)),
        _ => DispatchView::Misfit,
    }
}

/// After the chain of a start. An instance that is at its end already is told about; whoever
/// spawned it reads that off the response.
pub open spec fn start_ended(
    j: StartJobView,
    definition: JsonView,
    o: OutcomeView,
    r: Seq<ReplyView>,
) -> DispatchView {
    match o {
        OutcomeView::Completed(p) => if terminal(definition, p.instance.state) {
            match first(r) {
                None => noted(completed_entry(j.correlation_id, p.instance), AuditMode::Required),
                Some(ReplyView::Done(Err(e))) => broken(e),
                Some(ReplyView::Done(Ok(_))) => match first(r.drop_first()) {
                    None => DispatchView::Do(
                        EffectView::EmitOutcome {
                            acting: j.acting(),
                            hint: StatusHint::Started,
                            instance: p.instance,
                        },
                    ),
                    Some(ReplyView::Done(_)) => start_settled(j.acting(), p, r.drop_first().drop_first()),
                    _ => DispatchView::Misfit,
                },
                _ => DispatchView::Misfit,
            }
        } else {
            start_settled(j.acting(), p, r)
        },
        OutcomeView::Failed { partial, error, error_class, failed_transition } => match first(r) {
            None => DispatchView::Do(
                EffectView::Respond {
                    principal: j.request.principal,
                    instance: partial.instance,
                    hint: StatusHint::Failed,
                    error: Some(chain_error(error, error_class, failed_transition)),
                },
            ),
            Some(ReplyView::Response(m)) => ended(
                failed_response(m, definition, partial, partial.evidence, failed_transition),
            ),
            _ => DispatchView::Misfit,
        },
        OutcomeView::Suspended { partial, suspend, transition } => suspend_on_step(
            j.acting(),
            partial.instance,
            transition,
            partial.instance.version,
            suspend,
            r,
        ),
        OutcomeView::WaitingOnLock { partial, transition, files, conflicts } => suspend_on_lock(
            j.acting(),
            j.scheduler,
            partial.instance,
            transition,
            partial.instance.version,
            files,
            conflicts,
            r,
        ),
        OutcomeView::Quarantined { partial, reason } => quarantined(j.acting(), partial, reason, r),
    }
}

/// The instance exists: its start is told, its first state is entered, and the chain runs.
pub open spec fn born(
    j: StartJobView,
    definition: JsonView,
    i: InstanceView,
    r: Seq<ReplyView>,
) -> DispatchView {
    let r1 = r.drop_first();
    let r2 = r1.drop_first();
    match first(r) {
        None => noted(started_entry(j, i), AuditMode::Required),
        Some(ReplyView::Done(Err(e))) => broken(e),
        Some(ReplyView::Done(Ok(_))) => match first(r1) {
            None => DispatchView::Do(
                EffectView::OnEnter {
                    correlation_id: j.correlation_id,
                    instance: i,
                },
            ),
            Some(ReplyView::Instance(Err(e))) => DispatchView::Done(Err(e)),
            Some(ReplyView::Instance(Ok(entered))) => match first(r2) {
                None => DispatchView::Do(
                    EffectView::Chain {
                        acting: j.acting(),
                        instance: entered,
                        max_depth: chain_bound(definition),
                    },
                ),
                Some(ReplyView::Chained(Err(e))) => DispatchView::Done(Err(e)),
                Some(ReplyView::Chained(Ok(o))) => start_ended(
                    j,
                    definition,
                    o,
                    r2.drop_first(),
                ),
                _ => DispatchView::Misfit,
            },
            _ => DispatchView::Misfit,
        },
        _ => DispatchView::Misfit,
    }
}

/// The instance is stored: where it has a timeout, that is watched.
pub open spec fn start_stored(
    j: StartJobView,
    definition: JsonView,
    i: InstanceView,
    r: Seq<ReplyView>,
) -> DispatchView {
    match definition.get_u64("timeoutMs"@) {
        None => born(j, definition, i, r),
        Some(timeout_ms) => match first(r) {
            None => DispatchView::Do(EffectView::Watch { workflow_id: i.id, timeout_ms }),
            Some(ReplyView::Done(_)) => born(j, definition, i, r.drop_first()),
            _ => DispatchView::Misfit,
        },
    }
}

/// The input is admitted: the instance is made and stored.
pub open spec fn start_admitted(
    j: StartJobView,
    definition: JsonView,
    input: JsonView,
    r: Seq<ReplyView>,
) -> DispatchView {
    let r1 = r.drop_first();
    let r2 = r1.drop_first();
    match text_at(definition, "/initialState"@) {
        None => broken("required string missing at "@ + "/initialState"@),
        Some(state) => match text_at(definition, "/version"@) {
            None => broken(corrupt_definition(j.request.definition_id)),
            Some(version) => match first(r) {
                None => DispatchView::Do(EffectView::NewId),
                Some(ReplyView::Id(id)) => match first(r1) {
                    None => DispatchView::Do(EffectView::Now),
                    Some(ReplyView::Time(now)) => match first(r2) {
                        None => DispatchView::Do(
                            EffectView::Create {
                                instance: newborn(
                                    j.request,
                                    definition,
                                    version,
                                    state,
                                    input,
                                    id,
                                    now,
                                ),
                            },
                        ),
                        Some(ReplyView::Instance(Err(e))) => DispatchView::Done(Err(e)),
                        Some(ReplyView::Instance(Ok(i))) => start_stored(
                            j,
                            definition,
                            i,
                            r2.drop_first(),
                        ),
                        _ => DispatchView::Misfit,
                    },
                    _ => DispatchView::Misfit,
                },
                _ => DispatchView::Misfit,
            },
        },
    }
}

/// The definition is known: its lexicon must have no gap, and the input, with the defaults
/// of its schema, must fit.
pub open spec fn start_defined(j: StartJobView, definition: JsonView, r: Seq<ReplyView>) -> DispatchView {
    match lexicon_gap(definition, j.pending) {
        Some((subject, bounded_context)) => DispatchView::Done(
            Err(
                FailureView::SubjectNeedsDefinition {
                    unknown_subject: subject,
                    bounded_context,
                    workflow_id_context: "workflow:"@ + j.request.definition_id,
                },
            ),
        ),
        None => match crate::pointer::pointed(definition, "/inputSchema"@) {
            None => start_admitted(j, definition, j.request.input, r),
            Some(schema) => {
                let input = defaulted(schema, j.request.input);
                match first(r) {
                    None => DispatchView::Do(EffectView::CheckSchema { schema, value: input }),
                    Some(ReplyView::Verdict(v)) => match schema_fault(v, "workflow input"@) {
                        Some(m) => broken(m),
                        None => start_admitted(j, definition, input, r.drop_first()),
                    },
                    _ => DispatchView::Misfit,
                }
            },
        },
    }
}

/// The run is known to be new: the definition is looked up.
pub open spec fn start_fresh(j: StartJobView, r: Seq<ReplyView>) -> DispatchView {
    match first(r) {
        None => DispatchView::Do(
            EffectView::LoadDefinition { definition_id: j.request.definition_id },
        ),
        Some(ReplyView::Definition(Err(e))) => broken(e),
        Some(ReplyView::Definition(Ok(definition))) => start_defined(
            j,
            definition,
            r.drop_first(),
        ),
        _ => DispatchView::Misfit,
    }
}

/// The start of an instance.
pub open spec fn starting(j: StartJobView, r: Seq<ReplyView>) -> DispatchView {
    if j.draining {
        broken("gateway is shutting down; please retry shortly"@)
    } else {
        match j.request.run_env.run_id {
            None => start_fresh(j, r),
            Some(run_id) => match first(r) {
                None => DispatchView::Do(EffectView::FindRun { run_id }),
                Some(ReplyView::Run(Err(e))) => broken(e),
                Some(ReplyView::Run(Ok(Some(existing)))) => DispatchView::Done(
                    Err(
                        FailureView::RunIdAlreadyRunning {
                            run_id,
                            existing_workflow_id: existing,
                        },
                    ),
                ),
                Some(ReplyView::Run(Ok(None))) => start_fresh(j, r.drop_first()),
                _ => DispatchView::Misfit,
            },
        }
    }
}

fn do_start_settled(who: &Acting, p: &ChainResult, replies: &Vec<Reply>, at: usize) -> (r: DispatchStep)
    requires
        at <= replies@.len(),
        sound(replies@),
    ensures
        r@ == start_settled(who@, p@, rest(replies@, at as int)),
{
    match reply_at(replies, at) {
        None => DispatchStep::Do(
            Effect::Respond {
                principal: who.principal.clone(),
                instance: p.instance.clone(),
                hint: StatusHint::Started,
                error: None,
            },
        ),
        Some(Reply::Response(m)) => DispatchStep::Done(
            Ok(
                DispatchOutcome {
                    response: decorate(m.clone(), &p.evidence, &p.steps),
                    next_transition: None,
                },
            ),
        ),
        Some(_) => DispatchStep::Misfit,
    }
}

fn do_start_ended(
    j: &StartJob,
    definition: &Json,
    o: &ChainOutcome,
    replies: &Vec<Reply>,
    at: usize,
) -> (r: DispatchStep)
    requires
        at <= replies@.len(),
        sound(replies@),
        can_grow(chain_end(o@)),
    ensures
        r@ == start_ended(j@, definition@, o@, rest(replies@, at as int)),
{
    match o {
        ChainOutcome::Completed(p) => if is_terminal(definition, p.instance.state.as_str()) {
            match reply_at(replies, at) {
                None => DispatchStep::Do(
                    Effect::Audit {
                        event: make_completed_entry(j.correlation_id, &p.instance),
                        mode: AuditMode::Required,
                    },
                ),
                Some(Reply::Done(Err(e))) => broke(e.as_str()),
                Some(Reply::Done(Ok(_))) => match reply_at(replies, at + 1) {
                    None => DispatchStep::Do(
                        Effect::EmitOutcome {
                            acting: j.acting(),
                            hint: StatusHint::Started,
                            instance: p.instance.clone(),
                        },
                    ),
                    Some(Reply::Done(_)) => do_start_settled(&j.acting(), p, replies, at + 2),
                    Some(_) => DispatchStep::Misfit,
                },
                Some(_) => DispatchStep::Misfit,
            }
        } else {
            do_start_settled(&j.acting(), p, replies, at)
        },
        ChainOutcome::Failed { partial, error, error_class, failed_transition } => {
            match reply_at(replies, at) {
                None => DispatchStep::Do(
                    Effect::Respond {
                        principal: j.request.principal.clone(),
                        instance: partial.instance.clone(),
                        hint: StatusHint::Failed,
                        error: Some(
                            make_chain_error(
                                error.as_str(),
                                error_class.as_str(),
                                failed_transition.as_str(),
                            ),
                        ),
                    },
                ),
                Some(Reply::Response(m)) => DispatchStep::Done(
                    Ok(
                        DispatchOutcome {
                            response: make_failed_response(
                                m.clone(),
                                definition,
                                partial,
                                &partial.evidence,
                                failed_transition.as_str(),
                            ),
                            next_transition: None,
                        },
                    ),
                ),
                Some(_) => DispatchStep::Misfit,
            }
        },
        ChainOutcome::Suspended { partial, suspend, transition } => do_suspend_on_step(
            &j.acting(),
            &partial.instance,
            transition.as_str(),
            partial.instance.version,
            suspend,
            replies,
            at,
        ),
        ChainOutcome::WaitingOnLock { partial, transition, files, conflicts } => do_suspend_on_lock(
            &j.acting(),
            j.scheduler,
            &partial.instance,
            transition.as_str(),
            partial.instance.version,
            files,
            conflicts,
            replies,
            at,
        ),
        ChainOutcome::Quarantined { partial, reason } => do_quarantined(
            &j.acting(),
            partial,
            reason.as_str(),
            replies,
            at,
        ),
    }
}

fn do_born(
    j: &StartJob,
    definition: &Json,
    i: &WorkflowInstance,
    replies: &Vec<Reply>,
    at: usize,
) -> (r: DispatchStep)
    requires
        at <= replies@.len(),
        sound(replies@),
    ensures
        r@ == born(j@, definition@, i@, rest(replies@, at as int)),
{
    match reply_at(replies, at) {
        None => DispatchStep::Do(
            Effect::Audit { event: make_started_entry(j, i), mode: AuditMode::Required },
        ),
        Some(Reply::Done(Err(e))) => broke(e.as_str()),
        Some(Reply::Done(Ok(_))) => match reply_at(replies, at + 1) {
            None => DispatchStep::Do(
                Effect::OnEnter {
                    correlation_id: j.correlation_id.to_owned(),
                    instance: i.clone(),
                },
            ),
            Some(Reply::Instance(Err(e))) => DispatchStep::Done(Err(e.clone())),
            Some(Reply::Instance(Ok(entered))) => match reply_at(replies, at + 2) {
                None => DispatchStep::Do(
                    Effect::Chain {
                        acting: j.acting(),
                        instance: entered.clone(),
                        max_depth: max_chain_depth(definition),
                    },
                ),
                Some(Reply::Chained(Err(e))) => DispatchStep::Done(Err(e.clone())),
                Some(Reply::Chained(Ok(o))) => do_start_ended(j, definition, o, replies, at + 3),
                Some(_) => DispatchStep::Misfit,
            },
            Some(_) => DispatchStep::Misfit,
        },
        Some(_) => DispatchStep::Misfit,
    }
}

fn do_start_stored(
    j: &StartJob,
    definition: &Json,
    i: &WorkflowInstance,
    replies: &Vec<Reply>,
    at: usize,
) -> (r: DispatchStep)
    requires
        at <= replies@.len(),
        sound(replies@),
    ensures
        r@ == start_stored(j@, definition@, i@, rest(replies@, at as int)),
{
    match definition.get_u64("timeoutMs") {
        None => do_born(j, definition, i, replies, at),
        Some(timeout_ms) => match reply_at(replies, at) {
            None => DispatchStep::Do(
                Effect::Watch { workflow_id: i.id.clone(), timeout_ms },
            ),
            Some(Reply::Done(_)) => do_born(j, definition, i, replies, at + 1),
            Some(_) => DispatchStep::Misfit,
        },
    }
}

fn do_start_admitted(
    j: &StartJob,
    definition: &Json,
    input: &Json,
    replies: &Vec<Reply>,
    at: usize,
) -> (r: DispatchStep)
    requires
        at <= replies@.len(),
        sound(replies@),
    ensures
        r@ == start_admitted(j@, definition@, input@, rest(replies@, at as int)),
{
    let state = match required_str(definition, "/initialState") {
        Ok(s) => s,
        Err(m) => {
            return broke(m.as_str());
        },
    };
    let version = match required_str(definition, "/version") {
        Ok(v) => v,
        Err(_) => {
            return broke(
                make_corrupt_definition(j.request.definition_id.as_str()).as_str(),
            );
        },
    };
    match reply_at(replies, at) {
        None => DispatchStep::Do(Effect::NewId),
        Some(Reply::Id(id)) => match reply_at(replies, at + 1) {
            None => DispatchStep::Do(Effect::Now),
            Some(Reply::Time(now)) => match reply_at(replies, at + 2) {
                None => DispatchStep::Do(
                    Effect::Create {
                        instance: make_newborn(
                            j.request,
                            definition,
                            version,
                            state,
                            input,
                            id.as_str(),
                            now,
                        ),
                    },
                ),
                Some(Reply::Instance(Err(e))) => DispatchStep::Done(Err(e.clone())),
                Some(Reply::Instance(Ok(i))) => do_start_stored(
                    j,
                    definition,
                    i,
                    replies,
                    at + 3,
                ),
                Some(_) => DispatchStep::Misfit,
            },
            Some(_) => DispatchStep::Misfit,
        },
        Some(_) => DispatchStep::Misfit,
    }
}

fn do_start_defined(j: &StartJob, definition: &Json, replies: &Vec<Reply>, at: usize) -> (r:
    DispatchStep)
    requires
        at <= replies@.len(),
        sound(replies@),
    ensures
        r@ == start_defined(j@, definition@, rest(replies@, at as int)),
{
    let gap = match definition.get_object("_lexiconLibrary") {
        Some(lib) => find_undefined(lib, j.pending),
        None => None,
    };
    if let Some((subject, bounded_context)) = gap {
        let mut context = "workflow:".to_owned();
        context.append(j.request.definition_id.as_str());
        return DispatchStep::Done(
            Err(
                Failure::SubjectNeedsDefinition {
                    unknown_subject: subject,
                    bounded_context,
                    workflow_id_context: context,
                },
            ),
        );
    }
    match definition.pointer("/inputSchema") {
        None => do_start_admitted(j, definition, &j.request.input, replies, at),
        Some(schema) => {
            let mut input = j.request.input.clone();
            apply_schema_defaults(Some(schema), &mut input);
            match reply_at(replies, at) {
                None => DispatchStep::Do(
                    Effect::CheckSchema { schema: schema.clone(), value: input },
                ),
                Some(Reply::Verdict(v)) => match validate_schema(
                    Some(schema),
                    v,
                    "workflow input",
                ) {
                    Err(m) => broke(m.as_str()),
                    Ok(_) => do_start_admitted(j, definition, &input, replies, at + 1),
                },
                Some(_) => DispatchStep::Misfit,
            }
        },
    }
}

fn do_start_fresh(j: &StartJob, replies: &Vec<Reply>, at: usize) -> (r: DispatchStep)
    requires
        at <= replies@.len(),
        sound(replies@),
    ensures
        r@ == start_fresh(j@, rest(replies@, at as int)),
{
    match reply_at(replies, at) {
        None => DispatchStep::Do(
            Effect::LoadDefinition { definition_id: j.request.definition_id.clone() },
        ),
        Some(Reply::Definition(Err(e))) => broke(e.as_str()),
        Some(Reply::Definition(Ok(definition))) => do_start_defined(
            j,
            definition,
            replies,
            at + 1,
        ),
        Some(_) => DispatchStep::Misfit,
    }
}

fn do_start(j: &StartJob, replies: &Vec<Reply>) -> (r: DispatchStep)
    requires
        sound(replies@),
    ensures
        r@ == starting(j@, reply_views(replies@)),
{
    proof {
        reveal(rest);
        assert(rest(replies@, 0) =~= reply_views(replies@));
    }
    if j.draining {
        return broke("gateway is shutting down; please retry shortly");
    }
    match &j.request.run_env.run_id {
        None => do_start_fresh(j, replies, 0),
        Some(run_id) => match reply_at(replies, 0) {
            None => DispatchStep::Do(Effect::FindRun { run_id: run_id.clone() }),
            Some(Reply::Run(Err(e))) => broke(e.as_str()),
            Some(Reply::Run(Ok(Some(existing)))) => DispatchStep::Done(
                Err(
                    Failure::RunIdAlreadyRunning {
                        run_id: run_id.clone(),
                        existing_workflow_id: existing.clone(),
                    },
                ),
            ),
            Some(Reply::Run(Ok(None))) => do_start_fresh(j, replies, 1),
            Some(_) => DispatchStep::Misfit,
        },
    }
}

impl<D, S, X, G, A, E, L, Q> WorkflowRuntime<D, S, X, G, A, E, L, Q> {
    /// Starts an instance. `correlation_id` ties the entries of the start together.
    pub fn start(&self, request: &StartWorkflow, correlation_id: &str, replies: &Vec<Reply>) -> (r:
        DispatchStep)
        requires
            sound(replies@),
        ensures
            r@ == starting(
                (StartJobView {
                    request: request@,
                    draining: self.draining,
                    pending: opt_texts(self.pending_subjects),
                    scheduler: self.lock_scheduler is Some,
                    correlation_id: correlation_id@,
                }),
                reply_views(replies@),
            ),
    {
        let j = StartJob {
            request,
            draining: self.draining,
            pending: &self.pending_subjects,
            scheduler: self.lock_scheduler.is_some(),
            correlation_id,
        };
        do_start(&j, replies)
    }
}

/// Nothing is made while no new instances are taken: the start fails at once.
pub proof fn law_draining_starts_nothing(j: StartJobView, r: Seq<ReplyView>)
    requires
        j.draining,
    ensures
        starting(j, r) == broken("gateway is shutting down; please retry shortly"@),
{
}

/// An instance is made only in the first state of its definition, at version zero, and where
/// the run has an id, only after no other instance of that run was found.
pub proof fn law_only_new_runs_are_created(j: StartJobView, r: Seq<ReplyView>)
    ensures
        starting(j, r) matches DispatchView::Do(EffectView::Create { instance }) ==> {
            &&& !j.draining
            &&& j.request.run_env.run_id is Some ==> r.len() > 0 && r[0] == ReplyView::Run(Ok(None))
            &&& instance.version == 0
            &&& text_at(instance.definition, "/initialState"@) == Some(instance.state)
            &&& lexicon_gap(instance.definition, j.pending) is None
            &&& instance.cancelled_at is None
        },
{
}

/// What a definition declares of the first context wins over the input, key by key; what it
/// does not declare comes from the input.
pub proof fn law_declared_context_wins(context: Members, input: Members, key: Seq<char>)
    requires
        crate::json::sorted(input),
    ensures
        lookup(seeded(context, input), key) == match lookup(context, key) {
            Some(v) => Some(v),
            None => lookup(input, key),
        },
    decreases input.len(),
{
    if input.len() > 0 {
        let before = seeded(context, input.drop_last());
        let last = input.last();
        law_declared_context_wins(context, input.drop_last(), key);
        law_declared_context_wins(context, input.drop_last(), last.0);
        crate::json::lemma_put_lookup(before, last.0, last.1, key);
        crate::json::lemma_lookup_last(input, key);
    }
}

} // verus!
