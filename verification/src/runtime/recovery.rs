//! What becomes of instances that were left behind: by a process that ended, or by the one
//! that they wait for.

use vstd::prelude::*;

use crate::json::{obj, opt_text, views, Json, JsonMap, JsonView};
use crate::model::{
    audit_entry, entry, nobody, AuditEvent, AuditView, InstanceView, Principal, PrincipalView,
    WorkflowInstance,
};
use crate::runtime::chain::{are_hops_spent, hops_spent};
use crate::runtime::context::{file_list, files_as_strings};
use crate::runtime::effects::AuditMode;
use crate::runtime::links::{collect_strings, is_terminal, strings_in, terminal, text_or};
use crate::runtime::response::{awaits_human, waits_for_human};
use crate::runtime::runtime::WorkflowRuntime;
use crate::runtime::script::{
    first, reply_at, reply_views, rest, sound, Effect, EffectView, Reply, ReplyView, Step,
    StepView,
};
use crate::text::texts;

verus! {

/// Whether a run used up its hops.
pub open spec fn out_of_hops(i: InstanceView) -> bool {
    hops_spent(i.definition, i.context)
}

/// Whether an instance waits for something that will wake it: files, another instance, or an
/// answer.
pub open spec fn waits_for_engine(context: JsonView) -> bool {
    ||| context.get("_lock_wait"@) is Some
    ||| context.get("_subworkflow_wait"@) is Some
    ||| context.get("_agent_await"@) is Some
}

/// Why an instance that no process drives is to be cancelled, if it is: it used up its hops,
/// or it is neither at an end nor waiting for anybody.
pub open spec fn orphaned(i: InstanceView) -> Option<Seq<char>> {
    if i.cancelled_at is Some || terminal(i.definition, i.state) {
        None
    } else if out_of_hops(i) {
        Some(
            "livelock_quarantine: exceeded cumulative chain-hop budget without terminating (reaped at startup)"@,
        )
    } else if waits_for_human(i.definition, i.state) || waits_for_engine(i.context) {
        None
    } else {
        Some("orphaned run reaped at startup (no live driver)"@)
    }
}

fn judge_orphan(i: &WorkflowInstance) -> (r: Option<&'static str>)
    ensures
        opt_text(r) == orphaned(i@),
{
    if i.cancelled_at.is_some() || is_terminal(&i.definition, i.state.as_str()) {
        return None;
    }
    if are_hops_spent(&i.definition, &i.context) {
        return Some(
            "livelock_quarantine: exceeded cumulative chain-hop budget without terminating (reaped at startup)",
        );
    }
    let engine = i.context.get("_lock_wait").is_some() || i.context.get(
        "_subworkflow_wait",
    ).is_some() || i.context.get("_agent_await").is_some();
    if awaits_human(&i.definition, i.state.as_str()) || engine {
        return None;
    }
    Some("orphaned run reaped at startup (no live driver)")
}

pub open spec fn instance_views(s: Seq<WorkflowInstance>) -> Seq<InstanceView> {
    s.map_values(|i: WorkflowInstance| i@)
}

/// Those of the instances that are to be cancelled, each with the reason.
pub open spec fn reaped(all: Seq<InstanceView>) -> Seq<(Seq<char>, Seq<char>)>
    decreases all.len(),
{
    if all.len() == 0 {
        Seq::empty()
    } else {
        let before = reaped(all.drop_last());
        match orphaned(all.last()) {
            Some(reason) => before.push((all.last().id, reason)),
            None => before,
        }
    }
}

impl<D, S, X, G, A, E, L, Q> WorkflowRuntime<D, S, X, G, A, E, L, Q> {
    /// Finds, among all instances at the start of a process, those that nobody will ever move
    /// again, in their order.
    pub fn reap_orphaned_runs(&self, all: &Vec<WorkflowInstance>) -> (r: Vec<(String, String)>)
        ensures
            crate::runtime::effects::conflict_views(r@) == reaped(instance_views(all@)),
    {
        let ghost views = instance_views(all@);
        let mut out: Vec<(String, String)> = Vec::new();
        let mut k: usize = 0;
        assert(views.take(0) =~= Seq::empty());
        assert(crate::runtime::effects::conflict_views(out@) =~= Seq::empty());
        while k < all.len()
            invariant
                k <= all@.len(),
                views == instance_views(all@),
                crate::runtime::effects::conflict_views(out@) == reaped(views.take(k as int)),
            decreases all@.len() - k,
        {
            let ghost next = views.take(k + 1);
            assert(next.drop_last() =~= views.take(k as int));
            assert(next.last() == all@[k as int]@);
            if let Some(reason) = judge_orphan(&all[k]) {
                let ghost before = out@;
                let pair = (all[k].id.clone(), reason.to_owned());
                out.push(pair);
                assert(crate::runtime::effects::conflict_views(out@)
                    =~= crate::runtime::effects::conflict_views(before).push((pair.0@, pair.1@)));
            }
            k = k + 1;
        }
        assert(views.take(k as int) =~= views);
        out
    }
}

/// Who waits is never cancelled at the start of a process, unless the run used up its hops.
pub proof fn law_waiting_instances_are_kept(i: InstanceView)
    requires
        waits_for_human(i.definition, i.state) || waits_for_engine(i.context),
        !out_of_hops(i),
    ensures
        orphaned(i) is None,
{
}

/// A cancelled instance, and one that is at its end, is never cancelled again at the start of
/// a process.
pub proof fn law_settled_instances_are_kept(i: InstanceView)
    requires
        i.cancelled_at is Some || terminal(i.definition, i.state),
    ensures
        orphaned(i) is None,
{
}

/// The files that an instance waits for.
pub open spec fn waited_files(wait: JsonView) -> Seq<Seq<char>> {
    strings_in(wait.get("files"@))
}

/// A text of a wait.
pub open spec fn wait_text(wait: JsonView, key: Seq<char>) -> Seq<char> {
    text_or(wait.get_str(key), Seq::empty())
}

fn read_wait_text<'a>(wait: &'a Json, key: &str) -> (r: &'a str)
    ensures
        r@ == wait_text(wait@, key@),
{
    match wait.get_str(key) {
        Some(s) => s,
        None => {
            proof {
                reveal_strlit("");
                assert(""@ =~= Seq::<char>::empty());
            }
            ""
        },
    }
}

/// What becomes of an instance that waited for files when the process ended.
pub enum LockRecovery {
    /// It does not wait for files.
    Nothing,
    /// Its wait names no files or no transition: that is told, and nothing else is done.
    Corrupt(AuditEvent),
    /// It joins the line again.
    Enqueue { workflow_id: String, transition: String, files: Vec<String> },
}

/// The model of such a recovery.
pub enum LockRecoveryView {
    Nothing,
    Corrupt(AuditView),
    Enqueue { workflow_id: Seq<char>, transition: Seq<char>, files: Seq<Seq<char>> },
}

impl LockRecovery {
    pub open spec fn view(&self) -> LockRecoveryView {
        match self {
            LockRecovery::Nothing => LockRecoveryView::Nothing,
            LockRecovery::Corrupt(e) => LockRecoveryView::Corrupt(e@),
            LockRecovery::Enqueue { workflow_id, transition, files } => LockRecoveryView::Enqueue {
                workflow_id: workflow_id@,
                transition: transition@,
                files: texts(files@),
            },
        }
    }
}

/// The recovery of an instance that waited for files.
pub open spec fn lock_recovery(i: InstanceView) -> LockRecoveryView {
    match i.context.get("_lock_wait"@) {
        None => LockRecoveryView::Nothing,
        Some(wait) => {
            let transition = wait_text(wait, "transition"@);
            let files = waited_files(wait);
            if transition.len() == 0 || files.len() == 0 {
                LockRecoveryView::Corrupt(
                    entry(
                        "lock.recover.corrupt"@,
                        i.id,
                        None,
                        None,
                        obj().with("transition"@, JsonView::Str(transition)).with(
                            "files"@,
                            JsonView::Array(file_list(files)),
                        ).with(
                            "reason"@,
                            JsonView::Str("empty transition or files in _lock_wait record"@),
                        ).m,
                    ),
                )
            } else {
                LockRecoveryView::Enqueue { workflow_id: i.id, transition, files }
            }
        },
    }
}

impl<D, S, X, G, A, E, L, Q> WorkflowRuntime<D, S, X, G, A, E, L, Q> {
    /// Decides what becomes of an instance that waited for files when the process ended.
    pub fn recover_suspended_locks(&self, i: &WorkflowInstance) -> (r: LockRecovery)
        ensures
            r@ == lock_recovery(i@),
    {
        broadcast use crate::json::array_view;

        let wait = match i.context.get("_lock_wait") {
            Some(w) => w,
            None => {
                return LockRecovery::Nothing;
            },
        };
        let transition = read_wait_text(wait, "transition");
        let files = collect_strings(wait.get("files"));
        assert(texts(files@).len() == files@.len());
        if transition.is_empty() || files.len() == 0 {
            let payload = JsonMap::new().with("transition", Json::text(transition)).with(
                "files",
                Json::Array(files_as_strings(&files)),
            ).with("reason", Json::text("empty transition or files in _lock_wait record"));
            LockRecovery::Corrupt(
                audit_entry("lock.recover.corrupt", i.id.as_str(), None, None, payload),
            )
        } else {
            LockRecovery::Enqueue {
                workflow_id: i.id.clone(),
                transition: transition.to_owned(),
                files,
            }
        }
    }
}

/// What becomes of an instance that waited for another one when the process ended.
pub enum ParentRecovery {
    /// It does not wait for another one.
    Nothing,
    /// Its wait names no transition: that is told, and nothing else is done.
    Corrupt(AuditEvent),
    /// It is told that the instance goes on, and its transition is submitted again on the
    /// version that the instance has.
    Resume { event: AuditEvent, expected_version: u64, transition: String },
}

/// The model of such a recovery.
pub enum ParentRecoveryView {
    Nothing,
    Corrupt(AuditView),
    Resume { event: AuditView, expected_version: u64, transition: Seq<char> },
}

impl ParentRecovery {
    pub open spec fn view(&self) -> ParentRecoveryView {
        match self {
            ParentRecovery::Nothing => ParentRecoveryView::Nothing,
            ParentRecovery::Corrupt(e) => ParentRecoveryView::Corrupt(e@),
            ParentRecovery::Resume { event, expected_version, transition } => {
                ParentRecoveryView::Resume {
                    event: event@,
                    expected_version: *expected_version,
                    transition: transition@,
                }
            },
        }
    }
}

/// The entry of an instance that goes on because the one that it waited for ended.
pub open spec fn resumed_entry(id: Seq<char>, child: Seq<char>, transition: Seq<char>) -> AuditView {
    entry(
        "sub_workflow.parent.resumed"@,
        id,
        None,
        None,
        obj().with("child_workflow_id"@, JsonView::Str(child)).with(
            "transition"@,
            JsonView::Str(transition),
        ).m,
    )
}

fn make_resumed_entry(id: &str, child: &str, transition: &str) -> (r: AuditEvent)
    ensures
        r@ == resumed_entry(id@, child@, transition@),
{
    audit_entry(
        "sub_workflow.parent.resumed",
        id,
        None,
        None,
        JsonMap::new().with("child_workflow_id", Json::text(child)).with(
            "transition",
            Json::text(transition),
        ),
    )
}

/// The recovery of an instance that waited for another one.
pub open spec fn parent_recovery(i: InstanceView) -> ParentRecoveryView {
    match i.context.get("_subworkflow_wait"@) {
        None => ParentRecoveryView::Nothing,
        Some(wait) => {
            let transition = wait_text(wait, "transition"@);
            let child = wait_text(wait, "child_workflow_id"@);
            if transition.len() == 0 {
                ParentRecoveryView::Corrupt(
                    entry(
                        "sub_workflow.recover.corrupt"@,
                        i.id,
                        None,
                        None,
                        obj().with("child_workflow_id"@, JsonView::Str(child)).with(
                            "reason"@,
                            JsonView::Str(
                                "missing or empty transition in _subworkflow_wait record"@,
                            ),
                        ).m,
                    ),
                )
            } else {
                ParentRecoveryView::Resume {
                    event: resumed_entry(i.id, child, transition),
                    expected_version: i.version,
                    transition,
                }
            }
        },
    }
}

impl<D, S, X, G, A, E, L, Q> WorkflowRuntime<D, S, X, G, A, E, L, Q> {
    /// Decides what becomes of an instance that waited for another one when the process ended.
    pub fn recover_suspended_subworkflows(&self, i: &WorkflowInstance) -> (r: ParentRecovery)
        ensures
            r@ == parent_recovery(i@),
    {
        let wait = match i.context.get("_subworkflow_wait") {
            Some(w) => w,
            None => {
                return ParentRecovery::Nothing;
            },
        };
        let transition = read_wait_text(wait, "transition");
        let child = read_wait_text(wait, "child_workflow_id");
        if transition.is_empty() {
            let payload = JsonMap::new().with("child_workflow_id", Json::text(child)).with(
                "reason",
                Json::text("missing or empty transition in _subworkflow_wait record"),
            );
            ParentRecovery::Corrupt(
                audit_entry("sub_workflow.recover.corrupt", i.id.as_str(), None, None, payload),
            )
        } else {
            ParentRecovery::Resume {
                event: make_resumed_entry(i.id.as_str(), child, transition),
                expected_version: i.version,
                transition: transition.to_owned(),
            }
        }
    }
}

/// The instance that waits for one that ended goes on: its transition is submitted again on
/// the version that it has now. Whatever comes of that, the drive is over.
pub open spec fn parent_resumed(i: InstanceView, r: Seq<ReplyView>) -> StepView<()> {
    let r1 = r.drop_first();
    let r2 = r1.drop_first();
    match i.parent {
        None => StepView::Done(()),
        Some((id, transition)) => if transition.len() == 0 {
            StepView::Done(())
        } else {
            match first(r) {
                None => StepView::Do(EffectView::Load { workflow_id: id }),
                Some(ReplyView::Instance(Err(_))) => StepView::Done(()),
                Some(ReplyView::Instance(Ok(parent))) => match first(r1) {
                    None => StepView::Do(
                        EffectView::Audit {
                            event: resumed_entry(parent.id, i.id, transition),
                            mode: AuditMode::SelfEvent,
                        },
                    ),
                    Some(ReplyView::Done(_)) => match first(r2) {
                        None => StepView::Do(
                            EffectView::Submit {
                                workflow_id: id,
                                expected_version: parent.version,
                                transition,
                                principal: nobody(),
                            },
                        ),
                        Some(ReplyView::Done(_)) => StepView::Done(()),
                        _ => StepView::Misfit,
                    },
                    _ => StepView::Misfit,
                },
                _ => StepView::Misfit,
            }
        },
    }
}

/// Wakes the instance that waits for this one, if there is one.
pub fn resume_parent_if_any(terminal: &WorkflowInstance, replies: &Vec<Reply>) -> (r: Step<()>)
    requires
        sound(replies@),
    ensures
        r.seen(|u: ()| ()) == parent_resumed(terminal@, reply_views(replies@)),
{
    proof {
        reveal(rest);
        assert(rest(replies@, 0) =~= reply_views(replies@));
    }
    let parent = match &terminal.parent {
        Some(p) => p,
        None => {
            return Step::Done(());
        },
    };
    if parent.transition.as_str().is_empty() {
        return Step::Done(());
    }
    match reply_at(replies, 0) {
        None => Step::Do(Effect::Load { workflow_id: parent.workflow_id.clone() }),
        Some(Reply::Instance(Err(_))) => Step::Done(()),
        Some(Reply::Instance(Ok(p))) => match reply_at(replies, 1) {
            None => Step::Do(
                Effect::Audit {
                    event: make_resumed_entry(
                        p.id.as_str(),
                        terminal.id.as_str(),
                        parent.transition.as_str(),
                    ),
                    mode: AuditMode::SelfEvent,
                },
            ),
            Some(Reply::Done(_)) => match reply_at(replies, 2) {
                None => Step::Do(
                    Effect::Submit {
                        workflow_id: parent.workflow_id.clone(),
                        expected_version: p.version,
                        transition: parent.transition.clone(),
                        principal: Principal::anonymous(),
                    },
                ),
                Some(Reply::Done(_)) => Step::Done(()),
                Some(_) => Step::Misfit,
            },
            Some(_) => Step::Misfit,
        },
        Some(_) => Step::Misfit,
    }
}

/// One that waited for files goes on: its transition is submitted again on the version that
/// it has now. Whatever comes of that, the drive is over.
pub open spec fn redriven(
    id: Seq<char>,
    transition: Seq<char>,
    principal: PrincipalView,
    r: Seq<ReplyView>,
) -> StepView<()> {
    let r1 = r.drop_first();
    let r2 = r1.drop_first();
    match first(r) {
        None => StepView::Do(EffectView::Load { workflow_id: id }),
        Some(ReplyView::Instance(Err(_))) => StepView::Done(()),
        Some(ReplyView::Instance(Ok(i))) => match first(r1) {
            None => StepView::Do(
                EffectView::Audit {
                    event: entry(
                        "lock.resumed"@,
                        i.id,
                        None,
                        None,
                        obj().with("transition"@, JsonView::Str(transition)).m,
                    ),
                    mode: AuditMode::Ignored,
                },
            ),
            Some(ReplyView::Done(_)) => match first(r2) {
                None => StepView::Do(
                    EffectView::Submit {
                        workflow_id: id,
                        expected_version: i.version,
                        transition,
                        principal,
                    },
                ),
                Some(ReplyView::Done(_)) => StepView::Done(()),
                _ => StepView::Misfit,
            },
            _ => StepView::Misfit,
        },
        _ => StepView::Misfit,
    }
}

/// Submits again for one whose files are free now, and for whom it waited.
pub fn redrive(
    workflow_id: &str,
    transition: &str,
    principal: &Principal,
    replies: &Vec<Reply>,
) -> (r: Step<()>)
    requires
        sound(replies@),
    ensures
        r.seen(|u: ()| ()) == redriven(
            workflow_id@,
            transition@,
            principal@,
            reply_views(replies@),
        ),
{
    proof {
        reveal(rest);
        assert(rest(replies@, 0) =~= reply_views(replies@));
    }
    match reply_at(replies, 0) {
        None => Step::Do(Effect::Load { workflow_id: workflow_id.to_owned() }),
        Some(Reply::Instance(Err(_))) => Step::Done(()),
        Some(Reply::Instance(Ok(i))) => match reply_at(replies, 1) {
            None => Step::Do(
                Effect::Audit {
                    event: audit_entry(
                        "lock.resumed",
                        i.id.as_str(),
                        None,
                        None,
                        JsonMap::new().with("transition", Json::text(transition)),
                    ),
                    mode: AuditMode::Ignored,
                },
            ),
            Some(Reply::Done(_)) => match reply_at(replies, 2) {
                None => Step::Do(
                    Effect::Submit {
                        workflow_id: workflow_id.to_owned(),
                        expected_version: i.version,
                        transition: transition.to_owned(),
                        principal: principal.clone(),
                    },
                ),
                Some(Reply::Done(_)) => Step::Done(()),
                Some(_) => Step::Misfit,
            },
            Some(_) => Step::Misfit,
        },
        Some(_) => Step::Misfit,
    }
}

} // verus!
