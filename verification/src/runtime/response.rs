//! The response: where an instance stands and what can be done next.

use vstd::prelude::*;

use crate::json::{number, obj, opt_text, views, Json, JsonMap, JsonView, Members, ObjectView};
use crate::model::{
    Acting, ActingView, InstanceView, Principal, PrincipalView, WorkflowInstance,
};
use crate::run_env::copy_opt;
use crate::runtime::effects::{opt_json, StatusHint};
use crate::runtime::guards::{ask, empty_object, guards_of, ArmView};
use crate::runtime::links::{
    collect_guidance_refs, filters_links, find_state, guidance_refs, is_terminal,
    link_filter_byguards, links, links_view, state_def, terminal, text_or, transition_def,
    transition_definition,
};
use crate::runtime::script::{
    first, reply_at, reply_views, rest, sound, Effect, EffectView, Reply, ReplyView, Step,
    StepView,
};
use crate::templating::{render_template, rendered};
use crate::text::{opt_string, same};

verus! {

/// The guards of a link from the `k`th on, asked without a trace. A guard that cannot be
/// asked counts as one that does not pass.
pub open spec fn silent_from(
    guards: Seq<JsonView>,
    k: int,
    i: InstanceView,
    who: PrincipalView,
    r: Seq<ReplyView>,
) -> ArmView
    decreases guards.len() - k,
{
    if k >= guards.len() {
        ArmView::Passed(true, r)
    } else {
        match first(r) {
            None => ArmView::Ask(ask(guards[k], i, empty_object(), who)),
            Some(ReplyView::Judged(Err(_))) => ArmView::Passed(false, r.drop_first()),
            Some(ReplyView::Judged(Ok((pass, _)))) => if pass {
                silent_from(guards, k + 1, i, who, r.drop_first())
            } else {
                ArmView::Passed(false, r.drop_first())
            },
            _ => ArmView::Misfit,
        }
    }
}

enum Probe {
    Ask(Effect),
    Misfit,
    Passed(bool, usize),
}

impl Probe {
    spec fn view(&self, replies: Seq<Reply>) -> ArmView {
        match self {
            Probe::Ask(e) => ArmView::Ask(e@),
            Probe::Misfit => ArmView::Misfit,
            Probe::Passed(p, at) => ArmView::Passed(*p, rest(replies, *at as int)),
        }
    }

    spec fn within(&self, replies: Seq<Reply>) -> bool {
        match self {
            Probe::Passed(_, at) => *at <= replies.len(),
            _ => true,
        }
    }
}

fn probe(guards: Option<&Vec<Json>>, t: &Json, i: &WorkflowInstance, who: &Principal, replies: &Vec<Reply>, from: usize) -> (r:
    Probe)
    requires
        from <= replies@.len(),
        sound(replies@),
        (match guards {
            Some(a) => Some(views(a@)),
            None => None,
        }) == t@.get_array("guards"@),
    ensures
        r.view(replies@) == silent_from(guards_of(t@), 0, i@, who@, rest(replies@, from as int)),
        r.within(replies@),
{
    let guards = match guards {
        Some(g) => g,
        None => {
            return Probe::Passed(true, from);
        },
    };
    let ghost gs = views(guards@);
    let mut at: usize = from;
    let mut k: usize = 0;
    while k < guards.len()
        invariant
            k <= guards@.len(),
            at <= replies@.len(),
            sound(replies@),
            gs == views(guards@),
            gs == guards_of(t@),
            silent_from(gs, k as int, i@, who@, rest(replies@, at as int)) == silent_from(
                gs,
                0,
                i@,
                who@,
                rest(replies@, from as int),
            ),
        decreases guards@.len() - k,
    {
        assert(gs.len() == guards@.len());
        assert(gs[k as int] == guards@[k as int]@);
        match reply_at(replies, at) {
            None => {
                return Probe::Ask(
                    Effect::AskGuard {
                        principal: who.clone(),
                        guard: guards[k].clone(),
                        instance: i.clone(),
                        arguments: Json::Object(JsonMap::new()),
                    },
                );
            },
            Some(Reply::Judged(Err(_))) => {
                return Probe::Passed(false, at + 1);
            },
            Some(Reply::Judged(Ok((pass, _)))) => {
                at = at + 1;
                if !*pass {
                    return Probe::Passed(false, at);
                }
            },
            Some(_) => {
                return Probe::Misfit;
            },
        }
        k = k + 1;
    }
    assert(gs.len() == guards@.len());
    Probe::Passed(true, at)
}

/// How the sifting of links stands.
pub enum SiftView {
    Ask(EffectView),
    Misfit,
    Kept(Seq<JsonView>, Seq<ReplyView>),
}

/// The transition of a link, if the state has it.
pub open spec fn link_transition(definition: JsonView, state: Seq<char>, link: JsonView) -> Option<
    JsonView,
> {
    match link.get_str("rel"@) {
        Some(rel) => transition_def(definition, state, rel),
        None => None,
    }
}

/// The links from the `k`th on whose guards pass for an instance.
pub open spec fn sift_from(
    all: Seq<JsonView>,
    k: int,
    kept: Seq<JsonView>,
    definition: JsonView,
    i: InstanceView,
    who: PrincipalView,
    r: Seq<ReplyView>,
) -> SiftView
    decreases all.len() - k,
{
    if k >= all.len() {
        SiftView::Kept(kept, r)
    } else {
        match link_transition(definition, i.state, all[k]) {
            None => sift_from(all, k + 1, kept, definition, i, who, r),
            Some(t) => match silent_from(guards_of(t), 0, i, who, r) {
                ArmView::Ask(e) => SiftView::Ask(e),
                ArmView::Passed(pass, left) => sift_from(
                    all,
                    k + 1,
                    if pass {
                        kept.push(all[k])
                    } else {
                        kept
                    },
                    definition,
                    i,
                    who,
                    left,
                ),
                _ => SiftView::Misfit,
            },
        }
    }
}

enum Sift {
    Ask(Effect),
    Misfit,
    Kept(Vec<Json>, usize),
}

impl Sift {
    spec fn view(&self, replies: Seq<Reply>) -> SiftView {
        match self {
            Sift::Ask(e) => SiftView::Ask(e@),
            Sift::Misfit => SiftView::Misfit,
            Sift::Kept(v, at) => SiftView::Kept(views(v@), rest(replies, *at as int)),
        }
    }

    spec fn within(&self, replies: Seq<Reply>) -> bool {
        match self {
            Sift::Kept(_, at) => *at <= replies.len(),
            _ => true,
        }
    }
}

fn sift(
    all: &Vec<Json>,
    definition: &Json,
    i: &WorkflowInstance,
    who: &Principal,
    replies: &Vec<Reply>,
    from: usize,
) -> (r: Sift)
    requires
        from <= replies@.len(),
        sound(replies@),
    ensures
        r.view(replies@) == sift_from(
            views(all@),
            0,
            Seq::empty(),
            definition@,
            i@,
            who@,
            rest(replies@, from as int),
        ),
        r.within(replies@),
{
    let ghost ls = views(all@);
    let mut kept: Vec<Json> = Vec::new();
    let mut at: usize = from;
    let mut k: usize = 0;
    assert(views(kept@) =~= Seq::empty());
    while k < all.len()
        invariant
            k <= all@.len(),
            at <= replies@.len(),
            sound(replies@),
            ls == views(all@),
            sift_from(ls, k as int, views(kept@), definition@, i@, who@, rest(replies@, at as int))
                == sift_from(ls, 0, Seq::empty(), definition@, i@, who@, rest(replies@, from as int)),
        decreases all@.len() - k,
    {
        assert(ls.len() == all@.len());
        assert(ls[k as int] == all@[k as int]@);
        let t = match all[k].get_str("rel") {
            Some(rel) => transition_definition(definition, i.state.as_str(), rel),
            None => None,
        };
        if let Some(t) = t {
            match probe(t.get_array("guards"), t, i, who, replies, at) {
                Probe::Ask(e) => {
                    return Sift::Ask(e);
                },
                Probe::Misfit => {
                    return Sift::Misfit;
                },
                Probe::Passed(pass, next) => {
                    at = next;
                    if pass {
                        let ghost before = kept@;
                        let link = all[k].clone();
                        kept.push(link);
                        assert(views(kept@) =~= views(before).push(link@));
                    }
                },
            }
        }
        k = k + 1;
    }
    assert(ls.len() == all@.len());
    Sift::Kept(kept, at)
}

/// The links that an instance offers, or the next question on the way to them.
pub open spec fn sifted(
    all: Seq<JsonView>,
    definition: JsonView,
    i: InstanceView,
    who: PrincipalView,
    r: Seq<ReplyView>,
) -> StepView<Seq<JsonView>> {
    match sift_from(all, 0, Seq::empty(), definition, i, who, r) {
        SiftView::Ask(e) => StepView::Do(e),
        SiftView::Misfit => StepView::Misfit,
        SiftView::Kept(kept, left) => StepView::Done(kept),
    }
}

/// Keeps the links whose guards pass now, asked without arguments.
pub fn filter_links_by_guards(
    links: &Vec<Json>,
    definition: &Json,
    instance: &WorkflowInstance,
    who: &Principal,
    replies: &Vec<Reply>,
) -> (r: Step<Vec<Json>>)
    requires
        sound(replies@),
    ensures
        r.seen(|v: Vec<Json>| views(v@)) == sifted(
            views(links@),
            definition@,
            instance@,
            who@,
            reply_views(replies@),
        ),
{
    proof {
        reveal(rest);
        assert(rest(replies@, 0) =~= reply_views(replies@));
    }
    match sift(links, definition, instance, who, replies, 0) {
        Sift::Ask(e) => Step::Do(e),
        Sift::Misfit => Step::Misfit,
        Sift::Kept(kept, _) => Step::Done(kept),
    }
}

/// The links that a caller is offered: all, or those whose guards pass where the definition
/// or the state asks for that. `resolved` has what the `prefill` declarations were resolved
/// to.
pub open spec fn offered_links(
    definition: JsonView,
    i: InstanceView,
    who: PrincipalView,
    resolved: Members,
    r: Seq<ReplyView>,
) -> StepView<Seq<JsonView>> {
    let all = links_view(definition, i, resolved);
    if filters_links(definition, i.state) {
        sifted(all, definition, i, who, r)
    } else {
        StepView::Done(all)
    }
}

/// How the judging of outcomes stands.
pub enum GoalsView {
    Ask(EffectView),
    Misfit,
    Judged(Seq<JsonView>, bool, Seq<ReplyView>),
}

/// A text of an outcome's declaration.
pub open spec fn goal_text(oc: JsonView, key: Seq<char>) -> Seq<char> {
    text_or(oc.get_str(key), Seq::empty())
}

fn read_goal_text<'a>(oc: &'a Json, key: &str) -> (r: &'a str)
    ensures
        r@ == goal_text(oc@, key@),
{
    match oc.get_str(key) {
        Some(s) => s,
        None => {
            proof {
                reveal_strlit("");
                assert(""@ =~= Seq::<char>::empty());
            }
            ""
        },
    }
}

/// The guard that checks an outcome.
pub open spec fn goal_guard(oc: JsonView) -> JsonView {
    obj().with("kind"@, JsonView::Str("expr"@)).with(
        "expr"@,
        JsonView::Str(goal_text(oc, "check"@)),
    ).json()
}

/// How a judged outcome is shown.
pub open spec fn goal_line(oc: JsonView, met: bool) -> JsonView {
    obj().with("id"@, JsonView::Str(goal_text(oc, "id"@))).with(
        "statement"@,
        JsonView::Str(goal_text(oc, "statement"@)),
    ).with("met"@, JsonView::Bool(met)).json()
}

/// The outcomes of a mission from the `k`th on. One whose check cannot be made is not met.
pub open spec fn goals_from(
    all: Seq<JsonView>,
    k: int,
    lines: Seq<JsonView>,
    met: bool,
    i: InstanceView,
    who: PrincipalView,
    r: Seq<ReplyView>,
) -> GoalsView
    decreases all.len() - k,
{
    if k >= all.len() {
        GoalsView::Judged(lines, met, r)
    } else {
        match first(r) {
            None => GoalsView::Ask(ask(goal_guard(all[k]), i, JsonView::Null, who)),
            Some(ReplyView::Judged(v)) => {
                let one = v matches Ok((pass, _)) && pass;
                goals_from(
                    all,
                    k + 1,
                    lines.push(goal_line(all[k], one)),
                    met && one,
                    i,
                    who,
                    r.drop_first(),
                )
            },
            _ => GoalsView::Misfit,
        }
    }
}

enum Goals {
    Ask(Effect),
    Misfit,
    Judged(Vec<Json>, bool, usize),
}

impl Goals {
    spec fn view(&self, replies: Seq<Reply>) -> GoalsView {
        match self {
            Goals::Ask(e) => GoalsView::Ask(e@),
            Goals::Misfit => GoalsView::Misfit,
            Goals::Judged(v, met, at) => GoalsView::Judged(
                views(v@),
                *met,
                rest(replies, *at as int),
            ),
        }
    }

    spec fn within(&self, replies: Seq<Reply>) -> bool {
        match self {
            Goals::Judged(_, _, at) => *at <= replies.len(),
            _ => true,
        }
    }
}

fn judge_goals(all: &Vec<Json>, i: &WorkflowInstance, who: &Principal, replies: &Vec<Reply>, from: usize) -> (r:
    Goals)
    requires
        from <= replies@.len(),
        sound(replies@),
    ensures
        r.view(replies@) == goals_from(
            views(all@),
            0,
            Seq::empty(),
            true,
            i@,
            who@,
            rest(replies@, from as int),
        ),
        r.within(replies@),
{
    let ghost os = views(all@);
    let mut lines: Vec<Json> = Vec::new();
    let mut met = true;
    let mut at: usize = from;
    let mut k: usize = 0;
    assert(views(lines@) =~= Seq::empty());
    while k < all.len()
        invariant
            k <= all@.len(),
            at <= replies@.len(),
            sound(replies@),
            os == views(all@),
            goals_from(os, k as int, views(lines@), met, i@, who@, rest(replies@, at as int))
                == goals_from(os, 0, Seq::empty(), true, i@, who@, rest(replies@, from as int)),
        decreases all@.len() - k,
    {
        assert(os.len() == all@.len());
        assert(os[k as int] == all@[k as int]@);
        let oc = &all[k];
        match reply_at(replies, at) {
            None => {
                let guard = JsonMap::new().with("kind", Json::text("expr")).with(
                    "expr",
                    Json::text(read_goal_text(oc, "check")),
                );
                return Goals::Ask(
                    Effect::AskGuard {
                        principal: who.clone(),
                        guard: Json::Object(guard),
                        instance: i.clone(),
                        arguments: Json::Null,
                    },
                );
            },
            Some(Reply::Judged(v)) => {
                let one = match v {
                    Ok((pass, _)) => *pass,
                    Err(_) => false,
                };
                let line = Json::Object(
                    JsonMap::new().with("id", Json::text(read_goal_text(oc, "id"))).with(
                        "statement",
                        Json::text(read_goal_text(oc, "statement")),
                    ).with("met", Json::Bool(one)),
                );
                let ghost before = lines@;
                lines.push(line);
                assert(views(lines@) =~= views(before).push(line@));
                met = met && one;
                at = at + 1;
            },
            Some(_) => {
                return Goals::Misfit;
            },
        }
        k = k + 1;
    }
    assert(os.len() == all@.len());
    Goals::Judged(lines, met, at)
}

/// The judged outcomes, if any are declared, and whether all of them are met.
pub open spec fn outcomes_of(definition: JsonView, i: InstanceView, who: PrincipalView, r: Seq<ReplyView>) -> StepView<
    (Option<Seq<JsonView>>, bool),
> {
    match outcomes_then(definition, i, who, r) {
        GoalsThen::Ask(e) => StepView::Do(e),
        GoalsThen::Misfit => StepView::Misfit,
        GoalsThen::Judged(lines, met, left) => StepView::Done((lines, met)),
    }
}

/// How the judging of declared outcomes stands, with the replies that are left.
pub enum GoalsThen {
    Ask(EffectView),
    Misfit,
    Judged(Option<Seq<JsonView>>, bool, Seq<ReplyView>),
}

/// The judging of declared outcomes. Where none are declared, all are met.
pub open spec fn outcomes_then(definition: JsonView, i: InstanceView, who: PrincipalView, r: Seq<ReplyView>) -> GoalsThen {
    match definition.get_array("outcomes"@) {
        None => GoalsThen::Judged(None, true, r),
        Some(all) => match goals_from(all, 0, Seq::empty(), true, i, who, r) {
            GoalsView::Ask(e) => GoalsThen::Ask(e),
            GoalsView::Misfit => GoalsThen::Misfit,
            GoalsView::Judged(lines, met, left) => GoalsThen::Judged(Some(lines), met, left),
        },
    }
}

enum Judging {
    Ask(Effect),
    Misfit,
    Judged(Option<Vec<Json>>, bool, usize),
}

pub open spec fn opt_views(v: Option<Vec<Json>>) -> Option<Seq<JsonView>> {
    match v {
        Some(v) => Some(views(v@)),
        None => None,
    }
}

impl Judging {
    spec fn view(&self, replies: Seq<Reply>) -> GoalsThen {
        match self {
            Judging::Ask(e) => GoalsThen::Ask(e@),
            Judging::Misfit => GoalsThen::Misfit,
            Judging::Judged(v, met, at) => GoalsThen::Judged(
                opt_views(*v),
                *met,
                rest(replies, *at as int),
            ),
        }
    }

    spec fn within(&self, replies: Seq<Reply>) -> bool {
        match self {
            Judging::Judged(_, _, at) => *at <= replies.len(),
            _ => true,
        }
    }
}

fn judge_outcomes(definition: &Json, i: &WorkflowInstance, who: &Principal, replies: &Vec<Reply>, from: usize) -> (r:
    Judging)
    requires
        from <= replies@.len(),
        sound(replies@),
    ensures
        r.view(replies@) == outcomes_then(definition@, i@, who@, rest(replies@, from as int)),
        r.within(replies@),
{
    match definition.get_array("outcomes") {
        None => Judging::Judged(None, true, from),
        Some(all) => match judge_goals(all, i, who, replies, from) {
            Goals::Ask(e) => Judging::Ask(e),
            Goals::Misfit => Judging::Misfit,
            Goals::Judged(lines, met, at) => Judging::Judged(Some(lines), met, at),
        },
    }
}

/// Judges the outcomes that a mission declares.
pub fn evaluate_outcomes(definition: &Json, instance: &WorkflowInstance, who: &Principal, replies: &Vec<Reply>) -> (r:
    Step<(Option<Vec<Json>>, bool)>)
    requires
        sound(replies@),
    ensures
        r.seen(|x: (Option<Vec<Json>>, bool)| (opt_views(x.0), x.1)) == outcomes_of(
            definition@,
            instance@,
            who@,
            reply_views(replies@),
        ),
{
    proof {
        reveal(rest);
        assert(rest(replies@, 0) =~= reply_views(replies@));
    }
    match judge_outcomes(definition, instance, who, replies, 0) {
        Judging::Ask(e) => Step::Do(e),
        Judging::Misfit => Step::Misfit,
        Judging::Judged(lines, met, _) => Step::Done((lines, met)),
    }
}

/// The marker of a state at which missions end.
pub open spec fn outcome_marker(definition: JsonView, state: Seq<char>) -> Option<Seq<char>> {
    match state_def(definition, state) {
        Some(s) => s.get_str("outcome"@),
        None => None,
    }
}

fn find_marker(definition: &Json, state: &str) -> (r: Option<String>)
    ensures
        opt_string(r) == outcome_marker(definition@, state@),
{
    match find_state(definition, state) {
        Some(s) => match s.get_str("outcome") {
            Some(o) => Some(o.to_owned()),
            None => None,
        },
        None => None,
    }
}

/// Whether a state waits for a person.
pub open spec fn waits_for_human(definition: JsonView, state: Seq<char>) -> bool {
    match state_def(definition, state) {
        Some(s) => s.get_str("actor"@) == Some("human"@),
        None => false,
    }
}

pub fn awaits_human(definition: &Json, state: &str) -> (r: bool)
    ensures
        r == waits_for_human(definition@, state@),
{
    match find_state(definition, state) {
        Some(s) => match s.get_str("actor") {
            Some(a) => same(a, "human"),
            None => false,
        },
        None => false,
    }
}

/// The question how a mission stands.
pub open spec fn status_question(
    definition: JsonView,
    i: InstanceView,
    hint: StatusHint,
    met: bool,
) -> EffectView {
    EffectView::DeriveStatus {
        hint,
        terminal: terminal(definition, i.state),
        outcome: if terminal(definition, i.state) {
            outcome_marker(definition, i.state)
        } else {
            None
        },
        outcomes_met: met,
        awaiting_human: waits_for_human(definition, i.state),
    }
}

fn ask_status(definition: &Json, i: &WorkflowInstance, hint: StatusHint, met: bool) -> (r: Effect)
    ensures
        r@ == status_question(definition@, i@, hint, met),
{
    let at_end = is_terminal(definition, i.state.as_str());
    let outcome = if at_end {
        find_marker(definition, i.state.as_str())
    } else {
        None
    };
    Effect::DeriveStatus {
        hint,
        terminal: at_end,
        outcome,
        outcomes_met: met,
        awaiting_human: awaits_human(definition, i.state.as_str()),
    }
}

/// An object with a member more, if there is one.
pub open spec fn with_some(o: ObjectView, key: Seq<char>, v: Option<JsonView>) -> ObjectView {
    match v {
        Some(v) => o.with(key, v),
        None => o,
    }
}

fn add_some(m: JsonMap, key: &str, v: Option<Json>) -> (r: JsonMap)
    ensures
        forall|o: ObjectView| o.m == m@ ==> r@ == #[trigger] with_some(o, key@, opt_json(v)).m,
{
    match v {
        Some(v) => m.with(key, v),
        None => m,
    }
}

/// A text, if there is one that is not empty.
pub open spec fn nonempty(s: Option<Seq<char>>) -> Option<JsonView> {
    match s {
        Some(s) => if s.len() > 0 {
            Some(JsonView::Str(s))
        } else {
            None
        },
        None => None,
    }
}

fn take_nonempty(s: Option<&str>) -> (r: Option<Json>)
    ensures
        opt_json(r) == nonempty(opt_text(s)),
{
    match s {
        Some(s) => if s.is_empty() {
            None
        } else {
            Some(Json::text(s))
        },
        None => None,
    }
}

/// A text of a state with its places filled in.
pub open spec fn state_words(
    definition: JsonView,
    i: InstanceView,
    key: Seq<char>,
) -> Option<JsonView> {
    match state_def(definition, i.state) {
        Some(s) => match s.get_str(key) {
            Some(text) => Some(JsonView::Str(rendered(text, i))),
            None => None,
        },
        None => None,
    }
}

fn make_state_words(definition: &Json, i: &WorkflowInstance, key: &str) -> (r: Option<Json>)
    ensures
        opt_json(r) == state_words(definition@, i@, key@),
{
    match find_state(definition, i.state.as_str()) {
        Some(s) => match s.get_str(key) {
            Some(text) => Some(Json::Str(render_template(text, i))),
            None => None,
        },
        None => None,
    }
}

/// What a state tells whoever acts next: its goal, its instructions, and its references.
pub open spec fn guidance(definition: JsonView, i: InstanceView) -> Members {
    let refs = guidance_refs(definition, state_def(definition, i.state));
    with_some(
        with_some(
            with_some(obj(), "goal"@, state_words(definition, i, "goal"@)),
            "instructions"@,
            state_words(definition, i, "guidance"@),
        ),
        "refs"@,
        if refs.len() > 0 {
            Some(JsonView::Array(refs))
        } else {
            None
        },
    ).m
}

fn make_guidance(definition: &Json, i: &WorkflowInstance) -> (r: JsonMap)
    ensures
        r@ == guidance(definition@, i@),
{
    broadcast use crate::json::array_view;

    let m = add_some(JsonMap::new(), "goal", make_state_words(definition, i, "goal"));
    let ghost o1 = with_some(obj(), "goal"@, state_words(definition@, i@, "goal"@));
    assert(obj().m =~= Seq::empty());
    assert(m@ == o1.m);
    let m = add_some(m, "instructions", make_state_words(definition, i, "guidance"));
    let ghost o2 = with_some(o1, "instructions"@, state_words(definition@, i@, "guidance"@));
    assert(m@ == o2.m);
    let refs = collect_guidance_refs(definition, find_state(definition, i.state.as_str()));
    assert(views(refs@).len() == refs@.len());
    let refs = if refs.len() > 0 {
        Some(Json::Array(refs))
    } else {
        None
    };
    add_some(m, "refs", refs)
}

/// The agent that a state is handed to.
pub open spec fn delegate(definition: JsonView, state: Seq<char>) -> Option<JsonView> {
    match state_def(definition, state) {
        Some(s) => nonempty(s.get_str("delegate"@)),
        None => None,
    }
}

fn find_delegate(definition: &Json, state: &str) -> (r: Option<Json>)
    ensures
        opt_json(r) == delegate(definition@, state@),
{
    match find_state(definition, state) {
        Some(s) => take_nonempty(s.get_str("delegate")),
        None => None,
    }
}

/// The locks that are held, as they are shown.
pub open spec fn lock_lines(held: Seq<(Seq<char>, Seq<char>)>) -> Seq<JsonView> {
    held.map_values(
        |h: (Seq<char>, Seq<char>)|
            obj().with("file"@, JsonView::Str(h.0)).with("holder"@, JsonView::Str(h.1)).json(),
    )
}

fn list_locks(held: &Vec<(String, String)>) -> (r: Vec<Json>)
    ensures
        views(r@) == lock_lines(crate::runtime::effects::conflict_views(held@)),
{
    let mut out: Vec<Json> = Vec::new();
    let mut k: usize = 0;
    while k < held.len()
        invariant
            k <= held@.len(),
            k == out@.len(),
            forall|j: int|
                0 <= j < k ==> (#[trigger] out@[j])@ == obj().with(
                    "file"@,
                    JsonView::Str(held@[j].0@),
                ).with("holder"@, JsonView::Str(held@[j].1@)).json(),
        decreases held@.len() - k,
    {
        let h = &held[k];
        let line = Json::Object(
            JsonMap::new().with("file", Json::text(h.0.as_str())).with(
                "holder",
                Json::text(h.1.as_str()),
            ),
        );
        out.push(line);
        k = k + 1;
    }
    assert(views(out@) =~= lock_lines(crate::runtime::effects::conflict_views(held@)));
    out
}

/// Who and where an instance is.
pub open spec fn standing(i: InstanceView) -> JsonView {
    obj().with("id"@, JsonView::Str(i.id)).with(
        "definitionId"@,
        JsonView::Str(i.definition_id),
    ).with("definitionVersion"@, JsonView::Str(i.definition_version)).with(
        "state"@,
        JsonView::Str(i.state),
    ).with("version"@, number(i.version)).json()
}

fn make_standing(i: &WorkflowInstance) -> (r: Json)
    ensures
        r@ == standing(i@),
{
    Json::Object(
        JsonMap::new().with("id", Json::text(i.id.as_str())).with(
            "definitionId",
            Json::text(i.definition_id.as_str()),
        ).with("definitionVersion", Json::text(i.definition_version.as_str())).with(
            "state",
            Json::text(i.state.as_str()),
        ).with("version", Json::uint(i.version)),
    )
}

/// What a response is made of beside the instance: how the mission stands, its judged
/// outcomes, the links, an error, and the locks that are held.
pub struct PartsView {
    pub mission: JsonView,
    pub outcomes: Option<Seq<JsonView>>,
    pub links: Seq<JsonView>,
    pub error: Option<JsonView>,
    pub held: Option<Seq<(Seq<char>, Seq<char>)>>,
}

/// The parts of a response.
pub struct Parts {
    pub mission: Json,
    pub outcomes: Option<Vec<Json>>,
    pub links: Vec<Json>,
    pub error: Option<Json>,
    pub held: Option<Vec<(String, String)>>,
}

impl Parts {
    pub open spec fn view(&self) -> PartsView {
        PartsView {
            mission: self.mission@,
            outcomes: opt_views(self.outcomes),
            links: views(self.links@),
            error: opt_json(self.error),
            held: match self.held {
                Some(h) => Some(crate::runtime::effects::conflict_views(h@)),
                None => None,
            },
        }
    }
}

/// The members that every response has.
pub open spec fn common_body(i: InstanceView, p: PartsView) -> ObjectView {
    obj().with("workflow"@, standing(i)).with("result"@, p.mission).with(
        "context"@,
        i.context,
    ).with("links"@, JsonView::Array(p.links)).with("evidence"@, JsonView::Array(Seq::empty()))
}

/// The body of a response.
pub open spec fn body(definition: JsonView, i: InstanceView, p: PartsView) -> Members {
    let o1 = with_some(
        common_body(i, p),
        "outcomes"@,
        match p.outcomes {
            Some(lines) => Some(JsonView::Array(lines)),
            None => None,
        },
    );
    let o2 = with_some(o1, "orchestrator"@, nonempty(definition.get_str("orchestrator"@)));
    let o3 = with_some(
        o2,
        "summary"@,
        match i.context.get_str("summary"@) {
            Some(s) => Some(JsonView::Str(s)),
            None => None,
        },
    );
    let o4 = with_some(o3, "error"@, p.error);
    let o5 = with_some(o4, "delegate"@, delegate(definition, i.state));
    let told = guidance(definition, i);
    let o6 = with_some(
        o5,
        "guidance"@,
        if told.len() > 0 {
            Some(JsonView::Object(told))
        } else {
            None
        },
    );
    with_some(
        o6,
        "locks"@,
        match p.held {
            Some(h) => Some(JsonView::Array(lock_lines(h))),
            None => None,
        },
    ).m
}

fn make_common_body(i: &WorkflowInstance, mission: &Json, links: Vec<Json>) -> (r: JsonMap)
    ensures
        forall|p: PartsView|
            p.mission == mission@ && p.links == views(links@) ==> r@ == #[trigger] common_body(
                i@,
                p,
            ).m,
{
    broadcast use crate::json::array_view;

    let none: Vec<Json> = Vec::new();
    assert(views(none@) =~= Seq::empty());
    JsonMap::new().with("workflow", make_standing(i)).with("result", mission.clone()).with(
        "context",
        i.context.clone(),
    ).with("links", Json::Array(links)).with("evidence", Json::Array(none))
}

/// Puts a response together.
pub fn make_body(definition: &Json, i: &WorkflowInstance, p: Parts) -> (r: JsonMap)
    ensures
        r@ == body(definition@, i@, p@),
{
    broadcast use crate::json::array_view;

    let ghost pv = p@;
    let Parts { mission, outcomes, links, error, held } = p;
    let m = make_common_body(i, &mission, links);
    let ghost o0 = common_body(i@, pv);
    let outcomes = match outcomes {
        Some(lines) => Some(Json::Array(lines)),
        None => None,
    };
    let ghost v1 = opt_json(outcomes);
    let m = add_some(m, "outcomes", outcomes);
    let ghost o1 = with_some(o0, "outcomes"@, v1);
    assert(m@ == o1.m);
    let orchestrator = take_nonempty(definition.get_str("orchestrator"));
    let ghost v2 = opt_json(orchestrator);
    let m = add_some(m, "orchestrator", orchestrator);
    let ghost o2 = with_some(o1, "orchestrator"@, v2);
    assert(m@ == o2.m);
    let summary = match i.context.get_str("summary") {
        Some(s) => Some(Json::text(s)),
        None => None,
    };
    let ghost v3 = opt_json(summary);
    let m = add_some(m, "summary", summary);
    let ghost o3 = with_some(o2, "summary"@, v3);
    assert(m@ == o3.m);
    let ghost v4 = opt_json(error);
    let m = add_some(m, "error", error);
    let ghost o4 = with_some(o3, "error"@, v4);
    assert(m@ == o4.m);
    let handed = find_delegate(definition, i.state.as_str());
    let ghost v5 = opt_json(handed);
    let m = add_some(m, "delegate", handed);
    let ghost o5 = with_some(o4, "delegate"@, v5);
    assert(m@ == o5.m);
    let told = make_guidance(definition, i);
    let told = if !told.is_empty() {
        Some(Json::Object(told))
    } else {
        None
    };
    let ghost v6 = opt_json(told);
    let m = add_some(m, "guidance", told);
    let ghost o6 = with_some(o5, "guidance"@, v6);
    assert(m@ == o6.m);
    let held = match held {
        Some(h) => Some(Json::Array(list_locks(&h))),
        None => None,
    };
    add_some(m, "locks", held)
}

/// What a response is asked for.
pub struct Answer {
    pub definition: Json,
    pub instance: WorkflowInstance,
    pub hint: StatusHint,
    pub error: Option<Json>,
    /// Whether locks are wired.
    pub locks: bool,
    /// Whom it is for.
    pub principal: Principal,
}

/// The model of what a response is asked for.
pub struct AnswerView {
    pub definition: JsonView,
    pub instance: InstanceView,
    pub hint: StatusHint,
    pub error: Option<JsonView>,
    pub locks: bool,
    pub principal: PrincipalView,
}

impl Answer {
    pub open spec fn view(&self) -> AnswerView {
        AnswerView {
            definition: self.definition@,
            instance: self.instance@,
            hint: self.hint,
            error: opt_json(self.error),
            locks: self.locks,
            principal: self.principal@,
        }
    }
}

/// The links are known: the locks are listed, if there are any to list, and the body is put
/// together.
pub open spec fn closing(
    a: AnswerView,
    mission: JsonView,
    outcomes: Option<Seq<JsonView>>,
    links: Seq<JsonView>,
    r: Seq<ReplyView>,
) -> StepView<Members> {
    let parts = PartsView { mission, outcomes, links, error: a.error, held: None };
    if a.locks {
        match first(r) {
            None => StepView::Do(EffectView::ListLocks),
            Some(ReplyView::Held(h)) => StepView::Done(
                body(a.definition, a.instance, PartsView { held: Some(h), ..parts }),
            ),
            _ => StepView::Misfit,
        }
    } else {
        StepView::Done(body(a.definition, a.instance, parts))
    }
}

/// The status is known: the links follow.
pub open spec fn linking(
    a: AnswerView,
    mission: JsonView,
    outcomes: Option<Seq<JsonView>>,
    r: Seq<ReplyView>,
) -> StepView<Members> {
    match first(r) {
        None => StepView::Do(EffectView::ResolvePrefills { instance: a.instance }),
        Some(ReplyView::Prefilled(resolved)) => {
            let all = links_view(a.definition, a.instance, resolved);
            if filters_links(a.definition, a.instance.state) {
                match sift_from(all, 0, Seq::empty(), a.definition, a.instance, a.principal, r.drop_first()) {
                    SiftView::Ask(e) => StepView::Do(e),
                    SiftView::Misfit => StepView::Misfit,
                    SiftView::Kept(kept, left) => closing(a, mission, outcomes, kept, left),
                }
            } else {
                closing(a, mission, outcomes, all, r.drop_first())
            }
        },
        _ => StepView::Misfit,
    }
}

/// The response: the outcomes are judged, the status is derived, the links are chosen, and
/// the body is put together.
pub open spec fn answered(a: AnswerView, r: Seq<ReplyView>) -> StepView<Members> {
    match outcomes_then(a.definition, a.instance, a.principal, r) {
        GoalsThen::Ask(e) => StepView::Do(e),
        GoalsThen::Misfit => StepView::Misfit,
        GoalsThen::Judged(outcomes, met, left) => match first(left) {
            None => StepView::Do(status_question(a.definition, a.instance, a.hint, met)),
            Some(ReplyView::Mission { result, status, reason }) => linking(
                a,
                result,
                outcomes,
                left.drop_first(),
            ),
            _ => StepView::Misfit,
        },
    }
}

fn copy_pairs(v: &Vec<(String, String)>) -> (r: Vec<(String, String)>)
    ensures
        crate::runtime::effects::conflict_views(r@) == crate::runtime::effects::conflict_views(v@),
{
    let mut out: Vec<(String, String)> = Vec::new();
    let mut k: usize = 0;
    while k < v.len()
        invariant
            k <= v@.len(),
            k == out@.len(),
            forall|j: int|
                0 <= j < k ==> (#[trigger] out@[j]).0@ == v@[j].0@ && out@[j].1@ == v@[j].1@,
        decreases v@.len() - k,
    {
        out.push((v[k].0.clone(), v[k].1.clone()));
        k = k + 1;
    }
    assert(crate::runtime::effects::conflict_views(out@)
        =~= crate::runtime::effects::conflict_views(v@));
    out
}

fn do_closing(
    a: &Answer,
    mission: &Json,
    outcomes: Option<Vec<Json>>,
    links: Vec<Json>,
    replies: &Vec<Reply>,
    at: usize,
) -> (r: Step<JsonMap>)
    requires
        at <= replies@.len(),
        sound(replies@),
    ensures
        r.seen(|m: JsonMap| m@) == closing(
            a@,
            mission@,
            opt_views(outcomes),
            views(links@),
            rest(replies@, at as int),
        ),
{
    let error = match &a.error {
        Some(e) => Some(e.clone()),
        None => None,
    };
    if a.locks {
        match reply_at(replies, at) {
            None => Step::Do(Effect::ListLocks),
            Some(Reply::Held(h)) => {
                let p = Parts {
                    mission: mission.clone(),
                    outcomes,
                    links,
                    error,
                    held: Some(copy_pairs(h)),
                };
                Step::Done(make_body(&a.definition, &a.instance, p))
            },
            Some(_) => Step::Misfit,
        }
    } else {
        let p = Parts { mission: mission.clone(), outcomes, links, error, held: None };
        Step::Done(make_body(&a.definition, &a.instance, p))
    }
}

fn do_linking(
    a: &Answer,
    mission: &Json,
    outcomes: Option<Vec<Json>>,
    replies: &Vec<Reply>,
    at: usize,
) -> (r: Step<JsonMap>)
    requires
        at <= replies@.len(),
        sound(replies@),
    ensures
        r.seen(|m: JsonMap| m@) == linking(
            a@,
            mission@,
            opt_views(outcomes),
            rest(replies@, at as int),
        ),
{
    match reply_at(replies, at) {
        None => Step::Do(Effect::ResolvePrefills { instance: a.instance.clone() }),
        Some(Reply::Prefilled(resolved)) => {
            let all = links(&a.definition, &a.instance, resolved);
            if link_filter_byguards(&a.definition, a.instance.state.as_str()) {
                match sift(&all, &a.definition, &a.instance, &a.principal, replies, at + 1) {
                    Sift::Ask(e) => Step::Do(e),
                    Sift::Misfit => Step::Misfit,
                    Sift::Kept(kept, next) => do_closing(a, mission, outcomes, kept, replies, next),
                }
            } else {
                do_closing(a, mission, outcomes, all, replies, at + 1)
            }
        },
        Some(_) => Step::Misfit,
    }
}

/// Builds the response to whoever acted on an instance.
pub fn response(a: &Answer, replies: &Vec<Reply>) -> (r: Step<JsonMap>)
    requires
        sound(replies@),
    ensures
        r.seen(|m: JsonMap| m@) == answered(a@, reply_views(replies@)),
{
    proof {
        reveal(rest);
        assert(rest(replies@, 0) =~= reply_views(replies@));
    }
    match judge_outcomes(&a.definition, &a.instance, &a.principal, replies, 0) {
        Judging::Ask(e) => Step::Do(e),
        Judging::Misfit => Step::Misfit,
        Judging::Judged(outcomes, met, at) => match reply_at(replies, at) {
            None => Step::Do(ask_status(&a.definition, &a.instance, a.hint, met)),
            Some(Reply::Mission { result, status, reason }) => do_linking(
                a,
                result,
                outcomes,
                replies,
                at + 1,
            ),
            Some(_) => Step::Misfit,
        },
    }
}

/// What kind of task a definition says it is.
pub open spec fn task_class(definition: JsonView) -> Option<Seq<char>> {
    match definition.get("process"@) {
        Some(p) => p.as_str(),
        None => definition.get_str("taskClass"@),
    }
}

fn find_task_class(definition: &Json) -> (r: Option<String>)
    ensures
        opt_string(r) == task_class(definition@),
{
    let found = match definition.get("process") {
        Some(p) => p.as_str(),
        None => definition.get_str("taskClass"),
    };
    match found {
        Some(s) => Some(s.to_owned()),
        None => None,
    }
}

/// The report of how a mission ended: its outcomes are judged, its status is derived, and
/// both are written down.
pub open spec fn outcome_report(
    hint: StatusHint,
    definition: JsonView,
    i: InstanceView,
    who: ActingView,
    r: Seq<ReplyView>,
) -> StepView<()> {
    match outcomes_then(definition, i, who.principal, r) {
        GoalsThen::Ask(e) => StepView::Do(e),
        GoalsThen::Misfit => StepView::Misfit,
        GoalsThen::Judged(outcomes, met, left) => match first(left) {
            None => StepView::Do(
                EffectView::DeriveStatus {
                    hint,
                    terminal: true,
                    outcome: outcome_marker(definition, i.state),
                    outcomes_met: met,
                    awaiting_human: false,
                },
            ),
            Some(ReplyView::Mission { result, status, reason }) => match first(left.drop_first()) {
                None => StepView::Do(
                    EffectView::RecordOutcome {
                        correlation_id: who.correlation_id,
                        workflow_id: i.id,
                        definition_id: i.definition_id,
                        task_class: task_class(definition),
                        outcomes_met: met,
                        outcomes_total: match outcomes {
                            Some(lines) => lines.len() as usize,
                            None => 0,
                        },
                        status,
                        reason,
                    },
                ),
                Some(ReplyView::Done(_)) => StepView::Done(()),
                _ => StepView::Misfit,
            },
            _ => StepView::Misfit,
        },
    }
}

/// Reports how a mission ended.
pub fn emit_outcome_recorded(
    hint: StatusHint,
    definition: &Json,
    instance: &WorkflowInstance,
    who: &Acting,
    replies: &Vec<Reply>,
) -> (r: Step<()>)
    requires
        sound(replies@),
    ensures
        r.seen(|u: ()| ()) == outcome_report(hint, definition@, instance@, who@, reply_views(replies@)),
{
    proof {
        reveal(rest);
        assert(rest(replies@, 0) =~= reply_views(replies@));
    }
    match judge_outcomes(definition, instance, &who.principal, replies, 0) {
        Judging::Ask(e) => Step::Do(e),
        Judging::Misfit => Step::Misfit,
        Judging::Judged(outcomes, met, at) => match reply_at(replies, at) {
            None => Step::Do(
                Effect::DeriveStatus {
                    hint,
                    terminal: true,
                    outcome: find_marker(definition, instance.state.as_str()),
                    outcomes_met: met,
                    awaiting_human: false,
                },
            ),
            Some(Reply::Mission { result, status, reason }) => match reply_at(replies, at + 1) {
                None => {
                    let total: usize = match &outcomes {
                        Some(lines) => {
                            assert(views(lines@).len() == lines@.len());
                            lines.len()
                        },
                        None => 0,
                    };
                    Step::Do(
                        Effect::RecordOutcome {
                            correlation_id: who.correlation_id.clone(),
                            workflow_id: instance.id.clone(),
                            definition_id: instance.definition_id.clone(),
                            task_class: find_task_class(definition),
                            outcomes_met: met,
                            outcomes_total: total,
                            status: status.clone(),
                            reason: copy_opt(reason),
                        },
                    )
                },
                Some(Reply::Done(_)) => Step::Done(()),
                Some(_) => Step::Misfit,
            },
            Some(_) => Step::Misfit,
        },
    }
}

} // verus!
