//! The decisions of the canonical closed loop, one turn at a time: assemble, route, chain, verify,
//! checkpoint, emit. The loop itself awaits the injected tiers, oracles, spine and memory; what it
//! decides between those calls stands here: which wired tier runs when the routed one is
//! unplugged, how the caller's thinking and the router's combine, which golden references resolve,
//! how the verdict folds (the sovereignty baseline, fail-closed on a missing assertion, the
//! critical-step guard), and what the step learns for the next route.

use vstd::prelude::*;
use crate::errors::KeelError;
use crate::router::{ladder, ladder_name, ladder_pos, ladder_position};
use crate::text::{decimal, push_decimal, push_str, str_eq, views};
use crate::types::{Assertion, Content, Decision, Effort, Message, Role, Step, Verdict};

verus! {

// ---------------------------------------------------------------------------------------------
// resolving the routed tier to a wired one

/// Whether `name` is among the wired tiers.
pub open spec fn wired_has(wired: Seq<Seq<char>>, name: Seq<char>) -> bool {
    wired.contains(name)
}

/// The highest ladder rung at or below `i` that is wired, walking down.
pub open spec fn wired_at_or_below(wired: Seq<Seq<char>>, i: int) -> Option<int>
    decreases i + 1,
{
    if i < 0 {
        None
    } else if wired.contains(ladder(i)) {
        Some(i)
    } else {
        wired_at_or_below(wired, i - 1)
    }
}

/// The wired tier a turn runs on: the routed tier if wired; else the nearest wired rung walking
/// down the ladder from it; else the default tier if wired; else the first wired tier (in sorted
/// order), or an empty name when nothing is wired.
pub open spec fn resolved_tier(wired: Seq<Seq<char>>, want: Seq<char>, default_tier: Seq<char>) -> Seq<char> {
    if wired.contains(want) {
        want
    } else if ladder_pos(want) >= 0 && wired_at_or_below(wired, ladder_pos(want)) is Some {
        ladder(wired_at_or_below(wired, ladder_pos(want))->0)
    } else if wired.contains(default_tier) {
        default_tier
    } else if wired.len() > 0 {
        wired[0]
    } else {
        seq![]
    }
}

/// Whether `v` holds a string equal to `s`.
fn holds(v: &Vec<String>, s: &str) -> (r: bool)
    ensures
        r == views(v@).contains(s@),
{
    let mut i: usize = 0;
    while i < v.len()
        invariant
            i <= v@.len(),
            forall|j: int| 0 <= j < i ==> v@[j]@ != s@,
        decreases v@.len() - i,
    {
        if str_eq(v[i].as_str(), s) {
            assert(views(v@)[i as int] == s@);
            return true;
        }
        i = i + 1;
    }
    assert(!views(v@).contains(s@)) by {
        assert forall|j: int| 0 <= j < views(v@).len() implies views(v@)[j] != s@ by {
            assert(v@[j]@ != s@);
        }
    }
    false
}

/// Walk down the ladder from `want` to the nearest wired tier (see [`resolved_tier`]). `wired`
/// lists the wired tier names in sorted order.
pub fn resolve_down(wired: &Vec<String>, want: &str, default_tier: &str) -> (r: String)
    ensures
        r@ == resolved_tier(views(wired@), want@, default_tier@),
{
    let ghost w = views(wired@);
    if holds(wired, want) {
        return String::from_str(want);
    }
    let pos = ladder_position(want);
    if pos >= 0 {
        let mut i: i64 = pos;
        while i >= 0
            invariant
                -1 <= i <= pos <= 2,
                pos == ladder_pos(want@),
                w == views(wired@),
                wired_at_or_below(w, pos as int) == wired_at_or_below(w, i as int),
            decreases i + 1,
        {
            let name = ladder_name(i as usize);
            if holds(wired, name) {
                return String::from_str(name);
            }
            i = i - 1;
        }
    }
    if holds(wired, default_tier) {
        return String::from_str(default_tier);
    }
    if wired.len() > 0 {
        wired[0].clone()
    } else {
        String::new()
    }
}

/// A resolved tier is wired whenever any tier is, and never sits above the routed tier on the
/// ladder when a rung at or below it is wired: falling back only walks down.
pub proof fn lemma_resolution_walks_down(wired: Seq<Seq<char>>, want: Seq<char>, default_tier: Seq<char>)
    ensures
        wired.len() > 0 ==> wired.contains(resolved_tier(wired, want, default_tier)),
        !wired.contains(want) && ladder_pos(want) >= 0 && wired_at_or_below(wired, ladder_pos(want)) is Some
            ==> 0 <= ladder_pos(resolved_tier(wired, want, default_tier)) <= ladder_pos(want),
{
    if !wired.contains(want) && ladder_pos(want) >= 0 && wired_at_or_below(wired, ladder_pos(want)) is Some {
        lemma_wired_at_or_below(wired, ladder_pos(want));
    }
    if wired.len() > 0 {
        assert(wired.contains(wired[0]));
        if ladder_pos(want) >= 0 && wired_at_or_below(wired, ladder_pos(want)) is Some {
            lemma_wired_at_or_below(wired, ladder_pos(want));
        }
    }
}

proof fn lemma_wired_at_or_below(wired: Seq<Seq<char>>, i: int)
    ensures
        wired_at_or_below(wired, i) matches Some(j) ==> 0 <= j <= i && j <= 2 || i > 2 && 0 <= j <= i,
        wired_at_or_below(wired, i) matches Some(j) ==> wired.contains(ladder(j)),
    decreases i + 1,
{
    if i >= 0 && !wired.contains(ladder(i)) {
        lemma_wired_at_or_below(wired, i - 1);
    }
}

/// The outcome of routing for one turn: the tier that runs and whether it substitutes for the
/// routed one, or why the turn does not run.
pub open spec fn spec_plan_tier(d: Decision, wired: Seq<Seq<char>>, default_tier: Seq<char>) -> Result<
    (Seq<char>, bool),
    KeelError,
> {
    if d.tier@ == "BLOCK"@ {
        Err(KeelError::BudgetExceeded(d.reason))
    } else {
        let used = resolved_tier(wired, d.tier@, default_tier);
        if !wired.contains(used) {
            Err(KeelError::TierUnavailable(arbitrary()))
        } else {
            Ok((used, used != d.tier@))
        }
    }
}

/// Route a turn to a wired tier: `BLOCK` refuses the turn with `BUDGET_EXCEEDED` carrying the
/// router's reason; otherwise the tier that runs is resolved down the ladder, and a name no slot
/// holds (nothing wired) is `TIER_UNAVAILABLE`.
pub fn plan_tier(d: &Decision, wired: &Vec<String>, default_tier: &str) -> (r: Result<(String, bool), KeelError>)
    ensures
        match spec_plan_tier(*d, views(wired@), default_tier@) {
            Ok((used, sub)) => r matches Ok((u, s)) && u@ == used && s == sub,
            Err(KeelError::BudgetExceeded(reason)) => r matches Err(KeelError::BudgetExceeded(m)) && m@ == reason@,
            Err(_) => r matches Err(KeelError::TierUnavailable(m)) && m@ == "no slot for routed tier '"@
                + resolved_tier(views(wired@), d.tier@, default_tier@) + "'"@,
        },
{
    if str_eq(d.tier.as_str(), "BLOCK") {
        return Err(KeelError::BudgetExceeded(d.reason.clone()));
    }
    let used = resolve_down(wired, d.tier.as_str(), default_tier);
    if !holds(wired, used.as_str()) {
        let mut m = String::from_str("no slot for routed tier '");
        push_str(&mut m, used.as_str());
        push_str(&mut m, "'");
        return Err(KeelError::TierUnavailable(m));
    }
    let sub = !str_eq(used.as_str(), d.tier.as_str());
    Ok((used, sub))
}

/// The engine needs at least one wired tier: none is `SUBSTRATE_UNRESOLVED`.
pub fn require_wired(wired_count: usize) -> (r: Result<(), KeelError>)
    ensures
        wired_count > 0 <==> r is Ok,
        r matches Err(KeelError::SubstrateUnresolved(m)) ==> m@
            == "engine: no tier wired (local substrate down and no cloud keys)"@,
        r is Err ==> r matches Err(KeelError::SubstrateUnresolved(_)),
{
    if wired_count == 0 {
        Err(KeelError::SubstrateUnresolved(
            String::from_str("engine: no tier wired (local substrate down and no cloud keys)"),
        ))
    } else {
        Ok(())
    }
}

/// The effort a turn runs with: single-shot, the caller's explicit thinking overriding the
/// router's pick per tier.
pub fn run_effort(caller_thinking: Option<String>, routed: &Effort) -> (e: Effort)
    ensures
        e.n == 1,
        match caller_thinking {
            Some(t) => e.thinking matches Some(x) && x@ == t@,
            None => match routed.thinking {
                Some(t) => e.thinking matches Some(x) && x@ == t@,
                None => e.thinking is None,
            },
        },
{
    let thinking = match caller_thinking {
        Some(t) => Some(t),
        None => match &routed.thinking {
            Some(t) => Some(t.clone()),
            None => None,
        },
    };
    Effort { n: 1, thinking }
}

// ---------------------------------------------------------------------------------------------
// golden references and the verdict

/// The step's golden references that the registry resolves, in order.
pub open spec fn resolved_refs(refs: Seq<Seq<char>>, known: Seq<Seq<char>>) -> Seq<Seq<char>>
    decreases refs.len(),
{
    if refs.len() == 0 {
        seq![]
    } else if known.contains(refs.last()) {
        resolved_refs(refs.drop_last(), known).push(refs.last())
    } else {
        resolved_refs(refs.drop_last(), known)
    }
}

/// The step's golden references the registry does not hold, in order: missing assertions.
pub open spec fn missing_refs(refs: Seq<Seq<char>>, known: Seq<Seq<char>>) -> Seq<Seq<char>>
    decreases refs.len(),
{
    if refs.len() == 0 {
        seq![]
    } else if known.contains(refs.last()) {
        missing_refs(refs.drop_last(), known)
    } else {
        missing_refs(refs.drop_last(), known).push(refs.last())
    }
}

/// Split a step's golden references into those the registry (its case names) resolves and those
/// it does not.
pub fn partition_refs(refs: &Vec<String>, known: &Vec<String>) -> (r: (Vec<String>, Vec<String>))
    ensures
        views(r.0@) == resolved_refs(views(refs@), views(known@)),
        views(r.1@) == missing_refs(views(refs@), views(known@)),
{
    let mut found: Vec<String> = Vec::new();
    let mut missing: Vec<String> = Vec::new();
    let mut i: usize = 0;
    while i < refs.len()
        invariant
            i <= refs@.len(),
            views(found@) == resolved_refs(views(refs@.take(i as int)), views(known@)),
            views(missing@) == missing_refs(views(refs@.take(i as int)), views(known@)),
        decreases refs@.len() - i,
    {
        proof {
            assert(views(refs@.take(i + 1)).drop_last() =~= views(refs@.take(i as int)));
            assert(views(refs@.take(i + 1)).last() == refs@[i as int]@);
        }
        let name = refs[i].clone();
        let ghost nv = name@;
        if holds(known, name.as_str()) {
            let ghost before = views(found@);
            found.push(name);
            assert(views(found@) =~= before.push(nv));
        } else {
            let ghost before = views(missing@);
            missing.push(name);
            assert(views(missing@) =~= before.push(nv));
        }
        i = i + 1;
    }
    assert(refs@.take(refs@.len() as int) =~= refs@);
    (found, missing)
}

/// How `format!("{:?}", v)` renders a list of strings (each quoted and escaped, comma-separated,
/// in brackets).
pub uninterp spec fn debug_strings(v: Seq<Seq<char>>) -> Seq<char>;

/// Trusted: `<Vec<String> as Debug>::fmt` through `format!`. The rendering is a function of the
/// strings alone and is named, not restated.
#[verifier::external_body]
pub(crate) fn debug_list(v: &Vec<String>) -> (r: String)
    ensures
        r@ == debug_strings(views(v@)),
{
    format!("{v:?}")
}

/// The failure recorded when golden references do not resolve.
pub open spec fn missing_detail(missing: Seq<Seq<char>>) -> Seq<char> {
    "unresolved golden_ref(s) "@ + debug_strings(missing) + " - missing assertion, fail-closed (-> operator)"@
}

/// The failure recorded for a critical step with no correctness assertion.
pub open spec fn critical_detail() -> Seq<char> {
    "critical step with no applicable correctness oracle - config fault (canon 8/10), not a vacuous pass"@
}

pub open spec fn failure_views(v: Verdict) -> Seq<Seq<char>> {
    views(v.failures@)
}

pub open spec fn evidence_views(v: Verdict) -> Seq<(Seq<char>, Seq<char>)> {
    v.evidence@.map_values(|a: Assertion| (a.kind@, a.detail@))
}

/// The verdict of a turn, folded from the correctness oracle's verdict, the sovereignty
/// baseline's (if any: its failures and evidence join, but it never counts as a correctness
/// assertion), a fail-closed entry for unresolved golden references, and the critical-step guard
/// (a critical step whose correctness oracle gave no evidence fails as a config fault).
pub open spec fn spec_fold_verdict(
    v: Verdict,
    baseline: Option<Verdict>,
    missing: Seq<Seq<char>>,
    critical: bool,
) -> (bool, bool, Seq<Seq<char>>, Seq<(Seq<char>, Seq<char>)>) {
    let asserted = v.evidence@.len() > 0;
    let (p1, j1, f1, e1) = match baseline {
        Some(b) => (
            v.passed && b.passed,
            v.joint_wrong || b.joint_wrong,
            failure_views(v) + failure_views(b),
            evidence_views(v) + evidence_views(b),
        ),
        None => (v.passed, v.joint_wrong, failure_views(v), evidence_views(v)),
    };
    let (p2, f2, e2) = if missing.len() > 0 {
        (false, f1.push(missing_detail(missing)), e1.push(("golden_ref"@, missing_detail(missing))))
    } else {
        (p1, f1, e1)
    };
    if critical && !asserted {
        (false, j1, f2.push(critical_detail()), e2.push(("critical"@, critical_detail())))
    } else {
        (p2, j1, f2, e2)
    }
}

fn push_failure(v: &mut Verdict, kind: &str, detail: String)
    ensures
        final(v).passed == false,
        final(v).joint_wrong == old(v).joint_wrong,
        failure_views(*final(v)) == failure_views(*old(v)).push(detail@),
        evidence_views(*final(v)) == evidence_views(*old(v)).push((kind@, detail@)),
{
    v.passed = false;
    let ghost f0 = failure_views(*v);
    let ghost e0 = evidence_views(*v);
    let d2 = detail.clone();
    v.failures.push(detail);
    v.evidence.push(Assertion { kind: String::from_str(kind), detail: d2 });
    assert(failure_views(*v) =~= f0.push(detail@));
    assert(evidence_views(*v) =~= e0.push((kind@, detail@)));
}

/// Fold a turn's verdict (see [`spec_fold_verdict`]). `missing` are the golden references the
/// registry did not resolve.
pub fn fold_verdict(verdict: Verdict, baseline: Option<Verdict>, missing: &Vec<String>, critical: bool) -> (r:
    Verdict)
    ensures
        (r.passed, r.joint_wrong, failure_views(r), evidence_views(r)) == spec_fold_verdict(
            verdict,
            baseline,
            views(missing@),
            critical,
        ),
{
    let ghost v0 = verdict;
    let correctness_asserted = verdict.evidence.len() > 0;
    let mut v = verdict;
    match baseline {
        Some(b) => {
            let ghost f0 = failure_views(v);
            let ghost e0 = evidence_views(v);
            v.passed = v.passed && b.passed;
            v.joint_wrong = v.joint_wrong || b.joint_wrong;
            let mut bf = b.failures;
            let mut be = b.evidence;
            v.failures.append(&mut bf);
            v.evidence.append(&mut be);
            assert(failure_views(v) =~= f0 + failure_views(b));
            assert(evidence_views(v) =~= e0 + evidence_views(b));
        },
        None => {},
    }
    if missing.len() > 0 {
        let mut detail = String::from_str("unresolved golden_ref(s) ");
        let dl = debug_list(missing);
        push_str(&mut detail, dl.as_str());
        push_str(&mut detail, " - missing assertion, fail-closed (-> operator)");
        push_failure(&mut v, "golden_ref", detail);
    }
    if critical && !correctness_asserted {
        let detail = String::from_str(
            "critical step with no applicable correctness oracle - config fault (canon 8/10), not a vacuous pass",
        );
        push_failure(&mut v, "critical", detail);
    }
    v
}

/// A turn passes exactly when the correctness oracle passed, the sovereignty baseline (if any)
/// passed, every golden reference resolved, and a critical step carried a correctness assertion:
/// an unresolved reference fails closed, and the baseline never stands in for correctness.
pub proof fn lemma_verdict_passes_only_when_asserted(
    v: Verdict,
    baseline: Option<Verdict>,
    missing: Seq<Seq<char>>,
    critical: bool,
)
    ensures
        spec_fold_verdict(v, baseline, missing, critical).0 == (v.passed && match baseline {
            Some(b) => b.passed,
            None => true,
        } && missing.len() == 0 && !(critical && v.evidence@.len() == 0)),
{
}

/// What a turn teaches its step for the next route: the tier that ran joins the history, and a
/// failed verdict counts one more oracle failure (saturating).
pub fn feed_back(step: &mut Step, tier_used: String, passed: bool)
    ensures
        views(final(step).tier_history@) == views(old(step).tier_history@).push(tier_used@),
        final(step).oracle_failures == if passed {
            old(step).oracle_failures
        } else if old(step).oracle_failures == u32::MAX {
            u32::MAX
        } else {
            (old(step).oracle_failures + 1) as u32
        },
        final(step).kind == old(step).kind,
        final(step).ty == old(step).ty,
        final(step).trust_required == old(step).trust_required,
        final(step).data_class == old(step).data_class,
        final(step).critical == old(step).critical,
        final(step).source == old(step).source,
        final(step).content == old(step).content,
        final(step).golden_refs == old(step).golden_refs,
{
    let ghost h0 = views(step.tier_history@);
    let ghost tv = tier_used@;
    step.tier_history.push(tier_used);
    assert(views(step.tier_history@) =~= h0.push(tv));
    if !passed {
        step.oracle_failures = step.oracle_failures.saturating_add(1);
    }
}

/// Whether a burst of turns goes on after tick number `ran` (counting from 0): it stops at the
/// first idle tick (every driver idle) and after `max_ticks` ticks in all.
pub fn burst_after_tick(ran: usize, max_ticks: usize, idle: bool) -> (r: bool)
    ensures
        r == (!idle && ran + 1 < max_ticks),
{
    !idle && ran < max_ticks && max_ticks - ran > 1
}

/// The trace id of the `n`-th turn of a run: `{base}-{n}`, so each turn checkpoints as its own run.
pub fn turn_trace_id(base: &str, n: u64) -> (r: String)
    ensures
        r@ == base@ + "-"@ + decimal(n as nat),
{
    let mut r = String::from_str(base);
    push_str(&mut r, "-");
    push_decimal(&mut r, n);
    r
}

/// The messages of the base request for a driver-emitted step: its content as the user turn, or
/// none when it has no content.
pub fn request_messages(step: &Step) -> (r: Vec<Message>)
    ensures
        step.content@.len() == 0 ==> r@.len() == 0,
        step.content@.len() > 0 ==> r@.len() == 1 && r@[0].role == Role::User && r@[0].content@
            == step.content@ && r@[0].name is None && r@[0].reasoning_content is None && r@[0].tool_call_id
            is None,
{
    let mut r: Vec<Message> = Vec::new();
    if step.content.len() > 0 {
        let content = clone_contents(&step.content);
        r.push(Message { role: Role::User, content, name: None, reasoning_content: None, tool_call_id: None });
    }
    r
}

fn clone_content(c: &Content) -> (r: Content)
    ensures
        r == *c,
{
    match c {
        Content::Text { text } => Content::Text { text: text.clone() },
        Content::Image { source } => Content::Image { source: source.clone() },
        Content::Clip { video, frames } => Content::Clip { video: video.clone(), frames: frames.clone() },
        Content::Audio { source } => Content::Audio { source: source.clone() },
    }
}

/// A copy of a message's content parts.
pub fn clone_contents(v: &Vec<Content>) -> (r: Vec<Content>)
    ensures
        r@ == v@,
{
    let mut r: Vec<Content> = Vec::new();
    let mut i: usize = 0;
    while i < v.len()
        invariant
            i <= v@.len(),
            r@ == v@.take(i as int),
        decreases v@.len() - i,
    {
        r.push(clone_content(&v[i]));
        assert(r@ =~= v@.take(i + 1));
        i = i + 1;
    }
    assert(v@.take(v@.len() as int) =~= v@);
    r
}

/// Ring 0 reaches the model as a leading system message: a non-empty assembled preamble is
/// inserted before the request's messages; an empty one adds nothing.
pub fn prepend_system(messages: &mut Vec<Message>, system: String)
    ensures
        system@.len() == 0 ==> final(messages)@ == old(messages)@,
        system@.len() > 0 ==> final(messages)@.len() == old(messages)@.len() + 1 && final(messages)@.subrange(
            1,
            final(messages)@.len() as int,
        ) == old(messages)@ && final(messages)@[0].role == Role::System && final(messages)@[0].content@.len()
            == 1 && (final(messages)@[0].content@[0] matches Content::Text { text } && text@ == system@),
{
    if !system.as_str().is_empty() {
        let mut content: Vec<Content> = Vec::new();
        content.push(Content::Text { text: system });
        messages.insert(
            0,
            Message { role: Role::System, content, name: None, reasoning_content: None, tool_call_id: None },
        );
        assert(messages@.subrange(1, messages@.len() as int) =~= old(messages)@);
    }
}

/// What a turn does next, once the router has allowed it.
#[derive(Clone, Copy, Debug, PartialEq, Eq, Structural)]
pub enum TurnAction {
    /// Run the routed tier through its chain.
    RunTier,
    /// Run the oracles and fold the verdict.
    Verify,
    /// Checkpoint the trace to the spine.
    Checkpoint,
    /// Record the turn on the Tape.
    Record,
    /// Hand the verified trace to the distillation sink.
    Emit,
    /// The turn is over.
    Finish,
}

/// How far a turn has got: whether the tier ran, the verdict (once known), and which of the
/// checkpoint, the Tape record and the emission are done.
#[derive(Clone, Copy, Debug)]
pub struct TurnProgress {
    pub ran: bool,
    pub verdict: Option<bool>,
    pub checkpointed: bool,
    pub recorded: bool,
    pub emitted: bool,
}

/// The next action of a turn: run, verify, checkpoint once, record when there is memory, emit
/// only a passing trace when there is a sink, then finish.
pub open spec fn spec_turn_next(p: TurnProgress, has_memory: bool, has_sink: bool) -> TurnAction {
    if !p.ran {
        TurnAction::RunTier
    } else if p.verdict is None {
        TurnAction::Verify
    } else if !p.checkpointed {
        TurnAction::Checkpoint
    } else if has_memory && !p.recorded {
        TurnAction::Record
    } else if has_sink && p.verdict == Some(true) && !p.emitted {
        TurnAction::Emit
    } else {
        TurnAction::Finish
    }
}

/// The progress after an action (the verdict is what verification found).
pub open spec fn spec_turn_after(p: TurnProgress, a: TurnAction, passed: bool) -> TurnProgress {
    match a {
        TurnAction::RunTier => TurnProgress { ran: true, ..p },
        TurnAction::Verify => TurnProgress { verdict: Some(passed), ..p },
        TurnAction::Checkpoint => TurnProgress { checkpointed: true, ..p },
        TurnAction::Record => TurnProgress { recorded: true, ..p },
        TurnAction::Emit => TurnProgress { emitted: true, ..p },
        TurnAction::Finish => p,
    }
}

impl TurnProgress {
    /// A turn the router has allowed, before its tier runs.
    pub fn new() -> (r: Self)
        ensures
            !r.ran && r.verdict is None && !r.checkpointed && !r.recorded && !r.emitted,
    {
        TurnProgress { ran: false, verdict: None, checkpointed: false, recorded: false, emitted: false }
    }

    /// The next action (see [`spec_turn_next`]).
    pub fn next(&self, has_memory: bool, has_sink: bool) -> (a: TurnAction)
        ensures
            a == spec_turn_next(*self, has_memory, has_sink),
    {
        if !self.ran {
            TurnAction::RunTier
        } else if self.verdict.is_none() {
            TurnAction::Verify
        } else if !self.checkpointed {
            TurnAction::Checkpoint
        } else if has_memory && !self.recorded {
            TurnAction::Record
        } else if has_sink && self.verdict == Some(true) && !self.emitted {
            TurnAction::Emit
        } else {
            TurnAction::Finish
        }
    }

    /// Note that `a` was done; `passed` is the folded verdict when `a` is `Verify`.
    pub fn done(&mut self, a: TurnAction, passed: bool)
        ensures
            *final(self) == spec_turn_after(*old(self), a, passed),
    {
        match a {
            TurnAction::RunTier => { self.ran = true; },
            TurnAction::Verify => { self.verdict = Some(passed); },
            TurnAction::Checkpoint => { self.checkpointed = true; },
            TurnAction::Record => { self.recorded = true; },
            TurnAction::Emit => { self.emitted = true; },
            TurnAction::Finish => {},
        }
    }
}

/// The progress of a turn after `n` steps of the loop.
pub open spec fn turn_after_steps(p: TurnProgress, has_memory: bool, has_sink: bool, passed: bool, n: nat) -> TurnProgress
    decreases n,
{
    if n == 0 {
        p
    } else {
        let q = turn_after_steps(p, has_memory, has_sink, passed, (n - 1) as nat);
        spec_turn_after(q, spec_turn_next(q, has_memory, has_sink), passed)
    }
}

/// The order of a turn: the tier runs before anything is verified, the trace is checkpointed
/// once and only after the verdict, and only a passing trace is emitted, after its checkpoint;
/// from a fresh turn the loop finishes within six steps.
pub proof fn lemma_turn_order(has_memory: bool, has_sink: bool, passed: bool, n: nat)
    ensures
        ({
            let p = turn_after_steps(TurnProgress { ran: false, verdict: None, checkpointed: false, recorded: false, emitted: false }, has_memory, has_sink, passed, n);
            let a = spec_turn_next(p, has_memory, has_sink);
            &&& (a == TurnAction::Verify ==> p.ran)
            &&& (a == TurnAction::Checkpoint ==> p.verdict is Some && !p.checkpointed)
            &&& (a == TurnAction::Record ==> p.checkpointed)
            &&& (a == TurnAction::Emit ==> p.verdict == Some(true) && p.checkpointed && !p.emitted)
            &&& (p.emitted ==> passed && has_sink)
            &&& (p.checkpointed ==> p.verdict is Some)
            &&& (p.verdict is Some ==> p.ran && p.verdict == Some(passed))
            &&& (!p.ran ==> !p.checkpointed && !p.emitted && p.verdict is None)
            &&& p.ran == (n >= 1)
            &&& (p.verdict is Some) == (n >= 2)
            &&& p.checkpointed == (n >= 3)
            &&& p.recorded == (has_memory && n >= 4)
            &&& p.emitted == (has_sink && passed && n >= (if has_memory { 5int } else { 4int }))
            &&& (n >= 5 ==> a == TurnAction::Finish)
        }),
    decreases n,
{
    if n > 0 {
        lemma_turn_order(has_memory, has_sink, passed, (n - 1) as nat);
    }
}

} // verus!
