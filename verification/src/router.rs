//! The difficulty router: the fusion point where cost and trust meet. `route(step)` picks the
//! cheapest tier that clears the bar with a rules heuristic, never a model call.
//!
//! Policy: raw perception forces local, sovereign data forces local, a budget breach blocks,
//! the step's kind picks the base tier, and repeated oracle failure escalates up the ladder.

use vstd::prelude::*;
use crate::text::{decimal, push_decimal, push_str, str_eq};
use crate::types::{Content, DataClass, Decision, Effort, Kind, Step};

verus! {

/// The tier ladder, cheapest first. Escalation climbs it.
pub open spec fn ladder(i: int) -> Seq<char> {
    if i == 0 {
        "local"@
    } else if i == 1 {
        "cheap-API"@
    } else {
        "frontier"@
    }
}

/// The position of a tier name on the ladder, or -1 when it is off the ladder.
pub open spec fn ladder_pos(t: Seq<char>) -> int {
    if t == "local"@ {
        0
    } else if t == "cheap-API"@ {
        1
    } else if t == "frontier"@ {
        2
    } else {
        -1
    }
}

/// The highest ladder position in a tier history (off-ladder names ignored), 0 when none.
pub open spec fn max_climbed(h: Seq<String>) -> int
    decreases h.len(),
{
    if h.len() == 0 {
        0
    } else {
        let rest = max_climbed(h.drop_last());
        let p = ladder_pos(h.last()@);
        if p > rest { p } else { rest }
    }
}

/// Whether any part of a step's content is raw perception (not text).
pub open spec fn has_raw_perception(content: Seq<Content>) -> bool {
    exists|i: int| 0 <= i < content.len() && !(content[i] is Text)
}

/// The tier index a step's kind starts from.
pub open spec fn base_index(k: Kind) -> int {
    match k {
        Kind::Scaffolding => 0,
        Kind::CoreWire => 1,
    }
}

/// The ladder index before escalation: the base, or higher if the step already climbed.
pub open spec fn start_index(s: Step) -> int {
    let b = base_index(s.kind);
    let c = max_climbed(s.tier_history@);
    if b > c { b } else { c }
}

/// The label of a step kind used in routing reasons.
pub open spec fn spec_kind_label(k: Kind) -> Seq<char> {
    match k {
        Kind::Scaffolding => "scaffolding"@,
        Kind::CoreWire => "core-wire"@,
    }
}

/// The effort each ladder rung runs with: local samples wide and thinks lean, cheap-API thinks
/// hard, frontier is single-pass.
pub open spec fn spec_effort_n(idx: int) -> u32 {
    if idx == 0 { 8 } else if idx == 1 { 2 } else { 1 }
}

/// The thinking depth each ladder rung runs with (None = provider default).
pub open spec fn spec_effort_thinking(idx: int) -> Option<Seq<char>> {
    if idx == 0 {
        Some("low"@)
    } else if idx == 1 {
        Some("high"@)
    } else {
        None
    }
}

/// Whether an effort is the one the given ladder rung runs with.
pub open spec fn effort_is(e: Effort, idx: int) -> bool {
    &&& e.n == spec_effort_n(idx)
    &&& match (e.thinking, spec_effort_thinking(idx)) {
        (Some(t), Some(u)) => t@ == u,
        (None, None) => true,
        _ => false,
    }
}

/// The reason given when raw perception forces the local tier.
pub open spec fn perception_reason() -> Seq<char> {
    "raw perception is sovereign — forced local (I3, perception)"@
}

/// The reason given when sovereign data forces the local tier.
pub open spec fn sovereign_reason() -> Seq<char> {
    "sovereign data — privacy forces local (I3)"@
}

/// The rules routing policy; `escalate_after` oracle failures on a tier escalate one rung.
pub struct DifficultyRouter {
    pub escalate_after: u32,
}

/// Whether the router escalates a step one rung above its start index.
pub open spec fn escalates(r: DifficultyRouter, s: Step) -> bool {
    s.oracle_failures >= r.escalate_after && start_index(s) + 1 < 3
}

/// The ladder index the router picks for a step that is neither forced local nor blocked.
pub open spec fn routed_index(r: DifficultyRouter, s: Step) -> int {
    if escalates(r, s) { start_index(s) + 1 } else { start_index(s) }
}

/// The reason the router gives for a ladder pick.
pub open spec fn ladder_reason(r: DifficultyRouter, s: Step) -> Seq<char> {
    let t = ladder(routed_index(r, s));
    if escalates(r, s) {
        "escalated to "@ + t + " after "@ + decimal(s.oracle_failures as nat) + " oracle failures"@
    } else {
        spec_kind_label(s.kind) + " → "@ + t
    }
}

/// The full routing decision for a step; `block` carries the reason when the wiring found the
/// step's projected cost over the remaining task budget.
pub open spec fn routes_to(r: DifficultyRouter, s: Step, block: Option<String>, d: Decision) -> bool {
    if has_raw_perception(s.content@) {
        d.tier@ == "local"@ && effort_is(d.effort, 0) && d.reason@ == perception_reason()
    } else if s.data_class == DataClass::Sovereign || s.data_class == DataClass::Phi {
        d.tier@ == "local"@ && effort_is(d.effort, 0) && d.reason@ == sovereign_reason()
    } else if block is Some {
        d.tier@ == "BLOCK"@ && d.effort.n == 1 && d.effort.thinking is None && d.reason@
            == block->0@
    } else {
        let idx = routed_index(r, s);
        d.tier@ == ladder(idx) && effort_is(d.effort, idx) && d.reason@ == ladder_reason(r, s)
    }
}

pub(crate) fn ladder_name(i: usize) -> (r: &'static str)
    requires
        i < 3,
    ensures
        r@ == ladder(i as int),
{
    if i == 0 {
        "local"
    } else if i == 1 {
        "cheap-API"
    } else {
        "frontier"
    }
}

pub(crate) fn ladder_position(t: &str) -> (r: i64)
    ensures
        r == ladder_pos(t@),
{
    if str_eq(t, "local") {
        0
    } else if str_eq(t, "cheap-API") {
        1
    } else if str_eq(t, "frontier") {
        2
    } else {
        -1
    }
}

/// The effort a ladder rung runs with.
pub fn effort_for(idx: usize) -> (e: Effort)
    ensures
        effort_is(e, if idx <= 1 { idx as int } else { 2 }),
{
    if idx == 0 {
        Effort { n: 8, thinking: Some(String::from_str("low")) }
    } else if idx == 1 {
        Effort { n: 2, thinking: Some(String::from_str("high")) }
    } else {
        Effort { n: 1, thinking: None }
    }
}

/// The label of a step kind.
pub fn kind_label(k: Kind) -> (r: &'static str)
    ensures
        r@ == spec_kind_label(k),
{
    match k {
        Kind::Scaffolding => "scaffolding",
        Kind::CoreWire => "core-wire",
    }
}

/// A decision that forces the local tier with the given reason.
pub fn forced_local(reason: &str) -> (d: Decision)
    ensures
        d.tier@ == "local"@,
        effort_is(d.effort, 0),
        d.reason@ == reason@,
{
    Decision { tier: String::from_str("local"), effort: effort_for(0), reason: String::from_str(reason) }
}

impl DifficultyRouter {
    /// A router that escalates after `escalate_after` oracle failures on a tier.
    pub fn new(escalate_after: u32) -> (r: Self)
        ensures
            r.escalate_after == escalate_after,
    {
        DifficultyRouter { escalate_after }
    }

    /// The default router: escalate after two oracle failures.
    pub fn default() -> (r: Self)
        ensures
            r.escalate_after == 2,
    {
        Self::new(2)
    }

    /// Route a step. `block` is `Some(reason)` when its projected cost exceeds the remaining task
    /// budget (the wiring compares those money amounts and words the reason).
    pub fn route(&self, step: &Step, block: Option<String>) -> (d: Decision)
        ensures
            routes_to(*self, *step, block, d),
    {
        // 1. raw perception (image/clip/audio) is sovereign by default: forced local.
        let mut i: usize = 0;
        while i < step.content.len()
            invariant
                i <= step.content@.len(),
                forall|j: int| 0 <= j < i ==> step.content@[j] is Text,
            decreases step.content@.len() - i,
        {
            match &step.content[i] {
                Content::Text { .. } => {},
                _ => {
                    return forced_local("raw perception is sovereign — forced local (I3, perception)");
                },
            }
            i = i + 1;
        }
        // 2. sovereign / PHI data: forced local.
        match step.data_class {
            DataClass::Sovereign | DataClass::Phi => {
                return forced_local("sovereign data — privacy forces local (I3)");
            },
            DataClass::Normal => {},
        }
        // 3. cost governor: a projected-cost breach blocks to the operator.
        if let Some(reason) = block {
            return Decision { tier: String::from_str("BLOCK"), effort: Effort::default(), reason };
        }
        // 4. the kind picks the base tier; the highest rung already climbed is kept.
        let base: usize = match step.kind {
            Kind::Scaffolding => 0,
            Kind::CoreWire => 1,
        };
        let mut climbed: usize = 0;
        let mut k: usize = 0;
        while k < step.tier_history.len()
            invariant
                k <= step.tier_history@.len(),
                climbed == max_climbed(step.tier_history@.take(k as int)),
                climbed < 3,
            decreases step.tier_history@.len() - k,
        {
            let p = ladder_position(step.tier_history[k].as_str());
            assert(step.tier_history@.take(k + 1).drop_last() =~= step.tier_history@.take(k as int));
            if p > climbed as i64 {
                climbed = p as usize;
            }
            k = k + 1;
        }
        assert(step.tier_history@.take(k as int) =~= step.tier_history@);
        let mut idx = if base > climbed { base } else { climbed };
        let escalated = step.oracle_failures >= self.escalate_after && idx + 1 < 3;
        if escalated {
            idx = idx + 1;
        }
        let tier = ladder_name(idx);
        let mut reason = String::new();
        if escalated {
            push_str(&mut reason, "escalated to ");
            push_str(&mut reason, tier);
            push_str(&mut reason, " after ");
            push_decimal(&mut reason, step.oracle_failures as u64);
            push_str(&mut reason, " oracle failures");
        } else {
            push_str(&mut reason, kind_label(step.kind));
            push_str(&mut reason, " → ");
            push_str(&mut reason, tier);
        }
        proof {
            assert(reason@ =~= ladder_reason(*self, *step));
        }
        Decision { tier: String::from_str(tier), effort: effort_for(idx), reason }
    }
}

proof fn lemma_max_climbed_bounds(h: Seq<String>)
    ensures
        0 <= max_climbed(h) <= 2,
    decreases h.len(),
{
    if h.len() > 0 {
        lemma_max_climbed_bounds(h.drop_last());
    }
}

/// Privacy outranks everything: a step carrying raw perception, or sovereign or PHI data, is
/// routed to the local tier, even when the cost governor would block it.
pub proof fn lemma_sovereign_stays_local(r: DifficultyRouter, s: Step, block: Option<String>, d: Decision)
    requires
        routes_to(r, s, block, d),
        has_raw_perception(s.content@) || s.data_class == DataClass::Sovereign || s.data_class == DataClass::Phi,
    ensures
        d.tier@ == "local"@,
{
}

/// The ladder only climbs: a routed step never lands below its kind's base rung or below the
/// highest rung it already reached, it climbs at most one rung per route, only after enough oracle
/// failures, and never past the frontier.
pub proof fn lemma_escalation_climbs_one_rung(r: DifficultyRouter, s: Step)
    ensures
        base_index(s.kind) <= routed_index(r, s),
        max_climbed(s.tier_history@) <= routed_index(r, s),
        routed_index(r, s) <= start_index(s) + 1,
        routed_index(r, s) > start_index(s) ==> s.oracle_failures >= r.escalate_after,
        0 <= routed_index(r, s) <= 2,
{
    lemma_max_climbed_bounds(s.tier_history@);
}

/// A fresh step (no tier history, fewer oracle failures than the escalation bound) with text-only,
/// non-sovereign content and no budget block goes to its kind's own tier: scaffolding to the local
/// tier (eight lean samples), core-wire to the cheap API (two samples, thinking hard), with the
/// reason `<kind> → <tier>`. Whatever its history, a core-wire step so routed never lands on the
/// local tier.
pub proof fn lemma_fresh_step_goes_to_its_kinds_tier(r: DifficultyRouter, s: Step, d: Decision)
    requires
        routes_to(r, s, None, d),
        forall|i: int| 0 <= i < s.content@.len() ==> (#[trigger] s.content@[i]) is Text,
        s.data_class != DataClass::Sovereign,
        s.data_class != DataClass::Phi,
    ensures
        s.tier_history@.len() == 0 && s.oracle_failures < r.escalate_after && s.kind == Kind::CoreWire ==> {
            &&& d.tier@ == "cheap-API"@
            &&& d.effort.n == 2
            &&& d.effort.thinking matches Some(t) && t@ == "high"@
            &&& d.reason@ == "core-wire → cheap-API"@
        },
        s.tier_history@.len() == 0 && s.oracle_failures < r.escalate_after && s.kind == Kind::Scaffolding ==> {
            &&& d.tier@ == "local"@
            &&& d.effort.n == 8
            &&& d.effort.thinking matches Some(t) && t@ == "low"@
            &&& d.reason@ == "scaffolding → local"@
        },
        s.kind == Kind::CoreWire ==> d.tier@ == "cheap-API"@ || d.tier@ == "frontier"@,
{
    assert(!has_raw_perception(s.content@));
    lemma_max_climbed_bounds(s.tier_history@);
    if s.kind == Kind::CoreWire {
        assert(routed_index(r, s) >= 1);
    }
    if s.tier_history@.len() == 0 && s.oracle_failures < r.escalate_after {
        assert(start_index(s) == base_index(s.kind));
        assert(!escalates(r, s));
        reveal_strlit("core-wire");
        reveal_strlit(" → ");
        reveal_strlit("cheap-API");
        reveal_strlit("core-wire → cheap-API");
        reveal_strlit("scaffolding");
        reveal_strlit("local");
        reveal_strlit("scaffolding → local");
        assert("core-wire"@ + " → "@ + "cheap-API"@ =~= "core-wire → cheap-API"@);
        assert("scaffolding"@ + " → "@ + "local"@ =~= "scaffolding → local"@);
    }
}

/// Repeated oracle failure on a fresh step climbs exactly one rung above its kind's tier:
/// scaffolding goes to the cheap API (two samples, thinking hard), core-wire to the frontier
/// (single pass, provider-default thinking), and the reason names the failures.
pub proof fn lemma_failures_climb_one_rung(r: DifficultyRouter, s: Step, d: Decision)
    requires
        routes_to(r, s, None, d),
        forall|i: int| 0 <= i < s.content@.len() ==> (#[trigger] s.content@[i]) is Text,
        s.data_class != DataClass::Sovereign,
        s.data_class != DataClass::Phi,
        s.tier_history@.len() == 0,
        s.oracle_failures >= r.escalate_after,
    ensures
        s.kind == Kind::Scaffolding ==> {
            &&& d.tier@ == "cheap-API"@
            &&& d.effort.n == 2
            &&& d.effort.thinking matches Some(t) && t@ == "high"@
            &&& d.reason@ == "escalated to cheap-API after "@ + decimal(s.oracle_failures as nat)
                + " oracle failures"@
        },
        s.kind == Kind::CoreWire ==> {
            &&& d.tier@ == "frontier"@
            &&& d.effort.n == 1
            &&& d.effort.thinking is None
            &&& d.reason@ == "escalated to frontier after "@ + decimal(s.oracle_failures as nat)
                + " oracle failures"@
        },
{
    assert(!has_raw_perception(s.content@));
    assert(max_climbed(s.tier_history@) == 0);
    assert(start_index(s) == base_index(s.kind));
    assert(escalates(r, s));
    reveal_strlit("escalated to ");
    reveal_strlit(" after ");
    reveal_strlit("cheap-API");
    reveal_strlit("frontier");
    reveal_strlit("escalated to cheap-API after ");
    reveal_strlit("escalated to frontier after ");
    let f = decimal(s.oracle_failures as nat);
    assert("escalated to "@ + "cheap-API"@ + " after "@ =~= "escalated to cheap-API after "@);
    assert("escalated to "@ + "frontier"@ + " after "@ =~= "escalated to frontier after "@);
    assert("escalated to "@ + "cheap-API"@ + " after "@ + f + " oracle failures"@ =~= "escalated to cheap-API after "@
        + f + " oracle failures"@);
    assert("escalated to "@ + "frontier"@ + " after "@ + f + " oracle failures"@ =~= "escalated to frontier after "@
        + f + " oracle failures"@);
}

/// The routing seam a deployment may replace: a step, and the budget block if its projected cost
/// is over what is left, to a decision. The verified difficulty router is the one the engine wires.
pub trait Router {
    fn route(&self, step: &Step, block: Option<String>) -> Decision;
}

impl Router for DifficultyRouter {
    fn route(&self, step: &Step, block: Option<String>) -> (d: Decision) {
        DifficultyRouter::route(self, step, block)
    }
}

} // verus!
