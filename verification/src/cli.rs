//! The command line's decisions: the step a typed turn becomes, when a manual tier pin must be
//! refused (it skips the router's force-local gate and the verifier), the effort each path asks
//! for, how a routed turn is described, and the daemon's loop: what to do after each tick and when
//! to run memory maintenance. Reading arguments, sleeping and printing stay with the wiring layer.

use vstd::prelude::*;
use crate::text::push_str;
use crate::types::{Content, DataClass, Effort, Kind, Step, Trust};

verus! {

/// The step a typed turn becomes: core wiring or scaffolding, sovereign or normal data, critical
/// when asked, normal trust, the prompt as its one text part, with the given golden references.
pub fn turn_step(ty: &str, source: Option<&str>, core_wire: bool, sovereign: bool, critical: bool, prompt: String, golden_refs: Vec<String>) -> (s: Step)
    ensures
        s.kind == if core_wire { Kind::CoreWire } else { Kind::Scaffolding },
        s.ty@ == ty@,
        s.trust_required == Trust::Normal,
        s.data_class == if sovereign { DataClass::Sovereign } else { DataClass::Normal },
        s.tier_history@.len() == 0,
        s.oracle_failures == 0,
        s.critical == critical,
        match source {
            Some(src) => s.source matches Some(x) && x@ == src@,
            None => s.source is None,
        },
        s.content@.len() == 1,
        s.content@[0] matches Content::Text { text } && text@ == prompt@,
        s.golden_refs@ == golden_refs@,
{
    let mut content: Vec<Content> = Vec::new();
    content.push(Content::Text { text: prompt });
    Step {
        kind: if core_wire { Kind::CoreWire } else { Kind::Scaffolding },
        ty: String::from_str(ty),
        trust_required: Trust::Normal,
        data_class: if sovereign { DataClass::Sovereign } else { DataClass::Normal },
        tier_history: Vec::new(),
        oracle_failures: 0,
        critical,
        source: match source {
            Some(src) => Some(String::from_str(src)),
            None => None,
        },
        content,
        golden_refs,
    }
}

/// Why a manual tier pin is refused.
#[derive(Clone, Copy, Debug, PartialEq, Eq, Structural)]
pub enum OverrideRefusal {
    /// `--sovereign` with a pinned tier that is not local: the pin skips the force-local gate.
    SovereignOffLocal,
    /// `--critical` or a golden reference: the pin skips the verifier.
    NeedsVerifier,
}

/// Whether a manual tier pin must be refused rather than silently void a flag: sovereignty needs
/// a local pin; criticality and golden references need the self-driving path.
pub fn override_refusal(sovereign: bool, pinned_is_local: bool, critical: bool, golden_refs: usize) -> (r: Option<
    OverrideRefusal,
>)
    ensures
        r == if sovereign && !pinned_is_local {
            Some(OverrideRefusal::SovereignOffLocal)
        } else if critical || golden_refs > 0 {
            Some(OverrideRefusal::NeedsVerifier)
        } else {
            None
        },
{
    if sovereign && !pinned_is_local {
        Some(OverrideRefusal::SovereignOffLocal)
    } else if critical || golden_refs > 0 {
        Some(OverrideRefusal::NeedsVerifier)
    } else {
        None
    }
}

/// The effort of a manually pinned turn: thinking `high` with `--think`, else `low` (the pin has
/// no router to choose).
pub fn manual_effort(think: bool) -> (e: Effort)
    ensures
        e.n == 1,
        e.thinking matches Some(t) && t@ == if think { "high"@ } else { "low"@ },
{
    Effort { n: 1, thinking: Some(String::from_str(if think { "high" } else { "low" })) }
}

/// The effort of a routed turn: thinking `high` with `--think`, else left to the router.
pub fn routed_effort(think: bool) -> (e: Effort)
    ensures
        e.n == 1,
        think ==> (e.thinking matches Some(t) && t@ == "high"@),
        !think ==> e.thinking is None,
{
    if think {
        Effort { n: 1, thinking: Some(String::from_str("high")) }
    } else {
        Effort { n: 1, thinking: None }
    }
}

/// How a routed turn is described: the route's reason, and the fallback when the chosen tier was
/// not wired.
pub open spec fn route_note_text(reason: Seq<char>, substituted: bool, chosen: Seq<char>, used: Seq<char>) -> Seq<char> {
    if substituted {
        reason + " - chosen tier '"@ + chosen + "' unavailable, fell back to '"@ + used + "'"@
    } else {
        reason
    }
}

/// Describe a routed turn (see [`route_note_text`]).
pub fn route_note(reason: &str, substituted: bool, chosen: &str, used: &str) -> (r: String)
    ensures
        r@ == route_note_text(reason@, substituted, chosen@, used@),
{
    let mut r = String::from_str(reason);
    if substituted {
        push_str(&mut r, " - chosen tier '");
        push_str(&mut r, chosen);
        push_str(&mut r, "' unavailable, fell back to '");
        push_str(&mut r, used);
        push_str(&mut r, "'");
    }
    r
}

/// The one-word verdict of a turn: `JOINT_WRONG` first, then `pass` or `FAIL`.
pub fn verdict_word(passed: bool, joint_wrong: bool) -> (r: &'static str)
    ensures
        r@ == if joint_wrong { "JOINT_WRONG"@ } else if passed { "pass"@ } else { "FAIL"@ },
{
    if joint_wrong {
        "JOINT_WRONG"
    } else if passed {
        "pass"
    } else {
        "FAIL"
    }
}

// ---------------------------------------------------------------------------------------------
// the daemon loop

/// What one tick of the daemon came to.
#[derive(Clone, Copy, Debug, PartialEq, Eq, Structural)]
pub enum TickEvent {
    /// A driver emitted a step and the turn ran.
    Ran,
    /// Every driver was idle.
    Idle,
    /// The turn failed.
    Failed,
}

/// What the daemon does next.
#[derive(Clone, Copy, Debug, PartialEq, Eq, Structural)]
pub enum DaemonAction {
    /// Tick again at once.
    Continue,
    /// Sleep one interval, then tick again.
    Sleep,
    /// Stop the loop.
    Stop,
}

/// The daemon's counters and bound.
#[derive(Clone, Copy, Debug, PartialEq, Eq, Structural)]
pub struct DaemonLoop {
    /// Turns run so far.
    pub ran: usize,
    pub max_ticks: usize,
    pub perpetual: bool,
}

/// The daemon's next state and action after a tick: a run turn counts, and the loop stops once a
/// bounded daemon has run its `max_ticks`; an idle poll sleeps while turns are still owed (or
/// forever when perpetual) and otherwise stops; a failed turn stops the loop.
pub open spec fn spec_after_tick(s: DaemonLoop, e: TickEvent) -> (DaemonLoop, DaemonAction) {
    match e {
        TickEvent::Ran => {
            let n = DaemonLoop { ran: (s.ran + 1) as usize, ..s };
            (n, if !s.perpetual && n.ran >= s.max_ticks { DaemonAction::Stop } else { DaemonAction::Continue })
        },
        TickEvent::Idle => (s, if s.perpetual || s.ran < s.max_ticks { DaemonAction::Sleep } else { DaemonAction::Stop }),
        TickEvent::Failed => (s, DaemonAction::Stop),
    }
}

impl DaemonLoop {
    /// A daemon that has run nothing yet.
    pub fn new(max_ticks: usize, perpetual: bool) -> (r: Self)
        ensures
            r == (DaemonLoop { ran: 0, max_ticks, perpetual }),
    {
        DaemonLoop { ran: 0, max_ticks, perpetual }
    }

    /// Fold a tick's event into the loop (see [`spec_after_tick`]).
    pub fn after_tick(&mut self, e: TickEvent) -> (a: DaemonAction)
        requires
            old(self).ran < usize::MAX,
        ensures
            (*final(self), a) == spec_after_tick(*old(self), e),
    {
        match e {
            TickEvent::Ran => {
                self.ran = self.ran + 1;
                if !self.perpetual && self.ran >= self.max_ticks {
                    DaemonAction::Stop
                } else {
                    DaemonAction::Continue
                }
            },
            TickEvent::Idle => if self.perpetual || self.ran < self.max_ticks {
                DaemonAction::Sleep
            } else {
                DaemonAction::Stop
            },
            TickEvent::Failed => DaemonAction::Stop,
        }
    }
}

/// Which memory upkeep follows a run turn of the daemon.
#[derive(Clone, Copy, Debug, PartialEq, Eq, Structural)]
pub enum Upkeep {
    /// The fixed cadence is due: run one consolidation turn.
    Consolidate,
    /// The fixed cadence is set but not due: nothing.
    Skip,
    /// No fixed cadence: the maintenance policy decides.
    Policy,
}

/// The upkeep after the `ran`-th turn: with `--consolidate-every n` (n > 0) a consolidation every
/// n-th turn and nothing between; without it, the maintenance policy.
pub fn daemon_upkeep(consolidate_every: usize, ran: usize) -> (u: Upkeep)
    ensures
        u == if consolidate_every > 0 {
            if ran % consolidate_every == 0 { Upkeep::Consolidate } else { Upkeep::Skip }
        } else {
            Upkeep::Policy
        },
{
    if consolidate_every > 0 {
        if ran % consolidate_every == 0 {
            Upkeep::Consolidate
        } else {
            Upkeep::Skip
        }
    } else {
        Upkeep::Policy
    }
}

/// A bounded daemon never runs more turns than its bound: from a state within the bound, every
/// tick leaves it within the bound, and a run turn that reaches the bound stops the loop.
pub proof fn lemma_bounded_daemon_stops_at_max(s: DaemonLoop, e: TickEvent)
    requires
        !s.perpetual,
        s.ran < s.max_ticks,
    ensures
        spec_after_tick(s, e).0.ran <= s.max_ticks,
        spec_after_tick(s, e).0.ran == s.max_ticks ==> spec_after_tick(s, e).1 == DaemonAction::Stop,
        e == TickEvent::Idle ==> spec_after_tick(s, e).1 == DaemonAction::Sleep,
{
}

} // verus!
