//! The memory autopilot's cursor transitions: what a stored consolidation and a cold-eyes reply
//! do to the durable cursor, and what a cold-eyes reply leads to (confirm, correct once, or
//! surface persistent drift).

use vstd::prelude::*;
use crate::maintenance::{MaintState, MaintenanceStats};

verus! {

/// What a cold-eyes reply leads to.
#[derive(Clone, Copy, Debug, PartialEq, Eq, Structural)]
pub enum ColdEyesAction {
    /// The narrative is consistent with the Tape: any pending drift is cleared.
    Confirmed,
    /// Fresh drift: run one corrective consolidation.
    Correct,
    /// Drift again after a correction: persistent drift, surfaced and never re-corrected in a loop.
    Surface,
}

/// The cursor after a cold-eyes reply, and what it leads to: the cadence counter resets; a
/// consistent reply clears pending drift; drift is corrected once, and drift again while a
/// correction is pending is surfaced instead.
pub open spec fn spec_after_cold_eyes(s: MaintState, consistent: bool) -> (MaintState, ColdEyesAction) {
    let reset = MaintState { consolidations_since_cold_eyes: 0, ..s };
    if consistent {
        (MaintState { pending_drift: false, ..reset }, ColdEyesAction::Confirmed)
    } else if s.pending_drift {
        (reset, ColdEyesAction::Surface)
    } else {
        (MaintState { pending_drift: true, ..reset }, ColdEyesAction::Correct)
    }
}

impl MaintState {
    /// Record a stored consolidation at `turns_total` Tape turns: the cursor moves there and one
    /// more consolidation awaits validation.
    pub fn after_consolidation(&mut self, turns_total: usize)
        ensures
            final(self).last_consolidated_turns == turns_total,
            final(self).consolidations_since_cold_eyes == if old(self).consolidations_since_cold_eyes < usize::MAX {
                old(self).consolidations_since_cold_eyes + 1
            } else {
                usize::MAX as int
            },
            final(self).pending_drift == old(self).pending_drift,
    {
        self.last_consolidated_turns = turns_total;
        if self.consolidations_since_cold_eyes < usize::MAX {
            self.consolidations_since_cold_eyes = self.consolidations_since_cold_eyes + 1;
        }
    }

    /// Record a cold-eyes reply (see [`spec_after_cold_eyes`]).
    pub fn after_cold_eyes(&mut self, consistent: bool) -> (a: ColdEyesAction)
        ensures
            (*final(self), a) == spec_after_cold_eyes(*old(self), consistent),
    {
        self.consolidations_since_cold_eyes = 0;
        if consistent {
            self.pending_drift = false;
            ColdEyesAction::Confirmed
        } else if self.pending_drift {
            ColdEyesAction::Surface
        } else {
            self.pending_drift = true;
            ColdEyesAction::Correct
        }
    }

    /// The policy's inputs: the cursor's counters with the observed Tape size, context pressure,
    /// session boundary and narrative presence.
    pub fn stats(&self, turns_total: usize, ring2_over_budget: bool, session_end: bool, has_narrative: bool) -> (r:
        MaintenanceStats)
        ensures
            r.turns_total == turns_total,
            r.last_consolidated_turns == self.last_consolidated_turns,
            r.consolidations_since_cold_eyes == self.consolidations_since_cold_eyes,
            r.ring2_over_budget == ring2_over_budget,
            r.session_end == session_end,
            r.has_narrative == has_narrative,
    {
        MaintenanceStats {
            turns_total,
            last_consolidated_turns: self.last_consolidated_turns,
            consolidations_since_cold_eyes: self.consolidations_since_cold_eyes,
            ring2_over_budget,
            session_end,
            has_narrative,
        }
    }
}

/// Drift is corrected at most once before it is confirmed away: after a correction, drift again
/// is surfaced (not corrected), and it keeps being surfaced until a cold-eyes pass is consistent.
pub proof fn lemma_drift_is_corrected_once(s: MaintState)
    requires
        !s.pending_drift,
    ensures
        spec_after_cold_eyes(s, false).1 == ColdEyesAction::Correct,
        spec_after_cold_eyes(spec_after_cold_eyes(s, false).0, false).1 == ColdEyesAction::Surface,
        spec_after_cold_eyes(spec_after_cold_eyes(spec_after_cold_eyes(s, false).0, false).0, false).1
            == ColdEyesAction::Surface,
        spec_after_cold_eyes(spec_after_cold_eyes(s, false).0, true).1 == ColdEyesAction::Confirmed,
        !spec_after_cold_eyes(spec_after_cold_eyes(s, false).0, true).0.pending_drift,
{
}

} // verus!
