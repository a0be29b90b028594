use keel::maintenance::{parse_cold_eyes, strip_think, MaintState, Maintenance, MaintenancePolicy, MaintenanceStats};
use keel::upkeep::ColdEyesAction;

fn policy() -> MaintenancePolicy {
    MaintenancePolicy { consolidate_every_turns: 24, session_end_min_turns: 4, cold_eyes_every: 4 }
}

#[test]
fn consolidates_after_every_n_turns() {
    let p = policy();
    let mut s = MaintenanceStats { turns_total: 30, last_consolidated_turns: 10, ..MaintenanceStats::default() };
    assert_eq!(p.due(&s), None, "19 new turns < 24 and no other trigger");
    s.turns_total = 34;
    assert_eq!(p.due(&s), Some(Maintenance::Consolidate), "24 new turns -> consolidate");
}

#[test]
fn session_end_and_budget_pressure_need_the_minimum_new_turns() {
    let p = policy();
    let mut s = MaintenanceStats {
        turns_total: 12,
        last_consolidated_turns: 10,
        session_end: true,
        ..MaintenanceStats::default()
    };
    assert_eq!(p.due(&s), None, "2 new turns < the session-end minimum of 4");
    s.turns_total = 14;
    assert_eq!(p.due(&s), Some(Maintenance::Consolidate), "session end + >=4 new turns");
    let s2 = MaintenanceStats {
        turns_total: 15,
        last_consolidated_turns: 10,
        ring2_over_budget: true,
        ..MaintenanceStats::default()
    };
    assert_eq!(p.due(&s2), Some(Maintenance::Consolidate));
    let s3 = MaintenanceStats {
        turns_total: 10,
        last_consolidated_turns: 10,
        session_end: true,
        ring2_over_budget: true,
        ..MaintenanceStats::default()
    };
    assert_eq!(p.due(&s3), None);
}

#[test]
fn cold_eyes_runs_on_the_consolidation_cadence_only_with_a_narrative() {
    let p = policy();
    let mut s = MaintenanceStats {
        turns_total: 11,
        last_consolidated_turns: 10,
        consolidations_since_cold_eyes: 4,
        has_narrative: true,
        ..MaintenanceStats::default()
    };
    assert_eq!(p.due(&s), Some(Maintenance::ColdEyes), "cadence reached + a narrative exists");
    s.has_narrative = false;
    assert_eq!(p.due(&s), None, "nothing to validate before the first consolidation");
    s.has_narrative = true;
    s.consolidations_since_cold_eyes = 3;
    assert_eq!(p.due(&s), None, "cadence not reached");
    s.consolidations_since_cold_eyes = 9;
    s.turns_total = 40;
    assert_eq!(p.due(&s), Some(Maintenance::Consolidate));
}

#[test]
fn parse_cold_eyes_splits_consistent_from_drift() {
    assert!(parse_cold_eyes("CONSISTENT").consistent);
    assert!(parse_cold_eyes("  consistent - every claim is supported").consistent, "case/prefix tolerant");
    let v = parse_cold_eyes("The narrative claims X happened.\n\nIt also claims Y.");
    assert!(!v.consistent);
    assert_eq!(v.findings.len(), 2, "non-empty lines become findings");
    assert!(parse_cold_eyes("   ").consistent, "an empty reply flags nothing (no invented drift)");
    assert!(parse_cold_eyes("<think>\n\n</think>\nCONSISTENT").consistent, "a leading think-block is stripped");
    assert!(!parse_cold_eyes("<think>hm</think>\nclaim X is unsupported").consistent);
    let long = (0..40).map(|i| format!("claim {i}")).collect::<Vec<_>>().join("\n");
    assert_eq!(parse_cold_eyes(&long).findings.len(), 16, "findings are bounded");
}

#[test]
fn disabled_triggers_never_fire() {
    let off = MaintenancePolicy { consolidate_every_turns: 0, session_end_min_turns: 4, cold_eyes_every: 0 };
    let s = MaintenanceStats {
        turns_total: 1000,
        consolidations_since_cold_eyes: 99,
        has_narrative: true,
        ..MaintenanceStats::default()
    };
    assert_eq!(off.due(&s), None, "0 disables a trigger");
}

#[test]
fn strip_think_drops_a_closed_leading_block_and_empties_an_unclosed_one() {
    assert_eq!(strip_think("<think>plan</think>  answer"), "answer");
    assert_eq!(strip_think("  <think>still going"), "");
    assert_eq!(strip_think("no block here"), "no block here");
}

#[test]
fn drift_is_corrected_once_then_surfaced_until_confirmed() {
    let mut s = MaintState::default();
    s.after_consolidation(10);
    assert_eq!(s.last_consolidated_turns, 10);
    assert_eq!(s.consolidations_since_cold_eyes, 1);
    assert_eq!(s.after_cold_eyes(false), ColdEyesAction::Correct);
    assert!(s.pending_drift);
    assert_eq!(s.consolidations_since_cold_eyes, 0);
    assert_eq!(s.after_cold_eyes(false), ColdEyesAction::Surface);
    assert_eq!(s.after_cold_eyes(false), ColdEyesAction::Surface);
    assert_eq!(s.after_cold_eyes(true), ColdEyesAction::Confirmed);
    assert!(!s.pending_drift);
    let st = s.stats(14, true, false, true);
    assert_eq!(st.turns_total, 14);
    assert_eq!(st.last_consolidated_turns, 10);
    assert!(st.ring2_over_budget && st.has_narrative && !st.session_end);
}

#[test]
fn cold_eyes_never_revalidates_an_unchanged_register() {
    let p = MaintenancePolicy { consolidate_every_turns: 24, session_end_min_turns: 4, cold_eyes_every: 4 };
    let s = MaintenanceStats {
        turns_total: 10,
        last_consolidated_turns: 10,
        consolidations_since_cold_eyes: 4,
        ring2_over_budget: false,
        session_end: false,
        has_narrative: true,
    };
    assert_eq!(p.due(&s), None, "zero new turns: the cadence alone does not re-validate");
}
