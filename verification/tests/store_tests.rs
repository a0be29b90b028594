use keel::store::{base_rank, is_wiring_fault, tally_traces, tier_rank, TraceRow};
use keel::types::Kind;

fn row(tier: &str, kind: Kind, passed: bool, fail: &str) -> TraceRow {
    let failures = if fail.is_empty() { vec![] } else { vec![fail.to_string()] };
    TraceRow { tier: tier.into(), kind, passed, failures }
}

#[test]
fn tally_rolls_up_turns_tiers_escalations_and_rework() {
    let rows = vec![
        row("local", Kind::Scaffolding, true, ""),
        row("cheap-API", Kind::CoreWire, true, ""),
        row("cheap-API", Kind::Scaffolding, true, ""),
        row("local", Kind::Scaffolding, false, "schema: output is not JSON - rejected"),
        row("local", Kind::Scaffolding, false, "critical step with no applicable correctness oracle - config fault"),
    ];
    let t = tally_traces(&rows);
    assert_eq!(t.turns, 5);
    assert_eq!(t.escalated, 1, "only the third escalated (scaffolding ran above local)");
    assert_eq!(t.rework, 1, "only the fourth is model rework; the config fault is wiring");
    assert_eq!(t.by_tier, vec![("local".to_string(), 3), ("cheap-API".to_string(), 2)]);
}

#[test]
fn tally_of_nothing_is_zero() {
    let t = tally_traces(&vec![]);
    assert_eq!(t.turns, 0);
    assert_eq!(t.escalated, 0);
    assert_eq!(t.rework, 0);
    assert!(t.by_tier.is_empty());
}

#[test]
fn ranks_and_wiring_faults() {
    assert_eq!(tier_rank("local"), 0);
    assert_eq!(tier_rank("cheap-API"), 1);
    assert_eq!(tier_rank("frontier"), 2);
    assert_eq!(tier_rank("mystery"), 0);
    assert_eq!(base_rank(Kind::Scaffolding), 0);
    assert_eq!(base_rank(Kind::CoreWire), 1);
    assert!(is_wiring_fault("unresolved golden_ref(s) [\"x\"] - missing assertion"));
    assert!(is_wiring_fault("a config fault"));
    assert!(!is_wiring_fault("schema: output is not JSON"));
}

#[test]
fn a_failed_turn_with_only_wiring_faults_is_not_rework() {
    let mut r = row("frontier", Kind::CoreWire, false, "config fault");
    r.failures.push("unresolved golden_ref(s) [\"g\"]".into());
    let t = tally_traces(&vec![r, row("frontier", Kind::CoreWire, false, "wrong answer")]);
    assert_eq!(t.rework, 1);
    assert_eq!(t.escalated, 2);
}
