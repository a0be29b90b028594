use keel::engine::{
    feed_back, fold_verdict, partition_refs, plan_tier, prepend_system, request_messages, require_wired, resolve_down,
    run_effort, turn_trace_id, burst_after_tick, TurnAction, TurnProgress,
};
use keel::errors::KeelError;
use keel::oracles::{check_property, fold_verdicts, GoldenOracle, PropertyOracle, SourceOracle};
use keel::router::DifficultyRouter;
use keel::types::{Assertion, Content, DataClass, Decision, Effort, Kind, Message, Role, Step, Trust, Verdict};

fn base_step() -> Step {
    Step {
        kind: Kind::Scaffolding,
        ty: "user_turn".into(),
        trust_required: Trust::Normal,
        data_class: DataClass::Normal,
        tier_history: vec![],
        oracle_failures: 0,
        critical: false,
        source: None,
        content: vec![],
        golden_refs: vec![],
    }
}

fn wired(names: &[&str]) -> Vec<String> {
    names.iter().map(|s| s.to_string()).collect()
}

fn decision(tier: &str) -> Decision {
    Decision { tier: tier.into(), effort: Effort::default(), reason: "fixed".into() }
}

fn pass(evidence: bool) -> Verdict {
    Verdict {
        passed: true,
        failures: vec![],
        joint_wrong: false,
        evidence: if evidence { vec![Assertion { kind: "golden".into(), detail: "ok".into() }] } else { vec![] },
    }
}

#[test]
fn unplugged_tier_falls_back_down_the_ladder() {
    let w = wired(&["local"]);
    let (used, sub) = plan_tier(&decision("frontier"), &w, "local").unwrap();
    assert_eq!(used, "local");
    assert!(sub, "the routed tier was unplugged");
    let w2 = wired(&["cheap-API", "local"]);
    assert_eq!(resolve_down(&w2, "frontier", "local"), "cheap-API");
    assert_eq!(resolve_down(&w2, "cheap-API", "local"), "cheap-API");
    assert_eq!(resolve_down(&w2, "mystery", "local"), "local", "off-ladder names fall back to the default");
    assert_eq!(resolve_down(&wired(&["zeta"]), "mystery", "local"), "zeta", "else any wired tier");
}

#[test]
fn block_decision_is_budget_exceeded() {
    let d = Decision { tier: "BLOCK".into(), effort: Effort::default(), reason: "over budget".into() };
    match plan_tier(&d, &wired(&["local"]), "local") {
        Err(KeelError::BudgetExceeded(m)) => assert_eq!(m, "over budget"),
        other => panic!("expected BUDGET_EXCEEDED, got {other:?}"),
    }
    match plan_tier(&decision("local"), &vec![], "local") {
        Err(e) => assert_eq!(e.code(), "TIER_UNAVAILABLE"),
        Ok(_) => panic!("nothing wired cannot run"),
    }
    assert_eq!(require_wired(0).unwrap_err().code(), "SUBSTRATE_UNRESOLVED");
    assert!(require_wired(1).is_ok());
}

#[test]
fn caller_thinking_overrides_the_routed_effort() {
    let routed = Effort { n: 8, thinking: Some("low".into()) };
    let e = run_effort(Some("max".into()), &routed);
    assert_eq!(e.n, 1);
    assert_eq!(e.thinking.as_deref(), Some("max"));
    let e2 = run_effort(None, &routed);
    assert_eq!(e2.thinking.as_deref(), Some("low"));
    assert_eq!(e2.n, 1, "best-of-N ships off");
}

#[test]
fn unresolved_golden_ref_fails_closed() {
    let (found, missing) = partition_refs(&wired(&["GOLDEN_A", "NOPE"]), &wired(&["GOLDEN_A"]));
    assert_eq!(found, vec!["GOLDEN_A".to_string()]);
    assert_eq!(missing, vec!["NOPE".to_string()]);
    let v = fold_verdict(pass(true), None, &missing, false);
    assert!(!v.passed, "a named-but-missing assertion is a hole, never a vacuous pass");
    assert!(v.failures.iter().any(|f| f.contains("unresolved golden_ref(s) [\"NOPE\"]")));
    assert!(v.evidence.iter().any(|a| a.kind == "golden_ref"));
}

#[test]
fn resolved_golden_ref_does_not_fail_closed() {
    let (_, missing) = partition_refs(&wired(&["GOLDEN_A"]), &wired(&["GOLDEN_A"]));
    assert!(missing.is_empty());
    assert!(fold_verdict(pass(true), None, &missing, false).passed);
}

#[test]
fn critical_step_with_no_oracle_is_config_fault() {
    let v = fold_verdict(pass(false), None, &vec![], true);
    assert!(!v.passed);
    assert!(v.failures.iter().any(|f| f.contains("config fault")));
    assert!(v.evidence.iter().any(|a| a.kind == "critical"));
}

#[test]
fn critical_step_with_an_asserting_oracle_passes() {
    assert!(fold_verdict(pass(true), None, &vec![], true).passed);
}

#[test]
fn baseline_does_not_satisfy_critical_step() {
    let v = fold_verdict(pass(false), Some(pass(true)), &vec![], true);
    assert!(!v.passed, "the sovereignty baseline never stands in for a correctness oracle");
    let failing_baseline = Verdict { passed: false, failures: vec!["ssn".into()], joint_wrong: false, evidence: vec![] };
    let v2 = fold_verdict(pass(true), Some(failing_baseline), &vec![], false);
    assert!(!v2.passed);
    assert_eq!(v2.failures, vec!["ssn".to_string()]);
}

#[test]
fn plain_turn_passes_silently() {
    let v = fold_verdict(pass(false), None, &vec![], false);
    assert!(v.passed);
    assert!(v.failures.is_empty());
}

#[test]
fn the_failure_alarm_is_ascii() {
    let v = fold_verdict(pass(false), None, &wired(&["X"]), true);
    for f in &v.failures {
        assert!(f.is_ascii(), "alarm must render on any console: {f}");
    }
}

#[test]
fn oracle_failure_escalates_on_the_next_turn() {
    let mut s = base_step();
    feed_back(&mut s, "local".into(), false);
    assert_eq!(s.tier_history, vec!["local".to_string()]);
    assert_eq!(s.oracle_failures, 1);
    feed_back(&mut s, "local".into(), true);
    assert_eq!(s.oracle_failures, 1, "a pass does not count a failure");
    s.oracle_failures = u32::MAX;
    feed_back(&mut s, "local".into(), false);
    assert_eq!(s.oracle_failures, u32::MAX, "saturating");
}

#[test]
fn escalates_up_the_ladder_on_repeated_failure() {
    let r = DifficultyRouter::new(2);
    let mut s = base_step();
    s.oracle_failures = 2;
    let d = r.route(&s, None);
    assert_eq!(d.tier, "cheap-API");
    s.tier_history = vec!["cheap-API".into()];
    let d2 = r.route(&s, None);
    assert_eq!(d2.tier, "frontier");
}

#[test]
fn sovereign_and_perception_force_local() {
    let r = DifficultyRouter::default();
    let mut s = base_step();
    s.kind = Kind::CoreWire;
    s.data_class = DataClass::Sovereign;
    assert_eq!(r.route(&s, Some("over budget".into())).tier, "local");
    let mut p = base_step();
    p.content = vec![Content::Audio { source: "a.wav".into() }];
    assert_eq!(r.route(&p, None).tier, "local");
    let b = base_step();
    assert_eq!(r.route(&b, Some("over budget".into())).tier, "BLOCK");
}

#[test]
fn request_from_step_maps_content_to_a_user_turn() {
    let mut s = base_step();
    assert!(request_messages(&s).is_empty(), "empty content -> no user message");
    s.content = vec![Content::Text { text: "hi".into() }];
    let m = request_messages(&s);
    assert_eq!(m.len(), 1);
    assert!(matches!(m[0].role, Role::User));
}

#[test]
fn memory_prepends_ring0_system() {
    let mut msgs = vec![Message {
        role: Role::User,
        content: vec![Content::Text { text: "q".into() }],
        name: None,
        reasoning_content: None,
        tool_call_id: None,
    }];
    prepend_system(&mut msgs, String::new());
    assert_eq!(msgs.len(), 1, "an empty preamble adds nothing");
    prepend_system(&mut msgs, "You are KEEL.".into());
    assert_eq!(msgs.len(), 2);
    assert!(matches!(msgs[0].role, Role::System));
}

#[test]
fn run_until_idle_gives_each_turn_a_distinct_trace_id() {
    assert_eq!(turn_trace_id("abc", 0), "abc-0");
    assert_eq!(turn_trace_id("abc", 12), "abc-12");
}

#[test]
fn registry_folds_verdicts() {
    let a = pass(true);
    let b = Verdict { passed: false, failures: vec!["f".into()], joint_wrong: true, evidence: vec![] };
    let v = fold_verdicts(vec![a, b]);
    assert!(!v.passed);
    assert!(v.joint_wrong);
    assert_eq!(v.failures, vec!["f".to_string()]);
    assert_eq!(v.evidence.len(), 1);
    assert!(fold_verdicts(vec![]).passed, "an empty registry passes vacuously");
}

#[test]
fn passes_golden_oracle() {
    let v = GoldenOracle::verdict(Some(true), Some(true));
    assert!(!v.passed && v.joint_wrong);
    assert!(v.failures[0].starts_with("JOINT_WRONG"));
    assert_eq!(v.evidence[0].kind, "joint_wrong");
    let ok = GoldenOracle::verdict(Some(true), None);
    assert!(ok.passed && !ok.joint_wrong);
    assert_eq!(ok.evidence[0].detail, "self_tests_pass=true golden_violated=false");
    let s = SourceOracle::verdict(Some(false), Some("the moon is cheese"));
    assert!(!s.passed);
    assert!(s.failures[0].contains("INSUFFICIENT_SOURCE"));
    assert!(SourceOracle::verdict(None, None).passed);
}

#[test]
fn property_oracle_flags_ssn_and_fails_closed_on_unknown() {
    assert!(check_property("no_ssn_pattern", "ssn 123-45-6789").is_some());
    assert!(check_property("no_ssn_pattern", "nothing here").is_none());
    assert!(check_property("sorcery", "x").unwrap().contains("fail-closed"));
    let o = PropertyOracle::new(vec!["no_ssn_pattern".into()]);
    let v = o.verdict("clean output");
    assert!(v.passed);
    assert_eq!(v.evidence[0].detail, "no_ssn_pattern: held");
}

#[test]
fn a_burst_stops_at_the_first_idle_tick_or_at_its_bound() {
    assert!(burst_after_tick(0, 3, false), "one of three ticks ran: go on");
    assert!(burst_after_tick(1, 3, false));
    assert!(!burst_after_tick(2, 3, false), "the third tick was the last");
    assert!(!burst_after_tick(0, 3, true), "every driver idle: stop");
    assert!(!burst_after_tick(0, 1, false), "a bound of one runs one tick");
}

fn drive(has_memory: bool, has_sink: bool, passed: bool) -> Vec<TurnAction> {
    let mut p = TurnProgress::new();
    let mut seen = Vec::new();
    loop {
        let a = p.next(has_memory, has_sink);
        seen.push(a);
        if a == TurnAction::Finish {
            return seen;
        }
        p.done(a, passed);
    }
}

#[test]
fn a_turn_runs_verifies_checkpoints_once_and_emits_only_a_pass() {
    let (r, v, c, m, e, f) = (
        TurnAction::RunTier,
        TurnAction::Verify,
        TurnAction::Checkpoint,
        TurnAction::Record,
        TurnAction::Emit,
        TurnAction::Finish,
    );
    assert_eq!(drive(true, true, true), vec![r, v, c, m, e, f]);
    assert_eq!(drive(true, true, false), vec![r, v, c, m, f]);
    assert_eq!(drive(false, true, true), vec![r, v, c, e, f]);
    assert_eq!(drive(false, false, true), vec![r, v, c, f]);
}
