use keel::cli::{
    daemon_upkeep, manual_effort, override_refusal, route_note, routed_effort, turn_step, verdict_word, DaemonAction,
    DaemonLoop, OverrideRefusal, TickEvent, Upkeep,
};
use keel::types::{Content, DataClass, Kind, Trust};

#[test]
fn a_typed_turn_becomes_a_step() {
    let s = turn_step("user_turn", Some("cli"), true, true, true, "weigh it".into(), vec!["g".into()]);
    assert_eq!(s.kind, Kind::CoreWire);
    assert_eq!(s.data_class, DataClass::Sovereign);
    assert_eq!(s.trust_required, Trust::Normal);
    assert!(s.critical);
    assert_eq!(s.ty, "user_turn");
    assert_eq!(s.source.as_deref(), Some("cli"));
    assert!(matches!(&s.content[..], [Content::Text { text }] if text == "weigh it"));
    let t = turn_step("daemon_tick", None, false, false, false, "alive?".into(), vec![]);
    assert_eq!(t.kind, Kind::Scaffolding);
    assert_eq!(t.data_class, DataClass::Normal);
    assert!(t.source.is_none());
}

#[test]
fn a_manual_pin_never_voids_a_flag() {
    assert_eq!(override_refusal(true, false, false, 0), Some(OverrideRefusal::SovereignOffLocal));
    assert_eq!(override_refusal(true, true, false, 0), None);
    assert_eq!(override_refusal(false, false, true, 0), Some(OverrideRefusal::NeedsVerifier));
    assert_eq!(override_refusal(false, true, false, 2), Some(OverrideRefusal::NeedsVerifier));
    assert_eq!(override_refusal(false, false, false, 0), None);
}

#[test]
fn efforts_and_notes() {
    assert_eq!(manual_effort(true).thinking.as_deref(), Some("high"));
    assert_eq!(manual_effort(false).thinking.as_deref(), Some("low"));
    assert_eq!(routed_effort(true).thinking.as_deref(), Some("high"));
    assert!(routed_effort(false).thinking.is_none());
    assert_eq!(route_note("scaffolding -> local", false, "local", "local"), "scaffolding -> local");
    assert_eq!(
        route_note("escalate", true, "frontier", "cheap-API"),
        "escalate - chosen tier 'frontier' unavailable, fell back to 'cheap-API'"
    );
    assert_eq!(verdict_word(true, true), "JOINT_WRONG");
    assert_eq!(verdict_word(true, false), "pass");
    assert_eq!(verdict_word(false, false), "FAIL");
}

#[test]
fn a_bounded_daemon_stops_after_its_ticks() {
    let mut d = DaemonLoop::new(2, false);
    assert_eq!(d.after_tick(TickEvent::Idle), DaemonAction::Sleep);
    assert_eq!(d.after_tick(TickEvent::Ran), DaemonAction::Continue);
    assert_eq!(d.after_tick(TickEvent::Ran), DaemonAction::Stop);
    assert_eq!(d.ran, 2);
    assert_eq!(d.after_tick(TickEvent::Idle), DaemonAction::Stop);
    let mut p = DaemonLoop::new(0, true);
    for _ in 0..5 {
        assert_eq!(p.after_tick(TickEvent::Ran), DaemonAction::Continue);
    }
    assert_eq!(p.after_tick(TickEvent::Idle), DaemonAction::Sleep);
    assert_eq!(p.after_tick(TickEvent::Failed), DaemonAction::Stop);
}

#[test]
fn upkeep_follows_the_cadence_or_the_policy() {
    assert_eq!(daemon_upkeep(3, 3), Upkeep::Consolidate);
    assert_eq!(daemon_upkeep(3, 4), Upkeep::Skip);
    assert_eq!(daemon_upkeep(0, 4), Upkeep::Policy);
}
