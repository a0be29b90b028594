use keel::amplify::{check_output, lint_tasks, sample_outcome, normalize, AmplifyCheck, AmplifyTask, CheckValue};
use keel::context::{new_trace_id, now_epoch_s, now_millis};
use keel::drivers::{change_token, daemon_perpetual, parse_role, HeartbeatDriver, UserTurnDriver, WatchDriver};
use keel::lifecycle::{default_local_candidates, plan_wiring, resolve_endpoint, tier_skipped, TierWiring};
use keel::memory::{newest_entries, vector_fits};
use keel::manifest::{configured_path, MemBudgetCfg, MemoryCfg, RouterCfg};
use keel::recall::{first_relevant, hits_at_k, lint_recall, should_rebuild, BenchConfig, Fingerprint, RecallDoc, RecallQuery};
use keel::types::{DataClass, Kind, Role, Step, Trust};

fn step() -> Step {
    Step {
        kind: Kind::Scaffolding,
        ty: "t".into(),
        trust_required: Trust::Normal,
        data_class: DataClass::Normal,
        tier_history: vec![],
        oracle_failures: 0,
        critical: false,
        source: None,
        content: vec![],
        golden_refs: vec![],
    }
}

#[test]
fn now_millis_is_after_2024() {
    assert!(now_millis() > 1_704_067_200_000);
    assert!(now_epoch_s() > 1_704_067_200);
}

#[test]
fn trace_id_is_twelve_hex_and_unique() {
    let a = new_trace_id();
    let b = new_trace_id();
    assert_eq!(a.len(), 12);
    assert!(a.chars().all(|c| c.is_ascii_hexdigit()));
    assert_ne!(a, b);
}

#[test]
fn daemon_perpetual_rules() {
    assert!(!daemon_perpetual(1, true, false), "default bounded");
    assert!(!daemon_perpetual(5, true, false), "explicit bound");
    assert!(daemon_perpetual(0, true, false), "--max-ticks 0 -> perpetual");
    assert!(daemon_perpetual(1, false, true), "--watch w/o explicit bound -> perpetual");
    assert!(!daemon_perpetual(3, true, true), "--watch + explicit bound -> bounded");
}

#[test]
fn normalize_strips_think_blocks_and_flattens() {
    assert_eq!(normalize("  The\n Answer  IS   42 "), "the answer is 42");
    assert_eq!(normalize("<think>step by step...</think>\n3901"), "3901");
    assert_eq!(normalize("<think>still going"), "<think>still going");
}

fn check(kind: &str, value: CheckValue) -> AmplifyCheck {
    AmplifyCheck { kind: kind.into(), value }
}

#[test]
fn checks_apply_normalized() {
    let eq = check("equals", CheckValue::Text("Leek".into()));
    assert!(check_output(&eq, "  leek \n"));
    assert!(!check_output(&eq, "the answer is leek"));
    let ct = check("contains", CheckValue::Text("apple fig kiwi mango".into()));
    assert!(check_output(&ct, "Sorted: apple  fig kiwi mango."));
    let ca = check("contains_all", CheckValue::Array(vec![Some("\"port\"".into()), Some("8080".into())]));
    assert!(check_output(&ca, "{\"port\": 8080}"));
    assert!(!check_output(&ca, "{\"host\": 8080}"));
    let bad = check("regex", CheckValue::Text("x".into()));
    assert!(!check_output(&bad, "x"), "unknown kind never passes");
}

fn task(id: &str, prompt: &str, kind: &str, value: CheckValue) -> AmplifyTask {
    AmplifyTask { id: id.into(), family: "f".into(), prompt: prompt.into(), check: check(kind, value) }
}

#[test]
fn lint_catches_incoherence() {
    let errs = lint_tasks(&vec![
        task("a", " ", "equals", CheckValue::Text("x".into())),
        task("a", "p", "sorcery", CheckValue::Text("x".into())),
        task("b", "p", "contains_all", CheckValue::Array(vec![])),
        task("c", "p", "equals", CheckValue::Text("".into())),
    ]);
    let has = |m: &str| errs.iter().any(|e| e.contains(m));
    assert!(has("duplicate task id a"));
    assert!(has("empty prompt"));
    assert!(has("unknown check kind 'sorcery'"));
    assert!(has("contains_all needs a non-empty array"));
    assert!(has("equals needs a non-empty string"));
    assert!(lint_tasks(&vec![]).iter().any(|e| e.contains("no tasks")));
}

fn doc(id: &str, kind: &str, text: &str) -> RecallDoc {
    RecallDoc { id: id.into(), kind: kind.into(), text: text.into() }
}

fn query(id: &str, family: &str, relevant: &[(&str, u32)]) -> RecallQuery {
    RecallQuery {
        id: id.into(),
        family: family.into(),
        query: "q".into(),
        relevant: relevant.iter().map(|(d, g)| (d.to_string(), *g)).collect(),
    }
}

#[test]
fn set_lint_catches_incoherence_never_content() {
    let docs = vec![doc("d1", "turn", "t"), doc("d1", "blob", "t"), doc("d2", "episode", " ")];
    let queries = vec![
        query("q1", "paraphrase", &[("d1", 2), ("ghost", 1)]),
        query("q1", "weird", &[("d1", 3)]),
        query("q2", "negative", &[("d1", 1)]),
        query("q3", "entity", &[]),
    ];
    let errs = lint_recall(&docs, &queries);
    let has = |m: &str| errs.iter().any(|e| e.contains(m));
    assert!(has("duplicate doc id d1"));
    assert!(has("unknown kind 'blob'"));
    assert!(has("doc d2: empty text"));
    assert!(has("duplicate query id q1"));
    assert!(has("unknown family 'weird'"));
    assert!(has("relevant doc 'ghost' not in docs"));
    assert!(has("grade 3 out of range"));
    assert!(has("a negative control must have no relevant docs"));
    assert!(has("non-negative family with no relevant docs"));
    assert!(lint_recall(&vec![doc("d", "turn", "x")], &vec![query("q", "entity", &[("d", 2)])]).is_empty());
}

#[test]
fn passes_golden_recall_fingerprint_rules() {
    let a = Fingerprint::new("embA".into(), 1024);
    assert!(!should_rebuild(&a, &Fingerprint::new("embA".into(), 1024)), "same fingerprint serves");
    assert!(should_rebuild(&a, &Fingerprint::new("embB".into(), 1024)), "another model rebuilds");
    assert!(should_rebuild(&a, &Fingerprint::new("embA".into(), 768)), "another dim rebuilds");
    let c = BenchConfig::new("e".into(), None);
    assert_eq!((c.k, c.ndcg_k, c.candidates), (5, 10, 20));
}

#[test]
fn user_turn_dequeues_fifo_then_none() {
    let mut d = UserTurnDriver::new();
    assert!(d.is_empty());
    let mut a = step();
    a.ty = "first".into();
    let mut b = step();
    b.ty = "second".into();
    d.push(a);
    d.push(b);
    assert_eq!(d.len(), 2);
    let s1 = d.poll().unwrap();
    assert_eq!(s1.ty, "first");
    assert_eq!(s1.source.as_deref(), Some("user"));
    assert_eq!(d.poll().unwrap().ty, "second");
    assert!(d.poll().is_none());
    let mut seeded = UserTurnDriver::with_steps(vec![step(), step()]);
    assert_eq!(seeded.len(), 2);
    assert!(seeded.poll().is_some());
}

#[test]
fn heartbeat_fires_once_per_interval() {
    let mut h = HeartbeatDriver::new(1_000, step());
    let first = h.tick(5_000).expect("the first poll fires");
    assert_eq!(first.source.as_deref(), Some("heartbeat"));
    assert!(h.tick(5_500).is_none(), "not yet an interval");
    assert!(h.tick(6_000).is_some(), "an interval elapsed");
    assert!(h.tick(6_999).is_none());
    assert!(h.tick(4_000).is_none(), "a reading before the last fire is no elapsed time");
}

#[test]
fn watch_emits_only_on_change() {
    let mut w = WatchDriver::new(step());
    assert!(w.observe(None).is_none(), "nothing to observe never fires");
    assert_eq!(w.observe(Some(7)).unwrap().source.as_deref(), Some("watch"), "first observation fires");
    assert!(w.observe(Some(7)).is_none(), "unchanged is free");
    assert!(w.observe(Some(8)).is_some(), "a change fires");
    assert_ne!(change_token(10, 3), change_token(10, 4));
    assert_eq!(change_token(1, 0), 2);
}

#[test]
fn parse_role_defaults_to_user() {
    assert_eq!(parse_role("system"), Role::System);
    assert_eq!(parse_role("assistant"), Role::Assistant);
    assert_eq!(parse_role("tool"), Role::Tool);
    assert_eq!(parse_role("anything"), Role::User);
}

#[test]
fn resolve_picks_the_first_live_candidate() {
    let c = default_local_candidates();
    assert_eq!(c, vec!["http://127.0.0.1:1234", "http://127.0.0.1:11434", "http://127.0.0.1:8080"]);
    let cands = vec!["http://a:1".to_string(), "http://b:2/".to_string(), "http://c:3".to_string()];
    assert_eq!(resolve_endpoint(&cands, &vec![false, true, true]).unwrap(), "http://b:2");
}

#[test]
fn resolve_errors_when_nothing_is_up() {
    let cands = vec!["http://a:1".to_string()];
    let err = resolve_endpoint(&cands, &vec![false]).unwrap_err();
    assert_eq!(err.code(), "SUBSTRATE_UNRESOLVED");
    assert_eq!(err.message(), "no inference server reachable among [\"http://a:1\"]");
}

#[test]
fn defaults_apply_for_absent_sections() {
    let m = MemoryCfg::default();
    assert!(m.recall);
    assert_eq!(m.recall_k, 3);
    assert_eq!(m.working_turns, 6);
    let b = MemBudgetCfg::default().to_budget();
    assert_eq!((b.ring1, b.ring2, b.ring3, b.ring4), (1000, 2000, 1000, 1000));
    let p = m.policy();
    assert_eq!((p.consolidate_every_turns, p.session_end_min_turns, p.cold_eyes_every), (24, 4, 4));
    let r = RouterCfg::default();
    assert_eq!(r.default_tier, "local");
    assert_eq!(r.escalate_after_oracle_failures, 2);
    assert_eq!(configured_path("", "f.gguf"), None);
    assert!(configured_path("/models", "f.gguf").unwrap().ends_with("f.gguf"));
}

#[test]
fn tier_wiring_follows_the_adapter() {
    match plan_wiring("local", "local_llama", None, None, None).unwrap() {
        TierWiring::Local { endpoint } => assert!(endpoint.is_none()),
        _ => panic!("local"),
    }
    match plan_wiring("cheap-API", "deepseek", None, Some("k1".into()), Some("DEEPSEEK_API_KEY".into())).unwrap() {
        TierWiring::DeepSeek { endpoint, key } => {
            assert_eq!(endpoint, "https://api.deepseek.com");
            assert_eq!(key, "k1");
        }
        _ => panic!("deepseek"),
    }
    match plan_wiring("frontier", "anthropic", Some("http://proxy".into()), Some("k2".into()), None).unwrap() {
        TierWiring::Anthropic { endpoint, key } => {
            assert_eq!(endpoint, "http://proxy");
            assert_eq!(key, "k2");
        }
        _ => panic!("anthropic"),
    }
    match plan_wiring("frontier", "anthropic", None, None, Some("ANTHROPIC_API_KEY".into())) {
        Err(keel::errors::KeelError::Other(m)) => assert_eq!(m, "tier 'frontier' needs env var ANTHROPIC_API_KEY"),
        _ => panic!("missing key"),
    }
    match plan_wiring("x", "openai", None, Some("k".into()), None) {
        Err(keel::errors::KeelError::Other(m)) => assert_eq!(m, "unknown adapter 'openai' for tier 'x'"),
        _ => panic!("unknown adapter"),
    }
    assert!(tier_skipped("deepseek", false));
    assert!(!tier_skipped("deepseek", true));
    assert!(!tier_skipped("local_llama", false));
}

#[test]
fn newest_entries_keep_the_tail_in_order_and_skip_garbled_lines() {
    let lines = vec![Some(1), None, Some(2), Some(3), None, Some(4)];
    assert_eq!(newest_entries(lines.clone(), 2), vec![3, 4]);
    assert_eq!(newest_entries(lines.clone(), 10), vec![1, 2, 3, 4]);
    assert_eq!(newest_entries(lines, 0), Vec::<i32>::new());
    assert!(vector_fits(0, 7));
    assert!(vector_fits(768, 768));
    assert!(!vector_fits(768, 384));
}

fn ids(v: &[&str]) -> Vec<String> {
    v.iter().map(|s| s.to_string()).collect()
}

fn rel(v: &[(&str, u32)]) -> Vec<(String, u32)> {
    v.iter().map(|(s, g)| (s.to_string(), *g)).collect()
}

#[test]
fn ranking_hits_and_first_relevant_position() {
    let ranked = ids(&["a", "b", "c", "x"]);
    assert_eq!(hits_at_k(&ranked, &rel(&[("a", 2), ("x", 1)]), 2), 1, "one of two relevant ids in the top-2");
    assert_eq!(hits_at_k(&ranked, &rel(&[("a", 2), ("x", 1)]), 10), 2);
    assert_eq!(hits_at_k(&ranked, &vec![], 2), 0);
    assert_eq!(first_relevant(&ids(&["x", "y", "a"]), &rel(&[("a", 2)])), Some(2), "first relevant at rank 3");
    assert_eq!(first_relevant(&ids(&["x", "y"]), &rel(&[("a", 2)])), None);
}

#[test]
fn an_error_reads_code_then_message() {
    let e = keel::errors::KeelError::BudgetExceeded("over by 2".to_string());
    assert_eq!(e.text(), "[BUDGET_EXCEEDED] over by 2");
    assert_eq!(keel::errors::KeelError::Other("x".to_string()).text(), "[KEEL_ERROR] x");
}

#[test]
fn best_of_n_selects_the_first_passing_sample_and_counts_passes() {
    let c = check("equals", CheckValue::Text("Leek".into()));
    let outs = vec!["leak".to_string(), "  LEEK ".to_string(), "leek".to_string()];
    let (passes, selected, count) = sample_outcome(&c, &outs);
    assert_eq!(passes, vec![false, true, true]);
    assert_eq!(selected.as_deref(), Some("  LEEK "));
    assert_eq!(count, 2);
    let (p0, s0, c0) = sample_outcome(&c, &vec!["no".to_string()]);
    assert_eq!((p0, s0, c0), (vec![false], None, 0));
}
