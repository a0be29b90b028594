use keel::consolidation::{consolidation_layout_ok, parse_consolidation};
use keel::episodes::{corrected_narrative, fallback_episode, placeholder_narrative, plan_consolidation};
use keel::memory::{
    assemble_context, chars_cap, embed_input, exemplar_sections, narrative_of, narrative_path_for, ring2_over_budget,
    select_ring2, summarize, take_chars, user_text, is_maintenance_turn, Episode, EMBED_INPUT_MAX_CHARS,
};
use keel::prompts::{cold_eyes_prompt, consolidation_prompt, consolidation_step, corrective_consolidation_prompt};
use keel::types::{Content, Role, TokenBudget};
use std::path::Path;

fn default_budget() -> TokenBudget {
    TokenBudget { ring1: 1000, ring2: 2000, ring3: 1000, ring4: 1000, ..TokenBudget::default() }
}

fn budget(ring2_chars: usize, ring3_chars: usize, ring4_chars: usize) -> TokenBudget {
    TokenBudget {
        ring2: (ring2_chars / 4) as u32,
        ring3: (ring3_chars / 4) as u32,
        ring4: (ring4_chars / 4) as u32,
        ..TokenBudget::default()
    }
}

fn turn(user: &str, answer: &str) -> (String, String) {
    (user.to_string(), answer.to_string())
}

#[test]
fn narrative_path_is_a_distinct_sibling_per_tape() {
    let a = narrative_path_for("/x/tape.jsonl");
    assert_eq!(Path::new(&a).file_name().unwrap().to_str().unwrap(), "tape.narrative.md", "stem-keyed sibling");
    assert_ne!(a, narrative_path_for("/x/other.jsonl"), "distinct tapes -> distinct narratives");
}

#[test]
fn take_chars_is_utf8_safe_and_zero_budget_means_uncapped() {
    assert_eq!(take_chars("h\u{e9}llo w\u{f6}rld", 5), "h\u{e9}llo");
    assert_eq!(take_chars("ab", 10), "ab");
    assert_eq!(chars_cap(0), None, "0 tokens = uncapped (the explicit opt-out)");
    assert_eq!(chars_cap(10), Some(40), "~4 chars per token");
}

#[test]
fn embed_input_is_head_capped_for_small_window_models() {
    let short = "a normal turn";
    assert_eq!(embed_input(short), short, "short text passes through whole");
    let long = "x".repeat(EMBED_INPUT_MAX_CHARS + 500);
    assert_eq!(embed_input(&long).chars().count(), EMBED_INPUT_MAX_CHARS);
}

#[test]
fn fresh_memory_with_no_soul_assembles_nothing() {
    let a = assemble_context("", None, None, &vec![], &vec![], 0, &default_budget(), false);
    assert!(a.system.is_empty(), "fresh Tape + no soul -> empty system");
}

#[test]
fn soul_is_ring0_and_working_window_is_bounded() {
    let turns = vec![turn("q3", "a3"), turn("q4", "a4")];
    let a = assemble_context("You are KEEL.", None, None, &turns, &vec![], 0, &default_budget(), false);
    assert!(a.system.starts_with("You are KEEL."), "Ring-0 soul leads");
    assert!(a.system.contains("a3") && a.system.contains("a4"));
    assert!(a.system.contains("Recent context (oldest first):"));
    let i3 = a.system.find("a3").unwrap();
    let i4 = a.system.find("a4").unwrap();
    assert!(i3 < i4, "oldest first");
}

#[test]
fn narrative_register_injects_into_assemble_separate_from_the_tape() {
    let turns = vec![turn("what's the plan?", "ship A6")];
    let a = assemble_context(
        "",
        None,
        Some("  Arc: building KEEL's perpetual memory; A6 in flight.\n"),
        &turns,
        &vec![],
        0,
        &default_budget(),
        false,
    );
    assert!(a.system.contains("Narrative so far"));
    assert!(a.system.contains("A6 in flight"));
    assert!(a.system.contains("ship A6"));
    let a2 = assemble_context("", None, None, &turns, &vec![], 0, &default_budget(), false);
    assert!(!a2.system.contains("A6 in flight"));
    assert!(a2.system.contains("ship A6"));
}

#[test]
fn budget_caps_ring2_and_the_newest_turn_survives() {
    let mut turns = Vec::new();
    for i in 1..=8 {
        turns.push(turn(&format!("question number {i} padded {}", "x".repeat(20)), &format!("answer-{i}")));
    }
    let b = budget(160, 4000, 4000);
    let a = assemble_context("", None, None, &turns, &vec![], 0, &b, false);
    assert!(a.system.contains("answer-8"), "the newest turn always survives the budget");
    assert!(!a.system.contains("answer-1"), "the oldest turn is dropped under budget pressure");
    assert!(a.system.chars().count() < 400);
    assert_eq!(a.budget.ring2, (160 / 4) as u32);
    turns.push(turn(&"y".repeat(2000), "needle-answer"));
    let a2 = assemble_context("", None, None, &turns, &vec![], 0, &b, false);
    assert!(a2.system.contains("..."), "the lone oversized newest turn is trimmed to the cap");
}

#[test]
fn narrative_is_trimmed_to_its_ring3_budget_head_first() {
    let long = format!("HEAD-OF-ARC {} TAIL-END", "z".repeat(500));
    let a = assemble_context("", None, Some(long.as_str()), &vec![], &vec![], 0, &budget(4000, 100, 4000), false);
    assert!(a.system.contains("HEAD-OF-ARC"));
    assert!(!a.system.contains("TAIL-END"));
    assert!(a.system.contains("[narrative trimmed to budget]"));
}

#[test]
fn ring0_soul_is_never_trimmed_regardless_of_budget() {
    let soul = format!("SOUL-START {} SOUL-END", "s".repeat(1200));
    let a = assemble_context(&soul, None, None, &vec![turn("q", "a")], &vec![], 0, &budget(40, 40, 40), false);
    assert!(a.system.starts_with("SOUL-START"));
    assert!(a.system.contains("SOUL-END"));
}

#[test]
fn ring4_recall_respects_its_budget_and_relevance() {
    let ranked = vec![
        (true, "- user: France facts one\n  assistant: Paris one".to_string()),
        (true, "- user: France facts two\n  assistant: Paris two".to_string()),
        (true, "- user: France facts three\n  assistant: Paris three".to_string()),
    ];
    let a = assemble_context("", None, None, &vec![], &ranked, 5, &budget(4000, 4000, 80), false);
    let injected = a.system.matches("Paris").count();
    assert!(injected >= 1, "recall still surfaces the best match");
    assert!(injected < 3, "the ring-4 budget bounds how many recalls inject");
    let orthogonal = vec![(false, "- user: what is 2+2\n  assistant: 4".to_string())];
    let a2 = assemble_context("", None, None, &vec![], &orthogonal, 3, &default_budget(), false);
    assert!(!a2.system.contains("Relevant earlier"), "a non-positive similarity never injects");
}

#[test]
fn ring4_recall_skips_what_ring2_already_carries() {
    let turns = vec![turn("tell me about France", "Paris is the capital")];
    let entry = summarize("tell me about France", "Paris is the capital");
    let ranked = vec![(true, entry.clone()), (true, "[episode] older France digest | changed:  | matters:  | unresolved:  | anchors: ".to_string())];
    let a = assemble_context("", None, None, &turns, &ranked, 3, &default_budget(), false);
    assert_eq!(a.system.matches("Paris is the capital").count(), 1, "carried once, by Ring 2");
    assert!(a.system.contains("Relevant earlier (semantic recall):\n[episode] older France digest"));
}

#[test]
fn ring1_exemplars_load_anchor_plus_recent_under_budget() {
    let pool = "pool notes (ignored preamble)\n## Anchor\nthe calibration anchor\n## Old\nold exemplar\n## Mid\nmid exemplar\n## New\nnewest exemplar\n";
    let a = assemble_context("", Some(pool), None, &vec![], &vec![], 0, &default_budget(), false);
    assert!(a.system.contains("Calibration exemplars"));
    assert!(a.system.contains("the calibration anchor"));
    assert!(a.system.contains("newest exemplar") && a.system.contains("mid exemplar"));
    assert!(!a.system.contains("old exemplar"));
    assert!(!a.system.contains("pool notes"));
    let tight = TokenBudget { ring1: 10, ..default_budget() };
    let a2 = assemble_context("", Some(pool), None, &vec![], &vec![], 0, &tight, false);
    assert!(a2.system.contains("[exemplars trimmed to budget]"));
}

#[test]
fn exemplar_sections_split_on_headers() {
    let s = exemplar_sections("intro\n## A\none\n\n## B\r\ntwo\n## C\n\n");
    assert_eq!(s, vec!["## A\none".to_string(), "## B\ntwo".to_string(), "## C".to_string()]);
    assert!(exemplar_sections("no headers at all").is_empty());
}

#[test]
fn ring2_as_conversation_injects_real_messages() {
    let turns = vec![turn("first question", "first answer"), turn("second question", "second answer")];
    let a = assemble_context("", None, None, &turns, &vec![], 0, &default_budget(), true);
    assert!(!a.system.contains("Recent context"));
    assert_eq!(a.conversation.len(), 4);
    assert!(matches!(a.conversation[0].role, Role::User));
    assert!(matches!(a.conversation[1].role, Role::Assistant));
    let Content::Text { text } = &a.conversation[3].content[0] else { panic!("text content") };
    assert_eq!(text, "second answer");
    let plain = assemble_context("", None, None, &turns, &vec![], 0, &default_budget(), false);
    assert!(plain.system.contains("Recent context") && plain.conversation.is_empty());
}

#[test]
fn ring2_selection_keeps_the_newest_and_stays_in_budget() {
    let entries: Vec<String> = (0..6).map(|i| format!("entry-{i}-{}", "p".repeat(10))).collect();
    let sel = select_ring2(&entries, Some(40));
    assert_eq!(sel.last().unwrap().0, 5, "the newest entry survives");
    let used: usize = sel.iter().map(|(_, t)| t.chars().count() + 1).sum();
    assert!(used <= 40);
    let lone = select_ring2(&vec!["z".repeat(100)], Some(10));
    assert_eq!(lone, vec![(0, format!("{}...", "z".repeat(7)))]);
    assert_eq!(select_ring2(&entries, None).len(), 6, "uncapped keeps every entry");
}

#[test]
fn ring2_pressure_counts_entries_with_their_newlines() {
    let e = vec!["abcd".to_string(), "efgh".to_string()];
    assert!(!ring2_over_budget(&e, 0), "an uncapped ring is never over");
    assert!(!ring2_over_budget(&e, 3), "10 chars fit a 12-char cap");
    assert!(ring2_over_budget(&e, 2), "10 chars exceed an 8-char cap");
}

#[test]
fn user_text_is_the_first_text_part_trimmed() {
    let c = vec![Content::Image { source: "x.png".into() }, Content::Text { text: "  hi  ".into() }];
    assert_eq!(user_text(&c), "hi");
    assert_eq!(user_text(&vec![]), "");
    assert_eq!(summarize("hi", " there \n"), "- user: hi\n  assistant: there");
    assert_eq!(narrative_of(Some("  arc \n")), Some("arc".to_string()));
    assert_eq!(narrative_of(Some("   ")), None);
    assert_eq!(narrative_of(None), None);
}

#[test]
fn parse_consolidation_extracts_both_registers() {
    let out = "=== NARRATIVE ===\nThe arc so far: we built the thing.\n=== EPISODE ===\nhappened: built A7.2\nchanged: episodes now durable\nmatters: memory autopilot depends on it\nunresolved: A7.3 wiring\nanchors: episodes register; autopilot; A7.2\n";
    let (narr, ep) = parse_consolidation(out);
    assert_eq!(narr, "The arc so far: we built the thing.");
    let ep = ep.expect("episode parsed");
    assert!(ep.parsed);
    assert_eq!(ep.what_happened, "built A7.2");
    assert_eq!(ep.what_changed, "episodes now durable");
    assert_eq!(ep.unresolved, "A7.3 wiring");
    assert_eq!(ep.anchors, vec!["episodes register", "autopilot", "A7.2"]);
    assert!(ep.text().contains("[episode] built A7.2"));
}

#[test]
fn parse_consolidation_missing_layout_falls_back_to_narrative_only() {
    let (narr, ep) = parse_consolidation("just a plain narrative, no markers");
    assert_eq!(narr, "just a plain narrative, no markers");
    assert!(ep.is_none());
    let (n2, e2) = parse_consolidation("=== EPISODE ===\nx\n=== NARRATIVE ===\ny");
    assert!(e2.is_none());
    assert!(n2.contains("EPISODE"));
}

#[test]
fn parse_consolidation_keys_are_case_insensitive_and_think_is_stripped() {
    let out = "<think>drafting</think>\n=== NARRATIVE ===\n arc \n=== EPISODE ===\nHappened : h\nMATTERS: m\nnoise line\n";
    let (narr, ep) = parse_consolidation(out);
    assert_eq!(narr, "arc");
    let ep = ep.unwrap();
    assert_eq!(ep.what_happened, "h");
    assert_eq!(ep.what_matters, "m");
    assert!(ep.anchors.is_empty());
    assert!(!consolidation_layout_ok("=== NARRATIVE === EPISODE ==="), "overlapping markers are refused");
    assert!(consolidation_layout_ok(out));
}

#[test]
fn store_consolidation_rejects_a_parroted_placeholder() {
    let users = vec!["q".to_string()];
    let out = "=== NARRATIVE ===\n(the updated narrative)\n=== EPISODE ===\nhappened: real thing\nchanged: -\nmatters: -\nunresolved: -\nanchors: a\n";
    assert!(plan_consolidation(out, &users).is_none(), "placeholder narrative rejected");
    let out2 = "=== NARRATIVE ===\n<the narrative>\n=== EPISODE ===\nhappened: x\nchanged: -\nmatters: -\nunresolved: -\nanchors: a\n";
    assert!(plan_consolidation(out2, &users).is_none(), "angle-bracket variant rejected too");
    assert!(plan_consolidation("   ", &users).is_none(), "an empty output stores nothing");
    assert!(placeholder_narrative("(short)"));
    assert!(!placeholder_narrative("(a line)\n(another)"));
}

#[test]
fn store_consolidation_plans_both_registers() {
    let users = vec!["first question about keels".to_string()];
    let p = plan_consolidation(
        "=== NARRATIVE ===\nArc v1.\n=== EPISODE ===\nhappened: one\nchanged: c1\nmatters: m1\nunresolved: u1\nanchors: a1; b1\n",
        &users,
    )
    .unwrap();
    assert_eq!(p.narrative, "Arc v1.");
    assert!(p.parsed);
    assert_eq!(p.episode.what_happened, "one");
    assert_eq!(p.episode.span_turns, 1);
    let stub = plan_consolidation("a layoutless blob narrative", &users).unwrap();
    assert!(!stub.parsed);
    assert!(!stub.episode.parsed);
    assert!(stub.episode.what_happened.contains("unparsed"));
    assert!(!stub.episode.anchors.is_empty());
}

#[test]
fn fallback_episode_anchors_the_last_four_turns_newest_first() {
    let users: Vec<String> =
        vec!["one two three four five six", "", "b", "c", "d", "e"].into_iter().map(String::from).collect();
    let ep = fallback_episode(&users);
    assert_eq!(ep.span_turns, 6);
    assert_eq!(ep.what_happened, "(unparsed consolidation) covered 6 turn(s)");
    assert_eq!(ep.anchors, vec!["e", "d", "c", "b"]);
    let one = fallback_episode(&vec!["  alpha   beta gamma delta epsilon zeta ".to_string()]);
    assert_eq!(one.anchors, vec!["alpha beta gamma delta epsilon"]);
}

#[test]
fn store_corrected_narrative_overwrites_without_appending_an_episode() {
    let corrected = "corrected arc: the unsupported claim about the sky being green is removed entirely";
    assert_eq!(corrected_narrative(corrected), Some(corrected.to_string()));
    assert_eq!(corrected_narrative("CONSISTENT"), None, "a stub never clobbers");
    assert_eq!(
        corrected_narrative("=== NARRATIVE ===\na layouted correction long enough to clear the degenerate floor\n=== EPISODE ===\nhappened: x\nchanged: y\nmatters: z\nunresolved: -\nanchors: q\n"),
        Some("a layouted correction long enough to clear the degenerate floor".to_string())
    );
}

#[test]
fn consolidate_prompt_carries_prior_narrative_and_recent_turns() {
    let turns = vec![turn("question seventeen", "answer seventeen")];
    let text = consolidation_prompt(Some("PRIOR-ARC-TOKEN"), &turns, 1000);
    assert!(text.contains("successor"));
    assert!(text.contains("PRIOR-ARC-TOKEN"));
    assert!(text.contains("question seventeen") && text.contains("answer seventeen"));
    assert!(text.contains("Tape"));
}

#[test]
fn consolidation_prompt_requests_the_two_register_layout() {
    let text = consolidation_prompt(None, &vec![], 1000);
    assert!(text.contains("=== NARRATIVE ==="));
    assert!(text.contains("=== EPISODE ==="));
    assert!(text.contains("anchors:"));
    assert!(text.contains("characters"));
    assert!(text.contains("Keep the narrative under about 4000 characters"));
    assert!(text.contains("(no new turns since the prior narrative)"));
}

#[test]
fn consolidate_returns_a_maintenance_step() {
    let s = consolidation_step(consolidation_prompt(None, &vec![], 1000));
    assert_eq!(s.ty, "memory:consolidate");
    assert_eq!(s.source.as_deref(), Some("memory"));
}

#[test]
fn cold_eyes_prompt_diffs_narrative_against_the_tape() {
    let turns = vec![turn("what is my number", "42")];
    assert!(cold_eyes_prompt(None, &vec![], &turns).is_none(), "no narrative -> nothing to validate");
    let p = cold_eyes_prompt(Some("The user's number is 42 and the sky is green."), &vec![], &turns).unwrap();
    assert!(p.contains("ground truth"));
    assert!(p.contains("CONSISTENT"));
    assert!(p.contains("sky is green"));
    assert!(p.contains("42"));
    let ep = Episode {
        at_epoch_s: 1,
        span_turns: 1,
        what_happened: "older-history digest".into(),
        what_changed: String::new(),
        what_matters: String::new(),
        unresolved: String::new(),
        anchors: vec![],
        parsed: true,
    };
    let p2 = cold_eyes_prompt(Some("n"), &vec![ep], &turns).unwrap();
    assert!(p2.contains("older-history digest"));
    assert!(p2.contains("NEITHER"));
}

#[test]
fn corrective_prompt_carries_findings_and_ground_truth_never_the_drifted_narrative() {
    let turns = vec![turn("what is my number", "42")];
    let ep = Episode {
        at_epoch_s: 1,
        span_turns: 1,
        what_happened: "number recorded".into(),
        what_changed: "-".into(),
        what_matters: "-".into(),
        unresolved: "-".into(),
        anchors: vec!["number".into()],
        parsed: true,
    };
    let p = corrective_consolidation_prompt(&vec!["claims the sky is green".to_string()], 1000, &vec![ep], &turns);
    assert!(p.contains("claims the sky is green"));
    assert!(p.contains("42"));
    assert!(p.contains("[episode] number recorded"));
    assert!(!p.contains("DRIFTED-SKY-GREEN"));
}

#[test]
fn maintenance_turns_are_recognized() {
    assert!(is_maintenance_turn(Some("memory"), "memory:consolidate"));
    assert!(is_maintenance_turn(None, "memory:cold_eyes"));
    assert!(!is_maintenance_turn(Some("user"), "user_turn"));
}

#[test]
fn episode_text_is_the_flat_digest() {
    let ep = Episode {
        at_epoch_s: 0,
        span_turns: 0,
        what_happened: "h".into(),
        what_changed: "c".into(),
        what_matters: "m".into(),
        unresolved: "u".into(),
        anchors: vec!["a".into(), "b".into()],
        parsed: true,
    };
    assert_eq!(ep.text(), "[episode] h | changed: c | matters: m | unresolved: u | anchors: a; b");
}
