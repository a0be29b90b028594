use keel::privacy::{finding_label, luhn_ok, Finding, PiiClassifier, PiiSpan, Redactor};
use keel::privacy_model::{byte_spans, path_to_spans, LabelSet, Tag};
use keel::types::Content;

/// Runs a classifier the way the model-assisted path is wired: its spans join the union.
fn with_model(r: &Redactor, c: &dyn PiiClassifier, text: &str) -> (String, Vec<Finding>) {
    r.redact_with_model(text, &c.spans(text))
}

#[test]
fn rung2_catches_operator_key_deterministically() {
    let r = Redactor::new(vec![]);
    let (out, findings) = r.redact("token is sk-abc123 ok");
    assert!(out.contains("[REDACTED]"));
    assert!(!out.contains("sk-abc123"));
    assert!(findings.iter().any(|f| f.kind == "api_key" && f.rung == 2));
}

#[test]
fn catches_email_and_ssn() {
    let r = Redactor::new(vec![]);
    let (out, f) = r.redact("mail a@b.com ssn 123-45-6789");
    assert!(!out.contains("a@b.com"));
    assert!(!out.contains("123-45-6789"));
    assert!(f.iter().any(|x| x.kind == "email"));
    assert!(f.iter().any(|x| x.kind == "ssn"));
}

#[test]
fn credit_card_only_when_luhn_valid() {
    let r = Redactor::new(vec![]);
    let (valid, vf) = r.redact("card 4111111111111111 here");
    assert!(!valid.contains("4111111111111111"));
    assert!(vf.iter().any(|x| x.kind == "credit_card"));
    let (invalid, inf) = r.redact("card 4111111111111112 here");
    assert!(invalid.contains("4111111111111112"));
    assert!(!inf.iter().any(|x| x.kind == "credit_card"));
}

#[test]
fn operator_marker_is_rung1() {
    let r = Redactor::new(vec!["ACME-INTERNAL".to_string()]);
    let (out, f) = r.redact("project ACME-INTERNAL ships friday");
    assert!(!out.contains("ACME-INTERNAL"));
    assert_eq!(f.iter().filter(|x| x.rung == 1).count(), 1);
}

#[test]
fn clean_text_is_unchanged() {
    let r = Redactor::new(vec!["ACME-INTERNAL".to_string()]);
    let (out, f) = r.redact("the quick brown fox");
    assert_eq!(out, "the quick brown fox");
    assert!(f.is_empty());
}

struct DanaStub;
impl PiiClassifier for DanaStub {
    fn spans(&self, text: &str) -> Vec<PiiSpan> {
        text.match_indices("Dana")
            .map(|(s, m)| PiiSpan { start: s, end: s + m.len(), class: "private_person".into() })
            .collect()
    }
}

struct BadOffsets;
impl PiiClassifier for BadOffsets {
    fn spans(&self, text: &str) -> Vec<PiiSpan> {
        vec![
            PiiSpan { start: 5, end: 3, class: "x".into() },
            PiiSpan { start: 0, end: text.len() + 40, class: "x".into() },
            PiiSpan { start: 1, end: 2, class: "mid-char".into() },
        ]
    }
}

#[test]
fn rung3_adds_a_span_rungs_1_2_miss_and_is_additive_only() {
    let text = "yesterday I met Dana at the harbor office";
    let plain = Redactor::new(vec![]);
    let (kept, none) = plain.redact(text);
    assert_eq!(kept, text);
    assert!(none.is_empty(), "rungs 1-2 cannot catch an arbitrary name");
    let r = Redactor::new(vec![]);
    let (still, f0) = r.redact(text);
    assert_eq!(still, text);
    assert!(f0.is_empty());
    let (scrubbed, findings) = with_model(&r, &DanaStub, text);
    assert!(!scrubbed.contains("Dana"), "the model span is masked: {scrubbed}");
    assert!(scrubbed.contains("[REDACTED]"));
    assert!(findings.iter().any(|f| f.rung == 3 && f.kind == "private_person"));
}

#[test]
fn rung3_overlap_with_rung2_merges_and_both_findings_report() {
    let text = "write to Dana dana@example.test today";
    let r = Redactor::new(vec![]);
    let (scrubbed, findings) = with_model(&r, &DanaStub, text);
    assert!(!scrubbed.contains("dana@example.test"));
    assert!(!scrubbed.contains("Dana"));
    assert!(findings.iter().any(|f| f.rung == 2 && f.kind == "email"));
    assert!(findings.iter().any(|f| f.rung == 3));
}

#[test]
fn invalid_model_offsets_are_dropped_never_panicking() {
    let text = "\u{00e9}clair time";
    let r = Redactor::new(vec![]);
    let (scrubbed, findings) = with_model(&r, &BadOffsets, text);
    assert_eq!(scrubbed, text, "all garbage spans dropped -> unchanged");
    assert!(findings.is_empty());
}

#[test]
fn overlapping_spans_mask_once_and_report_each_finding() {
    let r = Redactor::new(vec!["a@b.com".to_string()]);
    let (out, f) = r.redact("x a@b.com y");
    assert_eq!(out, "x [REDACTED] y");
    assert_eq!(f.len(), 2, "the marker (rung 1) and the email (rung 2) both report");
    assert_eq!(f[0].rung, 1);
    assert_eq!(f[1].rung, 2);
}

#[test]
fn luhn_checks_the_checksum() {
    assert!(luhn_ok("4111111111111111"));
    assert!(!luhn_ok("4111111111111112"));
    assert!(luhn_ok("4111 1111 1111 1111"), "separators are skipped");
}

#[test]
fn finding_labels_name_the_rung_and_kind() {
    let f = Finding { kind: "email".into(), rung: 2 };
    assert_eq!(finding_label(&f), "rung2:email");
}

#[test]
fn scrub_content_masks_text_parts_only() {
    let r = Redactor::new(vec![]);
    let mut c = vec![
        Content::Text { text: "ssn 123-45-6789".into() },
        Content::Image { source: "a@b.com.png".into() },
    ];
    r.scrub_content(&mut c);
    match &c[0] {
        Content::Text { text } => assert_eq!(text, "ssn [REDACTED]"),
        _ => panic!("text part stays text"),
    }
    match &c[1] {
        Content::Image { source } => assert_eq!(source, "a@b.com.png"),
        _ => panic!("image part stays as it is"),
    }
}

fn labels() -> LabelSet {
    LabelSet::parse(&vec![
        "O".to_string(),
        "B-private_person".to_string(),
        "I-private_person".to_string(),
        "E-private_person".to_string(),
        "S-private_person".to_string(),
    ])
    .unwrap()
}

#[test]
fn label_parse_and_transition_graph() {
    let l = labels();
    assert_eq!(l.classes, vec!["private_person".to_string()]);
    assert_eq!(l.tags, vec![(Tag::O, 0), (Tag::B, 0), (Tag::I, 0), (Tag::E, 0), (Tag::S, 0)]);
}

#[test]
fn label_parse_rejects_untagged_and_unknown_tags() {
    let e = LabelSet::parse(&vec!["person".to_string()]).err().unwrap();
    assert_eq!(e.message(), "privacy label without tag: person");
    let e2 = LabelSet::parse(&vec!["X-person".to_string()]).err().unwrap();
    assert_eq!(e2.message(), "unknown BIOES tag in X-person");
    let two = LabelSet::parse(&vec!["B-a".to_string(), "S-b".to_string(), "E-a".to_string()]).unwrap();
    assert_eq!(two.classes, vec!["a".to_string(), "b".to_string()]);
    assert_eq!(two.tags, vec![(Tag::B, 0), (Tag::S, 1), (Tag::E, 0)]);
}

#[test]
fn path_to_spans_handles_s_runs_and_ignores_mismatched_e() {
    let l = labels();
    assert_eq!(path_to_spans(&vec![4, 0, 4], &l), vec![(0, 0, 0), (2, 2, 0)]);
    assert_eq!(path_to_spans(&vec![3], &l), vec![], "an E with no open B never emits");
    assert_eq!(path_to_spans(&vec![1, 2, 3], &l), vec![(0, 2, 0)]);
}

#[test]
fn egress_scrub_masks_text_parts_and_reports_labels() {
    let r = Redactor::new(vec![]);
    let mut c = vec![
        Content::Text { text: "reach me at a@b.com".into() },
        Content::Image { source: "a@b.com.png".into() },
        Content::Text { text: "ask Dana".into() },
    ];
    let spans = vec![vec![], vec![], vec![PiiSpan { start: 4, end: 8, class: "private_person".into() }]];
    let labels = r.scrub_parts_with_model(&mut c, &spans);
    assert!(matches!(&c[0], Content::Text { text } if text == "reach me at [REDACTED]"));
    assert!(matches!(&c[1], Content::Image { source } if source == "a@b.com.png"));
    assert!(matches!(&c[2], Content::Text { text } if text == "ask [REDACTED]"));
    assert_eq!(labels, vec!["rung2:email".to_string(), "rung3:private_person".to_string()]);
}

#[test]
fn output_pii_is_masked_in_content_and_reasoning() {
    let r = Redactor::new(vec![]);
    let (content, reasoning, labels) =
        r.scrub_reply("your key is sk-deadbeef99", &Some("ssn 123-45-6789 seen".to_string()));
    assert_eq!(content, "your key is [REDACTED]");
    assert_eq!(reasoning.as_deref(), Some("ssn [REDACTED] seen"));
    assert_eq!(labels, vec!["rung2:api_key".to_string(), "rung2:ssn".to_string()]);
    let (clean, none, no_labels) = r.scrub_reply("all clear", &None);
    assert_eq!(clean, "all clear");
    assert!(none.is_none());
    assert!(no_labels.is_empty());
}

#[test]
fn token_spans_map_to_byte_spans_skipping_zero_width_tokens() {
    let classes = vec!["private_person".to_string(), "private_email".to_string()];
    // tokens: [CLS](0,0) "Ask"(0,3) " Dana"(3,8) " Lee"(8,12) [SEP](12,12)
    let offsets = vec![(0, 0), (0, 3), (3, 8), (8, 12), (12, 12)];
    let spans = vec![(2, 3, 0), (4, 4, 1), (0, 0, 1)];
    let out = byte_spans(&spans, &offsets, &classes);
    assert_eq!(out, vec![PiiSpan { start: 3, end: 12, class: "private_person".into() }]);
    let past_end = byte_spans(&vec![(3, 9, 1)], &offsets, &classes);
    assert_eq!(past_end, vec![PiiSpan { start: 8, end: 12, class: "private_email".into() }]);
}
