use keel::adapters::Segment;
use keel::serve::{api_effort, api_step, error_status, parse_content, transcript_text, ContentIn, PartIn};
use keel::types::{Content, DataClass, Kind, Message, Role, Trust};

fn user(content: Vec<Content>) -> Message {
    Message { role: Role::User, content, name: None, reasoning_content: None, tool_call_id: None }
}

#[test]
fn content_string_is_one_text_part_and_arrays_keep_known_parts() {
    let s = parse_content(&ContentIn::Str("hi".into()));
    assert!(matches!(&s[..], [Content::Text { text }] if text == "hi"));
    let parts = parse_content(&ContentIn::Parts(vec![
        PartIn::Text { text: Some("look".into()) },
        PartIn::Other,
        PartIn::ImageUrl { url: Some("data:image/png;base64,AA".into()) },
        PartIn::Text { text: None },
        PartIn::ImageUrl { url: None },
    ]));
    assert_eq!(parts.len(), 2);
    assert!(matches!(&parts[0], Content::Text { text } if text == "look"));
    assert!(matches!(&parts[1], Content::Image { source } if source == "data:image/png;base64,AA"));
    assert!(parse_content(&ContentIn::Other).is_empty());
}

#[test]
fn api_step_reads_the_extensions() {
    let ms = vec![
        user(vec![Content::Text { text: "a".into() }]),
        user(vec![Content::Text { text: "b".into() }, Content::Image { source: "x.png".into() }]),
    ];
    let s = api_step(Some("core-wire".into()), Some(true), Some(true), vec!["g1".into()], &ms);
    assert_eq!(s.kind, Kind::CoreWire);
    assert_eq!(s.data_class, DataClass::Sovereign);
    assert!(s.critical);
    assert_eq!(s.trust_required, Trust::Normal);
    assert_eq!(s.ty, "api_turn");
    assert_eq!(s.source.as_deref(), Some("serve"));
    assert_eq!(s.golden_refs, vec!["g1".to_string()]);
    assert_eq!(s.content.len(), 3);
    assert!(matches!(&s.content[2], Content::Image { source } if source == "x.png"));
    let plain = api_step(Some("core_wire".into()), None, None, vec![], &ms);
    assert_eq!(plain.kind, Kind::CoreWire);
    assert_eq!(plain.data_class, DataClass::Normal);
    assert!(!plain.critical);
    let scaffold = api_step(Some("other".into()), Some(false), Some(false), vec![], &vec![]);
    assert_eq!(scaffold.kind, Kind::Scaffolding);
    assert!(scaffold.content.is_empty());
}

#[test]
fn think_asks_for_high_effort() {
    assert_eq!(api_effort(Some(true)).thinking.as_deref(), Some("high"));
    assert!(api_effort(Some(false)).thinking.is_none());
    assert!(api_effort(None).thinking.is_none());
    assert_eq!(api_effort(None).n, 1);
}

#[test]
fn budget_errors_are_payment_required() {
    assert_eq!(error_status("BUDGET_EXCEEDED"), 402);
    assert_eq!(error_status("TIER_UNAVAILABLE"), 502);
}

#[test]
fn transcript_text_joins_segments_with_spaces() {
    let segs = vec![
        Segment { start_ms: 0, end_ms: 1000, text: "hello".into() },
        Segment { start_ms: 1000, end_ms: 2000, text: "world".into() },
    ];
    assert_eq!(transcript_text(&segs), "hello world");
    assert_eq!(transcript_text(&vec![]), "");
}
