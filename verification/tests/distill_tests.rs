use keel::distill::{training_jsonl, training_jsonl_line, training_pair};
use keel::types::Content;

fn prompt(p: &str) -> Vec<Content> {
    if p.is_empty() {
        vec![]
    } else {
        vec![Content::Text { text: p.into() }]
    }
}

#[test]
fn training_pair_is_chat_format_user_then_assistant() {
    let (user, assistant) = training_pair(&prompt("capital of France?"), "Paris").expect("a usable pair");
    assert_eq!(user, "capital of France?");
    assert_eq!(assistant, "Paris");
}

#[test]
fn empty_prompt_or_completion_yields_no_pair() {
    assert!(training_pair(&prompt(""), "Paris").is_none(), "no prompt -> nothing to learn");
    assert!(training_pair(&prompt("q"), "   ").is_none(), "empty completion -> nothing to learn");
}

#[test]
fn the_first_non_blank_text_part_is_the_prompt() {
    let c = vec![
        Content::Image { source: "x.png".into() },
        Content::Text { text: "   ".into() },
        Content::Text { text: "  real question \n".into() },
        Content::Text { text: "later".into() },
    ];
    let (user, assistant) = training_pair(&c, "  answer ").unwrap();
    assert_eq!(user, "real question");
    assert_eq!(assistant, "answer");
}

#[test]
fn a_training_line_is_the_chat_record_on_one_line() {
    assert_eq!(
        training_jsonl_line("q \"1\"", "a1"),
        r#"{"messages":[{"content":"q \"1\"","role":"user"},{"content":"a1","role":"assistant"}]}"#
    );
}

#[test]
fn the_training_jsonl_skips_traces_without_a_usable_pair() {
    let records = vec![
        (prompt("q1"), "a1".to_string()),
        (prompt(""), "orphan".to_string()),
        (prompt("q2"), " a2 ".to_string()),
    ];
    let out = training_jsonl(&records);
    assert_eq!(out.lines().count(), 2, "only the two usable pairs are exported");
    assert!(out.contains("\"a1\"") && out.contains("\"a2\""));
    assert!(!out.contains("orphan"));
    assert_eq!(training_jsonl(&vec![]), "");
}
