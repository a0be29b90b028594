//! Distillation feedstock: a verified trace becomes a chat-format training pair (the user's
//! prompt, then the verified completion). Only traces that passed their oracles reach here, and
//! they were scrubbed before they were written.

use vstd::prelude::*;
use crate::text::{join, join_strings, push_str, trim, trim_str, views};
use crate::types::Content;

verus! {

/// The prompt of a step: its first text part that is not blank, trimmed.
pub open spec fn first_prompt(content: Seq<Content>) -> Option<Seq<char>>
    decreases content.len(),
{
    if content.len() == 0 {
        None
    } else {
        match content[0] {
            Content::Text { text } => if trim(text@).len() > 0 {
                Some(trim(text@))
            } else {
                first_prompt(content.subrange(1, content.len() as int))
            },
            _ => first_prompt(content.subrange(1, content.len() as int)),
        }
    }
}

proof fn lemma_first_prompt_skip(content: Seq<Content>, i: int)
    requires
        0 <= i < content.len(),
        !(content[i] matches Content::Text { text } && trim(text@).len() > 0),
    ensures
        first_prompt(content.subrange(i, content.len() as int)) == first_prompt(
            content.subrange(i + 1, content.len() as int),
        ),
{
    let s = content.subrange(i, content.len() as int);
    assert(s[0] == content[i]);
    assert(s.subrange(1, s.len() as int) =~= content.subrange(i + 1, content.len() as int));
}

/// The text a step asks with: its first text part that is not blank, trimmed (the Ring-4 recall
/// query, and a training pair's prompt).
pub fn step_prompt(step_content: &Vec<Content>) -> (r: Option<String>)
    ensures
        match first_prompt(step_content@) {
            Some(p) => r matches Some(s) && s@ == p,
            None => r is None,
        },
{
    let mut i: usize = 0;
    let n = step_content.len();
    assert(step_content@.subrange(0, n as int) =~= step_content@);
    while i < n
        invariant
            i <= n,
            n == step_content@.len(),
            first_prompt(step_content@) == first_prompt(step_content@.subrange(i as int, n as int)),
        decreases n - i,
    {
        match &step_content[i] {
            Content::Text { text } => {
                let t = trim_str(text.as_str());
                if !t.as_str().is_empty() {
                    assert(step_content@.subrange(i as int, n as int)[0] == step_content@[i as int]);
                    return Some(t);
                }
            },
            _ => {},
        }
        proof {
            lemma_first_prompt_skip(step_content@, i as int);
        }
        i = i + 1;
    }
    None
}

/// A training pair of a verified trace: the step's prompt and the trimmed completion, or `None`
/// when either is blank.
pub fn training_pair(step_content: &Vec<Content>, completion: &str) -> (r: Option<(String, String)>)
    ensures
        match first_prompt(step_content@) {
            Some(p) => if trim(completion@).len() == 0 {
                r is None
            } else {
                r matches Some(pair) && pair.0@ == p && pair.1@ == trim(completion@)
            },
            None => r is None,
        },
{
    match step_prompt(step_content) {
        Some(p) => {
            let c = trim_str(completion);
            if c.as_str().is_empty() {
                None
            } else {
                Some((p, c))
            }
        },
        None => None,
    }
}


/// The JSON string literal `serde_json::to_string` writes for a text (quoted, with its escapes).
pub uninterp spec fn json_string_literal(s: Seq<char>) -> Seq<char>;

/// Trusted: `serde_json::to_string` on a `&str`, which cannot fail for a string. The literal is a
/// function of the text alone and is named, not restated.
#[verifier::external_body]
fn json_quote(s: &str) -> (r: String)
    ensures
        r@ == json_string_literal(s@),
{
    serde_json::to_string(s).unwrap_or_default()
}

/// The chat-format training line of a pair, as `serde_json` writes the record
/// `{messages: [{role: user, content}, {role: assistant, content}]}` on one line (its maps keep
/// their keys sorted, so `content` precedes `role`).
pub open spec fn training_line(user: Seq<char>, assistant: Seq<char>) -> Seq<char> {
    "{\"messages\":[{\"content\":"@ + json_string_literal(user) + ",\"role\":\"user\"},{\"content\":"@
        + json_string_literal(assistant) + ",\"role\":\"assistant\"}]}"@
}

/// The chat-format JSONL line of a training pair (see [`training_line`]).
pub fn training_jsonl_line(user: &str, assistant: &str) -> (r: String)
    ensures
        r@ == training_line(user@, assistant@),
{
    let mut r = String::from_str("{\"messages\":[{\"content\":");
    let u = json_quote(user);
    push_str(&mut r, u.as_str());
    push_str(&mut r, ",\"role\":\"user\"},{\"content\":");
    let a = json_quote(assistant);
    push_str(&mut r, a.as_str());
    push_str(&mut r, ",\"role\":\"assistant\"}]}");
    r
}

/// The training line of one verified trace (its step content and completion), or `None` when it
/// has no usable pair.
pub open spec fn trace_line(rec: (Vec<Content>, String)) -> Option<Seq<char>> {
    match first_prompt(rec.0@) {
        Some(p) => if trim(rec.1@).len() == 0 { None } else { Some(training_line(p, trim(rec.1@))) },
        None => None,
    }
}

/// The training lines of a corpus, in order, skipping traces without a usable pair.
pub open spec fn training_lines(recs: Seq<(Vec<Content>, String)>) -> Seq<Seq<char>>
    decreases recs.len(),
{
    if recs.len() == 0 {
        seq![]
    } else {
        let rest = training_lines(recs.drop_last());
        match trace_line(recs.last()) {
            Some(l) => rest.push(l),
            None => rest,
        }
    }
}

/// Chat-format training-pair JSONL for a corpus of verified traces (each its step content and its
/// completion, as read from the scrubbed corpus): one line per usable pair, newline-separated.
pub fn training_jsonl(records: &Vec<(Vec<Content>, String)>) -> (r: String)
    ensures
        r@ == join(training_lines(records@), "\n"@),
{
    let mut lines: Vec<String> = Vec::new();
    let mut i: usize = 0;
    while i < records.len()
        invariant
            i <= records@.len(),
            views(lines@) == training_lines(records@.take(i as int)),
        decreases records@.len() - i,
    {
        assert(records@.take(i + 1).drop_last() =~= records@.take(i as int));
        assert(records@.take(i + 1).last() == records@[i as int]);
        match training_pair(&records[i].0, records[i].1.as_str()) {
            Some((u, a)) => {
                let ghost before = lines@;
                let l = training_jsonl_line(u.as_str(), a.as_str());
                lines.push(l);
                assert(views(lines@) =~= views(before).push(l@));
            },
            None => {},
        }
        i = i + 1;
    }
    assert(records@.take(records@.len() as int) =~= records@);
    join_strings(&lines, "\n")
}

} // verus!
