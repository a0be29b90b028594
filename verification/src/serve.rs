//! The OpenAI-compatible endpoint's decisions: how an incoming chat body's content is read, which
//! `Step` and effort a request becomes, which HTTP status an error draws, and how a transcript's
//! segments read as one text. The HTTP server and the JSON codec stay with the wiring layer.

use vstd::prelude::*;
use crate::adapters::Segment;
use crate::text::{join, join_strings, str_eq, views};
use crate::types::{Content, DataClass, Effort, Kind, Message, Step, Trust};

verus! {

/// One part of an incoming content array, as the request carried it.
#[derive(Clone, Debug)]
pub enum PartIn {
    /// A `text` part, with its `text` when that is a string.
    Text { text: Option<String> },
    /// An `image_url` part, with its `image_url.url` when that is a string.
    ImageUrl { url: Option<String> },
    /// A part of another or no type.
    Other,
}

/// An incoming message's `content`: a string, an array of parts, or anything else.
#[derive(Clone, Debug)]
pub enum ContentIn {
    Str(String),
    Parts(Vec<PartIn>),
    Other,
}

/// The content a part becomes, if any: a text part with text, an image part with a url.
pub open spec fn part_content(p: PartIn) -> Option<Content> {
    match p {
        PartIn::Text { text: Some(t) } => Some(Content::Text { text: t }),
        PartIn::ImageUrl { url: Some(u) } => Some(Content::Image { source: u }),
        _ => None,
    }
}

/// The contents the parts become, in order, skipping the rest.
pub open spec fn parts_content(ps: Seq<PartIn>) -> Seq<Content>
    decreases ps.len(),
{
    if ps.len() == 0 {
        seq![]
    } else {
        match part_content(ps.last()) {
            Some(c) => parts_content(ps.drop_last()).push(c),
            None => parts_content(ps.drop_last()),
        }
    }
}

/// Two contents with the same variant and the same text in each field.
pub open spec fn same_content(a: Content, b: Content) -> bool {
    match (a, b) {
        (Content::Text { text: x }, Content::Text { text: y }) => x@ == y@,
        (Content::Image { source: x }, Content::Image { source: y }) => x@ == y@,
        (Content::Audio { source: x }, Content::Audio { source: y }) => x@ == y@,
        (Content::Clip { video: v, frames: f }, Content::Clip { video: w, frames: g }) => v@ == w@ && f@ == g@,
        _ => false,
    }
}

/// Two content lists that agree part by part.
pub open spec fn same_contents(a: Seq<Content>, b: Seq<Content>) -> bool {
    a.len() == b.len() && forall|i: int| 0 <= i < a.len() ==> same_content(#[trigger] a[i], b[i])
}

/// Read an incoming message's content: a string is one text part; an array keeps its text parts
/// (with text) and image parts (with a url), in order; anything else is empty.
pub fn parse_content(v: &ContentIn) -> (r: Vec<Content>)
    ensures
        match *v {
            ContentIn::Str(s) => r@.len() == 1 && (r@[0] matches Content::Text { text } && text@ == s@),
            ContentIn::Parts(ps) => same_contents(r@, parts_content(ps@)),
            ContentIn::Other => r@.len() == 0,
        },
{
    match v {
        ContentIn::Str(s) => {
            let mut r: Vec<Content> = Vec::new();
            r.push(Content::Text { text: s.clone() });
            r
        },
        ContentIn::Parts(ps) => {
            let mut r: Vec<Content> = Vec::new();
            let mut i: usize = 0;
            while i < ps.len()
                invariant
                    i <= ps@.len(),
                    same_contents(r@, parts_content(ps@.take(i as int))),
                decreases ps@.len() - i,
            {
                proof {
                    assert(ps@.take(i + 1).drop_last() =~= ps@.take(i as int));
                    assert(ps@.take(i + 1).last() == ps@[i as int]);
                }
                let ghost before = r@;
                match &ps[i] {
                    PartIn::Text { text: Some(t) } => {
                        r.push(Content::Text { text: t.clone() });
                    },
                    PartIn::ImageUrl { url: Some(u) } => {
                        r.push(Content::Image { source: u.clone() });
                    },
                    _ => {},
                }
                proof {
                    let target = parts_content(ps@.take(i + 1));
                    assert forall|j: int| 0 <= j < r@.len() implies same_content(#[trigger] r@[j], target[j]) by {
                        if j < before.len() {
                            assert(r@[j] == before[j]);
                        }
                    }
                }
                i = i + 1;
            }
            assert(ps@.take(ps@.len() as int) =~= ps@);
            r
        },
        ContentIn::Other => Vec::new(),
    }
}

/// The concatenated content of a conversation: every message's parts, in order.
pub open spec fn all_content(ms: Seq<Message>) -> Seq<Content>
    decreases ms.len(),
{
    if ms.len() == 0 {
        seq![]
    } else {
        all_content(ms.drop_last()) + ms.last().content@
    }
}

fn copy_content(c: &Content) -> (r: Content)
    ensures
        same_content(r, *c),
{
    match c {
        Content::Text { text } => Content::Text { text: text.clone() },
        Content::Image { source } => Content::Image { source: source.clone() },
        Content::Clip { video, frames } => Content::Clip { video: video.clone(), frames: frames.clone() },
        Content::Audio { source } => Content::Audio { source: source.clone() },
    }
}

/// Whether a request's `kind` names core wiring (`core-wire` or `core_wire`).
pub open spec fn names_core_wire(kind: Option<String>) -> bool {
    match kind {
        Some(k) => k@ == "core-wire"@ || k@ == "core_wire"@,
        None => false,
    }
}

/// The step an API chat turn becomes: core wiring when the request says so (else scaffolding),
/// sovereign when asked, critical when asked, with the request's golden references and every
/// message's content; normal trust, from the `serve` driver, type `api_turn`.
pub fn api_step(kind: Option<String>, sovereign: Option<bool>, critical: Option<bool>, golden_refs: Vec<String>, messages: &Vec<Message>) -> (s: Step)
    ensures
        s.kind == if names_core_wire(kind) { Kind::CoreWire } else { Kind::Scaffolding },
        s.ty@ == "api_turn"@,
        s.trust_required == Trust::Normal,
        s.data_class == if sovereign == Some(true) { DataClass::Sovereign } else { DataClass::Normal },
        s.tier_history@.len() == 0,
        s.oracle_failures == 0,
        s.critical == (critical == Some(true)),
        s.source matches Some(src) && src@ == "serve"@,
        same_contents(s.content@, all_content(messages@)),
        s.golden_refs@ == golden_refs@,
{
    let core = match &kind {
        Some(k) => str_eq(k.as_str(), "core-wire") || str_eq(k.as_str(), "core_wire"),
        None => false,
    };
    let mut content: Vec<Content> = Vec::new();
    let mut i: usize = 0;
    while i < messages.len()
        invariant
            i <= messages@.len(),
            same_contents(content@, all_content(messages@.take(i as int))),
        decreases messages@.len() - i,
    {
        proof {
            assert(messages@.take(i + 1).drop_last() =~= messages@.take(i as int));
            assert(messages@.take(i + 1).last() == messages@[i as int]);
        }
        let m = &messages[i];
        let ghost base = content@;
        let mut k: usize = 0;
        while k < m.content.len()
            invariant
                k <= m.content@.len(),
                content@.len() == base.len() + k,
                forall|j: int| 0 <= j < base.len() ==> content@[j] == base[j],
                forall|j: int| 0 <= j < k ==> same_content(#[trigger] content@[base.len() + j], m.content@[j]),
            decreases m.content@.len() - k,
        {
            content.push(copy_content(&m.content[k]));
            k = k + 1;
        }
        proof {
            let target = all_content(messages@.take(i + 1));
            assert(target == all_content(messages@.take(i as int)) + m.content@);
            let prev = all_content(messages@.take(i as int));
            assert forall|j: int| 0 <= j < content@.len() implies same_content(#[trigger] content@[j], target[j]) by {
                if j < base.len() {
                    assert(content@[j] == base[j]);
                    assert(target[j] == prev[j]);
                } else {
                    let jj = j - base.len();
                    assert(target[j] == m.content@[jj]);
                    assert(same_content(content@[base.len() + jj], m.content@[jj]));
                }
            }
        }
        i = i + 1;
    }
    assert(messages@.take(messages@.len() as int) =~= messages@);
    Step {
        kind: if core { Kind::CoreWire } else { Kind::Scaffolding },
        ty: String::from_str("api_turn"),
        trust_required: Trust::Normal,
        data_class: match sovereign {
            Some(true) => DataClass::Sovereign,
            _ => DataClass::Normal,
        },
        tier_history: Vec::new(),
        oracle_failures: 0,
        critical: match critical {
            Some(true) => true,
            _ => false,
        },
        source: Some(String::from_str("serve")),
        content,
        golden_refs,
    }
}

/// The effort of an API chat turn: one sample, thinking `high` when the request asks to think.
pub fn api_effort(think: Option<bool>) -> (e: Effort)
    ensures
        e.n == 1,
        think == Some(true) ==> (e.thinking matches Some(t) && t@ == "high"@),
        think != Some(true) ==> e.thinking is None,
{
    match think {
        Some(true) => Effort { n: 1, thinking: Some(String::from_str("high")) },
        _ => Effort { n: 1, thinking: None },
    }
}

/// The HTTP status of a failed turn: 402 when the budget stopped it, else 502.
pub fn error_status(code: &str) -> (r: u16)
    ensures
        r == if code@ == "BUDGET_EXCEEDED"@ { 402u16 } else { 502u16 },
{
    if str_eq(code, "BUDGET_EXCEEDED") {
        402
    } else {
        502
    }
}

/// The texts of transcript segments.
pub open spec fn segment_texts(segments: Seq<Segment>) -> Seq<Seq<char>> {
    segments.map_values(|s: Segment| s.text@)
}

/// A transcript's text: its segments' texts joined by single spaces.
pub fn transcript_text(segments: &Vec<Segment>) -> (r: String)
    ensures
        r@ == join(segment_texts(segments@), " "@),
{
    let mut texts: Vec<String> = Vec::new();
    let mut i: usize = 0;
    while i < segments.len()
        invariant
            i <= segments@.len(),
            views(texts@) == segment_texts(segments@.take(i as int)),
        decreases segments@.len() - i,
    {
        let ghost before = views(texts@);
        let t = segments[i].text.clone();
        texts.push(t);
        assert(views(texts@) =~= before.push(segments@[i as int].text@));
        assert(segment_texts(segments@.take(i + 1)) =~= segment_texts(segments@.take(i as int)).push(
            segments@[i as int].text@,
        ));
        i = i + 1;
    }
    assert(segments@.take(segments@.len() as int) =~= segments@);
    join_strings(&texts, " ")
}

} // verus!
