//! The persistent self's pure core: the ringed, budgeted context assembly over the Tape (the
//! lossless JSONL ledger of every turn), the Ring-3 narrative and the episode digests, and the
//! prompts that maintain them. Budgets are declared in tokens and enforced in chars at about four
//! chars per token; `0` tokens on a ring means uncapped. Ring 0 (the soul) is never trimmed.
//!
//! Reading and writing the Tape, the narrative file, the episodes register and the vector
//! sidecars, and ranking by embedding similarity, stay with the caller; what is decided from
//! their contents is decided here.

use vstd::prelude::*;
use crate::maintenance::{nonempty_trimmed, spec_strip_think, strip_think_at};
use crate::text::{
    char_pos_at, char_pos_from, find, find_at, lemma_char_pos_from_bounds, lemma_find_from_bounds, lowercase, to_lowercase, chars_of, push_char, join, join_strings, lemma_str_lines_step, line_end, push_chars_at, push_str,
    starts_with, starts_with_at, str_eq, str_lines, string_at, strip_cr, trim, trim_at, views,
};
use crate::types::{AssembledContext, Content, Message, Role, TokenBudget};

verus! {

/// Chars per token: the budget proxy (no tokenizer).
pub const CHARS_PER_TOKEN: usize = 4;

/// Cap on chars sent to the embed organ.
pub const EMBED_INPUT_MAX_CHARS: usize = 1500;

/// A ring's char cap from its token budget; `0` tokens is uncapped.
pub open spec fn spec_chars_cap(tokens: u32) -> Option<int> {
    if tokens == 0 { None } else { Some(tokens * 4) }
}

/// Whether every ring's char cap fits a `usize`.
pub open spec fn budget_fits(b: TokenBudget) -> bool {
    &&& b.ring1 * 4 <= usize::MAX
    &&& b.ring2 * 4 <= usize::MAX
    &&& b.ring3 * 4 <= usize::MAX
    &&& b.ring4 * 4 <= usize::MAX
}

/// A ring's char cap from its token budget; `0` tokens is uncapped.
pub fn chars_cap(tokens: u32) -> (r: Option<usize>)
    requires
        tokens * 4 <= usize::MAX,
    ensures
        match spec_chars_cap(tokens) {
            Some(c) => r == Some(c as usize),
            None => r is None,
        },
{
    if tokens > 0 {
        Some(tokens as usize * CHARS_PER_TOKEN)
    } else {
        None
    }
}

/// At most the first `max` chars of `s`.
pub open spec fn prefix(s: Seq<char>, max: int) -> Seq<char> {
    if s.len() > max { s.take(max) } else { s }
}

/// Truncate to at most `max` chars, on a char boundary (budgets count chars, not bytes).
pub fn take_chars(s: &str, max: usize) -> (r: String)
    ensures
        r@ == prefix(s@, max as int),
{
    let v = chars_of(s);
    let hi = if v.len() > max { max } else { v.len() };
    let r = string_at(&v, 0, hi);
    assert(v@.subrange(0, v@.len() as int) =~= v@);
    r
}

/// The slice of a text sent to the embed organ: head-capped at [`EMBED_INPUT_MAX_CHARS`].
pub fn embed_input(text: &str) -> (r: String)
    ensures
        r@ == prefix(text@, EMBED_INPUT_MAX_CHARS as int),
{
    take_chars(text, EMBED_INPUT_MAX_CHARS)
}

/// One episode digest: the durable, append-only mid-resolution register between the rolling
/// narrative and the raw Tape (a five-field consolidation schema).
#[derive(Clone, Debug)]
pub struct Episode {
    /// Unix seconds when the consolidation ran.
    pub at_epoch_s: u64,
    /// How many recent Tape turns this consolidation covered.
    pub span_turns: usize,
    pub what_happened: String,
    pub what_changed: String,
    pub what_matters: String,
    pub unresolved: String,
    /// Search keys for future retrieval.
    pub anchors: Vec<String>,
    /// `false` marks a deterministic fallback stub (the model output missed the layout).
    pub parsed: bool,
}

/// The flat text of an episode: its retrieval target and its prompt form.
pub open spec fn episode_text(e: Episode) -> Seq<char> {
    "[episode] "@ + e.what_happened@ + " | changed: "@ + e.what_changed@ + " | matters: "@
        + e.what_matters@ + " | unresolved: "@ + e.unresolved@ + " | anchors: "@ + join(
        views(e.anchors@),
        "; "@,
    )
}

impl Episode {
    /// The flat text used as this episode's embedding target and for prompt injection.
    pub fn text(&self) -> (r: String)
        ensures
            r@ == episode_text(*self),
    {
        let mut r = String::new();
        push_str(&mut r, "[episode] ");
        push_str(&mut r, self.what_happened.as_str());
        push_str(&mut r, " | changed: ");
        push_str(&mut r, self.what_changed.as_str());
        push_str(&mut r, " | matters: ");
        push_str(&mut r, self.what_matters.as_str());
        push_str(&mut r, " | unresolved: ");
        push_str(&mut r, self.unresolved.as_str());
        push_str(&mut r, " | anchors: ");
        let a = join_strings(&self.anchors, "; ");
        push_str(&mut r, a.as_str());
        r
    }
}

// ---------------------------------------------------------------------------------------------
// the register files: siblings of the Tape, keyed by its stem

/// The file stem `std::path::Path::file_stem` gives a path (the file name without its last
/// extension), when it has one.
pub uninterp spec fn path_file_stem(p: Seq<char>) -> Option<Seq<char>>;

/// The path `std::path::Path::with_file_name` gives: `p` with its file name replaced by `name`.
pub uninterp spec fn path_with_file_name(p: Seq<char>, name: Seq<char>) -> Seq<char>;

/// Trusted: `std::path::Path::file_stem` on a path given as text. A stem of a UTF-8 path is
/// UTF-8, so the conversion back to text loses nothing. The stem is named, not restated.
#[verifier::external_body]
fn file_stem(p: &str) -> (r: Option<String>)
    ensures
        match r {
            Some(s) => path_file_stem(p@) == Some(s@),
            None => path_file_stem(p@) is None,
        },
{
    match std::path::Path::new(p).file_stem() {
        Some(s) => s.to_str().map(String::from),
        None => None,
    }
}

/// Trusted: `std::path::Path::with_file_name` on a path and a file name given as text; the
/// result, built from UTF-8 pieces, converts back to text whole. The result is named.
#[verifier::external_body]
fn with_file_name(p: &str, name: &str) -> (r: String)
    ensures
        r@ == path_with_file_name(p@, name@),
{
    std::path::Path::new(p).with_file_name(name).to_string_lossy().into_owned()
}

/// The stem a register file is keyed by: the Tape's file stem, or `tape` when it has none.
pub open spec fn tape_stem(tape: Seq<char>) -> Seq<char> {
    match path_file_stem(tape) {
        Some(s) => s,
        None => "tape"@,
    }
}

/// The sibling of the Tape named `<stem><suffix>`.
pub open spec fn sibling(tape: Seq<char>, suffix: Seq<char>) -> Seq<char> {
    path_with_file_name(tape, tape_stem(tape) + suffix)
}

/// The sibling of `tape` named `<tape_stem><suffix>`, in the Tape's directory.
pub fn sibling_path(tape: &str, suffix: &str) -> (r: String)
    ensures
        r@ == sibling(tape@, suffix@),
{
    let mut name = match file_stem(tape) {
        Some(s) => s,
        None => String::from_str("tape"),
    };
    push_str(&mut name, suffix);
    with_file_name(tape, name.as_str())
}

/// The Ring-3 narrative register of a Tape: `<tape_dir>/<tape_stem>.narrative.md`. Distinct Tapes
/// get distinct, co-located narratives.
pub fn narrative_path_for(tape: &str) -> (r: String)
    ensures
        r@ == sibling(tape@, ".narrative.md"@),
{
    sibling_path(tape, ".narrative.md")
}

/// The Ring-4 turn-vector sidecar of a Tape: `<tape_dir>/<tape_stem>.vec.jsonl`.
pub fn vec_path_for(tape: &str) -> (r: String)
    ensures
        r@ == sibling(tape@, ".vec.jsonl"@),
{
    sibling_path(tape, ".vec.jsonl")
}

/// The episodes register of a Tape: `<tape_dir>/<tape_stem>.episodes.jsonl` (append-only).
pub fn episodes_path_for(tape: &str) -> (r: String)
    ensures
        r@ == sibling(tape@, ".episodes.jsonl"@),
{
    sibling_path(tape, ".episodes.jsonl")
}

/// The episode-vector sidecar of a Tape: `<tape_dir>/<tape_stem>.epvec.jsonl`.
pub fn epvec_path_for(tape: &str) -> (r: String)
    ensures
        r@ == sibling(tape@, ".epvec.jsonl"@),
{
    sibling_path(tape, ".epvec.jsonl")
}

/// The Ring-1 exemplar pool of a Tape: `<tape_dir>/<tape_stem>.exemplars.md`.
pub fn exemplars_path_for(tape: &str) -> (r: String)
    ensures
        r@ == sibling(tape@, ".exemplars.md"@),
{
    sibling_path(tape, ".exemplars.md")
}

/// The maintenance cursor of a Tape: `<tape_dir>/<tape_stem>.maint.json`.
pub fn maint_state_path_for(tape: &str) -> (r: String)
    ensures
        r@ == sibling(tape@, ".maint.json"@),
{
    sibling_path(tape, ".maint.json")
}

// ---------------------------------------------------------------------------------------------
// turns as working memory

/// The first text part of a message's content, trimmed; empty when it has none.
pub open spec fn first_text(content: Seq<Content>) -> Seq<char>
    decreases content.len(),
{
    if content.len() == 0 {
        seq![]
    } else {
        match content[0] {
            Content::Text { text } => trim(text@),
            _ => first_text(content.drop_first()),
        }
    }
}

/// The user side of a recorded turn: its first text part, trimmed (empty when it has none).
pub fn user_text(content: &Vec<Content>) -> (r: String)
    ensures
        r@ == first_text(content@),
{
    let mut i: usize = 0;
    assert(content@.subrange(0, content@.len() as int) =~= content@);
    while i < content.len()
        invariant
            i <= content@.len(),
            first_text(content@) == first_text(content@.subrange(i as int, content@.len() as int)),
        decreases content@.len() - i,
    {
        assert(content@.subrange(i as int, content@.len() as int).drop_first() =~= content@.subrange(
            i + 1,
            content@.len() as int,
        ));
        match &content[i] {
            Content::Text { text } => {
                let v = chars_of(text.as_str());
                let (a, b) = trim_at(&v, 0, v.len());
                assert(v@.subrange(0, v@.len() as int) =~= text@);
                return string_at(&v, a, b);
            },
            _ => {},
        }
        i = i + 1;
    }
    String::new()
}

/// One turn compacted into a working-memory entry.
pub open spec fn summary(user: Seq<char>, answer: Seq<char>) -> Seq<char> {
    "- user: "@ + user + "\n  assistant: "@ + trim(answer)
}

/// Compact one turn (its user text, already trimmed, and the model's answer) into a
/// `user -> assistant` working-memory entry.
pub fn summarize(user: &str, answer: &str) -> (r: String)
    ensures
        r@ == summary(user@, answer@),
{
    let mut r = String::new();
    push_str(&mut r, "- user: ");
    push_str(&mut r, user);
    push_str(&mut r, "\n  assistant: ");
    let v = chars_of(answer);
    let (a, b) = trim_at(&v, 0, v.len());
    assert(v@.subrange(0, v@.len() as int) =~= answer@);
    push_chars_at(&mut r, &v, a, b);
    r
}

/// The narrative register's content as read: trimmed, and absent when empty.
pub open spec fn narrative_view(raw: Option<Seq<char>>) -> Option<Seq<char>> {
    match raw {
        Some(s) => if trim(s).len() > 0 { Some(trim(s)) } else { None },
        None => None,
    }
}

/// The narrative from the register file's raw content (`None` when the file is absent):
/// trimmed, and `None` when empty.
pub fn narrative_of(raw: Option<&str>) -> (r: Option<String>)
    ensures
        match narrative_view(match raw { Some(s) => Some(s@), None => None }) {
            Some(n) => r matches Some(s) && s@ == n,
            None => r is None,
        },
{
    match raw {
        Some(s) => {
            let v = chars_of(s);
            let (a, b) = trim_at(&v, 0, v.len());
            assert(v@.subrange(0, v@.len() as int) =~= s@);
            if b > a {
                Some(string_at(&v, a, b))
            } else {
                None
            }
        },
        None => None,
    }
}

// ---------------------------------------------------------------------------------------------
// Ring 1: calibration exemplars from an operator-authored, `## `-sectioned pool

/// The fold state over the pool's lines: sections closed so far, the open section, and whether
/// the first header has been seen (text before it is a comment area).
pub open spec fn section_step(
    st: (Seq<Seq<char>>, Seq<char>, bool),
    line: Seq<char>,
) -> (Seq<Seq<char>>, Seq<char>, bool) {
    if starts_with(line, "## "@) {
        (close_section(st), line + "\n"@, true)
    } else if st.2 {
        (st.0, st.1 + line + "\n"@, true)
    } else {
        st
    }
}

/// The sections once the open one (if any, and not blank) is closed, trimmed.
pub open spec fn close_section(st: (Seq<Seq<char>>, Seq<char>, bool)) -> Seq<Seq<char>> {
    if st.2 && trim(st.1).len() > 0 { st.0.push(trim(st.1)) } else { st.0 }
}

pub open spec fn section_state(ls: Seq<Seq<char>>) -> (Seq<Seq<char>>, Seq<char>, bool)
    decreases ls.len(),
{
    if ls.len() == 0 {
        (seq![], seq![], false)
    } else {
        section_step(section_state(ls.drop_last()), ls.last())
    }
}

/// The exemplar pool's sections: each `## ` header starts one, running to the next; text before
/// the first header is ignored; a blank section is dropped; each is trimmed.
pub open spec fn pool_sections(raw: Seq<char>) -> Seq<Seq<char>> {
    close_section(section_state(str_lines(raw)))
}

/// A string holding the trimmed content of `s`.
fn trimmed(s: &String) -> (r: String)
    ensures
        r@ == trim(s@),
{
    crate::text::trim_str(s.as_str())
}

/// Split the exemplar pool into its `## ` sections (see [`pool_sections`]).
pub fn exemplar_sections(raw: &str) -> (r: Vec<String>)
    ensures
        views(r@) == pool_sections(raw@),
{
    let v = chars_of(raw);
    let n = v.len();
    let mut sections: Vec<String> = Vec::new();
    let mut cur = String::new();
    let mut started = false;
    let ghost mut done: Seq<Seq<char>> = seq![];
    let hdr = chars_of("## ");
    let mut pos: usize = 0;
    assert(v@.subrange(0, n as int) =~= raw@);
    assert(str_lines(raw@) == done + str_lines(v@.subrange(pos as int, n as int)));
    while pos < n
        invariant
            pos <= n == v@.len(),
            hdr@ == "## "@,
            str_lines(raw@) == done + str_lines(v@.subrange(pos as int, n as int)),
            (views(sections@), cur@, started) == section_state(done),
        decreases n - pos,
    {
        let nl = char_pos_at(&v, pos, n, '\n');
        proof {
            lemma_str_lines_step(v@, pos as int, n as int, nl);
        }
        let end = match nl {
            Some(j) => j,
            None => n,
        };
        let le = line_end(&v, pos, end, nl.is_some());
        let ghost line = v@.subrange(pos as int, le as int);
        let ghost st = section_state(done);
        proof {
            assert(done.push(line).drop_last() =~= done);
        }
        if starts_with_at(&v, pos, le, &hdr) {
            if started {
                let t = trimmed(&cur);
                if !t.as_str().is_empty() {
                    sections.push(t);
                }
            }
            proof {
                assert(views(sections@) =~= close_section(st));
            }
            cur = string_at(&v, pos, le);
            push_char(&mut cur, '\n');
            started = true;
        } else if started {
            push_chars_at(&mut cur, &v, pos, le);
            push_char(&mut cur, '\n');
        }
        proof {
            reveal_strlit("\n");
            assert((views(sections@), cur@, started) == section_step(st, line));
            match nl {
                Some(j) => {
                    assert(str_lines(raw@) =~= done.push(line) + str_lines(v@.subrange(j + 1, n as int)));
                },
                None => {
                    assert(v@.subrange(n as int, n as int) =~= Seq::<char>::empty());
                    assert(str_lines(raw@) =~= done.push(line) + str_lines(v@.subrange(n as int, n as int)));
                },
            }
            done = done.push(line);
        }
        pos = match nl {
            Some(j) => j + 1,
            None => n,
        };
    }
    assert(v@.subrange(pos as int, n as int) =~= Seq::<char>::empty());
    assert(done =~= str_lines(raw@));
    if started {
        let t = trimmed(&cur);
        if !t.as_str().is_empty() {
            sections.push(t);
        }
    }
    assert(views(sections@) =~= pool_sections(raw@));
    sections
}

/// `text` cut to `cap` chars with `marker` appended when it runs over; otherwise whole.
pub open spec fn budget_trim(text: Seq<char>, cap: Option<int>, marker: Seq<char>) -> Seq<char> {
    match cap {
        Some(c) => if text.len() > c { text.take(c) + marker } else { text },
        None => text,
    }
}

/// Budget trimming keeps the head: a text within the cap (or under no cap) is kept whole; a longer
/// one keeps exactly its first `cap` chars, followed by the marker.
pub proof fn lemma_budget_trim_keeps_the_head(text: Seq<char>, cap: Option<int>, marker: Seq<char>)
    requires
        cap matches Some(c) ==> c >= 0,
    ensures
        match cap {
            Some(c) => if text.len() <= c {
                budget_trim(text, cap, marker) == text
            } else {
                &&& budget_trim(text, cap, marker).len() == c + marker.len()
                &&& forall|i: int| 0 <= i < c ==> budget_trim(text, cap, marker)[i] == text[i]
                &&& budget_trim(text, cap, marker).subrange(c, c + marker.len()) == marker
            },
            None => budget_trim(text, cap, marker) == text,
        },
{
    if let Some(c) = cap {
        if text.len() > c {
            assert(budget_trim(text, cap, marker).subrange(c, c + marker.len()) =~= marker);
        }
    }
}

fn trim_to_budget(text: String, cap: Option<usize>, marker: &str) -> (r: String)
    ensures
        r@ == budget_trim(text@, match cap { Some(c) => Some(c as int), None => None }, marker@),
{
    match cap {
        Some(c) => {
            let v = chars_of(text.as_str());
            if v.len() > c {
                let mut r = string_at(&v, 0, c);
                push_str(&mut r, marker);
                r
            } else {
                text
            }
        },
        None => text,
    }
}

/// The exemplars that load: the first section (the calibration anchor) always, then the two most
/// recently authored others, in pool order.
pub open spec fn picked_sections(sections: Seq<Seq<char>>) -> Seq<Seq<char>> {
    let n = sections.len() as int;
    seq![sections[0]] + sections.subrange(if n - 2 > 1 { n - 2 } else { 1 }, n)
}

/// The Ring-1 block: the picked sections joined by blank lines, cut to the ring-1 budget.
pub open spec fn exemplar_block(sections: Seq<Seq<char>>, ring1: u32) -> Seq<char> {
    budget_trim(
        join(picked_sections(sections), "\n\n"@),
        spec_chars_cap(ring1),
        "\n...[exemplars trimmed to budget]"@,
    )
}

/// Build the Ring-1 block from a non-empty list of pool sections.
pub fn exemplar_block_of(sections: &Vec<String>, ring1: u32) -> (r: String)
    requires
        sections@.len() > 0,
        ring1 * 4 <= usize::MAX,
    ensures
        r@ == exemplar_block(views(sections@), ring1),
{
    let n = sections.len();
    let mut picked: Vec<String> = Vec::new();
    picked.push(sections[0].clone());
    let from: usize = if n >= 3 && n - 2 > 1 { n - 2 } else { 1 };
    let mut i = from;
    while i < n
        invariant
            1 <= from <= i <= n == sections@.len(),
            views(picked@) == seq![sections@[0]@] + views(sections@).subrange(from as int, i as int),
        decreases n - i,
    {
        let ghost before = views(picked@);
        let c = sections[i].clone();
        picked.push(c);
        proof {
            assert(views(picked@) =~= before.push(sections@[i as int]@));
            assert(views(sections@).subrange(from as int, i + 1) =~= views(sections@).subrange(from as int, i as int).push(sections@[i as int]@));
            assert(views(picked@) =~= seq![sections@[0]@] + views(sections@).subrange(from as int, i + 1));
        }
        i = i + 1;
    }
    assert(views(picked@) =~= picked_sections(views(sections@)));
    let block = join_strings(&picked, "\n\n");
    trim_to_budget(block, chars_cap(ring1), "\n...[exemplars trimmed to budget]")
}

/// `system` with one more block: a blank line between it and what came before, if anything did.
pub open spec fn with_section(system: Seq<char>, block: Seq<char>) -> Seq<char> {
    if system.len() > 0 { system + "\n\n"@ + block } else { block }
}

fn push_section(system: &mut String, block: &str)
    ensures
        final(system)@ == with_section(old(system)@, block@),
{
    if !system.as_str().is_empty() {
        push_str(system, "\n\n");
    }
    push_str(system, block);
}

/// Each item on a line of its own after a header: `"\n" + item` per item, in order.
pub open spec fn item_lines(items: Seq<Seq<char>>) -> Seq<char>
    decreases items.len(),
{
    if items.len() == 0 {
        seq![]
    } else {
        item_lines(items.drop_last()) + "\n"@ + items.last()
    }
}

fn push_item_lines(s: &mut String, items: &Vec<String>)
    ensures
        final(s)@ == old(s)@ + item_lines(views(items@)),
{
    let mut i: usize = 0;
    while i < items.len()
        invariant
            i <= items@.len(),
            s@ == old(s)@ + item_lines(views(items@.take(i as int))),
        decreases items@.len() - i,
    {
        push_char(s, '\n');
        push_str(s, items[i].as_str());
        proof {
            reveal_strlit("\n");
            assert(views(items@.take(i + 1)).drop_last() =~= views(items@.take(i as int)));
            assert(views(items@.take(i + 1)).last() == items@[i as int]@);
            assert(s@ =~= old(s)@ + item_lines(views(items@.take(i as int))) + "\n"@ + items@[i as int]@);
        }
        i = i + 1;
    }
    assert(items@.take(items@.len() as int) =~= items@);
}

// ---------------------------------------------------------------------------------------------
// Ring 2: the recent working turns, newest first under the budget

/// `a - b` floored at zero.
pub open spec fn sat_sub(a: int, b: int) -> int {
    if a > b { a - b } else { 0 }
}

/// The Ring-2 selection over the entries `es[..k]`, walking newest first with `used` chars
/// already taken (each entry costs its length plus a newline), in chronological order. A lone
/// newest entry over the cap is cut to fit with `...` rather than dropped.
pub open spec fn ring2_from(es: Seq<Seq<char>>, cap: Option<int>, k: int, used: int) -> Seq<(int, Seq<char>)>
    decreases k,
{
    if k <= 0 || k > es.len() {
        seq![]
    } else {
        let i = k - 1;
        let e = es[i];
        let len = e.len() + 1;
        match cap {
            Some(c) => if k == es.len() && len > c {
                seq![(i, prefix(e, sat_sub(c, 3)) + "..."@)]
            } else if used + len > c {
                seq![]
            } else {
                ring2_from(es, cap, k - 1, used + len).push((i, e))
            },
            None => ring2_from(es, cap, k - 1, used + len).push((i, e)),
        }
    }
}

/// The Ring-2 selection over the working entries (oldest first): `(index, text)` pairs.
pub open spec fn ring2_selection(es: Seq<Seq<char>>, cap: Option<int>) -> Seq<(int, Seq<char>)> {
    ring2_from(es, cap, es.len() as int, 0)
}

pub open spec fn pair_views(v: Seq<(usize, String)>) -> Seq<(int, Seq<char>)> {
    v.map_values(|p: (usize, String)| (p.0 as int, p.1@))
}

/// Select the Ring-2 working entries under the char cap (see [`ring2_selection`]).
pub fn select_ring2(entries: &Vec<String>, cap: Option<usize>) -> (r: Vec<(usize, String)>)
    ensures
        pair_views(r@) == ring2_selection(views(entries@), match cap { Some(c) => Some(c as int), None => None }),
        forall|j: int| 0 <= j < r@.len() ==> #[trigger] r@[j].0 < entries@.len(),
{
    let ghost es = views(entries@);
    let ghost gcap: Option<int> = match cap { Some(c) => Some(c as int), None => None };
    let n = entries.len();
    let mut out: Vec<(usize, String)> = Vec::new();
    let mut k = n;
    let mut used: usize = 0;
    let ghost mut gused: int = 0;
    while k > 0
        invariant
            k <= n == entries@.len(),
            es == views(entries@),
            gcap == match cap { Some(c) => Some(c as int), None => None },
            ring2_selection(es, gcap) == ring2_from(es, gcap, k as int, gused) + pair_views(out@),
            forall|j: int| 0 <= j < out@.len() ==> #[trigger] out@[j].0 < n,
            match cap {
                Some(c) => used == gused && used <= c,
                None => true,
            },
        decreases k,
    {
        let i = k - 1;
        let ev = chars_of(entries[i].as_str());
        let len_chars = ev.len();
        let ghost old_out = out@;
        let ghost e = es[i as int];
        assert(ev@ == e);
        match cap {
            Some(c) => {
                if k == n && len_chars >= c {
                    let keep = if c >= 3 { c - 3 } else { 0 };
                    let hi = if ev.len() > keep { keep } else { ev.len() };
                    let mut t = string_at(&ev, 0, hi);
                    push_str(&mut t, "...");
                    out.insert(0, (i, t));
                    proof {
                        assert(ev@.subrange(0, hi as int) =~= prefix(e, sat_sub(c as int, 3)));
                        assert(pair_views(out@) =~= seq![(i as int, prefix(e, sat_sub(c as int, 3)) + "..."@)] + pair_views(old_out));
                        assert(ring2_from(es, gcap, 0, gused) =~= Seq::<(int, Seq<char>)>::empty());
                    }
                    k = 0;
                } else if len_chars >= c - used {
                    proof {
                        assert(ring2_from(es, gcap, k as int, gused) =~= Seq::<(int, Seq<char>)>::empty());
                        assert(ring2_from(es, gcap, 0, gused) =~= Seq::<(int, Seq<char>)>::empty());
                    }
                    k = 0;
                } else {
                    used = used + len_chars + 1;
                    let t = entries[i].clone();
                    out.insert(0, (i, t));
                    proof {
                        assert(pair_views(out@) =~= seq![(i as int, e)] + pair_views(old_out));
                        gused = gused + e.len() + 1;
                    }
                    k = i;
                }
            },
            None => {
                let t = entries[i].clone();
                out.insert(0, (i, t));
                proof {
                    assert(pair_views(out@) =~= seq![(i as int, e)] + pair_views(old_out));
                    gused = gused + e.len() + 1;
                }
                k = i;
            },
        }
    }
    assert(ring2_from(es, gcap, 0, gused) =~= Seq::<(int, Seq<char>)>::empty());
    assert(ring2_selection(es, gcap) =~= pair_views(out@));
    out
}

/// The chars a selection occupies: each text plus its newline.
pub open spec fn texts_chars(sel: Seq<(int, Seq<char>)>) -> int
    decreases sel.len(),
{
    if sel.len() == 0 {
        0
    } else {
        texts_chars(sel.drop_last()) + sel.last().1.len() + 1
    }
}

proof fn lemma_ring2_from_budget(es: Seq<Seq<char>>, c: int, k: int, used: int)
    requires
        0 <= used <= c,
        k < es.len(),
    ensures
        texts_chars(ring2_from(es, Some(c), k, used)) + used <= c,
    decreases k,
{
    if k > 0 {
        let e = es[k - 1];
        if used + e.len() + 1 <= c {
            lemma_ring2_from_budget(es, c, k - 1, used + e.len() + 1);
            let rest = ring2_from(es, Some(c), k - 1, used + e.len() + 1);
            assert(rest.push((k - 1, e)).drop_last() =~= rest);
        }
    }
}

/// Ring 2 stays within its char budget: the selected entries (each with its newline) fit the
/// cap, unless the newest entry alone runs over it, and then it is the only one, cut to fit.
pub proof fn lemma_ring2_within_budget(es: Seq<Seq<char>>, c: int)
    requires
        c >= 0,
    ensures
        ({
            let sel = ring2_selection(es, Some(c));
            ||| texts_chars(sel) <= c
            ||| sel == seq![(es.len() - 1, prefix(es.last(), sat_sub(c, 3)) + "..."@)]
        }),
{
    let n = es.len() as int;
    if n > 0 {
        let e = es[n - 1];
        if e.len() + 1 <= c {
            lemma_ring2_from_budget(es, c, n - 1, (e.len() + 1) as int);
            let rest = ring2_from(es, Some(c), n - 1, (e.len() + 1) as int);
            assert(rest.push((n - 1, e)).drop_last() =~= rest);
        }
    }
}

/// The newest turn always survives Ring-2 selection (whole, or cut to the cap): working memory
/// never goes blind under budget pressure.
pub proof fn lemma_ring2_keeps_the_newest(es: Seq<Seq<char>>, cap: Option<int>)
    requires
        es.len() > 0,
    ensures
        ring2_selection(es, cap).len() > 0,
        ring2_selection(es, cap).last().0 == es.len() - 1,
{
}

// ---------------------------------------------------------------------------------------------
// Ring 4: semantically relevant earlier entries, already ranked by the caller

/// The ranked candidates minus those Ring 2 already carries.
pub open spec fn excluding(cs: Seq<(bool, Seq<char>)>, ex: Seq<Seq<char>>) -> Seq<(bool, Seq<char>)>
    decreases cs.len(),
{
    if cs.len() == 0 {
        seq![]
    } else if ex.contains(cs.last().1) {
        excluding(cs.drop_last(), ex)
    } else {
        excluding(cs.drop_last(), ex).push(cs.last())
    }
}

/// The Ring-4 picks from ranked `(relevant, text)` candidates, best first: at most `k`, stopping
/// at the first candidate that is not relevant (a similarity at or below zero never injects) or
/// that would run the char cap over.
pub open spec fn recall_picks(cs: Seq<(bool, Seq<char>)>, k: int, cap: Option<int>, used: int) -> Seq<Seq<char>>
    decreases cs.len(),
{
    if cs.len() == 0 || k <= 0 || !cs[0].0 {
        seq![]
    } else {
        let t = cs[0].1;
        let len = t.len() + 1;
        match cap {
            Some(c) => if used + len > c {
                seq![]
            } else {
                seq![t] + recall_picks(cs.drop_first(), k - 1, cap, used + len)
            },
            None => seq![t] + recall_picks(cs.drop_first(), k - 1, cap, used + len),
        }
    }
}

/// The chars a run of Ring-4 picks takes: each text with its newline.
pub open spec fn chars_used(cs: Seq<(bool, Seq<char>)>) -> int
    decreases cs.len(),
{
    if cs.len() == 0 {
        0
    } else {
        cs[0].1.len() + 1 + chars_used(cs.drop_first())
    }
}

/// Whether a run of ranked candidates may all be injected: at most `k` of them, each relevant,
/// and (under a cap) their chars, after the `used` ones, within it.
pub open spec fn admissible(cs: Seq<(bool, Seq<char>)>, k: int, cap: Option<int>, used: int) -> bool {
    &&& cs.len() <= k
    &&& forall|i: int| 0 <= i < cs.len() ==> (#[trigger] cs[i]).0
    &&& match cap {
        Some(c) => used + chars_used(cs) <= c,
        None => true,
    }
}

proof fn lemma_admissible_unfold(cs: Seq<(bool, Seq<char>)>, k: int, cap: Option<int>, used: int)
    requires
        cs.len() > 0,
    ensures
        admissible(cs, k, cap, used) == (cs[0].0 && admissible(
            cs.drop_first(),
            k - 1,
            cap,
            used + cs[0].1.len() + 1,
        )),
{
    let d = cs.drop_first();
    if cs[0].0 && (forall|i: int| 0 <= i < d.len() ==> (#[trigger] d[i]).0) {
        assert forall|i: int| 0 <= i < cs.len() implies (#[trigger] cs[i]).0 by {
            if i > 0 {
                assert(cs[i] == d[i - 1]);
            }
        }
    }
    if forall|i: int| 0 <= i < cs.len() ==> (#[trigger] cs[i]).0 {
        assert(cs[0].0);
        assert forall|i: int| 0 <= i < d.len() implies (#[trigger] d[i]).0 by {
            assert(d[i] == cs[i + 1]);
        }
    }
}

/// Ring-4 recall takes the longest admissible prefix of the ranked candidates: its picks are the
/// texts of the first `n` candidates, those `n` may all be injected, and one more may not (or
/// none is left).
pub proof fn lemma_recall_takes_the_longest_prefix(cs: Seq<(bool, Seq<char>)>, k: int, cap: Option<int>, used: int)
    requires
        k >= 0,
        used >= 0,
        cap matches Some(c) ==> used <= c,
    ensures
        ({
            let n = recall_picks(cs, k, cap, used).len() as int;
            &&& n <= cs.len()
            &&& recall_picks(cs, k, cap, used) == cs.take(n).map_values(|x: (bool, Seq<char>)| x.1)
            &&& admissible(cs.take(n), k, cap, used)
            &&& (n == cs.len() || !admissible(cs.take(n + 1), k, cap, used))
        }),
    decreases cs.len(),
{
    let picks = recall_picks(cs, k, cap, used);
    let n = picks.len() as int;
    if cs.len() == 0 || k <= 0 || !cs[0].0 || (cap matches Some(c) && used + cs[0].1.len() + 1 > c) {
        assert(picks.len() == 0);
        assert(cs.take(0) =~= Seq::<(bool, Seq<char>)>::empty());
        assert(cs.take(0).map_values(|x: (bool, Seq<char>)| x.1) =~= Seq::<Seq<char>>::empty());
        if cs.len() > 0 {
            lemma_admissible_unfold(cs.take(1), k, cap, used);
            assert(cs.take(1)[0] == cs[0]);
            assert(cs.take(1).drop_first() =~= Seq::<(bool, Seq<char>)>::empty());
        }
    } else {
        let t = cs[0].1;
        let len = t.len() + 1;
        let d = cs.drop_first();
        lemma_recall_takes_the_longest_prefix(d, k - 1, cap, used + len);
        let rest = recall_picks(d, k - 1, cap, used + len);
        let m = rest.len() as int;
        assert(picks == seq![t] + rest);
        assert(n == m + 1);
        assert(cs.take(n).drop_first() =~= d.take(m));
        assert(cs.take(n)[0] == cs[0]);
        lemma_admissible_unfold(cs.take(n), k, cap, used);
        assert(cs.take(n).map_values(|x: (bool, Seq<char>)| x.1) =~= seq![t] + d.take(m).map_values(
            |x: (bool, Seq<char>)| x.1,
        ));
        if n < cs.len() {
            assert(cs.take(n + 1).drop_first() =~= d.take(m + 1));
            assert(cs.take(n + 1)[0] == cs[0]);
            lemma_admissible_unfold(cs.take(n + 1), k, cap, used);
        }
    }
}

pub open spec fn ranked_views(v: Seq<(bool, String)>) -> Seq<(bool, Seq<char>)> {
    v.map_values(|p: (bool, String)| (p.0, p.1@))
}

/// Whether `v` holds a string equal to `s`.
fn contains_str(v: &Vec<String>, s: &str) -> (r: bool)
    ensures
        r == views(v@).contains(s@),
{
    let mut i: usize = 0;
    while i < v.len()
        invariant
            i <= v@.len(),
            forall|j: int| 0 <= j < i ==> v@[j]@ != s@,
        decreases v@.len() - i,
    {
        if str_eq(v[i].as_str(), s) {
            assert(views(v@)[i as int] == s@);
            return true;
        }
        i = i + 1;
    }
    assert(!views(v@).contains(s@)) by {
        assert forall|j: int| 0 <= j < views(v@).len() implies views(v@)[j] != s@ by {
            assert(v@[j]@ != s@);
        }
    }
    false
}

/// Pick the Ring-4 entries (see [`recall_picks`]) from the ranked candidates, leaving out what
/// Ring 2 already carries.
pub fn select_recall(ranked: &Vec<(bool, String)>, ring2: &Vec<String>, k: usize, cap: Option<usize>) -> (r: Vec<String>)
    ensures
        views(r@) == recall_picks(
            excluding(ranked_views(ranked@), views(ring2@)),
            k as int,
            match cap { Some(c) => Some(c as int), None => None },
            0,
        ),
{
    let ghost gcap: Option<int> = match cap { Some(c) => Some(c as int), None => None };
    let ghost ex = views(ring2@);
    // the candidates Ring 2 does not carry, best first
    let mut cands: Vec<(bool, String)> = Vec::new();
    let mut i: usize = 0;
    while i < ranked.len()
        invariant
            i <= ranked@.len(),
            ex == views(ring2@),
            ranked_views(cands@) == excluding(ranked_views(ranked@.take(i as int)), ex),
        decreases ranked@.len() - i,
    {
        proof {
            assert(ranked_views(ranked@.take(i + 1)).drop_last() =~= ranked_views(ranked@.take(i as int)));
            assert(ranked_views(ranked@.take(i + 1)).last() == (ranked@[i as int].0, ranked@[i as int].1@));
        }
        if !contains_str(ring2, ranked[i].1.as_str()) {
            let ghost before = ranked_views(cands@);
            let c = (ranked[i].0, ranked[i].1.clone());
            cands.push(c);
            assert(ranked_views(cands@) =~= before.push((ranked@[i as int].0, ranked@[i as int].1@)));
        }
        i = i + 1;
    }
    assert(ranked@.take(ranked@.len() as int) =~= ranked@);
    let ghost cs = ranked_views(cands@);
    let mut picks: Vec<String> = Vec::new();
    let mut j: usize = 0;
    let mut used: usize = 0;
    let ghost mut gused: int = 0;
    let mut stop = false;
    assert(cs.subrange(0, cs.len() as int) =~= cs);
    while j < cands.len() && !stop
        invariant
            j <= cands@.len(),
            cs == ranked_views(cands@),
            gcap == match cap { Some(c) => Some(c as int), None => None },
            picks@.len() <= k,
            recall_picks(cs, k as int, gcap, 0) == views(picks@) + if stop {
                seq![]
            } else {
                recall_picks(cs.subrange(j as int, cs.len() as int), k - picks@.len(), gcap, gused)
            },
            match cap {
                Some(c) => used == gused && used <= c,
                None => true,
            },
        decreases cands@.len() - j + if stop { 0int } else { 1int },
    {
        let ghost rest = cs.subrange(j as int, cs.len() as int);
        proof {
            assert(rest.drop_first() =~= cs.subrange(j + 1, cs.len() as int));
            assert(rest[0] == cs[j as int]);
        }
        let tv = chars_of(cands[j].1.as_str());
        let len_chars = tv.len();
        if picks.len() >= k || !cands[j].0 {
            stop = true;
        } else {
            let fits = match cap {
                Some(c) => len_chars < c - used,
                None => true,
            };
            if !fits {
                stop = true;
            } else {
                let ghost before = views(picks@);
                picks.push(cands[j].1.clone());
                proof {
                    assert(views(picks@) =~= before + seq![cs[j as int].1]);
                    gused = gused + tv@.len() + 1;
                }
                if let Some(c) = cap {
                    used = used + len_chars + 1;
                }
                j = j + 1;
            }
        }
    }
    if !stop {
        assert(cs.subrange(j as int, cs.len() as int) =~= Seq::<(bool, Seq<char>)>::empty());
    }
    assert(views(picks@) =~= recall_picks(cs, k as int, gcap, 0));
    picks
}

// ---------------------------------------------------------------------------------------------
// the assembled ringed context

/// The working-memory entries of the recent turns, oldest first.
pub open spec fn summaries(turns: Seq<(String, String)>) -> Seq<Seq<char>> {
    turns.map_values(|t: (String, String)| summary(t.0@, t.1@))
}

/// The Ring-1 exemplar sections of an optional pool.
pub open spec fn pool_of(pool: Option<Seq<char>>) -> Seq<Seq<char>> {
    match pool {
        Some(p) => pool_sections(p),
        None => seq![],
    }
}

pub open spec fn opt_view(o: Option<&str>) -> Option<Seq<char>> {
    match o {
        Some(s) => Some(s@),
        None => None,
    }
}

pub open spec fn exemplars_label() -> Seq<char> {
    "Calibration exemplars (how you engage):\n"@
}

pub open spec fn narrative_label() -> Seq<char> {
    "Narrative so far (your compressed memory; facts of record live in the Tape):\n"@
}

pub open spec fn recall_label() -> Seq<char> {
    "Relevant earlier (semantic recall):"@
}

pub open spec fn recent_label() -> Seq<char> {
    "Recent context (oldest first):"@
}

/// The Ring-2 texts a selection carries, in order.
pub open spec fn sel_texts(sel: Seq<(int, Seq<char>)>) -> Seq<Seq<char>> {
    sel.map_values(|p: (int, Seq<char>)| p.1)
}

/// The system preamble of an assembled context, ring by ring: Ring 0 (the soul, verbatim), Ring 1
/// (exemplars), Ring 3 (the narrative), Ring 4 (recall), then Ring 2 (recent turns) unless those
/// ride as conversation messages; blocks separated by a blank line.
pub open spec fn assembled_system(
    soul: Seq<char>,
    pool: Option<Seq<char>>,
    narrative_raw: Option<Seq<char>>,
    turns: Seq<(String, String)>,
    ranked: Seq<(bool, Seq<char>)>,
    k: int,
    b: TokenBudget,
    conversation: bool,
) -> Seq<char> {
    let sections = pool_of(pool);
    let s1 = if sections.len() > 0 {
        with_section(soul, exemplars_label() + exemplar_block(sections, b.ring1))
    } else {
        soul
    };
    let s2 = match narrative_view(narrative_raw) {
        Some(n) => with_section(
            s1,
            narrative_label() + budget_trim(n, spec_chars_cap(b.ring3), "\n...[narrative trimmed to budget]"@),
        ),
        None => s1,
    };
    let texts = sel_texts(ring2_selection(summaries(turns), spec_chars_cap(b.ring2)));
    let picks = recall_picks(excluding(ranked, texts), k, spec_chars_cap(b.ring4), 0);
    let s3 = if picks.len() > 0 { with_section(s2, recall_label() + item_lines(picks)) } else { s2 };
    if !conversation && texts.len() > 0 {
        with_section(s3, recent_label() + item_lines(texts))
    } else {
        s3
    }
}

/// Whether `m` is a plain text message from `role` holding exactly `t`.
pub open spec fn is_text_message(m: Message, role: Role, t: Seq<char>) -> bool {
    &&& m.role == role
    &&& m.content@.len() == 1
    &&& m.content@[0] matches Content::Text { text } && text@ == t
    &&& m.name is None
    &&& m.reasoning_content is None
    &&& m.tool_call_id is None
}

/// The char cap on each Ring-2 conversation message: the ring-2 cap, else unbounded.
pub open spec fn conversation_cap(b: TokenBudget) -> int {
    match spec_chars_cap(b.ring2) {
        Some(c) => c,
        None => usize::MAX as int,
    }
}

fn text_message(role: Role, text: String) -> (m: Message)
    ensures
        is_text_message(m, role, text@),
{
    let mut content: Vec<Content> = Vec::new();
    content.push(Content::Text { text });
    Message { role, content, name: None, reasoning_content: None, tool_call_id: None }
}

/// Assemble the ringed context for a turn (see [`assembled_system`]). `exemplar_pool` and
/// `narrative_raw` are the register files' contents (`None` when absent); `turns` are the recent
/// turns, oldest first, as `(user text, answer)`; `ranked` are the Ring-4 candidates best first,
/// each marked relevant when its similarity is above zero (empty when recall is off).
pub fn assemble_context(
    soul: &str,
    exemplar_pool: Option<&str>,
    narrative_raw: Option<&str>,
    turns: &Vec<(String, String)>,
    ranked: &Vec<(bool, String)>,
    recall_k: usize,
    budget: &TokenBudget,
    ring2_conversation: bool,
) -> (r: AssembledContext)
    requires
        budget_fits(*budget),
    ensures
        r.system@ == assembled_system(
            soul@,
            opt_view(exemplar_pool),
            opt_view(narrative_raw),
            turns@,
            ranked_views(ranked@),
            recall_k as int,
            *budget,
            ring2_conversation,
        ),
        ({
            let sel = ring2_selection(summaries(turns@), spec_chars_cap(budget.ring2));
            if ring2_conversation {
                &&& r.conversation@.len() == 2 * sel.len()
                &&& forall|j: int|
                    0 <= j < sel.len() ==> {
                        &&& 0 <= sel[j].0 < turns@.len()
                        &&& is_text_message(
                            #[trigger] r.conversation@[2 * j],
                            Role::User,
                            prefix(turns@[sel[j].0].0@, conversation_cap(*budget)),
                        )
                        &&& is_text_message(
                            r.conversation@[2 * j + 1],
                            Role::Assistant,
                            prefix(trim(turns@[sel[j].0].1@), conversation_cap(*budget)),
                        )
                    }
            } else {
                r.conversation@.len() == 0
            }
        }),
        r.exemplars@.len() == 0,
        r.history@.len() == 0,
        r.retrieved@.len() == 0,
        r.budget == *budget,
{
    let mut system = String::from_str(soul);
    // Ring 1: exemplars
    let sections = match exemplar_pool {
        Some(p) => exemplar_sections(p),
        None => Vec::new(),
    };
    assert(views(sections@) == pool_of(opt_view(exemplar_pool)));
    if sections.len() > 0 {
        let mut block = String::from_str("Calibration exemplars (how you engage):\n");
        let body = exemplar_block_of(&sections, budget.ring1);
        push_str(&mut block, body.as_str());
        push_section(&mut system, block.as_str());
    }
    let ghost s1 = system@;
    // Ring 3: the narrative, cut to its budget head first
    match narrative_of(narrative_raw) {
        Some(n) => {
            let mut block = String::from_str(
                "Narrative so far (your compressed memory; facts of record live in the Tape):\n",
            );
            let shown = trim_to_budget(n, chars_cap(budget.ring3), "\n...[narrative trimmed to budget]");
            push_str(&mut block, shown.as_str());
            push_section(&mut system, block.as_str());
        },
        None => {},
    }
    let ghost s2 = system@;
    // Ring 2 selection (emitted last)
    let mut entries: Vec<String> = Vec::new();
    let mut i: usize = 0;
    while i < turns.len()
        invariant
            i <= turns@.len(),
            views(entries@) == summaries(turns@.take(i as int)),
        decreases turns@.len() - i,
    {
        let e = summarize(turns[i].0.as_str(), turns[i].1.as_str());
        let ghost before = views(entries@);
        let ghost ev = e@;
        entries.push(e);
        assert(views(entries@) =~= before.push(ev));
        assert(summaries(turns@.take(i + 1)) =~= summaries(turns@.take(i as int)).push(
            summary(turns@[i as int].0@, turns@[i as int].1@),
        ));
        assert(views(entries@) =~= summaries(turns@.take(i + 1)));
        i = i + 1;
    }
    assert(turns@.take(turns@.len() as int) =~= turns@);
    let sel = select_ring2(&entries, chars_cap(budget.ring2));
    let ghost gsel = ring2_selection(summaries(turns@), spec_chars_cap(budget.ring2));
    assert(pair_views(sel@) == gsel);
    assert(views(entries@).len() == entries@.len());
    assert(entries@.len() == turns@.len());
    assert forall|q: int| 0 <= q < gsel.len() implies 0 <= #[trigger] gsel[q].0 < turns@.len() by {
        assert(gsel[q].0 == sel@[q].0 as int);
    }
    let mut texts: Vec<String> = Vec::new();
    let mut j: usize = 0;
    while j < sel.len()
        invariant
            j <= sel@.len(),
            pair_views(sel@) == gsel,
            views(texts@) == sel_texts(gsel.take(j as int)),
        decreases sel@.len() - j,
    {
        let ghost before = views(texts@);
        let t = sel[j].1.clone();
        let ghost tv = t@;
        texts.push(t);
        assert(tv == gsel[j as int].1);
        assert(views(texts@) =~= before.push(tv));
        assert(sel_texts(gsel.take(j + 1)) =~= sel_texts(gsel.take(j as int)).push(gsel[j as int].1));
        assert(views(texts@) =~= sel_texts(gsel.take(j + 1)));
        j = j + 1;
    }
    assert(gsel.take(gsel.len() as int) =~= gsel);
    // Ring 4: recall, under its own budget, leaving out what Ring 2 carries
    let picks = select_recall(ranked, &texts, recall_k, chars_cap(budget.ring4));
    if picks.len() > 0 {
        let mut block = String::from_str("Relevant earlier (semantic recall):");
        push_item_lines(&mut block, &picks);
        push_section(&mut system, block.as_str());
    }
    // Ring 2: conversation messages, or a preamble block
    let mut conversation: Vec<Message> = Vec::new();
    if ring2_conversation {
        let cc = match chars_cap(budget.ring2) {
            Some(c) => c,
            None => usize::MAX,
        };
        let mut m: usize = 0;
        while m < sel.len()
            invariant
                m <= sel@.len(),
                pair_views(sel@) == gsel,
                forall|q: int| 0 <= q < sel@.len() ==> #[trigger] sel@[q].0 < turns@.len(),
                cc == conversation_cap(*budget),
                conversation@.len() == 2 * m,
                forall|q: int|
                    0 <= q < m ==> {
                        &&& is_text_message(
                            #[trigger] conversation@[2 * q],
                            Role::User,
                            prefix(turns@[gsel[q].0].0@, cc as int),
                        )
                        &&& is_text_message(
                            conversation@[2 * q + 1],
                            Role::Assistant,
                            prefix(trim(turns@[gsel[q].0].1@), cc as int),
                        )
                    },
            decreases sel@.len() - m,
        {
            let ti = sel[m].0;
            assert(gsel[m as int].0 == ti as int);
            let u = take_chars(turns[ti].0.as_str(), cc);
            let av = chars_of(turns[ti].1.as_str());
            let (a, b) = trim_at(&av, 0, av.len());
            assert(av@.subrange(0, av@.len() as int) =~= turns@[ti as int].1@);
            let at = string_at(&av, a, b);
            let ans = take_chars(at.as_str(), cc);
            let ghost oc = conversation@;
            let um = text_message(Role::User, u);
            let am = text_message(Role::Assistant, ans);
            conversation.push(um);
            conversation.push(am);
            proof {
                assert(conversation@.len() == 2 * m + 2);
                assert(conversation@[2 * m as int] == um);
                assert(conversation@[2 * m + 1] == am);
                assert forall|q: int| 0 <= q < m + 1 implies {
                    &&& is_text_message(
                        #[trigger] conversation@[2 * q],
                        Role::User,
                        prefix(turns@[gsel[q].0].0@, cc as int),
                    )
                    &&& is_text_message(
                        conversation@[2 * q + 1],
                        Role::Assistant,
                        prefix(trim(turns@[gsel[q].0].1@), cc as int),
                    )
                } by {
                    if q < m {
                        assert(conversation@[2 * q] == oc[2 * q]);
                        assert(conversation@[2 * q + 1] == oc[2 * q + 1]);
                    }
                }
            }
            m = m + 1;
        }
    } else if texts.len() > 0 {
        let mut block = String::from_str("Recent context (oldest first):");
        push_item_lines(&mut block, &texts);
        push_section(&mut system, block.as_str());
    }
    let mut r = AssembledContext::default();
    r.system = system;
    r.conversation = conversation;
    r.budget = *budget;
    r
}

/// Ring 0 leads the assembled preamble verbatim: whatever the budgets, the soul is never trimmed.
pub proof fn lemma_soul_leads_verbatim(
    soul: Seq<char>,
    pool: Option<Seq<char>>,
    narrative_raw: Option<Seq<char>>,
    turns: Seq<(String, String)>,
    ranked: Seq<(bool, Seq<char>)>,
    k: int,
    b: TokenBudget,
    conversation: bool,
)
    ensures
        starts_with(assembled_system(soul, pool, narrative_raw, turns, ranked, k, b, conversation), soul),
{
    let sections = pool_of(pool);
    let s1 = if sections.len() > 0 {
        with_section(soul, exemplars_label() + exemplar_block(sections, b.ring1))
    } else {
        soul
    };
    let s2 = match narrative_view(narrative_raw) {
        Some(n) => with_section(
            s1,
            narrative_label() + budget_trim(n, spec_chars_cap(b.ring3), "\n...[narrative trimmed to budget]"@),
        ),
        None => s1,
    };
    let texts = sel_texts(ring2_selection(summaries(turns), spec_chars_cap(b.ring2)));
    let picks = recall_picks(excluding(ranked, texts), k, spec_chars_cap(b.ring4), 0);
    let s3 = if picks.len() > 0 { with_section(s2, recall_label() + item_lines(picks)) } else { s2 };
    let s4 = if !conversation && texts.len() > 0 {
        with_section(s3, recent_label() + item_lines(texts))
    } else {
        s3
    };
    assert(soul.subrange(0, soul.len() as int) =~= soul);
    lemma_section_keeps_prefix(soul, exemplars_label() + exemplar_block(sections, b.ring1));
    assert(starts_with(s1, soul));
    if let Some(n) = narrative_view(narrative_raw) {
        lemma_section_keeps_prefix(s1, narrative_label() + budget_trim(n, spec_chars_cap(b.ring3), "\n...[narrative trimmed to budget]"@));
        lemma_starts_with_trans(s2, s1, soul);
    }
    assert(starts_with(s2, soul));
    lemma_section_keeps_prefix(s2, recall_label() + item_lines(picks));
    if picks.len() > 0 {
        lemma_starts_with_trans(s3, s2, soul);
    }
    assert(starts_with(s3, soul));
    lemma_section_keeps_prefix(s3, recent_label() + item_lines(texts));
    if !conversation && texts.len() > 0 {
        lemma_starts_with_trans(s4, s3, soul);
    }
}

/// Whether `needle` occurs somewhere in `hay`.
pub open spec fn occurs_in(hay: Seq<char>, needle: Seq<char>) -> bool {
    exists|i: int| 0 <= i && i + needle.len() <= hay.len() && #[trigger] hay.subrange(i, i + needle.len()) == needle
}

/// A narrative reaches the assembled preamble whatever the other rings hold: its block (the label,
/// then the narrative cut head-first to the Ring-3 cap with the trim marker) occurs in it.
pub proof fn lemma_narrative_is_in_the_preamble(
    soul: Seq<char>,
    pool: Option<Seq<char>>,
    narrative_raw: Option<Seq<char>>,
    turns: Seq<(String, String)>,
    ranked: Seq<(bool, Seq<char>)>,
    k: int,
    b: TokenBudget,
    conversation: bool,
)
    requires
        narrative_view(narrative_raw) is Some,
    ensures
        occurs_in(
            assembled_system(soul, pool, narrative_raw, turns, ranked, k, b, conversation),
            narrative_label() + budget_trim(
                narrative_view(narrative_raw)->0,
                spec_chars_cap(b.ring3),
                "\n...[narrative trimmed to budget]"@,
            ),
        ),
{
    let n = narrative_view(narrative_raw)->0;
    let block = narrative_label() + budget_trim(n, spec_chars_cap(b.ring3), "\n...[narrative trimmed to budget]"@);
    let sections = pool_of(pool);
    let s1 = if sections.len() > 0 {
        with_section(soul, exemplars_label() + exemplar_block(sections, b.ring1))
    } else {
        soul
    };
    let s2 = with_section(s1, block);
    let texts = sel_texts(ring2_selection(summaries(turns), spec_chars_cap(b.ring2)));
    let picks = recall_picks(excluding(ranked, texts), k, spec_chars_cap(b.ring4), 0);
    let s3 = if picks.len() > 0 { with_section(s2, recall_label() + item_lines(picks)) } else { s2 };
    let s4 = if !conversation && texts.len() > 0 {
        with_section(s3, recent_label() + item_lines(texts))
    } else {
        s3
    };
    assert(s4 == assembled_system(soul, pool, narrative_raw, turns, ranked, k, b, conversation));
    let p = s2.len() - block.len();
    assert(s2.subrange(p, p + block.len()) =~= block);
    assert(s2.subrange(0, s2.len() as int) =~= s2);
    assert(starts_with(s2, s2));
    lemma_section_keeps_prefix(s2, recall_label() + item_lines(picks));
    if picks.len() > 0 {
        lemma_starts_with_trans(s3, s2, s2);
    }
    assert(starts_with(s3, s2));
    lemma_section_keeps_prefix(s3, recent_label() + item_lines(texts));
    if !conversation && texts.len() > 0 {
        lemma_starts_with_trans(s4, s3, s2);
    }
    assert(starts_with(s4, s2));
    assert(s4.subrange(p, p + block.len()) =~= s2.subrange(p, p + block.len()));
}

proof fn lemma_section_keeps_prefix(s: Seq<char>, block: Seq<char>)
    ensures
        starts_with(with_section(s, block), s),
{
    if s.len() > 0 {
        assert((s + "\n\n"@ + block).subrange(0, s.len() as int) =~= s);
    } else {
        assert(with_section(s, block).subrange(0, 0) =~= s);
    }
}

proof fn lemma_starts_with_trans(a: Seq<char>, b: Seq<char>, c: Seq<char>)
    requires
        starts_with(a, b),
        starts_with(b, c),
    ensures
        starts_with(a, c),
{
    assert(a.subrange(0, c.len() as int) =~= b.subrange(0, c.len() as int));
}

/// Ring-2 context pressure: whether the working entries (each with a newline) exceed the
/// ring-2 char budget; never under an uncapped ring.
pub fn ring2_over_budget(entries: &Vec<String>, ring2: u32) -> (r: bool)
    requires
        ring2 * 4 <= usize::MAX,
    ensures
        r == match spec_chars_cap(ring2) {
            Some(c) => total_chars(views(entries@)) > c,
            None => false,
        },
{
    let cap = match chars_cap(ring2) {
        Some(c) => c,
        None => return false,
    };
    let mut total: usize = 0;
    let mut i: usize = 0;
    while i < entries.len()
        invariant
            i <= entries@.len(),
            total == total_chars(views(entries@.take(i as int))),
            total <= cap,
            cap as int == ring2 * 4,
            ring2 != 0,
        decreases entries@.len() - i,
    {
        let cv = chars_of(entries[i].as_str());
        let n = cv.len();
        proof {
            assert(n == entries@[i as int]@.len());
            assert(views(entries@.take(i + 1)).drop_last() =~= views(entries@.take(i as int)));
            assert(views(entries@.take(i + 1)).last() == entries@[i as int]@);
            assert(views(entries@.take(i + 1)) =~= views(entries@).take(i + 1));
        }
        if n >= cap - total {
            proof {
                let x = views(entries@.take(i + 1));
                assert(total_chars(x) == total_chars(x.drop_last()) + x.last().len() + 1);
                assert(total_chars(x) > cap);
                lemma_total_chars_grows(views(entries@), i + 1);
                assert(x == views(entries@).take(i + 1));
                assert(total_chars(views(entries@)) > cap);
                assert(spec_chars_cap(ring2) == Some(cap as int));
            }
            return true;
        }
        total = total + n + 1;
        i = i + 1;
    }
    assert(entries@.take(entries@.len() as int) =~= entries@);
    false
}

/// The chars the entries occupy, each with its newline.
pub open spec fn total_chars(es: Seq<Seq<char>>) -> int
    decreases es.len(),
{
    if es.len() == 0 {
        0
    } else {
        total_chars(es.drop_last()) + es.last().len() + 1
    }
}

proof fn lemma_total_chars_grows(es: Seq<Seq<char>>, i: int)
    requires
        0 <= i <= es.len(),
    ensures
        total_chars(es.take(i)) <= total_chars(es),
    decreases es.len() - i,
{
    if i < es.len() {
        lemma_total_chars_grows(es, i + 1);
        assert(es.take(i + 1).drop_last() =~= es.take(i));
    } else {
        assert(es.take(i) =~= es);
    }
}

/// Whether a turn is memory maintenance (a consolidation or cold-eyes pass): model-authored, so
/// it never lands on the factual Tape.
pub open spec fn spec_is_maintenance_turn(source: Option<Seq<char>>, ty: Seq<char>) -> bool {
    source == Some("memory"@) || starts_with(ty, "memory:"@)
}

/// Whether a turn with this driver source and step type is memory maintenance (see
/// [`spec_is_maintenance_turn`]).
pub fn is_maintenance_turn(source: Option<&str>, ty: &str) -> (r: bool)
    ensures
        r == spec_is_maintenance_turn(opt_view(source), ty@),
{
    let from_memory = match source {
        Some(s) => str_eq(s, "memory"),
        None => false,
    };
    let tv = chars_of(ty);
    let p = chars_of("memory:");
    assert(tv@.subrange(0, tv@.len() as int) =~= ty@);
    from_memory || starts_with_at(&tv, 0, tv.len(), &p)
}

} // verus!

verus! {

/// The entries of a log that could be read, in order (`None` marks an unreadable line).
pub open spec fn readable<T>(lines: Seq<Option<T>>) -> Seq<T>
    decreases lines.len(),
{
    if lines.len() == 0 {
        seq![]
    } else {
        match lines.last() {
            Some(x) => readable(lines.drop_last()).push(x),
            None => readable(lines.drop_last()),
        }
    }
}

/// The last `n` of a sequence (all of it when shorter).
pub open spec fn last_n<T>(s: Seq<T>, n: nat) -> Seq<T> {
    if s.len() <= n {
        s
    } else {
        s.subrange(s.len() - n, s.len() as int)
    }
}

/// The newest `n` readable entries of an append-only log, oldest first: an unreadable line is
/// skipped and never fatal (the log outlives its schema).
pub fn newest_entries<T>(lines: Vec<Option<T>>, n: usize) -> (r: Vec<T>)
    ensures
        r@ == last_n(readable(lines@), n as nat),
{
    let ghost all = lines@;
    let ghost whole = readable(all);
    let mut lines = lines;
    let mut newest_first: Vec<T> = Vec::new();
    // walk back from the newest line, keeping readable entries until `n` are kept
    while newest_first.len() < n && lines.len() > 0
        invariant
            newest_first@.len() <= n,
            whole == readable(lines@) + newest_first@.reverse(),
        decreases lines@.len(),
    {
        let ghost before = lines@;
        let ghost kept = newest_first@;
        let last = lines.pop();
        proof {
            assert(lines@ =~= before.drop_last());
        }
        match last {
            Some(Some(x)) => {
                newest_first.push(x);
                proof {
                    assert(readable(before) == readable(lines@).push(x));
                    assert(newest_first@.reverse() =~= seq![x] + kept.reverse());
                    assert(readable(lines@) + newest_first@.reverse() =~= readable(before) + kept.reverse());
                }
            },
            _ => {
                proof {
                    assert(readable(before) == readable(lines@));
                }
            },
        }
    }
    proof {
        if lines@.len() == 0 {
            assert(readable(lines@) =~= Seq::<T>::empty());
            assert(whole =~= newest_first@.reverse());
        } else {
            assert(newest_first@.len() == n);
            assert(whole.subrange(whole.len() - n, whole.len() as int) =~= newest_first@.reverse());
        }
    }
    let ghost target = newest_first@.reverse();
    assert(target == last_n(whole, n as nat));
    // `newest_first` holds the kept entries newest first; flip them into chronological order
    let mut out: Vec<T> = Vec::new();
    while newest_first.len() > 0
        invariant
            out@ + newest_first@.reverse() == target,
        decreases newest_first@.len(),
    {
        let ghost before = newest_first@;
        let ghost done = out@;
        let x = newest_first.pop().unwrap();
        out.push(x);
        proof {
            assert(newest_first@ =~= before.drop_last());
            assert(before.reverse() =~= seq![x] + newest_first@.reverse());
            assert(out@ + newest_first@.reverse() =~= done + before.reverse());
        }
    }
    assert(out@ =~= out@ + newest_first@.reverse());
    out
}

} // verus!

verus! {

/// Whether a vector may join a sidecar: its dimension matches the index fingerprint's (a
/// fingerprint of dimension 0 accepts any). A mismatched vector came from another embedding
/// model and is dropped rather than stored as a wrong-model neighbor.
pub fn vector_fits(fingerprint_dim: usize, dim: usize) -> (r: bool)
    ensures
        r == (fingerprint_dim == 0 || dim == fingerprint_dim),
{
    fingerprint_dim == 0 || dim == fingerprint_dim
}

} // verus!
