//! What a consolidation stores: the placeholder guard, the deterministic fallback episode when a
//! reply misses the layout, and the plans for storing a consolidation or a correction.

use vstd::prelude::*;
use crate::consolidation::{
    consolidation_parts, field_state, folded_key, markers_overlap, parse_consolidation, split_on,
};
use crate::maintenance::{cap, nonempty_trimmed};
use crate::memory::Episode;
use crate::text::{
    char_pos_at, char_pos_from, chars_of, decimal, is_whitespace, is_ws, join, join_strings, lemma_char_pos_from_bounds,
    push_decimal, push_str, string_at, trim, trim_at, views,
};

verus! {

/// A narrative that only parrots the layout hint (`(the updated narrative)`, `<the narrative>`):
/// blank, or one short line wrapped in brackets or parentheses.
pub open spec fn is_placeholder(n: Seq<char>) -> bool {
    let t = trim(n);
    ||| t.len() == 0
    ||| {
        &&& (t[0] == '<' || t[0] == '(')
        &&& (t.last() == '>' || t.last() == ')')
        &&& !t.contains('\n')
        &&& t.len() < 64
    }
}

/// Whether a consolidation's narrative is a parroted placeholder (see [`is_placeholder`]): such
/// a reply produced no memory and is stored nowhere.
pub fn placeholder_narrative(n: &str) -> (r: bool)
    ensures
        r == is_placeholder(n@),
{
    let v = chars_of(n);
    let (a, b) = trim_at(&v, 0, v.len());
    assert(v@.subrange(0, v@.len() as int) =~= n@);
    let ghost t = v@.subrange(a as int, b as int);
    if a == b {
        return true;
    }
    let opens = v[a] == '<' || v[a] == '(';
    let closes = v[b - 1] == '>' || v[b - 1] == ')';
    let nl = char_pos_at(&v, a, b, '\n');
    proof {
        lemma_char_pos_from_bounds(t, '\n', 0);
        if nl is None {
            assert forall|i: int| 0 <= i < t.len() implies t[i] != '\n' by {}
        } else {
            assert(t.contains('\n'));
        }
    }
    opens && closes && nl.is_none() && b - a < 64
}

/// What a consolidation stores: the narrative (overwriting the rolling one) and the episode to
/// append, with whether the model's episode parsed; nothing for an empty reply or a placeholder.
pub struct ConsolidationPlan {
    pub narrative: String,
    pub episode: Episode,
    pub parsed: bool,
}

/// The first whitespace at or after `i` in `s`.
pub open spec fn ws_pos_from(s: Seq<char>, i: int) -> Option<int>
    decreases s.len() - i,
{
    if i < 0 || i >= s.len() {
        None
    } else if is_ws(s[i]) {
        Some(i)
    } else {
        ws_pos_from(s, i + 1)
    }
}

proof fn lemma_ws_pos_from_bounds(s: Seq<char>, i: int)
    ensures
        ws_pos_from(s, i) matches Some(j) ==> i <= j < s.len() && is_ws(s[j]),
    decreases s.len() - i,
{
    if i >= 0 && i < s.len() && !is_ws(s[i]) {
        lemma_ws_pos_from_bounds(s, i + 1);
    }
}

/// The pieces of `s` between whitespace chars (empty pieces included).
pub open spec fn split_ws(s: Seq<char>) -> Seq<Seq<char>>
    decreases s.len(),
{
    match ws_pos_from(s, 0) {
        Some(i) => if 0 <= i < s.len() {
            seq![s.subrange(0, i)] + split_ws(s.subrange(i + 1, s.len() as int))
        } else {
            seq![s]
        },
        None => seq![s],
    }
}

/// The words of `s` as `str::split_whitespace` yields them: the non-empty pieces between
/// whitespace (trimming such a piece leaves it as it is).
pub open spec fn words(s: Seq<char>) -> Seq<Seq<char>> {
    nonempty_trimmed(split_ws(s))
}

fn ws_pos_at(v: &Vec<char>, lo: usize, hi: usize) -> (r: Option<usize>)
    requires
        lo <= hi <= v@.len(),
    ensures
        match ws_pos_from(v@.subrange(lo as int, hi as int), 0) {
            Some(j) => r == Some((j + lo) as usize),
            None => r is None,
        },
{
    let ghost s = v@.subrange(lo as int, hi as int);
    let mut i = lo;
    while i < hi
        invariant
            lo <= i <= hi <= v@.len(),
            s == v@.subrange(lo as int, hi as int),
            ws_pos_from(s, 0) == ws_pos_from(s, i - lo),
        decreases hi - i,
    {
        if is_whitespace(v[i]) {
            return Some(i);
        }
        i = i + 1;
    }
    None
}

/// The words of `v[lo..hi]`.
pub(crate) fn words_at(v: &Vec<char>, lo: usize, hi: usize) -> (r: Vec<String>)
    requires
        lo <= hi <= v@.len(),
    ensures
        views(r@) == words(v@.subrange(lo as int, hi as int)),
{
    let ghost s = v@.subrange(lo as int, hi as int);
    let mut out: Vec<String> = Vec::new();
    let mut pos = lo;
    let ghost mut done: Seq<Seq<char>> = seq![];
    let mut finished = false;
    while !finished
        invariant
            lo <= pos <= hi <= v@.len(),
            s == v@.subrange(lo as int, hi as int),
            !finished ==> split_ws(s) == done + split_ws(v@.subrange(pos as int, hi as int)),
            finished ==> split_ws(s) == done,
            views(out@) == nonempty_trimmed(done),
        decreases hi - pos + if finished { 0int } else { 1int },
    {
        let ghost rest = v@.subrange(pos as int, hi as int);
        let next = ws_pos_at(v, pos, hi);
        proof {
            lemma_ws_pos_from_bounds(rest, 0);
        }
        let end = match next {
            Some(j) => j,
            None => hi,
        };
        let ghost piece = v@.subrange(pos as int, end as int);
        let (a, b) = trim_at(v, pos, end);
        proof {
            assert(done.push(piece).drop_last() =~= done);
        }
        if b > a {
            let ghost before = views(out@);
            out.push(string_at(v, a, b));
            assert(views(out@) =~= before.push(trim(piece)));
        }
        proof {
            match next {
                Some(j) => {
                    assert(rest.subrange(0, j - pos) =~= piece);
                    assert(rest.subrange(j - pos + 1, rest.len() as int) =~= v@.subrange(j + 1, hi as int));
                    assert(split_ws(s) =~= done.push(piece) + split_ws(v@.subrange(j + 1, hi as int)));
                },
                None => {
                    assert(rest =~= piece);
                    assert(split_ws(s) =~= done.push(piece));
                },
            }
            done = done.push(piece);
        }
        match next {
            Some(j) => {
                pos = j + 1;
            },
            None => {
                pos = hi;
                finished = true;
            },
        }
    }
    out
}

/// The first five words of a user turn, joined by single spaces: one fallback anchor.
pub open spec fn anchor_of(u: Seq<char>) -> Seq<char> {
    join(cap(words(u), 5), " "@)
}

/// The anchors of a fallback episode, from the non-empty user turns (oldest first): one per
/// each of the last four, newest first.
pub open spec fn fallback_anchors(users: Seq<Seq<char>>) -> Seq<Seq<char>> {
    let n = users.len() as int;
    let k = if n < 4 { n } else { 4 };
    Seq::new(k as nat, |j: int| anchor_of(users[n - 1 - j]))
}

/// The non-empty texts among `us`, in order.
pub open spec fn nonempty_texts(us: Seq<Seq<char>>) -> Seq<Seq<char>>
    decreases us.len(),
{
    if us.len() == 0 {
        seq![]
    } else if us.last().len() > 0 {
        nonempty_texts(us.drop_last()).push(us.last())
    } else {
        nonempty_texts(us.drop_last())
    }
}

/// What a fallback episode says it is.
pub open spec fn unparsed_summary(turns: nat) -> Seq<char> {
    "(unparsed consolidation) covered "@ + decimal(turns) + " turn(s)"@
}

/// The deterministic fallback episode when a consolidation reply missed the layout, built
/// model-free from the consolidated turns' user texts (empty for a turn with none) and flagged
/// unparsed.
pub fn fallback_episode(user_texts: &Vec<String>) -> (r: Episode)
    ensures
        r.span_turns == user_texts@.len(),
        r.what_happened@ == unparsed_summary(user_texts@.len()),
        r.what_changed@.len() == 0 && r.what_matters@.len() == 0 && r.unresolved@.len() == 0,
        views(r.anchors@) == fallback_anchors(nonempty_texts(views(user_texts@))),
        !r.parsed,
{
    let mut users: Vec<String> = Vec::new();
    let mut i: usize = 0;
    while i < user_texts.len()
        invariant
            i <= user_texts@.len(),
            views(users@) == nonempty_texts(views(user_texts@.take(i as int))),
        decreases user_texts@.len() - i,
    {
        proof {
            assert(views(user_texts@.take(i + 1)).drop_last() =~= views(user_texts@.take(i as int)));
            assert(views(user_texts@.take(i + 1)).last() == user_texts@[i as int]@);
        }
        if !user_texts[i].as_str().is_empty() {
            let ghost before = views(users@);
            users.push(user_texts[i].clone());
            assert(views(users@) =~= before.push(user_texts@[i as int]@));
        }
        i = i + 1;
    }
    assert(user_texts@.take(user_texts@.len() as int) =~= user_texts@);
    let ghost us = views(users@);
    let n = users.len();
    let k: usize = if n < 4 { n } else { 4 };
    let mut anchors: Vec<String> = Vec::new();
    let mut j: usize = 0;
    while j < k
        invariant
            j <= k,
            n == users@.len(),
            k == if n < 4 { n } else { 4 },
            us == views(users@),
            views(anchors@) == fallback_anchors(us).take(j as int),
        decreases k - j,
    {
        let u = &users[n - 1 - j];
        let uv = chars_of(u.as_str());
        let ws = words_at(&uv, 0, uv.len());
        assert(uv@.subrange(0, uv@.len() as int) =~= us[n - 1 - j]);
        let mut first: Vec<String> = Vec::new();
        let mut m: usize = 0;
        let lim: usize = if ws.len() < 5 { ws.len() } else { 5 };
        while m < lim
            invariant
                m <= lim <= ws@.len(),
                lim == if ws@.len() < 5 { ws@.len() } else { 5 },
                views(first@) == views(ws@).take(m as int),
            decreases lim - m,
        {
            let ghost before = views(first@);
            first.push(ws[m].clone());
            assert(views(first@) =~= before.push(ws@[m as int]@));
            assert(views(ws@).take(m + 1) =~= views(ws@).take(m as int).push(ws@[m as int]@));
            m = m + 1;
        }
        assert(views(first@) =~= cap(views(ws@), 5));
        let a = join_strings(&first, " ");
        let ghost before = views(anchors@);
        assert(a@ == anchor_of(us[n - 1 - j]));
        assert(fallback_anchors(us)[j as int] == anchor_of(us[n - 1 - j]));
        anchors.push(a);
        assert(views(anchors@) =~= before.push(fallback_anchors(us)[j as int]));
        assert(views(anchors@) =~= fallback_anchors(us).take(j + 1));
        j = j + 1;
    }
    assert(fallback_anchors(us).take(k as int) =~= fallback_anchors(us));
    let mut what = String::from_str("(unparsed consolidation) covered ");
    push_decimal(&mut what, i as u64);
    push_str(&mut what, " turn(s)");
    Episode {
        at_epoch_s: crate::context::now_epoch_s(),
        span_turns: i,
        what_happened: what,
        what_changed: String::new(),
        what_matters: String::new(),
        unresolved: String::new(),
        anchors,
        parsed: false,
    }
}

/// Plan storing a consolidation reply over the turns it covered (their user texts, oldest
/// first): `None` (store nothing) for a blank reply or a parroted placeholder narrative;
/// otherwise the narrative, and the model's episode when it parsed or the flagged fallback
/// otherwise, stamped with the span.
pub fn plan_consolidation(output: &str, user_texts: &Vec<String>) -> (r: Option<ConsolidationPlan>)
    requires
        !markers_overlap(trim(output@)),
    ensures
        ({
            let out = trim(output@);
            let parts = consolidation_parts(out);
            match r {
                None => out.len() == 0 || is_placeholder(parts.0),
                Some(p) => {
                    &&& out.len() > 0 && !is_placeholder(parts.0)
                    &&& p.narrative@ == parts.0
                    &&& p.parsed == parts.1 is Some
                    &&& p.episode.span_turns == user_texts@.len()
                    &&& match parts.1 {
                        Some(f) => {
                            &&& p.episode.what_happened@ == f.0
                            &&& p.episode.what_changed@ == f.1
                            &&& p.episode.what_matters@ == f.2
                            &&& p.episode.unresolved@ == f.3
                            &&& views(p.episode.anchors@) == f.4
                            &&& p.episode.parsed
                        },
                        None => {
                            &&& p.episode.what_happened@ == unparsed_summary(user_texts@.len())
                            &&& p.episode.what_changed@.len() == 0
                            &&& p.episode.what_matters@.len() == 0
                            &&& p.episode.unresolved@.len() == 0
                            &&& views(p.episode.anchors@) == fallback_anchors(nonempty_texts(views(user_texts@)))
                            &&& !p.episode.parsed
                        },
                    }
                },
            }
        }),
{
    let v = chars_of(output);
    let (a, b) = trim_at(&v, 0, v.len());
    assert(v@.subrange(0, v@.len() as int) =~= output@);
    if a == b {
        return None;
    }
    let out = string_at(&v, a, b);
    let (narrative, parsed_ep) = parse_consolidation(out.as_str());
    if placeholder_narrative(narrative.as_str()) {
        return None;
    }
    let parsed = parsed_ep.is_some();
    let mut episode = match parsed_ep {
        Some(ep) => ep,
        None => fallback_episode(user_texts),
    };
    episode.span_turns = user_texts.len();
    Some(ConsolidationPlan { narrative, episode, parsed })
}

/// The narrative a corrective consolidation stores: the reply's narrative part (a reply still in
/// the two-section layout keeps only that), unless it is under 40 chars (a stub never clobbers
/// the narrative).
pub fn corrected_narrative(output: &str) -> (r: Option<String>)
    requires
        !markers_overlap(trim(output@)),
    ensures
        ({
            let n = consolidation_parts(trim(output@)).0;
            match r {
                Some(s) => s@ == n && n.len() >= 40,
                None => n.len() < 40,
            }
        }),
{
    let v = chars_of(output);
    let (a, b) = trim_at(&v, 0, v.len());
    assert(v@.subrange(0, v@.len() as int) =~= output@);
    let out = string_at(&v, a, b);
    let (narrative, _) = parse_consolidation(out.as_str());
    let n = chars_of(narrative.as_str()).len();
    if n < 40 {
        None
    } else {
        Some(narrative)
    }
}


/// The key a `key: value` line names (the text before its first colon, trimmed and compared
/// case-blind), or `None` for a line without a colon.
pub open spec fn line_key(line: Seq<char>) -> Option<Seq<char>> {
    let l = trim(line);
    match char_pos_from(l, ':', 0) {
        Some(i) => Some(folded_key(trim(l.subrange(0, i)))),
        None => None,
    }
}

/// The value of a `key: value` line: the text after its first colon, trimmed.
pub open spec fn line_value(line: Seq<char>) -> Seq<char> {
    let l = trim(line);
    match char_pos_from(l, ':', 0) {
        Some(i) => trim(l.subrange(i + 1, l.len() as int)),
        None => seq![],
    }
}

/// The value of the last line naming `key`, or empty when none does.
pub open spec fn last_value(ls: Seq<Seq<char>>, key: Seq<char>) -> Seq<char>
    decreases ls.len(),
{
    if ls.len() == 0 {
        seq![]
    } else if line_key(ls.last()) == Some(key) {
        line_value(ls.last())
    } else {
        last_value(ls.drop_last(), key)
    }
}


/// Each episode field is read from its own key alone: after the episode's lines, `happened`,
/// `changed`, `matters` and `unresolved` each hold the value of the last line naming that key
/// (empty when none does), and `anchors` holds the non-empty `;`-separated parts of the last
/// `anchors` line. A line naming one key never touches another field.
pub proof fn lemma_fields_come_from_their_own_keys(ls: Seq<Seq<char>>)
    ensures
        field_state(ls).0 == last_value(ls, "happened"@),
        field_state(ls).1 == last_value(ls, "changed"@),
        field_state(ls).2 == last_value(ls, "matters"@),
        field_state(ls).3 == last_value(ls, "unresolved"@),
        field_state(ls).4 == nonempty_trimmed(split_on(last_value(ls, "anchors"@), ';')),
    decreases ls.len(),
{
    if ls.len() == 0 {
        let e = Seq::<char>::empty();
        assert(char_pos_from(e, ';', 0) is None);
        assert(split_on(e, ';') == seq![e]);
        assert(trim(e) =~= e);
        assert(seq![e].drop_last() =~= Seq::<Seq<char>>::empty());
        assert(seq![e].last() == e);
        assert(nonempty_trimmed(Seq::<Seq<char>>::empty()) =~= Seq::<Seq<char>>::empty());
        assert(nonempty_trimmed(seq![e]) =~= Seq::<Seq<char>>::empty());
    } else {
        lemma_fields_come_from_their_own_keys(ls.drop_last());
        let line = ls.last();
        reveal_strlit("happened");
        reveal_strlit("changed");
        reveal_strlit("matters");
        reveal_strlit("unresolved");
        reveal_strlit("anchors");
        assert("changed"@[0] != "happened"@[0]);
        assert("matters"@[0] != "happened"@[0] && "matters"@[0] != "changed"@[0]);
        assert("unresolved"@[0] != "happened"@[0] && "unresolved"@[0] != "changed"@[0]
            && "unresolved"@[0] != "matters"@[0]);
        assert("anchors"@[0] != "happened"@[0] && "anchors"@[0] != "changed"@[0] && "anchors"@[0]
            != "matters"@[0] && "anchors"@[0] != "unresolved"@[0]);
    }
}

} // verus!
