//! Reading a consolidation turn's reply: the rolling narrative and the episode digest fields,
//! per the two-section layout the consolidation prompt requests.

use vstd::prelude::*;
use crate::maintenance::{cap, nonempty_trimmed, spec_strip_think, strip_think_at};
use crate::memory::Episode;
use crate::text::{
    decimal, is_whitespace, is_ws, join, join_strings, push_decimal, push_str,
    char_pos_at, char_pos_from, chars_of, find, find_in, lemma_char_pos_from_bounds, lemma_find_from_bounds,
    all_ascii, ascii_lowercase, lemma_str_lines_step, line_end, lowercase, str_eq, str_lines, string_at, to_lowercase, trim, trim_at, views,
};

verus! {

#[verifier::opaque]
pub open spec fn narrative_mark() -> Seq<char> {
    "=== NARRATIVE ==="@
}

#[verifier::opaque]
pub open spec fn episode_mark() -> Seq<char> {
    "=== EPISODE ==="@
}

/// The pieces of `s` between occurrences of `c` (as `str::split` with a char gives them).
pub open spec fn split_on(s: Seq<char>, c: char) -> Seq<Seq<char>>
    decreases s.len(),
{
    match char_pos_from(s, c, 0) {
        Some(i) => if 0 <= i < s.len() {
            seq![s.subrange(0, i)] + split_on(s.subrange(i + 1, s.len() as int), c)
        } else {
            seq![s]
        },
        None => seq![s],
    }
}

/// A field key compared case-blind: the lowercase mapping, which on ASCII keys is the ASCII one.
pub open spec fn folded_key(k: Seq<char>) -> Seq<char> {
    if all_ascii(k) { ascii_lowercase(k) } else { lowercase(k) }
}

/// The episode fields read so far: happened, changed, matters, unresolved, anchors.
pub open spec fn field_step(
    st: (Seq<char>, Seq<char>, Seq<char>, Seq<char>, Seq<Seq<char>>),
    line: Seq<char>,
) -> (Seq<char>, Seq<char>, Seq<char>, Seq<char>, Seq<Seq<char>>) {
    let l = trim(line);
    match char_pos_from(l, ':', 0) {
        Some(i) => {
            let key = folded_key(trim(l.subrange(0, i)));
            let val = trim(l.subrange(i + 1, l.len() as int));
            if key == "happened"@ {
                (val, st.1, st.2, st.3, st.4)
            } else if key == "changed"@ {
                (st.0, val, st.2, st.3, st.4)
            } else if key == "matters"@ {
                (st.0, st.1, val, st.3, st.4)
            } else if key == "unresolved"@ {
                (st.0, st.1, st.2, val, st.4)
            } else if key == "anchors"@ {
                (st.0, st.1, st.2, st.3, nonempty_trimmed(split_on(val, ';')))
            } else {
                st
            }
        },
        None => st,
    }
}

pub open spec fn field_state(ls: Seq<Seq<char>>) -> (Seq<char>, Seq<char>, Seq<char>, Seq<char>, Seq<Seq<char>>)
    decreases ls.len(),
{
    if ls.len() == 0 {
        (seq![], seq![], seq![], seq![], seq![])
    } else {
        field_step(field_state(ls.drop_last()), ls.last())
    }
}

/// Where the narrative marker first occurs in a reply.
#[verifier::opaque]
pub open spec fn narrative_at(o: Seq<char>) -> Option<int> {
    find(o, narrative_mark())
}

/// Where the episode marker first occurs in a reply.
#[verifier::opaque]
pub open spec fn episode_at(o: Seq<char>) -> Option<int> {
    find(o, episode_mark())
}

/// Whether the two markers overlap (the episode marker starting inside the narrative marker),
/// which leaves no narrative slice between them.
#[verifier::opaque]
pub open spec fn markers_overlap(output: Seq<char>) -> bool {
    overlap_in(spec_strip_think(output))
}

/// Whether the markers overlap in an already stripped reply.
#[verifier::opaque]
pub open spec fn overlap_in(o: Seq<char>) -> bool {
    &&& narrative_at(o) is Some
    &&& episode_at(o) is Some
    &&& narrative_at(o)->0 <= episode_at(o)->0
    &&& episode_at(o)->0 < narrative_at(o)->0 + narrative_mark().len()
}

proof fn lemma_overlap_in(o: Seq<char>, ni: int, ei: int)
    requires
        narrative_at(o) == Some(ni),
        episode_at(o) == Some(ei),
    ensures
        overlap_in(o) == (ni <= ei && ei < ni + narrative_mark().len()),
{
    reveal(overlap_in);
}

proof fn lemma_no_overlap_in(o: Seq<char>)
    requires
        narrative_at(o) is None || episode_at(o) is None,
    ensures
        !overlap_in(o),
{
    reveal(overlap_in);
}

/// A consolidation reply read per the requested layout (`=== NARRATIVE ===` then
/// `=== EPISODE ===` with `key: value` lines), its think block stripped first: the narrative and,
/// when the layout is there and at least one of happened/changed/matters was given, the episode
/// fields. Without the layout the whole reply is the narrative.
#[verifier::opaque]
pub open spec fn consolidation_parts(output: Seq<char>) -> (
    Seq<char>,
    Option<(Seq<char>, Seq<char>, Seq<char>, Seq<char>, Seq<Seq<char>>)>,
) {
    let o = spec_strip_think(output);
    match (narrative_at(o), episode_at(o)) {
        (Some(ni), Some(ei)) => if ei < ni { (trim(o), None) } else { layout_parts(o, ni, ei) },
        _ => (trim(o), None),
    }
}

/// The parts of a stripped reply whose narrative marker is at `ni` and episode marker at `ei`.
pub open spec fn layout_parts(o: Seq<char>, ni: int, ei: int) -> (
    Seq<char>,
    Option<(Seq<char>, Seq<char>, Seq<char>, Seq<char>, Seq<Seq<char>>)>,
) {
    let narrative = trim(o.subrange(ni + narrative_mark().len(), ei));
    let f = field_state(str_lines(o.subrange(ei + episode_mark().len(), o.len() as int)));
    if f.0.len() == 0 && f.1.len() == 0 && f.2.len() == 0 {
        (if narrative.len() == 0 { trim(o) } else { narrative }, None)
    } else {
        (narrative, Some(f))
    }
}

proof fn lemma_parts_without_layout(output: Seq<char>, o: Seq<char>)
    requires
        o == spec_strip_think(output),
        narrative_at(o) is None || episode_at(o) is None || episode_at(o)->0 < narrative_at(o)->0,
    ensures
        consolidation_parts(output) == (trim(o), None::<(Seq<char>, Seq<char>, Seq<char>, Seq<char>, Seq<Seq<char>>)>),
{
    reveal(consolidation_parts);
}

/// Without the layout no episode is invented: when a reply (its think block stripped) lacks either
/// marker, or gives the episode marker before the narrative marker, the whole trimmed reply is the
/// narrative and there is no episode.
pub proof fn lemma_missing_layout_keeps_the_whole_reply(output: Seq<char>)
    requires
        ({
            let o = spec_strip_think(output);
            narrative_at(o) is None || episode_at(o) is None || episode_at(o)->0 < narrative_at(o)->0
        }),
    ensures
        consolidation_parts(output) == (
            trim(spec_strip_think(output)),
            None::<(Seq<char>, Seq<char>, Seq<char>, Seq<char>, Seq<Seq<char>>)>,
        ),
{
    lemma_parts_without_layout(output, spec_strip_think(output));
}

proof fn lemma_parts_with_layout(output: Seq<char>, o: Seq<char>, ni: int, ei: int)
    requires
        o == spec_strip_think(output),
        narrative_at(o) == Some(ni),
        episode_at(o) == Some(ei),
        ni <= ei,
    ensures
        consolidation_parts(output) == layout_parts(o, ni, ei),
{
    reveal(consolidation_parts);
}

/// The trimmed, non-empty `;`-separated pieces of `v[lo..hi]`.
fn split_anchors(v: &Vec<char>, lo: usize, hi: usize) -> (r: Vec<String>)
    requires
        lo <= hi <= v@.len(),
    ensures
        views(r@) == nonempty_trimmed(split_on(v@.subrange(lo as int, hi as int), ';')),
    decreases hi - lo,
{
    let ghost s = v@.subrange(lo as int, hi as int);
    let mut out: Vec<String> = Vec::new();
    let mut pos = lo;
    let ghost mut done: Seq<Seq<char>> = seq![];
    let mut finished = false;
    while !finished
        invariant
            lo <= pos <= hi <= v@.len(),
            s == v@.subrange(lo as int, hi as int),
            !finished ==> split_on(s, ';') == done + split_on(v@.subrange(pos as int, hi as int), ';'),
            finished ==> split_on(s, ';') == done,
            views(out@) == nonempty_trimmed(done),
        decreases hi - pos + if finished { 0int } else { 1int },
    {
        let ghost rest = v@.subrange(pos as int, hi as int);
        let next = char_pos_at(v, pos, hi, ';');
        proof {
            lemma_char_pos_from_bounds(rest, ';', 0);
        }
        let end = match next {
            Some(j) => j,
            None => hi,
        };
        let ghost piece = v@.subrange(pos as int, end as int);
        let (a, b) = trim_at(v, pos, end);
        proof {
            assert(done.push(piece).drop_last() =~= done);
        }
        if b > a {
            let ghost before = views(out@);
            out.push(string_at(v, a, b));
            assert(views(out@) =~= before.push(trim(piece)));
        }
        proof {
            match next {
                Some(j) => {
                    assert(rest.subrange(0, j - pos) =~= piece);
                    assert(rest.subrange(j - pos + 1, rest.len() as int) =~= v@.subrange(j + 1, hi as int));
                    assert(split_on(s, ';') =~= done.push(piece) + split_on(v@.subrange(j + 1, hi as int), ';'));
                },
                None => {
                    assert(rest =~= piece);
                    assert(split_on(s, ';') =~= done.push(piece));
                },
            }
            done = done.push(piece);
        }
        match next {
            Some(j) => {
                pos = j + 1;
            },
            None => {
                pos = hi;
                finished = true;
            },
        }
    }
    out
}

/// The episode fields of the `key: value` lines in `v[lo..hi]` (see [`field_state`]).
#[verifier::rlimit(30)]
fn episode_fields(v: &Vec<char>, lo: usize, hi: usize) -> (r: (String, String, String, String, Vec<String>))
    requires
        lo <= hi <= v@.len(),
    ensures
        (r.0@, r.1@, r.2@, r.3@, views(r.4@)) == field_state(str_lines(v@.subrange(lo as int, hi as int))),
{
    let es = lo;
    let b = hi;
    let mut happened = String::new();
    let mut changed = String::new();
    let mut matters = String::new();
    let mut unresolved = String::new();
    let mut anchors: Vec<String> = Vec::new();
    let ghost mut done: Seq<Seq<char>> = seq![];
    let mut pos = es;
    assert(str_lines(v@.subrange(es as int, b as int)) == done + str_lines(v@.subrange(pos as int, b as int)));
    while pos < b
        invariant
            es <= pos <= b <= v@.len(),
            str_lines(v@.subrange(es as int, b as int)) == done + str_lines(v@.subrange(pos as int, b as int)),
            (happened@, changed@, matters@, unresolved@, views(anchors@)) == field_state(done),
        decreases b - pos,
    {
        let nl = char_pos_at(v, pos, b, '\n');
        proof {
            lemma_str_lines_step(v@, pos as int, b as int, nl);
        }
        let end = match nl {
            Some(j) => j,
            None => b,
        };
        let le = line_end(v, pos, end, nl.is_some());
        let ghost line = v@.subrange(pos as int, le as int);
        let ghost st = field_state(done);
        proof {
            assert(done.push(line).drop_last() =~= done);
        }
        let (la, lb) = trim_at(v, pos, le);
        let ghost l = v@.subrange(la as int, lb as int);
        match char_pos_at(v, la, lb, ':') {
            Some(c) => {
                proof {
                    lemma_char_pos_from_bounds(l, ':', 0);
                }
                let (ka, kb) = trim_at(v, la, c);
                let (va, vb) = trim_at(v, c + 1, lb);
                assert(v@.subrange(la as int, c as int) =~= l.subrange(0, c - la));
                assert(v@.subrange(c + 1, lb as int) =~= l.subrange(c - la + 1, l.len() as int));
                let key = to_lowercase(string_at(v, ka, kb).as_str());
                if str_eq(key.as_str(), "happened") {
                    happened = string_at(v, va, vb);
                } else if str_eq(key.as_str(), "changed") {
                    changed = string_at(v, va, vb);
                } else if str_eq(key.as_str(), "matters") {
                    matters = string_at(v, va, vb);
                } else if str_eq(key.as_str(), "unresolved") {
                    unresolved = string_at(v, va, vb);
                } else if str_eq(key.as_str(), "anchors") {
                    anchors = split_anchors(v, va, vb);
                }
            },
            None => {},
        }
        proof {
            assert((happened@, changed@, matters@, unresolved@, views(anchors@)) == field_step(st, line));
            match nl {
                Some(j) => {
                    assert(str_lines(v@.subrange(es as int, b as int)) =~= done.push(line) + str_lines(
                        v@.subrange(j + 1, b as int),
                    ));
                },
                None => {
                    assert(v@.subrange(b as int, b as int) =~= Seq::<char>::empty());
                    assert(str_lines(v@.subrange(es as int, b as int)) =~= done.push(line) + str_lines(
                        v@.subrange(b as int, b as int),
                    ));
                },
            }
            done = done.push(line);
        }
        pos = match nl {
            Some(j) => j + 1,
            None => b,
        };
    }
    assert(v@.subrange(pos as int, b as int) =~= Seq::<char>::empty());
    assert(done =~= str_lines(v@.subrange(es as int, b as int)));
    (happened, changed, matters, unresolved, anchors)
}

/// Whether a consolidation reply can be read: its markers do not overlap (see
/// [`markers_overlap`]).
#[verifier::rlimit(100)]
pub fn consolidation_layout_ok(output: &str) -> (r: bool)
    ensures
        r == !markers_overlap(output@),
{
    let v = chars_of(output);
    let (a, b) = strip_think_at(&v, 0, v.len());
    assert(v@.subrange(0, v@.len() as int) =~= output@);
    let ghost o = v@.subrange(a as int, b as int);
    let nm = chars_of("=== NARRATIVE ===");
    let em = chars_of("=== EPISODE ===");
    let fnm = find_in(&v, a, b, &nm);
    let fem = find_in(&v, a, b, &em);
    assert(o == spec_strip_think(output@));
    assert(nm@ == narrative_mark()) by {
        reveal(narrative_mark);
    }
    assert(em@ == episode_mark()) by {
        reveal(episode_mark);
    }
    assert(narrative_at(o) == find(o, nm@)) by {
        reveal(narrative_at);
    }
    assert(episode_at(o) == find(o, em@)) by {
        reveal(episode_at);
    }
    let r = match fnm {
        Some(ni) => match fem {
            Some(ei) => {
                proof {
                    lemma_overlap_in(o, ni - a, ei - a);
                }
                !(ni <= ei && ei - ni < nm.len())
            },
            None => {
                proof {
                    lemma_no_overlap_in(o);
                }
                true
            },
        },
        None => {
            proof {
                lemma_no_overlap_in(o);
            }
            true
        },
    };
    assert(r == !markers_overlap(output@)) by {
        reveal(markers_overlap);
    }
    r
}

/// Parse a consolidation turn's output into the narrative and the episode (see
/// [`consolidation_parts`]). The episode is stamped with the clock and a span of `0` (the caller
/// stamps the span). A reply whose markers overlap is refused (see [`consolidation_layout_ok`]).
#[verifier::rlimit(60)]
pub fn parse_consolidation(output: &str) -> (r: (String, Option<Episode>))
    requires
        !markers_overlap(output@),
    ensures
        r.0@ == consolidation_parts(output@).0,
        match consolidation_parts(output@).1 {
            Some(f) => r.1 matches Some(ep) && {
                &&& ep.what_happened@ == f.0
                &&& ep.what_changed@ == f.1
                &&& ep.what_matters@ == f.2
                &&& ep.unresolved@ == f.3
                &&& views(ep.anchors@) == f.4
                &&& ep.span_turns == 0
                &&& ep.parsed
            },
            None => r.1 is None,
        },
{
    let v = chars_of(output);
    let (a, b) = strip_think_at(&v, 0, v.len());
    assert(v@.subrange(0, v@.len() as int) =~= output@);
    let ghost o = v@.subrange(a as int, b as int);
    let nm = chars_of("=== NARRATIVE ===");
    let em = chars_of("=== EPISODE ===");
    let whole = {
        let (ta, tb) = trim_at(&v, a, b);
        string_at(&v, ta, tb)
    };
    assert(o == spec_strip_think(output@));
    assert(whole@ == trim(o));
    let fnm = find_in(&v, a, b, &nm);
    let fem = find_in(&v, a, b, &em);
    proof {
        assert(nm@ == narrative_mark()) by {
            reveal(narrative_mark);
        }
        assert(em@ == episode_mark()) by {
            reveal(episode_mark);
        }
        assert(narrative_at(o) == find(o, nm@)) by {
            reveal(narrative_at);
        }
        assert(episode_at(o) == find(o, em@)) by {
            reveal(episode_at);
        }
    }
    let ni = match fnm {
        Some(ni) => ni,
        None => {
            proof {
                lemma_parts_without_layout(output@, o);
            }
            return (whole, None);
        },
    };
    let ei = match fem {
        Some(ei) => ei,
        None => {
            proof {
                lemma_parts_without_layout(output@, o);
            }
            return (whole, None);
        },
    };
    if ei < ni {
        proof {
            lemma_parts_without_layout(output@, o);
        }
        return (whole, None);
    }
    proof {
        lemma_parts_with_layout(output@, o, ni - a, ei - a);
        lemma_overlap_in(o, ni - a, ei - a);
        assert(!overlap_in(o)) by {
            reveal(markers_overlap);
        }
    }
    let ns = ni + nm.len();
    let (na, nb) = trim_at(&v, ns, ei);
    assert(v@.subrange(ns as int, ei as int) =~= o.subrange(ns - a, ei - a));
    let narrative = string_at(&v, na, nb);
    // the episode's key: value lines
    let es = ei + em.len();
    assert(v@.subrange(es as int, b as int) =~= o.subrange(es - a, o.len() as int));
    let (happened, changed, matters, unresolved, anchors) = episode_fields(&v, es, b);
    if happened.as_str().is_empty() && changed.as_str().is_empty() && matters.as_str().is_empty() {
        if narrative.as_str().is_empty() {
            return (whole, None);
        }
        return (narrative, None);
    }
    let ep = Episode {
        at_epoch_s: crate::context::now_epoch_s(),
        span_turns: 0,
        what_happened: happened,
        what_changed: changed,
        what_matters: matters,
        unresolved,
        anchors,
        parsed: true,
    };
    (narrative, Some(ep))
}

} // verus!
