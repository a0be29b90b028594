//! Rung 3 of the privacy mask: the label table of the token classifier's BIOES tags and the
//! collapse of a decoded label path into spans. Tokenizing, running the model and decoding the
//! best path over its float scores stay with the wiring layer; the classifier can only add spans.

use vstd::prelude::*;
use crate::errors::KeelError;
use crate::text::{char_pos_at, char_pos_from, chars_of, lemma_char_pos_from_bounds, push_str, str_eq, string_at, views};

verus! {

/// A BIOES tag: outside, begin, inside, end, single.
#[derive(Clone, Copy, Debug, PartialEq, Eq, Structural)]
pub enum Tag {
    O,
    B,
    I,
    E,
    S,
}

/// One tag and class index per label (`O` carries class 0, unused), and the class names.
#[derive(Clone, Debug)]
pub struct LabelSet {
    pub tags: Vec<(Tag, usize)>,
    pub classes: Vec<String>,
}

/// The tag a tag name denotes.
pub open spec fn tag_of(t: Seq<char>) -> Option<Tag> {
    if t == "B"@ {
        Some(Tag::B)
    } else if t == "I"@ {
        Some(Tag::I)
    } else if t == "E"@ {
        Some(Tag::E)
    } else if t == "S"@ {
        Some(Tag::S)
    } else {
        None
    }
}

/// The first index of `c` among `classes`.
pub open spec fn class_index(classes: Seq<Seq<char>>, c: Seq<char>, i: int) -> Option<int>
    decreases classes.len() - i,
{
    if i < 0 || i >= classes.len() {
        None
    } else if classes[i] == c {
        Some(i)
    } else {
        class_index(classes, c, i + 1)
    }
}

/// The table after reading one more label, or the error message.
pub open spec fn label_step(
    st: (Seq<(Tag, usize)>, Seq<Seq<char>>),
    l: Seq<char>,
) -> Result<(Seq<(Tag, usize)>, Seq<Seq<char>>), Seq<char>> {
    if l == "O"@ {
        Ok((st.0.push((Tag::O, 0usize)), st.1))
    } else {
        match char_pos_from(l, '-', 0) {
            None => Err("privacy label without tag: "@ + l),
            Some(i) => {
                let c = l.subrange(i + 1, l.len() as int);
                match tag_of(l.subrange(0, i)) {
                    None => Err("unknown BIOES tag in "@ + l),
                    Some(tag) => match class_index(st.1, c, 0) {
                        Some(k) => Ok((st.0.push((tag, k as usize)), st.1)),
                        None => Ok((st.0.push((tag, st.1.len() as usize)), st.1.push(c))),
                    },
                }
            },
        }
    }
}

/// The label table read from `id2label` (index order), or the first error.
pub open spec fn label_table(ls: Seq<Seq<char>>) -> Result<(Seq<(Tag, usize)>, Seq<Seq<char>>), Seq<char>>
    decreases ls.len(),
{
    if ls.len() == 0 {
        Ok((seq![], seq![]))
    } else {
        match label_table(ls.drop_last()) {
            Ok(st) => label_step(st, ls.last()),
            Err(m) => Err(m),
        }
    }
}

proof fn lemma_table_error_sticks(ls: Seq<Seq<char>>, k: int, m: Seq<char>)
    requires
        0 <= k <= ls.len(),
        label_table(ls.take(k)) == Err::<(Seq<(Tag, usize)>, Seq<Seq<char>>), Seq<char>>(m),
    ensures
        label_table(ls) == Err::<(Seq<(Tag, usize)>, Seq<Seq<char>>), Seq<char>>(m),
    decreases ls.len() - k,
{
    if k < ls.len() {
        assert(ls.take(k + 1).drop_last() =~= ls.take(k));
        lemma_table_error_sticks(ls, k + 1, m);
    } else {
        assert(ls.take(k) =~= ls);
    }
}

fn position_of(classes: &Vec<String>, c: &str) -> (r: Option<usize>)
    ensures
        match class_index(views(classes@), c@, 0) {
            Some(k) => r == Some(k as usize),
            None => r is None,
        },
{
    let ghost cv = views(classes@);
    let mut i: usize = 0;
    while i < classes.len()
        invariant
            i <= classes@.len(),
            cv == views(classes@),
            class_index(cv, c@, 0) == class_index(cv, c@, i as int),
        decreases classes@.len() - i,
    {
        if str_eq(classes[i].as_str(), c) {
            return Some(i);
        }
        i = i + 1;
    }
    None
}

impl LabelSet {
    /// Parse `id2label` (index-ordered): `O`, or a tag `B`/`I`/`E`/`S`, a `-` and a class name;
    /// classes are numbered in order of first appearance.
    pub fn parse(id2label: &Vec<String>) -> (r: Result<LabelSet, KeelError>)
        ensures
            match label_table(views(id2label@)) {
                Ok((tags, classes)) => r matches Ok(ls) && ls.tags@ == tags && views(ls.classes@) == classes,
                Err(m) => r matches Err(KeelError::Other(e)) && e@ == m,
            },
    {
        let mut tags: Vec<(Tag, usize)> = Vec::new();
        let mut classes: Vec<String> = Vec::new();
        let mut i: usize = 0;
        assert(views(id2label@.take(0)) =~= Seq::<Seq<char>>::empty());
        assert(tags@ =~= Seq::<(Tag, usize)>::empty());
        assert(views(classes@) =~= Seq::<Seq<char>>::empty());
        while i < id2label.len()
            invariant
                i <= id2label@.len(),
                label_table(views(id2label@.take(i as int))) == Ok::<(Seq<(Tag, usize)>, Seq<Seq<char>>), Seq<char>>(
                    (tags@, views(classes@)),
                ),
            decreases id2label@.len() - i,
        {
            let l = id2label[i].as_str();
            proof {
                assert(views(id2label@.take(i + 1)).drop_last() =~= views(id2label@.take(i as int)));
                assert(views(id2label@.take(i + 1)).last() == id2label@[i as int]@);
            }
            if str_eq(l, "O") {
                tags.push((Tag::O, 0));
            } else {
                let v = chars_of(l);
                assert(v@.subrange(0, v@.len() as int) =~= l@);
                let dash = match char_pos_at(&v, 0, v.len(), '-') {
                    Some(d) => d,
                    None => {
                        let mut m = String::from_str("privacy label without tag: ");
                        push_str(&mut m, l);
                        proof {
                            assert(views(id2label@.take(i + 1)) =~= views(id2label@).take(i + 1));
                            lemma_table_error_sticks(views(id2label@), i + 1, m@);
                        }
                        return Err(KeelError::Other(m));
                    },
                };
                proof {
                    lemma_char_pos_from_bounds(l@, '-', 0);
                }
                let t = string_at(&v, 0, dash);
                let c = string_at(&v, dash + 1, v.len());
                let tag = if str_eq(t.as_str(), "B") {
                    Tag::B
                } else if str_eq(t.as_str(), "I") {
                    Tag::I
                } else if str_eq(t.as_str(), "E") {
                    Tag::E
                } else if str_eq(t.as_str(), "S") {
                    Tag::S
                } else {
                    let mut m = String::from_str("unknown BIOES tag in ");
                    push_str(&mut m, l);
                    proof {
                        assert(l@.subrange(0, dash as int) == t@);
                        assert(views(id2label@.take(i + 1)) =~= views(id2label@).take(i + 1));
                        lemma_table_error_sticks(views(id2label@), i + 1, m@);
                    }
                    return Err(KeelError::Other(m));
                };
                match position_of(&classes, c.as_str()) {
                    Some(k) => {
                        tags.push((tag, k));
                    },
                    None => {
                        let k = classes.len();
                        let ghost before = views(classes@);
                        let ghost cv = c@;
                        classes.push(c);
                        assert(views(classes@) =~= before.push(cv));
                        tags.push((tag, k));
                    },
                }
            }
            i = i + 1;
        }
        assert(id2label@.take(id2label@.len() as int) =~= id2label@);
        Ok(LabelSet { tags, classes })
    }
}

/// The spans a label path collapses to, as `(first token, last token, class)`: an `S` is a
/// one-token span (and closes an open one); a `B` opens a span (replacing an open one); an `E`
/// closes an open span of its class (one of another class is dropped); an `O` drops an open span;
/// an `I` changes nothing.
pub open spec fn spans_state(
    path: Seq<usize>,
    tags: Seq<(Tag, usize)>,
) -> (Seq<(usize, usize, usize)>, Option<(usize, usize)>)
    decreases path.len(),
{
    if path.len() == 0 {
        (seq![], None)
    } else {
        let (out, open) = spans_state(path.drop_last(), tags);
        let t = (path.len() - 1) as usize;
        let (tag, c) = tags[path.last() as int];
        match tag {
            Tag::S => (out.push((t, t, c)), None),
            Tag::B => (out, Some((t, c))),
            Tag::I => (out, open),
            Tag::E => match open {
                Some((s, oc)) => if oc == c { (out.push((s, t, c)), None) } else { (out, None) },
                None => (out, None),
            },
            Tag::O => (out, None),
        }
    }
}

/// Collapse a BIOES label path into `(token_start, token_end_inclusive, class_id)` spans (see
/// [`spans_state`]). Every label in the path indexes the table.
pub fn path_to_spans(path: &Vec<usize>, labels: &LabelSet) -> (r: Vec<(usize, usize, usize)>)
    requires
        forall|i: int| 0 <= i < path@.len() ==> #[trigger] path@[i] < labels.tags@.len(),
    ensures
        r@ == spans_state(path@, labels.tags@).0,
{
    let mut out: Vec<(usize, usize, usize)> = Vec::new();
    let mut open: Option<(usize, usize)> = None;
    let mut t: usize = 0;
    while t < path.len()
        invariant
            t <= path@.len(),
            forall|i: int| 0 <= i < path@.len() ==> #[trigger] path@[i] < labels.tags@.len(),
            (out@, open) == spans_state(path@.take(t as int), labels.tags@),
        decreases path@.len() - t,
    {
        proof {
            assert(path@.take(t + 1).drop_last() =~= path@.take(t as int));
            assert(path@.take(t + 1).last() == path@[t as int]);
        }
        let l = path[t];
        let (tag, c) = labels.tags[l];
        match tag {
            Tag::S => {
                open = None;
                out.push((t, t, c));
            },
            Tag::B => {
                open = Some((t, c));
            },
            Tag::I => {},
            Tag::E => {
                match open {
                    Some((s, oc)) => {
                        if oc == c {
                            out.push((s, t, c));
                        }
                    },
                    None => {},
                }
                open = None;
            },
            Tag::O => {
                open = None;
            },
        }
        t = t + 1;
    }
    assert(path@.take(path@.len() as int) =~= path@);
    out
}

} // verus!

verus! {

/// The smallest start and largest end among the non-empty byte ranges `offsets[lo..hi]`
/// (`usize::MAX` and `0` when there is none).
pub open spec fn byte_hull(offsets: Seq<(usize, usize)>, lo: int, hi: int) -> (int, int)
    decreases hi - lo,
{
    if hi <= lo {
        (usize::MAX as int, 0)
    } else {
        let (s, e) = byte_hull(offsets, lo, hi - 1);
        let (os, oe) = offsets[hi - 1];
        if os == oe {
            (s, e)
        } else {
            (if (os as int) < s { os as int } else { s }, if (oe as int) > e { oe as int } else { e })
        }
    }
}

/// The byte span a token span `(first, last inclusive, class)` covers: the hull of its tokens'
/// non-empty byte ranges (tokens past the end of `offsets` contribute nothing), kept when it is
/// not empty.
pub open spec fn token_span_bytes(offsets: Seq<(usize, usize)>, span: (usize, usize, usize)) -> Option<(int, int)> {
    let hi = if (span.1 as int) < offsets.len() { span.1 + 1 } else { offsets.len() as int };
    let (s, e) = byte_hull(offsets, span.0 as int, hi);
    if s < e {
        Some((s, e))
    } else {
        None
    }
}

/// The byte spans of token spans, in order, dropping empty ones.
pub open spec fn byte_spans_of(offsets: Seq<(usize, usize)>, spans: Seq<(usize, usize, usize)>, classes: Seq<String>) -> Seq<
    (int, int, Seq<char>),
>
    decreases spans.len(),
{
    if spans.len() == 0 {
        seq![]
    } else {
        let prev = byte_spans_of(offsets, spans.drop_last(), classes);
        match token_span_bytes(offsets, spans.last()) {
            Some((s, e)) => prev.push((s, e, classes[spans.last().2 as int]@)),
            None => prev,
        }
    }
}

/// The views of PII spans.
pub open spec fn pii_views(v: Seq<crate::privacy::PiiSpan>) -> Seq<(int, int, Seq<char>)> {
    v.map_values(|p: crate::privacy::PiiSpan| (p.start as int, p.end as int, p.class@))
}

fn hull(offsets: &Vec<(usize, usize)>, lo: usize, hi: usize) -> (r: (usize, usize))
    requires
        hi <= offsets@.len(),
    ensures
        (r.0 as int, r.1 as int) == byte_hull(offsets@, lo as int, hi as int),
{
    let mut s: usize = usize::MAX;
    let mut e: usize = 0;
    let mut i = lo;
    if lo >= hi {
        return (s, e);
    }
    while i < hi
        invariant
            lo <= i <= hi <= offsets@.len(),
            (s as int, e as int) == byte_hull(offsets@, lo as int, i as int),
        decreases hi - i,
    {
        let (os, oe) = offsets[i];
        if os != oe {
            if os < s {
                s = os;
            }
            if oe > e {
                e = oe;
            }
        }
        i = i + 1;
    }
    (s, e)
}

/// Map the classifier's token spans to byte spans through the tokenizer's per-token byte
/// offsets: each span covers its tokens' non-empty byte ranges (zero-width special tokens never
/// anchor an edge) and is dropped when that leaves nothing.
pub fn byte_spans(spans: &Vec<(usize, usize, usize)>, offsets: &Vec<(usize, usize)>, classes: &Vec<String>) -> (r: Vec<
    crate::privacy::PiiSpan,
>)
    requires
        forall|i: int| 0 <= i < spans@.len() ==> (#[trigger] spans@[i]).2 < classes@.len(),
    ensures
        pii_views(r@) == byte_spans_of(offsets@, spans@, classes@),
{
    let mut out: Vec<crate::privacy::PiiSpan> = Vec::new();
    let mut k: usize = 0;
    while k < spans.len()
        invariant
            k <= spans@.len(),
            forall|i: int| 0 <= i < spans@.len() ==> (#[trigger] spans@[i]).2 < classes@.len(),
            pii_views(out@) == byte_spans_of(offsets@, spans@.take(k as int), classes@),
        decreases spans@.len() - k,
    {
        proof {
            assert(spans@.take(k + 1).drop_last() =~= spans@.take(k as int));
            assert(spans@.take(k + 1).last() == spans@[k as int]);
        }
        let (ts, te, c) = spans[k];
        let hi = if te < offsets.len() { te + 1 } else { offsets.len() };
        let (s, e) = hull(offsets, ts, hi);
        if s < e {
            let ghost before = pii_views(out@);
            out.push(crate::privacy::PiiSpan { start: s, end: e, class: classes[c].clone() });
            assert(pii_views(out@) =~= before.push((s as int, e as int, classes@[c as int]@)));
        }
        k = k + 1;
    }
    assert(spans@.take(spans@.len() as int) =~= spans@);
    out
}

} // verus!
