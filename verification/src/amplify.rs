//! The amplification bench's model-free primitives: output normalization and the deterministic
//! checks (`equals`, `contains`, `contains_all`) that decide whether verified best-of-N beats a
//! single pass, and the structural lint of the fixed task set. The candidate runs and the float
//! aggregates stay with the wiring layer.

use vstd::prelude::*;
use crate::episodes::{words, words_at};
use crate::text::{
    all_ascii, ascii_lowercase, chars_of, find, find_in, join, join_strings, lowercase, push_str, str_eq, string_of, to_lowercase, trim,
    trim_at, views,
};

verus! {

#[verifier::opaque]
pub open spec fn think_open() -> Seq<char> {
    "<think>"@
}

#[verifier::opaque]
pub open spec fn think_close() -> Seq<char> {
    "</think>"@
}

/// Up to `k` passes removing a closed think block: the text from the first `<think>` through the
/// first `</think>` becomes one space, while both occur with the close not before the open.
pub open spec fn strip_closed_blocks(s: Seq<char>, k: nat) -> Seq<char>
    decreases k,
{
    if k == 0 {
        s
    } else {
        match (find(s, think_open()), find(s, think_close())) {
            (Some(a), Some(b)) => if b < a || b + think_close().len() > s.len() {
                s
            } else {
                strip_closed_blocks(
                    s.subrange(0, a) + seq![' '] + s.subrange(b + think_close().len(), s.len() as int),
                    (k - 1) as nat,
                )
            },
            _ => s,
        }
    }
}

/// A model output normalized for checking: closed think blocks removed (each pass shortens the
/// text by at least seven chars, so `len` passes remove them all; an unclosed block stays), whitespace runs collapsed
/// to single spaces with the ends trimmed, then lowercased.
pub open spec fn normalized(raw: Seq<char>) -> Seq<char> {
    lowercase(join(words(strip_closed_blocks(raw, raw.len())), " "@))
}

/// Normalize a model output for checking (see [`normalized`]).
pub fn normalize(raw: &str) -> (r: String)
    ensures
        r@ == normalized(raw@),
        all_ascii(join(words(strip_closed_blocks(raw@, raw@.len())), " "@)) ==> r@ == ascii_lowercase(
            join(words(strip_closed_blocks(raw@, raw@.len())), " "@),
        ),
{
    let mut v = chars_of(raw);
    let open = chars_of("<think>");
    let close = chars_of("</think>");
    assert(open@ == think_open()) by {
        reveal(think_open);
    }
    assert(close@ == think_close()) by {
        reveal(think_close);
    }
    let mut k: usize = v.len();
    let ghost target = strip_closed_blocks(raw@, raw@.len());
    loop
        invariant
            target == strip_closed_blocks(v@, k as nat),
            open@ == think_open(),
            close@ == think_close(),
        ensures
            target == v@,
        decreases k,
    {
        if k == 0 {
            break;
        }
        let n = v.len();
        let fa = find_in(&v, 0, n, &open);
        let fb = find_in(&v, 0, n, &close);
        assert(v@.subrange(0, n as int) =~= v@);
        let a = match fa {
            Some(a) => a,
            None => {
                assert(strip_closed_blocks(v@, k as nat) == v@);
                break;
            },
        };
        let b = match fb {
            Some(b) => b,
            None => {
                assert(strip_closed_blocks(v@, k as nat) == v@);
                break;
            },
        };
        if b < a {
            assert(strip_closed_blocks(v@, k as nat) == v@);
            break;
        }
        let e = b + close.len();
        let mut next: Vec<char> = Vec::new();
        let mut i: usize = 0;
        while i < a
            invariant
                i <= a <= n == v@.len(),
                next@ == v@.subrange(0, i as int),
            decreases a - i,
        {
            next.push(v[i]);
            assert(next@ =~= v@.subrange(0, i + 1));
            i = i + 1;
        }
        next.push(' ');
        let mut j = e;
        while j < n
            invariant
                a <= n,
                e <= j <= n == v@.len(),
                next@ == v@.subrange(0, a as int) + seq![' '] + v@.subrange(e as int, j as int),
            decreases n - j,
        {
            next.push(v[j]);
            assert(next@ =~= v@.subrange(0, a as int) + seq![' '] + v@.subrange(e as int, j + 1));
            j = j + 1;
        }
        assert(strip_closed_blocks(v@, k as nat) == strip_closed_blocks(next@, (k - 1) as nat));
        v = next;
        k = k - 1;
    }
    let ws = words_at(&v, 0, v.len());
    assert(v@.subrange(0, v@.len() as int) =~= v@);
    let flat = join_strings(&ws, " ");
    to_lowercase(flat.as_str())
}

/// What a check compares against, as the set file gives it: a string, an array (each element a
/// string or not), or anything else.
pub enum CheckValue {
    Text(String),
    Array(Vec<Option<String>>),
    Other,
}

/// One deterministic check on a model output.
pub struct AmplifyCheck {
    pub kind: String,
    pub value: CheckValue,
}

/// The check value read as a string; anything but a string reads as empty.
pub open spec fn value_text(v: CheckValue) -> Seq<char> {
    match v {
        CheckValue::Text(s) => s@,
        _ => seq![],
    }
}

/// An array element read as a string; a non-string reads as empty.
pub open spec fn elem_text(e: Option<String>) -> Seq<char> {
    match e {
        Some(s) => s@,
        None => seq![],
    }
}

/// Whether `hay` contains `needle`.
pub open spec fn contains_text(hay: Seq<char>, needle: Seq<char>) -> bool {
    find(hay, needle) is Some
}

/// Whether `out` contains every element (normalized).
pub open spec fn contains_all_of(out: Seq<char>, a: Seq<Option<String>>) -> bool {
    forall|i: int| 0 <= i < a.len() ==> contains_text(out, normalized(elem_text(#[trigger] a[i])))
}

/// Whether a check passes on a raw output: both sides normalized; `equals` compares whole,
/// `contains` looks for the value, `contains_all` for every array element (and fails on a
/// non-array); an unknown kind never passes.
pub open spec fn check_passes(c: AmplifyCheck, raw: Seq<char>) -> bool {
    let out = normalized(raw);
    if c.kind@ == "equals"@ {
        out == normalized(value_text(c.value))
    } else if c.kind@ == "contains"@ {
        contains_text(out, normalized(value_text(c.value)))
    } else if c.kind@ == "contains_all"@ {
        match c.value {
            CheckValue::Array(a) => contains_all_of(out, a@),
            _ => false,
        }
    } else {
        false
    }
}

fn value_str(v: &CheckValue) -> (r: String)
    ensures
        r@ == value_text(*v),
{
    match v {
        CheckValue::Text(s) => s.clone(),
        _ => String::new(),
    }
}

fn contains(hay: &str, needle: &str) -> (r: bool)
    ensures
        r == contains_text(hay@, needle@),
{
    let h = chars_of(hay);
    let n = chars_of(needle);
    assert(h@.subrange(0, h@.len() as int) =~= h@);
    find_in(&h, 0, h.len(), &n).is_some()
}

/// Apply one deterministic check to a raw model output (see [`check_passes`]).
pub fn check_output(check: &AmplifyCheck, raw: &str) -> (r: bool)
    ensures
        r == check_passes(*check, raw@),
{
    let out = normalize(raw);
    if str_eq(check.kind.as_str(), "equals") {
        let want = normalize(value_str(&check.value).as_str());
        str_eq(out.as_str(), want.as_str())
    } else if str_eq(check.kind.as_str(), "contains") {
        let want = normalize(value_str(&check.value).as_str());
        contains(out.as_str(), want.as_str())
    } else if str_eq(check.kind.as_str(), "contains_all") {
        match &check.value {
            CheckValue::Array(a) => {
                let mut i: usize = 0;
                while i < a.len()
                    invariant
                        i <= a@.len(),
                        out@ == normalized(raw@),
                        check.kind@ != "equals"@ && check.kind@ != "contains"@ && check.kind@ == "contains_all"@,
                        check.value == CheckValue::Array(*a),
                        forall|j: int| 0 <= j < i ==> contains_text(out@, normalized(elem_text(#[trigger] a@[j]))),
                    decreases a@.len() - i,
                {
                    let e = match &a[i] {
                        Some(s) => s.clone(),
                        None => String::new(),
                    };
                    let want = normalize(e.as_str());
                    assert(e@ == elem_text(a@[i as int]));
                    if !contains(out.as_str(), want.as_str()) {
                        assert(!contains_text(out@, normalized(elem_text(a@[i as int]))));
                        assert(check.kind@ != "equals"@ && check.kind@ != "contains"@ && check.kind@ == "contains_all"@);
                        assert(!contains_all_of(out@, a@));
                        return false;
                    }
                    i = i + 1;
                }
                true
            },
            _ => false,
        }
    } else {
        false
    }
}

/// One task of the fixed set.
pub struct AmplifyTask {
    pub id: String,
    pub family: String,
    pub prompt: String,
    pub check: AmplifyCheck,
}

/// Whether a check value is a string with non-blank content.
pub open spec fn nonblank_text(v: CheckValue) -> bool {
    match v {
        CheckValue::Text(s) => trim(s@).len() > 0,
        _ => false,
    }
}

/// Whether a check value is a non-empty array of strings with non-blank content.
pub open spec fn nonblank_array(v: CheckValue) -> bool {
    match v {
        CheckValue::Array(a) => a@.len() > 0 && forall|i: int|
            0 <= i < a@.len() ==> (#[trigger] a@[i] matches Some(s) && trim(s@).len() > 0),
        _ => false,
    }
}

/// The lint findings for one task, given whether its id already occurred.
pub open spec fn task_findings(t: AmplifyTask, duplicate: bool) -> Seq<Seq<char>> {
    let dup = if duplicate { seq!["duplicate task id "@ + t.id@] } else { seq![] };
    let prompt = if trim(t.prompt@).len() == 0 { seq!["task "@ + t.id@ + ": empty prompt"@] } else { seq![] };
    let k = t.check.kind@;
    let check = if k == "equals"@ || k == "contains"@ {
        if nonblank_text(t.check.value) {
            seq![]
        } else {
            seq!["task "@ + t.id@ + ": "@ + k + " needs a non-empty string value"@]
        }
    } else if k == "contains_all"@ {
        if nonblank_array(t.check.value) {
            seq![]
        } else {
            seq!["task "@ + t.id@ + ": contains_all needs a non-empty array of strings"@]
        }
    } else {
        seq!["task "@ + t.id@ + ": unknown check kind '"@ + k + "'"@]
    };
    dup + prompt + check
}

/// Whether task `i`'s id occurs among the tasks before it.
pub open spec fn id_seen_before(ts: Seq<AmplifyTask>, i: int) -> bool {
    exists|j: int| 0 <= j < i && (#[trigger] ts[j]).id@ == ts[i].id@
}

/// The lint findings for the tasks, in order, then `no tasks` for an empty set.
pub open spec fn lint_findings(ts: Seq<AmplifyTask>) -> Seq<Seq<char>> {
    let all = findings_upto(ts, ts.len() as int);
    if ts.len() == 0 { all.push("no tasks"@) } else { all }
}

pub open spec fn findings_upto(ts: Seq<AmplifyTask>, k: int) -> Seq<Seq<char>>
    decreases k,
{
    if k <= 0 || k > ts.len() {
        seq![]
    } else {
        findings_upto(ts, k - 1) + task_findings(ts[k - 1], id_seen_before(ts, k - 1))
    }
}

fn seen_before(ts: &Vec<AmplifyTask>, i: usize) -> (r: bool)
    requires
        i < ts@.len(),
    ensures
        r == id_seen_before(ts@, i as int),
{
    let mut j: usize = 0;
    while j < i
        invariant
            j <= i < ts@.len(),
            forall|q: int| 0 <= q < j ==> ts@[q].id@ != ts@[i as int].id@,
        decreases i - j,
    {
        if str_eq(ts[j].id.as_str(), ts[i].id.as_str()) {
            assert(ts@[j as int].id@ == ts@[i as int].id@);
            return true;
        }
        j = j + 1;
    }
    false
}

fn nonblank(s: &str) -> (r: bool)
    ensures
        r == (trim(s@).len() > 0),
{
    let v = chars_of(s);
    let (a, b) = trim_at(&v, 0, v.len());
    assert(v@.subrange(0, v@.len() as int) =~= s@);
    b > a
}

fn findings_of(t: &AmplifyTask, duplicate: bool) -> (r: Vec<String>)
    ensures
        views(r@) == task_findings(*t, duplicate),
{
    let mut r: Vec<String> = Vec::new();
    if duplicate {
        let mut m = String::from_str("duplicate task id ");
        push_str(&mut m, t.id.as_str());
        r.push(m);
    }
    if !nonblank(t.prompt.as_str()) {
        let mut m = String::from_str("task ");
        push_str(&mut m, t.id.as_str());
        push_str(&mut m, ": empty prompt");
        r.push(m);
    }
    let k = t.check.kind.as_str();
    if str_eq(k, "equals") || str_eq(k, "contains") {
        let ok = match &t.check.value {
            CheckValue::Text(s) => nonblank(s.as_str()),
            _ => false,
        };
        if !ok {
            let mut m = String::from_str("task ");
            push_str(&mut m, t.id.as_str());
            push_str(&mut m, ": ");
            push_str(&mut m, k);
            push_str(&mut m, " needs a non-empty string value");
            r.push(m);
        }
    } else if str_eq(k, "contains_all") {
        let ok = match &t.check.value {
            CheckValue::Array(a) => {
                let mut good = a.len() > 0;
                let mut i: usize = 0;
                while i < a.len()
                    invariant
                        i <= a@.len(),
                        good == (a@.len() > 0 && forall|q: int|
                            0 <= q < i ==> (#[trigger] a@[q] matches Some(s) && trim(s@).len() > 0)),
                    decreases a@.len() - i,
                {
                    let this = match &a[i] {
                        Some(s) => nonblank(s.as_str()),
                        None => false,
                    };
                    good = good && this;
                    i = i + 1;
                }
                good
            },
            _ => false,
        };
        if !ok {
            let mut m = String::from_str("task ");
            push_str(&mut m, t.id.as_str());
            push_str(&mut m, ": contains_all needs a non-empty array of strings");
            r.push(m);
        }
    } else {
        let mut m = String::from_str("task ");
        push_str(&mut m, t.id.as_str());
        push_str(&mut m, ": unknown check kind '");
        push_str(&mut m, k);
        push_str(&mut m, "'");
        r.push(m);
    }
    proof {
        assert(views(r@) =~= task_findings(*t, duplicate));
    }
    r
}

/// The structural lint of the fixed set: task ids unique, prompts non-blank, check kinds and
/// values well-formed, and at least one task (see [`lint_findings`]).
pub fn lint_tasks(tasks: &Vec<AmplifyTask>) -> (r: Vec<String>)
    ensures
        views(r@) == lint_findings(tasks@),
{
    let mut errs: Vec<String> = Vec::new();
    let mut i: usize = 0;
    while i < tasks.len()
        invariant
            i <= tasks@.len(),
            views(errs@) == findings_upto(tasks@, i as int),
        decreases tasks@.len() - i,
    {
        let dup = seen_before(tasks, i);
        let mut f = findings_of(&tasks[i], dup);
        let ghost before = views(errs@);
        let ghost fv = views(f@);
        errs.append(&mut f);
        assert(views(errs@) =~= before + fv);
        i = i + 1;
    }
    if tasks.len() == 0 {
        errs.push(String::from_str("no tasks"));
    }
    assert(views(errs@) =~= lint_findings(tasks@));
    errs
}

/// How many of the samples passed.
pub open spec fn pass_count(bs: Seq<bool>) -> nat
    decreases bs.len(),
{
    if bs.len() == 0 {
        0
    } else {
        pass_count(bs.drop_last()) + if bs.last() { 1nat } else { 0nat }
    }
}

/// The best-of-N outcome of one task's samples: whether each sample passed its check, the first
/// passing sample (the one best-of-N selects), and how many passed.
pub fn sample_outcome(check: &AmplifyCheck, outputs: &Vec<String>) -> (r: (Vec<bool>, Option<String>, usize))
    ensures
        r.0@.len() == outputs@.len(),
        forall|i: int| 0 <= i < outputs@.len() ==> r.0@[i] == check_passes(*check, #[trigger] outputs@[i]@),
        r.2 == pass_count(r.0@),
        match r.1 {
            Some(s) => exists|j: int|
                0 <= j < outputs@.len() && #[trigger] r.0@[j] && s@ == outputs@[j]@ && forall|i: int|
                    0 <= i < j ==> !r.0@[i],
            None => forall|i: int| 0 <= i < outputs@.len() ==> !r.0@[i],
        },
{
    let mut passes: Vec<bool> = Vec::new();
    let mut selected: Option<String> = None;
    let mut count: usize = 0;
    let mut i: usize = 0;
    while i < outputs.len()
        invariant
            i <= outputs@.len(),
            passes@.len() == i,
            forall|k: int| 0 <= k < i ==> passes@[k] == check_passes(*check, #[trigger] outputs@[k]@),
            count == pass_count(passes@),
            count <= i,
            match selected {
                Some(s) => exists|j: int|
                    0 <= j < i && #[trigger] passes@[j] && s@ == outputs@[j]@ && forall|k: int|
                        0 <= k < j ==> !passes@[k],
                None => forall|k: int| 0 <= k < i ==> !passes@[k],
            },
        decreases outputs@.len() - i,
    {
        let ok = check_output(check, outputs[i].as_str());
        let ghost before = passes@;
        passes.push(ok);
        assert(passes@.drop_last() =~= before);
        assert forall|k: int| 0 <= k < i implies passes@[k] == before[k] by {}
        if ok {
            count = count + 1;
            if selected.is_none() {
                selected = Some(outputs[i].clone());
                assert(passes@[i as int]);
            }
        }
        i = i + 1;
    }
    (passes, selected, count)
}

} // verus!
