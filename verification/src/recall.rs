//! Ring-4 retrieval's model-free pieces: the embedder fingerprint that commits the index format
//! (a stale or incompatible index is never served), the identity reranker default, the labeled
//! recall set and its structural lint, and the bench knobs. Similarity ranking and the float IR
//! metrics stay with the wiring layer.

use vstd::prelude::*;
use crate::text::{chars_of, decimal, push_decimal, push_str, str_eq, trim, trim_at, views};

verus! {

/// The embedder fingerprint that commits the index format: the model id and the vector dim.
#[derive(Clone, Debug)]
pub struct Fingerprint {
    pub embedder: String,
    pub dim: usize,
}

impl Fingerprint {
    pub fn new(embedder: String, dim: usize) -> (r: Self)
        ensures
            r.embedder@ == embedder@ && r.dim == dim,
    {
        Fingerprint { embedder, dim }
    }
}

/// An index built by one embedder is never served by another: any difference in model id or dim
/// forces a rebuild from the ledger; the same fingerprint serves.
pub fn should_rebuild(index: &Fingerprint, resolved: &Fingerprint) -> (r: bool)
    ensures
        r == !(index.embedder@ == resolved.embedder@ && index.dim == resolved.dim),
{
    !(str_eq(index.embedder.as_str(), resolved.embedder.as_str()) && index.dim == resolved.dim)
}

/// The shipped reranker default: it preserves the incoming (similarity) order.
pub struct IdentityRerank;

/// One retrieval target: `kind` is `turn` (a working-memory entry) or `episode` (an episode's
/// flat text).
#[derive(Clone, Debug)]
pub struct RecallDoc {
    pub id: String,
    pub kind: String,
    pub text: String,
}

/// One labeled query: `relevant` grades doc ids (2 = directly answers, 1 = partial), in doc-id
/// order; none marks a negative control.
#[derive(Clone, Debug)]
pub struct RecallQuery {
    pub id: String,
    pub family: String,
    pub query: String,
    pub relevant: Vec<(String, u32)>,
}

/// The query families a set may use.
pub open spec fn is_family(f: Seq<char>) -> bool {
    f == "paraphrase"@ || f == "keyword_trap"@ || f == "entity"@ || f == "episodic"@ || f == "multi"@
        || f == "negative"@
}

fn family_known(f: &str) -> (r: bool)
    ensures
        r == is_family(f@),
{
    str_eq(f, "paraphrase") || str_eq(f, "keyword_trap") || str_eq(f, "entity") || str_eq(f, "episodic")
        || str_eq(f, "multi") || str_eq(f, "negative")
}

/// Whether doc `i`'s id occurs among the docs before it.
pub open spec fn doc_seen_before(ds: Seq<RecallDoc>, i: int) -> bool {
    exists|j: int| 0 <= j < i && (#[trigger] ds[j]).id@ == ds[i].id@
}

/// Whether query `i`'s id occurs among the queries before it.
pub open spec fn query_seen_before(qs: Seq<RecallQuery>, i: int) -> bool {
    exists|j: int| 0 <= j < i && (#[trigger] qs[j]).id@ == qs[i].id@
}

/// Whether some doc has this id.
pub open spec fn doc_known(ds: Seq<RecallDoc>, id: Seq<char>) -> bool {
    exists|j: int| 0 <= j < ds.len() && (#[trigger] ds[j]).id@ == id
}

/// The lint findings of one doc, given whether its id already occurred.
pub open spec fn doc_findings(d: RecallDoc, duplicate: bool) -> Seq<Seq<char>> {
    let dup = if duplicate { seq!["duplicate doc id "@ + d.id@] } else { seq![] };
    let kind = if d.kind@ != "turn"@ && d.kind@ != "episode"@ {
        seq!["doc "@ + d.id@ + ": unknown kind '"@ + d.kind@ + "' (turn|episode)"@]
    } else {
        seq![]
    };
    let text = if trim(d.text@).len() == 0 { seq!["doc "@ + d.id@ + ": empty text"@] } else { seq![] };
    dup + kind + text
}

/// The lint findings of one graded label of query `q`.
pub open spec fn label_findings(ds: Seq<RecallDoc>, qid: Seq<char>, label: (String, u32)) -> Seq<Seq<char>> {
    let missing = if !doc_known(ds, label.0@) {
        seq!["query "@ + qid + ": relevant doc '"@ + label.0@ + "' not in docs"@]
    } else {
        seq![]
    };
    let grade = if !(1 <= label.1 <= 2) {
        seq!["query "@ + qid + ": grade "@ + decimal(label.1 as nat) + " out of range (1..=2; omit irrelevant docs)"@]
    } else {
        seq![]
    };
    missing + grade
}

pub open spec fn labels_findings(ds: Seq<RecallDoc>, qid: Seq<char>, ls: Seq<(String, u32)>) -> Seq<Seq<char>>
    decreases ls.len(),
{
    if ls.len() == 0 {
        seq![]
    } else {
        labels_findings(ds, qid, ls.drop_last()) + label_findings(ds, qid, ls.last())
    }
}

/// The lint findings of one query, given whether its id already occurred.
pub open spec fn query_findings(ds: Seq<RecallDoc>, q: RecallQuery, duplicate: bool) -> Seq<Seq<char>> {
    let dup = if duplicate { seq!["duplicate query id "@ + q.id@] } else { seq![] };
    let fam = if !is_family(q.family@) {
        seq!["query "@ + q.id@ + ": unknown family '"@ + q.family@ + "'"@]
    } else {
        seq![]
    };
    let negative = q.family@ == "negative"@;
    let none = q.relevant@.len() == 0;
    let shape = if negative && !none {
        seq!["query "@ + q.id@ + ": a negative control must have no relevant docs"@]
    } else if !negative && none {
        seq!["query "@ + q.id@ + ": non-negative family with no relevant docs"@]
    } else {
        seq![]
    };
    dup + fam + labels_findings(ds, q.id@, q.relevant@) + shape
}

pub open spec fn docs_findings_upto(ds: Seq<RecallDoc>, k: int) -> Seq<Seq<char>>
    decreases k,
{
    if k <= 0 || k > ds.len() {
        seq![]
    } else {
        docs_findings_upto(ds, k - 1) + doc_findings(ds[k - 1], doc_seen_before(ds, k - 1))
    }
}

pub open spec fn queries_findings_upto(ds: Seq<RecallDoc>, qs: Seq<RecallQuery>, k: int) -> Seq<Seq<char>>
    decreases k,
{
    if k <= 0 || k > qs.len() {
        seq![]
    } else {
        queries_findings_upto(ds, qs, k - 1) + query_findings(ds, qs[k - 1], query_seen_before(qs, k - 1))
    }
}

/// The structural lint of a recall set, never its content: ids unique and resolvable, kinds and
/// families known, grades within 1..=2, negatives unlabeled and non-negatives labeled.
pub open spec fn recall_lint(ds: Seq<RecallDoc>, qs: Seq<RecallQuery>) -> Seq<Seq<char>> {
    docs_findings_upto(ds, ds.len() as int) + queries_findings_upto(ds, qs, qs.len() as int)
}

fn doc_dup(ds: &Vec<RecallDoc>, i: usize) -> (r: bool)
    requires
        i < ds@.len(),
    ensures
        r == doc_seen_before(ds@, i as int),
{
    let mut j: usize = 0;
    while j < i
        invariant
            j <= i < ds@.len(),
            forall|q: int| 0 <= q < j ==> ds@[q].id@ != ds@[i as int].id@,
        decreases i - j,
    {
        if str_eq(ds[j].id.as_str(), ds[i].id.as_str()) {
            assert(ds@[j as int].id@ == ds@[i as int].id@);
            return true;
        }
        j = j + 1;
    }
    false
}

fn query_dup(qs: &Vec<RecallQuery>, i: usize) -> (r: bool)
    requires
        i < qs@.len(),
    ensures
        r == query_seen_before(qs@, i as int),
{
    let mut j: usize = 0;
    while j < i
        invariant
            j <= i < qs@.len(),
            forall|q: int| 0 <= q < j ==> qs@[q].id@ != qs@[i as int].id@,
        decreases i - j,
    {
        if str_eq(qs[j].id.as_str(), qs[i].id.as_str()) {
            assert(qs@[j as int].id@ == qs@[i as int].id@);
            return true;
        }
        j = j + 1;
    }
    false
}

fn has_doc(ds: &Vec<RecallDoc>, id: &str) -> (r: bool)
    ensures
        r == doc_known(ds@, id@),
{
    let mut j: usize = 0;
    while j < ds.len()
        invariant
            j <= ds@.len(),
            forall|q: int| 0 <= q < j ==> ds@[q].id@ != id@,
        decreases ds@.len() - j,
    {
        if str_eq(ds[j].id.as_str(), id) {
            assert(ds@[j as int].id@ == id@);
            return true;
        }
        j = j + 1;
    }
    false
}

fn text_blank(s: &str) -> (r: bool)
    ensures
        r == (trim(s@).len() == 0),
{
    let v = chars_of(s);
    let (a, b) = trim_at(&v, 0, v.len());
    assert(v@.subrange(0, v@.len() as int) =~= s@);
    a == b
}

fn concat2(a: &str, b: &str) -> (r: String)
    ensures
        r@ == a@ + b@,
{
    let mut m = String::from_str(a);
    push_str(&mut m, b);
    m
}

fn prefixed(a: &str, b: &str, c: &str) -> (r: String)
    ensures
        r@ == a@ + b@ + c@,
{
    let mut m = String::from_str(a);
    push_str(&mut m, b);
    push_str(&mut m, c);
    m
}

fn query_findings_of(docs: &Vec<RecallDoc>, q: &RecallQuery, dup: bool) -> (r: Vec<String>)
    ensures
        views(r@) == query_findings(docs@, *q, dup),
{
    let mut errs: Vec<String> = Vec::new();
    if dup {
        errs.push(concat2("duplicate query id ", q.id.as_str()));
    }
    if !family_known(q.family.as_str()) {
        let mut m = prefixed("query ", q.id.as_str(), ": unknown family '");
        push_str(&mut m, q.family.as_str());
        push_str(&mut m, "'");
        errs.push(m);
    }
    let ghost mid = views(errs@);
    assert(mid =~= (if dup { seq!["duplicate query id "@ + q.id@] } else { seq![] }) + (if !is_family(q.family@) {
        seq!["query "@ + q.id@ + ": unknown family '"@ + q.family@ + "'"@]
    } else {
        seq![]
    }));
    let mut l: usize = 0;
    while l < q.relevant.len()
        invariant
            l <= q.relevant@.len(),
            views(errs@) == mid + labels_findings(docs@, q.id@, q.relevant@.take(l as int)),
        decreases q.relevant@.len() - l,
    {
        let (doc, grade) = (&q.relevant[l].0, q.relevant[l].1);
        let ghost b2 = views(errs@);
        if !has_doc(docs, doc.as_str()) {
            let mut m = prefixed("query ", q.id.as_str(), ": relevant doc '");
            push_str(&mut m, doc.as_str());
            push_str(&mut m, "' not in docs");
            errs.push(m);
        }
        if !(1 <= grade && grade <= 2) {
            let mut m = prefixed("query ", q.id.as_str(), ": grade ");
            push_decimal(&mut m, grade as u64);
            push_str(&mut m, " out of range (1..=2; omit irrelevant docs)");
            errs.push(m);
        }
        proof {
            assert(q.relevant@.take(l + 1).drop_last() =~= q.relevant@.take(l as int));
            assert(views(errs@) =~= b2 + label_findings(docs@, q.id@, q.relevant@[l as int]));
        }
        l = l + 1;
    }
    assert(q.relevant@.take(q.relevant@.len() as int) =~= q.relevant@);
    let negative = str_eq(q.family.as_str(), "negative");
    let none = q.relevant.len() == 0;
    if negative && !none {
        errs.push(prefixed("query ", q.id.as_str(), ": a negative control must have no relevant docs"));
    } else if !negative && none {
        errs.push(prefixed("query ", q.id.as_str(), ": non-negative family with no relevant docs"));
    }
    assert(views(errs@) =~= query_findings(docs@, *q, dup));
    errs
}

/// Lint a recall set's docs and queries (see [`recall_lint`]); empty means coherent.
pub fn lint_recall(docs: &Vec<RecallDoc>, queries: &Vec<RecallQuery>) -> (r: Vec<String>)
    ensures
        views(r@) == recall_lint(docs@, queries@),
{
    let mut errs: Vec<String> = Vec::new();
    let mut i: usize = 0;
    while i < docs.len()
        invariant
            i <= docs@.len(),
            views(errs@) == docs_findings_upto(docs@, i as int),
        decreases docs@.len() - i,
    {
        let d = &docs[i];
        let ghost before = views(errs@);
        if doc_dup(docs, i) {
            errs.push(concat2("duplicate doc id ", d.id.as_str()));
        }
        if !str_eq(d.kind.as_str(), "turn") && !str_eq(d.kind.as_str(), "episode") {
            let mut m = prefixed("doc ", d.id.as_str(), ": unknown kind '");
            push_str(&mut m, d.kind.as_str());
            push_str(&mut m, "' (turn|episode)");
            errs.push(m);
        }
        if text_blank(d.text.as_str()) {
            errs.push(prefixed("doc ", d.id.as_str(), ": empty text"));
        }
        assert(views(errs@) =~= before + doc_findings(docs@[i as int], doc_seen_before(docs@, i as int)));
        i = i + 1;
    }
    let ghost dpart = views(errs@);
    let mut k: usize = 0;
    while k < queries.len()
        invariant
            k <= queries@.len(),
            i == docs@.len(),
            dpart == docs_findings_upto(docs@, docs@.len() as int),
            views(errs@) == dpart + queries_findings_upto(docs@, queries@, k as int),
        decreases queries@.len() - k,
    {
        let ghost before = views(errs@);
        let dup = query_dup(queries, k);
        let mut f = query_findings_of(docs, &queries[k], dup);
        let ghost fv = views(f@);
        errs.append(&mut f);
        assert(views(errs@) =~= before + fv);
        k = k + 1;
    }
    errs
}

/// Bench knobs: `candidates` is how many similarity top hits the reranker re-scores.
#[derive(Clone, Debug)]
pub struct BenchConfig {
    pub embedder_id: String,
    pub rerank_id: Option<String>,
    pub k: usize,
    pub ndcg_k: usize,
    pub candidates: usize,
}

impl BenchConfig {
    /// The default knobs: recall@5, nDCG@10, 20 rerank candidates.
    pub fn new(embedder_id: String, rerank_id: Option<String>) -> (r: Self)
        ensures
            r.embedder_id == embedder_id && r.rerank_id == rerank_id,
            r.k == 5 && r.ndcg_k == 10 && r.candidates == 20,
    {
        BenchConfig { embedder_id, rerank_id, k: 5, ndcg_k: 10, candidates: 20 }
    }
}

} // verus!

verus! {

/// Whether an id is labeled relevant.
pub open spec fn is_relevant(relevant: Seq<(String, u32)>, id: Seq<char>) -> bool {
    exists|j: int| 0 <= j < relevant.len() && (#[trigger] relevant[j]).0@ == id
}

/// How many of the first `k` ranked ids are labeled relevant.
pub open spec fn hits_in(ranked: Seq<String>, relevant: Seq<(String, u32)>, k: int) -> nat
    decreases k,
{
    if k <= 0 || ranked.len() == 0 {
        0
    } else if k > ranked.len() {
        hits_in(ranked, relevant, ranked.len() as int)
    } else {
        hits_in(ranked, relevant, k - 1) + if is_relevant(relevant, ranked[k - 1]@) { 1nat } else { 0nat }
    }
}

/// The position of the first ranked id labeled relevant.
pub open spec fn first_hit_from(ranked: Seq<String>, relevant: Seq<(String, u32)>, i: int) -> Option<int>
    decreases ranked.len() - i,
{
    if i < 0 || i >= ranked.len() {
        None
    } else if is_relevant(relevant, ranked[i]@) {
        Some(i)
    } else {
        first_hit_from(ranked, relevant, i + 1)
    }
}

fn labeled(relevant: &Vec<(String, u32)>, id: &str) -> (r: bool)
    ensures
        r == is_relevant(relevant@, id@),
{
    let mut j: usize = 0;
    while j < relevant.len()
        invariant
            j <= relevant@.len(),
            forall|m: int| 0 <= m < j ==> (#[trigger] relevant@[m]).0@ != id@,
        decreases relevant@.len() - j,
    {
        if str_eq(relevant[j].0.as_str(), id) {
            return true;
        }
        j = j + 1;
    }
    false
}

/// The number of relevant ids among the top `k` of a ranking: the numerator of recall@k (the
/// denominator is the number of labeled ids).
pub fn hits_at_k(ranked: &Vec<String>, relevant: &Vec<(String, u32)>, k: usize) -> (r: usize)
    ensures
        r == hits_in(ranked@, relevant@, k as int),
        r <= k,
{
    let stop = if k < ranked.len() { k } else { ranked.len() };
    let mut hits: usize = 0;
    let mut i: usize = 0;
    while i < stop
        invariant
            stop <= ranked@.len(),
            stop <= k,
            i <= stop,
            hits <= i,
            hits == hits_in(ranked@, relevant@, i as int),
        decreases stop - i,
    {
        if labeled(relevant, ranked[i].as_str()) {
            hits = hits + 1;
        }
        i = i + 1;
    }
    proof {
        if k > ranked@.len() && ranked@.len() > 0 {
            assert(hits_in(ranked@, relevant@, k as int) == hits_in(ranked@, relevant@, ranked@.len() as int));
        }
    }
    hits
}

/// The position of the first relevant id in a ranking (mean reciprocal rank takes one over one
/// more than it), or `None` when no ranked id is relevant.
pub fn first_relevant(ranked: &Vec<String>, relevant: &Vec<(String, u32)>) -> (r: Option<usize>)
    ensures
        match first_hit_from(ranked@, relevant@, 0) {
            Some(p) => r == Some(p as usize),
            None => r is None,
        },
{
    let mut i: usize = 0;
    while i < ranked.len()
        invariant
            i <= ranked@.len(),
            first_hit_from(ranked@, relevant@, 0) == first_hit_from(ranked@, relevant@, i as int),
        decreases ranked@.len() - i,
    {
        if labeled(relevant, ranked[i].as_str()) {
            return Some(i);
        }
        i = i + 1;
    }
    None
}

} // verus!
