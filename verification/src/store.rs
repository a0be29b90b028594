//! The metrics roll-up of the durable run index: how many turns ran, how many escalated above the
//! tier their kind starts at, how many were reworked for a model fault (a wiring fault, such as a
//! missing assertion, is not the model's), and the turns per tier. The database and the rates
//! (ratios of these counts) and costs stay with the wiring layer.

use vstd::prelude::*;
use crate::text::{chars_of, find, find_in, str_eq};
use crate::types::Kind;

verus! {

/// One stored turn, as the roll-up reads its trace.
#[derive(Clone, Debug)]
pub struct TraceRow {
    /// The tier that answered.
    pub tier: String,
    pub kind: Kind,
    pub passed: bool,
    pub failures: Vec<String>,
}

/// The counts of a roll-up; `by_tier` lists each tier once, in order of first appearance.
#[derive(Clone, Debug)]
pub struct Tally {
    pub turns: usize,
    pub escalated: usize,
    pub rework: usize,
    pub by_tier: Vec<(String, usize)>,
}

/// The ladder position of a tier name: `cheap-API` 1, `frontier` 2, anything else (local) 0.
pub open spec fn spec_tier_rank(tier: Seq<char>) -> nat {
    if tier == "cheap-API"@ {
        1
    } else if tier == "frontier"@ {
        2
    } else {
        0
    }
}

/// The ladder position of a tier name: `cheap-API` 1, `frontier` 2, anything else (local) 0.
pub fn tier_rank(tier: &str) -> (r: usize)
    ensures
        r == spec_tier_rank(tier@),
{
    if str_eq(tier, "cheap-API") {
        1
    } else if str_eq(tier, "frontier") {
        2
    } else {
        0
    }
}

/// The tier a kind starts at: scaffolding on the local rung, core wiring on the cheap API.
pub open spec fn spec_base_rank(kind: Kind) -> nat {
    match kind {
        Kind::Scaffolding => 0,
        Kind::CoreWire => 1,
    }
}

/// The tier a kind starts at: scaffolding on the local rung, core wiring on the cheap API.
pub fn base_rank(kind: Kind) -> (r: usize)
    ensures
        r == spec_base_rank(kind),
{
    match kind {
        Kind::Scaffolding => 0,
        Kind::CoreWire => 1,
    }
}

/// Whether a failure is a wiring fault (a configuration fault or an unresolved golden
/// reference), not a fault of the model.
pub open spec fn wiring_fault(failure: Seq<char>) -> bool {
    find(failure, "config fault"@) is Some || find(failure, "unresolved golden_ref"@) is Some
}

/// Whether a failure is a wiring fault, not a fault of the model.
pub fn is_wiring_fault(failure: &str) -> (r: bool)
    ensures
        r == wiring_fault(failure@),
{
    let v = chars_of(failure);
    let a = chars_of("config fault");
    let b = chars_of("unresolved golden_ref");
    assert(v@.subrange(0, v@.len() as int) =~= v@);
    find_in(&v, 0, v.len(), &a).is_some() || find_in(&v, 0, v.len(), &b).is_some()
}

/// Whether a turn ran above the tier its kind starts at.
pub open spec fn escalated(r: TraceRow) -> bool {
    spec_tier_rank(r.tier@) > spec_base_rank(r.kind)
}

/// Whether a turn failed for a fault of the model: it did not pass and some failure is not a
/// wiring fault.
pub open spec fn reworked(r: TraceRow) -> bool {
    !r.passed && exists|i: int| 0 <= i < r.failures@.len() && !wiring_fault(#[trigger] r.failures@[i]@)
}

/// The number of escalated turns.
pub open spec fn count_escalated(rows: Seq<TraceRow>) -> nat
    decreases rows.len(),
{
    if rows.len() == 0 {
        0
    } else {
        count_escalated(rows.drop_last()) + if escalated(rows.last()) { 1nat } else { 0nat }
    }
}

/// The number of reworked turns.
pub open spec fn count_rework(rows: Seq<TraceRow>) -> nat
    decreases rows.len(),
{
    if rows.len() == 0 {
        0
    } else {
        count_rework(rows.drop_last()) + if reworked(rows.last()) { 1nat } else { 0nat }
    }
}

/// The number of turns a tier answered.
pub open spec fn tier_count(rows: Seq<TraceRow>, tier: Seq<char>) -> nat
    decreases rows.len(),
{
    if rows.len() == 0 {
        0
    } else {
        tier_count(rows.drop_last(), tier) + if rows.last().tier@ == tier { 1nat } else { 0nat }
    }
}

/// The per-tier counts: each tier that answered appears once, with its count, and no other.
pub open spec fn tiers_counted(v: Seq<(String, usize)>, rows: Seq<TraceRow>) -> bool {
    &&& forall|a: int, b: int| 0 <= a < b < v.len() ==> (#[trigger] v[a]).0@ != (#[trigger] v[b]).0@
    &&& forall|k: int| 0 <= k < v.len() ==> (#[trigger] v[k]).1 == tier_count(rows, v[k].0@) && v[k].1 > 0
    &&& forall|j: int| 0 <= j < rows.len() ==> exists|k: int| 0 <= k < v.len() && (#[trigger] v[k]).0@ == (#[trigger] rows[j]).tier@
}

fn any_model_fault(failures: &Vec<String>) -> (r: bool)
    ensures
        r == exists|i: int| 0 <= i < failures@.len() && !wiring_fault(#[trigger] failures@[i]@),
{
    let mut i: usize = 0;
    while i < failures.len()
        invariant
            i <= failures@.len(),
            forall|j: int| 0 <= j < i ==> wiring_fault(#[trigger] failures@[j]@),
        decreases failures@.len() - i,
    {
        if !is_wiring_fault(failures[i].as_str()) {
            return true;
        }
        i = i + 1;
    }
    false
}

proof fn lemma_tier_count_step(rows: Seq<TraceRow>, i: int, t: Seq<char>)
    requires
        0 <= i < rows.len(),
    ensures
        tier_count(rows.take(i + 1), t) == tier_count(rows.take(i), t) + if rows[i].tier@ == t { 1nat } else { 0nat },
{
    assert(rows.take(i + 1).drop_last() =~= rows.take(i));
}

/// Roll up stored turns: the count of turns, of escalations, of model reworks, and the turns
/// per tier.
pub fn tally_traces(rows: &Vec<TraceRow>) -> (t: Tally)
    ensures
        t.turns == rows@.len(),
        t.escalated == count_escalated(rows@),
        t.rework == count_rework(rows@),
        tiers_counted(t.by_tier@, rows@),
{
    let mut escalated_n: usize = 0;
    let mut rework_n: usize = 0;
    let mut by_tier: Vec<(String, usize)> = Vec::new();
    let mut i: usize = 0;
    while i < rows.len()
        invariant
            i <= rows@.len(),
            escalated_n == count_escalated(rows@.take(i as int)),
            rework_n == count_rework(rows@.take(i as int)),
            escalated_n <= i,
            rework_n <= i,
            tiers_counted(by_tier@, rows@.take(i as int)),
            forall|k: int| 0 <= k < by_tier@.len() ==> (#[trigger] by_tier@[k]).1 <= i,
        decreases rows@.len() - i,
    {
        let r = &rows[i];
        let ghost pre = rows@.take(i as int);
        let ghost next = rows@.take(i + 1);
        proof {
            assert(next.drop_last() =~= pre);
            assert(next.last() == rows@[i as int]);
        }
        if tier_rank(r.tier.as_str()) > base_rank(r.kind) {
            escalated_n = escalated_n + 1;
        }
        if !r.passed && any_model_fault(&r.failures) {
            rework_n = rework_n + 1;
        }
        // find the tier's entry
        let mut k: usize = 0;
        let mut found: Option<usize> = None;
        while k < by_tier.len()
            invariant_except_break
                found is None,
            invariant
                k <= by_tier@.len(),
                forall|m: int| 0 <= m < k ==> (#[trigger] by_tier@[m]).0@ != r.tier@,
            ensures
                match found {
                    Some(f) => f < by_tier@.len() && by_tier@[f as int].0@ == r.tier@,
                    None => forall|m: int| 0 <= m < by_tier@.len() ==> (#[trigger] by_tier@[m]).0@ != r.tier@,
                },
            decreases by_tier@.len() - k,
        {
            if str_eq(by_tier[k].0.as_str(), r.tier.as_str()) {
                found = Some(k);
                break;
            }
            k = k + 1;
        }
        let ghost old_v = by_tier@;
        match found {
            Some(k) => {
                let name = by_tier[k].0.clone();
                let c = by_tier[k].1;
                by_tier.set(k, (name, c + 1));
                proof {
                    assert forall|m: int| 0 <= m < by_tier@.len() implies (#[trigger] by_tier@[m]).1 == tier_count(
                        next,
                        by_tier@[m].0@,
                    ) && by_tier@[m].1 > 0 by {
                        lemma_tier_count_step(rows@, i as int, by_tier@[m].0@);
                    }
                    assert forall|j: int| 0 <= j < next.len() implies exists|m: int|
                        0 <= m < by_tier@.len() && (#[trigger] by_tier@[m]).0@ == (#[trigger] next[j]).tier@ by {
                        if j < i {
                            assert(next[j] == pre[j]);
                            let m = choose|m: int| 0 <= m < old_v.len() && (#[trigger] old_v[m]).0@ == pre[j].tier@;
                            assert(by_tier@[m].0@ == old_v[m].0@);
                        } else {
                            assert(by_tier@[k as int].0@ == next[j].tier@);
                        }
                    }
                    assert(forall|a: int, b: int| 0 <= a < b < by_tier@.len() ==> by_tier@[a].0@ == old_v[a].0@ && by_tier@[b].0@ == old_v[b].0@);
                }
            },
            None => {
                by_tier.push((r.tier.clone(), 1));
                proof {
                    let n = old_v.len() as int;
                    assert(tier_count(pre, r.tier@) == 0) by {
                        lemma_absent_count_zero(pre, old_v, r.tier@);
                    }
                    assert forall|m: int| 0 <= m < by_tier@.len() implies (#[trigger] by_tier@[m]).1 == tier_count(
                        next,
                        by_tier@[m].0@,
                    ) && by_tier@[m].1 > 0 by {
                        lemma_tier_count_step(rows@, i as int, by_tier@[m].0@);
                        if m < n {
                            assert(by_tier@[m] == old_v[m]);
                        }
                    }
                    assert forall|j: int| 0 <= j < next.len() implies exists|m: int|
                        0 <= m < by_tier@.len() && (#[trigger] by_tier@[m]).0@ == (#[trigger] next[j]).tier@ by {
                        if j < i {
                            assert(next[j] == pre[j]);
                            let m = choose|m: int| 0 <= m < old_v.len() && (#[trigger] old_v[m]).0@ == pre[j].tier@;
                            assert(by_tier@[m] == old_v[m]);
                        } else {
                            assert(by_tier@[n].0@ == next[j].tier@);
                        }
                    }
                    assert forall|a: int, b: int| 0 <= a < b < by_tier@.len() implies (#[trigger] by_tier@[a]).0@
                        != (#[trigger] by_tier@[b]).0@ by {
                        if b < n {
                            assert(by_tier@[a] == old_v[a]);
                            assert(by_tier@[b] == old_v[b]);
                        } else {
                            assert(by_tier@[a] == old_v[a]);
                        }
                    }
                }
            },
        }
        i = i + 1;
    }
    assert(rows@.take(rows@.len() as int) =~= rows@);
    Tally { turns: rows.len(), escalated: escalated_n, rework: rework_n, by_tier }
}

/// A tier with no entry in a complete per-tier count answered no turn.
proof fn lemma_absent_count_zero(rows: Seq<TraceRow>, v: Seq<(String, usize)>, t: Seq<char>)
    requires
        forall|j: int| 0 <= j < rows.len() ==> exists|k: int| 0 <= k < v.len() && (#[trigger] v[k]).0@ == (#[trigger] rows[j]).tier@,
        forall|k: int| 0 <= k < v.len() ==> (#[trigger] v[k]).0@ != t,
    ensures
        tier_count(rows, t) == 0,
    decreases rows.len(),
{
    if rows.len() > 0 {
        let j = rows.len() - 1;
        let k = choose|k: int| 0 <= k < v.len() && (#[trigger] v[k]).0@ == rows[j].tier@;
        assert(rows.last().tier@ != t);
        assert forall|jj: int| 0 <= jj < rows.drop_last().len() implies exists|k: int|
            0 <= k < v.len() && (#[trigger] v[k]).0@ == (#[trigger] rows.drop_last()[jj]).tier@ by {
            assert(rows.drop_last()[jj] == rows[jj]);
        }
        lemma_absent_count_zero(rows.drop_last(), v, t);
    }
}

} // verus!
