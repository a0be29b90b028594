//! The memory-autopilot policy: decides when the maintenance operations fire, consolidation
//! and cold-eyes validation, so a consumer never manages memory by hand. Pure decision logic.
//!
//! Triggers: every-N-turns, Ring-2 budget pressure, and session end. Cold-eyes runs on a
//! consolidations cadence once a narrative exists.

use vstd::prelude::*;
use crate::text::{
    char_pos_at, chars_of, find, find_at, lemma_find_from_bounds, lemma_lines_step, lines, starts_with,
    starts_with_at, string_at, to_uppercase, all_ascii, ascii_uppercase, trim, trim_at, trim_start, trim_start_at, uppercase, views,
};

verus! {

/// What the policy asks the wiring to run next.
#[derive(Clone, Copy, Debug, PartialEq, Eq, Structural)]
pub enum Maintenance {
    /// Compress Ring-2 into the Ring-3 narrative plus one appended episode.
    Consolidate,
    /// Validate the narrative against the Tape.
    ColdEyes,
}

/// The trigger thresholds (0 disables a trigger).
#[derive(Clone, Copy, Debug)]
pub struct MaintenancePolicy {
    /// Consolidate after this many new Tape turns since the last consolidation.
    pub consolidate_every_turns: usize,
    /// Session-end / budget-pressure consolidations need at least this many new turns (min 1).
    pub session_end_min_turns: usize,
    /// Run cold-eyes after this many consolidations since the last validation.
    pub cold_eyes_every: usize,
}

/// A snapshot of the observable memory state the policy decides over.
#[derive(Clone, Copy, Debug)]
pub struct MaintenanceStats {
    /// Total turns on the Tape now.
    pub turns_total: usize,
    /// Total turns on the Tape when the last consolidation ran.
    pub last_consolidated_turns: usize,
    /// Consolidations since the last cold-eyes pass.
    pub consolidations_since_cold_eyes: usize,
    /// Ring-2's working window currently exceeds its budget.
    pub ring2_over_budget: bool,
    /// This check runs at a session boundary.
    pub session_end: bool,
    /// A narrative exists to validate.
    pub has_narrative: bool,
}

impl MaintenanceStats {
    /// All-zero stats: no turns, no flags.
    pub fn default() -> (r: Self)
        ensures
            r.turns_total == 0 && r.last_consolidated_turns == 0,
            r.consolidations_since_cold_eyes == 0,
            !r.ring2_over_budget && !r.session_end && !r.has_narrative,
    {
        MaintenanceStats {
            turns_total: 0,
            last_consolidated_turns: 0,
            consolidations_since_cold_eyes: 0,
            ring2_over_budget: false,
            session_end: false,
            has_narrative: false,
        }
    }
}

/// The Tape turns not yet consolidated.
pub open spec fn new_turns(s: MaintenanceStats) -> int {
    if s.turns_total >= s.last_consolidated_turns {
        s.turns_total - s.last_consolidated_turns
    } else {
        0
    }
}

/// Whether a consolidation is due.
pub open spec fn consolidation_due(p: MaintenancePolicy, s: MaintenanceStats) -> bool {
    let n = new_turns(s);
    let min = if p.session_end_min_turns > 1 { p.session_end_min_turns as int } else { 1 };
    ||| (p.consolidate_every_turns > 0 && n >= p.consolidate_every_turns)
    ||| (s.ring2_over_budget && n >= min)
    ||| (s.session_end && n >= min)
}

/// Whether a cold-eyes validation is due (ignoring consolidation): the cadence is reached, a
/// narrative exists, and at least one new turn came in (an unchanged register is never
/// re-validated).
pub open spec fn cold_eyes_due(p: MaintenancePolicy, s: MaintenanceStats) -> bool {
    &&& p.cold_eyes_every > 0
    &&& s.has_narrative
    &&& s.consolidations_since_cold_eyes >= p.cold_eyes_every
    &&& new_turns(s) >= 1
}

/// The maintenance the policy asks for: consolidation outranks cold-eyes.
pub open spec fn spec_due(p: MaintenancePolicy, s: MaintenanceStats) -> Option<Maintenance> {
    if consolidation_due(p, s) {
        Some(Maintenance::Consolidate)
    } else if cold_eyes_due(p, s) {
        Some(Maintenance::ColdEyes)
    } else {
        None
    }
}

impl MaintenancePolicy {
    /// The next due maintenance, or `None`.
    pub fn due(&self, s: &MaintenanceStats) -> (r: Option<Maintenance>)
        ensures
            r == spec_due(*self, *s),
    {
        let new_turns = s.turns_total.saturating_sub(s.last_consolidated_turns);
        let min = if self.session_end_min_turns > 1 { self.session_end_min_turns } else { 1 };
        let consolidate = (self.consolidate_every_turns > 0 && new_turns >= self.consolidate_every_turns)
            || (s.ring2_over_budget && new_turns >= min) || (s.session_end && new_turns >= min);
        if consolidate {
            return Some(Maintenance::Consolidate);
        }
        if self.cold_eyes_every > 0 && s.has_narrative && s.consolidations_since_cold_eyes
            >= self.cold_eyes_every && new_turns >= 1 {
            return Some(Maintenance::ColdEyes);
        }
        None
    }
}

/// Zero new turns never consolidates, whatever the flags say.
pub proof fn lemma_no_new_turns_never_consolidates(p: MaintenancePolicy, s: MaintenanceStats)
    requires
        s.turns_total <= s.last_consolidated_turns,
    ensures
        spec_due(p, s) != Some(Maintenance::Consolidate),
{
}

/// Every trigger needs a new turn: with zero new turns nothing is due, neither a consolidation
/// (nothing to compress) nor a cold-eyes pass (an unchanged register is never re-validated).
pub proof fn lemma_no_new_turns_nothing_due(p: MaintenancePolicy, s: MaintenanceStats)
    requires
        s.turns_total <= s.last_consolidated_turns,
    ensures
        spec_due(p, s) is None,
{
}

/// Budget pressure or a session end consolidates only once enough turns came in: with fewer new
/// turns than the every-N trigger asks (or that trigger off) and fewer than the session minimum
/// (at least one), nothing is consolidated, whatever the pressure and session flags say.
pub proof fn lemma_pressure_needs_the_session_minimum(p: MaintenancePolicy, s: MaintenanceStats)
    requires
        ({
            let n: int = if s.turns_total >= s.last_consolidated_turns {
                s.turns_total - s.last_consolidated_turns
            } else {
                0
            };
            let min: int = if p.session_end_min_turns >= 1 { p.session_end_min_turns as int } else { 1 };
            &&& p.consolidate_every_turns == 0 || n < p.consolidate_every_turns
            &&& n < min
        }),
    ensures
        spec_due(p, s) != Some(Maintenance::Consolidate),
{
}

/// The triggers fire: enough new turns for the every-N trigger consolidate; otherwise, a reached
/// cold-eyes cadence with a narrative and at least one new turn asks for a cold-eyes pass.
pub proof fn lemma_triggers_fire(p: MaintenancePolicy, s: MaintenanceStats)
    ensures
        ({
            let n: int = if s.turns_total >= s.last_consolidated_turns {
                s.turns_total - s.last_consolidated_turns
            } else {
                0
            };
            &&& (p.consolidate_every_turns > 0 && n >= p.consolidate_every_turns ==> spec_due(p, s)
                == Some(Maintenance::Consolidate))
            &&& (spec_due(p, s) != Some(Maintenance::Consolidate) && p.cold_eyes_every > 0 && s.has_narrative
                && s.consolidations_since_cold_eyes >= p.cold_eyes_every && n >= 1 ==> spec_due(p, s)
                == Some(Maintenance::ColdEyes))
        }),
{
}

/// With every trigger disabled (both thresholds 0), nothing is ever due unless budget pressure or
/// a session end accumulates new turns.
pub proof fn lemma_disabled_triggers_only_pressure(p: MaintenancePolicy, s: MaintenanceStats)
    requires
        p.consolidate_every_turns == 0,
        p.cold_eyes_every == 0,
        !s.ring2_over_budget,
        !s.session_end,
    ensures
        spec_due(p, s) is None,
{
}

/// A due consolidation always outranks a due cold-eyes pass.
pub proof fn lemma_consolidation_outranks_cold_eyes(p: MaintenancePolicy, s: MaintenanceStats)
    requires
        consolidation_due(p, s),
    ensures
        spec_due(p, s) == Some(Maintenance::Consolidate),
{
}

/// Cold-eyes never runs before a narrative exists.
pub proof fn lemma_cold_eyes_needs_a_narrative(p: MaintenancePolicy, s: MaintenanceStats)
    requires
        !s.has_narrative,
    ensures
        spec_due(p, s) != Some(Maintenance::ColdEyes),
{
}

/// The parsed reply to a cold-eyes pass: `CONSISTENT`, or the drift findings one per line.
#[derive(Clone, Debug)]
pub struct ColdEyesVerdict {
    pub consistent: bool,
    /// The drift findings (non-empty trimmed lines, at most 16).
    pub findings: Vec<String>,
}

/// The text of a reply with a leading `<think>…</think>` block removed; an unclosed block means
/// the generation was truncated mid-reasoning, so nothing remains. Without a leading block the
/// text is returned as it is.
pub open spec fn spec_strip_think(s: Seq<char>) -> Seq<char> {
    let t = trim_start(s);
    let open = "<think>"@;
    let close = "</think>"@;
    if starts_with(t, open) {
        let rest = t.subrange(open.len() as int, t.len() as int);
        match find(rest, close) {
            Some(i) => trim_start(rest.subrange(i + close.len(), rest.len() as int)),
            None => seq![],
        }
    } else {
        s
    }
}

/// The non-empty trimmed lines of `ls`, in order.
pub open spec fn nonempty_trimmed(ls: Seq<Seq<char>>) -> Seq<Seq<char>>
    decreases ls.len(),
{
    if ls.len() == 0 {
        seq![]
    } else {
        let r = nonempty_trimmed(ls.drop_last());
        let t = trim(ls.last());
        if t.len() > 0 { r.push(t) } else { r }
    }
}

/// At most the first `n` items of `x`.
pub open spec fn cap<A>(x: Seq<A>, n: nat) -> Seq<A> {
    if x.len() > n { x.take(n as int) } else { x }
}

/// The cold-eyes drift findings of a reply (already stripped and trimmed): its non-empty
/// trimmed lines, at most 16.
pub open spec fn cold_eyes_findings(t: Seq<char>) -> Seq<Seq<char>> {
    cap(nonempty_trimmed(lines(t)), 16)
}

/// Whether a stripped, trimmed reply declares itself consistent.
pub open spec fn says_consistent(t: Seq<char>) -> bool {
    starts_with(uppercase(t), "CONSISTENT"@)
}

/// The bounds of `v[lo..hi]` once a leading think block is stripped.
pub(crate) fn strip_think_at(v: &Vec<char>, lo: usize, hi: usize) -> (r: (usize, usize))
    requires
        lo <= hi <= v@.len(),
    ensures
        lo <= r.0 <= r.1 <= hi,
        v@.subrange(r.0 as int, r.1 as int) == spec_strip_think(v@.subrange(lo as int, hi as int)),
{
    let ghost s = v@.subrange(lo as int, hi as int);
    let open = chars_of("<think>");
    let close = chars_of("</think>");
    let a = trim_start_at(v, lo, hi);
    if !starts_with_at(v, a, hi, &open) {
        return (lo, hi);
    }
    let rs = a + open.len();
    assert(v@.subrange(rs as int, hi as int) =~= trim_start(s).subrange(open@.len() as int, trim_start(s).len() as int));
    match find_at(v, rs, hi, &close) {
        Some(i) => {
            proof {
                lemma_find_from_bounds(v@.subrange(rs as int, hi as int), close@, 0);
            }
            let b = i + close.len();
            let c = trim_start_at(v, b, hi);
            assert(v@.subrange(b as int, hi as int) =~= v@.subrange(rs as int, hi as int).subrange((i - rs) + close@.len(), hi - rs));
            (c, hi)
        },
        None => {
            assert(v@.subrange(lo as int, lo as int) =~= Seq::<char>::empty());
            (lo, lo)
        },
    }
}

/// Strip a leading `<think>…</think>` block from a model reply (see [`spec_strip_think`]).
pub fn strip_think(s: &str) -> (r: String)
    ensures
        r@ == spec_strip_think(s@),
{
    let v = chars_of(s);
    let (a, b) = strip_think_at(&v, 0, v.len());
    assert(v@.subrange(0, v@.len() as int) =~= s@);
    string_at(&v, a, b)
}

proof fn lemma_cap_push(r: Seq<Seq<char>>, t: Seq<char>)
    ensures
        cap(r.push(t), 16) == if r.len() < 16 { cap(r, 16).push(t) } else { cap(r, 16) },
{
    if r.len() >= 16 {
        assert(cap(r.push(t), 16) =~= cap(r, 16));
    }
}

/// Whether a stripped, trimmed reply declares itself consistent (see [`says_consistent`]); of
/// ASCII text, case is folded the ASCII way.
fn reads_consistent(t: &str) -> (b: bool)
    ensures
        b == says_consistent(t@),
        all_ascii(t@) ==> (says_consistent(t@) <==> starts_with(ascii_uppercase(t@), "CONSISTENT"@)),
{
    let upper = chars_of(to_uppercase(t).as_str());
    let consistent_word = chars_of("CONSISTENT");
    assert(upper@.subrange(0, upper@.len() as int) =~= upper@);
    starts_with_at(&upper, 0, upper.len(), &consistent_word)
}

/// Parse a cold-eyes reply: a leading `CONSISTENT` (in any case) means no drift; otherwise its
/// non-empty trimmed lines are the findings (at most 16), and an empty reply flags nothing.
#[verifier::rlimit(40)]
pub fn parse_cold_eyes(text: &str) -> (r: ColdEyesVerdict)
    ensures
        ({
            let t = trim(spec_strip_think(text@));
            if says_consistent(t) {
                r.consistent && r.findings@.len() == 0
            } else {
                &&& views(r.findings@) == cold_eyes_findings(t)
                &&& r.consistent == (cold_eyes_findings(t).len() == 0)
            }
        }),
        all_ascii(trim(spec_strip_think(text@))) ==> (says_consistent(trim(spec_strip_think(text@)))
            <==> starts_with(ascii_uppercase(trim(spec_strip_think(text@))), "CONSISTENT"@)),
{
    let v = chars_of(text);
    let (a0, b0) = strip_think_at(&v, 0, v.len());
    assert(v@.subrange(0, v@.len() as int) =~= text@);
    let (a, b) = trim_at(&v, a0, b0);
    let ghost t = v@.subrange(a as int, b as int);
    let t_str = string_at(&v, a, b);
    if reads_consistent(t_str.as_str()) {
        return ColdEyesVerdict { consistent: true, findings: Vec::new() };
    }
    let mut findings: Vec<String> = Vec::new();
    let ghost mut done: Seq<Seq<char>> = seq![];
    let mut pos = a;
    assert(lines(t) == done + lines(v@.subrange(pos as int, b as int)));
    while pos < b
        invariant
            a <= pos <= b <= v@.len(),
            t == v@.subrange(a as int, b as int),
            lines(t) == done + lines(v@.subrange(pos as int, b as int)),
            views(findings@) == cap(nonempty_trimmed(done), 16),
        decreases b - pos,
    {
        let nl = char_pos_at(&v, pos, b, '\n');
        proof {
            lemma_lines_step(v@, pos as int, b as int, nl);
        }
        let end = match nl {
            Some(j) => j,
            None => b,
        };
        let (la, lb) = trim_at(&v, pos, end);
        let ghost line = v@.subrange(pos as int, end as int);
        proof {
            lemma_cap_push(nonempty_trimmed(done), trim(line));
            assert(done.push(line).drop_last() =~= done);
        }
        if lb > la && findings.len() < 16 {
            findings.push(string_at(&v, la, lb));
        }
        proof {
            assert(views(findings@) =~= cap(nonempty_trimmed(done.push(line)), 16));
            match nl {
                Some(j) => {
                    assert(lines(t) =~= done.push(line) + lines(v@.subrange(j + 1, b as int)));
                },
                None => {
                    assert(v@.subrange(b as int, b as int) =~= Seq::<char>::empty());
                    assert(lines(t) =~= done.push(line) + lines(v@.subrange(b as int, b as int)));
                },
            }
            done = done.push(line);
        }
        pos = match nl {
            Some(j) => j + 1,
            None => b,
        };
    }
    assert(v@.subrange(pos as int, b as int) =~= Seq::<char>::empty());
    assert(done =~= lines(t));
    let consistent = findings.len() == 0;
    ColdEyesVerdict { consistent, findings }
}

/// The autopilot's durable cursor: where the last consolidation left off, the cold-eyes cadence
/// counter, and the drift flag (a correction ran and no later cold-eyes confirmed consistency).
#[derive(Clone, Debug)]
pub struct MaintState {
    pub last_consolidated_turns: usize,
    pub consolidations_since_cold_eyes: usize,
    pub pending_drift: bool,
}

impl MaintState {
    /// A fresh cursor: nothing consolidated, no drift pending.
    pub fn default() -> (r: Self)
        ensures
            r.last_consolidated_turns == 0,
            r.consolidations_since_cold_eyes == 0,
            !r.pending_drift,
    {
        MaintState { last_consolidated_turns: 0, consolidations_since_cold_eyes: 0, pending_drift: false }
    }
}

} // verus!
