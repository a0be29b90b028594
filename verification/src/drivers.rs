//! Initiative: the sources of work that make KEEL a self that acts, not one that only responds.
//! Each driver emits a step or nothing now, and stamps the step's source with its id: the user-turn
//! queue (first in, first out), the heartbeat (once per elapsed interval, the clock injected), and
//! the watch (when a probed state token changes). Also the daemon's bound decision.

use vstd::prelude::*;
use std::collections::VecDeque;
use crate::engine::clone_contents;
use crate::text::views;
use crate::types::{Role, Step};

verus! {

/// The driver ids a step's source carries.
pub const SRC_USER: &'static str = "user";
pub const SRC_HEARTBEAT: &'static str = "heartbeat";
pub const SRC_WATCH: &'static str = "watch";

/// `s` as emitted by the driver with id `src`: the same step, its source stamped.
pub open spec fn stamped(out: Step, s: Step, src: Seq<char>) -> bool {
    &&& out.kind == s.kind
    &&& out.ty@ == s.ty@
    &&& out.trust_required == s.trust_required
    &&& out.data_class == s.data_class
    &&& views(out.tier_history@) == views(s.tier_history@)
    &&& out.oracle_failures == s.oracle_failures
    &&& out.critical == s.critical
    &&& out.content@ == s.content@
    &&& views(out.golden_refs@) == views(s.golden_refs@)
    &&& out.source matches Some(x) && x@ == src
}

fn copy_strings(v: &Vec<String>) -> (r: Vec<String>)
    ensures
        views(r@) == views(v@),
{
    let mut r: Vec<String> = Vec::new();
    let mut i: usize = 0;
    while i < v.len()
        invariant
            i <= v@.len(),
            views(r@) == views(v@.take(i as int)),
        decreases v@.len() - i,
    {
        let ghost before = views(r@);
        let c = v[i].clone();
        r.push(c);
        assert(views(r@) =~= before.push(v@[i as int]@));
        assert(views(v@.take(i + 1)) =~= views(v@.take(i as int)).push(v@[i as int]@));
        i = i + 1;
    }
    assert(v@.take(v@.len() as int) =~= v@);
    r
}

/// A copy of `s` with its source set to `src`.
fn stamp(s: &Step, src: &str) -> (r: Step)
    ensures
        stamped(r, *s, src@),
{
    Step {
        kind: s.kind,
        ty: s.ty.clone(),
        trust_required: s.trust_required,
        data_class: s.data_class,
        tier_history: copy_strings(&s.tier_history),
        oracle_failures: s.oracle_failures,
        critical: s.critical,
        source: Some(String::from_str(src)),
        content: clone_contents(&s.content),
        golden_refs: copy_strings(&s.golden_refs),
    }
}

/// The user-turn driver: a first-in, first-out queue of operator-submitted steps.
pub struct UserTurnDriver {
    pending: VecDeque<Step>,
}

impl UserTurnDriver {
    /// The steps waiting, oldest first.
    pub closed spec fn queue(&self) -> Seq<Step> {
        self.pending@
    }

    pub fn new() -> (r: Self)
        ensures
            r.queue().len() == 0,
    {
        UserTurnDriver { pending: VecDeque::new() }
    }

    /// A queue pre-seeded with a batch of turns, in order.
    pub fn with_steps(steps: Vec<Step>) -> (r: Self)
        ensures
            r.queue() == steps@,
    {
        let mut pending: VecDeque<Step> = VecDeque::new();
        let mut steps = steps;
        let ghost all = steps@;
        assert(pending@ + steps@ =~= all);
        while steps.len() > 0
            invariant
                pending@ + steps@ == all,
            decreases steps@.len(),
        {
            let ghost before = pending@;
            let ghost rest = steps@;
            let s = steps.remove(0);
            pending.push_back(s);
            assert(pending@ + steps@ =~= before + rest);
        }
        assert(pending@ =~= all);
        UserTurnDriver { pending }
    }
}

impl UserTurnDriver {
    /// Enqueue a user turn.
    pub fn push(&mut self, step: Step)
        ensures
            final(self).queue() == old(self).queue().push(step),
    {
        self.pending.push_back(step);
    }

    /// How many turns wait.
    pub fn len(&self) -> (r: usize)
        ensures
            r == self.queue().len(),
    {
        self.pending.len()
    }

    pub fn is_empty(&self) -> (r: bool)
        ensures
            r == (self.queue().len() == 0),
    {
        self.pending.len() == 0
    }

    /// The next user turn, oldest first, stamped `user`; nothing when the queue is empty.
    pub fn poll(&mut self) -> (r: Option<Step>)
        ensures
            old(self).queue().len() == 0 ==> r is None && final(self).queue() == old(self).queue(),
            old(self).queue().len() > 0 ==> (r matches Some(s) && stamped(s, old(self).queue()[0], "user"@))
                && final(self).queue() == old(self).queue().drop_first(),
    {
        match self.pending.pop_front() {
            Some(s) => {
                let mut s = s;
                s.source = Some(String::from_str("user"));
                Some(s)
            },
            None => None,
        }
    }
}

/// A perpetual heartbeat: emits its template step once per elapsed interval; the first poll fires.
/// Times are monotonic clock readings in nanoseconds, injected by the caller.
pub struct HeartbeatDriver {
    pub interval_ns: u128,
    pub step: Step,
    pub last_ns: Option<u128>,
}

/// Whether the heartbeat is due at `now`: first poll, or an interval elapsed since the last fire (a
/// reading before the last counts as no time elapsed).
pub open spec fn heartbeat_due(last: Option<u128>, interval: u128, now: u128) -> bool {
    match last {
        None => true,
        Some(prev) => (if now >= prev { now - prev } else { 0 }) >= interval,
    }
}

impl HeartbeatDriver {
    pub fn new(interval_ns: u128, step: Step) -> (r: Self)
        ensures
            r.interval_ns == interval_ns && r.step == step && r.last_ns is None,
    {
        HeartbeatDriver { interval_ns, step, last_ns: None }
    }

    /// The cadence decision at `now`: the stamped step when due (and the last fire moves to
    /// `now`), else nothing (and nothing moves), so the cadence never runs faster than the interval.
    pub fn tick(&mut self, now_ns: u128) -> (r: Option<Step>)
        ensures
            heartbeat_due(old(self).last_ns, old(self).interval_ns, now_ns) ==> (r matches Some(s) && stamped(
                s,
                old(self).step,
                "heartbeat"@,
            )) && final(self).last_ns == Some(now_ns),
            !heartbeat_due(old(self).last_ns, old(self).interval_ns, now_ns) ==> r is None && final(self).last_ns
                == old(self).last_ns,
            final(self).interval_ns == old(self).interval_ns,
            final(self).step == old(self).step,
    {
        let due = match self.last_ns {
            None => true,
            Some(prev) => {
                let elapsed = if now_ns >= prev { now_ns - prev } else { 0 };
                elapsed >= self.interval_ns
            },
        };
        if !due {
            return None;
        }
        self.last_ns = Some(now_ns);
        Some(stamp(&self.step, "heartbeat"))
    }
}

/// Watch-on-change: emits its template step when the probed state token differs from the last one
/// observed; the first observation counts as a change, and nothing observed never fires.
pub struct WatchDriver {
    pub step: Step,
    pub last: Option<u64>,
}

impl WatchDriver {
    pub fn new(step: Step) -> (r: Self)
        ensures
            r.step == step && r.last is None,
    {
        WatchDriver { step, last: None }
    }

    /// The decision on one probe reading (`None` = nothing to observe).
    pub fn observe(&mut self, token: Option<u64>) -> (r: Option<Step>)
        ensures
            final(self).step == old(self).step,
            match token {
                None => r is None && final(self).last == old(self).last,
                Some(t) => if old(self).last == Some(t) {
                    r is None && final(self).last == old(self).last
                } else {
                    (r matches Some(s) && stamped(s, old(self).step, "watch"@)) && final(self).last == Some(t)
                },
            },
    {
        let t = match token {
            Some(t) => t,
            None => return None,
        };
        match self.last {
            Some(prev) => {
                if prev == t {
                    return None;
                }
            },
            None => {},
        }
        self.last = Some(t);
        Some(stamp(&self.step, "watch"))
    }
}

/// The state token of a watched file: its modification time in nanoseconds shifted left one bit
/// (bits shifted out are lost) and XORed with its length.
pub fn change_token(mtime_ns: u64, len: u64) -> (r: u64)
    ensures
        r == ((mtime_ns << 1u64) ^ len),
{
    (mtime_ns << 1u64) ^ len
}

/// The daemon's bound decision: perpetual when `--max-ticks 0`, or when a watch is set without an
/// explicit `--max-ticks`; otherwise bounded by `--max-ticks`.
pub fn daemon_perpetual(max_ticks: usize, max_ticks_set: bool, has_watch: bool) -> (r: bool)
    ensures
        r == (max_ticks == 0 || (has_watch && !max_ticks_set)),
{
    max_ticks == 0 || (has_watch && !max_ticks_set)
}

/// A chat role from its wire name; anything unknown is `user`.
pub fn parse_role(r: &str) -> (role: Role)
    ensures
        role == if r@ == "system"@ {
            Role::System
        } else if r@ == "assistant"@ {
            Role::Assistant
        } else if r@ == "tool"@ {
            Role::Tool
        } else {
            Role::User
        },
{
    if crate::text::str_eq(r, "system") {
        Role::System
    } else if crate::text::str_eq(r, "assistant") {
        Role::Assistant
    } else if crate::text::str_eq(r, "tool") {
        Role::Tool
    } else {
        Role::User
    }
}

} // verus!
