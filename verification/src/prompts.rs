//! The memory-maintenance prompts: the consolidation (a self-interview and forward narrative
//! over the prior narrative and the recent turns), the cold-eyes validation (a fresh auditor
//! diffing the narrative against the Tape and the episodes), and the corrective consolidation
//! (the narrative regenerated from the ground truth alone). Pure string assembly.

use vstd::prelude::*;
use crate::memory::{chars_cap, episode_text, occurs_in, spec_chars_cap, summarize, summary, Episode};
use crate::text::{decimal, push_decimal, push_str, starts_with};
use crate::types::{Content, DataClass, Kind, Step, Trust};

verus! {

pub open spec fn consolidation_intro() -> Seq<char> {
    "You are compressing your working memory before older context is lost, for your successor \
             instance (it will wake with only this narrative + the lossless Tape). Write an updated, \
             concise narrative capturing:\n\
             1. the durable arc - how we got here, cause -> effect (not a flat list);\n\
             2. the current state and what is in flight;\n\
             3. the questions your successor will ask, with their answers.\n\
             Exact facts of record live in the Tape - capture intent + arc, do not restate facts as if \
             you are their source (you may be wrong; the Tape is not).\n"@
}

pub open spec fn consolidation_layout() -> Seq<char> {
    "\nReply with BOTH sections in exactly this layout, keeping the two marker lines. Base \
             every line on the turns above; replace every parenthesized hint with real content and \
             never copy a hint verbatim:\n\
             === NARRATIVE ===\n\
             (the updated narrative)\n\
             === EPISODE ===\n\
             happened: (one line - the factual core of the new turns)\n\
             changed: (one line - what shifted)\n\
             matters: (one line - why this deserves remembering)\n\
             unresolved: (one line - open loops carried forward)\n\
             anchors: (3-6 short search phrases, semicolon-separated)\n"@
}

pub open spec fn cold_eyes_intro() -> Seq<char> {
    "You are a fresh, uninvested auditor. Below is a NARRATIVE (model-authored, possibly wrong), \
             the EPISODES (durable digests of older history), and the TAPE (the lossless record of the \
             most recent turns - the ground truth). Flag ONLY materially false or invented claims - \
             facts, names, numbers, or events that appear in the narrative but in NEITHER the Tape nor \
             the episodes, or that CONTRADICT them. Differences of wording, chronology, ordering, or \
             emphasis are NOT drift. List each materially false claim on its own line; if none, reply \
             with exactly the word CONSISTENT.\n\nNARRATIVE:\n"@
}

pub open spec fn correction_intro() -> Seq<char> {
    "A fresh auditor diffed your memory narrative against the lossless Tape (the ground \
             truth) and found claims the Tape does NOT support:\n"@
}

pub open spec fn correction_requirements() -> Seq<char> {
    "\nRegenerate the narrative FROM THE GROUND TRUTH below. Requirements:\n\
             - Do NOT mention, quote, refute, or allude to the unsupported claims - write the \
             narrative as if they never existed.\n\
             - Keep only what the Tape and episodes support; do not restate facts as if you are \
             their source (the Tape is).\n\
             - Reply with ONLY the narrative text - no headings, no analysis, no commentary.\n"@
}

/// Each recent turn's working-memory entry on a line of its own.
pub open spec fn summary_lines(turns: Seq<(String, String)>) -> Seq<char>
    decreases turns.len(),
{
    if turns.len() == 0 {
        seq![]
    } else {
        summary_lines(turns.drop_last()) + summary(turns.last().0@, turns.last().1@) + "\n"@
    }
}

/// Each episode's flat text on a line of its own.
pub open spec fn episode_lines(eps: Seq<Episode>) -> Seq<char>
    decreases eps.len(),
{
    if eps.len() == 0 {
        seq![]
    } else {
        episode_lines(eps.drop_last()) + episode_text(eps.last()) + "\n"@
    }
}

/// Each finding as a `- ` bullet on a line of its own.
pub open spec fn finding_lines(fs: Seq<Seq<char>>) -> Seq<char>
    decreases fs.len(),
{
    if fs.len() == 0 {
        seq![]
    } else {
        finding_lines(fs.drop_last()) + "- "@ + fs.last() + "\n"@
    }
}

fn push_summary_lines(p: &mut String, turns: &Vec<(String, String)>)
    ensures
        final(p)@ == old(p)@ + summary_lines(turns@),
{
    let mut i: usize = 0;
    while i < turns.len()
        invariant
            i <= turns@.len(),
            p@ == old(p)@ + summary_lines(turns@.take(i as int)),
        decreases turns@.len() - i,
    {
        let e = summarize(turns[i].0.as_str(), turns[i].1.as_str());
        push_str(p, e.as_str());
        push_str(p, "\n");
        proof {
            assert(turns@.take(i + 1).drop_last() =~= turns@.take(i as int));
        }
        i = i + 1;
    }
    assert(turns@.take(turns@.len() as int) =~= turns@);
}

fn push_episode_lines(p: &mut String, eps: &Vec<Episode>)
    ensures
        final(p)@ == old(p)@ + episode_lines(eps@),
{
    let mut i: usize = 0;
    while i < eps.len()
        invariant
            i <= eps@.len(),
            p@ == old(p)@ + episode_lines(eps@.take(i as int)),
        decreases eps@.len() - i,
    {
        let t = eps[i].text();
        push_str(p, t.as_str());
        push_str(p, "\n");
        proof {
            assert(eps@.take(i + 1).drop_last() =~= eps@.take(i as int));
        }
        i = i + 1;
    }
    assert(eps@.take(eps@.len() as int) =~= eps@);
}

/// The consolidation prompt over the prior narrative (if any) and the recent turns, oldest first.
pub open spec fn consolidation_prompt_text(
    narrative: Option<Seq<char>>,
    turns: Seq<(String, String)>,
    ring3: u32,
) -> Seq<char> {
    let p1 = match narrative {
        Some(n) => consolidation_intro() + "\nPrior narrative:\n"@ + n + "\n"@,
        None => consolidation_intro(),
    };
    let p2 = if turns.len() == 0 {
        p1 + "\n(no new turns since the prior narrative)"@
    } else {
        p1 + "\nNew turns since (oldest first):\n"@ + summary_lines(turns)
    };
    let p3 = match spec_chars_cap(ring3) {
        Some(c) => p2 + "\nKeep the narrative under about "@ + decimal(c as nat)
            + " characters - it is loaded within a fixed budget.\n"@,
        None => p2,
    };
    p3 + consolidation_layout()
}

/// Build the consolidation prompt: a self-interview and forward-narrative instruction over the
/// prior narrative and the recent turns (`(user text, answer)`, oldest first), asking for the
/// narrative within the ring-3 budget and for both registers in the marker layout.
pub fn consolidation_prompt(narrative: Option<&str>, turns: &Vec<(String, String)>, ring3: u32) -> (r: String)
    requires
        ring3 * 4 <= usize::MAX,
    ensures
        r@ == consolidation_prompt_text(
            match narrative { Some(n) => Some(n@), None => None },
            turns@,
            ring3,
        ),
{
    let mut p = String::from_str("You are compressing your working memory before older context is lost, for your successor \
             instance (it will wake with only this narrative + the lossless Tape). Write an updated, \
             concise narrative capturing:\n\
             1. the durable arc - how we got here, cause -> effect (not a flat list);\n\
             2. the current state and what is in flight;\n\
             3. the questions your successor will ask, with their answers.\n\
             Exact facts of record live in the Tape - capture intent + arc, do not restate facts as if \
             you are their source (you may be wrong; the Tape is not).\n");
    match narrative {
        Some(n) => {
            push_str(&mut p, "\nPrior narrative:\n");
            push_str(&mut p, n);
            push_str(&mut p, "\n");
        },
        None => {},
    }
    if turns.len() == 0 {
        push_str(&mut p, "\n(no new turns since the prior narrative)");
    } else {
        push_str(&mut p, "\nNew turns since (oldest first):\n");
        push_summary_lines(&mut p, turns);
    }
    match chars_cap(ring3) {
        Some(c) => {
            push_str(&mut p, "\nKeep the narrative under about ");
            push_decimal(&mut p, c as u64);
            push_str(&mut p, " characters - it is loaded within a fixed budget.\n");
        },
        None => {},
    }
    push_str(&mut p, "\nReply with BOTH sections in exactly this layout, keeping the two marker lines. Base \
             every line on the turns above; replace every parenthesized hint with real content and \
             never copy a hint verbatim:\n\
             === NARRATIVE ===\n\
             (the updated narrative)\n\
             === EPISODE ===\n\
             happened: (one line - the factual core of the new turns)\n\
             changed: (one line - what shifted)\n\
             matters: (one line - why this deserves remembering)\n\
             unresolved: (one line - open loops carried forward)\n\
             anchors: (3-6 short search phrases, semicolon-separated)\n");
    p
}

/// The cold-eyes validation prompt for a narrative, over the episodes (oldest first) and the
/// recent turns (oldest first).
pub open spec fn cold_eyes_prompt_text(
    narrative: Seq<char>,
    eps: Seq<Episode>,
    turns: Seq<(String, String)>,
) -> Seq<char> {
    let p1 = cold_eyes_intro() + narrative;
    let p2 = if eps.len() > 0 {
        p1 + "\n\nEPISODES (older history, oldest first):\n"@ + episode_lines(eps)
    } else {
        p1
    };
    p2 + "\nTAPE (the most recent turns, oldest first):\n"@ + summary_lines(turns)
}

/// The cold-eyes prompt shows the auditor everything it diffs: it opens with the audit
/// instructions (the Tape as ground truth, `NEITHER`, the `CONSISTENT` reply) followed by the
/// narrative under review, carries every episode line when there are episodes, and ends with the
/// Tape's recent turns.
pub proof fn lemma_cold_eyes_prompt_shows_the_ground_truth(
    narrative: Seq<char>,
    eps: Seq<Episode>,
    turns: Seq<(String, String)>,
)
    ensures
        starts_with(cold_eyes_prompt_text(narrative, eps, turns), cold_eyes_intro() + narrative),
        eps.len() > 0 ==> occurs_in(cold_eyes_prompt_text(narrative, eps, turns), episode_lines(eps)),
        ({
            let p = cold_eyes_prompt_text(narrative, eps, turns);
            let tail = "\nTAPE (the most recent turns, oldest first):\n"@ + summary_lines(turns);
            tail.len() <= p.len() && p.subrange(p.len() - tail.len(), p.len() as int) == tail
        }),
{
    let p1 = cold_eyes_intro() + narrative;
    let mid = "\n\nEPISODES (older history, oldest first):\n"@;
    let p2 = if eps.len() > 0 { p1 + mid + episode_lines(eps) } else { p1 };
    let tail = "\nTAPE (the most recent turns, oldest first):\n"@ + summary_lines(turns);
    let p = p2 + tail;
    assert(p == cold_eyes_prompt_text(narrative, eps, turns));
    assert(p.subrange(0, p1.len() as int) =~= p1);
    assert(p.subrange(p.len() - tail.len(), p.len() as int) =~= tail);
    if eps.len() > 0 {
        let i: int = (p1.len() + mid.len()) as int;
        let el = episode_lines(eps);
        assert(p.subrange(i, i + el.len()) =~= el);
    }
}

/// Build the cold-eyes validation prompt: a fresh, uninvested pass that diffs the model-authored
/// narrative against the Tape and the episodes, flagging only material fabrication. `None` when
/// there is no narrative to validate.
pub fn cold_eyes_prompt(narrative: Option<&str>, episodes: &Vec<Episode>, turns: &Vec<(String, String)>) -> (r:
    Option<String>)
    ensures
        match narrative {
            Some(n) => r matches Some(p) && p@ == cold_eyes_prompt_text(n@, episodes@, turns@),
            None => r is None,
        },
{
    let n = match narrative {
        Some(n) => n,
        None => return None,
    };
    let mut p = String::from_str("You are a fresh, uninvested auditor. Below is a NARRATIVE (model-authored, possibly wrong), \
             the EPISODES (durable digests of older history), and the TAPE (the lossless record of the \
             most recent turns - the ground truth). Flag ONLY materially false or invented claims - \
             facts, names, numbers, or events that appear in the narrative but in NEITHER the Tape nor \
             the episodes, or that CONTRADICT them. Differences of wording, chronology, ordering, or \
             emphasis are NOT drift. List each materially false claim on its own line; if none, reply \
             with exactly the word CONSISTENT.\n\nNARRATIVE:\n");
    push_str(&mut p, n);
    if episodes.len() > 0 {
        push_str(&mut p, "\n\nEPISODES (older history, oldest first):\n");
        push_episode_lines(&mut p, episodes);
    }
    push_str(&mut p, "\nTAPE (the most recent turns, oldest first):\n");
    push_summary_lines(&mut p, turns);
    Some(p)
}

/// The corrective consolidation prompt: the findings, the requirements, the budget hint, then
/// the ground truth (episodes and recent turns); the drifted narrative is never included.
pub open spec fn corrective_prompt_text(
    findings: Seq<Seq<char>>,
    ring3: u32,
    eps: Seq<Episode>,
    turns: Seq<(String, String)>,
) -> Seq<char> {
    let p1 = correction_intro() + finding_lines(findings) + correction_requirements();
    let p2 = match spec_chars_cap(ring3) {
        Some(c) => p1 + "- Keep it under about "@ + decimal(c as nat) + " characters.\n"@,
        None => p1,
    };
    let p3 = if eps.len() > 0 {
        p2 + "\nEpisodes (durable digests, oldest first):\n"@ + episode_lines(eps)
    } else {
        p2
    };
    p3 + "\nTAPE (the facts, oldest first):\n"@ + summary_lines(turns)
}

/// Build the corrective consolidation prompt after cold-eyes flagged drift: the narrative is
/// regenerated from the source registers (see [`corrective_prompt_text`]).
pub fn corrective_consolidation_prompt(
    findings: &Vec<String>,
    ring3: u32,
    episodes: &Vec<Episode>,
    turns: &Vec<(String, String)>,
) -> (r: String)
    requires
        ring3 * 4 <= usize::MAX,
    ensures
        r@ == corrective_prompt_text(crate::text::views(findings@), ring3, episodes@, turns@),
{
    let mut p = String::from_str("A fresh auditor diffed your memory narrative against the lossless Tape (the ground \
             truth) and found claims the Tape does NOT support:\n");
    let mut i: usize = 0;
    while i < findings.len()
        invariant
            i <= findings@.len(),
            p@ == correction_intro() + finding_lines(crate::text::views(findings@.take(i as int))),
        decreases findings@.len() - i,
    {
        push_str(&mut p, "- ");
        push_str(&mut p, findings[i].as_str());
        push_str(&mut p, "\n");
        proof {
            assert(crate::text::views(findings@.take(i + 1)).drop_last() =~= crate::text::views(findings@.take(i as int)));
            assert(crate::text::views(findings@.take(i + 1)).last() == findings@[i as int]@);
        }
        i = i + 1;
    }
    assert(findings@.take(findings@.len() as int) =~= findings@);
    push_str(&mut p, "\nRegenerate the narrative FROM THE GROUND TRUTH below. Requirements:\n\
             - Do NOT mention, quote, refute, or allude to the unsupported claims - write the \
             narrative as if they never existed.\n\
             - Keep only what the Tape and episodes support; do not restate facts as if you are \
             their source (the Tape is).\n\
             - Reply with ONLY the narrative text - no headings, no analysis, no commentary.\n");
    match chars_cap(ring3) {
        Some(c) => {
            push_str(&mut p, "- Keep it under about ");
            push_decimal(&mut p, c as u64);
            push_str(&mut p, " characters.\n");
        },
        None => {},
    }
    if episodes.len() > 0 {
        push_str(&mut p, "\nEpisodes (durable digests, oldest first):\n");
        push_episode_lines(&mut p, episodes);
    }
    push_str(&mut p, "\nTAPE (the facts, oldest first):\n");
    push_summary_lines(&mut p, turns);
    p
}

/// The maintenance step a consolidation routes as: a core-wire `memory:consolidate` turn from
/// the `memory` source, sovereign (personal turn history stays on-box), carrying the prompt.
pub fn consolidation_step(prompt: String) -> (s: Step)
    ensures
        s.kind == Kind::CoreWire,
        s.ty@ == "memory:consolidate"@,
        s.trust_required == Trust::Normal,
        s.data_class == DataClass::Sovereign,
        s.tier_history@.len() == 0,
        s.oracle_failures == 0,
        !s.critical,
        s.source matches Some(src) && src@ == "memory"@,
        s.content@.len() == 1,
        s.content@[0] matches Content::Text { text } && text@ == prompt@,
        s.golden_refs@.len() == 0,
{
    let mut content: Vec<Content> = Vec::new();
    content.push(Content::Text { text: prompt });
    Step {
        kind: Kind::CoreWire,
        ty: String::from_str("memory:consolidate"),
        trust_required: Trust::Normal,
        data_class: DataClass::Sovereign,
        tier_history: Vec::new(),
        oracle_failures: 0,
        critical: false,
        source: Some(String::from_str("memory")),
        content,
        golden_refs: Vec::new(),
    }
}

} // verus!
