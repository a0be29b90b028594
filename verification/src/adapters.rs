//! The pure parts of the brain adapters and the ears: how effort maps onto each provider's
//! thinking switch, how message roles and text parts are written, how an OpenAI-shaped reply
//! reads back (cost, a money amount, is computed beside it), and how the local Whisper organ is
//! invoked and its output cleaned. The HTTP calls and the subprocess stay with the wiring layer.

use vstd::prelude::*;
use crate::maintenance::nonempty_trimmed;
use crate::text::{
    char_pos_at, chars_of, join, join_strings, lemma_str_lines_step, line_end, push_str, str_eq, str_lines, string_at,
    trim, trim_at, views,
};
use crate::types::{Content, Effort, Role, ToolCall, Usage};

verus! {

// ---------------------------------------------------------------------------------------------
// effort -> provider thinking switches

/// Whether a thinking level is a lean signal (thinking off).
pub open spec fn is_lean(t: Seq<char>) -> bool {
    t == "low"@ || t == "off"@ || t == "none"@ || t == "no"@
}

fn lean(t: &str) -> (r: bool)
    ensures
        r == is_lean(t@),
{
    str_eq(t, "low") || str_eq(t, "off") || str_eq(t, "none") || str_eq(t, "no")
}

/// DeepSeek's `reasoning_effort` for an effort: its thinking level, unless that is absent or a
/// lean signal (then non-thinking).
pub fn reasoning_effort(effort: &Effort) -> (r: Option<String>)
    ensures
        match effort.thinking {
            Some(t) => if is_lean(t@) { r is None } else { r matches Some(s) && s@ == t@ },
            None => r is None,
        },
{
    match &effort.thinking {
        Some(t) => if lean(t.as_str()) {
            None
        } else {
            Some(t.clone())
        },
        None => None,
    }
}

/// The local server's thinking toggle (`chat_template_kwargs.enable_thinking`) for an effort:
/// off for a lean signal, on for any other level, unset without one.
pub fn thinking_enabled(effort: &Effort) -> (r: Option<bool>)
    ensures
        match effort.thinking {
            Some(t) => r == Some(!is_lean(t@)),
            None => r is None,
        },
{
    match &effort.thinking {
        Some(t) => Some(!lean(t.as_str())),
        None => None,
    }
}

/// Anthropic's extended-thinking token budget for an effort: 8192 at `high` or `max`, else off.
pub fn thinking_budget(effort: &Effort) -> (r: Option<u32>)
    ensures
        match effort.thinking {
            Some(t) => if t@ == "high"@ || t@ == "max"@ { r == Some(8192u32) } else { r is None },
            None => r is None,
        },
{
    match &effort.thinking {
        Some(t) => if str_eq(t.as_str(), "high") || str_eq(t.as_str(), "max") {
            Some(8192)
        } else {
            None
        },
        None => None,
    }
}

/// The text parts of a message's content, in order.
pub open spec fn text_parts(content: Seq<Content>) -> Seq<Seq<char>>
    decreases content.len(),
{
    if content.len() == 0 {
        seq![]
    } else {
        match content.last() {
            Content::Text { text } => text_parts(content.drop_last()).push(text@),
            _ => text_parts(content.drop_last()),
        }
    }
}

/// A message's text parts joined by newlines (its system text, for Anthropic).
pub fn text_of(content: &Vec<Content>) -> (r: String)
    ensures
        r@ == join(text_parts(content@), "\n"@),
{
    let mut parts: Vec<String> = Vec::new();
    let mut i: usize = 0;
    while i < content.len()
        invariant
            i <= content@.len(),
            views(parts@) == text_parts(content@.take(i as int)),
        decreases content@.len() - i,
    {
        proof {
            assert(content@.take(i + 1).drop_last() =~= content@.take(i as int));
            assert(content@.take(i + 1).last() == content@[i as int]);
        }
        match &content[i] {
            Content::Text { text } => {
                let ghost before = views(parts@);
                parts.push(text.clone());
                assert(views(parts@) =~= before.push(text@));
            },
            _ => {},
        }
        i = i + 1;
    }
    assert(content@.take(content@.len() as int) =~= content@);
    join_strings(&parts, "\n")
}

/// The OpenAI wire name of a role.
pub open spec fn role_name(role: Role) -> Seq<char> {
    match role {
        Role::System => "system"@,
        Role::User => "user"@,
        Role::Assistant => "assistant"@,
        Role::Tool => "tool"@,
    }
}

/// The OpenAI wire name of a role.
pub fn role_str(role: Role) -> (r: &'static str)
    ensures
        r@ == role_name(role),
{
    match role {
        Role::System => "system",
        Role::User => "user",
        Role::Assistant => "assistant",
        Role::Tool => "tool",
    }
}

/// An endpoint base URL without its trailing slashes.
pub open spec fn trimmed_endpoint(s: Seq<char>) -> Seq<char>
    decreases s.len(),
{
    if s.len() > 0 && s.last() == '/' {
        trimmed_endpoint(s.drop_last())
    } else {
        s
    }
}

/// Trim the trailing slashes off an endpoint base URL (the adapters append their own paths).
pub fn trim_endpoint(endpoint: &str) -> (r: String)
    ensures
        r@ == trimmed_endpoint(endpoint@),
{
    let v = chars_of(endpoint);
    let mut j = v.len();
    assert(v@.subrange(0, v@.len() as int) =~= v@);
    while j > 0 && v[j - 1] == '/'
        invariant
            j <= v@.len(),
            v@ == endpoint@,
            trimmed_endpoint(v@) == trimmed_endpoint(v@.subrange(0, j as int)),
        decreases j,
    {
        assert(v@.subrange(0, j as int).drop_last() =~= v@.subrange(0, j - 1));
        j = j - 1;
    }
    string_at(&v, 0, j)
}

/// DeepSeek's chat endpoint: `{endpoint}/chat/completions` (no `/v1`).
pub fn deepseek_chat_url(endpoint: &str) -> (r: String)
    ensures
        r@ == endpoint@ + "/chat/completions"@,
{
    let mut r = String::from_str(endpoint);
    push_str(&mut r, "/chat/completions");
    r
}

/// A local OpenAI-compatible server's chat endpoint: `{endpoint}/v1/chat/completions`.
pub fn local_chat_url(endpoint: &str) -> (r: String)
    ensures
        r@ == endpoint@ + "/v1/chat/completions"@,
{
    let mut r = String::from_str(endpoint);
    push_str(&mut r, "/v1/chat/completions");
    r
}

// ---------------------------------------------------------------------------------------------
// the OpenAI reply shape

pub struct OaiResponse {
    pub choices: Vec<OaiChoice>,
    pub usage: OaiUsage,
}

pub struct OaiChoice {
    pub message: OaiMessage,
}

pub struct OaiMessage {
    pub content: Option<String>,
    pub reasoning_content: Option<String>,
    pub tool_calls: Vec<OaiToolCall>,
}

pub struct OaiToolCall {
    pub id: String,
    pub kind: String,
    pub function: OaiFunction,
}

pub struct OaiFunction {
    pub name: String,
    pub arguments: String,
}

pub struct OaiUsage {
    pub prompt_tokens: u64,
    pub completion_tokens: u64,
    /// DeepSeek's prompt-cache-hit tokens (absent on local servers).
    pub prompt_cache_hit_tokens: u64,
}

/// What a reply says, apart from its cost: the first choice's text (empty when absent), its tool
/// calls, its reasoning, and the token usage.
pub struct Reply {
    pub content: String,
    pub tool_calls: Vec<ToolCall>,
    pub reasoning_content: Option<String>,
    pub usage: Usage,
}

/// A tool call as the library carries it: an empty kind reads as `function`.
pub open spec fn call_matches(c: ToolCall, t: OaiToolCall) -> bool {
    &&& c.id@ == t.id@
    &&& c.kind@ == if t.kind@.len() == 0 { "function"@ } else { t.kind@ }
    &&& c.name@ == t.function.name@
    &&& c.arguments@ == t.function.arguments@
}

/// Read an OpenAI-shaped reply: the first choice's message (or an empty one when there is no
/// choice) and the usage.
pub fn reply_of(oai: OaiResponse) -> (r: Reply)
    ensures
        r.usage.input_tokens == oai.usage.prompt_tokens,
        r.usage.output_tokens == oai.usage.completion_tokens,
        r.usage.cache_hit_tokens == oai.usage.prompt_cache_hit_tokens,
        oai.choices@.len() == 0 ==> r.content@.len() == 0 && r.tool_calls@.len() == 0 && r.reasoning_content is None,
        oai.choices@.len() > 0 ==> {
            let m = oai.choices@[0].message;
            &&& r.content@ == match m.content { Some(c) => c@, None => seq![] }
            &&& r.reasoning_content == m.reasoning_content
            &&& r.tool_calls@.len() == m.tool_calls@.len()
            &&& forall|i: int| 0 <= i < r.tool_calls@.len() ==> call_matches(#[trigger] r.tool_calls@[i], m.tool_calls@[i])
        },
{
    let usage = Usage {
        input_tokens: oai.usage.prompt_tokens,
        output_tokens: oai.usage.completion_tokens,
        cache_hit_tokens: oai.usage.prompt_cache_hit_tokens,
    };
    if oai.choices.len() == 0 {
        return Reply { content: String::new(), tool_calls: Vec::new(), reasoning_content: None, usage };
    }
    let m = &oai.choices[0].message;
    let mut calls: Vec<ToolCall> = Vec::new();
    let mut i: usize = 0;
    while i < m.tool_calls.len()
        invariant
            i <= m.tool_calls@.len(),
            calls@.len() == i,
            forall|j: int| 0 <= j < i ==> call_matches(#[trigger] calls@[j], m.tool_calls@[j]),
        decreases m.tool_calls@.len() - i,
    {
        let t = &m.tool_calls[i];
        let kind = if t.kind.as_str().is_empty() { String::from_str("function") } else { t.kind.clone() };
        calls.push(ToolCall {
            id: t.id.clone(),
            kind,
            name: t.function.name.clone(),
            arguments: t.function.arguments.clone(),
        });
        i = i + 1;
    }
    let content = match &m.content {
        Some(c) => c.clone(),
        None => String::new(),
    };
    let reasoning_content = match &m.reasoning_content {
        Some(c) => Some(c.clone()),
        None => None,
    };
    Reply { content, tool_calls: calls, reasoning_content, usage }
}

// ---------------------------------------------------------------------------------------------
// the ears: local Whisper

/// One timestamped transcript segment; offsets are milliseconds from the clip start.
#[derive(Clone, Debug, PartialEq, Eq)]
pub struct Segment {
    pub start_ms: u64,
    pub end_ms: u64,
    pub text: String,
}

/// One entry of whisper.cpp's JSON transcription as read: its offsets and its text when present
/// as such.
pub struct RawSegment {
    pub from_ms: Option<u64>,
    pub to_ms: Option<u64>,
    pub text: Option<String>,
}

/// The segments kept from whisper.cpp's JSON entries: those whose trimmed text is non-empty,
/// with missing offsets read as 0.
pub open spec fn kept_segments(raw: Seq<RawSegment>) -> Seq<(u64, u64, Seq<char>)>
    decreases raw.len(),
{
    if raw.len() == 0 {
        seq![]
    } else {
        let r = kept_segments(raw.drop_last());
        let s = raw.last();
        match s.text {
            Some(t) => if trim(t@).len() > 0 {
                r.push((
                    match s.from_ms { Some(x) => x, None => 0u64 },
                    match s.to_ms { Some(x) => x, None => 0u64 },
                    trim(t@),
                ))
            } else {
                r
            },
            None => r,
        }
    }
}

pub open spec fn segment_views(v: Seq<Segment>) -> Seq<(u64, u64, Seq<char>)> {
    v.map_values(|s: Segment| (s.start_ms, s.end_ms, s.text@))
}

/// Keep the non-blank transcript segments, trimmed (see [`kept_segments`]).
pub fn clean_segments(raw: &Vec<RawSegment>) -> (r: Vec<Segment>)
    ensures
        segment_views(r@) == kept_segments(raw@),
{
    let mut out: Vec<Segment> = Vec::new();
    let mut i: usize = 0;
    while i < raw.len()
        invariant
            i <= raw@.len(),
            segment_views(out@) == kept_segments(raw@.take(i as int)),
        decreases raw@.len() - i,
    {
        proof {
            assert(raw@.take(i + 1).drop_last() =~= raw@.take(i as int));
            assert(raw@.take(i + 1).last() == raw@[i as int]);
        }
        let s = &raw[i];
        match &s.text {
            Some(t) => {
                let v = chars_of(t.as_str());
                let (a, b) = trim_at(&v, 0, v.len());
                assert(v@.subrange(0, v@.len() as int) =~= t@);
                if b > a {
                    let seg = Segment {
                        start_ms: match s.from_ms { Some(x) => x, None => 0 },
                        end_ms: match s.to_ms { Some(x) => x, None => 0 },
                        text: string_at(&v, a, b),
                    };
                    let ghost before = segment_views(out@);
                    let ghost sv = (seg.start_ms, seg.end_ms, seg.text@);
                    out.push(seg);
                    assert(segment_views(out@) =~= before.push(sv));
                }
            },
            None => {},
        }
        i = i + 1;
    }
    assert(raw@.take(raw@.len() as int) =~= raw@);
    out
}

/// The local Whisper transcription organ (whisper.cpp `whisper-cli`): a sovereign, local
/// transcriber, not a routed tier.
pub struct Whisper {
    /// Path to `whisper-cli`.
    pub cli: String,
    /// Path to the GGML model.
    pub model: String,
}

impl Whisper {
    pub fn new(cli: String, model: String) -> (r: Self)
        ensures
            r.cli == cli && r.model == model,
    {
        Whisper { cli, model }
    }

    /// The `whisper-cli` arguments for a clean, timestamp-free transcript on stdout.
    pub fn args(model: &str, audio: &str) -> (r: Vec<String>)
        ensures
            views(r@) == seq!["-m"@, model@, "-f"@, audio@, "--no-timestamps"@, "--no-prints"@],
    {
        let mut r: Vec<String> = Vec::new();
        r.push(String::from_str("-m"));
        r.push(String::from_str(model));
        r.push(String::from_str("-f"));
        r.push(String::from_str(audio));
        r.push(String::from_str("--no-timestamps"));
        r.push(String::from_str("--no-prints"));
        assert(views(r@) =~= seq!["-m"@, model@, "-f"@, audio@, "--no-timestamps"@, "--no-prints"@]);
        r
    }

    /// The `whisper-cli` arguments for a timestamped JSON transcript written to `<out_base>.json`.
    pub fn args_json(model: &str, audio: &str, out_base: &str) -> (r: Vec<String>)
        ensures
            views(r@) == seq!["-m"@, model@, "-f"@, audio@, "-oj"@, "-of"@, out_base@, "--no-prints"@],
    {
        let mut r: Vec<String> = Vec::new();
        r.push(String::from_str("-m"));
        r.push(String::from_str(model));
        r.push(String::from_str("-f"));
        r.push(String::from_str(audio));
        r.push(String::from_str("-oj"));
        r.push(String::from_str("-of"));
        r.push(String::from_str(out_base));
        r.push(String::from_str("--no-prints"));
        assert(views(r@) =~= seq!["-m"@, model@, "-f"@, audio@, "-oj"@, "-of"@, out_base@, "--no-prints"@]);
        r
    }

    /// Clean `whisper-cli` stdout into one transcript: each line trimmed, blank lines dropped, the
    /// rest joined by single spaces.
    pub fn parse_transcript(stdout: &str) -> (r: String)
        ensures
            r@ == join(nonempty_trimmed(str_lines(stdout@)), " "@),
    {
        let v = chars_of(stdout);
        let n = v.len();
        let mut kept: Vec<String> = Vec::new();
        let ghost mut done: Seq<Seq<char>> = seq![];
        let mut pos: usize = 0;
        assert(v@.subrange(0, n as int) =~= stdout@);
        assert(str_lines(stdout@) == done + str_lines(v@.subrange(pos as int, n as int)));
        while pos < n
            invariant
                pos <= n == v@.len(),
                str_lines(stdout@) == done + str_lines(v@.subrange(pos as int, n as int)),
                views(kept@) == nonempty_trimmed(done),
            decreases n - pos,
        {
            let nl = char_pos_at(&v, pos, n, '\n');
            proof {
                lemma_str_lines_step(v@, pos as int, n as int, nl);
            }
            let end = match nl {
                Some(j) => j,
                None => n,
            };
            let le = line_end(&v, pos, end, nl.is_some());
            let ghost line = v@.subrange(pos as int, le as int);
            let (a, b) = trim_at(&v, pos, le);
            proof {
                assert(done.push(line).drop_last() =~= done);
            }
            if b > a {
                let ghost before = views(kept@);
                kept.push(string_at(&v, a, b));
                assert(views(kept@) =~= before.push(trim(line)));
            }
            proof {
                match nl {
                    Some(j) => {
                        assert(str_lines(stdout@) =~= done.push(line) + str_lines(v@.subrange(j + 1, n as int)));
                    },
                    None => {
                        assert(v@.subrange(n as int, n as int) =~= Seq::<char>::empty());
                        assert(str_lines(stdout@) =~= done.push(line) + str_lines(v@.subrange(n as int, n as int)));
                    },
                }
                done = done.push(line);
            }
            pos = match nl {
                Some(j) => j + 1,
                None => n,
            };
        }
        assert(v@.subrange(pos as int, n as int) =~= Seq::<char>::empty());
        assert(done =~= str_lines(stdout@));
        join_strings(&kept, " ")
    }
}

} // verus!

verus! {

// ---------------------------------------------------------------------------------------------
// 16-bit PCM WAV

/// The two little-endian bytes of a 16-bit value.
pub open spec fn le16(x: int) -> Seq<u8> {
    seq![(x % 256) as u8, ((x / 256) % 256) as u8]
}

/// The four little-endian bytes of a 32-bit value.
pub open spec fn le32(x: int) -> Seq<u8> {
    seq![(x % 256) as u8, ((x / 256) % 256) as u8, ((x / 65536) % 256) as u8, ((x / 16777216) % 256) as u8]
}

/// A sample's two's-complement bit pattern as an unsigned 16-bit value.
pub open spec fn pcm_word(s: i16) -> int {
    if s < 0 {
        s + 65536
    } else {
        s as int
    }
}

/// The PCM payload: each sample's little-endian bytes, in order.
pub open spec fn pcm_bytes(samples: Seq<i16>) -> Seq<u8>
    decreases samples.len(),
{
    if samples.len() == 0 {
        seq![]
    } else {
        pcm_bytes(samples.drop_last()) + le16(pcm_word(samples.last()))
    }
}

/// The canonical 44-byte RIFF/WAVE header of a 16-bit PCM stream of `n` samples.
pub open spec fn wav_header(n: int, sample_rate: u32, channels: u16) -> Seq<u8> {
    let block_align = channels * 2;
    let data_len = n * 2;
    seq![82u8, 73u8, 70u8, 70u8] + le32(36 + data_len) + seq![87u8, 65u8, 86u8, 69u8] + seq![102u8, 109u8, 116u8, 32u8]
        + le32(16) + le16(1) + le16(channels as int) + le32(sample_rate as int) + le32(sample_rate * block_align)
        + le16(block_align) + le16(16) + seq![100u8, 97u8, 116u8, 97u8] + le32(data_len)
}

fn push_le16(v: &mut Vec<u8>, x: u32)
    requires
        x < 65536,
    ensures
        final(v)@ == old(v)@ + le16(x as int),
{
    v.push((x % 256) as u8);
    v.push((x / 256) as u8);
    assert(final(v)@ =~= old(v)@ + le16(x as int)) by {
        assert((x / 256) % 256 == x / 256);
    }
}

fn push_le32(v: &mut Vec<u8>, x: u32)
    ensures
        final(v)@ == old(v)@ + le32(x as int),
{
    v.push((x % 256) as u8);
    v.push(((x / 256) % 256) as u8);
    v.push(((x / 65536) % 256) as u8);
    v.push((x / 16777216) as u8);
    assert(final(v)@ =~= old(v)@ + le32(x as int)) by {
        assert((x / 16777216) % 256 == x / 16777216);
    }
}

fn push_tag(v: &mut Vec<u8>, a: u8, b: u8, c: u8, d: u8)
    ensures
        final(v)@ == old(v)@ + seq![a, b, c, d],
{
    v.push(a);
    v.push(b);
    v.push(c);
    v.push(d);
    assert(final(v)@ =~= old(v)@ + seq![a, b, c, d]);
}

/// The bytes of a 16-bit PCM WAV file: the canonical header (PCM format 1, the given rate and
/// channel count, 16 bits per sample) then each sample little-endian.
pub fn wav_i16_bytes(samples: &Vec<i16>, sample_rate: u32, channels: u16) -> (r: Vec<u8>)
    requires
        channels * 2 <= u16::MAX,
        sample_rate * (channels * 2) <= u32::MAX,
        samples@.len() * 2 + 36 <= u32::MAX,
    ensures
        r@ == wav_header(samples@.len() as int, sample_rate, channels) + pcm_bytes(samples@),
{
    let block_align: u16 = channels * 2;
    let byte_rate: u32 = sample_rate * (block_align as u32);
    let data_len: u32 = (samples.len() * 2) as u32;
    let mut v: Vec<u8> = Vec::new();
    push_tag(&mut v, 82, 73, 70, 70);
    push_le32(&mut v, 36 + data_len);
    push_tag(&mut v, 87, 65, 86, 69);
    push_tag(&mut v, 102, 109, 116, 32);
    push_le32(&mut v, 16);
    push_le16(&mut v, 1);
    push_le16(&mut v, channels as u32);
    push_le32(&mut v, sample_rate);
    push_le32(&mut v, byte_rate);
    push_le16(&mut v, block_align as u32);
    push_le16(&mut v, 16);
    push_tag(&mut v, 100, 97, 116, 97);
    push_le32(&mut v, data_len);
    let ghost header = v@;
    assert(header =~= wav_header(samples@.len() as int, sample_rate, channels));
    let mut i: usize = 0;
    while i < samples.len()
        invariant
            i <= samples@.len(),
            v@ == header + pcm_bytes(samples@.take(i as int)),
        decreases samples@.len() - i,
    {
        let s = samples[i];
        let w: u32 = if s < 0 {
            (s as i32 + 65536) as u32
        } else {
            s as u32
        };
        push_le16(&mut v, w);
        proof {
            assert(samples@.take(i + 1).drop_last() =~= samples@.take(i as int));
            assert(samples@.take(i + 1).last() == s);
            assert(v@ =~= header + pcm_bytes(samples@.take(i + 1)));
        }
        i = i + 1;
    }
    assert(samples@.take(samples@.len() as int) =~= samples@);
    v
}

} // verus!
