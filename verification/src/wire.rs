//! The request bodies the brain adapters send, as plain values: OpenAI-shaped chat bodies (the
//! local server and DeepSeek) and Anthropic Messages bodies, plus the read-back of an Anthropic
//! reply. Which content parts a provider accepts, how a system prompt is hoisted and how an image
//! source is split are decided here; the wiring layer only writes these values out as JSON.

use vstd::prelude::*;
use crate::adapters::{
    is_lean, reasoning_effort, role_name, role_str, text_of, text_parts, thinking_budget, thinking_enabled, Reply,
};
use crate::errors::KeelError;
use crate::text::{
    char_pos_at, char_pos_from, chars_of, join, lemma_char_pos_from_bounds, push_char, push_str, starts_with, starts_with_at,
    string_at,
};
use crate::types::{Content, Effort, Message, Role, ToolCall, Usage};

verus! {

// ---------------------------------------------------------------------------------------------
// OpenAI-shaped chat bodies

/// One part of an OpenAI multi-part content array.
#[derive(Clone, Debug)]
pub enum OaiPart {
    Text { text: String },
    ImageUrl { url: String },
}

/// An OpenAI message's `content`: a bare string, or an array of parts.
#[derive(Clone, Debug)]
pub enum OaiContent {
    Plain(String),
    Parts(Vec<OaiPart>),
}

/// One message as an OpenAI-shaped server receives it.
#[derive(Clone, Debug)]
pub struct OaiWireMessage {
    pub role: String,
    pub content: OaiContent,
    pub name: Option<String>,
    pub tool_call_id: Option<String>,
    pub reasoning_content: Option<String>,
}

/// The common OpenAI chat body: model, messages and the token cap (tools are attached beside it).
#[derive(Clone, Debug)]
pub struct OaiBody {
    pub model: String,
    pub messages: Vec<OaiWireMessage>,
    pub max_tokens: u32,
}

/// The message of the refusal for a part the cognition tier cannot take raw.
pub open spec fn clip_refusal() -> Seq<char> {
    "clip/audio must be pre-processed to frames/text before the cognition tier (canon §12)"@
}

/// Whether an OpenAI-shaped server accepts a part as it is (text or image).
pub open spec fn oai_accepts(c: Content) -> bool {
    c is Text || c is Image
}

/// Whether a content list maps without refusal: every part is text or image.
pub open spec fn oai_content_ok(parts: Seq<Content>) -> bool {
    forall|i: int| 0 <= i < parts.len() ==> oai_accepts(#[trigger] parts[i])
}

/// A wire part carries its content part: text as text, an image source as an image url.
pub open spec fn part_matches(p: OaiPart, c: Content) -> bool {
    match c {
        Content::Text { text } => p matches OaiPart::Text { text: t } && t@ == text@,
        Content::Image { source } => p matches OaiPart::ImageUrl { url } && url@ == source@,
        _ => false,
    }
}

/// The wire content of a content list: empty is the empty string, one text part is that bare
/// string, anything else is the array of parts in order.
pub open spec fn content_matches(out: OaiContent, parts: Seq<Content>) -> bool {
    if parts.len() == 0 {
        out matches OaiContent::Plain(s) && s@.len() == 0
    } else if parts.len() == 1 && parts[0] is Text {
        out matches OaiContent::Plain(s) && parts[0] matches Content::Text { text } && s@ == text@
    } else {
        out matches OaiContent::Parts(v) && v@.len() == parts.len() && forall|i: int|
            0 <= i < parts.len() ==> part_matches(#[trigger] v@[i], parts[i])
    }
}

/// Two optional strings with the same text.
pub open spec fn same_text(a: Option<String>, b: Option<String>) -> bool {
    match (a, b) {
        (Some(x), Some(y)) => x@ == y@,
        (None, None) => true,
        _ => false,
    }
}

/// A wire message carries its message: role name, content, name, tool call id and reasoning.
pub open spec fn wire_matches(w: OaiWireMessage, m: Message) -> bool {
    &&& w.role@ == role_name(m.role)
    &&& content_matches(w.content, m.content@)
    &&& same_text(w.name, m.name)
    &&& same_text(w.tool_call_id, m.tool_call_id)
    &&& same_text(w.reasoning_content, m.reasoning_content)
}

/// Whether every message's content maps without refusal.
pub open spec fn messages_ok(ms: Seq<Message>) -> bool {
    forall|i: int| 0 <= i < ms.len() ==> oai_content_ok(#[trigger] ms[i].content@)
}

/// The base body of a request: `model`, the mapped messages and `max_tokens`.
pub open spec fn body_matches(b: OaiBody, messages: Seq<Message>, model: Seq<char>, max_tokens: u32) -> bool {
    &&& b.model@ == model
    &&& b.max_tokens == max_tokens
    &&& b.messages@.len() == messages.len()
    &&& forall|i: int| 0 <= i < messages.len() ==> wire_matches(#[trigger] b.messages@[i], messages[i])
}

fn copy_text(o: &Option<String>) -> (r: Option<String>)
    ensures
        same_text(r, *o),
{
    match o {
        Some(s) => Some(s.clone()),
        None => None,
    }
}

/// Map a message's content to the OpenAI shape; a clip or audio part is refused (it must be
/// turned into frames or text before the cognition tier).
pub fn map_content(parts: &Vec<Content>) -> (r: Result<OaiContent, KeelError>)
    ensures
        r is Ok <==> oai_content_ok(parts@),
        r matches Ok(c) ==> content_matches(c, parts@),
        r matches Err(e) ==> e matches KeelError::Other(m) && m@ == clip_refusal(),
{
    if parts.len() == 0 {
        return Ok(OaiContent::Plain(String::new()));
    }
    if parts.len() == 1 {
        match &parts[0] {
            Content::Text { text } => {
                return Ok(OaiContent::Plain(text.clone()));
            },
            _ => {},
        }
    }
    let mut arr: Vec<OaiPart> = Vec::new();
    let mut i: usize = 0;
    while i < parts.len()
        invariant
            i <= parts@.len(),
            parts@.len() > 0,
            !(parts@.len() == 1 && parts@[0] is Text),
            arr@.len() == i,
            forall|j: int| 0 <= j < i ==> part_matches(#[trigger] arr@[j], parts@[j]),
            forall|j: int| 0 <= j < i ==> oai_accepts(#[trigger] parts@[j]),
        decreases parts@.len() - i,
    {
        match &parts[i] {
            Content::Text { text } => {
                arr.push(OaiPart::Text { text: text.clone() });
            },
            Content::Image { source } => {
                arr.push(OaiPart::ImageUrl { url: source.clone() });
            },
            _ => {
                assert(!oai_accepts(parts@[i as int]));
                return Err(KeelError::Other(String::from_str(
                    "clip/audio must be pre-processed to frames/text before the cognition tier (canon §12)",
                )));
            },
        }
        i = i + 1;
    }
    Ok(OaiContent::Parts(arr))
}

/// Map a conversation to OpenAI-shaped messages (role, content, and the optional name, tool call
/// id and reasoning), refusing as [`map_content`] does.
pub fn map_messages(messages: &Vec<Message>) -> (r: Result<Vec<OaiWireMessage>, KeelError>)
    ensures
        r is Ok <==> messages_ok(messages@),
        r matches Ok(v) ==> v@.len() == messages@.len() && forall|i: int|
            0 <= i < messages@.len() ==> wire_matches(#[trigger] v@[i], messages@[i]),
        r matches Err(e) ==> e matches KeelError::Other(m) && m@ == clip_refusal(),
{
    let mut out: Vec<OaiWireMessage> = Vec::new();
    let mut i: usize = 0;
    while i < messages.len()
        invariant
            i <= messages@.len(),
            out@.len() == i,
            forall|j: int| 0 <= j < i ==> wire_matches(#[trigger] out@[j], messages@[j]),
            forall|j: int| 0 <= j < i ==> oai_content_ok(#[trigger] messages@[j].content@),
        decreases messages@.len() - i,
    {
        let m = &messages[i];
        let content = match map_content(&m.content) {
            Ok(c) => c,
            Err(e) => {
                return Err(e);
            },
        };
        out.push(
            OaiWireMessage {
                role: String::from_str(role_str(m.role)),
                content,
                name: copy_text(&m.name),
                tool_call_id: copy_text(&m.tool_call_id),
                reasoning_content: copy_text(&m.reasoning_content),
            },
        );
        i = i + 1;
    }
    Ok(out)
}

/// The OpenAI chat body every OpenAI-shaped tier starts from: `model`, the mapped messages and
/// `max_tokens` (a request's tools are attached beside it).
pub fn base_body(messages: &Vec<Message>, model: &str, max_tokens: u32) -> (r: Result<OaiBody, KeelError>)
    ensures
        r is Ok <==> messages_ok(messages@),
        r matches Ok(b) ==> body_matches(b, messages@, model@, max_tokens),
        r matches Err(e) ==> e matches KeelError::Other(m) && m@ == clip_refusal(),
{
    match map_messages(messages) {
        Ok(ms) => Ok(OaiBody { model: String::from_str(model), messages: ms, max_tokens }),
        Err(e) => Err(e),
    }
}

/// DeepSeek's body: the base body, with thinking enabled at the effort's `reasoning_effort` when
/// the effort asks for thinking.
#[derive(Clone, Debug)]
pub struct DeepSeekBody {
    pub body: OaiBody,
    /// `Some(level)` switches `thinking` on with `reasoning_effort = level`.
    pub reasoning_effort: Option<String>,
}

/// Build DeepSeek's chat body.
pub fn deepseek_body(messages: &Vec<Message>, model: &str, max_tokens: u32, effort: &Effort) -> (r: Result<
    DeepSeekBody,
    KeelError,
>)
    ensures
        r is Ok <==> messages_ok(messages@),
        r matches Ok(d) ==> {
            &&& body_matches(d.body, messages@, model@, max_tokens)
            &&& match effort.thinking {
                Some(t) => if is_lean(t@) {
                    d.reasoning_effort is None
                } else {
                    d.reasoning_effort matches Some(s) && s@ == t@
                },
                None => d.reasoning_effort is None,
            }
        },
        r matches Err(e) ==> e matches KeelError::Other(m) && m@ == clip_refusal(),
{
    match base_body(messages, model, max_tokens) {
        Ok(body) => Ok(DeepSeekBody { body, reasoning_effort: reasoning_effort(effort) }),
        Err(e) => Err(e),
    }
}

/// The local server's body: the base body with its thinking toggle (a request's grammar is
/// attached beside it).
#[derive(Clone, Debug)]
pub struct LocalBody {
    pub body: OaiBody,
    /// `chat_template_kwargs.enable_thinking`, when the effort sets it.
    pub enable_thinking: Option<bool>,
}

/// Build the local server's chat body.
pub fn local_body(messages: &Vec<Message>, model: &str, max_tokens: u32, effort: &Effort) -> (r: Result<
    LocalBody,
    KeelError,
>)
    ensures
        r is Ok <==> messages_ok(messages@),
        r matches Ok(l) ==> {
            &&& body_matches(l.body, messages@, model@, max_tokens)
            &&& match effort.thinking {
                Some(t) => l.enable_thinking == Some(!is_lean(t@)),
                None => l.enable_thinking is None,
            }
        },
        r matches Err(e) ==> e matches KeelError::Other(m) && m@ == clip_refusal(),
{
    match base_body(messages, model, max_tokens) {
        Ok(body) => Ok(LocalBody { body, enable_thinking: thinking_enabled(effort) }),
        Err(e) => Err(e),
    }
}

} // verus!

verus! {

// ---------------------------------------------------------------------------------------------
// Anthropic Messages bodies

/// An Anthropic image source: inline base64 (from a data-uri) or a web url.
#[derive(Clone, Debug)]
pub enum AnthImage {
    Base64 { media_type: String, data: String },
    Url { url: String },
}

/// One Anthropic content block.
#[derive(Clone, Debug)]
pub enum AnthBlock {
    Text { text: String },
    Image { image: AnthImage },
}

/// An Anthropic message's `content`: a bare string, or an array of blocks.
#[derive(Clone, Debug)]
pub enum AnthContent {
    Plain(String),
    Blocks(Vec<AnthBlock>),
}

/// One Anthropic message (`user` or `assistant`).
#[derive(Clone, Debug)]
pub struct AnthMessage {
    pub role: String,
    pub content: AnthContent,
}

/// An Anthropic Messages body: the system prompt is top-level, never a message.
#[derive(Clone, Debug)]
pub struct AnthBody {
    pub model: String,
    pub messages: Vec<AnthMessage>,
    pub system: Option<String>,
    /// `Some(budget)` enables extended thinking with that token budget.
    pub thinking_budget: Option<u32>,
    pub max_tokens: u32,
}

/// The refusal for a clip or audio part.
pub open spec fn anth_clip_refusal() -> Seq<char> {
    "anthropic: clip/audio must be pre-processed before cognition"@
}

/// The refusal for an image source that is neither a data-uri nor a web url.
pub open spec fn image_refusal() -> Seq<char> {
    "anthropic: image must be a data-uri or http(s) url"@
}

/// The media type of a data-uri's metadata: what precedes the first `;`.
pub open spec fn media_of(meta: Seq<char>) -> Seq<char> {
    match char_pos_from(meta, ';', 0) {
        Some(j) => meta.subrange(0, j),
        None => meta,
    }
}

/// A data-uri split into its media type and its payload (after the first comma).
pub open spec fn data_uri_split(src: Seq<char>) -> Option<(Seq<char>, Seq<char>)> {
    if starts_with(src, "data:"@) {
        let rest = src.subrange("data:"@.len() as int, src.len() as int);
        match char_pos_from(rest, ',', 0) {
            Some(k) => Some((media_of(rest.subrange(0, k)), rest.subrange(k + 1, rest.len() as int))),
            None => None,
        }
    } else {
        None
    }
}

/// Whether a source is a web url.
pub open spec fn is_web(src: Seq<char>) -> bool {
    starts_with(src, "http://"@) || starts_with(src, "https://"@)
}

/// Whether an image source can be sent to Anthropic.
pub open spec fn image_ok(src: Seq<char>) -> bool {
    data_uri_split(src) is Some || is_web(src)
}

/// The image block of a source: base64 for a data-uri, else the url itself.
pub open spec fn image_matches(img: AnthImage, src: Seq<char>) -> bool {
    match data_uri_split(src) {
        Some(p) => img matches AnthImage::Base64 { media_type, data } && media_type@ == p.0 && data@ == p.1,
        None => img matches AnthImage::Url { url } && url@ == src,
    }
}

fn starts_with_str(v: &Vec<char>, p: &str) -> (r: bool)
    ensures
        r == starts_with(v@, p@),
{
    let pv = chars_of(p);
    assert(v@.subrange(0, v@.len() as int) =~= v@);
    starts_with_at(v, 0, v.len(), &pv)
}

/// The Anthropic image block of an image source: a data-uri becomes an inline base64
/// block (its media type is the metadata before the first `;`), an http(s) url stays a url, and
/// anything else is refused.
pub fn image_block(source: &str) -> (r: Result<AnthImage, KeelError>)
    ensures
        r is Ok <==> image_ok(source@),
        r matches Ok(img) ==> image_matches(img, source@),
        r matches Err(e) ==> e matches KeelError::Other(m) && m@ == image_refusal(),
{
    let v = chars_of(source);
    let n = v.len();
    let pre = chars_of("data:");
    if starts_with_str(&v, "data:") {
        let lo = pre.len();
        let ghost rest = v@.subrange(lo as int, n as int);
        match char_pos_at(&v, lo, n, ',') {
            Some(k) => {
                proof {
                    lemma_char_pos_from_bounds(rest, ',', 0);
                }
                let ghost meta = v@.subrange(lo as int, k as int);
                assert(rest.subrange(0, k - lo) =~= meta);
                assert(rest.subrange(k - lo + 1, rest.len() as int) =~= v@.subrange(k + 1, n as int));
                let media = match char_pos_at(&v, lo, k, ';') {
                    Some(j) => {
                        proof {
                            lemma_char_pos_from_bounds(meta, ';', 0);
                        }
                        assert(meta.subrange(0, j - lo) =~= v@.subrange(lo as int, j as int));
                        string_at(&v, lo, j)
                    },
                    None => string_at(&v, lo, k),
                };
                return Ok(AnthImage::Base64 { media_type: media, data: string_at(&v, k + 1, n) });
            },
            None => {},
        }
    }
    if starts_with_str(&v, "http://") || starts_with_str(&v, "https://") {
        proof {
            reveal_strlit("data:");
            reveal_strlit("http://");
            reveal_strlit("https://");
        }
        assert(data_uri_split(source@) is None);
        return Ok(AnthImage::Url { url: String::from_str(source) });
    }
    Err(KeelError::Other(String::from_str("anthropic: image must be a data-uri or http(s) url")))
}

} // verus!

verus! {

/// The refusal a part draws from Anthropic, if any.
pub open spec fn block_err(c: Content) -> Option<Seq<char>> {
    match c {
        Content::Text { .. } => None,
        Content::Image { source } => if image_ok(source@) {
            None
        } else {
            Some(image_refusal())
        },
        _ => Some(anth_clip_refusal()),
    }
}

/// The first refusal among the parts, in order.
pub open spec fn first_block_err(parts: Seq<Content>) -> Option<Seq<char>>
    decreases parts.len(),
{
    if parts.len() == 0 {
        None
    } else {
        match first_block_err(parts.drop_last()) {
            Some(e) => Some(e),
            None => block_err(parts.last()),
        }
    }
}

/// The refusal a message's content draws: none for a single text part (sent as a bare string).
pub open spec fn anth_content_err(parts: Seq<Content>) -> Option<Seq<char>> {
    if parts.len() == 1 && parts[0] is Text {
        None
    } else {
        first_block_err(parts)
    }
}

/// A block carries its part.
pub open spec fn anth_block_matches(b: AnthBlock, c: Content) -> bool {
    match c {
        Content::Text { text } => b matches AnthBlock::Text { text: t } && t@ == text@,
        Content::Image { source } => b matches AnthBlock::Image { image } && image_matches(image, source@),
        _ => false,
    }
}

/// The Anthropic content of a part list: one text part is a bare string, else the blocks in order.
pub open spec fn anth_content_matches(out: AnthContent, parts: Seq<Content>) -> bool {
    if parts.len() == 1 && parts[0] is Text {
        out matches AnthContent::Plain(s) && parts[0] matches Content::Text { text } && s@ == text@
    } else {
        out matches AnthContent::Blocks(v) && v@.len() == parts.len() && forall|i: int|
            0 <= i < parts.len() ==> anth_block_matches(#[trigger] v@[i], parts[i])
    }
}

proof fn lemma_first_block_err_prefix(parts: Seq<Content>, k: int)
    requires
        0 <= k <= parts.len(),
        first_block_err(parts.take(k)) is Some,
    ensures
        first_block_err(parts) == first_block_err(parts.take(k)),
    decreases parts.len() - k,
{
    if k == parts.len() {
        assert(parts.take(k) =~= parts);
    } else {
        assert(parts.take(k + 1).drop_last() =~= parts.take(k));
        lemma_first_block_err_prefix(parts, k + 1);
    }
}

/// One Anthropic message: a single text part as a bare string, else content blocks; clip/audio
/// and unusable image sources are refused (the first refusal in order).
pub fn anthropic_message(role: &str, content: &Vec<Content>) -> (r: Result<AnthMessage, KeelError>)
    ensures
        match anth_content_err(content@) {
            Some(m) => r matches Err(e) && e matches KeelError::Other(s) && s@ == m,
            None => r matches Ok(am) && am.role@ == role@ && anth_content_matches(am.content, content@),
        },
{
    if content.len() == 1 {
        match &content[0] {
            Content::Text { text } => {
                return Ok(AnthMessage { role: String::from_str(role), content: AnthContent::Plain(text.clone()) });
            },
            _ => {},
        }
    }
    let mut blocks: Vec<AnthBlock> = Vec::new();
    let mut i: usize = 0;
    while i < content.len()
        invariant
            i <= content@.len(),
            !(content@.len() == 1 && content@[0] is Text),
            blocks@.len() == i,
            forall|j: int| 0 <= j < i ==> anth_block_matches(#[trigger] blocks@[j], content@[j]),
            first_block_err(content@.take(i as int)) is None,
        decreases content@.len() - i,
    {
        proof {
            assert(content@.take(i + 1).drop_last() =~= content@.take(i as int));
            assert(content@.take(i + 1).last() == content@[i as int]);
        }
        match &content[i] {
            Content::Text { text } => {
                blocks.push(AnthBlock::Text { text: text.clone() });
            },
            Content::Image { source } => {
                match image_block(source.as_str()) {
                    Ok(image) => {
                        blocks.push(AnthBlock::Image { image });
                    },
                    Err(e) => {
                        proof {
                            lemma_first_block_err_prefix(content@, i + 1);
                        }
                        return Err(e);
                    },
                }
            },
            _ => {
                proof {
                    lemma_first_block_err_prefix(content@, i + 1);
                }
                return Err(KeelError::Other(String::from_str("anthropic: clip/audio must be pre-processed before cognition")));
            },
        }
        i = i + 1;
    }
    assert(content@.take(content@.len() as int) =~= content@);
    Ok(AnthMessage { role: String::from_str(role), content: AnthContent::Blocks(blocks) })
}

} // verus!

verus! {

/// The system prompt hoisted out of a conversation: each system message's text parts joined by
/// newlines, appended in order with a newline between it and what came before (when that is
/// not empty).
pub open spec fn system_text(ms: Seq<Message>) -> Seq<char>
    decreases ms.len(),
{
    if ms.len() == 0 {
        seq![]
    } else {
        let acc = system_text(ms.drop_last());
        let m = ms.last();
        if m.role is System {
            let t = join(text_parts(m.content@), "\n"@);
            if acc.len() == 0 {
                t
            } else {
                acc + "\n"@ + t
            }
        } else {
            acc
        }
    }
}

/// The messages Anthropic sees as turns: every non-system message, in order.
pub open spec fn turns_of(ms: Seq<Message>) -> Seq<Message>
    decreases ms.len(),
{
    if ms.len() == 0 {
        seq![]
    } else if ms.last().role is System {
        turns_of(ms.drop_last())
    } else {
        turns_of(ms.drop_last()).push(ms.last())
    }
}

/// The Anthropic role of a turn: `assistant` for the assistant, `user` for the user and tools.
pub open spec fn anth_role(role: Role) -> Seq<char> {
    match role {
        Role::Assistant => "assistant"@,
        _ => "user"@,
    }
}

/// The first refusal among the turns of a conversation.
pub open spec fn first_msg_err(ms: Seq<Message>) -> Option<Seq<char>>
    decreases ms.len(),
{
    if ms.len() == 0 {
        None
    } else {
        match first_msg_err(ms.drop_last()) {
            Some(e) => Some(e),
            None => if ms.last().role is System {
                None
            } else {
                anth_content_err(ms.last().content@)
            },
        }
    }
}

/// The extended-thinking budget an effort asks of Anthropic.
pub open spec fn anth_budget(effort: Effort) -> Option<u32> {
    match effort.thinking {
        Some(t) => if t@ == "high"@ || t@ == "max"@ {
            Some(8192u32)
        } else {
            None
        },
        None => None,
    }
}

/// The token cap with thinking on: the configured cap, raised to the budget plus 4096 when lower.
pub open spec fn anth_max_tokens(max_tokens: u32, budget: Option<u32>) -> int {
    match budget {
        Some(b) => if max_tokens >= b + 4096 {
            max_tokens as int
        } else {
            b + 4096
        },
        None => max_tokens as int,
    }
}

proof fn lemma_first_msg_err_prefix(ms: Seq<Message>, k: int)
    requires
        0 <= k <= ms.len(),
        first_msg_err(ms.take(k)) is Some,
    ensures
        first_msg_err(ms) == first_msg_err(ms.take(k)),
    decreases ms.len() - k,
{
    if k == ms.len() {
        assert(ms.take(k) =~= ms);
    } else {
        assert(ms.take(k + 1).drop_last() =~= ms.take(k));
        lemma_first_msg_err_prefix(ms, k + 1);
    }
}

/// Build an Anthropic Messages body: system messages are hoisted into the top-level `system`
/// (absent when empty), the other turns become `user`/`assistant` messages, and a `high`/`max`
/// effort enables extended thinking with an 8192-token budget and a token cap above it.
pub fn anthropic_body(messages: &Vec<Message>, model: &str, max_tokens: u32, effort: &Effort) -> (r: Result<
    AnthBody,
    KeelError,
>)
    ensures
        match first_msg_err(messages@) {
            Some(m) => r matches Err(e) && e matches KeelError::Other(s) && s@ == m,
            None => r matches Ok(b) && {
                &&& b.model@ == model@
                &&& (system_text(messages@).len() == 0 ==> b.system is None)
                &&& (system_text(messages@).len() > 0 ==> (b.system matches Some(s) && s@ == system_text(messages@)))
                &&& b.messages@.len() == turns_of(messages@).len()
                &&& forall|i: int|
                    0 <= i < b.messages@.len() ==> {
                        &&& (#[trigger] b.messages@[i]).role@ == anth_role(turns_of(messages@)[i].role)
                        &&& anth_content_matches(b.messages@[i].content, turns_of(messages@)[i].content@)
                    }
                &&& b.thinking_budget == anth_budget(*effort)
                &&& b.max_tokens == anth_max_tokens(max_tokens, anth_budget(*effort))
            },
        },
{
    let mut system = String::new();
    let mut out: Vec<AnthMessage> = Vec::new();
    let mut i: usize = 0;
    while i < messages.len()
        invariant
            i <= messages@.len(),
            system@ == system_text(messages@.take(i as int)),
            first_msg_err(messages@.take(i as int)) is None,
            out@.len() == turns_of(messages@.take(i as int)).len(),
            forall|j: int|
                0 <= j < out@.len() ==> {
                    &&& (#[trigger] out@[j]).role@ == anth_role(turns_of(messages@.take(i as int))[j].role)
                    &&& anth_content_matches(out@[j].content, turns_of(messages@.take(i as int))[j].content@)
                },
        decreases messages@.len() - i,
    {
        let m = &messages[i];
        let ghost pre = messages@.take(i as int);
        proof {
            assert(messages@.take(i + 1).drop_last() =~= pre);
            assert(messages@.take(i + 1).last() == messages@[i as int]);
        }
        match m.role {
            Role::System => {
                let t = text_of(&m.content);
                let ghost acc = system@;
                let had = !system.as_str().is_empty();
                if had {
                    push_char(&mut system, '\n');
                }
                push_str(&mut system, t.as_str());
                proof {
                    let next = messages@.take(i + 1);
                    assert(system_text(next.drop_last()) == acc);
                    if had {
                        reveal_strlit("\n");
                        assert(system@ =~= acc + "\n"@ + t@);
                    } else {
                        assert(system@ =~= t@);
                    }
                }
            },
            _ => {
                let role = match m.role {
                    Role::Assistant => "assistant",
                    _ => "user",
                };
                match anthropic_message(role, &m.content) {
                    Ok(am) => {
                        let ghost before = out@;
                        out.push(am);
                        proof {
                            let ts = turns_of(messages@.take(i + 1));
                            assert(ts == turns_of(pre).push(messages@[i as int]));
                            assert forall|j: int| 0 <= j < out@.len() implies {
                                &&& (#[trigger] out@[j]).role@ == anth_role(ts[j].role)
                                &&& anth_content_matches(out@[j].content, ts[j].content@)
                            } by {
                                if j < before.len() {
                                    assert(out@[j] == before[j]);
                                }
                            }
                        }
                    },
                    Err(e) => {
                        proof {
                            lemma_first_msg_err_prefix(messages@, i + 1);
                        }
                        return Err(e);
                    },
                }
            },
        }
        i = i + 1;
    }
    assert(messages@.take(messages@.len() as int) =~= messages@);
    let budget = thinking_budget(effort);
    let cap = match budget {
        Some(b) => if max_tokens >= b + 4096 {
            max_tokens
        } else {
            b + 4096
        },
        None => max_tokens,
    };
    let sys = if system.as_str().is_empty() {
        None
    } else {
        Some(system)
    };
    Ok(AnthBody { model: String::from_str(model), messages: out, system: sys, thinking_budget: budget, max_tokens: cap })
}

} // verus!

verus! {

// ---------------------------------------------------------------------------------------------
// Anthropic replies

/// One content block of an Anthropic reply, with the fields the reading keeps (a tool call's
/// `input` is carried as its JSON text).
#[derive(Clone, Debug)]
pub enum AnthReplyBlock {
    Text { text: Option<String> },
    Thinking { thinking: Option<String> },
    ToolUse { id: Option<String>, name: Option<String>, input: Option<String> },
    /// A block of another type, which the reading skips.
    Other,
}

/// An Anthropic reply's token usage.
#[derive(Clone, Debug)]
pub struct AnthUsage {
    pub input_tokens: u64,
    pub output_tokens: u64,
    pub cache_read_input_tokens: u64,
}

/// The text of an optional string, empty when absent.
pub open spec fn opt_text(o: Option<String>) -> Seq<char> {
    match o {
        Some(s) => s@,
        None => seq![],
    }
}

/// The reply text: the text blocks' texts concatenated in order.
pub open spec fn said(blocks: Seq<AnthReplyBlock>) -> Seq<char>
    decreases blocks.len(),
{
    if blocks.len() == 0 {
        seq![]
    } else {
        match blocks.last() {
            AnthReplyBlock::Text { text } => said(blocks.drop_last()) + opt_text(text),
            _ => said(blocks.drop_last()),
        }
    }
}

/// The reasoning: the thinking blocks' texts concatenated in order.
pub open spec fn thought(blocks: Seq<AnthReplyBlock>) -> Seq<char>
    decreases blocks.len(),
{
    if blocks.len() == 0 {
        seq![]
    } else {
        match blocks.last() {
            AnthReplyBlock::Thinking { thinking } => thought(blocks.drop_last()) + opt_text(thinking),
            _ => thought(blocks.drop_last()),
        }
    }
}

/// The tool-use blocks, in order.
pub open spec fn tool_uses(blocks: Seq<AnthReplyBlock>) -> Seq<AnthReplyBlock>
    decreases blocks.len(),
{
    if blocks.len() == 0 {
        seq![]
    } else if blocks.last() is ToolUse {
        tool_uses(blocks.drop_last()).push(blocks.last())
    } else {
        tool_uses(blocks.drop_last())
    }
}

/// A tool call read from a tool-use block: absent fields read as empty, the kind is `function`.
pub open spec fn use_matches(c: ToolCall, b: AnthReplyBlock) -> bool {
    b matches AnthReplyBlock::ToolUse { id, name, input } && c.id@ == opt_text(id) && c.kind@ == "function"@
        && c.name@ == opt_text(name) && c.arguments@ == opt_text(input)
}

fn push_opt(s: &mut String, o: &Option<String>)
    ensures
        final(s)@ == old(s)@ + opt_text(*o),
{
    match o {
        Some(t) => push_str(s, t.as_str()),
        None => {
            assert(old(s)@ + seq![] =~= old(s)@);
        },
    }
}

fn opt_string(o: &Option<String>) -> (r: String)
    ensures
        r@ == opt_text(*o),
{
    match o {
        Some(t) => t.clone(),
        None => String::new(),
    }
}

/// Read an Anthropic reply: the text blocks make the content, the thinking blocks the reasoning
/// (absent when empty), the tool-use blocks the tool calls; cache reads count as cache hits.
pub fn anthropic_reply(blocks: &Vec<AnthReplyBlock>, usage: &AnthUsage) -> (r: Reply)
    ensures
        r.content@ == said(blocks@),
        thought(blocks@).len() == 0 ==> r.reasoning_content is None,
        thought(blocks@).len() > 0 ==> (r.reasoning_content matches Some(s) && s@ == thought(blocks@)),
        r.tool_calls@.len() == tool_uses(blocks@).len(),
        forall|i: int| 0 <= i < r.tool_calls@.len() ==> use_matches(#[trigger] r.tool_calls@[i], tool_uses(blocks@)[i]),
        r.usage.input_tokens == usage.input_tokens,
        r.usage.output_tokens == usage.output_tokens,
        r.usage.cache_hit_tokens == usage.cache_read_input_tokens,
{
    let mut content = String::new();
    let mut reasoning = String::new();
    let mut calls: Vec<ToolCall> = Vec::new();
    let mut i: usize = 0;
    while i < blocks.len()
        invariant
            i <= blocks@.len(),
            content@ == said(blocks@.take(i as int)),
            reasoning@ == thought(blocks@.take(i as int)),
            calls@.len() == tool_uses(blocks@.take(i as int)).len(),
            forall|j: int| 0 <= j < calls@.len() ==> use_matches(#[trigger] calls@[j], tool_uses(blocks@.take(i as int))[j]),
        decreases blocks@.len() - i,
    {
        let ghost pre = blocks@.take(i as int);
        proof {
            assert(blocks@.take(i + 1).drop_last() =~= pre);
            assert(blocks@.take(i + 1).last() == blocks@[i as int]);
        }
        match &blocks[i] {
            AnthReplyBlock::Text { text } => {
                push_opt(&mut content, text);
            },
            AnthReplyBlock::Thinking { thinking } => {
                push_opt(&mut reasoning, thinking);
            },
            AnthReplyBlock::ToolUse { id, name, input } => {
                let ghost before = calls@;
                calls.push(
                    ToolCall {
                        id: opt_string(id),
                        kind: String::from_str("function"),
                        name: opt_string(name),
                        arguments: opt_string(input),
                    },
                );
                proof {
                    let us = tool_uses(blocks@.take(i + 1));
                    assert(us == tool_uses(pre).push(blocks@[i as int]));
                    assert forall|j: int| 0 <= j < calls@.len() implies use_matches(#[trigger] calls@[j], us[j]) by {
                        if j < before.len() {
                            assert(calls@[j] == before[j]);
                        }
                    }
                }
            },
            AnthReplyBlock::Other => {},
        }
        i = i + 1;
    }
    assert(blocks@.take(blocks@.len() as int) =~= blocks@);
    let reasoning_content = if reasoning.as_str().is_empty() {
        None
    } else {
        Some(reasoning)
    };
    Reply {
        content,
        tool_calls: calls,
        reasoning_content,
        usage: Usage {
            input_tokens: usage.input_tokens,
            output_tokens: usage.output_tokens,
            cache_hit_tokens: usage.cache_read_input_tokens,
        },
    }
}

/// The model a reply names, or the configured model when the reply names none.
pub fn reply_model(named: &str, configured: &str) -> (r: String)
    ensures
        r@ == if named@.len() == 0 { configured@ } else { named@ },
{
    if named.is_empty() {
        String::from_str(configured)
    } else {
        String::from_str(named)
    }
}

} // verus!
