//! The core data types every layer is built against: messages and multimodal content, the
//! routing primitives, decisions, verdicts, perception and memory budgets, and the `Step`.
//!
//! Money (costs, prices, budgets) and confidence scores are floating-point quantities and are
//! carried beside these types by the wiring layer; the types here hold what the verified policies
//! read.

use vstd::prelude::*;

verus! {

/// The speaker of a message.
#[derive(Clone, Copy, Debug, PartialEq, Eq, Structural)]
pub enum Role {
    System,
    User,
    Assistant,
    Tool,
}

/// A message part. Raw `Image`/`Clip`/`Audio` are sovereign by default and force the local tier.
#[derive(Clone, Debug)]
pub enum Content {
    Text { text: String },
    /// A path or data-uri.
    Image { source: String },
    /// A video reference plus a frame spec.
    Clip { video: String, frames: String },
    Audio { source: String },
}

/// One message of a conversation.
#[derive(Clone, Debug)]
pub struct Message {
    pub role: Role,
    pub content: Vec<Content>,
    pub name: Option<String>,
    /// Replayed across tool turns for providers that require it.
    pub reasoning_content: Option<String>,
    pub tool_call_id: Option<String>,
}

/// How much reasoning a step demands.
#[derive(Clone, Copy, Debug, PartialEq, Eq, Structural)]
pub enum Kind {
    Scaffolding,
    CoreWire,
}

/// Trust as a routable quantity, ordered Low < Normal < High < Critical.
#[derive(Clone, Copy, Debug, PartialEq, Eq, PartialOrd, Ord, Structural)]
pub enum Trust {
    Low,
    Normal,
    High,
    Critical,
}

/// How sensitive a step's data is.
#[derive(Clone, Copy, Debug, PartialEq, Eq, Structural)]
pub enum DataClass {
    Normal,
    Sovereign,
    Phi,
}

/// The amplification dial: best-of-N width times thinking depth ("low" | "high" | "max").
#[derive(Clone, Debug)]
pub struct Effort {
    pub n: u32,
    pub thinking: Option<String>,
}

impl Default for Effort {
    fn default() -> (r: Self)
        ensures
            r.n == 1,
            r.thinking is None,
    {
        Effort { n: 1, thinking: None }
    }
}

/// Token usage of one generation.
#[derive(Clone, Copy, Debug)]
pub struct Usage {
    pub input_tokens: u64,
    pub output_tokens: u64,
    /// Prompt tokens served from the provider's cache.
    pub cache_hit_tokens: u64,
}

impl Default for Usage {
    fn default() -> (r: Self)
        ensures
            r.input_tokens == 0,
            r.output_tokens == 0,
            r.cache_hit_tokens == 0,
    {
        Usage { input_tokens: 0, output_tokens: 0, cache_hit_tokens: 0 }
    }
}

/// What a tier can do; the router and egress filter read this.
#[derive(Clone, Copy, Debug)]
pub struct Capabilities {
    pub vision: bool,
    pub video: bool,
    pub thinking: bool,
}

impl Default for Capabilities {
    fn default() -> (r: Self)
        ensures
            !r.vision,
            !r.video,
            !r.thinking,
    {
        Capabilities { vision: false, video: false, thinking: false }
    }
}

/// A tool call as the provider returns it.
#[derive(Clone, Debug)]
pub struct ToolCall {
    pub id: String,
    /// "function".
    pub kind: String,
    pub name: String,
    /// A JSON string, as the provider returns it.
    pub arguments: String,
}

/// The result of running a tool.
#[derive(Clone, Debug)]
pub struct ToolResult {
    pub content: String,
    pub is_error: bool,
}

/// The router's choice for a step: a tier name, or "BLOCK".
#[derive(Clone, Debug)]
pub struct Decision {
    pub tier: String,
    pub effort: Effort,
    pub reason: String,
}

/// A non-model assertion carried on a verdict.
#[derive(Clone, Debug)]
pub struct Assertion {
    pub kind: String,
    pub detail: String,
}

/// An oracle's judgement of one output.
#[derive(Clone, Debug)]
pub struct Verdict {
    pub passed: bool,
    pub failures: Vec<String>,
    pub joint_wrong: bool,
    pub evidence: Vec<Assertion>,
}

impl Default for Verdict {
    fn default() -> (r: Self)
        ensures
            !r.passed,
            !r.joint_wrong,
            r.failures@.len() == 0,
            r.evidence@.len() == 0,
    {
        Verdict { passed: false, failures: Vec::new(), joint_wrong: false, evidence: Vec::new() }
    }
}

/// The modality of a percept.
#[derive(Clone, Copy, Debug, PartialEq, Eq, Structural)]
pub enum Modality {
    Text,
    Image,
    Audio,
}

/// How a perception source samples.
#[derive(Clone, Debug)]
pub struct SampleSpec {
    /// Pre-resize cap for any frame handed onward.
    pub max_px: Option<u32>,
    /// Live capture cadence.
    pub interval_ms: Option<u64>,
}

impl Default for SampleSpec {
    fn default() -> (r: Self)
        ensures
            r.max_px is None,
            r.interval_ms is None,
    {
        SampleSpec { max_px: None, interval_ms: None }
    }
}

/// The per-ring context budget, in tokens (0 on a ring means uncapped).
#[derive(Clone, Copy, Debug)]
pub struct TokenBudget {
    pub total: u32,
    pub ring0: u32,
    pub ring1: u32,
    pub ring2: u32,
    pub ring2_max: u32,
    pub ring3: u32,
    pub ring4: u32,
    pub generation_reserve: u32,
}

impl Default for TokenBudget {
    fn default() -> (r: Self)
        ensures
            r.total == 0 && r.ring0 == 0 && r.ring1 == 0 && r.ring2 == 0,
            r.ring2_max == 0 && r.ring3 == 0 && r.ring4 == 0 && r.generation_reserve == 0,
    {
        TokenBudget {
            total: 0,
            ring0: 0,
            ring1: 0,
            ring2: 0,
            ring2_max: 0,
            ring3: 0,
            ring4: 0,
            generation_reserve: 0,
        }
    }
}

/// The assembled ringed context: Ring 0 soul, Ring 1 exemplars, Ring 2 working memory,
/// Ring 3 compressed history, Ring 4 retrieved.
#[derive(Clone, Debug)]
pub struct AssembledContext {
    pub system: String,
    pub exemplars: Vec<Message>,
    pub history: String,
    pub retrieved: Vec<String>,
    pub conversation: Vec<Message>,
    pub budget: TokenBudget,
}

impl Default for AssembledContext {
    fn default() -> (r: Self)
        ensures
            r.system@.len() == 0,
            r.exemplars@.len() == 0,
            r.history@.len() == 0,
            r.retrieved@.len() == 0,
            r.conversation@.len() == 0,
            r.budget.total == 0 && r.budget.ring0 == 0 && r.budget.ring1 == 0,
            r.budget.ring2 == 0 && r.budget.ring2_max == 0 && r.budget.ring3 == 0,
            r.budget.ring4 == 0 && r.budget.generation_reserve == 0,
    {
        AssembledContext {
            system: String::new(),
            exemplars: Vec::new(),
            history: String::new(),
            retrieved: Vec::new(),
            conversation: Vec::new(),
            budget: TokenBudget::default(),
        }
    }
}

/// The atomic unit of routed work. Its projected cost, a money amount, travels beside it.
#[derive(Clone, Debug)]
pub struct Step {
    pub kind: Kind,
    /// e.g. "tool_call:read_file", "reason:multi_constraint", "see", "hear".
    pub ty: String,
    pub trust_required: Trust,
    pub data_class: DataClass,
    pub tier_history: Vec<String>,
    pub oracle_failures: u32,
    pub critical: bool,
    /// Which driver emitted it.
    pub source: Option<String>,
    pub content: Vec<Content>,
    pub golden_refs: Vec<String>,
}

/// The default trust a step requires when none is given.
pub fn default_trust() -> (r: Trust)
    ensures
        r == Trust::Normal,
{
    Trust::Normal
}

/// The default data class of a step when none is given.
pub fn default_data_class() -> (r: DataClass)
    ensures
        r == DataClass::Normal,
{
    DataClass::Normal
}

} // verus!
