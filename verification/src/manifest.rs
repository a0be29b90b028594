//! The operator's manifest sections that the verified core reads: local servers and model files,
//! the substrate models, the memory autopilot (recall, ring budgets, maintenance cadence), and the
//! router policy, each with its genome defaults. Parsing the YAML is the wiring layer's; the
//! typed values and the decisions over them stand here.

use vstd::prelude::*;
use crate::maintenance::MaintenancePolicy;
use crate::types::TokenBudget;

verus! {

/// llama.cpp install and server executable.
#[derive(Clone, Debug)]
pub struct LlamaCppCfg {
    pub path: String,
    /// Server executable name under `path`.
    pub exe: String,
    /// Endpoint of an already-running server.
    pub endpoint: Option<String>,
}

impl Default for LlamaCppCfg {
    fn default() -> (r: Self)
        ensures
            r.path@.len() == 0 && r.exe@.len() == 0 && r.endpoint is None,
    {
        LlamaCppCfg { path: String::new(), exe: String::new(), endpoint: None }
    }
}

/// Local inference servers and the model directory.
#[derive(Clone, Debug)]
pub struct ServersCfg {
    pub llama_cpp: LlamaCppCfg,
    /// Directory holding the model files.
    pub models_dir: String,
}

impl Default for ServersCfg {
    fn default() -> (r: Self)
        ensures
            r.llama_cpp.path@.len() == 0 && r.llama_cpp.exe@.len() == 0 && r.llama_cpp.endpoint is None,
            r.models_dir@.len() == 0,
    {
        ServersCfg { llama_cpp: LlamaCppCfg::default(), models_dir: String::new() }
    }
}

/// The local vision model: its logical id and its on-disk file names under the models directory.
#[derive(Clone, Debug)]
pub struct LlmVisionCfg {
    pub id: String,
    pub file: String,
    pub mmproj_file: String,
}

impl Default for LlmVisionCfg {
    fn default() -> (r: Self)
        ensures
            r.id@.len() == 0 && r.file@.len() == 0 && r.mmproj_file@.len() == 0,
    {
        LlmVisionCfg { id: String::new(), file: String::new(), mmproj_file: String::new() }
    }
}

/// The embedding organ: `id` and `dim` form the index fingerprint, `file` is its model file and
/// `port` its own server's port.
#[derive(Clone, Debug)]
pub struct EmbeddingCfg {
    pub id: String,
    pub file: String,
    pub dim: usize,
    pub port: u16,
}

/// The default embedding dimension.
pub fn default_embed_dim() -> (r: usize)
    ensures
        r == 1024,
{
    1024
}

/// The default embed server port.
pub fn default_embed_port() -> (r: u16)
    ensures
        r == 8090,
{
    8090
}

impl Default for EmbeddingCfg {
    fn default() -> (r: Self)
        ensures
            r.id@.len() == 0 && r.file@.len() == 0 && r.dim == 1024 && r.port == 8090,
    {
        EmbeddingCfg { id: String::new(), file: String::new(), dim: default_embed_dim(), port: default_embed_port() }
    }
}

/// Resolved substrate models.
#[derive(Clone, Debug)]
pub struct SubstrateCfg {
    pub llm_vision: LlmVisionCfg,
    pub embedding: EmbeddingCfg,
}

impl Default for SubstrateCfg {
    fn default() -> (r: Self)
        ensures
            r.llm_vision.id@.len() == 0 && r.llm_vision.file@.len() == 0 && r.llm_vision.mmproj_file@.len() == 0,
            r.embedding.id@.len() == 0 && r.embedding.file@.len() == 0,
            r.embedding.dim == 1024 && r.embedding.port == 8090,
    {
        SubstrateCfg { llm_vision: LlmVisionCfg::default(), embedding: EmbeddingCfg::default() }
    }
}

/// Per-ring token budgets (0 = uncapped; Ring 0 is never trimmed regardless).
#[derive(Clone, Copy, Debug)]
pub struct MemBudgetCfg {
    pub ring1: u32,
    pub ring2: u32,
    pub ring3: u32,
    pub ring4: u32,
}

/// The default ring-1 (exemplars) budget in tokens.
pub fn default_ring1() -> (r: u32)
    ensures
        r == 1000,
{
    1000
}

/// The default ring-2 (working turns) budget in tokens.
pub fn default_ring2() -> (r: u32)
    ensures
        r == 2000,
{
    2000
}

/// The default ring-3 (narrative) budget in tokens.
pub fn default_ring3() -> (r: u32)
    ensures
        r == 1000,
{
    1000
}

/// The default ring-4 (recall) budget in tokens.
pub fn default_ring4() -> (r: u32)
    ensures
        r == 1000,
{
    1000
}

impl Default for MemBudgetCfg {
    fn default() -> (r: Self)
        ensures
            r.ring1 == 1000 && r.ring2 == 2000 && r.ring3 == 1000 && r.ring4 == 1000,
    {
        MemBudgetCfg { ring1: default_ring1(), ring2: default_ring2(), ring3: default_ring3(), ring4: default_ring4() }
    }
}

impl MemBudgetCfg {
    /// The token budget these rings declare; every other field is zero.
    pub fn to_budget(self) -> (r: TokenBudget)
        ensures
            r.ring1 == self.ring1 && r.ring2 == self.ring2 && r.ring3 == self.ring3 && r.ring4 == self.ring4,
            r.total == 0 && r.ring0 == 0 && r.ring2_max == 0 && r.generation_reserve == 0,
    {
        TokenBudget {
            total: 0,
            ring0: 0,
            ring1: self.ring1,
            ring2: self.ring2,
            ring2_max: 0,
            ring3: self.ring3,
            ring4: self.ring4,
            generation_reserve: 0,
        }
    }
}

/// The memory autopilot: self-managing with zero flags.
#[derive(Clone, Debug)]
pub struct MemoryCfg {
    /// Ring-4 semantic recall, wired only when the embed substrate resolves.
    pub recall: bool,
    /// How many recalled entries Ring 4 injects per turn.
    pub recall_k: usize,
    /// The bounded recent-turn vector-scan window.
    pub recall_window: usize,
    /// Cold-start backfill: how many recent Tape turns to embed when the sidecar is absent.
    pub backfill: usize,
    /// Ring-2 working window (turns read back from the Tape).
    pub working_turns: usize,
    pub budget: MemBudgetCfg,
    /// Consolidate after this many new turns.
    pub consolidate_every_turns: usize,
    /// Consolidate at session end only if at least this many new turns accumulated.
    pub session_end_min_turns: usize,
    /// Run cold-eyes every N consolidations (0 = never).
    pub cold_eyes_every: usize,
}

impl Default for MemoryCfg {
    fn default() -> (r: Self)
        ensures
            r.recall && r.recall_k == 3 && r.recall_window == 4096 && r.backfill == 32,
            r.working_turns == 6,
            r.budget.ring1 == 1000 && r.budget.ring2 == 2000 && r.budget.ring3 == 1000 && r.budget.ring4 == 1000,
            r.consolidate_every_turns == 24 && r.session_end_min_turns == 4 && r.cold_eyes_every == 4,
    {
        MemoryCfg {
            recall: true,
            recall_k: 3,
            recall_window: 4096,
            backfill: 32,
            working_turns: 6,
            budget: MemBudgetCfg::default(),
            consolidate_every_turns: 24,
            session_end_min_turns: 4,
            cold_eyes_every: 4,
        }
    }
}

impl MemoryCfg {
    /// The maintenance policy this section configures.
    pub fn policy(&self) -> (p: MaintenancePolicy)
        ensures
            p.consolidate_every_turns == self.consolidate_every_turns,
            p.session_end_min_turns == self.session_end_min_turns,
            p.cold_eyes_every == self.cold_eyes_every,
    {
        MaintenancePolicy {
            consolidate_every_turns: self.consolidate_every_turns,
            session_end_min_turns: self.session_end_min_turns,
            cold_eyes_every: self.cold_eyes_every,
        }
    }
}

/// Router policy. Every fallback defaults to the sovereign-first local tier.
#[derive(Clone, Debug)]
pub struct RouterCfg {
    pub default_tier: String,
    /// Sovereign / PHI data forces this tier.
    pub sovereign_forces: String,
    /// Raw frames / audio force this tier.
    pub perception_forces: String,
    /// Escalate one tier after this many oracle failures.
    pub escalate_after_oracle_failures: u32,
}

impl Default for RouterCfg {
    fn default() -> (r: Self)
        ensures
            r.default_tier@ == "local"@ && r.sovereign_forces@ == "local"@ && r.perception_forces@ == "local"@,
            r.escalate_after_oracle_failures == 2,
    {
        RouterCfg {
            default_tier: String::from_str("local"),
            sovereign_forces: String::from_str("local"),
            perception_forces: String::from_str("local"),
            escalate_after_oracle_failures: 2,
        }
    }
}

/// The path `std::path::Path::join` gives for a directory and a file name (the OS separator
/// between them; an absolute name replaces the directory).
pub uninterp spec fn path_join(dir: Seq<char>, name: Seq<char>) -> Seq<char>;

/// Trusted: `std::path::Path::join` on text, rendered back to text (lossless for UTF-8 input).
/// The joined path is named, not restated.
#[verifier::external_body]
fn join_os(dir: &str, name: &str) -> (r: String)
    ensures
        r@ == path_join(dir@, name@),
{
    std::path::Path::new(dir).join(name).to_string_lossy().into_owned()
}

/// Join a directory and a file name with the OS separator.
pub fn join_path(dir: &str, name: &str) -> (r: String)
    ensures
        r@ == path_join(dir@, name@),
{
    join_os(dir, name)
}

/// The path of a configured file under a configured directory, or `None` when either is empty
/// (never a guessed path).
pub fn configured_path(dir: &str, file: &str) -> (r: Option<String>)
    ensures
        dir@.len() > 0 && file@.len() > 0 ==> (r matches Some(p) && p@ == path_join(dir@, file@)),
        !(dir@.len() > 0 && file@.len() > 0) ==> r is None,
{
    if !dir.is_empty() && !file.is_empty() {
        Some(join_path(dir, file))
    } else {
        None
    }
}

impl LlamaCppCfg {
    /// The llama-server executable path (`path` + `exe`), or `None` when either is unconfigured.
    pub fn exe_path(&self) -> (r: Option<String>)
        ensures
            self.path@.len() > 0 && self.exe@.len() > 0 ==> (r matches Some(p) && p@ == path_join(
                self.path@,
                self.exe@,
            )),
            !(self.path@.len() > 0 && self.exe@.len() > 0) ==> r is None,
    {
        configured_path(self.path.as_str(), self.exe.as_str())
    }
}

} // verus!
