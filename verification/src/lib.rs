//! KEEL — the persistent substrate's verified core: the error taxonomy, the core data types,
//! and the deterministic policies (routing, privacy masking, perception gating, memory
//! maintenance) that every turn runs through.

pub mod adapters;
pub mod amplify;
pub mod cli;
pub mod consolidation;
pub mod distill;
pub mod context;
pub mod drivers;
pub mod engine;
pub mod episodes;
pub mod errors;
pub mod types;
pub mod upkeep;
pub mod wire;
pub mod oracles;
pub mod lifecycle;
pub mod maintenance;
pub mod manifest;
pub mod memory;
pub mod perception;
pub mod privacy;
pub mod privacy_model;
pub mod recall;
pub mod prompts;
pub mod router;
pub mod serve;
pub mod store;
pub mod text;
