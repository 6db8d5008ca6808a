//! jevx: local logic of a Skill-suggestion, review and hook-observation helper for Codex.
//!
//! The library holds the deterministic parts of the tool: secret redaction, local ranking,
//! routing rules, decision-contract validation, review gating, hook-record analysis and the
//! hook de-duplication state. Every function here is verified with Verus, except the few
//! small wrappers marked `external_body` that call std or the SHA-256 crate; their contracts
//! are stated in their doc comments.

pub mod answer_cache;
pub mod compact_assist;
pub mod config;
pub mod cost;
pub mod data;
pub mod decision;
pub mod digest;
pub mod discovery;
pub mod error;
pub mod hook_config;
pub mod hook_dedupe;
pub mod hook_edit;
pub mod hooks;
pub mod evaluation;
pub mod telemetry;
pub mod text;
pub mod path;
pub mod ranking;
pub mod recorder;
pub mod redaction;
pub mod redaction_law;
pub mod replay;
pub mod retry;
pub mod review;
pub mod route;
pub mod stats;
pub mod types;
