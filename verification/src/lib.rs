//! Inference-time scaling gateway logic: answer voting, response
//! de-duplication, a time-aware response cache, step-wise generation
//! bookkeeping, error classification and request validation.

pub mod text;
pub mod voting;
pub mod cache;
pub mod errors;
pub mod json;
pub mod messages;

pub mod step_generation;
pub mod best_of_n;
pub mod pattern;
pub mod planning;
pub mod client;
pub mod providers;
pub mod canonical;
pub mod responses;
pub mod self_consistency;
pub mod gateway;
pub mod configuration;
pub mod judge;
pub mod api;
pub mod prompts;
pub mod search;
pub mod orchestrator;
pub mod reward;
