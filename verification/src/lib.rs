//! kiln: hermetic, content-addressed, parallel task execution — the
//! verified core. Pipelines of targets, their validation, the wave
//! planner, content hashes and cache keys, cache bookkeeping, and the
//! decision logic of the execution engine.

pub mod builder;
pub mod cache;
pub mod cache_error;
pub mod cli;
pub mod dag;
pub mod error;
pub mod exec_error;
pub mod executor;
pub mod fetch;
pub mod graph;
pub mod hash;
pub mod json;
pub mod plan_laws;
pub mod planner;
pub mod resource;
pub mod text;
pub mod types;
pub mod validator;
pub mod sandbox;
pub mod shell_backend;
pub mod split;
pub mod sys;
pub mod target;
