//! Phlow: a declarative flow engine.
//!
//! A structured document describes a directed graph of conditional steps.
//! The library normalizes the nested step tree into a flat, index-addressed
//! pipeline table, compiles each step, and runs pipelines against a
//! per-request context, delegating side-effectful work to modules that
//! communicate over typed channels.

pub mod value;
pub mod context;
pub mod transform;
pub mod step;
pub mod logmod;
pub mod loader;
pub mod host;
pub mod eval;
pub mod executor;
pub mod yaml;
pub mod json;
