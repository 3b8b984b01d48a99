//! Incremental, resumable conversion of a multi-page document into one raster
//! image per page: resume detection, adaptive batch planning, retried batch
//! execution, progress estimation, cooperative cancellation and reconciliation.
//!
//! The library computes and decides over plain values. Reading and writing files,
//! running the rasterizer and publishing events is left to the caller, which
//! drives a run step by step. Parsing the document (lopdf), the host's processor
//! and memory figures (sys-info), parallel sorting (rayon) and reading the
//! filename generator's reply (regex) are reached through small wrappers whose
//! contracts say what is relied on.

pub mod document;
pub mod text;
pub mod inventory;
pub mod planner;
pub mod progress;
pub mod reconcile;
pub mod run;
pub mod rasterizer;
pub mod preprocess;
pub mod workflows;
pub mod responses;
