//! A task-graph orchestration core for a variable-font compiler.
//!
//! Units of work are named by [`ident::AnyWorkId`], declare what they may
//! read through [`access::Access`], communicate through the write-once
//! [`context::Context`], and are driven to completion by
//! [`workload::Workload`]. Incremental runs are planned by [`change`], and
//! per-task timing is collected by [`timer`]. The gvar table assembly in
//! [`gvar`] is the resident consumer of the engine.

pub mod ident;
pub mod access;
pub mod error;
pub mod context;
pub mod work;
pub mod fragment;
pub mod gvar;
pub mod workload;
pub mod change;
pub mod timer;
pub mod laws;
