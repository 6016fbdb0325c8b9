//! Core of the CPU manager: the affinity rule model and its validation,
//! process matching, hex mask handling, the rule application plan, the
//! privileged bridge protocol and the ProBalance decision engine.
//!
//! Everything here is computation on plain values; the Win32 calls, the
//! file system and the service plumbing live in the application around it.

pub mod commands;
pub mod engine;
pub mod ipc;
pub mod matcher;
pub mod metrics;
pub mod monitor;
pub mod procwin;
pub mod probalance;
pub mod rule;
mod seqs;
pub mod service;
pub mod store;
pub mod text;
pub mod topology;
