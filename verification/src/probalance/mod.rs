//! Dynamic optimization engine (ProBalance): contention detection ->
//! background downgrade -> automatic restore.
//!
//! - [`engine`]: the pure decision state machine.
//! - [`config`]: the configuration model and its validation.
//! - [`journal`]: action log entries, statistics and orphan pairing.
//! - [`runtime`]: the decisions of the service-side orchestration
//!   (what to write, what to log) around the engine.

pub mod config;
pub mod engine;
pub mod journal;
pub mod runtime;

pub use config::{ProBalanceConfig, PB_CONFIG_VERSION};
pub use engine::{Decision, ProBalanceEngine, RestoreReason, TickInput, DOWNGRADE_IO_PRIORITY, DOWNGRADE_PRIORITY_CLASS};
pub use journal::{PbLogEntry, PbStatistics, PbStatus, PB_LOG_ROTATE_BYTES};
pub use runtime::ProBalanceRuntime;
