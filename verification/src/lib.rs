//! Runtime services for a small interactive system: a callback registry with
//! fail-fast locking, a named object store with guarded exclusive access and a
//! panic-time recovery path, a line-oriented command shell, a bitmask-driven
//! self-test harness, a first-fit heap with free-space accounting, per-module
//! logger metadata, and tick-based time keeping.
//!
//! Hardware targets supply the actual peripherals; this crate holds every
//! decision the runtime makes, so each one is stated and proved here.

pub mod callback;
pub mod cmd;
pub mod harness;
pub mod heap;
pub mod log;
pub mod object;
pub mod pin;
pub mod pulse;
pub mod runtime;
pub mod selftest;
pub mod shell;
pub mod spi;
pub mod text;
pub mod time;
pub mod tty;
