//! A verified core for an agent that changes the wall-clock time one process
//! observes.
//!
//! The agent replaces the host's "current system time" query. On every call it
//! takes in what the controller sent over the control channel, then reports a
//! timestamp chosen by the current [`TimeConfig`]: frozen at an instant, moving
//! forward from an instant at the rate of the real clock, or the real clock
//! itself.
//!
//! Timestamps are counts of 100-nanosecond ticks since 1601-01-01 00:00 UTC,
//! held in a `u64` that is allowed to wrap.

pub mod bootstrap;
pub mod channel;
pub mod clock;
pub mod error;
pub mod filetime;
pub mod hook;
pub mod policy;
pub mod wire;

pub use bootstrap::{BootStep, Bootstrap};
pub use channel::{ControlChannel, PollEvent, PollReport};
pub use clock::get_real_time_stamp;
pub use error::HookError;
pub use filetime::FileTime;
pub use hook::{get_system_time_as_file_time_hook, Agent, Interception};
pub use policy::TimeConfig;
pub use wire::{ControlMessage, Scan};
