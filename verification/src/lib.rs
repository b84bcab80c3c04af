//! Office network monitor: the verified core of a three-channel tray monitor.
//!
//! The library holds the logic of the monitor: its small JSON reader and
//! writer, the configuration model, the decision rules of each channel, the
//! report formatters and the read-only status endpoint. Everything that talks
//! to the operating system lives in the application around it.

pub mod config;
pub mod json;
pub mod json_parse;
pub mod json_write;
pub mod level;
pub mod net;
pub mod number;
pub mod text;
pub mod probe;
pub mod process;
pub mod monitor;
pub mod report;
pub mod bridge;
pub mod tray;
pub mod panel;
pub mod gdiplus;
pub mod clock;
pub mod schedule;
pub mod laws;
pub mod roundtrip;
pub mod saving;
pub mod grading;
