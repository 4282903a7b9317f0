//! Verified core of a driver for a serial-attached mouse-control device:
//! button-state masks, the text command protocol, the framing of commands on
//! the wire, the splitting of the incoming byte stream into lines, and the
//! routing of replies to the commands that wait for them.

pub mod buttons;
pub mod decimal;
pub mod scan;
pub mod reader;
pub mod sent_log;
pub mod pending;
pub mod text;
pub mod commands;
pub mod batch;
pub mod error;
pub mod profiler;
pub mod mock;

pub use buttons::{MouseButton, MouseButtonStates};
pub use error::{MakcuError, MakcuResult};
pub use profiler::{Perf, PerformanceProfiler};
