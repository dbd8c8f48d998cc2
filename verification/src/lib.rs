//! Command handling for an SDI-12 / thermocouple sensor bridge.

pub mod buffer;
pub mod command;
pub mod error;
pub mod frame;
pub mod probe;
pub mod receiver;
pub mod response;
pub mod text;
pub mod thermocouple;
