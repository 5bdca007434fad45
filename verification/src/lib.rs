//! Buffering, state tracking and event grouping for Linux input devices.
//!
//! Nothing in this library performs input or output: programs read from and write to devices, and
//! hand over plain values.
pub mod batch;
pub mod bits;
pub mod compare;
pub mod error;
pub mod event;
pub mod hotplug;
pub mod key_repeat;
pub mod reader;
pub mod wire;
