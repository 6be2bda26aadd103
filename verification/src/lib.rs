//! Core logic of a battery-low alert monitor.
//!
//! A battery source is a small `KEY=VALUE` text blob exposed by the operating
//! system. This crate parses such blobs into readings ([`reading::BatteryReading`]),
//! and decides on each poll tick whether a desktop alert is due, keeping one
//! ratcheting alert threshold per battery ([`monitor::MonitorState`]) so that a
//! draining battery re-alerts every few percent instead of on every tick.
//!
//! Reading the source files, the periodic timer, and delivering notifications
//! are I/O and live outside this crate; they hand in plain values and act on
//! the decisions returned.

pub mod monitor;
pub mod parse;
pub mod reading;
pub mod supervisor;
