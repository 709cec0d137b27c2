//! Core of a serial-telemetry terminal dashboard: the wire-frame codec, the
//! CPU-metric derivation, and the event-driven application state machine.
//!
//! Everything here is pure computation on plain values; reading the serial
//! link, the keyboard and the timer, and drawing the screen, live outside the
//! library and hand it bytes and key events.

pub mod frame;
pub mod metric;
pub mod state;
pub mod telemetry;
