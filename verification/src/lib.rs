//! Download of dives from Uwatec Galileo computers through a SigmaTel STIr4200
//! infrared/USB dongle.
//!
//! The crate holds everything that decides or computes: SIR framing and its
//! check sequence, the dongle's register protocol, IrLAP discovery, the TinyTP
//! session, the Uwatec Smart download dialogue, the dive-record parser and the
//! Subsurface export. It performs no I/O: functions take the bytes that were
//! read and return the bytes to send or the text to print.

pub mod bytes;
pub mod chip;
pub mod cli;
pub mod irlap;
pub mod logging;
pub mod sir;
pub mod smart;
pub mod subsurface;
pub mod text;
pub mod usb;
