//! SIR (Serial Infrared) layer: the frame check sequence and the asynchronous
//! framing of payloads on the wire.
//!
//! The header that the STIr4200 wants in front of a transmitted frame is not
//! part of SIR framing; it is added in [`crate::chip`].

pub mod crc;
pub mod framing;
