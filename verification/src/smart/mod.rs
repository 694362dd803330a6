//! The way to the dive memory: a TinyTP session over the infrared link, and the
//! Uwatec Smart dialogue that runs over it.
//!
//! Once the session is up, the dialogue is plain: a command and its parameters
//! are written to the byte stream, and a known number of bytes is read from it.

pub mod dialogue;
pub mod ttp;

pub use dialogue::Download;
pub use ttp::lmp_connect;
pub use ttp::lmp_data;
pub use ttp::u32_le;
pub use ttp::Incoming;
pub use ttp::Ttp;
