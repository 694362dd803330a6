//! From the raw dive memory to a Subsurface divelog.
//!
//! [`records`] finds the dive records, [`stream`] reads the items of a record's
//! sample stream, [`dive`] builds the dive from them, [`profile`] states what such
//! a dive shows of its record, [`calendar`] turns its time into a date, and [`xml`]
//! writes the log.

pub mod calendar;
pub mod dive;
pub mod profile;
pub mod records;
pub mod stream;
pub mod xml;

pub use calendar::civil;
pub use dive::parse_dive;
pub use dive::Dive;
pub use records::extract_dives;
pub use stream::galileo_identify;
pub use stream::signextend;
pub use xml::gas_label;
pub use xml::write_xml;
pub use xml::xml_escape;
