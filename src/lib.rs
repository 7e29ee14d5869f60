//! Wraps a byte-stream handle and records every transferred chunk to a sink
//! in a human-readable text format, and reads that format back into packets.
//!
//! Each packet is recorded as a header line (`<-` for a write, `->` for a
//! read, the elapsed seconds and the byte count), data rows of up to 25 bytes
//! in hex and escaped ASCII, and a blank line. Blank lines and `//` comment
//! lines between records are ignored by the reader.

pub mod dump;
pub mod format;
pub mod laws;
pub mod packet;
pub mod parse;
pub mod reader;

pub use dump::Dump;
pub use format::{encode_packet, millis};
pub use packet::{Direction, Packet};
pub use parse::FormatError;
pub use reader::DumpRead;
