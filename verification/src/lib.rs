//! Lossless conversion between a chunked binary container format and a
//! textual (XML) representation of its chunk framing.
//!
//! The container is a flat sequence of records; each record is a flat
//! sequence of subrecords.  Every chunk is a length-prefixed block: a
//! 4-byte tag, a little-endian 32-bit declared size, optional fixed
//! metadata, and a payload of exactly that many bytes.  Chunk objects
//! hold only offsets into the owning buffer, never copies of payloads.


pub mod chunk;
pub mod dec;
pub mod diag;
pub mod elem;
pub mod error;
pub mod file;
pub mod hex;
pub mod render;
pub mod roundtrip;
mod strbuf;
pub mod tag;

pub use chunk::{parse_u32, validate_header, Record, RecordV, Subrecord, SubrecordV};
pub use dec::{append_u32_dec, parse_u32_dec};
pub use elem::{RecElement, RecElementV, SubElement, SubElementV};
pub use error::{Error, ErrorKind, Frame, Level};
pub use file::{detect, is_xml_initial_bytes, File, FileV, InputKind};
pub use hex::{append_hex_byte, append_hex_text, hex_char, hex_decode, hex_text, hex_val};
pub use tag::{xml_tag, xml_tag_to_bytes};
