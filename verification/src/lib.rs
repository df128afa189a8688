//! A codec for APRS packets, verified with Verus.
//!
//! A packet is read from a line of text, as APRS-IS carries it, or from an
//! AX.25 frame, as it comes from the air, and is written as either:
//!
//! ```text
//! AprsPacket::decode_textual(bytes)   AprsPacket::encode_textual(&mut buf)
//! AprsPacket::decode_ax25(bytes)      AprsPacket::encode_ax25(&mut buf)
//! ```
//!
//! Every function that reads states what it returns for every input: which
//! packet, or which error. Every function that writes states which bytes it
//! appends, and appends nothing where it fails. No function panics.
//!
//! # How the data is held
//!
//! Bytes stay bytes: callsigns, names and comments are never taken for
//! text. Numbers are exact:
//!
//! * A latitude or longitude is a whole number of units, of which a degree
//!   has 1 142 778 000: see [`lonlat`].
//! * The speed, radio range or altitude of a compressed position is the
//!   exponent that the wire holds: see [`compressed_cs`].
//!
//! Each type that owns bytes has a view, its mathematical value, and the
//! contracts speak of views.
//!
//! # What is proved of reading and writing
//!
//! * [`round_trip`]: text and frames in their written form, read and written
//!   again, are the same bytes.
//! * [`fixed_point`]: what is read from text, written and read again, is the
//!   same packet.
//! * [`on_air`]: a frame reads back as the packet with its callsigns in upper
//!   case and without its q-constructs; text that went over the air and back
//!   stays as it is when it goes once more.

pub mod base91;
pub mod bytes;
pub mod callsign;
pub mod compressed_cs;
pub mod compression_type;
pub mod error;
pub mod extensions;
pub mod fixed_point;
pub mod item;
pub mod lonlat;
pub mod message;
pub mod mic_e;
pub mod object;
pub mod on_air;
pub mod packet;
pub mod position;
pub mod round_trip;
pub mod status;
pub mod timestamp;
pub mod utils;
pub mod via;

pub use base91::{digit_from_ascii, digit_to_ascii};
pub use bytes::parse_bytes;
pub use callsign::{Callsign, CallsignField};
pub use compressed_cs::{AprsAltitude, AprsCompressedCs, AprsCourseSpeed, AprsRadioRange};
pub use compression_type::AprsCompressionType;
pub use error::{DecodeError, EncodeError};
pub use extensions::{Directivity, Extension};
pub use item::AprsItem;
pub use lonlat::{Latitude, Longitude, Precision};
pub use message::AprsMessage;
pub use mic_e::AprsMicE;
pub use object::AprsObject;
pub use packet::{AprsData, AprsPacket};
pub use position::{AprsCst, AprsPosition, Position};
pub use status::AprsStatus;
pub use timestamp::{DhmTimestamp, Timestamp};
pub use via::{QConstruct, Via};
