//! Decoding of the header fields of ASN.1 BER/DER elements: the tag octets,
//! the length octets, and the end-of-contents marker.

pub mod error;
pub mod length;
pub mod octet_name;
pub mod stream;
pub mod tag;
pub mod tlv;

pub use error::DecodeError;
pub use length::{
    _length_size, _read_length, accumulate_length, count_following_octets, parse_length, Length,
    LengthForm,
};
pub use stream::ByteStream;
pub use tag::{_reach_eoc, accumulate_tag_number, decode_tag, BerTag, TagClass};
pub use tlv::TlvObject;
