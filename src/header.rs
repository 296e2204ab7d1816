//! The optional program header: a magic marker, a version, the offsets of
//! code and data, and the header's declared size.

use crate::codec::{decode_u32, encode_u32, push_be, read_u32};
use vstd::prelude::*;

verus! {

/// The header of a program image.
pub struct Header {
    pub magic: [u8; 4],
    pub version: u8,
    pub code_start: u32,
    pub data_start: u32,
    pub size: u8,
}

/// The declared size of a header, and the least number of bytes `from_bytes`
/// reads one from.
pub const HEADER_SIZE: u8 = 13;

/// The magic marker `FLNT`.
pub open spec fn is_magic(b: Seq<u8>) -> bool {
    b.len() >= 4 && b[0] == 70 && b[1] == 76 && b[2] == 78 && b[3] == 84
}

/// The bytes a header is written as: the marker, the version, both offsets
/// big-endian, then the declared size.
pub open spec fn header_bytes(h: Header) -> Seq<u8> {
    h.magic@ + seq![h.version] + encode_u32(h.code_start) + encode_u32(h.data_start) + seq![h.size]
}

impl Header {
    /// A header with the marker, version 0, both offsets 0 and size 13.
    pub fn new() -> (r: Self)
        ensures
            is_magic(r.magic@),
            r.version == 0,
            r.code_start == 0,
            r.data_start == 0,
            r.size == HEADER_SIZE,
    {
        Header { magic: [70u8, 76u8, 78u8, 84u8], version: 0, code_start: 0, data_start: 0, size: HEADER_SIZE }
    }

    /// The header as bytes.
    pub fn to_bytes(&self) -> (r: Vec<u8>)
        ensures
            r@ == header_bytes(*self),
    {
        let mut bytes: Vec<u8> = Vec::new();
        bytes.push(self.magic[0]);
        bytes.push(self.magic[1]);
        bytes.push(self.magic[2]);
        bytes.push(self.magic[3]);
        bytes.push(self.version);
        push_be(&mut bytes, self.code_start as u64, 4);
        push_be(&mut bytes, self.data_start as u64, 4);
        bytes.push(self.size);
        assert(bytes@ =~= header_bytes(*self));
        bytes
    }

    /// Reads a header from the first 13 bytes: marker, version and both
    /// offsets. The declared size is taken as 13.
    pub fn from_bytes(bytes: &[u8]) -> (r: Result<Self, String>)
        ensures
            bytes@.len() < 13 ==> (r matches Err(e) && e@
                == "Buffer too small to contain a valid header"@),
            bytes@.len() >= 13 && !is_magic(bytes@) ==> (r matches Err(e) && e@
                == "Invalid magic number: Not a Flint binary"@),
            bytes@.len() >= 13 && is_magic(bytes@) ==> (r matches Ok(h) && h.magic@ == bytes@.take(4)
                && h.version == bytes@[4] && h.code_start == decode_u32(bytes@.subrange(5, 9))
                && h.data_start == decode_u32(bytes@.subrange(9, 13)) && h.size == HEADER_SIZE),
    {
        if bytes.len() < 13 {
            return Err("Buffer too small to contain a valid header".to_owned());
        }
        if !(bytes[0] == 70 && bytes[1] == 76 && bytes[2] == 78 && bytes[3] == 84) {
            return Err("Invalid magic number: Not a Flint binary".to_owned());
        }
        let magic: [u8; 4] = [bytes[0], bytes[1], bytes[2], bytes[3]];
        assert(magic@ =~= bytes@.take(4));
        let code_start = read_u32(bytes, 5);
        let data_start = read_u32(bytes, 9);
        Ok(Header { magic, version: bytes[4], code_start, data_start, size: HEADER_SIZE })
    }
}

} // verus!
