//! Decoder and encoder for two nested, length-prefixed "box" structures of an
//! MP4-style container: a container box that holds at most one recognized
//! child, and a leaf box carrying a tag-length-value (TLV) metadata record
//! with two optional text attributes.
//!
//! All parsing runs over an in-memory byte stream; callers that read from a
//! file or socket hand the bytes in and take plain values back.
use vstd::prelude::*;

pub mod be;
pub mod ncdt;
pub mod nctg;
pub mod stream;

verus! {

/// The number of bytes still to parse before offset `end`, never negative;
/// the termination measure of the parsing recursions.
pub open spec fn rem_span(pos: int, end: int) -> int {
    if pos < end {
        end - pos
    } else {
        0
    }
}

/// Width in bytes of a box header: a big-endian 32-bit total size followed by
/// a 4-character type code.
pub const HEADER_SIZE: u64 = 8;

/// Four-character code of the container box, `ncdt`, as a big-endian integer.
pub const NCDT_FOURCC: u32 = 0x6E636474;

/// Four-character code of the leaf metadata box, `nctg`, as a big-endian integer.
pub const NCTG_FOURCC: u32 = 0x6E637467;

/// Everything that can abort a read or write of a box.
#[derive(Debug, Clone, Copy, PartialEq, Eq)]
pub enum Error {
    /// A child box's declared size does not fit its parent's remaining
    /// declared budget, or is smaller than a box header.
    SizeViolation,
    /// A read or seek moved past the end of the available bytes.
    StreamFailure,
    /// A TLV text payload was not valid UTF-8 after terminator removal.
    TextDecodeFailure,
    /// A TLV type code outside the recognized set.
    UnsupportedTlvType,
}

/// The box types this crate recognizes; every other four-character code is
/// carried as `UnknownBox` and skipped, never treated as an error.
#[derive(Debug, Clone, Copy, PartialEq, Eq)]
pub enum BoxType {
    NcdtBox,
    NctgBox,
    UnknownBox(u32),
}

impl BoxType {
    /// The mapping from a four-character code to a box type.
    pub open spec fn spec_from_fourcc(cc: u32) -> BoxType {
        if cc == NCDT_FOURCC {
            BoxType::NcdtBox
        } else if cc == NCTG_FOURCC {
            BoxType::NctgBox
        } else {
            BoxType::UnknownBox(cc)
        }
    }

    /// The four-character code of a box type.
    pub open spec fn spec_fourcc(self) -> u32 {
        match self {
            BoxType::NcdtBox => NCDT_FOURCC,
            BoxType::NctgBox => NCTG_FOURCC,
            BoxType::UnknownBox(cc) => cc,
        }
    }

    pub fn from_fourcc(cc: u32) -> (r: BoxType)
        ensures
            r == BoxType::spec_from_fourcc(cc),
    {
        if cc == NCDT_FOURCC {
            BoxType::NcdtBox
        } else if cc == NCTG_FOURCC {
            BoxType::NctgBox
        } else {
            BoxType::UnknownBox(cc)
        }
    }

    pub fn fourcc(&self) -> (r: u32)
        ensures
            r == self.spec_fourcc(),
    {
        match self {
            BoxType::NcdtBox => NCDT_FOURCC,
            BoxType::NctgBox => NCTG_FOURCC,
            BoxType::UnknownBox(cc) => *cc,
        }
    }
}

} // verus!

