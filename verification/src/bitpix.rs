//! The BITPIX size tag: the bit width of each element of the data section.

use vstd::prelude::*;

use crate::bytesutil::MINUS;
use crate::error::FitsHeaderError;
use crate::value::{
    build_right_justified, right_justified_field, FitsHeaderValue, HeaderValue,
};

verus! {

/// An enumeration of valid values corresponding to the BITPIX keyword.
#[derive(Debug, Clone, Copy, PartialEq, Eq, Structural)]
pub enum Bitpix {
    /// Indicates each data element is an unsigned 8 bit integer value.
    U8,
    /// Indicates each data element is a signed 16 bit integer value.
    I16,
    /// Indicates each data element is a signed 32 bit integer value.
    I32,
    /// Indicates each data element is a signed 32 bit float value.
    F32,
    /// Indicates each data element is a signed 64 bit float value.
    F64,
}

/// The bit width declared by a size tag.
pub open spec fn spec_bitpix_width(b: Bitpix) -> nat {
    match b {
        Bitpix::U8 => 8,
        Bitpix::I16 => 16,
        Bitpix::I32 => 32,
        Bitpix::F32 => 32,
        Bitpix::F64 => 64,
    }
}

/// The exact literal form of a size tag: `8`, `16`, `32`, `-32` or `-64`.
pub open spec fn spec_bitpix_literal(b: Bitpix) -> Seq<u8> {
    match b {
        Bitpix::U8 => seq![56u8],
        Bitpix::I16 => seq![49u8, 54],
        Bitpix::I32 => seq![51u8, 50],
        Bitpix::F32 => seq![MINUS, 51u8, 50],
        Bitpix::F64 => seq![MINUS, 54u8, 52],
    }
}

/// Which size tag, if any, the given trimmed bytes spell.
pub open spec fn spec_decode_bitpix(raw: Seq<u8>) -> Option<Bitpix> {
    if raw == spec_bitpix_literal(Bitpix::U8) {
        Some(Bitpix::U8)
    } else if raw == spec_bitpix_literal(Bitpix::I16) {
        Some(Bitpix::I16)
    } else if raw == spec_bitpix_literal(Bitpix::I32) {
        Some(Bitpix::I32)
    } else if raw == spec_bitpix_literal(Bitpix::F32) {
        Some(Bitpix::F32)
    } else if raw == spec_bitpix_literal(Bitpix::F64) {
        Some(Bitpix::F64)
    } else {
        None
    }
}

/// The 70-byte field of a size tag: its literal right-justified at column 20.
pub open spec fn spec_encode_bitpix(b: Bitpix) -> Seq<u8> {
    right_justified_field(spec_bitpix_literal(b))
}

impl Bitpix {
    /// Gets the number of bits that represent a value in the data section of the HDU.
    pub fn value(&self) -> (r: usize)
        ensures
            r == spec_bitpix_width(*self),
    {
        match self {
            Bitpix::U8 => 8,
            Bitpix::I16 => 16,
            Bitpix::I32 => 32,
            Bitpix::F32 => 32,
            Bitpix::F64 => 64,
        }
    }

    /// Builds the literal bytes of the size tag.
    fn literal(&self) -> (r: Vec<u8>)
        ensures
            r@ == spec_bitpix_literal(*self),
    {
        let mut v: Vec<u8> = Vec::new();
        match self {
            Bitpix::U8 => {
                v.push(56);
            }
            Bitpix::I16 => {
                v.push(49);
                v.push(54);
            }
            Bitpix::I32 => {
                v.push(51);
                v.push(50);
            }
            Bitpix::F32 => {
                v.push(MINUS);
                v.push(51);
                v.push(50);
            }
            Bitpix::F64 => {
                v.push(MINUS);
                v.push(54);
                v.push(52);
            }
        }
        assert(v@ =~= spec_bitpix_literal(*self));
        v
    }
}

impl FitsHeaderValue for Bitpix {
    open spec fn decodes(raw: Seq<u8>) -> bool {
        spec_decode_bitpix(raw) is Some
    }

    open spec fn decode_ok(raw: Seq<u8>, v: Self) -> bool {
        spec_decode_bitpix(raw) == Some(v)
    }

    open spec fn encodable(&self) -> bool {
        true
    }

    open spec fn spec_encode(&self) -> Seq<u8> {
        spec_encode_bitpix(*self)
    }

    open spec fn value_of(x: Self, v: HeaderValue) -> bool {
        v == HeaderValue::BitpixValue(x)
    }

    open spec fn kind_matches(v: HeaderValue) -> bool {
        v is BitpixValue
    }

    fn from_bytes(raw: Vec<u8>) -> (r: Result<Self, FitsHeaderError>) {
        let n = raw.len();
        if n == 1 && raw[0] == 56 {
            assert(raw@ =~= spec_bitpix_literal(Bitpix::U8));
            Ok(Bitpix::U8)
        } else if n == 2 && raw[0] == 49 && raw[1] == 54 {
            assert(raw@ =~= spec_bitpix_literal(Bitpix::I16));
            Ok(Bitpix::I16)
        } else if n == 2 && raw[0] == 51 && raw[1] == 50 {
            assert(raw@ =~= spec_bitpix_literal(Bitpix::I32));
            Ok(Bitpix::I32)
        } else if n == 3 && raw[0] == MINUS && raw[1] == 51 && raw[2] == 50 {
            assert(raw@ =~= spec_bitpix_literal(Bitpix::F32));
            Ok(Bitpix::F32)
        } else if n == 3 && raw[0] == MINUS && raw[1] == 54 && raw[2] == 52 {
            assert(raw@ =~= spec_bitpix_literal(Bitpix::F64));
            Ok(Bitpix::F64)
        } else {
            proof {
                let r0 = raw@;
                assert(r0 != spec_bitpix_literal(Bitpix::U8));
                assert(r0 != spec_bitpix_literal(Bitpix::I16));
                assert(r0 != spec_bitpix_literal(Bitpix::I32));
                assert(r0 != spec_bitpix_literal(Bitpix::F32));
                assert(r0 != spec_bitpix_literal(Bitpix::F64));
            }
            Err(FitsHeaderError::DeserializationError {
                found: raw,
                intent: String::from_str("header card bitpix value"),
            })
        }
    }

    fn to_bytes(&self) -> (r: Vec<u8>) {
        let lit = self.literal();
        build_right_justified(&lit)
    }

    fn check_encodable(&self) -> (b: bool) {
        true
    }

    fn to_value(&self) -> (v: HeaderValue) {
        HeaderValue::BitpixValue(*self)
    }

    fn of_value(v: &HeaderValue) -> (r: Option<Self>) {
        match v {
            HeaderValue::BitpixValue(b) => Some(*b),
            _ => None,
        }
    }
}

} // verus!
