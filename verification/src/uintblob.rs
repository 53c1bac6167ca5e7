//! Unsigned integers kept as fixed-size big-endian byte strings.
//!
//! A store that orders raw bytes cannot hold Rust's unsigned integers as
//! native signed columns without losing their order. Each wrapper here
//! writes its integer as exactly `size_of` bytes, most significant first, and
//! reads it back only from exactly that many bytes: any other length is an
//! error, never padded or truncated.

use vstd::prelude::*;
use vstd::string::StringExecFns;
use crate::codec::{be_bytes, be_decode, be_encode, be_value, Width};
use crate::codec::{
    lemma_be_bytes_len, lemma_be_value_bound, lemma_pow256_values, lemma_round_trip,
    lemma_value_of_bytes, lemma_width_range,
};
use crate::text::{decimal, decimal_string};

verus! {

/// What can go wrong when bytes are read back as an unsigned integer.
#[derive(Debug, Clone, PartialEq)]
pub enum UnsignedIntBlobError {
    /// The byte string does not have the length the requested type demands.
    ///
    /// `expected` is that length, `actual` the length found, and `type_label`
    /// the requested integer type, such as `u16`.
    InvalidSize { expected: usize, actual: usize, type_label: String },
}

/// The text of a size error: what was expected, for which type, and what was found.
pub open spec fn invalid_size_text(expected: nat, actual: nat, type_label: Seq<char>) -> Seq<char> {
    "Invalid input size: expected "@ + decimal(expected) + " bytes for `"@ + type_label
        + "`, got "@ + decimal(actual)
}

impl UnsignedIntBlobError {
    /// Whether this is the size error with the given contents.
    pub open spec fn is_invalid_size(
        self,
        expected: nat,
        actual: nat,
        type_label: Seq<char>,
    ) -> bool {
        match self {
            UnsignedIntBlobError::InvalidSize { expected: e, actual: a, type_label: t } => {
                e == expected && a == actual && t@ == type_label
            },
        }
    }

    /// The text of this error.
    pub open spec fn spec_message(self) -> Seq<char> {
        match self {
            UnsignedIntBlobError::InvalidSize { expected, actual, type_label } => {
                invalid_size_text(expected as nat, actual as nat, type_label@)
            },
        }
    }

    /// Renders the error for a reader.
    pub fn message(&self) -> (out: String)
        ensures
            out@ == self.spec_message(),
    {
        match self {
            UnsignedIntBlobError::InvalidSize { expected, actual, type_label } => {
                let mut out = String::from_str("Invalid input size: expected ");
                out.append(decimal_string(*expected).as_str());
                out.append(" bytes for `");
                out.append(type_label.as_str());
                out.append("`, got ");
                out.append(decimal_string(*actual).as_str());
                out
            },
        }
    }
}

impl Width {
    /// Name of the Rust integer type of this width.
    pub open spec fn spec_type_label(self) -> Seq<char> {
        match self {
            Width::W8 => "u8"@,
            Width::W16 => "u16"@,
            Width::W32 => "u32"@,
            Width::W64 => "u64"@,
            Width::W128 => "u128"@,
        }
    }

    /// Name of the Rust integer type of this width.
    pub fn type_label(self) -> (name: &'static str)
        ensures
            name@ == self.spec_type_label(),
    {
        match self {
            Width::W8 => "u8",
            Width::W16 => "u16",
            Width::W32 => "u32",
            Width::W64 => "u64",
            Width::W128 => "u128",
        }
    }

    /// The width of `bits` bits, if it is one of the supported five.
    pub fn from_bits(bits: u32) -> (r: Option<Width>)
        ensures
            match r {
                Some(w) => w.spec_bits() == bits,
                None => bits != 8 && bits != 16 && bits != 32 && bits != 64 && bits != 128,
            },
    {
        if bits == 8 {
            Some(Width::W8)
        } else if bits == 16 {
            Some(Width::W16)
        } else if bits == 32 {
            Some(Width::W32)
        } else if bits == 64 {
            Some(Width::W64)
        } else if bits == 128 {
            Some(Width::W128)
        } else {
            None
        }
    }

    /// Largest value representable at this width.
    pub fn max_value(self) -> (r: u128)
        ensures
            r == self.spec_max_value(),
    {
        match self {
            Width::W8 => 0xff,
            Width::W16 => 0xffff,
            Width::W32 => 0xffff_ffff,
            Width::W64 => 0xffff_ffff_ffff_ffff,
            Width::W128 => 0xffff_ffff_ffff_ffff_ffff_ffff_ffff_ffff,
        }
    }
}

/// An unsigned integer together with the width it is stored at.
///
/// The value always fits its width, so its encoding loses nothing.
#[derive(Debug, Clone, Copy, PartialEq, Eq)]
pub struct UnsignedInt {
    value: u128,
    width: Width,
}

impl UnsignedInt {
    #[verifier::type_invariant]
    spec fn fits(self) -> bool {
        self.value <= self.width.spec_max_value()
    }

    /// The number held.
    pub closed spec fn spec_value(self) -> nat {
        self.value as nat
    }

    /// The width it is stored at.
    pub closed spec fn spec_width(self) -> Width {
        self.width
    }

    /// The canonical stored form: big-endian, as many bytes as the width has.
    pub open spec fn spec_encode(self) -> Seq<u8> {
        be_bytes(self.spec_value(), self.spec_width().spec_byte_len())
    }

    /// Pairs `value` with `width`, unless the value needs more bits.
    pub fn new(value: u128, width: Width) -> (r: Option<UnsignedInt>)
        ensures
            r is Some <==> value <= width.spec_max_value(),
            r matches Some(u) ==> u.spec_value() == value && u.spec_width() == width,
    {
        if value <= width.max_value() {
            Some(UnsignedInt { value, width })
        } else {
            None
        }
    }

    /// The number held; it never exceeds what the width can represent.
    pub fn value(&self) -> (r: u128)
        ensures
            r == self.spec_value(),
            r <= self.spec_width().spec_max_value(),
    {
        proof {
            use_type_invariant(self);
        }
        self.value
    }

    /// The width the number is stored at.
    pub fn width(&self) -> (r: Width)
        ensures
            r == self.spec_width(),
    {
        self.width
    }

    /// Encodes the value at its width.
    pub fn encode(&self) -> (out: Vec<u8>)
        ensures
            out@ == self.spec_encode(),
            out@.len() == self.spec_width().spec_byte_len(),
            be_value(out@) == self.spec_value(),
    {
        proof {
            use_type_invariant(self);
            lemma_round_trip(self.spec_value(), self.spec_width());
        }
        be_encode(self.value, self.width.byte_len())
    }

    /// Decodes `bytes` as a value of `width`.
    ///
    /// Succeeds exactly when `bytes` has the length of `width`; any other
    /// length is reported with the expected length, the length found and the
    /// name of the integer type.
    pub fn decode(bytes: &[u8], width: Width) -> (r: Result<UnsignedInt, UnsignedIntBlobError>)
        ensures
            match r {
                Ok(u) => {
                    &&& bytes@.len() == width.spec_byte_len()
                    &&& u.spec_width() == width
                    &&& u.spec_value() == be_value(bytes@)
                },
                Err(e) => {
                    &&& bytes@.len() != width.spec_byte_len()
                    &&& e.is_invalid_size(
                        width.spec_byte_len(),
                        bytes@.len(),
                        width.spec_type_label(),
                    )
                },
            },
    {
        let expected = width.byte_len();
        if bytes.len() == expected {
            proof {
                lemma_be_value_bound(bytes@);
                lemma_width_range(width);
            }
            Ok(UnsignedInt { value: be_decode(bytes), width })
        } else {
            Err(
                UnsignedIntBlobError::InvalidSize {
                    expected,
                    actual: bytes.len(),
                    type_label: String::from_str(width.type_label()),
                },
            )
        }
    }
}

/// A `u8` stored as one big-endian byte.
///
/// Raw byte comparison of two stored values agrees with the numeric
/// comparison of the integers they hold.
#[derive(Debug, Clone, Copy, PartialEq, Eq, Structural)]
pub struct U8Blob(pub u8);

impl U8Blob {
    /// Returns a copy of the inner value.
    pub fn get(&self) -> (r: u8)
        ensures
            r == self.0,
    {
        self.0
    }

    /// Consumes the wrapper, returning the inner value.
    pub fn into_inner(self) -> (r: u8)
        ensures
            r == self.0,
    {
        self.0
    }

    /// The inner value as one byte in big-endian order.
    pub fn to_bytes(self) -> (out: Vec<u8>)
        ensures
            out@ == be_bytes(self.0 as nat, 1),
            out@.len() == 1,
            be_value(out@) == self.0,
    {
        proof {
            lemma_pow256_values();
            lemma_be_bytes_len(self.0 as nat, 1);
            lemma_value_of_bytes(self.0 as nat, 1);
        }
        be_encode(self.0 as u128, 1)
    }

    /// Reads a big-endian byte string of exactly one byte.
    ///
    /// Any other length is refused: nothing is padded or cut off.
    pub fn from_bytes(bytes: &[u8]) -> (r: Result<U8Blob, UnsignedIntBlobError>)
        ensures
            match r {
                Ok(blob) => bytes@.len() == 1 && blob.0 == be_value(bytes@),
                Err(e) => bytes@.len() != 1 && e.is_invalid_size(1, bytes@.len(), "u8"@),
            },
    {
        if bytes.len() == 1 {
            proof {
                lemma_be_value_bound(bytes@);
                lemma_pow256_values();
            }
            Ok(U8Blob(be_decode(bytes) as u8))
        } else {
            Err(
                UnsignedIntBlobError::InvalidSize {
                    expected: 1,
                    actual: bytes.len(),
                    type_label: String::from_str("u8"),
                },
            )
        }
    }

    /// The same value with its width made explicit.
    pub fn to_unsigned_int(self) -> (u: UnsignedInt)
        ensures
            u.spec_value() == self.0,
            u.spec_width() == Width::W8,
    {
        UnsignedInt { value: self.0 as u128, width: Width::W8 }
    }
}

impl From<u8> for U8Blob {
    fn from(value: u8) -> (r: U8Blob) {
        U8Blob(value)
    }
}

impl vstd::std_specs::convert::FromSpecImpl<u8> for U8Blob {
    open spec fn obeys_from_spec() -> bool {
        true
    }

    open spec fn from_spec(value: u8) -> U8Blob {
        U8Blob(value)
    }
}

/// A `u16` stored as two big-endian bytes.
///
/// Raw byte comparison of two stored values agrees with the numeric
/// comparison of the integers they hold.
#[derive(Debug, Clone, Copy, PartialEq, Eq, Structural)]
pub struct U16Blob(pub u16);

impl U16Blob {
    /// Returns a copy of the inner value.
    pub fn get(&self) -> (r: u16)
        ensures
            r == self.0,
    {
        self.0
    }

    /// Consumes the wrapper, returning the inner value.
    pub fn into_inner(self) -> (r: u16)
        ensures
            r == self.0,
    {
        self.0
    }

    /// The inner value as two bytes in big-endian order.
    pub fn to_bytes(self) -> (out: Vec<u8>)
        ensures
            out@ == be_bytes(self.0 as nat, 2),
            out@.len() == 2,
            be_value(out@) == self.0,
    {
        proof {
            lemma_pow256_values();
            lemma_be_bytes_len(self.0 as nat, 2);
            lemma_value_of_bytes(self.0 as nat, 2);
        }
        be_encode(self.0 as u128, 2)
    }

    /// Reads a big-endian byte string of exactly two bytes.
    ///
    /// Any other length is refused: nothing is padded or cut off.
    pub fn from_bytes(bytes: &[u8]) -> (r: Result<U16Blob, UnsignedIntBlobError>)
        ensures
            match r {
                Ok(blob) => bytes@.len() == 2 && blob.0 == be_value(bytes@),
                Err(e) => bytes@.len() != 2 && e.is_invalid_size(2, bytes@.len(), "u16"@),
            },
    {
        if bytes.len() == 2 {
            proof {
                lemma_be_value_bound(bytes@);
                lemma_pow256_values();
            }
            Ok(U16Blob(be_decode(bytes) as u16))
        } else {
            Err(
                UnsignedIntBlobError::InvalidSize {
                    expected: 2,
                    actual: bytes.len(),
                    type_label: String::from_str("u16"),
                },
            )
        }
    }

    /// The same value with its width made explicit.
    pub fn to_unsigned_int(self) -> (u: UnsignedInt)
        ensures
            u.spec_value() == self.0,
            u.spec_width() == Width::W16,
    {
        UnsignedInt { value: self.0 as u128, width: Width::W16 }
    }
}

impl From<u16> for U16Blob {
    fn from(value: u16) -> (r: U16Blob) {
        U16Blob(value)
    }
}

impl vstd::std_specs::convert::FromSpecImpl<u16> for U16Blob {
    open spec fn obeys_from_spec() -> bool {
        true
    }

    open spec fn from_spec(value: u16) -> U16Blob {
        U16Blob(value)
    }
}

/// A `u32` stored as four big-endian bytes.
///
/// Raw byte comparison of two stored values agrees with the numeric
/// comparison of the integers they hold.
#[derive(Debug, Clone, Copy, PartialEq, Eq, Structural)]
pub struct U32Blob(pub u32);

impl U32Blob {
    /// Returns a copy of the inner value.
    pub fn get(&self) -> (r: u32)
        ensures
            r == self.0,
    {
        self.0
    }

    /// Consumes the wrapper, returning the inner value.
    pub fn into_inner(self) -> (r: u32)
        ensures
            r == self.0,
    {
        self.0
    }

    /// The inner value as four bytes in big-endian order.
    pub fn to_bytes(self) -> (out: Vec<u8>)
        ensures
            out@ == be_bytes(self.0 as nat, 4),
            out@.len() == 4,
            be_value(out@) == self.0,
    {
        proof {
            lemma_pow256_values();
            lemma_be_bytes_len(self.0 as nat, 4);
            lemma_value_of_bytes(self.0 as nat, 4);
        }
        be_encode(self.0 as u128, 4)
    }

    /// Reads a big-endian byte string of exactly four bytes.
    ///
    /// Any other length is refused: nothing is padded or cut off.
    pub fn from_bytes(bytes: &[u8]) -> (r: Result<U32Blob, UnsignedIntBlobError>)
        ensures
            match r {
                Ok(blob) => bytes@.len() == 4 && blob.0 == be_value(bytes@),
                Err(e) => bytes@.len() != 4 && e.is_invalid_size(4, bytes@.len(), "u32"@),
            },
    {
        if bytes.len() == 4 {
            proof {
                lemma_be_value_bound(bytes@);
                lemma_pow256_values();
            }
            Ok(U32Blob(be_decode(bytes) as u32))
        } else {
            Err(
                UnsignedIntBlobError::InvalidSize {
                    expected: 4,
                    actual: bytes.len(),
                    type_label: String::from_str("u32"),
                },
            )
        }
    }

    /// The same value with its width made explicit.
    pub fn to_unsigned_int(self) -> (u: UnsignedInt)
        ensures
            u.spec_value() == self.0,
            u.spec_width() == Width::W32,
    {
        UnsignedInt { value: self.0 as u128, width: Width::W32 }
    }
}

impl From<u32> for U32Blob {
    fn from(value: u32) -> (r: U32Blob) {
        U32Blob(value)
    }
}

impl vstd::std_specs::convert::FromSpecImpl<u32> for U32Blob {
    open spec fn obeys_from_spec() -> bool {
        true
    }

    open spec fn from_spec(value: u32) -> U32Blob {
        U32Blob(value)
    }
}

/// A `u64` stored as eight big-endian bytes.
///
/// Raw byte comparison of two stored values agrees with the numeric
/// comparison of the integers they hold.
#[derive(Debug, Clone, Copy, PartialEq, Eq, Structural)]
pub struct U64Blob(pub u64);

impl U64Blob {
    /// Returns a copy of the inner value.
    pub fn get(&self) -> (r: u64)
        ensures
            r == self.0,
    {
        self.0
    }

    /// Consumes the wrapper, returning the inner value.
    pub fn into_inner(self) -> (r: u64)
        ensures
            r == self.0,
    {
        self.0
    }

    /// The inner value as eight bytes in big-endian order.
    pub fn to_bytes(self) -> (out: Vec<u8>)
        ensures
            out@ == be_bytes(self.0 as nat, 8),
            out@.len() == 8,
            be_value(out@) == self.0,
    {
        proof {
            lemma_pow256_values();
            lemma_be_bytes_len(self.0 as nat, 8);
            lemma_value_of_bytes(self.0 as nat, 8);
        }
        be_encode(self.0 as u128, 8)
    }

    /// Reads a big-endian byte string of exactly eight bytes.
    ///
    /// Any other length is refused: nothing is padded or cut off.
    pub fn from_bytes(bytes: &[u8]) -> (r: Result<U64Blob, UnsignedIntBlobError>)
        ensures
            match r {
                Ok(blob) => bytes@.len() == 8 && blob.0 == be_value(bytes@),
                Err(e) => bytes@.len() != 8 && e.is_invalid_size(8, bytes@.len(), "u64"@),
            },
    {
        if bytes.len() == 8 {
            proof {
                lemma_be_value_bound(bytes@);
                lemma_pow256_values();
            }
            Ok(U64Blob(be_decode(bytes) as u64))
        } else {
            Err(
                UnsignedIntBlobError::InvalidSize {
                    expected: 8,
                    actual: bytes.len(),
                    type_label: String::from_str("u64"),
                },
            )
        }
    }

    /// The same value with its width made explicit.
    pub fn to_unsigned_int(self) -> (u: UnsignedInt)
        ensures
            u.spec_value() == self.0,
            u.spec_width() == Width::W64,
    {
        UnsignedInt { value: self.0 as u128, width: Width::W64 }
    }
}

impl From<u64> for U64Blob {
    fn from(value: u64) -> (r: U64Blob) {
        U64Blob(value)
    }
}

impl vstd::std_specs::convert::FromSpecImpl<u64> for U64Blob {
    open spec fn obeys_from_spec() -> bool {
        true
    }

    open spec fn from_spec(value: u64) -> U64Blob {
        U64Blob(value)
    }
}

/// A `u128` stored as sixteen big-endian bytes.
///
/// Raw byte comparison of two stored values agrees with the numeric
/// comparison of the integers they hold.
#[derive(Debug, Clone, Copy, PartialEq, Eq, Structural)]
pub struct U128Blob(pub u128);

impl U128Blob {
    /// Returns a copy of the inner value.
    pub fn get(&self) -> (r: u128)
        ensures
            r == self.0,
    {
        self.0
    }

    /// Consumes the wrapper, returning the inner value.
    pub fn into_inner(self) -> (r: u128)
        ensures
            r == self.0,
    {
        self.0
    }

    /// The inner value as sixteen bytes in big-endian order.
    pub fn to_bytes(self) -> (out: Vec<u8>)
        ensures
            out@ == be_bytes(self.0 as nat, 16),
            out@.len() == 16,
            be_value(out@) == self.0,
    {
        proof {
            lemma_pow256_values();
            lemma_be_bytes_len(self.0 as nat, 16);
            lemma_value_of_bytes(self.0 as nat, 16);
        }
        be_encode(self.0 as u128, 16)
    }

    /// Reads a big-endian byte string of exactly sixteen bytes.
    ///
    /// Any other length is refused: nothing is padded or cut off.
    pub fn from_bytes(bytes: &[u8]) -> (r: Result<U128Blob, UnsignedIntBlobError>)
        ensures
            match r {
                Ok(blob) => bytes@.len() == 16 && blob.0 == be_value(bytes@),
                Err(e) => bytes@.len() != 16 && e.is_invalid_size(16, bytes@.len(), "u128"@),
            },
    {
        if bytes.len() == 16 {
            proof {
                lemma_be_value_bound(bytes@);
                lemma_pow256_values();
            }
            Ok(U128Blob(be_decode(bytes) as u128))
        } else {
            Err(
                UnsignedIntBlobError::InvalidSize {
                    expected: 16,
                    actual: bytes.len(),
                    type_label: String::from_str("u128"),
                },
            )
        }
    }

    /// The same value with its width made explicit.
    pub fn to_unsigned_int(self) -> (u: UnsignedInt)
        ensures
            u.spec_value() == self.0,
            u.spec_width() == Width::W128,
    {
        UnsignedInt { value: self.0 as u128, width: Width::W128 }
    }
}

impl From<u128> for U128Blob {
    fn from(value: u128) -> (r: U128Blob) {
        U128Blob(value)
    }
}

impl vstd::std_specs::convert::FromSpecImpl<u128> for U128Blob {
    open spec fn obeys_from_spec() -> bool {
        true
    }

    open spec fn from_spec(value: u128) -> U128Blob {
        U128Blob(value)
    }
}

} // verus!
