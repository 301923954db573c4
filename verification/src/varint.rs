//! Canonical variable-length unsigned integers (BigSize), used for the type
//! and length fields of a TLV record.
//!
//! The encoding is big-endian and minimal: a first byte below 0xfd is the
//! value itself; 0xfd, 0xfe and 0xff announce a 16-, 32- or 64-bit value,
//! which must not fit in the next smaller form.

use vstd::prelude::*;

use lightning::ln::msgs::DecodeError;
use lightning::util::ser::{BigSize, Readable};

verus! {

/// Failure while reading one variable-length integer from a byte slice.
#[derive(Clone, Copy, Debug, PartialEq, Eq, Structural)]
pub enum VarIntError {
    /// The slice ended before the integer was complete. When it fired with
    /// no byte consumed at all, the stream ended cleanly.
    ShortRead,
    /// The encoding was not minimal.
    InvalidValue,
}

/// Big-endian value of two bytes.
pub open spec fn be16(a: u8, b: u8) -> int {
    a * 0x100 + b
}

/// Big-endian value of four bytes.
pub open spec fn be32(a: u8, b: u8, c: u8, d: u8) -> int {
    a * 0x1000000 + b * 0x10000 + c * 0x100 + d
}

/// Big-endian value of eight bytes.
pub open spec fn be64(a: u8, b: u8, c: u8, d: u8, e: u8, f: u8, g: u8, h: u8) -> int {
    a * 0x100000000000000 + b * 0x1000000000000 + c * 0x10000000000 + d * 0x100000000
        + e * 0x1000000 + f * 0x10000 + g * 0x100 + h
}

/// How many bytes one variable-length integer occupies, by its first byte.
pub open spec fn spec_bigsize_len(first: u8) -> int {
    if first < 0xfd {
        1
    } else if first == 0xfd {
        3
    } else if first == 0xfe {
        5
    } else {
        9
    }
}

/// The value of the variable-length integer at the front of `s`, or the
/// failure reading it: `ShortRead` when `s` ends before the integer is
/// complete (in particular when `s` is empty), `InvalidValue` when the
/// encoding is not minimal.
pub open spec fn spec_bigsize(s: Seq<u8>) -> Result<u64, VarIntError> {
    if s.len() == 0 {
        Err(VarIntError::ShortRead)
    } else {
        let first = s[0];
        if first < 0xfd {
            Ok(first as u64)
        } else if first == 0xfd {
            if s.len() < 3 {
                Err(VarIntError::ShortRead)
            } else if be16(s[1], s[2]) < 0xfd {
                Err(VarIntError::InvalidValue)
            } else {
                Ok(be16(s[1], s[2]) as u64)
            }
        } else if first == 0xfe {
            if s.len() < 5 {
                Err(VarIntError::ShortRead)
            } else if be32(s[1], s[2], s[3], s[4]) < 0x10000 {
                Err(VarIntError::InvalidValue)
            } else {
                Ok(be32(s[1], s[2], s[3], s[4]) as u64)
            }
        } else {
            if s.len() < 9 {
                Err(VarIntError::ShortRead)
            } else if be64(s[1], s[2], s[3], s[4], s[5], s[6], s[7], s[8]) < 0x100000000 {
                Err(VarIntError::InvalidValue)
            } else {
                Ok(be64(s[1], s[2], s[3], s[4], s[5], s[6], s[7], s[8]) as u64)
            }
        }
    }
}

/// A successful read fits inside `s` and consumes at least one byte.
pub proof fn lemma_bigsize_ok_len(s: Seq<u8>)
    requires
        spec_bigsize(s) is Ok,
    ensures
        s.len() >= spec_bigsize_len(s[0]),
        spec_bigsize_len(s[0]) >= 1,
{
}

/// Relies on `lightning::util::ser::BigSize`'s `Readable` implementation:
/// it reads one minimally encoded big-endian variable-length integer from
/// the front of the slice. From a byte-slice reader the only failures it can
/// raise are `ShortRead` (the slice ended inside the integer, mapped from an
/// unexpected end of input) and `InvalidValue` (a non-minimal encoding).
#[verifier::external_body]
pub(crate) fn read_bigsize(data: &[u8], pos: usize) -> (r: Result<u64, VarIntError>)
    requires
        pos <= data@.len(),
    ensures
        r == spec_bigsize(data@.skip(pos as int)),
{
    let mut reader = &data[pos..];
    match <BigSize as Readable>::read(&mut reader) {
        Ok(big) => Ok(big.0),
        Err(DecodeError::ShortRead) => Err(VarIntError::ShortRead),
        Err(_) => Err(VarIntError::InvalidValue),
    }
}

/// How many bytes the variable-length integer starting with `first` occupies.
pub fn bigsize_len(first: u8) -> (n: usize)
    ensures
        n == spec_bigsize_len(first),
{
    if first < 0xfd {
        1
    } else if first == 0xfd {
        3
    } else if first == 0xfe {
        5
    } else {
        9
    }
}

/// The canonical (minimal) encoding of `v`.
pub open spec fn spec_bigsize_encode(v: u64) -> Seq<u8> {
    if v < 0xfd {
        seq![v as u8]
    } else if v <= 0xffff {
        seq![0xfdu8, (v / 0x100) as u8, (v % 0x100) as u8]
    } else if v <= 0xffffffff {
        seq![
            0xfeu8,
            (v / 0x1000000) as u8,
            ((v / 0x10000) % 0x100) as u8,
            ((v / 0x100) % 0x100) as u8,
            (v % 0x100) as u8,
        ]
    } else {
        seq![
            0xffu8,
            (v / 0x100000000000000) as u8,
            ((v / 0x1000000000000) % 0x100) as u8,
            ((v / 0x10000000000) % 0x100) as u8,
            ((v / 0x100000000) % 0x100) as u8,
            ((v / 0x1000000) % 0x100) as u8,
            ((v / 0x10000) % 0x100) as u8,
            ((v / 0x100) % 0x100) as u8,
            (v % 0x100) as u8,
        ]
    }
}

/// Reading a canonically encoded integer back yields the encoded value,
/// consumes exactly the encoding, and leaves the rest of the input untouched.
pub proof fn lemma_bigsize_roundtrip(v: u64, rest: Seq<u8>)
    ensures
        spec_bigsize(spec_bigsize_encode(v) + rest) == Ok::<u64, VarIntError>(v),
        spec_bigsize_len((spec_bigsize_encode(v) + rest)[0]) == spec_bigsize_encode(v).len(),
        (spec_bigsize_encode(v) + rest).skip(spec_bigsize_encode(v).len() as int) == rest,
{
    let e = spec_bigsize_encode(v);
    let s = e + rest;
    assert(s.skip(e.len() as int) =~= rest);
    if v < 0xfd {
    } else if v <= 0xffff {
        assert(be16(s[1], s[2]) == v);
    } else if v <= 0xffffffff {
        assert(be32(s[1], s[2], s[3], s[4]) == v);
    } else {
        assert(be64(s[1], s[2], s[3], s[4], s[5], s[6], s[7], s[8]) == v) by {
            lemma_be64_decompose(v);
        };
    }
}

/// An unsigned 64-bit value is the big-endian composition of its eight bytes.
pub proof fn lemma_be64_decompose(v: u64)
    ensures
        be64(
            (v / 0x100000000000000) as u8,
            ((v / 0x1000000000000) % 0x100) as u8,
            ((v / 0x10000000000) % 0x100) as u8,
            ((v / 0x100000000) % 0x100) as u8,
            ((v / 0x1000000) % 0x100) as u8,
            ((v / 0x10000) % 0x100) as u8,
            ((v / 0x100) % 0x100) as u8,
            (v % 0x100) as u8,
        ) == v,
{
    let x = v as int;
    vstd::arithmetic::div_mod::lemma_fundamental_div_mod(x, 0x100);
    vstd::arithmetic::div_mod::lemma_fundamental_div_mod(x / 0x100, 0x100);
    vstd::arithmetic::div_mod::lemma_fundamental_div_mod(x / 0x10000, 0x100);
    vstd::arithmetic::div_mod::lemma_fundamental_div_mod(x / 0x1000000, 0x100);
    vstd::arithmetic::div_mod::lemma_fundamental_div_mod(x / 0x100000000, 0x100);
    vstd::arithmetic::div_mod::lemma_fundamental_div_mod(x / 0x10000000000, 0x100);
    vstd::arithmetic::div_mod::lemma_fundamental_div_mod(x / 0x1000000000000, 0x100);
    vstd::arithmetic::div_mod::lemma_div_denominator(x, 0x100, 0x100);
    vstd::arithmetic::div_mod::lemma_div_denominator(x, 0x10000, 0x100);
    vstd::arithmetic::div_mod::lemma_div_denominator(x, 0x1000000, 0x100);
    vstd::arithmetic::div_mod::lemma_div_denominator(x, 0x100000000, 0x100);
    vstd::arithmetic::div_mod::lemma_div_denominator(x, 0x10000000000, 0x100);
    vstd::arithmetic::div_mod::lemma_div_denominator(x, 0x1000000000000, 0x100);
    assert((x / 0x100) / 0x100 == x / 0x10000);
    assert((x / 0x10000) / 0x100 == x / 0x1000000);
    assert((x / 0x1000000) / 0x100 == x / 0x100000000);
    assert((x / 0x100000000) / 0x100 == x / 0x10000000000);
    assert((x / 0x10000000000) / 0x100 == x / 0x1000000000000);
    assert((x / 0x1000000000000) / 0x100 == x / 0x100000000000000);
}

} // verus!
