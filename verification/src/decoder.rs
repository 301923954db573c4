//! The decode loop: a single pass over a byte slice that reads records,
//! enforces the stream rules, dispatches known types to their registered
//! decoders, preserves permitted unknown records raw, and builds a `Stream`.

use vstd::prelude::*;

use crate::record::{RawRecord, TypeId, Value, ValueView};
use crate::stream::{seq_contains_key, Stream};
use crate::varint::{
    be64, bigsize_len, lemma_bigsize_ok_len, read_bigsize, spec_bigsize, spec_bigsize_len,
    VarIntError,
};

verus! {

/// The largest payload length a record may declare: the message-size ceiling
/// of the governing protocol. Checked before any buffer is allocated, so a
/// forged length field cannot force a huge allocation.
pub const MSG_MAX_LEN: usize = 65535;

/// Why a stream failed to decode. Every kind is stream-fatal: the first
/// failure ends the call and no partial stream is exposed.
#[derive(Clone, Copy, Debug, PartialEq, Eq, Structural)]
pub enum Error {
    /// A type or length field was not a well-formed canonical
    /// variable-length integer; carries the integer reader's failure.
    MalformedVarInt(VarIntError),
    /// A type id was smaller than the previously accepted one.
    WrongOrder,
    /// A type id repeated within one stream.
    DuplicateItem,
    /// An unrecognized type id with even parity: mandatory to understand.
    EvenUnknownType,
    /// A declared record length exceeded the fixed ceiling.
    OversizedLength,
    /// Fewer bytes remained than a record's declared length.
    TruncatedRecord,
    /// A known-type decoder found a length other than its fixed encoding's.
    FixedLengthMismatch,
}

/// The registry of known-type decoders: which type ids it understands and
/// what value each one's bytes decode to. Implementations supply the decode
/// functions a stream is interpreted with; the registry is built before
/// decoding and read-only during it.
pub trait FieldDecoder {
    /// Whether this registry understands the type id.
    spec fn knows(&self, type_id: u64) -> bool;

    /// The value and consumed byte count this registry's decoder yields on
    /// the given remaining input, or the error it raises.
    spec fn model(&self, type_id: u64, s: Seq<u8>) -> Result<(ValueView, int), Error>;

    /// A decoder never consumes more bytes than it is given.
    proof fn model_consumes(&self, type_id: u64, s: Seq<u8>)
        ensures
            self.model(type_id, s) matches Ok(vn) ==> 0 <= vn.1 <= s.len(),
    ;

    /// Whether this registry understands the type id.
    fn knows_type(&self, type_id: &TypeId) -> (b: bool)
        ensures
            b == self.knows(type_id.0),
    ;

    /// Decode one known-type record from `data` starting at `pos`, returning
    /// the value and the position just past the record.
    fn decode(&self, type_id: &TypeId, data: &[u8], pos: usize) -> (r: Result<(Value, usize), Error>)
        requires
            self.knows(type_id.0),
            pos <= data@.len(),
        ensures
            ({
                let m = self.model(type_id.0, data@.skip(pos as int));
                match m {
                    Ok(vn) => match r {
                        Ok(p) => p.0@ == vn.0 && p.1 == pos + vn.1,
                        Err(_) => false,
                    },
                    Err(e) => match r {
                        Ok(_) => false,
                        Err(e2) => e2 == e,
                    },
                }
            }),
    ;
}

/// A registry that understands no type at all: every record falls to the
/// unknown-type policy.
#[derive(Clone, Copy, Debug, PartialEq, Eq, Structural)]
pub struct NoDecoders;

impl FieldDecoder for NoDecoders {
    open spec fn knows(&self, type_id: u64) -> bool {
        false
    }

    open spec fn model(&self, type_id: u64, s: Seq<u8>) -> Result<(ValueView, int), Error> {
        Err(Error::FixedLengthMismatch)
    }

    proof fn model_consumes(&self, type_id: u64, s: Seq<u8>) {
    }

    fn knows_type(&self, type_id: &TypeId) -> (b: bool) {
        false
    }

    fn decode(&self, type_id: &TypeId, data: &[u8], pos: usize) -> (r: Result<
        (Value, usize),
        Error,
    >) {
        Err(Error::FixedLengthMismatch)
    }
}

/// A registry whose known types all use one fixed encoding: a declared
/// length of exactly eight bytes holding a big-endian unsigned integer.
#[derive(Clone, Debug)]
pub struct U64FieldDecoder {
    /// The type ids this registry understands.
    pub types: Vec<u64>,
}

impl FieldDecoder for U64FieldDecoder {
    open spec fn knows(&self, type_id: u64) -> bool {
        self.types@.contains(type_id)
    }

    open spec fn model(&self, type_id: u64, s: Seq<u8>) -> Result<(ValueView, int), Error> {
        match spec_bigsize(s) {
            Err(e) => Err(Error::MalformedVarInt(e)),
            Ok(len) => {
                let llen = spec_bigsize_len(s[0]);
                if len != 8 {
                    Err(Error::FixedLengthMismatch)
                } else if s.len() < llen + 8 {
                    Err(Error::TruncatedRecord)
                } else {
                    Ok(
                        (
                            ValueView::Unsigned(
                                be64(
                                    s[llen],
                                    s[llen + 1],
                                    s[llen + 2],
                                    s[llen + 3],
                                    s[llen + 4],
                                    s[llen + 5],
                                    s[llen + 6],
                                    s[llen + 7],
                                ) as u64,
                            ),
                            llen + 8,
                        ),
                    )
                }
            },
        }
    }

    proof fn model_consumes(&self, type_id: u64, s: Seq<u8>) {
        if self.model(type_id, s) is Ok {
            lemma_bigsize_ok_len(s);
        }
    }

    fn knows_type(&self, type_id: &TypeId) -> (b: bool) {
        let mut i: usize = 0;
        while i < self.types.len()
            invariant
                i <= self.types@.len(),
                forall|k: int| 0 <= k < i ==> self.types@[k] != type_id.0,
            decreases self.types@.len() - i,
        {
            if self.types[i] == type_id.0 {
                return true;
            }
            i = i + 1;
        }
        false
    }

    fn decode(&self, type_id: &TypeId, data: &[u8], pos: usize) -> (r: Result<
        (Value, usize),
        Error,
    >) {
        let ghost s = data@.skip(pos as int);
        match read_bigsize(data, pos) {
            Err(e) => Err(Error::MalformedVarInt(e)),
            Ok(len) => {
                proof {
                    lemma_bigsize_ok_len(s);
                }
                let llen = bigsize_len(data[pos]);
                if len != 8 {
                    Err(Error::FixedLengthMismatch)
                } else if data.len() - (pos + llen) < 8 {
                    Err(Error::TruncatedRecord)
                } else {
                    let start = pos + llen;
                    let value = (data[start] as u64) * 0x100000000000000 + (data[start + 1]
                        as u64) * 0x1000000000000 + (data[start + 2] as u64) * 0x10000000000 + (
                    data[start + 3] as u64) * 0x100000000 + (data[start + 4] as u64) * 0x1000000 + (
                    data[start + 5] as u64) * 0x10000 + (data[start + 6] as u64) * 0x100 + (
                    data[start + 7] as u64);
                    Ok((Value::Unsigned(value), start + 8))
                }
            },
        }
    }
}

/// The outcome of raw-record parsing on the given remaining input: the
/// preserved payload and the bytes consumed, or the failure.
pub open spec fn spec_raw_record(s: Seq<u8>) -> Result<(Seq<u8>, int), Error> {
    match spec_bigsize(s) {
        Err(e) => Err(Error::MalformedVarInt(e)),
        Ok(len) => {
            let llen = spec_bigsize_len(s[0]);
            if len > MSG_MAX_LEN as u64 {
                Err(Error::OversizedLength)
            } else if s.len() < llen + len {
                Err(Error::TruncatedRecord)
            } else {
                Ok((s.subrange(llen, llen + len), llen + len))
            }
        },
    }
}

/// The outcome of decoding the stream whose remaining bytes are `s`, when
/// the previously accepted type id is `prev` and the records accepted so far
/// are `acc`: the full ordered record sequence, or the first failure.
pub open spec fn spec_decode_from<D: FieldDecoder>(
    d: D,
    s: Seq<u8>,
    prev: u64,
    acc: Seq<(u64, ValueView)>,
) -> Result<Seq<(u64, ValueView)>, Error>
    decreases s.len(),
{
    match spec_bigsize(s) {
        Err(VarIntError::ShortRead) => if s.len() == 0 {
            Ok(acc)
        } else {
            Err(Error::MalformedVarInt(VarIntError::ShortRead))
        },
        Err(e) => Err(Error::MalformedVarInt(e)),
        Ok(t) => {
            let tlen = spec_bigsize_len(s[0]);
            if s.len() < tlen {
                // cannot happen: a successful read fits inside `s`
                Err(Error::MalformedVarInt(VarIntError::ShortRead))
            } else {
                let rest = s.skip(tlen);
                if t < prev {
                    Err(Error::WrongOrder)
                } else if seq_contains_key(acc, t) {
                    Err(Error::DuplicateItem)
                } else if d.knows(t) {
                    match d.model(t, rest) {
                        Ok(vn) => if 0 <= vn.1 <= rest.len() {
                            spec_decode_from(d, rest.skip(vn.1), t, acc.push((t, vn.0)))
                        } else {
                            // cannot happen: a decoder never consumes more
                            // than it is given
                            Err(Error::TruncatedRecord)
                        },
                        Err(e) => Err(e),
                    }
                } else if t % 2 == 0 {
                    Err(Error::EvenUnknownType)
                } else {
                    match spec_raw_record(rest) {
                        Ok(bn) => if 0 <= bn.1 <= rest.len() {
                            spec_decode_from(
                                d,
                                rest.skip(bn.1),
                                t,
                                acc.push((t, ValueView::Raw(bn.0))),
                            )
                        } else {
                            // cannot happen: raw parsing consumes only
                            // bytes that are present
                            Err(Error::TruncatedRecord)
                        },
                        Err(e) => Err(e),
                    }
                }
            }
        },
    }
}

/// Decodes TLV streams against a fixed registry of known-type decoders,
/// with raw preservation as the fallback for permitted unknown types.
pub struct Unmarshaller<D: FieldDecoder> {
    known_types: D,
}

impl Unmarshaller<NoDecoders> {
    /// An unmarshaller that knows no types: every record is handled by the
    /// unknown-type policy.
    pub fn new() -> (u: Self)
        ensures
            u.registry() == NoDecoders,
    {
        Unmarshaller { known_types: NoDecoders }
    }
}

impl<D: FieldDecoder> Unmarshaller<D> {
    /// The registry this unmarshaller decodes with.
    pub closed spec fn registry(&self) -> D {
        self.known_types
    }

    /// An unmarshaller bound to a registry of known-type decoders, built
    /// before any stream is decoded.
    pub fn with_registry(known_types: D) -> (u: Self)
        ensures
            u.registry() == known_types,
    {
        Unmarshaller { known_types }
    }

    /// Decode one complete TLV stream from `data`.
    ///
    /// Runs to clean end of input or first failure: the result is exactly
    /// what `spec_decode_from` says of the bytes and the registry, so equal
    /// inputs always decode to equal outcomes.
    pub fn unmarshall(&self, data: &[u8]) -> (r: Result<Stream, Error>)
        ensures
            ({
                let outcome = spec_decode_from(self.registry(), data@, 0, Seq::empty());
                match r {
                    Ok(stream) => outcome == Ok::<Seq<(u64, ValueView)>, Error>(stream@)
                        && stream.wf(),
                    Err(e) => outcome == Err::<Seq<(u64, ValueView)>, Error>(e),
                }
            }),
    {
        let mut tlv = Stream::new();
        let mut prev: u64 = 0;
        let mut pos: usize = 0;
        proof {
            assert(data@.skip(0) =~= data@);
        }
        loop
            invariant
                pos <= data@.len(),
                tlv.wf(),
                forall|i: int| #![trigger tlv@[i]] 0 <= i < tlv@.len() ==> tlv@[i].0 <= prev,
                spec_decode_from(self.registry(), data@.skip(pos as int), prev, tlv@)
                    == spec_decode_from(self.registry(), data@, 0, Seq::empty()),
            decreases data@.len() - pos,
        {
            let ghost s = data@.skip(pos as int);
            match read_bigsize(data, pos) {
                Err(VarIntError::ShortRead) => {
                    if pos == data.len() {
                        return Ok(tlv);
                    } else {
                        return Err(Error::MalformedVarInt(VarIntError::ShortRead));
                    }
                },
                Err(e) => {
                    return Err(Error::MalformedVarInt(e));
                },
                Ok(t) => {
                    proof {
                        lemma_bigsize_ok_len(s);
                    }
                    let tlen = bigsize_len(data[pos]);
                    let after_type = pos + tlen;
                    proof {
                        assert(s.skip(tlen as int) =~= data@.skip(after_type as int));
                    }
                    let type_id = TypeId(t);
                    if t < prev {
                        return Err(Error::WrongOrder);
                    }
                    if tlv.contains_key(&type_id) {
                        return Err(Error::DuplicateItem);
                    }
                    let decoded: (Value, usize) = if self.known_types.knows_type(&type_id) {
                        proof {
                            self.known_types.model_consumes(t, data@.skip(after_type as int));
                        }
                        match self.known_types.decode(&type_id, data, after_type) {
                            Ok(p) => p,
                            Err(e) => {
                                return Err(e);
                            },
                        }
                    } else if type_id.is_even() {
                        return Err(Error::EvenUnknownType);
                    } else {
                        match Self::raw_parser(data, after_type) {
                            Ok(p) => p,
                            Err(e) => {
                                return Err(e);
                            },
                        }
                    };
                    let (value, next) = decoded;
                    proof {
                        assert(data@.skip(after_type as int).skip((next - after_type) as int)
                            =~= data@.skip(next as int));
                        assert(forall|i: int|
                            #![trigger tlv@[i]]
                            0 <= i < tlv@.len() ==> tlv@[i].0 < t);
                    }
                    tlv.insert(type_id, value);
                    prev = t;
                    pos = next;
                }
            }
        }
    }

    /// Parse one permitted unknown record: read its declared length, refuse
    /// an oversized or truncated payload, and preserve the payload raw.
    fn raw_parser(data: &[u8], pos: usize) -> (r: Result<(Value, usize), Error>)
        requires
            pos <= data@.len(),
        ensures
            ({
                let m = spec_raw_record(data@.skip(pos as int));
                match m {
                    Ok(bn) => match r {
                        Ok(p) => p.0@ == ValueView::Raw(bn.0) && p.1 == pos + bn.1,
                        Err(_) => false,
                    },
                    Err(e) => match r {
                        Ok(_) => false,
                        Err(e2) => e2 == e,
                    },
                }
            }),
    {
        let ghost s = data@.skip(pos as int);
        match read_bigsize(data, pos) {
            Err(e) => Err(Error::MalformedVarInt(e)),
            Ok(len64) => {
                proof {
                    lemma_bigsize_ok_len(s);
                }
                let llen = bigsize_len(data[pos]);
                if len64 > MSG_MAX_LEN as u64 {
                    return Err(Error::OversizedLength);
                }
                let len = len64 as usize;
                let start = pos + llen;
                if data.len() - start < len {
                    return Err(Error::TruncatedRecord);
                }
                let buf = vstd::slice::slice_to_vec(
                    vstd::slice::slice_subrange(data, start, start + len),
                );
                proof {
                    assert(buf@ =~= s.subrange(llen as int, llen + len));
                }
                Ok((Value::Raw(RawRecord(buf)), start + len))
            },
        }
    }
}

} // verus!
