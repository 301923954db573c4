//! Stream-level laws: what decoding guarantees on canonically encoded
//! streams — acceptance and raw preservation of valid streams, and the
//! precise failure each stream-rule violation produces.

use vstd::prelude::*;

use crate::decoder::{
    spec_decode_from, spec_raw_record, Error, FieldDecoder, U64FieldDecoder, MSG_MAX_LEN,
};
use crate::record::ValueView;
use crate::stream::seq_contains_key;
use crate::varint::{
    be64, lemma_be64_decompose, lemma_bigsize_roundtrip, spec_bigsize, spec_bigsize_encode,
    VarIntError,
};

verus! {

/// The canonical encoding of one record: type id, payload length, payload.
pub open spec fn spec_encode_record(t: u64, payload: Seq<u8>) -> Seq<u8> {
    spec_bigsize_encode(t) + spec_bigsize_encode(payload.len() as u64) + payload
}

/// The canonical encoding of a sequence of records.
pub open spec fn spec_encode_records(records: Seq<(u64, Seq<u8>)>) -> Seq<u8>
    decreases records.len(),
{
    if records.len() == 0 {
        Seq::empty()
    } else {
        spec_encode_record(records[0].0, records[0].1) + spec_encode_records(records.skip(1))
    }
}

/// The record sequence that preserves each payload as a raw value.
pub open spec fn raw_views(records: Seq<(u64, Seq<u8>)>) -> Seq<(u64, ValueView)> {
    records.map(|i: int, r: (u64, Seq<u8>)| (r.0, ValueView::Raw(r.1)))
}

/// A stream of records is decodable raw: every type id unknown to the
/// registry and odd, every payload within the ceiling, type ids strictly
/// increasing.
pub open spec fn raw_decodable<D: FieldDecoder>(d: D, records: Seq<(u64, Seq<u8>)>) -> bool {
    &&& forall|i: int| #![trigger records[i]] 0 <= i < records.len() ==> !d.knows(records[i].0)
    &&& forall|i: int| #![trigger records[i]] 0 <= i < records.len() ==> records[i].0 % 2 == 1
    &&& forall|i: int|
        #![trigger records[i]]
        0 <= i < records.len() ==> records[i].1.len() <= MSG_MAX_LEN
    &&& forall|i: int, j: int|
        #![trigger records[i], records[j]]
        0 <= i < j < records.len() ==> records[i].0 < records[j].0
}

/// Parsing an encoded raw record yields exactly the payload and consumes
/// exactly the length field and the payload.
pub proof fn lemma_raw_record_roundtrip(payload: Seq<u8>, rest: Seq<u8>)
    requires
        payload.len() <= MSG_MAX_LEN,
    ensures
        ({
            let s = spec_bigsize_encode(payload.len() as u64) + payload + rest;
            &&& spec_raw_record(s) == Ok::<(Seq<u8>, int), Error>(
                (payload, s.len() - rest.len()),
            )
            &&& s.skip(s.len() - rest.len()) == rest
        }),
{
    let n = payload.len() as u64;
    let e = spec_bigsize_encode(n);
    let tail = payload + rest;
    lemma_bigsize_roundtrip(n, tail);
    let s = e + payload + rest;
    assert(s =~= e + tail);
    assert(spec_bigsize(s) == Ok::<u64, VarIntError>(n));
    assert(s.subrange(e.len() as int, e.len() + n) =~= payload);
    assert(s.skip(s.len() - rest.len()) =~= rest);
}

/// Decoding an encoded run of raw-decodable records accepts them all,
/// preserves each payload raw, and continues on the remaining bytes with the
/// last accepted type id as the new baseline.
pub proof fn lemma_decode_raw_records<D: FieldDecoder>(
    d: D,
    records: Seq<(u64, Seq<u8>)>,
    extra: Seq<u8>,
    prev: u64,
    acc: Seq<(u64, ValueView)>,
)
    requires
        raw_decodable(d, records),
        records.len() > 0 ==> prev <= records[0].0,
        forall|i: int|
            #![trigger records[i]]
            0 <= i < records.len() ==> !seq_contains_key(acc, records[i].0),
    ensures
        spec_decode_from(d, spec_encode_records(records) + extra, prev, acc) == spec_decode_from(
            d,
            extra,
            if records.len() == 0 {
                prev
            } else {
                records[records.len() - 1].0
            },
            acc + raw_views(records),
        ),
    decreases records.len(),
{
    if records.len() == 0 {
        assert(spec_encode_records(records) + extra =~= extra);
        assert(acc + raw_views(records) =~= acc);
    } else {
        let t = records[0].0;
        let payload = records[0].1;
        let rest_records = records.skip(1);
        let enc_rest = spec_encode_records(rest_records) + extra;
        let tail = spec_bigsize_encode(payload.len() as u64) + payload + enc_rest;
        let s = spec_encode_records(records) + extra;
        assert(s =~= spec_bigsize_encode(t) + tail);
        lemma_bigsize_roundtrip(t, tail);
        assert(spec_bigsize(s) == Ok::<u64, VarIntError>(t));
        let tlen = spec_bigsize_encode(t).len() as int;
        assert(s.skip(tlen) == tail);
        assert(!seq_contains_key(acc, t));
        lemma_raw_record_roundtrip(payload, enc_rest);
        let consumed = tail.len() - enc_rest.len();
        assert(spec_raw_record(tail) == Ok::<(Seq<u8>, int), Error>((payload, consumed)));
        assert(tail.skip(consumed) == enc_rest);
        let acc2 = acc.push((t, ValueView::Raw(payload)));
        assert forall|i: int|
            #![trigger rest_records[i]]
            0 <= i < rest_records.len() implies !seq_contains_key(
            acc2,
            rest_records[i].0,
        ) && rest_records[i].1.len() <= MSG_MAX_LEN && !d.knows(rest_records[i].0)
            && rest_records[i].0 % 2 == 1 by {
            assert(rest_records[i] == records[i + 1]);
            let u = records[i + 1].0;
            assert(records[0].0 < records[i + 1].0);
            if seq_contains_key(acc2, u) {
                let j = choose|j: int| 0 <= j < acc2.len() && #[trigger] acc2[j].0 == u;
                if j < acc.len() {
                    assert(acc[j].0 == u);
                    assert(seq_contains_key(acc, u));
                } else {
                    assert(acc2[j].0 == t);
                }
                assert(false);
            }
        }
        assert forall|i: int, j: int|
            #![trigger rest_records[i], rest_records[j]]
            0 <= i < j < rest_records.len() implies rest_records[i].0 < rest_records[j].0 by {
            assert(rest_records[i] == records[i + 1]);
            assert(rest_records[j] == records[j + 1]);
        }
        lemma_decode_raw_records(d, rest_records, extra, t, acc2);
        assert(acc2 + raw_views(rest_records) =~= acc + raw_views(records));
        if rest_records.len() == 0 {
            assert(records[records.len() - 1].0 == t);
        } else {
            assert(rest_records[rest_records.len() - 1] == records[records.len() - 1]);
        }
        assert(spec_decode_from(d, s, prev, acc) == spec_decode_from(
            d,
            tail.skip(consumed),
            t,
            acc2,
        ));
    }
}

/// A valid stream — strictly increasing odd type ids unknown to the
/// registry, canonical encodings, payloads within the ceiling — decodes to
/// exactly those type ids, each payload preserved bit-for-bit as a raw
/// record.
pub proof fn lemma_decode_valid_stream<D: FieldDecoder>(d: D, records: Seq<(u64, Seq<u8>)>)
    requires
        raw_decodable(d, records),
    ensures
        spec_decode_from(d, spec_encode_records(records), 0, Seq::empty()) == Ok::<
            Seq<(u64, ValueView)>,
            Error,
        >(raw_views(records)),
{
    lemma_decode_raw_records(d, records, Seq::empty(), 0, Seq::empty());
    assert(spec_encode_records(records) + Seq::<u8>::empty() =~= spec_encode_records(records));
    assert(Seq::<(u64, ValueView)>::empty() + raw_views(records) =~= raw_views(records));
}

/// A type id that repeats the last accepted one fails the stream with
/// `DuplicateItem` — before its length or payload is even read, so whatever
/// bytes follow and whatever decoders would apply to that type.
pub proof fn lemma_duplicate_item<D: FieldDecoder>(
    d: D,
    records: Seq<(u64, Seq<u8>)>,
    suffix: Seq<u8>,
)
    requires
        raw_decodable(d, records),
        records.len() > 0,
    ensures
        spec_decode_from(
            d,
            spec_encode_records(records) + (spec_bigsize_encode(records[records.len() - 1].0)
                + suffix),
            0,
            Seq::empty(),
        ) == Err::<Seq<(u64, ValueView)>, Error>(Error::DuplicateItem),
{
    let t = records[records.len() - 1].0;
    let extra = spec_bigsize_encode(t) + suffix;
    lemma_decode_raw_records(d, records, extra, 0, Seq::empty());
    let views = Seq::<(u64, ValueView)>::empty() + raw_views(records);
    lemma_bigsize_roundtrip(t, suffix);
    assert(views[records.len() - 1].0 == t);
    assert(seq_contains_key(views, t));
}

/// A record with an unknown even type id fails the stream with
/// `EvenUnknownType`, whatever bytes follow.
pub proof fn lemma_even_unknown_type<D: FieldDecoder>(d: D, t: u64, suffix: Seq<u8>)
    requires
        t % 2 == 0,
        !d.knows(t),
    ensures
        spec_decode_from(d, spec_bigsize_encode(t) + suffix, 0, Seq::empty()) == Err::<
            Seq<(u64, ValueView)>,
            Error,
        >(Error::EvenUnknownType),
{
    lemma_bigsize_roundtrip(t, suffix);
}

/// A declared length above the ceiling fails the stream with
/// `OversizedLength`, whether or not that many bytes follow: the payload is
/// never read.
pub proof fn lemma_oversized_length<D: FieldDecoder>(d: D, t: u64, len: u64, suffix: Seq<u8>)
    requires
        t % 2 == 1,
        !d.knows(t),
        len > MSG_MAX_LEN,
    ensures
        spec_decode_from(
            d,
            spec_bigsize_encode(t) + (spec_bigsize_encode(len) + suffix),
            0,
            Seq::empty(),
        ) == Err::<Seq<(u64, ValueView)>, Error>(Error::OversizedLength),
{
    let tail = spec_bigsize_encode(len) + suffix;
    lemma_bigsize_roundtrip(t, tail);
    lemma_bigsize_roundtrip(len, suffix);
}

/// A record declaring more payload bytes than remain in the source fails
/// the stream with `TruncatedRecord`.
pub proof fn lemma_truncated_record<D: FieldDecoder>(d: D, t: u64, len: u64, payload: Seq<u8>)
    requires
        t % 2 == 1,
        !d.knows(t),
        len <= MSG_MAX_LEN,
        payload.len() < len,
    ensures
        spec_decode_from(
            d,
            spec_bigsize_encode(t) + (spec_bigsize_encode(len) + payload),
            0,
            Seq::empty(),
        ) == Err::<Seq<(u64, ValueView)>, Error>(Error::TruncatedRecord),
{
    let tail = spec_bigsize_encode(len) + payload;
    lemma_bigsize_roundtrip(t, tail);
    lemma_bigsize_roundtrip(len, payload);
}

/// The eight big-endian bytes of an unsigned 64-bit value: the payload a
/// conformant encoder writes for a known type with the fixed eight-byte
/// encoding.
pub open spec fn spec_be64_encode(v: u64) -> Seq<u8> {
    seq![
        (v / 0x100000000000000) as u8,
        ((v / 0x1000000000000) % 0x100) as u8,
        ((v / 0x10000000000) % 0x100) as u8,
        ((v / 0x100000000) % 0x100) as u8,
        ((v / 0x1000000) % 0x100) as u8,
        ((v / 0x10000) % 0x100) as u8,
        ((v / 0x100) % 0x100) as u8,
        (v % 0x100) as u8,
    ]
}

/// Round-trip for a known-type record: a record that canonically encodes an
/// unsigned 64-bit value under a type id the registry knows decodes back to
/// exactly that value.
pub proof fn lemma_known_u64_roundtrip(registry: U64FieldDecoder, t: u64, v: u64)
    requires
        registry.knows(t),
    ensures
        spec_decode_from(registry, spec_encode_record(t, spec_be64_encode(v)), 0, Seq::empty())
            == Ok::<Seq<(u64, ValueView)>, Error>(seq![(t, ValueView::Unsigned(v))]),
{
    let payload = spec_be64_encode(v);
    let tail = spec_bigsize_encode(8) + payload;
    let s = spec_encode_record(t, payload);
    assert(s =~= spec_bigsize_encode(t) + tail);
    lemma_bigsize_roundtrip(t, tail);
    assert(spec_bigsize(s) == Ok::<u64, VarIntError>(t));
    let tlen = spec_bigsize_encode(t).len() as int;
    assert(s.skip(tlen) == tail);
    assert(tail[0] == 8u8);
    assert(spec_bigsize(tail) == Ok::<u64, VarIntError>(8));
    assert(be64(tail[1], tail[2], tail[3], tail[4], tail[5], tail[6], tail[7], tail[8]) == v) by {
        lemma_be64_decompose(v);
    };
    assert(registry.model(t, tail) == Ok::<(ValueView, int), Error>(
        (ValueView::Unsigned(v), 9int),
    ));
    assert(tail.skip(9) =~= Seq::<u8>::empty());
    let acc2 = Seq::<(u64, ValueView)>::empty().push((t, ValueView::Unsigned(v)));
    assert(acc2 =~= seq![(t, ValueView::Unsigned(v))]);
    assert(spec_decode_from(registry, Seq::<u8>::empty(), t, acc2) == Ok::<
        Seq<(u64, ValueView)>,
        Error,
    >(acc2));
    assert(spec_decode_from(registry, s, 0, Seq::empty()) == spec_decode_from(
        registry,
        tail.skip(9),
        t,
        acc2,
    ));
}

/// An empty byte source decodes to an empty stream, with no error.
pub proof fn lemma_empty_source<D: FieldDecoder>(d: D)
    ensures
        spec_decode_from(d, Seq::empty(), 0, Seq::empty()) == Ok::<Seq<(u64, ValueView)>, Error>(
            Seq::empty(),
        ),
{
}

/// Decoding is deterministic: the same bytes with the same registry decode
/// to the same stream or the same error — `unmarshall`'s contract equates
/// its result with this one outcome.
pub proof fn lemma_decode_deterministic<D: FieldDecoder>(d: D, first: Seq<u8>, second: Seq<u8>)
    requires
        first == second,
    ensures
        spec_decode_from(d, first, 0, Seq::empty()) == spec_decode_from(d, second, 0, Seq::empty()),
{
}

} // verus!
