use tlv_stream::decoder::{Error, NoDecoders, U64FieldDecoder, Unmarshaller, MSG_MAX_LEN};
use tlv_stream::record::{TypeId, Value, ValueKind};
use tlv_stream::stream::Stream;
use tlv_stream::varint::VarIntError;

/// Canonical BigSize encoding, mirroring the protocol's write side.
fn bigsize(v: u64) -> Vec<u8> {
    if v < 0xfd {
        vec![v as u8]
    } else if v <= 0xffff {
        let mut out = vec![0xfd];
        out.extend_from_slice(&(v as u16).to_be_bytes());
        out
    } else if v <= 0xffff_ffff {
        let mut out = vec![0xfe];
        out.extend_from_slice(&(v as u32).to_be_bytes());
        out
    } else {
        let mut out = vec![0xff];
        out.extend_from_slice(&v.to_be_bytes());
        out
    }
}

fn record(t: u64, payload: &[u8]) -> Vec<u8> {
    let mut out = bigsize(t);
    out.extend_from_slice(&bigsize(payload.len() as u64));
    out.extend_from_slice(payload);
    out
}

fn raw_bytes(stream: &Stream, t: u64) -> Option<Vec<u8>> {
    match stream.get(&TypeId(t), ValueKind::Raw) {
        Some(Value::Raw(raw)) => Some(raw.0.clone()),
        Some(_) => panic!("raw lookup returned another kind"),
        None => None,
    }
}

#[test]
fn empty_source_decodes_to_empty_stream() {
    let u = Unmarshaller::new();
    let stream = u.unmarshall(&[]).expect("empty source must decode");
    assert_eq!(stream.len(), 0);
}

#[test]
fn single_odd_unknown_record_preserved_raw() {
    let u = Unmarshaller::new();
    let data = record(1, b"abc");
    let stream = u.unmarshall(&data).expect("valid stream must decode");
    assert_eq!(stream.len(), 1);
    assert_eq!(raw_bytes(&stream, 1), Some(b"abc".to_vec()));
}

#[test]
fn even_unknown_type_rejected() {
    let u = Unmarshaller::new();
    let data = record(2, b"abc");
    assert_eq!(u.unmarshall(&data).unwrap_err(), Error::EvenUnknownType);
}

#[test]
fn odd_variant_of_even_stream_succeeds_with_same_bytes() {
    let u = Unmarshaller::new();
    let payload = b"payload kept as is";
    let rejected = record(4, payload);
    assert_eq!(u.unmarshall(&rejected).unwrap_err(), Error::EvenUnknownType);
    let accepted = record(5, payload);
    let stream = u.unmarshall(&accepted).expect("odd unknown type must decode");
    assert_eq!(raw_bytes(&stream, 5), Some(payload.to_vec()));
}

#[test]
fn duplicate_type_id_rejected() {
    let u = Unmarshaller::new();
    let mut data = record(3, b"x");
    data.extend_from_slice(&record(3, b"y"));
    assert_eq!(u.unmarshall(&data).unwrap_err(), Error::DuplicateItem);
}

#[test]
fn decreasing_type_ids_rejected() {
    let u = Unmarshaller::new();
    let mut data = record(5, b"x");
    data.extend_from_slice(&record(3, b"y"));
    assert_eq!(u.unmarshall(&data).unwrap_err(), Error::WrongOrder);
}

#[test]
fn oversized_length_rejected_before_reading_payload() {
    let u = Unmarshaller::new();
    let mut data = bigsize(1);
    data.extend_from_slice(&bigsize((MSG_MAX_LEN as u64) + 1));
    // no payload bytes at all: the length check must fire first
    assert_eq!(u.unmarshall(&data).unwrap_err(), Error::OversizedLength);
}

#[test]
fn largest_permitted_length_is_not_oversized() {
    let u = Unmarshaller::new();
    let payload = vec![0xa5u8; MSG_MAX_LEN];
    let data = record(7, &payload);
    let stream = u.unmarshall(&data).expect("ceiling-sized record must decode");
    assert_eq!(raw_bytes(&stream, 7), Some(payload));
}

#[test]
fn truncated_record_rejected() {
    let u = Unmarshaller::new();
    let mut data = bigsize(1);
    data.extend_from_slice(&bigsize(5));
    data.extend_from_slice(b"abc");
    assert_eq!(u.unmarshall(&data).unwrap_err(), Error::TruncatedRecord);
}

#[test]
fn non_minimal_type_varint_rejected() {
    let u = Unmarshaller::new();
    // 0x10 encoded in three bytes instead of one
    let data = vec![0xfd, 0x00, 0x10];
    assert_eq!(
        u.unmarshall(&data).unwrap_err(),
        Error::MalformedVarInt(VarIntError::InvalidValue)
    );
}

#[test]
fn type_varint_cut_short_rejected() {
    let u = Unmarshaller::new();
    // announces a 16-bit value but only one byte follows
    let data = vec![0xfd, 0x01];
    assert_eq!(
        u.unmarshall(&data).unwrap_err(),
        Error::MalformedVarInt(VarIntError::ShortRead)
    );
}

#[test]
fn length_varint_missing_rejected() {
    let u = Unmarshaller::new();
    // a type id and then nothing: the length field itself is absent
    let data = bigsize(9);
    assert_eq!(
        u.unmarshall(&data).unwrap_err(),
        Error::MalformedVarInt(VarIntError::ShortRead)
    );
}

#[test]
fn valid_stream_keeps_all_records_in_order() {
    let u = Unmarshaller::new();
    let mut data = record(1, b"one");
    data.extend_from_slice(&record(3, b""));
    data.extend_from_slice(&record(0xfd, b"third"));
    let stream = u.unmarshall(&data).expect("valid stream must decode");
    assert_eq!(stream.len(), 3);
    assert_eq!(stream.key_at(0), TypeId(1));
    assert_eq!(stream.key_at(1), TypeId(3));
    assert_eq!(stream.key_at(2), TypeId(0xfd));
    assert_eq!(raw_bytes(&stream, 1), Some(b"one".to_vec()));
    assert_eq!(raw_bytes(&stream, 3), Some(Vec::new()));
    assert_eq!(raw_bytes(&stream, 0xfd), Some(b"third".to_vec()));
    assert_eq!(raw_bytes(&stream, 2), None);
}

#[test]
fn decode_is_deterministic() {
    let u = Unmarshaller::new();
    let mut data = record(1, b"one");
    data.extend_from_slice(&record(5, b"five"));
    let first = u.unmarshall(&data).expect("valid stream must decode");
    let second = u.unmarshall(&data).expect("valid stream must decode");
    assert_eq!(first.len(), second.len());
    for i in 0..first.len() {
        assert_eq!(first.key_at(i), second.key_at(i));
        let t = first.key_at(i).0;
        assert_eq!(raw_bytes(&first, t), raw_bytes(&second, t));
    }
}

#[test]
fn known_type_decoded_as_unsigned() {
    let registry = U64FieldDecoder { types: vec![2] };
    let u = Unmarshaller::with_registry(registry);
    let value: u64 = 0x0102_0304_0506_0708;
    let data = record(2, &value.to_be_bytes());
    let stream = u.unmarshall(&data).expect("known-type record must decode");
    match stream.get(&TypeId(2), ValueKind::Unsigned) {
        Some(Value::Unsigned(v)) => assert_eq!(*v, value),
        _ => panic!("known type must decode to an unsigned value"),
    }
    // a known even type is fine: the parity rule is only for unknown types
    assert_eq!(stream.len(), 1);
}

#[test]
fn known_type_with_wrong_length_rejected() {
    let registry = U64FieldDecoder { types: vec![2] };
    let u = Unmarshaller::with_registry(registry);
    let data = record(2, b"1234");
    assert_eq!(u.unmarshall(&data).unwrap_err(), Error::FixedLengthMismatch);
}

#[test]
fn known_and_unknown_records_mix() {
    let registry = U64FieldDecoder { types: vec![2] };
    let u = Unmarshaller::with_registry(registry);
    let mut data = record(2, &7u64.to_be_bytes());
    data.extend_from_slice(&record(3, b"raw"));
    let stream = u.unmarshall(&data).expect("mixed stream must decode");
    assert_eq!(stream.len(), 2);
    match stream.get(&TypeId(2), ValueKind::Unsigned) {
        Some(Value::Unsigned(v)) => assert_eq!(*v, 7),
        _ => panic!("known type must decode to an unsigned value"),
    }
    assert_eq!(raw_bytes(&stream, 3), Some(b"raw".to_vec()));
}

#[test]
fn no_decoders_registry_knows_nothing() {
    // under the empty registry even a well-shaped eight-byte record of an
    // even type is an unknown even type
    let u = Unmarshaller::<NoDecoders>::new();
    let data = record(2, &7u64.to_be_bytes());
    assert_eq!(u.unmarshall(&data).unwrap_err(), Error::EvenUnknownType);
}
