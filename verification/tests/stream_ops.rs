use tlv_stream::record::{RawRecord, TypeId, Value, ValueKind};
use tlv_stream::stream::{Entry, Stream};

#[test]
fn type_id_parity() {
    assert!(TypeId(0).is_even());
    assert!(!TypeId(0).is_odd());
    assert!(TypeId(7).is_odd());
    assert!(!TypeId(7).is_even());
    assert!(TypeId(u64::MAX).is_odd());
    assert!(TypeId(u64::MAX - 1).is_even());
}

#[test]
fn new_stream_is_empty() {
    let stream = Stream::new();
    assert_eq!(stream.len(), 0);
    assert!(!stream.contains_key(&TypeId(1)));
}

#[test]
fn insert_reports_whether_key_was_new() {
    let mut stream = Stream::new();
    assert!(stream.insert(TypeId(1), Value::Unsigned(10)));
    assert!(!stream.insert(TypeId(1), Value::Unsigned(20)));
    // the container does not refuse the overwrite: the later value stands
    assert_eq!(stream.len(), 1);
    match stream.get(&TypeId(1), ValueKind::Unsigned) {
        Some(Value::Unsigned(v)) => assert_eq!(*v, 20),
        _ => panic!("overwritten key must hold the newer value"),
    }
}

#[test]
fn entries_are_kept_in_key_order() {
    let mut stream = Stream::new();
    stream.insert(TypeId(5), Value::Unsigned(5));
    stream.insert(TypeId(1), Value::Unsigned(1));
    stream.insert(TypeId(3), Value::Unsigned(3));
    assert_eq!(stream.len(), 3);
    assert_eq!(stream.key_at(0), TypeId(1));
    assert_eq!(stream.key_at(1), TypeId(3));
    assert_eq!(stream.key_at(2), TypeId(5));
}

#[test]
fn contains_key_tracks_inserts() {
    let mut stream = Stream::new();
    assert!(!stream.contains_key(&TypeId(2)));
    stream.insert(TypeId(2), Value::Bytes(vec![1, 2]));
    assert!(stream.contains_key(&TypeId(2)));
    assert!(!stream.contains_key(&TypeId(3)));
}

#[test]
fn get_of_wrong_kind_is_absent_not_an_error() {
    let mut stream = Stream::new();
    stream.insert(TypeId(9), Value::Raw(RawRecord(vec![1, 2, 3])));
    assert!(stream.get(&TypeId(9), ValueKind::Unsigned).is_none());
    assert!(stream.get(&TypeId(9), ValueKind::Bytes).is_none());
    match stream.get(&TypeId(9), ValueKind::Raw) {
        Some(Value::Raw(raw)) => assert_eq!(raw.0, vec![1, 2, 3]),
        _ => panic!("raw lookup of a raw value must succeed"),
    }
    assert!(stream.get(&TypeId(8), ValueKind::Raw).is_none());
}

#[test]
fn entry_names_the_slot() {
    let mut stream = Stream::new();
    stream.insert(TypeId(1), Value::Unsigned(1));
    stream.insert(TypeId(5), Value::Unsigned(5));
    match stream.entry(&TypeId(5)) {
        Entry::Occupied(i) => {
            assert_eq!(stream.key_at(i), TypeId(5));
            match stream.value_at(i) {
                Value::Unsigned(v) => assert_eq!(*v, 5),
                _ => panic!("slot must hold the inserted value"),
            }
        }
        Entry::Vacant(_) => panic!("present key must be occupied"),
    }
    match stream.entry(&TypeId(3)) {
        Entry::Occupied(_) => panic!("absent key must be vacant"),
        Entry::Vacant(i) => assert_eq!(i, 1),
    }
}

#[test]
fn entry_supports_read_modify_insert() {
    let mut stream = Stream::new();
    stream.insert(TypeId(4), Value::Unsigned(40));
    let updated = match stream.entry(&TypeId(4)) {
        Entry::Occupied(i) => match stream.value_at(i) {
            Value::Unsigned(v) => Value::Unsigned(*v + 2),
            _ => panic!("slot must hold an unsigned value"),
        },
        Entry::Vacant(_) => Value::Unsigned(0),
    };
    stream.insert(TypeId(4), updated);
    match stream.get(&TypeId(4), ValueKind::Unsigned) {
        Some(Value::Unsigned(v)) => assert_eq!(*v, 42),
        _ => panic!("merge must have stored the new value"),
    }
}
