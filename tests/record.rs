use swarm_core::record::{DecodeError, Record, UnknownField};

fn full_record() -> Record {
    let mut r = Record::new();
    r.set_key("k".to_string());
    r.set_value(vec![0xde, 0xad]);
    r.set_author("a".to_string());
    r.set_signature(vec![0xbe, 0xef]);
    r.set_timeReceived("t".to_string());
    r
}

#[test]
fn five_field_record_round_trips() {
    let r = full_record();
    let bytes = r.write_to_bytes();
    assert_eq!(
        bytes,
        vec![
            0x0a, 0x01, b'k', 0x12, 0x02, 0xde, 0xad, 0x1a, 0x01, b'a', 0x22, 0x02, 0xbe, 0xef,
            0x2a, 0x01, b't'
        ]
    );
    assert_eq!(r.compute_size(), 17);
    assert_eq!(Record::parse_from_bytes(&bytes), Ok(r));
}

#[test]
fn every_subset_of_fields_round_trips() {
    for mask in 0u32..32 {
        let mut r = full_record();
        if mask & 1 != 0 {
            r.clear_key();
        }
        if mask & 2 != 0 {
            r.clear_value();
        }
        if mask & 4 != 0 {
            r.clear_author();
        }
        if mask & 8 != 0 {
            r.clear_signature();
        }
        if mask & 16 != 0 {
            r.clear_timeReceived();
        }
        let bytes = r.write_to_bytes();
        assert_eq!(Record::parse_from_bytes(&bytes), Ok(r));
    }
}

#[test]
fn empty_record_encodes_to_nothing() {
    let r = Record::new();
    assert_eq!(r.write_to_bytes(), Vec::<u8>::new());
    assert_eq!(Record::parse_from_bytes(&[]), Ok(Record::new()));
}

#[test]
fn unknown_field_is_kept_and_written_again() {
    // field 1 = "k", field 99 = varint 42
    let wire = vec![0x0a, 0x01, b'k', 0x98, 0x06, 0x2a];
    let r = Record::parse_from_bytes(&wire).unwrap();
    assert_eq!(r.get_key(), "k");
    assert_eq!(
        r.get_unknown_fields(),
        &vec![UnknownField { number: 99, wire_type: 0, payload: vec![0x2a] }]
    );
    assert_eq!(r.write_to_bytes(), wire);
}

#[test]
fn unknown_fields_follow_the_known_ones_in_order() {
    // field 7 (fixed32), then key, then field 6 (bytes), then field 8 (fixed64)
    let wire = vec![
        0x3d, 1, 2, 3, 4, 0x0a, 0x01, b'x', 0x32, 0x02, 9, 9, 0x41, 1, 2, 3, 4, 5, 6, 7, 8,
    ];
    let r = Record::parse_from_bytes(&wire).unwrap();
    assert_eq!(r.get_unknown_fields().len(), 3);
    assert_eq!(
        r.write_to_bytes(),
        vec![0x0a, 0x01, b'x', 0x3d, 1, 2, 3, 4, 0x32, 0x02, 9, 9, 0x41, 1, 2, 3, 4, 5, 6, 7, 8]
    );
    assert_eq!(Record::parse_from_bytes(&r.write_to_bytes()), Ok(r));
}

#[test]
fn later_field_replaces_earlier_one() {
    let wire = vec![0x0a, 0x01, b'a', 0x0a, 0x02, b'b', b'c'];
    let r = Record::parse_from_bytes(&wire).unwrap();
    assert_eq!(r.get_key(), "bc");
    let mut m = full_record();
    m.merge_from(&[0x12, 0x01, 0x07]).unwrap();
    assert_eq!(m.get_value(), &[0x07]);
    assert_eq!(m.get_key(), "k");
}

#[test]
fn malformed_input_is_rejected() {
    // cut short inside the value
    assert_eq!(Record::parse_from_bytes(&[0x0a, 0x05, b'k']), Err(DecodeError));
    // key written as a varint
    assert_eq!(Record::parse_from_bytes(&[0x08, 0x01]), Err(DecodeError));
    // key that is not UTF-8
    assert_eq!(Record::parse_from_bytes(&[0x0a, 0x01, 0xff]), Err(DecodeError));
    // field number 0
    assert_eq!(Record::parse_from_bytes(&[0x02, 0x00]), Err(DecodeError));
    // start-group wire type
    assert_eq!(Record::parse_from_bytes(&[0x33]), Err(DecodeError));
    // a tag that never ends
    assert_eq!(Record::parse_from_bytes(&[0x80; 11]), Err(DecodeError));
    // a fixed64 cut short
    assert_eq!(Record::parse_from_bytes(&[0x41, 1, 2]), Err(DecodeError));
}

#[test]
fn long_values_use_multi_byte_lengths() {
    let mut r = Record::new();
    r.set_value(vec![7u8; 300]);
    let bytes = r.write_to_bytes();
    assert_eq!(&bytes[..3], &[0x12, 0xac, 0x02]);
    assert_eq!(bytes.len(), 303);
    assert_eq!(Record::parse_from_bytes(&bytes), Ok(r));
}

#[test]
fn accessors_follow_the_fields() {
    let mut r = Record::new();
    assert!(!r.has_key());
    assert_eq!(r.get_key(), "");
    assert_eq!(r.get_signature(), &[] as &[u8]);
    r.mut_key().push_str("abc");
    assert!(r.has_key());
    assert_eq!(r.get_key(), "abc");
    assert_eq!(r.take_key(), "abc");
    assert!(!r.has_key());
    assert_eq!(r.take_key(), "");
    r.mut_value().push(1);
    assert_eq!(r.take_value(), vec![1]);
    r.set_author("me".to_string());
    r.mut_author().push('!');
    assert_eq!(r.get_author(), "me!");
    r.mut_signature().push(9);
    assert_eq!(r.get_signature(), &[9]);
    assert_eq!(r.take_signature(), vec![9]);
    r.mut_timeReceived().push_str("now");
    assert_eq!(r.take_timeReceived(), "now");
    assert!(r.has_author());
    r.mut_unknown_fields().push(UnknownField { number: 10, wire_type: 5, payload: vec![0, 0, 0, 1] });
    assert!(r.is_initialized());
    r.clear();
    assert_eq!(r, Record::new());
}
