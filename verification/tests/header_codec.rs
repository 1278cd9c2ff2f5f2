use rosrust::errors::Error;
use rosrust::header::{decode, encode, Header};

fn header_of(pairs: &[(&[u8], &[u8])]) -> Header {
    let mut h = Header::new();
    for (k, v) in pairs {
        h.push_field(k.to_vec(), v.to_vec());
    }
    h
}

#[test]
fn example_encodes_deterministically() {
    // {"a": "1", "b": "22"}: entries are 3 and 4 text bytes, each behind its
    // own 4-byte prefix, so the outer length is (4+3) + (4+4) = 15.
    let h = header_of(&[(b"a", b"1"), (b"b", b"22")]);
    let bytes = encode(&h).unwrap();
    let expected: Vec<u8> = vec![
        15, 0, 0, 0, // outer length
        3, 0, 0, 0, b'a', b'=', b'1', // a=1
        4, 0, 0, 0, b'b', b'=', b'2', b'2', // b=22
    ];
    assert_eq!(bytes, expected);
    let back = decode(&bytes).unwrap();
    assert_eq!(back, h);
}

#[test]
fn round_trip_plain_fields() {
    let h = header_of(&[(b"callerid", b"/node"), (b"topic", b"/chat"), (b"type", b"pkg/Msg")]);
    let bytes = encode(&h).unwrap();
    assert_eq!(decode(&bytes).unwrap(), h);
}

#[test]
fn round_trip_empty_header() {
    let h = header_of(&[]);
    let bytes = encode(&h).unwrap();
    assert_eq!(bytes, vec![0, 0, 0, 0]);
    assert_eq!(decode(&bytes).unwrap(), h);
}

#[test]
fn round_trip_value_with_separator_and_empty_value() {
    // A value may itself hold '='; the split happens at the first one.
    let h = header_of(&[(b"k", b"a=b"), (b"empty", b"")]);
    let bytes = encode(&h).unwrap();
    assert_eq!(decode(&bytes).unwrap(), h);
}

#[test]
fn truncated_outer_length_rejected() {
    // Outer length says 10 bytes follow, none do.
    let bytes: Vec<u8> = vec![10, 0, 0, 0];
    assert_eq!(decode(&bytes), Err(Error::Format));
}

#[test]
fn surplus_bytes_rejected() {
    // Outer length smaller than the bytes actually supplied.
    let bytes: Vec<u8> = vec![1, 0, 0, 0, b'x', b'y'];
    assert_eq!(decode(&bytes), Err(Error::Format));
}

#[test]
fn short_buffer_rejected() {
    let bytes: Vec<u8> = vec![1, 0];
    assert_eq!(decode(&bytes), Err(Error::Format));
}

#[test]
fn entry_without_separator_rejected() {
    // One entry of three bytes, no '=' among them.
    let bytes: Vec<u8> = vec![7, 0, 0, 0, 3, 0, 0, 0, b'a', b'b', b'c'];
    assert_eq!(decode(&bytes), Err(Error::Format));
}

#[test]
fn entry_running_past_frame_rejected() {
    // The entry claims 9 bytes but the frame holds 3 after its prefix.
    let bytes: Vec<u8> = vec![7, 0, 0, 0, 9, 0, 0, 0, b'a', b'=', b'c'];
    assert_eq!(decode(&bytes), Err(Error::Format));
}

#[test]
fn entry_prefix_cut_short_rejected() {
    // Two stray bytes where the next entry's length prefix should stand.
    let bytes: Vec<u8> = vec![2, 0, 0, 0, 1, 0];
    assert_eq!(decode(&bytes), Err(Error::Format));
}

#[test]
fn field_lookup_finds_first_match() {
    let h = header_of(&[(b"a", b"1"), (b"b", b"2"), (b"a", b"3")]);
    assert_eq!(h.field_value(b"a"), Some(b"1".to_vec()));
    assert_eq!(h.field_value(b"b"), Some(b"2".to_vec()));
    assert_eq!(h.field_value(b"missing"), None);
}
