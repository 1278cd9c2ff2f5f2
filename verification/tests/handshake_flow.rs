use rosrust::errors::Error;
use rosrust::header::{decode, encode};
use rosrust::handshake::{reply_header, request_header, validate_reply};
use rosrust::message::{CountMsg, Message};
use rosrust::subscriber::decode_available;

#[test]
fn request_header_carries_all_five_fields() {
    let h = request_header("/listener", "/chat", "pkg/Msg", "0123abcd", "uint32 data");
    assert_eq!(h.field_value(b"callerid"), Some(b"/listener".to_vec()));
    assert_eq!(h.field_value(b"topic"), Some(b"/chat".to_vec()));
    assert_eq!(h.field_value(b"type"), Some(b"pkg/Msg".to_vec()));
    assert_eq!(h.field_value(b"md5sum"), Some(b"0123abcd".to_vec()));
    assert_eq!(h.field_value(b"message_definition"), Some(b"uint32 data".to_vec()));
    let bytes = encode(&h).unwrap();
    assert_eq!(decode(&bytes).unwrap(), h);
}

#[test]
fn handshake_success_first_value_written_is_first_yielded() {
    // The fake peer answers with a matching reply header ...
    let msg_type = CountMsg::msg_type();
    let md5 = CountMsg::md5sum();
    let reply = encode(&reply_header("/talker", &msg_type, &md5)).unwrap();
    assert!(validate_reply(&reply, &msg_type, &md5).is_ok());

    // ... and then writes two values; the consumer sees them in that order.
    let mut wire: Vec<u8> = Vec::new();
    CountMsg { data: 7 }.encode_msg(&mut wire);
    CountMsg { data: 42 }.encode_msg(&mut wire);
    let (values, consumed) = decode_available::<CountMsg>(&wire, 0);
    assert_eq!(values, vec![CountMsg { data: 7 }, CountMsg { data: 42 }]);
    assert_eq!(consumed, wire.len());
}

#[test]
fn handshake_mismatched_md5sum_fails_before_any_decode() {
    let msg_type = CountMsg::msg_type();
    let md5 = CountMsg::md5sum();
    let reply = encode(&reply_header("/talker", &msg_type, "deadbeefdeadbeef")).unwrap();
    assert_eq!(validate_reply(&reply, &msg_type, &md5), Err(Error::Mismatch));
}

#[test]
fn handshake_mismatched_type_fails() {
    let md5 = CountMsg::md5sum();
    let reply = encode(&reply_header("/talker", "other/Msg", &md5)).unwrap();
    assert_eq!(validate_reply(&reply, &CountMsg::msg_type(), &md5), Err(Error::Mismatch));
}

#[test]
fn handshake_reply_missing_fields_fails() {
    let msg_type = CountMsg::msg_type();
    let md5 = CountMsg::md5sum();
    let reply = encode(&request_header("/x", "/chat", &msg_type, &md5, "d")).unwrap();
    // A header with both fields intact passes even with extra fields ...
    assert!(validate_reply(&reply, &msg_type, &md5).is_ok());
    // ... but one without them is a mismatch.
    let bare = encode(&rosrust::header::Header::new()).unwrap();
    assert_eq!(validate_reply(&bare, &msg_type, &md5), Err(Error::Mismatch));
}

#[test]
fn handshake_malformed_reply_is_format_error() {
    let msg_type = CountMsg::msg_type();
    let md5 = CountMsg::md5sum();
    let garbled: Vec<u8> = vec![9, 0, 0, 0, 1, 2];
    assert_eq!(validate_reply(&garbled, &msg_type, &md5), Err(Error::Format));
}
