use rosrust::errors::Error;
use rosrust::message::{CountMsg, Message};
use rosrust::publisher::PublisherStream;
use rosrust::subscriber::decode_available;

#[test]
fn count_msg_wire_form_is_little_endian() {
    let mut out: Vec<u8> = Vec::new();
    CountMsg { data: 0x01020304 }.encode_msg(&mut out);
    assert_eq!(out, vec![4, 3, 2, 1]);
}

#[test]
fn count_msg_decode_consumes_exactly_one_instance() {
    let buf: Vec<u8> = vec![4, 3, 2, 1, 99];
    let (m, next) = CountMsg::decode_msg(&buf, 0).unwrap();
    assert_eq!(m, CountMsg { data: 0x01020304 });
    assert_eq!(next, 4);
}

#[test]
fn count_msg_truncated_payload_is_decode_error() {
    let buf: Vec<u8> = vec![1, 2, 3];
    assert_eq!(CountMsg::decode_msg(&buf, 0), Err(Error::Decode));
    assert_eq!(CountMsg::decode_msg(&buf, 2), Err(Error::Decode));
}

#[test]
fn decode_available_stops_at_partial_tail() {
    let mut wire: Vec<u8> = Vec::new();
    CountMsg { data: 5 }.encode_msg(&mut wire);
    wire.push(77); // one byte of the next, not yet complete, instance
    let (values, consumed) = decode_available::<CountMsg>(&wire, 0);
    assert_eq!(values, vec![CountMsg { data: 5 }]);
    assert_eq!(consumed, 4);
}

#[test]
fn publisher_serializes_once_for_all_peers() {
    let stream = PublisherStream::new("/chat".to_string());
    let bytes = stream.serialize(&CountMsg { data: 513 });
    assert_eq!(bytes, vec![1, 2, 0, 0]);
}

#[test]
fn publisher_evicts_only_broken_peer_and_can_readd() {
    let mut stream = PublisherStream::new("/chat".to_string());
    stream.add_peer("alpha:1".to_string());
    stream.add_peer("beta:2".to_string());
    stream.add_peer("gamma:3".to_string());
    assert_eq!(stream.peer_count(), 3);

    // beta's socket broke before this round: its write fails, the others go
    // through, and only beta leaves the live set.
    let outcomes = vec![true, false, true];
    stream.retain_delivered(&outcomes);
    assert_eq!(stream.peer_count(), 2);
    assert_eq!(stream.peer_at(0), "alpha:1");
    assert_eq!(stream.peer_at(1), "gamma:3");

    // A later add for the same address is independent and may re-add it.
    stream.add_peer("beta:2".to_string());
    assert_eq!(stream.peer_count(), 3);
    assert_eq!(stream.peer_at(2), "beta:2");
}

#[test]
fn publisher_remove_peer_drops_matches_and_ignores_absence() {
    let mut stream = PublisherStream::new("/chat".to_string());
    stream.add_peer("alpha:1".to_string());
    stream.add_peer("beta:2".to_string());
    stream.remove_peer(&"alpha:1".to_string());
    assert_eq!(stream.peer_count(), 1);
    assert_eq!(stream.peer_at(0), "beta:2");
    stream.remove_peer(&"missing:9".to_string());
    assert_eq!(stream.peer_count(), 1);
}

#[test]
fn directory_update_reconciles_live_set() {
    let mut stream = PublisherStream::new("/chat".to_string());
    stream.add_peer("alpha:1".to_string());
    stream.add_peer("beta:2".to_string());
    let reported = vec!["beta:2".to_string(), "gamma:3".to_string()];
    let to_add = stream.directory_update(&reported);
    // alpha is no longer subscribed and leaves; gamma is new and comes back
    // for the caller to handshake with.
    assert_eq!(to_add, vec!["gamma:3".to_string()]);
    assert_eq!(stream.peer_count(), 1);
    assert_eq!(stream.peer_at(0), "beta:2");
}
