use vstd::prelude::*;
use crate::errors::Error;
use crate::header::{Header, copy_range, bytes_eq, decode, encode, lookup, parse_header, body_bytes, encoded_header, entry_wf, header_wf, lemma_chunk_within_body, lemma_header_round_trip, SEPARATOR};
use vstd::string::is_ascii;

verus! {

broadcast use vstd::string::is_ascii_spec_bytes;

/// The characters of an ASCII string, one byte each, as a header carries them.
pub open spec fn ascii_bytes(s: Seq<char>) -> Seq<u8> {
    Seq::new(s.len(), |i: int| s[i] as u8)
}

/// A copy of an ASCII string's bytes.
pub fn str_bytes(s: &str) -> (r: Vec<u8>)
    requires
        is_ascii(s),
    ensures
        r@ == ascii_bytes(s@),
{
    let b = s.as_bytes();
    let r = copy_range(b, 0, b.len());
    proof {
        assert(r@ =~= ascii_bytes(s@));
    }
    r
}

/// The field name under which a node states its identity.
pub fn key_callerid() -> (r: Vec<u8>)
    ensures
        r@ == ascii_bytes("callerid"@),
{
    proof {
        reveal_strlit("callerid");
    }
    str_bytes("callerid")
}

/// The field name under which the subscriber names the topic.
pub fn key_topic() -> (r: Vec<u8>)
    ensures
        r@ == ascii_bytes("topic"@),
{
    proof {
        reveal_strlit("topic");
    }
    str_bytes("topic")
}

/// The field name of the message type's name.
pub fn key_type() -> (r: Vec<u8>)
    ensures
        r@ == ascii_bytes("type"@),
{
    proof {
        reveal_strlit("type");
    }
    str_bytes("type")
}

/// The field name of the message type's content checksum.
pub fn key_md5sum() -> (r: Vec<u8>)
    ensures
        r@ == ascii_bytes("md5sum"@),
{
    proof {
        reveal_strlit("md5sum");
    }
    str_bytes("md5sum")
}

/// The field name of the message type's textual definition.
pub fn key_message_definition() -> (r: Vec<u8>)
    ensures
        r@ == ascii_bytes("message_definition"@),
{
    proof {
        reveal_strlit("message_definition");
    }
    str_bytes("message_definition")
}

/// The five fields of a subscriber's handshake request, in the order they
/// are sent.
pub open spec fn request_fields(
    caller_id: Seq<char>,
    topic: Seq<char>,
    msg_type: Seq<char>,
    md5sum: Seq<char>,
    definition: Seq<char>,
) -> Seq<(Seq<u8>, Seq<u8>)> {
    seq![
        (ascii_bytes("callerid"@), ascii_bytes(caller_id)),
        (ascii_bytes("topic"@), ascii_bytes(topic)),
        (ascii_bytes("type"@), ascii_bytes(msg_type)),
        (ascii_bytes("md5sum"@), ascii_bytes(md5sum)),
        (ascii_bytes("message_definition"@), ascii_bytes(definition)),
    ]
}

/// The three fields of a publisher's handshake reply, in the order they are
/// sent.
pub open spec fn reply_fields(
    caller_id: Seq<char>,
    msg_type: Seq<char>,
    md5sum: Seq<char>,
) -> Seq<(Seq<u8>, Seq<u8>)> {
    seq![
        (ascii_bytes("callerid"@), ascii_bytes(caller_id)),
        (ascii_bytes("type"@), ascii_bytes(msg_type)),
        (ascii_bytes("md5sum"@), ascii_bytes(md5sum)),
    ]
}

/// Builds the request header a subscriber sends: caller identity, topic, and
/// the message type's name, checksum and definition.
pub fn request_header(
    caller_id: &str,
    topic: &str,
    msg_type: &str,
    md5sum: &str,
    definition: &str,
) -> (h: Header)
    requires
        is_ascii(caller_id),
        is_ascii(topic),
        is_ascii(msg_type),
        is_ascii(md5sum),
        is_ascii(definition),
    ensures
        h@ == request_fields(caller_id@, topic@, msg_type@, md5sum@, definition@),
{
    let mut h = Header::new();
    h.push_field(key_callerid(), str_bytes(caller_id));
    h.push_field(key_topic(), str_bytes(topic));
    h.push_field(key_type(), str_bytes(msg_type));
    h.push_field(key_md5sum(), str_bytes(md5sum));
    h.push_field(key_message_definition(), str_bytes(definition));
    proof {
        assert(h@ =~= request_fields(caller_id@, topic@, msg_type@, md5sum@, definition@));
    }
    h
}

/// Builds the reply header a publisher sends back after validating a request.
pub fn reply_header(caller_id: &str, msg_type: &str, md5sum: &str) -> (h: Header)
    requires
        is_ascii(caller_id),
        is_ascii(msg_type),
        is_ascii(md5sum),
    ensures
        h@ == reply_fields(caller_id@, msg_type@, md5sum@),
{
    let mut h = Header::new();
    h.push_field(key_callerid(), str_bytes(caller_id));
    h.push_field(key_type(), str_bytes(msg_type));
    h.push_field(key_md5sum(), str_bytes(md5sum));
    proof {
        assert(h@ =~= reply_fields(caller_id@, msg_type@, md5sum@));
    }
    h
}

/// A header announces the expected message type: its `md5sum` and `type`
/// fields are present and carry exactly the expected checksum and type name.
pub open spec fn header_matches_type(
    es: Seq<(Seq<u8>, Seq<u8>)>,
    msg_type: Seq<char>,
    md5sum: Seq<char>,
) -> bool {
    &&& lookup(es, ascii_bytes("md5sum"@)) == Some(ascii_bytes(md5sum))
    &&& lookup(es, ascii_bytes("type"@)) == Some(ascii_bytes(msg_type))
}

/// Validates a parsed handshake header against the expected message type.
/// Both ends run this check: a subscriber on the reply, a publisher on the
/// request. Any disagreement is a `Mismatch`; the connection is abandoned.
pub fn check_type_fields(h: &Header, msg_type: &str, md5sum: &str) -> (r: Result<(), Error>)
    requires
        is_ascii(msg_type),
        is_ascii(md5sum),
    ensures
        header_matches_type(h@, msg_type@, md5sum@) ==> r is Ok,
        !header_matches_type(h@, msg_type@, md5sum@) ==> (r matches Err(e) && e
            == Error::Mismatch),
{
    let md5_key = key_md5sum();
    let expected_md5 = str_bytes(md5sum);
    match h.field_value(md5_key.as_slice()) {
        Some(v) => {
            if !bytes_eq(v.as_slice(), expected_md5.as_slice()) {
                return Err(Error::Mismatch);
            }
        },
        None => {
            return Err(Error::Mismatch);
        },
    }
    let type_key = key_type();
    let expected_type = str_bytes(msg_type);
    match h.field_value(type_key.as_slice()) {
        Some(v) => {
            if !bytes_eq(v.as_slice(), expected_type.as_slice()) {
                return Err(Error::Mismatch);
            }
        },
        None => {
            return Err(Error::Mismatch);
        },
    }
    Ok(())
}

/// One subscriber-side validation of the raw reply frame: decode it, then
/// hold its `type` and `md5sum` against the expected message type. Malformed
/// framing is a `Format` error; a well-formed frame for the wrong type is a
/// `Mismatch`. On either error the caller abandons the connection before any
/// payload decode is attempted.
pub fn validate_reply(bytes: &Vec<u8>, msg_type: &str, md5sum: &str) -> (r: Result<(), Error>)
    requires
        is_ascii(msg_type),
        is_ascii(md5sum),
    ensures
        parse_header(bytes@) is None ==> (r matches Err(e) && e == Error::Format),
        (parse_header(bytes@) matches Some(es) && header_matches_type(es, msg_type@, md5sum@))
            ==> r is Ok,
        (parse_header(bytes@) matches Some(es) && !header_matches_type(es, msg_type@, md5sum@))
            ==> (r matches Err(e) && e == Error::Mismatch),
{
    match decode(bytes) {
        Ok(h) => check_type_fields(&h, msg_type, md5sum),
        Err(e) => Err(e),
    }
}

/// The exact frame a subscriber writes to open the handshake: the five
/// request fields, encoded. Fails only when the fields outgrow the 32-bit
/// outer length prefix.
pub fn request_frame(
    caller_id: &str,
    topic: &str,
    msg_type: &str,
    md5sum: &str,
    definition: &str,
) -> (r: Result<Vec<u8>, Error>)
    requires
        is_ascii(caller_id),
        is_ascii(topic),
        is_ascii(msg_type),
        is_ascii(md5sum),
        is_ascii(definition),
    ensures
        body_bytes(request_fields(caller_id@, topic@, msg_type@, md5sum@, definition@)).len()
            <= u32::MAX ==> (r matches Ok(bytes) && bytes@ == encoded_header(
            request_fields(caller_id@, topic@, msg_type@, md5sum@, definition@),
        )),
        body_bytes(request_fields(caller_id@, topic@, msg_type@, md5sum@, definition@)).len()
            > u32::MAX ==> (r matches Err(e) && e == Error::Format),
{
    let h = request_header(caller_id, topic, msg_type, md5sum, definition);
    encode(&h)
}

/// The exact frame a publisher writes back after validating a request.
pub fn reply_frame(caller_id: &str, msg_type: &str, md5sum: &str) -> (r: Result<Vec<u8>, Error>)
    requires
        is_ascii(caller_id),
        is_ascii(msg_type),
        is_ascii(md5sum),
    ensures
        body_bytes(reply_fields(caller_id@, msg_type@, md5sum@)).len() <= u32::MAX ==> (
        r matches Ok(bytes) && bytes@ == encoded_header(
            reply_fields(caller_id@, msg_type@, md5sum@),
        )),
        body_bytes(reply_fields(caller_id@, msg_type@, md5sum@)).len() > u32::MAX ==> (
        r matches Err(e) && e == Error::Format),
{
    let h = reply_header(caller_id, msg_type, md5sum);
    encode(&h)
}

/// The key bytes of the handshake fields hold no separator.
proof fn lemma_keys_hold_no_separator()
    ensures
        !ascii_bytes("callerid"@).contains(SEPARATOR),
        !ascii_bytes("topic"@).contains(SEPARATOR),
        !ascii_bytes("type"@).contains(SEPARATOR),
        !ascii_bytes("md5sum"@).contains(SEPARATOR),
        !ascii_bytes("message_definition"@).contains(SEPARATOR),
{
    reveal_strlit("callerid");
    reveal_strlit("topic");
    reveal_strlit("type");
    reveal_strlit("md5sum");
    reveal_strlit("message_definition");
    assert forall|i: int| 0 <= i < "callerid"@.len() implies ascii_bytes("callerid"@)[i]
        != SEPARATOR by {}
    if ascii_bytes("callerid"@).contains(SEPARATOR) {
        let i = choose|i: int|
            0 <= i < ascii_bytes("callerid"@).len() && ascii_bytes("callerid"@)[i] == SEPARATOR;
    }
    assert forall|i: int| 0 <= i < "topic"@.len() implies ascii_bytes("topic"@)[i]
        != SEPARATOR by {}
    if ascii_bytes("topic"@).contains(SEPARATOR) {
        let i = choose|i: int|
            0 <= i < ascii_bytes("topic"@).len() && ascii_bytes("topic"@)[i] == SEPARATOR;
    }
    assert forall|i: int| 0 <= i < "type"@.len() implies ascii_bytes("type"@)[i]
        != SEPARATOR by {}
    if ascii_bytes("type"@).contains(SEPARATOR) {
        let i = choose|i: int|
            0 <= i < ascii_bytes("type"@).len() && ascii_bytes("type"@)[i] == SEPARATOR;
    }
    assert forall|i: int| 0 <= i < "md5sum"@.len() implies ascii_bytes("md5sum"@)[i]
        != SEPARATOR by {}
    if ascii_bytes("md5sum"@).contains(SEPARATOR) {
        let i = choose|i: int|
            0 <= i < ascii_bytes("md5sum"@).len() && ascii_bytes("md5sum"@)[i] == SEPARATOR;
    }
    assert forall|i: int|
        0 <= i < "message_definition"@.len() implies ascii_bytes("message_definition"@)[i]
        != SEPARATOR by {}
    if ascii_bytes("message_definition"@).contains(SEPARATOR) {
        let i = choose|i: int|
            0 <= i < ascii_bytes("message_definition"@).len() && ascii_bytes(
                "message_definition"@,
            )[i] == SEPARATOR;
    }
}

/// Round trip of the handshake itself: whenever a request frame fits its
/// outer length prefix, the peer decodes it back to exactly the five fields
/// the subscriber put in, in order.
pub proof fn lemma_request_round_trip(
    caller_id: Seq<char>,
    topic: Seq<char>,
    msg_type: Seq<char>,
    md5sum: Seq<char>,
    definition: Seq<char>,
)
    requires
        body_bytes(request_fields(caller_id, topic, msg_type, md5sum, definition)).len()
            <= u32::MAX,
    ensures
        parse_header(
            encoded_header(request_fields(caller_id, topic, msg_type, md5sum, definition)),
        ) == Some(request_fields(caller_id, topic, msg_type, md5sum, definition)),
{
    let es = request_fields(caller_id, topic, msg_type, md5sum, definition);
    lemma_keys_hold_no_separator();
    assert forall|i: int| 0 <= i < es.len() implies entry_wf(es[i].0, es[i].1) by {
        lemma_chunk_within_body(es, i);
    }
    lemma_header_round_trip(es);
}

/// The same round trip for the publisher's three-field reply frame.
pub proof fn lemma_reply_round_trip(caller_id: Seq<char>, msg_type: Seq<char>, md5sum: Seq<char>)
    requires
        body_bytes(reply_fields(caller_id, msg_type, md5sum)).len() <= u32::MAX,
    ensures
        parse_header(encoded_header(reply_fields(caller_id, msg_type, md5sum))) == Some(
            reply_fields(caller_id, msg_type, md5sum),
        ),
{
    let es = reply_fields(caller_id, msg_type, md5sum);
    lemma_keys_hold_no_separator();
    assert forall|i: int| 0 <= i < es.len() implies entry_wf(es[i].0, es[i].1) by {
        lemma_chunk_within_body(es, i);
    }
    lemma_header_round_trip(es);
}

} // verus!
