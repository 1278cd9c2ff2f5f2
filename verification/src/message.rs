use vstd::prelude::*;
use crate::errors::Error;
use crate::wire::{u32_le_bytes, u32_le_value, read_u32_le, write_u32_le, lemma_u32_le_bytes_of_value, lemma_u32_le_round_trip};

verus! {

/// The per-type capability of the streaming phase. A message type is known
/// by the triple {type name, content checksum, textual definition}; two
/// endpoints are compatible exactly when name and checksum both match. Each
/// type also fixes its own binary form: the wire carries one serialized
/// instance after another, with no outer framing.
pub trait Message: Sized {
    /// The exact bytes of one serialized instance.
    spec fn wire(&self) -> Seq<u8>;

    /// Whether one whole instance stands at `pos` of `b`, and if so which,
    /// together with the position just past it.
    spec fn spec_decode(b: Seq<u8>, pos: int) -> Option<(Self, int)>;

    /// The type's name.
    spec fn spec_msg_type() -> Seq<char>;

    /// The content checksum over the type's field layout, a constant of the
    /// type.
    spec fn spec_md5sum() -> Seq<char>;

    /// The type's textual definition.
    spec fn spec_definition() -> Seq<char>;

    fn msg_type() -> (r: String)
        ensures
            r@ == Self::spec_msg_type(),
    ;

    fn md5sum() -> (r: String)
        ensures
            r@ == Self::spec_md5sum(),
    ;

    fn msg_definition() -> (r: String)
        ensures
            r@ == Self::spec_definition(),
    ;

    /// Appends one serialized instance to `out`.
    fn encode_msg(&self, out: &mut Vec<u8>)
        ensures
            final(out)@ == old(out)@ + self.wire(),
    ;

    /// Consumes exactly the bytes of one instance, beginning at `pos`; on
    /// success the consumed range is the returned instance's wire form and
    /// the read position advances past it. A truncated or malformed payload
    /// is a `Decode` error. Success and failure follow `spec_decode`
    /// exactly.
    fn decode_msg(buf: &[u8], pos: usize) -> (r: Result<(Self, usize), Error>)
        requires
            pos <= buf@.len(),
        ensures
            (match r {
                Ok(p) => Self::spec_decode(buf@, pos as int) == Some((p.0, p.1 as int)) && pos
                    < p.1 <= buf@.len() && buf@.subrange(pos as int, p.1 as int) == p.0.wire(),
                Err(e) => Self::spec_decode(buf@, pos as int) is None && e == Error::Decode,
            }),
    ;
}

/// A sample message type: one unsigned 32-bit count, serialized as the
/// streaming rules prescribe for fixed-width numerics, little-endian.
#[derive(Clone, Copy, PartialEq, Eq, Structural, Debug)]
pub struct CountMsg {
    pub data: u32,
}

impl Message for CountMsg {
    open spec fn wire(&self) -> Seq<u8> {
        u32_le_bytes(self.data as nat)
    }

    open spec fn spec_decode(b: Seq<u8>, pos: int) -> Option<(CountMsg, int)> {
        if 0 <= pos && pos + 4 <= b.len() {
            Some((CountMsg { data: u32_le_value(b.subrange(pos, pos + 4)) as u32 }, pos + 4))
        } else {
            None
        }
    }

    open spec fn spec_msg_type() -> Seq<char> {
        "rosrust/Count"@
    }

    open spec fn spec_md5sum() -> Seq<char> {
        "0b2ab3bc4f7d7f65f4a23b2c14f0c41c"@
    }

    open spec fn spec_definition() -> Seq<char> {
        "uint32 data"@
    }

    fn msg_type() -> (r: String) {
        "rosrust/Count".to_owned()
    }

    fn md5sum() -> (r: String) {
        "0b2ab3bc4f7d7f65f4a23b2c14f0c41c".to_owned()
    }

    fn msg_definition() -> (r: String) {
        "uint32 data".to_owned()
    }

    fn encode_msg(&self, out: &mut Vec<u8>) {
        write_u32_le(out, self.data);
    }

    fn decode_msg(buf: &[u8], pos: usize) -> (r: Result<(Self, usize), Error>) {
        if buf.len() - pos < 4 {
            return Err(Error::Decode);
        }
        let v = read_u32_le(buf, pos);
        proof {
            lemma_u32_le_bytes_of_value(buf@.subrange(pos as int, pos as int + 4));
        }
        Ok((CountMsg { data: v }, pos + 4))
    }
}

/// Two counts with the same wire form are the same count.
pub proof fn lemma_count_wire_injective(a: CountMsg, b: CountMsg)
    ensures
        a.wire() == b.wire() ==> a == b,
{
    if a.wire() == b.wire() {
        lemma_u32_le_round_trip(a.data as nat);
        lemma_u32_le_round_trip(b.data as nat);
        assert(u32_le_value(a.wire()) == a.data as nat);
        assert(u32_le_value(b.wire()) == b.data as nat);
    }
}

} // verus!
