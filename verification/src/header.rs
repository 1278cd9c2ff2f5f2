use vstd::prelude::*;
use crate::errors::Error;
use crate::wire::{u32_le_bytes, u32_le_value, write_u32_le, read_u32_le, lemma_u32_le_round_trip};

verus! {

/// The byte that separates a key from its value inside one entry.
pub const SEPARATOR: u8 = 61;

/// One `key=value` field of a handshake header.
#[derive(Clone, PartialEq, Eq, Debug)]
pub struct Entry {
    pub key: Vec<u8>,
    pub value: Vec<u8>,
}

/// An ordered collection of key-value fields, as exchanged during the
/// connection handshake. Keys are expected to be unique and free of the
/// separator byte; the codec does not enforce this, callers validate.
#[derive(Clone, PartialEq, Eq, Debug)]
pub struct Header {
    pub entries: Vec<Entry>,
}

pub open spec fn entries_view(es: Seq<Entry>) -> Seq<(Seq<u8>, Seq<u8>)> {
    Seq::new(es.len(), |i: int| (es[i].key@, es[i].value@))
}

impl View for Header {
    type V = Seq<(Seq<u8>, Seq<u8>)>;

    open spec fn view(&self) -> Seq<(Seq<u8>, Seq<u8>)> {
        entries_view(self.entries@)
    }
}

impl Header {
    pub fn new() -> (h: Header)
        ensures
            h@ == Seq::<(Seq<u8>, Seq<u8>)>::empty(),
    {
        let h = Header { entries: Vec::new() };
        proof {
            assert(h@ =~= Seq::<(Seq<u8>, Seq<u8>)>::empty());
        }
        h
    }

    /// Appends one field; the entry order of the header is the push order.
    pub fn push_field(&mut self, key: Vec<u8>, value: Vec<u8>)
        ensures
            final(self)@ == old(self)@.push((key@, value@)),
    {
        let ghost before = self@;
        self.entries.push(Entry { key, value });
        proof {
            assert(self@ =~= before.push((key@, value@)));
        }
    }

    pub fn len(&self) -> (n: usize)
        ensures
            n == self@.len(),
    {
        self.entries.len()
    }
}

/// The text of one entry as it stands on the wire: `key`, separator, `value`.
pub open spec fn entry_text(k: Seq<u8>, v: Seq<u8>) -> Seq<u8> {
    k + seq![SEPARATOR] + v
}

/// One entry with its own length prefix.
pub open spec fn entry_chunk(k: Seq<u8>, v: Seq<u8>) -> Seq<u8> {
    u32_le_bytes((k.len() + 1 + v.len()) as nat) + entry_text(k, v)
}

/// The bytes of all entries, concatenated in order.
pub open spec fn body_bytes(es: Seq<(Seq<u8>, Seq<u8>)>) -> Seq<u8>
    decreases es.len(),
{
    if es.len() == 0 {
        Seq::empty()
    } else {
        entry_chunk(es[0].0, es[0].1) + body_bytes(es.drop_first())
    }
}

/// The full header frame: outer length prefix, then the entry bytes.
pub open spec fn encoded_header(es: Seq<(Seq<u8>, Seq<u8>)>) -> Seq<u8> {
    u32_le_bytes(body_bytes(es).len() as nat) + body_bytes(es)
}

/// An entry that survives the trip over the wire: its key holds no separator
/// byte and its text fits the 32-bit length prefix.
pub open spec fn entry_wf(k: Seq<u8>, v: Seq<u8>) -> bool {
    &&& !k.contains(SEPARATOR)
    &&& k.len() + 1 + v.len() <= u32::MAX
}

/// A header whose frame round-trips: every entry well formed and the whole
/// body within the outer 32-bit length prefix.
pub open spec fn header_wf(es: Seq<(Seq<u8>, Seq<u8>)>) -> bool {
    &&& forall|i: int| 0 <= i < es.len() ==> entry_wf(es[i].0, es[i].1)
    &&& body_bytes(es).len() <= u32::MAX
}

/// Index of the first separator byte in `s`, or `s.len()` if there is none.
pub open spec fn find_sep(s: Seq<u8>) -> int
    decreases s.len(),
{
    if s.len() == 0 {
        0
    } else if s[0] == SEPARATOR {
        0
    } else {
        1 + find_sep(s.drop_first())
    }
}

pub proof fn lemma_find_sep(s: Seq<u8>)
    ensures
        0 <= find_sep(s) <= s.len(),
        forall|j: int| 0 <= j < find_sep(s) ==> s[j] != SEPARATOR,
        find_sep(s) < s.len() ==> s[find_sep(s)] == SEPARATOR,
    decreases s.len(),
{
    if s.len() > 0 && s[0] != SEPARATOR {
        lemma_find_sep(s.drop_first());
        assert forall|j: int| 0 <= j < find_sep(s) implies s[j] != SEPARATOR by {
            if j > 0 {
                assert(s.drop_first()[j - 1] != SEPARATOR);
            }
        }
    }
}

/// The entries encoded in `b`, if `b` is a well-formed sequence of
/// length-prefixed `key=value` chunks; `None` on any framing fault.
pub open spec fn parse_entries(b: Seq<u8>) -> Option<Seq<(Seq<u8>, Seq<u8>)>>
    decreases b.len(),
{
    if b.len() == 0 {
        Some(Seq::empty())
    } else if b.len() < 4 {
        None
    } else {
        let n = u32_le_value(b.subrange(0, 4)) as int;
        if 4 + n > b.len() {
            None
        } else {
            let e = b.subrange(4, 4 + n);
            if find_sep(e) >= e.len() {
                None
            } else {
                let k = e.subrange(0, find_sep(e));
                let v = e.subrange(find_sep(e) + 1, e.len() as int);
                match parse_entries(b.subrange(4 + n, b.len() as int)) {
                    Some(rest) => Some(seq![(k, v)] + rest),
                    None => None,
                }
            }
        }
    }
}

/// The header encoded in `b`, if `b` is one well-formed frame: a 32-bit outer
/// length that matches the bytes actually supplied, then the entries.
pub open spec fn parse_header(b: Seq<u8>) -> Option<Seq<(Seq<u8>, Seq<u8>)>> {
    if b.len() < 4 {
        None
    } else if u32_le_value(b.subrange(0, 4)) != b.len() - 4 {
        None
    } else {
        parse_entries(b.subrange(4, b.len() as int))
    }
}

/// Splitting a sequence of entries splits its bytes.
pub proof fn lemma_body_bytes_concat(a: Seq<(Seq<u8>, Seq<u8>)>, b: Seq<(Seq<u8>, Seq<u8>)>)
    ensures
        body_bytes(a + b) == body_bytes(a) + body_bytes(b),
    decreases a.len(),
{
    if a.len() == 0 {
        assert(a + b =~= b);
        assert(body_bytes(a) + body_bytes(b) =~= body_bytes(b));
    } else {
        assert((a + b).drop_first() =~= a.drop_first() + b);
        lemma_body_bytes_concat(a.drop_first(), b);
        assert(body_bytes(a + b) =~= body_bytes(a) + body_bytes(b));
    }
}

pub proof fn lemma_body_bytes_push(es: Seq<(Seq<u8>, Seq<u8>)>, k: Seq<u8>, v: Seq<u8>)
    ensures
        body_bytes(es.push((k, v))) == body_bytes(es) + entry_chunk(k, v),
{
    lemma_body_bytes_concat(es, seq![(k, v)]);
    assert(es.push((k, v)) =~= es + seq![(k, v)]);
    let s = seq![(k, v)];
    assert(s.drop_first() =~= Seq::<(Seq<u8>, Seq<u8>)>::empty());
    assert(body_bytes(s.drop_first()) =~= Seq::<u8>::empty());
    assert(body_bytes(s) =~= entry_chunk(k, v) + body_bytes(s.drop_first()));
    assert(body_bytes(seq![(k, v)]) =~= entry_chunk(k, v));
    assert(body_bytes(es.push((k, v))) =~= body_bytes(es) + entry_chunk(k, v));
}

/// Each entry's chunk is no longer than the whole body it stands in.
pub proof fn lemma_chunk_within_body(es: Seq<(Seq<u8>, Seq<u8>)>, i: int)
    requires
        0 <= i < es.len(),
    ensures
        entry_chunk(es[i].0, es[i].1).len() <= body_bytes(es).len(),
    decreases es.len(),
{
    if i == 0 {
    } else {
        lemma_chunk_within_body(es.drop_first(), i - 1);
        assert(es.drop_first()[i - 1] == es[i]);
    }
}

/// Appends a copy of `b` to `out`.
pub fn push_bytes(out: &mut Vec<u8>, b: &[u8])
    ensures
        final(out)@ == old(out)@ + b@,
{
    let ghost before = out@;
    let mut i: usize = 0;
    while i < b.len()
        invariant
            i <= b@.len(),
            out@ == before + b@.subrange(0, i as int),
        decreases b@.len() - i,
    {
        out.push(b[i]);
        i = i + 1;
        proof {
            assert(out@ =~= before + b@.subrange(0, i as int));
        }
    }
    proof {
        assert(out@ =~= before + b@);
    }
}

/// Encodes a header into one wire frame. Succeeds exactly when the body fits
/// the 32-bit outer length prefix; the bytes are determined by the header's
/// entry order alone.
pub fn encode(h: &Header) -> (r: Result<Vec<u8>, Error>)
    ensures
        body_bytes(h@).len() <= u32::MAX ==> (r matches Ok(bytes) && bytes@ == encoded_header(h@)),
        body_bytes(h@).len() > u32::MAX ==> (r matches Err(e) && e == Error::Format),
{
    let mut body: Vec<u8> = Vec::new();
    let mut i: usize = 0;
    let n = h.entries.len();
    while i < n
        invariant
            i <= n,
            n == h.entries@.len(),
            body@ == body_bytes(h@.subrange(0, i as int)),
        decreases n - i,
    {
        let key_len = h.entries[i].key.len();
        let value_len = h.entries[i].value.len();
        let text_len: u128 = key_len as u128 + 1 + value_len as u128;
        proof {
            lemma_body_bytes_push(
                h@.subrange(0, i as int),
                h@[i as int].0,
                h@[i as int].1,
            );
            assert(h@.subrange(0, i as int).push(h@[i as int]) =~= h@.subrange(0, i as int + 1));
            lemma_body_bytes_concat(h@.subrange(0, i as int + 1), h@.subrange(i as int + 1, h@.len() as int));
            assert(h@.subrange(0, i as int + 1) + h@.subrange(i as int + 1, h@.len() as int) =~= h@);
        }
        if text_len > u32::MAX as u128 {
            return Err(Error::Format);
        }
        write_u32_le(&mut body, text_len as u32);
        push_bytes(&mut body, h.entries[i].key.as_slice());
        body.push(SEPARATOR);
        push_bytes(&mut body, h.entries[i].value.as_slice());
        proof {
            assert(body@ =~= body_bytes(h@.subrange(0, i as int))
                + entry_chunk(h@[i as int].0, h@[i as int].1));
        }
        i = i + 1;
    }
    proof {
        assert(h@.subrange(0, n as int) =~= h@);
    }
    if body.len() as u128 > u32::MAX as u128 {
        return Err(Error::Format);
    }
    let mut out: Vec<u8> = Vec::new();
    write_u32_le(&mut out, body.len() as u32);
    push_bytes(&mut out, body.as_slice());
    Ok(out)
}

/// Index, relative to `start`, of the first separator byte in
/// `buf[start..start + len]`, or `len` when there is none.
fn scan_sep(buf: &[u8], start: usize, len: usize) -> (r: usize)
    requires
        start + len <= buf@.len(),
    ensures
        r == find_sep(buf@.subrange(start as int, start as int + len as int)),
{
    let ghost s = buf@.subrange(start as int, start as int + len as int);
    let blen = buf.len();
    let mut j: usize = 0;
    while j < len
        invariant
            j <= len,
            start + len <= blen,
            blen == buf@.len(),
            s == buf@.subrange(start as int, start as int + len as int),
            forall|t: int| 0 <= t < j ==> s[t] != SEPARATOR,
        decreases len - j,
    {
        if buf[start + j] == SEPARATOR {
            proof {
                lemma_find_sep(s);
                assert(s[j as int] == SEPARATOR);
                if find_sep(s) < j {
                    assert(s[find_sep(s)] == SEPARATOR);
                }
                if find_sep(s) > j {
                    assert(s[j as int] != SEPARATOR);
                }
            }
            return j;
        }
        j = j + 1;
    }
    proof {
        lemma_find_sep(s);
        if find_sep(s) < s.len() {
            assert(s[find_sep(s)] == SEPARATOR);
        }
    }
    len
}

/// A fresh copy of `buf[start..end]`.
pub fn copy_range(buf: &[u8], start: usize, end: usize) -> (r: Vec<u8>)
    requires
        start <= end,
        end <= buf@.len(),
    ensures
        r@ == buf@.subrange(start as int, end as int),
{
    let mut out: Vec<u8> = Vec::new();
    let mut j: usize = start;
    while j < end
        invariant
            start <= j <= end <= buf@.len(),
            out@ == buf@.subrange(start as int, j as int),
        decreases end - j,
    {
        out.push(buf[j]);
        j = j + 1;
        proof {
            assert(out@ =~= buf@.subrange(start as int, j as int));
        }
    }
    out
}

/// Byte-for-byte comparison.
pub fn bytes_eq(a: &[u8], b: &[u8]) -> (r: bool)
    ensures
        r <==> a@ == b@,
{
    if a.len() != b.len() {
        return false;
    }
    let mut i: usize = 0;
    while i < a.len()
        invariant
            i <= a@.len(),
            a@.len() == b@.len(),
            forall|j: int| 0 <= j < i ==> a@[j] == b@[j],
        decreases a@.len() - i,
    {
        if a[i] != b[i] {
            return false;
        }
        i = i + 1;
    }
    proof {
        assert(a@ =~= b@);
    }
    true
}

/// Decodes one wire frame back into a header. The frame must carry, in its
/// first four bytes, exactly the length of the remaining bytes; every entry
/// must stay inside the frame and hold a separator. Any violation is a
/// `Format` error, never a partial header.
pub fn decode(bytes: &Vec<u8>) -> (r: Result<Header, Error>)
    ensures
        parse_header(bytes@) is Some ==> (r matches Ok(h) && h@ == parse_header(bytes@).unwrap()),
        parse_header(bytes@) is None ==> (r matches Err(e) && e == Error::Format),
{
    let n = bytes.len();
    if n < 4 {
        return Err(Error::Format);
    }
    let outer = read_u32_le(bytes.as_slice(), 0);
    if outer as u128 != (n - 4) as u128 {
        return Err(Error::Format);
    }
    let ghost full = bytes@;
    let mut entries: Vec<Entry> = Vec::new();
    let mut pos: usize = 4;
    while pos < n
        invariant
            4 <= pos <= n,
            n == bytes@.len(),
            full == bytes@,
            parse_entries(full.subrange(4, n as int)) == (match parse_entries(
                full.subrange(pos as int, n as int),
            ) {
                Some(rest) => Some(entries_view(entries@) + rest),
                None => None::<Seq<(Seq<u8>, Seq<u8>)>>,
            }),
        decreases n - pos,
    {
        let ghost rem = full.subrange(pos as int, n as int);
        if n - pos < 4 {
            proof {
                assert(parse_entries(rem) is None);
            }
            return Err(Error::Format);
        }
        let elen_u32 = read_u32_le(bytes.as_slice(), pos);
        proof {
            assert(rem.subrange(0, 4) =~= full.subrange(pos as int, pos as int + 4));
        }
        if (elen_u32 as u128) > ((n - pos - 4) as u128) {
            proof {
                assert(parse_entries(rem) is None);
            }
            return Err(Error::Format);
        }
        let elen = elen_u32 as usize;
        let estart = pos + 4;
        let eend = estart + elen;
        let ghost e = rem.subrange(4, 4 + elen as int);
        proof {
            assert(e =~= full.subrange(estart as int, eend as int));
            lemma_find_sep(e);
        }
        let sep = scan_sep(bytes.as_slice(), estart, elen);
        if sep == elen {
            proof {
                assert(parse_entries(rem) is None);
            }
            return Err(Error::Format);
        }
        let key = copy_range(bytes.as_slice(), estart, estart + sep);
        let value = copy_range(bytes.as_slice(), estart + sep + 1, eend);
        proof {
            assert(e.subrange(0, sep as int) =~= full.subrange(estart as int, estart as int + sep as int));
            assert(e.subrange(sep as int + 1, e.len() as int) =~= full.subrange(
                estart as int + sep as int + 1,
                eend as int,
            ));
        }
        let ghost entries_before = entries@;
        entries.push(Entry { key, value });
        let ghost kv = (full.subrange(estart as int, estart as int + sep as int), full.subrange(
            estart as int + sep as int + 1,
            eend as int,
        ));
        pos = eend;
        proof {
            assert(rem.subrange(4 + elen as int, rem.len() as int) =~= full.subrange(
                pos as int,
                n as int,
            ));
            assert(entries_view(entries@) =~= entries_view(entries_before) + seq![kv]);
            match parse_entries(full.subrange(pos as int, n as int)) {
                Some(rest) => {
                    assert(parse_entries(rem) == Some(seq![kv] + rest));
                    assert(entries_view(entries_before) + (seq![kv] + rest) =~= entries_view(
                        entries@,
                    ) + rest);
                }
                None => {
                    assert(parse_entries(rem) is None);
                }
            }
        }
    }
    proof {
        assert(full.subrange(pos as int, n as int) =~= Seq::<u8>::empty());
        assert(parse_entries(full.subrange(pos as int, n as int)) == Some(
            Seq::<(Seq<u8>, Seq<u8>)>::empty(),
        ));
        assert(entries_view(entries@) + Seq::<(Seq<u8>, Seq<u8>)>::empty() =~= entries_view(
            entries@,
        ));
    }
    Ok(Header { entries })
}

/// The value of the first field named `k`, if any.
pub open spec fn lookup(es: Seq<(Seq<u8>, Seq<u8>)>, k: Seq<u8>) -> Option<Seq<u8>>
    decreases es.len(),
{
    if es.len() == 0 {
        None
    } else if es[0].0 == k {
        Some(es[0].1)
    } else {
        lookup(es.drop_first(), k)
    }
}

impl Header {
    /// The value of the first field named `key`, or `None` when the header
    /// holds no such field.
    pub fn field_value(&self, key: &[u8]) -> (r: Option<Vec<u8>>)
        ensures
            match lookup(self@, key@) {
                Some(v) => r matches Some(rv) && rv@ == v,
                None => r is None,
            },
    {
        let n = self.entries.len();
        proof {
            assert(self@.subrange(0, n as int) =~= self@);
        }
        let mut i: usize = 0;
        while i < n
            invariant
                i <= n,
                n == self.entries@.len(),
                lookup(self@, key@) == lookup(self@.subrange(i as int, n as int), key@),
            decreases n - i,
        {
            let ghost tail = self@.subrange(i as int, n as int);
            proof {
                assert(tail[0] == self@[i as int]);
            }
            if bytes_eq(self.entries[i].key.as_slice(), key) {
                let vlen = self.entries[i].value.len();
                let v = copy_range(self.entries[i].value.as_slice(), 0, vlen);
                proof {
                    assert(v@ =~= self@[i as int].1);
                }
                return Some(v);
            }
            proof {
                assert(tail.drop_first() =~= self@.subrange(i as int + 1, n as int));
            }
            i = i + 1;
        }
        None
    }
}

/// In `key ++ separator ++ value` with no separator inside the key, the first
/// separator stands exactly after the key.
pub proof fn lemma_find_sep_entry(k: Seq<u8>, v: Seq<u8>)
    requires
        !k.contains(SEPARATOR),
    ensures
        find_sep(entry_text(k, v)) == k.len(),
    decreases k.len(),
{
    let s = entry_text(k, v);
    if k.len() == 0 {
        assert(s =~= seq![SEPARATOR] + v);
        assert(s[0] == SEPARATOR);
    } else {
        assert(s[0] == k[0]);
        assert(k[0] != SEPARATOR) by {
            if k[0] == SEPARATOR {
                assert(k.contains(SEPARATOR));
            }
        }
        assert(!k.drop_first().contains(SEPARATOR)) by {
            if k.drop_first().contains(SEPARATOR) {
                let i = choose|i: int|
                    0 <= i < k.drop_first().len() && k.drop_first()[i] == SEPARATOR;
                assert(k[i + 1] == SEPARATOR);
                assert(k.contains(SEPARATOR));
            }
        }
        assert(s.drop_first() =~= entry_text(k.drop_first(), v));
        lemma_find_sep_entry(k.drop_first(), v);
    }
}

/// Entry bytes built from well-formed entries parse back to those entries.
pub proof fn lemma_parse_entries_round_trip(es: Seq<(Seq<u8>, Seq<u8>)>)
    requires
        forall|i: int| 0 <= i < es.len() ==> entry_wf(#[trigger] es[i].0, es[i].1),
    ensures
        parse_entries(body_bytes(es)) == Some(es),
    decreases es.len(),
{
    if es.len() == 0 {
        assert(body_bytes(es) =~= Seq::<u8>::empty());
    } else {
        let k = es[0].0;
        let v = es[0].1;
        assert(entry_wf(k, v));
        let b = body_bytes(es);
        let tlen = k.len() as int + 1 + v.len() as int;
        let rest = body_bytes(es.drop_first());
        assert(b =~= entry_chunk(k, v) + rest);
        assert(b.len() == 4 + tlen + rest.len());
        assert(b.subrange(0, 4) =~= u32_le_bytes(tlen as nat));
        lemma_u32_le_round_trip(tlen as nat);
        assert(u32_le_value(b.subrange(0, 4)) == tlen);
        let e = b.subrange(4, 4 + tlen);
        assert(e =~= entry_text(k, v));
        lemma_find_sep_entry(k, v);
        assert(find_sep(e) == k.len());
        assert(e.subrange(0, k.len() as int) =~= k);
        assert(e.subrange(k.len() as int + 1, e.len() as int) =~= v);
        assert(b.subrange(4 + tlen, b.len() as int) =~= rest);
        assert forall|i: int| 0 <= i < es.drop_first().len() implies entry_wf(
            #[trigger] es.drop_first()[i].0,
            es.drop_first()[i].1,
        ) by {
            assert(es.drop_first()[i] == es[i + 1]);
            assert(entry_wf(es[i + 1].0, es[i + 1].1));
        }
        lemma_parse_entries_round_trip(es.drop_first());
        assert(parse_entries(b) == Some(seq![(k, v)] + es.drop_first()));
        assert(seq![(k, v)] + es.drop_first() =~= es);
    }
}

/// Round trip: a frame encoded from a well-formed header decodes back to
/// exactly the entries it was encoded from, in order.
pub proof fn lemma_header_round_trip(es: Seq<(Seq<u8>, Seq<u8>)>)
    requires
        header_wf(es),
    ensures
        parse_header(encoded_header(es)) == Some(es),
{
    let body = body_bytes(es);
    let b = encoded_header(es);
    assert(b.len() == 4 + body.len());
    assert(b.subrange(0, 4) =~= u32_le_bytes(body.len() as nat));
    lemma_u32_le_round_trip(body.len() as nat);
    assert(b.subrange(4, b.len() as int) =~= body);
    lemma_parse_entries_round_trip(es);
}

/// A frame whose declared outer length exceeds the bytes actually supplied
/// never decodes: no partial header comes back.
pub proof fn lemma_truncated_frame_rejected(b: Seq<u8>)
    requires
        b.len() >= 4,
        u32_le_value(b.subrange(0, 4)) + 4 > b.len(),
    ensures
        parse_header(b) is None,
{
}

/// A frame whose first entry's byte range holds no separator never decodes.
pub proof fn lemma_missing_separator_rejected(b: Seq<u8>, elen: int)
    requires
        b.len() >= 8,
        u32_le_value(b.subrange(0, 4)) == b.len() - 4,
        elen == u32_le_value(b.subrange(4, 8)),
        8 + elen <= b.len(),
        !b.subrange(8, 8 + elen).contains(SEPARATOR),
    ensures
        parse_header(b) is None,
{
    let body = b.subrange(4, b.len() as int);
    assert(body.subrange(0, 4) =~= b.subrange(4, 8));
    let e = body.subrange(4, 4 + elen);
    assert(e =~= b.subrange(8, 8 + elen));
    lemma_find_sep(e);
    if find_sep(e) < e.len() {
        assert(e[find_sep(e)] == SEPARATOR);
        assert(e.contains(SEPARATOR));
    }
    assert(parse_entries(body) is None);
}

} // verus!
