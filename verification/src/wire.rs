use vstd::prelude::*;

verus! {

/// The four little-endian bytes of a 32-bit length, as the wire carries them.
pub open spec fn u32_le_bytes(n: nat) -> Seq<u8> {
    seq![
        (n % 256) as u8,
        ((n / 256) % 256) as u8,
        ((n / 65536) % 256) as u8,
        ((n / 16777216) % 256) as u8,
    ]
}

/// The value that four little-endian bytes denote.
pub open spec fn u32_le_value(b: Seq<u8>) -> nat {
    b[0] as nat + 256 * b[1] as nat + 65536 * b[2] as nat + 16777216 * b[3] as nat
}

/// Reading back the four bytes of a 32-bit value yields the value.
pub proof fn lemma_u32_le_round_trip(n: nat)
    requires
        n < 0x1_0000_0000,
    ensures
        u32_le_value(u32_le_bytes(n)) == n,
{
    let b = u32_le_bytes(n);
    assert(u32_le_value(b) == n % 256 + 256 * ((n / 256) % 256) + 65536 * ((n / 65536) % 256)
        + 16777216 * ((n / 16777216) % 256));
    assert(n % 256 + 256 * ((n / 256) % 256) + 65536 * ((n / 65536) % 256) + 16777216 * ((n
        / 16777216) % 256) == n) by (nonlinear_arith)
        requires
            n < 0x1_0000_0000,
    ;
}

/// Appends the four little-endian bytes of `n` to `out`.
pub fn write_u32_le(out: &mut Vec<u8>, n: u32)
    ensures
        final(out)@ == old(out)@ + u32_le_bytes(n as nat),
{
    out.push((n % 256) as u8);
    out.push(((n / 256) % 256) as u8);
    out.push(((n / 65536) % 256) as u8);
    out.push(((n / 16777216) % 256) as u8);
    assert(out@ =~= old(out)@ + u32_le_bytes(n as nat));
}

/// Reads the 32-bit little-endian value stored at `at` in `buf`.
pub fn read_u32_le(buf: &[u8], at: usize) -> (r: u32)
    requires
        at + 4 <= buf@.len(),
    ensures
        r as nat == u32_le_value(buf@.subrange(at as int, at as int + 4)),
{
    let b0 = buf[at] as u32;
    let b1 = buf[at + 1] as u32;
    let b2 = buf[at + 2] as u32;
    let b3 = buf[at + 3] as u32;
    b0 + 256 * b1 + 65536 * b2 + 16777216 * b3
}

/// The four little-endian bytes are recovered from the value they denote.
pub proof fn lemma_u32_le_bytes_of_value(s: Seq<u8>)
    requires
        s.len() == 4,
    ensures
        u32_le_bytes(u32_le_value(s)) == s,
{
    let b0 = s[0] as nat;
    let b1 = s[1] as nat;
    let b2 = s[2] as nat;
    let b3 = s[3] as nat;
    let n = u32_le_value(s);
    assert(n == b0 + 256 * b1 + 65536 * b2 + 16777216 * b3);
    assert((b0 + 256 * b1 + 65536 * b2 + 16777216 * b3) % 256 == b0) by (nonlinear_arith)
        requires
            b0 <= 255,
            b1 <= 255,
            b2 <= 255,
            b3 <= 255,
    ;
    assert(((b0 + 256 * b1 + 65536 * b2 + 16777216 * b3) / 256) % 256 == b1) by (nonlinear_arith)
        requires
            b0 <= 255,
            b1 <= 255,
            b2 <= 255,
            b3 <= 255,
    ;
    assert(((b0 + 256 * b1 + 65536 * b2 + 16777216 * b3) / 65536) % 256 == b2) by (nonlinear_arith)
        requires
            b0 <= 255,
            b1 <= 255,
            b2 <= 255,
            b3 <= 255,
    ;
    assert(((b0 + 256 * b1 + 65536 * b2 + 16777216 * b3) / 16777216) % 256 == b3) by (nonlinear_arith)
        requires
            b0 <= 255,
            b1 <= 255,
            b2 <= 255,
            b3 <= 255,
    ;
    assert(u32_le_bytes(n) =~= s);
}

} // verus!
