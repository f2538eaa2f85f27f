use vstd::prelude::*;

verus! {

/// The value of four bytes read as a big-endian unsigned integer.
pub open spec fn be_u32(b: Seq<u8>) -> u32
    recommends
        b.len() >= 4,
{
    (b[0] as int * 0x1000000 + b[1] as int * 0x10000 + b[2] as int * 0x100 + b[3] as int) as u32
}

/// The four big-endian bytes of an unsigned integer.
pub open spec fn u32_be(n: u32) -> Seq<u8> {
    seq![(n / 0x1000000) as u8, (n / 0x10000 % 0x100) as u8, (n / 0x100 % 0x100) as u8, (n % 0x100) as u8]
}

/// Reading back the bytes of an integer gives the integer.
pub broadcast proof fn lemma_be_round_trip(n: u32)
    ensures
        #[trigger] be_u32(u32_be(n)) == n,
{
    let b = u32_be(n);
    assert(b[0] as int == n / 0x1000000);
    assert(b[1] as int == n / 0x10000 % 0x100);
    assert(b[2] as int == n / 0x100 % 0x100);
    assert(b[3] as int == n % 0x100);
    assert(n as int == (n / 0x1000000) * 0x1000000 + (n / 0x10000 % 0x100) * 0x10000
        + (n / 0x100 % 0x100) * 0x100 + n % 0x100) by (nonlinear_arith);
}

/// Reads the four bytes at `start` as a big-endian integer.
pub fn read_be_u32(bytes: &[u8], start: usize) -> (r: u32)
    requires
        start + 4 <= bytes@.len(),
    ensures
        r == be_u32(bytes@.subrange(start as int, start + 4)),
{
    let r = bytes[start] as u32 * 0x1000000 + bytes[start + 1] as u32 * 0x10000
        + bytes[start + 2] as u32 * 0x100 + bytes[start + 3] as u32;
    r
}

/// Appends the four big-endian bytes of `n`.
pub fn push_be_u32(out: &mut Vec<u8>, n: u32)
    ensures
        final(out)@ == old(out)@ + u32_be(n),
{
    out.push((n / 0x1000000) as u8);
    out.push((n / 0x10000 % 0x100) as u8);
    out.push((n / 0x100 % 0x100) as u8);
    out.push((n % 0x100) as u8);
    assert(out@ =~= old(out)@ + u32_be(n));
}

} // verus!
