//! Byte sequences: big-endian numbers, pieces and comparison.

use vstd::prelude::*;

verus! {

/// The two bytes of a number, most significant first.
pub open spec fn be16(n: u16) -> Seq<u8> {
    seq![(n / 256) as u8, (n % 256) as u8]
}

/// The four bytes of a number, most significant first.
pub open spec fn be32(n: u32) -> Seq<u8> {
    seq![
        (n / 0x1000000) as u8,
        (n / 0x10000 % 256) as u8,
        (n / 256 % 256) as u8,
        (n % 256) as u8,
    ]
}

/// The number written in two bytes.
pub open spec fn value16(s: Seq<u8>) -> u16 {
    (s[0] * 256 + s[1]) as u16
}

/// The number written in four bytes.
pub open spec fn value32(s: Seq<u8>) -> u32 {
    (s[0] * 0x1000000 + s[1] * 0x10000 + s[2] * 256 + s[3]) as u32
}

/// Reading the two bytes of a number gives the number.
pub proof fn lemma_be16_round_trip(n: u16)
    ensures
        be16(n).len() == 2,
        value16(be16(n)) == n,
{
}

/// Reading the four bytes of a number gives the number.
pub proof fn lemma_be32_round_trip(n: u32)
    ensures
        be32(n).len() == 4,
        value32(be32(n)) == n,
{
}

/// Writing the number read from two bytes gives those bytes.
pub proof fn lemma_value16_round_trip(s: Seq<u8>)
    requires
        s.len() == 2,
    ensures
        be16(value16(s)) == s,
{
}

/// Writing the number read from four bytes gives those bytes.
pub proof fn lemma_value32_round_trip(s: Seq<u8>)
    requires
        s.len() == 4,
    ensures
        be32(value32(s)) == s,
{
}

/// Appends the two bytes of `n`.
pub fn push_be16(out: &mut Vec<u8>, n: u16)
    ensures
        final(out)@ == old(out)@ + be16(n),
{
    out.push((n / 256) as u8);
    out.push((n % 256) as u8);
    assert(out@ =~= old(out)@ + be16(n));
}

/// Appends the four bytes of `n`.
pub fn push_be32(out: &mut Vec<u8>, n: u32)
    ensures
        final(out)@ == old(out)@ + be32(n),
{
    out.push((n / 0x1000000) as u8);
    out.push((n / 0x10000 % 256) as u8);
    out.push((n / 256 % 256) as u8);
    out.push((n % 256) as u8);
    assert(out@ =~= old(out)@ + be32(n));
}

/// The number in the two bytes at `at`.
pub fn read_be16(bytes: &[u8], at: usize) -> (n: u16)
    requires
        at + 2 <= bytes@.len(),
    ensures
        n == value16(bytes@.subrange(at as int, at + 2)),
{
    bytes[at] as u16 * 256 + bytes[at + 1] as u16
}

/// The number in the four bytes at `at`.
pub fn read_be32(bytes: &[u8], at: usize) -> (n: u32)
    requires
        at + 4 <= bytes@.len(),
    ensures
        n == value32(bytes@.subrange(at as int, at + 4)),
{
    bytes[at] as u32 * 0x1000000 + bytes[at + 1] as u32 * 0x10000 + bytes[at + 2] as u32 * 256
        + bytes[at + 3] as u32
}

/// A copy of the bytes from `from` up to `to`.
pub fn copy_range(bytes: &[u8], from: usize, to: usize) -> (r: Vec<u8>)
    requires
        from <= to <= bytes@.len(),
    ensures
        r@ == bytes@.subrange(from as int, to as int),
{
    let mut out: Vec<u8> = Vec::with_capacity(to - from);
    append_range(&mut out, bytes, from, to);
    out
}

/// Appends the bytes from `from` up to `to`.
pub fn append_range(out: &mut Vec<u8>, bytes: &[u8], from: usize, to: usize)
    requires
        from <= to <= bytes@.len(),
    ensures
        final(out)@ == old(out)@ + bytes@.subrange(from as int, to as int),
{
    let mut i: usize = from;
    while i < to
        invariant
            from <= i <= to <= bytes@.len(),
            out@ == old(out)@ + bytes@.subrange(from as int, i as int),
        decreases to - i,
    {
        out.push(bytes[i]);
        i += 1;
        assert(out@ =~= old(out)@ + bytes@.subrange(from as int, i as int));
    }
}

/// Appends all of `bytes`.
pub fn append(out: &mut Vec<u8>, bytes: &[u8])
    ensures
        final(out)@ == old(out)@ + bytes@,
{
    append_range(out, bytes, 0, bytes.len());
    assert(bytes@.subrange(0, bytes@.len() as int) =~= bytes@);
}

/// A copy of `bytes`.
pub fn copy(bytes: &[u8]) -> (r: Vec<u8>)
    ensures
        r@ == bytes@,
{
    let mut out: Vec<u8> = Vec::with_capacity(bytes.len());
    append(&mut out, bytes);
    assert(out@ =~= bytes@);
    out
}

/// Whether two byte sequences are equal.
pub fn same(a: &[u8], b: &[u8]) -> (r: bool)
    ensures
        r == (a@ == b@),
{
    if a.len() != b.len() {
        return false;
    }
    let mut i: usize = 0;
    while i < a.len()
        invariant
            i <= a@.len(),
            a@.len() == b@.len(),
            a@.take(i as int) == b@.take(i as int),
        decreases a@.len() - i,
    {
        if a[i] != b[i] {
            return false;
        }
        i += 1;
        assert(a@.take(i as int) =~= a@.take(i - 1).push(a@[i - 1]));
        assert(b@.take(i as int) =~= b@.take(i - 1).push(b@[i - 1]));
    }
    assert(a@.take(i as int) =~= a@);
    assert(b@.take(i as int) =~= b@);
    true
}

/// The most significant byte comes first: a small number begins with zeros, and the bytes of a
/// larger number never come before those of a smaller one.
pub proof fn lemma_most_significant_first(n: u32, m: u32)
    ensures
        n < 256 ==> be32(n) == seq![0u8, 0, 0, n as u8] && be16(n as u16) == seq![0u8, n as u8],
        n <= m ==> be32(n)[0] <= be32(m)[0],
        n <= m && m <= u16::MAX ==> be16(n as u16)[0] <= be16(m as u16)[0],
        n <= u16::MAX ==> be32(n) == seq![0u8, 0] + be16(n as u16),
{
    if n < 256 {
        assert(be32(n) =~= seq![0u8, 0, 0, n as u8]);
        assert(be16(n as u16) =~= seq![0u8, n as u8]);
    }
    if n <= u16::MAX {
        assert(be32(n) =~= seq![0u8, 0] + be16(n as u16));
    }
}

} // verus!
