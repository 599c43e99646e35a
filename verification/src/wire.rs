//! Big-endian integers and byte-buffer helpers shared by every codec.

use vstd::prelude::*;

verus! {

/// The two big-endian bytes of `x`.
pub open spec fn be2_bytes(x: int) -> Seq<u8> {
    seq![(x / 256) as u8, (x % 256) as u8]
}

/// The four big-endian bytes of `x`.
pub open spec fn be4_bytes(x: int) -> Seq<u8> {
    seq![
        (x / 0x100_0000) as u8,
        ((x / 0x1_0000) % 256) as u8,
        ((x / 256) % 256) as u8,
        (x % 256) as u8,
    ]
}

/// The eight big-endian bytes of `x`.
#[verifier::opaque]
pub open spec fn be8_bytes(x: int) -> Seq<u8> {
    be4_bytes(x / 0x1_0000_0000) + be4_bytes(x % 0x1_0000_0000)
}

/// The sixteen big-endian bytes of `x`.
#[verifier::opaque]
pub open spec fn be16_bytes(x: int) -> Seq<u8> {
    be8_bytes(x / 0x1_0000_0000_0000_0000) + be8_bytes(x % 0x1_0000_0000_0000_0000)
}

/// The number whose big-endian bytes are the first two of `s`.
pub open spec fn be2(s: Seq<u8>) -> int {
    s[0] * 256 + s[1]
}

/// The number whose big-endian bytes are the first four of `s`.
pub open spec fn be4(s: Seq<u8>) -> int {
    s[0] * 0x100_0000 + s[1] * 0x1_0000 + s[2] * 256 + s[3]
}

/// The number whose big-endian bytes are the first eight of `s`.
#[verifier::opaque]
pub open spec fn be8(s: Seq<u8>) -> int {
    be4(s) * 0x1_0000_0000 + be4(s.skip(4))
}

/// The number whose big-endian bytes are the first sixteen of `s`.
#[verifier::opaque]
pub open spec fn be16(s: Seq<u8>) -> int {
    be8(s) * 0x1_0000_0000_0000_0000 + be8(s.skip(8))
}

/// Two-byte integers survive a trip through their wire form.
pub proof fn law_be2_round_trip(x: int, tail: Seq<u8>)
    requires
        0 <= x < 0x1_0000,
    ensures
        be2_bytes(x).len() == 2,
        be2(be2_bytes(x) + tail) == x,
{
}

/// Four-byte integers survive a trip through their wire form.
pub proof fn law_be4_round_trip(x: int, tail: Seq<u8>)
    requires
        0 <= x < 0x1_0000_0000,
    ensures
        be4_bytes(x).len() == 4,
        be4(be4_bytes(x) + tail) == x,
{
}

/// Eight-byte integers survive a trip through their wire form.
pub proof fn law_be8_round_trip(x: int, tail: Seq<u8>)
    requires
        0 <= x < 0x1_0000_0000_0000_0000,
    ensures
        be8_bytes(x).len() == 8,
        be8(be8_bytes(x) + tail) == x,
{
    reveal(be8_bytes);
    reveal(be8);
    let hi = x / 0x1_0000_0000;
    let lo = x % 0x1_0000_0000;
    law_be4_round_trip(hi, be4_bytes(lo) + tail);
    law_be4_round_trip(lo, tail);
    assert(be8_bytes(x) + tail =~= be4_bytes(hi) + (be4_bytes(lo) + tail));
    assert((be8_bytes(x) + tail).skip(4) =~= be4_bytes(lo) + tail);
}

/// Sixteen-byte integers survive a trip through their wire form.
pub proof fn law_be16_round_trip(x: int, tail: Seq<u8>)
    requires
        0 <= x < 0x1_0000_0000_0000_0000_0000_0000_0000_0000,
    ensures
        be16_bytes(x).len() == 16,
        be16(be16_bytes(x) + tail) == x,
{
    reveal(be16_bytes);
    reveal(be16);
    let hi = x / 0x1_0000_0000_0000_0000;
    let lo = x % 0x1_0000_0000_0000_0000;
    law_be8_round_trip(hi, be8_bytes(lo) + tail);
    law_be8_round_trip(lo, tail);
    assert(be16_bytes(x) + tail =~= be8_bytes(hi) + (be8_bytes(lo) + tail));
    assert((be16_bytes(x) + tail).skip(8) =~= be8_bytes(lo) + tail);
}

/// Appends the two big-endian bytes of `x`.
pub fn put_u16(out: &mut Vec<u8>, x: u16)
    ensures
        final(out)@ == old(out)@ + be2_bytes(x as int),
{
    out.push((x / 256) as u8);
    out.push((x % 256) as u8);
}

/// Appends the four big-endian bytes of `x`.
pub fn put_u32(out: &mut Vec<u8>, x: u32)
    ensures
        final(out)@ == old(out)@ + be4_bytes(x as int),
{
    out.push((x / 0x100_0000) as u8);
    out.push(((x / 0x1_0000) % 256) as u8);
    out.push(((x / 256) % 256) as u8);
    out.push((x % 256) as u8);
}

/// Appends the eight big-endian bytes of `x`.
pub fn put_u64(out: &mut Vec<u8>, x: u64)
    ensures
        final(out)@ == old(out)@ + be8_bytes(x as int),
{
    reveal(be8_bytes);
    put_u32(out, (x / 0x1_0000_0000) as u32);
    put_u32(out, (x % 0x1_0000_0000) as u32);
}

/// Appends the sixteen big-endian bytes of `x`.
pub fn put_u128(out: &mut Vec<u8>, x: u128)
    ensures
        final(out)@ == old(out)@ + be16_bytes(x as int),
{
    reveal(be16_bytes);
    put_u64(out, (x / 0x1_0000_0000_0000_0000) as u64);
    put_u64(out, (x % 0x1_0000_0000_0000_0000) as u64);
}

/// Appends every byte of `data`.
pub fn put_slice(out: &mut Vec<u8>, data: &[u8])
    ensures
        final(out)@ == old(out)@ + data@,
{
    out.extend_from_slice(data);
    assert(out@ =~= old(out)@ + data@);
}

/// Reads the two-byte big-endian number at `at`.
pub fn get_u16(data: &[u8], at: usize) -> (x: u16)
    requires
        at + 2 <= data@.len(),
    ensures
        x == be2(data@.skip(at as int)),
{
    (data[at] as u16) * 256 + data[at + 1] as u16
}

/// Reads the four-byte big-endian number at `at`.
pub fn get_u32(data: &[u8], at: usize) -> (x: u32)
    requires
        at + 4 <= data@.len(),
    ensures
        x == be4(data@.skip(at as int)),
{
    (data[at] as u32) * 0x100_0000 + (data[at + 1] as u32) * 0x1_0000 + (data[at + 2] as u32) * 256
        + data[at + 3] as u32
}

/// Reads the eight-byte big-endian number at `at`.
pub fn get_u64(data: &[u8], at: usize) -> (x: u64)
    requires
        at + 8 <= data@.len(),
    ensures
        x == be8(data@.skip(at as int)),
{
    reveal(be8);
    assert(at + 8 <= data.len());
    let hi: u32 = get_u32(data, at);
    let lo: u32 = get_u32(data, at + 4);
    assert(data@.skip(at as int).skip(4) =~= data@.skip(at + 4));
    (hi as u64) * 0x1_0000_0000 + lo as u64
}

/// Reads the sixteen-byte big-endian number at `at`.
pub fn get_u128(data: &[u8], at: usize) -> (x: u128)
    requires
        at + 16 <= data@.len(),
    ensures
        x == be16(data@.skip(at as int)),
{
    reveal(be16);
    assert(at + 16 <= data.len());
    let hi: u64 = get_u64(data, at);
    let lo: u64 = get_u64(data, at + 8);
    assert(data@.skip(at as int).skip(8) =~= data@.skip(at + 8));
    (hi as u128) * 0x1_0000_0000_0000_0000 + lo as u128
}

/// Copies `data[from..to]` into a vector of its own.
pub fn copy_range(data: &[u8], from: usize, to: usize) -> (out: Vec<u8>)
    requires
        from <= to <= data@.len(),
    ensures
        out@ == data@.subrange(from as int, to as int),
{
    let mut out: Vec<u8> = Vec::new();
    let part = vstd::slice::slice_subrange(data, from, to);
    put_slice(&mut out, part);
    assert(out@ =~= data@.subrange(from as int, to as int));
    out
}

/// Whether two byte strings are the same.
pub fn bytes_eq(a: &[u8], b: &[u8]) -> (same: bool)
    ensures
        same == (a@ == b@),
{
    if a.len() != b.len() {
        return false;
    }
    let mut i: usize = 0;
    while i < a.len()
        invariant
            a@.len() == b@.len(),
            i <= a@.len(),
            forall|k: int| 0 <= k < i ==> a@[k] == b@[k],
        decreases a@.len() - i,
    {
        if a[i] != b[i] {
            return false;
        }
        i += 1;
    }
    assert(a@ =~= b@);
    true
}

/// The number that bytes stand for, the most significant first.
pub open spec fn number(s: Seq<u8>) -> int
    decreases s.len(),
{
    if s.len() == 0 {
        0
    } else {
        number(s.drop_last()) * 256 + s.last()
    }
}

proof fn lemma_number_4(s: Seq<u8>)
    requires
        s.len() == 4,
    ensures
        number(s) == s[0] * 0x100_0000 + s[1] * 0x1_0000 + s[2] * 256 + s[3],
{
    let a = s.drop_last();
    let b = a.drop_last();
    let c = b.drop_last();
    let d = c.drop_last();
    assert(d.len() == 0);
    assert(number(d) == 0);
    assert(number(c) == s[0]);
    assert(number(b) == s[0] * 256 + s[1]);
    assert(number(a) == (s[0] * 256 + s[1]) * 256 + s[2]);
}

spec fn power(n: nat) -> int
    decreases n,
{
    if n == 0 {
        1
    } else {
        power((n - 1) as nat) * 256
    }
}

proof fn lemma_number_joined(a: Seq<u8>, b: Seq<u8>)
    ensures
        number(a + b) == number(a) * power(b.len()) + number(b),
    decreases b.len(),
{
    if b.len() == 0 {
        assert(a + b =~= a);
        assert(number(a) * 1 == number(a));
    } else {
        lemma_number_joined(a, b.drop_last());
        assert((a + b).drop_last() =~= a + b.drop_last());
        let n = number(a);
        let p = power(b.drop_last().len());
        let m = number(b.drop_last());
        assert((n * p + m) * 256 == n * (p * 256) + m * 256) by (nonlinear_arith);
    }
}

proof fn lemma_powers()
    ensures
        power(4) == 0x1_0000_0000,
        power(8) == 0x1_0000_0000_0000_0000,
{
    reveal_with_fuel(power, 9);
}

/// Integers travel with their most significant byte first: what is written in two, four, eight or
/// sixteen bytes is the number that these bytes stand for, and what is read is the number that the
/// first bytes stand for.
pub proof fn law_big_endian(x: int, s: Seq<u8>)
    ensures
        0 <= x < 0x1_0000 ==> number(be2_bytes(x)) == x,
        0 <= x < 0x1_0000_0000 ==> number(be4_bytes(x)) == x,
        0 <= x < 0x1_0000_0000_0000_0000 ==> number(be8_bytes(x)) == x,
        0 <= x < 0x1_0000_0000_0000_0000_0000_0000_0000_0000 ==> number(be16_bytes(x)) == x,
        s.len() >= 2 ==> be2(s) == number(s.take(2)),
        s.len() >= 4 ==> be4(s) == number(s.take(4)),
        s.len() >= 8 ==> be8(s) == number(s.take(8)),
        s.len() >= 16 ==> be16(s) == number(s.take(16)),
{
    lemma_read_number(s);
    if 0 <= x < 0x1_0000 {
        law_be2_round_trip(x, Seq::empty());
        lemma_read_number(be2_bytes(x));
        assert(be2_bytes(x).take(2) =~= be2_bytes(x));
        assert(be2_bytes(x) + Seq::<u8>::empty() =~= be2_bytes(x));
    }
    if 0 <= x < 0x1_0000_0000 {
        law_be4_round_trip(x, Seq::empty());
        lemma_read_number(be4_bytes(x));
        assert(be4_bytes(x).take(4) =~= be4_bytes(x));
        assert(be4_bytes(x) + Seq::<u8>::empty() =~= be4_bytes(x));
    }
    if 0 <= x < 0x1_0000_0000_0000_0000 {
        law_be8_round_trip(x, Seq::empty());
        lemma_read_number(be8_bytes(x));
        assert(be8_bytes(x).take(8) =~= be8_bytes(x));
        assert(be8_bytes(x) + Seq::<u8>::empty() =~= be8_bytes(x));
    }
    if 0 <= x < 0x1_0000_0000_0000_0000_0000_0000_0000_0000 {
        law_be16_round_trip(x, Seq::empty());
        lemma_read_number(be16_bytes(x));
        assert(be16_bytes(x).take(16) =~= be16_bytes(x));
        assert(be16_bytes(x) + Seq::<u8>::empty() =~= be16_bytes(x));
    }
}

proof fn lemma_read_number(s: Seq<u8>)
    ensures
        s.len() >= 2 ==> be2(s) == number(s.take(2)),
        s.len() >= 4 ==> be4(s) == number(s.take(4)),
        s.len() >= 8 ==> be8(s) == number(s.take(8)),
        s.len() >= 16 ==> be16(s) == number(s.take(16)),
{
    reveal(be8);
    reveal(be16);
    lemma_powers();
    if s.len() >= 2 {
        let t = s.take(2);
        assert(t.drop_last().drop_last() =~= Seq::<u8>::empty());
        reveal_with_fuel(number, 3);
    }
    if s.len() >= 4 {
        lemma_number_4(s.take(4));
    }
    if s.len() >= 8 {
        lemma_number_8(s);
    }
    if s.len() >= 16 {
        lemma_number_8(s);
        lemma_number_8(s.skip(8));
        lemma_number_joined(s.take(8), s.skip(8).take(8));
        assert(s.take(16) =~= s.take(8) + s.skip(8).take(8));
    }
}

proof fn lemma_number_8(s: Seq<u8>)
    requires
        s.len() >= 8,
    ensures
        be8(s) == number(s.take(8)),
{
    reveal(be8);
    lemma_powers();
    lemma_number_4(s.take(4));
    lemma_number_4(s.skip(4).take(4));
    lemma_number_joined(s.take(4), s.skip(4).take(4));
    assert(s.take(8) =~= s.take(4) + s.skip(4).take(4));
}

} // verus!
