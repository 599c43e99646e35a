//! QUIC variable-length integers: one, two, four or eight bytes, the length in the top two bits of
//! the first.

use crate::wire::{
    be2, be2_bytes, be4, be4_bytes, be8, be8_bytes, get_u16, get_u32, get_u64, law_be2_round_trip,
    law_be4_round_trip, law_be8_round_trip, law_big_endian, number, put_u16, put_u32, put_u64,
};
use vstd::prelude::*;

verus! {

/// The largest number that the eight-byte form can hold.
pub const MAX_VARINT: u64 = 0x3fff_ffff_ffff_ffff;

/// Why no integer could be read.
#[derive(Clone, Copy, Debug, PartialEq, Eq, Structural)]
pub enum VarintError {
    /// There are no bytes.
    Empty,
    /// The integer continues past the end of the bytes.
    Truncated,
}

/// How many bytes the integer takes.
pub open spec fn varint_size(value: u64) -> int {
    if value <= 63 {
        1
    } else if value <= 16383 {
        2
    } else if value <= 1_073_741_823 {
        4
    } else {
        8
    }
}

/// How many bytes the integer takes.
pub fn varint_len(value: u64) -> (n: usize)
    ensures
        n == varint_size(value),
{
    if value <= 63 {
        1
    } else if value <= 16383 {
        2
    } else if value <= 1_073_741_823 {
        4
    } else {
        8
    }
}

/// The bytes of an integer. One above `MAX_VARINT` loses its two top bits to the length.
pub open spec fn varint_bytes(value: u64) -> Seq<u8> {
    if value <= 63 {
        seq![value as u8]
    } else if value <= 16383 {
        be2_bytes(0x4000 + value)
    } else if value <= 1_073_741_823 {
        be4_bytes(0x8000_0000 + value)
    } else {
        be8_bytes((value | 0xc000_0000_0000_0000) as int)
    }
}

/// Appends an integer.
pub fn append_varint(out: &mut Vec<u8>, value: u64)
    ensures
        final(out)@ == old(out)@ + varint_bytes(value),
{
    if value <= 63 {
        out.push(value as u8);
        assert(out@ =~= old(out)@ + varint_bytes(value));
    } else if value <= 16383 {
        put_u16(out, 0x4000 + value as u16);
    } else if value <= 1_073_741_823 {
        put_u32(out, 0x8000_0000 + value as u32);
    } else {
        put_u64(out, value | 0xc000_0000_0000_0000);
    }
}

/// How many bytes an integer takes that starts with `first`.
pub open spec fn varint_width(first: u8) -> int {
    if first < 64 {
        1
    } else if first < 128 {
        2
    } else if first < 192 {
        4
    } else {
        8
    }
}

/// How many bytes an integer takes that starts with `first`.
pub fn width_of(first: u8) -> (n: usize)
    ensures
        n == varint_width(first),
{
    if first < 64 {
        1
    } else if first < 128 {
        2
    } else if first < 192 {
        4
    } else {
        8
    }
}

/// The integer at the front of `s`, and how many bytes it takes.
pub open spec fn varint_parse(s: Seq<u8>) -> Result<(u64, int), VarintError> {
    if s.len() == 0 {
        Err(VarintError::Empty)
    } else if s.len() < varint_width(s[0]) {
        Err(VarintError::Truncated)
    } else if s[0] < 64 {
        Ok((s[0] as u64, 1))
    } else if s[0] < 128 {
        Ok(((be2(s) - 0x4000) as u64, 2))
    } else if s[0] < 192 {
        Ok(((be4(s) - 0x8000_0000) as u64, 4))
    } else {
        Ok(((be8(s) - 0xc000_0000_0000_0000) as u64, 8))
    }
}

/// Reads the integer at the front of `bytes`, and how many bytes it takes.
pub fn parse_varint(bytes: &[u8]) -> (r: Result<(u64, usize), VarintError>)
    ensures
        match r {
            Ok((value, used)) => varint_parse(bytes@) == Ok::<(u64, int), VarintError>(
                (value, used as int),
            ) && used <= bytes@.len() && value <= MAX_VARINT,
            Err(e) => varint_parse(bytes@) == Err::<(u64, int), VarintError>(e),
        },
{
    if bytes.len() == 0 {
        return Err(VarintError::Empty);
    }
    let first: u8 = bytes[0];
    let width: usize = width_of(first);
    if bytes.len() < width {
        return Err(VarintError::Truncated);
    }
    assert(bytes@.skip(0) =~= bytes@);
    if width == 1 {
        Ok((first as u64, 1))
    } else if width == 2 {
        let x: u16 = get_u16(bytes, 0);
        Ok(((x - 0x4000) as u64, 2))
    } else if width == 4 {
        let x: u32 = get_u32(bytes, 0);
        Ok(((x - 0x8000_0000) as u64, 4))
    } else {
        let x: u64 = get_u64(bytes, 0);
        proof {
            reveal(be8);
        }
        Ok((x - 0xc000_0000_0000_0000, 8))
    }
}

/// An integer that fits reads back as itself, whatever follows it.
pub proof fn law_varint_round_trip(value: u64, tail: Seq<u8>)
    requires
        value <= MAX_VARINT,
    ensures
        varint_bytes(value).len() == varint_size(value),
        varint_parse(varint_bytes(value) + tail) == Ok::<(u64, int), VarintError>(
            (value, varint_size(value)),
        ),
{
    let s = varint_bytes(value) + tail;
    if value <= 63 {
    } else if value <= 16383 {
        law_be2_round_trip(0x4000 + value, tail);
    } else if value <= 1_073_741_823 {
        law_be4_round_trip(0x8000_0000 + value, tail);
    } else {
        assert(value | 0xc000_0000_0000_0000 == value + 0xc000_0000_0000_0000) by (bit_vector)
            requires
                value <= 0x3fff_ffff_ffff_ffff,
        ;
        let x = (value | 0xc000_0000_0000_0000) as int;
        law_be8_round_trip(x, tail);
        assert(s[0] >= 192) by {
            reveal(be8_bytes);
            assert(s[0] == (x / 0x1_0000_0000 / 0x100_0000) as u8);
        }
    }
}

/// A part of an integer's bytes is no integer, and its first byte tells how many there have to be.
pub proof fn law_varint_prefix(value: u64, got: int, part: Seq<u8>)
    requires
        value <= MAX_VARINT,
        0 <= got,
        got <= varint_size(value) ==> part.len() == got,
        got > varint_size(value) ==> part.len() >= varint_size(value),
        forall|i: int|
            0 <= i < part.len() && i < varint_size(value) ==> #[trigger] part[i] == varint_bytes(
                value,
            )[i],
    ensures
        got == 0 ==> varint_parse(part) == Err::<(u64, int), VarintError>(VarintError::Empty),
        0 < got < varint_size(value) ==> varint_parse(part) == Err::<(u64, int), VarintError>(
            VarintError::Truncated,
        ),
        part.len() > 0 ==> varint_width(part[0]) == varint_size(value),
{
    law_varint_round_trip(value, Seq::empty());
    let whole = varint_bytes(value) + Seq::<u8>::empty();
    assert(whole =~= varint_bytes(value));
    assert(varint_width(whole[0]) == varint_size(value));
    if part.len() > 0 {
        assert(part[0] == whole[0]);
    }
}

/// An integer takes the least of one, two, four and eight bytes that holds it beside the two bits that
/// tell the length, and its bytes are the number with these bits on top.
pub proof fn law_varint_form(value: u64)
    requires
        value <= MAX_VARINT,
    ensures
        ({
            let s = varint_bytes(value);
            let top = number(s);
            &&& s.len() == varint_size(value)
            &&& value < 0x40 ==> s.len() == 1 && top == value
            &&& 0x40 <= value < 0x4000 ==> s.len() == 2 && top == 0x4000 + value
            &&& 0x4000 <= value < 0x4000_0000 ==> s.len() == 4 && top == 0x8000_0000 + value
            &&& 0x4000_0000 <= value ==> s.len() == 8 && top == 0xc000_0000_0000_0000 + value
        }),
{
    law_varint_round_trip(value, Seq::empty());
    law_big_endian(0x4000 + value, Seq::empty());
    law_big_endian(0x8000_0000 + value, Seq::empty());
    if value < 0x40 {
        reveal_with_fuel(number, 2);
        assert(varint_bytes(value).drop_last() =~= Seq::<u8>::empty());
    } else if value >= 0x4000_0000 {
        assert(value | 0xc000_0000_0000_0000 == value + 0xc000_0000_0000_0000) by (bit_vector)
            requires
                value <= 0x3fff_ffff_ffff_ffff,
        ;
        law_big_endian(value + 0xc000_0000_0000_0000, Seq::empty());
    }
}

/// The two top bits of the first byte say whether an integer takes one, two, four or eight
/// bytes, and the other bits are the number, whether or not it would fit fewer bytes. Where
/// fewer bytes are there than that, nothing is read.
pub proof fn law_varint_reading(s: Seq<u8>)
    requires
        s.len() > 0,
    ensures
        ({
            let quarter = s[0] as int / 64;
            let width: int = if quarter == 0 {
                1
            } else if quarter == 1 {
                2
            } else if quarter == 2 {
                4
            } else {
                8
            };
            match varint_parse(s) {
                Ok((value, used)) => {
                    &&& used == width <= s.len()
                    &&& value == number(seq![(s[0] as int % 64) as u8] + s.subrange(1, width))
                },
                Err(e) => s.len() < width && e == VarintError::Truncated,
            }
        }),
{
    if s.len() >= varint_width(s[0]) {
        let w = varint_width(s[0]);
        let rest = seq![(s[0] as int % 64) as u8] + s.subrange(1, w);
        law_big_endian(0, rest);
        law_big_endian(0, s);
        assert(rest.take(w) =~= rest);
        if w == 1 {
            reveal_with_fuel(number, 2);
            assert(rest.drop_last() =~= Seq::<u8>::empty());
        } else if w == 2 {
            assert(be2(rest) == be2(s) - 0x4000);
        } else if w == 4 {
            assert(be4(rest) == be4(s) - 0x8000_0000);
        } else {
            reveal(be8);
            assert(be4(rest) == be4(s) - 0xc000_0000);
            assert(be4(rest.skip(4)) == be4(s.skip(4)));
            assert(be8(rest) == be8(s) - 0xc000_0000_0000_0000);
            assert(0 <= be8(rest) < 0x1_0000_0000_0000_0000);
        }
    }
}

} // verus!
