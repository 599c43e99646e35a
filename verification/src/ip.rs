//! Text forms of IP addresses and endpoints: dotted quads, RFC 4291 / RFC 5952 IPv6 text, and
//! `host:port` pairs with bracketed IPv6 hosts.

use crate::proxy::addr::{IpAddr, SocketAddr};
use crate::text::{chars_of, dec_text, push_decimal, push_text};
use vstd::prelude::*;

verus! {

/// The value of a digit in the given radix (10 or 16).
pub open spec fn digit_value(c: char, radix: int) -> Option<int> {
    if '0' <= c <= '9' {
        Some(c as int - 48)
    } else if radix == 16 && 'a' <= c <= 'f' {
        Some(c as int - 87)
    } else if radix == 16 && 'A' <= c <= 'F' {
        Some(c as int - 55)
    } else {
        None
    }
}

/// Where the row of digits that starts at `at` ends.
pub open spec fn digits_end(s: Seq<char>, at: int, radix: int) -> int
    decreases s.len() - at,
{
    if 0 <= at < s.len() && digit_value(s[at], radix) is Some {
        digits_end(s, at + 1, radix)
    } else {
        at
    }
}

/// The number written in `s[from..to]`.
pub open spec fn run_value(s: Seq<char>, from: int, to: int, radix: int) -> int
    decreases to - from,
{
    if from >= to {
        0
    } else {
        run_value(s, from, to - 1, radix) * radix + digit_value(s[to - 1], radix)->0
    }
}

/// Reads a number of at most `max` at `at`. `max_digits` of 0 means any number of digits.
pub open spec fn read_number(
    s: Seq<char>,
    at: int,
    radix: int,
    max_digits: int,
    allow_zero_prefix: bool,
    max: int,
) -> Option<(int, int)> {
    let end = digits_end(s, at, radix);
    if end == at {
        None
    } else if max_digits > 0 && end - at > max_digits {
        None
    } else if !allow_zero_prefix && s[at] == '0' && end - at > 1 {
        None
    } else if run_value(s, at, end, radix) > max {
        None
    } else {
        Some((run_value(s, at, end, radix), end))
    }
}

pub proof fn lemma_digits_end(s: Seq<char>, at: int, radix: int)
    requires
        0 <= at <= s.len(),
        radix == 10 || radix == 16,
    ensures
        at <= digits_end(s, at, radix) <= s.len(),
        forall|k: int|
            at <= k < digits_end(s, at, radix) ==> digit_value(#[trigger] s[k], radix) is Some,
        digits_end(s, at, radix) < s.len() ==> digit_value(
            s[digits_end(s, at, radix)],
            radix,
        ) is None,
    decreases s.len() - at,
{
    if at < s.len() && digit_value(s[at], radix) is Some {
        lemma_digits_end(s, at + 1, radix);
    }
}

proof fn lemma_run_value_grows(s: Seq<char>, from: int, mid: int, to: int, radix: int)
    requires
        0 <= from <= mid <= to <= s.len(),
        radix == 10 || radix == 16,
        forall|k: int| from <= k < to ==> digit_value(#[trigger] s[k], radix) is Some,
    ensures
        0 <= run_value(s, from, mid, radix) <= run_value(s, from, to, radix),
    decreases to - from,
{
    if from < to {
        assert(digit_value(s[to - 1], radix) is Some);
        if mid < to {
            lemma_run_value_grows(s, from, mid, to - 1, radix);
        } else {
            lemma_run_value_grows(s, from, to - 1, to - 1, radix);
        }
    }
}

fn digit_of(c: char, radix: u64) -> (d: Option<u64>)
    requires
        radix == 10 || radix == 16,
    ensures
        match d {
            Some(v) => digit_value(c, radix as int) == Some(v as int) && v < 16,
            None => digit_value(c, radix as int) is None,
        },
{
    if '0' <= c && c <= '9' {
        Some(c as u64 - 48)
    } else if radix == 16 && 'a' <= c && c <= 'f' {
        Some(c as u64 - 87)
    } else if radix == 16 && 'A' <= c && c <= 'F' {
        Some(c as u64 - 55)
    } else {
        None
    }
}

fn number_at(
    s: &Vec<char>,
    at: usize,
    radix: u64,
    max_digits: usize,
    allow_zero_prefix: bool,
    max: u64,
) -> (r: Option<(u64, usize)>)
    requires
        at <= s@.len(),
        radix == 10 || radix == 16,
        max <= 0xffff_ffff,
    ensures
        match r {
            Some((v, end)) => {
                &&& read_number(
                    s@,
                    at as int,
                    radix as int,
                    max_digits as int,
                    allow_zero_prefix,
                    max as int,
                ) == Some((v as int, end as int))
                &&& at < end <= s@.len()
                &&& v <= max
            },
            None => read_number(
                s@,
                at as int,
                radix as int,
                max_digits as int,
                allow_zero_prefix,
                max as int,
            ) is None,
        },
{
    let mut i: usize = at;
    let mut value: u64 = 0;
    let mut big = false;
    proof {
        lemma_digits_end(s@, at as int, radix as int);
    }
    while i < s.len()
        invariant_except_break
            digits_end(s@, at as int, radix as int) == digits_end(s@, i as int, radix as int),
        invariant
            at <= i <= s@.len(),
            radix == 10 || radix == 16,
            max <= 0xffff_ffff,
            i <= digits_end(s@, at as int, radix as int) <= s@.len(),
            forall|k: int|
                at <= k < digits_end(s@, at as int, radix as int) ==> digit_value(
                    #[trigger] s@[k],
                    radix as int,
                ) is Some,
            !big ==> value == run_value(s@, at as int, i as int, radix as int) && value <= max,
            big ==> run_value(s@, at as int, i as int, radix as int) > max,
        ensures
            i == digits_end(s@, at as int, radix as int),
        decreases s@.len() - i,
    {
        match digit_of(s[i], radix) {
            Some(d) => {
                proof {
                    lemma_digits_end(s@, i as int, radix as int);
                    assert(digits_end(s@, i as int, radix as int) == digits_end(
                        s@,
                        i + 1,
                        radix as int,
                    ));
                    lemma_digits_end(s@, i + 1, radix as int);
                    lemma_run_value_grows(s@, at as int, i as int, i + 1, radix as int);
                    assert(run_value(s@, at as int, i + 1, radix as int) == run_value(
                        s@,
                        at as int,
                        i as int,
                        radix as int,
                    ) * radix + d);
                }
                if !big {
                    assert(value * radix + d <= 0xffff_ffff * 16 + 16) by (nonlinear_arith)
                        requires
                            value <= 0xffff_ffff,
                            radix <= 16,
                            d < 16,
                    ;
                    let next: u64 = value * radix + d;
                    value = next;
                    big = next > max;
                }
                i += 1;
            },
            None => {
                break;
            },
        }
    }
    if i == at {
        return None;
    }
    if max_digits > 0 && i - at > max_digits {
        return None;
    }
    if !allow_zero_prefix && s[at] == '0' && i - at > 1 {
        return None;
    }
    if big {
        return None;
    }
    Some((value, i))
}

/// Whether `c` stands at `at`.
pub open spec fn char_at(s: Seq<char>, at: int, c: char) -> bool {
    0 <= at < s.len() && s[at] == c
}

fn is_char_at(s: &Vec<char>, at: usize, c: char) -> (r: bool)
    ensures
        r == char_at(s@, at as int, c),
        r ==> at < usize::MAX,
{
    at < s.len() && s[at] == c
}

/// Reads one octet of a dotted quad: at most three digits and no superfluous zero.
pub open spec fn read_octet(s: Seq<char>, at: int) -> Option<(int, int)> {
    read_number(s, at, 10, 3, false, 255)
}

/// Reads the octets of a dotted quad from the `i`-th on, `acc` being the value of those before.
pub open spec fn read_octets(s: Seq<char>, at: int, i: int, acc: int) -> Option<(int, int)>
    decreases 4 - i,
{
    if i >= 4 {
        Some((acc, at))
    } else if i > 0 && !char_at(s, at, '.') {
        None
    } else {
        match read_octet(
            s,
            if i > 0 {
                at + 1
            } else {
                at
            },
        ) {
            None => None,
            Some((v, end)) => read_octets(s, end, i + 1, acc * 256 + v),
        }
    }
}

/// Reads a dotted quad.
pub open spec fn read_ipv4(s: Seq<char>, at: int) -> Option<(int, int)> {
    read_octets(s, at, 0, 0)
}

fn ipv4_at(s: &Vec<char>, at: usize) -> (r: Option<(u32, usize)>)
    requires
        at <= s@.len(),
    ensures
        match r {
            Some((v, end)) => read_ipv4(s@, at as int) == Some((v as int, end as int)) && at < end
                <= s@.len(),
            None => read_ipv4(s@, at as int) is None,
        },
{
    let mut i: u32 = 0;
    let mut pos: usize = at;
    let mut acc: u64 = 0;
    while i < 4
        invariant
            i <= 4,
            at <= pos <= s@.len(),
            i > 0 ==> at < pos,
            acc < (if i == 0 {
                1int
            } else if i == 1 {
                0x100
            } else if i == 2 {
                0x1_0000
            } else if i == 3 {
                0x100_0000
            } else {
                0x1_0000_0000
            }),
            read_ipv4(s@, at as int) == read_octets(s@, pos as int, i as int, acc as int),
        decreases 4 - i,
    {
        if i > 0 {
            if !is_char_at(s, pos, '.') {
                return None;
            }
            pos += 1;
        }
        match number_at(s, pos, 10, 3, false, 255) {
            Some((v, end)) => {
                acc = acc * 256 + v;
                pos = end;
            },
            None => {
                return None;
            },
        }
        i += 1;
    }
    Some((acc as u32, pos))
}

/// The groups of an IPv6 address from the `i`-th of `limit` on: the groups, whether they end in a
/// dotted quad, and where they end.
pub open spec fn read_groups(s: Seq<char>, at: int, i: int, limit: int) -> (Seq<u16>, bool, int)
    decreases limit - i,
{
    if i >= limit {
        (Seq::empty(), false, at)
    } else if i > 0 && !char_at(s, at, ':') {
        (Seq::empty(), false, at)
    } else {
        let p = if i > 0 {
            at + 1
        } else {
            at
        };
        if i < limit - 1 && read_ipv4(s, p) is Some {
            let (v, end) = read_ipv4(s, p)->0;
            (seq![(v / 0x1_0000) as u16, (v % 0x1_0000) as u16], true, end)
        } else {
            match read_number(s, p, 16, 4, true, 0xffff) {
                None => (Seq::empty(), false, at),
                Some((g, end)) => {
                    let (rest, v4, stop) = read_groups(s, end, i + 1, limit);
                    (seq![g as u16] + rest, v4, stop)
                },
            }
        }
    }
}

fn groups_at(s: &Vec<char>, at: usize, i: usize, limit: usize) -> (r: (Vec<u16>, bool, usize))
    requires
        at <= s@.len(),
        i <= limit <= 8,
    ensures
        (r.0@, r.1, r.2 as int) == read_groups(s@, at as int, i as int, limit as int),
        at <= r.2 <= s@.len(),
        r.0@.len() <= limit - i,
    decreases limit - i,
{
    if i >= limit {
        return (Vec::new(), false, at);
    }
    let mut p: usize = at;
    if i > 0 {
        if !is_char_at(s, at, ':') {
            return (Vec::new(), false, at);
        }
        p = at + 1;
    }
    if i < limit - 1 {
        if let Some((v, end)) = ipv4_at(s, p) {
            let mut groups: Vec<u16> = Vec::new();
            groups.push((v / 0x1_0000) as u16);
            groups.push((v % 0x1_0000) as u16);
            return (groups, true, end);
        }
    }
    match number_at(s, p, 16, 4, true, 0xffff) {
        None => (Vec::new(), false, at),
        Some((g, end)) => {
            let (mut rest, v4, stop): (Vec<u16>, bool, usize) = groups_at(s, end, i + 1, limit);
            rest.insert(0, g as u16);
            assert(rest@ =~= seq![g as u16] + read_groups(s@, end as int, i + 1, limit as int).0);
            (rest, v4, stop)
        },
    }
}

/// The number that eight groups stand for.
pub open spec fn groups_value(g: Seq<u16>) -> int
    decreases g.len(),
{
    if g.len() == 0 {
        0
    } else {
        groups_value(g.drop_last()) * 0x1_0000 + g.last()
    }
}

/// Reads an IPv6 address. A double colon stands for at least one group of zeros.
pub open spec fn read_ipv6(s: Seq<char>, at: int) -> Option<(int, int)> {
    let (head, head_v4, mid) = read_groups(s, at, 0, 8);
    if head.len() == 8 {
        Some((groups_value(head), mid))
    } else if head_v4 || !char_at(s, mid, ':') || !char_at(s, mid + 1, ':') {
        None
    } else {
        let (tail, _, end) = read_groups(s, mid + 2, 0, 7 - head.len());
        let zeros = Seq::new((8 - head.len() - tail.len()) as nat, |k: int| 0u16);
        Some((groups_value(head + zeros + tail), end))
    }
}

fn value_of_groups(g: &Vec<u16>) -> (v: u128)
    requires
        g@.len() == 8,
    ensures
        v == groups_value(g@),
{
    proof {
        reveal_with_fuel(groups_value, 9);
        assert(g@.drop_last() =~= g@.take(7));
        assert(g@.take(7).drop_last() =~= g@.take(6));
        assert(g@.take(6).drop_last() =~= g@.take(5));
        assert(g@.take(5).drop_last() =~= g@.take(4));
        assert(g@.take(4).drop_last() =~= g@.take(3));
        assert(g@.take(3).drop_last() =~= g@.take(2));
        assert(g@.take(2).drop_last() =~= g@.take(1));
        assert(g@.take(1).drop_last() =~= g@.take(0));
    }
    let hi: u128 = (((g[0] as u128) * 0x1_0000 + g[1] as u128) * 0x1_0000 + g[2] as u128) * 0x1_0000
        + g[3] as u128;
    let lo: u128 = (((g[4] as u128) * 0x1_0000 + g[5] as u128) * 0x1_0000 + g[6] as u128) * 0x1_0000
        + g[7] as u128;
    hi * 0x1_0000_0000_0000_0000 + lo
}

fn ipv6_at(s: &Vec<char>, at: usize) -> (r: Option<(u128, usize)>)
    requires
        at <= s@.len(),
    ensures
        match r {
            Some((v, end)) => read_ipv6(s@, at as int) == Some((v as int, end as int)) && at <= end
                <= s@.len(),
            None => read_ipv6(s@, at as int) is None,
        },
{
    let (mut head, head_v4, mid): (Vec<u16>, bool, usize) = groups_at(s, at, 0, 8);
    if head.len() == 8 {
        return Some((value_of_groups(&head), mid));
    }
    if head_v4 || !is_char_at(s, mid, ':') || !is_char_at(s, mid + 1, ':') {
        return None;
    }
    let (mut tail, _, end): (Vec<u16>, bool, usize) = groups_at(s, mid + 2, 0, 7 - head.len());
    let ghost h = head@;
    let ghost t = tail@;
    while head.len() + tail.len() < 8
        invariant
            tail@ == t,
            h.len() <= head@.len(),
            head@.len() + t.len() <= 8,
            head@ == h + Seq::new((head@.len() - h.len()) as nat, |k: int| 0u16),
        decreases 8 - head@.len() - t.len(),
    {
        head.push(0);
        assert(head@ =~= h + Seq::new((head@.len() - h.len()) as nat, |k: int| 0u16));
    }
    head.append(&mut tail);
    Some((value_of_groups(&head), end))
}

/// Reads the port that ends an endpoint's text: digits only, up to the end of the text.
pub open spec fn read_port(s: Seq<char>, at: int) -> Option<int> {
    if !char_at(s, at, ':') {
        None
    } else {
        match read_number(s, at + 1, 10, 0, true, 0xffff) {
            Some((port, end)) => if end == s.len() {
                Some(port)
            } else {
                None
            },
            None => None,
        }
    }
}

fn port_at(s: &Vec<char>, at: usize) -> (r: Option<u16>)
    requires
        at <= s@.len(),
    ensures
        match r {
            Some(p) => read_port(s@, at as int) == Some(p as int),
            None => read_port(s@, at as int) is None,
        },
{
    if !is_char_at(s, at, ':') {
        return None;
    }
    match number_at(s, at + 1, 10, 0, true, 0xffff) {
        Some((port, end)) => {
            if end == s.len() {
                Some(port as u16)
            } else {
                None
            }
        },
        None => None,
    }
}

/// The zone that may follow an IPv6 address: its number, and where it ends.
pub open spec fn read_zone(s: Seq<char>, at: int) -> (int, int) {
    if char_at(s, at, '%') {
        match read_number(s, at + 1, 10, 0, true, 0xffff_ffff) {
            Some((zone, end)) => (zone, end),
            None => (0, at),
        }
    } else {
        (0, at)
    }
}

/// The endpoint that a text denotes: `a.b.c.d:port`, or `[ipv6]:port` with an optional zone.
pub open spec fn socket_addr_of(s: Seq<char>) -> Option<SocketAddr> {
    match read_ipv4(s, 0) {
        Some((v, end)) => match read_port(s, end) {
            Some(port) => Some(
                SocketAddr { ip: IpAddr::V4(v as u32), port: port as u16, scope_id: 0 },
            ),
            None => None,
        },
        None => if !char_at(s, 0, '[') {
            None
        } else {
            match read_ipv6(s, 1) {
                None => None,
                Some((v, end)) => {
                    let (zone, close) = read_zone(s, end);
                    if !char_at(s, close, ']') {
                        None
                    } else {
                        match read_port(s, close + 1) {
                            Some(port) => Some(
                                SocketAddr {
                                    ip: IpAddr::V6(v as u128),
                                    port: port as u16,
                                    scope_id: zone as u32,
                                },
                            ),
                            None => None,
                        }
                    }
                },
            }
        },
    }
}

/// Reads an endpoint.
pub fn parse_socket_addr(text: &str) -> (r: Option<SocketAddr>)
    ensures
        r == socket_addr_of(text@),
{
    let s = chars_of(text);
    if let Some((v, end)) = ipv4_at(&s, 0) {
        return match port_at(&s, end) {
            Some(port) => Some(SocketAddr { ip: IpAddr::V4(v), port, scope_id: 0 }),
            None => None,
        };
    }
    if !is_char_at(&s, 0, '[') {
        return None;
    }
    match ipv6_at(&s, 1) {
        None => None,
        Some((v, end)) => {
            let mut zone: u32 = 0;
            let mut close: usize = end;
            if is_char_at(&s, end, '%') {
                if let Some((z, stop)) = number_at(&s, end + 1, 10, 0, true, 0xffff_ffff) {
                    zone = z as u32;
                    close = stop;
                }
            }
            if !is_char_at(&s, close, ']') {
                return None;
            }
            match port_at(&s, close + 1) {
                Some(port) => Some(SocketAddr { ip: IpAddr::V6(v), port, scope_id: zone }),
                None => None,
            }
        },
    }
}

/// The address that a bare IP text denotes.
pub open spec fn ip_of(s: Seq<char>) -> Option<IpAddr> {
    if read_ipv4(s, 0) matches Some((v, end)) && end == s.len() {
        Some(IpAddr::V4((read_ipv4(s, 0)->0).0 as u32))
    } else if read_ipv4(s, 0) is None && (read_ipv6(s, 0) matches Some((v, end)) && end
        == s.len()) {
        Some(IpAddr::V6((read_ipv6(s, 0)->0).0 as u128))
    } else {
        None
    }
}

/// Reads a bare IP address.
pub fn parse_ip(text: &str) -> (r: Option<IpAddr>)
    ensures
        r == ip_of(text@),
{
    let s = chars_of(text);
    match ipv4_at(&s, 0) {
        Some((v, end)) => {
            if end == s.len() {
                Some(IpAddr::V4(v))
            } else {
                None
            }
        },
        None => match ipv6_at(&s, 0) {
            Some((v, end)) => {
                if end == s.len() {
                    Some(IpAddr::V6(v))
                } else {
                    None
                }
            },
            None => None,
        },
    }
}

/// The text of a dotted quad.
pub open spec fn ipv4_text(v: int) -> Seq<char> {
    dec_text((v / 0x100_0000) as nat) + seq!['.'] + dec_text(((v / 0x1_0000) % 256) as nat)
        + seq!['.'] + dec_text(((v / 256) % 256) as nat) + seq!['.'] + dec_text((v % 256) as nat)
}

fn push_ipv4(out: &mut String, v: u32)
    ensures
        final(out)@ == old(out)@ + ipv4_text(v as int),
{
    push_decimal(out, (v / 0x100_0000) as u64);
    out.push('.');
    push_decimal(out, ((v / 0x1_0000) % 256) as u64);
    out.push('.');
    push_decimal(out, ((v / 256) % 256) as u64);
    out.push('.');
    push_decimal(out, (v % 256) as u64);
    assert(out@ =~= old(out)@ + ipv4_text(v as int));
}

/// The lower-case digit of a value below 16.
pub open spec fn hex_digit(d: int) -> char {
    if d < 10 {
        (48 + d) as char
    } else {
        (87 + d) as char
    }
}

/// The hexadecimal digits of `n`, without leading zeros.
pub open spec fn hex_text(n: nat) -> Seq<char>
    decreases n,
{
    if n < 16 {
        seq![hex_digit(n as int)]
    } else {
        hex_text(n / 16).push(hex_digit((n % 16) as int))
    }
}

fn hex_char(d: u16) -> (c: char)
    requires
        d < 16,
    ensures
        c == hex_digit(d as int),
{
    match d {
        0 => '0',
        1 => '1',
        2 => '2',
        3 => '3',
        4 => '4',
        5 => '5',
        6 => '6',
        7 => '7',
        8 => '8',
        9 => '9',
        10 => 'a',
        11 => 'b',
        12 => 'c',
        13 => 'd',
        14 => 'e',
        _ => 'f',
    }
}

fn push_hex(out: &mut String, n: u16)
    ensures
        final(out)@ == old(out)@ + hex_text(n as nat),
    decreases n,
{
    if n >= 16 {
        push_hex(out, n / 16);
    }
    out.push(hex_char(n % 16));
    assert(out@ =~= old(out)@ + hex_text(n as nat));
}

/// Groups in hexadecimal, separated by colons.
pub open spec fn groups_text(g: Seq<u16>) -> Seq<char>
    decreases g.len(),
{
    if g.len() == 0 {
        Seq::empty()
    } else if g.len() == 1 {
        hex_text(g[0] as nat)
    } else {
        groups_text(g.drop_last()) + seq![':'] + hex_text(g.last() as nat)
    }
}

fn push_groups(out: &mut String, g: &Vec<u16>, from: usize, to: usize)
    requires
        from <= to <= g@.len(),
    ensures
        final(out)@ == old(out)@ + groups_text(g@.subrange(from as int, to as int)),
{
    let mut i: usize = from;
    while i < to
        invariant
            from <= i <= to <= g@.len(),
            out@ == old(out)@ + groups_text(g@.subrange(from as int, i as int)),
        decreases to - i,
    {
        let ghost part = g@.subrange(from as int, i + 1);
        assert(part.drop_last() =~= g@.subrange(from as int, i as int));
        if i > from {
            out.push(':');
        }
        push_hex(out, g[i]);
        assert(out@ =~= old(out)@ + groups_text(part));
        i += 1;
    }
}

/// How many groups of zero stand in a row from `i` on.
pub open spec fn zero_run(g: Seq<u16>, i: int) -> int
    decreases g.len() - i,
{
    if 0 <= i < g.len() && g[i] == 0 {
        1 + zero_run(g, i + 1)
    } else {
        0
    }
}

/// The first of the longest rows of zeros that start at `i` or later: where it starts and how
/// long it is.
pub open spec fn longest_run(g: Seq<u16>, i: int) -> (int, int)
    decreases g.len() - i,
{
    if i >= g.len() {
        (i, 0)
    } else {
        let rest = longest_run(g, i + 1);
        if zero_run(g, i) >= rest.1 {
            (i, zero_run(g, i))
        } else {
            rest
        }
    }
}

/// The eight groups of an IPv6 address.
pub open spec fn groups_of(v: int) -> Seq<u16> {
    seq![
        (v / 0x1_0000_0000_0000_0000_0000_0000_0000) as u16,
        ((v / 0x1_0000_0000_0000_0000_0000_0000) % 0x1_0000) as u16,
        ((v / 0x1_0000_0000_0000_0000_0000) % 0x1_0000) as u16,
        ((v / 0x1_0000_0000_0000_0000) % 0x1_0000) as u16,
        ((v / 0x1_0000_0000_0000) % 0x1_0000) as u16,
        ((v / 0x1_0000_0000) % 0x1_0000) as u16,
        ((v / 0x1_0000) % 0x1_0000) as u16,
        (v % 0x1_0000) as u16,
    ]
}

/// The text of an IPv6 address: an IPv4-mapped address ends in a dotted quad; otherwise the first
/// longest row of two or more zero groups is written as a double colon.
pub open spec fn ipv6_text(v: int) -> Seq<char> {
    let g = groups_of(v);
    if v / 0x1_0000_0000 == 0xffff {
        "::ffff:"@ + ipv4_text(v % 0x1_0000_0000)
    } else {
        let (start, len) = longest_run(g, 0);
        if len > 1 {
            groups_text(g.take(start)) + "::"@ + groups_text(g.skip(start + len))
        } else {
            groups_text(g)
        }
    }
}

pub proof fn lemma_zero_run(g: Seq<u16>, i: int)
    requires
        0 <= i <= g.len(),
    ensures
        0 <= zero_run(g, i) <= g.len() - i,
    decreases g.len() - i,
{
    if i < g.len() {
        lemma_zero_run(g, i + 1);
    }
}

fn push_ipv6(out: &mut String, v: u128)
    ensures
        final(out)@ == old(out)@ + ipv6_text(v as int),
{
    if v / 0x1_0000_0000 == 0xffff {
        push_text(out, "::ffff:");
        push_ipv4(out, (v % 0x1_0000_0000) as u32);
        assert(out@ =~= old(out)@ + ipv6_text(v as int));
        return;
    }
    let mut g: Vec<u16> = Vec::new();
    g.push((v / 0x1_0000_0000_0000_0000_0000_0000_0000) as u16);
    g.push(((v / 0x1_0000_0000_0000_0000_0000_0000) % 0x1_0000) as u16);
    g.push(((v / 0x1_0000_0000_0000_0000_0000) % 0x1_0000) as u16);
    g.push(((v / 0x1_0000_0000_0000_0000) % 0x1_0000) as u16);
    g.push(((v / 0x1_0000_0000_0000) % 0x1_0000) as u16);
    g.push(((v / 0x1_0000_0000) % 0x1_0000) as u16);
    g.push(((v / 0x1_0000) % 0x1_0000) as u16);
    g.push((v % 0x1_0000) as u16);
    assert(g@ =~= groups_of(v as int));
    let mut i: usize = 8;
    let mut run: usize = 0;
    let mut start: usize = 8;
    let mut len: usize = 0;
    while i > 0
        invariant
            i <= 8,
            g@.len() == 8,
            run == zero_run(g@, i as int),
            (start as int, len as int) == longest_run(g@, i as int),
            run <= 8 - i,
            start + len <= 8,
        decreases i,
    {
        i -= 1;
        proof {
            lemma_zero_run(g@, i as int);
        }
        if g[i] == 0 {
            run += 1;
        } else {
            run = 0;
        }
        if run >= len {
            start = i;
            len = run;
        }
    }
    if len > 1 {
        push_groups(out, &g, 0, start);
        push_text(out, "::");
        push_groups(out, &g, start + len, 8);
        assert(g@.subrange(0, start as int) =~= g@.take(start as int));
        assert(g@.subrange(start + len, 8) =~= g@.skip(start + len));
    } else {
        push_groups(out, &g, 0, 8);
        assert(g@.subrange(0, 8) =~= g@);
    }
    assert(out@ =~= old(out)@ + ipv6_text(v as int));
}

/// The text of an IP address.
pub open spec fn ip_text(ip: IpAddr) -> Seq<char> {
    match ip {
        IpAddr::V4(v) => ipv4_text(v as int),
        IpAddr::V6(v) => ipv6_text(v as int),
    }
}

/// Appends the text of an IP address.
pub fn push_ip(out: &mut String, ip: IpAddr)
    ensures
        final(out)@ == old(out)@ + ip_text(ip),
{
    match ip {
        IpAddr::V4(v) => push_ipv4(out, v),
        IpAddr::V6(v) => push_ipv6(out, v),
    }
}

/// The text of an endpoint: IPv6 hosts stand in brackets, with their zone if they have one.
pub open spec fn socket_addr_text(addr: SocketAddr) -> Seq<char> {
    match addr.ip {
        IpAddr::V4(v) => ipv4_text(v as int) + seq![':'] + dec_text(addr.port as nat),
        IpAddr::V6(v) => seq!['['] + ipv6_text(v as int) + (if addr.scope_id == 0 {
            Seq::empty()
        } else {
            seq!['%'] + dec_text(addr.scope_id as nat)
        }) + seq![']', ':'] + dec_text(addr.port as nat),
    }
}

/// Appends the text of an endpoint.
pub fn push_socket_addr(out: &mut String, addr: SocketAddr)
    ensures
        final(out)@ == old(out)@ + socket_addr_text(addr),
{
    match addr.ip {
        IpAddr::V4(v) => {
            push_ipv4(out, v);
        },
        IpAddr::V6(v) => {
            out.push('[');
            push_ipv6(out, v);
            if addr.scope_id != 0 {
                out.push('%');
                push_decimal(out, addr.scope_id as u64);
            }
            out.push(']');
        },
    }
    out.push(':');
    push_decimal(out, addr.port as u64);
    assert(out@ =~= old(out)@ + socket_addr_text(addr));
}

} // verus!
