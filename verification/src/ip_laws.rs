//! IP addresses read back from their text.

use crate::ip::{
    char_at, digit_value, digits_end, groups_of, groups_text, groups_value, hex_digit, hex_text, ip_of,
    ip_text, ipv4_text, ipv6_text, lemma_zero_run, longest_run, read_groups, read_ipv4,
    read_ipv6, read_number, read_octet, read_octets, read_port, read_zone, run_value, socket_addr_of,
    socket_addr_text, zero_run,
};
use crate::proxy::addr::{IpAddr, SocketAddr};
use crate::text::{dec_text, trim};
use crate::wire::{law_big_endian, number};
use vstd::prelude::*;

verus! {

/// Whether `d` stands in `s` at `at`.
spec fn stands_at(s: Seq<char>, at: int, d: Seq<char>) -> bool {
    &&& 0 <= at
    &&& at + d.len() <= s.len()
    &&& forall|k: int| 0 <= k < d.len() ==> s[at + k] == #[trigger] d[k]
}

/// Whether no digit stands in `s` at `at`.
spec fn no_digit_at(s: Seq<char>, at: int, radix: int) -> bool {
    at >= s.len() || digit_value(s[at], radix) is None
}

/// Whether a text consists of digits.
spec fn digits_only(d: Seq<char>, radix: int) -> bool {
    forall|k: int| 0 <= k < d.len() ==> digit_value(#[trigger] d[k], radix) is Some
}

proof fn lemma_end_of_digits(s: Seq<char>, at: int, end: int, radix: int)
    requires
        0 <= at <= end <= s.len(),
        forall|k: int| at <= k < end ==> digit_value(#[trigger] s[k], radix) is Some,
        no_digit_at(s, end, radix),
    ensures
        digits_end(s, at, radix) == end,
    decreases end - at,
{
    if at < end {
        assert(digit_value(s[at], radix) is Some);
        lemma_end_of_digits(s, at + 1, end, radix);
    }
}

proof fn lemma_run_value_moves(s: Seq<char>, at: int, d: Seq<char>, n: int, radix: int)
    requires
        stands_at(s, at, d),
        0 <= n <= d.len(),
    ensures
        run_value(s, at, at + n, radix) == run_value(d, 0, n, radix),
    decreases n,
{
    if n > 0 {
        lemma_run_value_moves(s, at, d, n - 1, radix);
        assert(s[at + (n - 1)] == d[n - 1]);
    }
}

proof fn lemma_run_value_is_local(d: Seq<char>, e: Seq<char>, n: int, radix: int)
    requires
        0 <= n <= d.len(),
        n <= e.len(),
        forall|k: int| 0 <= k < n ==> #[trigger] d[k] == e[k],
    ensures
        run_value(d, 0, n, radix) == run_value(e, 0, n, radix),
    decreases n,
{
    if n > 0 {
        lemma_run_value_is_local(d, e, n - 1, radix);
    }
}

/// A number is read where its digits stand and no further one follows.
proof fn lemma_number_is_read(
    s: Seq<char>,
    at: int,
    d: Seq<char>,
    radix: int,
    max_digits: int,
    allow_zero_prefix: bool,
    max: int,
)
    requires
        stands_at(s, at, d),
        d.len() > 0,
        digits_only(d, radix),
        no_digit_at(s, at + d.len(), radix),
        max_digits > 0 ==> d.len() <= max_digits,
        allow_zero_prefix || d[0] != '0' || d.len() == 1,
        run_value(d, 0, d.len() as int, radix) <= max,
    ensures
        read_number(s, at, radix, max_digits, allow_zero_prefix, max) == Some(
            (run_value(d, 0, d.len() as int, radix), at + d.len()),
        ),
{
    let end = at + d.len();
    assert forall|k: int| at <= k < end implies digit_value(#[trigger] s[k], radix) is Some by {
        assert(s[at + (k - at)] == d[k - at]);
    }
    lemma_end_of_digits(s, at, end, radix);
    lemma_run_value_moves(s, at, d, d.len() as int, radix);
    assert(s[at + 0] == d[0]);
}

proof fn lemma_dec_digits(n: nat)
    ensures
        dec_text(n).len() > 0,
        digits_only(dec_text(n), 10),
        run_value(dec_text(n), 0, dec_text(n).len() as int, 10) == n,
        dec_text(n)[0] == '0' ==> n == 0,
        n < 10 ==> dec_text(n).len() == 1,
        n < 100 ==> dec_text(n).len() <= 2,
        n < 1000 ==> dec_text(n).len() <= 3,
    decreases n,
{
    let d = dec_text(n);
    assert(d.last() as int == 48 + n % 10);
    if n < 10 {
        reveal_with_fuel(run_value, 2);
    } else {
        let e = dec_text(n / 10);
        lemma_dec_digits(n / 10);
        lemma_run_value_is_local(d, e, e.len() as int, 10);
        assert forall|k: int| 0 <= k < d.len() implies digit_value(#[trigger] d[k], 10) is Some by {
            if k < e.len() {
                assert(d[k] == e[k]);
            }
        }
        assert(d[0] == e[0]);
    }
}

proof fn lemma_hex_digits(n: nat)
    ensures
        hex_text(n).len() > 0,
        digits_only(hex_text(n), 16),
        run_value(hex_text(n), 0, hex_text(n).len() as int, 16) == n,
        n < 16 ==> hex_text(n).len() == 1,
        n < 256 ==> hex_text(n).len() <= 2,
        n < 4096 ==> hex_text(n).len() <= 3,
        n < 65536 ==> hex_text(n).len() <= 4,
    decreases n,
{
    let d = hex_text(n);
    let last = (n % 16) as int;
    assert(d.last() == hex_digit(last));
    assert(digit_value(hex_digit(last), 16) == Some(last));
    if n < 16 {
        reveal_with_fuel(run_value, 2);
    } else {
        let e = hex_text(n / 16);
        lemma_hex_digits(n / 16);
        lemma_run_value_is_local(d, e, e.len() as int, 16);
        assert forall|k: int| 0 <= k < d.len() implies digit_value(#[trigger] d[k], 16) is Some by {
            if k < e.len() {
                assert(d[k] == e[k]);
            }
        }
    }
}

proof fn lemma_octet_is_read(s: Seq<char>, at: int, n: int)
    requires
        0 <= n <= 255,
        stands_at(s, at, dec_text(n as nat)),
        no_digit_at(s, at + dec_text(n as nat).len(), 10),
    ensures
        read_octet(s, at) == Some((n, at + dec_text(n as nat).len())),
{
    lemma_dec_digits(n as nat);
    lemma_number_is_read(s, at, dec_text(n as nat), 10, 3, false, 255);
}

/// A dotted quad is read where it stands and no further digit follows.
#[verifier::spinoff_prover]
#[verifier::rlimit(40)]
proof fn lemma_ipv4_is_read(s: Seq<char>, at: int, v: int)
    requires
        0 <= v < 0x1_0000_0000,
        stands_at(s, at, ipv4_text(v)),
        no_digit_at(s, at + ipv4_text(v).len(), 10),
    ensures
        read_ipv4(s, at) == Some((v, at + ipv4_text(v).len())),
{
    let (a, b, c, d) = (v / 0x100_0000, (v / 0x1_0000) % 256, (v / 256) % 256, v % 256);
    let (ta, tb, tc, td) = (
        dec_text(a as nat),
        dec_text(b as nat),
        dec_text(c as nat),
        dec_text(d as nat),
    );
    let t = ipv4_text(v);
    let pb = ta.len() as int + 1;
    let pc = pb + tb.len() + 1;
    let pd = pc + tc.len() + 1;
    assert(t.len() == pd + td.len());
    assert forall|k: int| 0 <= k < ta.len() implies s[at + k] == #[trigger] ta[k] by {
        assert(t[k] == ta[k]);
    }
    assert(t[ta.len() as int] == '.');
    assert(s[at + ta.len()] == '.');
    assert forall|k: int| 0 <= k < tb.len() implies s[at + pb + k] == #[trigger] tb[k] by {
        assert(t[pb + k] == tb[k]);
        assert(s[at + (pb + k)] == t[pb + k]);
    }
    assert(t[pb + tb.len()] == '.');
    assert(s[at + (pb + tb.len())] == '.');
    assert forall|k: int| 0 <= k < tc.len() implies s[at + pc + k] == #[trigger] tc[k] by {
        assert(t[pc + k] == tc[k]);
        assert(s[at + (pc + k)] == t[pc + k]);
    }
    assert(t[pc + tc.len()] == '.');
    assert(s[at + (pc + tc.len())] == '.');
    assert forall|k: int| 0 <= k < td.len() implies s[at + pd + k] == #[trigger] td[k] by {
        assert(t[pd + k] == td[k]);
        assert(s[at + (pd + k)] == t[pd + k]);
    }
    lemma_octet_is_read(s, at, a);
    lemma_octet_is_read(s, at + pb, b);
    lemma_octet_is_read(s, at + pc, c);
    lemma_octet_is_read(s, at + pd, d);
    lemma_bytes_of(v);
    lemma_octets_follow(s, at, at + pb, at + pc, at + pd);
}

proof fn lemma_bytes_of(v: int)
    requires
        0 <= v < 0x1_0000_0000,
    ensures
        0 <= v / 0x100_0000 < 256,
        (((v / 0x100_0000) * 256 + (v / 0x1_0000) % 256) * 256 + (v / 256) % 256) * 256 + v % 256 == v,
{
}

proof fn lemma_four_bytes(a: int, b: int, c: int, d: int)
    requires
        0 <= a < 256,
        0 <= b < 256,
        0 <= c < 256,
        0 <= d < 256,
    ensures
        ({
            let v = ((a * 256 + b) * 256 + c) * 256 + d;
            v / 0x100_0000 == a && (v / 0x1_0000) % 256 == b && (v / 256) % 256 == c && v % 256 == d
        }),
{
}

/// Four numbers with a dot before each but the first are read as one.
proof fn lemma_octets_follow(s: Seq<char>, pa: int, pb: int, pc: int, pd: int)
    requires
        read_octet(s, pa) matches Some((_, end)) && end == pb - 1,
        read_octet(s, pb) matches Some((_, end)) && end == pc - 1,
        read_octet(s, pc) matches Some((_, end)) && end == pd - 1,
        read_octet(s, pd) is Some,
        char_at(s, pb - 1, '.'),
        char_at(s, pc - 1, '.'),
        char_at(s, pd - 1, '.'),
    ensures
        ({
            let (a, b, c) = (
                (read_octet(s, pa)->0).0,
                (read_octet(s, pb)->0).0,
                (read_octet(s, pc)->0).0,
            );
            let (d, end) = read_octet(s, pd)->0;
            read_ipv4(s, pa) == Some((((a * 256 + b) * 256 + c) * 256 + d, end))
        }),
{
    reveal_with_fuel(read_octets, 5);
}

/// No dotted quad is read where hexadecimal digits stand that no dot follows.
proof fn lemma_no_ipv4(s: Seq<char>, at: int, end: int)
    requires
        0 <= at <= end <= s.len(),
        forall|k: int| at <= k < end ==> digit_value(#[trigger] s[k], 16) is Some,
        end < s.len() ==> s[end] != '.' && digit_value(s[end], 16) is None,
    ensures
        read_ipv4(s, at) is None,
{
    crate::ip::lemma_digits_end(s, at, 10);
    let e = digits_end(s, at, 10);
    if e > end {
        assert(digit_value(s[end], 10) is Some);
    }
    if e < end {
        assert(digit_value(s[e], 16) is Some);
    }
    assert(!char_at(s, e, '.'));
    reveal_with_fuel(read_octets, 3);
}

proof fn lemma_groups_text_front(g: Seq<u16>)
    requires
        g.len() >= 2,
    ensures
        groups_text(g) == hex_text(g[0] as nat) + seq![':'] + groups_text(g.skip(1)),
    decreases g.len(),
{
    let head = g.drop_last();
    if g.len() == 2 {
        assert(head =~= seq![g[0]]);
        assert(g.skip(1) =~= seq![g[1]]);
        reveal_with_fuel(groups_text, 3);
        assert(groups_text(g) =~= hex_text(g[0] as nat) + seq![':'] + groups_text(g.skip(1)));
    } else {
        lemma_groups_text_front(head);
        assert(g.skip(1).drop_last() =~= head.skip(1));
        assert(groups_text(g) =~= hex_text(g[0] as nat) + seq![':'] + groups_text(g.skip(1)));
    }
}

/// What is left of the groups from the `i`-th on: a colon comes before every group but the first.
spec fn groups_part(g: Seq<u16>, i: int) -> Seq<char> {
    if i > 0 && g.len() > 0 {
        seq![':'] + groups_text(g)
    } else {
        groups_text(g)
    }
}

/// Whether an address ends at `at`: with the text, or before a bracket or a zone.
spec fn address_stop(s: Seq<char>, at: int) -> bool {
    at == s.len() || (at < s.len() && (s[at] == ']' || s[at] == '%'))
}

/// Whether the groups of an address end at `at`: with the address, or at a double colon.
spec fn groups_stop(s: Seq<char>, at: int) -> bool {
    address_stop(s, at) || (at + 1 < s.len() && s[at] == ':' && s[at + 1] == ':')
}

/// Groups are read where they stand, up to the end of the text or a double colon.
#[verifier::spinoff_prover]
#[verifier::rlimit(40)]
proof fn lemma_groups_are_read(s: Seq<char>, at: int, i: int, limit: int, g: Seq<u16>)
    requires
        0 <= i <= limit,
        g.len() <= limit - i,
        stands_at(s, at, groups_part(g, i)),
        groups_stop(s, at + groups_part(g, i).len()),
    ensures
        read_groups(s, at, i, limit) == (g, false, at + groups_part(g, i).len()),
    decreases g.len(),
{
    let text = groups_part(g, i);
    let end = at + text.len();
    if g.len() == 0 {
        assert(groups_text(g) =~= Seq::<char>::empty());
        assert(g =~= Seq::<u16>::empty());
        if i < limit {
            if i == 0 || char_at(s, at, ':') {
                let p = if i > 0 {
                    at + 1
                } else {
                    at
                };
                lemma_no_ipv4(s, p, p);
                assert(digits_end(s, p, 16) == p);
            }
        }
    } else {
        let first = hex_text(g[0] as nat);
        let rest = g.skip(1);
        let p = if i > 0 {
            at + 1
        } else {
            at
        };
        let skip = p - at;
        lemma_hex_digits(g[0] as nat);
        assert(groups_part(rest, i + 1).len() == text.len() - skip - first.len()) by {
            if g.len() == 1 {
                assert(rest.len() == 0);
            } else {
                lemma_groups_text_front(g);
            }
        }
        assert(text =~= (if i > 0 {
            seq![':']
        } else {
            Seq::<char>::empty()
        }) + first + groups_part(rest, i + 1)) by {
            if g.len() == 1 {
                assert(rest.len() == 0);
                assert(groups_text(rest) =~= Seq::<char>::empty());
            } else {
                lemma_groups_text_front(g);
            }
        }
        if i > 0 {
            assert(text[0] == ':');
            assert(s[at + 0] == ':');
        }
        assert forall|k: int| 0 <= k < first.len() implies s[p + k] == #[trigger] first[k] by {
            assert(text[skip + k] == first[k]);
            assert(s[at + (skip + k)] == text[skip + k]);
        }
        let q = p + first.len();
        let tail = groups_part(rest, i + 1);
        assert forall|k: int| 0 <= k < tail.len() implies s[q + k] == #[trigger] tail[k] by {
            assert(text[skip + first.len() + k] == tail[k]);
            assert(s[at + (skip + first.len() + k)] == text[skip + first.len() + k]);
        }
        if rest.len() > 0 {
            assert(tail[0] == ':');
            assert(s[q + 0] == ':');
        }
        assert(q < s.len() ==> s[q] == ':' || s[q] == ']' || s[q] == '%');
        assert forall|k: int| p <= k < q implies digit_value(#[trigger] s[k], 16) is Some by {
            assert(s[p + (k - p)] == first[k - p]);
        }
        lemma_no_ipv4(s, p, q);
        lemma_number_is_read(s, p, first, 16, 4, true, 0xffff);
        lemma_groups_are_read(s, q, i + 1, limit, rest);
        assert(seq![g[0]] + rest =~= g);
    }
}

proof fn lemma_zeros(g: Seq<u16>, i: int)
    requires
        0 <= i <= g.len(),
    ensures
        forall|k: int| i <= k < i + zero_run(g, i) ==> #[trigger] g[k] == 0,
    decreases g.len() - i,
{
    if i < g.len() && g[i] == 0 {
        lemma_zeros(g, i + 1);
    }
}

proof fn lemma_longest_run(g: Seq<u16>, i: int)
    requires
        0 <= i <= g.len(),
    ensures
        ({
            let (start, len) = longest_run(g, i);
            &&& i <= start
            &&& 0 <= len
            &&& start + len <= g.len()
            &&& forall|k: int| start <= k < start + len ==> #[trigger] g[k] == 0
        }),
    decreases g.len() - i,
{
    if i < g.len() {
        lemma_longest_run(g, i + 1);
        lemma_zero_run(g, i);
        lemma_zeros(g, i);
    }
}

proof fn lemma_eight_groups(g: Seq<u16>)
    requires
        g.len() == 8,
    ensures
        groups_value(g) == ((((((g[0] * 0x1_0000 + g[1]) * 0x1_0000 + g[2]) * 0x1_0000 + g[3])
            * 0x1_0000 + g[4]) * 0x1_0000 + g[5]) * 0x1_0000 + g[6]) * 0x1_0000 + g[7],
{
    reveal_with_fuel(groups_value, 9);
    assert(g.drop_last() =~= g.take(7));
    assert(g.take(7).drop_last() =~= g.take(6));
    assert(g.take(6).drop_last() =~= g.take(5));
    assert(g.take(5).drop_last() =~= g.take(4));
    assert(g.take(4).drop_last() =~= g.take(3));
    assert(g.take(3).drop_last() =~= g.take(2));
    assert(g.take(2).drop_last() =~= g.take(1));
    assert(g.take(1).drop_last() =~= g.take(0));
}

proof fn lemma_value_of_groups(v: int)
    requires
        0 <= v < 0x1_0000_0000_0000_0000_0000_0000_0000_0000,
    ensures
        groups_value(groups_of(v)) == v,
        groups_of(v).len() == 8,
{
    let g = groups_of(v);
    let x1 = v / 0x1_0000;
    let x2 = x1 / 0x1_0000;
    let x3 = x2 / 0x1_0000;
    let x4 = x3 / 0x1_0000;
    let x5 = x4 / 0x1_0000;
    let x6 = x5 / 0x1_0000;
    let x7 = x6 / 0x1_0000;
    vstd::arithmetic::div_mod::lemma_div_denominator(v, 0x1_0000, 0x1_0000);
    assert(v / 0x1_0000_0000 == x2);
    vstd::arithmetic::div_mod::lemma_div_denominator(v, 0x1_0000_0000, 0x1_0000);
    assert(v / 0x1_0000_0000_0000 == x3);
    vstd::arithmetic::div_mod::lemma_div_denominator(v, 0x1_0000_0000_0000, 0x1_0000);
    assert(v / 0x1_0000_0000_0000_0000 == x4);
    vstd::arithmetic::div_mod::lemma_div_denominator(v, 0x1_0000_0000_0000_0000, 0x1_0000);
    assert(v / 0x1_0000_0000_0000_0000_0000 == x5);
    vstd::arithmetic::div_mod::lemma_div_denominator(v, 0x1_0000_0000_0000_0000_0000, 0x1_0000);
    assert(v / 0x1_0000_0000_0000_0000_0000_0000 == x6);
    vstd::arithmetic::div_mod::lemma_div_denominator(v, 0x1_0000_0000_0000_0000_0000_0000, 0x1_0000);
    assert(v / 0x1_0000_0000_0000_0000_0000_0000_0000 == x7);
    lemma_eight_groups(g);
    assert(0 <= x7 < 0x1_0000);
    assert(g[0] == x7);
    assert(g[1] == x6 % 0x1_0000);
    assert(g[2] == x5 % 0x1_0000);
    assert(g[3] == x4 % 0x1_0000);
    assert(g[4] == x3 % 0x1_0000);
    assert(g[5] == x2 % 0x1_0000);
    assert(g[6] == x1 % 0x1_0000);
    assert(g[7] == v % 0x1_0000);
}

#[verifier::spinoff_prover]
#[verifier::rlimit(40)]
proof fn lemma_mapped_is_read(s: Seq<char>, at: int, v: int)
    requires
        0 <= v < 0x1_0000_0000_0000_0000_0000_0000_0000_0000,
        v / 0x1_0000_0000 == 0xffff,
        stands_at(s, at, ipv6_text(v)),
        address_stop(s, at + ipv6_text(v).len()),
    ensures
        read_ipv4(s, at) is None,
        read_ipv6(s, at) == Some((v, at + ipv6_text(v).len())),
{
    reveal_strlit("::ffff:");
    let t = ipv6_text(v);
    let low = v % 0x1_0000_0000;
    let quad = ipv4_text(low);
    let end = at + t.len();
    assert(t.len() == 7 + quad.len());
    assert(t[0] == ':' && t[1] == ':' && t[2] == 'f' && t[3] == 'f' && t[4] == 'f' && t[5] == 'f'
        && t[6] == ':');
    lemma_no_ipv4(s, at, at);
    assert(digits_end(s, at, 16) == at);
    assert(read_groups(s, at, 0, 8) == (Seq::<u16>::empty(), false, at));
    lemma_no_ipv4(s, at + 2, at + 6);
    let d = seq!['f', 'f', 'f', 'f'];
    reveal_with_fuel(run_value, 5);
    lemma_number_is_read(s, at + 2, d, 16, 4, true, 0xffff);
    assert forall|k: int| 0 <= k < quad.len() implies s[at + 7 + k] == #[trigger] quad[k] by {
        assert(t[7 + k] == quad[k]);
        assert(s[at + (7 + k)] == t[7 + k]);
    }
    lemma_ipv4_is_read(s, at + 7, low);
    let (hi, lo) = ((low / 0x1_0000) as u16, (low % 0x1_0000) as u16);
    assert(read_groups(s, at + 6, 1, 7) == (seq![hi, lo], true, end));
    let tail = seq![0xffffu16] + seq![hi, lo];
    assert(read_groups(s, at + 2, 0, 7) == (tail, true, end));
    let zeros = Seq::new(5, |k: int| 0u16);
    let all = Seq::<u16>::empty() + zeros + tail;
    lemma_eight_groups(all);
    assert(groups_value(all) == v);
}

/// An IPv6 address is read where it stands and ends.
#[verifier::spinoff_prover]
#[verifier::rlimit(40)]
proof fn lemma_ipv6_is_read(s: Seq<char>, at: int, v: int)
    requires
        0 <= v < 0x1_0000_0000_0000_0000_0000_0000_0000_0000,
        stands_at(s, at, ipv6_text(v)),
        address_stop(s, at + ipv6_text(v).len()),
    ensures
        read_ipv4(s, at) is None,
        read_ipv6(s, at) == Some((v, at + ipv6_text(v).len())),
{
    if v / 0x1_0000_0000 == 0xffff {
        lemma_mapped_is_read(s, at, v);
    } else {
        reveal_strlit("::");
        let t = ipv6_text(v);
        let g = groups_of(v);
        lemma_value_of_groups(v);
        lemma_longest_run(g, 0);
        let (start, len) = longest_run(g, 0);
        if len > 1 {
            let head = g.take(start);
            let tail = g.skip(start + len);
            let ht = groups_text(head);
            let tt = groups_text(tail);
            assert(t == ht + "::"@ + tt);
            let mid = ht.len() as int;
            assert(t[mid] == ':' && t[mid + 1] == ':');
            assert(s[at + mid] == ':' && s[at + (mid + 1)] == ':');
            assert forall|k: int| 0 <= k < ht.len() implies s[at + k] == #[trigger] ht[k] by {
                assert(t[k] == ht[k]);
            }
            lemma_groups_are_read(s, at, 0, 8, head);
            assert forall|k: int| 0 <= k < tt.len() implies s[at + mid + 2 + k] == #[trigger] tt[k] by {
                assert(t[mid + 2 + k] == tt[k]);
                assert(s[at + (mid + 2 + k)] == t[mid + 2 + k]);
            }
            lemma_groups_are_read(s, at + mid + 2, 0, 7 - start, tail);
            let zeros = Seq::new((8 - head.len() - tail.len()) as nat, |k: int| 0u16);
            assert(head + zeros + tail =~= g);
            lemma_first_is_no_quad(s, at, head);
        } else {
            lemma_groups_are_read(s, at, 0, 8, g);
            lemma_first_is_no_quad(s, at, g);
        }
    }
}

/// No dotted quad stands where groups stand that end.
proof fn lemma_first_is_no_quad(s: Seq<char>, at: int, g: Seq<u16>)
    requires
        stands_at(s, at, groups_text(g)),
        groups_stop(s, at + groups_text(g).len()),
    ensures
        read_ipv4(s, at) is None,
{
    if g.len() == 0 {
        assert(groups_text(g) =~= Seq::<char>::empty());
        lemma_no_ipv4(s, at, at);
    } else {
        let first = hex_text(g[0] as nat);
        let t = groups_text(g);
        lemma_hex_digits(g[0] as nat);
        if g.len() > 1 {
            lemma_groups_text_front(g);
            assert(t[first.len() as int] == ':');
            assert(s[at + first.len() as int] == ':');
        }
        assert forall|k: int| at <= k < at + first.len() implies digit_value(
            #[trigger] s[k],
            16,
        ) is Some by {
            assert(t[k - at] == first[k - at]);
            assert(s[at + (k - at)] == t[k - at]);
        }
        lemma_no_ipv4(s, at, at + first.len());
    }
}

/// Every IP address is read back from its text.
pub proof fn law_ip_text_round_trip(ip: IpAddr)
    ensures
        ip_of(ip_text(ip)) == Some(ip),
{
    match ip {
        IpAddr::V4(v) => {
            lemma_ipv4_is_read(ipv4_text(v as int), 0, v as int);
        },
        IpAddr::V6(v) => {
            lemma_ipv6_is_read(ipv6_text(v as int), 0, v as int);
        },
    }
}

proof fn lemma_port_is_read(s: Seq<char>, at: int, port: u16)
    requires
        0 <= at,
        char_at(s, at, ':'),
        stands_at(s, at + 1, dec_text(port as nat)),
        at + 1 + dec_text(port as nat).len() == s.len(),
    ensures
        read_port(s, at) == Some(port as int),
{
    lemma_dec_digits(port as nat);
    lemma_number_is_read(s, at + 1, dec_text(port as nat), 10, 0, true, 0xffff);
}

/// Every endpoint is read back from its text; an IPv4 endpoint has no zone.
#[verifier::spinoff_prover]
#[verifier::rlimit(40)]
pub proof fn law_socket_addr_text_round_trip(addr: SocketAddr)
    requires
        addr.ip is V4 ==> addr.scope_id == 0,
    ensures
        socket_addr_of(socket_addr_text(addr)) == Some(addr),
{
    let s = socket_addr_text(addr);
    let port = dec_text(addr.port as nat);
    match addr.ip {
        IpAddr::V4(v) => {
            let quad = ipv4_text(v as int);
            assert(s[quad.len() as int] == ':');
            lemma_ipv4_is_read(s, 0, v as int);
            lemma_port_is_read(s, quad.len() as int, addr.port);
        },
        IpAddr::V6(v) => {
            let host = ipv6_text(v as int);
            let zone = if addr.scope_id == 0 {
                Seq::<char>::empty()
            } else {
                seq!['%'] + dec_text(addr.scope_id as nat)
            };
            assert(s =~= seq!['['] + host + zone + seq![']', ':'] + port);
            let end = 1 + host.len() as int;
            let close = end + zone.len();
            assert(s[0] == '[');
            assert(s[close as int] == ']');
            assert(s[close as int + 1] == ':');
            assert(zone.len() > 0 ==> s[end as int] == '%');
            assert forall|k: int| 0 <= k < host.len() implies s[1 + k] == #[trigger] host[k] by {}
            lemma_no_ipv4(s, 0, 0);
            lemma_ipv6_is_read(s, 1, v as int);
            if addr.scope_id != 0 {
                let number = dec_text(addr.scope_id as nat);
                lemma_dec_digits(addr.scope_id as nat);
                assert forall|k: int| 0 <= k < number.len() implies s[end + 1 + k]
                    == #[trigger] number[k] by {
                    assert(zone[1 + k] == number[k]);
                }
                lemma_number_is_read(s, end + 1, number, 10, 0, true, 0xffff_ffff);
            }
            assert(read_zone(s, end as int) == (addr.scope_id as int, close as int));
            assert forall|k: int| 0 <= k < port.len() implies s[close + 2 + k] == #[trigger] port[k] by {}
            lemma_port_is_read(s, close as int + 1, addr.port);
        },
    }
}

/// A character that the text of an IP address may hold.
pub open spec fn is_address_char(c: char) -> bool {
    '0' <= c <= '9' || 'a' <= c <= 'f' || c == ':' || c == '.'
}

/// Whether a text is not empty and holds only characters of addresses.
pub open spec fn address_chars(s: Seq<char>) -> bool {
    s.len() > 0 && forall|k: int| 0 <= k < s.len() ==> is_address_char(#[trigger] s[k])
}

proof fn lemma_dec_chars(n: nat)
    ensures
        address_chars(dec_text(n)),
    decreases n,
{
    let d = dec_text(n);
    assert(d.last() as int == 48 + n % 10);
    if n >= 10 {
        lemma_dec_chars(n / 10);
        assert forall|k: int| 0 <= k < d.len() implies is_address_char(#[trigger] d[k]) by {
            if k < d.len() - 1 {
                assert(d[k] == dec_text(n / 10)[k]);
            }
        }
    }
}

proof fn lemma_hex_chars(n: nat)
    ensures
        address_chars(hex_text(n)),
    decreases n,
{
    let d = hex_text(n);
    assert(is_address_char(hex_digit((n % 16) as int)));
    if n >= 16 {
        lemma_hex_chars(n / 16);
        assert forall|k: int| 0 <= k < d.len() implies is_address_char(#[trigger] d[k]) by {
            if k < d.len() - 1 {
                assert(d[k] == hex_text(n / 16)[k]);
            }
        }
    }
}

proof fn lemma_groups_chars(g: Seq<u16>)
    ensures
        g.len() > 0 ==> address_chars(groups_text(g)),
        g.len() == 0 ==> groups_text(g).len() == 0,
    decreases g.len(),
{
    if g.len() == 1 {
        lemma_hex_chars(g[0] as nat);
    } else if g.len() > 1 {
        lemma_groups_chars(g.drop_last());
        lemma_hex_chars(g.last() as nat);
        let a = groups_text(g.drop_last());
        let t = groups_text(g);
        assert forall|k: int| 0 <= k < t.len() implies is_address_char(#[trigger] t[k]) by {
            if k < a.len() {
                assert(t[k] == a[k]);
            } else if k > a.len() {
                assert(t[k] == hex_text(g.last() as nat)[k - a.len() - 1]);
            }
        }
    }
}

proof fn lemma_ipv4_chars(v: int)
    requires
        0 <= v,
    ensures
        address_chars(ipv4_text(v)),
{
    let (ta, tb, tc, td) = (
        dec_text((v / 0x100_0000) as nat),
        dec_text(((v / 0x1_0000) % 256) as nat),
        dec_text(((v / 256) % 256) as nat),
        dec_text((v % 256) as nat),
    );
    lemma_dec_chars((v / 0x100_0000) as nat);
    lemma_dec_chars(((v / 0x1_0000) % 256) as nat);
    lemma_dec_chars(((v / 256) % 256) as nat);
    lemma_dec_chars((v % 256) as nat);
    let t = ipv4_text(v);
    let dot = seq!['.'];
    assert(t =~= ta + (dot + (tb + (dot + (tc + (dot + td))))));
}

/// The text of an IP address holds digits, small letters, colons and dots, and nothing else.
pub proof fn lemma_address_chars(ip: IpAddr)
    ensures
        address_chars(ip_text(ip)),
{
    match ip {
        IpAddr::V4(v) => {
            lemma_ipv4_chars(v as int);
        },
        IpAddr::V6(w) => {
            let v = w as int;
            reveal_strlit("::ffff:");
            reveal_strlit("::");
            let t = ipv6_text(v);
            if v / 0x1_0000_0000 == 0xffff {
                let quad = ipv4_text(v % 0x1_0000_0000);
                lemma_ipv4_chars(v % 0x1_0000_0000);
                assert forall|k: int| 0 <= k < t.len() implies is_address_char(#[trigger] t[k]) by {
                    if k >= 7 {
                        assert(t[k] == quad[k - 7]);
                    }
                }
            } else {
                let g = groups_of(v);
                let (start, len) = longest_run(g, 0);
                lemma_longest_run(g, 0);
                if len > 1 {
                    let a = groups_text(g.take(start));
                    let b = groups_text(g.skip(start + len));
                    lemma_groups_chars(g.take(start));
                    lemma_groups_chars(g.skip(start + len));
                    assert forall|k: int| 0 <= k < t.len() implies is_address_char(#[trigger] t[k]) by {
                        if k < a.len() {
                            assert(t[k] == a[k]);
                        } else if k >= a.len() + 2 {
                            assert(t[k] == b[k - a.len() - 2]);
                        }
                    }
                } else {
                    lemma_groups_chars(g);
                }
            }
        },
    }
}

/// Removing white space at its ends leaves the text of an IP address as it is.
pub proof fn lemma_address_is_trimmed(ip: IpAddr)
    ensures
        trim(ip_text(ip)) == ip_text(ip),
{
    lemma_address_chars(ip);
    let s = ip_text(ip);
    assert(is_address_char(s[0]));
    assert(is_address_char(s[s.len() - 1]));
}

/// A dotted quad is the decimal numbers of its four bytes, with dots between them.
pub proof fn law_dotted_quad(a: u8, b: u8, c: u8, d: u8)
    ensures
        ip_text(IpAddr::V4(number(seq![a, b, c, d]) as u32)) == dec_text(a as nat) + seq!['.']
            + dec_text(b as nat) + seq!['.'] + dec_text(c as nat) + seq!['.'] + dec_text(d as nat),
{
    let s = seq![a, b, c, d];
    law_big_endian(0, s);
    assert(s.take(4) =~= s);
    let v = number(s);
    assert(v == a * 0x100_0000 + b * 0x1_0000 + c * 256 + d);
    assert(v / 0x100_0000 == a);
    assert((v / 0x1_0000) % 256 == b);
    assert((v / 256) % 256 == c);
    assert(v % 256 == d);
}

proof fn lemma_digits_are_dec_text(d: Seq<char>)
    requires
        d.len() > 0,
        digits_only(d, 10),
        d[0] != '0' || d.len() == 1,
    ensures
        run_value(d, 0, d.len() as int, 10) >= 0,
        d == dec_text(run_value(d, 0, d.len() as int, 10) as nat),
    decreases d.len(),
{
    let n = d.len() as int;
    let last = digit_value(d[n - 1], 10)->0;
    assert(digit_value(d[n - 1], 10) is Some);
    if n == 1 {
        assert(run_value(d, 0, 0, 10) == 0);
        assert(run_value(d, 0, 1, 10) == last);
        assert(d =~= seq![(48 + last) as char]);
    } else {
        let front = d.drop_last();
        assert forall|k: int| 0 <= k < front.len() implies digit_value(
            #[trigger] front[k],
            10,
        ) is Some by {
            assert(digit_value(d[k], 10) is Some);
        }
        lemma_digits_are_dec_text(front);
        lemma_run_value_is_local(d, front, n - 1, 10);
        let before = run_value(front, 0, n - 1, 10);
        if before == 0 {
            assert(front == dec_text(0));
            assert(front[0] == '0');
        }
        let all = run_value(d, 0, n, 10);
        assert(all == before * 10 + last);
        assert(all as nat / 10 == before as nat);
        assert(all as nat % 10 == last);
        assert(d =~= front.push((48 + last) as char));
    }
}

proof fn lemma_octet_stands(s: Seq<char>, at: int)
    requires
        0 <= at,
        read_octet(s, at) is Some,
    ensures
        ({
            let (v, end) = read_octet(s, at)->0;
            &&& 0 <= v <= 255
            &&& stands_at(s, at, dec_text(v as nat))
            &&& end == at + dec_text(v as nat).len() <= s.len()
        }),
{
    let (v, end) = read_octet(s, at)->0;
    if at >= s.len() {
        assert(digits_end(s, at, 10) == at);
    }
    crate::ip::lemma_digits_end(s, at, 10);
    let d = s.subrange(at, end);
    assert forall|k: int| 0 <= k < d.len() implies digit_value(#[trigger] d[k], 10) is Some by {
        assert(digit_value(s[at + k], 10) is Some);
    }
    lemma_run_value_moves(s, at, d, end - at, 10);
    assert(d[0] == s[at]);
    lemma_digits_are_dec_text(d);
}

/// The dotted quad is the one text of an IPv4 address: no number of it has a zero in front or
/// is above 255, none is missing, and nothing stands before or behind it.
pub proof fn law_only_dotted_quads_are_read(s: Seq<char>)
    ensures
        ip_of(s) matches Some(ip) ==> (ip is V4 ==> s == ip_text(ip)),
{
    if ip_of(s) is Some && ip_of(s)->0 is V4 {
        let (a, b, c, d) = lemma_four_octets(s);
        let v = ((a * 256 + b) * 256 + c) * 256 + d;
        lemma_four_bytes(a, b, c, d);
        assert(0 <= v < 0x1_0000_0000);
        assert(ip_of(s)->0 == IpAddr::V4(v as u32));
    }
}

#[verifier::spinoff_prover]
#[verifier::rlimit(40)]
proof fn lemma_four_octets(s: Seq<char>) -> (q: (int, int, int, int))
    requires
        read_ipv4(s, 0) matches Some((v, end)) && end == s.len(),
    ensures
        ({
            let (a, b, c, d) = q;
            &&& 0 <= a <= 255 && 0 <= b <= 255 && 0 <= c <= 255 && 0 <= d <= 255
            &&& read_ipv4(s, 0) == Some((((a * 256 + b) * 256 + c) * 256 + d, s.len() as int))
            &&& s == dec_text(a as nat) + seq!['.'] + dec_text(b as nat) + seq!['.'] + dec_text(
                c as nat,
            ) + seq!['.'] + dec_text(d as nat)
        }),
{
    reveal_with_fuel(read_octets, 5);
    let (a, e1) = read_octet(s, 0)->0;
    lemma_octet_stands(s, 0);
    let (b, e2) = read_octet(s, e1 + 1)->0;
    lemma_octet_stands(s, e1 + 1);
    let (c, e3) = read_octet(s, e2 + 1)->0;
    lemma_octet_stands(s, e2 + 1);
    let (d, e4) = read_octet(s, e3 + 1)->0;
    lemma_octet_stands(s, e3 + 1);
    lemma_four_stand(
        s,
        dec_text(a as nat),
        dec_text(b as nat),
        dec_text(c as nat),
        dec_text(d as nat),
    );
    (a, b, c, d)
}

proof fn lemma_four_stand(s: Seq<char>, a: Seq<char>, b: Seq<char>, c: Seq<char>, d: Seq<char>)
    requires
        stands_at(s, 0, a),
        char_at(s, a.len() as int, '.'),
        stands_at(s, a.len() + 1int, b),
        char_at(s, a.len() + 1int + b.len(), '.'),
        stands_at(s, a.len() + 1int + b.len() + 1, c),
        char_at(s, a.len() + 1int + b.len() + 1 + c.len(), '.'),
        stands_at(s, a.len() + 1int + b.len() + 1 + c.len() + 1, d),
        s.len() == a.len() + b.len() + c.len() + d.len() + 3,
    ensures
        s == a + seq!['.'] + b + seq!['.'] + c + seq!['.'] + d,
{
    let t = a + seq!['.'] + b + seq!['.'] + c + seq!['.'] + d;
    let e1 = a.len() as int;
    let e2 = e1 + 1 + b.len();
    let e3 = e2 + 1 + c.len();
    assert forall|k: int| 0 <= k < s.len() implies s[k] == t[k] by {
        if k < e1 {
            assert(s[0 + k] == a[k]);
        } else if e1 < k < e2 {
            assert(s[e1 + 1 + (k - e1 - 1)] == b[k - e1 - 1]);
        } else if e2 < k < e3 {
            assert(s[e2 + 1 + (k - e2 - 1)] == c[k - e2 - 1]);
        } else if e3 < k {
            assert(s[e3 + 1 + (k - e3 - 1)] == d[k - e3 - 1]);
        }
    }
    assert(s =~= t);
}

/// Whether the two texts are the same but for the case of the letters that stand for digits.
pub open spec fn same_digits(s: Seq<char>, t: Seq<char>) -> bool {
    &&& s.len() == t.len()
    &&& forall|i: int|
        0 <= i < s.len() ==> #[trigger] s[i] == t[i] || ('A' <= s[i] <= 'F' && t[i] as int == s[i] as int
            + 32)
}

proof fn lemma_same_end(s: Seq<char>, t: Seq<char>, at: int, radix: int)
    requires
        same_digits(s, t),
        radix == 10 || radix == 16,
    ensures
        digits_end(s, at, radix) == digits_end(t, at, radix),
    decreases s.len() - at,
{
    if 0 <= at < s.len() {
        assert(s[at] == t[at] || ('A' <= s[at] <= 'F' && t[at] as int == s[at] as int + 32));
        lemma_same_end(s, t, at + 1, radix);
    }
}

proof fn lemma_same_value(s: Seq<char>, t: Seq<char>, from: int, to: int, radix: int)
    requires
        same_digits(s, t),
        radix == 10 || radix == 16,
        0 <= from,
        to <= s.len(),
    ensures
        run_value(s, from, to, radix) == run_value(t, from, to, radix),
    decreases to - from,
{
    if from < to {
        assert(s[to - 1] == t[to - 1] || ('A' <= s[to - 1] <= 'F' && t[to - 1] as int
            == s[to - 1] as int + 32));
        lemma_same_value(s, t, from, to - 1, radix);
    }
}

proof fn lemma_same_number(
    s: Seq<char>,
    t: Seq<char>,
    at: int,
    radix: int,
    max_digits: int,
    allow_zero_prefix: bool,
    max: int,
)
    requires
        same_digits(s, t),
        radix == 10 || radix == 16,
        0 <= at,
    ensures
        read_number(s, at, radix, max_digits, allow_zero_prefix, max) == read_number(
            t,
            at,
            radix,
            max_digits,
            allow_zero_prefix,
            max,
        ),
{
    lemma_same_end(s, t, at, radix);
    let end = digits_end(s, at, radix);
    if at < s.len() {
        crate::ip::lemma_digits_end(s, at, radix);
        lemma_same_value(s, t, at, end, radix);
        assert(s[at] == t[at] || ('A' <= s[at] <= 'F' && t[at] as int == s[at] as int + 32));
    }
}

proof fn lemma_number_goes_on(
    s: Seq<char>,
    at: int,
    radix: int,
    max_digits: int,
    allow_zero_prefix: bool,
    max: int,
)
    requires
        0 <= at,
        radix == 10 || radix == 16,
    ensures
        read_number(s, at, radix, max_digits, allow_zero_prefix, max) matches Some((_, end)) ==> at
            <= end,
{
    if at < s.len() {
        crate::ip::lemma_digits_end(s, at, radix);
    }
}

proof fn lemma_same_char(s: Seq<char>, t: Seq<char>, at: int, c: char)
    requires
        same_digits(s, t),
        !('A' <= c <= 'F'),
        !('a' <= c <= 'f'),
    ensures
        char_at(s, at, c) == char_at(t, at, c),
{
    if 0 <= at < s.len() {
        assert(s[at] == t[at] || ('A' <= s[at] <= 'F' && t[at] as int == s[at] as int + 32));
    }
}

proof fn lemma_same_octets(s: Seq<char>, t: Seq<char>, at: int, i: int, acc: int)
    requires
        same_digits(s, t),
        0 <= at,
    ensures
        read_octets(s, at, i, acc) == read_octets(t, at, i, acc),
        read_octets(s, at, i, acc) matches Some((_, end)) ==> at <= end,
    decreases 4 - i,
{
    if i < 4 {
        lemma_same_char(s, t, at, '.');
        let p = if i > 0 {
            at + 1
        } else {
            at
        };
        lemma_same_number(s, t, p, 10, 3, false, 255);
        lemma_number_goes_on(s, p, 10, 3, false, 255);
        if read_octet(s, p) is Some {
            let (v, end) = read_octet(s, p)->0;
            lemma_same_octets(s, t, end, i + 1, acc * 256 + v);
        }
    }
}

proof fn lemma_same_groups(s: Seq<char>, t: Seq<char>, at: int, i: int, limit: int)
    requires
        same_digits(s, t),
        0 <= at,
    ensures
        read_groups(s, at, i, limit) == read_groups(t, at, i, limit),
        read_groups(s, at, i, limit).2 >= at,
    decreases limit - i,
{
    if i < limit {
        lemma_same_char(s, t, at, ':');
        let p = if i > 0 {
            at + 1
        } else {
            at
        };
        lemma_same_octets(s, t, p, 0, 0);
        lemma_same_number(s, t, p, 16, 4, true, 0xffff);
        lemma_number_goes_on(s, p, 16, 4, true, 0xffff);
        if read_number(s, p, 16, 4, true, 0xffff) is Some {
            let (g, end) = read_number(s, p, 16, 4, true, 0xffff)->0;
            lemma_same_groups(s, t, end, i + 1, limit);
        }
    }
}

proof fn lemma_same_ipv6(s: Seq<char>, t: Seq<char>, at: int)
    requires
        same_digits(s, t),
        0 <= at,
    ensures
        read_ipv6(s, at) == read_ipv6(t, at),
        read_ipv6(s, at) matches Some((_, end)) ==> at <= end,
{
    lemma_same_groups(s, t, at, 0, 8);
    let (head, _, mid) = read_groups(s, at, 0, 8);
    lemma_same_char(s, t, mid, ':');
    lemma_same_char(s, t, mid + 1, ':');
    lemma_same_groups(s, t, mid + 2, 0, 7 - head.len());
}

/// The letters of an address may be capitals: the address is the same.
pub proof fn law_capitals_are_read(s: Seq<char>, t: Seq<char>)
    requires
        same_digits(s, t),
    ensures
        ip_of(s) == ip_of(t),
        socket_addr_of(s) == socket_addr_of(t),
{
    lemma_same_octets(s, t, 0, 0, 0);
    lemma_same_ipv6(s, t, 0);
    lemma_same_ipv6(s, t, 1);
    lemma_same_char(s, t, 0, '[');
    if read_ipv4(s, 0) is Some {
        let (_, end) = read_ipv4(s, 0)->0;
        lemma_same_char(s, t, end, ':');
        lemma_same_number(s, t, end + 1, 10, 0, true, 0xffff);
    }
    if read_ipv6(s, 1) is Some {
        let (_, end) = read_ipv6(s, 1)->0;
        lemma_same_char(s, t, end, '%');
        lemma_same_number(s, t, end + 1, 10, 0, true, 0xffff_ffff);
        lemma_number_goes_on(s, end + 1, 10, 0, true, 0xffff_ffff);
        let (_, close) = read_zone(s, end);
        lemma_same_char(s, t, close, ']');
        lemma_same_char(s, t, close + 1, ':');
        lemma_same_number(s, t, close + 2, 10, 0, true, 0xffff);
    }
}

/// An endpoint is an address and a port behind a colon, in any number of digits: one above 65535
/// is refused, and so is an address without a port.
#[verifier::spinoff_prover]
#[verifier::rlimit(40)]
pub proof fn law_ports_of_endpoints(ip: IpAddr, d: Seq<char>)
    requires
        d.len() > 0,
        forall|i: int| 0 <= i < d.len() ==> '0' <= #[trigger] d[i] <= '9',
    ensures
        ({
            let host = if ip is V4 {
                ip_text(ip)
            } else {
                seq!['['] + ip_text(ip) + seq![']']
            };
            let port = run_value(d, 0, d.len() as int, 10);
            &&& socket_addr_of(host + seq![':'] + d) == if port <= 0xffff {
                Some(SocketAddr { ip, port: port as u16, scope_id: 0 })
            } else {
                None
            }
            &&& socket_addr_of(host) is None
            &&& socket_addr_of(host + seq![':']) is None
        }),
{
    let text = ip_text(ip);
    let port = run_value(d, 0, d.len() as int, 10);
    assert(digits_only(d, 10));
    if let IpAddr::V4(v) = ip {
        lemma_ends_after_quad(text + seq![':'] + d, v as int, d);
        lemma_ends_after_quad(text + seq![':'], v as int, Seq::empty());
        lemma_ipv4_is_read(text, 0, v as int);
    } else {
        let v = ip->V6_0 as int;
        let host = seq!['['] + text + seq![']'];
        lemma_bracket_is_no_quad(host);
        lemma_bracket_is_no_quad(host + seq![':']);
        lemma_bracket_is_no_quad(host + seq![':'] + d);
        lemma_ends_after_bracket(host + seq![':'] + d, text, v, d);
        lemma_ends_after_bracket(host + seq![':'], text, v, Seq::empty());
        assert(stands_at(host, 1, text)) by {
            assert forall|k: int| 0 <= k < text.len() implies host[1 + k] == #[trigger] text[k] by {}
        }
        lemma_ipv6_is_read(host, 1, v);
    }
}

proof fn lemma_ends_after_quad(s: Seq<char>, v: int, d: Seq<char>)
    requires
        0 <= v < 0x1_0000_0000,
        s == ipv4_text(v) + seq![':'] + d,
        digits_only(d, 10),
    ensures
        read_ipv4(s, 0) == Some((v, ipv4_text(v).len() as int)),
        d.len() == 0 ==> read_port(s, ipv4_text(v).len() as int) is None,
        d.len() > 0 ==> read_port(s, ipv4_text(v).len() as int) == if run_value(
            d,
            0,
            d.len() as int,
            10,
        ) <= 0xffff {
            Some(run_value(d, 0, d.len() as int, 10))
        } else {
            None
        },
{
    let t = ipv4_text(v);
    assert forall|k: int| 0 <= k < t.len() implies s[0 + k] == #[trigger] t[k] by {}
    lemma_ipv4_is_read(s, 0, v);
    assert(s.skip(t.len() as int + 1) =~= d);
    lemma_port_at_the_end(s, t.len() as int, d);
}

proof fn lemma_port_at_the_end(s: Seq<char>, at: int, d: Seq<char>)
    requires
        0 <= at,
        char_at(s, at, ':'),
        s.skip(at + 1) == d,
        digits_only(d, 10),
    ensures
        d.len() == 0 ==> read_port(s, at) is None,
        d.len() > 0 ==> read_port(s, at) == if run_value(d, 0, d.len() as int, 10) <= 0xffff {
            Some(run_value(d, 0, d.len() as int, 10))
        } else {
            None
        },
{
    let p = at + 1;
    assert(s.len() == p + d.len());
    assert forall|k: int| 0 <= k < d.len() implies s[p + k] == #[trigger] d[k] by {
        assert(s.skip(p)[k] == d[k]);
    }
    assert forall|k: int| p <= k < s.len() implies digit_value(#[trigger] s[k], 10) is Some by {
        assert(s[p + (k - p)] == d[k - p]);
        assert(digit_value(d[k - p], 10) is Some);
    }
    lemma_end_of_digits(s, p, s.len() as int, 10);
    lemma_run_value_moves(s, p, d, d.len() as int, 10);
}

proof fn lemma_ends_after_bracket(s: Seq<char>, text: Seq<char>, v: int, d: Seq<char>)
    requires
        0 <= v < 0x1_0000_0000_0000_0000_0000_0000_0000_0000,
        text == ipv6_text(v),
        s == seq!['['] + text + seq![']'] + seq![':'] + d,
        digits_only(d, 10),
    ensures
        read_ipv6(s, 1) == Some((v, 1 + text.len() as int)),
        read_zone(s, 1 + text.len() as int) == (0int, 1 + text.len() as int),
        char_at(s, 1 + text.len() as int, ']'),
        d.len() == 0 ==> read_port(s, 2 + text.len() as int) is None,
        d.len() > 0 ==> read_port(s, 2 + text.len() as int) == if run_value(
            d,
            0,
            d.len() as int,
            10,
        ) <= 0xffff {
            Some(run_value(d, 0, d.len() as int, 10))
        } else {
            None
        },
{
    assert forall|k: int| 0 <= k < text.len() implies s[1 + k] == #[trigger] text[k] by {}
    lemma_ipv6_is_read(s, 1, v);
    assert(s.skip(3 + text.len() as int) =~= d);
    lemma_port_at_the_end(s, 2 + text.len() as int, d);
}

proof fn lemma_bracket_is_no_quad(s: Seq<char>)
    requires
        s.len() > 0,
        s[0] == '[',
    ensures
        read_ipv4(s, 0) is None,
{
    assert(digits_end(s, 0, 10) == 0);
}

/// Texts with colons between them.
pub open spec fn with_colons(d: Seq<Seq<char>>) -> Seq<char>
    decreases d.len(),
{
    if d.len() == 0 {
        Seq::empty()
    } else if d.len() == 1 {
        d[0]
    } else {
        d[0] + seq![':'] + with_colons(d.skip(1))
    }
}

/// Whether that is one to four hexadecimal digits.
pub open spec fn is_group(d: Seq<char>) -> bool {
    &&& 1 <= d.len() <= 4
    &&& forall|i: int|
        0 <= i < d.len() ==> '0' <= #[trigger] d[i] <= '9' || 'a' <= d[i] <= 'f' || 'A' <= d[i]
            <= 'F'
}

/// The numbers of groups of digits.
pub open spec fn group_numbers(d: Seq<Seq<char>>) -> Seq<u16> {
    d.map_values(|g: Seq<char>| run_value(g, 0, g.len() as int, 16) as u16)
}

spec fn all_groups(d: Seq<Seq<char>>) -> bool {
    forall|i: int| 0 <= i < d.len() ==> is_group(#[trigger] d[i])
}

spec fn colons_part(d: Seq<Seq<char>>, i: int) -> Seq<char> {
    if i > 0 && d.len() > 0 {
        seq![':'] + with_colons(d)
    } else {
        with_colons(d)
    }
}

proof fn lemma_group_number(d: Seq<char>)
    requires
        is_group(d),
    ensures
        digits_only(d, 16),
        0 <= run_value(d, 0, d.len() as int, 16) <= 0xffff,
{
    reveal_with_fuel(run_value, 5);
    assert forall|k: int| 0 <= k < d.len() implies digit_value(#[trigger] d[k], 16) is Some && 0
        <= digit_value(d[k], 16)->0 < 16 by {}
}

#[verifier::spinoff_prover]
#[verifier::rlimit(40)]
proof fn lemma_spelled_groups_are_read(
    s: Seq<char>,
    at: int,
    i: int,
    limit: int,
    d: Seq<Seq<char>>,
)
    requires
        0 <= i <= limit,
        d.len() <= limit - i,
        all_groups(d),
        stands_at(s, at, colons_part(d, i)),
        groups_stop(s, at + colons_part(d, i).len()),
    ensures
        read_groups(s, at, i, limit) == (group_numbers(d), false, at + colons_part(d, i).len()),
    decreases d.len(),
{
    let text = colons_part(d, i);
    let p = if i > 0 {
        at + 1
    } else {
        at
    };
    if d.len() == 0 {
        assert(group_numbers(d) =~= Seq::<u16>::empty());
        if i < limit {
            if i == 0 || char_at(s, at, ':') {
                lemma_no_ipv4(s, p, p);
                assert(digits_end(s, p, 16) == p);
            }
        }
    } else {
        let first = d[0];
        let rest = d.skip(1);
        let skip = p - at;
        assert(is_group(d[0]));
        lemma_group_number(first);
        let tail = colons_part(rest, i + 1);
        assert(text =~= (if i > 0 {
            seq![':']
        } else {
            Seq::<char>::empty()
        }) + first + tail);
        if i > 0 {
            assert(text[0] == ':');
            assert(s[at + 0] == ':');
        }
        assert forall|k: int| 0 <= k < first.len() implies s[p + k] == #[trigger] first[k] by {
            assert(text[skip + k] == first[k]);
            assert(s[at + (skip + k)] == text[skip + k]);
        }
        let q = p + first.len();
        assert forall|k: int| 0 <= k < tail.len() implies s[q + k] == #[trigger] tail[k] by {
            assert(text[skip + first.len() + k] == tail[k]);
            assert(s[at + (skip + first.len() + k)] == text[skip + first.len() + k]);
        }
        if rest.len() > 0 {
            assert(tail[0] == ':');
            assert(s[q + 0] == ':');
        }
        assert(q < s.len() ==> s[q] == ':' || s[q] == ']' || s[q] == '%');
        assert forall|k: int| p <= k < q implies digit_value(#[trigger] s[k], 16) is Some by {
            assert(s[p + (k - p)] == first[k - p]);
            assert(digit_value(first[k - p], 16) is Some);
        }
        lemma_no_ipv4(s, p, q);
        lemma_number_is_read(s, p, first, 16, 4, true, 0xffff);
        assert forall|k: int| 0 <= k < rest.len() implies is_group(#[trigger] rest[k]) by {
            assert(is_group(d[k + 1]));
        }
        lemma_spelled_groups_are_read(s, q, i + 1, limit, rest);
        assert(group_numbers(d) =~= seq![run_value(first, 0, first.len() as int, 16) as u16]
            + group_numbers(rest));
    }
}

/// Eight groups of one to four digits with colons between them are an IPv6 address, with zeros
/// in front of a group or without.
pub proof fn law_eight_groups_are_an_address(d: Seq<Seq<char>>)
    requires
        d.len() == 8,
        forall|i: int| 0 <= i < d.len() ==> is_group(#[trigger] d[i]),
    ensures
        ({
            let g = group_numbers(d);
            ip_of(with_colons(d)) == Some(
                IpAddr::V6(
                    ((((((((g[0] * 0x1_0000 + g[1]) * 0x1_0000 + g[2]) * 0x1_0000 + g[3]) * 0x1_0000
                        + g[4]) * 0x1_0000 + g[5]) * 0x1_0000 + g[6]) * 0x1_0000 + g[7])) as u128,
                ),
            )
        }),
{
    let s = with_colons(d);
    lemma_spelled_groups_are_read(s, 0, 0, 8, d);
    lemma_spelled_is_no_quad(s, d);
    lemma_eight_groups(group_numbers(d));
}

proof fn lemma_spelled_is_no_quad(s: Seq<char>, d: Seq<Seq<char>>)
    requires
        d.len() > 0,
        all_groups(d),
        stands_at(s, 0, with_colons(d)),
        groups_stop(s, with_colons(d).len() as int),
    ensures
        read_ipv4(s, 0) is None,
{
    let first = d[0];
    let t = with_colons(d);
    assert(is_group(d[0]));
    lemma_group_number(first);
    if d.len() > 1 {
        assert(t[first.len() as int] == ':');
        assert(s[0 + first.len() as int] == ':');
    }
    assert forall|k: int| 0 <= k < first.len() implies digit_value(#[trigger] s[k], 16) is Some by {
        assert(t[k] == first[k]);
        assert(s[0 + k] == t[k]);
        assert(digit_value(first[k], 16) is Some);
    }
    lemma_no_ipv4(s, 0, first.len() as int);
}

/// Two colons stand for as many groups of zero as eight groups lack, wherever they stand.
#[verifier::spinoff_prover]
#[verifier::rlimit(40)]
pub proof fn law_two_colons_are_zeros(head: Seq<Seq<char>>, tail: Seq<Seq<char>>)
    requires
        head.len() + tail.len() <= 7,
        forall|i: int| 0 <= i < head.len() ==> is_group(#[trigger] head[i]),
        forall|i: int| 0 <= i < tail.len() ==> is_group(#[trigger] tail[i]),
    ensures
        ip_of(with_colons(head) + "::"@ + with_colons(tail)) == ip_of(
            with_colons(head + Seq::new((8 - head.len() - tail.len()) as nat, |i: int| "0"@) + tail),
        ),
        ip_of(with_colons(head) + "::"@ + with_colons(tail)) is Some,
{
    reveal_strlit("::");
    reveal_strlit("0");
    let n = (8 - head.len() - tail.len()) as nat;
    let all = head + Seq::new(n, |i: int| "0"@) + tail;
    assert forall|i: int| 0 <= i < all.len() implies is_group(#[trigger] all[i]) by {
        if i < head.len() {
            assert(is_group(head[i]));
        } else if i >= head.len() + n {
            assert(is_group(tail[i - head.len() - n]));
        }
    }
    law_eight_groups_are_an_address(all);
    lemma_eight_groups(group_numbers(all));
    let s = with_colons(head) + "::"@ + with_colons(tail);
    let ht = with_colons(head);
    let tt = with_colons(tail);
    let mid = ht.len() as int;
    assert(s[mid] == ':' && s[mid + 1] == ':');
    assert forall|k: int| 0 <= k < ht.len() implies s[0 + k] == #[trigger] ht[k] by {}
    assert forall|k: int| 0 <= k < tt.len() implies s[mid + 2 + k] == #[trigger] tt[k] by {}
    lemma_spelled_groups_are_read(s, 0, 0, 8, head);
    lemma_spelled_groups_are_read(s, mid + 2, 0, 7 - head.len(), tail);
    if head.len() == 0 {
        lemma_no_ipv4(s, 0, 0);
    } else {
        lemma_spelled_is_no_quad(s, head);
    }
    let zeros = Seq::new(n, |k: int| 0u16);
    reveal_with_fuel(run_value, 2);
    assert(run_value("0"@, 0, 1, 16) == 0);
    assert(group_numbers(head) + zeros + group_numbers(tail) =~= group_numbers(all));
}

/// A group is written in small letters and without zeros in front.
pub proof fn law_groups_are_written_short(n: u16)
    ensures
        is_group(hex_text(n as nat)),
        run_value(hex_text(n as nat), 0, hex_text(n as nat).len() as int, 16) == n,
        n > 0 ==> hex_text(n as nat)[0] != '0',
        n == 0 ==> hex_text(n as nat) == seq!['0'],
        forall|i: int|
            0 <= i < hex_text(n as nat).len() ==> !('A' <= #[trigger] hex_text(n as nat)[i] <= 'F'),
{
    lemma_hex_digits(n as nat);
    lemma_hex_is_small(n as nat);
}

proof fn lemma_hex_is_small(n: nat)
    ensures
        hex_text(n).len() > 0,
        n > 0 ==> hex_text(n)[0] != '0',
        forall|i: int|
            0 <= i < hex_text(n).len() ==> '0' <= #[trigger] hex_text(n)[i] <= '9' || 'a' <= hex_text(
                n,
            )[i] <= 'f',
    decreases n,
{
    if n >= 16 {
        lemma_hex_is_small(n / 16);
    }
}

/// The groups of an address are written with colons between them. Where two or more groups in
/// a row are zero, the longest such row, and the first of those, is left out between two colons.
/// An address that stands for one of IPv4 ends in a dotted quad.
pub proof fn law_form_of_ipv6(v: u128)
    ensures
        ({
            let g = groups_of(v as int);
            let d = g.map_values(|n: u16| hex_text(n as nat));
            let t = ip_text(IpAddr::V6(v));
            &&& v as int / 0x1_0000_0000 == 0xffff ==> t == "::ffff:"@ + ip_text(
                IpAddr::V4((v as int % 0x1_0000_0000) as u32),
            )
            &&& v as int / 0x1_0000_0000 != 0xffff && no_zero_pair(g) ==> t == with_colons(d)
            &&& v as int / 0x1_0000_0000 != 0xffff ==> forall|start: int, len: int| #[trigger]
                is_first_longest(g, start, len) ==> t == with_colons(d.take(start)) + "::"@
                    + with_colons(d.skip(start + len))
        }),
{
    let g = groups_of(v as int);
    let d = g.map_values(|n: u16| hex_text(n as nat));
    lemma_longest_run(g, 0);
    lemma_longest_of_all(g, 0);
    let (a, n) = longest_run(g, 0);
    lemma_groups_with_colons(g);
    if no_zero_pair(g) && n > 1 {
        assert(g[a] == 0 && g[a + 1] == 0);
    }
    assert forall|start: int, len: int| #[trigger] is_first_longest(g, start, len) implies start == a
        && len == n by {
        assert(zeros_at(g, start, len));
        assert(zeros_at(g, a, n));
    }
    if n > 1 {
        lemma_groups_with_colons(g.take(a));
        lemma_groups_with_colons(g.skip(a + n));
        assert(g.take(a).map_values(|n: u16| hex_text(n as nat)) =~= d.take(a));
        assert(g.skip(a + n).map_values(|n: u16| hex_text(n as nat)) =~= d.skip(a + n));
    }
}

/// Whether no two groups in a row are zero.
pub open spec fn no_zero_pair(g: Seq<u16>) -> bool {
    forall|i: int| 0 <= i < g.len() - 1 ==> !(#[trigger] g[i] == 0 && g[i + 1] == 0)
}

/// Whether the groups from `start` on are zero, as many as `len`.
pub open spec fn zeros_at(g: Seq<u16>, start: int, len: int) -> bool {
    &&& 0 <= start && 0 <= len && start + len <= g.len()
    &&& forall|k: int| start <= k < start + len ==> #[trigger] g[k] == 0
}

/// Whether that is the longest row of zeros, of two groups at least, and the first of those.
pub open spec fn is_first_longest(g: Seq<u16>, start: int, len: int) -> bool {
    &&& zeros_at(g, start, len) && len >= 2
    &&& forall|i: int, n: int| #[trigger] zeros_at(g, i, n) ==> n < len || (n == len && start <= i)
}

proof fn lemma_run_covers(g: Seq<u16>, i: int, n: int)
    requires
        zeros_at(g, i, n),
    ensures
        zero_run(g, i) >= n,
    decreases n,
{
    if n > 0 {
        assert(g[i] == 0);
        assert(zeros_at(g, i + 1, n - 1));
        lemma_run_covers(g, i + 1, n - 1);
    } else {
        lemma_zero_run(g, i);
    }
}

proof fn lemma_longest_of_all(g: Seq<u16>, from: int)
    requires
        0 <= from <= g.len(),
    ensures
        ({
            let (start, len) = longest_run(g, from);
            forall|i: int, n: int| #[trigger]
                zeros_at(g, i, n) && from <= i && n > 0 ==> n < len || (n == len && start <= i)
        }),
    decreases g.len() - from,
{
    if from < g.len() {
        lemma_longest_of_all(g, from + 1);
        assert forall|i: int, n: int| #[trigger] zeros_at(g, i, n) && from <= i && n > 0 implies ({
            let (start, len) = longest_run(g, from);
            n < len || (n == len && start <= i)
        }) by {
            if i == from {
                lemma_run_covers(g, i, n);
            }
        }
    }
}

proof fn lemma_groups_with_colons(g: Seq<u16>)
    ensures
        groups_text(g) == with_colons(g.map_values(|n: u16| hex_text(n as nat))),
    decreases g.len(),
{
    let d = g.map_values(|n: u16| hex_text(n as nat));
    if g.len() == 0 {
        assert(groups_text(g) =~= with_colons(d));
    } else if g.len() >= 2 {
        lemma_groups_text_front(g);
        lemma_groups_with_colons(g.skip(1));
        assert(d.skip(1) =~= g.skip(1).map_values(|n: u16| hex_text(n as nat)));
    }
}

} // verus!
