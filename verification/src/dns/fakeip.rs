//! Made-up addresses: each name gets one from a reserved range, and can be found again by it.

use crate::config::{opt_str, opt_text, DnsServerConfig};
use crate::dns::message::{
    address_reply, answer_list, dns_message, dns_reply, first_only, parse_message, reply_view, ttl_of,
    DnsError, CLASS_IN, TYPE_A, TYPE_AAAA,
};
use crate::ip::{ip_of, ip_text, parse_ip, push_ip};
use crate::ip_laws::{
    is_address_char, law_ip_text_round_trip, lemma_address_chars, lemma_address_is_trimmed,
};
use crate::proxy::addr::IpAddr;
use crate::text::{
    chars_of, copy_text, dec_text, parse_decimal, parse_uint, push_decimal, push_text, trim, trimmed,
};
use crate::time::{secs, Duration};
use vstd::arithmetic::power2::{lemma_pow2_pos, lemma_pow2_unfold, pow2};
use vstd::prelude::*;

verus! {

/// The network that `ipnet::IpNet::from_str` reads: an address in it and the length of its prefix.
pub uninterp spec fn network_of(text: Seq<char>) -> Option<(IpAddr, u8)>;

/// Calls `ipnet::IpNet::from_str`. A prefix is no longer than the address.
#[verifier::external_body]
fn parse_network(text: &str) -> (net: Option<(IpAddr, u8)>)
    ensures
        net == network_of(text@),
        net matches Some((IpAddr::V4(_), prefix)) ==> prefix <= 32,
        net matches Some((IpAddr::V6(_), prefix)) ==> prefix <= 128,
{
    match text.parse::<ipnet::IpNet>().ok()? {
        ipnet::IpNet::V4(net) => Some((IpAddr::V4(u32::from(net.addr())), net.prefix_len())),
        ipnet::IpNet::V6(net) => Some((IpAddr::V6(u128::from(net.addr())), net.prefix_len())),
    }
}

/// A range of addresses: one in it and the length of the prefix that they share.
#[derive(Clone, Copy, Debug, PartialEq, Eq, Structural)]
pub struct Range {
    pub base: u128,
    pub prefix: u8,
}

/// The range that serves where no IPv4 range is configured: 198.18.0.0/16.
pub open spec fn default_v4() -> Range {
    Range { base: 0xc612_0000, prefix: 16 }
}

/// The range that serves where no IPv6 range is configured: fc00::/18.
pub open spec fn default_v6() -> Range {
    Range { base: 0xfc00_0000_0000_0000_0000_0000_0000_0000, prefix: 18 }
}

/// The first IPv4 network of a list, or the given range.
pub open spec fn first_v4(nets: Seq<Option<(IpAddr, u8)>>, default: Range) -> Range
    decreases nets.len(),
{
    if nets.len() == 0 {
        default
    } else {
        match nets[0] {
            Some((IpAddr::V4(base), prefix)) => Range { base: base as u128, prefix },
            _ => first_v4(nets.skip(1), default),
        }
    }
}

/// The first IPv6 network of a list, or the given range.
pub open spec fn first_v6(nets: Seq<Option<(IpAddr, u8)>>, default: Range) -> Range
    decreases nets.len(),
{
    if nets.len() == 0 {
        default
    } else {
        match nets[0] {
            Some((IpAddr::V6(base), prefix)) => Range { base, prefix },
            _ => first_v6(nets.skip(1), default),
        }
    }
}

/// Picks the ranges out of a list of networks: the first of each family.
pub fn pick_ranges(nets: &Vec<Option<(IpAddr, u8)>>) -> (r: (Range, Range))
    requires
        forall|i: int|
            0 <= i < nets@.len() ==> ((#[trigger] nets@[i]) matches Some((IpAddr::V4(_), p)) ==> p
                <= 32),
        forall|i: int|
            0 <= i < nets@.len() ==> ((#[trigger] nets@[i]) matches Some((IpAddr::V6(_), p)) ==> p
                <= 128),
    ensures
        r.0 == first_v4(nets@, default_v4()),
        r.1 == first_v6(nets@, default_v6()),
        r.0.prefix <= 32,
        r.0.base <= u32::MAX,
        r.1.prefix <= 128,
{
    let mut v4: Range = Range { base: 0xc612_0000, prefix: 16 };
    let mut v6: Range = Range { base: 0xfc00_0000_0000_0000_0000_0000_0000_0000, prefix: 18 };
    let mut i: usize = nets.len();
    assert(nets@.skip(i as int) =~= Seq::empty());
    while i > 0
        invariant
            i <= nets@.len(),
            v4 == first_v4(nets@.skip(i as int), default_v4()),
            v6 == first_v6(nets@.skip(i as int), default_v6()),
            v4.prefix <= 32,
            v4.base <= u32::MAX,
            v6.prefix <= 128,
            forall|k: int|
                0 <= k < nets@.len() ==> ((#[trigger] nets@[k]) matches Some((IpAddr::V4(_), p))
                    ==> p <= 32),
            forall|k: int|
                0 <= k < nets@.len() ==> ((#[trigger] nets@[k]) matches Some((IpAddr::V6(_), p))
                    ==> p <= 128),
        decreases i,
    {
        i -= 1;
        assert(nets@.skip(i as int).skip(1) =~= nets@.skip(i + 1));
        assert(nets@.skip(i as int)[0] == nets@[i as int]);
        match nets[i] {
            Some((IpAddr::V4(base), prefix)) => {
                v4 = Range { base: base as u128, prefix };
            },
            Some((IpAddr::V6(base), prefix)) => {
                v6 = Range { base, prefix };
            },
            None => {},
        }
    }
    assert(nets@.skip(0) =~= nets@);
    (v4, v6)
}

/// The networks that a list of texts stands for.
pub open spec fn networks(texts: Seq<Seq<char>>) -> Seq<Option<(IpAddr, u8)>> {
    texts.map_values(|t: Seq<char>| network_of(t))
}

/// The networks that are configured.
pub open spec fn configured(range: Option<Vec<String>>) -> Seq<Option<(IpAddr, u8)>> {
    match range {
        Some(list) => networks(crate::config::texts(list@)),
        None => Seq::empty(),
    }
}

/// Where a count starts that was stored as text; at zero, where the text is none.
pub open spec fn stored_count(text: Option<Seq<char>>) -> u64 {
    match text {
        None => 0,
        Some(t) => match parse_uint(trim(t), u64::MAX as nat) {
            Some(n) => n as u64,
            None => 0,
        },
    }
}

/// Reads a stored count.
pub fn load_cursor(text: Option<&str>) -> (n: u64)
    ensures
        n == stored_count(opt_str(text)),
{
    match text {
        None => 0,
        Some(t) => {
            let chars = chars_of(t);
            assert(chars@.subrange(0, chars@.len() as int) =~= t@);
            let bare = trimmed(chars.as_slice(), 0, chars.len());
            match parse_decimal(bare.as_str(), u64::MAX) {
                Some(n) => n,
                None => 0,
            }
        },
    }
}

/// How many addresses a prefix leaves in an address of `bits` bits.
pub open spec fn hosts(bits: int, prefix: u8) -> int {
    pow2((bits - prefix) as nat) as int
}

fn count_hosts(free: u8) -> (n: u128)
    requires
        free <= 63,
    ensures
        n == pow2(free as nat),
        1 <= n <= 0x8000_0000_0000_0000,
{
    let mut n: u128 = 1;
    let mut i: u8 = 0;
    proof {
        vstd::arithmetic::power2::lemma2_to64();
        vstd::arithmetic::power2::lemma2_to64_rest();
    }
    while i < free
        invariant
            i <= free <= 63,
            n == pow2(i as nat),
            pow2(63) == 0x8000_0000_0000_0000,
            n <= 0x8000_0000_0000_0000,
        decreases free - i,
    {
        proof {
            lemma_pow2_unfold((i + 1) as nat);
            if i + 1 < 63 {
                vstd::arithmetic::power2::lemma_pow2_strictly_increases((i + 1) as nat, 63);
            }
        }
        n = n * 2;
        i += 1;
    }
    proof {
        lemma_pow2_pos(free as nat);
    }
    n
}

/// The IPv4 address for a count.
pub open spec fn fake_v4(r: Range, cursor: u64) -> int {
    r.base + (cursor as int) % hosts(32, r.prefix)
}

/// The IPv6 address for a count.
pub open spec fn fake_v6(r: Range, cursor: u64) -> int {
    if r.prefix > 64 {
        r.base + (cursor as int) % hosts(128, r.prefix)
    } else {
        r.base + cursor
    }
}

/// A server that makes addresses up.
#[derive(Debug)]
pub struct FakeIPDNS {
    pub tag: String,
    pub min_ttl: Option<Duration>,
    pub ipv4_cidr: Range,
    pub ipv6_cidr: Range,
    pub ipv4_cursor: u64,
    pub ipv6_cursor: u64,
    pub reject_ipv6: bool,
}

/// The complaint about a missing setting of a DNS server.
pub open spec fn dns_requires(tag: Seq<char>, what: Seq<char>) -> Seq<char> {
    "dns '"@ + tag + "' requires "@ + what
}

/// Writes the complaint about a missing setting of a DNS server.
pub fn dns_complaint(tag: &str, what: &str) -> (e: String)
    ensures
        e@ == dns_requires(tag@, what@),
{
    let mut e = String::new();
    push_text(&mut e, "dns '");
    push_text(&mut e, tag);
    push_text(&mut e, "' requires ");
    push_text(&mut e, what);
    assert(e@ =~= dns_requires(tag@, what@));
    e
}

/// A number of seconds that may be missing, as a span.
pub open spec fn opt_secs(n: Option<u64>) -> Option<Duration> {
    match n {
        Some(s) => Some(secs(s as int)),
        None => None,
    }
}

/// A number of seconds that may be missing, as a span.
pub fn secs_of(n: Option<u64>) -> (d: Option<Duration>)
    ensures
        d == opt_secs(n),
{
    match n {
        Some(s) => Some(Duration::from_secs(s)),
        None => None,
    }
}

/// What a name is stored under.
pub open spec fn cache_key(domain: Seq<char>, qtype: u16) -> Seq<char> {
    domain + (if qtype == TYPE_A {
        ":A"@
    } else {
        ":AAAA"@
    })
}

/// What an address is stored under.
pub open spec fn ptr_key(ip: Seq<char>) -> Seq<char> {
    "ptr:"@ + ip
}

/// How a name is resolved.
#[derive(Debug)]
pub enum FakeAnswer {
    /// The name has this address already.
    Known(String),
    /// The name gets this address; the entries have to be stored.
    New { ip: String, entries: Vec<(String, String)> },
}

/// The value of how a name is resolved.
pub enum FakeView {
    Known(Seq<char>),
    New { ip: Seq<char>, entries: Seq<(Seq<char>, Seq<char>)> },
}

/// The values of a list of entries.
pub open spec fn entry_views(list: Seq<(String, String)>) -> Seq<(Seq<char>, Seq<char>)> {
    list.map_values(|e: (String, String)| (e.0@, e.1@))
}

impl View for FakeAnswer {
    type V = FakeView;

    open spec fn view(&self) -> FakeView {
        match self {
            FakeAnswer::Known(ip) => FakeView::Known(ip@),
            FakeAnswer::New { ip, entries } => FakeView::New {
                ip: ip@,
                entries: entry_views(entries@),
            },
        }
    }
}

/// The entries that are stored for a new address: how far the count got, the address of the name,
/// and the name of the address.
pub open spec fn new_entries(
    domain: Seq<char>,
    qtype: u16,
    ip: Seq<char>,
    cursor: u64,
) -> Seq<(Seq<char>, Seq<char>)> {
    seq![
        (
            if qtype == TYPE_A {
                "fakeip_ipv4_cursor_index"@
            } else {
                "fakeip_ipv6_cursor_index"@
            },
            dec_text(cursor as nat),
        ),
        (cache_key(domain, qtype), ip),
        (ptr_key(ip), domain),
    ]
}

impl FakeIPDNS {
    /// A server as configured. The counts continue where earlier runs left them.
    pub fn new(
        tag: String,
        cfg: &DnsServerConfig,
        ipv4_cursor: Option<&str>,
        ipv6_cursor: Option<&str>,
    ) -> (r: Result<FakeIPDNS, String>)
        ensures
            match r {
                Ok(d) => {
                    &&& cfg.cache is Some
                    &&& d.tag@ == tag@
                    &&& d.min_ttl == opt_secs(cfg.min_ttl)
                    &&& d.ipv4_cidr == first_v4(configured(cfg.range), default_v4())
                    &&& d.ipv6_cidr == first_v6(configured(cfg.range), default_v6())
                    &&& d.ipv4_cursor == stored_count(opt_str(ipv4_cursor))
                    &&& d.ipv6_cursor == stored_count(opt_str(ipv6_cursor))
                    &&& d.reject_ipv6 == cfg.reject_ipv6
                    &&& d.ipv4_cidr.prefix <= 32 && d.ipv4_cidr.base <= u32::MAX
                    &&& d.ipv6_cidr.prefix <= 128
                },
                Err(e) => cfg.cache is None && e@ == dns_requires(tag@, "cache"@),
            },
    {
        let mut nets: Vec<Option<(IpAddr, u8)>> = Vec::new();
        let ghost want = configured(cfg.range);
        if let Some(list) = &cfg.range {
            let mut i: usize = 0;
            while i < list.len()
                invariant
                    i <= list@.len(),
                    want == networks(crate::config::texts(list@)),
                    nets@ == want.take(i as int),
                    forall|k: int|
                        0 <= k < nets@.len() ==> ((#[trigger] nets@[k]) matches Some(
                            (IpAddr::V4(_), p),
                        ) ==> p <= 32),
                    forall|k: int|
                        0 <= k < nets@.len() ==> ((#[trigger] nets@[k]) matches Some(
                            (IpAddr::V6(_), p),
                        ) ==> p <= 128),
                decreases list@.len() - i,
            {
                nets.push(parse_network(list[i].as_str()));
                i += 1;
                assert(nets@ =~= want.take(i as int));
            }
            assert(want.take(i as int) =~= want);
        }
        assert(nets@ =~= want);
        let (ipv4_cidr, ipv6_cidr): (Range, Range) = pick_ranges(&nets);
        if cfg.cache.is_none() {
            return Err(dns_complaint(tag.as_str(), "cache"));
        }
        Ok(
            FakeIPDNS {
                tag,
                min_ttl: secs_of(cfg.min_ttl),
                ipv4_cidr,
                ipv6_cidr,
                ipv4_cursor: load_cursor(ipv4_cursor),
                ipv6_cursor: load_cursor(ipv6_cursor),
                reject_ipv6: cfg.reject_ipv6,
            },
        )
    }

    /// The ranges have prefixes that are no longer than an address.
    pub open spec fn wf(self) -> bool {
        self.ipv4_cidr.prefix <= 32 && self.ipv6_cidr.prefix <= 128
    }

    /// Whether the next address of a type is an address: a range that starts late may reach past the
    /// last one.
    pub open spec fn next_fits(self, qtype: u16) -> bool {
        &&& qtype == TYPE_A ==> fake_v4(self.ipv4_cidr, self.ipv4_cursor) <= u32::MAX
        &&& qtype == TYPE_AAAA ==> fake_v6(self.ipv6_cidr, self.ipv6_cursor) <= u128::MAX
    }

    /// Whether the next address of a type is an address.
    pub fn has_next(&self, qtype: u16) -> (r: bool)
        requires
            self.wf(),
        ensures
            r == self.next_fits(qtype),
    {
        if qtype == TYPE_A {
            let total: u128 = count_hosts(32 - self.ipv4_cidr.prefix);
            let offset: u128 = (self.ipv4_cursor as u128) % total;
            self.ipv4_cidr.base <= 0xffff_ffff && self.ipv4_cidr.base + offset <= 0xffff_ffff
        } else if qtype == TYPE_AAAA {
            let offset: u128 = if self.ipv6_cidr.prefix > 64 {
                let total: u128 = count_hosts(128 - self.ipv6_cidr.prefix);
                (self.ipv6_cursor as u128) % total
            } else {
                self.ipv6_cursor as u128
            };
            self.ipv6_cidr.base <= u128::MAX - offset
        } else {
            true
        }
    }

    /// The next count for IPv4.
    pub fn next_ipv4_cursor(&mut self) -> (n: u64)
        ensures
            n == old(self).ipv4_cursor,
            final(self).ipv4_cursor == n.wrapping_add(1),
            final(self).ipv6_cursor == old(self).ipv6_cursor,
            final(self).same_settings(*old(self)),
    {
        let current: u64 = self.ipv4_cursor;
        self.ipv4_cursor = current.wrapping_add(1);
        current
    }

    /// The next count for IPv6.
    pub fn next_ipv6_cursor(&mut self) -> (n: u64)
        ensures
            n == old(self).ipv6_cursor,
            final(self).ipv6_cursor == n.wrapping_add(1),
            final(self).ipv4_cursor == old(self).ipv4_cursor,
            final(self).same_settings(*old(self)),
    {
        let current: u64 = self.ipv6_cursor;
        self.ipv6_cursor = current.wrapping_add(1);
        current
    }

    /// Whether everything but the counts is the same.
    pub open spec fn same_settings(self, other: FakeIPDNS) -> bool {
        &&& self.tag == other.tag
        &&& self.min_ttl == other.min_ttl
        &&& self.ipv4_cidr == other.ipv4_cidr
        &&& self.ipv6_cidr == other.ipv6_cidr
        &&& self.reject_ipv6 == other.reject_ipv6
    }

    /// The IPv4 address for a count.
    pub fn get_fake_ipv4(&self, cursor: u64) -> (ip: u32)
        requires
            self.ipv4_cidr.prefix <= 32,
            fake_v4(self.ipv4_cidr, cursor) <= u32::MAX,
        ensures
            ip == fake_v4(self.ipv4_cidr, cursor),
    {
        let total: u128 = count_hosts(32 - self.ipv4_cidr.prefix);
        let offset: u128 = (cursor as u128) % total;
        (self.ipv4_cidr.base + offset) as u32
    }

    /// The IPv6 address for a count.
    pub fn get_fake_ipv6(&self, cursor: u64) -> (ip: u128)
        requires
            self.ipv6_cidr.prefix <= 128,
            fake_v6(self.ipv6_cidr, cursor) <= u128::MAX,
        ensures
            ip == fake_v6(self.ipv6_cidr, cursor),
    {
        if self.ipv6_cidr.prefix > 64 {
            let total: u128 = count_hosts(128 - self.ipv6_cidr.prefix);
            let offset: u128 = (cursor as u128) % total;
            self.ipv6_cidr.base + offset
        } else {
            self.ipv6_cidr.base + cursor as u128
        }
    }

    /// Resolves a name; `cached` is what is stored under its key.
    pub fn resolve_internal(&mut self, domain: &str, qtype: u16, cached: Option<&str>) -> (r: Result<
        FakeAnswer,
        DnsError,
    >)
        requires
            old(self).wf(),
            cached is None ==> old(self).next_fits(qtype),
        ensures
            final(self).same_settings(*old(self)),
            match r {
                Err(e) => {
                    &&& e == DnsError::OnlyAddresses
                    &&& qtype != TYPE_A && qtype != TYPE_AAAA
                    &&& *final(self) == *old(self)
                },
                Ok(a) => {
                    &&& qtype == TYPE_A || qtype == TYPE_AAAA
                    &&& match opt_str(cached) {
                        Some(ip) => a@ == FakeView::Known(ip) && *final(self) == *old(self),
                        None => {
                            let ip = if qtype == TYPE_A {
                                ip_text(
                                    IpAddr::V4(
                                        fake_v4(old(self).ipv4_cidr, old(self).ipv4_cursor) as u32,
                                    ),
                                )
                            } else {
                                ip_text(
                                    IpAddr::V6(
                                        fake_v6(old(self).ipv6_cidr, old(self).ipv6_cursor) as u128,
                                    ),
                                )
                            };
                            &&& a@ is New
                            &&& a@->New_ip == ip
                            &&& a@->entries == new_entries(
                                domain@,
                                qtype,
                                ip,
                                if qtype == TYPE_A {
                                    final(self).ipv4_cursor
                                } else {
                                    final(self).ipv6_cursor
                                },
                            )
                            &&& final(self).ipv4_cursor == if qtype == TYPE_A {
                                old(self).ipv4_cursor.wrapping_add(1)
                            } else {
                                old(self).ipv4_cursor
                            }
                            &&& final(self).ipv6_cursor == if qtype == TYPE_AAAA {
                                old(self).ipv6_cursor.wrapping_add(1)
                            } else {
                                old(self).ipv6_cursor
                            }
                        },
                    }
                },
            },
    {
        if qtype != TYPE_A && qtype != TYPE_AAAA {
            return Err(DnsError::OnlyAddresses);
        }
        if let Some(ip) = cached {
            return Ok(FakeAnswer::Known(copy_text(ip)));
        }
        let mut ip = String::new();
        let mut cursor_text = String::new();
        let cursor_key: String;
        if qtype == TYPE_A {
            let c: u64 = self.next_ipv4_cursor();
            push_ip(&mut ip, IpAddr::V4(self.get_fake_ipv4(c)));
            push_decimal(&mut cursor_text, self.ipv4_cursor);
            cursor_key = copy_text("fakeip_ipv4_cursor_index");
        } else {
            let c: u64 = self.next_ipv6_cursor();
            push_ip(&mut ip, IpAddr::V6(self.get_fake_ipv6(c)));
            push_decimal(&mut cursor_text, self.ipv6_cursor);
            cursor_key = copy_text("fakeip_ipv6_cursor_index");
        }
        let ghost iv = ip@;
        let mut key = copy_text(domain);
        if qtype == TYPE_A {
            push_text(&mut key, ":A");
        } else {
            push_text(&mut key, ":AAAA");
        }
        let mut ptr = copy_text("ptr:");
        push_text(&mut ptr, ip.as_str());
        let mut entries: Vec<(String, String)> = Vec::new();
        entries.push((cursor_key, cursor_text));
        entries.push((key, copy_text(ip.as_str())));
        entries.push((ptr, copy_text(domain)));
        proof {
            let cursor = if qtype == TYPE_A {
                self.ipv4_cursor
            } else {
                self.ipv6_cursor
            };
            assert(entries@[0].1@ =~= dec_text(cursor as nat));
            assert(entry_views(entries@) =~= new_entries(domain@, qtype, iv, cursor));
        }
        Ok(FakeAnswer::New { ip, entries })
    }

    /// The IPv4 address of a name, and what has to be stored: nothing where the name had one already.
    /// `None` stands for a stored text that is no such address.
    pub fn resolve_v4(&mut self, domain: &str, cached: Option<&str>) -> (r: Option<
        (u32, Vec<(String, String)>),
    >)
        requires
            old(self).wf(),
            cached is None ==> old(self).next_fits(TYPE_A),
        ensures
            final(self).same_settings(*old(self)),
            final(self).ipv6_cursor == old(self).ipv6_cursor,
            match opt_str(cached) {
                Some(text) => {
                    &&& *final(self) == *old(self)
                    &&& match stored_address(text, TYPE_A) {
                        Some(IpAddr::V4(v)) => r matches Some((ip, entries)) && ip == v
                            && entries@.len() == 0,
                        _ => r is None,
                    }
                },
                None => {
                    let v = fake_v4(old(self).ipv4_cidr, old(self).ipv4_cursor) as u32;
                    &&& final(self).ipv4_cursor == old(self).ipv4_cursor.wrapping_add(1)
                    &&& r matches Some((ip, entries)) && ip == v && entry_views(entries@)
                        == new_entries(
                        domain@,
                        TYPE_A,
                        ip_text(IpAddr::V4(v)),
                        final(self).ipv4_cursor,
                    )
                },
            },
    {
        let (text, entries) = match self.resolve_internal(domain, TYPE_A, cached) {
            Ok(FakeAnswer::Known(ip)) => (ip, Vec::new()),
            Ok(FakeAnswer::New { ip, entries }) => (ip, entries),
            Err(_) => {
                return None;
            },
        };
        proof {
            let v = fake_v4(old(self).ipv4_cidr, old(self).ipv4_cursor) as u32;
            law_ip_text_round_trip(IpAddr::V4(v));
            lemma_address_is_trimmed(IpAddr::V4(v));
        }
        match resolved_address(text.as_str(), TYPE_A) {
            Some(IpAddr::V4(v)) => Some((v, entries)),
            _ => None,
        }
    }

    /// The IPv6 address of a name, and what has to be stored: nothing where the name had one already.
    /// `None` stands for a stored text that is no such address.
    pub fn resolve_v6(&mut self, domain: &str, cached: Option<&str>) -> (r: Option<
        (u128, Vec<(String, String)>),
    >)
        requires
            old(self).wf(),
            cached is None ==> old(self).next_fits(TYPE_AAAA),
        ensures
            final(self).same_settings(*old(self)),
            final(self).ipv4_cursor == old(self).ipv4_cursor,
            match opt_str(cached) {
                Some(text) => {
                    &&& *final(self) == *old(self)
                    &&& match stored_address(text, TYPE_AAAA) {
                        Some(IpAddr::V6(v)) => r matches Some((ip, entries)) && ip == v
                            && entries@.len() == 0,
                        _ => r is None,
                    }
                },
                None => {
                    let v = fake_v6(old(self).ipv6_cidr, old(self).ipv6_cursor) as u128;
                    &&& final(self).ipv6_cursor == old(self).ipv6_cursor.wrapping_add(1)
                    &&& r matches Some((ip, entries)) && ip == v && entry_views(entries@)
                        == new_entries(
                        domain@,
                        TYPE_AAAA,
                        ip_text(IpAddr::V6(v)),
                        final(self).ipv6_cursor,
                    )
                },
            },
    {
        let (text, entries) = match self.resolve_internal(domain, TYPE_AAAA, cached) {
            Ok(FakeAnswer::Known(ip)) => (ip, Vec::new()),
            Ok(FakeAnswer::New { ip, entries }) => (ip, entries),
            Err(_) => {
                return None;
            },
        };
        proof {
            let v = fake_v6(old(self).ipv6_cidr, old(self).ipv6_cursor) as u128;
            law_ip_text_round_trip(IpAddr::V6(v));
            lemma_address_is_trimmed(IpAddr::V6(v));
        }
        match resolved_address(text.as_str(), TYPE_AAAA) {
            Some(IpAddr::V6(v)) => Some((v, entries)),
            _ => None,
        }
    }

    /// Whether an address is one of those that are made up.
    pub fn is_fakeip(&self, ip: IpAddr) -> (r: bool)
        requires
            self.wf(),
        ensures
            r == match ip {
                IpAddr::V4(v) => in_range(v as int, self.ipv4_cidr, 32),
                IpAddr::V6(v) => in_range(v as int, self.ipv6_cidr, 128),
            },
    {
        match ip {
            IpAddr::V4(v) => same_network(v as u128, self.ipv4_cidr.base, 32 - self.ipv4_cidr.prefix),
            IpAddr::V6(v) => same_network(v, self.ipv6_cidr.base, 128 - self.ipv6_cidr.prefix),
        }
    }

    /// Answers a query for an address. `resolved` is the address that the name was resolved to.
    pub fn exchange_without_cache(&self, query: &[u8], resolved: Option<IpAddr>) -> (r: Result<
        Vec<u8>,
        DnsError,
    >)
        ensures
            match r {
                Ok(bytes) => {
                    &&& dns_message(query@) matches Some(q)
                    &&& q.questions.len() > 0
                    &&& q.questions[0].1 == TYPE_A || q.questions[0].1 == TYPE_AAAA
                    &&& dns_reply(
                        query@,
                        first_only(),
                        0,
                        CLASS_IN,
                        answer_list(self.answer(resolved)),
                    ) == Some(bytes@)
                    &&& dns_message(bytes@) == Some(
                        reply_view(q, first_only(), 0, answer_list(self.answer(resolved))),
                    )
                },
                Err(DnsError::Malformed) => dns_message(query@) is None,
                Err(DnsError::NoQuestions) => dns_message(query@) matches Some(q)
                    && q.questions.len() == 0,
                Err(DnsError::OnlyAddresses) => dns_message(query@) matches Some(q)
                    && q.questions.len() > 0 && q.questions[0].1 != TYPE_A && q.questions[0].1
                    != TYPE_AAAA,
                Err(DnsError::Unwritable) => dns_message(query@) matches Some(q)
                    && q.questions.len() > 0 && (q.questions[0].1 == TYPE_A || q.questions[0].1
                    == TYPE_AAAA) && dns_reply(
                    query@,
                    first_only(),
                    0,
                    CLASS_IN,
                    answer_list(self.answer(resolved)),
                ) is None,
            },
    {
        let m = match parse_message(query) {
            None => {
                return Err(DnsError::Malformed);
            },
            Some(m) => m,
        };
        if m.questions.len() == 0 {
            return Err(DnsError::NoQuestions);
        }
        let qtype: u16 = m.questions[0].qtype;
        assert(m@.questions[0].1 == qtype);
        if qtype != TYPE_A && qtype != TYPE_AAAA {
            return Err(DnsError::OnlyAddresses);
        }
        let ttl: u32 = match self.min_ttl {
            Some(d) => ((d.nanos / 1_000_000_000) % 0x1_0000_0000) as u32,
            None => 60,
        };
        let answer: Option<(u32, IpAddr)> = match resolved {
            Some(ip) => Some((ttl, ip)),
            None => None,
        };
        match address_reply(query, answer) {
            Some(bytes) => Ok(bytes),
            None => Err(DnsError::Unwritable),
        }
    }

    /// The answer with an address, if there is one: it lives as long as configured, or a minute.
    pub open spec fn answer(self, resolved: Option<IpAddr>) -> Option<(u32, IpAddr)> {
        match resolved {
            Some(ip) => Some(
                (
                    match self.min_ttl {
                        Some(d) => ttl_of(d),
                        None => 60,
                    },
                    ip,
                ),
            ),
            None => None,
        }
    }
}

proof fn lemma_offset(cursor: u64, bits: nat)
    ensures
        0 <= (cursor as int) % (pow2(bits) as int) < pow2(bits),
{
    lemma_pow2_pos(bits);
    vstd::arithmetic::div_mod::lemma_mod_bound(cursor as int, pow2(bits) as int);
}

/// Whether an address of `bits` bits lies in a range: it shares the range's prefix.
pub open spec fn in_range(ip: int, r: Range, bits: int) -> bool {
    ip / hosts(bits, r.prefix) == r.base as int / hosts(bits, r.prefix)
}

fn same_network(a: u128, b: u128, free: u8) -> (r: bool)
    requires
        free <= 128,
    ensures
        r == (a as int / pow2(free as nat) as int == b as int / pow2(free as nat) as int),
{
    let mut x: u128 = a;
    let mut y: u128 = b;
    let mut i: u8 = 0;
    proof {
        vstd::arithmetic::power2::lemma2_to64();
    }
    while i < free
        invariant
            i <= free <= 128,
            x as int == a as int / pow2(i as nat) as int,
            y as int == b as int / pow2(i as nat) as int,
        decreases free - i,
    {
        proof {
            lemma_halve(a as int, i as nat);
            lemma_halve(b as int, i as nat);
        }
        x = x / 2;
        y = y / 2;
        i += 1;
    }
    x == y
}

proof fn lemma_halve(a: int, i: nat)
    requires
        0 <= a,
    ensures
        (a / pow2(i) as int) / 2 == a / pow2(i + 1) as int,
{
    lemma_pow2_pos(i);
    lemma_pow2_unfold(i + 1);
    vstd::arithmetic::div_mod::lemma_div_denominator(a, pow2(i) as int, 2);
    assert(pow2(i) as int * 2 == pow2(i + 1) as int);
}

/// The address that a stored text stands for, in the family that is asked for.
pub open spec fn stored_address(text: Seq<char>, qtype: u16) -> Option<IpAddr> {
    match ip_of(trim(text)) {
        Some(ip) => if crate::dns::message::of_type(ip, qtype) {
            Some(ip)
        } else {
            None
        },
        None => None,
    }
}

/// Reads a stored address.
pub fn resolved_address(text: &str, qtype: u16) -> (ip: Option<IpAddr>)
    ensures
        ip == stored_address(text@, qtype),
{
    let chars = chars_of(text);
    assert(chars@.subrange(0, chars@.len() as int) =~= text@);
    let bare = trimmed(chars.as_slice(), 0, chars.len());
    match parse_ip(bare.as_str()) {
        Some(ip) => {
            let wanted = match ip {
                IpAddr::V4(_) => qtype == TYPE_A,
                IpAddr::V6(_) => qtype == TYPE_AAAA,
            };
            if wanted {
                Some(ip)
            } else {
                None
            }
        },
        None => None,
    }
}

/// The key under which the name of an address is stored.
pub fn reverse_key(ip: IpAddr) -> (key: String)
    ensures
        key@ == ptr_key(ip_text(ip)),
{
    let mut key = copy_text("ptr:");
    push_ip(&mut key, ip);
    key
}

/// The name that is stored for an address.
pub fn reverse_lookup(stored: Option<&str>) -> (domain: Option<String>)
    ensures
        opt_text(domain) == match opt_str(stored) {
            Some(text) => if trim(text).len() == 0 {
                None
            } else {
                Some(trim(text))
            },
            None => None,
        },
{
    match stored {
        None => None,
        Some(text) => {
            let chars = chars_of(text);
            assert(chars@.subrange(0, chars@.len() as int) =~= text@);
            let bare = trimmed(chars.as_slice(), 0, chars.len());
            if bare.as_str().is_empty() {
                None
            } else {
                Some(bare)
            }
        },
    }
}

/// A store with entries set, one after the other.
pub open spec fn stored(
    store: Map<Seq<char>, Seq<char>>,
    entries: Seq<(Seq<char>, Seq<char>)>,
) -> Map<Seq<char>, Seq<char>>
    decreases entries.len(),
{
    if entries.len() == 0 {
        store
    } else {
        stored(store, entries.drop_last()).insert(entries.last().0, entries.last().1)
    }
}

/// Once the entries of a new address are stored, the address leads back to the name.
pub proof fn law_address_leads_back(
    store: Map<Seq<char>, Seq<char>>,
    domain: Seq<char>,
    qtype: u16,
    ip: Seq<char>,
    cursor: u64,
)
    ensures
        stored(store, new_entries(domain, qtype, ip, cursor)).contains_key(ptr_key(ip)),
        stored(store, new_entries(domain, qtype, ip, cursor))[ptr_key(ip)] == domain,
{
}

/// Once the entries of a new address are stored, the name keeps the address: what is stored for it is
/// read as that address again.
pub proof fn law_name_keeps_its_address(
    store: Map<Seq<char>, Seq<char>>,
    domain: Seq<char>,
    qtype: u16,
    ip: IpAddr,
    cursor: u64,
)
    requires
        crate::dns::message::of_type(ip, qtype),
    ensures
        ({
            let after = stored(store, new_entries(domain, qtype, ip_text(ip), cursor));
            &&& after.contains_key(cache_key(domain, qtype))
            &&& stored_address(after[cache_key(domain, qtype)], qtype) == Some(ip)
        }),
{
    let text = ip_text(ip);
    let entries = new_entries(domain, qtype, text, cursor);
    law_ip_text_round_trip(ip);
    lemma_address_is_trimmed(ip);
    lemma_address_chars(ip);
    reveal_strlit(":A");
    reveal_strlit(":AAAA");
    reveal_strlit("ptr:");
    let key = cache_key(domain, qtype);
    let ptr = ptr_key(text);
    assert(key.last() == 'A');
    assert(is_address_char(text[text.len() - 1]));
    assert(ptr.last() == text.last());
    assert(key != ptr);
    let two = entries.drop_last();
    assert(two.last() == (key, text));
    assert(stored(store, two)[key] == text);
}

/// A name that gets another address later disturbs neither the address nor the name of an earlier one.
pub proof fn law_names_do_not_disturb_each_other(
    store: Map<Seq<char>, Seq<char>>,
    domain: Seq<char>,
    qtype: u16,
    ip: IpAddr,
    cursor: u64,
    other: Seq<char>,
    other_qtype: u16,
    other_ip: IpAddr,
    other_cursor: u64,
)
    requires
        ip != other_ip,
        cache_key(domain, qtype) != cache_key(other, other_qtype),
        crate::dns::message::of_type(ip, qtype),
        crate::dns::message::of_type(other_ip, other_qtype),
    ensures
        ({
            let first = stored(store, new_entries(domain, qtype, ip_text(ip), cursor));
            let after = stored(
                first,
                new_entries(other, other_qtype, ip_text(other_ip), other_cursor),
            );
            &&& after.contains_key(ptr_key(ip_text(ip)))
            &&& after[ptr_key(ip_text(ip))] == domain
            &&& after.contains_key(cache_key(domain, qtype))
            &&& stored_address(after[cache_key(domain, qtype)], qtype) == Some(ip)
        }),
{
    let first = stored(store, new_entries(domain, qtype, ip_text(ip), cursor));
    let more = new_entries(other, other_qtype, ip_text(other_ip), other_cursor);
    law_name_keeps_its_address(store, domain, qtype, ip, cursor);
    law_address_leads_back(store, domain, qtype, ip_text(ip), cursor);
    law_ip_text_round_trip(ip);
    law_ip_text_round_trip(other_ip);
    lemma_address_chars(ip);
    lemma_address_chars(other_ip);
    reveal_strlit(":A");
    reveal_strlit(":AAAA");
    reveal_strlit("ptr:");
    reveal_strlit("fakeip_ipv4_cursor_index");
    reveal_strlit("fakeip_ipv6_cursor_index");
    let ptr = ptr_key(ip_text(ip));
    let key = cache_key(domain, qtype);
    let text = ip_text(ip);
    let other_text = ip_text(other_ip);
    assert(ptr.skip(4) =~= text);
    assert(ptr_key(other_text).skip(4) =~= other_text);
    assert(ptr != ptr_key(other_text));
    assert(is_address_char(text[text.len() - 1]));
    assert(is_address_char(other_text[other_text.len() - 1]));
    assert(ptr.last() == text.last());
    assert(ptr_key(other_text).last() == other_text.last());
    assert(key.last() == 'A');
    assert(cache_key(other, other_qtype).last() == 'A');
    assert(ptr[0] == 'p');
    let count_key = more[0].0;
    assert(count_key[0] == 'f');
    assert(count_key.last() == 'x');
    assert(key != count_key && ptr != count_key);
    assert(more.drop_last().drop_last().drop_last() =~= Seq::<(Seq<char>, Seq<char>)>::empty());
    reveal_with_fuel(stored, 4);
}

/// Every made-up IPv4 address lies in the range, where the range starts at its first address.
pub proof fn law_fake_v4_in_range(r: Range, cursor: u64)
    requires
        r.prefix <= 32,
        r.base as int % hosts(32, r.prefix) == 0,
    ensures
        in_range(fake_v4(r, cursor), r, 32),
{
    let h = hosts(32, r.prefix);
    lemma_offset(cursor, (32 - r.prefix) as nat);
    lemma_same_block(r.base as int, (cursor as int) % h, h);
}

/// Every made-up IPv6 address lies in the range, where the range starts at its first address.
pub proof fn law_fake_v6_in_range(r: Range, cursor: u64)
    requires
        r.prefix <= 128,
        r.base as int % hosts(128, r.prefix) == 0,
    ensures
        in_range(fake_v6(r, cursor), r, 128),
{
    let h = hosts(128, r.prefix);
    lemma_pow2_pos((128 - r.prefix) as nat);
    if r.prefix > 64 {
        lemma_offset(cursor, (128 - r.prefix) as nat);
        lemma_same_block(r.base as int, (cursor as int) % h, h);
    } else {
        vstd::arithmetic::power2::lemma2_to64();
        if r.prefix < 64 {
            vstd::arithmetic::power2::lemma_pow2_strictly_increases(64, (128 - r.prefix) as nat);
        }
        assert(cursor < h);
        lemma_same_block(r.base as int, cursor as int, h);
    }
}

proof fn lemma_same_block(base: int, offset: int, h: int)
    requires
        h > 0,
        0 <= base,
        base % h == 0,
        0 <= offset < h,
    ensures
        (base + offset) / h == base / h,
{
    vstd::arithmetic::div_mod::lemma_fundamental_div_mod(base, h);
    let q = base / h;
    assert(base + offset == q * h + offset) by (nonlinear_arith)
        requires
            base == h * q + base % h,
            base % h == 0,
    ;
    vstd::arithmetic::div_mod::lemma_fundamental_div_mod_converse(base + offset, h, q, offset);
}

/// No two names get the same IPv4 address before the range has been gone through.
pub proof fn law_fake_v4_distinct(r: Range, a: u64, b: u64)
    requires
        r.prefix <= 32,
        a < hosts(32, r.prefix),
        b < hosts(32, r.prefix),
        a != b,
    ensures
        fake_v4(r, a) != fake_v4(r, b),
{
    let h = hosts(32, r.prefix);
    vstd::arithmetic::div_mod::lemma_small_mod(a as nat, h as nat);
    vstd::arithmetic::div_mod::lemma_small_mod(b as nat, h as nat);
}

/// No two names get the same IPv6 address before the range has been gone through; a range with more
/// addresses than there are counts is never gone through.
pub proof fn law_fake_v6_distinct(r: Range, a: u64, b: u64)
    requires
        r.prefix <= 128,
        r.prefix > 64 ==> a < hosts(128, r.prefix) && b < hosts(128, r.prefix),
        a != b,
    ensures
        fake_v6(r, a) != fake_v6(r, b),
{
    if r.prefix > 64 {
        let h = hosts(128, r.prefix);
        vstd::arithmetic::div_mod::lemma_small_mod(a as nat, h as nat);
        vstd::arithmetic::div_mod::lemma_small_mod(b as nat, h as nat);
    }
}

/// The range for made-up addresses of a family is the first network of that family that is configured;
/// without one it is the usual one.
pub proof fn law_first_network_of_a_family_counts(
    before: Seq<Option<(IpAddr, u8)>>,
    v4: u32,
    v6: u128,
    prefix: u8,
    after: Seq<Option<(IpAddr, u8)>>,
    default: Range,
)
    ensures
        (forall|i: int|
            0 <= i < before.len() ==> !((#[trigger] before[i]) matches Some((IpAddr::V4(_), _))))
            ==> first_v4(before + seq![Some((IpAddr::V4(v4), prefix))] + after, default) == (Range {
            base: v4 as u128,
            prefix,
        }) && first_v4(before, default) == default,
        (forall|i: int|
            0 <= i < before.len() ==> !((#[trigger] before[i]) matches Some((IpAddr::V6(_), _))))
            ==> first_v6(before + seq![Some((IpAddr::V6(v6), prefix))] + after, default) == (Range {
            base: v6,
            prefix,
        }) && first_v6(before, default) == default,
        default_v4().base == 198 * 0x100_0000 + 18 * 0x1_0000,
        default_v4().prefix == 16,
        default_v6().base == 0xfc00 * 0x1_0000_0000_0000_0000_0000_0000_0000,
        default_v6().prefix == 18,
    decreases before.len(),
{
    let a = before + seq![Some((IpAddr::V4(v4), prefix))] + after;
    let b = before + seq![Some((IpAddr::V6(v6), prefix))] + after;
    if before.len() > 0 {
        let rest = before.skip(1);
        law_first_network_of_a_family_counts(rest, v4, v6, prefix, after, default);
        assert(a[0] == before[0]);
        assert(b[0] == before[0]);
        assert(a.skip(1) =~= rest + seq![Some((IpAddr::V4(v4), prefix))] + after);
        assert(b.skip(1) =~= rest + seq![Some((IpAddr::V6(v6), prefix))] + after);
        assert forall|i: int| 0 <= i < rest.len() implies rest[i] == #[trigger] before[i + 1] by {}
        if forall|i: int|
            0 <= i < before.len() ==> !((#[trigger] before[i]) matches Some((IpAddr::V4(_), _))) {
            assert forall|i: int| 0 <= i < rest.len() implies !((#[trigger] rest[i]) matches Some(
                (IpAddr::V4(_), _),
            )) by {
                assert(rest[i] == before[i + 1]);
            }
        }
        if forall|i: int|
            0 <= i < before.len() ==> !((#[trigger] before[i]) matches Some((IpAddr::V6(_), _))) {
            assert forall|i: int| 0 <= i < rest.len() implies !((#[trigger] rest[i]) matches Some(
                (IpAddr::V6(_), _),
            )) by {
                assert(rest[i] == before[i + 1]);
            }
        }
    } else {
        assert(a[0] == Some((IpAddr::V4(v4), prefix)));
        assert(b[0] == Some((IpAddr::V6(v6), prefix)));
    }
}

/// The numbering of made-up addresses goes on where it was: the stored number is taken, and what is no
/// number counts as none.
pub proof fn law_numbering_goes_on(n: u64, text: Seq<char>)
    ensures
        stored_count(Some(dec_text(n as nat))) == n,
        stored_count(None) == 0,
        parse_uint(trim(text), u64::MAX as nat) is None ==> stored_count(Some(text)) == 0,
{
    crate::text::law_decimal_round_trip(n as nat, u64::MAX as nat);
    crate::text::lemma_dec_text(n as nat);
    let d = dec_text(n as nat);
    assert(crate::text::is_digit(d[0]));
    assert(crate::text::is_digit(d[d.len() - 1]));
    crate::text::law_trim(Seq::empty(), d, Seq::empty());
    assert(Seq::<char>::empty() + d + Seq::<char>::empty() =~= d);
}

/// What is kept of a made-up address: where the numbering stands, the address of the name, and the name
/// of the address, each under a key of its own.
pub proof fn law_kept_entries(domain: Seq<char>, ip: Seq<char>, cursor: u64)
    ensures
        new_entries(domain, 1, ip, cursor) == seq![
            ("fakeip_ipv4_cursor_index"@, dec_text(cursor as nat)),
            (domain + ":A"@, ip),
            ("ptr:"@ + ip, domain),
        ],
        new_entries(domain, 28, ip, cursor) == seq![
            ("fakeip_ipv6_cursor_index"@, dec_text(cursor as nat)),
            (domain + ":AAAA"@, ip),
            ("ptr:"@ + ip, domain),
        ],
{
}

/// A made-up address is answered with the configured time to live, or else with one minute; without an
/// address there is no answer.
pub proof fn law_answer_of_a_made_up_address(d: FakeIPDNS, ip: IpAddr, seconds: u32)
    ensures
        d.answer(None) is None,
        d.min_ttl is None ==> d.answer(Some(ip)) == Some((60u32, ip)),
        d.min_ttl == Some(secs(seconds as int)) ==> d.answer(Some(ip)) == Some((seconds, ip)),
{
}

/// The stored address of a name is used for the family that is asked for, and only if it is one of that
/// family.
pub proof fn law_stored_addresses_are_of_the_family(ip: IpAddr, text: Seq<char>)
    ensures
        ip is V4 ==> stored_address(ip_text(ip), 1) == Some(ip) && stored_address(ip_text(ip), 28) is None,
        ip is V6 ==> stored_address(ip_text(ip), 28) == Some(ip) && stored_address(ip_text(ip), 1) is None,
        ip_of(trim(text)) is None ==> stored_address(text, 1) is None && stored_address(text, 28) is None,
{
    law_ip_text_round_trip(ip);
    lemma_address_is_trimmed(ip);
}

/// Made-up addresses follow each other: the address of a number is that many places behind the start of
/// the range, as long as the range reaches.
pub proof fn law_made_up_addresses_follow_each_other(r: Range, cursor: u64)
    requires
        r.prefix <= 32,
    ensures
        cursor < hosts(32, r.prefix) ==> fake_v4(r, cursor) == r.base + cursor,
        r.prefix > 0 ==> r.base <= fake_v4(r, cursor) < r.base + hosts(32, r.prefix),
        fake_v6(r, cursor) == r.base + cursor,
        hosts(32, 32) == 1,
        hosts(32, 16) == 65536,
        hosts(128, 64) == 0x1_0000_0000_0000_0000,
{
    vstd::arithmetic::power2::lemma2_to64();
    vstd::arithmetic::power2::lemma2_to64_rest();
    vstd::arithmetic::power2::lemma_pow2_pos((32 - r.prefix) as nat);
    if cursor < hosts(32, r.prefix) {
        vstd::arithmetic::div_mod::lemma_small_mod(cursor as nat, hosts(32, r.prefix) as nat);
    }
    vstd::arithmetic::div_mod::lemma_mod_bound(cursor as int, hosts(32, r.prefix));
}

} // verus!
