//! Destination addresses and their binary forms.

use crate::ip::{
    ip_text, parse_socket_addr, push_ip, push_socket_addr, socket_addr_of, socket_addr_text,
};
use crate::text::{
    chars_of, copy_text, dec_text, law_decimal_round_trip, lossy_utf8, parse_decimal, parse_uint,
    push_decimal, push_text, text_of, utf8_text, utf8_text_lossy,
};
use crate::wire::{
    be16, be16_bytes, be2, be2_bytes, be4, be4_bytes, copy_range, get_u128, get_u16, get_u32,
    law_be16_round_trip, law_be2_round_trip, law_be4_round_trip, put_slice, put_u128, put_u16,
    put_u32,
};
use vstd::prelude::*;
use vstd::utf8::{encode_utf8, encode_utf8_decode_utf8, encode_utf8_valid_utf8, valid_utf8};

verus! {

/// An IP address, held as the number whose big-endian bytes are its octets.
#[derive(Debug, Clone, Copy, PartialEq, Eq, Hash, Structural)]
pub enum IpAddr {
    V4(u32),
    V6(u128),
}

/// An IP address with a port. `scope_id` is only ever set for link-local IPv6 addresses that were
/// written with a zone.
#[derive(Debug, Clone, Copy, PartialEq, Eq, Hash, Structural)]
pub struct SocketAddr {
    pub ip: IpAddr,
    pub port: u16,
    pub scope_id: u32,
}

/// Where a connection goes: an IP endpoint, or a domain that is resolved when connecting.
#[derive(Debug, Clone, PartialEq, Eq, Hash)]
pub enum TargetAddr {
    Ip(SocketAddr),
    Domain(String, u16),
}

/// Where a datagram came from.
pub type SourceAddr = TargetAddr;

/// The mathematical value of a [`TargetAddr`].
pub enum TargetView {
    Ip(SocketAddr),
    Domain(Seq<char>, u16),
}

impl View for TargetAddr {
    type V = TargetView;

    open spec fn view(&self) -> TargetView {
        match self {
            TargetAddr::Ip(addr) => TargetView::Ip(*addr),
            TargetAddr::Domain(domain, port) => TargetView::Domain(domain@, *port),
        }
    }
}

/// The type bytes that tell the three kinds of address apart on the wire.
pub struct AddrTags {
    pub v4: u8,
    pub domain: u8,
    pub v6: u8,
}

impl AddrTags {
    /// The three type bytes differ.
    pub open spec fn distinct(self) -> bool {
        self.v4 != self.domain && self.v4 != self.v6 && self.domain != self.v6
    }
}

/// The wire form of an address: the type byte, the octets (or a length byte and the domain's
/// UTF-8), and the big-endian port. A domain's length byte holds its byte length modulo 256.
pub open spec fn addr_bytes(tags: AddrTags, target: TargetView) -> Seq<u8> {
    match target {
        TargetView::Ip(addr) => match addr.ip {
            IpAddr::V4(ip) => seq![tags.v4] + be4_bytes(ip as int) + be2_bytes(addr.port as int),
            IpAddr::V6(ip) => seq![tags.v6] + be16_bytes(ip as int) + be2_bytes(addr.port as int),
        },
        TargetView::Domain(domain, port) => seq![
            tags.domain,
            (encode_utf8(domain).len() % 256) as u8,
        ] + encode_utf8(domain) + be2_bytes(port as int),
    }
}

/// Why an address could not be decoded.
#[derive(Debug, Clone, Copy, PartialEq, Eq, Structural)]
pub enum AddrError {
    /// There are no bytes at all.
    Empty,
    /// The bytes end inside an IPv4 address.
    Ipv4TooShort,
    /// The bytes end inside an IPv6 address.
    Ipv6TooShort,
    /// The bytes end before a domain's length byte.
    DomainTooShort,
    /// The bytes end inside a domain or its port.
    DomainLengthTooShort,
    /// The type byte is none of the three.
    UnknownType(u8),
}

/// What [`decode_addr`] returns: an address and the number of bytes that it took.
pub open spec fn addr_parse(tags: AddrTags, data: Seq<u8>) -> Result<(TargetView, int), AddrError> {
    if data.len() == 0 {
        Err(AddrError::Empty)
    } else if data[0] == tags.v4 {
        if data.len() < 7 {
            Err(AddrError::Ipv4TooShort)
        } else {
            Ok(
                (
                    TargetView::Ip(
                        SocketAddr {
                            ip: IpAddr::V4(be4(data.skip(1)) as u32),
                            port: be2(data.skip(5)) as u16,
                            scope_id: 0,
                        },
                    ),
                    7,
                ),
            )
        }
    } else if data[0] == tags.v6 {
        if data.len() < 19 {
            Err(AddrError::Ipv6TooShort)
        } else {
            Ok(
                (
                    TargetView::Ip(
                        SocketAddr {
                            ip: IpAddr::V6(be16(data.skip(1)) as u128),
                            port: be2(data.skip(17)) as u16,
                            scope_id: 0,
                        },
                    ),
                    19,
                ),
            )
        }
    } else if data[0] == tags.domain {
        if data.len() < 2 {
            Err(AddrError::DomainTooShort)
        } else if data.len() < 4 + data[1] {
            Err(AddrError::DomainLengthTooShort)
        } else {
            Ok(
                (
                    TargetView::Domain(
                        lossy_utf8(data.subrange(2, 2 + data[1])),
                        be2(data.skip(2 + data[1])) as u16,
                    ),
                    4 + data[1],
                ),
            )
        }
    } else {
        Err(AddrError::UnknownType(data[0]))
    }
}

/// Appends the wire form of an address.
pub fn encode_addr(tags: AddrTags, target: &TargetAddr) -> (out: Vec<u8>)
    ensures
        out@ == addr_bytes(tags, target@),
{
    let mut out: Vec<u8> = Vec::new();
    match target {
        TargetAddr::Ip(addr) => {
            match addr.ip {
                IpAddr::V4(ip) => {
                    out.push(tags.v4);
                    put_u32(&mut out, ip);
                },
                IpAddr::V6(ip) => {
                    out.push(tags.v6);
                    put_u128(&mut out, ip);
                },
            }
            put_u16(&mut out, addr.port);
        },
        TargetAddr::Domain(domain, port) => {
            let bytes = domain.as_str().as_bytes();
            out.push(tags.domain);
            out.push((bytes.len() % 256) as u8);
            put_slice(&mut out, bytes);
            put_u16(&mut out, *port);
        },
    }
    assert(out@ =~= addr_bytes(tags, target@));
    out
}

/// Decodes the address at the start of `data` and reports how many bytes it took.
pub fn decode_addr(tags: AddrTags, data: &[u8]) -> (r: Result<(TargetAddr, usize), AddrError>)
    ensures
        match r {
            Ok((target, used)) => addr_parse(tags, data@) == Ok::<(TargetView, int), AddrError>(
                (target@, used as int),
            ),
            Err(e) => addr_parse(tags, data@) == Err::<(TargetView, int), AddrError>(e),
        },
{
    if data.len() == 0 {
        return Err(AddrError::Empty);
    }
    if data[0] == tags.v4 {
        if data.len() < 7 {
            return Err(AddrError::Ipv4TooShort);
        }
        let addr = SocketAddr {
            ip: IpAddr::V4(get_u32(data, 1)),
            port: get_u16(data, 5),
            scope_id: 0,
        };
        Ok((TargetAddr::Ip(addr), 7))
    } else if data[0] == tags.v6 {
        if data.len() < 19 {
            return Err(AddrError::Ipv6TooShort);
        }
        let addr = SocketAddr {
            ip: IpAddr::V6(get_u128(data, 1)),
            port: get_u16(data, 17),
            scope_id: 0,
        };
        Ok((TargetAddr::Ip(addr), 19))
    } else if data[0] == tags.domain {
        if data.len() < 2 {
            return Err(AddrError::DomainTooShort);
        }
        let len: usize = data[1] as usize;
        if data.len() < 4 + len {
            return Err(AddrError::DomainLengthTooShort);
        }
        let domain = utf8_text_lossy(vstd::slice::slice_subrange(data, 2, 2 + len));
        let port: u16 = get_u16(data, 2 + len);
        Ok((TargetAddr::Domain(domain, port), 4 + len))
    } else {
        Err(AddrError::UnknownType(data[0]))
    }
}

/// A target that the wire can carry: a domain is at most 255 bytes long, and an IPv6 zone does
/// not travel.
pub open spec fn wire_safe(target: TargetView) -> bool {
    match target {
        TargetView::Ip(addr) => addr.scope_id == 0,
        TargetView::Domain(domain, _) => encode_utf8(domain).len() <= 255,
    }
}

/// Decoding what was encoded gives the address back and stops exactly behind it, whatever
/// follows.
pub proof fn law_addr_round_trip(tags: AddrTags, target: TargetView, tail: Seq<u8>)
    requires
        tags.distinct(),
        wire_safe(target),
    ensures
        addr_parse(tags, addr_bytes(tags, target) + tail) == Ok::<(TargetView, int), AddrError>(
            (target, addr_bytes(tags, target).len() as int),
        ),
{
    let data = addr_bytes(tags, target) + tail;
    match target {
        TargetView::Ip(addr) => match addr.ip {
            IpAddr::V4(ip) => {
                let rest = be2_bytes(addr.port as int) + tail;
                law_be4_round_trip(ip as int, rest);
                law_be2_round_trip(addr.port as int, tail);
                assert(data.skip(1) =~= be4_bytes(ip as int) + rest);
                assert(data.skip(5) =~= rest);
            },
            IpAddr::V6(ip) => {
                let rest = be2_bytes(addr.port as int) + tail;
                law_be16_round_trip(ip as int, rest);
                law_be2_round_trip(addr.port as int, tail);
                assert(data.skip(1) =~= be16_bytes(ip as int) + rest);
                assert(data.skip(17) =~= rest);
            },
        },
        TargetView::Domain(domain, port) => {
            let text = encode_utf8(domain);
            law_be2_round_trip(port as int, tail);
            assert(data.subrange(2, 2 + data[1]) =~= text);
            assert(data.skip(2 + data[1]) =~= be2_bytes(port as int) + tail);
            encode_utf8_valid_utf8(domain);
            encode_utf8_decode_utf8(domain);
        },
    }
}

/// The type bytes of the SOCKS5 address format.
pub open spec fn socks_tags() -> AddrTags {
    AddrTags { v4: 1, domain: 3, v6: 4 }
}

/// What reading an address off a stream asks for next, given the bytes read so far.
#[derive(Debug, Clone, PartialEq, Eq)]
pub enum ReadTarget {
    /// The address is not complete before this many bytes have been read in all.
    More(usize),
    /// The address, which took this many bytes.
    Done(TargetAddr, usize),
    /// The type byte is unknown.
    InvalidType(u8),
    /// The domain is not UTF-8.
    InvalidDomain,
}

/// The mathematical value of a [`ReadTarget`].
pub enum ReadTargetView {
    More(int),
    Done(TargetView, int),
    InvalidType(u8),
    InvalidDomain,
}

impl View for ReadTarget {
    type V = ReadTargetView;

    open spec fn view(&self) -> ReadTargetView {
        match self {
            ReadTarget::More(n) => ReadTargetView::More(*n as int),
            ReadTarget::Done(t, n) => ReadTargetView::Done(t@, *n as int),
            ReadTarget::InvalidType(t) => ReadTargetView::InvalidType(*t),
            ReadTarget::InvalidDomain => ReadTargetView::InvalidDomain,
        }
    }
}

/// How many bytes the address that starts with `data` takes, as far as `data` tells; `None` for
/// an unknown type byte.
pub open spec fn read_target_len(data: Seq<u8>) -> Option<int> {
    if data.len() == 0 {
        Some(1)
    } else if data[0] == 1 {
        Some(7)
    } else if data[0] == 4 {
        Some(19)
    } else if data[0] == 3 {
        Some(if data.len() < 2 {
            2
        } else {
            4 + data[1]
        })
    } else {
        None
    }
}

/// The step that reading an address off a stream takes after `data` has arrived.
pub open spec fn read_target(data: Seq<u8>) -> ReadTargetView {
    match read_target_len(data) {
        None => ReadTargetView::InvalidType(data[0]),
        Some(n) => if data.len() < n {
            ReadTargetView::More(n)
        } else if data[0] == 3 && !valid_utf8(data.subrange(2, 2 + data[1])) {
            ReadTargetView::InvalidDomain
        } else {
            ReadTargetView::Done(addr_parse(socks_tags(), data)->Ok_0.0, n)
        },
    }
}

impl TargetAddr {
    /// The port.
    pub fn port(&self) -> (port: u16)
        ensures
            port == self@.port(),
    {
        match self {
            TargetAddr::Ip(addr) => addr.port,
            TargetAddr::Domain(_, port) => *port,
        }
    }

    /// The host without the port.
    pub fn host(&self) -> (host: String)
        ensures
            host@ == self@.host(),
    {
        match self {
            TargetAddr::Ip(addr) => {
                let mut out = String::new();
                push_ip(&mut out, addr.ip);
                assert(out@ =~= ip_text(addr.ip));
                out
            },
            TargetAddr::Domain(domain, _) => domain.clone(),
        }
    }

    /// The text of the address: host and port.
    pub fn to_text(&self) -> (text: String)
        ensures
            text@ == self@.text(),
    {
        let mut out = String::new();
        match self {
            TargetAddr::Ip(addr) => {
                push_socket_addr(&mut out, *addr);
            },
            TargetAddr::Domain(domain, port) => {
                push_text(&mut out, domain.as_str());
                out.push(':');
                push_decimal(&mut out, *port as u64);
            },
        }
        assert(out@ =~= self@.text());
        out
    }

    /// Reads `host:port`, where the host is an IPv4 address, an IPv6 address in brackets, or a
    /// domain. The last colon separates a domain from its port.
    pub fn from_str(s: &str) -> (r: Result<TargetAddr, TargetTextError>)
        ensures
            match r {
                Ok(t) => target_of_text(s@) == Ok::<TargetView, TargetTextError>(t@),
                Err(e) => target_of_text(s@) == Err::<TargetView, TargetTextError>(e),
            },
    {
        if let Some(addr) = parse_socket_addr(s) {
            return Ok(TargetAddr::Ip(addr));
        }
        let chars = chars_of(s);
        let mut i: usize = chars.len();
        while i > 0 && chars[i - 1] != ':'
            invariant
                i <= chars@.len(),
                chars@ == s@,
                last_colon(s@, s@.len() as int) == last_colon(s@, i as int),
            decreases i,
        {
            i -= 1;
        }
        if i == 0 {
            return Err(TargetTextError::NoPort);
        }
        let host = text_of(vstd::slice::slice_subrange(chars.as_slice(), 0, i - 1));
        let port_text = text_of(vstd::slice::slice_subrange(chars.as_slice(), i, chars.len()));
        assert(host@ =~= s@.take(i - 1));
        assert(port_text@ =~= s@.skip(i as int));
        match parse_decimal(port_text.as_str(), 65535) {
            None => Err(TargetTextError::InvalidPort),
            Some(port) => {
                if i == 1 {
                    return Err(TargetTextError::EmptyHost);
                }
                if host.as_str().as_bytes().len() > 255 {
                    return Err(TargetTextError::HostTooLong);
                }
                Ok(TargetAddr::Domain(host, port as u16))
            },
        }
    }

    /// Reads a host that comes with its port. IPv6 hosts stand in brackets.
    pub fn from_str2(domain: &str, port: u16) -> (r: Result<TargetAddr, TargetTextError>)
        ensures
            match r {
                Ok(t) => target_of_text(host_port_text(domain@, port)) == Ok::<
                    TargetView,
                    TargetTextError,
                >(t@),
                Err(e) => target_of_text(host_port_text(domain@, port)) == Err::<
                    TargetView,
                    TargetTextError,
                >(e),
            },
    {
        let mut text = copy_text(domain);
        text.push(':');
        push_decimal(&mut text, port as u64);
        assert(text@ =~= host_port_text(domain@, port));
        TargetAddr::from_str(text.as_str())
    }

    /// The unspecified IPv4 address with port 0, which fills the address field of requests that
    /// carry none.
    pub fn dummy() -> (t: Self)
        ensures
            t@ == dummy_target(),
    {
        TargetAddr::Ip(SocketAddr { ip: IpAddr::V4(0), port: 0, scope_id: 0 })
    }

    /// The SOCKS5 form of the address.
    pub fn to_bytes(&self) -> (out: Vec<u8>)
        ensures
            out@ == addr_bytes(socks_tags(), self@),
    {
        encode_addr(AddrTags { v4: 1, domain: 3, v6: 4 }, self)
    }

    /// Reads an address in SOCKS5 form off the bytes that a stream has delivered so far.
    pub fn read_from(data: &[u8]) -> (r: ReadTarget)
        ensures
            r@ == read_target(data@),
    {
        if data.len() == 0 {
            return ReadTarget::More(1);
        }
        match data[0] {
            1 => {
                if data.len() < 7 {
                    return ReadTarget::More(7);
                }
                ReadTarget::Done(
                    TargetAddr::Ip(
                        SocketAddr {
                            ip: IpAddr::V4(get_u32(data, 1)),
                            port: get_u16(data, 5),
                            scope_id: 0,
                        },
                    ),
                    7,
                )
            },
            3 => {
                if data.len() < 2 {
                    return ReadTarget::More(2);
                }
                let len: usize = data[1] as usize;
                if data.len() < 4 + len {
                    return ReadTarget::More(4 + len);
                }
                match utf8_text(copy_range(data, 2, 2 + len)) {
                    Some(domain) => ReadTarget::Done(
                        TargetAddr::Domain(domain, get_u16(data, 2 + len)),
                        4 + len,
                    ),
                    None => ReadTarget::InvalidDomain,
                }
            },
            4 => {
                if data.len() < 19 {
                    return ReadTarget::More(19);
                }
                ReadTarget::Done(
                    TargetAddr::Ip(
                        SocketAddr {
                            ip: IpAddr::V6(get_u128(data, 1)),
                            port: get_u16(data, 17),
                            scope_id: 0,
                        },
                    ),
                    19,
                )
            },
            other => ReadTarget::InvalidType(other),
        }
    }

    /// Whether two addresses are the same.
    pub fn same(&self, other: &TargetAddr) -> (same: bool)
        ensures
            same == (self@ == other@),
    {
        match (self, other) {
            (TargetAddr::Ip(a), TargetAddr::Ip(b)) => *a == *b,
            (TargetAddr::Domain(a, p), TargetAddr::Domain(b, q)) => {
                *p == *q && crate::text::str_eq(a.as_str(), b.as_str())
            },
            _ => false,
        }
    }

    /// A copy of the address.
    pub fn copy(&self) -> (out: TargetAddr)
        ensures
            out@ == self@,
    {
        match self {
            TargetAddr::Ip(a) => TargetAddr::Ip(*a),
            TargetAddr::Domain(d, p) => TargetAddr::Domain(d.clone(), *p),
        }
    }
}

/// Why a text is no address.
#[derive(Debug, Clone, Copy, PartialEq, Eq, Structural)]
pub enum TargetTextError {
    /// There is no colon.
    NoPort,
    /// What follows the last colon is no port number.
    InvalidPort,
    /// Nothing precedes the last colon.
    EmptyHost,
    /// The host is longer than 255 bytes.
    HostTooLong,
}

/// One past the last colon in `s[..end]`, or 0.
pub open spec fn last_colon(s: Seq<char>, end: int) -> int
    decreases end,
{
    if end <= 0 {
        0
    } else if s[end - 1] == ':' {
        end
    } else {
        last_colon(s, end - 1)
    }
}

/// A host and its port as one text.
pub open spec fn host_port_text(host: Seq<char>, port: u16) -> Seq<char> {
    host + seq![':'] + dec_text(port as nat)
}

/// The address that a text denotes.
pub open spec fn target_of_text(s: Seq<char>) -> Result<TargetView, TargetTextError> {
    match socket_addr_of(s) {
        Some(addr) => Ok(TargetView::Ip(addr)),
        None => {
            let at = last_colon(s, s.len() as int);
            if at == 0 {
                Err(TargetTextError::NoPort)
            } else {
                match parse_uint(s.skip(at), 65535) {
                    None => Err(TargetTextError::InvalidPort),
                    Some(port) => if at == 1 {
                        Err(TargetTextError::EmptyHost)
                    } else if encode_utf8(s.take(at - 1)).len() > 255 {
                        Err(TargetTextError::HostTooLong)
                    } else {
                        Ok(TargetView::Domain(s.take(at - 1), port as u16))
                    },
                }
            }
        },
    }
}

impl TargetView {
    /// The host without the port.
    pub open spec fn host(self) -> Seq<char> {
        match self {
            TargetView::Ip(addr) => ip_text(addr.ip),
            TargetView::Domain(domain, _) => domain,
        }
    }

    /// The text of the address: host and port.
    pub open spec fn text(self) -> Seq<char> {
        match self {
            TargetView::Ip(addr) => socket_addr_text(addr),
            TargetView::Domain(domain, port) => host_port_text(domain, port),
        }
    }

    /// The port.
    pub open spec fn port(self) -> u16 {
        match self {
            TargetView::Ip(addr) => addr.port,
            TargetView::Domain(_, port) => port,
        }
    }
}

/// The address that [`TargetAddr::dummy`] returns.
pub open spec fn dummy_target() -> TargetView {
    TargetView::Ip(SocketAddr { ip: IpAddr::V4(0), port: 0, scope_id: 0 })
}

/// Reading back what [`TargetAddr::to_bytes`] wrote gives the same address and takes exactly the
/// bytes that were written, whatever follows; with fewer bytes the reader asks for more.
pub proof fn law_target_read_back(target: TargetView, tail: Seq<u8>, got: int)
    requires
        wire_safe(target),
        0 <= got <= addr_bytes(socks_tags(), target).len(),
    ensures
        read_target(addr_bytes(socks_tags(), target) + tail) == ReadTargetView::Done(
            target,
            addr_bytes(socks_tags(), target).len() as int,
        ),
        got < addr_bytes(socks_tags(), target).len() ==> (read_target(
            addr_bytes(socks_tags(), target).take(got),
        ) matches ReadTargetView::More(n) && got < n <= addr_bytes(socks_tags(), target).len()),
{
    let bytes = addr_bytes(socks_tags(), target);
    let data = bytes + tail;
    law_addr_round_trip(socks_tags(), target, tail);
    if let TargetView::Domain(domain, port) = target {
        assert(data.subrange(2, 2 + data[1]) =~= encode_utf8(domain));
        encode_utf8_valid_utf8(domain);
    }
}

proof fn lemma_last_colon(s: Seq<char>, at: int, end: int)
    requires
        0 < at <= end <= s.len(),
        s[at - 1] == ':',
        forall|k: int| at <= k < end ==> s[k] != ':',
    ensures
        last_colon(s, end) == at,
    decreases end,
{
    if end > at {
        lemma_last_colon(s, at, end - 1);
    }
}

/// A domain written with its port reads back as it was, unless the text denotes an endpoint.
pub proof fn law_domain_text_round_trip(domain: Seq<char>, port: u16)
    requires
        domain.len() > 0,
        encode_utf8(domain).len() <= 255,
        socket_addr_of(host_port_text(domain, port)) is None,
    ensures
        target_of_text(TargetView::Domain(domain, port).text()) == Ok::<
            TargetView,
            TargetTextError,
        >(TargetView::Domain(domain, port)),
{
    let s = host_port_text(domain, port);
    let at: int = domain.len() + 1int;
    crate::text::lemma_dec_text(port as nat);
    law_decimal_round_trip(port as nat, 65535);
    assert(s.skip(at) =~= dec_text(port as nat));
    assert(s.take(at - 1) =~= domain);
    assert forall|k: int| at <= k < s.len() implies s[k] != ':' by {
        assert(crate::text::is_digit(dec_text(port as nat)[k - at]));
    }
    lemma_last_colon(s, at, s.len() as int);
}

/// An endpoint reads back from its text as it was; an IPv4 endpoint has no zone.
pub proof fn law_endpoint_text_round_trip(addr: SocketAddr)
    requires
        addr.ip is V4 ==> addr.scope_id == 0,
    ensures
        target_of_text(TargetView::Ip(addr).text()) == Ok::<TargetView, TargetTextError>(
            TargetView::Ip(addr),
        ),
{
    crate::ip_laws::law_socket_addr_text_round_trip(addr);
}

/// The forms of an address on the wire: a type, the host, and the port in two bytes. SOCKS5 has the
/// types 1, 3 and 4 for IPv4, domain and IPv6; a domain's length comes before it.
pub proof fn law_socks_form(addr: SocketAddr, domain: Seq<char>, port: u16)
    requires
        encode_utf8(domain).len() <= 255,
    ensures
        addr.ip matches IpAddr::V4(ip) ==> addr_bytes(socks_tags(), TargetView::Ip(addr)) == seq![1u8]
            + be4_bytes(ip as int) + be2_bytes(addr.port as int),
        addr.ip matches IpAddr::V6(ip) ==> addr_bytes(socks_tags(), TargetView::Ip(addr)) == seq![4u8]
            + be16_bytes(ip as int) + be2_bytes(addr.port as int),
        addr_bytes(socks_tags(), TargetView::Domain(domain, port)) == seq![
            3u8,
            encode_utf8(domain).len() as u8,
        ] + encode_utf8(domain) + be2_bytes(port as int),
{
}

/// An address of a type that the form does not have is refused, and so is one that is cut off.
pub proof fn law_bad_addresses_are_refused(tags: AddrTags, target: TargetView, got: int, data: Seq<u8>)
    requires
        tags.distinct(),
        wire_safe(target),
        0 <= got < addr_bytes(tags, target).len(),
    ensures
        addr_parse(tags, addr_bytes(tags, target).take(got)) is Err,
        data.len() > 0 && data[0] != tags.v4 && data[0] != tags.v6 && data[0] != tags.domain
            ==> addr_parse(tags, data) == Err::<(TargetView, int), AddrError>(
            AddrError::UnknownType(data[0]),
        ),
        data.len() > 0 && !(data[0] == 1 || data[0] == 3 || data[0] == 4) ==> read_target(data)
            == ReadTargetView::InvalidType(data[0]),
{
    let all = addr_bytes(tags, target);
    let part = all.take(got);
    if let TargetView::Ip(a) = target {
        if let IpAddr::V6(ip) = a.ip {
            law_be16_round_trip(ip as int, Seq::empty());
        }
    }
    if got > 0 {
        assert(part[0] == all[0]);
        if got > 1 {
            assert(part[1] == all[1]);
        }
    }
}

/// A text with a host and a port stands for that host and port: the port is what follows the last colon,
/// with or without leading zeros, and every part is needed.
pub proof fn law_host_and_port(host: Seq<char>, port: Seq<char>, number: nat)
    requires
        socket_addr_of(host + seq![':'] + port) is None,
        socket_addr_of(host) is None,
        parse_uint(port, 65535) == Some(number),
        forall|i: int| 0 <= i < port.len() ==> #[trigger] port[i] != ':',
        encode_utf8(host).len() <= 255,
    ensures
        host.len() > 0 ==> target_of_text(host + seq![':'] + port) == Ok::<
            TargetView,
            TargetTextError,
        >(TargetView::Domain(host, number as u16)),
        host.len() == 0 ==> target_of_text(host + seq![':'] + port) == Err::<
            TargetView,
            TargetTextError,
        >(TargetTextError::EmptyHost),
        (forall|i: int| 0 <= i < host.len() ==> #[trigger] host[i] != ':') ==> target_of_text(host)
            == Err::<TargetView, TargetTextError>(TargetTextError::NoPort),
{
    let s = host + seq![':'] + port;
    let at: int = host.len() + 1int;
    assert(s.skip(at) =~= port);
    assert(s.take(at - 1) =~= host);
    assert forall|k: int| at <= k < s.len() implies s[k] != ':' by {
        assert(s[k] == port[k - at]);
    }
    lemma_last_colon(s, at, s.len() as int);
    if forall|i: int| 0 <= i < host.len() ==> #[trigger] host[i] != ':' {
        lemma_no_colon(host, host.len() as int);
    }
}

proof fn lemma_no_colon(s: Seq<char>, end: int)
    requires
        0 <= end <= s.len(),
        forall|i: int| 0 <= i < s.len() ==> #[trigger] s[i] != ':',
    ensures
        last_colon(s, end) == 0,
    decreases end,
{
    if end > 0 {
        assert(s[end - 1] != ':');
        lemma_no_colon(s, end - 1);
    }
}

/// Text that names no port number behind its last colon, and a host that does not fit the wire, are
/// refused.
pub proof fn law_bad_target_texts_are_refused(host: Seq<char>, port: Seq<char>)
    requires
        socket_addr_of(host + seq![':'] + port) is None,
        forall|i: int| 0 <= i < port.len() ==> #[trigger] port[i] != ':',
    ensures
        parse_uint(port, 65535) is None ==> target_of_text(host + seq![':'] + port) == Err::<
            TargetView,
            TargetTextError,
        >(TargetTextError::InvalidPort),
        parse_uint(port, 65535) is Some && host.len() > 0 && encode_utf8(host).len() > 255
            ==> target_of_text(host + seq![':'] + port) == Err::<TargetView, TargetTextError>(
            TargetTextError::HostTooLong,
        ),
{
    let s = host + seq![':'] + port;
    let at: int = host.len() + 1int;
    assert(s.skip(at) =~= port);
    assert(s.take(at - 1) =~= host);
    assert forall|k: int| at <= k < s.len() implies s[k] != ':' by {
        assert(s[k] == port[k - at]);
    }
    lemma_last_colon(s, at, s.len() as int);
}

} // verus!
