//! DNS messages: what is read out of them, and the replies that the proxy writes itself.

use crate::proxy::addr::IpAddr;
use crate::proxy::addr::IpAddr::{V4, V6};
use crate::random::random_u16;
use crate::text::{chars_of, same_ascii};
use crate::time::Duration;
use simple_dns::rdata::RData::{A, AAAA};
use simple_dns::RCODE::NoError;
use simple_dns::{rdata, Name, Packet, PacketFlag, Question, ResourceRecord, CLASS, QCLASS, QTYPE};
use vstd::prelude::*;

verus! {

/// The query type of IPv4 addresses.
pub const TYPE_A: u16 = 1;

/// The query type of IPv6 addresses.
pub const TYPE_AAAA: u16 = 28;

/// The class of the names of the Internet.
pub const CLASS_IN: u16 = 1;

/// The header flag of a reply.
pub const RESPONSE: u16 = 0x8000;

/// The header flag by which a client asks for a full resolution.
pub const RECURSION_DESIRED: u16 = 0x0100;

/// The header flag by which a server offers full resolutions.
pub const RECURSION_AVAILABLE: u16 = 0x0080;

/// What a question asks for.
#[derive(Debug)]
pub struct DnsQuestion {
    pub name: String,
    pub qtype: u16,
}

/// What is read out of a DNS message. `records` holds the time to live of every record, with the
/// address where it is one; the first `answers` of them are the answers.
#[derive(Debug)]
pub struct DnsMessage {
    pub id: u16,
    pub response: bool,
    pub recursion_desired: bool,
    pub recursion_available: bool,
    pub no_error: bool,
    pub questions: Vec<DnsQuestion>,
    pub answers: usize,
    pub records: Vec<(u32, Option<IpAddr>)>,
}

/// The value of a message.
#[verifier::ext_equal]
pub struct DnsView {
    pub id: u16,
    pub response: bool,
    pub recursion_desired: bool,
    pub recursion_available: bool,
    pub no_error: bool,
    pub questions: Seq<(Seq<char>, u16)>,
    pub answers: usize,
    pub records: Seq<(u32, Option<IpAddr>)>,
}

/// The values of a list of questions.
pub open spec fn question_views(list: Seq<DnsQuestion>) -> Seq<(Seq<char>, u16)> {
    list.map_values(|q: DnsQuestion| (q.name@, q.qtype))
}

impl View for DnsMessage {
    type V = DnsView;

    open spec fn view(&self) -> DnsView {
        DnsView {
            id: self.id,
            response: self.response,
            recursion_desired: self.recursion_desired,
            recursion_available: self.recursion_available,
            no_error: self.no_error,
            questions: question_views(self.questions@),
            answers: self.answers,
            records: self.records@,
        }
    }
}

/// The value of an optional message.
pub open spec fn opt_message(m: Option<DnsMessage>) -> Option<DnsView> {
    match m {
        Some(message) => Some(message@),
        None => None,
    }
}

/// The value of optional bytes.
pub open spec fn opt_bytes(b: Option<Vec<u8>>) -> Option<Seq<u8>> {
    match b {
        Some(bytes) => Some(bytes@),
        None => None,
    }
}

/// What `simple_dns::Packet::parse` reads out of a message, if it is one.
pub uninterp spec fn dns_message(bytes: Seq<u8>) -> Option<DnsView>;

/// Calls `simple_dns::Packet::parse`. What it reads is a function of the bytes; the questions are
/// counted in sixteen bits, and answers come before the records of the other two sections.
#[verifier::external_body]
fn parsed(bytes: &[u8]) -> (m: Option<DnsMessage>)
    ensures
        opt_message(m) == dns_message(bytes@),
        m matches Some(message) ==> message.answers <= message.records@.len()
            && message.questions@.len() <= 65535,
{
    Packet::parse(bytes).ok().map(|p| DnsMessage {
        id: p.id(),
        response: p.has_flags(PacketFlag::RESPONSE),
        recursion_desired: p.has_flags(PacketFlag::RECURSION_DESIRED),
        recursion_available: p.has_flags(PacketFlag::RECURSION_AVAILABLE),
        no_error: p.rcode() == NoError,
        questions: p.questions.iter().map(|q| question(q.qname.to_string(), q.qtype.into())).collect(),
        answers: p.answers.len(),
        records: [p.answers, p.name_servers, p.additional_records].concat().into_iter().map(|r| (r.ttl, match r.rdata {
            A(a) => Some(V4(a.address)),
            AAAA(a) => Some(V6(a.address)),
            _ => None
        })).collect()
    })
}

fn question(name: String, qtype: u16) -> (q: DnsQuestion)
    ensures
        q.name == name,
        q.qtype == qtype,
{
    DnsQuestion { name, qtype }
}

/// The bytes that `simple_dns` writes for a reply to `query`: the questions at the places `asked`,
/// `flags` besides that of a reply, and the given addresses of that class, each of the name at a
/// question's place.
pub uninterp spec fn dns_reply(
    query: Seq<u8>,
    asked: Seq<usize>,
    flags: u16,
    class: u16,
    answers: Seq<(usize, u32, IpAddr)>,
) -> Option<Seq<u8>>;

/// The records of a list of addresses.
pub open spec fn address_records(answers: Seq<(usize, u32, IpAddr)>) -> Seq<(u32, Option<IpAddr>)> {
    answers.map_values(|a: (usize, u32, IpAddr)| (a.1, Some(a.2)))
}

/// What a reply says.
pub open spec fn reply_view(
    query: DnsView,
    asked: Seq<usize>,
    flags: u16,
    answers: Seq<(usize, u32, IpAddr)>,
) -> DnsView {
    DnsView {
        id: query.id,
        response: true,
        recursion_desired: flags & RECURSION_DESIRED != 0,
        recursion_available: flags & RECURSION_AVAILABLE != 0,
        no_error: true,
        questions: asked.map_values(|i: usize| query.questions[i as int]),
        answers: answers.len() as usize,
        records: address_records(answers),
    }
}

/// Calls `simple_dns::Packet::new_reply` and `build_bytes_vec`. The reply has the id of the query, the
/// questions at the given places and the given answers, and no other records; it reads back as that.
/// There is none where a place is behind the last question. What is read back does not show the names
/// that the answers are of, nor their class.
#[verifier::external_body]
fn reply_to(
    query: &[u8],
    asked: &Vec<usize>,
    flags: u16,
    class: u16,
    answers: &Vec<(usize, u32, IpAddr)>,
) -> (r: Option<Vec<u8>>)
    requires
        asked@.len() <= 65535,
        answers@.len() <= 65535,
    ensures
        opt_bytes(r) == dns_reply(query@, asked@, flags, class, answers@),
        dns_message(query@) is None ==> r is None,
        r matches Some(bytes) ==> dns_message(bytes@) == Some(
            reply_view(dns_message(query@)->0, asked@, flags, answers@),
        ),
        r is Some ==> forall|k: int|
            0 <= k < asked@.len() ==> (#[trigger] asked@[k]) < dns_message(query@)->0.questions.len(),
{
    let packet = Packet::parse(query).ok()?;
    let class = CLASS::try_from(class).ok()?;
    let mut reply = Packet::new_reply(packet.id());
    reply.set_flags(PacketFlag::from_bits_truncate(flags));
    for place in asked {
        reply.questions.push(packet.questions.get(*place)?.clone());
    }
    for (place, ttl, ip) in answers {
        let data = match ip {
            V4(address) => A(rdata::A { address: *address }),
            V6(address) => AAAA(rdata::AAAA { address: *address }),
        };
        reply.answers.push(ResourceRecord::new(packet.questions.get(*place)?.qname.clone(), class, *ttl, data));
    }
    reply.build_bytes_vec().ok()
}

/// The places of `n` questions.
pub open spec fn every(n: int) -> Seq<usize> {
    Seq::new(n as nat, |i: int| i as usize)
}

/// The place of the first question alone.
pub open spec fn first_only() -> Seq<usize> {
    seq![0usize]
}

fn every_place(n: usize) -> (places: Vec<usize>)
    ensures
        places@ == every(n as int),
{
    let mut places: Vec<usize> = Vec::new();
    let mut i: usize = 0;
    while i < n
        invariant
            i <= n,
            places@ == every(i as int),
        decreases n - i,
    {
        places.push(i);
        i += 1;
        assert(places@ =~= every(i as int));
    }
    places
}

/// The bytes that `simple_dns` writes for a query with these flags, if the name is one.
pub uninterp spec fn dns_query(
    id: u16,
    flags: u16,
    domain: Seq<char>,
    qtype: u16,
    class: u16,
) -> Option<Seq<u8>>;

/// Calls `simple_dns::Packet::new_query`, `Name::new` and `build_bytes_vec`: a query for one name,
/// which reads back with its id, flags and type. Which names, types and classes are refused is left to
/// the named result; the class is not read back.
#[verifier::external_body]
fn query_for(id: u16, flags: u16, domain: &str, qtype: u16, class: u16) -> (r: Option<Vec<u8>>)
    ensures
        opt_bytes(r) == dns_query(id, flags, domain@, qtype, class),
        r matches Some(bytes) ==> dns_message(bytes@) matches Some(m) && m.id == id && m.response == (
        flags & RESPONSE != 0) && m.recursion_desired == (flags & RECURSION_DESIRED != 0)
            && m.recursion_available == (flags & RECURSION_AVAILABLE != 0) && m.no_error
            && m.questions.len() == 1 && m.questions[0].1 == qtype && m.answers == 0
            && m.records.len() == 0,
{
    let mut packet = Packet::new_query(id);
    packet.set_flags(PacketFlag::from_bits_truncate(flags));
    let name = Name::new(domain).ok()?;
    let kind = QTYPE::try_from(qtype).ok()?;
    let class = QCLASS::try_from(class).ok()?;
    packet.questions.push(Question::new(name, kind, class, false));
    packet.build_bytes_vec().ok()
}

/// The bytes that `simple_dns` writes for a message with other times to live.
pub uninterp spec fn dns_retimed(bytes: Seq<u8>, ttls: Seq<u32>) -> Option<Seq<u8>>;

/// Whether every record is an address.
pub open spec fn only_addresses(records: Seq<(u32, Option<IpAddr>)>) -> bool {
    forall|i: int| 0 <= i < records.len() ==> (#[trigger] records[i]).1 is Some
}

/// The records with other times to live.
pub open spec fn records_with(
    records: Seq<(u32, Option<IpAddr>)>,
    ttls: Seq<u32>,
) -> Seq<(u32, Option<IpAddr>)> {
    Seq::new(records.len(), |i: int| (ttls[i], records[i].1))
}

/// Calls `simple_dns::Packet::parse` and `build_bytes_vec`, with the times to live of the records
/// replaced one by one. The bytes are a function of both. Where every record is an address, what is
/// written reads back as the message with those times to live; of messages with other records that is
/// not said, since each kind of record is written in its own way.
#[verifier::external_body]
fn retimed(bytes: &[u8], ttls: &Vec<u32>) -> (r: Option<Vec<u8>>)
    ensures
        opt_bytes(r) == dns_retimed(bytes@, ttls@),
        dns_message(bytes@) is None ==> r is None,
        r matches Some(out) ==> (dns_message(bytes@) matches Some(m) && (only_addresses(m.records)
            && ttls@.len() == m.records.len() ==> dns_message(out@) == Some(
            DnsView { records: records_with(m.records, ttls@), ..m },
        ))),
{
    let mut p = Packet::parse(bytes).ok()?;
    let rows = p.answers.iter_mut().chain(p.name_servers.iter_mut());
    for (record, ttl) in rows.chain(p.additional_records.iter_mut()).zip(ttls) {
        record.ttl = *ttl;
    }
    p.build_bytes_vec().ok()
}

/// Reads a DNS message.
pub fn parse_message(bytes: &[u8]) -> (m: Option<DnsMessage>)
    ensures
        opt_message(m) == dns_message(bytes@),
        m matches Some(message) ==> message.answers <= message.records@.len(),
{
    parsed(bytes)
}

/// Builds a query with a random id that asks for a full resolution.
pub fn build_dns_query_packet(domain: &str, qtype: u16) -> (r: Option<Vec<u8>>)
    ensures
        exists|id: u16|
            opt_bytes(r) == #[trigger] dns_query(id, RECURSION_DESIRED, domain@, qtype, CLASS_IN),
        r matches Some(bytes) ==> dns_message(bytes@) matches Some(m) && !m.response
            && m.recursion_desired && !m.recursion_available && m.no_error && m.questions.len() == 1
            && m.questions[0].1 == qtype && m.answers == 0 && m.records.len() == 0,
{
    let id: u16 = random_u16();
    assert(0x0100u16 & 0x8000u16 == 0 && 0x0100u16 & 0x0100u16 != 0 && 0x0100u16 & 0x0080u16 == 0)
        by (bit_vector);
    query_for(id, RECURSION_DESIRED, domain, qtype, CLASS_IN)
}

/// A name without the dots at its end.
pub open spec fn without_dots(s: Seq<char>) -> Seq<char>
    decreases s.len(),
{
    if s.len() > 0 && s.last() == '.' {
        without_dots(s.drop_last())
    } else {
        s
    }
}

/// Whether a text ends with another, but for the case of ASCII letters.
pub open spec fn ends_with_ascii(s: Seq<char>, end: Seq<char>) -> bool {
    s.len() >= end.len() && crate::text::same_ascii(s.skip(s.len() - end.len()), end)
}

/// Whether a name lies in the zone by which resolvers are discovered.
pub open spec fn in_resolver_zone(name: Seq<char>) -> bool {
    let n = without_dots(name);
    crate::text::same_ascii(n, "resolver.arpa"@) || ends_with_ascii(n, ".resolver.arpa"@)
}

/// Whether a name lies in the zone by which resolvers are discovered.
pub fn is_resolver_arpa_name(name: &str) -> (r: bool)
    ensures
        r == in_resolver_zone(name@),
{
    let chars = chars_of(name);
    let mut n: usize = chars.len();
    assert(chars@.take(n as int) =~= name@);
    while n > 0 && chars[n - 1] == '.'
        invariant
            n <= chars@.len(),
            without_dots(name@) == without_dots(chars@.take(n as int)),
        decreases n,
    {
        assert(chars@.take(n as int).drop_last() =~= chars@.take(n - 1));
        n -= 1;
    }
    let ghost rest = without_dots(name@);
    assert(rest =~= chars@.take(n as int));
    let text = crate::text::text_of(vstd::slice::slice_subrange(chars.as_slice(), 0, n));
    assert(text@ =~= rest);
    if crate::text::eq_ignore_ascii_case(text.as_str(), "resolver.arpa") {
        return true;
    }
    proof {
        reveal_strlit(".resolver.arpa");
    }
    if n < 14 {
        return false;
    }
    let end = crate::text::text_of(vstd::slice::slice_subrange(chars.as_slice(), n - 14, n));
    assert(end@ =~= rest.skip(rest.len() - 14));
    crate::text::eq_ignore_ascii_case(end.as_str(), ".resolver.arpa")
}

/// Whether some question asks for a name in the zone by which resolvers are discovered.
pub open spec fn asks_resolver_zone(m: DnsView) -> bool {
    exists|i: int| 0 <= i < m.questions.len() && in_resolver_zone((#[trigger] m.questions[i]).0)
}

/// Whether some question asks for IPv6 addresses.
pub open spec fn asks_ipv6(m: DnsView) -> bool {
    exists|i: int| 0 <= i < m.questions.len() && (#[trigger] m.questions[i]).1 == TYPE_AAAA
}

fn any_resolver_zone(m: &DnsMessage) -> (r: bool)
    ensures
        r == asks_resolver_zone(m@),
{
    let mut i: usize = 0;
    while i < m.questions.len()
        invariant
            i <= m.questions@.len(),
            forall|k: int| 0 <= k < i ==> !in_resolver_zone((#[trigger] m@.questions[k]).0),
        decreases m.questions@.len() - i,
    {
        assert(m@.questions[i as int].0 == m.questions@[i as int].name@);
        if is_resolver_arpa_name(m.questions[i].name.as_str()) {
            return true;
        }
        i += 1;
    }
    false
}

fn any_ipv6(m: &DnsMessage) -> (r: bool)
    ensures
        r == asks_ipv6(m@),
{
    let mut i: usize = 0;
    while i < m.questions.len()
        invariant
            i <= m.questions@.len(),
            forall|k: int| 0 <= k < i ==> (#[trigger] m@.questions[k]).1 != TYPE_AAAA,
        decreases m.questions@.len() - i,
    {
        assert(m@.questions[i as int].1 == m.questions@[i as int].qtype);
        if m.questions[i].qtype == TYPE_AAAA {
            return true;
        }
        i += 1;
    }
    false
}

/// Why a DNS message is not answered.
#[derive(Clone, Copy, Debug, PartialEq, Eq, Structural)]
pub enum DnsError {
    /// The bytes are no DNS message.
    Malformed,
    /// A reply cannot be written.
    Unwritable,
    /// Nothing is asked.
    NoQuestions,
    /// Only addresses can be asked for here.
    OnlyAddresses,
}

/// The flags of a reply that says that there is no data.
pub open spec fn nodata_flags(query: DnsView) -> u16 {
    if query.recursion_desired {
        RECURSION_DESIRED | RECURSION_AVAILABLE
    } else {
        RECURSION_AVAILABLE
    }
}

/// The reply that says that there is no data, to a query that looks for resolvers; nothing for any
/// other query.
pub open spec fn nodata_reply(query: Seq<u8>) -> Result<Option<Seq<u8>>, DnsError> {
    match dns_message(query) {
        None => Err(DnsError::Malformed),
        Some(m) => if !asks_resolver_zone(m) {
            Ok(None)
        } else {
            match dns_reply(query, every(m.questions.len() as int), nodata_flags(m), CLASS_IN, Seq::empty()) {
                Some(bytes) => Ok(Some(bytes)),
                None => Err(DnsError::Unwritable),
            }
        },
    }
}

/// The value of an optional reply.
pub open spec fn reply_result(r: Result<Option<Vec<u8>>, DnsError>) -> Result<
    Option<Seq<u8>>,
    DnsError,
> {
    match r {
        Ok(Some(bytes)) => Ok(Some(bytes@)),
        Ok(None) => Ok(None),
        Err(e) => Err(e),
    }
}

fn flags_for_nodata(m: &DnsMessage) -> (flags: u16)
    ensures
        flags == nodata_flags(m@),
{
    if m.recursion_desired {
        RECURSION_DESIRED | RECURSION_AVAILABLE
    } else {
        RECURSION_AVAILABLE
    }
}

/// Answers a query that looks for resolvers: there is no data. Any other query is left alone.
pub fn build_ddr_nodata_response(query: &[u8]) -> (r: Result<Option<Vec<u8>>, DnsError>)
    ensures
        reply_result(r) == nodata_reply(query@),
        r matches Ok(Some(bytes)) ==> dns_message(bytes@) matches Some(m) && dns_message(query@)
            matches Some(q) && m.id == q.id && m.questions == q.questions && m.records.len() == 0
            && m.no_error && m.response && m.recursion_available && m.recursion_desired
            == q.recursion_desired,
{
    match parsed(query) {
        None => Err(DnsError::Malformed),
        Some(m) => {
            if !any_resolver_zone(&m) {
                return Ok(None);
            }
            let flags: u16 = flags_for_nodata(&m);
            proof {
                assert((0x0100u16 | 0x0080u16) & 0x0100u16 != 0 && (0x0100u16 | 0x0080u16)
                    & 0x0080u16 != 0) by (bit_vector);
                assert(0x0080u16 & 0x0100u16 == 0 && 0x0080u16 & 0x0080u16 != 0) by (bit_vector);
            }
            let count: usize = m.questions.len();
            assert(m@.questions.len() == count);
            let none: Vec<(usize, u32, IpAddr)> = Vec::new();
            assert(none@ =~= Seq::<(usize, u32, IpAddr)>::empty());
            match reply_to(query, &every_place(count), flags, CLASS_IN, &none) {
                Some(bytes) => {
                    assert(reply_view(m@, every(count as int), flags, none@).questions
                        =~= m@.questions);
                    Ok(Some(bytes))
                },
                None => Err(DnsError::Unwritable),
            }
        },
    }
}

/// What is done with a query that a client sent to any server.
#[derive(Debug)]
pub enum Hijack {
    /// Answer with this.
    Reply(Vec<u8>),
    /// Ask the server of the proxy.
    Exchange,
    Fail(DnsError),
}

/// The value of what is done with a query.
pub enum HijackView {
    Reply(Seq<u8>),
    Exchange,
    Fail(DnsError),
}

impl View for Hijack {
    type V = HijackView;

    open spec fn view(&self) -> HijackView {
        match self {
            Hijack::Reply(bytes) => HijackView::Reply(bytes@),
            Hijack::Exchange => HijackView::Exchange,
            Hijack::Fail(e) => HijackView::Fail(*e),
        }
    }
}

/// What is done with a query: one that looks for resolvers is told that there is no data, where that
/// is blocked; one for IPv6 addresses gets an empty reply, where those are rejected; any other goes on.
pub open spec fn hijack(query: Seq<u8>, block_ddr: bool, reject_ipv6: bool) -> HijackView {
    match dns_message(query) {
        None => HijackView::Fail(DnsError::Malformed),
        Some(m) => if block_ddr && asks_resolver_zone(m) {
            match dns_reply(query, every(m.questions.len() as int), nodata_flags(m), CLASS_IN, Seq::empty()) {
                Some(bytes) => HijackView::Reply(bytes),
                None => HijackView::Fail(DnsError::Unwritable),
            }
        } else if reject_ipv6 && asks_ipv6(m) {
            match dns_reply(query, every(m.questions.len() as int), 0, CLASS_IN, Seq::empty()) {
                Some(bytes) => HijackView::Reply(bytes),
                None => HijackView::Fail(DnsError::Unwritable),
            }
        } else {
            HijackView::Exchange
        },
    }
}

/// Decides what is done with a query.
pub fn hijack_exchange(query: &[u8], block_ddr: bool, reject_ipv6: bool) -> (r: Hijack)
    ensures
        r@ == hijack(query@, block_ddr, reject_ipv6),
        r matches Hijack::Reply(bytes) ==> dns_message(bytes@) matches Some(m) && dns_message(
            query@,
        ) matches Some(q) && m.id == q.id && m.response && m.questions == q.questions
            && m.records.len() == 0,
{
    let m = match parsed(query) {
        None => {
            return Hijack::Fail(DnsError::Malformed);
        },
        Some(m) => m,
    };
    let count: usize = m.questions.len();
    let none: Vec<(usize, u32, IpAddr)> = Vec::new();
    proof {
        assert(none@ =~= Seq::<(usize, u32, IpAddr)>::empty());
        assert(m@.questions.len() == count);
        assert forall|flags: u16|
            (#[trigger] reply_view(m@, every(count as int), flags, none@)).questions
                == m@.questions by {
            assert(reply_view(m@, every(count as int), flags, none@).questions =~= m@.questions);
        }
    }
    if block_ddr && any_resolver_zone(&m) {
        let flags: u16 = flags_for_nodata(&m);
        return match reply_to(query, &every_place(count), flags, CLASS_IN, &none) {
            Some(bytes) => Hijack::Reply(bytes),
            None => Hijack::Fail(DnsError::Unwritable),
        };
    }
    if reject_ipv6 && any_ipv6(&m) {
        return match reply_to(query, &every_place(count), 0, CLASS_IN, &none) {
            Some(bytes) => Hijack::Reply(bytes),
            None => Hijack::Fail(DnsError::Unwritable),
        };
    }
    Hijack::Exchange
}

/// Writes a reply to the first question of a query, with at most one address.
pub fn address_reply(query: &[u8], answer: Option<(u32, IpAddr)>) -> (r: Option<Vec<u8>>)
    ensures
        opt_bytes(r) == dns_reply(query@, first_only(), 0, CLASS_IN, answer_list(answer)),
        r matches Some(bytes) ==> dns_message(query@) matches Some(q) && dns_message(bytes@) == Some(
            reply_view(q, first_only(), 0, answer_list(answer)),
        ),
{
    let mut answers: Vec<(usize, u32, IpAddr)> = Vec::new();
    if let Some((ttl, ip)) = answer {
        answers.push((0, ttl, ip));
    }
    assert(answers@ =~= answer_list(answer));
    let asked: Vec<usize> = every_place(1);
    assert(asked@ =~= first_only());
    reply_to(query, &asked, 0, CLASS_IN, &answers)
}

/// At most one address of the first question's name as a list.
pub open spec fn answer_list(answer: Option<(u32, IpAddr)>) -> Seq<(usize, u32, IpAddr)> {
    match answer {
        Some((ttl, ip)) => seq![(0usize, ttl, ip)],
        None => Seq::empty(),
    }
}

/// A number of seconds as a 32-bit time to live; larger numbers lose their upper half.
pub open spec fn ttl_of(d: Duration) -> u32 {
    ((d.nanos / 1_000_000_000) % 0x1_0000_0000) as u32
}

fn ttl_secs(d: Duration) -> (ttl: u32)
    ensures
        ttl == ttl_of(d),
{
    ((d.nanos / 1_000_000_000) % 0x1_0000_0000) as u32
}

/// A time to live within bounds: raised to the lower, then lowered to the upper.
pub open spec fn clamped(ttl: u32, min_ttl: Option<Duration>, max_ttl: Option<Duration>) -> u32 {
    let raised = match min_ttl {
        Some(d) => if ttl < ttl_of(d) {
            ttl_of(d)
        } else {
            ttl
        },
        None => ttl,
    };
    match max_ttl {
        Some(d) => if raised > ttl_of(d) {
            ttl_of(d)
        } else {
            raised
        },
        None => raised,
    }
}

fn clamp_ttl(ttl: u32, min_ttl: Option<Duration>, max_ttl: Option<Duration>) -> (r: u32)
    ensures
        r == clamped(ttl, min_ttl, max_ttl),
{
    let mut effective: u32 = ttl;
    if let Some(d) = min_ttl {
        let min: u32 = ttl_secs(d);
        if effective < min {
            effective = min;
        }
    }
    if let Some(d) = max_ttl {
        let max: u32 = ttl_secs(d);
        if effective > max {
            effective = max;
        }
    }
    effective
}

/// The records with their times to live within bounds.
pub open spec fn clamped_records(
    records: Seq<(u32, Option<IpAddr>)>,
    min_ttl: Option<Duration>,
    max_ttl: Option<Duration>,
) -> Seq<(u32, Option<IpAddr>)> {
    records.map_values(|r: (u32, Option<IpAddr>)| (clamped(r.0, min_ttl, max_ttl), r.1))
}

/// The shortest time to live, if there are records.
pub open spec fn shortest(records: Seq<(u32, Option<IpAddr>)>) -> Option<u32>
    decreases records.len(),
{
    if records.len() == 0 {
        None
    } else {
        match shortest(records.drop_last()) {
            None => Some(records.last().0),
            Some(n) => Some(
                if records.last().0 < n {
                    records.last().0
                } else {
                    n
                },
            ),
        }
    }
}

/// Brings the times to live within bounds and returns the shortest of them.
pub fn apply_ttl_to_response(
    m: &mut DnsMessage,
    min_ttl: Option<Duration>,
    max_ttl: Option<Duration>,
) -> (r: Option<u32>)
    ensures
        final(m)@ == (DnsView {
            records: clamped_records(old(m)@.records, min_ttl, max_ttl),
            ..old(m)@
        }),
        r == shortest(final(m)@.records),
{
    let ghost want = clamped_records(m@.records, min_ttl, max_ttl);
    let mut least: Option<u32> = None;
    let mut records: Vec<(u32, Option<IpAddr>)> = Vec::new();
    let mut i: usize = 0;
    assert(want.take(0) =~= Seq::<(u32, Option<IpAddr>)>::empty());
    while i < m.records.len()
        invariant
            i <= m.records@.len(),
            *m == *old(m),
            want == clamped_records(m@.records, min_ttl, max_ttl),
            records@ == want.take(i as int),
            least == shortest(want.take(i as int)),
        decreases m.records@.len() - i,
    {
        let (ttl, ip): (u32, Option<IpAddr>) = m.records[i];
        let effective: u32 = clamp_ttl(ttl, min_ttl, max_ttl);
        records.push((effective, ip));
        proof {
            assert(want.take(i + 1).drop_last() =~= want.take(i as int));
            assert(want.take(i + 1).last() == (effective, ip));
            assert(records@ =~= want.take(i + 1));
        }
        least = match least {
            None => Some(effective),
            Some(n) => {
                if effective < n {
                    Some(effective)
                } else {
                    Some(n)
                }
            },
        };
        i += 1;
    }
    assert(want.take(i as int) =~= want);
    m.records = records;
    least
}

/// The records with their times to live not above `remaining`.
pub open spec fn capped_records(
    records: Seq<(u32, Option<IpAddr>)>,
    remaining: u32,
) -> Seq<(u32, Option<IpAddr>)> {
    records.map_values(
        |r: (u32, Option<IpAddr>)|
            (
                if r.0 < remaining {
                    r.0
                } else {
                    remaining
                },
                r.1,
            ),
    )
}

/// Lowers the times to live to `remaining`.
pub fn cap_record_ttls(m: &mut DnsMessage, remaining: u32)
    ensures
        final(m)@ == (DnsView { records: capped_records(old(m)@.records, remaining), ..old(m)@ }),
{
    let ghost want = capped_records(m@.records, remaining);
    let mut records: Vec<(u32, Option<IpAddr>)> = Vec::new();
    let mut i: usize = 0;
    assert(want.take(0) =~= Seq::<(u32, Option<IpAddr>)>::empty());
    while i < m.records.len()
        invariant
            i <= m.records@.len(),
            *m == *old(m),
            want == capped_records(m@.records, remaining),
            records@ == want.take(i as int),
        decreases m.records@.len() - i,
    {
        let (ttl, ip): (u32, Option<IpAddr>) = m.records[i];
        records.push(
            (
                if ttl < remaining {
                    ttl
                } else {
                    remaining
                },
                ip,
            ),
        );
        i += 1;
        assert(records@ =~= want.take(i as int));
    }
    assert(want.take(i as int) =~= want);
    m.records = records;
}

/// The times to live of the records.
pub open spec fn ttls_of(records: Seq<(u32, Option<IpAddr>)>) -> Seq<u32> {
    records.map_values(|r: (u32, Option<IpAddr>)| r.0)
}

/// Whether `out` reads back as the message `was` with these records, where they are those of the
/// message but for the times to live, and all are addresses.
pub open spec fn reads_back(was: DnsView, records: Seq<(u32, Option<IpAddr>)>, out: Seq<u8>) -> bool {
    only_addresses(was.records) && same_but_ttls(was.records, records) ==> dns_message(out) == Some(
        DnsView { records, ..was },
    )
}

/// Whether two lists of records differ in nothing but the times to live.
pub open spec fn same_but_ttls(
    a: Seq<(u32, Option<IpAddr>)>,
    b: Seq<(u32, Option<IpAddr>)>,
) -> bool {
    a.len() == b.len() && forall|i: int| 0 <= i < a.len() ==> (#[trigger] a[i]).1 == b[i].1
}

/// Writes a message with the times to live that `m` has.
pub fn with_ttls(bytes: &[u8], m: &DnsMessage) -> (r: Option<Vec<u8>>)
    ensures
        opt_bytes(r) == dns_retimed(bytes@, ttls_of(m@.records)),
        r matches Some(out) ==> (dns_message(bytes@) matches Some(was) && reads_back(
            was,
            m@.records,
            out@,
        )),
{
    let ghost want = ttls_of(m@.records);
    let mut ttls: Vec<u32> = Vec::new();
    let mut i: usize = 0;
    while i < m.records.len()
        invariant
            i <= m.records@.len(),
            want == ttls_of(m@.records),
            ttls@ == want.take(i as int),
        decreases m.records@.len() - i,
    {
        ttls.push(m.records[i].0);
        i += 1;
        assert(ttls@ =~= want.take(i as int));
    }
    assert(want.take(i as int) =~= want);
    proof {
        if let Some(was) = dns_message(bytes@) {
            if same_but_ttls(was.records, m@.records) {
                assert(records_with(was.records, ttls@) =~= m@.records);
            }
        }
    }
    retimed(bytes, &ttls)
}

/// Whether an address is of the family that a query type asks for.
pub open spec fn of_type(ip: IpAddr, qtype: u16) -> bool {
    match ip {
        IpAddr::V4(_) => qtype == TYPE_A,
        IpAddr::V6(_) => qtype == TYPE_AAAA,
    }
}

/// The addresses of one family among the records.
pub open spec fn addresses_in(records: Seq<(u32, Option<IpAddr>)>, qtype: u16) -> Seq<IpAddr>
    decreases records.len(),
{
    if records.len() == 0 {
        Seq::empty()
    } else {
        let before = addresses_in(records.drop_last(), qtype);
        match records.last().1 {
            Some(ip) => if of_type(ip, qtype) {
                before.push(ip)
            } else {
                before
            },
            None => before,
        }
    }
}

/// The addresses of one family that a response answers; none for a response that reports an error.
pub open spec fn answered(m: DnsView, qtype: u16) -> Seq<IpAddr> {
    if m.no_error {
        addresses_in(m.records.take(m.answers as int), qtype)
    } else {
        Seq::empty()
    }
}

/// The addresses of one family that a response answers.
pub fn addresses_of(m: &DnsMessage, qtype: u16) -> (ips: Vec<IpAddr>)
    requires
        m.answers <= m.records@.len(),
    ensures
        ips@ == answered(m@, qtype),
{
    let mut ips: Vec<IpAddr> = Vec::new();
    if !m.no_error {
        return ips;
    }
    let ghost all = m@.records.take(m.answers as int);
    let mut i: usize = 0;
    assert(all.take(0) =~= Seq::<(u32, Option<IpAddr>)>::empty());
    while i < m.answers
        invariant
            i <= m.answers <= m.records@.len(),
            all == m@.records.take(m.answers as int),
            ips@ == addresses_in(all.take(i as int), qtype),
        decreases m.answers - i,
    {
        proof {
            assert(all.take(i + 1).drop_last() =~= all.take(i as int));
            assert(all.take(i + 1).last() == m.records@[i as int]);
        }
        if let Some(ip) = m.records[i].1 {
            let wanted = match ip {
                IpAddr::V4(_) => qtype == TYPE_A,
                IpAddr::V6(_) => qtype == TYPE_AAAA,
            };
            if wanted {
                ips.push(ip);
            }
        }
        i += 1;
    }
    assert(all.take(i as int) =~= all);
    ips
}

/// The addresses of one family in a response; none in what is no message.
pub open spec fn extracted(bytes: Seq<u8>, qtype: u16) -> Seq<IpAddr> {
    match dns_message(bytes) {
        Some(m) => answered(m, qtype),
        None => Seq::empty(),
    }
}

/// The IPv4 addresses in a response.
pub fn extract_ipv4_from_response(response_bytes: &[u8]) -> (ips: Vec<IpAddr>)
    ensures
        ips@ == extracted(response_bytes@, TYPE_A),
{
    match parsed(response_bytes) {
        Some(m) => addresses_of(&m, TYPE_A),
        None => Vec::new(),
    }
}

/// The IPv6 addresses in a response.
pub fn extract_ipv6_from_response(response_bytes: &[u8]) -> (ips: Vec<IpAddr>)
    ensures
        ips@ == extracted(response_bytes@, TYPE_AAAA),
{
    match parsed(response_bytes) {
        Some(m) => addresses_of(&m, TYPE_AAAA),
        None => Vec::new(),
    }
}

/// Within bounds that do not contradict each other, every time to live ends up between them.
pub proof fn law_ttls_within_bounds(ttl: u32, min_ttl: Duration, max_ttl: Duration)
    requires
        ttl_of(min_ttl) <= ttl_of(max_ttl),
    ensures
        ttl_of(min_ttl) <= clamped(ttl, Some(min_ttl), Some(max_ttl)) <= ttl_of(max_ttl),
        ttl_of(min_ttl) <= ttl <= ttl_of(max_ttl) ==> clamped(ttl, Some(min_ttl), Some(max_ttl))
            == ttl,
{
}

/// The shortest time to live is that of some record, and none is shorter.
pub proof fn law_shortest_is_least(records: Seq<(u32, Option<IpAddr>)>, i: int)
    requires
        0 <= i < records.len(),
    ensures
        shortest(records) matches Some(n) && n <= records[i].0,
        exists|k: int| 0 <= k < records.len() && shortest(records) == Some((#[trigger] records[k]).0),
    decreases records.len(),
{
    let rest = records.drop_last();
    if rest.len() > 0 {
        let j = if i < rest.len() {
            i
        } else {
            0
        };
        law_shortest_is_least(rest, j);
        let k = choose|k: int| 0 <= k < rest.len() && shortest(rest) == Some((#[trigger] rest[k]).0);
        assert(records[k] == rest[k]);
        assert(records[records.len() - 1] == records.last());
        if i < rest.len() {
            assert(records[i] == rest[i]);
        }
    } else {
        assert(rest =~= Seq::empty());
        assert(records[0] == records.last());
    }
}

/// Only names in the zone itself are blocked: a name that merely contains the zone's name is not.
pub proof fn law_resolver_zone_is_a_suffix(name: Seq<char>)
    requires
        in_resolver_zone(name),
        without_dots(name).len() > 13,
    ensures
        ends_with_ascii(without_dots(name), ".resolver.arpa"@),
{
    reveal_strlit("resolver.arpa");
}

/// The answers of a response are its address records of the wanted family, all of them and in their
/// order: those with an IPv4 address for type 1, those with an IPv6 address for type 28, none for any
/// other type. A response that reports an error answers nothing.
pub proof fn law_answers_are_the_address_records(m: DnsView)
    requires
        m.answers <= m.records.len(),
    ensures
        m.no_error ==> answered(m, 1) == m.records.take(m.answers as int).filter(
            |r: (u32, Option<IpAddr>)| r.1 matches Some(IpAddr::V4(_)),
        ).map_values(|r: (u32, Option<IpAddr>)| r.1->0),
        m.no_error ==> answered(m, 28) == m.records.take(m.answers as int).filter(
            |r: (u32, Option<IpAddr>)| r.1 matches Some(IpAddr::V6(_)),
        ).map_values(|r: (u32, Option<IpAddr>)| r.1->0),
        forall|qtype: u16| qtype != 1 && qtype != 28 ==> #[trigger] answered(m, qtype).len() == 0,
        forall|qtype: u16| !m.no_error ==> #[trigger] answered(m, qtype).len() == 0,
{
    let records = m.records.take(m.answers as int);
    lemma_v4_records(records);
    lemma_v6_records(records);
    assert forall|qtype: u16| qtype != 1 && qtype != 28 implies #[trigger] answered(m, qtype).len()
        == 0 by {
        lemma_no_records(records, qtype);
    }
}

proof fn lemma_v4_records(records: Seq<(u32, Option<IpAddr>)>)
    ensures
        addresses_in(records, 1) == records.filter(
            |r: (u32, Option<IpAddr>)| r.1 matches Some(IpAddr::V4(_)),
        ).map_values(|r: (u32, Option<IpAddr>)| r.1->0),
    decreases records.len(),
{
    reveal(Seq::filter);
    let wanted = |r: (u32, Option<IpAddr>)| r.1 matches Some(IpAddr::V4(_));
    let ip = |r: (u32, Option<IpAddr>)| r.1->0;
    if records.len() > 0 {
        lemma_v4_records(records.drop_last());
        let before = records.drop_last().filter(wanted);
        assert(before.push(records.last()).map_values(ip) =~= before.map_values(ip).push(
            ip(records.last()),
        ));
    }
    assert(addresses_in(records, 1) =~= records.filter(wanted).map_values(ip));
}

proof fn lemma_v6_records(records: Seq<(u32, Option<IpAddr>)>)
    ensures
        addresses_in(records, 28) == records.filter(
            |r: (u32, Option<IpAddr>)| r.1 matches Some(IpAddr::V6(_)),
        ).map_values(|r: (u32, Option<IpAddr>)| r.1->0),
    decreases records.len(),
{
    reveal(Seq::filter);
    let wanted = |r: (u32, Option<IpAddr>)| r.1 matches Some(IpAddr::V6(_));
    let ip = |r: (u32, Option<IpAddr>)| r.1->0;
    if records.len() > 0 {
        lemma_v6_records(records.drop_last());
        let before = records.drop_last().filter(wanted);
        assert(before.push(records.last()).map_values(ip) =~= before.map_values(ip).push(
            ip(records.last()),
        ));
    }
    assert(addresses_in(records, 28) =~= records.filter(wanted).map_values(ip));
}

proof fn lemma_no_records(records: Seq<(u32, Option<IpAddr>)>, qtype: u16)
    requires
        qtype != 1,
        qtype != 28,
    ensures
        addresses_in(records, qtype).len() == 0,
    decreases records.len(),
{
    if records.len() > 0 {
        lemma_no_records(records.drop_last(), qtype);
    }
}

/// Every address record among the answers of the wanted family is in the result, and every address in
/// the result is that of such a record.
pub proof fn law_no_answer_is_missed_or_made_up(m: DnsView, k: int, ip: IpAddr)
    requires
        m.answers <= m.records.len(),
        m.no_error,
    ensures
        0 <= k < m.answers && m.records[k].1 == Some(ip) && ip is V4 ==> answered(m, 1).contains(ip),
        0 <= k < m.answers && m.records[k].1 == Some(ip) && ip is V6 ==> answered(m, 28).contains(ip),
        answered(m, 1).contains(ip) ==> ip is V4 && exists|i: int|
            0 <= i < m.answers && (#[trigger] m.records[i]).1 == Some(ip),
        answered(m, 28).contains(ip) ==> ip is V6 && exists|i: int|
            0 <= i < m.answers && (#[trigger] m.records[i]).1 == Some(ip),
{
    let records = m.records.take(m.answers as int);
    lemma_members(records, 1, ip);
    lemma_members(records, 28, ip);
    if 0 <= k < m.answers {
        assert(records[k] == m.records[k]);
    }
    if exists|i: int| 0 <= i < records.len() && (#[trigger] records[i]).1 == Some(ip) {
        let i = choose|i: int| 0 <= i < records.len() && (#[trigger] records[i]).1 == Some(ip);
        assert(m.records[i] == records[i]);
    }
}

proof fn lemma_members(records: Seq<(u32, Option<IpAddr>)>, qtype: u16, ip: IpAddr)
    ensures
        addresses_in(records, qtype).contains(ip) <==> of_type(ip, qtype) && exists|i: int|
            0 <= i < records.len() && (#[trigger] records[i]).1 == Some(ip),
    decreases records.len(),
{
    broadcast use vstd::seq_lib::group_seq_properties;

    if records.len() > 0 {
        let rest = records.drop_last();
        lemma_members(rest, qtype, ip);
        assert(records.last() == records[records.len() - 1]);
        if exists|i: int| 0 <= i < rest.len() && (#[trigger] rest[i]).1 == Some(ip) {
            let i = choose|i: int| 0 <= i < rest.len() && (#[trigger] rest[i]).1 == Some(ip);
            assert(records[i] == rest[i]);
        }
        if exists|i: int| 0 <= i < records.len() && (#[trigger] records[i]).1 == Some(ip) {
            let i = choose|i: int| 0 <= i < records.len() && (#[trigger] records[i]).1 == Some(ip);
            if i < rest.len() {
                assert(rest[i] == records[i]);
            }
        }
        if let Some(last) = records.last().1 {
            if of_type(last, qtype) {
                let before = addresses_in(rest, qtype);
                assert(before.push(last)[before.len() as int] == last);
                if before.contains(ip) {
                    let j = choose|j: int| 0 <= j < before.len() && before[j] == ip;
                    assert(before.push(last)[j] == ip);
                }
            }
        }
    }
}

/// A time to live is a number of whole seconds; a bound that is not set does not bound.
pub proof fn law_bounds_that_are_set(ttl: u32, bound: u32)
    ensures
        ttl_of(crate::time::secs(bound as int)) == bound,
        clamped(ttl, None, None) == ttl,
        clamped(ttl, Some(crate::time::secs(bound as int)), None) == if ttl < bound {
            bound
        } else {
            ttl
        },
        clamped(ttl, None, Some(crate::time::secs(bound as int))) == if ttl > bound {
            bound
        } else {
            ttl
        },
{
}

/// Where the lower bound lies above the upper one, the upper one counts.
pub proof fn law_upper_bound_wins(ttl: u32, min_ttl: Duration, max_ttl: Duration)
    requires
        ttl_of(min_ttl) > ttl_of(max_ttl),
    ensures
        clamped(ttl, Some(min_ttl), Some(max_ttl)) == ttl_of(max_ttl),
{
}

/// Bounding or capping times to live changes nothing else: there are as many records, with the same
/// addresses in the same order, and a capped time is the smaller of the two.
pub proof fn law_only_times_are_changed(
    records: Seq<(u32, Option<IpAddr>)>,
    min_ttl: Option<Duration>,
    max_ttl: Option<Duration>,
    remaining: u32,
    i: int,
)
    requires
        0 <= i < records.len(),
    ensures
        clamped_records(records, min_ttl, max_ttl).len() == records.len(),
        clamped_records(records, min_ttl, max_ttl)[i] == (
            clamped(records[i].0, min_ttl, max_ttl),
            records[i].1,
        ),
        capped_records(records, remaining).len() == records.len(),
        capped_records(records, remaining)[i].1 == records[i].1,
        capped_records(records, remaining)[i].0 <= remaining,
        capped_records(records, remaining)[i].0 <= records[i].0,
        capped_records(records, remaining)[i].0 == remaining || capped_records(records, remaining)[i].0
            == records[i].0,
        ttls_of(records).len() == records.len(),
        ttls_of(records)[i] == records[i].0,
{
}

/// Queries are let through unless they are blocked: one that looks for resolvers is answered here where
/// that is blocked, one for IPv6 addresses where these are rejected, and no other.
pub proof fn law_only_blocked_queries_are_answered_here(
    query: Seq<u8>,
    block_ddr: bool,
    reject_ipv6: bool,
    k: int,
)
    requires
        dns_message(query) is Some,
    ensures
        ({
            let questions = dns_message(query)->0.questions;
            let r = hijack(query, block_ddr, reject_ipv6);
            &&& !block_ddr && !reject_ipv6 ==> r is Exchange
            &&& block_ddr && 0 <= k < questions.len() && in_resolver_zone(questions[k].0) ==> r
                !is Exchange
            &&& reject_ipv6 && 0 <= k < questions.len() && questions[k].1 == 28 ==> r !is Exchange
            &&& (forall|i: int|
                0 <= i < questions.len() ==> !in_resolver_zone((#[trigger] questions[i]).0)
                    && questions[i].1 != 28) ==> r is Exchange
            &&& !block_ddr && (forall|i: int|
                0 <= i < questions.len() ==> (#[trigger] questions[i]).1 != 28) ==> r is Exchange
            &&& !reject_ipv6 && (forall|i: int|
                0 <= i < questions.len() ==> !in_resolver_zone((#[trigger] questions[i]).0)) ==> r
                is Exchange
            &&& r matches HijackView::Fail(e) ==> e == DnsError::Unwritable
        }),
{
    let m = dns_message(query)->0;
    if 0 <= k < m.questions.len() {
        if in_resolver_zone(m.questions[k].0) {
            assert(asks_resolver_zone(m));
        }
        if m.questions[k].1 == 28 {
            assert(asks_ipv6(m));
        }
    }
}

/// A query that looks for resolvers is told that there is no data; every other query is left alone.
pub proof fn law_only_resolver_queries_get_no_data(query: Seq<u8>, k: int)
    requires
        dns_message(query) is Some,
    ensures
        ({
            let questions = dns_message(query)->0.questions;
            &&& 0 <= k < questions.len() && in_resolver_zone(questions[k].0) ==> nodata_reply(query)
                != Ok::<Option<Seq<u8>>, DnsError>(None)
            &&& (forall|i: int|
                0 <= i < questions.len() ==> !in_resolver_zone((#[trigger] questions[i]).0))
                ==> nodata_reply(query) == Ok::<Option<Seq<u8>>, DnsError>(None)
        }),
{
    let m = dns_message(query)->0;
    if 0 <= k < m.questions.len() && in_resolver_zone(m.questions[k].0) {
        assert(asks_resolver_zone(m));
    }
}

/// The zone of resolver names holds its own name and every name below it, in any case and with or
/// without the dot of the root.
pub proof fn law_resolver_zone(below: Seq<char>, name: Seq<char>)
    requires
        same_ascii(name, "resolver.arpa"@),
    ensures
        in_resolver_zone(name),
        in_resolver_zone(name.push('.')),
        in_resolver_zone(below + seq!['.'] + name),
        in_resolver_zone((below + seq!['.'] + name).push('.')),
{
    reveal_strlit("resolver.arpa");
    reveal_strlit(".resolver.arpa");
    let long = below + seq!['.'] + name;
    assert(name.last() == name[12]);
    assert(crate::text::ascii_small(name[12]) == crate::text::ascii_small("resolver.arpa"@[12]));
    assert(long.last() == name[12]);
    assert(name.push('.').drop_last() =~= name);
    assert(long.push('.').drop_last() =~= long);
    reveal_with_fuel(without_dots, 2);
    assert(without_dots(name) == name);
    assert(without_dots(long) == long);
    let end = long.skip(long.len() - 14);
    assert(end =~= seq!['.'] + name);
    assert forall|i: int| 0 <= i < end.len() implies crate::text::ascii_small(#[trigger] end[i])
        == crate::text::ascii_small(".resolver.arpa"@[i]) by {
        if i > 0 {
            assert(crate::text::ascii_small(name[i - 1]) == crate::text::ascii_small(
                "resolver.arpa"@[i - 1],
            ));
        }
    }
}

/// A name outside the zone of resolver names is not taken for one in it: a name in the zone ends, but for
/// dots, in the zone's name, and that is the whole name or stands behind a dot.
pub proof fn law_names_outside_the_zone(name: Seq<char>)
    requires
        in_resolver_zone(name),
    ensures
        ({
            let n = without_dots(name);
            &&& n.len() >= 13
            &&& same_ascii(n.skip(n.len() - 13), "resolver.arpa"@)
            &&& n.len() > 13 ==> n[n.len() - 14] == '.'
        }),
{
    reveal_strlit("resolver.arpa");
    reveal_strlit(".resolver.arpa");
    let n = without_dots(name);
    if same_ascii(n, "resolver.arpa"@) {
        assert(n.skip(0) =~= n);
    } else {
        let end = n.skip(n.len() - 14);
        assert(crate::text::ascii_small(end[0]) == crate::text::ascii_small(".resolver.arpa"@[0]));
        assert(end[0] == n[n.len() - 14]);
        let tail = n.skip(n.len() - 13);
        assert forall|i: int| 0 <= i < tail.len() implies crate::text::ascii_small(
            #[trigger] tail[i],
        ) == crate::text::ascii_small("resolver.arpa"@[i]) by {
            assert(tail[i] == end[i + 1]);
        }
    }
}

/// A reply answers its query: it has the query's number, repeats what was asked, reports no
/// error, and holds the addresses in their order, each with its time to live.
pub proof fn law_reply_answers_its_query(
    query: DnsView,
    n: int,
    flags: u16,
    answers: Seq<(usize, u32, IpAddr)>,
    ttl: u32,
    ip: IpAddr,
)
    requires
        n == query.questions.len() <= 65535,
        answers.len() <= 65535,
    ensures
        ({
            let r = reply_view(query, every(n), flags, answers);
            &&& r.id == query.id && r.response && r.no_error
            &&& r.questions == query.questions
            &&& r.answers == answers.len() == r.records.len()
            &&& forall|i: int|
                0 <= i < answers.len() ==> #[trigger] r.records[i] == (
                    answers[i].1,
                    Some(answers[i].2),
                )
            &&& r.recursion_desired == (flags & 0x0100 != 0)
            &&& r.recursion_available == (flags & 0x0080 != 0)
        }),
        n > 0 ==> reply_view(query, first_only(), flags, answers).questions == seq![
            query.questions[0],
        ],
        address_records(answer_list(Some((ttl, ip)))) == seq![(ttl, Some(ip))],
        answer_list(None).len() == 0,
{
    let r = reply_view(query, every(n), flags, answers);
    assert(r.questions =~= query.questions);
    assert(reply_view(query, first_only(), flags, answers).questions =~= seq![query.questions[0]]);
    assert(address_records(answer_list(Some((ttl, ip)))) =~= seq![(ttl, Some(ip))]);
}

} // verus!
