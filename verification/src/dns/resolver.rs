//! Servers that are asked for names, and what is done with their answers.

use crate::config::{
    copy_opt, eq_ignoring_case, opt_str, opt_text, same_ignoring_case, DnsServerConfig,
};
use crate::dns::fakeip::{dns_complaint, dns_requires, opt_secs, secs_of, FakeIPDNS};
use crate::dns::message::{
    apply_ttl_to_response, cap_record_ttls, capped_records, clamped_records, dns_message,
    dns_retimed, parse_message, reads_back, shortest, ttls_of, with_ttls, DnsError, DnsMessage, DnsView,
    TYPE_A, TYPE_AAAA,
};
use crate::ip::{ip_of, parse_ip};
use crate::proxy::addr::{
    host_port_text, target_of_text, IpAddr, SocketAddr, TargetAddr, TargetTextError, TargetView,
};
use crate::random::random_between;
use crate::text::{copy_text, dec_text, push_decimal, push_text};
use crate::time::Duration;
use crate::utils::table::Table;
use crate::wire::{be2_bytes, copy_range, put_slice, put_u16};
use simple_dns::QTYPE;
use vstd::prelude::*;

verus! {

/// The kinds of DNS servers.
#[derive(Clone, Copy, Debug, PartialEq, Eq, Structural)]
pub enum DnsKind {
    FakeIp,
    Udp,
    Https,
}

/// The kind of that name, in any case.
pub open spec fn kind_named(name: Seq<char>) -> Option<DnsKind> {
    if same_ignoring_case(name, "fakeip"@) {
        Some(DnsKind::FakeIp)
    } else if same_ignoring_case(name, "udp"@) {
        Some(DnsKind::Udp)
    } else if same_ignoring_case(name, "https"@) {
        Some(DnsKind::Https)
    } else {
        None
    }
}

/// Finds the kind of that name.
pub fn dns_kind(name: &str) -> (kind: Option<DnsKind>)
    ensures
        kind == kind_named(name@),
{
    if eq_ignoring_case(name, "fakeip") {
        Some(DnsKind::FakeIp)
    } else if eq_ignoring_case(name, "udp") {
        Some(DnsKind::Udp)
    } else if eq_ignoring_case(name, "https") {
        Some(DnsKind::Https)
    } else {
        None
    }
}

/// Why a DNS server's configuration is refused.
#[derive(Debug)]
pub enum DnsConfigError {
    /// A setting is missing.
    Missing(String),
    /// The address is none.
    Address(TargetTextError),
}

/// A server that is asked by UDP.
#[derive(Debug)]
pub struct UdpDns {
    pub tag: String,
    pub address: TargetAddr,
    pub min_ttl: Option<Duration>,
    pub max_ttl: Option<Duration>,
    pub outbound: String,
    pub cache: Option<String>,
    pub reject_ipv6: bool,
}

/// The port of a server, or the usual one.
pub open spec fn port_or(port: Option<u16>, usual: u16) -> u16 {
    match port {
        Some(p) => p,
        None => usual,
    }
}

impl UdpDns {
    /// A server as configured, on port 53 unless another is given.
    pub fn new(tag: String, cfg: &DnsServerConfig) -> (r: Result<UdpDns, DnsConfigError>)
        ensures
            match r {
                Ok(d) => {
                    &&& cfg.address is Some
                    &&& target_of_text(
                        host_port_text(cfg.address->0@, port_or(cfg.port, 53)),
                    ) == Ok::<TargetView, TargetTextError>(d.address@)
                    &&& opt_text(cfg.outbound) == Some(d.outbound@)
                    &&& d.tag@ == tag@
                    &&& d.min_ttl == opt_secs(cfg.min_ttl)
                    &&& d.max_ttl == opt_secs(cfg.max_ttl)
                    &&& opt_text(d.cache) == opt_text(cfg.cache)
                    &&& d.reject_ipv6 == cfg.reject_ipv6
                },
                Err(DnsConfigError::Missing(e)) => {
                    ||| cfg.address is None && e@ == dns_requires(tag@, "address"@)
                    ||| cfg.address is Some && target_of_text(
                        host_port_text(cfg.address->0@, port_or(cfg.port, 53)),
                    ) is Ok && cfg.outbound is None && e@ == dns_requires(tag@, "outbound"@)
                },
                Err(DnsConfigError::Address(e)) => cfg.address is Some && target_of_text(
                    host_port_text(cfg.address->0@, port_or(cfg.port, 53)),
                ) == Err::<TargetView, TargetTextError>(e),
            },
    {
        let address = match &cfg.address {
            None => {
                return Err(DnsConfigError::Missing(dns_complaint(tag.as_str(), "address")));
            },
            Some(a) => a,
        };
        let port: u16 = match cfg.port {
            Some(p) => p,
            None => 53,
        };
        let address = match TargetAddr::from_str2(address.as_str(), port) {
            Ok(t) => t,
            Err(e) => {
                return Err(DnsConfigError::Address(e));
            },
        };
        let outbound = match &cfg.outbound {
            None => {
                return Err(DnsConfigError::Missing(dns_complaint(tag.as_str(), "outbound")));
            },
            Some(o) => copy_text(o.as_str()),
        };
        Ok(
            UdpDns {
                tag,
                address,
                min_ttl: secs_of(cfg.min_ttl),
                max_ttl: secs_of(cfg.max_ttl),
                outbound,
                cache: copy_opt(&cfg.cache),
                reject_ipv6: cfg.reject_ipv6,
            },
        )
    }
}

/// A server that is asked by HTTPS.
#[derive(Debug)]
pub struct HttpsDns {
    pub tag: String,
    pub url: String,
    pub dns_server_name: Option<String>,
    pub min_ttl: Option<Duration>,
    pub max_ttl: Option<Duration>,
    pub outbound: String,
    pub cache: Option<String>,
    pub reject_ipv6: bool,
}

/// Where queries are posted.
pub open spec fn dns_url(address: Seq<char>, port: u16) -> Seq<char> {
    "https://"@ + address + ":"@ + dec_text(port as nat) + "/dns-query"@
}

impl HttpsDns {
    /// A server as configured, on port 443 unless another is given.
    pub fn new(tag: String, cfg: &DnsServerConfig) -> (r: Result<HttpsDns, DnsConfigError>)
        ensures
            match r {
                Ok(d) => {
                    &&& cfg.address is Some
                    &&& d.url@ == dns_url(cfg.address->0@, port_or(cfg.port, 443))
                    &&& opt_text(cfg.outbound) == Some(d.outbound@)
                    &&& d.tag@ == tag@
                    &&& opt_text(d.dns_server_name) == opt_text(cfg.dns)
                    &&& d.min_ttl == opt_secs(cfg.min_ttl)
                    &&& d.max_ttl == opt_secs(cfg.max_ttl)
                    &&& opt_text(d.cache) == opt_text(cfg.cache)
                    &&& d.reject_ipv6 == cfg.reject_ipv6
                },
                Err(DnsConfigError::Missing(e)) => {
                    ||| cfg.address is None && e@ == dns_requires(tag@, "address"@)
                    ||| cfg.address is Some && cfg.outbound is None && e@ == dns_requires(
                        tag@,
                        "outbound"@,
                    )
                },
                Err(DnsConfigError::Address(_)) => false,
            },
    {
        let address = match &cfg.address {
            None => {
                return Err(DnsConfigError::Missing(dns_complaint(tag.as_str(), "address")));
            },
            Some(a) => a,
        };
        let port: u16 = match cfg.port {
            Some(p) => p,
            None => 443,
        };
        let mut url = copy_text("https://");
        push_text(&mut url, address.as_str());
        push_text(&mut url, ":");
        push_decimal(&mut url, port as u64);
        push_text(&mut url, "/dns-query");
        let outbound = match &cfg.outbound {
            None => {
                return Err(DnsConfigError::Missing(dns_complaint(tag.as_str(), "outbound")));
            },
            Some(o) => copy_text(o.as_str()),
        };
        Ok(
            HttpsDns {
                tag,
                url,
                dns_server_name: copy_opt(&cfg.dns),
                min_ttl: secs_of(cfg.min_ttl),
                max_ttl: secs_of(cfg.max_ttl),
                outbound,
                cache: copy_opt(&cfg.cache),
                reject_ipv6: cfg.reject_ipv6,
            },
        )
    }
}

/// A DNS server.
#[derive(Debug)]
pub enum DnsServer {
    FakeIp(FakeIPDNS),
    Udp(UdpDns),
    Https(HttpsDns),
}

/// The servers that were entered, and which of them a tag stands for. More than one tag may stand for a
/// server.
pub struct DnsRegistry {
    pub servers: Vec<DnsServer>,
    pub places: Table<usize>,
    pub block_ddr: bool,
}

/// The tag that stands for the default server.
pub open spec fn default_tag() -> Seq<char> {
    "default_server"@
}

/// Why the DNS servers cannot be set up.
#[derive(Debug)]
pub enum DnsInitError {
    /// There are none.
    NoServers,
    /// The server named as the default is not there.
    DefaultMissing(String),
}

/// The servers with more of them entered, one after the other.
pub open spec fn entered(
    servers: Map<Seq<char>, DnsServer>,
    list: Seq<(String, DnsServer)>,
) -> Map<Seq<char>, DnsServer>
    decreases list.len(),
{
    if list.len() == 0 {
        servers
    } else {
        entered(servers, list.drop_last()).insert(list.last().0@, list.last().1)
    }
}

impl View for DnsRegistry {
    type V = Map<Seq<char>, DnsServer>;

    open spec fn view(&self) -> Map<Seq<char>, DnsServer> {
        self.places@.map_values(|place: usize| self.servers@[place as int])
    }
}

impl DnsRegistry {
    /// The table is in order, and every tag stands for a server.
    pub open spec fn wf(self) -> bool {
        &&& self.places.wf()
        &&& forall|tag: Seq<char>| #[trigger]
            self.places@.contains_key(tag) ==> self.places@[tag] < self.servers@.len()
    }

    /// No servers.
    pub fn new() -> (r: DnsRegistry)
        ensures
            r.wf(),
            r@ == Map::<Seq<char>, DnsServer>::empty(),
            !r.block_ddr,
    {
        let r = DnsRegistry { servers: Vec::new(), places: Table::new(), block_ddr: false };
        assert(r@ =~= Map::<Seq<char>, DnsServer>::empty());
        r
    }

    /// The place of the server that a tag stands for.
    pub fn place_of(&self, tag: &str) -> (r: Option<usize>)
        requires
            self.wf(),
        ensures
            match r {
                Some(place) => self@.contains_key(tag@) && place == self.places@[tag@] && place
                    < self.servers@.len(),
                None => !self@.contains_key(tag@),
            },
    {
        match self.places.get(tag) {
            Some(place) => Some(*place),
            None => None,
        }
    }

    /// Enters a server.
    fn enter(&mut self, tag: &str, server: DnsServer)
        requires
            old(self).wf(),
        ensures
            final(self).wf(),
            final(self)@ == old(self)@.insert(tag@, server),
            final(self).block_ddr == old(self).block_ddr,
    {
        let place: usize = self.servers.len();
        self.servers.push(server);
        self.places.insert(tag, place);
        assert(self@ =~= old(self)@.insert(tag@, server));
    }

    /// Finds the server that a tag stands for.
    pub fn get_dns_by_tag(&self, tag: &str) -> (r: Result<&DnsServer, String>)
        requires
            self.wf(),
        ensures
            match r {
                Ok(s) => self@.contains_key(tag@) && self@[tag@] == *s,
                Err(e) => !self@.contains_key(tag@) && e@ == "can not find dns: "@ + tag@,
            },
    {
        match self.place_of(tag) {
            Some(place) => Ok(&self.servers[place]),
            None => {
                let mut e = copy_text("can not find dns: ");
                push_text(&mut e, tag);
                Err(e)
            },
        }
    }

    /// Finds the server that serves where none is named.
    pub fn get_default_dns(&self) -> (r: Result<&DnsServer, String>)
        requires
            self.wf(),
        ensures
            match r {
                Ok(s) => self@.contains_key(default_tag()) && self@[default_tag()] == *s,
                Err(e) => !self@.contains_key(default_tag()) && e@ == "can not find dns: "@
                    + default_tag(),
            },
    {
        self.get_dns_by_tag("default_server")
    }
}

/// Enters the servers and chooses the default one: the one that is named, or else any that has been
/// entered. From then on a tag of its own stands for it as well.
pub fn init_dns(
    registry: &mut DnsRegistry,
    servers: Vec<(String, DnsServer)>,
    default_server: Option<&str>,
    block_ddr: bool,
) -> (r: Result<(), DnsInitError>)
    requires
        old(registry).wf(),
    ensures
        final(registry).wf(),
        match r {
            Ok(_) => {
                &&& servers@.len() > 0
                &&& final(registry).block_ddr == block_ddr
                &&& exists|tag: Seq<char>|
                    {
                        &&& #[trigger] entered(old(registry)@, servers@).contains_key(tag)
                        &&& default_server matches Some(name) ==> tag == name@
                        &&& final(registry)@ == entered(old(registry)@, servers@).insert(
                            default_tag(),
                            entered(old(registry)@, servers@)[tag],
                        )
                        &&& final(registry).places@[default_tag()] == final(registry).places@[tag]
                    }
            },
            Err(DnsInitError::NoServers) => servers@.len() == 0 && *final(registry) == *old(
                registry,
            ),
            Err(DnsInitError::DefaultMissing(tag)) => {
                &&& servers@.len() > 0
                &&& default_server matches Some(name)
                &&& tag@ == name@
                &&& !entered(old(registry)@, servers@).contains_key(name@)
                &&& final(registry)@ == entered(old(registry)@, servers@)
                &&& final(registry).block_ddr == old(registry).block_ddr
            },
        },
{
    if servers.len() == 0 {
        return Err(DnsInitError::NoServers);
    }
    let ghost list = servers@;
    let mut todo = servers;
    let mut done: Vec<(String, DnsServer)> = Vec::new();
    // The servers are entered in order, so they are taken from the back of a reversed list.
    while todo.len() > 0
        invariant
            list == todo@ + done@.reverse(),
        decreases todo@.len(),
    {
        let ghost before = todo@;
        let ghost rest = done@;
        if let Some(pair) = todo.pop() {
            done.push(pair);
            assert(done@.reverse() =~= seq![pair] + rest.reverse());
            assert(before =~= todo@ + seq![pair]);
        }
        assert(list =~= todo@ + done@.reverse());
    }
    assert(list =~= done@.reverse());
    let ghost mut n: int = 0;
    assert(list.take(0) =~= Seq::<(String, DnsServer)>::empty());
    while done.len() > 0
        invariant
            0 <= n <= list.len(),
            done@.len() == list.len() - n,
            done@.reverse() == list.skip(n),
            registry.wf(),
            registry@ == entered(old(registry)@, list.take(n)),
            registry.block_ddr == old(registry).block_ddr,
        decreases done@.len(),
    {
        let ghost before = done@;
        if let Some((name, server)) = done.pop() {
            proof {
                assert(before.reverse()[0] == (name, server));
                assert(list.skip(n)[0] == list[n]);
                assert(list.take(n + 1).drop_last() =~= list.take(n));
                assert(list.take(n + 1).last() == (name, server));
                assert(done@.reverse() =~= before.reverse().skip(1));
                assert(list.skip(n).skip(1) =~= list.skip(n + 1));
            }
            registry.enter(name.as_str(), server);
        }
        proof {
            n = n + 1;
        }
    }
    assert(list.take(n) =~= list);
    proof {
        lemma_entered_has(old(registry)@, list);
        crate::utils::table::lemma_names(registry.places);
    }
    let ghost known = registry@;
    let tag = match default_server {
        Some(name) => copy_text(name),
        None => {
            let ghost some = list.last().0@;
            assert(registry.places@.contains_key(some));
            assert(registry.places.names().contains(some));
            let (name, _) = registry.places.row(0);
            copy_text(name)
        },
    };
    let place: usize = match registry.place_of(tag.as_str()) {
        None => {
            return Err(DnsInitError::DefaultMissing(tag));
        },
        Some(place) => place,
    };
    registry.places.insert("default_server", place);
    registry.block_ddr = block_ddr;
    assert(registry@ =~= known.insert(default_tag(), known[tag@]));
    assert(entered(old(registry)@, list).contains_key(tag@));
    Ok(())
}

proof fn lemma_entered_has(servers: Map<Seq<char>, DnsServer>, list: Seq<(String, DnsServer)>)
    requires
        list.len() > 0,
    ensures
        entered(servers, list).contains_key(list.last().0@),
{
}

/// Forgets all servers.
pub fn shutdown_dns(registry: &mut DnsRegistry)
    ensures
        final(registry).wf(),
        final(registry)@ == Map::<Seq<char>, DnsServer>::empty(),
        !final(registry).block_ddr,
{
    *registry = DnsRegistry::new();
}

/// The text that `simple_dns::QTYPE` prints itself as.
pub uninterp spec fn qtype_name(qtype: u16) -> Seq<char>;

/// Calls the `Debug` impl of `simple_dns::QTYPE`: the name of a query type, a function of its number;
/// empty for a number that names none.
#[verifier::external_body]
fn qtype_text(qtype: u16) -> (text: String)
    ensures
        text@ == qtype_name(qtype),
{
    QTYPE::try_from(qtype).map(|kind| format!("{:?}", kind)).unwrap_or_default()
}

/// What an answer is stored under: the way out, the name, and the type that was asked for.
pub open spec fn answer_key(outbound: Seq<char>, domain: Seq<char>, qtype: Seq<char>) -> Seq<char> {
    outbound + ":"@ + domain + ":"@ + qtype
}

/// Writes what an answer is stored under.
pub fn answer_key_text(outbound: &str, domain: &str, qtype: &str) -> (key: String)
    ensures
        key@ == answer_key(outbound@, domain@, qtype@),
{
    let mut key = copy_text(outbound);
    push_text(&mut key, ":");
    push_text(&mut key, domain);
    push_text(&mut key, ":");
    push_text(&mut key, qtype);
    key
}

/// What the answer to a query is stored under; nothing for a query that asks nothing.
pub fn cache_key_of(outbound: &str, query: &DnsMessage) -> (key: Option<String>)
    ensures
        opt_text(key) == if query@.questions.len() == 0 {
            None
        } else {
            Some(
                answer_key(
                    outbound@,
                    query@.questions[0].0,
                    qtype_name(query@.questions[0].1),
                ),
            )
        },
{
    if query.questions.len() == 0 {
        return None;
    }
    let question = &query.questions[0];
    assert(query@.questions[0] == (question.name@, question.qtype));
    let kind = qtype_text(question.qtype);
    Some(answer_key_text(outbound, question.name.as_str(), kind.as_str()))
}

/// A message with another id.
pub open spec fn with_id(bytes: Seq<u8>, id: u16) -> Seq<u8> {
    be2_bytes(id as int) + bytes.skip(2)
}

/// How long a stored answer lives on, as a time to live.
pub open spec fn lives_on(expires: u64, now: u64) -> u32 {
    if expires <= now {
        0
    } else if expires - now > u32::MAX {
        u32::MAX
    } else {
        (expires - now) as u32
    }
}

/// A stored answer as the answer to another query: it has that query's id, and no record outlives the
/// store.
pub open spec fn from_store(stored: Seq<u8>, id: u16, expires: u64, now: u64) -> Result<
    Seq<u8>,
    DnsError,
> {
    let response = with_id(stored, id);
    match dns_message(response) {
        None => Err(DnsError::Malformed),
        Some(m) => match dns_retimed(
            response,
            ttls_of(capped_records(m.records, lives_on(expires, now))),
        ) {
            Some(bytes) => Ok(bytes),
            None => Err(DnsError::Unwritable),
        },
    }
}

/// Turns a stored answer into the answer to another query. Times are in seconds.
pub fn cached_response(stored: &[u8], id: u16, expires: u64, now: u64) -> (r: Result<
    Vec<u8>,
    DnsError,
>)
    requires
        stored@.len() >= 2,
    ensures
        match r {
            Ok(bytes) => from_store(stored@, id, expires, now) == Ok::<Seq<u8>, DnsError>(bytes@),
            Err(e) => from_store(stored@, id, expires, now) == Err::<Seq<u8>, DnsError>(e),
        },
        r matches Ok(bytes) ==> (dns_message(with_id(stored@, id)) matches Some(m) && reads_back(
            m,
            capped_records(m.records, lives_on(expires, now)),
            bytes@,
        )),
{
    let mut response: Vec<u8> = Vec::new();
    put_u16(&mut response, id);
    let rest = copy_range(stored, 2, stored.len());
    put_slice(&mut response, rest.as_slice());
    assert(response@ =~= with_id(stored@, id));
    let mut m = match parse_message(response.as_slice()) {
        None => {
            return Err(DnsError::Malformed);
        },
        Some(m) => m,
    };
    let remaining: u32 = if expires <= now {
        0
    } else if expires - now > u32::MAX as u64 {
        u32::MAX
    } else {
        (expires - now) as u32
    };
    cap_record_ttls(&mut m, remaining);
    match with_ttls(response.as_slice(), &m) {
        Some(bytes) => Ok(bytes),
        None => Err(DnsError::Unwritable),
    }
}

/// What is made of an answer that a server gave.
#[derive(Debug)]
pub struct FreshAnswer {
    /// The answer as handed on.
    pub bytes: Vec<u8>,
    /// For how many seconds it is stored, if at all.
    pub store_for: Option<u32>,
    /// The addresses whose name is now known.
    pub addresses: Vec<IpAddr>,
}

/// For how long an answer is stored: as long as its shortest record lives, and not at all where that
/// is over at once.
pub open spec fn store_time(records: Seq<(u32, Option<IpAddr>)>) -> Option<u32> {
    match shortest(records) {
        Some(ttl) => if ttl > 0 {
            Some(ttl)
        } else {
            None
        },
        None => None,
    }
}

/// The addresses among the records.
pub open spec fn all_addresses(records: Seq<(u32, Option<IpAddr>)>) -> Seq<IpAddr>
    decreases records.len(),
{
    if records.len() == 0 {
        Seq::empty()
    } else {
        match records.last().1 {
            Some(ip) => all_addresses(records.drop_last()).push(ip),
            None => all_addresses(records.drop_last()),
        }
    }
}

/// The addresses that an answer gives a name to; none where it reports an error.
pub open spec fn named_addresses(m: DnsView) -> Seq<IpAddr> {
    if m.no_error {
        all_addresses(m.records.take(m.answers as int))
    } else {
        Seq::empty()
    }
}

/// Finds the addresses that an answer gives a name to.
pub fn persist_realip_domains(m: &DnsMessage) -> (ips: Vec<IpAddr>)
    requires
        m.answers <= m.records@.len(),
    ensures
        ips@ == named_addresses(m@),
{
    let mut ips: Vec<IpAddr> = Vec::new();
    if !m.no_error {
        return ips;
    }
    let ghost all = m@.records.take(m.answers as int);
    let mut i: usize = 0;
    assert(all.take(0) =~= Seq::<(u32, Option<IpAddr>)>::empty());
    while i < m.answers
        invariant
            i <= m.answers <= m.records@.len(),
            all == m@.records.take(m.answers as int),
            ips@ == all_addresses(all.take(i as int)),
        decreases m.answers - i,
    {
        proof {
            assert(all.take(i + 1).drop_last() =~= all.take(i as int));
            assert(all.take(i + 1).last() == m.records@[i as int]);
        }
        if let Some(ip) = m.records[i].1 {
            ips.push(ip);
        }
        i += 1;
    }
    assert(all.take(i as int) =~= all);
    ips
}

/// Makes something of an answer that a server gave: its times to live are brought within bounds.
pub fn fresh_response(bytes: &[u8], min_ttl: Option<Duration>, max_ttl: Option<Duration>) -> (r: Result<
    FreshAnswer,
    DnsError,
>)
    ensures
        match dns_message(bytes@) {
            None => r matches Err(e) && e == DnsError::Malformed,
            Some(m) => {
                let records = clamped_records(m.records, min_ttl, max_ttl);
                match dns_retimed(bytes@, ttls_of(records)) {
                    None => r matches Err(e) && e == DnsError::Unwritable,
                    Some(out) => r matches Ok(a) && a.bytes@ == out && a.store_for == store_time(
                        records,
                    ) && a.addresses@ == named_addresses(DnsView { records, ..m }) && reads_back(
                        m,
                        records,
                        out,
                    ),
                }
            },
        },
{
    let mut m = match parse_message(bytes) {
        None => {
            return Err(DnsError::Malformed);
        },
        Some(m) => m,
    };
    let least: Option<u32> = apply_ttl_to_response(&mut m, min_ttl, max_ttl);
    let addresses = persist_realip_domains(&m);
    let store_for: Option<u32> = match least {
        Some(ttl) if ttl > 0 => Some(ttl),
        _ => None,
    };
    match with_ttls(bytes, &m) {
        Some(out) => Ok(FreshAnswer { bytes: out, store_for, addresses }),
        None => Err(DnsError::Unwritable),
    }
}

/// How a name is looked up.
#[derive(Clone, Copy, Debug, PartialEq, Eq, Structural)]
pub enum Lookup {
    /// It is an address already.
    Literal(IpAddr),
    /// Ask for IPv4 addresses.
    Ipv4,
    /// Ask for addresses of both families at once.
    Both,
}

/// Decides how a name is looked up.
pub fn lookup_plan(domain: &str, use_ipv6: bool) -> (plan: Lookup)
    ensures
        plan == match ip_of(domain@) {
            Some(ip) => Lookup::Literal(ip),
            None => if use_ipv6 {
                Lookup::Both
            } else {
                Lookup::Ipv4
            },
        },
{
    match parse_ip(domain) {
        Some(ip) => Lookup::Literal(ip),
        None => {
            if use_ipv6 {
                Lookup::Both
            } else {
                Lookup::Ipv4
            }
        },
    }
}

/// Puts the results of both lookups together: IPv6 addresses first. One that failed does no harm as
/// long as the other did not.
pub fn combine_lookups(v4: Option<Vec<IpAddr>>, v6: Option<Vec<IpAddr>>) -> (r: Option<Vec<IpAddr>>)
    ensures
        r is None <==> v4 is None && v6 is None,
        v4 is Some && v6 is Some ==> (r matches Some(all) && all@ == v6->0@ + v4->0@),
        v4 is Some && v6 is None ==> (r matches Some(all) && all@ == v4->0@),
        v4 is None && v6 is Some ==> (r matches Some(all) && all@ == v6->0@),
{
    match (v4, v6) {
        (Some(v4), Some(v6)) => {
            let mut all = v6;
            let mut rest = v4;
            all.append(&mut rest);
            Some(all)
        },
        (Some(v4), None) => Some(v4),
        (None, Some(v6)) => Some(v6),
        (None, None) => None,
    }
}

/// Whether addresses of a type can be looked up: others have none.
pub fn can_look_up(qtype: u16) -> (r: bool)
    ensures
        r == (qtype == TYPE_A || qtype == TYPE_AAAA),
{
    qtype == TYPE_A || qtype == TYPE_AAAA
}

/// One of the addresses found, chosen at random.
pub fn choose_address(ips: &Vec<IpAddr>) -> (ip: Option<IpAddr>)
    ensures
        ip is None <==> ips@.len() == 0,
        ip matches Some(a) ==> ips@.contains(a),
{
    if ips.len() == 0 {
        return None;
    }
    let last: usize = ips.len() - 1;
    let high: u16 = if last > 65535 {
        65535
    } else {
        last as u16
    };
    let i: u16 = random_between(0, high);
    let ip: IpAddr = ips[i as usize];
    assert(ips@[i as int] == ip);
    Some(ip)
}

/// What has to be done to have the address of a target.
#[derive(Debug)]
pub enum ResolvePlan {
    /// It is known.
    Known(SocketAddr),
    /// Ask a server: the one named, or else the default one.
    Ask { domain: String, port: u16, server: Option<String> },
}

/// Decides what has to be done to have the address of a target.
pub fn resolve_target(address: &TargetAddr, dns_server_tag: Option<&str>) -> (plan: ResolvePlan)
    ensures
        match plan {
            ResolvePlan::Known(addr) => address@ == TargetView::Ip(addr),
            ResolvePlan::Ask { domain, port, server } => address@ == TargetView::Domain(
                domain@,
                port,
            ) && opt_text(server) == opt_str(dns_server_tag),
        },
{
    match address {
        TargetAddr::Ip(addr) => ResolvePlan::Known(*addr),
        TargetAddr::Domain(domain, port) => ResolvePlan::Ask {
            domain: copy_text(domain.as_str()),
            port: *port,
            server: match dns_server_tag {
                Some(tag) => Some(copy_text(tag)),
                None => None,
            },
        },
    }
}

/// Decides what has to be done to have the address of a host, which may be an address itself.
pub fn resolve_str(address: &str, port: u16, dns_server_tag: Option<&str>) -> (plan: ResolvePlan)
    ensures
        match plan {
            ResolvePlan::Known(addr) => ip_of(address@) == Some(addr.ip) && addr.port == port
                && addr.scope_id == 0,
            ResolvePlan::Ask { domain, port: p, server } => ip_of(address@) is None && domain@
                == address@ && p == port && opt_text(server) == opt_str(dns_server_tag),
        },
{
    match parse_ip(address) {
        Some(ip) => ResolvePlan::Known(SocketAddr { ip, port, scope_id: 0 }),
        None => ResolvePlan::Ask {
            domain: copy_text(address),
            port,
            server: match dns_server_tag {
                Some(tag) => Some(copy_text(tag)),
                None => None,
            },
        },
    }
}

/// No record of a stored answer outlives the store, and none lives longer than it did.
pub proof fn law_stored_records_expire(
    records: Seq<(u32, Option<IpAddr>)>,
    expires: u64,
    now: u64,
    i: int,
)
    requires
        0 <= i < records.len(),
    ensures
        ({
            let r = capped_records(records, lives_on(expires, now))[i];
            &&& r.0 <= records[i].0
            &&& now < expires ==> now + r.0 <= expires
            &&& r.1 == records[i].1
        }),
{
}

/// Answers are stored no longer than any of their records lives.
pub proof fn law_store_time_is_bounded(records: Seq<(u32, Option<IpAddr>)>, i: int)
    requires
        0 <= i < records.len(),
        store_time(records) is Some,
    ensures
        0 < store_time(records)->0 <= records[i].0,
{
    crate::dns::message::law_shortest_is_least(records, i);
}

/// The kinds of servers by their names, in small or capital letters; any other name is none.
pub proof fn law_kinds_by_name(name: Seq<char>)
    ensures
        kind_named("fakeip"@) == Some(DnsKind::FakeIp),
        kind_named("udp"@) == Some(DnsKind::Udp),
        kind_named("https"@) == Some(DnsKind::Https),
        crate::text::same_ascii(name, "fakeip"@) && name.len() == 6 ==> kind_named(name) == Some(
            DnsKind::FakeIp,
        ),
        crate::text::same_ascii(name, "udp"@) ==> kind_named(name) == Some(DnsKind::Udp),
        crate::text::same_ascii(name, "https"@) ==> kind_named(name) == Some(DnsKind::Https),
        name.len() != 3 && name.len() != 5 && name.len() != 6 ==> kind_named(name) is None,
{
    reveal_strlit("fakeip");
    reveal_strlit("udp");
    reveal_strlit("https");
    let lower = |c: char| crate::config::ascii_lower(c);
    assert("fakeip"@.map_values(lower).len() == 6);
    assert("udp"@.map_values(lower).len() == 3);
    assert("https"@.map_values(lower).len() == 5);
    assert(name.map_values(lower).len() == name.len());
    if crate::text::same_ascii(name, "fakeip"@) {
        lemma_same_letters(name, "fakeip"@);
    }
    if crate::text::same_ascii(name, "udp"@) {
        lemma_same_letters(name, "udp"@);
    }
    if crate::text::same_ascii(name, "https"@) {
        lemma_same_letters(name, "https"@);
    }
}

proof fn lemma_same_letters(a: Seq<char>, b: Seq<char>)
    requires
        crate::text::same_ascii(a, b),
        forall|i: int| 0 <= i < b.len() ==> 'a' <= #[trigger] b[i] <= 'z',
    ensures
        same_ignoring_case(a, b),
{
    let la = a.map_values(|c: char| crate::config::ascii_lower(c));
    let lb = b.map_values(|c: char| crate::config::ascii_lower(c));
    assert forall|i: int| 0 <= i < la.len() implies la[i] == lb[i] by {
        assert(crate::text::ascii_small(a[i]) == crate::text::ascii_small(b[i]));
    }
    assert(la =~= lb);
}

/// A server under a tag is the one that was entered last under it, and entering one leaves the others.
pub proof fn law_last_server_of_a_tag_counts(
    servers: Map<Seq<char>, DnsServer>,
    list: Seq<(String, DnsServer)>,
    tag: Seq<char>,
    i: int,
)
    requires
        -1 <= i < list.len(),
        i >= 0 ==> list[i].0@ == tag,
        forall|k: int| i < k < list.len() ==> (#[trigger] list[k]).0@ != tag,
    ensures
        i >= 0 ==> entered(servers, list).contains_key(tag) && entered(servers, list)[tag] == list[i].1,
        i < 0 ==> entered(servers, list).contains_key(tag) == servers.contains_key(tag),
        i < 0 && servers.contains_key(tag) ==> entered(servers, list)[tag] == servers[tag],
    decreases list.len(),
{
    if list.len() > 0 {
        let rest = list.drop_last();
        assert(list.last() == list[list.len() - 1]);
        if i < rest.len() {
            assert(list[list.len() - 1].0@ != tag);
            assert forall|k: int| i < k < rest.len() implies (#[trigger] rest[k]).0@ != tag by {
                assert(rest[k] == list[k]);
            }
            law_last_server_of_a_tag_counts(servers, rest, tag, i);
        }
    }
}

/// A stored answer is given out under the id of the query that it answers, and is otherwise as it was
/// stored.
pub proof fn law_stored_answer_gets_the_id(stored: Seq<u8>, id: u16)
    requires
        stored.len() >= 2,
    ensures
        with_id(stored, id).len() == stored.len(),
        with_id(stored, id).skip(2) == stored.skip(2),
        with_id(stored, id)[0] * 256 + with_id(stored, id)[1] == id,
        with_id(with_id(stored, id), (stored[0] * 256 + stored[1]) as u16) == stored,
{
    assert(with_id(stored, id).skip(2) =~= stored.skip(2));
    assert(with_id(with_id(stored, id), (stored[0] * 256 + stored[1]) as u16) =~= stored);
}

/// What is left of an answer's life: the seconds until it expires, as far as four bytes hold them, and
/// none once it has expired.
pub proof fn law_remaining_life(expires: u64, now: u64)
    ensures
        expires <= now ==> lives_on(expires, now) == 0,
        now < expires && expires - now <= 0xffff_ffff ==> lives_on(expires, now) == expires - now,
        now < expires && expires - now > 0xffff_ffff ==> lives_on(expires, now) == 0xffff_ffff,
{
}

/// An answer is stored for as long as its shortest-lived record, and not at all where a record must not
/// be kept or there is none.
pub proof fn law_what_is_stored(records: Seq<(u32, Option<IpAddr>)>, k: int)
    requires
        0 <= k < records.len(),
        forall|i: int| 0 <= i < records.len() ==> records[k].0 <= (#[trigger] records[i]).0,
    ensures
        records[k].0 > 0 ==> store_time(records) == Some(records[k].0),
        records[k].0 == 0 ==> store_time(records) is None,
        store_time(Seq::empty()) is None,
{
    crate::dns::message::law_shortest_is_least(records, k);
    let j = choose|j: int| 0 <= j < records.len() && shortest(records) == Some((#[trigger] records[j]).0);
    assert(records[k].0 <= records[j].0);
}

/// The addresses of an answer are those of all its address records, in their order; a response that
/// reports an error has none.
pub proof fn law_named_addresses(m: DnsView)
    requires
        m.answers <= m.records.len(),
    ensures
        m.no_error ==> named_addresses(m) == m.records.take(m.answers as int).filter(
            |r: (u32, Option<IpAddr>)| r.1 is Some,
        ).map_values(|r: (u32, Option<IpAddr>)| r.1->0),
        !m.no_error ==> named_addresses(m).len() == 0,
{
    lemma_all_addresses(m.records.take(m.answers as int));
}

proof fn lemma_all_addresses(records: Seq<(u32, Option<IpAddr>)>)
    ensures
        all_addresses(records) == records.filter(|r: (u32, Option<IpAddr>)| r.1 is Some).map_values(
            |r: (u32, Option<IpAddr>)| r.1->0,
        ),
    decreases records.len(),
{
    reveal(Seq::filter);
    let wanted = |r: (u32, Option<IpAddr>)| r.1 is Some;
    let ip = |r: (u32, Option<IpAddr>)| r.1->0;
    if records.len() > 0 {
        lemma_all_addresses(records.drop_last());
        let before = records.drop_last().filter(wanted);
        assert(before.push(records.last()).map_values(ip) =~= before.map_values(ip).push(
            ip(records.last()),
        ));
    }
    assert(all_addresses(records) =~= records.filter(wanted).map_values(ip));
}

/// The port is the configured one, or else the usual one; the address of a server over HTTPS names host,
/// port and path.
pub proof fn law_server_addresses(port: u16, usual: u16, host: Seq<char>)
    ensures
        port_or(Some(port), usual) == port,
        port_or(None, usual) == usual,
        dns_url(host, port) == "https://"@ + host + seq![':'] + dec_text(port as nat) + "/dns-query"@,
        answer_key(host, host, host) == host + seq![':'] + host + seq![':'] + host,
{
    reveal_strlit(":");
    assert(":"@ =~= seq![':']);
}

} // verus!
