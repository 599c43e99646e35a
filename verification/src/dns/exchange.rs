//! Asking for names with a store of answers in between.

use crate::config::opt_text;
use crate::dns::message::{
    addresses_of, answered, build_dns_query_packet, capped_records, clamped_records, dns_message,
    dns_query, dns_retimed, opt_bytes, parse_message, reads_back, ttls_of, with_ttls, DnsError,
    DnsMessage, DnsView, CLASS_IN, RECURSION_DESIRED, TYPE_A, TYPE_AAAA,
};
use crate::dns::resolver::{
    answer_key, cache_key_of, cached_response, can_look_up, fresh_response, from_store,
    lives_on, named_addresses, qtype_name, store_time, with_id,
};
use crate::proxy::addr::IpAddr;
use crate::text::copy_text;
use crate::time::Duration;
use vstd::prelude::*;

verus! {

/// A query on its way. The key says what its answer is stored under, where there is a store.
#[derive(Debug)]
pub struct Exchange {
    pub id: u16,
    pub asks: bool,
    pub key: Option<String>,
}

/// What to do first.
#[derive(Debug)]
pub enum ExchangeStep {
    /// Look in the store for this key.
    Look(String),
    /// Ask the server.
    Ask,
}

/// What the answer to a query is stored under.
pub open spec fn stored_under(outbound: Seq<char>, query: DnsView, has_store: bool) -> Option<
    Seq<char>,
> {
    if has_store && query.questions.len() > 0 {
        Some(answer_key(outbound, query.questions[0].0, qtype_name(query.questions[0].1)))
    } else {
        None
    }
}

/// Begins with a query: what it asks for may be in the store. A query that asks nothing goes straight
/// to the server.
pub fn exchange_with_cache(outbound: &str, query: &DnsMessage, has_store: bool) -> (r: (
    Exchange,
    ExchangeStep,
))
    ensures
        r.0.id == query.id,
        r.0.asks == (query@.questions.len() > 0),
        opt_text(r.0.key) == stored_under(outbound@, query@, has_store),
        match r.1 {
            ExchangeStep::Look(key) => stored_under(outbound@, query@, has_store) == Some(key@),
            ExchangeStep::Ask => stored_under(outbound@, query@, has_store) is None,
        },
{
    let asks = query.questions.len() > 0;
    if has_store {
        if let Some(key) = cache_key_of(outbound, query) {
            let step = ExchangeStep::Look(copy_text(key.as_str()));
            return (Exchange { id: query.id, asks, key: Some(key) }, step);
        }
    }
    (Exchange { id: query.id, asks, key: None }, ExchangeStep::Ask)
}

/// What comes of an answer that a server gave.
#[derive(Debug)]
pub struct Settled {
    /// The answer as handed on.
    pub bytes: Vec<u8>,
    /// What it is stored under, and for how many seconds.
    pub store: Option<(String, u32)>,
    /// The addresses whose name is now known.
    pub addresses: Vec<IpAddr>,
}

impl Exchange {
    /// The store was looked at: an answer in it, with the time until which it is good, is the answer to
    /// the query. Without one the server is asked.
    pub fn looked(&self, stored: Option<(&[u8], u64)>, now: u64) -> (r: Option<
        Result<Vec<u8>, DnsError>,
    >)
        requires
            stored matches Some((bytes, _)) ==> bytes@.len() >= 2,
        ensures
            match (stored, r) {
                (None, _) => r is None,
                (Some((bytes, expires)), Some(Ok(out))) => from_store(
                    bytes@,
                    self.id,
                    expires,
                    now,
                ) == Ok::<Seq<u8>, DnsError>(out@),
                (Some((bytes, expires)), Some(Err(e))) => from_store(bytes@, self.id, expires, now)
                    == Err::<Seq<u8>, DnsError>(e),
                (Some(_), None) => false,
            },
            (stored, r) matches (Some((bytes, expires)), Some(Ok(out))) ==> (dns_message(
                with_id(bytes@, self.id),
            ) matches Some(m) && reads_back(
                m,
                capped_records(m.records, lives_on(expires, now)),
                out@,
            )),
    {
        match stored {
            None => None,
            Some((bytes, expires)) => Some(cached_response(bytes, self.id, expires, now)),
        }
    }

    /// The server answered. The answer to a question is brought within the bounds on times to live and
    /// stored as long as it lives; the answer to none is read and written anew, and not stored.
    pub fn settle(
        &self,
        bytes: Vec<u8>,
        min_ttl: Option<Duration>,
        max_ttl: Option<Duration>,
    ) -> (r: Result<Settled, DnsError>)
        ensures
            !self.asks ==> match dns_message(bytes@) {
                None => r matches Err(e) && e == DnsError::Malformed,
                Some(m) => match dns_retimed(bytes@, ttls_of(m.records)) {
                    None => r matches Err(e) && e == DnsError::Unwritable,
                    Some(out) => {
                        &&& r matches Ok(s)
                        &&& s.bytes@ == out
                        &&& reads_back(m, m.records, out)
                        &&& s.store is None
                        &&& s.addresses@.len() == 0
                    },
                },
            },
            self.asks ==> match dns_message(bytes@) {
                None => r matches Err(e) && e == DnsError::Malformed,
                Some(m) => {
                    let records = clamped_records(m.records, min_ttl, max_ttl);
                    match dns_retimed(bytes@, ttls_of(records)) {
                        None => r matches Err(e) && e == DnsError::Unwritable,
                        Some(out) => {
                            &&& r matches Ok(s)
                            &&& s.bytes@ == out
                            &&& reads_back(m, records, out)
                            &&& s.addresses@ == named_addresses(DnsView { records, ..m })
                            &&& match (self.key, store_time(records)) {
                                (Some(key), Some(ttl)) => s.store matches Some((k, t)) && k@ == key@
                                    && t == ttl,
                                _ => s.store is None,
                            }
                        },
                    }
                },
            },
    {
        if !self.asks {
            let m = match parse_message(bytes.as_slice()) {
                None => {
                    return Err(DnsError::Malformed);
                },
                Some(m) => m,
            };
            return match with_ttls(bytes.as_slice(), &m) {
                Some(out) => Ok(Settled { bytes: out, store: None, addresses: Vec::new() }),
                None => Err(DnsError::Unwritable),
            };
        }
        match fresh_response(bytes.as_slice(), min_ttl, max_ttl) {
            Err(e) => Err(e),
            Ok(answer) => {
                let store: Option<(String, u32)> = match (&self.key, answer.store_for) {
                    (Some(key), Some(ttl)) => Some((copy_text(key.as_str()), ttl)),
                    _ => None,
                };
                Ok(Settled { bytes: answer.bytes, store, addresses: answer.addresses })
            },
        }
    }
}

/// How the addresses of a name are asked for.
#[derive(Debug)]
pub enum AddressQuery {
    /// There are none of that type.
    Nothing,
    /// Send this query.
    Send(Vec<u8>),
    /// The name cannot be asked for.
    Unwritable,
}

/// Begins to look the addresses of a name up; only IPv4 and IPv6 addresses can be.
pub fn lookup_with_type(domain: &str, qtype: u16) -> (r: AddressQuery)
    ensures
        match r {
            AddressQuery::Nothing => qtype != TYPE_A && qtype != TYPE_AAAA,
            AddressQuery::Send(bytes) => {
                &&& qtype == TYPE_A || qtype == TYPE_AAAA
                &&& exists|id: u16|
                    Some(bytes@) == #[trigger] dns_query(
                        id,
                        RECURSION_DESIRED,
                        domain@,
                        qtype,
                        CLASS_IN,
                    )
                &&& dns_message(bytes@) matches Some(m) && m.recursion_desired
                    && m.questions.len() == 1 && m.questions[0].1 == qtype && m.records.len() == 0
            },
            AddressQuery::Unwritable => {
                &&& qtype == TYPE_A || qtype == TYPE_AAAA
                &&& exists|id: u16| #[trigger]
                    dns_query(id, RECURSION_DESIRED, domain@, qtype, CLASS_IN) is None
            },
        },
{
    if !can_look_up(qtype) {
        return AddressQuery::Nothing;
    }
    match build_dns_query_packet(domain, qtype) {
        Some(bytes) => {
            assert(opt_bytes(Some(bytes)) == Some(bytes@));
            AddressQuery::Send(bytes)
        },
        None => AddressQuery::Unwritable,
    }
}

/// The addresses that the answer to a lookup gives; none where it reports an error.
pub fn looked_up(response: &[u8], qtype: u16) -> (r: Result<Vec<IpAddr>, DnsError>)
    ensures
        match dns_message(response@) {
            None => r matches Err(e) && e == DnsError::Malformed,
            Some(m) => r matches Ok(ips) && ips@ == answered(m, qtype),
        },
{
    match parse_message(response) {
        None => Err(DnsError::Malformed),
        Some(m) => Ok(addresses_of(&m, qtype)),
    }
}

/// Whether the first IPv4 address of a list is the one given; with none, that there is none.
pub open spec fn is_first_v4(ips: Seq<IpAddr>, found: Option<u32>) -> bool {
    match found {
        Some(ip) => exists|i: int|
            0 <= i < ips.len() && #[trigger] ips[i] == IpAddr::V4(ip) && forall|j: int|
                0 <= j < i ==> (#[trigger] ips[j]) is V6,
        None => forall|j: int| 0 <= j < ips.len() ==> (#[trigger] ips[j]) is V6,
    }
}

/// Whether the first IPv6 address of a list is the one given; with none, that there is none.
pub open spec fn is_first_v6(ips: Seq<IpAddr>, found: Option<u128>) -> bool {
    match found {
        Some(ip) => exists|i: int|
            0 <= i < ips.len() && #[trigger] ips[i] == IpAddr::V6(ip) && forall|j: int|
                0 <= j < i ==> (#[trigger] ips[j]) is V4,
        None => forall|j: int| 0 <= j < ips.len() ==> (#[trigger] ips[j]) is V4,
    }
}

/// Reads the answer to a question for an IPv4 address: the first one in it.
pub fn lookup_ipv4(response: &[u8]) -> (r: Result<Option<u32>, DnsError>)
    ensures
        match dns_message(response@) {
            None => r matches Err(e) && e == DnsError::Malformed,
            Some(m) => r matches Ok(ip) && is_first_v4(answered(m, TYPE_A), ip),
        },
{
    let ips = match looked_up(response, TYPE_A) {
        Err(e) => {
            return Err(e);
        },
        Ok(ips) => ips,
    };
    let mut i: usize = 0;
    while i < ips.len()
        invariant
            i <= ips@.len(),
            forall|j: int| 0 <= j < i ==> (#[trigger] ips@[j]) is V6,
            dns_message(response@) matches Some(m) && ips@ == answered(m, TYPE_A),
        decreases ips@.len() - i,
    {
        if let IpAddr::V4(ip) = ips[i] {
            assert(ips@[i as int] == IpAddr::V4(ip));
            return Ok(Some(ip));
        }
        i += 1;
    }
    Ok(None)
}

/// Reads the answer to a question for an IPv6 address: the first one in it.
pub fn lookup_ipv6(response: &[u8]) -> (r: Result<Option<u128>, DnsError>)
    ensures
        match dns_message(response@) {
            None => r matches Err(e) && e == DnsError::Malformed,
            Some(m) => r matches Ok(ip) && is_first_v6(answered(m, TYPE_AAAA), ip),
        },
{
    let ips = match looked_up(response, TYPE_AAAA) {
        Err(e) => {
            return Err(e);
        },
        Ok(ips) => ips,
    };
    let mut i: usize = 0;
    while i < ips.len()
        invariant
            i <= ips@.len(),
            forall|j: int| 0 <= j < i ==> (#[trigger] ips@[j]) is V4,
            dns_message(response@) matches Some(m) && ips@ == answered(m, TYPE_AAAA),
        decreases ips@.len() - i,
    {
        if let IpAddr::V6(ip) = ips[i] {
            assert(ips@[i as int] == IpAddr::V6(ip));
            return Ok(Some(ip));
        }
        i += 1;
    }
    Ok(None)
}

/// Answers are stored under a key of their own: different ways out, names or types never share one,
/// as long as no name and no way out holds a colon.
pub proof fn law_keys_are_distinct(
    outbound: Seq<char>,
    domain: Seq<char>,
    qtype: Seq<char>,
    other_outbound: Seq<char>,
    other_domain: Seq<char>,
    other_qtype: Seq<char>,
)
    requires
        !outbound.contains(':'),
        !other_outbound.contains(':'),
        !domain.contains(':'),
        !other_domain.contains(':'),
        answer_key(outbound, domain, qtype) == answer_key(other_outbound, other_domain, other_qtype),
    ensures
        outbound == other_outbound,
        domain == other_domain,
        qtype == other_qtype,
{
    reveal_strlit(":");
    let key = answer_key(outbound, domain, qtype);
    let rest = domain + ":"@ + qtype;
    let other_rest = other_domain + ":"@ + other_qtype;
    assert(key =~= outbound + ":"@ + rest);
    assert(answer_key(other_outbound, other_domain, other_qtype) =~= other_outbound + ":"@ + other_rest);
    lemma_split_at_colon(outbound, rest, other_outbound, other_rest);
    lemma_split_at_colon(domain, qtype, other_domain, other_qtype);
}

proof fn lemma_split_at_colon(a: Seq<char>, x: Seq<char>, b: Seq<char>, y: Seq<char>)
    requires
        !a.contains(':'),
        !b.contains(':'),
        a + ":"@ + x == b + ":"@ + y,
    ensures
        a == b,
        x == y,
{
    reveal_strlit(":");
    let s = a + ":"@ + x;
    let t = b + ":"@ + y;
    assert(s[a.len() as int] == ':');
    assert(t[b.len() as int] == ':');
    if a.len() < b.len() {
        assert(t[a.len() as int] == b[a.len() as int]);
        assert(b.contains(':'));
    }
    if b.len() < a.len() {
        assert(s[b.len() as int] == a[b.len() as int]);
        assert(a.contains(':'));
    }
    assert(a =~= s.take(a.len() as int));
    assert(b =~= t.take(b.len() as int));
    assert(x =~= s.skip(a.len() as int + 1));
    assert(y =~= t.skip(b.len() as int + 1));
}

/// An answer is stored only where there is a store and something was asked, and under the way out, the
/// name and the type of the first question.
pub proof fn law_what_an_answer_is_stored_under(outbound: Seq<char>, query: DnsView)
    ensures
        stored_under(outbound, query, false) is None,
        query.questions.len() == 0 ==> stored_under(outbound, query, true) is None,
        query.questions.len() > 0 ==> stored_under(outbound, query, true) == Some(
            outbound + seq![':'] + query.questions[0].0 + seq![':'] + qtype_name(query.questions[0].1),
        ),
{
    reveal_strlit(":");
    assert(":"@ =~= seq![':']);
}

/// The first address of a family is the one before which none of that family stands.
pub proof fn law_first_of_a_family(
    before: Seq<IpAddr>,
    four: u32,
    six: u128,
    after: Seq<IpAddr>,
    found: Option<u32>,
    found6: Option<u128>,
)
    ensures
        (forall|i: int| 0 <= i < before.len() ==> (#[trigger] before[i]) is V6) ==> (is_first_v4(
            before + seq![IpAddr::V4(four)] + after,
            found,
        ) <==> found == Some(four)),
        (forall|i: int| 0 <= i < before.len() ==> (#[trigger] before[i]) is V4) ==> (is_first_v6(
            before + seq![IpAddr::V6(six)] + after,
            found6,
        ) <==> found6 == Some(six)),
        (forall|i: int| 0 <= i < before.len() ==> (#[trigger] before[i]) is V6) ==> (is_first_v4(
            before,
            found,
        ) <==> found is None),
        (forall|i: int| 0 <= i < before.len() ==> (#[trigger] before[i]) is V4) ==> (is_first_v6(
            before,
            found6,
        ) <==> found6 is None),
{
    let n = before.len() as int;
    if forall|i: int| 0 <= i < before.len() ==> (#[trigger] before[i]) is V6 {
        let all = before + seq![IpAddr::V4(four)] + after;
        assert(all[n] == IpAddr::V4(four));
        assert forall|j: int| 0 <= j < n implies (#[trigger] all[j]) is V6 by {
            assert(before[j] is V6);
        }
        if is_first_v4(all, found) {
            if let Some(ip) = found {
                let i = choose|i: int|
                    0 <= i < all.len() && #[trigger] all[i] == IpAddr::V4(ip) && forall|j: int|
                        0 <= j < i ==> (#[trigger] all[j]) is V6;
                assert(i == n);
            }
        }
    }
    if forall|i: int| 0 <= i < before.len() ==> (#[trigger] before[i]) is V4 {
        let all = before + seq![IpAddr::V6(six)] + after;
        assert(all[n] == IpAddr::V6(six));
        assert forall|j: int| 0 <= j < n implies (#[trigger] all[j]) is V4 by {
            assert(before[j] is V4);
        }
        if is_first_v6(all, found6) {
            if let Some(ip) = found6 {
                let i = choose|i: int|
                    0 <= i < all.len() && #[trigger] all[i] == IpAddr::V6(ip) && forall|j: int|
                        0 <= j < i ==> (#[trigger] all[j]) is V4;
                assert(i == n);
            }
        }
    }
}

} // verus!
