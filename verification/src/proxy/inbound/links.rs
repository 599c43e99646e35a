//! Share links: URI escaping, node names and their order.

use crate::config::opt_str;
use crate::text::{chars_of, copy_text, push_text, text_of};
use crate::utils::sort::{
    bytes_le, le_bytes, lemma_bytes_le_antisym, lemma_bytes_le_total, lemma_bytes_le_trans,
};
use vstd::prelude::*;
use vstd::utf8::{encode_utf8, encode_utf8_decode_utf8};

verus! {

/// The RFC 3986 unreserved characters.
pub open spec fn unreserved(b: u8) -> bool {
    ||| 48 <= b <= 57
    ||| 65 <= b <= 90
    ||| 97 <= b <= 122
    ||| b == 45
    ||| b == 46
    ||| b == 95
    ||| b == 126
}

/// The upper-case hexadecimal digit of a value below 16.
pub open spec fn upper_hex(d: int) -> char {
    if d < 10 {
        (48 + d) as char
    } else {
        (55 + d) as char
    }
}

/// One byte in a URI component.
pub open spec fn escaped_byte(b: u8) -> Seq<char> {
    if unreserved(b) {
        seq![b as char]
    } else {
        seq!['%', upper_hex(b as int / 16), upper_hex(b as int % 16)]
    }
}

/// Bytes in a URI component.
pub open spec fn escaped(bytes: Seq<u8>) -> Seq<char>
    decreases bytes.len(),
{
    if bytes.len() == 0 {
        Seq::empty()
    } else {
        escaped(bytes.drop_last()) + escaped_byte(bytes.last())
    }
}

fn hex_upper(d: u8) -> (c: char)
    requires
        d < 16,
    ensures
        c == upper_hex(d as int),
{
    match d {
        0 => '0',
        1 => '1',
        2 => '2',
        3 => '3',
        4 => '4',
        5 => '5',
        6 => '6',
        7 => '7',
        8 => '8',
        9 => '9',
        10 => 'A',
        11 => 'B',
        12 => 'C',
        13 => 'D',
        14 => 'E',
        _ => 'F',
    }
}

/// Escapes everything but the RFC 3986 unreserved characters, so that a value can stand in a URI's
/// user information, query or fragment.
pub fn encode_uri_component(value: &str) -> (out: String)
    ensures
        out@ == escaped(encode_utf8(value@)),
{
    let bytes = value.as_bytes();
    let mut out = String::new();
    let mut i: usize = 0;
    assert(out@ =~= escaped(bytes@.take(0)));
    while i < bytes.len()
        invariant
            i <= bytes@.len(),
            out@ == escaped(bytes@.take(i as int)),
        decreases bytes@.len() - i,
    {
        let b: u8 = bytes[i];
        let ghost before = out@;
        assert(bytes@.take(i + 1).drop_last() =~= bytes@.take(i as int));
        if (48 <= b && b <= 57) || (65 <= b && b <= 90) || (97 <= b && b <= 122) || b == 45 || b
            == 46 || b == 95 || b == 126 {
            out.push(b as char);
            assert(out@ =~= before + escaped_byte(b));
        } else {
            out.push('%');
            out.push(hex_upper(b / 16));
            out.push(hex_upper(b % 16));
            assert(out@ =~= before + escaped_byte(b));
        }
        i += 1;
    }
    assert(bytes@.take(bytes@.len() as int) =~= bytes@);
    out
}

/// Unreserved text stands in a URI as it is.
pub proof fn law_unreserved_text_is_kept(bytes: Seq<u8>)
    requires
        forall|i: int| 0 <= i < bytes.len() ==> unreserved(#[trigger] bytes[i]),
    ensures
        escaped(bytes) == bytes.map_values(|b: u8| b as char),
    decreases bytes.len(),
{
    if bytes.len() > 0 {
        law_unreserved_text_is_kept(bytes.drop_last());
        assert(bytes.map_values(|b: u8| b as char) =~= bytes.drop_last().map_values(
            |b: u8| b as char,
        ).push(bytes.last() as char));
    } else {
        assert(bytes.map_values(|b: u8| b as char) =~= Seq::empty());
    }
}

/// Whether a text contains a character.
pub open spec fn has_char(s: Seq<char>, c: char) -> bool {
    exists|i: int| 0 <= i < s.len() && s[i] == c
}

fn contains_char(s: &str, c: char) -> (r: bool)
    ensures
        r == has_char(s@, c),
{
    let chars = chars_of(s);
    let mut i: usize = 0;
    while i < chars.len()
        invariant
            i <= chars@.len(),
            chars@ == s@,
            forall|k: int| 0 <= k < i ==> s@[k] != c,
        decreases chars@.len() - i,
    {
        if chars[i] == c {
            assert(s@[i as int] == c);
            return true;
        }
        i += 1;
    }
    false
}

/// A host as a URI authority: an IPv6 address stands in brackets.
pub open spec fn uri_host_text(host: Seq<char>) -> Seq<char> {
    if has_char(host, ':') && host[0] != '[' {
        seq!['['] + host + seq![']']
    } else {
        host
    }
}

/// Puts an IPv6 address in brackets so that it can be a URI authority.
pub fn uri_host(host: &str) -> (out: String)
    ensures
        out@ == uri_host_text(host@),
{
    let bracketed = {
        let chars = chars_of(host);
        chars.len() > 0 && chars[0] == '['
    };
    if contains_char(host, ':') && !bracketed {
        let mut out = String::new();
        out.push('[');
        push_text(&mut out, host);
        out.push(']');
        assert(out@ =~= seq!['['] + host@ + seq![']']);
        out
    } else {
        copy_text(host)
    }
}

/// Bracketing a host twice is the same as bracketing it once.
pub proof fn law_uri_host_idempotent(host: Seq<char>)
    ensures
        uri_host_text(uri_host_text(host)) == uri_host_text(host),
{
}

/// A registered server: its tag and protocol.
#[derive(Debug)]
pub struct RegisteredInbound {
    pub tag: String,
    pub protocol: String,
}

/// The mathematical value of a [`RegisteredInbound`].
pub struct InboundView {
    pub tag: Seq<char>,
    pub protocol: Seq<char>,
}

impl View for RegisteredInbound {
    type V = InboundView;

    open spec fn view(&self) -> InboundView {
        InboundView { tag: self.tag@, protocol: self.protocol@ }
    }
}

/// The values of a list of servers.
pub open spec fn inbound_views(list: Seq<RegisteredInbound>) -> Seq<InboundView> {
    list.map_values(|e: RegisteredInbound| e@)
}

/// The order of tags: byte by byte.
pub open spec fn tag_le(a: InboundView, b: InboundView) -> bool {
    bytes_le(encode_utf8(a.tag), encode_utf8(b.tag))
}

/// A list in the order of its tags.
pub open spec fn sorted_by_tag(list: Seq<InboundView>) -> bool {
    forall|i: int, j: int| 0 <= i < j < list.len() ==> tag_le(#[trigger] list[i], #[trigger] list[j])
}

fn copy_inbound(e: &RegisteredInbound) -> (out: RegisteredInbound)
    ensures
        out@ == e@,
{
    RegisteredInbound { tag: e.tag.clone(), protocol: e.protocol.clone() }
}

/// Sorts servers by their tags.
pub fn sort_by_tag(list: &Vec<RegisteredInbound>) -> (out: Vec<RegisteredInbound>)
    ensures
        sorted_by_tag(inbound_views(out@)),
        inbound_views(out@).to_multiset() == inbound_views(list@).to_multiset(),
{
    let mut out: Vec<RegisteredInbound> = Vec::new();
    let mut i: usize = 0;
    let ghost all = inbound_views(list@);
    assert(inbound_views(out@) =~= all.take(0));
    while i < list.len()
        invariant
            i <= list@.len(),
            all == inbound_views(list@),
            sorted_by_tag(inbound_views(out@)),
            inbound_views(out@).to_multiset() == all.take(i as int).to_multiset(),
        decreases list@.len() - i,
    {
        let x = copy_inbound(&list[i]);
        let ghost xv = x@;
        let mut p: usize = out.len();
        while p > 0 && !le_bytes(out[p - 1].tag.as_str().as_bytes(), x.tag.as_str().as_bytes())
            invariant
                p <= out@.len(),
                x@ == xv,
                forall|k: int|
                    p <= k < out@.len() ==> !tag_le(#[trigger] inbound_views(out@)[k], xv),
            decreases p,
        {
            assert(inbound_views(out@)[p - 1] == out@[p - 1]@);
            p -= 1;
        }
        let ghost before = inbound_views(out@);
        if p > 0 {
            assert(before[p - 1] == out@[p - 1]@);
        }
        assert(p > 0 ==> tag_le(before[p - 1], xv));
        out.insert(p, x);
        let ghost after = inbound_views(out@);
        assert(after =~= before.insert(p as int, xv));
        assert forall|a: int, b: int| 0 <= a < b < after.len() implies tag_le(
            #[trigger] after[a],
            #[trigger] after[b],
        ) by {
            if a < p && b == p {
                if a < p - 1 {
                    assert(tag_le(before[a], before[p - 1]));
                    lemma_bytes_le_trans(
                        encode_utf8(before[a].tag),
                        encode_utf8(before[p - 1].tag),
                        encode_utf8(xv.tag),
                    );
                }
            } else if a == p {
                assert(!tag_le(before[b - 1], xv));
                lemma_bytes_le_total(encode_utf8(before[b - 1].tag), encode_utf8(xv.tag));
            } else if a < p && b > p {
                assert(tag_le(before[a], before[b - 1]));
            } else if a > p {
                assert(tag_le(before[a - 1], before[b - 1]));
            } else {
                assert(tag_le(before[a], before[b]));
            }
        }
        proof {
            assert(all.take(i + 1) =~= all.take(i as int).push(all[i as int]));
            vstd::seq_lib::to_multiset_insert(before, p as int, xv);
            vstd::seq_lib::to_multiset_build(all.take(i as int), all[i as int]);
        }
        i += 1;
    }
    assert(all.take(all.len() as int) =~= all);
    out
}

/// A tag without the suffix that servers' tags commonly have.
pub open spec fn short_tag(tag: Seq<char>) -> Seq<char> {
    let n = tag.len() - 8;
    if n >= 0 && tag.skip(n) == "_inbound"@ {
        tag.take(n)
    } else {
        tag
    }
}

/// The name of a node: made of the base name and protocol if there is a base name, of the tag (or
/// the protocol, where the tag says nothing) otherwise, and always of the address family.
pub open spec fn node_name(inbound: InboundView, host: Seq<char>, base: Option<Seq<char>>) -> Seq<
    char,
> {
    let family = if has_char(host, ':') {
        "IPv6"@
    } else {
        "IPv4"@
    };
    if base matches Some(b) && b.len() > 0 {
        base->0 + "-"@ + inbound.protocol + "-"@ + family
    } else {
        let short = short_tag(inbound.tag);
        (if short.len() == 0 {
            inbound.protocol
        } else {
            short
        }) + "-"@ + family
    }
}

fn shorten_tag(tag: &str) -> (out: String)
    ensures
        out@ == short_tag(tag@),
{
    let chars = chars_of(tag);
    proof {
        reveal_strlit("_inbound");
    }
    if chars.len() >= 8 {
        let n: usize = chars.len() - 8;
        let tail = text_of(vstd::slice::slice_subrange(chars.as_slice(), n, chars.len()));
        assert(tail@ =~= tag@.skip(n as int));
        if crate::text::str_eq(tail.as_str(), "_inbound") {
            let head = text_of(vstd::slice::slice_subrange(chars.as_slice(), 0, n));
            assert(head@ =~= tag@.take(n as int));
            return head;
        }
    }
    copy_text(tag)
}

fn name_node(inbound: &RegisteredInbound, host: &str, base: Option<&str>) -> (out: String)
    ensures
        out@ == node_name(
            inbound@,
            host@,
            opt_str(base),
        ),
{
    let family = if contains_char(host, ':') {
        "IPv6"
    } else {
        "IPv4"
    };
    if let Some(b) = base {
        if !b.is_empty() {
            let mut out = copy_text(b);
            push_text(&mut out, "-");
            push_text(&mut out, inbound.protocol.as_str());
            push_text(&mut out, "-");
            push_text(&mut out, family);
            return out;
        }
    }
    let short = shorten_tag(inbound.tag.as_str());
    let mut out = if short.as_str().is_empty() {
        inbound.protocol.clone()
    } else {
        short
    };
    push_text(&mut out, "-");
    push_text(&mut out, family);
    out
}

/// A share link to build: for which host, from which server, under which node name.
#[derive(Debug)]
pub struct SubLink {
    pub host: String,
    pub tag: String,
    pub name: String,
}

/// The mathematical value of a [`SubLink`].
pub struct SubLinkView {
    pub host: Seq<char>,
    pub tag: Seq<char>,
    pub name: Seq<char>,
}

impl View for SubLink {
    type V = SubLinkView;

    open spec fn view(&self) -> SubLinkView {
        SubLinkView { host: self.host@, tag: self.tag@, name: self.name@ }
    }
}

/// The links of one host: one for each server.
pub open spec fn host_links(
    host: Seq<char>,
    inbounds: Seq<InboundView>,
    base: Option<Seq<char>>,
) -> Seq<SubLinkView> {
    Seq::new(
        inbounds.len(),
        |j: int|
            SubLinkView { host, tag: inbounds[j].tag, name: node_name(inbounds[j], host, base) },
    )
}

/// The links of several hosts, host by host.
pub open spec fn all_links(
    hosts: Seq<Seq<char>>,
    inbounds: Seq<InboundView>,
    base: Option<Seq<char>>,
) -> Seq<SubLinkView>
    decreases hosts.len(),
{
    if hosts.len() == 0 {
        Seq::empty()
    } else {
        all_links(hosts.drop_last(), inbounds, base) + host_links(hosts.last(), inbounds, base)
    }
}

/// Hosts with the IPv6 ones first; within a family the order stays.
pub open spec fn ipv6_first(hosts: Seq<Seq<char>>) -> Seq<Seq<char>> {
    hosts.filter(|h: Seq<char>| has_char(h, ':')) + hosts.filter(
        |h: Seq<char>| !has_char(h, ':'),
    )
}

/// The values of a list of links.
pub open spec fn link_views(links: Seq<SubLink>) -> Seq<SubLinkView> {
    links.map_values(|l: SubLink| l@)
}

fn push_links(
    links: &mut Vec<SubLink>,
    host: &str,
    inbounds: &Vec<RegisteredInbound>,
    base: Option<&str>,
)
    ensures
        link_views(final(links)@) == link_views(old(links)@) + host_links(
            host@,
            inbound_views(inbounds@),
            opt_str(base),
        ),
{
    let ghost bv = opt_str(base);
    let ghost row = host_links(host@, inbound_views(inbounds@), bv);
    let mut j: usize = 0;
    assert(row.take(0) =~= Seq::empty());
    assert(link_views(links@) =~= link_views(old(links)@) + row.take(0));
    while j < inbounds.len()
        invariant
            j <= inbounds@.len(),
            row == host_links(host@, inbound_views(inbounds@), bv),
            bv == opt_str(base),
            link_views(links@) == link_views(old(links)@) + row.take(j as int),
        decreases inbounds@.len() - j,
    {
        let ghost before = links@;
        assert(inbound_views(inbounds@)[j as int] == inbounds@[j as int]@);
        links.push(
            SubLink {
                host: copy_text(host),
                tag: inbounds[j].tag.clone(),
                name: name_node(&inbounds[j], host, base),
            },
        );
        assert(link_views(links@) =~= link_views(before).push(row[j as int]));
        assert(row.take(j + 1) =~= row.take(j as int).push(row[j as int]));
        assert(link_views(links@) =~= link_views(old(links)@) + row.take(j + 1));
        j += 1;
    }
    assert(row.take(row.len() as int) =~= row);
}

fn push_family(
    links: &mut Vec<SubLink>,
    hosts: &Vec<String>,
    inbounds: &Vec<RegisteredInbound>,
    base: Option<&str>,
    v6: bool,
)
    ensures
        link_views(final(links)@) == link_views(old(links)@) + all_links(
            crate::config::texts(hosts@).filter(|h: Seq<char>| has_char(h, ':') == v6),
            inbound_views(inbounds@),
            opt_str(base),
        ),
{
    let ghost bv = opt_str(base);
    let ghost iv = inbound_views(inbounds@);
    let ghost hv = crate::config::texts(hosts@);
    let ghost pick = |h: Seq<char>| has_char(h, ':') == v6;
    let mut i: usize = 0;
    assert(hv.take(0).filter(pick) =~= Seq::empty()) by {
        reveal(Seq::filter);
    }
    assert(link_views(links@) =~= link_views(old(links)@) + all_links(
        hv.take(0).filter(pick),
        iv,
        bv,
    ));
    while i < hosts.len()
        invariant
            i <= hosts@.len(),
            iv == inbound_views(inbounds@),
            hv == crate::config::texts(hosts@),
            pick == (|h: Seq<char>| has_char(h, ':') == v6),
            bv == opt_str(base),
            link_views(links@) == link_views(old(links)@) + all_links(
                hv.take(i as int).filter(pick),
                iv,
                bv,
            ),
        decreases hosts@.len() - i,
    {
        let ghost before = hv.take(i as int).filter(pick);
        let ghost after = hv.take(i + 1).filter(pick);
        proof {
            reveal(Seq::filter);
            assert(hv.take(i + 1).drop_last() =~= hv.take(i as int));
            assert(hv.take(i + 1).last() == hosts@[i as int]@);
        }
        if contains_char(hosts[i].as_str(), ':') == v6 {
            let ghost so_far = link_views(links@);
            push_links(links, hosts[i].as_str(), inbounds, base);
            assert(after == before.push(hosts@[i as int]@));
            assert(after.drop_last() =~= before);
            assert(link_views(links@) =~= link_views(old(links)@) + all_links(after, iv, bv));
        }
        i += 1;
    }
    assert(hv.take(hv.len() as int) =~= hv);
}

proof fn lemma_all_links_concat(
    a: Seq<Seq<char>>,
    b: Seq<Seq<char>>,
    inbounds: Seq<InboundView>,
    base: Option<Seq<char>>,
)
    ensures
        all_links(a + b, inbounds, base) == all_links(a, inbounds, base) + all_links(
            b,
            inbounds,
            base,
        ),
    decreases b.len(),
{
    if b.len() == 0 {
        assert(a + b =~= a);
        assert(all_links(a, inbounds, base) + all_links(b, inbounds, base) =~= all_links(
            a,
            inbounds,
            base,
        ));
    } else {
        assert((a + b).drop_last() =~= a + b.drop_last());
        lemma_all_links_concat(a, b.drop_last(), inbounds, base);
        assert(all_links(a + b, inbounds, base) =~= all_links(a, inbounds, base) + all_links(
            b,
            inbounds,
            base,
        ));
    }
}

/// Whether these are the share links of the servers for the given hosts: IPv6 hosts first, servers in
/// the order of their tags.
pub open spec fn are_sub_links(
    hosts: Seq<Seq<char>>,
    inbounds: Seq<InboundView>,
    base: Option<Seq<char>>,
    links: Seq<SubLinkView>,
) -> bool {
    exists|sorted: Seq<InboundView>|
        {
            &&& sorted_by_tag(sorted)
            &&& sorted.to_multiset() == inbounds.to_multiset()
            &&& links == #[trigger] all_links(ipv6_first(hosts), sorted, base)
        }
}

/// Whether no two servers have the same tag.
pub open spec fn distinct_inbounds(inbounds: Seq<InboundView>) -> bool {
    forall|i: int, j: int|
        0 <= i < j < inbounds.len() ==> (#[trigger] inbounds[i]).tag != (#[trigger] inbounds[j]).tag
}

/// Any two members that have the same tag are the same.
spec fn tags_tell(inbounds: Seq<InboundView>) -> bool {
    forall|a: InboundView, b: InboundView| #[trigger]
        inbounds.contains(a) && #[trigger] inbounds.contains(b) && a.tag == b.tag ==> a == b
}

proof fn lemma_sorted_is_unique(s: Seq<InboundView>, t: Seq<InboundView>)
    requires
        sorted_by_tag(s),
        sorted_by_tag(t),
        s.to_multiset() == t.to_multiset(),
        tags_tell(s),
    ensures
        s == t,
    decreases s.len(),
{
    broadcast use vstd::seq_lib::group_to_multiset_ensures;

    assert(s.len() == s.to_multiset().len());
    assert(t.len() == t.to_multiset().len());
    if s.len() == 0 {
        assert(s =~= t);
    } else {
        let a = s.last();
        let b = t.last();
        assert(s[s.len() - 1] == a && t[t.len() - 1] == b);
        assert(s.contains(a) && t.contains(b));
        assert(t.to_multiset().count(a) > 0 && s.to_multiset().count(b) > 0);
        assert(t.contains(a) && s.contains(b));
        let i = choose|i: int| 0 <= i < t.len() && t[i] == a;
        let j = choose|j: int| 0 <= j < s.len() && s[j] == b;
        lemma_bytes_le_total(encode_utf8(a.tag), encode_utf8(a.tag));
        lemma_bytes_le_total(encode_utf8(b.tag), encode_utf8(b.tag));
        assert(i == t.len() - 1 || tag_le(t[i], t[t.len() - 1]));
        assert(j == s.len() - 1 || tag_le(s[j], s[s.len() - 1]));
        lemma_bytes_le_antisym(encode_utf8(a.tag), encode_utf8(b.tag));
        encode_utf8_decode_utf8(a.tag);
        encode_utf8_decode_utf8(b.tag);
        assert(a == b);
        let u = s.drop_last();
        let v = t.drop_last();
        assert(s.remove(s.len() - 1) =~= u);
        assert(t.remove(t.len() - 1) =~= v);
        assert(u.to_multiset() == s.to_multiset().remove(a));
        assert(v.to_multiset() == t.to_multiset().remove(b));
        assert forall|x: InboundView| #[trigger] u.contains(x) implies s.contains(x) by {
            let k = choose|k: int| 0 <= k < u.len() && u[k] == x;
            assert(s[k] == x);
        }
        lemma_sorted_is_unique(u, v);
        assert(s =~= u.push(a));
        assert(t =~= v.push(b));
    }
}

/// The share links do not depend on the order in which the servers were registered.
pub proof fn law_links_are_stable(
    hosts: Seq<Seq<char>>,
    inbounds: Seq<InboundView>,
    others: Seq<InboundView>,
    base: Option<Seq<char>>,
    links: Seq<SubLinkView>,
    other_links: Seq<SubLinkView>,
)
    requires
        distinct_inbounds(inbounds),
        inbounds.to_multiset() == others.to_multiset(),
        are_sub_links(hosts, inbounds, base, links),
        are_sub_links(hosts, others, base, other_links),
    ensures
        links == other_links,
{
    broadcast use vstd::seq_lib::group_to_multiset_ensures;

    let s = choose|s: Seq<InboundView>|
        sorted_by_tag(s) && s.to_multiset() == inbounds.to_multiset() && links
            == #[trigger] all_links(ipv6_first(hosts), s, base);
    let t = choose|t: Seq<InboundView>|
        sorted_by_tag(t) && t.to_multiset() == others.to_multiset() && other_links
            == #[trigger] all_links(ipv6_first(hosts), t, base);
    assert forall|a: InboundView, b: InboundView| #[trigger]
        s.contains(a) && #[trigger] s.contains(b) && a.tag == b.tag implies a == b by {
        assert(s.to_multiset().count(a) > 0 && s.to_multiset().count(b) > 0);
        assert(inbounds.contains(a) && inbounds.contains(b));
        let i = choose|i: int| 0 <= i < inbounds.len() && inbounds[i] == a;
        let j = choose|j: int| 0 <= j < inbounds.len() && inbounds[j] == b;
        assert(inbounds[i].tag == inbounds[j].tag);
    }
    lemma_sorted_is_unique(s, t);
}

/// Lists the share links of every registered server for the given public hosts: IPv6 hosts first,
/// servers in the order of their tags.
pub fn build_sub_links(
    hosts: &Vec<String>,
    inbounds: &Vec<RegisteredInbound>,
    base_name: Option<&str>,
) -> (links: Vec<SubLink>)
    ensures
        are_sub_links(
            crate::config::texts(hosts@),
            inbound_views(inbounds@),
            opt_str(base_name),
            link_views(links@),
        ),
{
    let ordered = sort_by_tag(inbounds);
    let mut links: Vec<SubLink> = Vec::new();
    let ghost hv = crate::config::texts(hosts@);
    let ghost bv = opt_str(base_name);
    push_family(&mut links, hosts, &ordered, base_name, true);
    push_family(&mut links, hosts, &ordered, base_name, false);
    proof {
        let v6 = hv.filter(|h: Seq<char>| has_char(h, ':') == true);
        let v4 = hv.filter(|h: Seq<char>| has_char(h, ':') == false);
        let p6 = |h: Seq<char>| has_char(h, ':') == true;
        let q6 = |h: Seq<char>| has_char(h, ':');
        let p4 = |h: Seq<char>| has_char(h, ':') == false;
        let q4 = |h: Seq<char>| !has_char(h, ':');
        assert(p6 =~= q6);
        assert(p4 =~= q4);
        assert(v6 + v4 =~= ipv6_first(hv));
        lemma_all_links_concat(v6, v4, inbound_views(ordered@), bv);
        assert(link_views(links@) =~= all_links(ipv6_first(hv), inbound_views(ordered@), bv));
    }
    links
}

/// In an escaped text, letters, digits and the four marks `-._~` stand for themselves. Every
/// other byte stands as a percent sign and its two digits in base sixteen, in capitals.
pub proof fn law_escaped_bytes(b: u8, bytes: Seq<u8>, more: Seq<u8>)
    ensures
        (('0' as int <= b <= '9' as int) || ('A' as int <= b <= 'Z' as int) || ('a' as int <= b
            <= 'z' as int) || b == '-' as int || b == '.' as int || b == '_' as int || b
            == '~' as int) ==> escaped(seq![b]) == seq![b as char],
        !(('0' as int <= b <= '9' as int) || ('A' as int <= b <= 'Z' as int) || ('a' as int <= b
            <= 'z' as int) || b == '-' as int || b == '.' as int || b == '_' as int || b
            == '~' as int) ==> escaped(seq![b]) == seq![
            '%',
            "0123456789ABCDEF"@[b as int / 16],
            "0123456789ABCDEF"@[b as int % 16],
        ],
        escaped(bytes + more) == escaped(bytes) + escaped(more),
        escaped(Seq::empty()) == Seq::<char>::empty(),
{
    reveal_strlit("0123456789ABCDEF");
    assert(seq![b].drop_last() =~= Seq::<u8>::empty());
    assert(escaped(Seq::empty()) =~= Seq::<char>::empty());
    assert(escaped(seq![b]) =~= escaped_byte(b));
    lemma_escaped_add(bytes, more);
}

proof fn lemma_escaped_add(bytes: Seq<u8>, more: Seq<u8>)
    ensures
        escaped(bytes + more) == escaped(bytes) + escaped(more),
    decreases more.len(),
{
    if more.len() == 0 {
        assert(bytes + more =~= bytes);
    } else {
        assert((bytes + more).drop_last() =~= bytes + more.drop_last());
        lemma_escaped_add(bytes, more.drop_last());
    }
}

/// A host that holds a colon stands in brackets, once. Every other host stands as it is.
pub proof fn law_hosts_in_brackets(host: Seq<char>)
    ensures
        host.contains(':') && host[0] != '[' ==> uri_host_text(host).len() == host.len() + 2
            && uri_host_text(host)[0] == '[' && uri_host_text(host).last() == ']' && uri_host_text(
            host,
        ).subrange(1, 1int + host.len()) == host,
        !host.contains(':') || host[0] == '[' ==> uri_host_text(host) == host,
{
    if host.contains(':') {
        let i = choose|i: int| 0 <= i < host.len() && host[i] == ':';
        assert(has_char(host, ':'));
    }
}

/// A node is named after the base where one is given, with its protocol, and after its tag
/// where none is: the tag without a closing `_inbound`, or the protocol where nothing else is
/// left of the tag. The family of the address comes last.
pub proof fn law_names_of_nodes(tag: Seq<char>, protocol: Seq<char>, host: Seq<char>, base: Seq<char>)
    ensures
        ({
            let family = if host.contains(':') {
                "-IPv6"@
            } else {
                "-IPv4"@
            };
            let named = InboundView { tag: tag + "_inbound"@, protocol };
            &&& base.len() > 0 ==> node_name(named, host, Some(base)) == base + "-"@ + protocol
                + family
            &&& tag.len() > 0 ==> node_name(named, host, None) == tag + family
            &&& tag.len() == 0 ==> node_name(named, host, None) == protocol + family
            &&& base.len() == 0 ==> node_name(named, host, Some(base)) == node_name(
                named,
                host,
                None,
            )
            &&& tag.len() > 0 && !(exists|rest: Seq<char>| tag == #[trigger] (rest + "_inbound"@))
                ==> node_name(InboundView { tag, protocol }, host, None) == tag + family
        }),
{
    reveal_strlit("_inbound");
    reveal_strlit("-IPv6");
    reveal_strlit("-IPv4");
    reveal_strlit("-");
    reveal_strlit("IPv6");
    reveal_strlit("IPv4");
    assert("-"@ + "IPv6"@ =~= "-IPv6"@);
    assert("-"@ + "IPv4"@ =~= "-IPv4"@);
    assert(host.contains(':') <==> has_char(host, ':'));
    let long = tag + "_inbound"@;
    assert(long.skip(long.len() - 8) =~= "_inbound"@);
    assert(long.take(long.len() - 8) =~= tag);
    let family = if host.contains(':') {
        "IPv6"@
    } else {
        "IPv4"@
    };
    assert(base + "-"@ + protocol + "-"@ + family =~= base + "-"@ + protocol + ("-"@ + family));
    assert(tag + "-"@ + family =~= tag + ("-"@ + family));
    assert(protocol + "-"@ + family =~= protocol + ("-"@ + family));
    if tag.len() > 0 && !(exists|rest: Seq<char>| tag == #[trigger] (rest + "_inbound"@)) {
        let n = tag.len() - 8;
        if n >= 0 && tag.skip(n) == "_inbound"@ {
            assert(tag =~= tag.take(n) + "_inbound"@);
        }
    }
}

/// There is one link for each host and each entry point: those of a host stand together, in
/// the order of the hosts, and among them in the order of the entry points. Each names its
/// host and its entry point.
pub proof fn law_one_link_each(
    hosts: Seq<Seq<char>>,
    inbounds: Seq<InboundView>,
    base: Option<Seq<char>>,
    i: int,
    j: int,
)
    ensures
        all_links(hosts, inbounds, base).len() == hosts.len() * inbounds.len(),
        0 <= i < hosts.len() && 0 <= j < inbounds.len() ==> i * inbounds.len() + j
            < hosts.len() * inbounds.len() && all_links(hosts, inbounds, base)[i * inbounds.len()
            + j] == (SubLinkView {
            host: hosts[i],
            tag: inbounds[j].tag,
            name: node_name(inbounds[j], hosts[i], base),
        }),
    decreases hosts.len(),
{
    if hosts.len() > 0 {
        law_one_link_each(hosts.drop_last(), inbounds, base, i, j);
        let n = inbounds.len() as int;
        let h = hosts.len() as int;
        assert(h * n == (h - 1) * n + n) by (nonlinear_arith);
        if 0 <= i < h && 0 <= j < n {
            assert(i * n + j < h * n) by (nonlinear_arith)
                requires
                    0 <= i < h,
                    0 <= j < n,
            ;
            if i == h - 1 {
                assert(all_links(hosts, inbounds, base)[i * n + j] == host_links(
                    hosts.last(),
                    inbounds,
                    base,
                )[j]);
            }
        }
    }
}

/// The hosts with a colon come before those without one. None is lost, none is added, and
/// where all are of one kind their order stays.
pub proof fn law_hosts_with_a_colon_come_first(hosts: Seq<Seq<char>>)
    ensures
        forall|i: int, j: int|
            0 <= i < j < ipv6_first(hosts).len() && (#[trigger] ipv6_first(hosts)[j]).contains(':')
                ==> (#[trigger] ipv6_first(hosts)[i]).contains(':'),
        forall|h: Seq<char>| #[trigger] ipv6_first(hosts).contains(h) <==> hosts.contains(h),
        ipv6_first(hosts).len() == hosts.len(),
        (forall|i: int| 0 <= i < hosts.len() ==> (#[trigger] hosts[i]).contains(':')) ==> ipv6_first(
            hosts,
        ) == hosts,
        (forall|i: int| 0 <= i < hosts.len() ==> !(#[trigger] hosts[i]).contains(':'))
            ==> ipv6_first(hosts) == hosts,
{
    let six = |h: Seq<char>| has_char(h, ':');
    let four = |h: Seq<char>| !has_char(h, ':');
    hosts.filter_lemma(six);
    hosts.filter_lemma(four);
    assert forall|h: Seq<char>| h.contains(':') == #[trigger] has_char(h, ':') by {}
    lemma_filters_part(hosts);
    assert forall|h: Seq<char>| #[trigger] ipv6_first(hosts).contains(h) implies hosts.contains(h) by {
        let i = choose|i: int| 0 <= i < ipv6_first(hosts).len() && ipv6_first(hosts)[i] == h;
        if i < hosts.filter(six).len() {
            lemma_filter_picks(hosts, six, i);
        } else {
            lemma_filter_picks(hosts, four, i - hosts.filter(six).len());
        }
    }
    assert forall|h: Seq<char>| hosts.contains(h) implies #[trigger] ipv6_first(hosts).contains(h) by {
        let i = choose|i: int| 0 <= i < hosts.len() && hosts[i] == h;
        if six(h) {
            assert(hosts.filter(six).contains(hosts[i]));
            let k = choose|k: int| 0 <= k < hosts.filter(six).len() && hosts.filter(six)[k] == h;
            assert(ipv6_first(hosts)[k] == h);
        } else {
            assert(hosts.filter(four).contains(hosts[i]));
            let k = choose|k: int| 0 <= k < hosts.filter(four).len() && hosts.filter(four)[k] == h;
            assert(ipv6_first(hosts)[hosts.filter(six).len() + k] == h);
        }
    }
    assert forall|i: int, j: int|
        0 <= i < j < ipv6_first(hosts).len() && (#[trigger] ipv6_first(hosts)[j]).contains(
            ':',
        ) implies (#[trigger] ipv6_first(hosts)[i]).contains(':') by {
        let n = hosts.filter(six).len();
        if j >= n {
            assert(four(hosts.filter(four)[j - n]));
        }
        assert(six(hosts.filter(six)[i]));
    }
}

proof fn lemma_filters_part(hosts: Seq<Seq<char>>)
    ensures
        hosts.filter(|h: Seq<char>| has_char(h, ':')).len() + hosts.filter(
            |h: Seq<char>| !has_char(h, ':'),
        ).len() == hosts.len(),
        (forall|i: int| 0 <= i < hosts.len() ==> (#[trigger] hosts[i]).contains(':')) ==> hosts.filter(
            |h: Seq<char>| has_char(h, ':'),
        ) == hosts,
        (forall|i: int| 0 <= i < hosts.len() ==> !(#[trigger] hosts[i]).contains(':'))
            ==> hosts.filter(|h: Seq<char>| !has_char(h, ':')) == hosts,
    decreases hosts.len(),
{
    reveal(Seq::filter);
    if hosts.len() > 0 {
        let rest = hosts.drop_last();
        lemma_filters_part(rest);
        assert(hosts.last() == hosts[hosts.len() - 1]);
        assert(hosts.last().contains(':') == has_char(hosts.last(), ':'));
        assert forall|i: int| 0 <= i < rest.len() implies #[trigger] rest[i] == hosts[i] by {}
        assert(rest.push(hosts.last()) =~= hosts);
    }
}

proof fn lemma_filter_picks(hosts: Seq<Seq<char>>, pred: spec_fn(Seq<char>) -> bool, i: int)
    requires
        0 <= i < hosts.filter(pred).len(),
    ensures
        hosts.contains(hosts.filter(pred)[i]),
    decreases hosts.len(),
{
    reveal(Seq::filter);
    if hosts.len() > 0 {
        let rest = hosts.drop_last();
        if i < rest.filter(pred).len() {
            lemma_filter_picks(rest, pred, i);
            let k = choose|k: int| 0 <= k < rest.len() && rest[k] == rest.filter(pred)[i];
            assert(hosts[k] == hosts.filter(pred)[i]);
        } else {
            assert(hosts[hosts.len() - 1] == hosts.filter(pred)[i]);
        }
    }
}

} // verus!
