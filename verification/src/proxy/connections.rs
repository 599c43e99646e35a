//! The open connections, and where their traffic went.

use crate::config::{copy_list, copy_opt, opt_str, opt_text, texts};
use crate::crypto::{hex_encode, id_text, parse_uuid, uuid_of};
use crate::ip::{ip_text, push_ip, push_socket_addr, socket_addr_text};
use crate::proxy::addr::{host_port_text, TargetAddr, TargetView};
use crate::text::{chars_of, copy_text, push_decimal, str_eq, trim, trimmed};
use crate::utils::sort::{sort_texts, text_le};
use crate::utils::table::{
    lemma_names, lemma_views_insert, lemma_views_remove, lemma_views_replace, views, Table,
};
use crate::wire::{be16_bytes, put_u128};
use vstd::prelude::*;

verus! {

/// Calls `uuid::Uuid::new_v4`: a random id. Which one comes is left to chance.
#[verifier::external_body]
fn random_id() -> (id: u128) {
    uuid::Uuid::new_v4().as_u128()
}

/// Writes the text of an id.
pub fn text_of_id(id: u128) -> (text: String)
    ensures
        text@ == id_text(id),
{
    let mut bytes: Vec<u8> = Vec::new();
    put_u128(&mut bytes, id);
    proof {
        crate::wire::law_be16_round_trip(id as int, Seq::empty());
        assert(bytes@ =~= be16_bytes(id as int));
    }
    let hex = chars_of(hex_encode(bytes.as_slice()).as_str());
    let mut text = String::new();
    let mut i: usize = 0;
    let ghost h = hex@;
    assert(h.len() == 32);
    while i < 8
        invariant
            i <= 8,
            hex@ == h,
            h.len() == 32,
            text@ == h.subrange(0, i as int),
        decreases 8 - i,
    {
        text.push(hex[i]);
        i += 1;
        assert(text@ =~= h.subrange(0, i as int));
    }
    push_group(&mut text, &hex, 8, 12);
    push_group(&mut text, &hex, 12, 16);
    push_group(&mut text, &hex, 16, 20);
    push_group(&mut text, &hex, 20, 32);
    assert(text@ =~= id_text(id));
    text
}

fn push_group(text: &mut String, hex: &Vec<char>, from: usize, to: usize)
    requires
        from <= to <= hex@.len(),
    ensures
        final(text)@ == old(text)@ + seq!['-'] + hex@.subrange(from as int, to as int),
{
    text.push('-');
    let ghost start = text@;
    let mut i: usize = from;
    assert(start + hex@.subrange(from as int, from as int) =~= start);
    while i < to
        invariant
            from <= i <= to <= hex@.len(),
            text@ == start + hex@.subrange(from as int, i as int),
        decreases to - i,
    {
        text.push(hex[i]);
        i += 1;
        assert(text@ =~= start + hex@.subrange(from as int, i as int));
    }
    assert(start =~= old(text)@ + seq!['-']);
}

/// One connection and what it has carried.
#[derive(Debug)]
pub struct ConnectionTracker {
    pub id: u128,
    pub inbound_tag: String,
    pub user: Option<String>,
    pub outbound_tag: Vec<String>,
    pub matched_rule_index: Option<usize>,
    pub final_target: TargetAddr,
    pub origin_target: TargetAddr,
    pub domain: Option<String>,
    pub is_fakeip: bool,
    pub is_udp: bool,
    pub upload: u64,
    pub download: u64,
    pub start_time: u64,
}

/// The value of a connection.
#[verifier::ext_equal]
pub struct ConnectionView {
    pub id: u128,
    pub inbound_tag: Seq<char>,
    pub user: Option<Seq<char>>,
    pub outbound_tag: Seq<Seq<char>>,
    pub matched_rule_index: Option<usize>,
    pub final_target: TargetView,
    pub origin_target: TargetView,
    pub domain: Option<Seq<char>>,
    pub is_fakeip: bool,
    pub is_udp: bool,
    pub upload: u64,
    pub download: u64,
    pub start_time: u64,
}

impl View for ConnectionTracker {
    type V = ConnectionView;

    open spec fn view(&self) -> ConnectionView {
        ConnectionView {
            id: self.id,
            inbound_tag: self.inbound_tag@,
            user: opt_text(self.user),
            outbound_tag: texts(self.outbound_tag@),
            matched_rule_index: self.matched_rule_index,
            final_target: self.final_target@,
            origin_target: self.origin_target@,
            domain: opt_text(self.domain),
            is_fakeip: self.is_fakeip,
            is_udp: self.is_udp,
            upload: self.upload,
            download: self.download,
            start_time: self.start_time,
        }
    }
}

impl ConnectionView {
    /// Whether the connection goes through that way out, directly or on the way.
    pub open spec fn uses(self, tag: Seq<char>) -> bool {
        self.outbound_tag.contains(tag)
    }

    /// With that much more traffic.
    pub open spec fn plus(self, upload: u64, download: u64) -> ConnectionView {
        ConnectionView {
            upload: self.upload.wrapping_add(upload),
            download: self.download.wrapping_add(download),
            ..self
        }
    }
}

impl ConnectionTracker {
    /// A connection that has carried nothing, with an id of its own. `now` is the time in seconds.
    pub fn new(
        inbound_tag: String,
        outbound_tag: Vec<String>,
        matched_rule_index: Option<usize>,
        final_target: TargetAddr,
        origin_target: TargetAddr,
        is_fakeip: bool,
        is_udp: bool,
        now: u64,
    ) -> (c: ConnectionTracker)
        ensures
            c@ == (ConnectionView {
                id: c.id,
                inbound_tag: inbound_tag@,
                user: None,
                outbound_tag: texts(outbound_tag@),
                matched_rule_index,
                final_target: final_target@,
                origin_target: origin_target@,
                domain: None,
                is_fakeip,
                is_udp,
                upload: 0,
                download: 0,
                start_time: now,
            }),
    {
        ConnectionTracker {
            id: random_id(),
            inbound_tag,
            user: None,
            outbound_tag,
            matched_rule_index,
            final_target,
            origin_target,
            domain: None,
            is_fakeip,
            is_udp,
            upload: 0,
            download: 0,
            start_time: now,
        }
    }

    /// Counts bytes from the client's side.
    pub fn inc_upload(&mut self, bytes: u64)
        ensures
            final(self)@ == old(self)@.plus(bytes, 0),
    {
        self.upload = self.upload.wrapping_add(bytes);
    }

    /// Counts bytes to the client's side.
    pub fn inc_download(&mut self, bytes: u64)
        ensures
            final(self)@ == old(self)@.plus(0, bytes),
    {
        self.download = self.download.wrapping_add(bytes);
    }

    /// The connection with its user.
    pub fn with_user(self, user: Option<String>) -> (c: ConnectionTracker)
        ensures
            c@ == (ConnectionView { user: opt_text(user), ..self@ }),
    {
        ConnectionTracker { user, ..self }
    }

    /// Whether the connection goes through that way out, directly or on the way.
    pub fn uses_outbound(&self, tag: &str) -> (r: bool)
        ensures
            r == self@.uses(tag@),
    {
        let mut i: usize = 0;
        while i < self.outbound_tag.len()
            invariant
                i <= self.outbound_tag@.len(),
                forall|k: int| 0 <= k < i ==> #[trigger] self@.outbound_tag[k] != tag@,
            decreases self.outbound_tag@.len() - i,
        {
            assert(self@.outbound_tag[i as int] == self.outbound_tag@[i as int]@);
            if str_eq(self.outbound_tag[i].as_str(), tag) {
                return true;
            }
            i += 1;
        }
        false
    }

    /// A copy.
    pub fn copy(&self) -> (c: ConnectionTracker)
        ensures
            c@ == self@,
    {
        ConnectionTracker {
            id: self.id,
            inbound_tag: copy_text(self.inbound_tag.as_str()),
            user: copy_opt(&self.user),
            outbound_tag: copy_list(&self.outbound_tag),
            matched_rule_index: self.matched_rule_index,
            final_target: self.final_target.copy(),
            origin_target: self.origin_target.copy(),
            domain: copy_opt(&self.domain),
            is_fakeip: self.is_fakeip,
            is_udp: self.is_udp,
            upload: self.upload,
            download: self.download,
            start_time: self.start_time,
        }
    }
}

/// A connection in the books. One that is `closable` can be closed from outside.
#[derive(Debug)]
pub struct ConnectionRecord {
    pub tracker: ConnectionTracker,
    pub closable: bool,
}

/// The value of a connection in the books.
#[verifier::ext_equal]
pub struct RecordView {
    pub tracker: ConnectionView,
    pub closable: bool,
}

impl View for ConnectionRecord {
    type V = RecordView;

    open spec fn view(&self) -> RecordView {
        RecordView { tracker: self.tracker@, closable: self.closable }
    }
}

/// The traffic of one destination.
#[derive(Debug)]
pub struct DstTrafficEntry {
    pub domain: String,
    pub ip: String,
    pub outbound_tag: String,
    pub upload: u64,
    pub download: u64,
    pub last_active: u64,
}

/// The value of a destination's traffic.
#[verifier::ext_equal]
pub struct DestinationView {
    pub domain: Seq<char>,
    pub ip: Seq<char>,
    pub outbound_tag: Seq<char>,
    pub upload: u64,
    pub download: u64,
    pub last_active: u64,
}

impl View for DstTrafficEntry {
    type V = DestinationView;

    open spec fn view(&self) -> DestinationView {
        DestinationView {
            domain: self.domain@,
            ip: self.ip@,
            outbound_tag: self.outbound_tag@,
            upload: self.upload,
            download: self.download,
            last_active: self.last_active,
        }
    }
}

/// The host name of an address with its port, as far as the name is known.
pub open spec fn domain_for(target: TargetView, known: Option<Seq<char>>) -> Option<Seq<char>> {
    match target {
        TargetView::Domain(_, _) => None,
        TargetView::Ip(addr) => match known {
            None => None,
            Some(name) => if trim(name).len() == 0 {
                None
            } else {
                Some(host_port_text(trim(name), addr.port))
            },
        },
    }
}

/// The text under which an address's host name is looked up.
pub fn domain_key(target: &TargetAddr) -> (key: Option<String>)
    ensures
        match key {
            Some(k) => target@ matches TargetView::Ip(addr) && k@ == ip_text(addr.ip),
            None => target@ is Domain,
        },
{
    match target {
        TargetAddr::Ip(addr) => {
            let mut key = String::new();
            push_ip(&mut key, addr.ip);
            assert(key@ =~= ip_text(addr.ip));
            Some(key)
        },
        TargetAddr::Domain(_, _) => None,
    }
}

/// Finds the host name of an address with its port; `known` is the name that the address was
/// resolved from.
pub fn resolve_domain_for_target(target: &TargetAddr, known: Option<&str>) -> (domain: Option<
    String,
>)
    ensures
        opt_text(domain) == domain_for(target@, opt_str(known)),
{
    match target {
        TargetAddr::Domain(_, _) => None,
        TargetAddr::Ip(addr) => match known {
            None => None,
            Some(name) => {
                let chars = chars_of(name);
                assert(chars@.subrange(0, chars@.len() as int) =~= name@);
                let mut domain = trimmed(chars.as_slice(), 0, chars.len());
                if domain.as_str().is_empty() {
                    None
                } else {
                    domain.push(':');
                    push_decimal(&mut domain, addr.port as u64);
                    assert(domain@ =~= host_port_text(trim(name@), addr.port));
                    Some(domain)
                }
            },
        },
    }
}

/// One connection's share of its destination's traffic.
pub open spec fn share_of(c: ConnectionView, now: u64, known: Option<Seq<char>>) -> DestinationView {
    DestinationView {
        domain: match c.domain {
            Some(domain) => domain,
            None => match domain_for(c.final_target, known) {
                Some(domain) => domain,
                None => c.final_target.text(),
            },
        },
        ip: match c.final_target {
            TargetView::Ip(addr) => socket_addr_text(addr),
            TargetView::Domain(_, _) => Seq::empty(),
        },
        outbound_tag: if c.outbound_tag.len() > 0 {
            c.outbound_tag[0]
        } else {
            Seq::empty()
        },
        upload: c.upload,
        download: c.download,
        last_active: now,
    }
}

/// The sum of two counters, at most the largest there is.
pub open spec fn capped_sum(a: u64, b: u64) -> u64 {
    if a + b > u64::MAX {
        u64::MAX
    } else {
        (a + b) as u64
    }
}

/// A destination's traffic with one more share.
pub open spec fn with_share(d: DestinationView, share: DestinationView) -> DestinationView {
    DestinationView {
        domain: d.domain,
        ip: if share.ip.len() > 0 {
            share.ip
        } else {
            d.ip
        },
        outbound_tag: if share.outbound_tag.len() > 0 {
            share.outbound_tag
        } else {
            d.outbound_tag
        },
        upload: capped_sum(d.upload, share.upload),
        download: capped_sum(d.download, share.download),
        last_active: share.last_active,
    }
}

/// The destinations' traffic with one more share.
pub open spec fn booked(
    destinations: Map<Seq<char>, DestinationView>,
    share: DestinationView,
) -> Map<Seq<char>, DestinationView> {
    destinations.insert(
        share.domain,
        if destinations.contains_key(share.domain) {
            with_share(destinations[share.domain], share)
        } else {
            share
        },
    )
}

/// The destinations' traffic once a connection has ended. One that carried nothing leaves no trace.
pub open spec fn after_end(
    destinations: Map<Seq<char>, DestinationView>,
    c: ConnectionView,
    now: u64,
    known: Option<Seq<char>>,
) -> Map<Seq<char>, DestinationView> {
    if c.upload == 0 && c.download == 0 {
        destinations
    } else {
        booked(destinations, share_of(c, now, known))
    }
}

/// The open connections and the traffic of those that have ended.
pub struct ConnectionBook {
    pub connections: Table<ConnectionRecord>,
    pub dst_traffic: Table<DstTrafficEntry>,
}

/// The value of the books.
#[verifier::ext_equal]
pub struct BookView {
    pub connections: Map<Seq<char>, RecordView>,
    pub destinations: Map<Seq<char>, DestinationView>,
}

impl View for ConnectionBook {
    type V = BookView;

    open spec fn view(&self) -> BookView {
        BookView {
            connections: views(self.connections@),
            destinations: views(self.dst_traffic@),
        }
    }
}

/// What happens to the books.
pub enum BookStep {
    /// A connection is entered.
    Open { id: Seq<char>, record: RecordView },
    /// Traffic of a connection is counted.
    Count { id: Seq<char>, upload: u64, download: u64 },
    /// A connection is taken off; `known` is the host name that its address was resolved from.
    End { id: Seq<char>, now: u64, known: Option<Seq<char>> },
    /// The traffic of the destinations is taken out.
    Drain,
}

/// The books after a step.
pub open spec fn book_step(b: BookView, step: BookStep) -> BookView {
    match step {
        BookStep::Open { id, record } => BookView {
            connections: b.connections.insert(id, record),
            ..b
        },
        BookStep::Count { id, upload, download } => BookView {
            connections: counted(b.connections, id, upload, download),
            ..b
        },
        BookStep::End { id, now, known } => BookView {
            connections: b.connections.remove(id),
            destinations: if b.connections.contains_key(id) {
                after_end(b.destinations, b.connections[id].tracker, now, known)
            } else {
                b.destinations
            },
        },
        BookStep::Drain => BookView { destinations: Map::empty(), ..b },
    }
}

/// Each destination stands under its own name.
pub open spec fn named_right(destinations: Map<Seq<char>, DestinationView>) -> bool {
    forall|name: Seq<char>| #[trigger]
        destinations.contains_key(name) ==> destinations[name].domain == name
}

/// The texts of the ids that satisfy a condition are what a list holds.
pub open spec fn exactly(list: Seq<Seq<char>>, p: spec_fn(Seq<char>) -> bool) -> bool {
    list.no_duplicates() && forall|id: Seq<char>| #[trigger] list.contains(id) <==> p(id)
}

/// Which connections are meant.
enum Which<'a> {
    All,
    /// Those through a way out.
    Through(&'a str),
    /// Those of a user.
    Of(&'a str),
}

/// The value of a choice of connections.
enum WhichView {
    All,
    Through(Seq<char>),
    Of(Seq<char>),
}

impl<'a> Which<'a> {
    spec fn view(&self) -> WhichView {
        match self {
            Which::All => WhichView::All,
            Which::Through(tag) => WhichView::Through(tag@),
            Which::Of(username) => WhichView::Of(username@),
        }
    }

    fn takes_it(&self, c: &ConnectionTracker) -> (r: bool)
        ensures
            r == self.view().takes(c@),
    {
        match self {
            Which::All => true,
            Which::Through(tag) => c.uses_outbound(tag),
            Which::Of(username) => match &c.user {
                Some(user) => str_eq(user.as_str(), username),
                None => false,
            },
        }
    }
}

impl WhichView {
    spec fn takes(self, c: ConnectionView) -> bool {
        match self {
            WhichView::All => true,
            WhichView::Through(tag) => c.uses(tag),
            WhichView::Of(username) => c.user == Some(username),
        }
    }
}

proof fn lemma_exactly_same(
    list: Seq<Seq<char>>,
    p: spec_fn(Seq<char>) -> bool,
    q: spec_fn(Seq<char>) -> bool,
)
    requires
        exactly(list, p),
        forall|id: Seq<char>| #[trigger] p(id) == q(id),
    ensures
        exactly(list, q),
{
    assert forall|id: Seq<char>| #[trigger] list.contains(id) <==> q(id) by {
        assert(p(id) == q(id));
    }
}

/// The values of a list of destinations.
pub open spec fn destination_views(list: Seq<DstTrafficEntry>) -> Seq<DestinationView> {
    list.map_values(|d: DstTrafficEntry| d@)
}

/// Whether a list holds the traffic of the destinations, each once and in the order of their names.
pub open spec fn lists(
    destinations: Map<Seq<char>, DestinationView>,
    list: Seq<DestinationView>,
) -> bool {
    &&& forall|i: int, j: int|
        0 <= i < j < list.len() ==> text_le(
            (#[trigger] list[i]).domain,
            (#[trigger] list[j]).domain,
        ) && list[i].domain != list[j].domain
    &&& forall|i: int|
        0 <= i < list.len() ==> destinations.contains_key((#[trigger] list[i]).domain) && list[i]
            == destinations[list[i].domain]
    &&& forall|name: Seq<char>| #[trigger]
        destinations.contains_key(name) ==> exists|i: int|
            0 <= i < list.len() && (#[trigger] list[i]).domain == name
}

impl ConnectionBook {
    /// The tables are in order.
    pub open spec fn wf(self) -> bool {
        &&& self.connections.wf()
        &&& self.dst_traffic.wf()
        &&& named_right(self@.destinations)
    }

    /// Empty books.
    pub fn new() -> (b: ConnectionBook)
        ensures
            b.wf(),
            b@.connections == Map::<Seq<char>, RecordView>::empty(),
            b@.destinations == Map::<Seq<char>, DestinationView>::empty(),
    {
        let b = ConnectionBook { connections: Table::new(), dst_traffic: Table::new() };
        assert(b@.connections =~= Map::<Seq<char>, RecordView>::empty());
        assert(b@.destinations =~= Map::<Seq<char>, DestinationView>::empty());
        b
    }

    /// Enters a connection under the text of its id; `known` is the host name that its address was
    /// resolved from.
    pub fn add_connection(
        &mut self,
        conn: ConnectionTracker,
        closable: bool,
        known: Option<&str>,
    ) -> (id: String)
        requires
            old(self).wf(),
        ensures
            final(self).wf(),
            id@ == id_text(conn.id),
            final(self)@ == book_step(
                old(self)@,
                (BookStep::Open {
                    id: id_text(conn.id),
                    record: RecordView {
                        tracker: ConnectionView {
                            domain: domain_for(conn@.final_target, opt_str(known)),
                            ..conn@
                        },
                        closable,
                    },
                }),
            ),
    {
        let id = text_of_id(conn.id);
        let domain = resolve_domain_for_target(&conn.final_target, known);
        let tracker = ConnectionTracker { domain, ..conn };
        let record = ConnectionRecord { tracker, closable };
        proof {
            lemma_views_insert(self.connections@, id@, record);
        }
        self.connections.insert(id.as_str(), record);
        id
    }

    /// Counts traffic of an open connection.
    pub fn count(&mut self, id: &str, upload: u64, download: u64)
        requires
            old(self).wf(),
        ensures
            final(self).wf(),
            final(self)@ == book_step(
                old(self)@,
                (BookStep::Count { id: id@, upload, download }),
            ),
    {
        match self.connections.remove(id) {
            None => {
                assert(self@.connections =~= old(self)@.connections);
            },
            Some(mut record) => {
                record.tracker.upload = record.tracker.upload.wrapping_add(upload);
                record.tracker.download = record.tracker.download.wrapping_add(download);
                proof {
                    lemma_views_replace(old(self).connections@, id@, record);
                }
                self.connections.insert(id, record);
            },
        }
    }

    /// Takes a connection off the books and adds its traffic to its destination's.
    pub fn remove_connection(&mut self, id: &str, now: u64, known: Option<&str>)
        requires
            old(self).wf(),
        ensures
            final(self).wf(),
            final(self)@ == book_step(
                old(self)@,
                (BookStep::End { id: id@, now, known: opt_str(known) }),
            ),
    {
        proof {
            lemma_views_remove(self.connections@, id@);
        }
        let record = match self.connections.remove(id) {
            None => {
                return;
            },
            Some(record) => record,
        };
        let conn = record.tracker;
        if conn.upload == 0 && conn.download == 0 {
            return;
        }
        let ghost share = share_of(conn@, now, opt_str(known));
        let outbound_tag = if conn.outbound_tag.len() > 0 {
            copy_text(conn.outbound_tag[0].as_str())
        } else {
            String::new()
        };
        let domain = match conn.domain {
            Some(domain) => domain,
            None => match resolve_domain_for_target(&conn.final_target, known) {
                Some(domain) => domain,
                None => conn.final_target.to_text(),
            },
        };
        let ip = match &conn.final_target {
            TargetAddr::Ip(addr) => {
                let mut ip = String::new();
                push_socket_addr(&mut ip, *addr);
                ip
            },
            TargetAddr::Domain(_, _) => String::new(),
        };
        assert(outbound_tag@ =~= share.outbound_tag);
        assert(domain@ == share.domain);
        assert(ip@ =~= share.ip);
        let ghost before = self.dst_traffic@;
        let entry = match self.dst_traffic.remove(domain.as_str()) {
            None => DstTrafficEntry {
                domain: copy_text(domain.as_str()),
                ip,
                outbound_tag,
                upload: conn.upload,
                download: conn.download,
                last_active: now,
            },
            Some(found) => {
                assert(views(before)[domain@] == found@);
                DstTrafficEntry {
                    ip: if !ip.as_str().is_empty() {
                        ip
                    } else {
                        found.ip
                    },
                    outbound_tag: if !outbound_tag.as_str().is_empty() {
                        outbound_tag
                    } else {
                        found.outbound_tag
                    },
                    domain: found.domain,
                    upload: found.upload.saturating_add(conn.upload),
                    download: found.download.saturating_add(conn.download),
                    last_active: now,
                }
            },
        };
        proof {
            lemma_views_replace(before, domain@, entry);
            let d = views(before);
            assert(d.contains_key(domain@) ==> d[domain@].domain == domain@);
            assert(entry@ =~= if d.contains_key(domain@) {
                with_share(d[domain@], share)
            } else {
                share
            });
        }
        self.dst_traffic.insert(domain.as_str(), entry);
        proof {
            assert forall|name: Seq<char>| #[trigger]
                self@.destinations.contains_key(name) implies self@.destinations[name].domain
                == name by {
                if name != domain@ {
                    assert(views(before).contains_key(name));
                }
            }
        }
    }

    /// The connection that has to be closed because a caller asked for it by its id.
    pub fn kill_connection(&self, id: &str) -> (r: Option<String>)
        requires
            self.wf(),
        ensures
            match r {
                Some(text) => uuid_of(id@) matches Some(n) && text@ == id_text(n) && can_close(
                    self@.connections,
                    text@,
                ),
                None => uuid_of(id@) matches Some(n) ==> !can_close(self@.connections, id_text(n)),
            },
            forall|n: u128|
                id@ == #[trigger] id_text(n) && can_close(self@.connections, id@) ==> (r matches Some(
                    text,
                ) && text@ == id@),
    {
        self.close_request(parse_uuid(id))
    }

    /// The connection that has to be closed on a request for an id, where it is one.
    pub fn close_request(&self, id: Option<u128>) -> (r: Option<String>)
        requires
            self.wf(),
        ensures
            match r {
                Some(text) => id matches Some(n) && text@ == id_text(n) && can_close(
                    self@.connections,
                    text@,
                ),
                None => id matches Some(n) ==> !can_close(self@.connections, id_text(n)),
            },
    {
        let id: u128 = match id {
            None => {
                return None;
            },
            Some(id) => id,
        };
        let text = text_of_id(id);
        match self.connections.get(text.as_str()) {
            Some(record) => {
                if record.closable {
                    Some(text)
                } else {
                    None
                }
            },
            None => None,
        }
    }

    fn closable_where(&self, which: &Which) -> (ids: Vec<String>)
        requires
            self.wf(),
        ensures
            exactly(
                texts(ids@),
                |id: Seq<char>|
                    can_close(self@.connections, id) && which@.takes(self@.connections[id].tracker),
            ),
    {
        let ghost all = self.connections.names();
        let ghost p = |id: Seq<char>|
            can_close(self@.connections, id) && which@.takes(self@.connections[id].tracker);
        let mut ids: Vec<String> = Vec::new();
        let mut i: usize = 0;
        proof {
            lemma_names(self.connections);
        }
        while i < self.connections.len()
            invariant
                self.wf(),
                all == self.connections.names(),
                all.no_duplicates(),
                i <= all.len(),
                p == (|id: Seq<char>|
                    can_close(self@.connections, id) && which@.takes(self@.connections[id].tracker)),
                picked_so_far(texts(ids@), all, i as int, p),
            decreases all.len() - i,
        {
            let (id, record) = self.connections.row(i);
            let ghost before = texts(ids@);
            assert(self@.connections[id@] == record@);
            if record.closable && which.takes_it(&record.tracker) {
                ids.push(copy_text(id));
                assert(texts(ids@) =~= before.push(id@));
            }
            proof {
                assert(self@.connections.contains_key(id@));
                lemma_pick(before, all, i as int, p);
            }
            i += 1;
        }
        proof {
            lemma_picked(texts(ids@), self.connections, p);
        }
        ids
    }

    /// The connections that have to be closed when all of them are.
    pub fn kill_all_connections(&self) -> (ids: Vec<String>)
        requires
            self.wf(),
        ensures
            exactly(texts(ids@), |id: Seq<char>| can_close(self@.connections, id)),
    {
        let ids = self.closable_where(&Which::All);
        proof {
            lemma_exactly_same(
                texts(ids@),
                |id: Seq<char>|
                    can_close(self@.connections, id) && WhichView::All.takes(
                        self@.connections[id].tracker,
                    ),
                |id: Seq<char>| can_close(self@.connections, id),
            );
        }
        ids
    }

    /// The connections that have to be closed because a way out changed.
    pub fn kill_connections_by_outbound(&self, tag: &str) -> (ids: Vec<String>)
        requires
            self.wf(),
        ensures
            exactly(
                texts(ids@),
                |id: Seq<char>|
                    can_close(self@.connections, id) && self@.connections[id].tracker.uses(tag@),
            ),
    {
        let ids = self.closable_where(&Which::Through(tag));
        proof {
            lemma_exactly_same(
                texts(ids@),
                |id: Seq<char>|
                    can_close(self@.connections, id) && WhichView::Through(tag@).takes(
                        self@.connections[id].tracker,
                    ),
                |id: Seq<char>|
                    can_close(self@.connections, id) && self@.connections[id].tracker.uses(tag@),
            );
        }
        ids
    }

    /// The connections that have to be closed because their user is gone.
    pub fn kill_connections_by_user(&self, username: &str) -> (ids: Vec<String>)
        requires
            self.wf(),
        ensures
            exactly(
                texts(ids@),
                |id: Seq<char>|
                    can_close(self@.connections, id) && self@.connections[id].tracker.user == Some(
                        username@,
                    ),
            ),
    {
        let ids = self.closable_where(&Which::Of(username));
        proof {
            lemma_exactly_same(
                texts(ids@),
                |id: Seq<char>|
                    can_close(self@.connections, id) && WhichView::Of(username@).takes(
                        self@.connections[id].tracker,
                    ),
                |id: Seq<char>|
                    can_close(self@.connections, id) && self@.connections[id].tracker.user == Some(
                        username@,
                    ),
            );
        }
        ids
    }

    /// The open connections.
    pub fn get_all_connections(&self) -> (list: Vec<ConnectionTracker>)
        requires
            self.wf(),
        ensures
            list@.len() == self.connections.names().len(),
            forall|i: int|
                0 <= i < list@.len() ==> (#[trigger] list@[i])@
                    == self@.connections[self.connections.names()[i]].tracker,
    {
        let mut list: Vec<ConnectionTracker> = Vec::new();
        let mut i: usize = 0;
        while i < self.connections.len()
            invariant
                self.wf(),
                i <= self.connections.names().len(),
                list@.len() == i,
                forall|k: int|
                    0 <= k < i ==> (#[trigger] list@[k])@
                        == self@.connections[self.connections.names()[k]].tracker,
            decreases self.connections.names().len() - i,
        {
            let (id, record) = self.connections.row(i);
            assert(self@.connections[id@] == record@);
            list.push(record.tracker.copy());
            i += 1;
        }
        list
    }

    /// Takes the traffic of all destinations out, in the order of their names.
    pub fn drain_dst_traffic(&mut self) -> (list: Vec<DstTrafficEntry>)
        requires
            old(self).wf(),
        ensures
            final(self).wf(),
            final(self)@ == book_step(old(self)@, BookStep::Drain),
            lists(old(self)@.destinations, destination_views(list@)),
    {
        let ghost all = self.dst_traffic.names();
        let ghost was = self@.destinations;
        let mut names: Vec<String> = Vec::new();
        let mut i: usize = 0;
        assert(texts(names@) =~= all.take(0));
        while i < self.dst_traffic.len()
            invariant
                self.wf(),
                *self == *old(self),
                all == self.dst_traffic.names(),
                i <= all.len(),
                texts(names@) == all.take(i as int),
            decreases all.len() - i,
        {
            let (name, _) = self.dst_traffic.row(i);
            let ghost before = texts(names@);
            names.push(copy_text(name));
            i += 1;
            assert(texts(names@) =~= before.push(name@));
            assert(all.take(i as int) =~= all.take(i - 1).push(all[i - 1]));
        }
        assert(all.take(i as int) =~= all);
        let names = sort_texts(&names);
        let ghost ordered = texts(names@);
        proof {
            lemma_names(self.dst_traffic);
            crate::utils::sort::lemma_same_members(all, ordered);
            assert forall|n: Seq<char>| #[trigger] was.contains_key(n) <==> ordered.contains(n) by {
                assert(self.dst_traffic@.contains_key(n) <==> all.contains(n));
            }
        }
        let mut list: Vec<DstTrafficEntry> = Vec::new();
        let mut k: usize = 0;
        proof {
            assert(ordered.skip(0) =~= ordered);
            assert(domains_of(list@) =~= ordered.take(0));
        }
        while k < names.len()
            invariant
                k <= names@.len(),
                ordered == texts(names@),
                ordered.no_duplicates(),
                self.dst_traffic.wf(),
                self.connections == old(self).connections,
                named_right(was),
                forall|n: Seq<char>| #[trigger] was.contains_key(n) <==> ordered.contains(n),
                forall|n: Seq<char>| #[trigger]
                    self.dst_traffic@.contains_key(n) <==> ordered.skip(k as int).contains(n),
                forall|n: Seq<char>| #[trigger]
                    self.dst_traffic@.contains_key(n) ==> self.dst_traffic@[n]@ == was[n],
                list@.len() == k,
                domains_of(list@) == ordered.take(k as int),
                forall|j: int|
                    0 <= j < k ==> (#[trigger] list@[j])@ == was[list@[j].domain@],
            decreases names@.len() - k,
        {
            let ghost name = ordered[k as int];
            let ghost before = self.dst_traffic@;
            let ghost rest = ordered.skip(k as int);
            assert(rest[0] == name);
            assert(rest.contains(name));
            let taken = self.dst_traffic.remove(names[k].as_str());
            proof {
                assert(before.contains_key(name));
                assert(was.contains_key(name)) by {
                    assert(ordered.contains(name));
                }
                assert forall|n: Seq<char>| #[trigger]
                    self.dst_traffic@.contains_key(n) <==> ordered.skip(k + 1).contains(n) by {
                    let later = ordered.skip(k + 1);
                    if later.contains(n) {
                        let j = choose|j: int| 0 <= j < later.len() && later[j] == n;
                        assert(rest[j + 1] == n);
                        assert(ordered[k + 1 + j] == n);
                        assert(before.contains_key(n));
                    }
                    if self.dst_traffic@.contains_key(n) {
                        assert(before.contains_key(n));
                        let j = choose|j: int| 0 <= j < rest.len() && rest[j] == n;
                        assert(later[j - 1] == n);
                    }
                }
            }
            if let Some(entry) = taken {
                list.push(entry);
            }
            proof {
                assert(list@.last()@ == was[name]);
                assert(domains_of(list@) =~= ordered.take(k + 1));
            }
            k += 1;
        }
        proof {
            assert(ordered.take(k as int) =~= ordered);
            assert forall|n: Seq<char>| !self.dst_traffic@.contains_key(n) by {
                assert(ordered.skip(k as int).len() == 0);
            }
            assert(self@.destinations =~= Map::empty());
            let out = destination_views(list@);
            assert forall|i: int| 0 <= i < out.len() implies was.contains_key(
                (#[trigger] out[i]).domain,
            ) && out[i] == was[out[i].domain] && out[i].domain == ordered[i] by {
                assert(domains_of(list@)[i] == ordered[i]);
                assert(ordered.contains(ordered[i]));
            }
            assert forall|name: Seq<char>| #[trigger] was.contains_key(name) implies exists|i: int|
                0 <= i < out.len() && (#[trigger] out[i]).domain == name by {
                let i = choose|i: int| 0 <= i < ordered.len() && ordered[i] == name;
                assert(out[i].domain == name);
            }
        }
        list
    }
}

/// The names of a list of destinations.
pub open spec fn domains_of(list: Seq<DstTrafficEntry>) -> Seq<Seq<char>> {
    list.map_values(|d: DstTrafficEntry| d.domain@)
}

/// The connections with that much more traffic of one of them.
pub open spec fn counted(
    connections: Map<Seq<char>, RecordView>,
    id: Seq<char>,
    upload: u64,
    download: u64,
) -> Map<Seq<char>, RecordView> {
    if connections.contains_key(id) {
        connections.insert(
            id,
            RecordView { tracker: connections[id].tracker.plus(upload, download), ..connections[id] },
        )
    } else {
        connections
    }
}

/// Whether there is a connection of that id that can be closed from outside.
pub open spec fn can_close(connections: Map<Seq<char>, RecordView>, id: Seq<char>) -> bool {
    connections.contains_key(id) && connections[id].closable
}

/// The names among the first `n` that satisfy a condition, each once.
pub open spec fn picked_so_far(
    list: Seq<Seq<char>>,
    names: Seq<Seq<char>>,
    n: int,
    p: spec_fn(Seq<char>) -> bool,
) -> bool {
    &&& list.no_duplicates()
    &&& forall|id: Seq<char>| #[trigger]
        list.contains(id) <==> names.take(n).contains(id) && p(id)
}

/// Going one name further.
pub proof fn lemma_pick(
    list: Seq<Seq<char>>,
    names: Seq<Seq<char>>,
    n: int,
    p: spec_fn(Seq<char>) -> bool,
)
    requires
        0 <= n < names.len(),
        names.no_duplicates(),
        picked_so_far(list, names, n, p),
    ensures
        picked_so_far(
            if p(names[n]) {
                list.push(names[n])
            } else {
                list
            },
            names,
            n + 1,
            p,
        ),
{
    let next = if p(names[n]) {
        list.push(names[n])
    } else {
        list
    };
    assert(!names.take(n).contains(names[n]));
    assert(!list.contains(names[n]));
    assert(names.take(n + 1) =~= names.take(n).push(names[n]));
    assert forall|id: Seq<char>| #[trigger] next.contains(id) <==> names.take(n + 1).contains(id)
        && p(id) by {
        if list.contains(id) {
            let k = choose|k: int| 0 <= k < list.len() && list[k] == id;
            if p(names[n]) {
                assert(next[k] == id);
            }
            let j = choose|j: int| 0 <= j < names.take(n).len() && names.take(n)[j] == id;
            assert(names.take(n + 1)[j] == id);
        }
        if names.take(n + 1).contains(id) && p(id) {
            let more = names.take(n + 1);
            let j = choose|j: int| 0 <= j < more.len() && more[j] == id;
            if j < n {
                assert(names.take(n)[j] == id);
                assert(list.contains(id));
            } else {
                assert(next.last() == id);
                assert(next[next.len() - 1] == id);
            }
        }
        if next.contains(id) && !list.contains(id) {
            assert(id == names[n]);
            assert(names.take(n + 1)[n] == id);
        }
    }
}

/// Once every name has been looked at.
pub proof fn lemma_picked<V>(
    list: Seq<Seq<char>>,
    table: Table<V>,
    p: spec_fn(Seq<char>) -> bool,
)
    requires
        table.wf(),
        picked_so_far(list, table.names(), table.names().len() as int, p),
        forall|id: Seq<char>| #[trigger] p(id) ==> table@.contains_key(id),
    ensures
        exactly(list, p),
{
    lemma_names(table);
    assert(table.names().take(table.names().len() as int) =~= table.names());
    assert forall|id: Seq<char>| #[trigger] list.contains(id) <==> p(id) by {
        if p(id) {
            assert(table.names().contains(id));
        }
    }
}

/// The bytes that a destination has on its books.
pub open spec fn uploaded(destinations: Map<Seq<char>, DestinationView>, name: Seq<char>) -> int {
    if destinations.contains_key(name) {
        destinations[name].upload as int
    } else {
        0
    }
}

/// The bytes that came from a destination.
pub open spec fn downloaded(destinations: Map<Seq<char>, DestinationView>, name: Seq<char>) -> int {
    if destinations.contains_key(name) {
        destinations[name].download as int
    } else {
        0
    }
}

/// A connection that ends hands all its traffic to its destination, and nothing to any other; what
/// was there before stays counted.
pub proof fn law_aggregation_is_lossless(
    destinations: Map<Seq<char>, DestinationView>,
    c: ConnectionView,
    now: u64,
    known: Option<Seq<char>>,
)
    requires
        ({
            let name = share_of(c, now, known).domain;
            &&& uploaded(destinations, name) + c.upload <= u64::MAX
            &&& downloaded(destinations, name) + c.download <= u64::MAX
        }),
    ensures
        ({
            let name = share_of(c, now, known).domain;
            let after = after_end(destinations, c, now, known);
            &&& uploaded(after, name) == uploaded(destinations, name) + c.upload
            &&& downloaded(after, name) == downloaded(destinations, name) + c.download
            &&& forall|other: Seq<char>|
                other != name ==> #[trigger] uploaded(after, other) == uploaded(destinations, other)
                    && downloaded(after, other) == downloaded(destinations, other)
        }),
{
}

/// Every destination keeps standing under its own name when a connection ends.
pub proof fn law_destinations_keep_their_names(
    destinations: Map<Seq<char>, DestinationView>,
    c: ConnectionView,
    now: u64,
    known: Option<Seq<char>>,
)
    requires
        named_right(destinations),
    ensures
        named_right(after_end(destinations, c, now, known)),
{
    let after = after_end(destinations, c, now, known);
    assert forall|name: Seq<char>| #[trigger] after.contains_key(name) implies after[name].domain
        == name by {
        if name != share_of(c, now, known).domain {
            assert(destinations.contains_key(name));
        }
    }
}

/// A connection is booked under the name it was made for. Where there is none, the name that
/// its address is known by counts, with the port, and where there is no such name, the address
/// itself.
pub proof fn law_where_a_connection_is_booked(
    c: ConnectionView,
    now: u64,
    name: Seq<char>,
    known: Option<Seq<char>>,
)
    ensures
        c.domain matches Some(domain) ==> share_of(c, now, known).domain == domain,
        c.domain is None ==> share_of(c, now, None).domain == c.final_target.text(),
        c.domain is None ==> (c.final_target matches TargetView::Ip(addr) ==> (trim(name).len() > 0
            ==> share_of(c, now, Some(name)).domain == host_port_text(trim(name), addr.port))),
        c.domain is None ==> (c.final_target matches TargetView::Ip(addr) ==> (trim(name).len() == 0
            ==> share_of(c, now, Some(name)).domain == c.final_target.text())),
        c.domain is None && c.final_target is Domain ==> share_of(c, now, known).domain
            == c.final_target.text(),
        c.final_target matches TargetView::Ip(addr) ==> share_of(c, now, known).ip
            == socket_addr_text(addr),
        c.final_target is Domain ==> share_of(c, now, known).ip.len() == 0,
        c.outbound_tag.len() > 0 ==> share_of(c, now, known).outbound_tag == c.outbound_tag[0],
        c.outbound_tag.len() == 0 ==> share_of(c, now, known).outbound_tag.len() == 0,
        share_of(c, now, known).upload == c.upload,
        share_of(c, now, known).download == c.download,
        share_of(c, now, known).last_active == now,
{
}

/// A share adds its traffic to what its destination had, up to the largest number, and says
/// when the destination was last used. It brings its address and its way where it has them.
pub proof fn law_shares_add_up(
    destinations: Map<Seq<char>, DestinationView>,
    share: DestinationView,
)
    ensures
        ({
            let after = booked(destinations, share);
            let now = after[share.domain];
            &&& after.contains_key(share.domain)
            &&& forall|other: Seq<char>|
                other != share.domain ==> #[trigger] after.contains_key(other)
                    == destinations.contains_key(other) && (destinations.contains_key(other)
                    ==> after[other] == destinations[other])
            &&& !destinations.contains_key(share.domain) ==> now == share
            &&& destinations.contains_key(share.domain) ==> ({
                let was = destinations[share.domain];
                &&& was.upload + share.upload <= u64::MAX ==> now.upload == was.upload + share.upload
                &&& was.upload + share.upload > u64::MAX ==> now.upload == u64::MAX
                &&& was.download + share.download <= u64::MAX ==> now.download == was.download
                    + share.download
                &&& was.download + share.download > u64::MAX ==> now.download == u64::MAX
                &&& now.last_active == share.last_active
                &&& now.domain == was.domain
                &&& share.ip.len() > 0 ==> now.ip == share.ip
                &&& share.ip.len() == 0 ==> now.ip == was.ip
                &&& share.outbound_tag.len() > 0 ==> now.outbound_tag == share.outbound_tag
                &&& share.outbound_tag.len() == 0 ==> now.outbound_tag == was.outbound_tag
            })
        }),
{
}

/// Traffic is counted on the connection it belongs to and on no other, and opening, counting
/// and draining leave the other half of the books alone. An ended connection is taken off.
pub proof fn law_steps_of_the_books(
    b: BookView,
    id: Seq<char>,
    record: RecordView,
    upload: u64,
    download: u64,
    now: u64,
    known: Option<Seq<char>>,
)
    ensures
        book_step(b, BookStep::Open { id, record }) == (BookView {
            connections: b.connections.insert(id, record),
            destinations: b.destinations,
        }),
        ({
            let after = book_step(b, BookStep::Count { id, upload, download });
            &&& after.destinations == b.destinations
            &&& after.connections.dom() == b.connections.dom()
            &&& forall|other: Seq<char>|
                other != id && #[trigger] b.connections.contains_key(other)
                    ==> after.connections[other] == b.connections[other]
            &&& b.connections.contains_key(id) ==> ({
                let was = b.connections[id];
                let is = after.connections[id];
                &&& is.closable == was.closable
                &&& is.tracker == (ConnectionView {
                    upload: is.tracker.upload,
                    download: is.tracker.download,
                    ..was.tracker
                })
                &&& was.tracker.upload + upload <= u64::MAX ==> is.tracker.upload
                    == was.tracker.upload + upload
                &&& was.tracker.download + download <= u64::MAX ==> is.tracker.download
                    == was.tracker.download + download
            })
        }),
        ({
            let after = book_step(b, BookStep::End { id, now, known });
            &&& after.connections == b.connections.remove(id)
            &&& b.connections.contains_key(id) && (b.connections[id].tracker.upload > 0
                || b.connections[id].tracker.download > 0) ==> after.destinations.contains_key(
                share_of(b.connections[id].tracker, now, known).domain,
            )
            &&& !b.connections.contains_key(id) || (b.connections[id].tracker.upload == 0
                && b.connections[id].tracker.download == 0) ==> after.destinations == b.destinations
        }),
        book_step(b, BookStep::Drain) == (BookView {
            connections: b.connections,
            destinations: Map::empty(),
        }),
{
    let after = book_step(b, BookStep::Count { id, upload, download });
    assert(after.connections.dom() =~= b.connections.dom());
}

/// A connection goes through every outbound of its list, and only listed connections that a
/// signal reaches can be closed.
pub proof fn law_which_connections(
    connections: Map<Seq<char>, RecordView>,
    c: ConnectionView,
    tag: Seq<char>,
    id: Seq<char>,
)
    ensures
        c.uses(tag) <==> exists|i: int|
            0 <= i < c.outbound_tag.len() && #[trigger] c.outbound_tag[i] == tag,
        can_close(connections, id) <==> connections.contains_key(id) && connections[id].closable,
{
}

} // verus!
