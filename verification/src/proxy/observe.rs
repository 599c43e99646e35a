//! The observer: counters of servers, ways out and users, and the books on connections.

use crate::config::{opt_str, texts, AuthUser, AuthUserView, ObserveConfig};
use crate::proxy::connections::{counted, BookView, ConnectionBook};
use crate::proxy::credentials::{
    credential_hash, credential_of, shows, without_user, CredentialStore,
};
use crate::proxy::stats::{
    new_node, NodeStats, NodeView, OutboundTraceInfo, PathState, Stats, TraceView, TrafficSnapshot,
};
use crate::text::{copy_text, str_eq};
use crate::time::Duration;
use crate::utils::table::{
    lemma_names, lemma_views_insert, lemma_views_remove, lemma_views_replace, views, Table,
};
use vstd::prelude::*;

verus! {

/// A user who is let in, with their counters.
#[derive(Debug)]
pub struct UserAccount {
    pub username: String,
    pub stats: Stats,
}

/// A user as stored between runs. The password is empty where the configuration has it.
#[derive(Debug)]
pub struct PersistedUser {
    pub username: String,
    pub password: String,
    pub upload: u64,
    pub download: u64,
    pub total_tcp: u64,
    pub total_udp: u64,
}

/// The value of a stored user.
#[verifier::ext_equal]
pub struct PersistedView {
    pub username: Seq<char>,
    pub password: Seq<char>,
    pub traffic: TrafficSnapshot,
}

impl View for PersistedUser {
    type V = PersistedView;

    open spec fn view(&self) -> PersistedView {
        PersistedView {
            username: self.username@,
            password: self.password@,
            traffic: TrafficSnapshot {
                upload: self.upload,
                download: self.download,
                total_tcp: self.total_tcp,
                total_udp: self.total_udp,
            },
        }
    }
}

/// A user's counters as reported.
#[derive(Debug)]
pub struct UserStats {
    pub username: String,
    pub upload: u64,
    pub download: u64,
    pub tcp_conns: u64,
    pub udp_conns: u64,
    pub total_tcp: u64,
    pub total_udp: u64,
}

/// The value of a user's report.
#[verifier::ext_equal]
pub struct UserReport {
    pub username: Seq<char>,
    pub traffic: TrafficSnapshot,
    pub tcp_conns: u64,
    pub udp_conns: u64,
}

impl View for UserStats {
    type V = UserReport;

    open spec fn view(&self) -> UserReport {
        UserReport {
            username: self.username@,
            traffic: TrafficSnapshot {
                upload: self.upload,
                download: self.download,
                total_tcp: self.total_tcp,
                total_udp: self.total_udp,
            },
            tcp_conns: self.tcp_conns,
            udp_conns: self.udp_conns,
        }
    }
}

/// What is reported of a user.
pub open spec fn report(username: Seq<char>, s: Stats) -> UserReport {
    UserReport {
        username,
        traffic: s.snapshot(),
        tcp_conns: s.active_tcp_conns,
        udp_conns: s.active_udp_conns,
    }
}

/// Memory in use, as sampled: the sum and the number of the samples, and the largest of them.
#[derive(Debug, Clone, Copy, PartialEq, Eq, Structural)]
pub struct MemStats {
    pub total: u64,
    pub samples: u64,
    pub peak: u64,
}

impl MemStats {
    /// With one more sample.
    pub open spec fn plus(self, current: u64) -> MemStats {
        MemStats {
            total: crate::proxy::connections::capped_sum(self.total, current),
            samples: crate::proxy::connections::capped_sum(self.samples, 1),
            peak: if current > self.peak {
                current
            } else {
                self.peak
            },
        }
    }
}

/// Everything that is counted.
pub struct Observer {
    pub inbounds: Table<NodeStats>,
    pub outbounds: Table<NodeStats>,
    pub user_stats: Table<Stats>,
    pub user_creds: CredentialStore,
    pub user_passwords: Table<String>,
    pub global_stats: Stats,
    pub book: ConnectionBook,
    pub mem_stats: MemStats,
}

/// The value of everything that is counted.
#[verifier::ext_equal]
pub struct ObserverView {
    pub inbounds: Map<Seq<char>, NodeView>,
    pub outbounds: Map<Seq<char>, NodeView>,
    pub users: Map<Seq<char>, Stats>,
    pub creds: Map<(Seq<char>, Seq<char>), Seq<u8>>,
    pub passwords: Map<Seq<char>, Seq<char>>,
    pub global: Stats,
    pub book: BookView,
    pub memory: MemStats,
}

impl View for Observer {
    type V = ObserverView;

    open spec fn view(&self) -> ObserverView {
        ObserverView {
            inbounds: views(self.inbounds@),
            outbounds: views(self.outbounds@),
            users: self.user_stats@,
            creds: self.user_creds@,
            passwords: views(self.user_passwords@),
            global: self.global_stats,
            book: self.book@,
            memory: self.mem_stats,
        }
    }
}

/// Whether a list names every node once, with what is counted of it.
pub open spec fn lists_nodes(list: Seq<(&str, &NodeStats)>, nodes: Map<Seq<char>, NodeView>) -> bool {
    &&& forall|i: int|
        0 <= i < list.len() ==> nodes.contains_key((#[trigger] list[i]).0@) && nodes[list[i].0@]
            == list[i].1@
    &&& forall|i: int, j: int|
        0 <= i < j < list.len() ==> (#[trigger] list[i]).0@ != (#[trigger] list[j]).0@
    &&& forall|tag: Seq<char>| #[trigger]
        nodes.contains_key(tag) ==> exists|i: int| 0 <= i < list.len() && (#[trigger] list[i]).0@ == tag
}

fn nodes_of(nodes: &Table<NodeStats>) -> (list: Vec<(&str, &NodeStats)>)
    requires
        nodes.wf(),
    ensures
        lists_nodes(list@, views(nodes@)),
{
    let mut list: Vec<(&str, &NodeStats)> = Vec::new();
    let mut i: usize = 0;
    while i < nodes.len()
        invariant
            nodes.wf(),
            i <= nodes.names().len(),
            list@.len() == i,
            forall|k: int|
                0 <= k < i ==> (#[trigger] list@[k]).0@ == nodes.names()[k]
                    && nodes@.contains_key(list@[k].0@) && nodes@[list@[k].0@] == *list@[k].1,
        decreases nodes.names().len() - i,
    {
        list.push(nodes.row(i));
        i += 1;
    }
    proof {
        lemma_names(*nodes);
        assert forall|k: int, j: int| 0 <= k < j < list@.len() implies (#[trigger] list@[k]).0@ != (
        #[trigger] list@[j]).0@ by {
            assert(nodes.names()[k] != nodes.names()[j]);
        }
        assert forall|tag: Seq<char>| #[trigger] views(nodes@).contains_key(tag) implies exists|k: int|
            0 <= k < list@.len() && (#[trigger] list@[k]).0@ == tag by {
            assert(nodes@.contains_key(tag));
            let k = choose|k: int| 0 <= k < nodes.names().len() && nodes.names()[k] == tag;
            assert(list@[k].0@ == tag);
        }
    }
    list
}

/// The nodes with one node's counters set.
pub open spec fn with_stats(
    nodes: Map<Seq<char>, NodeView>,
    tag: Seq<char>,
    stats: Stats,
) -> Map<Seq<char>, NodeView> {
    if nodes.contains_key(tag) {
        nodes.insert(tag, NodeView { stats, ..nodes[tag] })
    } else {
        nodes
    }
}

/// The nodes with that much more traffic of one of them.
pub open spec fn node_traffic(
    nodes: Map<Seq<char>, NodeView>,
    tag: Seq<char>,
    upload: u64,
    download: u64,
) -> Map<Seq<char>, NodeView> {
    with_stats(nodes, tag, nodes[tag].stats.plus(upload, download))
}

/// The nodes with one more.
pub open spec fn registered(
    nodes: Map<Seq<char>, NodeView>,
    tag: Seq<char>,
    protocol: Seq<char>,
) -> Map<Seq<char>, NodeView> {
    if nodes.contains_key(tag) {
        nodes
    } else {
        nodes.insert(tag, new_node(tag, protocol))
    }
}

fn stats_of(nodes: &Table<NodeStats>, tag: &str) -> (r: Option<Stats>)
    requires
        nodes.wf(),
    ensures
        match r {
            Some(s) => views(nodes@).contains_key(tag@) && views(nodes@)[tag@].stats == s,
            None => !views(nodes@).contains_key(tag@),
        },
{
    match nodes.get(tag) {
        Some(node) => Some(node.stats),
        None => None,
    }
}

fn put_stats(nodes: &mut Table<NodeStats>, tag: &str, stats: Stats)
    requires
        old(nodes).wf(),
    ensures
        final(nodes).wf(),
        views(final(nodes)@) == with_stats(views(old(nodes)@), tag@, stats),
{
    match nodes.remove(tag) {
        None => {
            assert(old(nodes)@.remove(tag@) =~= old(nodes)@);
        },
        Some(mut node) => {
            node.stats = stats;
            proof {
                lemma_views_replace(old(nodes)@, tag@, node);
            }
            nodes.insert(tag, node);
        },
    }
}

fn add_node_traffic(nodes: &mut Table<NodeStats>, tag: &str, upload: u64, download: u64)
    requires
        old(nodes).wf(),
    ensures
        final(nodes).wf(),
        views(final(nodes)@) == node_traffic(views(old(nodes)@), tag@, upload, download),
{
    if let Some(mut stats) = stats_of(nodes, tag) {
        stats.add_traffic(upload, download);
        put_stats(nodes, tag, stats);
    }
}

fn register_node(nodes: &mut Table<NodeStats>, tag: &str, protocol: &str)
    requires
        old(nodes).wf(),
    ensures
        final(nodes).wf(),
        views(final(nodes)@) == registered(views(old(nodes)@), tag@, protocol@),
{
    if !nodes.contains(tag) {
        let node = NodeStats::new(tag, protocol);
        proof {
            lemma_views_insert(nodes@, tag@, node);
        }
        nodes.insert(tag, node);
    }
}

/// The counters of a user, zero for a new one.
pub open spec fn known_or_new(users: Map<Seq<char>, Stats>, username: Seq<char>) -> Stats {
    if users.contains_key(username) {
        users[username]
    } else {
        Stats::zero()
    }
}

/// The credentials with those of a user at every server that has users.
pub open spec fn with_user(
    creds: Map<(Seq<char>, Seq<char>), Seq<u8>>,
    servers: Map<Seq<char>, NodeView>,
    username: Seq<char>,
    password: Seq<char>,
) -> Map<(Seq<char>, Seq<char>), Seq<u8>> {
    Map::new(
        |k: (Seq<char>, Seq<char>)|
            creds.contains_key(k) || gets_credential(servers, k, username, password),
        |k: (Seq<char>, Seq<char>)|
            if gets_credential(servers, k, username, password) {
                credential_of(servers[k.0].protocol, username, password)->Ok_0
            } else {
                creds[k]
            },
    )
}

/// Whether an entry is that of a user at a server that has users.
pub open spec fn gets_credential(
    servers: Map<Seq<char>, NodeView>,
    k: (Seq<char>, Seq<char>),
    username: Seq<char>,
    password: Seq<char>,
) -> bool {
    k.1 == username && servers.contains_key(k.0) && credential_of(
        servers[k.0].protocol,
        username,
        password,
    ) is Ok
}

/// Whether a report on one user or on all asks for that user.
pub open spec fn asked_for(filter: Option<Seq<char>>, username: Seq<char>) -> bool {
    match filter {
        Some(name) => name == username,
        None => true,
    }
}

/// The reports on the users that are asked for, in the order of `names`.
pub open spec fn reports(
    names: Seq<Seq<char>>,
    users: Map<Seq<char>, Stats>,
    filter: Option<Seq<char>>,
) -> Seq<UserReport>
    decreases names.len(),
{
    if names.len() == 0 {
        Seq::empty()
    } else {
        let rest = reports(names.drop_last(), users, filter);
        if asked_for(filter, names.last()) {
            rest.push(report(names.last(), users[names.last()]))
        } else {
            rest
        }
    }
}

/// The users once the counters of those that are asked for have been taken.
pub open spec fn taken(
    users: Map<Seq<char>, Stats>,
    filter: Option<Seq<char>>,
) -> Map<Seq<char>, Stats> {
    Map::new(
        |name: Seq<char>| users.contains_key(name),
        |name: Seq<char>|
            if asked_for(filter, name) {
                users[name].without_traffic()
            } else {
                users[name]
            },
    )
}

/// The values of a list of reports.
pub open spec fn report_views(list: Seq<UserStats>) -> Seq<UserReport> {
    list.map_values(|r: UserStats| r@)
}

/// What is stored of a user.
pub open spec fn persisted(o: ObserverView, username: Seq<char>) -> PersistedView {
    PersistedView {
        username,
        password: if o.passwords.contains_key(username) {
            o.passwords[username]
        } else {
            Seq::empty()
        },
        traffic: o.users[username].snapshot(),
    }
}

/// The users and passwords once a stored user has been read back.
pub open spec fn loaded(o: ObserverView, p: PersistedView) -> ObserverView {
    ObserverView {
        users: o.users.insert(
            p.username,
            known_or_new(o.users, p.username).with_traffic(p.traffic),
        ),
        passwords: if p.password.len() > 0 {
            o.passwords.insert(p.username, p.password)
        } else {
            o.passwords
        },
        ..o
    }
}

/// The users and passwords once stored users have been read back, one after the other.
pub open spec fn loaded_all(o: ObserverView, list: Seq<PersistedView>) -> ObserverView
    decreases list.len(),
{
    if list.len() == 0 {
        o
    } else {
        loaded(loaded_all(o, list.drop_last()), list.last())
    }
}

/// The values of a list of stored users.
pub open spec fn persisted_views(list: Seq<PersistedUser>) -> Seq<PersistedView> {
    list.map_values(|p: PersistedUser| p@)
}

/// Which counters a connection goes to: those of its server, of the way out that it really leaves
/// by, and of the selector that chose that way.
#[derive(Debug)]
pub struct SessionTags {
    pub inbound: String,
    pub outbound: String,
    pub extra: Option<String>,
    pub id: String,
}

/// The value of a connection's tags.
#[verifier::ext_equal]
pub struct TagsView {
    pub inbound: Seq<char>,
    pub outbound: Seq<char>,
    pub extra: Option<Seq<char>>,
    pub id: Seq<char>,
}

impl View for SessionTags {
    type V = TagsView;

    open spec fn view(&self) -> TagsView {
        TagsView {
            inbound: self.inbound@,
            outbound: self.outbound@,
            extra: crate::config::opt_text(self.extra),
            id: self.id@,
        }
    }
}

/// The way out that a connection really leaves by: the last of the active ones.
pub open spec fn leaf_tag(outbound: Seq<char>, active: Seq<Seq<char>>) -> Seq<char> {
    if active.len() > 0 {
        active.last()
    } else {
        outbound
    }
}

/// The tags of a connection.
pub open spec fn tags_of(
    inbound: Seq<char>,
    outbound: Seq<char>,
    active: Seq<Seq<char>>,
    id: Seq<char>,
) -> TagsView {
    TagsView {
        inbound,
        outbound: leaf_tag(outbound, active),
        extra: if leaf_tag(outbound, active) != outbound {
            Some(outbound)
        } else {
            None
        },
        id,
    }
}

/// Finds the tags of a connection. `active` lists the selectors on the way and the way out itself.
pub fn session_tags(inbound: &str, outbound: &str, active: &Vec<String>, id: String) -> (
    tags: SessionTags)
    ensures
        tags@ == tags_of(inbound@, outbound@, texts(active@), id@),
{
    let leaf = if active.len() > 0 {
        let leaf = copy_text(active[active.len() - 1].as_str());
        assert(leaf@ == texts(active@).last());
        leaf
    } else {
        copy_text(outbound)
    };
    let extra = if str_eq(leaf.as_str(), outbound) {
        None
    } else {
        Some(copy_text(outbound))
    };
    SessionTags { inbound: copy_text(inbound), outbound: leaf, extra, id }
}

/// Traffic of a relayed packet.
pub open spec fn packet_counted(o: ObserverView, t: TagsView, upload: u64, download: u64) -> ObserverView {
    let first = node_traffic(o.outbounds, t.outbound, upload, download);
    ObserverView {
        inbounds: node_traffic(o.inbounds, t.inbound, upload, download),
        outbounds: match t.extra {
            Some(tag) => node_traffic(first, tag, upload, download),
            None => first,
        },
        global: o.global.plus(upload, download),
        book: BookView { connections: counted(o.book.connections, t.id, upload, download), ..o.book },
        ..o
    }
}

/// Traffic on the client's side of a relayed stream.
pub open spec fn client_counted(o: ObserverView, t: TagsView, upload: u64, download: u64) -> ObserverView {
    if upload == 0 && download == 0 {
        o
    } else {
        ObserverView {
            inbounds: node_traffic(o.inbounds, t.inbound, upload, download),
            global: o.global.plus(upload, download),
            book: BookView {
                connections: counted(o.book.connections, t.id, upload, download),
                ..o.book
            },
            ..o
        }
    }
}

/// Traffic on the far side of a relayed stream.
pub open spec fn remote_counted(o: ObserverView, t: TagsView, upload: u64, download: u64) -> ObserverView {
    if upload == 0 && download == 0 {
        o
    } else {
        let first = node_traffic(o.outbounds, t.outbound, upload, download);
        ObserverView {
            outbounds: match t.extra {
                Some(tag) => node_traffic(first, tag, upload, download),
                None => first,
            },
            ..o
        }
    }
}

impl Observer {
    /// The tables are in order.
    pub open spec fn wf(self) -> bool {
        &&& self.inbounds.wf()
        &&& self.outbounds.wf()
        &&& self.user_stats.wf()
        &&& self.user_creds.wf()
        &&& self.user_passwords.wf()
        &&& self.book.wf()
    }

    /// An observer that has seen nothing.
    pub fn new() -> (o: Observer)
        ensures
            o.wf(),
            o@ == empty_observer(),
    {
        let o = Observer {
            inbounds: Table::new(),
            outbounds: Table::new(),
            user_stats: Table::new(),
            user_creds: CredentialStore::new(),
            user_passwords: Table::new(),
            global_stats: Stats::default(),
            book: ConnectionBook::new(),
            mem_stats: MemStats { total: 0, samples: 0, peak: 0 },
        };
        assert(o@.inbounds =~= Map::<Seq<char>, NodeView>::empty());
        assert(o@.outbounds =~= Map::<Seq<char>, NodeView>::empty());
        assert(o@.passwords =~= Map::<Seq<char>, Seq<char>>::empty());
        o
    }

    /// The counters of the whole proxy.
    pub fn get_global_stats(&self) -> (s: Stats)
        ensures
            s == self@.global,
    {
        self.global_stats
    }

    /// Counts a DNS query.
    pub fn record_dns_time(&mut self, duration_us: u64)
        requires
            old(self).wf(),
        ensures
            final(self).wf(),
            final(self)@ == (ObserverView {
                global: Stats {
                    dns_total_time_us: old(self)@.global.dns_total_time_us.wrapping_add(duration_us),
                    dns_query_count: old(self)@.global.dns_query_count.wrapping_add(1),
                    ..old(self)@.global
                },
                ..old(self)@
            }),
    {
        self.global_stats.record_dns_time(duration_us);
    }

    /// Counts a routing decision.
    pub fn record_route_time(&mut self, duration_us: u64)
        requires
            old(self).wf(),
        ensures
            final(self).wf(),
            final(self)@ == (ObserverView {
                global: Stats {
                    route_total_time_us: old(self)@.global.route_total_time_us.wrapping_add(
                        duration_us,
                    ),
                    route_match_count: old(self)@.global.route_match_count.wrapping_add(1),
                    ..old(self)@.global
                },
                ..old(self)@
            }),
    {
        self.global_stats.record_route_time(duration_us);
    }

    /// Counts a TCP connection of a server in.
    pub fn on_inbound_open_tcp(&mut self, tag: &str)
        requires
            old(self).wf(),
        ensures
            final(self).wf(),
            final(self)@ == (ObserverView {
                inbounds: with_stats(
                    old(self)@.inbounds,
                    tag@,
                    old(self)@.inbounds[tag@].stats.tcp_opened(),
                ),
                ..old(self)@
            }),
    {
        if let Some(mut stats) = stats_of(&self.inbounds, tag) {
            stats.inc_active_tcp();
            put_stats(&mut self.inbounds, tag, stats);
        }
    }

    /// Counts a UDP session of a server in.
    pub fn on_inbound_open_udp(&mut self, tag: &str)
        requires
            old(self).wf(),
        ensures
            final(self).wf(),
            final(self)@ == (ObserverView {
                inbounds: with_stats(
                    old(self)@.inbounds,
                    tag@,
                    old(self)@.inbounds[tag@].stats.udp_opened(),
                ),
                ..old(self)@
            }),
    {
        if let Some(mut stats) = stats_of(&self.inbounds, tag) {
            stats.inc_active_udp();
            put_stats(&mut self.inbounds, tag, stats);
        }
    }

    /// Counts a TCP connection of a server out.
    pub fn on_inbound_close_tcp(&mut self, tag: &str)
        requires
            old(self).wf(),
        ensures
            final(self).wf(),
            final(self)@ == (ObserverView {
                inbounds: with_stats(
                    old(self)@.inbounds,
                    tag@,
                    old(self)@.inbounds[tag@].stats.tcp_closed(),
                ),
                ..old(self)@
            }),
    {
        if let Some(mut stats) = stats_of(&self.inbounds, tag) {
            stats.dec_active_tcp();
            put_stats(&mut self.inbounds, tag, stats);
        }
    }

    /// Counts a UDP session of a server out.
    pub fn on_inbound_close_udp(&mut self, tag: &str)
        requires
            old(self).wf(),
        ensures
            final(self).wf(),
            final(self)@ == (ObserverView {
                inbounds: with_stats(
                    old(self)@.inbounds,
                    tag@,
                    old(self)@.inbounds[tag@].stats.udp_closed(),
                ),
                ..old(self)@
            }),
    {
        if let Some(mut stats) = stats_of(&self.inbounds, tag) {
            stats.dec_active_udp();
            put_stats(&mut self.inbounds, tag, stats);
        }
    }

    /// Counts a TCP connection of a way out in.
    pub fn on_outbound_open_tcp(&mut self, tag: &str)
        requires
            old(self).wf(),
        ensures
            final(self).wf(),
            final(self)@ == (ObserverView {
                outbounds: with_stats(
                    old(self)@.outbounds,
                    tag@,
                    old(self)@.outbounds[tag@].stats.tcp_opened(),
                ),
                ..old(self)@
            }),
    {
        if let Some(mut stats) = stats_of(&self.outbounds, tag) {
            stats.inc_active_tcp();
            put_stats(&mut self.outbounds, tag, stats);
        }
    }

    /// Counts a UDP session of a way out in.
    pub fn on_outbound_open_udp(&mut self, tag: &str)
        requires
            old(self).wf(),
        ensures
            final(self).wf(),
            final(self)@ == (ObserverView {
                outbounds: with_stats(
                    old(self)@.outbounds,
                    tag@,
                    old(self)@.outbounds[tag@].stats.udp_opened(),
                ),
                ..old(self)@
            }),
    {
        if let Some(mut stats) = stats_of(&self.outbounds, tag) {
            stats.inc_active_udp();
            put_stats(&mut self.outbounds, tag, stats);
        }
    }

    /// Counts a TCP connection of a way out out.
    pub fn on_outbound_close_tcp(&mut self, tag: &str)
        requires
            old(self).wf(),
        ensures
            final(self).wf(),
            final(self)@ == (ObserverView {
                outbounds: with_stats(
                    old(self)@.outbounds,
                    tag@,
                    old(self)@.outbounds[tag@].stats.tcp_closed(),
                ),
                ..old(self)@
            }),
    {
        if let Some(mut stats) = stats_of(&self.outbounds, tag) {
            stats.dec_active_tcp();
            put_stats(&mut self.outbounds, tag, stats);
        }
    }

    /// Counts a UDP session of a way out out.
    pub fn on_outbound_close_udp(&mut self, tag: &str)
        requires
            old(self).wf(),
        ensures
            final(self).wf(),
            final(self)@ == (ObserverView {
                outbounds: with_stats(
                    old(self)@.outbounds,
                    tag@,
                    old(self)@.outbounds[tag@].stats.udp_closed(),
                ),
                ..old(self)@
            }),
    {
        if let Some(mut stats) = stats_of(&self.outbounds, tag) {
            stats.dec_active_udp();
            put_stats(&mut self.outbounds, tag, stats);
        }
    }

    /// Counts traffic of a way out, and of the whole proxy.
    pub fn update_outbound_traffic(&mut self, tag: &str, upload: u64, download: u64)
        requires
            old(self).wf(),
        ensures
            final(self).wf(),
            final(self)@ == (ObserverView {
                outbounds: node_traffic(old(self)@.outbounds, tag@, upload, download),
                global: old(self)@.global.plus(upload, download),
                ..old(self)@
            }),
    {
        self.update_outbound_node_traffic(tag, upload, download);
        self.update_global_traffic(upload, download);
    }

    /// Counts traffic of a way out.
    pub fn update_outbound_node_traffic(&mut self, tag: &str, upload: u64, download: u64)
        requires
            old(self).wf(),
        ensures
            final(self).wf(),
            final(self)@ == (ObserverView {
                outbounds: node_traffic(old(self)@.outbounds, tag@, upload, download),
                ..old(self)@
            }),
    {
        add_node_traffic(&mut self.outbounds, tag, upload, download);
    }

    /// Counts traffic of the whole proxy.
    pub fn update_global_traffic(&mut self, upload: u64, download: u64)
        requires
            old(self).wf(),
        ensures
            final(self).wf(),
            final(self)@ == (ObserverView {
                global: old(self)@.global.plus(upload, download),
                ..old(self)@
            }),
    {
        self.global_stats.add_traffic(upload, download);
    }

    /// Counts traffic of a server.
    pub fn update_inbound_traffic(&mut self, tag: &str, upload: u64, download: u64)
        requires
            old(self).wf(),
        ensures
            final(self).wf(),
            final(self)@ == (ObserverView {
                inbounds: node_traffic(old(self)@.inbounds, tag@, upload, download),
                ..old(self)@
            }),
    {
        add_node_traffic(&mut self.inbounds, tag, upload, download);
    }

    /// Enters a server. One that is there keeps its counters.
    pub fn register_inbound(&mut self, tag: &str, protocol: &str)
        requires
            old(self).wf(),
        ensures
            final(self).wf(),
            final(self)@ == (ObserverView {
                inbounds: registered(old(self)@.inbounds, tag@, protocol@),
                ..old(self)@
            }),
    {
        register_node(&mut self.inbounds, tag, protocol);
    }

    /// Enters a way out. One that is there keeps its counters.
    pub fn register_outbound(&mut self, tag: &str, protocol: &str)
        requires
            old(self).wf(),
        ensures
            final(self).wf(),
            final(self)@ == (ObserverView {
                outbounds: registered(old(self)@.outbounds, tag@, protocol@),
                ..old(self)@
            }),
    {
        register_node(&mut self.outbounds, tag, protocol);
    }

    /// What is known of a server.
    pub fn get_inbound_stats(&self, tag: &str) -> (r: Option<&NodeStats>)
        requires
            self.wf(),
        ensures
            match r {
                Some(n) => self@.inbounds.contains_key(tag@) && self@.inbounds[tag@] == n@,
                None => !self@.inbounds.contains_key(tag@),
            },
    {
        self.inbounds.get(tag)
    }

    /// What is known of a way out.
    pub fn get_outbound_stats(&self, tag: &str) -> (r: Option<&NodeStats>)
        requires
            self.wf(),
        ensures
            match r {
                Some(n) => self@.outbounds.contains_key(tag@) && self@.outbounds[tag@] == n@,
                None => !self@.outbounds.contains_key(tag@),
            },
    {
        self.outbounds.get(tag)
    }

    /// Notes what a test of a way out found.
    pub fn update_outbound_trace(
        &mut self,
        tag: &str,
        latency_ms: i64,
        ip: String,
        loc: String,
        uplink_path_stats: Option<PathState>,
        downlink_path_stats: Option<PathState>,
    )
        requires
            old(self).wf(),
        ensures
            final(self).wf(),
            final(self)@ == (ObserverView {
                outbounds: if old(self)@.outbounds.contains_key(tag@) {
                    old(self)@.outbounds.insert(
                        tag@,
                        NodeView {
                            stats: Stats { latency_ms, ..old(self)@.outbounds[tag@].stats },
                            trace: TraceView {
                                ip: ip@,
                                loc: loc@,
                                uplink: uplink_path_stats,
                                downlink: downlink_path_stats,
                            },
                            ..old(self)@.outbounds[tag@]
                        },
                    )
                } else {
                    old(self)@.outbounds
                },
                ..old(self)@
            }),
    {
        match self.outbounds.remove(tag) {
            None => {
                assert(self@.outbounds =~= old(self)@.outbounds);
            },
            Some(mut node) => {
                node.stats.record_latency_ms(latency_ms);
                node.trace = OutboundTraceInfo { ip, loc, uplink_path_stats, downlink_path_stats };
                proof {
                    lemma_views_replace(old(self).outbounds@, tag@, node);
                }
                self.outbounds.insert(tag, node);
            },
        }
    }

    /// Notes whether a way out is being tested.
    pub fn set_outbound_trace_testing(&mut self, tag: &str, testing: bool)
        requires
            old(self).wf(),
        ensures
            final(self).wf(),
            final(self)@ == (ObserverView {
                outbounds: if old(self)@.outbounds.contains_key(tag@) {
                    old(self)@.outbounds.insert(
                        tag@,
                        NodeView { is_testing_trace: testing, ..old(self)@.outbounds[tag@] },
                    )
                } else {
                    old(self)@.outbounds
                },
                ..old(self)@
            }),
    {
        match self.outbounds.remove(tag) {
            None => {
                assert(self@.outbounds =~= old(self)@.outbounds);
            },
            Some(mut node) => {
                node.is_testing_trace = testing;
                proof {
                    lemma_views_replace(old(self).outbounds@, tag@, node);
                }
                self.outbounds.insert(tag, node);
            },
        }
    }

    /// What the last test of a way out found.
    pub fn get_outbound_trace(&self, tag: &str) -> (r: Option<OutboundTraceInfo>)
        requires
            self.wf(),
        ensures
            match r {
                Some(t) => self@.outbounds.contains_key(tag@) && self@.outbounds[tag@].trace == t@,
                None => !self@.outbounds.contains_key(tag@),
            },
    {
        match self.outbounds.get(tag) {
            Some(node) => Some(node.trace.copy()),
            None => None,
        }
    }

    /// Enters a user. One who is there keeps their counters.
    pub fn upsert_user(&mut self, username: &str) -> (s: Stats)
        requires
            old(self).wf(),
        ensures
            final(self).wf(),
            s == known_or_new(old(self)@.users, username@),
            final(self)@ == (ObserverView {
                users: old(self)@.users.insert(username@, s),
                ..old(self)@
            }),
    {
        let known: Option<Stats> = match self.user_stats.get(username) {
            Some(s) => Some(*s),
            None => None,
        };
        match known {
            Some(s) => {
                assert(self@.users.insert(username@, s) =~= self@.users);
                s
            },
            None => {
                let s = Stats::default();
                self.user_stats.insert(username, s);
                s
            },
        }
    }

    /// The counters of a user.
    pub fn user_stats(&self, username: &str) -> (r: Option<Stats>)
        requires
            self.wf(),
        ensures
            r == if self@.users.contains_key(username@) {
                Some(self@.users[username@])
            } else {
                None
            },
    {
        match self.user_stats.get(username) {
            Some(s) => Some(*s),
            None => None,
        }
    }

    /// Counts traffic of a user.
    pub fn update_user_traffic(&mut self, username: &str, upload: u64, download: u64)
        requires
            old(self).wf(),
        ensures
            final(self).wf(),
            final(self)@ == (ObserverView {
                users: if old(self)@.users.contains_key(username@) {
                    old(self)@.users.insert(
                        username@,
                        old(self)@.users[username@].plus(upload, download),
                    )
                } else {
                    old(self)@.users
                },
                ..old(self)@
            }),
    {
        let known: Option<Stats> = match self.user_stats.get(username) {
            Some(s) => Some(*s),
            None => None,
        };
        if let Some(mut s) = known {
            s.add_traffic(upload, download);
            self.user_stats.insert(username, s);
        }
    }

    /// Sets a user's credential at a server.
    pub fn set_user_credential(&mut self, tag: &str, username: &str, credential: Vec<u8>)
        requires
            old(self).wf(),
        ensures
            final(self).wf(),
            final(self)@ == (ObserverView {
                creds: old(self)@.creds.insert((tag@, username@), credential@),
                ..old(self)@
            }),
    {
        self.user_creds.set_user_credential(tag, username, credential);
    }

    /// Remembers a user's password for the next start.
    pub fn set_user_password(&mut self, username: &str, password: &str)
        requires
            old(self).wf(),
        ensures
            final(self).wf(),
            final(self)@ == (ObserverView {
                passwords: old(self)@.passwords.insert(username@, password@),
                ..old(self)@
            }),
    {
        let password = copy_text(password);
        proof {
            lemma_views_insert(self.user_passwords@, username@, password);
        }
        self.user_passwords.insert(username, password);
    }

    /// The users whose passwords are known, to be entered at the servers again.
    pub fn persisted_users(&self) -> (list: Vec<AuthUser>)
        requires
            self.wf(),
        ensures
            list@.len() == self.user_passwords.names().len(),
            forall|i: int|
                0 <= i < list@.len() ==> (#[trigger] list@[i])@ == (AuthUserView {
                    username: self.user_passwords.names()[i],
                    password: self@.passwords[self.user_passwords.names()[i]],
                }),
    {
        let mut list: Vec<AuthUser> = Vec::new();
        let mut i: usize = 0;
        while i < self.user_passwords.len()
            invariant
                self.wf(),
                i <= self.user_passwords.names().len(),
                list@.len() == i,
                forall|k: int|
                    0 <= k < i ==> (#[trigger] list@[k])@ == (AuthUserView {
                        username: self.user_passwords.names()[k],
                        password: self@.passwords[self.user_passwords.names()[k]],
                    }),
            decreases self.user_passwords.names().len() - i,
        {
            let (username, password) = self.user_passwords.row(i);
            assert(self@.passwords[username@] == password@);
            list.push(
                AuthUser {
                    username: copy_text(username),
                    password: copy_text(password.as_str()),
                },
            );
            i += 1;
        }
        list
    }

    /// A user's account.
    pub fn user_account(&self, username: &str) -> (r: Option<UserAccount>)
        requires
            self.wf(),
        ensures
            match r {
                Some(a) => self@.users.contains_key(username@) && a.username@ == username@
                    && a.stats == self@.users[username@],
                None => !self@.users.contains_key(username@),
            },
    {
        match self.user_stats.get(username) {
            Some(s) => Some(UserAccount { username: copy_text(username), stats: *s }),
            None => None,
        }
    }

    /// The user who shows that credential to a server, with their counters.
    pub fn authenticate(&self, tag: &str, credential: &[u8]) -> (r: Option<(String, Stats)>)
        requires
            self.wf(),
        ensures
            match r {
                Some((user, stats)) => shows(self@.creds, tag@, user@, credential@)
                    && self@.users.contains_key(user@) && self@.users[user@] == stats,
                None => {
                    ||| forall|user: Seq<char>|
                        !#[trigger] shows(self@.creds, tag@, user, credential@)
                    ||| exists|user: Seq<char>| #[trigger]
                        shows(self@.creds, tag@, user, credential@)
                            && !self@.users.contains_key(user)
                },
            },
    {
        match self.user_creds.find(tag, credential) {
            None => None,
            Some(user) => {
                assert(shows(self@.creds, tag@, user@, credential@));
                match self.user_stats.get(user.as_str()) {
                    None => None,
                    Some(stats) => Some((user, *stats)),
                }
            },
        }
    }

    /// Enters a user at every server that has users, and says what has to be stored.
    pub fn add_user(&mut self, username: &str, password: &str) -> (stored: PersistedUser)
        requires
            old(self).wf(),
        ensures
            final(self).wf(),
            final(self)@ == (ObserverView {
                users: old(self)@.users.insert(
                    username@,
                    known_or_new(old(self)@.users, username@),
                ),
                creds: with_user(old(self)@.creds, old(self)@.inbounds, username@, password@),
                passwords: old(self)@.passwords.insert(username@, password@),
                ..old(self)@
            }),
            stored@ == persisted(final(self)@, username@),
    {
        let ghost servers = self@.inbounds;
        let ghost before = self@.creds;
        let ghost all = self.inbounds.names();
        let mut i: usize = 0;
        while i < self.inbounds.len()
            invariant
                self.wf(),
                self@ == (ObserverView { creds: self@.creds, ..old(self)@ }),
                servers == self@.inbounds,
                all == self.inbounds.names(),
                i <= all.len(),
                forall|k: (Seq<char>, Seq<char>)| #[trigger]
                    self@.creds.contains_key(k) <==> before.contains_key(k) || (all.take(
                        i as int,
                    ).contains(k.0) && gets_credential(servers, k, username@, password@)),
                forall|k: (Seq<char>, Seq<char>)| #[trigger]
                    self@.creds.contains_key(k) ==> self@.creds[k] == if all.take(
                        i as int,
                    ).contains(k.0) && gets_credential(servers, k, username@, password@) {
                        credential_of(servers[k.0].protocol, username@, password@)->Ok_0
                    } else {
                        before[k]
                    },
            decreases all.len() - i,
        {
            let (tag, node) = self.inbounds.row(i);
            let tag = copy_text(tag);
            assert(servers[tag@] == node@);
            let ghost mid = self@.creds;
            if let Ok(credential) = credential_hash(node.protocol.as_str(), username, password) {
                self.user_creds.set_user_credential(tag.as_str(), username, credential);
            }
            proof {
                let seen = all.take(i as int);
                let next = all.take(i + 1);
                assert(next =~= seen.push(all[i as int]));
                assert forall|name: Seq<char>| #[trigger] next.contains(name) <==> seen.contains(
                    name,
                ) || name == tag@ by {
                    if seen.contains(name) {
                        let j = choose|j: int| 0 <= j < seen.len() && seen[j] == name;
                        assert(next[j] == name);
                    }
                    if name == tag@ {
                        assert(next[i as int] == name);
                    }
                }
                assert(servers.contains_key(tag@));
                assert forall|k: (Seq<char>, Seq<char>)| #[trigger]
                    self@.creds.contains_key(k) <==> before.contains_key(k) || (next.contains(k.0)
                    && gets_credential(servers, k, username@, password@)) by {
                    assert(mid.contains_key(k) <==> before.contains_key(k) || (seen.contains(k.0)
                        && gets_credential(servers, k, username@, password@)));
                }
                assert forall|k: (Seq<char>, Seq<char>)| #[trigger]
                    self@.creds.contains_key(k) implies self@.creds[k] == if next.contains(k.0)
                    && gets_credential(servers, k, username@, password@) {
                    credential_of(servers[k.0].protocol, username@, password@)->Ok_0
                } else {
                    before[k]
                } by {
                    assert(k != (tag@, username@) ==> mid.contains_key(k));
                    assert(mid.contains_key(k) ==> mid[k] == if seen.contains(k.0)
                        && gets_credential(servers, k, username@, password@) {
                        credential_of(servers[k.0].protocol, username@, password@)->Ok_0
                    } else {
                        before[k]
                    });
                }
            }
            i += 1;
        }
        proof {
            assert(all.take(i as int) =~= all);
            lemma_names(self.inbounds);
            assert(self@.creds =~= with_user(before, servers, username@, password@)) by {
                let want = with_user(before, servers, username@, password@);
                assert forall|k: (Seq<char>, Seq<char>)| #[trigger]
                    self@.creds.contains_key(k) <==> want.contains_key(k) by {
                    assert(self.inbounds@.contains_key(k.0) <==> all.contains(k.0));
                }
                assert forall|k: (Seq<char>, Seq<char>)| #[trigger]
                    self@.creds.contains_key(k) implies self@.creds[k] == want[k] by {
                    assert(self.inbounds@.contains_key(k.0) <==> all.contains(k.0));
                }
            }
        }
        self.upsert_user(username);
        self.set_user_password(username, password);
        match self.save_persisted(username) {
            Some(stored) => stored,
            None => PersistedUser {
                username: copy_text(username),
                password: copy_text(password),
                upload: 0,
                download: 0,
                total_tcp: 0,
                total_udp: 0,
            },
        }
    }

    /// Whether there is such a user.
    pub fn has_user(&self, username: &str) -> (r: bool)
        requires
            self.wf(),
        ensures
            r == self@.users.contains_key(username@),
    {
        self.user_stats.contains(username)
    }

    /// Removes a user from every server. The connections to close come back; `None` means that there
    /// is no such user.
    pub fn remove_user(&mut self, username: &str) -> (r: Option<Vec<String>>)
        requires
            old(self).wf(),
        ensures
            final(self).wf(),
            r is Some <==> old(self)@.users.contains_key(username@),
            r is None ==> final(self)@ == old(self)@,
            r matches Some(ids) ==> {
                &&& final(self)@ == (ObserverView {
                    users: old(self)@.users.remove(username@),
                    creds: without_user(old(self)@.creds, username@),
                    passwords: old(self)@.passwords.remove(username@),
                    ..old(self)@
                })
                &&& crate::proxy::connections::exactly(
                    texts(ids@),
                    |id: Seq<char>|
                        crate::proxy::connections::can_close(old(self)@.book.connections, id)
                            && old(self)@.book.connections[id].tracker.user == Some(username@),
                )
            },
    {
        if !self.user_stats.contains(username) {
            return None;
        }
        self.user_stats.remove(username);
        proof {
            lemma_views_remove(self.user_passwords@, username@);
        }
        self.user_passwords.remove(username);
        self.user_creds.remove_user(username);
        Some(self.book.kill_connections_by_user(username))
    }

    /// Reports the counters of one user or of all, and with `clear` starts them over.
    pub fn collect_user_stats(&mut self, username: Option<&str>, clear: bool) -> (list: Vec<
        UserStats,
    >)
        requires
            old(self).wf(),
        ensures
            final(self).wf(),
            report_views(list@) == reports(
                old(self).user_stats.names(),
                old(self)@.users,
                opt_str(username),
            ),
            final(self)@ == (ObserverView {
                users: if clear {
                    taken(old(self)@.users, opt_str(username))
                } else {
                    old(self)@.users
                },
                ..old(self)@
            }),
    {
        let ghost filter = opt_str(username);
        let ghost all = self.user_stats.names();
        let ghost was = self@.users;
        let mut list: Vec<UserStats> = Vec::new();
        let mut i: usize = 0;
        proof {
            lemma_names(self.user_stats);
            assert(all.take(0) =~= Seq::<Seq<char>>::empty());
            assert(report_views(list@) =~= Seq::<UserReport>::empty());
        }
        while i < self.user_stats.len()
            invariant
                self.wf(),
                filter == opt_str(username),
                all == self.user_stats.names(),
                all.no_duplicates(),
                i <= all.len(),
                self@ == (ObserverView { users: self@.users, ..old(self)@ }),
                self@.users.dom() == was.dom(),
                forall|name: Seq<char>| #[trigger] was.contains_key(name) <==> all.contains(name),
                forall|j: int|
                    #![trigger all[j]]
                    0 <= j < all.len() ==> self@.users[all[j]] == if clear && j < i && asked_for(
                        filter,
                        all[j],
                    ) {
                        was[all[j]].without_traffic()
                    } else {
                        was[all[j]]
                    },
                report_views(list@) == reports(all.take(i as int), was, filter),
            decreases all.len() - i,
        {
            let (name, stats) = self.user_stats.row(i);
            let name = copy_text(name);
            let mut stats: Stats = *stats;
            proof {
                assert(all[i as int] == name@);
                assert(stats == was[name@]);
                assert(all.take(i + 1).drop_last() =~= all.take(i as int));
                assert(all.take(i + 1).last() == name@);
            }
            let skip = match username {
                Some(only) => !str_eq(name.as_str(), only),
                None => false,
            };
            if !skip {
                let ghost before = report_views(list@);
                let ghost full = stats;
                let snapshot = if clear {
                    let snapshot = stats.take_traffic();
                    self.user_stats.insert(name.as_str(), stats);
                    snapshot
                } else {
                    TrafficSnapshot {
                        upload: stats.get_upload_bytes(),
                        download: stats.get_download_bytes(),
                        total_tcp: stats.get_total_tcp_conns(),
                        total_udp: stats.get_total_udp_conns(),
                    }
                };
                let entry = UserStats {
                    username: copy_text(name.as_str()),
                    upload: snapshot.upload,
                    download: snapshot.download,
                    tcp_conns: stats.get_active_tcp_conns(),
                    udp_conns: stats.get_active_udp_sessions(),
                    total_tcp: snapshot.total_tcp,
                    total_udp: snapshot.total_udp,
                };
                assert(entry@ == report(name@, full));
                list.push(entry);
                assert(report_views(list@) =~= before.push(report(name@, full)));
            }
            proof {
                assert(self@.users.dom() =~= was.dom()) by {
                    assert(all.contains(name@));
                    assert(was.contains_key(name@));
                }
                assert forall|j: int|
                    #![trigger all[j]]
                    0 <= j < all.len() implies self@.users[all[j]] == if clear && j < i + 1
                    && asked_for(filter, all[j]) {
                    was[all[j]].without_traffic()
                } else {
                    was[all[j]]
                } by {
                    if j != i {
                        assert(all[j] != name@);
                    }
                }
            }
            i += 1;
        }
        proof {
            assert(all.take(i as int) =~= all);
            let want = if clear {
                taken(was, filter)
            } else {
                was
            };
            assert forall|name: Seq<char>| #[trigger] was.contains_key(name) implies self@.users[name]
                == want[name] by {
                let j = choose|j: int| 0 <= j < all.len() && all[j] == name;
                assert(all[j] == name);
            }
            assert(self@.users =~= want);
        }
        list
    }

    /// What has to be stored of a user.
    pub fn save_persisted(&self, username: &str) -> (r: Option<PersistedUser>)
        requires
            self.wf(),
        ensures
            match r {
                Some(p) => self@.users.contains_key(username@) && p@ == persisted(
                    self@,
                    username@,
                ),
                None => !self@.users.contains_key(username@),
            },
    {
        match self.user_stats.get(username) {
            None => None,
            Some(stats) => {
                let password = match self.user_passwords.get(username) {
                    Some(p) => {
                        assert(self@.passwords[username@] == p@);
                        copy_text(p.as_str())
                    },
                    None => {
                        let empty = String::new();
                        assert(empty@ =~= Seq::empty());
                        empty
                    },
                };
                Some(
                    PersistedUser {
                        username: copy_text(username),
                        password,
                        upload: stats.get_upload_bytes(),
                        download: stats.get_download_bytes(),
                        total_tcp: stats.get_total_tcp_conns(),
                        total_udp: stats.get_total_udp_conns(),
                    },
                )
            },
        }
    }

    /// What has to be stored of all users.
    pub fn persist_users(&self) -> (list: Vec<PersistedUser>)
        requires
            self.wf(),
        ensures
            persisted_views(list@) == self.user_stats.names().map_values(
                |name: Seq<char>| persisted(self@, name),
            ),
    {
        let ghost all = self.user_stats.names();
        let mut list: Vec<PersistedUser> = Vec::new();
        let mut i: usize = 0;
        while i < self.user_stats.len()
            invariant
                self.wf(),
                all == self.user_stats.names(),
                i <= all.len(),
                list@.len() == i,
                forall|k: int|
                    0 <= k < i ==> (#[trigger] list@[k])@ == persisted(self@, all[k]),
            decreases all.len() - i,
        {
            let (name, _) = self.user_stats.row(i);
            if let Some(p) = self.save_persisted(name) {
                list.push(p);
            }
            i += 1;
        }
        assert(persisted_views(list@) =~= all.map_values(|name: Seq<char>| persisted(self@, name)));
        list
    }

    /// Reads stored users back: their counters continue, and their passwords are known again.
    pub fn load_persisted_users(&mut self, entries: Vec<PersistedUser>)
        requires
            old(self).wf(),
        ensures
            final(self).wf(),
            final(self)@ == loaded_all(old(self)@, persisted_views(entries@)),
    {
        let ghost all = persisted_views(entries@);
        let mut i: usize = 0;
        assert(all.take(0) =~= Seq::<PersistedView>::empty());
        while i < entries.len()
            invariant
                self.wf(),
                all == persisted_views(entries@),
                i <= entries@.len(),
                self@ == loaded_all(old(self)@, all.take(i as int)),
            decreases entries@.len() - i,
        {
            let p = &entries[i];
            proof {
                assert(all.take(i + 1).drop_last() =~= all.take(i as int));
                assert(all.take(i + 1).last() == p@);
            }
            let mut stats = self.upsert_user(p.username.as_str());
            stats.restore(
                TrafficSnapshot {
                    upload: p.upload,
                    download: p.download,
                    total_tcp: p.total_tcp,
                    total_udp: p.total_udp,
                },
            );
            let ghost mid = self@.users;
            self.user_stats.insert(p.username.as_str(), stats);
            assert(self@.users =~= loaded(
                loaded_all(old(self)@, all.take(i as int)),
                p@,
            ).users);
            if !p.password.as_str().is_empty() {
                self.set_user_password(p.username.as_str(), p.password.as_str());
            }
            i += 1;
        }
        assert(all.take(i as int) =~= all);
    }

    /// The servers with what is counted of them.
    pub fn get_all_inbounds(&self) -> (list: Vec<(&str, &NodeStats)>)
        requires
            self.wf(),
        ensures
            lists_nodes(list@, self@.inbounds),
    {
        nodes_of(&self.inbounds)
    }

    /// The ways out with what is counted of them.
    pub fn get_all_outbounds(&self) -> (list: Vec<(&str, &NodeStats)>)
        requires
            self.wf(),
        ensures
            lists_nodes(list@, self@.outbounds),
    {
        nodes_of(&self.outbounds)
    }

    /// The users with their counters.
    pub fn all_user_stats(&self) -> (list: Vec<(&str, Stats)>)
        requires
            self.wf(),
        ensures
            list@.len() == self.user_stats.names().len(),
            forall|i: int|
                0 <= i < list@.len() ==> (#[trigger] list@[i]).0@ == self.user_stats.names()[i]
                    && list@[i].1 == self@.users[list@[i].0@],
    {
        let mut list: Vec<(&str, Stats)> = Vec::new();
        let mut i: usize = 0;
        while i < self.user_stats.len()
            invariant
                self.wf(),
                i <= self.user_stats.names().len(),
                list@.len() == i,
                forall|k: int|
                    0 <= k < i ==> (#[trigger] list@[k]).0@ == self.user_stats.names()[k]
                        && list@[k].1 == self@.users[list@[k].0@],
            decreases self.user_stats.names().len() - i,
        {
            let (name, stats) = self.user_stats.row(i);
            list.push((name, *stats));
            i += 1;
        }
        list
    }

    /// Takes a sample of the memory in use into account.
    pub fn record_memory(&mut self, current: u64)
        requires
            old(self).wf(),
        ensures
            final(self).wf(),
            final(self)@ == (ObserverView {
                memory: if current > 0 {
                    old(self)@.memory.plus(current)
                } else {
                    old(self)@.memory
                },
                ..old(self)@
            }),
    {
        if current > 0 {
            self.mem_stats = MemStats {
                total: self.mem_stats.total.saturating_add(current),
                samples: self.mem_stats.samples.saturating_add(1),
                peak: if current > self.mem_stats.peak {
                    current
                } else {
                    self.mem_stats.peak
                },
            };
        }
    }

    /// Counts the opening of a relayed stream.
    pub fn stream_opened(&mut self, tags: &SessionTags)
        requires
            old(self).wf(),
        ensures
            final(self).wf(),
            final(self)@ == stream_open(old(self)@, tags@),
    {
        self.on_inbound_open_tcp(tags.inbound.as_str());
        self.on_outbound_open_tcp(tags.outbound.as_str());
        if let Some(extra) = &tags.extra {
            self.on_outbound_open_tcp(extra.as_str());
        }
    }

    /// Counts the end of a relayed stream.
    pub fn stream_closed(&mut self, tags: &SessionTags)
        requires
            old(self).wf(),
        ensures
            final(self).wf(),
            final(self)@ == stream_close(old(self)@, tags@),
    {
        self.on_inbound_close_tcp(tags.inbound.as_str());
        self.on_outbound_close_tcp(tags.outbound.as_str());
        if let Some(extra) = &tags.extra {
            self.on_outbound_close_tcp(extra.as_str());
        }
    }

    /// Counts the opening of a UDP session.
    pub fn session_opened(&mut self, tags: &SessionTags)
        requires
            old(self).wf(),
        ensures
            final(self).wf(),
            final(self)@ == session_open(old(self)@, tags@),
    {
        self.on_inbound_open_udp(tags.inbound.as_str());
        self.on_outbound_open_udp(tags.outbound.as_str());
        if let Some(extra) = &tags.extra {
            self.on_outbound_open_udp(extra.as_str());
        }
    }

    /// Counts the end of a UDP session.
    pub fn session_closed(&mut self, tags: &SessionTags)
        requires
            old(self).wf(),
        ensures
            final(self).wf(),
            final(self)@ == session_close(old(self)@, tags@),
    {
        self.on_inbound_close_udp(tags.inbound.as_str());
        self.on_outbound_close_udp(tags.outbound.as_str());
        if let Some(extra) = &tags.extra {
            self.on_outbound_close_udp(extra.as_str());
        }
    }

    /// Counts packets of a UDP session.
    pub fn packet_relayed(&mut self, tags: &SessionTags, upload: u64, download: u64)
        requires
            old(self).wf(),
        ensures
            final(self).wf(),
            final(self)@ == packet_counted(old(self)@, tags@, upload, download),
    {
        self.update_outbound_node_traffic(tags.outbound.as_str(), upload, download);
        self.update_inbound_traffic(tags.inbound.as_str(), upload, download);
        if let Some(extra) = &tags.extra {
            self.update_outbound_node_traffic(extra.as_str(), upload, download);
        }
        self.update_global_traffic(upload, download);
        self.book.count(tags.id.as_str(), upload, download);
    }

    /// Counts `n` bytes read from a relayed stream: from the client where `is_inbound`, else from
    /// the far side.
    pub fn stream_read(&mut self, tags: &SessionTags, is_inbound: bool, n: u64)
        requires
            old(self).wf(),
        ensures
            final(self).wf(),
            final(self)@ == if is_inbound {
                client_counted(old(self)@, tags@, n, 0)
            } else {
                remote_counted(old(self)@, tags@, 0, n)
            },
    {
        if is_inbound {
            self.count_client(tags, n, 0);
        } else {
            self.count_remote(tags, 0, n);
        }
    }

    /// Counts `n` bytes written to a relayed stream: to the client where `is_inbound`, else to the
    /// far side.
    pub fn stream_written(&mut self, tags: &SessionTags, is_inbound: bool, n: u64)
        requires
            old(self).wf(),
        ensures
            final(self).wf(),
            final(self)@ == if is_inbound {
                client_counted(old(self)@, tags@, 0, n)
            } else {
                remote_counted(old(self)@, tags@, n, 0)
            },
    {
        if is_inbound {
            self.count_client(tags, 0, n);
        } else {
            self.count_remote(tags, n, 0);
        }
    }

    fn count_client(&mut self, tags: &SessionTags, upload: u64, download: u64)
        requires
            old(self).wf(),
        ensures
            final(self).wf(),
            final(self)@ == client_counted(old(self)@, tags@, upload, download),
    {
        if upload == 0 && download == 0 {
            return;
        }
        self.update_inbound_traffic(tags.inbound.as_str(), upload, download);
        self.book.count(tags.id.as_str(), upload, download);
        self.update_global_traffic(upload, download);
    }

    fn count_remote(&mut self, tags: &SessionTags, upload: u64, download: u64)
        requires
            old(self).wf(),
        ensures
            final(self).wf(),
            final(self)@ == remote_counted(old(self)@, tags@, upload, download),
    {
        if upload == 0 && download == 0 {
            return;
        }
        self.update_outbound_node_traffic(tags.outbound.as_str(), upload, download);
        if let Some(extra) = &tags.extra {
            self.update_outbound_node_traffic(extra.as_str(), upload, download);
        }
    }
}

/// The counters once a stream has been opened.
pub open spec fn stream_open(o: ObserverView, t: TagsView) -> ObserverView {
    let first = with_stats(o.outbounds, t.outbound, o.outbounds[t.outbound].stats.tcp_opened());
    ObserverView {
        inbounds: with_stats(o.inbounds, t.inbound, o.inbounds[t.inbound].stats.tcp_opened()),
        outbounds: match t.extra {
            Some(tag) => with_stats(first, tag, first[tag].stats.tcp_opened()),
            None => first,
        },
        ..o
    }
}

/// The counters once a stream has been closed.
pub open spec fn stream_close(o: ObserverView, t: TagsView) -> ObserverView {
    let first = with_stats(o.outbounds, t.outbound, o.outbounds[t.outbound].stats.tcp_closed());
    ObserverView {
        inbounds: with_stats(o.inbounds, t.inbound, o.inbounds[t.inbound].stats.tcp_closed()),
        outbounds: match t.extra {
            Some(tag) => with_stats(first, tag, first[tag].stats.tcp_closed()),
            None => first,
        },
        ..o
    }
}

/// The counters once a UDP session has been opened.
pub open spec fn session_open(o: ObserverView, t: TagsView) -> ObserverView {
    let first = with_stats(o.outbounds, t.outbound, o.outbounds[t.outbound].stats.udp_opened());
    ObserverView {
        inbounds: with_stats(o.inbounds, t.inbound, o.inbounds[t.inbound].stats.udp_opened()),
        outbounds: match t.extra {
            Some(tag) => with_stats(first, tag, first[tag].stats.udp_opened()),
            None => first,
        },
        ..o
    }
}

/// The counters once a UDP session has been closed.
pub open spec fn session_close(o: ObserverView, t: TagsView) -> ObserverView {
    let first = with_stats(o.outbounds, t.outbound, o.outbounds[t.outbound].stats.udp_closed());
    ObserverView {
        inbounds: with_stats(o.inbounds, t.inbound, o.inbounds[t.inbound].stats.udp_closed()),
        outbounds: match t.extra {
            Some(tag) => with_stats(first, tag, first[tag].stats.udp_closed()),
            None => first,
        },
        ..o
    }
}

/// Whether the selector that chose a way out is another node, and is known.
pub open spec fn selector_known(o: ObserverView, t: TagsView) -> bool {
    t.extra matches Some(selector) ==> selector != t.outbound && o.outbounds.contains_key(selector)
}

/// Whether that much more was counted of a connection: of the server, of the way out, of the selector
/// that chose it, of the connection itself and of the proxy, each once.
pub open spec fn counted_once(
    o: ObserverView,
    after: ObserverView,
    t: TagsView,
    upload: u64,
    download: u64,
) -> bool {
    &&& after.inbounds[t.inbound].stats == o.inbounds[t.inbound].stats.plus(upload, download)
    &&& after.outbounds[t.outbound].stats == o.outbounds[t.outbound].stats.plus(upload, download)
    &&& t.extra matches Some(selector) ==> after.outbounds[selector].stats
        == o.outbounds[selector].stats.plus(upload, download)
    &&& after.book.connections[t.id].tracker == o.book.connections[t.id].tracker.plus(
        upload,
        download,
    )
    &&& after.global == o.global.plus(upload, download)
}

/// Each direction of a relayed stream is counted once: a chunk that came from the client and went to
/// the far side is one upload of the server, of the way out, of the selector that chose it, of the
/// connection and of the proxy, and a chunk that went the other way one download.
pub proof fn law_stream_counts_each_direction_once(o: ObserverView, t: TagsView, n: u64)
    requires
        o.inbounds.contains_key(t.inbound),
        o.outbounds.contains_key(t.outbound),
        o.book.connections.contains_key(t.id),
        selector_known(o, t),
    ensures
        counted_once(o, remote_counted(client_counted(o, t, n, 0), t, n, 0), t, n, 0),
        counted_once(o, client_counted(remote_counted(o, t, 0, n), t, 0, n), t, 0, n),
{
}

/// The selector that chose a way out is counted as well, and as often as the way out itself, for packets
/// in either direction.
pub proof fn law_selector_counts_with_its_leaf(
    o: ObserverView,
    t: TagsView,
    upload: u64,
    download: u64,
)
    requires
        o.inbounds.contains_key(t.inbound),
        o.outbounds.contains_key(t.outbound),
        o.book.connections.contains_key(t.id),
        selector_known(o, t),
    ensures
        counted_once(o, packet_counted(o, t, upload, download), t, upload, download),
{
}

/// What was stored of a user is what the user continues with after a restart.
pub proof fn law_stored_user_continues(before: ObserverView, after: ObserverView, username: Seq<char>)
    requires
        before.users.contains_key(username),
        !after.users.contains_key(username),
    ensures
        ({
            let o = loaded(after, persisted(before, username));
            &&& o.users.contains_key(username)
            &&& o.users[username].snapshot() == before.users[username].snapshot()
            &&& before.passwords.contains_key(username) && before.passwords[username].len() > 0
                ==> o.passwords.contains_key(username) && o.passwords[username]
                == before.passwords[username]
        }),
{
}

/// A user who has been added is let in at every server that has users.
pub proof fn law_added_user_is_let_in(
    o: ObserverView,
    tag: Seq<char>,
    username: Seq<char>,
    password: Seq<char>,
)
    requires
        o.inbounds.contains_key(tag),
        credential_of(o.inbounds[tag].protocol, username, password) is Ok,
    ensures
        shows(
            with_user(o.creds, o.inbounds, username, password),
            tag,
            username,
            credential_of(o.inbounds[tag].protocol, username, password)->Ok_0,
        ),
{
    assert(gets_credential(o.inbounds, (tag, username), username, password));
}

/// The interval at which statistics are logged.
pub fn spawn_periodic_log(interval_secs: u64) -> (r: Result<Duration, String>)
    ensures
        match r {
            Ok(d) => interval_secs > 0 && d == crate::time::secs(interval_secs as int),
            Err(e) => interval_secs == 0 && e@ == "observe log_interval must be greater than zero"@,
        },
{
    if interval_secs == 0 {
        return Err(copy_text("observe log_interval must be greater than zero"));
    }
    Ok(Duration::from_secs(interval_secs))
}

/// Sets the observer up as configured, and says how often to log. `cache` names the cache that it
/// keeps users in, and `stored` are the users that earlier runs left there. Nothing changes where
/// observing is not on.
pub fn init_observer(
    slot: &mut Option<Observer>,
    config: Option<&ObserveConfig>,
    cache: Option<&str>,
    stored: Vec<PersistedUser>,
) -> (r: Result<Option<Duration>, String>)
    ensures
        match config {
            Some(c) if c.enabled => match r {
                Ok(every) => {
                    &&& cache is Some
                    &&& c.log_interval > 0
                    &&& every == Some(crate::time::secs(c.log_interval as int))
                    &&& *final(slot) matches Some(o) && o.wf() && o@ == loaded_all(
                        empty_observer(),
                        persisted_views(stored@),
                    )
                },
                Err(e) => {
                    &&& *final(slot) == *old(slot)
                    &&& e@ == if cache is None {
                        "observe requires cache"@
                    } else {
                        "observe log_interval must be greater than zero"@
                    }
                    &&& cache is None || c.log_interval == 0
                },
            },
            _ => r == Ok::<Option<Duration>, String>(None) && *final(slot) == *old(slot),
        },
{
    let c = match config {
        Some(c) => c,
        None => {
            return Ok(None);
        },
    };
    if !c.enabled {
        return Ok(None);
    }
    if cache.is_none() {
        return Err(copy_text("observe requires cache"));
    }
    match spawn_periodic_log(c.log_interval) {
        Err(e) => Err(e),
        Ok(every) => {
            let mut observer = Observer::new();
            observer.load_persisted_users(stored);
            *slot = Some(observer);
            Ok(Some(every))
        },
    }
}

/// An observer that has seen nothing.
pub open spec fn empty_observer() -> ObserverView {
    ObserverView {
        inbounds: Map::empty(),
        outbounds: Map::empty(),
        users: Map::empty(),
        creds: Map::empty(),
        passwords: Map::empty(),
        global: Stats::zero(),
        book: BookView { connections: Map::empty(), destinations: Map::empty() },
        memory: MemStats { total: 0, samples: 0, peak: 0 },
    }
}

/// Lets the observer go.
pub fn shutdown_observer(slot: &mut Option<Observer>)
    ensures
        *final(slot) is None,
{
    *slot = None;
}

/// A connection through a selector is counted on the outbound that the selector leads to, and
/// on the selector as well. One that goes straight to its outbound is counted there alone.
pub proof fn law_what_a_connection_is_counted_on(
    inbound: Seq<char>,
    outbound: Seq<char>,
    active: Seq<Seq<char>>,
    id: Seq<char>,
)
    ensures
        ({
            let t = tags_of(inbound, outbound, active, id);
            &&& t.inbound == inbound && t.id == id
            &&& active.len() == 0 ==> t.outbound == outbound && t.extra is None
            &&& active.len() > 0 ==> t.outbound == active[active.len() - 1]
            &&& t.extra is Some <==> t.outbound != outbound
            &&& t.extra is Some ==> t.extra == Some(outbound)
        }),
{
}

/// Traffic is counted on the nodes it passes, in its own direction, on no other node and no
/// other connection. What has passed no byte changes nothing.
pub proof fn law_traffic_touches_nothing_else(
    o: ObserverView,
    t: TagsView,
    upload: u64,
    download: u64,
    other: Seq<char>,
)
    ensures
        forall|after: ObserverView| #[trigger]
            is_a_count(o, t, upload, download, after) ==> {
                &&& after.users == o.users && after.creds == o.creds && after.passwords
                    == o.passwords
                &&& after.memory == o.memory && after.book.destinations == o.book.destinations
                &&& other != t.inbound && o.inbounds.contains_key(other) ==> after.inbounds[other]
                    == o.inbounds[other]
                &&& other != t.outbound && t.extra != Some(other) && o.outbounds.contains_key(other)
                    ==> after.outbounds[other] == o.outbounds[other]
                &&& other != t.id && o.book.connections.contains_key(other)
                    ==> after.book.connections[other] == o.book.connections[other]
                &&& after.inbounds.dom() == o.inbounds.dom()
                &&& after.outbounds.dom() == o.outbounds.dom()
                &&& after.book.connections.dom() == o.book.connections.dom()
            },
        client_counted(o, t, 0, 0) == o,
        remote_counted(o, t, 0, 0) == o,
{
    assert forall|after: ObserverView| #[trigger] is_a_count(o, t, upload, download, after) implies {
        &&& after.inbounds.dom() == o.inbounds.dom()
        &&& after.outbounds.dom() == o.outbounds.dom()
        &&& after.book.connections.dom() == o.book.connections.dom()
    } by {
        assert(after.inbounds.dom() =~= o.inbounds.dom());
        assert(after.outbounds.dom() =~= o.outbounds.dom());
        assert(after.book.connections.dom() =~= o.book.connections.dom());
    }
}

/// Whether that is what stands after traffic was counted, at the side of the client, at the
/// side of the remote, or of a packet.
pub open spec fn is_a_count(
    o: ObserverView,
    t: TagsView,
    upload: u64,
    download: u64,
    after: ObserverView,
) -> bool {
    ||| after == client_counted(o, t, upload, download)
    ||| after == remote_counted(o, t, upload, download)
    ||| after == packet_counted(o, t, upload, download)
}

/// An opened stream is one more active, and one more in all, on the inbound, on the outbound
/// and on the selector that led there. A closed one is one less active on each. A session over
/// UDP is counted in the same way, among the sessions.
pub proof fn law_connections_are_counted_where_they_pass(o: ObserverView, t: TagsView, node: Stats)
    requires
        o.inbounds.contains_key(t.inbound),
        o.outbounds.contains_key(t.outbound),
        selector_known(o, t),
    ensures
        counted_at(o, t, stream_open(o, t), |s: Stats| s.tcp_opened()),
        counted_at(o, t, stream_close(o, t), |s: Stats| s.tcp_closed()),
        counted_at(o, t, session_open(o, t), |s: Stats| s.udp_opened()),
        counted_at(o, t, session_close(o, t), |s: Stats| s.udp_closed()),
        node.active_tcp_conns < u64::MAX ==> node.tcp_opened().active_tcp_conns
            == node.active_tcp_conns + 1,
        node.active_udp_conns < u64::MAX ==> node.udp_opened().active_udp_conns
            == node.active_udp_conns + 1,
        node.active_tcp_conns > 0 ==> node.tcp_closed().active_tcp_conns == node.active_tcp_conns
            - 1,
        node.active_udp_conns > 0 ==> node.udp_closed().active_udp_conns == node.active_udp_conns
            - 1,
{
    lemma_stream_open(o, t);
    lemma_stream_close(o, t);
    lemma_session_open(o, t);
    lemma_session_close(o, t);
}

/// Whether `after` is `o` but for the counts of the nodes that a connection passes, which
/// `change` has made of those before.
pub open spec fn counted_at(
    o: ObserverView,
    t: TagsView,
    after: ObserverView,
    change: spec_fn(Stats) -> Stats,
) -> bool {
    &&& after == (ObserverView { inbounds: after.inbounds, outbounds: after.outbounds, ..o })
    &&& after.inbounds.dom() == o.inbounds.dom()
    &&& after.outbounds.dom() == o.outbounds.dom()
    &&& forall|tag: Seq<char>| #[trigger]
        o.inbounds.contains_key(tag) ==> after.inbounds[tag] == (NodeView {
            stats: if tag == t.inbound {
                change(o.inbounds[tag].stats)
            } else {
                o.inbounds[tag].stats
            },
            ..o.inbounds[tag]
        })
    &&& forall|tag: Seq<char>| #[trigger]
        o.outbounds.contains_key(tag) ==> after.outbounds[tag] == (NodeView {
            stats: if tag == t.outbound || t.extra == Some(tag) {
                change(o.outbounds[tag].stats)
            } else {
                o.outbounds[tag].stats
            },
            ..o.outbounds[tag]
        })
}

proof fn lemma_stream_open(o: ObserverView, t: TagsView)
    requires
        o.inbounds.contains_key(t.inbound),
        o.outbounds.contains_key(t.outbound),
        selector_known(o, t),
    ensures
        counted_at(o, t, stream_open(o, t), |s: Stats| s.tcp_opened()),
{
    assert(stream_open(o, t).inbounds.dom() =~= o.inbounds.dom());
    assert(stream_open(o, t).outbounds.dom() =~= o.outbounds.dom());
}

proof fn lemma_stream_close(o: ObserverView, t: TagsView)
    requires
        o.inbounds.contains_key(t.inbound),
        o.outbounds.contains_key(t.outbound),
        selector_known(o, t),
    ensures
        counted_at(o, t, stream_close(o, t), |s: Stats| s.tcp_closed()),
{
    assert(stream_close(o, t).inbounds.dom() =~= o.inbounds.dom());
    assert(stream_close(o, t).outbounds.dom() =~= o.outbounds.dom());
}

proof fn lemma_session_open(o: ObserverView, t: TagsView)
    requires
        o.inbounds.contains_key(t.inbound),
        o.outbounds.contains_key(t.outbound),
        selector_known(o, t),
    ensures
        counted_at(o, t, session_open(o, t), |s: Stats| s.udp_opened()),
{
    assert(session_open(o, t).inbounds.dom() =~= o.inbounds.dom());
    assert(session_open(o, t).outbounds.dom() =~= o.outbounds.dom());
}

proof fn lemma_session_close(o: ObserverView, t: TagsView)
    requires
        o.inbounds.contains_key(t.inbound),
        o.outbounds.contains_key(t.outbound),
        selector_known(o, t),
    ensures
        counted_at(o, t, session_close(o, t), |s: Stats| s.udp_closed()),
{
    assert(session_close(o, t).inbounds.dom() =~= o.inbounds.dom());
    assert(session_close(o, t).outbounds.dom() =~= o.outbounds.dom());
}

/// A node is entered once: entering its tag again changes nothing, and entering it leaves the
/// others alone.
pub proof fn law_nodes_are_entered_once(
    nodes: Map<Seq<char>, NodeView>,
    tag: Seq<char>,
    protocol: Seq<char>,
    other: Seq<char>,
)
    ensures
        ({
            let after = registered(nodes, tag, protocol);
            &&& after.contains_key(tag)
            &&& nodes.contains_key(tag) ==> after == nodes
            &&& !nodes.contains_key(tag) ==> after[tag].tag == tag && after[tag].protocol == protocol
                && after[tag].stats == Stats::zero()
            &&& other != tag ==> after.contains_key(other) == nodes.contains_key(other) && (
            nodes.contains_key(other) ==> after[other] == nodes[other])
            &&& registered(after, tag, protocol) == after
        }),
{
}

/// An added user can log in wherever the protocol takes the password, and the credentials of
/// the other users, and those of tags that are no inbound, stay as they were.
pub proof fn law_adding_a_user_changes_no_other(
    creds: Map<(Seq<char>, Seq<char>), Seq<u8>>,
    servers: Map<Seq<char>, NodeView>,
    username: Seq<char>,
    password: Seq<char>,
    tag: Seq<char>,
    other: Seq<char>,
)
    ensures
        ({
            let after = with_user(creds, servers, username, password);
            &&& other != username || !servers.contains_key(tag) ==> after.contains_key((tag, other))
                == creds.contains_key((tag, other)) && (creds.contains_key((tag, other))
                ==> after[(tag, other)] == creds[(tag, other)])
            &&& servers.contains_key(tag) ==> (match credential_of(
                servers[tag].protocol,
                username,
                password,
            ) {
                Ok(c) => after.contains_key((tag, username)) && after[(tag, username)] == c,
                Err(_) => after.contains_key((tag, username)) == creds.contains_key(
                    (tag, username),
                ),
            })
        }),
{
}

/// The reports are those of the users asked for, in their order: of one where a name is given,
/// of all where none is. Each shows what its user's counts were.
pub proof fn law_reports_of_users(
    names: Seq<Seq<char>>,
    users: Map<Seq<char>, Stats>,
    name: Seq<char>,
    i: int,
)
    ensures
        reports(names, users, None).len() == names.len(),
        0 <= i < names.len() ==> ({
            let r = reports(names, users, None)[i];
            let s = users[names[i]];
            &&& r.username == names[i]
            &&& r.traffic.upload == s.upload_bytes && r.traffic.download == s.download_bytes
            &&& r.traffic.total_tcp == s.total_tcp_conns && r.traffic.total_udp
                == s.total_udp_conns
            &&& r.tcp_conns == s.active_tcp_conns && r.udp_conns == s.active_udp_conns
        }),
        names.no_duplicates() && names.contains(name) ==> reports(names, users, Some(name)) == seq![
            report(name, users[name]),
        ],
        !names.contains(name) ==> reports(names, users, Some(name)).len() == 0,
    decreases names.len(),
{
    if names.len() > 0 {
        let rest = names.drop_last();
        law_reports_of_users(rest, users, name, i);
        assert(names.last() == names[names.len() - 1]);
        assert(rest.contains(name) ==> names.contains(name)) by {
            if rest.contains(name) {
                let k = choose|k: int| 0 <= k < rest.len() && rest[k] == name;
                assert(names[k] == name);
            }
        }
        if names.no_duplicates() && names.contains(name) {
            let k = choose|k: int| 0 <= k < names.len() && names[k] == name;
            if k < rest.len() {
                assert(rest[k] == name);
                assert(names.last() != name);
            } else {
                if rest.contains(name) {
                    let j = choose|j: int| 0 <= j < rest.len() && rest[j] == name;
                    assert(names[j] == names[k]);
                }
            }
        }
    }
}

/// Taking the traffic of a user sets it back to nothing and leaves the user's active
/// connections, and every other user, as they were.
pub proof fn law_taking_one_users_traffic(users: Map<Seq<char>, Stats>, name: Seq<char>, other: Seq<char>)
    requires
        users.contains_key(name),
        users.contains_key(other),
        other != name,
    ensures
        ({
            let after = taken(users, Some(name));
            &&& after[other] == users[other]
            &&& after[name].upload_bytes == 0 && after[name].download_bytes == 0
            &&& after[name].total_tcp_conns == 0 && after[name].total_udp_conns == 0
            &&& after[name].active_tcp_conns == users[name].active_tcp_conns
            &&& after[name].active_udp_conns == users[name].active_udp_conns
            &&& taken(users, None)[name] == after[name]
            &&& taken(users, None)[other].upload_bytes == 0
            &&& after.dom() == users.dom()
        }),
{
    assert(taken(users, Some(name)).dom() =~= users.dom());
}

/// What was stored of a user is that user's again: the traffic replaces what was counted, the
/// active connections stay, and a password that was stored replaces the one that is known. Of
/// two stored for one user the later counts. The other users stay as they were.
pub proof fn law_stored_users_come_back(
    o: ObserverView,
    list: Seq<PersistedView>,
    p: PersistedView,
    other: Seq<char>,
)
    requires
        other != p.username,
    ensures
        ({
            let before = loaded_all(o, list);
            let after = loaded_all(o, list.push(p));
            &&& after.users.contains_key(p.username)
            &&& after.users[p.username].snapshot() == p.traffic
            &&& before.users.contains_key(p.username) ==> after.users[p.username].active_tcp_conns
                == before.users[p.username].active_tcp_conns
                && after.users[p.username].active_udp_conns
                == before.users[p.username].active_udp_conns
            &&& p.password.len() > 0 ==> after.passwords.contains_key(p.username)
                && after.passwords[p.username] == p.password
            &&& p.password.len() == 0 ==> after.passwords == before.passwords
            &&& after.users.contains_key(other) == before.users.contains_key(other)
            &&& before.users.contains_key(other) ==> after.users[other] == before.users[other]
            &&& after.passwords.contains_key(other) == before.passwords.contains_key(other)
            &&& before.passwords.contains_key(other) ==> after.passwords[other]
                == before.passwords[other]
            &&& after == (ObserverView { users: after.users, passwords: after.passwords, ..before })
        }),
        loaded_all(o, Seq::empty()) == o,
{
    assert(list.push(p).drop_last() =~= list);
}

} // verus!
