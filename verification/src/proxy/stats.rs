//! Counters: what a server, a way out, a user or the whole proxy has carried.

use crate::config::{opt_str, opt_text};
use crate::text::{copy_text, str_eq};
use vstd::prelude::*;

verus! {

/// One set of counters. They wrap around at the end of their range.
#[derive(Debug, Clone, Copy, PartialEq, Eq, Structural)]
pub struct Stats {
    pub active_tcp_conns: u64,
    pub active_udp_conns: u64,
    pub total_tcp_conns: u64,
    pub total_udp_conns: u64,
    pub upload_bytes: u64,
    pub download_bytes: u64,
    pub dns_total_time_us: u64,
    pub dns_query_count: u64,
    pub route_total_time_us: u64,
    pub route_match_count: u64,
    pub latency_ms: i64,
}

/// The counters that add up over time.
#[derive(Debug, Clone, Copy, PartialEq, Eq, Structural)]
pub struct TrafficSnapshot {
    pub upload: u64,
    pub download: u64,
    pub total_tcp: u64,
    pub total_udp: u64,
}

/// The mean of `count` numbers that add up to `total`; zero where there are none.
pub open spec fn mean(total: u64, count: u64) -> u64 {
    if count == 0 {
        0
    } else {
        total / count
    }
}

/// One less, but not below zero.
pub open spec fn less_one(n: u64) -> u64 {
    if n == 0 {
        0
    } else {
        (n - 1) as u64
    }
}

impl Stats {
    /// Counters at zero.
    pub open spec fn zero() -> Stats {
        Stats {
            active_tcp_conns: 0,
            active_udp_conns: 0,
            total_tcp_conns: 0,
            total_udp_conns: 0,
            upload_bytes: 0,
            download_bytes: 0,
            dns_total_time_us: 0,
            dns_query_count: 0,
            route_total_time_us: 0,
            route_match_count: 0,
            latency_ms: 0,
        }
    }

    /// With that much more traffic.
    pub open spec fn plus(self, upload: u64, download: u64) -> Stats {
        Stats {
            upload_bytes: self.upload_bytes.wrapping_add(upload),
            download_bytes: self.download_bytes.wrapping_add(download),
            ..self
        }
    }

    /// With one more TCP connection.
    pub open spec fn tcp_opened(self) -> Stats {
        Stats {
            active_tcp_conns: self.active_tcp_conns.wrapping_add(1),
            total_tcp_conns: self.total_tcp_conns.wrapping_add(1),
            ..self
        }
    }

    /// With one TCP connection gone.
    pub open spec fn tcp_closed(self) -> Stats {
        Stats { active_tcp_conns: less_one(self.active_tcp_conns), ..self }
    }

    /// With one more UDP session.
    pub open spec fn udp_opened(self) -> Stats {
        Stats {
            active_udp_conns: self.active_udp_conns.wrapping_add(1),
            total_udp_conns: self.total_udp_conns.wrapping_add(1),
            ..self
        }
    }

    /// With one UDP session gone.
    pub open spec fn udp_closed(self) -> Stats {
        Stats { active_udp_conns: less_one(self.active_udp_conns), ..self }
    }

    /// The counters that add up over time.
    pub open spec fn snapshot(self) -> TrafficSnapshot {
        TrafficSnapshot {
            upload: self.upload_bytes,
            download: self.download_bytes,
            total_tcp: self.total_tcp_conns,
            total_udp: self.total_udp_conns,
        }
    }

    /// With the counters that add up over time set to a snapshot.
    pub open spec fn with_traffic(self, s: TrafficSnapshot) -> Stats {
        Stats {
            upload_bytes: s.upload,
            download_bytes: s.download,
            total_tcp_conns: s.total_tcp,
            total_udp_conns: s.total_udp,
            ..self
        }
    }

    /// With the counters that add up over time at zero.
    pub open spec fn without_traffic(self) -> Stats {
        self.with_traffic(TrafficSnapshot { upload: 0, download: 0, total_tcp: 0, total_udp: 0 })
    }
}

impl Default for Stats {
    fn default() -> (s: Stats)
        ensures
            s == Stats::zero(),
    {
        Stats {
            active_tcp_conns: 0,
            active_udp_conns: 0,
            total_tcp_conns: 0,
            total_udp_conns: 0,
            upload_bytes: 0,
            download_bytes: 0,
            dns_total_time_us: 0,
            dns_query_count: 0,
            route_total_time_us: 0,
            route_match_count: 0,
            latency_ms: 0,
        }
    }
}

impl Default for TrafficSnapshot {
    fn default() -> (s: TrafficSnapshot)
        ensures
            s == (TrafficSnapshot { upload: 0, download: 0, total_tcp: 0, total_udp: 0 }),
    {
        TrafficSnapshot { upload: 0, download: 0, total_tcp: 0, total_udp: 0 }
    }
}

impl Stats {
    /// The latency measured last.
    pub fn get_latency_ms(&self) -> (ms: i64)
        ensures
            ms == self.latency_ms,
    {
        self.latency_ms
    }

    /// Notes a measured latency.
    pub fn record_latency_ms(&mut self, ms: i64)
        ensures
            *final(self) == (Stats { latency_ms: ms, ..*old(self) }),
    {
        self.latency_ms = ms;
    }

    /// Bytes from the client's side.
    pub fn get_upload_bytes(&self) -> (n: u64)
        ensures
            n == self.upload_bytes,
    {
        self.upload_bytes
    }

    /// Bytes to the client's side.
    pub fn get_download_bytes(&self) -> (n: u64)
        ensures
            n == self.download_bytes,
    {
        self.download_bytes
    }

    /// TCP connections that are open now.
    pub fn get_active_tcp_conns(&self) -> (n: u64)
        ensures
            n == self.active_tcp_conns,
    {
        self.active_tcp_conns
    }

    /// UDP sessions that are open now.
    pub fn get_active_udp_sessions(&self) -> (n: u64)
        ensures
            n == self.active_udp_conns,
    {
        self.active_udp_conns
    }

    /// TCP connections so far.
    pub fn get_total_tcp_conns(&self) -> (n: u64)
        ensures
            n == self.total_tcp_conns,
    {
        self.total_tcp_conns
    }

    /// UDP sessions so far.
    pub fn get_total_udp_conns(&self) -> (n: u64)
        ensures
            n == self.total_udp_conns,
    {
        self.total_udp_conns
    }

    /// The mean time of a DNS query in microseconds.
    pub fn get_dns_avg_time_us(&self) -> (us: u64)
        ensures
            us == mean(self.dns_total_time_us, self.dns_query_count),
    {
        if self.dns_query_count == 0 {
            0
        } else {
            self.dns_total_time_us / self.dns_query_count
        }
    }

    /// The mean time of a routing decision in microseconds.
    pub fn get_route_avg_time_us(&self) -> (us: u64)
        ensures
            us == mean(self.route_total_time_us, self.route_match_count),
    {
        if self.route_match_count == 0 {
            0
        } else {
            self.route_total_time_us / self.route_match_count
        }
    }

    /// Counts traffic of both directions.
    pub fn add_traffic(&mut self, upload: u64, download: u64)
        ensures
            *final(self) == old(self).plus(upload, download),
    {
        self.upload_bytes = self.upload_bytes.wrapping_add(upload);
        self.download_bytes = self.download_bytes.wrapping_add(download);
    }

    /// Counts a DNS query.
    pub fn record_dns_time(&mut self, duration_us: u64)
        ensures
            *final(self) == (Stats {
                dns_total_time_us: old(self).dns_total_time_us.wrapping_add(duration_us),
                dns_query_count: old(self).dns_query_count.wrapping_add(1),
                ..*old(self)
            }),
    {
        self.dns_total_time_us = self.dns_total_time_us.wrapping_add(duration_us);
        self.dns_query_count = self.dns_query_count.wrapping_add(1);
    }

    /// Counts a routing decision.
    pub fn record_route_time(&mut self, duration_us: u64)
        ensures
            *final(self) == (Stats {
                route_total_time_us: old(self).route_total_time_us.wrapping_add(duration_us),
                route_match_count: old(self).route_match_count.wrapping_add(1),
                ..*old(self)
            }),
    {
        self.route_total_time_us = self.route_total_time_us.wrapping_add(duration_us);
        self.route_match_count = self.route_match_count.wrapping_add(1);
    }

    /// Counts a TCP connection in.
    pub fn inc_active_tcp(&mut self)
        ensures
            *final(self) == old(self).tcp_opened(),
    {
        self.active_tcp_conns = self.active_tcp_conns.wrapping_add(1);
        self.total_tcp_conns = self.total_tcp_conns.wrapping_add(1);
    }

    /// Counts a TCP connection out.
    pub fn dec_active_tcp(&mut self)
        ensures
            *final(self) == old(self).tcp_closed(),
    {
        self.active_tcp_conns = self.active_tcp_conns.saturating_sub(1);
    }

    /// Counts a UDP session in.
    pub fn inc_active_udp(&mut self)
        ensures
            *final(self) == old(self).udp_opened(),
    {
        self.active_udp_conns = self.active_udp_conns.wrapping_add(1);
        self.total_udp_conns = self.total_udp_conns.wrapping_add(1);
    }

    /// Counts a UDP session out.
    pub fn dec_active_udp(&mut self)
        ensures
            *final(self) == old(self).udp_closed(),
    {
        self.active_udp_conns = self.active_udp_conns.saturating_sub(1);
    }

    /// Counts traffic from the client's side.
    pub fn inc_upload(&mut self, bytes: u64)
        ensures
            *final(self) == old(self).plus(bytes, 0),
    {
        self.upload_bytes = self.upload_bytes.wrapping_add(bytes);
    }

    /// Counts traffic to the client's side.
    pub fn inc_download(&mut self, bytes: u64)
        ensures
            *final(self) == old(self).plus(0, bytes),
    {
        self.download_bytes = self.download_bytes.wrapping_add(bytes);
    }

    /// Reads the counters that add up over time and sets them to zero. Open connections stay
    /// counted.
    pub fn take_traffic(&mut self) -> (s: TrafficSnapshot)
        ensures
            s == old(self).snapshot(),
            *final(self) == old(self).without_traffic(),
    {
        let s = TrafficSnapshot {
            upload: self.upload_bytes,
            download: self.download_bytes,
            total_tcp: self.total_tcp_conns,
            total_udp: self.total_udp_conns,
        };
        self.upload_bytes = 0;
        self.download_bytes = 0;
        self.total_tcp_conns = 0;
        self.total_udp_conns = 0;
        s
    }

    /// Sets the counters that add up over time.
    pub fn restore(&mut self, snapshot: TrafficSnapshot)
        ensures
            *final(self) == old(self).with_traffic(snapshot),
    {
        self.upload_bytes = snapshot.upload;
        self.download_bytes = snapshot.download;
        self.total_tcp_conns = snapshot.total_tcp;
        self.total_udp_conns = snapshot.total_udp;
    }
}

/// No traffic is lost between two readings: what a reading took, and what came after it, is what
/// would have been counted without the reading.
pub proof fn law_taking_loses_nothing(s: Stats, upload: u64, download: u64)
    requires
        s.upload_bytes + upload <= u64::MAX,
        s.download_bytes + download <= u64::MAX,
    ensures
        s.snapshot().upload + s.without_traffic().plus(upload, download).upload_bytes == s.plus(
            upload,
            download,
        ).upload_bytes,
        s.snapshot().download + s.without_traffic().plus(upload, download).download_bytes == s.plus(
            upload,
            download,
        ).download_bytes,
        s.without_traffic().active_tcp_conns == s.active_tcp_conns,
        s.without_traffic().active_udp_conns == s.active_udp_conns,
{
}

/// What was taken can be put back.
pub proof fn law_restore_undoes_taking(s: Stats)
    ensures
        s.without_traffic().with_traffic(s.snapshot()) == s,
{
}

/// Opening and closing a connection leaves the number of open ones as it was.
pub proof fn law_open_then_close(s: Stats)
    requires
        s.active_tcp_conns < u64::MAX,
        s.active_udp_conns < u64::MAX,
    ensures
        s.tcp_opened().tcp_closed().active_tcp_conns == s.active_tcp_conns,
        s.udp_opened().udp_closed().active_udp_conns == s.active_udp_conns,
{
}

/// How a path is doing. `rtt_bits` is the round-trip time in milliseconds as the bits of a
/// single-precision number.
#[derive(Debug, Clone, Copy, PartialEq, Eq, Structural)]
pub struct PathState {
    pub lost_packets: u64,
    pub sent_packets: u64,
    pub mtu: u16,
    pub rtt_bits: u32,
}

/// What the last test of a way out found.
#[derive(Debug)]
pub struct OutboundTraceInfo {
    pub ip: String,
    pub loc: String,
    pub uplink_path_stats: Option<PathState>,
    pub downlink_path_stats: Option<PathState>,
}

/// The value of a test's findings.
#[verifier::ext_equal]
pub struct TraceView {
    pub ip: Seq<char>,
    pub loc: Seq<char>,
    pub uplink: Option<PathState>,
    pub downlink: Option<PathState>,
}

impl View for OutboundTraceInfo {
    type V = TraceView;

    open spec fn view(&self) -> TraceView {
        TraceView {
            ip: self.ip@,
            loc: self.loc@,
            uplink: self.uplink_path_stats,
            downlink: self.downlink_path_stats,
        }
    }
}

/// No findings.
pub open spec fn no_trace() -> TraceView {
    TraceView { ip: Seq::empty(), loc: Seq::empty(), uplink: None, downlink: None }
}

impl Default for OutboundTraceInfo {
    fn default() -> (t: OutboundTraceInfo)
        ensures
            t@ == no_trace(),
    {
        let t = OutboundTraceInfo {
            ip: String::new(),
            loc: String::new(),
            uplink_path_stats: None,
            downlink_path_stats: None,
        };
        assert(t@ =~= no_trace());
        t
    }
}

impl OutboundTraceInfo {
    /// A copy.
    pub fn copy(&self) -> (t: OutboundTraceInfo)
        ensures
            t@ == self@,
    {
        OutboundTraceInfo {
            ip: copy_text(self.ip.as_str()),
            loc: copy_text(self.loc.as_str()),
            uplink_path_stats: self.uplink_path_stats,
            downlink_path_stats: self.downlink_path_stats,
        }
    }
}

/// What is known of one server or one way out.
#[derive(Debug)]
pub struct NodeStats {
    pub tag: String,
    pub protocol: String,
    pub stats: Stats,
    pub is_testing_trace: bool,
    pub trace: OutboundTraceInfo,
}

/// The value of what is known of a server or a way out.
#[verifier::ext_equal]
pub struct NodeView {
    pub tag: Seq<char>,
    pub protocol: Seq<char>,
    pub stats: Stats,
    pub is_testing_trace: bool,
    pub trace: TraceView,
}

impl View for NodeStats {
    type V = NodeView;

    open spec fn view(&self) -> NodeView {
        NodeView {
            tag: self.tag@,
            protocol: self.protocol@,
            stats: self.stats,
            is_testing_trace: self.is_testing_trace,
            trace: self.trace@,
        }
    }
}

/// What is known at first.
pub open spec fn new_node(tag: Seq<char>, protocol: Seq<char>) -> NodeView {
    NodeView {
        tag,
        protocol,
        stats: Stats::zero(),
        is_testing_trace: false,
        trace: no_trace(),
    }
}

impl NodeStats {
    /// A server or way out of which nothing is known yet.
    pub fn new(tag: &str, protocol: &str) -> (n: NodeStats)
        ensures
            n@ == new_node(tag@, protocol@),
    {
        NodeStats {
            tag: copy_text(tag),
            protocol: copy_text(protocol),
            stats: Stats::default(),
            is_testing_trace: false,
            trace: OutboundTraceInfo::default(),
        }
    }

    /// The way out that a selector has chosen, for reports to show; nothing for any other node, nor
    /// where nothing is chosen.
    pub fn selector_tag(&self, selected: Option<&str>) -> (tag: Option<String>)
        ensures
            opt_text(tag) == if self@.protocol == "selector"@ || self@.protocol == "urltest"@ {
                opt_str(selected)
            } else {
                None
            },
    {
        if !str_eq(self.protocol.as_str(), "selector") && !str_eq(self.protocol.as_str(), "urltest") {
            return None;
        }
        match selected {
            Some(tag) => Some(copy_text(tag)),
            None => None,
        }
    }
}

/// What is counted is added to what was counted before, in its own direction.
pub proof fn law_traffic_adds_up(s: Stats, upload: u64, download: u64)
    requires
        s.upload_bytes + upload <= u64::MAX,
        s.download_bytes + download <= u64::MAX,
    ensures
        ({
            let after = s.plus(upload, download);
            &&& after.upload_bytes == s.upload_bytes + upload
            &&& after.download_bytes == s.download_bytes + download
            &&& after == (Stats {
                upload_bytes: after.upload_bytes,
                download_bytes: after.download_bytes,
                ..s
            })
        }),
{
}

/// An opened connection counts as one more active and one more in all, among those of its kind.
/// A closed one counts as one less active, as long as any is. Nothing else changes with either.
pub proof fn law_connections_add_up(s: Stats)
    requires
        s.active_tcp_conns < u64::MAX,
        s.active_udp_conns < u64::MAX,
        s.total_tcp_conns < u64::MAX,
        s.total_udp_conns < u64::MAX,
    ensures
        s.tcp_opened() == (Stats {
            active_tcp_conns: (s.active_tcp_conns + 1) as u64,
            total_tcp_conns: (s.total_tcp_conns + 1) as u64,
            ..s
        }),
        s.udp_opened() == (Stats {
            active_udp_conns: (s.active_udp_conns + 1) as u64,
            total_udp_conns: (s.total_udp_conns + 1) as u64,
            ..s
        }),
        s.tcp_closed() == (Stats { active_tcp_conns: s.tcp_closed().active_tcp_conns, ..s }),
        s.udp_closed() == (Stats { active_udp_conns: s.udp_closed().active_udp_conns, ..s }),
        s.active_tcp_conns > 0 ==> s.tcp_closed().active_tcp_conns == s.active_tcp_conns - 1,
        s.active_udp_conns > 0 ==> s.udp_closed().active_udp_conns == s.active_udp_conns - 1,
        s.active_tcp_conns == 0 ==> s.tcp_closed() == s,
        s.active_udp_conns == 0 ==> s.udp_closed() == s,
{
}

/// A mean is the whole part of the total over the count, and nothing of nothing.
pub proof fn law_mean(total: u64, count: u64)
    ensures
        count > 0 ==> mean(total, count) * count <= total < (mean(total, count) + 1) * count,
        mean(total, 0) == 0,
{
    if count > 0 {
        vstd::arithmetic::div_mod::lemma_fundamental_div_mod(total as int, count as int);
        let q = mean(total, count) as int;
        let c = count as int;
        assert(q * c == c * q) by (nonlinear_arith);
        assert((q + 1) * c == q * c + c) by (nonlinear_arith);
    }
}

/// A snapshot shows the traffic and the connections in all, each under its own name. A new node
/// has counted nothing.
pub proof fn law_snapshot_shows_the_counts(s: Stats, tag: Seq<char>, protocol: Seq<char>)
    ensures
        s.snapshot().upload == s.upload_bytes,
        s.snapshot().download == s.download_bytes,
        s.snapshot().total_tcp == s.total_tcp_conns,
        s.snapshot().total_udp == s.total_udp_conns,
        s.without_traffic().snapshot() == (TrafficSnapshot {
            upload: 0,
            download: 0,
            total_tcp: 0,
            total_udp: 0,
        }),
        new_node(tag, protocol).tag == tag,
        new_node(tag, protocol).protocol == protocol,
        new_node(tag, protocol).stats.snapshot() == s.without_traffic().snapshot(),
        new_node(tag, protocol).stats.active_tcp_conns == 0,
        new_node(tag, protocol).stats.active_udp_conns == 0,
        new_node(tag, protocol).stats.latency_ms == 0,
        !new_node(tag, protocol).is_testing_trace,
{
}

} // verus!
