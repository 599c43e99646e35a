//! What is logged of the counters from time to time.

use crate::proxy::observe::{lists_nodes, MemStats, Observer, ObserverView};
use crate::proxy::stats::{mean, NodeStats, NodeView};
use crate::text::copy_text;
use vstd::prelude::*;

verus! {

/// The line about a node.
#[derive(Debug)]
pub struct NodeLine {
    pub tag: String,
    pub protocol: String,
    pub tcp: u64,
    pub udp: u64,
    pub upload: u64,
    pub download: u64,
    pub latency_ms: i64,
}

/// Whether a line says what is counted of a node.
pub open spec fn line_of(line: NodeLine, node: NodeView) -> bool {
    &&& line.protocol@ == node.protocol
    &&& line.tcp == node.stats.active_tcp_conns
    &&& line.udp == node.stats.active_udp_conns
    &&& line.upload == node.stats.upload_bytes
    &&& line.download == node.stats.download_bytes
    &&& line.latency_ms == node.stats.latency_ms
}

/// Whether there is one line about every node.
pub open spec fn lines_of(lines: Seq<NodeLine>, nodes: Map<Seq<char>, NodeView>) -> bool {
    &&& forall|i: int|
        0 <= i < lines.len() ==> nodes.contains_key((#[trigger] lines[i]).tag@) && line_of(
            lines[i],
            nodes[lines[i].tag@],
        )
    &&& forall|i: int, j: int|
        0 <= i < j < lines.len() ==> (#[trigger] lines[i]).tag@ != (#[trigger] lines[j]).tag@
    &&& forall|tag: Seq<char>| #[trigger]
        nodes.contains_key(tag) ==> exists|i: int|
            0 <= i < lines.len() && (#[trigger] lines[i]).tag@ == tag
}

/// The line about the memory in use.
#[derive(Debug, Clone, Copy, PartialEq, Eq, Structural)]
pub struct MemoryLine {
    pub current: u64,
    pub average: u64,
    pub peak: u64,
}

/// What is logged.
#[derive(Debug)]
pub struct Statistics {
    pub inbounds: Vec<NodeLine>,
    pub outbounds: Vec<NodeLine>,
    pub dns_avg_time_us: u64,
    pub route_avg_time_us: u64,
    pub memory: Option<MemoryLine>,
}

/// The samples of the memory in use after one more; a sample of nothing is none.
pub open spec fn sampled(memory: MemStats, current: Option<u64>) -> MemStats {
    match current {
        Some(n) if n > 0 => memory.plus(n),
        _ => memory,
    }
}

fn lines_about(nodes: Vec<(&str, &NodeStats)>, Ghost(all): Ghost<Map<Seq<char>, NodeView>>) -> (lines:
    Vec<NodeLine>)
    requires
        lists_nodes(nodes@, all),
    ensures
        lines_of(lines@, all),
{
    let mut lines: Vec<NodeLine> = Vec::new();
    let mut i: usize = 0;
    while i < nodes.len()
        invariant
            i <= nodes@.len(),
            lines@.len() == i,
            forall|k: int|
                0 <= k < i ==> (#[trigger] lines@[k]).tag@ == nodes@[k].0@ && line_of(
                    lines@[k],
                    nodes@[k].1@,
                ),
        decreases nodes@.len() - i,
    {
        let (tag, node) = nodes[i];
        lines.push(
            NodeLine {
                tag: copy_text(tag),
                protocol: copy_text(node.protocol.as_str()),
                tcp: node.stats.get_active_tcp_conns(),
                udp: node.stats.get_active_udp_sessions(),
                upload: node.stats.get_upload_bytes(),
                download: node.stats.get_download_bytes(),
                latency_ms: node.stats.get_latency_ms(),
            },
        );
        i += 1;
    }
    proof {
        assert forall|k: int| 0 <= k < lines@.len() implies all.contains_key(
            (#[trigger] lines@[k]).tag@,
        ) && line_of(lines@[k], all[lines@[k].tag@]) by {
            assert(all.contains_key(nodes@[k].0@));
        }
        assert forall|k: int, j: int| 0 <= k < j < lines@.len() implies (#[trigger] lines@[k]).tag@ != (
        #[trigger] lines@[j]).tag@ by {
            assert(nodes@[k].0@ != nodes@[j].0@);
        }
        assert forall|tag: Seq<char>| #[trigger] all.contains_key(tag) implies exists|k: int|
            0 <= k < lines@.len() && (#[trigger] lines@[k]).tag@ == tag by {
            let k = choose|k: int| 0 <= k < nodes@.len() && (#[trigger] nodes@[k]).0@ == tag;
            assert(lines@[k].tag@ == tag);
        }
    }
    lines
}

impl Observer {
    /// Takes a sample of the memory in use, where one is had, and says what is logged.
    pub fn log_statistics(&mut self, current_mem: Option<u64>) -> (s: Statistics)
        requires
            old(self).wf(),
        ensures
            final(self).wf(),
            final(self)@ == (ObserverView {
                memory: sampled(old(self)@.memory, current_mem),
                ..old(self)@
            }),
            lines_of(s.inbounds@, old(self)@.inbounds),
            lines_of(s.outbounds@, old(self)@.outbounds),
            s.dns_avg_time_us == mean(
                old(self)@.global.dns_total_time_us,
                old(self)@.global.dns_query_count,
            ),
            s.route_avg_time_us == mean(
                old(self)@.global.route_total_time_us,
                old(self)@.global.route_match_count,
            ),
            s.memory == match current_mem {
                Some(n) if n > 0 => {
                    let m = old(self)@.memory.plus(n);
                    Some(
                        MemoryLine {
                            current: n,
                            average: (m.total / m.samples) as u64,
                            peak: m.peak,
                        },
                    )
                },
                _ => None,
            },
    {
        let inbounds = lines_about(self.get_all_inbounds(), Ghost(self@.inbounds));
        let outbounds = lines_about(self.get_all_outbounds(), Ghost(self@.outbounds));
        let global = self.get_global_stats();
        let dns_avg_time_us: u64 = global.get_dns_avg_time_us();
        let route_avg_time_us: u64 = global.get_route_avg_time_us();
        let memory = match current_mem {
            Some(current) => {
                if current > 0 {
                    self.record_memory(current);
                    let m = self.mem_stats;
                    Some(MemoryLine { current, average: m.total / m.samples, peak: m.peak })
                } else {
                    None
                }
            },
            None => None,
        };
        Statistics { inbounds, outbounds, dns_avg_time_us, route_avg_time_us, memory }
    }
}

/// Only readings above nothing are sampled: each adds to the total and to the number of samples,
/// and raises the peak where it is higher.
pub proof fn law_samples_of_memory(memory: MemStats, n: u64)
    requires
        memory.total + n <= u64::MAX,
        memory.samples < u64::MAX,
    ensures
        sampled(memory, None) == memory,
        sampled(memory, Some(0)) == memory,
        n > 0 ==> ({
            let after = sampled(memory, Some(n));
            &&& after.total == memory.total + n
            &&& after.samples == memory.samples + 1
            &&& after.peak >= n && after.peak >= memory.peak
            &&& after.peak == n || after.peak == memory.peak
        }),
{
}

} // verus!
