//! Routing: which way out a connection takes, and the life of a UDP session.

use crate::config::{copy_opt, opt_text, RouterMode};
use crate::dns::message::{dns_message, parse_message, DnsMessage, DnsView};
use crate::proxy::addr::{TargetAddr, TargetView};
use crate::text::copy_text;
use crate::time::Duration;
use vstd::prelude::*;

verus! {

/// How many packets wait for a UDP session at most.
pub const UDP_SESSION_QUEUE_CAPACITY: usize = 16;

/// What the first packet gives away: the name that a DNS query asks for.
#[derive(Debug)]
pub struct Sniffed {
    pub qtype: u16,
    pub target: TargetAddr,
}

/// The value of what the first packet gives away.
#[verifier::ext_equal]
pub struct SniffedView {
    pub qtype: u16,
    pub target: TargetView,
}

impl View for Sniffed {
    type V = SniffedView;

    open spec fn view(&self) -> SniffedView {
        SniffedView { qtype: self.qtype, target: self.target@ }
    }
}

/// The value of what the first packet gives away, if anything.
pub open spec fn opt_sniffed(s: Option<Sniffed>) -> Option<SniffedView> {
    match s {
        Some(x) => Some(x@),
        None => None,
    }
}

/// What a DNS message gives away: its first question.
pub open spec fn sniffed_from(m: DnsView, port: u16) -> Option<SniffedView> {
    if m.questions.len() == 0 {
        None
    } else {
        Some(
            SniffedView {
                qtype: m.questions[0].1,
                target: TargetView::Domain(m.questions[0].0, port),
            },
        )
    }
}

/// What a packet gives away.
pub open spec fn sniffed(payload: Option<Seq<u8>>, original: TargetView) -> Option<SniffedView> {
    match payload {
        None => None,
        Some(data) => match dns_message(data) {
            None => None,
            Some(m) => sniffed_from(m, original.port()),
        },
    }
}

/// The value of optional borrowed bytes.
pub open spec fn opt_slice(b: Option<&[u8]>) -> Option<Seq<u8>> {
    match b {
        Some(bytes) => Some(bytes@),
        None => None,
    }
}

/// Reads what a DNS message gives away.
pub fn sniff_message(m: &DnsMessage, port: u16) -> (s: Option<Sniffed>)
    ensures
        opt_sniffed(s) == sniffed_from(m@, port),
{
    if m.questions.len() == 0 {
        return None;
    }
    let q = &m.questions[0];
    assert(m@.questions[0] == (q.name@, q.qtype));
    Some(
        Sniffed { qtype: q.qtype, target: TargetAddr::Domain(copy_text(q.name.as_str()), port) },
    )
}

/// Reads what a packet gives away. A name that is asked for stands in for the address that the query
/// was sent to.
pub fn sniff_dns_target(payload: Option<&[u8]>, original_target: &TargetAddr) -> (s: Option<Sniffed>)
    ensures
        opt_sniffed(s) == sniffed(opt_slice(payload), original_target@),
{
    match payload {
        None => None,
        Some(data) => match parse_message(data) {
            None => None,
            Some(m) => sniff_message(&m, original_target.port()),
        },
    }
}

/// One rule, as far as the order of rules goes: in which modes it holds, whether it asks for the
/// protocol, where it leads, and which server resolves names for it.
#[derive(Debug)]
pub struct Rule {
    pub modes: Option<Vec<RouterMode>>,
    pub asks_protocol: bool,
    pub outbound: String,
    pub dns: Option<String>,
}

impl Rule {
    /// Whether the rule holds in a mode: in each one, unless it names some.
    pub open spec fn holds_in(self, mode: RouterMode) -> bool {
        match self.modes {
            None => true,
            Some(list) => list@.len() == 0 || list@.contains(mode),
        }
    }

    /// Whether the rule holds in a mode.
    pub fn applies(&self, mode: RouterMode) -> (r: bool)
        ensures
            r == self.holds_in(mode),
    {
        match &self.modes {
            None => true,
            Some(list) => {
                if list.len() == 0 {
                    return true;
                }
                let mut i: usize = 0;
                while i < list.len()
                    invariant
                        self.modes is Some,
                        self.modes->0 == *list,
                        i <= list@.len(),
                        forall|k: int| 0 <= k < i ==> list@[k] != mode,
                    decreases list@.len() - i,
                {
                    if list[i] == mode {
                        assert(list@[i as int] == mode);
                        return true;
                    }
                    i += 1;
                }
                false
            },
        }
    }
}

/// The first rule from `from` on that holds in a mode; the number of rules, if there is none.
pub open spec fn next_rule(rules: Seq<Rule>, mode: RouterMode, from: int) -> int
    decreases rules.len() - from,
{
    if from >= rules.len() {
        rules.len() as int
    } else if rules[from].holds_in(mode) {
        from
    } else {
        next_rule(rules, mode, from + 1)
    }
}

/// The search for the rule that a connection falls under.
#[derive(Debug)]
pub struct Selection {
    /// The rule to look at next.
    pub at: usize,
    /// Whether the first packet has been looked at, and what it gave away.
    pub sniffed: Option<Option<Sniffed>>,
}

/// Where a connection goes.
#[derive(Debug)]
pub struct Route {
    /// The way out; the default one, where no rule matched.
    pub outbound: Option<String>,
    pub target: TargetAddr,
    pub matched_idx: Option<usize>,
    pub dns: Option<String>,
}

/// The value of where a connection goes.
#[verifier::ext_equal]
pub struct RouteView {
    pub outbound: Option<Seq<char>>,
    pub target: TargetView,
    pub matched_idx: Option<usize>,
    pub dns: Option<Seq<char>>,
}

impl View for Route {
    type V = RouteView;

    open spec fn view(&self) -> RouteView {
        RouteView {
            outbound: opt_text(self.outbound),
            target: self.target@,
            matched_idx: self.matched_idx,
            dns: opt_text(self.dns),
        }
    }
}

/// The target that rules are held against: the one that the first packet gave away, or the original.
pub open spec fn effective(sniffed: Option<Option<SniffedView>>, original: TargetView) -> TargetView {
    match sniffed {
        Some(Some(s)) => s.target,
        _ => original,
    }
}

/// The value of what has been found out about the first packet.
pub open spec fn sniff_state(s: Option<Option<Sniffed>>) -> Option<Option<SniffedView>> {
    match s {
        Some(x) => Some(opt_sniffed(x)),
        None => None,
    }
}

impl Selection {
    /// A search that has looked at no rule.
    pub fn new() -> (s: Selection)
        ensures
            s.at == 0,
            s.sniffed is None,
    {
        Selection { at: 0, sniffed: None }
    }

    /// The next rule to hold the connection against. The first packet is looked at once, when the
    /// first rule comes up that asks for the protocol.
    pub fn next(
        &mut self,
        rules: &Vec<Rule>,
        mode: RouterMode,
        payload: Option<&[u8]>,
        original_target: &TargetAddr,
    ) -> (i: Option<usize>)
        requires
            old(self).at <= rules@.len(),
        ensures
            match i {
                Some(i) => {
                    &&& i == next_rule(rules@, mode, old(self).at as int)
                    &&& i < rules@.len()
                    &&& final(self).at == i + 1
                    &&& sniff_state(final(self).sniffed) == if old(self).sniffed is Some
                        || !rules@[i as int].asks_protocol {
                        sniff_state(old(self).sniffed)
                    } else {
                        Some(sniffed(opt_slice(payload), original_target@))
                    }
                },
                None => {
                    &&& next_rule(rules@, mode, old(self).at as int) == rules@.len()
                    &&& final(self).at == rules@.len()
                    &&& sniff_state(final(self).sniffed) == sniff_state(old(self).sniffed)
                },
            },
    {
        while self.at < rules.len() && !rules[self.at].applies(mode)
            invariant
                old(self).at <= self.at <= rules@.len(),
                self.sniffed == old(self).sniffed,
                next_rule(rules@, mode, self.at as int) == next_rule(
                    rules@,
                    mode,
                    old(self).at as int,
                ),
            decreases rules@.len() - self.at,
        {
            self.at = self.at + 1;
        }
        if self.at >= rules.len() {
            return None;
        }
        let i: usize = self.at;
        self.at = i + 1;
        if self.sniffed.is_none() && rules[i].asks_protocol {
            self.sniffed = Some(sniff_dns_target(payload, original_target));
        }
        Some(i)
    }

    /// The target that rules are held against.
    pub fn effective_target(&self, original_target: &TargetAddr) -> (t: TargetAddr)
        ensures
            t@ == effective(sniff_state(self.sniffed), original_target@),
    {
        match &self.sniffed {
            Some(Some(s)) => s.target.copy(),
            _ => original_target.copy(),
        }
    }

    /// The type of the query that the first packet gave away.
    pub fn query_type(&self) -> (q: Option<u16>)
        ensures
            q == match sniff_state(self.sniffed) {
                Some(Some(s)) => Some(s.qtype),
                _ => None,
            },
    {
        match &self.sniffed {
            Some(Some(s)) => Some(s.qtype),
            _ => None,
        }
    }

    /// Where the connection goes once rule `i` has matched; `resolved` is the target that matching it
    /// came to know.
    pub fn matched(
        &self,
        rules: &Vec<Rule>,
        i: usize,
        resolved: Option<TargetAddr>,
        original_target: &TargetAddr,
    ) -> (r: Route)
        requires
            i < rules@.len(),
        ensures
            r@ == (RouteView {
                outbound: Some(rules@[i as int].outbound@),
                target: match resolved {
                    Some(t) => t@,
                    None => effective(sniff_state(self.sniffed), original_target@),
                },
                matched_idx: Some(i),
                dns: opt_text(rules@[i as int].dns),
            }),
    {
        let target = match resolved {
            Some(t) => t,
            None => self.effective_target(original_target),
        };
        Route {
            outbound: Some(copy_text(rules[i].outbound.as_str())),
            target,
            matched_idx: Some(i),
            dns: copy_opt(&rules[i].dns),
        }
    }

    /// Where the connection goes if no rule has matched.
    pub fn unmatched(&self, original_target: &TargetAddr) -> (r: Route)
        ensures
            r@ == (RouteView {
                outbound: None,
                target: effective(sniff_state(self.sniffed), original_target@),
                matched_idx: None,
                dns: None,
            }),
    {
        Route {
            outbound: None,
            target: self.effective_target(original_target),
            matched_idx: None,
            dns: None,
        }
    }
}

/// Rules are held against a connection in their order, and none that holds in the mode is passed over.
pub proof fn law_no_rule_is_skipped(rules: Seq<Rule>, mode: RouterMode, from: int, k: int)
    requires
        0 <= from <= k < next_rule(rules, mode, from),
    ensures
        !rules[k].holds_in(mode),
        next_rule(rules, mode, from) <= rules.len(),
    decreases rules.len() - from,
{
    lemma_next_rule(rules, mode, from);
    if k > from {
        law_no_rule_is_skipped(rules, mode, from + 1, k);
    }
}

proof fn lemma_next_rule(rules: Seq<Rule>, mode: RouterMode, from: int)
    requires
        0 <= from <= rules.len(),
    ensures
        from <= next_rule(rules, mode, from) <= rules.len(),
        next_rule(rules, mode, from) < rules.len() ==> rules[next_rule(
            rules,
            mode,
            from,
        )].holds_in(mode),
    decreases rules.len() - from,
{
    if from < rules.len() && !rules[from].holds_in(mode) {
        lemma_next_rule(rules, mode, from + 1);
    }
}

/// The server to ask whether an address was made up: the one of the rule, and only for an address.
pub fn fakeip_question(route: &Route, original_target: &TargetAddr) -> (tag: Option<String>)
    ensures
        opt_text(tag) == match original_target@ {
            TargetView::Ip(_) => route@.dns,
            TargetView::Domain(_, _) => None,
        },
{
    match original_target {
        TargetAddr::Ip(_) => copy_opt(&route.dns),
        TargetAddr::Domain(_, _) => None,
    }
}

/// Where a client's packet really goes.
pub open spec fn forward_target(target: TargetView, original: TargetView, fin: TargetView) -> TargetView {
    if target == original {
        fin
    } else {
        target
    }
}

/// Whom a packet seems to come from, for the client.
pub open spec fn reply_source(from: TargetView, original: TargetView, fin: TargetView) -> TargetView {
    if from == fin {
        original
    } else {
        from
    }
}

/// Where a client's packet really goes: to the routed target, if it was sent to the original one.
pub fn forward_udp_inbound(target: TargetAddr, original: &TargetAddr, fin: &TargetAddr) -> (
    t: TargetAddr)
    ensures
        t@ == forward_target(target@, original@, fin@),
{
    if target.same(original) {
        fin.copy()
    } else {
        target
    }
}

/// Whom a packet seems to come from, for the client: the original target, if the routed one sent it.
pub fn forward_udp_outbound(from: TargetAddr, original: &TargetAddr, fin: &TargetAddr) -> (
    t: TargetAddr)
    ensures
        t@ == reply_source(from@, original@, fin@),
{
    if from.same(fin) {
        original.copy()
    } else {
        from
    }
}

/// The client sees answers come from where it sent its packets, whatever the routing made of that.
pub proof fn law_reply_comes_from_the_target(target: TargetView, original: TargetView, fin: TargetView)
    requires
        target == fin ==> target == original,
    ensures
        reply_source(forward_target(target, original, fin), original, fin) == target,
{
}

/// Why a UDP session ends.
#[derive(Clone, Copy, Debug, PartialEq, Eq, Structural)]
pub enum QuitReason {
    InboundFailed,
    OutboundFailed,
    Idle,
    OutboundClosed,
    InboundClosed,
    Reset,
}

/// What happens to a UDP session. Times are spans since some fixed moment.
#[derive(Clone, Copy, Debug, PartialEq, Eq, Structural)]
pub enum UdpEvent {
    /// Packets of the client were passed on.
    InboundForwarded(Duration),
    /// Packets of the client could not be read or passed on.
    InboundFailed,
    /// Packets for the client were passed on.
    OutboundForwarded(Duration),
    /// Packets for the client could not be read or passed on.
    OutboundFailed,
    /// The timer fired.
    Timer(Duration),
    OutboundClosed,
    InboundClosed,
    Reset,
}

/// What is done next.
#[derive(Clone, Copy, Debug, PartialEq, Eq, Structural)]
pub enum UdpStep {
    /// Read on in the direction that was served.
    Continue,
    /// Set the timer to this time.
    Rearm(Duration),
    Quit(QuitReason),
}

/// A UDP session, as far as its life goes.
#[derive(Clone, Copy, Debug, PartialEq, Eq, Structural)]
pub struct UdpLife {
    pub last_activity: Duration,
    pub timeout: Duration,
}

/// What an event does to a session.
pub open spec fn udp_step(s: UdpLife, event: UdpEvent) -> (UdpLife, UdpStep) {
    match event {
        UdpEvent::InboundForwarded(now) => (UdpLife { last_activity: now, ..s }, UdpStep::Continue),
        UdpEvent::OutboundForwarded(now) => (UdpLife { last_activity: now, ..s }, UdpStep::Continue),
        UdpEvent::InboundFailed => (s, UdpStep::Quit(QuitReason::InboundFailed)),
        UdpEvent::OutboundFailed => (s, UdpStep::Quit(QuitReason::OutboundFailed)),
        UdpEvent::Timer(now) => if now.nanos >= s.last_activity.nanos + s.timeout.nanos {
            (s, UdpStep::Quit(QuitReason::Idle))
        } else {
            (
                s,
                UdpStep::Rearm(
                    Duration { nanos: (s.last_activity.nanos + s.timeout.nanos) as u128 },
                ),
            )
        },
        UdpEvent::OutboundClosed => (s, UdpStep::Quit(QuitReason::OutboundClosed)),
        UdpEvent::InboundClosed => (s, UdpStep::Quit(QuitReason::InboundClosed)),
        UdpEvent::Reset => (s, UdpStep::Quit(QuitReason::Reset)),
    }
}

impl UdpLife {
    /// A session that starts now.
    pub fn new(now: Duration, timeout: Duration) -> (s: UdpLife)
        ensures
            s == (UdpLife { last_activity: now, timeout }),
    {
        UdpLife { last_activity: now, timeout }
    }

    /// Takes an event in.
    pub fn step(&mut self, event: UdpEvent) -> (step: UdpStep)
        requires
            old(self).last_activity.nanos + old(self).timeout.nanos <= u128::MAX,
        ensures
            (*final(self), step) == udp_step(*old(self), event),
    {
        match event {
            UdpEvent::InboundForwarded(now) => {
                self.last_activity = now;
                UdpStep::Continue
            },
            UdpEvent::OutboundForwarded(now) => {
                self.last_activity = now;
                UdpStep::Continue
            },
            UdpEvent::InboundFailed => UdpStep::Quit(QuitReason::InboundFailed),
            UdpEvent::OutboundFailed => UdpStep::Quit(QuitReason::OutboundFailed),
            UdpEvent::Timer(now) => {
                let end: u128 = self.last_activity.nanos + self.timeout.nanos;
                if now.nanos >= end {
                    UdpStep::Quit(QuitReason::Idle)
                } else {
                    UdpStep::Rearm(Duration { nanos: end })
                }
            },
            UdpEvent::OutboundClosed => UdpStep::Quit(QuitReason::OutboundClosed),
            UdpEvent::InboundClosed => UdpStep::Quit(QuitReason::InboundClosed),
            UdpEvent::Reset => UdpStep::Quit(QuitReason::Reset),
        }
    }
}

/// A session in use is not ended for idleness: traffic puts that off by the whole timeout, and the
/// timer is never set to a time at which the session could not end.
pub proof fn law_traffic_keeps_the_session(s: UdpLife, active: Duration, now: Duration)
    requires
        now.nanos < active.nanos + s.timeout.nanos,
        active.nanos + s.timeout.nanos <= u128::MAX,
    ensures
        ({
            let t = udp_step(s, UdpEvent::InboundForwarded(active)).0;
            let (u, step) = udp_step(t, UdpEvent::Timer(now));
            &&& u == t
            &&& step matches UdpStep::Rearm(at)
            &&& udp_step(u, UdpEvent::Timer(at)).1 == UdpStep::Quit(QuitReason::Idle)
        }),
{
}

/// A UDP session by its two ends, with the handle of its queue.
#[derive(Debug)]
pub struct UdpSession {
    pub source: TargetAddr,
    pub target: TargetAddr,
    pub queue: u64,
}

/// The value of a UDP session.
pub struct UdpSessionView {
    pub source: TargetView,
    pub target: TargetView,
    pub queue: u64,
}

impl View for UdpSession {
    type V = UdpSessionView;

    open spec fn view(&self) -> UdpSessionView {
        UdpSessionView { source: self.source@, target: self.target@, queue: self.queue }
    }
}

/// The UDP sessions of a server, at most one between two ends.
#[derive(Debug)]
pub struct SessionMap {
    pub sessions: Vec<UdpSession>,
}

/// The ends of a session.
pub open spec fn ends(s: UdpSessionView) -> (TargetView, TargetView) {
    (s.source, s.target)
}

impl View for SessionMap {
    type V = Map<(TargetView, TargetView), u64>;

    open spec fn view(&self) -> Map<(TargetView, TargetView), u64> {
        Map::new(
            |k: (TargetView, TargetView)| has_session(self.sessions@, k),
            |k: (TargetView, TargetView)| self.sessions@[place_of(self.sessions@, k)].queue,
        )
    }
}

/// Whether there is a session between two ends.
pub open spec fn has_session(list: Seq<UdpSession>, k: (TargetView, TargetView)) -> bool {
    exists|i: int| 0 <= i < list.len() && ends((#[trigger] list[i])@) == k
}

/// Where the session between two ends stands.
pub open spec fn place_of(list: Seq<UdpSession>, k: (TargetView, TargetView)) -> int {
    choose|i: int| 0 <= i < list.len() && ends((#[trigger] list[i])@) == k
}

/// What becomes of a packet for a UDP session.
#[derive(Debug)]
pub enum Delivery {
    /// Put it into this queue.
    Queue(u64),
    /// Start a session for it.
    Open,
}

impl SessionMap {
    /// There is at most one session between two ends.
    pub open spec fn wf(self) -> bool {
        forall|i: int, j: int|
            0 <= i < j < self.sessions@.len() ==> ends((#[trigger] self.sessions@[i])@) != ends(
                (#[trigger] self.sessions@[j])@,
            )
    }

    /// No sessions.
    pub fn new() -> (m: SessionMap)
        ensures
            m.wf(),
            m@ == Map::<(TargetView, TargetView), u64>::empty(),
    {
        let m = SessionMap { sessions: Vec::new() };
        assert(m@ =~= Map::<(TargetView, TargetView), u64>::empty());
        m
    }

    fn find(&self, source: &TargetAddr, target: &TargetAddr) -> (r: Option<usize>)
        requires
            self.wf(),
        ensures
            match r {
                Some(i) => i < self.sessions@.len() && ends(self.sessions@[i as int]@) == (
                    source@,
                    target@,
                ) && self@.contains_key((source@, target@)) && self@[(source@, target@)]
                    == self.sessions@[i as int].queue,
                None => !self@.contains_key((source@, target@)),
            },
    {
        let ghost k = (source@, target@);
        let mut i: usize = 0;
        while i < self.sessions.len()
            invariant
                self.wf(),
                i <= self.sessions@.len(),
                k == (source@, target@),
                forall|j: int| 0 <= j < i ==> ends((#[trigger] self.sessions@[j])@) != k,
            decreases self.sessions@.len() - i,
        {
            if self.sessions[i].source.same(source) && self.sessions[i].target.same(target) {
                proof {
                    assert(ends(self.sessions@[i as int]@) == k);
                    lemma_place(self.sessions@, i as int);
                }
                return Some(i);
            }
            i += 1;
        }
        None
    }

    /// What becomes of a packet: it goes to the session between its ends, if there is one.
    pub fn deliver(&self, source: &TargetAddr, target: &TargetAddr) -> (d: Delivery)
        requires
            self.wf(),
        ensures
            match d {
                Delivery::Queue(queue) => self@.contains_key((source@, target@)) && self@[(
                    source@,
                    target@,
                )] == queue,
                Delivery::Open => !self@.contains_key((source@, target@)),
            },
    {
        match self.find(source, target) {
            Some(i) => Delivery::Queue(self.sessions[i].queue),
            None => Delivery::Open,
        }
    }

    /// Notes the queue of a session.
    pub fn insert(&mut self, source: &TargetAddr, target: &TargetAddr, queue: u64)
        requires
            old(self).wf(),
        ensures
            final(self).wf(),
            final(self)@ == old(self)@.insert((source@, target@), queue),
    {
        self.remove(source, target);
        let session = UdpSession { source: source.copy(), target: target.copy(), queue };
        let ghost k = (source@, target@);
        let ghost before = self.sessions@;
        let ghost mid = self@;
        self.sessions.push(session);
        proof {
            assert(!has_session(before, k)) by {
                assert(!mid.contains_key(k));
            }
            assert forall|i: int, j: int|
                0 <= i < j < self.sessions@.len() implies ends((#[trigger] self.sessions@[i])@)
                != ends((#[trigger] self.sessions@[j])@) by {
                if j == before.len() {
                    assert(ends(before[i]@) != k);
                }
            }
            lemma_pushed(before, session);
            assert forall|kk: (TargetView, TargetView)| #[trigger]
                self@.contains_key(kk) <==> mid.insert(k, queue).contains_key(kk) by {
                assert(mid.contains_key(kk) <==> has_session(before, kk));
                assert(has_session(before.push(session), kk) <==> has_session(before, kk) || kk
                    == k);
            }
            assert forall|kk: (TargetView, TargetView)| #[trigger]
                self@.contains_key(kk) implies self@[kk] == mid.insert(k, queue)[kk] by {
                if kk != k {
                    assert(has_session(before, kk));
                }
            }
            assert(self@ =~= mid.insert(k, queue));
            assert(mid.insert(k, queue) =~= old(self)@.insert(k, queue));
        }
    }

    /// Forgets the session between two ends.
    pub fn remove(&mut self, source: &TargetAddr, target: &TargetAddr)
        requires
            old(self).wf(),
        ensures
            final(self).wf(),
            final(self)@ == old(self)@.remove((source@, target@)),
    {
        let ghost k = (source@, target@);
        match self.find(source, target) {
            None => {
                assert(old(self)@.remove(k) =~= old(self)@);
            },
            Some(i) => {
                let ghost before = self.sessions@;
                self.sessions.remove(i);
                proof {
                    assert forall|a: int, b: int|
                        0 <= a < b < self.sessions@.len() implies ends(
                        (#[trigger] self.sessions@[a])@,
                    ) != ends((#[trigger] self.sessions@[b])@) by {
                        let p = if a < i {
                            a
                        } else {
                            a + 1
                        };
                        let q = if b < i {
                            b
                        } else {
                            b + 1
                        };
                        assert(self.sessions@[a] == before[p]);
                        assert(self.sessions@[b] == before[q]);
                    }
                    lemma_removed(before, i as int);
                    assert(self@ =~= old(self)@.remove(k));
                }
            },
        }
    }

    /// A packet was put into the queue of a session, or came back because the queue is closed. Then the
    /// session is forgotten, unless another one has taken its place, and the packet is handed back for a
    /// new session.
    pub fn send_to_existing_udp_session(
        &mut self,
        source: &TargetAddr,
        target: &TargetAddr,
        queue: u64,
        sent: Result<(), Vec<u8>>,
    ) -> (recovered: Option<Vec<u8>>)
        requires
            old(self).wf(),
        ensures
            final(self).wf(),
            match sent {
                Ok(()) => recovered is None && final(self)@ == old(self)@,
                Err(payload) => recovered == Some(payload) && final(self)@ == forgotten(
                    old(self)@,
                    (source@, target@),
                    queue,
                ),
            },
    {
        match sent {
            Ok(()) => None,
            Err(payload) => {
                if let Some(i) = self.find(source, target) {
                    if self.sessions[i].queue == queue {
                        self.remove(source, target);
                    }
                }
                Some(payload)
            },
        }
    }
}

/// The sessions without the one between two ends, if it has that queue.
pub open spec fn forgotten(
    sessions: Map<(TargetView, TargetView), u64>,
    k: (TargetView, TargetView),
    queue: u64,
) -> Map<(TargetView, TargetView), u64> {
    if sessions.contains_key(k) && sessions[k] == queue {
        sessions.remove(k)
    } else {
        sessions
    }
}

proof fn lemma_place(list: Seq<UdpSession>, i: int)
    requires
        0 <= i < list.len(),
        forall|a: int, b: int|
            0 <= a < b < list.len() ==> ends((#[trigger] list[a])@) != ends((#[trigger] list[b])@),
    ensures
        has_session(list, ends(list[i]@)),
        place_of(list, ends(list[i]@)) == i,
{
    let k = ends(list[i]@);
    let p = place_of(list, k);
    assert(ends(list[p]@) == k);
    if p < i {
        assert(ends(list[p]@) != ends(list[i]@));
    } else if p > i {
        assert(ends(list[i]@) != ends(list[p]@));
    }
}

proof fn lemma_pushed(list: Seq<UdpSession>, s: UdpSession)
    requires
        forall|a: int, b: int|
            0 <= a < b < list.push(s).len() ==> ends((#[trigger] list.push(s)[a])@) != ends(
                (#[trigger] list.push(s)[b])@,
            ),
    ensures
        forall|k: (TargetView, TargetView)| #[trigger]
            has_session(list.push(s), k) <==> has_session(list, k) || k == ends(s@),
        forall|k: (TargetView, TargetView)| #[trigger]
            has_session(list, k) ==> list.push(s)[place_of(list.push(s), k)] == list[place_of(
                list,
                k,
            )],
        list.push(s)[place_of(list.push(s), ends(s@))] == s,
{
    let more = list.push(s);
    assert forall|a: int, b: int| 0 <= a < b < list.len() implies ends((#[trigger] list[a])@)
        != ends((#[trigger] list[b])@) by {
        assert(more[a] == list[a]);
        assert(more[b] == list[b]);
    }
    assert(more[list.len() as int] == s);
    lemma_place(more, list.len() as int);
    assert forall|k: (TargetView, TargetView)| #[trigger] has_session(more, k) <==> has_session(
        list,
        k,
    ) || k == ends(s@) by {
        if has_session(list, k) {
            let i = place_of(list, k);
            assert(ends(more[i]@) == k);
        }
        if has_session(more, k) {
            let i = place_of(more, k);
            if i < list.len() {
                assert(ends(list[i]@) == k);
            }
        }
    }
    assert forall|k: (TargetView, TargetView)| #[trigger] has_session(list, k) implies more[place_of(
        more,
        k,
    )] == list[place_of(list, k)] by {
        let i = place_of(list, k);
        assert(more[i] == list[i]);
        lemma_place(more, i);
    }
}

proof fn lemma_removed(list: Seq<UdpSession>, i: int)
    requires
        0 <= i < list.len(),
        forall|a: int, b: int|
            0 <= a < b < list.len() ==> ends((#[trigger] list[a])@) != ends((#[trigger] list[b])@),
    ensures
        forall|k: (TargetView, TargetView)| #[trigger]
            has_session(list.remove(i), k) <==> has_session(list, k) && k != ends(list[i]@),
        forall|k: (TargetView, TargetView)| #[trigger]
            has_session(list.remove(i), k) ==> list.remove(i)[place_of(list.remove(i), k)]
                == list[place_of(list, k)],
{
    let less = list.remove(i);
    assert forall|k: (TargetView, TargetView)| #[trigger] has_session(less, k) <==> has_session(
        list,
        k,
    ) && k != ends(list[i]@) by {
        if has_session(less, k) {
            let p = place_of(less, k);
            let q = if p < i {
                p
            } else {
                p + 1
            };
            assert(less[p] == list[q]);
            assert(ends(list[q]@) == k);
            if q < i {
                assert(ends(list[q]@) != ends(list[i]@));
            } else {
                assert(ends(list[i]@) != ends(list[q]@));
            }
        }
        if has_session(list, k) && k != ends(list[i]@) {
            let q = place_of(list, k);
            let p = if q < i {
                q
            } else {
                q - 1
            };
            assert(less[p] == list[q]);
            assert(ends(less[p]@) == k);
        }
    }
    assert forall|k: (TargetView, TargetView)| #[trigger] has_session(less, k) implies less[place_of(
        less,
        k,
    )] == list[place_of(list, k)] by {
        let p = place_of(less, k);
        let q = if p < i {
            p
        } else {
            p + 1
        };
        assert(less[p] == list[q]);
        lemma_place(list, q);
    }
}

/// A packet whose session turns out closed opens a new one, and then reaches it; a session that took
/// the closed one's place meanwhile is not disturbed.
pub proof fn law_closed_session_is_reopened(
    sessions: Map<(TargetView, TargetView), u64>,
    k: (TargetView, TargetView),
    closed: u64,
    fresh: u64,
)
    ensures
        sessions.contains_key(k) && sessions[k] == closed ==> !forgotten(
            sessions,
            k,
            closed,
        ).contains_key(k),
        sessions.contains_key(k) && sessions[k] != closed ==> forgotten(sessions, k, closed)
            == sessions,
        forgotten(sessions, k, closed).insert(k, fresh)[k] == fresh,
{
}

/// What was found about a rule: nothing where it does not match, else the target that matching it came
/// to know.
pub open spec fn verdict_view(v: Option<Option<TargetAddr>>) -> Option<Option<TargetView>> {
    match v {
        None => None,
        Some(None) => Some(None),
        Some(Some(t)) => Some(Some(t@)),
    }
}

/// What was found about the rules.
pub open spec fn verdict_views(list: Seq<Option<Option<TargetAddr>>>) -> Seq<Option<Option<TargetView>>> {
    list.map_values(|v: Option<Option<TargetAddr>>| verdict_view(v))
}

/// The first rule from `from` on that holds in a mode and matches.
pub open spec fn first_match(
    rules: Seq<Rule>,
    mode: RouterMode,
    verdicts: Seq<Option<Option<TargetView>>>,
    from: int,
) -> Option<int>
    decreases rules.len() - from,
{
    if from >= rules.len() {
        None
    } else if rules[from].holds_in(mode) && verdicts[from] is Some {
        Some(from)
    } else {
        first_match(rules, mode, verdicts, from + 1)
    }
}

/// Whether one of the first `n` rules that hold in a mode asks for the protocol.
pub open spec fn protocol_asked(rules: Seq<Rule>, mode: RouterMode, n: int) -> bool
    decreases n,
{
    n > 0 && (rules[n - 1].holds_in(mode) && rules[n - 1].asks_protocol || protocol_asked(
        rules,
        mode,
        n - 1,
    ))
}

/// What is known of the first packet after `n` rules: it is looked at for the first rule that asks.
pub open spec fn sniffed_by(
    rules: Seq<Rule>,
    mode: RouterMode,
    given: Option<SniffedView>,
    n: int,
) -> Option<Option<SniffedView>> {
    if protocol_asked(rules, mode, n) {
        Some(given)
    } else {
        None
    }
}

/// Where a connection goes: under the first rule that matches, or else the default way. The name that
/// its first packet gives away stands in for the target, once a rule has asked for it; the target that a
/// rule resolved comes before both.
pub open spec fn selected(
    rules: Seq<Rule>,
    mode: RouterMode,
    verdicts: Seq<Option<Option<TargetView>>>,
    given: Option<SniffedView>,
    original: TargetView,
) -> RouteView {
    match first_match(rules, mode, verdicts, 0) {
        Some(i) => RouteView {
            outbound: Some(rules[i].outbound@),
            target: match verdicts[i] {
                Some(Some(t)) => t,
                _ => effective(sniffed_by(rules, mode, given, i + 1), original),
            },
            matched_idx: Some(i as usize),
            dns: opt_text(rules[i].dns),
        },
        None => RouteView {
            outbound: None,
            target: effective(sniffed_by(rules, mode, given, rules.len() as int), original),
            matched_idx: None,
            dns: None,
        },
    }
}

/// Rules that do not hold in a mode change nothing.
proof fn lemma_gap(
    rules: Seq<Rule>,
    mode: RouterMode,
    verdicts: Seq<Option<Option<TargetView>>>,
    given: Option<SniffedView>,
    from: int,
    to: int,
)
    requires
        0 <= from <= to <= rules.len(),
        to == next_rule(rules, mode, from),
    ensures
        first_match(rules, mode, verdicts, from) == first_match(rules, mode, verdicts, to),
        sniffed_by(rules, mode, given, to) == sniffed_by(rules, mode, given, from),
    decreases to - from,
{
    if from < to {
        lemma_next_rule(rules, mode, from + 1);
        lemma_gap(rules, mode, verdicts, given, from + 1, to);
    }
}

/// The first rule that holds in the mode and matches decides; without one the default way is taken.
pub proof fn law_first_match_decides(
    rules: Seq<Rule>,
    mode: RouterMode,
    verdicts: Seq<Option<Option<TargetView>>>,
    from: int,
    i: int,
)
    requires
        0 <= from <= rules.len(),
        verdicts.len() == rules.len(),
    ensures
        first_match(rules, mode, verdicts, from) == Some(i) <==> {
            &&& from <= i < rules.len()
            &&& rules[i].holds_in(mode) && verdicts[i] is Some
            &&& forall|k: int|
                from <= k < i ==> !((#[trigger] rules[k]).holds_in(mode) && verdicts[k] is Some)
        },
    decreases rules.len() - from,
{
    if from < rules.len() && !(rules[from].holds_in(mode) && verdicts[from] is Some) {
        law_first_match_decides(rules, mode, verdicts, from + 1, i);
    }
}

/// The router: its mode, its rules, and the way out where no rule matches.
#[derive(Debug)]
pub struct Router {
    pub mode: RouterMode,
    pub default_outbound: String,
    pub rules: Vec<Rule>,
}

impl Router {
    /// A router.
    pub fn new(mode: RouterMode, default_outbound: String, rules: Vec<Rule>) -> (r: Router)
        ensures
            r.mode == mode,
            r.default_outbound == default_outbound,
            r.rules == rules,
    {
        Router { mode, default_outbound, rules }
    }

    /// The mode.
    pub fn get_mode(&self) -> (mode: RouterMode)
        ensures
            mode == self.mode,
    {
        self.mode
    }

    /// Changes the mode.
    pub fn set_mode(&mut self, mode: RouterMode)
        ensures
            final(self).mode == mode,
            final(self).default_outbound == old(self).default_outbound,
            final(self).rules == old(self).rules,
    {
        self.mode = mode;
    }

    /// Decides where a connection goes. `verdicts` says of each rule whether it matches the target that
    /// it is held against, and with which resolved target: the first rule that holds in the mode and
    /// matches decides.
    pub fn select_out(
        &self,
        original_target: &TargetAddr,
        payload: Option<&[u8]>,
        verdicts: &Vec<Option<Option<TargetAddr>>>,
    ) -> (route: Route)
        requires
            verdicts@.len() == self.rules@.len(),
        ensures
            route@ == selected(
                self.rules@,
                self.mode,
                verdict_views(verdicts@),
                sniffed(opt_slice(payload), original_target@),
                original_target@,
            ),
    {
        let ghost v = verdict_views(verdicts@);
        let ghost given = sniffed(opt_slice(payload), original_target@);
        let mut selection = Selection::new();
        let mut hit: Option<usize> = None;
        while hit.is_none()
            invariant
                verdicts@.len() == self.rules@.len(),
                v == verdict_views(verdicts@),
                given == sniffed(opt_slice(payload), original_target@),
                selection.at <= self.rules@.len(),
                sniff_state(selection.sniffed) == sniffed_by(
                    self.rules@,
                    self.mode,
                    given,
                    selection.at as int,
                ),
                match hit {
                    Some(i) => selection.at == i + 1 && first_match(self.rules@, self.mode, v, 0)
                        == Some(i as int) && v[i as int] is Some,
                    None => first_match(self.rules@, self.mode, v, 0) == first_match(
                        self.rules@,
                        self.mode,
                        v,
                        selection.at as int,
                    ),
                },
            decreases self.rules@.len() - selection.at,
        {
            let ghost from = selection.at as int;
            proof {
                lemma_next_rule(self.rules@, self.mode, from);
            }
            match selection.next(&self.rules, self.mode, payload, original_target) {
                None => {
                    proof {
                        lemma_gap(self.rules@, self.mode, v, given, from, self.rules@.len() as int);
                    }
                    return selection.unmatched(original_target);
                },
                Some(i) => {
                    proof {
                        lemma_gap(self.rules@, self.mode, v, given, from, i as int);
                        assert(v[i as int] == verdict_view(verdicts@[i as int]));
                    }
                    if verdicts[i].is_some() {
                        hit = Some(i);
                    }
                },
            }
        }
        match hit {
            None => selection.unmatched(original_target),
            Some(i) => {
                let resolved: Option<TargetAddr> = match &verdicts[i] {
                    Some(Some(t)) => Some(t.copy()),
                    _ => None,
                };
                assert(v[i as int] == verdict_view(verdicts@[i as int]));
                selection.matched(&self.rules, i, resolved, original_target)
            },
        }
    }

    /// The way out of a route.
    pub fn outbound_of<'a>(&'a self, route: &'a Route) -> (tag: &'a str)
        ensures
            tag@ == match route@.outbound {
                Some(tag) => tag,
                None => self.default_outbound@,
            },
    {
        match &route.outbound {
            Some(tag) => tag.as_str(),
            None => self.default_outbound.as_str(),
        }
    }
}

/// Lets the router go.
pub fn shutdown_router(slot: &mut Option<Router>)
    ensures
        *final(slot) is None,
{
    *slot = None;
}

/// A rule that lists modes holds in exactly these; one that lists none holds in every mode.
pub proof fn law_modes_of_a_rule(rule: Rule, mode: RouterMode)
    ensures
        rule.modes is None ==> rule.holds_in(mode),
        rule.modes matches Some(list) ==> {
            &&& list@.len() == 0 ==> rule.holds_in(mode)
            &&& forall|k: int| 0 <= k < list@.len() && #[trigger] list@[k] == mode ==> rule.holds_in(mode)
            &&& list@.len() > 0 && (forall|k: int|
                0 <= k < list@.len() ==> #[trigger] list@[k] != mode) ==> !rule.holds_in(mode)
        },
{
}

/// Whether a rule is for a mode: it lists the mode, or no mode at all.
pub open spec fn is_for(rule: Rule, mode: RouterMode) -> bool {
    match rule.modes {
        None => true,
        Some(list) => list@.len() == 0 || exists|k: int|
            0 <= k < list@.len() && #[trigger] list@[k] == mode,
    }
}

proof fn lemma_is_for(rule: Rule, mode: RouterMode)
    ensures
        rule.holds_in(mode) == is_for(rule, mode),
{
}

proof fn lemma_protocol_asked(rules: Seq<Rule>, mode: RouterMode, n: int)
    requires
        0 <= n <= rules.len(),
    ensures
        protocol_asked(rules, mode, n) <==> exists|k: int|
            0 <= k < n && is_for(#[trigger] rules[k], mode) && rules[k].asks_protocol,
    decreases n,
{
    if n > 0 {
        lemma_protocol_asked(rules, mode, n - 1);
        lemma_is_for(rules[n - 1], mode);
    }
}

/// A connection goes where the first rule sends it that is for the current mode and matches. Rules for
/// other modes, and those that do not match, do not count, whatever they say.
pub proof fn law_first_matching_rule_routes(
    rules: Seq<Rule>,
    mode: RouterMode,
    verdicts: Seq<Option<Option<TargetView>>>,
    given: Option<SniffedView>,
    original: TargetView,
    i: int,
)
    requires
        verdicts.len() == rules.len(),
        rules.len() <= usize::MAX,
        0 <= i < rules.len(),
        is_for(rules[i], mode),
        verdicts[i] is Some,
        forall|k: int| 0 <= k < i ==> !is_for(#[trigger] rules[k], mode) || verdicts[k] is None,
    ensures
        ({
            let route = selected(rules, mode, verdicts, given, original);
            &&& route.outbound == Some(rules[i].outbound@)
            &&& route.matched_idx matches Some(at) && at == i
            &&& route.dns is Some == rules[i].dns is Some
            &&& rules[i].dns matches Some(tag) ==> route.dns == Some(tag@)
        }),
{
    lemma_is_for(rules[i], mode);
    assert forall|k: int| 0 <= k < i implies !((#[trigger] rules[k]).holds_in(mode)
        && verdicts[k] is Some) by {
        lemma_is_for(rules[k], mode);
    }
    law_first_match_decides(rules, mode, verdicts, 0, i);
}

/// A connection that no rule for the current mode matches takes the default way, and no server of a rule
/// resolves names for it.
pub proof fn law_unmatched_connections_take_the_default(
    rules: Seq<Rule>,
    mode: RouterMode,
    verdicts: Seq<Option<Option<TargetView>>>,
    given: Option<SniffedView>,
    original: TargetView,
)
    requires
        verdicts.len() == rules.len(),
        forall|k: int|
            0 <= k < rules.len() ==> !is_for(#[trigger] rules[k], mode) || verdicts[k] is None,
    ensures
        ({
            let route = selected(rules, mode, verdicts, given, original);
            &&& route.outbound is None
            &&& route.matched_idx is None
            &&& route.dns is None
            &&& route.target == if (exists|k: int|
                0 <= k < rules.len() && is_for(#[trigger] rules[k], mode) && rules[k].asks_protocol)
                && given is Some {
                given->0.target
            } else {
                original
            }
        }),
{
    if let Some(i) = first_match(rules, mode, verdicts, 0) {
        law_first_match_decides(rules, mode, verdicts, 0, i);
        lemma_is_for(rules[i], mode);
    }
    lemma_protocol_asked(rules, mode, rules.len() as int);
}

/// The target of a routed connection: the one that the rule resolved; else the name that the first
/// packet asks for, if the rule or one before it that is for the mode asks for the protocol; else the
/// one that the client named.
pub proof fn law_target_of_a_routed_connection(
    rules: Seq<Rule>,
    mode: RouterMode,
    verdicts: Seq<Option<Option<TargetView>>>,
    given: Option<SniffedView>,
    original: TargetView,
    i: int,
)
    requires
        verdicts.len() == rules.len(),
        0 <= i < rules.len(),
        is_for(rules[i], mode),
        verdicts[i] is Some,
        forall|k: int| 0 <= k < i ==> !is_for(#[trigger] rules[k], mode) || verdicts[k] is None,
    ensures
        ({
            let route = selected(rules, mode, verdicts, given, original);
            let asked = exists|k: int|
                0 <= k <= i && is_for(#[trigger] rules[k], mode) && rules[k].asks_protocol;
            &&& verdicts[i] matches Some(Some(t)) ==> route.target == t
            &&& verdicts[i] == Some(None::<TargetView>) && asked && given is Some ==> route.target
                == given->0.target
            &&& verdicts[i] == Some(None::<TargetView>) && !(asked && given is Some) ==> route.target
                == original
        }),
{
    lemma_is_for(rules[i], mode);
    assert forall|k: int| 0 <= k < i implies !((#[trigger] rules[k]).holds_in(mode)
        && verdicts[k] is Some) by {
        lemma_is_for(rules[k], mode);
    }
    law_first_match_decides(rules, mode, verdicts, 0, i);
    lemma_protocol_asked(rules, mode, i + 1);
    let asked = exists|k: int|
        0 <= k <= i && is_for(#[trigger] rules[k], mode) && rules[k].asks_protocol;
    assert(protocol_asked(rules, mode, i + 1) == asked) by {
        if asked {
            let k = choose|k: int|
                0 <= k <= i && is_for(#[trigger] rules[k], mode) && rules[k].asks_protocol;
            assert(0 <= k < i + 1 && is_for(rules[k], mode));
        }
        if protocol_asked(rules, mode, i + 1) {
            let k = choose|k: int|
                0 <= k < i + 1 && is_for(#[trigger] rules[k], mode) && rules[k].asks_protocol;
            assert(0 <= k <= i && is_for(rules[k], mode));
        }
    }
}

/// A DNS query gives away the first name that it asks for, on the port that it was sent to; a message
/// without questions, what is no message, and a connection without a packet give nothing away.
pub proof fn law_query_gives_its_name_away(data: Seq<u8>, original: TargetView)
    ensures
        sniffed(None, original) is None,
        dns_message(data) is None ==> sniffed(Some(data), original) is None,
        dns_message(data) matches Some(m) ==> {
            &&& m.questions.len() == 0 ==> sniffed(Some(data), original) is None
            &&& m.questions.len() > 0 ==> (sniffed(Some(data), original) matches Some(s) && s.qtype
                == m.questions[0].1 && s.target == TargetView::Domain(
                m.questions[0].0,
                match original {
                    TargetView::Ip(addr) => addr.port,
                    TargetView::Domain(_, port) => port,
                },
            ))
        },
{
}

/// A UDP session lives as long as it is used: packets in either direction put its end off to the timeout
/// after them, the timer ends it once that time has come and not before, and a failure or an end on
/// either side ends it with that reason.
pub proof fn law_life_of_a_udp_session(s: UdpLife, now: Duration)
    requires
        s.last_activity.nanos + s.timeout.nanos <= u128::MAX,
    ensures
        udp_step(s, UdpEvent::InboundForwarded(now)) == udp_step(s, UdpEvent::OutboundForwarded(now)),
        udp_step(s, UdpEvent::InboundForwarded(now)).1 == UdpStep::Continue,
        udp_step(s, UdpEvent::InboundForwarded(now)).0.last_activity == now,
        udp_step(s, UdpEvent::InboundForwarded(now)).0.timeout == s.timeout,
        now.nanos >= s.last_activity.nanos + s.timeout.nanos ==> udp_step(s, UdpEvent::Timer(now)).1
            == UdpStep::Quit(QuitReason::Idle),
        now.nanos < s.last_activity.nanos + s.timeout.nanos ==> (udp_step(s, UdpEvent::Timer(now)).1
            matches UdpStep::Rearm(at) && at.nanos == s.last_activity.nanos + s.timeout.nanos),
        udp_step(s, UdpEvent::InboundFailed).1 == UdpStep::Quit(QuitReason::InboundFailed),
        udp_step(s, UdpEvent::OutboundFailed).1 == UdpStep::Quit(QuitReason::OutboundFailed),
        udp_step(s, UdpEvent::InboundClosed).1 == UdpStep::Quit(QuitReason::InboundClosed),
        udp_step(s, UdpEvent::OutboundClosed).1 == UdpStep::Quit(QuitReason::OutboundClosed),
        udp_step(s, UdpEvent::Reset).1 == UdpStep::Quit(QuitReason::Reset),
{
}

/// A packet to the target that the client named goes to the routed one, and the answers of that one come
/// back from the named one; packets to and from others are left as they are.
pub proof fn law_packets_go_where_they_were_routed(
    other: TargetView,
    original: TargetView,
    fin: TargetView,
)
    ensures
        forward_target(original, original, fin) == fin,
        other != original ==> forward_target(other, original, fin) == other,
        reply_source(fin, original, fin) == original,
        other != fin ==> reply_source(other, original, fin) == other,
{
}

} // verus!
