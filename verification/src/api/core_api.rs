//! The proxy's own interface: what is going on, and switching between ways out.

use crate::api::common::{
    STATUS_BAD_GATEWAY, STATUS_BAD_REQUEST, STATUS_GATEWAY_TIMEOUT, STATUS_NOT_FOUND, STATUS_OK,
    STATUS_PAYLOAD_TOO_LARGE,
};
use crate::config::{copy_list, opt_text, texts, ApiConfig};
use crate::crypto::{id_text, parse_uuid, uuid_of};
use crate::ip::{ip_of, parse_ip};
use crate::proxy::addr::SocketAddr;
use crate::proxy::connections::{
    can_close, exactly, text_of_id, ConnectionBook, ConnectionView,
};
use crate::proxy::observe::{Observer, ObserverView};
use crate::proxy::outbound::selector::{
    effective_tag, first_place, passed_on, switched, SelectorOutbound, Selectors, Switch,
};
use crate::proxy::stats::{NodeView, PathState, Stats, TraceView};
use crate::text::{
    chars_of, copy_text, find_char, find_from, law_first_place_is_found, lossy_utf8, push_text,
    str_eq, trim, trimmed, utf8_text_lossy,
};
use vstd::prelude::*;

verus! {

/// Bound on the body of an answer that is handed on.
pub const MAX_RESPONSE_BODY_BYTES: usize = 10485760;

/// What the interface is opened with.
#[derive(Debug)]
pub struct CoreApiPlan {
    pub address: SocketAddr,
    pub password: String,
}

/// Why the interface cannot be opened.
#[derive(Debug)]
pub enum CoreApiError {
    /// The address is none; it is this text.
    InvalidAddress(String),
    /// Nothing is counted, so that there is nothing to show.
    NoObserver,
}

/// Decides what the interface is opened with: nothing where none is configured. The address has to be
/// an IP address, and there has to be an observer.
pub fn init_core_api(api: Option<&ApiConfig>, has_observer: bool) -> (r: Result<
    Option<CoreApiPlan>,
    CoreApiError,
>)
    ensures
        match api {
            None => r matches Ok(plan) && plan is None,
            Some(cfg) => match ip_of(cfg.address@) {
                None => r matches Err(CoreApiError::InvalidAddress(text)) && text@ == cfg.address@,
                Some(ip) => if has_observer {
                    r matches Ok(Some(plan)) && plan.password@ == cfg.password@ && plan.address == (
                    SocketAddr { ip, port: cfg.port, scope_id: 0 })
                } else {
                    r matches Err(CoreApiError::NoObserver)
                },
            },
        },
{
    match api {
        None => Ok(None),
        Some(cfg) => match parse_ip(cfg.address.as_str()) {
            None => Err(CoreApiError::InvalidAddress(copy_text(cfg.address.as_str()))),
            Some(ip) => {
                if !has_observer {
                    return Err(CoreApiError::NoObserver);
                }
                Ok(
                    Some(
                        CoreApiPlan {
                            address: SocketAddr { ip, port: cfg.port, scope_id: 0 },
                            password: copy_text(cfg.password.as_str()),
                        },
                    ),
                )
            },
        },
    }
}

/// What the interface shows of a connection.
#[derive(Debug)]
pub struct ConnectionData {
    pub id: String,
    pub inbound_tag: String,
    pub outbound_tag: Vec<String>,
    pub matched_rule_index: Option<usize>,
    pub dst: String,
    pub ip: String,
    pub is_fakeip: bool,
    pub is_udp: bool,
    pub upload: u64,
    pub download: u64,
    pub start_time: u64,
}

/// Whether the interface shows a connection as it is: where it really goes as its destination, and
/// where it was sent as its address.
pub open spec fn shows_connection(d: ConnectionData, c: ConnectionView) -> bool {
    &&& d.id@ == id_text(c.id)
    &&& d.inbound_tag@ == c.inbound_tag
    &&& texts(d.outbound_tag@) == c.outbound_tag
    &&& d.matched_rule_index == c.matched_rule_index
    &&& d.dst@ == c.final_target.text()
    &&& d.ip@ == c.origin_target.text()
    &&& d.is_fakeip == c.is_fakeip
    &&& d.is_udp == c.is_udp
    &&& d.upload == c.upload
    &&& d.download == c.download
    &&& d.start_time == c.start_time
}

/// What the interface shows of the open connections.
pub fn get_connections(book: &ConnectionBook) -> (list: Vec<ConnectionData>)
    requires
        book.wf(),
    ensures
        list@.len() == book.connections.names().len(),
        forall|i: int|
            0 <= i < list@.len() ==> shows_connection(
                #[trigger] list@[i],
                book@.connections[book.connections.names()[i]].tracker,
            ),
{
    let connections = book.get_all_connections();
    let mut list: Vec<ConnectionData> = Vec::new();
    let mut i: usize = 0;
    while i < connections.len()
        invariant
            i <= connections@.len(),
            list@.len() == i,
            forall|k: int|
                0 <= k < i ==> shows_connection(#[trigger] list@[k], connections@[k]@),
        decreases connections@.len() - i,
    {
        let c = &connections[i];
        list.push(
            ConnectionData {
                id: text_of_id(c.id),
                inbound_tag: copy_text(c.inbound_tag.as_str()),
                outbound_tag: copy_list(&c.outbound_tag),
                matched_rule_index: c.matched_rule_index,
                dst: c.final_target.to_text(),
                ip: c.origin_target.to_text(),
                is_fakeip: c.is_fakeip,
                is_udp: c.is_udp,
                upload: c.upload,
                download: c.download,
                start_time: c.start_time,
            },
        );
        i += 1;
    }
    assert forall|k: int| 0 <= k < list@.len() implies shows_connection(
        #[trigger] list@[k],
        book@.connections[book.connections.names()[k]].tracker,
    ) by {
        assert(connections@[k]@ == book@.connections[book.connections.names()[k]].tracker);
    }
    list
}

/// How many redirects a request follows unless it says otherwise.
pub fn default_max_redirects() -> (n: usize)
    ensures
        n == 5,
{
    5
}

/// Which program this is.
#[derive(Debug, PartialEq, Eq)]
pub struct CoreVersionInfo {
    pub version: &'static str,
    pub build_date: &'static str,
}

/// Says which program this is. The version is that of the build; the date is known where the build was
/// told.
pub fn build_core_version_info(
    version: &'static str,
    build_date: Option<&'static str>,
) -> (info: CoreVersionInfo)
    ensures
        info.version@ == version@,
        info.build_date@ == match build_date {
            Some(date) => date@,
            None => "unknown"@,
        },
{
    CoreVersionInfo {
        version,
        build_date: match build_date {
            Some(date) => date,
            None => "unknown",
        },
    }
}

/// Which connections a request wants closed.
#[derive(Debug)]
pub struct DeleteConnectionParams {
    pub id: Option<String>,
    pub outbound: Option<String>,
    pub all: bool,
}

/// Finds the connections that a request wants closed; a refusal is the status to answer with.
pub fn delete_connections(book: &ConnectionBook, params: &DeleteConnectionParams) -> (r: Result<
    Vec<String>,
    u16,
>)
    requires
        book.wf(),
    ensures
        closes(
            *book,
            params.all,
            match params.id {
                Some(id) => Some(uuid_of(id@)),
                None => None,
            },
            opt_text(params.outbound),
            r,
        ),
        forall|n: u128|
            !params.all && opt_text(params.id) == Some(#[trigger] id_text(n)) && can_close(
                book@.connections,
                id_text(n),
            ) ==> (r matches Ok(ids) && texts(ids@) == seq![id_text(n)]),
{
    let id = match &params.id {
        Some(id) => Some(parse_uuid(id.as_str())),
        None => None,
    };
    connections_to_close(book, params.all, id, &params.outbound)
}

/// Finds the connections that a request wants closed, given the number that its id stands for.
pub fn connections_to_close(
    book: &ConnectionBook,
    all: bool,
    id: Option<Option<u128>>,
    outbound: &Option<String>,
) -> (r: Result<Vec<String>, u16>)
    requires
        book.wf(),
    ensures
        closes(*book, all, id, opt_text(*outbound), r),
{
    if all {
        return Ok(book.kill_all_connections());
    }
    if let Some(id) = id {
        if id.is_none() {
            return Err(STATUS_BAD_REQUEST);
        }
        return match book.close_request(id) {
            Some(text) => {
                let list = vec![text];
                assert(texts(list@) =~= seq![text@]);
                Ok(list)
            },
            None => Err(STATUS_NOT_FOUND),
        };
    }
    match outbound {
        Some(tag) => Ok(book.kill_connections_by_outbound(tag.as_str())),
        None => Err(STATUS_BAD_REQUEST),
    }
}

/// What a request to close connections has to come to: all of them, the one with an id, or those
/// through a way out.
pub open spec fn closes(
    book: ConnectionBook,
    all: bool,
    id: Option<Option<u128>>,
    outbound: Option<Seq<char>>,
    r: Result<Vec<String>, u16>,
) -> bool {
    if all {
        r matches Ok(ids) && exactly(
            texts(ids@),
            |id: Seq<char>| can_close(book@.connections, id),
        )
    } else {
        match id {
            Some(None) => r == Err::<Vec<String>, u16>(STATUS_BAD_REQUEST),
            Some(Some(n)) => if can_close(book@.connections, id_text(n)) {
                r matches Ok(ids) && texts(ids@) == seq![id_text(n)]
            } else {
                r == Err::<Vec<String>, u16>(STATUS_NOT_FOUND)
            },
            None => match outbound {
                Some(tag) => r matches Ok(ids) && exactly(
                    texts(ids@),
                    |id: Seq<char>|
                        can_close(book@.connections, id) && book@.connections[id].tracker.uses(tag),
                ),
                None => r == Err::<Vec<String>, u16>(STATUS_BAD_REQUEST),
            },
        }
    }
}

/// What is told of a way out.
#[derive(Debug)]
pub struct OutboundInfo {
    pub tag: String,
    pub protocol: String,
    pub latency: i64,
    pub ip: String,
    pub loc: String,
    pub outbounds: Option<Vec<String>>,
    pub selected_node: Option<String>,
    pub uplink_path_stats: Option<PathState>,
    pub downlink_path_stats: Option<PathState>,
}

/// Tells of a way out what the last test found; of a selector also its choices.
pub fn outbound_info(
    observer: &Observer,
    tag: &str,
    protocol: &str,
    selector: Option<&SelectorOutbound>,
) -> (info: OutboundInfo)
    requires
        observer.wf(),
    ensures
        info.tag@ == tag@,
        info.protocol@ == protocol@,
        observer@.outbounds.contains_key(tag@) ==> {
            let node = observer@.outbounds[tag@];
            &&& info.latency == node.stats.latency_ms
            &&& info.ip@ == node.trace.ip
            &&& info.loc@ == node.trace.loc
            &&& info.uplink_path_stats == node.trace.uplink
            &&& info.downlink_path_stats == node.trace.downlink
        },
        !observer@.outbounds.contains_key(tag@) ==> {
            &&& info.latency == 0
            &&& info.ip@ == Seq::<char>::empty()
            &&& info.loc@ == Seq::<char>::empty()
            &&& info.uplink_path_stats is None
            &&& info.downlink_path_stats is None
        },
        match selector {
            Some(s) => {
                &&& info.outbounds matches Some(list)
                &&& texts(list@) == texts(s.outbound_tags@)
                &&& opt_text(info.selected_node) == if s.selected_index < s.outbound_tags@.len() {
                    Some(s.outbound_tags@[s.selected_index as int]@)
                } else {
                    None
                }
            },
            None => info.outbounds is None && info.selected_node is None,
        },
{
    let latency: i64 = match observer.get_outbound_stats(tag) {
        Some(node) => node.stats.latency_ms,
        None => 0,
    };
    let (outbounds, selected_node): (Option<Vec<String>>, Option<String>) = match selector {
        Some(s) => (
            Some(s.get_outbound_tags()),
            match s.get_selected_tag() {
                Some(t) => Some(copy_text(t)),
                None => None,
            },
        ),
        None => (None, None),
    };
    match observer.get_outbound_trace(tag) {
        Some(trace) => OutboundInfo {
            tag: copy_text(tag),
            protocol: copy_text(protocol),
            latency,
            ip: trace.ip,
            loc: trace.loc,
            outbounds,
            selected_node,
            uplink_path_stats: trace.uplink_path_stats,
            downlink_path_stats: trace.downlink_path_stats,
        },
        None => {
            let info = OutboundInfo {
                tag: copy_text(tag),
                protocol: copy_text(protocol),
                latency,
                ip: String::new(),
                loc: String::new(),
                outbounds,
                selected_node,
                uplink_path_stats: None,
                downlink_path_stats: None,
            };
            assert(info.ip@ =~= Seq::<char>::empty());
            assert(info.loc@ =~= Seq::<char>::empty());
            info
        },
    }
}

/// Switches a selector. `entry` is what the requested tag stands for: nothing, a way out that is no
/// selector, or the selector at that place. The answer is a status, with the change to report.
pub fn put_selector(selectors: &mut Selectors, entry: Option<Option<usize>>, selected: &str) -> (r: (
    u16,
    Option<Switch>,
))
    requires
        old(selectors).wf(),
        entry matches Some(Some(at)) ==> at < old(selectors).list@.len(),
    ensures
        final(selectors).wf(),
        final(selectors).list@.len() == old(selectors).list@.len(),
        match entry {
            Some(Some(at)) => {
                let before = old(selectors).list@[at as int];
                let after = final(selectors).list@[at as int];
                &&& forall|i: int|
                    0 <= i < old(selectors).list@.len() && i != at ==> final(selectors).list@[i] == (
                    #[trigger] old(selectors).list@[i])
                &&& after.has_completed_test == before.has_completed_test
                &&& if texts(before.outbound_tags@).contains(selected@) {
                    &&& r.0 == STATUS_OK
                    &&& after.same_settings(before)
                    &&& after.selected_index == first_place(texts(before.outbound_tags@), selected@)
                    &&& switched(before, after, r.1)
                } else {
                    &&& r.0 == STATUS_BAD_REQUEST
                    &&& r.1 is None
                    &&& after.same_settings(before)
                    &&& after.selected_index == before.selected_index
                }
            },
            _ => r.0 == STATUS_NOT_FOUND && r.1 is None && final(selectors).list@ == old(
                selectors,
            ).list@,
        },
{
    match entry {
        Some(Some(at)) => {
            let ghost before = selectors.list@;
            assert(before[at as int].wf(at as int));
            let r = selectors.list[at].select_by_tag(selected);
            proof {
                assert forall|i: int| 0 <= i < selectors.list@.len() implies (
                #[trigger] selectors.list@[i]).wf(i) by {
                    assert(before[i].wf(i));
                    if i != at {
                        assert(selectors.list@[i] == before[i]);
                    }
                }
            }
            match r {
                Some(switch) => (STATUS_OK, switch),
                None => (STATUS_BAD_REQUEST, None),
            }
        },
        _ => (STATUS_NOT_FOUND, None),
    }
}

/// What a test of a way out found.
#[derive(Debug)]
pub struct TraceResponse {
    pub ip: String,
    pub loc: String,
    pub duration_ms: u64,
    pub selected_node: Option<String>,
    pub uplink_path_stats: Option<PathState>,
    pub downlink_path_stats: Option<PathState>,
}

/// One line of the report, which may set the address or the country.
pub open spec fn trace_line(line: Seq<char>, found: (Seq<char>, Seq<char>)) -> (Seq<char>, Seq<char>) {
    let at = find_char(line, '=');
    if at >= line.len() {
        found
    } else {
        let key = trim(line.take(at));
        let value = trim(line.skip(at + 1));
        if key == "ip"@ {
            (value, found.1)
        } else if key == "loc"@ {
            (found.0, value)
        } else {
            found
        }
    }
}

/// The address and the country that a report of lines `key=value` names. Later lines go before earlier
/// ones.
pub open spec fn trace_fields(text: Seq<char>, found: (Seq<char>, Seq<char>)) -> (Seq<char>, Seq<char>)
    decreases text.len(),
{
    let end = find_char(text, '\n');
    if 0 <= end < text.len() {
        trace_fields(text.skip(end + 1), trace_line(text.take(end), found))
    } else {
        trace_line(text, found)
    }
}

fn read_trace_line(chars: &[char], from: usize, to: usize, ip: &mut String, loc: &mut String)
    requires
        from <= to <= chars@.len(),
    ensures
        (final(ip)@, final(loc)@) == trace_line(
            chars@.subrange(from as int, to as int),
            (old(ip)@, old(loc)@),
        ),
{
    let at: usize = find_from(chars, from, to, '=');
    if at == to {
        return;
    }
    let ghost line = chars@.subrange(from as int, to as int);
    assert(line.take(at - from) =~= chars@.subrange(from as int, at as int));
    assert(line.skip(at - from + 1) =~= chars@.subrange(at + 1, to as int));
    let key = trimmed(chars, from, at);
    if str_eq(key.as_str(), "ip") {
        *ip = trimmed(chars, at + 1, to);
    } else if str_eq(key.as_str(), "loc") {
        *loc = trimmed(chars, at + 1, to);
    }
}

/// Reads the address and the country off a report.
pub fn read_trace(body: &[u8]) -> (found: (String, String))
    ensures
        (found.0@, found.1@) == trace_fields(lossy_utf8(body@), (Seq::empty(), Seq::empty())),
{
    let text = utf8_text_lossy(body);
    let chars = chars_of(text.as_str());
    let mut ip = String::new();
    let mut loc = String::new();
    let mut at: usize = 0;
    proof {
        assert(chars@.skip(0) =~= chars@);
        assert(ip@ =~= Seq::<char>::empty());
        assert(loc@ =~= Seq::<char>::empty());
    }
    let ghost all = trace_fields(chars@, (Seq::empty(), Seq::empty()));
    loop
        invariant
            at <= chars@.len(),
            all == trace_fields(chars@.skip(at as int), (ip@, loc@)),
        ensures
            all == (ip@, loc@),
        decreases chars@.len() - at,
    {
        let end: usize = find_from(chars.as_slice(), at, chars.len(), '\n');
        let ghost rest = chars@.skip(at as int);
        assert(rest =~= chars@.subrange(at as int, chars@.len() as int));
        assert(rest.take(end - at) =~= chars@.subrange(at as int, end as int));
        read_trace_line(chars.as_slice(), at, end, &mut ip, &mut loc);
        if end == chars.len() {
            assert(rest.take(end - at) =~= rest);
            break;
        }
        assert(rest.skip(end - at + 1) =~= chars@.skip(end + 1));
        at = end + 1;
    }
    (ip, loc)
}

/// A node after a test: no longer being tested, with what the test found.
pub open spec fn tested(node: NodeView, latency_ms: i64, trace: TraceView) -> NodeView {
    NodeView {
        stats: Stats { latency_ms, ..node.stats },
        trace,
        is_testing_trace: false,
        ..node
    }
}

/// What a test of a way out comes to: the address, the country and the latency; or nothing.
pub open spec fn trace_result(body: Option<Seq<u8>>) -> Option<(Seq<char>, Seq<char>)> {
    match body {
        None => None,
        Some(bytes) => {
            let found = trace_fields(lossy_utf8(bytes), (Seq::empty(), Seq::empty()));
            if found.0.len() == 0 || found.1.len() == 0 {
                None
            } else {
                Some(found)
            }
        },
    }
}

/// The observer after a test of a way out.
pub open spec fn after_test(
    o: ObserverView,
    tag: Seq<char>,
    found: Option<(Seq<char>, Seq<char>)>,
    latency_ms: i64,
    uplink: Option<PathState>,
    downlink: Option<PathState>,
) -> ObserverView {
    if o.outbounds.contains_key(tag) {
        ObserverView {
            outbounds: o.outbounds.insert(
                tag,
                match found {
                    Some((ip, loc)) => tested(
                        o.outbounds[tag],
                        latency_ms,
                        TraceView { ip, loc, uplink, downlink },
                    ),
                    None => tested(
                        o.outbounds[tag],
                        -1i64,
                        TraceView {
                            ip: Seq::empty(),
                            loc: Seq::empty(),
                            uplink: None,
                            downlink: None,
                        },
                    ),
                },
            ),
            ..o
        }
    } else {
        o
    }
}

/// The report in what a request came to, where one came with success.
pub open spec fn report_in(reply: Result<Option<&[u8]>, String>) -> Option<Seq<u8>> {
    match reply {
        Ok(Some(body)) => Some(body@),
        _ => None,
    }
}

/// Ends a test of a way out that [`begin_test`] began. `reply` is what the request came to: its error,
/// or else the report, where one came with success; `elapsed_ms` is how long that took there and back.
pub fn get_outbound_info(
    observer: &mut Observer,
    tag: &str,
    reply: Result<Option<&[u8]>, String>,
    elapsed_ms: u64,
    uplink: Option<PathState>,
    downlink: Option<PathState>,
) -> (r: Result<TraceResponse, String>)
    requires
        old(observer).wf(),
    ensures
        final(observer).wf(),
        final(observer)@ == after_test(
            old(observer)@,
            tag@,
            trace_result(report_in(reply)),
            (elapsed_ms / 2) as i64,
            uplink,
            downlink,
        ),
        match r {
            Ok(t) => {
                &&& trace_result(report_in(reply)) == Some((t.ip@, t.loc@))
                &&& t.duration_ms == elapsed_ms / 2
                &&& t.selected_node is None
                &&& t.uplink_path_stats == uplink
                &&& t.downlink_path_stats == downlink
            },
            Err(e) => trace_result(report_in(reply)) is None && e@ == match reply {
                Err(cause) => cause@,
                Ok(_) => "failed to get response"@,
            },
        },
{
    let ghost before = observer@;
    let duration_ms: u64 = elapsed_ms / 2;
    if let Ok(Some(bytes)) = reply {
        let (ip, loc): (String, String) = read_trace(bytes);
        if !ip.as_str().is_empty() && !loc.as_str().is_empty() {
            observer.update_outbound_trace(
                tag,
                duration_ms as i64,
                copy_text(ip.as_str()),
                copy_text(loc.as_str()),
                uplink,
                downlink,
            );
            observer.set_outbound_trace_testing(tag, false);
            proof {
                assert(observer@.outbounds =~= after_test(
                    before,
                    tag@,
                    Some((ip@, loc@)),
                    duration_ms as i64,
                    uplink,
                    downlink,
                ).outbounds);
            }
            return Ok(
                TraceResponse {
                    ip,
                    loc,
                    duration_ms,
                    selected_node: None,
                    uplink_path_stats: uplink,
                    downlink_path_stats: downlink,
                },
            );
        }
    }
    observer.set_outbound_trace_testing(tag, false);
    let ip = String::new();
    let loc = String::new();
    proof {
        assert(ip@ =~= Seq::<char>::empty());
        assert(loc@ =~= Seq::<char>::empty());
    }
    observer.update_outbound_trace(tag, -1, ip, loc, None, None);
    proof {
        assert(observer@.outbounds =~= after_test(
            before,
            tag@,
            None,
            duration_ms as i64,
            uplink,
            downlink,
        ).outbounds);
    }
    match reply {
        Err(cause) => Err(cause),
        Ok(_) => Err(copy_text("failed to get response")),
    }
}

/// Begins a test of a way out, if it exists.
pub fn begin_test(observer: &mut Observer, tag: &str, exists: bool) -> (r: Result<(), String>)
    requires
        old(observer).wf(),
    ensures
        final(observer).wf(),
        match r {
            Ok(()) => exists && final(observer)@ == testing(old(observer)@, tag@),
            Err(e) => !exists && e@ == "outbound not found: "@ + tag@ && final(observer)@ == old(
                observer,
            )@,
        },
{
    if !exists {
        let mut e = copy_text("outbound not found: ");
        push_text(&mut e, tag);
        return Err(e);
    }
    observer.set_outbound_trace_testing(tag, true);
    assert(observer@ =~= testing(old(observer)@, tag@));
    Ok(())
}

/// The observer while a way out is being tested.
pub open spec fn testing(o: ObserverView, tag: Seq<char>) -> ObserverView {
    if o.outbounds.contains_key(tag) {
        ObserverView {
            outbounds: o.outbounds.insert(
                tag,
                NodeView { is_testing_trace: true, ..o.outbounds[tag] },
            ),
            ..o
        }
    } else {
        o
    }
}

/// Whatever a test came to, the way out is no longer marked as being tested, and it has a latency that
/// tells whether it answered.
pub proof fn law_tests_leave_no_mark(
    o: ObserverView,
    tag: Seq<char>,
    found: Option<(Seq<char>, Seq<char>)>,
    latency_ms: i64,
    uplink: Option<PathState>,
    downlink: Option<PathState>,
)
    requires
        o.outbounds.contains_key(tag),
        latency_ms >= 0,
    ensures
        ({
            let node = after_test(testing(o, tag), tag, found, latency_ms, uplink, downlink).outbounds[tag];
            &&& !node.is_testing_trace
            &&& node.stats.latency_ms >= 0 <==> found is Some
        }),
{
}

/// What a selector tells of the way out that it really uses. A refusal is the status to answer with.
pub fn get_trace(observer: &mut Observer, selectors: &Selectors, at: usize) -> (r: Result<TraceResponse, u16>)
    requires
        old(observer).wf(),
        selectors.wf(),
        at < selectors.list@.len(),
    ensures
        final(observer).wf(),
        ({
            let o = old(observer)@;
            let leaf = effective_tag(selectors.list@, at as int);
            let s = selectors.list@[at as int];
            match r {
                Err(status) => {
                    &&& status == STATUS_BAD_GATEWAY
                    &&& !o.outbounds.contains_key(leaf) || o.outbounds[leaf].stats.latency_ms <= 0
                    &&& final(observer)@ == o
                },
                Ok(t) => {
                    &&& o.outbounds.contains_key(leaf)
                    &&& o.outbounds[leaf].stats.latency_ms > 0
                    &&& t.duration_ms == o.outbounds[leaf].stats.latency_ms
                    &&& t.ip@ == o.outbounds[leaf].trace.ip
                    &&& t.loc@ == o.outbounds[leaf].trace.loc
                    &&& t.uplink_path_stats == o.outbounds[leaf].trace.uplink
                    &&& t.downlink_path_stats == o.outbounds[leaf].trace.downlink
                    &&& opt_text(t.selected_node) == Some(s.outbound_tags@[s.selected_index as int]@)
                    &&& final(observer)@ == passed_on(o, s.tag@, leaf)
                },
            }
        }),
{
    let s = &selectors.list[at];
    assert(selectors.list@[at as int].wf(at as int));
    let leaf = selectors.get_effective_tag(at);
    let selected_node = match s.get_selected_tag() {
        Some(t) => Some(copy_text(t)),
        None => None,
    };
    let latency: i64 = match observer.get_outbound_stats(leaf.as_str()) {
        None => {
            return Err(STATUS_BAD_GATEWAY);
        },
        Some(node) => node.stats.latency_ms,
    };
    if latency <= 0 {
        return Err(STATUS_BAD_GATEWAY);
    }
    let trace = match observer.get_outbound_trace(leaf.as_str()) {
        None => {
            return Err(STATUS_BAD_GATEWAY);
        },
        Some(trace) => trace,
    };
    observer.update_outbound_trace(
        s.tag.as_str(),
        latency,
        copy_text(trace.ip.as_str()),
        copy_text(trace.loc.as_str()),
        trace.uplink_path_stats,
        trace.downlink_path_stats,
    );
    assert(observer@ =~= passed_on(old(observer)@, s.tag@, leaf@));
    Ok(
        TraceResponse {
            ip: trace.ip,
            loc: trace.loc,
            duration_ms: latency as u64,
            selected_node,
            uplink_path_stats: trace.uplink_path_stats,
            downlink_path_stats: trace.downlink_path_stats,
        },
    )
}

/// What a request through a way out came to.
#[derive(Debug)]
pub enum RequestOutcome {
    TimedOut,
    Failed,
    Answered { status: u16, body: Vec<u8> },
}

/// What is told of a request through a way out: the status and the body of the answer. A refusal is the
/// status to answer with.
pub fn get_request(outcome: RequestOutcome) -> (r: Result<(u16, String), u16>)
    ensures
        match outcome {
            RequestOutcome::TimedOut => r == Err::<(u16, String), u16>(STATUS_GATEWAY_TIMEOUT),
            RequestOutcome::Failed => r == Err::<(u16, String), u16>(STATUS_BAD_GATEWAY),
            RequestOutcome::Answered { status, body } => if body@.len() > MAX_RESPONSE_BODY_BYTES {
                r == Err::<(u16, String), u16>(STATUS_PAYLOAD_TOO_LARGE)
            } else {
                r matches Ok(answer) && answer.0 == status && answer.1@ == lossy_utf8(body@)
            },
        },
{
    match outcome {
        RequestOutcome::TimedOut => Err(STATUS_GATEWAY_TIMEOUT),
        RequestOutcome::Failed => Err(STATUS_BAD_GATEWAY),
        RequestOutcome::Answered { status, body } => {
            if body.len() > MAX_RESPONSE_BODY_BYTES {
                return Err(STATUS_PAYLOAD_TOO_LARGE);
            }
            Ok((status, utf8_text_lossy(body.as_slice())))
        },
    }
}

/// How much of a disk is used.
pub fn disk_used(total: u64, available: u64) -> (used: u64)
    requires
        available <= total,
    ensures
        used == total - available,
{
    total - available
}

/// A report is read line by line: behind the first equals sign of a line stands what the name
/// before it is. Of lines with the same name the last counts, white space at the ends does not,
/// and lines of other names say nothing.
pub proof fn law_lines_of_a_report(
    text: Seq<char>,
    key: Seq<char>,
    value: Seq<char>,
    found: (Seq<char>, Seq<char>),
)
    requires
        !key.contains('='),
        !key.contains('\n'),
        !value.contains('\n'),
    ensures
        ({
            let line = key + seq!['='] + value;
            let after = if trim(key) == "ip"@ {
                (trim(value), found.1)
            } else if trim(key) == "loc"@ {
                (found.0, trim(value))
            } else {
                found
            };
            &&& trace_fields(line, found) == after
            &&& trace_fields(line + seq!['\n'] + text, found) == trace_fields(text, after)
        }),
        trace_fields(key, found) == found,
        trace_fields(key + seq!['\n'] + text, found) == trace_fields(text, found),
{
    let line = key + seq!['='] + value;
    let all = line + seq!['\n'] + text;
    let bare = key + seq!['\n'] + text;
    assert forall|i: int| 0 <= i < key.len() implies #[trigger] key[i] != '=' && key[i] != '\n' by {
        assert(key.contains(key[i]));
    }
    assert forall|i: int| 0 <= i < value.len() implies #[trigger] value[i] != '\n' by {
        assert(value.contains(value[i]));
    }
    law_first_place_is_found(key, '=', value);
    law_first_place_is_found(line, '\n', text);
    law_first_place_is_found(key, '\n', text);
    assert(line.take(key.len() as int) =~= key);
    assert(line.skip(1int + key.len()) =~= value);
    assert(all.take(line.len() as int) =~= line);
    assert(all.skip(1int + line.len()) =~= text);
    assert(bare.take(key.len() as int) =~= key);
    assert(bare.skip(1int + key.len()) =~= text);
}

/// A test that found an address and a place is kept with its latency and both paths. One that
/// lacks either, or had no answer, leaves a latency below nothing and no trace. Nodes that were
/// not tested stay as they were.
pub proof fn law_what_a_test_leaves(
    o: ObserverView,
    tag: Seq<char>,
    other: Seq<char>,
    ip: Seq<char>,
    loc: Seq<char>,
    latency_ms: i64,
    uplink: Option<PathState>,
    downlink: Option<PathState>,
)
    requires
        o.outbounds.contains_key(tag),
        other != tag,
    ensures
        ({
            let after = after_test(o, tag, Some((ip, loc)), latency_ms, uplink, downlink);
            let node = after.outbounds[tag];
            &&& node.stats.latency_ms == latency_ms
            &&& node.trace.ip == ip && node.trace.loc == loc
            &&& node.trace.uplink == uplink && node.trace.downlink == downlink
            &&& !node.is_testing_trace
            &&& node.tag == o.outbounds[tag].tag && node.protocol == o.outbounds[tag].protocol
            &&& node.stats.snapshot() == o.outbounds[tag].stats.snapshot()
            &&& o.outbounds.contains_key(other) ==> after.outbounds[other] == o.outbounds[other]
            &&& after.inbounds == o.inbounds && after.users == o.users && after.book == o.book
        }),
        ({
            let node = after_test(o, tag, None, latency_ms, uplink, downlink).outbounds[tag];
            &&& node.stats.latency_ms == -1
            &&& node.trace.ip.len() == 0 && node.trace.loc.len() == 0
            &&& node.trace.uplink is None && node.trace.downlink is None
            &&& !node.is_testing_trace
            &&& node.stats.snapshot() == o.outbounds[tag].stats.snapshot()
        }),
        !o.outbounds.contains_key(other) ==> after_test(
            o,
            other,
            Some((ip, loc)),
            latency_ms,
            uplink,
            downlink,
        ) == o,
        testing(o, tag).outbounds[tag].is_testing_trace,
        testing(o, tag).outbounds[tag].stats == o.outbounds[tag].stats,
        o.outbounds.contains_key(other) ==> testing(o, tag).outbounds[other] == o.outbounds[other],
{
}

/// A report counts only where it names both an address and a place.
pub proof fn law_half_a_report_is_none(bytes: Seq<u8>)
    ensures
        trace_result(None) is None,
        ({
            let found = trace_fields(lossy_utf8(bytes), (Seq::empty(), Seq::empty()));
            &&& trace_result(Some(bytes)) is Some <==> found.0.len() > 0 && found.1.len() > 0
            &&& trace_result(Some(bytes)) matches Some(r) ==> r == found
        }),
{
}

/// What is asked to be closed is closed, as far as a signal reaches it: all connections, the one
/// with an identifier, or those through an outbound. An identifier that cannot be read is a bad
/// request, and so is one that names nothing. One that is not there is not found.
pub proof fn law_what_is_closed(
    book: ConnectionBook,
    n: u128,
    tag: Seq<char>,
    r: Result<Vec<String>, u16>,
    id: Option<Option<u128>>,
    outbound: Option<Seq<char>>,
    name: Seq<char>,
)
    ensures
        closes(book, true, id, outbound, r) ==> (r matches Ok(ids) && (texts(ids@).contains(name)
            <==> book@.connections.contains_key(name) && book@.connections[name].closable)),
        closes(book, false, Some(None), outbound, r) ==> (r matches Err(status) && status == 400),
        closes(book, false, None, None, r) ==> (r matches Err(status) && status == 400),
        closes(book, false, Some(Some(n)), outbound, r) ==> (if book@.connections.contains_key(
            id_text(n),
        ) && book@.connections[id_text(n)].closable {
            r matches Ok(ids) && texts(ids@) == seq![id_text(n)]
        } else {
            r matches Err(status) && status == 404
        }),
        closes(book, false, None, Some(tag), r) ==> (r matches Ok(ids) && (texts(ids@).contains(name)
            <==> book@.connections.contains_key(name) && book@.connections[name].closable
            && book@.connections[name].tracker.outbound_tag.contains(tag))),
{
}

/// A listed connection shows where it really goes as its destination, and what was asked for as
/// its address. Everything else stands under its own name.
pub proof fn law_listed_connections(d: ConnectionData, c: ConnectionView)
    requires
        shows_connection(d, c),
    ensures
        d.id@ == id_text(c.id),
        d.dst@ == c.final_target.text(),
        d.ip@ == c.origin_target.text(),
        d.inbound_tag@ == c.inbound_tag,
        d.outbound_tag@.len() == c.outbound_tag.len(),
        forall|i: int|
            0 <= i < c.outbound_tag.len() ==> (#[trigger] d.outbound_tag@[i])@ == c.outbound_tag[i],
        d.matched_rule_index == c.matched_rule_index,
        d.is_udp == c.is_udp && d.is_fakeip == c.is_fakeip,
        d.upload == c.upload && d.download == c.download,
        d.start_time == c.start_time,
{
    assert(texts(d.outbound_tag@).len() == c.outbound_tag.len());
    assert forall|i: int| 0 <= i < c.outbound_tag.len() implies (#[trigger] d.outbound_tag@[i])@
        == c.outbound_tag[i] by {
        assert(texts(d.outbound_tag@)[i] == c.outbound_tag[i]);
    }
}

} // verus!
