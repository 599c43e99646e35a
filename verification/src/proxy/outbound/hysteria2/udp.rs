//! UDP over QUIC datagrams: the message format, splitting a packet into datagrams and putting
//! fragments together again.

use crate::proxy::addr::{dummy_target, target_of_text, TargetAddr};
use crate::proxy::outbound::hysteria2::varint::{
    append_varint, law_varint_reading, law_varint_round_trip, parse_varint,
    varint_bytes, varint_len, varint_parse, varint_size, VarintError,
};
use crate::text::{copy_text, lossy_utf8, utf8_text_lossy};
use crate::time::Duration;
use crate::wire::{
    be2, be2_bytes, be4, be4_bytes, copy_range, get_u16, get_u32, law_big_endian, number,
    put_slice, put_u16, put_u32,
};
use vstd::prelude::*;
use vstd::utf8::{encode_utf8, encode_utf8_decode_utf8, encode_utf8_valid_utf8};

verus! {

/// Bound on a single UDP packet's payload.
pub const MAX_UDP_PAYLOAD: usize = 2048;

/// Bound on the length of a destination.
pub const MAX_UDP_ADDRESS_LEN: u64 = 2048;

/// Upper bound on the fragmented packets that a session keeps track of at a time.
pub const UDP_MAX_DEFRAG_ENTRIES: usize = 64;

/// Fragmented packets that have waited this many nanoseconds, ten seconds, are discarded.
pub const UDP_FRAGMENT_TIMEOUT: u128 = 10_000_000_000;

/// Session ids start here; zero is reserved.
pub const FIRST_SESSION_ID: u32 = 1;

/// One UDP datagram of a session: a whole packet or a fragment of one.
#[derive(Debug)]
pub struct UdpMessage {
    pub session_id: u32,
    pub packet_id: u16,
    pub frag_id: u8,
    pub frag_count: u8,
    pub destination: String,
    pub payload: Vec<u8>,
}

/// The value of a message.
#[verifier::ext_equal]
pub struct UdpView {
    pub session_id: u32,
    pub packet_id: u16,
    pub frag_id: u8,
    pub frag_count: u8,
    pub destination: Seq<char>,
    pub payload: Seq<u8>,
}

impl View for UdpMessage {
    type V = UdpView;

    open spec fn view(&self) -> UdpView {
        UdpView {
            session_id: self.session_id,
            packet_id: self.packet_id,
            frag_id: self.frag_id,
            frag_count: self.frag_count,
            destination: self.destination@,
            payload: self.payload@,
        }
    }
}

/// Why a datagram is dropped.
#[derive(Clone, Copy, Debug, PartialEq, Eq, Structural)]
pub enum UdpError {
    /// The fixed header is not there.
    TooShort,
    /// The destination's length cannot be read.
    Length(VarintError),
    /// The destination is empty or too long.
    AddressLength(u64),
    /// The destination is cut off.
    Truncated,
    /// The fragment number is not below the number of fragments.
    BadFragment,
    /// Another fragment of the packet gave another number of fragments.
    ConflictingCount(u16),
}

/// The bytes before the payload for a destination of that many bytes.
pub open spec fn header_len(destination: nat) -> int {
    8 + varint_size(destination as u64) + destination
}

/// The bytes of a message's header.
pub open spec fn header_bytes(m: UdpView) -> Seq<u8> {
    be4_bytes(m.session_id as int) + be2_bytes(m.packet_id as int) + seq![m.frag_id, m.frag_count]
        + varint_bytes(encode_utf8(m.destination).len() as u64) + encode_utf8(m.destination)
}

/// The bytes of a message.
pub open spec fn message_bytes(m: UdpView) -> Seq<u8> {
    header_bytes(m) + m.payload
}

/// How many bytes come before the payload.
fn header_len_of(destination: &str) -> (n: usize)
    requires
        encode_utf8(destination@).len() + 16 <= usize::MAX,
    ensures
        n == header_len(encode_utf8(destination@).len()),
{
    let len: usize = destination.as_bytes().len();
    8 + varint_len(len as u64) + len
}

impl UdpMessage {
    /// How many bytes come before the payload.
    pub fn header_size(&self) -> (n: usize)
        requires
            encode_utf8(self.destination@).len() + 16 <= usize::MAX,
        ensures
            n == header_len(encode_utf8(self.destination@).len()),
    {
        header_len_of(self.destination.as_str())
    }

    /// The message as one datagram.
    pub fn pack(&self) -> (out: Vec<u8>)
        ensures
            out@ == message_bytes(self@),
    {
        let mut out: Vec<u8> = Vec::new();
        put_u32(&mut out, self.session_id);
        put_u16(&mut out, self.packet_id);
        out.push(self.frag_id);
        out.push(self.frag_count);
        let destination = self.destination.as_str().as_bytes();
        append_varint(&mut out, destination.len() as u64);
        put_slice(&mut out, destination);
        put_slice(&mut out, self.payload.as_slice());
        assert(out@ =~= message_bytes(self@));
        out
    }
}

/// The message that a datagram holds.
pub open spec fn message_parse(data: Seq<u8>) -> Result<UdpView, UdpError> {
    if data.len() < 9 {
        Err(UdpError::TooShort)
    } else {
        match varint_parse(data.skip(8)) {
            Err(e) => Err(UdpError::Length(e)),
            Ok((len, used)) => if len == 0 || len > MAX_UDP_ADDRESS_LEN {
                Err(UdpError::AddressLength(len))
            } else if data.len() < 8 + used + len {
                Err(UdpError::Truncated)
            } else {
                Ok(
                    UdpView {
                        session_id: be4(data) as u32,
                        packet_id: be2(data.skip(4)) as u16,
                        frag_id: data[6],
                        frag_count: data[7],
                        destination: lossy_utf8(data.subrange(8 + used, 8 + used + len)),
                        payload: data.skip(8 + used + len),
                    },
                )
            },
        }
    }
}

/// Reads the message that a datagram holds.
pub fn parse_udp_message(data: &[u8]) -> (r: Result<UdpMessage, UdpError>)
    ensures
        match r {
            Ok(m) => message_parse(data@) == Ok::<UdpView, UdpError>(m@),
            Err(e) => message_parse(data@) == Err::<UdpView, UdpError>(e),
        },
{
    if data.len() < 9 {
        return Err(UdpError::TooShort);
    }
    let session_id: u32 = get_u32(data, 0);
    let packet_id: u16 = get_u16(data, 4);
    let frag_id: u8 = data[6];
    let frag_count: u8 = data[7];
    assert(data@.skip(0) =~= data@);
    let rest = vstd::slice::slice_subrange(data, 8, data.len());
    assert(rest@ =~= data@.skip(8));
    let (len, used): (u64, usize) = match parse_varint(rest) {
        Err(e) => {
            return Err(UdpError::Length(e));
        },
        Ok(p) => p,
    };
    if len == 0 || len > MAX_UDP_ADDRESS_LEN {
        return Err(UdpError::AddressLength(len));
    }
    let len: usize = len as usize;
    if rest.len() - used < len {
        return Err(UdpError::Truncated);
    }
    let start: usize = 8 + used;
    let name = vstd::slice::slice_subrange(data, start, start + len);
    let destination = utf8_text_lossy(name);
    let payload = copy_range(data, start + len, data.len());
    assert(payload@ =~= data@.skip(start + len));
    Ok(UdpMessage { session_id, packet_id, frag_id, frag_count, destination, payload })
}

/// A message reads back from its datagram.
pub proof fn law_message_round_trip(m: UdpView)
    requires
        0 < encode_utf8(m.destination).len() <= MAX_UDP_ADDRESS_LEN,
    ensures
        message_parse(message_bytes(m)) == Ok::<UdpView, UdpError>(m),
        header_bytes(m).len() == header_len(encode_utf8(m.destination).len()),
{
    let name = encode_utf8(m.destination);
    let len = name.len() as u64;
    let data = message_bytes(m);
    law_varint_round_trip(len, name + m.payload);
    let used = varint_size(len);
    assert(data.skip(8) =~= varint_bytes(len) + (name + m.payload));
    assert(data.subrange(8 + used, 8 + used + len) =~= name);
    assert(data.skip(8 + used + len) =~= m.payload);
    encode_utf8_decode_utf8(m.destination);
    encode_utf8_valid_utf8(m.destination);
    assert(be4(data) == m.session_id) by {
        crate::wire::law_be4_round_trip(m.session_id as int, data.skip(4));
        assert(data =~= be4_bytes(m.session_id as int) + data.skip(4));
    }
    assert(be2(data.skip(4)) == m.packet_id) by {
        crate::wire::law_be2_round_trip(m.packet_id as int, data.skip(6));
        assert(data.skip(4) =~= be2_bytes(m.packet_id as int) + data.skip(6));
    }
}

/// A packet of which some fragments have come.
#[derive(Debug)]
pub struct Fragments {
    pub count: u8,
    pub parts: Vec<Option<Vec<u8>>>,
    pub created: Duration,
}

/// The value of a packet of which some fragments have come.
#[verifier::ext_equal]
pub struct FragmentsView {
    pub count: u8,
    pub parts: Seq<Option<Seq<u8>>>,
    pub created: Duration,
}

/// The bytes of a fragment that has come.
pub open spec fn part_view(part: Option<Vec<u8>>) -> Option<Seq<u8>> {
    match part {
        Some(bytes) => Some(bytes@),
        None => None,
    }
}

impl View for Fragments {
    type V = FragmentsView;

    open spec fn view(&self) -> FragmentsView {
        FragmentsView {
            count: self.count,
            parts: self.parts@.map_values(|p: Option<Vec<u8>>| part_view(p)),
            created: self.created,
        }
    }
}

/// A packet of which no fragment has come.
pub open spec fn no_fragments(count: u8, now: Duration) -> FragmentsView {
    FragmentsView { count, parts: Seq::new(count as nat, |i: int| None), created: now }
}

/// How long ago `then` was at `now`.
pub open spec fn age(then: Duration, now: Duration) -> int {
    if now.nanos >= then.nanos {
        now.nanos - then.nanos
    } else {
        0
    }
}

/// Whether a packet is young enough to be kept when the table is swept.
pub open spec fn is_recent(f: FragmentsView, now: Duration) -> bool {
    age(f.created, now) < UDP_FRAGMENT_TIMEOUT
}

fn recent(f: &Fragments, now: Duration) -> (r: bool)
    ensures
        r == is_recent(f@, now),
{
    now.saturating_sub(f.created).nanos < UDP_FRAGMENT_TIMEOUT
}

fn fresh_fragments(count: u8, now: Duration) -> (f: Fragments)
    ensures
        f@ == no_fragments(count, now),
{
    let mut parts: Vec<Option<Vec<u8>>> = Vec::new();
    let mut i: u8 = 0;
    while i < count
        invariant
            i <= count,
            parts@.len() == i,
            forall|k: int| 0 <= k < i ==> (#[trigger] parts@[k]) is None,
        decreases count - i,
    {
        parts.push(None);
        i += 1;
    }
    let f = Fragments { count, parts, created: now };
    assert(f@.parts =~= no_fragments(count, now).parts);
    f
}

/// The packets of a session that are not complete yet, by packet id: a `hashbrown::HashMap`.
#[verifier::external_body]
pub struct FragmentTable {
    map: hashbrown::HashMap<u16, Fragments>,
}

/// What a table holds: each packet id with the fragments that have come.
pub uninterp spec fn packets_in(table: FragmentTable) -> Map<u16, FragmentsView>;

/// A table without packets.
pub open spec fn no_packets() -> Map<u16, FragmentsView> {
    Map::empty()
}

/// The packets that are kept when the table is swept.
pub open spec fn recent_packets(
    packets: Map<u16, FragmentsView>,
    now: Duration,
) -> Map<u16, FragmentsView> {
    packets.restrict(Set::new(|id: u16| packets.contains_key(id) && is_recent(packets[id], now)))
}

impl FragmentTable {
    /// Calls `hashbrown::HashMap::new`, which makes a map without entries.
    #[verifier::external_body]
    fn empty() -> (table: FragmentTable)
        ensures
            packets_in(table) == no_packets(),
    {
        FragmentTable { map: hashbrown::HashMap::new() }
    }

    /// Calls `hashbrown::HashMap::len`, which counts the entries.
    #[verifier::external_body]
    fn size(&self) -> (n: usize)
        ensures
            n == packets_in(*self).len(),
    {
        self.map.len()
    }

    /// Calls `hashbrown::HashMap::retain` with `recent`: the entries that it holds for stay.
    #[verifier::external_body]
    fn keep_recent(&mut self, now: Duration)
        ensures
            packets_in(*final(self)) == recent_packets(packets_in(*old(self)), now),
    {
        self.map.retain(|_, fragments| recent(fragments, now));
    }

    /// Calls `hashbrown::HashMap::insert`, which sets the key's value whether or not the key was
    /// there.
    #[verifier::external_body]
    fn put(&mut self, id: u16, fragments: Fragments)
        ensures
            packets_in(*final(self)) == packets_in(*old(self)).insert(id, fragments@),
    {
        self.map.insert(id, fragments);
    }

    /// Calls `hashbrown::HashMap::remove`, which takes the key's entry out and hands it back.
    #[verifier::external_body]
    fn take(&mut self, id: u16) -> (r: Option<Fragments>)
        ensures
            packets_in(*final(self)) == packets_in(*old(self)).remove(id),
            match r {
                Some(f) => packets_in(*old(self)).contains_key(id) && packets_in(*old(self))[id]
                    == f@,
                None => !packets_in(*old(self)).contains_key(id),
            },
    {
        self.map.remove(&id)
    }

    /// A table without packets.
    pub fn new() -> (table: FragmentTable)
        ensures
            packets_in(table) == no_packets(),
            table.wf(),
    {
        FragmentTable::empty()
    }

    /// There are no more packets than are kept track of, and each has one place for each of its
    /// fragments.
    pub open spec fn wf(self) -> bool {
        bounded(packets_in(self)) && all_sized(packets_in(self))
    }
}

/// There are no more packets than a session keeps track of.
pub open spec fn bounded(packets: Map<u16, FragmentsView>) -> bool {
    packets.dom().finite() && packets.len() <= UDP_MAX_DEFRAG_ENTRIES
}

/// Each packet has one place for each of its fragments.
pub open spec fn all_sized(packets: Map<u16, FragmentsView>) -> bool {
    forall|id: u16| #[trigger]
        packets.contains_key(id) ==> packets[id].parts.len() == packets[id].count
}

/// The fragments one after the other.
pub open spec fn joined(parts: Seq<Option<Seq<u8>>>) -> Seq<u8>
    decreases parts.len(),
{
    if parts.len() == 0 {
        Seq::empty()
    } else {
        joined(parts.drop_last()) + (match parts.last() {
            Some(bytes) => bytes,
            None => Seq::empty(),
        })
    }
}

/// Whether every fragment has come.
pub open spec fn complete(parts: Seq<Option<Seq<u8>>>) -> bool {
    forall|i: int| 0 <= i < parts.len() ==> (#[trigger] parts[i]) is Some
}

/// The table once stale packets have been swept out, if it is full.
pub open spec fn swept(
    packets: Map<u16, FragmentsView>,
    now: Duration,
) -> Map<u16, FragmentsView> {
    if packets.len() >= UDP_MAX_DEFRAG_ENTRIES {
        recent_packets(packets, now)
    } else {
        packets
    }
}

/// Whether fragments of a packet have come that have not been waiting for longer than the timeout.
pub open spec fn underway(packets: Map<u16, FragmentsView>, id: u16, now: Duration) -> bool {
    packets.contains_key(id) && age(packets[id].created, now) <= UDP_FRAGMENT_TIMEOUT
}

/// What has come of a packet, as the fragment finds it: nothing, where the packet is new or has
/// been waiting for longer than the timeout.
pub open spec fn found(
    packets: Map<u16, FragmentsView>,
    m: UdpView,
    now: Duration,
) -> FragmentsView {
    if underway(packets, m.packet_id, now) {
        packets[m.packet_id]
    } else {
        no_fragments(m.frag_count, now)
    }
}

/// The packet with one more fragment.
pub open spec fn with_part(f: FragmentsView, m: UdpView) -> FragmentsView {
    FragmentsView { parts: f.parts.update(m.frag_id as int, Some(m.payload)), ..f }
}

/// What a message does to the incomplete packets, and the packet that it completes. A fragment of a
/// new packet is dropped where as many packets are underway as are kept track of.
pub open spec fn defrag_step(
    packets: Map<u16, FragmentsView>,
    m: UdpView,
    now: Duration,
) -> (Map<u16, FragmentsView>, Result<Option<(Seq<char>, Seq<u8>)>, UdpError>) {
    if m.frag_count == 0 || m.frag_id >= m.frag_count {
        (packets, Err(UdpError::BadFragment))
    } else if m.frag_count == 1 {
        (packets, Ok(Some((m.destination, m.payload))))
    } else {
        let kept = swept(packets, now);
        if underway(kept, m.packet_id, now) && kept[m.packet_id].count != m.frag_count {
            (kept, Err(UdpError::ConflictingCount(m.packet_id)))
        } else if !kept.contains_key(m.packet_id) && kept.len() >= UDP_MAX_DEFRAG_ENTRIES {
            (kept, Ok(None))
        } else {
            let next = with_part(found(kept, m, now), m);
            if complete(next.parts) {
                (kept.remove(m.packet_id), Ok(Some((m.destination, joined(next.parts)))))
            } else {
                (kept.insert(m.packet_id, next), Ok(None))
            }
        }
    }
}

/// What a datagram does to the incomplete packets, and the packet that it completes.
pub open spec fn datagram_step(
    packets: Map<u16, FragmentsView>,
    raw: Seq<u8>,
    now: Duration,
) -> (Map<u16, FragmentsView>, Result<Option<(Seq<char>, Seq<u8>)>, UdpError>) {
    match message_parse(raw) {
        Err(e) => (packets, Err(e)),
        Ok(m) => defrag_step(packets, m, now),
    }
}

fn is_complete(parts: &Vec<Option<Vec<u8>>>) -> (r: bool)
    ensures
        r == complete(parts@.map_values(|p: Option<Vec<u8>>| part_view(p))),
{
    let ghost all = parts@.map_values(|p: Option<Vec<u8>>| part_view(p));
    let mut i: usize = 0;
    while i < parts.len()
        invariant
            i <= parts@.len(),
            all == parts@.map_values(|p: Option<Vec<u8>>| part_view(p)),
            forall|k: int| 0 <= k < i ==> (#[trigger] all[k]) is Some,
        decreases parts@.len() - i,
    {
        if parts[i].is_none() {
            assert(all[i as int] is None);
            return false;
        }
        assert(all[i as int] is Some);
        i += 1;
    }
    true
}

fn join(parts: &Vec<Option<Vec<u8>>>) -> (out: Vec<u8>)
    ensures
        out@ == joined(parts@.map_values(|p: Option<Vec<u8>>| part_view(p))),
{
    let ghost all = parts@.map_values(|p: Option<Vec<u8>>| part_view(p));
    let mut out: Vec<u8> = Vec::new();
    let mut i: usize = 0;
    assert(all.take(0) =~= Seq::<Option<Seq<u8>>>::empty());
    while i < parts.len()
        invariant
            i <= parts@.len(),
            all == parts@.map_values(|p: Option<Vec<u8>>| part_view(p)),
            out@ == joined(all.take(i as int)),
        decreases parts@.len() - i,
    {
        proof {
            assert(all.take(i + 1).drop_last() =~= all.take(i as int));
            assert(all.take(i + 1).last() == part_view(parts@[i as int]));
        }
        match &parts[i] {
            Some(bytes) => {
                put_slice(&mut out, bytes.as_slice());
            },
            None => {
                assert(out@ + Seq::<u8>::empty() =~= out@);
            },
        }
        i += 1;
    }
    assert(all.take(i as int) =~= all);
    out
}

proof fn lemma_swept(packets: Map<u16, FragmentsView>, now: Duration)
    requires
        bounded(packets),
    ensures
        bounded(swept(packets, now)),
        all_sized(packets) ==> all_sized(swept(packets, now)),
{
    let kept = swept(packets, now);
    assert(kept.dom().subset_of(packets.dom()));
    vstd::set_lib::lemma_len_subset(kept.dom(), packets.dom());
    assert forall|id: u16| all_sized(packets) && #[trigger] kept.contains_key(id) implies kept[id].parts.len()
        == kept[id].count by {
        assert(packets.contains_key(id));
    }
}

/// However many fragments come, of however many packets: no more packets are kept track of at a time
/// than the bound.
pub proof fn law_tracked_packets_are_bounded(
    packets: Map<u16, FragmentsView>,
    raw: Seq<u8>,
    now: Duration,
)
    requires
        bounded(packets),
    ensures
        bounded(datagram_step(packets, raw, now).0),
{
    lemma_swept(packets, now);
    if let Ok(m) = message_parse(raw) {
        lemma_step_bounded(packets, m, now);
    }
}

proof fn lemma_step_bounded(packets: Map<u16, FragmentsView>, m: UdpView, now: Duration)
    requires
        bounded(packets),
    ensures
        bounded(defrag_step(packets, m, now).0),
{
    lemma_swept(packets, now);
    let kept = swept(packets, now);
    let next = with_part(found(kept, m, now), m);
    assert(kept.remove(m.packet_id).dom() =~= kept.dom().remove(m.packet_id));
    assert(kept.insert(m.packet_id, next).dom() =~= kept.dom().insert(m.packet_id));
}

fn defragment(
    m: UdpMessage,
    defrag: &mut FragmentTable,
    now: Duration,
) -> (r: Result<Option<(String, Vec<u8>)>, UdpError>)
    requires
        old(defrag).wf(),
    ensures
        final(defrag).wf(),
        packets_in(*final(defrag)) == defrag_step(packets_in(*old(defrag)), m@, now).0,
        packet_result(r) == defrag_step(packets_in(*old(defrag)), m@, now).1,
{
    let ghost before = packets_in(*defrag);
    if m.frag_count == 0 || m.frag_id >= m.frag_count {
        return Err(UdpError::BadFragment);
    }
    if m.frag_count == 1 {
        return Ok(Some((m.destination, m.payload)));
    }
    proof {
        lemma_swept(before, now);
        lemma_step_bounded(before, m@, now);
    }
    if defrag.size() >= UDP_MAX_DEFRAG_ENTRIES {
        defrag.keep_recent(now);
    }
    let ghost kept = packets_in(*defrag);
    assert(kept == swept(before, now));
    let mut entry: Fragments = match defrag.take(m.packet_id) {
        None => {
            assert(kept.remove(m.packet_id) =~= kept);
            if defrag.size() >= UDP_MAX_DEFRAG_ENTRIES {
                return Ok(None);
            }
            fresh_fragments(m.frag_count, now)
        },
        Some(f) => {
            if now.saturating_sub(f.created).nanos > UDP_FRAGMENT_TIMEOUT {
                fresh_fragments(m.frag_count, now)
            } else if f.count != m.frag_count {
                defrag.put(m.packet_id, f);
                assert(packets_in(*defrag) =~= kept);
                return Err(UdpError::ConflictingCount(m.packet_id));
            } else {
                f
            }
        },
    };
    assert(entry@ == found(kept, m@, now));
    assert(entry.parts@.len() == entry@.parts.len());
    let ghost start = entry@;
    entry.parts.set(m.frag_id as usize, Some(m.payload));
    assert(entry@.parts =~= with_part(start, m@).parts);
    assert(entry@ == with_part(start, m@));
    if is_complete(&entry.parts) {
        let whole = join(&entry.parts);
        return Ok(Some((m.destination, whole)));
    }
    let ghost done = entry@;
    defrag.put(m.packet_id, entry);
    assert(packets_in(*defrag) =~= kept.insert(m.packet_id, done));
    Ok(None)
}

/// The value of what a datagram brought.
pub open spec fn packet_result(r: Result<Option<(String, Vec<u8>)>, UdpError>) -> Result<
    Option<(Seq<char>, Seq<u8>)>,
    UdpError,
> {
    match r {
        Ok(Some((destination, payload))) => Ok(Some((destination@, payload@))),
        Ok(None) => Ok(None),
        Err(e) => Err(e),
    }
}

/// Takes one datagram in. `Ok(None)` means that fragments are still outstanding, or that the fragment
/// was one packet too many. `now` is the time since some fixed moment.
pub fn process_udp_datagram(raw: &[u8], defrag: &mut FragmentTable, now: Duration) -> (r: Result<
    Option<(String, Vec<u8>)>,
    UdpError,
>)
    requires
        old(defrag).wf(),
    ensures
        final(defrag).wf(),
        packets_in(*final(defrag)) == datagram_step(packets_in(*old(defrag)), raw@, now).0,
        packet_result(r) == datagram_step(packets_in(*old(defrag)), raw@, now).1,
{
    match parse_udp_message(raw) {
        Err(e) => Err(e),
        Ok(m) => defragment(m, defrag, now),
    }
}

/// What a table holds of a packet once the fragments in `came` have come.
pub open spec fn partly(
    chunks: Seq<Seq<u8>>,
    came: Set<int>,
    created: Duration,
) -> FragmentsView {
    FragmentsView {
        count: chunks.len() as u8,
        parts: Seq::new(
            chunks.len(),
            |i: int|
                if came.contains(i) {
                    Some(chunks[i])
                } else {
                    None
                },
        ),
        created,
    }
}

/// The chunks one after the other.
pub open spec fn concat(chunks: Seq<Seq<u8>>) -> Seq<u8>
    decreases chunks.len(),
{
    if chunks.len() == 0 {
        Seq::empty()
    } else {
        concat(chunks.drop_last()) + chunks.last()
    }
}

proof fn lemma_joined_is_concat(chunks: Seq<Seq<u8>>)
    ensures
        joined(chunks.map_values(|c: Seq<u8>| Some(c))) == concat(chunks),
    decreases chunks.len(),
{
    let parts = chunks.map_values(|c: Seq<u8>| Some(c));
    if chunks.len() > 0 {
        lemma_joined_is_concat(chunks.drop_last());
        assert(parts.drop_last() =~= chunks.drop_last().map_values(|c: Seq<u8>| Some(c)));
    }
}

/// The fragments of a packet may come in any order, and more than once: where there is room for the
/// packet, each is kept until the last one is there, and then the whole packet is handed out and
/// forgotten.
pub proof fn law_fragments_in_any_order(
    packets: Map<u16, FragmentsView>,
    chunks: Seq<Seq<u8>>,
    came: Set<int>,
    m: UdpView,
    created: Duration,
    now: Duration,
)
    requires
        2 <= chunks.len() <= 255,
        m.frag_count == chunks.len(),
        m.frag_id < m.frag_count,
        m.payload == chunks[m.frag_id as int],
        came != Set::<int>::empty() ==> packets.contains_key(m.packet_id)
            && packets[m.packet_id] == partly(chunks, came, created) && underway(
            swept(packets, now),
            m.packet_id,
            now,
        ),
        came == Set::<int>::empty() ==> !packets.contains_key(m.packet_id) && created == now
            && swept(packets, now).len() < UDP_MAX_DEFRAG_ENTRIES,
    ensures
        ({
            let all = came.insert(m.frag_id as int);
            let whole = forall|i: int| 0 <= i < chunks.len() ==> all.contains(i);
            let (after, r) = defrag_step(packets, m, now);
            if whole {
                &&& r == Ok::<Option<(Seq<char>, Seq<u8>)>, UdpError>(
                    Some((m.destination, concat(chunks))),
                )
                &&& !after.contains_key(m.packet_id)
            } else {
                &&& r == Ok::<Option<(Seq<char>, Seq<u8>)>, UdpError>(None)
                &&& after.contains_key(m.packet_id)
                &&& after[m.packet_id] == partly(chunks, all, created)
            }
        }),
{
    let all = came.insert(m.frag_id as int);
    let kept = swept(packets, now);
    let next = with_part(found(kept, m, now), m);
    assert(found(kept, m, now) =~= partly(chunks, came, created));
    assert(next =~= partly(chunks, all, created));
    if forall|i: int| 0 <= i < chunks.len() ==> all.contains(i) {
        assert forall|i: int| 0 <= i < next.parts.len() implies (#[trigger] next.parts[i]) is Some by {
            assert(all.contains(i));
        }
        assert(next.parts =~= chunks.map_values(|c: Seq<u8>| Some(c)));
        lemma_joined_is_concat(chunks);
    } else {
        let i = choose|i: int| 0 <= i < chunks.len() && !all.contains(i);
        assert(next.parts[i] is None);
    }
}

/// A fragment of one packet leaves the other packets as they were, but for those that are swept out
/// because the table is full and they have waited too long.
pub proof fn law_fragment_leaves_others_alone(
    packets: Map<u16, FragmentsView>,
    raw: Seq<u8>,
    now: Duration,
    other: u16,
)
    requires
        message_parse(raw) matches Ok(m) ==> m.packet_id != other,
    ensures
        ({
            let after = datagram_step(packets, raw, now).0;
            let swept_out = packets.len() >= UDP_MAX_DEFRAG_ENTRIES && packets.contains_key(other)
                && !is_recent(packets[other], now);
            &&& !swept_out ==> after.contains_key(other) == packets.contains_key(other)
            &&& after.contains_key(other) ==> packets.contains_key(other) && after[other]
                == packets[other]
        }),
{
}

/// A packet that is not fragmented passes at once, and changes nothing.
pub proof fn law_whole_packet_passes(packets: Map<u16, FragmentsView>, m: UdpView, now: Duration)
    requires
        0 < encode_utf8(m.destination).len() <= MAX_UDP_ADDRESS_LEN,
        m.frag_id == 0,
        m.frag_count == 1,
    ensures
        datagram_step(packets, message_bytes(m), now) == (
            packets,
            Ok::<Option<(Seq<char>, Seq<u8>)>, UdpError>(Some((m.destination, m.payload))),
        ),
{
    law_message_round_trip(m);
}

/// Whom a packet came from; a placeholder where the text is no address.
pub fn packet_source(destination: &str) -> (t: TargetAddr)
    ensures
        t@ == match target_of_text(destination@) {
            Ok(t) => t,
            Err(_) => dummy_target(),
        },
{
    match TargetAddr::from_str(destination) {
        Ok(t) => t,
        Err(_) => TargetAddr::dummy(),
    }
}

/// Why a packet is not sent.
#[derive(Clone, Copy, Debug, PartialEq, Eq, Structural)]
pub enum SendError {
    /// The payload is longer than a packet may be.
    PayloadTooLarge(usize),
    /// The peer takes no datagrams.
    NoDatagrams,
    /// More fragments would be needed than can be numbered.
    TooManyFragments,
}

/// A byte string cut into pieces of `per` bytes, the last one shorter.
pub open spec fn pieces(s: Seq<u8>, per: int) -> Seq<Seq<u8>>
    decreases s.len(),
{
    if s.len() == 0 || per <= 0 {
        Seq::empty()
    } else if s.len() <= per {
        seq![s]
    } else {
        seq![s.take(per)] + pieces(s.skip(per), per)
    }
}

/// How many payload bytes go into one datagram.
pub open spec fn per_fragment(header: int, max_size: int) -> int {
    if max_size - header > 1 {
        max_size - header
    } else {
        1
    }
}

/// A payload cut so that each piece fits into a datagram.
pub open spec fn cut(payload: Seq<u8>, header: int, max_size: int) -> Seq<Seq<u8>> {
    if payload.len() + header <= max_size {
        seq![payload]
    } else {
        pieces(payload, per_fragment(header, max_size))
    }
}

/// The datagram that carries piece `i`. The pieces of a packet share the next packet id.
pub open spec fn fragment(
    session_id: u32,
    last_id: u16,
    destination: Seq<char>,
    chunks: Seq<Seq<u8>>,
    i: int,
) -> UdpView {
    UdpView {
        session_id,
        packet_id: ((last_id + 1) % 0x1_0000) as u16,
        frag_id: i as u8,
        frag_count: chunks.len() as u8,
        destination,
        payload: chunks[i],
    }
}

/// The datagrams that carry a packet.
pub open spec fn fragments_of(
    session_id: u32,
    last_id: u16,
    destination: Seq<char>,
    chunks: Seq<Seq<u8>>,
) -> Seq<Seq<u8>> {
    Seq::new(
        chunks.len(),
        |i: int| message_bytes(fragment(session_id, last_id, destination, chunks, i)),
    )
}

/// The datagrams for a packet, given the datagram size that the peer takes and the packet id used
/// last.
pub open spec fn send_plan(
    session_id: u32,
    last_id: u16,
    destination: Seq<char>,
    payload: Seq<u8>,
    max_size: Option<usize>,
) -> Result<Seq<Seq<u8>>, SendError> {
    if payload.len() > MAX_UDP_PAYLOAD {
        Err(SendError::PayloadTooLarge(payload.len() as usize))
    } else {
        match max_size {
            None => Err(SendError::NoDatagrams),
            Some(max) => {
                let chunks = cut(payload, header_len(encode_utf8(destination).len()), max as int);
                if chunks.len() > 255 {
                    Err(SendError::TooManyFragments)
                } else {
                    Ok(fragments_of(session_id, last_id, destination, chunks))
                }
            },
        }
    }
}

/// The values of a list of byte strings.
pub open spec fn bytes_of(v: Seq<Vec<u8>>) -> Seq<Seq<u8>> {
    v.map_values(|b: Vec<u8>| b@)
}

fn cut_payload(payload: &[u8], header: usize, max_size: usize) -> (chunks: Vec<Vec<u8>>)
    requires
        payload@.len() + header <= usize::MAX,
    ensures
        bytes_of(chunks@) == cut(payload@, header as int, max_size as int),
{
    let mut chunks: Vec<Vec<u8>> = Vec::new();
    if payload.len() + header <= max_size {
        let whole = copy_range(payload, 0, payload.len());
        assert(whole@ =~= payload@);
        chunks.push(whole);
        assert(bytes_of(chunks@) =~= seq![payload@]);
        return chunks;
    }
    let per: usize = if max_size > header && max_size - header > 1 {
        max_size - header
    } else {
        1
    };
    let mut at: usize = 0;
    assert(payload@.skip(0) =~= payload@);
    assert(bytes_of(chunks@) + pieces(payload@, per as int) =~= pieces(payload@, per as int));
    while at < payload.len()
        invariant
            per >= 1,
            at <= payload@.len(),
            bytes_of(chunks@) + pieces(payload@.skip(at as int), per as int) == pieces(
                payload@,
                per as int,
            ),
        decreases payload@.len() - at,
    {
        let left: usize = payload.len() - at;
        let take: usize = if left < per {
            left
        } else {
            per
        };
        let ghost before = bytes_of(chunks@);
        let ghost rest = payload@.skip(at as int);
        let piece = copy_range(payload, at, at + take);
        proof {
            assert(piece@ =~= rest.take(take as int));
            if rest.len() <= per {
                assert(rest.take(take as int) =~= rest);
                assert(pieces(rest, per as int) =~= seq![rest] + pieces(
                    payload@.skip(at + take),
                    per as int,
                ));
            } else {
                assert(rest.skip(per as int) =~= payload@.skip(at + take));
            }
        }
        chunks.push(piece);
        at += take;
        proof {
            assert(bytes_of(chunks@) =~= before.push(rest.take(take as int)));
            assert(before + (seq![rest.take(take as int)] + pieces(
                payload@.skip(at as int),
                per as int,
            )) =~= bytes_of(chunks@) + pieces(payload@.skip(at as int), per as int));
        }
    }
    assert(payload@.skip(at as int).len() == 0);
    assert(bytes_of(chunks@) + Seq::<Seq<u8>>::empty() =~= bytes_of(chunks@));
    chunks
}

/// Builds the datagrams for a packet. `last_id` is the packet id used last, `max_size` what a
/// datagram may hold.
pub fn send_to(
    session_id: u32,
    last_id: u16,
    target: &TargetAddr,
    payload: &[u8],
    max_size: Option<usize>,
) -> (r: Result<Vec<Vec<u8>>, SendError>)
    requires
        encode_utf8(target@.text()).len() + 4096 <= usize::MAX,
    ensures
        match r {
            Ok(datagrams) => send_plan(session_id, last_id, target@.text(), payload@, max_size)
                == Ok::<Seq<Seq<u8>>, SendError>(bytes_of(datagrams@)),
            Err(e) => send_plan(session_id, last_id, target@.text(), payload@, max_size) == Err::<
                Seq<Seq<u8>>,
                SendError,
            >(e),
        },
{
    if payload.len() > MAX_UDP_PAYLOAD {
        return Err(SendError::PayloadTooLarge(payload.len()));
    }
    let max: usize = match max_size {
        None => {
            return Err(SendError::NoDatagrams);
        },
        Some(max) => max,
    };
    let destination = target.to_text();
    let header: usize = header_len_of(destination.as_str());
    let chunks = cut_payload(payload, header, max);
    let ghost cuts = bytes_of(chunks@);
    if chunks.len() > 255 {
        return Err(SendError::TooManyFragments);
    }
    let ghost want = fragments_of(session_id, last_id, target@.text(), cuts);
    let mut out: Vec<Vec<u8>> = Vec::new();
    let packet_id: u16 = last_id.wrapping_add(1);
    let mut i: usize = 0;
    while i < chunks.len()
        invariant
            i <= chunks@.len() <= 255,
            cuts == bytes_of(chunks@),
            destination@ == target@.text(),
            packet_id == (last_id + 1) % 0x1_0000,
            want == fragments_of(session_id, last_id, target@.text(), cuts),
            bytes_of(out@) == want.take(i as int),
        decreases chunks@.len() - i,
    {
        let payload = copy_range(chunks[i].as_slice(), 0, chunks[i].len());
        assert(payload@ =~= cuts[i as int]);
        let message = UdpMessage {
            session_id,
            packet_id,
            frag_id: i as u8,
            frag_count: chunks.len() as u8,
            destination: copy_text(destination.as_str()),
            payload,
        };
        let packed = message.pack();
        proof {
            assert(message@ == fragment(session_id, last_id, target@.text(), cuts, i as int));
            assert(want[i as int] == packed@);
        }
        let ghost before = bytes_of(out@);
        out.push(packed);
        i += 1;
        assert(bytes_of(out@) =~= before.push(packed@));
        assert(bytes_of(out@) =~= want.take(i as int));
    }
    assert(want.take(i as int) =~= want);
    Ok(out)
}

proof fn lemma_pieces(s: Seq<u8>, per: int)
    requires
        per >= 1,
    ensures
        concat(pieces(s, per)) == s,
        forall|i: int| 0 <= i < pieces(s, per).len() ==> 0 < (#[trigger] pieces(s, per)[i]).len()
            <= per,
    decreases s.len(),
{
    let all = pieces(s, per);
    if s.len() == 0 {
        assert(s =~= Seq::empty());
    } else if s.len() <= per {
        assert(all.drop_last() =~= Seq::<Seq<u8>>::empty());
        reveal_with_fuel(concat, 2);
        assert(concat(all) =~= s);
    } else {
        lemma_pieces(s.skip(per), per);
        lemma_concat_front(s.take(per), pieces(s.skip(per), per));
        assert(s.take(per) + s.skip(per) =~= s);
    }
}

proof fn lemma_concat_front(first: Seq<u8>, rest: Seq<Seq<u8>>)
    ensures
        concat(seq![first] + rest) == first + concat(rest),
    decreases rest.len(),
{
    let all = seq![first] + rest;
    if rest.len() == 0 {
        assert(all.drop_last() =~= Seq::<Seq<u8>>::empty());
        reveal_with_fuel(concat, 2);
        assert(concat(all) =~= first + concat(rest));
    } else {
        assert(all.drop_last() =~= seq![first] + rest.drop_last());
        lemma_concat_front(first, rest.drop_last());
        assert(first + (concat(rest.drop_last()) + rest.last()) =~= (first + concat(
            rest.drop_last(),
        )) + rest.last());
    }
}

/// Wherever a datagram can hold the header and a byte, the datagrams of a packet carry its payload
/// in order and without loss, and none of them is larger than the peer takes.
pub proof fn law_fragments_carry_the_payload(
    session_id: u32,
    last_id: u16,
    destination: Seq<char>,
    payload: Seq<u8>,
    max_size: usize,
)
    requires
        0 < encode_utf8(destination).len() <= MAX_UDP_ADDRESS_LEN,
        header_len(encode_utf8(destination).len()) < max_size,
    ensures
        ({
            let header = header_len(encode_utf8(destination).len());
            let chunks = cut(payload, header, max_size as int);
            let packets = fragments_of(session_id, last_id, destination, chunks);
            &&& concat(chunks) == payload
            &&& packets.len() == chunks.len()
            &&& forall|i: int|
                0 <= i < packets.len() ==> (#[trigger] packets[i]).len() <= max_size
                    && message_parse(packets[i]) == Ok::<UdpView, UdpError>(
                    fragment(session_id, last_id, destination, chunks, i),
                )
        }),
{
    let header = header_len(encode_utf8(destination).len());
    let chunks = cut(payload, header, max_size as int);
    let packets = fragments_of(session_id, last_id, destination, chunks);
    let per = per_fragment(header, max_size as int);
    if payload.len() + header <= max_size {
        assert(chunks.drop_last() =~= Seq::<Seq<u8>>::empty());
        reveal_with_fuel(concat, 2);
        assert(concat(chunks) =~= payload);
    } else {
        lemma_pieces(payload, per);
    }
    assert forall|i: int| 0 <= i < packets.len() implies (#[trigger] packets[i]).len() <= max_size
        && message_parse(packets[i]) == Ok::<UdpView, UdpError>(
        fragment(session_id, last_id, destination, chunks, i),
    ) by {
        law_message_round_trip(fragment(session_id, last_id, destination, chunks, i));
    }
}

/// What datagrams do to the incomplete packets, one after the other and each at its time, and what
/// each of them brings.
pub open spec fn run_of(
    packets: Map<u16, FragmentsView>,
    datagrams: Seq<Seq<u8>>,
    times: Seq<Duration>,
) -> (Map<u16, FragmentsView>, Seq<Result<Option<(Seq<char>, Seq<u8>)>, UdpError>>)
    decreases datagrams.len(),
{
    if datagrams.len() == 0 {
        (packets, Seq::empty())
    } else {
        let (before, results) = run_of(packets, datagrams.drop_last(), times.drop_last());
        let (after, r) = datagram_step(before, datagrams.last(), times.last());
        (after, results.push(r))
    }
}

/// Whether `order` names each of `n` places once.
pub open spec fn is_order(order: Seq<int>, n: int) -> bool {
    &&& order.len() == n
    &&& order.no_duplicates()
    &&& forall|k: int| 0 <= k < n ==> 0 <= #[trigger] order[k] < n
}

proof fn lemma_order_covers(order: Seq<int>, n: int, k: int)
    requires
        is_order(order, n),
        0 <= k <= n,
    ensures
        k == n <==> forall|i: int| 0 <= i < n ==> order.take(k).to_set().contains(i),
{
    let places = vstd::set_lib::set_int_range(0, n);
    let part = order.take(k);
    vstd::set_lib::lemma_int_range(0, n);
    assert(part.no_duplicates());
    part.unique_seq_to_set();
    assert(part.to_set().subset_of(places));
    if k == n {
        vstd::set_lib::lemma_subset_equality(part.to_set(), places);
        assert forall|i: int| 0 <= i < n implies part.to_set().contains(i) by {
            assert(places.contains(i));
        }
    } else if forall|i: int| 0 <= i < n ==> part.to_set().contains(i) {
        assert(places.subset_of(part.to_set()));
        vstd::set_lib::lemma_len_subset(places, part.to_set());
    }
}

/// Whether there is room for one more packet without the table being full.
pub open spec fn few(packets: Map<u16, FragmentsView>) -> bool {
    packets.dom().finite() && packets.len() + 1 < UDP_MAX_DEFRAG_ENTRIES
}

/// Whether a fragment that comes now still finds those that came first. Where the table may be full,
/// packets that have waited for just as long as the timeout are swept out.
pub open spec fn in_time(packets: Map<u16, FragmentsView>, first: Duration, now: Duration) -> bool {
    age(first, now) < UDP_FRAGMENT_TIMEOUT || (few(packets) && age(first, now)
        == UDP_FRAGMENT_TIMEOUT)
}

/// Whether these datagrams are the fragments of one packet, one for each chunk.
pub open spec fn are_fragments(
    fragments: Seq<Seq<u8>>,
    id: u16,
    destination: Seq<char>,
    chunks: Seq<Seq<u8>>,
) -> bool {
    &&& fragments.len() == chunks.len()
    &&& forall|i: int|
        0 <= i < fragments.len() ==> {
            &&& message_parse(#[trigger] fragments[i]) matches Ok(m)
            &&& m.packet_id == id
            &&& m.frag_id == i
            &&& m.frag_count == chunks.len()
            &&& m.destination == destination
            &&& m.payload == chunks[i]
        }
}

proof fn lemma_partly_run(
    packets: Map<u16, FragmentsView>,
    fragments: Seq<Seq<u8>>,
    id: u16,
    destination: Seq<char>,
    chunks: Seq<Seq<u8>>,
    order: Seq<int>,
    times: Seq<Duration>,
    k: int,
)
    requires
        2 <= chunks.len() <= 255,
        are_fragments(fragments, id, destination, chunks),
        is_order(order, chunks.len() as int),
        times.len() == chunks.len(),
        forall|j: int| 0 <= j < times.len() ==> in_time(packets, times[0], #[trigger] times[j]),
        !packets.contains_key(id),
        swept(packets, times[0]).len() < UDP_MAX_DEFRAG_ENTRIES,
        1 <= k <= chunks.len(),
    ensures
        ({
            let datagrams = Seq::new(chunks.len(), |j: int| fragments[order[j]]);
            let (after, results) = run_of(packets, datagrams.take(k), times.take(k));
            &&& results.len() == k
            &&& few(packets) ==> after.remove(id) == packets
            &&& forall|j: int|
                0 <= j < k && j < chunks.len() - 1 ==> (#[trigger] results[j]) == Ok::<
                    Option<(Seq<char>, Seq<u8>)>,
                    UdpError,
                >(None)
            &&& if k < chunks.len() {
                after.contains_key(id) && after[id] == partly(
                    chunks,
                    order.take(k).to_set(),
                    times[0],
                )
            } else {
                !after.contains_key(id) && results[k - 1] == Ok::<
                    Option<(Seq<char>, Seq<u8>)>,
                    UdpError,
                >(Some((destination, concat(chunks))))
            }
        }),
    decreases k,
{
    let datagrams = Seq::new(chunks.len(), |j: int| fragments[order[j]]);
    let raw = fragments[order[k - 1]];
    let m = message_parse(raw)->Ok_0;
    let came = order.take(k - 1).to_set();
    let now = times[k - 1];
    assert(datagrams.take(k).drop_last() =~= datagrams.take(k - 1));
    assert(times.take(k).drop_last() =~= times.take(k - 1));
    assert(datagrams.take(k).last() == raw);
    assert(times.take(k).last() == now);
    assert(message_parse(raw) == Ok::<UdpView, UdpError>(m));
    lemma_order_covers(order, chunks.len() as int, k);
    let before = run_of(packets, datagrams.take(k - 1), times.take(k - 1)).0;
    if k == 1 {
        assert(came =~= Set::<int>::empty());
        law_fragments_in_any_order(packets, chunks, came, m, times[0], now);
        assert(before.remove(id) =~= packets);
    } else {
        lemma_partly_run(packets, fragments, id, destination, chunks, order, times, k - 1);
        assert(order.take(k - 1)[0] == order[0]);
        assert(came.contains(order[0]));
    }
    if few(packets) {
        assert(before.dom().subset_of(packets.dom().insert(id)));
        vstd::set_lib::lemma_len_subset(before.dom(), packets.dom().insert(id));
        let after = datagram_step(before, raw, now).0;
        assert(after.remove(id) =~= before.remove(id));
    }
    if k > 1 {
        assert(in_time(packets, times[0], now));
        law_fragments_in_any_order(before, chunks, came, m, times[0], now);
    }
    assert(order.take(k).to_set() =~= came.insert(order[k - 1])) by {
        assert forall|x: int| #[trigger] order.take(k).to_set().contains(x) == came.insert(
            order[k - 1],
        ).contains(x) by {
            if order.take(k).contains(x) {
                let part = order.take(k);
                let j = choose|j: int| 0 <= j < part.len() && part[j] == x;
                if j < k - 1 {
                    assert(order.take(k - 1)[j] == x);
                }
            }
            if came.contains(x) {
                let part = order.take(k - 1);
                let j = choose|j: int| 0 <= j < part.len() && part[j] == x;
                assert(order.take(k)[j] == x);
            }
            assert(order.take(k)[k - 1] == order[k - 1]);
        }
    }
}

/// The fragments of a packet, however it was cut, come together: taken in once each, in any order
/// and in time, they bring nothing before the last of them, and with the last the chunks in the order
/// of their numbers. Nothing of the packet is left behind, and as long as the table is not full, the
/// other packets stay as they were. The packet id must not be in use by an earlier packet, and there
/// must be room for the packet.
pub proof fn law_fragments_come_together(
    packets: Map<u16, FragmentsView>,
    fragments: Seq<Seq<u8>>,
    id: u16,
    destination: Seq<char>,
    chunks: Seq<Seq<u8>>,
    order: Seq<int>,
    times: Seq<Duration>,
)
    requires
        2 <= chunks.len() <= 255,
        are_fragments(fragments, id, destination, chunks),
        is_order(order, chunks.len() as int),
        times.len() == chunks.len(),
        forall|j: int| 0 <= j < times.len() ==> in_time(packets, times[0], #[trigger] times[j]),
        !packets.contains_key(id),
        swept(packets, times[0]).len() < UDP_MAX_DEFRAG_ENTRIES,
    ensures
        ({
            let datagrams = Seq::new(chunks.len(), |j: int| fragments[order[j]]);
            let (after, results) = run_of(packets, datagrams, times);
            &&& results.len() == chunks.len()
            &&& results.last() == Ok::<Option<(Seq<char>, Seq<u8>)>, UdpError>(
                Some((destination, concat(chunks))),
            )
            &&& forall|j: int|
                0 <= j < results.len() - 1 ==> (#[trigger] results[j]) == Ok::<
                    Option<(Seq<char>, Seq<u8>)>,
                    UdpError,
                >(None)
            &&& !after.contains_key(id)
            &&& few(packets) ==> after == packets
        }),
{
    let n = chunks.len() as int;
    let datagrams = Seq::new(chunks.len(), |j: int| fragments[order[j]]);
    lemma_partly_run(packets, fragments, id, destination, chunks, order, times, n);
    assert(datagrams.take(n) =~= datagrams);
    assert(times.take(n) =~= times);
    let after = run_of(packets, datagrams, times).0;
    assert(after.remove(id) =~= after);
}

/// A packet comes out as it went in: the datagrams that carry it, taken in in any order and in time,
/// bring the whole packet with the last of them and nothing before, and leave nothing of it
/// behind; as long as the table is not full, the other packets stay as they were. The packet id must not
/// be in use by an earlier packet, and there must be room for the packet.
pub proof fn law_split_packet_comes_together(
    packets: Map<u16, FragmentsView>,
    session_id: u32,
    last_id: u16,
    destination: Seq<char>,
    payload: Seq<u8>,
    max_size: usize,
    order: Seq<int>,
    times: Seq<Duration>,
)
    requires
        0 < encode_utf8(destination).len() <= MAX_UDP_ADDRESS_LEN,
        header_len(encode_utf8(destination).len()) < max_size,
        send_plan(session_id, last_id, destination, payload, Some(max_size)) is Ok,
        ({
            let all = send_plan(session_id, last_id, destination, payload, Some(max_size))->Ok_0;
            &&& is_order(order, all.len() as int)
            &&& times.len() == all.len()
        }),
        forall|j: int| 0 <= j < times.len() ==> in_time(packets, times[0], #[trigger] times[j]),
        !packets.contains_key(((last_id + 1) % 0x1_0000) as u16),
        swept(packets, times[0]).len() < UDP_MAX_DEFRAG_ENTRIES,
    ensures
        ({
            let all = send_plan(session_id, last_id, destination, payload, Some(max_size))->Ok_0;
            let datagrams = Seq::new(all.len(), |j: int| all[order[j]]);
            let (after, results) = run_of(packets, datagrams, times);
            &&& results.len() == all.len() > 0
            &&& results.last() == Ok::<Option<(Seq<char>, Seq<u8>)>, UdpError>(
                Some((destination, payload)),
            )
            &&& forall|j: int|
                0 <= j < results.len() - 1 ==> (#[trigger] results[j]) == Ok::<
                    Option<(Seq<char>, Seq<u8>)>,
                    UdpError,
                >(None)
            &&& !after.contains_key(((last_id + 1) % 0x1_0000) as u16)
            &&& few(packets) ==> after == packets
        }),
{
    let header = header_len(encode_utf8(destination).len());
    let chunks = cut(payload, header, max_size as int);
    let all = fragments_of(session_id, last_id, destination, chunks);
    let datagrams = Seq::new(all.len(), |j: int| all[order[j]]);
    law_fragments_carry_the_payload(session_id, last_id, destination, payload, max_size);
    if chunks.len() == 1 {
        let m = fragment(session_id, last_id, destination, chunks, 0);
        assert(order[0] == 0);
        assert(datagrams.drop_last() =~= Seq::<Seq<u8>>::empty());
        reveal_with_fuel(run_of, 2);
        law_whole_packet_passes(packets, m, times[0]);
        assert(chunks.drop_last() =~= Seq::<Seq<u8>>::empty());
        reveal_with_fuel(concat, 2);
        assert(concat(chunks) =~= chunks[0]);
    } else {
        if chunks.len() == 0 {
            assert(concat(chunks) =~= Seq::<u8>::empty());
        }
        let id = ((last_id + 1) % 0x1_0000) as u16;
        law_fragments_come_together(packets, all, id, destination, chunks, order, times);
    }
}

/// The session that a datagram is for.
pub open spec fn session_of(data: Seq<u8>) -> Option<u32> {
    if data.len() < 4 {
        None
    } else {
        Some(be4(data) as u32)
    }
}

/// The session that a datagram is for.
pub fn route_of(data: &[u8]) -> (id: Option<u32>)
    ensures
        id == session_of(data@),
{
    if data.len() < 4 {
        None
    } else {
        assert(data@.skip(0) =~= data@);
        Some(get_u32(data, 0))
    }
}

/// Takes the next session id, while there is one.
pub fn next_session_id(next: &mut u32) -> (id: Option<u32>)
    ensures
        *old(next) == u32::MAX ==> id is None && *final(next) == *old(next),
        *old(next) < u32::MAX ==> id == Some(*old(next)) && *final(next) == *old(next) + 1,
{
    if *next == u32::MAX {
        None
    } else {
        let id: u32 = *next;
        *next = id + 1;
        Some(id)
    }
}

/// A session's packet goes to that session, and to no other.
pub proof fn law_message_is_routed(m: UdpView)
    ensures
        session_of(message_bytes(m)) == Some(m.session_id),
{
    let data = message_bytes(m);
    crate::wire::law_be4_round_trip(m.session_id as int, data.skip(4));
    assert(data =~= be4_bytes(m.session_id as int) + data.skip(4));
}

/// A message begins with the number of its session in four bytes, that of its packet in two,
/// its place among the fragments and their number in one byte each. The length of the
/// destination, the destination and the payload follow. The shortest form of the length is
/// used.
pub proof fn law_message_form(m: UdpView)
    requires
        encode_utf8(m.destination).len() < 64,
    ensures
        ({
            let data = message_bytes(m);
            let name = encode_utf8(m.destination);
            &&& data.len() == 9 + name.len() + m.payload.len()
            &&& number(data.subrange(0, 4)) == m.session_id
            &&& number(data.subrange(4, 6)) == m.packet_id
            &&& data[6] == m.frag_id
            &&& data[7] == m.frag_count
            &&& data[8] == name.len()
            &&& data.subrange(9, 9int + name.len()) == name
            &&& data.skip(9int + name.len()) == m.payload
        }),
{
    let data = message_bytes(m);
    let name = encode_utf8(m.destination);
    law_big_endian(m.session_id as int, Seq::empty());
    law_big_endian(m.packet_id as int, Seq::empty());
    assert(data.subrange(0, 4) =~= be4_bytes(m.session_id as int));
    assert(data.subrange(4, 6) =~= be2_bytes(m.packet_id as int));
    assert(data.subrange(9, 9int + name.len()) =~= name);
    assert(data.skip(9int + name.len()) =~= m.payload);
}

/// Messages of fewer than nine bytes are refused, and so are those without a destination or
/// with one of more than 2048 bytes, and those that end before their destination does.
pub proof fn law_bad_messages_are_refused(data: Seq<u8>)
    ensures
        data.len() < 9 ==> message_parse(data) == Err::<UdpView, UdpError>(UdpError::TooShort),
        data.len() >= 9 && data[8] == 0 ==> message_parse(data) == Err::<UdpView, UdpError>(
            UdpError::AddressLength(0),
        ),
        data.len() >= 9 && 0 < data[8] < 64 && data.len() < 9 + data[8] ==> message_parse(data)
            == Err::<UdpView, UdpError>(UdpError::Truncated),
        data.len() >= 9 && 0 < data[8] < 64 && data.len() >= 9 + data[8] ==> message_parse(data)
            is Ok,
        data.len() >= 10 && 64 <= data[8] < 128 && (data[8] - 64) * 256 + data[9] > 2048
            ==> message_parse(data) == Err::<UdpView, UdpError>(
            UdpError::AddressLength(((data[8] - 64) * 256 + data[9]) as u64),
        ),
        message_parse(data) matches Ok(m) ==> m.payload.len() <= data.len() - 10 && m.payload
            == data.skip(data.len() - m.payload.len()),
{
    if data.len() >= 9 {
        law_varint_reading(data.skip(8));
        if message_parse(data) is Ok {
            assert(message_parse(data)->Ok_0.payload =~= data.skip(
                data.len() - message_parse(data)->Ok_0.payload.len(),
            ));
        }
    }
}

/// A fragment that claims to be one of none, or to stand behind the last, is refused, and
/// nothing changes. So is one that contradicts, within ten seconds, what the packet's earlier
/// fragments said of their number: those are kept as they were.
pub proof fn law_contradictions_are_refused(
    packets: Map<u16, FragmentsView>,
    m: UdpView,
    now: Duration,
)
    ensures
        m.frag_count == 0 || m.frag_id >= m.frag_count ==> defrag_step(packets, m, now) == (
            packets,
            Err::<Option<(Seq<char>, Seq<u8>)>, UdpError>(UdpError::BadFragment),
        ),
        m.frag_count > 1 && m.frag_id < m.frag_count && packets.len() < 64 && packets.contains_key(
            m.packet_id,
        ) && packets[m.packet_id].count != m.frag_count && now.nanos
            <= packets[m.packet_id].created.nanos + 10_000_000_000 ==> defrag_step(packets, m, now)
            == (
            packets,
            Err::<Option<(Seq<char>, Seq<u8>)>, UdpError>(UdpError::ConflictingCount(m.packet_id)),
        ),
{
}

/// Fragments that are older than ten seconds are forgotten: the next fragment of the packet
/// begins anew, with nothing of the earlier ones.
pub proof fn law_old_fragments_are_forgotten(
    packets: Map<u16, FragmentsView>,
    m: UdpView,
    now: Duration,
)
    requires
        packets.len() < 64,
        packets.contains_key(m.packet_id),
        now.nanos > packets[m.packet_id].created.nanos + 10_000_000_000,
        m.frag_id < m.frag_count,
        m.frag_count > 1,
    ensures
        ({
            let (after, r) = defrag_step(packets, m, now);
            &&& r == Ok::<Option<(Seq<char>, Seq<u8>)>, UdpError>(None)
            &&& after.contains_key(m.packet_id)
            &&& after[m.packet_id].created == now
            &&& after[m.packet_id].count == m.frag_count
            &&& after[m.packet_id].parts.len() == m.frag_count
            &&& forall|i: int|
                0 <= i < m.frag_count ==> #[trigger] after[m.packet_id].parts[i] == if i
                    == m.frag_id {
                    Some(m.payload)
                } else {
                    None
                }
        }),
{
    let next = with_part(no_fragments(m.frag_count, now), m);
    let other: int = if m.frag_id == 0 {
        1
    } else {
        0
    };
    assert(next.parts[other] is None);
}

/// Sixty-four packets are followed at a time. A fragment of one more is dropped while all of
/// them are younger than ten seconds, and they stay as they are.
pub proof fn law_no_more_packets_than_sixty_four(
    packets: Map<u16, FragmentsView>,
    m: UdpView,
    now: Duration,
)
    requires
        packets.len() == 64,
        !packets.contains_key(m.packet_id),
        m.frag_id < m.frag_count,
        m.frag_count > 1,
        forall|id: u16| #[trigger]
            packets.contains_key(id) ==> now.nanos < packets[id].created.nanos + 10_000_000_000,
    ensures
        defrag_step(packets, m, now) == (
            packets,
            Ok::<Option<(Seq<char>, Seq<u8>)>, UdpError>(None),
        ),
{
    assert(recent_packets(packets, now) =~= packets);
}

/// A payload of more than 2048 bytes is not sent, nor one over a connection without datagrams,
/// nor one that takes more than 255 fragments. One that fits a datagram with its header is sent
/// whole, under the next number of a packet. Otherwise every fragment but the last is filled.
pub proof fn law_what_is_sent(
    session_id: u32,
    last_id: u16,
    destination: Seq<char>,
    payload: Seq<u8>,
    max_size: usize,
)
    requires
        0 < encode_utf8(destination).len() < 64,
        max_size > 9 + encode_utf8(destination).len(),
    ensures
        payload.len() > 2048 ==> send_plan(session_id, last_id, destination, payload, Some(max_size))
            == Err::<Seq<Seq<u8>>, SendError>(SendError::PayloadTooLarge(payload.len() as usize)),
        payload.len() <= 2048 ==> send_plan(session_id, last_id, destination, payload, None) == Err::<
            Seq<Seq<u8>>,
            SendError,
        >(SendError::NoDatagrams),
        ({
            let room = max_size - 9 - encode_utf8(destination).len();
            let next = if last_id == 65535 {
                0u16
            } else {
                (last_id + 1) as u16
            };
            payload.len() <= 2048 ==> {
                &&& payload.len() <= room ==> send_plan(
                    session_id,
                    last_id,
                    destination,
                    payload,
                    Some(max_size),
                ) == Ok::<Seq<Seq<u8>>, SendError>(
                    seq![
                        message_bytes(
                            UdpView {
                                session_id,
                                packet_id: next,
                                frag_id: 0,
                                frag_count: 1,
                                destination,
                                payload,
                            },
                        ),
                    ],
                )
                &&& payload.len() > room ==> (match send_plan(
                    session_id,
                    last_id,
                    destination,
                    payload,
                    Some(max_size),
                ) {
                    Ok(all) => (all.len() - 1) * room < payload.len() <= all.len() * room && all.len()
                        <= 255,
                    Err(e) => e == SendError::TooManyFragments && payload.len() > 255 * room,
                })
            }
        }),
{
    let header = header_len(encode_utf8(destination).len());
    let room = max_size - header;
    let plan = send_plan(session_id, last_id, destination, payload, Some(max_size));
    let chunks = cut(payload, header, max_size as int);
    if payload.len() <= room {
        let f = fragment(session_id, last_id, destination, chunks, 0);
        assert(fragments_of(session_id, last_id, destination, chunks) =~= seq![message_bytes(f)]);
    } else {
        lemma_pieces_len(payload, room);
        if chunks.len() > 255 {
            assert(255 * room <= (chunks.len() - 1) * room) by (nonlinear_arith)
                requires
                    chunks.len() > 255,
                    room > 0,
            ;
        }
    }
}

proof fn lemma_pieces_len(s: Seq<u8>, per: int)
    requires
        per > 0,
        s.len() > 0,
    ensures
        pieces(s, per).len() > 0,
        (pieces(s, per).len() - 1) * per < s.len() <= pieces(s, per).len() * per,
    decreases s.len(),
{
    if s.len() > per {
        lemma_pieces_len(s.skip(per), per);
        let n = pieces(s.skip(per), per).len() as int;
        assert(pieces(s, per).len() == n + 1);
        assert((n + 1 - 1) * per == (n - 1) * per + per) by (nonlinear_arith);
        assert((n + 1) * per == n * per + per) by (nonlinear_arith);
    } else {
        assert(pieces(s, per).len() == 1);
        assert((1 - 1) * per == 0) by (nonlinear_arith);
        assert(1 * per == per) by (nonlinear_arith);
    }
}

} // verus!
