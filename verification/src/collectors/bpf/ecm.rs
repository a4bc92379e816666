use vstd::prelude::*;
use crate::ecm_node::{zero_counters, TrafficCounters};
use crate::identity::{identity_text, mac_text, ClientIdentity, ClientIdentityView, IdentityTable};
use crate::keyed::{
    find_name, lemma_name_sorted_upsert_lookup, name_lookup, name_sorted_upsert, names_view,
    sorted_upsert_name, Named, NamedView,
};

verus! {

/// The direction byte of a transmitted-traffic map entry.
pub const DIR_TX: u8 = 0;

/// The direction byte of a received-traffic map entry.
pub const DIR_RX: u8 = 1;

/// How long a published flow rate is held without new progress.
pub const ECM_RATE_HOLD_MS: u64 = 2_500;

/// How long the baseline of a flow that left the map is remembered.
pub const FLOW_RETENTION_MS: u64 = 60_000;

/// The key of one entry of the ECM connection map: the connection, its
/// generation, the direction and the client MAC.
#[derive(Clone, Copy, Debug, Default, Eq, PartialEq)]
pub struct EcmKey {
    pub connection: u64,
    pub generation: u32,
    pub direction: u8,
    pub reserved: u8,
    pub mac: [u8; 6],
    pub padding: [u8; 4],
}

/// The counters of one entry of the ECM connection map; `last_seen` is in
/// nanoseconds.
#[derive(Clone, Copy, Debug, Default, Eq, PartialEq, Structural)]
pub struct EcmCounters {
    pub bytes: u64,
    pub packets: u64,
    pub last_seen: u64,
}

/// One entry of the ECM connection map.
#[derive(Clone, Copy, Debug, Default, Eq, PartialEq)]
pub struct RawEcmSample {
    pub key: EcmKey,
    pub counters: EcmCounters,
}

/// One read of the ECM connection map, and whether it was cut short.
#[derive(Clone, Debug, Default, Eq, PartialEq)]
pub struct EcmMapRead {
    pub entries: Vec<RawEcmSample>,
    pub truncated: bool,
}

/// A flow as the collector tracks it: connection, generation, direction and
/// the client MAC packed into the low 48 bits of `mac`.
#[derive(Clone, Copy, Debug, Default, Eq, PartialEq, Structural)]
pub struct FlowKey {
    pub connection: u64,
    pub generation: u32,
    pub direction: u8,
    pub mac: u64,
}

/// The MAC octets packed big-endian into a number.
pub open spec fn packed_mac(m: Seq<u8>) -> u64 {
    ((m[0] as u64) * 0x100_0000_0000 + (m[1] as u64) * 0x1_0000_0000 + (m[2] as u64) * 0x100_0000
        + (m[3] as u64) * 0x1_0000 + (m[4] as u64) * 0x100 + (m[5] as u64)) as u64
}

/// The flow of a map key.
pub open spec fn spec_flow_key(k: EcmKey) -> FlowKey {
    FlowKey {
        connection: k.connection,
        generation: k.generation,
        direction: k.direction,
        mac: packed_mac(k.mac@),
    }
}

fn flow_key(k: &EcmKey) -> (r: FlowKey)
    ensures
        r == spec_flow_key(*k),
{
    let m = k.mac;
    let mac: u64 = (m[0] as u64) * 0x100_0000_0000 + (m[1] as u64) * 0x1_0000_0000 + (m[2] as u64)
        * 0x100_0000 + (m[3] as u64) * 0x1_0000 + (m[4] as u64) * 0x100 + (m[5] as u64);
    FlowKey {
        connection: k.connection,
        generation: k.generation,
        direction: k.direction,
        mac,
    }
}

/// What the collector remembers of a flow: its last counters, when they last
/// moved, and when the kernel last saw it.
#[derive(Clone, Copy, Debug, Default, Eq, PartialEq, Structural)]
pub struct FlowBaseline {
    pub bytes: u64,
    pub packets: u64,
    pub last_progress_sample_ms: u64,
    pub last_seen_ms: u64,
}

/// A flow rate as last published, and the sample it was published at.
#[derive(Clone, Copy, Debug, Default, Eq, PartialEq, Structural)]
pub struct PublishedRate {
    pub bps: u64,
    pub end_ms: u64,
}

/// The last three raw rates of a flow, in a ring.
#[derive(Clone, Copy, Debug, Default, Eq, PartialEq, Structural)]
pub struct FlowRateHistory {
    pub s0: u64,
    pub s1: u64,
    pub s2: u64,
    pub len: u8,
    pub next: u8,
}

/// The history that no rate has entered yet.
pub open spec fn empty_history() -> FlowRateHistory {
    FlowRateHistory { s0: 0, s1: 0, s2: 0, len: 0, next: 0 }
}

/// The middle one of three values in sorted order.
pub open spec fn median3(a: u64, b: u64, c: u64) -> u64 {
    let lo = if a <= b { a } else { b };
    let hi = if a <= b { b } else { a };
    if c <= lo {
        lo
    } else if c >= hi {
        hi
    } else {
        c
    }
}

/// The median of three is one of them, and no more than one of the others
/// lies on either side of it.
pub proof fn lemma_median3_is_middle(a: u64, b: u64, c: u64)
    ensures
        median3(a, b, c) == a || median3(a, b, c) == b || median3(a, b, c) == c,
        (a <= median3(a, b, c) && b <= median3(a, b, c)) || (a <= median3(a, b, c) && c
            <= median3(a, b, c)) || (b <= median3(a, b, c) && c <= median3(a, b, c)),
        (a >= median3(a, b, c) && b >= median3(a, b, c)) || (a >= median3(a, b, c) && c
            >= median3(a, b, c)) || (b >= median3(a, b, c) && c >= median3(a, b, c)),
{
}

/// The history after `bps` enters it, and the rate it publishes: the raw
/// rate until three rates are held, then the median of the three.
pub open spec fn spec_history_push(h: FlowRateHistory, bps: u64) -> (FlowRateHistory, u64) {
    let i = h.next % 3;
    let s0 = if i == 0 { bps } else { h.s0 };
    let s1 = if i == 1 { bps } else { h.s1 };
    let s2 = if i == 2 { bps } else { h.s2 };
    let len: u8 = if h.len < 3 { (h.len + 1) as u8 } else { h.len };
    let next: u8 = ((i + 1) % 3) as u8;
    let out = FlowRateHistory { s0, s1, s2, len, next };
    (out, if len < 3 { bps } else { median3(s0, s1, s2) })
}

fn median_of_three(a: u64, b: u64, c: u64) -> (r: u64)
    ensures
        r == median3(a, b, c),
{
    let lo = if a <= b { a } else { b };
    let hi = if a <= b { b } else { a };
    if c <= lo {
        lo
    } else if c >= hi {
        hi
    } else {
        c
    }
}

impl FlowRateHistory {
    /// Enters a raw rate and returns the rate to publish.
    pub fn push(&mut self, bps: u64) -> (r: u64)
        ensures
            (*final(self), r) == spec_history_push(*old(self), bps),
    {
        let i = self.next % 3;
        if i == 0 {
            self.s0 = bps;
        } else if i == 1 {
            self.s1 = bps;
        } else {
            self.s2 = bps;
        }
        self.next = (i + 1) % 3;
        if self.len < 3 {
            self.len = self.len + 1;
        }
        if self.len < 3 {
            return bps;
        }
        median_of_three(self.s0, self.s1, self.s2)
    }
}

/// Bits per second of `bytes` over `window_ms`, saturating at `u64::MAX`;
/// zero over an empty window.
pub open spec fn spec_bits_per_second(bytes: u64, window_ms: u64) -> u64 {
    if window_ms == 0 {
        0
    } else if (bytes * 8000) / (window_ms as int) <= u64::MAX {
        ((bytes * 8000) / (window_ms as int)) as u64
    } else {
        u64::MAX
    }
}

pub fn bits_per_second(bytes: u64, window_ms: u64) -> (r: u64)
    ensures
        r == spec_bits_per_second(bytes, window_ms),
{
    if window_ms == 0 {
        return 0;
    }
    assert(bytes * 8000 <= u128::MAX) by (nonlinear_arith)
        requires
            bytes <= u64::MAX,
    ;
    let scaled: u128 = (bytes as u128) * 8000 / (window_ms as u128);
    if scaled <= u64::MAX as u128 {
        scaled as u64
    } else {
        u64::MAX
    }
}

/// The byte count with a four-byte frame check sequence per packet, both
/// saturating.
pub open spec fn wire_bytes(bytes: u64, packets: u64) -> u64 {
    let fcs: u64 = if packets > u64::MAX / 4 { u64::MAX } else { (packets * 4) as u64 };
    bytes.saturating_add(fcs)
}

fn wire_bytes_of(bytes: u64, packets: u64) -> (r: u64)
    ensures
        r == wire_bytes(bytes, packets),
{
    let fcs: u64 = if packets > u64::MAX / 4 { u64::MAX } else { packets * 4 };
    bytes.saturating_add(fcs)
}

/// When the kernel last saw a flow, in milliseconds and never after `now_ms`.
pub open spec fn event_ms(c: EcmCounters, now_ms: u64) -> u64 {
    let ms = c.last_seen / 1_000_000;
    if ms <= now_ms {
        ms
    } else {
        now_ms
    }
}

// ---------------------------------------------------------------------------
// Lists keyed by flow
// ---------------------------------------------------------------------------

/// `i` is the first position that holds key `k`.
pub open spec fn is_first_key<K, V>(s: Seq<(K, V)>, k: K, i: int) -> bool {
    &&& 0 <= i < s.len()
    &&& s[i].0 == k
    &&& forall|j: int| 0 <= j < i ==> s[j].0 != k
}

/// The first position that holds key `k`, or -1.
pub open spec fn key_index<K, V>(s: Seq<(K, V)>, k: K) -> int {
    if exists|i: int| is_first_key(s, k, i) {
        choose|i: int| is_first_key(s, k, i)
    } else {
        -1
    }
}

/// The value held for key `k`, if any.
pub open spec fn key_get<K, V>(s: Seq<(K, V)>, k: K) -> Option<V> {
    let i = key_index(s, k);
    if i >= 0 {
        Some(s[i].1)
    } else {
        None
    }
}

/// Key `k` set to `v`: in place where it is, else appended.
pub open spec fn key_put<K, V>(s: Seq<(K, V)>, k: K, v: V) -> Seq<(K, V)> {
    let i = key_index(s, k);
    if i >= 0 {
        s.update(i, (k, v))
    } else {
        s.push((k, v))
    }
}

/// The entries of every key but `k`, in order.
pub open spec fn without_key<K, V>(s: Seq<(K, V)>, k: K) -> Seq<(K, V)>
    decreases s.len(),
{
    if s.len() == 0 {
        s
    } else {
        let r = without_key(s.drop_last(), k);
        if s.last().0 != k {
            r.push(s.last())
        } else {
            r
        }
    }
}

pub proof fn lemma_key_index_found<K, V>(s: Seq<(K, V)>, k: K, i: int)
    requires
        is_first_key(s, k, i),
    ensures
        key_index(s, k) == i,
{
    let c = choose|c: int| is_first_key(s, k, c);
    assert(is_first_key(s, k, c));
    if c < i {
        assert(s[c].0 != k);
    } else if c > i {
        assert(s[i].0 != k);
    }
}

pub proof fn lemma_key_index_absent<K, V>(s: Seq<(K, V)>, k: K)
    requires
        forall|j: int| 0 <= j < s.len() ==> s[j].0 != k,
    ensures
        key_index(s, k) == -1,
{
}

fn find_key<V: Copy>(v: &Vec<(FlowKey, V)>, k: FlowKey) -> (r: Option<usize>)
    ensures
        match r {
            Some(i) => i as int == key_index(v@, k) && i < v@.len(),
            None => key_index(v@, k) == -1,
        },
{
    let mut i: usize = 0;
    while i < v.len()
        invariant
            i <= v@.len(),
            forall|j: int| 0 <= j < i ==> v@[j].0 != k,
        decreases v@.len() - i,
    {
        if v[i].0 == k {
            proof {
                lemma_key_index_found(v@, k, i as int);
            }
            return Some(i);
        }
        i += 1;
    }
    proof {
        lemma_key_index_absent(v@, k);
    }
    None
}

fn get_key<V: Copy>(v: &Vec<(FlowKey, V)>, k: FlowKey) -> (r: Option<V>)
    ensures
        r == key_get(v@, k),
{
    match find_key(v, k) {
        Some(i) => Some(v[i].1),
        None => None,
    }
}

fn put_key<V: Copy>(v: &mut Vec<(FlowKey, V)>, k: FlowKey, value: V)
    ensures
        final(v)@ == key_put(old(v)@, k, value),
{
    match find_key(v, k) {
        Some(i) => {
            v.set(i, (k, value));
        },
        None => {
            v.push((k, value));
        },
    }
}

fn drop_key<V: Copy>(v: &mut Vec<(FlowKey, V)>, k: FlowKey)
    ensures
        final(v)@ == without_key(old(v)@, k),
{
    let ghost s = v@;
    let mut out: Vec<(FlowKey, V)> = Vec::new();
    let mut i: usize = 0;
    while i < v.len()
        invariant
            s == v@,
            i <= s.len(),
            out@ == without_key(s.take(i as int), k),
        decreases s.len() - i,
    {
        let e = v[i];
        assert(s.take(i + 1).drop_last() =~= s.take(i as int));
        assert(s.take(i + 1).last() == e);
        if e.0 != k {
            out.push(e);
        }
        i += 1;
    }
    assert(s.take(s.len() as int) =~= s);
    *v = out;
}

// ---------------------------------------------------------------------------
// The flows of one map read
// ---------------------------------------------------------------------------

/// The clients with MAC `mac`, in table order.
pub open spec fn mac_hits(cs: Seq<ClientIdentityView>, mac: Seq<u8>) -> Seq<ClientIdentityView>
    decreases cs.len(),
{
    if cs.len() == 0 {
        cs
    } else {
        let r = mac_hits(cs.drop_last(), mac);
        if cs.last().mac == mac {
            r.push(cs.last())
        } else {
            r
        }
    }
}

/// The key text of the one client with MAC `mac`; none when no client or
/// more than one has it.
pub open spec fn unique_identity(cs: Seq<ClientIdentityView>, mac: Seq<u8>) -> Option<Seq<char>> {
    let h = mac_hits(cs, mac);
    if h.len() == 1 {
        Some(identity_text(h[0].mac, h[0].zone))
    } else {
        None
    }
}

/// The clients of a list, each by its view.
pub open spec fn clients_view(v: Seq<ClientIdentity>) -> Seq<ClientIdentityView> {
    v.map_values(|c: ClientIdentity| c@)
}

fn same_mac(c: &ClientIdentity, mac: &[u8; 6]) -> (r: bool)
    ensures
        r == (c@.mac == mac@),
{
    let o = c.key.mac.octets();
    let r = o[0] == mac[0] && o[1] == mac[1] && o[2] == mac[2] && o[3] == mac[3] && o[4] == mac[4]
        && o[5] == mac[5];
    proof {
        if r {
            assert(o@ =~= mac@);
        }
    }
    r
}

fn unique_identity_for_mac(clients: &Vec<ClientIdentity>, mac: &[u8; 6]) -> (r: Option<String>)
    ensures
        opt_text_of(r) == unique_identity(clients_view(clients@), mac@),
{
    let ghost cs = clients_view(clients@);
    let mut count: usize = 0;
    let mut first: usize = 0;
    let mut i: usize = 0;
    while i < clients.len()
        invariant
            cs == clients_view(clients@),
            i <= clients@.len(),
            count as int == mac_hits(cs.take(i as int), mac@).len(),
            count <= i,
            count > 0 ==> first < i && mac_hits(cs.take(i as int), mac@)[0] == cs[first as int],
        decreases clients@.len() - i,
    {
        assert(cs.take(i + 1).drop_last() =~= cs.take(i as int));
        assert(cs.take(i + 1).last() == cs[i as int]);
        if same_mac(&clients[i], mac) {
            if count == 0 {
                first = i;
            }
            count += 1;
        }
        i += 1;
    }
    assert(cs.take(clients@.len() as int) =~= cs);
    if count == 1 {
        Some(clients[first].key.text())
    } else {
        None
    }
}

/// The text of an optional string.
pub open spec fn opt_text_of(o: Option<String>) -> Option<Seq<char>> {
    match o {
        Some(s) => Some(s@),
        None => None,
    }
}

/// A flow of the current read: its counters and the key of the one client
/// that owns its MAC.
pub struct CurrentFlow {
    pub key: FlowKey,
    pub counters: EcmCounters,
    pub identity: Option<String>,
}

impl View for CurrentFlow {
    type V = (FlowKey, (EcmCounters, Option<Seq<char>>));

    open spec fn view(&self) -> (FlowKey, (EcmCounters, Option<Seq<char>>)) {
        (self.key, (self.counters, opt_text_of(self.identity)))
    }
}

/// The flows of a list, each by its view.
pub open spec fn current_view(v: Seq<CurrentFlow>) -> Seq<(FlowKey, (EcmCounters, Option<Seq<char>>))> {
    v.map_values(|f: CurrentFlow| f@)
}

/// The flows of a read: every transmit or receive entry by flow, a later
/// entry of a flow replacing an earlier one, each with the client that owns
/// its MAC.
pub open spec fn spec_current(entries: Seq<RawEcmSample>, cs: Seq<ClientIdentityView>) -> Seq<
    (FlowKey, (EcmCounters, Option<Seq<char>>)),
>
    decreases entries.len(),
{
    if entries.len() == 0 {
        Seq::empty()
    } else {
        let r = spec_current(entries.drop_last(), cs);
        let e = entries.last();
        if e.key.direction != DIR_TX && e.key.direction != DIR_RX {
            r
        } else {
            key_put(r, spec_flow_key(e.key), (e.counters, unique_identity(cs, e.key.mac@)))
        }
    }
}

fn find_current(v: &Vec<CurrentFlow>, k: FlowKey) -> (r: Option<usize>)
    ensures
        match r {
            Some(i) => i as int == key_index(current_view(v@), k) && i < v@.len(),
            None => key_index(current_view(v@), k) == -1,
        },
{
    let ghost s = current_view(v@);
    let mut i: usize = 0;
    while i < v.len()
        invariant
            s == current_view(v@),
            i <= v@.len(),
            forall|j: int| 0 <= j < i ==> s[j].0 != k,
        decreases v@.len() - i,
    {
        if v[i].key == k {
            proof {
                lemma_key_index_found(s, k, i as int);
            }
            return Some(i);
        }
        i += 1;
    }
    proof {
        lemma_key_index_absent(s, k);
    }
    None
}

fn current_flows(entries: &Vec<RawEcmSample>, clients: &Vec<ClientIdentity>) -> (r: Vec<CurrentFlow>)
    ensures
        current_view(r@) == spec_current(entries@, clients_view(clients@)),
{
    let ghost cs = clients_view(clients@);
    let mut out: Vec<CurrentFlow> = Vec::new();
    let mut i: usize = 0;
    while i < entries.len()
        invariant
            cs == clients_view(clients@),
            i <= entries@.len(),
            current_view(out@) == spec_current(entries@.take(i as int), cs),
        decreases entries@.len() - i,
    {
        let e = entries[i];
        assert(entries@.take(i + 1).drop_last() =~= entries@.take(i as int));
        assert(entries@.take(i + 1).last() == e);
        if e.key.direction == DIR_TX || e.key.direction == DIR_RX {
            let key = flow_key(&e.key);
            let identity = unique_identity_for_mac(clients, &e.key.mac);
            let flow = CurrentFlow { key, counters: e.counters, identity };
            let ghost before = current_view(out@);
            match find_current(&out, key) {
                Some(j) => {
                    out.set(j, flow);
                    assert(current_view(out@) =~= before.update(j as int, flow@));
                },
                None => {
                    out.push(flow);
                    assert(current_view(out@) =~= before.push(flow@));
                },
            }
        }
        i += 1;
    }
    assert(entries@.take(entries@.len() as int) =~= entries@);
    out
}

// ---------------------------------------------------------------------------
// One flow of a read
// ---------------------------------------------------------------------------

/// What reading the flows changes: the baselines, published rates and rate
/// histories by flow, and the coverage counted so far.
pub struct EcmState {
    pub baselines: Seq<(FlowKey, FlowBaseline)>,
    pub published: Seq<(FlowKey, PublishedRate)>,
    pub histories: Seq<(FlowKey, FlowRateHistory)>,
    pub coverage: TrafficCounters,
}

/// Coverage with a flow's progress added to its direction, saturating.
pub open spec fn add_coverage(c: TrafficCounters, tx: bool, bytes: u64, packets: u64) -> TrafficCounters {
    if tx {
        TrafficCounters {
            tx_bytes: c.tx_bytes.saturating_add(bytes),
            tx_packets: c.tx_packets.saturating_add(packets),
            ..c
        }
    } else {
        TrafficCounters {
            rx_bytes: c.rx_bytes.saturating_add(bytes),
            rx_packets: c.rx_packets.saturating_add(packets),
            ..c
        }
    }
}

/// A flow's progress in bytes and packets since its baseline, and the sample
/// its window starts at. A flow whose counters went back has none; so has a
/// flow first seen in the first read, whose counters started at an unknown
/// time. A flow first seen later started after the previous read.
pub open spec fn flow_delta(previous: Option<FlowBaseline>, c: EcmCounters, previous_sample_ms: Option<u64>) -> Option<(u64, u64, u64)> {
    match previous {
        Some(p) => if c.bytes >= p.bytes && c.packets >= p.packets {
            Some(((c.bytes - p.bytes) as u64, (c.packets - p.packets) as u64, p.last_progress_sample_ms))
        } else {
            None
        },
        None => match previous_sample_ms {
            Some(s) => Some((c.bytes, c.packets, s)),
            None => None,
        },
    }
}

/// The state after one flow of a read. A flow whose counters went back loses
/// its rate; an owned flow that progressed adds to the coverage and, over a
/// non-empty window, publishes the median-filtered rate of its wire bytes;
/// a flow no single client owns publishes nothing. The baseline always takes
/// the new counters.
pub open spec fn spec_flow_step(st: EcmState, key: FlowKey, c: EcmCounters, owned: bool, now_ms: u64, previous_sample_ms: Option<u64>) -> EcmState {
    let previous = key_get(st.baselines, key);
    let regressed = match previous {
        Some(p) => !(c.bytes >= p.bytes && c.packets >= p.packets),
        None => false,
    };
    let published1 = if regressed { without_key(st.published, key) } else { st.published };
    let histories1 = if regressed { without_key(st.histories, key) } else { st.histories };
    let delta = flow_delta(previous, c, previous_sample_ms);
    let d = delta.unwrap();
    let counts = delta is Some && (d.0 != 0 || d.1 != 0) && owned;
    let coverage = if counts { add_coverage(st.coverage, key.direction == DIR_TX, d.0, d.1) } else { st.coverage };
    let window = now_ms.saturating_sub(d.2);
    let history = match key_get(histories1, key) {
        Some(h) => h,
        None => empty_history(),
    };
    let pushed = spec_history_push(history, spec_bits_per_second(wire_bytes(d.0, d.1), window));
    let publishes = counts && window != 0;
    let published2 = if publishes { key_put(published1, key, PublishedRate { bps: pushed.1, end_ms: now_ms }) } else { published1 };
    let histories2 = if publishes { key_put(histories1, key, pushed.0) } else { histories1 };
    let progressed = match previous {
        Some(v) => v.bytes != c.bytes || v.packets != c.packets,
        None => true,
    };
    let baseline = FlowBaseline {
        bytes: c.bytes,
        packets: c.packets,
        last_progress_sample_ms: if progressed { now_ms } else { previous.unwrap().last_progress_sample_ms },
        last_seen_ms: event_ms(c, now_ms),
    };
    EcmState {
        baselines: key_put(st.baselines, key, baseline),
        published: if owned { published2 } else { without_key(published2, key) },
        histories: if owned { histories2 } else { without_key(histories2, key) },
        coverage,
    }
}

fn add_coverage_of(c: TrafficCounters, tx: bool, bytes: u64, packets: u64) -> (r: TrafficCounters)
    ensures
        r == add_coverage(c, tx, bytes, packets),
{
    if tx {
        TrafficCounters {
            tx_bytes: c.tx_bytes.saturating_add(bytes),
            tx_packets: c.tx_packets.saturating_add(packets),
            ..c
        }
    } else {
        TrafficCounters {
            rx_bytes: c.rx_bytes.saturating_add(bytes),
            rx_packets: c.rx_packets.saturating_add(packets),
            ..c
        }
    }
}

fn flow_step(
    baselines: &mut Vec<(FlowKey, FlowBaseline)>,
    published: &mut Vec<(FlowKey, PublishedRate)>,
    histories: &mut Vec<(FlowKey, FlowRateHistory)>,
    coverage: &mut TrafficCounters,
    key: FlowKey,
    c: EcmCounters,
    owned: bool,
    now_ms: u64,
    previous_sample_ms: Option<u64>,
)
    ensures
        ({
            let st = spec_flow_step(
                EcmState {
                    baselines: old(baselines)@,
                    published: old(published)@,
                    histories: old(histories)@,
                    coverage: *old(coverage),
                },
                key,
                c,
                owned,
                now_ms,
                previous_sample_ms,
            );
            &&& final(baselines)@ == st.baselines
            &&& final(published)@ == st.published
            &&& final(histories)@ == st.histories
            &&& *final(coverage) == st.coverage
        }),
{
    let previous = get_key(baselines, key);
    let mut delta: Option<(u64, u64, u64)> = None;
    match previous {
        Some(p) => {
            if c.bytes >= p.bytes && c.packets >= p.packets {
                delta = Some((c.bytes - p.bytes, c.packets - p.packets, p.last_progress_sample_ms));
            } else {
                drop_key(published, key);
                drop_key(histories, key);
            }
        },
        None => {
            if let Some(sample_ms) = previous_sample_ms {
                delta = Some((c.bytes, c.packets, sample_ms));
            }
        },
    }
    assert(delta == flow_delta(previous, c, previous_sample_ms));
    if let Some((delta_bytes, delta_packets, start_ms)) = delta {
        if (delta_bytes != 0 || delta_packets != 0) && owned {
            *coverage = add_coverage_of(*coverage, key.direction == DIR_TX, delta_bytes, delta_packets);
            let window_ms = now_ms.saturating_sub(start_ms);
            if window_ms != 0 {
                let raw_bps = bits_per_second(wire_bytes_of(delta_bytes, delta_packets), window_ms);
                let mut history = match get_key(histories, key) {
                    Some(h) => h,
                    None => FlowRateHistory { s0: 0, s1: 0, s2: 0, len: 0, next: 0 },
                };
                let bps = history.push(raw_bps);
                put_key(published, key, PublishedRate { bps, end_ms: now_ms });
                put_key(histories, key, history);
            }
        }
    }
    if !owned {
        drop_key(published, key);
        drop_key(histories, key);
    }
    let progressed = match previous {
        Some(v) => v.bytes != c.bytes || v.packets != c.packets,
        None => true,
    };
    let last_progress_sample_ms = if progressed {
        now_ms
    } else {
        match previous {
            Some(v) => v.last_progress_sample_ms,
            None => now_ms,
        }
    };
    let seen_ms = c.last_seen / 1_000_000;
    let last_seen_ms = if seen_ms <= now_ms { seen_ms } else { now_ms };
    put_key(
        baselines,
        key,
        FlowBaseline { bytes: c.bytes, packets: c.packets, last_progress_sample_ms, last_seen_ms },
    );
}

// ---------------------------------------------------------------------------
// Folding flows into clients
// ---------------------------------------------------------------------------

/// The wire bytes, rates and last sighting of one client's flows.
#[derive(Clone, Copy, Debug, Default, Eq, PartialEq, Structural)]
pub struct FoldedClient {
    pub tx_bytes: u64,
    pub rx_bytes: u64,
    pub tx_bps: u64,
    pub rx_bps: u64,
    pub last_seen_ms: u64,
}

/// A client before any flow is folded into it.
pub open spec fn empty_folded() -> FoldedClient {
    FoldedClient { tx_bytes: 0, rx_bytes: 0, tx_bps: 0, rx_bps: 0, last_seen_ms: 0 }
}

/// A client with one more flow folded in: its wire bytes and published rate
/// added to the flow's direction, saturating, and the later sighting kept.
pub open spec fn fold_flow(f: FoldedClient, key: FlowKey, c: EcmCounters, rate: u64, now_ms: u64) -> FoldedClient {
    let total = wire_bytes(c.bytes, c.packets);
    let seen = event_ms(c, now_ms);
    let last = if f.last_seen_ms >= seen { f.last_seen_ms } else { seen };
    if key.direction == DIR_TX {
        FoldedClient {
            tx_bytes: f.tx_bytes.saturating_add(total),
            tx_bps: f.tx_bps.saturating_add(rate),
            last_seen_ms: last,
            ..f
        }
    } else {
        FoldedClient {
            rx_bytes: f.rx_bytes.saturating_add(total),
            rx_bps: f.rx_bps.saturating_add(rate),
            last_seen_ms: last,
            ..f
        }
    }
}

/// The rate a flow publishes, zero when it has none.
pub open spec fn published_bps(published: Seq<(FlowKey, PublishedRate)>, key: FlowKey) -> u64 {
    match key_get(published, key) {
        Some(p) => p.bps,
        None => 0,
    }
}

/// The owned flows folded by client key, in key order.
pub open spec fn spec_fold(cur: Seq<(FlowKey, (EcmCounters, Option<Seq<char>>))>, published: Seq<(FlowKey, PublishedRate)>, now_ms: u64) -> Seq<NamedView<FoldedClient>>
    decreases cur.len(),
{
    if cur.len() == 0 {
        Seq::empty()
    } else {
        let r = spec_fold(cur.drop_last(), published, now_ms);
        let e = cur.last();
        match e.1.1 {
            Some(id) => {
                let f = match name_lookup(r, id) {
                    Some(f) => f,
                    None => empty_folded(),
                };
                name_sorted_upsert(r, id, fold_flow(f, e.0, e.1.0, published_bps(published, e.0), now_ms))
            },
            None => r,
        }
    }
}

/// How many flows a single client owns.
pub open spec fn owned_count(cur: Seq<(FlowKey, (EcmCounters, Option<Seq<char>>))>) -> nat
    decreases cur.len(),
{
    if cur.len() == 0 {
        0
    } else {
        owned_count(cur.drop_last()) + if cur.last().1.1 is Some { 1nat } else { 0nat }
    }
}

/// The baselines a read keeps: those of flows in the read, and those of
/// flows the kernel saw within the retention time.
pub open spec fn retained_baselines(b: Seq<(FlowKey, FlowBaseline)>, cur: Seq<(FlowKey, (EcmCounters, Option<Seq<char>>))>, now_ms: u64) -> Seq<(FlowKey, FlowBaseline)>
    decreases b.len(),
{
    if b.len() == 0 {
        b
    } else {
        let r = retained_baselines(b.drop_last(), cur, now_ms);
        let e = b.last();
        if key_index(cur, e.0) >= 0 || now_ms.saturating_sub(e.1.last_seen_ms) <= FLOW_RETENTION_MS {
            r.push(e)
        } else {
            r
        }
    }
}

/// The published rates a read keeps: those of flows with a baseline that
/// are no older than the hold time.
pub open spec fn retained_published(p: Seq<(FlowKey, PublishedRate)>, b: Seq<(FlowKey, FlowBaseline)>, now_ms: u64) -> Seq<(FlowKey, PublishedRate)>
    decreases p.len(),
{
    if p.len() == 0 {
        p
    } else {
        let r = retained_published(p.drop_last(), b, now_ms);
        let e = p.last();
        if key_index(b, e.0) >= 0 && now_ms.saturating_sub(e.1.end_ms) <= ECM_RATE_HOLD_MS {
            r.push(e)
        } else {
            r
        }
    }
}

/// The rate histories a read keeps: those of flows with a baseline.
pub open spec fn retained_histories(h: Seq<(FlowKey, FlowRateHistory)>, b: Seq<(FlowKey, FlowBaseline)>) -> Seq<(FlowKey, FlowRateHistory)>
    decreases h.len(),
{
    if h.len() == 0 {
        h
    } else {
        let r = retained_histories(h.drop_last(), b);
        let e = h.last();
        if key_index(b, e.0) >= 0 {
            r.push(e)
        } else {
            r
        }
    }
}

/// The state after every flow of a read, in order.
pub open spec fn spec_flow_steps(st: EcmState, cur: Seq<(FlowKey, (EcmCounters, Option<Seq<char>>))>, now_ms: u64, previous_sample_ms: Option<u64>) -> EcmState
    decreases cur.len(),
{
    if cur.len() == 0 {
        st
    } else {
        let e = cur.last();
        spec_flow_step(
            spec_flow_steps(st, cur.drop_last(), now_ms, previous_sample_ms),
            e.0,
            e.1.0,
            e.1.1 is Some,
            now_ms,
            previous_sample_ms,
        )
    }
}

// ---------------------------------------------------------------------------
// Client samples and the snapshot
// ---------------------------------------------------------------------------

/// One client of an ECM snapshot.
#[derive(Clone, Debug, Eq, PartialEq)]
pub struct EcmBpfClientSample {
    pub mac: String,
    pub identity_key: String,
    pub zone: String,
    pub interface: String,
    pub ips: Vec<String>,
    pub tx_bytes: u64,
    pub rx_bytes: u64,
    pub tx_bps: u64,
    pub rx_bps: u64,
    pub sample_ms: u64,
    pub last_seen_ms: u64,
}

/// A client sample with its texts taken by value.
pub struct EcmClientView {
    pub mac: Seq<char>,
    pub identity_key: Seq<char>,
    pub zone: Seq<char>,
    pub interface: Seq<char>,
    pub ips: Seq<Seq<char>>,
    pub tx_bytes: u64,
    pub rx_bytes: u64,
    pub tx_bps: u64,
    pub rx_bps: u64,
    pub sample_ms: u64,
    pub last_seen_ms: u64,
}

impl View for EcmBpfClientSample {
    type V = EcmClientView;

    open spec fn view(&self) -> EcmClientView {
        EcmClientView {
            mac: self.mac@,
            identity_key: self.identity_key@,
            zone: self.zone@,
            interface: self.interface@,
            ips: crate::identity::texts_of(self.ips@),
            tx_bytes: self.tx_bytes,
            rx_bytes: self.rx_bytes,
            tx_bps: self.tx_bps,
            rx_bps: self.rx_bps,
            sample_ms: self.sample_ms,
            last_seen_ms: self.last_seen_ms,
        }
    }
}

/// The first four addresses of a client.
pub open spec fn first_ips(ips: Seq<Seq<char>>) -> Seq<Seq<char>> {
    if ips.len() <= 4 {
        ips
    } else {
        ips.take(4)
    }
}

/// The sample of a client with its folded flows.
pub open spec fn spec_client_sample(c: ClientIdentityView, key: Seq<char>, f: FoldedClient, now_ms: u64) -> EcmClientView {
    EcmClientView {
        mac: mac_text(c.mac),
        identity_key: key,
        zone: c.zone,
        interface: c.interface,
        ips: first_ips(c.ips),
        tx_bytes: f.tx_bytes,
        rx_bytes: f.rx_bytes,
        tx_bps: f.tx_bps,
        rx_bps: f.rx_bps,
        sample_ms: now_ms,
        last_seen_ms: f.last_seen_ms,
    }
}

/// `i` is the first client whose key text is `key`.
pub open spec fn is_first_client(cs: Seq<ClientIdentityView>, key: Seq<char>, i: int) -> bool {
    &&& 0 <= i < cs.len()
    &&& identity_text(cs[i].mac, cs[i].zone) == key
    &&& forall|j: int| 0 <= j < i ==> identity_text(cs[j].mac, cs[j].zone) != key
}

/// The first client whose key text is `key`, or -1.
pub open spec fn client_index(cs: Seq<ClientIdentityView>, key: Seq<char>) -> int {
    if exists|i: int| is_first_client(cs, key, i) {
        choose|i: int| is_first_client(cs, key, i)
    } else {
        -1
    }
}

/// The samples of the folded clients that are in the table, in key order.
pub open spec fn spec_samples(folded: Seq<NamedView<FoldedClient>>, cs: Seq<ClientIdentityView>, now_ms: u64) -> Seq<EcmClientView>
    decreases folded.len(),
{
    if folded.len() == 0 {
        Seq::empty()
    } else {
        let r = spec_samples(folded.drop_last(), cs, now_ms);
        let e = folded.last();
        let i = client_index(cs, e.name);
        if i >= 0 {
            r.push(spec_client_sample(cs[i], e.name, e.value, now_ms))
        } else {
            r
        }
    }
}

/// One complete ECM snapshot.
#[derive(Clone, Debug, Default, Eq, PartialEq)]
pub struct EcmBpfSnapshot {
    pub clients: Vec<EcmBpfClientSample>,
    pub coverage_delta: TrafficCounters,
    pub sample_ms: u64,
    pub map_entries: usize,
    pub matched_entries: usize,
    pub truncated: bool,
}

/// A snapshot with its client samples taken by value.
pub struct EcmSnapshotView {
    pub clients: Seq<EcmClientView>,
    pub coverage_delta: TrafficCounters,
    pub sample_ms: u64,
    pub map_entries: usize,
    pub matched_entries: usize,
    pub truncated: bool,
}

/// The client samples of a list, each by its view.
pub open spec fn samples_view(v: Seq<EcmBpfClientSample>) -> Seq<EcmClientView> {
    v.map_values(|c: EcmBpfClientSample| c@)
}

impl View for EcmBpfSnapshot {
    type V = EcmSnapshotView;

    open spec fn view(&self) -> EcmSnapshotView {
        EcmSnapshotView {
            clients: samples_view(self.clients@),
            coverage_delta: self.coverage_delta,
            sample_ms: self.sample_ms,
            map_entries: self.map_entries,
            matched_entries: self.matched_entries,
            truncated: self.truncated,
        }
    }
}

fn copy_sample(c: &EcmBpfClientSample) -> (r: EcmBpfClientSample)
    ensures
        r@ == c@,
{
    EcmBpfClientSample {
        mac: c.mac.clone(),
        identity_key: c.identity_key.clone(),
        zone: c.zone.clone(),
        interface: c.interface.clone(),
        ips: crate::identity::clone_text_list(&c.ips),
        tx_bytes: c.tx_bytes,
        rx_bytes: c.rx_bytes,
        tx_bps: c.tx_bps,
        rx_bps: c.rx_bps,
        sample_ms: c.sample_ms,
        last_seen_ms: c.last_seen_ms,
    }
}

fn copy_snapshot(s: &EcmBpfSnapshot) -> (r: EcmBpfSnapshot)
    ensures
        r@ == s@,
{
    let mut clients: Vec<EcmBpfClientSample> = Vec::new();
    let mut i: usize = 0;
    while i < s.clients.len()
        invariant
            i <= s.clients@.len(),
            samples_view(clients@) == samples_view(s.clients@).take(i as int),
        decreases s.clients@.len() - i,
    {
        let ghost before = samples_view(clients@);
        clients.push(copy_sample(&s.clients[i]));
        assert(samples_view(clients@) =~= before.push(s.clients@[i as int]@));
        assert(samples_view(s.clients@).take(i + 1) =~= samples_view(s.clients@).take(i as int).push(
            s.clients@[i as int]@,
        ));
        i += 1;
    }
    assert(samples_view(s.clients@).take(i as int) =~= samples_view(s.clients@));
    EcmBpfSnapshot {
        clients,
        coverage_delta: s.coverage_delta,
        sample_ms: s.sample_ms,
        map_entries: s.map_entries,
        matched_entries: s.matched_entries,
        truncated: s.truncated,
    }
}

fn first_four(ips: &Vec<String>) -> (r: Vec<String>)
    ensures
        crate::identity::texts_of(r@) == first_ips(crate::identity::texts_of(ips@)),
{
    let ghost t = crate::identity::texts_of(ips@);
    let mut out: Vec<String> = Vec::new();
    let mut i: usize = 0;
    while i < ips.len() && i < 4
        invariant
            t == crate::identity::texts_of(ips@),
            i <= ips@.len(),
            i <= 4,
            crate::identity::texts_of(out@) == t.take(i as int),
        decreases ips@.len() - i,
    {
        let ghost before = crate::identity::texts_of(out@);
        out.push(ips[i].clone());
        assert(crate::identity::texts_of(out@) =~= before.push(ips@[i as int]@));
        assert(t.take(i + 1) =~= t.take(i as int).push(ips@[i as int]@));
        i += 1;
    }
    if ips.len() <= 4 {
        assert(t.take(i as int) =~= t);
    }
    out
}

fn fold_one(f: FoldedClient, key: FlowKey, c: EcmCounters, rate: u64, now_ms: u64) -> (r: FoldedClient)
    ensures
        r == fold_flow(f, key, c, rate, now_ms),
{
    let total = wire_bytes_of(c.bytes, c.packets);
    let seen_ms = c.last_seen / 1_000_000;
    let seen = if seen_ms <= now_ms { seen_ms } else { now_ms };
    let last = if f.last_seen_ms >= seen { f.last_seen_ms } else { seen };
    if key.direction == DIR_TX {
        FoldedClient {
            tx_bytes: f.tx_bytes.saturating_add(total),
            tx_bps: f.tx_bps.saturating_add(rate),
            last_seen_ms: last,
            ..f
        }
    } else {
        FoldedClient {
            rx_bytes: f.rx_bytes.saturating_add(total),
            rx_bps: f.rx_bps.saturating_add(rate),
            last_seen_ms: last,
            ..f
        }
    }
}

fn fold_clients(current: &Vec<CurrentFlow>, published: &Vec<(FlowKey, PublishedRate)>, now_ms: u64) -> (r: Vec<Named<FoldedClient>>)
    ensures
        names_view(r@) == spec_fold(current_view(current@), published@, now_ms),
{
    let ghost cur = current_view(current@);
    let mut folded: Vec<Named<FoldedClient>> = Vec::new();
    let mut i: usize = 0;
    while i < current.len()
        invariant
            cur == current_view(current@),
            i <= cur.len(),
            names_view(folded@) == spec_fold(cur.take(i as int), published@, now_ms),
        decreases cur.len() - i,
    {
        assert(cur.take(i + 1).drop_last() =~= cur.take(i as int));
        assert(cur.take(i + 1).last() == current@[i as int]@);
        let flow = &current[i];
        match &flow.identity {
            Some(id) => {
                let f = match find_name(&folded, id) {
                    Some(j) => folded[j].value,
                    None => FoldedClient { tx_bytes: 0, rx_bytes: 0, tx_bps: 0, rx_bps: 0, last_seen_ms: 0 },
                };
                let rate = match get_key(published, flow.key) {
                    Some(p) => p.bps,
                    None => 0,
                };
                let next = fold_one(f, flow.key, flow.counters, rate, now_ms);
                sorted_upsert_name(&mut folded, id, next);
            },
            None => {},
        }
        i += 1;
    }
    assert(cur.take(cur.len() as int) =~= cur);
    folded
}

fn count_owned(current: &Vec<CurrentFlow>) -> (r: usize)
    ensures
        r as nat == owned_count(current_view(current@)),
{
    let ghost cur = current_view(current@);
    let mut n: usize = 0;
    let mut i: usize = 0;
    while i < current.len()
        invariant
            cur == current_view(current@),
            i <= cur.len(),
            n as nat == owned_count(cur.take(i as int)),
            n <= i,
        decreases cur.len() - i,
    {
        assert(cur.take(i + 1).drop_last() =~= cur.take(i as int));
        assert(cur.take(i + 1).last() == current@[i as int]@);
        if current[i].identity.is_some() {
            n += 1;
        }
        i += 1;
    }
    assert(cur.take(cur.len() as int) =~= cur);
    n
}

fn find_client_by_key(clients: &Vec<ClientIdentity>, key: &String) -> (r: Option<usize>)
    ensures
        match r {
            Some(i) => i as int == client_index(clients_view(clients@), key@) && i < clients@.len(),
            None => client_index(clients_view(clients@), key@) == -1,
        },
{
    let ghost cs = clients_view(clients@);
    let mut i: usize = 0;
    while i < clients.len()
        invariant
            cs == clients_view(clients@),
            i <= cs.len(),
            forall|j: int| 0 <= j < i ==> identity_text(cs[j].mac, cs[j].zone) != key@,
        decreases cs.len() - i,
    {
        let t = clients[i].key.text();
        if crate::text::str_eq(t.as_str(), key.as_str()) {
            proof {
                let c = choose|c: int| is_first_client(cs, key@, c);
                assert(is_first_client(cs, key@, i as int));
                if c < i {
                    assert(identity_text(cs[c].mac, cs[c].zone) != key@);
                } else if c > i {
                    assert(identity_text(cs[i as int].mac, cs[i as int].zone) == key@);
                }
            }
            return Some(i);
        }
        i += 1;
    }
    None
}

fn client_samples(folded: &Vec<Named<FoldedClient>>, clients: &Vec<ClientIdentity>, now_ms: u64) -> (r: Vec<EcmBpfClientSample>)
    ensures
        samples_view(r@) == spec_samples(names_view(folded@), clients_view(clients@), now_ms),
{
    let ghost fs = names_view(folded@);
    let ghost cs = clients_view(clients@);
    let mut out: Vec<EcmBpfClientSample> = Vec::new();
    let mut i: usize = 0;
    while i < folded.len()
        invariant
            fs == names_view(folded@),
            cs == clients_view(clients@),
            i <= fs.len(),
            samples_view(out@) == spec_samples(fs.take(i as int), cs, now_ms),
        decreases fs.len() - i,
    {
        assert(fs.take(i + 1).drop_last() =~= fs.take(i as int));
        assert(fs.take(i + 1).last() == fs[i as int]);
        let entry = &folded[i];
        match find_client_by_key(clients, &entry.name) {
            Some(j) => {
                let identity = &clients[j];
                let f = entry.value;
                let sample = EcmBpfClientSample {
                    mac: identity.key.mac.text(),
                    identity_key: entry.name.clone(),
                    zone: identity.key.zone.clone(),
                    interface: identity.interface.clone(),
                    ips: first_four(&identity.ips),
                    tx_bytes: f.tx_bytes,
                    rx_bytes: f.rx_bytes,
                    tx_bps: f.tx_bps,
                    rx_bps: f.rx_bps,
                    sample_ms: now_ms,
                    last_seen_ms: f.last_seen_ms,
                };
                let ghost before = samples_view(out@);
                out.push(sample);
                assert(samples_view(out@) =~= before.push(sample@));
            },
            None => {},
        }
        i += 1;
    }
    assert(fs.take(fs.len() as int) =~= fs);
    out
}

// ---------------------------------------------------------------------------
// The collector
// ---------------------------------------------------------------------------

/// Turns reads of the ECM connection map into per-client snapshots, keeping
/// a baseline, a published rate and a rate history per flow.
pub struct EcmBpfSnapshotCollector {
    baselines: Vec<(FlowKey, FlowBaseline)>,
    published: Vec<(FlowKey, PublishedRate)>,
    rate_histories: Vec<(FlowKey, FlowRateHistory)>,
    last_complete: Option<EcmBpfSnapshot>,
}

/// What the collector holds: its per-flow state and the last snapshot.
pub struct EcmCollectorView {
    pub baselines: Seq<(FlowKey, FlowBaseline)>,
    pub published: Seq<(FlowKey, PublishedRate)>,
    pub histories: Seq<(FlowKey, FlowRateHistory)>,
    pub last_complete: Option<EcmSnapshotView>,
}

/// The view of an optional snapshot.
pub open spec fn opt_snapshot(o: Option<EcmBpfSnapshot>) -> Option<EcmSnapshotView> {
    match o {
        Some(s) => Some(s@),
        None => None,
    }
}

impl View for EcmBpfSnapshotCollector {
    type V = EcmCollectorView;

    closed spec fn view(&self) -> EcmCollectorView {
        EcmCollectorView {
            baselines: self.baselines@,
            published: self.published@,
            histories: self.rate_histories@,
            last_complete: opt_snapshot(self.last_complete),
        }
    }
}

/// A collector that has seen no read.
pub open spec fn empty_collector(c: EcmCollectorView) -> bool {
    &&& c.baselines.len() == 0
    &&& c.published.len() == 0
    &&& c.histories.len() == 0
    &&& c.last_complete is None
}

/// The collector and the snapshot after a read of `entries` at `now_ms`:
/// the flows of the read are stepped in order, stale state is dropped, and
/// the owned flows are folded into one sample per client.
pub open spec fn spec_convert(c: EcmCollectorView, entries: Seq<RawEcmSample>, truncated: bool, cs: Seq<ClientIdentityView>, now_ms: u64) -> (EcmCollectorView, EcmSnapshotView) {
    let cur = spec_current(entries, cs);
    let previous_sample_ms = match c.last_complete {
        Some(s) => Some(s.sample_ms),
        None => None,
    };
    let st = spec_flow_steps(
        EcmState {
            baselines: c.baselines,
            published: c.published,
            histories: c.histories,
            coverage: zero_counters(),
        },
        cur,
        now_ms,
        previous_sample_ms,
    );
    let baselines = retained_baselines(st.baselines, cur, now_ms);
    let published = retained_published(st.published, baselines, now_ms);
    let histories = retained_histories(st.histories, baselines);
    let snapshot = EcmSnapshotView {
        clients: spec_samples(spec_fold(cur, published, now_ms), cs, now_ms),
        coverage_delta: st.coverage,
        sample_ms: now_ms,
        map_entries: entries.len() as usize,
        matched_entries: owned_count(cur) as usize,
        truncated,
    };
    (EcmCollectorView { baselines, published, histories, last_complete: Some(snapshot) }, snapshot)
}

fn retain_baselines(b: &Vec<(FlowKey, FlowBaseline)>, current: &Vec<CurrentFlow>, now_ms: u64) -> (r: Vec<(FlowKey, FlowBaseline)>)
    ensures
        r@ == retained_baselines(b@, current_view(current@), now_ms),
{
    let ghost cur = current_view(current@);
    let mut out: Vec<(FlowKey, FlowBaseline)> = Vec::new();
    let mut i: usize = 0;
    while i < b.len()
        invariant
            cur == current_view(current@),
            i <= b@.len(),
            out@ == retained_baselines(b@.take(i as int), cur, now_ms),
        decreases b@.len() - i,
    {
        let e = b[i];
        assert(b@.take(i + 1).drop_last() =~= b@.take(i as int));
        assert(b@.take(i + 1).last() == e);
        if find_current(current, e.0).is_some() || now_ms.saturating_sub(e.1.last_seen_ms) <= FLOW_RETENTION_MS {
            out.push(e);
        }
        i += 1;
    }
    assert(b@.take(b@.len() as int) =~= b@);
    out
}

fn retain_published(p: &Vec<(FlowKey, PublishedRate)>, b: &Vec<(FlowKey, FlowBaseline)>, now_ms: u64) -> (r: Vec<(FlowKey, PublishedRate)>)
    ensures
        r@ == retained_published(p@, b@, now_ms),
{
    let mut out: Vec<(FlowKey, PublishedRate)> = Vec::new();
    let mut i: usize = 0;
    while i < p.len()
        invariant
            i <= p@.len(),
            out@ == retained_published(p@.take(i as int), b@, now_ms),
        decreases p@.len() - i,
    {
        let e = p[i];
        assert(p@.take(i + 1).drop_last() =~= p@.take(i as int));
        assert(p@.take(i + 1).last() == e);
        if find_key(b, e.0).is_some() && now_ms.saturating_sub(e.1.end_ms) <= ECM_RATE_HOLD_MS {
            out.push(e);
        }
        i += 1;
    }
    assert(p@.take(p@.len() as int) =~= p@);
    out
}

fn retain_histories(h: &Vec<(FlowKey, FlowRateHistory)>, b: &Vec<(FlowKey, FlowBaseline)>) -> (r: Vec<(FlowKey, FlowRateHistory)>)
    ensures
        r@ == retained_histories(h@, b@),
{
    let mut out: Vec<(FlowKey, FlowRateHistory)> = Vec::new();
    let mut i: usize = 0;
    while i < h.len()
        invariant
            i <= h@.len(),
            out@ == retained_histories(h@.take(i as int), b@),
        decreases h@.len() - i,
    {
        let e = h[i];
        assert(h@.take(i + 1).drop_last() =~= h@.take(i as int));
        assert(h@.take(i + 1).last() == e);
        if find_key(b, e.0).is_some() {
            out.push(e);
        }
        i += 1;
    }
    assert(h@.take(h@.len() as int) =~= h@);
    out
}

impl Default for EcmBpfSnapshotCollector {
    fn default() -> (r: Self)
        ensures
            empty_collector(r@),
    {
        EcmBpfSnapshotCollector {
            baselines: Vec::new(),
            published: Vec::new(),
            rate_histories: Vec::new(),
            last_complete: None,
        }
    }
}

impl EcmBpfSnapshotCollector {
    /// Forgets every flow and the last snapshot.
    pub fn reset(&mut self)
        ensures
            empty_collector(final(self)@),
    {
        self.baselines = Vec::new();
        self.published = Vec::new();
        self.rate_histories = Vec::new();
        self.last_complete = None;
    }

    /// The last snapshot, if a read has been converted since the last reset.
    pub fn last_complete(&self) -> (r: Option<&EcmBpfSnapshot>)
        ensures
            match r {
                Some(s) => self@.last_complete == Some(s@),
                None => self@.last_complete is None,
            },
    {
        match &self.last_complete {
            Some(s) => Some(s),
            None => None,
        }
    }

    /// Converts one read of the map at `now_ms` into a snapshot of the
    /// clients that own its flows.
    pub fn convert(&mut self, read: EcmMapRead, identities: &IdentityTable, now_ms: u64) -> (r: EcmBpfSnapshot)
        ensures
            final(self)@ == spec_convert(old(self)@, read.entries@, read.truncated, identities@.clients, now_ms).0,
            r@ == spec_convert(old(self)@, read.entries@, read.truncated, identities@.clients, now_ms).1,
    {
        let clients = identities.clients();
        let ghost cs = clients_view(clients@);
        assert(cs =~= identities@.clients);
        let previous_sample_ms = match &self.last_complete {
            Some(s) => Some(s.sample_ms),
            None => None,
        };
        let current = current_flows(&read.entries, clients);
        let ghost cur = current_view(current@);
        let ghost init = EcmState {
            baselines: self.baselines@,
            published: self.published@,
            histories: self.rate_histories@,
            coverage: zero_counters(),
        };
        let mut coverage = TrafficCounters { tx_bytes: 0, rx_bytes: 0, tx_packets: 0, rx_packets: 0 };
        let mut i: usize = 0;
        while i < current.len()
            invariant
                cur == current_view(current@),
                i <= cur.len(),
                ({
                    let st = spec_flow_steps(init, cur.take(i as int), now_ms, previous_sample_ms);
                    &&& self.baselines@ == st.baselines
                    &&& self.published@ == st.published
                    &&& self.rate_histories@ == st.histories
                    &&& coverage == st.coverage
                }),
            decreases cur.len() - i,
        {
            assert(cur.take(i + 1).drop_last() =~= cur.take(i as int));
            assert(cur.take(i + 1).last() == current@[i as int]@);
            let flow = &current[i];
            flow_step(
                &mut self.baselines,
                &mut self.published,
                &mut self.rate_histories,
                &mut coverage,
                flow.key,
                flow.counters,
                flow.identity.is_some(),
                now_ms,
                previous_sample_ms,
            );
            i += 1;
        }
        assert(cur.take(cur.len() as int) =~= cur);
        let baselines = retain_baselines(&self.baselines, &current, now_ms);
        let published = retain_published(&self.published, &baselines, now_ms);
        let histories = retain_histories(&self.rate_histories, &baselines);
        self.baselines = baselines;
        self.published = published;
        self.rate_histories = histories;
        let folded = fold_clients(&current, &self.published, now_ms);
        let samples = client_samples(&folded, clients, now_ms);
        let matched_entries = count_owned(&current);
        let snapshot = EcmBpfSnapshot {
            clients: samples,
            coverage_delta: coverage,
            sample_ms: now_ms,
            map_entries: read.entries.len(),
            matched_entries,
            truncated: read.truncated,
        };
        self.last_complete = Some(copy_snapshot(&snapshot));
        snapshot
    }
}

} // verus!
