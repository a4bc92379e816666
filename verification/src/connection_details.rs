use vstd::prelude::*;
use crate::collectors::bpf::ecm::{
    bits_per_second, empty_history, key_get, key_index, key_put, lemma_key_index_absent,
    lemma_key_index_found, spec_bits_per_second, spec_history_push, FlowRateHistory,
};
use crate::collectors::conntrack::address::ip_text;
use crate::collectors::conntrack::{FlowSample, IpAddress, Protocol, TcpState};
use crate::identity::{ip_owner_index, ClientIdentity, ClientIdentityView, IdentityTable};
use crate::keyed::{
    find_insert_pos, find_name, insert_pos, lemma_same_names, name_index, name_lookup,
    name_sorted_upsert, names_view, Named, NamedView,
};

verus! {

/// At most this many connection details are kept over all clients.
pub const MAX_STORED_CONNECTION_DETAILS: usize = 16_384;

/// At most this many connection details are kept for one client.
pub const MAX_CLIENT_CONNECTION_DETAILS: usize = 2_048;

/// Who a client is, for a connection listing.
#[derive(Clone, Debug, Eq, PartialEq)]
pub struct ClientConnectionSummary {
    pub identity_key: String,
    pub hostname: Option<String>,
    pub mac: String,
    pub ips: Vec<String>,
    pub interface: String,
    pub zone: String,
}

/// The transport protocols a connection listing shows.
#[derive(Clone, Copy, Debug, Eq, Ord, PartialEq, PartialOrd, Structural)]
pub enum ConnectionProtocol {
    Tcp,
    Udp,
}

/// The protocol of a flow in the rate ledger: every IP protocol is counted,
/// not only TCP and UDP.
#[derive(Clone, Copy, Debug, Eq, Ord, PartialEq, PartialOrd, Structural)]
pub enum RateProtocol {
    Tcp,
    Udp,
    Other(u8),
}

/// The ledger protocol of a listed protocol.
pub open spec fn spec_rate_protocol_of(p: ConnectionProtocol) -> RateProtocol {
    match p {
        ConnectionProtocol::Tcp => RateProtocol::Tcp,
        ConnectionProtocol::Udp => RateProtocol::Udp,
    }
}

/// The ledger protocol of a conntrack protocol.
pub open spec fn spec_rate_protocol(p: Protocol) -> RateProtocol {
    match p {
        Protocol::Tcp => RateProtocol::Tcp,
        Protocol::Udp => RateProtocol::Udp,
        Protocol::Other(n) => RateProtocol::Other(n),
    }
}

impl From<ConnectionProtocol> for RateProtocol {
    fn from(protocol: ConnectionProtocol) -> (r: Self) {
        match protocol {
            ConnectionProtocol::Tcp => RateProtocol::Tcp,
            ConnectionProtocol::Udp => RateProtocol::Udp,
        }
    }
}

impl vstd::std_specs::convert::FromSpecImpl<ConnectionProtocol> for RateProtocol {
    open spec fn obeys_from_spec() -> bool {
        true
    }

    open spec fn from_spec(protocol: ConnectionProtocol) -> RateProtocol {
        spec_rate_protocol_of(protocol)
    }
}

impl From<Protocol> for RateProtocol {
    fn from(protocol: Protocol) -> (r: Self) {
        match protocol {
            Protocol::Tcp => RateProtocol::Tcp,
            Protocol::Udp => RateProtocol::Udp,
            Protocol::Other(number) => RateProtocol::Other(number),
        }
    }
}

impl vstd::std_specs::convert::FromSpecImpl<Protocol> for RateProtocol {
    open spec fn obeys_from_spec() -> bool {
        true
    }

    open spec fn from_spec(protocol: Protocol) -> RateProtocol {
        spec_rate_protocol(protocol)
    }
}

/// The conntrack state a listed connection was counted in.
#[derive(Clone, Copy, Debug, Eq, PartialEq, Structural)]
pub enum ConnectionState {
    Established,
    Assured,
}

/// Who opened a connection, seen from the client.
#[derive(Clone, Copy, Debug, Eq, Ord, PartialEq, PartialOrd, Structural)]
pub enum ConnectionDirection {
    Outbound,
    Inbound,
}

/// One listed connection of a client, with its current rates.
#[derive(Clone, Copy, Debug, Eq, PartialEq)]
pub struct ClientConnectionDetail {
    pub client_ip: IpAddress,
    pub client_port: u16,
    pub remote_ip: IpAddress,
    pub remote_port: u16,
    pub protocol: ConnectionProtocol,
    pub state: ConnectionState,
    pub direction: ConnectionDirection,
    pub tx_bps: u64,
    pub rx_bps: u64,
}

/// The listed connections of one client: how many there were, those kept,
/// and whether some were left out.
#[derive(Clone, Debug, Default, Eq, PartialEq)]
pub struct ClientConnectionSet {
    pub total_connections: u64,
    pub connections: Vec<ClientConnectionDetail>,
    pub truncated: bool,
}

/// The connection sets by client key, in key order.
pub type ConnectionDetailsSnapshot = Vec<Named<ClientConnectionSet>>;

/// The key of a flow in the rate ledger.
#[derive(Clone, Debug, Eq, PartialEq)]
pub struct ConnectionRateKey {
    pub conntrack_id: Option<u32>,
    pub conntrack_zone: Option<u16>,
    pub identity_key: String,
    pub client_ip: IpAddress,
    pub client_port: u16,
    pub remote_ip: Option<IpAddress>,
    pub remote_port: u16,
    pub protocol: RateProtocol,
    pub direction: ConnectionDirection,
}

/// A ledger key with its client key taken by value.
pub struct RateKeyView {
    pub conntrack_id: Option<u32>,
    pub conntrack_zone: Option<u16>,
    pub identity_key: Seq<char>,
    pub client_ip: IpAddress,
    pub client_port: u16,
    pub remote_ip: Option<IpAddress>,
    pub remote_port: u16,
    pub protocol: RateProtocol,
    pub direction: ConnectionDirection,
}

impl View for ConnectionRateKey {
    type V = RateKeyView;

    open spec fn view(&self) -> RateKeyView {
        RateKeyView {
            conntrack_id: self.conntrack_id,
            conntrack_zone: self.conntrack_zone,
            identity_key: self.identity_key@,
            client_ip: self.client_ip,
            client_port: self.client_port,
            remote_ip: self.remote_ip,
            remote_port: self.remote_port,
            protocol: self.protocol,
            direction: self.direction,
        }
    }
}

/// The ledger key of a listed connection of a client; it carries no
/// conntrack generation.
pub open spec fn detail_key(identity_key: Seq<char>, d: ClientConnectionDetail) -> RateKeyView {
    RateKeyView {
        conntrack_id: None,
        conntrack_zone: None,
        identity_key,
        client_ip: d.client_ip,
        client_port: d.client_port,
        remote_ip: Some(d.remote_ip),
        remote_port: d.remote_port,
        protocol: spec_rate_protocol_of(d.protocol),
        direction: d.direction,
    }
}

/// A ledger key with its conntrack generation dropped.
pub open spec fn spec_without_generation(k: RateKeyView) -> RateKeyView {
    RateKeyView { conntrack_id: None, conntrack_zone: None, ..k }
}

impl ConnectionRateKey {
    pub fn new(identity_key: &str, detail: &ClientConnectionDetail) -> (r: Self)
        ensures
            r@ == detail_key(identity_key@, *detail),
    {
        ConnectionRateKey {
            conntrack_id: None,
            conntrack_zone: None,
            identity_key: identity_key.to_owned(),
            client_ip: detail.client_ip,
            client_port: detail.client_port,
            remote_ip: Some(detail.remote_ip),
            remote_port: detail.remote_port,
            protocol: RateProtocol::from(detail.protocol),
            direction: detail.direction,
        }
    }

    /// An equal key.
    pub fn duplicate(&self) -> (r: Self)
        ensures
            r@ == self@,
    {
        ConnectionRateKey {
            conntrack_id: self.conntrack_id,
            conntrack_zone: self.conntrack_zone,
            identity_key: self.identity_key.clone(),
            client_ip: self.client_ip,
            client_port: self.client_port,
            remote_ip: self.remote_ip,
            remote_port: self.remote_port,
            protocol: self.protocol,
            direction: self.direction,
        }
    }

    fn without_generation(&self) -> (r: Self)
        ensures
            r@ == spec_without_generation(self@),
    {
        ConnectionRateKey {
            conntrack_id: None,
            conntrack_zone: None,
            identity_key: self.identity_key.clone(),
            client_ip: self.client_ip,
            client_port: self.client_port,
            remote_ip: self.remote_ip,
            remote_port: self.remote_port,
            protocol: self.protocol,
            direction: self.direction,
        }
    }
}

/// Bytes a flow has sent and received.
#[derive(Clone, Copy, Debug, Default, Eq, PartialEq, Structural)]
pub struct ConnectionCounters {
    pub tx_bytes: u64,
    pub rx_bytes: u64,
}

/// The counters of every flow of one read, by ledger key.
pub type ConnectionCountersSnapshot = Vec<(ConnectionRateKey, ConnectionCounters)>;

/// The counters of a list of flows, each key by its view.
pub open spec fn counters_view(v: Seq<(ConnectionRateKey, ConnectionCounters)>) -> Seq<(RateKeyView, ConnectionCounters)> {
    v.map_values(|e: (ConnectionRateKey, ConnectionCounters)| (e.0@, e.1))
}

fn octets4_eq(x: &[u8; 4], y: &[u8; 4]) -> (r: bool)
    ensures
        r == (*x == *y),
{
    let mut i: usize = 0;
    while i < 4
        invariant
            i <= 4,
            forall|j: int| 0 <= j < i ==> x[j] == y[j],
        decreases 4 - i,
    {
        if x[i] != y[i] {
            assert(x[i as int] != y[i as int]);
            return false;
        }
        i += 1;
    }
    assert(*x =~= *y);
    true
}

fn octets16_eq(x: &[u8; 16], y: &[u8; 16]) -> (r: bool)
    ensures
        r == (*x == *y),
{
    let mut i: usize = 0;
    while i < 16
        invariant
            i <= 16,
            forall|j: int| 0 <= j < i ==> x[j] == y[j],
        decreases 16 - i,
    {
        if x[i] != y[i] {
            assert(x[i as int] != y[i as int]);
            return false;
        }
        i += 1;
    }
    assert(*x =~= *y);
    true
}

/// Whether two addresses are the same.
pub fn ip_eq(a: &IpAddress, b: &IpAddress) -> (r: bool)
    ensures
        r == (*a == *b),
{
    match (a, b) {
        (IpAddress::V4(x), IpAddress::V4(y)) => octets4_eq(x, y),
        (IpAddress::V6(x), IpAddress::V6(y)) => octets16_eq(x, y),
        _ => false,
    }
}

fn opt_ip_eq(a: &Option<IpAddress>, b: &Option<IpAddress>) -> (r: bool)
    ensures
        r == (*a == *b),
{
    match (a, b) {
        (Some(x), Some(y)) => ip_eq(x, y),
        (None, None) => true,
        _ => false,
    }
}

fn rate_key_eq(a: &ConnectionRateKey, b: &ConnectionRateKey) -> (r: bool)
    ensures
        r == (a@ == b@),
{
    let ids = match (a.conntrack_id, b.conntrack_id) {
        (Some(x), Some(y)) => x == y,
        (None, None) => true,
        _ => false,
    };
    let zones = match (a.conntrack_zone, b.conntrack_zone) {
        (Some(x), Some(y)) => x == y,
        (None, None) => true,
        _ => false,
    };
    ids && zones && crate::text::str_eq(a.identity_key.as_str(), b.identity_key.as_str()) && ip_eq(
        &a.client_ip,
        &b.client_ip,
    ) && a.client_port == b.client_port && opt_ip_eq(&a.remote_ip, &b.remote_ip) && a.remote_port
        == b.remote_port && a.protocol == b.protocol && a.direction == b.direction
}

/// Bits per second of the progress from `previous` to `current` bytes over
/// `delta_ms`; zero when the counter went back or no time passed.
pub open spec fn spec_rate_from_counters(current: u64, previous: u64, delta_ms: u64) -> u64 {
    if current < previous {
        0
    } else {
        spec_bits_per_second((current - previous) as u64, delta_ms)
    }
}

pub fn rate_from_counters(current: u64, previous: u64, delta_ms: u64) -> (r: u64)
    ensures
        r == spec_rate_from_counters(current, previous, delta_ms),
{
    if current < previous {
        return 0;
    }
    bits_per_second(current - previous, delta_ms)
}

// ---------------------------------------------------------------------------
// The rate ledger of listed connections
// ---------------------------------------------------------------------------

/// The entries of a ledger list, each key by its view.
pub open spec fn ledger_view<V>(v: Seq<(ConnectionRateKey, V)>) -> Seq<(RateKeyView, V)> {
    v.map_values(|e: (ConnectionRateKey, V)| (e.0@, e.1))
}

fn find_rate_key<V: Copy>(v: &Vec<(ConnectionRateKey, V)>, k: &ConnectionRateKey) -> (r: Option<usize>)
    ensures
        match r {
            Some(i) => i as int == key_index(ledger_view(v@), k@) && i < v@.len(),
            None => key_index(ledger_view(v@), k@) == -1,
        },
{
    let ghost s = ledger_view(v@);
    let mut i: usize = 0;
    while i < v.len()
        invariant
            s == ledger_view(v@),
            i <= v@.len(),
            forall|j: int| 0 <= j < i ==> s[j].0 != k@,
        decreases v@.len() - i,
    {
        if rate_key_eq(&v[i].0, k) {
            proof {
                lemma_key_index_found(s, k@, i as int);
            }
            return Some(i);
        }
        i += 1;
    }
    proof {
        lemma_key_index_absent(s, k@);
    }
    None
}

fn get_rate<V: Copy>(v: &Vec<(ConnectionRateKey, V)>, k: &ConnectionRateKey) -> (r: Option<V>)
    ensures
        r == key_get(ledger_view(v@), k@),
{
    match find_rate_key(v, k) {
        Some(i) => Some(v[i].1),
        None => None,
    }
}

/// The counters with every flow's generation dropped and the flows that
/// then share a key summed, saturating.
pub open spec fn spec_fold_counters(c: Seq<(RateKeyView, ConnectionCounters)>) -> Seq<(RateKeyView, ConnectionCounters)>
    decreases c.len(),
{
    if c.len() == 0 {
        Seq::empty()
    } else {
        let r = spec_fold_counters(c.drop_last());
        let e = c.last();
        let k = spec_without_generation(e.0);
        let v = match key_get(r, k) {
            Some(v) => v,
            None => ConnectionCounters { tx_bytes: 0, rx_bytes: 0 },
        };
        key_put(
            r,
            k,
            ConnectionCounters {
                tx_bytes: v.tx_bytes.saturating_add(e.1.tx_bytes),
                rx_bytes: v.rx_bytes.saturating_add(e.1.rx_bytes),
            },
        )
    }
}

fn fold_counters(counters: &Vec<(ConnectionRateKey, ConnectionCounters)>) -> (r: Vec<(ConnectionRateKey, ConnectionCounters)>)
    ensures
        ledger_view(r@) == spec_fold_counters(ledger_view(counters@)),
{
    let ghost c = ledger_view(counters@);
    let mut out: Vec<(ConnectionRateKey, ConnectionCounters)> = Vec::new();
    let mut i: usize = 0;
    while i < counters.len()
        invariant
            c == ledger_view(counters@),
            i <= c.len(),
            ledger_view(out@) == spec_fold_counters(c.take(i as int)),
        decreases c.len() - i,
    {
        assert(c.take(i + 1).drop_last() =~= c.take(i as int));
        assert(c.take(i + 1).last() == c[i as int]);
        let key = counters[i].0.without_generation();
        let add = counters[i].1;
        let ghost before = ledger_view(out@);
        match find_rate_key(&out, &key) {
            Some(j) => {
                let v = out[j].1;
                let next = ConnectionCounters {
                    tx_bytes: v.tx_bytes.saturating_add(add.tx_bytes),
                    rx_bytes: v.rx_bytes.saturating_add(add.rx_bytes),
                };
                let ghost kv = key@;
                out.set(j, (key, next));
                assert(ledger_view(out@) =~= before.update(j as int, (kv, next)));
            },
            None => {
                let next = ConnectionCounters { tx_bytes: add.tx_bytes, rx_bytes: add.rx_bytes };
                let ghost kv = key@;
                out.push((key, next));
                assert(ledger_view(out@) =~= before.push((kv, next)));
            },
        }
        i += 1;
    }
    assert(c.take(c.len() as int) =~= c);
    out
}

/// The counters of a flow at one sample.
#[derive(Clone, Copy, Debug, Eq, PartialEq, Structural)]
pub struct ConnectionCounterPoint {
    pub sample_ms: u64,
    pub tx_bytes: u64,
    pub rx_bytes: u64,
}

/// The folded counters as points of one sample.
pub open spec fn spec_points(folded: Seq<(RateKeyView, ConnectionCounters)>, sample_ms: u64) -> Seq<(RateKeyView, ConnectionCounterPoint)> {
    folded.map_values(
        |e: (RateKeyView, ConnectionCounters)|
            (e.0, ConnectionCounterPoint { sample_ms, tx_bytes: e.1.tx_bytes, rx_bytes: e.1.rx_bytes }),
    )
}

fn points_of(folded: &Vec<(ConnectionRateKey, ConnectionCounters)>, sample_ms: u64) -> (r: Vec<(ConnectionRateKey, ConnectionCounterPoint)>)
    ensures
        ledger_view(r@) == spec_points(ledger_view(folded@), sample_ms),
{
    let ghost f = ledger_view(folded@);
    let mut out: Vec<(ConnectionRateKey, ConnectionCounterPoint)> = Vec::new();
    let mut i: usize = 0;
    while i < folded.len()
        invariant
            f == ledger_view(folded@),
            i <= f.len(),
            ledger_view(out@) == spec_points(f, sample_ms).take(i as int),
        decreases f.len() - i,
    {
        let key = folded[i].0.duplicate();
        let c = folded[i].1;
        let ghost before = ledger_view(out@);
        let point = ConnectionCounterPoint { sample_ms, tx_bytes: c.tx_bytes, rx_bytes: c.rx_bytes };
        let ghost kv = key@;
        out.push((key, point));
        assert(ledger_view(out@) =~= before.push((kv, point)));
        assert(spec_points(f, sample_ms).take(i + 1) =~= spec_points(f, sample_ms).take(i as int).push(
            (kv, point),
        ));
        i += 1;
    }
    assert(spec_points(f, sample_ms).take(i as int) =~= spec_points(f, sample_ms));
    out
}

/// A listed connection with both rates zero.
pub open spec fn unrated(d: ClientConnectionDetail) -> ClientConnectionDetail {
    ClientConnectionDetail { tx_bps: 0, rx_bps: 0, ..d }
}

/// A listed connection rated from the points of this sample and of the
/// previous one; zero where either is missing or the clock went back.
pub open spec fn immediate_detail(identity_key: Seq<char>, d: ClientConnectionDetail, current: Seq<(RateKeyView, ConnectionCounterPoint)>, previous: Seq<(RateKeyView, ConnectionCounterPoint)>) -> ClientConnectionDetail {
    let k = detail_key(identity_key, d);
    match (key_get(current, k), key_get(previous, k)) {
        (Some(p), Some(q)) => if p.sample_ms >= q.sample_ms {
            let dt = (p.sample_ms - q.sample_ms) as u64;
            ClientConnectionDetail {
                tx_bps: spec_rate_from_counters(p.tx_bytes, q.tx_bytes, dt),
                rx_bps: spec_rate_from_counters(p.rx_bytes, q.rx_bytes, dt),
                ..d
            }
        } else {
            unrated(d)
        },
        _ => unrated(d),
    }
}

/// `after` is `before` with every listed connection rated as `immediate_detail` says.
pub open spec fn immediate_rated(before: Seq<Named<ClientConnectionSet>>, after: Seq<Named<ClientConnectionSet>>, current: Seq<(RateKeyView, ConnectionCounterPoint)>, previous: Seq<(RateKeyView, ConnectionCounterPoint)>) -> bool {
    &&& after.len() == before.len()
    &&& forall|i: int|
        #![trigger after[i]]
        0 <= i < before.len() ==> {
            &&& after[i].name@ == before[i].name@
            &&& after[i].value.total_connections == before[i].value.total_connections
            &&& after[i].value.truncated == before[i].value.truncated
            &&& after[i].value.connections@.len() == before[i].value.connections@.len()
            &&& forall|j: int|
                0 <= j < before[i].value.connections@.len() ==> #[trigger] after[i].value.connections@[j]
                    == immediate_detail(before[i].name@, before[i].value.connections@[j], current, previous)
        }
}

fn rate_detail_immediate(identity_key: &String, d: ClientConnectionDetail, current: &Vec<(ConnectionRateKey, ConnectionCounterPoint)>, previous: &Vec<(ConnectionRateKey, ConnectionCounterPoint)>) -> (r: ClientConnectionDetail)
    ensures
        r == immediate_detail(identity_key@, d, ledger_view(current@), ledger_view(previous@)),
{
    let key = ConnectionRateKey::new(identity_key.as_str(), &d);
    let mut out = d;
    out.tx_bps = 0;
    out.rx_bps = 0;
    match get_rate(current, &key) {
        Some(p) => match get_rate(previous, &key) {
            Some(q) => {
                if p.sample_ms >= q.sample_ms {
                    let dt = p.sample_ms - q.sample_ms;
                    out.tx_bps = rate_from_counters(p.tx_bytes, q.tx_bytes, dt);
                    out.rx_bps = rate_from_counters(p.rx_bytes, q.rx_bytes, dt);
                }
            },
            None => {},
        },
        None => {},
    }
    out
}

fn rate_set_immediate(identity_key: &String, set: &ClientConnectionSet, current: &Vec<(ConnectionRateKey, ConnectionCounterPoint)>, previous: &Vec<(ConnectionRateKey, ConnectionCounterPoint)>) -> (r: ClientConnectionSet)
    ensures
        r.total_connections == set.total_connections,
        r.truncated == set.truncated,
        r.connections@.len() == set.connections@.len(),
        forall|j: int|
            0 <= j < set.connections@.len() ==> #[trigger] r.connections@[j] == immediate_detail(
                identity_key@,
                set.connections@[j],
                ledger_view(current@),
                ledger_view(previous@),
            ),
{
    let mut connections: Vec<ClientConnectionDetail> = Vec::new();
    let mut j: usize = 0;
    while j < set.connections.len()
        invariant
            j <= set.connections@.len(),
            connections@.len() == j,
            forall|k: int|
                0 <= k < j ==> #[trigger] connections@[k] == immediate_detail(
                    identity_key@,
                    set.connections@[k],
                    ledger_view(current@),
                    ledger_view(previous@),
                ),
        decreases set.connections@.len() - j,
    {
        connections.push(rate_detail_immediate(identity_key, set.connections[j], current, previous));
        j += 1;
    }
    ClientConnectionSet {
        total_connections: set.total_connections,
        connections,
        truncated: set.truncated,
    }
}

fn rate_details_immediate(details: &Vec<Named<ClientConnectionSet>>, current: &Vec<(ConnectionRateKey, ConnectionCounterPoint)>, previous: &Vec<(ConnectionRateKey, ConnectionCounterPoint)>) -> (r: Vec<Named<ClientConnectionSet>>)
    ensures
        immediate_rated(details@, r@, ledger_view(current@), ledger_view(previous@)),
{
    let mut out: Vec<Named<ClientConnectionSet>> = Vec::new();
    let mut i: usize = 0;
    while i < details.len()
        invariant
            i <= details@.len(),
            out@.len() == i,
            forall|k: int|
                #![trigger out@[k]]
                0 <= k < i ==> {
                    &&& out@[k].name@ == details@[k].name@
                    &&& out@[k].value.total_connections == details@[k].value.total_connections
                    &&& out@[k].value.truncated == details@[k].value.truncated
                    &&& out@[k].value.connections@.len() == details@[k].value.connections@.len()
                    &&& forall|j: int|
                        0 <= j < details@[k].value.connections@.len()
                            ==> #[trigger] out@[k].value.connections@[j] == immediate_detail(
                            details@[k].name@,
                            details@[k].value.connections@[j],
                            ledger_view(current@),
                            ledger_view(previous@),
                        )
                },
        decreases details@.len() - i,
    {
        let entry = &details[i];
        let value = rate_set_immediate(&entry.name, &entry.value, current, previous);
        out.push(Named { name: entry.name.clone(), value });
        i += 1;
    }
    out
}

/// The deferred rate of one direction of a flow.
#[derive(Clone, Copy, Debug, Eq, PartialEq, Structural)]
pub struct DeferredCounterRate {
    pub sample_ms: u64,
    pub bytes: u64,
    pub bps: u64,
    pub held_once: bool,
    pub history: FlowRateHistory,
}

/// The deferred rates of both directions of a flow.
#[derive(Clone, Copy, Debug, Eq, PartialEq, Structural)]
pub struct DeferredConnectionRate {
    pub tx: DeferredCounterRate,
    pub rx: DeferredCounterRate,
}

/// A rate anchored at this sample with no rate yet.
pub open spec fn fresh_rate(sample_ms: u64, bytes: u64) -> DeferredCounterRate {
    DeferredCounterRate { sample_ms, bytes, bps: 0, held_once: false, history: empty_history() }
}

/// The deferred rate of one direction after a sample. A counter that did
/// not move holds a non-zero rate once, then rebaselines to zero; a counter
/// that moved forward publishes the median-filtered rate over the time since
/// its last progress; a counter that went back, or a clock that did not move
/// forward, rebaselines.
pub open spec fn spec_deferred_counter_rate(sample_ms: u64, bytes: u64, previous: Option<DeferredCounterRate>) -> DeferredCounterRate {
    match previous {
        None => fresh_rate(sample_ms, bytes),
        Some(p) => if bytes == p.bytes {
            if p.bps > 0 && !p.held_once {
                DeferredCounterRate { held_once: true, ..p }
            } else {
                fresh_rate(sample_ms, bytes)
            }
        } else if sample_ms < p.sample_ms || bytes < p.bytes || sample_ms == p.sample_ms {
            fresh_rate(sample_ms, bytes)
        } else {
            let pushed = spec_history_push(
                p.history,
                spec_rate_from_counters(bytes, p.bytes, (sample_ms - p.sample_ms) as u64),
            );
            DeferredCounterRate { sample_ms, bytes, bps: pushed.1, held_once: false, history: pushed.0 }
        },
    }
}

pub fn deferred_counter_rate(sample_ms: u64, bytes: u64, previous: Option<DeferredCounterRate>) -> (r: DeferredCounterRate)
    ensures
        r == spec_deferred_counter_rate(sample_ms, bytes, previous),
{
    let fresh = DeferredCounterRate {
        sample_ms,
        bytes,
        bps: 0,
        held_once: false,
        history: FlowRateHistory { s0: 0, s1: 0, s2: 0, len: 0, next: 0 },
    };
    let previous = match previous {
        Some(p) => p,
        None => {
            return fresh;
        },
    };
    if bytes == previous.bytes {
        if previous.bps > 0 && !previous.held_once {
            return DeferredCounterRate { held_once: true, ..previous };
        }
        return fresh;
    }
    if sample_ms < previous.sample_ms {
        return fresh;
    }
    let delta_ms = sample_ms - previous.sample_ms;
    if bytes < previous.bytes || delta_ms == 0 {
        return fresh;
    }
    let mut history = previous.history;
    let bps = history.push(rate_from_counters(bytes, previous.bytes, delta_ms));
    DeferredCounterRate { sample_ms, bytes, bps, held_once: false, history }
}

/// The previous rate of one direction of a flow.
pub open spec fn previous_tx(previous: Seq<(RateKeyView, DeferredConnectionRate)>, k: RateKeyView) -> Option<DeferredCounterRate> {
    match key_get(previous, k) {
        Some(v) => Some(v.tx),
        None => None,
    }
}

/// The previous rate of the other direction of a flow.
pub open spec fn previous_rx(previous: Seq<(RateKeyView, DeferredConnectionRate)>, k: RateKeyView) -> Option<DeferredCounterRate> {
    match key_get(previous, k) {
        Some(v) => Some(v.rx),
        None => None,
    }
}

/// The deferred rates of the folded flows at this sample, each direction
/// from its own previous rate.
pub open spec fn spec_deferred_current(folded: Seq<(RateKeyView, ConnectionCounters)>, previous: Seq<(RateKeyView, DeferredConnectionRate)>, sample_ms: u64) -> Seq<(RateKeyView, DeferredConnectionRate)> {
    folded.map_values(
        |e: (RateKeyView, ConnectionCounters)|
            (
                e.0,
                DeferredConnectionRate {
                    tx: spec_deferred_counter_rate(sample_ms, e.1.tx_bytes, previous_tx(previous, e.0)),
                    rx: spec_deferred_counter_rate(sample_ms, e.1.rx_bytes, previous_rx(previous, e.0)),
                },
            ),
    )
}

fn deferred_current(folded: &Vec<(ConnectionRateKey, ConnectionCounters)>, previous: &Vec<(ConnectionRateKey, DeferredConnectionRate)>, sample_ms: u64) -> (r: Vec<(ConnectionRateKey, DeferredConnectionRate)>)
    ensures
        ledger_view(r@) == spec_deferred_current(ledger_view(folded@), ledger_view(previous@), sample_ms),
{
    let ghost f = ledger_view(folded@);
    let ghost want = spec_deferred_current(f, ledger_view(previous@), sample_ms);
    let mut out: Vec<(ConnectionRateKey, DeferredConnectionRate)> = Vec::new();
    let mut i: usize = 0;
    while i < folded.len()
        invariant
            f == ledger_view(folded@),
            want == spec_deferred_current(f, ledger_view(previous@), sample_ms),
            i <= f.len(),
            ledger_view(out@) == want.take(i as int),
        decreases f.len() - i,
    {
        let key = folded[i].0.duplicate();
        let c = folded[i].1;
        let before = get_rate(previous, &key);
        let tx_previous = match before {
            Some(v) => Some(v.tx),
            None => None,
        };
        let rx_previous = match before {
            Some(v) => Some(v.rx),
            None => None,
        };
        let rate = DeferredConnectionRate {
            tx: deferred_counter_rate(sample_ms, c.tx_bytes, tx_previous),
            rx: deferred_counter_rate(sample_ms, c.rx_bytes, rx_previous),
        };
        let ghost prior = ledger_view(out@);
        let ghost kv = key@;
        out.push((key, rate));
        assert(ledger_view(out@) =~= prior.push((kv, rate)));
        assert(want.take(i + 1) =~= want.take(i as int).push((kv, rate)));
        i += 1;
    }
    assert(want.take(i as int) =~= want);
    out
}

/// A listed connection rated from the deferred rates of this sample; zero
/// when its flow has none.
pub open spec fn deferred_detail(identity_key: Seq<char>, d: ClientConnectionDetail, current: Seq<(RateKeyView, DeferredConnectionRate)>) -> ClientConnectionDetail {
    match key_get(current, detail_key(identity_key, d)) {
        Some(rate) => ClientConnectionDetail { tx_bps: rate.tx.bps, rx_bps: rate.rx.bps, ..d },
        None => unrated(d),
    }
}

/// `after` is `before` with every listed connection rated as `deferred_detail` says.
pub open spec fn deferred_rated(before: Seq<Named<ClientConnectionSet>>, after: Seq<Named<ClientConnectionSet>>, current: Seq<(RateKeyView, DeferredConnectionRate)>) -> bool {
    &&& after.len() == before.len()
    &&& forall|i: int|
        #![trigger after[i]]
        0 <= i < before.len() ==> {
            &&& after[i].name@ == before[i].name@
            &&& after[i].value.total_connections == before[i].value.total_connections
            &&& after[i].value.truncated == before[i].value.truncated
            &&& after[i].value.connections@.len() == before[i].value.connections@.len()
            &&& forall|j: int|
                0 <= j < before[i].value.connections@.len() ==> #[trigger] after[i].value.connections@[j]
                    == deferred_detail(before[i].name@, before[i].value.connections@[j], current)
        }
}

fn rate_set_deferred(identity_key: &String, set: &ClientConnectionSet, current: &Vec<(ConnectionRateKey, DeferredConnectionRate)>) -> (r: ClientConnectionSet)
    ensures
        r.total_connections == set.total_connections,
        r.truncated == set.truncated,
        r.connections@.len() == set.connections@.len(),
        forall|j: int|
            0 <= j < set.connections@.len() ==> #[trigger] r.connections@[j] == deferred_detail(
                identity_key@,
                set.connections@[j],
                ledger_view(current@),
            ),
{
    let mut connections: Vec<ClientConnectionDetail> = Vec::new();
    let mut j: usize = 0;
    while j < set.connections.len()
        invariant
            j <= set.connections@.len(),
            connections@.len() == j,
            forall|k: int|
                0 <= k < j ==> #[trigger] connections@[k] == deferred_detail(
                    identity_key@,
                    set.connections@[k],
                    ledger_view(current@),
                ),
        decreases set.connections@.len() - j,
    {
        let d = set.connections[j];
        let key = ConnectionRateKey::new(identity_key.as_str(), &d);
        let mut out = d;
        out.tx_bps = 0;
        out.rx_bps = 0;
        match get_rate(current, &key) {
            Some(rate) => {
                out.tx_bps = rate.tx.bps;
                out.rx_bps = rate.rx.bps;
            },
            None => {},
        }
        connections.push(out);
        j += 1;
    }
    ClientConnectionSet {
        total_connections: set.total_connections,
        connections,
        truncated: set.truncated,
    }
}

fn rate_details_deferred(details: &Vec<Named<ClientConnectionSet>>, current: &Vec<(ConnectionRateKey, DeferredConnectionRate)>) -> (r: Vec<Named<ClientConnectionSet>>)
    ensures
        deferred_rated(details@, r@, ledger_view(current@)),
{
    let mut out: Vec<Named<ClientConnectionSet>> = Vec::new();
    let mut i: usize = 0;
    while i < details.len()
        invariant
            i <= details@.len(),
            out@.len() == i,
            forall|k: int|
                #![trigger out@[k]]
                0 <= k < i ==> {
                    &&& out@[k].name@ == details@[k].name@
                    &&& out@[k].value.total_connections == details@[k].value.total_connections
                    &&& out@[k].value.truncated == details@[k].value.truncated
                    &&& out@[k].value.connections@.len() == details@[k].value.connections@.len()
                    &&& forall|j: int|
                        0 <= j < details@[k].value.connections@.len()
                            ==> #[trigger] out@[k].value.connections@[j] == deferred_detail(
                            details@[k].name@,
                            details@[k].value.connections@[j],
                            ledger_view(current@),
                        )
                },
        decreases details@.len() - i,
    {
        let entry = &details[i];
        let value = rate_set_deferred(&entry.name, &entry.value, current);
        out.push(Named { name: entry.name.clone(), value });
        i += 1;
    }
    out
}

/// Per-connection rates of the listed connections, kept either from one
/// sample to the next or, for counters the kernel synchronises late, from
/// each direction's last progress.
#[derive(Clone, Debug)]
pub struct ConnectionRateBook {
    last_sample_ms: Option<u64>,
    previous: Vec<(ConnectionRateKey, ConnectionCounterPoint)>,
    last_deferred_sample_ms: Option<u64>,
    deferred: Vec<(ConnectionRateKey, DeferredConnectionRate)>,
}

/// What a rate book holds: the sample and points of the immediate mode, and
/// the sample and rates of the deferred mode.
pub struct RateBookView {
    pub last_sample_ms: Option<u64>,
    pub previous: Seq<(RateKeyView, ConnectionCounterPoint)>,
    pub last_deferred_sample_ms: Option<u64>,
    pub deferred: Seq<(RateKeyView, DeferredConnectionRate)>,
}

impl View for ConnectionRateBook {
    type V = RateBookView;

    closed spec fn view(&self) -> RateBookView {
        RateBookView {
            last_sample_ms: self.last_sample_ms,
            previous: ledger_view(self.previous@),
            last_deferred_sample_ms: self.last_deferred_sample_ms,
            deferred: ledger_view(self.deferred@),
        }
    }
}

/// A book that holds nothing.
pub open spec fn empty_book(b: RateBookView) -> bool {
    &&& b.last_sample_ms is None
    &&& b.previous.len() == 0
    &&& b.last_deferred_sample_ms is None
    &&& b.deferred.len() == 0
}

impl Default for ConnectionRateBook {
    fn default() -> (r: Self)
        ensures
            empty_book(r@),
    {
        ConnectionRateBook {
            last_sample_ms: None,
            previous: Vec::new(),
            last_deferred_sample_ms: None,
            deferred: Vec::new(),
        }
    }
}

impl ConnectionRateBook {
    /// Rates every listed connection from this sample and the previous one.
    /// Deferred state is dropped; a repeated sample changes nothing else.
    pub fn update(&mut self, sample_ms: u64, counters: &ConnectionCountersSnapshot, details: &mut ConnectionDetailsSnapshot)
        ensures
            final(self)@.last_deferred_sample_ms is None,
            final(self)@.deferred.len() == 0,
            old(self)@.last_sample_ms == Some(sample_ms) ==> {
                &&& final(self)@.last_sample_ms == old(self)@.last_sample_ms
                &&& final(self)@.previous == old(self)@.previous
                &&& final(details)@ == old(details)@
            },
            old(self)@.last_sample_ms != Some(sample_ms) ==> {
                let current = spec_points(spec_fold_counters(ledger_view(counters@)), sample_ms);
                &&& final(self)@.last_sample_ms == Some(sample_ms)
                &&& final(self)@.previous == current
                &&& immediate_rated(old(details)@, final(details)@, current, old(self)@.previous)
            },
    {
        if self.last_deferred_sample_ms.is_some() || self.deferred.len() != 0 {
            self.last_deferred_sample_ms = None;
            self.deferred = Vec::new();
        }
        if let Some(last) = self.last_sample_ms {
            if last == sample_ms {
                return;
            }
        }
        let folded = fold_counters(counters);
        let current = points_of(&folded, sample_ms);
        let rated = rate_details_immediate(details, &current, &self.previous);
        *details = rated;
        self.previous = current;
        self.last_sample_ms = Some(sample_ms);
    }

    /// Rates every listed connection from each direction's last counter
    /// progress, holding a rate for one sample while a counter waits to be
    /// synchronised. Immediate state is dropped; a repeated sample changes
    /// nothing else.
    pub fn update_deferred(&mut self, sample_ms: u64, counters: &ConnectionCountersSnapshot, details: &mut ConnectionDetailsSnapshot)
        ensures
            final(self)@.last_sample_ms is None,
            final(self)@.previous.len() == 0,
            old(self)@.last_deferred_sample_ms == Some(sample_ms) ==> {
                &&& final(self)@.last_deferred_sample_ms == old(self)@.last_deferred_sample_ms
                &&& final(self)@.deferred == old(self)@.deferred
                &&& final(details)@ == old(details)@
            },
            old(self)@.last_deferred_sample_ms != Some(sample_ms) ==> {
                let current = spec_deferred_current(
                    spec_fold_counters(ledger_view(counters@)),
                    old(self)@.deferred,
                    sample_ms,
                );
                &&& final(self)@.last_deferred_sample_ms == Some(sample_ms)
                &&& final(self)@.deferred == current
                &&& deferred_rated(old(details)@, final(details)@, current)
            },
    {
        if self.last_sample_ms.is_some() || self.previous.len() != 0 {
            self.last_sample_ms = None;
            self.previous = Vec::new();
        }
        if let Some(last) = self.last_deferred_sample_ms {
            if last == sample_ms {
                return;
            }
        }
        let folded = fold_counters(counters);
        let current = deferred_current(&folded, &self.deferred, sample_ms);
        let rated = rate_details_deferred(details, &current);
        *details = rated;
        self.deferred = current;
        self.last_deferred_sample_ms = Some(sample_ms);
    }

    /// Forgets both modes.
    pub fn clear(&mut self)
        ensures
            empty_book(final(self)@),
    {
        self.last_sample_ms = None;
        self.previous = Vec::new();
        self.last_deferred_sample_ms = None;
        self.deferred = Vec::new();
    }

    /// Whether the deferred mode holds any flow rate.
    pub fn has_deferred_rates(&self) -> (r: bool)
        ensures
            r == (self@.deferred.len() > 0),
    {
        self.deferred.len() != 0
    }
}

// ---------------------------------------------------------------------------
// Which client owns a flow
// ---------------------------------------------------------------------------

/// The client's and the remote side's address and port of an owned flow.
#[derive(Clone, Copy, Debug, Eq, PartialEq)]
pub struct OwnedFlowEndpoints {
    pub client_ip: IpAddress,
    pub client_port: u16,
    pub remote_ip: Option<IpAddress>,
    pub remote_port: u16,
}

/// A flow with the client that owns it, the direction it was opened in, and
/// whether the client is on the original source side.
#[derive(Clone, Copy, Debug)]
pub struct OwnedFlow<'a> {
    pub identity: &'a ClientIdentity,
    pub endpoints: OwnedFlowEndpoints,
    pub direction: ConnectionDirection,
    pub source_side: bool,
}

/// Whether a flow runs between two LAN clients, touches none, or belongs to
/// one.
#[derive(Clone, Copy, Debug)]
pub enum FlowOwnership<'a> {
    BothLan,
    NoLan,
    Owned(OwnedFlow<'a>),
}

/// The ownership of a flow, with the owner given by its place in the table.
pub enum OwnershipView {
    BothLan,
    NoLan,
    Owned {
        index: int,
        endpoints: OwnedFlowEndpoints,
        direction: ConnectionDirection,
        source_side: bool,
    },
}

/// The client that lists an address, or -1.
pub open spec fn owner_of(cs: Seq<ClientIdentityView>, a: Option<IpAddress>) -> int {
    match a {
        Some(x) => ip_owner_index(cs, ip_text(x)),
        None => -1,
    }
}

/// Who owns a flow. When both addresses of either tuple are LAN clients the
/// flow is LAN to LAN; otherwise the first of original source, original
/// destination, reply source and reply destination that a client lists
/// decides the owner, its endpoints and the direction.
pub open spec fn spec_ownership(cs: Seq<ClientIdentityView>, f: FlowSample) -> OwnershipView {
    let os = owner_of(cs, f.orig_src);
    let od = owner_of(cs, f.orig_dst);
    let rs = owner_of(cs, f.reply_src);
    let rd = owner_of(cs, f.reply_dst);
    if (os >= 0 && od >= 0) || (rs >= 0 && rd >= 0) {
        OwnershipView::BothLan
    } else if os >= 0 {
        OwnershipView::Owned {
            index: os,
            endpoints: OwnedFlowEndpoints {
                client_ip: f.orig_src.unwrap(),
                client_port: f.orig_sport,
                remote_ip: f.orig_dst,
                remote_port: f.orig_dport,
            },
            direction: ConnectionDirection::Outbound,
            source_side: true,
        }
    } else if od >= 0 {
        OwnershipView::Owned {
            index: od,
            endpoints: OwnedFlowEndpoints {
                client_ip: f.orig_dst.unwrap(),
                client_port: f.orig_dport,
                remote_ip: f.orig_src,
                remote_port: f.orig_sport,
            },
            direction: ConnectionDirection::Inbound,
            source_side: false,
        }
    } else if rs >= 0 {
        OwnershipView::Owned {
            index: rs,
            endpoints: OwnedFlowEndpoints {
                client_ip: f.reply_src.unwrap(),
                client_port: f.reply_sport,
                remote_ip: f.reply_dst,
                remote_port: f.reply_dport,
            },
            direction: ConnectionDirection::Inbound,
            source_side: false,
        }
    } else if rd >= 0 {
        OwnershipView::Owned {
            index: rd,
            endpoints: OwnedFlowEndpoints {
                client_ip: f.reply_dst.unwrap(),
                client_port: f.reply_dport,
                remote_ip: f.reply_src,
                remote_port: f.reply_sport,
            },
            direction: ConnectionDirection::Outbound,
            source_side: true,
        }
    } else {
        OwnershipView::NoLan
    }
}

/// Who owns a flow, by where its owner stands. An owned flow belongs to the
/// client that lists the owned address. The client is on the source side
/// exactly when its address sent the original packet: it is the original
/// source, or, where no original address is a client, the reply's
/// destination (a source-NAT). It is on the destination side when it is the
/// original destination, or, where no original address is a client, the
/// reply's source (a port forward). A flow opened from the source side is
/// outbound, any other inbound; the remote end is the other address of the
/// same tuple.
pub proof fn lemma_ownership_sides(cs: Seq<ClientIdentityView>, f: FlowSample)
    ensures
        spec_ownership(cs, f) matches OwnershipView::Owned { index, endpoints, direction, source_side } ==> {
            let original_lan = owner_of(cs, f.orig_src) >= 0 || owner_of(cs, f.orig_dst) >= 0;
            &&& index == owner_of(cs, Some(endpoints.client_ip))
            &&& (direction == ConnectionDirection::Outbound <==> source_side)
            &&& source_side ==> (f.orig_src == Some(endpoints.client_ip) && endpoints.remote_ip == f.orig_dst)
                || (!original_lan && f.reply_dst == Some(endpoints.client_ip) && endpoints.remote_ip
                == f.reply_src)
            &&& !source_side ==> (f.orig_dst == Some(endpoints.client_ip) && endpoints.remote_ip
                == f.orig_src && owner_of(cs, f.orig_src) < 0) || (!original_lan && f.reply_src == Some(
                endpoints.client_ip,
            ) && endpoints.remote_ip == f.reply_dst)
        },
        owner_of(cs, f.orig_src) < 0 && owner_of(cs, f.orig_dst) < 0 && owner_of(cs, f.reply_src) >= 0
            && owner_of(cs, f.reply_dst) < 0 ==> (spec_ownership(cs, f) matches OwnershipView::Owned {
            index,
            endpoints,
            direction,
            source_side,
        } && index == owner_of(cs, f.reply_src) && Some(endpoints.client_ip) == f.reply_src && direction
            == ConnectionDirection::Inbound && !source_side),
        owner_of(cs, f.orig_src) >= 0 && owner_of(cs, f.orig_dst) < 0 && !(owner_of(cs, f.reply_src)
            >= 0 && owner_of(cs, f.reply_dst) >= 0) ==> (spec_ownership(cs, f) matches OwnershipView::Owned {
            index,
            direction,
            source_side,
            ..
        } && index == owner_of(cs, f.orig_src) && direction == ConnectionDirection::Outbound
            && source_side),
{
}

/// An ownership value agrees with its view over the table's clients.
pub open spec fn ownership_is(o: FlowOwnership, cs: Seq<ClientIdentityView>, v: OwnershipView) -> bool {
    match (o, v) {
        (FlowOwnership::BothLan, OwnershipView::BothLan) => true,
        (FlowOwnership::NoLan, OwnershipView::NoLan) => true,
        (FlowOwnership::Owned(f), OwnershipView::Owned { index, endpoints, direction, source_side }) => {
            &&& 0 <= index < cs.len()
            &&& f.identity@ == cs[index]
            &&& f.endpoints == endpoints
            &&& f.direction == direction
            &&& f.source_side == source_side
        },
        _ => false,
    }
}

fn owner<'a>(table: &'a IdentityTable, address: Option<IpAddress>) -> (r: Option<(&'a ClientIdentity, IpAddress)>)
    ensures
        match r {
            Some((c, a)) => owner_of(table@.clients, address) >= 0 && address == Some(a) && c@
                == table@.clients[owner_of(table@.clients, address)],
            None => owner_of(table@.clients, address) == -1,
        },
{
    match address {
        Some(a) => {
            let text = a.text();
            match table.by_ip(text.as_str()) {
                Some(c) => Some((c, a)),
                None => None,
            }
        },
        None => None,
    }
}

pub fn classify_flow_ownership<'a>(identities: &'a IdentityTable, flow: &FlowSample) -> (r: FlowOwnership<'a>)
    ensures
        ownership_is(r, identities@.clients, spec_ownership(identities@.clients, *flow)),
{
    let orig_src = owner(identities, flow.orig_src);
    let orig_dst = owner(identities, flow.orig_dst);
    let reply_src = owner(identities, flow.reply_src);
    let reply_dst = owner(identities, flow.reply_dst);
    if (orig_src.is_some() && orig_dst.is_some()) || (reply_src.is_some() && reply_dst.is_some()) {
        return FlowOwnership::BothLan;
    }
    if let Some((identity, client_ip)) = orig_src {
        return FlowOwnership::Owned(
            OwnedFlow {
                identity,
                endpoints: OwnedFlowEndpoints {
                    client_ip,
                    client_port: flow.orig_sport,
                    remote_ip: flow.orig_dst,
                    remote_port: flow.orig_dport,
                },
                direction: ConnectionDirection::Outbound,
                source_side: true,
            },
        );
    }
    if let Some((identity, client_ip)) = orig_dst {
        return FlowOwnership::Owned(
            OwnedFlow {
                identity,
                endpoints: OwnedFlowEndpoints {
                    client_ip,
                    client_port: flow.orig_dport,
                    remote_ip: flow.orig_src,
                    remote_port: flow.orig_sport,
                },
                direction: ConnectionDirection::Inbound,
                source_side: false,
            },
        );
    }
    if let Some((identity, client_ip)) = reply_src {
        return FlowOwnership::Owned(
            OwnedFlow {
                identity,
                endpoints: OwnedFlowEndpoints {
                    client_ip,
                    client_port: flow.reply_sport,
                    remote_ip: flow.reply_dst,
                    remote_port: flow.reply_dport,
                },
                direction: ConnectionDirection::Inbound,
                source_side: false,
            },
        );
    }
    if let Some((identity, client_ip)) = reply_dst {
        return FlowOwnership::Owned(
            OwnedFlow {
                identity,
                endpoints: OwnedFlowEndpoints {
                    client_ip,
                    client_port: flow.reply_dport,
                    remote_ip: flow.reply_src,
                    remote_port: flow.reply_sport,
                },
                direction: ConnectionDirection::Outbound,
                source_side: true,
            },
        );
    }
    FlowOwnership::NoLan
}

/// The listed protocol and state of a flow: an assured, established TCP
/// connection or an assured UDP flow; any other flow is not listed.
pub open spec fn spec_classify_connection(f: FlowSample) -> Option<(ConnectionProtocol, ConnectionState)> {
    match f.protocol {
        Protocol::Tcp => if f.tcp_state == Some(TcpState::Established) && f.assured {
            Some((ConnectionProtocol::Tcp, ConnectionState::Established))
        } else {
            None
        },
        Protocol::Udp => if f.assured {
            Some((ConnectionProtocol::Udp, ConnectionState::Assured))
        } else {
            None
        },
        Protocol::Other(_) => None,
    }
}

pub fn classify_connection(flow: &FlowSample) -> (r: Option<(ConnectionProtocol, ConnectionState)>)
    ensures
        r == spec_classify_connection(*flow),
{
    match flow.protocol {
        Protocol::Tcp => {
            let established = match flow.tcp_state {
                Some(TcpState::Established) => true,
                _ => false,
            };
            if established && flow.assured {
                Some((ConnectionProtocol::Tcp, ConnectionState::Established))
            } else {
                None
            }
        },
        Protocol::Udp => if flow.assured {
            Some((ConnectionProtocol::Udp, ConnectionState::Assured))
        } else {
            None
        },
        Protocol::Other(_) => None,
    }
}

/// The listed connection of an owned flow; none when the remote address is
/// unknown.
pub open spec fn spec_owned_detail(e: OwnedFlowEndpoints, direction: ConnectionDirection, protocol: ConnectionProtocol, state: ConnectionState) -> Option<ClientConnectionDetail> {
    match e.remote_ip {
        Some(remote_ip) => Some(
            ClientConnectionDetail {
                client_ip: e.client_ip,
                client_port: e.client_port,
                remote_ip,
                remote_port: e.remote_port,
                protocol,
                state,
                direction,
                tx_bps: 0,
                rx_bps: 0,
            },
        ),
        None => None,
    }
}

impl<'a> OwnedFlow<'a> {
    pub fn detail(self, protocol: ConnectionProtocol, state: ConnectionState) -> (r: Option<ClientConnectionDetail>)
        ensures
            r == spec_owned_detail(self.endpoints, self.direction, protocol, state),
    {
        match self.endpoints.remote_ip {
            Some(remote_ip) => Some(
                ClientConnectionDetail {
                    client_ip: self.endpoints.client_ip,
                    client_port: self.endpoints.client_port,
                    remote_ip,
                    remote_port: self.endpoints.remote_port,
                    protocol,
                    state,
                    direction: self.direction,
                    tx_bps: 0,
                    rx_bps: 0,
                },
            ),
            None => None,
        }
    }
}

impl ConnectionRateKey {
    /// The ledger key of an owned flow, with its conntrack generation.
    pub fn from_owned_flow(identity_key: &str, flow: OwnedFlow<'_>, protocol: Protocol, conntrack_id: Option<u32>, conntrack_zone: Option<u16>) -> (r: Self)
        ensures
            r@ == (RateKeyView {
                conntrack_id,
                conntrack_zone,
                identity_key: identity_key@,
                client_ip: flow.endpoints.client_ip,
                client_port: flow.endpoints.client_port,
                remote_ip: flow.endpoints.remote_ip,
                remote_port: flow.endpoints.remote_port,
                protocol: spec_rate_protocol(protocol),
                direction: flow.direction,
            }),
    {
        ConnectionRateKey {
            conntrack_id,
            conntrack_zone,
            identity_key: identity_key.to_owned(),
            client_ip: flow.endpoints.client_ip,
            client_port: flow.endpoints.client_port,
            remote_ip: flow.endpoints.remote_ip,
            remote_port: flow.endpoints.remote_port,
            protocol: RateProtocol::from(protocol),
            direction: flow.direction,
        }
    }
}

// ---------------------------------------------------------------------------
// The order of listed connections
// ---------------------------------------------------------------------------

/// Lexicographic comparison of equally long byte strings: -1, 0 or 1.
pub open spec fn bytes_compare(a: Seq<u8>, b: Seq<u8>) -> int
    decreases a.len(),
{
    if a.len() == 0 || b.len() == 0 {
        0
    } else if a[0] < b[0] {
        -1
    } else if a[0] > b[0] {
        1
    } else {
        bytes_compare(a.drop_first(), b.drop_first())
    }
}

/// Addresses compared: every IPv4 address first, then by octets.
pub open spec fn ip_compare(a: IpAddress, b: IpAddress) -> int {
    match (a, b) {
        (IpAddress::V4(x), IpAddress::V4(y)) => bytes_compare(x@, y@),
        (IpAddress::V6(x), IpAddress::V6(y)) => bytes_compare(x@, y@),
        (IpAddress::V4(_), IpAddress::V6(_)) => -1,
        (IpAddress::V6(_), IpAddress::V4(_)) => 1,
    }
}

/// Numbers compared: -1, 0 or 1.
pub open spec fn num_compare(a: int, b: int) -> int {
    if a < b {
        -1
    } else if a > b {
        1
    } else {
        0
    }
}

/// TCP before UDP.
pub open spec fn protocol_rank(p: ConnectionProtocol) -> int {
    match p {
        ConnectionProtocol::Tcp => 0,
        ConnectionProtocol::Udp => 1,
    }
}

/// Outbound before inbound.
pub open spec fn direction_rank(d: ConnectionDirection) -> int {
    match d {
        ConnectionDirection::Outbound => 0,
        ConnectionDirection::Inbound => 1,
    }
}

/// The order of listed connections: by remote address, remote port,
/// protocol, client address, client port, then direction.
pub open spec fn detail_compare(a: ClientConnectionDetail, b: ClientConnectionDetail) -> int {
    let c1 = ip_compare(a.remote_ip, b.remote_ip);
    let c2 = num_compare(a.remote_port as int, b.remote_port as int);
    let c3 = num_compare(protocol_rank(a.protocol), protocol_rank(b.protocol));
    let c4 = ip_compare(a.client_ip, b.client_ip);
    let c5 = num_compare(a.client_port as int, b.client_port as int);
    let c6 = num_compare(direction_rank(a.direction), direction_rank(b.direction));
    if c1 != 0 {
        c1
    } else if c2 != 0 {
        c2
    } else if c3 != 0 {
        c3
    } else if c4 != 0 {
        c4
    } else if c5 != 0 {
        c5
    } else {
        c6
    }
}

/// `x` inserted into an ordered list after every entry that does not sort
/// after it.
pub open spec fn insert_detail(s: Seq<ClientConnectionDetail>, x: ClientConnectionDetail) -> Seq<ClientConnectionDetail>
    decreases s.len(),
{
    if s.len() == 0 {
        seq![x]
    } else if detail_compare(x, s.last()) < 0 {
        insert_detail(s.drop_last(), x).push(s.last())
    } else {
        s.push(x)
    }
}

/// The listed connections in order, equal ones kept in their first order.
pub open spec fn sort_details(s: Seq<ClientConnectionDetail>) -> Seq<ClientConnectionDetail>
    decreases s.len(),
{
    if s.len() == 0 {
        s
    } else {
        insert_detail(sort_details(s.drop_last()), s.last())
    }
}

proof fn lemma_bytes_compare_skip(a: Seq<u8>, b: Seq<u8>, i: int)
    requires
        0 <= i <= a.len(),
        a.len() == b.len(),
        a.take(i) == b.take(i),
    ensures
        bytes_compare(a, b) == bytes_compare(a.skip(i), b.skip(i)),
    decreases i,
{
    if i > 0 {
        assert(a[0] == a.take(i)[0]);
        assert(b[0] == b.take(i)[0]);
        assert(a.drop_first().take(i - 1) =~= a.take(i).drop_first());
        assert(b.drop_first().take(i - 1) =~= b.take(i).drop_first());
        lemma_bytes_compare_skip(a.drop_first(), b.drop_first(), i - 1);
        assert(a.drop_first().skip(i - 1) =~= a.skip(i));
        assert(b.drop_first().skip(i - 1) =~= b.skip(i));
    } else {
        assert(a.skip(0) =~= a);
        assert(b.skip(0) =~= b);
    }
}

fn octets_compare<const N: usize>(a: &[u8; N], b: &[u8; N]) -> (r: i8)
    ensures
        r as int == bytes_compare(a@, b@),
{
    let ghost x = a@;
    let ghost y = b@;
    let mut i: usize = 0;
    while i < N
        invariant
            x == a@,
            y == b@,
            x.len() == N,
            y.len() == N,
            i <= N,
            x.take(i as int) == y.take(i as int),
        decreases N - i,
    {
        if a[i] != b[i] {
            proof {
                lemma_bytes_compare_skip(x, y, i as int);
                assert(x.skip(i as int)[0] == x[i as int]);
                assert(y.skip(i as int)[0] == y[i as int]);
            }
            return if a[i] < b[i] {
                -1
            } else {
                1
            };
        }
        assert(x.take(i + 1) =~= x.take(i as int).push(x[i as int]));
        assert(y.take(i + 1) =~= y.take(i as int).push(y[i as int]));
        i += 1;
    }
    proof {
        lemma_bytes_compare_skip(x, y, i as int);
    }
    0
}

pub(crate) fn ip_order(a: &IpAddress, b: &IpAddress) -> (r: i8)
    ensures
        r as int == ip_compare(*a, *b),
{
    match (a, b) {
        (IpAddress::V4(x), IpAddress::V4(y)) => octets_compare(x, y),
        (IpAddress::V6(x), IpAddress::V6(y)) => octets_compare(x, y),
        (IpAddress::V4(_), IpAddress::V6(_)) => -1,
        (IpAddress::V6(_), IpAddress::V4(_)) => 1,
    }
}

fn u16_order(a: u16, b: u16) -> (r: i8)
    ensures
        r as int == num_compare(a as int, b as int),
{
    if a < b {
        -1
    } else if a > b {
        1
    } else {
        0
    }
}

fn protocol_order(a: ConnectionProtocol, b: ConnectionProtocol) -> (r: i8)
    ensures
        r as int == num_compare(protocol_rank(a), protocol_rank(b)),
{
    match (a, b) {
        (ConnectionProtocol::Tcp, ConnectionProtocol::Udp) => -1,
        (ConnectionProtocol::Udp, ConnectionProtocol::Tcp) => 1,
        _ => 0,
    }
}

fn direction_order(a: ConnectionDirection, b: ConnectionDirection) -> (r: i8)
    ensures
        r as int == num_compare(direction_rank(a), direction_rank(b)),
{
    match (a, b) {
        (ConnectionDirection::Outbound, ConnectionDirection::Inbound) => -1,
        (ConnectionDirection::Inbound, ConnectionDirection::Outbound) => 1,
        _ => 0,
    }
}

fn compare_connection_details(a: &ClientConnectionDetail, b: &ClientConnectionDetail) -> (r: i8)
    ensures
        r as int == detail_compare(*a, *b),
{
    let c1 = ip_order(&a.remote_ip, &b.remote_ip);
    if c1 != 0 {
        return c1;
    }
    let c2 = u16_order(a.remote_port, b.remote_port);
    if c2 != 0 {
        return c2;
    }
    let c3 = protocol_order(a.protocol, b.protocol);
    if c3 != 0 {
        return c3;
    }
    let c4 = ip_order(&a.client_ip, &b.client_ip);
    if c4 != 0 {
        return c4;
    }
    let c5 = u16_order(a.client_port, b.client_port);
    if c5 != 0 {
        return c5;
    }
    direction_order(a.direction, b.direction)
}

proof fn lemma_insert_detail(s: Seq<ClientConnectionDetail>, x: ClientConnectionDetail, p: int)
    requires
        0 <= p <= s.len(),
        forall|j: int| p <= j < s.len() ==> detail_compare(x, #[trigger] s[j]) < 0,
        p > 0 ==> detail_compare(x, s[p - 1]) >= 0,
    ensures
        insert_detail(s, x) == s.insert(p, x),
    decreases s.len(),
{
    if s.len() == 0 {
        assert(s.insert(0, x) =~= seq![x]);
    } else if detail_compare(x, s.last()) < 0 {
        lemma_insert_detail(s.drop_last(), x, p);
        assert(insert_detail(s, x) =~= s.insert(p, x));
    } else {
        assert(p == s.len());
        assert(insert_detail(s, x) =~= s.insert(p, x));
    }
}

fn insert_sorted(v: &mut Vec<ClientConnectionDetail>, x: ClientConnectionDetail)
    ensures
        final(v)@ == insert_detail(old(v)@, x),
{
    let mut p: usize = v.len();
    while p > 0 && compare_connection_details(&x, &v[p - 1]) < 0
        invariant
            p <= v@.len(),
            forall|j: int| p <= j < v@.len() ==> detail_compare(x, #[trigger] v@[j]) < 0,
        decreases p,
    {
        p -= 1;
    }
    proof {
        lemma_insert_detail(v@, x, p as int);
    }
    v.insert(p, x);
}

fn sorted_details(v: &Vec<ClientConnectionDetail>) -> (r: Vec<ClientConnectionDetail>)
    ensures
        r@ == sort_details(v@),
{
    let mut out: Vec<ClientConnectionDetail> = Vec::new();
    let mut i: usize = 0;
    while i < v.len()
        invariant
            i <= v@.len(),
            out@ == sort_details(v@.take(i as int)),
        decreases v@.len() - i,
    {
        assert(v@.take(i + 1).drop_last() =~= v@.take(i as int));
        assert(v@.take(i + 1).last() == v@[i as int]);
        insert_sorted(&mut out, v[i]);
        i += 1;
    }
    assert(v@.take(v@.len() as int) =~= v@);
    out
}

// ---------------------------------------------------------------------------
// Collecting listed connections
// ---------------------------------------------------------------------------

/// A connection set with its connections taken by value.
pub struct SetView {
    pub total_connections: u64,
    pub connections: Seq<ClientConnectionDetail>,
    pub truncated: bool,
}

impl View for ClientConnectionSet {
    type V = SetView;

    open spec fn view(&self) -> SetView {
        SetView {
            total_connections: self.total_connections,
            connections: self.connections@,
            truncated: self.truncated,
        }
    }
}

/// The sets of a snapshot, each with its name and set by view.
pub open spec fn sets_view(v: Seq<Named<ClientConnectionSet>>) -> Seq<NamedView<SetView>> {
    v.map_values(|e: Named<ClientConnectionSet>| NamedView { name: e.name@, value: e.value@ })
}

/// The set of a client before any connection is recorded.
pub open spec fn empty_set() -> SetView {
    SetView { total_connections: 0, connections: Seq::empty(), truncated: false }
}

/// Listed connections being collected by client, with the counters of the
/// kept ones and how many are kept over all clients.
#[derive(Debug)]
pub struct ConnectionDetailsIndex {
    sets: Vec<Named<ClientConnectionSet>>,
    counters: Vec<(ConnectionRateKey, ConnectionCounters)>,
    stored_connections: usize,
}

/// What an index holds.
pub struct DetailsIndexView {
    pub sets: Seq<NamedView<SetView>>,
    pub counters: Seq<(RateKeyView, ConnectionCounters)>,
    pub stored_connections: usize,
}

impl View for ConnectionDetailsIndex {
    type V = DetailsIndexView;

    closed spec fn view(&self) -> DetailsIndexView {
        DetailsIndexView {
            sets: sets_view(self.sets@),
            counters: ledger_view(self.counters@),
            stored_connections: self.stored_connections,
        }
    }
}

/// The set recorded for a client, or an empty one.
pub open spec fn set_of(sets: Seq<NamedView<SetView>>, id: Seq<char>) -> SetView {
    match name_lookup(sets, id) {
        Some(s) => s,
        None => empty_set(),
    }
}

/// The index after one more connection of client `id`. The connection is
/// counted; it is kept, with its counters when given, while the client has
/// fewer than the per-client limit and the index fewer than the overall
/// limit; otherwise the client's set is marked truncated.
pub open spec fn spec_record(ix: DetailsIndexView, id: Seq<char>, d: ClientConnectionDetail, c: Option<ConnectionCounters>) -> DetailsIndexView {
    let set = set_of(ix.sets, id);
    let total = set.total_connections.saturating_add(1);
    if set.connections.len() < MAX_CLIENT_CONNECTION_DETAILS && ix.stored_connections < MAX_STORED_CONNECTION_DETAILS {
        DetailsIndexView {
            sets: name_sorted_upsert(
                ix.sets,
                id,
                SetView { total_connections: total, connections: set.connections.push(d), truncated: set.truncated },
            ),
            counters: match c {
                Some(c) => key_put(ix.counters, detail_key(id, d), c),
                None => ix.counters,
            },
            stored_connections: (ix.stored_connections + 1) as usize,
        }
    } else {
        DetailsIndexView {
            sets: name_sorted_upsert(
                ix.sets,
                id,
                SetView { total_connections: total, truncated: true, ..set },
            ),
            ..ix
        }
    }
}

/// The index after a connection of client `id` that cannot be listed: it is
/// counted and the set is marked truncated.
pub open spec fn spec_record_omitted(ix: DetailsIndexView, id: Seq<char>) -> DetailsIndexView {
    let set = set_of(ix.sets, id);
    DetailsIndexView {
        sets: name_sorted_upsert(
            ix.sets,
            id,
            SetView { total_connections: set.total_connections.saturating_add(1), truncated: true, ..set },
        ),
        ..ix
    }
}

/// A finished set: its connections in order, and truncated when any
/// counted connection is missing.
pub open spec fn finished_set(s: SetView) -> SetView {
    SetView {
        total_connections: s.total_connections,
        connections: sort_details(s.connections),
        truncated: s.truncated || s.connections.len() != s.total_connections,
    }
}

/// Every set finished, names kept.
pub open spec fn finished_sets(sets: Seq<NamedView<SetView>>) -> Seq<NamedView<SetView>> {
    sets.map_values(|e: NamedView<SetView>| NamedView { name: e.name, value: finished_set(e.value) })
}

fn copy_details(v: &Vec<ClientConnectionDetail>) -> (r: Vec<ClientConnectionDetail>)
    ensures
        r@ == v@,
{
    let mut out: Vec<ClientConnectionDetail> = Vec::new();
    let mut i: usize = 0;
    while i < v.len()
        invariant
            i <= v@.len(),
            out@ == v@.take(i as int),
        decreases v@.len() - i,
    {
        out.push(v[i]);
        assert(v@.take(i + 1) =~= v@.take(i as int).push(v@[i as int]));
        i += 1;
    }
    assert(v@.take(i as int) =~= v@);
    out
}

/// Takes the set of client `id` out of `sets`, or an empty one, and where
/// it goes back.
fn take_set(sets: &Vec<Named<ClientConnectionSet>>, id: &String) -> (r: (ClientConnectionSet, Option<usize>, usize))
    ensures
        r.0@ == set_of(sets_view(sets@), id@),
        match r.1 {
            Some(i) => i as int == name_index(sets_view(sets@), id@) && i < sets@.len(),
            None => name_index(sets_view(sets@), id@) == -1,
        },
        r.2 as int == insert_pos(sets_view(sets@), id@),
        r.2 <= sets@.len(),
{
    proof {
        lemma_same_names(names_view(sets@), sets_view(sets@), id@);
    }
    let p = find_insert_pos(sets, id);
    match find_name(sets, id) {
        Some(i) => {
            let s = &sets[i].value;
            let copy = ClientConnectionSet {
                total_connections: s.total_connections,
                connections: copy_details(&s.connections),
                truncated: s.truncated,
            };
            (copy, Some(i), p)
        },
        None => (ClientConnectionSet { total_connections: 0, connections: Vec::new(), truncated: false }, None, p),
    }
}

/// Files `value` under `id` at the place `take_set` gave.
fn put_set(sets: &mut Vec<Named<ClientConnectionSet>>, id: &String, value: ClientConnectionSet, found: Option<usize>, p: usize)
    requires
        match found {
            Some(i) => i as int == name_index(sets_view(old(sets)@), id@) && i < old(sets)@.len(),
            None => name_index(sets_view(old(sets)@), id@) == -1,
        },
        p as int == insert_pos(sets_view(old(sets)@), id@),
        p <= old(sets)@.len(),
    ensures
        sets_view(final(sets)@) == name_sorted_upsert(sets_view(old(sets)@), id@, value@),
{
    let ghost before = sets_view(sets@);
    let entry = Named { name: id.clone(), value };
    match found {
        Some(i) => {
            sets.set(i, entry);
            assert(sets_view(sets@) =~= before.update(i as int, NamedView { name: id@, value: value@ }));
        },
        None => {
            sets.insert(p, entry);
            assert(sets_view(sets@) =~= before.insert(p as int, NamedView { name: id@, value: value@ }));
        },
    }
}

impl Default for ConnectionDetailsIndex {
    fn default() -> (r: Self)
        ensures
            r@.sets.len() == 0,
            r@.counters.len() == 0,
            r@.stored_connections == 0,
    {
        ConnectionDetailsIndex { sets: Vec::new(), counters: Vec::new(), stored_connections: 0 }
    }
}

impl ConnectionDetailsIndex {
    pub fn record(&mut self, identity_key: &str, detail: ClientConnectionDetail)
        ensures
            final(self)@ == spec_record(old(self)@, identity_key@, detail, None),
    {
        self.record_inner(identity_key, detail, None)
    }

    pub fn record_with_counters(&mut self, identity_key: &str, detail: ClientConnectionDetail, counters: ConnectionCounters)
        ensures
            final(self)@ == spec_record(old(self)@, identity_key@, detail, Some(counters)),
    {
        self.record_inner(identity_key, detail, Some(counters))
    }

    /// Sets the counters of a ledger key.
    pub fn record_flow_rate_counters(&mut self, key: ConnectionRateKey, counters: ConnectionCounters)
        ensures
            final(self)@.sets == old(self)@.sets,
            final(self)@.stored_connections == old(self)@.stored_connections,
            final(self)@.counters == key_put(old(self)@.counters, key@, counters),
    {
        put_rate(&mut self.counters, key, counters);
    }

    fn record_inner(&mut self, identity_key: &str, detail: ClientConnectionDetail, counters: Option<ConnectionCounters>)
        ensures
            final(self)@ == spec_record(old(self)@, identity_key@, detail, counters),
    {
        let id = identity_key.to_owned();
        let (mut set, found, p) = take_set(&self.sets, &id);
        set.total_connections = set.total_connections.saturating_add(1);
        if set.connections.len() < MAX_CLIENT_CONNECTION_DETAILS && self.stored_connections < MAX_STORED_CONNECTION_DETAILS {
            if let Some(c) = counters {
                put_rate(&mut self.counters, ConnectionRateKey::new(identity_key, &detail), c);
            }
            set.connections.push(detail);
            self.stored_connections = self.stored_connections + 1;
        } else {
            set.truncated = true;
        }
        put_set(&mut self.sets, &id, set, found, p);
    }

    pub fn record_omitted(&mut self, identity_key: &str)
        ensures
            final(self)@ == spec_record_omitted(old(self)@, identity_key@),
    {
        let id = identity_key.to_owned();
        let (mut set, found, p) = take_set(&self.sets, &id);
        set.total_connections = set.total_connections.saturating_add(1);
        set.truncated = true;
        put_set(&mut self.sets, &id, set, found, p);
    }

    pub fn finish(self) -> (r: ConnectionDetailsSnapshot)
        ensures
            sets_view(r@) == finished_sets(self@.sets),
    {
        self.finish_with_counters().0
    }

    /// The sets, finished, and the counters of the kept connections.
    pub fn finish_with_counters(self) -> (r: (ConnectionDetailsSnapshot, ConnectionCountersSnapshot))
        ensures
            sets_view(r.0@) == finished_sets(self@.sets),
            ledger_view(r.1@) == self@.counters,
    {
        let ghost s = sets_view(self.sets@);
        let mut out: Vec<Named<ClientConnectionSet>> = Vec::new();
        let mut i: usize = 0;
        while i < self.sets.len()
            invariant
                s == sets_view(self.sets@),
                i <= s.len(),
                sets_view(out@) == finished_sets(s).take(i as int),
            decreases s.len() - i,
        {
            let entry = &self.sets[i];
            let connections = sorted_details(&entry.value.connections);
            let truncated = entry.value.truncated || entry.value.connections.len() as u64 != entry.value.total_connections;
            let value = ClientConnectionSet { total_connections: entry.value.total_connections, connections, truncated };
            let ghost before = sets_view(out@);
            out.push(Named { name: entry.name.clone(), value });
            assert(sets_view(out@) =~= before.push(NamedView { name: entry.name@, value: value@ }));
            assert(finished_sets(s).take(i + 1) =~= finished_sets(s).take(i as int).push(
                NamedView { name: entry.name@, value: value@ },
            ));
            i += 1;
        }
        assert(finished_sets(s).take(i as int) =~= finished_sets(s));
        (out, self.counters)
    }
}

fn put_rate<V: Copy>(v: &mut Vec<(ConnectionRateKey, V)>, k: ConnectionRateKey, value: V)
    ensures
        ledger_view(final(v)@) == key_put(ledger_view(old(v)@), k@, value),
{
    let ghost before = ledger_view(v@);
    let ghost kv = k@;
    match find_rate_key(v, &k) {
        Some(i) => {
            v.set(i, (k, value));
            assert(ledger_view(v@) =~= before.update(i as int, (kv, value)));
        },
        None => {
            v.push((k, value));
            assert(ledger_view(v@) =~= before.push((kv, value)));
        },
    }
}

} // verus!
