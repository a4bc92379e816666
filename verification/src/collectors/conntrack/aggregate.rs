use vstd::prelude::*;
use super::{FlowSample, IpAddress};
use crate::connection_details::{
    classify_connection, classify_flow_ownership, finished_sets, ledger_view, sets_view,
    owner_of, spec_classify_connection, spec_owned_detail, spec_ownership, spec_record,
    spec_record_omitted,
    ConnectionCounters, ConnectionCountersSnapshot, ConnectionDetailsIndex,
    ConnectionDetailsSnapshot, ConnectionProtocol, DetailsIndexView, FlowOwnership, OwnershipView,
    RateKeyView,
};
use crate::identity::{identity_text, mac_text, texts_of, ClientIdentityView, IdentityTable};
use crate::keyed::{
    find_insert_pos, find_name, insert_pos, lemma_name_sorted_upsert_lookup, name_index, name_lookup,
    name_sorted_upsert,
    names_view, Named, NamedView,
};

verus! {

/// The traffic and connections of one client over a conntrack read.
#[derive(Clone, Debug, Eq, PartialEq)]
pub struct ClientSample {
    pub mac: String,
    pub identity_key: String,
    pub zone: String,
    pub interface: String,
    pub ips: Vec<String>,
    pub tx_bytes: u64,
    pub rx_bytes: u64,
    pub last_seen_ms: u64,
    pub tcp_conns: u32,
    pub udp_conns: u32,
    pub udp_dns_conns: u32,
    pub udp_other_conns: u32,
}

/// A client sample with its texts taken by value.
pub struct ClientSampleView {
    pub mac: Seq<char>,
    pub identity_key: Seq<char>,
    pub zone: Seq<char>,
    pub interface: Seq<char>,
    pub ips: Seq<Seq<char>>,
    pub tx_bytes: u64,
    pub rx_bytes: u64,
    pub last_seen_ms: u64,
    pub tcp_conns: u32,
    pub udp_conns: u32,
    pub udp_dns_conns: u32,
    pub udp_other_conns: u32,
}

impl View for ClientSample {
    type V = ClientSampleView;

    open spec fn view(&self) -> ClientSampleView {
        ClientSampleView {
            mac: self.mac@,
            identity_key: self.identity_key@,
            zone: self.zone@,
            interface: self.interface@,
            ips: texts_of(self.ips@),
            tx_bytes: self.tx_bytes,
            rx_bytes: self.rx_bytes,
            last_seen_ms: self.last_seen_ms,
            tcp_conns: self.tcp_conns,
            udp_conns: self.udp_conns,
            udp_dns_conns: self.udp_dns_conns,
            udp_other_conns: self.udp_other_conns,
        }
    }
}

/// How the flows of a read were classified.
#[derive(Clone, Copy, Debug, Default, Eq, PartialEq, Structural)]
pub struct AggregateStats {
    pub entries_seen: usize,
    pub entries_matched: usize,
    pub skipped_no_arp: usize,
    pub no_lan_flows: usize,
    pub both_lan_flows: usize,
    pub src_lan_flows: usize,
    pub dst_lan_flows: usize,
    pub ipv4_lan_flows: usize,
    pub ipv6_lan_flows: usize,
    pub clients_dropped: usize,
}

/// The clients, statistics and listed connections of one read.
#[derive(Clone, Debug, Eq, PartialEq)]
pub struct AggregateSnapshot {
    pub clients: Vec<ClientSample>,
    pub stats: AggregateStats,
    pub sample_ms: u64,
    pub connection_details: ConnectionDetailsSnapshot,
    pub connection_counters: ConnectionCountersSnapshot,
}

/// The clients of a list of named samples, each by view.
pub open spec fn samples_view(v: Seq<Named<ClientSample>>) -> Seq<NamedView<ClientSampleView>> {
    v.map_values(|e: Named<ClientSample>| NamedView { name: e.name@, value: e.value@ })
}

/// The samples of a list, each by view.
pub open spec fn client_values(v: Seq<ClientSample>) -> Seq<ClientSampleView> {
    v.map_values(|c: ClientSample| c@)
}

/// The samples of a named list, names dropped.
pub open spec fn sample_values(s: Seq<NamedView<ClientSampleView>>) -> Seq<ClientSampleView> {
    s.map_values(|e: NamedView<ClientSampleView>| e.value)
}

/// Flows being folded into per-client samples against an identity table.
pub struct AggregateState<'a> {
    identities: &'a IdentityTable,
    clients: Vec<Named<ClientSample>>,
    connection_details: ConnectionDetailsIndex,
    stats: AggregateStats,
    now_ms: u64,
    max_clients: usize,
}

/// What an aggregation holds.
pub struct AggregateView {
    pub table: Seq<ClientIdentityView>,
    pub clients: Seq<NamedView<ClientSampleView>>,
    pub details: DetailsIndexView,
    pub stats: AggregateStats,
    pub now_ms: u64,
    pub max_clients: usize,
}

impl<'a> View for AggregateState<'a> {
    type V = AggregateView;

    closed spec fn view(&self) -> AggregateView {
        AggregateView {
            table: self.identities@.clients,
            clients: samples_view(self.clients@),
            details: self.connection_details@,
            stats: self.stats,
            now_ms: self.now_ms,
            max_clients: self.max_clients,
        }
    }
}

/// The first sample of a client.
pub open spec fn fresh_sample(c: ClientIdentityView, key: Seq<char>, now_ms: u64) -> ClientSampleView {
    ClientSampleView {
        mac: mac_text(c.mac),
        identity_key: key,
        zone: c.zone,
        interface: c.interface,
        ips: c.ips,
        tx_bytes: 0,
        rx_bytes: 0,
        last_seen_ms: now_ms,
        tcp_conns: 0,
        udp_conns: 0,
        udp_dns_conns: 0,
        udp_other_conns: 0,
    }
}

/// Whether a flow is UDP with port 53 on any side.
pub open spec fn spec_is_dns(f: FlowSample) -> bool {
    f.protocol == super::Protocol::Udp && (f.orig_sport == 53 || f.orig_dport == 53 || f.reply_sport
        == 53 || f.reply_dport == 53)
}

/// A sample with one more listed connection counted, saturating.
pub open spec fn add_connection(s: ClientSampleView, f: FlowSample, p: ConnectionProtocol) -> ClientSampleView {
    match p {
        ConnectionProtocol::Tcp => ClientSampleView { tcp_conns: s.tcp_conns.saturating_add(1), ..s },
        ConnectionProtocol::Udp => if spec_is_dns(f) {
            ClientSampleView {
                udp_conns: s.udp_conns.saturating_add(1),
                udp_dns_conns: s.udp_dns_conns.saturating_add(1),
                ..s
            }
        } else {
            ClientSampleView {
                udp_conns: s.udp_conns.saturating_add(1),
                udp_other_conns: s.udp_other_conns.saturating_add(1),
                ..s
            }
        },
    }
}

/// The aggregation after one more flow. Every flow is counted; a LAN to LAN
/// flow and a flow no client owns only add to their counters. A flow of a
/// new client past the client limit is dropped. Otherwise the owner's
/// sample takes the flow's bytes from the client's side, the time of the
/// read and, for a listed connection, one more connection; the connection
/// is recorded, or counted as omitted when its remote address is unknown.
pub open spec fn spec_push(st: AggregateView, f: FlowSample) -> AggregateView {
    let seen = AggregateStats { entries_seen: st.stats.entries_seen.saturating_add(1), ..st.stats };
    match spec_ownership(st.table, f) {
        OwnershipView::BothLan => AggregateView {
            stats: AggregateStats { both_lan_flows: seen.both_lan_flows.saturating_add(1), ..seen },
            ..st
        },
        OwnershipView::NoLan => AggregateView {
            stats: AggregateStats {
                skipped_no_arp: seen.skipped_no_arp.saturating_add(1),
                no_lan_flows: seen.no_lan_flows.saturating_add(1),
                ..seen
            },
            ..st
        },
        OwnershipView::Owned { index, endpoints, direction, source_side } => {
            let c = st.table[index];
            let key = identity_text(c.mac, c.zone);
            if name_index(st.clients, key) < 0 && st.clients.len() >= st.max_clients {
                AggregateView {
                    stats: AggregateStats { clients_dropped: seen.clients_dropped.saturating_add(1), ..seen },
                    ..st
                }
            } else {
                let q = spec_classify_connection(f);
                let tx = if source_side { f.orig_bytes } else { f.reply_bytes };
                let rx = if source_side { f.reply_bytes } else { f.orig_bytes };
                let before = match name_lookup(st.clients, key) {
                    Some(s) => s,
                    None => fresh_sample(c, key, st.now_ms),
                };
                let moved = ClientSampleView {
                    tx_bytes: before.tx_bytes.saturating_add(tx),
                    rx_bytes: before.rx_bytes.saturating_add(rx),
                    last_seen_ms: st.now_ms,
                    ..before
                };
                let sample = match q {
                    Some(pq) => add_connection(moved, f, pq.0),
                    None => moved,
                };
                let matched = AggregateStats { entries_matched: seen.entries_matched.saturating_add(1), ..seen };
                let sided = if source_side {
                    AggregateStats { src_lan_flows: matched.src_lan_flows.saturating_add(1), ..matched }
                } else {
                    AggregateStats { dst_lan_flows: matched.dst_lan_flows.saturating_add(1), ..matched }
                };
                let family = if endpoints.client_ip is V6 {
                    AggregateStats { ipv6_lan_flows: sided.ipv6_lan_flows.saturating_add(1), ..sided }
                } else {
                    AggregateStats { ipv4_lan_flows: sided.ipv4_lan_flows.saturating_add(1), ..sided }
                };
                let details = match q {
                    Some(pq) => match spec_owned_detail(endpoints, direction, pq.0, pq.1) {
                        Some(d) => spec_record(st.details, key, d, Some(ConnectionCounters { tx_bytes: tx, rx_bytes: rx })),
                        None => spec_record_omitted(st.details, key),
                    },
                    None => st.details,
                };
                AggregateView {
                    clients: name_sorted_upsert(st.clients, key, sample),
                    details,
                    stats: family,
                    ..st
                }
            }
        },
    }
}

/// A flow counted for a client adds, to the client's upload, the bytes its
/// own address sent, and to its download the bytes it received: for a
/// port-forwarded flow (no original address is a client, the reply's source
/// is) the reply's bytes are the upload and the original's the download, and
/// the flow counts as a destination-side flow.
pub proof fn lemma_port_forward_bytes(st: AggregateView, f: FlowSample)
    requires
        owner_of(st.table, f.orig_src) < 0,
        owner_of(st.table, f.orig_dst) < 0,
        owner_of(st.table, f.reply_src) >= 0,
        owner_of(st.table, f.reply_dst) < 0,
        ({
            let c = st.table[owner_of(st.table, f.reply_src)];
            name_index(st.clients, identity_text(c.mac, c.zone)) >= 0 || st.clients.len() < st.max_clients
        }),
    ensures
        ({
            let c = st.table[owner_of(st.table, f.reply_src)];
            let key = identity_text(c.mac, c.zone);
            let before = match name_lookup(st.clients, key) {
                Some(x) => x,
                None => fresh_sample(c, key, st.now_ms),
            };
            let after = spec_push(st, f);
            &&& name_lookup(after.clients, key) matches Some(x) && x.tx_bytes == before.tx_bytes.saturating_add(
                f.reply_bytes,
            ) && x.rx_bytes == before.rx_bytes.saturating_add(f.orig_bytes)
            &&& after.stats.dst_lan_flows == st.stats.dst_lan_flows.saturating_add(1)
            &&& after.stats.src_lan_flows == st.stats.src_lan_flows
        }),
{
    crate::connection_details::lemma_ownership_sides(st.table, f);
    let c = st.table[owner_of(st.table, f.reply_src)];
    let key = identity_text(c.mac, c.zone);
    match spec_ownership(st.table, f) {
        OwnershipView::Owned { index, endpoints, direction, source_side } => {
            let before = match name_lookup(st.clients, key) {
                Some(x) => x,
                None => fresh_sample(c, key, st.now_ms),
            };
            let moved = ClientSampleView {
                tx_bytes: before.tx_bytes.saturating_add(f.reply_bytes),
                rx_bytes: before.rx_bytes.saturating_add(f.orig_bytes),
                last_seen_ms: st.now_ms,
                ..before
            };
            let sample = match spec_classify_connection(f) {
                Some(pq) => add_connection(moved, f, pq.0),
                None => moved,
            };
            lemma_name_sorted_upsert_lookup(st.clients, key, sample);
        },
        _ => {},
    }
}

fn add_connection_count(sample: &mut ClientSample, flow: &FlowSample, protocol: ConnectionProtocol)
    ensures
        final(sample)@ == add_connection(old(sample)@, *flow, protocol),
{
    match protocol {
        ConnectionProtocol::Tcp => {
            sample.tcp_conns = sample.tcp_conns.saturating_add(1);
        },
        ConnectionProtocol::Udp => {
            sample.udp_conns = sample.udp_conns.saturating_add(1);
            if flow.is_dns() {
                sample.udp_dns_conns = sample.udp_dns_conns.saturating_add(1);
            } else {
                sample.udp_other_conns = sample.udp_other_conns.saturating_add(1);
            }
        },
    }
}

impl<'a> AggregateState<'a> {
    pub fn new(identities: &'a IdentityTable, now_ms: u64, max_clients: usize) -> (r: Self)
        ensures
            r@.table == identities@.clients,
            r@.clients.len() == 0,
            r@.details.sets.len() == 0,
            r@.details.counters.len() == 0,
            r@.details.stored_connections == 0,
            r@.stats == AggregateStats::default_spec(),
            r@.now_ms == now_ms,
            r@.max_clients == max_clients,
    {
        AggregateState {
            identities,
            clients: Vec::new(),
            connection_details: ConnectionDetailsIndex::default(),
            stats: AggregateStats::zero(),
            now_ms,
            max_clients,
        }
    }

    pub fn push(&mut self, flow: &FlowSample)
        ensures
            final(self)@ == spec_push(old(self)@, *flow),
    {
        self.stats.entries_seen = self.stats.entries_seen.saturating_add(1);
        let owned = match classify_flow_ownership(self.identities, flow) {
            FlowOwnership::BothLan => {
                self.stats.both_lan_flows = self.stats.both_lan_flows.saturating_add(1);
                return;
            },
            FlowOwnership::NoLan => {
                self.stats.skipped_no_arp = self.stats.skipped_no_arp.saturating_add(1);
                self.stats.no_lan_flows = self.stats.no_lan_flows.saturating_add(1);
                return;
            },
            FlowOwnership::Owned(owned) => owned,
        };
        let key = owned.identity.key.text();
        let ghost names = samples_view(self.clients@);
        proof {
            crate::keyed::lemma_same_names(names_view(self.clients@), names, key@);
        }
        let found = find_name(&self.clients, &key);
        if found.is_none() && self.clients.len() >= self.max_clients {
            self.stats.clients_dropped = self.stats.clients_dropped.saturating_add(1);
            return;
        }
        let qualification = classify_connection(flow);
        let (tx, rx) = if owned.source_side {
            (flow.orig_bytes, flow.reply_bytes)
        } else {
            (flow.reply_bytes, flow.orig_bytes)
        };
        let p = find_insert_pos(&self.clients, &key);
        let mut entry = match found {
            Some(i) => self.clients.remove(i),
            None => Named {
                name: key.clone(),
                value: ClientSample {
                    mac: owned.identity.key.mac.text(),
                    identity_key: key.clone(),
                    zone: owned.identity.key.zone.clone(),
                    interface: owned.identity.interface.clone(),
                    ips: crate::identity::clone_text_list(&owned.identity.ips),
                    tx_bytes: 0,
                    rx_bytes: 0,
                    last_seen_ms: self.now_ms,
                    tcp_conns: 0,
                    udp_conns: 0,
                    udp_dns_conns: 0,
                    udp_other_conns: 0,
                },
            },
        };
        entry.value.tx_bytes = entry.value.tx_bytes.saturating_add(tx);
        entry.value.rx_bytes = entry.value.rx_bytes.saturating_add(rx);
        entry.value.last_seen_ms = self.now_ms;
        if let Some((protocol, _)) = qualification {
            add_connection_count(&mut entry.value, flow, protocol);
        }
        let ghost sample = entry.value@;
        match found {
            Some(i) => {
                self.clients.insert(i, entry);
                assert(samples_view(self.clients@) =~= names.update(i as int, NamedView { name: key@, value: sample }));
            },
            None => {
                self.clients.insert(p, entry);
                assert(samples_view(self.clients@) =~= names.insert(p as int, NamedView { name: key@, value: sample }));
            },
        }
        self.stats.entries_matched = self.stats.entries_matched.saturating_add(1);
        if owned.source_side {
            self.stats.src_lan_flows = self.stats.src_lan_flows.saturating_add(1);
        } else {
            self.stats.dst_lan_flows = self.stats.dst_lan_flows.saturating_add(1);
        }
        match owned.endpoints.client_ip {
            IpAddress::V6(_) => {
                self.stats.ipv6_lan_flows = self.stats.ipv6_lan_flows.saturating_add(1);
            },
            IpAddress::V4(_) => {
                self.stats.ipv4_lan_flows = self.stats.ipv4_lan_flows.saturating_add(1);
            },
        }
        if let Some((protocol, state)) = qualification {
            match owned.detail(protocol, state) {
                Some(detail) => self.connection_details.record_with_counters(
                    key.as_str(),
                    detail,
                    ConnectionCounters { tx_bytes: tx, rx_bytes: rx },
                ),
                None => self.connection_details.record_omitted(key.as_str()),
            }
        }
    }

    /// The clients in key order, the statistics, and the finished connection
    /// listing.
    pub fn finish(self) -> (r: AggregateSnapshot)
        ensures
            client_values(r.clients@) == sample_values(self@.clients),
            r.stats == self@.stats,
            r.sample_ms == self@.now_ms,
            sets_view(r.connection_details@) == finished_sets(self@.details.sets),
            ledger_view(r.connection_counters@) == self@.details.counters,
    {
        let (connection_details, connection_counters) = self.connection_details.finish_with_counters();
        let ghost names = samples_view(self.clients@);
        let mut clients: Vec<ClientSample> = Vec::new();
        let mut rest = self.clients;
        let ghost all = rest@;
        let mut i: usize = 0;
        while i < rest.len()
            invariant
                rest@ == all,
                names == samples_view(all),
                i <= all.len(),
                client_values(clients@) == sample_values(names).take(i as int),
            decreases all.len() - i,
        {
            let value = copy_sample(&rest[i].value);
            let ghost before = client_values(clients@);
            clients.push(value);
            assert(client_values(clients@) =~= before.push(all[i as int].value@));
            assert(sample_values(names).take(i + 1) =~= sample_values(names).take(i as int).push(
                all[i as int].value@,
            ));
            i += 1;
        }
        assert(sample_values(names).take(i as int) =~= sample_values(names));
        AggregateSnapshot {
            clients,
            stats: self.stats,
            sample_ms: self.now_ms,
            connection_details,
            connection_counters,
        }
    }
}

pub(crate) fn copy_sample(c: &ClientSample) -> (r: ClientSample)
    ensures
        r@ == c@,
{
    ClientSample {
        mac: c.mac.clone(),
        identity_key: c.identity_key.clone(),
        zone: c.zone.clone(),
        interface: c.interface.clone(),
        ips: crate::identity::clone_text_list(&c.ips),
        tx_bytes: c.tx_bytes,
        rx_bytes: c.rx_bytes,
        last_seen_ms: c.last_seen_ms,
        tcp_conns: c.tcp_conns,
        udp_conns: c.udp_conns,
        udp_dns_conns: c.udp_dns_conns,
        udp_other_conns: c.udp_other_conns,
    }
}

impl AggregateStats {
    /// Every counter at zero.
    pub open spec fn default_spec() -> AggregateStats {
        AggregateStats {
            entries_seen: 0,
            entries_matched: 0,
            skipped_no_arp: 0,
            no_lan_flows: 0,
            both_lan_flows: 0,
            src_lan_flows: 0,
            dst_lan_flows: 0,
            ipv4_lan_flows: 0,
            ipv6_lan_flows: 0,
            clients_dropped: 0,
        }
    }

    fn zero() -> (r: AggregateStats)
        ensures
            r == AggregateStats::default_spec(),
    {
        AggregateStats {
            entries_seen: 0,
            entries_matched: 0,
            skipped_no_arp: 0,
            no_lan_flows: 0,
            both_lan_flows: 0,
            src_lan_flows: 0,
            dst_lan_flows: 0,
            ipv4_lan_flows: 0,
            ipv6_lan_flows: 0,
            clients_dropped: 0,
        }
    }
}

/// The aggregation after every flow, in order.
pub open spec fn spec_push_all(st: AggregateView, flows: Seq<FlowSample>) -> AggregateView
    decreases flows.len(),
{
    if flows.len() == 0 {
        st
    } else {
        spec_push(spec_push_all(st, flows.drop_last()), flows.last())
    }
}

/// The aggregation of `flows` against a table at `now_ms`.
pub open spec fn spec_aggregate(table: Seq<ClientIdentityView>, flows: Seq<FlowSample>, now_ms: u64, max_clients: usize) -> AggregateView {
    spec_push_all(
        AggregateView {
            table,
            clients: Seq::empty(),
            details: DetailsIndexView { sets: Seq::empty(), counters: Seq::empty(), stored_connections: 0 },
            stats: AggregateStats::default_spec(),
            now_ms,
            max_clients,
        },
        flows,
    )
}

/// Folds every flow into per-client samples.
pub fn aggregate_flows(identities: &IdentityTable, flows: &Vec<FlowSample>, now_ms: u64, max_clients: usize) -> (r: AggregateSnapshot)
    ensures
        ({
            let a = spec_aggregate(identities@.clients, flows@, now_ms, max_clients);
            &&& client_values(r.clients@) == sample_values(a.clients)
            &&& r.stats == a.stats
            &&& r.sample_ms == now_ms
            &&& sets_view(r.connection_details@) == finished_sets(a.details.sets)
            &&& ledger_view(r.connection_counters@) == a.details.counters
        }),
{
    let mut state = AggregateState::new(identities, now_ms, max_clients);
    let ghost start = state@;
    assert(start.clients =~= Seq::<NamedView<ClientSampleView>>::empty());
    assert(start.details.sets =~= Seq::empty());
    assert(start.details.counters =~= Seq::<(RateKeyView, ConnectionCounters)>::empty());
    let mut i: usize = 0;
    while i < flows.len()
        invariant
            i <= flows@.len(),
            state@ == spec_push_all(start, flows@.take(i as int)),
            state@.now_ms == now_ms,
            start == (AggregateView {
                table: identities@.clients,
                clients: Seq::empty(),
                details: DetailsIndexView { sets: Seq::empty(), counters: Seq::empty(), stored_connections: 0 },
                stats: AggregateStats::default_spec(),
                now_ms,
                max_clients,
            }),
        decreases flows@.len() - i,
    {
        assert(flows@.take(i + 1).drop_last() =~= flows@.take(i as int));
        assert(flows@.take(i + 1).last() == flows@[i as int]);
        state.push(&flows[i]);
        i += 1;
    }
    assert(flows@.take(flows@.len() as int) =~= flows@);
    state.finish()
}

} // verus!
