use vstd::prelude::*;
use crate::identity::{mac_text, MacAddress};
use crate::keyed::{
    lemma_name_sorted_upsert_lookup, name_lookup, name_sorted_upsert, names_view, sorted_upsert_name,
    Named, NamedView,
};

verus! {

/// The connections of one client, by protocol.
#[derive(Clone, Copy, Debug, Default, Eq, PartialEq, Structural)]
pub struct ConnectionCounts {
    pub tcp: u32,
    pub udp: u32,
    pub udp_dns: u32,
    pub udp_other: u32,
}

/// Connection counts by client key, or why there are none.
#[derive(Clone, Debug, Eq, PartialEq)]
pub enum ConnectionOverlay {
    Available(Vec<Named<ConnectionCounts>>),
    Unavailable(String),
}

/// What an overlay holds: the counts by key in key order, or the reason it is
/// unavailable.
pub enum OverlayView {
    Available(Seq<NamedView<ConnectionCounts>>),
    Unavailable(Seq<char>),
}

impl View for ConnectionOverlay {
    type V = OverlayView;

    open spec fn view(&self) -> OverlayView {
        match self {
            ConnectionOverlay::Available(v) => OverlayView::Available(names_view(v@)),
            ConnectionOverlay::Unavailable(r) => OverlayView::Unavailable(r@),
        }
    }
}

/// The counts an overlay holds for a key.
pub open spec fn overlay_lookup(o: OverlayView, key: Seq<char>) -> Option<ConnectionCounts> {
    match o {
        OverlayView::Available(s) => name_lookup(s, key),
        OverlayView::Unavailable(_) => None,
    }
}

impl ConnectionOverlay {
    pub fn available() -> (r: Self)
        ensures
            r@ matches OverlayView::Available(s) && s.len() == 0,
    {
        ConnectionOverlay::Available(Vec::new())
    }

    pub fn unavailable(reason: &str) -> (r: Self)
        ensures
            r@ matches OverlayView::Unavailable(m) && m == reason@,
    {
        ConnectionOverlay::Unavailable(reason.to_owned())
    }

    /// Files the counts of a client; an unavailable overlay stays as it is.
    pub fn insert(&mut self, identity_key: &str, counts: ConnectionCounts)
        ensures
            match old(self)@ {
                OverlayView::Available(s) => final(self)@ == OverlayView::Available(
                    name_sorted_upsert(s, identity_key@, counts),
                ),
                OverlayView::Unavailable(_) => final(self)@ == old(self)@,
            },
            overlay_lookup(final(self)@, identity_key@) == (match old(self)@ {
                OverlayView::Available(_) => Some(counts),
                OverlayView::Unavailable(_) => None,
            }),
            forall|other: Seq<char>|
                other != identity_key@ ==> #[trigger] overlay_lookup(final(self)@, other)
                    == overlay_lookup(old(self)@, other),
    {
        match self {
            ConnectionOverlay::Available(values) => {
                let ghost s = names_view(values@);
                let key = identity_key.to_owned();
                sorted_upsert_name(values, &key, counts);
                proof {
                    lemma_name_sorted_upsert_lookup(s, identity_key@, counts);
                }
            },
            ConnectionOverlay::Unavailable(_) => {},
        }
    }

    pub fn get(&self, identity_key: &str) -> (r: Option<ConnectionCounts>)
        ensures
            r == overlay_lookup(self@, identity_key@),
    {
        match self {
            ConnectionOverlay::Available(values) => {
                let key = identity_key.to_owned();
                match crate::keyed::find_name(values, &key) {
                    Some(i) => Some(values[i].value),
                    None => None,
                }
            },
            ConnectionOverlay::Unavailable(_) => None,
        }
    }

    pub fn unavailable_reason(&self) -> (r: Option<&str>)
        ensures
            match self@ {
                OverlayView::Available(_) => r is None,
                OverlayView::Unavailable(m) => r matches Some(t) && t@ == m,
            },
    {
        match self {
            ConnectionOverlay::Available(_) => None,
            ConnectionOverlay::Unavailable(reason) => Some(reason.as_str()),
        }
    }
}

#[derive(Clone, Copy, Debug, Eq, PartialEq, Structural)]
pub enum SnapshotWarning {
    MapIterationTruncated,
    ClientLimitExceeded,
    ConnectionOverlayUnavailable,
}

/// A raw MAC as text: six lowercase hexadecimal pairs joined by colons.
pub fn format_mac(mac: [u8; 6]) -> (r: String)
    ensures
        r@ == mac_text(mac@),
{
    let mut cs: Vec<char> = Vec::new();
    let mut k: usize = 0;
    while k < 6
        invariant
            k <= 6,
            cs@.len() == (if k == 0 {
                0
            } else {
                3 * k - 1
            }),
            forall|i: int| 0 <= i < cs@.len() ==> cs@[i] == mac_text(mac@)[i],
        decreases 6 - k,
    {
        if k > 0 {
            cs.push(':');
        }
        let byte = mac[k];
        cs.push(crate::identity::nibble_char(byte / 16));
        cs.push(crate::identity::nibble_char(byte % 16));
        k += 1;
    }
    assert(cs@ =~= mac_text(mac@));
    crate::text::string_from_chars(cs.as_slice())
}

} // verus!

verus! {

/// The key of one entry of the kernel client map: the interface, the
/// direction, and the client MAC.
#[derive(Clone, Copy, Debug, Default, Eq, PartialEq)]
pub struct MapKey {
    pub ifindex: u32,
    pub direction: u8,
    pub mac: [u8; 6],
}

/// The counters of one entry of the kernel client map.
#[derive(Clone, Copy, Debug, Default, Eq, PartialEq, Structural)]
pub struct MapCounters {
    pub bytes: u64,
    pub tcp_conns: u32,
    pub udp_conns: u32,
    pub last_seen: u64,
}

/// One entry of the kernel client map.
#[derive(Clone, Copy, Debug, Default, Eq, PartialEq)]
pub struct RawMapSample {
    pub key: MapKey,
    pub counters: MapCounters,
}

/// One read of the client map, and whether its iteration was cut short.
#[derive(Clone, Debug, Default, Eq, PartialEq)]
pub struct MapRead {
    pub entries: Vec<RawMapSample>,
    pub truncated: bool,
}

} // verus!

verus! {

/// What the map says of one client over a read, by value.
pub struct FoldedView {
    pub mac: Seq<char>,
    pub zone: Seq<char>,
    pub interface: Seq<char>,
    pub ips: Seq<Seq<char>>,
    pub tx_bytes: u64,
    pub rx_bytes: u64,
    pub last_seen_ms: u64,
    pub tcp_tuples: u32,
    pub udp_tuples: u32,
}

/// What the map says of one client over a read: its identity's MAC, zone
/// and first addresses, the interface it was first seen on, the bytes each
/// way, when it was last seen, and the approximate tuples it opened.
pub struct FoldedClient {
    pub mac: String,
    pub zone: String,
    pub interface: String,
    pub ips: Vec<String>,
    pub tx_bytes: u64,
    pub rx_bytes: u64,
    pub last_seen_ms: u64,
    pub bpf_approx_tcp_tuples: u32,
    pub bpf_approx_udp_tuples: u32,
}

impl View for FoldedClient {
    type V = FoldedView;

    closed spec fn view(&self) -> FoldedView {
        FoldedView {
            mac: self.mac@,
            zone: self.zone@,
            interface: self.interface@,
            ips: crate::identity::texts_of(self.ips@),
            tx_bytes: self.tx_bytes,
            rx_bytes: self.rx_bytes,
            last_seen_ms: self.last_seen_ms,
            tcp_tuples: self.bpf_approx_tcp_tuples,
            udp_tuples: self.bpf_approx_udp_tuples,
        }
    }
}

/// The folded clients by identity key.
pub open spec fn folded_views(v: Seq<Named<FoldedClient>>) -> Seq<NamedView<FoldedView>> {
    v.map_values(|e: Named<FoldedClient>| NamedView { name: e.name@, value: e.value@ })
}

/// The name of an interface index: the first name given for it, else `if`
/// and the index in decimal.
pub open spec fn interface_for(names: Seq<(u32, Seq<char>)>, ifindex: u32) -> Seq<char>
    decreases names.len(),
{
    if names.len() == 0 {
        seq!['i', 'f'] + crate::collectors::conntrack::address::dec_text(ifindex as nat)
    } else if names[0].0 == ifindex {
        names[0].1
    } else {
        interface_for(names.drop_first(), ifindex)
    }
}

pub open spec fn interface_names_view(v: Seq<(u32, String)>) -> Seq<(u32, Seq<char>)> {
    v.map_values(|p: (u32, String)| (p.0, p.1@))
}

/// When a map entry was last seen, in milliseconds: its nanosecond stamp
/// cut to milliseconds, or the read's time where that is zero.
pub open spec fn entry_last_ms(c: MapCounters, now_ms: u64) -> u64 {
    if c.last_seen / 1_000_000 == 0 {
        now_ms
    } else {
        (c.last_seen / 1_000_000) as u64
    }
}

/// A client's totals with one entry added: its bytes to the direction's
/// total, and for transmitted traffic its tuples too, all saturating; and
/// the later of the two last-seen times.
pub open spec fn spec_add_entry(f: FoldedView, tx: bool, c: MapCounters, last_ms: u64) -> FoldedView {
    let g = if tx {
        FoldedView {
            tx_bytes: f.tx_bytes.saturating_add(c.bytes),
            tcp_tuples: f.tcp_tuples.saturating_add(c.tcp_conns),
            udp_tuples: f.udp_tuples.saturating_add(c.udp_conns),
            ..f
        }
    } else {
        FoldedView { rx_bytes: f.rx_bytes.saturating_add(c.bytes), ..f }
    };
    FoldedView {
        last_seen_ms: if g.last_seen_ms >= last_ms {
            g.last_seen_ms
        } else {
            last_ms
        },
        ..g
    }
}

/// A client's first totals: its identity's MAC, zone and first four
/// addresses, the entry's interface, and nothing counted yet.
pub open spec fn fresh_folded(id: crate::identity::ClientIdentityView, interface: Seq<char>) -> FoldedView {
    FoldedView {
        mac: mac_text(id.mac),
        zone: id.zone,
        interface,
        ips: if id.ips.len() <= 4 {
            id.ips
        } else {
            id.ips.take(4)
        },
        tx_bytes: 0,
        rx_bytes: 0,
        last_seen_ms: 0,
        tcp_tuples: 0,
        udp_tuples: 0,
    }
}

/// The folded clients and the read's time, as the entries come.
pub struct FoldState {
    pub clients: Seq<NamedView<FoldedView>>,
    pub sample_ms: u64,
}

/// One map entry folded in: only a transmitted or received entry, on an
/// interface that is no proxy or tunnel, of a MAC that the identity table
/// holds in the interface's zone; it is added to that client's totals, and
/// the read's time moves to the entry's where that is later.
pub open spec fn fold_entry(
    st: FoldState,
    e: RawMapSample,
    names: Seq<(u32, Seq<char>)>,
    cs: Seq<crate::identity::ClientIdentityView>,
    now_ms: u64,
) -> FoldState {
    if e.key.direction != super::ecm::DIR_TX && e.key.direction != super::ecm::DIR_RX {
        st
    } else {
        let interface = interface_for(names, e.key.ifindex);
        if crate::identity::filter::spec_excluded_identity_source(interface) {
            st
        } else {
            let key = crate::identity::identity_text(
                e.key.mac@,
                crate::identity::filter::spec_zone_of(interface),
            );
            match name_lookup(crate::identity::keyed_clients(cs), key) {
                None => st,
                Some(id) => {
                    let i = crate::keyed::name_index(st.clients, key);
                    let base = if i >= 0 {
                        st.clients[i].value
                    } else {
                        fresh_folded(id, interface)
                    };
                    let last = entry_last_ms(e.counters, now_ms);
                    FoldState {
                        clients: name_sorted_upsert(
                            st.clients,
                            key,
                            spec_add_entry(base, e.key.direction == super::ecm::DIR_TX, e.counters, last),
                        ),
                        sample_ms: if st.sample_ms >= last {
                            st.sample_ms
                        } else {
                            last
                        },
                    }
                },
            }
        }
    }
}

/// The state after folding `entries` in order, from no clients at `now_ms`.
pub open spec fn fold_entries(
    entries: Seq<RawMapSample>,
    names: Seq<(u32, Seq<char>)>,
    cs: Seq<crate::identity::ClientIdentityView>,
    now_ms: u64,
) -> FoldState
    decreases entries.len(),
{
    if entries.len() == 0 {
        FoldState { clients: Seq::empty(), sample_ms: now_ms }
    } else {
        fold_entry(fold_entries(entries.drop_last(), names, cs, now_ms), entries.last(), names, cs, now_ms)
    }
}

/// A map read folded into per-client totals, in identity-key order, cut to
/// the client limit; the read's time; and whether the limit cut clients.
pub struct FoldedRead {
    pub clients: Vec<Named<FoldedClient>>,
    pub sample_ms: u64,
    pub client_limit_exceeded: bool,
}

fn interface_name_of(names: &Vec<(u32, String)>, ifindex: u32) -> (r: String)
    ensures
        r@ == interface_for(interface_names_view(names@), ifindex),
{
    let ghost nv = interface_names_view(names@);
    let mut i: usize = 0;
    assert(nv.skip(0) =~= nv);
    while i < names.len()
        invariant
            i <= names@.len(),
            nv == interface_names_view(names@),
            interface_for(nv, ifindex) == interface_for(nv.skip(i as int), ifindex),
        decreases names@.len() - i,
    {
        assert(nv.skip(i as int)[0] == nv[i as int]);
        assert(nv.skip(i as int).drop_first() =~= nv.skip(i + 1));
        if names[i].0 == ifindex {
            return names[i].1.clone();
        }
        i += 1;
    }
    assert(nv.skip(i as int).len() == 0);
    let mut cs: Vec<char> = Vec::new();
    cs.push('i');
    cs.push('f');
    let mut digits = decimal_chars(ifindex);
    cs.append(&mut digits);
    crate::text::string_from_chars(cs.as_slice())
}

fn decimal_chars(n: u32) -> (r: Vec<char>)
    ensures
        r@ == crate::collectors::conntrack::address::dec_text(n as nat),
    decreases n,
{
    let d = ((n % 10) as u8 + 48) as char;
    if n < 10 {
        let mut v: Vec<char> = Vec::new();
        v.push(d);
        assert(v@ =~= seq![crate::collectors::conntrack::address::digit_char(n as nat)]);
        v
    } else {
        let mut v = decimal_chars(n / 10);
        v.push(d);
        assert(v@ =~= crate::collectors::conntrack::address::dec_text((n / 10) as nat) + seq![
            crate::collectors::conntrack::address::digit_char((n % 10) as nat),
        ]);
        v
    }
}

fn add_entry(c: FoldedClient, tx: bool, counters: MapCounters, last_ms: u64) -> (r: FoldedClient)
    ensures
        r@ == spec_add_entry(c@, tx, counters, last_ms),
{
    let mut c = c;
    if tx {
        c.tx_bytes = c.tx_bytes.saturating_add(counters.bytes);
        c.bpf_approx_tcp_tuples = c.bpf_approx_tcp_tuples.saturating_add(counters.tcp_conns);
        c.bpf_approx_udp_tuples = c.bpf_approx_udp_tuples.saturating_add(counters.udp_conns);
    } else {
        c.rx_bytes = c.rx_bytes.saturating_add(counters.bytes);
    }
    if c.last_seen_ms < last_ms {
        c.last_seen_ms = last_ms;
    }
    c
}

fn fresh_client(id: &crate::identity::ClientIdentity, interface: String) -> (r: FoldedClient)
    ensures
        r@ == fresh_folded(id@, interface@),
{
    let mut ips: Vec<String> = Vec::new();
    let mut k: usize = 0;
    let n = if id.ips.len() <= 4 {
        id.ips.len()
    } else {
        4
    };
    while k < n
        invariant
            k <= n,
            n <= id.ips@.len(),
            crate::identity::texts_of(ips@) == crate::identity::texts_of(id.ips@).take(k as int),
        decreases n - k,
    {
        let ghost before = crate::identity::texts_of(ips@);
        ips.push(id.ips[k].clone());
        assert(crate::identity::texts_of(ips@) =~= before.push(id.ips@[k as int]@));
        assert(crate::identity::texts_of(id.ips@).take(k + 1) =~= crate::identity::texts_of(id.ips@).take(
            k as int,
        ).push(id.ips@[k as int]@));
        k += 1;
    }
    proof {
        if id.ips@.len() <= 4 {
            assert(crate::identity::texts_of(id.ips@).take(n as int) =~= crate::identity::texts_of(id.ips@));
        }
    }
    FoldedClient {
        mac: id.key.mac.text(),
        zone: id.key.zone.clone(),
        interface,
        ips,
        tx_bytes: 0,
        rx_bytes: 0,
        last_seen_ms: 0,
        bpf_approx_tcp_tuples: 0,
        bpf_approx_udp_tuples: 0,
    }
}

/// Folds one read of the client map into per-client totals: entries of
/// either direction, on interfaces that are no proxy or tunnel, of clients
/// the identity table knows in the interface's zone, summed per identity in
/// key order; past `max_clients` clients the last in key order are dropped.
pub fn fold_map_read(
    read: &MapRead,
    names: &Vec<(u32, String)>,
    identities: &crate::identity::IdentityTable,
    now_ms: u64,
    max_clients: usize,
) -> (r: FoldedRead)
    ensures
        ({
            let st = fold_entries(read.entries@, interface_names_view(names@), identities@.clients, now_ms);
            &&& r.sample_ms == st.sample_ms
            &&& r.client_limit_exceeded == (st.clients.len() > max_clients)
            &&& folded_views(r.clients@) == if st.clients.len() > max_clients {
                st.clients.take(max_clients as int)
            } else {
                st.clients
            }
        }),
{
    let ghost nv = interface_names_view(names@);
    let ghost cs = identities@.clients;
    let ghost es = read.entries@;
    let mut folded: Vec<Named<FoldedClient>> = Vec::new();
    let mut sample_ms = now_ms;
    let mut i: usize = 0;
    proof {
        assert(es.take(0) =~= Seq::<RawMapSample>::empty());
        assert(folded_views(folded@) =~= Seq::<NamedView<FoldedView>>::empty());
    }
    while i < read.entries.len()
        invariant
            i <= es.len(),
            es == read.entries@,
            nv == interface_names_view(names@),
            cs == identities@.clients,
            folded_views(folded@) == fold_entries(es.take(i as int), nv, cs, now_ms).clients,
            sample_ms == fold_entries(es.take(i as int), nv, cs, now_ms).sample_ms,
        decreases es.len() - i,
    {
        let e = read.entries[i];
        proof {
            assert(es.take(i + 1).drop_last() =~= es.take(i as int));
            assert(es.take(i + 1).last() == e);
        }
        let ghost before = folded_views(folded@);
        if e.key.direction == super::ecm::DIR_TX || e.key.direction == super::ecm::DIR_RX {
            let interface = interface_name_of(names, e.key.ifindex);
            if !crate::identity::filter::ifname_is_excluded_identity_source(interface.as_str()) {
                let zone = crate::identity::filter::derive_zone_from_ifname(interface.as_str());
                let mac = crate::identity::MacAddress::from_octets(e.key.mac);
                match identities.by_mac_zone(&mac, zone.as_str()) {
                    Some(id) => {
                        let key = crate::identity::IdentityKey { mac, zone }.text();
                        let last = if e.counters.last_seen / 1_000_000 == 0 {
                            now_ms
                        } else {
                            e.counters.last_seen / 1_000_000
                        };
                        let tx = e.key.direction == super::ecm::DIR_TX;
                        proof {
                            crate::keyed::lemma_same_names(names_view(folded@), before, key@);
                        }
                        match crate::keyed::find_name(&folded, &key) {
                            Some(k) => {
                                let old_entry = folded.remove(k);
                                let updated = add_entry(old_entry.value, tx, e.counters, last);
                                let ghost uv = updated@;
                                folded.insert(k, Named { name: key, value: updated });
                                proof {
                                    assert(before[k as int].value == old_entry.value@);
                                    assert(folded_views(folded@) =~= before.update(
                                        k as int,
                                        NamedView { name: key@, value: uv },
                                    ));
                                }
                            },
                            None => {
                                let p = crate::keyed::find_insert_pos(&folded, &key);
                                let fresh = fresh_client(id, interface);
                                let updated = add_entry(fresh, tx, e.counters, last);
                                let ghost uv = updated@;
                                folded.insert(p, Named { name: key, value: updated });
                                proof {
                                    assert(folded_views(folded@) =~= before.insert(
                                        p as int,
                                        NamedView { name: key@, value: uv },
                                    ));
                                }
                            },
                        }
                        if sample_ms < last {
                            sample_ms = last;
                        }
                    },
                    None => {},
                }
            }
        }
        i += 1;
    }
    proof {
        assert(es.take(i as int) =~= es);
    }
    let exceeded = folded.len() > max_clients;
    if exceeded {
        folded.truncate(max_clients);
        proof {
            assert(folded_views(folded@) =~= fold_entries(es, nv, cs, now_ms).clients.take(max_clients as int));
        }
    }
    FoldedRead { clients: folded, sample_ms, client_limit_exceeded: exceeded }
}

/// The warnings of a snapshot, in this order: the map's iteration was cut
/// short (now or earlier in the run), clients were dropped at the limit
/// (by the fold or by the rate book), the connection overlay is missing.
pub fn snapshot_warnings(
    truncated: bool,
    sticky_truncation: bool,
    client_limit_exceeded: bool,
    rate_clients_rejected: bool,
    overlay_unavailable: bool,
) -> (r: Vec<SnapshotWarning>)
    ensures
        r@ == (if truncated || sticky_truncation {
            seq![SnapshotWarning::MapIterationTruncated]
        } else {
            Seq::empty()
        }) + (if client_limit_exceeded || rate_clients_rejected {
            seq![SnapshotWarning::ClientLimitExceeded]
        } else {
            Seq::empty()
        }) + (if overlay_unavailable {
            seq![SnapshotWarning::ConnectionOverlayUnavailable]
        } else {
            Seq::empty()
        }),
{
    let mut warnings: Vec<SnapshotWarning> = Vec::new();
    if truncated || sticky_truncation {
        warnings.push(SnapshotWarning::MapIterationTruncated);
    }
    if client_limit_exceeded || rate_clients_rejected {
        warnings.push(SnapshotWarning::ClientLimitExceeded);
    }
    if overlay_unavailable {
        warnings.push(SnapshotWarning::ConnectionOverlayUnavailable);
    }
    assert(warnings@ =~= (if truncated || sticky_truncation {
        seq![SnapshotWarning::MapIterationTruncated]
    } else {
        Seq::empty()
    }) + (if client_limit_exceeded || rate_clients_rejected {
        seq![SnapshotWarning::ClientLimitExceeded]
    } else {
        Seq::empty()
    }) + (if overlay_unavailable {
        seq![SnapshotWarning::ConnectionOverlayUnavailable]
    } else {
        Seq::empty()
    }));
    warnings
}

} // verus!
