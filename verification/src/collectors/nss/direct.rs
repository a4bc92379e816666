use vstd::prelude::*;
use vstd::utf8::encode_utf8;
use crate::bytes::parse_dec;
use crate::bytes::parse_dec_bytes;
use crate::collectors::conntrack::address::{address_view, parse_ip_bytes, parse_ip_slice};
use crate::collectors::conntrack::procfs::{ascii_of, ip_of, lemma_address_view_injective, same_bytes, tag};
use crate::collectors::conntrack::IpAddress;
use crate::collectors::conntrack::aggregate::{
    client_values, copy_sample, fresh_sample, sample_values, samples_view, ClientSample, ClientSampleView,
};
use crate::collectors::conntrack::address::parse_ip;
use crate::identity::{
    identity_text, spec_parse_mac, ClientIdentity, ClientIdentityView, IdentityTable, MacAddress,
};
use crate::connection_details::owner_of;
use crate::keyed::{find_insert_pos, find_name, name_index, name_lookup, name_sorted_upsert, names_view, Named, NamedView};
use super::{parse_state_line, spec_state_line, DirectStats, NssParseError, ParseLimits, ECM_DIRECT_COUNTER_SOURCE};

verus! {

/// One connection block of the ECM state, as its fields are read.
pub struct DirectFlow {
    pub serial: Vec<u8>,
    pub sip_address: Option<IpAddress>,
    pub dip_address: Option<IpAddress>,
    pub sip_address_nat: Option<IpAddress>,
    pub dip_address_nat: Option<IpAddress>,
    pub snode_address: Option<MacAddress>,
    pub dnode_address: Option<MacAddress>,
    pub snode_address_nat: Option<MacAddress>,
    pub dnode_address_nat: Option<MacAddress>,
    pub from_data_total: Option<u64>,
    pub to_data_total: u64,
    pub protocol: u8,
}

/// A connection block with its serial and MACs taken by value.
pub struct DirectFlowView {
    pub serial: Seq<u8>,
    pub sip_address: Option<IpAddress>,
    pub dip_address: Option<IpAddress>,
    pub sip_address_nat: Option<IpAddress>,
    pub dip_address_nat: Option<IpAddress>,
    pub snode_address: Option<Seq<u8>>,
    pub dnode_address: Option<Seq<u8>>,
    pub snode_address_nat: Option<Seq<u8>>,
    pub dnode_address_nat: Option<Seq<u8>>,
    pub from_data_total: Option<u64>,
    pub to_data_total: u64,
    pub protocol: u8,
}

/// The octets of an optional MAC.
pub open spec fn opt_mac(m: Option<MacAddress>) -> Option<Seq<u8>> {
    match m {
        Some(x) => Some(x@),
        None => None,
    }
}

impl View for DirectFlow {
    type V = DirectFlowView;

    open spec fn view(&self) -> DirectFlowView {
        DirectFlowView {
            serial: self.serial@,
            sip_address: self.sip_address,
            dip_address: self.dip_address,
            sip_address_nat: self.sip_address_nat,
            dip_address_nat: self.dip_address_nat,
            snode_address: opt_mac(self.snode_address),
            dnode_address: opt_mac(self.dnode_address),
            snode_address_nat: opt_mac(self.snode_address_nat),
            dnode_address_nat: opt_mac(self.dnode_address_nat),
            from_data_total: self.from_data_total,
            to_data_total: self.to_data_total,
            protocol: self.protocol,
        }
    }
}

/// A block with nothing read yet.
pub open spec fn fresh_flow(serial: Seq<u8>) -> DirectFlowView {
    DirectFlowView {
        serial,
        sip_address: None,
        dip_address: None,
        sip_address_nat: None,
        dip_address_nat: None,
        snode_address: None,
        dnode_address: None,
        snode_address_nat: None,
        dnode_address_nat: None,
        from_data_total: None,
        to_data_total: 0,
        protocol: 0,
    }
}

/// The address a value spells, or none.
pub open spec fn value_ip(value: Seq<u8>) -> Option<IpAddress> {
    match parse_ip_bytes(value) {
        Some(a) => Some(ip_of(a)),
        None => None,
    }
}

/// The block after one field and whether the field was well formed. An
/// address, protocol or byte count that does not parse clears its field
/// and is malformed; a MAC that does not parse clears its field and is not;
/// other fields are ignored.
pub open spec fn spec_apply(f: DirectFlowView, field: Seq<u8>, value: Seq<u8>) -> (DirectFlowView, bool) {
    let ip = value_ip(value);
    let mac = spec_parse_mac(value);
    if field == ascii_of("sip_address"@) {
        (DirectFlowView { sip_address: ip, ..f }, ip is Some)
    } else if field == ascii_of("dip_address"@) {
        (DirectFlowView { dip_address: ip, ..f }, ip is Some)
    } else if field == ascii_of("sip_address_nat"@) {
        (DirectFlowView { sip_address_nat: ip, ..f }, ip is Some)
    } else if field == ascii_of("dip_address_nat"@) {
        (DirectFlowView { dip_address_nat: ip, ..f }, ip is Some)
    } else if field == ascii_of("snode_address"@) {
        (DirectFlowView { snode_address: mac, ..f }, true)
    } else if field == ascii_of("dnode_address"@) {
        (DirectFlowView { dnode_address: mac, ..f }, true)
    } else if field == ascii_of("snode_address_nat"@) {
        (DirectFlowView { snode_address_nat: mac, ..f }, true)
    } else if field == ascii_of("dnode_address_nat"@) {
        (DirectFlowView { dnode_address_nat: mac, ..f }, true)
    } else if field == ascii_of("protocol"@) {
        match parse_dec(value, 255) {
            Some(n) => (DirectFlowView { protocol: n as u8, ..f }, true),
            None => (DirectFlowView { protocol: 0, ..f }, false),
        }
    } else if field == ascii_of("adv_stats.from_data_total"@) {
        match parse_dec(value, u64::MAX as nat) {
            Some(n) => (DirectFlowView { from_data_total: Some(n as u64), ..f }, true),
            None => (DirectFlowView { from_data_total: None, ..f }, false),
        }
    } else if field == ascii_of("adv_stats.to_data_total"@) {
        match parse_dec(value, u64::MAX as nat) {
            Some(n) => (DirectFlowView { to_data_total: n as u64, ..f }, true),
            None => (DirectFlowView { to_data_total: 0, ..f }, false),
        }
    } else {
        (f, true)
    }
}

fn value_address(value: &[u8]) -> (r: Option<IpAddress>)
    ensures
        r == value_ip(value@),
{
    let a = parse_ip_slice(value);
    proof {
        if let Some(x) = a {
            let v = address_view(x);
            assert(exists|c: IpAddress| address_view(c) == v);
            let c = choose|c: IpAddress| address_view(c) == v;
            lemma_address_view_injective(c, x);
        }
    }
    a
}

impl DirectFlow {
    pub fn new(serial: &[u8]) -> (r: Self)
        ensures
            r@ == fresh_flow(serial@),
    {
        let mut copy: Vec<u8> = Vec::new();
        let mut i: usize = 0;
        while i < serial.len()
            invariant
                i <= serial@.len(),
                copy@ == serial@.take(i as int),
            decreases serial@.len() - i,
        {
            copy.push(serial[i]);
            assert(serial@.take(i + 1) =~= serial@.take(i as int).push(serial@[i as int]));
            i += 1;
        }
        assert(serial@.take(i as int) =~= serial@);
        DirectFlow {
            serial: copy,
            sip_address: None,
            dip_address: None,
            sip_address_nat: None,
            dip_address_nat: None,
            snode_address: None,
            dnode_address: None,
            snode_address_nat: None,
            dnode_address_nat: None,
            from_data_total: None,
            to_data_total: 0,
            protocol: 0,
        }
    }

    /// Takes one field of the block; false when its value is malformed.
    pub fn apply(&mut self, field: &[u8], value: &[u8]) -> (r: bool)
        ensures
            (final(self)@, r) == spec_apply(old(self)@, field@, value@),
    {
        if same_bytes(field, tag("sip_address").as_slice()) {
            self.sip_address = value_address(value);
            self.sip_address.is_some()
        } else if same_bytes(field, tag("dip_address").as_slice()) {
            self.dip_address = value_address(value);
            self.dip_address.is_some()
        } else if same_bytes(field, tag("sip_address_nat").as_slice()) {
            self.sip_address_nat = value_address(value);
            self.sip_address_nat.is_some()
        } else if same_bytes(field, tag("dip_address_nat").as_slice()) {
            self.dip_address_nat = value_address(value);
            self.dip_address_nat.is_some()
        } else if same_bytes(field, tag("snode_address").as_slice()) {
            self.snode_address = MacAddress::parse_bytes(value);
            true
        } else if same_bytes(field, tag("dnode_address").as_slice()) {
            self.dnode_address = MacAddress::parse_bytes(value);
            true
        } else if same_bytes(field, tag("snode_address_nat").as_slice()) {
            self.snode_address_nat = MacAddress::parse_bytes(value);
            true
        } else if same_bytes(field, tag("dnode_address_nat").as_slice()) {
            self.dnode_address_nat = MacAddress::parse_bytes(value);
            true
        } else if same_bytes(field, tag("protocol").as_slice()) {
            match parse_dec_bytes(value, 255) {
                Some(n) => {
                    self.protocol = n as u8;
                    true
                },
                None => {
                    self.protocol = 0;
                    false
                },
            }
        } else if same_bytes(field, tag("adv_stats.from_data_total").as_slice()) {
            match parse_dec_bytes(value, u64::MAX) {
                Some(n) => {
                    self.from_data_total = Some(n);
                    true
                },
                None => {
                    self.from_data_total = None;
                    false
                },
            }
        } else if same_bytes(field, tag("adv_stats.to_data_total").as_slice()) {
            match parse_dec_bytes(value, u64::MAX) {
                Some(n) => {
                    self.to_data_total = n;
                    true
                },
                None => {
                    self.to_data_total = 0;
                    false
                },
            }
        } else {
            true
        }
    }
}

// ---------------------------------------------------------------------------
// Which client an endpoint belongs to
// ---------------------------------------------------------------------------

/// The address a text spells, or none.
pub open spec fn text_ip(t: Seq<char>) -> Option<IpAddress> {
    value_ip(encode_utf8(t))
}

fn text_address(text: &str) -> (r: Option<IpAddress>)
    ensures
        r == text_ip(text@),
{
    let a = parse_ip(text);
    proof {
        if let Some(x) = a {
            let v = address_view(x);
            assert(exists|c: IpAddress| address_view(c) == v);
            let c = choose|c: IpAddress| address_view(c) == v;
            lemma_address_view_injective(c, x);
        }
    }
    a
}

/// The first of a client's addresses, from the `k`-th on, that parses.
pub open spec fn first_ip_from(ips: Seq<Seq<char>>, k: int) -> Option<IpAddress>
    decreases ips.len() - k,
{
    if k < 0 || k >= ips.len() {
        None
    } else {
        match text_ip(ips[k]) {
            Some(a) => Some(a),
            None => first_ip_from(ips, k + 1),
        }
    }
}

fn first_address(ips: &Vec<String>) -> (r: Option<IpAddress>)
    ensures
        r == first_ip_from(crate::identity::texts_of(ips@), 0),
{
    let ghost t = crate::identity::texts_of(ips@);
    let mut k: usize = 0;
    while k < ips.len()
        invariant
            t == crate::identity::texts_of(ips@),
            k <= ips@.len(),
            first_ip_from(t, 0) == first_ip_from(t, k as int),
        decreases ips@.len() - k,
    {
        let a = text_address(ips[k].as_str());
        if a.is_some() {
            return a;
        }
        k += 1;
    }
    None
}

/// `i` is the first client with MAC `m`.
pub open spec fn is_first_mac(cs: Seq<ClientIdentityView>, m: Seq<u8>, i: int) -> bool {
    &&& 0 <= i < cs.len()
    &&& cs[i].mac == m
    &&& forall|j: int| 0 <= j < i ==> cs[j].mac != m
}

/// The first client with MAC `m`, or -1.
pub open spec fn mac_index(cs: Seq<ClientIdentityView>, m: Seq<u8>) -> int {
    if exists|i: int| is_first_mac(cs, m, i) {
        choose|i: int| is_first_mac(cs, m, i)
    } else {
        -1
    }
}

/// The owner of an endpoint and the address it was found by: the client
/// listing the address, else the one listing the NAT address, else the
/// first client with the node MAC, with the first of its addresses that
/// parses.
pub open spec fn spec_endpoint_owner(cs: Seq<ClientIdentityView>, address: Option<IpAddress>, nat_address: Option<IpAddress>, node_mac: Option<Seq<u8>>) -> Option<(int, Option<IpAddress>)> {
    if owner_of(cs, address) >= 0 {
        Some((owner_of(cs, address), address))
    } else if owner_of(cs, nat_address) >= 0 {
        Some((owner_of(cs, nat_address), nat_address))
    } else {
        match node_mac {
            Some(m) => if mac_index(cs, m) >= 0 {
                Some((mac_index(cs, m), first_ip_from(cs[mac_index(cs, m)].ips, 0)))
            } else {
                None
            },
            None => None,
        }
    }
}

fn owner_by_address<'a>(table: &'a IdentityTable, address: Option<IpAddress>) -> (r: Option<&'a ClientIdentity>)
    ensures
        match r {
            Some(c) => owner_of(table@.clients, address) >= 0 && c@ == table@.clients[owner_of(table@.clients, address)],
            None => owner_of(table@.clients, address) == -1,
        },
{
    match address {
        Some(a) => {
            let text = a.text();
            table.by_ip(text.as_str())
        },
        None => None,
    }
}

fn endpoint_owner<'a>(identities: &'a IdentityTable, address: Option<IpAddress>, nat_address: Option<IpAddress>, node_mac: Option<MacAddress>) -> (r: Option<(&'a ClientIdentity, Option<IpAddress>)>)
    ensures
        match spec_endpoint_owner(identities@.clients, address, nat_address, opt_mac(node_mac)) {
            Some((i, a)) => r matches Some((c, b)) && 0 <= i < identities@.clients.len() && c@ == identities@.clients[i] && b == a,
            None => r is None,
        },
{
    if let Some(c) = owner_by_address(identities, address) {
        return Some((c, address));
    }
    if let Some(c) = owner_by_address(identities, nat_address) {
        return Some((c, nat_address));
    }
    let mac = match node_mac {
        Some(m) => m,
        None => {
            return None;
        },
    };
    let clients = identities.clients();
    let ghost cs = identities@.clients;
    assert(clients@.map_values(|c: ClientIdentity| c@) == cs);
    let mut i: usize = 0;
    while i < clients.len()
        invariant
            cs == identities@.clients,
            clients@.map_values(|c: ClientIdentity| c@) == cs,
            i <= clients@.len(),
            forall|j: int| 0 <= j < i ==> cs[j].mac != mac@,
            owner_of(cs, address) == -1,
            owner_of(cs, nat_address) == -1,
            node_mac == Some(mac),
        decreases clients@.len() - i,
    {
        let o = clients[i].key.mac.octets();
        let m = mac.octets();
        assert(cs[i as int] == clients@[i as int]@);
        if o[0] == m[0] && o[1] == m[1] && o[2] == m[2] && o[3] == m[3] && o[4] == m[4] && o[5] == m[5] {
            proof {
                clients@[i as int].key.mac.lemma_view_len();
                mac.lemma_view_len();
                assert(o@ =~= m@);
                assert(is_first_mac(cs, mac@, i as int));
                let f = choose|f: int| is_first_mac(cs, mac@, f);
                if f < i {
                    assert(cs[f].mac != mac@);
                } else if f > i {
                    assert(cs[i as int].mac == mac@);
                }
            }
            let address = first_address(&clients[i].ips);
            return Some((&clients[i], address));
        }
        proof {
            if cs[i as int].mac == mac@ {
                assert(o@ == m@);
                assert(o[0] == o@[0]);
            }
        }
        i += 1;
    }
    None
}

// ---------------------------------------------------------------------------
// Folding blocks into client samples
// ---------------------------------------------------------------------------

/// The samples and counts of a direct read so far.
pub struct DirectState {
    pub clients: Seq<NamedView<ClientSampleView>>,
    pub stats: DirectStats,
}

/// The first of two optional MACs that is there.
pub open spec fn or_mac(a: Option<Seq<u8>>, b: Option<Seq<u8>>) -> Option<Seq<u8>> {
    match a {
        Some(m) => Some(m),
        None => b,
    }
}

/// The state after one finished block. A block without a source address or
/// a sent byte count only counts; a block between two LAN clients or of no
/// client counts as such; a block of a new client past the limit is
/// dropped. Otherwise the owner's sample takes the block's bytes from the
/// client's side, one TCP or UDP connection by protocol, and the read's
/// time.
pub open spec fn spec_finish_flow(st: DirectState, f: DirectFlowView, cs: Seq<ClientIdentityView>, now_ms: u64, max_clients: usize) -> DirectState {
    let seen = DirectStats { entries_seen: st.stats.entries_seen.saturating_add(1), ..st.stats };
    match f.from_data_total {
        None => DirectState { stats: seen, ..st },
        Some(from) => if f.sip_address is None && f.sip_address_nat is None {
            DirectState { stats: seen, ..st }
        } else {
            let src = spec_endpoint_owner(cs, f.sip_address, f.sip_address_nat, or_mac(f.snode_address, f.snode_address_nat));
            let dst = spec_endpoint_owner(cs, f.dip_address, f.dip_address_nat, or_mac(f.dnode_address, f.dnode_address_nat));
            if src is Some && dst is Some {
                DirectState { stats: DirectStats { both_lan_flows: seen.both_lan_flows.saturating_add(1), ..seen }, ..st }
            } else if src is None && dst is None {
                DirectState {
                    stats: DirectStats {
                        skipped_no_arp: seen.skipped_no_arp.saturating_add(1),
                        no_lan_flows: seen.no_lan_flows.saturating_add(1),
                        ..seen
                    },
                    ..st
                }
            } else {
                let source_side = src is Some;
                let e = if source_side { src.unwrap() } else { dst.unwrap() };
                let c = cs[e.0];
                let key = identity_text(c.mac, c.zone);
                if name_index(st.clients, key) < 0 && st.clients.len() >= max_clients {
                    DirectState { stats: DirectStats { clients_dropped: seen.clients_dropped.saturating_add(1), ..seen }, ..st }
                } else {
                    let before = match name_lookup(st.clients, key) {
                        Some(x) => x,
                        None => fresh_sample(c, key, now_ms),
                    };
                    let tx = if source_side { from } else { f.to_data_total };
                    let rx = if source_side { f.to_data_total } else { from };
                    let moved = ClientSampleView {
                        tx_bytes: before.tx_bytes.saturating_add(tx),
                        rx_bytes: before.rx_bytes.saturating_add(rx),
                        last_seen_ms: now_ms,
                        ..before
                    };
                    let sample = if f.protocol == 6 {
                        ClientSampleView { tcp_conns: moved.tcp_conns.saturating_add(1), ..moved }
                    } else if f.protocol == 17 {
                        ClientSampleView {
                            udp_conns: moved.udp_conns.saturating_add(1),
                            udp_other_conns: moved.udp_other_conns.saturating_add(1),
                            ..moved
                        }
                    } else {
                        moved
                    };
                    let matched = DirectStats { entries_matched: seen.entries_matched.saturating_add(1), ..seen };
                    let sided = if source_side {
                        DirectStats { src_lan_flows: matched.src_lan_flows.saturating_add(1), ..matched }
                    } else {
                        DirectStats { dst_lan_flows: matched.dst_lan_flows.saturating_add(1), ..matched }
                    };
                    let family = if e.1 matches Some(IpAddress::V6(_)) {
                        DirectStats { ipv6_lan_flows: sided.ipv6_lan_flows.saturating_add(1), ..sided }
                    } else {
                        DirectStats { ipv4_lan_flows: sided.ipv4_lan_flows.saturating_add(1), ..sided }
                    };
                    DirectState { clients: name_sorted_upsert(st.clients, key, sample), stats: family }
                }
            }
        },
    }
}

/// The client a block belongs to, when exactly one of its ends is a LAN
/// client: that end's owner, and whether it is the source end.
pub open spec fn block_owner(f: DirectFlowView, cs: Seq<ClientIdentityView>) -> Option<(int, bool)> {
    let src = spec_endpoint_owner(cs, f.sip_address, f.sip_address_nat, or_mac(f.snode_address, f.snode_address_nat));
    let dst = spec_endpoint_owner(cs, f.dip_address, f.dip_address_nat, or_mac(f.dnode_address, f.dnode_address_nat));
    match (src, dst) {
        (Some(e), None) => Some((e.0, true)),
        (None, Some(e)) => Some((e.0, false)),
        _ => None,
    }
}

/// A block counted for the one client at one of its ends adds to that
/// client's upload the bytes its own end sent, and to its download those
/// it received: the source end sends the block's `from_data_total`, the
/// destination end its `to_data_total`. The block counts as a source- or
/// destination-side flow accordingly.
pub proof fn lemma_block_bytes_by_side(
    st: DirectState,
    f: DirectFlowView,
    cs: Seq<ClientIdentityView>,
    now_ms: u64,
    max_clients: usize,
)
    requires
        f.from_data_total is Some,
        f.sip_address is Some || f.sip_address_nat is Some,
        block_owner(f, cs) is Some,
        ({
            let o = block_owner(f, cs)->0;
            let c = cs[o.0];
            name_index(st.clients, identity_text(c.mac, c.zone)) >= 0 || st.clients.len() < max_clients
        }),
    ensures
        ({
            let (index, at_source) = block_owner(f, cs)->0;
            let c = cs[index];
            let key = identity_text(c.mac, c.zone);
            let before = match name_lookup(st.clients, key) {
                Some(x) => x,
                None => fresh_sample(c, key, now_ms),
            };
            let sent = if at_source {
                f.from_data_total->0
            } else {
                f.to_data_total
            };
            let received = if at_source {
                f.to_data_total
            } else {
                f.from_data_total->0
            };
            let after = spec_finish_flow(st, f, cs, now_ms, max_clients);
            &&& name_lookup(after.clients, key) matches Some(x) && x.tx_bytes == before.tx_bytes.saturating_add(
                sent,
            ) && x.rx_bytes == before.rx_bytes.saturating_add(received)
            &&& !at_source ==> after.stats.dst_lan_flows == st.stats.dst_lan_flows.saturating_add(1)
                && after.stats.src_lan_flows == st.stats.src_lan_flows
            &&& at_source ==> after.stats.src_lan_flows == st.stats.src_lan_flows.saturating_add(1)
                && after.stats.dst_lan_flows == st.stats.dst_lan_flows
        }),
{
    let (index, at_source) = block_owner(f, cs)->0;
    let c = cs[index];
    let key = identity_text(c.mac, c.zone);
    let from = f.from_data_total->0;
    let before = match name_lookup(st.clients, key) {
        Some(x) => x,
        None => fresh_sample(c, key, now_ms),
    };
    let tx = if at_source { from } else { f.to_data_total };
    let rx = if at_source { f.to_data_total } else { from };
    let moved = ClientSampleView {
        tx_bytes: before.tx_bytes.saturating_add(tx),
        rx_bytes: before.rx_bytes.saturating_add(rx),
        last_seen_ms: now_ms,
        ..before
    };
    let sample = if f.protocol == 6 {
        ClientSampleView { tcp_conns: moved.tcp_conns.saturating_add(1), ..moved }
    } else if f.protocol == 17 {
        ClientSampleView {
            udp_conns: moved.udp_conns.saturating_add(1),
            udp_other_conns: moved.udp_other_conns.saturating_add(1),
            ..moved
        }
    } else {
        moved
    };
    crate::keyed::lemma_name_sorted_upsert_lookup(st.clients, key, sample);
}

fn or_mac_of(a: Option<MacAddress>, b: Option<MacAddress>) -> (r: Option<MacAddress>)
    ensures
        opt_mac(r) == or_mac(opt_mac(a), opt_mac(b)),
{
    match a {
        Some(m) => Some(m),
        None => b,
    }
}

#[verifier::rlimit(40)]
fn finish_flow(flow: &DirectFlow, identities: &IdentityTable, now_ms: u64, max_clients: usize, clients: &mut Vec<Named<ClientSample>>, stats: &mut DirectStats)
    ensures
        ({
            let st = spec_finish_flow(
                DirectState { clients: samples_view(old(clients)@), stats: *old(stats) },
                flow@,
                identities@.clients,
                now_ms,
                max_clients,
            );
            &&& samples_view(final(clients)@) == st.clients
            &&& *final(stats) == st.stats
        }),
{
    stats.entries_seen = stats.entries_seen.saturating_add(1);
    let from_data_total = match flow.from_data_total {
        Some(v) => v,
        None => {
            return;
        },
    };
    if flow.sip_address.is_none() && flow.sip_address_nat.is_none() {
        return;
    }
    let src = endpoint_owner(
        identities,
        flow.sip_address,
        flow.sip_address_nat,
        or_mac_of(flow.snode_address, flow.snode_address_nat),
    );
    let dst = endpoint_owner(
        identities,
        flow.dip_address,
        flow.dip_address_nat,
        or_mac_of(flow.dnode_address, flow.dnode_address_nat),
    );
    if src.is_some() && dst.is_some() {
        stats.both_lan_flows = stats.both_lan_flows.saturating_add(1);
        return;
    }
    let (identity, address, source_side) = match (src, dst) {
        (Some((c, a)), None) => (c, a, true),
        (None, Some((c, a))) => (c, a, false),
        _ => {
            stats.skipped_no_arp = stats.skipped_no_arp.saturating_add(1);
            stats.no_lan_flows = stats.no_lan_flows.saturating_add(1);
            return;
        },
    };
    let key = identity.key.text();
    let ghost names = samples_view(clients@);
    proof {
        crate::keyed::lemma_same_names(names_view(clients@), names, key@);
    }
    let found = find_name(clients, &key);
    if found.is_none() && clients.len() >= max_clients {
        stats.clients_dropped = stats.clients_dropped.saturating_add(1);
        return;
    }
    let p = find_insert_pos(clients, &key);
    let mut entry = match found {
        Some(i) => clients.remove(i),
        None => Named {
            name: key.clone(),
            value: ClientSample {
                mac: identity.key.mac.text(),
                identity_key: key.clone(),
                zone: identity.key.zone.clone(),
                interface: identity.interface.clone(),
                ips: crate::identity::clone_text_list(&identity.ips),
                tx_bytes: 0,
                rx_bytes: 0,
                last_seen_ms: now_ms,
                tcp_conns: 0,
                udp_conns: 0,
                udp_dns_conns: 0,
                udp_other_conns: 0,
            },
        },
    };
    let (tx, rx) = if source_side {
        (from_data_total, flow.to_data_total)
    } else {
        (flow.to_data_total, from_data_total)
    };
    entry.value.tx_bytes = entry.value.tx_bytes.saturating_add(tx);
    entry.value.rx_bytes = entry.value.rx_bytes.saturating_add(rx);
    entry.value.last_seen_ms = now_ms;
    if flow.protocol == 6 {
        entry.value.tcp_conns = entry.value.tcp_conns.saturating_add(1);
    } else if flow.protocol == 17 {
        entry.value.udp_conns = entry.value.udp_conns.saturating_add(1);
        entry.value.udp_other_conns = entry.value.udp_other_conns.saturating_add(1);
    }
    let ghost sample = entry.value@;
    match found {
        Some(i) => {
            clients.insert(i, entry);
            assert(samples_view(clients@) =~= names.update(i as int, NamedView { name: key@, value: sample }));
        },
        None => {
            clients.insert(p, entry);
            assert(samples_view(clients@) =~= names.insert(p as int, NamedView { name: key@, value: sample }));
        },
    }
    stats.entries_matched = stats.entries_matched.saturating_add(1);
    if source_side {
        stats.src_lan_flows = stats.src_lan_flows.saturating_add(1);
    } else {
        stats.dst_lan_flows = stats.dst_lan_flows.saturating_add(1);
    }
    let ipv6 = match address {
        Some(IpAddress::V6(_)) => true,
        _ => false,
    };
    if ipv6 {
        stats.ipv6_lan_flows = stats.ipv6_lan_flows.saturating_add(1);
    } else {
        stats.ipv4_lan_flows = stats.ipv4_lan_flows.saturating_add(1);
    }
}

// ---------------------------------------------------------------------------
// Reading the whole state
// ---------------------------------------------------------------------------

/// What reading the state's lines has gathered: the block being read, the
/// finished blocks, and how many lines and blocks were seen.
pub struct ReaderState {
    pub active: Option<DirectFlowView>,
    pub direct: DirectState,
    pub physical: usize,
    pub connections: usize,
}

/// Why a direct read stopped.
pub enum DirectFault {
    LineLimit(usize),
    ConnectionLimit(usize),
}

/// One more malformed line.
pub open spec fn malformed(d: DirectState) -> DirectState {
    DirectState { stats: DirectStats { malformed_lines: d.stats.malformed_lines.saturating_add(1), ..d.stats }, ..d }
}

/// The state after one line. Too many lines stop the read; a cut or
/// unreadable line is malformed; a line of another block finishes the block
/// being read and, within the block limit, starts a new one; the field is
/// applied to the block.
pub open spec fn spec_line_step(rs: ReaderState, line: (Seq<u8>, bool), cs: Seq<ClientIdentityView>, now_ms: u64, max_clients: usize, limits: ParseLimits) -> Result<ReaderState, DirectFault> {
    let physical = rs.physical.saturating_add(1);
    if physical > limits.max_lines {
        Err(DirectFault::LineLimit(limits.max_lines))
    } else if line.1 {
        Ok(ReaderState { physical, direct: malformed(rs.direct), ..rs })
    } else {
        match spec_state_line(line.0) {
            None => Ok(ReaderState { physical, direct: malformed(rs.direct), ..rs }),
            Some((serial, field, value)) => {
                let switch = rs.active matches Some(a) && a.serial != serial;
                let direct = if switch {
                    spec_finish_flow(rs.direct, rs.active.unwrap(), cs, now_ms, max_clients)
                } else {
                    rs.direct
                };
                let active = if switch { None } else { rs.active };
                if active is None {
                    let connections = rs.connections.saturating_add(1);
                    if connections > limits.max_connections {
                        Err(DirectFault::ConnectionLimit(limits.max_connections))
                    } else {
                        let applied = spec_apply(fresh_flow(serial), field, value);
                        Ok(
                            ReaderState {
                                active: Some(applied.0),
                                direct: if applied.1 { direct } else { malformed(direct) },
                                physical,
                                connections,
                            },
                        )
                    }
                } else {
                    let applied = spec_apply(active.unwrap(), field, value);
                    Ok(
                        ReaderState {
                            active: Some(applied.0),
                            direct: if applied.1 { direct } else { malformed(direct) },
                            physical,
                            connections: rs.connections,
                        },
                    )
                }
            },
        }
    }
}

/// The state after the first `k` lines, or the fault that stopped the read.
pub open spec fn spec_read(rs: ReaderState, lines: Seq<(Seq<u8>, bool)>, k: nat, cs: Seq<ClientIdentityView>, now_ms: u64, max_clients: usize, limits: ParseLimits) -> Result<ReaderState, DirectFault>
    decreases k,
{
    if k == 0 || k > lines.len() {
        Ok(rs)
    } else {
        match spec_read(rs, lines, (k - 1) as nat, cs, now_ms, max_clients, limits) {
            Ok(s) => spec_line_step(s, lines[k - 1], cs, now_ms, max_clients, limits),
            Err(e) => Err(e),
        }
    }
}

proof fn lemma_read_stops(rs: ReaderState, lines: Seq<(Seq<u8>, bool)>, k: nat, m: nat, cs: Seq<ClientIdentityView>, now_ms: u64, max_clients: usize, limits: ParseLimits)
    requires
        k <= m <= lines.len(),
        spec_read(rs, lines, k, cs, now_ms, max_clients, limits) is Err,
    ensures
        spec_read(rs, lines, m, cs, now_ms, max_clients, limits) == spec_read(rs, lines, k, cs, now_ms, max_clients, limits),
    decreases m - k,
{
    if m > k {
        lemma_read_stops(rs, lines, k, (m - 1) as nat, cs, now_ms, max_clients, limits);
    }
}

/// The counts and samples once the last block is finished.
pub open spec fn spec_read_end(rs: ReaderState, cs: Seq<ClientIdentityView>, now_ms: u64, max_clients: usize) -> DirectState {
    match rs.active {
        Some(a) => spec_finish_flow(rs.direct, a, cs, now_ms, max_clients),
        None => rs.direct,
    }
}

/// The warnings of a direct read: malformed lines, flows without a LAN
/// identity, and no client at all.
pub open spec fn direct_warnings(stats: DirectStats, no_clients: bool) -> Seq<Seq<char>> {
    let a = if stats.malformed_lines != 0 {
        seq!["nss_ecm_direct_parse_errors"@]
    } else {
        Seq::empty()
    };
    let b = if stats.skipped_no_arp != 0 {
        a.push("skip_nss_ecm_direct_flow_without_lan_identity"@)
    } else {
        a
    };
    if no_clients {
        b.push("nss_direct_no_data"@)
    } else {
        b
    }
}

/// The client samples of one direct read of the ECM state.
#[derive(Clone, Debug, Eq, PartialEq)]
pub struct DirectSnapshot {
    pub clients: Vec<ClientSample>,
    pub source_path: String,
    pub counter_source: &'static str,
    pub warnings: Vec<&'static str>,
    pub stats: DirectStats,
}

/// The start of a read.
pub open spec fn reader_start() -> ReaderState {
    ReaderState {
        active: None,
        direct: DirectState {
            clients: Seq::empty(),
            stats: DirectStats {
                entries_seen: 0,
                entries_matched: 0,
                skipped_no_arp: 0,
                no_lan_flows: 0,
                both_lan_flows: 0,
                src_lan_flows: 0,
                dst_lan_flows: 0,
                ipv4_lan_flows: 0,
                ipv6_lan_flows: 0,
                malformed_lines: 0,
                clients_dropped: 0,
                current_clients: 0,
            },
        },
        physical: 0,
        connections: 0,
    }
}

/// The lines of a read, each with whether it was cut at the line limit.
pub open spec fn direct_lines_view(v: Seq<(Vec<u8>, bool)>) -> Seq<(Seq<u8>, bool)> {
    v.map_values(|l: (Vec<u8>, bool)| (l.0@, l.1))
}

/// The view of an optional block.
pub open spec fn opt_flow(f: Option<DirectFlow>) -> Option<DirectFlowView> {
    match f {
        Some(x) => Some(x@),
        None => None,
    }
}

fn mark_malformed(stats: &mut DirectStats)
    ensures
        *final(stats) == (DirectStats { malformed_lines: old(stats).malformed_lines.saturating_add(1), ..*old(stats) }),
{
    stats.malformed_lines = stats.malformed_lines.saturating_add(1);
}

/// Reads every line of the ECM state into per-client samples: blocks of
/// one connection are folded as they end, within the line and block limits.
pub fn parse_direct_reader(lines: &Vec<(Vec<u8>, bool)>, source_path: &str, identities: &IdentityTable, now_ms: u64, max_clients: usize, limits: ParseLimits) -> (r: Result<DirectSnapshot, NssParseError>)
    ensures
        ({
            let lv = direct_lines_view(lines@);
            let cs = identities@.clients;
            match spec_read(reader_start(), lv, lv.len(), cs, now_ms, max_clients, limits) {
                Err(DirectFault::LineLimit(n)) => r matches Err(NssParseError::LineLimit(m)) && m == n,
                Err(DirectFault::ConnectionLimit(n)) => r matches Err(NssParseError::ConnectionLimit(m)) && m == n,
                Ok(rs) => {
                    let end = spec_read_end(rs, cs, now_ms, max_clients);
                    &&& r is Ok
                    &&& client_values(r->Ok_0.clients@) == sample_values(end.clients)
                    &&& r->Ok_0.stats == (DirectStats { current_clients: end.clients.len() as usize, ..end.stats })
                    &&& r->Ok_0.source_path@ == source_path@
                    &&& r->Ok_0.counter_source == ECM_DIRECT_COUNTER_SOURCE
                    &&& r->Ok_0.warnings@.map_values(|w: &str| w@) == direct_warnings(end.stats, end.clients.len() == 0)
                },
            }
        }),
{
    let ghost lv = direct_lines_view(lines@);
    let ghost cs = identities@.clients;
    let mut active: Option<DirectFlow> = None;
    let mut clients: Vec<Named<ClientSample>> = Vec::new();
    let mut stats = DirectStats {
        entries_seen: 0,
        entries_matched: 0,
        skipped_no_arp: 0,
        no_lan_flows: 0,
        both_lan_flows: 0,
        src_lan_flows: 0,
        dst_lan_flows: 0,
        ipv4_lan_flows: 0,
        ipv6_lan_flows: 0,
        malformed_lines: 0,
        clients_dropped: 0,
        current_clients: 0,
    };
    let mut physical: usize = 0;
    let mut connections: usize = 0;
    assert(samples_view(clients@) =~= Seq::<NamedView<ClientSampleView>>::empty());
    let mut i: usize = 0;
    while i < lines.len()
        invariant
            lv == direct_lines_view(lines@),
            cs == identities@.clients,
            i <= lines@.len(),
            spec_read(reader_start(), lv, i as nat, cs, now_ms, max_clients, limits) == Ok::<ReaderState, DirectFault>(
                ReaderState {
                    active: opt_flow(active),
                    direct: DirectState { clients: samples_view(clients@), stats },
                    physical,
                    connections,
                },
            ),
        decreases lines@.len() - i,
    {
        let ghost before = ReaderState {
            active: opt_flow(active),
            direct: DirectState { clients: samples_view(clients@), stats },
            physical,
            connections,
        };
        assert(lv[i as int] == (lines@[i as int].0@, lines@[i as int].1));
        physical = physical.saturating_add(1);
        if physical > limits.max_lines {
            proof {
                lemma_read_stops(reader_start(), lv, (i + 1) as nat, lv.len(), cs, now_ms, max_clients, limits);
            }
            return Err(NssParseError::LineLimit(limits.max_lines));
        }
        let line = &lines[i];
        if line.1 {
            mark_malformed(&mut stats);
        } else {
            match parse_state_line(line.0.as_slice()) {
                None => {
                    mark_malformed(&mut stats);
                },
                Some((serial, field, value)) => {
                    let mut current: Option<DirectFlow> = None;
                    match active {
                        Some(f) => {
                            if same_bytes(f.serial.as_slice(), serial.as_slice()) {
                                current = Some(f);
                            } else {
                                finish_flow(&f, identities, now_ms, max_clients, &mut clients, &mut stats);
                            }
                        },
                        None => {},
                    }
                    active = None;
                    let mut flow = match current {
                        Some(f) => f,
                        None => {
                            connections = connections.saturating_add(1);
                            if connections > limits.max_connections {
                                proof {
                                    lemma_read_stops(reader_start(), lv, (i + 1) as nat, lv.len(), cs, now_ms, max_clients, limits);
                                }
                                return Err(NssParseError::ConnectionLimit(limits.max_connections));
                            }
                            DirectFlow::new(serial.as_slice())
                        },
                    };
                    if !flow.apply(field.as_slice(), value.as_slice()) {
                        mark_malformed(&mut stats);
                    }
                    active = Some(flow);
                },
            }
        }
        i += 1;
    }
    match active {
        Some(f) => {
            finish_flow(&f, identities, now_ms, max_clients, &mut clients, &mut stats);
        },
        None => {},
    }
    let ghost names = samples_view(clients@);
    let mut out: Vec<ClientSample> = Vec::new();
    let mut k: usize = 0;
    while k < clients.len()
        invariant
            names == samples_view(clients@),
            k <= clients@.len(),
            client_values(out@) == sample_values(names).take(k as int),
        decreases clients@.len() - k,
    {
        let value = copy_sample(&clients[k].value);
        let ghost prior = client_values(out@);
        out.push(value);
        assert(client_values(out@) =~= prior.push(clients@[k as int].value@));
        assert(sample_values(names).take(k + 1) =~= sample_values(names).take(k as int).push(
            clients@[k as int].value@,
        ));
        k += 1;
    }
    assert(sample_values(names).take(k as int) =~= sample_values(names));
    stats.current_clients = out.len();
    let mut warnings: Vec<&'static str> = Vec::new();
    if stats.malformed_lines != 0 {
        warnings.push("nss_ecm_direct_parse_errors");
    }
    if stats.skipped_no_arp != 0 {
        warnings.push("skip_nss_ecm_direct_flow_without_lan_identity");
    }
    if out.len() == 0 {
        warnings.push("nss_direct_no_data");
    }
    Ok(
        DirectSnapshot {
            clients: out,
            source_path: source_path.to_owned(),
            counter_source: ECM_DIRECT_COUNTER_SOURCE,
            warnings,
            stats,
        },
    )
}

} // verus!
