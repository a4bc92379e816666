use lanspeedd::collectors::conntrack::aggregate::{aggregate_flows, AggregateState, AggregateStats};
use lanspeedd::collectors::conntrack::{FlowSample, IpAddress, Protocol, TcpState};
use lanspeedd::connection_details::{
    classify_connection, classify_flow_ownership, ClientConnectionDetail, ConnectionDetailsIndex,
    ConnectionDirection, ConnectionProtocol, ConnectionState, FlowOwnership,
};
use lanspeedd::identity::{IdentityObservation, IdentityTable, ObservationSource};

fn v4(a: u8, b: u8, c: u8, d: u8) -> IpAddress {
    IpAddress::V4([a, b, c, d])
}

fn v6(groups: [u16; 8]) -> IpAddress {
    let mut octets = [0u8; 16];
    for (i, group) in groups.iter().enumerate() {
        octets[2 * i] = (group >> 8) as u8;
        octets[2 * i + 1] = (group & 0xff) as u8;
    }
    IpAddress::V6(octets)
}

fn table() -> IdentityTable {
    let mut identities = IdentityTable::new(4);
    identities
        .observe(
            IdentityObservation {
                mac: "02:00:00:00:00:01",
                zone: Some("lan"),
                interface: "br-lan",
                ip: Some("192.0.2.10"),
                hostname: None,
                last_seen: 1,
                source: ObservationSource::Neighbor,
            },
        )
        .unwrap();
    identities
        .observe(
            IdentityObservation {
                mac: "02:00:00:00:00:02",
                zone: Some("lan"),
                interface: "br-lan",
                ip: Some("2001:db8::2"),
                hostname: None,
                last_seen: 1,
                source: ObservationSource::Neighbor,
            },
        )
        .unwrap();
    identities
}

fn tcp_flow(src: IpAddress, dst: IpAddress) -> FlowSample {
    FlowSample {
        orig_src: Some(src),
        orig_dst: Some(dst),
        reply_src: Some(dst),
        reply_dst: Some(src),
        orig_bytes: 100,
        reply_bytes: 250,
        orig_sport: 50_123,
        orig_dport: 443,
        reply_sport: 443,
        reply_dport: 50_123,
        protocol: Protocol::Tcp,
        tcp_state: Some(TcpState::Established),
        assured: true,
        conntrack_id: Some(9),
        conntrack_zone: Some(0),
    }
}

fn detail(remote: IpAddress, remote_port: u16, protocol: ConnectionProtocol) -> ClientConnectionDetail {
    ClientConnectionDetail {
        client_ip: v4(192, 0, 2, 10),
        client_port: 50_000,
        remote_ip: remote,
        remote_port,
        protocol,
        state: ConnectionState::Established,
        direction: ConnectionDirection::Outbound,
        tx_bps: 0,
        rx_bps: 0,
    }
}

#[test]
fn address_text_is_canonical() {
    assert_eq!(v4(192, 0, 2, 10).text(), "192.0.2.10");
    assert_eq!(v4(0, 0, 0, 0).text(), "0.0.0.0");
    assert_eq!(v6([0x2001, 0xdb8, 0, 0, 0, 0, 0, 2]).text(), "2001:db8::2");
    assert_eq!(v6([0, 0, 0, 0, 0, 0, 0, 0]).text(), "::");
    assert_eq!(v6([0, 0, 0, 0, 0, 0, 0, 1]).text(), "::1");
    assert_eq!(v6([0xfe80, 0, 0, 0, 0x1, 0, 0, 0]).text(), "fe80::1:0:0:0");
    assert_eq!(v6([1, 0, 2, 3, 4, 5, 6, 7]).text(), "1:0:2:3:4:5:6:7");
    assert_eq!(v6([1, 0, 0, 2, 0, 0, 3, 4]).text(), "1::2:0:0:3:4");
    assert_eq!(v6([0, 0, 0, 0, 0, 0xffff, 0xc000, 0x020a]).text(), "::ffff:192.0.2.10");
    assert_eq!(v6([0xabcd, 0x0123, 0, 0, 0, 0, 0xf, 0x10]).text(), "abcd:123::f:10");
}

#[test]
fn identity_lookup_by_address() {
    let identities = table();
    let owner = identities.by_ip("2001:db8::2").unwrap();
    assert_eq!(owner.key.text(), "02:00:00:00:00:02@lan");
    assert!(identities.by_ip("192.0.2.11").is_none());
}

#[test]
fn ownership_follows_the_client_side() {
    let identities = table();
    match classify_flow_ownership(&identities, &tcp_flow(v4(192, 0, 2, 10), v4(1, 1, 1, 1))) {
        FlowOwnership::Owned(owned) => {
            assert_eq!(owned.identity.key.text(), "02:00:00:00:00:01@lan");
            assert_eq!(owned.endpoints.client_ip, v4(192, 0, 2, 10));
            assert_eq!(owned.endpoints.client_port, 50_123);
            assert_eq!(owned.endpoints.remote_ip, Some(v4(1, 1, 1, 1)));
            assert_eq!(owned.direction, ConnectionDirection::Outbound);
            assert!(owned.source_side);
        }
        _ => panic!("expected an owned flow"),
    }
    match classify_flow_ownership(&identities, &tcp_flow(v4(1, 1, 1, 1), v4(192, 0, 2, 10))) {
        FlowOwnership::Owned(owned) => {
            assert_eq!(owned.direction, ConnectionDirection::Inbound);
            assert!(!owned.source_side);
            assert_eq!(owned.endpoints.client_port, 443);
        }
        _ => panic!("expected an owned flow"),
    }
    assert!(matches!(
        classify_flow_ownership(
            &identities,
            &tcp_flow(v4(192, 0, 2, 10), v6([0x2001, 0xdb8, 0, 0, 0, 0, 0, 2]))
        ),
        FlowOwnership::BothLan
    ));
    assert!(matches!(
        classify_flow_ownership(&identities, &tcp_flow(v4(8, 8, 8, 8), v4(1, 1, 1, 1))),
        FlowOwnership::NoLan
    ));
}

#[test]
fn only_assured_tcp_established_or_udp_is_listed() {
    let mut flow = tcp_flow(v4(192, 0, 2, 10), v4(1, 1, 1, 1));
    assert_eq!(
        classify_connection(&flow),
        Some((ConnectionProtocol::Tcp, ConnectionState::Established))
    );
    flow.tcp_state = Some(TcpState::TimeWait);
    assert_eq!(classify_connection(&flow), None);
    flow.protocol = Protocol::Udp;
    assert_eq!(
        classify_connection(&flow),
        Some((ConnectionProtocol::Udp, ConnectionState::Assured))
    );
    flow.assured = false;
    assert_eq!(classify_connection(&flow), None);
    flow.protocol = Protocol::Other(1);
    flow.assured = true;
    assert_eq!(classify_connection(&flow), None);
}

#[test]
fn details_are_sorted_and_truncation_is_reported() {
    let mut index = ConnectionDetailsIndex::default();
    index.record("b", detail(v4(9, 9, 9, 9), 80, ConnectionProtocol::Tcp));
    index.record("b", detail(v4(1, 1, 1, 1), 443, ConnectionProtocol::Udp));
    index.record("b", detail(v6([1, 0, 0, 0, 0, 0, 0, 0]), 1, ConnectionProtocol::Tcp));
    index.record("b", detail(v4(1, 1, 1, 1), 443, ConnectionProtocol::Tcp));
    index.record_omitted("a");
    let sets = index.finish();
    assert_eq!(sets.len(), 2);
    assert_eq!(sets[0].name, "a");
    assert_eq!(sets[0].value.total_connections, 1);
    assert!(sets[0].value.truncated);
    assert!(sets[0].value.connections.is_empty());
    assert_eq!(sets[1].name, "b");
    assert!(!sets[1].value.truncated);
    let order: Vec<(IpAddress, ConnectionProtocol)> = sets[1]
        .value
        .connections
        .iter()
        .map(|d| (d.remote_ip, d.protocol))
        .collect();
    assert_eq!(
        order,
        vec![
            (v4(1, 1, 1, 1), ConnectionProtocol::Tcp),
            (v4(1, 1, 1, 1), ConnectionProtocol::Udp),
            (v4(9, 9, 9, 9), ConnectionProtocol::Tcp),
            (v6([1, 0, 0, 0, 0, 0, 0, 0]), ConnectionProtocol::Tcp),
        ]
    );
}

#[test]
fn a_client_keeps_at_most_its_detail_limit() {
    let mut index = ConnectionDetailsIndex::default();
    for port in 0..2_049u32 {
        index.record("c", detail(v4(1, 1, 1, 1), port as u16, ConnectionProtocol::Tcp));
    }
    let sets = index.finish();
    assert_eq!(sets[0].value.total_connections, 2_049);
    assert_eq!(sets[0].value.connections.len(), 2_048);
    assert!(sets[0].value.truncated);
}

#[test]
fn aggregation_counts_bytes_connections_and_stats() {
    let identities = table();
    let mut dns = tcp_flow(v4(192, 0, 2, 10), v4(9, 9, 9, 9));
    dns.protocol = Protocol::Udp;
    dns.orig_dport = 53;
    let flows = vec![
        tcp_flow(v4(192, 0, 2, 10), v4(1, 1, 1, 1)),
        dns,
        tcp_flow(v4(8, 8, 8, 8), v4(1, 1, 1, 1)),
        tcp_flow(v4(1, 1, 1, 1), v6([0x2001, 0xdb8, 0, 0, 0, 0, 0, 2])),
    ];
    let snapshot = aggregate_flows(&identities, &flows, 91_337, 8);
    assert_eq!(snapshot.sample_ms, 91_337);
    assert_eq!(
        snapshot.stats,
        AggregateStats {
            entries_seen: 4,
            entries_matched: 3,
            skipped_no_arp: 1,
            no_lan_flows: 1,
            both_lan_flows: 0,
            src_lan_flows: 2,
            dst_lan_flows: 1,
            ipv4_lan_flows: 2,
            ipv6_lan_flows: 1,
            clients_dropped: 0,
        }
    );
    assert_eq!(snapshot.clients.len(), 2);
    let first = &snapshot.clients[0];
    assert_eq!(first.identity_key, "02:00:00:00:00:01@lan");
    assert_eq!(first.mac, "02:00:00:00:00:01");
    assert_eq!(first.ips, vec!["192.0.2.10".to_string()]);
    assert_eq!(first.tx_bytes, 200);
    assert_eq!(first.rx_bytes, 500);
    assert_eq!(first.tcp_conns, 1);
    assert_eq!(first.udp_conns, 1);
    assert_eq!(first.udp_dns_conns, 1);
    assert_eq!(first.udp_other_conns, 0);
    assert_eq!(first.last_seen_ms, 91_337);
    let second = &snapshot.clients[1];
    assert_eq!(second.tx_bytes, 250);
    assert_eq!(second.rx_bytes, 100);
    assert_eq!(snapshot.connection_details.len(), 2);
    assert_eq!(snapshot.connection_details[0].value.connections.len(), 2);
    assert_eq!(snapshot.connection_counters.len(), 3);
}

#[test]
fn aggregation_drops_new_clients_past_the_limit() {
    let identities = table();
    let mut state = AggregateState::new(&identities, 5, 1);
    state.push(&tcp_flow(v4(192, 0, 2, 10), v4(1, 1, 1, 1)));
    state.push(&tcp_flow(v6([0x2001, 0xdb8, 0, 0, 0, 0, 0, 2]), v4(1, 1, 1, 1)));
    let snapshot = state.finish();
    assert_eq!(snapshot.clients.len(), 1);
    assert_eq!(snapshot.stats.clients_dropped, 1);
    assert_eq!(snapshot.stats.entries_seen, 2);
}
