use lanspeedd::collectors::conntrack::address::parse_ip;
use lanspeedd::collectors::conntrack::aggregate::aggregate_flows;
use lanspeedd::collectors::conntrack::netlink::{NetlinkAggregateSnapshot, NetlinkSnapshot};
use lanspeedd::collectors::conntrack::procfs::{
    aggregate_reader, parse_line, parse_reader, parse_tcp_state, ProcfsError,
};
use lanspeedd::collectors::conntrack::{
    collect_aggregate_with, collect_with, finish_netlink, CollectorMode, CollectorReadError,
    FlowSample, IpAddress, Protocol, TcpState, NETLINK_COUNTER_SOURCE, NETLINK_SOURCE_PATH,
    PROCFS_COUNTER_SOURCE,
};
use lanspeedd::identity::{IdentityObservation, IdentityTable, ObservationSource};
use std::cell::Cell;

fn table() -> IdentityTable {
    let mut identities = IdentityTable::new(4);
    identities
        .observe(
            IdentityObservation {
                mac: "02:00:00:00:00:01",
                zone: Some("lan"),
                interface: "br-lan",
                ip: Some("192.0.2.10"),
                hostname: None,
                last_seen: 1,
                source: ObservationSource::Neighbor,
            },
        )
        .unwrap();
    identities
}

fn v4(a: u8, b: u8, c: u8, d: u8) -> IpAddress {
    IpAddress::V4([a, b, c, d])
}

fn v6(groups: [u16; 8]) -> IpAddress {
    let mut octets = [0u8; 16];
    for (i, group) in groups.iter().enumerate() {
        octets[2 * i] = (group >> 8) as u8;
        octets[2 * i + 1] = (group & 0xff) as u8;
    }
    IpAddress::V6(octets)
}

fn tcp_flow() -> FlowSample {
    FlowSample {
        orig_src: Some(v4(192, 0, 2, 10)),
        orig_dst: Some(v4(1, 1, 1, 1)),
        reply_src: Some(v4(1, 1, 1, 1)),
        reply_dst: Some(v4(192, 0, 2, 10)),
        orig_bytes: 100,
        reply_bytes: 250,
        orig_sport: 50_123,
        orig_dport: 443,
        reply_sport: 443,
        reply_dport: 50_123,
        protocol: Protocol::Tcp,
        tcp_state: Some(TcpState::Established),
        assured: true,
        conntrack_id: None,
        conntrack_zone: None,
    }
}

#[test]
fn production_netlink_modes_use_streaming_aggregate_and_match_vec_helper() {
    let identities = table();
    let flow = tcp_flow();
    let now_ms = 91_337;
    let expected = finish_netlink(
        NetlinkSnapshot {
            flows: vec![flow.clone()],
            source_path: NETLINK_SOURCE_PATH,
            counter_source: NETLINK_COUNTER_SOURCE,
            malformed_entries: 1,
        },
        &identities,
        now_ms,
        8,
    )
    .unwrap();
    let aggregate = aggregate_flows(&identities, &vec![flow], now_ms, 8);
    let streaming_snapshot = || NetlinkAggregateSnapshot {
        aggregate: aggregate.clone(),
        source_path: NETLINK_SOURCE_PATH,
        counter_source: NETLINK_COUNTER_SOURCE,
        malformed_entries: 1,
        entries_seen: 2,
    };

    let procfs_called = Cell::new(false);
    let netlink = collect_aggregate_with(
        CollectorMode::Netlink,
        || Ok(streaming_snapshot()),
        || {
            procfs_called.set(true);
            unreachable!()
        },
    )
    .unwrap();
    assert!(!procfs_called.get());
    assert_eq!(netlink, expected);

    let procfs_called = Cell::new(false);
    let automatic = collect_aggregate_with(
        CollectorMode::Auto,
        || Ok(streaming_snapshot()),
        || {
            procfs_called.set(true);
            unreachable!()
        },
    )
    .unwrap();
    assert!(!procfs_called.get());
    assert_eq!(automatic, expected);
    assert_eq!(automatic.connection_details, expected.connection_details);
    assert_eq!(automatic.connection_counters, expected.connection_counters);
    assert_eq!(automatic.stats, expected.stats);
}

#[test]
fn addresses_parse_as_std_reads_them() {
    assert_eq!(parse_ip("192.0.2.10"), Some(v4(192, 0, 2, 10)));
    assert_eq!(parse_ip("0.0.0.0"), Some(v4(0, 0, 0, 0)));
    assert_eq!(parse_ip("255.255.255.255"), Some(v4(255, 255, 255, 255)));
    assert_eq!(parse_ip("01.2.3.4"), None);
    assert_eq!(parse_ip("256.1.1.1"), None);
    assert_eq!(parse_ip("1.2.3"), None);
    assert_eq!(parse_ip("1.2.3.4.5"), None);
    assert_eq!(parse_ip("1.2.3.4 "), None);
    assert_eq!(parse_ip(""), None);
    assert_eq!(parse_ip("::"), Some(v6([0; 8])));
    assert_eq!(parse_ip("::1"), Some(v6([0, 0, 0, 0, 0, 0, 0, 1])));
    assert_eq!(parse_ip("2001:db8::2"), Some(v6([0x2001, 0xdb8, 0, 0, 0, 0, 0, 2])));
    assert_eq!(
        parse_ip("2001:0DB8:0000:0000:0000:0000:0000:0002"),
        Some(v6([0x2001, 0xdb8, 0, 0, 0, 0, 0, 2]))
    );
    assert_eq!(
        parse_ip("::ffff:192.0.2.10"),
        Some(v6([0, 0, 0, 0, 0, 0xffff, 0xc000, 0x020a]))
    );
    assert_eq!(
        parse_ip("1:2:3:4:5:6:1.2.3.4"),
        Some(v6([1, 2, 3, 4, 5, 6, 0x0102, 0x0304]))
    );
    assert_eq!(parse_ip("::1.2.3.4"), Some(v6([0, 0, 0, 0, 0, 0, 0x0102, 0x0304])));
    assert_eq!(parse_ip("1:2:3:4:5:6:7::"), Some(v6([1, 2, 3, 4, 5, 6, 7, 0])));
    assert_eq!(parse_ip("::1:2:3:4:5:6:7"), Some(v6([0, 1, 2, 3, 4, 5, 6, 7])));
    assert_eq!(parse_ip("::1:2:3:4:5:6:7:8"), None);
    assert_eq!(parse_ip("1::2::3"), None);
    assert_eq!(parse_ip("12345::"), None);
    assert_eq!(parse_ip(":1"), None);
    assert_eq!(parse_ip("1:2:3:4:5:6:7:8:9"), None);
    assert_eq!(parse_ip("fe80::1%eth0"), None);
    assert_eq!(parse_ip("1.2.3.4::"), None);
}

#[test]
fn procfs_line_is_parsed_into_both_tuples() {
    let line = b"ipv4     2 tcp      6 431999 ESTABLISHED src=192.0.2.10 dst=1.1.1.1 sport=50123 dport=443 packets=3 bytes=100 src=1.1.1.1 dst=192.0.2.10 sport=443 dport=50123 packets=2 bytes=250 [ASSURED] mark=0 zone=0 use=2\n";
    let flow = parse_line(line).unwrap();
    assert_eq!(flow.protocol, Protocol::Tcp);
    assert_eq!(flow.tcp_state, Some(TcpState::Established));
    assert!(flow.assured);
    assert_eq!(flow.orig_src, Some(v4(192, 0, 2, 10)));
    assert_eq!(flow.orig_dst, Some(v4(1, 1, 1, 1)));
    assert_eq!(flow.reply_src, Some(v4(1, 1, 1, 1)));
    assert_eq!(flow.reply_dst, Some(v4(192, 0, 2, 10)));
    assert_eq!(flow.orig_sport, 50_123);
    assert_eq!(flow.orig_dport, 443);
    assert_eq!(flow.reply_sport, 443);
    assert_eq!(flow.reply_dport, 50_123);
    assert_eq!(flow.orig_bytes, 100);
    assert_eq!(flow.reply_bytes, 250);
}

#[test]
fn procfs_unreplied_and_offloaded_markers_set_assurance() {
    let unreplied = b"ipv4 2 udp 17 29 src=192.0.2.10 dst=9.9.9.9 sport=5353 dport=53 bytes=80 [UNREPLIED] src=9.9.9.9 dst=192.0.2.10 sport=53 dport=5353 bytes=0 [ASSURED]";
    let flow = parse_line(unreplied).unwrap();
    assert_eq!(flow.protocol, Protocol::Udp);
    assert!(!flow.assured);
    assert_eq!(flow.tcp_state, None);

    let offloaded = b"ipv6 10 tcp 6 src=2001:db8::2 dst=2001:db8::1 sport=1 dport=2 bytes=7 src=2001:db8::1 dst=2001:db8::2 sport=2 dport=1 bytes=9 [OFFLOAD]";
    let flow = parse_line(offloaded).unwrap();
    assert!(flow.assured);
    assert_eq!(flow.tcp_state, Some(TcpState::Established));
    assert_eq!(flow.orig_src, Some(v6([0x2001, 0xdb8, 0, 0, 0, 0, 0, 2])));
}

#[test]
fn procfs_other_protocols_and_malformed_lines() {
    let gre = b"ipv4 2 gre 47 179 src=192.0.2.10 dst=1.1.1.1 bytes=+42";
    let flow = parse_line(gre).unwrap();
    assert_eq!(flow.protocol, Protocol::Other(47));
    assert_eq!(flow.orig_bytes, 42);
    assert_eq!(parse_line(b"ipv4 2 gre 470 src=192.0.2.10 bytes=1"), None);
    assert_eq!(parse_line(b"ipv4 2 tcp 6 src=192.0.2.10"), None);
    assert_eq!(parse_line(b"ipv4 2 tcp 6 src=not-an-ip bytes=5"), None);
    assert_eq!(parse_line(b"ipv4 2"), None);
    assert_eq!(parse_line(&[0xff, 0xfe, b' ', b't', b'c', b'p']), None);
    assert_eq!(parse_tcp_state(b"TIME_WAIT"), TcpState::TimeWait);
    assert_eq!(parse_tcp_state(b"BOGUS"), TcpState::Unknown(u8::MAX));
}

#[test]
fn procfs_reader_counts_entries_and_malformed_lines() {
    let good = b"ipv4 2 tcp 6 5 ESTABLISHED src=192.0.2.10 dst=1.1.1.1 sport=1 dport=2 bytes=10 src=1.1.1.1 dst=192.0.2.10 sport=2 dport=1 bytes=20 [ASSURED]".to_vec();
    let lines = vec![
        (good.clone(), false),
        (b"garbage".to_vec(), false),
        (good.clone(), true),
        (good, false),
    ];
    let snapshot = parse_reader(&lines, "/proc/net/nf_conntrack").unwrap();
    assert_eq!(snapshot.flows.len(), 2);
    assert_eq!(snapshot.entries_seen, 4);
    assert_eq!(snapshot.malformed_lines, 2);
    assert_eq!(snapshot.source_path, "/proc/net/nf_conntrack");
    assert_eq!(snapshot.counter_source, PROCFS_COUNTER_SOURCE);

    let identities = table();
    let aggregated = aggregate_reader(&lines, "/proc/net/nf_conntrack", &identities, 5, 8);
    assert_eq!(aggregated.entries_seen, 4);
    assert_eq!(aggregated.malformed_lines, 2);
    assert_eq!(aggregated.aggregate.clients.len(), 1);
    assert_eq!(aggregated.aggregate.clients[0].tx_bytes, 20);
    assert_eq!(aggregated.aggregate.clients[0].rx_bytes, 40);
    assert_eq!(aggregated.aggregate.stats.entries_seen, 2);
}

#[test]
fn procfs_reader_refuses_more_flows_than_the_cap() {
    let good = b"ipv4 2 udp 17 src=192.0.2.10 dst=1.1.1.1 bytes=1".to_vec();
    let lines: Vec<(Vec<u8>, bool)> = (0..4_097).map(|_| (good.clone(), false)).collect();
    match parse_reader(&lines, "/proc/net/nf_conntrack") {
        Err(ProcfsError::FlowLimit(limit)) => assert_eq!(limit, 4_096),
        _ => panic!("expected the flow limit"),
    }
}

#[test]
fn automatic_collection_falls_back_to_procfs_and_reports_the_netlink_errno() {
    let identities = table();
    let collected = collect_with(
        CollectorMode::Auto,
        &identities,
        7,
        8,
        || {
            Err(CollectorReadError::Netlink(
                lanspeedd::collectors::conntrack::netlink::DumpError::Kernel(1),
            ))
        },
        || {
            parse_reader(
                &vec![(
                    b"ipv4 2 udp 17 src=192.0.2.10 dst=1.1.1.1 bytes=3".to_vec(),
                    false,
                )],
                "/proc/net/nf_conntrack",
            )
            .map_err(CollectorReadError::Procfs)
        },
    )
    .unwrap();
    assert!(collected.stats.netlink_attempted);
    assert!(!collected.stats.netlink_read);
    assert!(collected.stats.procfs_read);
    assert_eq!(collected.stats.netlink_errno, Some(1));
    assert_eq!(collected.stats.current_clients, 1);
    assert_eq!(collected.counter_source, PROCFS_COUNTER_SOURCE);
    assert_eq!(collected.sample_ms, 7);

    let failed = collect_with(
        CollectorMode::Auto,
        &identities,
        7,
        8,
        || Err(CollectorReadError::Netlink(lanspeedd::collectors::conntrack::netlink::DumpError::Interrupted)),
        || Err(CollectorReadError::Procfs(ProcfsError::FlowLimit(1))),
    );
    assert!(matches!(
        failed,
        Err(CollectorReadError::Netlink(
            lanspeedd::collectors::conntrack::netlink::DumpError::Interrupted
        ))
    ));
}
