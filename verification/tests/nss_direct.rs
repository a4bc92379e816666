use lanspeedd::collectors::nss::{parse_direct_reader, DirectFlow, NssParseError, ParseLimits};
use lanspeedd::identity::{IdentityObservation, IdentityTable, ObservationSource};

fn table() -> IdentityTable {
    let mut identities = IdentityTable::new(4);
    identities
        .observe(
            IdentityObservation {
                mac: "02:00:00:00:00:01",
                zone: Some("lan"),
                interface: "br-lan",
                ip: Some("192.0.2.10"),
                hostname: None,
                last_seen: 1,
                source: ObservationSource::Neighbor,
            },
        )
        .unwrap();
    identities
}

fn lines(text: &[&str]) -> Vec<(Vec<u8>, bool)> {
    text.iter()
        .map(|line| (format!("{line}\n").into_bytes(), false))
        .collect()
}

#[test]
fn direct_blocks_fold_into_client_samples() {
    let identities = table();
    let input = lines(&[
        "conns.conn.1.sip_address=192.0.2.10",
        "conns.conn.1.dip_address=1.1.1.1",
        "conns.conn.1.protocol=6",
        "conns.conn.1.adv_stats.from_data_total=100",
        "conns.conn.1.adv_stats.to_data_total=250",
        "conns.conn.2.sip_address=8.8.8.8",
        "conns.conn.2.dip_address=1.1.1.1",
        "conns.conn.2.adv_stats.from_data_total=5",
        "garbage",
    ]);
    let snapshot =
        parse_direct_reader(&input, "/dev/ecm_state", &identities, 42, 8, ParseLimits::default())
            .unwrap();
    assert_eq!(snapshot.clients.len(), 1);
    let client = &snapshot.clients[0];
    assert_eq!(client.identity_key, "02:00:00:00:00:01@lan");
    assert_eq!(client.tx_bytes, 100);
    assert_eq!(client.rx_bytes, 250);
    assert_eq!(client.tcp_conns, 1);
    assert_eq!(client.last_seen_ms, 42);
    assert_eq!(snapshot.stats.entries_seen, 2);
    assert_eq!(snapshot.stats.entries_matched, 1);
    assert_eq!(snapshot.stats.src_lan_flows, 1);
    assert_eq!(snapshot.stats.ipv4_lan_flows, 1);
    assert_eq!(snapshot.stats.skipped_no_arp, 1);
    assert_eq!(snapshot.stats.no_lan_flows, 1);
    assert_eq!(snapshot.stats.malformed_lines, 1);
    assert_eq!(snapshot.stats.current_clients, 1);
    assert_eq!(snapshot.source_path, "/dev/ecm_state");
    assert_eq!(snapshot.counter_source, "ecm_state_adv_stats_from_to_data_total");
    assert_eq!(
        snapshot.warnings,
        vec![
            "nss_ecm_direct_parse_errors",
            "skip_nss_ecm_direct_flow_without_lan_identity"
        ]
    );
}

#[test]
fn direct_owner_falls_back_to_the_node_mac() {
    let identities = table();
    let input = lines(&[
        "conns.conn.7.sip_address=10.9.9.9",
        "conns.conn.7.snode_address=02:00:00:00:00:01",
        "conns.conn.7.dip_address=1.1.1.1",
        "conns.conn.7.protocol=17",
        "conns.conn.7.adv_stats.from_data_total=10",
        "conns.conn.7.adv_stats.to_data_total=20",
    ]);
    let snapshot =
        parse_direct_reader(&input, "/dev/ecm_state", &identities, 1, 8, ParseLimits::default())
            .unwrap();
    assert_eq!(snapshot.clients.len(), 1);
    assert_eq!(snapshot.clients[0].udp_conns, 1);
    assert_eq!(snapshot.clients[0].udp_other_conns, 1);
    assert_eq!(snapshot.stats.ipv4_lan_flows, 1);
    assert!(snapshot.warnings.is_empty());
}

#[test]
fn direct_read_without_clients_warns_and_limits_stop_it() {
    let identities = table();
    let empty = parse_direct_reader(&Vec::new(), "/dev/ecm_state", &identities, 1, 8, ParseLimits::default()).unwrap();
    assert_eq!(empty.warnings, vec!["nss_direct_no_data"]);

    let input = lines(&[
        "conns.conn.1.protocol=6",
        "conns.conn.2.protocol=6",
        "conns.conn.3.protocol=6",
    ]);
    assert!(matches!(
        parse_direct_reader(&input, "/dev/ecm_state", &identities, 1, 8, ParseLimits::new(2, 10)),
        Err(NssParseError::LineLimit(2))
    ));
    assert!(matches!(
        parse_direct_reader(&input, "/dev/ecm_state", &identities, 1, 8, ParseLimits::new(10, 2)),
        Err(NssParseError::ConnectionLimit(2))
    ));
}

#[test]
fn direct_field_values_are_checked() {
    let mut flow = DirectFlow::new(b"1");
    assert!(flow.apply(b"sip_address", b"192.0.2.10"));
    assert!(!flow.apply(b"dip_address", b"not-an-ip"));
    assert!(flow.apply(b"snode_address", b"zz"));
    assert!(!flow.apply(b"protocol", b"300"));
    assert!(flow.apply(b"adv_stats.to_data_total", b"+7"));
    assert!(flow.apply(b"unknown", b"x"));
    assert_eq!(flow.to_data_total, 7);
    assert_eq!(flow.protocol, 0);
    assert!(flow.dip_address.is_none());
}
