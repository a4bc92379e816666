use lanspeedd::collectors::bpf::snapshot::{snapshot_warnings, SnapshotWarning};
use lanspeedd::collectors::bpf::snapshot::{fold_map_read, MapCounters, MapKey, MapRead, RawMapSample};
use lanspeedd::identity::{IdentityObservation, IdentityTable, ObservationSource};

fn table() -> IdentityTable {
    let mut table = IdentityTable::new(8);
    for (mac, ip) in [("02:00:00:00:00:01", "192.0.2.1"), ("02:00:00:00:00:02", "192.0.2.2")] {
        table
            .observe(IdentityObservation {
                mac,
                zone: Some("lan"),
                interface: "br-lan",
                ip: Some(ip),
                hostname: None,
                last_seen: 1,
                source: ObservationSource::Neighbor,
            })
            .unwrap();
    }
    table
}

fn sample(ifindex: u32, direction: u8, last: u8, bytes: u64, last_seen: u64) -> RawMapSample {
    RawMapSample {
        key: MapKey { ifindex, direction, mac: [2, 0, 0, 0, 0, last] },
        counters: MapCounters { bytes, tcp_conns: 2, udp_conns: 3, last_seen },
    }
}

#[test]
fn a_map_read_is_summed_per_identity() {
    let read = MapRead {
        entries: vec![
            sample(3, 0, 1, 100, 5_000_000_000),
            sample(3, 1, 1, 40, 0),
            sample(3, 7, 1, 999, 0),
            sample(9, 0, 1, 999, 0),
            sample(4, 0, 1, 999, 0),
            sample(3, 0, 1, u64::MAX, 9_000_000_000),
        ],
        truncated: false,
    };
    let names = vec![(3, "br-lan".to_string()), (4, "tun0".to_string())];
    let folded = fold_map_read(&read, &names, &table(), 1_000, 8);
    assert!(!folded.client_limit_exceeded);
    assert_eq!(folded.sample_ms, 9_000);
    assert_eq!(folded.clients.len(), 1);
    let client = &folded.clients[0];
    assert_eq!(client.name, "02:00:00:00:00:01@lan");
    assert_eq!(client.value.mac, "02:00:00:00:00:01");
    assert_eq!(client.value.zone, "lan");
    assert_eq!(client.value.interface, "br-lan");
    assert_eq!(client.value.ips, vec!["192.0.2.1".to_string()]);
    assert_eq!(client.value.tx_bytes, u64::MAX);
    assert_eq!(client.value.rx_bytes, 40);
    assert_eq!(client.value.bpf_approx_tcp_tuples, 4);
    assert_eq!(client.value.bpf_approx_udp_tuples, 6);
    assert_eq!(client.value.last_seen_ms, 9_000);
}

#[test]
fn clients_past_the_limit_are_dropped_last_key_first() {
    let read = MapRead {
        entries: vec![sample(3, 0, 2, 10, 0), sample(3, 0, 1, 10, 0)],
        truncated: false,
    };
    let names = vec![(3, "br-lan".to_string())];
    let folded = fold_map_read(&read, &names, &table(), 1_000, 1);
    assert!(folded.client_limit_exceeded);
    assert_eq!(folded.clients.len(), 1);
    assert_eq!(folded.clients[0].name, "02:00:00:00:00:01@lan");
    assert_eq!(folded.sample_ms, 1_000);
}

#[test]
fn snapshot_warnings_come_in_their_order() {

    assert!(snapshot_warnings(false, false, false, false, false).is_empty());
    assert_eq!(
        snapshot_warnings(false, true, false, true, true),
        vec![
            SnapshotWarning::MapIterationTruncated,
            SnapshotWarning::ClientLimitExceeded,
            SnapshotWarning::ConnectionOverlayUnavailable,
        ]
    );
    assert_eq!(snapshot_warnings(true, false, true, false, false).len(), 2);
}
