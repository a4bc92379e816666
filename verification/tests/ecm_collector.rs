use lanspeedd::collectors::bpf::ecm::{
    bits_per_second, EcmBpfSnapshotCollector, EcmCounters, EcmKey, EcmMapRead, FlowRateHistory,
    RawEcmSample, DIR_RX, DIR_TX,
};
use lanspeedd::ecm_node::TrafficCounters;
use lanspeedd::identity::{IdentityObservation, IdentityTable, ObservationSource};

fn identities() -> IdentityTable {
    let mut identities = IdentityTable::new(4);
    identities
        .observe(
            IdentityObservation {
                mac: "02:00:00:00:00:01",
                zone: Some("lan"),
                interface: "br-lan",
                ip: Some("192.0.2.2"),
                hostname: Some("client"),
                last_seen: 1,
                source: ObservationSource::Neighbor,
            },
        )
        .unwrap();
    identities
}

fn raw_for(
    mac: [u8; 6],
    connection: u64,
    generation: u32,
    direction: u8,
    bytes: u64,
    packets: u64,
    last_seen_ms: u64,
) -> RawEcmSample {
    RawEcmSample {
        key: EcmKey {
            connection,
            generation,
            direction,
            reserved: 0,
            mac,
            padding: [0; 4],
        },
        counters: EcmCounters {
            bytes,
            packets,
            last_seen: last_seen_ms * 1_000_000,
        },
    }
}

fn raw(
    connection: u64,
    generation: u32,
    direction: u8,
    bytes: u64,
    packets: u64,
    last_seen_ms: u64,
) -> RawEcmSample {
    raw_for(
        [0x02, 0, 0, 0, 0, 1],
        connection,
        generation,
        direction,
        bytes,
        packets,
        last_seen_ms,
    )
}

fn read(entries: Vec<RawEcmSample>) -> EcmMapRead {
    EcmMapRead {
        entries,
        truncated: false,
    }
}

#[test]
fn rates_are_windowed_per_connection_generation_before_client_folding() {
    let identities = identities();
    let mut collector = EcmBpfSnapshotCollector::default();
    let first = collector.convert(
        read(vec![
            raw(1, 10, DIR_TX, 1_000, 10, 1_000),
            raw(2, 20, DIR_TX, 500, 5, 1_000),
        ]),
        &identities,
        1_000,
    );
    assert_eq!(first.clients[0].tx_bps, 0);

    let second = collector.convert(
        read(vec![
            raw(1, 10, DIR_TX, 3_000, 30, 3_000),
            raw(2, 20, DIR_TX, 500, 5, 1_000),
        ]),
        &identities,
        3_000,
    );
    assert_eq!(second.clients[0].tx_bps, 8_320);

    let third = collector.convert(
        read(vec![
            raw(1, 10, DIR_TX, 3_000, 30, 3_000),
            raw(2, 20, DIR_TX, 2_500, 25, 5_000),
        ]),
        &identities,
        5_000,
    );
    assert_eq!(third.clients[0].tx_bps, 8_320 + 4_160);

    let fourth = collector.convert(
        read(vec![
            raw(1, 10, DIR_TX, 3_000, 30, 3_000),
            raw(2, 20, DIR_TX, 2_500, 25, 5_000),
        ]),
        &identities,
        6_001,
    );
    assert_eq!(fourth.clients[0].tx_bps, 4_160);
}

#[test]
fn rate_clock_uses_collector_elapsed_time_when_event_timestamp_is_torn() {
    let identities = identities();
    let mut collector = EcmBpfSnapshotCollector::default();
    collector.convert(
        read(vec![raw(1, 10, DIR_TX, 1_000, 10, 1_000)]),
        &identities,
        1_000,
    );

    let snapshot = collector.convert(
        read(vec![raw(1, 10, DIR_TX, 3_000, 30, 1_500)]),
        &identities,
        3_000,
    );

    assert_eq!(snapshot.clients[0].tx_bps, 8_320);
}

#[test]
fn one_destroy_batch_outlier_does_not_spike_a_connection_rate() {
    let identities = identities();
    let mut collector = EcmBpfSnapshotCollector::default();
    collector.convert(read(vec![raw(1, 10, DIR_TX, 0, 0, 0)]), &identities, 0);

    for (now_ms, bytes) in [(2_000, 2_000), (4_000, 4_000), (6_000, 6_000)] {
        let snapshot = collector.convert(
            read(vec![raw(1, 10, DIR_TX, bytes, 0, now_ms)]),
            &identities,
            now_ms,
        );
        assert_eq!(snapshot.clients[0].tx_bps, 8_000);
    }

    let destroy = collector.convert(
        read(vec![raw(1, 10, DIR_TX, 10_000, 0, 8_000)]),
        &identities,
        8_000,
    );
    assert_eq!(destroy.clients[0].tx_bps, 8_000);
}

#[test]
fn a_reused_connection_generation_rebaselines_without_resetting_other_flows() {
    let identities = identities();
    let mut collector = EcmBpfSnapshotCollector::default();
    collector.convert(
        read(vec![
            raw(1, 10, DIR_TX, 100, 1, 1_000),
            raw(2, 20, DIR_RX, 100, 1, 1_000),
        ]),
        &identities,
        1_000,
    );
    let snapshot = collector.convert(
        read(vec![
            raw(1, 11, DIR_TX, 50, 1, 3_000),
            raw(2, 20, DIR_RX, 2_100, 21, 3_000),
        ]),
        &identities,
        3_000,
    );
    assert_eq!(snapshot.clients[0].tx_bps, 216);
    assert_eq!(snapshot.clients[0].rx_bps, 8_320);
}

#[test]
fn coverage_delta_uses_raw_bytes_and_packets_without_generation_regression() {
    let identities = identities();
    let mut collector = EcmBpfSnapshotCollector::default();
    collector.convert(
        read(vec![
            raw(1, 10, DIR_TX, 1_000, 10, 1_000),
            raw(2, 20, DIR_RX, 2_000, 20, 1_000),
        ]),
        &identities,
        1_000,
    );

    let progressed = collector.convert(
        read(vec![
            raw(1, 10, DIR_TX, 3_000, 30, 3_000),
            raw(2, 20, DIR_RX, 6_000, 60, 3_000),
        ]),
        &identities,
        3_000,
    );
    assert_eq!(
        progressed.coverage_delta,
        TrafficCounters {
            tx_bytes: 2_000,
            rx_bytes: 4_000,
            tx_packets: 20,
            rx_packets: 40,
        }
    );

    let disappeared = collector.convert(
        read(vec![raw(2, 20, DIR_RX, 6_000, 60, 3_000)]),
        &identities,
        4_000,
    );
    assert_eq!(disappeared.coverage_delta, TrafficCounters::default());

    let returned = collector.convert(
        read(vec![
            raw(1, 10, DIR_TX, 4_000, 40, 5_000),
            raw(2, 20, DIR_RX, 6_000, 60, 3_000),
            raw(1, 11, DIR_TX, 50_000, 500, 5_000),
        ]),
        &identities,
        5_000,
    );
    assert_eq!(
        returned.coverage_delta,
        TrafficCounters {
            tx_bytes: 51_000,
            rx_bytes: 0,
            tx_packets: 510,
            rx_packets: 0,
        }
    );
}

#[test]
fn ecm_first_read_reports_wire_bytes_and_identity_fields() {
    let identities = identities();
    let mut collector = EcmBpfSnapshotCollector::default();
    let snapshot = collector.convert(
        EcmMapRead {
            entries: vec![
                raw(1, 10, DIR_TX, 1_000, 10, 900),
                raw(1, 10, DIR_RX, 2_000, 5, 950),
                raw(3, 30, 7, 9_999, 9, 900),
            ],
            truncated: true,
        },
        &identities,
        1_000,
    );
    assert_eq!(snapshot.map_entries, 3);
    assert_eq!(snapshot.matched_entries, 2);
    assert!(snapshot.truncated);
    assert_eq!(snapshot.sample_ms, 1_000);
    assert_eq!(snapshot.coverage_delta, TrafficCounters::default());
    assert_eq!(snapshot.clients.len(), 1);
    let client = &snapshot.clients[0];
    assert_eq!(client.mac, "02:00:00:00:00:01");
    assert_eq!(client.identity_key, "02:00:00:00:00:01@lan");
    assert_eq!(client.zone, "lan");
    assert_eq!(client.interface, "br-lan");
    assert_eq!(client.ips, vec!["192.0.2.2".to_string()]);
    assert_eq!(client.tx_bytes, 1_040);
    assert_eq!(client.rx_bytes, 2_020);
    assert_eq!(client.last_seen_ms, 950);
    assert_eq!(
        collector.last_complete().map(|s| s.sample_ms),
        Some(1_000)
    );
}

#[test]
fn ecm_unknown_mac_is_counted_but_not_owned() {
    let identities = identities();
    let mut collector = EcmBpfSnapshotCollector::default();
    collector.convert(
        read(vec![raw_for([2, 0, 0, 0, 0, 9], 1, 1, DIR_TX, 100, 1, 1_000)]),
        &identities,
        1_000,
    );
    let snapshot = collector.convert(
        read(vec![raw_for([2, 0, 0, 0, 0, 9], 1, 1, DIR_TX, 5_000, 10, 2_000)]),
        &identities,
        2_000,
    );
    assert_eq!(snapshot.map_entries, 1);
    assert_eq!(snapshot.matched_entries, 0);
    assert!(snapshot.clients.is_empty());
    assert_eq!(snapshot.coverage_delta, TrafficCounters::default());
}

#[test]
fn ecm_rate_is_held_then_expires() {
    let identities = identities();
    let mut collector = EcmBpfSnapshotCollector::default();
    collector.convert(read(vec![raw(1, 1, DIR_TX, 0, 0, 0)]), &identities, 0);
    let moving = collector.convert(
        read(vec![raw(1, 1, DIR_TX, 1_000, 0, 1_000)]),
        &identities,
        1_000,
    );
    assert_eq!(moving.clients[0].tx_bps, 8_000);
    let held = collector.convert(
        read(vec![raw(1, 1, DIR_TX, 1_000, 0, 1_000)]),
        &identities,
        3_500,
    );
    assert_eq!(held.clients[0].tx_bps, 8_000);
    let expired = collector.convert(
        read(vec![raw(1, 1, DIR_TX, 1_000, 0, 1_000)]),
        &identities,
        3_501,
    );
    assert_eq!(expired.clients[0].tx_bps, 0);
}

#[test]
fn ecm_reset_forgets_the_last_snapshot() {
    let identities = identities();
    let mut collector = EcmBpfSnapshotCollector::default();
    collector.convert(read(vec![raw(1, 1, DIR_TX, 10, 1, 0)]), &identities, 10);
    assert!(collector.last_complete().is_some());
    collector.reset();
    assert!(collector.last_complete().is_none());
    let again = collector.convert(read(vec![raw(1, 1, DIR_TX, 5_000, 1, 20)]), &identities, 20);
    assert_eq!(again.coverage_delta, TrafficCounters::default());
}

#[test]
fn ecm_rate_history_publishes_the_median_of_three() {
    let mut history = FlowRateHistory::default();
    assert_eq!(history.push(10), 10);
    assert_eq!(history.push(30), 30);
    assert_eq!(history.push(20), 20);
    assert_eq!(history.push(100), 30);
    assert_eq!(history.push(0), 20);
}

#[test]
fn ecm_bits_per_second_saturates_and_rejects_an_empty_window() {
    assert_eq!(bits_per_second(1_000, 0), 0);
    assert_eq!(bits_per_second(1_000, 1_000), 8_000);
    assert_eq!(bits_per_second(3, 7), 3_428);
    assert_eq!(bits_per_second(u64::MAX, 1), u64::MAX);
}
