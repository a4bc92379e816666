use lanspeedd::collectors::conntrack::IpAddress;
use lanspeedd::connection_details::{
    deferred_counter_rate, rate_from_counters, ClientConnectionDetail, ClientConnectionSet,
    ConnectionCounters, ConnectionCountersSnapshot, ConnectionDetailsSnapshot,
    ConnectionDirection, ConnectionProtocol, ConnectionRateBook, ConnectionRateKey,
    ConnectionState, RateProtocol,
};
use lanspeedd::keyed::Named;

fn rate_key(conntrack_id: Option<u32>) -> ConnectionRateKey {
    ConnectionRateKey {
        conntrack_id,
        conntrack_zone: Some(0),
        identity_key: "client".into(),
        client_ip: IpAddress::V4([192, 0, 2, 2]),
        client_port: 12_345,
        remote_ip: Some(IpAddress::V4([198, 51, 100, 2])),
        remote_port: 443,
        protocol: RateProtocol::Tcp,
        direction: ConnectionDirection::Outbound,
    }
}

fn counters(tx_bytes: u64, rx_bytes: u64) -> ConnectionCountersSnapshot {
    vec![(rate_key(Some(7)), ConnectionCounters { tx_bytes, rx_bytes })]
}

fn details() -> ConnectionDetailsSnapshot {
    vec![Named {
        name: "client".into(),
        value: ClientConnectionSet {
            total_connections: 1,
            connections: vec![ClientConnectionDetail {
                client_ip: IpAddress::V4([192, 0, 2, 2]),
                client_port: 12_345,
                remote_ip: IpAddress::V4([198, 51, 100, 2]),
                remote_port: 443,
                protocol: ConnectionProtocol::Tcp,
                state: ConnectionState::Established,
                direction: ConnectionDirection::Outbound,
                tx_bps: 0,
                rx_bps: 0,
            }],
            truncated: false,
        },
    }]
}

fn rates(details: &ConnectionDetailsSnapshot) -> (u64, u64) {
    let set = details
        .iter()
        .find(|entry| entry.name == "client")
        .map(|entry| &entry.value)
        .unwrap();
    let detail = &set.connections[0];
    (detail.tx_bps, detail.rx_bps)
}

#[test]
fn immediate_mode_keeps_advancing_the_baseline_on_stalled_counters() {
    let mut book = ConnectionRateBook::default();
    let mut first = details();
    book.update(1_000, &counters(100, 200), &mut first);

    let mut stalled = details();
    book.update(3_000, &counters(100, 200), &mut stalled);
    assert_eq!(rates(&stalled), (0, 0));

    let mut progressed = details();
    book.update(5_000, &counters(25_000_100, 2_500_200), &mut progressed);
    assert_eq!(rates(&progressed), (100_000_000, 10_000_000));
}

#[test]
fn deferred_mode_uses_each_directions_real_progress_window() {
    let mut book = ConnectionRateBook::default();
    let mut warmup = details();
    book.update_deferred(1_000, &counters(100, 200), &mut warmup);
    assert_eq!(rates(&warmup), (0, 0));

    let mut first = details();
    book.update_deferred(3_000, &counters(25_000_100, 2_500_200), &mut first);
    assert_eq!(rates(&first), (100_000_000, 10_000_000));

    let mut tx_stalled = details();
    book.update_deferred(5_000, &counters(25_000_100, 5_000_200), &mut tx_stalled);
    assert_eq!(rates(&tx_stalled), (100_000_000, 10_000_000));

    let mut tx_progressed = details();
    book.update_deferred(7_000, &counters(75_000_100, 5_000_200), &mut tx_progressed);
    assert_eq!(rates(&tx_progressed), (100_000_000, 10_000_000));
}

#[test]
fn deferred_mode_holds_once_then_rebaselines_a_genuinely_idle_flow() {
    let mut book = ConnectionRateBook::default();
    let mut warmup = details();
    book.update_deferred(1_000, &counters(100, 200), &mut warmup);
    let mut first = details();
    book.update_deferred(3_000, &counters(25_000_100, 2_500_200), &mut first);
    assert_eq!(rates(&first), (100_000_000, 10_000_000));

    let mut held = details();
    book.update_deferred(5_000, &counters(25_000_100, 2_500_200), &mut held);
    assert_eq!(rates(&held), rates(&first));

    let mut idle = details();
    book.update_deferred(7_000, &counters(25_000_100, 2_500_200), &mut idle);
    assert_eq!(rates(&idle), (0, 0));

    let mut resumed = details();
    book.update_deferred(9_000, &counters(50_000_100, 5_000_200), &mut resumed);
    assert_eq!(rates(&resumed), (100_000_000, 10_000_000));
}

#[test]
fn deferred_mode_rejects_a_paired_low_high_sync_alias_without_clamping() {
    let mut book = ConnectionRateBook::default();
    let mut details_at = |sample_ms, tx_bytes, rx_bytes| {
        let mut value = details();
        book.update_deferred(sample_ms, &counters(tx_bytes, rx_bytes), &mut value);
        rates(&value)
    };

    assert_eq!(details_at(1_000, 100, 200), (0, 0));
    assert_eq!(
        details_at(3_000, 25_000_100, 2_500_200),
        (100_000_000, 10_000_000)
    );
    assert_eq!(
        details_at(5_000, 50_000_100, 5_000_200),
        (100_000_000, 10_000_000)
    );
    assert_eq!(
        details_at(7_000, 75_000_100, 7_500_200),
        (100_000_000, 10_000_000)
    );
    assert_eq!(
        details_at(9_000, 75_000_100, 7_500_200),
        (100_000_000, 10_000_000)
    );
    assert_eq!(
        details_at(11_000, 100_000_100, 10_000_200),
        (100_000_000, 10_000_000)
    );
    assert_eq!(
        details_at(13_000, 137_500_100, 13_750_200),
        (100_000_000, 10_000_000)
    );
}

#[test]
fn switching_modes_rewarms_instead_of_reusing_an_old_baseline() {
    let mut book = ConnectionRateBook::default();
    let mut warmup = details();
    book.update_deferred(1_000, &counters(100, 200), &mut warmup);
    let mut deferred = details();
    book.update_deferred(3_000, &counters(25_000_100, 2_500_200), &mut deferred);
    assert_eq!(rates(&deferred), (100_000_000, 10_000_000));

    let mut immediate = details();
    book.update(5_000, &counters(50_000_100, 5_000_200), &mut immediate);
    assert_eq!(rates(&immediate), (0, 0));
    assert!(!book.has_deferred_rates());
}

#[test]
fn repeated_sample_leaves_the_details_untouched() {
    let mut book = ConnectionRateBook::default();
    let mut first = details();
    book.update(1_000, &counters(100, 200), &mut first);
    let mut second = details();
    book.update(2_000, &counters(1_100, 700), &mut second);
    assert_eq!(rates(&second), (8_000, 4_000));
    let mut repeated = details();
    repeated[0].value.connections[0].tx_bps = 7;
    book.update(2_000, &counters(9_999_999, 9_999_999), &mut repeated);
    assert_eq!(rates(&repeated), (7, 0));
}

#[test]
fn generations_of_one_connection_are_folded_before_rating() {
    let mut book = ConnectionRateBook::default();
    let mut first = details();
    book.update(
        1_000,
        &vec![
            (rate_key(Some(1)), ConnectionCounters { tx_bytes: 100, rx_bytes: 0 }),
            (rate_key(Some(2)), ConnectionCounters { tx_bytes: 100, rx_bytes: 0 }),
        ],
        &mut first,
    );
    let mut second = details();
    book.update(
        2_000,
        &vec![
            (rate_key(Some(1)), ConnectionCounters { tx_bytes: 600, rx_bytes: 0 }),
            (rate_key(Some(2)), ConnectionCounters { tx_bytes: 600, rx_bytes: 0 }),
        ],
        &mut second,
    );
    assert_eq!(rates(&second), (8_000, 0));
}

#[test]
fn rate_from_counters_handles_rollback_and_empty_window() {
    assert_eq!(rate_from_counters(10, 20, 1_000), 0);
    assert_eq!(rate_from_counters(20, 10, 0), 0);
    assert_eq!(rate_from_counters(1_010, 10, 1_000), 8_000);
}

#[test]
fn deferred_counter_rate_rebaselines_on_clock_rollback() {
    let first = deferred_counter_rate(1_000, 100, None);
    assert_eq!(first.bps, 0);
    let moved = deferred_counter_rate(2_000, 1_100, Some(first));
    assert_eq!(moved.bps, 8_000);
    let back = deferred_counter_rate(500, 2_000, Some(moved));
    assert_eq!(back.bps, 0);
    assert_eq!(back.sample_ms, 500);
    assert!(!back.held_once);
}
