use lanspeedd::ecm_node::{NodeCounters, NodeSnapshot, ParseStats, TrafficCounters};
use lanspeedd::nss_window::{
    directional_coverage_ready, fits_lan_clock, ownership_ready, percentage, rate, LanClock,
    NssCoverageBook, NssWindowBook, WindowQuality,
};

fn traffic(tx_bytes: u64, rx_bytes: u64, tx_packets: u64, rx_packets: u64) -> TrafficCounters {
    TrafficCounters {
        tx_bytes,
        rx_bytes,
        tx_packets,
        rx_packets,
    }
}

fn nodes(ms: u64, counters: TrafficCounters) -> NodeSnapshot {
    NodeSnapshot {
        sample_ms: ms,
        nodes: vec![NodeCounters {
            identity_key: "02:00:00:00:20:11@lan".into(),
            generation: 7,
            counters,
        }],
        stats: ParseStats::default(),
    }
}

fn two_nodes(ms: u64, first: TrafficCounters, second: TrafficCounters) -> NodeSnapshot {
    NodeSnapshot {
        sample_ms: ms,
        nodes: vec![
            NodeCounters {
                identity_key: "02:00:00:00:20:11@lan".into(),
                generation: 7,
                counters: first,
            },
            NodeCounters {
                identity_key: "02:00:00:00:20:12@lan".into(),
                generation: 8,
                counters: second,
            },
        ],
        stats: ParseStats::default(),
    }
}

fn lan(ms: u64, counters: TrafficCounters) -> LanClock {
    LanClock {
        interface: "lan2".into(),
        sample_ms: ms,
        counters,
    }
}

#[test]
fn first_delta_after_cold_start_publishes_without_a_second_settle_cycle() {
    let mut book = NssWindowBook::default();
    let warmup = book.update(&nodes(0, traffic(0, 0, 0, 0)), lan(0, traffic(0, 0, 0, 0)));
    assert_eq!(warmup.quality, WindowQuality::Warmup);

    let published = book.update(
        &nodes(1_000, traffic(100_000, 200_000, 100, 200)),
        lan(1_000, traffic(200_000, 100_000, 200, 100)),
    );
    assert_eq!(published.quality, WindowQuality::Okay);
    assert_eq!(published.reason, "ecm_node_delta_published");
    assert_eq!(published.window_ms(), 1_000);
    assert_eq!(published.clients[0].tx_bps, (100_000 + 400) * 8);
    assert_eq!(published.coverage.quality, WindowQuality::Okay);
}

#[test]
fn one_node_destroy_batch_outlier_does_not_spike_the_client_rate() {
    let mut book = NssWindowBook::default();
    book.update(
        &nodes(0, TrafficCounters::default()),
        lan(0, TrafficCounters::default()),
    );

    for (sample_ms, bytes) in [(2_000, 2_000), (4_000, 4_000), (6_000, 6_000)] {
        let output = book.update(
            &nodes(sample_ms, traffic(bytes, 0, 0, 0)),
            lan(sample_ms, traffic(0, bytes, 0, 0)),
        );
        assert_eq!(output.clients[0].tx_bps, 8_000);
    }

    let destroy = book.update(
        &nodes(8_000, traffic(10_000, 0, 0, 0)),
        lan(8_000, traffic(0, 10_000, 0, 0)),
    );
    assert_eq!(destroy.clients[0].tx_bps, 8_000);
}

#[test]
fn two_second_node_progress_uses_the_real_counter_window_not_the_last_poll() {
    let mut book = NssWindowBook::default();
    book.update(
        &nodes(0, TrafficCounters::default()),
        lan(0, TrafficCounters::default()),
    );
    let idle = book.update(
        &nodes(1_000, TrafficCounters::default()),
        lan(1_000, TrafficCounters::default()),
    );
    assert_eq!(idle.quality, WindowQuality::Idle);

    let first = book.update(
        &nodes(2_000, traffic(200_000_000, 100_000_000, 200_000, 100_000)),
        lan(2_000, traffic(100_000_000, 200_000_000, 100_000, 200_000)),
    );
    assert_eq!(first.window_ms(), 2_000);
    assert_eq!(first.clients[0].tx_bps, rate(200_000_000 + 800_000, 2_000));
    assert_eq!(first.clients[0].rx_bps, rate(100_000_000 + 400_000, 2_000));

    let held = book.update(
        &nodes(3_000, traffic(200_000_000, 100_000_000, 200_000, 100_000)),
        lan(3_000, traffic(100_000_000, 200_000_000, 100_000, 200_000)),
    );
    assert_eq!(held.reason, "ecm_node_batch_pending");
    assert_eq!(held.clients[0].tx_bps, first.clients[0].tx_bps);

    let second = book.update(
        &nodes(4_000, traffic(400_000_000, 200_000_000, 400_000, 200_000)),
        lan(4_000, traffic(200_000_000, 400_000_000, 200_000, 400_000)),
    );
    assert_eq!(second.window_ms(), 2_000);
    assert_eq!(second.clients[0].tx_bps, first.clients[0].tx_bps);
    assert_eq!(second.clients[0].rx_bps, first.clients[0].rx_bps);
}

#[test]
fn another_nodes_fresh_batch_does_not_zero_a_client_waiting_for_its_batch() {
    let mut book = NssWindowBook::default();
    book.update(
        &two_nodes(0, TrafficCounters::default(), TrafficCounters::default()),
        lan(0, TrafficCounters::default()),
    );
    let first = book.update(
        &two_nodes(
            1_000,
            traffic(100_000_000, 50_000_000, 100_000, 50_000),
            TrafficCounters::default(),
        ),
        lan(1_000, traffic(50_000_000, 100_000_000, 50_000, 100_000)),
    );
    let first_rate = first
        .clients
        .iter()
        .find(|client| client.identity_key == "02:00:00:00:20:11@lan")
        .unwrap()
        .tx_bps;
    assert!(first_rate > 0);

    let second = book.update(
        &two_nodes(
            2_000,
            traffic(100_000_000, 50_000_000, 100_000, 50_000),
            traffic(200_000_000, 100_000_000, 200_000, 100_000),
        ),
        lan(2_000, traffic(150_000_000, 300_000_000, 150_000, 300_000)),
    );
    assert_eq!(second.reason, "ecm_node_delta_published");
    assert_eq!(
        second
            .clients
            .iter()
            .find(|client| client.identity_key == "02:00:00:00:20:11@lan")
            .unwrap()
            .tx_bps,
        first_rate
    );
    assert!(
        second
            .clients
            .iter()
            .find(|client| client.identity_key == "02:00:00:00:20:12@lan")
            .unwrap()
            .tx_bps
            > 0
    );
}

#[test]
fn newly_observed_generation_baselines_once_then_publishes_its_next_delta() {
    let mut book = NssWindowBook::default();
    let empty = NodeSnapshot {
        sample_ms: 0,
        nodes: Vec::new(),
        stats: ParseStats::default(),
    };
    book.update(&empty, lan(0, TrafficCounters::default()));

    let baseline = book.update(
        &nodes(1_000, traffic(900_000, 1_800_000, 900, 1_800)),
        lan(1_000, traffic(10_000, 10_000, 10, 10)),
    );
    assert_eq!(baseline.quality, WindowQuality::Idle);

    let published = book.update(
        &nodes(2_000, traffic(910_000, 1_820_000, 910, 1_820)),
        lan(2_000, traffic(30_000, 20_000, 30, 20)),
    );
    assert_eq!(published.reason, "ecm_node_delta_published");
    assert_eq!(published.clients[0].delta, traffic(10_040, 20_080, 10, 20));
    assert!(published.clients[0].tx_bps > 0);
}

#[test]
fn lan_clock_lag_never_blocks_a_fresh_client_rate() {
    let mut book = NssWindowBook::default();
    book.update(
        &nodes(0, TrafficCounters::default()),
        lan(0, TrafficCounters::default()),
    );

    let output = book.update(
        &nodes(1_000, traffic(1_000_000, 2_000_000, 1_000, 2_000)),
        lan(1_000, traffic(500_000, 250_000, 500, 250)),
    );
    assert_eq!(output.quality, WindowQuality::Okay);
    assert!(output.clients[0].rx_bps > 0);
    assert_eq!(output.coverage.quality, WindowQuality::Pending);
    assert_eq!(output.coverage.reason, "lan_coverage_pending");
}

#[test]
fn continuous_node_progress_cannot_restart_the_coverage_timeout() {
    let mut book = NssWindowBook::default();
    book.update(
        &nodes(0, TrafficCounters::default()),
        lan(0, TrafficCounters::default()),
    );
    let mut last = None;
    for second in 1..=7 {
        let value = second * 1_000_000;
        last = Some(book.update(
            &nodes(
                second * 1_000,
                traffic(value, value, second * 1_000, second * 1_000),
            ),
            lan(second * 1_000, traffic(100_000, 100_000, 100, 100)),
        ));
    }
    let output = last.unwrap();
    assert_eq!(output.quality, WindowQuality::Okay);
    assert_eq!(output.coverage.quality, WindowQuality::CounterSkew);
    assert_eq!(output.coverage.reason, "lan_coverage_timeout");
}

#[test]
fn old_rate_is_held_for_one_ecm_cycle_then_becomes_zero() {
    let mut book = NssWindowBook::default();
    book.update(
        &nodes(0, TrafficCounters::default()),
        lan(0, TrafficCounters::default()),
    );
    let published = book.update(
        &nodes(1_000, traffic(1_000_000, 1_000_000, 1_000, 1_000)),
        lan(1_000, traffic(1_000_000, 1_000_000, 1_000, 1_000)),
    );
    let held = book.update(
        &nodes(2_000, traffic(1_000_000, 1_000_000, 1_000, 1_000)),
        lan(2_000, traffic(1_000_000, 1_000_000, 1_000, 1_000)),
    );
    assert_eq!(held.quality, WindowQuality::Pending);
    assert_eq!(held.clients, published.clients);
    assert_eq!(held.held_rate_age_ms, Some(1_000));

    let idle = book.update(
        &nodes(3_000, traffic(1_000_000, 1_000_000, 1_000, 1_000)),
        lan(3_000, traffic(1_000_000, 1_000_000, 1_000, 1_000)),
    );
    assert_eq!(idle.quality, WindowQuality::Idle);
    assert_eq!(idle.clients[0].tx_bps, 0);
    assert_eq!(idle.clients[0].rx_bps, 0);
}

#[test]
fn traffic_after_a_long_idle_uses_only_the_adjacent_poll_interval() {
    let mut book = NssWindowBook::default();
    book.update(
        &nodes(0, TrafficCounters::default()),
        lan(0, TrafficCounters::default()),
    );
    book.update(
        &nodes(1_000, traffic(1_000_000, 1_000_000, 1_000, 1_000)),
        lan(1_000, traffic(1_000_000, 1_000_000, 1_000, 1_000)),
    );
    for second in 2..=119 {
        book.update(
            &nodes(second * 1_000, traffic(1_000_000, 1_000_000, 1_000, 1_000)),
            lan(second * 1_000, traffic(1_000_000, 1_000_000, 1_000, 1_000)),
        );
    }
    let resumed = book.update(
        &nodes(120_000, traffic(2_000_000, 2_000_000, 2_000, 2_000)),
        lan(120_000, traffic(2_000_000, 2_000_000, 2_000, 2_000)),
    );
    assert_eq!(resumed.start_ms, 119_000);
    assert_eq!(resumed.window_ms(), 1_000);
    assert_eq!(resumed.clients[0].tx_bps, (1_000_000 + 4_000) * 8);
}

#[test]
fn a_collection_gap_rebaselines_instead_of_publishing_a_long_average() {
    let mut book = NssWindowBook::default();
    book.update(
        &nodes(0, TrafficCounters::default()),
        lan(0, TrafficCounters::default()),
    );
    let gap = book.update(
        &nodes(120_000, traffic(100_000_000, 100_000_000, 100_000, 100_000)),
        lan(120_000, traffic(100_000_000, 100_000_000, 100_000, 100_000)),
    );
    assert_eq!(gap.quality, WindowQuality::CounterReset);
    assert_eq!(gap.reason, "ecm_sample_gap");
    assert_eq!(gap.window_ms(), 0);
    assert!(gap.clients.iter().all(|client| client.tx_bps == 0));
}

#[test]
fn partial_client_batches_accumulate_for_coverage_but_publish_rates_independently() {
    let snapshot = |sample_ms, first: TrafficCounters, second: TrafficCounters| NodeSnapshot {
        sample_ms,
        nodes: vec![
            NodeCounters {
                identity_key: "02:00:00:00:20:11@lan".into(),
                generation: 7,
                counters: first,
            },
            NodeCounters {
                identity_key: "02:00:00:00:20:12@lan".into(),
                generation: 8,
                counters: second,
            },
        ],
        stats: ParseStats::default(),
    };
    let mut book = NssWindowBook::default();
    book.update(
        &snapshot(0, TrafficCounters::default(), TrafficCounters::default()),
        lan(0, TrafficCounters::default()),
    );

    let first = book.update(
        &snapshot(
            1_000,
            traffic(100_000, 100_000, 100, 100),
            TrafficCounters::default(),
        ),
        lan(1_000, traffic(1_000_000, 1_000_000, 1_000, 1_000)),
    );
    assert!(first.clients.iter().any(|client| client.tx_bps > 0));
    assert_eq!(first.coverage.quality, WindowQuality::Pending);

    let second = book.update(
        &snapshot(
            2_000,
            traffic(100_000, 100_000, 100, 100),
            traffic(900_000, 900_000, 900, 900),
        ),
        lan(2_000, traffic(1_000_000, 1_000_000, 1_000, 1_000)),
    );
    assert_eq!(second.coverage.quality, WindowQuality::Okay);
    assert_eq!(second.coverage.start_ms, 0);
    assert_eq!(second.coverage.tx_pct, Some(100));
    assert_eq!(second.coverage.rx_pct, Some(100));
}

#[test]
fn packet_aware_low_traffic_reports_a_real_percentage() {
    let mut coverage = NssCoverageBook::default();
    let warmup = coverage.update(
        TrafficCounters::default(),
        &lan(0, TrafficCounters::default()),
    );
    assert_eq!(warmup.quality, WindowQuality::Warmup);

    let output = coverage.update(
        traffic(10_000, 20_000, 2_500, 5_000),
        &lan(2_000, traffic(20_000, 10_000, 5_000, 2_500)),
    );

    assert_eq!(output.quality, WindowQuality::LowTraffic);
    assert!(output.aligned);
    assert_eq!(
        output.client_normalized,
        traffic(20_000, 40_000, 2_500, 5_000)
    );
    assert_eq!(
        output.client_normalized.tx_bytes,
        output.lan_normalized.rx_bytes
    );
    assert_eq!(
        output.client_normalized.rx_bytes,
        output.lan_normalized.tx_bytes
    );
    assert_eq!(
        output.client_normalized.tx_packets,
        output.lan_normalized.rx_packets
    );
    assert_eq!(
        output.client_normalized.rx_packets,
        output.lan_normalized.tx_packets
    );
    assert_eq!(output.tx_pct, Some(100));
    assert_eq!(output.rx_pct, Some(100));
}

#[test]
fn coverage_waits_for_a_late_lan_batch_then_aligns_the_original_window() {
    let mut coverage = NssCoverageBook::default();
    coverage.update(
        TrafficCounters::default(),
        &lan(0, TrafficCounters::default()),
    );

    let pending = coverage.update(
        traffic(200_000, 400_000, 200, 400),
        &lan(2_000, traffic(200_000, 100_000, 200, 100)),
    );
    assert_eq!(pending.quality, WindowQuality::Pending);
    assert_eq!(pending.start_ms, 0);

    let aligned = coverage.update(
        TrafficCounters::default(),
        &lan(4_000, traffic(400_000, 200_000, 400, 200)),
    );
    assert_eq!(aligned.quality, WindowQuality::Okay);
    assert_eq!(aligned.start_ms, 0);
    assert_eq!(aligned.end_ms, 4_000);
    assert_eq!(aligned.tx_pct, Some(100));
    assert_eq!(aligned.rx_pct, Some(100));
}

#[test]
fn pending_window_retains_only_the_last_aligned_percentage_for_display() {
    let mut coverage = NssCoverageBook::default();
    coverage.update(
        TrafficCounters::default(),
        &lan(0, TrafficCounters::default()),
    );

    let published = coverage.update(
        traffic(200_000, 400_000, 200, 400),
        &lan(2_000, traffic(400_000, 200_000, 400, 200)),
    );
    assert_eq!(published.quality, WindowQuality::Okay);
    assert_eq!(published.tx_pct, Some(100));
    assert_eq!(published.rx_pct, Some(100));

    let pending = coverage.update(
        traffic(400_000, 400_000, 400, 400),
        &lan(4_000, traffic(500_000, 300_000, 500, 300)),
    );
    assert_eq!(pending.quality, WindowQuality::Pending);
    assert_eq!(pending.tx_pct, None);
    assert_eq!(pending.rx_pct, None);
    assert_eq!(pending.retained_tx_pct, Some(100));
    assert_eq!(pending.retained_rx_pct, Some(100));

    let aligned = coverage.update(
        TrafficCounters::default(),
        &lan(6_000, traffic(800_000, 600_000, 800, 600)),
    );
    assert_eq!(aligned.quality, WindowQuality::Okay);
    assert_eq!(aligned.tx_pct, Some(100));
    assert_eq!(aligned.rx_pct, Some(100));
    assert_eq!(aligned.retained_tx_pct, None);
    assert_eq!(aligned.retained_rx_pct, None);
}

#[test]
fn low_volume_unowned_lan_traffic_remains_visible_as_low_coverage() {
    let mut coverage = NssCoverageBook::default();
    coverage.update(
        TrafficCounters::default(),
        &lan(0, TrafficCounters::default()),
    );

    let output = coverage.update(
        traffic(10_000, 0, 100, 0),
        &lan(2_000, traffic(0, 20_000, 0, 200)),
    );

    assert_eq!(output.quality, WindowQuality::LowTraffic);
    assert!(output.aligned);
    assert_eq!(output.tx_pct, Some(50));
    assert_eq!(output.rx_pct, None);
}

#[test]
fn packet_fcs_is_exact_and_counter_reset_rewarms() {
    assert_eq!(
        traffic(1_000, 2_000, 3, 5).fcs_normalized(),
        Some(traffic(1_012, 2_020, 3, 5))
    );
    let mut book = NssWindowBook::default();
    book.update(
        &nodes(0, traffic(1_000, 1_000, 10, 10)),
        lan(0, traffic(1_000, 1_000, 10, 10)),
    );
    let reset = book.update(
        &nodes(1_000, traffic(100, 100, 1, 1)),
        lan(1_000, traffic(100, 100, 1, 1)),
    );
    assert_eq!(reset.quality, WindowQuality::CounterReset);
    assert_eq!(reset.reason, "lan_counter_reset");
}

#[test]
fn physical_boundary_change_rewarms_without_reusing_old_rate() {
    let mut book = NssWindowBook::default();
    book.update(
        &nodes(0, traffic(1_000, 1_000, 10, 10)),
        lan(0, traffic(1_000, 1_000, 10, 10)),
    );
    let changed = book.update(
        &nodes(1_000, traffic(2_000, 2_000, 20, 20)),
        LanClock {
            interface: "lan1+lan2".into(),
            sample_ms: 1_000,
            counters: traffic(50_000, 50_000, 500, 500),
        },
    );
    assert_eq!(changed.quality, WindowQuality::CounterReset);
    assert_eq!(changed.reason, "lan_boundary_changed");
    assert!(changed.clients.iter().all(|client| client.tx_bps == 0));
}

#[test]
fn asymmetric_high_traffic_uses_aggregate_byte_and_packet_ownership() {
    let client = traffic(3_763_764, 109_645_207, 39_568, 75_590);
    let lan = traffic(109_940_744, 3_033_545, 75_542, 38_478);
    assert!(fits_lan_clock(client, lan));
    assert!(!directional_coverage_ready(client, lan));
    let client_normalized = client.fcs_normalized().unwrap();
    let lan_normalized = lan.fcs_normalized().unwrap();
    assert!(ownership_ready(client_normalized, lan_normalized));
    assert_eq!(
        percentage(client_normalized.tx_bytes, lan_normalized.rx_bytes),
        None
    );
    assert_eq!(
        percentage(client_normalized.rx_bytes, lan_normalized.tx_bytes),
        Some(99)
    );
}

#[test]
fn aggregate_overlap_waits_until_each_coverage_direction_is_reportable() {
    let mut coverage = NssCoverageBook::default();
    coverage.update(
        TrafficCounters::default(),
        &lan(0, TrafficCounters::default()),
    );
    let client = traffic(3_763_764, 109_645_207, 39_568, 75_590);
    let pending = coverage.update(
        client,
        &lan(1_000, traffic(109_940_744, 3_033_545, 75_542, 38_478)),
    );
    assert_eq!(pending.quality, WindowQuality::Pending);

    let aligned = coverage.update(
        TrafficCounters::default(),
        &lan(3_000, traffic(109_940_744, 3_763_764, 75_590, 39_568)),
    );
    assert_eq!(aligned.quality, WindowQuality::Okay);
    assert!(aligned.tx_pct.is_some());
    assert!(aligned.rx_pct.is_some());
}

