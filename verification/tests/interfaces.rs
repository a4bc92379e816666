use lanspeedd::interfaces::{
    parse_proc_net_dev, ErrorKind, InterfaceCounterSnapshot, InterfaceCounterSource,
    InterfaceCounters, InterfaceRateBook, MIXED_INTERFACE_SOURCE, PROC_NET_DEV_SOURCE,
};
use lanspeedd::keyed::Named;

#[test]
fn proc_net_dev_maps_bytes_and_packets_from_one_row() {
    let parsed = parse_proc_net_dev(
        "Inter-| Receive | Transmit\n\
         face |bytes packets errs drop fifo frame compressed multicast|bytes packets errs drop fifo colls carrier compressed\n\
         lan2: 287139099249 1700170484 0 479 0 0 0 34185 3789255529777 2656521506 0 0 0 0 0 0\n\
         br-lan: 84996854770 64044756 0 0 0 0 0 2442 21798991050 17413033 0 3 0 0 0 0\n",
    )
    .unwrap();

    assert_eq!(
        parsed.get("lan2"),
        Some(&InterfaceCounters {
            rx_bytes: 287_139_099_249,
            tx_bytes: 3_789_255_529_777,
            rx_packets: 1_700_170_484,
            tx_packets: 2_656_521_506,
        })
    );
    assert!(parsed.contains_key("br-lan"));
}

#[test]
fn proc_net_dev_rejects_truncated_rows() {
    let error = parse_proc_net_dev("lan2: 1 2 3 4\n").unwrap_err();
    assert_eq!(error.kind(), ErrorKind::InvalidData);
}

#[test]
fn snapshot_reports_single_and_mixed_counter_sources() {
    let snapshot = InterfaceCounterSnapshot {
        counters: Vec::new(),
        sources: vec![
            Named { name: "lan1".into(), value: InterfaceCounterSource::ProcNetDev },
            Named { name: "lan2".into(), value: InterfaceCounterSource::ProcNetDev },
            Named { name: "wlan0".into(), value: InterfaceCounterSource::Sysfs },
        ],
    };

    assert_eq!(
        snapshot.source_for(&["lan1", "lan2"]),
        Some(PROC_NET_DEV_SOURCE)
    );
    assert_eq!(
        snapshot.source_for(&["lan1", "wlan0"]),
        Some(MIXED_INTERFACE_SOURCE)
    );
    assert_eq!(snapshot.source_for(&["missing"]), None);
}

#[test]
fn two_second_window_smooths_batched_bridge_counters() {
    let mut rates = InterfaceRateBook::default();
    let counters = |rx_bytes, tx_bytes| InterfaceCounters {
        rx_bytes,
        tx_bytes,
        ..InterfaceCounters::default()
    };

    assert_eq!(
        rates.update_windowed("br-lan", counters(0, 0), 0, 2_000),
        (0, 0, 0)
    );
    assert_eq!(
        rates.update_windowed("br-lan", counters(0, 0), 1_000, 2_000),
        (0, 0, 0)
    );
    assert_eq!(
        rates.update_windowed("br-lan", counters(2_000, 4_000), 2_000, 2_000),
        (8_000, 16_000, 2_000)
    );
    assert_eq!(
        rates.update_windowed("br-lan", counters(2_000, 4_000), 3_000, 2_000),
        (8_000, 16_000, 2_000)
    );
    assert_eq!(
        rates.update_windowed("br-lan", counters(4_000, 8_000), 4_000, 2_000),
        (8_000, 16_000, 2_000)
    );
}

#[test]
fn counter_rollback_rewarms_the_window() {
    let mut rates = InterfaceRateBook::default();
    let counters = |bytes| InterfaceCounters {
        rx_bytes: bytes,
        tx_bytes: bytes,
        ..InterfaceCounters::default()
    };

    rates.update_windowed("br-lan", counters(1_000), 0, 2_000);
    assert_eq!(
        rates.update_windowed("br-lan", counters(3_000), 2_000, 2_000),
        (8_000, 8_000, 2_000)
    );
    assert_eq!(
        rates.update_windowed("br-lan", counters(10), 3_000, 2_000),
        (0, 0, 0)
    );
}
