use lanspeedd::collectors::conntrack::IpAddress;
use lanspeedd::control::observe::{insert_ip, normalize_ips, observe_clients};
use lanspeedd::control::ControlPlatform;
use lanspeedd::keyed::Named;
use lanspeedd::model::{Client, Confidence};

fn client(key: &str, interface: &str, ips: &[&str]) -> Client {
    Client {
        mac: String::new(),
        identity_key: key.to_string(),
        zone: "lan".to_string(),
        interface: interface.to_string(),
        ips: ips.iter().map(|s| s.to_string()).collect(),
        hostname: None,
        rx_bps: 0,
        tx_bps: 0,
        last_seen: 0,
        sample_ms: None,
        rx_bytes: None,
        tx_bytes: None,
        collector_mode: String::new(),
        confidence: Confidence::High,
        warnings: Vec::new(),
        tcp_conns: None,
        udp_conns: None,
        udp_dns_conns: None,
        udp_other_conns: None,
        rate_meta: None,
        control: None,
    }
}

#[test]
fn addresses_are_parsed_sorted_and_deduplicated() {
    let texts = vec![
        "192.168.1.20".to_string(),
        "fd00::1".to_string(),
        "not an address".to_string(),
        "192.168.1.3".to_string(),
        "192.168.1.20".to_string(),
    ];
    let ips = normalize_ips(&texts);
    assert_eq!(
        ips,
        vec![
            IpAddress::V4([192, 168, 1, 3]),
            IpAddress::V4([192, 168, 1, 20]),
            IpAddress::V6([0xfd, 0, 0, 0, 0, 0, 0, 0, 0, 0, 0, 0, 0, 0, 0, 1]),
        ]
    );
    let mut list = ips.clone();
    insert_ip(&mut list, IpAddress::V4([10, 0, 0, 1]));
    assert_eq!(list[0], IpAddress::V4([10, 0, 0, 1]));
    insert_ip(&mut list, IpAddress::V4([10, 0, 0, 1]));
    assert_eq!(list.len(), 4);
}

#[test]
fn observed_clients_keep_valid_keys_last_sighting_and_mark_shared_addresses() {
    let clients = vec![
        client("02:00:00:00:00:01@lan", "br-lan", &["192.168.1.2"]),
        client("not-a-key", "br-lan", &["192.168.1.9"]),
        client("02:00:00:00:00:02@lan", "wlan0", &["192.168.1.5", "192.168.1.2"]),
        client("02:00:00:00:00:01@lan", "tun0", &["192.168.1.7", "192.168.1.2"]),
    ];
    let mut devices = vec!["br-lan".to_string()];
    let live = observe_clients(&clients, &Vec::new(), &mut devices, ControlPlatform::Generic);
    assert_eq!(live.len(), 2);
    let first = live.iter().find(|l| l.identity_key == "02:00:00:00:00:01@lan").unwrap();
    assert_eq!(first.interface, None);
    assert_eq!(first.ips, vec!["192.168.1.2".to_string(), "192.168.1.7".to_string()]);
    assert!(first.ambiguous);
    let second = live.iter().find(|l| l.identity_key == "02:00:00:00:00:02@lan").unwrap();
    assert_eq!(second.interface.as_deref(), Some("wlan0"));
    assert!(second.ambiguous);
    assert_eq!(devices, vec!["br-lan".to_string(), "wlan0".to_string()]);
}

#[test]
fn leases_add_an_address_only_for_a_missing_family() {
    let clients = vec![client("02:00:00:00:00:01@lan", "br-lan", &["192.168.1.2"])];
    let leases = vec![
        Named {
            name: "02:00:00:00:00:01@lan".to_string(),
            value: vec![
                IpAddress::V4([192, 168, 1, 50]),
                IpAddress::V6([0xfd, 0, 0, 0, 0, 0, 0, 0, 0, 0, 0, 0, 0, 0, 0, 9]),
            ],
        },
        Named {
            name: "02:00:00:00:00:03@lan".to_string(),
            value: vec![IpAddress::V4([192, 168, 1, 60])],
        },
    ];
    let mut devices = Vec::new();
    let live = observe_clients(&clients, &leases, &mut devices, ControlPlatform::Generic);
    assert_eq!(live.len(), 2);
    let first = live.iter().find(|l| l.identity_key == "02:00:00:00:00:01@lan").unwrap();
    assert_eq!(first.ips, vec!["192.168.1.2".to_string(), "fd00::9".to_string()]);
    assert!(!first.ambiguous);
    let leased = live.iter().find(|l| l.identity_key == "02:00:00:00:00:03@lan").unwrap();
    assert_eq!(leased.interface, None);
    assert_eq!(leased.ips, vec!["192.168.1.60".to_string()]);
}

use lanspeedd::control::observe::lease_addresses_from;
use lanspeedd::control::ControlRule;
use lanspeedd::identity::MacAddress;
use std::str::FromStr;

fn rule(key: &str, mac: &str) -> ControlRule {
    ControlRule {
        identity_key: key.to_string(),
        mac: MacAddress::from_str(mac).unwrap(),
        upload_bps: 8_000,
        download_bps: 0,
        internet_disabled: false,
        class_minor: 0x7c00,
    }
}

#[test]
fn leases_are_read_for_every_rule_naming_the_mac() {
    let contents = "0 02:00:00:00:00:01 192.168.1.50 host *\n\
                    100 02:00:00:00:00:01 192.168.1.51 host *\n\
                    2000 02:00:00:00:00:01 fd00::5 host *\n\
                    2000 02:00:00:00:00:09 192.168.1.90 other *\n\
                    garbage line\n\
                    2000 02:00:00:00:00:01 192.168.1.50 again *";
    let lines: Vec<Vec<u8>> = contents.lines().map(|l| l.as_bytes().to_vec()).collect();
    let rules = vec![
        rule("02:00:00:00:00:01@lan", "02:00:00:00:00:01"),
        rule("02:00:00:00:00:01@guest", "02:00:00:00:00:01"),
    ];
    let leases = lease_addresses_from(&lines, &rules, 1000);
    assert_eq!(leases.len(), 2);
    for entry in &leases {
        assert_eq!(
            entry.value,
            vec![
                IpAddress::V4([192, 168, 1, 50]),
                IpAddress::V6([0xfd, 0, 0, 0, 0, 0, 0, 0, 0, 0, 0, 0, 0, 0, 0, 5]),
            ]
        );
    }
}
