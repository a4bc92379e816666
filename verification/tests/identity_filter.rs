use lanspeedd::identity::arp::parse_arp_table;
use lanspeedd::identity::filter::{IdentityFilter, InterfacePrefix};
use lanspeedd::identity::netlink::{NeighborCollector, NeighborReadError, MAX_NEIGHBOR_DUMP_BYTES};
use lanspeedd::identity::{MacAddress, NeighborEntry};

fn refusal(text: &str) -> String {
    match text.parse::<InterfacePrefix>() {
        Ok(_) => panic!("accepted {text}"),
        Err(message) => message,
    }
}

#[test]
fn prefix_texts_are_refused_with_the_reason() {
    assert_eq!(refusal("br-lan"), "interface prefix must contain '='");
    assert_eq!(refusal("br-lan=192.0.2.0"), "interface prefix must contain '/'");
    assert_eq!(refusal("br-lan=bad/24"), "invalid prefix address: invalid IP address syntax");
    assert_eq!(refusal("br-lan=192.0.2.0/"), "invalid prefix length: cannot parse integer from empty string");
    assert_eq!(refusal("br-lan=192.0.2.0/+"), "invalid prefix length: invalid digit found in string");
    assert_eq!(refusal("br-lan=192.0.2.0/2x"), "invalid prefix length: invalid digit found in string");
    assert_eq!(refusal("br-lan=192.0.2.0/300"), "invalid prefix length: number too large to fit in target type");
    assert_eq!(refusal("br-lan=192.0.2.0/33"), "invalid interface prefix");
    assert_eq!(refusal("=192.0.2.0/24"), "invalid interface prefix");
    assert!("br-lan=2001:db8::/129".parse::<InterfacePrefix>().is_err());
    assert!("br-lan=2001:db8::/128".parse::<InterfacePrefix>().is_ok());
    assert!("br-lan=192.0.2.0/+24".parse::<InterfacePrefix>().is_ok());
}

#[test]
fn configured_values_select_usable_interfaces_once() {
    let filter = IdentityFilter::from_uci_values(&["br-lan, wlan0 tun0", "br-lan\tlan1", ""]);
    assert_eq!(filter.interfaces(), &["br-lan".to_string(), "wlan0".to_string(), "lan1".to_string()]);
    assert!(filter.is_enabled());
    assert!(!IdentityFilter::disabled().is_enabled());
    let long = "a".repeat(300);
    let filter = IdentityFilter::from_uci_values(&[long.as_str()]);
    assert!(filter.interfaces().is_empty());
}

#[test]
fn the_filter_lets_through_selected_interfaces_within_their_prefixes() {
    assert!(IdentityFilter::disabled().allows("eth9", "not an address"));
    let mut filter = IdentityFilter::from_uci_values(&["br-lan wlan0"]);
    assert!(filter.allows("br-lan", "192.0.2.9"));
    assert!(!filter.allows("eth1", "192.0.2.9"));
    assert!(!filter.allows("br-lan", "not an address"));
    filter.add_prefix("eth1=192.0.2.0/24".parse().unwrap());
    assert!(filter.allows("br-lan", "198.51.100.1"));
    filter.add_prefix("br-lan=192.0.2.0/25".parse().unwrap());
    assert!(filter.allows("br-lan", "192.0.2.9"));
    assert!(!filter.allows("br-lan", "192.0.2.200"));
    assert!(!filter.allows("br-lan", "2001:db8::1"));
    assert!(!filter.allows("wlan0", "192.0.2.9"));
    filter.add_prefix("wlan0=2001:db8:1::/48".parse().unwrap());
    assert!(filter.allows("wlan0", "2001:db8:1:ff::7"));
    assert!(!filter.allows("wlan0", "2001:db8:2::7"));
    filter.add_prefix("wlan0=0.0.0.0/0".parse().unwrap());
    assert!(filter.allows("wlan0", "203.0.113.5"));
}

fn entry(ip: &str, interface: &str) -> NeighborEntry {
    NeighborEntry {
        ip: ip.to_string(),
        mac: MacAddress::parse("02:00:00:00:00:01").unwrap(),
        interface: interface.to_string(),
        zone: "lan".to_string(),
    }
}

#[test]
fn a_neighbour_read_keeps_one_entry_per_address_over_datagrams() {
    let filter = IdentityFilter::from_uci_values(&["br-lan"]);
    let mut read = NeighborCollector::new(3);
    assert_eq!(read.count_datagram(100), Ok(()));
    assert_eq!(read.remaining(), 3);
    let done = read.absorb(vec![entry("2001:db8::1", "br-lan"), entry("2001:db8::2", "eth1")], false, &filter);
    assert!(!done);
    assert_eq!(read.remaining(), 2);
    let done = read.absorb(
        vec![entry("2001:db8::1", "br-lan"), entry("2001:db8::3", "br-lan"), entry("2001:db8::4", "br-lan"), entry("2001:db8::5", "br-lan")],
        true,
        &filter,
    );
    assert!(done);
    let ips: Vec<String> = read.into_entries().into_iter().map(|e| e.ip).collect();
    assert_eq!(ips, vec!["2001:db8::1", "2001:db8::3", "2001:db8::4"]);
}

#[test]
fn a_neighbour_dump_over_the_byte_bound_fails() {
    let mut read = NeighborCollector::new(8);
    assert_eq!(read.count_datagram(MAX_NEIGHBOR_DUMP_BYTES), Ok(()));
    assert_eq!(read.count_datagram(1), Err(NeighborReadError::ExceedsBound));
    assert_eq!(NeighborReadError::ExceedsBound.describe(), "rtnetlink dump exceeds bound");
}

const ARP_TABLE: &str = "IP address       HW type     Flags       HW address            Mask     Device
192.0.2.10       0x1         0x2         02:00:00:00:00:01     *        br-lan
192.0.2.11       0x1         0x0         02:00:00:00:00:02     *        br-lan
192.0.2.12       0x1         0x2         00:00:00:00:00:00     *        br-lan
192.0.2.13       0x1         0x2         02:00:00:00:00:03     *        tun0
192.0.2.14       0x1         02          02:00:00:00:00:04     *        wlan0
192.0.2.15       0x1
";

#[test]
fn the_arp_table_gives_complete_client_rows() {

    let rows = parse_arp_table(ARP_TABLE, 10, &IdentityFilter::disabled());
    let ips: Vec<&str> = rows.iter().map(|r| r.ip.as_str()).collect();
    assert_eq!(ips, vec!["192.0.2.10", "192.0.2.14"]);
    assert_eq!(rows[1].interface, "wlan0");
    assert_eq!(rows[0].mac, MacAddress::parse("02:00:00:00:00:01").unwrap());
    assert_eq!(parse_arp_table(ARP_TABLE, 1, &IdentityFilter::disabled()).len(), 1);
    let only_lan = IdentityFilter::from_uci_values(&["br-lan"]);
    assert_eq!(parse_arp_table(ARP_TABLE, 10, &only_lan).len(), 1);
    assert!(parse_arp_table("", 10, &IdentityFilter::disabled()).is_empty());
    let no_newline = "header\n192.0.2.20 0x1 -0x10 02:00:00:00:00:09 * br-lan";
    assert_eq!(parse_arp_table(no_newline, 10, &IdentityFilter::disabled()).len(), 1);
    let octal_zero = "header\n192.0.2.21 0x1 08 02:00:00:00:00:09 * br-lan\n";
    assert!(parse_arp_table(octal_zero, 10, &IdentityFilter::disabled()).is_empty());
}
