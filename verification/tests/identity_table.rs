use lanspeedd::identity::{
    normalize_ip_address, FrameKind, IdentityObservation, IdentityTable, ObservationSource,
};

fn sighting<'a>(mac: &'a str, ip: &'a str) -> IdentityObservation<'a> {
    IdentityObservation {
        mac,
        zone: Some("lan"),
        interface: "br-lan",
        ip: Some(ip),
        hostname: None,
        last_seen: 1,
        source: ObservationSource::Neighbor,
    }
}

#[test]
fn exclusion_disowns_only_the_router_mac() {
    let mut table = IdentityTable::new(4);
    assert!(table.traffic_is_client_owned("02:00:00:00:00:01", FrameKind::Unicast));
    assert!(table.exclude_router_mac("02:00:00:00:00:01").is_ok());
    assert!(!table.traffic_is_client_owned("02:00:00:00:00:01", FrameKind::Unicast));
    assert!(table.traffic_is_client_owned("02:00:00:00:00:02", FrameKind::Unicast));
    assert!(!table.traffic_is_client_owned("02:00:00:00:00:02", FrameKind::Broadcast));
    assert!(!table.traffic_is_client_owned("01:00:5e:00:00:01", FrameKind::Unicast));
}

#[test]
fn sightings_never_change_ownership_and_stay_within_the_limit() {
    let mut table = IdentityTable::new(2);
    assert!(table.exclude_router_mac("02:00:00:00:00:09").is_ok());
    assert_eq!(table.observe(sighting("02:00:00:00:00:01", "192.0.2.1")), Ok(true));
    assert_eq!(table.observe(sighting("02:00:00:00:00:02", "192.0.2.2")), Ok(true));
    assert_eq!(table.observe(sighting("02:00:00:00:00:03", "192.0.2.3")), Ok(false));
    assert_eq!(table.observe(sighting("02:00:00:00:00:09", "192.0.2.9")), Ok(false));
    for ip in ["192.0.2.11", "192.0.2.12", "192.0.2.13", "192.0.2.14", "192.0.2.15"] {
        assert_eq!(table.observe(sighting("02:00:00:00:00:01", ip)), Ok(true));
    }
    assert_eq!(table.clients().len(), 2);
    assert!(table.clients().iter().all(|c| c.ips.len() <= 4));
    assert!(table.traffic_is_client_owned("02:00:00:00:00:01", FrameKind::Unicast));
    assert!(!table.traffic_is_client_owned("02:00:00:00:00:09", FrameKind::Unicast));
}

#[test]
fn address_texts_are_normalised_to_their_canonical_form() {
    assert_eq!(normalize_ip_address(""), None);
    assert_eq!(normalize_ip_address("192.0.2.1"), Some("192.0.2.1".to_string()));
    assert_eq!(normalize_ip_address("2001:DB8:0:0::0002"), Some("2001:db8::2".to_string()));
    assert_eq!(normalize_ip_address("::FFFF:192.0.2.10"), Some("::ffff:192.0.2.10".to_string()));
    assert_eq!(normalize_ip_address("fe80:0:0:0:1::"), Some("fe80::1:0:0:0".to_string()));
    assert_eq!(normalize_ip_address("not-an-address"), Some("not-an-address".to_string()));
    assert_eq!(normalize_ip_address("192.0.2.1 "), Some("192.0.2.1 ".to_string()));
}

#[test]
fn a_sighting_files_its_address_in_canonical_form() {
    let mut table = IdentityTable::new(4);
    assert_eq!(table.observe(sighting("02:00:00:00:00:01", "2001:0DB8::0002")), Ok(true));
    assert_eq!(table.observe(sighting("02:00:00:00:00:01", "2001:db8::2")), Ok(true));
    let clients = table.into_clients();
    assert_eq!(clients.len(), 1);
    assert_eq!(clients[0].ips, vec!["2001:db8::2".to_string()]);
}
