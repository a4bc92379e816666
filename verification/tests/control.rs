use lanspeedd::control::{
    allocate_class_minor, conntrack_delete_succeeded, control_requires_address, control_update_is_not_more_restrictive,
    parse_identity_key, parse_rate, public_control_error, queue_bytes, queue_drops_increased,
    section_name, ClientControlRequest, ControlPlatform, ControlRule, DEFAULT_FIFO_HANDLE_MINOR,
    NSS_FIRST_CLASS_MINOR, MAX_QUEUE_BYTES, MIN_QUEUE_BYTES, NSS_MAX_RATE_BPS,
};
use lanspeedd::identity::MacAddress;
use lanspeedd::keyed::Named;
use std::str::FromStr;

fn counter(name: &str, value: u64) -> Named<u64> {
    Named { name: name.to_owned(), value }
}

#[test]
fn queue_is_half_second_and_bounded() {
    assert_eq!(queue_bytes(8_000), MIN_QUEUE_BYTES);
    assert_eq!(queue_bytes(80_000_000), 5_000_000);
    assert_eq!(queue_bytes(u64::MAX), MAX_QUEUE_BYTES);
}

#[test]
fn ambiguous_identity_can_only_remove_or_relax_existing_control() {
    let previous = ControlRule {
        identity_key: "02:00:00:00:00:01@lan".into(),
        mac: "02:00:00:00:00:01".parse().unwrap(),
        upload_bps: 10_000_000,
        download_bps: 20_000_000,
        internet_disabled: true,
        class_minor: NSS_FIRST_CLASS_MINOR,
    };
    let request = |upload_bps, download_bps, internet_disabled| ClientControlRequest {
        identity_key: previous.identity_key.clone(),
        upload_bps,
        download_bps,
        internet_disabled,
    };
    assert!(control_update_is_not_more_restrictive(
        &previous,
        &request(0, 0, false)
    ));
    assert!(control_update_is_not_more_restrictive(
        &previous,
        &request(20_000_000, 20_000_000, false)
    ));
    assert!(!control_update_is_not_more_restrictive(
        &previous,
        &request(8_000_000, 20_000_000, false)
    ));
}

#[test]
fn identity_parser_rejects_command_text() {
    assert!(parse_identity_key("aa:bb:cc:dd:ee:01@lan;reboot").is_err());
    assert!(parse_identity_key("$(reboot)@lan").is_err());
    assert!(parse_identity_key("aa:bb:cc:dd:ee:01@lan").is_ok());
}

#[test]
fn decimal_rate_parser_is_strict() {
    let platform = ControlPlatform::Generic;
    assert_eq!(parse_rate(Some("8000".into()), platform).unwrap(), 8_000);
    assert!(parse_rate(Some("8mbit".into()), platform).is_err());
    assert!(parse_rate(Some("8000;reboot".into()), platform).is_err());
    assert!(parse_rate(Some("8001".into()), platform).is_err());
}

#[test]
fn nss_build_accepts_only_its_u32_safe_rate_range() {
    let platform = ControlPlatform::Nss;
    assert_eq!(parse_rate(Some("0".into()), platform).unwrap(), 0);
    assert_eq!(parse_rate(Some("8000".into()), platform).unwrap(), 8_000);
    assert_eq!(
        parse_rate(Some(NSS_MAX_RATE_BPS.to_string()), platform).unwrap(),
        NSS_MAX_RATE_BPS
    );
    assert!(parse_rate(Some((NSS_MAX_RATE_BPS + 8).to_string()), platform).is_err());
}

#[test]
fn uci_section_names_are_stable_and_contain_no_identity_text() {
    let identity = "02:00:00:00:00:01@lan";
    let name = section_name(identity);
    assert_eq!(name, section_name(identity));
    assert!(name.starts_with("control_"));
    assert!(!name.contains("02:00"));
    assert_ne!(name, section_name("02:00:00:00:00:02@lan"));
}

#[test]
fn class_allocator_never_collides_with_default_fifo_handle() {
    let mut rules: Vec<ControlRule> = Vec::new();
    for index in 0..512u16 {
        let identity = format!("02:00:00:00:{:02x}:{:02x}@lan", index >> 8, index & 0xff);
        let minor = allocate_class_minor(&rules, &identity, ControlPlatform::Generic);
        assert_ne!(minor, DEFAULT_FIFO_HANDLE_MINOR);
        rules.push(ControlRule {
            identity_key: identity,
            mac: MacAddress::from_str("02:00:00:00:00:01").unwrap(),
            upload_bps: 8_000,
            download_bps: 8_000,
            internet_disabled: false,
            class_minor: minor,
        });
    }
}

#[test]
fn platform_errors_never_publish_raw_command_or_address_text() {
    let raw = "tc_failed: device private0 at 192.0.2.99: qdisc_inspection_failed";
    assert_eq!(public_control_error(raw), "qdisc_inspection_failed");
    assert_eq!(
        public_control_error("secret unexpected stderr"),
        "control_apply_failed"
    );
    assert_eq!(
        public_control_error("cpu_path_qdisc_owned_by_external_service"),
        "cpu_path_qdisc_owned_by_external_service"
    );
}

#[test]
fn empty_conntrack_delete_is_success_but_real_errors_are_not() {
    assert!(conntrack_delete_succeeded(true, Some(0), b""));
    assert!(conntrack_delete_succeeded(
        false,
        Some(1),
        b"conntrack: 0 flow entries have been deleted"
    ));
    assert!(!conntrack_delete_succeeded(
        false,
        Some(1),
        b"operation not permitted"
    ));
}

#[test]
fn queue_overflow_requires_an_observed_drop_increment() {
    let previous = vec![counter("upload", 3), counter("download", 7)];
    assert!(!queue_drops_increased(
        &Vec::new(),
        &vec![counter("upload", 9)]
    ));
    assert!(!queue_drops_increased(
        &previous,
        &vec![counter("upload", 3), counter("download", 6)]
    ));
    assert!(queue_drops_increased(
        &previous,
        &vec![counter("upload", 4), counter("download", 7)]
    ));
}

#[test]
fn the_generic_build_accepts_rates_up_to_its_own_maximum() {
    let platform = ControlPlatform::Generic;
    assert_eq!(
        parse_rate(Some((NSS_MAX_RATE_BPS + 8).to_string()), platform).unwrap(),
        NSS_MAX_RATE_BPS + 8
    );
    assert_eq!(parse_rate(Some("100000000000".into()), platform).unwrap(), 100_000_000_000);
    assert!(parse_rate(Some("100000000008".into()), platform).is_err());
}

#[test]
fn each_build_allocates_classes_from_its_own_range() {
    let rules: Vec<ControlRule> = Vec::new();
    let key = "02:00:00:00:00:01@lan";
    let nss = allocate_class_minor(&rules, key, ControlPlatform::Nss);
    assert!((0x7c00..=0x7cff).contains(&nss));
    let generic = allocate_class_minor(&rules, key, ControlPlatform::Generic);
    assert!((0x100..=0xfffe).contains(&generic));
}

#[test]
fn only_the_accelerated_build_needs_an_address_to_shape() {
    assert!(control_requires_address(8_000, 0, false, ControlPlatform::Nss));
    assert!(!control_requires_address(8_000, 0, false, ControlPlatform::Generic));
    assert!(control_requires_address(0, 0, true, ControlPlatform::Generic));
}
