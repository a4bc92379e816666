use lanspeedd::identity::hostname::{HostnameCache, SourceMtimes};

#[test]
fn hostname_dhcp_host_name_uses_mac_without_requiring_ip() {
    let mut cache = HostnameCache::with_capacity(8);
    cache.parse_dhcp_config(
        "config host 'cfg01'\n\toption mac '52:C4:FD:3F:36:EF'\n\toption name 'nas'\n",
    );
    assert_eq!(cache.lookup("52:c4:fd:3f:36:ef", &[]), Some("nas"));
}

#[test]
fn hostname_dhcp_host_name_overrides_lease_name_for_mac_and_ip() {
    let mut cache = HostnameCache::with_capacity(8);
    cache.parse_leases("123 52:c4:fd:3f:36:ef 192.0.2.10 lease-name *\n");
    cache.parse_dhcp_config(
        "config host 'cfg01'\n\toption mac '52:C4:FD:3F:36:EF'\n\toption ip '192.0.2.10'\n\toption name 'custom-name'\n",
    );
    assert_eq!(cache.lookup("52:c4:fd:3f:36:ef", &[]), Some("custom-name"));
    assert_eq!(
        cache.lookup("00:11:22:33:44:55", &["192.0.2.10"]),
        Some("custom-name")
    );
}

#[test]
fn hostname_dhcp_host_name_applies_to_each_mac_in_a_list() {
    let mut cache = HostnameCache::with_capacity(8);
    cache.parse_dhcp_config(
        "config host 'cfg01'\n\tlist mac '52:c4:fd:3f:36:ef'\n\tlist mac 'fe:25:75:2b:70:7d'\n\toption name 'nas'\n",
    );
    assert_eq!(cache.lookup("fe:25:75:2b:70:7d", &[]), Some("nas"));
}

#[test]
fn hostname_tests_dhcp_host_name_uses_mac_without_requiring_ip() {
    let mut cache = HostnameCache::with_capacity(8);
    cache.parse_dhcp_config(
        "config host 'cfg01'\n\toption mac '52:C4:FD:3F:36:EF'\n\toption name 'nas'\n",
    );
    assert_eq!(cache.lookup("52:c4:fd:3f:36:ef", &[]), Some("nas"));
}

#[test]
fn hostname_tests_dhcp_host_name_overrides_lease_name_for_mac_and_ip() {
    let mut cache = HostnameCache::with_capacity(8);
    cache.parse_leases("123 52:c4:fd:3f:36:ef 192.0.2.10 lease-name *\n");
    cache.parse_dhcp_config(
        "config host 'cfg01'\n\toption mac '52:C4:FD:3F:36:EF'\n\toption ip '192.0.2.10'\n\toption name 'custom-name'\n",
    );
    assert_eq!(cache.lookup("52:c4:fd:3f:36:ef", &[]), Some("custom-name"));
    assert_eq!(
        cache.lookup("00:11:22:33:44:55", &["192.0.2.10"]),
        Some("custom-name")
    );
}

#[test]
fn hostname_tests_dhcp_host_name_applies_to_each_mac_in_a_list() {
    let mut cache = HostnameCache::with_capacity(8);
    cache.parse_dhcp_config(
        "config host 'cfg01'\n\tlist mac '52:c4:fd:3f:36:ef'\n\tlist mac 'fe:25:75:2b:70:7d'\n\toption name 'nas'\n",
    );
    assert_eq!(cache.lookup("fe:25:75:2b:70:7d", &[]), Some("nas"));
}

#[test]
fn refresh_is_due_when_forced_first_and_after_the_interval() {
    let mut cache = HostnameCache::with_capacity(8);
    assert!(cache.refresh_due(5, false));
    let mtimes = SourceMtimes { leases: 1, hosts_dir: 2, etc_hosts: 3, dhcp_config: 4 };
    cache.finish_refresh(1_000, mtimes);
    assert!(!cache.refresh_due(5_000, false));
    assert!(cache.refresh_due(5_000, true));
    assert!(!cache.refresh_due(10_999, false));
    assert!(cache.refresh_due(11_000, false));
    assert!(cache.refresh_due(500, false));
}

#[test]
fn a_refresh_starts_from_no_names_and_counts_what_it_walks() {
    let mut cache = HostnameCache::with_capacity(1);
    cache.parse_dhcp_config(
        "config host 'cfg01'\n\toption mac '52:C4:FD:3F:36:EF'\n\toption name 'nas'\n",
    );
    assert_eq!(cache.lookup("52:c4:fd:3f:36:ef", &[]), Some("nas"));
    cache.begin_refresh();
    assert_eq!(cache.lookup("52:c4:fd:3f:36:ef", &[]), None);
    assert!(cache.etc_hosts_wanted());
    assert!(!cache.hosts_dir_full(10));
    assert!(cache.hosts_dir_full(0));
    cache.note_directory_entry();
    cache.note_host_file();
    assert_eq!(cache.last_refresh_stats().directory_entries, 1);
    assert_eq!(cache.last_refresh_stats().host_files, 1);
    cache.parse_hosts_file("192.0.2.10 printer\n");
    assert!(!cache.etc_hosts_wanted());
    assert!(cache.hosts_dir_full(10));
}

#[test]
fn reading_sources_skips_lines_that_are_not_text_and_counts_the_bytes() {
    let mut cache = HostnameCache::with_capacity(8);
    let mut hosts: Vec<u8> = b"192.0.2.10 printer\n".to_vec();
    hosts.extend_from_slice(&[0xff, 0xfe, b' ', b'x', b'\n']);
    hosts.extend_from_slice(b"192.0.2.11 scanner\n");
    let read = cache.read_hosts(&hosts, 1_000);
    assert_eq!(read, hosts.len());
    assert_eq!(cache.lookup("02:00:00:00:00:99", &["192.0.2.10"]), Some("printer"));
    assert_eq!(cache.lookup("02:00:00:00:00:99", &["192.0.2.11"]), Some("scanner"));
    assert_eq!(cache.last_refresh_stats().bytes_read, hosts.len());
    let cut = cache.read_hosts(b"192.0.2.12 copier\n", 5);
    assert_eq!(cut, 5);
    assert_eq!(cache.lookup("02:00:00:00:00:99", &["192.0.2.12"]), None);
    assert_eq!(cache.last_refresh_stats().bytes_read, hosts.len() + 5);
}

#[test]
fn a_dhcp_configuration_that_is_not_text_is_not_read() {
    let mut cache = HostnameCache::with_capacity(8);
    let mut config: Vec<u8> = b"config host 'cfg01'\n\toption mac '52:C4:FD:3F:36:EF'\n\toption name 'nas'\n".to_vec();
    assert_eq!(cache.read_dhcp_config(&config, 4_096), config.len());
    assert_eq!(cache.lookup("52:c4:fd:3f:36:ef", &[]), Some("nas"));
    config.push(0xff);
    let mut other = HostnameCache::with_capacity(8);
    assert_eq!(other.read_dhcp_config(&config, 4_096), 0);
    assert_eq!(other.lookup("52:c4:fd:3f:36:ef", &[]), None);
    assert_eq!(other.last_refresh_stats().bytes_read, 0);
}

#[test]
fn a_full_cache_reads_no_more_hosts() {
    let mut cache = HostnameCache::with_capacity(1);
    assert_eq!(cache.read_hosts(b"192.0.2.10 printer\n", 100), 19);
    assert_eq!(cache.read_hosts(b"192.0.2.11 scanner\n", 100), 0);
    assert_eq!(cache.lookup("02:00:00:00:00:99", &["192.0.2.11"]), None);
}
