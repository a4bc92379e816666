use lanspeedd::identity::netlink::{
    parse_neighbor, parse_neighbor_dump_in, select_neighbors, NetlinkParseError, RawNeighbor,
};

fn header(len: u32, kind: u16, flags: u16, seq: u32) -> Vec<u8> {
    let mut out = Vec::new();
    out.extend_from_slice(&len.to_le_bytes());
    out.extend_from_slice(&kind.to_le_bytes());
    out.extend_from_slice(&flags.to_le_bytes());
    out.extend_from_slice(&seq.to_le_bytes());
    out.extend_from_slice(&0u32.to_le_bytes());
    out
}

fn neighbor_message(seq: u32, ifindex: i32, state: u16, last: u8) -> Vec<u8> {
    let mut payload = vec![10u8, 0, 0, 0];
    payload.extend_from_slice(&ifindex.to_le_bytes());
    payload.extend_from_slice(&state.to_le_bytes());
    payload.extend_from_slice(&[0, 0]);
    payload.extend_from_slice(&20u16.to_le_bytes());
    payload.extend_from_slice(&1u16.to_le_bytes());
    let mut ip = [0u8; 16];
    ip[0] = 0xfd;
    ip[15] = last;
    payload.extend_from_slice(&ip);
    payload.extend_from_slice(&10u16.to_le_bytes());
    payload.extend_from_slice(&2u16.to_le_bytes());
    payload.extend_from_slice(&[0x02, 0, 0, 0, 0, last]);
    payload.extend_from_slice(&[0, 0]);
    let mut out = header(16 + payload.len() as u32, 28, 2, seq);
    out.extend_from_slice(&payload);
    out
}

fn done_message(seq: u32, status: i32) -> Vec<u8> {
    let mut out = header(20, 3, 2, seq);
    out.extend_from_slice(&status.to_le_bytes());
    out
}

#[test]
fn a_neighbour_dump_lists_usable_ipv6_neighbours_until_done() {
    let mut bytes = neighbor_message(7, 3, 0x02, 1);
    bytes.extend(neighbor_message(7, 3, 0x20, 2));
    bytes.extend(neighbor_message(9, 3, 0x02, 3));
    bytes.extend(done_message(7, 0));
    let dump = parse_neighbor_dump_in(&bytes, Some(7), true).unwrap();
    assert!(dump.done);
    assert_eq!(dump.neighbors.len(), 1);
    assert_eq!(dump.neighbors[0].ifindex, 3);
    assert_eq!(dump.neighbors[0].ip[15], 1);
    assert_eq!(dump.neighbors[0].mac, [0x02, 0, 0, 0, 0, 1]);
}

#[test]
fn a_neighbour_dump_reports_kernel_errors_and_bad_lengths() {
    let bytes = done_message(7, -16);
    assert_eq!(
        parse_neighbor_dump_in(&bytes, Some(7), true).err(),
        Some(NetlinkParseError::Kernel(-16))
    );
    assert_eq!(
        parse_neighbor_dump_in(&[1, 2, 3], None, true).err(),
        Some(NetlinkParseError::TruncatedHeader)
    );
    let mut bad = header(12, 28, 0, 1);
    bad.extend_from_slice(&[0, 0, 0, 0]);
    assert_eq!(
        parse_neighbor_dump_in(&bad, None, true).err(),
        Some(NetlinkParseError::InvalidMessageLength(12))
    );
    let interrupted = header(16, 28, 0x10, 1);
    assert_eq!(
        parse_neighbor_dump_in(&interrupted, None, true).err(),
        Some(NetlinkParseError::DumpInterrupted)
    );
    let empty = parse_neighbor_dump_in(&[], None, true).unwrap();
    assert!(!empty.done && empty.neighbors.is_empty());
}

#[test]
fn a_neighbour_without_a_link_layer_address_is_skipped() {
    let mut payload = vec![10u8, 0, 0, 0];
    payload.extend_from_slice(&3i32.to_le_bytes());
    payload.extend_from_slice(&2u16.to_le_bytes());
    payload.extend_from_slice(&[0, 0]);
    payload.extend_from_slice(&20u16.to_le_bytes());
    payload.extend_from_slice(&1u16.to_le_bytes());
    payload.extend_from_slice(&[0u8; 16]);
    assert!(parse_neighbor(&payload, true).is_none());
}

#[test]
fn selection_drops_excluded_interfaces_repeats_and_entries_past_the_limit() {
    let raw = |last: u8| RawNeighbor {
        ifindex: 3,
        ip: {
            let mut ip = [0u8; 16];
            ip[0] = 0xfd;
            ip[15] = last;
            ip
        },
        mac: [0x02, 0, 0, 0, 0, last],
    };
    let neighbors = vec![raw(1), raw(2), raw(1), raw(3), raw(4)];
    let names = vec![
        ("br-lan".to_string(), "lan".to_string()),
        ("tun0".to_string(), "lan".to_string()),
        ("br-lan".to_string(), "lan".to_string()),
        ("br-lan".to_string(), "lan".to_string()),
        ("br-lan".to_string(), "lan".to_string()),
    ];
    let entries = select_neighbors(&neighbors, &names, 2);
    assert_eq!(entries.len(), 2);
    assert_eq!(entries[0].ip, "fd00::1");
    assert_eq!(entries[0].mac.text(), "02:00:00:00:00:01");
    assert_eq!(entries[1].ip, "fd00::3");
    assert_eq!(entries[1].interface, "br-lan");
    assert_eq!(entries[1].zone, "lan");
}
