use lanspeedd::collectors::conntrack::netlink::{
    build_dump_request_in, parse_dump_detailed_in, parse_flow, validate_dump_size, Datagram,
    DumpError, DumpParser,
};
use lanspeedd::collectors::conntrack::{IpAddress, Protocol, TcpState};

fn attr(kind: u16, payload: &[u8]) -> Vec<u8> {
    let len = (4 + payload.len()) as u16;
    let mut out = Vec::new();
    out.extend_from_slice(&len.to_le_bytes());
    out.extend_from_slice(&kind.to_le_bytes());
    out.extend_from_slice(payload);
    while out.len() % 4 != 0 {
        out.push(0);
    }
    out
}

fn nested(kind: u16, parts: &[Vec<u8>]) -> Vec<u8> {
    let body: Vec<u8> = parts.concat();
    attr(kind | 0x8000, &body)
}

fn tuple(kind: u16, src: [u8; 4], dst: [u8; 4], proto: u8, sport: u16, dport: u16) -> Vec<u8> {
    nested(
        kind,
        &[
            nested(1, &[attr(1, &src), attr(2, &dst)]),
            nested(2, &[attr(1, &[proto]), attr(2, &sport.to_be_bytes()), attr(3, &dport.to_be_bytes())]),
        ],
    )
}

fn counters(kind: u16, bytes: u64) -> Vec<u8> {
    nested(kind, &[attr(2, &bytes.to_be_bytes())])
}

fn flow_payload() -> Vec<u8> {
    let mut payload = vec![2u8, 0, 0, 0];
    payload.extend(tuple(1, [192, 0, 2, 9], [198, 51, 100, 1], 6, 40000, 443));
    payload.extend(tuple(2, [198, 51, 100, 1], [203, 0, 113, 7], 6, 443, 40000));
    payload.extend(attr(3, &4u32.to_be_bytes()));
    payload.extend(counters(9, 1500));
    payload.extend(counters(10, 64_000));
    payload.extend(attr(12, &77u32.to_be_bytes()));
    payload.extend(nested(4, &[nested(1, &[attr(1, &[3])])]));
    payload
}

fn message(kind: u16, flags: u16, seq: u32, payload: &[u8]) -> Vec<u8> {
    let len = (16 + payload.len()) as u32;
    let mut out = Vec::new();
    out.extend_from_slice(&len.to_le_bytes());
    out.extend_from_slice(&kind.to_le_bytes());
    out.extend_from_slice(&flags.to_le_bytes());
    out.extend_from_slice(&seq.to_le_bytes());
    out.extend_from_slice(&0u32.to_le_bytes());
    out.extend_from_slice(payload);
    while out.len() % 4 != 0 {
        out.push(0);
    }
    out
}

fn done(seq: u32) -> Vec<u8> {
    message(3, 2, seq, &0i32.to_le_bytes())
}

#[test]
fn one_entry_dump_yields_its_flow() {
    let mut bytes = message(256, 2, 7, &flow_payload());
    bytes.extend(done(7));
    let parsed =
        parse_dump_detailed_in(&vec![Datagram::kernel(bytes)], 7, 0, 1 << 20, true).unwrap();
    assert_eq!(parsed.malformed_entries, 0);
    assert_eq!(parsed.flows.len(), 1);
    let flow = &parsed.flows[0];
    assert_eq!(flow.orig_src, Some(IpAddress::V4([192, 0, 2, 9])));
    assert_eq!(flow.reply_dst, Some(IpAddress::V4([203, 0, 113, 7])));
    assert_eq!(flow.orig_sport, 40000);
    assert_eq!(flow.orig_dport, 443);
    assert_eq!(flow.protocol, Protocol::Tcp);
    assert_eq!(flow.orig_bytes, 1500);
    assert_eq!(flow.reply_bytes, 64_000);
    assert!(flow.assured);
    assert_eq!(flow.tcp_state, Some(TcpState::Established));
    assert_eq!(flow.conntrack_id, Some(77));
    assert!(!flow.is_dns());
}

#[test]
fn a_malformed_entry_is_counted_not_fatal() {
    let mut payload = vec![2u8, 0, 0, 0];
    payload.extend(counters(9, 1));
    let mut bytes = message(256, 2, 7, &payload);
    bytes.extend(done(7));
    let parsed =
        parse_dump_detailed_in(&vec![Datagram::kernel(bytes)], 7, 0, 1 << 20, true).unwrap();
    assert_eq!(parsed.flows.len(), 0);
    assert_eq!(parsed.malformed_entries, 1);
}

#[test]
fn a_foreign_sequence_is_refused() {
    let bytes = message(256, 2, 8, &flow_payload());
    match parse_dump_detailed_in(&vec![Datagram::kernel(bytes)], 7, 0, 1 << 20, true) {
        Err(DumpError::UnexpectedSequence { expected, actual }) => {
            assert_eq!(expected, 7);
            assert_eq!(actual, 8);
        }
        other => panic!("unexpected {:?}", other),
    }
}

#[test]
fn a_datagram_not_from_the_kernel_is_refused() {
    let datagram = Datagram { sender_pid: 42, bytes: done(7) };
    assert!(matches!(
        parse_dump_detailed_in(&vec![datagram], 7, 0, 1 << 20, true),
        Err(DumpError::UnexpectedSender(42))
    ));
}

#[test]
fn a_dump_without_its_end_is_incomplete() {
    let bytes = message(256, 2, 7, &flow_payload());
    assert!(matches!(
        parse_dump_detailed_in(&vec![Datagram::kernel(bytes)], 7, 0, 1 << 20, true),
        Err(DumpError::MissingDone)
    ));
}

#[test]
fn a_negative_done_status_is_the_kernel_errno() {
    let bytes = message(3, 2, 7, &(-16i32).to_le_bytes());
    assert!(matches!(
        parse_dump_detailed_in(&vec![Datagram::kernel(bytes)], 7, 0, 1 << 20, true),
        Err(DumpError::Kernel(16))
    ));
}

#[test]
fn an_interrupted_dump_is_refused() {
    let bytes = message(256, 0x12, 7, &flow_payload());
    assert!(matches!(
        parse_dump_detailed_in(&vec![Datagram::kernel(bytes)], 7, 0, 1 << 20, true),
        Err(DumpError::Interrupted)
    ));
}

#[test]
fn anything_after_the_end_is_malformed() {
    let mut bytes = done(7);
    bytes.extend(done(7));
    assert!(matches!(
        parse_dump_detailed_in(&vec![Datagram::kernel(bytes)], 7, 0, 1 << 20, true),
        Err(DumpError::Malformed("duplicate NLMSG_DONE"))
    ));
}

#[test]
fn dumps_over_the_byte_limit_are_refused() {
    let datagrams = vec![Datagram::kernel(vec![0; 10]), Datagram::kernel(vec![0; 10])];
    assert!(validate_dump_size(&datagrams, 20).is_ok());
    assert!(matches!(validate_dump_size(&datagrams, 19), Err(DumpError::LimitExceeded)));
    assert!(matches!(
        parse_dump_detailed_in(&datagrams, 7, 0, 19, true),
        Err(DumpError::LimitExceeded)
    ));
}

#[test]
fn the_parser_reports_when_the_dump_ends() {
    let mut parser = DumpParser::with_byte_order(7, 0, 1 << 20, true);
    assert!(!parser.push_datagram(0, &message(256, 2, 7, &flow_payload())).unwrap());
    assert!(parser.push_datagram(0, &done(7)).unwrap());
    assert_eq!(parser.finish().unwrap().flows.len(), 1);
}

#[test]
fn a_tuple_without_ports_is_malformed_for_tcp() {
    let mut payload = vec![2u8, 0, 0, 0];
    payload.extend(nested(
        1,
        &[nested(1, &[attr(1, &[10, 0, 0, 1]), attr(2, &[10, 0, 0, 2])]), nested(2, &[attr(1, &[6])])],
    ));
    payload.extend(counters(9, 1));
    assert!(matches!(
        parse_flow(&payload, true),
        Err(DumpError::Malformed("TCP/UDP tuple missing ports"))
    ));
}

#[test]
fn the_dump_request_carries_sequence_and_port() {
    let request = build_dump_request_in(0x01020304, 9, true);
    assert_eq!(&request[0..4], &20u32.to_le_bytes());
    assert_eq!(&request[4..6], &257u16.to_le_bytes());
    assert_eq!(&request[6..8], &0x301u16.to_le_bytes());
    assert_eq!(&request[8..12], &0x01020304u32.to_le_bytes());
    assert_eq!(&request[12..16], &9u32.to_le_bytes());
    assert_eq!(&request[16..20], &[0, 0, 0, 0]);
}
