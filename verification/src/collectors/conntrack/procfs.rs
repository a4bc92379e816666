use vstd::prelude::*;
use vstd::utf8::valid_utf8;
use super::address::{address_view, parse_ip_bytes, parse_ip_slice, AddressView};
use super::aggregate::{
    client_values, sample_values, spec_aggregate, spec_push_all, AggregateSnapshot, AggregateState,
    AggregateStats, AggregateView, ClientSample,
};
use crate::connection_details::{
    finished_sets, ledger_view, sets_view, ConnectionCounters, DetailsIndexView, RateKeyView,
};
use super::{empty_flow, FlowSample, IpAddress, Protocol, TcpState, PROCFS_COUNTER_SOURCE};
use crate::bytes::{ascii_words, parse_dec, parse_dec_bytes, split_ascii_words};
use crate::identity::IdentityTable;

verus! {

/// The longest line read from the conntrack table.
pub const CONNTRACK_LINE_MAX: usize = 1024;

pub const CONNTRACK_PROCFS_PATH: &'static str = "/proc/net/nf_conntrack";

pub const CONNTRACK_LEGACY_PROCFS_PATH: &'static str = "/proc/net/ip_conntrack";

/// The most flows a parsed snapshot holds.
pub const PROCFS_PARSE_FLOW_CAP: usize = 4096;

/// Why the conntrack table could not be read.
#[derive(Debug)]
pub enum ProcfsError {
    Io(std::io::Error),
    FlowLimit(usize),
}

/// The parsed flows of one read of the table.
#[derive(Clone, Debug, Eq, PartialEq)]
pub struct ProcfsSnapshot {
    pub flows: Vec<FlowSample>,
    pub source_path: String,
    pub counter_source: &'static str,
    pub entries_seen: usize,
    pub malformed_lines: usize,
}

/// The aggregated flows of one read of the table.
#[derive(Clone, Debug, Eq, PartialEq)]
pub struct ProcfsAggregateSnapshot {
    pub aggregate: AggregateSnapshot,
    pub source_path: String,
    pub counter_source: &'static str,
    pub entries_seen: usize,
    pub malformed_lines: usize,
}

/// ASCII text as bytes.
pub open spec fn ascii_of(s: Seq<char>) -> Seq<u8> {
    s.map_values(|c: char| c as u8)
}

pub(crate) fn tag(s: &str) -> (r: Vec<u8>)
    ensures
        r@ == ascii_of(s@),
{
    let cs = crate::text::str_chars(s);
    let mut out: Vec<u8> = Vec::new();
    let mut i: usize = 0;
    while i < cs.len()
        invariant
            cs@ == s@,
            i <= cs@.len(),
            out@ == ascii_of(s@).take(i as int),
        decreases cs@.len() - i,
    {
        out.push(cs[i] as u8);
        assert(ascii_of(s@).take(i + 1) =~= ascii_of(s@).take(i as int).push(cs@[i as int] as u8));
        i += 1;
    }
    assert(ascii_of(s@).take(i as int) =~= ascii_of(s@));
    out
}

/// Whether `w` begins with `p`.
pub open spec fn has_prefix(w: Seq<u8>, p: Seq<u8>) -> bool {
    w.len() >= p.len() && w.take(p.len() as int) == p
}

fn starts_with(w: &[u8], p: &[u8]) -> (r: bool)
    ensures
        r == has_prefix(w@, p@),
{
    if w.len() < p.len() {
        return false;
    }
    let mut i: usize = 0;
    while i < p.len()
        invariant
            i <= p@.len() <= w@.len(),
            forall|j: int| 0 <= j < i ==> w@[j] == p@[j],
        decreases p@.len() - i,
    {
        if w[i] != p[i] {
            assert(w@.take(p@.len() as int)[i as int] != p@[i as int]);
            return false;
        }
        i += 1;
    }
    assert(w@.take(p@.len() as int) =~= p@);
    true
}

pub(crate) fn same_bytes(a: &[u8], b: &[u8]) -> (r: bool)
    ensures
        r == (a@ == b@),
{
    if a.len() != b.len() {
        return false;
    }
    let mut i: usize = 0;
    while i < a.len()
        invariant
            a@.len() == b@.len(),
            i <= a@.len(),
            forall|j: int| 0 <= j < i ==> a@[j] == b@[j],
        decreases a@.len() - i,
    {
        if a[i] != b[i] {
            return false;
        }
        i += 1;
    }
    assert(a@ =~= b@);
    true
}

fn tail_of(w: &Vec<u8>, from: usize) -> (r: Vec<u8>)
    requires
        from <= w@.len(),
    ensures
        r@ == w@.skip(from as int),
{
    let mut out: Vec<u8> = Vec::new();
    let mut i: usize = from;
    while i < w.len()
        invariant
            from <= i <= w@.len(),
            out@ == w@.subrange(from as int, i as int),
        decreases w@.len() - i,
    {
        out.push(w[i]);
        assert(w@.subrange(from as int, i + 1) =~= w@.subrange(from as int, i as int).push(w@[i as int]));
        i += 1;
    }
    assert(w@.subrange(from as int, i as int) =~= w@.skip(from as int));
    out
}

/// The TCP state a word names; any other word is an unknown state.
pub open spec fn tcp_state_of(w: Seq<u8>) -> TcpState {
    if w == ascii_of("SYN_SENT"@) {
        TcpState::SynSent
    } else if w == ascii_of("SYN_RECV"@) {
        TcpState::SynRecv
    } else if w == ascii_of("ESTABLISHED"@) {
        TcpState::Established
    } else if w == ascii_of("FIN_WAIT"@) {
        TcpState::FinWait
    } else if w == ascii_of("CLOSE_WAIT"@) {
        TcpState::CloseWait
    } else if w == ascii_of("LAST_ACK"@) {
        TcpState::LastAck
    } else if w == ascii_of("TIME_WAIT"@) {
        TcpState::TimeWait
    } else if w == ascii_of("CLOSE"@) {
        TcpState::Close
    } else {
        TcpState::Unknown(255)
    }
}

pub fn parse_tcp_state(w: &[u8]) -> (r: TcpState)
    ensures
        r == tcp_state_of(w@),
{
    if same_bytes(w, tag("SYN_SENT").as_slice()) {
        TcpState::SynSent
    } else if same_bytes(w, tag("SYN_RECV").as_slice()) {
        TcpState::SynRecv
    } else if same_bytes(w, tag("ESTABLISHED").as_slice()) {
        TcpState::Established
    } else if same_bytes(w, tag("FIN_WAIT").as_slice()) {
        TcpState::FinWait
    } else if same_bytes(w, tag("CLOSE_WAIT").as_slice()) {
        TcpState::CloseWait
    } else if same_bytes(w, tag("LAST_ACK").as_slice()) {
        TcpState::LastAck
    } else if same_bytes(w, tag("TIME_WAIT").as_slice()) {
        TcpState::TimeWait
    } else if same_bytes(w, tag("CLOSE").as_slice()) {
        TcpState::Close
    } else {
        TcpState::Unknown(255)
    }
}

/// The address an address text spells.
pub open spec fn ip_of(v: AddressView) -> IpAddress {
    choose|a: IpAddress| address_view(a) == v
}

pub proof fn lemma_address_view_injective(a: IpAddress, b: IpAddress)
    requires
        address_view(a) == address_view(b),
    ensures
        a == b,
{
    match (a, b) {
        (IpAddress::V4(x), IpAddress::V4(y)) => {
            assert(x@ == y@);
            assert(x =~= y);
        },
        (IpAddress::V6(x), IpAddress::V6(y)) => {
            assert(x@ == y@);
            assert(x =~= y);
        },
        _ => {},
    }
}

/// What scanning the words of a line has gathered so far.
#[derive(Clone, Copy, Debug)]
pub struct LineScan {
    pub flow: FlowSample,
    pub src: usize,
    pub dst: usize,
    pub sport: usize,
    pub dport: usize,
    pub bytes_seen: usize,
    pub has_orig_bytes: bool,
    pub offloaded: bool,
    pub unreplied: bool,
}

/// The scan after one more word: the first two `src=`, `dst=`, `sport=`,
/// `dport=` and `bytes=` values fill the original and the reply tuple, a
/// value that does not parse leaving its field as it was; the flags mark
/// assured, unreplied and offloaded flows.
pub open spec fn spec_scan_word(st: LineScan, w: Seq<u8>) -> LineScan {
    let f = st.flow;
    if has_prefix(w, ascii_of("src="@)) {
        let v = parse_ip_bytes(w.skip(ascii_of("src="@).len() as int));
        let flow = match v {
            Some(a) => if st.src == 0 {
                FlowSample { orig_src: Some(ip_of(a)), ..f }
            } else if st.src == 1 {
                FlowSample { reply_src: Some(ip_of(a)), ..f }
            } else {
                f
            },
            None => f,
        };
        LineScan { flow, src: st.src.saturating_add(1), ..st }
    } else if has_prefix(w, ascii_of("dst="@)) {
        let v = parse_ip_bytes(w.skip(ascii_of("dst="@).len() as int));
        let flow = match v {
            Some(a) => if st.dst == 0 {
                FlowSample { orig_dst: Some(ip_of(a)), ..f }
            } else if st.dst == 1 {
                FlowSample { reply_dst: Some(ip_of(a)), ..f }
            } else {
                f
            },
            None => f,
        };
        LineScan { flow, dst: st.dst.saturating_add(1), ..st }
    } else if has_prefix(w, ascii_of("sport="@)) {
        let v = parse_dec(w.skip(ascii_of("sport="@).len() as int), 65535);
        let flow = match v {
            Some(n) => if st.sport == 0 {
                FlowSample { orig_sport: n as u16, ..f }
            } else if st.sport == 1 {
                FlowSample { reply_sport: n as u16, ..f }
            } else {
                f
            },
            None => f,
        };
        LineScan { flow, sport: st.sport.saturating_add(1), ..st }
    } else if has_prefix(w, ascii_of("dport="@)) {
        let v = parse_dec(w.skip(ascii_of("dport="@).len() as int), 65535);
        let flow = match v {
            Some(n) => if st.dport == 0 {
                FlowSample { orig_dport: n as u16, ..f }
            } else if st.dport == 1 {
                FlowSample { reply_dport: n as u16, ..f }
            } else {
                f
            },
            None => f,
        };
        LineScan { flow, dport: st.dport.saturating_add(1), ..st }
    } else if has_prefix(w, ascii_of("bytes="@)) {
        let v = parse_dec(w.skip(ascii_of("bytes="@).len() as int), u64::MAX as nat);
        let (flow, has) = match v {
            Some(n) => if st.bytes_seen == 0 {
                (FlowSample { orig_bytes: n as u64, ..f }, true)
            } else if st.bytes_seen == 1 {
                (FlowSample { reply_bytes: n as u64, ..f }, st.has_orig_bytes)
            } else {
                (f, st.has_orig_bytes)
            },
            None => (f, st.has_orig_bytes),
        };
        LineScan { flow, bytes_seen: st.bytes_seen.saturating_add(1), has_orig_bytes: has, ..st }
    } else if w == ascii_of("[ASSURED]"@) {
        LineScan { flow: FlowSample { assured: true, ..f }, ..st }
    } else if w == ascii_of("[UNREPLIED]"@) {
        LineScan { unreplied: true, ..st }
    } else if w == ascii_of("[OFFLOAD]"@) || w == ascii_of("[HW_OFFLOAD]"@) {
        LineScan { offloaded: true, ..st }
    } else {
        st
    }
}

/// The scan after the first `n` words.
pub open spec fn scan_words_of(words: Seq<Seq<u8>>, n: nat, st: LineScan) -> LineScan
    decreases n,
{
    if n == 0 || n > words.len() {
        st
    } else {
        spec_scan_word(scan_words_of(words, (n - 1) as nat, st), words[n - 1])
    }
}

/// The protocol of a line's words: the third word names TCP or UDP, or else
/// the fourth is its number.
pub open spec fn line_protocol(words: Seq<Seq<u8>>) -> Option<Protocol> {
    if words.len() < 3 {
        None
    } else if words[2] == ascii_of("tcp"@) {
        Some(Protocol::Tcp)
    } else if words[2] == ascii_of("udp"@) {
        Some(Protocol::Udp)
    } else if words.len() < 4 {
        None
    } else {
        match parse_dec(words[3], 255) {
            Some(n) => Some(Protocol::Other(n as u8)),
            None => None,
        }
    }
}

/// The TCP state of a line: for TCP, when the fifth word is a number, the
/// sixth names it.
pub open spec fn line_tcp_state(words: Seq<Seq<u8>>, protocol: Protocol) -> Option<TcpState> {
    if protocol == Protocol::Tcp && words.len() > 4 && parse_dec(words[4], u64::MAX as nat) is Some {
        Some(tcp_state_of(if words.len() > 5 { words[5] } else { Seq::empty() }))
    } else {
        None
    }
}

/// The flow one line of the table describes. An unreplied flow is never
/// assured; an offloaded one always is, and an offloaded TCP flow without a
/// state is established. A line without an original source or byte count
/// describes no flow.
pub open spec fn spec_parse_line(bytes: Seq<u8>) -> Option<FlowSample> {
    let words = ascii_words(bytes);
    if !valid_utf8(bytes) {
        None
    } else {
        match line_protocol(words) {
            None => None,
            Some(protocol) => {
                let start = LineScan {
                    flow: FlowSample { protocol, tcp_state: line_tcp_state(words, protocol), ..empty_flow() },
                    src: 0,
                    dst: 0,
                    sport: 0,
                    dport: 0,
                    bytes_seen: 0,
                    has_orig_bytes: false,
                    offloaded: false,
                    unreplied: false,
                };
                let end = scan_words_of(words, words.len(), start);
                let assured = if end.unreplied {
                    false
                } else if end.offloaded {
                    true
                } else {
                    end.flow.assured
                };
                let tcp_state = if end.offloaded && !end.unreplied && protocol == Protocol::Tcp
                    && end.flow.tcp_state is None {
                    Some(TcpState::Established)
                } else {
                    end.flow.tcp_state
                };
                let flow = FlowSample { assured, tcp_state, ..end.flow };
                if flow.orig_src is Some && end.has_orig_bytes {
                    Some(flow)
                } else {
                    None
                }
            },
        }
    }
}

/// The words a line scan looks for.
struct Tags {
    src: Vec<u8>,
    dst: Vec<u8>,
    sport: Vec<u8>,
    dport: Vec<u8>,
    bytes: Vec<u8>,
    assured: Vec<u8>,
    unreplied: Vec<u8>,
    offload: Vec<u8>,
    hw_offload: Vec<u8>,
}

spec fn tags_ok(t: Tags) -> bool {
    &&& t.src@ == ascii_of("src="@)
    &&& t.dst@ == ascii_of("dst="@)
    &&& t.sport@ == ascii_of("sport="@)
    &&& t.dport@ == ascii_of("dport="@)
    &&& t.bytes@ == ascii_of("bytes="@)
    &&& t.assured@ == ascii_of("[ASSURED]"@)
    &&& t.unreplied@ == ascii_of("[UNREPLIED]"@)
    &&& t.offload@ == ascii_of("[OFFLOAD]"@)
    &&& t.hw_offload@ == ascii_of("[HW_OFFLOAD]"@)
}

fn make_tags() -> (r: Tags)
    ensures
        tags_ok(r),
{
    Tags {
        src: tag("src="),
        dst: tag("dst="),
        sport: tag("sport="),
        dport: tag("dport="),
        bytes: tag("bytes="),
        assured: tag("[ASSURED]"),
        unreplied: tag("[UNREPLIED]"),
        offload: tag("[OFFLOAD]"),
        hw_offload: tag("[HW_OFFLOAD]"),
    }
}

fn read_address(w: &Vec<u8>, from: usize) -> (r: Option<IpAddress>)
    requires
        from <= w@.len(),
    ensures
        match parse_ip_bytes(w@.skip(from as int)) {
            Some(v) => r == Some(ip_of(v)),
            None => r is None,
        },
{
    let value = tail_of(w, from);
    let a = parse_ip_slice(value.as_slice());
    proof {
        if let Some(x) = a {
            let v = address_view(x);
            assert(exists|c: IpAddress| address_view(c) == v);
            let c = choose|c: IpAddress| address_view(c) == v;
            lemma_address_view_injective(c, x);
        }
    }
    a
}

fn step_word(st: LineScan, w: &Vec<u8>, t: &Tags) -> (r: LineScan)
    requires
        tags_ok(*t),
    ensures
        r == spec_scan_word(st, w@),
{
    let mut next = st;
    if starts_with(w.as_slice(), t.src.as_slice()) {
        match read_address(w, t.src.len()) {
            Some(a) => {
                if st.src == 0 {
                    next.flow.orig_src = Some(a);
                } else if st.src == 1 {
                    next.flow.reply_src = Some(a);
                }
            },
            None => {},
        }
        next.src = st.src.saturating_add(1);
    } else if starts_with(w.as_slice(), t.dst.as_slice()) {
        match read_address(w, t.dst.len()) {
            Some(a) => {
                if st.dst == 0 {
                    next.flow.orig_dst = Some(a);
                } else if st.dst == 1 {
                    next.flow.reply_dst = Some(a);
                }
            },
            None => {},
        }
        next.dst = st.dst.saturating_add(1);
    } else if starts_with(w.as_slice(), t.sport.as_slice()) {
        let value = tail_of(w, t.sport.len());
        match parse_dec_bytes(value.as_slice(), 65535) {
            Some(n) => {
                if st.sport == 0 {
                    next.flow.orig_sport = n as u16;
                } else if st.sport == 1 {
                    next.flow.reply_sport = n as u16;
                }
            },
            None => {},
        }
        next.sport = st.sport.saturating_add(1);
    } else if starts_with(w.as_slice(), t.dport.as_slice()) {
        let value = tail_of(w, t.dport.len());
        match parse_dec_bytes(value.as_slice(), 65535) {
            Some(n) => {
                if st.dport == 0 {
                    next.flow.orig_dport = n as u16;
                } else if st.dport == 1 {
                    next.flow.reply_dport = n as u16;
                }
            },
            None => {},
        }
        next.dport = st.dport.saturating_add(1);
    } else if starts_with(w.as_slice(), t.bytes.as_slice()) {
        let value = tail_of(w, t.bytes.len());
        match parse_dec_bytes(value.as_slice(), u64::MAX) {
            Some(n) => {
                if st.bytes_seen == 0 {
                    next.flow.orig_bytes = n;
                    next.has_orig_bytes = true;
                } else if st.bytes_seen == 1 {
                    next.flow.reply_bytes = n;
                }
            },
            None => {},
        }
        next.bytes_seen = st.bytes_seen.saturating_add(1);
    } else if same_bytes(w.as_slice(), t.assured.as_slice()) {
        next.flow.assured = true;
    } else if same_bytes(w.as_slice(), t.unreplied.as_slice()) {
        next.unreplied = true;
    } else if same_bytes(w.as_slice(), t.offload.as_slice()) || same_bytes(
        w.as_slice(),
        t.hw_offload.as_slice(),
    ) {
        next.offloaded = true;
    }
    next
}

fn words_protocol(words: &Vec<Vec<u8>>) -> (r: Option<Protocol>)
    ensures
        r == line_protocol(words@.map_values(|w: Vec<u8>| w@)),
{
    let ghost ws = words@.map_values(|w: Vec<u8>| w@);
    if words.len() < 3 {
        return None;
    }
    assert(ws[2] == words@[2]@);
    if same_bytes(words[2].as_slice(), tag("tcp").as_slice()) {
        Some(Protocol::Tcp)
    } else if same_bytes(words[2].as_slice(), tag("udp").as_slice()) {
        Some(Protocol::Udp)
    } else if words.len() < 4 {
        None
    } else {
        assert(ws[3] == words@[3]@);
        match parse_dec_bytes(words[3].as_slice(), 255) {
            Some(n) => Some(Protocol::Other(n as u8)),
            None => None,
        }
    }
}

fn words_tcp_state(words: &Vec<Vec<u8>>, protocol: Protocol) -> (r: Option<TcpState>)
    ensures
        r == line_tcp_state(words@.map_values(|w: Vec<u8>| w@), protocol),
{
    let ghost ws = words@.map_values(|w: Vec<u8>| w@);
    if protocol == Protocol::Tcp && words.len() > 4 {
        assert(ws[4] == words@[4]@);
        if parse_dec_bytes(words[4].as_slice(), u64::MAX).is_some() {
            if words.len() > 5 {
                assert(ws[5] == words@[5]@);
                Some(parse_tcp_state(words[5].as_slice()))
            } else {
                let empty: Vec<u8> = Vec::new();
                assert(empty@ =~= Seq::<u8>::empty());
                Some(parse_tcp_state(empty.as_slice()))
            }
        } else {
            None
        }
    } else {
        None
    }
}

/// Reads the flow one line of the conntrack table describes.
#[verifier::rlimit(30)]
pub fn parse_line(bytes: &[u8]) -> (r: Option<FlowSample>)
    ensures
        r == spec_parse_line(bytes@),
{
    if crate::identity::hostname::utf8_text(bytes).is_none() {
        return None;
    }
    let words = split_ascii_words(bytes);
    let ghost ws = words@.map_values(|w: Vec<u8>| w@);
    assert(ws == ascii_words(bytes@));
    let protocol = match words_protocol(&words) {
        Some(p) => p,
        None => {
            return None;
        },
    };
    let tcp_state = words_tcp_state(&words, protocol);
    let mut flow = FlowSample::empty();
    flow.protocol = protocol;
    flow.tcp_state = tcp_state;
    let start = LineScan {
        flow,
        src: 0,
        dst: 0,
        sport: 0,
        dport: 0,
        bytes_seen: 0,
        has_orig_bytes: false,
        offloaded: false,
        unreplied: false,
    };
    let tags = make_tags();
    let mut st = start;
    let mut i: usize = 0;
    while i < words.len()
        invariant
            tags_ok(tags),
            ws == words@.map_values(|w: Vec<u8>| w@),
            i <= words@.len(),
            st == scan_words_of(ws, i as nat, start),
        decreases words@.len() - i,
    {
        assert(ws[i as int] == words@[i as int]@);
        st = step_word(st, &words[i], &tags);
        i += 1;
    }
    let assured = if st.unreplied {
        false
    } else if st.offloaded {
        true
    } else {
        st.flow.assured
    };
    let state = if st.offloaded && !st.unreplied && protocol == Protocol::Tcp && st.flow.tcp_state.is_none() {
        Some(TcpState::Established)
    } else {
        st.flow.tcp_state
    };
    let mut out = st.flow;
    out.assured = assured;
    out.tcp_state = state;
    if out.orig_src.is_some() && st.has_orig_bytes {
        Some(out)
    } else {
        None
    }
}

// ---------------------------------------------------------------------------
// Reading the whole table
// ---------------------------------------------------------------------------

/// The lines of a read, each with whether it was cut at the line limit.
pub open spec fn lines_view(v: Seq<(Vec<u8>, bool)>) -> Seq<(Seq<u8>, bool)> {
    v.map_values(|l: (Vec<u8>, bool)| (l.0@, l.1))
}

/// The flows of the whole lines that describe one, in order.
pub open spec fn line_flows(lines: Seq<(Seq<u8>, bool)>) -> Seq<FlowSample>
    decreases lines.len(),
{
    if lines.len() == 0 {
        Seq::empty()
    } else {
        let r = line_flows(lines.drop_last());
        let l = lines.last();
        if !l.1 && spec_parse_line(l.0) is Some {
            r.push(spec_parse_line(l.0).unwrap())
        } else {
            r
        }
    }
}

/// How many lines were cut or describe no flow.
pub open spec fn malformed_count(lines: Seq<(Seq<u8>, bool)>) -> nat
    decreases lines.len(),
{
    if lines.len() == 0 {
        0
    } else {
        let l = lines.last();
        malformed_count(lines.drop_last()) + if l.1 || spec_parse_line(l.0) is None {
            1nat
        } else {
            0nat
        }
    }
}

proof fn lemma_counts_bounded(lines: Seq<(Seq<u8>, bool)>)
    ensures
        malformed_count(lines) <= lines.len(),
        line_flows(lines).len() <= lines.len(),
    decreases lines.len(),
{
    if lines.len() > 0 {
        lemma_counts_bounded(lines.drop_last());
    }
}

/// Parses every line of a read of the table; more flows than the cap fail.
pub fn parse_reader(lines: &Vec<(Vec<u8>, bool)>, source_path: &str) -> (r: Result<ProcfsSnapshot, ProcfsError>)
    ensures
        match r {
            Ok(snapshot) => {
                &&& line_flows(lines_view(lines@)).len() <= PROCFS_PARSE_FLOW_CAP
                &&& snapshot.flows@ == line_flows(lines_view(lines@))
                &&& snapshot.source_path@ == source_path@
                &&& snapshot.counter_source == PROCFS_COUNTER_SOURCE
                &&& snapshot.entries_seen == lines@.len()
                &&& snapshot.malformed_lines == malformed_count(lines_view(lines@))
            },
            Err(e) => {
                &&& line_flows(lines_view(lines@)).len() > PROCFS_PARSE_FLOW_CAP
                &&& e matches ProcfsError::FlowLimit(n) && n == PROCFS_PARSE_FLOW_CAP
            },
        },
{
    let ghost lv = lines_view(lines@);
    let mut flows: Vec<FlowSample> = Vec::new();
    let mut malformed: usize = 0;
    let mut i: usize = 0;
    while i < lines.len()
        invariant
            lv == lines_view(lines@),
            i <= lines@.len(),
            flows@ == line_flows(lv.take(i as int)),
            malformed as nat == malformed_count(lv.take(i as int)),
            flows@.len() <= PROCFS_PARSE_FLOW_CAP,
        decreases lines@.len() - i,
    {
        proof {
            lemma_counts_bounded(lv.take(i as int));
        }
        assert(lv.take(i + 1).drop_last() =~= lv.take(i as int));
        assert(lv.take(i + 1).last() == (lines@[i as int].0@, lines@[i as int].1));
        let line = &lines[i];
        if line.1 {
            malformed = malformed + 1;
        } else {
            match parse_line(line.0.as_slice()) {
                Some(flow) => {
                    if flows.len() >= PROCFS_PARSE_FLOW_CAP {
                        proof {
                            lemma_flows_grow(lv, i + 1);
                        }
                        return Err(ProcfsError::FlowLimit(PROCFS_PARSE_FLOW_CAP));
                    }
                    flows.push(flow);
                },
                None => {
                    malformed = malformed + 1;
                },
            }
        }
        i += 1;
    }
    assert(lv.take(lines@.len() as int) =~= lv);
    Ok(
        ProcfsSnapshot {
            flows,
            source_path: source_path.to_owned(),
            counter_source: PROCFS_COUNTER_SOURCE,
            entries_seen: lines.len(),
            malformed_lines: malformed,
        },
    )
}

proof fn lemma_flows_grow(lines: Seq<(Seq<u8>, bool)>, k: int)
    requires
        0 <= k <= lines.len(),
    ensures
        line_flows(lines).len() >= line_flows(lines.take(k)).len(),
    decreases lines.len() - k,
{
    if k < lines.len() {
        lemma_flows_grow(lines, k + 1);
        assert(lines.take(k + 1).drop_last() =~= lines.take(k));
    } else {
        assert(lines.take(k) =~= lines);
    }
}

/// Aggregates every flow of a read of the table against an identity table.
pub fn aggregate_reader(lines: &Vec<(Vec<u8>, bool)>, source_path: &str, identities: &IdentityTable, now_ms: u64, max_clients: usize) -> (r: ProcfsAggregateSnapshot)
    ensures
        ({
            let a = spec_aggregate(identities@.clients, line_flows(lines_view(lines@)), now_ms, max_clients);
            &&& client_values(r.aggregate.clients@) == sample_values(a.clients)
            &&& r.aggregate.stats == a.stats
            &&& r.aggregate.sample_ms == now_ms
            &&& sets_view(r.aggregate.connection_details@) == finished_sets(a.details.sets)
            &&& ledger_view(r.aggregate.connection_counters@) == a.details.counters
        }),
        r.source_path@ == source_path@,
        r.counter_source == PROCFS_COUNTER_SOURCE,
        r.entries_seen == lines@.len(),
        r.malformed_lines == malformed_count(lines_view(lines@)),
{
    let ghost lv = lines_view(lines@);
    let mut state = AggregateState::new(identities, now_ms, max_clients);
    let ghost start = state@;
    assert(start.clients =~= Seq::empty());
    assert(start.details.sets =~= Seq::empty());
    assert(start.details.counters =~= Seq::<(RateKeyView, ConnectionCounters)>::empty());
    let mut malformed: usize = 0;
    let mut i: usize = 0;
    while i < lines.len()
        invariant
            lv == lines_view(lines@),
            i <= lines@.len(),
            state@ == spec_push_all(start, line_flows(lv.take(i as int))),
            state@.now_ms == now_ms,
            malformed as nat == malformed_count(lv.take(i as int)),
            start == (AggregateView {
                table: identities@.clients,
                clients: Seq::empty(),
                details: DetailsIndexView { sets: Seq::empty(), counters: Seq::empty(), stored_connections: 0 },
                stats: AggregateStats::default_spec(),
                now_ms,
                max_clients,
            }),
        decreases lines@.len() - i,
    {
        proof {
            lemma_counts_bounded(lv.take(i as int));
        }
        assert(lv.take(i + 1).drop_last() =~= lv.take(i as int));
        assert(lv.take(i + 1).last() == (lines@[i as int].0@, lines@[i as int].1));
        let line = &lines[i];
        if line.1 {
            malformed = malformed + 1;
        } else {
            match parse_line(line.0.as_slice()) {
                Some(flow) => {
                    let ghost before = line_flows(lv.take(i as int));
                    assert(line_flows(lv.take(i + 1)) == before.push(flow));
                    assert(before.push(flow).drop_last() =~= before);
                    state.push(&flow);
                },
                None => {
                    malformed = malformed + 1;
                },
            }
        }
        i += 1;
    }
    assert(lv.take(lines@.len() as int) =~= lv);
    ProcfsAggregateSnapshot {
        aggregate: state.finish(),
        source_path: source_path.to_owned(),
        counter_source: PROCFS_COUNTER_SOURCE,
        entries_seen: lines.len(),
        malformed_lines: malformed,
    }
}

} // verus!
