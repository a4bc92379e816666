use vstd::prelude::*;
use crate::collectors::conntrack::{FlowSample, IpAddress, Protocol, TcpState};

verus! {

pub const MAX_DATAGRAM_BYTES: usize = 1_048_576;

/// One datagram received on the conntrack netlink socket.
#[derive(Clone, Debug, Eq, PartialEq)]
pub struct Datagram {
    pub sender_pid: u32,
    pub bytes: Vec<u8>,
}

impl Datagram {
    /// A datagram sent by the kernel, whose netlink pid is zero.
    pub fn kernel(bytes: Vec<u8>) -> (r: Self)
        ensures
            r.sender_pid == 0,
            r.bytes@ == bytes@,
    {
        Datagram { sender_pid: 0, bytes }
    }
}

/// Why a conntrack dump could not be read.
#[derive(Debug)]
pub enum DumpError {
    UnexpectedSender(u32),
    UnexpectedPortId { expected: u32, actual: u32 },
    UnexpectedSequence { expected: u32, actual: u32 },
    Interrupted,
    /// The kernel refused the dump with this errno.
    Kernel(i32),
    Malformed(&'static str),
    MissingDone,
    LimitExceeded,
    TruncatedDatagram { reported: usize, capacity: usize },
}

/// A received length is usable only when it fits the receive buffer; a
/// larger one means the kernel truncated the datagram.
pub fn validate_received_datagram_len(reported: usize, capacity: usize) -> (r: Result<usize, DumpError>)
    ensures
        match r {
            Ok(n) => reported <= capacity && n == reported,
            Err(DumpError::TruncatedDatagram { reported: a, capacity: b }) => reported > capacity && a
                == reported && b == capacity,
            Err(_) => false,
        },
{
    if reported > capacity {
        Err(DumpError::TruncatedDatagram { reported, capacity })
    } else {
        Ok(reported)
    }
}

} // verus!

verus! {

pub const NLMSG_ERROR: u16 = 2;

pub const NLMSG_DONE: u16 = 3;

pub const NLM_F_MULTI: u16 = 2;

pub const NLM_F_DUMP_INTR: u16 = 0x10;

pub const NLA_TYPE_MASK: u16 = 0x3fff;

pub const IPCTNL_MSG_CT_NEW: u16 = 256;

pub const MAX_DUMP_BYTES: usize = 8_388_608;

/// `u16::from_ne_bytes`: two bytes as an integer in the machine's byte
/// order, which is one of the two orders.
#[verifier::external_body]
fn native_u16(bytes: [u8; 2]) -> (r: u16)
    ensures
        r == bytes[0] + 256 * bytes[1] || r == 256 * bytes[0] + bytes[1],
{
    u16::from_ne_bytes(bytes)
}

/// Whether the machine stores integers least significant byte first.
pub fn machine_is_little_endian() -> (r: bool) {
    native_u16([1u8, 0u8]) == 1
}

/// Two bytes at `i` in the given order.
pub open spec fn ne16(p: Seq<u8>, i: int, little: bool) -> int {
    if little {
        p[i] + 256 * p[i + 1]
    } else {
        256 * p[i] + p[i + 1]
    }
}

/// Four bytes at `i` in the given order.
pub open spec fn ne32(p: Seq<u8>, i: int, little: bool) -> int {
    if little {
        p[i] + 256 * p[i + 1] + 65536 * p[i + 2] + 16777216 * p[i + 3]
    } else {
        16777216 * p[i] + 65536 * p[i + 1] + 256 * p[i + 2] + p[i + 3]
    }
}

/// Big-endian values of two, four and eight bytes at `i`.
pub open spec fn be16(p: Seq<u8>, i: int) -> int {
    256 * p[i] + p[i + 1]
}

pub open spec fn be32(p: Seq<u8>, i: int) -> int {
    16777216 * p[i] + 65536 * p[i + 1] + 256 * p[i + 2] + p[i + 3]
}

pub open spec fn be64(p: Seq<u8>, i: int) -> int {
    be32(p, i) * 4294967296 + be32(p, i + 4)
}

pub(crate) fn read_ne16(p: &[u8], i: usize, little: bool) -> (r: u16)
    requires
        i + 2 <= p@.len(),
    ensures
        r == ne16(p@, i as int, little),
{
    let a = p[i] as u16;
    let b = p[i + 1] as u16;
    if little {
        a + 256 * b
    } else {
        256 * a + b
    }
}

pub(crate) fn read_ne32(p: &[u8], i: usize, little: bool) -> (r: u32)
    requires
        i + 4 <= p@.len(),
    ensures
        r == ne32(p@, i as int, little),
{
    let a = p[i] as u32;
    let b = p[i + 1] as u32;
    let c = p[i + 2] as u32;
    let d = p[i + 3] as u32;
    if little {
        a + 256 * b + 65536 * c + 16777216 * d
    } else {
        16777216 * a + 65536 * b + 256 * c + d
    }
}

fn read_be32(p: &[u8], i: usize) -> (r: u32)
    requires
        i + 4 <= p@.len(),
    ensures
        r == be32(p@, i as int),
{
    16777216 * (p[i] as u32) + 65536 * (p[i + 1] as u32) + 256 * (p[i + 2] as u32) + (p[i + 3] as u32)
}

/// The value rounded up to a multiple of four.
pub open spec fn align4(v: int) -> int {
    ((v + 3) / 4) * 4
}

fn align4_exec(v: usize) -> (r: usize)
    requires
        v <= 65535,
    ensures
        r == align4(v as int),
        v <= r <= v + 3,
{
    ((v + 3) / 4) * 4
}

/// Every byte from `off` on is zero.
pub open spec fn zero_tail(p: Seq<u8>, off: int) -> bool {
    forall|j: int| off <= j < p.len() ==> p[j] == 0
}

fn is_zero_tail(p: &[u8], off: usize) -> (r: bool)
    ensures
        r == zero_tail(p@, off as int),
{
    let mut j = off;
    while j < p.len()
        invariant
            off <= j,
            forall|k: int| off <= k < j ==> p@[k] == 0,
        decreases p.len() - j,
    {
        if p[j] != 0 {
            return false;
        }
        j += 1;
    }
    true
}

/// Where each known attribute's payload lies: from `start` up to `end`.
pub type AttrSlot = Option<(usize, usize)>;

/// An attribute list read from `off`, with `table` holding the attributes
/// read so far. A zero tail ends the list; an attribute that runs past the
/// payload, or a known attribute seen twice, is malformed.
pub open spec fn spec_attrs(
    p: Seq<u8>,
    max: int,
    little: bool,
    off: int,
    table: Seq<AttrSlot>,
) -> Result<Seq<AttrSlot>, Seq<char>>
    decreases p.len() - off,
{
    if off < 0 || off >= p.len() || zero_tail(p, off) {
        Ok(table)
    } else if off + 4 > p.len() {
        Err("truncated nlattr"@)
    } else {
        let len = ne16(p, off, little);
        let kind = ne16(p, off + 2, little) % 16384;
        if len < 4 || off + len > p.len() {
            Err("invalid nlattr length"@)
        } else if kind <= max && table[kind] is Some {
            Err("duplicate known attribute"@)
        } else {
            let t2 = if kind <= max {
                table.update(kind, Some(((off + 4) as usize, (off + len) as usize)))
            } else {
                table
            };
            let next = off + align4(len);
            if next > usize::MAX {
                Err("nlattr offset overflow"@)
            } else if next > p.len() {
                Err("truncated nlattr padding"@)
            } else {
                spec_attrs(p, max, little, next, t2)
            }
        }
    }
}

/// The attribute table of a whole payload.
pub open spec fn spec_attr_table(p: Seq<u8>, max: int, little: bool) -> Result<Seq<AttrSlot>, Seq<char>> {
    spec_attrs(p, max, little, 0, Seq::new((max + 1) as nat, |i: int| None))
}

/// Every known attribute lies within a payload of length `n`.
pub open spec fn slots_within(t: Seq<AttrSlot>, n: int) -> bool {
    forall|k: int| 0 <= k < t.len() ==> (#[trigger] t[k] matches Some(r) ==> r.0 <= r.1 <= n)
}

/// An error of a malformed message, with its reason.
pub open spec fn malformed_as(e: DumpError, reason: Seq<char>) -> bool {
    e matches DumpError::Malformed(m) && m@ == reason
}

fn attr_table(p: &[u8], max: usize, little: bool) -> (r: Result<Vec<AttrSlot>, DumpError>)
    requires
        max < 64,
    ensures
        match spec_attr_table(p@, max as int, little) {
            Ok(t) => r matches Ok(v) && v@ == t,
            Err(reason) => r matches Err(e) && malformed_as(e, reason),
        },
        r matches Ok(v) ==> v@.len() == max + 1 && slots_within(v@, p@.len() as int),
{
    let mut table: Vec<AttrSlot> = Vec::new();
    let mut k: usize = 0;
    while k <= max
        invariant
            k <= max + 1,
            max < 64,
            table@.len() == k,
            forall|j: int| 0 <= j < k ==> table@[j] is None,
        decreases max + 1 - k,
    {
        table.push(None);
        k += 1;
    }
    proof {
        assert(table@ =~= Seq::new((max + 1) as nat, |i: int| None::<(usize, usize)>));
    }
    let ghost whole = spec_attr_table(p@, max as int, little);
    let mut off: usize = 0;
    while off < p.len()
        invariant
            max < 64,
            table@.len() == max + 1,
            slots_within(table@, p@.len() as int),
            off <= p@.len(),
            whole == spec_attr_table(p@, max as int, little),
            whole == spec_attrs(p@, max as int, little, off as int, table@),
        ensures
            whole == Ok::<Seq<AttrSlot>, Seq<char>>(table@),
        decreases p.len() - off,
    {
        if is_zero_tail(p, off) {
            break;
        }
        if p.len() - off < 4 {
            let e = DumpError::Malformed("truncated nlattr");
            assert(whole == Err::<Seq<AttrSlot>, Seq<char>>("truncated nlattr"@));
            assert(malformed_as(e, "truncated nlattr"@));
            return Err(e);
        }
        let len = read_ne16(p, off, little) as usize;
        let raw_kind = read_ne16(p, off + 2, little);
        let kind = raw_kind & NLA_TYPE_MASK;
        proof {
            assert(raw_kind & 0x3fffu16 == raw_kind % 16384) by (bit_vector);
        }
        if len < 4 || len > p.len() - off {
            assert(whole == Err::<Seq<AttrSlot>, Seq<char>>("invalid nlattr length"@));
            return Err(DumpError::Malformed("invalid nlattr length"));
        }
        let kind = kind as usize;
        if kind <= max {
            if table[kind].is_some() {
                return Err(DumpError::Malformed("duplicate known attribute"));
            }
            table.set(kind, Some((off + 4, off + len)));
        }
        let aligned = align4_exec(len);
        if aligned > usize::MAX - off {
            return Err(DumpError::Malformed("nlattr offset overflow"));
        }
        let next = off + aligned;
        if next > p.len() {
            return Err(DumpError::Malformed("truncated nlattr padding"));
        }
        off = next;
    }
    assert(whole == Ok::<Seq<AttrSlot>, Seq<char>>(table@));
    Ok(table)
}

} // verus!

verus! {

/// An exec result that agrees with a spec result: the same value, or a
/// malformed-message error with the same reason.
pub open spec fn agrees<T>(r: Result<T, DumpError>, s: Result<T, Seq<char>>) -> bool {
    match s {
        Ok(v) => r matches Ok(x) && x == v,
        Err(m) => r matches Err(e) && malformed_as(e, m),
    }
}

/// The payload of a known attribute.
pub open spec fn slot_bytes(p: Seq<u8>, slot: (usize, usize)) -> Seq<u8> {
    p.subrange(slot.0 as int, slot.1 as int)
}

pub(crate) fn slot_vec(p: &[u8], slot: (usize, usize)) -> (r: Vec<u8>)
    requires
        slot.0 <= slot.1 <= p@.len(),
    ensures
        r@ == slot_bytes(p@, slot),
{
    let mut out: Vec<u8> = Vec::new();
    let mut i = slot.0;
    while i < slot.1
        invariant
            slot.0 <= i <= slot.1,
            slot.1 <= p@.len(),
            out@ == p@.subrange(slot.0 as int, i as int),
        decreases slot.1 - i,
    {
        proof {
            assert(p@.subrange(slot.0 as int, i + 1) =~= p@.subrange(slot.0 as int, i as int).push(
                p@[i as int],
            ));
        }
        out.push(p[i]);
        i += 1;
    }
    out
}

pub open spec fn spec_protocol(number: u8) -> Protocol {
    if number == 6 {
        Protocol::Tcp
    } else if number == 17 {
        Protocol::Udp
    } else {
        Protocol::Other(number)
    }
}

fn protocol(number: u8) -> (r: Protocol)
    ensures
        r == spec_protocol(number),
{
    match number {
        6 => Protocol::Tcp,
        17 => Protocol::Udp,
        other => Protocol::Other(other),
    }
}

pub open spec fn spec_tcp_state(state: u8) -> TcpState {
    if state == 1 {
        TcpState::SynSent
    } else if state == 2 {
        TcpState::SynRecv
    } else if state == 3 {
        TcpState::Established
    } else if state == 4 {
        TcpState::FinWait
    } else if state == 5 {
        TcpState::CloseWait
    } else if state == 6 {
        TcpState::LastAck
    } else if state == 7 {
        TcpState::TimeWait
    } else if state == 8 {
        TcpState::Close
    } else {
        TcpState::Unknown(state)
    }
}

/// The names the kernel gives its conntrack TCP states, by state number, as
/// `/proc/net/nf_conntrack` prints them.
pub open spec fn kernel_tcp_state_names() -> Seq<Seq<char>> {
    seq![
        "NONE"@,
        "SYN_SENT"@,
        "SYN_RECV"@,
        "ESTABLISHED"@,
        "FIN_WAIT"@,
        "CLOSE_WAIT"@,
        "LAST_ACK"@,
        "TIME_WAIT"@,
        "CLOSE"@,
    ]
}

/// The netlink state byte follows the kernel's numbering: distinct bytes
/// give distinct states, only 3 is an established connection, bytes past
/// the kernel's states are unknown, and every known number gives the state
/// that the procfs reader takes from the name the kernel prints for it.
pub proof fn lemma_tcp_state_numbering(a: u8, b: u8)
    ensures
        spec_tcp_state(a) == spec_tcp_state(b) ==> a == b,
        spec_tcp_state(a) == TcpState::Established <==> a == 3,
        spec_tcp_state(a) is Unknown <==> (a == 0 || a > 8),
        1 <= a <= 8 ==> spec_tcp_state(a) == super::procfs::tcp_state_of(
            super::procfs::ascii_of(kernel_tcp_state_names()[a as int]),
        ),
{
    if 1 <= a <= 8 {
        reveal_strlit("SYN_SENT");
        reveal_strlit("SYN_RECV");
        reveal_strlit("ESTABLISHED");
        reveal_strlit("FIN_WAIT");
        reveal_strlit("CLOSE_WAIT");
        reveal_strlit("LAST_ACK");
        reveal_strlit("TIME_WAIT");
        reveal_strlit("CLOSE");
        let n = kernel_tcp_state_names()[a as int];
        let w = super::procfs::ascii_of(n);
        let names = seq![
            "SYN_SENT"@,
            "SYN_RECV"@,
            "ESTABLISHED"@,
            "FIN_WAIT"@,
            "CLOSE_WAIT"@,
            "LAST_ACK"@,
            "TIME_WAIT"@,
            "CLOSE"@,
        ];
        assert(n == names[a - 1]);
        assert forall|k: int| 0 <= k < 8 && k != a - 1 implies super::procfs::ascii_of(#[trigger] names[k]) != w by {
            let x = super::procfs::ascii_of(names[k]);
            if x.len() == w.len() {
                let d = if (k == 0 && a == 2) || (k == 1 && a == 1) {
                    4int
                } else {
                    0int
                };
                assert(x[d] != w[d]);
            }
        }
    }
}

fn tcp_state(state: u8) -> (r: TcpState)
    ensures
        r == spec_tcp_state(state),
{
    match state {
        1 => TcpState::SynSent,
        2 => TcpState::SynRecv,
        3 => TcpState::Established,
        4 => TcpState::FinWait,
        5 => TcpState::CloseWait,
        6 => TcpState::LastAck,
        7 => TcpState::TimeWait,
        8 => TcpState::Close,
        other => TcpState::Unknown(other),
    }
}

/// A big-endian 16-bit attribute.
pub open spec fn spec_be_u16(q: Seq<u8>) -> Result<u16, Seq<char>> {
    if q.len() != 2 {
        Err("attribute payload has wrong length"@)
    } else {
        Ok(be16(q, 0) as u16)
    }
}

/// A big-endian 32-bit attribute.
pub open spec fn spec_be_u32(q: Seq<u8>) -> Result<u32, Seq<char>> {
    if q.len() != 4 {
        Err("attribute payload has wrong length"@)
    } else {
        Ok(be32(q, 0) as u32)
    }
}

fn be_u16(q: &[u8]) -> (r: Result<u16, DumpError>)
    ensures
        agrees(r, spec_be_u16(q@)),
{
    if q.len() != 2 {
        return Err(DumpError::Malformed("attribute payload has wrong length"));
    }
    Ok(256 * (q[0] as u16) + (q[1] as u16))
}

fn be_u32(q: &[u8]) -> (r: Result<u32, DumpError>)
    ensures
        agrees(r, spec_be_u32(q@)),
{
    if q.len() != 4 {
        return Err(DumpError::Malformed("attribute payload has wrong length"));
    }
    Ok(read_be32(q, 0))
}

/// The byte counter of a counters attribute: the 64-bit one where present,
/// else the 32-bit one.
pub open spec fn spec_counters(q: Seq<u8>, little: bool) -> Result<u64, Seq<char>> {
    match spec_attr_table(q, 4, little) {
        Err(m) => Err(m),
        Ok(t) => match t[2] {
            Some(slot) => {
                let b = slot_bytes(q, slot);
                if b.len() != 8 {
                    Err("attribute payload has wrong length"@)
                } else {
                    Ok(be64(b, 0) as u64)
                }
            },
            None => match t[4] {
                Some(slot) => match spec_be_u32(slot_bytes(q, slot)) {
                    Ok(v) => Ok(v as u64),
                    Err(m) => Err(m),
                },
                None => Err("missing accounting byte counter"@),
            },
        },
    }
}

fn parse_counters(q: &[u8], little: bool) -> (r: Result<u64, DumpError>)
    ensures
        agrees(r, spec_counters(q@, little)),
{
    let t = match attr_table(q, 4, little) {
        Ok(t) => t,
        Err(e) => {
            return Err(e);
        },
    };
    match t[2] {
        Some(slot) => {
            let b = slot_vec(q, slot);
            if b.len() != 8 {
                return Err(DumpError::Malformed("attribute payload has wrong length"));
            }
            let hi = read_be32(b.as_slice(), 0) as u64;
            let lo = read_be32(b.as_slice(), 4) as u64;
            Ok(hi * 4294967296 + lo)
        },
        None => match t[4] {
            Some(slot) => {
                let b = slot_vec(q, slot);
                match be_u32(b.as_slice()) {
                    Ok(v) => Ok(v as u64),
                    Err(e) => Err(e),
                }
            },
            None => Err(DumpError::Malformed("missing accounting byte counter")),
        },
    }
}

/// The TCP state carried by a protocol-information attribute, where there
/// is one.
pub open spec fn spec_protoinfo(q: Seq<u8>, little: bool) -> Result<Option<TcpState>, Seq<char>> {
    match spec_attr_table(q, 1, little) {
        Err(m) => Err(m),
        Ok(t) => match t[1] {
            None => Ok(None),
            Some(slot) => {
                let tcp = slot_bytes(q, slot);
                match spec_attr_table(tcp, 1, little) {
                    Err(m) => Err(m),
                    Ok(u) => match u[1] {
                        None => Ok(None),
                        Some(s2) => {
                            let b = slot_bytes(tcp, s2);
                            if b.len() != 1 {
                                Err("attribute payload has wrong length"@)
                            } else {
                                Ok(Some(spec_tcp_state(b[0])))
                            }
                        },
                    },
                }
            },
        },
    }
}

fn parse_protoinfo(q: &[u8], little: bool) -> (r: Result<Option<TcpState>, DumpError>)
    ensures
        agrees(r, spec_protoinfo(q@, little)),
{
    let t = match attr_table(q, 1, little) {
        Ok(t) => t,
        Err(e) => {
            return Err(e);
        },
    };
    match t[1] {
        None => Ok(None),
        Some(slot) => {
            let tcp = slot_vec(q, slot);
            let u = match attr_table(tcp.as_slice(), 1, little) {
                Ok(u) => u,
                Err(e) => {
                    return Err(e);
                },
            };
            match u[1] {
                None => Ok(None),
                Some(s2) => {
                    let b = slot_vec(tcp.as_slice(), s2);
                    if b.len() != 1 {
                        return Err(DumpError::Malformed("attribute payload has wrong length"));
                    }
                    Ok(Some(tcp_state(b[0])))
                },
            }
        },
    }
}

} // verus!

verus! {

/// The address of an attribute pair: one of IPv4 or IPv6, never both.
pub open spec fn spec_ip(q: Seq<u8>, v4: AttrSlot, v6: AttrSlot) -> Result<Option<IpAddress>, Seq<char>> {
    match (v4, v6) {
        (Some(_), Some(_)) => Err("tuple contains both IPv4 and IPv6 address"@),
        (Some(s), None) => {
            let b = slot_bytes(q, s);
            if b.len() != 4 {
                Err("attribute payload has wrong length"@)
            } else {
                Ok(Some(IpAddress::V4([b[0], b[1], b[2], b[3]])))
            }
        },
        (None, Some(s)) => {
            let b = slot_bytes(q, s);
            if b.len() != 16 {
                Err("attribute payload has wrong length"@)
            } else {
                Ok(
                    Some(
                        IpAddress::V6(
                            [
                                b[0],
                                b[1],
                                b[2],
                                b[3],
                                b[4],
                                b[5],
                                b[6],
                                b[7],
                                b[8],
                                b[9],
                                b[10],
                                b[11],
                                b[12],
                                b[13],
                                b[14],
                                b[15],
                            ],
                        ),
                    ),
                )
            }
        },
        (None, None) => Ok(None),
    }
}

fn parse_ip(q: &[u8], v4: AttrSlot, v6: AttrSlot) -> (r: Result<Option<IpAddress>, DumpError>)
    requires
        v4 matches Some(s) ==> s.0 <= s.1 <= q@.len(),
        v6 matches Some(s) ==> s.0 <= s.1 <= q@.len(),
    ensures
        agrees(r, spec_ip(q@, v4, v6)),
{
    match (v4, v6) {
        (Some(_), Some(_)) => Err(DumpError::Malformed("tuple contains both IPv4 and IPv6 address")),
        (Some(s), None) => {
            let b = slot_vec(q, s);
            if b.len() != 4 {
                return Err(DumpError::Malformed("attribute payload has wrong length"));
            }
            Ok(Some(IpAddress::V4([b[0], b[1], b[2], b[3]])))
        },
        (None, Some(s)) => {
            let b = slot_vec(q, s);
            if b.len() != 16 {
                return Err(DumpError::Malformed("attribute payload has wrong length"));
            }
            Ok(
                Some(
                    IpAddress::V6(
                        [
                            b[0],
                            b[1],
                            b[2],
                            b[3],
                            b[4],
                            b[5],
                            b[6],
                            b[7],
                            b[8],
                            b[9],
                            b[10],
                            b[11],
                            b[12],
                            b[13],
                            b[14],
                            b[15],
                        ],
                    ),
                ),
            )
        },
        (None, None) => Ok(None),
    }
}

/// The protocol and address family of a tuple.
#[derive(Clone, Copy, Debug, Eq, PartialEq, Structural)]
pub struct TupleMeta {
    pub protocol: Protocol,
    pub ipv6: bool,
}

pub open spec fn is_v6(a: IpAddress) -> bool {
    a is V6
}

/// A port attribute where present, else zero.
pub open spec fn spec_port(q: Seq<u8>, slot: AttrSlot) -> Result<u16, Seq<char>> {
    match slot {
        Some(s) => spec_be_u16(slot_bytes(q, s)),
        None => Ok(0u16),
    }
}

/// A tuple's addresses, ports and protocol, filed into `flow` as the
/// original or the reply direction; the reply sets the protocol only where
/// the original left none.
pub open spec fn spec_tuple(q: Seq<u8>, original: bool, flow: FlowSample, little: bool) -> Result<
    (TupleMeta, FlowSample),
    Seq<char>,
> {
    match spec_attr_table(q, 2, little) {
        Err(m) => Err(m),
        Ok(t) => match t[1] {
            None => Err("tuple missing IP attributes"@),
            Some(ip_slot) => {
                let ipb = slot_bytes(q, ip_slot);
                match spec_attr_table(ipb, 4, little) {
                    Err(m) => Err(m),
                    Ok(ip) => match t[2] {
                        None => Err("tuple missing protocol attributes"@),
                        Some(proto_slot) => {
                            let pb = slot_bytes(q, proto_slot);
                            match spec_attr_table(pb, 3, little) {
                                Err(m) => Err(m),
                                Ok(proto) => match spec_ip(ipb, ip[1], ip[3]) {
                                    Err(m) => Err(m),
                                    Ok(None) => Err("tuple missing source address"@),
                                    Ok(Some(src)) => match spec_ip(ipb, ip[2], ip[4]) {
                                        Err(m) => Err(m),
                                        Ok(None) => Err("tuple missing destination address"@),
                                        Ok(Some(dst)) => if is_v6(src) != is_v6(dst) {
                                            Err("tuple address family mismatch"@)
                                        } else {
                                            match proto[1] {
                                                None => Err("tuple missing protocol number"@),
                                                Some(ns) => {
                                                    let nb = slot_bytes(pb, ns);
                                                    if nb.len() != 1 {
                                                        Err("attribute payload has wrong length"@)
                                                    } else {
                                                        let parsed = spec_protocol(nb[0]);
                                                        if (parsed == Protocol::Tcp || parsed
                                                            == Protocol::Udp) && (proto[2] is None
                                                            || proto[3] is None) {
                                                            Err("TCP/UDP tuple missing ports"@)
                                                        } else {
                                                            match spec_port(pb, proto[2]) {
                                                                Err(m) => Err(m),
                                                                Ok(sport) => match spec_port(
                                                                    pb,
                                                                    proto[3],
                                                                ) {
                                                                    Err(m) => Err(m),
                                                                    Ok(dport) => {
                                                                        let next = if original {
                                                                            FlowSample {
                                                                                orig_src: Some(src),
                                                                                orig_dst: Some(dst),
                                                                                orig_sport: sport,
                                                                                orig_dport: dport,
                                                                                protocol: parsed,
                                                                                ..flow
                                                                            }
                                                                        } else {
                                                                            FlowSample {
                                                                                reply_src: Some(src),
                                                                                reply_dst: Some(dst),
                                                                                reply_sport: sport,
                                                                                reply_dport: dport,
                                                                                protocol: if flow.protocol
                                                                                    == Protocol::Other(
                                                                                    0,
                                                                                ) {
                                                                                    parsed
                                                                                } else {
                                                                                    flow.protocol
                                                                                },
                                                                                ..flow
                                                                            }
                                                                        };
                                                                        Ok(
                                                                            (
                                                                                TupleMeta {
                                                                                    protocol: parsed,
                                                                                    ipv6: is_v6(src),
                                                                                },
                                                                                next,
                                                                            ),
                                                                        )
                                                                    },
                                                                },
                                                            }
                                                        }
                                                    }
                                                },
                                            }
                                        },
                                    },
                                },
                            }
                        },
                    },
                }
            },
        },
    }
}

fn port_of(q: &[u8], slot: AttrSlot) -> (r: Result<u16, DumpError>)
    requires
        slot matches Some(s) ==> s.0 <= s.1 <= q@.len(),
    ensures
        agrees(r, spec_port(q@, slot)),
{
    match slot {
        Some(s) => {
            let b = slot_vec(q, s);
            be_u16(b.as_slice())
        },
        None => Ok(0),
    }
}

fn parse_tuple(q: &[u8], original: bool, flow: FlowSample, little: bool) -> (r: Result<
    (TupleMeta, FlowSample),
    DumpError,
>)
    ensures
        agrees(r, spec_tuple(q@, original, flow, little)),
{
    let t = match attr_table(q, 2, little) {
        Ok(t) => t,
        Err(e) => {
            return Err(e);
        },
    };
    let ip_slot = match t[1] {
        Some(s) => s,
        None => {
            return Err(DumpError::Malformed("tuple missing IP attributes"));
        },
    };
    let ipb = slot_vec(q, ip_slot);
    let ip = match attr_table(ipb.as_slice(), 4, little) {
        Ok(x) => x,
        Err(e) => {
            return Err(e);
        },
    };
    let proto_slot = match t[2] {
        Some(s) => s,
        None => {
            return Err(DumpError::Malformed("tuple missing protocol attributes"));
        },
    };
    let pb = slot_vec(q, proto_slot);
    let proto = match attr_table(pb.as_slice(), 3, little) {
        Ok(x) => x,
        Err(e) => {
            return Err(e);
        },
    };
    let src = match parse_ip(ipb.as_slice(), ip[1], ip[3]) {
        Err(e) => {
            return Err(e);
        },
        Ok(None) => {
            return Err(DumpError::Malformed("tuple missing source address"));
        },
        Ok(Some(a)) => a,
    };
    let dst = match parse_ip(ipb.as_slice(), ip[2], ip[4]) {
        Err(e) => {
            return Err(e);
        },
        Ok(None) => {
            return Err(DumpError::Malformed("tuple missing destination address"));
        },
        Ok(Some(a)) => a,
    };
    let src_v6 = match src {
        IpAddress::V6(_) => true,
        IpAddress::V4(_) => false,
    };
    let dst_v6 = match dst {
        IpAddress::V6(_) => true,
        IpAddress::V4(_) => false,
    };
    if src_v6 != dst_v6 {
        return Err(DumpError::Malformed("tuple address family mismatch"));
    }
    let ns = match proto[1] {
        Some(s) => s,
        None => {
            return Err(DumpError::Malformed("tuple missing protocol number"));
        },
    };
    let nb = slot_vec(pb.as_slice(), ns);
    if nb.len() != 1 {
        return Err(DumpError::Malformed("attribute payload has wrong length"));
    }
    let parsed = protocol(nb[0]);
    let with_ports = match parsed {
        Protocol::Tcp => true,
        Protocol::Udp => true,
        Protocol::Other(_) => false,
    };
    if with_ports && (proto[2].is_none() || proto[3].is_none()) {
        return Err(DumpError::Malformed("TCP/UDP tuple missing ports"));
    }
    let sport = match port_of(pb.as_slice(), proto[2]) {
        Ok(v) => v,
        Err(e) => {
            return Err(e);
        },
    };
    let dport = match port_of(pb.as_slice(), proto[3]) {
        Ok(v) => v,
        Err(e) => {
            return Err(e);
        },
    };
    let mut next = flow;
    if original {
        next.orig_src = Some(src);
        next.orig_dst = Some(dst);
        next.orig_sport = sport;
        next.orig_dport = dport;
        next.protocol = parsed;
    } else {
        next.reply_src = Some(src);
        next.reply_dst = Some(dst);
        next.reply_sport = sport;
        next.reply_dport = dport;
        let unset = match flow.protocol {
            Protocol::Other(n) => n == 0,
            _ => false,
        };
        if unset {
            next.protocol = parsed;
        }
    }
    Ok((TupleMeta { protocol: parsed, ipv6: src_v6 }, next))
}

} // verus!

verus! {

pub const CTA_TUPLE_ORIG: usize = 1;

pub const CTA_TUPLE_REPLY: usize = 2;

pub const CTA_STATUS: usize = 3;

pub const CTA_PROTOINFO: usize = 4;

pub const CTA_COUNTERS_ORIG: usize = 9;

pub const CTA_COUNTERS_REPLY: usize = 10;

pub const CTA_ID: usize = 12;

pub const CTA_ZONE: usize = 18;

pub const IPS_ASSURED: u32 = 4;

pub const IPS_OFFLOAD: u32 = 16384;

pub const IPS_HW_OFFLOAD: u32 = 32768;

/// An optional big-endian 32-bit attribute.
pub open spec fn spec_opt_u32(q: Seq<u8>, slot: AttrSlot) -> Result<Option<u32>, Seq<char>> {
    match slot {
        None => Ok(None),
        Some(s) => match spec_be_u32(slot_bytes(q, s)) {
            Ok(v) => Ok(Some(v)),
            Err(m) => Err(m),
        },
    }
}

/// An optional big-endian 16-bit attribute.
pub open spec fn spec_opt_u16(q: Seq<u8>, slot: AttrSlot) -> Result<Option<u16>, Seq<char>> {
    match slot {
        None => Ok(None),
        Some(s) => match spec_be_u16(slot_bytes(q, s)) {
            Ok(v) => Ok(Some(v)),
            Err(m) => Err(m),
        },
    }
}

/// The flow after its counters, status and protocol information: the reply
/// counter where present, assured by the status bit, and a TCP flow that
/// the accelerator offloaded without protocol information counted as
/// established.
pub open spec fn spec_flow_tail(
    a: Seq<u8>,
    t: Seq<AttrSlot>,
    flow: FlowSample,
    orig_bytes: u64,
    little: bool,
) -> Result<FlowSample, Seq<char>> {
    let reply_bytes = match t[CTA_COUNTERS_REPLY as int] {
        Some(s) => spec_counters(slot_bytes(a, s), little),
        None => Ok(flow.reply_bytes),
    };
    match reply_bytes {
        Err(m) => Err(m),
        Ok(rb) => match spec_opt_u32(a, t[CTA_STATUS as int]) {
            Err(m) => Err(m),
            Ok(st) => {
                let status: u32 = match st {
                    Some(v) => v,
                    None => 0u32,
                };
                let info = match t[CTA_PROTOINFO as int] {
                    Some(s) => spec_protoinfo(slot_bytes(a, s), little),
                    None => Ok(None),
                };
                match info {
                    Err(m) => Err(m),
                    Ok(state) => {
                        let f1 = FlowSample {
                            orig_bytes,
                            reply_bytes: rb,
                            assured: status & IPS_ASSURED != 0,
                            tcp_state: match state {
                                Some(x) => Some(x),
                                None => flow.tcp_state,
                            },
                            ..flow
                        };
                        let f2 = if f1.protocol == Protocol::Tcp && t[CTA_PROTOINFO as int] is None
                            && status & (IPS_OFFLOAD | IPS_HW_OFFLOAD) != 0 {
                            FlowSample { tcp_state: Some(TcpState::Established), ..f1 }
                        } else {
                            f1
                        };
                        if f2.orig_src is None {
                            Err("original tuple has no source address"@)
                        } else {
                            Ok(f2)
                        }
                    },
                }
            },
        },
    }
}

/// One conntrack entry: after the generic header, the attributes of the
/// original tuple and counters are required; the reply tuple, where present,
/// must agree with the original on protocol and address family.
#[verifier::opaque]
pub open spec fn spec_flow(payload: Seq<u8>, little: bool) -> Result<FlowSample, Seq<char>> {
    if payload.len() < 4 {
        Err("short nfgenmsg"@)
    } else {
        let a = payload.subrange(4, payload.len() as int);
        match spec_attr_table(a, CTA_ZONE as int, little) {
            Err(m) => Err(m),
            Ok(t) => match t[CTA_TUPLE_ORIG as int] {
                None => Err("missing original tuple"@),
                Some(orig) => match t[CTA_COUNTERS_ORIG as int] {
                    None => Err("missing original counters"@),
                    Some(oc) => match spec_opt_u32(a, t[CTA_ID as int]) {
                        Err(m) => Err(m),
                        Ok(id) => match spec_opt_u16(a, t[CTA_ZONE as int]) {
                            Err(m) => Err(m),
                            Ok(zone) => {
                                let f0 = FlowSample {
                                    conntrack_id: id,
                                    conntrack_zone: zone,
                                    ..crate::collectors::conntrack::empty_flow()
                                };
                                match spec_tuple(slot_bytes(a, orig), true, f0, little) {
                                    Err(m) => Err(m),
                                    Ok((orig_meta, f1)) => {
                                        let after_reply = match t[CTA_TUPLE_REPLY as int] {
                                            None => Ok(f1),
                                            Some(rs) => match spec_tuple(
                                                slot_bytes(a, rs),
                                                false,
                                                f1,
                                                little,
                                            ) {
                                                Err(m) => Err(m),
                                                Ok((reply_meta, f2)) => if reply_meta != orig_meta {
                                                    Err(
                                                        "reply tuple protocol or address family mismatch"@,
                                                    )
                                                } else {
                                                    Ok(f2)
                                                },
                                            },
                                        };
                                        match after_reply {
                                            Err(m) => Err(m),
                                            Ok(f2) => match spec_counters(slot_bytes(a, oc), little) {
                                                Err(m) => Err(m),
                                                Ok(ob) => spec_flow_tail(a, t, f2, ob, little),
                                            },
                                        }
                                    },
                                }
                            },
                        },
                    },
                },
            },
        }
    }
}

fn opt_u32(a: &[u8], slot: AttrSlot) -> (r: Result<Option<u32>, DumpError>)
    requires
        slot matches Some(s) ==> s.0 <= s.1 <= a@.len(),
    ensures
        agrees(r, spec_opt_u32(a@, slot)),
{
    match slot {
        None => Ok(None),
        Some(s) => {
            let b = slot_vec(a, s);
            match be_u32(b.as_slice()) {
                Ok(v) => Ok(Some(v)),
                Err(e) => Err(e),
            }
        },
    }
}

fn opt_u16(a: &[u8], slot: AttrSlot) -> (r: Result<Option<u16>, DumpError>)
    requires
        slot matches Some(s) ==> s.0 <= s.1 <= a@.len(),
    ensures
        agrees(r, spec_opt_u16(a@, slot)),
{
    match slot {
        None => Ok(None),
        Some(s) => {
            let b = slot_vec(a, s);
            match be_u16(b.as_slice()) {
                Ok(v) => Ok(Some(v)),
                Err(e) => Err(e),
            }
        },
    }
}

fn flow_tail(a: &[u8], t: &Vec<AttrSlot>, flow: FlowSample, orig_bytes: u64, little: bool) -> (r:
    Result<FlowSample, DumpError>)
    requires
        t@.len() == CTA_ZONE + 1,
        slots_within(t@, a@.len() as int),
    ensures
        agrees(r, spec_flow_tail(a@, t@, flow, orig_bytes, little)),
{
    let rb = match t[CTA_COUNTERS_REPLY] {
        Some(s) => {
            let b = slot_vec(a, s);
            match parse_counters(b.as_slice(), little) {
                Ok(v) => v,
                Err(e) => {
                    return Err(e);
                },
            }
        },
        None => flow.reply_bytes,
    };
    let status: u32 = match opt_u32(a, t[CTA_STATUS]) {
        Ok(Some(v)) => v,
        Ok(None) => 0,
        Err(e) => {
            return Err(e);
        },
    };
    let state = match t[CTA_PROTOINFO] {
        Some(s) => {
            let b = slot_vec(a, s);
            match parse_protoinfo(b.as_slice(), little) {
                Ok(x) => x,
                Err(e) => {
                    return Err(e);
                },
            }
        },
        None => None,
    };
    let mut f = flow;
    f.orig_bytes = orig_bytes;
    f.reply_bytes = rb;
    f.assured = status & IPS_ASSURED != 0;
    match state {
        Some(x) => {
            f.tcp_state = Some(x);
        },
        None => {},
    }
    let is_tcp = match f.protocol {
        Protocol::Tcp => true,
        _ => false,
    };
    if is_tcp && t[CTA_PROTOINFO].is_none() && status & (IPS_OFFLOAD | IPS_HW_OFFLOAD) != 0 {
        f.tcp_state = Some(TcpState::Established);
    }
    if f.orig_src.is_none() {
        return Err(DumpError::Malformed("original tuple has no source address"));
    }
    Ok(f)
}

/// Parses one conntrack entry.
pub fn parse_flow(payload: &[u8], little: bool) -> (r: Result<FlowSample, DumpError>)
    ensures
        agrees(r, spec_flow(payload@, little)),
{
    proof {
        reveal(spec_flow);
    }
    if payload.len() < 4 {
        return Err(DumpError::Malformed("short nfgenmsg"));
    }
    let av = slot_vec(payload, (4, payload.len()));
    let a = av.as_slice();
    let t = match attr_table(a, CTA_ZONE, little) {
        Ok(t) => t,
        Err(e) => {
            return Err(e);
        },
    };
    let orig = match t[CTA_TUPLE_ORIG] {
        Some(s) => s,
        None => {
            return Err(DumpError::Malformed("missing original tuple"));
        },
    };
    let oc = match t[CTA_COUNTERS_ORIG] {
        Some(s) => s,
        None => {
            return Err(DumpError::Malformed("missing original counters"));
        },
    };
    let id = match opt_u32(a, t[CTA_ID]) {
        Ok(x) => x,
        Err(e) => {
            return Err(e);
        },
    };
    let zone = match opt_u16(a, t[CTA_ZONE]) {
        Ok(x) => x,
        Err(e) => {
            return Err(e);
        },
    };
    let mut f0 = FlowSample::empty();
    f0.conntrack_id = id;
    f0.conntrack_zone = zone;
    let ob_ = slot_vec(a, orig);
    let (orig_meta, f1) = match parse_tuple(ob_.as_slice(), true, f0, little) {
        Ok(x) => x,
        Err(e) => {
            return Err(e);
        },
    };
    let f2 = match t[CTA_TUPLE_REPLY] {
        None => f1,
        Some(rs) => {
            let rb = slot_vec(a, rs);
            match parse_tuple(rb.as_slice(), false, f1, little) {
                Err(e) => {
                    return Err(e);
                },
                Ok((reply_meta, f2)) => {
                    if reply_meta != orig_meta {
                        return Err(
                            DumpError::Malformed("reply tuple protocol or address family mismatch"),
                        );
                    }
                    f2
                },
            }
        },
    };
    let cb = slot_vec(a, oc);
    let ob = match parse_counters(cb.as_slice(), little) {
        Ok(v) => v,
        Err(e) => {
            return Err(e);
        },
    };
    flow_tail(a, &t, f2, ob, little)
}

} // verus!

verus! {

/// A dump error, its reason text taken by value.
pub enum DumpFault {
    UnexpectedSender(u32),
    UnexpectedPortId { expected: u32, actual: u32 },
    UnexpectedSequence { expected: u32, actual: u32 },
    Interrupted,
    Kernel(i32),
    Malformed(Seq<char>),
    MissingDone,
    LimitExceeded,
    TruncatedDatagram { reported: usize, capacity: usize },
}

impl View for DumpError {
    type V = DumpFault;

    open spec fn view(&self) -> DumpFault {
        match self {
            DumpError::UnexpectedSender(p) => DumpFault::UnexpectedSender(*p),
            DumpError::UnexpectedPortId { expected, actual } => DumpFault::UnexpectedPortId {
                expected: *expected,
                actual: *actual,
            },
            DumpError::UnexpectedSequence { expected, actual } => DumpFault::UnexpectedSequence {
                expected: *expected,
                actual: *actual,
            },
            DumpError::Interrupted => DumpFault::Interrupted,
            DumpError::Kernel(e) => DumpFault::Kernel(*e),
            DumpError::Malformed(m) => DumpFault::Malformed(m@),
            DumpError::MissingDone => DumpFault::MissingDone,
            DumpError::LimitExceeded => DumpFault::LimitExceeded,
            DumpError::TruncatedDatagram { reported, capacity } => DumpFault::TruncatedDatagram {
                reported: *reported,
                capacity: *capacity,
            },
        }
    }
}

/// What a dump has yielded so far: whether its end was seen, the entries
/// read, and how many entries were malformed.
pub struct DumpProgress {
    pub done: bool,
    pub flows: Seq<FlowSample>,
    pub malformed: nat,
}

/// Four bytes as a signed integer.
pub open spec fn signed32(u: int) -> int {
    if u >= 0x8000_0000 {
        u - 0x1_0000_0000
    } else {
        u
    }
}

/// The magnitude of an errno, at most the largest `i32`.
pub open spec fn errno_of(e: int) -> i32 {
    if e == -0x8000_0000 {
        0x7fff_ffff
    } else {
        (-e) as i32
    }
}

/// The status of an acknowledgement: success, a kernel errno, or malformed.
pub open spec fn spec_ack(payload: Seq<u8>, little: bool) -> Result<(), DumpFault> {
    if payload.len() < 20 {
        Err(DumpFault::Malformed("short NLMSG_ERROR"@))
    } else {
        let e = signed32(ne32(payload, 0, little));
        if e == 0 {
            Ok(())
        } else if e < 0 {
            Err(DumpFault::Kernel(errno_of(e)))
        } else {
            Err(DumpFault::Malformed("positive NLMSG_ERROR errno"@))
        }
    }
}

/// One message's effect on the progress of a dump, by its type.
#[verifier::opaque]
pub open spec fn spec_message(
    kind: int,
    flags: int,
    payload: Seq<u8>,
    st: DumpProgress,
    little: bool,
) -> Result<DumpProgress, DumpFault> {
    if kind == NLMSG_DONE {
        if flags % 4 < 2 {
            Err(DumpFault::Malformed("NLMSG_DONE is not multipart"@))
        } else if 1 <= payload.len() < 4 {
            Err(DumpFault::Malformed("short NLMSG_DONE status"@))
        } else {
            let e = if payload.len() >= 4 {
                signed32(ne32(payload, 0, little))
            } else {
                0
            };
            if e < 0 {
                Err(DumpFault::Kernel(errno_of(e)))
            } else if e > 0 {
                Err(DumpFault::Malformed("positive NLMSG_DONE status"@))
            } else {
                Ok(DumpProgress { done: true, ..st })
            }
        }
    } else if kind == NLMSG_ERROR {
        match spec_ack(payload, little) {
            Ok(()) => Ok(st),
            Err(f) => Err(f),
        }
    } else if kind == IPCTNL_MSG_CT_NEW {
        if flags % 4 < 2 {
            Err(DumpFault::Malformed("conntrack data is not multipart"@))
        } else {
            match spec_flow(payload, little) {
                Ok(f) => Ok(DumpProgress { flows: st.flows.push(f), ..st }),
                Err(_) => Ok(
                    DumpProgress {
                        malformed: if st.malformed < usize::MAX {
                            st.malformed + 1
                        } else {
                            st.malformed
                        },
                        ..st
                    },
                ),
            }
        }
    } else {
        Err(DumpFault::Malformed("unexpected netlink message type"@))
    }
}

/// The header of the message at `off`, checked: a 16-byte header (length,
/// type, flags, sequence, port) whose length fits the datagram, carrying the
/// dump's sequence and port, not marked interrupted, and not after the end
/// of the dump. Gives the length, type and flags.
pub open spec fn spec_header(
    b: Seq<u8>,
    off: int,
    done: bool,
    seq: u32,
    port: u32,
    little: bool,
) -> Result<(int, int, int), DumpFault> {
    if off + 16 > b.len() {
        Err(DumpFault::Malformed("truncated nlmsghdr"@))
    } else {
        let len = ne32(b, off, little);
        let kind = ne16(b, off + 4, little);
        let flags = ne16(b, off + 6, little);
        let s = ne32(b, off + 8, little);
        let pid = ne32(b, off + 12, little);
        if len < 16 || off + len > b.len() {
            Err(DumpFault::Malformed("invalid nlmsg length"@))
        } else if s != seq {
            Err(DumpFault::UnexpectedSequence { expected: seq, actual: s as u32 })
        } else if pid != port {
            Err(DumpFault::UnexpectedPortId { expected: port, actual: pid as u32 })
        } else if (flags / 16) % 2 == 1 {
            Err(DumpFault::Interrupted)
        } else if done {
            if kind == NLMSG_DONE {
                Err(DumpFault::Malformed("duplicate NLMSG_DONE"@))
            } else {
                Err(DumpFault::Malformed("message after NLMSG_DONE"@))
            }
        } else {
            Ok((len, kind, flags))
        }
    }
}

/// Where the next message starts: after this one, padded to four bytes.
pub open spec fn spec_next(blen: int, off: int, len: int) -> Result<int, DumpFault> {
    if len + 3 > usize::MAX {
        Err(DumpFault::Malformed("nlmsg alignment overflow"@))
    } else if off + align4(len) > usize::MAX {
        Err(DumpFault::Malformed("nlmsg offset overflow"@))
    } else if off + align4(len) > blen {
        Err(DumpFault::Malformed("truncated nlmsg padding"@))
    } else {
        Ok(off + align4(len))
    }
}

/// The messages of a datagram from `off` on, each checked by its header and
/// applied to the progress in turn.
pub open spec fn spec_messages(
    b: Seq<u8>,
    off: int,
    st: DumpProgress,
    seq: u32,
    port: u32,
    little: bool,
) -> Result<DumpProgress, DumpFault>
    decreases b.len() - off,
{
    if off < 0 || off >= b.len() {
        Ok(st)
    } else {
        match spec_header(b, off, st.done, seq, port, little) {
            Err(f) => Err(f),
            Ok((len, kind, flags)) => match spec_message(
                kind,
                flags,
                b.subrange(off + 16, off + len),
                st,
                little,
            ) {
                Err(f) => Err(f),
                Ok(st2) => match spec_next(b.len() as int, off, len) {
                    Err(f) => Err(f),
                    Ok(next) => if next > off {
                        spec_messages(b, next, st2, seq, port, little)
                    } else {
                        Ok(st2)
                    },
                },
            },
        }
    }
}

fn read_header(b: &[u8], off: usize, done: bool, seq: u32, port: u32, little: bool) -> (r: Result<
    (usize, u16, u16),
    DumpError,
>)
    requires
        off < b@.len(),
    ensures
        match spec_header(b@, off as int, done, seq, port, little) {
            Ok((len, kind, flags)) => r matches Ok(h) && h.0 == len && h.1 == kind && h.2 == flags,
            Err(f) => r matches Err(e) && e@ == f,
        },
{
    if b.len() - off < 16 {
        return Err(DumpError::Malformed("truncated nlmsghdr"));
    }
    let len32 = read_ne32(b, off, little);
    let kind = read_ne16(b, off + 4, little);
    let flags = read_ne16(b, off + 6, little);
    let s = read_ne32(b, off + 8, little);
    let pid = read_ne32(b, off + 12, little);
    if len32 < 16 || (len32 as u64) > ((b.len() - off) as u64) {
        return Err(DumpError::Malformed("invalid nlmsg length"));
    }
    if s != seq {
        return Err(DumpError::UnexpectedSequence { expected: seq, actual: s });
    }
    if pid != port {
        return Err(DumpError::UnexpectedPortId { expected: port, actual: pid });
    }
    proof {
        assert(flags & NLM_F_DUMP_INTR != 0 <==> (flags / 16) % 2 == 1) by (bit_vector);
    }
    if flags & NLM_F_DUMP_INTR != 0 {
        return Err(DumpError::Interrupted);
    }
    if done {
        if kind == NLMSG_DONE {
            return Err(DumpError::Malformed("duplicate NLMSG_DONE"));
        } else {
            return Err(DumpError::Malformed("message after NLMSG_DONE"));
        }
    }
    Ok((len32 as usize, kind, flags))
}

fn next_offset(blen: usize, off: usize, len: usize) -> (r: Result<usize, DumpError>)
    ensures
        match spec_next(blen as int, off as int, len as int) {
            Ok(n) => r matches Ok(x) && x == n,
            Err(f) => r matches Err(e) && e@ == f,
        },
{
    if len > usize::MAX - 3 {
        return Err(DumpError::Malformed("nlmsg alignment overflow"));
    }
    let aligned = (len + 3) / 4 * 4;
    if aligned > usize::MAX - off {
        return Err(DumpError::Malformed("nlmsg offset overflow"));
    }
    let next = off + aligned;
    if next > blen {
        return Err(DumpError::Malformed("truncated nlmsg padding"));
    }
    Ok(next)
}

/// A dump read datagram by datagram.
pub struct DumpParser {
    expected_seq: u32,
    expected_port_id: u32,
    max_bytes: usize,
    total_bytes: usize,
    little: bool,
    flows: Vec<FlowSample>,
    malformed_entries: usize,
    done: bool,
}

impl DumpParser {
    pub closed spec fn progress(&self) -> DumpProgress {
        DumpProgress {
            done: self.done,
            flows: self.flows@,
            malformed: self.malformed_entries as nat,
        }
    }

    pub closed spec fn seq_view(&self) -> u32 {
        self.expected_seq
    }

    pub closed spec fn port_view(&self) -> u32 {
        self.expected_port_id
    }

    pub closed spec fn little_view(&self) -> bool {
        self.little
    }

    pub closed spec fn max_view(&self) -> usize {
        self.max_bytes
    }

    pub closed spec fn total_view(&self) -> usize {
        self.total_bytes
    }

    /// A parser for the dump with this sequence and port, reading at most
    /// `max_bytes`, with integers in the given byte order.
    pub fn with_byte_order(expected_seq: u32, expected_port_id: u32, max_bytes: usize, little: bool) -> (r:
        Self)
        ensures
            r.progress() == (DumpProgress { done: false, flows: Seq::empty(), malformed: 0 }),
            r.seq_view() == expected_seq,
            r.port_view() == expected_port_id,
            r.max_view() == max_bytes,
            r.total_view() == 0,
            r.little_view() == little,
    {
        let r = DumpParser {
            expected_seq,
            expected_port_id,
            max_bytes,
            total_bytes: 0,
            little,
            flows: Vec::new(),
            malformed_entries: 0,
            done: false,
        };
        assert(r.flows@ =~= Seq::<FlowSample>::empty());
        r
    }

    /// A parser that reads integers in the machine's byte order.
    pub fn new(expected_seq: u32, expected_port_id: u32, max_bytes: usize) -> (r: Self)
        ensures
            r.progress() == (DumpProgress { done: false, flows: Seq::empty(), malformed: 0 }),
            r.seq_view() == expected_seq,
            r.port_view() == expected_port_id,
            r.max_view() == max_bytes,
            r.total_view() == 0,
    {
        let little = machine_is_little_endian();
        Self::with_byte_order(expected_seq, expected_port_id, max_bytes, little)
    }

    fn message(&mut self, kind: u16, flags: u16, payload: &[u8]) -> (r: Result<(), DumpError>)
        requires
            !old(self).progress().done,
        ensures
            final(self).seq_view() == old(self).seq_view(),
            final(self).port_view() == old(self).port_view(),
            final(self).little_view() == old(self).little_view(),
            final(self).max_view() == old(self).max_view(),
            final(self).total_view() == old(self).total_view(),
            match spec_message(kind as int, flags as int, payload@, old(self).progress(), old(self).little_view()) {
                Ok(st) => r is Ok && final(self).progress() == st,
                Err(f) => r matches Err(e) && e@ == f,
            },
    {
        proof {
            reveal(spec_message);
            assert(flags & NLM_F_MULTI == 0 <==> flags % 4 < 2) by (bit_vector);
        }
        if kind == NLMSG_DONE {
            if flags & NLM_F_MULTI == 0 {
                return Err(DumpError::Malformed("NLMSG_DONE is not multipart"));
            }
            if 1 <= payload.len() && payload.len() < 4 {
                return Err(DumpError::Malformed("short NLMSG_DONE status"));
            }
            if payload.len() >= 4 {
                let u = read_ne32(payload, 0, self.little);
                if u >= 0x8000_0000 {
                    let magnitude: u64 = 0x1_0000_0000u64 - (u as u64);
                    let errno: i32 = if magnitude > 0x7fff_ffff {
                        0x7fff_ffff
                    } else {
                        magnitude as i32
                    };
                    return Err(DumpError::Kernel(errno));
                } else if u > 0 {
                    return Err(DumpError::Malformed("positive NLMSG_DONE status"));
                }
            }
            self.done = true;
            Ok(())
        } else if kind == NLMSG_ERROR {
            if payload.len() < 20 {
                return Err(DumpError::Malformed("short NLMSG_ERROR"));
            }
            let u = read_ne32(payload, 0, self.little);
            if u == 0 {
                Ok(())
            } else if u >= 0x8000_0000 {
                let magnitude: u64 = 0x1_0000_0000u64 - (u as u64);
                let errno: i32 = if magnitude > 0x7fff_ffff {
                    0x7fff_ffff
                } else {
                    magnitude as i32
                };
                Err(DumpError::Kernel(errno))
            } else {
                Err(DumpError::Malformed("positive NLMSG_ERROR errno"))
            }
        } else if kind == IPCTNL_MSG_CT_NEW {
            if flags & NLM_F_MULTI == 0 {
                return Err(DumpError::Malformed("conntrack data is not multipart"));
            }
            match parse_flow(payload, self.little) {
                Ok(flow) => {
                    self.flows.push(flow);
                },
                Err(_) => {
                    self.malformed_entries = self.malformed_entries.saturating_add(1);
                },
            }
            Ok(())
        } else {
            Err(DumpError::Malformed("unexpected netlink message type"))
        }
    }

    /// Reads the messages of one datagram.
    pub fn parse_datagram(&mut self, sender_pid: u32, bytes: &[u8]) -> (r: Result<(), DumpError>)
        ensures
            final(self).seq_view() == old(self).seq_view(),
            final(self).port_view() == old(self).port_view(),
            final(self).little_view() == old(self).little_view(),
            final(self).max_view() == old(self).max_view(),
            final(self).total_view() == old(self).total_view(),
            sender_pid != 0 ==> (r matches Err(e) && e@ == DumpFault::UnexpectedSender(sender_pid)),
            sender_pid == 0 ==> match spec_messages(
                bytes@,
                0,
                old(self).progress(),
                old(self).seq_view(),
                old(self).port_view(),
                old(self).little_view(),
            ) {
                Ok(st) => r is Ok && final(self).progress() == st,
                Err(f) => r matches Err(e) && e@ == f,
            },
    {
        if sender_pid != 0 {
            return Err(DumpError::UnexpectedSender(sender_pid));
        }
        let ghost whole = spec_messages(
            bytes@,
            0,
            self.progress(),
            self.expected_seq,
            self.expected_port_id,
            self.little,
        );
        let mut off: usize = 0;
        while off < bytes.len()
            invariant
                sender_pid == 0,
                off <= bytes@.len(),
                self.seq_view() == old(self).seq_view(),
                self.port_view() == old(self).port_view(),
                self.little_view() == old(self).little_view(),
                self.max_view() == old(self).max_view(),
                self.total_view() == old(self).total_view(),
                whole == spec_messages(
                    bytes@,
                    0,
                    old(self).progress(),
                    old(self).seq_view(),
                    old(self).port_view(),
                    old(self).little_view(),
                ),
                whole == spec_messages(
                    bytes@,
                    off as int,
                    self.progress(),
                    self.expected_seq,
                    self.expected_port_id,
                    self.little,
                ),
            decreases bytes.len() - off,
        {
            let (len, kind, flags) = match read_header(
                bytes,
                off,
                self.done,
                self.expected_seq,
                self.expected_port_id,
                self.little,
            ) {
                Ok(h) => h,
                Err(e) => {
                    return Err(e);
                },
            };
            let payload = slot_vec(bytes, (off + 16, off + len));
            match self.message(kind, flags, payload.as_slice()) {
                Ok(()) => {},
                Err(e) => {
                    return Err(e);
                },
            }
            let next = match next_offset(bytes.len(), off, len) {
                Ok(n) => n,
                Err(e) => {
                    return Err(e);
                },
            };
            off = next;
        }
        Ok(())
    }
}

} // verus!

verus! {

/// The entries of a complete dump, and how many were malformed.
#[derive(Clone, Debug, Eq, PartialEq)]
pub struct ParsedDump {
    pub flows: Vec<FlowSample>,
    pub malformed_entries: usize,
}

/// A dump's entries with where they came from.
#[derive(Clone, Debug, Eq, PartialEq)]
pub struct NetlinkSnapshot {
    pub flows: Vec<FlowSample>,
    pub source_path: &'static str,
    pub counter_source: &'static str,
    pub malformed_entries: usize,
}

/// A dump's entries aggregated as they were read, with where they came
/// from and how many entries there were.
#[derive(Clone, Debug, Eq, PartialEq)]
pub struct NetlinkAggregateSnapshot {
    pub aggregate: crate::collectors::conntrack::aggregate::AggregateSnapshot,
    pub source_path: &'static str,
    pub counter_source: &'static str,
    pub malformed_entries: usize,
    pub entries_seen: usize,
}

/// The bytes of all datagrams together.
pub open spec fn total_len(ds: Seq<Datagram>) -> int
    decreases ds.len(),
{
    if ds.len() == 0 {
        0
    } else {
        total_len(ds.drop_last()) + ds.last().bytes@.len()
    }
}

/// One datagram added to a dump: within the byte limit, from the kernel,
/// its messages applied in turn.
pub open spec fn spec_push(
    st: DumpProgress,
    total: int,
    max: int,
    d: Datagram,
    seq: u32,
    port: u32,
    little: bool,
) -> Result<(DumpProgress, int), DumpFault> {
    let total2 = total + d.bytes@.len();
    if total2 > usize::MAX || total2 > max {
        Err(DumpFault::LimitExceeded)
    } else if d.sender_pid != 0 {
        Err(DumpFault::UnexpectedSender(d.sender_pid))
    } else {
        match spec_messages(d.bytes@, 0, st, seq, port, little) {
            Ok(st2) => Ok((st2, total2)),
            Err(f) => Err(f),
        }
    }
}

/// The progress after all datagrams, in order.
pub open spec fn spec_pushes(ds: Seq<Datagram>, max: int, seq: u32, port: u32, little: bool) -> Result<
    (DumpProgress, int),
    DumpFault,
>
    decreases ds.len(),
{
    if ds.len() == 0 {
        Ok((DumpProgress { done: false, flows: Seq::empty(), malformed: 0 }, 0))
    } else {
        match spec_pushes(ds.drop_last(), max, seq, port, little) {
            Err(f) => Err(f),
            Ok((st, t)) => spec_push(st, t, max, ds.last(), seq, port, little),
        }
    }
}

/// A whole dump: within the byte limit, every datagram read, and ended by
/// its done message.
pub open spec fn spec_dump(ds: Seq<Datagram>, seq: u32, port: u32, max: int, little: bool) -> Result<
    (Seq<FlowSample>, nat),
    DumpFault,
> {
    if total_len(ds) > usize::MAX || total_len(ds) > max {
        Err(DumpFault::LimitExceeded)
    } else {
        match spec_pushes(ds, max, seq, port, little) {
            Err(f) => Err(f),
            Ok((st, _)) => if !st.done {
                Err(DumpFault::MissingDone)
            } else {
                Ok((st.flows, st.malformed))
            },
        }
    }
}

/// Whether the datagrams together stay within `max_bytes`.
pub fn validate_dump_size(datagrams: &Vec<Datagram>, max_bytes: usize) -> (r: Result<(), DumpError>)
    ensures
        r is Ok <==> (total_len(datagrams@) <= usize::MAX && total_len(datagrams@) <= max_bytes),
        r matches Err(e) ==> e@ == DumpFault::LimitExceeded,
{
    let mut total: usize = 0;
    let mut i: usize = 0;
    while i < datagrams.len()
        invariant
            i <= datagrams.len(),
            total == total_len(datagrams@.take(i as int)),
        decreases datagrams.len() - i,
    {
        proof {
            assert(datagrams@.take(i + 1).drop_last() =~= datagrams@.take(i as int));
            assert(datagrams@.take(i + 1).last() == datagrams@[i as int]);
        }
        let n = datagrams[i].bytes.len();
        if n > usize::MAX - total {
            proof {
                lemma_total_len_grows(datagrams@, i as int + 1);
            }
            return Err(DumpError::LimitExceeded);
        }
        total = total + n;
        i += 1;
    }
    proof {
        assert(datagrams@.take(datagrams.len() as int) =~= datagrams@);
    }
    if total > max_bytes {
        return Err(DumpError::LimitExceeded);
    }
    Ok(())
}

/// The total of all datagrams is at least that of any prefix.
proof fn lemma_total_len_grows(ds: Seq<Datagram>, k: int)
    requires
        0 <= k <= ds.len(),
    ensures
        total_len(ds.take(k)) <= total_len(ds),
    decreases ds.len() - k,
{
    if k < ds.len() {
        lemma_total_len_grows(ds, k + 1);
        assert(ds.take(k + 1).drop_last() =~= ds.take(k));
    } else {
        assert(ds.take(k) =~= ds);
    }
}

impl DumpParser {
    /// Adds one datagram, within the byte limit; says whether the dump has
    /// ended.
    pub fn push_datagram(&mut self, sender_pid: u32, bytes: &[u8]) -> (r: Result<bool, DumpError>)
        ensures
            final(self).seq_view() == old(self).seq_view(),
            final(self).port_view() == old(self).port_view(),
            final(self).little_view() == old(self).little_view(),
            final(self).max_view() == old(self).max_view(),
            ({
                let total2 = old(self).total_view() + bytes@.len();
                if total2 > usize::MAX || total2 > old(self).max_view() {
                    r matches Err(e) && e@ == DumpFault::LimitExceeded
                } else if sender_pid != 0 {
                    r matches Err(e) && e@ == DumpFault::UnexpectedSender(sender_pid)
                } else {
                    final(self).total_view() == total2 && match spec_messages(
                        bytes@,
                        0,
                        old(self).progress(),
                        old(self).seq_view(),
                        old(self).port_view(),
                        old(self).little_view(),
                    ) {
                        Ok(st) => r == Ok::<bool, DumpError>(st.done) && final(self).progress() == st,
                        Err(f) => r matches Err(e) && e@ == f,
                    }
                }
            }),
    {
        if bytes.len() > usize::MAX - self.total_bytes {
            return Err(DumpError::LimitExceeded);
        }
        self.total_bytes = self.total_bytes + bytes.len();
        if self.total_bytes > self.max_bytes {
            return Err(DumpError::LimitExceeded);
        }
        match self.parse_datagram(sender_pid, bytes) {
            Ok(()) => Ok(self.done),
            Err(e) => Err(e),
        }
    }

    /// The dump's entries, once its end was seen.
    pub fn finish(self) -> (r: Result<ParsedDump, DumpError>)
        ensures
            !self.progress().done ==> (r matches Err(e) && e@ == DumpFault::MissingDone),
            self.progress().done ==> (r matches Ok(p) && p.flows@ == self.progress().flows
                && p.malformed_entries == self.progress().malformed),
    {
        if !self.done {
            return Err(DumpError::MissingDone);
        }
        Ok(ParsedDump { flows: self.flows, malformed_entries: self.malformed_entries })
    }
}

/// Parses a whole dump with integers in the given byte order.
pub fn parse_dump_detailed_in(
    datagrams: &Vec<Datagram>,
    expected_seq: u32,
    expected_port_id: u32,
    max_bytes: usize,
    little: bool,
) -> (r: Result<ParsedDump, DumpError>)
    ensures
        match spec_dump(datagrams@, expected_seq, expected_port_id, max_bytes as int, little) {
            Ok((flows, malformed)) => r matches Ok(p) && p.flows@ == flows && p.malformed_entries
                == malformed,
            Err(f) => r matches Err(e) && e@ == f,
        },
{
    match validate_dump_size(datagrams, max_bytes) {
        Ok(()) => {},
        Err(e) => {
            return Err(e);
        },
    }
    let mut parser = DumpParser::with_byte_order(expected_seq, expected_port_id, max_bytes, little);
    let mut i: usize = 0;
    while i < datagrams.len()
        invariant
            i <= datagrams.len(),
            total_len(datagrams@) <= usize::MAX,
            total_len(datagrams@) <= max_bytes,
            parser.seq_view() == expected_seq,
            parser.port_view() == expected_port_id,
            parser.little_view() == little,
            parser.max_view() == max_bytes,
            spec_pushes(datagrams@.take(i as int), max_bytes as int, expected_seq, expected_port_id, little)
                == Ok::<(DumpProgress, int), DumpFault>((parser.progress(), parser.total_view() as int)),
        decreases datagrams.len() - i,
    {
        proof {
            assert(datagrams@.take(i + 1).drop_last() =~= datagrams@.take(i as int));
            assert(datagrams@.take(i + 1).last() == datagrams@[i as int]);
            lemma_total_len_grows(datagrams@, i + 1);
            assert(total_len(datagrams@.take(i + 1)) == parser.total_view() + datagrams@[i as int].bytes@.len()) by {
                lemma_pushes_total(datagrams@.take(i as int), max_bytes as int, expected_seq, expected_port_id, little);
            }
        }
        let ghost before = parser.progress();
        let ghost before_total = parser.total_view();
        match parser.push_datagram(datagrams[i].sender_pid, datagrams[i].bytes.as_slice()) {
            Ok(_) => {},
            Err(e) => {
                proof {
                    let ds = datagrams@;
                    assert(spec_pushes(ds.take(i + 1), max_bytes as int, expected_seq, expected_port_id, little)
                        == spec_push(before, before_total as int, max_bytes as int, ds[i as int], expected_seq, expected_port_id, little));
                    assert(spec_pushes(ds.take(i + 1), max_bytes as int, expected_seq, expected_port_id, little)
                        == Err::<(DumpProgress, int), DumpFault>(e@));
                    lemma_pushes_err_stays(ds, i + 1, max_bytes as int, expected_seq, expected_port_id, little);
                    assert(ds.take(ds.len() as int) =~= ds);
                }
                return Err(e);
            },
        }
        i += 1;
    }
    proof {
        assert(datagrams@.take(datagrams.len() as int) =~= datagrams@);
    }
    parser.finish()
}

/// A failed prefix fails the whole run with the same error.
proof fn lemma_pushes_err_stays(ds: Seq<Datagram>, k: int, max: int, seq: u32, port: u32, little: bool)
    requires
        0 <= k <= ds.len(),
        spec_pushes(ds.take(k), max, seq, port, little) is Err,
    ensures
        spec_pushes(ds.take(ds.len() as int), max, seq, port, little) == spec_pushes(ds.take(k), max, seq, port, little),
    decreases ds.len() - k,
{
    if k < ds.len() {
        assert(ds.take(k + 1).drop_last() =~= ds.take(k));
        lemma_pushes_err_stays(ds, k + 1, max, seq, port, little);
    }
}

/// The running total of a successful run of pushes is the datagrams' total.
proof fn lemma_pushes_total(ds: Seq<Datagram>, max: int, seq: u32, port: u32, little: bool)
    ensures
        spec_pushes(ds, max, seq, port, little) matches Ok((_, t)) ==> t == total_len(ds),
    decreases ds.len(),
{
    if ds.len() > 0 {
        lemma_pushes_total(ds.drop_last(), max, seq, port, little);
    }
}

/// Parses a whole dump from the kernel, up to the default byte limit, with
/// integers in the machine's byte order.
pub fn parse_dump_detailed(datagrams: &Vec<Datagram>, expected_seq: u32) -> (r: Result<
    ParsedDump,
    DumpError,
>)
    ensures
        exists|little: bool|
            match #[trigger] spec_dump(datagrams@, expected_seq, 0, MAX_DUMP_BYTES as int, little) {
                Ok((flows, malformed)) => r matches Ok(p) && p.flows@ == flows && p.malformed_entries
                    == malformed,
                Err(f) => r matches Err(e) && e@ == f,
            },
{
    let little = machine_is_little_endian();
    let r = parse_dump_detailed_in(datagrams, expected_seq, 0, MAX_DUMP_BYTES, little);
    assert(match spec_dump(datagrams@, expected_seq, 0, MAX_DUMP_BYTES as int, little) {
        Ok((flows, malformed)) => r matches Ok(p) && p.flows@ == flows && p.malformed_entries
            == malformed,
        Err(f) => r matches Err(e) && e@ == f,
    });
    r
}

/// The entries of a dump for a given netlink port.
pub fn parse_dump_for_port(datagrams: &Vec<Datagram>, expected_seq: u32, expected_port_id: u32) -> (r:
    Result<Vec<FlowSample>, DumpError>)
    ensures
        exists|little: bool|
            match #[trigger] spec_dump(
                datagrams@,
                expected_seq,
                expected_port_id,
                MAX_DUMP_BYTES as int,
                little,
            ) {
                Ok((flows, _)) => r matches Ok(v) && v@ == flows,
                Err(f) => r matches Err(e) && e@ == f,
            },
{
    let little = machine_is_little_endian();
    let r = parse_dump_detailed_in(datagrams, expected_seq, expected_port_id, MAX_DUMP_BYTES, little);
    let out = match r {
        Ok(p) => Ok(p.flows),
        Err(e) => Err(e),
    };
    assert(match spec_dump(datagrams@, expected_seq, expected_port_id, MAX_DUMP_BYTES as int, little) {
        Ok((flows, _)) => out matches Ok(v) && v@ == flows,
        Err(f) => out matches Err(e) && e@ == f,
    });
    out
}

/// The entries of a dump from the kernel.
pub fn parse_dump(datagrams: &Vec<Datagram>, expected_seq: u32) -> (r: Result<Vec<FlowSample>, DumpError>)
    ensures
        exists|little: bool|
            match #[trigger] spec_dump(datagrams@, expected_seq, 0, MAX_DUMP_BYTES as int, little) {
                Ok((flows, _)) => r matches Ok(v) && v@ == flows,
                Err(f) => r matches Err(e) && e@ == f,
            },
{
    parse_dump_for_port(datagrams, expected_seq, 0)
}

/// The entries of a dump from the kernel, within `max_bytes`.
pub fn parse_dump_with_limit(datagrams: &Vec<Datagram>, expected_seq: u32, max_bytes: usize) -> (r:
    Result<Vec<FlowSample>, DumpError>)
    ensures
        exists|little: bool|
            match #[trigger] spec_dump(datagrams@, expected_seq, 0, max_bytes as int, little) {
                Ok((flows, _)) => r matches Ok(v) && v@ == flows,
                Err(f) => r matches Err(e) && e@ == f,
            },
{
    let little = machine_is_little_endian();
    let r = parse_dump_detailed_in(datagrams, expected_seq, 0, max_bytes, little);
    let out = match r {
        Ok(p) => Ok(p.flows),
        Err(e) => Err(e),
    };
    assert(match spec_dump(datagrams@, expected_seq, 0, max_bytes as int, little) {
        Ok((flows, _)) => out matches Ok(v) && v@ == flows,
        Err(f) => out matches Err(e) && e@ == f,
    });
    out
}

/// A dump's entries, labelled with the netlink source.
pub fn snapshot_from_datagrams(datagrams: &Vec<Datagram>, expected_seq: u32) -> (r: Result<
    NetlinkSnapshot,
    DumpError,
>)
    ensures
        exists|little: bool|
            match #[trigger] spec_dump(datagrams@, expected_seq, 0, MAX_DUMP_BYTES as int, little) {
                Ok((flows, malformed)) => r matches Ok(s) && s.flows@ == flows && s.malformed_entries
                    == malformed && s.source_path == crate::collectors::conntrack::NETLINK_SOURCE_PATH
                    && s.counter_source == crate::collectors::conntrack::NETLINK_COUNTER_SOURCE,
                Err(f) => r matches Err(e) && e@ == f,
            },
{
    let little = machine_is_little_endian();
    let r = parse_dump_detailed_in(datagrams, expected_seq, 0, MAX_DUMP_BYTES, little);
    let out = match r {
        Ok(p) => Ok(
            NetlinkSnapshot {
                flows: p.flows,
                source_path: crate::collectors::conntrack::NETLINK_SOURCE_PATH,
                counter_source: crate::collectors::conntrack::NETLINK_COUNTER_SOURCE,
                malformed_entries: p.malformed_entries,
            },
        ),
        Err(e) => Err(e),
    };
    assert(match spec_dump(datagrams@, expected_seq, 0, MAX_DUMP_BYTES as int, little) {
        Ok((flows, malformed)) => out matches Ok(s) && s.flows@ == flows && s.malformed_entries
            == malformed && s.source_path == crate::collectors::conntrack::NETLINK_SOURCE_PATH
            && s.counter_source == crate::collectors::conntrack::NETLINK_COUNTER_SOURCE,
        Err(f) => out matches Err(e) && e@ == f,
    });
    out
}

} // verus!

verus! {

fn put_ne32(r: &mut [u8; 20], i: usize, v: u32, little: bool)
    requires
        i + 4 <= 20,
    ensures
        ne32(final(r)@, i as int, little) == v,
        forall|j: int| 0 <= j < 20 && !(i <= j < i + 4) ==> final(r)@[j] == old(r)@[j],
{
    let b0 = (v % 256) as u8;
    let b1 = ((v / 256) % 256) as u8;
    let b2 = ((v / 65536) % 256) as u8;
    let b3 = (v / 16777216) as u8;
    proof {
        assert(v == b0 + 256 * b1 + 65536 * b2 + 16777216 * b3) by (nonlinear_arith)
            requires
                b0 == v % 256,
                b1 == (v / 256) % 256,
                b2 == (v / 65536) % 256,
                b3 == v / 16777216,
                v < 0x1_0000_0000,
        ;
    }
    if little {
        r.set(i, b0);
        r.set(i + 1, b1);
        r.set(i + 2, b2);
        r.set(i + 3, b3);
    } else {
        r.set(i, b3);
        r.set(i + 1, b2);
        r.set(i + 2, b1);
        r.set(i + 3, b0);
    }
}

fn put_ne16(r: &mut [u8; 20], i: usize, v: u16, little: bool)
    requires
        i + 2 <= 20,
    ensures
        ne16(final(r)@, i as int, little) == v,
        forall|j: int| 0 <= j < 20 && !(i <= j < i + 2) ==> final(r)@[j] == old(r)@[j],
{
    let b0 = (v % 256) as u8;
    let b1 = (v / 256) as u8;
    if little {
        r.set(i, b0);
        r.set(i + 1, b1);
    } else {
        r.set(i, b1);
        r.set(i + 1, b0);
    }
}

/// The request for a conntrack dump: a 20-byte netlink message of type
/// conntrack-get from the netfilter subsystem, flagged request, dump and
/// acknowledge, with the sequence and port, and an unspecified family.
pub open spec fn is_dump_request(r: Seq<u8>, seq: u32, port: u32, little: bool) -> bool {
    &&& r.len() == 20
    &&& ne32(r, 0, little) == 20
    &&& ne16(r, 4, little) == 257
    &&& ne16(r, 6, little) == 0x301
    &&& ne32(r, 8, little) == seq
    &&& ne32(r, 12, little) == port
    &&& r[16] == 0 && r[17] == 0 && r[18] == 0 && r[19] == 0
}

pub fn build_dump_request_in(seq: u32, port_id: u32, little: bool) -> (r: [u8; 20])
    ensures
        is_dump_request(r@, seq, port_id, little),
{
    let mut request = [0u8; 20];
    put_ne32(&mut request, 0, 20, little);
    put_ne16(&mut request, 4, 257, little);
    put_ne16(&mut request, 6, 0x301, little);
    put_ne32(&mut request, 8, seq, little);
    put_ne32(&mut request, 12, port_id, little);
    request
}

/// The dump request in the machine's byte order.
pub fn build_dump_request(seq: u32, port_id: u32) -> (r: [u8; 20])
    ensures
        exists|little: bool| #[trigger] is_dump_request(r@, seq, port_id, little),
{
    let little = machine_is_little_endian();
    let r = build_dump_request_in(seq, port_id, little);
    assert(is_dump_request(r@, seq, port_id, little));
    r
}

} // verus!
