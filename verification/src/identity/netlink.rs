use vstd::prelude::*;
use crate::collectors::conntrack::netlink::{ne16, ne32, read_ne16, read_ne32, signed32};
use crate::collectors::conntrack::IpAddress;
use crate::collectors::conntrack::address::ipv6_text;
use crate::identity::filter::{ifname_is_excluded_identity_source, spec_excluded_identity_source};
use crate::identity::{MacAddress, NeighborEntry};
use crate::identity::filter::{spec_allows, FilterView, IdentityFilter};
use crate::text::str_eq;

verus! {

pub const NLMSG_HEADER_LEN: usize = 16;

pub const NDMSG_LEN: usize = 12;

pub const RTM_NEWNEIGH: u16 = 28;

pub const NEIGH_NLMSG_ERROR: u16 = 2;

pub const NEIGH_NLMSG_DONE: u16 = 3;

pub const NDA_DST: u16 = 1;

pub const NDA_LLADDR: u16 = 2;

pub const NUD_NONE: u16 = 0;

pub const NUD_FAILED: u16 = 0x20;

pub const NUD_NOARP: u16 = 0x40;

/// The address family of IPv6 neighbours.
pub const AF_INET6_FAMILY: u8 = 10;

/// Why a neighbour dump could not be read.
#[derive(Clone, Copy, Debug, Eq, PartialEq, Structural)]
pub enum NetlinkParseError {
    TruncatedHeader,
    InvalidMessageLength(u32),
    DumpInterrupted,
    Kernel(i32),
}

/// One IPv6 neighbour as the kernel reports it: the interface index, the
/// address and the link-layer address.
#[derive(Clone, Copy, Debug, Eq, PartialEq)]
pub struct RawNeighbor {
    pub ifindex: i32,
    pub ip: [u8; 16],
    pub mac: [u8; 6],
}

pub struct RawNeighborView {
    pub ifindex: int,
    pub ip: Seq<u8>,
    pub mac: Seq<u8>,
}

impl View for RawNeighbor {
    type V = RawNeighborView;

    open spec fn view(&self) -> RawNeighborView {
        RawNeighborView { ifindex: self.ifindex as int, ip: self.ip@, mac: self.mac@ }
    }
}

pub open spec fn raw_views(v: Seq<RawNeighbor>) -> Seq<RawNeighborView> {
    v.map_values(|r: RawNeighbor| r@)
}

/// The neighbours a dump lists, in order, and whether it ended.
pub struct RawNeighborDump {
    pub neighbors: Vec<RawNeighbor>,
    pub done: bool,
}

/// `v` rounded up to a multiple of four.
pub open spec fn pad4(v: int) -> int {
    v + (4 - v % 4) % 4
}

/// The padding that rounds `v` up to a multiple of four.
fn padding(v: usize) -> (r: usize)
    ensures
        r as int == pad4(v as int) - v,
        r <= 3,
{
    (4 - v % 4) % 4
}

/// The destination and link-layer address after the attributes from `off`
/// on, starting from `dst` and `ll`; `None` where an attribute is malformed.
/// A later attribute of a kind replaces an earlier one.
pub open spec fn spec_attrs(
    p: Seq<u8>,
    off: int,
    little: bool,
    dst: Option<Seq<u8>>,
    ll: Option<Seq<u8>>,
) -> Option<(Option<Seq<u8>>, Option<Seq<u8>>)>
    decreases p.len() - off,
{
    if off < 0 || off >= p.len() {
        Some((dst, ll))
    } else if p.len() - off < 4 {
        None
    } else {
        let length = ne16(p, off, little);
        let kind = ne16(p, off + 2, little) % 16384;
        if length < 4 || length > p.len() - off {
            None
        } else {
            let value = p.subrange(off + 4, off + length);
            let dst2 = if kind == NDA_DST && value.len() >= 16 {
                Some(value.take(16))
            } else {
                dst
            };
            let ll2 = if kind == NDA_LLADDR && value.len() >= 6 {
                Some(value.take(6))
            } else {
                ll
            };
            let next = off + pad4(length);
            if next > p.len() {
                None
            } else {
                spec_attrs(p, next, little, dst2, ll2)
            }
        }
    }
}

/// The neighbour a message's payload describes: an IPv6 entry on a real
/// interface, in a usable state, with both a destination and a link-layer
/// address; `None` otherwise.
pub open spec fn spec_neighbor(p: Seq<u8>, little: bool) -> Option<RawNeighborView> {
    if p.len() < NDMSG_LEN || p[0] != AF_INET6_FAMILY {
        None
    } else {
        let ifindex = signed32(ne32(p, 4, little));
        let state = ne16(p, 8, little);
        if ifindex <= 0 || state == NUD_NONE || state == NUD_FAILED || state == NUD_NOARP {
            None
        } else {
            match spec_attrs(p, NDMSG_LEN as int, little, None, None) {
                Some((Some(d), Some(l))) => Some(RawNeighborView { ifindex, ip: d, mac: l }),
                _ => None,
            }
        }
    }
}

/// Where the next message starts after one of `len` bytes at `off`: past
/// its padding, or at the end where only the padding is missing.
pub open spec fn spec_advance(b: Seq<u8>, off: int, len: int) -> Result<int, NetlinkParseError> {
    if pad4(len) > b.len() - off {
        if len == b.len() - off {
            Ok(b.len() as int)
        } else {
            Err(NetlinkParseError::InvalidMessageLength(len as u32))
        }
    } else {
        Ok(off + pad4(len))
    }
}

/// The neighbours of a dump from `off` on, after `acc`: messages of another
/// sequence are passed over, an interrupted dump, a kernel error or a
/// malformed length stop it, and `NLMSG_DONE` ends it.
pub open spec fn spec_walk(
    b: Seq<u8>,
    off: int,
    expected: Option<u32>,
    little: bool,
    acc: Seq<RawNeighborView>,
) -> Result<(Seq<RawNeighborView>, bool), NetlinkParseError>
    decreases b.len() - off,
{
    if off < 0 || off >= b.len() {
        Ok((acc, false))
    } else if b.len() - off < NLMSG_HEADER_LEN {
        Err(NetlinkParseError::TruncatedHeader)
    } else {
        let len = ne32(b, off, little);
        if len < NLMSG_HEADER_LEN || len > b.len() - off {
            Err(NetlinkParseError::InvalidMessageLength(len as u32))
        } else {
            let kind = ne16(b, off + 4, little);
            let flags = ne16(b, off + 6, little);
            let seq = ne32(b, off + 8, little);
            let skip = expected matches Some(e) && seq != e;
            if !skip && (flags / 16) % 2 == 1 {
                Err(NetlinkParseError::DumpInterrupted)
            } else if !skip && kind == NEIGH_NLMSG_ERROR && len < 36 {
                Err(NetlinkParseError::InvalidMessageLength(len as u32))
            } else if !skip && kind == NEIGH_NLMSG_ERROR && signed32(ne32(b, off + 16, little)) != 0 {
                Err(NetlinkParseError::Kernel(signed32(ne32(b, off + 16, little)) as i32))
            } else if !skip && kind == NEIGH_NLMSG_DONE && 1 <= len - 16 < 4 {
                Err(NetlinkParseError::InvalidMessageLength(len as u32))
            } else if !skip && kind == NEIGH_NLMSG_DONE && len - 16 >= 4 && signed32(
                ne32(b, off + 16, little),
            ) != 0 {
                Err(NetlinkParseError::Kernel(signed32(ne32(b, off + 16, little)) as i32))
            } else if !skip && kind == NEIGH_NLMSG_DONE {
                Ok((acc, true))
            } else {
                let acc2 = if !skip && kind == RTM_NEWNEIGH {
                    match spec_neighbor(b.subrange(off + 16, off + len), little) {
                        Some(n) => acc.push(n),
                        None => acc,
                    }
                } else {
                    acc
                };
                match spec_advance(b, off, len) {
                    Ok(next) => if next > off {
                        spec_walk(b, next, expected, little, acc2)
                    } else {
                        Ok((acc2, false))
                    },
                    Err(e) => Err(e),
                }
            }
        }
    }
}

/// Four bytes as a signed integer.
fn to_signed(u: u32) -> (r: i32)
    ensures
        r as int == signed32(u as int),
{
    if u >= 0x8000_0000 {
        (u as i64 - 0x1_0000_0000i64) as i32
    } else {
        u as i32
    }
}

fn copy_bytes(p: &[u8], from: usize) -> (r: [u8; 16])
    requires
        from + 16 <= p.len(),
    ensures
        r@ == p@.subrange(from as int, from + 16),
{
    let mut o: [u8; 16] = [0u8; 16];
    let mut i: usize = 0;
    while i < 16
        invariant
            i <= 16,
            from + 16 <= p.len(),
            forall|k: int| 0 <= k < i ==> o@[k] == p@[from + k],
        decreases 16 - i,
    {
        o[i] = p[from + i];
        i += 1;
    }
    assert(o@ =~= p@.subrange(from as int, from + 16));
    o
}

fn copy_mac(p: &[u8], from: usize) -> (r: [u8; 6])
    requires
        from + 6 <= p.len(),
    ensures
        r@ == p@.subrange(from as int, from + 6),
{
    let mut o: [u8; 6] = [0u8; 6];
    let mut i: usize = 0;
    while i < 6
        invariant
            i <= 6,
            from + 6 <= p.len(),
            forall|k: int| 0 <= k < i ==> o@[k] == p@[from + k],
        decreases 6 - i,
    {
        o[i] = p[from + i];
        i += 1;
    }
    assert(o@ =~= p@.subrange(from as int, from + 6));
    o
}

/// Reads the neighbour a message's payload describes.
pub fn parse_neighbor(p: &[u8], little: bool) -> (r: Option<RawNeighbor>)
    ensures
        match r {
            Some(n) => spec_neighbor(p@, little) == Some(n@),
            None => spec_neighbor(p@, little) is None,
        },
{
    if p.len() < NDMSG_LEN || p[0] != AF_INET6_FAMILY {
        return None;
    }
    let ifindex = to_signed(read_ne32(p, 4, little));
    let state = read_ne16(p, 8, little);
    if ifindex <= 0 || state == NUD_NONE || state == NUD_FAILED || state == NUD_NOARP {
        return None;
    }
    let mut dst: Option<usize> = None;
    let mut ll: Option<usize> = None;
    let mut off: usize = NDMSG_LEN;
    while off < p.len()
        invariant
            NDMSG_LEN <= off,
            p@.len() >= NDMSG_LEN,
            dst matches Some(d) ==> d + 16 <= p@.len(),
            ll matches Some(l) ==> l + 6 <= p@.len(),
            spec_attrs(p@, NDMSG_LEN as int, little, None, None) == spec_attrs(
                p@,
                off as int,
                little,
                match dst {
                    Some(d) => Some(p@.subrange(d as int, d + 16)),
                    None => None,
                },
                match ll {
                    Some(l) => Some(p@.subrange(l as int, l + 6)),
                    None => None,
                },
            ),
        decreases p.len() - off,
    {
        if p.len() - off < 4 {
            return None;
        }
        let length = read_ne16(p, off, little) as usize;
        let kind = read_ne16(p, off + 2, little) % 16384;
        if length < 4 || length > p.len() - off {
            return None;
        }
        let ghost value = p@.subrange(off + 4, off + length);
        if kind == NDA_DST && length - 4 >= 16 {
            assert(value.take(16) =~= p@.subrange(off + 4, off + 4 + 16));
            dst = Some(off + 4);
        }
        if kind == NDA_LLADDR && length - 4 >= 6 {
            assert(value.take(6) =~= p@.subrange(off + 4, off + 4 + 6));
            ll = Some(off + 4);
        }
        let extra = padding(length);
        if extra > p.len() - off - length {
            return None;
        }
        off = off + length + extra;
    }
    match (dst, ll) {
        (Some(d), Some(l)) => Some(
            RawNeighbor { ifindex, ip: copy_bytes(p, d), mac: copy_mac(p, l) },
        ),
        _ => None,
    }
}

/// Reads the IPv6 neighbours of a dump, in the given byte order; with
/// `expected` set, messages of any other sequence are passed over.
pub fn parse_neighbor_dump_in(bytes: &[u8], expected: Option<u32>, little: bool) -> (r: Result<
    RawNeighborDump,
    NetlinkParseError,
>)
    ensures
        match spec_walk(bytes@, 0, expected, little, Seq::empty()) {
            Ok((ns, done)) => r matches Ok(d) && raw_views(d.neighbors@) == ns && d.done == done,
            Err(e) => r == Err::<RawNeighborDump, NetlinkParseError>(e),
        },
{
    let mut out: Vec<RawNeighbor> = Vec::new();
    let mut off: usize = 0;
    assert(raw_views(out@) =~= Seq::<RawNeighborView>::empty());
    while off < bytes.len()
        invariant
            spec_walk(bytes@, 0, expected, little, Seq::empty()) == spec_walk(
                bytes@,
                off as int,
                expected,
                little,
                raw_views(out@),
            ),
        decreases bytes.len() - off,
    {
        if bytes.len() - off < NLMSG_HEADER_LEN {
            return Err(NetlinkParseError::TruncatedHeader);
        }
        let len32 = read_ne32(bytes, off, little);
        let len = len32 as usize;
        if len < NLMSG_HEADER_LEN || len > bytes.len() - off {
            return Err(NetlinkParseError::InvalidMessageLength(len32));
        }
        let kind = read_ne16(bytes, off + 4, little);
        let flags = read_ne16(bytes, off + 6, little);
        let seq = read_ne32(bytes, off + 8, little);
        let skip = match expected {
            Some(e) => seq != e,
            None => false,
        };
        if !skip && (flags / 16) % 2 == 1 {
            return Err(NetlinkParseError::DumpInterrupted);
        }
        if !skip && kind == NEIGH_NLMSG_ERROR {
            if len < 36 {
                return Err(NetlinkParseError::InvalidMessageLength(len32));
            }
            let error = to_signed(read_ne32(bytes, off + 16, little));
            if error != 0 {
                return Err(NetlinkParseError::Kernel(error));
            }
        } else if !skip && kind == NEIGH_NLMSG_DONE {
            let payload_len = len - NLMSG_HEADER_LEN;
            if 1 <= payload_len && payload_len < 4 {
                return Err(NetlinkParseError::InvalidMessageLength(len32));
            }
            if payload_len >= 4 {
                let error = to_signed(read_ne32(bytes, off + 16, little));
                if error != 0 {
                    return Err(NetlinkParseError::Kernel(error));
                }
            }
            return Ok(RawNeighborDump { neighbors: out, done: true });
        }
        if !skip && kind == RTM_NEWNEIGH {
            let payload = crate::collectors::conntrack::netlink::slot_vec(bytes, (off + 16, off + len));
            match parse_neighbor(payload.as_slice(), little) {
                Some(n) => {
                    let ghost before = raw_views(out@);
                    out.push(n);
                    assert(raw_views(out@) =~= before.push(n@));
                },
                None => {},
            }
        }
        let extra = padding(len);
        if extra > bytes.len() - off - len {
            if len == bytes.len() - off {
                off = bytes.len();
            } else {
                return Err(NetlinkParseError::InvalidMessageLength(len32));
            }
        } else {
            off = off + len + extra;
        }
    }
    Ok(RawNeighborDump { neighbors: out, done: false })
}

/// A neighbour as a table entry, with what the caller resolved for its
/// interface index: the interface's name and the zone it belongs to.
pub struct NeighborView {
    pub ip: Seq<u8>,
    pub mac: Seq<u8>,
    pub interface: Seq<char>,
    pub zone: Seq<char>,
}

/// The entries the first `n` neighbours give, with `names[i]` the interface
/// and zone of neighbour `i`: neighbours on an interface that is no identity
/// source are dropped, as are repeats of an address, and the list stops
/// growing at `max_entries`.
pub open spec fn spec_select(
    raw: Seq<RawNeighborView>,
    names: Seq<(Seq<char>, Seq<char>)>,
    max_entries: int,
    n: int,
) -> Seq<NeighborView>
    decreases n,
{
    if n <= 0 {
        Seq::empty()
    } else {
        let prev = spec_select(raw, names, max_entries, n - 1);
        let r = raw[n - 1];
        if prev.len() < max_entries && !spec_excluded_identity_source(names[n - 1].0) && !(exists|
            j: int,
        | 0 <= j < prev.len() && #[trigger] prev[j].ip == r.ip) {
            prev.push(
                NeighborView { ip: r.ip, mac: r.mac, interface: names[n - 1].0, zone: names[n - 1].1 },
            )
        } else {
            prev
        }
    }
}

pub open spec fn name_views(names: Seq<(String, String)>) -> Seq<(Seq<char>, Seq<char>)> {
    names.map_values(|p: (String, String)| (p.0@, p.1@))
}

/// The entry matches its view: the address written as IPv6 text.
pub open spec fn entry_is(e: NeighborEntry, v: NeighborView) -> bool {
    &&& e.ip@ == ipv6_text(v.ip)
    &&& e.mac@ == v.mac
    &&& e.interface@ == v.interface
    &&& e.zone@ == v.zone
}

fn seen_ip(seen: &Vec<[u8; 16]>, ip: &[u8; 16]) -> (r: bool)
    ensures
        r == exists|j: int| 0 <= j < seen@.len() && #[trigger] seen@[j]@ == ip@,
{
    let mut i: usize = 0;
    while i < seen.len()
        invariant
            i <= seen@.len(),
            forall|j: int| 0 <= j < i ==> #[trigger] seen@[j]@ != ip@,
        decreases seen.len() - i,
    {
        let a = &seen[i];
        let mut same = true;
        let mut k: usize = 0;
        while k < 16
            invariant
                k <= 16,
                same == (forall|q: int| 0 <= q < k ==> a@[q] == ip@[q]),
            decreases 16 - k,
        {
            if a[k] != ip[k] {
                same = false;
            }
            k += 1;
        }
        if same {
            assert(a@ =~= ip@);
            return true;
        }
        assert(a@ != ip@) by {
            let q = choose|q: int| 0 <= q < 16 && !(a@[q] == ip@[q]);
        }
        i += 1;
    }
    false
}

/// The table entries of a dump's neighbours, with `names[i]` the interface
/// name and zone the caller resolved for neighbour `i`.
pub fn select_neighbors(raw: &Vec<RawNeighbor>, names: &Vec<(String, String)>, max_entries: usize) -> (r:
    Vec<NeighborEntry>)
    requires
        names@.len() == raw@.len(),
    ensures
        r@.len() == spec_select(
            raw_views(raw@),
            name_views(names@),
            max_entries as int,
            raw@.len() as int,
        ).len(),
        forall|i: int|
            0 <= i < r@.len() ==> #[trigger] entry_is(
                r@[i],
                spec_select(
                    raw_views(raw@),
                    name_views(names@),
                    max_entries as int,
                    raw@.len() as int,
                )[i],
            ),
{
    let ghost rv = raw_views(raw@);
    let ghost nv = name_views(names@);
    let mut out: Vec<NeighborEntry> = Vec::new();
    let mut seen: Vec<[u8; 16]> = Vec::new();
    let mut i: usize = 0;
    while i < raw.len()
        invariant
            i <= raw@.len(),
            names@.len() == raw@.len(),
            rv == raw_views(raw@),
            nv == name_views(names@),
            out@.len() == seen@.len(),
            out@.len() == spec_select(rv, nv, max_entries as int, i as int).len(),
            forall|j: int|
                0 <= j < out@.len() ==> #[trigger] entry_is(
                    out@[j],
                    spec_select(rv, nv, max_entries as int, i as int)[j],
                ),
            forall|j: int|
                0 <= j < seen@.len() ==> #[trigger] seen@[j]@ == spec_select(rv, nv, max_entries as int, i as int)[j].ip,
        decreases raw.len() - i,
    {
        let ghost prev = spec_select(rv, nv, max_entries as int, i as int);
        let n = &raw[i];
        let interface = &names[i].0;
        assert(rv[i as int] == n@);
        assert(nv[i as int] == (names@[i as int].0@, names@[i as int].1@));
        if out.len() < max_entries && !ifname_is_excluded_identity_source(interface.as_str()) {
            let repeated = seen_ip(&seen, &n.ip);
            proof {
                assert((exists|j: int| 0 <= j < seen@.len() && #[trigger] seen@[j]@ == n.ip@) == (
                exists|j: int| 0 <= j < prev.len() && #[trigger] prev[j].ip == n@.ip)) by {
                    if exists|j: int| 0 <= j < seen@.len() && #[trigger] seen@[j]@ == n.ip@ {
                        let j = choose|j: int| 0 <= j < seen@.len() && #[trigger] seen@[j]@ == n.ip@;
                        assert(prev[j].ip == n@.ip);
                    }
                    if exists|j: int| 0 <= j < prev.len() && #[trigger] prev[j].ip == n@.ip {
                        let j = choose|j: int| 0 <= j < prev.len() && #[trigger] prev[j].ip == n@.ip;
                        assert(seen@[j]@ == n.ip@);
                    }
                }
            }
            if !repeated {
                let entry = NeighborEntry {
                    ip: IpAddress::V6(n.ip).text(),
                    mac: MacAddress::from_octets(n.mac),
                    interface: interface.clone(),
                    zone: names[i].1.clone(),
                };
                out.push(entry);
                seen.push(n.ip);
            }
        }
        i += 1;
    }
    out
}

} // verus!

verus! {

/// Reads the IPv6 neighbours of a dump in the machine's byte order.
pub fn parse_neighbor_dump(bytes: &[u8], expected: Option<u32>) -> (r: Result<
    RawNeighborDump,
    NetlinkParseError,
>)
    ensures
        exists|little: bool|
            match #[trigger] spec_walk(bytes@, 0, expected, little, Seq::empty()) {
                Ok((ns, done)) => r matches Ok(d) && raw_views(d.neighbors@) == ns && d.done == done,
                Err(e) => r == Err::<RawNeighborDump, NetlinkParseError>(e),
            },
{
    let little = crate::collectors::conntrack::netlink::machine_is_little_endian();
    let r = parse_neighbor_dump_in(bytes, expected, little);
    assert(match spec_walk(bytes@, 0, expected, little, Seq::empty()) {
        Ok((ns, done)) => r matches Ok(d) && raw_views(d.neighbors@) == ns && d.done == done,
        Err(e) => r == Err::<RawNeighborDump, NetlinkParseError>(e),
    });
    r
}

} // verus!

verus! {

/// The most bytes a neighbour dump may take, over all its datagrams.
pub const MAX_NEIGHBOR_DUMP_BYTES: usize = 4 * 1024 * 1024;

/// Why a neighbour table read stops with an error of its own.
#[derive(Clone, Copy, Debug, Eq, PartialEq, Structural)]
pub enum NeighborReadError {
    /// The dump's datagrams together exceed the byte bound.
    ExceedsBound,
}

impl NeighborReadError {
    /// The message that describes the error.
    pub fn describe(&self) -> (r: &'static str)
        ensures
            r@ == "rtnetlink dump exceeds bound"@,
    {
        "rtnetlink dump exceeds bound"
    }
}

/// A table entry by its texts.
pub struct EntryView {
    pub ip: Seq<char>,
    pub mac: Seq<u8>,
    pub interface: Seq<char>,
    pub zone: Seq<char>,
}

pub open spec fn entry_view(e: NeighborEntry) -> EntryView {
    EntryView { ip: e.ip@, mac: e.mac@, interface: e.interface@, zone: e.zone@ }
}

pub open spec fn entry_views(v: Seq<NeighborEntry>) -> Seq<EntryView> {
    v.map_values(|e: NeighborEntry| entry_view(e))
}

/// The entries after a datagram's `chunk`, in order: each is taken while
/// there is room, where the filter lets it through and its address is not
/// taken yet.
pub open spec fn absorb_entries(acc: Seq<EntryView>, chunk: Seq<EntryView>, f: FilterView, max: nat) -> Seq<
    EntryView,
>
    decreases chunk.len(),
{
    if chunk.len() == 0 {
        acc
    } else {
        let prev = absorb_entries(acc, chunk.drop_last(), f, max);
        let e = chunk.last();
        if prev.len() < max && spec_allows(f, e.interface, e.ip) && !(exists|j: int|
            0 <= j < prev.len() && #[trigger] prev[j].ip == e.ip) {
            prev.push(e)
        } else {
            prev
        }
    }
}

/// A neighbour table read in progress over the datagrams of one dump.
pub struct NeighborCollectorView {
    pub max_entries: nat,
    pub total_bytes: nat,
    pub entries: Seq<EntryView>,
}

/// Gathers the neighbour entries of a dump's datagrams: it bounds the bytes
/// of the whole dump, lets the identity filter decide, keeps one entry per
/// address over all datagrams, and stops growing at its limit.
pub struct NeighborCollector {
    max_entries: usize,
    total_bytes: usize,
    entries: Vec<NeighborEntry>,
}

impl View for NeighborCollector {
    type V = NeighborCollectorView;

    closed spec fn view(&self) -> NeighborCollectorView {
        NeighborCollectorView {
            max_entries: self.max_entries as nat,
            total_bytes: self.total_bytes as nat,
            entries: entry_views(self.entries@),
        }
    }
}

impl NeighborCollector {
    pub fn new(max_entries: usize) -> (r: Self)
        ensures
            r@.max_entries == max_entries,
            r@.total_bytes == 0,
            r@.entries.len() == 0,
    {
        let r = NeighborCollector { max_entries, total_bytes: 0, entries: Vec::new() };
        assert(r@.entries =~= Seq::<EntryView>::empty());
        r
    }

    /// Counts a received datagram of `len` bytes; the dump fails once its
    /// datagrams together exceed the bound.
    pub fn count_datagram(&mut self, len: usize) -> (r: Result<(), NeighborReadError>)
        ensures
            ({
                let total = if old(self)@.total_bytes + len > usize::MAX {
                    usize::MAX as nat
                } else {
                    (old(self)@.total_bytes + len) as nat
                };
                &&& final(self)@ == (NeighborCollectorView { total_bytes: total, ..old(self)@ })
                &&& (r is Err <==> total > MAX_NEIGHBOR_DUMP_BYTES)
            }),
    {
        self.total_bytes = self.total_bytes.saturating_add(len);
        if self.total_bytes > MAX_NEIGHBOR_DUMP_BYTES {
            return Err(NeighborReadError::ExceedsBound);
        }
        Ok(())
    }

    /// How many more entries a datagram may contribute.
    pub fn remaining(&self) -> (r: usize)
        ensures
            r == (if self@.entries.len() < self@.max_entries {
                self@.max_entries - self@.entries.len()
            } else {
                0
            }),
    {
        if self.entries.len() < self.max_entries {
            self.max_entries - self.entries.len()
        } else {
            0
        }
    }

    fn has_ip(&self, ip: &str) -> (r: bool)
        ensures
            r == exists|j: int| 0 <= j < self@.entries.len() && #[trigger] self@.entries[j].ip == ip@,
    {
        let mut i: usize = 0;
        while i < self.entries.len()
            invariant
                i <= self.entries@.len(),
                forall|j: int| 0 <= j < i ==> entry_views(self.entries@)[j].ip != ip@,
            decreases self.entries@.len() - i,
        {
            if str_eq(self.entries[i].ip.as_str(), ip) {
                assert(self@.entries[i as int].ip == ip@);
                return true;
            }
            i += 1;
        }
        false
    }

    /// Takes a datagram's entries; returns whether the dump is done, which
    /// ends the read.
    pub fn absorb(&mut self, chunk: Vec<NeighborEntry>, done: bool, filter: &IdentityFilter) -> (r: bool)
        ensures
            final(self)@ == (NeighborCollectorView {
                entries: absorb_entries(old(self)@.entries, entry_views(chunk@), filter@, old(self)@.max_entries),
                ..old(self)@
            }),
            r == done,
    {
        let ghost cv = entry_views(chunk@);
        let ghost start = self@;
        let mut i: usize = 0;
        assert(cv.take(0) =~= Seq::<EntryView>::empty());
        while i < chunk.len()
            invariant
                i <= chunk@.len(),
                cv == entry_views(chunk@),
                self@ == (NeighborCollectorView {
                    entries: absorb_entries(start.entries, cv.take(i as int), filter@, start.max_entries),
                    ..start
                }),
            decreases chunk@.len() - i,
        {
            let entry = &chunk[i];
            let ghost prev = self@.entries;
            assert(cv.take(i + 1).drop_last() =~= cv.take(i as int));
            assert(cv.take(i + 1).last() == entry_view(*entry));
            assert(cv[i as int] == entry_view(*entry));
            if self.entries.len() < self.max_entries && filter.allows(entry.interface.as_str(), entry.ip.as_str())
                && !self.has_ip(entry.ip.as_str()) {
                let ghost before = self.entries@;
                let taken = NeighborEntry {
                    ip: entry.ip.clone(),
                    mac: entry.mac,
                    interface: entry.interface.clone(),
                    zone: entry.zone.clone(),
                };
                self.entries.push(taken);
                assert(entry_views(self.entries@) =~= entry_views(before).push(entry_view(*entry)));
            }
            assert(self@.entries =~= absorb_entries(start.entries, cv.take(i + 1), filter@, start.max_entries));
            i += 1;
        }
        assert(cv.take(i as int) =~= cv);
        done
    }

    /// The entries gathered, in order.
    pub fn into_entries(self) -> (r: Vec<NeighborEntry>)
        ensures
            entry_views(r@) == self@.entries,
    {
        self.entries
    }
}

} // verus!
