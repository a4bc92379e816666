use vstd::prelude::*;
use vstd::utf8::encode_utf8;
use crate::text::{str_eq, string_from_chars};
use crate::collectors::conntrack::IpAddress;
use crate::collectors::conntrack::address::{
    address_view, ipv4_text, ipv6_text, parse_ip, parse_ip_bytes, AddressView,
};

pub mod arp;
pub mod filter;
pub mod netlink;
pub mod hostname;

verus! {

pub const MAX_IPS_PER_IDENTITY: usize = 4;

/// The value of an ASCII hexadecimal digit.
pub open spec fn hex_value(b: u8) -> Option<u8> {
    if 48 <= b <= 57 {
        Some((b - 48) as u8)
    } else if 97 <= b <= 102 {
        Some((b - 87) as u8)
    } else if 65 <= b <= 70 {
        Some((b - 55) as u8)
    } else {
        None
    }
}

/// The octet written by the two hexadecimal digits at `3 * k` in a MAC text.
pub open spec fn mac_text_octet(bytes: Seq<u8>, k: int) -> Option<u8> {
    match (hex_value(bytes[3 * k]), hex_value(bytes[3 * k + 1])) {
        (Some(high), Some(low)) => Some((high * 16 + low) as u8),
        _ => None,
    }
}

/// Six hexadecimal pairs separated by colons, seventeen bytes in all.
pub open spec fn mac_text_well_formed(bytes: Seq<u8>) -> bool {
    &&& bytes.len() == 17
    &&& forall|k: int| 0 <= k < 5 ==> #[trigger] bytes[3 * k + 2] == 58u8
    &&& forall|k: int| 0 <= k < 6 ==> (#[trigger] mac_text_octet(bytes, k)) is Some
}

/// The octets that a well-formed MAC text writes.
pub open spec fn mac_text_octets(bytes: Seq<u8>) -> Seq<u8> {
    Seq::new(6, |k: int| mac_text_octet(bytes, k)->0)
}

/// A unicast address that is neither all zeros nor all ones.
pub open spec fn is_client_mac(o: Seq<u8>) -> bool {
    &&& o.len() == 6
    &&& !(forall|k: int| 0 <= k < 6 ==> o[k] == 0u8)
    &&& !(forall|k: int| 0 <= k < 6 ==> o[k] == 255u8)
    &&& o[0] % 2 == 0
}

/// The address that a MAC text names, when it is a client address.
pub open spec fn spec_parse_mac(bytes: Seq<u8>) -> Option<Seq<u8>> {
    if mac_text_well_formed(bytes) && is_client_mac(mac_text_octets(bytes)) {
        Some(mac_text_octets(bytes))
    } else {
        None
    }
}

/// The lowercase hexadecimal digit of a nibble.
pub open spec fn hex_char(n: u8) -> char {
    if n < 10 {
        ((n + 48) as u8) as char
    } else {
        ((n + 87) as u8) as char
    }
}

/// The text of an address: six lowercase hexadecimal pairs joined by colons.
pub open spec fn mac_text(o: Seq<u8>) -> Seq<char> {
    Seq::new(
        17,
        |i: int|
            if i % 3 == 2 {
                ':'
            } else if i % 3 == 0 {
                hex_char(o[i / 3] / 16)
            } else {
                hex_char(o[i / 3] % 16)
            },
    )
}

/// An Ethernet address of a client.
#[derive(Clone, Copy, Debug, Eq, Hash, Ord, PartialEq, PartialOrd)]
pub struct MacAddress([u8; 6]);

impl View for MacAddress {
    type V = Seq<u8>;

    closed spec fn view(&self) -> Seq<u8> {
        self.0@
    }
}

fn hex_digit(b: u8) -> (r: Option<u8>)
    ensures
        r == hex_value(b),
{
    if 48 <= b && b <= 57 {
        Some(b - 48)
    } else if 97 <= b && b <= 102 {
        Some(b - 87)
    } else if 65 <= b && b <= 70 {
        Some(b - 55)
    } else {
        None
    }
}

pub fn nibble_char(n: u8) -> (r: char)
    requires
        n < 16,
    ensures
        r == hex_char(n),
{
    if n < 10 {
        (n + 48) as char
    } else {
        (n + 87) as char
    }
}

impl MacAddress {
    /// The address with these six octets.
    pub fn from_octets(octets: [u8; 6]) -> (r: MacAddress)
        ensures
            r@ == octets@,
    {
        MacAddress(octets)
    }

    /// The six octets.
    pub fn octets(self) -> (r: [u8; 6])
        ensures
            r@ == self@,
    {
        self.0
    }

    pub proof fn lemma_view_len(self)
        ensures
            self@.len() == 6,
    {
    }

    /// Reads an address written as six hexadecimal pairs joined by colons;
    /// refuses anything else, and the all-zero, broadcast and multicast
    /// addresses.
    pub fn parse(value: &str) -> (r: Result<MacAddress, IdentityError>)
        ensures
            match r {
                Ok(mac) => spec_parse_mac(encode_utf8(value@)) == Some(mac@),
                Err(IdentityError::InvalidMac(text)) => spec_parse_mac(encode_utf8(value@)) is None
                    && text@ == value@,
            },
    {
        match MacAddress::parse_bytes(value.as_bytes()) {
            Some(mac) => Ok(mac),
            None => Err(IdentityError::InvalidMac(value.to_owned())),
        }
    }

    /// Reads an address from the bytes of its text.
    pub fn parse_bytes(bytes: &[u8]) -> (r: Option<MacAddress>)
        ensures
            match r {
                Some(mac) => spec_parse_mac(bytes@) == Some(mac@),
                None => spec_parse_mac(bytes@) is None,
            },
    {
        if bytes.len() != 17 {
            return None;
        }
        let ghost b = bytes@;
        let mut octets: Vec<u8> = Vec::new();
        let mut index: usize = 0;
        while index < 6
            invariant
                b == bytes@,
                b.len() == 17,
                index <= 6,
                octets@.len() == index,
                forall|k: int| 0 <= k < index && k < 5 ==> #[trigger] b[3 * k + 2] == 58u8,
                forall|k: int| 0 <= k < index ==> #[trigger] mac_text_octet(b, k) == Some(octets@[k]),
            decreases 6 - index,
        {
            let offset = index * 3;
            if index != 5 && bytes[offset + 2] != 58u8 {
                assert(!mac_text_well_formed(b)) by {
                    assert(b[3 * (index as int) + 2] != 58u8);
                }
                return None;
            }
            let high = hex_digit(bytes[offset]);
            let low = hex_digit(bytes[offset + 1]);
            match (high, low) {
                (Some(h), Some(l)) => {
                    octets.push(h * 16 + l);
                    assert(mac_text_octet(b, index as int) == Some((h * 16 + l) as u8));
                },
                _ => {
                    assert(!mac_text_well_formed(b)) by {
                        assert(mac_text_octet(b, index as int) is None);
                    }
                    return None;
                },
            }
            index += 1;
        }
        let ghost o = mac_text_octets(b);
        assert(o =~= octets@);
        assert(mac_text_well_formed(b));
        let all_zero = octets[0] == 0 && octets[1] == 0 && octets[2] == 0 && octets[3] == 0
            && octets[4] == 0 && octets[5] == 0;
        let all_ones = octets[0] == 255 && octets[1] == 255 && octets[2] == 255 && octets[3]
            == 255 && octets[4] == 255 && octets[5] == 255;
        if all_zero || all_ones || octets[0] % 2 != 0 {
            return None;
        }
        assert(!(forall|k: int| 0 <= k < 6 ==> o[k] == 0u8)) by {
            if forall|k: int| 0 <= k < 6 ==> o[k] == 0u8 {
                assert(o[0] == 0 && o[1] == 0 && o[2] == 0 && o[3] == 0 && o[4] == 0 && o[5]
                    == 0);
            }
        }
        assert(!(forall|k: int| 0 <= k < 6 ==> o[k] == 255u8)) by {
            if forall|k: int| 0 <= k < 6 ==> o[k] == 255u8 {
                assert(o[0] == 255 && o[1] == 255 && o[2] == 255 && o[3] == 255 && o[4] == 255
                    && o[5] == 255);
            }
        }
        let arr: [u8; 6] = [octets[0], octets[1], octets[2], octets[3], octets[4], octets[5]];
        assert(arr@ =~= o);
        Some(MacAddress(arr))
    }

    /// The address as six lowercase hexadecimal pairs joined by colons.
    pub fn text(&self) -> (r: String)
        ensures
            r@ == mac_text(self@),
    {
        let o = self.0;
        let ghost v = o@;
        let mut cs: Vec<char> = Vec::new();
        let mut k: usize = 0;
        while k < 6
            invariant
                v == o@,
                v.len() == 6,
                k <= 6,
                cs@.len() == (if k == 0 { 0 } else { 3 * k - 1 }),
                forall|i: int| 0 <= i < cs@.len() ==> cs@[i] == mac_text(v)[i],
            decreases 6 - k,
        {
            if k > 0 {
                cs.push(':');
            }
            let byte = o[k];
            cs.push(nibble_char(byte / 16));
            cs.push(nibble_char(byte % 16));
            k += 1;
        }
        string_from_chars(cs.as_slice())
    }
}

impl core::str::FromStr for MacAddress {
    type Err = IdentityError;

    fn from_str(value: &str) -> Result<Self, Self::Err> {
        MacAddress::parse(value)
    }
}

/// A client: its address and the zone it was seen in.
#[derive(Clone, Debug, Eq, Hash, Ord, PartialEq, PartialOrd)]
pub struct IdentityKey {
    pub mac: MacAddress,
    pub zone: String,
}

/// The text of a key: the address text, `@`, and the zone.
pub open spec fn identity_text(mac: Seq<u8>, zone: Seq<char>) -> Seq<char> {
    mac_text(mac) + seq!['@'] + zone
}

impl IdentityKey {
    /// The key as text, `address@zone`.
    pub fn text(&self) -> (r: String)
        ensures
            r@ == identity_text(self.mac@, self.zone@),
    {
        let mut r = self.mac.text();
        r.append("@");
        proof {
            reveal_strlit("@");
        }
        r.append(self.zone.as_str());
        r
    }
}

#[derive(Clone, Copy, Debug, Eq, PartialEq, Structural)]
pub enum ObservationSource {
    DhcpLease,
    Neighbor,
    Wireless,
    Netifd,
}

#[derive(Clone, Copy, Debug, Eq, PartialEq, Structural)]
pub enum FrameKind {
    Unicast,
    Broadcast,
    Multicast,
    Arp,
    NeighborDiscovery,
    RouterMac,
}

/// The frame kind that a name denotes.
pub open spec fn spec_frame_kind(value: Seq<char>) -> Option<FrameKind> {
    if value == "unicast"@ {
        Some(FrameKind::Unicast)
    } else if value == "broadcast"@ {
        Some(FrameKind::Broadcast)
    } else if value == "multicast"@ {
        Some(FrameKind::Multicast)
    } else if value == "arp"@ {
        Some(FrameKind::Arp)
    } else if value == "nd"@ {
        Some(FrameKind::NeighborDiscovery)
    } else if value == "router_mac"@ {
        Some(FrameKind::RouterMac)
    } else {
        None
    }
}

impl FrameKind {
    /// Reads a frame kind by its name.
    pub fn parse(value: &str) -> (r: Result<FrameKind, &'static str>)
        ensures
            match r {
                Ok(kind) => spec_frame_kind(value@) == Some(kind),
                Err(_) => spec_frame_kind(value@) is None,
            },
    {
        if str_eq(value, "unicast") {
            Ok(FrameKind::Unicast)
        } else if str_eq(value, "broadcast") {
            Ok(FrameKind::Broadcast)
        } else if str_eq(value, "multicast") {
            Ok(FrameKind::Multicast)
        } else if str_eq(value, "arp") {
            Ok(FrameKind::Arp)
        } else if str_eq(value, "nd") {
            Ok(FrameKind::NeighborDiscovery)
        } else if str_eq(value, "router_mac") {
            Ok(FrameKind::RouterMac)
        } else {
            Err("unknown frame kind")
        }
    }
}

impl core::str::FromStr for FrameKind {
    type Err = &'static str;

    fn from_str(value: &str) -> Result<Self, Self::Err> {
        FrameKind::parse(value)
    }
}

#[derive(Clone, Debug, Eq, PartialEq)]
pub struct NeighborEntry {
    pub ip: String,
    pub mac: MacAddress,
    pub interface: String,
    pub zone: String,
}

/// One sighting of a client by one source.
#[derive(Clone, Copy, Debug)]
pub struct IdentityObservation<'a> {
    pub mac: &'a str,
    pub zone: Option<&'a str>,
    pub interface: &'a str,
    pub ip: Option<&'a str>,
    pub hostname: Option<&'a str>,
    pub last_seen: u64,
    pub source: ObservationSource,
}

/// What is known of one client.
#[derive(Clone, Debug, Eq, PartialEq)]
pub struct ClientIdentity {
    pub key: IdentityKey,
    pub interface: String,
    pub ips: Vec<String>,
    pub hostname: Option<String>,
    pub last_seen: u64,
}

#[derive(Debug, Eq, PartialEq)]
pub enum IdentityError {
    InvalidMac(String),
}

impl IdentityError {
    /// The message that describes the error.
    pub fn describe(&self) -> (r: String)
        ensures
            match self {
                IdentityError::InvalidMac(mac) => r@ == "invalid client MAC address: "@ + mac@,
            },
    {
        match self {
            IdentityError::InvalidMac(mac) => {
                let mut r = "invalid client MAC address: ".to_owned();
                r.append(mac.as_str());
                r
            },
        }
    }
}

} // verus!

verus! {

/// The canonical text of an address: a dotted quad, or the compressed
/// IPv6 form.
pub open spec fn address_text(a: AddressView) -> Seq<char> {
    match a {
        AddressView::V4(o) => ipv4_text(o),
        AddressView::V6(o) => ipv6_text(o),
    }
}

/// An address text normalised: nothing for an empty text, the canonical
/// text of the address where the text spells an IP address, and any other
/// text as it is.
pub open spec fn spec_normalize_ip(value: Seq<char>) -> Option<Seq<char>> {
    if value.len() == 0 {
        None
    } else {
        match parse_ip_bytes(encode_utf8(value)) {
            Some(a) => Some(address_text(a)),
            None => Some(value),
        }
    }
}

/// Normalises an address text: an IP address is rewritten in its canonical
/// text, any other non-empty text is kept as it is.
pub fn normalize_ip_address(value: &str) -> (r: Option<String>)
    ensures
        opt_text(r) == spec_normalize_ip(value@),
{
    if value.is_empty() {
        return None;
    }
    match parse_ip(value) {
        Some(a) => {
            let t = a.text();
            proof {
                match a {
                    IpAddress::V4(o) => {},
                    IpAddress::V6(o) => {},
                }
                assert(t@ == address_text(address_view(a)));
            }
            Some(t)
        },
        None => Some(value.to_owned()),
    }
}

/// What is known of a client, its texts taken by value.
pub struct ClientIdentityView {
    pub mac: Seq<u8>,
    pub zone: Seq<char>,
    pub interface: Seq<char>,
    pub ips: Seq<Seq<char>>,
    pub hostname: Option<Seq<char>>,
    pub last_seen: u64,
}

pub open spec fn texts_of(v: Seq<String>) -> Seq<Seq<char>> {
    v.map_values(|s: String| s@)
}

pub open spec fn opt_text(o: Option<String>) -> Option<Seq<char>> {
    match o {
        Some(s) => Some(s@),
        None => None,
    }
}

pub open spec fn opt_str(o: Option<&str>) -> Option<Seq<char>> {
    match o {
        Some(s) => Some(s@),
        None => None,
    }
}

impl View for ClientIdentity {
    type V = ClientIdentityView;

    open spec fn view(&self) -> ClientIdentityView {
        ClientIdentityView {
            mac: self.key.mac@,
            zone: self.key.zone@,
            interface: self.interface@,
            ips: texts_of(self.ips@),
            hostname: opt_text(self.hostname),
            last_seen: self.last_seen,
        }
    }
}

/// A sighting, its texts taken by value.
pub struct ObservationView {
    pub mac: Seq<char>,
    pub zone: Option<Seq<char>>,
    pub interface: Seq<char>,
    pub ip: Option<Seq<char>>,
    pub hostname: Option<Seq<char>>,
    pub last_seen: u64,
    pub source: ObservationSource,
}

impl<'a> View for IdentityObservation<'a> {
    type V = ObservationView;

    open spec fn view(&self) -> ObservationView {
        ObservationView {
            mac: self.mac@,
            zone: opt_str(self.zone),
            interface: self.interface@,
            ip: opt_str(self.ip),
            hostname: opt_str(self.hostname),
            last_seen: self.last_seen,
            source: self.source,
        }
    }
}

/// The table's clients, each filed under its key text.
pub open spec fn keyed_clients(s: Seq<ClientIdentityView>) -> Seq<crate::keyed::NamedView<ClientIdentityView>> {
    s.map_values(
        |c: ClientIdentityView|
            crate::keyed::NamedView { name: identity_text(c.mac, c.zone), value: c },
    )
}

/// The zone of a sighting: its own when given and not empty, else the one
/// its interface implies.
pub open spec fn observation_zone(o: ObservationView) -> Seq<char> {
    match o.zone {
        Some(z) => if z.len() > 0 {
            z
        } else {
            filter::spec_zone_of(o.interface)
        },
        None => filter::spec_zone_of(o.interface),
    }
}

/// A client after a sighting: the address added when it is new and there is
/// room, a non-empty host name taken, and the interface and time taken when
/// the sighting is not older.
pub open spec fn client_after(c: ClientIdentityView, o: ObservationView) -> ClientIdentityView {
    let ip = match o.ip {
        Some(v) => spec_normalize_ip(v),
        None => None,
    };
    let ips = match ip {
        Some(t) => if c.ips.len() < MAX_IPS_PER_IDENTITY && !c.ips.contains(t) {
            c.ips.push(t)
        } else {
            c.ips
        },
        None => c.ips,
    };
    let hostname = match o.hostname {
        Some(h) => if h.len() > 0 {
            Some(h)
        } else {
            c.hostname
        },
        None => c.hostname,
    };
    if o.last_seen >= c.last_seen {
        ClientIdentityView {
            ips,
            hostname,
            interface: o.interface,
            last_seen: o.last_seen,
            ..c
        }
    } else {
        ClientIdentityView { ips, hostname, ..c }
    }
}

/// `i` is the first client that lists address `ip`.
pub open spec fn is_ip_owner(cs: Seq<ClientIdentityView>, ip: Seq<char>, i: int) -> bool {
    &&& 0 <= i < cs.len()
    &&& cs[i].ips.contains(ip)
    &&& forall|j: int| 0 <= j < i ==> !cs[j].ips.contains(ip)
}

/// The first client that lists address `ip`, or -1.
pub open spec fn ip_owner_index(cs: Seq<ClientIdentityView>, ip: Seq<char>) -> int {
    if exists|i: int| is_ip_owner(cs, ip, i) {
        choose|i: int| is_ip_owner(cs, ip, i)
    } else {
        -1
    }
}

/// The clients of the table in key order, with the router MACs that are
/// never clients and the client limit.
pub struct TableView {
    pub max_clients: nat,
    pub router_macs: Seq<Seq<u8>>,
    pub clients: Seq<ClientIdentityView>,
}

/// The table once the router's MAC `m` is excluded: `m` among the router's
/// MACs, and no client with it.
pub open spec fn spec_exclude(t: TableView, m: Seq<u8>) -> TableView {
    TableView {
        router_macs: if t.router_macs.contains(m) {
            t.router_macs
        } else {
            t.router_macs.push(m)
        },
        clients: t.clients.filter(|c: ClientIdentityView| c.mac != m),
        ..t
    }
}

/// Whether traffic from the MAC text `mac` in a `frame` counts as a
/// client's: unicast, from a valid MAC that is not the router's.
pub open spec fn spec_client_owned(t: TableView, mac: Seq<char>, frame: FrameKind) -> bool {
    frame == FrameKind::Unicast && match spec_parse_mac(encode_utf8(mac)) {
        Some(m) => !t.router_macs.contains(m),
        None => false,
    }
}

/// At most `max_clients` clients, each with at most four addresses, none
/// twice.
pub open spec fn table_bounded(t: TableView) -> bool {
    &&& t.clients.len() <= t.max_clients
    &&& forall|i: int|
        0 <= i < t.clients.len() ==> #[trigger] t.clients[i].ips.len() <= MAX_IPS_PER_IDENTITY
            && t.clients[i].ips.no_duplicates()
}

/// A new table counts every unicast frame from a valid MAC as a client's.
pub proof fn lemma_new_table_owns_every_unicast(t: TableView, mac: Seq<char>, frame: FrameKind)
    requires
        t.router_macs.len() == 0,
    ensures
        spec_client_owned(t, mac, frame) == (frame == FrameKind::Unicast && spec_parse_mac(
            encode_utf8(mac),
        ) is Some),
{
}

/// Excluding the router's MAC `m` stops exactly the traffic from `m` from
/// counting as a client's; every other answer stays as it was.
pub proof fn lemma_exclusion_disowns_exactly_that_mac(t: TableView, m: Seq<u8>, mac: Seq<char>, frame: FrameKind)
    ensures
        spec_client_owned(spec_exclude(t, m), mac, frame) == (spec_client_owned(t, mac, frame)
            && spec_parse_mac(encode_utf8(mac)) != Some(m)),
        spec_exclude(t, m).router_macs.to_set() == t.router_macs.to_set().insert(m),
{
    let r = spec_exclude(t, m).router_macs;
    assert(r.to_set() =~= t.router_macs.to_set().insert(m)) by {
        assert forall|x: Seq<u8>| r.to_set().contains(x) <==> t.router_macs.to_set().insert(m).contains(x) by {
            if !t.router_macs.contains(m) {
                if r.contains(x) && x != m {
                    let i = choose|i: int| 0 <= i < r.len() && r[i] == x;
                    assert(t.router_macs[i] == x);
                }
                if t.router_macs.contains(x) {
                    let i = choose|i: int| 0 <= i < t.router_macs.len() && t.router_macs[i] == x;
                    assert(r[i] == x);
                }
                assert(r[r.len() - 1] == m);
            }
        }
    }
    match spec_parse_mac(encode_utf8(mac)) {
        Some(x) => {
            assert(r.to_set().contains(x) == r.contains(x));
            assert(t.router_macs.to_set().contains(x) == t.router_macs.contains(x));
        },
        None => {},
    }
}

/// A sighting never changes which traffic counts as a client's: only an
/// exclusion does.
pub proof fn lemma_observe_keeps_ownership(
    t: TableView,
    o: ObservationView,
    m: Seq<u8>,
    mac: Seq<char>,
    frame: FrameKind,
)
    ensures
        spec_client_owned(spec_observe(t, o, m).0, mac, frame) == spec_client_owned(t, mac, frame),
{
}

/// A sighting keeps the table within its bounds: no more clients than the
/// limit, no client with more than four addresses or one twice.
pub proof fn lemma_observe_keeps_bounds(t: TableView, o: ObservationView, m: Seq<u8>)
    requires
        table_bounded(t),
    ensures
        table_bounded(spec_observe(t, o, m).0),
{
    let zone = observation_zone(o);
    let key = identity_text(m, zone);
    let keyed = keyed_clients(t.clients);
    let i = crate::keyed::name_index(keyed, key);
    let n = spec_observe(t, o, m).0;
    if t.router_macs.contains(m) || filter::spec_excluded_identity_source(o.interface) {
    } else if i < 0 && t.clients.len() >= t.max_clients {
    } else if i >= 0 {
        assert(keyed.len() == t.clients.len());
        lemma_client_after_bounded(t.clients[i], o);
        assert forall|k: int| 0 <= k < n.clients.len() implies #[trigger] n.clients[k].ips.len()
            <= MAX_IPS_PER_IDENTITY && n.clients[k].ips.no_duplicates() by {
            if k != i {
                assert(n.clients[k] == t.clients[k]);
            }
        }
    } else {
        let fresh = ClientIdentityView {
            mac: m,
            zone,
            interface: o.interface,
            ips: Seq::empty(),
            hostname: None,
            last_seen: 0,
        };
        lemma_client_after_bounded(fresh, o);
        let p = crate::keyed::insert_pos(keyed, key);
        crate::keyed::lemma_insert_pos_range(keyed, key);
        assert(keyed.len() == t.clients.len());
        assert forall|k: int| 0 <= k < n.clients.len() implies #[trigger] n.clients[k].ips.len()
            <= MAX_IPS_PER_IDENTITY && n.clients[k].ips.no_duplicates() by {
            if k < p {
                assert(n.clients[k] == t.clients[k]);
            } else if k > p {
                assert(n.clients[k] == t.clients[k - 1]);
            }
        }
    }
}

/// A sighting that is taken files its client: afterwards a client with the
/// sighting's MAC and zone key is in the table. One that is not taken leaves
/// the table as it was.
pub proof fn lemma_observe_files_the_client(t: TableView, o: ObservationView, m: Seq<u8>)
    ensures
        spec_observe(t, o, m).1 ==> exists|j: int|
            0 <= j < spec_observe(t, o, m).0.clients.len() && #[trigger] identity_text(
                spec_observe(t, o, m).0.clients[j].mac,
                spec_observe(t, o, m).0.clients[j].zone,
            ) == identity_text(m, observation_zone(o)),
        !spec_observe(t, o, m).1 ==> spec_observe(t, o, m).0 == t,
{
    let zone = observation_zone(o);
    let key = identity_text(m, zone);
    let keyed = keyed_clients(t.clients);
    let i = crate::keyed::name_index(keyed, key);
    let n = spec_observe(t, o, m).0;
    if t.router_macs.contains(m) || filter::spec_excluded_identity_source(o.interface) {
    } else if i < 0 && t.clients.len() >= t.max_clients {
    } else if i >= 0 {
        let w = choose|w: int| crate::keyed::is_first_name(keyed, key, w);
        assert(keyed[i].name == key);
        assert(identity_text(n.clients[i].mac, n.clients[i].zone) == key);
    } else {
        let p = crate::keyed::insert_pos(keyed, key);
        crate::keyed::lemma_insert_pos_range(keyed, key);
        assert(keyed.len() == t.clients.len());
        assert(n.clients[p].mac == m && n.clients[p].zone == zone);
        assert(identity_text(n.clients[p].mac, n.clients[p].zone) == key);
    }
}

proof fn lemma_client_after_bounded(c: ClientIdentityView, o: ObservationView)
    requires
        c.ips.len() <= MAX_IPS_PER_IDENTITY,
        c.ips.no_duplicates(),
    ensures
        client_after(c, o).ips.len() <= MAX_IPS_PER_IDENTITY,
        client_after(c, o).ips.no_duplicates(),
{
    let ip = match o.ip {
        Some(v) => spec_normalize_ip(v),
        None => None,
    };
    match ip {
        Some(t) => {
            if c.ips.len() < MAX_IPS_PER_IDENTITY && !c.ips.contains(t) {
                let ips = c.ips.push(t);
                assert forall|a: int, b: int| 0 <= a < ips.len() && 0 <= b < ips.len() && a != b implies ips[a] != ips[b] by {
                    if a == ips.len() - 1 {
                        assert(c.ips[b] == ips[b]);
                    } else if b == ips.len() - 1 {
                        assert(c.ips[a] == ips[a]);
                    }
                }
            }
        },
        None => {},
    }
}

/// Excluding the router's MAC keeps the table within its bounds.
pub proof fn lemma_exclude_keeps_bounds(t: TableView, m: Seq<u8>)
    requires
        table_bounded(t),
    ensures
        table_bounded(spec_exclude(t, m)),
{
    let pred = |c: ClientIdentityView| c.mac != m;
    t.clients.filter_lemma(pred);
    let f = t.clients.filter(pred);
    assert forall|k: int| 0 <= k < f.len() implies #[trigger] f[k].ips.len() <= MAX_IPS_PER_IDENTITY
        && f[k].ips.no_duplicates() by {
        assert(f.contains(f[k]));
        t.clients.lemma_filter_contains_rev(pred, f[k]);
        let j = choose|j: int| 0 <= j < t.clients.len() && t.clients[j] == f[k];
        assert(t.clients[j].ips.len() <= MAX_IPS_PER_IDENTITY);
    }
}

/// A change made to the table: a sighting of a parsed client MAC, or the
/// exclusion of a router MAC.
pub enum TableChange {
    Observe(ObservationView, Seq<u8>),
    Exclude(Seq<u8>),
}

/// The table after `changes`, applied in order.
pub open spec fn spec_apply_changes(t: TableView, changes: Seq<TableChange>) -> TableView
    decreases changes.len(),
{
    if changes.len() == 0 {
        t
    } else {
        let prev = spec_apply_changes(t, changes.drop_last());
        match changes.last() {
            TableChange::Observe(o, m) => spec_observe(prev, o, m).0,
            TableChange::Exclude(m) => spec_exclude(prev, m),
        }
    }
}

/// The router MACs excluded by `changes`.
pub open spec fn excluded_macs(changes: Seq<TableChange>) -> Set<Seq<u8>>
    decreases changes.len(),
{
    if changes.len() == 0 {
        Set::empty()
    } else {
        let prev = excluded_macs(changes.drop_last());
        match changes.last() {
            TableChange::Exclude(m) => prev.insert(m),
            TableChange::Observe(..) => prev,
        }
    }
}

/// From a new table, whatever sightings and exclusions follow: traffic
/// counts as a client's exactly when it is a unicast frame from a valid MAC
/// that was never excluded as the router's, and the table stays within its
/// bounds (no more clients than the limit, at most four addresses each).
pub proof fn lemma_table_history(t: TableView, changes: Seq<TableChange>, mac: Seq<char>, frame: FrameKind)
    requires
        t.router_macs.len() == 0,
        t.clients.len() == 0,
    ensures
        spec_client_owned(spec_apply_changes(t, changes), mac, frame) == (frame == FrameKind::Unicast
            && (spec_parse_mac(encode_utf8(mac)) matches Some(x) && !excluded_macs(changes).contains(x))),
        table_bounded(spec_apply_changes(t, changes)),
    decreases changes.len(),
{
    lemma_history_routers(t, changes);
    let n = spec_apply_changes(t, changes);
    match spec_parse_mac(encode_utf8(mac)) {
        Some(x) => {
            assert(n.router_macs.to_set().contains(x) == n.router_macs.contains(x));
        },
        None => {},
    }
}

proof fn lemma_history_routers(t: TableView, changes: Seq<TableChange>)
    requires
        t.router_macs.len() == 0,
        t.clients.len() == 0,
    ensures
        spec_apply_changes(t, changes).router_macs.to_set() == excluded_macs(changes),
        table_bounded(spec_apply_changes(t, changes)),
    decreases changes.len(),
{
    if changes.len() == 0 {
        assert(t.router_macs.to_set() =~= Set::<Seq<u8>>::empty());
    } else {
        let rest = changes.drop_last();
        lemma_history_routers(t, rest);
        let prev = spec_apply_changes(t, rest);
        match changes.last() {
            TableChange::Observe(o, m) => {
                lemma_observe_keeps_bounds(prev, o, m);
                assert(spec_observe(prev, o, m).0.router_macs == prev.router_macs);
            },
            TableChange::Exclude(m) => {
                lemma_exclude_keeps_bounds(prev, m);
                lemma_exclusion_disowns_exactly_that_mac(prev, m, Seq::empty(), FrameKind::Unicast);
            },
        }
    }
}

/// The table after a sighting of a parsed client MAC, and whether the
/// sighting was taken: router MACs and proxy or tunnel interfaces are
/// ignored, and a new client is refused once the limit is reached.
pub open spec fn spec_observe(t: TableView, o: ObservationView, mac: Seq<u8>) -> (TableView, bool) {
    let zone = observation_zone(o);
    let key = identity_text(mac, zone);
    let keyed = keyed_clients(t.clients);
    let i = crate::keyed::name_index(keyed, key);
    if t.router_macs.contains(mac) || filter::spec_excluded_identity_source(o.interface) {
        (t, false)
    } else if i < 0 && t.clients.len() >= t.max_clients {
        (t, false)
    } else if i >= 0 {
        (TableView { clients: t.clients.update(i, client_after(t.clients[i], o)), ..t }, true)
    } else {
        let fresh = ClientIdentityView {
            mac,
            zone,
            interface: o.interface,
            ips: Seq::empty(),
            hostname: None,
            last_seen: 0,
        };
        (
            TableView {
                clients: t.clients.insert(
                    crate::keyed::insert_pos(keyed, key),
                    client_after(fresh, o),
                ),
                ..t
            },
            true,
        )
    }
}

/// The clients seen on the LAN, keyed by MAC and zone.
pub struct IdentityTable {
    max_clients: usize,
    router_macs: Vec<MacAddress>,
    clients: Vec<ClientIdentity>,
}

impl View for IdentityTable {
    type V = TableView;

    closed spec fn view(&self) -> TableView {
        TableView {
            max_clients: self.max_clients as nat,
            router_macs: self.router_macs@.map_values(|m: MacAddress| m@),
            clients: self.clients@.map_values(|c: ClientIdentity| c@),
        }
    }
}

fn mac_eq(a: &MacAddress, b: &MacAddress) -> (r: bool)
    ensures
        r == (a@ == b@),
{
    let x = a.octets();
    let y = b.octets();
    let r = x[0] == y[0] && x[1] == y[1] && x[2] == y[2] && x[3] == y[3] && x[4] == y[4] && x[5]
        == y[5];
    proof {
        a.lemma_view_len();
        b.lemma_view_len();
        if r {
            assert(a@ =~= b@);
        }
    }
    r
}

pub(crate) fn clone_text_list(v: &Vec<String>) -> (r: Vec<String>)
    ensures
        texts_of(r@) == texts_of(v@),
{
    let mut out: Vec<String> = Vec::new();
    let mut i: usize = 0;
    while i < v.len()
        invariant
            i <= v@.len(),
            texts_of(out@) == texts_of(v@).take(i as int),
        decreases v@.len() - i,
    {
        let ghost before = texts_of(out@);
        out.push(v[i].clone());
        assert(texts_of(out@) =~= before.push(v@[i as int]@));
        assert(texts_of(v@).take(i + 1) =~= texts_of(v@).take(i as int).push(v@[i as int]@));
        i += 1;
    }
    assert(texts_of(v@).take(i as int) =~= texts_of(v@));
    out
}

fn text_in(v: &Vec<String>, t: &String) -> (r: bool)
    ensures
        r == texts_of(v@).contains(t@),
{
    let mut i: usize = 0;
    while i < v.len()
        invariant
            i <= v@.len(),
            forall|j: int| 0 <= j < i ==> texts_of(v@)[j] != t@,
        decreases v@.len() - i,
    {
        if crate::text::str_eq(v[i].as_str(), t.as_str()) {
            assert(texts_of(v@)[i as int] == t@);
            return true;
        }
        i += 1;
    }
    false
}

/// A copy of a client.
fn copy_client(c: &ClientIdentity) -> (r: ClientIdentity)
    ensures
        r@ == c@,
{
    ClientIdentity {
        key: IdentityKey { mac: c.key.mac, zone: c.key.zone.clone() },
        interface: c.interface.clone(),
        ips: clone_text_list(&c.ips),
        hostname: match &c.hostname {
            Some(h) => Some(h.clone()),
            None => None,
        },
        last_seen: c.last_seen,
    }
}

/// Dropping clients keeps the rest in key order.
proof fn lemma_filter_sorted(cs: Seq<ClientIdentityView>, mac: Seq<u8>)
    requires
        crate::keyed::names_sorted(keyed_clients(cs)),
    ensures
        crate::keyed::names_sorted(
            keyed_clients(cs.filter(|c: ClientIdentityView| c.mac != mac)),
        ),
    decreases cs.len(),
{
    let f = cs.filter(|c: ClientIdentityView| c.mac != mac);
    if cs.len() > 0 {
        let init = cs.drop_last();
        assert(keyed_clients(init) =~= keyed_clients(cs).drop_last());
        lemma_filter_sorted(init, mac);
        assert(cs =~= init.push(cs.last()));
        reveal(Seq::filter);
        assert(cs.drop_last() =~= init);
        let fi = init.filter(|c: ClientIdentityView| c.mac != mac);
        if cs.last().mac != mac {
            assert(f == fi.push(cs.last()));
            assert forall|k: int| 0 <= k < fi.len() implies crate::keyed::name_lt(
                identity_text(fi[k].mac, fi[k].zone),
                identity_text(cs.last().mac, cs.last().zone),
            ) by {
                assert(fi.contains(fi[k]));
                init.lemma_filter_contains_rev(|c: ClientIdentityView| c.mac != mac, fi[k]);
                assert(init.contains(fi[k]));
                let m = choose|m: int| 0 <= m < init.len() && init[m] == fi[k];
                assert(cs[m] == init[m]);
                let last = cs.len() - 1;
                assert(keyed_clients(cs)[m].name == identity_text(fi[k].mac, fi[k].zone));
                assert(keyed_clients(cs)[last].name == identity_text(
                    cs.last().mac,
                    cs.last().zone,
                ));
                assert(crate::keyed::name_lt(keyed_clients(cs)[m].name, keyed_clients(cs)[last].name));
            }
            assert forall|a: int, b: int| 0 <= a < b < f.len() implies crate::keyed::name_lt(
                #[trigger] keyed_clients(f)[a].name,
                #[trigger] keyed_clients(f)[b].name,
            ) by {
                if b < fi.len() {
                    assert(keyed_clients(f)[a] == keyed_clients(fi)[a]);
                    assert(keyed_clients(f)[b] == keyed_clients(fi)[b]);
                }
            }
        } else {
            assert(f == fi);
        }
    } else {
        assert(f =~= cs);
    }
}

/// A client with a sighting applied.
fn apply_observation(
    client: ClientIdentity,
    observation: &IdentityObservation<'_>,
) -> (r: ClientIdentity)
    ensures
        r@ == client_after(client@, observation@),
{
    let mut client = client;
    match observation.ip {
        Some(v) => match normalize_ip_address(v) {
            Some(ip) => {
                if client.ips.len() < MAX_IPS_PER_IDENTITY && !text_in(&client.ips, &ip) {
                    let ghost before = texts_of(client.ips@);
                    client.ips.push(ip);
                    assert(texts_of(client.ips@) =~= before.push(ip@));
                }
            },
            None => {},
        },
        None => {},
    }
    match observation.hostname {
        Some(h) => {
            if !h.is_empty() {
                client.hostname = Some(h.to_owned());
            }
        },
        None => {},
    }
    if observation.last_seen >= client.last_seen {
        client.interface = observation.interface.to_owned();
        client.last_seen = observation.last_seen;
    }
    client
}

impl IdentityTable {
    pub closed spec fn wf(self) -> bool {
        crate::keyed::names_sorted(keyed_clients(self@.clients)) && table_bounded(self@)
    }

    pub fn new(max_clients: usize) -> (r: Self)
        ensures
            r.wf(),
            r@.max_clients == max_clients,
            r@.router_macs.len() == 0,
            r@.clients.len() == 0,
    {
        IdentityTable { max_clients, router_macs: Vec::new(), clients: Vec::new() }
    }

    fn is_router_mac(&self, mac: &MacAddress) -> (r: bool)
        ensures
            r == self@.router_macs.contains(mac@),
    {
        let ghost rm = self@.router_macs;
        let mut i: usize = 0;
        while i < self.router_macs.len()
            invariant
                i <= self.router_macs@.len(),
                rm == self.router_macs@.map_values(|m: MacAddress| m@),
                forall|j: int| 0 <= j < i ==> rm[j] != mac@,
            decreases self.router_macs@.len() - i,
        {
            if mac_eq(&self.router_macs[i], mac) {
                assert(rm[i as int] == mac@);
                return true;
            }
            i += 1;
        }
        false
    }

    /// Files a sighting of a client, its address written in canonical text.
    pub fn observe(&mut self, observation: IdentityObservation<'_>) -> (r:
        Result<bool, IdentityError>)
        requires
            old(self).wf(),
        ensures
            final(self).wf(),
            match r {
                Ok(taken) => spec_parse_mac(vstd::utf8::encode_utf8(observation@.mac)) matches Some(
                    mac,
                ) && (final(self)@, taken) == spec_observe(
                    old(self)@,
                    observation@,
                    mac,
                ),
                Err(IdentityError::InvalidMac(text)) => spec_parse_mac(
                    vstd::utf8::encode_utf8(observation@.mac),
                ) is None && text@ == observation@.mac && final(self)@ == old(self)@,
            },
            r is Err <==> spec_parse_mac(vstd::utf8::encode_utf8(observation@.mac)) is None,
            r == Ok::<bool, IdentityError>(false) ==> final(self)@ == old(self)@,
            spec_parse_mac(vstd::utf8::encode_utf8(observation@.mac)) matches Some(m) && (old(
                self,
            )@.router_macs.contains(m) || filter::spec_excluded_identity_source(observation@.interface))
                ==> r == Ok::<bool, IdentityError>(false),
            spec_parse_mac(vstd::utf8::encode_utf8(observation@.mac)) matches Some(m) && old(
                self,
            )@.clients.len() >= old(self)@.max_clients && (forall|j: int|
                0 <= j < old(self)@.clients.len() ==> #[trigger] identity_text(
                    old(self)@.clients[j].mac,
                    old(self)@.clients[j].zone,
                ) != identity_text(m, observation_zone(observation@))) ==> r == Ok::<bool, IdentityError>(false),
            r == Ok::<bool, IdentityError>(true) ==> (spec_parse_mac(
                vstd::utf8::encode_utf8(observation@.mac),
            ) matches Some(m) && exists|j: int|
                0 <= j < final(self)@.clients.len() && #[trigger] identity_text(
                    final(self)@.clients[j].mac,
                    final(self)@.clients[j].zone,
                ) == identity_text(m, observation_zone(observation@))),
            final(self)@.clients.len() <= final(self)@.max_clients,
            forall|j: int|
                0 <= j < final(self)@.clients.len() ==> #[trigger] final(self)@.clients[j].ips.len()
                    <= MAX_IPS_PER_IDENTITY && final(self)@.clients[j].ips.no_duplicates(),
    {
        let mac = match MacAddress::parse(observation.mac) {
            Ok(mac) => mac,
            Err(e) => return Err(e),
        };
        proof {
            lemma_observe_keeps_bounds(old(self)@, observation@, mac@);
            lemma_observe_files_the_client(old(self)@, observation@, mac@);
            let key = identity_text(mac@, observation_zone(observation@));
            let kc = keyed_clients(old(self)@.clients);
            if forall|j: int|
                0 <= j < old(self)@.clients.len() ==> #[trigger] identity_text(
                    old(self)@.clients[j].mac,
                    old(self)@.clients[j].zone,
                ) != key {
                assert forall|j: int| 0 <= j < kc.len() implies kc[j].name != key by {
                    assert(kc[j].name == identity_text(old(self)@.clients[j].mac, old(self)@.clients[j].zone));
                }
                crate::keyed::lemma_name_index_absent(kc, key);
            }
        }
        if self.is_router_mac(&mac) || filter::ifname_is_excluded_identity_source(
            observation.interface,
        ) {
            return Ok(false);
        }
        let zone = match observation.zone {
            Some(z) => if !z.is_empty() {
                z.to_owned()
            } else {
                filter::derive_zone_from_ifname(observation.interface)
            },
            None => filter::derive_zone_from_ifname(observation.interface),
        };
        assert(zone@ == observation_zone(observation@));
        let key = IdentityKey { mac, zone };
        let key_text = key.text();
        let ghost before = self@;
        let ghost keyed = keyed_clients(before.clients);
        match self.find_client(&key_text) {
            Some(k) => {
                let client = self.clients.remove(k);
                assert(client@ == before.clients[k as int]);
                let updated = apply_observation(client, &observation);
                self.clients.insert(k, updated);
                assert(self@.clients =~= before.clients.update(
                    k as int,
                    client_after(before.clients[k as int], observation@),
                ));
                proof {
                    assert(keyed_clients(self@.clients) =~= keyed.update(
                        k as int,
                        crate::keyed::NamedView {
                            name: keyed[k as int].name,
                            value: self@.clients[k as int],
                        },
                    ));
                }
                Ok(true)
            },
            None => {
                if self.clients.len() >= self.max_clients {
                    return Ok(false);
                }
                let p = self.find_client_pos(&key_text);
                let fresh = ClientIdentity {
                    key,
                    interface: observation.interface.to_owned(),
                    ips: Vec::new(),
                    hostname: None,
                    last_seen: 0,
                };
                assert(texts_of(fresh.ips@) =~= Seq::<Seq<char>>::empty());
                let updated = apply_observation(fresh, &observation);
                self.clients.insert(p, updated);
                assert(self@.clients =~= before.clients.insert(p as int, updated@));
                proof {
                    assert(keyed_clients(self@.clients) =~= keyed.insert(
                        p as int,
                        crate::keyed::NamedView { name: key_text@, value: updated@ },
                    ));
                    crate::keyed::lemma_sorted_insert(keyed, key_text@, updated@);
                }
                Ok(true)
            },
        }
    }

    /// Marks a MAC as the router's own: it is dropped from the clients and
    /// never taken as one.
    pub fn exclude_router_mac(&mut self, mac: &str) -> (r: Result<(), IdentityError>)
        requires
            old(self).wf(),
        ensures
            final(self).wf(),
            match r {
                Ok(()) => spec_parse_mac(vstd::utf8::encode_utf8(mac@)) matches Some(m)
                    && final(self)@ == spec_exclude(old(self)@, m),
                Err(IdentityError::InvalidMac(text)) => spec_parse_mac(
                    vstd::utf8::encode_utf8(mac@),
                ) is None && text@ == mac@ && final(self)@ == old(self)@,
            },
    {
        let parsed = match MacAddress::parse(mac) {
            Ok(m) => m,
            Err(e) => return Err(e),
        };
        proof {
            lemma_exclude_keeps_bounds(old(self)@, parsed@);
        }
        let ghost before = self@;
        if !self.is_router_mac(&parsed) {
            self.router_macs.push(parsed);
            assert(self@.router_macs =~= before.router_macs.push(parsed@));
        }
        let ghost cs = before.clients;
        let mut kept: Vec<ClientIdentity> = Vec::new();
        let mut old_clients: Vec<ClientIdentity> = Vec::new();
        std::mem::swap(&mut old_clients, &mut self.clients);
        let mut i: usize = 0;
        proof {
            assert(cs.take(0) =~= Seq::<ClientIdentityView>::empty());
            assert(kept@.map_values(|c: ClientIdentity| c@) =~= Seq::<ClientIdentityView>::empty());
        }
        while i < old_clients.len()
            invariant
                i <= old_clients@.len(),
                cs == old_clients@.map_values(|c: ClientIdentity| c@),
                crate::keyed::names_sorted(keyed_clients(cs)),
                kept@.map_values(|c: ClientIdentity| c@) == cs.take(i as int).filter(
                    |c: ClientIdentityView| c.mac != parsed@,
                ),
            decreases old_clients@.len() - i,
        {
            let ghost before_kept = kept@.map_values(|c: ClientIdentity| c@);
            assert(cs.take(i + 1).drop_last() =~= cs.take(i as int));
            assert(cs.take(i + 1).last() == cs[i as int]);
            if !mac_eq(&old_clients[i].key.mac, &parsed) {
                kept.push(copy_client(&old_clients[i]));
                assert(kept@.map_values(|c: ClientIdentity| c@) =~= before_kept.push(cs[i as int]));
            }
            proof {
                reveal(Seq::filter);
            }
            i += 1;
        }
        assert(cs.take(i as int) =~= cs);
        self.clients = kept;
        proof {
            lemma_filter_sorted(cs, parsed@);
        }
        Ok(())
    }

    /// Traffic counts as a client's only when it is unicast and from a
    /// client MAC that is not the router's.
    pub fn traffic_is_client_owned(&self, mac: &str, frame: FrameKind) -> (r: bool)
        ensures
            r == spec_client_owned(self@, mac@, frame),
    {
        if frame != FrameKind::Unicast {
            return false;
        }
        match MacAddress::parse(mac) {
            Ok(m) => !self.is_router_mac(&m),
            Err(_) => false,
        }
    }

    /// `duplicate_mac_across_vlans` when one MAC is a client in two zones.
    pub fn warnings(&self) -> (r: Vec<&'static str>)
        ensures
            r@.len() <= 1,
            (r@.len() == 1) == (exists|i: int, j: int|
                0 <= i < j < self@.clients.len() && #[trigger] self@.clients[i].mac
                    == #[trigger] self@.clients[j].mac),
            r@.len() == 1 ==> r@[0]@ == "duplicate_mac_across_vlans"@,
    {
        let ghost cs = self@.clients;
        let mut i: usize = 0;
        while i < self.clients.len()
            invariant
                i <= self.clients@.len(),
                cs == self@.clients,
                forall|a: int, b: int| 0 <= a < b < cs.len() && a < i ==> cs[a].mac != cs[b].mac,
            decreases self.clients@.len() - i,
        {
            let mut j: usize = i + 1;
            while j < self.clients.len()
                invariant
                    i < self.clients@.len(),
                    i + 1 <= j <= self.clients@.len(),
                    cs == self@.clients,
                    forall|a: int, b: int| 0 <= a < b < cs.len() && a < i ==> cs[a].mac != cs[b].mac,
                    forall|b: int| i < b < j ==> cs[i as int].mac != cs[b].mac,
                decreases self.clients@.len() - j,
            {
                if mac_eq(&self.clients[i].key.mac, &self.clients[j].key.mac) {
                    let mut w: Vec<&'static str> = Vec::new();
                    w.push("duplicate_mac_across_vlans");
                    assert(cs[i as int].mac == cs[j as int].mac);
                    return w;
                }
                j += 1;
            }
            i += 1;
        }
        Vec::new()
    }

    /// The first client, in key order, that lists address `ip`.
    pub fn by_ip(&self, ip: &str) -> (r: Option<&ClientIdentity>)
        ensures
            match r {
                Some(c) => ip_owner_index(self@.clients, ip@) >= 0 && c@ == self@.clients[ip_owner_index(
                    self@.clients,
                    ip@,
                )],
                None => ip_owner_index(self@.clients, ip@) == -1,
            },
    {
        let ghost cs = self@.clients;
        let mut i: usize = 0;
        while i < self.clients.len()
            invariant
                cs == self@.clients,
                cs == self.clients@.map_values(|c: ClientIdentity| c@),
                i <= self.clients@.len(),
                forall|j: int| 0 <= j < i ==> !cs[j].ips.contains(ip@),
            decreases self.clients@.len() - i,
        {
            let c = &self.clients[i];
            assert(cs[i as int] == c@);
            let mut k: usize = 0;
            while k < c.ips.len()
                invariant
                    cs == self@.clients,
                    i < cs.len(),
                    cs[i as int] == c@,
                    forall|j: int| 0 <= j < i ==> !cs[j].ips.contains(ip@),
                    k <= c.ips@.len(),
                    forall|j: int| 0 <= j < k ==> texts_of(c.ips@)[j] != ip@,
                decreases c.ips@.len() - k,
            {
                if crate::text::str_eq(c.ips[k].as_str(), ip) {
                    proof {
                        assert(texts_of(c.ips@)[k as int] == ip@);
                        assert(cs[i as int].ips[k as int] == ip@);
                        assert(cs[i as int].ips.contains(ip@));
                        let f = choose|f: int| is_ip_owner(cs, ip@, f);
                        assert(is_ip_owner(cs, ip@, i as int));
                        if f < i {
                            assert(!cs[f].ips.contains(ip@));
                        } else if f > i {
                            assert(cs[i as int].ips.contains(ip@));
                        }
                    }
                    return Some(c);
                }
                k += 1;
            }
            assert(!cs[i as int].ips.contains(ip@)) by {
                if cs[i as int].ips.contains(ip@) {
                    let j = choose|j: int| 0 <= j < cs[i as int].ips.len() && cs[i as int].ips[j] == ip@;
                    assert(texts_of(c.ips@)[j] == ip@);
                }
            }
            i += 1;
        }
        None
    }

    /// The client filed under `mac` in `zone`, if there is one.
    pub fn by_mac_zone(&self, mac: &MacAddress, zone: &str) -> (r: Option<&ClientIdentity>)
        ensures
            match crate::keyed::name_lookup(keyed_clients(self@.clients), identity_text(mac@, zone@)) {
                Some(c) => r matches Some(x) && x@ == c,
                None => r is None,
            },
    {
        let key = IdentityKey { mac: *mac, zone: zone.to_owned() };
        let text = key.text();
        match self.find_client(&text) {
            Some(k) => {
                proof {
                    let s = keyed_clients(self@.clients);
                    assert(s[k as int].value == self@.clients[k as int]);
                }
                Some(&self.clients[k])
            },
            None => None,
        }
    }

    /// The clients, in key order, without giving up the table.
    pub fn clients(&self) -> (r: &Vec<ClientIdentity>)
        ensures
            r@.map_values(|c: ClientIdentity| c@) == self@.clients,
    {
        &self.clients
    }

    /// The clients, in key order.
    pub fn into_clients(self) -> (r: Vec<ClientIdentity>)
        ensures
            r@.map_values(|c: ClientIdentity| c@) == self@.clients,
    {
        self.clients
    }

    /// The position of the client filed under `key`.
    fn find_client(&self, key: &String) -> (r: Option<usize>)
        ensures
            match r {
                Some(k) => k as int == crate::keyed::name_index(keyed_clients(self@.clients), key@)
                    && k < self@.clients.len(),
                None => crate::keyed::name_index(keyed_clients(self@.clients), key@) == -1,
            },
    {
        let ghost s = keyed_clients(self@.clients);
        let mut i: usize = 0;
        while i < self.clients.len()
            invariant
                i <= self.clients@.len(),
                s == keyed_clients(self@.clients),
                forall|j: int| 0 <= j < i ==> s[j].name != key@,
            decreases self.clients@.len() - i,
        {
            let t = self.clients[i].key.text();
            assert(s[i as int].name == t@);
            if crate::text::str_eq(t.as_str(), key.as_str()) {
                proof {
                    crate::keyed::lemma_name_index_found(s, key@, i as int);
                }
                return Some(i);
            }
            i += 1;
        }
        proof {
            crate::keyed::lemma_name_index_absent(s, key@);
        }
        None
    }

    /// Where a client filed under `key` goes in key order.
    fn find_client_pos(&self, key: &String) -> (r: usize)
        ensures
            r as int == crate::keyed::insert_pos(keyed_clients(self@.clients), key@),
            r <= self@.clients.len(),
    {
        let ghost s = keyed_clients(self@.clients);
        let mut i: usize = 0;
        while i < self.clients.len()
            invariant
                i <= self.clients@.len(),
                s == keyed_clients(self@.clients),
                forall|j: int| 0 <= j < i ==> crate::keyed::name_lt(s[j].name, key@),
            decreases self.clients@.len() - i,
        {
            let t = self.clients[i].key.text();
            assert(s[i as int].name == t@);
            if !crate::keyed::str_less(t.as_str(), key.as_str()) {
                proof {
                    crate::keyed::lemma_insert_pos(s, key@, i as int);
                }
                return i;
            }
            i += 1;
        }
        proof {
            crate::keyed::lemma_insert_pos(s, key@, i as int);
        }
        i
    }
}

} // verus!
