use vstd::prelude::*;
use vstd::utf8::encode_utf8;
use crate::collectors::conntrack::IpAddress;
use crate::collectors::conntrack::address::{address_view, parse_ip, parse_ip_bytes, AddressView};
use crate::identity::hostname::{bounded_ascii_token, fit_prefix};
use crate::text::{
    find_char, first_index_of, last_index_of, lemma_first_index_of, rfind_char, seq_starts_with,
    str_chars, str_eq, str_starts_with, string_from_chars, string_from_range,
};

verus! {

/// Interfaces that carry proxy or tunnel traffic, never a LAN client.
pub open spec fn spec_excluded_identity_source(ifname: Seq<char>) -> bool {
    ||| ifname == "dae0"@
    ||| ifname == "dae0peer"@
    ||| seq_starts_with(ifname, "tun"@)
    ||| seq_starts_with(ifname, "ppp"@)
    ||| seq_starts_with(ifname, "wg"@)
}

pub fn ifname_is_excluded_identity_source(ifname: &str) -> (r: bool)
    ensures
        r == spec_excluded_identity_source(ifname@),
{
    str_eq(ifname, "dae0") || str_eq(ifname, "dae0peer") || str_starts_with(ifname, "tun")
        || str_starts_with(ifname, "ppp") || str_starts_with(ifname, "wg")
}

/// The zone of an interface: `lan` for the LAN bridge, LAN ports, wireless
/// and an empty name; the interface's own name otherwise.
pub open spec fn spec_zone_of(ifname: Seq<char>) -> Seq<char> {
    if ifname.len() == 0 || seq_starts_with(ifname, "br-lan"@) || seq_starts_with(ifname, "lan"@)
        || seq_starts_with(ifname, "wlan"@) {
        "lan"@
    } else {
        ifname
    }
}

pub fn derive_zone_from_ifname(ifname: &str) -> (r: String)
    ensures
        r@ == spec_zone_of(ifname@),
{
    if ifname.is_empty() || str_starts_with(ifname, "br-lan") || str_starts_with(ifname, "lan")
        || str_starts_with(ifname, "wlan") {
        "lan".to_owned()
    } else {
        ifname.to_owned()
    }
}

} // verus!

verus! {

pub const MAX_INTERFACES: usize = 32;

pub const MAX_PREFIXES: usize = 64;

pub const MAX_INTERFACE_LEN: usize = 32;

/// Why a decimal text is no `u8`.
#[derive(Clone, Copy, Debug, Eq, PartialEq, Structural)]
pub enum IntErrorKind {
    Empty,
    InvalidDigit,
    PosOverflow,
}

/// Reading decimal digits onto `acc`: every character must be a digit, and
/// the value must stay within a byte, checked digit by digit.
pub open spec fn u8_digits(d: Seq<char>, acc: int) -> Result<u8, IntErrorKind>
    decreases d.len(),
{
    if d.len() == 0 {
        Ok(acc as u8)
    } else if !('0' <= d[0] && d[0] <= '9') {
        Err(IntErrorKind::InvalidDigit)
    } else if acc * 10 + (d[0] as int - '0' as int) > 255 {
        Err(IntErrorKind::PosOverflow)
    } else {
        u8_digits(d.drop_first(), acc * 10 + (d[0] as int - '0' as int))
    }
}

/// A `u8` from decimal text as std reads one: an optional `+`, then digits.
pub open spec fn spec_parse_u8(s: Seq<char>) -> Result<u8, IntErrorKind> {
    if s.len() == 0 {
        Err(IntErrorKind::Empty)
    } else if s[0] == '+' {
        if s.len() == 1 {
            Err(IntErrorKind::InvalidDigit)
        } else {
            u8_digits(s.drop_first(), 0)
        }
    } else {
        u8_digits(s, 0)
    }
}

fn parse_u8_range(v: &Vec<char>, lo: usize, hi: usize) -> (r: Result<u8, IntErrorKind>)
    requires
        lo <= hi <= v@.len(),
    ensures
        r == spec_parse_u8(v@.subrange(lo as int, hi as int)),
{
    let ghost s = v@.subrange(lo as int, hi as int);
    if lo == hi {
        return Err(IntErrorKind::Empty);
    }
    let mut i = lo;
    if v[lo] == '+' {
        if hi - lo == 1 {
            return Err(IntErrorKind::InvalidDigit);
        }
        i = lo + 1;
    }
    let mut acc: u32 = 0;
    assert(spec_parse_u8(s) == u8_digits(v@.subrange(i as int, hi as int), 0)) by {
        if v[lo as int] == '+' {
            assert(s.drop_first() =~= v@.subrange(i as int, hi as int));
        } else {
            assert(s =~= v@.subrange(i as int, hi as int));
        }
    }
    while i < hi
        invariant
            lo <= i <= hi <= v@.len(),
            acc <= 255,
            s == v@.subrange(lo as int, hi as int),
            spec_parse_u8(s) == u8_digits(v@.subrange(i as int, hi as int), acc as int),
        decreases hi - i,
    {
        let c = v[i];
        let ghost d = v@.subrange(i as int, hi as int);
        assert(d[0] == c);
        assert(d.drop_first() =~= v@.subrange(i + 1, hi as int));
        if !('0' <= c && c <= '9') {
            assert(u8_digits(d, acc as int) == Err::<u8, IntErrorKind>(IntErrorKind::InvalidDigit));
            return Err(IntErrorKind::InvalidDigit);
        }
        let digit = (c as u32) - ('0' as u32);
        assert(digit == d[0] as int - '0' as int);
        if acc * 10 + digit > 255 {
            assert(u8_digits(d, acc as int) == Err::<u8, IntErrorKind>(IntErrorKind::PosOverflow));
            return Err(IntErrorKind::PosOverflow);
        }
        acc = acc * 10 + digit;
        i += 1;
    }
    assert(v@.subrange(i as int, hi as int) =~= Seq::<char>::empty());
    Ok(acc as u8)
}

/// An interface prefix by its values: the interface, the network address
/// and the prefix length.
pub struct PrefixView {
    pub interface: Seq<char>,
    pub address: AddressView,
    pub prefix_len: u8,
}

/// A network that sightings on an interface must fall in.
#[derive(Clone, Debug)]
pub struct InterfacePrefix {
    interface: String,
    address: IpAddress,
    prefix_len: u8,
}

impl View for InterfacePrefix {
    type V = PrefixView;

    closed spec fn view(&self) -> PrefixView {
        PrefixView { interface: self.interface@, address: address_view(self.address), prefix_len: self.prefix_len }
    }
}

/// The message of each way a prefix text can be refused, as the prefix's
/// parser words it.
pub open spec fn length_error(k: IntErrorKind) -> Seq<char> {
    match k {
        IntErrorKind::Empty => "invalid prefix length: cannot parse integer from empty string"@,
        IntErrorKind::InvalidDigit => "invalid prefix length: invalid digit found in string"@,
        IntErrorKind::PosOverflow => "invalid prefix length: number too large to fit in target type"@,
    }
}

/// A prefix text `interface=address/length`: split at the first `=` and
/// the last `/`, the address an IP address, the length a byte no larger
/// than the address's bits, the interface not empty and shorter than the
/// interface limit in bytes.
pub open spec fn spec_parse_prefix(value: Seq<char>) -> Result<PrefixView, Seq<char>> {
    let i = first_index_of(value, '=');
    if i < 0 {
        Err("interface prefix must contain '='"@)
    } else {
        let interface = value.take(i);
        let cidr = value.skip(i + 1);
        let j = last_index_of(cidr, '/');
        if j < 0 {
            Err("interface prefix must contain '/'"@)
        } else {
            match parse_ip_bytes(encode_utf8(cidr.take(j))) {
                None => Err("invalid prefix address: invalid IP address syntax"@),
                Some(a) => match spec_parse_u8(cidr.skip(j + 1)) {
                    Err(k) => Err(length_error(k)),
                    Ok(n) => {
                        let maximum: int = if a is V4 {
                            32
                        } else {
                            128
                        };
                        if interface.len() == 0 || encode_utf8(interface).len() >= MAX_INTERFACE_LEN
                            || n > maximum {
                            Err("invalid interface prefix"@)
                        } else {
                            Ok(PrefixView { interface, address: a, prefix_len: n })
                        }
                    },
                },
            }
        }
    }
}

impl InterfacePrefix {
    /// Reads a prefix text `interface=address/length`.
    pub fn parse(value: &str) -> (r: Result<InterfacePrefix, String>)
        ensures
            match spec_parse_prefix(value@) {
                Ok(p) => r matches Ok(x) && x@ == p,
                Err(m) => r matches Err(e) && e@ == m,
            },
    {
        let cs = str_chars(value);
        proof {
            lemma_first_index_of(cs@, '=');
        }
        let i = match find_char(&cs, '=') {
            Some(i) => i,
            None => return Err("interface prefix must contain '='".to_owned()),
        };
        let n = cs.len();
        assert(cs@.skip(i + 1) =~= cs@.subrange(i + 1, n as int));
        let j = match rfind_char(&cs, i + 1, n, '/') {
            Some(j) => j,
            None => return Err("interface prefix must contain '/'".to_owned()),
        };
        let ghost cidr = cs@.skip(i + 1);
        let address_text = string_from_range(&cs, i + 1, i + 1 + j);
        assert(address_text@ =~= cidr.take(j as int));
        let address = match parse_ip(address_text.as_str()) {
            Some(a) => a,
            None => return Err("invalid prefix address: invalid IP address syntax".to_owned()),
        };
        assert(cidr.skip(j + 1) =~= cs@.subrange(i + 1 + j + 1, n as int));
        let prefix_len = match parse_u8_range(&cs, i + 1 + j + 1, n) {
            Ok(b) => b,
            Err(IntErrorKind::Empty) => return Err(
                "invalid prefix length: cannot parse integer from empty string".to_owned(),
            ),
            Err(IntErrorKind::InvalidDigit) => return Err(
                "invalid prefix length: invalid digit found in string".to_owned(),
            ),
            Err(IntErrorKind::PosOverflow) => return Err(
                "invalid prefix length: number too large to fit in target type".to_owned(),
            ),
        };
        let maximum: u8 = match address {
            IpAddress::V4(_) => 32,
            IpAddress::V6(_) => 128,
        };
        let interface = string_from_range(&cs, 0, i);
        assert(interface@ =~= cs@.take(i as int));
        if i == 0 || interface.as_str().as_bytes().len() >= MAX_INTERFACE_LEN || prefix_len > maximum {
            return Err("invalid interface prefix".to_owned());
        }
        Ok(InterfacePrefix { interface, address, prefix_len })
    }
}

impl std::str::FromStr for InterfacePrefix {
    type Err = String;

    fn from_str(value: &str) -> Result<InterfacePrefix, String> {
        InterfacePrefix::parse(value)
    }
}

/// The first `bits` bits of two addresses of the same length agree.
pub open spec fn bits_agree(x: Seq<u8>, y: Seq<u8>, bits: nat) -> bool {
    let full = (bits / 8) as int;
    let rem = bits % 8;
    &&& x.take(full) == y.take(full)
    &&& rem == 0 || (x[full] >> ((8 - rem) as u8)) == (y[full] >> ((8 - rem) as u8))
}

/// Whether the prefix's network holds `a`: the same family, and the first
/// `prefix_len` bits as the prefix's address.
pub open spec fn prefix_holds(p: PrefixView, a: AddressView) -> bool {
    match (p.address, a) {
        (AddressView::V4(x), AddressView::V4(y)) => p.prefix_len <= 32 && bits_agree(x, y, p.prefix_len as nat),
        (AddressView::V6(x), AddressView::V6(y)) => p.prefix_len <= 128 && bits_agree(x, y, p.prefix_len as nat),
        _ => false,
    }
}

fn bytes_agree(x: &[u8], y: &[u8], bits: u8) -> (r: bool)
    requires
        x@.len() == y@.len(),
        bits as int <= 8 * x@.len(),
    ensures
        r == bits_agree(x@, y@, bits as nat),
{
    let full = (bits / 8) as usize;
    let rem = bits % 8;
    let mut k: usize = 0;
    while k < full
        invariant
            k <= full,
            full as int == bits as int / 8,
            full <= x@.len(),
            x@.len() == y@.len(),
            x@.take(k as int) == y@.take(k as int),
        decreases full - k,
    {
        if x[k] != y[k] {
            assert(x@.take(full as int)[k as int] != y@.take(full as int)[k as int]);
            return false;
        }
        assert(x@.take(k + 1) =~= x@.take(k as int).push(x@[k as int]));
        assert(y@.take(k + 1) =~= y@.take(k as int).push(y@[k as int]));
        k += 1;
    }
    if rem == 0 {
        return true;
    }
    let shift: u8 = 8 - rem;
    (x[full] >> shift) == (y[full] >> shift)
}

fn prefix_contains(prefix: &InterfacePrefix, address: IpAddress) -> (r: bool)
    ensures
        r == prefix_holds(prefix@, address_view(address)),
{
    match (prefix.address, address) {
        (IpAddress::V4(x), IpAddress::V4(y)) => {
            if prefix.prefix_len > 32 {
                return false;
            }
            bytes_agree(x.as_slice(), y.as_slice(), prefix.prefix_len)
        },
        (IpAddress::V6(x), IpAddress::V6(y)) => {
            if prefix.prefix_len > 128 {
                return false;
            }
            bytes_agree(x.as_slice(), y.as_slice(), prefix.prefix_len)
        },
        _ => false,
    }
}

} // verus!

verus! {

/// The identity filter by its values: the selected interfaces, in the order
/// they were added, and the prefixes on them.
pub struct FilterView {
    pub interfaces: Seq<Seq<char>>,
    pub prefixes: Seq<PrefixView>,
}

/// Which sightings may become identities: with no interface selected,
/// every one; otherwise only those on a selected interface, and where
/// prefixes are given, only addresses within one of that interface's.
#[derive(Clone, Debug)]
pub struct IdentityFilter {
    interfaces: Vec<String>,
    prefixes: Vec<InterfacePrefix>,
}

pub open spec fn texts_view(v: Seq<String>) -> Seq<Seq<char>> {
    v.map_values(|s: String| s@)
}

pub open spec fn prefixes_view(v: Seq<InterfacePrefix>) -> Seq<PrefixView> {
    v.map_values(|p: InterfacePrefix| p@)
}

impl View for IdentityFilter {
    type V = FilterView;

    closed spec fn view(&self) -> FilterView {
        FilterView { interfaces: texts_view(self.interfaces@), prefixes: prefixes_view(self.prefixes@) }
    }
}

/// The filter with `name` selected, where it is a usable interface name
/// (not empty, shorter than the limit in bytes, no proxy or tunnel), there
/// is room, and it is not selected yet.
pub open spec fn spec_add_interface(f: FilterView, name: Seq<char>) -> FilterView {
    if name.len() == 0 || encode_utf8(name).len() >= MAX_INTERFACE_LEN || spec_excluded_identity_source(
        name,
    ) || f.interfaces.len() >= MAX_INTERFACES || f.interfaces.contains(name) {
        f
    } else {
        FilterView { interfaces: f.interfaces.push(name), ..f }
    }
}

/// The filter with `p` added, where there is room and its interface is
/// selected.
pub open spec fn spec_add_prefix(f: FilterView, p: PrefixView) -> FilterView {
    if f.prefixes.len() < MAX_PREFIXES && f.interfaces.contains(p.interface) {
        FilterView { prefixes: f.prefixes.push(p), ..f }
    } else {
        f
    }
}

/// The characters that part interface names in a configured value.
pub open spec fn filter_sep(c: char) -> bool {
    c == ',' || c == ' ' || c == '\t' || c == '\r' || c == '\n'
}

/// The pieces of `s` between separators, empty ones included.
pub open spec fn filter_pieces(s: Seq<char>) -> Seq<Seq<char>>
    decreases s.len(),
{
    if s.len() == 0 {
        seq![Seq::empty()]
    } else {
        let prev = filter_pieces(s.drop_last());
        if filter_sep(s.last()) {
            prev.push(Seq::empty())
        } else {
            prev.update(prev.len() - 1, prev.last().push(s.last()))
        }
    }
}

proof fn lemma_filter_pieces_len(s: Seq<char>)
    ensures
        filter_pieces(s).len() >= 1,
    decreases s.len(),
{
    if s.len() > 0 {
        lemma_filter_pieces_len(s.drop_last());
    }
}

/// The filter after trying each of `names` in turn.
pub open spec fn add_names(f: FilterView, names: Seq<Seq<char>>) -> FilterView
    decreases names.len(),
{
    if names.len() == 0 {
        f
    } else {
        spec_add_interface(add_names(f, names.drop_last()), names.last())
    }
}

/// The filter that configured values give: each value cut to its first
/// 255 bytes at a character boundary, then split into names.
pub open spec fn uci_filter(values: Seq<Seq<char>>) -> FilterView
    decreases values.len(),
{
    if values.len() == 0 {
        FilterView { interfaces: Seq::empty(), prefixes: Seq::empty() }
    } else {
        add_names(uci_filter(values.drop_last()), filter_pieces(fit_prefix(values.last(), 255)))
    }
}

/// Whether the filter lets a sighting of `address` on `interface` through.
pub open spec fn spec_allows(f: FilterView, interface: Seq<char>, address: Seq<char>) -> bool {
    if f.interfaces.len() == 0 {
        true
    } else if !f.interfaces.contains(interface) {
        false
    } else {
        match parse_ip_bytes(encode_utf8(address)) {
            None => false,
            Some(a) => f.prefixes.len() == 0 || exists|k: int|
                0 <= k < f.prefixes.len() && f.prefixes[k].interface == interface && #[trigger] prefix_holds(
                    f.prefixes[k],
                    a,
                ),
        }
    }
}

fn text_listed(v: &Vec<String>, name: &str) -> (r: bool)
    ensures
        r == texts_view(v@).contains(name@),
{
    let mut i: usize = 0;
    while i < v.len()
        invariant
            i <= v@.len(),
            forall|j: int| 0 <= j < i ==> texts_view(v@)[j] != name@,
        decreases v@.len() - i,
    {
        if str_eq(v[i].as_str(), name) {
            assert(texts_view(v@)[i as int] == name@);
            return true;
        }
        i += 1;
    }
    proof {
        if texts_view(v@).contains(name@) {
            let j = choose|j: int| 0 <= j < texts_view(v@).len() && texts_view(v@)[j] == name@;
            assert(texts_view(v@)[j] != name@);
        }
    }
    false
}

impl Default for IdentityFilter {
    fn default() -> (r: Self)
        ensures
            r@.interfaces.len() == 0,
            r@.prefixes.len() == 0,
    {
        IdentityFilter::disabled()
    }
}

impl IdentityFilter {
    /// The filter that lets every sighting through.
    pub fn disabled() -> (r: Self)
        ensures
            r@.interfaces.len() == 0,
            r@.prefixes.len() == 0,
    {
        IdentityFilter { interfaces: Vec::new(), prefixes: Vec::new() }
    }

    /// The filter of the configured interface values.
    pub fn from_uci_values(values: &[&str]) -> (r: Self)
        ensures
            r@ == uci_filter(values@.map_values(|v: &str| v@)),
    {
        let ghost vs = values@.map_values(|v: &str| v@);
        let mut filter = IdentityFilter::disabled();
        let mut i: usize = 0;
        proof {
            assert(vs.take(0) =~= Seq::<Seq<char>>::empty());
            assert(filter@.interfaces =~= Seq::<Seq<char>>::empty());
            assert(filter@.prefixes =~= Seq::<PrefixView>::empty());
        }
        while i < values.len()
            invariant
                i <= values@.len(),
                vs == values@.map_values(|v: &str| v@),
                filter@ == uci_filter(vs.take(i as int)),
            decreases values@.len() - i,
        {
            assert(vs.take(i + 1).drop_last() =~= vs.take(i as int));
            assert(vs.take(i + 1).last() == values@[i as int]@);
            filter.add_value(values[i]);
            i += 1;
        }
        assert(vs.take(i as int) =~= vs);
        filter
    }

    fn add_value(&mut self, value: &str)
        ensures
            final(self)@ == add_names(old(self)@, filter_pieces(fit_prefix(value@, 255))),
    {
        let window = bounded_ascii_token(value, 255);
        let cs = str_chars(window);
        let ghost start = self@;
        let mut cur: Vec<char> = Vec::new();
        let mut i: usize = 0;
        assert(cs@.take(0) =~= Seq::<char>::empty());
        assert(filter_pieces(Seq::<char>::empty()).drop_last() =~= Seq::<Seq<char>>::empty());
        while i < cs.len()
            invariant
                i <= cs@.len(),
                self@ == add_names(start, filter_pieces(cs@.take(i as int)).drop_last()),
                cur@ == filter_pieces(cs@.take(i as int)).last(),
            decreases cs@.len() - i,
        {
            let c = cs[i];
            let ghost t = cs@.take(i as int);
            let ghost prev = filter_pieces(t);
            proof {
                lemma_filter_pieces_len(t);
                assert(cs@.take(i + 1).drop_last() =~= t);
                assert(cs@.take(i + 1).last() == c);
            }
            if c == ',' || c == ' ' || c == '\t' || c == '\r' || c == '\n' {
                let name = string_from_chars(cur.as_slice());
                self.add_interface(name.as_str());
                cur = Vec::new();
                proof {
                    assert(prev.push(Seq::<char>::empty()).drop_last() =~= prev);
                    assert(prev =~= prev.drop_last().push(prev.last()));
                }
            } else {
                cur.push(c);
                proof {
                    let next = prev.update(prev.len() - 1, prev.last().push(c));
                    assert(next.drop_last() =~= prev.drop_last());
                }
            }
            i += 1;
        }
        let name = string_from_chars(cur.as_slice());
        self.add_interface(name.as_str());
        proof {
            let p = filter_pieces(cs@.take(i as int));
            lemma_filter_pieces_len(cs@.take(i as int));
            assert(cs@.take(i as int) =~= cs@);
            assert(p =~= p.drop_last().push(p.last()));
        }
    }

    fn add_interface(&mut self, interface: &str)
        ensures
            final(self)@ == spec_add_interface(old(self)@, interface@),
    {
        if interface.is_empty() || interface.as_bytes().len() >= MAX_INTERFACE_LEN
            || ifname_is_excluded_identity_source(interface) || self.interfaces.len() >= MAX_INTERFACES
            || text_listed(&self.interfaces, interface) {
            return;
        }
        let ghost before = self@;
        self.interfaces.push(interface.to_owned());
        assert(self@.interfaces =~= before.interfaces.push(interface@));
    }

    /// Adds a prefix on a selected interface, while there is room.
    pub fn add_prefix(&mut self, prefix: InterfacePrefix)
        ensures
            final(self)@ == spec_add_prefix(old(self)@, prefix@),
    {
        if self.prefixes.len() < MAX_PREFIXES && text_listed(&self.interfaces, prefix.interface.as_str()) {
            let ghost before = self@;
            let ghost pv = prefix@;
            self.prefixes.push(prefix);
            assert(self@.prefixes =~= before.prefixes.push(pv));
        }
    }

    /// The selected interfaces.
    pub fn interfaces(&self) -> (r: &[String])
        ensures
            texts_view(r@) == self@.interfaces,
    {
        self.interfaces.as_slice()
    }

    /// Whether any interface is selected.
    pub fn is_enabled(&self) -> (r: bool)
        ensures
            r == (self@.interfaces.len() > 0),
    {
        self.interfaces.len() > 0
    }

    /// Whether a sighting of `address` on `interface` may become an identity.
    pub fn allows(&self, interface: &str, address: &str) -> (r: bool)
        ensures
            r == spec_allows(self@, interface@, address@),
    {
        if self.interfaces.len() == 0 {
            return true;
        }
        if !text_listed(&self.interfaces, interface) {
            return false;
        }
        let parsed = match parse_ip(address) {
            Some(a) => a,
            None => return false,
        };
        if self.prefixes.len() == 0 {
            return true;
        }
        let ghost a = address_view(parsed);
        let mut k: usize = 0;
        while k < self.prefixes.len()
            invariant
                k <= self@.prefixes.len(),
                self@.prefixes == prefixes_view(self.prefixes@),
                a == address_view(parsed),
                self@.interfaces.len() > 0,
                self@.prefixes.len() > 0,
                self@.interfaces.contains(interface@),
                parse_ip_bytes(encode_utf8(address@)) == Some(a),
                forall|j: int|
                    0 <= j < k ==> !(self@.prefixes[j].interface == interface@ && #[trigger] prefix_holds(
                        self@.prefixes[j],
                        a,
                    )),
            decreases self@.prefixes.len() - k,
        {
            let p = &self.prefixes[k];
            assert(self@.prefixes[k as int] == p@);
            if str_eq(p.interface.as_str(), interface) && prefix_contains(p, parsed) {
                assert(self@.prefixes[k as int].interface == interface@ && prefix_holds(self@.prefixes[k as int], a));
                return true;
            }
            k += 1;
        }
        false
    }
}

} // verus!
