use vstd::prelude::*;
use crate::collectors::conntrack::address::{address_view, parse_ip, parse_ip_bytes, parse_ip_slice, AddressView};
use crate::bytes::{ascii_words, parse_dec, parse_dec_bytes, split_ascii_words};
use crate::identity::{spec_parse_mac, MacAddress};
use crate::collectors::conntrack::IpAddress;
use crate::connection_details::{bytes_compare, ip_compare, ip_eq, ip_order};
use crate::control::{contains_text, mac_eq, texts, parse_identity_key, ControlRule, spec_identity_key, spec_valid_interface_name, valid_interface_name, ControlPlatform, LiveClient};
use crate::identity::filter::{ifname_is_excluded_identity_source, spec_excluded_identity_source};
use crate::keyed::Named;
use crate::model::{AttachmentTrust, Client};

verus! {

proof fn lemma_bytes_compare_range(x: Seq<u8>, y: Seq<u8>)
    ensures
        -1 <= bytes_compare(x, y) <= 1,
        bytes_compare(x, y) == -bytes_compare(y, x),
    decreases x.len(),
{
    if x.len() > 0 && y.len() > 0 && x[0] == y[0] {
        lemma_bytes_compare_range(x.drop_first(), y.drop_first());
    }
}

proof fn lemma_bytes_compare_zero(x: Seq<u8>, y: Seq<u8>)
    requires
        x.len() == y.len(),
        bytes_compare(x, y) == 0,
    ensures
        x == y,
    decreases x.len(),
{
    if x.len() > 0 {
        lemma_bytes_compare_zero(x.drop_first(), y.drop_first());
        assert(x =~= seq![x[0]] + x.drop_first());
        assert(y =~= seq![y[0]] + y.drop_first());
    } else {
        assert(x =~= y);
    }
}

proof fn lemma_bytes_compare_trans(x: Seq<u8>, y: Seq<u8>, z: Seq<u8>)
    requires
        x.len() == y.len(),
        y.len() == z.len(),
        bytes_compare(x, y) < 0,
        bytes_compare(y, z) < 0,
    ensures
        bytes_compare(x, z) < 0,
    decreases x.len(),
{
    if x.len() > 0 && x[0] == y[0] && y[0] == z[0] {
        lemma_bytes_compare_trans(x.drop_first(), y.drop_first(), z.drop_first());
    }
}

/// Addresses in order: every IPv4 address before every IPv6 one, and by
/// octets within a family.
pub open spec fn ip_lt(a: IpAddress, b: IpAddress) -> bool {
    ip_compare(a, b) < 0
}

proof fn lemma_ip_order(a: IpAddress, b: IpAddress, c: IpAddress)
    ensures
        ip_compare(a, b) == -ip_compare(b, a),
        ip_compare(a, b) == 0 ==> a == b,
        ip_lt(a, b) && ip_lt(b, c) ==> ip_lt(a, c),
{
    match (a, b) {
        (IpAddress::V4(x), IpAddress::V4(y)) => {
            lemma_bytes_compare_range(x@, y@);
            if bytes_compare(x@, y@) == 0 {
                lemma_bytes_compare_zero(x@, y@);
                assert(x == y) by {
                    assert(x@ == y@);
                }
            }
        },
        (IpAddress::V6(x), IpAddress::V6(y)) => {
            lemma_bytes_compare_range(x@, y@);
            if bytes_compare(x@, y@) == 0 {
                lemma_bytes_compare_zero(x@, y@);
                assert(x == y) by {
                    assert(x@ == y@);
                }
            }
        },
        _ => {},
    }
    if ip_lt(a, b) && ip_lt(b, c) {
        match (a, b, c) {
            (IpAddress::V4(x), IpAddress::V4(y), IpAddress::V4(z)) => {
                lemma_bytes_compare_trans(x@, y@, z@);
            },
            (IpAddress::V6(x), IpAddress::V6(y), IpAddress::V6(z)) => {
                lemma_bytes_compare_trans(x@, y@, z@);
            },
            _ => {},
        }
    }
}

/// Strictly increasing: in order, and no address twice.
pub open spec fn ips_sorted(s: Seq<IpAddress>) -> bool {
    forall|i: int, j: int| 0 <= i < j < s.len() ==> #[trigger] ip_lt(s[i], s[j])
}

/// Adds `a` to a strictly increasing list, in its place, unless it is there.
pub fn insert_ip(list: &mut Vec<IpAddress>, a: IpAddress)
    requires
        ips_sorted(old(list)@),
    ensures
        ips_sorted(final(list)@),
        forall|x: IpAddress| #[trigger] final(list)@.contains(x) <==> old(list)@.contains(x) || x == a,
{
    let ghost s = list@;
    let mut p: usize = 0;
    while p < list.len()
        invariant
            p <= list@.len(),
            list@ == s,
            forall|i: int| 0 <= i < p ==> #[trigger] ip_lt(s[i], a),
        ensures
            p <= s.len(),
            list@ == s,
            forall|i: int| 0 <= i < p ==> #[trigger] ip_lt(s[i], a),
            p < s.len() ==> ip_compare(s[p as int], a) >= 0,
        decreases list.len() - p,
    {
        if ip_order(&list[p], &a) >= 0 {
            break;
        }
        p += 1;
    }
    if p < list.len() && ip_eq(&list[p], &a) {
        assert(s.contains(a) && s[p as int] == a);
        return;
    }
    proof {
        if p < s.len() {
            lemma_ip_order(s[p as int], a, a);
            assert(ip_compare(s[p as int], a) >= 0);
            assert(ip_compare(s[p as int], a) != 0) by {
                if ip_compare(s[p as int], a) == 0 {
                    lemma_ip_order(s[p as int], a, a);
                }
            }
            assert(ip_lt(a, s[p as int]));
        }
    }
    list.insert(p, a);
    proof {
        let t = list@;
        assert(t =~= s.insert(p as int, a));
        assert forall|i: int, j: int| 0 <= i < j < t.len() implies #[trigger] ip_lt(t[i], t[j]) by {
            if j < p {
                assert(ip_lt(s[i], s[j]));
            } else if j == p {
                assert(t[j] == a);
                assert(ip_lt(s[i], a));
            } else if i == p {
                assert(t[j] == s[j - 1]);
                if j - 1 > p {
                    assert(ip_lt(s[p as int], s[j - 1]));
                    lemma_ip_order(a, s[p as int], s[j - 1]);
                }
            } else if i < p {
                assert(t[j] == s[j - 1]);
                assert(ip_lt(s[i], s[j - 1]));
            } else {
                assert(t[i] == s[i - 1] && t[j] == s[j - 1]);
                assert(ip_lt(s[i - 1], s[j - 1]));
            }
        }
        assert forall|x: IpAddress| #[trigger] t.contains(x) <==> s.contains(x) || x == a by {
            if t.contains(x) {
                let w = choose|w: int| 0 <= w < t.len() && t[w] == x;
                if w < p {
                    assert(s[w] == x);
                } else if w > p {
                    assert(s[w - 1] == x);
                }
            }
            if s.contains(x) {
                let w = choose|w: int| 0 <= w < s.len() && s[w] == x;
                if w < p {
                    assert(t[w] == x);
                } else {
                    assert(t[w + 1] == x);
                }
            }
            if x == a {
                assert(t[p as int] == a);
            }
        }
    }
}

/// `a` is the address that one of `texts` spells.
pub open spec fn spelled_by(texts: Seq<String>, a: IpAddress) -> bool {
    exists|i: int|
        0 <= i < texts.len() && #[trigger] parse_ip_bytes(vstd::utf8::encode_utf8(texts[i]@))
            == Some(address_view(a))
}

/// The addresses that `texts` spell, in order and each once; texts that
/// spell no address are passed over.
pub fn normalize_ips(texts: &Vec<String>) -> (r: Vec<IpAddress>)
    ensures
        ips_sorted(r@),
        forall|a: IpAddress| #[trigger] r@.contains(a) <==> spelled_by(texts@, a),
{
    let mut out: Vec<IpAddress> = Vec::new();
    let mut i: usize = 0;
    while i < texts.len()
        invariant
            i <= texts@.len(),
            ips_sorted(out@),
            forall|a: IpAddress| #[trigger] out@.contains(a) <==> spelled_by(texts@.take(i as int), a),
        decreases texts.len() - i,
    {
        let ghost before = out@;
        match parse_ip(texts[i].as_str()) {
            Some(a) => {
                insert_ip(&mut out, a);
                proof {
                    assert forall|x: IpAddress| #[trigger] out@.contains(x) <==> spelled_by(texts@.take(i + 1), x) by {
                        lemma_spelled_step(texts@, i as int, x);
                        if x != a && parse_ip_bytes(vstd::utf8::encode_utf8(texts@[i as int]@)) == Some(address_view(x)) {
                            crate::collectors::conntrack::procfs::lemma_address_view_injective(x, a);
                        }
                    }
                }
            },
            None => {
                proof {
                    assert forall|x: IpAddress| #[trigger] out@.contains(x) <==> spelled_by(texts@.take(i + 1), x) by {
                        lemma_spelled_step(texts@, i as int, x);
                    }
                }
            },
        }
        i += 1;
    }
    proof {
        assert(texts@.take(i as int) =~= texts@);
    }
    out
}

proof fn lemma_spelled_step(texts: Seq<String>, i: int, x: IpAddress)
    requires
        0 <= i < texts.len(),
    ensures
        spelled_by(texts.take(i + 1), x) <==> spelled_by(texts.take(i), x) || parse_ip_bytes(
            vstd::utf8::encode_utf8(texts[i]@),
        ) == Some(address_view(x)),
{
    let a = texts.take(i + 1);
    let b = texts.take(i);
    if spelled_by(a, x) {
        let k = choose|k: int|
            0 <= k < a.len() && #[trigger] parse_ip_bytes(vstd::utf8::encode_utf8(a[k]@))
                == Some(address_view(x));
        if k < i {
            assert(b[k] == a[k]);
        }
    }
    if spelled_by(b, x) {
        let k = choose|k: int|
            0 <= k < b.len() && #[trigger] parse_ip_bytes(vstd::utf8::encode_utf8(b[k]@))
                == Some(address_view(x));
        assert(a[k] == b[k]);
    }
    if parse_ip_bytes(vstd::utf8::encode_utf8(texts[i]@)) == Some(address_view(x)) {
        assert(a[i] == texts[i]);
    }
}


/// The interface a client is controlled through: on the generic build its
/// own interface when that is a valid name and an identity source; on the
/// accelerated build the interface of a trusted attachment.
pub open spec fn control_interface(c: Client, platform: ControlPlatform) -> Option<Seq<char>> {
    match platform {
        ControlPlatform::Generic => if spec_valid_interface_name(c.interface@)
            && !spec_excluded_identity_source(c.interface@) {
            Some(c.interface@)
        } else {
            None
        },
        ControlPlatform::Nss => match c.rate_meta {
            Some(m) => match m.attachment {
                Some(a) => if a.trust == AttachmentTrust::AssociatedStation || a.trust
                    == AttachmentTrust::ObservedExclusive {
                    match a.ifname {
                        Some(n) => Some(n@),
                        None => None,
                    }
                } else {
                    None
                },
                None => None,
            },
            None => None,
        },
    }
}

fn control_interface_of(c: &Client, platform: ControlPlatform) -> (r: Option<String>)
    ensures
        match r {
            Some(n) => control_interface(*c, platform) == Some(n@),
            None => control_interface(*c, platform) is None,
        },
{
    match platform {
        ControlPlatform::Generic => {
            if valid_interface_name(c.interface.as_str()) && !ifname_is_excluded_identity_source(
                c.interface.as_str(),
            ) {
                Some(c.interface.clone())
            } else {
                None
            }
        },
        ControlPlatform::Nss => match &c.rate_meta {
            Some(m) => match &m.attachment {
                Some(a) => {
                    if a.trust == AttachmentTrust::AssociatedStation || a.trust
                        == AttachmentTrust::ObservedExclusive {
                        match &a.ifname {
                            Some(n) => Some(n.clone()),
                            None => None,
                        }
                    } else {
                        None
                    }
                },
                None => None,
            },
            None => None,
        },
    }
}

/// What is known of one controlled client while a snapshot is observed.
pub struct ObservedRow {
    pub identity_key: String,
    pub interface: Option<String>,
    pub ips: Vec<IpAddress>,
}

/// A row by its key, interface and set of addresses.
pub open spec fn row_entry(r: ObservedRow) -> (Option<Seq<char>>, Set<IpAddress>) {
    (
        match r.interface {
            Some(n) => Some(n@),
            None => None,
        },
        r.ips@.to_set(),
    )
}

/// The rows as a map from identity key; with distinct keys it loses nothing.
pub open spec fn rows_map(rows: Seq<ObservedRow>) -> Map<Seq<char>, (Option<Seq<char>>, Set<IpAddress>)>
    decreases rows.len(),
{
    if rows.len() == 0 {
        Map::empty()
    } else {
        rows_map(rows.drop_last()).insert(rows.last().identity_key@, row_entry(rows.last()))
    }
}

pub open spec fn keys_distinct(rows: Seq<ObservedRow>) -> bool {
    forall|i: int, j: int|
        0 <= i < j < rows.len() ==> #[trigger] rows[i].identity_key@ != #[trigger] rows[j].identity_key@
}

pub open spec fn rows_well_formed(rows: Seq<ObservedRow>) -> bool {
    &&& keys_distinct(rows)
    &&& forall|i: int| 0 <= i < rows.len() ==> #[trigger] ips_sorted(rows[i].ips@)
}

proof fn lemma_rows_map(rows: Seq<ObservedRow>)
    requires
        keys_distinct(rows),
    ensures
        forall|k: Seq<char>| #[trigger] rows_map(rows).contains_key(k) <==> exists|i: int|
            0 <= i < rows.len() && rows[i].identity_key@ == k,
        forall|i: int|
            0 <= i < rows.len() ==> #[trigger] rows_map(rows)[rows[i].identity_key@] == row_entry(
                rows[i],
            ),
    decreases rows.len(),
{
    if rows.len() > 0 {
        let d = rows.drop_last();
        assert forall|i: int, j: int| 0 <= i < j < d.len() implies #[trigger] d[i].identity_key@
            != #[trigger] d[j].identity_key@ by {
            assert(rows[i] == d[i] && rows[j] == d[j]);
        }
        lemma_rows_map(d);
        assert forall|k: Seq<char>| #[trigger] rows_map(rows).contains_key(k) <==> exists|i: int|
            0 <= i < rows.len() && rows[i].identity_key@ == k by {
            if rows_map(d).contains_key(k) {
                let i = choose|i: int| 0 <= i < d.len() && d[i].identity_key@ == k;
                assert(rows[i] == d[i]);
            }
            if exists|i: int| 0 <= i < rows.len() && rows[i].identity_key@ == k {
                let i = choose|i: int| 0 <= i < rows.len() && rows[i].identity_key@ == k;
                if i < d.len() {
                    assert(rows[i] == d[i]);
                }
            }
        }
        assert forall|i: int| 0 <= i < rows.len() implies #[trigger] rows_map(rows)[rows[i].identity_key@]
            == row_entry(rows[i]) by {
            if i < d.len() {
                assert(rows[i] == d[i]);
                assert(rows_map(d)[d[i].identity_key@] == row_entry(d[i]));
                assert(rows[i].identity_key@ != rows[rows.len() - 1].identity_key@);
            }
        }
    }
}

/// The map a snapshot's clients give, in order: each client with a valid
/// identity key is filed under it with its control interface and the
/// addresses its texts spell; a later client with the same key replaces an
/// earlier one.
pub open spec fn clients_map(clients: Seq<Client>, platform: ControlPlatform) -> Map<
    Seq<char>,
    (Option<Seq<char>>, Set<IpAddress>),
>
    decreases clients.len(),
{
    if clients.len() == 0 {
        Map::empty()
    } else {
        let prev = clients_map(clients.drop_last(), platform);
        let c = clients.last();
        if spec_identity_key(c.identity_key@) is Some {
            prev.insert(
                c.identity_key@,
                (control_interface(c, platform), Set::new(|a: IpAddress| spelled_by(c.ips@, a))),
            )
        } else {
            prev
        }
    }
}


proof fn lemma_rows_map_is(rows: Seq<ObservedRow>, m: Map<Seq<char>, (Option<Seq<char>>, Set<IpAddress>)>)
    requires
        keys_distinct(rows),
        forall|k: Seq<char>| #[trigger] m.contains_key(k) <==> exists|i: int|
            0 <= i < rows.len() && rows[i].identity_key@ == k,
        forall|i: int| 0 <= i < rows.len() ==> #[trigger] m[rows[i].identity_key@] == row_entry(rows[i]),
    ensures
        rows_map(rows) == m,
{
    lemma_rows_map(rows);
    assert forall|k: Seq<char>| #[trigger] rows_map(rows).contains_key(k) implies rows_map(rows)[k] == m[k] by {
        let i = choose|i: int| 0 <= i < rows.len() && rows[i].identity_key@ == k;
        assert(rows_map(rows)[rows[i].identity_key@] == row_entry(rows[i]));
    }
    assert(rows_map(rows) =~= m);
}

/// The row filed under `key`, if any.
fn find_row(rows: &Vec<ObservedRow>, key: &String) -> (r: Option<usize>)
    ensures
        match r {
            Some(p) => p < rows@.len() && rows@[p as int].identity_key@ == key@,
            None => forall|i: int| 0 <= i < rows@.len() ==> #[trigger] rows@[i].identity_key@ != key@,
        },
{
    let mut i: usize = 0;
    while i < rows.len()
        invariant
            i <= rows@.len(),
            forall|j: int| 0 <= j < i ==> #[trigger] rows@[j].identity_key@ != key@,
        decreases rows.len() - i,
    {
        if crate::text::str_eq(rows[i].identity_key.as_str(), key.as_str()) {
            return Some(i);
        }
        i += 1;
    }
    None
}

/// Files `row` under its key: in place of the row that has it, else added.
fn file_row(rows: &mut Vec<ObservedRow>, row: ObservedRow)
    requires
        rows_well_formed(old(rows)@),
        ips_sorted(row.ips@),
    ensures
        rows_well_formed(final(rows)@),
        rows_map(final(rows)@) == rows_map(old(rows)@).insert(row.identity_key@, row_entry(row)),
{
    let ghost old_rows = rows@;
    let ghost k = row.identity_key@;
    let ghost e = row_entry(row);
    proof {
        lemma_rows_map(old_rows);
    }
    match find_row(rows, &row.identity_key) {
        Some(p) => {
            rows.set(p, row);
            proof {
                let t = rows@;
                assert forall|i: int, j: int| 0 <= i < j < t.len() implies #[trigger] t[i].identity_key@
                    != #[trigger] t[j].identity_key@ by {
                    if i != p && j != p {
                        assert(old_rows[i].identity_key@ != old_rows[j].identity_key@);
                    } else if i == p {
                        assert(old_rows[p as int].identity_key@ != old_rows[j].identity_key@);
                    } else {
                        assert(old_rows[i].identity_key@ != old_rows[p as int].identity_key@);
                    }
                }
                let m = rows_map(old_rows).insert(k, e);
                assert forall|kk: Seq<char>| #[trigger] m.contains_key(kk) <==> exists|i: int|
                    0 <= i < t.len() && t[i].identity_key@ == kk by {
                    if rows_map(old_rows).contains_key(kk) && kk != k {
                        let i = choose|i: int| 0 <= i < old_rows.len() && old_rows[i].identity_key@ == kk;
                        assert(t[i] == old_rows[i]);
                    }
                    if kk == k {
                        assert(t[p as int].identity_key@ == k);
                    }
                    if exists|i: int| 0 <= i < t.len() && t[i].identity_key@ == kk {
                        let i = choose|i: int| 0 <= i < t.len() && t[i].identity_key@ == kk;
                        if i != p {
                            assert(old_rows[i] == t[i]);
                        }
                    }
                }
                assert forall|i: int| 0 <= i < t.len() implies #[trigger] m[t[i].identity_key@] == row_entry(t[i]) by {
                    if i != p {
                        assert(t[i] == old_rows[i]);
                        assert(old_rows[i].identity_key@ != old_rows[p as int].identity_key@);
                        assert(rows_map(old_rows)[old_rows[i].identity_key@] == row_entry(old_rows[i]));
                    }
                }
                lemma_rows_map_is(t, m);
            }
        },
        None => {
            rows.push(row);
            proof {
                let t = rows@;
                assert(t.drop_last() =~= old_rows);
                assert forall|i: int, j: int| 0 <= i < j < t.len() implies #[trigger] t[i].identity_key@
                    != #[trigger] t[j].identity_key@ by {
                    if j < old_rows.len() {
                        assert(old_rows[i].identity_key@ != old_rows[j].identity_key@);
                    } else {
                        assert(old_rows[i].identity_key@ != k);
                    }
                }
            }
        },
    }
}

/// Whether `ips` holds an address of the same family as `a`.
pub open spec fn same_family(a: IpAddress, b: IpAddress) -> bool {
    (a is V4) == (b is V4)
}

pub open spec fn has_family(s: Set<IpAddress>, a: IpAddress) -> bool {
    exists|x: IpAddress| s.contains(x) && #[trigger] same_family(x, a)
}

/// A client's addresses after its leases: each leased address is added
/// where the client has no address of its family yet.
pub open spec fn with_leases(s: Set<IpAddress>, addrs: Seq<IpAddress>) -> Set<IpAddress>
    decreases addrs.len(),
{
    if addrs.len() == 0 {
        s
    } else {
        let prev = with_leases(s, addrs.drop_last());
        if has_family(prev, addrs.last()) {
            prev
        } else {
            prev.insert(addrs.last())
        }
    }
}

/// The map after the leases, in order: each lease's client, filed with no
/// interface and no address where there was none, gets its leased addresses.
pub open spec fn leases_map(
    m: Map<Seq<char>, (Option<Seq<char>>, Set<IpAddress>)>,
    leases: Seq<Named<Vec<IpAddress>>>,
) -> Map<Seq<char>, (Option<Seq<char>>, Set<IpAddress>)>
    decreases leases.len(),
{
    if leases.len() == 0 {
        m
    } else {
        let prev = leases_map(m, leases.drop_last());
        let l = leases.last();
        let base = if prev.contains_key(l.name@) {
            prev[l.name@]
        } else {
            (None, Set::empty())
        };
        prev.insert(l.name@, (base.0, with_leases(base.1, l.value@)))
    }
}

fn has_family_exec(ips: &Vec<IpAddress>, a: &IpAddress) -> (r: bool)
    ensures
        r == has_family(ips@.to_set(), *a),
{
    let mut i: usize = 0;
    while i < ips.len()
        invariant
            i <= ips@.len(),
            forall|j: int| 0 <= j < i ==> !#[trigger] same_family(ips@[j], *a),
        decreases ips.len() - i,
    {
        let same = match (&ips[i], a) {
            (IpAddress::V4(_), IpAddress::V4(_)) => true,
            (IpAddress::V6(_), IpAddress::V6(_)) => true,
            _ => false,
        };
        assert(same == same_family(ips@[i as int], *a));
        if same {
            assert(ips@.to_set().contains(ips@[i as int]));
            assert(same_family(ips@[i as int], *a));
            return true;
        }
        i += 1;
    }
    assert forall|x: IpAddress| ips@.to_set().contains(x) implies !#[trigger] same_family(x, *a) by {
        let j = choose|j: int| 0 <= j < ips@.len() && ips@[j] == x;
    }
    false
}

/// Adds a client's leased addresses, each where the client has no address
/// of its family yet, keeping the addresses in order.
fn add_leased(ips: &mut Vec<IpAddress>, addrs: &Vec<IpAddress>)
    requires
        ips_sorted(old(ips)@),
    ensures
        ips_sorted(final(ips)@),
        final(ips)@.to_set() == with_leases(old(ips)@.to_set(), addrs@),
{
    let ghost s0 = ips@.to_set();
    let mut i: usize = 0;
    while i < addrs.len()
        invariant
            i <= addrs@.len(),
            ips_sorted(ips@),
            ips@.to_set() == with_leases(s0, addrs@.take(i as int)),
        decreases addrs.len() - i,
    {
        let ghost before = ips@.to_set();
        assert(addrs@.take(i + 1).drop_last() =~= addrs@.take(i as int));
        assert(addrs@.take(i + 1).last() == addrs@[i as int]);
        if !has_family_exec(ips, &addrs[i]) {
            insert_ip(ips, addrs[i]);
            assert(ips@.to_set() =~= before.insert(addrs@[i as int]));
        }
        i += 1;
    }
    assert(addrs@.take(i as int) =~= addrs@);
}

/// The leased addresses of each client, as the DHCP lease file gives them,
/// merged into the rows.
fn merge_leases(rows: &mut Vec<ObservedRow>, leases: &Vec<Named<Vec<IpAddress>>>)
    requires
        rows_well_formed(old(rows)@),
    ensures
        rows_well_formed(final(rows)@),
        rows_map(final(rows)@) == leases_map(rows_map(old(rows)@), leases@),
{
    let ghost m0 = rows_map(rows@);
    let mut i: usize = 0;
    while i < leases.len()
        invariant
            i <= leases@.len(),
            rows_well_formed(rows@),
            rows_map(rows@) == leases_map(m0, leases@.take(i as int)),
        decreases leases.len() - i,
    {
        let ghost prev = rows_map(rows@);
        proof {
            lemma_rows_map(rows@);
            assert(leases@.take(i + 1).drop_last() =~= leases@.take(i as int));
            assert(leases@.take(i + 1).last() == leases@[i as int]);
        }
        let lease = &leases[i];
        let (interface, mut ips) = match find_row(rows, &lease.name) {
            Some(p) => {
                assert(prev[rows@[p as int].identity_key@] == row_entry(rows@[p as int]));
                let iface = match &rows[p].interface {
                    Some(n) => Some(n.clone()),
                    None => None,
                };
                (iface, copy_ips(&rows[p].ips))
            },
            None => {
                let v: Vec<IpAddress> = Vec::new();
                assert(v@.to_set() =~= Set::<IpAddress>::empty());
                (None, v)
            },
        };
        add_leased(&mut ips, &lease.value);
        let row = ObservedRow { identity_key: lease.name.clone(), interface, ips };
        file_row(rows, row);
        i += 1;
    }
    assert(leases@.take(i as int) =~= leases@);
}

fn copy_ips(v: &Vec<IpAddress>) -> (r: Vec<IpAddress>)
    ensures
        r@ == v@,
{
    let mut out: Vec<IpAddress> = Vec::new();
    let mut i: usize = 0;
    while i < v.len()
        invariant
            i <= v@.len(),
            out@ == v@.take(i as int),
        decreases v.len() - i,
    {
        out.push(v[i]);
        assert(out@ =~= v@.take(i + 1));
        i += 1;
    }
    assert(v@.take(i as int) =~= v@);
    out
}


/// The control interface of a client with a valid identity key among the
/// first `n` clients is `name`.
pub open spec fn interface_seen(clients: Seq<Client>, platform: ControlPlatform, name: Seq<char>) -> bool {
    exists|i: int|
        0 <= i < clients.len() && spec_identity_key(clients[i].identity_key@) is Some
            && #[trigger] control_interface(clients[i], platform) == Some(name)
}

proof fn lemma_interface_seen_step(clients: Seq<Client>, i: int, platform: ControlPlatform, n: Seq<char>)
    requires
        0 <= i < clients.len(),
    ensures
        interface_seen(clients.take(i + 1), platform, n) <==> interface_seen(clients.take(i), platform, n)
            || (spec_identity_key(clients[i].identity_key@) is Some && control_interface(clients[i], platform)
            == Some(n)),
{
    let tk = clients.take(i);
    let tk1 = clients.take(i + 1);
    if interface_seen(tk, platform, n) {
        let w = choose|w: int| 0 <= w < tk.len() && spec_identity_key(tk[w].identity_key@) is Some
            && #[trigger] control_interface(tk[w], platform) == Some(n);
        assert(tk1[w] == tk[w]);
    }
    if interface_seen(tk1, platform, n) {
        let w = choose|w: int| 0 <= w < tk1.len() && spec_identity_key(tk1[w].identity_key@) is Some
            && #[trigger] control_interface(tk1[w], platform) == Some(n);
        if w < tk.len() {
            assert(tk[w] == tk1[w]);
        }
    }
    if spec_identity_key(clients[i].identity_key@) is Some && control_interface(clients[i], platform) == Some(n) {
        assert(tk1[i] == clients[i]);
    }
}

/// Adds a control device unless it is listed.
fn note_device(devices: &mut Vec<String>, interface: &Option<String>)
    ensures
        texts(final(devices)@) == match interface {
            Some(n) => if texts(old(devices)@).contains(n@) {
                texts(old(devices)@)
            } else {
                texts(old(devices)@).push(n@)
            },
            None => texts(old(devices)@),
        },
{
    match interface {
        Some(n) => {
            if !contains_text(devices, n) {
                let ghost before = texts(devices@);
                devices.push(n.clone());
                assert(texts(devices@) =~= before.push(n@));
            }
        },
        None => {},
    }
}

/// The rows a snapshot's clients give, and the control devices extended by
/// each interface they are controlled through.
#[verifier::rlimit(40)]
fn rows_of_clients(clients: &Vec<Client>, platform: ControlPlatform, devices: &mut Vec<String>) -> (r:
    Vec<ObservedRow>)
    ensures
        rows_well_formed(r@),
        rows_map(r@) == clients_map(clients@, platform),
        old(devices)@.len() <= final(devices)@.len(),
        texts(final(devices)@).take(old(devices)@.len() as int) == texts(old(devices)@),
        forall|n: Seq<char>| #[trigger] texts(final(devices)@).contains(n) <==> texts(old(devices)@).contains(n)
            || interface_seen(clients@, platform, n),
{
    let mut rows: Vec<ObservedRow> = Vec::new();
    let ghost d0 = texts(devices@);
    let mut i: usize = 0;
    proof {
        assert(rows_map(rows@) =~= clients_map(clients@.take(0), platform));
    }
    while i < clients.len()
        invariant
            i <= clients@.len(),
            rows_well_formed(rows@),
            rows_map(rows@) == clients_map(clients@.take(i as int), platform),
            d0.len() <= texts(devices@).len(),
            texts(devices@).take(d0.len() as int) == d0,
            forall|n: Seq<char>| #[trigger] texts(devices@).contains(n) <==> d0.contains(n)
                || interface_seen(clients@.take(i as int), platform, n),
        decreases clients.len() - i,
    {
        let c = &clients[i];
        let ghost before = texts(devices@);
        let ghost tk = clients@.take(i as int);
        let ghost tk1 = clients@.take(i + 1);
        assert(tk1.drop_last() =~= tk);
        assert(tk1.last() == clients@[i as int]);
        let valid = match parse_identity_key(c.identity_key.as_str()) {
            Ok(_) => true,
            Err(_) => false,
        };
        let ghost added: Option<Seq<char>> = None;
        if valid {
            let interface = control_interface_of(c, platform);
            note_device(devices, &interface);
            proof {
                added = control_interface(clients@[i as int], platform);
            }
            let ips = normalize_ips(&c.ips);
            let ghost entry_set = Set::new(|a: IpAddress| spelled_by(c.ips@, a));
            assert(ips@.to_set() =~= entry_set);
            let row = ObservedRow { identity_key: c.identity_key.clone(), interface, ips };
            file_row(&mut rows, row);
        }
        assert(valid == (spec_identity_key(clients@[i as int].identity_key@) is Some));
        assert(valid ==> added == control_interface(clients@[i as int], platform));
        assert(texts(devices@) == match added {
            Some(n) => if before.contains(n) {
                before
            } else {
                before.push(n)
            },
            None => before,
        });
        proof {
            assert forall|n: Seq<char>| #[trigger] texts(devices@).contains(n) <==> d0.contains(n)
                || interface_seen(tk1, platform, n) by {
                lemma_interface_seen_step(clients@, i as int, platform, n);
                assert(texts(devices@).contains(n) <==> before.contains(n) || added == Some(n)) by {
                    match added {
                        Some(m) => {
                            if !before.contains(m) {
                                let t = before.push(m);
                                if t.contains(n) {
                                    let w = choose|w: int| 0 <= w < t.len() && t[w] == n;
                                    if w < before.len() {
                                        assert(before[w] == n);
                                    }
                                }
                                if before.contains(n) {
                                    let w = choose|w: int| 0 <= w < before.len() && before[w] == n;
                                    assert(t[w] == n);
                                }
                                if n == m {
                                    assert(t[before.len() as int] == n);
                                }
                            }
                        },
                        None => {},
                    }
                }
            }
            assert(texts(devices@).take(d0.len() as int) =~= d0) by {
                assert(before.take(d0.len() as int) == d0);
            }
        }
        i += 1;
    }
    assert(clients@.take(i as int) =~= clients@);
    rows
}


/// An address of the client filed under `k` is also another client's.
pub open spec fn ambiguous_in(m: Map<Seq<char>, (Option<Seq<char>>, Set<IpAddress>)>, k: Seq<char>) -> bool {
    exists|x: IpAddress, k2: Seq<char>|
        k2 != k && m.contains_key(k2) && #[trigger] m[k].1.contains(x) && #[trigger] m[k2].1.contains(x)
}

pub open spec fn row_ambiguous(rows: Seq<ObservedRow>, i: int) -> bool {
    exists|j: int, x: IpAddress|
        0 <= j < rows.len() && j != i && #[trigger] rows[i].ips@.contains(x) && #[trigger] rows[j].ips@.contains(x)
}

proof fn lemma_row_ambiguous(rows: Seq<ObservedRow>, i: int)
    requires
        keys_distinct(rows),
        0 <= i < rows.len(),
    ensures
        row_ambiguous(rows, i) == ambiguous_in(rows_map(rows), rows[i].identity_key@),
{
    lemma_rows_map(rows);
    let m = rows_map(rows);
    let k = rows[i].identity_key@;
    assert(m[k] == row_entry(rows[i]));
    if row_ambiguous(rows, i) {
        let (j, x) = choose|j: int, x: IpAddress|
            0 <= j < rows.len() && j != i && #[trigger] rows[i].ips@.contains(x) && #[trigger] rows[j].ips@.contains(x);
        let k2 = rows[j].identity_key@;
        assert(m[k2] == row_entry(rows[j]));
        if i < j {
            assert(rows[i].identity_key@ != rows[j].identity_key@);
        } else {
            assert(rows[j].identity_key@ != rows[i].identity_key@);
        }
        assert(m.contains_key(k2));
        assert(m[k].1.contains(x) && m[k2].1.contains(x));
    }
    if ambiguous_in(m, k) {
        let (x, k2) = choose|x: IpAddress, k2: Seq<char>|
            k2 != k && m.contains_key(k2) && #[trigger] m[k].1.contains(x) && #[trigger] m[k2].1.contains(x);
        let j = choose|j: int| 0 <= j < rows.len() && rows[j].identity_key@ == k2;
        assert(m[k2] == row_entry(rows[j]));
        assert(rows[i].ips@.contains(x) && rows[j].ips@.contains(x));
    }
}

fn holds_ip(ips: &Vec<IpAddress>, a: &IpAddress) -> (r: bool)
    ensures
        r == ips@.contains(*a),
{
    let mut i: usize = 0;
    while i < ips.len()
        invariant
            i <= ips@.len(),
            forall|j: int| 0 <= j < i ==> ips@[j] != *a,
        decreases ips.len() - i,
    {
        if ip_eq(&ips[i], a) {
            return true;
        }
        i += 1;
    }
    false
}

fn ambiguous_row(rows: &Vec<ObservedRow>, i: usize) -> (r: bool)
    requires
        i < rows@.len(),
    ensures
        r == row_ambiguous(rows@, i as int),
{
    let ips = &rows[i].ips;
    let mut p: usize = 0;
    while p < ips.len()
        invariant
            i < rows@.len(),
            ips@ == rows@[i as int].ips@,
            p <= ips@.len(),
            forall|q: int, j: int|
                0 <= q < p && 0 <= j < rows@.len() && j != i ==> !#[trigger] rows@[j].ips@.contains(#[trigger] ips@[q]),
        decreases ips.len() - p,
    {
        let mut j: usize = 0;
        while j < rows.len()
            invariant
                i < rows@.len(),
                p < ips@.len(),
                ips@ == rows@[i as int].ips@,
                j <= rows@.len(),
                forall|q: int, jj: int|
                    0 <= q < p && 0 <= jj < rows@.len() && jj != i ==> !#[trigger] rows@[jj].ips@.contains(#[trigger] ips@[q]),
                forall|jj: int| 0 <= jj < j && jj != i ==> !#[trigger] rows@[jj].ips@.contains(ips@[p as int]),
            decreases rows.len() - j,
        {
            if j != i && holds_ip(&rows[j].ips, &ips[p]) {
                assert(rows@[i as int].ips@.contains(ips@[p as int]));
                assert(rows@[j as int].ips@.contains(ips@[p as int]));
                return true;
            }
            j += 1;
        }
        p += 1;
    }
    proof {
        if row_ambiguous(rows@, i as int) {
            let (j, x) = choose|j: int, x: IpAddress|
                0 <= j < rows@.len() && j != i && #[trigger] rows@[i as int].ips@.contains(x)
                    && #[trigger] rows@[j].ips@.contains(x);
            let q = choose|q: int| 0 <= q < ips@.len() && ips@[q] == x;
            assert(!rows@[j].ips@.contains(ips@[q]));
        }
    }
    false
}

/// The addresses as text, in order.
pub open spec fn ip_texts(s: Seq<IpAddress>) -> Seq<Seq<char>> {
    s.map_values(|a: IpAddress| crate::collectors::conntrack::address::ip_text(a))
}

/// A live client as the map files it: its interface, its addresses in
/// order and each once, and whether one of them is another client's too.
pub open spec fn live_as_filed(l: LiveClient, m: Map<Seq<char>, (Option<Seq<char>>, Set<IpAddress>)>) -> bool {
    let k = l.identity_key@;
    &&& m.contains_key(k)
    &&& match l.interface {
        Some(n) => m[k].0 == Some(n@),
        None => m[k].0 is None,
    }
    &&& l.ambiguous == ambiguous_in(m, k)
    &&& exists|s: Seq<IpAddress>| ips_sorted(s) && s.to_set() == m[k].1 && #[trigger] texts(l.ips@) == ip_texts(s)
}

/// The live clients of a map: one per key, each as filed.
pub open spec fn live_of(live: Seq<LiveClient>, m: Map<Seq<char>, (Option<Seq<char>>, Set<IpAddress>)>) -> bool {
    &&& forall|i: int, j: int|
        0 <= i < j < live.len() ==> #[trigger] live[i].identity_key@ != #[trigger] live[j].identity_key@
    &&& forall|k: Seq<char>| #[trigger] m.contains_key(k) <==> exists|i: int|
        0 <= i < live.len() && live[i].identity_key@ == k
    &&& forall|i: int| 0 <= i < live.len() ==> #[trigger] live_as_filed(live[i], m)
}

fn ip_text_list(ips: &Vec<IpAddress>) -> (r: Vec<String>)
    ensures
        texts(r@) == ip_texts(ips@),
{
    let mut out: Vec<String> = Vec::new();
    let mut i: usize = 0;
    while i < ips.len()
        invariant
            i <= ips@.len(),
            texts(out@) == ip_texts(ips@.take(i as int)),
        decreases ips.len() - i,
    {
        let t = ips[i].text();
        let ghost before = texts(out@);
        out.push(t);
        assert(texts(out@) =~= before.push(t@));
        assert(ip_texts(ips@.take(i + 1)) =~= ip_texts(ips@.take(i as int)).push(
            crate::collectors::conntrack::address::ip_text(ips@[i as int]),
        ));
        i += 1;
    }
    assert(ips@.take(i as int) =~= ips@);
    out
}

/// The live clients the rows give.
fn live_of_rows(rows: &Vec<ObservedRow>) -> (r: Vec<LiveClient>)
    requires
        rows_well_formed(rows@),
    ensures
        live_of(r@, rows_map(rows@)),
{
    let ghost m = rows_map(rows@);
    proof {
        lemma_rows_map(rows@);
    }
    let mut out: Vec<LiveClient> = Vec::new();
    let mut i: usize = 0;
    while i < rows.len()
        invariant
            i <= rows@.len(),
            rows_well_formed(rows@),
            m == rows_map(rows@),
            forall|k: Seq<char>| #[trigger] m.contains_key(k) <==> exists|q: int|
                0 <= q < rows@.len() && rows@[q].identity_key@ == k,
            forall|q: int| 0 <= q < rows@.len() ==> #[trigger] m[rows@[q].identity_key@] == row_entry(rows@[q]),
            out@.len() == i,
            forall|q: int| 0 <= q < i ==> #[trigger] out@[q].identity_key@ == rows@[q].identity_key@,
            forall|q: int| 0 <= q < i ==> #[trigger] live_as_filed(out@[q], m),
        decreases rows.len() - i,
    {
        let row = &rows[i];
        let ambiguous = ambiguous_row(rows, i);
        proof {
            lemma_row_ambiguous(rows@, i as int);
        }
        let interface = match &row.interface {
            Some(n) => Some(n.clone()),
            None => None,
        };
        let ips = ip_text_list(&row.ips);
        let l = LiveClient { identity_key: row.identity_key.clone(), interface, ips, ambiguous };
        proof {
            let k = rows@[i as int].identity_key@;
            assert(m[k] == row_entry(rows@[i as int]));
            assert(ips_sorted(rows@[i as int].ips@));
            assert(texts(l.ips@) == ip_texts(rows@[i as int].ips@));
            assert(m.contains_key(k));
            assert(live_as_filed(l, m));
        }
        out.push(l);
        i += 1;
    }
    proof {
        assert forall|a: int, b: int| 0 <= a < b < out@.len() implies #[trigger] out@[a].identity_key@
            != #[trigger] out@[b].identity_key@ by {
            assert(rows@[a].identity_key@ != rows@[b].identity_key@);
        }
        assert forall|k: Seq<char>| #[trigger] m.contains_key(k) <==> exists|q: int|
            0 <= q < out@.len() && out@[q].identity_key@ == k by {
            if m.contains_key(k) {
                let q = choose|q: int| 0 <= q < rows@.len() && rows@[q].identity_key@ == k;
                assert(out@[q].identity_key@ == k);
            }
        }
    }
    out
}

/// Replaces the live clients by those a snapshot gives: one per valid
/// identity key (the last client with it), through the interface it is
/// controlled by, with the addresses its texts spell in order and each
/// once, merged with its leased addresses; a client is ambiguous exactly
/// when one of its addresses is another client's too. Every interface a
/// client is controlled through joins the control devices.
pub fn observe_clients(
    clients: &Vec<Client>,
    leases: &Vec<Named<Vec<IpAddress>>>,
    devices: &mut Vec<String>,
    platform: ControlPlatform,
) -> (live: Vec<LiveClient>)
    ensures
        live_of(live@, leases_map(clients_map(clients@, platform), leases@)),
        old(devices)@.len() <= final(devices)@.len(),
        texts(final(devices)@).take(old(devices)@.len() as int) == texts(old(devices)@),
        forall|n: Seq<char>| #[trigger] texts(final(devices)@).contains(n) <==> texts(old(devices)@).contains(n)
            || interface_seen(clients@, platform, n),
{
    let mut rows = rows_of_clients(clients, platform, devices);
    merge_leases(&mut rows, leases);
    live_of_rows(&rows)
}


/// How many lines of the DHCP lease file are read, and the longest line
/// that is taken.
pub const CONTROL_DHCP_LEASE_MAX_LINES: usize = 4096;

pub const CONTROL_DHCP_LEASE_MAX_LINE_BYTES: usize = 512;

/// What a lease line gives: the client's MAC and leased address, where the
/// line is not too long, its expiry (zero for never) is still ahead, and
/// its first three fields are an expiry, a MAC and an address.
pub open spec fn spec_lease_line(l: Seq<u8>, now: u64) -> Option<(Seq<u8>, AddressView)> {
    let w = ascii_words(l);
    if l.len() > CONTROL_DHCP_LEASE_MAX_LINE_BYTES || w.len() < 1 {
        None
    } else {
        match parse_dec(w[0], u64::MAX as nat) {
            None => None,
            Some(expiry) => if expiry != 0 && expiry <= now {
                None
            } else if w.len() < 2 {
                None
            } else {
                match spec_parse_mac(w[1]) {
                    None => None,
                    Some(mac) => if w.len() < 3 {
                        None
                    } else {
                        match parse_ip_bytes(w[2]) {
                            None => None,
                            Some(ip) => Some((mac, ip)),
                        }
                    },
                }
            },
        }
    }
}

fn lease_line(l: &[u8], now: u64) -> (r: Option<(MacAddress, IpAddress)>)
    ensures
        match r {
            Some((m, a)) => spec_lease_line(l@, now) == Some((m@, address_view(a))),
            None => spec_lease_line(l@, now) is None,
        },
{
    if l.len() > CONTROL_DHCP_LEASE_MAX_LINE_BYTES {
        return None;
    }
    let words = split_ascii_words(l);
    let ghost w = ascii_words(l@);
    assert(words@.len() == w.len());
    if words.len() < 1 {
        return None;
    }
    assert(words@[0]@ == w[0]);
    let expiry = match parse_dec_bytes(words[0].as_slice(), u64::MAX) {
        Some(v) => v,
        None => {
            return None;
        },
    };
    if expiry != 0 && expiry <= now {
        return None;
    }
    if words.len() < 2 {
        return None;
    }
    assert(words@[1]@ == w[1]);
    let mac = match MacAddress::parse_bytes(words[1].as_slice()) {
        Some(m) => m,
        None => {
            return None;
        },
    };
    if words.len() < 3 {
        return None;
    }
    assert(words@[2]@ == w[2]);
    match parse_ip_slice(words[2].as_slice()) {
        Some(a) => Some((mac, a)),
        None => None,
    }
}

/// Address `a` is leased to the client of key `k`: one of the first lines
/// (at most the line limit) leases it to a MAC that a rule for `k` names.
pub open spec fn leased(lines: Seq<Vec<u8>>, rules: Seq<ControlRule>, now: u64, k: Seq<char>, a: IpAddress) -> bool {
    exists|i: int, j: int|
        0 <= i < lines.len() && i < CONTROL_DHCP_LEASE_MAX_LINES && 0 <= j < rules.len()
            && rules[j].identity_key@ == k && #[trigger] spec_lease_line(lines[i]@, now) == Some(
            (#[trigger] rules[j].mac@, address_view(a)),
        )
}

pub open spec fn has_name(v: Seq<Named<Vec<IpAddress>>>, k: Seq<char>) -> bool {
    exists|i: int| 0 <= i < v.len() && #[trigger] v[i].name@ == k
}

pub open spec fn named_keys_distinct(v: Seq<Named<Vec<IpAddress>>>) -> bool {
    forall|i: int, j: int| 0 <= i < j < v.len() ==> #[trigger] v[i].name@ != #[trigger] v[j].name@
}

/// Files address `a` under `key`, in order and once.
fn add_lease(out: &mut Vec<Named<Vec<IpAddress>>>, key: &String, a: IpAddress)
    requires
        named_keys_distinct(old(out)@),
        forall|i: int| 0 <= i < old(out)@.len() ==> #[trigger] ips_sorted(old(out)@[i].value@),
    ensures
        named_keys_distinct(final(out)@),
        forall|i: int| 0 <= i < final(out)@.len() ==> #[trigger] ips_sorted(final(out)@[i].value@),
        forall|k: Seq<char>| #[trigger] has_name(final(out)@, k) <==> (k == key@ || has_name(old(out)@, k)),
        forall|i: int, x: IpAddress| 0 <= i < final(out)@.len() ==> (#[trigger] final(out)@[i].value@.contains(x)
            <==> (final(out)@[i].name@ == key@ && x == a) || exists|j: int|
            0 <= j < old(out)@.len() && old(out)@[j].name@ == final(out)@[i].name@ && #[trigger] old(out)@[j].value@.contains(x)),
{
    let ghost o = out@;
    let mut p: usize = 0;
    while p < out.len()
        invariant
            p <= out@.len(),
            out@ == o,
            forall|q: int| 0 <= q < p ==> #[trigger] o[q].name@ != key@,
        ensures
            p <= o.len(),
            out@ == o,
            forall|q: int| 0 <= q < p ==> #[trigger] o[q].name@ != key@,
            p < o.len() ==> o[p as int].name@ == key@,
        decreases out.len() - p,
    {
        if crate::text::str_eq(out[p].name.as_str(), key.as_str()) {
            break;
        }
        p += 1;
    }
    if p < out.len() && crate::text::str_eq(out[p].name.as_str(), key.as_str()) {
        let mut entry = out.remove(p);
        insert_ip(&mut entry.value, a);
        out.insert(p, entry);
        proof {
            let t = out@;
            assert forall|i: int| 0 <= i < t.len() implies t[i].name@ == o[i].name@ by {}
            assert forall|i: int, j: int| 0 <= i < j < t.len() implies #[trigger] t[i].name@ != #[trigger] t[j].name@ by {
                assert(o[i].name@ != o[j].name@);
            }
            assert forall|i: int, x: IpAddress| 0 <= i < t.len() implies (#[trigger] t[i].value@.contains(x)
                <==> (t[i].name@ == key@ && x == a) || exists|j: int|
                0 <= j < o.len() && o[j].name@ == t[i].name@ && #[trigger] o[j].value@.contains(x)) by {
                if i != p {
                    assert(t[i] == o[i]);
                    if exists|j: int| 0 <= j < o.len() && o[j].name@ == t[i].name@ && #[trigger] o[j].value@.contains(x) {
                        let j = choose|j: int| 0 <= j < o.len() && o[j].name@ == t[i].name@ && #[trigger] o[j].value@.contains(x);
                        if j != i {
                            if j < i {
                                assert(o[j].name@ != o[i].name@);
                            } else {
                                assert(o[i].name@ != o[j].name@);
                            }
                        }
                    }
                    if t[i].name@ == key@ {
                        assert(o[p as int].name@ == key@);
                        if i < p {
                            assert(o[i].name@ != o[p as int].name@);
                        } else {
                            assert(o[p as int].name@ != o[i].name@);
                        }
                    }
                } else {
                    if exists|j: int| 0 <= j < o.len() && o[j].name@ == t[i].name@ && #[trigger] o[j].value@.contains(x) {
                        let j = choose|j: int| 0 <= j < o.len() && o[j].name@ == t[i].name@ && #[trigger] o[j].value@.contains(x);
                        if j != p {
                            if j < p {
                                assert(o[j].name@ != o[p as int].name@);
                            } else {
                                assert(o[p as int].name@ != o[j].name@);
                            }
                        }
                    }
                }
            }
            assert forall|k: Seq<char>| #[trigger] has_name(t, k) <==> (k == key@ || has_name(o, k)) by {
                if k == key@ {
                    assert(t[p as int].name@ == k);
                }
                if exists|i: int| 0 <= i < o.len() && #[trigger] o[i].name@ == k {
                    let i = choose|i: int| 0 <= i < o.len() && #[trigger] o[i].name@ == k;
                    assert(t[i].name@ == k);
                }
            }
        }
    } else {
        let mut v: Vec<IpAddress> = Vec::new();
        v.push(a);
        out.push(Named { name: key.clone(), value: v });
        proof {
            let t = out@;
            assert forall|i: int, j: int| 0 <= i < j < t.len() implies #[trigger] t[i].name@ != #[trigger] t[j].name@ by {
                if j < o.len() {
                    assert(o[i].name@ != o[j].name@);
                }
            }
            assert forall|i: int| 0 <= i < t.len() implies #[trigger] ips_sorted(t[i].value@) by {
                if i < o.len() {
                    assert(t[i] == o[i]);
                }
            }
            assert forall|i: int, x: IpAddress| 0 <= i < t.len() implies (#[trigger] t[i].value@.contains(x)
                <==> (t[i].name@ == key@ && x == a) || exists|j: int|
                0 <= j < o.len() && o[j].name@ == t[i].name@ && #[trigger] o[j].value@.contains(x)) by {
                if i < o.len() {
                    assert(t[i] == o[i]);
                    if exists|j: int| 0 <= j < o.len() && o[j].name@ == t[i].name@ && #[trigger] o[j].value@.contains(x) {
                        let j = choose|j: int| 0 <= j < o.len() && o[j].name@ == t[i].name@ && #[trigger] o[j].value@.contains(x);
                        if j != i {
                            if j < i {
                                assert(o[j].name@ != o[i].name@);
                            } else {
                                assert(o[i].name@ != o[j].name@);
                            }
                        }
                    }
                } else {
                    assert(t[i].value@ =~= seq![a]);
                    if t[i].value@.contains(x) {
                        assert(x == t[i].value@[0]);
                    }
                    if x == a {
                        assert(t[i].value@[0] == a);
                    }
                }
            }
            assert forall|k: Seq<char>| #[trigger] has_name(t, k) <==> (k == key@ || has_name(o, k)) by {
                if k == key@ {
                    assert(t[o.len() as int].name@ == k);
                }
                if exists|i: int| 0 <= i < o.len() && #[trigger] o[i].name@ == k {
                    let i = choose|i: int| 0 <= i < o.len() && #[trigger] o[i].name@ == k;
                    assert(t[i].name@ == k);
                }
                if exists|i: int| 0 <= i < t.len() && #[trigger] t[i].name@ == k {
                    let i = choose|i: int| 0 <= i < t.len() && #[trigger] t[i].name@ == k;
                    if i < o.len() {
                        assert(o[i].name@ == k);
                    }
                }
            }
        }
    }
}


/// `a` is leased to `k` by the pairs of a line before line `i` with any
/// rule, or of line `i` with a rule before `j`.
pub open spec fn leased_upto(
    lines: Seq<Vec<u8>>,
    rules: Seq<ControlRule>,
    now: u64,
    i: int,
    j: int,
    k: Seq<char>,
    a: IpAddress,
) -> bool {
    exists|li: int, rj: int|
        0 <= li < lines.len() && li <= i && 0 <= rj < rules.len() && (li < i || rj < j)
            && rules[rj].identity_key@ == k && #[trigger] spec_lease_line(lines[li]@, now) == Some(
            (#[trigger] rules[rj].mac@, address_view(a)),
        )
}

/// What the leases filed so far hold: one entry per key with a lease, each
/// with its leased addresses in order.
pub open spec fn leases_filed(
    out: Seq<Named<Vec<IpAddress>>>,
    lines: Seq<Vec<u8>>,
    rules: Seq<ControlRule>,
    now: u64,
    i: int,
    j: int,
) -> bool {
    &&& named_keys_distinct(out)
    &&& forall|q: int| 0 <= q < out.len() ==> #[trigger] ips_sorted(out[q].value@)
    &&& forall|k: Seq<char>| #[trigger] has_name(out, k) <==> exists|a: IpAddress| #[trigger] leased_upto(lines, rules, now, i, j, k, a)
    &&& forall|q: int, x: IpAddress| 0 <= q < out.len() ==> (#[trigger] out[q].value@.contains(x)
        <==> leased_upto(lines, rules, now, i, j, out[q].name@, x))
}

proof fn lemma_leased_step(
    lines: Seq<Vec<u8>>,
    rules: Seq<ControlRule>,
    now: u64,
    i: int,
    j: int,
    k: Seq<char>,
    x: IpAddress,
)
    requires
        0 <= i < lines.len(),
        0 <= j < rules.len(),
    ensures
        leased_upto(lines, rules, now, i, j + 1, k, x) <==> leased_upto(lines, rules, now, i, j, k, x)
            || (rules[j].identity_key@ == k && spec_lease_line(lines[i]@, now) == Some((rules[j].mac@, address_view(x)))),
{
    if leased_upto(lines, rules, now, i, j + 1, k, x) {
        let (li, rj) = choose|li: int, rj: int|
            0 <= li < lines.len() && li <= i && 0 <= rj < rules.len() && (li < i || rj < j + 1)
                && rules[rj].identity_key@ == k && #[trigger] spec_lease_line(lines[li]@, now) == Some(
                (#[trigger] rules[rj].mac@, address_view(x)),
            );
        if !(li == i && rj == j) {
            assert(leased_upto(lines, rules, now, i, j, k, x));
        }
    }
    if leased_upto(lines, rules, now, i, j, k, x) {
        let (li, rj) = choose|li: int, rj: int|
            0 <= li < lines.len() && li <= i && 0 <= rj < rules.len() && (li < i || rj < j)
                && rules[rj].identity_key@ == k && #[trigger] spec_lease_line(lines[li]@, now) == Some(
                (#[trigger] rules[rj].mac@, address_view(x)),
            );
        assert(leased_upto(lines, rules, now, i, j + 1, k, x));
    }
    if rules[j].identity_key@ == k && spec_lease_line(lines[i]@, now) == Some((rules[j].mac@, address_view(x))) {
        assert(leased_upto(lines, rules, now, i, j + 1, k, x));
    }
}

proof fn lemma_leased_next_line(
    lines: Seq<Vec<u8>>,
    rules: Seq<ControlRule>,
    now: u64,
    i: int,
    k: Seq<char>,
    x: IpAddress,
)
    requires
        0 <= i,
    ensures
        leased_upto(lines, rules, now, i, rules.len() as int, k, x) <==> leased_upto(lines, rules, now, i + 1, 0, k, x),
{
    if leased_upto(lines, rules, now, i, rules.len() as int, k, x) {
        let (li, rj) = choose|li: int, rj: int|
            0 <= li < lines.len() && li <= i && 0 <= rj < rules.len() && (li < i || rj < rules.len())
                && rules[rj].identity_key@ == k && #[trigger] spec_lease_line(lines[li]@, now) == Some(
                (#[trigger] rules[rj].mac@, address_view(x)),
            );
        assert(leased_upto(lines, rules, now, i + 1, 0, k, x));
    }
    if leased_upto(lines, rules, now, i + 1, 0, k, x) {
        let (li, rj) = choose|li: int, rj: int|
            0 <= li < lines.len() && li <= i + 1 && 0 <= rj < rules.len() && (li < i + 1 || rj < 0)
                && rules[rj].identity_key@ == k && #[trigger] spec_lease_line(lines[li]@, now) == Some(
                (#[trigger] rules[rj].mac@, address_view(x)),
            );
        assert(leased_upto(lines, rules, now, i, rules.len() as int, k, x));
    }
}

proof fn lemma_filed_same(
    o: Seq<Named<Vec<IpAddress>>>,
    lines: Seq<Vec<u8>>,
    rules: Seq<ControlRule>,
    now: u64,
    i1: int,
    j1: int,
    i2: int,
    j2: int,
)
    requires
        leases_filed(o, lines, rules, now, i1, j1),
        forall|k: Seq<char>, y: IpAddress| #[trigger] leased_upto(lines, rules, now, i2, j2, k, y)
            <==> leased_upto(lines, rules, now, i1, j1, k, y),
    ensures
        leases_filed(o, lines, rules, now, i2, j2),
{
    assert forall|k: Seq<char>| #[trigger] has_name(o, k) <==> exists|a: IpAddress| #[trigger] leased_upto(lines, rules, now, i2, j2, k, a) by {
        if has_name(o, k) {
            let y = choose|y: IpAddress| #[trigger] leased_upto(lines, rules, now, i1, j1, k, y);
            assert(leased_upto(lines, rules, now, i2, j2, k, y));
        }
        if exists|a: IpAddress| #[trigger] leased_upto(lines, rules, now, i2, j2, k, a) {
            let y = choose|y: IpAddress| #[trigger] leased_upto(lines, rules, now, i2, j2, k, y);
            assert(leased_upto(lines, rules, now, i1, j1, k, y));
        }
    }
    assert forall|q: int, x: IpAddress| 0 <= q < o.len() implies (#[trigger] o[q].value@.contains(x)
        <==> leased_upto(lines, rules, now, i2, j2, o[q].name@, x)) by {
        assert(leased_upto(lines, rules, now, i2, j2, o[q].name@, x) <==> leased_upto(lines, rules, now, i1, j1, o[q].name@, x));
    }
}

#[verifier::rlimit(60)]
proof fn lemma_filed_add(
    o: Seq<Named<Vec<IpAddress>>>,
    t: Seq<Named<Vec<IpAddress>>>,
    lines: Seq<Vec<u8>>,
    rules: Seq<ControlRule>,
    now: u64,
    i: int,
    j: int,
    a: IpAddress,
)
    requires
        0 <= i < lines.len(),
        0 <= j < rules.len(),
        leases_filed(o, lines, rules, now, i, j),
        spec_lease_line(lines[i]@, now) == Some((rules[j].mac@, address_view(a))),
        named_keys_distinct(t),
        forall|q: int| 0 <= q < t.len() ==> #[trigger] ips_sorted(t[q].value@),
        forall|k: Seq<char>| #[trigger] has_name(t, k) <==> (k == rules[j].identity_key@ || has_name(o, k)),
        forall|q: int, x: IpAddress| 0 <= q < t.len() ==> (#[trigger] t[q].value@.contains(x)
            <==> (t[q].name@ == rules[j].identity_key@ && x == a) || exists|jj: int|
            0 <= jj < o.len() && o[jj].name@ == t[q].name@ && #[trigger] o[jj].value@.contains(x)),
    ensures
        leases_filed(t, lines, rules, now, i, j + 1),
{
    let key = rules[j].identity_key@;
    assert forall|k: Seq<char>| #[trigger] has_name(t, k) <==> exists|y: IpAddress|
        #[trigger] leased_upto(lines, rules, now, i, j + 1, k, y) by {
        if k == key {
            lemma_leased_step(lines, rules, now, i, j, k, a);
        }
        if exists|y: IpAddress| #[trigger] leased_upto(lines, rules, now, i, j + 1, k, y) {
            let y = choose|y: IpAddress| #[trigger] leased_upto(lines, rules, now, i, j + 1, k, y);
            lemma_leased_step(lines, rules, now, i, j, k, y);
        }
        if has_name(o, k) {
            let y = choose|y: IpAddress| #[trigger] leased_upto(lines, rules, now, i, j, k, y);
            lemma_leased_step(lines, rules, now, i, j, k, y);
        }
    }
    assert forall|q: int, x: IpAddress| 0 <= q < t.len() implies (#[trigger] t[q].value@.contains(x)
        <==> leased_upto(lines, rules, now, i, j + 1, t[q].name@, x)) by {
        lemma_leased_step(lines, rules, now, i, j, t[q].name@, x);
        if spec_lease_line(lines[i]@, now) == Some((rules[j].mac@, address_view(x))) {
            crate::collectors::conntrack::procfs::lemma_address_view_injective(x, a);
        }
        if exists|jj: int| 0 <= jj < o.len() && o[jj].name@ == t[q].name@ && #[trigger] o[jj].value@.contains(x) {
            let jj = choose|jj: int| 0 <= jj < o.len() && o[jj].name@ == t[q].name@ && #[trigger] o[jj].value@.contains(x);
            assert(leased_upto(lines, rules, now, i, j, o[jj].name@, x));
        }
        if leased_upto(lines, rules, now, i, j, t[q].name@, x) {
            assert(has_name(o, t[q].name@));
            let jj = choose|jj: int| 0 <= jj < o.len() && #[trigger] o[jj].name@ == t[q].name@;
            assert(o[jj].value@.contains(x));
        }
    }
}

proof fn lemma_filed_skip(
    o: Seq<Named<Vec<IpAddress>>>,
    lines: Seq<Vec<u8>>,
    rules: Seq<ControlRule>,
    now: u64,
    i: int,
    j: int,
)
    requires
        0 <= i < lines.len(),
        0 <= j < rules.len(),
        leases_filed(o, lines, rules, now, i, j),
        !(spec_lease_line(lines[i]@, now) matches Some(p) && p.0 == rules[j].mac@),
    ensures
        leases_filed(o, lines, rules, now, i, j + 1),
{
    assert forall|k: Seq<char>, y: IpAddress| #[trigger] leased_upto(lines, rules, now, i, j + 1, k, y)
        <==> leased_upto(lines, rules, now, i, j, k, y) by {
        lemma_leased_step(lines, rules, now, i, j, k, y);
    }
    lemma_filed_same(o, lines, rules, now, i, j, i, j + 1);
}

proof fn lemma_filed_next_line(
    o: Seq<Named<Vec<IpAddress>>>,
    lines: Seq<Vec<u8>>,
    rules: Seq<ControlRule>,
    now: u64,
    i: int,
)
    requires
        0 <= i < lines.len(),
        leases_filed(o, lines, rules, now, i, rules.len() as int),
    ensures
        leases_filed(o, lines, rules, now, i + 1, 0),
{
    assert forall|k: Seq<char>, y: IpAddress| #[trigger] leased_upto(lines, rules, now, i + 1, 0, k, y)
        <==> leased_upto(lines, rules, now, i, rules.len() as int, k, y) by {
        lemma_leased_next_line(lines, rules, now, i, k, y);
    }
    lemma_filed_same(o, lines, rules, now, i, rules.len() as int, i + 1, 0);
}

proof fn lemma_filed_no_lease(
    o: Seq<Named<Vec<IpAddress>>>,
    lines: Seq<Vec<u8>>,
    rules: Seq<ControlRule>,
    now: u64,
    i: int,
)
    requires
        0 <= i < lines.len(),
        leases_filed(o, lines, rules, now, i, 0),
        spec_lease_line(lines[i]@, now) is None,
    ensures
        leases_filed(o, lines, rules, now, i + 1, 0),
{
    assert forall|k: Seq<char>, y: IpAddress| #[trigger] leased_upto(lines, rules, now, i + 1, 0, k, y)
        <==> leased_upto(lines, rules, now, i, 0, k, y) by {
        if leased_upto(lines, rules, now, i + 1, 0, k, y) {
            let (li, rj) = choose|li: int, rj: int|
                0 <= li < lines.len() && li <= i + 1 && 0 <= rj < rules.len() && (li < i + 1 || rj < 0)
                    && rules[rj].identity_key@ == k && #[trigger] spec_lease_line(lines[li]@, now) == Some(
                    (#[trigger] rules[rj].mac@, address_view(y)),
                );
            assert(li != i);
        }
    }
    lemma_filed_same(o, lines, rules, now, i, 0, i + 1, 0);
}

proof fn lemma_filed_done(
    o: Seq<Named<Vec<IpAddress>>>,
    lines: Seq<Vec<u8>>,
    rules: Seq<ControlRule>,
    now: u64,
    n: int,
)
    requires
        n == (if lines.len() < CONTROL_DHCP_LEASE_MAX_LINES { lines.len() as int } else { CONTROL_DHCP_LEASE_MAX_LINES as int }),
        leases_filed(o, lines, rules, now, n, 0),
    ensures
        forall|k: Seq<char>| #[trigger] has_name(o, k) <==> exists|a: IpAddress| #[trigger] leased(lines, rules, now, k, a),
        forall|q: int, x: IpAddress| 0 <= q < o.len() ==> (#[trigger] o[q].value@.contains(x)
            <==> leased(lines, rules, now, o[q].name@, x)),
{
    assert forall|k: Seq<char>, y: IpAddress| #[trigger] leased_upto(lines, rules, now, n, 0, k, y)
        <==> leased(lines, rules, now, k, y) by {
        if leased(lines, rules, now, k, y) {
            let (li, rj) = choose|li: int, rj: int|
                0 <= li < lines.len() && li < CONTROL_DHCP_LEASE_MAX_LINES && 0 <= rj < rules.len()
                    && rules[rj].identity_key@ == k && #[trigger] spec_lease_line(lines[li]@, now) == Some(
                    (#[trigger] rules[rj].mac@, address_view(y)),
                );
            assert(leased_upto(lines, rules, now, n, 0, k, y));
        }
    }
    assert forall|k: Seq<char>| #[trigger] has_name(o, k) <==> exists|a: IpAddress| #[trigger] leased(lines, rules, now, k, a) by {
        if has_name(o, k) {
            let y = choose|y: IpAddress| #[trigger] leased_upto(lines, rules, now, n, 0, k, y);
            assert(leased(lines, rules, now, k, y));
        }
        if exists|a: IpAddress| #[trigger] leased(lines, rules, now, k, a) {
            let y = choose|y: IpAddress| #[trigger] leased(lines, rules, now, k, y);
            assert(leased_upto(lines, rules, now, n, 0, k, y));
        }
    }
}

/// The addresses the DHCP lease file leases to each client with a rule: a
/// lease line names a MAC, and every rule for that MAC gets the address.
/// Only the first lines (up to the line limit) count, and a line that is
/// too long, expired or malformed is passed over.
pub fn lease_addresses_from(lines: &Vec<Vec<u8>>, rules: &Vec<ControlRule>, now: u64) -> (r: Vec<
    Named<Vec<IpAddress>>,
>)
    ensures
        named_keys_distinct(r@),
        forall|q: int| 0 <= q < r@.len() ==> #[trigger] ips_sorted(r@[q].value@),
        forall|k: Seq<char>| #[trigger] has_name(r@, k) <==> exists|a: IpAddress| #[trigger] leased(lines@, rules@, now, k, a),
        forall|q: int, x: IpAddress| 0 <= q < r@.len() ==> (#[trigger] r@[q].value@.contains(x)
            <==> leased(lines@, rules@, now, r@[q].name@, x)),
{
    let n: usize = if lines.len() < CONTROL_DHCP_LEASE_MAX_LINES {
        lines.len()
    } else {
        CONTROL_DHCP_LEASE_MAX_LINES
    };
    let mut out: Vec<Named<Vec<IpAddress>>> = Vec::new();
    let mut i: usize = 0;
    while i < n
        invariant
            i <= n,
            n <= lines@.len(),
            n <= CONTROL_DHCP_LEASE_MAX_LINES,
            leases_filed(out@, lines@, rules@, now, i as int, 0),
        decreases n - i,
    {
        match lease_line(lines[i].as_slice(), now) {
            Some((mac, a)) => {
                let mut j: usize = 0;
                while j < rules.len()
                    invariant
                        i < n,
                        n <= lines@.len(),
                        j <= rules@.len(),
                        spec_lease_line(lines@[i as int]@, now) == Some((mac@, address_view(a))),
                        leases_filed(out@, lines@, rules@, now, i as int, j as int),
                    decreases rules.len() - j,
                {
                    let ghost o = out@;
                    if mac_eq(&rules[j].mac, &mac) {
                        add_lease(&mut out, &rules[j].identity_key, a);
                        proof {
                            lemma_filed_add(o, out@, lines@, rules@, now, i as int, j as int, a);
                        }
                    } else {
                        proof {
                            lemma_filed_skip(o, lines@, rules@, now, i as int, j as int);
                        }
                    }
                    j += 1;
                }
                proof {
                    lemma_filed_next_line(out@, lines@, rules@, now, i as int);
                }
            },
            None => {
                proof {
                    lemma_filed_no_lease(out@, lines@, rules@, now, i as int);
                }
            },
        }
        i += 1;
    }
    proof {
        lemma_filed_done(out@, lines@, rules@, now, n as int);
    }
    out
}

} // verus!
