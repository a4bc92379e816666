use vstd::prelude::*;
use super::IpAddress;
use crate::identity::{hex_char, nibble_char};

verus! {

/// The decimal digit of `n`, which is below ten.
pub open spec fn digit_char(n: nat) -> char {
    ((n + 48) as u8) as char
}

/// A number in decimal, without leading zeros.
pub open spec fn dec_text(n: nat) -> Seq<char>
    decreases n,
{
    if n < 10 {
        seq![digit_char(n)]
    } else {
        dec_text(n / 10) + seq![digit_char(n % 10)]
    }
}

/// A number in lowercase hexadecimal, without leading zeros.
pub open spec fn hex_text(n: nat) -> Seq<char>
    decreases n,
{
    if n < 16 {
        seq![hex_char(n as u8)]
    } else {
        hex_text(n / 16) + seq![hex_char((n % 16) as u8)]
    }
}

/// Dotted-decimal text of four octets.
pub open spec fn ipv4_text(o: Seq<u8>) -> Seq<char> {
    dec_text(o[0] as nat) + seq!['.'] + dec_text(o[1] as nat) + seq!['.'] + dec_text(o[2] as nat)
        + seq!['.'] + dec_text(o[3] as nat)
}

/// The eight 16-bit groups of sixteen octets.
pub open spec fn segments(o: Seq<u8>) -> Seq<nat> {
    Seq::new(8, |i: int| (o[2 * i] as nat) * 256 + (o[2 * i + 1] as nat))
}

/// Groups in hexadecimal, joined by colons.
pub open spec fn join_hex(s: Seq<nat>) -> Seq<char>
    decreases s.len(),
{
    if s.len() == 0 {
        Seq::empty()
    } else if s.len() == 1 {
        hex_text(s[0])
    } else {
        join_hex(s.drop_last()) + seq![':'] + hex_text(s.last())
    }
}

/// Scanning the first `i` groups: the longest run of zero groups so far (the
/// first on ties) and the run that ends at `i`, each as start and length.
pub open spec fn zero_scan(s: Seq<nat>, i: nat) -> (int, int, int, int)
    decreases i,
{
    if i == 0 {
        (0, 0, 0, 0)
    } else {
        let p = zero_scan(s, (i - 1) as nat);
        if s[i - 1] == 0 {
            let start = if p.3 == 0 { i - 1 } else { p.2 };
            let len = p.3 + 1;
            if len > p.1 {
                (start, len, start, len)
            } else {
                (p.0, p.1, start, len)
            }
        } else {
            (p.0, p.1, 0, 0)
        }
    }
}

/// Whether sixteen octets are an IPv4-mapped address.
pub open spec fn is_ipv4_mapped(o: Seq<u8>) -> bool {
    &&& forall|i: int| 0 <= i < 10 ==> o[i] == 0
    &&& o[10] == 0xff
    &&& o[11] == 0xff
}

/// The canonical text of sixteen octets: an IPv4-mapped address as
/// `::ffff:` and its dotted quad; otherwise the groups in hexadecimal with
/// the first longest run of two or more zero groups written as `::`.
pub open spec fn ipv6_text(o: Seq<u8>) -> Seq<char> {
    if is_ipv4_mapped(o) {
        seq![':', ':', 'f', 'f', 'f', 'f', ':'] + ipv4_text(o.subrange(12, 16))
    } else {
        let s = segments(o);
        let z = zero_scan(s, 8);
        if z.1 > 1 {
            join_hex(s.take(z.0)) + seq![':', ':'] + join_hex(s.skip(z.0 + z.1))
        } else {
            join_hex(s)
        }
    }
}

/// The text of an address.
pub open spec fn ip_text(a: IpAddress) -> Seq<char> {
    match a {
        IpAddress::V4(o) => ipv4_text(o@),
        IpAddress::V6(o) => ipv6_text(o@),
    }
}

fn push_dec(out: &mut Vec<char>, n: u8)
    ensures
        final(out)@ == old(out)@ + dec_text(n as nat),
{
    reveal_with_fuel(dec_text, 4);
    if n >= 100 {
        out.push(((n / 100) + 48) as char);
        out.push((((n / 10) % 10) + 48) as char);
        out.push(((n % 10) + 48) as char);
        assert(dec_text((n / 10) as nat) =~= dec_text((n / 100) as nat) + seq![
            digit_char(((n / 10) % 10) as nat),
        ]);
    } else if n >= 10 {
        out.push(((n / 10) + 48) as char);
        out.push(((n % 10) + 48) as char);
    } else {
        out.push((n + 48) as char);
    }
    assert(final(out)@ =~= old(out)@ + dec_text(n as nat));
}

fn push_hex(out: &mut Vec<char>, n: u16)
    ensures
        final(out)@ == old(out)@ + hex_text(n as nat),
{
    reveal_with_fuel(hex_text, 5);
    let d0 = (n % 16) as u8;
    let d1 = ((n / 16) % 16) as u8;
    let d2 = ((n / 256) % 16) as u8;
    let d3 = (n / 4096) as u8;
    if n >= 4096 {
        out.push(nibble_char(d3));
        out.push(nibble_char(d2));
        out.push(nibble_char(d1));
        out.push(nibble_char(d0));
        assert(hex_text((n / 256) as nat) =~= seq![hex_char(d3), hex_char(d2)]);
        assert(hex_text((n / 16) as nat) =~= seq![hex_char(d3), hex_char(d2), hex_char(d1)]);
    } else if n >= 256 {
        out.push(nibble_char(d2));
        out.push(nibble_char(d1));
        out.push(nibble_char(d0));
        assert(hex_text((n / 16) as nat) =~= seq![hex_char(d2), hex_char(d1)]);
    } else if n >= 16 {
        out.push(nibble_char(d1));
        out.push(nibble_char(d0));
    } else {
        out.push(nibble_char(d0));
    }
    assert(final(out)@ =~= old(out)@ + hex_text(n as nat));
}

fn push_ipv4(out: &mut Vec<char>, o: &[u8; 4])
    ensures
        final(out)@ == old(out)@ + ipv4_text(o@),
{
    push_dec(out, o[0]);
    out.push('.');
    push_dec(out, o[1]);
    out.push('.');
    push_dec(out, o[2]);
    out.push('.');
    push_dec(out, o[3]);
    assert(final(out)@ =~= old(out)@ + ipv4_text(o@));
}

fn groups_of(o: &[u8; 16]) -> (r: Vec<u16>)
    ensures
        r@.len() == 8,
        forall|i: int| 0 <= i < 8 ==> r@[i] as nat == #[trigger] segments(o@)[i],
{
    let mut g: Vec<u16> = Vec::new();
    let mut i: usize = 0;
    while i < 8
        invariant
            i <= 8,
            g@.len() == i,
            forall|k: int| 0 <= k < i ==> g@[k] as nat == #[trigger] segments(o@)[k],
        decreases 8 - i,
    {
        let hi = o[2 * i] as u16;
        let lo = o[2 * i + 1] as u16;
        g.push(hi * 256 + lo);
        i += 1;
    }
    g
}

/// The groups as numbers.
pub open spec fn groups_view(g: Seq<u16>) -> Seq<nat> {
    g.map_values(|x: u16| x as nat)
}

fn push_groups(out: &mut Vec<char>, g: &Vec<u16>, lo: usize, hi: usize)
    requires
        lo <= hi <= g@.len(),
    ensures
        final(out)@ == old(out)@ + join_hex(groups_view(g@).subrange(lo as int, hi as int)),
{
    let ghost s = groups_view(g@);
    let mut i: usize = lo;
    while i < hi
        invariant
            s == groups_view(g@),
            lo <= i <= hi,
            hi <= g@.len(),
            out@ == old(out)@ + join_hex(s.subrange(lo as int, i as int)),
        decreases hi - i,
    {
        let ghost before = out@;
        if i > lo {
            out.push(':');
        }
        push_hex(out, g[i]);
        let ghost t = s.subrange(lo as int, i + 1);
        assert(t.drop_last() =~= s.subrange(lo as int, i as int));
        assert(t.last() == g@[i as int] as nat);
        if i == lo {
            assert(t.len() == 1);
            assert(s.subrange(lo as int, i as int) =~= Seq::<nat>::empty());
        }
        assert(out@ =~= old(out)@ + join_hex(t));
        i += 1;
    }
}

fn longest_zero_run(g: &Vec<u16>) -> (r: (usize, usize))
    requires
        g@.len() == 8,
    ensures
        r.0 as int == zero_scan(groups_view(g@), 8).0,
        r.1 as int == zero_scan(groups_view(g@), 8).1,
        r.0 + r.1 <= 8,
{
    let ghost s = groups_view(g@);
    let mut best_start: usize = 0;
    let mut best_len: usize = 0;
    let mut cur_start: usize = 0;
    let mut cur_len: usize = 0;
    let mut i: usize = 0;
    while i < 8
        invariant
            s == groups_view(g@),
            g@.len() == 8,
            i <= 8,
            zero_scan(s, i as nat) == (best_start as int, best_len as int, cur_start as int, cur_len as int),
            best_start + best_len <= i,
            cur_start + cur_len == i || (cur_start == 0 && cur_len == 0),
            cur_len <= i,
        decreases 8 - i,
    {
        if g[i] == 0 {
            if cur_len == 0 {
                cur_start = i;
            }
            cur_len += 1;
            if cur_len > best_len {
                best_start = cur_start;
                best_len = cur_len;
            }
        } else {
            cur_start = 0;
            cur_len = 0;
        }
        i += 1;
    }
    (best_start, best_len)
}

fn mapped(o: &[u8; 16]) -> (r: bool)
    ensures
        r == is_ipv4_mapped(o@),
{
    let mut i: usize = 0;
    while i < 10
        invariant
            i <= 10,
            forall|k: int| 0 <= k < i ==> o[k] == 0,
        decreases 10 - i,
    {
        if o[i] != 0 {
            return false;
        }
        i += 1;
    }
    o[10] == 0xff && o[11] == 0xff
}

impl IpAddress {
    /// The address in its canonical text form.
    pub fn text(&self) -> (r: String)
        ensures
            r@ == ip_text(*self),
    {
        let mut out: Vec<char> = Vec::new();
        match self {
            IpAddress::V4(o) => {
                push_ipv4(&mut out, o);
                assert(out@ =~= ipv4_text(o@));
            },
            IpAddress::V6(o) => {
                if mapped(o) {
                    out.push(':');
                    out.push(':');
                    out.push('f');
                    out.push('f');
                    out.push('f');
                    out.push('f');
                    out.push(':');
                    let tail: [u8; 4] = [o[12], o[13], o[14], o[15]];
                    assert(tail@ =~= o@.subrange(12, 16));
                    push_ipv4(&mut out, &tail);
                    assert(out@ =~= ipv6_text(o@));
                } else {
                    let g = groups_of(o);
                    let ghost s = segments(o@);
                    assert(groups_view(g@) =~= s);
                    let (start, len) = longest_zero_run(&g);
                    if len > 1 {
                        push_groups(&mut out, &g, 0, start);
                        out.push(':');
                        out.push(':');
                        push_groups(&mut out, &g, start + len, 8);
                        assert(s.take(start as int) =~= s.subrange(0, start as int));
                        assert(s.skip(start + len) =~= s.subrange(start + len, 8));
                        assert(out@ =~= ipv6_text(o@));
                    } else {
                        push_groups(&mut out, &g, 0, 8);
                        assert(s =~= s.subrange(0, 8));
                        assert(out@ =~= ipv6_text(o@));
                    }
                }
            },
        }
        crate::text::string_from_chars(out.as_slice())
    }
}

// ---------------------------------------------------------------------------
// Reading addresses from text
// ---------------------------------------------------------------------------

/// The value of a digit in radix 10 or 16; hexadecimal letters in either case.
pub open spec fn digit_of(b: u8, radix: nat) -> Option<nat> {
    if 48 <= b <= 57 {
        Some((b - 48) as nat)
    } else if radix == 16 && 97 <= b <= 102 {
        Some((b - 87) as nat)
    } else if radix == 16 && 65 <= b <= 70 {
        Some((b - 55) as nat)
    } else {
        None
    }
}

/// How many digits follow position `pos`.
pub open spec fn run_len(s: Seq<u8>, pos: int, radix: nat) -> nat
    decreases s.len() - pos,
{
    if 0 <= pos < s.len() && digit_of(s[pos], radix) is Some {
        1 + run_len(s, pos + 1, radix)
    } else {
        0
    }
}

/// The value of the `n` digits at `pos`.
pub open spec fn digits_value(s: Seq<u8>, pos: int, n: nat, radix: nat) -> nat
    decreases n,
{
    if n == 0 {
        0
    } else {
        digits_value(s, pos, (n - 1) as nat, radix) * radix + digit_of(s[pos + n - 1], radix).unwrap()
    }
}

/// A number at `pos` and the position after it: all the digits that follow,
/// at least one and at most `max_digits`, and no leading zero unless
/// `allow_zero_prefix`.
pub open spec fn read_number(s: Seq<u8>, pos: int, radix: nat, max_digits: nat, allow_zero_prefix: bool) -> Option<(nat, int)> {
    let n = run_len(s, pos, radix);
    if n == 0 || n > max_digits {
        None
    } else if !allow_zero_prefix && s[pos] == 48 && n > 1 {
        None
    } else {
        Some((digits_value(s, pos, n, radix), pos + n))
    }
}

/// A decimal octet at `pos`.
pub open spec fn read_octet(s: Seq<u8>, pos: int) -> Option<(nat, int)> {
    match read_number(s, pos, 10, 3, false) {
        Some((v, p)) => if v <= 255 {
            Some((v, p))
        } else {
            None
        },
        None => None,
    }
}

/// `sep` at `pos` and then an octet.
pub open spec fn read_dot_octet(s: Seq<u8>, pos: int) -> Option<(nat, int)> {
    if 0 <= pos < s.len() && s[pos] == 46 {
        read_octet(s, pos + 1)
    } else {
        None
    }
}

/// A dotted quad at `pos` and the position after it.
pub open spec fn read_ipv4(s: Seq<u8>, pos: int) -> Option<(Seq<nat>, int)> {
    match read_octet(s, pos) {
        Some((a, p1)) => match read_dot_octet(s, p1) {
            Some((b, p2)) => match read_dot_octet(s, p2) {
                Some((c, p3)) => match read_dot_octet(s, p3) {
                    Some((d, p4)) => Some((seq![a, b, c, d], p4)),
                    None => None,
                },
                None => None,
            },
            None => None,
        },
        None => None,
    }
}

/// What follows a colon at `pos` when `i` groups were read, else from `pos`.
pub open spec fn after_colon(s: Seq<u8>, pos: int, i: nat) -> Option<int> {
    if i == 0 {
        Some(pos)
    } else if 0 <= pos < s.len() && s[pos] == 58 {
        Some(pos + 1)
    } else {
        None
    }
}

/// A hexadecimal group of one to four digits.
pub open spec fn read_group(s: Seq<u8>, pos: int) -> Option<(nat, int)> {
    read_number(s, pos, 16, 4, true)
}

/// Colon-separated groups from `pos`, the `i`-th of at most `limit`: where
/// two or more groups are left an embedded dotted quad ends them as two
/// groups. The groups, where reading stopped, and whether a dotted quad
/// ended them.
pub open spec fn read_groups(s: Seq<u8>, pos: int, i: nat, limit: nat) -> (Seq<nat>, int, bool)
    decreases limit - i,
{
    if i >= limit {
        (Seq::empty(), pos, false)
    } else {
        let v4 = if i + 1 < limit {
            match after_colon(s, pos, i) {
                Some(q) => read_ipv4(s, q),
                None => None,
            }
        } else {
            None
        };
        match v4 {
            Some((o, p)) => (seq![o[0] * 256 + o[1], o[2] * 256 + o[3]], p, true),
            None => match after_colon(s, pos, i) {
                Some(q) => match read_group(s, q) {
                    Some((g, p)) => {
                        let r = read_groups(s, p, i + 1, limit);
                        (seq![g] + r.0, r.1, r.2)
                    },
                    None => (Seq::empty(), pos, false),
                },
                None => (Seq::empty(), pos, false),
            },
        }
    }
}

/// `n` zero groups.
pub open spec fn zero_groups(n: nat) -> Seq<nat> {
    Seq::new(n, |i: int| 0nat)
}

/// Eight groups at `pos` and the position after them: all eight, or a
/// head and a tail around `::`, which stands for at least one zero group;
/// a dotted quad may end only the whole address.
pub open spec fn read_ipv6(s: Seq<u8>, pos: int) -> Option<(Seq<nat>, int)> {
    let h = read_groups(s, pos, 0, 8);
    if h.0.len() == 8 {
        Some((h.0, h.1))
    } else if h.2 {
        None
    } else if 0 <= h.1 && h.1 + 1 < s.len() && s[h.1] == 58 && s[h.1 + 1] == 58 {
        let limit = (8 - (h.0.len() + 1)) as nat;
        let t = read_groups(s, h.1 + 2, 0, limit);
        Some((h.0 + zero_groups((8 - h.0.len() - t.0.len()) as nat) + t.0, t.1))
    } else {
        None
    }
}

/// The sixteen octets of eight groups.
pub open spec fn group_octets(g: Seq<nat>) -> Seq<u8> {
    Seq::new(16, |i: int| if i % 2 == 0 { (g[i / 2] / 256) as u8 } else { (g[i / 2] % 256) as u8 })
}

/// An address by the sequence of its octets.
pub enum AddressView {
    V4(Seq<u8>),
    V6(Seq<u8>),
}

/// The octets of an address.
pub open spec fn address_view(a: IpAddress) -> AddressView {
    match a {
        IpAddress::V4(o) => AddressView::V4(o@),
        IpAddress::V6(o) => AddressView::V6(o@),
    }
}

/// The address a text spells, if it spells one: a dotted quad, or else an
/// IPv6 address, with nothing after it.
pub open spec fn parse_ip_bytes(s: Seq<u8>) -> Option<AddressView> {
    match read_ipv4(s, 0) {
        Some((o, p)) => if p == s.len() {
            Some(AddressView::V4(seq![o[0] as u8, o[1] as u8, o[2] as u8, o[3] as u8]))
        } else {
            None
        },
        None => match read_ipv6(s, 0) {
            Some((g, p)) => if p == s.len() {
                Some(AddressView::V6(group_octets(g)))
            } else {
                None
            },
            None => None,
        },
    }
}

fn digit_value(b: u8, radix: u32) -> (r: Option<u32>)
    requires
        radix == 10 || radix == 16,
    ensures
        match r {
            Some(v) => digit_of(b, radix as nat) == Some(v as nat) && v < radix,
            None => digit_of(b, radix as nat) is None,
        },
{
    if 48 <= b && b <= 57 {
        Some((b - 48) as u32)
    } else if radix == 16 && 97 <= b && b <= 102 {
        Some((b - 87) as u32)
    } else if radix == 16 && 65 <= b && b <= 70 {
        Some((b - 55) as u32)
    } else {
        None
    }
}

proof fn lemma_run_len_exact(s: Seq<u8>, pos: int, k: nat, radix: nat)
    requires
        0 <= pos,
        pos + k <= s.len(),
        forall|j: int| pos <= j < pos + k ==> (#[trigger] digit_of(s[j], radix)) is Some,
        pos + k == s.len() || digit_of(s[pos + k], radix) is None,
    ensures
        run_len(s, pos, radix) == k,
    decreases k,
{
    if k > 0 {
        assert(digit_of(s[pos], radix) is Some);
        lemma_run_len_exact(s, pos + 1, (k - 1) as nat, radix);
    }
}

proof fn lemma_run_len_at_least(s: Seq<u8>, pos: int, k: nat, radix: nat)
    requires
        0 <= pos,
        pos + k <= s.len(),
        forall|j: int| pos <= j < pos + k ==> (#[trigger] digit_of(s[j], radix)) is Some,
    ensures
        run_len(s, pos, radix) >= k,
    decreases k,
{
    if k > 0 {
        assert(digit_of(s[pos], radix) is Some);
        lemma_run_len_at_least(s, pos + 1, (k - 1) as nat, radix);
    }
}

/// An upper bound of a number of `c` hexadecimal digits.
pub open spec fn digit_bound(c: nat) -> nat {
    if c == 0 {
        1
    } else if c == 1 {
        16
    } else if c == 2 {
        256
    } else if c == 3 {
        4096
    } else {
        65536
    }
}

fn read_number_at(s: &[u8], pos: usize, radix: u32, max_digits: usize, allow_zero_prefix: bool) -> (r: Option<(u32, usize)>)
    requires
        pos <= s@.len(),
        radix == 10 || radix == 16,
        1 <= max_digits <= 4,
    ensures
        match r {
            Some((v, p)) => read_number(s@, pos as int, radix as nat, max_digits as nat, allow_zero_prefix)
                == Some((v as nat, p as int)) && p <= s@.len() && v < 65536,
            None => read_number(s@, pos as int, radix as nat, max_digits as nat, allow_zero_prefix) is None,
        },
{
    let ghost rd = radix as nat;
    let mut count: usize = 0;
    let mut value: u32 = 0;
    while count < s.len() - pos && digit_value(s[pos + count], radix).is_some()
        invariant
            pos + count <= s@.len(),
            radix == 10 || radix == 16,
            rd == radix as nat,
            1 <= max_digits <= 4,
            count <= max_digits,
            forall|j: int| pos <= j < pos + count ==> (#[trigger] digit_of(s@[j], rd)) is Some,
            value as nat == digits_value(s@, pos as int, count as nat, rd),
            value < digit_bound(count as nat),
        decreases s@.len() - pos - count,
    {
        let d = match digit_value(s[pos + count], radix) {
            Some(d) => d,
            None => 0,
        };
        if count == max_digits {
            proof {
                lemma_run_len_at_least(s@, pos as int, (count + 1) as nat, rd);
            }
            return None;
        }
        assert(value * radix + d < digit_bound((count + 1) as nat)) by (nonlinear_arith)
            requires
                value < digit_bound(count as nat),
                d < radix,
                radix <= 16,
                count < 4,
        ;
        value = value * radix + d;
        count += 1;
    }
    proof {
        if pos + count < s@.len() {
            assert(digit_of(s@[pos + count], rd) is None);
        }
        lemma_run_len_exact(s@, pos as int, count as nat, rd);
    }
    if count == 0 {
        return None;
    }
    if !allow_zero_prefix && s[pos] == 48 && count > 1 {
        return None;
    }
    Some((value, pos + count))
}

fn read_octet_at(s: &[u8], pos: usize) -> (r: Option<(u8, usize)>)
    requires
        pos <= s@.len(),
    ensures
        match r {
            Some((v, p)) => read_octet(s@, pos as int) == Some((v as nat, p as int)) && p <= s@.len(),
            None => read_octet(s@, pos as int) is None,
        },
{
    match read_number_at(s, pos, 10, 3, false) {
        Some((v, p)) => if v <= 255 {
            Some((v as u8, p))
        } else {
            None
        },
        None => None,
    }
}

fn read_dot_octet_at(s: &[u8], pos: usize) -> (r: Option<(u8, usize)>)
    requires
        pos <= s@.len(),
    ensures
        match r {
            Some((v, p)) => read_dot_octet(s@, pos as int) == Some((v as nat, p as int)) && p <= s@.len(),
            None => read_dot_octet(s@, pos as int) is None,
        },
{
    if pos < s.len() && s[pos] == 46 {
        read_octet_at(s, pos + 1)
    } else {
        None
    }
}

fn read_ipv4_at(s: &[u8], pos: usize) -> (r: Option<([u8; 4], usize)>)
    requires
        pos <= s@.len(),
    ensures
        match r {
            Some((o, p)) => read_ipv4(s@, pos as int) == Some(
                (seq![o[0] as nat, o[1] as nat, o[2] as nat, o[3] as nat], p as int),
            ) && p <= s@.len(),
            None => read_ipv4(s@, pos as int) is None,
        },
{
    let (a, p1) = match read_octet_at(s, pos) {
        Some(x) => x,
        None => {
            return None;
        },
    };
    let (b, p2) = match read_dot_octet_at(s, p1) {
        Some(x) => x,
        None => {
            return None;
        },
    };
    let (c, p3) = match read_dot_octet_at(s, p2) {
        Some(x) => x,
        None => {
            return None;
        },
    };
    let (d, p4) = match read_dot_octet_at(s, p3) {
        Some(x) => x,
        None => {
            return None;
        },
    };
    let o: [u8; 4] = [a, b, c, d];
    assert(seq![o[0] as nat, o[1] as nat, o[2] as nat, o[3] as nat] =~= seq![a as nat, b as nat, c as nat, d as nat]);
    Some((o, p4))
}

fn after_colon_at(s: &[u8], pos: usize, i: usize) -> (r: Option<usize>)
    requires
        pos <= s@.len(),
    ensures
        match r {
            Some(q) => after_colon(s@, pos as int, i as nat) == Some(q as int) && q <= s@.len(),
            None => after_colon(s@, pos as int, i as nat) is None,
        },
{
    if i == 0 {
        Some(pos)
    } else if pos < s.len() && s[pos] == 58 {
        Some(pos + 1)
    } else {
        None
    }
}

/// The groups of a list as numbers.
pub open spec fn nats_of(v: Seq<u32>) -> Seq<nat> {
    v.map_values(|x: u32| x as nat)
}

fn read_groups_at(s: &[u8], pos: usize, limit: usize) -> (r: (Vec<u32>, usize, bool))
    requires
        pos <= s@.len(),
        limit <= 8,
    ensures
        nats_of(r.0@) == read_groups(s@, pos as int, 0, limit as nat).0,
        r.1 as int == read_groups(s@, pos as int, 0, limit as nat).1,
        r.2 == read_groups(s@, pos as int, 0, limit as nat).2,
        r.0@.len() <= limit,
        r.1 <= s@.len(),
        forall|k: int| 0 <= k < r.0@.len() ==> #[trigger] r.0@[k] < 65536,
{
    let ghost whole = read_groups(s@, pos as int, 0, limit as nat);
    let mut groups: Vec<u32> = Vec::new();
    let mut p: usize = pos;
    let mut i: usize = 0;
    while i < limit
        invariant
            p <= s@.len(),
            i <= limit <= 8,
            groups@.len() == i,
            forall|k: int| 0 <= k < groups@.len() ==> #[trigger] groups@[k] < 65536,
            whole == read_groups(s@, pos as int, 0, limit as nat),
            whole.0 == nats_of(groups@) + read_groups(s@, p as int, i as nat, limit as nat).0,
            whole.1 == read_groups(s@, p as int, i as nat, limit as nat).1,
            whole.2 == read_groups(s@, p as int, i as nat, limit as nat).2,
        decreases limit - i,
    {
        let ghost here = read_groups(s@, p as int, i as nat, limit as nat);
        if i + 1 < limit {
            match after_colon_at(s, p, i) {
                Some(q) => match read_ipv4_at(s, q) {
                    Some((o, p2)) => {
                        let hi = (o[0] as u32) * 256 + (o[1] as u32);
                        let lo = (o[2] as u32) * 256 + (o[3] as u32);
                        let ghost before = nats_of(groups@);
                        groups.push(hi);
                        groups.push(lo);
                        assert(nats_of(groups@) =~= before + seq![hi as nat, lo as nat]);
                        assert(here.0 =~= seq![hi as nat, lo as nat]);
                        return (groups, p2, true);
                    },
                    None => {},
                },
                None => {},
            }
        }
        match after_colon_at(s, p, i) {
            Some(q) => match read_number_at(s, q, 16, 4, true) {
                Some((g, p2)) => {
                    let ghost next = read_groups(s@, p2 as int, (i + 1) as nat, limit as nat);
                    assert(here.0 =~= seq![g as nat] + next.0);
                    let ghost before = nats_of(groups@);
                    groups.push(g);
                    assert(nats_of(groups@) =~= before.push(g as nat));
                    assert(whole.0 =~= nats_of(groups@) + next.0);
                    p = p2;
                    i += 1;
                },
                None => {
                    assert(here.0 =~= Seq::<nat>::empty());
                    assert(whole.0 =~= nats_of(groups@));
                    return (groups, p, false);
                },
            },
            None => {
                assert(here.0 =~= Seq::<nat>::empty());
                assert(whole.0 =~= nats_of(groups@));
                return (groups, p, false);
            },
        }
    }
    assert(whole.0 =~= nats_of(groups@));
    (groups, p, false)
}

fn read_ipv6_at(s: &[u8]) -> (r: Option<(Vec<u32>, usize)>)
    ensures
        match r {
            Some((g, p)) => read_ipv6(s@, 0) == Some((nats_of(g@), p as int)) && g@.len() == 8
                && forall|k: int| 0 <= k < 8 ==> #[trigger] g@[k] < 65536,
            None => read_ipv6(s@, 0) is None,
        },
{
    let (head, p, head_ipv4) = read_groups_at(s, 0, 8);
    if head.len() == 8 {
        return Some((head, p));
    }
    if head_ipv4 {
        return None;
    }
    if !(p < s.len() && s.len() - p > 1 && s[p] == 58 && s[p + 1] == 58) {
        return None;
    }
    let limit = 8 - (head.len() + 1);
    let (tail, q, _) = read_groups_at(s, p + 2, limit);
    let zeros = 8 - head.len() - tail.len();
    let mut out: Vec<u32> = Vec::new();
    let mut i: usize = 0;
    while i < head.len()
        invariant
            i <= head@.len(),
            head@.len() < 8,
            out@ == head@.take(i as int),
        decreases head@.len() - i,
    {
        out.push(head[i]);
        assert(head@.take(i + 1) =~= head@.take(i as int).push(head@[i as int]));
        i += 1;
    }
    let mut z: usize = 0;
    while z < zeros
        invariant
            z <= zeros,
            out@ == head@ + Seq::new(z as nat, |k: int| 0u32),
        decreases zeros - z,
    {
        out.push(0);
        assert(head@ + Seq::new((z + 1) as nat, |k: int| 0u32) =~= (head@ + Seq::new(z as nat, |k: int| 0u32)).push(0));
        z += 1;
    }
    let mut t: usize = 0;
    while t < tail.len()
        invariant
            t <= tail@.len(),
            out@ == head@ + Seq::new(zeros as nat, |k: int| 0u32) + tail@.take(t as int),
        decreases tail@.len() - t,
    {
        out.push(tail[t]);
        assert(tail@.take(t + 1) =~= tail@.take(t as int).push(tail@[t as int]));
        t += 1;
    }
    assert(tail@.take(t as int) =~= tail@);
    assert(nats_of(out@) =~= nats_of(head@) + zero_groups(zeros as nat) + nats_of(tail@));
    Some((out, q))
}

fn octets_of_groups(g: &Vec<u32>) -> (r: [u8; 16])
    requires
        g@.len() == 8,
        forall|k: int| 0 <= k < 8 ==> #[trigger] g@[k] < 65536,
    ensures
        r@ == group_octets(nats_of(g@)),
{
    let mut o: [u8; 16] = [0u8; 16];
    let mut i: usize = 0;
    while i < 8
        invariant
            i <= 8,
            g@.len() == 8,
            forall|k: int| 0 <= k < 8 ==> #[trigger] g@[k] < 65536,
            forall|k: int| 0 <= k < 2 * i ==> o@[k] == #[trigger] group_octets(nats_of(g@))[k],
        decreases 8 - i,
    {
        let v = g[i];
        o[2 * i] = (v / 256) as u8;
        o[2 * i + 1] = (v % 256) as u8;
        i += 1;
    }
    assert(o@ =~= group_octets(nats_of(g@)));
    o
}

/// Reads an address from text, as `IpAddr` parsing does: a dotted quad,
/// or else an IPv6 address, with nothing after it.
pub fn parse_ip(text: &str) -> (r: Option<IpAddress>)
    ensures
        match r {
            Some(a) => parse_ip_bytes(vstd::utf8::encode_utf8(text@)) == Some(address_view(a)),
            None => parse_ip_bytes(vstd::utf8::encode_utf8(text@)) is None,
        },
{
    parse_ip_slice(text.as_bytes())
}

/// Reads an address from the bytes of a text.
pub fn parse_ip_slice(s: &[u8]) -> (r: Option<IpAddress>)
    ensures
        match r {
            Some(a) => parse_ip_bytes(s@) == Some(address_view(a)),
            None => parse_ip_bytes(s@) is None,
        },
{
    match read_ipv4_at(s, 0) {
        Some((o, p)) => {
            if p == s.len() {
                assert(seq![o[0] as nat as u8, o[1] as nat as u8, o[2] as nat as u8, o[3] as nat as u8] =~= o@);
                Some(IpAddress::V4(o))
            } else {
                None
            }
        },
        None => match read_ipv6_at(s) {
            Some((g, p)) => {
                if p == s.len() {
                    Some(IpAddress::V6(octets_of_groups(&g)))
                } else {
                    None
                }
            },
            None => None,
        },
    }
}

} // verus!
