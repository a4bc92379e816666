use vstd::prelude::*;
use vstd::utf8::encode_utf8;
use crate::identity::filter::{ifname_is_excluded_identity_source, spec_allows, spec_excluded_identity_source, FilterView, IdentityFilter};
use crate::identity::{normalize_ip_address, spec_normalize_ip, spec_parse_mac, MacAddress};
use crate::text::{seq_starts_with, split_whitespace, split_ws, string_from_chars};

verus! {

/// Where the kernel's ARP table is read.
pub const ARP_PROCFS_PATH: &'static str = "/proc/net/arp";

/// Whether `c` is a digit in base `radix` (8, 10 or 16).
pub open spec fn radix_digit(c: char, radix: nat) -> bool {
    if radix == 16 {
        ('0' <= c && c <= '9') || ('a' <= c && c <= 'f') || ('A' <= c && c <= 'F')
    } else if radix == 8 {
        '0' <= c && c <= '7'
    } else {
        '0' <= c && c <= '9'
    }
}

/// Whether the leading run of base-`radix` digits of `d` holds one other
/// than zero.
pub open spec fn leading_nonzero(d: Seq<char>, radix: nat) -> bool
    decreases d.len(),
{
    if d.len() == 0 || !radix_digit(d[0], radix) {
        false
    } else if d[0] != '0' {
        true
    } else {
        leading_nonzero(d.drop_first(), radix)
    }
}

/// Whether a flags column, read as C reads an unsigned number in base zero
/// (an optional sign, then `0x` for hexadecimal, a leading `0` for octal,
/// else decimal, as far as the digits go), is other than zero.
pub open spec fn flags_nonzero(v: Seq<char>) -> bool {
    let body = if v.len() > 0 && (v[0] == '-' || v[0] == '+') {
        v.drop_first()
    } else {
        v
    };
    if seq_starts_with(body, "0x"@) || seq_starts_with(body, "0X"@) {
        leading_nonzero(body.skip(2), 16)
    } else if body.len() > 1 && body[0] == '0' {
        leading_nonzero(body.drop_first(), 8)
    } else {
        leading_nonzero(body, 10)
    }
}

fn is_radix_digit(c: char, radix: u32) -> (r: bool)
    ensures
        r == radix_digit(c, radix as nat),
{
    if radix == 16 {
        ('0' <= c && c <= '9') || ('a' <= c && c <= 'f') || ('A' <= c && c <= 'F')
    } else if radix == 8 {
        '0' <= c && c <= '7'
    } else {
        '0' <= c && c <= '9'
    }
}

fn leading_nonzero_from(v: &Vec<char>, lo: usize, radix: u32) -> (r: bool)
    requires
        lo <= v@.len(),
    ensures
        r == leading_nonzero(v@.skip(lo as int), radix as nat),
{
    let mut i = lo;
    while i < v.len()
        invariant
            lo <= i <= v@.len(),
            leading_nonzero(v@.skip(lo as int), radix as nat) == leading_nonzero(v@.skip(i as int), radix as nat),
        decreases v@.len() - i,
    {
        assert(v@.skip(i as int)[0] == v@[i as int]);
        assert(v@.skip(i as int).drop_first() =~= v@.skip(i + 1));
        if !is_radix_digit(v[i], radix) {
            return false;
        }
        if v[i] != '0' {
            return true;
        }
        i += 1;
    }
    assert(v@.skip(i as int).len() == 0);
    false
}

fn is_flags_nonzero(v: &Vec<char>) -> (r: bool)
    ensures
        r == flags_nonzero(v@),
{
    let start: usize = if v.len() > 0 && (v[0] == '-' || v[0] == '+') {
        1
    } else {
        0
    };
    let ghost body = v@.skip(start as int);
    assert(start == 0 ==> body =~= v@);
    assert(start == 1 ==> body =~= v@.drop_first());
    let n = v.len();
    if n - start >= 2 && v[start] == '0' && (v[start + 1] == 'x' || v[start + 1] == 'X') {
        assert(body.skip(2) =~= v@.skip(start + 2));
        assert(seq_starts_with(body, "0x"@) || seq_starts_with(body, "0X"@)) by {
            reveal_strlit("0x");
            reveal_strlit("0X");
            assert(body[0] == v@[start as int] && body[1] == v@[start + 1]);
            if v@[start + 1] == 'x' {
                assert(body.take(2) =~= "0x"@);
            } else {
                assert(body.take(2) =~= "0X"@);
            }
        }
        leading_nonzero_from(v, start + 2, 16)
    } else {
        assert(!(seq_starts_with(body, "0x"@) || seq_starts_with(body, "0X"@))) by {
            reveal_strlit("0x");
            reveal_strlit("0X");
            if body.len() >= 2 {
                assert(body[0] == v@[start as int] && body[1] == v@[start + 1]);
                assert(body.take(2)[0] == body[0] && body.take(2)[1] == body[1]);
            }
        }
        if n - start > 1 && v[start] == '0' {
            assert(body.drop_first() =~= v@.skip(start + 1));
            leading_nonzero_from(v, start + 1, 8)
        } else {
            leading_nonzero_from(v, start, 10)
        }
    }
}

/// A row of the ARP table by its values.
pub struct ArpRowView {
    pub ip: Seq<char>,
    pub mac: Seq<u8>,
    pub interface: Seq<char>,
}

/// A client seen in the ARP table: its address in canonical text, its MAC
/// and its interface. The zone is the caller's to resolve.
#[derive(Clone, Debug, Eq, PartialEq)]
pub struct ArpRow {
    pub ip: String,
    pub mac: MacAddress,
    pub interface: String,
}

pub open spec fn row_view(r: ArpRow) -> ArpRowView {
    ArpRowView { ip: r.ip@, mac: r.mac@, interface: r.interface@ }
}

pub open spec fn rows_view(v: Seq<ArpRow>) -> Seq<ArpRowView> {
    v.map_values(|r: ArpRow| row_view(r))
}

/// The lines of `s`: the pieces between newlines, the last one included.
pub open spec fn text_lines(s: Seq<char>) -> Seq<Seq<char>>
    decreases s.len(),
{
    if s.len() == 0 {
        seq![Seq::empty()]
    } else {
        let prev = text_lines(s.drop_last());
        if s.last() == '\n' {
            prev.push(Seq::empty())
        } else {
            prev.update(prev.len() - 1, prev.last().push(s.last()))
        }
    }
}

proof fn lemma_text_lines_len(s: Seq<char>)
    ensures
        text_lines(s).len() >= 1,
    decreases s.len(),
{
    if s.len() > 0 {
        lemma_text_lines_len(s.drop_last());
    }
}

/// The row one ARP table line gives: at least six columns, the flags other
/// than zero, a client MAC, an interface that is no proxy or tunnel, and an
/// address the filter lets through.
pub open spec fn arp_row(line: Seq<char>, f: FilterView) -> Option<ArpRowView> {
    let cols = split_ws(line);
    if cols.len() < 6 || !flags_nonzero(cols[2]) {
        None
    } else {
        match spec_parse_mac(encode_utf8(cols[3])) {
            None => None,
            Some(m) => if spec_excluded_identity_source(cols[5]) {
                None
            } else {
                match spec_normalize_ip(cols[0]) {
                    None => None,
                    Some(ip) => if spec_allows(f, cols[5], ip) {
                        Some(ArpRowView { ip, mac: m, interface: cols[5] })
                    } else {
                        None
                    },
                }
            },
        }
    }
}

/// The rows that table lines give, up to `max` of them.
pub open spec fn arp_rows(lines: Seq<Seq<char>>, f: FilterView, max: nat) -> Seq<ArpRowView>
    decreases lines.len(),
{
    if lines.len() == 0 {
        Seq::empty()
    } else {
        let prev = arp_rows(lines.drop_last(), f, max);
        if prev.len() >= max {
            prev
        } else {
            match arp_row(lines.last(), f) {
                Some(r) => prev.push(r),
                None => prev,
            }
        }
    }
}

/// `s` without its first item, the header line.
pub open spec fn after_header<A>(s: Seq<A>) -> Seq<A> {
    if s.len() == 0 {
        Seq::empty()
    } else {
        s.skip(1)
    }
}

/// The rows of an ARP table's text, its header line passed over.
pub open spec fn arp_table(contents: Seq<char>, f: FilterView, max: nat) -> Seq<ArpRowView> {
    arp_rows(after_header(text_lines(contents)), f, max)
}

fn row_of(cs: &Vec<char>, lo: usize, hi: usize, filter: &IdentityFilter) -> (r: Option<ArpRow>)
    requires
        lo <= hi <= cs@.len(),
    ensures
        match arp_row(cs@.subrange(lo as int, hi as int), filter@) {
            Some(v) => r matches Some(x) && row_view(x) == v,
            None => r is None,
        },
{
    let cols = split_whitespace(cs, lo, hi);
    let ghost cv = cols@.map_values(|w: Vec<char>| w@);
    if cols.len() < 6 {
        return None;
    }
    assert(cv[2] == cols@[2]@ && cv[3] == cols@[3]@ && cv[5] == cols@[5]@ && cv[0] == cols@[0]@);
    if !is_flags_nonzero(&cols[2]) {
        return None;
    }
    let mac_text = string_from_chars(cols[3].as_slice());
    let mac = match MacAddress::parse(mac_text.as_str()) {
        Ok(m) => m,
        Err(_) => return None,
    };
    let interface = string_from_chars(cols[5].as_slice());
    if ifname_is_excluded_identity_source(interface.as_str()) {
        return None;
    }
    let ip_text = string_from_chars(cols[0].as_slice());
    let ip = match normalize_ip_address(ip_text.as_str()) {
        Some(ip) => ip,
        None => return None,
    };
    if !filter.allows(interface.as_str(), ip.as_str()) {
        return None;
    }
    Some(ArpRow { ip, mac, interface })
}

proof fn lemma_lines_step(cs: Seq<char>, i: int, start: int)
    requires
        0 <= start <= i < cs.len(),
        text_lines(cs.take(i)).last() == cs.subrange(start, i),
    ensures
        text_lines(cs.take(i)).len() >= 1,
        cs[i] == '\n' ==> text_lines(cs.take(i + 1)) == text_lines(cs.take(i)).push(Seq::<char>::empty()),
        cs[i] != '\n' ==> text_lines(cs.take(i + 1)).len() == text_lines(cs.take(i)).len()
            && text_lines(cs.take(i + 1)).drop_last() == text_lines(cs.take(i)).drop_last()
            && text_lines(cs.take(i + 1)).last() == cs.subrange(start, i + 1),
{
    let t = cs.take(i);
    lemma_text_lines_len(t);
    assert(cs.take(i + 1).drop_last() =~= t);
    assert(cs.take(i + 1).last() == cs[i]);
    if cs[i] != '\n' {
        let prev = text_lines(t);
        let next = prev.update(prev.len() - 1, prev.last().push(cs[i]));
        assert(next.drop_last() =~= prev.drop_last());
        assert(cs.subrange(start, i + 1) =~= prev.last().push(cs[i]));
    }
}

proof fn lemma_rows_push(done: Seq<Seq<char>>, line: Seq<char>, f: FilterView, max: nat)
    ensures
        arp_rows(done.push(line), f, max) == (if arp_rows(done, f, max).len() >= max {
            arp_rows(done, f, max)
        } else {
            match arp_row(line, f) {
                Some(r) => arp_rows(done, f, max).push(r),
                None => arp_rows(done, f, max),
            }
        }),
{
    assert(done.push(line).drop_last() =~= done);
}

proof fn lemma_skip_push<A>(s: Seq<A>)
    requires
        s.len() >= 1,
    ensures
        s.len() >= 2 ==> after_header(s) == after_header(s.drop_last()).push(s.last()),
        s.len() == 1 ==> after_header(s) == Seq::<A>::empty() && after_header(s.drop_last()) == Seq::<A>::empty(),
{
    if s.len() >= 2 {
        assert(after_header(s) =~= after_header(s.drop_last()).push(s.last()));
    } else {
        assert(after_header(s) =~= Seq::<A>::empty());
    }
}

/// Reads the rows of an ARP table's text, up to `max_entries` of them.
pub fn parse_arp_table(contents: &str, max_entries: usize, filter: &IdentityFilter) -> (r: Vec<ArpRow>)
    ensures
        rows_view(r@) == arp_table(contents@, filter@, max_entries as nat),
{
    let cs = crate::text::str_chars(contents);
    let n = cs.len();
    let mut rows: Vec<ArpRow> = Vec::new();
    let mut start: usize = 0;
    let mut line_no: usize = 0;
    let mut i: usize = 0;
    let ghost mut done: Seq<Seq<char>> = Seq::empty();
    proof {
        assert(cs@.take(0) =~= Seq::<char>::empty());
        assert(text_lines(cs@.take(0)) == seq![Seq::<char>::empty()]);
        assert(seq![Seq::<char>::empty()].drop_last() =~= Seq::<Seq<char>>::empty());
        assert(cs@.subrange(0, 0) =~= Seq::<char>::empty());
        assert(rows_view(rows@) =~= Seq::<ArpRowView>::empty());
    }
    while i < n
        invariant
            i <= n,
            n == cs@.len(),
            start <= i,
            done == text_lines(cs@.take(i as int)).drop_last(),
            line_no == done.len(),
            line_no <= i,
            text_lines(cs@.take(i as int)).len() == done.len() + 1,
            text_lines(cs@.take(i as int)).last() == cs@.subrange(start as int, i as int),
            rows_view(rows@) == arp_rows(after_header(done), filter@, max_entries as nat),
        decreases n - i,
    {
        proof {
            lemma_lines_step(cs@, i as int, start as int);
        }
        if cs[i] == '\n' {
            let ghost line = cs@.subrange(start as int, i as int);
            let ghost old_rows = rows_view(rows@);
            if line_no >= 1 && rows.len() < max_entries {
                match row_of(&cs, start, i, filter) {
                    Some(row) => {
                        rows.push(row);
                        assert(rows_view(rows@) =~= old_rows.push(row_view(row)));
                    },
                    None => {},
                }
            }
            proof {
                let full = done.push(line);
                assert(full.drop_last() =~= done);
                assert(full.last() == line);
                lemma_skip_push(full);
                if line_no >= 1 {
                    lemma_rows_push(after_header(done), line, filter@, max_entries as nat);
                }
                assert(text_lines(cs@.take(i + 1)).drop_last() =~= full);
                done = full;
                assert(cs@.subrange(i + 1, i + 1) =~= Seq::<char>::empty());
            }
            start = i + 1;
            line_no += 1;
        }
        i += 1;
    }
    let ghost line = cs@.subrange(start as int, n as int);
    let ghost old_rows = rows_view(rows@);
    proof {
        assert(cs@.take(n as int) =~= contents@);
    }
    if line_no >= 1 && rows.len() < max_entries {
        match row_of(&cs, start, n, filter) {
            Some(row) => {
                rows.push(row);
                assert(rows_view(rows@) =~= old_rows.push(row_view(row)));
            },
            None => {},
        }
    }
    proof {
        let lines = text_lines(contents@);
        assert(lines =~= done.push(line));
        assert(lines.drop_last() =~= done);
        lemma_skip_push(lines);
        if line_no >= 1 {
            lemma_rows_push(after_header(done), line, filter@, max_entries as nat);
        }
    }
    rows
}

} // verus!
