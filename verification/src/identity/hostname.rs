use vstd::prelude::*;
use vstd::utf8::{decode_utf8, valid_utf8};
use crate::text::{is_ws, is_whitespace, str_chars, str_eq, string_from_chars};

verus! {

pub const HOSTNAME_CACHE_MAX: usize = 1024;

pub const HOSTNAME_REFRESH_MS: u64 = 10_000;

pub const HOSTNAME_MAX_LINE_BYTES: usize = 512;

pub const HOSTNAME_MAX_SOURCE_BYTES: usize = 1_048_576;

pub const HOSTNAME_MAX_HOST_FILES: usize = HOSTNAME_CACHE_MAX;

pub const HOSTNAME_MAX_DIR_ENTRIES: usize = 4_096;

pub const HOSTNAME_DHCP_CONFIG_PATH: &'static str = "/etc/config/dhcp";

/// The text of bytes that form valid UTF-8.
///
/// Trusted: calls `std::str::from_utf8`, which std documents to succeed
/// exactly when the bytes are valid UTF-8, and then to view them as the
/// string they encode; the text is copied into a `String`.
#[verifier::external_body]
pub fn utf8_text(bytes: &[u8]) -> (r: Option<String>)
    ensures
        match r {
            Some(s) => valid_utf8(bytes@) && s@ == decode_utf8(bytes@),
            None => !valid_utf8(bytes@),
        },
{
    match std::str::from_utf8(bytes) {
        Ok(text) => Some(text.to_owned()),
        Err(_) => None,
    }
}

/// The pieces of `s` between newline bytes, the last one unterminated.
pub open spec fn byte_lines(s: Seq<u8>) -> Seq<Seq<u8>>
    decreases s.len(),
{
    if s.len() == 0 {
        seq![Seq::empty()]
    } else {
        let prev = byte_lines(s.drop_last());
        if s.last() == 10u8 {
            prev.push(Seq::empty())
        } else {
            prev.drop_last().push(prev.last().push(s.last()))
        }
    }
}

proof fn lemma_byte_lines_nonempty(s: Seq<u8>)
    ensures
        byte_lines(s).len() >= 1,
    decreases s.len(),
{
    if s.len() > 0 {
        lemma_byte_lines_nonempty(s.drop_last());
    }
}

/// `s` without its trailing carriage returns.
pub open spec fn strip_cr(s: Seq<char>) -> Seq<char>
    decreases s.len(),
{
    if s.len() > 0 && s.last() == '\r' {
        strip_cr(s.drop_last())
    } else {
        s
    }
}

/// A line is visited when it fits the line limit and is valid UTF-8.
pub open spec fn line_visible(piece: Seq<u8>) -> bool {
    piece.len() <= HOSTNAME_MAX_LINE_BYTES && valid_utf8(piece)
}

pub open spec fn line_text(piece: Seq<u8>) -> Seq<char> {
    strip_cr(decode_utf8(piece))
}

/// The visible lines among `pieces`, as text.
pub open spec fn visible_texts(pieces: Seq<Seq<u8>>) -> Seq<Seq<char>>
    decreases pieces.len(),
{
    if pieces.len() == 0 {
        Seq::empty()
    } else {
        let prev = visible_texts(pieces.drop_last());
        if line_visible(pieces.last()) {
            prev.push(line_text(pieces.last()))
        } else {
            prev
        }
    }
}

/// The lines that a bounded read of `data` visits: only the first `budget`
/// bytes are read; every newline-terminated line that fits the line limit and
/// is valid UTF-8 is visited without its trailing carriage returns; the
/// unterminated last line is visited too when the read reached the end
/// before the budget ran out.
pub open spec fn bounded_lines(data: Seq<u8>, budget: nat) -> Seq<Seq<char>> {
    let n = if data.len() < budget {
        data.len()
    } else {
        budget
    };
    let pieces = byte_lines(data.take(n as int));
    let texts = visible_texts(pieces.drop_last());
    let last = pieces.last();
    if data.len() < budget && last.len() > 0 && line_visible(last) {
        texts.push(line_text(last))
    } else {
        texts
    }
}

fn strip_trailing_cr(s: String) -> (r: String)
    ensures
        r@ == strip_cr(s@),
{
    let cs = str_chars(s.as_str());
    let mut end = cs.len();
    assert(cs@.take(end as int) =~= cs@);
    while end > 0 && cs[end - 1] == '\r'
        invariant
            end <= cs@.len(),
            strip_cr(cs@) == strip_cr(cs@.take(end as int)),
        decreases end,
    {
        assert(cs@.take(end as int).drop_last() =~= cs@.take(end - 1));
        end -= 1;
    }
    assert(cs@.subrange(0, end as int) =~= cs@.take(end as int));
    crate::text::string_from_range(&cs, 0, end)
}

/// The text of a line if it is to be visited.
fn visit_text(line: &Vec<u8>, overlong: bool) -> (r: Option<String>)
    ensures
        match r {
            Some(t) => !overlong && valid_utf8(line@) && t@ == line_text(line@),
            None => overlong || !valid_utf8(line@),
        },
{
    if overlong {
        return None;
    }
    match utf8_text(line.as_slice()) {
        Some(text) => Some(strip_trailing_cr(text)),
        None => None,
    }
}

/// The lines of a bounded read of `data`, and the number of bytes read.
pub fn read_bounded_lines(data: &[u8], budget: usize) -> (r: (Vec<String>, usize))
    ensures
        r.0@.map_values(|s: String| s@) == bounded_lines(data@, budget as nat),
        r.1 == (if data@.len() < budget {
            data@.len()
        } else {
            budget as nat
        }),
{
    let n = if data.len() < budget {
        data.len()
    } else {
        budget
    };
    let ghost s = data@.take(n as int);
    let mut out: Vec<String> = Vec::new();
    let mut line: Vec<u8> = Vec::new();
    let mut overlong = false;
    let mut i: usize = 0;
    proof {
        assert(s.take(0) =~= Seq::<u8>::empty());
        assert(out@.map_values(|t: String| t@) =~= Seq::<Seq<char>>::empty());
    }
    while i < n
        invariant
            n <= data@.len(),
            s == data@.take(n as int),
            i <= n,
            byte_lines(s.take(i as int)).len() >= 1,
            out@.map_values(|t: String| t@) == visible_texts(byte_lines(s.take(i as int)).drop_last()),
            line@ == byte_lines(s.take(i as int)).last().take(
                if byte_lines(s.take(i as int)).last().len() < HOSTNAME_MAX_LINE_BYTES {
                    byte_lines(s.take(i as int)).last().len() as int
                } else {
                    HOSTNAME_MAX_LINE_BYTES as int
                },
            ),
            overlong == (byte_lines(s.take(i as int)).last().len() > HOSTNAME_MAX_LINE_BYTES),
        decreases n - i,
    {
        let b = data[i];
        let ghost before = s.take(i as int);
        let ghost after = s.take(i + 1);
        assert(after.drop_last() =~= before);
        assert(after.last() == b);
        let ghost prev = byte_lines(before);
        let ghost cur = prev.last();
        if b == 10u8 {
            let ghost texts = out@.map_values(|t: String| t@);
            assert(byte_lines(after) == prev.push(Seq::empty()));
            assert(byte_lines(after).drop_last() =~= prev);
            assert(prev =~= prev.drop_last().push(cur));
            assert(!overlong ==> line@ =~= cur);
            match visit_text(&line, overlong) {
                Some(t) => {
                    out.push(t);
                    assert(out@.map_values(|t: String| t@) =~= texts.push(line_text(cur)));
                },
                None => {},
            }
            line = Vec::new();
            overlong = false;
            assert(line@ =~= byte_lines(after).last().take(0));
        } else {
            assert(byte_lines(after) == prev.drop_last().push(cur.push(b)));
            assert(byte_lines(after).drop_last() =~= prev.drop_last());
            if line.len() < HOSTNAME_MAX_LINE_BYTES {
                line.push(b);
                assert(line@ =~= cur.push(b).take(line@.len() as int));
            } else {
                overlong = true;
                assert(line@ =~= cur.push(b).take(HOSTNAME_MAX_LINE_BYTES as int));
            }
        }
        i += 1;
    }
    let ghost pieces = byte_lines(s);
    assert(s.take(n as int) =~= s);
    if data.len() < budget && line.len() > 0 && !overlong {
        let ghost texts = out@.map_values(|t: String| t@);
        assert(line@ =~= pieces.last());
        match utf8_text(line.as_slice()) {
            Some(text) => {
                let t = strip_trailing_cr(text);
                out.push(t);
                assert(out@.map_values(|t: String| t@) =~= texts.push(line_text(pieces.last())));
            },
            None => {},
        }
    } else {
        proof {
            if data.len() < budget && line.len() > 0 {
                assert(pieces.last().len() > HOSTNAME_MAX_LINE_BYTES);
            } else if data.len() < budget {
                assert(pieces.last().len() == 0);
            }
        }
    }
    (out, n)
}

} // verus!

verus! {

/// The number of bytes that UTF-8 spends on a character.
pub open spec fn char_width(c: char) -> int {
    if (c as u32) < 0x80 {
        1
    } else if (c as u32) < 0x800 {
        2
    } else if (c as u32) < 0x10000 {
        3
    } else {
        4
    }
}

fn width_of(c: char) -> (r: usize)
    ensures
        r == char_width(c),
{
    let u = c as u32;
    if u < 0x80 {
        1
    } else if u < 0x800 {
        2
    } else if u < 0x10000 {
        3
    } else {
        4
    }
}

/// The longest prefix of `s` that fits in `max` bytes of UTF-8.
pub open spec fn fit_prefix(s: Seq<char>, max: int) -> Seq<char>
    decreases s.len(),
{
    if s.len() == 0 || char_width(s[0]) > max {
        Seq::empty()
    } else {
        seq![s[0]] + fit_prefix(s.drop_first(), max - char_width(s[0]))
    }
}

/// `value` cut to at most `max_bytes` bytes, at a character boundary.
pub fn bounded_ascii_token(value: &str, max_bytes: usize) -> (r: &str)
    ensures
        r@ == fit_prefix(value@, max_bytes as int),
{
    let cs = str_chars(value);
    let mut i: usize = 0;
    let mut room: usize = max_bytes;
    assert(cs@.skip(0) =~= cs@);
    while i < cs.len() && width_of(cs[i]) <= room
        invariant
            i <= cs@.len(),
            cs@ == value@,
            room <= max_bytes,
            fit_prefix(value@, max_bytes as int) == cs@.take(i as int) + fit_prefix(
                cs@.skip(i as int),
                room as int,
            ),
        decreases cs@.len() - i,
    {
        let w = width_of(cs[i]);
        assert(cs@.skip(i as int).drop_first() =~= cs@.skip(i + 1));
        assert(cs@.take(i + 1) =~= cs@.take(i as int) + seq![cs@[i as int]]);
        room = room - w;
        i += 1;
    }
    assert(fit_prefix(cs@.skip(i as int), room as int) =~= Seq::<char>::empty());
    assert(cs@.take(i as int) + Seq::<char>::empty() =~= cs@.take(i as int));
    value.substring_char(0, i)
}

/// A character with ASCII capitals lowered.
pub open spec fn lower_char(c: char) -> char {
    if 'A' <= c <= 'Z' {
        ((c as u8) + 32) as char
    } else {
        c
    }
}

pub open spec fn ascii_lowercase(s: Seq<char>) -> Seq<char> {
    s.map_values(|c: char| lower_char(c))
}

pub fn to_ascii_lowercase(value: &str) -> (r: String)
    ensures
        r@ == ascii_lowercase(value@),
{
    let cs = str_chars(value);
    let mut out: Vec<char> = Vec::new();
    let mut i: usize = 0;
    while i < cs.len()
        invariant
            i <= cs@.len(),
            out@ == ascii_lowercase(cs@.take(i as int)),
        decreases cs@.len() - i,
    {
        let c = cs[i];
        let l = if 'A' <= c && c <= 'Z' {
            ((c as u8) + 32) as char
        } else {
            c
        };
        out.push(l);
        assert(cs@.take(i + 1) =~= cs@.take(i as int).push(c));
        assert(out@ =~= ascii_lowercase(cs@.take(i + 1)));
        i += 1;
    }
    assert(cs@.take(i as int) =~= cs@);
    string_from_chars(out.as_slice())
}

/// A usable host name: not empty, not a placeholder, no whitespace.
pub open spec fn spec_hostname_valid(name: Seq<char>) -> bool {
    name.len() > 0 && name != "*"@ && name != "-"@ && !(exists|i: int|
        0 <= i < name.len() && #[trigger] is_ws(name[i]))
}

pub fn hostname_valid(name: &str) -> (r: bool)
    ensures
        r == spec_hostname_valid(name@),
{
    if name.is_empty() || str_eq(name, "*") || str_eq(name, "-") {
        return false;
    }
    let cs = str_chars(name);
    let mut i: usize = 0;
    while i < cs.len()
        invariant
            i <= cs@.len(),
            cs@ == name@,
            forall|j: int| 0 <= j < i ==> !#[trigger] is_ws(cs@[j]),
        decreases cs@.len() - i,
    {
        if is_whitespace(cs[i]) {
            assert(is_ws(name@[i as int]));
            return false;
        }
        i += 1;
    }
    true
}

/// The text of a quoted UCI value after its opening quote: backslash
/// escapes the next character, and the closing quote ends it.
pub open spec fn unquote(s: Seq<char>, quote: char, escaped: bool) -> Seq<char>
    decreases s.len(),
{
    if s.len() == 0 {
        Seq::empty()
    } else if escaped {
        seq![s[0]] + unquote(s.drop_first(), quote, false)
    } else if s[0] == '\\' {
        unquote(s.drop_first(), quote, true)
    } else if s[0] == quote {
        Seq::empty()
    } else {
        seq![s[0]] + unquote(s.drop_first(), quote, false)
    }
}

/// The value of one UCI value text: trimmed; quoted text unquoted, else its
/// first word.
pub open spec fn spec_uci_value(value: Seq<char>) -> Seq<char> {
    let v = crate::text::trim(value);
    if v.len() == 0 {
        Seq::empty()
    } else if v[0] == '\'' || v[0] == '"' {
        unquote(v.drop_first(), v[0], false)
    } else {
        crate::text::split_ws(v)[0]
    }
}

fn unquote_from(cs: &Vec<char>, i: usize, quote: char, escaped: bool) -> (r: Vec<char>)
    requires
        i <= cs@.len(),
    ensures
        r@ == unquote(cs@.skip(i as int), quote, escaped),
    decreases cs@.len() - i,
{
    if i >= cs.len() {
        return Vec::new();
    }
    let c = cs[i];
    assert(cs@.skip(i as int).drop_first() =~= cs@.skip(i + 1));
    assert(cs@.skip(i as int)[0] == c);
    if escaped {
        let rest = unquote_from(cs, i + 1, quote, false);
        let mut out: Vec<char> = vec![c];
        let mut rest = rest;
        out.append(&mut rest);
        assert(out@ =~= seq![c] + unquote(cs@.skip(i + 1), quote, false));
        out
    } else if c == '\\' {
        unquote_from(cs, i + 1, quote, true)
    } else if c == quote {
        Vec::new()
    } else {
        let rest = unquote_from(cs, i + 1, quote, false);
        let mut out: Vec<char> = vec![c];
        let mut rest = rest;
        out.append(&mut rest);
        assert(out@ =~= seq![c] + unquote(cs@.skip(i + 1), quote, false));
        out
    }
}

pub fn parse_uci_value(value: &str) -> (r: String)
    ensures
        r@ == spec_uci_value(value@),
{
    let cs = str_chars(value);
    let (lo, hi) = crate::text::trim_range(&cs, 0, cs.len());
    assert(cs@.subrange(0, cs@.len() as int) =~= cs@);
    if lo == hi {
        return String::new();
    }
    let ghost v = cs@.subrange(lo as int, hi as int);
    proof {
        crate::text::lemma_trim_first(cs@);
    }
    let q = cs[lo];
    assert(v[0] == q);
    if q != '\'' && q != '"' {
        let words = crate::text::split_whitespace(&cs, lo, hi);
        proof {
            crate::text::lemma_split_ws_first(v);
        }
        return string_from_chars(words[0].as_slice());
    }
    let inner: Vec<char> = slice_chars(&cs, lo + 1, hi);
    assert(inner@ =~= v.drop_first());
    assert(inner@.skip(0) =~= inner@);
    let out = unquote_from(&inner, 0, q, false);
    string_from_chars(out.as_slice())
}

fn slice_chars(cs: &Vec<char>, lo: usize, hi: usize) -> (r: Vec<char>)
    requires
        lo <= hi <= cs@.len(),
    ensures
        r@ == cs@.subrange(lo as int, hi as int),
{
    let mut out: Vec<char> = Vec::new();
    let mut i = lo;
    while i < hi
        invariant
            lo <= i <= hi <= cs@.len(),
            out@ == cs@.subrange(lo as int, i as int),
        decreases hi - i,
    {
        out.push(cs[i]);
        assert(out@ =~= cs@.subrange(lo as int, i + 1));
        i += 1;
    }
    out
}

} // verus!

verus! {

/// Where the closing quote of a quoted UCI value is, after its opening
/// quote, backslash escapes taken into account.
pub open spec fn closing_quote(s: Seq<char>, quote: char, escaped: bool) -> Option<int>
    decreases s.len(),
{
    if s.len() == 0 {
        None
    } else if escaped {
        match closing_quote(s.drop_first(), quote, false) {
            Some(j) => Some(j + 1),
            None => None,
        }
    } else if s[0] == '\\' {
        match closing_quote(s.drop_first(), quote, true) {
            Some(j) => Some(j + 1),
            None => None,
        }
    } else if s[0] == quote {
        Some(0)
    } else {
        match closing_quote(s.drop_first(), quote, false) {
            Some(j) => Some(j + 1),
            None => None,
        }
    }
}

pub proof fn lemma_closing_quote_bound(s: Seq<char>, quote: char, escaped: bool)
    ensures
        closing_quote(s, quote, escaped) matches Some(j) ==> 0 <= j < s.len(),
    decreases s.len(),
{
    if s.len() > 0 {
        lemma_closing_quote_bound(s.drop_first(), quote, false);
        lemma_closing_quote_bound(s.drop_first(), quote, true);
    }
}

/// The values of a UCI list text: quoted values unquoted (an unclosed quote
/// ends the list), other values split at single whitespace characters.
pub open spec fn uci_values(rest: Seq<char>) -> Seq<Seq<char>>
    decreases rest.len(),
{
    let r = crate::text::trim_start(rest);
    proof {
        crate::text::lemma_trim_start_len(rest);
        lemma_closing_quote_bound(r.drop_first(), r[0], false);
        crate::text::lemma_first_ws(r);
    }
    if r.len() == 0 {
        Seq::empty()
    } else if r[0] == '\'' || r[0] == '"' {
        match closing_quote(r.drop_first(), r[0], false) {
            None => Seq::empty(),
            Some(j) => seq![spec_uci_value(r.take(j + 2))] + uci_values(r.skip(j + 2)),
        }
    } else {
        let k = crate::text::first_ws(r);
        if k < 0 {
            seq![r]
        } else {
            seq![r.take(k)] + uci_values(r.skip(k + 1))
        }
    }
}

fn closing_from(cs: &Vec<char>, i: usize, quote: char, escaped: bool) -> (r: Option<usize>)
    requires
        i <= cs@.len(),
    ensures
        match r {
            Some(k) => i <= k < cs@.len() && closing_quote(
                cs@.subrange(i as int, cs@.len() as int),
                quote,
                escaped,
            ) == Some(k - i),
            None => closing_quote(cs@.subrange(i as int, cs@.len() as int), quote, escaped) is None,
        },
    decreases cs@.len() - i,
{
    if i >= cs.len() {
        return None;
    }
    let c = cs[i];
    let ghost s = cs@.subrange(i as int, cs@.len() as int);
    assert(s.drop_first() =~= cs@.subrange(i + 1, cs@.len() as int));
    if escaped {
        closing_from(cs, i + 1, quote, false)
    } else if c == '\\' {
        closing_from(cs, i + 1, quote, true)
    } else if c == quote {
        Some(i)
    } else {
        closing_from(cs, i + 1, quote, false)
    }
}

/// The value of the text `cs[lo..hi]`.
fn uci_value_of(cs: &Vec<char>, lo: usize, hi: usize) -> (r: Vec<char>)
    requires
        lo <= hi <= cs@.len(),
    ensures
        r@ == spec_uci_value(cs@.subrange(lo as int, hi as int)),
{
    let ghost full = cs@.subrange(lo as int, hi as int);
    let (a, b) = crate::text::trim_range(cs, lo, hi);
    if a == b {
        return Vec::new();
    }
    let ghost v = cs@.subrange(a as int, b as int);
    proof {
        crate::text::lemma_trim_first(full);
    }
    let q = cs[a];
    assert(v[0] == q);
    if q != '\'' && q != '"' {
        let words = crate::text::split_whitespace(cs, a, b);
        proof {
            crate::text::lemma_split_ws_first(v);
        }
        return slice_chars(&words[0], 0, words[0].len());
    }
    let inner: Vec<char> = slice_chars(cs, a + 1, b);
    assert(inner@ =~= v.drop_first());
    assert(inner@.skip(0) =~= inner@);
    unquote_from(&inner, 0, q, false)
}

fn uci_values_from(cs: &Vec<char>, i: usize) -> (r: Vec<String>)
    requires
        i <= cs@.len(),
    ensures
        r@.map_values(|s: String| s@) == uci_values(cs@.subrange(i as int, cs@.len() as int)),
    decreases cs@.len() - i,
{
    let n = cs.len();
    let ghost rest = cs@.subrange(i as int, n as int);
    let j = crate::text::skip_ws(cs, i, n);
    let ghost r = cs@.subrange(j as int, n as int);
    if j == n {
        let out: Vec<String> = Vec::new();
        assert(out@.map_values(|s: String| s@) =~= Seq::<Seq<char>>::empty());
        return out;
    }
    let c = cs[j];
    assert(r[0] == c);
    if c == '\'' || c == '"' {
        assert(r.drop_first() =~= cs@.subrange(j + 1, n as int));
        match closing_from(cs, j + 1, c, false) {
            None => {
                let out: Vec<String> = Vec::new();
                assert(out@.map_values(|s: String| s@) =~= Seq::<Seq<char>>::empty());
                out
            },
            Some(k) => {
                let ghost jj = k - (j + 1);
                assert(r.take(jj + 2) =~= cs@.subrange(j as int, k + 1));
                assert(r.skip(jj + 2) =~= cs@.subrange(k + 1, n as int));
                let value = uci_value_of(cs, j, k + 1);
                let first = string_from_chars(value.as_slice());
                let rest_values = uci_values_from(cs, k + 1);
                let mut out: Vec<String> = Vec::new();
                out.push(first);
                let mut rest_values = rest_values;
                let ghost tail = rest_values@.map_values(|s: String| s@);
                out.append(&mut rest_values);
                assert(out@.map_values(|s: String| s@) =~= seq![value@] + tail);
                out
            },
        }
    } else {
        match crate::text::find_ws(cs, j, n) {
            None => {
                let mut out: Vec<String> = Vec::new();
                out.push(crate::text::string_from_range(cs, j, n));
                assert(out@.map_values(|s: String| s@) =~= seq![r]);
                out
            },
            Some(w) => {
                assert(r.take(w as int) =~= cs@.subrange(j as int, j + w));
                assert(r.skip(w + 1) =~= cs@.subrange(j + w + 1, n as int));
                let first = crate::text::string_from_range(cs, j, j + w);
                let rest_values = uci_values_from(cs, j + w + 1);
                let mut out: Vec<String> = Vec::new();
                out.push(first);
                let mut rest_values = rest_values;
                let ghost tail = rest_values@.map_values(|s: String| s@);
                out.append(&mut rest_values);
                assert(out@.map_values(|s: String| s@) =~= seq![r.take(w as int)] + tail);
                out
            },
        }
    }
}

/// The values of a UCI option or list text.
pub fn parse_uci_values(value: &str) -> (r: Vec<String>)
    ensures
        r@.map_values(|s: String| s@) == uci_values(crate::text::trim(value@)),
{
    let cs = str_chars(value);
    let (lo, hi) = crate::text::trim_range(&cs, 0, cs.len());
    assert(cs@.subrange(0, cs@.len() as int) =~= cs@);
    let trimmed = slice_chars(&cs, lo, hi);
    assert(trimmed@.subrange(0, trimmed@.len() as int) =~= trimmed@);
    uci_values_from(&trimmed, 0)
}

} // verus!

verus! {

/// Where host names are read from.
#[derive(Clone, Debug)]
pub struct HostnamePaths {
    pub leases: String,
    pub hosts_dir: String,
    pub etc_hosts: String,
}

impl Default for HostnamePaths {
    fn default() -> (r: Self)
        ensures
            r.leases@ == "/tmp/dhcp.leases"@,
            r.hosts_dir@ == "/tmp/hosts"@,
            r.etc_hosts@ == "/etc/hosts"@,
    {
        HostnamePaths {
            leases: "/tmp/dhcp.leases".to_owned(),
            hosts_dir: "/tmp/hosts".to_owned(),
            etc_hosts: "/etc/hosts".to_owned(),
        }
    }
}

/// The modification times of the name sources at the last refresh.
#[derive(Clone, Copy, Debug, Default, Eq, PartialEq, Structural)]
pub struct SourceMtimes {
    pub leases: u64,
    pub hosts_dir: u64,
    pub etc_hosts: u64,
    pub dhcp_config: u64,
}

/// What the last refresh read.
#[derive(Clone, Copy, Debug, Default, Eq, PartialEq, Structural)]
pub struct HostnameRefreshStats {
    pub bytes_read: usize,
    pub host_files: usize,
    pub directory_entries: usize,
}

/// A key and the host name filed under it.
pub type NamePair = (Seq<char>, Seq<char>);

/// The first position of `key` in `s`, or -1.
pub open spec fn pair_index(s: Seq<NamePair>, key: Seq<char>) -> int
    decreases s.len(),
{
    if s.len() == 0 {
        -1
    } else if s[0].0 == key {
        0
    } else if pair_index(s.drop_first(), key) < 0 {
        -1
    } else {
        pair_index(s.drop_first(), key) + 1
    }
}

proof fn lemma_pair_index(s: Seq<NamePair>, key: Seq<char>)
    ensures
        -1 <= pair_index(s, key) < s.len(),
        pair_index(s, key) >= 0 ==> s[pair_index(s, key)].0 == key,
        forall|j: int|
            0 <= j < s.len() && (pair_index(s, key) < 0 || j < pair_index(s, key)) ==> s[j].0 != key,
    decreases s.len(),
{
    if s.len() > 0 && s[0].0 != key {
        lemma_pair_index(s.drop_first(), key);
        assert forall|j: int|
            0 <= j < s.len() && (pair_index(s, key) < 0 || j < pair_index(s, key)) implies s[j].0
            != key by {
            if j > 0 {
                assert(s[j] == s.drop_first()[j - 1]);
            }
        }
    }
}

/// Host names by client MAC and by address.
pub struct CacheView {
    pub capacity: nat,
    pub by_mac: Seq<NamePair>,
    pub by_ip: Seq<NamePair>,
    pub last_refresh_ms: u64,
    pub mtimes: SourceMtimes,
}

/// A MAC entry: only a client MAC with a usable name, only while there is
/// room; a known MAC takes the new name.
pub open spec fn spec_add_mac(c: CacheView, mac: Seq<char>, name: Seq<char>) -> CacheView {
    if crate::identity::spec_parse_mac(vstd::utf8::encode_utf8(mac)) is None || !spec_hostname_valid(
        name,
    ) || c.by_mac.len() >= c.capacity {
        c
    } else if pair_index(c.by_mac, mac) >= 0 {
        CacheView { by_mac: c.by_mac.update(pair_index(c.by_mac, mac), (mac, name)), ..c }
    } else {
        CacheView { by_mac: c.by_mac.push((mac, name)), ..c }
    }
}

/// An address entry: only a non-empty address with a usable name, only
/// while there is room; the first name of an address is kept.
pub open spec fn spec_add_ip(c: CacheView, ip: Seq<char>, name: Seq<char>) -> CacheView {
    if ip.len() == 0 || !spec_hostname_valid(name) || c.by_ip.len() >= c.capacity || pair_index(
        c.by_ip,
        ip,
    ) >= 0 {
        c
    } else {
        CacheView { by_ip: c.by_ip.push((ip, name)), ..c }
    }
}

/// An address entry that replaces the name of a known address.
pub open spec fn spec_add_ip_override(c: CacheView, ip: Seq<char>, name: Seq<char>) -> CacheView {
    if ip.len() == 0 || !spec_hostname_valid(name) {
        c
    } else if pair_index(c.by_ip, ip) >= 0 {
        CacheView { by_ip: c.by_ip.update(pair_index(c.by_ip, ip), (ip, name)), ..c }
    } else {
        spec_add_ip(c, ip, name)
    }
}

/// One line of the DHCP lease file: expiry, MAC, address, name.
pub open spec fn spec_lease_line(c: CacheView, line: Seq<char>) -> CacheView {
    let cols = crate::text::split_ws(line);
    if cols.len() < 4 || crate::text::spec_parse_u64(cols[0]) is None {
        c
    } else {
        let mac = ascii_lowercase(fit_prefix(cols[1], 17));
        let ip = fit_prefix(cols[2], 45);
        let name = fit_prefix(cols[3], 63);
        spec_add_ip(spec_add_mac(c, mac, name), ip, name)
    }
}

/// `line` up to its first `#`.
pub open spec fn before_comment(line: Seq<char>) -> Seq<char> {
    let k = crate::text::first_index_of(line, '#');
    if k < 0 {
        line
    } else {
        line.take(k)
    }
}

/// One line of a hosts file: address and name, comments ignored, loopback
/// skipped.
pub open spec fn spec_hosts_line(c: CacheView, line: Seq<char>) -> CacheView {
    let cols = crate::text::split_ws(before_comment(line));
    if cols.len() < 2 {
        c
    } else {
        let ip = fit_prefix(cols[0], 45);
        let name = fit_prefix(cols[1], 63);
        if ip == "127.0.0.1"@ || ip == "::1"@ {
            c
        } else {
            spec_add_ip(c, ip, name)
        }
    }
}

/// Lease lines in order, stopping once both tables are full.
pub open spec fn leases_fold(c: CacheView, lines: Seq<Seq<char>>) -> CacheView
    decreases lines.len(),
{
    if lines.len() == 0 {
        c
    } else {
        let next = spec_lease_line(c, lines[0]);
        if next.by_mac.len() < next.capacity || next.by_ip.len() < next.capacity {
            leases_fold(next, lines.drop_first())
        } else {
            next
        }
    }
}

/// Hosts lines in order, stopping once the address table is full.
pub open spec fn hosts_fold(c: CacheView, lines: Seq<Seq<char>>) -> CacheView
    decreases lines.len(),
{
    if lines.len() == 0 {
        c
    } else {
        let next = spec_hosts_line(c, lines[0]);
        if next.by_ip.len() < next.capacity {
            hosts_fold(next, lines.drop_first())
        } else {
            next
        }
    }
}

/// The first name a lookup finds: by MAC when it is a client MAC, else by
/// the first address that has one.
pub open spec fn spec_lookup(c: CacheView, mac: Seq<char>, ips: Seq<Seq<char>>) -> Option<Seq<char>>
    decreases ips.len(),
{
    if crate::identity::spec_parse_mac(vstd::utf8::encode_utf8(mac)) is Some && pair_index(
        c.by_mac,
        mac,
    ) >= 0 {
        Some(c.by_mac[pair_index(c.by_mac, mac)].1)
    } else {
        ip_lookup(c, ips)
    }
}

pub open spec fn ip_lookup(c: CacheView, ips: Seq<Seq<char>>) -> Option<Seq<char>>
    decreases ips.len(),
{
    if ips.len() == 0 {
        None
    } else if pair_index(c.by_ip, ips[0]) >= 0 {
        Some(c.by_ip[pair_index(c.by_ip, ips[0])].1)
    } else {
        ip_lookup(c, ips.drop_first())
    }
}

/// Whether `ip` has a name in the address table.
pub open spec fn ip_named(c: CacheView, ip: Seq<char>) -> bool {
    exists|j: int| 0 <= j < c.by_ip.len() && #[trigger] c.by_ip[j].0 == ip
}

/// The name of a client: by its MAC where that is a client MAC with a name;
/// otherwise there is a name exactly when one of its addresses has one, and
/// then it is the name of the first such address in the list's order, as
/// the address table first files it.
pub proof fn lemma_lookup_first_named_address(c: CacheView, mac: Seq<char>, ips: Seq<Seq<char>>)
    ensures
        ({
            let by_mac = crate::identity::spec_parse_mac(vstd::utf8::encode_utf8(mac)) is Some && exists|j: int|
                0 <= j < c.by_mac.len() && #[trigger] c.by_mac[j].0 == mac;
            &&& by_mac ==> exists|j: int|
                0 <= j < c.by_mac.len() && c.by_mac[j].0 == mac && (forall|q: int|
                    0 <= q < j ==> #[trigger] c.by_mac[q].0 != mac) && spec_lookup(c, mac, ips) == Some(
                    c.by_mac[j].1,
                )
            &&& !by_mac ==> (spec_lookup(c, mac, ips) is Some <==> exists|k: int|
                0 <= k < ips.len() && #[trigger] ip_named(c, ips[k]))
            &&& !by_mac && spec_lookup(c, mac, ips) is Some ==> exists|k: int, j: int|
                0 <= k < ips.len() && 0 <= j < c.by_ip.len() && c.by_ip[j].0 == ips[k] && (forall|q: int|
                    0 <= q < k ==> !#[trigger] ip_named(c, ips[q])) && (forall|q: int|
                    0 <= q < j ==> #[trigger] c.by_ip[q].0 != ips[k]) && spec_lookup(c, mac, ips)
                    == Some(c.by_ip[j].1)
        }),
{
    lemma_pair_index(c.by_mac, mac);
    if exists|j: int| 0 <= j < c.by_mac.len() && #[trigger] c.by_mac[j].0 == mac {
        let j = choose|j: int| 0 <= j < c.by_mac.len() && #[trigger] c.by_mac[j].0 == mac;
        assert(pair_index(c.by_mac, mac) >= 0);
    }
    lemma_ip_lookup_first(c, ips);
}

proof fn lemma_ip_lookup_first(c: CacheView, ips: Seq<Seq<char>>)
    ensures
        ip_lookup(c, ips) is Some <==> exists|k: int| 0 <= k < ips.len() && #[trigger] ip_named(c, ips[k]),
        ip_lookup(c, ips) is Some ==> exists|k: int, j: int|
            0 <= k < ips.len() && 0 <= j < c.by_ip.len() && c.by_ip[j].0 == ips[k] && (forall|q: int|
                0 <= q < k ==> !#[trigger] ip_named(c, ips[q])) && (forall|q: int|
                0 <= q < j ==> #[trigger] c.by_ip[q].0 != ips[k]) && ip_lookup(c, ips) == Some(
                c.by_ip[j].1,
            ),
    decreases ips.len(),
{
    if ips.len() > 0 {
        lemma_pair_index(c.by_ip, ips[0]);
        let rest = ips.drop_first();
        lemma_ip_lookup_first(c, rest);
        let i0 = pair_index(c.by_ip, ips[0]);
        if i0 >= 0 {
            assert(ip_named(c, ips[0]));
            assert(ip_lookup(c, ips) == Some(c.by_ip[i0].1));
        } else {
            assert(!ip_named(c, ips[0]));
            assert forall|k: int| 0 <= k < ips.len() && #[trigger] ip_named(c, ips[k]) implies k >= 1
                && ip_named(c, rest[k - 1]) by {
                assert(rest[k - 1] == ips[k]);
            }
            assert forall|k: int| 0 <= k < rest.len() && #[trigger] ip_named(c, rest[k]) implies ip_named(
                c,
                ips[k + 1],
            ) by {
                assert(rest[k] == ips[k + 1]);
            }
            if ip_lookup(c, rest) is Some {
                let (k, j) = choose|k: int, j: int|
                    0 <= k < rest.len() && 0 <= j < c.by_ip.len() && c.by_ip[j].0 == rest[k] && (forall|q: int|
                        0 <= q < k ==> !#[trigger] ip_named(c, rest[q])) && (forall|q: int|
                        0 <= q < j ==> #[trigger] c.by_ip[q].0 != rest[k]) && ip_lookup(c, rest) == Some(
                        c.by_ip[j].1,
                    );
                assert(ips[k + 1] == rest[k]);
                assert forall|q: int| 0 <= q < k + 1 implies !#[trigger] ip_named(c, ips[q]) by {
                    if q > 0 {
                        assert(ips[q] == rest[q - 1]);
                    }
                }
            }
        }
    }
}

} // verus!

verus! {

pub open spec fn pairs_view(v: Seq<(String, String)>) -> Seq<NamePair> {
    v.map_values(|p: (String, String)| (p.0@, p.1@))
}

/// Host names by client MAC and by address, each table bounded.
#[derive(Clone, Debug)]
pub struct HostnameCache {
    capacity: usize,
    by_mac: Vec<(String, String)>,
    by_ip: Vec<(String, String)>,
    last_refresh_ms: u64,
    mtimes: SourceMtimes,
    last_refresh_stats: HostnameRefreshStats,
}

impl View for HostnameCache {
    type V = CacheView;

    closed spec fn view(&self) -> CacheView {
        CacheView {
            capacity: self.capacity as nat,
            by_mac: pairs_view(self.by_mac@),
            by_ip: pairs_view(self.by_ip@),
            last_refresh_ms: self.last_refresh_ms,
            mtimes: self.mtimes,
        }
    }
}

fn find_pair(v: &Vec<(String, String)>, key: &str) -> (r: Option<usize>)
    ensures
        match r {
            Some(k) => k as int == pair_index(pairs_view(v@), key@) && k < v@.len(),
            None => pair_index(pairs_view(v@), key@) == -1,
        },
{
    let ghost s = pairs_view(v@);
    proof {
        lemma_pair_index(s, key@);
    }
    let mut i: usize = 0;
    while i < v.len()
        invariant
            i <= v@.len(),
            s == pairs_view(v@),
            forall|j: int| 0 <= j < i ==> s[j].0 != key@,
            -1 <= pair_index(s, key@) < s.len(),
            pair_index(s, key@) >= 0 ==> s[pair_index(s, key@)].0 == key@,
            forall|j: int|
                0 <= j < s.len() && (pair_index(s, key@) < 0 || j < pair_index(s, key@)) ==> s[j].0
                    != key@,
        decreases v@.len() - i,
    {
        assert(s[i as int] == (v@[i as int].0@, v@[i as int].1@));
        if str_eq(v[i].0.as_str(), key) {
            return Some(i);
        }
        assert(s[i as int].0 != key@);
        i += 1;
    }
    None
}

impl Default for HostnameCache {
    fn default() -> (r: Self)
        ensures
            r@.capacity == HOSTNAME_CACHE_MAX,
            r@.by_mac.len() == 0,
            r@.by_ip.len() == 0,
    {
        HostnameCache::new()
    }
}

impl HostnameCache {
    pub fn new() -> (r: Self)
        ensures
            r@.capacity == HOSTNAME_CACHE_MAX,
            r@.by_mac.len() == 0,
            r@.by_ip.len() == 0,
    {
        HostnameCache::with_capacity(HOSTNAME_CACHE_MAX)
    }

    pub fn with_capacity(capacity: usize) -> (r: Self)
        ensures
            r.refresh_stats() == (HostnameRefreshStats {
                bytes_read: 0,
                host_files: 0,
                directory_entries: 0,
            }),
            r@.capacity == capacity,
            r@.by_mac.len() == 0,
            r@.by_ip.len() == 0,
            r@.last_refresh_ms == 0,
            r@.mtimes == (SourceMtimes { leases: 0, hosts_dir: 0, etc_hosts: 0, dhcp_config: 0 }),
    {
        HostnameCache {
            capacity,
            by_mac: Vec::new(),
            by_ip: Vec::new(),
            last_refresh_ms: 0,
            mtimes: SourceMtimes { leases: 0, hosts_dir: 0, etc_hosts: 0, dhcp_config: 0 },
            last_refresh_stats: HostnameRefreshStats {
                bytes_read: 0,
                host_files: 0,
                directory_entries: 0,
            },
        }
    }

    /// What the last refresh read.
    pub closed spec fn refresh_stats(self) -> HostnameRefreshStats {
        self.last_refresh_stats
    }

    pub fn last_refresh_stats(&self) -> (r: HostnameRefreshStats)
        ensures
            r == self.refresh_stats(),
    {
        self.last_refresh_stats
    }

    /// Whether a refresh at `now_ms` reads the sources again: always when
    /// forced or before the first refresh, else once the refresh interval
    /// has passed since the last one (on a clock that may wrap).
    pub fn refresh_due(&self, now_ms: u64, force: bool) -> (r: bool)
        ensures
            r == (force || self@.last_refresh_ms == 0 || (now_ms - self@.last_refresh_ms)
                % 0x1_0000_0000_0000_0000 >= HOSTNAME_REFRESH_MS),
    {
        !(!force && self.last_refresh_ms != 0 && now_ms.wrapping_sub(self.last_refresh_ms) < HOSTNAME_REFRESH_MS)
    }

    /// Starts a refresh: every name and the last refresh's counts are
    /// dropped; the time and modification times of the last refresh stay.
    pub fn begin_refresh(&mut self)
        ensures
            final(self)@ == (CacheView { by_mac: Seq::empty(), by_ip: Seq::empty(), ..old(self)@ }),
            final(self).refresh_stats() == (HostnameRefreshStats {
                bytes_read: 0,
                host_files: 0,
                directory_entries: 0,
            }),
    {
        self.by_mac = Vec::new();
        self.by_ip = Vec::new();
        self.last_refresh_stats = HostnameRefreshStats { bytes_read: 0, host_files: 0, directory_entries: 0 };
        assert(self@.by_mac =~= Seq::<NamePair>::empty());
        assert(self@.by_ip =~= Seq::<NamePair>::empty());
    }

    /// Counts one entry of the hosts directory as walked.
    pub fn note_directory_entry(&mut self)
        requires
            old(self).refresh_stats().directory_entries < usize::MAX,
        ensures
            final(self)@ == old(self)@,
            final(self).refresh_stats() == (HostnameRefreshStats {
                directory_entries: (old(self).refresh_stats().directory_entries + 1) as usize,
                ..old(self).refresh_stats()
            }),
    {
        self.last_refresh_stats.directory_entries = self.last_refresh_stats.directory_entries + 1;
    }

    /// Whether the walk of the hosts directory stops before the next file:
    /// at the file limit, with no byte budget left, or with the address
    /// names full.
    pub fn hosts_dir_full(&self, hosts_budget: usize) -> (r: bool)
        ensures
            r == (self.refresh_stats().host_files == HOSTNAME_MAX_HOST_FILES || hosts_budget == 0
                || self@.by_ip.len() >= self@.capacity),
    {
        self.last_refresh_stats.host_files == HOSTNAME_MAX_HOST_FILES || hosts_budget == 0
            || self.by_ip.len() >= self.capacity
    }

    /// Counts one hosts file as read.
    pub fn note_host_file(&mut self)
        requires
            old(self).refresh_stats().host_files < usize::MAX,
        ensures
            final(self)@ == old(self)@,
            final(self).refresh_stats() == (HostnameRefreshStats {
                host_files: (old(self).refresh_stats().host_files + 1) as usize,
                ..old(self).refresh_stats()
            }),
    {
        self.last_refresh_stats.host_files = self.last_refresh_stats.host_files + 1;
    }

    /// Whether `/etc/hosts` is read after the hosts directory: only while
    /// the address names have room.
    pub fn etc_hosts_wanted(&self) -> (r: bool)
        ensures
            r == (self@.by_ip.len() < self@.capacity),
    {
        self.by_ip.len() < self.capacity
    }

    /// Ends a refresh at `now_ms` with the sources' modification times.
    pub fn finish_refresh(&mut self, now_ms: u64, mtimes: SourceMtimes)
        ensures
            final(self)@ == (CacheView { last_refresh_ms: now_ms, mtimes, ..old(self)@ }),
            final(self).refresh_stats() == old(self).refresh_stats(),
    {
        self.last_refresh_ms = now_ms;
        self.mtimes = mtimes;
    }

    fn add_mac(&mut self, mac: &str, name: &str)
        ensures
            final(self)@ == spec_add_mac(old(self)@, mac@, name@),
            final(self).refresh_stats() == old(self).refresh_stats(),
    {
        let ghost before = self@;
        match crate::identity::MacAddress::parse(mac) {
            Ok(_) => {},
            Err(_) => return,
        }
        if !hostname_valid(name) {
            return;
        }
        if self.by_mac.len() >= self.capacity {
            return;
        }
        match find_pair(&self.by_mac, mac) {
            Some(k) => {
                self.by_mac.set(k, (mac.to_owned(), name.to_owned()));
                assert(self@.by_mac =~= before.by_mac.update(k as int, (mac@, name@)));
            },
            None => {
                self.by_mac.push((mac.to_owned(), name.to_owned()));
                assert(self@.by_mac =~= before.by_mac.push((mac@, name@)));
            },
        }
    }

    fn add_ip(&mut self, ip: &str, name: &str)
        ensures
            final(self)@ == spec_add_ip(old(self)@, ip@, name@),
            final(self).refresh_stats() == old(self).refresh_stats(),
    {
        let ghost before = self@;
        if ip.is_empty() || !hostname_valid(name) {
            return;
        }
        if self.by_ip.len() >= self.capacity {
            return;
        }
        match find_pair(&self.by_ip, ip) {
            Some(_) => {},
            None => {
                self.by_ip.push((ip.to_owned(), name.to_owned()));
                assert(self@.by_ip =~= before.by_ip.push((ip@, name@)));
            },
        }
    }

    fn add_ip_override(&mut self, ip: &str, name: &str)
        ensures
            final(self)@ == spec_add_ip_override(old(self)@, ip@, name@),
            final(self).refresh_stats() == old(self).refresh_stats(),
    {
        let ghost before = self@;
        if ip.is_empty() || !hostname_valid(name) {
            return;
        }
        match find_pair(&self.by_ip, ip) {
            Some(k) => {
                self.by_ip.set(k, (ip.to_owned(), name.to_owned()));
                assert(self@.by_ip =~= before.by_ip.update(k as int, (ip@, name@)));
            },
            None => self.add_ip(ip, name),
        }
    }

    fn parse_lease_line(&mut self, line: &str)
        ensures
            final(self)@ == spec_lease_line(old(self)@, line@),
            final(self).refresh_stats() == old(self).refresh_stats(),
    {
        let cs = str_chars(line);
        let columns = crate::text::split_whitespace(&cs, 0, cs.len());
        assert(cs@.subrange(0, cs@.len() as int) =~= cs@);
        let ghost cols = columns@.map_values(|w: Vec<char>| w@);
        if columns.len() < 4 {
            return;
        }
        assert(cols[0] == columns@[0]@);
        assert(columns@[0]@.subrange(0, columns@[0]@.len() as int) =~= columns@[0]@);
        if crate::text::parse_u64(&columns[0], 0, columns[0].len()).is_none() {
            return;
        }
        let mac_text = string_from_chars(columns[1].as_slice());
        let ip_text = string_from_chars(columns[2].as_slice());
        let name_text = string_from_chars(columns[3].as_slice());
        assert(cols[1] == mac_text@ && cols[2] == ip_text@ && cols[3] == name_text@);
        let mac = to_ascii_lowercase(bounded_ascii_token(mac_text.as_str(), 17));
        let ip = bounded_ascii_token(ip_text.as_str(), 45);
        let name = bounded_ascii_token(name_text.as_str(), 63);
        self.add_mac(mac.as_str(), name);
        self.add_ip(ip, name);
    }

    fn parse_hosts_line(&mut self, line: &str)
        ensures
            final(self)@ == spec_hosts_line(old(self)@, line@),
            final(self).refresh_stats() == old(self).refresh_stats(),
    {
        let cs = str_chars(line);
        let end = match crate::text::find_char(&cs, '#') {
            Some(k) => k,
            None => cs.len(),
        };
        proof {
            crate::text::lemma_first_index_of(cs@, '#');
        }
        let columns = crate::text::split_whitespace(&cs, 0, end);
        assert(cs@.subrange(0, end as int) =~= before_comment(line@));
        let ghost cols = columns@.map_values(|w: Vec<char>| w@);
        if columns.len() < 2 {
            return;
        }
        let ip_text = string_from_chars(columns[0].as_slice());
        let name_text = string_from_chars(columns[1].as_slice());
        assert(cols[0] == ip_text@ && cols[1] == name_text@);
        let ip = bounded_ascii_token(ip_text.as_str(), 45);
        let name = bounded_ascii_token(name_text.as_str(), 63);
        if str_eq(ip, "127.0.0.1") || str_eq(ip, "::1") {
            return;
        }
        self.add_ip(ip, name);
    }

    /// Reads a DHCP lease file's text, line by line, until both tables are
    /// full.
    pub fn parse_leases(&mut self, contents: &str)
        ensures
            final(self)@ == leases_fold(
                old(self)@,
                bounded_lines(vstd::utf8::encode_utf8(contents@), HOSTNAME_MAX_SOURCE_BYTES as nat),
            ),
            final(self).refresh_stats() == old(self).refresh_stats(),
    {
        self.leases_from_bytes(contents.as_bytes(), HOSTNAME_MAX_SOURCE_BYTES);
    }

    /// Reads the lease lines of at most `budget` bytes of `data`, until both
    /// tables are full; returns how many bytes that is.
    fn leases_from_bytes(&mut self, data: &[u8], budget: usize) -> (r: usize)
        ensures
            final(self)@ == leases_fold(old(self)@, bounded_lines(data@, budget as nat)),
            final(self).refresh_stats() == old(self).refresh_stats(),
            r == (if data@.len() < budget {
                data@.len()
            } else {
                budget as nat
            }),
    {
        let (lines, read) = read_bounded_lines(data, budget);
        let ghost ls = lines@.map_values(|s: String| s@);
        let ghost target = leases_fold(old(self)@, ls);
        let mut i: usize = 0;
        assert(ls.skip(0) =~= ls);
        while i < lines.len()
            invariant
                i <= lines@.len(),
                ls == lines@.map_values(|s: String| s@),
                ls == bounded_lines(data@, budget as nat),
                read == (if data@.len() < budget {
                    data@.len()
                } else {
                    budget as nat
                }),
                target == leases_fold(old(self)@, ls),
                target == leases_fold(self@, ls.skip(i as int)),
                self.refresh_stats() == old(self).refresh_stats(),
            decreases lines@.len() - i,
        {
            assert(ls.skip(i as int)[0] == lines@[i as int]@);
            assert(ls.skip(i as int).drop_first() =~= ls.skip(i + 1));
            let ghost prev = self@;
            self.parse_lease_line(lines[i].as_str());
            if !(self.by_mac.len() < self.capacity || self.by_ip.len() < self.capacity) {
                return read;
            }
            i += 1;
        }
        read
    }

    /// Reads a lease file's first `budget` bytes, `data`, unless both tables
    /// are already full; lines that are too long or not UTF-8 are passed
    /// over. Returns the bytes read, which the refresh counts.
    pub fn read_leases(&mut self, data: &[u8], budget: usize) -> (r: usize)
        requires
            old(self).refresh_stats().bytes_read + budget <= usize::MAX,
        ensures
            old(self)@.by_mac.len() >= old(self)@.capacity && old(self)@.by_ip.len() >= old(self)@.capacity
                ==> r == 0 && final(self)@ == old(self)@,
            !(old(self)@.by_mac.len() >= old(self)@.capacity && old(self)@.by_ip.len() >= old(self)@.capacity)
                ==> final(self)@ == leases_fold(old(self)@, bounded_lines(data@, budget as nat)) && r == (
                if data@.len() < budget {
                    data@.len()
                } else {
                    budget as nat
                }),
            final(self).refresh_stats() == (HostnameRefreshStats {
                bytes_read: (old(self).refresh_stats().bytes_read + r) as usize,
                ..old(self).refresh_stats()
            }),
    {
        if self.by_mac.len() >= self.capacity && self.by_ip.len() >= self.capacity {
            return 0;
        }
        let read = self.leases_from_bytes(data, budget);
        self.last_refresh_stats.bytes_read = self.last_refresh_stats.bytes_read + read;
        read
    }

    /// Reads a hosts file's text, line by line, until the address table is
    /// full.
    pub fn parse_hosts_file(&mut self, contents: &str)
        ensures
            final(self)@ == hosts_fold(
                old(self)@,
                bounded_lines(vstd::utf8::encode_utf8(contents@), HOSTNAME_MAX_SOURCE_BYTES as nat),
            ),
            final(self).refresh_stats() == old(self).refresh_stats(),
    {
        self.hosts_from_bytes(contents.as_bytes(), HOSTNAME_MAX_SOURCE_BYTES);
    }

    /// Reads the hosts lines of at most `budget` bytes of `data`, until the
    /// address table is full; returns how many bytes that is.
    fn hosts_from_bytes(&mut self, data: &[u8], budget: usize) -> (r: usize)
        ensures
            final(self)@ == hosts_fold(old(self)@, bounded_lines(data@, budget as nat)),
            final(self).refresh_stats() == old(self).refresh_stats(),
            r == (if data@.len() < budget {
                data@.len()
            } else {
                budget as nat
            }),
    {
        let (lines, read) = read_bounded_lines(data, budget);
        let ghost ls = lines@.map_values(|s: String| s@);
        let ghost target = hosts_fold(old(self)@, ls);
        let mut i: usize = 0;
        assert(ls.skip(0) =~= ls);
        while i < lines.len()
            invariant
                i <= lines@.len(),
                ls == lines@.map_values(|s: String| s@),
                ls == bounded_lines(data@, budget as nat),
                read == (if data@.len() < budget {
                    data@.len()
                } else {
                    budget as nat
                }),
                target == hosts_fold(old(self)@, ls),
                target == hosts_fold(self@, ls.skip(i as int)),
                self.refresh_stats() == old(self).refresh_stats(),
            decreases lines@.len() - i,
        {
            assert(ls.skip(i as int)[0] == lines@[i as int]@);
            assert(ls.skip(i as int).drop_first() =~= ls.skip(i + 1));
            let ghost prev = self@;
            self.parse_hosts_line(lines[i].as_str());
            if !(self.by_ip.len() < self.capacity) {
                return read;
            }
            i += 1;
        }
        read
    }

    /// Reads a hosts file's first `budget` bytes, `data`, unless the address
    /// table is already full; lines that are too long or not UTF-8 are
    /// passed over. Returns the bytes read, which the refresh counts.
    pub fn read_hosts(&mut self, data: &[u8], budget: usize) -> (r: usize)
        requires
            old(self).refresh_stats().bytes_read + budget <= usize::MAX,
        ensures
            old(self)@.by_ip.len() >= old(self)@.capacity ==> r == 0 && final(self)@ == old(self)@,
            old(self)@.by_ip.len() < old(self)@.capacity ==> final(self)@ == hosts_fold(
                old(self)@,
                bounded_lines(data@, budget as nat),
            ) && r == (if data@.len() < budget {
                data@.len()
            } else {
                budget as nat
            }),
            final(self).refresh_stats() == (HostnameRefreshStats {
                bytes_read: (old(self).refresh_stats().bytes_read + r) as usize,
                ..old(self).refresh_stats()
            }),
    {
        if self.by_ip.len() >= self.capacity {
            return 0;
        }
        let read = self.hosts_from_bytes(data, budget);
        self.last_refresh_stats.bytes_read = self.last_refresh_stats.bytes_read + read;
        read
    }

    /// The host name of a client: by its MAC when that is a client MAC and
    /// known, else by the first of its addresses that is known.
    pub fn lookup<'a>(&'a self, mac: &str, ips: &[&str]) -> (r: Option<&'a str>)
        ensures
            match r {
                Some(name) => spec_lookup(self@, mac@, ips@.map_values(|s: &str| s@)) == Some(name@),
                None => spec_lookup(self@, mac@, ips@.map_values(|s: &str| s@)) is None,
            },
    {
        let ghost ipv = ips@.map_values(|s: &str| s@);
        let parsed = crate::identity::MacAddress::parse(mac).is_ok();
        if parsed {
            match find_pair(&self.by_mac, mac) {
                Some(k) => {
                    return Some(self.by_mac[k].1.as_str());
                },
                None => {},
            }
        }
        let mut i: usize = 0;
        assert(ipv.skip(0) =~= ipv);
        while i < ips.len()
            invariant
                i <= ips@.len(),
                ipv == ips@.map_values(|s: &str| s@),
                spec_lookup(self@, mac@, ipv) == ip_lookup(self@, ipv),
                ip_lookup(self@, ipv) == ip_lookup(self@, ipv.skip(i as int)),
            decreases ips@.len() - i,
        {
            assert(ipv.skip(i as int)[0] == ips@[i as int]@);
            assert(ipv.skip(i as int).drop_first() =~= ipv.skip(i + 1));
            match find_pair(&self.by_ip, ips[i]) {
                Some(k) => {
                    return Some(self.by_ip[k].1.as_str());
                },
                None => {},
            }
            i += 1;
        }
        None
    }
}

} // verus!

verus! {

/// `s` split at its first whitespace character.
pub open spec fn split_first_ws(s: Seq<char>) -> (Seq<char>, Option<Seq<char>>) {
    let k = crate::text::first_ws(s);
    if k < 0 {
        (s, None)
    } else {
        (s.take(k), Some(s.skip(k + 1)))
    }
}

/// The keyword, option name and value of a UCI line: the first two fields
/// split at single whitespace characters, the rest as the value.
pub open spec fn line_fields(line: Seq<char>) -> (Seq<char>, Seq<char>, Seq<char>) {
    let (keyword, rest) = split_first_ws(crate::text::trim_start(line));
    match rest {
        None => (keyword, Seq::empty(), Seq::empty()),
        Some(r) => {
            let (second, rest2) = split_first_ws(r);
            (
                keyword,
                second,
                match rest2 {
                    Some(v) => v,
                    None => Seq::empty(),
                },
            )
        },
    }
}

/// The host section under way while the DHCP configuration is read.
pub struct DhcpState {
    pub in_host: bool,
    pub macs: Seq<Seq<char>>,
    pub ip: Seq<char>,
    pub name: Seq<char>,
}

pub open spec fn dhcp_start() -> DhcpState {
    DhcpState { in_host: false, macs: Seq::empty(), ip: Seq::empty(), name: Seq::empty() }
}

/// Each MAC of a host filed under its name, in order.
pub open spec fn add_macs(c: CacheView, macs: Seq<Seq<char>>, name: Seq<char>) -> CacheView
    decreases macs.len(),
{
    if macs.len() == 0 {
        c
    } else {
        add_macs(spec_add_mac(c, macs[0], name), macs.drop_first(), name)
    }
}

/// A static host: with a name, its MACs are filed under it and the name
/// replaces that of its address.
pub open spec fn spec_add_dhcp_host(c: CacheView, macs: Seq<Seq<char>>, ip: Seq<char>, name: Seq<char>) -> CacheView {
    if name.len() == 0 {
        c
    } else {
        spec_add_ip_override(add_macs(c, macs, name), ip, name)
    }
}

/// The MACs of a `mac` option, each cut to 17 bytes and lowercased.
pub open spec fn mac_values(value: Seq<char>) -> Seq<Seq<char>> {
    uci_values(crate::text::trim(value)).map_values(|v: Seq<char>| ascii_lowercase(fit_prefix(v, 17)))
}

/// One line of the DHCP configuration: a `config` line ends the section
/// under way (filing it when it was a host) and starts a new one; inside a
/// host section, `mac`, `ip` and `name` options are collected (a `list mac`
/// adds to the MACs, an `option mac` replaces them).
pub open spec fn dhcp_step(c: CacheView, st: DhcpState, line: Seq<char>) -> (CacheView, DhcpState) {
    let (keyword, option, value) = line_fields(line);
    if keyword == "config"@ {
        (
            if st.in_host {
                spec_add_dhcp_host(c, st.macs, st.ip, st.name)
            } else {
                c
            },
            DhcpState {
                in_host: option == "host"@,
                macs: Seq::empty(),
                ip: Seq::empty(),
                name: Seq::empty(),
            },
        )
    } else if (keyword == "option"@ || keyword == "list"@) && st.in_host {
        if option == "mac"@ {
            (
                c,
                DhcpState {
                    macs: if keyword == "option"@ {
                        mac_values(value)
                    } else {
                        st.macs + mac_values(value)
                    },
                    ..st
                },
            )
        } else if option == "ip"@ {
            (c, DhcpState { ip: fit_prefix(spec_uci_value(value), 45), ..st })
        } else if option == "name"@ {
            (c, DhcpState { name: fit_prefix(spec_uci_value(value), 63), ..st })
        } else {
            (c, st)
        }
    } else {
        (c, st)
    }
}

pub open spec fn dhcp_fold(c: CacheView, st: DhcpState, lines: Seq<Seq<char>>) -> (CacheView, DhcpState)
    decreases lines.len(),
{
    if lines.len() == 0 {
        (c, st)
    } else {
        let (c2, st2) = dhcp_step(c, st, lines[0]);
        dhcp_fold(c2, st2, lines.drop_first())
    }
}

/// The cache after the DHCP configuration lines, the last section filed.
pub open spec fn spec_parse_dhcp(c: CacheView, lines: Seq<Seq<char>>) -> CacheView {
    let (c2, st) = dhcp_fold(c, dhcp_start(), lines);
    if st.in_host {
        spec_add_dhcp_host(c2, st.macs, st.ip, st.name)
    } else {
        c2
    }
}

pub open spec fn strings_view(v: Seq<String>) -> Seq<Seq<char>> {
    v.map_values(|s: String| s@)
}

/// The fields of a UCI line.
fn fields_of(line: &str) -> (r: (String, String, String))
    ensures
        (r.0@, r.1@, r.2@) == line_fields(line@),
{
    let cs = str_chars(line);
    let n = cs.len();
    let j = crate::text::skip_ws(&cs, 0, n);
    assert(cs@.subrange(0, n as int) =~= cs@);
    let ghost t = cs@.subrange(j as int, n as int);
    proof {
        crate::text::lemma_first_ws(t);
    }
    match crate::text::find_ws(&cs, j, n) {
        None => {
            (crate::text::string_from_range(&cs, j, n), String::new(), String::new())
        },
        Some(k1) => {
            let r1 = j + k1 + 1;
            assert(t.take(k1 as int) =~= cs@.subrange(j as int, j + k1));
            assert(t.skip(k1 + 1) =~= cs@.subrange(r1 as int, n as int));
            let ghost r = cs@.subrange(r1 as int, n as int);
            let keyword = crate::text::string_from_range(&cs, j, j + k1);
            match crate::text::find_ws(&cs, r1, n) {
                None => (keyword, crate::text::string_from_range(&cs, r1, n), String::new()),
                Some(k2) => {
                    assert(r.take(k2 as int) =~= cs@.subrange(r1 as int, r1 + k2));
                    assert(r.skip(k2 + 1) =~= cs@.subrange(r1 + k2 + 1, n as int));
                    (
                        keyword,
                        crate::text::string_from_range(&cs, r1, r1 + k2),
                        crate::text::string_from_range(&cs, r1 + k2 + 1, n),
                    )
                },
            }
        },
    }
}

fn mac_values_of(value: &str) -> (r: Vec<String>)
    ensures
        strings_view(r@) == mac_values(value@),
{
    let values = parse_uci_values(value);
    let ghost vs = strings_view(values@);
    let mut out: Vec<String> = Vec::new();
    let mut i: usize = 0;
    while i < values.len()
        invariant
            i <= values@.len(),
            vs == strings_view(values@),
            vs == uci_values(crate::text::trim(value@)),
            strings_view(out@) == vs.take(i as int).map_values(
                |v: Seq<char>| ascii_lowercase(fit_prefix(v, 17)),
            ),
        decreases values@.len() - i,
    {
        let m = to_ascii_lowercase(bounded_ascii_token(values[i].as_str(), 17));
        let ghost before = strings_view(out@);
        assert(vs[i as int] == values@[i as int]@);
        assert(m@ == ascii_lowercase(fit_prefix(vs[i as int], 17)));
        out.push(m);
        assert(strings_view(out@) =~= before.push(m@));
        assert(vs.take(i + 1) =~= vs.take(i as int).push(vs[i as int]));
        assert(strings_view(out@) =~= vs.take(i + 1).map_values(
            |v: Seq<char>| ascii_lowercase(fit_prefix(v, 17)),
        ));
        i += 1;
    }
    assert(vs.take(i as int) =~= vs);
    out
}

impl HostnameCache {
    fn add_dhcp_host(&mut self, macs: &Vec<String>, ip: &str, name: &str)
        ensures
            final(self)@ == spec_add_dhcp_host(old(self)@, strings_view(macs@), ip@, name@),
            final(self).refresh_stats() == old(self).refresh_stats(),
    {
        if name.is_empty() {
            return;
        }
        let ghost ms = strings_view(macs@);
        let ghost target = add_macs(old(self)@, ms, name@);
        let mut i: usize = 0;
        assert(ms.skip(0) =~= ms);
        while i < macs.len()
            invariant
                i <= macs@.len(),
                ms == strings_view(macs@),
                target == add_macs(old(self)@, ms, name@),
                target == add_macs(self@, ms.skip(i as int), name@),
                self.refresh_stats() == old(self).refresh_stats(),
            decreases macs@.len() - i,
        {
            assert(ms.skip(i as int)[0] == macs@[i as int]@);
            assert(ms.skip(i as int).drop_first() =~= ms.skip(i + 1));
            self.add_mac(macs[i].as_str(), name);
            i += 1;
        }
        assert(ms.skip(i as int) =~= Seq::<Seq<char>>::empty());
        self.add_ip_override(ip, name);
    }

    /// Reads the DHCP configuration's static hosts; their names override
    /// those from leases and hosts files.
    /// Reads the static DHCP configuration's first `budget` bytes, `data`,
    /// where they are UTF-8 text; otherwise nothing is read. Returns the
    /// bytes read, which the refresh counts.
    pub fn read_dhcp_config(&mut self, data: &[u8], budget: usize) -> (r: usize)
        requires
            old(self).refresh_stats().bytes_read + budget <= usize::MAX,
        ensures
            ({
                let n = if data@.len() < budget {
                    data@.len() as int
                } else {
                    budget as int
                };
                &&& valid_utf8(data@.take(n)) ==> r == n && final(self)@ == spec_parse_dhcp(
                    old(self)@,
                    bounded_lines(
                        vstd::utf8::encode_utf8(decode_utf8(data@.take(n))),
                        HOSTNAME_MAX_SOURCE_BYTES as nat,
                    ),
                )
                &&& !valid_utf8(data@.take(n)) ==> r == 0 && final(self)@ == old(self)@
            }),
            final(self).refresh_stats() == (HostnameRefreshStats {
                bytes_read: (old(self).refresh_stats().bytes_read + r) as usize,
                ..old(self).refresh_stats()
            }),
    {
        let n = if data.len() < budget {
            data.len()
        } else {
            budget
        };
        let mut prefix: Vec<u8> = Vec::new();
        let mut i: usize = 0;
        while i < n
            invariant
                i <= n,
                n <= data@.len(),
                prefix@ == data@.take(i as int),
            decreases n - i,
        {
            prefix.push(data[i]);
            i += 1;
            assert(prefix@ =~= data@.take(i as int));
        }
        match utf8_text(prefix.as_slice()) {
            Some(text) => {
                self.parse_dhcp_config(text.as_str());
                self.last_refresh_stats.bytes_read = self.last_refresh_stats.bytes_read + n;
                n
            },
            None => 0,
        }
    }

    pub fn parse_dhcp_config(&mut self, contents: &str)
        ensures
            final(self)@ == spec_parse_dhcp(
                old(self)@,
                bounded_lines(vstd::utf8::encode_utf8(contents@), HOSTNAME_MAX_SOURCE_BYTES as nat),
            ),
            final(self).refresh_stats() == old(self).refresh_stats(),
    {
        let (lines, _) = read_bounded_lines(contents.as_bytes(), HOSTNAME_MAX_SOURCE_BYTES);
        let ghost ls = strings_view(lines@);
        let ghost target = dhcp_fold(old(self)@, dhcp_start(), ls);
        let mut in_host = false;
        let mut macs: Vec<String> = Vec::new();
        let mut ip = String::new();
        let mut name = String::new();
        let mut i: usize = 0;
        assert(ls.skip(0) =~= ls);
        assert(strings_view(macs@) =~= Seq::<Seq<char>>::empty());
        while i < lines.len()
            invariant
                i <= lines@.len(),
                ls == strings_view(lines@),
                target == dhcp_fold(
                    self@,
                    DhcpState { in_host, macs: strings_view(macs@), ip: ip@, name: name@ },
                    ls.skip(i as int),
                ),
                self.refresh_stats() == old(self).refresh_stats(),
            decreases lines@.len() - i,
        {
            assert(ls.skip(i as int)[0] == lines@[i as int]@);
            assert(ls.skip(i as int).drop_first() =~= ls.skip(i + 1));
            let (keyword, option, value) = fields_of(lines[i].as_str());
            if crate::text::str_eq(keyword.as_str(), "config") {
                if in_host {
                    self.add_dhcp_host(&macs, ip.as_str(), name.as_str());
                }
                in_host = crate::text::str_eq(option.as_str(), "host");
                macs = Vec::new();
                ip = String::new();
                name = String::new();
                assert(strings_view(macs@) =~= Seq::<Seq<char>>::empty());
            } else if (crate::text::str_eq(keyword.as_str(), "option") || crate::text::str_eq(
                keyword.as_str(),
                "list",
            )) && in_host {
                if crate::text::str_eq(option.as_str(), "mac") {
                    let values = mac_values_of(value.as_str());
                    if crate::text::str_eq(keyword.as_str(), "option") {
                        macs = values;
                    } else {
                        let ghost before = strings_view(macs@);
                        let mut values = values;
                        let ghost added = strings_view(values@);
                        macs.append(&mut values);
                        assert(strings_view(macs@) =~= before + added);
                    }
                } else if crate::text::str_eq(option.as_str(), "ip") {
                    let v = parse_uci_value(value.as_str());
                    ip = bounded_ascii_token(v.as_str(), 45).to_owned();
                } else if crate::text::str_eq(option.as_str(), "name") {
                    let v = parse_uci_value(value.as_str());
                    name = bounded_ascii_token(v.as_str(), 63).to_owned();
                }
            }
            i += 1;
        }
        assert(ls.skip(i as int) =~= Seq::<Seq<char>>::empty());
        if in_host {
            self.add_dhcp_host(&macs, ip.as_str(), name.as_str());
        }
    }
}

} // verus!
