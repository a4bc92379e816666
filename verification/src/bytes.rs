use vstd::prelude::*;

verus! {

/// ASCII whitespace as `u8::is_ascii_whitespace` has it: space, tab, line
/// feed, form feed and carriage return.
pub open spec fn is_ascii_ws(b: u8) -> bool {
    b == 9 || b == 10 || b == 12 || b == 13 || b == 32
}

pub fn ascii_ws(b: u8) -> (r: bool)
    ensures
        r == is_ascii_ws(b),
{
    b == 9 || b == 10 || b == 12 || b == 13 || b == 32
}

/// The words of `s[i..]` split at ASCII whitespace, given the word `cur`
/// being read and the words `acc` already read.
pub open spec fn scan_words(s: Seq<u8>, i: int, cur: Seq<u8>, acc: Seq<Seq<u8>>) -> Seq<Seq<u8>>
    decreases s.len() - i,
{
    if i >= s.len() || i < 0 {
        if cur.len() > 0 {
            acc.push(cur)
        } else {
            acc
        }
    } else if is_ascii_ws(s[i]) {
        scan_words(s, i + 1, Seq::empty(), if cur.len() > 0 { acc.push(cur) } else { acc })
    } else {
        scan_words(s, i + 1, cur.push(s[i]), acc)
    }
}

/// The words of `s`, as `split_ascii_whitespace` gives them.
pub open spec fn ascii_words(s: Seq<u8>) -> Seq<Seq<u8>> {
    scan_words(s, 0, Seq::empty(), Seq::empty())
}

/// Splits bytes into words at ASCII whitespace.
pub fn split_ascii_words(s: &[u8]) -> (r: Vec<Vec<u8>>)
    ensures
        r@.map_values(|w: Vec<u8>| w@) == ascii_words(s@),
{
    let mut out: Vec<Vec<u8>> = Vec::new();
    let mut cur: Vec<u8> = Vec::new();
    assert(out@.map_values(|w: Vec<u8>| w@) =~= Seq::<Seq<u8>>::empty());
    assert(cur@ =~= Seq::<u8>::empty());
    let mut i: usize = 0;
    while i < s.len()
        invariant
            i <= s@.len(),
            scan_words(s@, i as int, cur@, out@.map_values(|w: Vec<u8>| w@)) == ascii_words(s@),
        decreases s@.len() - i,
    {
        if ascii_ws(s[i]) {
            if cur.len() > 0 {
                let ghost before = out@.map_values(|w: Vec<u8>| w@);
                let ghost word = cur@;
                let done = cur;
                out.push(done);
                assert(out@.map_values(|w: Vec<u8>| w@) =~= before.push(word));
                cur = Vec::new();
            } else {
                cur = Vec::new();
            }
            assert(cur@ =~= Seq::<u8>::empty());
        } else {
            cur.push(s[i]);
        }
        i += 1;
    }
    if cur.len() > 0 {
        let ghost before = out@.map_values(|w: Vec<u8>| w@);
        let ghost word = cur@;
        out.push(cur);
        assert(out@.map_values(|w: Vec<u8>| w@) =~= before.push(word));
    }
    out
}

/// Whether a byte is a decimal digit.
pub open spec fn is_dec(b: u8) -> bool {
    48 <= b <= 57
}

/// The value of a string of decimal digits.
pub open spec fn dec_value(d: Seq<u8>) -> nat
    decreases d.len(),
{
    if d.len() == 0 {
        0
    } else {
        dec_value(d.drop_last()) * 10 + (d.last() - 48) as nat
    }
}

/// Whether every byte is a decimal digit.
pub open spec fn all_dec(d: Seq<u8>) -> bool {
    forall|i: int| 0 <= i < d.len() ==> is_dec(#[trigger] d[i])
}

/// The digits of a number without its optional `+`.
pub open spec fn unsigned_digits(t: Seq<u8>) -> Seq<u8> {
    if t.len() > 0 && t[0] == 43 {
        t.drop_first()
    } else {
        t
    }
}

/// A number as `str::parse` reads an unsigned integer no greater than
/// `max`: an optional `+`, then one or more decimal digits.
pub open spec fn parse_dec(t: Seq<u8>, max: nat) -> Option<nat> {
    let d = unsigned_digits(t);
    if d.len() == 0 {
        None
    } else if !all_dec(d) {
        None
    } else if dec_value(d) > max {
        None
    } else {
        Some(dec_value(d))
    }
}

proof fn lemma_dec_value_grows(d: Seq<u8>, k: int)
    requires
        0 <= k <= d.len(),
        forall|i: int| 0 <= i < d.len() ==> is_dec(#[trigger] d[i]),
    ensures
        dec_value(d) >= dec_value(d.take(k)),
    decreases d.len() - k,
{
    if k < d.len() {
        let e = d.take(k + 1);
        assert(e.drop_last() =~= d.take(k));
        assert(e.last() == d[k]);
        lemma_dec_value_grows(d, k + 1);
    } else {
        assert(d.take(k) =~= d);
    }
}

/// Reads `t` as an unsigned integer no greater than `max`.
pub fn parse_dec_bytes(t: &[u8], max: u64) -> (r: Option<u64>)
    ensures
        match r {
            Some(v) => parse_dec(t@, max as nat) == Some(v as nat),
            None => parse_dec(t@, max as nat) is None,
        },
{
    let start: usize = if t.len() > 0 && t[0] == 43 {
        1
    } else {
        0
    };
    let ghost d = unsigned_digits(t@);
    assert(d =~= t@.subrange(start as int, t@.len() as int));
    if start == t.len() {
        return None;
    }
    let mut v: u64 = 0;
    let mut i: usize = start;
    while i < t.len()
        invariant
            start <= i <= t@.len(),
            d =~= t@.subrange(start as int, t@.len() as int),
            d == unsigned_digits(t@),
            forall|j: int| 0 <= j < i - start ==> is_dec(#[trigger] d[j]),
            v as nat == dec_value(d.take(i - start)),
            v <= max,
        decreases t@.len() - i,
    {
        let b = t[i];
        if !(48 <= b && b <= 57) {
            assert(!is_dec(d[i - start]));
            return None;
        }
        let digit = (b - 48) as u64;
        assert(d.take(i - start + 1).drop_last() =~= d.take(i - start));
        assert(d.take(i - start + 1).last() == b);
        let next: u128 = (v as u128) * 10 + (digit as u128);
        if next > max as u128 {
            proof {
                if all_dec(d) {
                    lemma_dec_value_grows(d, i - start + 1);
                }
            }
            return None;
        }
        v = next as u64;
        i += 1;
    }
    assert(d.take(d.len() as int) =~= d);
    Some(v)
}

} // verus!
