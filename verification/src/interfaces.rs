use vstd::prelude::*;
use crate::keyed::{
    find_name, lemma_name_upsert_lookup, name_lookup, name_sorted_upsert, name_upsert, names_view,
    sorted_upsert_name, upsert_name, Named, NamedView,
};
use crate::nss_window::{sat_sub, saturating_sub};
use crate::text::{
    last_index_of, lemma_split_acc_step, parse_u64, rfind_char, spec_parse_u64, split_acc,
    split_on, split_whitespace, split_ws, str_chars, string_from_range, trim, trim_range,
};

verus! {

pub const LAN_INTERFACE_RATE_WINDOW_MS: u64 = 2_000;

pub const PROC_NET_DEV_SOURCE: &'static str = "/proc/net/dev single-pass snapshot";

pub const SYSFS_INTERFACE_SOURCE: &'static str = "/sys/class/net/<if>/statistics fallback";

pub const MIXED_INTERFACE_SOURCE: &'static str = "/proc/net/dev with sysfs fallback";

/// The kernel byte and packet counters of one network interface.
#[derive(Clone, Copy, Debug, PartialEq, Eq, Structural)]
pub struct InterfaceCounters {
    pub rx_bytes: u64,
    pub tx_bytes: u64,
    pub rx_packets: u64,
    pub tx_packets: u64,
}

impl Default for InterfaceCounters {
    fn default() -> (r: Self)
        ensures
            r.rx_bytes == 0 && r.tx_bytes == 0 && r.rx_packets == 0 && r.tx_packets == 0,
    {
        InterfaceCounters { rx_bytes: 0, tx_bytes: 0, rx_packets: 0, tx_packets: 0 }
    }
}

/// Where an interface's counters were read.
#[derive(Clone, Copy, Debug, PartialEq, Eq, Structural)]
pub enum InterfaceCounterSource {
    ProcNetDev,
    Sysfs,
}

pub open spec fn source_text(s: InterfaceCounterSource) -> &'static str {
    match s {
        InterfaceCounterSource::ProcNetDev => PROC_NET_DEV_SOURCE,
        InterfaceCounterSource::Sysfs => SYSFS_INTERFACE_SOURCE,
    }
}

impl InterfaceCounterSource {
    pub fn as_str(self) -> (r: &'static str)
        ensures
            r == source_text(self),
    {
        match self {
            InterfaceCounterSource::ProcNetDev => PROC_NET_DEV_SOURCE,
            InterfaceCounterSource::Sysfs => SYSFS_INTERFACE_SOURCE,
        }
    }
}

/// The counters read for a set of interfaces, and where each was read.
#[derive(Clone, Debug, PartialEq, Eq)]
pub struct InterfaceCounterSnapshot {
    pub counters: Vec<Named<InterfaceCounters>>,
    pub sources: Vec<Named<InterfaceCounterSource>>,
}

/// The description of where the counters of `names` come from: one source's
/// text when all share it, the mixed text once two differ, and `None` when
/// some name has no counters.
pub open spec fn spec_source_scan(
    sources: Seq<NamedView<InterfaceCounterSource>>,
    names: Seq<&str>,
    acc: Option<InterfaceCounterSource>,
) -> Option<&'static str>
    decreases names.len(),
{
    if names.len() == 0 {
        match acc {
            Some(s) => Some(source_text(s)),
            None => None,
        }
    } else {
        match name_lookup(sources, names[0]@) {
            None => None,
            Some(current) => if acc is Some && acc->0 != current {
                Some(MIXED_INTERFACE_SOURCE)
            } else {
                spec_source_scan(sources, names.drop_first(), Some(current))
            },
        }
    }
}

impl InterfaceCounterSnapshot {
    pub fn source_for(&self, names: &[&str]) -> (r: Option<&'static str>)
        ensures
            r == spec_source_scan(names_view(self.sources@), names@, None),
    {
        let ghost srcs = names_view(self.sources@);
        let mut source: Option<InterfaceCounterSource> = None;
        let mut i: usize = 0;
        assert(names@.skip(0) =~= names@);
        while i < names.len()
            invariant
                i <= names@.len(),
                srcs == names_view(self.sources@),
                spec_source_scan(srcs, names@, None) == spec_source_scan(
                    srcs,
                    names@.skip(i as int),
                    source,
                ),
            decreases names@.len() - i,
        {
            assert(names@.skip(i as int).drop_first() =~= names@.skip(i + 1));
            assert(names@.skip(i as int)[0] == names@[i as int]);
            let name = String::from_str(names[i]);
            let current = match find_name(&self.sources, &name) {
                Some(j) => self.sources[j].value,
                None => {
                    return None;
                },
            };
            match source {
                Some(value) => {
                    if value != current {
                        return Some(MIXED_INTERFACE_SOURCE);
                    }
                },
                None => {},
            }
            source = Some(current);
            i += 1;
        }
        match source {
            Some(s) => Some(s.as_str()),
            None => None,
        }
    }
}

} // verus!

verus! {

/// Why `/proc/net/dev` text was refused.
#[derive(Clone, Copy, Debug, PartialEq, Eq, Structural)]
pub enum ProcNetDevError {
    InvalidNumber,
    TruncatedRow,
    NoInterfaces,
}

/// The class of an I/O error; counter text that cannot be read is invalid data.
#[derive(Clone, Copy, Debug, PartialEq, Eq, Structural)]
pub enum ErrorKind {
    InvalidData,
}

impl ProcNetDevError {
    pub fn kind(&self) -> (r: ErrorKind)
        ensures
            r == ErrorKind::InvalidData,
    {
        ErrorKind::InvalidData
    }
}

/// What one line of `/proc/net/dev` contributes.
pub enum RowParse {
    Skip,
    Fail(ProcNetDevError),
    Row(Seq<char>, InterfaceCounters),
}

pub open spec fn tokens_parse(tokens: Seq<Seq<char>>) -> bool {
    forall|i: int| 0 <= i < tokens.len() ==> spec_parse_u64(#[trigger] tokens[i]) is Some
}

pub open spec fn token_value(tokens: Seq<Seq<char>>, i: int) -> u64 {
    spec_parse_u64(tokens[i])->0
}

/// One line: `name: rx_bytes rx_packets ... tx_bytes tx_packets ...`. Lines
/// without a colon or with an empty name are skipped.
pub open spec fn spec_proc_row(line: Seq<char>) -> RowParse {
    let k = last_index_of(line, ':');
    if k < 0 {
        RowParse::Skip
    } else {
        let name = trim(line.take(k));
        if name.len() == 0 {
            RowParse::Skip
        } else {
            let tokens = split_ws(line.skip(k + 1));
            if !tokens_parse(tokens) {
                RowParse::Fail(ProcNetDevError::InvalidNumber)
            } else if tokens.len() < 10 {
                RowParse::Fail(ProcNetDevError::TruncatedRow)
            } else {
                RowParse::Row(
                    name,
                    InterfaceCounters {
                        rx_bytes: token_value(tokens, 0),
                        rx_packets: token_value(tokens, 1),
                        tx_bytes: token_value(tokens, 8),
                        tx_packets: token_value(tokens, 9),
                    },
                )
            }
        }
    }
}

pub open spec fn spec_proc_rows(lines: Seq<Seq<char>>) -> Result<
    Seq<NamedView<InterfaceCounters>>,
    ProcNetDevError,
>
    decreases lines.len(),
{
    if lines.len() == 0 {
        Ok(Seq::empty())
    } else {
        match spec_proc_rows(lines.drop_last()) {
            Err(e) => Err(e),
            Ok(t) => match spec_proc_row(lines.last()) {
                RowParse::Skip => Ok(t),
                RowParse::Fail(e) => Err(e),
                RowParse::Row(name, c) => Ok(name_sorted_upsert(t, name, c)),
            },
        }
    }
}

/// The interfaces of `/proc/net/dev` text in name order, a later row of a
/// name replacing an earlier one; refused if any row fails or none is found.
pub open spec fn spec_parse_proc_net_dev(s: Seq<char>) -> Result<
    Seq<NamedView<InterfaceCounters>>,
    ProcNetDevError,
> {
    match spec_proc_rows(split_on(s, '\n')) {
        Err(e) => Err(e),
        Ok(t) => if t.len() == 0 {
            Err(ProcNetDevError::NoInterfaces)
        } else {
            Ok(t)
        },
    }
}

/// Interface counters by name, in name order.
#[derive(Clone, Debug, PartialEq, Eq)]
pub struct InterfaceCounterTable {
    pub entries: Vec<Named<InterfaceCounters>>,
}

impl InterfaceCounterTable {
    pub fn get(&self, name: &str) -> (r: Option<&InterfaceCounters>)
        ensures
            match r {
                Some(c) => name_lookup(names_view(self.entries@), name@) == Some(*c),
                None => name_lookup(names_view(self.entries@), name@) is None,
            },
    {
        let key = String::from_str(name);
        match find_name(&self.entries, &key) {
            Some(i) => Some(&self.entries[i].value),
            None => None,
        }
    }

    pub fn contains_key(&self, name: &str) -> (r: bool)
        ensures
            r == name_lookup(names_view(self.entries@), name@) is Some,
    {
        let key = String::from_str(name);
        find_name(&self.entries, &key).is_some()
    }
}

enum ExecRow {
    Skip,
    Fail(ProcNetDevError),
    Row(String, InterfaceCounters),
}

spec fn exec_row_matches(r: ExecRow, p: RowParse) -> bool {
    match (r, p) {
        (ExecRow::Skip, RowParse::Skip) => true,
        (ExecRow::Fail(a), RowParse::Fail(b)) => a == b,
        (ExecRow::Row(n, c), RowParse::Row(m, d)) => n@ == m && c == d,
        _ => false,
    }
}

fn parse_proc_row(v: &Vec<char>, lo: usize, hi: usize) -> (r: ExecRow)
    requires
        lo <= hi <= v@.len(),
    ensures
        exec_row_matches(r, spec_proc_row(v@.subrange(lo as int, hi as int))),
{
    let ghost line = v@.subrange(lo as int, hi as int);
    let k = match rfind_char(v, lo, hi, ':') {
        Some(k) => k,
        None => {
            return ExecRow::Skip;
        },
    };
    assert(line.take(k as int) =~= v@.subrange(lo as int, lo + k));
    assert(line.skip(k + 1) =~= v@.subrange(lo + k + 1, hi as int));
    let (a, b) = trim_range(v, lo, lo + k);
    if a == b {
        return ExecRow::Skip;
    }
    let tokens = split_whitespace(v, lo + k + 1, hi);
    let ghost toks = tokens@.map_values(|w: Vec<char>| w@);
    let mut values: Vec<u64> = Vec::new();
    let mut j: usize = 0;
    while j < tokens.len()
        invariant
            j <= tokens@.len(),
            toks == tokens@.map_values(|w: Vec<char>| w@),
            line == v@.subrange(lo as int, hi as int),
            last_index_of(line, ':') == k as int,
            trim(line.take(k as int)).len() > 0,
            toks == split_ws(line.skip(k + 1)),
            values@.len() == j,
            forall|t: int| 0 <= t < j ==> spec_parse_u64(#[trigger] toks[t]) == Some(values@[t]),
        decreases tokens@.len() - j,
    {
        let w = &tokens[j];
        assert(w@.subrange(0, w@.len() as int) =~= w@);
        match parse_u64(w, 0, w.len()) {
            Some(x) => values.push(x),
            None => {
                assert(!tokens_parse(toks)) by {
                    assert(spec_parse_u64(toks[j as int]) is None);
                }
                return ExecRow::Fail(ProcNetDevError::InvalidNumber);
            },
        }
        j += 1;
    }
    if tokens.len() < 10 {
        return ExecRow::Fail(ProcNetDevError::TruncatedRow);
    }
    ExecRow::Row(
        string_from_range(v, a, b),
        InterfaceCounters {
            rx_bytes: values[0],
            rx_packets: values[1],
            tx_bytes: values[8],
            tx_packets: values[9],
        },
    )
}

/// Parses the text of `/proc/net/dev`.
pub fn parse_proc_net_dev(contents: &str) -> (r: Result<InterfaceCounterTable, ProcNetDevError>)
    ensures
        match r {
            Ok(t) => spec_parse_proc_net_dev(contents@) == Ok::<
                Seq<NamedView<InterfaceCounters>>,
                ProcNetDevError,
            >(names_view(t.entries@)),
            Err(e) => spec_parse_proc_net_dev(contents@) == Err::<
                Seq<NamedView<InterfaceCounters>>,
                ProcNetDevError,
            >(e),
        },
{
    let v = str_chars(contents);
    let ghost s = v@;
    let n = v.len();
    let mut table: Vec<Named<InterfaceCounters>> = Vec::new();
    let ghost mut done: Seq<Seq<char>> = Seq::empty();
    let mut start: usize = 0;
    let mut i: usize = 0;
    proof {
        assert(s.subrange(0, n as int) =~= s);
        assert(s.subrange(0, 0) =~= Seq::<char>::empty());
        assert(names_view(table@) =~= Seq::<NamedView<InterfaceCounters>>::empty());
        assert(done + split_acc(s.subrange(0, n as int), '\n', Seq::empty()) =~= split_on(s, '\n'));
    }
    while i < n
        invariant
            s == v@,
            s == contents@,
            n == v@.len(),
            start <= i <= n,
            split_on(s, '\n') == done + split_acc(
                s.subrange(i as int, n as int),
                '\n',
                s.subrange(start as int, i as int),
            ),
            spec_proc_rows(done) == Ok::<Seq<NamedView<InterfaceCounters>>, ProcNetDevError>(
                names_view(table@),
            ),
        decreases n - i,
    {
        let ghost rest = s.subrange(i as int, n as int);
        let ghost cur = s.subrange(start as int, i as int);
        proof {
            lemma_split_acc_step(rest, '\n', cur);
            assert(rest.drop_first() =~= s.subrange(i + 1, n as int));
            assert(rest[0] == s[i as int]);
        }
        if v[i] == '\n' {
            let row = parse_proc_row(&v, start, i);
            proof {
                assert(done.push(cur).drop_last() =~= done);
                assert(split_on(s, '\n') =~= done.push(cur) + split_acc(
                    s.subrange(i + 1, n as int),
                    '\n',
                    Seq::empty(),
                ));
            }
            match row {
                ExecRow::Skip => {},
                ExecRow::Fail(e) => {
                    proof {
                        lemma_rows_err_extends(done.push(cur), split_acc(s.subrange(i + 1, n as int), '\n', Seq::empty()), e);
                        assert(spec_proc_rows(split_on(s, '\n')) == Err::<Seq<NamedView<InterfaceCounters>>, ProcNetDevError>(e));
                        assert(contents@ == s);
                    }
                    return Err(e);
                },
                ExecRow::Row(name, c) => {
                    sorted_upsert_name(&mut table, &name, c);
                },
            }
            proof {
                done = done.push(cur);
                assert(s.subrange(i + 1, i + 1) =~= Seq::<char>::empty());
            }
            start = i + 1;
        } else {
            proof {
                assert(cur.push(s[i as int]) =~= s.subrange(start as int, i + 1));
            }
        }
        i += 1;
    }
    let row = parse_proc_row(&v, start, n);
    let ghost cur = s.subrange(start as int, n as int);
    proof {
        assert(s.subrange(n as int, n as int) =~= Seq::<char>::empty());
        assert(split_on(s, '\n') =~= done.push(cur));
        assert(done.push(cur).drop_last() =~= done);
    }
    match row {
        ExecRow::Skip => {},
        ExecRow::Fail(e) => {
            return Err(e);
        },
        ExecRow::Row(name, c) => {
            sorted_upsert_name(&mut table, &name, c);
        },
    }
    if table.len() == 0 {
        return Err(ProcNetDevError::NoInterfaces);
    }
    Ok(InterfaceCounterTable { entries: table })
}

proof fn lemma_rows_err_extends(a: Seq<Seq<char>>, b: Seq<Seq<char>>, e: ProcNetDevError)
    requires
        spec_proc_rows(a) == Err::<Seq<NamedView<InterfaceCounters>>, ProcNetDevError>(e),
    ensures
        spec_proc_rows(a + b) == Err::<Seq<NamedView<InterfaceCounters>>, ProcNetDevError>(e),
    decreases b.len(),
{
    if b.len() == 0 {
        assert(a + b =~= a);
    } else {
        lemma_rows_err_extends(a, b.drop_last(), e);
        assert((a + b).drop_last() =~= a + b.drop_last());
    }
}

} // verus!

verus! {

/// `a * b`, held at `u64::MAX`.
pub open spec fn sat_mul(a: u64, b: u64) -> u64 {
    if a * b > u64::MAX { u64::MAX } else { (a * b) as u64 }
}

/// Counters never go back along a history.
pub open spec fn history_monotone(h: Seq<(InterfaceCounters, u64)>) -> bool {
    forall|i: int, j: int|
        0 <= i < j < h.len() ==> h[i].0.rx_bytes <= h[j].0.rx_bytes && h[i].0.tx_bytes
            <= h[j].0.tx_bytes
}

/// A new reading invalidates the history when time or a byte counter went back.
pub open spec fn history_stale(h: Seq<(InterfaceCounters, u64)>, c: InterfaceCounters, now_ms: u64) -> bool {
    h.len() > 0 && (now_ms <= h.last().1 || c.rx_bytes < h.last().0.rx_bytes || c.tx_bytes
        < h.last().0.tx_bytes)
}

/// Drops the oldest readings while the second oldest still spans the minimum window.
pub open spec fn trim_history(h: Seq<(InterfaceCounters, u64)>, now_ms: u64, minimum_window_ms: u64) -> Seq<
    (InterfaceCounters, u64),
>
    decreases h.len(),
{
    if h.len() > 2 && sat_sub(now_ms, h[1].1) >= minimum_window_ms {
        trim_history(h.drop_first(), now_ms, minimum_window_ms)
    } else {
        h
    }
}

/// The history of an interface after a reading.
pub open spec fn history_after(
    h: Seq<(InterfaceCounters, u64)>,
    c: InterfaceCounters,
    now_ms: u64,
    minimum_window_ms: u64,
) -> Seq<(InterfaceCounters, u64)> {
    let base = if history_stale(h, c, now_ms) {
        Seq::empty()
    } else {
        h
    };
    trim_history(base.push((c, now_ms)), now_ms, minimum_window_ms)
}

/// The rates `(rx_bps, tx_bps, window_ms)` from the oldest kept reading to
/// `c`; zero when that window is empty or shorter than the minimum.
pub open spec fn interface_rate(
    h: Seq<(InterfaceCounters, u64)>,
    c: InterfaceCounters,
    now_ms: u64,
    minimum_window_ms: u64,
) -> (u64, u64, u64) {
    let (old, old_ms) = h[0];
    if now_ms < old_ms {
        (0, 0, 0)
    } else {
        let delta = (now_ms - old_ms) as u64;
        if delta < minimum_window_ms || delta == 0 {
            (0, 0, 0)
        } else {
            (
                sat_mul((c.rx_bytes - old.rx_bytes) as u64, 8000) / delta,
                sat_mul((c.tx_bytes - old.tx_bytes) as u64, 8000) / delta,
                delta,
            )
        }
    }
}

/// Recent readings of each interface, for rates over a minimum window.
#[derive(Debug)]
pub struct InterfaceRateBook {
    history: Vec<Named<Vec<(InterfaceCounters, u64)>>>,
}

impl InterfaceRateBook {
    #[verifier::type_invariant]
    spec fn wf(&self) -> bool {
        forall|i: int|
            0 <= i < self.history@.len() ==> history_monotone(#[trigger] self.history@[i].value@)
    }

    /// The readings kept for `name`.
    pub closed spec fn history(&self, name: Seq<char>) -> Seq<(InterfaceCounters, u64)> {
        match name_lookup(names_view(self.history@), name) {
            Some(v) => v@,
            None => Seq::empty(),
        }
    }
}

impl Default for InterfaceRateBook {
    fn default() -> (r: Self)
        ensures
            forall|name: Seq<char>| r.history(name) == Seq::<(InterfaceCounters, u64)>::empty(),
    {
        let r = InterfaceRateBook { history: Vec::new() };
        assert forall|name: Seq<char>| r.history(name) == Seq::<(InterfaceCounters, u64)>::empty() by {
            assert(names_view(r.history@).len() == 0);
        }
        r
    }
}

fn copy_history(h: &Vec<(InterfaceCounters, u64)>) -> (r: Vec<(InterfaceCounters, u64)>)
    ensures
        r@ == h@,
{
    let mut r: Vec<(InterfaceCounters, u64)> = Vec::new();
    let mut i: usize = 0;
    while i < h.len()
        invariant
            i <= h@.len(),
            r@ == h@.take(i as int),
        decreases h@.len() - i,
    {
        r.push(h[i]);
        assert(h@.take(i + 1) =~= h@.take(i as int).push(h@[i as int]));
        i += 1;
    }
    assert(h@.take(i as int) =~= h@);
    r
}

proof fn lemma_trim_history(h: Seq<(InterfaceCounters, u64)>, now_ms: u64, minimum_window_ms: u64)
    requires
        history_monotone(h),
        h.len() > 0,
    ensures
        history_monotone(trim_history(h, now_ms, minimum_window_ms)),
        trim_history(h, now_ms, minimum_window_ms).len() > 0,
        trim_history(h, now_ms, minimum_window_ms).last() == h.last(),
    decreases h.len(),
{
    if h.len() > 2 && sat_sub(now_ms, h[1].1) >= minimum_window_ms {
        let t = h.drop_first();
        assert(history_monotone(t)) by {
            assert forall|i: int, j: int| 0 <= i < j < t.len() implies t[i].0.rx_bytes <= t[j].0.rx_bytes && t[i].0.tx_bytes <= t[j].0.tx_bytes by {
                assert(t[i] == h[i + 1] && t[j] == h[j + 1]);
            }
        }
        lemma_trim_history(t, now_ms, minimum_window_ms);
    }
}

impl InterfaceRateBook {
    pub fn update(&mut self, name: &str, counters: InterfaceCounters, now_ms: u64) -> (r: (u64, u64, u64))
        ensures
            final(self).history(name@) == history_after(old(self).history(name@), counters, now_ms, 0),
            forall|other: Seq<char>|
                other != name@ ==> #[trigger] final(self).history(other) == old(self).history(other),
            r == interface_rate(final(self).history(name@), counters, now_ms, 0),
    {
        self.update_windowed(name, counters, now_ms, 0)
    }

    /// Records a reading of `name` and returns `(rx_bps, tx_bps, window_ms)`
    /// over the longest window that keeps at least `minimum_window_ms`.
    pub fn update_windowed(
        &mut self,
        name: &str,
        counters: InterfaceCounters,
        now_ms: u64,
        minimum_window_ms: u64,
    ) -> (r: (u64, u64, u64))
        ensures
            final(self).history(name@) == history_after(
                old(self).history(name@),
                counters,
                now_ms,
                minimum_window_ms,
            ),
            forall|other: Seq<char>|
                other != name@ ==> #[trigger] final(self).history(other) == old(self).history(other),
            r == interface_rate(final(self).history(name@), counters, now_ms, minimum_window_ms),
    {
        proof {
            use_type_invariant(&*self);
        }
        let ghost self_before = self.history@;
        let key = String::from_str(name);
        let ghost old_h = self.history(name@);
        let mut h: Vec<(InterfaceCounters, u64)> = match find_name(&self.history, &key) {
            Some(i) => copy_history(&self.history[i].value),
            None => Vec::new(),
        };
        assert(h@ == old_h);
        assert(history_monotone(h@)) by {
            if h@.len() > 0 {
                let i = crate::keyed::name_index(names_view(self.history@), name@);
                assert(history_monotone(self.history@[i].value@));
            }
        }
        if h.len() > 0 {
            let (previous, previous_ms) = h[h.len() - 1];
            if now_ms <= previous_ms || counters.rx_bytes < previous.rx_bytes || counters.tx_bytes
                < previous.tx_bytes {
                h = Vec::new();
            }
        }
        let ghost base = h@;
        assert(base == (if history_stale(old_h, counters, now_ms) {
            Seq::empty()
        } else {
            old_h
        }));
        h.push((counters, now_ms));
        assert(history_monotone(h@)) by {
            assert forall|i: int, j: int| 0 <= i < j < h@.len() implies h@[i].0.rx_bytes <= h@[j].0.rx_bytes && h@[i].0.tx_bytes <= h@[j].0.tx_bytes by {
                if j == h@.len() - 1 && i < j {
                    assert(h@[i] == base[i]);
                    if i < base.len() - 1 {
                        assert(base[i].0.rx_bytes <= base.last().0.rx_bytes);
                    }
                } else {
                    assert(h@[i] == base[i] && h@[j] == base[j]);
                }
            }
        }
        let ghost pushed = h@;
        proof {
            lemma_trim_history(pushed, now_ms, minimum_window_ms);
        }
        while h.len() > 2 && saturating_sub(now_ms, h[1].1) >= minimum_window_ms
            invariant
                trim_history(pushed, now_ms, minimum_window_ms) == trim_history(
                    h@,
                    now_ms,
                    minimum_window_ms,
                ),
                h@.len() > 0,
            decreases h@.len(),
        {
            let ghost before = h@;
            h.remove(0);
            assert(h@ =~= before.drop_first());
        }
        let ghost kept = h@;
        assert(kept == history_after(old_h, counters, now_ms, minimum_window_ms));
        assert(kept.last() == (counters, now_ms));
        assert(history_monotone(kept));
        let (old, old_ms) = h[0];
        let result = if now_ms < old_ms {
            (0, 0, 0)
        } else {
            let delta = now_ms - old_ms;
            if delta < minimum_window_ms || delta == 0 {
                (0, 0, 0)
            } else {
                assert(old.rx_bytes <= counters.rx_bytes && old.tx_bytes <= counters.tx_bytes) by {
                    if kept.len() > 1 {
                        assert(kept[0].0.rx_bytes <= kept[kept.len() - 1].0.rx_bytes);
                    }
                }
                (
                    saturating_mul(counters.rx_bytes - old.rx_bytes, 8000) / delta,
                    saturating_mul(counters.tx_bytes - old.tx_bytes, 8000) / delta,
                    delta,
                )
            }
        };
        let ghost hs = names_view(self.history@);
        let mut all: Vec<Named<Vec<(InterfaceCounters, u64)>>> = Vec::new();
        std::mem::swap(&mut all, &mut self.history);
        let ghost all_before = all@;
        upsert_name(&mut all, &key, h);
        proof {
            lemma_name_upsert_lookup(hs, name@, h);
            let u = names_view(all@);
            let j = crate::keyed::name_index(hs, name@);
            assert(all_before == self_before);
            assert forall|i: int| 0 <= i < all@.len() implies history_monotone(#[trigger] all@[i].value@) by {
                assert(u[i] == all@[i]@);
                if (j >= 0 && i == j) || (j < 0 && i == hs.len()) {
                    assert(u[i].value == h);
                } else {
                    assert(i < hs.len());
                    assert(u[i] == hs[i]);
                    assert(hs[i] == all_before[i]@);
                    assert(history_monotone(all_before[i].value@));
                }
            }
        }
        self.history = all;
        result
    }
}

fn saturating_mul(a: u64, b: u64) -> (r: u64)
    ensures
        r == sat_mul(a, b),
{
    if b != 0 && a > u64::MAX / b {
        proof {
            assert(a * b > u64::MAX) by (nonlinear_arith)
                requires
                    b != 0,
                    a > u64::MAX / b,
            ;
        }
        u64::MAX
    } else {
        proof {
            if b != 0 {
                assert(a * b <= u64::MAX) by (nonlinear_arith)
                    requires
                        b != 0,
                        a <= u64::MAX / b,
                ;
            }
        }
        a * b
    }
}

} // verus!
