use vstd::prelude::*;
use crate::text::{seq_contains, seq_starts_with, str_chars, str_contains, str_eq, str_starts_with};

verus! {

pub const DEFAULT_REFRESH_INTERVAL_MS: u32 = 1_000;

pub const MIN_REFRESH_INTERVAL_MS: u32 = 500;

pub const DEFAULT_MAX_CLIENTS: usize = 2_048;

pub const DEFAULT_ACTIVE_CLIENT_WINDOW_MS: u64 = 10_000;

pub const MIN_ACTIVE_CLIENT_WINDOW_MS: u64 = 1_000;

pub const DEFAULT_ACTIVE_CLIENT_MIN_BPS: u64 = 1;

pub const DEFAULT_OVERVIEW_WINDOW_SAMPLES: usize = 240;

pub const MIN_OVERVIEW_WINDOW_SAMPLES: usize = 2;

pub const MAX_OVERVIEW_WINDOW_SAMPLES: usize = 240;

pub const MAX_INTERFACE_NAMES: usize = 16;

pub const MAX_INTERFACE_NAME_LEN: usize = 32;

/// The UCI section under which every option is read.
pub const CONFIG_PREFIX: &'static str = "lanspeed.main.";

pub const ARPHRD_ETHER: u32 = 1;

/// How many name prefixes are ignored when devices are offered automatically.
pub const AUTO_IGNORED_PREFIX_COUNT: usize = 10;

/// The name prefixes of devices that are never offered automatically.
pub open spec fn auto_ignored_prefix(i: int) -> Seq<char> {
    if i == 0 {
        "dae"@
    } else if i == 1 {
        "miireg"@
    } else if i == 2 {
        "tun"@
    } else if i == 3 {
        "erspan"@
    } else if i == 4 {
        "gretap"@
    } else if i == 5 {
        "gre"@
    } else if i == 6 {
        "ip6gre"@
    } else if i == 7 {
        "ip6tnl"@
    } else if i == 8 {
        "sit"@
    } else {
        "bonding_masters"@
    }
}

fn nth_auto_ignored_prefix(i: usize) -> (r: &'static str)
    requires
        i < AUTO_IGNORED_PREFIX_COUNT,
    ensures
        r@ == auto_ignored_prefix(i as int),
{
    if i == 0 {
        "dae"
    } else if i == 1 {
        "miireg"
    } else if i == 2 {
        "tun"
    } else if i == 3 {
        "erspan"
    } else if i == 4 {
        "gretap"
    } else if i == 5 {
        "gre"
    } else if i == 6 {
        "ip6gre"
    } else if i == 7 {
        "ip6tnl"
    } else if i == 8 {
        "sit"
    } else {
        "bonding_masters"
    }
}

pub open spec fn spec_auto_ignored(name: Seq<char>) -> bool {
    exists|i: int|
        0 <= i < AUTO_IGNORED_PREFIX_COUNT && seq_starts_with(name, #[trigger] auto_ignored_prefix(i))
}

pub fn is_auto_ignored_interface(name: &str) -> (r: bool)
    ensures
        r == spec_auto_ignored(name@),
{
    let mut i: usize = 0;
    while i < AUTO_IGNORED_PREFIX_COUNT
        invariant
            i <= AUTO_IGNORED_PREFIX_COUNT,
            forall|j: int| 0 <= j < i ==> !seq_starts_with(name@, #[trigger] auto_ignored_prefix(j)),
        decreases AUTO_IGNORED_PREFIX_COUNT - i,
    {
        if str_starts_with(name, nth_auto_ignored_prefix(i)) {
            return true;
        }
        i += 1;
    }
    false
}

/// A name that can be a device's directory: not empty, shorter than the
/// limit in bytes, not `.` or `..`, and free of `/` and NUL.
pub open spec fn spec_valid_interface_name(name: Seq<char>) -> bool {
    &&& name.len() > 0
    &&& vstd::utf8::encode_utf8(name).len() < MAX_INTERFACE_NAME_LEN
    &&& name != "."@
    &&& name != ".."@
    &&& !name.contains('/')
    &&& !name.contains('\0')
}

fn has_char(name: &str, c: char) -> (r: bool)
    ensures
        r == name@.contains(c),
{
    let cs = str_chars(name);
    match crate::text::find_char(&cs, c) {
        Some(k) => {
            proof {
                crate::text::lemma_first_index_of(cs@, c);
            }
            true
        },
        None => {
            proof {
                crate::text::lemma_first_index_of(cs@, c);
            }
            false
        },
    }
}

pub fn is_valid_interface_name(name: &str) -> (r: bool)
    ensures
        r == spec_valid_interface_name(name@),
{
    !name.is_empty() && name.as_bytes().len() < MAX_INTERFACE_NAME_LEN && !str_eq(name, ".")
        && !str_eq(name, "..") && !has_char(name, '/') && !has_char(name, '\0')
}

pub open spec fn spec_sysdevice_candidate(name: Seq<char>) -> bool {
    spec_valid_interface_name(name) && name != "lo"@ && !seq_starts_with(name, "teql"@)
        && !spec_auto_ignored(name)
}

pub fn is_sysdevice_candidate(name: &str) -> (r: bool)
    ensures
        r == spec_sysdevice_candidate(name@),
{
    is_valid_interface_name(name) && !str_eq(name, "lo") && !str_starts_with(name, "teql")
        && !is_auto_ignored_interface(name)
}

#[derive(Clone, Copy, Debug, Eq, PartialEq, Structural)]
pub enum RateCollectorMode {
    Auto,
    Bpf,
    NssEcmDirect,
    NssConntrackSync,
}

pub open spec fn spec_rate_mode(value: Seq<char>) -> Option<RateCollectorMode> {
    if value == "auto"@ {
        Some(RateCollectorMode::Auto)
    } else if value == "bpf"@ {
        Some(RateCollectorMode::Bpf)
    } else if value == "nss_ecm_direct"@ {
        Some(RateCollectorMode::NssEcmDirect)
    } else if value == "nss_conntrack_sync"@ || value == "conntrack_ecm_sync"@ {
        Some(RateCollectorMode::NssConntrackSync)
    } else {
        None
    }
}

pub open spec fn rate_mode_text(mode: RateCollectorMode) -> Seq<char> {
    match mode {
        RateCollectorMode::Auto => "auto"@,
        RateCollectorMode::Bpf => "bpf"@,
        RateCollectorMode::NssEcmDirect => "nss_ecm_direct"@,
        RateCollectorMode::NssConntrackSync => "nss_conntrack_sync"@,
    }
}

impl RateCollectorMode {
    pub fn parse(value: &str) -> (r: Option<Self>)
        ensures
            r == spec_rate_mode(value@),
    {
        if str_eq(value, "auto") {
            Some(RateCollectorMode::Auto)
        } else if str_eq(value, "bpf") {
            Some(RateCollectorMode::Bpf)
        } else if str_eq(value, "nss_ecm_direct") {
            Some(RateCollectorMode::NssEcmDirect)
        } else if str_eq(value, "nss_conntrack_sync") || str_eq(value, "conntrack_ecm_sync") {
            Some(RateCollectorMode::NssConntrackSync)
        } else {
            None
        }
    }

    pub fn as_str(self) -> (r: &'static str)
        ensures
            r@ == rate_mode_text(self),
    {
        match self {
            RateCollectorMode::Auto => "auto",
            RateCollectorMode::Bpf => "bpf",
            RateCollectorMode::NssEcmDirect => "nss_ecm_direct",
            RateCollectorMode::NssConntrackSync => "nss_conntrack_sync",
        }
    }
}

#[derive(Clone, Copy, Debug, Eq, PartialEq, Structural)]
pub enum ConnectionCollectorMode {
    Auto,
    ConntrackNetlink,
    ConntrackProcfs,
}

pub open spec fn spec_connection_mode(value: Seq<char>) -> Option<ConnectionCollectorMode> {
    if value == "auto"@ {
        Some(ConnectionCollectorMode::Auto)
    } else if value == "conntrack_netlink"@ {
        Some(ConnectionCollectorMode::ConntrackNetlink)
    } else if value == "conntrack_procfs"@ {
        Some(ConnectionCollectorMode::ConntrackProcfs)
    } else {
        None
    }
}

pub open spec fn connection_mode_text(mode: ConnectionCollectorMode) -> Seq<char> {
    match mode {
        ConnectionCollectorMode::Auto => "auto"@,
        ConnectionCollectorMode::ConntrackNetlink => "conntrack_netlink"@,
        ConnectionCollectorMode::ConntrackProcfs => "conntrack_procfs"@,
    }
}

impl ConnectionCollectorMode {
    pub fn parse(value: &str) -> (r: Option<Self>)
        ensures
            r == spec_connection_mode(value@),
    {
        if str_eq(value, "auto") {
            Some(ConnectionCollectorMode::Auto)
        } else if str_eq(value, "conntrack_netlink") {
            Some(ConnectionCollectorMode::ConntrackNetlink)
        } else if str_eq(value, "conntrack_procfs") {
            Some(ConnectionCollectorMode::ConntrackProcfs)
        } else {
            None
        }
    }

    pub fn as_str(self) -> (r: &'static str)
        ensures
            r@ == connection_mode_text(self),
    {
        match self {
            ConnectionCollectorMode::Auto => "auto",
            ConnectionCollectorMode::ConntrackNetlink => "conntrack_netlink",
            ConnectionCollectorMode::ConntrackProcfs => "conntrack_procfs",
        }
    }
}

/// A configuration option's value: one string, or a list of them.
#[derive(Clone, Debug, Eq, PartialEq)]
pub enum ConfigValue {
    Text(String),
    List(Vec<String>),
}

#[derive(Clone, Debug, Eq, PartialEq)]
pub enum ConfigError {
    Source(String),
    WrongType { option: String, expected: &'static str },
}

impl ConfigError {
    /// The message that describes the error.
    pub fn describe(&self) -> (r: String)
        ensures
            match self {
                ConfigError::Source(m) => r@ == "configuration source failed: "@ + m@,
                ConfigError::WrongType { option, expected } => r@ == "configuration option "@
                    + option@ + " must be "@ + expected@,
            },
    {
        match self {
            ConfigError::Source(m) => {
                let mut r = "configuration source failed: ".to_owned();
                r.append(m.as_str());
                r
            },
            ConfigError::WrongType { option, expected } => {
                let mut r = "configuration option ".to_owned();
                r.append(option.as_str());
                r.append(" must be ");
                r.append(expected);
                r
            },
        }
    }
}

/// Where configuration options are read from.
pub trait ConfigSource {
    fn get(&mut self, path: &str) -> Result<Option<ConfigValue>, ConfigError>;
}

/// Which devices may be collected from.
pub trait InterfaceEligibility {
    fn is_collect_eligible(&self, name: &str) -> bool;
}

/// Eligibility by name alone: no tunnels, WAN or PPP links, taps or the
/// accelerator's own IFB device.
pub open spec fn spec_legacy_eligible(name: Seq<char>) -> bool {
    !spec_auto_ignored(name) && name != "nssifb"@ && !seq_starts_with(name, "ppp"@)
        && !seq_starts_with(name, "wg"@) && !seq_starts_with(name, "wan"@) && !seq_starts_with(
        name,
        "pppoe-"@,
    ) && !seq_starts_with(name, "tap"@) && !seq_starts_with(name, "utun"@)
}

#[derive(Clone, Copy, Debug, Default)]
pub struct LegacyNameEligibility;

impl LegacyNameEligibility {
    pub fn eligible(&self, name: &str) -> (r: bool)
        ensures
            r == spec_legacy_eligible(name@),
    {
        !is_auto_ignored_interface(name) && !str_eq(name, "nssifb") && !str_starts_with(name, "ppp")
            && !str_starts_with(name, "wg") && !str_starts_with(name, "wan") && !str_starts_with(
            name,
            "pppoe-",
        ) && !str_starts_with(name, "tap") && !str_starts_with(name, "utun")
    }
}

impl InterfaceEligibility for LegacyNameEligibility {
    fn is_collect_eligible(&self, name: &str) -> bool {
        self.eligible(name)
    }
}

/// Eligibility of Ethernet-type devices under a sysfs root.
#[derive(Clone, Debug)]
pub struct SysfsInterfaceEligibility {
    pub root: String,
}

impl SysfsInterfaceEligibility {
    pub fn new(root: &str) -> (r: Self)
        ensures
            r.root@ == root@,
    {
        SysfsInterfaceEligibility { root: root.to_owned() }
    }

    /// The sysfs file that holds a device's link type.
    pub fn type_path(&self, name: &str) -> (r: String)
        ensures
            r@ == self.root@ + "/"@ + name@ + "/type"@,
    {
        let mut r = self.root.clone();
        r.append("/");
        r.append(name);
        r.append("/type");
        r
    }
}

impl Default for SysfsInterfaceEligibility {
    fn default() -> (r: Self)
        ensures
            r.root@ == "/sys/class/net"@,
    {
        SysfsInterfaceEligibility::new("/sys/class/net")
    }
}

/// A name that may be looked up in sysfs at all.
pub open spec fn spec_sysfs_name_allowed(name: Seq<char>) -> bool {
    name.len() > 0 && name != "."@ && name != ".."@ && !name.contains('/') && !name.contains('\0')
        && spec_legacy_eligible(name)
}

/// Whether a device may be collected from, given the text of its sysfs
/// `type` file (`None` when it could not be read): the name must be allowed
/// and the link type, once trimmed, must read as Ethernet.
pub open spec fn spec_sysfs_eligible(name: Seq<char>, link_type: Option<Seq<char>>) -> bool {
    spec_sysfs_name_allowed(name) && match link_type {
        Some(t) => crate::text::spec_parse_u64(crate::text::trim(t)) == Some(ARPHRD_ETHER as u64),
        None => false,
    }
}

pub fn sysfs_eligible(name: &str, link_type: Option<&str>) -> (r: bool)
    ensures
        r == spec_sysfs_eligible(
            name@,
            match link_type {
                Some(t) => Some(t@),
                None => None,
            },
        ),
{
    if name.is_empty() || str_eq(name, ".") || str_eq(name, "..") || has_char(name, '/') || has_char(
        name,
        '\0',
    ) || !LegacyNameEligibility.eligible(name) {
        return false;
    }
    match link_type {
        Some(t) => {
            let cs = str_chars(t);
            let (lo, hi) = crate::text::trim_range(&cs, 0, cs.len());
            assert(cs@.subrange(0, cs@.len() as int) =~= cs@);
            match crate::text::parse_u64(&cs, lo, hi) {
                Some(v) => v == ARPHRD_ETHER as u64,
                None => false,
            }
        },
        None => false,
    }
}

} // verus!

verus! {

/// The whitespace that C's number parsers skip.
pub open spec fn is_c_space(c: char) -> bool {
    c == ' ' || c == '\t' || c == '\n' || c == '\r' || c == '\x0b' || c == '\x0c'
}

/// `s` without its leading C whitespace.
pub open spec fn skip_c_space(s: Seq<char>) -> Seq<char>
    decreases s.len(),
{
    if s.len() > 0 && is_c_space(s[0]) {
        skip_c_space(s.drop_first())
    } else {
        s
    }
}

/// An optional sign, and the rest.
pub open spec fn sign_split(s: Seq<char>) -> (bool, Seq<char>) {
    if s.len() > 0 && s[0] == '-' {
        (true, s.drop_first())
    } else if s.len() > 0 && s[0] == '+' {
        (false, s.drop_first())
    } else {
        (false, s)
    }
}

/// The digits that `s` begins with.
pub open spec fn digit_run(s: Seq<char>) -> Seq<char>
    decreases s.len(),
{
    if s.len() > 0 && crate::text::is_digit(s[0]) {
        seq![s[0]] + digit_run(s.drop_first())
    } else {
        Seq::empty()
    }
}

/// The sign and digits of a C-style number: leading whitespace skipped, an
/// optional sign, then the digits up to the first other character.
pub open spec fn c_number(s: Seq<char>) -> (bool, Seq<char>) {
    let (negative, rest) = sign_split(skip_c_space(s));
    (negative, digit_run(rest))
}

/// What `strtol`-style signed parsing gives: zero without digits, the value
/// saturated to the `i128` range otherwise.
pub open spec fn spec_parse_c_signed(s: Seq<char>) -> int {
    let (negative, digits) = c_number(s);
    let v = crate::text::digits_value(digits);
    let saturated = if v > i128::MAX {
        i128::MAX as int
    } else {
        v
    };
    if digits.len() == 0 {
        0
    } else if negative {
        -saturated
    } else {
        saturated
    }
}

/// What `strtoul`-style unsigned parsing gives: the largest value on
/// overflow, zero without digits, and a negated value wrapped modulo 2^64.
pub open spec fn spec_parse_c_unsigned(s: Seq<char>) -> u64 {
    let (negative, digits) = c_number(s);
    let v = crate::text::digits_value(digits);
    if v > u64::MAX {
        u64::MAX
    } else if digits.len() == 0 {
        0
    } else if negative && v != 0 {
        (0x1_0000_0000_0000_0000 - v) as u64
    } else {
        v as u64
    }
}

proof fn lemma_digit_run(s: Seq<char>)
    ensures
        digit_run(s).len() <= s.len(),
        digit_run(s) == s.take(digit_run(s).len() as int),
        crate::text::all_digits(digit_run(s)),
        digit_run(s).len() < s.len() ==> !crate::text::is_digit(s[digit_run(s).len() as int]),
    decreases s.len(),
{
    if s.len() > 0 && crate::text::is_digit(s[0]) {
        lemma_digit_run(s.drop_first());
        assert(digit_run(s) =~= s.take(digit_run(s).len() as int));
        let d = digit_run(s);
        assert forall|i: int| 0 <= i < d.len() implies crate::text::is_digit(#[trigger] d[i]) by {
            if i > 0 {
                assert(d[i] == digit_run(s.drop_first())[i - 1]);
            }
        }
    }
}

proof fn lemma_skip_c_space(s: Seq<char>)
    ensures
        exists|k: int|
            0 <= k <= s.len() && skip_c_space(s) == s.skip(k) && (forall|j: int|
                0 <= j < k ==> is_c_space(#[trigger] s[j])) && (k < s.len() ==> !is_c_space(s[k])),
    decreases s.len(),
{
    if s.len() > 0 && is_c_space(s[0]) {
        lemma_skip_c_space(s.drop_first());
        let k = choose|k: int|
            0 <= k <= s.drop_first().len() && skip_c_space(s.drop_first()) == s.drop_first().skip(
                k,
            ) && (forall|j: int| 0 <= j < k ==> is_c_space(#[trigger] s.drop_first()[j])) && (k
                < s.drop_first().len() ==> !is_c_space(s.drop_first()[k]));
        assert(s.drop_first().skip(k) =~= s.skip(k + 1));
        assert forall|j: int| 0 <= j < k + 1 implies is_c_space(#[trigger] s[j]) by {
            if j > 0 {
                assert(s[j] == s.drop_first()[j - 1]);
            }
        }
        assert(k + 1 < s.len() ==> s[k + 1] == s.drop_first()[k]);
    } else {
        assert(s.skip(0) =~= s);
    }
}

/// Where the number's digits begin and end in `cs`, and its sign.
fn c_number_bounds(cs: &Vec<char>) -> (r: (bool, usize, usize))
    ensures
        r.1 <= r.2 <= cs@.len(),
        c_number(cs@) == (r.0, cs@.subrange(r.1 as int, r.2 as int)),
{
    let mut i: usize = 0;
    assert(cs@.skip(0) =~= cs@);
    while i < cs.len() && (cs[i] == ' ' || cs[i] == '\t' || cs[i] == '\n' || cs[i] == '\r'
        || cs[i] == '\x0b' || cs[i] == '\x0c')
        invariant
            i <= cs@.len(),
            skip_c_space(cs@) == skip_c_space(cs@.skip(i as int)),
        decreases cs@.len() - i,
    {
        assert(cs@.skip(i as int).drop_first() =~= cs@.skip(i + 1));
        i += 1;
    }
    assert(skip_c_space(cs@.skip(i as int)) == cs@.skip(i as int));
    let mut negative = false;
    if i < cs.len() && cs[i] == '-' {
        negative = true;
        assert(cs@.skip(i as int).drop_first() =~= cs@.skip(i + 1));
        i += 1;
    } else if i < cs.len() && cs[i] == '+' {
        assert(cs@.skip(i as int).drop_first() =~= cs@.skip(i + 1));
        i += 1;
    }
    let start = i;
    let ghost rest = cs@.skip(start as int);
    assert(sign_split(skip_c_space(cs@)) == (negative, rest));
    proof {
        lemma_digit_run(rest);
    }
    while i < cs.len() && cs[i] >= '0' && cs[i] <= '9'
        invariant
            start <= i <= cs@.len(),
            rest == cs@.skip(start as int),
            forall|j: int| start <= j < i ==> crate::text::is_digit(#[trigger] cs@[j]),
            i - start <= digit_run(rest).len(),
            digit_run(rest) == rest.take(digit_run(rest).len() as int),
            digit_run(rest).len() <= rest.len(),
            digit_run(rest).len() < rest.len() ==> !crate::text::is_digit(
                rest[digit_run(rest).len() as int],
            ),
        decreases cs@.len() - i,
    {
        proof {
            if i - start == digit_run(rest).len() {
                assert(rest[i - start] == cs@[i as int]);
            }
        }
        i += 1;
    }
    proof {
        if i - start < digit_run(rest).len() {
            assert(rest[i - start] == rest.take(digit_run(rest).len() as int)[i - start]);
            assert(crate::text::is_digit(rest[i - start])) by {
                lemma_digit_run(rest);
            }
        }
    }
    assert(digit_run(rest) =~= cs@.subrange(start as int, i as int));
    (negative, start, i)
}

pub fn parse_c_signed(value: &str) -> (r: i128)
    ensures
        r as int == spec_parse_c_signed(value@),
{
    let cs = str_chars(value);
    let (negative, lo, hi) = c_number_bounds(&cs);
    let ghost digits = cs@.subrange(lo as int, hi as int);
    proof {
        lemma_digit_run(sign_split(skip_c_space(cs@)).1);
    }
    let mut parsed: i128 = 0;
    let mut k = lo;
    while k < hi
        invariant
            lo <= k <= hi <= cs@.len(),
            digits == cs@.subrange(lo as int, hi as int),
            crate::text::all_digits(digits),
            parsed >= 0,
            parsed as int == (if crate::text::digits_value(cs@.subrange(lo as int, k as int))
                > i128::MAX {
                i128::MAX as int
            } else {
                crate::text::digits_value(cs@.subrange(lo as int, k as int))
            }),
        decreases hi - k,
    {
        let ghost prefix = cs@.subrange(lo as int, k as int);
        let ghost next = cs@.subrange(lo as int, k + 1);
        assert(next.drop_last() =~= prefix);
        assert(crate::text::is_digit(digits[k - lo]));
        assert(next.last() == digits[k - lo]);
        assert(crate::text::all_digits(prefix)) by {
            assert forall|j: int| 0 <= j < prefix.len() implies crate::text::is_digit(
                #[trigger] prefix[j],
            ) by {
                assert(prefix[j] == digits[j]);
            }
        }
        proof {
            crate::text::lemma_digits_nonneg(prefix);
        }
        let d = (cs[k] as u32 - '0' as u32) as i128;
        let ghost e = crate::text::digits_value(prefix);
        if parsed > (i128::MAX - d) / 10 {
            assert(e * 10 + d > i128::MAX) by (nonlinear_arith)
                requires
                    e >= parsed,
                    parsed > (i128::MAX - d) / 10,
                    0 <= d <= 9,
            ;
            parsed = i128::MAX;
        } else {
            assert(parsed * 10 + d <= i128::MAX) by (nonlinear_arith)
                requires
                    parsed <= (i128::MAX - d) / 10,
                    0 <= d <= 9,
                    parsed >= 0,
            ;
            parsed = parsed * 10 + d;
        }
        k += 1;
    }
    assert(cs@.subrange(lo as int, k as int) =~= digits);
    if hi == lo {
        return 0;
    }
    if negative {
        -parsed
    } else {
        parsed
    }
}

} // verus!

verus! {

pub fn parse_c_unsigned(value: &str) -> (r: u64)
    ensures
        r == spec_parse_c_unsigned(value@),
{
    let cs = str_chars(value);
    let (negative, lo, hi) = c_number_bounds(&cs);
    let ghost digits = cs@.subrange(lo as int, hi as int);
    proof {
        lemma_digit_run(sign_split(skip_c_space(cs@)).1);
    }
    let mut parsed: u64 = 0;
    let mut k = lo;
    while k < hi
        invariant
            lo <= k <= hi <= cs@.len(),
            digits == cs@.subrange(lo as int, hi as int),
            crate::text::all_digits(digits),
            cs@ == value@,
            c_number(cs@) == (negative, digits),
            parsed as int == crate::text::digits_value(cs@.subrange(lo as int, k as int)),
        decreases hi - k,
    {
        let ghost prefix = cs@.subrange(lo as int, k as int);
        let ghost next = cs@.subrange(lo as int, k + 1);
        assert(next.drop_last() =~= prefix);
        assert(crate::text::is_digit(digits[k - lo]));
        assert(next.last() == digits[k - lo]);
        let d = (cs[k] as u32 - '0' as u32) as u64;
        if parsed > (u64::MAX - d) / 10 {
            assert(parsed * 10 + d > u64::MAX) by (nonlinear_arith)
                requires
                    parsed > (u64::MAX - d) / 10,
                    0 <= d <= 9,
            ;
            proof {
                assert(crate::text::digits_value(next) == parsed * 10 + d);
                assert(next =~= digits.take(k + 1 - lo));
                crate::text::lemma_digits_prefix_bound(digits, k + 1 - lo);
            }
            return u64::MAX;
        }
        assert(parsed * 10 + d <= u64::MAX) by (nonlinear_arith)
            requires
                parsed <= (u64::MAX - d) / 10,
                0 <= d <= 9,
        ;
        parsed = parsed * 10 + d;
        k += 1;
    }
    assert(cs@.subrange(lo as int, k as int) =~= digits);
    if hi == lo {
        return 0;
    }
    if negative {
        0u64.wrapping_sub(parsed)
    } else {
        parsed
    }
}

/// A legacy boolean option: `1` or `true`.
pub open spec fn spec_legacy_bool(value: Seq<char>) -> bool {
    value == "1"@ || value == "true"@
}

pub fn legacy_bool(value: &str) -> (r: bool)
    ensures
        r == spec_legacy_bool(value@),
{
    str_eq(value, "1") || str_eq(value, "true")
}

} // verus!

verus! {

/// The settings the daemon runs with.
#[derive(Clone, Debug, Eq, PartialEq)]
pub struct RuntimeConfig {
    pub refresh_interval_ms: u32,
    pub max_clients: usize,
    pub active_client_window_ms: u64,
    pub active_client_min_bps: u64,
    pub overview_window_samples: usize,
    pub enable_bpf: bool,
    pub enable_conntrack_fallback: bool,
    pub refresh_interval_clamped: bool,
    pub active_client_window_clamped: bool,
    pub active_client_min_bps_clamped: bool,
    pub overview_window_samples_clamped: bool,
    pub rate_collector_mode: RateCollectorMode,
    pub conn_collector_mode: ConnectionCollectorMode,
    pub ifnames: Vec<String>,
    pub interface_include: Vec<String>,
    /// Kept for the configuration contract; it does not alter the attach set.
    pub interface_exclude: Vec<String>,
    pub observe_ifnames: Vec<String>,
    pub rejected_nssifb_collect: bool,
}

/// The texts of a list of strings.
pub open spec fn names_of(v: Seq<String>) -> Seq<Seq<char>> {
    v.map_values(|s: String| s@)
}

/// Every value at its default, no list filled.
pub open spec fn is_default_config(c: RuntimeConfig) -> bool {
    &&& c.refresh_interval_ms == DEFAULT_REFRESH_INTERVAL_MS
    &&& c.max_clients == DEFAULT_MAX_CLIENTS
    &&& c.active_client_window_ms == DEFAULT_ACTIVE_CLIENT_WINDOW_MS
    &&& c.active_client_min_bps == DEFAULT_ACTIVE_CLIENT_MIN_BPS
    &&& c.overview_window_samples == DEFAULT_OVERVIEW_WINDOW_SAMPLES
    &&& !c.enable_bpf
    &&& c.enable_conntrack_fallback
    &&& !c.refresh_interval_clamped
    &&& !c.active_client_window_clamped
    &&& !c.active_client_min_bps_clamped
    &&& !c.overview_window_samples_clamped
    &&& c.rate_collector_mode == RateCollectorMode::Auto
    &&& c.conn_collector_mode == ConnectionCollectorMode::Auto
    &&& c.ifnames@.len() == 0
    &&& c.interface_include@.len() == 0
    &&& c.interface_exclude@.len() == 0
    &&& c.observe_ifnames@.len() == 0
    &&& !c.rejected_nssifb_collect
}

impl Default for RuntimeConfig {
    fn default() -> (r: Self)
        ensures
            is_default_config(r),
    {
        RuntimeConfig {
            refresh_interval_ms: DEFAULT_REFRESH_INTERVAL_MS,
            max_clients: DEFAULT_MAX_CLIENTS,
            active_client_window_ms: DEFAULT_ACTIVE_CLIENT_WINDOW_MS,
            active_client_min_bps: DEFAULT_ACTIVE_CLIENT_MIN_BPS,
            overview_window_samples: DEFAULT_OVERVIEW_WINDOW_SAMPLES,
            enable_bpf: false,
            enable_conntrack_fallback: true,
            refresh_interval_clamped: false,
            active_client_window_clamped: false,
            active_client_min_bps_clamped: false,
            overview_window_samples_clamped: false,
            rate_collector_mode: RateCollectorMode::Auto,
            conn_collector_mode: ConnectionCollectorMode::Auto,
            ifnames: Vec::new(),
            interface_include: Vec::new(),
            interface_exclude: Vec::new(),
            observe_ifnames: Vec::new(),
            rejected_nssifb_collect: false,
        }
    }
}

/// The names collected from `input`, in order: each valid, eligible by name,
/// not yet taken, while fewer than the limit are taken.
pub open spec fn collect_names(input: Seq<Seq<char>>) -> Seq<Seq<char>>
    decreases input.len(),
{
    if input.len() == 0 {
        Seq::empty()
    } else {
        let acc = collect_names(input.drop_last());
        let name = input.last();
        if spec_valid_interface_name(name) && spec_legacy_eligible(name) && !acc.contains(name)
            && acc.len() < MAX_INTERFACE_NAMES {
            acc.push(name)
        } else {
            acc
        }
    }
}

/// The observed-only names kept from `input`, given the collected ones.
pub open spec fn observe_names(input: Seq<Seq<char>>, collected: Seq<Seq<char>>) -> Seq<Seq<char>>
    decreases input.len(),
{
    if input.len() == 0 {
        Seq::empty()
    } else {
        let acc = observe_names(input.drop_last(), collected);
        let name = input.last();
        if spec_valid_interface_name(name) && !spec_auto_ignored(name) && !collected.contains(name)
            && !acc.contains(name) && acc.len() < MAX_INTERFACE_NAMES {
            acc.push(name)
        } else {
            acc
        }
    }
}

fn contains_name(v: &Vec<String>, name: &String) -> (r: bool)
    ensures
        r == names_of(v@).contains(name@),
{
    let mut i: usize = 0;
    while i < v.len()
        invariant
            i <= v@.len(),
            forall|j: int| 0 <= j < i ==> names_of(v@)[j] != name@,
        decreases v@.len() - i,
    {
        if str_eq(v[i].as_str(), name.as_str()) {
            assert(names_of(v@)[i as int] == name@);
            return true;
        }
        i += 1;
    }
    false
}

impl RuntimeConfig {
    /// The devices to collect from: the configured and included names that
    /// are valid and eligible, each once, at most the limit.
    pub fn runtime_collect_ifnames(&self) -> (r: Vec<String>)
        ensures
            names_of(r@) == collect_names(names_of(self.ifnames@) + names_of(self.interface_include@)),
    {
        let ghost input = names_of(self.ifnames@) + names_of(self.interface_include@);
        let ghost first = self.ifnames@.len();
        let mut names: Vec<String> = Vec::new();
        let mut i: usize = 0;
        while i < self.ifnames.len()
            invariant
                i <= self.ifnames@.len(),
                first == self.ifnames@.len(),
                input == names_of(self.ifnames@) + names_of(self.interface_include@),
                names_of(names@) == collect_names(input.take(i as int)),
            decreases self.ifnames@.len() - i,
        {
            let name = &self.ifnames[i];
            assert(input[i as int] == name@);
            assert(input.take(i + 1).drop_last() =~= input.take(i as int));
            if is_valid_interface_name(name.as_str()) && LegacyNameEligibility.eligible(name.as_str())
                && !contains_name(&names, name) && names.len() < MAX_INTERFACE_NAMES {
                names.push(name.clone());
                assert(names_of(names@) =~= collect_names(input.take(i + 1)));
            }
            i += 1;
        }
        let mut j: usize = 0;
        while j < self.interface_include.len()
            invariant
                j <= self.interface_include@.len(),
                first == self.ifnames@.len(),
                input == names_of(self.ifnames@) + names_of(self.interface_include@),
                names_of(names@) == collect_names(input.take(first + j)),
            decreases self.interface_include@.len() - j,
        {
            let name = &self.interface_include[j];
            assert(input[first + j] == name@);
            assert(input.take(first + j + 1).drop_last() =~= input.take(first + j));
            if is_valid_interface_name(name.as_str()) && LegacyNameEligibility.eligible(name.as_str())
                && !contains_name(&names, name) && names.len() < MAX_INTERFACE_NAMES {
                names.push(name.clone());
                assert(names_of(names@) =~= collect_names(input.take(first + j + 1)));
            }
            j += 1;
        }
        assert(input.take(first + j) =~= input);
        names
    }

    /// The devices only observed: the observe names that are valid, not
    /// automatically ignored and not collected, each once, at most the limit.
    pub fn runtime_observe_ifnames(&self) -> (r: Vec<String>)
        ensures
            names_of(r@) == observe_names(
                names_of(self.observe_ifnames@),
                collect_names(names_of(self.ifnames@) + names_of(self.interface_include@)),
            ),
    {
        let collected = self.runtime_collect_ifnames();
        let ghost input = names_of(self.observe_ifnames@);
        let mut names: Vec<String> = Vec::new();
        let mut i: usize = 0;
        while i < self.observe_ifnames.len()
            invariant
                i <= self.observe_ifnames@.len(),
                input == names_of(self.observe_ifnames@),
                names_of(names@) == observe_names(input.take(i as int), names_of(collected@)),
            decreases self.observe_ifnames@.len() - i,
        {
            let name = &self.observe_ifnames[i];
            assert(input[i as int] == name@);
            assert(input.take(i + 1).drop_last() =~= input.take(i as int));
            if is_valid_interface_name(name.as_str()) && !is_auto_ignored_interface(name.as_str())
                && !contains_name(&collected, name) && !contains_name(&names, name) && names.len()
                < MAX_INTERFACE_NAMES {
                names.push(name.clone());
                assert(names_of(names@) =~= observe_names(input.take(i + 1), names_of(collected@)));
            }
            i += 1;
        }
        assert(input.take(i as int) =~= input);
        names
    }
}

} // verus!

verus! {

/// The options read from a configuration source, each as it was found.
#[derive(Clone, Debug, Default)]
pub struct ConfigOptions {
    pub refresh_interval_ms: Option<String>,
    pub active_client_window_ms: Option<String>,
    pub active_client_min_bps: Option<String>,
    pub overview_window_samples: Option<String>,
    pub max_clients: Option<String>,
    pub collector_mode: Option<String>,
    pub rate_collector_mode: Option<String>,
    pub conn_collector_mode: Option<String>,
    pub enable_bpf: Option<String>,
    pub enable_conntrack_fallback: Option<String>,
    pub ifname: Vec<String>,
    pub interface_include: Vec<String>,
    pub interface_exclude: Vec<String>,
    pub observe: Vec<String>,
}

pub open spec fn text_of(v: Option<String>) -> Option<Seq<char>> {
    match v {
        Some(s) => Some(s@),
        None => None,
    }
}

/// The refresh interval and whether it was raised to the minimum.
pub open spec fn refresh_setting(v: Option<Seq<char>>) -> (u32, bool) {
    match v {
        None => (DEFAULT_REFRESH_INTERVAL_MS, false),
        Some(s) => {
            let p = spec_parse_c_signed(s);
            if p >= MIN_REFRESH_INTERVAL_MS {
                (if p > u32::MAX {
                    u32::MAX
                } else {
                    p as u32
                }, false)
            } else if p > 0 {
                (MIN_REFRESH_INTERVAL_MS, true)
            } else {
                (DEFAULT_REFRESH_INTERVAL_MS, false)
            }
        },
    }
}

/// The active-client window and whether it was raised to the minimum.
pub open spec fn window_setting(v: Option<Seq<char>>) -> (u64, bool) {
    match v {
        None => (DEFAULT_ACTIVE_CLIENT_WINDOW_MS, false),
        Some(s) => {
            let p = spec_parse_c_unsigned(s);
            if p >= MIN_ACTIVE_CLIENT_WINDOW_MS {
                (p, false)
            } else if p > 0 {
                (MIN_ACTIVE_CLIENT_WINDOW_MS, true)
            } else {
                (DEFAULT_ACTIVE_CLIENT_WINDOW_MS, false)
            }
        },
    }
}

/// The active-client rate floor and whether it was raised to the minimum.
pub open spec fn min_bps_setting(v: Option<Seq<char>>) -> (u64, bool) {
    match v {
        None => (DEFAULT_ACTIVE_CLIENT_MIN_BPS, false),
        Some(s) => {
            let p = spec_parse_c_unsigned(s);
            if p >= DEFAULT_ACTIVE_CLIENT_MIN_BPS {
                (p, false)
            } else {
                (DEFAULT_ACTIVE_CLIENT_MIN_BPS, true)
            }
        },
    }
}

/// The overview length and whether it was clamped into range.
pub open spec fn overview_setting(v: Option<Seq<char>>) -> (usize, bool) {
    match v {
        None => (DEFAULT_OVERVIEW_WINDOW_SAMPLES, false),
        Some(s) => {
            let p = spec_parse_c_signed(s);
            if MIN_OVERVIEW_WINDOW_SAMPLES <= p <= MAX_OVERVIEW_WINDOW_SAMPLES {
                (p as usize, false)
            } else if p > 0 {
                (if p < MIN_OVERVIEW_WINDOW_SAMPLES {
                    MIN_OVERVIEW_WINDOW_SAMPLES
                } else {
                    MAX_OVERVIEW_WINDOW_SAMPLES
                }, true)
            } else {
                (DEFAULT_OVERVIEW_WINDOW_SAMPLES, false)
            }
        },
    }
}

/// The client limit: a non-negative value, saturated to `usize`.
pub open spec fn max_clients_setting(v: Option<Seq<char>>) -> usize {
    match v {
        None => DEFAULT_MAX_CLIENTS,
        Some(s) => {
            let p = spec_parse_c_signed(s);
            if p >= 0 {
                if p > usize::MAX {
                    usize::MAX
                } else {
                    p as usize
                }
            } else {
                DEFAULT_MAX_CLIENTS
            }
        },
    }
}

/// The modes that the legacy `collector_mode` option selects.
pub open spec fn legacy_modes(v: Option<Seq<char>>) -> (RateCollectorMode, ConnectionCollectorMode) {
    match v {
        Some(s) => if s == "bpf"@ {
            (RateCollectorMode::Bpf, ConnectionCollectorMode::Auto)
        } else if s == "conntrack_netlink"@ {
            (RateCollectorMode::Auto, ConnectionCollectorMode::ConntrackNetlink)
        } else if s == "conntrack_procfs"@ {
            (RateCollectorMode::Auto, ConnectionCollectorMode::ConntrackProcfs)
        } else {
            (RateCollectorMode::Auto, ConnectionCollectorMode::Auto)
        },
        None => (RateCollectorMode::Auto, ConnectionCollectorMode::Auto),
    }
}

pub open spec fn rate_mode_setting(legacy: Option<Seq<char>>, v: Option<Seq<char>>) -> RateCollectorMode {
    match v {
        Some(s) => match spec_rate_mode(s) {
            Some(m) => m,
            None => legacy_modes(legacy).0,
        },
        None => legacy_modes(legacy).0,
    }
}

pub open spec fn connection_mode_setting(legacy: Option<Seq<char>>, v: Option<Seq<char>>) -> ConnectionCollectorMode {
    match v {
        Some(s) => match spec_connection_mode(s) {
            Some(m) => m,
            None => legacy_modes(legacy).1,
        },
        None => legacy_modes(legacy).1,
    }
}

pub open spec fn bool_setting(v: Option<Seq<char>>, default: bool) -> bool {
    match v {
        Some(s) => spec_legacy_bool(s),
        None => default,
    }
}

/// The collect lists under way and whether `nssifb` was refused.
pub struct CollectState {
    pub ifnames: Seq<Seq<char>>,
    pub included: Seq<Seq<char>>,
    pub rejected: bool,
}

/// One configured collect name taken in: `nssifb` is refused outright; a
/// name that is invalid, ineligible or already taken is skipped, as is any
/// name once the limit is reached.
pub open spec fn collect_step(st: CollectState, to_ifnames: bool, value: Seq<char>, eligible: Seq<Seq<char>>) -> CollectState {
    if value == "nssifb"@ {
        CollectState { ifnames: st.ifnames, included: st.included, rejected: true }
    } else if !spec_valid_interface_name(value) || !spec_legacy_eligible(value) || !eligible.contains(
        value,
    ) || st.ifnames.contains(value) || st.included.contains(value) || st.ifnames.len()
        + st.included.len() == MAX_INTERFACE_NAMES {
        st
    } else if to_ifnames {
        CollectState { ifnames: st.ifnames.push(value), included: st.included, rejected: st.rejected }
    } else {
        CollectState { ifnames: st.ifnames, included: st.included.push(value), rejected: st.rejected }
    }
}

pub open spec fn collect_fold(st: CollectState, values: Seq<Seq<char>>, to_ifnames: bool, eligible: Seq<Seq<char>>) -> CollectState
    decreases values.len(),
{
    if values.len() == 0 {
        st
    } else {
        collect_step(
            collect_fold(st, values.drop_last(), to_ifnames, eligible),
            to_ifnames,
            values.last(),
            eligible,
        )
    }
}

/// The collect lists built from the `ifname` and then the
/// `interface_include` values.
pub open spec fn spec_collect(ifname: Seq<Seq<char>>, included: Seq<Seq<char>>, eligible: Seq<Seq<char>>) -> CollectState {
    collect_fold(
        collect_fold(
            CollectState { ifnames: Seq::empty(), included: Seq::empty(), rejected: false },
            ifname,
            true,
            eligible,
        ),
        included,
        false,
        eligible,
    )
}

/// `values` kept in order when valid and not yet present, up to the limit.
pub open spec fn unique_bounded(acc: Seq<Seq<char>>, values: Seq<Seq<char>>) -> Seq<Seq<char>>
    decreases values.len(),
{
    if values.len() == 0 {
        acc
    } else {
        let prev = unique_bounded(acc, values.drop_last());
        let v = values.last();
        if prev.len() < MAX_INTERFACE_NAMES && spec_valid_interface_name(v) && !prev.contains(v) {
            prev.push(v)
        } else {
            prev
        }
    }
}

/// The observed-only names: those of `values` that are valid, not ignored
/// automatically and not collected, kept as `unique_bounded` keeps them.
pub open spec fn observe_fold(values: Seq<Seq<char>>, st: CollectState) -> Seq<Seq<char>>
    decreases values.len(),
{
    if values.len() == 0 {
        Seq::empty()
    } else {
        let prev = observe_fold(values.drop_last(), st);
        let v = values.last();
        if !spec_valid_interface_name(v) || spec_auto_ignored(v) || st.ifnames.contains(v)
            || st.included.contains(v) {
            prev
        } else if prev.len() < MAX_INTERFACE_NAMES && spec_valid_interface_name(v) && !prev.contains(
            v,
        ) {
            prev.push(v)
        } else {
            prev
        }
    }
}

/// `c` is the configuration that the options `o` give, with `eligible` the
/// names that the eligibility check accepted.
pub open spec fn config_from(c: RuntimeConfig, o: ConfigOptions, eligible: Seq<Seq<char>>) -> bool {
    let st = spec_collect(names_of(o.ifname@), names_of(o.interface_include@), eligible);
    &&& (c.refresh_interval_ms, c.refresh_interval_clamped) == refresh_setting(
        text_of(o.refresh_interval_ms),
    )
    &&& (c.active_client_window_ms, c.active_client_window_clamped) == window_setting(
        text_of(o.active_client_window_ms),
    )
    &&& (c.active_client_min_bps, c.active_client_min_bps_clamped) == min_bps_setting(
        text_of(o.active_client_min_bps),
    )
    &&& (c.overview_window_samples, c.overview_window_samples_clamped) == overview_setting(
        text_of(o.overview_window_samples),
    )
    &&& c.max_clients == max_clients_setting(text_of(o.max_clients))
    &&& c.rate_collector_mode == rate_mode_setting(
        text_of(o.collector_mode),
        text_of(o.rate_collector_mode),
    )
    &&& c.conn_collector_mode == connection_mode_setting(
        text_of(o.collector_mode),
        text_of(o.conn_collector_mode),
    )
    &&& c.enable_bpf == bool_setting(text_of(o.enable_bpf), false)
    &&& c.enable_conntrack_fallback == bool_setting(text_of(o.enable_conntrack_fallback), true)
    &&& names_of(c.ifnames@) == st.ifnames
    &&& names_of(c.interface_include@) == st.included
    &&& c.rejected_nssifb_collect == st.rejected
    &&& names_of(c.interface_exclude@) == unique_bounded(Seq::empty(), names_of(o.interface_exclude@))
    &&& names_of(c.observe_ifnames@) == observe_fold(names_of(o.observe@), st)
}

/// Every setting within its bounds: the refresh interval, active-client
/// window and rate floor at least their minimums, the overview length in
/// range, and each device list at most the limit.
pub open spec fn config_within_bounds(c: RuntimeConfig) -> bool {
    &&& c.refresh_interval_ms >= MIN_REFRESH_INTERVAL_MS
    &&& c.active_client_window_ms >= MIN_ACTIVE_CLIENT_WINDOW_MS
    &&& c.active_client_min_bps >= DEFAULT_ACTIVE_CLIENT_MIN_BPS
    &&& MIN_OVERVIEW_WINDOW_SAMPLES <= c.overview_window_samples <= MAX_OVERVIEW_WINDOW_SAMPLES
    &&& c.ifnames@.len() + c.interface_include@.len() <= MAX_INTERFACE_NAMES
    &&& c.interface_exclude@.len() <= MAX_INTERFACE_NAMES
    &&& c.observe_ifnames@.len() <= MAX_INTERFACE_NAMES
}

proof fn lemma_collect_fold_bound(st: CollectState, values: Seq<Seq<char>>, to_ifnames: bool, eligible: Seq<Seq<char>>)
    requires
        st.ifnames.len() + st.included.len() <= MAX_INTERFACE_NAMES,
    ensures
        collect_fold(st, values, to_ifnames, eligible).ifnames.len() + collect_fold(
            st,
            values,
            to_ifnames,
            eligible,
        ).included.len() <= MAX_INTERFACE_NAMES,
    decreases values.len(),
{
    if values.len() > 0 {
        lemma_collect_fold_bound(st, values.drop_last(), to_ifnames, eligible);
    }
}

proof fn lemma_unique_bounded(acc: Seq<Seq<char>>, values: Seq<Seq<char>>)
    requires
        acc.len() <= MAX_INTERFACE_NAMES,
    ensures
        unique_bounded(acc, values).len() <= MAX_INTERFACE_NAMES,
    decreases values.len(),
{
    if values.len() > 0 {
        lemma_unique_bounded(acc, values.drop_last());
    }
}

proof fn lemma_observe_fold(values: Seq<Seq<char>>, st: CollectState)
    ensures
        observe_fold(values, st).len() <= MAX_INTERFACE_NAMES,
    decreases values.len(),
{
    if values.len() > 0 {
        lemma_observe_fold(values.drop_last(), st);
    }
}

/// The configuration that options give is always within bounds.
pub proof fn config_from_is_within_bounds(c: RuntimeConfig, o: ConfigOptions, eligible: Seq<Seq<char>>)
    requires
        config_from(c, o, eligible),
    ensures
        config_within_bounds(c),
{
    let empty = CollectState { ifnames: Seq::empty(), included: Seq::empty(), rejected: false };
    lemma_collect_fold_bound(empty, names_of(o.ifname@), true, eligible);
    lemma_collect_fold_bound(
        collect_fold(empty, names_of(o.ifname@), true, eligible),
        names_of(o.interface_include@),
        false,
        eligible,
    );
    lemma_unique_bounded(Seq::empty(), names_of(o.interface_exclude@));
    lemma_observe_fold(
        names_of(o.observe@),
        spec_collect(names_of(o.ifname@), names_of(o.interface_include@), eligible),
    );
    assert(c.ifnames@.len() == names_of(c.ifnames@).len());
    assert(c.interface_include@.len() == names_of(c.interface_include@).len());
    assert(c.interface_exclude@.len() == names_of(c.interface_exclude@).len());
    assert(c.observe_ifnames@.len() == names_of(c.observe_ifnames@).len());
}

} // verus!

verus! {

fn refresh_from(v: &Option<String>) -> (r: (u32, bool))
    ensures
        r == refresh_setting(text_of(*v)),
{
    match v {
        None => (DEFAULT_REFRESH_INTERVAL_MS, false),
        Some(s) => {
            let p = parse_c_signed(s.as_str());
            if p >= MIN_REFRESH_INTERVAL_MS as i128 {
                (if p > 0xffff_ffffi128 {
                    0xffff_ffffu32
                } else {
                    p as u32
                }, false)
            } else if p > 0 {
                (MIN_REFRESH_INTERVAL_MS, true)
            } else {
                (DEFAULT_REFRESH_INTERVAL_MS, false)
            }
        },
    }
}

fn window_from(v: &Option<String>) -> (r: (u64, bool))
    ensures
        r == window_setting(text_of(*v)),
{
    match v {
        None => (DEFAULT_ACTIVE_CLIENT_WINDOW_MS, false),
        Some(s) => {
            let p = parse_c_unsigned(s.as_str());
            if p >= MIN_ACTIVE_CLIENT_WINDOW_MS {
                (p, false)
            } else if p > 0 {
                (MIN_ACTIVE_CLIENT_WINDOW_MS, true)
            } else {
                (DEFAULT_ACTIVE_CLIENT_WINDOW_MS, false)
            }
        },
    }
}

fn min_bps_from(v: &Option<String>) -> (r: (u64, bool))
    ensures
        r == min_bps_setting(text_of(*v)),
{
    match v {
        None => (DEFAULT_ACTIVE_CLIENT_MIN_BPS, false),
        Some(s) => {
            let p = parse_c_unsigned(s.as_str());
            if p >= DEFAULT_ACTIVE_CLIENT_MIN_BPS {
                (p, false)
            } else {
                (DEFAULT_ACTIVE_CLIENT_MIN_BPS, true)
            }
        },
    }
}

fn overview_from(v: &Option<String>) -> (r: (usize, bool))
    ensures
        r == overview_setting(text_of(*v)),
{
    match v {
        None => (DEFAULT_OVERVIEW_WINDOW_SAMPLES, false),
        Some(s) => {
            let p = parse_c_signed(s.as_str());
            if MIN_OVERVIEW_WINDOW_SAMPLES as i128 <= p && p <= MAX_OVERVIEW_WINDOW_SAMPLES as i128 {
                (p as usize, false)
            } else if p > 0 {
                (if p < MIN_OVERVIEW_WINDOW_SAMPLES as i128 {
                    MIN_OVERVIEW_WINDOW_SAMPLES
                } else {
                    MAX_OVERVIEW_WINDOW_SAMPLES
                }, true)
            } else {
                (DEFAULT_OVERVIEW_WINDOW_SAMPLES, false)
            }
        },
    }
}

fn max_clients_from(v: &Option<String>) -> (r: usize)
    ensures
        r == max_clients_setting(text_of(*v)),
{
    match v {
        None => DEFAULT_MAX_CLIENTS,
        Some(s) => {
            let p = parse_c_signed(s.as_str());
            if p >= 0 {
                if p > usize::MAX as i128 {
                    usize::MAX
                } else {
                    p as usize
                }
            } else {
                DEFAULT_MAX_CLIENTS
            }
        },
    }
}

fn modes_from(legacy: &Option<String>, rate: &Option<String>, conn: &Option<String>) -> (r: (
    RateCollectorMode,
    ConnectionCollectorMode,
))
    ensures
        r.0 == rate_mode_setting(text_of(*legacy), text_of(*rate)),
        r.1 == connection_mode_setting(text_of(*legacy), text_of(*conn)),
{
    let mut rate_mode = RateCollectorMode::Auto;
    let mut conn_mode = ConnectionCollectorMode::Auto;
    match legacy {
        Some(s) => {
            if str_eq(s.as_str(), "bpf") {
                rate_mode = RateCollectorMode::Bpf;
            } else if str_eq(s.as_str(), "conntrack_netlink") {
                conn_mode = ConnectionCollectorMode::ConntrackNetlink;
            } else if str_eq(s.as_str(), "conntrack_procfs") {
                conn_mode = ConnectionCollectorMode::ConntrackProcfs;
            }
        },
        None => {},
    }
    match rate {
        Some(s) => match RateCollectorMode::parse(s.as_str()) {
            Some(m) => {
                rate_mode = m;
            },
            None => {},
        },
        None => {},
    }
    match conn {
        Some(s) => match ConnectionCollectorMode::parse(s.as_str()) {
            Some(m) => {
                conn_mode = m;
            },
            None => {},
        },
        None => {},
    }
    (rate_mode, conn_mode)
}

fn bool_from(v: &Option<String>, default: bool) -> (r: bool)
    ensures
        r == bool_setting(text_of(*v), default),
{
    match v {
        Some(s) => legacy_bool(s.as_str()),
        None => default,
    }
}

/// Takes the collect names of `values` into the lists.
fn collect_into(
    ifnames: &mut Vec<String>,
    included: &mut Vec<String>,
    rejected: &mut bool,
    values: &Vec<String>,
    to_ifnames: bool,
    eligible: &Vec<String>,
)
    requires
        old(ifnames)@.len() + old(included)@.len() <= MAX_INTERFACE_NAMES,
    ensures
        ({
            let st = collect_fold(
                CollectState {
                    ifnames: names_of(old(ifnames)@),
                    included: names_of(old(included)@),
                    rejected: *old(rejected),
                },
                names_of(values@),
                to_ifnames,
                names_of(eligible@),
            );
            &&& names_of(final(ifnames)@) == st.ifnames
            &&& names_of(final(included)@) == st.included
            &&& *final(rejected) == st.rejected
        }),
        final(ifnames)@.len() + final(included)@.len() <= MAX_INTERFACE_NAMES,
{
    let ghost st0 = CollectState {
        ifnames: names_of(ifnames@),
        included: names_of(included@),
        rejected: *rejected,
    };
    let ghost vs = names_of(values@);
    let ghost el = names_of(eligible@);
    let mut i: usize = 0;
    while i < values.len()
        invariant
            i <= values@.len(),
            vs == names_of(values@),
            el == names_of(eligible@),
            ifnames@.len() + included@.len() <= MAX_INTERFACE_NAMES,
            ({
                let st = collect_fold(st0, vs.take(i as int), to_ifnames, el);
                &&& names_of(ifnames@) == st.ifnames
                &&& names_of(included@) == st.included
                &&& *rejected == st.rejected
            }),
        decreases values@.len() - i,
    {
        let value = &values[i];
        assert(vs[i as int] == value@);
        assert(vs.take(i + 1).drop_last() =~= vs.take(i as int));
        if str_eq(value.as_str(), "nssifb") {
            *rejected = true;
        } else if !is_valid_interface_name(value.as_str()) || !LegacyNameEligibility.eligible(
            value.as_str(),
        ) || !contains_name(eligible, value) || contains_name(ifnames, value) || contains_name(
            included,
            value,
        ) || ifnames.len() + included.len() == MAX_INTERFACE_NAMES {
        } else if to_ifnames {
            ifnames.push(value.clone());
        } else {
            included.push(value.clone());
        }
        proof {
            let prev = collect_fold(st0, vs.take(i as int), to_ifnames, el);
            let next = collect_fold(st0, vs.take(i + 1), to_ifnames, el);
            assert(next == collect_step(prev, to_ifnames, value@, el));
            assert(names_of(ifnames@) =~= next.ifnames);
            assert(names_of(included@) =~= next.included);
        }
        i += 1;
    }
    assert(vs.take(i as int) =~= vs);
}

} // verus!

verus! {

/// Appends `value` when it is valid, not yet present, and the list is below
/// the limit.
pub fn push_unique_bounded(target: &mut Vec<String>, value: String)
    ensures
        names_of(final(target)@) == (if old(target)@.len() < MAX_INTERFACE_NAMES
            && spec_valid_interface_name(value@) && !names_of(old(target)@).contains(value@) {
            names_of(old(target)@).push(value@)
        } else {
            names_of(old(target)@)
        }),
{
    if target.len() < MAX_INTERFACE_NAMES && is_valid_interface_name(value.as_str())
        && !contains_name(target, &value) {
        let ghost before = names_of(target@);
        target.push(value);
        assert(names_of(target@) =~= before.push(value@));
    }
}

impl RuntimeConfig {
    /// The configuration that a set of options gives, with `eligible` the
    /// collect names that the eligibility check accepted.
    pub fn from_options(options: &ConfigOptions, eligible: &Vec<String>) -> (r: Self)
        ensures
            config_from(r, *options, names_of(eligible@)),
            config_within_bounds(r),
    {
        let (refresh_interval_ms, refresh_interval_clamped) = refresh_from(
            &options.refresh_interval_ms,
        );
        let (active_client_window_ms, active_client_window_clamped) = window_from(
            &options.active_client_window_ms,
        );
        let (active_client_min_bps, active_client_min_bps_clamped) = min_bps_from(
            &options.active_client_min_bps,
        );
        let (overview_window_samples, overview_window_samples_clamped) = overview_from(
            &options.overview_window_samples,
        );
        let max_clients = max_clients_from(&options.max_clients);
        let (rate_collector_mode, conn_collector_mode) = modes_from(
            &options.collector_mode,
            &options.rate_collector_mode,
            &options.conn_collector_mode,
        );
        let enable_bpf = bool_from(&options.enable_bpf, false);
        let enable_conntrack_fallback = bool_from(&options.enable_conntrack_fallback, true);
        let mut ifnames: Vec<String> = Vec::new();
        let mut included: Vec<String> = Vec::new();
        let mut rejected = false;
        let ghost empty = CollectState { ifnames: Seq::empty(), included: Seq::empty(), rejected: false };
        assert(names_of(ifnames@) =~= Seq::<Seq<char>>::empty());
        assert(names_of(included@) =~= Seq::<Seq<char>>::empty());
        collect_into(&mut ifnames, &mut included, &mut rejected, &options.ifname, true, eligible);
        let ghost middle = collect_fold(empty, names_of(options.ifname@), true, names_of(eligible@));
        collect_into(
            &mut ifnames,
            &mut included,
            &mut rejected,
            &options.interface_include,
            false,
            eligible,
        );
        let ghost st = spec_collect(
            names_of(options.ifname@),
            names_of(options.interface_include@),
            names_of(eligible@),
        );
        let mut interface_exclude: Vec<String> = Vec::new();
        let mut i: usize = 0;
        let ghost ex = names_of(options.interface_exclude@);
        assert(names_of(interface_exclude@) =~= unique_bounded(Seq::empty(), ex.take(0)));
        while i < options.interface_exclude.len()
            invariant
                i <= options.interface_exclude@.len(),
                ex == names_of(options.interface_exclude@),
                names_of(interface_exclude@) == unique_bounded(Seq::empty(), ex.take(i as int)),
            decreases options.interface_exclude@.len() - i,
        {
            assert(ex.take(i + 1).drop_last() =~= ex.take(i as int));
            assert(ex[i as int] == options.interface_exclude[i as int]@);
            push_unique_bounded(&mut interface_exclude, options.interface_exclude[i].clone());
            i += 1;
        }
        assert(ex.take(i as int) =~= ex);
        let mut observe_ifnames: Vec<String> = Vec::new();
        let mut k: usize = 0;
        let ghost ob = names_of(options.observe@);
        assert(names_of(observe_ifnames@) =~= observe_fold(ob.take(0), st));
        while k < options.observe.len()
            invariant
                k <= options.observe@.len(),
                ob == names_of(options.observe@),
                names_of(ifnames@) == st.ifnames,
                names_of(included@) == st.included,
                names_of(observe_ifnames@) == observe_fold(ob.take(k as int), st),
            decreases options.observe@.len() - k,
        {
            let value = &options.observe[k];
            assert(ob.take(k + 1).drop_last() =~= ob.take(k as int));
            assert(ob[k as int] == value@);
            if is_valid_interface_name(value.as_str()) && !is_auto_ignored_interface(value.as_str())
                && !contains_name(&ifnames, value) && !contains_name(&included, value) {
                push_unique_bounded(&mut observe_ifnames, value.clone());
            }
            k += 1;
        }
        assert(ob.take(k as int) =~= ob);
        let r = RuntimeConfig {
            refresh_interval_ms,
            max_clients,
            active_client_window_ms,
            active_client_min_bps,
            overview_window_samples,
            enable_bpf,
            enable_conntrack_fallback,
            refresh_interval_clamped,
            active_client_window_clamped,
            active_client_min_bps_clamped,
            overview_window_samples_clamped,
            rate_collector_mode,
            conn_collector_mode,
            ifnames,
            interface_include: included,
            interface_exclude,
            observe_ifnames,
            rejected_nssifb_collect: rejected,
        };
        proof {
            config_from_is_within_bounds(r, *options, names_of(eligible@));
        }
        r
    }
}

} // verus!

verus! {

/// The full path of an option.
pub fn option_path(option: &str) -> (r: String)
    ensures
        r@ == CONFIG_PREFIX@ + option@,
{
    let mut r = CONFIG_PREFIX.to_owned();
    r.append(option);
    r
}

/// What a single-valued option reads as, given the source's answer for it:
/// its text, nothing where it is unset, an error where it holds a list, and
/// the source's own error as it came.
pub fn scalar_value(answer: Result<Option<ConfigValue>, ConfigError>, option: &str) -> (r: Result<
    Option<String>,
    ConfigError,
>)
    ensures
        match answer {
            Ok(Some(ConfigValue::Text(v))) => r matches Ok(Some(x)) && x == v,
            Ok(Some(ConfigValue::List(_))) => r matches Err(ConfigError::WrongType { option: o, expected: t })
                && o@ == option@ && t@ == "a string"@,
            Ok(None) => r matches Ok(None),
            Err(e) => r matches Err(x) && x == e,
        },
{
    match answer {
        Ok(Some(ConfigValue::Text(value))) => Ok(Some(value)),
        Ok(Some(ConfigValue::List(_))) => Err(
            ConfigError::WrongType { option: option.to_owned(), expected: "a string" },
        ),
        Ok(None) => Ok(None),
        Err(e) => Err(e),
    }
}

/// What a list option reads as, given the source's answer for it: its
/// values, a single value as a list of one, an empty list where it is
/// unset, and the source's own error as it came.
pub fn list_value(answer: Result<Option<ConfigValue>, ConfigError>) -> (r: Result<Vec<String>, ConfigError>)
    ensures
        match answer {
            Ok(Some(ConfigValue::Text(v))) => r matches Ok(x) && x@ == seq![v],
            Ok(Some(ConfigValue::List(vs))) => r matches Ok(x) && x == vs,
            Ok(None) => r matches Ok(x) && x@.len() == 0,
            Err(e) => r matches Err(x) && x == e,
        },
{
    match answer {
        Ok(Some(ConfigValue::Text(value))) => {
            let mut v: Vec<String> = Vec::new();
            v.push(value);
            Ok(v)
        },
        Ok(Some(ConfigValue::List(values))) => Ok(values),
        Ok(None) => Ok(Vec::new()),
        Err(e) => Err(e),
    }
}

/// How many options a configuration reads, and how many of them hold a
/// single value; the rest are lists.
pub const CONFIG_OPTION_COUNT: usize = 14;

pub const SCALAR_OPTION_COUNT: usize = 10;

/// The options in the order they are read: the single-valued ones, then the
/// lists.
pub open spec fn config_key(i: int) -> Seq<char> {
    if i == 0 {
        "refresh_interval_ms"@
    } else if i == 1 {
        "active_client_window_ms"@
    } else if i == 2 {
        "active_client_min_bps"@
    } else if i == 3 {
        "overview_window_samples"@
    } else if i == 4 {
        "max_clients"@
    } else if i == 5 {
        "collector_mode"@
    } else if i == 6 {
        "rate_collector_mode"@
    } else if i == 7 {
        "conn_collector_mode"@
    } else if i == 8 {
        "enable_bpf"@
    } else if i == 9 {
        "enable_conntrack_fallback"@
    } else if i == 10 {
        "ifname"@
    } else if i == 11 {
        "interface_include"@
    } else if i == 12 {
        "interface_exclude"@
    } else {
        "observe"@
    }
}

/// The name of the option read in place `i`.
pub fn option_key(i: usize) -> (r: &'static str)
    requires
        i < CONFIG_OPTION_COUNT,
    ensures
        r@ == config_key(i as int),
{
    if i == 0 {
        "refresh_interval_ms"
    } else if i == 1 {
        "active_client_window_ms"
    } else if i == 2 {
        "active_client_min_bps"
    } else if i == 3 {
        "overview_window_samples"
    } else if i == 4 {
        "max_clients"
    } else if i == 5 {
        "collector_mode"
    } else if i == 6 {
        "rate_collector_mode"
    } else if i == 7 {
        "conn_collector_mode"
    } else if i == 8 {
        "enable_bpf"
    } else if i == 9 {
        "enable_conntrack_fallback"
    } else if i == 10 {
        "ifname"
    } else if i == 11 {
        "interface_include"
    } else if i == 12 {
        "interface_exclude"
    } else {
        "observe"
    }
}

/// Every option's name, in the order they are read.
pub fn config_option_keys() -> (k: Vec<&'static str>)
    ensures
        k@.len() == CONFIG_OPTION_COUNT,
        forall|i: int| 0 <= i < CONFIG_OPTION_COUNT ==> #[trigger] k@[i]@ == config_key(i),
{
    let mut k: Vec<&'static str> = Vec::new();
    let mut i: usize = 0;
    while i < CONFIG_OPTION_COUNT
        invariant
            i <= CONFIG_OPTION_COUNT,
            k@.len() == i,
            forall|j: int| 0 <= j < i ==> #[trigger] k@[j]@ == config_key(j),
        decreases CONFIG_OPTION_COUNT - i,
    {
        k.push(option_key(i));
        i += 1;
    }
    k
}

/// An answer at place `i` that stops the load: an error of the source, or
/// a list where a single value belongs.
pub open spec fn answer_fails(i: int, a: Result<Option<ConfigValue>, ConfigError>) -> bool {
    ||| a is Err
    ||| (i < SCALAR_OPTION_COUNT && a matches Ok(Some(ConfigValue::List(_))))
}

/// `e` is the error with which the answer at place `i` stops the load.
pub open spec fn answer_failure(i: int, a: Result<Option<ConfigValue>, ConfigError>, e: ConfigError) -> bool {
    match a {
        Err(x) => e == x,
        Ok(Some(ConfigValue::List(_))) => i < SCALAR_OPTION_COUNT && (e matches ConfigError::WrongType {
            option,
            expected,
        } && option@ == config_key(i) && expected@ == "a string"@),
        _ => false,
    }
}

/// The place of the first answer among the first `n` that stops the load,
/// or `n` where none does.
pub open spec fn first_failing(a: Seq<Result<Option<ConfigValue>, ConfigError>>, n: nat) -> nat
    decreases n,
{
    if n == 0 {
        0
    } else {
        let p = first_failing(a, (n - 1) as nat);
        if p < n - 1 {
            p
        } else if answer_fails(n - 1, a[n - 1]) {
            (n - 1) as nat
        } else {
            n
        }
    }
}

proof fn lemma_first_failing_stays(a: Seq<Result<Option<ConfigValue>, ConfigError>>, n: nat, m: nat)
    requires
        first_failing(a, n) < n,
        n <= m,
    ensures
        first_failing(a, m) == first_failing(a, n),
    decreases m - n,
{
    if m > n {
        lemma_first_failing_stays(a, n, (m - 1) as nat);
    }
}

proof fn lemma_first_failing_le(a: Seq<Result<Option<ConfigValue>, ConfigError>>, n: nat)
    ensures
        first_failing(a, n) <= n,
        first_failing(a, n) < n ==> answer_fails(first_failing(a, n) as int, a[first_failing(a, n) as int]),
    decreases n,
{
    if n > 0 {
        lemma_first_failing_le(a, (n - 1) as nat);
    }
}

/// The single value an answer gives.
pub open spec fn scalar_answer(a: Result<Option<ConfigValue>, ConfigError>) -> Option<Seq<char>> {
    match a {
        Ok(Some(ConfigValue::Text(v))) => Some(v@),
        _ => None,
    }
}

/// The values a list answer gives: a single value as a list of one.
pub open spec fn list_answer(a: Result<Option<ConfigValue>, ConfigError>) -> Seq<Seq<char>> {
    match a {
        Ok(Some(ConfigValue::Text(v))) => seq![v@],
        Ok(Some(ConfigValue::List(vs))) => names_of(vs@),
        _ => Seq::empty(),
    }
}

/// `o` holds what the answers, in key order, give.
pub open spec fn options_answered(o: ConfigOptions, a: Seq<Result<Option<ConfigValue>, ConfigError>>) -> bool {
    &&& text_of(o.refresh_interval_ms) == scalar_answer(a[0])
    &&& text_of(o.active_client_window_ms) == scalar_answer(a[1])
    &&& text_of(o.active_client_min_bps) == scalar_answer(a[2])
    &&& text_of(o.overview_window_samples) == scalar_answer(a[3])
    &&& text_of(o.max_clients) == scalar_answer(a[4])
    &&& text_of(o.collector_mode) == scalar_answer(a[5])
    &&& text_of(o.rate_collector_mode) == scalar_answer(a[6])
    &&& text_of(o.conn_collector_mode) == scalar_answer(a[7])
    &&& text_of(o.enable_bpf) == scalar_answer(a[8])
    &&& text_of(o.enable_conntrack_fallback) == scalar_answer(a[9])
    &&& names_of(o.ifname@) == list_answer(a[10])
    &&& names_of(o.interface_include@) == list_answer(a[11])
    &&& names_of(o.interface_exclude@) == list_answer(a[12])
    &&& names_of(o.observe@) == list_answer(a[13])
}

/// What a load gives from the source's answers, in key order, and the
/// collect names the eligibility check accepted: the first answer that
/// stops the load decides its error; without one, the configuration those
/// answers give.
pub open spec fn config_answered(
    r: Result<RuntimeConfig, ConfigError>,
    a: Seq<Result<Option<ConfigValue>, ConfigError>>,
    eligible: Seq<Seq<char>>,
) -> bool {
    let j = first_failing(a, CONFIG_OPTION_COUNT as nat);
    if j < CONFIG_OPTION_COUNT {
        r matches Err(e) && answer_failure(j as int, a[j as int], e)
    } else {
        r matches Ok(c) && exists|o: ConfigOptions| options_answered(o, a) && #[trigger] config_from(c, o, eligible)
    }
}

/// The answer itself where it does not stop the load, else the error it
/// stops the load with.
fn checked_answer(i: usize, answer: Result<Option<ConfigValue>, ConfigError>) -> (r: Result<
    Result<Option<ConfigValue>, ConfigError>,
    ConfigError,
>)
    requires
        i < CONFIG_OPTION_COUNT,
    ensures
        answer_fails(i as int, answer) ==> (r matches Err(e) && answer_failure(i as int, answer, e)),
        !answer_fails(i as int, answer) ==> (r matches Ok(x) && x == answer),
{
    match answer {
        Err(e) => Err(e),
        Ok(Some(ConfigValue::List(values))) => {
            if i < SCALAR_OPTION_COUNT {
                Err(ConfigError::WrongType { option: option_key(i).to_owned(), expected: "a string" })
            } else {
                Ok(Ok(Some(ConfigValue::List(values))))
            }
        },
        other => Ok(other),
    }
}

/// The values a list answer gives, copied.
fn answer_names(a: &Result<Option<ConfigValue>, ConfigError>) -> (r: Vec<String>)
    ensures
        names_of(r@) == list_answer(*a),
{
    match a {
        Ok(Some(ConfigValue::Text(v))) => {
            let mut r: Vec<String> = Vec::new();
            r.push(v.clone());
            assert(names_of(r@) =~= seq![v@]);
            r
        },
        Ok(Some(ConfigValue::List(vs))) => {
            let mut r: Vec<String> = Vec::new();
            let mut i: usize = 0;
            while i < vs.len()
                invariant
                    i <= vs@.len(),
                    names_of(r@) == names_of(vs@).take(i as int),
                decreases vs@.len() - i,
            {
                let c = vs[i].clone();
                assert(c@ == names_of(vs@)[i as int]);
                let ghost before = r@;
                r.push(c);
                assert(names_of(r@) =~= names_of(before).push(c@));
                assert(names_of(vs@).take(i + 1) =~= names_of(vs@).take(i as int).push(names_of(vs@)[i as int]));
                i += 1;
            }
            assert(names_of(vs@).take(i as int) =~= names_of(vs@));
            r
        },
        _ => {
            let r: Vec<String> = Vec::new();
            assert(names_of(r@) =~= Seq::<Seq<char>>::empty());
            r
        },
    }
}

/// A collect name the eligibility check is asked about: not the
/// accelerator's own IFB device, a valid device name, and eligible by name.
pub open spec fn eligibility_asked(name: Seq<char>) -> bool {
    name != "nssifb"@ && spec_valid_interface_name(name) && spec_legacy_eligible(name)
}

impl RuntimeConfig {
    /// The configuration the source's answers give, in the order of
    /// `config_option_keys`, with `eligible` the collect names the
    /// eligibility check accepted: the first answer that is an error, or a
    /// list where one value belongs, stops it with that error.
    pub fn from_answers(answers: Vec<Result<Option<ConfigValue>, ConfigError>>, eligible: &Vec<String>) -> (r:
        Result<Self, ConfigError>)
        requires
            answers@.len() == CONFIG_OPTION_COUNT,
        ensures
            config_answered(r, answers@, names_of(eligible@)),
            r matches Ok(c) ==> config_within_bounds(c),
    {
        let ghost all = answers@;
        let mut rest = answers;
        let mut scalars: Vec<Option<String>> = Vec::new();
        let mut lists: Vec<Vec<String>> = Vec::new();
        let mut i: usize = 0;
        while i < CONFIG_OPTION_COUNT
            invariant
                i <= CONFIG_OPTION_COUNT,
                all.len() == CONFIG_OPTION_COUNT,
                all == answers@,
                rest@ == all.skip(i as int),
                first_failing(all, i as nat) == i,
                scalars@.len() == (if i < SCALAR_OPTION_COUNT { i } else { SCALAR_OPTION_COUNT as usize }),
                lists@.len() == (if i < SCALAR_OPTION_COUNT { 0 } else { (i - SCALAR_OPTION_COUNT) as usize }),
                forall|k: int| 0 <= k < scalars@.len() ==> #[trigger] text_of(scalars@[k]) == scalar_answer(all[k]),
                forall|k: int| 0 <= k < lists@.len() ==> #[trigger] names_of(lists@[k]@) == list_answer(all[k + 10]),
            decreases CONFIG_OPTION_COUNT - i,
        {
            assert(rest@[0] == all[i as int]);
            let a = rest.remove(0);
            assert(rest@ =~= all.skip(i + 1));
            match checked_answer(i, a) {
                Err(e) => {
                    assert(answer_fails(i as int, all[i as int]));
                    assert(answer_failure(i as int, all[i as int], e));
                    assert(first_failing(all, (i + 1) as nat) == i);
                    proof {
                        lemma_first_failing_stays(all, (i + 1) as nat, CONFIG_OPTION_COUNT as nat);
                    }
                    assert(first_failing(all, CONFIG_OPTION_COUNT as nat) == i);
                    assert(config_answered(Err::<RuntimeConfig, ConfigError>(e), all, names_of(eligible@)));
                    let r: Result<Self, ConfigError> = Err(e);
                    assert(config_answered(r, all, names_of(eligible@)));
                    return r;
                },
                Ok(ok) => {
                    assert(first_failing(all, (i + 1) as nat) == i + 1);
                    if i < SCALAR_OPTION_COUNT {
                        let v = scalar_value(ok, option_key(i));
                        match v {
                            Ok(x) => {
                                scalars.push(x);
                            },
                            Err(_) => {
                                assert(false);
                                return Err(ConfigError::Source(String::new()));
                            },
                        }
                    } else {
                        let v = list_value(ok);
                        match v {
                            Ok(x) => {
                                proof {
                                    match all[i as int] {
                                        Ok(Some(ConfigValue::Text(t))) => {
                                            assert(names_of(x@) =~= seq![t@]);
                                        },
                                        _ => {},
                                    }
                                }
                                lists.push(x);
                            },
                            Err(_) => {
                                assert(false);
                                return Err(ConfigError::Source(String::new()));
                            },
                        }
                    }
                },
            }
            i += 1;
        }
        let observe = lists.pop().unwrap();
        let interface_exclude = lists.pop().unwrap();
        let interface_include = lists.pop().unwrap();
        let ifname = lists.pop().unwrap();
        let enable_conntrack_fallback = scalars.pop().unwrap();
        let enable_bpf = scalars.pop().unwrap();
        let conn_collector_mode = scalars.pop().unwrap();
        let rate_collector_mode = scalars.pop().unwrap();
        let collector_mode = scalars.pop().unwrap();
        let max_clients = scalars.pop().unwrap();
        let overview_window_samples = scalars.pop().unwrap();
        let active_client_min_bps = scalars.pop().unwrap();
        let active_client_window_ms = scalars.pop().unwrap();
        let refresh_interval_ms = scalars.pop().unwrap();
        let options = ConfigOptions {
            refresh_interval_ms,
            active_client_window_ms,
            active_client_min_bps,
            overview_window_samples,
            max_clients,
            collector_mode,
            rate_collector_mode,
            conn_collector_mode,
            enable_bpf,
            enable_conntrack_fallback,
            ifname,
            interface_include,
            interface_exclude,
            observe,
        };
        let c = RuntimeConfig::from_options(&options, eligible);
        assert(options_answered(options, all));
        assert(config_from(c, options, names_of(eligible@)));
        Ok(c)
    }

    /// Reads every option from `source` in the order of
    /// `config_option_keys`, stopping at the first answer that is an error
    /// or a list where one value belongs; then asks `eligibility` about each
    /// collect name that is valid, eligible by name and not the
    /// accelerator's IFB device, and builds the configuration.
    pub fn load<S: ConfigSource, E: InterfaceEligibility>(source: &mut S, eligibility: &E) -> (r:
        Result<Self, ConfigError>)
        ensures
            exists|a: Seq<Result<Option<ConfigValue>, ConfigError>>, e: Seq<Seq<char>>|
                a.len() == CONFIG_OPTION_COUNT && #[trigger] config_answered(r, a, e) && forall|j: int|
                    0 <= j < e.len() ==> eligibility_asked(#[trigger] e[j]) && (list_answer(a[10])
                        + list_answer(a[11])).contains(e[j]),
            r matches Ok(c) ==> config_within_bounds(c),
    {
        let keys = config_option_keys();
        let mut answers: Vec<Result<Option<ConfigValue>, ConfigError>> = Vec::new();
        let mut i: usize = 0;
        while i < keys.len()
            invariant
                keys@.len() == CONFIG_OPTION_COUNT,
                forall|j: int| 0 <= j < CONFIG_OPTION_COUNT ==> #[trigger] keys@[j]@ == config_key(j),
                i <= keys@.len(),
                answers@.len() == i,
                first_failing(answers@, i as nat) == i,
            decreases keys@.len() - i,
        {
            let path = option_path(keys[i]);
            let answer = source.get(path.as_str());
            let ghost before = answers@;
            match checked_answer(i, answer) {
                Err(e) => {
                    let ghost a = before.push(answer);
                    proof {
                        let full = Seq::new(CONFIG_OPTION_COUNT as nat, |k: int| if k < a.len() { a[k] } else { Ok(None) });
                        assert forall|k: nat| k <= i implies first_failing(full, k) == first_failing(a, k) by {
                            lemma_first_failing_prefix(full, a, k);
                        }
                        assert(first_failing(a, (i + 1) as nat) == i) by {
                            assert(first_failing(a, i as nat) == first_failing(before, i as nat)) by {
                                lemma_first_failing_prefix(a, before, i as nat);
                            }
                        }
                        lemma_first_failing_prefix(full, a, (i + 1) as nat);
                        lemma_first_failing_stays(full, (i + 1) as nat, CONFIG_OPTION_COUNT as nat);
                        assert(full[i as int] == answer);
                        assert(config_answered(Err::<RuntimeConfig, ConfigError>(e), full, Seq::empty()));
                    }
                    return Err(e);
                },
                Ok(a) => {
                    proof {
                        lemma_first_failing_prefix(before.push(a), before, i as nat);
                    }
                    answers.push(a);
                },
            }
            i += 1;
        }
        let ifname = answer_names(&answers[10]);
        let included = answer_names(&answers[11]);
        let ghost listed = list_answer(answers@[10]) + list_answer(answers@[11]);
        let mut eligible: Vec<String> = Vec::new();
        let mut k: usize = 0;
        while k < ifname.len()
            invariant
                k <= ifname@.len(),
                names_of(ifname@) == list_answer(answers@[10]),
                listed == list_answer(answers@[10]) + list_answer(answers@[11]),
                forall|j: int| 0 <= j < eligible@.len() ==> eligibility_asked(#[trigger] eligible@[j]@)
                    && listed.contains(eligible@[j]@),
            decreases ifname@.len() - k,
        {
            proof {
                assert(listed[k as int] == ifname@[k as int]@);
            }
            let name = ifname[k].as_str();
            if !str_eq(name, "nssifb") && is_valid_interface_name(name) && LegacyNameEligibility.eligible(name)
                && eligibility.is_collect_eligible(name) {
                eligible.push(ifname[k].clone());
            }
            k += 1;
        }
        let mut m: usize = 0;
        while m < included.len()
            invariant
                m <= included@.len(),
                names_of(included@) == list_answer(answers@[11]),
                listed == list_answer(answers@[10]) + list_answer(answers@[11]),
                forall|j: int| 0 <= j < eligible@.len() ==> eligibility_asked(#[trigger] eligible@[j]@)
                    && listed.contains(eligible@[j]@),
            decreases included@.len() - m,
        {
            proof {
                assert(listed[list_answer(answers@[10]).len() + m] == included@[m as int]@);
            }
            let name = included[m].as_str();
            if !str_eq(name, "nssifb") && is_valid_interface_name(name) && LegacyNameEligibility.eligible(name)
                && eligibility.is_collect_eligible(name) {
                eligible.push(included[m].clone());
            }
            m += 1;
        }
        let ghost a = answers@;
        let r = RuntimeConfig::from_answers(answers, &eligible);
        assert(config_answered(r, a, names_of(eligible@)));
        assert forall|j: int| 0 <= j < names_of(eligible@).len() implies eligibility_asked(
            #[trigger] names_of(eligible@)[j],
        ) && (list_answer(a[10]) + list_answer(a[11])).contains(names_of(eligible@)[j]) by {
            assert(names_of(eligible@)[j] == eligible@[j]@);
        }
        r
    }

    /// Replaces the configuration with a freshly loaded one; on error the
    /// configuration is left as it was.
    pub fn reload<S: ConfigSource, E: InterfaceEligibility>(&mut self, source: &mut S, eligibility: &E) -> (r: Result<(), ConfigError>)
        ensures
            r is Err ==> *final(self) == *old(self),
            r is Ok ==> exists|a: Seq<Result<Option<ConfigValue>, ConfigError>>, e: Seq<Seq<char>>|
                a.len() == CONFIG_OPTION_COUNT && #[trigger] config_answered(Ok(*final(self)), a, e)
                    && forall|j: int|
                    0 <= j < e.len() ==> eligibility_asked(#[trigger] e[j]) && (list_answer(a[10])
                        + list_answer(a[11])).contains(e[j]),
            r is Ok ==> config_within_bounds(*final(self)),
            r matches Err(x) ==> exists|a: Seq<Result<Option<ConfigValue>, ConfigError>>, e: Seq<Seq<char>>|
                a.len() == CONFIG_OPTION_COUNT && #[trigger] config_answered(Err(x), a, e) && forall|j: int|
                    0 <= j < e.len() ==> eligibility_asked(#[trigger] e[j]) && (list_answer(a[10])
                        + list_answer(a[11])).contains(e[j]),
    {
        let candidate = RuntimeConfig::load(source, eligibility);
        match candidate {
            Ok(c) => {
                *self = c;
                Ok(())
            },
            Err(e) => Err(e),
        }
    }
}

/// Two configurations hold the same values and the same names.
pub open spec fn same_config(a: RuntimeConfig, b: RuntimeConfig) -> bool {
    &&& a.refresh_interval_ms == b.refresh_interval_ms
    &&& a.max_clients == b.max_clients
    &&& a.active_client_window_ms == b.active_client_window_ms
    &&& a.active_client_min_bps == b.active_client_min_bps
    &&& a.overview_window_samples == b.overview_window_samples
    &&& a.enable_bpf == b.enable_bpf
    &&& a.enable_conntrack_fallback == b.enable_conntrack_fallback
    &&& a.refresh_interval_clamped == b.refresh_interval_clamped
    &&& a.active_client_window_clamped == b.active_client_window_clamped
    &&& a.active_client_min_bps_clamped == b.active_client_min_bps_clamped
    &&& a.overview_window_samples_clamped == b.overview_window_samples_clamped
    &&& a.rate_collector_mode == b.rate_collector_mode
    &&& a.conn_collector_mode == b.conn_collector_mode
    &&& names_of(a.ifnames@) == names_of(b.ifnames@)
    &&& names_of(a.interface_include@) == names_of(b.interface_include@)
    &&& names_of(a.interface_exclude@) == names_of(b.interface_exclude@)
    &&& names_of(a.observe_ifnames@) == names_of(b.observe_ifnames@)
    &&& a.rejected_nssifb_collect == b.rejected_nssifb_collect
}

/// Two errors say the same.
pub open spec fn same_config_error(a: ConfigError, b: ConfigError) -> bool {
    match (a, b) {
        (ConfigError::Source(x), ConfigError::Source(y)) => x@ == y@,
        (
            ConfigError::WrongType { option: o1, expected: e1 },
            ConfigError::WrongType { option: o2, expected: e2 },
        ) => o1@ == o2@ && e1@ == e2@,
        _ => false,
    }
}

/// Two load outcomes say the same.
pub open spec fn same_load_outcome(a: Result<RuntimeConfig, ConfigError>, b: Result<RuntimeConfig, ConfigError>) -> bool {
    match (a, b) {
        (Ok(x), Ok(y)) => same_config(x, y),
        (Err(x), Err(y)) => same_config_error(x, y),
        _ => false,
    }
}

/// The source's answers and the names the eligibility check accepted decide
/// a load's outcome: two outcomes given by the same answers and names are
/// the same. So a reload that succeeds holds what a load with the same
/// answers gives, and one that fails returns the error that load returns.
pub proof fn lemma_answers_decide_the_load(
    r1: Result<RuntimeConfig, ConfigError>,
    r2: Result<RuntimeConfig, ConfigError>,
    a: Seq<Result<Option<ConfigValue>, ConfigError>>,
    e: Seq<Seq<char>>,
)
    requires
        a.len() == CONFIG_OPTION_COUNT,
        config_answered(r1, a, e),
        config_answered(r2, a, e),
    ensures
        same_load_outcome(r1, r2),
{
    let j = first_failing(a, CONFIG_OPTION_COUNT as nat);
    if j < CONFIG_OPTION_COUNT {
        let x = r1->Err_0;
        let y = r2->Err_0;
        match a[j as int] {
            Err(z) => {},
            Ok(Some(ConfigValue::List(_))) => {},
            _ => {},
        }
    } else {
        let c1 = r1->Ok_0;
        let c2 = r2->Ok_0;
        let o1 = choose|o: ConfigOptions| options_answered(o, a) && #[trigger] config_from(c1, o, e);
        let o2 = choose|o: ConfigOptions| options_answered(o, a) && #[trigger] config_from(c2, o, e);
        assert(names_of(o1.ifname@) == names_of(o2.ifname@));
        assert(names_of(o1.interface_include@) == names_of(o2.interface_include@));
        assert(text_of(o1.collector_mode) == text_of(o2.collector_mode));
    }
}

proof fn lemma_first_failing_prefix(
    long: Seq<Result<Option<ConfigValue>, ConfigError>>,
    short: Seq<Result<Option<ConfigValue>, ConfigError>>,
    n: nat,
)
    requires
        n <= short.len(),
        n <= long.len(),
        forall|k: int| 0 <= k < n ==> long[k] == short[k],
    ensures
        first_failing(long, n) == first_failing(short, n),
    decreases n,
{
    if n > 0 {
        lemma_first_failing_prefix(long, short, (n - 1) as nat);
    }
}

} // verus!
