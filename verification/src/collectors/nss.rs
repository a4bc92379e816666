use vstd::prelude::*;
use crate::config::RateCollectorMode;

pub mod direct;

pub use direct::{parse_direct_reader, DirectFlow, DirectSnapshot};

verus! {

#[verifier::external_type_specification]
#[verifier::external_body]
pub struct ExIoError(std::io::Error);

pub const ECM_STATE_DEBUGFS_DIR: &'static str = "/sys/kernel/debug/ecm/ecm_state";

pub const ECM_STATE_DEV_MAJOR_PATH: &'static str = "/sys/kernel/debug/ecm/ecm_state/state_dev_major";

pub const ECM_STATE_OUTPUT_MASK_PATH: &'static str =
    "/sys/kernel/debug/ecm/ecm_state/state_file_output_mask";

pub const ECM_STATE_DEV_PATH: &'static str = "/dev/ecm_state";

pub const ECM_STATE_TMP_DEV_PATH: &'static str = "/dev/lanspeed-ecm-state";

pub const ECM_STATE_LINE_MAX: usize = 1024;

pub const ECM_STATE_DEFAULT_LINE_LIMIT: usize = 131_072;

pub const ECM_STATE_DEFAULT_CONNECTION_LIMIT: usize = 4_096;

pub const ECM_DIRECT_COUNTER_SOURCE: &'static str = "ecm_state_adv_stats_from_to_data_total";

pub const NSS_DIRECT_SOURCE: &'static str = "nss_ecm_direct";

pub const NSS_SYNC_PRIMARY_SOURCE: &'static str = "nss_conntrack_sync";

pub const NSS_SYNC_COLLECTOR_MODE: &'static str = "conntrack_ecm_sync";

pub const ECM_STATE_MAJOR_MAX_BYTES: usize = 32;

pub const ECM_STATE_SERIAL_MAX: usize = 31;

pub const ECM_STATE_FIELD_MAX: usize = 95;

/// Bounds on one read of the ECM state.
#[derive(Clone, Copy, Debug, Eq, PartialEq, Structural)]
pub struct ParseLimits {
    pub max_lines: usize,
    pub max_connections: usize,
}

impl ParseLimits {
    pub fn new(max_lines: usize, max_connections: usize) -> (r: Self)
        ensures
            r == (ParseLimits { max_lines, max_connections }),
    {
        ParseLimits { max_lines, max_connections }
    }
}

impl Default for ParseLimits {
    fn default() -> (r: Self)
        ensures
            r == (ParseLimits {
                max_lines: ECM_STATE_DEFAULT_LINE_LIMIT,
                max_connections: ECM_STATE_DEFAULT_CONNECTION_LIMIT,
            }),
    {
        ParseLimits::new(ECM_STATE_DEFAULT_LINE_LIMIT, ECM_STATE_DEFAULT_CONNECTION_LIMIT)
    }
}

#[derive(Debug)]
pub enum NssParseError {
    Io(std::io::Error),
    LineLimit(usize),
    ConnectionLimit(usize),
}

/// Counts of what a direct read of the ECM state saw.
#[derive(Clone, Copy, Debug, Default, Eq, PartialEq, Structural)]
pub struct DirectStats {
    pub entries_seen: usize,
    pub entries_matched: usize,
    pub skipped_no_arp: usize,
    pub no_lan_flows: usize,
    pub both_lan_flows: usize,
    pub src_lan_flows: usize,
    pub dst_lan_flows: usize,
    pub ipv4_lan_flows: usize,
    pub ipv6_lan_flows: usize,
    pub malformed_lines: usize,
    pub clients_dropped: usize,
    pub current_clients: usize,
}

/// The bytes of `conns.conn.`.
pub open spec fn conn_prefix() -> Seq<u8> {
    seq![99u8, 111u8, 110u8, 110u8, 115u8, 46u8, 99u8, 111u8, 110u8, 110u8, 46u8]
}

/// The first position of byte `b` in `s`, or -1.
pub open spec fn first_byte(s: Seq<u8>, b: u8) -> int
    decreases s.len(),
{
    if s.len() == 0 {
        -1
    } else if s[0] == b {
        0
    } else if first_byte(s.drop_first(), b) < 0 {
        -1
    } else {
        first_byte(s.drop_first(), b) + 1
    }
}

proof fn lemma_first_byte(s: Seq<u8>, b: u8)
    ensures
        -1 <= first_byte(s, b) < s.len(),
        first_byte(s, b) >= 0 ==> s[first_byte(s, b)] == b,
        forall|j: int| 0 <= j < s.len() && (first_byte(s, b) < 0 || j < first_byte(s, b)) ==> s[j] != b,
    decreases s.len(),
{
    if s.len() > 0 && s[0] != b {
        lemma_first_byte(s.drop_first(), b);
        assert forall|j: int| 0 <= j < s.len() && (first_byte(s, b) < 0 || j < first_byte(s, b)) implies s[j]
            != b by {
            if j > 0 {
                assert(s[j] == s.drop_first()[j - 1]);
            }
        }
    }
}

fn find_byte(v: &[u8], lo: usize, hi: usize, b: u8) -> (r: Option<usize>)
    requires
        lo <= hi <= v@.len(),
    ensures
        match r {
            Some(k) => k as int == first_byte(v@.subrange(lo as int, hi as int), b) && k < hi - lo,
            None => first_byte(v@.subrange(lo as int, hi as int), b) == -1,
        },
{
    let ghost s = v@.subrange(lo as int, hi as int);
    proof {
        lemma_first_byte(s, b);
    }
    let mut i = lo;
    while i < hi
        invariant
            lo <= i <= hi <= v@.len(),
            s == v@.subrange(lo as int, hi as int),
            forall|j: int| 0 <= j < i - lo ==> s[j] != b,
            -1 <= first_byte(s, b) < s.len(),
            first_byte(s, b) >= 0 ==> s[first_byte(s, b)] == b,
            forall|j: int| 0 <= j < s.len() && (first_byte(s, b) < 0 || j < first_byte(s, b)) ==> s[j] != b,
        decreases hi - i,
    {
        if v[i] == b {
            assert(s[i - lo] == b);
            return Some(i - lo);
        }
        assert(s[i - lo] != b);
        i += 1;
    }
    None
}

/// `s` without one trailing `x`.
pub open spec fn strip_one(s: Seq<u8>, x: u8) -> Seq<u8> {
    if s.len() > 0 && s.last() == x {
        s.drop_last()
    } else {
        s
    }
}

/// The serial, field and value of one ECM state line
/// `conns.conn.<serial>.<field>=<value>`: the line (one trailing newline,
/// then one trailing carriage return, removed) must be valid UTF-8, and the
/// serial and field must be non-empty and within their byte limits.
pub open spec fn spec_state_line(bytes: Seq<u8>) -> Option<(Seq<u8>, Seq<u8>, Seq<u8>)> {
    let line = strip_one(strip_one(bytes, 10u8), 13u8);
    let eq = first_byte(line, 61u8);
    let key = line.take(eq);
    let value = line.skip(eq + 1);
    let p = conn_prefix();
    let tail = key.skip(p.len() as int);
    let dot = first_byte(tail, 46u8);
    let serial = tail.take(dot);
    let field = tail.skip(dot + 1);
    if !vstd::utf8::valid_utf8(bytes) || eq < 0 || !(key.len() >= p.len() && key.take(
        p.len() as int,
    ) == p) || dot < 0 {
        None
    } else if serial.len() == 0 || serial.len() > ECM_STATE_SERIAL_MAX || field.len() == 0
        || field.len() > ECM_STATE_FIELD_MAX {
        None
    } else {
        Some((serial, field, value))
    }
}

fn utf8_valid(bytes: &[u8]) -> (r: bool)
    ensures
        r == vstd::utf8::valid_utf8(bytes@),
{
    crate::identity::hostname::utf8_text(bytes).is_some()
}

/// Splits one ECM state line into its serial, field and value bytes.
pub fn parse_state_line(bytes: &[u8]) -> (r: Option<(Vec<u8>, Vec<u8>, Vec<u8>)>)
    ensures
        match r {
            Some((serial, field, value)) => spec_state_line(bytes@) == Some(
                (serial@, field@, value@),
            ),
            None => spec_state_line(bytes@) is None,
        },
{
    if !utf8_valid(bytes) {
        return None;
    }
    let mut end = bytes.len();
    if end > 0 && bytes[end - 1] == 10u8 {
        end -= 1;
    }
    if end > 0 && bytes[end - 1] == 13u8 {
        end -= 1;
    }
    let ghost line = bytes@.subrange(0, end as int);
    assert(line == strip_one(strip_one(bytes@, 10u8), 13u8));
    let eq = match find_byte(bytes, 0, end, 61u8) {
        Some(k) => k,
        None => return None,
    };
    let ghost key = line.take(eq as int);
    let p: Vec<u8> = vec![99u8, 111u8, 110u8, 110u8, 115u8, 46u8, 99u8, 111u8, 110u8, 110u8, 46u8];
    assert(p@ =~= conn_prefix());
    let key_bytes = copy_bytes(bytes, 0, eq);
    assert(key_bytes@ =~= key);
    if !crate::text::occurs_at_bytes(&key_bytes, &p, 0) {
        assert(!(key.len() >= p@.len() && key.take(p@.len() as int) == p@)) by {
            if key.len() >= p@.len() && key.take(p@.len() as int) == p@ {
                assert(key.subrange(0, p@.len() as int) =~= key.take(p@.len() as int));
            }
        }
        return None;
    }
    assert(key.take(p@.len() as int) =~= key.subrange(0, p@.len() as int));
    let start = p.len();
    let dot = match find_byte(bytes, start, eq, 46u8) {
        Some(k) => k,
        None => {
            assert(key.skip(start as int) =~= bytes@.subrange(start as int, eq as int));
            return None;
        },
    };
    assert(key.skip(start as int) =~= bytes@.subrange(start as int, eq as int));
    let serial = copy_bytes(bytes, start, start + dot);
    let field = copy_bytes(bytes, start + dot + 1, eq);
    let value = copy_bytes(bytes, eq + 1, end);
    assert(serial@ =~= key.skip(start as int).take(dot as int));
    assert(field@ =~= key.skip(start as int).skip(dot + 1));
    assert(value@ =~= line.skip(eq + 1));
    if serial.len() == 0 || serial.len() > ECM_STATE_SERIAL_MAX || field.len() == 0 || field.len()
        > ECM_STATE_FIELD_MAX {
        return None;
    }
    Some((serial, field, value))
}

fn copy_bytes(v: &[u8], lo: usize, hi: usize) -> (r: Vec<u8>)
    requires
        lo <= hi <= v@.len(),
    ensures
        r@ == v@.subrange(lo as int, hi as int),
{
    let mut out: Vec<u8> = Vec::new();
    let mut i = lo;
    while i < hi
        invariant
            lo <= i <= hi <= v@.len(),
            out@ == v@.subrange(lo as int, i as int),
        decreases hi - i,
    {
        out.push(v[i]);
        assert(out@ =~= v@.subrange(lo as int, i + 1));
        i += 1;
    }
    out
}

/// Why opening the ECM state failed.
#[derive(Debug)]
pub struct StateOpenError {
    error: std::io::Error,
    reported_errno: Option<i32>,
    pub primary_errno: Option<i32>,
    pub state_major: u32,
}

impl StateOpenError {
    pub fn new(
        error: std::io::Error,
        reported_errno: Option<i32>,
        primary_errno: Option<i32>,
        state_major: u32,
    ) -> (r: Self)
        ensures
            r.errno_view() == reported_errno,
            r.primary_view() == primary_errno,
            r.major_view() == state_major,
    {
        StateOpenError { error, reported_errno, primary_errno, state_major }
    }

    pub closed spec fn errno_view(&self) -> Option<i32> {
        self.reported_errno
    }

    pub closed spec fn primary_view(&self) -> Option<i32> {
        self.primary_errno
    }

    pub closed spec fn major_view(&self) -> u32 {
        self.state_major
    }

    /// The errno reported for the failure.
    pub fn errno(&self) -> (r: Option<i32>)
        ensures
            r == self.errno_view(),
    {
        self.reported_errno
    }

    /// The underlying I/O error.
    pub fn io_error(&self) -> &std::io::Error {
        &self.error
    }
}

/// Which facts decide whether the conntrack-synchronised reader can run.
#[derive(Clone, Copy, Debug, Eq, PartialEq, Structural)]
pub struct SyncAvailability {
    pub enable_conntrack_fallback: bool,
    pub bpf_full_available: bool,
    pub nf_conntrack_acct: bool,
    pub nss_present: bool,
    pub nss_ecm_active: bool,
    pub nss_ppe_active: bool,
}

/// The synchronised reader needs the fallback enabled, conntrack accounting,
/// and an active accelerator engine.
pub open spec fn spec_sync_available(f: SyncAvailability) -> bool {
    f.enable_conntrack_fallback && f.nf_conntrack_acct && f.nss_present && (f.nss_ecm_active
        || f.nss_ppe_active)
}

pub fn nss_sync_reader_available(facts: SyncAvailability) -> (r: bool)
    ensures
        r == spec_sync_available(facts),
{
    facts.enable_conntrack_fallback && facts.nf_conntrack_acct && facts.nss_present && (
    facts.nss_ecm_active || facts.nss_ppe_active)
}

pub fn nss_sync_warnings(facts: SyncAvailability) -> (r: Vec<&'static str>)
    ensures
        !facts.nf_conntrack_acct ==> r@.len() == 1 && r@[0]@ == "conntrack_acct_disabled"@,
        facts.nf_conntrack_acct && !spec_sync_available(facts) ==> r@.len() == 0,
        facts.nf_conntrack_acct && spec_sync_available(facts) ==> r@.len() == (if facts.bpf_full_available {
            2int
        } else {
            1int
        }) && r@[0]@ == "nss_ecm_sync_cadence"@ && (facts.bpf_full_available ==> r@[1]@
            == "nss_prefers_conntrack_sync"@),
{
    let mut warnings: Vec<&'static str> = Vec::new();
    if !facts.nf_conntrack_acct {
        warnings.push("conntrack_acct_disabled");
        return warnings;
    }
    if !nss_sync_reader_available(facts) {
        return warnings;
    }
    warnings.push("nss_ecm_sync_cadence");
    if facts.bpf_full_available {
        warnings.push("nss_prefers_conntrack_sync");
    }
    warnings
}

/// What decides why the direct ECM reader is not used.
#[derive(Clone, Copy, Debug, Eq, PartialEq, Structural)]
pub struct DirectFallbackInput {
    pub state_readable: bool,
    pub overlay_enabled: bool,
    pub rate_mode: RateCollectorMode,
    pub nss_daed_prefers_bpf: bool,
}

pub open spec fn spec_direct_fallback_reason(input: DirectFallbackInput) -> Seq<char> {
    if input.overlay_enabled {
        ""@
    } else if !input.state_readable {
        "state_unavailable_or_unreadable"@
    } else if input.rate_mode == RateCollectorMode::Bpf {
        "collector_mode_bpf"@
    } else if input.rate_mode == RateCollectorMode::NssConntrackSync {
        "collector_mode_nss_conntrack_sync"@
    } else if input.nss_daed_prefers_bpf {
        "nss_daed_prefers_bpf"@
    } else {
        "not_selected"@
    }
}

pub fn direct_fallback_reason(input: DirectFallbackInput) -> (r: &'static str)
    ensures
        r@ == spec_direct_fallback_reason(input),
{
    if input.overlay_enabled {
        ""
    } else if !input.state_readable {
        "state_unavailable_or_unreadable"
    } else if input.rate_mode == RateCollectorMode::Bpf {
        "collector_mode_bpf"
    } else if input.rate_mode == RateCollectorMode::NssConntrackSync {
        "collector_mode_nss_conntrack_sync"
    } else if input.nss_daed_prefers_bpf {
        "nss_daed_prefers_bpf"
    } else {
        "not_selected"
    }
}

} // verus!
