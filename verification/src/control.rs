use vstd::prelude::*;

pub mod nss_state;
pub mod observe;
use crate::error::{is_reload_error, DaemonError};
use vstd::utf8::encode_utf8;
use crate::identity::{spec_parse_mac, MacAddress};
use crate::keyed::{name_lookup, names_view, Named};
use crate::model::ClientControlSummary;
use crate::text::{
    all_digits, digits_value, is_digit, parse_u64, seq_contains, spec_parse_u64, str_chars,
    string_from_chars,
};

verus! {

pub const X86_MAX_RATE_BPS: u64 = 100_000_000_000;

pub const NSS_MAX_RATE_BPS: u64 = 4_000_000_000;

pub const MIN_RATE_BPS: u64 = 8_000;

pub const MAX_CONTROL_RULES: usize = 64;

pub const MIN_QUEUE_BYTES: u64 = 262_144;

pub const MAX_QUEUE_BYTES: u64 = 16_777_216;

/// The traffic class minor numbers that a control rule may take on the
/// generic build.
pub const GENERIC_FIRST_CLASS_MINOR: u16 = 0x100;

pub const GENERIC_LAST_CLASS_MINOR: u16 = 0xfffe;

/// The traffic class minor numbers that a control rule may take on the
/// accelerated build.
pub const NSS_FIRST_CLASS_MINOR: u16 = 0x7c00;

pub const NSS_LAST_CLASS_MINOR: u16 = 0x7cff;

/// The minor number of the default FIFO class, which no rule may take.
pub const DEFAULT_FIFO_HANDLE_MINOR: u16 = 0x1000;

/// The build the control plane runs on: the generic one, shaping by MAC
/// alone, or the one with the network accelerator, which shapes by address.
#[derive(Clone, Copy, Debug, Eq, PartialEq, Structural)]
pub enum ControlPlatform {
    Generic,
    Nss,
}

impl ControlPlatform {
    /// The largest rate the platform's shaper accepts.
    pub open spec fn hard_max(self) -> u64 {
        match self {
            ControlPlatform::Generic => X86_MAX_RATE_BPS,
            ControlPlatform::Nss => NSS_MAX_RATE_BPS,
        }
    }

    pub open spec fn first_minor(self) -> u16 {
        match self {
            ControlPlatform::Generic => GENERIC_FIRST_CLASS_MINOR,
            ControlPlatform::Nss => NSS_FIRST_CLASS_MINOR,
        }
    }

    pub open spec fn last_minor(self) -> u16 {
        match self {
            ControlPlatform::Generic => GENERIC_LAST_CLASS_MINOR,
            ControlPlatform::Nss => NSS_LAST_CLASS_MINOR,
        }
    }

    /// How many class minor numbers a rule may take.
    pub open spec fn class_span(self) -> u32 {
        (self.last_minor() - self.first_minor() + 1) as u32
    }

    /// Shaping needs a client address as well as its MAC.
    pub open spec fn needs_shaping_address(self) -> bool {
        self == ControlPlatform::Nss
    }

    pub fn hard_max_rate_bps(self) -> (r: u64)
        ensures
            r == self.hard_max(),
    {
        match self {
            ControlPlatform::Generic => X86_MAX_RATE_BPS,
            ControlPlatform::Nss => NSS_MAX_RATE_BPS,
        }
    }

    pub fn first_class_minor(self) -> (r: u16)
        ensures
            r == self.first_minor(),
    {
        match self {
            ControlPlatform::Generic => GENERIC_FIRST_CLASS_MINOR,
            ControlPlatform::Nss => NSS_FIRST_CLASS_MINOR,
        }
    }

    pub fn last_class_minor(self) -> (r: u16)
        ensures
            r == self.last_minor(),
    {
        match self {
            ControlPlatform::Generic => GENERIC_LAST_CLASS_MINOR,
            ControlPlatform::Nss => NSS_LAST_CLASS_MINOR,
        }
    }

    pub fn requires_shaping_address(self) -> (r: bool)
        ensures
            r == self.needs_shaping_address(),
    {
        match self {
            ControlPlatform::Generic => false,
            ControlPlatform::Nss => true,
        }
    }
}

pub const NSS_CPU_UPLOAD: u8 = 1;

pub const NSS_CPU_DOWNLOAD: u8 = 2;

/// A request to set the control of one client.
#[derive(Clone, Debug, Eq, PartialEq)]
pub struct ClientControlRequest {
    pub identity_key: String,
    pub upload_bps: u64,
    pub download_bps: u64,
    pub internet_disabled: bool,
}

/// A request to remove the control of one client.
#[derive(Clone, Debug, Eq, PartialEq)]
pub struct ClientControlDeleteRequest {
    pub identity_key: String,
}

#[derive(Clone, Debug, Eq, PartialEq)]
pub enum ControlCommand {
    Update(ClientControlRequest),
    Delete(ClientControlDeleteRequest),
}

/// The persisted control of one client.
#[derive(Clone, Debug, Eq, PartialEq)]
pub struct ControlRule {
    pub identity_key: String,
    pub mac: MacAddress,
    pub upload_bps: u64,
    pub download_bps: u64,
    pub internet_disabled: bool,
    pub class_minor: u16,
}

/// The last seen state of a controlled client.
#[derive(Clone, Debug, Eq, PartialEq)]
pub struct LiveClient {
    pub identity_key: String,
    /// The LAN-side interface that produced this client sample.
    pub interface: Option<String>,
    /// The client's addresses, as text.
    pub ips: Vec<String>,
    pub ambiguous: bool,
}

/// Which directions of a client's traffic the accelerated path saw and proved.
#[derive(Clone, Copy, Debug, Default, Eq, PartialEq, Structural)]
pub struct NssPathObservation {
    /// Directions backed by a current source-aligned path observation.
    pub valid_directions: u8,
    /// Valid directions that carried Internet traffic in the current window.
    pub active_directions: u8,
    /// Active directions whose traffic is fully assigned to proven paths.
    pub proven_directions: u8,
    /// Active traffic proven on the accelerated path.
    pub nss_directions: u8,
    /// Active traffic proven on the trusted CPU path.
    pub cpu_directions: u8,
}

/// The outcome of applying the control plan.
#[derive(Clone, Debug, Eq, PartialEq)]
pub struct ApplyResult {
    pub state: String,
    pub reason: Option<String>,
    pub shaping_supported: bool,
    pub blocking_supported: bool,
    pub queue_overflow: bool,
    pub queue_drop_counters: Vec<Named<u64>>,
    pub class_counter_baselines: Vec<Named<u64>>,
    pub verified_directions: Vec<Named<u8>>,
    pub nss_verified_directions: Vec<Named<u8>>,
    pub cpu_verified_directions: Vec<Named<u8>>,
    pub verification_failures: Vec<Named<String>>,
}

/// The reply to a control request.
#[derive(Clone, Debug)]
pub struct ControlRpcResponse {
    pub ok: bool,
    pub control: ClientControlSummary,
}

/// No rule applied yet; both kinds of control supported.
pub open spec fn is_ready_result(r: ApplyResult) -> bool {
    &&& r.state@ == "inactive"@
    &&& r.reason is None
    &&& r.shaping_supported
    &&& r.blocking_supported
    &&& !r.queue_overflow
    &&& r.queue_drop_counters@.len() == 0
    &&& r.class_counter_baselines@.len() == 0
    &&& r.verified_directions@.len() == 0
    &&& r.nss_verified_directions@.len() == 0
    &&& r.cpu_verified_directions@.len() == 0
    &&& r.verification_failures@.len() == 0
}

impl ApplyResult {
    /// The result before any plan was applied.
    pub fn ready() -> (r: Self)
        ensures
            is_ready_result(r),
    {
        ApplyResult {
            state: "inactive".to_owned(),
            reason: None,
            shaping_supported: true,
            blocking_supported: true,
            queue_overflow: false,
            queue_drop_counters: Vec::new(),
            class_counter_baselines: Vec::new(),
            verified_directions: Vec::new(),
            nss_verified_directions: Vec::new(),
            cpu_verified_directions: Vec::new(),
            verification_failures: Vec::new(),
        }
    }
}

/// The largest rate that a client may be given on `platform`.
pub fn max_rate_bps(platform: ControlPlatform) -> (r: u64)
    ensures
        r == platform.hard_max(),
{
    platform.hard_max_rate_bps()
}

/// Half a second of traffic at `rate_bps`, kept within the queue bounds.
pub open spec fn spec_queue_bytes(rate_bps: u64) -> u64 {
    let half_second = rate_bps / 16;
    if half_second < MIN_QUEUE_BYTES {
        MIN_QUEUE_BYTES
    } else if half_second > MAX_QUEUE_BYTES {
        MAX_QUEUE_BYTES
    } else {
        half_second
    }
}

pub fn queue_bytes(rate_bps: u64) -> (r: u64)
    ensures
        r == spec_queue_bytes(rate_bps),
        MIN_QUEUE_BYTES <= r <= MAX_QUEUE_BYTES,
{
    let half_second = rate_bps / 16;
    if half_second < MIN_QUEUE_BYTES {
        MIN_QUEUE_BYTES
    } else if half_second > MAX_QUEUE_BYTES {
        MAX_QUEUE_BYTES
    } else {
        half_second
    }
}

/// Why a rate is refused, against a given maximum; `None` when it is valid.
pub open spec fn rate_error(rate: int, maximum: int) -> Option<Seq<char>> {
    if rate != 0 && rate < MIN_RATE_BPS {
        Some("rate_below_minimum"@)
    } else if rate % 8 != 0 {
        Some("invalid_rate_resolution"@)
    } else if rate > maximum {
        Some("rate_above_platform_maximum"@)
    } else {
        None
    }
}

fn check_rate(rate: u64, maximum: u64) -> (r: Result<(), DaemonError>)
    ensures
        match r {
            Ok(()) => rate_error(rate as int, maximum as int) is None,
            Err(e) => rate_error(rate as int, maximum as int) matches Some(m) && is_reload_error(
                e,
                m,
            ),
        },
{
    if rate != 0 && rate < MIN_RATE_BPS {
        return Err(DaemonError::reload("rate_below_minimum"));
    }
    if rate % 8 != 0 {
        return Err(DaemonError::reload("invalid_rate_resolution"));
    }
    if rate > maximum {
        return Err(DaemonError::reload("rate_above_platform_maximum"));
    }
    Ok(())
}

/// A requested rate: zero, or a multiple of eight from the minimum up to the
/// platform's maximum.
pub fn validate_rate(rate: u64, platform: ControlPlatform) -> (r: Result<(), DaemonError>)
    ensures
        match r {
            Ok(()) => rate_error(rate as int, platform.hard_max() as int) is None,
            Err(e) => rate_error(rate as int, platform.hard_max() as int) matches Some(m)
                && is_reload_error(e, m),
        },
{
    check_rate(rate, max_rate_bps(platform))
}

/// A rate read back from storage, held to the platform's hard maximum.
pub fn validate_persisted_rate(rate: u64, platform: ControlPlatform) -> (r: Result<(), DaemonError>)
    ensures
        match r {
            Ok(()) => rate_error(rate as int, platform.hard_max() as int) is None,
            Err(e) => rate_error(rate as int, platform.hard_max() as int) matches Some(m)
                && is_reload_error(e, m),
        },
{
    check_rate(rate, platform.hard_max_rate_bps())
}

/// What a rate option reads as: its decimal value, or the reason it is refused.
pub open spec fn spec_parse_rate(value: Option<Seq<char>>, platform: ControlPlatform) -> Result<u64, Seq<char>> {
    match value {
        None => Err("missing_rate"@),
        Some(s) => if s.len() == 0 || !all_digits(s) || digits_value(s) > u64::MAX {
            Err("invalid_rate"@)
        } else {
            match rate_error(digits_value(s), platform.hard_max() as int) {
                Some(m) => Err(m),
                None => Ok(digits_value(s) as u64),
            }
        },
    }
}

/// The text of an optional string option.
pub open spec fn option_text(value: Option<String>) -> Option<Seq<char>> {
    match value {
        Some(s) => Some(s@),
        None => None,
    }
}

pub fn parse_rate(value: Option<String>, platform: ControlPlatform) -> (r: Result<u64, DaemonError>)
    ensures
        match r {
            Ok(rate) => spec_parse_rate(option_text(value), platform) == Ok::<u64, Seq<char>>(rate),
            Err(e) => spec_parse_rate(option_text(value), platform) matches Err(m) && is_reload_error(e, m),
        },
{
    let text = match value {
        Some(v) => v,
        None => return Err(DaemonError::reload("missing_rate")),
    };
    let cs = str_chars(text.as_str());
    assert(option_text(value) == Some(cs@));
    let mut i: usize = 0;
    while i < cs.len()
        invariant
            i <= cs@.len(),
            option_text(value) == Some(cs@),
            forall|j: int| 0 <= j < i ==> is_digit(#[trigger] cs@[j]),
        decreases cs@.len() - i,
    {
        if !(cs[i] >= '0' && cs[i] <= '9') {
            assert(!is_digit(cs@[i as int]));
            return Err(DaemonError::reload("invalid_rate"));
        }
        i += 1;
    }
    if cs.len() == 0 {
        return Err(DaemonError::reload("invalid_rate"));
    }
    assert(all_digits(cs@));
    assert(is_digit(cs@[0]));
    let rate = match parse_u64(&cs, 0, cs.len()) {
        Some(rate) => rate,
        None => {
            assert(cs@.subrange(0, cs@.len() as int) =~= cs@);
            return Err(DaemonError::reload("invalid_rate"));
        },
    };
    assert(cs@.subrange(0, cs@.len() as int) =~= cs@);
    assert(cs@[0] != '+');
    proof {
        crate::text::lemma_digits_nonneg(cs@);
    }
    assert(spec_parse_u64(cs@) == Some(rate));
    match validate_rate(rate, platform) {
        Ok(()) => Ok(rate),
        Err(e) => Err(e),
    }
}

/// What a switch option reads as: `0` off, `1` on.
pub open spec fn spec_parse_switch(value: Option<Seq<char>>) -> Option<bool> {
    match value {
        Some(s) => if s == "0"@ {
            Some(false)
        } else if s == "1"@ {
            Some(true)
        } else {
            None
        },
        None => None,
    }
}

pub fn parse_switch(value: Option<String>) -> (r: Result<bool, DaemonError>)
    ensures
        match r {
            Ok(b) => spec_parse_switch(option_text(value)) == Some(b),
            Err(e) => spec_parse_switch(option_text(value)) is None && is_reload_error(
                e,
                "invalid_switch"@,
            ),
        },
{
    match value {
        Some(v) => {
            if crate::text::str_eq(v.as_str(), "0") {
                Ok(false)
            } else if crate::text::str_eq(v.as_str(), "1") {
                Ok(true)
            } else {
                Err(DaemonError::reload("invalid_switch"))
            }
        },
        None => Err(DaemonError::reload("invalid_switch")),
    }
}

/// A requested rate is no tighter than the one in force: it lifts the limit,
/// or raises one that was set.
pub open spec fn rate_relaxes(previous: u64, requested: u64) -> bool {
    requested == 0 || (previous != 0 && requested >= previous)
}

/// The request does not block what was allowed, nor tighten any rate.
pub open spec fn spec_not_more_restrictive(previous: ControlRule, request: ClientControlRequest) -> bool {
    &&& (!request.internet_disabled || previous.internet_disabled)
    &&& rate_relaxes(previous.upload_bps, request.upload_bps)
    &&& rate_relaxes(previous.download_bps, request.download_bps)
}

pub fn control_update_is_not_more_restrictive(
    previous: &ControlRule,
    request: &ClientControlRequest,
) -> (r: bool)
    ensures
        r == spec_not_more_restrictive(*previous, *request),
{
    let upload = request.upload_bps == 0 || (previous.upload_bps != 0 && request.upload_bps
        >= previous.upload_bps);
    let download = request.download_bps == 0 || (previous.download_bps != 0
        && request.download_bps >= previous.download_bps);
    (!request.internet_disabled || previous.internet_disabled) && upload && download
}

/// A rule that blocks, or (where shaping needs an address) shapes, needs the
/// client's address.
pub open spec fn spec_requires_address(
    platform: ControlPlatform,
    upload_bps: u64,
    download_bps: u64,
    internet_disabled: bool,
) -> bool {
    internet_disabled || (platform.needs_shaping_address() && (upload_bps != 0 || download_bps != 0))
}

pub fn control_requires_address(
    upload_bps: u64,
    download_bps: u64,
    internet_disabled: bool,
    platform: ControlPlatform,
) -> (r: bool)
    ensures
        r == spec_requires_address(platform, upload_bps, download_bps, internet_disabled),
{
    internet_disabled || (platform.requires_shaping_address() && (upload_bps != 0 || download_bps != 0))
}

/// Whether a changed rule needs the client's connections cleared again.
pub open spec fn spec_requires_conntrack_refresh(previous: Option<ControlRule>, next: ControlRule) -> bool {
    match previous {
        None => true,
        Some(p) => p.identity_key@ != next.identity_key@ || p.mac@ != next.mac@ || p.class_minor
            != next.class_minor || p.internet_disabled != next.internet_disabled || (p.upload_bps
            == 0) != (next.upload_bps == 0) || (p.download_bps == 0) != (next.download_bps == 0),
    }
}

pub fn nss_control_update_requires_conntrack_refresh(
    previous: Option<&ControlRule>,
    next: &ControlRule,
) -> (r: bool)
    ensures
        r == spec_requires_conntrack_refresh(
            match previous {
                Some(p) => Some(*p),
                None => None,
            },
            *next,
        ),
{
    let previous = match previous {
        Some(p) => p,
        None => return true,
    };
    !crate::text::str_eq(previous.identity_key.as_str(), next.identity_key.as_str())
        || !mac_eq(&previous.mac, &next.mac) || previous.class_minor != next.class_minor
        || previous.internet_disabled != next.internet_disabled || (previous.upload_bps == 0)
        != (next.upload_bps == 0) || (previous.download_bps == 0) != (next.download_bps == 0)
}

pub(crate) fn mac_eq(a: &MacAddress, b: &MacAddress) -> (r: bool)
    ensures
        r == (a@ == b@),
{
    let x = a.octets();
    let y = b.octets();
    let r = x[0] == y[0] && x[1] == y[1] && x[2] == y[2] && x[3] == y[3] && x[4] == y[4] && x[5]
        == y[5];
    proof {
        a.lemma_view_len();
        b.lemma_view_len();
        if r {
            assert(a@ =~= b@);
        }
    }
    r
}

/// A byte with ASCII letters lowered.
pub open spec fn ascii_lower(b: u8) -> u8 {
    if 65 <= b <= 90 {
        (b + 32) as u8
    } else {
        b
    }
}

/// The bytes of `0 flow entries`.
pub open spec fn empty_delete_marker() -> Seq<u8> {
    seq![48u8, 32u8, 102u8, 108u8, 111u8, 119u8, 32u8, 101u8, 110u8, 116u8, 114u8, 105u8, 101u8, 115u8]
}

/// A conntrack delete succeeded, or failed only because nothing matched: the
/// tool exits with code 1 and reports that zero flow entries were deleted
/// (matched without regard to ASCII case).
pub open spec fn spec_conntrack_delete_succeeded(success: bool, code: Option<i32>, diagnostic: Seq<u8>) -> bool {
    success || (code == Some(1i32) && seq_contains(
        diagnostic.map_values(|b: u8| ascii_lower(b)),
        empty_delete_marker(),
    ))
}

pub fn conntrack_delete_succeeded(success: bool, code: Option<i32>, diagnostic: &[u8]) -> (r: bool)
    ensures
        r == spec_conntrack_delete_succeeded(success, code, diagnostic@),
{
    if success {
        return true;
    }
    match code {
        Some(c) => {
            if c != 1 {
                return false;
            }
        },
        None => return false,
    }
    let mut lowered: Vec<u8> = Vec::new();
    let mut i: usize = 0;
    while i < diagnostic.len()
        invariant
            i <= diagnostic@.len(),
            lowered@ == diagnostic@.take(i as int).map_values(|b: u8| ascii_lower(b)),
        decreases diagnostic@.len() - i,
    {
        let b = diagnostic[i];
        let l = if 65 <= b && b <= 90 {
            b + 32
        } else {
            b
        };
        lowered.push(l);
        assert(diagnostic@.take(i + 1) =~= diagnostic@.take(i as int).push(b));
        assert(lowered@ =~= diagnostic@.take(i + 1).map_values(|b: u8| ascii_lower(b)));
        i += 1;
    }
    assert(diagnostic@.take(i as int) =~= diagnostic@);
    let marker: Vec<u8> = vec![48u8, 32u8, 102u8, 108u8, 111u8, 119u8, 32u8, 101u8, 110u8, 116u8, 114u8, 105u8, 101u8, 115u8];
    assert(marker@ =~= empty_delete_marker());
    crate::text::contains_bytes(&lowered, &marker)
}

/// The queue of `entry` dropped more packets than `previous` recorded for it.
pub open spec fn drop_increased(
    previous: Seq<crate::keyed::NamedView<u64>>,
    entry: crate::keyed::NamedView<u64>,
) -> bool {
    match name_lookup(previous, entry.name) {
        Some(p) => entry.value > p,
        None => false,
    }
}

/// Some queue dropped more packets than when it was last read.
pub open spec fn spec_queue_drops_increased(
    previous: Seq<crate::keyed::NamedView<u64>>,
    current: Seq<crate::keyed::NamedView<u64>>,
) -> bool {
    exists|i: int| 0 <= i < current.len() && #[trigger] drop_increased(previous, current[i])
}

pub fn queue_drops_increased(previous: &Vec<Named<u64>>, current: &Vec<Named<u64>>) -> (r: bool)
    ensures
        r == spec_queue_drops_increased(names_view(previous@), names_view(current@)),
{
    let ghost ps = names_view(previous@);
    let ghost cs = names_view(current@);
    let mut i: usize = 0;
    while i < current.len()
        invariant
            i <= current@.len(),
            ps == names_view(previous@),
            cs == names_view(current@),
            forall|j: int| 0 <= j < i ==> !#[trigger] drop_increased(ps, cs[j]),
        decreases current@.len() - i,
    {
        match crate::keyed::find_name(previous, &current[i].name) {
            Some(k) => {
                if current[i].value > previous[k].value {
                    assert(drop_increased(ps, cs[i as int]));
                    return true;
                }
            },
            None => {},
        }
        i += 1;
    }
    false
}

} // verus!

verus! {

/// How many public control error codes there are.
pub const CONTROL_ERROR_CODE_COUNT: usize = 121;

/// The public control error codes, in the order in which they are tried.
pub open spec fn control_error_code(i: int) -> Seq<char> {
    if 0 <= i < CONTROL_ERROR_CODE_COUNT {
        control_error_code_at(i as usize)
    } else {
        Seq::empty()
    }
}

pub open spec fn control_error_code_at(i: usize) -> Seq<char> {
    match i {
        0 => "identity_address_unavailable"@,
        1 => "identity_interface_unavailable"@,
        2 => "ambiguous_identity"@,
        3 => "missing_tc"@,
        4 => "missing_ip"@,
        5 => "missing_nft"@,
        6 => "missing_conntrack"@,
        7 => "missing_ubus"@,
        8 => "conntrack_cleanup_failed"@,
        9 => "ifb_qdisc_owned_by_external_service"@,
        10 => "download_qdisc_preflight_conflict"@,
        11 => "download_qdisc_stage_conflict"@,
        12 => "qdisc_owned_by_external_service"@,
        13 => "qdisc_inspection_failed"@,
        14 => "qdisc_inspection_invalid"@,
        15 => "lan_control_interface_unavailable"@,
        16 => "ifb_module_unavailable"@,
        17 => "ifb_owned_by_external_service"@,
        18 => "ifb_inspection_failed"@,
        19 => "sch_htb_unavailable"@,
        20 => "sch_fq_unavailable"@,
        21 => "cls_u32_unavailable"@,
        22 => "cls_matchall_unavailable"@,
        23 => "act_mirred_unavailable"@,
        24 => "act_gact_unavailable"@,
        25 => "ingress_qdisc_owned_by_external_service"@,
        26 => "ingress_filter_owned_by_external_service"@,
        27 => "ingress_chain_owned_by_external_service"@,
        28 => "ingress_filter_inspection_failed"@,
        29 => "ingress_filter_verification_failed"@,
        30 => "ingress_filter_cleanup_failed"@,
        31 => "dae_upload_preempts_control"@,
        32 => "block_filter_owned_by_external_service"@,
        33 => "block_chain_owned_by_external_service"@,
        34 => "block_filter_inspection_failed"@,
        35 => "block_filter_verification_failed"@,
        36 => "block_filter_cleanup_failed"@,
        37 => "block_nft_owned_by_external_service"@,
        38 => "block_nft_inspection_failed"@,
        39 => "interface_status_unavailable"@,
        40 => "queue_tree_verification_failed"@,
        41 => "queue_filter_verification_failed"@,
        42 => "control_filter_capacity"@,
        43 => "queue_stats_unavailable"@,
        44 => "queue_overflow"@,
        45 => "local_network_unavailable"@,
        46 => "control_rollback_failed"@,
        47 => "nss_control_rollback_failed"@,
        48 => "nss_control_command_timeout"@,
        49 => "nss_ecm_dscp_unavailable"@,
        50 => "nss_qdisc_unavailable"@,
        51 => "nss_wan_topology_invalid"@,
        52 => "nss_netifd_topology_unavailable"@,
        53 => "nss_fw4_topology_unavailable"@,
        54 => "nss_wan_interface_unavailable"@,
        55 => "nss_upload_edge_unavailable"@,
        56 => "nss_download_edge_unavailable"@,
        57 => "nss_download_edge_invalid"@,
        58 => "nss_default_class_capacity_exceeded"@,
        59 => "nss_qdisc_owned_by_external_service"@,
        60 => "nss_qdisc_apply_failed"@,
        61 => "nss_qdisc_inspection_failed"@,
        62 => "nss_qdisc_verification_failed"@,
        63 => "nss_control_firewall_owned_by_external_service"@,
        64 => "nss_control_firewall_inspection_failed"@,
        65 => "nss_control_firewall_failed"@,
        66 => "cpu_path_block_interface_unavailable"@,
        67 => "cpu_path_block_owned_by_external_service"@,
        68 => "cpu_path_block_inspection_failed"@,
        69 => "cpu_path_block_apply_failed"@,
        70 => "cpu_path_block_missing"@,
        71 => "cpu_path_block_stale"@,
        72 => "cpu_path_block_cleanup_failed"@,
        73 => "cpu_path_probe_interface_unavailable"@,
        74 => "cpu_path_probe_owned_by_external_service"@,
        75 => "cpu_path_probe_inspection_failed"@,
        76 => "cpu_path_probe_apply_failed"@,
        77 => "cpu_path_probe_missing"@,
        78 => "cpu_path_probe_stale"@,
        79 => "cpu_path_probe_cleanup_failed"@,
        80 => "cpu_path_classifier_owned_by_external_service"@,
        81 => "cpu_path_classifier_inspection_failed"@,
        82 => "cpu_path_classifier_verification_failed"@,
        83 => "cpu_path_classifier_cleanup_failed"@,
        84 => "cpu_path_classifier_missing"@,
        85 => "cpu_path_classifier_stale"@,
        86 => "cpu_path_qdisc_owned_by_external_service"@,
        87 => "cpu_path_qdisc_verification_failed"@,
        88 => "cpu_path_qdisc_inspection_failed"@,
        89 => "cpu_path_class_inspection_failed"@,
        90 => "cpu_path_filter_owned_by_external_service"@,
        91 => "cpu_path_filter_inspection_failed"@,
        92 => "cpu_path_filter_verification_failed"@,
        93 => "cpu_path_filter_cleanup_failed"@,
        94 => "act_nssmirred_unavailable"@,
        95 => "act_skbedit_unavailable"@,
        96 => "nss_igs_ifb_name_collision"@,
        97 => "nss_igs_capacity_exceeded"@,
        98 => "nss_igs_tag_capacity_exceeded"@,
        99 => "nss_igs_tag_config_failed"@,
        100 => "nss_igs_tag_config_inspection_failed"@,
        101 => "nss_igs_tag_config_verification_failed"@,
        102 => "nss_igs_ifb_owned_by_external_service"@,
        103 => "nss_igs_ifb_inspection_failed"@,
        104 => "nss_igs_ifb_missing"@,
        105 => "nss_igs_ifb_stale"@,
        106 => "nss_igs_mapping_owned_by_external_service"@,
        107 => "nss_igs_mapping_inspection_failed"@,
        108 => "nss_igs_mapping_verification_failed"@,
        109 => "nss_igs_mapping_missing"@,
        110 => "nss_igs_mapping_stale"@,
        111 => "nss_igs_filter_owned_by_external_service"@,
        112 => "nss_igs_filter_inspection_failed"@,
        113 => "nss_igs_filter_verification_failed"@,
        114 => "lanspeed_nss_control_unavailable"@,
        115 => "nss_igs_stage_missing"@,
        116 => "nss_igs_stage_inspection_failed"@,
        117 => "nss_igs_stage_failed"@,
        118 => "nss_igs_publish_failed"@,
        119 => "nss_igs_unpublish_failed"@,
        120 => "nss_igs_unstage_failed"@,
        _ => Seq::empty(),
    }
}

fn nth_control_error_code(i: usize) -> (r: &'static str)
    requires
        i < CONTROL_ERROR_CODE_COUNT,
    ensures
        r@ == control_error_code(i as int),
{
    match i {
        0 => "identity_address_unavailable",
        1 => "identity_interface_unavailable",
        2 => "ambiguous_identity",
        3 => "missing_tc",
        4 => "missing_ip",
        5 => "missing_nft",
        6 => "missing_conntrack",
        7 => "missing_ubus",
        8 => "conntrack_cleanup_failed",
        9 => "ifb_qdisc_owned_by_external_service",
        10 => "download_qdisc_preflight_conflict",
        11 => "download_qdisc_stage_conflict",
        12 => "qdisc_owned_by_external_service",
        13 => "qdisc_inspection_failed",
        14 => "qdisc_inspection_invalid",
        15 => "lan_control_interface_unavailable",
        16 => "ifb_module_unavailable",
        17 => "ifb_owned_by_external_service",
        18 => "ifb_inspection_failed",
        19 => "sch_htb_unavailable",
        20 => "sch_fq_unavailable",
        21 => "cls_u32_unavailable",
        22 => "cls_matchall_unavailable",
        23 => "act_mirred_unavailable",
        24 => "act_gact_unavailable",
        25 => "ingress_qdisc_owned_by_external_service",
        26 => "ingress_filter_owned_by_external_service",
        27 => "ingress_chain_owned_by_external_service",
        28 => "ingress_filter_inspection_failed",
        29 => "ingress_filter_verification_failed",
        30 => "ingress_filter_cleanup_failed",
        31 => "dae_upload_preempts_control",
        32 => "block_filter_owned_by_external_service",
        33 => "block_chain_owned_by_external_service",
        34 => "block_filter_inspection_failed",
        35 => "block_filter_verification_failed",
        36 => "block_filter_cleanup_failed",
        37 => "block_nft_owned_by_external_service",
        38 => "block_nft_inspection_failed",
        39 => "interface_status_unavailable",
        40 => "queue_tree_verification_failed",
        41 => "queue_filter_verification_failed",
        42 => "control_filter_capacity",
        43 => "queue_stats_unavailable",
        44 => "queue_overflow",
        45 => "local_network_unavailable",
        46 => "control_rollback_failed",
        47 => "nss_control_rollback_failed",
        48 => "nss_control_command_timeout",
        49 => "nss_ecm_dscp_unavailable",
        50 => "nss_qdisc_unavailable",
        51 => "nss_wan_topology_invalid",
        52 => "nss_netifd_topology_unavailable",
        53 => "nss_fw4_topology_unavailable",
        54 => "nss_wan_interface_unavailable",
        55 => "nss_upload_edge_unavailable",
        56 => "nss_download_edge_unavailable",
        57 => "nss_download_edge_invalid",
        58 => "nss_default_class_capacity_exceeded",
        59 => "nss_qdisc_owned_by_external_service",
        60 => "nss_qdisc_apply_failed",
        61 => "nss_qdisc_inspection_failed",
        62 => "nss_qdisc_verification_failed",
        63 => "nss_control_firewall_owned_by_external_service",
        64 => "nss_control_firewall_inspection_failed",
        65 => "nss_control_firewall_failed",
        66 => "cpu_path_block_interface_unavailable",
        67 => "cpu_path_block_owned_by_external_service",
        68 => "cpu_path_block_inspection_failed",
        69 => "cpu_path_block_apply_failed",
        70 => "cpu_path_block_missing",
        71 => "cpu_path_block_stale",
        72 => "cpu_path_block_cleanup_failed",
        73 => "cpu_path_probe_interface_unavailable",
        74 => "cpu_path_probe_owned_by_external_service",
        75 => "cpu_path_probe_inspection_failed",
        76 => "cpu_path_probe_apply_failed",
        77 => "cpu_path_probe_missing",
        78 => "cpu_path_probe_stale",
        79 => "cpu_path_probe_cleanup_failed",
        80 => "cpu_path_classifier_owned_by_external_service",
        81 => "cpu_path_classifier_inspection_failed",
        82 => "cpu_path_classifier_verification_failed",
        83 => "cpu_path_classifier_cleanup_failed",
        84 => "cpu_path_classifier_missing",
        85 => "cpu_path_classifier_stale",
        86 => "cpu_path_qdisc_owned_by_external_service",
        87 => "cpu_path_qdisc_verification_failed",
        88 => "cpu_path_qdisc_inspection_failed",
        89 => "cpu_path_class_inspection_failed",
        90 => "cpu_path_filter_owned_by_external_service",
        91 => "cpu_path_filter_inspection_failed",
        92 => "cpu_path_filter_verification_failed",
        93 => "cpu_path_filter_cleanup_failed",
        94 => "act_nssmirred_unavailable",
        95 => "act_skbedit_unavailable",
        96 => "nss_igs_ifb_name_collision",
        97 => "nss_igs_capacity_exceeded",
        98 => "nss_igs_tag_capacity_exceeded",
        99 => "nss_igs_tag_config_failed",
        100 => "nss_igs_tag_config_inspection_failed",
        101 => "nss_igs_tag_config_verification_failed",
        102 => "nss_igs_ifb_owned_by_external_service",
        103 => "nss_igs_ifb_inspection_failed",
        104 => "nss_igs_ifb_missing",
        105 => "nss_igs_ifb_stale",
        106 => "nss_igs_mapping_owned_by_external_service",
        107 => "nss_igs_mapping_inspection_failed",
        108 => "nss_igs_mapping_verification_failed",
        109 => "nss_igs_mapping_missing",
        110 => "nss_igs_mapping_stale",
        111 => "nss_igs_filter_owned_by_external_service",
        112 => "nss_igs_filter_inspection_failed",
        113 => "nss_igs_filter_verification_failed",
        114 => "lanspeed_nss_control_unavailable",
        115 => "nss_igs_stage_missing",
        116 => "nss_igs_stage_inspection_failed",
        117 => "nss_igs_stage_failed",
        118 => "nss_igs_publish_failed",
        119 => "nss_igs_unpublish_failed",
        120 => "nss_igs_unstage_failed",
        _ => "",
    }
}

} // verus!

verus! {

/// Among the first `n` codes, the one that `public_control_error` keeps for
/// `error`: the longest that `error` contains, the last of equally long ones.
pub open spec fn best_code(error: Seq<char>, n: int) -> Option<int>
    decreases n,
{
    if n <= 0 {
        None
    } else {
        let previous = best_code(error, n - 1);
        let code = control_error_code(n - 1);
        if seq_contains(error, code) && (previous is None || code.len() >= control_error_code(
            previous->0,
        ).len()) {
            Some(n - 1)
        } else {
            previous
        }
    }
}

/// The public code for a platform error text; raw command or address text
/// never passes through.
pub open spec fn spec_public_control_error(error: Seq<char>) -> Seq<char> {
    match best_code(error, CONTROL_ERROR_CODE_COUNT as int) {
        Some(i) => control_error_code(i),
        None => "control_apply_failed"@,
    }
}

proof fn lemma_best_code_range(error: Seq<char>, n: int)
    ensures
        best_code(error, n) matches Some(i) ==> 0 <= i < n && seq_contains(
            error,
            control_error_code(i),
        ),
    decreases n,
{
    if n > 0 {
        lemma_best_code_range(error, n - 1);
    }
}

pub fn public_control_error(error: &str) -> (r: String)
    ensures
        r@ == spec_public_control_error(error@),
        r@ == "control_apply_failed"@ || exists|i: int|
            0 <= i < CONTROL_ERROR_CODE_COUNT && r@ == control_error_code(i) && seq_contains(
                error@,
                control_error_code(i),
            ),
{
    let mut best: Option<usize> = None;
    let mut best_len: usize = 0;
    let mut i: usize = 0;
    while i < CONTROL_ERROR_CODE_COUNT
        invariant
            i <= CONTROL_ERROR_CODE_COUNT,
            best == (match best_code(error@, i as int) {
                Some(k) => Some(k as usize),
                None => None::<usize>,
            }),
            best_code(error@, i as int) matches Some(k) ==> 0 <= k < i && best_len
                == control_error_code(k).len(),
        decreases CONTROL_ERROR_CODE_COUNT - i,
    {
        proof {
            lemma_best_code_range(error@, i as int);
        }
        let code = nth_control_error_code(i);
        let len = str_chars(code).len();
        if crate::text::str_contains(error, code) && (best.is_none() || len >= best_len) {
            best = Some(i);
            best_len = len;
        }
        i += 1;
    }
    proof {
        lemma_best_code_range(error@, CONTROL_ERROR_CODE_COUNT as int);
    }
    match best {
        Some(k) => code_string(nth_control_error_code(k)),
        None => "control_apply_failed".to_owned(),
    }
}

fn code_string(code: &str) -> (r: String)
    ensures
        r@ == code@,
{
    code.to_owned()
}

/// A short code of ASCII letters, digits, `_` and `-`.
pub open spec fn is_safe_code(code: Seq<char>) -> bool {
    &&& 0 < code.len() <= 64
    &&& forall|i: int| 0 <= i < code.len() ==> #[trigger] is_code_char(code[i])
}

pub open spec fn is_ascii_alnum(c: char) -> bool {
    ('0' <= c <= '9') || ('a' <= c <= 'z') || ('A' <= c <= 'Z')
}

pub open spec fn is_code_char(c: char) -> bool {
    is_ascii_alnum(c) || c == '_' || c == '-'
}

fn ascii_alnum(c: char) -> (r: bool)
    ensures
        r == is_ascii_alnum(c),
{
    ('0' <= c && c <= '9') || ('a' <= c && c <= 'z') || ('A' <= c && c <= 'Z')
}

fn all_code_chars(cs: &Vec<char>) -> (r: bool)
    ensures
        r == forall|i: int| 0 <= i < cs@.len() ==> #[trigger] is_code_char(cs@[i]),
{
    let mut i: usize = 0;
    while i < cs.len()
        invariant
            i <= cs@.len(),
            forall|j: int| 0 <= j < i ==> #[trigger] is_code_char(cs@[j]),
        decreases cs@.len() - i,
    {
        let c = cs[i];
        if !(ascii_alnum(c) || c == '_' || c == '-') {
            assert(!is_code_char(cs@[i as int]));
            return false;
        }
        i += 1;
    }
    true
}

/// The code itself when it is safe to publish.
pub fn safe_control_reason(code: &str) -> (r: Option<&str>)
    ensures
        r == (if is_safe_code(code@) {
            Some(code)
        } else {
            None::<&str>
        }),
{
    let cs = str_chars(code);
    if cs.len() == 0 || cs.len() > 64 || !all_code_chars(&cs) {
        return None;
    }
    Some(code)
}

/// A code is published in diagnostics only when it is safe.
pub fn safe_control_diagnostic_code(code: &str) -> (r: Option<&str>)
    ensures
        r == (if is_safe_code(code@) {
            Some(code)
        } else {
            None::<&str>
        }),
{
    safe_control_reason(code)
}

pub open spec fn is_ifname_char(c: char) -> bool {
    is_ascii_alnum(c) || c == '_' || c == '-' || c == '.' || c == ':'
}

/// A kernel interface name: one to fifteen ASCII letters, digits, `_`, `-`,
/// `.` or `:`.
pub open spec fn spec_valid_interface_name(name: Seq<char>) -> bool {
    &&& 0 < name.len() <= 15
    &&& forall|i: int| 0 <= i < name.len() ==> #[trigger] is_ifname_char(name[i])
}

pub fn valid_interface_name(value: &str) -> (r: bool)
    ensures
        r == spec_valid_interface_name(value@),
{
    let cs = str_chars(value);
    if cs.len() == 0 || cs.len() > 15 {
        return false;
    }
    let mut i: usize = 0;
    while i < cs.len()
        invariant
            i <= cs@.len(),
            cs@ == value@,
            forall|j: int| 0 <= j < i ==> #[trigger] is_ifname_char(cs@[j]),
        decreases cs@.len() - i,
    {
        let c = cs[i];
        if !(ascii_alnum(c) || c == '_' || c == '-' || c == '.' || c == ':') {
            assert(!is_ifname_char(cs@[i as int]));
            return false;
        }
        i += 1;
    }
    true
}

/// The result of a failed apply: the public code of the error, the supported
/// capabilities carried over, and nothing verified.
pub open spec fn is_failed_result(r: ApplyResult, error: Seq<char>, previous: ApplyResult) -> bool {
    &&& r.state@ == "error"@
    &&& r.reason matches Some(reason) && reason@ == spec_public_control_error(error)
    &&& r.shaping_supported == previous.shaping_supported
    &&& r.blocking_supported == previous.blocking_supported
    &&& !r.queue_overflow
    &&& r.queue_drop_counters@.len() == 0
    &&& r.class_counter_baselines@.len() == 0
    &&& r.verified_directions@.len() == 0
    &&& r.nss_verified_directions@.len() == 0
    &&& r.cpu_verified_directions@.len() == 0
    &&& r.verification_failures@.len() == 0
}

pub fn failed_apply_result(error: &str, previous: &ApplyResult) -> (r: ApplyResult)
    ensures
        is_failed_result(r, error@, *previous),
{
    ApplyResult {
        state: "error".to_owned(),
        reason: Some(public_control_error(error)),
        shaping_supported: previous.shaping_supported,
        blocking_supported: previous.blocking_supported,
        queue_overflow: false,
        queue_drop_counters: Vec::new(),
        class_counter_baselines: Vec::new(),
        verified_directions: Vec::new(),
        nss_verified_directions: Vec::new(),
        cpu_verified_directions: Vec::new(),
        verification_failures: Vec::new(),
    }
}

/// A lost prefix needs the control quiesced unless that same failure is
/// already what the previous result reports.
pub open spec fn spec_prefix_loss_needs_quiesce(previous: ApplyResult, error: Seq<char>) -> bool {
    let same_failure = match previous.reason {
        Some(reason) => previous.state@ == "error"@ && reason@ == spec_public_control_error(error),
        None => false,
    };
    !same_failure
}

pub fn prefix_loss_needs_quiesce(previous: &ApplyResult, error: &str) -> (r: bool)
    ensures
        r == spec_prefix_loss_needs_quiesce(*previous, error@),
{
    let reason = public_control_error(error);
    if !crate::text::str_eq(previous.state.as_str(), "error") {
        return true;
    }
    match &previous.reason {
        Some(previous_reason) => !crate::text::str_eq(previous_reason.as_str(), reason.as_str()),
        None => true,
    }
}

} // verus!

verus! {

pub const FNV64_OFFSET: u64 = 0xcbf2_9ce4_8422_2325;

pub const FNV64_PRIME: u64 = 0x0000_0100_0000_01b3;

pub const FNV32_OFFSET: u32 = 0x811c_9dc5;

pub const FNV32_PRIME: u32 = 0x0100_0193;

/// The 64-bit FNV-1a hash of a byte string.
pub open spec fn fnv1a64(bytes: Seq<u8>) -> u64
    decreases bytes.len(),
{
    if bytes.len() == 0 {
        FNV64_OFFSET
    } else {
        (fnv1a64(bytes.drop_last()) ^ (bytes.last() as u64)).wrapping_mul(FNV64_PRIME)
    }
}

/// The 32-bit FNV-1a hash of a byte string.
pub open spec fn fnv1a32(bytes: Seq<u8>) -> u32
    decreases bytes.len(),
{
    if bytes.len() == 0 {
        FNV32_OFFSET
    } else {
        (fnv1a32(bytes.drop_last()) ^ (bytes.last() as u32)).wrapping_mul(FNV32_PRIME)
    }
}

/// A 64-bit value as sixteen lowercase hexadecimal digits.
pub open spec fn hex16(h: u64) -> Seq<char> {
    Seq::new(16, |i: int| crate::identity::hex_char(((h >> ((60 - 4 * i) as u64)) & 15u64) as u8))
}

/// The storage section of a client's rule: a hash of its key, so that no
/// identity text reaches the configuration store.
pub open spec fn spec_section_name(identity_key: Seq<char>) -> Seq<char> {
    "control_"@ + hex16(fnv1a64(encode_utf8(identity_key)))
}

pub fn section_name(identity_key: &str) -> (r: String)
    ensures
        r@ == spec_section_name(identity_key@),
{
    let bytes = identity_key.as_bytes();
    let mut hash: u64 = FNV64_OFFSET;
    let mut i: usize = 0;
    while i < bytes.len()
        invariant
            i <= bytes@.len(),
            bytes@ == encode_utf8(identity_key@),
            hash == fnv1a64(bytes@.take(i as int)),
        decreases bytes@.len() - i,
    {
        assert(bytes@.take(i + 1).drop_last() =~= bytes@.take(i as int));
        hash = (hash ^ (bytes[i] as u64)).wrapping_mul(FNV64_PRIME);
        i += 1;
    }
    assert(bytes@.take(i as int) =~= bytes@);
    let mut digits: Vec<char> = Vec::new();
    let mut k: u64 = 0;
    while k < 16
        invariant
            k <= 16,
            digits@.len() == k,
            forall|j: int| 0 <= j < k ==> digits@[j] == hex16(hash)[j],
        decreases 16 - k,
    {
        let shift: u64 = 60 - 4 * k;
        let nibble = (hash >> shift) & 15u64;
        assert(nibble < 16) by (bit_vector)
            requires
                nibble == (hash >> shift) & 15u64,
        ;
        digits.push(crate::identity::nibble_char(nibble as u8));
        k += 1;
    }
    assert(digits@ =~= hex16(hash));
    let mut r = "control_".to_owned();
    let tail = string_from_chars(digits.as_slice());
    r.append(tail.as_str());
    r
}

/// The class tried at `offset` for a key hashing to `hash`.
pub open spec fn class_candidate(platform: ControlPlatform, hash: u32, offset: int) -> u16 {
    (platform.first_minor() + ((hash % platform.class_span()) + offset) % (platform.class_span() as int)) as u16
}

/// A class that no rule holds and that is not the default FIFO class.
pub open spec fn class_free(used: Seq<u16>, minor: u16) -> bool {
    minor != DEFAULT_FIFO_HANDLE_MINOR && !used.contains(minor)
}

/// `offset` is the first at which a free class is found.
pub open spec fn is_first_free_offset(platform: ControlPlatform, used: Seq<u16>, hash: u32, offset: int) -> bool {
    &&& 0 <= offset < platform.class_span()
    &&& class_free(used, class_candidate(platform, hash, offset))
    &&& forall|o: int| 0 <= o < offset ==> !class_free(used, #[trigger] class_candidate(platform, hash, o))
}

/// The class a new rule takes: probing from the slot its key hashes to, the
/// first free class; the last class when none is free.
pub open spec fn spec_allocate_class(platform: ControlPlatform, used: Seq<u16>, hash: u32) -> u16 {
    if exists|o: int| is_first_free_offset(platform, used, hash, o) {
        class_candidate(platform, hash, choose|o: int| is_first_free_offset(platform, used, hash, o))
    } else {
        platform.last_minor()
    }
}

/// The classes that the rules hold.
pub open spec fn used_classes(rules: Seq<ControlRule>) -> Seq<u16> {
    rules.map_values(|r: ControlRule| r.class_minor)
}

proof fn lemma_first_free_unique(platform: ControlPlatform, used: Seq<u16>, hash: u32, offset: int)
    requires
        is_first_free_offset(platform, used, hash, offset),
    ensures
        spec_allocate_class(platform, used, hash) == class_candidate(platform, hash, offset),
{
    let c = choose|o: int| is_first_free_offset(platform, used, hash, o);
    assert(is_first_free_offset(platform, used, hash, c));
    if c < offset {
        assert(!class_free(used, class_candidate(platform, hash, c)));
    } else if c > offset {
        assert(!class_free(used, class_candidate(platform, hash, offset)));
    }
}

fn class_in_use(rules: &Vec<ControlRule>, minor: u16) -> (r: bool)
    ensures
        r == used_classes(rules@).contains(minor),
{
    let ghost used = used_classes(rules@);
    let mut i: usize = 0;
    while i < rules.len()
        invariant
            i <= rules@.len(),
            used == used_classes(rules@),
            forall|j: int| 0 <= j < i ==> used[j] != minor,
        decreases rules@.len() - i,
    {
        if rules[i].class_minor == minor {
            assert(used[i as int] == minor);
            return true;
        }
        i += 1;
    }
    false
}

pub fn allocate_class_minor(rules: &Vec<ControlRule>, identity_key: &str, platform: ControlPlatform) -> (r: u16)
    ensures
        r == spec_allocate_class(platform, used_classes(rules@), fnv1a32(encode_utf8(identity_key@))),
        r != DEFAULT_FIFO_HANDLE_MINOR,
        platform.first_minor() <= r <= platform.last_minor(),
{
    let ghost used = used_classes(rules@);
    let bytes = identity_key.as_bytes();
    let mut hash: u32 = FNV32_OFFSET;
    let mut i: usize = 0;
    while i < bytes.len()
        invariant
            i <= bytes@.len(),
            bytes@ == encode_utf8(identity_key@),
            hash == fnv1a32(bytes@.take(i as int)),
        decreases bytes@.len() - i,
    {
        assert(bytes@.take(i + 1).drop_last() =~= bytes@.take(i as int));
        hash = (hash ^ (bytes[i] as u32)).wrapping_mul(FNV32_PRIME);
        i += 1;
    }
    assert(bytes@.take(i as int) =~= bytes@);
    let first = platform.first_class_minor();
    let last = platform.last_class_minor();
    let span: u32 = (last - first) as u32 + 1;
    assert(span == platform.class_span());
    let start: u32 = hash % span;
    let mut offset: u32 = 0;
    while offset < span
        invariant
            offset <= span,
            span == platform.class_span(),
            first == platform.first_minor(),
            last == platform.last_minor(),
            first < last,
            span as int == last - first + 1,
            start == hash % span,
            hash == fnv1a32(encode_utf8(identity_key@)),
            used == used_classes(rules@),
            forall|o: int| 0 <= o < offset ==> !class_free(used, #[trigger] class_candidate(platform, hash, o)),
        decreases span - offset,
    {
        let step: u32 = (start + offset) % span;
        let minor: u16 = first + step as u16;
        assert(minor == class_candidate(platform, hash, offset as int));
        if minor != DEFAULT_FIFO_HANDLE_MINOR && !class_in_use(rules, minor) {
            proof {
                lemma_first_free_unique(platform, used, hash, offset as int);
            }
            return minor;
        }
        offset += 1;
    }
    assert(!exists|o: int| is_first_free_offset(platform, used, hash, o));
    last
}

} // verus!

verus! {

pub open spec fn is_zone_char(c: char) -> bool {
    is_ascii_alnum(c) || c == '_' || c == '-' || c == '.'
}

/// An ASCII control character.
pub open spec fn is_control_char(c: char) -> bool {
    (c as u32) < 32 || (c as u32) == 127
}

/// The address and zone that a client key `address@zone` names, when it is
/// a well-formed key: at most 255 bytes, no control character, a client MAC
/// before the first `@`, and after it a zone of one to 64 bytes of ASCII
/// letters, digits, `_`, `-` or `.`.
pub open spec fn spec_identity_key(s: Seq<char>) -> Option<(Seq<u8>, Seq<char>)> {
    let at = crate::text::first_index_of(s, '@');
    let zone = s.subrange(at + 1, s.len() as int);
    if s.len() == 0 || encode_utf8(s).len() > 255 || (exists|i: int|
        0 <= i < s.len() && #[trigger] is_control_char(s[i])) || at < 0 {
        None
    } else if zone.len() == 0 || encode_utf8(zone).len() > 64 || !(forall|i: int|
        0 <= i < zone.len() ==> #[trigger] is_zone_char(zone[i])) {
        None
    } else {
        match spec_parse_mac(encode_utf8(s.subrange(0, at))) {
            Some(mac) => Some((mac, zone)),
            None => None,
        }
    }
}

pub fn parse_identity_key(value: &str) -> (r: Result<(MacAddress, &str), String>)
    ensures
        match r {
            Ok((mac, zone)) => spec_identity_key(value@) == Some((mac@, zone@)),
            Err(e) => spec_identity_key(value@) is None && e@ == "invalid_identity_key"@,
        },
{
    let cs = str_chars(value);
    if cs.len() == 0 || value.as_bytes().len() > 255 {
        return Err("invalid_identity_key".to_owned());
    }
    let mut i: usize = 0;
    while i < cs.len()
        invariant
            i <= cs@.len(),
            cs@ == value@,
            forall|j: int| 0 <= j < i ==> !#[trigger] is_control_char(cs@[j]),
        decreases cs@.len() - i,
    {
        if (cs[i] as u32) < 32 || (cs[i] as u32) == 127 {
            assert(is_control_char(cs@[i as int]));
            return Err("invalid_identity_key".to_owned());
        }
        i += 1;
    }
    let at = match crate::text::find_char(&cs, '@') {
        Some(at) => at,
        None => return Err("invalid_identity_key".to_owned()),
    };
    proof {
        crate::text::lemma_first_index_of(cs@, '@');
    }
    let zone = value.substring_char(at + 1, cs.len());
    let zone_chars = str_chars(zone);
    if zone_chars.len() == 0 || zone.as_bytes().len() > 64 {
        return Err("invalid_identity_key".to_owned());
    }
    let mut k: usize = 0;
    while k < zone_chars.len()
        invariant
            k <= zone_chars@.len(),
            zone_chars@ == zone@,
            zone@ == value@.subrange(at + 1, value@.len() as int),
            at as int == crate::text::first_index_of(value@, '@'),
            forall|j: int| 0 <= j < value@.len() ==> !#[trigger] is_control_char(value@[j]),
            0 < value@.len(),
            encode_utf8(value@).len() <= 255,
            forall|j: int| 0 <= j < k ==> #[trigger] is_zone_char(zone_chars@[j]),
        decreases zone_chars@.len() - k,
    {
        let c = zone_chars[k];
        if !(ascii_alnum(c) || c == '_' || c == '-' || c == '.') {
            assert(!is_zone_char(zone_chars@[k as int]));
            return Err("invalid_identity_key".to_owned());
        }
        k += 1;
    }
    assert(!(exists|j: int| 0 <= j < value@.len() && #[trigger] is_control_char(value@[j])));
    let mac_text = value.substring_char(0, at);
    match MacAddress::parse(mac_text) {
        Ok(mac) => Ok((mac, zone)),
        Err(_) => Err("invalid_identity_key".to_owned()),
    }
}

/// The value filed under `key` in a keyed list, if any.
pub open spec fn lookup_in<T>(v: Seq<Named<T>>, key: Seq<char>) -> Option<T> {
    name_lookup(names_view(v), key)
}

/// The rule-level facts that decide a client's control state.
pub open spec fn address_unavailable(platform: ControlPlatform, rule: Option<ControlRule>, live: Option<LiveClient>) -> bool {
    match (rule, live) {
        (Some(r), Some(l)) => l.ips@.len() == 0 && spec_requires_address(
            platform,
            r.upload_bps,
            r.download_bps,
            r.internet_disabled,
        ),
        _ => false,
    }
}

pub open spec fn interface_unavailable(rule: Option<ControlRule>, live: Option<LiveClient>) -> bool {
    match (rule, live) {
        (Some(r), Some(l)) => (r.upload_bps != 0 || r.download_bps != 0 || r.internet_disabled)
            && l.interface is None,
        _ => false,
    }
}

pub open spec fn upload_preempted(
    rule: Option<ControlRule>,
    live: Option<LiveClient>,
    preempted_upload_devices: Seq<Seq<char>>,
    dae_upload_devices_empty: bool,
) -> bool {
    match (rule, live) {
        (Some(r), Some(l)) => r.upload_bps != 0 && dae_upload_devices_empty && match l.interface {
            Some(device) => preempted_upload_devices.contains(device@),
            None => false,
        },
        _ => false,
    }
}

/// The directions a rule shapes: bit 0 upload, bit 1 download.
pub open spec fn required_directions(rule: ControlRule) -> u8 {
    ((if rule.upload_bps != 0 {
        1u8
    } else {
        0u8
    }) | (if rule.download_bps != 0 {
        2u8
    } else {
        0u8
    })) as u8
}

/// The state and reason before the client-level overrides: the apply
/// result's state for a configured client, with an explanation when a kind of
/// control is unsupported; a blocking-only rule is applied once the result
/// has taken effect, and a shaping rule is verified once every direction it
/// shapes was verified.
pub open spec fn base_state(rule: Option<ControlRule>, result: ApplyResult, verified: u8) -> (Seq<char>, Option<Seq<char>>) {
    let state = if rule is Some {
        result.state@
    } else {
        "inactive"@
    };
    let reason = match result.reason {
        Some(r) => Some(r@),
        None => if !result.shaping_supported {
            Some("control_apply_failed"@)
        } else if !result.blocking_supported {
            Some("conntrack_control_unavailable"@)
        } else {
            None
        },
    };
    match rule {
        Some(r) => {
            let required = required_directions(r);
            if required == 0 && r.internet_disabled && (result.state@ == "pending_new_connections"@
                || result.state@ == "verified"@) {
                ("applied"@, None)
            } else if required != 0 && result.state@ == "pending_new_connections"@ {
                if verified & required == required {
                    ("verified"@, None)
                } else if verified != 0 {
                    (state, Some("direction_verification_pending"@))
                } else {
                    (state, reason)
                }
            } else {
                (state, reason)
            }
        },
        None => (state, reason),
    }
}

/// The state and reason shown for a client: a recorded verification failure
/// overrides the base state, and an identity or topology problem overrides
/// everything, in the order ambiguous identity, missing address, missing
/// interface, upload preempted by the proxy.
pub open spec fn summary_state(
    platform: ControlPlatform,
    rule: Option<ControlRule>,
    live: Option<LiveClient>,
    result: ApplyResult,
    identity_key: Seq<char>,
    preempted_upload_devices: Seq<Seq<char>>,
    dae_upload_devices_empty: bool,
) -> (Seq<char>, Option<Seq<char>>) {
    let verified = match lookup_in(result.verified_directions@, identity_key) {
        Some(v) => v,
        None => 0u8,
    };
    let base = base_state(rule, result, verified);
    let after_failure = match lookup_in(result.verification_failures@, identity_key) {
        Some(f) => ("error"@, Some(f@)),
        None => base,
    };
    if live matches Some(l) && l.ambiguous {
        ("error"@, Some("ambiguous_identity"@))
    } else if address_unavailable(platform, rule, live) {
        ("error"@, Some("identity_address_unavailable"@))
    } else if interface_unavailable(rule, live) {
        ("error"@, Some("identity_interface_unavailable"@))
    } else if upload_preempted(rule, live, preempted_upload_devices, dae_upload_devices_empty) {
        ("error"@, Some("dae_upload_preempts_control"@))
    } else {
        after_failure
    }
}

/// The texts of a list of strings.
pub open spec fn texts(v: Seq<String>) -> Seq<Seq<char>> {
    v.map_values(|s: String| s@)
}

pub(crate) fn contains_text(v: &Vec<String>, s: &String) -> (r: bool)
    ensures
        r == texts(v@).contains(s@),
{
    let mut i: usize = 0;
    while i < v.len()
        invariant
            i <= v@.len(),
            forall|j: int| 0 <= j < i ==> texts(v@)[j] != s@,
        decreases v@.len() - i,
    {
        if crate::text::str_eq(v[i].as_str(), s.as_str()) {
            assert(texts(v@)[i as int] == s@);
            return true;
        }
        i += 1;
    }
    false
}

fn text_is(s: &String, t: &str) -> (r: bool)
    ensures
        r == (s@ == t@),
{
    crate::text::str_eq(s.as_str(), t)
}

/// The control summary of one client row.
pub fn control_summary(
    rule: Option<&ControlRule>,
    live: Option<&LiveClient>,
    result: &ApplyResult,
    identity_key: &String,
    preempted_upload_devices: &Vec<String>,
    dae_upload_devices: &Vec<String>,
    max_rate_bps: u64,
    platform: ControlPlatform,
) -> (r: ClientControlSummary)
    ensures
        ({
            let rule_v = match rule {
                Some(x) => Some(*x),
                None => None::<ControlRule>,
            };
            let live_v = match live {
                Some(x) => Some(*x),
                None => None::<LiveClient>,
            };
            let ambiguous = live_v matches Some(l) && l.ambiguous;
            let st = summary_state(
                platform,
                rule_v,
                live_v,
                *result,
                identity_key@,
                texts(preempted_upload_devices@),
                dae_upload_devices@.len() == 0,
            );
            &&& r.configured == rule_v is Some
            &&& r.upload_bps == (match rule_v {
                Some(x) => x.upload_bps,
                None => 0,
            })
            &&& r.download_bps == (match rule_v {
                Some(x) => x.download_bps,
                None => 0,
            })
            &&& r.internet_disabled == (rule_v matches Some(x) && x.internet_disabled)
            &&& r.shaping_supported == (result.shaping_supported && !ambiguous)
            &&& r.blocking_supported == (result.blocking_supported && !ambiguous)
            &&& r.max_rate_bps == max_rate_bps
            &&& r.state@ == st.0
            &&& option_text(r.reason) == st.1
            &&& r.queue_overflow == (lookup_in(result.verification_failures@, identity_key@) matches Some(
                f,
            ) && f@ == "queue_overflow"@)
        }),
{
    let ambiguous = match live {
        Some(l) => l.ambiguous,
        None => false,
    };
    let configured = rule.is_some();
    let addr_unavailable = match (rule, live) {
        (Some(r), Some(l)) => l.ips.len() == 0 && control_requires_address(
            r.upload_bps,
            r.download_bps,
            r.internet_disabled,
            platform,
        ),
        _ => false,
    };
    let if_unavailable = match (rule, live) {
        (Some(r), Some(l)) => (r.upload_bps != 0 || r.download_bps != 0 || r.internet_disabled)
            && l.interface.is_none(),
        _ => false,
    };
    let preempted = match (rule, live) {
        (Some(r), Some(l)) => r.upload_bps != 0 && dae_upload_devices.len() == 0 && match &l.interface {
            Some(device) => contains_text(preempted_upload_devices, device),
            None => false,
        },
        _ => false,
    };
    let mut state = if configured {
        result.state.clone()
    } else {
        "inactive".to_owned()
    };
    let mut reason: Option<String> = match &result.reason {
        Some(r) => Some(r.clone()),
        None => if !result.shaping_supported {
            Some("control_apply_failed".to_owned())
        } else if !result.blocking_supported {
            Some("conntrack_control_unavailable".to_owned())
        } else {
            None
        },
    };
    let verified: u8 = match crate::keyed::find_name(&result.verified_directions, identity_key) {
        Some(k) => result.verified_directions[k].value,
        None => 0,
    };
    if let Some(r) = rule {
        let required: u8 = (if r.upload_bps != 0 {
            1u8
        } else {
            0u8
        }) | (if r.download_bps != 0 {
            2u8
        } else {
            0u8
        });
        if required == 0 && r.internet_disabled && (text_is(&result.state, "pending_new_connections")
            || text_is(&result.state, "verified")) {
            state = "applied".to_owned();
            reason = None;
        } else if required != 0 && text_is(&result.state, "pending_new_connections") {
            if verified & required == required {
                state = "verified".to_owned();
                reason = None;
            } else if verified != 0 {
                reason = Some("direction_verification_pending".to_owned());
            }
        }
    }
    let mut queue_overflow = false;
    match crate::keyed::find_name(&result.verification_failures, identity_key) {
        Some(k) => {
            let failure = &result.verification_failures[k].value;
            state = "error".to_owned();
            reason = Some(failure.clone());
            queue_overflow = text_is(failure, "queue_overflow");
        },
        None => {},
    }
    if ambiguous {
        state = "error".to_owned();
        reason = Some("ambiguous_identity".to_owned());
    } else if addr_unavailable {
        state = "error".to_owned();
        reason = Some("identity_address_unavailable".to_owned());
    } else if if_unavailable {
        state = "error".to_owned();
        reason = Some("identity_interface_unavailable".to_owned());
    } else if preempted {
        state = "error".to_owned();
        reason = Some("dae_upload_preempts_control".to_owned());
    }
    ClientControlSummary {
        configured,
        upload_bps: match rule {
            Some(r) => r.upload_bps,
            None => 0,
        },
        download_bps: match rule {
            Some(r) => r.download_bps,
            None => 0,
        },
        internet_disabled: match rule {
            Some(r) => r.internet_disabled,
            None => false,
        },
        shaping_supported: result.shaping_supported && !ambiguous,
        blocking_supported: result.blocking_supported && !ambiguous,
        max_rate_bps,
        state,
        reason,
        queue_overflow,
    }
}

} // verus!
