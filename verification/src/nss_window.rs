use vstd::prelude::*;
use crate::keyed::{
    find_name, lemma_name_lookup_in, lemma_name_upsert_preserves, name_index, name_lookup, name_sorted_upsert, name_upsert, names_view, sorted_upsert_name,
    upsert_name, Named, NamedView,
};
use crate::ecm_node::{
    nodes_view, spec_fcs_normalized, zero_counters, NodeCounters, NodeCountersView, NodeSnapshot,
    TrafficCounters,
};

verus! {

pub const NODE_BASELINE_RETENTION_MS: u64 = 60_000;
pub const RATE_HOLD_MS: u64 = 1_500;
pub const MAX_RATE_WINDOW_MS: u64 = 5_000;
pub const COVERAGE_CATCHUP_TIMEOUT_MS: u64 = 5_000;
pub const UNOWNED_SETTLE_MS: u64 = 2_500;
pub const MIN_COVERAGE_BYTES: u64 = 131_072;
pub const MIN_OWNERSHIP_PERCENT: u64 = 90;

// ---------------------------------------------------------------------------
// Counter arithmetic
// ---------------------------------------------------------------------------

/// `a + b`, held at `u64::MAX`.
pub open spec fn sat_add(a: u64, b: u64) -> u64 {
    if a + b > u64::MAX { u64::MAX } else { (a + b) as u64 }
}

/// `a - b`, held at zero.
pub open spec fn sat_sub(a: u64, b: u64) -> u64 {
    if a >= b { (a - b) as u64 } else { 0 }
}

pub open spec fn min_u64(a: u64, b: u64) -> u64 {
    if a <= b { a } else { b }
}

pub open spec fn max_u64(a: u64, b: u64) -> u64 {
    if a >= b { a } else { b }
}

/// Field-wise saturating sum of two counter sets.
pub open spec fn spec_add(a: TrafficCounters, b: TrafficCounters) -> TrafficCounters {
    TrafficCounters {
        tx_bytes: sat_add(a.tx_bytes, b.tx_bytes),
        rx_bytes: sat_add(a.rx_bytes, b.rx_bytes),
        tx_packets: sat_add(a.tx_packets, b.tx_packets),
        rx_packets: sat_add(a.rx_packets, b.rx_packets),
    }
}

/// `current - previous` field by field; `None` when any counter went back.
pub open spec fn spec_checked_delta(current: TrafficCounters, previous: TrafficCounters) -> Option<
    TrafficCounters,
> {
    if current.tx_bytes >= previous.tx_bytes && current.rx_bytes >= previous.rx_bytes
        && current.tx_packets >= previous.tx_packets && current.rx_packets
        >= previous.rx_packets {
        Some(
            TrafficCounters {
                tx_bytes: (current.tx_bytes - previous.tx_bytes) as u64,
                rx_bytes: (current.rx_bytes - previous.rx_bytes) as u64,
                tx_packets: (current.tx_packets - previous.tx_packets) as u64,
                rx_packets: (current.rx_packets - previous.rx_packets) as u64,
            },
        )
    } else {
        None
    }
}

pub open spec fn spec_has_traffic(v: TrafficCounters) -> bool {
    v.tx_bytes != 0 || v.rx_bytes != 0 || v.tx_packets != 0 || v.rx_packets != 0
}

/// Every client counter fits under the LAN counter of the opposite direction.
pub open spec fn spec_directional_coverage_ready(client: TrafficCounters, lan: TrafficCounters) -> bool {
    client.tx_bytes <= lan.rx_bytes && client.tx_packets <= lan.rx_packets && client.rx_bytes
        <= lan.tx_bytes && client.rx_packets <= lan.tx_packets
}

/// At least 90% of the denominator (client total, or LAN total) is matched by
/// the per-direction minimum of client and LAN counters.
pub open spec fn spec_overlap_percent_ready(
    client_tx: u64,
    client_rx: u64,
    lan_rx: u64,
    lan_tx: u64,
    against_client: bool,
) -> bool {
    let matched = sat_add(min_u64(client_tx, lan_rx), min_u64(client_rx, lan_tx));
    let denominator = if against_client {
        sat_add(client_tx, client_rx)
    } else {
        sat_add(lan_rx, lan_tx)
    };
    matched * 100 >= denominator * MIN_OWNERSHIP_PERCENT
}

pub open spec fn spec_aggregate_client_clock_ready(client: TrafficCounters, lan: TrafficCounters) -> bool {
    spec_overlap_percent_ready(client.tx_bytes, client.rx_bytes, lan.rx_bytes, lan.tx_bytes, true)
        && spec_overlap_percent_ready(
        client.tx_packets,
        client.rx_packets,
        lan.rx_packets,
        lan.tx_packets,
        true,
    )
}

pub open spec fn spec_aggregate_lan_ownership_ready(client: TrafficCounters, lan: TrafficCounters) -> bool {
    spec_overlap_percent_ready(client.tx_bytes, client.rx_bytes, lan.rx_bytes, lan.tx_bytes, false)
        && spec_overlap_percent_ready(
        client.tx_packets,
        client.rx_packets,
        lan.rx_packets,
        lan.tx_packets,
        false,
    )
}

/// Both directions' normalized bytes, summed; `u64::MAX` when normalization overflows.
pub open spec fn spec_total_bytes(v: TrafficCounters) -> u64 {
    match spec_fcs_normalized(v) {
        Some(n) => sat_add(n.tx_bytes, n.rx_bytes),
        None => u64::MAX,
    }
}

/// Neither side moved enough bytes for a meaningful ownership ratio.
pub open spec fn spec_is_low_traffic_pair(client: TrafficCounters, lan: TrafficCounters) -> bool {
    max_u64(spec_total_bytes(client), spec_total_bytes(lan)) < MIN_COVERAGE_BYTES
}

pub open spec fn spec_fits_lan_clock(client: TrafficCounters, lan: TrafficCounters) -> bool {
    if spec_is_low_traffic_pair(client, lan) {
        spec_directional_coverage_ready(client, lan)
    } else {
        spec_aggregate_client_clock_ready(client, lan)
    }
}

pub open spec fn spec_ownership_ready(client: TrafficCounters, lan: TrafficCounters) -> bool {
    spec_is_low_traffic_pair(client, lan) || (spec_aggregate_client_clock_ready(client, lan)
        && spec_aggregate_lan_ownership_ready(client, lan))
}

/// Bits per second of `bytes` over `window_ms`, held at `u64::MAX`; zero for an empty window.
pub open spec fn spec_rate(bytes: u64, window_ms: u64) -> u64 {
    if window_ms == 0 {
        0
    } else {
        let scaled = (bytes * 8000) / (window_ms as int);
        if scaled > u64::MAX { u64::MAX } else { scaled as u64 }
    }
}

/// `numerator` as a whole percentage of `denominator`, rounded down; `None`
/// for a zero denominator or a numerator above it.
pub open spec fn spec_percentage(numerator: u64, denominator: u64) -> Option<u8> {
    if denominator == 0 || numerator > denominator {
        None
    } else {
        Some(((numerator * 100) / (denominator as int)) as u8)
    }
}

pub fn saturating_add(a: u64, b: u64) -> (r: u64)
    ensures
        r == sat_add(a, b),
{
    if a > u64::MAX - b { u64::MAX } else { a + b }
}

pub fn saturating_sub(a: u64, b: u64) -> (r: u64)
    ensures
        r == sat_sub(a, b),
{
    if a >= b { a - b } else { 0 }
}

fn min_of(a: u64, b: u64) -> (r: u64)
    ensures
        r == min_u64(a, b),
{
    if a <= b { a } else { b }
}

fn checked_delta(current: TrafficCounters, previous: TrafficCounters) -> (r: Option<TrafficCounters>)
    ensures
        r == spec_checked_delta(current, previous),
{
    if current.tx_bytes >= previous.tx_bytes && current.rx_bytes >= previous.rx_bytes
        && current.tx_packets >= previous.tx_packets && current.rx_packets
        >= previous.rx_packets {
        Some(
            TrafficCounters {
                tx_bytes: current.tx_bytes - previous.tx_bytes,
                rx_bytes: current.rx_bytes - previous.rx_bytes,
                tx_packets: current.tx_packets - previous.tx_packets,
                rx_packets: current.rx_packets - previous.rx_packets,
            },
        )
    } else {
        None
    }
}

fn add_assign(total: &mut TrafficCounters, value: TrafficCounters)
    ensures
        *final(total) == spec_add(*old(total), value),
{
    total.tx_bytes = saturating_add(total.tx_bytes, value.tx_bytes);
    total.rx_bytes = saturating_add(total.rx_bytes, value.rx_bytes);
    total.tx_packets = saturating_add(total.tx_packets, value.tx_packets);
    total.rx_packets = saturating_add(total.rx_packets, value.rx_packets);
}

fn has_traffic(value: &TrafficCounters) -> (r: bool)
    ensures
        r == spec_has_traffic(*value),
{
    value.tx_bytes != 0 || value.rx_bytes != 0 || value.tx_packets != 0 || value.rx_packets != 0
}

pub fn directional_coverage_ready(client: TrafficCounters, lan: TrafficCounters) -> (r: bool)
    ensures
        r == spec_directional_coverage_ready(client, lan),
{
    client.tx_bytes <= lan.rx_bytes && client.tx_packets <= lan.rx_packets && client.rx_bytes
        <= lan.tx_bytes && client.rx_packets <= lan.tx_packets
}

fn overlap_percent_ready(
    client_tx: u64,
    client_rx: u64,
    lan_rx: u64,
    lan_tx: u64,
    against_client: bool,
) -> (r: bool)
    ensures
        r == spec_overlap_percent_ready(client_tx, client_rx, lan_rx, lan_tx, against_client),
{
    let matched = saturating_add(min_of(client_tx, lan_rx), min_of(client_rx, lan_tx));
    let denominator = if against_client {
        saturating_add(client_tx, client_rx)
    } else {
        saturating_add(lan_rx, lan_tx)
    };
    (matched as u128) * 100 >= (denominator as u128) * 90
}

fn aggregate_client_clock_ready(client: TrafficCounters, lan: TrafficCounters) -> (r: bool)
    ensures
        r == spec_aggregate_client_clock_ready(client, lan),
{
    overlap_percent_ready(client.tx_bytes, client.rx_bytes, lan.rx_bytes, lan.tx_bytes, true)
        && overlap_percent_ready(
        client.tx_packets,
        client.rx_packets,
        lan.rx_packets,
        lan.tx_packets,
        true,
    )
}

fn aggregate_lan_ownership_ready(client: TrafficCounters, lan: TrafficCounters) -> (r: bool)
    ensures
        r == spec_aggregate_lan_ownership_ready(client, lan),
{
    overlap_percent_ready(client.tx_bytes, client.rx_bytes, lan.rx_bytes, lan.tx_bytes, false)
        && overlap_percent_ready(
        client.tx_packets,
        client.rx_packets,
        lan.rx_packets,
        lan.tx_packets,
        false,
    )
}

fn total_bytes(value: TrafficCounters) -> (r: u64)
    ensures
        r == spec_total_bytes(value),
{
    match value.fcs_normalized() {
        Some(n) => saturating_add(n.tx_bytes, n.rx_bytes),
        None => u64::MAX,
    }
}

pub fn is_low_traffic_pair(client: TrafficCounters, lan: TrafficCounters) -> (r: bool)
    ensures
        r == spec_is_low_traffic_pair(client, lan),
{
    let c = total_bytes(client);
    let l = total_bytes(lan);
    let larger = if c >= l { c } else { l };
    larger < MIN_COVERAGE_BYTES
}

/// Whether the client counters fit inside the LAN counters of the same window.
pub fn fits_lan_clock(client: TrafficCounters, lan: TrafficCounters) -> (r: bool)
    ensures
        r == spec_fits_lan_clock(client, lan),
{
    if is_low_traffic_pair(client, lan) {
        return directional_coverage_ready(client, lan);
    }
    aggregate_client_clock_ready(client, lan)
}

/// Whether the clients own enough of the LAN traffic for a coverage ratio.
pub fn ownership_ready(client: TrafficCounters, lan: TrafficCounters) -> (r: bool)
    ensures
        r == spec_ownership_ready(client, lan),
{
    is_low_traffic_pair(client, lan) || (aggregate_client_clock_ready(client, lan)
        && aggregate_lan_ownership_ready(client, lan))
}

/// Bits per second of `bytes` moved over `window_ms` milliseconds.
pub fn rate(bytes: u64, window_ms: u64) -> (r: u64)
    ensures
        r == spec_rate(bytes, window_ms),
{
    if window_ms == 0 {
        return 0;
    }
    let scaled: u128 = (bytes as u128) * 8000 / (window_ms as u128);
    if scaled > u64::MAX as u128 {
        u64::MAX
    } else {
        scaled as u64
    }
}

proof fn lemma_percentage_bound(n: u64, d: u64)
    requires
        0 < d,
        n <= d,
    ensures
        0 <= (n * 100) / (d as int) <= 100,
{
    assert((n * 100) / (d as int) <= 100) by (nonlinear_arith)
        requires
            0 < d,
            n <= d,
    ;
    assert(0 <= (n * 100) / (d as int)) by (nonlinear_arith)
        requires
            0 < d,
    ;
}

/// `numerator` as a whole percentage of `denominator`.
pub fn percentage(numerator: u64, denominator: u64) -> (r: Option<u8>)
    ensures
        r == spec_percentage(numerator, denominator),
        r matches Some(p) ==> p <= 100,
{
    if denominator == 0 || numerator > denominator {
        return None;
    }
    proof {
        lemma_percentage_bound(numerator, denominator);
    }
    let value: u128 = (numerator as u128) * 100 / (denominator as u128);
    Some(value as u8)
}

} // verus!

verus! {

// ---------------------------------------------------------------------------
// Windows and their quality
// ---------------------------------------------------------------------------

/// The LAN boundary counters at one instant.
#[derive(Clone, Debug, PartialEq, Eq)]
pub struct LanClock {
    pub interface: String,
    pub sample_ms: u64,
    pub counters: TrafficCounters,
}

/// A LAN clock with its interface name taken by value.
#[verifier::ext_equal]
pub struct LanClockView {
    pub interface: Seq<char>,
    pub sample_ms: u64,
    pub counters: TrafficCounters,
}

impl View for LanClock {
    type V = LanClockView;

    open spec fn view(&self) -> LanClockView {
        LanClockView {
            interface: self.interface@,
            sample_ms: self.sample_ms,
            counters: self.counters,
        }
    }
}

fn copy_lan(lan: &LanClock) -> (r: LanClock)
    ensures
        r@ == lan@,
{
    LanClock { interface: lan.interface.clone(), sample_ms: lan.sample_ms, counters: lan.counters }
}

#[derive(Clone, Copy, Debug, PartialEq, Eq, Structural)]
pub enum WindowQuality {
    Warmup,
    Pending,
    Okay,
    Idle,
    LowTraffic,
    CounterReset,
    CounterSkew,
}

/// The public name of a window quality.
pub open spec fn quality_name(q: WindowQuality) -> Seq<char> {
    match q {
        WindowQuality::Warmup => "warmup"@,
        WindowQuality::Pending => "pending"@,
        WindowQuality::Okay => "ok"@,
        WindowQuality::Idle => "idle"@,
        WindowQuality::LowTraffic => "low_traffic"@,
        WindowQuality::CounterReset => "counter_reset"@,
        WindowQuality::CounterSkew => "counter_skew"@,
    }
}

impl WindowQuality {
    pub fn as_str(self) -> (r: &'static str)
        ensures
            r@ == quality_name(self),
    {
        match self {
            WindowQuality::Warmup => "warmup",
            WindowQuality::Pending => "pending",
            WindowQuality::Okay => "ok",
            WindowQuality::Idle => "idle",
            WindowQuality::LowTraffic => "low_traffic",
            WindowQuality::CounterReset => "counter_reset",
            WindowQuality::CounterSkew => "counter_skew",
        }
    }
}

/// The LAN coverage of the client counters over one window.
#[derive(Clone, Debug, PartialEq, Eq)]
pub struct CoverageWindow {
    pub quality: WindowQuality,
    pub reason: &'static str,
    pub start_ms: u64,
    pub end_ms: u64,
    pub client_raw: TrafficCounters,
    pub client_normalized: TrafficCounters,
    pub lan_raw: TrafficCounters,
    pub lan_normalized: TrafficCounters,
    pub tx_pct: Option<u8>,
    pub rx_pct: Option<u8>,
    pub retained_tx_pct: Option<u8>,
    pub retained_rx_pct: Option<u8>,
    pub aligned: bool,
}

impl CoverageWindow {
    pub fn window_ms(&self) -> (r: u64)
        ensures
            r == sat_sub(self.end_ms, self.start_ms),
    {
        saturating_sub(self.end_ms, self.start_ms)
    }
}

/// A window with no traffic, opened and closed at `sample_ms`.
pub open spec fn spec_empty_window(
    quality: WindowQuality,
    reason: &'static str,
    sample_ms: u64,
) -> CoverageWindow {
    CoverageWindow {
        quality,
        reason,
        start_ms: sample_ms,
        end_ms: sample_ms,
        client_raw: zero_counters(),
        client_normalized: zero_counters(),
        lan_raw: zero_counters(),
        lan_normalized: zero_counters(),
        tx_pct: None,
        rx_pct: None,
        retained_tx_pct: None,
        retained_rx_pct: None,
        aligned: false,
    }
}

fn empty_window(quality: WindowQuality, reason: &'static str, sample_ms: u64) -> (r: CoverageWindow)
    ensures
        r == spec_empty_window(quality, reason, sample_ms),
{
    CoverageWindow {
        quality,
        reason,
        start_ms: sample_ms,
        end_ms: sample_ms,
        client_raw: TrafficCounters::default(),
        client_normalized: TrafficCounters::default(),
        lan_raw: TrafficCounters::default(),
        lan_normalized: TrafficCounters::default(),
        tx_pct: None,
        rx_pct: None,
        retained_tx_pct: None,
        retained_rx_pct: None,
        aligned: false,
    }
}

/// The window from `start` to `end`; its percentages are given only when aligned.
pub open spec fn spec_coverage_window(
    quality: WindowQuality,
    reason: &'static str,
    start: LanClockView,
    end: LanClockView,
    client_raw: TrafficCounters,
    client_normalized: TrafficCounters,
    lan_raw: TrafficCounters,
    lan_normalized: TrafficCounters,
    aligned: bool,
) -> CoverageWindow {
    CoverageWindow {
        quality,
        reason,
        start_ms: start.sample_ms,
        end_ms: end.sample_ms,
        client_raw,
        client_normalized,
        lan_raw,
        lan_normalized,
        tx_pct: if aligned {
            spec_percentage(client_normalized.tx_bytes, lan_normalized.rx_bytes)
        } else {
            None
        },
        rx_pct: if aligned {
            spec_percentage(client_normalized.rx_bytes, lan_normalized.tx_bytes)
        } else {
            None
        },
        retained_tx_pct: None,
        retained_rx_pct: None,
        aligned,
    }
}

fn coverage_window(
    quality: WindowQuality,
    reason: &'static str,
    start: &LanClock,
    end: &LanClock,
    client_raw: TrafficCounters,
    client_normalized: TrafficCounters,
    lan_raw: TrafficCounters,
    lan_normalized: TrafficCounters,
    aligned: bool,
) -> (r: CoverageWindow)
    ensures
        r == spec_coverage_window(
            quality,
            reason,
            start@,
            end@,
            client_raw,
            client_normalized,
            lan_raw,
            lan_normalized,
            aligned,
        ),
{
    let tx_pct = if aligned {
        percentage(client_normalized.tx_bytes, lan_normalized.rx_bytes)
    } else {
        None
    };
    let rx_pct = if aligned {
        percentage(client_normalized.rx_bytes, lan_normalized.tx_bytes)
    } else {
        None
    };
    CoverageWindow {
        quality,
        reason,
        start_ms: start.sample_ms,
        end_ms: end.sample_ms,
        client_raw,
        client_normalized,
        lan_raw,
        lan_normalized,
        tx_pct,
        rx_pct,
        retained_tx_pct: None,
        retained_rx_pct: None,
        aligned,
    }
}

// ---------------------------------------------------------------------------
// Coverage book
// ---------------------------------------------------------------------------

/// Pairs client counter deltas with the LAN boundary counters until the two
/// agree on one window.
#[derive(Clone, Debug)]
pub struct NssCoverageBook {
    start: Option<LanClock>,
    pending_since_ms: Option<u64>,
    pending_client: TrafficCounters,
    last_reported: Option<(Option<u8>, Option<u8>)>,
}

/// What a coverage book holds.
#[verifier::ext_equal]
pub struct CoverageState {
    pub start: Option<LanClockView>,
    pub pending_since_ms: Option<u64>,
    pub pending_client: TrafficCounters,
    pub last_reported: Option<(Option<u8>, Option<u8>)>,
}

pub open spec fn opt_lan_view(o: Option<LanClock>) -> Option<LanClockView> {
    match o {
        Some(l) => Some(l@),
        None => None,
    }
}

impl View for NssCoverageBook {
    type V = CoverageState;

    closed spec fn view(&self) -> CoverageState {
        CoverageState {
            start: opt_lan_view(self.start),
            pending_since_ms: self.pending_since_ms,
            pending_client: self.pending_client,
            last_reported: self.last_reported,
        }
    }
}

/// A book that has seen no LAN clock yet.
pub open spec fn initial_coverage() -> CoverageState {
    CoverageState {
        start: None,
        pending_since_ms: None,
        pending_client: zero_counters(),
        last_reported: None,
    }
}

/// The book restarted at `lan`, keeping the last reported percentages.
pub open spec fn coverage_rebaselined(m: CoverageState, lan: LanClockView) -> CoverageState {
    CoverageState {
        start: Some(lan),
        pending_since_ms: None,
        pending_client: zero_counters(),
        last_reported: m.last_reported,
    }
}

/// The book restarted at `lan`, forgetting the last reported percentages.
pub open spec fn coverage_cleared(lan: LanClockView) -> CoverageState {
    CoverageState {
        start: Some(lan),
        pending_since_ms: None,
        pending_client: zero_counters(),
        last_reported: None,
    }
}

/// The window with the book's last reported percentages attached, if any.
pub open spec fn spec_with_last_reported(m: CoverageState, w: CoverageWindow) -> CoverageWindow {
    match m.last_reported {
        Some((tx, rx)) => CoverageWindow { retained_tx_pct: tx, retained_rx_pct: rx, ..w },
        None => w,
    }
}

/// Whether raw and normalized client and LAN counters agree on one window.
pub open spec fn spec_coverage_aligned(
    client_raw: TrafficCounters,
    client_normalized: TrafficCounters,
    lan_raw: TrafficCounters,
    lan_normalized: TrafficCounters,
) -> bool {
    spec_fits_lan_clock(client_raw, lan_raw) && spec_fits_lan_clock(
        client_normalized,
        lan_normalized,
    ) && spec_ownership_ready(client_normalized, lan_normalized)
        && spec_directional_coverage_ready(client_raw, lan_raw)
        && spec_directional_coverage_ready(client_normalized, lan_normalized)
}

/// The quality of an aligned window by its normalized LAN bytes.
pub open spec fn spec_aligned_quality(lan_normalized: TrafficCounters) -> WindowQuality {
    let denominator = sat_add(lan_normalized.rx_bytes, lan_normalized.tx_bytes);
    if denominator == 0 {
        WindowQuality::Idle
    } else if denominator < MIN_COVERAGE_BYTES {
        WindowQuality::LowTraffic
    } else {
        WindowQuality::Okay
    }
}

/// One coverage step: the next book and the window it reports.
pub open spec fn spec_coverage_update(
    m: CoverageState,
    client_delta: TrafficCounters,
    lan: LanClockView,
) -> (CoverageState, CoverageWindow) {
    match m.start {
        None => (
            coverage_cleared(lan),
            spec_empty_window(WindowQuality::Warmup, "cold_start", lan.sample_ms),
        ),
        Some(start) => if start.interface != lan.interface {
            (
                coverage_cleared(lan),
                spec_empty_window(WindowQuality::CounterReset, "lan_boundary_changed", lan.sample_ms),
            )
        } else if lan.sample_ms <= start.sample_ms {
            (
                coverage_cleared(lan),
                spec_empty_window(WindowQuality::CounterReset, "sample_clock_reset", lan.sample_ms),
            )
        } else {
            let client_raw = spec_add(m.pending_client, client_delta);
            match spec_checked_delta(lan.counters, start.counters) {
                None => (
                    coverage_cleared(lan),
                    spec_empty_window(
                        WindowQuality::CounterReset,
                        "lan_coverage_counter_reset",
                        lan.sample_ms,
                    ),
                ),
                Some(lan_raw) => match spec_fcs_normalized(client_raw) {
                    None => (
                        coverage_cleared(lan),
                        spec_coverage_window(
                            WindowQuality::CounterSkew,
                            "client_fcs_overflow",
                            start,
                            lan,
                            client_raw,
                            zero_counters(),
                            lan_raw,
                            match spec_fcs_normalized(lan_raw) {
                                Some(n) => n,
                                None => zero_counters(),
                            },
                            false,
                        ),
                    ),
                    Some(client_normalized) => match spec_fcs_normalized(lan_raw) {
                        None => (
                            coverage_cleared(lan),
                            spec_coverage_window(
                                WindowQuality::CounterSkew,
                                "lan_fcs_overflow",
                                start,
                                lan,
                                client_raw,
                                client_normalized,
                                lan_raw,
                                zero_counters(),
                                false,
                            ),
                        ),
                        Some(lan_normalized) => if spec_coverage_aligned(
                            client_raw,
                            client_normalized,
                            lan_raw,
                            lan_normalized,
                        ) {
                            let quality = spec_aligned_quality(lan_normalized);
                            let output = spec_coverage_window(
                                quality,
                                "lan_coverage_aligned",
                                start,
                                lan,
                                client_raw,
                                client_normalized,
                                lan_raw,
                                lan_normalized,
                                true,
                            );
                            let reported = if quality == WindowQuality::Idle {
                                None
                            } else if output.tx_pct is Some || output.rx_pct is Some {
                                Some((output.tx_pct, output.rx_pct))
                            } else {
                                m.last_reported
                            };
                            (
                                coverage_rebaselined(
                                    CoverageState { last_reported: reported, ..m },
                                    lan,
                                ),
                                output,
                            )
                        } else {
                            let pending_since = match m.pending_since_ms {
                                Some(p) => p,
                                None => lan.sample_ms,
                            };
                            let waiting = CoverageState {
                                pending_since_ms: Some(pending_since),
                                pending_client: client_raw,
                                ..m
                            };
                            let timeout = if !spec_has_traffic(client_raw) && spec_has_traffic(
                                lan_raw,
                            ) {
                                UNOWNED_SETTLE_MS
                            } else {
                                COVERAGE_CATCHUP_TIMEOUT_MS
                            };
                            if sat_sub(lan.sample_ms, pending_since) <= timeout {
                                (
                                    waiting,
                                    spec_with_last_reported(
                                        waiting,
                                        spec_coverage_window(
                                            WindowQuality::Pending,
                                            "lan_coverage_pending",
                                            start,
                                            lan,
                                            client_raw,
                                            client_normalized,
                                            lan_raw,
                                            lan_normalized,
                                            false,
                                        ),
                                    ),
                                )
                            } else {
                                let low = spec_is_low_traffic_pair(client_raw, lan_raw);
                                (
                                    coverage_rebaselined(waiting, lan),
                                    spec_with_last_reported(
                                        waiting,
                                        spec_coverage_window(
                                            if low {
                                                WindowQuality::LowTraffic
                                            } else {
                                                WindowQuality::CounterSkew
                                            },
                                            if low {
                                                "low_traffic_coverage_rebaseline"
                                            } else {
                                                "lan_coverage_timeout"
                                            },
                                            start,
                                            lan,
                                            client_raw,
                                            client_normalized,
                                            lan_raw,
                                            lan_normalized,
                                            false,
                                        ),
                                    ),
                                )
                            }
                        },
                    },
                },
            }
        },
    }
}

impl Default for NssCoverageBook {
    fn default() -> (r: Self)
        ensures
            r@ == initial_coverage(),
    {
        NssCoverageBook {
            start: None,
            pending_since_ms: None,
            pending_client: TrafficCounters::default(),
            last_reported: None,
        }
    }
}

impl NssCoverageBook {
    /// Adds `client_delta` to the pending client counters and reports how
    /// much of the LAN traffic since the window start the clients account for.
    pub fn update(&mut self, client_delta: TrafficCounters, lan: &LanClock) -> (r: CoverageWindow)
        ensures
            (final(self)@, r) == spec_coverage_update(old(self)@, client_delta, lan@),
    {
        let start = match &self.start {
            Some(s) => copy_lan(s),
            None => {
                self.clear(copy_lan(lan));
                return empty_window(WindowQuality::Warmup, "cold_start", lan.sample_ms);
            },
        };
        if start.interface != lan.interface {
            self.clear(copy_lan(lan));
            return empty_window(WindowQuality::CounterReset, "lan_boundary_changed", lan.sample_ms);
        }
        if lan.sample_ms <= start.sample_ms {
            self.clear(copy_lan(lan));
            return empty_window(WindowQuality::CounterReset, "sample_clock_reset", lan.sample_ms);
        }
        add_assign(&mut self.pending_client, client_delta);
        let client_raw = self.pending_client;
        let lan_raw = match checked_delta(lan.counters, start.counters) {
            Some(d) => d,
            None => {
                self.clear(copy_lan(lan));
                return empty_window(
                    WindowQuality::CounterReset,
                    "lan_coverage_counter_reset",
                    lan.sample_ms,
                );
            },
        };
        let client_normalized = match client_raw.fcs_normalized() {
            Some(n) => n,
            None => {
                self.clear(copy_lan(lan));
                let lan_normalized = match lan_raw.fcs_normalized() {
                    Some(n) => n,
                    None => TrafficCounters::default(),
                };
                return coverage_window(
                    WindowQuality::CounterSkew,
                    "client_fcs_overflow",
                    &start,
                    lan,
                    client_raw,
                    TrafficCounters::default(),
                    lan_raw,
                    lan_normalized,
                    false,
                );
            },
        };
        let lan_normalized = match lan_raw.fcs_normalized() {
            Some(n) => n,
            None => {
                self.clear(copy_lan(lan));
                return coverage_window(
                    WindowQuality::CounterSkew,
                    "lan_fcs_overflow",
                    &start,
                    lan,
                    client_raw,
                    client_normalized,
                    lan_raw,
                    TrafficCounters::default(),
                    false,
                );
            },
        };

        let aligned = fits_lan_clock(client_raw, lan_raw) && fits_lan_clock(
            client_normalized,
            lan_normalized,
        ) && ownership_ready(client_normalized, lan_normalized) && directional_coverage_ready(
            client_raw,
            lan_raw,
        ) && directional_coverage_ready(client_normalized, lan_normalized);
        if aligned {
            let denominator = saturating_add(lan_normalized.rx_bytes, lan_normalized.tx_bytes);
            let quality = if denominator == 0 {
                WindowQuality::Idle
            } else if denominator < MIN_COVERAGE_BYTES {
                WindowQuality::LowTraffic
            } else {
                WindowQuality::Okay
            };
            let output = coverage_window(
                quality,
                "lan_coverage_aligned",
                &start,
                lan,
                client_raw,
                client_normalized,
                lan_raw,
                lan_normalized,
                true,
            );
            if quality == WindowQuality::Idle {
                self.last_reported = None;
            } else if output.tx_pct.is_some() || output.rx_pct.is_some() {
                self.last_reported = Some((output.tx_pct, output.rx_pct));
            }
            self.rebaseline(copy_lan(lan));
            return output;
        }

        let pending_since = match self.pending_since_ms {
            Some(p) => p,
            None => lan.sample_ms,
        };
        self.pending_since_ms = Some(pending_since);
        let timeout = if !has_traffic(&client_raw) && has_traffic(&lan_raw) {
            UNOWNED_SETTLE_MS
        } else {
            COVERAGE_CATCHUP_TIMEOUT_MS
        };
        if saturating_sub(lan.sample_ms, pending_since) <= timeout {
            let window = coverage_window(
                WindowQuality::Pending,
                "lan_coverage_pending",
                &start,
                lan,
                client_raw,
                client_normalized,
                lan_raw,
                lan_normalized,
                false,
            );
            return self.with_last_reported(window);
        }
        let low = is_low_traffic_pair(client_raw, lan_raw);
        let quality = if low {
            WindowQuality::LowTraffic
        } else {
            WindowQuality::CounterSkew
        };
        let reason = if low {
            "low_traffic_coverage_rebaseline"
        } else {
            "lan_coverage_timeout"
        };
        let window = coverage_window(
            quality,
            reason,
            &start,
            lan,
            client_raw,
            client_normalized,
            lan_raw,
            lan_normalized,
            false,
        );
        let output = self.with_last_reported(window);
        self.rebaseline(copy_lan(lan));
        output
    }

    fn with_last_reported(&self, coverage: CoverageWindow) -> (r: CoverageWindow)
        ensures
            r == spec_with_last_reported(self@, coverage),
    {
        match self.last_reported {
            Some((tx_pct, rx_pct)) => CoverageWindow {
                retained_tx_pct: tx_pct,
                retained_rx_pct: rx_pct,
                ..coverage
            },
            None => coverage,
        }
    }

    fn clear(&mut self, lan: LanClock)
        ensures
            final(self)@ == coverage_cleared(lan@),
    {
        self.rebaseline(lan);
        self.last_reported = None;
    }

    fn rebaseline(&mut self, lan: LanClock)
        ensures
            final(self)@ == coverage_rebaselined(old(self)@, lan@),
    {
        self.start = Some(lan);
        self.pending_since_ms = None;
        self.pending_client = TrafficCounters::default();
    }
}

} // verus!

verus! {

// ---------------------------------------------------------------------------
// Per-node and per-client records
// ---------------------------------------------------------------------------

/// A value filed under a node: a client identity and a connection generation.
#[derive(Clone, Debug)]
pub struct NodeKeyed<T> {
    pub identity: String,
    pub generation: u64,
    pub value: T,
}

#[verifier::ext_equal]
pub struct NodeKeyedView<T> {
    pub identity: Seq<char>,
    pub generation: u64,
    pub value: T,
}

impl<T> View for NodeKeyed<T> {
    type V = NodeKeyedView<T>;

    open spec fn view(&self) -> NodeKeyedView<T> {
        NodeKeyedView { identity: self.identity@, generation: self.generation, value: self.value }
    }
}

pub open spec fn nodes_keyed_view<T>(v: Seq<NodeKeyed<T>>) -> Seq<NodeKeyedView<T>> {
    v.map_values(|e: NodeKeyed<T>| e@)
}

pub open spec fn is_first_node<T>(
    s: Seq<NodeKeyedView<T>>,
    identity: Seq<char>,
    generation: u64,
    i: int,
) -> bool {
    &&& 0 <= i < s.len()
    &&& s[i].identity == identity && s[i].generation == generation
    &&& forall|j: int|
        0 <= j < i ==> !(s[j].identity == identity && s[j].generation == generation)
}

/// The first position that holds the node, or -1.
pub open spec fn node_index<T>(s: Seq<NodeKeyedView<T>>, identity: Seq<char>, generation: u64) -> int {
    if exists|i: int| is_first_node(s, identity, generation, i) {
        choose|i: int| is_first_node(s, identity, generation, i)
    } else {
        -1
    }
}

/// The value filed under the node, if any.
pub open spec fn node_lookup<T>(s: Seq<NodeKeyedView<T>>, identity: Seq<char>, generation: u64) -> Option<T> {
    let i = node_index(s, identity, generation);
    if i >= 0 {
        Some(s[i].value)
    } else {
        None
    }
}

/// The node refiled with `value`: in place where it is, else appended.
pub open spec fn node_upsert<T>(
    s: Seq<NodeKeyedView<T>>,
    identity: Seq<char>,
    generation: u64,
    value: T,
) -> Seq<NodeKeyedView<T>> {
    let i = node_index(s, identity, generation);
    if i >= 0 {
        s.update(i, NodeKeyedView { identity, generation, value })
    } else {
        s.push(NodeKeyedView { identity, generation, value })
    }
}

proof fn lemma_node_index_found<T>(s: Seq<NodeKeyedView<T>>, identity: Seq<char>, generation: u64, i: int)
    requires
        is_first_node(s, identity, generation, i),
    ensures
        node_index(s, identity, generation) == i,
{
    let c = choose|c: int| is_first_node(s, identity, generation, c);
    assert(is_first_node(s, identity, generation, c));
    if c < i {
        assert(!(s[c].identity == identity && s[c].generation == generation));
    } else if c > i {
        assert(!(s[i].identity == identity && s[i].generation == generation));
    }
}

fn find_node<T>(v: &Vec<NodeKeyed<T>>, identity: &String, generation: u64) -> (r: Option<usize>)
    ensures
        match r {
            Some(i) => i as int == node_index(nodes_keyed_view(v@), identity@, generation) && i
                < v@.len(),
            None => node_index(nodes_keyed_view(v@), identity@, generation) == -1,
        },
{
    let ghost s = nodes_keyed_view(v@);
    let mut i: usize = 0;
    while i < v.len()
        invariant
            i <= v@.len(),
            s == nodes_keyed_view(v@),
            forall|j: int|
                0 <= j < i ==> !(s[j].identity == identity@ && s[j].generation == generation),
        decreases v@.len() - i,
    {
        if v[i].generation == generation && v[i].identity == *identity {
            proof {
                lemma_node_index_found(s, identity@, generation, i as int);
            }
            return Some(i);
        }
        i += 1;
    }
    None
}

fn upsert_node<T>(v: &mut Vec<NodeKeyed<T>>, identity: &String, generation: u64, value: T)
    ensures
        nodes_keyed_view(final(v)@) == node_upsert(
            nodes_keyed_view(old(v)@),
            identity@,
            generation,
            value,
        ),
{
    let ghost s = nodes_keyed_view(v@);
    match find_node(v, identity, generation) {
        Some(i) => {
            v[i] = NodeKeyed { identity: identity.clone(), generation, value };
            assert(nodes_keyed_view(v@) =~= s.update(
                i as int,
                NodeKeyedView { identity: identity@, generation, value },
            ));
        },
        None => {
            v.push(NodeKeyed { identity: identity.clone(), generation, value });
            assert(nodes_keyed_view(v@) =~= s.push(
                NodeKeyedView { identity: identity@, generation, value },
            ));
        },
    }
}

/// What the book last saw of one node.
#[derive(Clone, Copy, Debug, PartialEq, Eq, Structural)]
pub struct NodeBaseline {
    pub counters: TrafficCounters,
    pub last_seen_ms: u64,
    pub last_progress_ms: u64,
}

/// The last three rates of one node, for a median.
#[derive(Clone, Copy, Debug, PartialEq, Eq, Structural)]
pub struct NodeRateHistory {
    pub first: u64,
    pub second: u64,
    pub third: u64,
    pub len: u8,
    pub next: u8,
}

pub open spec fn empty_history() -> NodeRateHistory {
    NodeRateHistory { first: 0, second: 0, third: 0, len: 0, next: 0 }
}

/// The middle value of three.
pub open spec fn spec_median3(a: u64, b: u64, c: u64) -> u64 {
    max_u64(min_u64(a, b), min_u64(max_u64(a, b), c))
}

/// The history after recording `bps`, and the rate it publishes: `bps` itself
/// until three rates are recorded, then the median of the last three.
pub open spec fn spec_history_push(h: NodeRateHistory, bps: u64) -> (NodeRateHistory, u64) {
    let first = if h.next == 0 { bps } else { h.first };
    let second = if h.next == 1 { bps } else { h.second };
    let third = if h.next != 0 && h.next != 1 { bps } else { h.third };
    let next: u8 = if h.next == 0 { 1 } else if h.next == 1 { 2 } else { 0 };
    let len: u8 = if h.len < 3 { (h.len + 1) as u8 } else { h.len };
    let pushed = NodeRateHistory { first, second, third, len, next };
    (pushed, if len < 3 { bps } else { spec_median3(first, second, third) })
}

impl NodeRateHistory {
    fn new() -> (r: Self)
        ensures
            r == empty_history(),
    {
        NodeRateHistory { first: 0, second: 0, third: 0, len: 0, next: 0 }
    }

    fn push(&mut self, bps: u64) -> (r: u64)
        ensures
            (*final(self), r) == spec_history_push(*old(self), bps),
    {
        if self.next == 0 {
            self.first = bps;
        } else if self.next == 1 {
            self.second = bps;
        } else {
            self.third = bps;
        }
        self.next = if self.next == 0 {
            1
        } else if self.next == 1 {
            2
        } else {
            0
        };
        if self.len < 3 {
            self.len = self.len + 1;
        }
        if self.len < 3 {
            return bps;
        }
        median3(self.first, self.second, self.third)
    }
}

fn median3(a: u64, b: u64, c: u64) -> (r: u64)
    ensures
        r == spec_median3(a, b, c),
{
    let low = if a <= b { a } else { b };
    let high = if a >= b { a } else { b };
    let mid = if high <= c { high } else { c };
    if low >= mid { low } else { mid }
}

/// The rate last published for one client.
#[derive(Clone, Copy, Debug, PartialEq, Eq, Structural)]
pub struct PublishedClientRate {
    pub start_ms: u64,
    pub end_ms: u64,
    pub delta: TrafficCounters,
    pub tx_bps: u64,
    pub rx_bps: u64,
}

/// What one collection added for one client.
#[derive(Clone, Copy, Debug, PartialEq, Eq, Structural)]
pub struct ClientDelta {
    pub raw: TrafficCounters,
    pub normalized: TrafficCounters,
    pub start_ms: Option<u64>,
    pub tx_bps: u64,
    pub rx_bps: u64,
}

pub open spec fn empty_client_delta() -> ClientDelta {
    ClientDelta {
        raw: zero_counters(),
        normalized: zero_counters(),
        start_ms: None,
        tx_bps: 0,
        rx_bps: 0,
    }
}

/// One client in a published window.
#[derive(Clone, Debug, PartialEq, Eq)]
pub struct WindowClient {
    pub identity_key: String,
    pub delta: TrafficCounters,
    pub total: TrafficCounters,
    pub tx_bps: u64,
    pub rx_bps: u64,
}

#[verifier::ext_equal]
pub struct WindowClientView {
    pub identity_key: Seq<char>,
    pub delta: TrafficCounters,
    pub total: TrafficCounters,
    pub tx_bps: u64,
    pub rx_bps: u64,
}

impl View for WindowClient {
    type V = WindowClientView;

    open spec fn view(&self) -> WindowClientView {
        WindowClientView {
            identity_key: self.identity_key@,
            delta: self.delta,
            total: self.total,
            tx_bps: self.tx_bps,
            rx_bps: self.rx_bps,
        }
    }
}

/// The rates one update of the window book publishes.
#[derive(Clone, Debug, PartialEq, Eq)]
pub struct WindowOutput {
    pub quality: WindowQuality,
    pub reason: &'static str,
    pub start_ms: u64,
    pub end_ms: u64,
    pub clients: Vec<WindowClient>,
    pub fresh_rate_sample: bool,
    pub held_rate_age_ms: Option<u64>,
    pub coverage: CoverageWindow,
}

#[verifier::ext_equal]
pub struct WindowOutputView {
    pub quality: WindowQuality,
    pub reason: &'static str,
    pub start_ms: u64,
    pub end_ms: u64,
    pub clients: Seq<WindowClientView>,
    pub fresh_rate_sample: bool,
    pub held_rate_age_ms: Option<u64>,
    pub coverage: CoverageWindow,
}

pub open spec fn clients_view(v: Seq<WindowClient>) -> Seq<WindowClientView> {
    v.map_values(|c: WindowClient| c@)
}

impl View for WindowOutput {
    type V = WindowOutputView;

    open spec fn view(&self) -> WindowOutputView {
        WindowOutputView {
            quality: self.quality,
            reason: self.reason,
            start_ms: self.start_ms,
            end_ms: self.end_ms,
            clients: clients_view(self.clients@),
            fresh_rate_sample: self.fresh_rate_sample,
            held_rate_age_ms: self.held_rate_age_ms,
            coverage: self.coverage,
        }
    }
}

impl WindowOutput {
    pub fn window_ms(&self) -> (r: u64)
        ensures
            r == sat_sub(self.end_ms, self.start_ms),
    {
        saturating_sub(self.end_ms, self.start_ms)
    }
}

} // verus!

verus! {

// ---------------------------------------------------------------------------
// The window book and what one update does to it
// ---------------------------------------------------------------------------

/// What a window book holds.
#[verifier::ext_equal]
pub struct BookState {
    pub initialized: bool,
    pub previous_sample_ms: Option<u64>,
    pub previous_lan: Option<LanClockView>,
    pub previous_nodes: Seq<NodeKeyedView<NodeBaseline>>,
    pub tx_histories: Seq<NodeKeyedView<NodeRateHistory>>,
    pub rx_histories: Seq<NodeKeyedView<NodeRateHistory>>,
    pub committed_totals: Seq<NamedView<TrafficCounters>>,
    pub published_rates: Seq<NamedView<PublishedClientRate>>,
    pub coverage: CoverageState,
}

/// A book that has seen nothing.
pub open spec fn initial_book() -> BookState {
    BookState {
        initialized: false,
        previous_sample_ms: None,
        previous_lan: None,
        previous_nodes: Seq::empty(),
        tx_histories: Seq::empty(),
        rx_histories: Seq::empty(),
        committed_totals: Seq::empty(),
        published_rates: Seq::empty(),
        coverage: initial_coverage(),
    }
}

/// Every committed client with no rate.
pub open spec fn spec_zero_clients(totals: Seq<NamedView<TrafficCounters>>) -> Seq<WindowClientView> {
    totals.map_values(
        |e: NamedView<TrafficCounters>|
            WindowClientView {
                identity_key: e.name,
                delta: zero_counters(),
                total: e.value,
                tx_bps: 0,
                rx_bps: 0,
            },
    )
}

/// Every committed client with the rate published for it, if any.
pub open spec fn spec_rate_clients(
    totals: Seq<NamedView<TrafficCounters>>,
    published: Seq<NamedView<PublishedClientRate>>,
) -> Seq<WindowClientView> {
    totals.map_values(
        |e: NamedView<TrafficCounters>|
            match name_lookup(published, e.name) {
                Some(r) => WindowClientView {
                    identity_key: e.name,
                    delta: r.delta,
                    total: e.value,
                    tx_bps: r.tx_bps,
                    rx_bps: r.rx_bps,
                },
                None => WindowClientView {
                    identity_key: e.name,
                    delta: zero_counters(),
                    total: e.value,
                    tx_bps: 0,
                    rx_bps: 0,
                },
            },
    )
}

/// A window of no length at `sample_ms` in which no client has a rate.
pub open spec fn spec_zero_output(
    totals: Seq<NamedView<TrafficCounters>>,
    quality: WindowQuality,
    reason: &'static str,
    sample_ms: u64,
    coverage: CoverageWindow,
) -> WindowOutputView {
    WindowOutputView {
        quality,
        reason,
        start_ms: sample_ms,
        end_ms: sample_ms,
        clients: spec_zero_clients(totals),
        fresh_rate_sample: true,
        held_rate_age_ms: None,
        coverage,
    }
}

/// `value` added to the total of `name`, the list kept in name order.
pub open spec fn spec_total_add(
    totals: Seq<NamedView<TrafficCounters>>,
    name: Seq<char>,
    value: TrafficCounters,
) -> Seq<NamedView<TrafficCounters>> {
    let current = match name_lookup(totals, name) {
        Some(t) => t,
        None => zero_counters(),
    };
    name_sorted_upsert(totals, name, spec_add(current, value))
}

/// The baselines of a snapshot's nodes, all seen at `sample_ms`.
pub open spec fn spec_baseline_nodes(nodes: Seq<NodeCountersView>, sample_ms: u64) -> Seq<
    NodeKeyedView<NodeBaseline>,
>
    decreases nodes.len(),
{
    if nodes.len() == 0 {
        Seq::empty()
    } else {
        let n = nodes.last();
        node_upsert(
            spec_baseline_nodes(nodes.drop_last(), sample_ms),
            n.identity_key,
            n.generation,
            NodeBaseline { counters: n.counters, last_seen_ms: sample_ms, last_progress_ms: sample_ms },
        )
    }
}

/// The normalized lifetime counters of a snapshot's nodes, summed per client.
pub open spec fn spec_baseline_totals(nodes: Seq<NodeCountersView>) -> Seq<NamedView<TrafficCounters>>
    decreases nodes.len(),
{
    if nodes.len() == 0 {
        Seq::empty()
    } else {
        let n = nodes.last();
        let rest = spec_baseline_totals(nodes.drop_last());
        match spec_fcs_normalized(n.counters) {
            Some(normalized) => spec_total_add(rest, n.identity_key, normalized),
            None => rest,
        }
    }
}

/// The book restarted on a snapshot and a LAN clock.
pub open spec fn spec_rebaseline(
    m: BookState,
    nodes: Seq<NodeCountersView>,
    sample_ms: u64,
    lan: LanClockView,
) -> BookState {
    BookState {
        initialized: true,
        previous_sample_ms: Some(sample_ms),
        previous_lan: Some(lan),
        previous_nodes: spec_baseline_nodes(nodes, sample_ms),
        tx_histories: Seq::empty(),
        rx_histories: Seq::empty(),
        committed_totals: spec_baseline_totals(nodes),
        published_rates: Seq::empty(),
        coverage: coverage_cleared(lan),
    }
}

/// Whether a node baseline is still kept at `sample_ms`.
pub open spec fn spec_baseline_fresh(b: NodeBaseline, sample_ms: u64) -> bool {
    sample_ms < b.last_seen_ms || sample_ms - b.last_seen_ms <= NODE_BASELINE_RETENTION_MS
}

pub open spec fn spec_fresh_nodes(s: Seq<NodeKeyedView<NodeBaseline>>, sample_ms: u64) -> Seq<
    NodeKeyedView<NodeBaseline>,
>
    decreases s.len(),
{
    if s.len() == 0 {
        Seq::empty()
    } else {
        let rest = spec_fresh_nodes(s.drop_last(), sample_ms);
        if spec_baseline_fresh(s.last().value, sample_ms) {
            rest.push(s.last())
        } else {
            rest
        }
    }
}

/// The histories whose node is still kept.
pub open spec fn spec_live_histories(
    h: Seq<NodeKeyedView<NodeRateHistory>>,
    nodes: Seq<NodeKeyedView<NodeBaseline>>,
) -> Seq<NodeKeyedView<NodeRateHistory>>
    decreases h.len(),
{
    if h.len() == 0 {
        Seq::empty()
    } else {
        let rest = spec_live_histories(h.drop_last(), nodes);
        if node_index(nodes, h.last().identity, h.last().generation) >= 0 {
            rest.push(h.last())
        } else {
            rest
        }
    }
}

/// The state that the per-node pass of one update works on.
#[verifier::ext_equal]
pub struct DeltaState {
    pub previous_nodes: Seq<NodeKeyedView<NodeBaseline>>,
    pub tx_histories: Seq<NodeKeyedView<NodeRateHistory>>,
    pub rx_histories: Seq<NodeKeyedView<NodeRateHistory>>,
    pub deltas: Seq<NamedView<ClientDelta>>,
}

/// `bps` recorded in the history of a node, and the rate that history publishes.
pub open spec fn spec_record_rate(
    h: Seq<NodeKeyedView<NodeRateHistory>>,
    identity: Seq<char>,
    generation: u64,
    bps: u64,
) -> (Seq<NodeKeyedView<NodeRateHistory>>, u64) {
    let current = match node_lookup(h, identity, generation) {
        Some(x) => x,
        None => empty_history(),
    };
    let (pushed, published) = spec_history_push(current, bps);
    (node_upsert(h, identity, generation, pushed), published)
}

/// The start of a node's rate window: the last progress, or the previous
/// poll after an idle longer than the longest window.
pub open spec fn spec_window_start(sample_ms: u64, last_progress_ms: u64, previous_sample_ms: u64) -> u64 {
    if sat_sub(sample_ms, last_progress_ms) > MAX_RATE_WINDOW_MS {
        previous_sample_ms
    } else {
        last_progress_ms
    }
}

/// One node of a snapshot folded into the per-node pass.
pub open spec fn spec_node_step(
    st: DeltaState,
    node: NodeCountersView,
    sample_ms: u64,
    previous_sample_ms: u64,
) -> Result<DeltaState, &'static str> {
    let id = node.identity_key;
    let generation = node.generation;
    let previous = node_lookup(st.previous_nodes, id, generation);
    let delta: Result<TrafficCounters, &'static str> = match previous {
        Some(p) => match spec_checked_delta(node.counters, p.counters) {
            Some(d) => Ok(d),
            None => Err("ecm_node_counter_reset"),
        },
        None => Ok(zero_counters()),
    };
    match delta {
        Err(e) => Err(e),
        Ok(delta) => {
            let last_progress = match previous {
                Some(p) => p.last_progress_ms,
                None => sample_ms,
            };
            let cd0 = match name_lookup(st.deltas, id) {
                Some(c) => c,
                None => empty_client_delta(),
            };
            let cd1 = ClientDelta { raw: spec_add(cd0.raw, delta), ..cd0 };
            if spec_has_traffic(delta) {
                let start = spec_window_start(sample_ms, last_progress, previous_sample_ms);
                let window = sat_sub(sample_ms, start);
                match spec_fcs_normalized(delta) {
                    None => Err("ecm_node_fcs_overflow"),
                    Some(n) => {
                        let cd2 = ClientDelta {
                            normalized: spec_add(cd1.normalized, n),
                            start_ms: Some(
                                match cd1.start_ms {
                                    Some(c) => min_u64(c, start),
                                    None => start,
                                },
                            ),
                            ..cd1
                        };
                        let (txh, cd3) = if n.tx_bytes != 0 {
                            let (h, bps) = spec_record_rate(
                                st.tx_histories,
                                id,
                                generation,
                                spec_rate(n.tx_bytes, window),
                            );
                            (h, ClientDelta { tx_bps: sat_add(cd2.tx_bps, bps), ..cd2 })
                        } else {
                            (st.tx_histories, cd2)
                        };
                        let (rxh, cd4) = if n.rx_bytes != 0 {
                            let (h, bps) = spec_record_rate(
                                st.rx_histories,
                                id,
                                generation,
                                spec_rate(n.rx_bytes, window),
                            );
                            (h, ClientDelta { rx_bps: sat_add(cd3.rx_bps, bps), ..cd3 })
                        } else {
                            (st.rx_histories, cd3)
                        };
                        Ok(
                            DeltaState {
                                previous_nodes: node_upsert(
                                    st.previous_nodes,
                                    id,
                                    generation,
                                    NodeBaseline {
                                        counters: node.counters,
                                        last_seen_ms: sample_ms,
                                        last_progress_ms: sample_ms,
                                    },
                                ),
                                tx_histories: txh,
                                rx_histories: rxh,
                                deltas: name_upsert(st.deltas, id, cd4),
                            },
                        )
                    },
                }
            } else {
                Ok(
                    DeltaState {
                        previous_nodes: node_upsert(
                            st.previous_nodes,
                            id,
                            generation,
                            NodeBaseline {
                                counters: node.counters,
                                last_seen_ms: sample_ms,
                                last_progress_ms: last_progress,
                            },
                        ),
                        deltas: name_upsert(st.deltas, id, cd1),
                        ..st
                    },
                )
            }
        },
    }
}

/// The nodes of a snapshot folded, in order, into the per-node pass.
pub open spec fn spec_node_fold(
    st: DeltaState,
    nodes: Seq<NodeCountersView>,
    sample_ms: u64,
    previous_sample_ms: u64,
) -> Result<DeltaState, &'static str>
    decreases nodes.len(),
{
    if nodes.len() == 0 {
        Ok(st)
    } else {
        match spec_node_fold(st, nodes.drop_last(), sample_ms, previous_sample_ms) {
            Ok(s) => spec_node_step(s, nodes.last(), sample_ms, previous_sample_ms),
            Err(e) => Err(e),
        }
    }
}

/// The per-node pass: baselines expire, each node's delta is taken against
/// its baseline, and histories of forgotten nodes are dropped.
pub open spec fn spec_node_deltas(
    m: BookState,
    nodes: Seq<NodeCountersView>,
    sample_ms: u64,
    previous_sample_ms: u64,
) -> Result<DeltaState, &'static str> {
    let start = DeltaState {
        previous_nodes: spec_fresh_nodes(m.previous_nodes, sample_ms),
        tx_histories: m.tx_histories,
        rx_histories: m.rx_histories,
        deltas: Seq::empty(),
    };
    match spec_node_fold(start, nodes, sample_ms, previous_sample_ms) {
        Ok(st) => Ok(
            DeltaState {
                previous_nodes: st.previous_nodes,
                tx_histories: spec_live_histories(st.tx_histories, st.previous_nodes),
                rx_histories: spec_live_histories(st.rx_histories, st.previous_nodes),
                deltas: st.deltas,
            },
        ),
        Err(e) => Err(e),
    }
}

/// The raw deltas of all clients, summed.
pub open spec fn spec_sum_raw(deltas: Seq<NamedView<ClientDelta>>) -> TrafficCounters
    decreases deltas.len(),
{
    if deltas.len() == 0 {
        zero_counters()
    } else {
        spec_add(spec_sum_raw(deltas.drop_last()), deltas.last().value.raw)
    }
}

/// Some client made progress in this update.
pub open spec fn spec_any_progress(deltas: Seq<NamedView<ClientDelta>>) -> bool {
    exists|i: int| 0 <= i < deltas.len() && deltas[i].value.start_ms is Some
}

/// The state that publishing works on.
#[verifier::ext_equal]
pub struct PublishState {
    pub committed_totals: Seq<NamedView<TrafficCounters>>,
    pub published_rates: Seq<NamedView<PublishedClientRate>>,
    pub start_ms: u64,
    pub sample_total: TrafficCounters,
}

pub open spec fn spec_publish_step(ps: PublishState, e: NamedView<ClientDelta>, end_ms: u64) -> PublishState {
    let committed = spec_total_add(ps.committed_totals, e.name, e.value.normalized);
    match e.value.start_ms {
        Some(s) => PublishState {
            committed_totals: committed,
            published_rates: name_upsert(
                ps.published_rates,
                e.name,
                PublishedClientRate {
                    start_ms: s,
                    end_ms,
                    delta: e.value.normalized,
                    tx_bps: e.value.tx_bps,
                    rx_bps: e.value.rx_bps,
                },
            ),
            start_ms: min_u64(ps.start_ms, s),
            sample_total: spec_add(ps.sample_total, e.value.normalized),
        },
        None => PublishState { committed_totals: committed, ..ps },
    }
}

pub open spec fn spec_publish_fold(ps: PublishState, deltas: Seq<NamedView<ClientDelta>>, end_ms: u64) -> PublishState
    decreases deltas.len(),
{
    if deltas.len() == 0 {
        ps
    } else {
        spec_publish_step(spec_publish_fold(ps, deltas.drop_last(), end_ms), deltas.last(), end_ms)
    }
}

/// The published rates still held at `sample_ms`.
pub open spec fn spec_held_rates(p: Seq<NamedView<PublishedClientRate>>, sample_ms: u64) -> Seq<
    NamedView<PublishedClientRate>,
>
    decreases p.len(),
{
    if p.len() == 0 {
        Seq::empty()
    } else {
        let rest = spec_held_rates(p.drop_last(), sample_ms);
        if sat_sub(sample_ms, p.last().value.end_ms) <= RATE_HOLD_MS {
            rest.push(p.last())
        } else {
            rest
        }
    }
}

pub open spec fn spec_min_start(p: Seq<NamedView<PublishedClientRate>>) -> u64
    decreases p.len(),
{
    if p.len() == 0 {
        u64::MAX
    } else {
        min_u64(spec_min_start(p.drop_last()), p.last().value.start_ms)
    }
}

pub open spec fn spec_max_end(p: Seq<NamedView<PublishedClientRate>>) -> u64
    decreases p.len(),
{
    if p.len() == 0 {
        0
    } else {
        max_u64(spec_max_end(p.drop_last()), p.last().value.end_ms)
    }
}

pub open spec fn spec_max_age(p: Seq<NamedView<PublishedClientRate>>, sample_ms: u64) -> u64
    decreases p.len(),
{
    if p.len() == 0 {
        0
    } else {
        max_u64(spec_max_age(p.drop_last(), sample_ms), sat_sub(sample_ms, p.last().value.end_ms))
    }
}

/// Publishing the clients that made progress, with the window that spans them.
pub open spec fn spec_publish_rate(
    m: BookState,
    end_ms: u64,
    deltas: Seq<NamedView<ClientDelta>>,
    coverage: CoverageWindow,
) -> (BookState, WindowOutputView) {
    let ps = spec_publish_fold(
        PublishState {
            committed_totals: m.committed_totals,
            published_rates: m.published_rates,
            start_ms: end_ms,
            sample_total: zero_counters(),
        },
        deltas,
        end_ms,
    );
    let held = spec_held_rates(ps.published_rates, end_ms);
    let m2 = BookState { committed_totals: ps.committed_totals, published_rates: held, ..m };
    let quality = if sat_add(ps.sample_total.tx_bytes, ps.sample_total.rx_bytes) < MIN_COVERAGE_BYTES {
        WindowQuality::LowTraffic
    } else {
        WindowQuality::Okay
    };
    (
        m2,
        WindowOutputView {
            quality,
            reason: "ecm_node_delta_published",
            start_ms: ps.start_ms,
            end_ms,
            clients: spec_rate_clients(ps.committed_totals, held),
            fresh_rate_sample: true,
            held_rate_age_ms: None,
            coverage,
        },
    )
}

/// No client made progress: held rates stay visible until they expire.
pub open spec fn spec_without_rate_progress(
    m: BookState,
    sample_ms: u64,
    previous_sample_ms: u64,
    coverage: CoverageWindow,
) -> (BookState, WindowOutputView) {
    let held = spec_held_rates(m.published_rates, sample_ms);
    let m2 = BookState { published_rates: held, ..m };
    if held.len() > 0 {
        (
            m2,
            WindowOutputView {
                quality: WindowQuality::Pending,
                reason: "ecm_node_batch_pending",
                start_ms: spec_min_start(held),
                end_ms: spec_max_end(held),
                clients: spec_rate_clients(m.committed_totals, held),
                fresh_rate_sample: false,
                held_rate_age_ms: Some(spec_max_age(held, sample_ms)),
                coverage,
            },
        )
    } else {
        (
            m2,
            spec_zero_output(
                m.committed_totals,
                WindowQuality::Idle,
                "ecm_node_idle",
                min_u64(previous_sample_ms, sample_ms),
                coverage,
            ),
        )
    }
}

/// Why the book must restart instead of taking deltas, if it must.
pub open spec fn spec_reset_reason(
    previous_sample_ms: u64,
    previous_lan: LanClockView,
    sample_ms: u64,
    lan: LanClockView,
) -> Option<&'static str> {
    if lan.interface != previous_lan.interface {
        Some("lan_boundary_changed")
    } else if sample_ms <= previous_sample_ms || lan.sample_ms <= previous_lan.sample_ms {
        Some("sample_clock_reset")
    } else if sat_sub(sample_ms, previous_sample_ms) > MAX_RATE_WINDOW_MS {
        Some("ecm_sample_gap")
    } else if spec_checked_delta(lan.counters, previous_lan.counters) is None {
        Some("lan_counter_reset")
    } else {
        None
    }
}

/// The book restarted, reporting a zero window with `reason`.
pub open spec fn spec_restart(
    m: BookState,
    nodes: Seq<NodeCountersView>,
    sample_ms: u64,
    lan: LanClockView,
    quality: WindowQuality,
    reason: &'static str,
) -> (BookState, WindowOutputView) {
    let m2 = spec_rebaseline(m, nodes, sample_ms, lan);
    (
        m2,
        spec_zero_output(
            m2.committed_totals,
            quality,
            reason,
            sample_ms,
            spec_empty_window(quality, reason, lan.sample_ms),
        ),
    )
}

/// One update of the window book: the next book and the window it publishes.
pub open spec fn spec_window_update(
    m: BookState,
    nodes: Seq<NodeCountersView>,
    sample_ms: u64,
    lan: LanClockView,
) -> (BookState, WindowOutputView) {
    if !m.initialized {
        spec_restart(m, nodes, sample_ms, lan, WindowQuality::Warmup, "cold_start")
    } else {
        match (m.previous_sample_ms, m.previous_lan) {
            (Some(previous_sample_ms), Some(previous_lan)) => match spec_reset_reason(
                previous_sample_ms,
                previous_lan,
                sample_ms,
                lan,
            ) {
                Some(reason) => spec_restart(
                    m,
                    nodes,
                    sample_ms,
                    lan,
                    WindowQuality::CounterReset,
                    reason,
                ),
                None => match spec_node_deltas(m, nodes, sample_ms, previous_sample_ms) {
                    Err(reason) => spec_restart(
                        m,
                        nodes,
                        sample_ms,
                        lan,
                        WindowQuality::CounterReset,
                        reason,
                    ),
                    Ok(st) => {
                        let (coverage_state, coverage) = spec_coverage_update(
                            m.coverage,
                            spec_sum_raw(st.deltas),
                            lan,
                        );
                        let m3 = BookState {
                            previous_sample_ms: Some(sample_ms),
                            previous_lan: Some(lan),
                            previous_nodes: st.previous_nodes,
                            tx_histories: st.tx_histories,
                            rx_histories: st.rx_histories,
                            coverage: coverage_state,
                            ..m
                        };
                        if spec_any_progress(st.deltas) {
                            spec_publish_rate(m3, sample_ms, st.deltas, coverage)
                        } else {
                            spec_without_rate_progress(m3, sample_ms, previous_sample_ms, coverage)
                        }
                    },
                },
            },
            _ => spec_restart(
                m,
                nodes,
                sample_ms,
                lan,
                WindowQuality::CounterReset,
                "missing_baseline",
            ),
        }
    }
}

} // verus!

verus! {

/// Turns per-node ECM counters and LAN boundary counters into per-client
/// rates and a LAN coverage window.
#[derive(Clone, Debug)]
pub struct NssWindowBook {
    initialized: bool,
    previous_sample_ms: Option<u64>,
    previous_lan: Option<LanClock>,
    previous_nodes: Vec<NodeKeyed<NodeBaseline>>,
    tx_rate_histories: Vec<NodeKeyed<NodeRateHistory>>,
    rx_rate_histories: Vec<NodeKeyed<NodeRateHistory>>,
    committed_totals: Vec<Named<TrafficCounters>>,
    published_rates: Vec<Named<PublishedClientRate>>,
    coverage: NssCoverageBook,
}

impl View for NssWindowBook {
    type V = BookState;

    closed spec fn view(&self) -> BookState {
        BookState {
            initialized: self.initialized,
            previous_sample_ms: self.previous_sample_ms,
            previous_lan: opt_lan_view(self.previous_lan),
            previous_nodes: nodes_keyed_view(self.previous_nodes@),
            tx_histories: nodes_keyed_view(self.tx_rate_histories@),
            rx_histories: nodes_keyed_view(self.rx_rate_histories@),
            committed_totals: names_view(self.committed_totals@),
            published_rates: names_view(self.published_rates@),
            coverage: self.coverage@,
        }
    }
}

impl Default for NssWindowBook {
    fn default() -> (r: Self)
        ensures
            r@ == initial_book(),
    {
        let r = NssWindowBook {
            initialized: false,
            previous_sample_ms: None,
            previous_lan: None,
            previous_nodes: Vec::new(),
            tx_rate_histories: Vec::new(),
            rx_rate_histories: Vec::new(),
            committed_totals: Vec::new(),
            published_rates: Vec::new(),
            coverage: NssCoverageBook::default(),
        };
        assert(r@.previous_nodes =~= Seq::<NodeKeyedView<NodeBaseline>>::empty());
        assert(r@.tx_histories =~= Seq::<NodeKeyedView<NodeRateHistory>>::empty());
        assert(r@.rx_histories =~= Seq::<NodeKeyedView<NodeRateHistory>>::empty());
        assert(r@.committed_totals =~= Seq::<NamedView<TrafficCounters>>::empty());
        assert(r@.published_rates =~= Seq::<NamedView<PublishedClientRate>>::empty());
        r
    }
}

fn total_add(totals: &mut Vec<Named<TrafficCounters>>, name: &String, value: TrafficCounters)
    ensures
        names_view(final(totals)@) == spec_total_add(names_view(old(totals)@), name@, value),
{
    let mut current = match find_name(totals, name) {
        Some(i) => totals[i].value,
        None => TrafficCounters::default(),
    };
    add_assign(&mut current, value);
    sorted_upsert_name(totals, name, current);
}

fn zero_clients(totals: &Vec<Named<TrafficCounters>>) -> (r: Vec<WindowClient>)
    ensures
        clients_view(r@) == spec_zero_clients(names_view(totals@)),
{
    let ghost t = names_view(totals@);
    let mut r: Vec<WindowClient> = Vec::new();
    let mut i: usize = 0;
    while i < totals.len()
        invariant
            i <= totals@.len(),
            t == names_view(totals@),
            r@.len() == i,
            clients_view(r@) =~= spec_zero_clients(t.take(i as int)),
        decreases totals@.len() - i,
    {
        let ghost before = r@;
        r.push(
            WindowClient {
                identity_key: totals[i].name.clone(),
                delta: TrafficCounters::default(),
                total: totals[i].value,
                tx_bps: 0,
                rx_bps: 0,
            },
        );
        assert(r@ == before.push(r@[i as int]));
        assert(t.take(i + 1) =~= t.take(i as int).push(t[i as int]));
        assert(clients_view(r@) =~= clients_view(before).push(r@[i as int]@));
        i += 1;
    }
    assert(t.take(i as int) =~= t);
    r
}

fn rate_clients(
    totals: &Vec<Named<TrafficCounters>>,
    published: &Vec<Named<PublishedClientRate>>,
) -> (r: Vec<WindowClient>)
    ensures
        clients_view(r@) == spec_rate_clients(names_view(totals@), names_view(published@)),
{
    let ghost t = names_view(totals@);
    let ghost p = names_view(published@);
    let mut r: Vec<WindowClient> = Vec::new();
    let mut i: usize = 0;
    while i < totals.len()
        invariant
            i <= totals@.len(),
            t == names_view(totals@),
            p == names_view(published@),
            r@.len() == i,
            clients_view(r@) =~= spec_rate_clients(t.take(i as int), p),
        decreases totals@.len() - i,
    {
        let client = match find_name(published, &totals[i].name) {
            Some(j) => WindowClient {
                identity_key: totals[i].name.clone(),
                delta: published[j].value.delta,
                total: totals[i].value,
                tx_bps: published[j].value.tx_bps,
                rx_bps: published[j].value.rx_bps,
            },
            None => WindowClient {
                identity_key: totals[i].name.clone(),
                delta: TrafficCounters::default(),
                total: totals[i].value,
                tx_bps: 0,
                rx_bps: 0,
            },
        };
        let ghost before = r@;
        r.push(client);
        assert(r@ == before.push(client));
        assert(t.take(i + 1) =~= t.take(i as int).push(t[i as int]));
        assert(clients_view(r@) =~= clients_view(before).push(client@));
        i += 1;
    }
    assert(t.take(i as int) =~= t);
    r
}

fn zero_output(
    totals: &Vec<Named<TrafficCounters>>,
    quality: WindowQuality,
    reason: &'static str,
    sample_ms: u64,
    coverage: CoverageWindow,
) -> (r: WindowOutput)
    ensures
        r@ == spec_zero_output(names_view(totals@), quality, reason, sample_ms, coverage),
{
    WindowOutput {
        quality,
        reason,
        start_ms: sample_ms,
        end_ms: sample_ms,
        clients: zero_clients(totals),
        fresh_rate_sample: true,
        held_rate_age_ms: None,
        coverage,
    }
}

fn record_rate(
    histories: &mut Vec<NodeKeyed<NodeRateHistory>>,
    identity: &String,
    generation: u64,
    bps: u64,
) -> (r: u64)
    ensures
        (nodes_keyed_view(final(histories)@), r) == spec_record_rate(
            nodes_keyed_view(old(histories)@),
            identity@,
            generation,
            bps,
        ),
{
    let mut history = match find_node(histories, identity, generation) {
        Some(i) => histories[i].value,
        None => NodeRateHistory::new(),
    };
    let published = history.push(bps);
    upsert_node(histories, identity, generation, history);
    published
}

fn live_histories(
    histories: &Vec<NodeKeyed<NodeRateHistory>>,
    nodes: &Vec<NodeKeyed<NodeBaseline>>,
) -> (r: Vec<NodeKeyed<NodeRateHistory>>)
    ensures
        nodes_keyed_view(r@) == spec_live_histories(
            nodes_keyed_view(histories@),
            nodes_keyed_view(nodes@),
        ),
{
    let ghost h = nodes_keyed_view(histories@);
    let ghost n = nodes_keyed_view(nodes@);
    let mut r: Vec<NodeKeyed<NodeRateHistory>> = Vec::new();
    let mut i: usize = 0;
    while i < histories.len()
        invariant
            i <= histories@.len(),
            h == nodes_keyed_view(histories@),
            n == nodes_keyed_view(nodes@),
            nodes_keyed_view(r@) =~= spec_live_histories(h.take(i as int), n),
        decreases histories@.len() - i,
    {
        assert(h.take(i + 1).drop_last() =~= h.take(i as int));
        if find_node(nodes, &histories[i].identity, histories[i].generation).is_some() {
            r.push(
                NodeKeyed {
                    identity: histories[i].identity.clone(),
                    generation: histories[i].generation,
                    value: histories[i].value,
                },
            );
        }
        i += 1;
    }
    assert(h.take(i as int) =~= h);
    r
}

fn fresh_nodes(nodes: &Vec<NodeKeyed<NodeBaseline>>, sample_ms: u64) -> (r: Vec<NodeKeyed<NodeBaseline>>)
    ensures
        nodes_keyed_view(r@) == spec_fresh_nodes(nodes_keyed_view(nodes@), sample_ms),
{
    let ghost s = nodes_keyed_view(nodes@);
    let mut r: Vec<NodeKeyed<NodeBaseline>> = Vec::new();
    let mut i: usize = 0;
    while i < nodes.len()
        invariant
            i <= nodes@.len(),
            s == nodes_keyed_view(nodes@),
            nodes_keyed_view(r@) =~= spec_fresh_nodes(s.take(i as int), sample_ms),
        decreases nodes@.len() - i,
    {
        assert(s.take(i + 1).drop_last() =~= s.take(i as int));
        let last_seen = nodes[i].value.last_seen_ms;
        if sample_ms < last_seen || sample_ms - last_seen <= NODE_BASELINE_RETENTION_MS {
            r.push(
                NodeKeyed {
                    identity: nodes[i].identity.clone(),
                    generation: nodes[i].generation,
                    value: nodes[i].value,
                },
            );
        }
        i += 1;
    }
    assert(s.take(i as int) =~= s);
    r
}

fn held_rates(published: &Vec<Named<PublishedClientRate>>, sample_ms: u64) -> (r: Vec<
    Named<PublishedClientRate>,
>)
    ensures
        names_view(r@) == spec_held_rates(names_view(published@), sample_ms),
{
    let ghost s = names_view(published@);
    let mut r: Vec<Named<PublishedClientRate>> = Vec::new();
    let mut i: usize = 0;
    while i < published.len()
        invariant
            i <= published@.len(),
            s == names_view(published@),
            names_view(r@) =~= spec_held_rates(s.take(i as int), sample_ms),
        decreases published@.len() - i,
    {
        assert(s.take(i + 1).drop_last() =~= s.take(i as int));
        if saturating_sub(sample_ms, published[i].value.end_ms) <= RATE_HOLD_MS {
            r.push(Named { name: published[i].name.clone(), value: published[i].value });
        }
        i += 1;
    }
    assert(s.take(i as int) =~= s);
    r
}

fn sum_raw(deltas: &Vec<Named<ClientDelta>>) -> (r: TrafficCounters)
    ensures
        r == spec_sum_raw(names_view(deltas@)),
{
    let ghost s = names_view(deltas@);
    let mut total = TrafficCounters::default();
    let mut i: usize = 0;
    while i < deltas.len()
        invariant
            i <= deltas@.len(),
            s == names_view(deltas@),
            total == spec_sum_raw(s.take(i as int)),
        decreases deltas@.len() - i,
    {
        assert(s.take(i + 1).drop_last() =~= s.take(i as int));
        add_assign(&mut total, deltas[i].value.raw);
        i += 1;
    }
    assert(s.take(i as int) =~= s);
    total
}

fn any_progress(deltas: &Vec<Named<ClientDelta>>) -> (r: bool)
    ensures
        r == spec_any_progress(names_view(deltas@)),
{
    let ghost s = names_view(deltas@);
    let mut i: usize = 0;
    while i < deltas.len()
        invariant
            i <= deltas@.len(),
            s == names_view(deltas@),
            forall|j: int| 0 <= j < i ==> s[j].value.start_ms is None,
        decreases deltas@.len() - i,
    {
        if deltas[i].value.start_ms.is_some() {
            assert(s[i as int].value.start_ms is Some);
            return true;
        }
        i += 1;
    }
    false
}

} // verus!

verus! {

proof fn lemma_node_fold_err(
    st: DeltaState,
    nodes: Seq<NodeCountersView>,
    k: int,
    sample_ms: u64,
    previous_sample_ms: u64,
    e: &'static str,
)
    requires
        0 <= k <= nodes.len(),
        spec_node_fold(st, nodes.take(k), sample_ms, previous_sample_ms) == Err::<DeltaState, &'static str>(e),
    ensures
        spec_node_fold(st, nodes, sample_ms, previous_sample_ms) == Err::<DeltaState, &'static str>(e),
    decreases nodes.len() - k,
{
    if k == nodes.len() {
        assert(nodes.take(k) =~= nodes);
    } else {
        assert(nodes.take(k + 1).drop_last() =~= nodes.take(k));
        lemma_node_fold_err(st, nodes, k + 1, sample_ms, previous_sample_ms, e);
    }
}

fn empty_delta() -> (r: ClientDelta)
    ensures
        r == empty_client_delta(),
{
    ClientDelta {
        raw: TrafficCounters::default(),
        normalized: TrafficCounters::default(),
        start_ms: None,
        tx_bps: 0,
        rx_bps: 0,
    }
}

fn min_start(p: &Vec<Named<PublishedClientRate>>) -> (r: u64)
    ensures
        r == spec_min_start(names_view(p@)),
{
    let ghost s = names_view(p@);
    let mut acc: u64 = u64::MAX;
    let mut i: usize = 0;
    while i < p.len()
        invariant
            i <= p@.len(),
            s == names_view(p@),
            acc == spec_min_start(s.take(i as int)),
        decreases p@.len() - i,
    {
        assert(s.take(i + 1).drop_last() =~= s.take(i as int));
        acc = min_of(acc, p[i].value.start_ms);
        i += 1;
    }
    assert(s.take(i as int) =~= s);
    acc
}

fn max_end(p: &Vec<Named<PublishedClientRate>>) -> (r: u64)
    ensures
        r == spec_max_end(names_view(p@)),
{
    let ghost s = names_view(p@);
    let mut acc: u64 = 0;
    let mut i: usize = 0;
    while i < p.len()
        invariant
            i <= p@.len(),
            s == names_view(p@),
            acc == spec_max_end(s.take(i as int)),
        decreases p@.len() - i,
    {
        assert(s.take(i + 1).drop_last() =~= s.take(i as int));
        let e = p[i].value.end_ms;
        acc = if acc >= e { acc } else { e };
        i += 1;
    }
    assert(s.take(i as int) =~= s);
    acc
}

fn max_age(p: &Vec<Named<PublishedClientRate>>, sample_ms: u64) -> (r: u64)
    ensures
        r == spec_max_age(names_view(p@), sample_ms),
{
    let ghost s = names_view(p@);
    let mut acc: u64 = 0;
    let mut i: usize = 0;
    while i < p.len()
        invariant
            i <= p@.len(),
            s == names_view(p@),
            acc == spec_max_age(s.take(i as int), sample_ms),
        decreases p@.len() - i,
    {
        assert(s.take(i + 1).drop_last() =~= s.take(i as int));
        let e = saturating_sub(sample_ms, p[i].value.end_ms);
        acc = if acc >= e { acc } else { e };
        i += 1;
    }
    assert(s.take(i as int) =~= s);
    acc
}

impl NssWindowBook {
    fn rebaseline(&mut self, nodes: &NodeSnapshot, lan: LanClock)
        ensures
            final(self)@ == spec_rebaseline(
                old(self)@,
                nodes_view(nodes.nodes@),
                nodes.sample_ms,
                lan@,
            ),
    {
        let ghost nv = nodes_view(nodes.nodes@);
        let sample_ms = nodes.sample_ms;
        let mut previous_nodes: Vec<NodeKeyed<NodeBaseline>> = Vec::new();
        let mut committed: Vec<Named<TrafficCounters>> = Vec::new();
        proof {
            assert(nv.take(0) =~= Seq::<NodeCountersView>::empty());
            assert(nodes_keyed_view(previous_nodes@) =~= Seq::<NodeKeyedView<NodeBaseline>>::empty());
            assert(names_view(committed@) =~= Seq::<NamedView<TrafficCounters>>::empty());
        }
        let mut i: usize = 0;
        while i < nodes.nodes.len()
            invariant
                i <= nodes.nodes@.len(),
                nv == nodes_view(nodes.nodes@),
                sample_ms == nodes.sample_ms,
                nodes_keyed_view(previous_nodes@) == spec_baseline_nodes(nv.take(i as int), sample_ms),
                names_view(committed@) == spec_baseline_totals(nv.take(i as int)),
            decreases nodes.nodes@.len() - i,
        {
            let node = &nodes.nodes[i];
            assert(nv.take(i + 1).drop_last() =~= nv.take(i as int));
            assert(nv.take(i + 1).last() == node@);
            upsert_node(
                &mut previous_nodes,
                &node.identity_key,
                node.generation,
                NodeBaseline {
                    counters: node.counters,
                    last_seen_ms: sample_ms,
                    last_progress_ms: sample_ms,
                },
            );
            match node.counters.fcs_normalized() {
                Some(normalized) => total_add(&mut committed, &node.identity_key, normalized),
                None => {},
            }
            i += 1;
        }
        assert(nv.take(i as int) =~= nv);
        self.initialized = true;
        self.previous_sample_ms = Some(sample_ms);
        self.previous_lan = Some(copy_lan(&lan));
        self.previous_nodes = previous_nodes;
        self.tx_rate_histories = Vec::new();
        self.rx_rate_histories = Vec::new();
        self.committed_totals = committed;
        self.published_rates = Vec::new();
        self.coverage.clear(lan);
        proof {
            assert(self@.tx_histories =~= Seq::<NodeKeyedView<NodeRateHistory>>::empty());
            assert(self@.rx_histories =~= Seq::<NodeKeyedView<NodeRateHistory>>::empty());
            assert(self@.published_rates =~= Seq::<NamedView<PublishedClientRate>>::empty());
        }
    }
}

} // verus!

verus! {

impl NssWindowBook {
    /// The per-node pass of one update; on success the book holds the new
    /// baselines and histories and the per-client deltas are returned.
    fn node_deltas(&mut self, snapshot: &NodeSnapshot, previous_sample_ms: u64) -> (r: Result<
        Vec<Named<ClientDelta>>,
        &'static str,
    >)
        ensures
            match r {
                Ok(d) => {
                    &&& spec_node_deltas(
                        old(self)@,
                        nodes_view(snapshot.nodes@),
                        snapshot.sample_ms,
                        previous_sample_ms,
                    ) == Ok::<DeltaState, &'static str>(
                        DeltaState {
                            previous_nodes: final(self)@.previous_nodes,
                            tx_histories: final(self)@.tx_histories,
                            rx_histories: final(self)@.rx_histories,
                            deltas: names_view(d@),
                        },
                    )
                    &&& final(self)@ == BookState {
                        previous_nodes: final(self)@.previous_nodes,
                        tx_histories: final(self)@.tx_histories,
                        rx_histories: final(self)@.rx_histories,
                        ..old(self)@
                    }
                },
                Err(e) => spec_node_deltas(
                    old(self)@,
                    nodes_view(snapshot.nodes@),
                    snapshot.sample_ms,
                    previous_sample_ms,
                ) == Err::<DeltaState, &'static str>(e),
            },
    {
        let ghost m = self@;
        let ghost nv = nodes_view(snapshot.nodes@);
        let sample_ms = snapshot.sample_ms;
        let mut pn = fresh_nodes(&self.previous_nodes, sample_ms);
        let mut tx: Vec<NodeKeyed<NodeRateHistory>> = Vec::new();
        std::mem::swap(&mut tx, &mut self.tx_rate_histories);
        let mut rx: Vec<NodeKeyed<NodeRateHistory>> = Vec::new();
        std::mem::swap(&mut rx, &mut self.rx_rate_histories);
        let mut deltas: Vec<Named<ClientDelta>> = Vec::new();
        let ghost st0 = DeltaState {
            previous_nodes: nodes_keyed_view(pn@),
            tx_histories: nodes_keyed_view(tx@),
            rx_histories: nodes_keyed_view(rx@),
            deltas: names_view(deltas@),
        };
        proof {
            assert(names_view(deltas@) =~= Seq::<NamedView<ClientDelta>>::empty());
            assert(nv.take(0) =~= Seq::<NodeCountersView>::empty());
        }
        let mut i: usize = 0;
        while i < snapshot.nodes.len()
            invariant
                i <= snapshot.nodes@.len(),
                nv == nodes_view(snapshot.nodes@),
                m == old(self)@,
                sample_ms == snapshot.sample_ms,
                st0 == (DeltaState {
                    previous_nodes: spec_fresh_nodes(m.previous_nodes, sample_ms),
                    tx_histories: m.tx_histories,
                    rx_histories: m.rx_histories,
                    deltas: Seq::empty(),
                }),
                spec_node_fold(st0, nv.take(i as int), sample_ms, previous_sample_ms) == Ok::<
                    DeltaState,
                    &'static str,
                >(
                    DeltaState {
                        previous_nodes: nodes_keyed_view(pn@),
                        tx_histories: nodes_keyed_view(tx@),
                        rx_histories: nodes_keyed_view(rx@),
                        deltas: names_view(deltas@),
                    },
                ),
            decreases snapshot.nodes@.len() - i,
        {
            let node = &snapshot.nodes[i];
            let ghost cur = DeltaState {
                previous_nodes: nodes_keyed_view(pn@),
                tx_histories: nodes_keyed_view(tx@),
                rx_histories: nodes_keyed_view(rx@),
                deltas: names_view(deltas@),
            };
            proof {
                assert(nv.take(i + 1).drop_last() =~= nv.take(i as int));
                assert(nv.take(i + 1).last() == node@);
            }
            let previous: Option<NodeBaseline> = match find_node(
                &pn,
                &node.identity_key,
                node.generation,
            ) {
                Some(j) => Some(pn[j].value),
                None => None,
            };
            assert(previous == node_lookup(cur.previous_nodes, node@.identity_key, node.generation));
            let delta = match previous {
                Some(p) => match checked_delta(node.counters, p.counters) {
                    Some(d) => d,
                    None => {
                        proof {
                            lemma_node_fold_err(
                                st0,
                                nv,
                                i + 1,
                                sample_ms,
                                previous_sample_ms,
                                "ecm_node_counter_reset",
                            );

                        }
                        return Err("ecm_node_counter_reset");
                    },
                },
                None => TrafficCounters::default(),
            };
            let mut last_progress = match previous {
                Some(p) => p.last_progress_ms,
                None => sample_ms,
            };
            let mut cd = match find_name(&deltas, &node.identity_key) {
                Some(j) => deltas[j].value,
                None => empty_delta(),
            };
            add_assign(&mut cd.raw, delta);
            if has_traffic(&delta) {
                let start = if saturating_sub(sample_ms, last_progress) > MAX_RATE_WINDOW_MS {
                    previous_sample_ms
                } else {
                    last_progress
                };
                let window = saturating_sub(sample_ms, start);
                let normalized = match delta.fcs_normalized() {
                    Some(n) => n,
                    None => {
                        proof {
                            lemma_node_fold_err(
                                st0,
                                nv,
                                i + 1,
                                sample_ms,
                                previous_sample_ms,
                                "ecm_node_fcs_overflow",
                            );
                        }
                        return Err("ecm_node_fcs_overflow");
                    },
                };
                add_assign(&mut cd.normalized, normalized);
                cd.start_ms = Some(
                    match cd.start_ms {
                        Some(c) => min_of(c, start),
                        None => start,
                    },
                );
                if normalized.tx_bytes != 0 {
                    let bps = record_rate(
                        &mut tx,
                        &node.identity_key,
                        node.generation,
                        rate(normalized.tx_bytes, window),
                    );
                    cd.tx_bps = saturating_add(cd.tx_bps, bps);
                }
                if normalized.rx_bytes != 0 {
                    let bps = record_rate(
                        &mut rx,
                        &node.identity_key,
                        node.generation,
                        rate(normalized.rx_bytes, window),
                    );
                    cd.rx_bps = saturating_add(cd.rx_bps, bps);
                }
                last_progress = sample_ms;
            }
            upsert_node(
                &mut pn,
                &node.identity_key,
                node.generation,
                NodeBaseline {
                    counters: node.counters,
                    last_seen_ms: sample_ms,
                    last_progress_ms: last_progress,
                },
            );
            upsert_name(&mut deltas, &node.identity_key, cd);
            i += 1;
        }
        proof {
            assert(nv.take(i as int) =~= nv);
        }
        let tx_live = live_histories(&tx, &pn);
        let rx_live = live_histories(&rx, &pn);
        self.previous_nodes = pn;
        self.tx_rate_histories = tx_live;
        self.rx_rate_histories = rx_live;
        Ok(deltas)
    }
}

} // verus!

verus! {

impl NssWindowBook {
    fn publish_rate(&mut self, end_ms: u64, deltas: Vec<Named<ClientDelta>>, coverage: CoverageWindow) -> (r:
        WindowOutput)
        ensures
            (final(self)@, r@) == spec_publish_rate(old(self)@, end_ms, names_view(deltas@), coverage),
    {
        let ghost m = self@;
        let ghost d = names_view(deltas@);
        let mut committed: Vec<Named<TrafficCounters>> = Vec::new();
        std::mem::swap(&mut committed, &mut self.committed_totals);
        let mut published: Vec<Named<PublishedClientRate>> = Vec::new();
        std::mem::swap(&mut published, &mut self.published_rates);
        let mut start_ms = end_ms;
        let mut sample_total = TrafficCounters::default();
        let ghost ps0 = PublishState {
            committed_totals: m.committed_totals,
            published_rates: m.published_rates,
            start_ms: end_ms,
            sample_total: zero_counters(),
        };
        proof {
            assert(d.take(0) =~= Seq::<NamedView<ClientDelta>>::empty());
        }
        let mut i: usize = 0;
        while i < deltas.len()
            invariant
                i <= deltas@.len(),
                d == names_view(deltas@),
                spec_publish_fold(ps0, d.take(i as int), end_ms) == (PublishState {
                    committed_totals: names_view(committed@),
                    published_rates: names_view(published@),
                    start_ms,
                    sample_total,
                }),
            decreases deltas@.len() - i,
        {
            proof {
                assert(d.take(i + 1).drop_last() =~= d.take(i as int));
                assert(d.take(i + 1).last() == d[i as int]);
            }
            let entry = &deltas[i];
            total_add(&mut committed, &entry.name, entry.value.normalized);
            match entry.value.start_ms {
                Some(client_start_ms) => {
                    start_ms = min_of(start_ms, client_start_ms);
                    add_assign(&mut sample_total, entry.value.normalized);
                    upsert_name(
                        &mut published,
                        &entry.name,
                        PublishedClientRate {
                            start_ms: client_start_ms,
                            end_ms,
                            delta: entry.value.normalized,
                            tx_bps: entry.value.tx_bps,
                            rx_bps: entry.value.rx_bps,
                        },
                    );
                },
                None => {},
            }
            i += 1;
        }
        proof {
            assert(d.take(i as int) =~= d);
        }
        let held = held_rates(&published, end_ms);
        let clients = rate_clients(&committed, &held);
        let quality = if saturating_add(sample_total.tx_bytes, sample_total.rx_bytes)
            < MIN_COVERAGE_BYTES {
            WindowQuality::LowTraffic
        } else {
            WindowQuality::Okay
        };
        self.committed_totals = committed;
        self.published_rates = held;
        WindowOutput {
            quality,
            reason: "ecm_node_delta_published",
            start_ms,
            end_ms,
            clients,
            fresh_rate_sample: true,
            held_rate_age_ms: None,
            coverage,
        }
    }

    fn without_rate_progress(
        &mut self,
        sample_ms: u64,
        previous_sample_ms: u64,
        coverage: CoverageWindow,
    ) -> (r: WindowOutput)
        ensures
            (final(self)@, r@) == spec_without_rate_progress(
                old(self)@,
                sample_ms,
                previous_sample_ms,
                coverage,
            ),
    {
        let held = held_rates(&self.published_rates, sample_ms);
        self.published_rates = held;
        if self.published_rates.len() > 0 {
            let start_ms = min_start(&self.published_rates);
            let end_ms = max_end(&self.published_rates);
            let age = max_age(&self.published_rates, sample_ms);
            return WindowOutput {
                quality: WindowQuality::Pending,
                reason: "ecm_node_batch_pending",
                start_ms,
                end_ms,
                clients: rate_clients(&self.committed_totals, &self.published_rates),
                fresh_rate_sample: false,
                held_rate_age_ms: Some(age),
                coverage,
            };
        }
        zero_output(
            &self.committed_totals,
            WindowQuality::Idle,
            "ecm_node_idle",
            min_of(previous_sample_ms, sample_ms),
            coverage,
        )
    }

    fn restart(
        &mut self,
        nodes: &NodeSnapshot,
        lan: &LanClock,
        quality: WindowQuality,
        reason: &'static str,
    ) -> (r: WindowOutput)
        ensures
            (final(self)@, r@) == spec_restart(
                old(self)@,
                nodes_view(nodes.nodes@),
                nodes.sample_ms,
                lan@,
                quality,
                reason,
            ),
    {
        self.rebaseline(nodes, copy_lan(lan));
        zero_output(
            &self.committed_totals,
            quality,
            reason,
            nodes.sample_ms,
            empty_window(quality, reason, lan.sample_ms),
        )
    }

    /// Takes one snapshot of the ECM nodes and the LAN clock read with it,
    /// and publishes per-client rates with the LAN coverage of the window.
    pub fn update(&mut self, nodes: &NodeSnapshot, lan: LanClock) -> (r: WindowOutput)
        ensures
            (final(self)@, r@) == spec_window_update(
                old(self)@,
                nodes_view(nodes.nodes@),
                nodes.sample_ms,
                lan@,
            ),
    {
        if !self.initialized {
            return self.restart(nodes, &lan, WindowQuality::Warmup, "cold_start");
        }
        let previous_sample_ms = match self.previous_sample_ms {
            Some(p) => p,
            None => {
                return self.restart(nodes, &lan, WindowQuality::CounterReset, "missing_baseline");
            },
        };
        let previous_lan = match &self.previous_lan {
            Some(l) => copy_lan(l),
            None => {
                return self.restart(nodes, &lan, WindowQuality::CounterReset, "missing_baseline");
            },
        };
        let reset_reason: Option<&'static str> = if lan.interface != previous_lan.interface {
            Some("lan_boundary_changed")
        } else if nodes.sample_ms <= previous_sample_ms || lan.sample_ms
            <= previous_lan.sample_ms {
            Some("sample_clock_reset")
        } else if saturating_sub(nodes.sample_ms, previous_sample_ms) > MAX_RATE_WINDOW_MS {
            Some("ecm_sample_gap")
        } else if checked_delta(lan.counters, previous_lan.counters).is_none() {
            Some("lan_counter_reset")
        } else {
            None
        };
        if let Some(reason) = reset_reason {
            return self.restart(nodes, &lan, WindowQuality::CounterReset, reason);
        }
        let ghost m = self@;
        let deltas = match self.node_deltas(nodes, previous_sample_ms) {
            Ok(d) => d,
            Err(reason) => {
                return self.restart(nodes, &lan, WindowQuality::CounterReset, reason);
            },
        };
        let coverage_delta = sum_raw(&deltas);
        self.previous_sample_ms = Some(nodes.sample_ms);
        self.previous_lan = Some(copy_lan(&lan));
        let coverage = self.coverage.update(coverage_delta, &lan);
        if any_progress(&deltas) {
            self.publish_rate(nodes.sample_ms, deltas, coverage)
        } else {
            self.without_rate_progress(nodes.sample_ms, previous_sample_ms, coverage)
        }
    }
}

} // verus!

verus! {

// ---------------------------------------------------------------------------
// Properties of the window book
// ---------------------------------------------------------------------------

/// A restart (cold start or counter reset) publishes a window of no length in
/// which no client carries a rate or a delta, and forgets every held rate.
pub proof fn restart_publishes_no_rate(
    m: BookState,
    nodes: Seq<NodeCountersView>,
    sample_ms: u64,
    lan: LanClockView,
)
    ensures
        ({
            let (m2, out) = spec_window_update(m, nodes, sample_ms, lan);
            (out.quality == WindowQuality::Warmup || out.quality == WindowQuality::CounterReset)
                ==> {
                &&& out.start_ms == sample_ms && out.end_ms == sample_ms
                &&& m2.published_rates.len() == 0
                &&& forall|i: int|
                    0 <= i < out.clients.len() ==> out.clients[i].tx_bps == 0
                        && out.clients[i].rx_bps == 0 && out.clients[i].delta == zero_counters()
            }
        }),
{
}

/// Every update lists each committed client once, in the book's order, with
/// its lifetime total.
pub proof fn clients_follow_committed_totals(
    m: BookState,
    nodes: Seq<NodeCountersView>,
    sample_ms: u64,
    lan: LanClockView,
)
    ensures
        ({
            let (m2, out) = spec_window_update(m, nodes, sample_ms, lan);
            &&& out.clients.len() == m2.committed_totals.len()
            &&& forall|i: int|
                0 <= i < out.clients.len() ==> out.clients[i].identity_key
                    == m2.committed_totals[i].name && out.clients[i].total
                    == m2.committed_totals[i].value
        }),
{
}

proof fn lemma_held_rates_fresh(p: Seq<NamedView<PublishedClientRate>>, sample_ms: u64)
    ensures
        forall|j: int|
            0 <= j < spec_held_rates(p, sample_ms).len() ==> sat_sub(
                sample_ms,
                #[trigger] spec_held_rates(p, sample_ms)[j].value.end_ms,
            ) <= RATE_HOLD_MS,
    decreases p.len(),
{
    if p.len() > 0 {
        lemma_held_rates_fresh(p.drop_last(), sample_ms);
        let rest = spec_held_rates(p.drop_last(), sample_ms);
        let r = spec_held_rates(p, sample_ms);
        assert forall|j: int| 0 <= j < r.len() implies sat_sub(
            sample_ms,
            #[trigger] r[j].value.end_ms,
        ) <= RATE_HOLD_MS by {
            if j < rest.len() {
                assert(r[j] == rest[j]);
            }
        }
    }
}

/// After any update a client shows a nonzero rate only if that exact rate was
/// published for it no more than the hold time before this sample.
pub proof fn shown_rates_are_recent(
    m: BookState,
    nodes: Seq<NodeCountersView>,
    sample_ms: u64,
    lan: LanClockView,
)
    ensures
        ({
            let (m2, out) = spec_window_update(m, nodes, sample_ms, lan);
            &&& forall|j: int|
                0 <= j < m2.published_rates.len() ==> sat_sub(
                    sample_ms,
                    #[trigger] m2.published_rates[j].value.end_ms,
                ) <= RATE_HOLD_MS
            &&& forall|i: int|
                0 <= i < out.clients.len() && (out.clients[i].tx_bps != 0
                    || out.clients[i].rx_bps != 0) ==> {
                    &&& name_lookup(m2.published_rates, out.clients[i].identity_key) is Some
                    &&& name_lookup(m2.published_rates, out.clients[i].identity_key)->0.tx_bps
                        == out.clients[i].tx_bps
                    &&& name_lookup(m2.published_rates, out.clients[i].identity_key)->0.rx_bps
                        == out.clients[i].rx_bps
                }
        }),
{
    let (m2, out) = spec_window_update(m, nodes, sample_ms, lan);
    if m.initialized && m.previous_sample_ms is Some && m.previous_lan is Some {
        let previous_sample_ms = m.previous_sample_ms->0;
        if spec_reset_reason(previous_sample_ms, m.previous_lan->0, sample_ms, lan) is None {
            if let Ok(st) = spec_node_deltas(m, nodes, sample_ms, previous_sample_ms) {
                if spec_any_progress(st.deltas) {
                    let ps = spec_publish_fold(
                        PublishState {
                            committed_totals: m.committed_totals,
                            published_rates: m.published_rates,
                            start_ms: sample_ms,
                            sample_total: zero_counters(),
                        },
                        st.deltas,
                        sample_ms,
                    );
                    lemma_held_rates_fresh(ps.published_rates, sample_ms);
                } else {
                    lemma_held_rates_fresh(m.published_rates, sample_ms);
                }
            }
        }
    }
}

/// A history is well formed: the next slot follows the filled ones.
pub open spec fn history_wf(h: NodeRateHistory) -> bool {
    &&& h.len <= 3
    &&& h.next < 3
    &&& h.len < 3 ==> h.next == h.len
}

/// Recording a rate keeps a history well formed. Until three rates are
/// recorded the rate itself is published; after that the published rate is
/// the median of the last three, so it lies between the two earlier rates
/// that stay in the history and one outlier cannot move it past them.
pub proof fn history_publishes_median(h: NodeRateHistory, bps: u64)
    requires
        history_wf(h),
    ensures
        ({
            let (h2, r) = spec_history_push(h, bps);
            let (a, b) = if h.next == 0 {
                (h.second, h.third)
            } else if h.next == 1 {
                (h.first, h.third)
            } else {
                (h.first, h.second)
            };
            &&& history_wf(h2)
            &&& h2.len < 3 ==> r == bps
            &&& h2.len == 3 ==> r == spec_median3(h2.first, h2.second, h2.third)
            &&& h2.len == 3 ==> min_u64(a, b) <= r <= max_u64(a, b) || r == bps && min_u64(a, b)
                <= bps <= max_u64(a, b)
        }),
{
}

proof fn lemma_percentage_at_most_100(n: u64, d: u64)
    ensures
        spec_percentage(n, d) matches Some(p) ==> p <= 100,
{
    if d != 0 && n <= d {
        lemma_percentage_bound(n, d);
    }
}

pub open spec fn pct_ok(p: Option<u8>) -> bool {
    p matches Some(v) ==> v <= 100
}

/// The percentages a coverage book keeps for display are at most 100.
pub open spec fn coverage_wf(m: CoverageState) -> bool {
    m.last_reported matches Some((tx, rx)) ==> pct_ok(tx) && pct_ok(rx)
}

/// Coverage percentages are at most 100; only an aligned window reports
/// them, and a pending window reports none of its own.
pub proof fn coverage_percentages_are_bounded(m: CoverageState, client_delta: TrafficCounters, lan: LanClockView)
    requires
        coverage_wf(m),
    ensures
        ({
            let (m2, w) = spec_coverage_update(m, client_delta, lan);
            &&& coverage_wf(m2)
            &&& pct_ok(w.tx_pct) && pct_ok(w.rx_pct)
            &&& pct_ok(w.retained_tx_pct) && pct_ok(w.retained_rx_pct)
            &&& (w.tx_pct is Some || w.rx_pct is Some) ==> w.aligned
            &&& w.quality == WindowQuality::Pending ==> !w.aligned && w.tx_pct is None
                && w.rx_pct is None
        }),
{
    let client_raw = spec_add(m.pending_client, client_delta);
    if let Some(cn) = spec_fcs_normalized(client_raw) {
        if let Some(start) = m.start {
            if let Some(lan_raw) = spec_checked_delta(lan.counters, start.counters) {
                if let Some(ln) = spec_fcs_normalized(lan_raw) {
                    lemma_percentage_at_most_100(cn.tx_bytes, ln.rx_bytes);
                    lemma_percentage_at_most_100(cn.rx_bytes, ln.tx_bytes);
                }
            }
        }
    }
}

/// Every start a client delta carries is at most one rate window before the sample.
pub open spec fn starts_within(deltas: Seq<NamedView<ClientDelta>>, sample_ms: u64) -> bool {
    forall|j: int|
        0 <= j < deltas.len() ==> (#[trigger] deltas[j].value.start_ms matches Some(s) ==> s
            + MAX_RATE_WINDOW_MS >= sample_ms)
}

proof fn lemma_node_step_starts(
    st: DeltaState,
    node: NodeCountersView,
    sample_ms: u64,
    previous_sample_ms: u64,
)
    requires
        starts_within(st.deltas, sample_ms),
        previous_sample_ms + MAX_RATE_WINDOW_MS >= sample_ms,
    ensures
        spec_node_step(st, node, sample_ms, previous_sample_ms) matches Ok(s2) ==> starts_within(
            s2.deltas,
            sample_ms,
        ),
{
    let p = |cd: ClientDelta| (cd.start_ms matches Some(x) ==> x + MAX_RATE_WINDOW_MS >= sample_ms);
    let id = node.identity_key;
    let generation = node.generation;
    let previous = node_lookup(st.previous_nodes, id, generation);
    let last_progress = match previous {
        Some(pp) => pp.last_progress_ms,
        None => sample_ms,
    };
    lemma_name_lookup_in(st.deltas, id);
    let cd0 = match name_lookup(st.deltas, id) {
        Some(c) => c,
        None => empty_client_delta(),
    };
    assert forall|j: int| 0 <= j < st.deltas.len() implies p(#[trigger] st.deltas[j].value) by {
        assert(starts_within(st.deltas, sample_ms));
    }
    assert(p(cd0));
    let delta_r: Result<TrafficCounters, &'static str> = match previous {
        Some(pp) => match spec_checked_delta(node.counters, pp.counters) {
            Some(d) => Ok(d),
            None => Err("ecm_node_counter_reset"),
        },
        None => Ok(zero_counters()),
    };
    if let Ok(delta) = delta_r {
        let cd1 = ClientDelta { raw: spec_add(cd0.raw, delta), ..cd0 };
        assert(p(cd1));
        if spec_has_traffic(delta) {
            let start = spec_window_start(sample_ms, last_progress, previous_sample_ms);
            let window = sat_sub(sample_ms, start);
            if let Some(n) = spec_fcs_normalized(delta) {
                let cd2 = ClientDelta {
                    normalized: spec_add(cd1.normalized, n),
                    start_ms: Some(
                        match cd1.start_ms {
                            Some(c) => min_u64(c, start),
                            None => start,
                        },
                    ),
                    ..cd1
                };
                assert(p(cd2));
                let cd3 = if n.tx_bytes != 0 {
                    let (h, bps) = spec_record_rate(
                        st.tx_histories,
                        id,
                        generation,
                        spec_rate(n.tx_bytes, window),
                    );
                    ClientDelta { tx_bps: sat_add(cd2.tx_bps, bps), ..cd2 }
                } else {
                    cd2
                };
                let cd4 = if n.rx_bytes != 0 {
                    let (h, bps) = spec_record_rate(
                        st.rx_histories,
                        id,
                        generation,
                        spec_rate(n.rx_bytes, window),
                    );
                    ClientDelta { rx_bps: sat_add(cd3.rx_bps, bps), ..cd3 }
                } else {
                    cd3
                };
                assert(p(cd4));
                lemma_name_upsert_preserves(st.deltas, id, cd4, p);
            }
        } else {
            lemma_name_upsert_preserves(st.deltas, id, cd1, p);
        }
    }
}

proof fn lemma_node_fold_starts(
    st: DeltaState,
    nodes: Seq<NodeCountersView>,
    sample_ms: u64,
    previous_sample_ms: u64,
)
    requires
        starts_within(st.deltas, sample_ms),
        previous_sample_ms + MAX_RATE_WINDOW_MS >= sample_ms,
    ensures
        spec_node_fold(st, nodes, sample_ms, previous_sample_ms) matches Ok(s2) ==> starts_within(
            s2.deltas,
            sample_ms,
        ),
    decreases nodes.len(),
{
    if nodes.len() > 0 {
        lemma_node_fold_starts(st, nodes.drop_last(), sample_ms, previous_sample_ms);
        if let Ok(s) = spec_node_fold(st, nodes.drop_last(), sample_ms, previous_sample_ms) {
            lemma_node_step_starts(s, nodes.last(), sample_ms, previous_sample_ms);
        }
    }
}

proof fn lemma_publish_fold_start(ps: PublishState, deltas: Seq<NamedView<ClientDelta>>, end_ms: u64)
    requires
        starts_within(deltas, end_ms),
        ps.start_ms + MAX_RATE_WINDOW_MS >= end_ms,
    ensures
        spec_publish_fold(ps, deltas, end_ms).start_ms + MAX_RATE_WINDOW_MS >= end_ms,
    decreases deltas.len(),
{
    if deltas.len() > 0 {
        assert(starts_within(deltas.drop_last(), end_ms)) by {
            assert forall|j: int| 0 <= j < deltas.drop_last().len() implies (#[trigger] deltas.drop_last()[j].value.start_ms matches Some(s) ==> s + MAX_RATE_WINDOW_MS >= end_ms) by {
                assert(deltas.drop_last()[j] == deltas[j]);
            }
        }
        lemma_publish_fold_start(ps, deltas.drop_last(), end_ms);
        assert(deltas.last() == deltas[deltas.len() - 1]);
    }
}

/// A freshly published window never spans more than the longest rate window:
/// a collection gap restarts the book, and traffic after a long idle is
/// measured from the previous poll.
pub proof fn published_window_is_bounded(
    m: BookState,
    nodes: Seq<NodeCountersView>,
    sample_ms: u64,
    lan: LanClockView,
)
    ensures
        ({
            let (m2, out) = spec_window_update(m, nodes, sample_ms, lan);
            out.reason == "ecm_node_delta_published" ==> out.end_ms == sample_ms && sat_sub(
                out.end_ms,
                out.start_ms,
            ) <= MAX_RATE_WINDOW_MS
        }),
{
    if m.initialized && m.previous_sample_ms is Some && m.previous_lan is Some {
        let previous_sample_ms = m.previous_sample_ms->0;
        if spec_reset_reason(previous_sample_ms, m.previous_lan->0, sample_ms, lan) is None {
            let start = DeltaState {
                previous_nodes: spec_fresh_nodes(m.previous_nodes, sample_ms),
                tx_histories: m.tx_histories,
                rx_histories: m.rx_histories,
                deltas: Seq::empty(),
            };
            lemma_node_fold_starts(start, nodes, sample_ms, previous_sample_ms);
            if let Ok(st) = spec_node_deltas(m, nodes, sample_ms, previous_sample_ms) {
                if spec_any_progress(st.deltas) {
                    lemma_publish_fold_start(
                        PublishState {
                            committed_totals: m.committed_totals,
                            published_rates: m.published_rates,
                            start_ms: sample_ms,
                            sample_total: zero_counters(),
                        },
                        st.deltas,
                        sample_ms,
                    );
                }
            }
        }
    }
}

} // verus!
