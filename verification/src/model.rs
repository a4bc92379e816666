use vstd::prelude::*;

verus! {

/// The largest value that a signed 64-bit wire integer holds.
pub const WIRE_INT_MAX: u64 = 0x7fff_ffff_ffff_ffff;

/// A counter as the wire carries it: values past the signed 64-bit range
/// are clamped to its maximum.
pub open spec fn spec_saturated(value: u64) -> i64 {
    if value <= WIRE_INT_MAX {
        value as i64
    } else {
        WIRE_INT_MAX as i64
    }
}

/// The wire form of a counter, clamped to the signed 64-bit range.
pub fn saturated_u64(value: u64) -> (r: i64)
    ensures
        r == spec_saturated(value),
        0 <= r,
        r as int == (if value <= WIRE_INT_MAX { value as int } else { WIRE_INT_MAX as int }),
{
    if value <= WIRE_INT_MAX {
        value as i64
    } else {
        WIRE_INT_MAX as i64
    }
}

/// The wire form of an optional counter.
pub fn saturated_option_u64(value: Option<u64>) -> (r: Option<i64>)
    ensures
        r == (match value {
            Some(v) => Some(spec_saturated(v)),
            None => None::<i64>,
        }),
{
    match value {
        Some(v) => Some(saturated_u64(v)),
        None => None,
    }
}

#[derive(Clone, Copy, Debug, Eq, PartialEq, Structural)]
pub enum Mode {
    Full,
    Degraded,
    Unsupported,
}

#[derive(Clone, Copy, Debug, Eq, PartialEq, Structural)]
pub enum Confidence {
    High,
    Medium,
    Low,
    Unsupported,
}

/// What the platform and the running collectors can do.
#[derive(Clone, Debug, Default, Eq, PartialEq, Structural)]
pub struct Capabilities {
    /// The kernel/userspace TC-BPF path can be configured; this does not mean
    /// that the current runtime has attached hooks or read a map.
    pub bpf_supported: bool,
    /// Mirrors the active BPF runtime state.
    pub bpf: bool,
    pub bpf_package: bool,
    pub bpf_object: bool,
    pub bpf_runtime_metrics: bool,
    pub conntrack_fallback: bool,
    pub live_metrics: bool,
    pub fw4: bool,
    pub nft: bool,
    pub software_flow_offload: bool,
    pub hardware_flow_offload: bool,
    pub nss: bool,
    pub nss_ecm_offload: bool,
    pub nss_ppe_offload: bool,
    pub nss_ecm_node: bool,
    pub nss_ecm_bpf: bool,
    pub nss_bridge_mgr: bool,
    pub nss_ifb: bool,
    pub nss_nsm: bool,
    pub nss_dp: bool,
    pub nss_mcs: bool,
    pub fullcone: bool,
    pub nf_conntrack_acct: bool,
    pub flowtable_counter: bool,
    pub tc: bool,
    pub tc_clsact: bool,
    pub existing_tc_filters: bool,
    pub ifb: bool,
    pub sqm: bool,
    pub qosify: bool,
    pub openclash: bool,
    pub openclash_fake_ip: bool,
    pub openclash_tun_mix: bool,
    pub openclash_redirect_dns: bool,
    pub openclash_dns_chain_complete: bool,
    pub openclash_router_self_proxy: bool,
    pub openclash_udp_proxy: bool,
    pub openclash_ipv6: bool,
    pub dae: bool,
    pub homeproxy: bool,
    pub lan_bridge: bool,
    pub vlan: bool,
    pub wlan: bool,
    pub lan_edge: bool,
    pub safe_attach: bool,
    pub map_full: bool,
}

/// How much of the traffic a rate window saw.
#[derive(Clone, Debug, Eq, PartialEq)]
pub struct Coverage {
    pub quality: String,
    pub samples: u64,
    pub window_ms: Option<u64>,
    pub tx_pct: Option<u8>,
    pub rx_pct: Option<u8>,
    pub denom_rx_bytes: Option<u64>,
    pub denom_tx_bytes: Option<u64>,
    pub numer_rx_bytes: Option<u64>,
    pub numer_tx_bytes: Option<u64>,
}

#[derive(Clone, Copy, Debug, Default, Eq, PartialEq, Structural)]
pub enum RateScope {
    AllFrames,
    Unicast,
    RoutedObserved,
    LowerBound,
    #[default]
    Unset,
}

#[derive(Clone, Copy, Debug, Default, Eq, PartialEq, Structural)]
pub enum RateSource {
    EdgePort,
    EdgeWifi,
    EcmBpfFallback,
    EcmNssLowerBound,
    TcBpfLowerBound,
    #[default]
    Unset,
}

#[derive(Clone, Copy, Debug, Default, Eq, PartialEq, Structural)]
pub enum RateCoverage {
    Full,
    Partial,
    Degraded,
    #[default]
    Unavailable,
}

#[derive(Clone, Copy, Debug, Eq, PartialEq, Structural)]
pub enum ByteDomain {
    L2NoFcs,
    L2WithFcs,
    StationData,
    EcmData,
}

#[derive(Clone, Copy, Debug, Default, Eq, PartialEq, Structural)]
pub enum AttachmentKind {
    Ethernet,
    Wifi,
    #[default]
    Unknown,
}

#[derive(Clone, Copy, Debug, Default, Eq, PartialEq, Structural)]
pub enum AttachmentTrust {
    AssociatedStation,
    ObservedExclusive,
    Shared,
    #[default]
    Unknown,
}

#[derive(Clone, Copy, Debug, Default, Eq, PartialEq, Structural)]
pub enum ClassificationState {
    Warmup,
    Aligned,
    Partial,
    Stale,
    DomainMismatch,
    WindowMismatch,
    CounterSkew,
    MapLoss,
    #[default]
    Unavailable,
}

/// Where one direction of a client's rate comes from.
#[derive(Clone, Copy, Debug, Eq, PartialEq, Structural)]
pub struct RateDirectionMeta {
    pub source: RateSource,
    pub coverage: RateCoverage,
    pub byte_domain: Option<ByteDomain>,
    /// Direction overrides are emitted only when they differ from the compact
    /// client-level summary in `ClientRateMeta`.
    pub sample_ms: Option<u64>,
    pub window_ms: Option<u64>,
    pub stale: Option<bool>,
}

/// A direction with no source and no coverage.
pub open spec fn empty_direction() -> RateDirectionMeta {
    RateDirectionMeta {
        source: RateSource::Unset,
        coverage: RateCoverage::Unavailable,
        byte_domain: None,
        sample_ms: None,
        window_ms: None,
        stale: None,
    }
}

impl Default for RateDirectionMeta {
    fn default() -> (r: Self)
        ensures
            r == empty_direction(),
    {
        RateDirectionMeta {
            source: RateSource::Unset,
            coverage: RateCoverage::Unavailable,
            byte_domain: None,
            sample_ms: None,
            window_ms: None,
            stale: None,
        }
    }
}

/// Where a client is attached.
#[derive(Clone, Debug, Default, Eq, PartialEq)]
pub struct RateAttachment {
    pub kind: AttachmentKind,
    pub ifname: Option<String>,
    pub trust: AttachmentTrust,
}

#[derive(Clone, Copy, Debug, Eq, PartialEq, Structural)]
pub struct RateClassificationSummary {
    pub state: ClassificationState,
    pub tx_state: Option<ClassificationState>,
    pub rx_state: Option<ClassificationState>,
    pub sample_ms: Option<u64>,
    pub window_ms: Option<u64>,
    pub comparison_window_ms: Option<u64>,
    pub tx_coverage_pct: Option<u8>,
    pub rx_coverage_pct: Option<u8>,
}

impl Default for RateClassificationSummary {
    fn default() -> (r: Self)
        ensures
            r.state == ClassificationState::Unavailable,
            r.tx_state.is_none() && r.rx_state.is_none(),
            r.sample_ms.is_none() && r.window_ms.is_none() && r.comparison_window_ms.is_none(),
            r.tx_coverage_pct.is_none() && r.rx_coverage_pct.is_none(),
    {
        RateClassificationSummary {
            state: ClassificationState::Unavailable,
            tx_state: None,
            rx_state: None,
            sample_ms: None,
            window_ms: None,
            comparison_window_ms: None,
            tx_coverage_pct: None,
            rx_coverage_pct: None,
        }
    }
}

pub const CLIENT_RATE_META_VERSION: u8 = 1;

/// How a client's published rate was measured.
#[derive(Clone, Debug, Eq, PartialEq)]
pub struct ClientRateMeta {
    pub version: u8,
    pub scope: RateScope,
    pub tx: RateDirectionMeta,
    pub rx: RateDirectionMeta,
    pub attachment: Option<RateAttachment>,
    pub generation: u64,
    pub window_ms: Option<u64>,
    pub sample_ms: Option<u64>,
    pub stale: bool,
    pub reason_codes: Vec<String>,
    pub classification: Option<RateClassificationSummary>,
}

impl Default for ClientRateMeta {
    fn default() -> (r: Self)
        ensures
            r.version == CLIENT_RATE_META_VERSION,
            r.scope == RateScope::Unset,
            r.tx == empty_direction(),
            r.rx == empty_direction(),
            r.attachment.is_none(),
            r.generation == 0,
            r.window_ms.is_none() && r.sample_ms.is_none(),
            !r.stale,
            r.reason_codes@.len() == 0,
            r.classification.is_none(),
    {
        ClientRateMeta {
            version: CLIENT_RATE_META_VERSION,
            scope: RateScope::Unset,
            tx: RateDirectionMeta::default(),
            rx: RateDirectionMeta::default(),
            attachment: None,
            generation: 0,
            window_ms: None,
            sample_ms: None,
            stale: false,
            reason_codes: Vec::new(),
            classification: None,
        }
    }
}

/// The control state of a client, without identity or address data.
#[derive(Clone, Debug, Eq, PartialEq)]
pub struct ClientControlSummary {
    pub configured: bool,
    pub upload_bps: u64,
    pub download_bps: u64,
    pub internet_disabled: bool,
    pub shaping_supported: bool,
    pub blocking_supported: bool,
    pub max_rate_bps: u64,
    pub state: String,
    pub reason: Option<String>,
    pub queue_overflow: bool,
}

/// One row of the client table.
#[derive(Clone, Debug, Eq, PartialEq)]
pub struct Client {
    pub mac: String,
    pub identity_key: String,
    pub zone: String,
    pub interface: String,
    pub ips: Vec<String>,
    pub hostname: Option<String>,
    pub rx_bps: u64,
    pub tx_bps: u64,
    pub last_seen: u64,
    pub sample_ms: Option<u64>,
    pub rx_bytes: Option<u64>,
    pub tx_bytes: Option<u64>,
    pub collector_mode: String,
    pub confidence: Confidence,
    pub warnings: Vec<String>,
    pub tcp_conns: Option<u64>,
    pub udp_conns: Option<u64>,
    pub udp_dns_conns: Option<u64>,
    pub udp_other_conns: Option<u64>,
    pub rate_meta: Option<ClientRateMeta>,
    /// Compact runtime control state; persistent identity and address data
    /// never appear here.
    pub control: Option<ClientControlSummary>,
}

/// One point of the LAN-wide overview.
#[derive(Clone, Copy, Debug, Eq, PartialEq, Structural)]
pub struct OverviewSample {
    pub sample_ms: u64,
    pub tx_bps: u64,
    pub rx_bps: u64,
    pub client_count: u32,
    pub active_clients: u32,
    pub tcp_conns: Option<u32>,
    pub udp_conns: Option<u32>,
    pub udp_dns_conns: Option<u32>,
    pub udp_other_conns: Option<u32>,
}

#[derive(Clone, Debug, Eq, PartialEq)]
pub struct OverviewResponse {
    pub samples: Vec<OverviewSample>,
    pub max_samples: usize,
    pub overview_window_samples: usize,
    pub active_client_window_ms: u64,
    pub active_client_min_bps: u64,
    pub sample_source: String,
    pub conn_semantics: String,
}

#[derive(Clone, Copy, Debug, Eq, PartialEq, Structural)]
pub enum InterfaceRole {
    Lan,
    Observe,
    Wan,
    Excluded,
    Unknown,
}

#[derive(Clone, Copy, Debug, Eq, PartialEq, Structural)]
pub enum InterfaceStatus {
    Pending,
    Active,
    Available,
    Missing,
    Excluded,
    Unsupported,
}

/// A network device that the configuration may select.
#[derive(Clone, Debug, Eq, PartialEq)]
pub struct Sysdevice {
    pub name: String,
    pub selected: bool,
    pub observed: bool,
    pub recommended_lan: bool,
    pub collect_allowed: bool,
    pub collect_reason: String,
    pub is_bridge: bool,
    pub is_bridge_port: bool,
    pub is_nss_ifb: bool,
    pub speed_mbps: Option<u64>,
}

#[derive(Clone, Copy, Debug, Eq, PartialEq, Structural)]
pub struct SysdeviceLimits {
    pub max_configured: usize,
    pub max_name_length: usize,
}

#[derive(Clone, Debug, Eq, PartialEq)]
pub struct SysdevicesResponse {
    pub contract_version: u32,
    pub devices: Vec<Sysdevice>,
    pub current_ifnames: Vec<String>,
    pub current_observed: Vec<String>,
    pub current_excluded: Vec<String>,
    pub configured_ifnames: Vec<String>,
    pub configured_observed: Vec<String>,
    pub configured_excluded: Vec<String>,
    pub orphaned: Vec<String>,
    pub limits: SysdeviceLimits,
}

pub const DIAGNOSTICS_CONTRACT_VERSION: u32 = 1;

pub const DIAGNOSTICS_SCHEMA_VERSION: u32 = 1;

#[derive(Clone, Copy, Debug, Eq, PartialEq, Structural)]
pub enum DiagnosticServiceState {
    Starting,
    Running,
    Degraded,
}

#[derive(Clone, Copy, Debug, Eq, PartialEq, Structural)]
pub enum DiagnosticCollectionState {
    Fresh,
    Stale,
    Degraded,
    Unavailable,
}

#[derive(Clone, Copy, Debug, Eq, PartialEq, Structural)]
pub enum DiagnosticHealthState {
    Healthy,
    Degraded,
    Unavailable,
    Disabled,
}

#[derive(Clone, Debug, Eq, PartialEq)]
pub struct DiagnosticPublicError {
    pub code: String,
    pub category: String,
    pub stage: String,
    pub retriable: bool,
    pub message_public: String,
}

#[derive(Clone, Copy, Debug, Eq, PartialEq, Structural)]
pub struct DiagnosticService {
    pub state: DiagnosticServiceState,
    pub ubus_connected: bool,
}

#[derive(Clone, Debug, Eq, PartialEq)]
pub struct DiagnosticCollection {
    pub state: DiagnosticCollectionState,
    pub generation: u64,
    pub last_attempt_ms: Option<u64>,
    pub last_success_ms: Option<u64>,
    pub age_ms: Option<u64>,
    pub refresh_interval_ms: u32,
    pub consecutive_failures: u32,
    pub retained: bool,
    pub last_error: Option<DiagnosticPublicError>,
}

impl DiagnosticCollection {
    /// A collection that has produced nothing yet.
    pub fn unavailable(refresh_interval_ms: u32) -> (r: Self)
        ensures
            r.state == DiagnosticCollectionState::Unavailable,
            r.generation == 0,
            r.last_attempt_ms.is_none(),
            r.last_success_ms.is_none(),
            r.age_ms.is_none(),
            r.refresh_interval_ms == refresh_interval_ms,
            r.consecutive_failures == 0,
            !r.retained,
            r.last_error.is_none(),
    {
        DiagnosticCollection {
            state: DiagnosticCollectionState::Unavailable,
            generation: 0,
            last_attempt_ms: None,
            last_success_ms: None,
            age_ms: None,
            refresh_interval_ms,
            consecutive_failures: 0,
            retained: false,
            last_error: None,
        }
    }
}

#[derive(Clone, Debug, Eq, PartialEq)]
pub struct DiagnosticDataPath {
    pub configured_rate: String,
    pub effective_rate: String,
    pub configured_connection: String,
    pub effective_connection: String,
    pub fallback_active: bool,
    pub reason_code: Option<String>,
}

#[derive(Clone, Copy, Debug, Eq, PartialEq, Structural)]
pub struct DiagnosticInterfaces {
    pub state: DiagnosticHealthState,
    pub total: usize,
    pub available: usize,
    pub missing: usize,
    pub sample_ms: Option<u64>,
}

#[derive(Clone, Debug, Eq, PartialEq)]
pub struct DiagnosticConnection {
    pub state: DiagnosticHealthState,
    pub source: Option<String>,
    pub entries_seen: Option<u64>,
    pub entries_matched: Option<u64>,
    pub parse_errors: Option<u64>,
}

#[derive(Clone, Debug, Eq, PartialEq)]
pub struct DiagnosticSubsystem {
    pub id: String,
    pub state: DiagnosticHealthState,
    pub code: Option<String>,
}

#[derive(Clone, Debug, Eq, PartialEq)]
pub struct DiagnosticVersions {
    pub daemon: String,
    pub package: String,
    pub contract_version: u32,
    pub schema_version: u32,
}

#[derive(Clone, Debug, Eq, PartialEq)]
pub struct DiagnosticAlert {
    pub id: String,
    pub severity: String,
    pub component: String,
    pub state: String,
    pub message_public: String,
}

#[derive(Clone, Debug, Eq, PartialEq)]
pub struct DiagnosticConfigIssue {
    pub id: String,
    pub severity: String,
    pub option: String,
    pub state: String,
    pub message_public: String,
}

#[derive(Clone, Debug, Eq, PartialEq)]
pub struct DiagnosticsResponse {
    pub contract_version: u32,
    pub service: DiagnosticService,
    pub collection: DiagnosticCollection,
    pub data_path: DiagnosticDataPath,
    pub interfaces: DiagnosticInterfaces,
    pub connection: DiagnosticConnection,
    pub subsystems: Vec<DiagnosticSubsystem>,
    pub versions: DiagnosticVersions,
    pub alerts: Vec<DiagnosticAlert>,
    pub config_issues: Vec<DiagnosticConfigIssue>,
}

} // verus!
