use vstd::prelude::*;

verus! {

/// What the running collectors report of their own health.
#[derive(Clone, Debug, Default, Eq, PartialEq)]
pub struct RuntimeHealth {
    pub bpf_object_loaded: bool,
    pub bpf_attached: bool,
    pub bpf_expected_hook_count: usize,
    pub bpf_attached_hook_count: usize,
    pub bpf_map_read_attempted: bool,
    pub bpf_map_read_ok: bool,
    pub bpf_last_complete_snapshot_ms: Option<u64>,
    pub bpf_freshness_ms: u64,
    pub now_ms: u64,
    pub bpf_snapshot_clients: usize,
    pub bpf_self_heal_recoveries: u64,
    pub bpf_self_heal_failures: u64,
    pub bpf_self_heal_last_reason: Option<String>,
    pub bpf_self_heal_last_failure: Option<String>,
    pub dae_early_bpf: bool,
    pub runtime_error: Option<String>,
    pub conntrack_netlink_available: bool,
    pub conntrack_procfs_available: bool,
    pub nss_sync_read_ok: Option<bool>,
}

} // verus!
