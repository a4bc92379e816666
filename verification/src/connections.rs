use vstd::prelude::*;
use crate::policy::RateCollector;
use crate::probe::RuntimeHealth;
use crate::ubus::Method;

verus! {

pub const CONNECTION_ONLY_WARNING: &'static str = "conntrack_connection_only";

#[derive(Clone, Copy, Debug, Eq, PartialEq, Structural)]
pub enum PeriodicConntrackPlan {
    Skip,
    Read,
}

/// How long a client request may reuse the last conntrack read: concurrent
/// requests share it, but no snapshot outlives the shortest refresh interval.
pub const CLIENT_CONNTRACK_CACHE_TTL_MS: u64 = 1_000;

#[derive(Clone, Copy, Debug, Eq, PartialEq, Structural)]
pub enum ClientConntrackPlan {
    ReuseCached,
    Read,
}

/// Reuse the cached read only when there is one and it was attempted less
/// than the cache lifetime ago, by a clock that has not gone back.
pub open spec fn spec_client_conntrack_plan(now_ms: u64, last_attempt_ms: Option<u64>, snapshot_available: bool) -> ClientConntrackPlan {
    match last_attempt_ms {
        None => ClientConntrackPlan::Read,
        Some(last) => if snapshot_available && now_ms >= last && now_ms - last
            < CLIENT_CONNTRACK_CACHE_TTL_MS {
            ClientConntrackPlan::ReuseCached
        } else {
            ClientConntrackPlan::Read
        },
    }
}

pub fn client_conntrack_plan(now_ms: u64, last_attempt_ms: Option<u64>, snapshot_available: bool) -> (r:
    ClientConntrackPlan)
    ensures
        r == spec_client_conntrack_plan(now_ms, last_attempt_ms, snapshot_available),
{
    let last = match last_attempt_ms {
        Some(last) => last,
        None => return ClientConntrackPlan::Read,
    };
    if snapshot_available && now_ms >= last && now_ms - last < CLIENT_CONNTRACK_CACHE_TTL_MS {
        ClientConntrackPlan::ReuseCached
    } else {
        ClientConntrackPlan::Read
    }
}

/// Only the conntrack-synchronised rate collector reads conntrack every poll.
pub fn periodic_conntrack_plan(rate_collector: RateCollector) -> (r: PeriodicConntrackPlan)
    ensures
        r == (if rate_collector == RateCollector::NssConntrackSync {
            PeriodicConntrackPlan::Read
        } else {
            PeriodicConntrackPlan::Skip
        }),
{
    match rate_collector {
        RateCollector::NssConntrackSync => PeriodicConntrackPlan::Read,
        RateCollector::Bpf | RateCollector::NssEcmDirect | RateCollector::Unsupported => {
            PeriodicConntrackPlan::Skip
        },
    }
}

#[derive(Clone, Copy, Debug, Default, Eq, PartialEq, Structural)]
pub enum ConntrackObservationState {
    #[default]
    Skipped,
    Succeeded,
    Failed,
}

/// The outcome of the last conntrack read.
#[derive(Clone, Debug, Eq, PartialEq)]
pub struct ConntrackObservation {
    pub state: ConntrackObservationState,
    pub last_attempt_ms: Option<u64>,
    pub netlink_read: bool,
    pub procfs_read: bool,
    pub error: Option<String>,
}

impl Default for ConntrackObservation {
    fn default() -> (r: Self)
        ensures
            r.state == ConntrackObservationState::Skipped,
            r.last_attempt_ms is None,
            !r.netlink_read && !r.procfs_read,
            r.error is None,
    {
        ConntrackObservation {
            state: ConntrackObservationState::Skipped,
            last_attempt_ms: None,
            netlink_read: false,
            procfs_read: false,
            error: None,
        }
    }
}

/// The health with the conntrack facts of `o` written in, unless nothing was
/// ever attempted.
pub open spec fn health_after(o: ConntrackObservation, snapshot_available: bool, h: RuntimeHealth) -> RuntimeHealth {
    if o.state == ConntrackObservationState::Skipped && o.last_attempt_ms is None {
        h
    } else {
        RuntimeHealth {
            conntrack_netlink_available: o.netlink_read,
            conntrack_procfs_available: o.procfs_read,
            nss_sync_read_ok: Some(
                match o.state {
                    ConntrackObservationState::Succeeded => true,
                    ConntrackObservationState::Failed => false,
                    ConntrackObservationState::Skipped => snapshot_available,
                },
            ),
            ..h
        }
    }
}

impl ConntrackObservation {
    pub fn apply_runtime_health(&self, snapshot_available: bool, runtime_health: &mut RuntimeHealth)
        ensures
            *final(runtime_health) == health_after(*self, snapshot_available, *old(runtime_health)),
    {
        if self.state == ConntrackObservationState::Skipped && self.last_attempt_ms.is_none() {
            return;
        }
        runtime_health.conntrack_netlink_available = self.netlink_read;
        runtime_health.conntrack_procfs_available = self.procfs_read;
        runtime_health.nss_sync_read_ok = Some(
            match self.state {
                ConntrackObservationState::Succeeded => true,
                ConntrackObservationState::Failed => false,
                ConntrackObservationState::Skipped => snapshot_available,
            },
        );
    }

    pub fn record_skipped(&mut self)
        ensures
            *final(self) == (ConntrackObservation {
                state: ConntrackObservationState::Skipped,
                ..*old(self)
            }),
    {
        self.state = ConntrackObservationState::Skipped;
    }

    pub fn record_success(&mut self, now_ms: u64, netlink_read: bool, procfs_read: bool)
        ensures
            final(self).state == ConntrackObservationState::Succeeded,
            final(self).last_attempt_ms == Some(now_ms),
            final(self).netlink_read == netlink_read,
            final(self).procfs_read == procfs_read,
            final(self).error is None,
    {
        self.state = ConntrackObservationState::Succeeded;
        self.last_attempt_ms = Some(now_ms);
        self.netlink_read = netlink_read;
        self.procfs_read = procfs_read;
        self.error = None;
    }

    pub fn record_failure(&mut self, now_ms: u64, error: &str, netlink_read: bool, procfs_read: bool)
        ensures
            final(self).state == ConntrackObservationState::Failed,
            final(self).last_attempt_ms == Some(now_ms),
            final(self).netlink_read == netlink_read,
            final(self).procfs_read == procfs_read,
            final(self).error matches Some(e) && e@ == error@,
    {
        self.state = ConntrackObservationState::Failed;
        self.last_attempt_ms = Some(now_ms);
        self.netlink_read = netlink_read;
        self.procfs_read = procfs_read;
        self.error = Some(error.to_owned());
    }

    pub fn restore(&mut self, checkpoint: Self)
        ensures
            *final(self) == checkpoint,
    {
        *self = checkpoint;
    }
}

#[derive(Clone, Copy, Debug, Eq, PartialEq, Structural)]
pub enum BeforeReplyAction {
    Nothing,
    RefreshConnections,
    Reload,
}

/// What must happen before a method is answered: client rows get fresh
/// connection counts, a reload reloads, and the rest need nothing.
pub open spec fn spec_before_reply_action(method: Method) -> BeforeReplyAction {
    match method {
        Method::Clients | Method::ClientConnections => BeforeReplyAction::RefreshConnections,
        Method::Reload => BeforeReplyAction::Reload,
        _ => BeforeReplyAction::Nothing,
    }
}

pub fn before_reply_action(method: Method) -> (r: BeforeReplyAction)
    ensures
        r == spec_before_reply_action(method),
{
    match method {
        Method::Clients | Method::ClientConnections => BeforeReplyAction::RefreshConnections,
        Method::Reload => BeforeReplyAction::Reload,
        Method::Status | Method::Overview | Method::Health | Method::Interfaces | Method::Sysdevices
        | Method::Diagnostics => BeforeReplyAction::Nothing,
    }
}

/// A client with counted connections: TCP or UDP.
pub open spec fn spec_has_counted_connections(tcp_conns: u32, udp_conns: u32) -> bool {
    tcp_conns != 0 || udp_conns != 0
}

/// The conntrack source that a read used.
pub fn conntrack_source(netlink_read: bool) -> (r: &'static str)
    ensures
        r@ == (if netlink_read {
            "conntrack_netlink"@
        } else {
            "conntrack_procfs"@
        }),
{
    if netlink_read {
        "conntrack_netlink"
    } else {
        "conntrack_procfs"
    }
}

} // verus!
