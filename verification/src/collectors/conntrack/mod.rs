use vstd::prelude::*;

pub mod address;
pub mod aggregate;
pub mod netlink;
pub mod procfs;

verus! {

pub const NETLINK_SOURCE_PATH: &'static str = "netlink:ctnetlink";

pub const NETLINK_COUNTER_SOURCE: &'static str = "ctnetlink_conntrack_acct_orig_reply_bytes";

pub const PROCFS_COUNTER_SOURCE: &'static str = "procfs_conntrack_acct_orig_reply_bytes";

#[derive(Clone, Copy, Debug, Eq, PartialEq, Structural)]
pub enum Protocol {
    Tcp,
    Udp,
    Other(u8),
}

#[derive(Clone, Copy, Debug, Eq, PartialEq, Structural)]
pub enum TcpState {
    SynSent,
    SynRecv,
    Established,
    FinWait,
    CloseWait,
    LastAck,
    TimeWait,
    Close,
    Unknown(u8),
}

/// An address of either family, by its bytes in network order.
#[derive(Clone, Copy, Debug, Eq, PartialEq)]
pub enum IpAddress {
    V4([u8; 4]),
    V6([u8; 16]),
}

/// One conntrack entry: both tuples, their byte counters, the protocol and
/// the TCP state where there is one.
#[derive(Clone, Copy, Debug, Eq, PartialEq)]
pub struct FlowSample {
    pub orig_src: Option<IpAddress>,
    pub orig_dst: Option<IpAddress>,
    pub reply_src: Option<IpAddress>,
    pub reply_dst: Option<IpAddress>,
    pub orig_bytes: u64,
    pub reply_bytes: u64,
    pub orig_sport: u16,
    pub orig_dport: u16,
    pub reply_sport: u16,
    pub reply_dport: u16,
    pub protocol: Protocol,
    pub tcp_state: Option<TcpState>,
    pub assured: bool,
    pub conntrack_id: Option<u32>,
    pub conntrack_zone: Option<u16>,
}

/// A flow with nothing parsed yet.
pub open spec fn empty_flow() -> FlowSample {
    FlowSample {
        orig_src: None,
        orig_dst: None,
        reply_src: None,
        reply_dst: None,
        orig_bytes: 0,
        reply_bytes: 0,
        orig_sport: 0,
        orig_dport: 0,
        reply_sport: 0,
        reply_dport: 0,
        protocol: Protocol::Other(0),
        tcp_state: None,
        assured: false,
        conntrack_id: None,
        conntrack_zone: None,
    }
}

impl FlowSample {
    pub fn empty() -> (r: Self)
        ensures
            r == empty_flow(),
    {
        FlowSample {
            orig_src: None,
            orig_dst: None,
            reply_src: None,
            reply_dst: None,
            orig_bytes: 0,
            reply_bytes: 0,
            orig_sport: 0,
            orig_dport: 0,
            reply_sport: 0,
            reply_dport: 0,
            protocol: Protocol::Other(0),
            tcp_state: None,
            assured: false,
            conntrack_id: None,
            conntrack_zone: None,
        }
    }

    /// A UDP flow with port 53 on either side of either tuple.
    pub fn is_dns(&self) -> (r: bool)
        ensures
            r == (self.protocol == Protocol::Udp && (self.orig_sport == 53 || self.orig_dport == 53
                || self.reply_sport == 53 || self.reply_dport == 53)),
    {
        self.protocol == Protocol::Udp && (self.orig_sport == 53 || self.orig_dport == 53
            || self.reply_sport == 53 || self.reply_dport == 53)
    }
}

#[derive(Clone, Copy, Debug, Eq, PartialEq, Structural)]
pub enum CollectorMode {
    Auto,
    Netlink,
    Procfs,
}

} // verus!

verus! {

/// Why a conntrack read failed.
#[derive(Debug)]
pub enum CollectorReadError {
    Netlink(netlink::DumpError),
    Procfs(procfs::ProcfsError),
}

/// Where a conntrack snapshot came from and how its flows were classified.
#[derive(Clone, Debug, Default, Eq, PartialEq)]
pub struct CollectStats {
    pub source_path: String,
    pub netlink_attempted: bool,
    pub netlink_read: bool,
    pub procfs_read: bool,
    pub netlink_errno: Option<i32>,
    pub current_clients: usize,
    pub emitted_clients: usize,
    pub snapshot_pending: bool,
    pub skipped_no_arp: usize,
    pub no_lan_flows: usize,
    pub both_lan_flows: usize,
    pub src_lan_flows: usize,
    pub dst_lan_flows: usize,
    pub ipv4_lan_flows: usize,
    pub ipv6_lan_flows: usize,
    pub malformed_lines: usize,
    pub entries_seen: usize,
    pub entries_matched: usize,
    pub clients_dropped: usize,
}

/// The clients and connections of one conntrack read, with its statistics.
#[derive(Clone, Debug, Eq, PartialEq)]
pub struct CollectedSnapshot {
    pub clients: Vec<aggregate::ClientSample>,
    pub sample_ms: u64,
    pub connection_details: crate::connection_details::ConnectionDetailsSnapshot,
    pub connection_counters: crate::connection_details::ConnectionCountersSnapshot,
    pub counter_source: &'static str,
    pub stats: CollectStats,
}

/// Statistics that take the aggregation's counts, the read's origin and
/// its own entry counts; no client is emitted yet and nothing is pending.
pub open spec fn stats_match(
    s: CollectStats,
    a: aggregate::AggregateStats,
    current_clients: nat,
    source_path: Seq<char>,
    netlink_attempted: bool,
    netlink_read: bool,
    procfs_read: bool,
    netlink_errno: Option<i32>,
    malformed_lines: usize,
    entries_seen: usize,
) -> bool {
    &&& s.source_path@ == source_path
    &&& s.netlink_attempted == netlink_attempted
    &&& s.netlink_read == netlink_read
    &&& s.procfs_read == procfs_read
    &&& s.netlink_errno == netlink_errno
    &&& s.current_clients == current_clients
    &&& s.emitted_clients == 0
    &&& !s.snapshot_pending
    &&& s.skipped_no_arp == a.skipped_no_arp
    &&& s.no_lan_flows == a.no_lan_flows
    &&& s.both_lan_flows == a.both_lan_flows
    &&& s.src_lan_flows == a.src_lan_flows
    &&& s.dst_lan_flows == a.dst_lan_flows
    &&& s.ipv4_lan_flows == a.ipv4_lan_flows
    &&& s.ipv6_lan_flows == a.ipv6_lan_flows
    &&& s.malformed_lines == malformed_lines
    &&& s.entries_seen == entries_seen
    &&& s.entries_matched == a.entries_matched
    &&& s.clients_dropped == a.clients_dropped
}

fn stats_from_aggregate(
    snapshot: &aggregate::AggregateSnapshot,
    source_path: &str,
    netlink_attempted: bool,
    netlink_read: bool,
    procfs_read: bool,
    netlink_errno: Option<i32>,
    malformed_lines: usize,
    entries_seen: usize,
) -> (r: CollectStats)
    ensures
        stats_match(
            r,
            snapshot.stats,
            snapshot.clients@.len(),
            source_path@,
            netlink_attempted,
            netlink_read,
            procfs_read,
            netlink_errno,
            malformed_lines,
            entries_seen,
        ),
{
    CollectStats {
        source_path: source_path.to_owned(),
        netlink_attempted,
        netlink_read,
        procfs_read,
        netlink_errno,
        current_clients: snapshot.clients.len(),
        emitted_clients: 0,
        snapshot_pending: false,
        skipped_no_arp: snapshot.stats.skipped_no_arp,
        no_lan_flows: snapshot.stats.no_lan_flows,
        both_lan_flows: snapshot.stats.both_lan_flows,
        src_lan_flows: snapshot.stats.src_lan_flows,
        dst_lan_flows: snapshot.stats.dst_lan_flows,
        ipv4_lan_flows: snapshot.stats.ipv4_lan_flows,
        ipv6_lan_flows: snapshot.stats.ipv6_lan_flows,
        malformed_lines,
        entries_seen,
        entries_matched: snapshot.stats.entries_matched,
        clients_dropped: snapshot.stats.clients_dropped,
    }
}

/// A collected snapshot made of an aggregation, its counter source and
/// statistics.
pub open spec fn collected_from(c: CollectedSnapshot, a: aggregate::AggregateSnapshot, counter_source: &'static str) -> bool {
    &&& c.clients == a.clients
    &&& c.sample_ms == a.sample_ms
    &&& c.connection_details == a.connection_details
    &&& c.connection_counters == a.connection_counters
    &&& c.counter_source == counter_source
}

fn finish_aggregate(aggregate: aggregate::AggregateSnapshot, counter_source: &'static str, stats: CollectStats) -> (r: CollectedSnapshot)
    ensures
        collected_from(r, aggregate, counter_source),
        r.stats == stats,
{
    CollectedSnapshot {
        clients: aggregate.clients,
        sample_ms: aggregate.sample_ms,
        connection_details: aggregate.connection_details,
        connection_counters: aggregate.connection_counters,
        counter_source,
        stats,
    }
}

/// The snapshot of an aggregation streamed from a netlink dump.
pub open spec fn netlink_aggregate_collected(c: CollectedSnapshot, s: netlink::NetlinkAggregateSnapshot) -> bool {
    &&& collected_from(c, s.aggregate, s.counter_source)
    &&& stats_match(
        c.stats,
        s.aggregate.stats,
        s.aggregate.clients@.len(),
        s.source_path@,
        true,
        true,
        false,
        None,
        s.malformed_entries,
        s.entries_seen,
    )
}

/// The snapshot of an aggregation streamed from the procfs table.
pub open spec fn procfs_aggregate_collected(c: CollectedSnapshot, s: procfs::ProcfsAggregateSnapshot, netlink_attempted: bool, netlink_errno: Option<i32>) -> bool {
    &&& collected_from(c, s.aggregate, s.counter_source)
    &&& stats_match(
        c.stats,
        s.aggregate.stats,
        s.aggregate.clients@.len(),
        s.source_path@,
        netlink_attempted,
        false,
        true,
        netlink_errno,
        s.malformed_lines,
        s.entries_seen,
    )
}

fn finish_netlink_aggregate(snapshot: netlink::NetlinkAggregateSnapshot) -> (r: Result<CollectedSnapshot, CollectorReadError>)
    ensures
        r matches Ok(c) && netlink_aggregate_collected(c, snapshot),
{
    let stats = stats_from_aggregate(
        &snapshot.aggregate,
        snapshot.source_path,
        true,
        true,
        false,
        None,
        snapshot.malformed_entries,
        snapshot.entries_seen,
    );
    Ok(finish_aggregate(snapshot.aggregate, snapshot.counter_source, stats))
}

fn finish_procfs_aggregate(snapshot: procfs::ProcfsAggregateSnapshot, netlink_attempted: bool, netlink_errno: Option<i32>) -> (r: Result<CollectedSnapshot, CollectorReadError>)
    ensures
        r matches Ok(c) && procfs_aggregate_collected(c, snapshot, netlink_attempted, netlink_errno),
{
    let stats = stats_from_aggregate(
        &snapshot.aggregate,
        snapshot.source_path.as_str(),
        netlink_attempted,
        false,
        true,
        netlink_errno,
        snapshot.malformed_lines,
        snapshot.entries_seen,
    );
    Ok(finish_aggregate(snapshot.aggregate, snapshot.counter_source, stats))
}

/// The errno of a kernel refusal of a netlink dump.
pub open spec fn spec_netlink_errno(e: CollectorReadError) -> Option<i32> {
    match e {
        CollectorReadError::Netlink(netlink::DumpError::Kernel(errno)) => Some(errno),
        _ => None,
    }
}

fn netlink_errno(error: &CollectorReadError) -> (r: Option<i32>)
    ensures
        r == spec_netlink_errno(*error),
{
    match error {
        CollectorReadError::Netlink(netlink::DumpError::Kernel(errno)) => Some(*errno),
        _ => None,
    }
}

/// Collects from streamed aggregations: netlink or procfs as `mode` says;
/// in automatic mode procfs only when netlink failed, and when procfs fails
/// too the netlink error is returned.
pub fn collect_aggregate_with<N, P>(mode: CollectorMode, netlink: N, procfs: P) -> (r: Result<CollectedSnapshot, CollectorReadError>) where
    N: FnOnce() -> Result<netlink::NetlinkAggregateSnapshot, CollectorReadError>,
    P: FnOnce() -> Result<procfs::ProcfsAggregateSnapshot, CollectorReadError>,

    requires
        netlink.requires(()),
        procfs.requires(()),
    ensures
        match mode {
            CollectorMode::Netlink => exists|n: Result<netlink::NetlinkAggregateSnapshot, CollectorReadError>|
                #[trigger] netlink.ensures((), n) && match n {
                    Ok(s) => r matches Ok(c) && netlink_aggregate_collected(c, s),
                    Err(e) => r == Err::<CollectedSnapshot, CollectorReadError>(e),
                },
            CollectorMode::Procfs => exists|p: Result<procfs::ProcfsAggregateSnapshot, CollectorReadError>|
                #[trigger] procfs.ensures((), p) && match p {
                    Ok(s) => r matches Ok(c) && procfs_aggregate_collected(c, s, false, None),
                    Err(e) => r == Err::<CollectedSnapshot, CollectorReadError>(e),
                },
            CollectorMode::Auto => exists|n: Result<netlink::NetlinkAggregateSnapshot, CollectorReadError>|
                #[trigger] netlink.ensures((), n) && match n {
                    Ok(s) => r matches Ok(c) && netlink_aggregate_collected(c, s),
                    Err(ne) => exists|p: Result<procfs::ProcfsAggregateSnapshot, CollectorReadError>|
                        #[trigger] procfs.ensures((), p) && match p {
                            Ok(s) => r matches Ok(c) && procfs_aggregate_collected(
                                c,
                                s,
                                true,
                                spec_netlink_errno(ne),
                            ),
                            Err(_) => r == Err::<CollectedSnapshot, CollectorReadError>(ne),
                        },
                },
        },
{
    match mode {
        CollectorMode::Netlink => match netlink() {
            Ok(snapshot) => finish_netlink_aggregate(snapshot),
            Err(e) => Err(e),
        },
        CollectorMode::Procfs => match procfs() {
            Ok(snapshot) => finish_procfs_aggregate(snapshot, false, None),
            Err(e) => Err(e),
        },
        CollectorMode::Auto => match netlink() {
            Ok(snapshot) => finish_netlink_aggregate(snapshot),
            Err(netlink_error) => {
                let errno = netlink_errno(&netlink_error);
                match procfs() {
                    Ok(snapshot) => finish_procfs_aggregate(snapshot, true, errno),
                    Err(_) => Err(netlink_error),
                }
            },
        },
    }
}

/// The snapshot of a read's flows aggregated against a table at `now_ms`,
/// with the read's origin and entry counts.
pub open spec fn flows_collected(
    c: CollectedSnapshot,
    table: Seq<crate::identity::ClientIdentityView>,
    flows: Seq<FlowSample>,
    now_ms: u64,
    max_clients: usize,
    counter_source: &'static str,
    source_path: Seq<char>,
    netlink_attempted: bool,
    netlink_read: bool,
    procfs_read: bool,
    netlink_errno: Option<i32>,
    malformed_lines: usize,
    entries_seen: usize,
) -> bool {
    let a = aggregate::spec_aggregate(table, flows, now_ms, max_clients);
    &&& aggregate::client_values(c.clients@) == aggregate::sample_values(a.clients)
    &&& c.sample_ms == now_ms
    &&& crate::connection_details::sets_view(c.connection_details@)
        == crate::connection_details::finished_sets(a.details.sets)
    &&& crate::connection_details::ledger_view(c.connection_counters@) == a.details.counters
    &&& c.counter_source == counter_source
    &&& stats_match(
        c.stats,
        a.stats,
        a.clients.len(),
        source_path,
        netlink_attempted,
        netlink_read,
        procfs_read,
        netlink_errno,
        malformed_lines,
        entries_seen,
    )
}

/// The snapshot of a netlink dump's flows.
pub open spec fn netlink_collected(c: CollectedSnapshot, s: netlink::NetlinkSnapshot, table: Seq<crate::identity::ClientIdentityView>, now_ms: u64, max_clients: usize) -> bool {
    flows_collected(
        c,
        table,
        s.flows@,
        now_ms,
        max_clients,
        s.counter_source,
        s.source_path@,
        true,
        true,
        false,
        None,
        s.malformed_entries,
        s.flows.len().saturating_add(s.malformed_entries),
    )
}

/// The snapshot of the procfs table's flows.
pub open spec fn procfs_collected(c: CollectedSnapshot, s: procfs::ProcfsSnapshot, table: Seq<crate::identity::ClientIdentityView>, now_ms: u64, max_clients: usize, netlink_attempted: bool, netlink_errno: Option<i32>) -> bool {
    flows_collected(
        c,
        table,
        s.flows@,
        now_ms,
        max_clients,
        s.counter_source,
        s.source_path@,
        netlink_attempted,
        false,
        true,
        netlink_errno,
        s.malformed_lines,
        s.entries_seen,
    )
}

pub fn finish_netlink(snapshot: netlink::NetlinkSnapshot, identities: &crate::identity::IdentityTable, now_ms: u64, max_clients: usize) -> (r: Result<CollectedSnapshot, CollectorReadError>)
    ensures
        r matches Ok(c) && netlink_collected(c, snapshot, identities@.clients, now_ms, max_clients),
{
    let entries_seen = snapshot.flows.len().saturating_add(snapshot.malformed_entries);
    let aggregate = aggregate::aggregate_flows(identities, &snapshot.flows, now_ms, max_clients);
    proof {
        let a = aggregate::spec_aggregate(identities@.clients, snapshot.flows@, now_ms, max_clients);
        assert(aggregate::client_values(aggregate.clients@).len() == aggregate.clients@.len());
        assert(aggregate::sample_values(a.clients).len() == a.clients.len());
    }
    let stats = stats_from_aggregate(
        &aggregate,
        snapshot.source_path,
        true,
        true,
        false,
        None,
        snapshot.malformed_entries,
        entries_seen,
    );
    Ok(finish_aggregate(aggregate, snapshot.counter_source, stats))
}

fn finish_procfs(snapshot: procfs::ProcfsSnapshot, identities: &crate::identity::IdentityTable, now_ms: u64, max_clients: usize, netlink_attempted: bool, netlink_errno: Option<i32>) -> (r: Result<CollectedSnapshot, CollectorReadError>)
    ensures
        r matches Ok(c) && procfs_collected(c, snapshot, identities@.clients, now_ms, max_clients, netlink_attempted, netlink_errno),
{
    let aggregate = aggregate::aggregate_flows(identities, &snapshot.flows, now_ms, max_clients);
    proof {
        let a = aggregate::spec_aggregate(identities@.clients, snapshot.flows@, now_ms, max_clients);
        assert(aggregate::client_values(aggregate.clients@).len() == aggregate.clients@.len());
        assert(aggregate::sample_values(a.clients).len() == a.clients.len());
    }
    let stats = stats_from_aggregate(
        &aggregate,
        snapshot.source_path.as_str(),
        netlink_attempted,
        false,
        true,
        netlink_errno,
        snapshot.malformed_lines,
        snapshot.entries_seen,
    );
    Ok(finish_aggregate(aggregate, snapshot.counter_source, stats))
}

/// Collects from parsed reads: netlink or procfs as `mode` says; in
/// automatic mode procfs only when netlink failed, and when procfs fails
/// too the netlink error is returned.
pub fn collect_with<N, P>(mode: CollectorMode, identities: &crate::identity::IdentityTable, now_ms: u64, max_clients: usize, netlink: N, procfs: P) -> (r: Result<CollectedSnapshot, CollectorReadError>) where
    N: FnOnce() -> Result<netlink::NetlinkSnapshot, CollectorReadError>,
    P: FnOnce() -> Result<procfs::ProcfsSnapshot, CollectorReadError>,

    requires
        netlink.requires(()),
        procfs.requires(()),
    ensures
        match mode {
            CollectorMode::Procfs => exists|p: Result<procfs::ProcfsSnapshot, CollectorReadError>|
                #[trigger] procfs.ensures((), p) && match p {
                    Ok(s) => r matches Ok(c) && procfs_collected(c, s, identities@.clients, now_ms, max_clients, false, None),
                    Err(e) => r == Err::<CollectedSnapshot, CollectorReadError>(e),
                },
            CollectorMode::Netlink => exists|n: Result<netlink::NetlinkSnapshot, CollectorReadError>|
                #[trigger] netlink.ensures((), n) && match n {
                    Ok(s) => r matches Ok(c) && netlink_collected(c, s, identities@.clients, now_ms, max_clients),
                    Err(e) => r == Err::<CollectedSnapshot, CollectorReadError>(e),
                },
            CollectorMode::Auto => exists|n: Result<netlink::NetlinkSnapshot, CollectorReadError>|
                #[trigger] netlink.ensures((), n) && match n {
                    Ok(s) => r matches Ok(c) && netlink_collected(c, s, identities@.clients, now_ms, max_clients),
                    Err(ne) => exists|p: Result<procfs::ProcfsSnapshot, CollectorReadError>|
                        #[trigger] procfs.ensures((), p) && match p {
                            Ok(s) => r matches Ok(c) && procfs_collected(
                                c,
                                s,
                                identities@.clients,
                                now_ms,
                                max_clients,
                                true,
                                spec_netlink_errno(ne),
                            ),
                            Err(_) => r == Err::<CollectedSnapshot, CollectorReadError>(ne),
                        },
                },
        },
{
    match mode {
        CollectorMode::Procfs => match procfs() {
            Ok(snapshot) => finish_procfs(snapshot, identities, now_ms, max_clients, false, None),
            Err(e) => Err(e),
        },
        CollectorMode::Netlink => match netlink() {
            Ok(snapshot) => finish_netlink(snapshot, identities, now_ms, max_clients),
            Err(e) => Err(e),
        },
        CollectorMode::Auto => match netlink() {
            Ok(snapshot) => finish_netlink(snapshot, identities, now_ms, max_clients),
            Err(netlink_error) => {
                let errno = netlink_errno(&netlink_error);
                match procfs() {
                    Ok(snapshot) => finish_procfs(snapshot, identities, now_ms, max_clients, true, errno),
                    Err(_) => Err(netlink_error),
                }
            },
        },
    }
}

} // verus!
