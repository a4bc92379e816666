use vstd::prelude::*;

verus! {

pub const OVERVIEW_WINDOW: usize = 240;

pub const OVERVIEW_SAMPLE_SOURCE: &'static str = "clients_refresh_daemon_ring";

pub const OVERVIEW_CONN_SEMANTICS: &'static str =
    "conntrack_current_tcp_established_assured_udp_assured_dns_split";

/// Connection counts by protocol.
#[derive(Clone, Copy, Debug, Default, Eq, PartialEq, Structural)]
pub struct ConnectionTotals {
    pub tcp_conns: u64,
    pub udp_conns: u64,
    pub udp_dns_conns: u64,
    pub udp_other_conns: u64,
}

pub open spec fn sat_add64(a: u64, b: u64) -> u64 {
    if a + b > u64::MAX {
        u64::MAX
    } else {
        (a + b) as u64
    }
}

/// Two sets of totals added field by field, saturating.
pub open spec fn totals_sum(a: ConnectionTotals, b: ConnectionTotals) -> ConnectionTotals {
    ConnectionTotals {
        tcp_conns: sat_add64(a.tcp_conns, b.tcp_conns),
        udp_conns: sat_add64(a.udp_conns, b.udp_conns),
        udp_dns_conns: sat_add64(a.udp_dns_conns, b.udp_dns_conns),
        udp_other_conns: sat_add64(a.udp_other_conns, b.udp_other_conns),
    }
}

impl ConnectionTotals {
    pub fn new(tcp_conns: u64, udp_conns: u64, udp_dns_conns: u64, udp_other_conns: u64) -> (r:
        Self)
        ensures
            r == (ConnectionTotals { tcp_conns, udp_conns, udp_dns_conns, udp_other_conns }),
    {
        ConnectionTotals { tcp_conns, udp_conns, udp_dns_conns, udp_other_conns }
    }

    /// Adds `other`, saturating each field.
    pub fn add_assign_saturating(&mut self, other: Self)
        ensures
            *final(self) == totals_sum(*old(self), other),
    {
        self.tcp_conns = self.tcp_conns.saturating_add(other.tcp_conns);
        self.udp_conns = self.udp_conns.saturating_add(other.udp_conns);
        self.udp_dns_conns = self.udp_dns_conns.saturating_add(other.udp_dns_conns);
        self.udp_other_conns = self.udp_other_conns.saturating_add(other.udp_other_conns);
    }
}

/// Totals measured elsewhere that replace the summed ones.
#[derive(Clone, Copy, Debug, Default, Eq, PartialEq, Structural)]
pub struct ConnectionTotalsOverride {
    pub tcp_conns: Option<u64>,
    pub udp_conns: Option<u64>,
    pub udp_dns_conns: Option<u64>,
    pub udp_other_conns: Option<u64>,
}

pub open spec fn override_or(o: Option<u64>, v: u64) -> u64 {
    match o {
        Some(x) => x,
        None => v,
    }
}

/// The totals with each overridden field replaced.
pub open spec fn overridden(o: ConnectionTotalsOverride, t: ConnectionTotals) -> ConnectionTotals {
    ConnectionTotals {
        tcp_conns: override_or(o.tcp_conns, t.tcp_conns),
        udp_conns: override_or(o.udp_conns, t.udp_conns),
        udp_dns_conns: override_or(o.udp_dns_conns, t.udp_dns_conns),
        udp_other_conns: override_or(o.udp_other_conns, t.udp_other_conns),
    }
}

impl ConnectionTotalsOverride {
    pub fn apply(self, totals: &mut ConnectionTotals)
        ensures
            *final(totals) == overridden(self, *old(totals)),
    {
        if let Some(value) = self.tcp_conns {
            totals.tcp_conns = value;
        }
        if let Some(value) = self.udp_conns {
            totals.udp_conns = value;
        }
        if let Some(value) = self.udp_dns_conns {
            totals.udp_dns_conns = value;
        }
        if let Some(value) = self.udp_other_conns {
            totals.udp_other_conns = value;
        }
    }
}

/// What the overview needs of one client.
#[derive(Clone, Copy, Debug, Eq, PartialEq, Structural)]
pub struct OverviewClient {
    pub tx_bps: u64,
    pub rx_bps: u64,
    pub sample_ms: u64,
    pub last_seen_ms: u64,
    pub connections: ConnectionTotals,
}

#[derive(Clone, Copy, Debug, Eq, PartialEq, Structural)]
pub struct OverviewConfig {
    pub window_samples: usize,
    pub active_client_window_ms: u64,
    pub active_client_min_bps: u64,
}

/// One point of the overview.
#[derive(Clone, Copy, Debug, Default, Eq, PartialEq, Structural)]
pub struct OverviewSample {
    pub sample_ms: u64,
    pub tx_bps: u64,
    pub rx_bps: u64,
    pub client_count: u32,
    pub active_clients: u32,
    pub tcp_conns: u32,
    pub udp_conns: u32,
    pub udp_dns_conns: u32,
    pub udp_other_conns: u32,
}

/// A count narrowed to `u32`, saturating.
pub open spec fn sat_u32(v: int) -> u32 {
    if v > u32::MAX {
        u32::MAX
    } else {
        v as u32
    }
}

fn narrow(v: u64) -> (r: u32)
    ensures
        r == sat_u32(v as int),
{
    if v > u32::MAX as u64 {
        u32::MAX
    } else {
        v as u32
    }
}

/// A client is active when it was seen within the window before its sample
/// and its combined rate reaches the floor.
pub open spec fn spec_client_is_active(c: OverviewClient, config: OverviewConfig) -> bool {
    &&& c.sample_ms != 0
    &&& c.last_seen_ms != 0
    &&& c.last_seen_ms <= c.sample_ms
    &&& c.sample_ms - c.last_seen_ms <= config.active_client_window_ms
    &&& sat_add64(c.tx_bps, c.rx_bps) >= config.active_client_min_bps
}

pub fn client_is_active(client: &OverviewClient, config: &OverviewConfig) -> (r: bool)
    ensures
        r == spec_client_is_active(*client, *config),
{
    if client.sample_ms == 0 || client.last_seen_ms == 0 || client.last_seen_ms > client.sample_ms {
        return false;
    }
    let recent = client.sample_ms - client.last_seen_ms <= config.active_client_window_ms;
    let rate = client.tx_bps.saturating_add(client.rx_bps);
    recent && rate >= config.active_client_min_bps
}

/// The running sums over the first clients: transmit and receive rates,
/// connection totals and the number of active clients.
pub open spec fn client_sums(clients: Seq<OverviewClient>, config: OverviewConfig) -> (
    u64,
    u64,
    ConnectionTotals,
    u32,
)
    decreases clients.len(),
{
    if clients.len() == 0 {
        (0, 0, ConnectionTotals { tcp_conns: 0, udp_conns: 0, udp_dns_conns: 0, udp_other_conns: 0 }, 0)
    } else {
        let (tx, rx, conns, active) = client_sums(clients.drop_last(), config);
        let c = clients.last();
        (
            sat_add64(tx, c.tx_bps),
            sat_add64(rx, c.rx_bps),
            totals_sum(conns, c.connections),
            if spec_client_is_active(c, config) {
                sat_u32(active + 1)
            } else {
                active
            },
        )
    }
}

/// The sample that a poll of `clients` at `now_ms` yields.
pub open spec fn spec_sample(
    now_ms: u64,
    clients: Seq<OverviewClient>,
    overrides: ConnectionTotalsOverride,
    config: OverviewConfig,
) -> OverviewSample {
    let (tx, rx, conns, active) = client_sums(clients, config);
    let t = overridden(overrides, conns);
    OverviewSample {
        sample_ms: now_ms,
        tx_bps: tx,
        rx_bps: rx,
        client_count: sat_u32(clients.len() as int),
        active_clients: active,
        tcp_conns: sat_u32(t.tcp_conns as int),
        udp_conns: sat_u32(t.udp_conns as int),
        udp_dns_conns: sat_u32(t.udp_dns_conns as int),
        udp_other_conns: sat_u32(t.udp_other_conns as int),
    }
}

/// The plain sum of some rates.
pub open spec fn rate_sum(rates: Seq<u64>) -> int
    decreases rates.len(),
{
    if rates.len() == 0 {
        0
    } else {
        rate_sum(rates.drop_last()) + rates.last()
    }
}

/// A sum held to what a `u64` can count.
pub open spec fn capped(total: int) -> u64 {
    if total > u64::MAX {
        u64::MAX
    } else {
        total as u64
    }
}

/// A count held to what a `u32` counts.
pub open spec fn held_u32(v: u64) -> int {
    if v > u32::MAX {
        u32::MAX as int
    } else {
        v as int
    }
}

/// An overview sample's upload rate is the LAN clients' upload rates added
/// up, and its download rate their download rates added up, each held to
/// what a `u64` counts; it counts every client given.
pub proof fn lemma_sample_sums_client_rates(
    now_ms: u64,
    clients: Seq<OverviewClient>,
    overrides: ConnectionTotalsOverride,
    config: OverviewConfig,
)
    ensures
        spec_sample(now_ms, clients, overrides, config).tx_bps == capped(
            rate_sum(clients.map_values(|c: OverviewClient| c.tx_bps)),
        ),
        spec_sample(now_ms, clients, overrides, config).rx_bps == capped(
            rate_sum(clients.map_values(|c: OverviewClient| c.rx_bps)),
        ),
        spec_sample(now_ms, clients, overrides, config).sample_ms == now_ms,
        spec_sample(now_ms, clients, overrides, config).tcp_conns as int == held_u32(
            override_or(overrides.tcp_conns, capped(rate_sum(clients.map_values(|c: OverviewClient| c.connections.tcp_conns)))),
        ),
        spec_sample(now_ms, clients, overrides, config).udp_conns as int == held_u32(
            override_or(overrides.udp_conns, capped(rate_sum(clients.map_values(|c: OverviewClient| c.connections.udp_conns)))),
        ),
        spec_sample(now_ms, clients, overrides, config).udp_dns_conns as int == held_u32(
            override_or(
                overrides.udp_dns_conns,
                capped(rate_sum(clients.map_values(|c: OverviewClient| c.connections.udp_dns_conns))),
            ),
        ),
        spec_sample(now_ms, clients, overrides, config).udp_other_conns as int == held_u32(
            override_or(
                overrides.udp_other_conns,
                capped(rate_sum(clients.map_values(|c: OverviewClient| c.connections.udp_other_conns))),
            ),
        ),
        spec_sample(now_ms, clients, overrides, config).client_count as int == if clients.len() > u32::MAX {
            u32::MAX as int
        } else {
            clients.len() as int
        },
{
    lemma_client_sums_capped(clients, config);
}

proof fn lemma_rate_sum_nonneg(rates: Seq<u64>)
    ensures
        rate_sum(rates) >= 0,
    decreases rates.len(),
{
    if rates.len() > 0 {
        lemma_rate_sum_nonneg(rates.drop_last());
    }
}

proof fn lemma_client_sums_capped(clients: Seq<OverviewClient>, config: OverviewConfig)
    ensures
        client_sums(clients, config).0 == capped(rate_sum(clients.map_values(|c: OverviewClient| c.tx_bps))),
        client_sums(clients, config).1 == capped(rate_sum(clients.map_values(|c: OverviewClient| c.rx_bps))),
        client_sums(clients, config).2.tcp_conns == capped(rate_sum(clients.map_values(|c: OverviewClient| c.connections.tcp_conns))),
        client_sums(clients, config).2.udp_conns == capped(rate_sum(clients.map_values(|c: OverviewClient| c.connections.udp_conns))),
        client_sums(clients, config).2.udp_dns_conns == capped(rate_sum(clients.map_values(|c: OverviewClient| c.connections.udp_dns_conns))),
        client_sums(clients, config).2.udp_other_conns == capped(rate_sum(clients.map_values(|c: OverviewClient| c.connections.udp_other_conns))),
    decreases clients.len(),
{
    let tcps = clients.map_values(|c: OverviewClient| c.connections.tcp_conns);
    let udps = clients.map_values(|c: OverviewClient| c.connections.udp_conns);
    let dnss = clients.map_values(|c: OverviewClient| c.connections.udp_dns_conns);
    let others = clients.map_values(|c: OverviewClient| c.connections.udp_other_conns);
    if clients.len() > 0 {
        let rest = clients.drop_last();
        assert(rest.map_values(|c: OverviewClient| c.connections.tcp_conns) =~= tcps.drop_last());
        assert(rest.map_values(|c: OverviewClient| c.connections.udp_conns) =~= udps.drop_last());
        assert(rest.map_values(|c: OverviewClient| c.connections.udp_dns_conns) =~= dnss.drop_last());
        assert(rest.map_values(|c: OverviewClient| c.connections.udp_other_conns) =~= others.drop_last());
        lemma_rate_sum_nonneg(tcps.drop_last());
        lemma_rate_sum_nonneg(udps.drop_last());
        lemma_rate_sum_nonneg(dnss.drop_last());
        lemma_rate_sum_nonneg(others.drop_last());
    } else {
        assert(tcps.len() == 0 && udps.len() == 0 && dnss.len() == 0 && others.len() == 0);
    }
    let txs = clients.map_values(|c: OverviewClient| c.tx_bps);
    let rxs = clients.map_values(|c: OverviewClient| c.rx_bps);
    if clients.len() > 0 {
        let rest = clients.drop_last();
        lemma_client_sums_capped(rest, config);
        assert(rest.map_values(|c: OverviewClient| c.tx_bps) =~= txs.drop_last());
        assert(rest.map_values(|c: OverviewClient| c.rx_bps) =~= rxs.drop_last());
        lemma_rate_sum_nonneg(txs.drop_last());
        lemma_rate_sum_nonneg(rxs.drop_last());
        assert(txs.last() == clients.last().tx_bps);
        assert(rxs.last() == clients.last().rx_bps);
    } else {
        assert(txs.len() == 0);
        assert(rxs.len() == 0);
    }
}

pub fn overview_sample(
    now_ms: u64,
    clients: &[OverviewClient],
    overrides: ConnectionTotalsOverride,
    config: &OverviewConfig,
) -> (r: OverviewSample)
    ensures
        r == spec_sample(now_ms, clients@, overrides, *config),
{
    let mut tx: u64 = 0;
    let mut rx: u64 = 0;
    let mut connections = ConnectionTotals {
        tcp_conns: 0,
        udp_conns: 0,
        udp_dns_conns: 0,
        udp_other_conns: 0,
    };
    let mut active: u32 = 0;
    let mut i: usize = 0;
    while i < clients.len()
        invariant
            i <= clients@.len(),
            (tx, rx, connections, active) == client_sums(clients@.take(i as int), *config),
        decreases clients@.len() - i,
    {
        let client = clients[i];
        assert(clients@.take(i + 1).drop_last() =~= clients@.take(i as int));
        tx = tx.saturating_add(client.tx_bps);
        rx = rx.saturating_add(client.rx_bps);
        connections.add_assign_saturating(client.connections);
        if client_is_active(&client, config) {
            active = active.saturating_add(1);
        }
        i += 1;
    }
    assert(clients@.take(i as int) =~= clients@);
    overrides.apply(&mut connections);
    let count: u32 = if clients.len() > u32::MAX as usize {
        u32::MAX
    } else {
        clients.len() as u32
    };
    OverviewSample {
        sample_ms: now_ms,
        tx_bps: tx,
        rx_bps: rx,
        client_count: count,
        active_clients: active,
        tcp_conns: narrow(connections.tcp_conns),
        udp_conns: narrow(connections.udp_conns),
        udp_dns_conns: narrow(connections.udp_dns_conns),
        udp_other_conns: narrow(connections.udp_other_conns),
    }
}

/// The last samples of the overview, oldest first, at most the window.
pub struct OverviewRing {
    samples: Vec<Option<OverviewSample>>,
    head: usize,
    count: usize,
}

impl OverviewRing {
    /// The slot that holds the `i`-th oldest retained sample.
    pub closed spec fn slot(self, i: int) -> int {
        let v = self.head + OVERVIEW_WINDOW - self.count + i;
        if v >= OVERVIEW_WINDOW {
            v - OVERVIEW_WINDOW
        } else {
            v
        }
    }

    pub closed spec fn wf(self) -> bool {
        &&& self.samples@.len() == OVERVIEW_WINDOW
        &&& self.head < OVERVIEW_WINDOW
        &&& self.count <= OVERVIEW_WINDOW
        &&& forall|i: int| 0 <= i < self.count ==> (#[trigger] self.samples@[self.slot(i)]) is Some
    }

    /// The retained samples, oldest first.
    pub closed spec fn view(self) -> Seq<OverviewSample> {
        Seq::new(self.count as nat, |i: int| self.samples@[self.slot(i)]->0)
    }

    pub proof fn lemma_wf_bounds(self)
        requires
            self.wf(),
        ensures
            self.view().len() <= OVERVIEW_WINDOW,
    {
    }

    pub fn new() -> (r: Self)
        ensures
            r.wf(),
            r.view().len() == 0,
    {
        let mut samples: Vec<Option<OverviewSample>> = Vec::new();
        let mut i: usize = 0;
        while i < OVERVIEW_WINDOW
            invariant
                i <= OVERVIEW_WINDOW,
                samples@.len() == i,
            decreases OVERVIEW_WINDOW - i,
        {
            samples.push(None);
            i += 1;
        }
        OverviewRing { samples, head: 0, count: 0 }
    }

    pub fn capacity(&self) -> (r: usize)
        ensures
            r == OVERVIEW_WINDOW,
    {
        OVERVIEW_WINDOW
    }

    pub fn len(&self) -> (r: usize)
        requires
            self.wf(),
        ensures
            r == self.view().len(),
    {
        self.count
    }

    pub fn is_empty(&self) -> (r: bool)
        requires
            self.wf(),
        ensures
            r == (self.view().len() == 0),
    {
        self.count == 0
    }

    /// The newest sample.
    pub fn latest(&self) -> (r: Option<&OverviewSample>)
        requires
            self.wf(),
        ensures
            match r {
                Some(s) => self.view().len() > 0 && *s == self.view().last(),
                None => self.view().len() == 0,
            },
    {
        if self.count == 0 {
            None
        } else {
            let index = if self.head == 0 {
                OVERVIEW_WINDOW - 1
            } else {
                self.head - 1
            };
            assert(index == self.slot(self.count - 1));
            self.samples[index].as_ref()
        }
    }

    /// Rewrites the connection counts and client count of the newest
    /// sample; `false` when there is none.
    pub fn replace_latest_connections_and_client_count(
        &mut self,
        connections: ConnectionTotals,
        client_count: usize,
    ) -> (r: bool)
        requires
            old(self).wf(),
        ensures
            final(self).wf(),
            r == (old(self).view().len() > 0),
            r ==> final(self).view() == old(self).view().update(
                old(self).view().len() - 1,
                OverviewSample {
                    tcp_conns: sat_u32(connections.tcp_conns as int),
                    udp_conns: sat_u32(connections.udp_conns as int),
                    udp_dns_conns: sat_u32(connections.udp_dns_conns as int),
                    udp_other_conns: sat_u32(connections.udp_other_conns as int),
                    client_count: sat_u32(client_count as int),
                    ..old(self).view().last()
                },
            ),
            !r ==> final(self).view() == old(self).view(),
    {
        if self.count == 0 {
            return false;
        }
        let index = if self.head == 0 {
            OVERVIEW_WINDOW - 1
        } else {
            self.head - 1
        };
        assert(index == self.slot(self.count - 1));
        let ghost old_ring = *self;
        let mut latest = self.samples[index].unwrap();
        latest.tcp_conns = narrow(connections.tcp_conns);
        latest.udp_conns = narrow(connections.udp_conns);
        latest.udp_dns_conns = narrow(connections.udp_dns_conns);
        latest.udp_other_conns = narrow(connections.udp_other_conns);
        latest.client_count = if client_count > u32::MAX as usize {
            u32::MAX
        } else {
            client_count as u32
        };
        let ghost before = self.view();
        self.samples.set(index, Some(latest));
        assert forall|i: int| 0 <= i < self.count implies (#[trigger] self.samples@[self.slot(i)]) is Some by {
            assert(self.slot(i) == old_ring.slot(i));
        }
        assert forall|i: int| 0 <= i < self.count - 1 implies self.slot(i) != index by {}
        assert(self.view() =~= before.update(before.len() - 1, latest));
        true
    }

    /// Appends the sample of this poll, dropping the oldest once the ring is
    /// full.
    pub fn push(
        &mut self,
        now_ms: u64,
        clients: &[OverviewClient],
        overrides: ConnectionTotalsOverride,
        config: &OverviewConfig,
    )
        requires
            old(self).wf(),
        ensures
            final(self).wf(),
            ({
                let s = spec_sample(now_ms, clients@, overrides, *config);
                final(self).view() == if old(self).view().len() < OVERVIEW_WINDOW {
                    old(self).view().push(s)
                } else {
                    old(self).view().drop_first().push(s)
                }
            }),
    {
        let sample = overview_sample(now_ms, clients, overrides, config);
        let ghost before = self.view();
        let ghost old_ring = *self;
        let head = self.head;
        self.samples.set(head, Some(sample));
        self.head = if head + 1 == OVERVIEW_WINDOW {
            0
        } else {
            head + 1
        };
        if self.count < OVERVIEW_WINDOW {
            self.count = self.count + 1;
        }
        assert forall|i: int| 0 <= i < self.count implies (#[trigger] self.samples@[self.slot(i)]) is Some by {
            if self.slot(i) != head {
                if old_ring.count < OVERVIEW_WINDOW {
                    assert(self.slot(i) == old_ring.slot(i));
                } else {
                    assert(self.slot(i) == old_ring.slot(i + 1));
                }
            }
        }
        proof {
            if old_ring.count < OVERVIEW_WINDOW {
                assert forall|i: int| 0 <= i < self.count - 1 implies self.slot(i) == old_ring.slot(
                    i,
                ) by {}
                assert(self.view() =~= before.push(sample));
            } else {
                assert forall|i: int| 0 <= i < self.count - 1 implies self.slot(i) == old_ring.slot(
                    i + 1,
                ) by {}
                assert(self.view() =~= before.drop_first().push(sample));
            }
        }
    }

    /// The samples that the overview reports, newest first: the newest
    /// `window_samples` of them.
    pub fn recent_samples(&self, config: &OverviewConfig) -> (r: Vec<OverviewSample>)
        requires
            self.wf(),
        ensures
            r@.len() == (if self.view().len() < config.window_samples {
                self.view().len() as int
            } else {
                config.window_samples as int
            }),
            forall|i: int| 0 <= i < r@.len() ==> r@[i] == self.view()[self.view().len() - 1 - i],
    {
        let mut out: Vec<OverviewSample> = Vec::new();
        let n = if self.count < config.window_samples {
            self.count
        } else {
            config.window_samples
        };
        let mut k: usize = 0;
        while k < n
            invariant
                self.wf(),
                n <= self.count,
                k <= n,
                out@.len() == k,
                forall|i: int| 0 <= i < k ==> out@[i] == self.view()[self.view().len() - 1 - i],
            decreases n - k,
        {
            let raw = self.head + OVERVIEW_WINDOW - 1 - k;
            let index = if raw >= OVERVIEW_WINDOW {
                raw - OVERVIEW_WINDOW
            } else {
                raw
            };
            assert(index == self.slot(self.count - 1 - k));
            out.push(self.samples[index].unwrap());
            k += 1;
        }
        out
    }
}

impl Default for OverviewRing {
    fn default() -> (r: Self)
        ensures
            r.wf(),
            r.view().len() == 0,
    {
        OverviewRing::new()
    }
}

} // verus!
