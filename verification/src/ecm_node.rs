use vstd::prelude::*;

verus! {

/// Bytes that the Ethernet frame check sequence adds to every packet.
pub const FCS_BYTES_PER_PACKET: u64 = 4;

/// Byte and packet counters of one traffic source, in both directions.
#[derive(Clone, Copy, Debug, PartialEq, Eq, Structural)]
pub struct TrafficCounters {
    pub tx_bytes: u64,
    pub rx_bytes: u64,
    pub tx_packets: u64,
    pub rx_packets: u64,
}

/// All four counters at zero.
pub open spec fn zero_counters() -> TrafficCounters {
    TrafficCounters { tx_bytes: 0, rx_bytes: 0, tx_packets: 0, rx_packets: 0 }
}

/// The counters with the frame check sequence of every packet added to the
/// byte counts; `None` when a byte count would leave the `u64` range.
pub open spec fn spec_fcs_normalized(c: TrafficCounters) -> Option<TrafficCounters> {
    let tx = c.tx_bytes + FCS_BYTES_PER_PACKET * c.tx_packets;
    let rx = c.rx_bytes + FCS_BYTES_PER_PACKET * c.rx_packets;
    if tx <= u64::MAX && rx <= u64::MAX {
        Some(
            TrafficCounters {
                tx_bytes: tx as u64,
                rx_bytes: rx as u64,
                tx_packets: c.tx_packets,
                rx_packets: c.rx_packets,
            },
        )
    } else {
        None
    }
}

impl Default for TrafficCounters {
    fn default() -> (r: Self)
        ensures
            r == zero_counters(),
    {
        TrafficCounters { tx_bytes: 0, rx_bytes: 0, tx_packets: 0, rx_packets: 0 }
    }
}

fn fcs_bytes(bytes: u64, packets: u64) -> (r: Option<u64>)
    ensures
        r == (if bytes + FCS_BYTES_PER_PACKET * packets <= u64::MAX {
            Some((bytes + FCS_BYTES_PER_PACKET * packets) as u64)
        } else {
            None::<u64>
        }),
{
    if packets > (u64::MAX - bytes) / FCS_BYTES_PER_PACKET {
        None
    } else {
        Some(bytes + FCS_BYTES_PER_PACKET * packets)
    }
}

impl TrafficCounters {
    /// Adds the frame check sequence of every packet to the byte counts.
    pub fn fcs_normalized(&self) -> (r: Option<TrafficCounters>)
        ensures
            r == spec_fcs_normalized(*self),
    {
        let tx = fcs_bytes(self.tx_bytes, self.tx_packets);
        let rx = fcs_bytes(self.rx_bytes, self.rx_packets);
        match (tx, rx) {
            (Some(tx_bytes), Some(rx_bytes)) => Some(
                TrafficCounters {
                    tx_bytes,
                    rx_bytes,
                    tx_packets: self.tx_packets,
                    rx_packets: self.rx_packets,
                },
            ),
            _ => None,
        }
    }
}

/// Statistics of the parse that produced a node snapshot.
#[derive(Clone, Copy, Debug, PartialEq, Eq, Structural)]
pub struct ParseStats {
    pub nodes: u64,
    pub skipped: u64,
}

impl Default for ParseStats {
    fn default() -> (r: Self)
        ensures
            r.nodes == 0 && r.skipped == 0,
    {
        ParseStats { nodes: 0, skipped: 0 }
    }
}

/// The counters of one accounting node of a client.
#[derive(Clone, Debug)]
pub struct NodeCounters {
    pub identity_key: String,
    pub generation: u64,
    pub counters: TrafficCounters,
}

/// What a node's counters are, with its key taken by value.
pub struct NodeCountersView {
    pub identity_key: Seq<char>,
    pub generation: u64,
    pub counters: TrafficCounters,
}

impl View for NodeCounters {
    type V = NodeCountersView;

    open spec fn view(&self) -> NodeCountersView {
        NodeCountersView {
            identity_key: self.identity_key@,
            generation: self.generation,
            counters: self.counters,
        }
    }
}

/// All accounting nodes read at one instant.
#[derive(Clone, Debug)]
pub struct NodeSnapshot {
    pub sample_ms: u64,
    pub nodes: Vec<NodeCounters>,
    pub stats: ParseStats,
}

/// The nodes of a snapshot, each by its view.
pub open spec fn nodes_view(nodes: Seq<NodeCounters>) -> Seq<NodeCountersView> {
    nodes.map_values(|n: NodeCounters| n@)
}

} // verus!
