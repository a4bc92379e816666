use vstd::prelude::*;

verus! {

/// The collector that measures client rates.
#[derive(Clone, Copy, Debug, Eq, PartialEq, Structural)]
pub enum RateCollector {
    Bpf,
    NssEcmDirect,
    NssConntrackSync,
    Unsupported,
}

} // verus!
