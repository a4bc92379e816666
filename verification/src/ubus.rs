use vstd::prelude::*;

verus! {

/// The methods that the daemon answers on the bus.
#[derive(Clone, Copy, Debug, Eq, PartialEq, Structural)]
pub enum Method {
    Status,
    Clients,
    ClientConnections,
    Overview,
    Health,
    Interfaces,
    Sysdevices,
    Diagnostics,
    Reload,
}

} // verus!
