pub mod runtime;
pub mod snapshot;
pub mod ecm;
