pub mod ecm_node;
pub mod keyed;
pub mod bytes;
pub mod nss_window;
pub mod text;
pub mod interfaces;
pub mod model;
pub mod identity;
pub mod error;
pub mod control;
pub mod config;
pub mod history;
pub mod probe;
pub mod policy;
pub mod ubus;
pub mod connections;
pub mod connection_details;
pub mod collectors;
pub mod daemon;

use vstd::prelude::*;

verus! {

/// A sample is fresh when it is not from the future and at most `limit_ms`
/// old.
pub open spec fn spec_is_fresh(now_ms: u64, sample_ms: u64, limit_ms: u64) -> bool {
    sample_ms <= now_ms && now_ms - sample_ms <= limit_ms
}

pub fn is_fresh(now_ms: u64, sample_ms: u64, limit_ms: u64) -> (r: bool)
    ensures
        r == spec_is_fresh(now_ms, sample_ms, limit_ms),
{
    sample_ms <= now_ms && now_ms - sample_ms <= limit_ms
}

/// The verifier message of kernels whose conntrack kfunc metadata the
/// primary object cannot use.
pub const KNOWN_KFUNC_METADATA_ERROR: &'static str =
    "release kernel function bpf_skb_ct_lookup expects refcounted PTR_TO_BTF_ID";

pub fn is_known_kfunc_metadata_incompatibility(verifier_log: &str) -> (r: bool)
    ensures
        r == text::seq_contains(verifier_log@, KNOWN_KFUNC_METADATA_ERROR@),
{
    text::str_contains(verifier_log, KNOWN_KFUNC_METADATA_ERROR)
}

/// A loaded value, and the error of the primary load when the fallback was
/// used.
#[derive(Debug, Eq, PartialEq)]
pub struct FallbackLoad<T, E> {
    pub value: T,
    pub primary_error: Option<E>,
}

/// Loads with `primary`; only an error that `is_known_incompatibility`
/// recognises falls back to `fallback`, and the primary error is kept.
pub fn load_with_fallback<T, E, P, F, C>(primary: P, fallback: F, is_known_incompatibility: C) -> (r:
    Result<FallbackLoad<T, E>, E>) where
    P: FnOnce() -> Result<T, E>,
    F: FnOnce() -> Result<T, E>,
    C: FnOnce(&E) -> bool,

    requires
        primary.requires(()),
        fallback.requires(()),
        forall|e: &E| is_known_incompatibility.requires((e,)),
    ensures
        exists|p: Result<T, E>|
            #[trigger] primary.ensures((), p) && match p {
                Ok(v) => r == Ok::<FallbackLoad<T, E>, E>(FallbackLoad { value: v, primary_error: None }),
                Err(e) => exists|known: bool|
                    #[trigger] is_known_incompatibility.ensures((&e,), known) && if known {
                        exists|f: Result<T, E>|
                            #[trigger] fallback.ensures((), f) && r == match f {
                                Ok(v) => Ok::<FallbackLoad<T, E>, E>(
                                    FallbackLoad { value: v, primary_error: Some(e) },
                                ),
                                Err(e2) => Err(e2),
                            }
                    } else {
                        r == Err::<FallbackLoad<T, E>, E>(e)
                    },
            },
{
    match primary() {
        Ok(value) => Ok(FallbackLoad { value, primary_error: None }),
        Err(error) => {
            if is_known_incompatibility(&error) {
                match fallback() {
                    Ok(value) => Ok(FallbackLoad { value, primary_error: Some(error) }),
                    Err(e) => Err(e),
                }
            } else {
                Err(error)
            }
        },
    }
}

/// Where a conntrack kfunc call is resolved: its BTF type and the index of
/// the BTF file descriptor that holds it.
#[derive(Clone, Copy, Debug, Eq, PartialEq, Structural)]
pub struct KfuncTarget {
    pub type_id: u32,
    pub btf_fd_index: i16,
}

} // verus!
