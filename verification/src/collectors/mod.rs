pub mod bpf;
pub mod nss;
pub mod conntrack;
