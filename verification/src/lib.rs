//! Verified core of the sing-box desktop client: node selection, DNS server
//! conversion, JSON configuration edits, VPN conflict reporting and system
//! proxy planning.

pub mod common;
pub mod compat_proxy;
pub mod dns;
pub mod json;
pub mod kernel_log;
pub mod proxy_util;
pub mod sorting;
pub mod text;
pub mod urltest;
pub mod vpn_conflict;
