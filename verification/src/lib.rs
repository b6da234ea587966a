//! Verified core of a DNS-level advertisement blocker: domain normalization,
//! hosts-file block editing, blocklist matching, DNS proxy decisions,
//! packet-filter state and the command lines handed to the platform tools.

pub mod text;
pub mod models;
pub mod sinkhole;
pub mod dns_proxy;
pub mod dns_message;
pub mod packet_filter;
pub mod system_dns;
pub mod db;
pub mod commands;
