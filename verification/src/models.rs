//! State and event records shared by the commands and the dashboard.

use vstd::prelude::*;

verus! {

/// First line of the hosts-file region that this program owns.
pub const BLOCK_START: &'static str = "# IP-FIREWALL:START";

/// Last line of the hosts-file region that this program owns.
pub const BLOCK_END: &'static str = "# IP-FIREWALL:END";

/// What the dashboard shows of the protection backends.
#[derive(Debug)]
pub struct BlockerState {
    pub enabled: bool,
    pub domain_count: usize,
    pub observed_blocked_requests: u64,
    pub hosts_path: String,
    pub operating_system: String,
    pub sinkhole_backend: String,
    pub host_writeable: bool,
    pub protection_supported: bool,
    pub packet_filter_backend: String,
    pub packet_filter_enabled: bool,
    pub packet_filter_note: String,
}

/// One row of the activity log.
#[derive(Debug)]
pub struct ActivityEvent {
    pub id: i64,
    pub created_at: String,
    pub kind: String,
    pub domain: Option<String>,
    pub action: String,
    pub detail: String,
}

/// One blocklist row.
#[derive(Debug)]
pub struct BlocklistEntry {
    pub domain: String,
    pub category: String,
    pub source: String,
    pub enabled: bool,
    pub redirect: String,
    pub notes: String,
}

/// Everything the dashboard view needs.
#[derive(Debug)]
pub struct DashboardData {
    pub state: BlockerState,
    pub events: Vec<ActivityEvent>,
    pub blocklist: Vec<BlocklistEntry>,
    pub database_path: String,
}

} // verus!
