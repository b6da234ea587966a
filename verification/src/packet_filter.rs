//! The native packet-filter backend: its state, what it reports, and the
//! command lines and rule files it hands to the platform tools.

use vstd::prelude::*;

use crate::text::{push_text, text};

verus! {

/// The packet-filtering facility of a platform.
#[derive(Clone, Copy, Debug, PartialEq, Eq, Structural)]
pub enum PacketFilterBackend {
    Unsupported,
    Wfp,
    LinuxNftables,
    MacPf,
}

impl PacketFilterBackend {
    pub open spec fn spec_name(self) -> Seq<char> {
        match self {
            PacketFilterBackend::Unsupported => "unsupported"@,
            PacketFilterBackend::Wfp => "Windows Filtering Platform"@,
            PacketFilterBackend::LinuxNftables => "Linux nftables"@,
            PacketFilterBackend::MacPf => "macOS pf"@,
        }
    }

    pub fn name(self) -> (res: &'static str)
        ensures
            res@ == self.spec_name(),
    {
        match self {
            PacketFilterBackend::Unsupported => "unsupported",
            PacketFilterBackend::Wfp => "Windows Filtering Platform",
            PacketFilterBackend::LinuxNftables => "Linux nftables",
            PacketFilterBackend::MacPf => "macOS pf",
        }
    }
}

/// What the dashboard shows of the packet filter.
#[derive(Debug)]
pub struct PacketFilterStatus {
    pub enabled: bool,
    pub backend: String,
    pub note: String,
}

/// The packet filter: which backend it drives, whether it runs, and the
/// addresses whose block rules are installed.
pub struct PacketFilterHandle {
    enabled: bool,
    backend: PacketFilterBackend,
    active_ip_rules: Vec<String>,
}

pub open spec fn unsupported_message() -> Seq<char> {
    "Packet filtering is not available on this platform. The DNS proxy remains the fallback backend."@
}

/// The part of a packet filter's state that its operations steer: whether
/// it runs, and the backend it drives.
pub struct FilterState {
    pub running: bool,
    pub backend: PacketFilterBackend,
}

/// A call on a packet filter, as far as it bears on `FilterState`.
pub enum FilterOp {
    /// `start`, with whether the program check succeeded.
    Start(bool),
    Stop,
    ApplyBlocklist,
    ClearBlocklist,
    RecordApplied,
}

/// Whether an operation is a `start` that returns `Ok` on this backend.
pub open spec fn starts_filter(backend: PacketFilterBackend, op: FilterOp) -> bool {
    op matches FilterOp::Start(ready) && ready && !(backend is Unsupported)
}

/// The state after one operation: a successful `start` sets the filter
/// running, `stop` stops it, and nothing changes the backend.
pub open spec fn filter_step(s: FilterState, op: FilterOp) -> FilterState {
    match op {
        FilterOp::Start(_) => FilterState {
            running: s.running || starts_filter(s.backend, op),
            backend: s.backend,
        },
        FilterOp::Stop => FilterState { running: false, backend: s.backend },
        _ => s,
    }
}

/// The state after a sequence of operations.
pub open spec fn run_ops(s: FilterState, ops: Seq<FilterOp>) -> FilterState
    decreases ops.len(),
{
    if ops.len() == 0 {
        s
    } else {
        filter_step(run_ops(s, ops.drop_last()), ops.last())
    }
}

/// No `stop` among the operations from index `from` on.
pub open spec fn no_stop_from(ops: Seq<FilterOp>, from: int) -> bool {
    forall|j: int| from <= j < ops.len() ==> !(#[trigger] ops[j] is Stop)
}

/// What running means after a sequence of operations: some `start` returned
/// `Ok` and no `stop` came after it, or the filter already ran and was never
/// stopped.
pub open spec fn runs_after(s: FilterState, ops: Seq<FilterOp>) -> bool {
    ||| exists|i: int| 0 <= i < ops.len() && #[trigger] starts_filter(s.backend, ops[i]) && no_stop_from(ops, i + 1)
    ||| s.running && no_stop_from(ops, 0)
}

/// What the platform must do to install a new rule set.
pub enum ApplyAction {
    /// Remove the rules for these addresses; the handle no longer lists them.
    Clear(Vec<String>),
    /// Install rules for the addresses, then report them with `record_applied`.
    Install,
}

impl PacketFilterHandle {
    pub closed spec fn spec_enabled(&self) -> bool {
        self.enabled
    }

    pub closed spec fn spec_backend(&self) -> PacketFilterBackend {
        self.backend
    }

    pub open spec fn spec_state(&self) -> FilterState {
        FilterState { running: self.spec_enabled(), backend: self.spec_backend() }
    }

    /// The addresses whose block rules are installed.
    pub closed spec fn active_rules(&self) -> Seq<Seq<char>> {
        self.active_ip_rules@.map_values(|s: String| s@)
    }

    /// A stopped filter for `backend` with no rules.
    pub fn new(backend: PacketFilterBackend) -> (h: Self)
        ensures
            !h.spec_enabled(),
            h.spec_backend() == backend,
            h.active_rules() == Seq::<Seq<char>>::empty(),
    {
        let h = PacketFilterHandle { enabled: false, backend, active_ip_rules: Vec::new() };
        assert(h.active_rules() =~= Seq::<Seq<char>>::empty());
        h
    }

    pub fn backend(&self) -> (b: PacketFilterBackend)
        ensures
            b == self.spec_backend(),
    {
        self.backend
    }

    pub fn is_running(&self) -> (r: bool)
        ensures
            r == self.spec_enabled(),
    {
        self.enabled
    }

    /// The program whose presence `start` needs checked: none when the
    /// platform has no packet filter.
    pub fn required_program(&self) -> (p: Option<&'static str>)
        ensures
            match self.spec_backend() {
                PacketFilterBackend::Wfp => p matches Some(s) && s@ == "powershell.exe"@,
                PacketFilterBackend::LinuxNftables => p matches Some(s) && s@ == "iptables"@,
                PacketFilterBackend::MacPf => p matches Some(s) && s@ == "pfctl"@,
                PacketFilterBackend::Unsupported => p is None,
            },
    {
        match self.backend {
            PacketFilterBackend::Wfp => Some("powershell.exe"),
            PacketFilterBackend::LinuxNftables => Some("iptables"),
            PacketFilterBackend::MacPf => Some("pfctl"),
            PacketFilterBackend::Unsupported => None,
        }
    }

    /// Starts the filter once its program was found ready (`probe`, the
    /// outcome of checking `required_program`).
    pub fn start(&mut self, probe: Result<(), String>) -> (res: Result<(), String>)
        ensures
            final(self).spec_state() == filter_step(old(self).spec_state(), FilterOp::Start(probe is Ok)),
            final(self).spec_backend() == old(self).spec_backend(),
            final(self).active_rules() == old(self).active_rules(),
            old(self).spec_backend() is Unsupported ==> (res matches Err(e) && e@
                == unsupported_message() && final(self).spec_enabled() == old(self).spec_enabled()),
            !(old(self).spec_backend() is Unsupported) ==> match probe {
                Ok(()) => res is Ok && final(self).spec_enabled(),
                Err(e) => res == Err::<(), String>(e) && final(self).spec_enabled() == old(
                    self,
                ).spec_enabled(),
            },
    {
        match self.backend {
            PacketFilterBackend::Unsupported => Err(
                text(
                    "Packet filtering is not available on this platform. The DNS proxy remains the fallback backend.",
                ),
            ),
            _ => match probe {
                Ok(()) => {
                    self.enabled = true;
                    Ok(())
                },
                Err(e) => Err(e),
            },
        }
    }

    /// Forgets the installed rules and returns their addresses, whose rules
    /// the platform then removes (nothing when none were installed).
    pub fn clear_blocklist(&mut self) -> (removed: Vec<String>)
        ensures
            removed@.map_values(|s: String| s@) == old(self).active_rules(),
            final(self).active_rules() == Seq::<Seq<char>>::empty(),
            final(self).spec_state() == filter_step(old(self).spec_state(), FilterOp::ClearBlocklist),
            final(self).spec_enabled() == old(self).spec_enabled(),
            final(self).spec_backend() == old(self).spec_backend(),
    {
        let mut removed: Vec<String> = Vec::new();
        std::mem::swap(&mut removed, &mut self.active_ip_rules);
        assert(self.active_rules() =~= Seq::<Seq<char>>::empty());
        removed
    }

    /// Stops the filter; returns the addresses whose rules are to be removed.
    pub fn stop(&mut self) -> (removed: Vec<String>)
        ensures
            removed@.map_values(|s: String| s@) == old(self).active_rules(),
            final(self).active_rules() == Seq::<Seq<char>>::empty(),
            final(self).spec_state() == filter_step(old(self).spec_state(), FilterOp::Stop),
            !final(self).spec_enabled(),
            final(self).spec_backend() == old(self).spec_backend(),
    {
        let removed = self.clear_blocklist();
        self.enabled = false;
        removed
    }

    /// Decides how to enforce the resolved `addresses`: with none, the rules
    /// are cleared; on a platform without a filter, refused; otherwise they
    /// are to be installed.
    pub fn apply_blocklist(&mut self, addresses: &Vec<String>) -> (res: Result<ApplyAction, String>)
        ensures
            final(self).spec_state() == filter_step(old(self).spec_state(), FilterOp::ApplyBlocklist),
            final(self).spec_enabled() == old(self).spec_enabled(),
            final(self).spec_backend() == old(self).spec_backend(),
            addresses@.len() == 0 ==> (res matches Ok(ApplyAction::Clear(r)) && r@.map_values(
                |s: String| s@,
            ) == old(self).active_rules() && final(self).active_rules() == Seq::<
                Seq<char>,
            >::empty()),
            addresses@.len() != 0 && old(self).spec_backend() is Unsupported ==> (res matches Err(e)
                && e@ == unsupported_message() && final(self).active_rules() == old(
                self,
            ).active_rules()),
            addresses@.len() != 0 && !(old(self).spec_backend() is Unsupported) ==> (res matches Ok(
                ApplyAction::Install,
            ) && final(self).active_rules() == old(self).active_rules()),
    {
        if addresses.len() == 0 {
            return Ok(ApplyAction::Clear(self.clear_blocklist()));
        }
        match self.backend {
            PacketFilterBackend::Unsupported => Err(
                text(
                    "Packet filtering is not available on this platform. The DNS proxy remains the fallback backend.",
                ),
            ),
            _ => Ok(ApplyAction::Install),
        }
    }

    /// Records the addresses whose rules were installed.
    pub fn record_applied(&mut self, addresses: Vec<String>)
        ensures
            final(self).active_rules() == addresses@.map_values(|s: String| s@),
            final(self).spec_state() == filter_step(old(self).spec_state(), FilterOp::RecordApplied),
            final(self).spec_enabled() == old(self).spec_enabled(),
            final(self).spec_backend() == old(self).spec_backend(),
    {
        self.active_ip_rules = addresses;
    }

    pub open spec fn spec_note(&self) -> Seq<char> {
        match self.spec_backend() {
            PacketFilterBackend::Unsupported => "This build does not expose a native packet-filtering backend on this platform."@,
            PacketFilterBackend::Wfp => if self.spec_enabled() {
                "Windows Filtering Platform is active and ready for packet policy enforcement."@
            } else {
                "Windows Filtering Platform is available and will be activated when the runtime is started."@
            },
            PacketFilterBackend::LinuxNftables => if self.spec_enabled() {
                "Linux nftables is active and ready for packet-level rule enforcement."@
            } else {
                "Linux nftables is the native packet-filtering backend for this platform."@
            },
            PacketFilterBackend::MacPf => if self.spec_enabled() {
                "macOS pf is active and ready for packet-level rule enforcement."@
            } else {
                "macOS pf is the native packet-filtering backend for this platform."@
            },
        }
    }

    /// The filter's state, backend name and an explanatory note.
    pub fn status(&self) -> (s: PacketFilterStatus)
        ensures
            s.enabled == self.spec_enabled(),
            s.backend@ == self.spec_backend().spec_name(),
            s.note@ == self.spec_note(),
    {
        let note = match self.backend {
            PacketFilterBackend::Unsupported => text(
                "This build does not expose a native packet-filtering backend on this platform.",
            ),
            PacketFilterBackend::Wfp => if self.enabled {
                text(
                    "Windows Filtering Platform is active and ready for packet policy enforcement.",
                )
            } else {
                text(
                    "Windows Filtering Platform is available and will be activated when the runtime is started.",
                )
            },
            PacketFilterBackend::LinuxNftables => if self.enabled {
                text("Linux nftables is active and ready for packet-level rule enforcement.")
            } else {
                text("Linux nftables is the native packet-filtering backend for this platform.")
            },
            PacketFilterBackend::MacPf => if self.enabled {
                text("macOS pf is active and ready for packet-level rule enforcement.")
            } else {
                text("macOS pf is the native packet-filtering backend for this platform.")
            },
        };
        PacketFilterStatus { enabled: self.enabled, backend: text(self.backend.name()), note }
    }
}

/// The outcome of checking that `program` runs: `ran` is the exit success
/// of the check, or the text of the error that kept it from starting.
pub fn command_readiness(program: &str, ran: Result<bool, String>) -> (res: Result<(), String>)
    ensures
        match ran {
            Ok(true) => res is Ok,
            Ok(false) => res matches Err(e) && e@ == "The native packet-filter backend for "@
                + program@ + " is installed but not ready to run."@,
            Err(error) => res matches Err(e) && e@ == "The native packet filter for "@ + program@
                + " is unavailable on this device: "@ + error@,
        },
{
    match ran {
        Ok(true) => Ok(()),
        Ok(false) => {
            let mut e = text("The native packet-filter backend for ");
            push_text(&mut e, program);
            push_text(&mut e, " is installed but not ready to run.");
            Err(e)
        },
        Err(error) => {
            let mut e = text("The native packet filter for ");
            push_text(&mut e, program);
            push_text(&mut e, " is unavailable on this device: ");
            push_text(&mut e, error.as_str());
            Err(e)
        },
    }
}

/// No sequence of operations changes the backend a packet filter drives.
pub proof fn lemma_backend_never_changes(s: FilterState, ops: Seq<FilterOp>)
    ensures
        run_ops(s, ops).backend == s.backend,
    decreases ops.len(),
{
    if ops.len() > 0 {
        lemma_backend_never_changes(s, ops.drop_last());
    }
}

/// After any sequence of operations a packet filter runs exactly when some
/// `start` returned `Ok` and no `stop` came after it (or it already ran and
/// was never stopped); applying and clearing blocklists never change it.
pub proof fn lemma_running_after_ops(s: FilterState, ops: Seq<FilterOp>)
    ensures
        run_ops(s, ops).running == runs_after(s, ops),
    decreases ops.len(),
{
    if ops.len() > 0 {
        let prefix = ops.drop_last();
        let last = ops.last();
        let n = ops.len() - 1;
        lemma_running_after_ops(s, prefix);
        lemma_backend_never_changes(s, prefix);
        assert forall|i: int| 0 <= i < n implies #[trigger] prefix[i] == ops[i] by {}
        if last is Stop {
            assert(!no_stop_from(ops, 0));
            assert forall|i: int| 0 <= i < ops.len() implies !(starts_filter(s.backend, ops[i]) && no_stop_from(ops, i + 1)) by {
                if i < n {
                    assert(ops[n] is Stop);
                }
            }
        } else if starts_filter(s.backend, last) {
            assert(no_stop_from(ops, n + 1));
            assert(starts_filter(s.backend, ops[n]));
        } else {
            // the last operation neither starts nor stops: what held before holds now
            assert forall|k: int| 1 <= k <= n implies #[trigger] no_stop_from(ops, k) == no_stop_from(prefix, k) by {
                if no_stop_from(prefix, k) {
                    assert forall|j: int| k <= j < ops.len() implies !(#[trigger] ops[j] is Stop) by {
                        if j < n {
                            assert(prefix[j] == ops[j]);
                        }
                    }
                }
                if no_stop_from(ops, k) {
                    assert forall|j: int| k <= j < prefix.len() implies !(#[trigger] prefix[j] is Stop) by {
                        assert(prefix[j] == ops[j]);
                    }
                }
            }
            assert(no_stop_from(ops, 0) == no_stop_from(prefix, 0)) by {
                if no_stop_from(prefix, 0) {
                    assert forall|j: int| 0 <= j < ops.len() implies !(#[trigger] ops[j] is Stop) by {
                        if j < n {
                            assert(prefix[j] == ops[j]);
                        }
                    }
                }
                if no_stop_from(ops, 0) {
                    assert forall|j: int| 0 <= j < prefix.len() implies !(#[trigger] prefix[j] is Stop) by {
                        assert(prefix[j] == ops[j]);
                    }
                }
            }
            if runs_after(s, ops) {
                if !(s.running && no_stop_from(ops, 0)) {
                    let i = choose|i: int| 0 <= i < ops.len() && #[trigger] starts_filter(s.backend, ops[i]) && no_stop_from(ops, i + 1);
                    assert(i < n);
                    assert(starts_filter(s.backend, prefix[i]));
                }
            }
            if runs_after(s, prefix) {
                if !(s.running && no_stop_from(prefix, 0)) {
                    let i = choose|i: int| 0 <= i < prefix.len() && #[trigger] starts_filter(s.backend, prefix[i]) && no_stop_from(prefix, i + 1);
                    assert(starts_filter(s.backend, ops[i]));
                }
            }
        }
    }
}

} // verus!

verus! {

pub open spec fn views(v: Seq<String>) -> Seq<Seq<char>> {
    v.map_values(|s: String| s@)
}

/// The first failure among per-domain lookups, in order.
pub open spec fn first_error(rs: Seq<Result<Vec<String>, String>>) -> Option<Seq<char>>
    decreases rs.len(),
{
    if rs.len() == 0 {
        None
    } else {
        match first_error(rs.drop_last()) {
            Some(e) => Some(e),
            None => match rs.last() {
                Err(e) => Some(e@),
                Ok(_) => None,
            },
        }
    }
}

/// All looked-up addresses, in order.
pub open spec fn all_addresses(rs: Seq<Result<Vec<String>, String>>) -> Seq<Seq<char>>
    decreases rs.len(),
{
    if rs.len() == 0 {
        Seq::empty()
    } else {
        all_addresses(rs.drop_last()) + match rs.last() {
            Ok(list) => views(list@),
            Err(_) => Seq::empty(),
        }
    }
}

/// The elements of `s` at their first occurrence.
pub open spec fn unique_in_order(s: Seq<Seq<char>>) -> Seq<Seq<char>>
    decreases s.len(),
{
    if s.len() == 0 {
        Seq::empty()
    } else {
        let r = unique_in_order(s.drop_last());
        if r.contains(s.last()) {
            r
        } else {
            r.push(s.last())
        }
    }
}

/// Merges the addresses found for each domain (`resolved`, one lookup per
/// domain, in order): the first failed lookup fails the whole, otherwise
/// every address once, in order of first appearance.
pub fn resolve_domains(resolved: &Vec<Result<Vec<String>, String>>) -> (res: Result<
    Vec<String>,
    String,
>)
    ensures
        match first_error(resolved@) {
            Some(e) => res matches Err(r) && r@ == e,
            None => res matches Ok(v) && views(v@) == unique_in_order(all_addresses(resolved@))
                && views(v@).no_duplicates(),
        },
{
    proof {
        lemma_unique_in_order(all_addresses(resolved@));
    }
    let mut results: Vec<String> = Vec::new();
    let mut seen = crate::dns_proxy::DomainSet::new();
    let mut i: usize = 0;
    while i < resolved.len()
        invariant
            i <= resolved.len(),
            seen.wf(),
            first_error(resolved@.take(i as int)) is None,
            views(results@) == unique_in_order(all_addresses(resolved@.take(i as int))),
            seen@ == views(results@).to_set(),
        decreases resolved.len() - i,
    {
        assert(resolved@.take(i + 1).drop_last() =~= resolved@.take(i as int));
        match &resolved[i] {
            Err(e) => {
                assert(first_error(resolved@.take(i + 1)) == Some(e@));
                proof {
                    lemma_first_error_prefix(resolved@, i as int + 1);
                }
                return Err(e.clone());
            },
            Ok(list) => {
                let ghost base = all_addresses(resolved@.take(i as int));
                let mut j: usize = 0;
                while j < list.len()
                    invariant
                        j <= list.len(),
                        seen.wf(),
                        views(results@) == unique_in_order(base + views(list@).take(j as int)),
                        seen@ == views(results@).to_set(),
                    decreases list.len() - j,
                {
                    let v = crate::text::chars_of(list[j].as_str());
                    let n = v.len();
                    assert(v@.subrange(0, n as int) =~= v@);
                    let ghost flat = base + views(list@).take(j as int);
                    assert((base + views(list@).take(j + 1)).drop_last() =~= flat);
                    assert((base + views(list@).take(j + 1)).last() == list@[j as int]@);
                    if !seen.contains_range(&v, 0, n) {
                        let ghost old_views = views(results@);
                        let ghost x = list@[j as int]@;
                        seen.insert_chars(v);
                        results.push(list[j].clone());
                        assert(views(results@) =~= old_views.push(x));
                        assert(views(results@) =~= unique_in_order(flat).push(x));
                        assert forall|y: Seq<char>| #[trigger] seen@.contains(y) == views(results@).to_set().contains(y) by {
                            if y == x {
                                assert(views(results@)[old_views.len() as int] == x);
                            } else if old_views.contains(y) {
                                let k = choose|k: int| 0 <= k < old_views.len() && old_views[k] == y;
                                assert(views(results@)[k] == y);
                            } else if views(results@).contains(y) {
                                let k = choose|k: int| 0 <= k < views(results@).len() && views(results@)[k] == y;
                                assert(old_views[k] == y);
                            }
                        }
                        assert(seen@ =~= views(results@).to_set());
                    }
                    j += 1;
                }
                assert(views(list@).take(list.len() as int) =~= views(list@));
            },
        }
        i += 1;
    }
    assert(resolved@.take(resolved.len() as int) =~= resolved@);
    Ok(results)
}

proof fn lemma_first_error_prefix(rs: Seq<Result<Vec<String>, String>>, k: int)
    requires
        0 <= k <= rs.len(),
        first_error(rs.take(k)) is Some,
    ensures
        first_error(rs) == first_error(rs.take(k)),
    decreases rs.len() - k,
{
    if k < rs.len() {
        assert(rs.take(k + 1).drop_last() =~= rs.take(k));
        lemma_first_error_prefix(rs, k + 1);
    } else {
        assert(rs.take(k) =~= rs);
    }
}

} // verus!

verus! {

/// What `IpAddr::from_str` makes of a text, in the standard text form that
/// `IpAddr`'s `Display` writes; `None` when the text is no IPv4 or IPv6 address.
pub uninterp spec fn ip_text(s: Seq<char>) -> Option<Seq<char>>;

/// Whether a text parses as an IPv4 or IPv6 address (`IpAddr::from_str`).
pub open spec fn parses_as_ip(s: Seq<char>) -> bool {
    ip_text(s) is Some
}

/// `<IpAddr as FromStr>::from_str`, with a parsed address written back by
/// `IpAddr::to_string`. Claimed: the result is `ip_text` of the text.
#[verifier::external_body]
pub(crate) fn canonical_ip(token: &str) -> (res: Option<String>)
    ensures
        res matches Some(t) ==> (ip_text(token@) matches Some(u) && u == t@),
        res is None ==> ip_text(token@) is None,
{
    token.parse::<core::net::IpAddr>().ok().map(|address| address.to_string())
}

/// Whether the text is an IP address.
pub(crate) fn is_ip_address(token: &str) -> (res: bool)
    ensures
        res == parses_as_ip(token@),
{
    canonical_ip(token).is_some()
}

/// A word of resolver output that names an address.
pub open spec fn is_address_word(w: Seq<char>) -> bool {
    (w.contains('.') || w.contains(':')) && parses_as_ip(w)
}

/// The address words of `ws`, in order.
pub open spec fn address_words(ws: Seq<Seq<char>>) -> Seq<Seq<char>>
    decreases ws.len(),
{
    if ws.len() == 0 {
        Seq::empty()
    } else if is_address_word(ws.last()) {
        address_words(ws.drop_last()).push(ws.last())
    } else {
        address_words(ws.drop_last())
    }
}

/// The IP addresses in resolver output: the words that hold a dot or a colon
/// and parse as an address, in order.
pub fn extract_addresses(output: &str) -> (addresses: Vec<String>)
    ensures
        views(addresses@) == address_words(crate::text::words(output@)),
{
    let v = crate::text::chars_of(output);
    let n = v.len();
    let ws = crate::text::words_of(&v, 0, n);
    assert(v@.subrange(0, n as int) =~= v@);
    let ghost wv = ws@.map_values(|w: Vec<char>| w@);
    let mut addresses: Vec<String> = Vec::new();
    let mut i: usize = 0;
    while i < ws.len()
        invariant
            i <= ws.len(),
            wv == ws@.map_values(|w: Vec<char>| w@),
            views(addresses@) == address_words(wv.take(i as int)),
        decreases ws.len() - i,
    {
        let w = &ws[i];
        assert(wv.take(i + 1).drop_last() =~= wv.take(i as int));
        assert(wv.take(i + 1).last() == w@);
        if crate::text::has_char(w, '.') || crate::text::has_char(w, ':') {
            let token = crate::text::string_from_chars(w);
            if is_ip_address(token.as_str()) {
                let ghost before = views(addresses@);
                addresses.push(token);
                assert(views(addresses@) =~= before.push(w@));
            }
        }
        i += 1;
    }
    assert(wv.take(ws.len() as int) =~= wv);
    addresses
}

} // verus!

verus! {

pub open spec fn rule_char(c: char) -> char {
    if crate::text::is_ascii_alnum(c) {
        c
    } else {
        '-'
    }
}

/// The quoted display name of the firewall rule for an address: letters and
/// digits kept, everything else a dash.
pub open spec fn spec_rule_name(address: Seq<char>) -> Seq<char> {
    let mapped = address.map_values(|c: char| rule_char(c));
    let name = if mapped.len() == 0 {
        "blocked-address"@
    } else {
        mapped
    };
    "'"@ + name + "'"@
}

pub fn firewall_rule_name(address: &str) -> (name: String)
    ensures
        name@ == spec_rule_name(address@),
{
    let v = crate::text::chars_of(address);
    let mut mapped = String::new();
    let mut i: usize = 0;
    while i < v.len()
        invariant
            v@ == address@,
            i <= v.len(),
            mapped@ == v@.take(i as int).map_values(|c: char| rule_char(c)),
        decreases v.len() - i,
    {
        let c = v[i];
        let m = if crate::text::ascii_alnum(c) {
            c
        } else {
            '-'
        };
        crate::text::push_char(&mut mapped, m);
        assert(v@.take(i + 1).map_values(|c: char| rule_char(c)) =~= v@.take(i as int).map_values(
            |c: char| rule_char(c),
        ).push(m));
        i += 1;
    }
    assert(v@.take(v.len() as int) =~= v@);
    let mut name = text("'");
    if v.len() == 0 {
        push_text(&mut name, "blocked-address");
    } else {
        push_text(&mut name, mapped.as_str());
    }
    push_text(&mut name, "'");
    name
}

pub open spec fn spec_block_script(address: Seq<char>) -> Seq<char> {
    "New-NetFirewallRule -DisplayName "@ + spec_rule_name(address)
        + " -Direction Outbound -Action Block -RemoteAddress "@ + address
        + " -Protocol Any | Out-Null"@
}

pub open spec fn spec_unblock_script(address: Seq<char>) -> Seq<char> {
    "Remove-NetFirewallRule -DisplayName "@ + spec_rule_name(address)
        + " -ErrorAction SilentlyContinue"@
}

/// The PowerShell commands that install an outbound block rule per address, in order.
pub fn windows_apply_blocklist(addresses: &Vec<String>) -> (scripts: Vec<String>)
    ensures
        scripts@.len() == addresses@.len(),
        forall|i: int|
            0 <= i < addresses@.len() ==> (#[trigger] scripts@[i])@ == spec_block_script(
                addresses@[i]@,
            ),
{
    let mut scripts: Vec<String> = Vec::new();
    let mut i: usize = 0;
    while i < addresses.len()
        invariant
            i <= addresses.len(),
            scripts@.len() == i,
            forall|j: int|
                0 <= j < i ==> (#[trigger] scripts@[j])@ == spec_block_script(addresses@[j]@),
        decreases addresses.len() - i,
    {
        let address = addresses[i].as_str();
        let mut script = text("New-NetFirewallRule -DisplayName ");
        push_text(&mut script, firewall_rule_name(address).as_str());
        push_text(&mut script, " -Direction Outbound -Action Block -RemoteAddress ");
        push_text(&mut script, address);
        push_text(&mut script, " -Protocol Any | Out-Null");
        scripts.push(script);
        i += 1;
    }
    scripts
}

/// The PowerShell commands that remove the block rule of each address, in order.
pub fn windows_clear_blocklist(addresses: &Vec<String>) -> (scripts: Vec<String>)
    ensures
        scripts@.len() == addresses@.len(),
        forall|i: int|
            0 <= i < addresses@.len() ==> (#[trigger] scripts@[i])@ == spec_unblock_script(
                addresses@[i]@,
            ),
{
    let mut scripts: Vec<String> = Vec::new();
    let mut i: usize = 0;
    while i < addresses.len()
        invariant
            i <= addresses.len(),
            scripts@.len() == i,
            forall|j: int|
                0 <= j < i ==> (#[trigger] scripts@[j])@ == spec_unblock_script(addresses@[j]@),
        decreases addresses.len() - i,
    {
        let address = addresses[i].as_str();
        let mut script = text("Remove-NetFirewallRule -DisplayName ");
        push_text(&mut script, firewall_rule_name(address).as_str());
        push_text(&mut script, " -ErrorAction SilentlyContinue");
        scripts.push(script);
        i += 1;
    }
    scripts
}

/// The Linux firewall program for an address: `ip6tables` for IPv6 (an
/// address with a colon), `iptables` otherwise.
pub fn iptables_program(address: &str) -> (program: &'static str)
    ensures
        address@.contains(':') ==> program@ == "ip6tables"@,
        !address@.contains(':') ==> program@ == "iptables"@,
{
    let v = crate::text::chars_of(address);
    if crate::text::has_char(&v, ':') {
        "ip6tables"
    } else {
        "iptables"
    }
}

/// The arguments of the outbound drop rule for `address` under the
/// operation `op` (`-C` check, `-A` append, `-D` delete).
pub fn iptables_args(op: &str, address: &str) -> (args: Vec<String>)
    ensures
        args@.len() == 6,
        args@[0]@ == op@,
        args@[1]@ == "OUTPUT"@,
        args@[2]@ == "-d"@,
        args@[3]@ == address@,
        args@[4]@ == "-j"@,
        args@[5]@ == "DROP"@,
{
    let mut args: Vec<String> = Vec::new();
    args.push(text(op));
    args.push(text("OUTPUT"));
    args.push(text("-d"));
    args.push(text(address));
    args.push(text("-j"));
    args.push(text("DROP"));
    args
}

/// The message for a Linux system without the firewall program.
pub fn missing_program_message(program: &str) -> (msg: String)
    ensures
        msg@ == "The "@ + program@ + " command is required for packet filtering on this Linux system."@,
{
    let mut msg = text("The ");
    push_text(&mut msg, program);
    push_text(&mut msg, " command is required for packet filtering on this Linux system.");
    msg
}

/// The outcome of running a rule command: `ran` is its exit success, or the
/// text of the error that kept it from starting.
pub fn rule_command_outcome(program: &str, ran: Result<bool, String>) -> (res: Result<(), String>)
    ensures
        match ran {
            Ok(true) => res is Ok,
            Ok(false) => res matches Err(e) && e@ == "The "@ + program@
                + " command failed while applying packet-filter rules."@,
            Err(error) => res matches Err(e) && e@ == "Unable to run "@ + program@ + ": "@ + error@,
        },
{
    match ran {
        Ok(true) => Ok(()),
        Ok(false) => {
            let mut e = text("The ");
            push_text(&mut e, program);
            push_text(&mut e, " command failed while applying packet-filter rules.");
            Err(e)
        },
        Err(error) => {
            let mut e = text("Unable to run ");
            push_text(&mut e, program);
            push_text(&mut e, ": ");
            push_text(&mut e, error.as_str());
            Err(e)
        },
    }
}

/// `parts` joined with single spaces.
pub open spec fn joined(parts: Seq<Seq<char>>) -> Seq<char>
    decreases parts.len(),
{
    if parts.len() == 0 {
        Seq::empty()
    } else if parts.len() == 1 {
        parts[0]
    } else {
        joined(parts.drop_last()) + " "@ + parts.last()
    }
}

/// The pf rule that blocks outbound traffic to every address.
pub fn pf_block_rules(addresses: &Vec<String>) -> (rules: String)
    ensures
        rules@ == "block out quick from any to { "@ + joined(views(addresses@)) + " }\n"@,
{
    let mut body = String::new();
    let mut i: usize = 0;
    while i < addresses.len()
        invariant
            i <= addresses.len(),
            body@ == joined(views(addresses@).take(i as int)),
        decreases addresses.len() - i,
    {
        let ghost parts = views(addresses@).take(i + 1);
        assert(parts.drop_last() =~= views(addresses@).take(i as int));
        assert(parts.last() == addresses@[i as int]@);
        if i > 0 {
            push_text(&mut body, " ");
        } else {
            assert(parts.len() == 1);
            assert(body@ =~= Seq::<char>::empty());
        }
        push_text(&mut body, addresses[i].as_str());
        i += 1;
    }
    assert(views(addresses@).take(addresses.len() as int) =~= views(addresses@));
    let mut rules = text("block out quick from any to { ");
    push_text(&mut rules, body.as_str());
    push_text(&mut rules, " }\n");
    rules
}

} // verus!

verus! {

/// Keeping first occurrences leaves every element once and loses none.
pub proof fn lemma_unique_in_order(s: Seq<Seq<char>>)
    ensures
        unique_in_order(s).no_duplicates(),
        forall|x: Seq<char>| #[trigger] unique_in_order(s).contains(x) <==> s.contains(x),
    decreases s.len(),
{
    if s.len() > 0 {
        let p = s.drop_last();
        lemma_unique_in_order(p);
        let r = unique_in_order(p);
        assert forall|x: Seq<char>| #[trigger] unique_in_order(s).contains(x) <==> s.contains(x) by {
            if p.contains(x) {
                let k = choose|k: int| 0 <= k < p.len() && p[k] == x;
                assert(s[k] == x);
            }
            if s.contains(x) && x != s.last() {
                let k = choose|k: int| 0 <= k < s.len() && s[k] == x;
                assert(k < p.len());
                assert(p[k] == x);
            }
            if !r.contains(s.last()) {
                assert(r.push(s.last())[r.len() as int] == s.last());
                if r.push(s.last()).contains(x) && x != s.last() {
                    let k = choose|k: int| 0 <= k < r.len() + 1 && r.push(s.last())[k] == x;
                    assert(r[k] == x);
                }
                if r.contains(x) {
                    let k = choose|k: int| 0 <= k < r.len() && r[k] == x;
                    assert(r.push(s.last())[k] == x);
                }
            }
            assert(s[s.len() - 1] == s.last());
        }
    }
}

} // verus!

verus! {

/// The native packet-filter backend of an operating system (named as
/// `std::env::consts::OS` names it).
pub fn detect_backend(os: &str) -> (b: PacketFilterBackend)
    ensures
        os@ == "windows"@ ==> b == PacketFilterBackend::Wfp,
        os@ == "linux"@ ==> b == PacketFilterBackend::LinuxNftables,
        os@ == "macos"@ ==> b == PacketFilterBackend::MacPf,
        os@ != "windows"@ && os@ != "linux"@ && os@ != "macos"@ ==> b
            == PacketFilterBackend::Unsupported,
{
    proof {
        reveal_strlit("windows");
        reveal_strlit("linux");
        reveal_strlit("macos");
        assert("linux"@.len() != "windows"@.len());
        assert("macos"@.len() != "windows"@.len());
        assert("linux"@[0] != "macos"@[0]);
    }
    if crate::text::str_eq(os, "windows") {
        PacketFilterBackend::Wfp
    } else if crate::text::str_eq(os, "linux") {
        PacketFilterBackend::LinuxNftables
    } else if crate::text::str_eq(os, "macos") {
        PacketFilterBackend::MacPf
    } else {
        PacketFilterBackend::Unsupported
    }
}

} // verus!
