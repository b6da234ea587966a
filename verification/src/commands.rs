//! The decisions of the administrative commands: which domains an import
//! adds, how protection is switched on and off, and what is recorded.

use vstd::prelude::*;

use crate::dns_proxy::DomainSet;
use crate::models::{BlocklistEntry, BLOCK_START};
use crate::packet_filter::{unique_in_order, views, PacketFilterBackend};
use crate::sinkhole::{normalize_domain, spec_normalize_domain};
use crate::text::{push_text, text};

verus! {

/// The normalized forms of the values that normalize, in order.
pub open spec fn valid_domains(values: Seq<String>) -> Seq<Seq<char>>
    decreases values.len(),
{
    if values.len() == 0 {
        Seq::empty()
    } else {
        match spec_normalize_domain(values.last()@) {
            Ok(d) => valid_domains(values.drop_last()).push(d),
            Err(_) => valid_domains(values.drop_last()),
        }
    }
}

/// The domains an import adds: every value that normalizes, once; values
/// that do not are skipped. Refused when none does.
pub fn import_candidates(domains: Vec<String>) -> (res: Result<Vec<String>, String>)
    ensures
        unique_in_order(valid_domains(domains@)).len() == 0 ==> (res matches Err(e) && e@
            == "The selected file contained no valid domains."@),
        unique_in_order(valid_domains(domains@)).len() != 0 ==> (res matches Ok(v) && views(v@)
            == unique_in_order(valid_domains(domains@)) && views(v@).no_duplicates()),
{
    proof {
        crate::packet_filter::lemma_unique_in_order(valid_domains(domains@));
    }
    let mut seen = DomainSet::new();
    let mut out: Vec<String> = Vec::new();
    let mut i: usize = 0;
    while i < domains.len()
        invariant
            i <= domains.len(),
            seen.wf(),
            views(out@) == unique_in_order(valid_domains(domains@.take(i as int))),
            seen@ == views(out@).to_set(),
        decreases domains.len() - i,
    {
        assert(domains@.take(i + 1).drop_last() =~= domains@.take(i as int));
        assert(domains@.take(i + 1).last() == domains@[i as int]);
        let ghost flat = valid_domains(domains@.take(i as int));
        let value = domains[i].clone();
        assert(value@ == domains@[i as int]@);
        match normalize_domain(value) {
            Ok(d) => {
                assert(valid_domains(domains@.take(i + 1)) == flat.push(d@));
                assert(flat.push(d@).drop_last() =~= flat);
                assert(flat.push(d@).last() == d@);
                let v = crate::text::chars_of(d.as_str());
                let n = v.len();
                assert(v@.subrange(0, n as int) =~= v@);
                let ghost present = views(out@).contains(d@);
                assert(seen@.contains(d@) == present);
                if !seen.contains_range(&v, 0, n) {
                    let ghost old_views = views(out@);
                    seen.insert_chars(v);
                    out.push(d);
                    assert(views(out@) =~= old_views.push(d@));
                    assert forall|y: Seq<char>| #[trigger] seen@.contains(y) == views(out@).to_set().contains(y) by {
                        if y == d@ {
                            assert(views(out@)[old_views.len() as int] == y);
                        } else if old_views.contains(y) {
                            let k = choose|k: int| 0 <= k < old_views.len() && old_views[k] == y;
                            assert(views(out@)[k] == y);
                        } else if views(out@).contains(y) {
                            let k = choose|k: int| 0 <= k < views(out@).len() && views(out@)[k] == y;
                            assert(old_views[k] == y);
                        }
                    }
                    assert(seen@ =~= views(out@).to_set());
                }
            },
            Err(_) => {
                assert(valid_domains(domains@.take(i + 1)) == flat);
            },
        }
        i += 1;
    }
    assert(domains@.take(domains.len() as int) =~= domains@);
    if out.len() == 0 {
        return Err(text("The selected file contained no valid domains."));
    }
    Ok(out)
}

/// The domains of the enabled entries, in order.
pub open spec fn enabled_names(es: Seq<BlocklistEntry>) -> Seq<Seq<char>>
    decreases es.len(),
{
    if es.len() == 0 {
        Seq::empty()
    } else if es.last().enabled {
        enabled_names(es.drop_last()).push(es.last().domain@)
    } else {
        enabled_names(es.drop_last())
    }
}

/// The domains that protection enforces: those of the enabled entries.
pub fn enabled_domains(entries: Vec<BlocklistEntry>) -> (domains: Vec<String>)
    ensures
        views(domains@) == enabled_names(entries@),
{
    let mut domains: Vec<String> = Vec::new();
    let mut i: usize = 0;
    while i < entries.len()
        invariant
            i <= entries.len(),
            views(domains@) == enabled_names(entries@.take(i as int)),
        decreases entries.len() - i,
    {
        assert(entries@.take(i + 1).drop_last() =~= entries@.take(i as int));
        assert(entries@.take(i + 1).last() == entries@[i as int]);
        if entries[i].enabled {
            let ghost before = views(domains@);
            domains.push(entries[i].domain.clone());
            assert(views(domains@) =~= before.push(entries@[i as int].domain@));
        }
        i += 1;
    }
    assert(entries@.take(entries.len() as int) =~= entries@);
    domains
}

/// The outcome of inserting a domain (`rows` inserted).
pub fn insert_outcome(rows: usize) -> (res: Result<(), String>)
    ensures
        rows == 0 ==> (res matches Err(e) && e@ == "This domain is already in the blocklist."@),
        rows != 0 ==> res is Ok,
{
    if rows == 0 {
        Err(text("This domain is already in the blocklist."))
    } else {
        Ok(())
    }
}

/// The outcome of deleting a domain (`rows` deleted).
pub fn remove_outcome(rows: usize) -> (res: Result<(), String>)
    ensures
        rows == 0 ==> (res matches Err(e) && e@ == "That domain is not in the blocklist."@),
        rows != 0 ==> res is Ok,
{
    if rows == 0 {
        Err(text("That domain is not in the blocklist."))
    } else {
        Ok(())
    }
}

/// What the hosts file needs after the blocklist changed.
pub enum SinkholeRefresh {
    /// The proxy enforces the list: drop the hosts-file block (best effort).
    RemoveBlock,
    /// The hosts-file block is in use: rewrite it with the new list.
    RewriteBlock,
    /// Protection is off: leave the hosts file alone.
    Nothing,
}

/// Decides the hosts-file refresh after a blocklist change; `hosts` is read
/// only when the proxy does not run.
pub fn sinkhole_refresh(proxy_running: bool, hosts: &str) -> (res: SinkholeRefresh)
    ensures
        proxy_running ==> res is RemoveBlock,
        !proxy_running && crate::text::contains_seq(hosts@, BLOCK_START@) ==> res is RewriteBlock,
        !proxy_running && !crate::text::contains_seq(hosts@, BLOCK_START@) ==> res is Nothing,
{
    if proxy_running {
        return SinkholeRefresh::RemoveBlock;
    }
    let v = crate::text::chars_of(hosts);
    let marker = crate::text::chars_of(BLOCK_START);
    if crate::text::contains_exec(&v, &marker) {
        SinkholeRefresh::RewriteBlock
    } else {
        SinkholeRefresh::Nothing
    }
}

pub open spec fn no_backend_message() -> Seq<char> {
    "No usable enforcement backend is available. Enable administrator privileges or install the native packet-filter backend."@
}

/// After the proxy was tried: whether the hosts-file block must be written
/// as the fallback (`Ok(true)`), is not needed (`Ok(false)`), or whether no
/// backend can enforce the list at all.
pub fn hosts_fallback(proxy_running: bool, can_write_hosts: bool, packet_ready: bool) -> (res: Result<
    bool,
    String,
>)
    ensures
        !proxy_running && !can_write_hosts && !packet_ready ==> (res matches Err(e) && e@
            == no_backend_message()),
        !proxy_running && can_write_hosts && !packet_ready ==> res == Ok::<bool, String>(true),
        proxy_running || packet_ready ==> res == Ok::<bool, String>(false),
{
    if !proxy_running {
        if !can_write_hosts && !packet_ready {
            return Err(
                text(
                    "No usable enforcement backend is available. Enable administrator privileges or install the native packet-filter backend.",
                ),
            );
        }
        if can_write_hosts && !packet_ready {
            return Ok(true);
        }
    }
    Ok(false)
}

pub open spec fn spec_protection_detail(
    enabled: bool,
    dns_configured: bool,
    proxy_started: bool,
    packet_backend: Option<Seq<char>>,
) -> Seq<char> {
    if !enabled {
        "Advertisement filter disabled"@
    } else {
        let base = if dns_configured {
            if proxy_started {
                "Advertisement filter enabled; DNS proxy active"@
            } else {
                "Hosts-file protection enabled; local DNS proxy unavailable"@
            }
        } else {
            "Hosts-file protection enabled; system DNS unavailable"@
        };
        match packet_backend {
            Some(name) => base + "; packet filter backend "@ + name + " active"@,
            None => base,
        }
    }
}

/// The detail recorded when protection is switched: which backends enforce
/// it (`packet_backend` is the name of the running packet filter, if any).
pub fn protection_detail(
    enabled: bool,
    dns_configured: bool,
    proxy_started: bool,
    packet_backend: Option<&str>,
) -> (detail: String)
    ensures
        detail@ == spec_protection_detail(
            enabled,
            dns_configured,
            proxy_started,
            match packet_backend {
                Some(n) => Some(n@),
                None => None,
            },
        ),
{
    if !enabled {
        return text("Advertisement filter disabled");
    }
    let mut detail = if dns_configured {
        if proxy_started {
            text("Advertisement filter enabled; DNS proxy active")
        } else {
            text("Hosts-file protection enabled; local DNS proxy unavailable")
        }
    } else {
        text("Hosts-file protection enabled; system DNS unavailable")
    };
    match packet_backend {
        Some(name) => {
            push_text(&mut detail, "; packet filter backend ");
            push_text(&mut detail, name);
            push_text(&mut detail, " active");
        },
        None => {},
    }
    detail
}

/// The action recorded for switching protection.
pub fn protection_action(enabled: bool) -> (action: &'static str)
    ensures
        enabled ==> action@ == "enabled"@,
        !enabled ==> action@ == "disabled"@,
{
    if enabled {
        "enabled"
    } else {
        "disabled"
    }
}

} // verus!

verus! {

/// Where switching protection stands: what the last action was.
#[derive(Clone, Copy, PartialEq, Eq, Structural)]
pub enum ProtectionStage {
    /// Turning on: the packet filter was asked to start.
    FilterStart,
    /// The system resolver was asked to use the proxy.
    DnsConfigure,
    /// The DNS proxy was asked to start.
    ProxyStart,
    /// The hosts-file block was written because the resolver is not ours.
    BlockWrite,
    /// The backends in use were reported.
    BackendCheck,
    /// The hosts-file block was written as the fallback.
    FallbackWrite,
    /// The blocklist was loaded (and handed to the packet filter).
    BlocklistApply,
    /// Turning off: the packet filter was asked to stop.
    FilterStop,
    /// The hosts-file block was removed.
    BlockRemoval,
    /// The proxy was stopped and the resolver settings put back.
    DnsRestore,
    /// Nothing is left to do.
    Finished,
}

/// A run of switching protection on or off.
#[derive(Clone, Copy)]
pub struct ProtectionRun {
    pub stage: ProtectionStage,
    pub backend: PacketFilterBackend,
    pub packet_ready: bool,
    pub dns_configured: bool,
    pub proxy_started: bool,
}

/// What the platform reports after an action: its outcome, and whether the
/// proxy runs and the hosts file can be written now.
pub struct StepReport {
    pub outcome: Result<(), String>,
    pub proxy_running: bool,
    pub can_write_hosts: bool,
}

/// What the platform is to do next. Each action but the last three ends
/// with a `StepReport`.
pub enum ProtectionAction {
    StartPacketFilter,
    ConfigureDns,
    StartProxy,
    /// Write the hosts file with the block.
    WriteBlock,
    /// Put the saved resolver settings back (its outcome is ignored), then
    /// write the hosts file with the block.
    RestoreDnsThenWriteBlock,
    /// Put the saved resolver settings back (outcome ignored), then report.
    RestoreDnsThenReport,
    /// Rewrite the hosts file without the block (outcome ignored), then report.
    RemoveBlockThenReport,
    /// Only report.
    Report,
    /// Load the enabled domains and, when `true`, hand them to the packet filter.
    ApplyBlocklist(bool),
    StopPacketFilter,
    /// Rewrite the hosts file without the block.
    RemoveBlock,
    /// Stop the proxy, then put the saved resolver settings back.
    StopProxyThenRestoreDns,
    /// Stop the proxy, put the resolver settings back (outcome ignored), and
    /// fail with this error.
    Abort(String),
    /// Fail with this error.
    Fail(String),
    /// Record the switch with this detail and report the dashboard.
    Finish(String),
}

/// Starts switching protection on (`true`) or off with the packet filter
/// backend of this platform.
pub fn begin_protection(enabled: bool, backend: PacketFilterBackend) -> (res: (
    ProtectionRun,
    ProtectionAction,
))
    ensures
        res.0.backend == backend,
        !res.0.packet_ready && !res.0.dns_configured && !res.0.proxy_started,
        enabled ==> res.0.stage == ProtectionStage::FilterStart && res.1 is StartPacketFilter,
        !enabled ==> res.0.stage == ProtectionStage::FilterStop && res.1 is StopPacketFilter,
{
    let stage = if enabled {
        ProtectionStage::FilterStart
    } else {
        ProtectionStage::FilterStop
    };
    let action = if enabled {
        ProtectionAction::StartPacketFilter
    } else {
        ProtectionAction::StopPacketFilter
    };
    (
        ProtectionRun {
            stage,
            backend,
            packet_ready: false,
            dns_configured: false,
            proxy_started: false,
        },
        action,
    )
}

/// `hosts_fallback` as a value: `None` for its error.
pub open spec fn spec_hosts_fallback(proxy_running: bool, can_write_hosts: bool, packet_ready: bool) -> Option<
    bool,
> {
    if proxy_running || packet_ready {
        Some(false)
    } else if can_write_hosts {
        Some(true)
    } else {
        None
    }
}

/// The detail recorded once protection is on.
pub open spec fn enabled_detail(run: ProtectionRun) -> Seq<char> {
    spec_protection_detail(
        true,
        run.dns_configured,
        run.proxy_started,
        if run.packet_ready {
            Some(run.backend.spec_name())
        } else {
            None
        },
    )
}

/// How many steps at most remain after a stage.
pub open spec fn steps_left(stage: ProtectionStage) -> nat {
    match stage {
        ProtectionStage::FilterStart => 7,
        ProtectionStage::DnsConfigure => 6,
        ProtectionStage::BlockWrite => 5,
        ProtectionStage::ProxyStart => 5,
        ProtectionStage::BackendCheck => 4,
        ProtectionStage::FallbackWrite => 3,
        ProtectionStage::BlocklistApply => 2,
        ProtectionStage::FilterStop => 3,
        ProtectionStage::BlockRemoval => 2,
        ProtectionStage::DnsRestore => 1,
        ProtectionStage::Finished => 0,
    }
}

pub open spec fn finished_message() -> Seq<char> {
    "Switching protection has already finished."@
}

/// The same run at another stage.
pub open spec fn at_stage(run: ProtectionRun, stage: ProtectionStage) -> ProtectionRun {
    ProtectionRun {
        stage,
        backend: run.backend,
        packet_ready: run.packet_ready,
        dns_configured: run.dns_configured,
        proxy_started: run.proxy_started,
    }
}

/// Loading the blocklist next, handing it to the packet filter if that started.
pub open spec fn is_apply_step(run: ProtectionRun, res: (ProtectionRun, ProtectionAction)) -> bool {
    res.0 == at_stage(run, ProtectionStage::BlocklistApply) && (res.1 matches ProtectionAction::ApplyBlocklist(
        f,
    ) && f == run.packet_ready)
}

/// Ending the run with `e`: aborting (undoing the proxy and the resolver
/// settings) or failing.
pub open spec fn is_error_step(
    run: ProtectionRun,
    res: (ProtectionRun, ProtectionAction),
    e: Seq<char>,
    abort: bool,
) -> bool {
    res.0 == at_stage(run, ProtectionStage::Finished) && if abort {
        res.1 matches ProtectionAction::Abort(m) && m@ == e
    } else {
        res.1 matches ProtectionAction::Fail(m) && m@ == e
    }
}

pub open spec fn outcome_error(o: Result<(), String>) -> Seq<char> {
    match o {
        Ok(()) => Seq::empty(),
        Err(e) => e@,
    }
}

fn error_step(run: ProtectionRun, e: String, abort: bool) -> (res: (ProtectionRun, ProtectionAction))
    ensures
        is_error_step(run, res, e@, abort),
{
    let next = ProtectionRun { stage: ProtectionStage::Finished, ..run };
    if abort {
        (next, ProtectionAction::Abort(e))
    } else {
        (next, ProtectionAction::Fail(e))
    }
}

fn apply_step(run: ProtectionRun) -> (res: (ProtectionRun, ProtectionAction))
    ensures
        is_apply_step(run, res),
{
    (ProtectionRun { stage: ProtectionStage::BlocklistApply, ..run }, ProtectionAction::ApplyBlocklist(run.packet_ready))
}

/// The next step of switching protection, given the report on the last one.
/// Turning on: start the packet filter; where the hosts file can be
/// written, point the resolver at the proxy and start the proxy (restoring
/// the resolver if either fails), else write the hosts block (a failure
/// aborts); write the block as the fallback when no other backend runs;
/// then load the blocklist and finish. Turning off: stop the packet filter,
/// remove the block, stop the proxy and restore the resolver, each failure
/// failing the switch; then finish.
pub fn protection_step(run: ProtectionRun, report: StepReport) -> (res: (
    ProtectionRun,
    ProtectionAction,
))
    ensures
        res.0.backend == run.backend,
        run.stage != ProtectionStage::Finished ==> steps_left(res.0.stage) < steps_left(run.stage),
        run.stage == ProtectionStage::FilterStart ==> {
            let next = ProtectionRun {
                stage: run.stage,
                backend: run.backend,
                packet_ready: report.outcome is Ok,
                dns_configured: run.dns_configured,
                proxy_started: run.proxy_started,
            };
            if report.can_write_hosts {
                res.0 == at_stage(next, ProtectionStage::DnsConfigure) && res.1 is ConfigureDns
            } else {
                res.0 == at_stage(next, ProtectionStage::BlockWrite) && res.1 is WriteBlock
            }
        },
        run.stage == ProtectionStage::DnsConfigure ==> (if report.outcome is Ok {
            res.0 == ProtectionRun {
                stage: ProtectionStage::ProxyStart,
                backend: run.backend,
                packet_ready: run.packet_ready,
                dns_configured: true,
                proxy_started: run.proxy_started,
            } && res.1 is StartProxy
        } else {
            res.0 == at_stage(run, ProtectionStage::BlockWrite) && res.1 is RestoreDnsThenWriteBlock
        }),
        run.stage == ProtectionStage::ProxyStart ==> (if report.outcome is Ok {
            res.0 == ProtectionRun {
                stage: ProtectionStage::BackendCheck,
                backend: run.backend,
                packet_ready: run.packet_ready,
                dns_configured: run.dns_configured,
                proxy_started: true,
            } && res.1 is RemoveBlockThenReport
        } else {
            res.0 == at_stage(run, ProtectionStage::BackendCheck) && res.1 is RestoreDnsThenReport
        }),
        run.stage == ProtectionStage::BlockWrite ==> (if report.outcome is Ok {
            res.0 == at_stage(run, ProtectionStage::BackendCheck) && res.1 is Report
        } else {
            is_error_step(run, res, outcome_error(report.outcome), true)
        }),
        run.stage == ProtectionStage::BackendCheck ==> match spec_hosts_fallback(
            report.proxy_running,
            report.can_write_hosts,
            run.packet_ready,
        ) {
            None => is_error_step(run, res, no_backend_message(), false),
            Some(true) => res.0 == at_stage(run, ProtectionStage::FallbackWrite) && res.1 is WriteBlock,
            Some(false) => is_apply_step(run, res),
        },
        run.stage == ProtectionStage::FallbackWrite ==> (if report.outcome is Ok {
            is_apply_step(run, res)
        } else {
            is_error_step(run, res, outcome_error(report.outcome), true)
        }),
        run.stage == ProtectionStage::BlocklistApply ==> (if report.outcome is Ok {
            res.0 == at_stage(run, ProtectionStage::Finished) && (res.1 matches ProtectionAction::Finish(
                d,
            ) && d@ == enabled_detail(run))
        } else {
            is_error_step(run, res, outcome_error(report.outcome), false)
        }),
        run.stage == ProtectionStage::FilterStop ==> (if report.outcome is Ok {
            res.0 == at_stage(run, ProtectionStage::BlockRemoval) && res.1 is RemoveBlock
        } else {
            is_error_step(run, res, outcome_error(report.outcome), false)
        }),
        run.stage == ProtectionStage::BlockRemoval ==> (if report.outcome is Ok {
            res.0 == at_stage(run, ProtectionStage::DnsRestore) && res.1 is StopProxyThenRestoreDns
        } else {
            is_error_step(run, res, outcome_error(report.outcome), false)
        }),
        run.stage == ProtectionStage::DnsRestore ==> (if report.outcome is Ok {
            res.0 == at_stage(run, ProtectionStage::Finished) && (res.1 matches ProtectionAction::Finish(
                d,
            ) && d@ == spec_protection_detail(false, false, false, None))
        } else {
            is_error_step(run, res, outcome_error(report.outcome), false)
        }),
        run.stage == ProtectionStage::Finished ==> is_error_step(run, res, finished_message(), false),
{
    let StepReport { outcome, proxy_running, can_write_hosts } = report;
    match run.stage {
        ProtectionStage::FilterStart => {
            let next = ProtectionRun { packet_ready: outcome.is_ok(), ..run };
            if can_write_hosts {
                (ProtectionRun { stage: ProtectionStage::DnsConfigure, ..next }, ProtectionAction::ConfigureDns)
            } else {
                (ProtectionRun { stage: ProtectionStage::BlockWrite, ..next }, ProtectionAction::WriteBlock)
            }
        },
        ProtectionStage::DnsConfigure => match outcome {
            Ok(()) => (
                ProtectionRun { stage: ProtectionStage::ProxyStart, dns_configured: true, ..run },
                ProtectionAction::StartProxy,
            ),
            Err(_) => (
                ProtectionRun { stage: ProtectionStage::BlockWrite, ..run },
                ProtectionAction::RestoreDnsThenWriteBlock,
            ),
        },
        ProtectionStage::ProxyStart => match outcome {
            Ok(()) => (
                ProtectionRun { stage: ProtectionStage::BackendCheck, proxy_started: true, ..run },
                ProtectionAction::RemoveBlockThenReport,
            ),
            Err(_) => (
                ProtectionRun { stage: ProtectionStage::BackendCheck, ..run },
                ProtectionAction::RestoreDnsThenReport,
            ),
        },
        ProtectionStage::BlockWrite => match outcome {
            Ok(()) => (ProtectionRun { stage: ProtectionStage::BackendCheck, ..run }, ProtectionAction::Report),
            Err(e) => error_step(run, e, true),
        },
        ProtectionStage::BackendCheck => match hosts_fallback(proxy_running, can_write_hosts, run.packet_ready) {
            Err(e) => error_step(run, e, false),
            Ok(true) => (ProtectionRun { stage: ProtectionStage::FallbackWrite, ..run }, ProtectionAction::WriteBlock),
            Ok(false) => apply_step(run),
        },
        ProtectionStage::FallbackWrite => match outcome {
            Ok(()) => apply_step(run),
            Err(e) => error_step(run, e, true),
        },
        ProtectionStage::BlocklistApply => match outcome {
            Ok(()) => {
                let name = run.backend.name();
                let detail = protection_detail(
                    true,
                    run.dns_configured,
                    run.proxy_started,
                    if run.packet_ready {
                        Some(name)
                    } else {
                        None
                    },
                );
                (ProtectionRun { stage: ProtectionStage::Finished, ..run }, ProtectionAction::Finish(detail))
            },
            Err(e) => error_step(run, e, false),
        },
        ProtectionStage::FilterStop => match outcome {
            Ok(()) => (ProtectionRun { stage: ProtectionStage::BlockRemoval, ..run }, ProtectionAction::RemoveBlock),
            Err(e) => error_step(run, e, false),
        },
        ProtectionStage::BlockRemoval => match outcome {
            Ok(()) => (
                ProtectionRun { stage: ProtectionStage::DnsRestore, ..run },
                ProtectionAction::StopProxyThenRestoreDns,
            ),
            Err(e) => error_step(run, e, false),
        },
        ProtectionStage::DnsRestore => match outcome {
            Ok(()) => (
                ProtectionRun { stage: ProtectionStage::Finished, ..run },
                ProtectionAction::Finish(protection_detail(false, false, false, None)),
            ),
            Err(e) => error_step(run, e, false),
        },
        ProtectionStage::Finished => error_step(run, text("Switching protection has already finished."), false),
    }
}

} // verus!
