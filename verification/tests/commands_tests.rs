use ip_firewall::commands::{
    begin_protection, enabled_domains, hosts_fallback, import_candidates, insert_outcome,
    protection_action, protection_detail, protection_step, remove_outcome, sinkhole_refresh,
    ProtectionAction, ProtectionRun, ProtectionStage, SinkholeRefresh, StepReport,
};
use ip_firewall::packet_filter::PacketFilterBackend;
use ip_firewall::db::{decimal_string, now_string, timestamp_text};
use ip_firewall::models::BlocklistEntry;

fn entry(domain: &str, enabled: bool) -> BlocklistEntry {
    BlocklistEntry {
        domain: domain.to_owned(),
        category: "advertising".to_owned(),
        source: "import".to_owned(),
        enabled,
        redirect: "0.0.0.0".to_owned(),
        notes: String::new(),
    }
}

#[test]
fn imports_keep_each_valid_domain_once() {
    let got = import_candidates(vec![
        "Ads.Example".to_string(),
        "not valid!".to_string(),
        "https://ads.example/".to_string(),
        "t.example".to_string(),
    ]);
    assert_eq!(got, Ok(vec!["ads.example".to_string(), "t.example".to_string()]));
    assert_eq!(
        import_candidates(vec!["???".to_string(), String::new()]),
        Err("The selected file contained no valid domains.".to_string())
    );
}

#[test]
fn enabled_domains_skips_disabled_entries() {
    let got = enabled_domains(vec![entry("a.example", true), entry("b.example", false), entry("c.example", true)]);
    assert_eq!(got, vec!["a.example", "c.example"]);
}

#[test]
fn outcome_messages() {
    assert_eq!(insert_outcome(1), Ok(()));
    assert_eq!(insert_outcome(0), Err("This domain is already in the blocklist.".to_string()));
    assert_eq!(remove_outcome(2), Ok(()));
    assert_eq!(remove_outcome(0), Err("That domain is not in the blocklist.".to_string()));
}

#[test]
fn refresh_and_fallback_decisions() {
    assert!(matches!(sinkhole_refresh(true, ""), SinkholeRefresh::RemoveBlock));
    assert!(matches!(
        sinkhole_refresh(false, "x\n# IP-FIREWALL:START\n"),
        SinkholeRefresh::RewriteBlock
    ));
    assert!(matches!(sinkhole_refresh(false, "x\n"), SinkholeRefresh::Nothing));
    assert_eq!(
        hosts_fallback(false, false, false),
        Err("No usable enforcement backend is available. Enable administrator privileges or install the native packet-filter backend.".to_string())
    );
    assert_eq!(hosts_fallback(false, true, false), Ok(true));
    assert_eq!(hosts_fallback(false, true, true), Ok(false));
    assert_eq!(hosts_fallback(true, false, false), Ok(false));
}

#[test]
fn protection_details() {
    assert_eq!(protection_detail(false, true, true, Some("x")), "Advertisement filter disabled");
    assert_eq!(
        protection_detail(true, true, true, None),
        "Advertisement filter enabled; DNS proxy active"
    );
    assert_eq!(
        protection_detail(true, true, false, Some("Linux nftables")),
        "Hosts-file protection enabled; local DNS proxy unavailable; packet filter backend Linux nftables active"
    );
    assert_eq!(
        protection_detail(true, false, false, None),
        "Hosts-file protection enabled; system DNS unavailable"
    );
    assert_eq!(protection_action(true), "enabled");
    assert_eq!(protection_action(false), "disabled");
}

#[test]
fn timestamps_are_decimal_seconds() {
    assert_eq!(decimal_string(0), "0");
    assert_eq!(decimal_string(1_700_000_000), "1700000000");
    assert_eq!(decimal_string(u64::MAX), u64::MAX.to_string());
    assert_eq!(timestamp_text(None), "0");
    assert_eq!(timestamp_text(Some(42)), "42");
    let now = now_string();
    assert!(!now.is_empty());
    assert!(now.chars().all(|c| c.is_ascii_digit()));
}

fn ok(proxy_running: bool, can_write_hosts: bool) -> StepReport {
    StepReport { outcome: Ok(()), proxy_running, can_write_hosts }
}

fn failed(error: &str, proxy_running: bool, can_write_hosts: bool) -> StepReport {
    StepReport { outcome: Err(error.to_string()), proxy_running, can_write_hosts }
}

fn name(action: &ProtectionAction) -> String {
    match action {
        ProtectionAction::StartPacketFilter => "start-filter".into(),
        ProtectionAction::ConfigureDns => "configure-dns".into(),
        ProtectionAction::StartProxy => "start-proxy".into(),
        ProtectionAction::WriteBlock => "write-block".into(),
        ProtectionAction::RestoreDnsThenWriteBlock => "restore-then-write".into(),
        ProtectionAction::RestoreDnsThenReport => "restore-then-report".into(),
        ProtectionAction::RemoveBlockThenReport => "remove-then-report".into(),
        ProtectionAction::Report => "report".into(),
        ProtectionAction::ApplyBlocklist(to_filter) => format!("apply:{to_filter}"),
        ProtectionAction::StopPacketFilter => "stop-filter".into(),
        ProtectionAction::RemoveBlock => "remove-block".into(),
        ProtectionAction::StopProxyThenRestoreDns => "stop-proxy-restore".into(),
        ProtectionAction::Abort(e) => format!("abort:{e}"),
        ProtectionAction::Fail(e) => format!("fail:{e}"),
        ProtectionAction::Finish(d) => format!("finish:{d}"),
    }
}

/// Runs the steps with the given reports and lists the actions taken.
fn drive(enabled: bool, backend: PacketFilterBackend, reports: Vec<StepReport>) -> (Vec<String>, ProtectionRun) {
    let (mut run, mut action) = begin_protection(enabled, backend);
    let mut names = vec![name(&action)];
    for report in reports {
        let (next, next_action) = protection_step(run, report);
        run = next;
        action = next_action;
        names.push(name(&action));
    }
    (names, run)
}

#[test]
fn enabling_with_the_proxy_and_the_packet_filter() {
    let (names, run) = drive(
        true,
        PacketFilterBackend::LinuxNftables,
        vec![ok(false, true), ok(false, true), ok(true, true), ok(true, true), ok(true, true)],
    );
    assert_eq!(
        names,
        vec![
            "start-filter",
            "configure-dns",
            "start-proxy",
            "remove-then-report",
            "apply:true",
            "finish:Advertisement filter enabled; DNS proxy active; packet filter backend Linux nftables active",
        ]
    );
    assert!(run.stage == ProtectionStage::Finished);
    assert!(run.packet_ready && run.dns_configured && run.proxy_started);
}

#[test]
fn enabling_falls_back_to_the_hosts_file() {
    let (names, _) = drive(
        true,
        PacketFilterBackend::Unsupported,
        vec![
            failed("no filter", false, true),
            failed("no dns", false, true),
            ok(false, true),
            ok(false, true),
            ok(false, true),
        ],
    );
    assert_eq!(
        names,
        vec![
            "start-filter",
            "configure-dns",
            "restore-then-write",
            "report",
            "write-block",
            "apply:false",
        ]
    );
    let (names, _) = drive(
        true,
        PacketFilterBackend::Unsupported,
        vec![failed("no filter", false, true), ok(false, true), failed("busy", false, true), ok(false, true), ok(false, true), ok(false, true)],
    );
    assert_eq!(
        names,
        vec![
            "start-filter",
            "configure-dns",
            "start-proxy",
            "restore-then-report",
            "write-block",
            "apply:false",
            "finish:Hosts-file protection enabled; local DNS proxy unavailable",
        ]
    );
}

#[test]
fn enabling_aborts_or_fails_on_errors() {
    let (names, _) = drive(true, PacketFilterBackend::MacPf, vec![ok(false, false), failed("read-only", false, false)]);
    assert_eq!(names, vec!["start-filter", "write-block", "abort:read-only"]);
    let (names, _) = drive(
        true,
        PacketFilterBackend::Unsupported,
        vec![failed("none", false, true), ok(false, true), failed("busy", false, true), ok(false, false)],
    );
    assert_eq!(
        names.last().unwrap(),
        "fail:No usable enforcement backend is available. Enable administrator privileges or install the native packet-filter backend."
    );
    let (names, run) = drive(true, PacketFilterBackend::Wfp, vec![ok(false, false), ok(false, false), ok(false, false), failed("db", false, false), ok(false, false)]);
    assert_eq!(names[4], "fail:db");
    assert_eq!(names[5], "fail:Switching protection has already finished.");
    assert!(run.stage == ProtectionStage::Finished);
}

#[test]
fn disabling_runs_every_step_in_order() {
    let (names, _) = drive(false, PacketFilterBackend::Wfp, vec![ok(true, true), ok(true, true), ok(false, true)]);
    assert_eq!(
        names,
        vec!["stop-filter", "remove-block", "stop-proxy-restore", "finish:Advertisement filter disabled"]
    );
    let (names, _) = drive(false, PacketFilterBackend::Wfp, vec![ok(true, true), failed("locked", true, true)]);
    assert_eq!(names, vec!["stop-filter", "remove-block", "fail:locked"]);
}
