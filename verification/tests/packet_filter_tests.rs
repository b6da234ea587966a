use ip_firewall::packet_filter::{
    command_readiness, detect_backend, extract_addresses, firewall_rule_name, iptables_args,
    iptables_program, missing_program_message, pf_block_rules, resolve_domains,
    rule_command_outcome, windows_apply_blocklist, windows_clear_blocklist, ApplyAction,
    PacketFilterBackend, PacketFilterHandle,
};

#[test]
fn detects_supported_native_backends_for_the_current_platform() {
    for os in ["windows", "linux", "macos", "solaris"] {
        let backend = detect_backend(os);
        let valid = matches!(
            backend,
            PacketFilterBackend::Wfp
                | PacketFilterBackend::LinuxNftables
                | PacketFilterBackend::MacPf
                | PacketFilterBackend::Unsupported
        );
        assert!(valid);
    }
    assert_eq!(detect_backend("linux"), PacketFilterBackend::LinuxNftables);
    assert_eq!(detect_backend("solaris"), PacketFilterBackend::Unsupported);
}

#[test]
fn extract_addresses_parses_ipv4_and_ipv6_from_dns_output() {
    let addresses = extract_addresses("10.0.0.9\n2001:4860:4860::8888\nexample.com\n");
    assert!(addresses.contains(&"10.0.0.9".to_string()));
    assert!(addresses.contains(&"2001:4860:4860::8888".to_string()));
}

#[test]
fn extract_addresses_keeps_order_and_skips_words() {
    let out = "93.184.216.34   STREAM example.com\n93.184.216.34 DGRAM\r\n::1 RAW 1.2.3\n";
    assert_eq!(extract_addresses(out), vec!["93.184.216.34", "93.184.216.34", "::1"]);
}

#[test]
fn handle_lifecycle() {
    let mut h = PacketFilterHandle::new(PacketFilterBackend::LinuxNftables);
    assert!(!h.is_running());
    assert_eq!(h.required_program(), Some("iptables"));
    assert_eq!(h.start(Err("missing".to_string())), Err("missing".to_string()));
    assert!(!h.is_running());
    assert_eq!(h.start(Ok(())), Ok(()));
    assert!(h.is_running());
    let addrs = vec!["10.0.0.1".to_string()];
    assert!(matches!(h.apply_blocklist(&addrs), Ok(ApplyAction::Install)));
    h.record_applied(addrs.clone());
    match h.apply_blocklist(&vec![]) {
        Ok(ApplyAction::Clear(removed)) => assert_eq!(removed, addrs),
        _ => panic!("expected a clear"),
    }
    h.record_applied(addrs.clone());
    assert_eq!(h.stop(), addrs);
    assert!(!h.is_running());
    assert!(h.stop().is_empty());
}

#[test]
fn unsupported_platform_refuses() {
    let mut h = PacketFilterHandle::new(PacketFilterBackend::Unsupported);
    assert_eq!(h.required_program(), None);
    let msg = "Packet filtering is not available on this platform. The DNS proxy remains the fallback backend.";
    assert_eq!(h.start(Ok(())), Err(msg.to_string()));
    assert!(matches!(h.apply_blocklist(&vec!["1.1.1.1".to_string()]), Err(e) if e == msg));
    let status = h.status();
    assert_eq!(status.backend, "unsupported");
    assert_eq!(
        status.note,
        "This build does not expose a native packet-filtering backend on this platform."
    );
}

#[test]
fn status_notes_follow_the_state() {
    let mut h = PacketFilterHandle::new(PacketFilterBackend::MacPf);
    assert_eq!(h.status().note, "macOS pf is the native packet-filtering backend for this platform.");
    h.start(Ok(())).unwrap();
    let s = h.status();
    assert!(s.enabled);
    assert_eq!(s.backend, "macOS pf");
    assert_eq!(s.note, "macOS pf is active and ready for packet-level rule enforcement.");
    assert_eq!(PacketFilterBackend::Wfp.name(), "Windows Filtering Platform");
}

#[test]
fn resolve_domains_merges_in_order_and_stops_at_errors() {
    let merged = resolve_domains(&vec![
        Ok(vec!["1.1.1.1".to_string(), "2.2.2.2".to_string()]),
        Ok(vec!["2.2.2.2".to_string(), "3.3.3.3".to_string()]),
    ]);
    assert_eq!(merged, Ok(vec!["1.1.1.1".to_string(), "2.2.2.2".to_string(), "3.3.3.3".to_string()]));
    let failed = resolve_domains(&vec![Ok(vec!["1.1.1.1".to_string()]), Err("boom".to_string()), Err("later".to_string())]);
    assert_eq!(failed, Err("boom".to_string()));
}

#[test]
fn rule_names_and_scripts() {
    assert_eq!(firewall_rule_name("2001:db8::1"), "'2001-db8--1'");
    assert_eq!(firewall_rule_name(""), "'blocked-address'");
    assert_eq!(
        windows_apply_blocklist(&vec!["10.0.0.1".to_string()]),
        vec!["New-NetFirewallRule -DisplayName '10-0-0-1' -Direction Outbound -Action Block -RemoteAddress 10.0.0.1 -Protocol Any | Out-Null".to_string()]
    );
    assert_eq!(
        windows_clear_blocklist(&vec!["10.0.0.1".to_string()]),
        vec!["Remove-NetFirewallRule -DisplayName '10-0-0-1' -ErrorAction SilentlyContinue".to_string()]
    );
    assert!(windows_apply_blocklist(&vec![]).is_empty());
    assert_eq!(iptables_program("::1"), "ip6tables");
    assert_eq!(iptables_program("10.0.0.1"), "iptables");
    assert_eq!(iptables_args("-C", "10.0.0.1"), vec!["-C", "OUTPUT", "-d", "10.0.0.1", "-j", "DROP"]);
    assert_eq!(
        pf_block_rules(&vec!["1.1.1.1".to_string(), "::1".to_string()]),
        "block out quick from any to { 1.1.1.1 ::1 }\n"
    );
    assert_eq!(
        missing_program_message("ip6tables"),
        "The ip6tables command is required for packet filtering on this Linux system."
    );
}

#[test]
fn command_outcomes() {
    assert_eq!(command_readiness("pfctl", Ok(true)), Ok(()));
    assert_eq!(
        command_readiness("pfctl", Ok(false)),
        Err("The native packet-filter backend for pfctl is installed but not ready to run.".to_string())
    );
    assert_eq!(
        command_readiness("pfctl", Err("not found".to_string())),
        Err("The native packet filter for pfctl is unavailable on this device: not found".to_string())
    );
    assert_eq!(
        rule_command_outcome("iptables", Ok(false)),
        Err("The iptables command failed while applying packet-filter rules.".to_string())
    );
    assert_eq!(
        rule_command_outcome("iptables", Err("gone".to_string())),
        Err("Unable to run iptables: gone".to_string())
    );
}

#[test]
fn backend_and_running_state_follow_the_call_sequence() {
    let mut h = PacketFilterHandle::new(PacketFilterBackend::MacPf);
    assert!(h.start(Err("pfctl missing".to_string())).is_err());
    assert!(!h.is_running());
    assert!(h.start(Ok(())).is_ok());
    assert!(h.is_running());
    assert!(matches!(
        h.apply_blocklist(&vec!["10.0.0.1".to_string()]),
        Ok(ApplyAction::Install)
    ));
    h.record_applied(vec!["10.0.0.1".to_string()]);
    assert_eq!(h.clear_blocklist(), vec!["10.0.0.1".to_string()]);
    assert!(h.is_running());
    assert!(h.start(Err("ignored".to_string())).is_err());
    assert!(h.is_running());
    h.stop();
    assert!(!h.is_running());
    assert!(matches!(h.apply_blocklist(&Vec::new()), Ok(ApplyAction::Clear(_))));
    assert!(!h.is_running());
    assert_eq!(h.backend(), PacketFilterBackend::MacPf);

    let mut none = PacketFilterHandle::new(PacketFilterBackend::Unsupported);
    assert!(none.start(Ok(())).is_err());
    assert!(!none.is_running());
    assert_eq!(none.backend(), PacketFilterBackend::Unsupported);
}
