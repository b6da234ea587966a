use ip_firewall::models::{BlocklistEntry, BLOCK_END, BLOCK_START};
use ip_firewall::sinkhole::{
    blocker_state, can_write_hosts_file, hosts_path, managed_block_for, normalize_domain,
    operating_system_name, sinkhole_backend, without_managed_block, write_blocker,
    SinkholeBackend,
};

fn entry(domain: &str, enabled: bool) -> BlocklistEntry {
    BlocklistEntry {
        domain: domain.to_owned(),
        category: "advertising".to_owned(),
        source: "test".to_owned(),
        enabled,
        redirect: "0.0.0.0".to_owned(),
        notes: String::new(),
    }
}

#[test]
fn managed_block_has_stable_markers() {
    let block = managed_block_for(&[BlocklistEntry {
        domain: "doubleclick.net".to_owned(),
        category: "advertising".to_owned(),
        source: "test".to_owned(),
        enabled: true,
        redirect: "0.0.0.0".to_owned(),
        notes: String::new(),
    }]);
    assert!(block.starts_with(BLOCK_START));
    assert!(block.ends_with(BLOCK_END));
    assert!(block.contains("0.0.0.0 doubleclick.net"));
}

#[test]
fn removing_managed_block_preserves_user_hosts() {
    let block = managed_block_for(&[BlocklistEntry {
        domain: "doubleclick.net".to_owned(),
        category: "advertising".to_owned(),
        source: "test".to_owned(),
        enabled: true,
        redirect: "0.0.0.0".to_owned(),
        notes: String::new(),
    }]);
    let hosts = format!("127.0.0.1 localhost\n\n{block}\n");
    assert_eq!(without_managed_block(&hosts), "127.0.0.1 localhost");
}

#[test]
fn removing_missing_block_is_idempotent() {
    assert_eq!(
        without_managed_block("127.0.0.1 localhost\n"),
        "127.0.0.1 localhost"
    );
}

#[test]
fn sinkhole_backend_is_platform_independent_in_logic() {
    for os in ["windows", "linux", "macos", "freebsd"] {
        let backend = sinkhole_backend(os, None);
        let supported = matches!(
            backend,
            SinkholeBackend::HostsFile { .. } | SinkholeBackend::Unsupported
        );
        assert!(supported);
        assert!(!backend.name().is_empty());
    }
}

#[test]
fn managed_block_lists_enabled_entries_and_their_www_names() {
    let block = managed_block_for(&[entry("ads.example", true), entry("off.example", false)]);
    assert_eq!(
        block,
        "# IP-FIREWALL:START\n0.0.0.0 ads.example\n0.0.0.0 www.ads.example\n# IP-FIREWALL:END"
    );
    assert_eq!(managed_block_for(&[]), "# IP-FIREWALL:START\n# IP-FIREWALL:END");
}

#[test]
fn removing_block_keeps_the_surrounding_lines_apart() {
    let hosts = "a\n# IP-FIREWALL:START\n0.0.0.0 x\n# IP-FIREWALL:END\r\n\nb\n";
    assert_eq!(without_managed_block(hosts), "a\nb\n");
    let unterminated = "a  \n# IP-FIREWALL:START\n0.0.0.0 x\n";
    assert_eq!(without_managed_block(unterminated), "a");
}

#[test]
fn write_blocker_enables_and_disables_the_block() {
    let entries = [entry("ads.example", true)];
    let enabled = write_blocker(true, "127.0.0.1 localhost\n", true, &entries).unwrap();
    assert_eq!(
        enabled,
        "127.0.0.1 localhost\n\n# IP-FIREWALL:START\n0.0.0.0 ads.example\n0.0.0.0 www.ads.example\n# IP-FIREWALL:END\n"
    );
    let disabled = write_blocker(true, &enabled, false, &entries).unwrap();
    assert_eq!(disabled, "127.0.0.1 localhost\n");
    let again = write_blocker(true, &enabled, true, &entries).unwrap();
    assert_eq!(again, enabled);
    let from_empty = write_blocker(true, "", true, &[]).unwrap();
    assert_eq!(from_empty, "# IP-FIREWALL:START\n# IP-FIREWALL:END\n");
}

#[test]
fn write_blocker_refuses_a_read_only_hosts_file() {
    assert_eq!(
        write_blocker(false, "", true, &[]),
        Err("This environment cannot modify the system hosts file. Run with administrator privileges or use a system that allows hosts-file edits.".to_string())
    );
}

#[test]
fn normalize_domain_strips_scheme_path_and_www() {
    assert_eq!(
        normalize_domain("  HTTPS://www.Ads.Example.com/path/x  ".to_string()),
        Ok("ads.example.com".to_string())
    );
    assert_eq!(
        normalize_domain("https://https://tracker.example/".to_string()),
        Ok("tracker.example".to_string())
    );
    assert_eq!(normalize_domain("\\cdn-1.example\n".to_string()), Ok("cdn-1.example".to_string()));
}

#[test]
fn normalize_domain_reports_each_error() {
    assert_eq!(
        normalize_domain(" / ".to_string()),
        Err("Domain cannot be empty.".to_string())
    );
    assert_eq!(
        normalize_domain(".example.com".to_string()),
        Err("Enter a valid hostname such as example.com.".to_string())
    );
    assert_eq!(
        normalize_domain("example.".to_string()),
        Err("Enter a valid hostname such as example.com.".to_string())
    );
    assert_eq!(
        normalize_domain("https:///x".to_string()),
        Err("Enter a valid hostname such as example.com.".to_string())
    );
    assert_eq!(
        normalize_domain("ex_ample.com".to_string()),
        Err("Use only letters, numbers, dots, and dashes in the domain name.".to_string())
    );
}

#[test]
fn normalize_domain_is_idempotent_on_its_results() {
    for input in ["WWW.Example.COM/", "http://a-b.c", "sub.domain.example"] {
        let once = normalize_domain(input.to_string()).unwrap();
        assert_eq!(normalize_domain(once.clone()), Ok(once));
    }
    let layered = normalize_domain("https:// www.x.example".to_string()).unwrap();
    assert_eq!(layered, "www.x.example");
    assert_eq!(normalize_domain(layered), Ok("x.example".to_string()));
}

#[test]
fn backend_paths_and_names() {
    let windows = sinkhole_backend("windows", Some(true));
    assert_eq!(windows.path().unwrap(), r"C:\Windows\System32\drivers\etc\hosts");
    assert!(!windows.writable());
    assert!(!can_write_hosts_file(&windows));
    let linux = sinkhole_backend("linux", None);
    assert!(linux.writable());
    assert_eq!(hosts_path(&linux), "/etc/hosts");
    assert_eq!(linux.name(), "Hosts file sinkhole");
    let other = sinkhole_backend("plan9", Some(false));
    assert!(other.path().is_none());
    assert_eq!(hosts_path(&other), "/etc/hosts");
    assert_eq!(other.name(), "Unsupported sinkhole backend");
    assert_eq!(operating_system_name("macos"), "macOS");
    assert_eq!(operating_system_name("haiku"), "Cross-platform");
}

#[test]
fn blocker_state_reports_protection() {
    let backend = sinkhole_backend("linux", Some(false));
    let hosts = "127.0.0.1 localhost\n# IP-FIREWALL:START\n# IP-FIREWALL:END\n";
    let state = blocker_state(
        hosts,
        7,
        3,
        "unsupported".to_string(),
        false,
        "note".to_string(),
        &backend,
        "linux",
    );
    assert!(state.enabled);
    assert_eq!(state.domain_count, 3);
    assert_eq!(state.observed_blocked_requests, 7);
    assert_eq!(state.hosts_path, "/etc/hosts");
    assert_eq!(state.operating_system, "Linux");
    assert_eq!(state.sinkhole_backend, "Hosts file sinkhole");
    assert!(state.host_writeable);
    assert!(state.protection_supported);
    let off = blocker_state(
        "",
        0,
        0,
        "unsupported".to_string(),
        false,
        String::new(),
        &SinkholeBackend::Unsupported,
        "plan9",
    );
    assert!(!off.enabled);
    assert!(!off.protection_supported);
}

#[test]
fn user_lines_after_the_block_are_retained() {
    let hosts = "127.0.0.1 localhost\n# IP-FIREWALL:START\n0.0.0.0 a.com\n# IP-FIREWALL:END\n::1 ip6-localhost\n";
    let cleaned = without_managed_block(hosts);
    assert_eq!(cleaned, "127.0.0.1 localhost\n::1 ip6-localhost\n");
    assert_eq!(
        cleaned.lines().collect::<Vec<_>>(),
        vec!["127.0.0.1 localhost", "::1 ip6-localhost"]
    );
    let only_after = "# IP-FIREWALL:START\n# IP-FIREWALL:END\n::1 ip6-localhost\n";
    assert_eq!(without_managed_block(only_after), "::1 ip6-localhost\n");
}

#[test]
fn normalize_domain_ignores_ascii_case() {
    for value in ["  HTTPS://WWW.Ads.Example.COM/Path  ", "Bad_Domain.COM", "  ", "HTTP://.Example."] {
        assert_eq!(
            normalize_domain(value.to_string()),
            normalize_domain(value.to_ascii_lowercase())
        );
    }
}
