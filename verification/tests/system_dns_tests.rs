use ip_firewall::system_dns::{
    adapter_dns_state, adapter_states, check_adapter_report, parse_adapter_report, dns_server_lines, family_name, local_servers,
    network_services, networksetup_dns_args, no_services_error, parse_resolvectl_dns, quote_ps,
    reset_servers_script, resolvectl_dns_args, restore_command, restore_outcome, service_is_active,
    set_servers_script, AdapterDnsState, DnsPlatform, RestoreCommand, ServersField,
};

#[test]
fn powershell_quoting_and_scripts() {
    assert_eq!(quote_ps("Wi-Fi 'home'"), "'Wi-Fi ''home'''");
    assert_eq!(family_name(6), "IPv6");
    assert_eq!(family_name(4), "IPv4");
    assert_eq!(
        set_servers_script("Ethernet", 4, &vec!["127.0.0.1".to_string(), "9.9.9.9".to_string()]),
        "Set-DnsClientServerAddress -InterfaceAlias 'Ethernet' -AddressFamily IPv4 -ServerAddresses @('127.0.0.1', '9.9.9.9')"
    );
    assert_eq!(
        reset_servers_script("Wi-Fi", 6),
        "Reset-DnsClientServerAddress -InterfaceAlias 'Wi-Fi' -AddressFamily IPv6"
    );
    assert_eq!(local_servers(4), vec!["127.0.0.1"]);
    assert_eq!(local_servers(6), vec!["::1"]);
}

#[test]
fn resolver_arguments() {
    assert_eq!(
        resolvectl_dns_args("eth0", &vec!["127.0.0.1".to_string(), "::1".to_string()]),
        vec!["dns", "eth0", "127.0.0.1", "::1"]
    );
    assert_eq!(networksetup_dns_args("Wi-Fi", &vec![]), vec!["-setdnsservers", "Wi-Fi", "empty"]);
    assert_eq!(
        networksetup_dns_args("Wi-Fi", &vec!["1.1.1.1".to_string()]),
        vec!["-setdnsservers", "Wi-Fi", "1.1.1.1"]
    );
}

#[test]
fn parses_resolvectl_output() {
    let output = "Global: 1.1.1.1\nLink 2 (eth0):\n    DNS Servers: 192.168.1.1 bogus fe80::1\nLink 3 (wlan0)\nLink 4 ():\n";
    let states = parse_resolvectl_dns(output).unwrap();
    assert_eq!(states.len(), 2);
    assert_eq!(states[0].alias, "eth0");
    assert_eq!(states[0].family, 0);
    assert_eq!(states[0].servers, vec!["192.168.1.1", "fe80::1"]);
    assert_eq!(states[1].alias, "wlan0");
    assert!(states[1].servers.is_empty());
    assert_eq!(
        parse_resolvectl_dns("Global: 1.1.1.1\n").unwrap_err(),
        "No resolvectl-managed network interfaces were found."
    );
    let odd = parse_resolvectl_dns("Link 5 (tun0\n").unwrap();
    assert_eq!(odd[0].alias, "tun0");
    let inline = parse_resolvectl_dns("Link 2 (eth0): 192.168.1.1\n").unwrap();
    assert_eq!(inline[0].alias, "eth0): 192.168.1.1");
}

#[test]
fn parses_macos_listings() {
    let listing = "An asterisk (*) denotes that a network service is disabled.\nWi-Fi\n*Thunderbolt Bridge\n\n  USB LAN  \n";
    assert_eq!(network_services(listing), vec!["Wi-Fi", "Thunderbolt Bridge", "USB LAN"]);
    assert!(service_is_active("IP address: 10.0.0.2\nSubnet mask: 255.0.0.0"));
    assert!(!service_is_active("IP address: none"));
    assert!(!service_is_active("DHCP Configuration"));
    assert_eq!(
        dns_server_lines("1.1.1.1\n There aren't any DNS Servers set on Wi-Fi.\n ::1 \n"),
        vec!["1.1.1.1", "::1"]
    );
    assert_eq!(
        no_services_error(&vec![]),
        Err("No active macOS network services were found.".to_string())
    );
}

#[test]
fn windows_adapter_records() {
    let st = adapter_dns_state(
        Some("Ethernet".to_string()),
        Some(65_540),
        ServersField::List(vec![Some("1.1.1.1".to_string()), None, Some("::1".to_string())]),
    )
    .unwrap();
    assert_eq!(st.alias, "Ethernet");
    assert_eq!(st.family, 4);
    assert_eq!(st.servers, vec!["1.1.1.1", "::1"]);
    let single = adapter_dns_state(Some("Wi-Fi".to_string()), Some(6), ServersField::Text("8.8.8.8".to_string())).unwrap();
    assert_eq!(single.servers, vec!["8.8.8.8"]);
    let empty = adapter_dns_state(Some("Wi-Fi".to_string()), Some(6), ServersField::Text(String::new())).unwrap();
    assert!(empty.servers.is_empty());
    assert_eq!(
        adapter_dns_state(None, Some(4), ServersField::Other).unwrap_err(),
        "Windows DNS settings did not include an adapter alias."
    );
    assert_eq!(
        adapter_dns_state(Some("x".to_string()), None, ServersField::Other).unwrap_err(),
        "Windows DNS settings did not include an address family."
    );
    assert_eq!(
        check_adapter_report("  \n"),
        Err("No active Windows network adapters were found.".to_string())
    );
    assert_eq!(check_adapter_report("[]"), Ok(()));
}

#[test]
fn windows_report_is_an_array_of_records_or_one_record() {
    let many = parse_adapter_report(
        r#"[{"alias":"Ethernet","family":4,"servers":["1.1.1.1",5,"::1"]},{"alias":"Wi-Fi","family":6,"servers":"8.8.8.8"}]"#,
    )
    .unwrap();
    assert_eq!(many.len(), 2);
    assert_eq!(many[0].alias.as_deref(), Some("Ethernet"));
    assert_eq!(many[0].family, Some(4));
    assert!(matches!(&many[0].servers, ServersField::List(items) if items.len() == 3 && items[1].is_none()));
    assert!(matches!(&many[1].servers, ServersField::Text(t) if t == "8.8.8.8"));
    let states = adapter_states(many).unwrap();
    assert_eq!(states.len(), 2);
    assert_eq!(states[0].servers, vec!["1.1.1.1", "::1"]);
    assert_eq!(states[1].family, 6);
    assert_eq!(states[1].servers, vec!["8.8.8.8"]);

    let one = parse_adapter_report(r#"{"alias":"Wi-Fi","family":70000,"servers":null}"#).unwrap();
    assert_eq!(one.len(), 1);
    assert!(matches!(one[0].servers, ServersField::Other));
    let states = adapter_states(one).unwrap();
    assert_eq!(states[0].alias, "Wi-Fi");
    assert_eq!(states[0].family, 4464);
    assert!(states[0].servers.is_empty());
}

#[test]
fn windows_report_errors() {
    match parse_adapter_report("{not json") {
        Err(e) => assert!(e.starts_with("Unable to read Windows DNS settings: ")),
        Ok(_) => panic!("malformed JSON must be refused"),
    }
    let records = parse_adapter_report(r#"[{"alias":"A","family":4},{"family":6},{"alias":"C"}]"#).unwrap();
    assert_eq!(
        adapter_states(records).unwrap_err(),
        "Windows DNS settings did not include an adapter alias."
    );
    let records = parse_adapter_report(r#"[{"alias":"A","family":-4}]"#).unwrap();
    assert_eq!(records[0].family, None);
    assert_eq!(
        adapter_states(records).unwrap_err(),
        "Windows DNS settings did not include an address family."
    );
    assert!(adapter_states(Vec::new()).unwrap().is_empty());
}

fn saved(alias: &str, family: u16, servers: &[&str]) -> AdapterDnsState {
    AdapterDnsState {
        alias: alias.to_string(),
        family,
        servers: servers.iter().map(|s| s.to_string()).collect(),
    }
}

fn tool(command: RestoreCommand) -> (String, Vec<String>) {
    match command {
        RestoreCommand::PowerShell(script) => ("powershell".to_string(), vec![script]),
        RestoreCommand::Tool(program, args) => (program, args),
    }
}

#[test]
fn restore_commands_per_platform() {
    let none = saved("Wi-Fi", 4, &[]);
    let some = saved("eth0", 6, &["9.9.9.9", "::1"]);
    assert_eq!(
        tool(restore_command(DnsPlatform::Windows, &none)),
        ("powershell".to_string(), vec!["Reset-DnsClientServerAddress -InterfaceAlias 'Wi-Fi' -AddressFamily IPv4".to_string()])
    );
    let (program, script) = tool(restore_command(DnsPlatform::Windows, &some));
    assert_eq!(program, "powershell");
    assert!(script[0].starts_with("Set-DnsClientServerAddress -InterfaceAlias 'eth0' -AddressFamily IPv6"));
    assert_eq!(
        tool(restore_command(DnsPlatform::Linux, &none)),
        ("resolvectl".to_string(), vec!["revert".to_string(), "Wi-Fi".to_string()])
    );
    assert_eq!(
        tool(restore_command(DnsPlatform::Linux, &some)),
        ("resolvectl".to_string(), vec!["dns".to_string(), "eth0".to_string(), "9.9.9.9".to_string(), "::1".to_string()])
    );
    assert_eq!(
        tool(restore_command(DnsPlatform::Mac, &none)),
        ("networksetup".to_string(), vec!["-setdnsservers".to_string(), "Wi-Fi".to_string(), "empty".to_string()])
    );
    assert_eq!(
        tool(restore_command(DnsPlatform::Mac, &some)),
        ("networksetup".to_string(), vec!["-setdnsservers".to_string(), "eth0".to_string(), "9.9.9.9".to_string(), "::1".to_string()])
    );
}

#[test]
fn restore_reports_the_first_failure() {
    assert_eq!(restore_outcome(&vec![Ok(()), Ok(())]), Ok(()));
    assert_eq!(restore_outcome(&vec![]), Ok(()));
    assert_eq!(
        restore_outcome(&vec![Ok(()), Err("first".to_string()), Err("second".to_string())]),
        Err("first".to_string())
    );
}

#[test]
fn dns_server_lines_keep_the_standard_form_of_each_address() {
    assert_eq!(
        dns_server_lines("2001:0db8:0000::0001\n 010.0.0.1 \n192.168.000.1\n"),
        dns_server_lines("2001:db8::1\n")
    );
    assert_eq!(dns_server_lines("2001:0db8::1\n"), vec!["2001:db8::1"]);
}
