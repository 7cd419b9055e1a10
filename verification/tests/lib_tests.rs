use burrow::activity::sanitize;
use burrow::dns::{doh_catalog, generate_doh_mobileconfig};
use burrow::mole::{validate_mole_app_name, validate_mole_preview_paths};
use burrow::roots::dedup_scan_roots;
use burrow::system::validate_admin_script;
use burrow::updates::{signing_field, validate_archive_listing};

#[test]
fn sanitizes_control_characters_and_limits_length() {
    let input = format!("hello\nworld{}", "x".repeat(600));
    let output = sanitize(&input, 20);
    assert!(!output.contains('\n'));
    assert_eq!(output.chars().count(), 20);
}

#[test]
fn scan_roots_are_deduplicated_and_descendants_removed() {
    let roots = dedup_scan_roots(vec![
        "/Users/test/Downloads/subdir".to_string(),
        "/Users/test/Desktop".to_string(),
        "/Users/test/Downloads".to_string(),
        "/Users/test/Downloads".to_string(),
    ]);
    assert_eq!(roots, vec!["/Users/test/Desktop".to_string(), "/Users/test/Downloads".to_string()]);
}

#[test]
fn accepts_application_names_but_rejects_cli_options_and_controls() {
    assert!(validate_mole_app_name("Ollama").is_ok());
    assert!(validate_mole_app_name("Visual Studio Code").is_ok());
    assert!(validate_mole_app_name("--permanent").is_err());
    assert!(validate_mole_app_name("Signal\n--permanent").is_err());
}

#[test]
fn rejects_another_application_or_an_unrelated_system_path() {
    let temp = tempfile::tempdir().expect("temporary home");
    let home = temp.path().to_string_lossy().to_string();
    let selected = format!("{home}/Applications/Ollama.app");
    let other = format!("{home}/Applications/Other.app");
    let residual = format!("{home}/Library/Application Support/Ollama");

    assert!(validate_mole_preview_paths(&[selected.clone(), residual], &selected, &home).is_ok());
    assert!(validate_mole_preview_paths(&[selected.clone(), other], &selected, &home).is_err());
    assert!(validate_mole_preview_paths(&[selected.clone(), "/etc/hosts".to_string()], &selected, &home).is_err());
}

#[test]
fn contains_every_frontend_doh_option() {
    let catalog = doh_catalog();
    let expected = [
        ("mullvad", "std"),
        ("mullvad", "adblock"),
        ("mullvad", "base"),
        ("mullvad", "extended"),
        ("mullvad", "family"),
        ("mullvad", "all"),
        ("quad9", "sec"),
        ("quad9", "unf"),
        ("quad9", "edns"),
        ("libredns", "std"),
        ("fdn", "std"),
        ("dns4eu", "protective"),
        ("dns4eu", "child"),
        ("dns4eu", "noads"),
        ("dns4eu", "child-noads"),
        ("dns4eu", "unfiltered"),
        ("dnssb", "std"),
        ("adguard", "std"),
        ("adguard", "family"),
        ("adguard", "unf"),
        ("cloudflare", "std"),
        ("cloudflare", "mal"),
        ("cloudflare", "family"),
    ];
    assert_eq!(catalog.len(), expected.len());
    for key in expected {
        assert!(catalog.contains_key(&key), "missing DoH entry: {key:?}");
    }
}

#[test]
fn mobileconfig_escapes_every_xml_value() {
    let xml = generate_doh_mobileconfig(
        "provider<&",
        "option>\"",
        "Display & <Name>",
        "https://example.test/dns-query?a=1&b=2",
        &["1.1.1.1".to_string(), "<invalid>".to_string()],
    );
    assert!(xml.contains("net.burrow.dns.provider&lt;&amp;.option&gt;&quot;"));
    assert!(xml.contains("Display &amp; &lt;Name&gt;"));
    assert!(xml.contains("dns-query?a=1&amp;b=2"));
    assert!(xml.contains("<string>&lt;invalid&gt;</string>"));
    assert!(!xml.contains("<string><invalid></string>"));
}

#[test]
fn uses_current_mullvad_addresses() {
    let catalog = doh_catalog();
    assert_eq!(catalog.get(&("mullvad", "base")).expect("base").servers, &["194.242.2.4", "2a07:e340::4"]);
    assert_eq!(catalog.get(&("mullvad", "all")).expect("all").servers, &["194.242.2.9", "2a07:e340::9"]);
}

#[test]
fn uses_official_fdn_dns4eu_and_dnssb_endpoints() {
    let catalog = doh_catalog();
    assert_eq!(
        catalog.get(&("fdn", "std")).expect("fdn").servers,
        &["80.67.169.12", "80.67.169.40", "2001:910:800::12", "2001:910:800::40"]
    );
    assert_eq!(
        catalog.get(&("dns4eu", "protective")).expect("dns4eu protective").doh_url,
        "https://protective.joindns4.eu/dns-query"
    );
    assert_eq!(
        catalog.get(&("dnssb", "std")).expect("dns.sb").servers,
        &["185.222.222.222", "45.11.45.11", "2a09::", "2a11::"]
    );
}

#[test]
fn parses_codesign_identity_fields() {
    let output = "Executable=/Applications/App.app\nIdentifier=com.example.app\nTeamIdentifier=ABCDE12345\n";
    assert_eq!(signing_field(output, "Identifier=").as_deref(), Some("com.example.app"));
    assert_eq!(signing_field(output, "TeamIdentifier=").as_deref(), Some("ABCDE12345"));
}

#[test]
fn rejects_archive_traversal_and_backslashes() {
    assert!(validate_archive_listing("App.app/Contents/MacOS/App\n").is_ok());
    assert!(validate_archive_listing("../escape\n").is_err());
    assert!(validate_archive_listing("App.app/../../escape\n").is_err());
    assert!(validate_archive_listing("..\\escape\n").is_err());
    assert!(validate_archive_listing("/absolute/path\n").is_err());
}

#[test]
fn rejects_control_characters_before_any_privileged_execution() {
    assert!(validate_admin_script("/bin/echo ok\n/bin/echo injected").is_err());
    assert!(validate_admin_script("/bin/echo ok\r/bin/echo injected").is_err());
    assert!(validate_admin_script("/bin/echo ok\0injected").is_err());
}

#[test]
fn accepts_the_typed_maintenance_command_shape() {
    assert!(validate_admin_script("/usr/bin/dscacheutil -flushcache; /usr/bin/killall -HUP mDNSResponder").is_ok());
}

#[test]
fn classic_catalog_contains_only_curated_frontend_options() {
    let expected = [
        ("mullvad", "std"),
        ("mullvad", "adblock"),
        ("mullvad", "base"),
        ("mullvad", "extended"),
        ("mullvad", "family"),
        ("mullvad", "all"),
        ("quad9", "sec"),
        ("quad9", "unf"),
        ("quad9", "edns"),
        ("libredns", "std"),
        ("dns4eu", "protective"),
        ("dns4eu", "child"),
        ("dns4eu", "noads"),
        ("dns4eu", "child-noads"),
        ("dns4eu", "unfiltered"),
        ("dnssb", "std"),
        ("opennic", "eu"),
        ("adguard", "std"),
        ("adguard", "family"),
        ("adguard", "unf"),
        ("cloudflare", "std"),
        ("cloudflare", "mal"),
        ("cloudflare", "family"),
        ("dnswatch", "std"),
    ];
    let doh = burrow::dns::doh_catalog();
    for key in expected {
        let servers = burrow::dns::classic_dns_servers(key.0, key.1)
            .unwrap_or_else(|| panic!("missing classic DNS entry: {key:?}"));
        assert!(!servers.is_empty());
        for server in &servers {
            server.trim().parse::<core::net::IpAddr>().expect("catalog address must be public and valid");
        }
        if let Some(encrypted) = doh.get(&key) {
            for server in &servers {
                assert!(encrypted.servers.contains(server), "classic and DoH catalog disagree for {key:?}: {server}");
            }
        }
    }
    assert!(burrow::dns::classic_dns_servers("fdn", "std").is_none());
    assert!(burrow::dns::classic_dns_servers("unknown", "std").is_none());
    assert!(burrow::dns::classic_dns_servers("cloudflare", "unknown").is_none());
}

#[test]
fn dedup_scan_roots_twice_changes_nothing() {
    let input = vec![
        "/Users/a/Downloads/x".to_string(),
        "/Users/a/Downloads".to_string(),
        "/Users/a/Desktop".to_string(),
        "/Users/a/Downloads/".to_string(),
    ];
    let once = dedup_scan_roots(input);
    assert_eq!(dedup_scan_roots(once.clone()), once);
}
