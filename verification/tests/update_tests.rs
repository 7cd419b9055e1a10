use burrow::app_updates::store_url_allowed;
use burrow::brew::{
    asks_catalogue, catalogue_outcome, eq_ignore_ascii_case, self_updating_cask, update_target, CaskEntry,
    CatalogueOutcome, UpdateMarkers,
};
use burrow::install::{install_route, ArchiveFormat, InstallRoute};
use burrow::login_items::{related_launch_item, unload_needs_admin};
use burrow::scan::{check_restore_target, clamscan_args, freshclam_config, is_signature_file};
use burrow::staging::{install_copy_command, is_prepared_copy, remove_prepared_command};
use burrow::updates::{
    check_entry_types, check_replacement, electron_source, same_signer, signing_identity, update_feed,
    ElectronSource,
};

fn entry(token: Option<&str>, version: &str, url: &str) -> CaskEntry {
    CaskEntry { token: token.map(str::to_string), version: version.to_string(), url: url.to_string() }
}

#[test]
fn signing_identity_needs_a_team() {
    let full = "Identifier=com.example.app\nTeamIdentifier=ABCDE12345\n";
    assert_eq!(signing_identity(full), Ok(("com.example.app".to_string(), "ABCDE12345".to_string())));
    let ad_hoc = "Identifier=com.example.app\nTeamIdentifier=not set\n";
    assert_eq!(
        signing_identity(ad_hoc),
        Err("Team ID absent : application signée ad hoc refusée".to_string())
    );
    assert_eq!(signing_identity("Executable=/x\n"), Err("Identifiant de signature absent".to_string()));
}

#[test]
fn replacement_must_be_the_same_bundle() {
    assert!(check_replacement("/tmp/x/App.app", Some("com.a"), Some("com.a")).is_ok());
    assert_eq!(
        check_replacement("/tmp/x/App.pkg", Some("com.a"), Some("com.a")),
        Err("Le téléchargement ne contient pas une application macOS".to_string())
    );
    assert_eq!(
        check_replacement("/tmp/x/App.app", None, Some("com.a")),
        Err("Bundle ID de l'application installée absent".to_string())
    );
    assert_eq!(
        check_replacement("/tmp/x/App.app", Some("com.a"), None),
        Err("Bundle ID de la mise à jour absent".to_string())
    );
    assert_eq!(
        check_replacement("/tmp/x/App.app", Some("com.a"), Some("com.b")),
        Err("Bundle ID différent : com.a → com.b".to_string())
    );
    let a = ("com.a".to_string(), "TEAM".to_string());
    let b = ("com.a".to_string(), "OTHER".to_string());
    assert!(same_signer(&a, &a).is_ok());
    assert!(same_signer(&a, &b).is_err());
}

#[test]
fn archive_entry_types_refuse_links() {
    assert!(check_entry_types("-rw-r--r-- 0 a b 1 App.app/x\ndrwxr-xr-x 0 a b 0 App.app/\n").is_ok());
    assert_eq!(
        check_entry_types("-rw-r--r-- x\nlrwxr-xr-x link -> /etc\n"),
        Err("Liens et fichiers spéciaux refusés dans les archives".to_string())
    );
    assert!(check_entry_types("crw-r--r-- dev\n").is_err());
    assert!(check_entry_types("").is_ok());
}

#[test]
fn update_feed_prefers_the_plist_feed() {
    assert_eq!(
        update_feed(Some("https://example.com/appcast.xml"), true, Some("com.x")).as_deref(),
        Some("https://example.com/appcast.xml")
    );
    assert_eq!(
        update_feed(Some("file:///x"), true, Some("com.x")).as_deref(),
        Some("https://updates.devmate.com/com.x.xml")
    );
    assert_eq!(update_feed(None, false, Some("com.x")), None);
    assert_eq!(update_feed(None, true, None), None);
}

#[test]
fn electron_sources_by_provider() {
    match electron_source("provider: github\nowner: acme\nrepo: \"tool\"\n") {
        Some(ElectronSource::GitHub { api_url }) => {
            assert_eq!(api_url, "https://api.github.com/repos/acme/tool/releases/latest")
        }
        _ => panic!("expected a GitHub source"),
    }
    match electron_source("provider: generic\nurl: https://dl.example.com/mac//\n") {
        Some(ElectronSource::Generic { base_url, manifest_url }) => {
            assert_eq!(base_url, "https://dl.example.com/mac");
            assert_eq!(manifest_url, "https://dl.example.com/mac/latest-mac.yml");
        }
        _ => panic!("expected a generic source"),
    }
    assert!(electron_source("provider: s3\nbucket: x\n").is_none());
    assert!(electron_source("provider: github\nowner: acme\n").is_none());
}

#[test]
fn self_updating_cask_compares_the_last_installed_version() {
    let e = entry(Some("zed"), "2.1.0,abc", "https://x/zed.dmg");
    let u = self_updating_cask("zed", "1.9 2.0.5", &e).expect("update");
    assert_eq!(u.name, "zed");
    assert_eq!(u.installed_version, "2.0.5");
    assert_eq!(u.current_version, "2.1.0");
    assert_eq!(u.download_url, "https://x/zed.dmg");
    assert!(u.brew_managed);
    assert!(self_updating_cask("zed", "2.1.0", &e).is_none());
    let untokened = entry(None, "3", "u");
    assert_eq!(self_updating_cask("tool", "2", &untokened).map(|u| u.name), Some("tool".to_string()));
}

#[test]
fn catalogue_outcome_names_updates_by_token() {
    let e = entry(Some("visual-studio-code"), "1.90.0", "https://x/code.zip");
    match catalogue_outcome("Visual Studio Code", "1.89.1", &e) {
        CatalogueOutcome::Update(u) => {
            assert_eq!(u.name, "visual-studio-code");
            assert_eq!(u.installed_version, "1.89.1");
            assert!(!u.brew_managed);
        }
        CatalogueOutcome::Current(_) => panic!("expected an update"),
    }
    match catalogue_outcome("Visual Studio Code", "1.90.0", &e) {
        CatalogueOutcome::Current(a) => {
            assert_eq!(a.name, "Visual Studio Code");
            assert_eq!(a.current_version, "1.90.0");
        }
        CatalogueOutcome::Update(_) => panic!("expected up to date"),
    }
}

fn markers() -> UpdateMarkers {
    UpdateMarkers {
        has_info_plist: true,
        brew_known: false,
        has_store_receipt: false,
        feed_url: None,
        has_update_manifest: false,
        has_devmate: false,
        has_squirrel: true,
        sparkle_without_feed: false,
    }
}

#[test]
fn catalogue_is_asked_only_about_self_updating_apps() {
    assert!(asks_catalogue(&markers()));
    assert!(!asks_catalogue(&UpdateMarkers { brew_known: true, ..markers() }));
    assert!(!asks_catalogue(&UpdateMarkers { feed_url: Some("https://f".into()), ..markers() }));
    assert!(asks_catalogue(&UpdateMarkers { feed_url: Some("ftp://f".into()), ..markers() }));
    assert!(!asks_catalogue(&UpdateMarkers { has_squirrel: false, ..markers() }));
    assert!(asks_catalogue(&UpdateMarkers { has_squirrel: false, sparkle_without_feed: true, ..markers() }));
    assert!(!asks_catalogue(&UpdateMarkers { has_info_plist: false, ..markers() }));
}

#[test]
fn update_target_matches_bundle_or_name() {
    assert!(update_target(Some("com.a"), Some("com.a"), Some("Other"), "x"));
    assert!(!update_target(Some("com.a"), Some("com.b"), Some("x"), "x"));
    assert!(update_target(None, None, Some("Firefox"), "firefox"));
    assert!(!update_target(None, Some("com.a"), None, "firefox"));
    assert!(eq_ignore_ascii_case("ÉtÉ", "ÉTÉ"));
    assert!(!eq_ignore_ascii_case("été", "ÉTÉ"));
}

#[test]
fn install_routes_by_format() {
    assert!(matches!(install_route(ArchiveFormat::Pkg, "/a", "/d"), InstallRoute::Refuse));
    assert!(matches!(install_route(ArchiveFormat::Dmg, "/a", "/d"), InstallRoute::Mount));
    match install_route(ArchiveFormat::Zip, "/t/download.zip", "/t/x") {
        InstallRoute::Extract { program, args } => {
            assert_eq!(program, "/usr/bin/unzip");
            assert_eq!(args, vec!["-q", "-o", "/t/download.zip", "-d", "/t/x"]);
        }
        _ => panic!("expected extraction"),
    }
    match install_route(ArchiveFormat::TarXz, "/t/a", "/t/x") {
        InstallRoute::Extract { program, args } => {
            assert_eq!(program, "/usr/bin/tar");
            assert_eq!(args, vec!["-xf", "/t/a", "-C", "/t/x"]);
        }
        _ => panic!("expected extraction"),
    }
}

#[test]
fn related_launch_items_share_the_prefix() {
    let own = "/Library/LaunchAgents/com.vendor.app.plist";
    assert!(related_launch_item(own, "com.vendor", "/Library/LaunchDaemons/com.vendor.helper.plist"));
    assert!(!related_launch_item(own, "com.vendor", own));
    assert!(!related_launch_item(own, "com.vendor", "/Library/LaunchDaemons/com.vendor.helper.txt"));
    assert!(!related_launch_item(own, "com.vendor", "/Library/LaunchDaemons/org.other.plist"));
    assert!(unload_needs_admin(false, "/Library/LaunchDaemons/x.plist", "/Users/a"));
    assert!(!unload_needs_admin(false, "/Users/a/Library/LaunchAgents/x.plist", "/Users/a"));
    assert!(!unload_needs_admin(true, "/Library/LaunchDaemons/x.plist", "/Users/a"));
}

#[test]
fn scanner_arguments_in_order() {
    let args = clamscan_args(Some("/db"), &vec!["--exclude-dir=^/h/.ssh$".to_string()], &vec!["/h".to_string()]);
    assert_eq!(
        args,
        vec![
            "-r",
            "--no-summary",
            "--follow-dir-symlinks=0",
            "--follow-file-symlinks=0",
            "--database=/db",
            "--exclude-dir=^/h/.ssh$",
            "/h"
        ]
    );
    assert_eq!(clamscan_args(None, &vec![], &vec!["/a".to_string(), "/b".to_string()]).len(), 6);
}

#[test]
fn signature_files_and_freshclam_config() {
    assert!(is_signature_file("daily.cvd"));
    assert!(is_signature_file("main.cld"));
    assert!(!is_signature_file("freshclam.dat"));
    assert!(!is_signature_file("cvd"));
    assert_eq!(
        freshclam_config("/data/clamav/db"),
        "DatabaseDirectory /data/clamav/db\nDatabaseMirror database.clamav.net\nMaxAttempts 3\nConnectTimeout 30\nReceiveTimeout 30\n"
    );
}

#[test]
fn restore_target_checks() {
    assert!(check_restore_target(false, Some("/Users/a/Downloads"), Some("/Users/a/Downloads/")).is_ok());
    assert_eq!(
        check_restore_target(true, Some("/x"), Some("/x")),
        Err("Le chemin original existe déjà ; restauration refusée pour éviter tout écrasement".to_string())
    );
    assert_eq!(check_restore_target(false, None, None), Err("Dossier d'origine invalide".to_string()));
    assert_eq!(
        check_restore_target(false, Some("/x"), None),
        Err("Le dossier d'origine n'existe plus ; recréez-le avant de restaurer".to_string())
    );
    assert_eq!(
        check_restore_target(false, Some("/tmp/x"), Some("/private/tmp/x")),
        Err("Le dossier d'origine traverse un lien symbolique ; restauration refusée".to_string())
    );
}

#[test]
fn store_pages_only() {
    assert!(store_url_allowed("https://apps.apple.com/app/id123"));
    assert!(store_url_allowed("https://itunes.apple.com/us/app/x/id1"));
    assert!(!store_url_allowed("https://evil.example/apps.apple.com/"));
    assert!(!store_url_allowed("https://apps.apple.com/a b"));
    assert!(!store_url_allowed("https://apps.apple.com/a\0"));
    assert!(!store_url_allowed(&format!("https://apps.apple.com/{}", "a".repeat(2048))));
}

#[test]
fn prepared_copies_and_their_commands() {
    assert!(is_prepared_copy(".burrow-thinned-1234.app"));
    assert!(!is_prepared_copy("Safari.app"));
    assert!(!is_prepared_copy(".burrow-thinned-1234"));
    assert_eq!(remove_prepared_command("/Applications/.burrow-thinned-1.app"), "/bin/rm -rf -- '/Applications/.burrow-thinned-1.app'");
    assert_eq!(install_copy_command("/tmp/A.app", "/Applications/It's.app"), "/usr/bin/ditto --noqtn '/tmp/A.app' '/Applications/It'\\''s.app'");
}
