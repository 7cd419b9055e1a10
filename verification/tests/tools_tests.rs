use burrow::activity::{fresh_entry, listing_limit, new_entry, sanitize};
use burrow::browse::{du_report_bytes, du_report_mb};
use burrow::dns::{uuid_from_hashes, xml_escape};
use burrow::duplicates::{
    content_key, distinct_inodes, duplicate_group, duplicate_search_folders, fnv1a_64, group_by_key,
    group_by_size, hex_digest, keep_repeated, key_size, partial_key, rank_duplicate_groups, walk_step, WalkStep,
};
use burrow::grants::{PathGrantPurpose, PathGrants, PreviewGrants, PATH_GRANT_TTL_NANOS, PREVIEW_TTL_NANOS};
use burrow::hardware::{gpu_info_from, vram_mb_from};
use burrow::install::{archive_format, download_size_ok, install_dir, mount_point, ArchiveFormat};
use burrow::media::{detect_image_mime, icon_data_url, image_data_url, to_data_url};
use burrow::order::sort_largest_first;
use burrow::mole::{
    check_app_name, check_preview_links_app, rank_residuals, residual_entry, strip_terminal_sequences,
};
use burrow::scan::{
    classify_scan_line, clamav_info, db_version_in_header, definitions_outdated, expand_target,
    first_line_trimmed, picked_folder, quarantine_entry, threat_summary, ScanLine,
};
use burrow::sensors::{classify_smc_key, freq_table_from_bytes, smc_fourcc, SmcKeyClass, SMC_TYPE_FLT};
use burrow::staging::{
    move_command, quarantine_name, quarantine_name_with, remove_command, replace_command, restage_command,
    staging_names, staging_names_with, thinned_copy_name,
};
use burrow::system::{bundle_prefix, format_uptime, posix_applescript_string};
use burrow::universal::{both_arches, is_fat_magic, rank_universal_entries, scans_app, thin_result, universal_entry};
use burrow::updates::{
    manifest_download, parse_feed, pick_release_asset, tag_version, version_gt, yml_value,
};

fn is_uuid(s: &str) -> bool {
    s.len() == 36
        && s.char_indices().all(|(i, c)| {
            if [8, 13, 18, 23].contains(&i) {
                c == '-'
            } else {
                c.is_ascii_digit() || ('a'..='f').contains(&c)
            }
        })
        && s.as_bytes()[14] == b'4'
}

// ── Names and commands ──────────────────────────────────────────────────────

#[test]
fn staged_copy_and_backup_share_one_nonce() {
    let (staged, backup) = staging_names();
    let n1 = staged.strip_prefix(".burrow-update-").and_then(|s| s.strip_suffix(".app")).expect("staged");
    let n2 = backup.strip_prefix(".burrow-backup-").and_then(|s| s.strip_suffix(".app")).expect("backup");
    assert_eq!(n1, n2);
    assert!(is_uuid(n1));
    let (a, b) = staging_names();
    assert_ne!(a, staged, "each call draws a fresh nonce");
    assert_ne!(b, backup);
    assert_eq!(
        staging_names_with("n"),
        (".burrow-update-n.app".to_string(), ".burrow-backup-n.app".to_string())
    );
    let thin = thinned_copy_name();
    assert!(is_uuid(thin.strip_prefix(".burrow-thinned-").and_then(|s| s.strip_suffix(".app")).unwrap()));
}

#[test]
fn quarantine_names_carry_time_nonce_and_name() {
    assert_eq!(quarantine_name_with(1_700_000_000, "abc", "virus.exe"), "1700000000_abc_virus.exe");
    let q = quarantine_name(5, "f.txt");
    let rest = q.strip_prefix("5_").unwrap().strip_suffix("_f.txt").unwrap();
    assert!(is_uuid(rest));
}

#[test]
fn administrator_commands_quote_every_path() {
    assert_eq!(remove_command("/tmp/it's"), "/bin/rm -rf '/tmp/it'\\''s'");
    assert_eq!(move_command("/a", "/b c"), "/bin/mv '/a' '/b c'");
    assert_eq!(restage_command("/s", "/src"), "/bin/rm -rf '/s' && /usr/bin/ditto '/src' '/s'");
    assert_eq!(
        replace_command("/A.app", "/S.app", "/B.app"),
        "/bin/mv '/A.app' '/B.app' && if /bin/mv '/S.app' '/A.app'; then /bin/rm -rf '/B.app'; else /bin/mv '/B.app' '/A.app'; exit 1; fi"
    );
    assert_eq!(posix_applescript_string("a\"b\\c"), "\"a\\\"b\\\\c\"");
}

// ── Activity ────────────────────────────────────────────────────────────────

#[test]
fn fresh_entries_get_random_identifiers() {
    let e = fresh_entry(7, "nettoyage\n", "Corbeille", "success", "ok", Some(3), true);
    assert!(is_uuid(&e.id));
    assert_eq!(e.category, "nettoyage");
    assert_eq!(e.timestamp, 7);
    assert_eq!(e.bytes, Some(3));
    let other = fresh_entry(7, "a", "b", "c", "d", None, false);
    assert_ne!(e.id, other.id);
    let fixed = new_entry("id".into(), 1, &"c".repeat(50), "a", "s", "x", None, false);
    assert_eq!(fixed.category.chars().count(), 40);
    assert_eq!(sanitize("a\tb\u{7}c", 10), "a\tbc");
    assert_eq!(listing_limit(None), 200);
    assert_eq!(listing_limit(Some(0)), 1);
    assert_eq!(listing_limit(Some(10_000)), 500);
    assert_eq!(listing_limit(Some(3)), 3);
}

// ── Grants ──────────────────────────────────────────────────────────────────

#[test]
fn path_grants_authorise_only_what_was_listed() {
    let mut grants = PathGrants::new();
    grants.grant("/Users/test/Downloads/a.dmg", 1, 42, PathGrantPurpose::Trash, 1_000);
    let ok = grants.require(
        Ok("/Users/test/Downloads/a.dmg".to_string()),
        Ok((false, 1, 42)),
        PathGrantPurpose::Trash,
        2_000,
    );
    assert_eq!(ok, Ok("/Users/test/Downloads/a.dmg".to_string()));
    // Another purpose, another file, a replaced file, a link, an expired grant.
    assert!(grants
        .require(Ok("/Users/test/Downloads/a.dmg".into()), Ok((false, 1, 42)), PathGrantPurpose::Thin, 2_000)
        .is_err());
    assert!(grants
        .require(Ok("/Users/test/Downloads/b.dmg".into()), Ok((false, 1, 42)), PathGrantPurpose::Trash, 2_000)
        .is_err());
    assert!(grants
        .require(Ok("/Users/test/Downloads/a.dmg".into()), Ok((false, 1, 43)), PathGrantPurpose::Trash, 2_000)
        .is_err());
    assert!(grants
        .require(Ok("/Users/test/Downloads/a.dmg".into()), Ok((true, 1, 42)), PathGrantPurpose::Trash, 2_000)
        .is_err());
    assert!(grants
        .require(
            Ok("/Users/test/Downloads/a.dmg".into()),
            Ok((false, 1, 42)),
            PathGrantPurpose::Trash,
            1_000 + PATH_GRANT_TTL_NANOS + 1,
        )
        .is_err());
    assert!(grants.require(Err("gone".into()), Ok((false, 1, 42)), PathGrantPurpose::Trash, 2_000).is_err());
    // Purposes accumulate on the same file.
    grants.grant("/Users/test/Downloads/a.dmg", 1, 42, PathGrantPurpose::Quarantine, 3_000);
    assert!(grants.authorises("/Users/test/Downloads/a.dmg", PathGrantPurpose::Trash, 1, 42, 3_000));
    assert!(grants.authorises("/Users/test/Downloads/a.dmg", PathGrantPurpose::Quarantine, 1, 42, 3_000));
}

#[test]
fn previews_are_consumed_once() {
    let mut previews = PreviewGrants::new();
    previews.grant("/Applications/Zed.app", "Zed", "dev.zed.Zed", vec!["/a".into(), "/b".into()], 10);
    assert!(previews.consume("/Applications/Zed.app", "Other", "dev.zed.Zed", 20).is_err());
    assert_eq!(
        previews.consume("/Applications/Zed.app", "Zed", "dev.zed.Zed", 20),
        Ok(vec!["/a".to_string(), "/b".to_string()])
    );
    assert!(previews.consume("/Applications/Zed.app", "Zed", "dev.zed.Zed", 21).is_err());
    previews.grant("/Applications/Zed.app", "Zed", "dev.zed.Zed", vec![], 100);
    assert!(previews.consume("/Applications/Zed.app", "Zed", "dev.zed.Zed", 100 + PREVIEW_TTL_NANOS + 1).is_err());
}

// ── Scanning and quarantine ─────────────────────────────────────────────────

#[test]
fn scan_lines_and_targets() {
    assert_eq!(expand_target("~/Downloads", "/Users/test"), "/Users/test/Downloads");
    assert_eq!(expand_target("~", "/Users/test"), "/Users/test");
    assert_eq!(expand_target("/tmp", "/Users/test"), "/tmp");
    assert!(matches!(
        classify_scan_line("/Users/test/Downloads/eicar.com: Eicar-Signature FOUND", 0, 0),
        ScanLine::Found(ref p) if p == "/Users/test/Downloads/eicar.com"
    ));
    assert!(matches!(classify_scan_line("Eicar FOUND", 0, 0), ScanLine::Malformed));
    assert!(matches!(classify_scan_line("/a: OK", 0, 0), ScanLine::Plain));
    assert!(matches!(classify_scan_line("/a: OK", 50_000, 0), ScanLine::Truncated));
    assert_eq!(threat_summary(2), "2 menace(s) détectée(s)");
}

#[test]
fn scanner_facts_are_read_from_its_output() {
    assert_eq!(first_line_trimmed("  ClamAV 1.4.1/27425  \nsecond"), "ClamAV 1.4.1/27425");
    assert_eq!(first_line_trimmed(""), "");
    assert_eq!(db_version_in_header("ClamAV-VDB:daily:27425:rest"), Some("27425".to_string()));
    assert_eq!(db_version_in_header("ClamAV-VDB:daily"), None);
    assert_eq!(db_version_in_header("a:b:  :c"), None);
    let info = clamav_info(true, Some("ClamAV 1.4.1\n"), Some("/opt/freshclam".into()), true, "/db".into(), "27425".into());
    assert!(info.installed);
    assert_eq!(info.version, "ClamAV 1.4.1");
    assert_eq!(info.freshclam_path, "/opt/freshclam");
    assert_eq!(info.db_version, "27425");
    let none = clamav_info(false, Some("x"), Some("/f".into()), true, "/db".into(), "1".into());
    assert!(!none.installed && !none.has_database);
    assert_eq!((none.version.as_str(), none.db_path.as_str(), none.db_version.as_str()), ("", "/db", ""));
    assert!(definitions_outdated(Some(86_401)));
    assert!(!definitions_outdated(Some(86_400)));
    assert!(!definitions_outdated(None));
    assert_eq!(picked_folder("/Users/test/Scans/\n", true), Some("/Users/test/Scans".to_string()));
    assert_eq!(picked_folder("/\n", true), None);
    assert_eq!(picked_folder("/Users/test", false), None);
}

#[test]
fn quarantine_entries_live_in_the_quarantine_folder() {
    let e = quarantine_entry("170_ab_f.exe", "/Users/test/Downloads/f.exe", None, "/Users/test/.burrow/quarantine", 9);
    assert_eq!(e.quarantine_path, "/Users/test/.burrow/quarantine/170_ab_f.exe");
    assert_eq!(e.quarantined_at, "");
    assert_eq!(e.size_bytes, 9);
    let abs = quarantine_entry("/etc/passwd", "/x", Some("170"), "/Users/test/.burrow/quarantine", 0);
    assert_eq!(abs.quarantine_path, "/etc/passwd");
    assert_eq!(abs.quarantined_at, "170");
}

// ── Uninstall previews ──────────────────────────────────────────────────────

#[test]
fn residuals_exclude_the_application_itself() {
    assert!(check_app_name("/Applications/Slack.app", "Slack").is_ok());
    assert_eq!(
        check_app_name("/Applications/Slack.app", "Other"),
        Err("Le nom ne correspond pas à l'application analysée".to_string())
    );
    let paths = vec!["/Users/test/Library/Caches/com.slack".to_string(), "/Applications/Slack.app".to_string()];
    assert!(check_preview_links_app(&paths, "/Applications/Slack.app").is_ok());
    assert!(check_preview_links_app(&paths[..1].to_vec(), "/Applications/Slack.app").is_err());
    let cache = residual_entry("/Users/test/Library/Caches/com.slack", "/Applications/Slack.app", Some((true, 42)))
        .expect("residual");
    assert_eq!((cache.name.as_str(), cache.size_bytes, cache.is_dir), ("com.slack", 42, true));
    assert!(residual_entry("/Applications/Slack.app", "/Applications/Slack.app", Some((true, 1))).is_none());
    assert!(residual_entry("/gone", "/Applications/Slack.app", None).is_none());
    let small = residual_entry("/x/small", "/A.app", Some((false, 1))).unwrap();
    let ranked: Vec<String> = rank_residuals(vec![small, cache]).into_iter().map(|e| e.name).collect();
    assert_eq!(ranked, vec!["com.slack", "small"]);
    assert_eq!(strip_terminal_sequences("\u{1b}[31mred\u{1b}[0m\r\n"), "red\n");
}

// ── Universal binaries ──────────────────────────────────────────────────────

#[test]
fn fat_binaries_are_recognized() {
    assert!(is_fat_magic(&[0xca, 0xfe, 0xba, 0xbe]));
    assert!(is_fat_magic(&[0xbf, 0xba, 0xfe, 0xca]));
    assert!(!is_fat_magic(&[0xcf, 0xfa, 0xed, 0xfe]));
    assert!(!is_fat_magic(&[0xca, 0xfe, 0xba]));
    assert!(both_arches("x86_64 arm64\n"));
    assert!(!both_arches("arm64"));
    assert!(!both_arches("x86_64 arm64e"));
    assert!(scans_app("/Applications/Zed.app", true, "dev.zed.Zed"));
    assert!(!scans_app("/Applications/Safari.app", true, "com.apple.Safari"));
    assert!(!scans_app("/Applications/Burrow.app", true, "com.karimachi.burrow"));
    assert!(!scans_app("/Applications/Zed.app", false, "dev.zed.Zed"));
}

#[test]
fn universal_entries_report_what_thinning_would_save() {
    let e = universal_entry("/Applications/Zed.app", 2, &[100, 51], true, false).expect("entry");
    assert_eq!(e.name, "Zed");
    assert_eq!((e.total_size_bytes, e.reclaimable_bytes, e.binary_count), (151, 75, 2));
    assert!(!e.thinning_unsafe);
    assert!(e.thinning_warning.starts_with("Burrow amincit une copie"));
    let store = universal_entry("/Applications/Pages.app", 1, &[10], true, true).unwrap();
    assert!(store.thinning_unsafe);
    assert!(store.thinning_warning.starts_with("Application App Store"));
    let unsigned = universal_entry("/Applications/Old.app", 1, &[10], false, false).unwrap();
    assert!(unsigned.thinning_unsafe);
    assert!(unsigned.thinning_warning.starts_with("Signature d’origine"));
    assert!(universal_entry("/Applications/None.app", 0, &[], true, false).is_none());
    let order: Vec<String> = rank_universal_entries(vec![store, e, unsigned]).into_iter().map(|e| e.name).collect();
    assert_eq!(order, vec!["Zed", "Pages", "Old"]);
    let t = thin_result(100, 40, 3, true);
    assert_eq!((t.bytes_saved, t.binary_count, t.original_in_trash, t.locally_resigned), (60, 3, true, true));
    assert_eq!(thin_result(40, 100, 1, false).bytes_saved, 0);
}

// ── Updates ─────────────────────────────────────────────────────────────────

#[test]
fn versions_compare_numerically_part_by_part() {
    assert!(version_gt("1.10", "1.9"));
    assert!(!version_gt("1.9", "1.10"));
    assert!(!version_gt("2.0", "2.0.0"));
    assert!(version_gt("v1.2.3", "1.2"));
    assert!(!version_gt("1.2", "1.2"));
    assert!(version_gt("2024.1 (build 5)", "2024.1 (build 4)"));
}

#[test]
fn feeds_and_manifests_are_read() {
    let xml = "<rss><channel><item><description>Fixes\n\n  bugs  </description><enclosure url=\"https://example.com/App-2.0.zip\" sparkle:version=\"200\" sparkle:shortVersionString=\"2.0\" length=\"1\"/></item></channel></rss>";
    let feed = parse_feed(xml).expect("feed");
    assert_eq!(feed.short_version, "2.0");
    assert_eq!(feed.build_version, "200");
    assert_eq!(feed.url, "https://example.com/App-2.0.zip");
    assert_eq!(feed.notes, "Fixes\nbugs");
    assert!(parse_feed("<enclosure url=\"ftp://x\" sparkle:version=\"1\"/>").is_none());
    assert!(parse_feed("<enclosure url=\"https://x\"/>").is_none());
    assert_eq!(yml_value("version: 1.2.3\npath: \"Zed-1.2.3.zip\"\n", "path"), Some("Zed-1.2.3.zip".to_string()));
    assert_eq!(yml_value("version:\n", "version"), None);
    assert_eq!(tag_version("vv1.2"), "1.2");
    assert_eq!(manifest_download("https://dl.example.com/", "Zed.zip"), "https://dl.example.com/Zed.zip");
    assert_eq!(manifest_download("https://a", "https://b/c.zip"), "https://b/c.zip");
    let urls = vec![
        "https://x/App-1.0-x64.dmg".to_string(),
        "https://x/App-1.0-arm64.DMG".to_string(),
        "https://x/App-1.0-mac.zip".to_string(),
    ];
    assert_eq!(pick_release_asset(&urls, true, true), Some("https://x/App-1.0-arm64.DMG".to_string()));
    assert_eq!(pick_release_asset(&urls, false, true), Some("https://x/App-1.0-x64.dmg".to_string()));
}

// ── Installing downloads ────────────────────────────────────────────────────

#[test]
fn downloads_are_recognized_and_mounted() {
    assert!(!download_size_ok(499_999));
    assert!(download_size_ok(500_000));
    assert!(!download_size_ok(2_147_483_649));
    assert_eq!(archive_format("application/x-bzip2", true), ArchiveFormat::Dmg);
    assert_eq!(archive_format("application/x-bzip2", false), ArchiveFormat::TarBz2);
    assert_eq!(archive_format("application/gzip", false), ArchiveFormat::TarGz);
    assert_eq!(archive_format("application/zip", false), ArchiveFormat::Zip);
    assert_eq!(ArchiveFormat::TarGz.ext(), "tar.gz");
    let hdiutil = "/dev/disk4\tGUID_partition_scheme\t\n/dev/disk4s1\tApple_HFS\t/Volumes/Zed 1.0\n";
    assert_eq!(mount_point(hdiutil), Some("/Volumes/Zed 1.0".to_string()));
    assert_eq!(mount_point("/dev/disk4\tGUID\t\n"), None);
    assert_eq!(install_dir("/Applications/Zed.app"), "/Applications");
    assert_eq!(install_dir("/Users/test/Applications/Zed.app"), "/Users/test/Applications");
}

// ── Media ───────────────────────────────────────────────────────────────────

#[test]
fn images_are_recognized_and_encoded() {
    let png = [0x89u8, 0x50, 0x4E, 0x47, 0x0D, 0x0A, 0x1A, 0x0A, 1, 2];
    assert_eq!(detect_image_mime(&png), Some("image/png"));
    assert_eq!(detect_image_mime(&[0xFF, 0xD8, 0xFF, 0xE0]), Some("image/jpeg"));
    assert_eq!(detect_image_mime(b"hello"), None);
    assert_eq!(to_data_url("text/plain", b"hi"), "data:text/plain;base64,aGk=");
    let url = image_data_url(&png).expect("png");
    assert_eq!(url, "data:image/png;base64,iVBORw0KGgoBAg==");
    assert_eq!(image_data_url(b"GIF"), None);
    let mut icns = b"icns\0\0\0\x18ic08\0\0\0\x10".to_vec();
    icns.extend_from_slice(&png[..8]);
    assert_eq!(icon_data_url(&icns), Some("data:image/png;base64,iVBORw0KGgo=".to_string()));
}

// ── Hardware, sensors, duplicates, text ─────────────────────────────────────

#[test]
fn graphics_memory_is_read_in_mebibytes() {
    assert_eq!(vram_mb_from("16 GB"), 16_384);
    assert_eq!(vram_mb_from("1536 MB"), 1536);
    assert_eq!(vram_mb_from("Dynamic, Max (Shared)"), 0);
    let g = gpu_info_from("Apple M2", "sppci_vendor_Apple", "10", "");
    assert_eq!(g.model, "Apple M2 · 10 cœurs GPU");
    assert_eq!(g.vendor, "Apple");
    assert_eq!(g.vram_mb, 0);
}

#[test]
fn smc_keys_are_encoded_and_classed() {
    assert_eq!(smc_fourcc("TC0P"), 0x5443_3050);
    assert_eq!(classify_smc_key(smc_fourcc("Tp01"), SMC_TYPE_FLT), SmcKeyClass::Cpu);
    assert_eq!(classify_smc_key(smc_fourcc("Tg0f"), SMC_TYPE_FLT), SmcKeyClass::Gpu);
    assert_eq!(classify_smc_key(smc_fourcc("Tp01"), 0), SmcKeyClass::Other);
    assert_eq!(classify_smc_key(smc_fourcc("F0Ac"), SMC_TYPE_FLT), SmcKeyClass::Other);
    let mut table = Vec::new();
    for f in [600u32, 0, 3_228, 20_000] {
        table.extend_from_slice(&f.to_le_bytes());
        table.extend_from_slice(&[0, 0, 0, 0]);
    }
    assert_eq!(freq_table_from_bytes(&table), vec![600, 3_228]);
}

#[test]
fn duplicate_groups_rank_by_wasted_space() {
    assert_eq!(fnv1a_64(b""), 0xcbf2_9ce4_8422_2325);
    assert_eq!(fnv1a_64(b"a"), 0xaf63_dc4c_8601_ec8c);
    assert_eq!(partial_key(10, 255), "10:255");
    let g = duplicate_group("10:255", 100, vec!["/b".into(), "/a".into(), "/c".into()]);
    assert_eq!(g.paths, vec!["/a", "/b", "/c"]);
    assert_eq!(g.hash, "255");
    assert_eq!(g.wasted_bytes, 200);
    let h = duplicate_group("5:1", 1_000, vec!["/x".into(), "/y".into()]);
    let order: Vec<u64> = rank_duplicate_groups(vec![g, h]).into_iter().map(|g| g.wasted_bytes).collect();
    assert_eq!(order, vec![1_000, 200]);
}

#[test]
fn du_totals_are_read_from_its_first_word() {
    assert_eq!(du_report_mb(Some("2048\t/x\n")), 2);
    assert_eq!(du_report_mb(Some("1023\t/x\n")), 0);
    assert_eq!(du_report_mb(None), 0);
    assert_eq!(du_report_bytes(Some("3\t/x\n")), 3 * 1024);
    assert_eq!(du_report_bytes(Some("du: /x: No such file\n")), 0);
}

#[test]
fn uptime_and_identifiers_are_formatted() {
    assert_eq!(format_uptime(59), "0 min");
    assert_eq!(format_uptime(3_600 + 120), "1h 2min");
    assert_eq!(format_uptime(2 * 86_400 + 5 * 3_600 + 59), "2j 5h");
    assert_eq!(bundle_prefix("/Library/LaunchAgents/com.vendor.agent.plist"), "com.vendor");
    assert_eq!(bundle_prefix("/Library/LaunchAgents/com.vendor.sub.helper.agent.plist"), "com.vendor.sub");
    assert_eq!(uuid_from_hashes(0x0123_4567_89ab_cdef, 0xfedc_ba98_7654_3210), "89ABCDEF-4567-4123-B210-BA9876543210");
    assert_eq!(xml_escape("a<b>&\"c'"), "a&lt;b&gt;&amp;&quot;c&apos;");
}

#[test]
fn duplicate_candidates_are_grouped_step_by_step() {
    assert!(matches!(walk_step("node_modules", false, true, false, None), WalkStep::Skip));
    assert!(matches!(walk_step("Photos", false, true, false, None), WalkStep::Descend));
    assert!(matches!(walk_step("a.jpg", false, false, true, Some(4096)), WalkStep::Compare(4096)));
    assert!(matches!(walk_step("tiny", false, false, true, Some(4095)), WalkStep::Skip));
    assert!(matches!(walk_step("link", true, true, false, None), WalkStep::Skip));
    let folders = duplicate_search_folders("/Users/test");
    assert_eq!(folders.len(), 9);
    assert_eq!(folders[8], "/Users/test/Projects");

    let by_size = group_by_size(vec![(10u64, "/a"), (20, "/b"), (10, "/c"), (30, "/d"), (20, "/e")]);
    assert_eq!(by_size, vec![(10, vec!["/a", "/c"]), (20, vec!["/b", "/e"]), (30, vec!["/d"])]);
    let repeated = keep_repeated(by_size);
    assert_eq!(repeated.len(), 2);
    assert_eq!(distinct_inodes(vec![("/a".into(), 7), ("/hardlink".into(), 7), ("/c".into(), 9)]), vec!["/a", "/c"]);

    let keyed = group_by_key(vec![
        (partial_key(4096, 1), "/x"),
        (partial_key(4096, 2), "/y"),
        (partial_key(4096, 1), "/z"),
    ]);
    assert_eq!(keyed[0], ("4096:1".to_string(), vec!["/x", "/z"]));
    assert_eq!(key_size("4096:1"), 4096);
    assert_eq!(key_size("junk"), 0);
    assert_eq!(hex_digest(&[0x00, 0xab, 0x10]), "00ab10");
    let digest: Vec<u8> = (0u8..32).collect();
    assert_eq!(content_key(4096, &digest), "4096:0001020304050607");
}

#[test]
fn listings_are_ordered_and_complete() {
    let input = vec![(1u64, 'a'), (9, 'b'), (4, 'c'), (9, 'd'), (0, 'e')];
    let sorted = sort_largest_first(input.clone());
    assert!(sorted.windows(2).all(|w| w[0].0 >= w[1].0));
    let mut a: Vec<(u64, char)> = sorted.clone();
    let mut b = input;
    a.sort();
    b.sort();
    assert_eq!(a, b);
}
