use burrow::app_updates::{store_has_results, store_offer};
use burrow::brew::{brew_outdated_casks, brew_outdated_formulae, cask_rows, lookup_cask_row, row_entry, row_for_token};
use burrow::digest::ContentHasher;
use burrow::guard::{validate_app_uninstall_path, validate_installer_path, validate_update_app_path, validate_update_url};
use burrow::json::parse_json;
use burrow::media::to_data_url;
use burrow::updates::github_release_update;

const HOME: &str = "/Users/tester";

fn doc(s: &str) -> burrow::json::JsonValue {
    parse_json(s.as_bytes()).expect("JSON")
}

#[test]
fn outdated_casks_from_brew_json() {
    let d = doc(r#"{"casks":[{"name":"firefox","installed_versions":["120.0","119.0"],"current_version":"121.0"},{"name":"zed"}]}"#);
    let urls = vec![
        ("firefox".to_string(), "https://old".to_string()),
        ("firefox".to_string(), "https://x/firefox.dmg".to_string()),
    ];
    let r = brew_outdated_casks(&d, &urls);
    assert_eq!(r.len(), 2);
    assert_eq!(r[0].name, "firefox");
    assert_eq!(r[0].installed_version, "120.0");
    assert_eq!(r[0].current_version, "121.0");
    assert_eq!(r[0].download_url, "https://x/firefox.dmg");
    assert!(r[0].brew_managed);
    assert_eq!((r[1].name.as_str(), r[1].installed_version.as_str(), r[1].download_url.as_str()), ("zed", "", ""));
    assert!(brew_outdated_casks(&doc("[]"), &urls).is_empty());
}

#[test]
fn outdated_formulae_need_a_name() {
    let d = doc(r#"{"formulae":[{"name":"git","installed_versions":["2.40","2.41"],"current_version":"2.42"},{"current_version":"1"}]}"#);
    let r = brew_outdated_formulae(&d);
    assert_eq!(r.len(), 1);
    assert_eq!((r[0].name.as_str(), r[0].installed_version.as_str(), r[0].current_version.as_str()), ("git", "2.41", "2.42"));
    assert_eq!(r[0].download_url, "");
}

#[test]
fn catalogue_rows_and_lookups() {
    let d = doc(r#"[{"token":"visual-studio-code","bundle_id":"com.microsoft.VSCode","version":"1.90.0,abc","url":"https://x/code.zip"},{"token":"tool","bundle_id":""},{"token":"tool","version":"2"}]"#);
    let rows = cask_rows(&d);
    assert_eq!(rows.len(), 3);
    assert_eq!(rows[1].bundle_id, None);
    assert_eq!(row_for_token(&rows, "tool"), Some(2));
    assert_eq!(lookup_cask_row(&rows, "Anything", Some("com.microsoft.VSCode")), Some(0));
    assert_eq!(lookup_cask_row(&rows, "Visual Studio Code", None), Some(0));
    assert_eq!(lookup_cask_row(&rows, "Unknown", None), None);
    let e = row_entry(&rows[0]);
    assert_eq!((e.version.as_str(), e.url.as_str()), ("1.90.0,abc", "https://x/code.zip"));
    assert_eq!(row_entry(&rows[2]).url, "");
    assert!(cask_rows(&doc(r#"{"a":1}"#)).is_empty());
}

#[test]
fn github_release_json() {
    let d = doc(r#"{"tag_name":"v2.0.0","body":"  Notes  ","assets":[{"browser_download_url":"https://x/App-2.0.0-arm64.dmg"},{"browser_download_url":"https://x/App-2.0.0-x64.dmg"},{"name":"no url"}]}"#);
    assert_eq!(
        github_release_update(&d, "1.9", true),
        Some(("2.0.0".to_string(), "https://x/App-2.0.0-arm64.dmg".to_string(), "Notes".to_string()))
    );
    assert_eq!(github_release_update(&d, "1.9", false).map(|r| r.1), Some("https://x/App-2.0.0-x64.dmg".to_string()));
    assert_eq!(github_release_update(&d, "2.0.0", true), None);
    assert_eq!(github_release_update(&doc(r#"{"assets":[]}"#), "1", true), None);
}

#[test]
fn store_lookup_json() {
    let d = doc(r#"{"resultCount":1,"results":[{"version":"3.1","releaseNotes":"fixes","trackViewUrl":"https://apps.apple.com/app/id9","trackId":9}]}"#);
    assert!(store_has_results(&d));
    let o = store_offer(&d).expect("offer");
    assert_eq!((o.version.as_str(), o.release_notes.as_str(), o.store_url.as_str(), o.track_id), ("3.1", "fixes", "https://apps.apple.com/app/id9", 9));
    assert!(!store_has_results(&doc(r#"{"results":[]}"#)));
    assert!(store_offer(&doc(r#"{"results":[{"trackId":1}]}"#)).is_none());
    let o2 = store_offer(&doc(r#"{"results":[{"version":"1","trackId":-4}]}"#)).unwrap();
    assert_eq!(o2.track_id, 0);
}

#[test]
fn invalid_json_is_refused() {
    assert!(parse_json(b"{not json").is_none());
}

#[test]
fn sha256_of_known_texts() {
    let mut h = ContentHasher::new();
    h.update(b"ab");
    h.update(b"c");
    let d = h.finish();
    assert_eq!(
        d.iter().map(|b| format!("{:02x}", b)).collect::<String>(),
        "ba7816bf8f01cfea414140de5dae2223b00361a396177a9cb410ff61f20015ad"
    );
    assert_eq!(ContentHasher::new().finish().len(), 32);
}

#[test]
fn base64_padding() {
    assert_eq!(to_data_url("text/plain", b"Man"), "data:text/plain;base64,TWFu");
    assert_eq!(to_data_url("text/plain", b"Ma"), "data:text/plain;base64,TWE=");
    assert_eq!(to_data_url("text/plain", b"M"), "data:text/plain;base64,TQ==");
    assert_eq!(to_data_url("x/y", b""), "data:x/y;base64,");
}

#[test]
fn app_paths_at_most_one_folder_deep() {
    assert!(validate_app_uninstall_path("/Applications/Utilities/Foo.app", HOME).is_ok());
    assert!(validate_app_uninstall_path("/Applications/A/B/Foo.app", HOME).is_err());
    assert!(validate_app_uninstall_path("/Users/tester/Applications/A/Foo.app", HOME).is_ok());
    assert!(validate_app_uninstall_path("/Users/tester/Applications/A/B/Foo.app", HOME).is_err());
    assert!(validate_update_app_path("/Applications/A/B/Foo.app", HOME).is_err());
    assert_eq!(
        validate_update_app_path("/Applications/Safari.app", HOME),
        Err("Mise à jour de l'application système 'Safari.app' refusée".to_string())
    );
    assert!(validate_update_app_path("/Applications/Utilities/Foo.app", HOME).is_ok());
}

#[test]
fn update_urls_refuse_control_characters() {
    assert!(validate_update_url("https://ok.com/a").is_ok());
    assert!(validate_update_url("https://ok.com/a\tb").is_err());
    assert!(validate_update_url("https://ok.com/\u{1b}[0m").is_err());
    assert!(validate_update_url("https://ok.com/\u{85}").is_err());
}

#[test]
fn installer_extensions_in_any_case() {
    assert!(validate_installer_path("/Users/tester/Downloads/Foo.DMG", HOME).is_ok());
    assert!(validate_installer_path("/Users/tester/Downloads/Foo.Pkg", HOME).is_ok());
    assert!(validate_installer_path("/Users/tester/Downloads/Foo.EXE", HOME).is_err());
}

#[test]
fn gpu_from_system_profiler_json() {
    let d = doc(r#"{"SPDisplaysDataType":[{"sppci_model":"Apple M2","sppci_vendor":"sppci_vendor_Apple","sppci_cores":"10"},{"sppci_model":"Other"}]}"#);
    let g = burrow::hardware::gpu_info_of(&d);
    assert_eq!(g.model, "Apple M2 · 10 cœurs GPU");
    assert_eq!(g.vendor, "Apple");
    assert_eq!(g.vram_mb, 0);
    let e = burrow::hardware::gpu_info_of(&doc(r#"{"SPDisplaysDataType":[]}"#));
    assert_eq!((e.model.as_str(), e.vendor.as_str(), e.vram_mb), ("", "", 0));
    let n = burrow::hardware::gpu_info_of(&burrow::json::JsonValue::Null);
    assert_eq!(n.model, "");
}

#[test]
fn simulator_runtimes_from_simctl_json() {
    let d = doc(r#"{"A":{"identifier":"id-1","version":"17.4","build":"21E","platformIdentifier":"com.apple.CoreSimulator.SimRuntime.iOS-17-4","sizeBytes":1234,"deletable":true,"lastUsedAt":"2024"},"B":{"version":"1"},"C":{"identifier":"id-3","sizeBytes":-5}}"#);
    let r = burrow::storage::simulator_runtimes(&d);
    assert_eq!(r.len(), 2);
    assert_eq!(r[0].identifier, "id-1");
    assert_eq!(r[0].platform, "iOS 17 4");
    assert_eq!(r[0].size_bytes, 1234);
    assert!(r[0].deletable);
    assert_eq!(r[0].last_used, "2024");
    assert_eq!(r[1].identifier, "id-3");
    assert_eq!(r[1].size_bytes, 0);
    assert!(!r[1].deletable);
    assert!(burrow::storage::simulator_runtimes(&doc("[1,2]")).is_empty());
}

#[test]
fn installed_casks_keep_those_still_on_disk() {
    let d = doc(r#"{"casks":[
        {"token":"firefox","artifacts":[{"app":["Firefox.app"]},{"zap":[]}]},
        {"token":"fonts","artifacts":[{"font":["x.ttf"]}]},
        {"token":"gone","artifacts":[{"app":["Gone.app", 3]}]},
        {"token":"broken"},
        {"artifacts":[]}
    ]}"#);
    let casks = burrow::brew::installed_casks(&d).expect("casks");
    assert_eq!(casks.len(), 3);
    assert_eq!(casks[0].app_names, vec!["Firefox.app".to_string()]);
    assert!(casks[0].declares_app);
    assert!(!casks[1].declares_app);
    assert_eq!(casks[2].app_names, vec!["Gone.app".to_string(), String::new()]);
    let kept = burrow::brew::kept_casks(&casks, &vec![true, false, false]);
    assert_eq!(kept, vec!["firefox".to_string(), "fonts".to_string()]);
    assert!(burrow::brew::installed_casks(&doc(r#"{"casks":{}}"#)).is_none());
}

#[test]
fn quarantine_metadata_records() {
    let d = doc(r#"[
        {"name":"1_a_x.txt","original_path":"/Users/u/x.txt","quarantined_at":"1700000000"},
        {"name":"2_b_y.txt","original_path":"/Users/u/y.txt"},
        {"name":"3_c_z.txt"},
        {"original_path":"/Users/u/w.txt"},
        7
    ]"#);
    let r = burrow::scan::quarantine_records(&d);
    assert_eq!(r.len(), 2);
    assert_eq!(r[0].name, "1_a_x.txt");
    assert_eq!(r[0].quarantined_at.as_deref(), Some("1700000000"));
    assert_eq!(r[1].original_path, "/Users/u/y.txt");
    assert_eq!(r[1].quarantined_at, None);
    assert_eq!(burrow::scan::quarantine_original(&d, "2_b_y.txt"), Ok("/Users/u/y.txt".to_string()));
    assert_eq!(burrow::scan::quarantine_original(&d, "3_c_z.txt"), Err("Chemin original manquant".to_string()));
    assert_eq!(burrow::scan::quarantine_original(&d, "nope"), Err("Entrée introuvable".to_string()));
    assert_eq!(burrow::scan::entries_without(&d, "2_b_y.txt"), vec![0, 2, 3, 4]);
    assert!(burrow::scan::quarantine_records(&doc("{}")).is_empty());
    assert!(burrow::scan::entries_without(&doc("{}"), "x").is_empty());
}
