use burrow::disk_watch::{disk_alert_step, disk_alert_text, record_disk_sample, DiskAlert, DiskSample};
use burrow::hardware::fan_rpm;
use burrow::network::link_byte_counts;
use burrow::settings::{
    fan_steps, launch_agent_plist, low_power_enabled, pmset_admin_command, pmset_args, setup_command, touchid_outcome,
    touchid_setting_on, touchid_toggle_reason, FanStep, PowerSetting,
};

#[test]
fn low_power_mode_from_pmset() {
    assert!(low_power_enabled("System-wide power settings:\n lowpowermode         1\n"));
    assert!(!low_power_enabled(" lowpowermode 0\n"));
    assert!(!low_power_enabled("powermode 1\n"));
    assert!(!low_power_enabled(""));
}

#[test]
fn pmset_arguments_and_command() {
    assert_eq!(pmset_args(PowerSetting::LowPower(true)), vec!["-a", "lowpowermode", "1"]);
    assert_eq!(pmset_args(PowerSetting::LowPower(false)), vec!["-a", "lowpowermode", "0"]);
    let cool = pmset_args(PowerSetting::CoolingNoSleep);
    assert_eq!(cool, vec!["-a", "lowpowermode", "0", "disksleep", "0", "sleep", "0"]);
    assert_eq!(pmset_admin_command(&cool), "/usr/bin/pmset -a lowpowermode 0 disksleep 0 sleep 0");
}

#[test]
fn fan_modes() {
    let silent = fan_steps("silent").unwrap();
    assert!(matches!(silent[0], FanStep::Smc { mode: 0, percent: 0, required: false }));
    assert!(matches!(silent[1], FanStep::Pmset(PowerSetting::LowPower(true))));
    let cool = fan_steps("cool").unwrap();
    assert!(matches!(cool[0], FanStep::Pmset(PowerSetting::CoolingNoSleep)));
    assert!(matches!(cool[1], FanStep::Smc { mode: 1, percent: 60, required: true }));
    assert!(matches!(fan_steps("auto").unwrap()[1], FanStep::Pmset(PowerSetting::LowPower(false))));
    assert_eq!(fan_steps("turbo").err(), Some("Unknown mode: turbo".to_string()));
}

#[test]
fn touchid_codes_and_setting() {
    assert!(touchid_outcome(Some(0)).is_ok());
    assert_eq!(touchid_outcome(Some(2)), Err("Touch ID non disponible sur cet appareil".to_string()));
    assert_eq!(touchid_outcome(Some(1)), Err("Authentification refusée ou annulée".to_string()));
    assert_eq!(touchid_outcome(None), Err("Authentification refusée ou annulée".to_string()));
    assert!(touchid_setting_on("enabled\n"));
    assert!(!touchid_setting_on("disabled"));
    assert_eq!(touchid_toggle_reason(true), "Activer la protection Touch ID de Burrow");
    assert_eq!(touchid_toggle_reason(false), "Désactiver la protection Touch ID de Burrow");
}

#[test]
fn launch_agent_escapes_the_executable() {
    let plist = launch_agent_plist("/Applications/A&B.app/Contents/MacOS/Burrow");
    assert!(plist.contains("<string>/Applications/A&amp;B.app/Contents/MacOS/Burrow</string>"));
    assert!(plist.starts_with("<?xml version=\"1.0\" encoding=\"UTF-8\"?>\n<!DOCTYPE plist"));
    assert!(plist.contains("<key>Label</key>\n\t<string>com.burrow.app</string>"));
    assert!(plist.ends_with("<string>Aqua</string>\n</dict>\n</plist>"));
}

#[test]
fn setup_command_writes_checked_sudoers() {
    let cmd = setup_command("alice", "/Apps/Burrow.app/Contents/Resources/burrow-smc", false);
    assert!(cmd.starts_with("/bin/mkdir -p /usr/local/lib && /bin/cp -f '/Apps/Burrow.app/Contents/Resources/burrow-smc' /usr/local/lib/burrow-smc && "));
    assert!(cmd.contains("alice ALL=(root) NOPASSWD: /usr/bin/pmset -a lowpowermode 0\\nalice ALL=(root) NOPASSWD: /usr/bin/pmset -a lowpowermode 1\\n"));
    assert!(cmd.contains("/usr/sbin/visudo -cf /etc/sudoers.d/.burrow-pmset.tmp && /bin/mv -f /etc/sudoers.d/.burrow-pmset.tmp /etc/sudoers.d/burrow-pmset"));
    assert!(!cmd.contains("mole-smc"));
    let with_mole = setup_command("alice", "/x", true);
    assert!(with_mole.contains("alice ALL=(root) NOPASSWD: /Applications/Mole.app/Contents/Helpers/mole-smc apply 1 60\\n' > "));
    assert!(with_mole.ends_with(" && /usr/bin/pmset -a lowpowermode 0"));
}

#[test]
fn fan_speed_from_powermetrics() {
    assert_eq!(fan_rpm("**** SMC sensors ****\nFan: 1834 rpm\n"), Some(1834));
    assert_eq!(fan_rpm("Fan: 0 rpm\nFAN speed 2200 RPM\n"), Some(2200));
    assert_eq!(fan_rpm("CPU die temperature: 50 C\n"), None);
    assert_eq!(fan_rpm("Fan: 99999999999 rpm\n"), None);
}

#[test]
fn netstat_counters_per_interface() {
    let out = "Name  Mtu   Network       Address            Ipkts Ierrs     Ibytes    Opkts Oerrs     Obytes  Coll\n\
lo0   16384 <Link#1>                         10     0       1000       10     0       2000     0\n\
lo0   16384 127           localhost          10     -       1000       10     -       2000     -\n\
en0   1500  <Link#6>    aa:bb:cc:dd:ee:ff  100     0      50000      80     0      30000     0\n\
en0   1500  <Link#6>    aa:bb:cc:dd:ee:ff  1       0        500       1     0        300     0\n";
    let counts = link_byte_counts(out);
    assert_eq!(counts, vec![("lo0".to_string(), 10, 0), ("en0".to_string(), 50500, 30300)]);
    assert!(link_byte_counts("").is_empty());
}

#[test]
fn activity_reservation_is_atomic_and_released_on_drop() {
    let flag = Box::leak(Box::new(std::sync::atomic::AtomicBool::new(false)));
    let first = burrow::slot::ActivityGuard::try_acquire(flag).expect("first reservation");
    assert!(burrow::slot::ActivityGuard::try_acquire(flag).is_none());
    drop(first);
    assert!(burrow::slot::ActivityGuard::try_acquire(flag).is_some());
}

#[test]
fn battery_from_ioreg() {
    let xml = "<dict>\n\t<key>CurrentCapacity</key>\n\t<integer>45</integer>\n\t<key>CycleCount</key>\n\t<integer>312</integer>\n\t<key>DesignCapacity</key>\n\t<integer>5000</integer>\n\t<key>IsCharging</key>\n\t<true/>\n\t<key>MaxCapacity</key>\n\t<integer>90</integer>\n</dict>";
    let b = burrow::status::battery_info(xml);
    assert_eq!(b.percent, 50);
    assert_eq!(b.status, "En charge");
    assert_eq!(b.cycles, 312);
    assert_eq!(b.capacity, 1);
    assert_eq!(burrow::status::ioreg_int(xml, "Missing"), 0);
    let empty = burrow::status::battery_info("");
    assert_eq!((empty.percent, empty.status.as_str(), empty.capacity), (0, "Déchargement", 0));
}

#[test]
fn numbers_parse_like_i64() {
    assert_eq!(burrow::status::parse_i64("-42"), Some(-42));
    assert_eq!(burrow::status::parse_i64("+7"), Some(7));
    assert_eq!(burrow::status::parse_i64("-9223372036854775808"), Some(i64::MIN));
    assert_eq!(burrow::status::parse_i64("9223372036854775808"), None);
    assert_eq!(burrow::status::parse_i64("-+1"), None);
    assert_eq!(burrow::status::parse_i64("-"), None);
}

#[test]
fn proxy_from_scutil() {
    let out = "<dictionary> {\n  HTTPEnable : 1\n  HTTPPort : 8080\n  HTTPProxy : proxy.local\n  SOCKSEnable : 0\n}\n";
    assert_eq!(burrow::status::proxy_info(out), (true, "HTTP".to_string(), "proxy.local".to_string()));
    let none = burrow::status::proxy_info("<dictionary> {\n  HTTPEnable : 0\n}\n");
    assert_eq!(none, (false, String::new(), String::new()));
}

#[test]
fn interfaces_from_ifconfig() {
    let out = "lo0: flags=8049<UP,LOOPBACK>\n\tinet 127.0.0.1 netmask 0xff000000\nen0: flags=8863<UP>\n\tinet6 fe80::1%en0 prefixlen 64\n\tinet 192.168.1.20 netmask 0xffffff00 broadcast 192.168.1.255\nen1: flags=8863<UP>\n\tstatus: inactive\n";
    assert_eq!(burrow::status::network_interfaces(out), vec![("en0".to_string(), "192.168.1.20".to_string())]);
}

#[test]
fn soc_tables_fall_back_when_empty() {
    let mut pcpu = Vec::new();
    for f in [600u32, 0, 3228, 12000] {
        pcpu.extend_from_slice(&f.to_le_bytes());
        pcpu.extend_from_slice(&[0, 0, 0, 0]);
    }
    let s = burrow::sensors::SocInfo::from_registry(&[1, 2, 3], &pcpu, &[], Some(6), None, Some(10));
    assert_eq!(s.ecpu_freqs, vec![600, 972, 1332, 1704, 2064]);
    assert_eq!(s.pcpu_freqs, vec![600, 3228]);
    assert_eq!(s.gpu_freqs, vec![396, 528, 720, 912, 1080, 1296]);
    assert_eq!((s.ecpu_cores, s.pcpu_cores, s.gpu_cores), (6, 4, 10));
}

#[test]
fn disk_alerts_announce_each_level_once() {
    assert_eq!(disk_alert_step(0, 85), (80, DiskAlert::Above80));
    assert_eq!(disk_alert_step(80, 86), (80, DiskAlert::Quiet));
    assert_eq!(disk_alert_step(80, 92), (90, DiskAlert::Above90));
    assert_eq!(disk_alert_step(90, 85), (90, DiskAlert::Quiet));
    assert_eq!(disk_alert_step(90, 70), (0, DiskAlert::Quiet));
    assert_eq!(disk_alert_step(0, 95), (90, DiskAlert::Above90));
    assert_eq!(disk_alert_text(DiskAlert::Above80), Some("Votre disque est rempli à 80 %."));
    assert_eq!(disk_alert_text(DiskAlert::Quiet), None);
}

#[test]
fn disk_samples_daily_for_ninety_days() {
    let day = 86400u64;
    let now = 200 * day;
    let old = DiskSample { ts: now - 95 * day, used: 1, total: 10 };
    let recent = DiskSample { ts: now - 2 * day, used: 2, total: 10 };
    let r = record_disk_sample(vec![old, recent], now, 3, 10).expect("due");
    assert_eq!(r, vec![recent, DiskSample { ts: now, used: 3, total: 10 }]);
    let fresh = DiskSample { ts: now - 3600, used: 2, total: 10 };
    assert_eq!(record_disk_sample(vec![fresh], now, 3, 10), None);
    assert_eq!(record_disk_sample(vec![], now, 3, 10).map(|v| v.len()), Some(1));
}
