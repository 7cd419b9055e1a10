//! System settings the application changes: low power mode and fan
//! control, the Touch ID guard, launching at login, and the one-time
//! administrator setup that lets it do so without a password.
use vstd::prelude::*;
use crate::dns::{xml_escape, xml_escaped};
use crate::guard::posix_shell_quote;
use crate::network::{split_words, words};
use crate::staging::quoted;
use crate::text::{chars_of, join_first, join_with, lines_of, owned, push_str, str_eq, str_lines, trim, trim_bounds, string_of_range};

verus! {

// ── Low power mode ──────────────────────────────────────────────────────────

/// Whether `pmset -g` reports low power mode on: a line whose first two
/// words are `lowpowermode` and `1`.
pub open spec fn low_power_on(output: Seq<char>) -> bool {
    exists|k: int| 0 <= k < str_lines(output).len() && {
        let w = #[trigger] words(str_lines(output)[k]);
        w.len() >= 2 && w[0] == "lowpowermode"@ && w[1] == "1"@
    }
}

/// Whether `pmset -g` reports low power mode on.
pub fn low_power_enabled(output: &str) -> (r: bool)
    ensures
        r == low_power_on(output@),
{
    let ls = lines_of(output);
    let ghost lv = ls.deep_view();
    let mut k: usize = 0;
    while k < ls.len()
        invariant
            lv == ls.deep_view(),
            lv == str_lines(output@),
            k <= lv.len(),
            forall|j: int| 0 <= j < k ==> {
                let w = #[trigger] words(lv[j]);
                !(w.len() >= 2 && w[0] == "lowpowermode"@ && w[1] == "1"@)
            },
        decreases lv.len() - k,
    {
        let w = split_words(ls[k].as_str());
        assert(ls@[k as int]@ == lv[k as int]);
        let ghost wv = w.deep_view();
        assert(wv == words(lv[k as int]));
        if w.len() >= 2 && str_eq(w[0].as_str(), "lowpowermode") && str_eq(w[1].as_str(), "1") {
            assert(wv[0] == w@[0]@ && wv[1] == w@[1]@);
            return true;
        }
        proof {
            if wv.len() >= 2 {
                assert(wv[0] == w@[0]@ && wv[1] == w@[1]@);
            }
        }
        k += 1;
    }
    false
}

/// A power setting written with `pmset -a`.
#[derive(Clone, Copy)]
pub enum PowerSetting {
    /// Low power mode on or off.
    LowPower(bool),
    /// Low power mode off, and neither the disks nor the machine sleeping.
    CoolingNoSleep,
}

/// The `pmset` arguments of a setting.
pub open spec fn power_args(s: PowerSetting) -> Seq<Seq<char>> {
    match s {
        PowerSetting::LowPower(true) => seq!["-a"@, "lowpowermode"@, "1"@],
        PowerSetting::LowPower(false) => seq!["-a"@, "lowpowermode"@, "0"@],
        PowerSetting::CoolingNoSleep => seq!["-a"@, "lowpowermode"@, "0"@, "disksleep"@, "0"@, "sleep"@, "0"@],
    }
}

/// The `pmset` arguments of a setting.
pub fn pmset_args(s: PowerSetting) -> (r: Vec<String>)
    ensures
        r.deep_view() == power_args(s),
{
    let r = match s {
        PowerSetting::LowPower(true) => vec![owned("-a"), owned("lowpowermode"), owned("1")],
        PowerSetting::LowPower(false) => vec![owned("-a"), owned("lowpowermode"), owned("0")],
        PowerSetting::CoolingNoSleep => vec![
            owned("-a"),
            owned("lowpowermode"),
            owned("0"),
            owned("disksleep"),
            owned("0"),
            owned("sleep"),
            owned("0"),
        ],
    };
    assert(r.deep_view() =~= power_args(s));
    r
}

/// The administrator command that applies `pmset` arguments.
pub open spec fn pmset_command_of(args: Seq<Seq<char>>) -> Seq<char> {
    "/usr/bin/pmset "@ + join_with(args, " "@)
}

/// The administrator command that applies `pmset` arguments.
pub fn pmset_admin_command(args: &Vec<String>) -> (r: String)
    ensures
        r@ == pmset_command_of(args.deep_view()),
{
    let mut r = owned("/usr/bin/pmset ");
    let joined = join_first(args, args.len(), " ");
    assert(args.deep_view().take(args@.len() as int) =~= args.deep_view());
    push_str(&mut r, joined.as_str());
    r
}

// ── Fans ────────────────────────────────────────────────────────────────────

/// A step of a fan mode change.
#[derive(Clone, Copy)]
pub enum FanStep {
    /// Ask the fan helper for `mode` at `percent`; when `required`, the
    /// change fails if no helper could do it.
    Smc { mode: u8, percent: u8, required: bool },
    /// Apply a power setting.
    Pmset(PowerSetting),
}

/// The steps of each fan mode: `silent` and `auto` hand the fans back to the
/// system, then turn low power mode on or off; `cool` keeps the machine
/// awake at full power, then forces the fans to sixty percent.
pub open spec fn fan_plan(mode: Seq<char>) -> Option<Seq<FanStep>> {
    if mode == "silent"@ {
        Some(seq![FanStep::Smc { mode: 0, percent: 0, required: false }, FanStep::Pmset(PowerSetting::LowPower(true))])
    } else if mode == "auto"@ {
        Some(seq![FanStep::Smc { mode: 0, percent: 0, required: false }, FanStep::Pmset(PowerSetting::LowPower(false))])
    } else if mode == "cool"@ {
        Some(seq![FanStep::Pmset(PowerSetting::CoolingNoSleep), FanStep::Smc { mode: 1, percent: 60, required: true }])
    } else {
        None
    }
}

/// The steps of a fan mode, or why the mode is unknown.
pub fn fan_steps(mode: &str) -> (r: Result<Vec<FanStep>, String>)
    ensures
        match fan_plan(mode@) {
            Some(p) => r matches Ok(v) && v@ == p,
            None => r matches Err(m) && m@ == "Unknown mode: "@ + mode@,
        },
{
    if str_eq(mode, "silent") {
        let v = vec![FanStep::Smc { mode: 0, percent: 0, required: false }, FanStep::Pmset(PowerSetting::LowPower(true))];
        assert(v@ =~= fan_plan(mode@).unwrap());
        Ok(v)
    } else if str_eq(mode, "auto") {
        let v = vec![FanStep::Smc { mode: 0, percent: 0, required: false }, FanStep::Pmset(PowerSetting::LowPower(false))];
        assert(v@ =~= fan_plan(mode@).unwrap());
        Ok(v)
    } else if str_eq(mode, "cool") {
        let v = vec![FanStep::Pmset(PowerSetting::CoolingNoSleep), FanStep::Smc { mode: 1, percent: 60, required: true }];
        assert(v@ =~= fan_plan(mode@).unwrap());
        Ok(v)
    } else {
        let mut m = owned("Unknown mode: ");
        push_str(&mut m, mode);
        Err(m)
    }
}

// ── Touch ID ────────────────────────────────────────────────────────────────

/// What the Touch ID helper's exit code means: `0` authenticated, `2` no
/// Touch ID on this machine, anything else refused or cancelled.
pub open spec fn touchid_result(code: Option<i32>) -> Result<(), Seq<char>> {
    match code {
        Some(0) => Ok(()),
        Some(2) => Err("Touch ID non disponible sur cet appareil"@),
        _ => Err("Authentification refusée ou annulée"@),
    }
}

/// What the Touch ID helper's exit code means.
pub fn touchid_outcome(code: Option<i32>) -> (r: Result<(), String>)
    ensures
        match touchid_result(code) {
            Ok(()) => r is Ok,
            Err(e) => r matches Err(m) && m@ == e,
        },
{
    match code {
        Some(0) => Ok(()),
        Some(2) => Err(owned("Touch ID non disponible sur cet appareil")),
        _ => Err(owned("Authentification refusée ou annulée")),
    }
}

/// Whether the stored Touch ID setting turns the guard on: it reads
/// `enabled`, surrounding whitespace aside.
pub fn touchid_setting_on(content: &str) -> (r: bool)
    ensures
        r == (trim(content@) == "enabled"@),
{
    let v = chars_of(content);
    let (a, b) = trim_bounds(&v);
    let t = string_of_range(&v, a, b);
    str_eq(t.as_str(), "enabled")
}

/// The prompt shown when the Touch ID guard is turned on or off.
pub fn touchid_toggle_reason(enable: bool) -> (r: &'static str)
    ensures
        r@ == (if enable {
            "Activer la protection Touch ID de Burrow"@
        } else {
            "Désactiver la protection Touch ID de Burrow"@
        }),
{
    if enable {
        "Activer la protection Touch ID de Burrow"
    } else {
        "Désactiver la protection Touch ID de Burrow"
    }
}

// ── Launching at login ──────────────────────────────────────────────────────

/// The launch agent that starts the application at login, for the
/// executable at `exe` (escaped for XML): run at load, not kept alive,
/// only in the graphical session.
pub open spec fn launch_agent_text(exe: Seq<char>) -> Seq<char> {
    "<?xml version=\"1.0\" encoding=\"UTF-8\"?>\n<!DOCTYPE plist PUBLIC \"-//Apple//DTD PLIST 1.0//EN\" \"http://www.apple.com/DTDs/PropertyList-1.0.dtd\">\n<plist version=\"1.0\">\n<dict>\n\t<key>Label</key>\n\t<string>com.burrow.app</string>\n\t<key>ProgramArguments</key>\n\t<array>\n\t\t<string>"@
        + xml_escaped(exe)
        + "</string>\n\t</array>\n\t<key>RunAtLoad</key>\n\t<true/>\n\t<key>KeepAlive</key>\n\t<false/>\n\t<key>LimitLoadToSessionType</key>\n\t<string>Aqua</string>\n</dict>\n</plist>"@
}

/// The launch agent that starts the application at login.
pub fn launch_agent_plist(exe: &str) -> (r: String)
    ensures
        r@ == launch_agent_text(exe@),
{
    let mut r = owned(
        "<?xml version=\"1.0\" encoding=\"UTF-8\"?>\n<!DOCTYPE plist PUBLIC \"-//Apple//DTD PLIST 1.0//EN\" \"http://www.apple.com/DTDs/PropertyList-1.0.dtd\">\n<plist version=\"1.0\">\n<dict>\n\t<key>Label</key>\n\t<string>com.burrow.app</string>\n\t<key>ProgramArguments</key>\n\t<array>\n\t\t<string>",
    );
    let escaped = xml_escape(exe);
    push_str(&mut r, escaped.as_str());
    push_str(
        &mut r,
        "</string>\n\t</array>\n\t<key>RunAtLoad</key>\n\t<true/>\n\t<key>KeepAlive</key>\n\t<false/>\n\t<key>LimitLoadToSessionType</key>\n\t<string>Aqua</string>\n</dict>\n</plist>",
    );
    r
}

// ── Administrator setup ─────────────────────────────────────────────────────

/// Where the fan helper is installed.
pub const SMC_HELPER: &'static str = "/usr/local/lib/burrow-smc";

/// The sudoers file that lets the user run the power and fan commands.
pub const SUDOERS_FILE: &'static str = "/etc/sudoers.d/burrow-pmset";

/// Mole's own fan helper, allowed too when it is installed.
pub const MOLE_SMC_HELPER: &'static str = "/Applications/Mole.app/Contents/Helpers/mole-smc";

/// The sudoers lines allowing Mole's fan helper for `user`.
pub open spec fn mole_rules(user: Seq<char>) -> Seq<char> {
    user + " ALL=(root) NOPASSWD: "@ + MOLE_SMC_HELPER@ + " apply 0 0\\n"@ + user + " ALL=(root) NOPASSWD: "@
        + MOLE_SMC_HELPER@ + " apply 1 60\\n"@
}

/// The one-time setup run as administrator: install the bundled fan helper
/// (at `bundled`) in its fixed place, write the sudoers rules for `user`
/// to a temporary file, check it with `visudo`, move it into place, and
/// turn low power mode off. Mole's helper is allowed when `with_mole`.
pub open spec fn setup_command_of(user: Seq<char>, bundled: Seq<char>, with_mole: bool) -> Seq<char> {
    let smc = SMC_HELPER@;
    let tmp = "/etc/sudoers.d/.burrow-pmset.tmp"@;
    let rule = user + " ALL=(root) NOPASSWD: "@;
    "/bin/mkdir -p /usr/local/lib && /bin/cp -f "@ + quoted(bundled) + " "@ + smc + " && /bin/chmod 755 "@ + smc
        + " && /bin/rm -f "@ + tmp + " && /usr/bin/printf '"@
        + rule + "/usr/bin/pmset -a lowpowermode 0\\n"@
        + rule + "/usr/bin/pmset -a lowpowermode 1\\n"@
        + rule + "/usr/bin/pmset -a lowpowermode 0 disksleep 0 sleep 0\\n"@
        + rule + "/usr/bin/powermetrics -n 1 -i 200 --samplers smc\\n"@
        + rule + smc + " apply 0 0\\n"@
        + rule + smc + " apply 1 60\\n"@
        + (if with_mole { mole_rules(user) } else { seq![] })
        + "' > "@ + tmp + " && /bin/chmod 440 "@ + tmp + " && /usr/sbin/visudo -cf "@ + tmp + " && /bin/mv -f "@ + tmp
        + " "@ + SUDOERS_FILE@ + " && /usr/bin/pmset -a lowpowermode 0"@
}

/// The one-time administrator setup command.
pub fn setup_command(user: &str, bundled: &str, with_mole: bool) -> (r: String)
    ensures
        r@ == setup_command_of(user@, bundled@, with_mole),
{
    let tmp = "/etc/sudoers.d/.burrow-pmset.tmp";
    let mut r = owned("/bin/mkdir -p /usr/local/lib && /bin/cp -f ");
    let q = posix_shell_quote(bundled);
    push_str(&mut r, q.as_str());
    push_str(&mut r, " ");
    push_str(&mut r, SMC_HELPER);
    push_str(&mut r, " && /bin/chmod 755 ");
    push_str(&mut r, SMC_HELPER);
    push_str(&mut r, " && /bin/rm -f ");
    push_str(&mut r, tmp);
    push_str(&mut r, " && /usr/bin/printf '");
    let mut rule = owned(user);
    push_str(&mut rule, " ALL=(root) NOPASSWD: ");
    push_str(&mut r, rule.as_str());
    push_str(&mut r, "/usr/bin/pmset -a lowpowermode 0\\n");
    push_str(&mut r, rule.as_str());
    push_str(&mut r, "/usr/bin/pmset -a lowpowermode 1\\n");
    push_str(&mut r, rule.as_str());
    push_str(&mut r, "/usr/bin/pmset -a lowpowermode 0 disksleep 0 sleep 0\\n");
    push_str(&mut r, rule.as_str());
    push_str(&mut r, "/usr/bin/powermetrics -n 1 -i 200 --samplers smc\\n");
    push_str(&mut r, rule.as_str());
    push_str(&mut r, SMC_HELPER);
    push_str(&mut r, " apply 0 0\\n");
    push_str(&mut r, rule.as_str());
    push_str(&mut r, SMC_HELPER);
    push_str(&mut r, " apply 1 60\\n");
    let ghost before_mole = r@;
    if with_mole {
        push_str(&mut r, user);
        push_str(&mut r, " ALL=(root) NOPASSWD: ");
        push_str(&mut r, MOLE_SMC_HELPER);
        push_str(&mut r, " apply 0 0\\n");
        push_str(&mut r, user);
        push_str(&mut r, " ALL=(root) NOPASSWD: ");
        push_str(&mut r, MOLE_SMC_HELPER);
        push_str(&mut r, " apply 1 60\\n");
        assert(r@ =~= before_mole + mole_rules(user@));
    } else {
        assert(r@ =~= before_mole + Seq::<char>::empty());
    }
    push_str(&mut r, "' > ");
    push_str(&mut r, tmp);
    push_str(&mut r, " && /bin/chmod 440 ");
    push_str(&mut r, tmp);
    push_str(&mut r, " && /usr/sbin/visudo -cf ");
    push_str(&mut r, tmp);
    push_str(&mut r, " && /bin/mv -f ");
    push_str(&mut r, tmp);
    push_str(&mut r, " ");
    push_str(&mut r, SUDOERS_FILE);
    push_str(&mut r, " && /usr/bin/pmset -a lowpowermode 0");
    r
}

} // verus!
