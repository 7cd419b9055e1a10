//! Maintenance tasks: what each task the interface offers runs, and which
//! of its commands need an administrator.
use vstd::prelude::*;
use crate::text::{owned, push_str, str_eq};

verus! {

/// One command of a maintenance task.
pub enum MaintenanceStep {
    /// A shell command run as administrator.
    Admin(String),
    /// A program run with these arguments, as the user.
    Run(String, Vec<String>),
}

/// A maintenance task: its label and its commands, all run in order; the
/// task succeeds when every command does.
pub struct MaintenanceTask {
    pub label: String,
    pub steps: Vec<MaintenanceStep>,
}

/// What a step runs: `(as administrator, command or program, arguments)`.
pub open spec fn step_view(s: MaintenanceStep) -> (bool, Seq<char>, Seq<Seq<char>>) {
    match s {
        MaintenanceStep::Admin(c) => (true, c@, seq![]),
        MaintenanceStep::Run(p, a) => (false, p@, a.deep_view()),
    }
}

/// The label of a maintenance task.
pub open spec fn task_label(id: Seq<char>) -> Option<Seq<char>> {
    if id == "dns"@ {
        Some("Cache DNS"@)
    } else if id == "spotlight"@ {
        Some("Spotlight"@)
    } else if id == "finder"@ {
        Some("Finder"@)
    } else if id == "dock"@ {
        Some("Dock"@)
    } else if id == "swap"@ {
        Some("Mémoire swap"@)
    } else if id == "launchpad"@ {
        Some("Launchpad"@)
    } else if id == "periodic"@ {
        Some("Scripts périodiques"@)
    } else if id == "diskutil_verify"@ {
        Some("Vérification disque"@)
    } else if id == "launch_services"@ {
        Some("Base de données apps"@)
    } else {
        None
    }
}

/// Where `lsregister` is.
pub open spec fn lsregister() -> Seq<char> {
    "/System/Library/Frameworks/CoreServices.framework/Frameworks/LaunchServices.framework/Support/lsregister"@
}

/// The commands of a maintenance task.
pub open spec fn task_steps(id: Seq<char>) -> Seq<(bool, Seq<char>, Seq<Seq<char>>)> {
    if id == "dns"@ {
        seq![(true, "/usr/bin/dscacheutil -flushcache; /usr/bin/killall -HUP mDNSResponder"@, seq![])]
    } else if id == "spotlight"@ {
        seq![(true, "/usr/bin/mdutil -E /"@, seq![])]
    } else if id == "finder"@ {
        seq![(false, "/usr/bin/killall"@, seq!["Finder"@])]
    } else if id == "dock"@ {
        seq![(false, "/usr/bin/killall"@, seq!["Dock"@])]
    } else if id == "swap"@ {
        seq![(true, "/usr/bin/purge"@, seq![])]
    } else if id == "launchpad"@ {
        seq![
            (false, "/usr/bin/defaults"@, seq!["write"@, "com.apple.dock"@, "ResetLaunchPad"@, "-bool"@, "true"@]),
            (false, "/usr/bin/killall"@, seq!["Dock"@]),
        ]
    } else if id == "periodic"@ {
        seq![(true, "/usr/sbin/periodic daily weekly monthly"@, seq![])]
    } else if id == "diskutil_verify"@ {
        seq![(false, "/usr/sbin/diskutil"@, seq!["verifyVolume"@, "/"@])]
    } else if id == "launch_services"@ {
        seq![
            (false, lsregister(), seq!["-kill"@, "-r"@, "-domain"@, "local"@, "-domain"@, "system"@, "-domain"@, "user"@]),
        ]
    } else {
        seq![]
    }
}

fn admin(script: &str) -> (s: MaintenanceStep)
    ensures
        step_view(s) == (true, script@, Seq::<Seq<char>>::empty()),
{
    MaintenanceStep::Admin(owned(script))
}

fn run(program: &str, args: Vec<&str>) -> (s: MaintenanceStep)
    ensures
        step_view(s) == (false, program@, args@.map_values(|a: &str| a@)),
{
    let mut out: Vec<String> = Vec::new();
    let mut i: usize = 0;
    while i < args.len()
        invariant
            i <= args@.len(),
            out.deep_view() == args@.map_values(|a: &str| a@).take(i as int),
        decreases args@.len() - i,
    {
        let ghost before = out.deep_view();
        out.push(owned(args[i]));
        assert(out.deep_view() =~= before.push(args@[i as int]@));
        assert(args@.map_values(|a: &str| a@).take(i + 1) =~= args@.map_values(|a: &str| a@).take(i as int).push(
            args@[i as int]@,
        ));
        i += 1;
    }
    assert(args@.map_values(|a: &str| a@).take(i as int) =~= args@.map_values(|a: &str| a@));
    MaintenanceStep::Run(owned(program), out)
}

fn task(label: &str, steps: Vec<MaintenanceStep>) -> (t: Option<MaintenanceTask>)
    ensures
        t matches Some(x) && x.label@ == label@ && x.steps@ == steps@,
{
    Some(MaintenanceTask { label: owned(label), steps })
}

/// The maintenance task `id`, or nothing for an unknown one.
pub fn maintenance_task(id: &str) -> (r: Option<MaintenanceTask>)
    ensures
        match task_label(id@) {
            None => r is None,
            Some(label) => r matches Some(t) && t.label@ == label && t.steps@.map_values(
                |s: MaintenanceStep| step_view(s),
            ) == task_steps(id@),
        },
{
    if str_eq(id, "dns") {
        let steps = vec![admin("/usr/bin/dscacheutil -flushcache; /usr/bin/killall -HUP mDNSResponder")];
        assert(steps@.map_values(|s: MaintenanceStep| step_view(s)) =~~= task_steps(id@));
        task("Cache DNS", steps)
    } else if str_eq(id, "spotlight") {
        let steps = vec![admin("/usr/bin/mdutil -E /")];
        assert(steps@.map_values(|s: MaintenanceStep| step_view(s)) =~~= task_steps(id@));
        task("Spotlight", steps)
    } else if str_eq(id, "finder") {
        let steps = vec![run("/usr/bin/killall", vec!["Finder"])];
        assert(steps@.map_values(|s: MaintenanceStep| step_view(s)) =~~= task_steps(id@));
        task("Finder", steps)
    } else if str_eq(id, "dock") {
        let steps = vec![run("/usr/bin/killall", vec!["Dock"])];
        assert(steps@.map_values(|s: MaintenanceStep| step_view(s)) =~~= task_steps(id@));
        task("Dock", steps)
    } else if str_eq(id, "swap") {
        let steps = vec![admin("/usr/bin/purge")];
        assert(steps@.map_values(|s: MaintenanceStep| step_view(s)) =~~= task_steps(id@));
        task("Mémoire swap", steps)
    } else if str_eq(id, "launchpad") {
        let steps = vec![
            run("/usr/bin/defaults", vec!["write", "com.apple.dock", "ResetLaunchPad", "-bool", "true"]),
            run("/usr/bin/killall", vec!["Dock"]),
        ];
        assert(steps@.map_values(|s: MaintenanceStep| step_view(s)) =~~= task_steps(id@));
        task("Launchpad", steps)
    } else if str_eq(id, "periodic") {
        let steps = vec![admin("/usr/sbin/periodic daily weekly monthly")];
        assert(steps@.map_values(|s: MaintenanceStep| step_view(s)) =~~= task_steps(id@));
        task("Scripts périodiques", steps)
    } else if str_eq(id, "diskutil_verify") {
        let steps = vec![run("/usr/sbin/diskutil", vec!["verifyVolume", "/"])];
        assert(steps@.map_values(|s: MaintenanceStep| step_view(s)) =~~= task_steps(id@));
        task("Vérification disque", steps)
    } else if str_eq(id, "launch_services") {
        let steps = vec![
            run(
                "/System/Library/Frameworks/CoreServices.framework/Frameworks/LaunchServices.framework/Support/lsregister",
                vec!["-kill", "-r", "-domain", "local", "-domain", "system", "-domain", "user"],
            ),
        ];
        assert(steps@.map_values(|s: MaintenanceStep| step_view(s)) =~~= task_steps(id@));
        task("Base de données apps", steps)
    } else {
        None
    }
}

} // verus!
