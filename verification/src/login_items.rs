//! Login items and launch agents: what a property list's launch fields say,
//! which programs are missing, which command lines look suspicious, and the
//! order in which the findings are shown.
use vstd::prelude::*;
use crate::order::{items_of, largest_first, sort_largest_first, into_items};
use crate::paths::{file_stem_of, stem_or_empty, has_extension, path_extension, path_comps};
use crate::text::{
    chars_of, contains_str, contains_text, has_prefix, push_str, starts_with_str, str_eq,
    string_of_range, trim, trim_bounds,
};

verus! {

/// A launch agent or daemon found on the system.
pub struct LoginItemEntry {
    pub name: String,
    pub plist_path: String,
    pub program: String,
    pub is_broken: bool,
    pub is_suspicious: bool,
    pub suspicious_reason: String,
    /// Under `/Library`: removing it needs an administrator.
    pub is_system: bool,
    pub can_delete: bool,
}

/// The value `PlistBuddy` printed for a field: its trimmed output, or
/// nothing when it reported an error (on its error stream, or as a message
/// in place of the value).
pub open spec fn plist_value(stdout: Seq<char>, stderr: Seq<char>) -> Seq<char> {
    let out = trim(stdout);
    if has_prefix(out, "Print:"@) || contains_text(out, "File Doesn't Exist"@) || contains_text(
        out,
        "Does Not Exist"@,
    ) || trim(stderr).len() > 0 {
        seq![]
    } else {
        out
    }
}

fn trimmed(s: &str) -> (r: String)
    ensures
        r@ == trim(s@),
{
    let v = chars_of(s);
    let (a, b) = trim_bounds(&v);
    string_of_range(&v, a, b)
}

/// The value of a property-list field from what `PlistBuddy` printed.
pub fn plist_field_value(stdout: &str, stderr: &str) -> (r: String)
    ensures
        r@ == plist_value(stdout@, stderr@),
{
    let out = trimmed(stdout);
    let err = trimmed(stderr);
    if starts_with_str(out.as_str(), "Print:") || contains_str(out.as_str(), "File Doesn't Exist")
        || contains_str(out.as_str(), "Does Not Exist") || err.as_str().unicode_len() > 0 {
        String::new()
    } else {
        out
    }
}

/// The program a launch item runs: its `Program` field, else the first of
/// its `ProgramArguments`.
pub open spec fn chosen_program(program_field: Seq<char>, first_argument: Seq<char>) -> Seq<char> {
    if program_field.len() == 0 {
        first_argument
    } else {
        program_field
    }
}

/// The program a launch item runs.
pub fn launch_program(program_field: &str, first_argument: &str) -> (r: String)
    ensures
        r@ == chosen_program(program_field@, first_argument@),
{
    let mut r = String::new();
    if program_field.unicode_len() == 0 {
        push_str(&mut r, first_argument);
    } else {
        push_str(&mut r, program_field);
    }
    r
}

/// A launch item is broken when it names a program that is not on disk;
/// `launchctl` itself always counts as present.
pub open spec fn is_broken_program(program: Seq<char>, exists: bool) -> bool {
    program.len() > 0 && program != "/bin/launchctl"@ && program != "/usr/bin/launchctl"@ && !exists
}

/// Command-line fragments that mark a launch item as suspicious, in the
/// order they are looked for.
pub open spec fn suspicious_patterns() -> Seq<Seq<char>> {
    seq![
        "/tmp/"@,
        "curl "@,
        "python -c"@,
        "python3 -c"@,
        "osascript"@,
        "base64"@,
        "eval "@,
        "bash -c"@,
        "sh -c"@,
        "wget "@,
    ]
}

/// The first pattern from `k` on that occurs in `text`.
pub open spec fn first_pattern_in(text: Seq<char>, pats: Seq<Seq<char>>, k: int) -> Option<int>
    decreases pats.len() - k,
{
    if k < 0 || k >= pats.len() {
        None
    } else if contains_text(text, pats[k]) {
        Some(k)
    } else {
        first_pattern_in(text, pats, k + 1)
    }
}

/// The text searched for suspicious fragments: the program, a space, and
/// the printed `ProgramArguments`.
pub open spec fn launch_text(program: Seq<char>, arguments: Seq<char>) -> Seq<char> {
    program + " "@ + arguments
}

/// Why a launch item is suspicious, when it is.
pub open spec fn suspicion_of(program: Seq<char>, arguments: Seq<char>) -> Option<Seq<char>> {
    match first_pattern_in(launch_text(program, arguments), suspicious_patterns(), 0) {
        Some(i) => Some("Contient «"@ + trim(suspicious_patterns()[i]) + "»"@),
        None => None,
    }
}

/// Why a launch item with this program and these arguments is suspicious.
pub fn suspicious_reason(program: &str, arguments: &str) -> (r: Option<String>)
    ensures
        match suspicion_of(program@, arguments@) {
            Some(why) => r is Some && r->0@ == why,
            None => r is None,
        },
{
    let mut text = String::new();
    push_str(&mut text, program);
    push_str(&mut text, " ");
    push_str(&mut text, arguments);
    let pats: Vec<&str> = vec![
        "/tmp/",
        "curl ",
        "python -c",
        "python3 -c",
        "osascript",
        "base64",
        "eval ",
        "bash -c",
        "sh -c",
        "wget ",
    ];
    let ghost all = suspicious_patterns();
    assert(pats@.map_values(|p: &str| p@) =~= all);
    let mut k: usize = 0;
    while k < pats.len()
        invariant
            k <= pats@.len(),
            pats@.map_values(|p: &str| p@) == all,
            all == suspicious_patterns(),
            text@ == launch_text(program@, arguments@),
            first_pattern_in(text@, all, 0) == first_pattern_in(text@, all, k as int),
        decreases pats@.len() - k,
    {
        let pat = pats[k];
        assert(pat@ == all[k as int]);
        if contains_str(text.as_str(), pat) {
            let mut why = String::new();
            push_str(&mut why, "Contient «");
            let t = trimmed(pat);
            push_str(&mut why, t.as_str());
            push_str(&mut why, "»");
            assert(first_pattern_in(text@, all, k as int) == Some(k as int));
            assert(why@ =~= "Contient «"@ + trim(all[k as int]) + "»"@);
            return Some(why);
        }
        k += 1;
    }
    None
}

/// Describes a launch item from its property list's location and fields.
/// `program_exists` says whether the program that `launch_program` chose is
/// on disk.
pub fn login_item_entry(
    plist_path: &str,
    is_system: bool,
    program_field: &str,
    first_argument: &str,
    arguments: &str,
    program_exists: bool,
) -> (e: LoginItemEntry)
    ensures
        e.name@ == stem_or_empty(plist_path@),
        e.plist_path@ == plist_path@,
        e.program@ == chosen_program(program_field@, first_argument@),
        e.is_broken == is_broken_program(e.program@, program_exists),
        e.is_suspicious == suspicion_of(e.program@, arguments@) is Some,
        e.suspicious_reason@ == match suspicion_of(e.program@, arguments@) {
            Some(why) => why,
            None => seq![],
        },
        e.is_system == is_system,
        e.can_delete,
{
    let program = launch_program(program_field, first_argument);
    let is_broken = program.as_str().unicode_len() > 0 && !str_eq(program.as_str(), "/bin/launchctl")
        && !str_eq(program.as_str(), "/usr/bin/launchctl") && !program_exists;
    let (is_suspicious, suspicious_reason) = match suspicious_reason(program.as_str(), arguments) {
        Some(why) => (true, why),
        None => (false, String::new()),
    };
    let mut path = String::new();
    push_str(&mut path, plist_path);
    LoginItemEntry {
        name: file_stem_of(plist_path),
        plist_path: path,
        program,
        is_broken,
        is_suspicious,
        suspicious_reason,
        is_system,
        can_delete: true,
    }
}

/// How prominently a launch item is listed: suspicious ones first, then
/// broken ones.
pub open spec fn login_rank(e: LoginItemEntry) -> u64 {
    if e.is_suspicious {
        if e.is_broken { 3 } else { 2 }
    } else {
        if e.is_broken { 1 } else { 0 }
    }
}

/// Launch items paired with their rank.
pub open spec fn ranked_items(s: Seq<LoginItemEntry>) -> Seq<(u64, LoginItemEntry)> {
    s.map_values(|e: LoginItemEntry| (login_rank(e), e))
}

/// Lists suspicious items first, then broken ones, keeping the order of
/// items that rank alike.
pub fn order_login_items(items: Vec<LoginItemEntry>) -> (r: Vec<LoginItemEntry>)
    ensures
        r@ == items_of(largest_first(ranked_items(items@))),
{
    let ghost input = items@;
    let mut rest = items;
    let n: usize = rest.len();
    let mut ranked: Vec<(u64, LoginItemEntry)> = Vec::new();
    let mut k: usize = 0;
    while rest.len() > 0
        invariant
            rest@ == input.skip(k as int),
            k <= input.len(),
            input.len() == n,
            ranked@ == ranked_items(input.take(k as int)),
        decreases rest@.len(),
    {
        let e = rest.remove(0);
        let rank: u64 = if e.is_suspicious {
            if e.is_broken { 3 } else { 2 }
        } else {
            if e.is_broken { 1 } else { 0 }
        };
        ranked.push((rank, e));
        proof {
            assert(input.skip(k as int).remove(0) =~= input.skip(k + 1));
            assert(ranked_items(input.take(k + 1)) =~= ranked_items(input.take(k as int)).push(
                (login_rank(e), e),
            ));
        }
        k += 1;
    }
    assert(input.take(k as int) =~= input);
    let sorted = sort_largest_first(ranked);
    into_items(sorted)
}

// ── Launch items that belong together ───────────────────────────────────────

/// Whether the launch item at `candidate` goes with the one at `plist_path`:
/// another `.plist` file whose stem starts with `prefix`, the bundle prefix
/// of the first.
pub open spec fn related_item(plist_path: Seq<char>, prefix: Seq<char>, candidate: Seq<char>) -> bool {
    &&& path_extension(path_comps(candidate)) == Some("plist"@)
    &&& candidate != plist_path
    &&& has_prefix(stem_or_empty(candidate), prefix)
}

/// Whether the launch item at `candidate` goes with the one at `plist_path`.
pub fn related_launch_item(plist_path: &str, prefix: &str, candidate: &str) -> (r: bool)
    ensures
        r == related_item(plist_path@, prefix@, candidate@),
{
    if !has_extension(candidate, "plist") || str_eq(candidate, plist_path) {
        return false;
    }
    let stem = file_stem_of(candidate);
    starts_with_str(stem.as_str(), prefix)
}

/// Whether unloading a launch item takes administrator rights: `launchctl`
/// failed as the user and the item lies outside the user's home (`path` does
/// not start with `home`).
pub fn unload_needs_admin(unloaded: bool, path: &str, home: &str) -> (r: bool)
    ensures
        r == (!unloaded && !has_prefix(path@, home@)),
{
    !unloaded && !starts_with_str(path, home)
}


} // verus!
