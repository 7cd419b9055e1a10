//! Guards for the destructive commands reachable from the user interface.
//!
//! Every input is treated as hostile and checked here before it reaches a
//! system command. Paths are compared component by component, as Unix path
//! semantics require; the user's home directory is passed in explicitly.
use vstd::prelude::*;
use crate::paths::{
    PathParts, abs_path, comps_start_with, has_root, path_comps, root_comp, starts_abs1,
    starts_abs2, is_root_path, is_abs1, is_abs2, starts_under1, starts_under2, starts_under3,
    starts_under4, is_under1, file_name, path_extension,
};
use crate::roots::{is_sorted_set_of, sorted_unique};
use crate::text::{
    is_blank, is_whitespace, is_ws, contains_char, chars_of, lowercase, to_lowercase, str_eq,
    string_of_range, byte_len, first_index, lemma_first_index, char_debug, str_debug,
    debug_char, debug_str, all_whitespace, trim, trim_bounds, byte_len_of, is_ascii_alnum,
    split_scan, split_on, lemma_byte_len_ge_len, lemma_byte_len_push, has_at, push_char,
    char_width, push_str, is_ctrl, is_control, is_ascii_char, ascii_lower,
};

verus! {

/// The abstract value of a `Result<String, String>`.
pub open spec fn res_view(r: Result<String, String>) -> Result<Seq<char>, Seq<char>> {
    match r {
        Ok(s) => Ok(s@),
        Err(e) => Err(e@),
    }
}

/// The abstract value of a `Result<(), String>`.
pub open spec fn unit_view(r: Result<(), String>) -> Result<(), Seq<char>> {
    match r {
        Ok(()) => Ok(()),
        Err(e) => Err(e@),
    }
}

// ── Zones ────────────────────────────────────────────────────────────────────

/// System locations: everything below them is off limits.
pub open spec fn under_forbidden_prefix(c: Seq<Seq<char>>) -> bool {
    ||| comps_start_with(c, abs_path(seq!["System"@]))
    ||| comps_start_with(c, abs_path(seq!["Library"@]))
    ||| comps_start_with(c, abs_path(seq!["usr"@]))
    ||| comps_start_with(c, abs_path(seq!["bin"@]))
    ||| comps_start_with(c, abs_path(seq!["sbin"@]))
    ||| comps_start_with(c, abs_path(seq!["etc"@]))
    ||| comps_start_with(c, abs_path(seq!["var"@]))
    ||| comps_start_with(c, abs_path(seq!["opt"@]))
    ||| comps_start_with(c, abs_path(seq!["dev"@]))
    ||| comps_start_with(c, abs_path(seq!["cores"@]))
    ||| comps_start_with(c, abs_path(seq!["private"@, "etc"@]))
    ||| comps_start_with(c, abs_path(seq!["private"@, "var"@]))
}

/// Sensitive home sub-trees: every descendant is off limits too.
pub open spec fn under_sensitive_subtree(c: Seq<Seq<char>>, h: Seq<Seq<char>>) -> bool {
    ||| comps_start_with(c, h + seq![".ssh"@])
    ||| comps_start_with(c, h + seq![".gnupg"@])
    ||| comps_start_with(c, h + seq![".aws"@])
    ||| comps_start_with(c, h + seq![".kube"@])
    ||| comps_start_with(c, h + seq![".config"@, "1Password"@])
    ||| comps_start_with(c, h + seq!["Library"@, "Keychains"@])
    ||| comps_start_with(c, h + seq!["Library"@, "Application Support"@, "1Password"@])
    ||| comps_start_with(c, h + seq!["Library"@, "Application Support"@, "com.apple.TCC"@])
}

/// Roots of important folders: the folders themselves are protected.
pub open spec fn protected_exact(c: Seq<Seq<char>>, h: Seq<Seq<char>>) -> bool {
    ||| c == abs_path(seq![])
    ||| c == abs_path(seq!["Users"@])
    ||| c == abs_path(seq!["Users"@, "Shared"@])
    ||| c == abs_path(seq!["Applications"@])
    ||| c == abs_path(seq!["Volumes"@])
    ||| c == abs_path(seq!["tmp"@])
    ||| c == abs_path(seq!["private"@, "tmp"@])
    ||| c == h
    ||| c == h + seq!["Library"@]
    ||| c == h + seq!["Documents"@]
    ||| c == h + seq!["Desktop"@]
    ||| c == h + seq!["Downloads"@]
    ||| c == h + seq!["Pictures"@]
    ||| c == h + seq!["Movies"@]
    ||| c == h + seq!["Music"@]
    ||| c == h + seq!["Applications"@]
    ||| c == h + seq![".Trash"@]
    ||| c == h + seq![".ssh"@]
    ||| c == h + seq![".config"@]
}

/// The zone that destructive operations never touch.
pub open spec fn forbidden_zone(c: Seq<Seq<char>>, h: Seq<Seq<char>>) -> bool {
    under_forbidden_prefix(c) || protected_exact(c, h) || under_sensitive_subtree(c, h)
}

/// The zone that read-only operations (browsing, scanning) never touch.
pub open spec fn readonly_forbidden(c: Seq<Seq<char>>, h: Seq<Seq<char>>) -> bool {
    under_forbidden_prefix(c) || under_sensitive_subtree(c, h)
}

fn under_forbidden_prefix_exec(p: &PathParts) -> (r: bool)
    requires
        p.wf(),
    ensures
        r == under_forbidden_prefix(p.comps()),
{
    starts_abs1(p, "System") || starts_abs1(p, "Library") || starts_abs1(p, "usr")
        || starts_abs1(p, "bin") || starts_abs1(p, "sbin") || starts_abs1(p, "etc")
        || starts_abs1(p, "var") || starts_abs1(p, "opt") || starts_abs1(p, "dev")
        || starts_abs1(p, "cores") || starts_abs2(p, "private", "etc")
        || starts_abs2(p, "private", "var")
}

fn under_sensitive_subtree_exec(p: &PathParts, h: &PathParts) -> (r: bool)
    requires
        p.wf(),
        h.wf(),
    ensures
        r == under_sensitive_subtree(p.comps(), h.comps()),
{
    starts_under1(p, h, ".ssh") || starts_under1(p, h, ".gnupg") || starts_under1(p, h, ".aws")
        || starts_under1(p, h, ".kube") || starts_under2(p, h, ".config", "1Password")
        || starts_under2(p, h, "Library", "Keychains")
        || starts_under3(p, h, "Library", "Application Support", "1Password")
        || starts_under3(p, h, "Library", "Application Support", "com.apple.TCC")
}

fn protected_exact_exec(p: &PathParts, h: &PathParts) -> (r: bool)
    requires
        p.wf(),
        h.wf(),
    ensures
        r == protected_exact(p.comps(), h.comps()),
{
    let same_home = p.equals_parts(h);
    is_root_path(p) || is_abs1(p, "Users") || is_abs2(p, "Users", "Shared") || is_abs1(
        p,
        "Applications",
    ) || is_abs1(p, "Volumes") || is_abs1(p, "tmp") || is_abs2(p, "private", "tmp") || same_home
        || is_under1(p, h, "Library") || is_under1(p, h, "Documents") || is_under1(
        p,
        h,
        "Desktop",
    ) || is_under1(p, h, "Downloads") || is_under1(p, h, "Pictures") || is_under1(p, h, "Movies")
        || is_under1(p, h, "Music") || is_under1(p, h, "Applications") || is_under1(p, h, ".Trash")
        || is_under1(p, h, ".ssh") || is_under1(p, h, ".config")
}

/// Whether the path lies in the zone that destructive operations never touch.
pub fn is_forbidden_zone(path: &str, home: &str) -> (r: bool)
    ensures
        r == forbidden_zone(path_comps(path@), path_comps(home@)),
{
    let p = PathParts::parse(path);
    let h = PathParts::parse(home);
    forbidden_zone_parts(&p, &h)
}

fn forbidden_zone_parts(p: &PathParts, h: &PathParts) -> (r: bool)
    requires
        p.wf(),
        h.wf(),
    ensures
        r == forbidden_zone(p.comps(), h.comps()),
{
    under_forbidden_prefix_exec(p) || protected_exact_exec(p, h) || under_sensitive_subtree_exec(
        p,
        h,
    )
}

/// Lighter forbidden-zone check for read-only operations (disk browsing,
/// ClamAV scanning): system paths and sensitive home sub-trees are rejected,
/// the home directory and folders such as `~/Downloads` are not.
pub fn is_forbidden_for_readonly(path: &str, home: &str) -> (r: bool)
    ensures
        r == readonly_forbidden(path_comps(path@), path_comps(home@)),
{
    let p = PathParts::parse(path);
    let h = PathParts::parse(home);
    readonly_forbidden_parts(&p, &h)
}

fn readonly_forbidden_parts(p: &PathParts, h: &PathParts) -> (r: bool)
    requires
        p.wf(),
        h.wf(),
    ensures
        r == readonly_forbidden(p.comps(), h.comps()),
{
    under_forbidden_prefix_exec(p) || under_sensitive_subtree_exec(p, h)
}

// ── Basic checks ─────────────────────────────────────────────────────────────

/// What every path guard rejects first, and with which message.
pub open spec fn basic_error(path: Seq<char>) -> Option<Seq<char>> {
    if is_blank(path) {
        Some("Chemin vide"@)
    } else if path.contains('\0') {
        Some("Chemin contient un octet nul"@)
    } else if !has_root(path) {
        Some("Chemin non absolu refusé"@)
    } else if path_comps(path).contains(".."@) {
        Some("Chemin contenant '..' ou '.' refusé"@)
    } else {
        None
    }
}

fn basic_checks(path: &str) -> (r: Result<PathParts, String>)
    ensures
        match r {
            Ok(p) => {
                &&& basic_error(path@).is_none()
                &&& p.wf()
                &&& p.comps() == path_comps(path@)
                &&& p.chars@ == path@
            },
            Err(e) => basic_error(path@) == Some(e@),
        },
{
    let v = chars_of(path);
    let mut blank = true;
    let mut i: usize = 0;
    while i < v.len()
        invariant
            i <= v@.len(),
            v@ == path@,
            blank == (forall|j: int| 0 <= j < i ==> #[trigger] is_ws(v@[j])),
        decreases v.len() - i,
    {
        if !is_whitespace(v[i]) {
            blank = false;
        }
        i += 1;
    }
    if blank {
        return Err("Chemin vide".to_owned());
    }
    if contains_char(&v, '\0') {
        return Err("Chemin contient un octet nul".to_owned());
    }
    let p = PathParts::parse(path);
    if !p.rooted {
        return Err("Chemin non absolu refusé".to_owned());
    }
    let mut k: usize = 0;
    while k < p.ranges.len()
        invariant
            p.wf(),
            p.rooted,
            p.comps() == path_comps(path@),
            !is_blank(path@),
            !path@.contains('\0'),
            has_root(path@),
            k <= p.ranges@.len(),
            forall|j: int| 0 <= j < k ==> #[trigger] p.comp(j) != ".."@,
        decreases p.ranges.len() - k,
    {
        if p.comp_is(k, "..") {
            assert(p.comps()[k + 1] == p.comp(k as int));
            assert(path_comps(path@)[k + 1] == ".."@);
            assert(path_comps(path@).contains(".."@));
            return Err("Chemin contenant '..' ou '.' refusé".to_owned());
        }
        k += 1;
    }
    proof {
        if p.comps().contains(".."@) {
            let t = choose|t: int| 0 <= t < p.comps().len() && p.comps()[t] == ".."@;
            if t == 0 {
                assert(p.comps()[0] == root_comp());
                assert(root_comp().len() == 1);
                assert(".."@ != root_comp()) by {
                    reveal_strlit("..");
                }
            } else {
                assert(p.comps()[t] == p.comp(t - 1));
            }
        }
    }
    Ok(p)
}

// ── General paths ────────────────────────────────────────────────────────────

/// What `validate_trash_path` answers.
pub open spec fn trash_outcome(path: Seq<char>, home: Seq<char>) -> Result<Seq<char>, Seq<char>> {
    match basic_error(path) {
        Some(e) => Err(e),
        None => {
            let c = path_comps(path);
            if forbidden_zone(c, path_comps(home)) {
                Err("Chemin protégé, refus de toucher à "@ + path)
            } else if comps_start_with(c, abs_path(seq!["Volumes"@])) && c.len() <= 3 {
                Err("Refus de supprimer la racine d'un volume"@)
            } else {
                Ok(path)
            }
        },
    }
}

/// Validation for moving a path to the Trash (reversible).
pub fn validate_trash_path(path: &str, home: &str) -> (r: Result<String, String>)
    ensures
        res_view(r) == trash_outcome(path@, home@),
{
    let p = match basic_checks(path) {
        Ok(p) => p,
        Err(e) => return Err(e),
    };
    let h = PathParts::parse(home);
    if forbidden_zone_parts(&p, &h) {
        let mut m = "Chemin protégé, refus de toucher à ".to_owned();
        m.append(path);
        return Err(m);
    }
    if starts_abs1(&p, "Volumes") && p.comps_len() <= 3 {
        return Err("Refus de supprimer la racine d'un volume".to_owned());
    }
    Ok(path.to_owned())
}

/// What `validate_delete_path` answers.
pub open spec fn delete_outcome(path: Seq<char>, home: Seq<char>) -> Result<Seq<char>, Seq<char>> {
    match trash_outcome(path, home) {
        Err(e) => Err(e),
        Ok(p) => {
            let c = path_comps(path);
            if comps_start_with(c, path_comps(home)) || comps_start_with(
                c,
                abs_path(seq!["Volumes"@]),
            ) || comps_start_with(c, abs_path(seq!["Users"@, "Shared"@])) {
                Ok(p)
            } else {
                Err("Suppression définitive refusée hors des zones utilisateur : "@ + path)
            }
        },
    }
}

/// Validation for permanent deletion: a trashable path inside a user zone
/// (the home directory, `/Volumes`, `/Users/Shared`).
pub fn validate_delete_path(path: &str, home: &str) -> (r: Result<String, String>)
    ensures
        res_view(r) == delete_outcome(path@, home@),
{
    let ok = match validate_trash_path(path, home) {
        Ok(s) => s,
        Err(e) => return Err(e),
    };
    let p = PathParts::parse(path);
    let h = PathParts::parse(home);
    if p.starts_with_parts(&h) || starts_abs1(&p, "Volumes") || starts_abs2(&p, "Users", "Shared") {
        Ok(ok)
    } else {
        let mut m = "Suppression définitive refusée hors des zones utilisateur : ".to_owned();
        m.append(path);
        Err(m)
    }
}


// ── LaunchAgents / LaunchDaemons ─────────────────────────────────────────────

/// What `validate_launch_item_path` answers.
pub open spec fn launch_item_outcome(path: Seq<char>, home: Seq<char>) -> Result<Seq<char>, Seq<char>> {
    match basic_error(path) {
        Some(e) => Err(e),
        None => {
            let c = path_comps(path);
            let h = path_comps(home);
            let root_len: int = if comps_start_with(c, h + seq!["Library"@, "LaunchAgents"@]) {
                h.len() + 2int
            } else if comps_start_with(c, abs_path(seq!["Library"@, "LaunchAgents"@]))
                || comps_start_with(c, abs_path(seq!["Library"@, "LaunchDaemons"@])) {
                3
            } else {
                -1
            };
            if root_len < 0 {
                Err(
                    "Chemin de plist refusé hors des répertoires LaunchAgents/LaunchDaemons : "@
                        + path,
                )
            } else if path_extension(c) != Some("plist"@) {
                Err("Seuls les fichiers .plist sont autorisés"@)
            } else if c.len() != root_len + 1 {
                Err("Profondeur de chemin invalide dans les répertoires LaunchAgents"@)
            } else {
                Ok(path)
            }
        },
    }
}

/// A `.plist` exactly one level below one of the known LaunchAgents or
/// LaunchDaemons folders.
pub fn validate_launch_item_path(path: &str, home: &str) -> (r: Result<String, String>)
    ensures
        res_view(r) == launch_item_outcome(path@, home@),
{
    let p = match basic_checks(path) {
        Ok(p) => p,
        Err(e) => return Err(e),
    };
    let h = PathParts::parse(home);
    let root_len: usize;
    if starts_under2(&p, &h, "Library", "LaunchAgents") {
        root_len = h.comps_len() + 2;
    } else if starts_abs2(&p, "Library", "LaunchAgents") || starts_abs2(
        &p,
        "Library",
        "LaunchDaemons",
    ) {
        root_len = 3;
    } else {
        let mut m = "Chemin de plist refusé hors des répertoires LaunchAgents/LaunchDaemons : "
            .to_owned();
        m.append(path);
        return Err(m);
    }
    if !p.extension_is("plist") {
        return Err("Seuls les fichiers .plist sont autorisés".to_owned());
    }
    if p.comps_len() != root_len + 1 {
        return Err("Profondeur de chemin invalide dans les répertoires LaunchAgents".to_owned());
    }
    Ok(path.to_owned())
}

// ── Installers ───────────────────────────────────────────────────────────────

/// The extension of the path, or the empty string.
pub open spec fn ext_or_empty(c: Seq<Seq<char>>) -> Seq<char> {
    match path_extension(c) {
        Some(e) => e,
        None => Seq::empty(),
    }
}

/// What `validate_installer_path` answers.
pub open spec fn installer_outcome(path: Seq<char>, home: Seq<char>) -> Result<Seq<char>, Seq<char>> {
    match basic_error(path) {
        Some(e) => Err(e),
        None => {
            let c = path_comps(path);
            let h = path_comps(home);
            let low = lowercase(ext_or_empty(c));
            if !(comps_start_with(c, h + seq!["Downloads"@]) || comps_start_with(
                c,
                h + seq!["Desktop"@],
            ) || comps_start_with(c, h + seq!["Documents"@]) || comps_start_with(
                c,
                h + seq!["Library"@, "Caches"@, "Homebrew"@, "downloads"@],
            )) {
                Err("Suppression d'installateur refusée hors des zones connues : "@ + path)
            } else if !(low == "dmg"@ || low == "pkg"@ || low == "iso"@ || low == "xip"@) {
                Err("Extension d'installateur refusée : ."@ + low)
            } else {
                Ok(path)
            }
        },
    }
}

/// Where installers are listed: `~/Downloads`, `~/Desktop`, `~/Documents`
/// and Homebrew's download cache.
pub open spec fn installer_folder(c: Seq<Seq<char>>, h: Seq<Seq<char>>) -> bool {
    comps_start_with(c, h + seq!["Downloads"@]) || comps_start_with(c, h + seq!["Desktop"@])
        || comps_start_with(c, h + seq!["Documents"@]) || comps_start_with(
        c,
        h + seq!["Library"@, "Caches"@, "Homebrew"@, "downloads"@],
    )
}

/// An installer's extension, once its ASCII letters are put in lower case,
/// is one of `dmg`, `pkg`, `iso`, `xip` (so `Foo.DMG` counts).
pub open spec fn installer_extension_any_case(e: Seq<char>) -> bool {
    let low = e.map_values(|c: char| ascii_lower(c));
    low == "dmg"@ || low == "pkg"@ || low == "iso"@ || low == "xip"@
}

/// An installer (`.dmg`, `.pkg`, `.iso`, `.xip`, in any case) inside the
/// folders where installers are listed. For an ASCII extension the outcome
/// is stated without the lowercase mapping: accepted exactly when the path
/// passes the basic checks, lies in one of the folders, and its extension is
/// one of the four in any case.
pub fn validate_installer_path(path: &str, home: &str) -> (r: Result<String, String>)
    ensures
        res_view(r) == installer_outcome(path@, home@),
        (forall|i: int| 0 <= i < ext_or_empty(path_comps(path@)).len() ==> is_ascii_char(
            #[trigger] ext_or_empty(path_comps(path@))[i],
        )) ==> (r is Ok <==> (basic_error(path@) is None && installer_folder(path_comps(path@), path_comps(home@))
            && installer_extension_any_case(ext_or_empty(path_comps(path@))))),
{
    let p = match basic_checks(path) {
        Ok(p) => p,
        Err(e) => return Err(e),
    };
    let h = PathParts::parse(home);
    if !(starts_under1(&p, &h, "Downloads") || starts_under1(&p, &h, "Desktop") || starts_under1(
        &p,
        &h,
        "Documents",
    ) || starts_under4(&p, &h, "Library", "Caches", "Homebrew", "downloads")) {
        let mut m = "Suppression d'installateur refusée hors des zones connues : ".to_owned();
        m.append(path);
        return Err(m);
    }
    let ext = match p.extension_range() {
        Some((a, b)) => string_of_range(&p.chars, a, b),
        None => String::new(),
    };
    let low = to_lowercase(ext.as_str());
    let ls = low.as_str();
    if !(str_eq(ls, "dmg") || str_eq(ls, "pkg") || str_eq(ls, "iso") || str_eq(ls, "xip")) {
        let mut m = "Extension d'installateur refusée : .".to_owned();
        m.append(ls);
        return Err(m);
    }
    Ok(path.to_owned())
}

// ── Application bundles ──────────────────────────────────────────────────────

/// The system applications that are never uninstalled.
pub open spec fn is_system_app_name(n: Seq<char>) -> bool {
    ||| n == "Safari.app"@
    ||| n == "Finder.app"@
    ||| n == "Mail.app"@
    ||| n == "FaceTime.app"@
    ||| n == "Messages.app"@
    ||| n == "System Preferences.app"@
    ||| n == "System Settings.app"@
    ||| n == "App Store.app"@
    ||| n == "Terminal.app"@
    ||| n == "Xcode.app"@
}

/// Directly in `/Applications` or `~/Applications`, or in a direct
/// subfolder of one: the bundle's parent or grandparent is one of the two.
pub open spec fn in_applications(c: Seq<Seq<char>>, h: Seq<Seq<char>>) -> bool {
    in_app_root(c, abs_path(seq!["Applications"@])) || in_app_root(c, h + seq!["Applications"@])
}

/// `c`'s parent or grandparent is `root`.
pub open spec fn in_app_root(c: Seq<Seq<char>>, root: Seq<Seq<char>>) -> bool {
    comps_start_with(c, root) && (c.len() == root.len() + 1 || c.len() == root.len() + 2)
}

/// What `validate_app_uninstall_path` answers.
pub open spec fn app_uninstall_outcome(path: Seq<char>, home: Seq<char>) -> Result<Seq<char>, Seq<char>> {
    match basic_error(path) {
        Some(e) => Err(e),
        None => {
            let c = path_comps(path);
            if !in_applications(c, path_comps(home)) {
                Err("Désinstallation refusée hors de /Applications et ~/Applications : "@ + path)
            } else if path_extension(c) != Some("app"@) {
                Err("Désinstallation limitée aux bundles .app : "@ + path)
            } else if file_name(c) is Some && is_system_app_name(file_name(c).unwrap()) {
                Err(
                    "Désinstallation de l'application système '"@ + file_name(c).unwrap()
                        + "' refusée"@,
                )
            } else {
                Ok(path)
            }
        },
    }
}

fn in_applications_exec(p: &PathParts, h: &PathParts) -> (r: bool)
    requires
        p.wf(),
        h.wf(),
    ensures
        r == in_applications(p.comps(), h.comps()),
{
    let n = p.comps_len();
    let in_system = starts_abs1(p, "Applications") && (n == 3 || n == 4);
    let hn = h.comps_len();
    let under_home = starts_under1(p, h, "Applications");
    let in_home = under_home && hn <= usize::MAX - 3 && (n == hn + 2 || n == hn + 3);
    proof {
        assert(abs_path(seq!["Applications"@]).len() == 2);
        if under_home {
            assert(n >= hn + 1);
        }
    }
    in_system || in_home
}

/// A `.app` bundle directly in `/Applications` or `~/Applications`, or in a
/// direct subfolder of one, that is not a system application.
pub fn validate_app_uninstall_path(path: &str, home: &str) -> (r: Result<String, String>)
    ensures
        res_view(r) == app_uninstall_outcome(path@, home@),
{
    let p = match basic_checks(path) {
        Ok(p) => p,
        Err(e) => return Err(e),
    };
    let h = PathParts::parse(home);
    if !in_applications_exec(&p, &h) {
        let mut m = "Désinstallation refusée hors de /Applications et ~/Applications : ".to_owned();
        m.append(path);
        return Err(m);
    }
    if !p.extension_is("app") {
        let mut m = "Désinstallation limitée aux bundles .app : ".to_owned();
        m.append(path);
        return Err(m);
    }
    if p.file_name_is("Safari.app") || p.file_name_is("Finder.app") || p.file_name_is("Mail.app")
        || p.file_name_is("FaceTime.app") || p.file_name_is("Messages.app") || p.file_name_is(
        "System Preferences.app",
    ) || p.file_name_is("System Settings.app") || p.file_name_is("App Store.app")
        || p.file_name_is("Terminal.app") || p.file_name_is("Xcode.app") {
        let (a, b) = match p.file_name_range() {
            Some(r) => r,
            None => {
                assert(false);
                (0, 0)
            },
        };
        let mut m = "Désinstallation de l'application système '".to_owned();
        let name = string_of_range(&p.chars, a, b);
        m.append(name.as_str());
        m.append("' refusée");
        return Err(m);
    }
    Ok(path.to_owned())
}

/// What `validate_update_app_path` answers.
pub open spec fn update_app_outcome(path: Seq<char>, home: Seq<char>) -> Result<Seq<char>, Seq<char>> {
    match basic_error(path) {
        Some(e) => Err(e),
        None => {
            let c = path_comps(path);
            if !in_applications(c, path_comps(home)) {
                Err("Mise à jour refusée hors de /Applications et ~/Applications : "@ + path)
            } else if path_extension(c) != Some("app"@) {
                Err("Mise à jour limitée aux bundles .app : "@ + path)
            } else if file_name(c) is Some && is_system_app_name(file_name(c).unwrap()) {
                Err(
                    "Mise à jour de l'application système '"@ + file_name(c).unwrap()
                        + "' refusée"@,
                )
            } else {
                Ok(path)
            }
        },
    }
}

/// The bundle that an update replaces: under the same constraints as an
/// uninstall (a `.app` directly in `/Applications` or `~/Applications` or a
/// direct subfolder, not a system application), except that it need not
/// exist yet.
pub fn validate_update_app_path(path: &str, home: &str) -> (r: Result<String, String>)
    ensures
        res_view(r) == update_app_outcome(path@, home@),
{
    let p = match basic_checks(path) {
        Ok(p) => p,
        Err(e) => return Err(e),
    };
    let h = PathParts::parse(home);
    if !in_applications_exec(&p, &h) {
        let mut m = "Mise à jour refusée hors de /Applications et ~/Applications : ".to_owned();
        m.append(path);
        return Err(m);
    }
    if !p.extension_is("app") {
        let mut m = "Mise à jour limitée aux bundles .app : ".to_owned();
        m.append(path);
        return Err(m);
    }
    if p.file_name_is("Safari.app") || p.file_name_is("Finder.app") || p.file_name_is("Mail.app")
        || p.file_name_is("FaceTime.app") || p.file_name_is("Messages.app") || p.file_name_is(
        "System Preferences.app",
    ) || p.file_name_is("System Settings.app") || p.file_name_is("App Store.app")
        || p.file_name_is("Terminal.app") || p.file_name_is("Xcode.app") {
        let (a, b) = match p.file_name_range() {
            Some(r) => r,
            None => {
                assert(false);
                (0, 0)
            },
        };
        let mut m = "Mise à jour de l'application système '".to_owned();
        let name = string_of_range(&p.chars, a, b);
        m.append(name.as_str());
        m.append("' refusée");
        return Err(m);
    }
    Ok(path.to_owned())
}


// ── Network and DNS ──────────────────────────────────────────────────────────

/// Characters refused in a network service name.
pub open spec fn service_forbidden(c: char) -> bool {
    ||| c == '\''
    ||| c == '"'
    ||| c == '`'
    ||| c == '$'
    ||| c == ';'
    ||| c == '&'
    ||| c == '|'
    ||| c == '<'
    ||| c == '>'
    ||| c == '\\'
    ||| c == '\n'
    ||| c == '\r'
    ||| c == '\0'
}

pub open spec fn service_pred() -> spec_fn(char) -> bool {
    |c: char| service_forbidden(c)
}

fn service_forbidden_exec(c: char) -> (r: bool)
    ensures
        r == service_forbidden(c),
{
    c == '\'' || c == '"' || c == '`' || c == '$' || c == ';' || c == '&' || c == '|' || c == '<'
        || c == '>' || c == '\\' || c == '\n' || c == '\r' || c == '\0'
}

/// What `validate_service_name` answers.
pub open spec fn service_outcome(s: Seq<char>) -> Result<(), Seq<char>> {
    if is_blank(s) {
        Err("Nom de service vide"@)
    } else if byte_len(s) > 128 {
        Err("Nom de service trop long"@)
    } else if first_index(s, service_pred()) < s.len() {
        Err("Caractère interdit dans le nom de service : "@ + char_debug(
            s[first_index(s, service_pred())],
        ))
    } else {
        Ok(())
    }
}

/// A network service name (`networksetup`): not blank, at most 128 bytes, and
/// free of the characters that change the meaning of a shell command.
pub fn validate_service_name(service: &str) -> (r: Result<(), String>)
    ensures
        unit_view(r) == service_outcome(service@),
{
    let v = chars_of(service);
    if all_whitespace(&v) {
        return Err("Nom de service vide".to_owned());
    }
    proof {
        lemma_byte_len_ge_len(service@);
    }
    if v.len() > 128 || byte_len_of(&v, 0, v.len()) > 128 {
        assert(v@.subrange(0, v@.len() as int) =~= v@);
        return Err("Nom de service trop long".to_owned());
    }
    assert(v@.subrange(0, v@.len() as int) =~= v@);
    let mut i: usize = 0;
    while i < v.len()
        invariant
            v@ == service@,
            !is_blank(service@),
            byte_len(service@) <= 128,
            i <= v@.len(),
            forall|j: int| 0 <= j < i ==> !service_forbidden(#[trigger] v@[j]),
        decreases v.len() - i,
    {
        if service_forbidden_exec(v[i]) {
            proof {
                lemma_first_index(v@, service_pred(), i as int);
            }
            let mut m = "Caractère interdit dans le nom de service : ".to_owned();
            let d = debug_char(v[i]);
            m.append(d.as_str());
            return Err(m);
        }
        i += 1;
    }
    proof {
        lemma_first_index(v@, service_pred(), v@.len() as int);
    }
    Ok(())
}

/// Characters refused wherever a value may reach a shell.
pub open spec fn shell_forbidden(c: char) -> bool {
    ||| service_forbidden(c)
    ||| c == '('
    ||| c == ')'
    ||| c == '!'
    ||| c == '{'
    ||| c == '}'
    ||| c == '*'
    ||| c == '?'
    ||| c == '['
    ||| c == ']'
    ||| c == '~'
    ||| c == '#'
}

pub open spec fn domain_pred() -> spec_fn(char) -> bool {
    |c: char| shell_forbidden(c) || is_ws(c)
}

fn shell_forbidden_exec(c: char) -> (r: bool)
    ensures
        r == shell_forbidden(c),
{
    service_forbidden_exec(c) || c == '(' || c == ')' || c == '!' || c == '{' || c == '}' || c
        == '*' || c == '?' || c == '[' || c == ']' || c == '~' || c == '#'
}

/// What is wrong with one label of a domain name, if anything.
pub open spec fn label_error(l: Seq<char>) -> Option<Seq<char>> {
    if l.len() == 0 || byte_len(l) > 63 {
        Some("Label de domaine invalide : "@ + str_debug(l))
    } else if l[0] == '-' || l.last() == '-' {
        Some("Label commence ou finit par un tiret : "@ + str_debug(l))
    } else if !(forall|i: int| 0 <= i < l.len() ==> is_ascii_alnum(#[trigger] l[i]) || l[i] == '-') {
        Some("Label contient des caractères non autorisés : "@ + str_debug(l))
    } else {
        None
    }
}

/// The error of the first faulty label, if any.
pub open spec fn labels_error(ls: Seq<Seq<char>>) -> Option<Seq<char>>
    decreases ls.len(),
{
    if ls.len() == 0 {
        None
    } else {
        match labels_error(ls.drop_last()) {
            Some(e) => Some(e),
            None => label_error(ls.last()),
        }
    }
}

/// What `validate_domain_name` answers.
pub open spec fn domain_outcome(domain: Seq<char>) -> Result<(), Seq<char>> {
    let d = trim(domain);
    if d.len() == 0 {
        Err("Nom de domaine vide"@)
    } else if byte_len(d) > 253 {
        Err("Nom de domaine trop long"@)
    } else if first_index(d, domain_pred()) < d.len() {
        Err("Caractère interdit dans le nom de domaine : "@ + char_debug(
            d[first_index(d, domain_pred())],
        ))
    } else {
        match labels_error(split_on(d, '.')) {
            Some(e) => Err(e),
            None => Ok(()),
        }
    }
}

fn check_label(v: &Vec<char>, a: usize, b: usize) -> (r: Option<String>)
    requires
        a <= b <= v@.len(),
        b - a <= 253,
    ensures
        match r {
            None => label_error(v@.subrange(a as int, b as int)).is_none(),
            Some(e) => label_error(v@.subrange(a as int, b as int)) == Some(e@),
        },
{
    let ghost l = v@.subrange(a as int, b as int);
    if a == b || byte_len_of(v, a, b) > 63 {
        let label = string_of_range(v, a, b);
        let mut m = "Label de domaine invalide : ".to_owned();
        let d = debug_str(label.as_str());
        m.append(d.as_str());
        return Some(m);
    }
    assert(l[0] == v@[a as int]);
    assert(l.last() == v@[b - 1]);
    if v[a] == '-' || v[b - 1] == '-' {
        let label = string_of_range(v, a, b);
        let mut m = "Label commence ou finit par un tiret : ".to_owned();
        let d = debug_str(label.as_str());
        m.append(d.as_str());
        return Some(m);
    }
    let mut i = a;
    while i < b
        invariant
            a <= i <= b <= v@.len(),
            l == v@.subrange(a as int, b as int),
            l.len() > 0,
            byte_len(l) <= 63,
            l[0] != '-',
            l.last() != '-',
            forall|j: int| 0 <= j < i - a ==> is_ascii_alnum(#[trigger] l[j]) || l[j] == '-',
        decreases b - i,
    {
        let c = v[i];
        assert(l[i - a] == c);
        if !(('a' <= c && c <= 'z') || ('A' <= c && c <= 'Z') || ('0' <= c && c <= '9') || c
            == '-') {
            assert(!(is_ascii_alnum(l[i - a]) || l[i - a] == '-'));
            let label = string_of_range(v, a, b);
            let mut m = "Label contient des caractères non autorisés : ".to_owned();
            let d = debug_str(label.as_str());
            m.append(d.as_str());
            return Some(m);
        }
        i += 1;
    }
    None
}

/// A search domain (RFC 1123): dot-separated labels of ASCII letters, digits
/// and inner hyphens, at most 253 bytes, surrounding whitespace ignored.
pub fn validate_domain_name(domain: &str) -> (r: Result<(), String>)
    ensures
        unit_view(r) == domain_outcome(domain@),
{
    let v = chars_of(domain);
    let (ta, tb) = trim_bounds(&v);
    let ghost d = v@.subrange(ta as int, tb as int);
    if ta == tb {
        return Err("Nom de domaine vide".to_owned());
    }
    proof {
        lemma_byte_len_ge_len(d);
    }
    if tb - ta > 253 || byte_len_of(&v, ta, tb) > 253 {
        return Err("Nom de domaine trop long".to_owned());
    }
    let mut i = ta;
    while i < tb
        invariant
            ta <= i <= tb <= v@.len(),
            d == v@.subrange(ta as int, tb as int),
            v@ == domain@,
            d == trim(domain@),
            d.len() > 0,
            byte_len(d) <= 253,
            forall|j: int| 0 <= j < i - ta ==> !(shell_forbidden(#[trigger] d[j]) || is_ws(d[j])),
        decreases tb - i,
    {
        assert(d[i - ta] == v@[i as int]);
        if shell_forbidden_exec(v[i]) || is_whitespace(v[i]) {
            proof {
                lemma_first_index(d, domain_pred(), i - ta);
            }
            let mut m = "Caractère interdit dans le nom de domaine : ".to_owned();
            let dc = debug_char(v[i]);
            m.append(dc.as_str());
            return Err(m);
        }
        i += 1;
    }
    proof {
        lemma_first_index(d, domain_pred(), d.len() as int);
    }
    let mut start = ta;
    let mut j = ta;
    let ghost mut done: Seq<Seq<char>> = seq![];
    while j < tb
        invariant
            ta <= start <= j <= tb <= v@.len(),
            tb - ta <= 253,
            d == v@.subrange(ta as int, tb as int),
            v@ == domain@,
            d == trim(domain@),
            d.len() > 0,
            byte_len(d) <= 253,
            first_index(d, domain_pred()) == d.len(),
            split_scan(d, '.', j - ta) == (done, v@.subrange(start as int, j as int)),
            labels_error(done).is_none(),
        decreases tb - j,
    {
        assert(d[j - ta] == v@[j as int]);
        if v[j] == '.' {
            match check_label(&v, start, j) {
                Some(e) => {
                    proof {
                        let nd = done.push(v@.subrange(start as int, j as int));
                        assert(nd.drop_last() =~= done);
                        assert(labels_error(nd) == Some(e@));
                        lemma_split_prefix_error(d, '.', (j - ta) as int + 1, done.push(v@.subrange(start as int, j as int)));
                    }
                    return Err(e);
                },
                None => {},
            }
            proof {
                let nd = done.push(v@.subrange(start as int, j as int));
                assert(nd.drop_last() =~= done);
                done = nd;
            }
            start = j + 1;
            assert(v@.subrange(start as int, (j + 1) as int) =~= Seq::<char>::empty());
        } else {
            assert(v@.subrange(start as int, (j + 1) as int) =~= v@.subrange(start as int, j as int).push(v@[j as int]));
        }
        j += 1;
    }
    assert(split_on(d, '.') == done.push(v@.subrange(start as int, tb as int)));
    assert(split_on(d, '.').drop_last() =~= done);
    match check_label(&v, start, tb) {
        Some(e) => Err(e),
        None => Ok(()),
    }
}

/// Once the pieces read so far hold an error, every later split keeps it.
proof fn lemma_split_prefix_error(s: Seq<char>, sep: char, i: int, done: Seq<Seq<char>>)
    requires
        0 <= i <= s.len(),
        split_scan(s, sep, i).0 == done,
        labels_error(done).is_some(),
    ensures
        labels_error(split_on(s, sep)) == labels_error(done),
    decreases s.len() - i,
{
    if i < s.len() {
        let next = split_scan(s, sep, i + 1).0;
        if s[i] == sep {
            let nd = done.push(split_scan(s, sep, i).1);
            assert(nd.drop_last() =~= done);
            lemma_split_prefix_error(s, sep, i + 1, nd);
        } else {
            lemma_split_prefix_error(s, sep, i + 1, done);
        }
    } else {
        let all = split_on(s, sep);
        assert(all.drop_last() =~= done);
    }
}


// ── Homebrew ─────────────────────────────────────────────────────────────────

/// Characters of an official Homebrew token.
pub open spec fn brew_char(c: char) -> bool {
    ('a' <= c && c <= 'z') || ('0' <= c && c <= '9') || c == '-' || c == '_' || c == '+' || c
        == '.' || c == '@' || c == '/'
}

/// `s` has `a` immediately followed by `b` somewhere.
pub open spec fn has_pair(s: Seq<char>, a: char, b: char) -> bool {
    exists|i: int| 0 <= i < s.len() - 1 && #[trigger] s[i] == a && s[i + 1] == b
}

/// A Homebrew token is an identifier, never a command-line option.
pub open spec fn brew_token_valid(t: Seq<char>) -> bool {
    &&& t.len() > 0
    &&& byte_len(t) <= 128
    &&& t[0] != '-'
    &&& t[0] != '/'
    &&& t.last() != '/'
    &&& !has_pair(t, '.', '.')
    &&& !has_pair(t, '/', '/')
    &&& forall|i: int| 0 <= i < t.len() ==> brew_char(#[trigger] t[i])
}

/// A Homebrew cask or formula token: lower-case letters, digits and simple
/// separators, not starting like an option or a path.
pub fn validate_brew_token(token: &str) -> (r: Result<(), String>)
    ensures
        unit_view(r) == (if brew_token_valid(token@) {
            Ok(())
        } else {
            Err("Token Homebrew invalide"@)
        }),
{
    let v = chars_of(token);
    let n = v.len();
    proof {
        lemma_byte_len_ge_len(token@);
    }
    if n == 0 || n > 128 || byte_len_of(&v, 0, n) > 128 || v[0] == '-' || v[0] == '/' || v[n
        - 1] == '/' {
        assert(v@.subrange(0, n as int) =~= v@);
        return Err("Token Homebrew invalide".to_owned());
    }
    assert(v@.subrange(0, n as int) =~= v@);
    let mut i: usize = 0;
    while i < n
        invariant
            n == v@.len(),
            v@ == token@,
            i <= n,
            forall|j: int| 0 <= j < i ==> brew_char(#[trigger] v@[j]),
            forall|j: int|
                0 <= j < i && j + 1 < n ==> !(#[trigger] v@[j] == '.' && v@[j + 1] == '.') && !(
                v@[j] == '/' && v@[j + 1] == '/'),
        decreases n - i,
    {
        let c = v[i];
        if !(('a' <= c && c <= 'z') || ('0' <= c && c <= '9') || c == '-' || c == '_' || c == '+'
            || c == '.' || c == '@' || c == '/') {
            return Err("Token Homebrew invalide".to_owned());
        }
        if i + 1 < n && ((c == '.' && v[i + 1] == '.') || (c == '/' && v[i + 1] == '/')) {
            return Err("Token Homebrew invalide".to_owned());
        }
        i += 1;
    }
    Ok(())
}

// ── Updates ──────────────────────────────────────────────────────────────────

/// The number of leading characters that take `j` or more steps: the first
/// `i >= j` at which the next character would pass `k` bytes.
pub open spec fn fit_from(s: Seq<char>, k: nat, j: int) -> int
    decreases s.len() - j,
{
    if j < 0 || j >= s.len() || byte_len(s.take(j + 1)) > k {
        j
    } else {
        fit_from(s, k, j + 1)
    }
}

/// The longest prefix of `s` whose UTF-8 encoding fits in `k` bytes.
pub open spec fn prefix_within(s: Seq<char>, k: nat) -> Seq<char> {
    s.take(fit_from(s, k, 0))
}

pub open spec fn starts_https(url: Seq<char>) -> bool {
    url.len() >= 8 && url.take(8) == "https://"@
}

/// The refusal message quotes the URL's first 32 bytes (`&url[..32]`), so
/// that cut must fall between two characters.
pub open spec fn update_url_sliceable(url: Seq<char>) -> bool {
    (url.len() > 0 && byte_len(url) <= 2048 && !starts_https(url)) ==> byte_len(
        prefix_within(url, 32),
    ) == (if byte_len(url) < 32 {
        byte_len(url)
    } else {
        32
    })
}

/// What `validate_update_url` answers.
pub open spec fn update_url_outcome(url: Seq<char>) -> Result<(), Seq<char>> {
    if url.len() == 0 {
        Err("URL de mise à jour vide"@)
    } else if byte_len(url) > 2048 {
        Err("URL de mise à jour trop longue"@)
    } else if !starts_https(url) {
        Err("URL de mise à jour refusée : schéma non-HTTPS ("@ + prefix_within(url, 32) + "…)"@)
    } else if exists|i: int| 0 <= i < url.len() && is_ctrl(#[trigger] url[i]) {
        Err("URL de mise à jour contient un caractère de contrôle interdit"@)
    } else {
        Ok(())
    }
}

/// The download URL of a third-party update: HTTPS only, at most 2048 bytes,
/// and no control character (NUL, line breaks and tabs among them).
pub fn validate_update_url(url: &str) -> (r: Result<(), String>)
    requires
        update_url_sliceable(url@),
    ensures
        unit_view(r) == update_url_outcome(url@),
{
    let v = chars_of(url);
    let n = v.len();
    if n == 0 {
        return Err("URL de mise à jour vide".to_owned());
    }
    proof {
        lemma_byte_len_ge_len(url@);
    }
    if n > 2048 || byte_len_of(&v, 0, n) > 2048 {
        assert(v@.subrange(0, n as int) =~= v@);
        return Err("URL de mise à jour trop longue".to_owned());
    }
    assert(v@.subrange(0, n as int) =~= v@);
    if !has_at(&v, 0, "https://") {
        proof {
            if url@.len() >= 8 {
                reveal_strlit("https://");
                assert(url@.take(8) =~= v@.subrange(0, 8));
            }
        }
        // The longest prefix within 32 bytes.
        let mut j: usize = 0;
        let mut acc: usize = 0;
        assert(v@.take(0) =~= Seq::<char>::empty());
        assert(vstd::utf8::encode_utf8(Seq::<char>::empty()) =~= Seq::<u8>::empty());
        while j < n
            invariant
                n == v@.len(),
                v@ == url@,
                j <= n,
                acc == byte_len(v@.take(j as int)),
                acc <= 32,
                fit_from(v@, 32, j as int) == fit_from(v@, 32, 0),
            ensures
                j as int == fit_from(v@, 32, 0),
            decreases n - j,
        {
            let c = v[j];
            let w: usize = if (c as u32) < 0x80 {
                1
            } else if (c as u32) < 0x800 {
                2
            } else if (c as u32) < 0x10000 {
                3
            } else {
                4
            };
            proof {
                lemma_byte_len_push(v@.take(j as int), c);
                assert(v@.take(j + 1) =~= v@.take(j as int).push(c));
            }
            if acc + w > 32 {
                assert(fit_from(v@, 32, j as int) == j);
                break;
            }
            assert(fit_from(v@, 32, j as int) == fit_from(v@, 32, j + 1));
            acc += w;
            j += 1;
        }
        let mut m = "URL de mise à jour refusée : schéma non-HTTPS (".to_owned();
        let pre = string_of_range(&v, 0, j);
        assert(v@.subrange(0, j as int) =~= v@.take(j as int));
        m.append(pre.as_str());
        m.append("…)");
        return Err(m);
    }
    proof {
        reveal_strlit("https://");
        assert(url@.take(8) =~= v@.subrange(0, 8));
    }
    let mut i: usize = 0;
    while i < n
        invariant
            n == v@.len(),
            v@ == url@,
            i <= n,
            forall|j: int| 0 <= j < i ==> !is_ctrl(#[trigger] v@[j]),
            url@.len() > 0,
            byte_len(url@) <= 2048,
            starts_https(url@),
        decreases n - i,
    {
        if is_control(v[i]) {
            assert(is_ctrl(url@[i as int]));
            return Err("URL de mise à jour contient un caractère de contrôle interdit".to_owned());
        }
        i += 1;
    }
    Ok(())
}

// ── Quarantine ───────────────────────────────────────────────────────────────

/// What `validate_quarantine_name` answers.
pub open spec fn quarantine_name_outcome(name: Seq<char>) -> Result<(), Seq<char>> {
    if name.len() == 0 || name == "."@ || name == ".."@ {
        Err("Nom de quarantaine invalide"@)
    } else if name.contains('/') || name.contains('\\') || name.contains('\0') {
        Err("Nom de quarantaine contient un séparateur ou octet nul"@)
    } else {
        Ok(())
    }
}

/// A quarantine entry is a plain file name, without any separator.
pub fn validate_quarantine_name(name: &str) -> (r: Result<(), String>)
    ensures
        unit_view(r) == quarantine_name_outcome(name@),
{
    let v = chars_of(name);
    if v.len() == 0 || str_eq(name, ".") || str_eq(name, "..") {
        return Err("Nom de quarantaine invalide".to_owned());
    }
    if contains_char(&v, '/') || contains_char(&v, '\\') || contains_char(&v, '\0') {
        return Err("Nom de quarantaine contient un séparateur ou octet nul".to_owned());
    }
    Ok(())
}

// ── Shell quoting ────────────────────────────────────────────────────────────

/// Each `'` becomes `'\''`: close the quoted span, an escaped quote, reopen.
pub open spec fn sh_escape(s: Seq<char>) -> Seq<char>
    decreases s.len(),
{
    if s.len() == 0 {
        Seq::empty()
    } else {
        sh_escape(s.drop_last()) + (if s.last() == '\'' {
            seq!['\'', '\\', '\'', '\'']
        } else {
            seq![s.last()]
        })
    }
}

/// `c` followed by the word `r`, if there is one.
pub open spec fn prepend(c: char, r: Option<Seq<char>>) -> Option<Seq<char>> {
    match r {
        Some(w) => Some(seq![c] + w),
        None => None,
    }
}

/// The word a POSIX shell reads from `q`, made of single-quoted spans and
/// backslash-escaped characters (`in_quote`: inside a span). Nothing when
/// `q` holds anything else, or leaves a span open.
pub open spec fn shell_word(q: Seq<char>, in_quote: bool) -> Option<Seq<char>>
    decreases q.len(),
{
    if q.len() == 0 {
        if in_quote {
            None
        } else {
            Some(seq![])
        }
    } else if in_quote {
        if q[0] == '\'' {
            shell_word(q.skip(1), false)
        } else {
            prepend(q[0], shell_word(q.skip(1), true))
        }
    } else if q[0] == '\'' {
        shell_word(q.skip(1), true)
    } else if q[0] == '\\' && q.len() >= 2 {
        prepend(q[1], shell_word(q.skip(2), false))
    } else {
        None
    }
}

proof fn lemma_sh_escape_concat(a: Seq<char>, b: Seq<char>)
    ensures
        sh_escape(a + b) == sh_escape(a) + sh_escape(b),
    decreases b.len(),
{
    if b.len() == 0 {
        assert(a + b =~= a);
        assert(sh_escape(a) + sh_escape(b) =~= sh_escape(a));
    } else {
        lemma_sh_escape_concat(a, b.drop_last());
        assert((a + b).drop_last() =~= a + b.drop_last());
        assert((a + b).last() == b.last());
    }
}

proof fn lemma_shell_reads_escaped(s: Seq<char>, t: Seq<char>)
    ensures
        shell_word(sh_escape(s) + t, true) == match shell_word(t, true) {
            Some(r) => Some(s + r),
            None => None::<Seq<char>>,
        },
    decreases s.len(),
{
    if s.len() == 0 {
        assert(sh_escape(s) + t =~= t);
        match shell_word(t, true) {
            Some(r) => {
                assert(s + r =~= r);
            },
            None => {},
        }
    } else {
        let c = s[0];
        let rest = s.skip(1);
        assert(s =~= seq![c] + rest);
        lemma_sh_escape_concat(seq![c], rest);
        assert(seq![c].drop_last() =~= Seq::<char>::empty());
        assert(sh_escape(Seq::<char>::empty()) =~= Seq::<char>::empty());
        lemma_shell_reads_escaped(rest, t);
        let tail = sh_escape(rest) + t;
        if c == '\'' {
            let q = sh_escape(s) + t;
            assert(q =~= seq!['\'', '\\', '\'', '\''] + tail);
            assert(q.skip(1) =~= seq!['\\', '\'', '\''] + tail);
            assert(q.skip(1).skip(2) =~= seq!['\''] + tail);
            assert((seq!['\''] + tail).skip(1) =~= tail);
            assert(q[0] == '\'');
            assert(q.skip(1)[0] == '\\' && q.skip(1)[1] == '\'');
            assert(q.skip(1).skip(2)[0] == '\'');
            assert(shell_word(q, true) == shell_word(q.skip(1), false));
            assert(shell_word(q.skip(1), false) == prepend('\'', shell_word(q.skip(1).skip(2), false)));
            assert(shell_word(q.skip(1).skip(2), false) == shell_word(tail, true));
        } else {
            let q = sh_escape(s) + t;
            assert(q =~= seq![c] + tail);
            assert(q.skip(1) =~= tail);
            assert(q[0] == c);
            assert(shell_word(q, true) == prepend(c, shell_word(tail, true)));
        }
        match shell_word(t, true) {
            Some(r) => {
                assert(seq![c] + (rest + r) =~= s + r);
            },
            None => {},
        }
    }
}

/// What `posix_shell_quote` writes, the shell reads back as the given
/// value, whatever it holds.
pub proof fn law_shell_quote_roundtrip(s: Seq<char>)
    ensures
        shell_word(seq!['\''] + sh_escape(s) + seq!['\''], false) == Some(s),
{
    let q = seq!['\''] + sh_escape(s) + seq!['\''];
    assert(q.skip(1) =~= sh_escape(s) + seq!['\'']);
    lemma_shell_reads_escaped(s, seq!['\'']);
    assert(q[0] == '\'');
    assert(shell_word(q, false) == shell_word(q.skip(1), true));
    assert(seq!['\''].skip(1) =~= Seq::<char>::empty());
    assert(shell_word(seq!['\''], true) == shell_word(Seq::<char>::empty(), false));
    assert(s + Seq::<char>::empty() =~= s);
}

/// Wraps any value in POSIX single quotes. Inside `'...'` no character is
/// special, so the only sequence needed is to close the span, write an
/// escaped quote and reopen: `hello'world` becomes `'hello'\''world'`.
pub fn posix_shell_quote(s: &str) -> (r: String)
    ensures
        r@ == seq!['\''] + sh_escape(s@) + seq!['\''],
{
    let v = chars_of(s);
    let mut out = String::new();
    push_char(&mut out, '\'');
    let mut i: usize = 0;
    while i < v.len()
        invariant
            i <= v@.len(),
            v@ == s@,
            out@ == seq!['\''] + sh_escape(v@.take(i as int)),
        decreases v.len() - i,
    {
        let c = v[i];
        proof {
            assert(v@.take(i + 1).drop_last() =~= v@.take(i as int));
        }
        if c == '\'' {
            push_char(&mut out, '\'');
            push_char(&mut out, '\\');
            push_char(&mut out, '\'');
            push_char(&mut out, '\'');
        } else {
            push_char(&mut out, c);
        }
        assert(out@ =~= seq!['\''] + sh_escape(v@.take(i + 1)));
        i += 1;
    }
    assert(v@.take(v@.len() as int) =~= v@);
    push_char(&mut out, '\'');
    out
}

/// The basenames masked in recursive read-only size calculations; they err
/// on the side of privacy when the same name occurs deeper in a tree.
pub fn readonly_exclusion_names() -> (r: Vec<&'static str>)
    ensures
        r@.map_values(|s: &str| s@) == seq![
            ".ssh"@,
            ".gnupg"@,
            ".aws"@,
            ".kube"@,
            "1Password"@,
            "Keychains"@,
            "com.apple.TCC"@,
        ],
{
    let r = vec![".ssh", ".gnupg", ".aws", ".kube", "1Password", "Keychains", "com.apple.TCC"];
    assert(r@.map_values(|s: &str| s@) =~= seq![
        ".ssh"@,
        ".gnupg"@,
        ".aws"@,
        ".kube"@,
        "1Password"@,
        "Keychains"@,
        "com.apple.TCC"@,
    ]);
    r
}


// ── Symlink-safe resolution of read-only targets ─────────────────────────────

/// What the filesystem reported while resolving a path component by
/// component and then canonicalizing it.
pub enum Resolution {
    /// The prefix ending with some component could not be inspected.
    Uninspectable(String, String),
    /// The prefix ending with some component is a symbolic link.
    SymlinkComponent(String),
    /// Canonicalization failed with this error.
    Unresolvable(String),
    /// The canonical path.
    Canonical(String),
}

/// The read-only policy applied to what resolution reported.
pub open spec fn resolved_readonly_outcome(path: Seq<char>, home: Seq<char>, res: Resolution) -> Result<Seq<char>, Seq<char>> {
    match res {
        Resolution::Uninspectable(pre, e) => Err("Unable to inspect "@ + pre@ + ": "@ + e@),
        Resolution::SymlinkComponent(pre) => Err("Symbolic-link component rejected: "@ + pre@),
        Resolution::Unresolvable(e) => Err("Path resolution failed for "@ + path + ": "@ + e@),
        Resolution::Canonical(c) => if readonly_forbidden(path_comps(c@), path_comps(home)) {
            Err("Resolved path leads to a protected zone: "@ + c@)
        } else {
            Ok(c@)
        },
    }
}

fn resolved_readonly(path: &str, home: &str, res: Resolution) -> (r: Result<String, String>)
    ensures
        res_view(r) == resolved_readonly_outcome(path@, home@, res),
{
    match res {
        Resolution::Uninspectable(pre, e) => {
            let mut m = "Unable to inspect ".to_owned();
            m.append(pre.as_str());
            m.append(": ");
            m.append(e.as_str());
            Err(m)
        },
        Resolution::SymlinkComponent(pre) => {
            let mut m = "Symbolic-link component rejected: ".to_owned();
            m.append(pre.as_str());
            Err(m)
        },
        Resolution::Unresolvable(e) => {
            let mut m = "Path resolution failed for ".to_owned();
            m.append(path);
            m.append(": ");
            m.append(e.as_str());
            Err(m)
        },
        Resolution::Canonical(c) => {
            if is_forbidden_for_readonly(c.as_str(), home) {
                let mut m = "Resolved path leads to a protected zone: ".to_owned();
                m.append(c.as_str());
                Err(m)
            } else {
                Ok(c)
            }
        },
    }
}

/// Roots too broad to browse or scan.
pub open spec fn broad_root(c: Seq<Seq<char>>) -> bool {
    c == abs_path(seq![]) || c == abs_path(seq!["Users"@]) || c == abs_path(seq!["tmp"@]) || c
        == abs_path(seq!["private"@, "tmp"@])
}

fn broad_root_exec(p: &PathParts) -> (r: bool)
    requires
        p.wf(),
    ensures
        r == broad_root(p.comps()),
{
    is_root_path(p) || is_abs1(p, "Users") || is_abs1(p, "tmp") || is_abs2(p, "private", "tmp")
}

/// What `validate_disk_browse_path` answers.
pub open spec fn disk_browse_outcome(path: Seq<char>, home: Seq<char>, res: Resolution) -> Result<Seq<char>, Seq<char>> {
    match basic_error(path) {
        Some(e) => Err(e),
        None => {
            let c = path_comps(path);
            if under_forbidden_prefix(c) {
                Err("System path not browsable: "@ + path)
            } else if under_sensitive_subtree(c, path_comps(home)) {
                Err("Sensitive subtree not browsable: "@ + path)
            } else if broad_root(c) {
                Err("Root path not browsable: "@ + path)
            } else if c == abs_path(seq!["Volumes"@]) {
                Err("/Volumes cannot be browsed directly"@)
            } else {
                resolved_readonly_outcome(path, home, res)
            }
        },
    }
}

/// A target for the disk-space browser (read-only navigation): absolute,
/// without `..`, outside system and sensitive zones, not a broad root, no
/// symbolic-link component, and its canonical form still outside those
/// zones. `res` is what resolving `path` on disk reported; the answer is the
/// canonical path.
pub fn validate_disk_browse_path(path: &str, home: &str, res: Resolution) -> (r: Result<String, String>)
    ensures
        res_view(r) == disk_browse_outcome(path@, home@, res),
{
    let p = match basic_checks(path) {
        Ok(p) => p,
        Err(e) => return Err(e),
    };
    let h = PathParts::parse(home);
    if under_forbidden_prefix_exec(&p) {
        let mut m = "System path not browsable: ".to_owned();
        m.append(path);
        return Err(m);
    }
    if under_sensitive_subtree_exec(&p, &h) {
        let mut m = "Sensitive subtree not browsable: ".to_owned();
        m.append(path);
        return Err(m);
    }
    if broad_root_exec(&p) {
        let mut m = "Root path not browsable: ".to_owned();
        m.append(path);
        return Err(m);
    }
    if is_abs1(&p, "Volumes") {
        return Err("/Volumes cannot be browsed directly".to_owned());
    }
    resolved_readonly(path, home, res)
}

/// What `validate_clamav_scan_path` answers.
pub open spec fn clamav_scan_outcome(path: Seq<char>, home: Seq<char>, res: Resolution) -> Result<Seq<char>, Seq<char>> {
    match basic_error(path) {
        Some(e) => Err(e),
        None => {
            let c = path_comps(path);
            if under_forbidden_prefix(c) {
                Err("System path rejected for scanning: "@ + path)
            } else if under_sensitive_subtree(c, path_comps(home)) {
                Err("Sensitive subtree rejected: "@ + path)
            } else if broad_root(c) {
                Err("Root path rejected for scanning: "@ + path)
            } else if c == abs_path(seq!["Volumes"@]) {
                Err("/Volumes cannot be scanned directly"@)
            } else {
                resolved_readonly_outcome(path, home, res)
            }
        },
    }
}

/// A ClamAV scan target: the browser's policy, with its own messages. A
/// symbolic link anywhere in the path is refused, so the scanner cannot be
/// redirected into a sensitive area; sensitive sub-trees nested under an
/// accepted root are excluded separately (`clamav_exclude_args`).
pub fn validate_clamav_scan_path(path: &str, home: &str, res: Resolution) -> (r: Result<String, String>)
    ensures
        res_view(r) == clamav_scan_outcome(path@, home@, res),
{
    let p = match basic_checks(path) {
        Ok(p) => p,
        Err(e) => return Err(e),
    };
    let h = PathParts::parse(home);
    if under_forbidden_prefix_exec(&p) {
        let mut m = "System path rejected for scanning: ".to_owned();
        m.append(path);
        return Err(m);
    }
    if under_sensitive_subtree_exec(&p, &h) {
        let mut m = "Sensitive subtree rejected: ".to_owned();
        m.append(path);
        return Err(m);
    }
    if broad_root_exec(&p) {
        let mut m = "Root path rejected for scanning: ".to_owned();
        m.append(path);
        return Err(m);
    }
    if is_abs1(&p, "Volumes") {
        return Err("/Volumes cannot be scanned directly".to_owned());
    }
    resolved_readonly(path, home, res)
}

// ── ClamAV FOUND lines ───────────────────────────────────────────────────────

/// What the filesystem reported about a path from a ClamAV `FOUND` line.
pub struct FoundProbe {
    /// The entry itself is a symbolic link.
    pub is_symlink: bool,
    /// Canonicalization: the canonical path or the error.
    pub canonical: Result<String, String>,
    /// Inspecting the canonical path: whether it is a regular file, or the error.
    pub is_file: Result<bool, String>,
}

/// `c` lies under one of the scan roots.
pub open spec fn under_some_root(c: Seq<Seq<char>>, roots: Seq<String>) -> bool {
    exists|i: int| 0 <= i < roots.len() && comps_start_with(c, path_comps(#[trigger] roots[i]@))
}

/// What `validate_clamav_found_path` answers.
pub open spec fn clamav_found_outcome(path: Seq<char>, roots: Seq<String>, home: Seq<char>, probe: FoundProbe) -> Result<Seq<char>, Seq<char>> {
    if path.len() == 0 {
        Err("Empty FOUND path"@)
    } else if path.contains('\0') {
        Err("FOUND path contains a NUL byte"@)
    } else if !has_root(path) {
        Err("FOUND path is not absolute: "@ + path)
    } else if probe.is_symlink {
        Err("FOUND path is a symbolic link"@)
    } else {
        match probe.canonical {
            Err(e) => Err("FOUND path no longer accessible ("@ + path + "): "@ + e@),
            Ok(c) => if forbidden_zone(path_comps(c@), path_comps(home)) {
                Err("FOUND path is in a protected zone: "@ + c@)
            } else if !under_some_root(path_comps(c@), roots) {
                Err("FOUND path "@ + c@ + " is outside all scan roots"@)
            } else {
                match probe.is_file {
                    Err(e) => Err("FOUND path no longer accessible: "@ + e@),
                    Ok(false) => Err("FOUND path is not a regular file"@),
                    Ok(true) => Ok(c@),
                }
            },
        }
    }
}

/// A path taken from a ClamAV `FOUND` line: absolute, not a link, still
/// present, outside the protected zone, inside one of this session's scan
/// roots, and a regular file. The answer is the canonical path.
pub fn validate_clamav_found_path(path: &str, scan_roots: &[String], home: &str, probe: FoundProbe) -> (r: Result<String, String>)
    ensures
        res_view(r) == clamav_found_outcome(path@, scan_roots@, home@, probe),
{
    let v = chars_of(path);
    if v.len() == 0 {
        return Err("Empty FOUND path".to_owned());
    }
    if contains_char(&v, '\0') {
        return Err("FOUND path contains a NUL byte".to_owned());
    }
    if v[0] != '/' {
        let mut m = "FOUND path is not absolute: ".to_owned();
        m.append(path);
        return Err(m);
    }
    if probe.is_symlink {
        return Err("FOUND path is a symbolic link".to_owned());
    }
    let c = match probe.canonical {
        Err(e) => {
            let mut m = "FOUND path no longer accessible (".to_owned();
            m.append(path);
            m.append("): ");
            m.append(e.as_str());
            return Err(m);
        },
        Ok(c) => c,
    };
    if is_forbidden_zone(c.as_str(), home) {
        let mut m = "FOUND path is in a protected zone: ".to_owned();
        m.append(c.as_str());
        return Err(m);
    }
    let cp = PathParts::parse(c.as_str());
    let mut i: usize = 0;
    let mut inside = false;
    while i < scan_roots.len()
        invariant
            cp.wf(),
            cp.comps() == path_comps(c@),
            i <= scan_roots@.len(),
            inside == (exists|j: int| 0 <= j < i && comps_start_with(cp.comps(), path_comps(#[trigger] scan_roots@[j]@))),
        decreases scan_roots.len() - i,
    {
        let rp = PathParts::parse(scan_roots[i].as_str());
        if cp.starts_with_parts(&rp) {
            inside = true;
        }
        i += 1;
    }
    if !inside {
        let mut m = "FOUND path ".to_owned();
        m.append(c.as_str());
        m.append(" is outside all scan roots");
        return Err(m);
    }
    match probe.is_file {
        Err(e) => {
            let mut m = "FOUND path no longer accessible: ".to_owned();
            m.append(e.as_str());
            Err(m)
        },
        Ok(false) => Err("FOUND path is not a regular file".to_owned()),
        Ok(true) => Ok(c),
    }
}

// ── Filesystem identity ──────────────────────────────────────────────────────

/// Stable filesystem identity captured after canonicalization; it detects a
/// target replaced between validation and use.
#[derive(Clone, Copy, Debug, PartialEq, Eq, Structural)]
pub struct PathIdentity {
    device: u64,
    inode: u64,
}

impl PathIdentity {
    /// The device number.
    pub closed spec fn dev(self) -> u64 {
        self.device
    }

    /// The inode number.
    pub closed spec fn ino(self) -> u64 {
        self.inode
    }

    pub fn new(device: u64, inode: u64) -> (r: PathIdentity)
        ensures
            r.dev() == device,
            r.ino() == inode,
    {
        PathIdentity { device, inode }
    }

    pub fn device(&self) -> (r: u64)
        ensures
            r == self.dev(),
    {
        self.device
    }

    pub fn inode(&self) -> (r: u64)
        ensures
            r == self.ino(),
    {
        self.inode
    }
}

/// What `path_identity` answers given what inspecting the entry (without
/// following links) reported: `(is_symlink, device, inode)` or the error.
pub open spec fn path_identity_outcome(path: Seq<char>, meta: Result<(bool, u64, u64), String>) -> Result<(u64, u64), Seq<char>> {
    match meta {
        Err(e) => Err("Unable to inspect "@ + path + ": "@ + e@),
        Ok((true, _, _)) => Err("Symbolic link rejected: "@ + path),
        Ok((false, d, i)) => Ok((d, i)),
    }
}

/// The identity of an entry that is not a symbolic link.
pub fn path_identity_from(path: &str, meta: Result<(bool, u64, u64), String>) -> (r: Result<PathIdentity, String>)
    ensures
        match r {
            Ok(id) => path_identity_outcome(path@, meta) == Ok::<(u64, u64), Seq<char>>((id.dev(), id.ino())),
            Err(e) => path_identity_outcome(path@, meta) == Err::<(u64, u64), Seq<char>>(e@),
        },
{
    match meta {
        Err(e) => {
            let mut m = "Unable to inspect ".to_owned();
            m.append(path);
            m.append(": ");
            m.append(e.as_str());
            Err(m)
        },
        Ok((true, _, _)) => {
            let mut m = "Symbolic link rejected: ".to_owned();
            m.append(path);
            Err(m)
        },
        Ok((false, d, i)) => Ok(PathIdentity { device: d, inode: i }),
    }
}

/// Checks that the entry at `path` still has the identity recorded at
/// validation time; `current` is its identity now, or the error met while
/// reading it.
pub fn revalidate_path_identity(path: &str, current: Result<PathIdentity, String>, expected: PathIdentity) -> (r: Result<(), String>)
    ensures
        unit_view(r) == (match current {
            Err(e) => Err(e@),
            Ok(id) => if id == expected {
                Ok(())
            } else {
                Err("Path changed after validation: "@ + path@)
            },
        }),
{
    let id = match current {
        Err(e) => return Err(e),
        Ok(id) => id,
    };
    if id != expected {
        let mut m = "Path changed after validation: ".to_owned();
        m.append(path);
        return Err(m);
    }
    Ok(())
}


// ── Component prefixes ───────────────────────────────────────────────────────

/// `PathBuf::push` of one component onto a path string.
pub open spec fn path_push(cur: Seq<char>, comp: Seq<char>) -> Seq<char> {
    if cur.len() == 0 {
        comp
    } else if cur.last() == '/' {
        cur + comp
    } else {
        cur + seq!['/'] + comp
    }
}

/// The path built by pushing the first `k` components, one after the other.
pub open spec fn prefix_string(cs: Seq<Seq<char>>, k: int) -> Seq<char>
    decreases k,
{
    if k <= 0 {
        Seq::empty()
    } else {
        path_push(prefix_string(cs, k - 1), cs[k - 1])
    }
}

/// The successive prefixes of `path`, one per component (`/`, `/a`, `/a/b`,
/// …): each is a location that must not be a symbolic link.
pub fn component_prefixes(path: &str) -> (r: Vec<String>)
    ensures
        r@.len() == path_comps(path@).len(),
        forall|k: int| 0 <= k < r@.len() ==> #[trigger] r@[k]@ == prefix_string(path_comps(path@), k + 1),
{
    let p = PathParts::parse(path);
    let n = p.comps_len();
    let mut out: Vec<String> = Vec::new();
    let mut cur = String::new();
    let mut t: usize = 0;
    while t < n
        invariant
            p.wf(),
            n == p.comps().len(),
            p.comps() == path_comps(path@),
            t <= n,
            cur@ == prefix_string(p.comps(), t as int),
            out@.len() == t,
            forall|k: int| 0 <= k < t ==> #[trigger] out@[k]@ == prefix_string(p.comps(), k + 1),
        decreases n - t,
    {
        let comp = if p.rooted && t == 0 {
            let mut c = String::new();
            push_char(&mut c, '/');
            assert(c@ =~= root_comp());
            c
        } else {
            let k = if p.rooted { t - 1 } else { t };
            let (a, b) = p.ranges[k];
            assert(p.comps()[t as int] == p.comp(k as int));
            string_of_range(&p.chars, a, b)
        };
        assert(comp@ == p.comps()[t as int]);
        let cv = chars_of(cur.as_str());
        if cv.len() == 0 {
            cur = comp;
        } else if cv[cv.len() - 1] == '/' {
            cur.append(comp.as_str());
        } else {
            push_char(&mut cur, '/');
            cur.append(comp.as_str());
        }
        assert(cur@ =~= prefix_string(p.comps(), t + 1));
        out.push(cur.clone());
        t += 1;
    }
    out
}

// ── ClamAV exclusions ────────────────────────────────────────────────────────

/// Whether a character has a meaning in a POSIX extended regular expression.
pub open spec fn regex_special(c: char) -> bool {
    ||| c == '.'
    ||| c == '+'
    ||| c == '*'
    ||| c == '?'
    ||| c == '^'
    ||| c == '$'
    ||| c == '{'
    ||| c == '}'
    ||| c == '['
    ||| c == ']'
    ||| c == '\\'
    ||| c == '|'
    ||| c == '('
    ||| c == ')'
}

/// Every special character preceded by a backslash.
pub open spec fn regex_escape(s: Seq<char>) -> Seq<char>
    decreases s.len(),
{
    if s.len() == 0 {
        Seq::empty()
    } else {
        regex_escape(s.drop_last()) + (if regex_special(s.last()) {
            seq!['\\', s.last()]
        } else {
            seq![s.last()]
        })
    }
}

/// A path as a POSIX ERE that matches exactly that path: `^…$`, with every
/// special character escaped.
pub fn regex_escape_path_as_anchor(p: &str) -> (r: String)
    ensures
        r@ == seq!['^'] + regex_escape(p@) + seq!['$'],
{
    let v = chars_of(p);
    let mut out = String::new();
    push_char(&mut out, '^');
    let mut i: usize = 0;
    while i < v.len()
        invariant
            i <= v@.len(),
            v@ == p@,
            out@ == seq!['^'] + regex_escape(v@.take(i as int)),
        decreases v.len() - i,
    {
        let c = v[i];
        proof {
            assert(v@.take(i + 1).drop_last() =~= v@.take(i as int));
        }
        if c == '.' || c == '+' || c == '*' || c == '?' || c == '^' || c == '$' || c == '{' || c
            == '}' || c == '[' || c == ']' || c == '\\' || c == '|' || c == '(' || c == ')' {
            push_char(&mut out, '\\');
        }
        push_char(&mut out, c);
        assert(out@ =~= seq!['^'] + regex_escape(v@.take(i + 1)));
        i += 1;
    }
    assert(v@.take(v@.len() as int) =~= v@);
    push_char(&mut out, '$');
    out
}


/// The home-relative subtrees that hold secrets: always excluded from scans.
pub open spec fn forbidden_subtrees() -> Seq<Seq<char>> {
    seq![
        ".ssh"@,
        ".gnupg"@,
        ".aws"@,
        ".kube"@,
        ".config/1Password"@,
        "Library/Keychains"@,
        "Library/Application Support/1Password"@,
        "Library/Application Support/com.apple.TCC"@,
    ]
}

/// The protected subtrees under the home directory, in order.
pub fn forbidden_subtree_list() -> (r: Vec<&'static str>)
    ensures
        r@.map_values(|s: &str| s@) == forbidden_subtrees(),
{
    let r = vec![
        ".ssh",
        ".gnupg",
        ".aws",
        ".kube",
        ".config/1Password",
        "Library/Keychains",
        "Library/Application Support/1Password",
        "Library/Application Support/com.apple.TCC",
    ];
    assert(r@.map_values(|s: &str| s@) =~= forbidden_subtrees());
    r
}

/// `base` joined with the relative path `rel` (`PathBuf::push`).
pub fn path_join(base: &str, rel: &str) -> (r: String)
    ensures
        r@ == path_push(base@, rel@),
{
    let v = chars_of(base);
    let mut out = String::new();
    push_str(&mut out, base);
    assert(out@ =~= base@);
    if v.len() > 0 && v[v.len() - 1] != '/' {
        push_char(&mut out, '/');
    }
    push_str(&mut out, rel);
    out
}

/// The abstract value of an optional string.
pub open spec fn opt_view(o: Option<String>) -> Option<Seq<char>> {
    match o {
        Some(s) => Some(s@),
        None => None,
    }
}

/// Where the `k`-th protected subtree resolves to, when it exists on disk.
pub open spec fn resolved_at(resolved: Seq<Option<String>>, k: int) -> Option<Seq<char>> {
    if 0 <= k < resolved.len() {
        opt_view(resolved[k])
    } else {
        None
    }
}

/// The paths to exclude when scanning `root`, in the order they are found:
/// for each protected subtree, its location under `home` when that lies
/// under `root`, then where it really resolves to when that lies under `root`.
pub open spec fn exclusion_candidates(
    root: Seq<char>,
    home: Seq<char>,
    resolved: Seq<Option<String>>,
    k: int,
) -> Seq<Seq<char>>
    decreases k,
{
    if k <= 0 {
        Seq::empty()
    } else {
        let before = exclusion_candidates(root, home, resolved, k - 1);
        let lexical = path_push(home, forbidden_subtrees()[k - 1]);
        let with_lexical = if comps_start_with(path_comps(lexical), path_comps(root)) {
            before.push(lexical)
        } else {
            before
        };
        match resolved_at(resolved, k - 1) {
            Some(c) => if comps_start_with(path_comps(c), path_comps(root)) {
                with_lexical.push(c)
            } else {
                with_lexical
            },
            None => with_lexical,
        }
    }
}

/// The scanner argument that skips exactly the directory `p`.
pub open spec fn exclude_arg(p: Seq<char>) -> Seq<char> {
    "--exclude-dir="@ + seq!['^'] + regex_escape(p) + seq!['$']
}

/// The `--exclude-dir` arguments for every protected subtree that lies under
/// `scan_root`. `home` is the canonical home directory; `resolved[k]` is where
/// the `k`-th protected subtree resolves to on disk, `None` when it does not
/// exist (missing entries count as `None`). The excluded paths are listed in
/// `Path` order, each once.
pub fn clamav_exclude_args(scan_root: &str, home: &str, resolved: &[Option<String>]) -> (r: Vec<String>)
    ensures
        exists|m: Seq<Seq<char>>| #[trigger] is_sorted_set_of(
            m,
            exclusion_candidates(scan_root@, home@, resolved@, 8),
        ) && r.deep_view() == m.map_values(|p: Seq<char>| exclude_arg(p)),
{
    proof {
        reveal_strlit("--exclude-dir=");
    }
    let subs = forbidden_subtree_list();
    assert(subs@.len() == subs@.map_values(|s: &str| s@).len());
    let root = PathParts::parse(scan_root);
    let mut cands: Vec<String> = Vec::new();
    let mut k: usize = 0;
    while k < subs.len()
        invariant
            subs@.map_values(|s: &str| s@) == forbidden_subtrees(),
            subs@.len() == 8,
            root.wf(),
            root.comps() == path_comps(scan_root@),
            k <= 8,
            cands.deep_view() == exclusion_candidates(scan_root@, home@, resolved@, k as int),
        decreases 8 - k,
    {
        let ghost before = cands.deep_view();
        assert(subs@[k as int]@ == forbidden_subtrees()[k as int]);
        let lexical = path_join(home, subs[k]);
        let lp = PathParts::parse(lexical.as_str());
        if lp.starts_with_parts(&root) {
            cands.push(lexical);
            assert(cands.deep_view() =~= before.push(path_push(home@, forbidden_subtrees()[k as int])));
        }
        let ghost mid = cands.deep_view();
        if k < resolved.len() {
            match &resolved[k] {
                Some(c) => {
                    let cp = PathParts::parse(c.as_str());
                    if cp.starts_with_parts(&root) {
                        cands.push(c.clone());
                        assert(cands.deep_view() =~= mid.push(c@));
                    }
                }
                None => {}
            }
        }
        k += 1;
    }
    let kept = sorted_unique(&cands);
    let mut r: Vec<String> = Vec::new();
    let mut t: usize = 0;
    while t < kept.len()
        invariant
            t <= kept@.len(),
            r@.len() == t,
            forall|a: int| 0 <= a < t ==> #[trigger] r@[a]@ == exclude_arg(kept@[a]@),
        decreases kept@.len() - t,
    {
        let anchored = regex_escape_path_as_anchor(kept[t].as_str());
        let mut arg = String::new();
        push_str(&mut arg, "--exclude-dir=");
        push_str(&mut arg, anchored.as_str());
        assert(arg@ =~= exclude_arg(kept@[t as int]@));
        r.push(arg);
        t += 1;
    }
    assert(r.deep_view() =~= kept.deep_view().map_values(|p: Seq<char>| exclude_arg(p)));
    r
}


// ── Processes ───────────────────────────────────────────────────────────────

/// Refuses to signal the system's own processes (PID 0 and 1) and this
/// application (`own_pid`).
pub fn validate_kill_pid(pid: u64, own_pid: u64) -> (r: Result<(), String>)
    ensures
        r is Ok <==> (pid != 0 && pid != 1 && pid != own_pid),
        r matches Err(m) ==> m@ == if pid == 0 || pid == 1 {
            "PID système protégé"@
        } else {
            "Refus de tuer le processus Burrow lui-même"@
        },
{
    if pid == 0 || pid == 1 {
        let mut m = String::new();
        push_str(&mut m, "PID système protégé");
        return Err(m);
    }
    if pid == own_pid {
        let mut m = String::new();
        push_str(&mut m, "Refus de tuer le processus Burrow lui-même");
        return Err(m);
    }
    Ok(())
}

// ── Properties of the path policy ───────────────────────────────────────────

/// Whatever may be deleted permanently may also be moved to the Trash.
pub proof fn law_delete_within_trash(path: Seq<char>, home: Seq<char>)
    ensures
        delete_outcome(path, home) is Ok ==> trash_outcome(path, home) is Ok,
{
}

/// The zone closed to browsing and scanning is closed to destructive
/// commands too.
pub proof fn law_readonly_zone_within_forbidden(c: Seq<Seq<char>>, h: Seq<Seq<char>>)
    ensures
        readonly_forbidden(c, h) ==> forbidden_zone(c, h),
{
}

/// A path accepted for the Trash is absolute, has no `..` component, and
/// lies outside the system prefixes and the home directory's secrets.
pub proof fn law_trash_accepts_only_safe_paths(path: Seq<char>, home: Seq<char>)
    ensures
        trash_outcome(path, home) is Ok ==> {
            &&& has_root(path)
            &&& !path_comps(path).contains(".."@)
            &&& !under_forbidden_prefix(path_comps(path))
            &&& !under_sensitive_subtree(path_comps(path), path_comps(home))
            &&& !protected_exact(path_comps(path), path_comps(home))
        },
{
}


/// One run of components that begins with another begins with everything
/// that one begins with.
proof fn lemma_prefix_trans(d: Seq<Seq<char>>, c: Seq<Seq<char>>, p: Seq<Seq<char>>)
    requires
        comps_start_with(d, c),
        comps_start_with(c, p),
    ensures
        comps_start_with(d, p),
{
    assert(d.subrange(0, p.len() as int) =~= c.subrange(0, p.len() as int)) by {
        assert forall|i: int| 0 <= i < p.len() implies d.subrange(0, p.len() as int)[i] == c.subrange(
            0,
            p.len() as int,
        )[i] by {
            assert(d.subrange(0, c.len() as int)[i] == d[i]);
        }
    }
}

/// A launch item is accepted exactly when the path passes the basic checks,
/// names a `.plist` file, and its parent folder is the user's
/// `Library/LaunchAgents`, `/Library/LaunchAgents` or `/Library/LaunchDaemons`.
pub proof fn law_launch_item_parent(path: Seq<char>, home: Seq<char>)
    ensures
        launch_item_outcome(path, home) is Ok <==> {
            let c = path_comps(path);
            let h = path_comps(home);
            &&& basic_error(path) is None
            &&& path_extension(c) == Some("plist"@)
            &&& c.len() > 0
            &&& {
                ||| c.drop_last() == h + seq!["Library"@, "LaunchAgents"@]
                ||| c.drop_last() == abs_path(seq!["Library"@, "LaunchAgents"@])
                ||| c.drop_last() == abs_path(seq!["Library"@, "LaunchDaemons"@])
            }
        },
{
    let c = path_comps(path);
    let h = path_comps(home);
    let user = h + seq!["Library"@, "LaunchAgents"@];
    let agents = abs_path(seq!["Library"@, "LaunchAgents"@]);
    let daemons = abs_path(seq!["Library"@, "LaunchDaemons"@]);
    if c.len() > 0 {
        let parent = c.drop_last();
        assert(parent =~= c.subrange(0, c.len() - 1));
        if parent == user {
            assert(c.subrange(0, user.len() as int) =~= user);
        }
        if parent == agents {
            assert(c.subrange(0, agents.len() as int) =~= agents);
        }
        if parent == daemons {
            assert(c.subrange(0, daemons.len() as int) =~= daemons);
        }
        if comps_start_with(c, user) && c.len() == user.len() + 1 {
            assert(parent =~= user);
        }
        if comps_start_with(c, agents) && c.len() == 4 {
            assert(parent =~= agents);
        }
        if comps_start_with(c, daemons) && c.len() == 4 {
            assert(parent =~= daemons);
        }
        if comps_start_with(c, user) && (parent == agents || parent == daemons) {
            // The user's folder cannot then be a prefix of a system one's child.
            reveal_strlit("Library");
            reveal_strlit("LaunchAgents");
            reveal_strlit("LaunchDaemons");
            reveal_strlit("/");
            assert(c[c.len() - 2] == parent[2]);
            if user.len() == c.len() {
                assert(c[c.len() - 1] == user[user.len() - 1]);
                assert(c[c.len() - 2] == user[user.len() - 2]);
                assert(user[user.len() - 2] == "Library"@);
                assert(false);
            }
            assert(user.len() < c.len());
            if user.len() < c.len() - 1 {
                assert(user[user.len() - 1] == c[user.len() - 1]);
                assert(user.len() - 1 <= 1);
                if user.len() == 2 {
                    assert(c.subrange(0, user.len() as int)[1] == c[1]);
                    assert(c[1] == "Library"@);
                    assert(user[1] == "LaunchAgents"@);
                    assert("Library"@.len() != "LaunchAgents"@.len());
                    assert(false);
                } else {
                    assert(user.len() == 1);
                    assert(false);
                }
            }
        }
    }
}

/// Everything below a location closed to browsing and scanning is closed too.
pub proof fn law_readonly_closed_under_descendants(
    c: Seq<Seq<char>>,
    d: Seq<Seq<char>>,
    h: Seq<Seq<char>>,
)
    requires
        readonly_forbidden(c, h),
        comps_start_with(d, c),
    ensures
        readonly_forbidden(d, h),
{
    let fixed: Seq<Seq<Seq<char>>> = seq![
        abs_path(seq!["System"@]),
        abs_path(seq!["Library"@]),
        abs_path(seq!["usr"@]),
        abs_path(seq!["bin"@]),
        abs_path(seq!["sbin"@]),
        abs_path(seq!["etc"@]),
        abs_path(seq!["var"@]),
        abs_path(seq!["opt"@]),
        abs_path(seq!["dev"@]),
        abs_path(seq!["cores"@]),
        abs_path(seq!["private"@, "etc"@]),
        abs_path(seq!["private"@, "var"@]),
        h + seq![".ssh"@],
        h + seq![".gnupg"@],
        h + seq![".aws"@],
        h + seq![".kube"@],
        h + seq![".config"@, "1Password"@],
        h + seq!["Library"@, "Keychains"@],
        h + seq!["Library"@, "Application Support"@, "1Password"@],
        h + seq!["Library"@, "Application Support"@, "com.apple.TCC"@],
    ];
    assert forall|k: int| 0 <= k < fixed.len() && comps_start_with(c, #[trigger] fixed[k]) implies comps_start_with(
        d,
        fixed[k],
    ) by {
        lemma_prefix_trans(d, c, fixed[k]);
    }
    assert(readonly_forbidden(c, h) ==> exists|k: int| 0 <= k < fixed.len() && comps_start_with(c, #[trigger] fixed[k]));
}

/// A browse target that is accepted passed the basic checks, lies outside the
/// system prefixes, the sensitive sub-trees and the broad roots, resolved
/// without a symbolic-link component, and the answer is its canonical path,
/// itself outside the zone closed to reading.
pub proof fn law_disk_browse_accepted(path: Seq<char>, home: Seq<char>, res: Resolution)
    ensures
        disk_browse_outcome(path, home, res) is Ok ==> {
            &&& basic_error(path) is None
            &&& !readonly_forbidden(path_comps(path), path_comps(home))
            &&& !broad_root(path_comps(path))
            &&& path_comps(path) != abs_path(seq!["Volumes"@])
            &&& res matches Resolution::Canonical(c) && disk_browse_outcome(path, home, res) == Ok::<
                Seq<char>,
                Seq<char>,
            >(c@) && !readonly_forbidden(path_comps(c@), path_comps(home))
        },
{
}

/// A `FOUND` path that is accepted is non-empty, free of NUL, absolute and not
/// a link; the answer is its canonical path, which is a regular file outside
/// the protected zone and below one of the scan roots.
pub proof fn law_clamav_found_accepted(path: Seq<char>, roots: Seq<String>, home: Seq<char>, probe: FoundProbe)
    ensures
        clamav_found_outcome(path, roots, home, probe) is Ok ==> {
            &&& path.len() > 0
            &&& !path.contains('\0')
            &&& has_root(path)
            &&& !probe.is_symlink
            &&& probe.is_file == Ok::<bool, String>(true)
            &&& probe.canonical matches Ok(c) && clamav_found_outcome(path, roots, home, probe)
                == Ok::<Seq<char>, Seq<char>>(c@) && !forbidden_zone(path_comps(c@), path_comps(home))
                && under_some_root(path_comps(c@), roots)
        },
{
}

/// A character allowed inside a domain label.
pub open spec fn label_char(c: char) -> bool {
    is_ascii_alnum(c) || c == '-'
}

/// A label of a domain name as RFC 1123 has it: 1 to 63 bytes of letters,
/// digits and hyphens, neither first nor last a hyphen.
pub open spec fn label_valid(l: Seq<char>) -> bool {
    &&& 0 < l.len()
    &&& byte_len(l) <= 63
    &&& l[0] != '-'
    &&& l.last() != '-'
    &&& forall|i: int| 0 <= i < l.len() ==> label_char(#[trigger] l[i])
}

proof fn lemma_labels_error_none(ls: Seq<Seq<char>>)
    ensures
        labels_error(ls).is_none() <==> forall|k: int| 0 <= k < ls.len() ==> label_valid(#[trigger] ls[k]),
    decreases ls.len(),
{
    if ls.len() > 0 {
        lemma_labels_error_none(ls.drop_last());
        assert forall|k: int| 0 <= k < ls.len() - 1 implies #[trigger] ls.drop_last()[k] == ls[k] by {}
        if labels_error(ls).is_none() {
            assert forall|k: int| 0 <= k < ls.len() implies label_valid(#[trigger] ls[k]) by {
                if k < ls.len() - 1 {
                    assert(label_valid(ls.drop_last()[k]));
                }
            }
        } else if labels_error(ls.drop_last()).is_some() {
            let k = choose|k: int| 0 <= k < ls.len() - 1 && !label_valid(#[trigger] ls.drop_last()[k]);
            assert(!label_valid(ls[k]));
        } else {
            assert(!label_valid(ls[ls.len() - 1]));
        }
    }
}

/// When every piece read so far is made of label characters, every character
/// read so far is one, or the separator.
proof fn lemma_split_chars(s: Seq<char>, sep: char, i: int)
    requires
        0 <= i <= s.len(),
        forall|k: int, m: int|
            0 <= k < split_scan(s, sep, i).0.len() && 0 <= m < split_scan(s, sep, i).0[k].len()
                ==> label_char(#[trigger] split_scan(s, sep, i).0[k][m]),
        forall|m: int| 0 <= m < split_scan(s, sep, i).1.len() ==> label_char(#[trigger] split_scan(s, sep, i).1[m]),
    ensures
        forall|j: int| 0 <= j < i ==> #[trigger] s[j] == sep || label_char(s[j]),
    decreases i,
{
    if i > 0 {
        let prev = split_scan(s, sep, i - 1);
        let cur = split_scan(s, sep, i);
        if s[i - 1] == sep {
            assert(cur.0 == prev.0.push(prev.1));
            assert forall|k: int, m: int| 0 <= k < prev.0.len() && 0 <= m < prev.0[k].len() implies label_char(
                #[trigger] prev.0[k][m],
            ) by {
                assert(cur.0[k] == prev.0[k]);
            }
            assert forall|m: int| 0 <= m < prev.1.len() implies label_char(#[trigger] prev.1[m]) by {
                assert(cur.0[prev.0.len() as int] == prev.1);
                assert(cur.0[prev.0.len() as int][m] == prev.1[m]);
            }
        } else {
            assert(cur.1 == prev.1.push(s[i - 1]));
            assert forall|m: int| 0 <= m < prev.1.len() implies label_char(#[trigger] prev.1[m]) by {
                assert(cur.1[m] == prev.1[m]);
            }
            assert(cur.1[prev.1.len() as int] == s[i - 1]);
        }
        lemma_split_chars(s, sep, i - 1);
    }
}

/// A search domain is accepted exactly when, once trimmed, it is 1 to 253
/// bytes long and every dot-separated label is valid.
pub proof fn law_domain_labels(domain: Seq<char>)
    ensures
        domain_outcome(domain) is Ok <==> {
            let d = trim(domain);
            &&& 0 < d.len()
            &&& byte_len(d) <= 253
            &&& forall|k: int| 0 <= k < split_on(d, '.').len() ==> label_valid(#[trigger] split_on(d, '.')[k])
        },
{
    let d = trim(domain);
    let ls = split_on(d, '.');
    lemma_labels_error_none(ls);
    if 0 < d.len() && byte_len(d) <= 253 && (forall|k: int| 0 <= k < ls.len() ==> label_valid(#[trigger] ls[k])) {
        let n = d.len() as int;
        let sc = split_scan(d, '.', n);
        assert(ls == sc.0.push(sc.1));
        assert forall|k: int, m: int| 0 <= k < sc.0.len() && 0 <= m < sc.0[k].len() implies label_char(
            #[trigger] sc.0[k][m],
        ) by {
            assert(ls[k] == sc.0[k]);
            assert(label_valid(ls[k]));
        }
        assert forall|m: int| 0 <= m < sc.1.len() implies label_char(#[trigger] sc.1[m]) by {
            assert(ls[sc.0.len() as int] == sc.1);
            assert(label_valid(ls[sc.0.len() as int]));
        }
        lemma_split_chars(d, '.', n);
        assert forall|j: int| 0 <= j < n implies !(#[trigger] domain_pred()(d[j])) by {
            assert(d[j] == '.' || label_char(d[j]));
        }
        lemma_first_index(d, domain_pred(), n);
    }
}

/// A folder one level below `h` begins with `p` only where `h` does, or
/// where `p` ends with that folder's name.
proof fn lemma_prefix_after_push(h: Seq<Seq<char>>, name: Seq<char>, p: Seq<Seq<char>>)
    requires
        1 <= p.len(),
        !comps_start_with(h, p),
        p.last() != name,
    ensures
        !comps_start_with(h.push(name), p),
{
    let hn = h.push(name);
    if comps_start_with(hn, p) {
        if p.len() <= h.len() {
            assert(h.subrange(0, p.len() as int) =~= hn.subrange(0, p.len() as int));
        } else {
            assert(hn.subrange(0, p.len() as int)[p.len() - 1] == hn[p.len() - 1]);
        }
    }
}

/// Unlike the zone closed to destructive commands, the zone closed to
/// reading spares the home folder itself and its `Downloads` folder, wherever
/// home lies outside the system prefixes.
pub proof fn law_readonly_spares_home(h: Seq<Seq<char>>)
    requires
        !under_forbidden_prefix(h),
    ensures
        forbidden_zone(h, h),
        !readonly_forbidden(h, h),
        !readonly_forbidden(h + seq!["Downloads"@], h),
{
    let name = "Downloads"@;
    assert(h + seq![name] =~= h.push(name));
    reveal_strlit("Downloads");
    reveal_strlit("System");
    reveal_strlit("Library");
    reveal_strlit("usr");
    reveal_strlit("bin");
    reveal_strlit("sbin");
    reveal_strlit("etc");
    reveal_strlit("var");
    reveal_strlit("opt");
    reveal_strlit("dev");
    reveal_strlit("cores");
    reveal_strlit(".ssh");
    reveal_strlit(".gnupg");
    reveal_strlit(".aws");
    reveal_strlit(".kube");
    assert((abs_path(seq!["System"@])).last() == "System"@ && "System"@.len() != name.len());
    lemma_prefix_after_push(h, name, abs_path(seq!["System"@]));
    assert((abs_path(seq!["Library"@])).last() == "Library"@ && "Library"@.len() != name.len());
    lemma_prefix_after_push(h, name, abs_path(seq!["Library"@]));
    assert((abs_path(seq!["usr"@])).last() == "usr"@ && "usr"@.len() != name.len());
    lemma_prefix_after_push(h, name, abs_path(seq!["usr"@]));
    assert((abs_path(seq!["bin"@])).last() == "bin"@ && "bin"@.len() != name.len());
    lemma_prefix_after_push(h, name, abs_path(seq!["bin"@]));
    assert((abs_path(seq!["sbin"@])).last() == "sbin"@ && "sbin"@.len() != name.len());
    lemma_prefix_after_push(h, name, abs_path(seq!["sbin"@]));
    assert((abs_path(seq!["etc"@])).last() == "etc"@ && "etc"@.len() != name.len());
    lemma_prefix_after_push(h, name, abs_path(seq!["etc"@]));
    assert((abs_path(seq!["var"@])).last() == "var"@ && "var"@.len() != name.len());
    lemma_prefix_after_push(h, name, abs_path(seq!["var"@]));
    assert((abs_path(seq!["opt"@])).last() == "opt"@ && "opt"@.len() != name.len());
    lemma_prefix_after_push(h, name, abs_path(seq!["opt"@]));
    assert((abs_path(seq!["dev"@])).last() == "dev"@ && "dev"@.len() != name.len());
    lemma_prefix_after_push(h, name, abs_path(seq!["dev"@]));
    assert((abs_path(seq!["cores"@])).last() == "cores"@ && "cores"@.len() != name.len());
    lemma_prefix_after_push(h, name, abs_path(seq!["cores"@]));
    assert((abs_path(seq!["private"@, "etc"@])).last() == "etc"@ && "etc"@.len() != name.len());
    lemma_prefix_after_push(h, name, abs_path(seq!["private"@, "etc"@]));
    assert((abs_path(seq!["private"@, "var"@])).last() == "var"@ && "var"@.len() != name.len());
    lemma_prefix_after_push(h, name, abs_path(seq!["private"@, "var"@]));
    assert((h + seq![".ssh"@]).last() == ".ssh"@ && ".ssh"@.len() != name.len());
    lemma_prefix_after_push(h, name, h + seq![".ssh"@]);
    assert((h + seq![".gnupg"@]).last() == ".gnupg"@ && ".gnupg"@.len() != name.len());
    lemma_prefix_after_push(h, name, h + seq![".gnupg"@]);
    assert((h + seq![".aws"@]).last() == ".aws"@ && ".aws"@.len() != name.len());
    lemma_prefix_after_push(h, name, h + seq![".aws"@]);
    assert((h + seq![".kube"@]).last() == ".kube"@ && ".kube"@.len() != name.len());
    lemma_prefix_after_push(h, name, h + seq![".kube"@]);
}

/// The folders named in the laws below, written out component by component,
/// are the ones the zones are built from.
proof fn lemma_named_forms(h: Seq<Seq<char>>)
    ensures
        forall|x: Seq<char>| #[trigger] h.push(x) == h + seq![x],
        forall|x: Seq<char>, y: Seq<char>| #[trigger] h.push(x).push(y) == h + seq![x, y],
        forall|x: Seq<char>, y: Seq<char>, z: Seq<char>| #[trigger] h.push(x).push(y).push(z) == h + seq![x, y, z],
        seq![root_comp()] == abs_path(seq![]),
        forall|x: Seq<char>| #[trigger] seq![root_comp(), x] == abs_path(seq![x]),
        forall|x: Seq<char>, y: Seq<char>| #[trigger] seq![root_comp(), x, y] == abs_path(seq![x, y]),
{
    assert forall|x: Seq<char>| #[trigger] h.push(x) == h + seq![x] by {
        assert(h.push(x) =~= h + seq![x]);
    }
    assert forall|x: Seq<char>, y: Seq<char>| #[trigger] h.push(x).push(y) == h + seq![x, y] by {
        assert(h.push(x).push(y) =~= h + seq![x, y]);
    }
    assert forall|x: Seq<char>, y: Seq<char>, z: Seq<char>| #[trigger] h.push(x).push(y).push(z) == h + seq![x, y, z] by {
        assert(h.push(x).push(y).push(z) =~= h + seq![x, y, z]);
    }
    assert(seq![root_comp()] =~= abs_path(seq![]));
    assert forall|x: Seq<char>| #[trigger] seq![root_comp(), x] == abs_path(seq![x]) by {
        assert(seq![root_comp(), x] =~= abs_path(seq![x]));
    }
    assert forall|x: Seq<char>, y: Seq<char>| #[trigger] seq![root_comp(), x, y] == abs_path(seq![x, y]) by {
        assert(seq![root_comp(), x, y] =~= abs_path(seq![x, y]));
    }
}

/// Law: the home folder and its Library, Documents, Desktop, Downloads,
/// Pictures, Movies, Music, Applications, `.Trash`, `.ssh` and `.config`
/// folders, and the system folders `/`, `/Users`, `/Users/Shared`,
/// `/Applications`, `/Volumes`, `/tmp` and `/private/tmp`, are never moved to
/// the Trash nor deleted: a well-formed such path is refused as protected.
pub proof fn law_protected_folders_refused(path: Seq<char>, home: Seq<char>)
    requires
        basic_error(path) is None,
        ({
            let c = path_comps(path);
            let h = path_comps(home);
            ||| c == h
            ||| c == h.push("Library"@)
            ||| c == h.push("Documents"@)
            ||| c == h.push("Desktop"@)
            ||| c == h.push("Downloads"@)
            ||| c == h.push("Pictures"@)
            ||| c == h.push("Movies"@)
            ||| c == h.push("Music"@)
            ||| c == h.push("Applications"@)
            ||| c == h.push(".Trash"@)
            ||| c == h.push(".ssh"@)
            ||| c == h.push(".config"@)
            ||| c == seq![root_comp()]
            ||| c == seq![root_comp(), "Users"@]
            ||| c == seq![root_comp(), "Users"@, "Shared"@]
            ||| c == seq![root_comp(), "Applications"@]
            ||| c == seq![root_comp(), "Volumes"@]
            ||| c == seq![root_comp(), "tmp"@]
            ||| c == seq![root_comp(), "private"@, "tmp"@]
        }),
    ensures
        trash_outcome(path, home) == Err::<Seq<char>, Seq<char>>("Chemin protégé, refus de toucher à "@ + path),
        delete_outcome(path, home) is Err,
{
    lemma_named_forms(path_comps(home));
}

/// Law: everything below `/System`, `/Library`, `/usr`, `/bin`, `/sbin`,
/// `/etc`, `/var`, `/opt`, `/dev`, `/cores`, `/private/etc` and
/// `/private/var`, and below the home's `.ssh`, `.gnupg`, `.aws`, `.kube`,
/// `.config/1Password`, `Library/Keychains`,
/// `Library/Application Support/1Password` and
/// `Library/Application Support/com.apple.TCC`, is refused for the Trash,
/// for deletion, for browsing and for scanning, whatever resolution reports.
pub proof fn law_system_and_secret_trees_refused(path: Seq<char>, home: Seq<char>, res: Resolution)
    requires
        ({
            let c = path_comps(path);
            let h = path_comps(home);
            ||| comps_start_with(c, seq![root_comp(), "System"@])
            ||| comps_start_with(c, seq![root_comp(), "Library"@])
            ||| comps_start_with(c, seq![root_comp(), "usr"@])
            ||| comps_start_with(c, seq![root_comp(), "bin"@])
            ||| comps_start_with(c, seq![root_comp(), "sbin"@])
            ||| comps_start_with(c, seq![root_comp(), "etc"@])
            ||| comps_start_with(c, seq![root_comp(), "var"@])
            ||| comps_start_with(c, seq![root_comp(), "opt"@])
            ||| comps_start_with(c, seq![root_comp(), "dev"@])
            ||| comps_start_with(c, seq![root_comp(), "cores"@])
            ||| comps_start_with(c, seq![root_comp(), "private"@, "etc"@])
            ||| comps_start_with(c, seq![root_comp(), "private"@, "var"@])
            ||| comps_start_with(c, h.push(".ssh"@))
            ||| comps_start_with(c, h.push(".gnupg"@))
            ||| comps_start_with(c, h.push(".aws"@))
            ||| comps_start_with(c, h.push(".kube"@))
            ||| comps_start_with(c, h.push(".config"@).push("1Password"@))
            ||| comps_start_with(c, h.push("Library"@).push("Keychains"@))
            ||| comps_start_with(c, h.push("Library"@).push("Application Support"@).push("1Password"@))
            ||| comps_start_with(c, h.push("Library"@).push("Application Support"@).push("com.apple.TCC"@))
        }),
    ensures
        trash_outcome(path, home) is Err,
        delete_outcome(path, home) is Err,
        disk_browse_outcome(path, home, res) is Err,
        clamav_scan_outcome(path, home, res) is Err,
        readonly_forbidden(path_comps(path), path_comps(home)),
{
    lemma_named_forms(path_comps(home));
}

/// The bundle names that are never uninstalled nor replaced.
proof fn lemma_system_app_names(n: Seq<char>)
    ensures
        is_system_app_name(n) <==> (n == "Safari.app"@ || n == "Finder.app"@ || n == "Mail.app"@
            || n == "FaceTime.app"@ || n == "Messages.app"@ || n == "System Preferences.app"@
            || n == "System Settings.app"@ || n == "App Store.app"@ || n == "Terminal.app"@
            || n == "Xcode.app"@),
{
}

/// Law: a bundle is accepted for uninstalling exactly when it is accepted
/// for an update, and that is exactly when the path passes the basic checks,
/// names a `.app` whose folder, or whose folder's folder, is `/Applications`
/// or the home's `Applications`, and is not Safari, Finder, Mail, FaceTime,
/// Messages, System Preferences, System Settings, App Store, Terminal or
/// Xcode.
pub proof fn law_app_bundle_policy(path: Seq<char>, home: Seq<char>)
    ensures
        app_uninstall_outcome(path, home) is Ok <==> update_app_outcome(path, home) is Ok,
        app_uninstall_outcome(path, home) is Ok <==> {
            let c = path_comps(path);
            let sys = seq![root_comp(), "Applications"@];
            let user = path_comps(home).push("Applications"@);
            &&& basic_error(path) is None
            &&& path_extension(c) == Some("app"@)
            &&& c.len() >= 2
            &&& {
                ||| c.drop_last() == sys
                ||| c.drop_last() == user
                ||| c.drop_last().drop_last() == sys
                ||| c.drop_last().drop_last() == user
            }
            &&& file_name(c) != Some("Safari.app"@)
            &&& file_name(c) != Some("Finder.app"@)
            &&& file_name(c) != Some("Mail.app"@)
            &&& file_name(c) != Some("FaceTime.app"@)
            &&& file_name(c) != Some("Messages.app"@)
            &&& file_name(c) != Some("System Preferences.app"@)
            &&& file_name(c) != Some("System Settings.app"@)
            &&& file_name(c) != Some("App Store.app"@)
            &&& file_name(c) != Some("Terminal.app"@)
            &&& file_name(c) != Some("Xcode.app"@)
        },
{
    let c = path_comps(path);
    let h = path_comps(home);
    let sys = seq![root_comp(), "Applications"@];
    let user = h.push("Applications"@);
    assert(sys =~= abs_path(seq!["Applications"@]));
    assert(user =~= h + seq!["Applications"@]);
    if file_name(c) is Some {
        lemma_system_app_names(file_name(c).unwrap());
    }
    if c.len() >= 2 {
        let p1 = c.drop_last();
        let p2 = c.drop_last().drop_last();
        assert(p1 =~= c.subrange(0, c.len() - 1));
        assert(p2 =~= c.subrange(0, c.len() - 2));
        assert forall|root: Seq<Seq<char>>| #![trigger in_app_root(c, root)]
            in_app_root(c, root) <==> (p1 == root || p2 == root) by {
            if p1 == root {
                assert(c.subrange(0, root.len() as int) =~= root);
            }
            if p2 == root {
                assert(c.subrange(0, root.len() as int) =~= root);
            }
            if in_app_root(c, root) {
                if c.len() == root.len() + 1 {
                    assert(p1 =~= root);
                } else {
                    assert(p2 =~= root);
                }
            }
        }
        assert(in_applications(c, h) <==> (p1 == sys || p1 == user || p2 == sys || p2 == user));
    } else {
        assert(!in_app_root(c, sys));
        assert(!in_app_root(c, user));
    }
}

} // verus!
