//! Uninstalling through the bundled `mo` tool: the application name handed
//! to it, the files its preview lists, and the check that they all lie where
//! an uninstall may remove things.
use vstd::prelude::*;
use crate::guard::{is_forbidden_for_readonly, readonly_forbidden, path_join, path_push};
use crate::paths::{PathParts, comps_start_with, path_comps, path_extension, abs_path, starts_abs2, starts_abs3};
use crate::roots::first_occurrence;
use crate::text::{
    byte_len, byte_len_of, chars_of, is_control, is_ctrl, lemma_byte_len_ge_len, push_char,
    push_str, str_lines, lines_of, trim, trim_bounds, string_of_range, find_seq, find_chars,
    string_chars, matches_at, has_at, lemma_find_from,
};

verus! {

// ── Application names ───────────────────────────────────────────────────────

/// A name `mo` could read as an option, or that is empty, too long (255
/// bytes) or holds a control character.
pub open spec fn unusable_app_name(name: Seq<char>) -> bool {
    ||| name.len() == 0
    ||| byte_len(name) > 255
    ||| name[0] == '-'
    ||| exists|i: int| 0 <= i < name.len() && #[trigger] is_ctrl(name[i])
}

/// Checks the application name passed to `mo uninstall`.
pub fn validate_mole_app_name(name: &str) -> (r: Result<(), String>)
    ensures
        r is Ok <==> !unusable_app_name(name@),
        r matches Err(m) ==> m@ == "Nom d'application incompatible avec la désinstallation Mole"@,
{
    let v = chars_of(name);
    let n = v.len();
    let mut bad = n == 0;
    if !bad {
        proof {
            lemma_byte_len_ge_len(v@);
        }
        if n > 255 {
            bad = true;
        } else {
            let b = byte_len_of(&v, 0, n);
            assert(v@.subrange(0, n as int) =~= v@);
            bad = b > 255 || v[0] == '-';
        }
        let mut i: usize = 0;
        while i < n && !bad
            invariant
                n == v@.len(),
                v@ == name@,
                i <= n,
                !bad ==> forall|j: int| 0 <= j < i ==> !is_ctrl(#[trigger] v@[j]),
                !bad ==> byte_len(v@) <= 255 && v@[0] != '-' && n > 0,
                bad ==> unusable_app_name(name@),
            decreases n - i,
        {
            if is_control(v[i]) {
                bad = true;
            }
            i += 1;
        }
    }
    if bad {
        let mut m = String::new();
        push_str(&mut m, "Nom d'application incompatible avec la désinstallation Mole");
        return Err(m);
    }
    Ok(())
}

// ── Terminal output ─────────────────────────────────────────────────────────

pub open spec fn is_csi_final(c: char) -> bool {
    '@' <= c && c <= '~'
}

/// What follows a control sequence's parameters: everything after its first
/// final character (nothing when it has none).
pub open spec fn after_csi(t: Seq<char>) -> Seq<char>
    decreases t.len(),
{
    if t.len() == 0 {
        t
    } else if is_csi_final(t[0]) {
        t.skip(1)
    } else {
        after_csi(t.skip(1))
    }
}

/// `s` without terminal control sequences (`ESC [ … final`), lone escape
/// characters and carriage returns.
pub open spec fn plain_text(s: Seq<char>) -> Seq<char>
    decreases s.len(),
{
    if s.len() == 0 {
        s
    } else if s[0] == '\u{1b}' {
        if s.len() > 1 && s[1] == '[' {
            proof {
                lemma_after_csi_len(s.skip(2));
            }
            plain_text(after_csi(s.skip(2)))
        } else {
            plain_text(s.skip(1))
        }
    } else if s[0] == '\r' {
        plain_text(s.skip(1))
    } else {
        seq![s[0]] + plain_text(s.skip(1))
    }
}

pub proof fn lemma_after_csi_len(t: Seq<char>)
    ensures
        after_csi(t).len() <= t.len(),
        exists|k: int| 0 <= k <= t.len() && after_csi(t) == #[trigger] t.skip(k),
    decreases t.len(),
{
    if t.len() == 0 {
        assert(t.skip(0) =~= t);
    } else if !is_csi_final(t[0]) {
        lemma_after_csi_len(t.skip(1));
        let k = choose|k: int| 0 <= k <= t.skip(1).len() && after_csi(t.skip(1)) == #[trigger] t.skip(1).skip(k);
        assert(t.skip(1).skip(k) =~= t.skip(k + 1));
    }
}

/// Removes terminal control sequences and carriage returns.
pub fn strip_terminal_sequences(value: &str) -> (r: String)
    ensures
        r@ == plain_text(value@),
{
    let v = chars_of(value);
    let n = v.len();
    let mut out = String::new();
    let mut i: usize = 0;
    assert(v@.skip(0) =~= v@);
    while i < n
        invariant
            v@ == value@,
            n == v@.len(),
            i <= n,
            out@ + plain_text(v@.skip(i as int)) == plain_text(v@),
        decreases n - i,
    {
        let c = v[i];
        let ghost rest = v@.skip(i as int);
        assert(rest[0] == c);
        if c == '\u{1b}' {
            if i + 1 < n && v[i + 1] == '[' {
                assert(rest[1] == '[');
                assert(rest.skip(2) =~= v@.skip(i + 2));
                let mut j: usize = i + 2;
                assert(v@.skip(j as int) =~= v@.skip(i + 2));
                while j < n && !('@' <= v[j] && v[j] <= '~')
                    invariant
                        n == v@.len(),
                        i + 2 <= j <= n,
                        after_csi(v@.skip(j as int)) == after_csi(v@.skip(i + 2)),
                    decreases n - j,
                {
                    assert(v@.skip(j as int)[0] == v@[j as int]);
                    assert(v@.skip(j as int).skip(1) =~= v@.skip(j + 1));
                    j += 1;
                }
                if j < n {
                    assert(v@.skip(j as int)[0] == v@[j as int]);
                    assert(v@.skip(j as int).skip(1) =~= v@.skip(j + 1));
                    i = j + 1;
                } else {
                    assert(v@.skip(j as int).len() == 0);
                    i = n;
                }
            } else {
                assert(rest.skip(1) =~= v@.skip(i + 1));
                i += 1;
            }
        } else if c == '\r' {
            assert(rest.skip(1) =~= v@.skip(i + 1));
            i += 1;
        } else {
            let ghost before = out@;
            push_char(&mut out, c);
            assert(rest.skip(1) =~= v@.skip(i + 1));
            assert(out@ + plain_text(v@.skip(i + 1)) =~= before + (seq![c] + plain_text(v@.skip(i + 1))));
            i += 1;
        }
    }
    assert(v@.skip(n as int) =~= Seq::<char>::empty());
    assert(out@ + Seq::<char>::empty() =~= out@);
    out
}


// ── The preview's file list ─────────────────────────────────────────────────

/// The last occurrence of `pat` in `s` at or before `i`.
pub open spec fn rfind_from(s: Seq<char>, pat: Seq<char>, i: int) -> Option<int>
    decreases i + 1,
{
    if i < 0 {
        None
    } else if matches_at(s, pat, i) {
        Some(i)
    } else {
        rfind_from(s, pat, i - 1)
    }
}

/// The last occurrence of `pat` in `s` (`str::rfind`).
pub open spec fn rfind_seq(s: Seq<char>, pat: Seq<char>) -> Option<int> {
    rfind_from(s, pat, s.len() - pat.len())
}

/// The last occurrence of `pat` in `v`.
pub fn rfind_chars(v: &Vec<char>, pat: &Vec<char>) -> (r: Option<usize>)
    ensures
        match rfind_seq(v@, pat@) {
            Some(k) => r == Some(k as usize) && matches_at(v@, pat@, k),
            None => r is None,
        },
{
    if pat.len() > v.len() {
        return None;
    }
    let mut i: usize = v.len() - pat.len();
    loop
        invariant
            pat@.len() <= v@.len(),
            i <= v@.len() - pat@.len(),
            rfind_seq(v@, pat@) == rfind_from(v@, pat@, i as int),
        decreases i,
    {
        if crate::text::chars_at(v, i, pat) {
            return Some(i);
        }
        if i == 0 {
            return None;
        }
        i -= 1;
    }
}

/// `base` joined with `rel` (`Path::join`): `rel` itself when absolute.
pub open spec fn joined(base: Seq<char>, rel: Seq<char>) -> Seq<char> {
    if rel.len() > 0 && rel[0] == '/' {
        rel
    } else {
        path_push(base, rel)
    }
}

/// The path shown on a preview line from `start` on: a trailing ` , <size>`
/// is dropped (every size unit ends in `B`), and `~/` stands for `home`.
pub open spec fn listed_path(d: Seq<char>, home: Seq<char>) -> Seq<char> {
    let shown = match rfind_seq(d, " , "@) {
        Some(j) => {
            let size = d.skip(j + 3);
            if size.len() > 0 && size.last() == 'B' {
                d.take(j)
            } else {
                d
            }
        },
        None => d,
    };
    if shown.len() >= 2 && shown[0] == '~' && shown[1] == '/' {
        joined(home, shown.skip(2))
    } else {
        shown
    }
}

/// Where the path on a preview line starts: at `~/`, else at the first `/`.
pub open spec fn path_start(line: Seq<char>) -> Option<int> {
    match find_seq(line, "~/"@) {
        Some(i) => Some(i),
        None => find_seq(line, "/"@),
    }
}

/// The paths listed from line `k` on, `in_list` telling whether the
/// `Files to be removed:` heading has been seen. The list ends at a line
/// starting with `➤`; `Review only:` lines are skipped.
pub open spec fn preview_paths_from(ls: Seq<Seq<char>>, home: Seq<char>, k: int, in_list: bool) -> Seq<Seq<char>>
    decreases ls.len() - k,
{
    if k < 0 || k >= ls.len() {
        seq![]
    } else {
        let line = trim(ls[k]);
        if line == "Files to be removed:"@ {
            preview_paths_from(ls, home, k + 1, true)
        } else if !in_list {
            preview_paths_from(ls, home, k + 1, false)
        } else if line.len() > 0 && line[0] == '➤' {
            seq![]
        } else if find_seq(line, "Review only:"@) is Some {
            preview_paths_from(ls, home, k + 1, true)
        } else {
            match path_start(line) {
                None => preview_paths_from(ls, home, k + 1, true),
                Some(p) => seq![listed_path(line.skip(p), home)] + preview_paths_from(ls, home, k + 1, true),
            }
        }
    }
}

/// The paths a removal preview of `mo` lists, before they are resolved.
pub open spec fn preview_paths(output: Seq<char>, home: Seq<char>) -> Seq<Seq<char>> {
    preview_paths_from(str_lines(plain_text(output)), home, 0, false)
}

fn find_lit(v: &Vec<char>, lit: &str) -> (r: Option<usize>)
    ensures
        match find_seq(v@, lit@) {
            Some(k) => r == Some(k as usize) && matches_at(v@, lit@, k),
            None => r is None,
        },
{
    let p = chars_of(lit);
    proof {
        lemma_find_from(v@, p@, 0);
    }
    assert(v@.subrange(0, v@.len() as int) =~= v@);
    find_chars(v, 0, v.len(), &p)
}

/// The path of one preview line, from where it starts.
fn path_of_line(d: &Vec<char>, home: &str) -> (r: String)
    ensures
        r@ == listed_path(d@, home@),
{
    let sep = chars_of(" , ");
    proof {
        reveal_strlit(" , ");
    }
    let mut end = d.len();
    match rfind_chars(d, &sep) {
        Some(j) => {
            let n = d.len();
            assert(d@.skip(j + 3) =~= d@.subrange(j + 3, n as int));
            if j + 3 < n && d[n - 1] == 'B' {
                end = j;
            }
        },
        None => {},
    }
    let shown = string_of_range(d, 0, end);
    let sv = chars_of(shown.as_str());
    proof {
        if end == d@.len() {
            assert(shown@ =~= d@);
        } else {
            assert(shown@ =~= d@.take(end as int));
        }
    }
    if sv.len() >= 2 && sv[0] == '~' && sv[1] == '/' {
        let rel = string_of_range(&sv, 2, sv.len());
        assert(rel@ =~= sv@.skip(2));
        if rel.unicode_len() > 0 && rel.get_char(0) == '/' {
            rel
        } else {
            path_join(home, rel.as_str())
        }
    } else {
        shown
    }
}

/// The paths a removal preview of `mo` lists, in order, `~/` expanded with
/// `home`; the caller resolves them.
pub fn mole_preview_candidates(output: &str, home: &str) -> (r: Vec<String>)
    ensures
        r.deep_view() == preview_paths(output@, home@),
{
    let clean = strip_terminal_sequences(output);
    let ls = lines_of(clean.as_str());
    let ghost lv = ls.deep_view();
    let mut out: Vec<String> = Vec::new();
    let mut in_list = false;
    let mut k: usize = 0;
    proof {
        reveal_strlit("Files to be removed:");
        reveal_strlit("Review only:");
        reveal_strlit("~/");
        reveal_strlit("/");
    }
    while k < ls.len()
        invariant
            lv == ls.deep_view(),
            lv == str_lines(plain_text(output@)),
            k <= lv.len(),
            out.deep_view() + preview_paths_from(lv, home@, k as int, in_list) == preview_paths(output@, home@),
        decreases lv.len() - k,
    {
        let lc = chars_of(ls[k].as_str());
        assert(lc@ == lv[k as int]);
        let (a, b) = trim_bounds(&lc);
        let t = string_of_range(&lc, a, b);
        let tv = string_chars(&t);
        let ghost line = trim(lv[k as int]);
        assert(tv@ == line);
        let is_heading = crate::text::str_eq(t.as_str(), "Files to be removed:");
        if is_heading {
            in_list = true;
        } else if !in_list {
        } else if tv.len() > 0 && tv[0] == '➤' {
            assert(preview_paths_from(lv, home@, k as int, in_list) =~= Seq::<Seq<char>>::empty());
            assert(out.deep_view() + Seq::<Seq<char>>::empty() =~= out.deep_view());
            return out;
        } else if find_lit(&tv, "Review only:").is_some() {
        } else {
            let start = match find_lit(&tv, "~/") {
                Some(i) => Some(i),
                None => find_lit(&tv, "/"),
            };
            match start {
                None => {},
                Some(p) => {
                    assert(p + 0 <= tv@.len());
                    let d = string_of_range(&tv, p, tv.len());
                    let dv = string_chars(&d);
                    assert(dv@ =~= line.skip(p as int));
                    let path = path_of_line(&dv, home);
                    let ghost before = out.deep_view();
                    out.push(path);
                    assert(out.deep_view() =~= before.push(path@));
                    assert(before.push(path@) + preview_paths_from(lv, home@, k + 1, true) =~= before + (seq![path@]
                        + preview_paths_from(lv, home@, k + 1, true)));
                },
            }
        }
        k += 1;
    }
    assert(out.deep_view() + Seq::<Seq<char>>::empty() =~= out.deep_view());
    out
}


/// The strings of `v[..n]` that are the first to name their path, in order.
pub open spec fn first_paths(v: Seq<Seq<char>>, n: int) -> Seq<Seq<char>>
    decreases n,
{
    if n <= 0 {
        seq![]
    } else if first_occurrence(v, n - 1) {
        first_paths(v, n - 1).push(v[n - 1])
    } else {
        first_paths(v, n - 1)
    }
}

/// The paths of `v`, each once (the first string naming it kept), in order.
pub fn unique_paths(v: Vec<String>) -> (r: Vec<String>)
    ensures
        r.deep_view() == first_paths(v.deep_view(), v@.len() as int),
{
    let ghost vv = v.deep_view();
    let mut ps: Vec<PathParts> = Vec::new();
    let mut out: Vec<String> = Vec::new();
    let mut i: usize = 0;
    while i < v.len()
        invariant
            vv == v.deep_view(),
            i <= v@.len(),
            ps@.len() == i,
            forall|k: int| 0 <= k < i ==> (#[trigger] ps@[k]).wf() && ps@[k].comps() == path_comps(vv[k]),
            out.deep_view() == first_paths(vv, i as int),
        decreases v@.len() - i,
    {
        let p = PathParts::parse(v[i].as_str());
        assert(v@[i as int]@ == vv[i as int]);
        let mut seen = false;
        let mut j: usize = 0;
        while j < i
            invariant
                vv == v.deep_view(),
                i < v@.len(),
                ps@.len() == i,
                forall|k: int| 0 <= k < i ==> (#[trigger] ps@[k]).wf() && ps@[k].comps() == path_comps(vv[k]),
                p.wf(),
                p.comps() == path_comps(vv[i as int]),
                j <= i,
                seen == exists|k: int| 0 <= k < j && path_comps(#[trigger] vv[k]) == path_comps(vv[i as int]),
            decreases i - j,
        {
            if ps[j].equals_parts(&p) {
                seen = true;
            }
            j += 1;
        }
        if !seen {
            let ghost before = out.deep_view();
            out.push(v[i].clone());
            assert(out.deep_view() =~= before.push(vv[i as int]));
        }
        ps.push(p);
        i += 1;
    }
    out
}

/// System folders where an application may leave files that its uninstall
/// removes.
pub open spec fn under_system_residual_root(c: Seq<Seq<char>>) -> bool {
    ||| comps_start_with(c, abs_path(seq!["Library"@, "Application Support"@]))
    ||| comps_start_with(c, abs_path(seq!["Library"@, "Caches"@]))
    ||| comps_start_with(c, abs_path(seq!["Library"@, "Preferences"@]))
    ||| comps_start_with(c, abs_path(seq!["Library"@, "Logs"@]))
    ||| comps_start_with(c, abs_path(seq!["Library"@, "LaunchAgents"@]))
    ||| comps_start_with(c, abs_path(seq!["Library"@, "LaunchDaemons"@]))
    ||| comps_start_with(c, abs_path(seq!["Library"@, "PrivilegedHelperTools"@]))
    ||| comps_start_with(c, abs_path(seq!["Library"@, "Extensions"@]))
    ||| comps_start_with(c, abs_path(seq!["Library"@, "Audio"@, "Plug-Ins"@]))
    ||| comps_start_with(c, abs_path(seq!["Library"@, "Internet Plug-Ins"@]))
    ||| comps_start_with(c, abs_path(seq!["Library"@, "Input Methods"@]))
    ||| comps_start_with(c, abs_path(seq!["Library"@, "Screen Savers"@]))
}

fn under_system_residual_root_exec(p: &PathParts) -> (r: bool)
    requires
        p.wf(),
    ensures
        r == under_system_residual_root(p.comps()),
{
    starts_abs2(p, "Library", "Application Support") || starts_abs2(p, "Library", "Caches") || starts_abs2(
        p,
        "Library",
        "Preferences",
    ) || starts_abs2(p, "Library", "Logs") || starts_abs2(p, "Library", "LaunchAgents") || starts_abs2(
        p,
        "Library",
        "LaunchDaemons",
    ) || starts_abs2(p, "Library", "PrivilegedHelperTools") || starts_abs2(p, "Library", "Extensions")
        || starts_abs3(p, "Library", "Audio", "Plug-Ins") || starts_abs2(p, "Library", "Internet Plug-Ins")
        || starts_abs2(p, "Library", "Input Methods") || starts_abs2(p, "Library", "Screen Savers")
}

/// A path the uninstall of the application `app` may remove: not another
/// application; the application itself, or a non-sensitive place under the
/// home directory, or a system folder for residual files.
pub open spec fn removable_residual(c: Seq<Seq<char>>, app: Seq<Seq<char>>, home: Seq<Seq<char>>) -> bool {
    let other_app = path_extension(c) == Some("app"@) && c != app;
    !other_app && (c == app || (comps_start_with(c, home) && !readonly_forbidden(c, home))
        || under_system_residual_root(c))
}

/// The first of `paths[k..]` the uninstall may not remove.
pub open spec fn first_unremovable(paths: Seq<Seq<char>>, app: Seq<char>, home: Seq<char>, k: int) -> Option<Seq<char>>
    decreases paths.len() - k,
{
    if k < 0 || k >= paths.len() {
        None
    } else if !removable_residual(path_comps(paths[k]), path_comps(app), path_comps(home)) {
        Some(paths[k])
    } else {
        first_unremovable(paths, app, home, k + 1)
    }
}

/// Checks that every path a preview lists may be removed by uninstalling
/// `selected_app`.
pub fn validate_mole_preview_paths(paths: &[String], selected_app: &str, home: &str) -> (r: Result<(), String>)
    ensures
        match first_unremovable(paths@.map_values(|s: String| s@), selected_app@, home@, 0) {
            None => r is Ok,
            Some(p) => r matches Err(m) && m@ == "Mole propose un chemin hors des zones de désinstallation autorisées : "@ + p,
        },
{
    let ghost pv = paths@.map_values(|s: String| s@);
    let app = PathParts::parse(selected_app);
    let h = PathParts::parse(home);
    let mut k: usize = 0;
    while k < paths.len()
        invariant
            pv == paths@.map_values(|s: String| s@),
            app.wf(),
            app.comps() == path_comps(selected_app@),
            h.wf(),
            h.comps() == path_comps(home@),
            k <= paths@.len(),
            first_unremovable(pv, selected_app@, home@, 0) == first_unremovable(pv, selected_app@, home@, k as int),
        decreases paths@.len() - k,
    {
        let s = &paths[k];
        assert(s@ == pv[k as int]);
        let p = PathParts::parse(s.as_str());
        let same = p.equals_parts(&app);
        let other_app = p.extension_is("app") && !same;
        let allowed = !other_app && (same || (p.starts_with_parts(&h) && !is_forbidden_for_readonly(
            s.as_str(),
            home,
        )) || under_system_residual_root_exec(&p));
        if !allowed {
            let mut m = String::new();
            push_str(&mut m, "Mole propose un chemin hors des zones de désinstallation autorisées : ");
            push_str(&mut m, s.as_str());
            return Err(m);
        }
        k += 1;
    }
    Ok(())
}

// ── Residual files ──────────────────────────────────────────────────────────

/// A file that uninstalling an application would remove with it.
pub struct FileEntry {
    pub name: String,
    pub path: String,
    pub size_bytes: u64,
    pub is_dir: bool,
}

impl crate::order::HasSize for FileEntry {
    open spec fn size_spec(&self) -> u64 {
        self.size_bytes
    }

    fn size(&self) -> (r: u64) {
        self.size_bytes
    }
}

/// The refusal when the application's bundle is not named as expected.
pub open spec fn name_mismatch_msg() -> Seq<char> {
    "Le nom ne correspond pas à l'application analysée"@
}

/// The refusal when the preview does not list the application itself.
pub open spec fn unlinked_preview_msg() -> Seq<char> {
    "Mole n'a pas relié l'application sélectionnée à cet aperçu ; aucune désinstallation ne sera autorisée"@
}

/// Checks that the application at `canonical` is the one named `app_name`
/// (its bundle's stem).
pub fn check_app_name(canonical: &str, app_name: &str) -> (r: Result<(), String>)
    ensures
        r is Ok <==> crate::paths::path_stem(path_comps(canonical@)) == Some(app_name@),
        r matches Err(e) ==> e@ == name_mismatch_msg(),
{
    let p = PathParts::parse(canonical);
    let ok = match p.stem_range() {
        Some((a, b)) => b - a == app_name.unicode_len() && has_at(&p.chars, a, app_name),
        None => false,
    };
    if ok {
        Ok(())
    } else {
        let mut e = String::new();
        push_str(&mut e, "Le nom ne correspond pas à l'application analysée");
        Err(e)
    }
}

/// Checks that the preview lists the application itself.
pub fn check_preview_links_app(paths: &Vec<String>, canonical: &str) -> (r: Result<(), String>)
    ensures
        r is Ok <==> paths.deep_view().contains(canonical@),
        r matches Err(e) ==> e@ == unlinked_preview_msg(),
{
    let mut i: usize = 0;
    while i < paths.len()
        invariant
            i <= paths@.len(),
            forall|j: int| 0 <= j < i ==> paths.deep_view()[j] != canonical@,
        decreases paths@.len() - i,
    {
        if crate::text::str_eq(paths[i].as_str(), canonical) {
            assert(paths.deep_view()[i as int] == canonical@);
            return Ok(());
        }
        i += 1;
    }
    let mut e = String::new();
    push_str(&mut e, "Mole n'a pas relié l'application sélectionnée à cet aperçu ; aucune désinstallation ne sera autorisée");
    Err(e)
}

/// A residual file listed by the preview, with what its metadata says
/// (`(is_dir, size)`, the size measured with `du` for a folder), when it
/// could be read; the application itself is not listed.
pub fn residual_entry(path: &str, canonical: &str, meta: Option<(bool, u64)>) -> (r: Option<FileEntry>)
    ensures
        match (meta, r) {
            (Some((is_dir, size)), Some(e)) => path@ != canonical@ && e.name@ == match crate::paths::file_name(
                path_comps(path@),
            ) {
                Some(n) => n,
                None => "Fichier associé"@,
            } && e.path@ == path@ && e.is_dir == is_dir && e.size_bytes == size,
            (Some(_), None) => path@ == canonical@,
            (None, Some(_)) => false,
            (None, None) => true,
        },
{
    if crate::text::str_eq(path, canonical) {
        return None;
    }
    match meta {
        None => None,
        Some((is_dir, size_bytes)) => {
            let name = match crate::paths::file_name_of(path) {
                Some(n) => n,
                None => {
                    let mut n = String::new();
                    push_str(&mut n, "Fichier associé");
                    n
                },
            };
            let mut p = String::new();
            push_str(&mut p, path);
            Some(FileEntry { name, path: p, size_bytes, is_dir })
        },
    }
}

/// The residual files, largest first.
pub fn rank_residuals(entries: Vec<FileEntry>) -> (r: Vec<FileEntry>)
    ensures
        r@ == crate::order::ranked_by_size(entries@, 0, usize::MAX as nat),
{
    crate::order::rank_by_size(entries, 0, usize::MAX)
}

} // verus!
