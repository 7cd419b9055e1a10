//! Inventories shown for cleaning: installed applications, installer files
//! left in the usual folders, the sizes of the cleanable categories and what
//! cleaning each one does, and home folders of deleted users.
use vstd::prelude::*;
use crate::guard::{path_join, path_push};
use crate::order::{HasSize, by_key, into_items, items_of, key_views, rank_by_size, ranked_by_size, sort_by_key};
use crate::paths::{file_name, file_name_of, file_stem_of, has_extension, path_comps, path_extension, stem_or_empty};
use crate::text::{
    owned, chars_of, has_prefix, lines_of, lowercase, push_str, starts_with_str, str_eq, str_lines,
    string_of_range, to_lowercase, trim, trim_bounds,
};

verus! {

// ── Applications ────────────────────────────────────────────────────────────

/// An installed application.
pub struct AppInfo {
    pub name: String,
    pub path: String,
    pub size_mb: u64,
}

/// Whether the bundle at `path`, whose identifier is `bundle_id`, is listed:
/// an `.app` with a name, not one of Apple's own.
pub open spec fn is_listed_app(path: Seq<char>, bundle_id: Seq<char>) -> bool {
    path_extension(path_comps(path)) == Some("app"@) && !has_prefix(bundle_id, "com.apple."@)
        && stem_or_empty(path).len() > 0
}

/// The application at `path`, when it is listed; named after its bundle.
pub fn app_info(path: &str, bundle_id: &str) -> (r: Option<AppInfo>)
    ensures
        is_listed_app(path@, bundle_id@) ==> r is Some && r->0.name@ == stem_or_empty(path@)
            && r->0.path@ == path@ && r->0.size_mb == 0,
        !is_listed_app(path@, bundle_id@) ==> r is None,
{
    if !has_extension(path, "app") || starts_with_str(bundle_id, "com.apple.") {
        return None;
    }
    let name = file_stem_of(path);
    if name.as_str().unicode_len() == 0 {
        return None;
    }
    Some(AppInfo { name, path: owned(path), size_mb: 0 })
}

/// Applications keyed by their lower-cased names.
pub open spec fn apps_by_lower_name(s: Seq<AppInfo>) -> Seq<(Seq<char>, AppInfo)> {
    s.map_values(|a: AppInfo| (lowercase(a.name@), a))
}

/// Orders applications by lower-cased name, keeping the order of equal
/// names.
pub fn sort_apps(apps: Vec<AppInfo>) -> (r: Vec<AppInfo>)
    ensures
        r@ == items_of(by_key(apps_by_lower_name(apps@))),
{
    let ghost input = apps@;
    let mut rest = apps;
    let n: usize = rest.len();
    let mut keyed: Vec<(String, AppInfo)> = Vec::new();
    let mut k: usize = 0;
    while rest.len() > 0
        invariant
            rest@ == input.skip(k as int),
            k <= input.len(),
            input.len() == n,
            key_views(keyed@) == apps_by_lower_name(input.take(k as int)),
        decreases rest@.len(),
    {
        let a = rest.remove(0);
        let key = to_lowercase(a.name.as_str());
        let ghost before = keyed@;
        keyed.push((key, a));
        proof {
            assert(input.skip(k as int).remove(0) =~= input.skip(k + 1));
            assert(key_views(keyed@) =~= key_views(before).push((lowercase(a.name@), a)));
            assert(apps_by_lower_name(input.take(k + 1)) =~= apps_by_lower_name(input.take(k as int)).push(
                (lowercase(a.name@), a),
            ));
        }
        k += 1;
    }
    assert(input.take(k as int) =~= input);
    let sorted = sort_by_key(keyed);
    let r = into_items(sorted);
    assert(items_of(sorted@) =~= items_of(key_views(sorted@)));
    r
}

// ── Installer files ─────────────────────────────────────────────────────────

/// An installer (disk image, package, ISO or Xcode archive) found in one of
/// the usual folders.
pub struct InstallerFile {
    pub name: String,
    pub path: String,
    pub size_bytes: u64,
    pub source: String,
}

impl HasSize for InstallerFile {
    open spec fn size_spec(&self) -> u64 {
        self.size_bytes
    }

    fn size(&self) -> (r: u64) {
        self.size_bytes
    }
}

/// The folders searched for installers, under the home directory, with the
/// name each is shown under.
pub open spec fn installer_folder_table() -> Seq<(Seq<char>, Seq<char>)> {
    seq![
        ("Downloads"@, "Downloads"@),
        ("Desktop"@, "Desktop"@),
        ("Documents"@, "Documents"@),
        ("Library/Caches/Homebrew/downloads"@, "Homebrew Cache"@),
    ]
}

/// The folders searched for installers: `(location, source name)`.
pub fn installer_folders(home: &str) -> (r: Vec<(String, String)>)
    ensures
        r@.len() == installer_folder_table().len(),
        forall|i: int| 0 <= i < r@.len() ==> #[trigger] r@[i].0@ == path_push(home@, installer_folder_table()[i].0)
            && r@[i].1@ == installer_folder_table()[i].1,
{
    let rows: Vec<(&str, &str)> = vec![
        ("Downloads", "Downloads"),
        ("Desktop", "Desktop"),
        ("Documents", "Documents"),
        ("Library/Caches/Homebrew/downloads", "Homebrew Cache"),
    ];
    let ghost table = installer_folder_table();
    assert(rows@.map_values(|p: (&str, &str)| (p.0@, p.1@)) =~= table);
    let mut out: Vec<(String, String)> = Vec::new();
    let mut i: usize = 0;
    while i < rows.len()
        invariant
            rows@.map_values(|p: (&str, &str)| (p.0@, p.1@)) == table,
            table == installer_folder_table(),
            i <= rows@.len(),
            out@.len() == i,
            forall|j: int| 0 <= j < out@.len() ==> #[trigger] out@[j].0@ == path_push(home@, table[j].0)
                && out@[j].1@ == table[j].1,
        decreases rows@.len() - i,
    {
        let (rel, source) = rows[i];
        assert(rows@.map_values(|p: (&str, &str)| (p.0@, p.1@))[i as int] == (rel@, source@));
        out.push((path_join(home, rel), owned(source)));
        i += 1;
    }
    out
}

/// Whether a lower-cased extension marks an installer.
pub open spec fn installer_extension(ext: Seq<char>) -> bool {
    ext == "dmg"@ || ext == "pkg"@ || ext == "iso"@ || ext == "xip"@
}

/// Whether the file at `path` is an installer, by its extension in any case.
pub open spec fn is_installer_path(path: Seq<char>) -> bool {
    match path_extension(path_comps(path)) {
        Some(e) => installer_extension(lowercase(e)),
        None => false,
    }
}

/// The installer at `path` (a regular file of `size_bytes` bytes found in
/// the folder shown as `source`), when it is one.
pub fn installer_file(path: &str, size_bytes: u64, source: &str) -> (r: Option<InstallerFile>)
    ensures
        is_installer_path(path@) ==> r is Some && r->0.name@ == match file_name(path_comps(path@)) {
            Some(n) => n,
            None => seq![],
        } && r->0.path@ == path@ && r->0.size_bytes == size_bytes && r->0.source@ == source@,
        !is_installer_path(path@) ==> r is None,
{
    let p = crate::paths::PathParts::parse(path);
    let ext = match p.extension_range() {
        Some((a, b)) => string_of_range(&p.chars, a, b),
        None => return None,
    };
    let low = to_lowercase(ext.as_str());
    let s = low.as_str();
    if !(str_eq(s, "dmg") || str_eq(s, "pkg") || str_eq(s, "iso") || str_eq(s, "xip")) {
        return None;
    }
    let name = match file_name_of(path) {
        Some(n) => n,
        None => String::new(),
    };
    Some(InstallerFile { name, path: owned(path), size_bytes, source: owned(source) })
}

/// Installers, largest first.
pub fn rank_installer_files(found: Vec<InstallerFile>) -> (r: Vec<InstallerFile>)
    ensures
        r@ == ranked_by_size(found@, 0, usize::MAX as nat),
{
    rank_by_size(found, 0, usize::MAX)
}

// ── Cleanable categories ────────────────────────────────────────────────────

/// The size of a cleanable category, in MiB.
pub struct CleanCategorySize {
    pub id: String,
    pub size_mb: u64,
}

/// The cleanable categories measured one location each: `(id, location
/// under home)`.
pub open spec fn clean_size_table() -> Seq<(Seq<char>, Seq<char>)> {
    seq![
        ("user_cache"@, "Library/Caches"@),
        ("system_logs"@, "Library/Logs"@),
        ("crash_reports"@, "Library/Logs/DiagnosticReports"@),
        ("npm_cache"@, ".npm"@),
        ("yarn_cache"@, ".yarn/cache"@),
        ("xcode"@, "Library/Developer/Xcode/DerivedData"@),
        ("ios_backups"@, "Library/Application Support/MobileSync/Backup"@),
        ("brew_cache"@, "Library/Caches/Homebrew"@),
        ("simulator"@, "Library/Developer/CoreSimulator/Caches"@),
    ]
}

/// The browsers' caches, under home, measured together as `browser_cache`.
pub open spec fn browser_cache_table() -> Seq<Seq<char>> {
    seq![
        "Library/Caches/com.apple.Safari"@,
        "Library/Application Support/Google/Chrome/Default/Cache"@,
        "Library/Caches/Firefox"@,
        "Library/Application Support/BraveSoftware/Brave-Browser/Default/Cache"@,
    ]
}

fn joined_all(home: &str, rels: &Vec<&str>) -> (r: Vec<String>)
    ensures
        r@.len() == rels@.len(),
        forall|i: int| 0 <= i < r@.len() ==> #[trigger] r@[i]@ == path_push(home@, rels@[i]@),
{
    let mut out: Vec<String> = Vec::new();
    let mut i: usize = 0;
    while i < rels.len()
        invariant
            i <= rels@.len(),
            out@.len() == i,
            forall|j: int| 0 <= j < out@.len() ==> #[trigger] out@[j]@ == path_push(home@, rels@[j]@),
        decreases rels@.len() - i,
    {
        out.push(path_join(home, rels[i]));
        i += 1;
    }
    out
}

/// The location measured for each cleanable category, in table order.
pub fn clean_size_locations(home: &str) -> (r: Vec<String>)
    ensures
        r@.len() == clean_size_table().len(),
        forall|i: int| 0 <= i < r@.len() ==> #[trigger] r@[i]@ == path_push(home@, clean_size_table()[i].1),
{
    let rels: Vec<&str> = vec![
        "Library/Caches",
        "Library/Logs",
        "Library/Logs/DiagnosticReports",
        ".npm",
        ".yarn/cache",
        "Library/Developer/Xcode/DerivedData",
        "Library/Application Support/MobileSync/Backup",
        "Library/Caches/Homebrew",
        "Library/Developer/CoreSimulator/Caches",
    ];
    assert(rels@.map_values(|s: &str| s@) =~= clean_size_table().map_values(|t: (Seq<char>, Seq<char>)| t.1));
    let r = joined_all(home, &rels);
    assert forall|i: int| 0 <= i < r@.len() implies #[trigger] r@[i]@ == path_push(home@, clean_size_table()[i].1) by {
        assert(rels@.map_values(|s: &str| s@)[i] == rels@[i]@);
    }
    r
}

/// The browsers' cache locations.
pub fn browser_cache_locations(home: &str) -> (r: Vec<String>)
    ensures
        r@.len() == browser_cache_table().len(),
        forall|i: int| 0 <= i < r@.len() ==> #[trigger] r@[i]@ == path_push(home@, browser_cache_table()[i]),
{
    let rels: Vec<&str> = vec![
        "Library/Caches/com.apple.Safari",
        "Library/Application Support/Google/Chrome/Default/Cache",
        "Library/Caches/Firefox",
        "Library/Application Support/BraveSoftware/Brave-Browser/Default/Cache",
    ];
    assert(rels@.map_values(|s: &str| s@) =~= browser_cache_table());
    let r = joined_all(home, &rels);
    assert forall|i: int| 0 <= i < r@.len() implies #[trigger] r@[i]@ == path_push(home@, browser_cache_table()[i]) by {
        assert(rels@.map_values(|s: &str| s@)[i] == rels@[i]@);
    }
    r
}

/// The sum of `s`.
pub open spec fn total(s: Seq<u64>) -> int
    decreases s.len(),
{
    if s.len() == 0 {
        0
    } else {
        total(s.drop_last()) + s.last()
    }
}

/// The category sizes: one per table entry (0 where none was measured),
/// then the browsers' caches together.
pub open spec fn clean_sizes_of(category_mb: Seq<u64>, browser_mb: Seq<u64>) -> Seq<(Seq<char>, int)> {
    Seq::new(
        clean_size_table().len(),
        |i: int| (clean_size_table()[i].0, if i < category_mb.len() { category_mb[i] as int } else { 0 }),
    ).push(("browser_cache"@, total(browser_mb)))
}

/// The sizes of the cleanable categories from the sizes measured at their
/// locations and at the browsers' caches.
pub fn clean_category_sizes(category_mb: &[u64], browser_mb: &[u64]) -> (r: Vec<CleanCategorySize>)
    requires
        total(browser_mb@) <= u64::MAX,
    ensures
        r@.map_values(|c: CleanCategorySize| (c.id@, c.size_mb as int)) == clean_sizes_of(category_mb@, browser_mb@),
{
    let ids: Vec<&str> = vec![
        "user_cache", "system_logs", "crash_reports", "npm_cache", "yarn_cache", "xcode",
        "ios_backups", "brew_cache", "simulator",
    ];
    let ghost table = clean_size_table();
    assert(ids@.map_values(|s: &str| s@) =~= table.map_values(|t: (Seq<char>, Seq<char>)| t.0));
    let ghost want = clean_sizes_of(category_mb@, browser_mb@);
    let mut out: Vec<CleanCategorySize> = Vec::new();
    let mut i: usize = 0;
    while i < ids.len()
        invariant
            ids@.map_values(|s: &str| s@) == table.map_values(|t: (Seq<char>, Seq<char>)| t.0),
            table == clean_size_table(),
            want == clean_sizes_of(category_mb@, browser_mb@),
            i <= ids@.len(),
            ids@.len() == table.len(),
            out@.map_values(|c: CleanCategorySize| (c.id@, c.size_mb as int)) == want.take(i as int),
        decreases ids@.len() - i,
    {
        assert(ids@.map_values(|s: &str| s@)[i as int] == ids@[i as int]@);
        let size: u64 = if i < category_mb.len() { category_mb[i] } else { 0 };
        let c = CleanCategorySize { id: owned(ids[i]), size_mb: size };
        let ghost before = out@.map_values(|c: CleanCategorySize| (c.id@, c.size_mb as int));
        out.push(c);
        assert(out@.map_values(|c: CleanCategorySize| (c.id@, c.size_mb as int)) =~= before.push(
            (table[i as int].0, size as int),
        ));
        assert(want.take(i + 1) =~= want.take(i as int).push(want[i as int]));
        i += 1;
    }
    let mut sum: u64 = 0;
    let mut j: usize = 0;
    while j < browser_mb.len()
        invariant
            j <= browser_mb@.len(),
            sum == total(browser_mb@.take(j as int)),
            total(browser_mb@) <= u64::MAX,
        decreases browser_mb@.len() - j,
    {
        assert(browser_mb@.take(j + 1).drop_last() =~= browser_mb@.take(j as int));
        proof {
            lemma_total_prefix(browser_mb@, j + 1);
        }
        sum = sum + browser_mb[j];
        j += 1;
    }
    assert(browser_mb@.take(j as int) =~= browser_mb@);
    let ghost before = out@.map_values(|c: CleanCategorySize| (c.id@, c.size_mb as int));
    out.push(CleanCategorySize { id: owned("browser_cache"), size_mb: sum });
    assert(out@.map_values(|c: CleanCategorySize| (c.id@, c.size_mb as int)) =~= before.push(
        ("browser_cache"@, sum as int),
    ));
    assert(want.take(i as int).push(want[i as int]) =~= want);
    out
}

/// A prefix sums to no more than the whole.
pub proof fn lemma_total_prefix(s: Seq<u64>, k: int)
    requires
        0 <= k <= s.len(),
    ensures
        total(s.take(k)) <= total(s),
    decreases s.len() - k,
{
    if k < s.len() {
        lemma_total_prefix(s, k + 1);
        assert(s.take(k + 1).drop_last() =~= s.take(k));
    } else {
        assert(s.take(k) =~= s);
    }
}

/// `mb` MiB in bytes, at most `u64::MAX`.
pub open spec fn mib_bytes(mb: u64) -> int {
    if mb * 1_048_576 > u64::MAX {
        u64::MAX as int
    } else {
        mb * 1_048_576
    }
}

/// Whether cleaning a category is safe to count among the space a smart
/// scan promises: the Trash and device backups are not.
pub open spec fn counted_as_safe(id: Seq<char>) -> bool {
    id != "trash"@ && id != "ios_backups"@
}

/// The bytes that the safe categories of `s` take.
pub open spec fn safe_bytes(s: Seq<CleanCategorySize>) -> int
    decreases s.len(),
{
    if s.len() == 0 {
        0
    } else {
        safe_bytes(s.drop_last()) + if counted_as_safe(s.last().id@) {
            mib_bytes(s.last().size_mb)
        } else {
            0
        }
    }
}

proof fn lemma_safe_bytes_prefix(s: Seq<CleanCategorySize>, k: int)
    requires
        0 <= k <= s.len(),
    ensures
        0 <= safe_bytes(s.take(k)) <= safe_bytes(s),
    decreases s.len() - k,
{
    if k < s.len() {
        lemma_safe_bytes_prefix(s, k + 1);
        assert(s.take(k + 1).drop_last() =~= s.take(k));
    } else {
        assert(s.take(k) =~= s);
    }
    lemma_safe_bytes_nonneg(s.take(k));
}

proof fn lemma_safe_bytes_nonneg(s: Seq<CleanCategorySize>)
    ensures
        0 <= safe_bytes(s),
    decreases s.len(),
{
    if s.len() > 0 {
        lemma_safe_bytes_nonneg(s.drop_last());
    }
}

/// The space a smart scan can promise to free: every category but the
/// Trash and device backups.
pub fn safe_clean_bytes(categories: &Vec<CleanCategorySize>) -> (r: u64)
    requires
        safe_bytes(categories@) <= u64::MAX,
    ensures
        r == safe_bytes(categories@),
{
    let mut sum: u64 = 0;
    let mut i: usize = 0;
    while i < categories.len()
        invariant
            i <= categories@.len(),
            sum == safe_bytes(categories@.take(i as int)),
            safe_bytes(categories@) <= u64::MAX,
        decreases categories@.len() - i,
    {
        assert(categories@.take(i + 1).drop_last() =~= categories@.take(i as int));
        proof {
            lemma_safe_bytes_prefix(categories@, i + 1);
        }
        let c = &categories[i];
        let id = c.id.as_str();
        if !str_eq(id, "trash") && !str_eq(id, "ios_backups") {
            let bytes: u64 = if c.size_mb > u64::MAX / 1_048_576 {
                u64::MAX
            } else {
                c.size_mb * 1_048_576
            };
            sum = sum + bytes;
        }
        i += 1;
    }
    assert(categories@.take(i as int) =~= categories@);
    sum
}

/// What cleaning a category does.
pub enum CleanAction {
    /// Move every child of this folder to the Trash.
    ChildrenOf(String),
    /// Move these paths to the Trash, one after the other, stopping at the
    /// first failure.
    Paths(Vec<String>),
    /// Refuse, with this explanation.
    Refused(String),
}

/// How a category is cleaned: its label and action.
pub struct CleanStep {
    pub label: String,
    pub action: CleanAction,
}

/// The label of a cleanable category.
pub open spec fn clean_label(id: Seq<char>) -> Option<Seq<char>> {
    if id == "user_cache"@ {
        Some("Cache utilisateur"@)
    } else if id == "system_logs"@ {
        Some("Logs système"@)
    } else if id == "crash_reports"@ {
        Some("Rapports de crash"@)
    } else if id == "npm_cache"@ {
        Some("Cache npm"@)
    } else if id == "yarn_cache"@ {
        Some("Cache yarn"@)
    } else if id == "browser_cache"@ {
        Some("Caches navigateurs"@)
    } else if id == "trash"@ {
        Some("Corbeille"@)
    } else if id == "xcode"@ {
        Some("Xcode DerivedData"@)
    } else if id == "ios_backups"@ {
        Some("Sauvegardes iOS"@)
    } else if id == "brew_cache"@ {
        Some("Cache Homebrew"@)
    } else if id == "simulator"@ {
        Some("Cache Simulateur iOS"@)
    } else {
        None
    }
}

/// The folder, under home, whose children cleaning a category moves away,
/// for the categories cleaned that way.
pub open spec fn cleaned_folder(id: Seq<char>) -> Option<Seq<char>> {
    if id == "user_cache"@ {
        Some("Library/Caches"@)
    } else if id == "system_logs"@ {
        Some("Library/Logs"@)
    } else if id == "crash_reports"@ {
        Some("Library/Logs/DiagnosticReports"@)
    } else if id == "xcode"@ {
        Some("Library/Developer/Xcode/DerivedData"@)
    } else if id == "ios_backups"@ {
        Some("Library/Application Support/MobileSync/Backup"@)
    } else if id == "brew_cache"@ {
        Some("Library/Caches/Homebrew"@)
    } else if id == "simulator"@ {
        Some("Library/Developer/CoreSimulator/Caches"@)
    } else {
        None
    }
}

/// The paths, under home, that cleaning a category moves away, for the
/// categories cleaned that way.
pub open spec fn cleaned_paths(id: Seq<char>) -> Option<Seq<Seq<char>>> {
    if id == "npm_cache"@ {
        Some(seq![".npm/cache"@, ".npm/_logs"@])
    } else if id == "yarn_cache"@ {
        Some(seq![".yarn/cache"@])
    } else if id == "browser_cache"@ {
        Some(browser_cache_table())
    } else {
        None
    }
}

/// Why the Trash is never emptied.
pub open spec fn trash_refusal() -> Seq<char> {
    "Burrow n'efface jamais la Corbeille : utilisez Finder pour cette action irréversible"@
}

/// Law: the Trash category is never cleaned: it names no folder to empty
/// and no path to move away, so asking for it only gives a refusal.
pub proof fn law_trash_never_emptied()
    ensures
        cleaned_folder("trash"@) is None,
        cleaned_paths("trash"@) is None,
        clean_label("trash"@) is Some,
{
    reveal_strlit("trash");
    reveal_strlit("user_cache");
    reveal_strlit("system_logs");
    reveal_strlit("crash_reports");
    reveal_strlit("npm_cache");
    reveal_strlit("yarn_cache");
    reveal_strlit("browser_cache");
    reveal_strlit("xcode");
    reveal_strlit("ios_backups");
    reveal_strlit("brew_cache");
    reveal_strlit("simulator");
    assert("trash"@.len() != "user_cache"@.len());
    assert("trash"@.len() != "system_logs"@.len());
    assert("trash"@.len() != "crash_reports"@.len());
    assert("trash"@.len() != "npm_cache"@.len());
    assert("trash"@.len() != "yarn_cache"@.len());
    assert("trash"@.len() != "browser_cache"@.len());
    assert("trash"@.len() != "ios_backups"@.len());
    assert("trash"@.len() != "brew_cache"@.len());
    assert("trash"@.len() != "simulator"@.len());
    assert("trash"@[0] != "xcode"@[0]);
}

fn folder_step(home: &str, label: &str, rel: &str) -> (r: Option<CleanStep>)
    ensures
        r is Some,
        r->0.label@ == label@,
        r->0.action matches CleanAction::ChildrenOf(p) && p@ == path_push(home@, rel@),
{
    Some(CleanStep { label: owned(label), action: CleanAction::ChildrenOf(path_join(home, rel)) })
}

fn paths_step(home: &str, label: &str, rels: Vec<&str>) -> (r: Option<CleanStep>)
    ensures
        r is Some,
        r->0.label@ == label@,
        r->0.action matches CleanAction::Paths(ps) && ps@.len() == rels@.len() && forall|i: int|
            0 <= i < rels@.len() ==> #[trigger] ps@[i]@ == path_push(home@, rels@[i]@),
{
    Some(CleanStep { label: owned(label), action: CleanAction::Paths(joined_all(home, &rels)) })
}

/// How the category `id` is cleaned under `home`; `None` for an unknown
/// category, which is passed over.
pub fn clean_step(id: &str, home: &str) -> (r: Option<CleanStep>)
    ensures
        match clean_label(id@) {
            None => r is None,
            Some(label) => r is Some && r->0.label@ == label && match r->0.action {
                CleanAction::ChildrenOf(p) => cleaned_folder(id@) matches Some(rel) && p@ == path_push(
                    home@,
                    rel,
                ),
                CleanAction::Paths(ps) => cleaned_paths(id@) matches Some(rels) && ps@.len()
                    == rels.len() && forall|i: int| 0 <= i < rels.len() ==> #[trigger] ps@[i]@
                    == path_push(home@, rels[i]),
                CleanAction::Refused(why) => id@ == "trash"@ && why@ == trash_refusal(),
            },
        },
        id@ == "trash"@ ==> (r matches Some(st) && st.action is Refused),
{
    proof {
        law_trash_never_emptied();
    }
    if str_eq(id, "user_cache") {
        folder_step(home, "Cache utilisateur", "Library/Caches")
    } else if str_eq(id, "system_logs") {
        folder_step(home, "Logs système", "Library/Logs")
    } else if str_eq(id, "crash_reports") {
        folder_step(home, "Rapports de crash", "Library/Logs/DiagnosticReports")
    } else if str_eq(id, "npm_cache") {
        let rels = vec![".npm/cache", ".npm/_logs"];
        assert(rels@.map_values(|s: &str| s@) =~= seq![".npm/cache"@, ".npm/_logs"@]);
        let r = paths_step(home, "Cache npm", rels);
        proof { same_views(rels@, seq![".npm/cache"@, ".npm/_logs"@]); }
        r
    } else if str_eq(id, "yarn_cache") {
        let rels = vec![".yarn/cache"];
        assert(rels@.map_values(|s: &str| s@) =~= seq![".yarn/cache"@]);
        let r = paths_step(home, "Cache yarn", rels);
        proof { same_views(rels@, seq![".yarn/cache"@]); }
        r
    } else if str_eq(id, "browser_cache") {
        let rels = vec![
            "Library/Caches/com.apple.Safari",
            "Library/Application Support/Google/Chrome/Default/Cache",
            "Library/Caches/Firefox",
            "Library/Application Support/BraveSoftware/Brave-Browser/Default/Cache",
        ];
        assert(rels@.map_values(|s: &str| s@) =~= browser_cache_table());
        let r = paths_step(home, "Caches navigateurs", rels);
        proof { same_views(rels@, browser_cache_table()); }
        r
    } else if str_eq(id, "trash") {
        Some(
            CleanStep {
                label: owned("Corbeille"),
                action: CleanAction::Refused(
                    owned("Burrow n'efface jamais la Corbeille : utilisez Finder pour cette action irréversible"),
                ),
            },
        )
    } else if str_eq(id, "xcode") {
        folder_step(home, "Xcode DerivedData", "Library/Developer/Xcode/DerivedData")
    } else if str_eq(id, "ios_backups") {
        folder_step(home, "Sauvegardes iOS", "Library/Application Support/MobileSync/Backup")
    } else if str_eq(id, "brew_cache") {
        folder_step(home, "Cache Homebrew", "Library/Caches/Homebrew")
    } else if str_eq(id, "simulator") {
        folder_step(home, "Cache Simulateur iOS", "Library/Developer/CoreSimulator/Caches")
    } else {
        None
    }
}

proof fn same_views(a: Seq<&str>, b: Seq<Seq<char>>)
    requires
        a.map_values(|s: &str| s@) == b,
    ensures
        a.len() == b.len(),
        forall|i: int| 0 <= i < a.len() ==> #[trigger] a[i]@ == b[i],
{
    assert forall|i: int| 0 <= i < a.len() implies #[trigger] a[i]@ == b[i] by {
        assert(a.map_values(|s: &str| s@)[i] == a[i]@);
    }
}

// ── Deleted users ───────────────────────────────────────────────────────────

/// A home folder left by a user account that no longer exists.
pub struct DeletedUserEntry {
    pub username: String,
    pub home_path: String,
    pub size_bytes: u64,
}

/// The accounts that `dscl . list /Users` lists, system accounts (`_`)
/// left out.
pub open spec fn active_accounts(ls: Seq<Seq<char>>) -> Seq<Seq<char>>
    decreases ls.len(),
{
    if ls.len() == 0 {
        seq![]
    } else {
        let t = trim(ls.last());
        if t.len() > 0 && t[0] != '_' {
            active_accounts(ls.drop_last()).push(t)
        } else {
            active_accounts(ls.drop_last())
        }
    }
}

/// The active accounts, from what `dscl . list /Users` printed.
pub fn active_users(dscl_output: &str) -> (r: Vec<String>)
    ensures
        r.deep_view() == active_accounts(str_lines(dscl_output@)),
{
    let lines = lines_of(dscl_output);
    let ghost ls = lines.deep_view();
    let mut out: Vec<String> = Vec::new();
    let mut i: usize = 0;
    while i < lines.len()
        invariant
            ls == lines.deep_view(),
            i <= lines@.len(),
            out.deep_view() == active_accounts(ls.take(i as int)),
        decreases lines@.len() - i,
    {
        assert(ls.take(i + 1).drop_last() =~= ls.take(i as int));
        assert(ls.take(i + 1).last() == lines@[i as int]@);
        let v = chars_of(lines[i].as_str());
        let (a, b) = trim_bounds(&v);
        if a < b && v[a] != '_' {
            let t = string_of_range(&v, a, b);
            let ghost before = out.deep_view();
            out.push(t);
            assert(out.deep_view() =~= before.push(trim(lines@[i as int]@)));
        }
        i += 1;
    }
    assert(ls.take(i as int) =~= ls);
    out
}

/// The name of the folder under `/Users` at `path`, when it is the home
/// folder of a deleted account: not hidden, not `Shared`, not active.
pub open spec fn deleted_account(path: Seq<char>, active: Seq<Seq<char>>) -> Option<Seq<char>> {
    let name = match file_name(path_comps(path)) {
        Some(n) => n,
        None => seq![],
    };
    if (name.len() > 0 && name[0] == '.') || name == "Shared"@ || active.contains(name) {
        None
    } else {
        Some(name)
    }
}

/// The account a folder under `/Users` belonged to, when that account no
/// longer exists.
pub fn deleted_user_name(path: &str, active: &Vec<String>) -> (r: Option<String>)
    ensures
        match deleted_account(path@, active.deep_view()) {
            Some(n) => r is Some && r->0@ == n,
            None => r is None,
        },
{
    let name = match file_name_of(path) {
        Some(n) => n,
        None => String::new(),
    };
    let v = chars_of(name.as_str());
    if (v.len() > 0 && v[0] == '.') || str_eq(name.as_str(), "Shared") {
        return None;
    }
    let mut i: usize = 0;
    while i < active.len()
        invariant
            i <= active@.len(),
            name@ == match file_name(path_comps(path@)) {
                Some(n) => n,
                None => seq![],
            },
            forall|j: int| 0 <= j < i ==> active.deep_view()[j] != name@,
        decreases active@.len() - i,
    {
        if str_eq(active[i].as_str(), name.as_str()) {
            assert(active.deep_view()[i as int] == name@);
            assert(active.deep_view().contains(name@));
            return None;
        }
        i += 1;
    }
    assert(!active.deep_view().contains(name@));
    Some(name)
}

/// A deleted account's home folder and the space it takes (`size_mb` MiB).
pub fn deleted_user_entry(username: String, home_path: &str, size_mb: u64) -> (e: DeletedUserEntry)
    ensures
        e.username == username,
        e.home_path@ == home_path@,
        e.size_bytes == mib_bytes(size_mb),
{
    let size_bytes: u64 = if size_mb > u64::MAX / 1_048_576 {
        u64::MAX
    } else {
        size_mb * 1_048_576
    };
    DeletedUserEntry { username, home_path: owned(home_path), size_bytes }
}

} // verus!
