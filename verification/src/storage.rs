//! Storage listings: the main folders by size, build artifacts left in
//! projects, large files, and Xcode's derived data. The sizes are measured
//! outside; this module decides what is listed, under which name, and in
//! which order.
use vstd::prelude::*;
use crate::json::{JsonValue, as_bool, as_whole, field, flag, get, or_blank, text, text_or_blank, whole};
use crate::guard::{path_join, path_push};
use crate::order::{HasSize, lemma_ranked_lift, lift, rank_by_size, ranked, ranked_by_size, sized};
use crate::paths::{file_name, file_name_of, path_comps};
use crate::text::{
    owned, chars_of, find_chars, find_from, find_seq, lines_of, push_str, replace_all, replace_char,
    str_eq, str_lines, string_of_range,
};
use crate::mole::{rfind_chars, rfind_seq};

verus! {

// ── Main folders ────────────────────────────────────────────────────────────

/// A main folder and the space it takes.
pub struct DiskCategory {
    pub id: String,
    pub name: String,
    pub path: String,
    pub size_bytes: u64,
}

impl HasSize for DiskCategory {
    open spec fn size_spec(&self) -> u64 {
        self.size_bytes
    }

    fn size(&self) -> (r: u64) {
        self.size_bytes
    }
}

pub open spec fn disk_category_view(c: DiskCategory) -> (Seq<char>, Seq<char>, Seq<char>, u64) {
    (c.id@, c.name@, c.path@, c.size_bytes)
}

/// The main folders: `(id, name, location)`; the first location is
/// absolute, the others are under the home directory.
pub open spec fn disk_category_table() -> Seq<(Seq<char>, Seq<char>, Seq<char>)> {
    seq![
        ("applications"@, "Applications"@, "/Applications"@),
        ("documents"@, "Documents"@, "Documents"@),
        ("downloads"@, "Téléchargements"@, "Downloads"@),
        ("desktop"@, "Bureau"@, "Desktop"@),
        ("developer"@, "Développeur"@, "Developer"@),
        ("movies"@, "Films"@, "Movies"@),
        ("music"@, "Musique"@, "Music"@),
        ("pictures"@, "Photos"@, "Pictures"@),
        ("trash"@, "Corbeille"@, ".Trash"@),
    ]
}

/// Where main folder `i` is.
pub open spec fn category_location(home: Seq<char>, i: int) -> Seq<char> {
    if i == 0 {
        disk_category_table()[0].2
    } else {
        path_push(home, disk_category_table()[i].2)
    }
}

/// The locations of the main folders, in table order, for measuring.
pub fn disk_category_locations(home: &str) -> (r: Vec<String>)
    ensures
        r@.len() == disk_category_table().len(),
        forall|i: int| 0 <= i < r@.len() ==> #[trigger] r@[i]@ == category_location(home@, i),
{
    let rels: Vec<&str> = vec![
        "Documents", "Downloads", "Desktop", "Developer", "Movies", "Music", "Pictures", ".Trash",
    ];
    let ghost table = disk_category_table();
    assert(rels@.map_values(|s: &str| s@) =~= table.drop_first().map_values(
        |t: (Seq<char>, Seq<char>, Seq<char>)| t.2,
    ));
    assert(rels@.len() + 1 == table.len());
    let mut out: Vec<String> = Vec::new();
    let mut first = String::new();
    push_str(&mut first, "/Applications");
    out.push(first);
    let mut i: usize = 0;
    while i < rels.len()
        invariant
            table == disk_category_table(),
            rels@.map_values(|s: &str| s@) == table.drop_first().map_values(
                |t: (Seq<char>, Seq<char>, Seq<char>)| t.2,
            ),
            i <= rels@.len(),
            rels@.len() + 1 == table.len(),
            out@.len() == i + 1,
            forall|j: int| 0 <= j < out@.len() ==> #[trigger] out@[j]@ == category_location(home@, j),
        decreases rels@.len() - i,
    {
        assert(rels@.map_values(|s: &str| s@)[i as int] == rels@[i as int]@);
        assert(table.drop_first()[i as int] == table[i + 1]);
        assert(rels@[i as int]@ == table[i + 1].2);
        out.push(path_join(home, rels[i]));
        i += 1;
    }
    out
}

/// The main folders with their measured sizes, as `(size, view)` pairs.
pub open spec fn category_pairs(home: Seq<char>, sizes: Seq<u64>) -> Seq<(u64, (Seq<char>, Seq<char>, Seq<char>, u64))> {
    Seq::new(
        disk_category_table().len(),
        |i: int|
            {
                let size: u64 = if i < sizes.len() { sizes[i] } else { 0 };
                (size, (disk_category_table()[i].0, disk_category_table()[i].1, category_location(home, i), size))
            },
    )
}

/// The main folders that take space, largest first, given the size measured
/// at each location (0 where it is missing).
pub fn disk_categories(home: &str, sizes: &[u64]) -> (r: Vec<DiskCategory>)
    ensures
        r@.map_values(|c: DiskCategory| disk_category_view(c)) == ranked(
            category_pairs(home@, sizes@),
            1,
            usize::MAX as nat,
        ),
{
    let ids: Vec<(&str, &str)> = vec![
        ("applications", "Applications"),
        ("documents", "Documents"),
        ("downloads", "Téléchargements"),
        ("desktop", "Bureau"),
        ("developer", "Développeur"),
        ("movies", "Films"),
        ("music", "Musique"),
        ("pictures", "Photos"),
        ("trash", "Corbeille"),
    ];
    let ghost table = disk_category_table();
    assert(ids@.map_values(|p: (&str, &str)| (p.0@, p.1@)) =~= table.map_values(
        |t: (Seq<char>, Seq<char>, Seq<char>)| (t.0, t.1),
    ));
    assert(ids@.len() == table.len());
    let locations = disk_category_locations(home);
    let ghost pairs = category_pairs(home@, sizes@);
    let mut all: Vec<DiskCategory> = Vec::new();
    let mut i: usize = 0;
    while i < ids.len()
        invariant
            table == disk_category_table(),
            ids@.map_values(|p: (&str, &str)| (p.0@, p.1@)) == table.map_values(
                |t: (Seq<char>, Seq<char>, Seq<char>)| (t.0, t.1),
            ),
            locations@.len() == table.len(),
            ids@.len() == table.len(),
            forall|j: int| 0 <= j < locations@.len() ==> #[trigger] locations@[j]@ == category_location(home@, j),
            pairs == category_pairs(home@, sizes@),
            i <= ids@.len(),
            lift(sized(all@), |c: DiskCategory| disk_category_view(c)) == pairs.take(i as int),
        decreases ids@.len() - i,
    {
        let (id, name) = ids[i];
        assert(ids@.map_values(|p: (&str, &str)| (p.0@, p.1@))[i as int] == (id@, name@));
        let size: u64 = if i < sizes.len() { sizes[i] } else { 0 };
        let mut id_s = String::new();
        push_str(&mut id_s, id);
        let mut name_s = String::new();
        push_str(&mut name_s, name);
        let path = locations[i].clone();
        let c = DiskCategory { id: id_s, name: name_s, path, size_bytes: size };
        let ghost before = all@;
        all.push(c);
        assert(lift(sized(all@), |c: DiskCategory| disk_category_view(c)) =~= lift(
            sized(before),
            |c: DiskCategory| disk_category_view(c),
        ).push((size, disk_category_view(c))));
        assert(pairs.take(i + 1) =~= pairs.take(i as int).push(pairs[i as int]));
        i += 1;
    }
    assert(pairs.take(i as int) =~= pairs);
    let r = rank_by_size(all, 1, usize::MAX);
    proof {
        lemma_ranked_lift(sized(all@), |c: DiskCategory| disk_category_view(c), 1, usize::MAX as nat);
    }
    r
}

// ── Build artifacts ─────────────────────────────────────────────────────────

/// How deep below each project folder the search for artifacts goes.
pub const ARTIFACT_SCAN_DEPTH: u32 = 4;

/// Artifacts smaller than this are not listed.
pub const MIN_ARTIFACT_BYTES: u64 = 1_048_576;

/// At most this many artifacts are listed.
pub const MAX_ARTIFACTS: usize = 150;

/// The folders under the home directory searched for projects.
pub open spec fn project_folder_table() -> Seq<Seq<char>> {
    seq![
        "Developer"@, "Documents"@, "Desktop"@, "Code"@, "Projects"@, "repos"@, "workspace"@,
        "src"@, "Source"@, "git"@, "work"@, "code"@,
    ]
}

/// The folders searched for projects, under `home`.
pub fn project_folders(home: &str) -> (r: Vec<String>)
    ensures
        r@.len() == project_folder_table().len(),
        forall|i: int| 0 <= i < r@.len() ==> #[trigger] r@[i]@ == path_push(home@, project_folder_table()[i]),
{
    let names: Vec<&str> = vec![
        "Developer", "Documents", "Desktop", "Code", "Projects", "repos", "workspace", "src", "Source",
        "git", "work", "code",
    ];
    let ghost table = project_folder_table();
    assert(names@.map_values(|s: &str| s@) =~= table);
    let mut out: Vec<String> = Vec::new();
    let mut i: usize = 0;
    while i < names.len()
        invariant
            names@.map_values(|s: &str| s@) == table,
            table == project_folder_table(),
            i <= names@.len(),
            out@.len() == i,
            forall|j: int| 0 <= j < out@.len() ==> #[trigger] out@[j]@ == path_push(home@, table[j]),
        decreases names@.len() - i,
    {
        assert(names@.map_values(|s: &str| s@)[i as int] == names@[i as int]@);
        out.push(path_join(home, names[i]));
        i += 1;
    }
    out
}

/// Which marker files a project folder holds beside a candidate artifact.
pub struct ProjectMarkers {
    pub composer_json: bool,
    pub go_mod: bool,
    pub gemfile: bool,
    pub build_gradle: bool,
    pub build_gradle_kts: bool,
    pub cmake_lists: bool,
    pub cargo_toml: bool,
    pub pom_xml: bool,
    pub package_swift: bool,
}

/// What to do with a sub-folder met while searching a project.
pub enum ArtifactStep {
    /// It is a build artifact of this type.
    Artifact(String),
    /// Search inside it.
    Descend,
    /// Leave it alone.
    Skip,
}

/// Hidden folders that may still be artifacts.
pub open spec fn hidden_artifact_name(name: Seq<char>) -> bool {
    name == ".next"@ || name == ".nuxt"@ || name == ".build"@ || name == ".venv"@ || name == ".gradle"@
}

/// The type of artifact a folder named `name` is, given the project's
/// marker files.
pub open spec fn artifact_type(name: Seq<char>, m: ProjectMarkers) -> Option<Seq<char>> {
    if name == "node_modules"@ {
        Some("node_modules"@)
    } else if name == ".next"@ {
        Some("Next.js build"@)
    } else if name == ".nuxt"@ {
        Some("Nuxt build"@)
    } else if name == "__pycache__"@ {
        Some("Python cache"@)
    } else if name == ".venv"@ || name == "venv"@ {
        Some("Python venv"@)
    } else if name == "vendor"@ && m.composer_json {
        Some("Composer vendor/"@)
    } else if name == "vendor"@ && m.go_mod {
        Some("Go vendor/"@)
    } else if name == "vendor"@ && m.gemfile {
        Some("Ruby vendor/"@)
    } else if name == "build"@ && (m.build_gradle || m.build_gradle_kts) {
        Some("Gradle build/"@)
    } else if name == "build"@ && m.cmake_lists {
        Some("CMake build/"@)
    } else if name == "target"@ && m.cargo_toml {
        Some("Rust target/"@)
    } else if name == "target"@ && m.pom_xml {
        Some("Maven target/"@)
    } else if name == ".build"@ && m.package_swift {
        Some("Swift .build/"@)
    } else if name == ".gradle"@ && (m.build_gradle || m.build_gradle_kts) {
        Some("Gradle cache"@)
    } else {
        None
    }
}

/// Folders that are never searched, even when they are not artifacts here.
pub open spec fn never_searched(name: Seq<char>) -> bool {
    name == ".git"@ || name == "target"@ || name == ".build"@ || name == "node_modules"@ || name
        == "__pycache__"@ || name == ".venv"@ || name == "venv"@ || name == "vendor"@ || name
        == "build"@
}

fn artifact_type_of(name: &str, m: &ProjectMarkers) -> (r: Option<&'static str>)
    ensures
        match artifact_type(name@, *m) {
            Some(t) => r is Some && r->0@ == t,
            None => r is None,
        },
{
    if str_eq(name, "node_modules") {
        Some("node_modules")
    } else if str_eq(name, ".next") {
        Some("Next.js build")
    } else if str_eq(name, ".nuxt") {
        Some("Nuxt build")
    } else if str_eq(name, "__pycache__") {
        Some("Python cache")
    } else if str_eq(name, ".venv") || str_eq(name, "venv") {
        Some("Python venv")
    } else if str_eq(name, "vendor") && m.composer_json {
        Some("Composer vendor/")
    } else if str_eq(name, "vendor") && m.go_mod {
        Some("Go vendor/")
    } else if str_eq(name, "vendor") && m.gemfile {
        Some("Ruby vendor/")
    } else if str_eq(name, "build") && (m.build_gradle || m.build_gradle_kts) {
        Some("Gradle build/")
    } else if str_eq(name, "build") && m.cmake_lists {
        Some("CMake build/")
    } else if str_eq(name, "target") && m.cargo_toml {
        Some("Rust target/")
    } else if str_eq(name, "target") && m.pom_xml {
        Some("Maven target/")
    } else if str_eq(name, ".build") && m.package_swift {
        Some("Swift .build/")
    } else if str_eq(name, ".gradle") && (m.build_gradle || m.build_gradle_kts) {
        Some("Gradle cache")
    } else {
        None
    }
}

/// What to do with the sub-folder `name` of a project folder: hidden
/// folders are skipped unless they may be artifacts; an artifact is listed;
/// any other folder is searched unless it is one that never is.
pub fn artifact_step(name: &str, m: &ProjectMarkers) -> (r: ArtifactStep)
    ensures
        name@.len() > 0 && name@[0] == '.' && !hidden_artifact_name(name@) ==> r is Skip,
        !(name@.len() > 0 && name@[0] == '.' && !hidden_artifact_name(name@)) ==> match artifact_type(
            name@,
            *m,
        ) {
            Some(t) => r is Artifact && r->0@ == t,
            None => if never_searched(name@) {
                r is Skip
            } else {
                r is Descend
            },
        },
{
    let hidden_ok = str_eq(name, ".next") || str_eq(name, ".nuxt") || str_eq(name, ".build") || str_eq(
        name,
        ".venv",
    ) || str_eq(name, ".gradle");
    let v = chars_of(name);
    if v.len() > 0 && v[0] == '.' && !hidden_ok {
        return ArtifactStep::Skip;
    }
    match artifact_type_of(name, m) {
        Some(t) => {
            let mut s = String::new();
            push_str(&mut s, t);
            ArtifactStep::Artifact(s)
        },
        None => {
            let skip = str_eq(name, ".git") || str_eq(name, "target") || str_eq(name, ".build")
                || str_eq(name, "node_modules") || str_eq(name, "__pycache__") || str_eq(name, ".venv")
                || str_eq(name, "venv") || str_eq(name, "vendor") || str_eq(name, "build");
            if skip {
                ArtifactStep::Skip
            } else {
                ArtifactStep::Descend
            }
        },
    }
}

/// A build artifact found in a project.
pub struct ProjectArtifact {
    pub project_name: String,
    pub project_path: String,
    pub artifact_type: String,
    pub artifact_path: String,
    pub size_bytes: u64,
}

impl HasSize for ProjectArtifact {
    open spec fn size_spec(&self) -> u64 {
        self.size_bytes
    }

    fn size(&self) -> (r: u64) {
        self.size_bytes
    }
}

/// The file name of a path, or nothing.
pub open spec fn name_or_empty(path: Seq<char>) -> Seq<char> {
    match file_name(path_comps(path)) {
        Some(n) => n,
        None => seq![],
    }
}

/// An artifact found in the project folder `project_dir`; the project is
/// named after its folder.
pub fn project_artifact(project_dir: &str, artifact_type: &str, artifact_path: &str, size_bytes: u64) -> (a: ProjectArtifact)
    ensures
        a.project_name@ == name_or_empty(project_dir@),
        a.project_path@ == project_dir@,
        a.artifact_type@ == artifact_type@,
        a.artifact_path@ == artifact_path@,
        a.size_bytes == size_bytes,
{
    let project_name = match file_name_of(project_dir) {
        Some(n) => n,
        None => String::new(),
    };
    ProjectArtifact {
        project_name,
        project_path: owned(project_dir),
        artifact_type: owned(artifact_type),
        artifact_path: owned(artifact_path),
        size_bytes,
    }
}

/// The artifacts worth listing: of at least `MIN_ARTIFACT_BYTES`, largest
/// first, at most `MAX_ARTIFACTS` of them.
pub fn rank_project_artifacts(found: Vec<ProjectArtifact>) -> (r: Vec<ProjectArtifact>)
    ensures
        r@ == ranked_by_size(found@, MIN_ARTIFACT_BYTES, MAX_ARTIFACTS as nat),
{
    rank_by_size(found, MIN_ARTIFACT_BYTES, MAX_ARTIFACTS)
}

// ── Large files ─────────────────────────────────────────────────────────────

/// At most this many large files are listed.
pub const MAX_LARGE_FILES: usize = 100;

/// A large file and how long ago it was last changed.
pub struct LargeFile {
    pub name: String,
    pub path: String,
    pub size_bytes: u64,
    pub days_old: u64,
}

impl HasSize for LargeFile {
    open spec fn size_spec(&self) -> u64 {
        self.size_bytes
    }

    fn size(&self) -> (r: u64) {
        self.size_bytes
    }
}

/// The arguments for `find` listing the files over 100 MB in `dirs`.
pub fn large_file_find_args(dirs: &Vec<String>) -> (r: Vec<String>)
    ensures
        r.deep_view() == dirs.deep_view() + seq!["-type"@, "f"@, "-size"@, "+100M"@],
{
    let mut out: Vec<String> = Vec::new();
    let mut i: usize = 0;
    while i < dirs.len()
        invariant
            i <= dirs@.len(),
            out.deep_view() == dirs.deep_view().take(i as int),
        decreases dirs@.len() - i,
    {
        let c = dirs[i].clone();
        let ghost before = out.deep_view();
        out.push(c);
        assert(out.deep_view() =~= before.push(dirs@[i as int]@));
        assert(dirs.deep_view().take(i + 1) =~= dirs.deep_view().take(i as int).push(dirs@[i as int]@));
        i += 1;
    }
    let ghost base = out.deep_view();
    out.push(owned("-type"));
    out.push(owned("f"));
    out.push(owned("-size"));
    out.push(owned("+100M"));
    assert(dirs.deep_view().take(i as int) =~= dirs.deep_view());
    assert(out.deep_view() =~= base + seq!["-type"@, "f"@, "-size"@, "+100M"@]);
    out
}

/// The non-empty lines of `s`, in order.
pub open spec fn nonempty_lines(ls: Seq<Seq<char>>) -> Seq<Seq<char>>
    decreases ls.len(),
{
    if ls.len() == 0 {
        ls
    } else if ls.last().len() > 0 {
        nonempty_lines(ls.drop_last()).push(ls.last())
    } else {
        nonempty_lines(ls.drop_last())
    }
}

/// The paths that `find` printed, one per non-empty line.
pub fn listed_files(find_output: &str) -> (r: Vec<String>)
    ensures
        r.deep_view() == nonempty_lines(str_lines(find_output@)),
{
    let lines = lines_of(find_output);
    let ghost ls = lines.deep_view();
    let mut out: Vec<String> = Vec::new();
    let mut i: usize = 0;
    while i < lines.len()
        invariant
            ls == lines.deep_view(),
            i <= lines@.len(),
            out.deep_view() == nonempty_lines(ls.take(i as int)),
        decreases lines@.len() - i,
    {
        assert(ls.take(i + 1).drop_last() =~= ls.take(i as int));
        assert(ls.take(i + 1).last() == lines@[i as int]@);
        if lines[i].as_str().unicode_len() > 0 {
            let ghost before = out.deep_view();
            out.push(lines[i].clone());
            assert(out.deep_view() =~= before.push(lines@[i as int]@));
        }
        i += 1;
    }
    assert(ls.take(i as int) =~= ls);
    out
}

/// A large file listed by `find`: named by its file name (the whole line
/// when it has none), aged in whole days.
pub fn large_file(line: &str, size_bytes: u64, age_secs: u64) -> (f: LargeFile)
    ensures
        f.name@ == match file_name(path_comps(line@)) {
            Some(n) => n,
            None => line@,
        },
        f.path@ == line@,
        f.size_bytes == size_bytes,
        f.days_old == age_secs / 86400,
{
    let name = match file_name_of(line) {
        Some(n) => n,
        None => owned(line),
    };
    LargeFile { name, path: owned(line), size_bytes, days_old: age_secs / 86400 }
}

/// The largest files, at most `MAX_LARGE_FILES` of them.
pub fn rank_large_files(found: Vec<LargeFile>) -> (r: Vec<LargeFile>)
    ensures
        r@ == ranked_by_size(found@, 0, MAX_LARGE_FILES as nat),
{
    rank_by_size(found, 0, MAX_LARGE_FILES)
}

// ── Xcode derived data ──────────────────────────────────────────────────────

/// A project's derived data folder.
pub struct DerivedDataProject {
    pub name: String,
    pub path: String,
    pub workspace_path: String,
    pub size_bytes: u64,
}

impl HasSize for DerivedDataProject {
    open spec fn size_spec(&self) -> u64 {
        self.size_bytes
    }

    fn size(&self) -> (r: u64) {
        self.size_bytes
    }
}

/// The workspace recorded in a derived data folder's `info.plist`: the
/// first `<string>` after the `WorkspaceRootPath` key, or nothing.
pub open spec fn workspace_root_of(s: Seq<char>) -> Seq<char> {
    match find_seq(s, "WorkspaceRootPath"@) {
        None => seq![],
        Some(key) => {
            let after = s.subrange(key, s.len() as int);
            match find_seq(after, "<string>"@) {
                None => seq![],
                Some(a) => {
                    let rest = after.subrange(a + 8, after.len() as int);
                    match find_seq(rest, "</string>"@) {
                        None => seq![],
                        Some(e) => rest.subrange(0, e),
                    }
                },
            }
        },
    }
}

/// The workspace recorded in a derived data folder's `info.plist`.
pub fn workspace_root(plist: &str) -> (r: String)
    ensures
        r@ == workspace_root_of(plist@),
{
    let v = chars_of(plist);
    let n = v.len();
    let key_pat = chars_of("WorkspaceRootPath");
    let open_pat = chars_of("<string>");
    let close_pat = chars_of("</string>");
    proof {
        reveal_strlit("<string>");
    }
    assert(v@.subrange(0, n as int) =~= v@);
    proof {
        crate::text::lemma_find_from(v@, "WorkspaceRootPath"@, 0);
    }
    let key = match find_chars(&v, 0, n, &key_pat) {
        Some(k) => k,
        None => return String::new(),
    };
    let ghost after = v@.subrange(key as int, n as int);
    proof {
        crate::text::lemma_find_from(after, "<string>"@, 0);
    }
    let a = match find_chars(&v, key, n, &open_pat) {
        Some(a) => a,
        None => return String::new(),
    };
    let start = a + 8;
    let ghost rest = after.subrange((a - key) + 8, after.len() as int);
    assert(rest =~= v@.subrange(start as int, n as int));
    proof {
        crate::text::lemma_find_from(rest, "</string>"@, 0);
    }
    let e = match find_chars(&v, start, n, &close_pat) {
        Some(e) => e,
        None => return String::new(),
    };
    assert(rest.subrange(0, e - start) =~= v@.subrange(start as int, e as int));
    string_of_range(&v, start, e)
}

/// The name shown for a derived data folder: its name up to the last `-`
/// (the hash Xcode appends), other dashes shown as spaces.
pub open spec fn derived_data_name_of(dir_name: Seq<char>) -> Seq<char> {
    match rfind_seq(dir_name, "-"@) {
        Some(h) => replace_char(dir_name.subrange(0, h), '-', " "@),
        None => dir_name,
    }
}

/// The name shown for a derived data folder.
pub fn derived_data_name(dir_name: &str) -> (r: String)
    ensures
        r@ == derived_data_name_of(dir_name@),
{
    let v = chars_of(dir_name);
    let dash = chars_of("-");
    match rfind_chars(&v, &dash) {
        Some(h) => {
            let head = string_of_range(&v, 0, h);
            replace_all(head.as_str(), '-', " ")
        },
        None => owned(dir_name),
    }
}

/// A derived data folder at `path`, with its `info.plist` text when it
/// could be read.
pub fn derived_data_project(path: &str, info_plist: Option<&str>, size_bytes: u64) -> (p: DerivedDataProject)
    ensures
        p.name@ == derived_data_name_of(name_or_empty(path@)),
        p.path@ == path@,
        p.workspace_path@ == match info_plist {
            Some(s) => workspace_root_of(s@),
            None => seq![],
        },
        p.size_bytes == size_bytes,
{
    let dir_name = match file_name_of(path) {
        Some(n) => n,
        None => String::new(),
    };
    let workspace_path = match info_plist {
        Some(s) => workspace_root(s),
        None => String::new(),
    };
    DerivedDataProject {
        name: derived_data_name(dir_name.as_str()),
        path: owned(path),
        workspace_path,
        size_bytes,
    }
}

/// The derived data folders that take space, largest first.
pub fn rank_derived_data(found: Vec<DerivedDataProject>) -> (r: Vec<DerivedDataProject>)
    ensures
        r@ == ranked_by_size(found@, 1, usize::MAX as nat),
{
    rank_by_size(found, 1, usize::MAX)
}


// ── Simulator runtimes ──────────────────────────────────────────────────────

/// An installed simulator runtime.
pub struct SimRuntime {
    pub identifier: String,
    pub version: String,
    pub build: String,
    pub platform: String,
    pub size_bytes: u64,
    pub deletable: bool,
    pub last_used: String,
}

/// The platform shown for a runtime: the last `.`-separated part of its
/// platform identifier, dashes shown as spaces
/// (`com.apple.CoreSimulator.SimRuntime.iOS-17-4` gives `iOS 17 4`).
pub open spec fn platform_label_of(raw: Seq<char>) -> Seq<char> {
    replace_char(crate::text::split_on(raw, '.').last(), '-', " "@)
}

/// The platform shown for a runtime.
pub fn platform_label(raw: &str) -> (r: String)
    ensures
        r@ == platform_label_of(raw@),
{
    let parts = crate::text::split_char(raw, '.');
    assert(parts.deep_view().len() == parts@.len());
    assert(crate::text::split_on(raw@, '.').len() > 0);
    let last = parts.len() - 1;
    assert(parts.deep_view()[last as int] == parts@[last as int]@);
    replace_all(parts[last].as_str(), '-', " ")
}

/// A runtime as `simctl runtime list -j` describes it; none without an
/// identifier.
pub fn sim_runtime(
    identifier: String,
    version: String,
    build: String,
    platform_identifier: &str,
    size_bytes: u64,
    deletable: bool,
    last_used: String,
) -> (r: Option<SimRuntime>)
    ensures
        identifier@.len() == 0 ==> r is None,
        identifier@.len() > 0 ==> r == Some(
            SimRuntime {
                identifier,
                version,
                build,
                platform: r->0.platform,
                size_bytes,
                deletable,
                last_used,
            },
        ) && r->0.platform@ == platform_label_of(platform_identifier@),
{
    if identifier.as_str().unicode_len() == 0 {
        return None;
    }
    Some(
        SimRuntime {
            identifier,
            version,
            build,
            platform: platform_label(platform_identifier),
            size_bytes,
            deletable,
            last_used,
        },
    )
}

/// What a runtime of `simctl runtime list -j` is listed as: identifier,
/// version, build, shown platform, size, whether it can be deleted, last use;
/// nothing without an identifier. Missing texts count as empty, a missing
/// size as 0 and a missing flag as false.
pub open spec fn runtime_entry(v: JsonValue) -> Option<(Seq<char>, Seq<char>, Seq<char>, Seq<char>, u64, bool, Seq<char>)> {
    let id = or_blank(text(field(v, "identifier"@)));
    if id.len() == 0 {
        None
    } else {
        Some(
            (
                id,
                or_blank(text(field(v, "version"@))),
                or_blank(text(field(v, "build"@))),
                platform_label_of(or_blank(text(field(v, "platformIdentifier"@)))),
                match whole(field(v, "sizeBytes"@)) {
                    Some(n) => n,
                    None => 0,
                },
                match flag(field(v, "deletable"@)) {
                    Some(b) => b,
                    None => false,
                },
                or_blank(text(field(v, "lastUsedAt"@))),
            ),
        )
    }
}

/// The runtimes listed among the first `k` members of the report.
pub open spec fn runtime_entries(m: Seq<(String, JsonValue)>, k: int) -> Seq<(Seq<char>, Seq<char>, Seq<char>, Seq<char>, u64, bool, Seq<char>)>
    decreases k,
{
    if k <= 0 {
        seq![]
    } else {
        match runtime_entry(m[k - 1].1) {
            Some(e) => runtime_entries(m, k - 1).push(e),
            None => runtime_entries(m, k - 1),
        }
    }
}

pub open spec fn runtime_view(r: SimRuntime) -> (Seq<char>, Seq<char>, Seq<char>, Seq<char>, u64, bool, Seq<char>) {
    (r.identifier@, r.version@, r.build@, r.platform@, r.size_bytes, r.deletable, r.last_used@)
}

/// The runtimes `simctl runtime list -j` reports, in the report's order;
/// nothing when the report is not an object.
pub fn simulator_runtimes(doc: &JsonValue) -> (r: Vec<SimRuntime>)
    ensures
        r@.map_values(|t: SimRuntime| runtime_view(t)) == match *doc {
            JsonValue::Object(m) => runtime_entries(m@, m@.len() as int),
            _ => Seq::empty(),
        },
{
    let mut out: Vec<SimRuntime> = Vec::new();
    match doc {
        JsonValue::Object(m) => {
            let mut i: usize = 0;
            while i < m.len()
                invariant
                    i <= m@.len(),
                    out@.map_values(|t: SimRuntime| runtime_view(t)) == runtime_entries(m@, i as int),
                decreases m.len() - i,
            {
                let rt = &m[i].1;
                let size = match as_whole(get(rt, "sizeBytes")) {
                    Some(n) => n,
                    None => 0,
                };
                let deletable = match as_bool(get(rt, "deletable")) {
                    Some(b) => b,
                    None => false,
                };
                let platform = text_or_blank(rt, "platformIdentifier");
                let found = sim_runtime(
                    text_or_blank(rt, "identifier"),
                    text_or_blank(rt, "version"),
                    text_or_blank(rt, "build"),
                    platform.as_str(),
                    size,
                    deletable,
                    text_or_blank(rt, "lastUsedAt"),
                );
                let ghost before = out@.map_values(|t: SimRuntime| runtime_view(t));
                match found {
                    Some(s) => {
                        out.push(s);
                        assert(out@.map_values(|t: SimRuntime| runtime_view(t)) =~= before.push(runtime_view(s)));
                    },
                    None => {},
                }
                i += 1;
            }
        },
        _ => {},
    }
    out
}

} // verus!
