//! The virus scan: which targets it takes, and what each line the scanner
//! prints is taken to mean.
use vstd::prelude::*;
use crate::json::{JsonValue, as_text, field, get, text};
use crate::text::str_eq;
use crate::mole::{joined, rfind_seq};
use crate::guard::{path_join, path_push};
use crate::system::decimal_text;
use crate::paths::{PathParts, path_comps};
use crate::text::{
    owned, chars_of, lines_of, matches_at, push_str, split_char, split_on, str_lines, string_of_range,
    strip_bounds, strip_leading, strip_trailing, trim, trim_bounds,
};

verus! {

/// At most this many targets are scanned at once.
pub const MAX_SCAN_TARGETS: usize = 16;

/// The scanner's output is cut after this many lines…
pub const MAX_SCAN_OUTPUT_LINES: u64 = 50_000;

/// …or this many bytes.
pub const MAX_SCAN_OUTPUT_BYTES: u64 = 8 * 1024 * 1024;

/// A scan target as typed: `~` is the home directory and `~/…` lies in it.
pub open spec fn expanded_target(raw: Seq<char>, home: Seq<char>) -> Seq<char> {
    if raw.len() >= 2 && raw[0] == '~' && raw[1] == '/' {
        joined(home, raw.skip(2))
    } else if raw == seq!['~'] {
        home
    } else {
        raw
    }
}

/// Expands `~` in a scan target.
pub fn expand_target(raw: &str, home: &str) -> (r: String)
    ensures
        r@ == expanded_target(raw@, home@),
{
    let v = chars_of(raw);
    if v.len() >= 2 && v[0] == '~' && v[1] == '/' {
        let rel = string_of_range(&v, 2, v.len());
        assert(rel@ =~= raw@.skip(2));
        if rel.unicode_len() > 0 && rel.get_char(0) == '/' {
            rel
        } else {
            path_join(home, rel.as_str())
        }
    } else if v.len() == 1 && v[0] == '~' {
        assert(raw@ =~= seq!['~']);
        let mut h = String::new();
        push_str(&mut h, home);
        assert(h@ =~= home@);
        h
    } else {
        proof {
            if raw@ == seq!['~'] {
                assert(v@.len() == 1);
            }
        }
        let mut r = String::new();
        push_str(&mut r, raw);
        assert(r@ =~= raw@);
        r
    }
}

/// What a line of the scanner's output is taken to be.
pub enum ScanLine {
    /// The output limit is reached: the rest is dropped.
    Truncated,
    /// A detection, for the file at this path.
    Found(String),
    /// A detection line without a path.
    Malformed,
    /// Any other line, shown as it is.
    Plain,
}

/// `s` ends with `suffix`.
pub open spec fn ends_with(s: Seq<char>, suffix: Seq<char>) -> bool {
    suffix.len() <= s.len() && s.subrange(s.len() - suffix.len(), s.len() as int) == suffix
}

/// The path a detection line names, if it names one.
pub open spec fn found_path(line: Seq<char>) -> Option<Seq<char>> {
    match rfind_seq(line, ": "@) {
        Some(i) => Some(line.take(i)),
        None => None,
    }
}

/// Classifies a line of the scanner's standard output.
pub fn classify_scan_line(line: &str, lines_before: u64, bytes_before: u64) -> (r: ScanLine)
    ensures
        lines_before >= MAX_SCAN_OUTPUT_LINES || bytes_before >= MAX_SCAN_OUTPUT_BYTES ==> r is Truncated,
        !(lines_before >= MAX_SCAN_OUTPUT_LINES || bytes_before >= MAX_SCAN_OUTPUT_BYTES) ==> {
            if ends_with(line@, " FOUND"@) {
                match found_path(line@) {
                    Some(p) => r matches ScanLine::Found(q) && q@ == p,
                    None => r is Malformed,
                }
            } else {
                r is Plain
            }
        },
{
    if lines_before >= MAX_SCAN_OUTPUT_LINES || bytes_before >= MAX_SCAN_OUTPUT_BYTES {
        return ScanLine::Truncated;
    }
    let v = chars_of(line);
    let n = v.len();
    proof {
        reveal_strlit(" FOUND");
        reveal_strlit(": ");
    }
    let suffix = chars_of(" FOUND");
    let ends = n >= 6 && crate::text::chars_at(&v, n - 6, &suffix);
    assert(ends == ends_with(line@, " FOUND"@)) by {
        if n >= 6 {
            assert(matches_at(v@, suffix@, n - 6) == (v@.subrange(n - 6, n as int) == suffix@));
        }
    }
    if !ends {
        return ScanLine::Plain;
    }
    let sep = chars_of(": ");
    match crate::mole::rfind_chars(&v, &sep) {
        Some(i) => {
            let p = string_of_range(&v, 0, i);
            assert(p@ =~= line@.take(i as int));
            ScanLine::Found(p)
        },
        None => ScanLine::Malformed,
    }
}

/// Whether the scanner's exit code means the scan ran (clean or with
/// detections).
pub fn scan_succeeded(code: i32) -> (r: bool)
    ensures
        r == (code == 0 || code == 1),
{
    code == 0 || code == 1
}

/// The journal summary of a scan.
pub fn threat_summary(threats: u64) -> (r: String)
    ensures
        r@ == decimal_text(threats as nat) + " menace(s) détectée(s)"@,
{
    let mut out = String::new();
    crate::system::push_decimal(&mut out, threats);
    push_str(&mut out, " menace(s) détectée(s)");
    out
}

// ── Scanner installation ────────────────────────────────────────────────────

/// What is known of the scanner: whether it is installed, its version, the
/// updater's location, and its signature database.
pub struct ClamavInfo {
    pub installed: bool,
    pub version: String,
    pub freshclam_path: String,
    pub has_database: bool,
    pub db_path: String,
    pub db_version: String,
}

/// The first line of `s`, trimmed (empty when there is none).
pub open spec fn first_line_trimmed_of(s: Seq<char>) -> Seq<char> {
    if str_lines(s).len() > 0 {
        trim(str_lines(s)[0])
    } else {
        seq![]
    }
}

/// The first line of `s`, trimmed.
pub fn first_line_trimmed(s: &str) -> (r: String)
    ensures
        r@ == first_line_trimmed_of(s@),
{
    let lines = lines_of(s);
    if lines.len() == 0 {
        return String::new();
    }
    assert(lines.deep_view()[0] == lines@[0]@);
    let v = chars_of(lines[0].as_str());
    let (a, b) = trim_bounds(&v);
    string_of_range(&v, a, b)
}

/// The version in the header of a signature database file
/// (`ClamAV-VDB:daily:27425:…`): its third `:`-separated field, trimmed,
/// when that is not empty.
pub open spec fn db_version_of(header: Seq<char>) -> Option<Seq<char>> {
    let parts = split_on(header, ':');
    if parts.len() > 2 && trim(parts[2]).len() > 0 {
        Some(trim(parts[2]))
    } else {
        None
    }
}

/// The version in the header of a signature database file.
pub fn db_version_in_header(header: &str) -> (r: Option<String>)
    ensures
        match db_version_of(header@) {
            Some(v) => r is Some && r->0@ == v,
            None => r is None,
        },
{
    let parts = split_char(header, ':');
    if parts.len() <= 2 {
        return None;
    }
    assert(parts.deep_view()[2] == parts@[2]@);
    let v = chars_of(parts[2].as_str());
    let (a, b) = trim_bounds(&v);
    if a == b {
        return None;
    }
    Some(string_of_range(&v, a, b))
}

/// What is known of the scanner, given whether `clamscan` was found, what
/// `clamscan --version` printed (when it ran), where `freshclam` is, and the
/// database found (its version read only when there is one).
pub fn clamav_info(
    clamscan_found: bool,
    version_output: Option<&str>,
    freshclam_path: Option<String>,
    has_database: bool,
    db_path: String,
    db_version: String,
) -> (r: ClamavInfo)
    ensures
        r.installed == clamscan_found,
        r.db_path == db_path,
        clamscan_found ==> r.version@ == match version_output {
            Some(o) => first_line_trimmed_of(o@),
            None => seq![],
        } && r.freshclam_path@ == match freshclam_path {
            Some(p) => p@,
            None => seq![],
        } && r.has_database == has_database && r.db_version@ == if has_database {
            db_version@
        } else {
            seq![]
        },
        !clamscan_found ==> r.version@.len() == 0 && r.freshclam_path@.len() == 0 && !r.has_database
            && r.db_version@.len() == 0,
{
    if !clamscan_found {
        return ClamavInfo {
            installed: false,
            version: String::new(),
            freshclam_path: String::new(),
            has_database: false,
            db_path,
            db_version: String::new(),
        };
    }
    let version = match version_output {
        Some(o) => first_line_trimmed(o),
        None => String::new(),
    };
    let freshclam_path = match freshclam_path {
        Some(p) => p,
        None => String::new(),
    };
    let db_version = if has_database {
        db_version
    } else {
        String::new()
    };
    ClamavInfo { installed: true, version, freshclam_path, has_database, db_path, db_version }
}

/// Signature files older than a day are outdated.
pub fn definitions_outdated(age_secs: Option<u64>) -> (r: bool)
    ensures
        r == (age_secs matches Some(a) && a > 24 * 3600),
{
    match age_secs {
        Some(a) => a > 24 * 3600,
        None => false,
    }
}

/// The folder chosen in the picker, from what it printed: trimmed, without
/// trailing `/`, when anything is left.
pub open spec fn picked_folder_of(output: Seq<char>) -> Option<Seq<char>> {
    let p = strip_trailing(trim(output), "/"@);
    if p.len() > 0 {
        Some(p)
    } else {
        None
    }
}

/// The folder chosen in the picker, when it succeeded.
pub fn picked_folder(output: &str, succeeded: bool) -> (r: Option<String>)
    ensures
        !succeeded ==> r is None,
        succeeded ==> match picked_folder_of(output@) {
            Some(p) => r is Some && r->0@ == p,
            None => r is None,
        },
{
    if !succeeded {
        return None;
    }
    let v = chars_of(output);
    let (a, b) = trim_bounds(&v);
    let (x, y) = strip_bounds(&v, a, b, "", "/");
    proof {
        reveal_strlit("");
        assert(strip_leading(v@.subrange(a as int, b as int), ""@) == v@.subrange(a as int, b as int));
    }
    if x == y {
        return None;
    }
    Some(string_of_range(&v, x, y))
}

// ── Quarantine ──────────────────────────────────────────────────────────────

/// A file kept in quarantine.
pub struct QuarantineEntry {
    pub name: String,
    pub quarantine_path: String,
    pub original_path: String,
    pub size_bytes: u64,
    pub quarantined_at: String,
}

/// `dir` joined with `name` (`Path::join`): an absolute name replaces the
/// folder.
pub open spec fn joined_path(dir: Seq<char>, name: Seq<char>) -> Seq<char> {
    if name.len() > 0 && name[0] == '/' {
        name
    } else {
        path_push(dir, name)
    }
}

/// A quarantine entry as its record describes it: its name and original
/// location, and when it was quarantined (empty when not recorded); it is
/// kept in `quarantine_dir` under its name.
pub fn quarantine_entry(
    name: &str,
    original_path: &str,
    quarantined_at: Option<&str>,
    quarantine_dir: &str,
    size_bytes: u64,
) -> (e: QuarantineEntry)
    ensures
        e.name@ == name@,
        e.quarantine_path@ == joined_path(quarantine_dir@, name@),
        e.original_path@ == original_path@,
        e.size_bytes == size_bytes,
        e.quarantined_at@ == match quarantined_at {
            Some(t) => t@,
            None => seq![],
        },
{
    let v = chars_of(name);
    let quarantine_path = if v.len() > 0 && v[0] == '/' {
        owned(name)
    } else {
        path_join(quarantine_dir, name)
    };
    let quarantined_at = match quarantined_at {
        Some(t) => owned(t),
        None => String::new(),
    };
    QuarantineEntry {
        name: owned(name),
        quarantine_path,
        original_path: owned(original_path),
        size_bytes,
        quarantined_at,
    }
}

// ── The scanner's command line ──────────────────────────────────────────────

/// The flags every scan runs with: recursive, no summary, no symbolic link
/// followed at any level.
pub open spec fn scan_flags() -> Seq<Seq<char>> {
    seq!["-r"@, "--no-summary"@, "--follow-dir-symlinks=0"@, "--follow-file-symlinks=0"@]
}

/// The scanner's arguments: the fixed flags, the signature database when one
/// was found, the exclusions, then the targets.
pub open spec fn scan_arguments(
    database: Option<Seq<char>>,
    excludes: Seq<Seq<char>>,
    roots: Seq<Seq<char>>,
) -> Seq<Seq<char>> {
    scan_flags() + (match database {
        Some(d) => seq!["--database="@ + d],
        None => seq![],
    }) + excludes + roots
}

/// The scanner's arguments.
pub fn clamscan_args(database: Option<&str>, excludes: &Vec<String>, roots: &Vec<String>) -> (r: Vec<String>)
    ensures
        r.deep_view() == scan_arguments(
            match database {
                Some(d) => Some(d@),
                None => None,
            },
            excludes.deep_view(),
            roots.deep_view(),
        ),
{
    let mut r = vec![
        owned("-r"),
        owned("--no-summary"),
        owned("--follow-dir-symlinks=0"),
        owned("--follow-file-symlinks=0"),
    ];
    assert(r.deep_view() =~= scan_flags());
    let ghost head = r.deep_view();
    if let Some(d) = database {
        let mut a = String::new();
        push_str(&mut a, "--database=");
        push_str(&mut a, d);
        r.push(a);
        proof {
            assert(r.deep_view() =~= scan_flags() + seq!["--database="@ + d@]);
        }
    } else {
        assert(r.deep_view() =~= scan_flags() + Seq::<Seq<char>>::empty());
    }
    let ghost base = r.deep_view();
    let mut k: usize = 0;
    while k < excludes.len()
        invariant
            k <= excludes.len(),
            r.deep_view() == base + excludes.deep_view().take(k as int),
        decreases excludes.len() - k,
    {
        let ghost prev = r.deep_view();
        r.push(owned(excludes[k].as_str()));
        proof {
            assert(r.deep_view() =~= prev.push(excludes[k as int]@));
            assert(excludes.deep_view().take(k + 1) =~= excludes.deep_view().take(k as int).push(excludes[k as int]@));
            assert(r.deep_view() =~= base + excludes.deep_view().take(k + 1));
        }
        k += 1;
    }
    assert(excludes.deep_view().take(k as int) =~= excludes.deep_view());
    let ghost mid = r.deep_view();
    let mut j: usize = 0;
    while j < roots.len()
        invariant
            j <= roots.len(),
            r.deep_view() == mid + roots.deep_view().take(j as int),
        decreases roots.len() - j,
    {
        let ghost prev = r.deep_view();
        r.push(owned(roots[j].as_str()));
        proof {
            assert(r.deep_view() =~= prev.push(roots[j as int]@));
            assert(roots.deep_view().take(j + 1) =~= roots.deep_view().take(j as int).push(roots[j as int]@));
            assert(r.deep_view() =~= mid + roots.deep_view().take(j + 1));
        }
        j += 1;
    }
    assert(roots.deep_view().take(j as int) =~= roots.deep_view());
    r
}


// ── Signature databases ─────────────────────────────────────────────────────

/// Whether a file in a database folder holds signatures: its name ends in
/// `.cvd` or `.cld`.
pub open spec fn signature_file(name: Seq<char>) -> bool {
    ends_with(name, ".cvd"@) || ends_with(name, ".cld"@)
}

fn ends_with_lit(v: &Vec<char>, lit: &str) -> (r: bool)
    ensures
        r == ends_with(v@, lit@),
{
    let l = chars_of(lit);
    if l.len() > v.len() {
        return false;
    }
    let r = crate::text::chars_at(v, v.len() - l.len(), &l);
    assert(r == ends_with(v@, lit@));
    r
}

/// Whether a file of that name holds signatures.
pub fn is_signature_file(name: &str) -> (r: bool)
    ensures
        r == signature_file(name@),
{
    let v = chars_of(name);
    ends_with_lit(&v, ".cvd") || ends_with_lit(&v, ".cld")
}

/// The configuration `freshclam` runs with: the database folder, the
/// official mirror, three attempts and thirty-second timeouts.
pub open spec fn freshclam_config_text(db_dir: Seq<char>) -> Seq<char> {
    "DatabaseDirectory "@ + db_dir
        + "\nDatabaseMirror database.clamav.net\nMaxAttempts 3\nConnectTimeout 30\nReceiveTimeout 30\n"@
}

/// The configuration `freshclam` runs with.
pub fn freshclam_config(db_dir: &str) -> (r: String)
    ensures
        r@ == freshclam_config_text(db_dir@),
{
    let mut r = String::new();
    push_str(&mut r, "DatabaseDirectory ");
    push_str(&mut r, db_dir);
    push_str(&mut r, "\nDatabaseMirror database.clamav.net\nMaxAttempts 3\nConnectTimeout 30\nReceiveTimeout 30\n");
    r
}

// ── Restoring from quarantine ───────────────────────────────────────────────

/// Whether a quarantined file may go back where it came from: nothing is
/// there now, the folder it was in still exists, and that folder resolves
/// to itself (no symbolic link on the way). `parent` is the folder of the
/// original path; `canonical_parent` what it resolves to, when it exists.
pub open spec fn restore_outcome(
    original_exists: bool,
    parent: Option<Seq<char>>,
    canonical_parent: Option<Seq<char>>,
) -> Result<(), Seq<char>> {
    if original_exists {
        Err("Le chemin original existe déjà ; restauration refusée pour éviter tout écrasement"@)
    } else {
        match parent {
            None => Err("Dossier d'origine invalide"@),
            Some(p) => match canonical_parent {
                None => Err("Le dossier d'origine n'existe plus ; recréez-le avant de restaurer"@),
                Some(c) => if path_comps(c) != path_comps(p) {
                    Err("Le dossier d'origine traverse un lien symbolique ; restauration refusée"@)
                } else {
                    Ok(())
                },
            },
        }
    }
}

/// Checks where a quarantined file would be restored.
pub fn check_restore_target(original_exists: bool, parent: Option<&str>, canonical_parent: Option<&str>) -> (r: Result<(), String>)
    ensures
        match restore_outcome(
            original_exists,
            match parent {
                Some(p) => Some(p@),
                None => None,
            },
            match canonical_parent {
                Some(c) => Some(c@),
                None => None,
            },
        ) {
            Ok(()) => r is Ok,
            Err(e) => r matches Err(m) && m@ == e,
        },
{
    let mut m = String::new();
    if original_exists {
        push_str(&mut m, "Le chemin original existe déjà ; restauration refusée pour éviter tout écrasement");
        return Err(m);
    }
    let p = match parent {
        Some(p) => p,
        None => {
            push_str(&mut m, "Dossier d'origine invalide");
            return Err(m);
        },
    };
    let c = match canonical_parent {
        Some(c) => c,
        None => {
            push_str(&mut m, "Le dossier d'origine n'existe plus ; recréez-le avant de restaurer");
            return Err(m);
        },
    };
    let pp = PathParts::parse(p);
    let cp = PathParts::parse(c);
    if !cp.equals_parts(&pp) {
        push_str(&mut m, "Le dossier d'origine traverse un lien symbolique ; restauration refusée");
        return Err(m);
    }
    Ok(())
}


// ── Quarantine metadata ──────────────────────────────────────────────────────

/// The entries of the quarantine metadata: the array it holds, or none.
pub open spec fn meta_entries(doc: JsonValue) -> Seq<JsonValue> {
    match doc {
        JsonValue::Array(a) => a@,
        _ => seq![],
    }
}

/// What one metadata entry records: name, original location and, when
/// present, the time it was quarantined; nothing unless the first two are text.
pub open spec fn quarantine_record(v: JsonValue) -> Option<(Seq<char>, Seq<char>, Option<Seq<char>>)> {
    match (text(field(v, "name"@)), text(field(v, "original_path"@))) {
        (Some(n), Some(o)) => Some((n, o, text(field(v, "quarantined_at"@)))),
        _ => None,
    }
}

/// The records among the first `k` entries, in order.
pub open spec fn quarantine_records_of(es: Seq<JsonValue>, k: int) -> Seq<(Seq<char>, Seq<char>, Option<Seq<char>>)>
    decreases k,
{
    if k <= 0 {
        seq![]
    } else {
        match quarantine_record(es[k - 1]) {
            Some(r) => quarantine_records_of(es, k - 1).push(r),
            None => quarantine_records_of(es, k - 1),
        }
    }
}

/// A quarantined file as the metadata records it.
pub struct QuarantineRecord {
    pub name: String,
    pub original_path: String,
    pub quarantined_at: Option<String>,
}

pub open spec fn record_view(r: QuarantineRecord) -> (Seq<char>, Seq<char>, Option<Seq<char>>) {
    (
        r.name@,
        r.original_path@,
        match r.quarantined_at {
            Some(t) => Some(t@),
            None => None,
        },
    )
}

/// The quarantined files the metadata records, in its order.
pub fn quarantine_records(doc: &JsonValue) -> (r: Vec<QuarantineRecord>)
    ensures
        r@.map_values(|q: QuarantineRecord| record_view(q)) == quarantine_records_of(
            meta_entries(*doc),
            meta_entries(*doc).len() as int,
        ),
{
    let mut out: Vec<QuarantineRecord> = Vec::new();
    match doc {
        JsonValue::Array(es) => {
            let mut i: usize = 0;
            while i < es.len()
                invariant
                    i <= es@.len(),
                    meta_entries(*doc) == es@,
                    out@.map_values(|q: QuarantineRecord| record_view(q)) == quarantine_records_of(es@, i as int),
                decreases es.len() - i,
            {
                let e = &es[i];
                match (as_text(get(e, "name")), as_text(get(e, "original_path"))) {
                    (Some(n), Some(o)) => {
                        let at = match as_text(get(e, "quarantined_at")) {
                            Some(t) => Some(owned(t)),
                            None => None,
                        };
                        let rec = QuarantineRecord { name: owned(n), original_path: owned(o), quarantined_at: at };
                        let ghost before = out@.map_values(|q: QuarantineRecord| record_view(q));
                        out.push(rec);
                        assert(out@.map_values(|q: QuarantineRecord| record_view(q)) =~= before.push(record_view(rec)));
                    },
                    _ => {},
                }
                i += 1;
            }
        },
        _ => {},
    }
    out
}

/// The first of the entries from `i` on whose name is `name`.
pub open spec fn first_named(es: Seq<JsonValue>, name: Seq<char>, i: int) -> Option<int>
    decreases es.len() - i,
{
    if i < 0 || i >= es.len() {
        None
    } else if text(field(es[i], "name"@)) == Some(name) {
        Some(i)
    } else {
        first_named(es, name, i + 1)
    }
}

/// Where the file quarantined under `name` came from, as its first record
/// says.
pub open spec fn quarantine_original_outcome(doc: JsonValue, name: Seq<char>) -> Result<Seq<char>, Seq<char>> {
    let es = meta_entries(doc);
    match first_named(es, name, 0) {
        None => Err("Entrée introuvable"@),
        Some(i) => match text(field(es[i], "original_path"@)) {
            Some(o) => Ok(o),
            None => Err("Chemin original manquant"@),
        },
    }
}

/// Where the file quarantined under `name` came from.
pub fn quarantine_original(doc: &JsonValue, name: &str) -> (r: Result<String, String>)
    ensures
        match quarantine_original_outcome(*doc, name@) {
            Ok(o) => r matches Ok(s) && s@ == o,
            Err(e) => r matches Err(m) && m@ == e,
        },
{
    let es = match doc {
        JsonValue::Array(es) => es,
        _ => {
            return Err(owned("Entrée introuvable"));
        },
    };
    let mut i: usize = 0;
    while i < es.len()
        invariant
            i <= es@.len(),
            meta_entries(*doc) == es@,
            first_named(es@, name@, 0) == first_named(es@, name@, i as int),
        decreases es.len() - i,
    {
        let hit = match as_text(get(&es[i], "name")) {
            Some(n) => str_eq(n, name),
            None => false,
        };
        if hit {
            return match as_text(get(&es[i], "original_path")) {
                Some(o) => Ok(owned(o)),
                None => Err(owned("Chemin original manquant")),
            };
        }
        i += 1;
    }
    Err(owned("Entrée introuvable"))
}

/// The positions of the entries that stay once `name` leaves the quarantine:
/// all those not named so, in order.
pub fn entries_without(doc: &JsonValue, name: &str) -> (r: Vec<usize>)
    ensures
        r@.len() <= meta_entries(*doc).len(),
        forall|a: int, b: int| 0 <= a < b < r@.len() ==> r@[a] < r@[b],
        forall|i: usize|
            i < meta_entries(*doc).len() ==> (#[trigger] r@.contains(i) <==> text(
                field(meta_entries(*doc)[i as int], "name"@),
            ) != Some(name@)),
{
    let mut out: Vec<usize> = Vec::new();
    match doc {
        JsonValue::Array(es) => {
            let mut i: usize = 0;
            while i < es.len()
                invariant
                    i <= es@.len(),
                    meta_entries(*doc) == es@,
                    out@.len() <= i,
                    forall|a: int| 0 <= a < out@.len() ==> out@[a] < i,
                    forall|a: int, b: int| 0 <= a < b < out@.len() ==> out@[a] < out@[b],
                    forall|j: usize|
                        j < i ==> (#[trigger] out@.contains(j) <==> text(field(es@[j as int], "name"@)) != Some(
                            name@,
                        )),
                decreases es.len() - i,
            {
                let named = match as_text(get(&es[i], "name")) {
                    Some(n) => str_eq(n, name),
                    None => false,
                };
                let ghost before = out@;
                if !named {
                    out.push(i);
                    assert(out@[before.len() as int] == i);
                }
                assert forall|j: usize| j < i implies (#[trigger] out@.contains(j) <==> before.contains(j)) by {
                    if out@.contains(j) {
                        let a = choose|a: int| 0 <= a < out@.len() && out@[a] == j;
                        if a < before.len() {
                            assert(before[a] == j);
                        }
                    }
                    if before.contains(j) {
                        let a = choose|a: int| 0 <= a < before.len() && before[a] == j;
                        assert(out@[a] == j);
                    }
                }
                if named {
                    assert(!out@.contains(i));
                }
                i += 1;
            }
        },
        _ => {},
    }
    out
}

} // verus!
