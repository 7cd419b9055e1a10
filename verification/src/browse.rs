//! The disk browser: which children of a folder are measured, how `du` is
//! asked to measure them, how its report is read, and how the result is
//! listed.
use vstd::prelude::*;
use crate::guard::readonly_exclusion_names;
use crate::order::{HasSize, at_most, rank_by_size, ranked_by_size};
use crate::paths::{file_name, file_name_of, path_comps};
use crate::text::{
    owned, chars_of, first_index, lemma_first_index, lines_of, parse_u64, parsed_u64, push_str, str_eq,
    str_lines, string_of_range, trim, trim_bounds,
};

verus! {

/// At most this many children of a folder are measured.
pub const MAX_DISK_CHILDREN: usize = 512;

/// A child of the browsed folder and the space it takes.
pub struct DiskEntry {
    pub name: String,
    pub path: String,
    pub size_bytes: u64,
    pub is_dir: bool,
}

impl HasSize for DiskEntry {
    open spec fn size_spec(&self) -> u64 {
        self.size_bytes
    }

    fn size(&self) -> (r: u64) {
        self.size_bytes
    }
}

/// The browsed folder's children, largest first, and whether some children
/// were left out.
pub struct DiskBreakdownResult {
    pub entries: Vec<DiskEntry>,
    pub truncated: bool,
}

/// Keeps at most `MAX_DISK_CHILDREN` children, saying whether any was left
/// out.
pub fn cap_children<T>(children: Vec<T>) -> (r: (Vec<T>, bool))
    ensures
        r.0@ == at_most(children@, MAX_DISK_CHILDREN as nat),
        r.1 == (children@.len() > MAX_DISK_CHILDREN),
{
    let mut kept = children;
    let truncated = kept.len() > MAX_DISK_CHILDREN;
    kept.truncate(MAX_DISK_CHILDREN);
    (kept, truncated)
}

/// The masks passed to `du`, each after `-I`.
pub open spec fn mask_args(masks: Seq<Seq<char>>) -> Seq<Seq<char>>
    decreases masks.len(),
{
    if masks.len() == 0 {
        seq![]
    } else {
        mask_args(masks.drop_last()) + seq!["-I"@, masks.last()]
    }
}

/// The arguments for `du` measuring `dirs`: one total per folder, in KiB,
/// symbolic links not followed, the private folder names masked, then the
/// folders after `--`.
pub open spec fn du_arguments(dirs: Seq<Seq<char>>) -> Seq<Seq<char>> {
    seq!["-s"@, "-k"@, "-P"@] + mask_args(
        seq![".ssh"@, ".gnupg"@, ".aws"@, ".kube"@, "1Password"@, "Keychains"@, "com.apple.TCC"@],
    ) + seq!["--"@] + dirs
}

/// The arguments for `du` measuring `dirs`.
pub fn du_args(dirs: &Vec<String>) -> (r: Vec<String>)
    ensures
        r.deep_view() == du_arguments(dirs.deep_view()),
{
    let mut out: Vec<String> = Vec::new();
    out.push(owned("-s"));
    out.push(owned("-k"));
    out.push(owned("-P"));
    let masks = readonly_exclusion_names();
    let ghost mv = masks@.map_values(|s: &str| s@);
    let ghost head = out.deep_view();
    assert(head =~= seq!["-s"@, "-k"@, "-P"@]);
    let mut i: usize = 0;
    while i < masks.len()
        invariant
            mv == masks@.map_values(|s: &str| s@),
            head == seq!["-s"@, "-k"@, "-P"@],
            i <= masks@.len(),
            out.deep_view() == head + mask_args(mv.take(i as int)),
        decreases masks@.len() - i,
    {
        let ghost before = out.deep_view();
        out.push(owned("-I"));
        out.push(owned(masks[i]));
        assert(mv.take(i + 1).drop_last() =~= mv.take(i as int));
        assert(mv[i as int] == masks@[i as int]@);
        assert(out.deep_view() =~= before + seq!["-I"@, masks@[i as int]@]);
        i += 1;
    }
    assert(mv.take(i as int) =~= mv);
    out.push(owned("--"));
    let ghost mid = out.deep_view();
    let mut j: usize = 0;
    while j < dirs.len()
        invariant
            j <= dirs@.len(),
            out.deep_view() == mid + dirs.deep_view().take(j as int),
        decreases dirs@.len() - j,
    {
        let c = dirs[j].clone();
        let ghost before = out.deep_view();
        out.push(c);
        assert(out.deep_view() =~= before.push(dirs@[j as int]@));
        assert(dirs.deep_view().take(j + 1) =~= dirs.deep_view().take(j as int).push(dirs@[j as int]@));
        j += 1;
    }
    assert(dirs.deep_view().take(j as int) =~= dirs.deep_view());
    assert(out.deep_view() =~= du_arguments(dirs.deep_view()));
    out
}

/// `kb` KiB in bytes, at most `u64::MAX`.
pub open spec fn kib_bytes(kb: u64) -> u64 {
    if kb * 1024 > u64::MAX {
        u64::MAX
    } else {
        (kb * 1024) as u64
    }
}

/// What a line of `du`'s report says: the path after the first tab, and
/// the size before it in bytes, when that size is a number.
pub open spec fn du_line(l: Seq<char>) -> Option<(Seq<char>, u64)> {
    let t = first_index(l, |c: char| c == '\t');
    if t >= l.len() {
        None
    } else {
        match parsed_u64(trim(l.subrange(0, t))) {
            Some(kb) => Some((l.subrange(t + 1, l.len() as int), kib_bytes(kb))),
            None => None,
        }
    }
}

/// The sizes that the lines `ls` report, in order.
pub open spec fn du_report(ls: Seq<Seq<char>>) -> Seq<(Seq<char>, u64)>
    decreases ls.len(),
{
    if ls.len() == 0 {
        seq![]
    } else {
        match du_line(ls.last()) {
            Some(e) => du_report(ls.drop_last()).push(e),
            None => du_report(ls.drop_last()),
        }
    }
}

fn trimmed(s: &str) -> (r: String)
    ensures
        r@ == trim(s@),
{
    let v = chars_of(s);
    let (a, b) = trim_bounds(&v);
    string_of_range(&v, a, b)
}

/// Reads one line of `du`'s report.
pub fn parse_du_line(l: &str) -> (r: Option<(String, u64)>)
    ensures
        match (du_line(l@), r) {
            (Some((p, n)), Some((path, size))) => path@ == p && size == n,
            (None, None) => true,
            _ => false,
        },
{
    let v = chars_of(l);
    let n = v.len();
    let mut t: usize = 0;
    while t < n && v[t] != '\t'
        invariant
            v@ == l@,
            n == v@.len(),
            t <= n,
            forall|j: int| 0 <= j < t ==> v@[j] != '\t',
        decreases n - t,
    {
        t += 1;
    }
    proof {
        lemma_first_index(l@, |c: char| c == '\t', t as int);
    }
    if t >= n {
        return None;
    }
    let head = string_of_range(&v, 0, t);
    let kb_text = trimmed(head.as_str());
    match parse_u64(kb_text.as_str()) {
        Some(kb) => {
            let bytes: u64 = if kb > u64::MAX / 1024 {
                u64::MAX
            } else {
                kb * 1024
            };
            Some((string_of_range(&v, t + 1, n), bytes))
        },
        None => None,
    }
}

/// Reads `du`'s report: `(path, bytes)` for each line that gives a size.
pub fn parse_du_report(output: &str) -> (r: Vec<(String, u64)>)
    ensures
        r@.map_values(|e: (String, u64)| (e.0@, e.1)) == du_report(str_lines(output@)),
{
    let lines = lines_of(output);
    let ghost ls = lines.deep_view();
    let mut out: Vec<(String, u64)> = Vec::new();
    let mut i: usize = 0;
    while i < lines.len()
        invariant
            ls == lines.deep_view(),
            i <= lines@.len(),
            out@.map_values(|e: (String, u64)| (e.0@, e.1)) == du_report(ls.take(i as int)),
        decreases lines@.len() - i,
    {
        assert(ls.take(i + 1).drop_last() =~= ls.take(i as int));
        assert(ls.take(i + 1).last() == lines@[i as int]@);
        match parse_du_line(lines[i].as_str()) {
            Some(e) => {
                let ghost before = out@.map_values(|e: (String, u64)| (e.0@, e.1));
                let ghost ev = (e.0@, e.1);
                out.push(e);
                assert(out@.map_values(|e: (String, u64)| (e.0@, e.1)) =~= before.push(ev));
            },
            None => {},
        }
        i += 1;
    }
    assert(ls.take(i as int) =~= ls);
    out
}

/// The size reported last for `path`, or 0 (a later line replaces an
/// earlier one for the same path).
pub open spec fn reported_size(report: Seq<(Seq<char>, u64)>, path: Seq<char>) -> u64
    decreases report.len(),
{
    if report.len() == 0 {
        0
    } else if report.last().0 == path {
        report.last().1
    } else {
        reported_size(report.drop_last(), path)
    }
}

/// The size that `du` reported for `path`.
pub fn size_in_report(report: &Vec<(String, u64)>, path: &str) -> (r: u64)
    ensures
        r == reported_size(report@.map_values(|e: (String, u64)| (e.0@, e.1)), path@),
{
    let ghost rv = report@.map_values(|e: (String, u64)| (e.0@, e.1));
    let mut i: usize = report.len();
    assert(rv.take(i as int) =~= rv);
    while i > 0
        invariant
            rv == report@.map_values(|e: (String, u64)| (e.0@, e.1)),
            i <= report@.len(),
            reported_size(rv, path@) == reported_size(rv.take(i as int), path@),
        decreases i,
    {
        assert(rv.take(i as int).drop_last() =~= rv.take(i - 1));
        assert(rv.take(i as int).last() == (report@[i - 1].0@, report@[i - 1].1));
        if str_eq(report[i - 1].0.as_str(), path) {
            return report[i - 1].1;
        }
        i -= 1;
    }
    0
}

/// A measured child: named by its file name, sized by `du` when it is a
/// folder and by its length otherwise; children without a name or without
/// any size are not listed.
pub fn disk_entry(path: &str, is_dir: bool, file_len: u64, report: &Vec<(String, u64)>) -> (r: Option<DiskEntry>)
    ensures
        ({
            let size = if is_dir {
                reported_size(report@.map_values(|e: (String, u64)| (e.0@, e.1)), path@)
            } else {
                file_len
            };
            match file_name(path_comps(path@)) {
                Some(n) if size > 0 => r is Some && r->0.name@ == n && r->0.path@ == path@
                    && r->0.size_bytes == size && r->0.is_dir == is_dir,
                _ => r is None,
            }
        }),
{
    let name = match file_name_of(path) {
        Some(n) => n,
        None => return None,
    };
    let size_bytes = if is_dir {
        size_in_report(report, path)
    } else {
        file_len
    };
    if size_bytes == 0 {
        return None;
    }
    Some(DiskEntry { name, path: owned(path), size_bytes, is_dir })
}

/// The breakdown of a folder: its measured children, largest first.
pub fn disk_breakdown(entries: Vec<DiskEntry>, truncated: bool) -> (r: DiskBreakdownResult)
    ensures
        r.entries@ == ranked_by_size(entries@, 0, usize::MAX as nat),
        r.truncated == truncated,
{
    DiskBreakdownResult { entries: rank_by_size(entries, 0, usize::MAX), truncated }
}

// ── Single totals ───────────────────────────────────────────────────────────

/// The KiB that a one-line `du -sk` report gives: its first word as a
/// number, or 0.
pub open spec fn du_total_kib(output: Seq<char>) -> u64 {
    let ws = crate::network::words(output);
    if ws.len() > 0 {
        match parsed_u64(ws[0]) {
            Some(kb) => kb,
            None => 0,
        }
    } else {
        0
    }
}

fn total_kib(output: &str) -> (r: u64)
    ensures
        r == du_total_kib(output@),
{
    let ws = crate::network::split_words(output);
    if ws.len() == 0 {
        return 0;
    }
    assert(ws.deep_view()[0] == ws@[0]@);
    match parse_u64(ws[0].as_str()) {
        Some(kb) => kb,
        None => 0,
    }
}

/// The size in MiB (rounded down) that `du` reported, 0 when it did not run.
pub fn du_report_mb(output: Option<&str>) -> (r: u64)
    ensures
        r == match output {
            Some(o) => du_total_kib(o@) / 1024,
            None => 0,
        },
{
    match output {
        Some(o) => total_kib(o) / 1024,
        None => 0,
    }
}

/// The size in bytes that `du` reported (at most `u64::MAX`), 0 when it did
/// not run.
pub fn du_report_bytes(output: Option<&str>) -> (r: u64)
    ensures
        r == match output {
            Some(o) => kib_bytes(du_total_kib(o@)),
            None => 0,
        },
{
    match output {
        Some(o) => {
            let kb = total_kib(o);
            if kb > u64::MAX / 1024 {
                u64::MAX
            } else {
                kb * 1024
            }
        },
        None => 0,
    }
}

} // verus!
