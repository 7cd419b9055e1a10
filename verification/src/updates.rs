//! Application updates: version comparison, update feeds and manifests, and
//! the checks made on a downloaded update before it is installed.
use vstd::prelude::*;
use crate::json::{JsonValue, as_items, as_text, field, get, items, or_blank, text};
use crate::paths::{PathParts, has_root, normal_comps, has_extension, path_extension, path_comps};
use crate::text::{
    chars_of, lines_of, str_lines, trim, trim_bounds, has_at, string_of_range, is_ctrl, is_control,
    byte_len, byte_len_of, lemma_byte_len_ge_len, push_str, contains_char, push_char, find_seq,
    find_chars, string_chars, str_lines as lines_spec, lowercase, to_lowercase, strip_leading,
    strip_trailing, strip_bounds, lead_ws, lemma_lead_ws, lemma_lead_ws_at, is_whitespace, is_ws, contains_text, has_prefix,
    contains_lit, str_eq, starts_with_str,
};

verus! {

// ── Versions ────────────────────────────────────────────────────────────────

pub open spec fn is_digit(c: char) -> bool {
    '0' <= c && c <= '9'
}

pub open spec fn digit_value(c: char) -> int {
    (c as int) - ('0' as int)
}

/// The number written by the decimal digits `r`.
pub open spec fn decimal(r: Seq<char>) -> int
    decreases r.len(),
{
    if r.len() == 0 {
        0
    } else {
        decimal(r.drop_last()) * 10 + digit_value(r.last())
    }
}

/// A version component: its number, or 0 when it does not fit in a `u64`.
pub open spec fn part_value(r: Seq<char>) -> int {
    if decimal(r) <= u64::MAX {
        decimal(r)
    } else {
        0
    }
}

/// The runs of ASCII digits completed in `s`, and the run being read.
pub open spec fn runs_scan(s: Seq<char>) -> (Seq<Seq<char>>, Seq<char>)
    decreases s.len(),
{
    if s.len() == 0 {
        (seq![], seq![])
    } else {
        let (done, cur) = runs_scan(s.drop_last());
        if is_digit(s.last()) {
            (done, cur.push(s.last()))
        } else if cur.len() > 0 {
            (done.push(cur), seq![])
        } else {
            (done, cur)
        }
    }
}

/// The maximal runs of ASCII digits of `s`, in order.
pub open spec fn digit_runs(s: Seq<char>) -> Seq<Seq<char>> {
    let (done, cur) = runs_scan(s);
    if cur.len() > 0 {
        done.push(cur)
    } else {
        done
    }
}

/// The numeric components of a version string.
pub open spec fn version_parts(s: Seq<char>) -> Seq<int> {
    digit_runs(s).map_values(|r: Seq<char>| part_value(r))
}

/// Component `i`, missing components counting as 0.
pub open spec fn part_at(v: Seq<int>, i: int) -> int {
    if 0 <= i < v.len() {
        v[i]
    } else {
        0
    }
}

/// Comparing from component `i` on, `va` is the larger.
pub open spec fn parts_gt_from(va: Seq<int>, vb: Seq<int>, i: int) -> bool
    decreases va.len() + vb.len() - i,
{
    if i < 0 || (i >= va.len() && i >= vb.len()) {
        false
    } else if part_at(va, i) > part_at(vb, i) {
        true
    } else if part_at(va, i) < part_at(vb, i) {
        false
    } else {
        parts_gt_from(va, vb, i + 1)
    }
}

/// `a` is a newer version than `b`: at the first component where they differ
/// (the shorter padded with zeros), `a`'s is larger.
pub open spec fn newer_version(a: Seq<char>, b: Seq<char>) -> bool {
    parts_gt_from(version_parts(a), version_parts(b), 0)
}

proof fn lemma_decimal_push(r: Seq<char>, c: char)
    ensures
        decimal(r.push(c)) == decimal(r) * 10 + digit_value(c),
{
    assert(r.push(c).drop_last() =~= r);
}

proof fn lemma_runs_scan_step(s: Seq<char>, i: int)
    requires
        0 <= i < s.len(),
    ensures
        runs_scan(s.take(i + 1)) == ({
            let (done, cur) = runs_scan(s.take(i));
            if is_digit(s[i]) {
                (done, cur.push(s[i]))
            } else if cur.len() > 0 {
                (done.push(cur), seq![])
            } else {
                (done, cur)
            }
        }),
{
    assert(s.take(i + 1).drop_last() =~= s.take(i));
}

/// The numeric components of a version string (a component too large for a
/// `u64` counts as 0).
pub fn version_parts_of(s: &str) -> (v: Vec<u64>)
    ensures
        v@.len() == version_parts(s@).len(),
        forall|k: int| 0 <= k < v@.len() ==> v@[k] as int == #[trigger] version_parts(s@)[k],
{
    let cs = chars_of(s);
    let mut out: Vec<u64> = Vec::new();
    let mut in_run = false;
    let mut fits = true;
    let mut cur: u64 = 0;
    let ghost mut run: Seq<char> = seq![];
    let mut i: usize = 0;
    while i < cs.len()
        invariant
            cs@ == s@,
            i <= cs@.len(),
            runs_scan(cs@.take(i as int)) == (runs_scan(cs@.take(i as int)).0, run),
            in_run == (run.len() > 0),
            fits ==> cur == decimal(run),
            !fits ==> decimal(run) > u64::MAX,
            forall|c: int| 0 <= c < run.len() ==> is_digit(#[trigger] run[c]),
            out@.len() == runs_scan(cs@.take(i as int)).0.len(),
            forall|k: int|
                0 <= k < out@.len() ==> out@[k] as int == part_value(
                    #[trigger] runs_scan(cs@.take(i as int)).0[k],
                ),
        decreases cs@.len() - i,
    {
        let c = cs[i];
        let ghost done = runs_scan(cs@.take(i as int)).0;
        proof {
            lemma_runs_scan_step(cs@, i as int);
        }
        if '0' <= c && c <= '9' {
            let d = ((c as u32) - ('0' as u32)) as u64;
            assert(d as int == digit_value(c));
            proof {
                lemma_decimal_push(run, c);
            }
            if fits && cur <= (u64::MAX - d) / 10 {
                assert(cur * 10 + d <= u64::MAX) by (nonlinear_arith)
                    requires
                        cur <= (u64::MAX - d) / 10,
                        d <= 9,
                ;
                cur = cur * 10 + d;
            } else {
                if fits {
                    assert(cur * 10 + d > u64::MAX) by (nonlinear_arith)
                        requires
                            cur > (u64::MAX - d) / 10,
                            d <= 9,
                    ;
                }
                fits = false;
            }
            in_run = true;
            proof {
                run = run.push(c);
            }
        } else {
            if in_run {
                let val = if fits { cur } else { 0 };
                out.push(val);
                proof {
                    assert(runs_scan(cs@.take(i + 1)).0 == done.push(run));
                }
            }
            in_run = false;
            fits = true;
            cur = 0;
            proof {
                run = seq![];
            }
        }
        i += 1;
    }
    if in_run {
        let val = if fits { cur } else { 0 };
        out.push(val);
    }
    proof {
        assert(cs@.take(cs@.len() as int) =~= cs@);
    }
    out
}

/// Whether version `a` is newer than version `b`, comparing their numeric
/// components in order.
pub fn version_gt(a: &str, b: &str) -> (r: bool)
    ensures
        r == newer_version(a@, b@),
{
    let va = version_parts_of(a);
    let vb = version_parts_of(b);
    let ghost sa = version_parts(a@);
    let ghost sb = version_parts(b@);
    let n = if va.len() > vb.len() { va.len() } else { vb.len() };
    let mut i: usize = 0;
    while i < n
        invariant
            sa == version_parts(a@),
            sb == version_parts(b@),
            va@.len() == sa.len(),
            vb@.len() == sb.len(),
            forall|k: int| 0 <= k < va@.len() ==> va@[k] as int == #[trigger] sa[k],
            forall|k: int| 0 <= k < vb@.len() ==> vb@[k] as int == #[trigger] sb[k],
            n == if va@.len() > vb@.len() { va@.len() } else { vb@.len() },
            i <= n,
            parts_gt_from(sa, sb, 0) == parts_gt_from(sa, sb, i as int),
        decreases n - i,
    {
        let x: u64 = if i < va.len() { va[i] } else { 0 };
        let y: u64 = if i < vb.len() { vb[i] } else { 0 };
        assert(x as int == part_at(sa, i as int));
        assert(y as int == part_at(sb, i as int));
        assert(i < sa.len() || i < sb.len());
        if x > y {
            assert(parts_gt_from(sa, sb, i as int));
            return true;
        }
        if x < y {
            assert(!parts_gt_from(sa, sb, i as int));
            return false;
        }
        assert(parts_gt_from(sa, sb, i as int) == parts_gt_from(sa, sb, i + 1));
        i += 1;
    }
    false
}


// ── Code signatures ─────────────────────────────────────────────────────────

/// The index of the first line from `k` on whose trimmed text begins with
/// `field`, or the number of lines.
pub open spec fn first_field_line(ls: Seq<Seq<char>>, field: Seq<char>, k: int) -> int
    decreases ls.len() - k,
{
    if k < 0 || k >= ls.len() {
        ls.len() as int
    } else if has_prefix(trim(ls[k]), field) {
        k
    } else {
        first_field_line(ls, field, k + 1)
    }
}

/// The value of `field` in `codesign` output: what follows it on the first
/// line that starts with it, trimmed; nothing when that is empty or `not set`.
pub open spec fn signing_value(output: Seq<char>, field: Seq<char>) -> Option<Seq<char>> {
    let ls = str_lines(output);
    let k = first_field_line(ls, field, 0);
    if k >= ls.len() {
        None
    } else {
        let v = trim(trim(ls[k]).skip(field.len() as int));
        if v.len() == 0 || v == "not set"@ {
            None
        } else {
            Some(v)
        }
    }
}

/// The value of a `Field=` line of `codesign` output.
pub fn signing_field(output: &str, field: &str) -> (r: Option<String>)
    ensures
        match r {
            Some(v) => signing_value(output@, field@) == Some(v@),
            None => signing_value(output@, field@) is None,
        },
{
    let ls = lines_of(output);
    let ghost lv = ls.deep_view();
    let mut k: usize = 0;
    while k < ls.len()
        invariant
            lv == ls.deep_view(),
            lv == str_lines(output@),
            k <= lv.len(),
            first_field_line(lv, field@, 0) == first_field_line(lv, field@, k as int),
        decreases lv.len() - k,
    {
        let v = chars_of(ls[k].as_str());
        assert(v@ == lv[k as int]);
        let (a, b) = trim_bounds(&v);
        let t = string_of_range(&v, a, b);
        let tv = chars_of(t.as_str());
        if has_at(&tv, 0, field) {
            assert(has_prefix(trim(lv[k as int]), field@));
            let n = field.unicode_len();
            let rest = string_of_range(&tv, n, tv.len());
            let rv = chars_of(rest.as_str());
            let (c, d) = trim_bounds(&rv);
            assert(rv@ =~= trim(lv[k as int]).skip(n as int));
            let value = string_of_range(&rv, c, d);
            proof {
                reveal_strlit("not set");
            }
            let vv = chars_of(value.as_str());
            let is_not_set = vv.len() == 7 && has_at(&vv, 0, "not set");
            if vv.len() == 0 || is_not_set {
                proof {
                    if is_not_set {
                        assert(vv@ =~= "not set"@);
                    }
                }
                return None;
            }
            proof {
                if vv@ == "not set"@ {
                    assert(vv@.subrange(0, 7) =~= vv@);
                }
            }
            return Some(value);
        }
        k += 1;
    }
    None
}

// ── Archives ────────────────────────────────────────────────────────────────

/// The most entries an update archive may list.
pub const MAX_ARCHIVE_ENTRIES: usize = 50_000;

/// An entry that is not a plain relative path: empty, too long, with a
/// backslash or a control character.
pub open spec fn malformed_entry(e: Seq<char>) -> bool {
    ||| e.len() == 0
    ||| byte_len(e) > 4096
    ||| e.contains('\\')
    ||| exists|i: int| 0 <= i < e.len() && #[trigger] is_ctrl(e[i])
}

/// An entry that leaves the extraction directory or names it: absolute, or
/// with a `..` component, or starting with a `.` component.
pub open spec fn dangerous_entry(e: Seq<char>) -> bool {
    ||| has_root(e)
    ||| normal_comps(e).contains(".."@)
    ||| e == "."@
    ||| has_prefix(e, "./"@)
}

/// The refusal for a malformed listing.
pub open spec fn archive_structure_msg() -> Seq<char> {
    "Structure d'archive refusée"@
}

/// The refusal for a dangerous entry.
pub open spec fn dangerous_entry_msg(e: Seq<char>) -> Seq<char> {
    "Chemin dangereux dans l'archive : "@ + e
}

/// The error for entry `k` of a listing, if any.
pub open spec fn entry_error(k: int, e: Seq<char>) -> Option<Seq<char>> {
    if k >= MAX_ARCHIVE_ENTRIES || malformed_entry(e) {
        Some(archive_structure_msg())
    } else if dangerous_entry(e) {
        Some(dangerous_entry_msg(e))
    } else {
        None
    }
}

/// The first error among entries `k..` of a listing.
pub open spec fn listing_error_from(ls: Seq<Seq<char>>, k: int) -> Option<Seq<char>>
    decreases ls.len() - k,
{
    if k < 0 || k >= ls.len() {
        None
    } else if entry_error(k, ls[k]) is Some {
        entry_error(k, ls[k])
    } else {
        listing_error_from(ls, k + 1)
    }
}

/// What checking an archive listing gives.
pub open spec fn listing_outcome(listing: Seq<char>) -> Result<(), Seq<char>> {
    let ls = str_lines(listing);
    match listing_error_from(ls, 0) {
        Some(m) => Err(m),
        None => if ls.len() == 0 {
            Err("Archive vide"@)
        } else {
            Ok(())
        },
    }
}

/// Whether a relative entry contains a `..` component.
fn has_parent_component(e: &str) -> (r: bool)
    ensures
        r == normal_comps(e@).contains(".."@),
{
    let p = PathParts::parse(e);
    let mut k: usize = 0;
    let mut found = false;
    while k < p.ranges.len()
        invariant
            p.wf(),
            p.normals() == normal_comps(e@),
            k <= p.ranges@.len(),
            found == exists|j: int| 0 <= j < k && p.comp(j) == ".."@,
        decreases p.ranges@.len() - k,
    {
        if p.comp_is(k, "..") {
            found = true;
        }
        k += 1;
    }
    proof {
        if found {
            let j = choose|j: int| 0 <= j < k && p.comp(j) == ".."@;
            assert(normal_comps(e@)[j] == ".."@);
        }
        if normal_comps(e@).contains(".."@) {
            let j = choose|j: int| 0 <= j < normal_comps(e@).len() && normal_comps(e@)[j] == ".."@;
            assert(p.comp(j) == ".."@);
        }
    }
    found
}

/// The error for entry `k` of a listing, if any.
fn check_entry(k: usize, e: &str) -> (r: Option<String>)
    ensures
        match r {
            Some(m) => entry_error(k as int, e@) == Some(m@),
            None => entry_error(k as int, e@) is None,
        },
{
    let v = chars_of(e);
    let n = v.len();
    let mut structural = k >= MAX_ARCHIVE_ENTRIES || n == 0 || n > 4096;
    if !structural {
        proof {
            lemma_byte_len_ge_len(v@);
        }
        let bytes = byte_len_of(&v, 0, n);
        assert(v@.subrange(0, n as int) =~= v@);
        structural = bytes > 4096 || contains_char(&v, '\\');
        if !structural {
            let mut i: usize = 0;
            while i < n && !structural
                invariant
                    n == v@.len(),
                    i <= n,
                    !structural ==> forall|j: int| 0 <= j < i ==> !is_ctrl(#[trigger] v@[j]),
                    structural ==> exists|j: int| 0 <= j < n && #[trigger] is_ctrl(v@[j]),
                decreases n - i,
            {
                if is_control(v[i]) {
                    structural = true;
                }
                i += 1;
            }
        }
    } else {
        proof {
            lemma_byte_len_ge_len(v@);
        }
    }
    if structural {
        let mut m = String::new();
        push_str(&mut m, "Structure d'archive refusée");
        return Some(m);
    }
    assert(!malformed_entry(e@));
    let dot = n == 1 && v[0] == '.';
    let dot_slash = n >= 2 && v[0] == '.' && v[1] == '/';
    proof {
        reveal_strlit(".");
        reveal_strlit("./");
        if dot {
            assert(v@ =~= "."@);
        }
        if n >= 2 && v@[0] == '.' && v@[1] == '/' {
            assert(v@.subrange(0, 2) =~= "./"@);
        }
        if n >= 2 && has_prefix(v@, "./"@) {
            assert(v@.subrange(0, 2)[0] == v@[0]);
            assert(v@.subrange(0, 2)[1] == v@[1]);
        }
    }
    if (n > 0 && v[0] == '/') || has_parent_component(e) || dot || dot_slash {
        let mut m = String::new();
        push_str(&mut m, "Chemin dangereux dans l'archive : ");
        push_str(&mut m, e);
        proof {
            reveal_strlit("Chemin dangereux dans l'archive : ");
        }
        return Some(m);
    }
    None
}

/// An archive listing longer than this many bytes has too many entries.
pub const MAX_LISTING_BYTES: usize = 8_000_000;

/// An archive's detailed listing (entry types) longer than this is refused.
pub const MAX_METADATA_BYTES: usize = 16_000_000;

/// Whether an entry of a detailed archive listing (`tar -tvf`,
/// `unzip -ZTs`) is a link or a special file: its type letter is `l`, `h`,
/// `b`, `c`, `p` or `s`.
pub open spec fn special_entry(line: Seq<char>) -> bool {
    line.len() > 0 && (line[0] == 'l' || line[0] == 'h' || line[0] == 'b' || line[0] == 'c' || line[0] == 'p'
        || line[0] == 's')
}

/// Whether a detailed archive listing names no link and no special file.
pub open spec fn plain_entries(listing: Seq<char>) -> bool {
    forall|k: int| 0 <= k < str_lines(listing).len() ==> !special_entry(#[trigger] str_lines(listing)[k])
}

/// Checks the entry types of an archive before it is extracted: links and
/// special files are refused.
pub fn check_entry_types(details: &str) -> (r: Result<(), String>)
    ensures
        r is Ok <==> plain_entries(details@),
        r matches Err(m) ==> m@ == "Liens et fichiers spéciaux refusés dans les archives"@,
{
    let ls = lines_of(details);
    let ghost lv = ls.deep_view();
    let mut k: usize = 0;
    while k < ls.len()
        invariant
            lv == ls.deep_view(),
            lv == str_lines(details@),
            k <= lv.len(),
            forall|j: int| 0 <= j < k ==> !special_entry(#[trigger] lv[j]),
        decreases lv.len() - k,
    {
        let v = chars_of(ls[k].as_str());
        assert(v@ == lv[k as int]);
        if v.len() > 0 {
            let c = v[0];
            if c == 'l' || c == 'h' || c == 'b' || c == 'c' || c == 'p' || c == 's' {
                let mut m = String::new();
                push_str(&mut m, "Liens et fichiers spéciaux refusés dans les archives");
                return Err(m);
            }
        }
        k += 1;
    }
    Ok(())
}


/// Checks the entry names an archive lists before it is extracted: each must
/// be a plain relative path that stays inside the extraction directory.
pub fn validate_archive_listing(listing: &str) -> (r: Result<(), String>)
    ensures
        match r {
            Ok(()) => listing_outcome(listing@) is Ok,
            Err(m) => listing_outcome(listing@) == Err::<(), Seq<char>>(m@),
        },
{
    let ls = lines_of(listing);
    let ghost lv = ls.deep_view();
    let mut k: usize = 0;
    while k < ls.len()
        invariant
            lv == ls.deep_view(),
            lv == str_lines(listing@),
            k <= lv.len(),
            listing_error_from(lv, 0) == listing_error_from(lv, k as int),
        decreases lv.len() - k,
    {
        assert(ls@[k as int]@ == lv[k as int]);
        if let Some(m) = check_entry(k, ls[k].as_str()) {
            return Err(m);
        }
        k += 1;
    }
    if ls.len() == 0 {
        let mut m = String::new();
        push_str(&mut m, "Archive vide");
        return Err(m);
    }
    Ok(())
}


// ── Sparkle feeds ───────────────────────────────────────────────────────────

/// The trimmed text of `s[a..b]`, when not empty.
pub open spec fn nonempty_trimmed(s: Seq<char>, a: int, b: int) -> Option<Seq<char>> {
    let v = trim(s.subrange(a, b));
    if v.len() > 0 {
        Some(v)
    } else {
        None
    }
}

/// The value of `attr` in `tag` when quoted with `q`.
pub open spec fn attr_with_quote(tag: Seq<char>, attr: Seq<char>, q: char) -> Option<Seq<char>> {
    let needle = attr + seq!['='] + seq![q];
    match find_seq(tag, needle) {
        None => None,
        Some(pos) => {
            let from = pos + needle.len();
            match find_seq(tag.skip(from), seq![q]) {
                None => None,
                Some(end) => nonempty_trimmed(tag, from, from + end),
            }
        },
    }
}

/// The value of the attribute `attr` in the XML tag `tag`: in double quotes,
/// else in single quotes; trimmed and not empty.
pub open spec fn attr_value(tag: Seq<char>, attr: Seq<char>) -> Option<Seq<char>> {
    match attr_with_quote(tag, attr, '"') {
        Some(v) => Some(v),
        None => attr_with_quote(tag, attr, '\''),
    }
}

/// The text of the first `<tag>` element of `xml`, trimmed and not empty.
pub open spec fn element_text(xml: Seq<char>, tag: Seq<char>) -> Option<Seq<char>> {
    let open = seq!['<'] + tag + seq!['>'];
    let close = seq!['<', '/'] + tag + seq!['>'];
    match find_seq(xml, open) {
        None => None,
        Some(p) => {
            let start = p + open.len();
            match find_seq(xml.skip(start), close) {
                None => None,
                Some(e) => nonempty_trimmed(xml, start, start + e),
            }
        },
    }
}

/// The trimmed text of `v[a..b]`, when not empty.
fn trimmed_range(v: &Vec<char>, a: usize, b: usize) -> (r: Option<String>)
    requires
        a <= b <= v@.len(),
    ensures
        match r {
            Some(x) => nonempty_trimmed(v@, a as int, b as int) == Some(x@),
            None => nonempty_trimmed(v@, a as int, b as int) is None,
        },
{
    let piece = string_of_range(v, a, b);
    let pv = chars_of(piece.as_str());
    let (c, d) = trim_bounds(&pv);
    if c == d {
        return None;
    }
    Some(string_of_range(&pv, c, d))
}

fn attr_quoted(tag: &str, attr: &str, q: char) -> (r: Option<String>)
    ensures
        match r {
            Some(x) => attr_with_quote(tag@, attr@, q) == Some(x@),
            None => attr_with_quote(tag@, attr@, q) is None,
        },
{
    let v = chars_of(tag);
    let mut needle = String::new();
    push_str(&mut needle, attr);
    push_char(&mut needle, '=');
    push_char(&mut needle, q);
    let nv = string_chars(&needle);
    assert(nv@ =~= attr@ + seq!['='] + seq![q]);
    assert(v@.subrange(0, v@.len() as int) =~= v@);
    proof {
        crate::text::lemma_find_from(v@, nv@, 0);
    }
    match find_chars(&v, 0, v.len(), &nv) {
        None => None,
        Some(pos) => {
            let from = pos + nv.len();
            proof {
                crate::text::lemma_find_from(v@.skip(from as int), seq![q], 0);
            }
            let qv = vec![q];
            assert(qv@ =~= seq![q]);
            assert(v@.subrange(from as int, v@.len() as int) =~= v@.skip(from as int));
            match find_chars(&v, from, v.len(), &qv) {
                None => None,
                Some(end) => trimmed_range(&v, from, end),
            }
        },
    }
}

/// The value of an attribute of an XML tag.
pub fn xml_attr(tag: &str, attr: &str) -> (r: Option<String>)
    ensures
        match r {
            Some(x) => attr_value(tag@, attr@) == Some(x@),
            None => attr_value(tag@, attr@) is None,
        },
{
    match attr_quoted(tag, attr, '"') {
        Some(v) => Some(v),
        None => attr_quoted(tag, attr, '\''),
    }
}

/// The text of the first element named `tag`.
pub fn xml_element(xml: &str, tag: &str) -> (r: Option<String>)
    ensures
        match r {
            Some(x) => element_text(xml@, tag@) == Some(x@),
            None => element_text(xml@, tag@) is None,
        },
{
    let v = chars_of(xml);
    let mut open = String::new();
    push_char(&mut open, '<');
    push_str(&mut open, tag);
    push_char(&mut open, '>');
    let mut close = String::new();
    push_char(&mut close, '<');
    push_char(&mut close, '/');
    push_str(&mut close, tag);
    push_char(&mut close, '>');
    let ov = string_chars(&open);
    let cv = string_chars(&close);
    assert(ov@ =~= seq!['<'] + tag@ + seq!['>']);
    assert(cv@ =~= seq!['<', '/'] + tag@ + seq!['>']);
    assert(v@.subrange(0, v@.len() as int) =~= v@);
    proof {
        crate::text::lemma_find_from(v@, ov@, 0);
    }
    match find_chars(&v, 0, v.len(), &ov) {
        None => None,
        Some(p) => {
            let start = p + ov.len();
            proof {
                crate::text::lemma_find_from(v@.skip(start as int), cv@, 0);
            }
            assert(v@.subrange(start as int, v@.len() as int) =~= v@.skip(start as int));
            match find_chars(&v, start, v.len(), &cv) {
                None => None,
                Some(e) => trimmed_range(&v, start, e),
            }
        },
    }
}


/// The characters of `s` outside `<…>` tags, and whether `s` ends inside a tag.
pub open spec fn outside_tags(s: Seq<char>) -> (Seq<char>, bool)
    decreases s.len(),
{
    if s.len() == 0 {
        (seq![], false)
    } else {
        let (o, in_tag) = outside_tags(s.drop_last());
        let c = s.last();
        if c == '<' {
            (o, true)
        } else if c == '>' {
            (o, false)
        } else if !in_tag {
            (o.push(c), in_tag)
        } else {
            (o, in_tag)
        }
    }
}

/// The lines, trimmed, without the blank ones.
pub open spec fn nonblank_trimmed(ls: Seq<Seq<char>>) -> Seq<Seq<char>>
    decreases ls.len(),
{
    if ls.len() == 0 {
        seq![]
    } else {
        let r = nonblank_trimmed(ls.drop_last());
        let t = trim(ls.last());
        if t.len() > 0 {
            r.push(t)
        } else {
            r
        }
    }
}

/// The lines joined with `\n`.
pub open spec fn join_lines(ls: Seq<Seq<char>>) -> Seq<char>
    decreases ls.len(),
{
    if ls.len() == 0 {
        seq![]
    } else if ls.len() == 1 {
        ls[0]
    } else {
        join_lines(ls.drop_last()) + seq!['\n'] + ls.last()
    }
}

/// Release notes as plain text: tags removed, lines trimmed, blank lines
/// dropped.
pub open spec fn html_text(s: Seq<char>) -> Seq<char> {
    join_lines(nonblank_trimmed(lines_spec(outside_tags(s).0)))
}

/// The plain text of an HTML fragment.
pub fn strip_html(html: &str) -> (r: String)
    ensures
        r@ == html_text(html@),
{
    let v = chars_of(html);
    let mut out = String::new();
    let mut in_tag = false;
    let mut i: usize = 0;
    while i < v.len()
        invariant
            v@ == html@,
            i <= v@.len(),
            outside_tags(v@.take(i as int)) == (out@, in_tag),
        decreases v@.len() - i,
    {
        let c = v[i];
        assert(v@.take(i + 1).drop_last() =~= v@.take(i as int));
        if c == '<' {
            in_tag = true;
        } else if c == '>' {
            in_tag = false;
        } else if !in_tag {
            push_char(&mut out, c);
        }
        i += 1;
    }
    assert(v@.take(v@.len() as int) =~= v@);
    let ls = crate::text::lines_of(out.as_str());
    let ghost lv = ls.deep_view();
    let mut res = String::new();
    let mut k: usize = 0;
    while k < ls.len()
        invariant
            lv == ls.deep_view(),
            k <= lv.len(),
            res@ == join_lines(nonblank_trimmed(lv.take(k as int))),
            (res@.len() == 0) == (nonblank_trimmed(lv.take(k as int)).len() == 0),
            forall|j: int| 0 <= j < nonblank_trimmed(lv.take(k as int)).len() ==> #[trigger] nonblank_trimmed(lv.take(k as int))[j].len() > 0,
        decreases lv.len() - k,
    {
        let lc = chars_of(ls[k].as_str());
        let (a, b) = trim_bounds(&lc);
        let ghost before = nonblank_trimmed(lv.take(k as int));
        assert(lv.take(k + 1).drop_last() =~= lv.take(k as int));
        assert(lv.take(k + 1).last() == lv[k as int]);
        if a < b {
            let t = string_of_range(&lc, a, b);
            if res.unicode_len() > 0 {
                push_char(&mut res, '\n');
            }
            push_str(&mut res, t.as_str());
            proof {
                let after = nonblank_trimmed(lv.take(k + 1));
                assert(after == before.push(t@));
                assert(after.drop_last() =~= before);
                if before.len() == 0 {
                    assert(res@ =~= t@);
                }
            }
        }
        k += 1;
    }
    assert(lv.take(lv.len() as int) =~= lv);
    res
}

/// What a Sparkle appcast announces: versions, download and release notes.
pub struct FeedResult {
    pub short_version: String,
    pub build_version: String,
    pub url: String,
    pub notes: String,
}

/// A value, or empty.
pub open spec fn or_empty(o: Option<Seq<char>>) -> Seq<char> {
    match o {
        Some(v) => v,
        None => seq![],
    }
}

/// A version announced by the feed: from the enclosure's attribute, else
/// from the element of the same name; empty when neither has one.
pub open spec fn feed_version(xml: Seq<char>, tag: Seq<char>, name: Seq<char>) -> Seq<char> {
    match attr_value(tag, name) {
        Some(v) => v,
        None => or_empty(element_text(xml, name)),
    }
}

/// What an appcast gives, as `(short version, build version, url, notes)`:
/// taken from its first `<enclosure …>` tag, which must hold an `http(s)`
/// URL and at least one version.
pub open spec fn feed_of(xml: Seq<char>) -> Option<(Seq<char>, Seq<char>, Seq<char>, Seq<char>)> {
    match find_seq(xml, "<enclosure"@) {
        None => None,
        Some(pos) => match find_seq(xml.skip(pos), seq!['>']) {
            None => None,
            Some(e) => {
                let tag = xml.subrange(pos, pos + e + 1);
                match attr_value(tag, "url"@) {
                    None => None,
                    Some(url) => if !has_prefix(url, "http"@) {
                        None
                    } else {
                        let short = feed_version(xml, tag, "sparkle:shortVersionString"@);
                        let build = feed_version(xml, tag, "sparkle:version"@);
                        if short.len() == 0 && build.len() == 0 {
                            None
                        } else {
                            let notes = match element_text(xml, "description"@) {
                                Some(d) => html_text(d),
                                None => seq![],
                            };
                            Some((short, build, url, notes))
                        }
                    },
                }
            },
        },
    }
}

fn version_from(xml: &str, tag: &str, name: &str) -> (r: String)
    ensures
        r@ == feed_version(xml@, tag@, name@),
{
    match xml_attr(tag, name) {
        Some(v) => v,
        None => match xml_element(xml, name) {
            Some(v) => v,
            None => String::new(),
        },
    }
}

/// Reads an appcast.
pub fn parse_feed(xml: &str) -> (r: Option<FeedResult>)
    ensures
        match r {
            Some(f) => feed_of(xml@) == Some((f.short_version@, f.build_version@, f.url@, f.notes@)),
            None => feed_of(xml@) is None,
        },
{
    proof {
        reveal_strlit("<enclosure");
        reveal_strlit("http");
        reveal_strlit("url");
    }
    let v = chars_of(xml);
    let open = chars_of("<enclosure");
    assert(v@.subrange(0, v@.len() as int) =~= v@);
    proof {
        crate::text::lemma_find_from(v@, open@, 0);
    }
    let pos = match find_chars(&v, 0, v.len(), &open) {
        Some(p) => p,
        None => return None,
    };
    let gt = vec!['>'];
    assert(gt@ =~= seq!['>']);
    assert(v@.subrange(pos as int, v@.len() as int) =~= v@.skip(pos as int));
    proof {
        crate::text::lemma_find_from(v@.skip(pos as int), gt@, 0);
    }
    let end = match find_chars(&v, pos, v.len(), &gt) {
        Some(e) => e,
        None => return None,
    };
    let tag = string_of_range(&v, pos, end + 1);
    let url = match xml_attr(tag.as_str(), "url") {
        Some(u) => u,
        None => return None,
    };
    let uv = chars_of(url.as_str());
    if !has_at(&uv, 0, "http") {
        return None;
    }
    let short = version_from(xml, tag.as_str(), "sparkle:shortVersionString");
    let build = version_from(xml, tag.as_str(), "sparkle:version");
    if short.unicode_len() == 0 && build.unicode_len() == 0 {
        return None;
    }
    let notes = match xml_element(xml, "description") {
        Some(d) => strip_html(d.as_str()),
        None => String::new(),
    };
    Some(FeedResult { short_version: short, build_version: build, url, notes })
}


/// An available update of an application.
pub struct SparkleUpdate {
    pub name: String,
    pub path: String,
    pub current_version: String,
    pub latest_version: String,
    pub download_url: String,
    pub release_notes: String,
}

/// The installed and announced versions to compare: the short versions when
/// both sides have one, else the build numbers when both have one, else what
/// there is.
pub open spec fn versions_to_compare(
    installed_short: Seq<char>,
    installed_build: Seq<char>,
    feed_short: Seq<char>,
    feed_build: Seq<char>,
) -> (Seq<char>, Seq<char>) {
    if feed_short.len() > 0 && installed_short.len() > 0 {
        (installed_short, feed_short)
    } else if feed_build.len() > 0 && installed_build.len() > 0 {
        (installed_build, feed_build)
    } else if feed_short.len() > 0 {
        (installed_build, feed_short)
    } else {
        (installed_short, feed_build)
    }
}

/// Whether the feed announces a newer version than the one installed; if so,
/// the versions to show: `(installed, announced)`, short versions preferred.
pub open spec fn sparkle_versions(
    installed_short: Seq<char>,
    installed_build: Seq<char>,
    feed_short: Seq<char>,
    feed_build: Seq<char>,
) -> Option<(Seq<char>, Seq<char>)> {
    let (current, latest) = versions_to_compare(installed_short, installed_build, feed_short, feed_build);
    if installed_short.len() == 0 && installed_build.len() == 0 {
        None
    } else if !newer_version(latest, current) {
        None
    } else {
        Some(
            (
                if installed_short.len() > 0 {
                    installed_short
                } else {
                    installed_build
                },
                if feed_short.len() > 0 {
                    feed_short
                } else {
                    feed_build
                },
            ),
        )
    }
}

/// The update an appcast offers for the application `name` at `path`, given
/// the versions it has installed, if the appcast's is newer.
pub fn sparkle_update_from_feed(
    name: &str,
    path: &str,
    installed_short: &str,
    installed_build: &str,
    feed: FeedResult,
) -> (r: Option<SparkleUpdate>)
    ensures
        match sparkle_versions(installed_short@, installed_build@, feed.short_version@, feed.build_version@) {
            None => r is None,
            Some((cur, lat)) => r matches Some(u) && u.name@ == name@ && u.path@ == path@
                && u.current_version@ == cur && u.latest_version@ == lat && u.download_url@ == feed.url@
                && u.release_notes@ == feed.notes@,
        },
{
    let is_ = installed_short.unicode_len() > 0;
    let ib = installed_build.unicode_len() > 0;
    if !is_ && !ib {
        return None;
    }
    let fs = feed.short_version.unicode_len() > 0;
    let fb = feed.build_version.unicode_len() > 0;
    let newer = if fs && is_ {
        version_gt(feed.short_version.as_str(), installed_short)
    } else if fb && ib {
        version_gt(feed.build_version.as_str(), installed_build)
    } else if fs {
        version_gt(feed.short_version.as_str(), installed_build)
    } else {
        version_gt(feed.build_version.as_str(), installed_short)
    };
    if !newer {
        return None;
    }
    let mut n = String::new();
    push_str(&mut n, name);
    let mut p = String::new();
    push_str(&mut p, path);
    let mut cur = String::new();
    push_str(&mut cur, if is_ { installed_short } else { installed_build });
    let lat = if fs { feed.short_version } else { feed.build_version };
    proof {
        assert(n@ =~= name@);
        assert(p@ =~= path@);
        assert(cur@ =~= (if is_ { installed_short@ } else { installed_build@ }));
    }
    Some(SparkleUpdate {
        name: n,
        path: p,
        current_version: cur,
        latest_version: lat,
        download_url: feed.url,
        release_notes: feed.notes,
    })
}


// ── electron-updater ───────────────────────────────────────────────────────

/// The value of `key` in a YAML document: on the first line whose text
/// (leading blanks aside) begins with `key:`, what follows the line's first
/// `:`, trimmed and without surrounding double quotes; nothing when empty.
pub open spec fn yml_value_of(yml: Seq<char>, key: Seq<char>) -> Option<Seq<char>> {
    yml_value_from(lines_spec(yml), key, 0)
}

pub open spec fn yml_value_from(ls: Seq<Seq<char>>, key: Seq<char>, k: int) -> Option<Seq<char>>
    decreases ls.len() - k,
{
    if k < 0 || k >= ls.len() {
        None
    } else if has_prefix(ls[k].skip(lead_ws(ls[k]) as int), key + seq![':']) {
        let l = ls[k];
        let c = crate::text::first_index(l, |ch: char| ch == ':');
        let v = strip_trailing(strip_leading(trim(l.skip(c + 1)), seq!['"']), seq!['"']);
        if v.len() > 0 {
            Some(v)
        } else {
            None
        }
    } else {
        yml_value_from(ls, key, k + 1)
    }
}

/// The value of a key in an `app-update.yml` or `latest-mac.yml` file.
pub fn yml_value(yml: &str, key: &str) -> (r: Option<String>)
    ensures
        match yml_value_of(yml@, key@) {
            Some(v) => r matches Some(x) && x@ == v,
            None => r is None,
        },
{
    let ls = lines_of(yml);
    let ghost lv = ls.deep_view();
    let mut want = String::new();
    push_str(&mut want, key);
    push_char(&mut want, ':');
    let wv = string_chars(&want);
    assert(wv@ =~= key@ + seq![':']);
    let mut k: usize = 0;
    while k < ls.len()
        invariant
            lv == ls.deep_view(),
            lv == lines_spec(yml@),
            wv@ == key@ + seq![':'],
            k <= lv.len(),
            yml_value_from(lv, key@, 0) == yml_value_from(lv, key@, k as int),
        decreases lv.len() - k,
    {
        let v = chars_of(ls[k].as_str());
        assert(v@ == lv[k as int]);
        let mut a: usize = 0;
        while a < v.len() && is_whitespace(v[a])
            invariant
                a <= v@.len(),
                forall|j: int| 0 <= j < a ==> #[trigger] is_ws(v@[j]),
                a <= lead_ws(v@),
            decreases v@.len() - a,
        {
            proof {
                lemma_lead_ws(v@);
                lemma_lead_ws_at(v@, a as int);
            }
            a += 1;
        }
        proof {
            lemma_lead_ws(v@);
        }
        assert(a == lead_ws(v@));
        let starts = crate::text::chars_at(&v, a, &wv);
        assert(starts == has_prefix(v@.skip(a as int), key@ + seq![':'])) by {
            if a + wv@.len() <= v@.len() {
                assert(v@.skip(a as int).subrange(0, wv@.len() as int) =~= v@.subrange(a as int, a + wv@.len()));
            }
        }
        if starts {
            let mut c: usize = 0;
            while c < v.len() && v[c] != ':'
                invariant
                    c <= v@.len(),
                    forall|j: int| 0 <= j < c ==> v@[j] != ':',
                decreases v@.len() - c,
            {
                c += 1;
            }
            proof {
                crate::text::lemma_first_index(v@, |ch: char| ch == ':', c as int);
            }
            if c >= v.len() {
                // A key followed by `:` always has one.
                assert(wv@[key@.len() as int] == ':');
                assert(v@.subrange(a as int, a + wv@.len())[key@.len() as int] == v@[a + key@.len()]);
                assert(v@[a + key@.len()] == ':');
                assert(false);
                return None;
            }
            let rest = string_of_range(&v, c + 1, v.len());
            assert(rest@ =~= v@.skip(c + 1));
            let rv = chars_of(rest.as_str());
            let (x, y) = trim_bounds(&rv);
            let (p, q) = strip_bounds(&rv, x, y, "\"", "\"");
            proof {
                reveal_strlit("\"");
                assert("\""@ =~= seq!['"']);
            }
            if p == q {
                return None;
            }
            return Some(string_of_range(&rv, p, q));
        }
        k += 1;
    }
    None
}

/// `s` ends with `p`.
pub open spec fn ends_text(s: Seq<char>, p: Seq<char>) -> bool {
    p.len() <= s.len() && s.subrange(s.len() - p.len(), s.len() as int) == p
}

/// The architecture named in download file names: `arm64` or `x64`.
pub open spec fn arch_label(is_arm: bool) -> Seq<char> {
    if is_arm {
        "arm64"@
    } else {
        "x64"@
    }
}

/// Whether the machine is Apple Silicon, from `uname -m`.
pub fn is_arm_machine(uname: &str) -> (r: bool)
    ensures
        r == (contains_text(trim(uname@), "arm"@) || contains_text(trim(uname@), "aarch"@)),
{
    let v = chars_of(uname);
    let (a, b) = trim_bounds(&v);
    let t = string_of_range(&v, a, b);
    let tv = string_chars(&t);
    contains_lit(&tv, "arm") || contains_lit(&tv, "aarch")
}

fn ends_with_chars(v: &Vec<char>, p: &Vec<char>) -> (r: bool)
    ensures
        r == ends_text(v@, p@),
{
    if p.len() > v.len() {
        return false;
    }
    let at = v.len() - p.len();
    let r = crate::text::chars_at(v, at, p);
    r
}

/// Rule `rule` for choosing a download, on a lower-cased file URL: for a
/// GitHub release, a disk image for this architecture, any disk image, a
/// `-<arch>-mac.zip`, a `-mac.zip`, a zip naming `mac`; for an
/// electron-updater manifest, a disk image for this architecture, any disk
/// image, a zip for this architecture, any zip.
pub open spec fn asset_rule(low: Seq<char>, arch: Seq<char>, github: bool, rule: int) -> bool {
    if rule == 0 {
        ends_text(low, ".dmg"@) && contains_text(low, arch)
    } else if rule == 1 {
        ends_text(low, ".dmg"@)
    } else if github {
        if rule == 2 {
            ends_text(low, "-"@ + arch + "-mac.zip"@)
        } else if rule == 3 {
            ends_text(low, "-mac.zip"@)
        } else {
            contains_text(low, "mac"@) && ends_text(low, ".zip"@)
        }
    } else if rule == 2 {
        contains_text(low, arch) && ends_text(low, ".zip"@)
    } else {
        ends_text(low, ".zip"@)
    }
}

/// The first of `lows` from `k` on that rule `rule` accepts.
pub open spec fn first_by_rule(lows: Seq<Seq<char>>, arch: Seq<char>, github: bool, rule: int, k: int) -> Option<int>
    decreases lows.len() - k,
{
    if k < 0 || k >= lows.len() {
        None
    } else if asset_rule(lows[k], arch, github, rule) {
        Some(k)
    } else {
        first_by_rule(lows, arch, github, rule, k + 1)
    }
}

/// The download chosen: by the first rule, from rule `rule` on, that some
/// file meets, the first file meeting it.
pub open spec fn pick_asset_from(lows: Seq<Seq<char>>, arch: Seq<char>, github: bool, rule: int) -> Option<int>
    decreases 5 - rule,
{
    if rule < 0 || rule >= (if github { 5int } else { 4int }) {
        None
    } else {
        match first_by_rule(lows, arch, github, rule, 0) {
            Some(i) => Some(i),
            None => pick_asset_from(lows, arch, github, rule + 1),
        }
    }
}

proof fn lemma_first_by_rule_in_range(lows: Seq<Seq<char>>, arch: Seq<char>, github: bool, rule: int, k: int)
    ensures
        first_by_rule(lows, arch, github, rule, k) matches Some(i) ==> 0 <= i < lows.len(),
    decreases lows.len() - k,
{
    if 0 <= k < lows.len() && !asset_rule(lows[k], arch, github, rule) {
        lemma_first_by_rule_in_range(lows, arch, github, rule, k + 1);
    }
}

/// The chosen download is one of the files.
proof fn lemma_pick_in_range(lows: Seq<Seq<char>>, arch: Seq<char>, github: bool, rule: int)
    ensures
        pick_asset_from(lows, arch, github, rule) matches Some(i) ==> 0 <= i < lows.len(),
    decreases 5 - rule,
{
    if 0 <= rule < (if github { 5int } else { 4int }) {
        lemma_first_by_rule_in_range(lows, arch, github, rule, 0);
        lemma_pick_in_range(lows, arch, github, rule + 1);
    }
}

/// The strings in lower case.
pub open spec fn lowered(v: Seq<Seq<char>>) -> Seq<Seq<char>> {
    v.map_values(|u: Seq<char>| lowercase(u))
}

/// Chooses the file to download among a release's file URLs.
pub fn pick_release_asset(urls: &Vec<String>, is_arm: bool, github: bool) -> (r: Option<String>)
    ensures
        match pick_asset_from(lowered(urls.deep_view()), arch_label(is_arm), github, 0) {
            Some(i) => r matches Some(u) && u@ == urls@[i]@,
            None => r is None,
        },
{
    let ghost lows = lowered(urls.deep_view());
    let mut low: Vec<Vec<char>> = Vec::new();
    let mut i: usize = 0;
    while i < urls.len()
        invariant
            lows == lowered(urls.deep_view()),
            i <= urls@.len(),
            low@.len() == i,
            forall|k: int| 0 <= k < i ==> #[trigger] low@[k]@ == lows[k],
        decreases urls@.len() - i,
    {
        let l = to_lowercase(urls[i].as_str());
        low.push(string_chars(&l));
        i += 1;
    }
    let label = if is_arm { "arm64" } else { "x64" };
    assert(label@ == arch_label(is_arm));
    let arch = chars_of(label);
    let dmg = chars_of(".dmg");
    let zip = chars_of(".zip");
    let macz = chars_of("-mac.zip");
    let mut arch_mac = String::new();
    push_char(&mut arch_mac, '-');
    push_str(&mut arch_mac, label);
    push_str(&mut arch_mac, "-mac.zip");
    let amz = string_chars(&arch_mac);
    proof {
        reveal_strlit("-");
    }
    assert(amz@ =~= "-"@ + arch_label(is_arm) + "-mac.zip"@);
    let nrules: usize = if github { 5 } else { 4 };
    let mut rule: usize = 0;
    while rule < nrules
        invariant
            lows == lowered(urls.deep_view()),
            low@.len() == urls@.len(),
            forall|k: int| 0 <= k < low@.len() ==> #[trigger] low@[k]@ == lows[k],
            arch@ == arch_label(is_arm),
            dmg@ == ".dmg"@,
            zip@ == ".zip"@,
            macz@ == "-mac.zip"@,
            amz@ == "-"@ + arch_label(is_arm) + "-mac.zip"@,
            nrules == (if github { 5usize } else { 4usize }),
            rule <= nrules,
            pick_asset_from(lows, arch@, github, 0) == pick_asset_from(lows, arch@, github, rule as int),
        decreases nrules - rule,
    {
        let mut k: usize = 0;
        while k < low.len()
            invariant
                lows == lowered(urls.deep_view()),
                low@.len() == urls@.len(),
                forall|j: int| 0 <= j < low@.len() ==> #[trigger] low@[j]@ == lows[j],
                lows.len() == urls@.len(),
                arch@ == arch_label(is_arm),
                dmg@ == ".dmg"@,
                zip@ == ".zip"@,
                macz@ == "-mac.zip"@,
                amz@ == "-"@ + arch_label(is_arm) + "-mac.zip"@,
                rule < nrules,
                nrules == (if github { 5usize } else { 4usize }),
                k <= low@.len(),
                first_by_rule(lows, arch@, github, rule as int, 0) == first_by_rule(lows, arch@, github, rule as int, k as int),
                pick_asset_from(lows, arch@, github, 0) == pick_asset_from(lows, arch@, github, rule as int),
            decreases low@.len() - k,
        {
            let l = &low[k];
            let ok = if rule == 0 {
                ends_with_chars(l, &dmg) && contains_chars(l, &arch)
            } else if rule == 1 {
                ends_with_chars(l, &dmg)
            } else if github {
                if rule == 2 {
                    ends_with_chars(l, &amz)
                } else if rule == 3 {
                    ends_with_chars(l, &macz)
                } else {
                    contains_lit(l, "mac") && ends_with_chars(l, &zip)
                }
            } else if rule == 2 {
                contains_chars(l, &arch) && ends_with_chars(l, &zip)
            } else {
                ends_with_chars(l, &zip)
            };
            assert(ok == asset_rule(lows[k as int], arch@, github, rule as int));
            if ok {
                assert(first_by_rule(lows, arch@, github, rule as int, k as int) == Some(k as int));
                assert(pick_asset_from(lows, arch@, github, rule as int) == Some(k as int));
                let u = urls[k].clone();
                assert(u@ == urls@[k as int]@);
                return Some(u);
            }
            k += 1;
        }
        rule += 1;
    }
    None
}

fn contains_chars(v: &Vec<char>, p: &Vec<char>) -> (r: bool)
    ensures
        r == contains_text(v@, p@),
{
    assert(v@.subrange(0, v@.len() as int) =~= v@);
    find_chars(v, 0, v.len(), p).is_some()
}

/// The file URLs listed in an electron-updater manifest (`- url: …` lines),
/// from line `k` on.
pub open spec fn manifest_urls_from(ls: Seq<Seq<char>>, k: int) -> Seq<Seq<char>>
    decreases ls.len() - k,
{
    if k < 0 || k >= ls.len() {
        seq![]
    } else {
        let t = trim(ls[k]);
        if has_prefix(t, "- url:"@) {
            let v = strip_trailing(strip_leading(trim(strip_leading(t, "- url:"@)), seq!['"']), seq!['"']);
            if v.len() > 0 {
                seq![v] + manifest_urls_from(ls, k + 1)
            } else {
                manifest_urls_from(ls, k + 1)
            }
        } else {
            manifest_urls_from(ls, k + 1)
        }
    }
}

/// The file URLs an electron-updater manifest lists.
pub fn manifest_file_urls(manifest: &str) -> (r: Vec<String>)
    ensures
        r.deep_view() == manifest_urls_from(lines_spec(manifest@), 0),
{
    let ls = lines_of(manifest);
    let ghost lv = ls.deep_view();
    let mut out: Vec<String> = Vec::new();
    let mut k: usize = 0;
    proof {
        reveal_strlit("- url:");
        reveal_strlit("\"");
        assert("\""@ =~= seq!['"']);
    }
    while k < ls.len()
        invariant
            lv == ls.deep_view(),
            lv == lines_spec(manifest@),
            k <= lv.len(),
            "\""@ == seq!['"'],
            out.deep_view() + manifest_urls_from(lv, k as int) == manifest_urls_from(lv, 0),
        decreases lv.len() - k,
    {
        let v = chars_of(ls[k].as_str());
        assert(v@ == lv[k as int]);
        let (a, b) = trim_bounds(&v);
        let t = string_of_range(&v, a, b);
        let tv = string_chars(&t);
        if has_at(&tv, 0, "- url:") {
            assert(has_prefix(tv@, "- url:"@));
            let (p, q) = strip_bounds(&tv, 0, tv.len(), "- url:", "");
            proof {
                assert(tv@.subrange(0, tv@.len() as int) =~= tv@);
                lemma_strip_trailing_empty(strip_leading(tv@, "- url:"@));
            }
            let rest = string_of_range(&tv, p, q);
            let rv = string_chars(&rest);
            let (x, y) = trim_bounds(&rv);
            let (c, d) = strip_bounds(&rv, x, y, "\"", "\"");
            if c < d {
                let url = string_of_range(&rv, c, d);
                let ghost before = out.deep_view();
                out.push(url);
                assert(out.deep_view() =~= before.push(url@));
                assert(before.push(url@) + manifest_urls_from(lv, k + 1) =~= before + (seq![url@] + manifest_urls_from(lv, k + 1)));
            }
        } else {
            assert(!has_prefix(tv@, "- url:"@));
        }
        k += 1;
    }
    assert(out.deep_view() + Seq::<Seq<char>>::empty() =~= out.deep_view());
    out
}

proof fn lemma_strip_trailing_empty(s: Seq<char>)
    ensures
        strip_trailing(s, ""@) == s,
{
    reveal_strlit("");
    assert(""@.len() == 0);
}

/// Where to download a manifest's file: its URL when absolute, else the
/// file name under the update server's base URL (trailing `/` removed).
pub open spec fn manifest_download_url(base_url: Seq<char>, pick: Seq<char>) -> Seq<char> {
    if has_prefix(pick, "http"@) {
        pick
    } else {
        strip_trailing(base_url, "/"@) + "/"@ + pick
    }
}

/// Where to download a manifest's file.
pub fn manifest_download(base_url: &str, pick: &str) -> (r: String)
    ensures
        r@ == manifest_download_url(base_url@, pick@),
{
    let pv = chars_of(pick);
    let mut r = String::new();
    if has_at(&pv, 0, "http") {
        push_str(&mut r, pick);
        assert(r@ =~= pick@);
        return r;
    }
    let bv = chars_of(base_url);
    let (a, b) = strip_bounds(&bv, 0, bv.len(), "", "/");
    proof {
        assert(bv@.subrange(0, bv@.len() as int) =~= bv@);
        lemma_strip_leading_empty(bv@);
    }
    let base = string_of_range(&bv, a, b);
    push_str(&mut r, base.as_str());
    push_str(&mut r, "/");
    push_str(&mut r, pick);
    r
}

proof fn lemma_strip_leading_empty(s: Seq<char>)
    ensures
        strip_leading(s, ""@) == s,
{
    reveal_strlit("");
    assert(""@.len() == 0);
}

/// The version a GitHub release's tag names: the tag without leading `v`s.
pub fn tag_version(tag: &str) -> (r: String)
    ensures
        r@ == strip_leading(tag@, "v"@),
{
    let v = chars_of(tag);
    let (a, b) = strip_bounds(&v, 0, v.len(), "v", "");
    proof {
        assert(v@.subrange(0, v@.len() as int) =~= v@);
        lemma_strip_trailing_empty(strip_leading(v@, "v"@));
    }
    string_of_range(&v, a, b)
}


// ── Where updates are announced ─────────────────────────────────────────────

/// The feed an application's updates are announced in: its `SUFeedURL` when
/// that is an HTTP(S) address; else, for an application that bundles the
/// DevMate framework and has a bundle identifier, DevMate's feed for it.
pub open spec fn feed_location(
    feed_url: Option<Seq<char>>,
    has_devmate: bool,
    bundle_id: Option<Seq<char>>,
) -> Option<Seq<char>> {
    match feed_url {
        Some(u) if has_prefix(u, "http"@) => Some(u),
        _ => if has_devmate {
            match bundle_id {
                Some(b) => Some("https://updates.devmate.com/"@ + b + ".xml"@),
                None => None,
            }
        } else {
            None
        },
    }
}

/// The feed an application's updates are announced in, if any.
pub fn update_feed(feed_url: Option<&str>, has_devmate: bool, bundle_id: Option<&str>) -> (r: Option<String>)
    ensures
        match feed_location(
            match feed_url {
                Some(u) => Some(u@),
                None => None,
            },
            has_devmate,
            match bundle_id {
                Some(b) => Some(b@),
                None => None,
            },
        ) {
            Some(f) => r matches Some(x) && x@ == f,
            None => r is None,
        },
{
    if let Some(u) = feed_url {
        if starts_with_str(u, "http") {
            let mut r = String::new();
            push_str(&mut r, u);
            return Some(r);
        }
    }
    if !has_devmate {
        return None;
    }
    match bundle_id {
        Some(b) => {
            let mut r = String::new();
            push_str(&mut r, "https://updates.devmate.com/");
            push_str(&mut r, b);
            push_str(&mut r, ".xml");
            Some(r)
        },
        None => None,
    }
}

/// Where an electron-updater application looks for its updates.
pub enum ElectronSource {
    /// The latest release of a GitHub repository, read through GitHub's API.
    GitHub { api_url: String },
    /// A server that publishes `latest-mac.yml` under `base_url`.
    Generic { base_url: String, manifest_url: String },
}

/// An electron-updater source as `(is GitHub, first URL, second URL)`: the
/// API address for GitHub (and an empty second URL), the base and manifest
/// addresses for a generic server.
pub open spec fn source_view(s: ElectronSource) -> (bool, Seq<char>, Seq<char>) {
    match s {
        ElectronSource::GitHub { api_url } => (true, api_url@, seq![]),
        ElectronSource::Generic { base_url, manifest_url } => (false, base_url@, manifest_url@),
    }
}

/// Where an electron-updater application looks for its updates, read from
/// its `app-update.yml`: for the `github` provider, the latest release of
/// `owner`/`repo`; for the `generic` provider, `latest-mac.yml` under `url`
/// (trailing slashes removed). Another provider, or a missing key, gives
/// nothing.
pub open spec fn electron_source_of(yml: Seq<char>) -> Option<(bool, Seq<char>, Seq<char>)> {
    match yml_value_of(yml, "provider"@) {
        None => None,
        Some(p) => if p == "github"@ {
            match (yml_value_of(yml, "owner"@), yml_value_of(yml, "repo"@)) {
                (Some(o), Some(r)) => Some(
                    (true, "https://api.github.com/repos/"@ + o + "/"@ + r + "/releases/latest"@, seq![]),
                ),
                _ => None,
            }
        } else if p == "generic"@ {
            match yml_value_of(yml, "url"@) {
                Some(u) => Some(
                    (false, strip_trailing(u, "/"@), strip_trailing(u, "/"@) + "/latest-mac.yml"@),
                ),
                None => None,
            }
        } else {
            None
        },
    }
}

/// `base` without its trailing slashes.
fn without_trailing_slashes(base: &str) -> (r: String)
    ensures
        r@ == strip_trailing(base@, "/"@),
{
    let v = chars_of(base);
    let (a, b) = strip_bounds(&v, 0, v.len(), "", "/");
    proof {
        assert(v@.subrange(0, v@.len() as int) =~= v@);
        lemma_strip_leading_empty(v@);
    }
    string_of_range(&v, a, b)
}

/// Where an electron-updater application looks for its updates.
pub fn electron_source(yml: &str) -> (r: Option<ElectronSource>)
    ensures
        match electron_source_of(yml@) {
            Some(v) => r matches Some(s) && source_view(s) == v,
            None => r is None,
        },
{
    let provider = match yml_value(yml, "provider") {
        Some(p) => p,
        None => return None,
    };
    if str_eq(provider.as_str(), "github") {
        let owner = yml_value(yml, "owner");
        let repo = yml_value(yml, "repo");
        match (owner, repo) {
            (Some(o), Some(r)) => {
                let mut api_url = String::new();
                push_str(&mut api_url, "https://api.github.com/repos/");
                push_str(&mut api_url, o.as_str());
                push_str(&mut api_url, "/");
                push_str(&mut api_url, r.as_str());
                push_str(&mut api_url, "/releases/latest");
                Some(ElectronSource::GitHub { api_url })
            },
            _ => None,
        }
    } else if str_eq(provider.as_str(), "generic") {
        match yml_value(yml, "url") {
            Some(u) => {
                let base_url = without_trailing_slashes(u.as_str());
                let mut manifest_url = String::new();
                push_str(&mut manifest_url, base_url.as_str());
                push_str(&mut manifest_url, "/latest-mac.yml");
                Some(ElectronSource::Generic { base_url, manifest_url })
            },
            None => None,
        }
    } else {
        None
    }
}


// ── Is the download the same application? ───────────────────────────────────

/// The signing identity `codesign -d --verbose=4` reports: its identifier
/// and its team; a signature without a team (ad hoc) is refused.
pub open spec fn signing_identity_of(details: Seq<char>) -> Result<(Seq<char>, Seq<char>), Seq<char>> {
    match signing_value(details, "Identifier="@) {
        None => Err("Identifiant de signature absent"@),
        Some(i) => match signing_value(details, "TeamIdentifier="@) {
            None => Err("Team ID absent : application signée ad hoc refusée"@),
            Some(t) => Ok((i, t)),
        },
    }
}

/// The signing identity in `codesign -d --verbose=4` output.
pub fn signing_identity(details: &str) -> (r: Result<(String, String), String>)
    ensures
        match signing_identity_of(details@) {
            Ok((i, t)) => r matches Ok((a, b)) && a@ == i && b@ == t,
            Err(e) => r matches Err(m) && m@ == e,
        },
{
    let identifier = match signing_field(details, "Identifier=") {
        Some(i) => i,
        None => {
            let mut m = String::new();
            push_str(&mut m, "Identifiant de signature absent");
            return Err(m);
        },
    };
    match signing_field(details, "TeamIdentifier=") {
        Some(t) => Ok((identifier, t)),
        None => {
            let mut m = String::new();
            push_str(&mut m, "Team ID absent : application signée ad hoc refusée");
            Err(m)
        },
    }
}

/// Whether a downloaded bundle may replace an installed application, as far
/// as their names and bundle identifiers tell: the download is an `.app`
/// bundle and both carry the same bundle identifier.
pub open spec fn replacement_outcome(
    replacement: Seq<char>,
    current_bundle: Option<Seq<char>>,
    replacement_bundle: Option<Seq<char>>,
) -> Result<(), Seq<char>> {
    if path_extension(path_comps(replacement)) != Some("app"@) {
        Err("Le téléchargement ne contient pas une application macOS"@)
    } else {
        match current_bundle {
            None => Err("Bundle ID de l'application installée absent"@),
            Some(c) => match replacement_bundle {
                None => Err("Bundle ID de la mise à jour absent"@),
                Some(r) => if c != r {
                    Err("Bundle ID différent : "@ + c + " → "@ + r)
                } else {
                    Ok(())
                },
            },
        }
    }
}

/// Checks that the bundle at `replacement` may replace the installed
/// application, from the bundle identifiers read in their `Info.plist`.
pub fn check_replacement(replacement: &str, current_bundle: Option<&str>, replacement_bundle: Option<&str>) -> (r: Result<(), String>)
    ensures
        match replacement_outcome(
            replacement@,
            match current_bundle {
                Some(c) => Some(c@),
                None => None,
            },
            match replacement_bundle {
                Some(b) => Some(b@),
                None => None,
            },
        ) {
            Ok(()) => r is Ok,
            Err(e) => r matches Err(m) && m@ == e,
        },
{
    let mut m = String::new();
    if !has_extension(replacement, "app") {
        push_str(&mut m, "Le téléchargement ne contient pas une application macOS");
        return Err(m);
    }
    let c = match current_bundle {
        Some(c) => c,
        None => {
            push_str(&mut m, "Bundle ID de l'application installée absent");
            return Err(m);
        },
    };
    let b = match replacement_bundle {
        Some(b) => b,
        None => {
            push_str(&mut m, "Bundle ID de la mise à jour absent");
            return Err(m);
        },
    };
    if !str_eq(c, b) {
        push_str(&mut m, "Bundle ID différent : ");
        push_str(&mut m, c);
        push_str(&mut m, " → ");
        push_str(&mut m, b);
        return Err(m);
    }
    Ok(())
}

/// Whether two signing identities (identifier, team) are the same.
pub fn same_signer(current: &(String, String), replacement: &(String, String)) -> (r: Result<(), String>)
    ensures
        r is Ok <==> (current.0@ == replacement.0@ && current.1@ == replacement.1@),
        r matches Err(m) ==> m@ == "La signature de la mise à jour ne correspond pas à l'application installée"@,
{
    if str_eq(current.0.as_str(), replacement.0.as_str()) && str_eq(current.1.as_str(), replacement.1.as_str()) {
        Ok(())
    } else {
        let mut m = String::new();
        push_str(&mut m, "La signature de la mise à jour ne correspond pas à l'application installée");
        Err(m)
    }
}


// ── GitHub releases ─────────────────────────────────────────────────────────

/// The download URLs of a release's assets (`browser_download_url`), in
/// order; an asset without one is skipped.
pub open spec fn asset_urls(a: Seq<JsonValue>) -> Seq<Seq<char>>
    decreases a.len(),
{
    if a.len() == 0 {
        seq![]
    } else {
        let rest = asset_urls(a.drop_last());
        match text(field(a.last(), "browser_download_url"@)) {
            Some(u) => rest.push(u),
            None => rest,
        }
    }
}

/// What a GitHub "latest release" reply offers over the installed version
/// `current`: the tag without its leading `v`, when that is newer; the asset
/// chosen for the machine's architecture; and the release notes, trimmed.
/// Nothing when the tag, the newer version, the assets or a fitting asset
/// is missing.
pub open spec fn github_update_of(doc: JsonValue, current: Seq<char>, is_arm: bool) -> Option<
    (Seq<char>, Seq<char>, Seq<char>),
> {
    match text(field(doc, "tag_name"@)) {
        None => None,
        Some(tag) => {
            let latest = strip_leading(tag, "v"@);
            if !newer_version(latest, current) {
                None
            } else {
                match items(field(doc, "assets"@)) {
                    None => None,
                    Some(a) => match pick_asset_from(lowered(asset_urls(a)), arch_label(is_arm), true, 0) {
                        None => None,
                        Some(i) => Some((latest, asset_urls(a)[i], trim(or_blank(text(field(doc, "body"@)))))),
                    },
                }
            }
        },
    }
}

fn collect_asset_urls(a: &Vec<JsonValue>) -> (r: Vec<String>)
    ensures
        r.deep_view() == asset_urls(a@),
{
    let mut out: Vec<String> = Vec::new();
    let mut i: usize = 0;
    assert(a@.take(0) =~= Seq::<JsonValue>::empty());
    while i < a.len()
        invariant
            i <= a@.len(),
            out.deep_view() =~= asset_urls(a@.take(i as int)),
        decreases a.len() - i,
    {
        assert(a@.take(i + 1).drop_last() =~= a@.take(i as int));
        assert(a@.take(i + 1).last() == a@[i as int]);
        if let Some(u) = as_text(get(&a[i], "browser_download_url")) {
            let ghost before = out.deep_view();
            let mut x = String::new();
            push_str(&mut x, u);
            out.push(x);
            assert(out.deep_view() =~= before.push(u@));
        }
        i += 1;
    }
    assert(a@.take(i as int) =~= a@);
    out
}

/// What a GitHub "latest release" reply offers: `(version, download URL,
/// release notes)`.
pub fn github_release_update(doc: &JsonValue, current: &str, is_arm: bool) -> (r: Option<(String, String, String)>)
    ensures
        match github_update_of(*doc, current@, is_arm) {
            Some((v, u, n)) => r matches Some((a, b, c)) && a@ == v && b@ == u && c@ == n,
            None => r is None,
        },
{
    let tag = match as_text(get(doc, "tag_name")) {
        Some(t) => t,
        None => return None,
    };
    let latest = tag_version(tag);
    if !version_gt(latest.as_str(), current) {
        return None;
    }
    let assets = match as_items(get(doc, "assets")) {
        Some(a) => a,
        None => return None,
    };
    let urls = collect_asset_urls(assets);
    let url = match pick_release_asset(&urls, is_arm, true) {
        Some(u) => u,
        None => return None,
    };
    proof {
        let i = pick_asset_from(lowered(urls.deep_view()), arch_label(is_arm), true, 0);
        lemma_pick_in_range(lowered(urls.deep_view()), arch_label(is_arm), true, 0);
        if let Some(k) = i {
            assert(urls.deep_view()[k] == urls@[k]@);
        }
    }
    proof {
        reveal_strlit("");
    }
    let body = match as_text(get(doc, "body")) {
        Some(b) => b,
        None => "",
    };
    assert(body@ == or_blank(text(field(*doc, "body"@))));
    let bv = chars_of(body);
    let (x, y) = trim_bounds(&bv);
    let notes = string_of_range(&bv, x, y);
    Some((latest, url, notes))
}


// ── Properties of version comparison ──────────────────────────────────────

/// No version is newer than itself.
pub proof fn law_version_irreflexive(a: Seq<char>)
    ensures
        !newer_version(a, a),
{
    lemma_parts_irreflexive(version_parts(a), 0);
}

proof fn lemma_parts_irreflexive(v: Seq<int>, i: int)
    requires
        i >= 0,
    ensures
        !parts_gt_from(v, v, i),
    decreases v.len() + v.len() - i,
{
    if i < v.len() {
        lemma_parts_irreflexive(v, i + 1);
    }
}

/// Of two versions, at most one is newer than the other.
pub proof fn law_version_asymmetric(a: Seq<char>, b: Seq<char>)
    ensures
        newer_version(a, b) ==> !newer_version(b, a),
{
    lemma_parts_asymmetric(version_parts(a), version_parts(b), 0);
}

proof fn lemma_parts_asymmetric(va: Seq<int>, vb: Seq<int>, i: int)
    requires
        i >= 0,
    ensures
        parts_gt_from(va, vb, i) ==> !parts_gt_from(vb, va, i),
    decreases va.len() + vb.len() - i,
{
    if i < va.len() || i < vb.len() {
        lemma_parts_asymmetric(va, vb, i + 1);
    }
}

/// Being newer is transitive.
pub proof fn law_version_transitive(a: Seq<char>, b: Seq<char>, c: Seq<char>)
    ensures
        newer_version(a, b) && newer_version(b, c) ==> newer_version(a, c),
{
    lemma_parts_transitive(version_parts(a), version_parts(b), version_parts(c), 0);
}

proof fn lemma_parts_transitive(va: Seq<int>, vb: Seq<int>, vc: Seq<int>, i: int)
    requires
        i >= 0,
    ensures
        parts_gt_from(va, vb, i) && parts_gt_from(vb, vc, i) ==> parts_gt_from(va, vc, i),
    decreases va.len() + vb.len() + vc.len() - i,
{
    if i < va.len() || i < vb.len() || i < vc.len() {
        lemma_parts_transitive(va, vb, vc, i + 1);
    }
}

// ── Authorising an update ───────────────────────────────────────────────────

/// What checking an update request against the update found again for the
/// installed application gives.
pub open spec fn sparkle_authorisation(
    found: Option<(Seq<char>, Seq<char>, Seq<char>)>,
    name: Seq<char>,
    download_url: Seq<char>,
    canonical: Seq<char>,
) -> Result<(), Seq<char>> {
    match found {
        None => Err("Mise à jour non confirmée par la source backend"@),
        Some((n, u, p)) => if n != name || u != download_url || crate::paths::path_comps(p)
            != crate::paths::path_comps(canonical) {
            Err("La demande de mise à jour ne correspond pas au catalogue backend"@)
        } else {
            Ok(())
        },
    }
}

/// Checks that an update request (application name, download URL) is the
/// update found again, from its own source, for the installed application
/// at `canonical`.
pub fn authorize_sparkle_match(found: Option<SparkleUpdate>, name: &str, download_url: &str, canonical: &str) -> (r: Result<
    (),
    String,
>)
    ensures
        match r {
            Ok(()) => sparkle_authorisation(
                match found {
                    Some(u) => Some((u.name@, u.download_url@, u.path@)),
                    None => None,
                },
                name@,
                download_url@,
                canonical@,
            ) is Ok,
            Err(m) => sparkle_authorisation(
                match found {
                    Some(u) => Some((u.name@, u.download_url@, u.path@)),
                    None => None,
                },
                name@,
                download_url@,
                canonical@,
            ) == Err::<(), Seq<char>>(m@),
        },
{
    match found {
        None => {
            let mut m = String::new();
            push_str(&mut m, "Mise à jour non confirmée par la source backend");
            Err(m)
        },
        Some(u) => {
            let p = crate::paths::PathParts::parse(u.path.as_str());
            let c = crate::paths::PathParts::parse(canonical);
            if !crate::text::str_eq(u.name.as_str(), name) || !crate::text::str_eq(u.download_url.as_str(), download_url)
                || !p.equals_parts(&c) {
                let mut m = String::new();
                push_str(&mut m, "La demande de mise à jour ne correspond pas au catalogue backend");
                Err(m)
            } else {
                Ok(())
            }
        },
    }
}

/// Law: when the installed application and the appcast both give a short
/// version, an update is offered exactly when the appcast's short version is
/// newer than the installed one, and it goes from the one to the other.
pub proof fn law_sparkle_short_versions_decide(
    installed_short: Seq<char>,
    installed_build: Seq<char>,
    feed_short: Seq<char>,
    feed_build: Seq<char>,
)
    requires
        installed_short.len() > 0,
        feed_short.len() > 0,
    ensures
        sparkle_versions(installed_short, installed_build, feed_short, feed_build) is Some <==> newer_version(
            feed_short,
            installed_short,
        ),
        sparkle_versions(installed_short, installed_build, feed_short, feed_build) is Some ==> sparkle_versions(
            installed_short,
            installed_build,
            feed_short,
            feed_build,
        ) == Some((installed_short, feed_short)),
{
}

/// Law: when a short version is missing on either side but both give a
/// build number, an update is offered exactly when the appcast's build
/// number is newer than the installed one.
pub proof fn law_sparkle_builds_decide(
    installed_short: Seq<char>,
    installed_build: Seq<char>,
    feed_short: Seq<char>,
    feed_build: Seq<char>,
)
    requires
        installed_short.len() == 0 || feed_short.len() == 0,
        installed_build.len() > 0,
        feed_build.len() > 0,
    ensures
        sparkle_versions(installed_short, installed_build, feed_short, feed_build) is Some <==> newer_version(
            feed_build,
            installed_build,
        ),
{
}

/// Law: an appcast that announces exactly the installed versions never
/// offers an update.
pub proof fn law_sparkle_same_version_no_update(short: Seq<char>, build: Seq<char>)
    ensures
        sparkle_versions(short, build, short, build) is None,
{
    law_version_irreflexive(short);
    law_version_irreflexive(build);
}

/// From component `i` on, `va` is the larger exactly when at some component
/// `k`, all before it from `i` on being equal, `va`'s is larger.
proof fn lemma_parts_gt_first_difference(va: Seq<int>, vb: Seq<int>, i: int)
    requires
        0 <= i,
    ensures
        parts_gt_from(va, vb, i) <==> exists|k: int|
            i <= k && (forall|j: int| i <= j < k ==> part_at(va, j) == part_at(vb, j)) && #[trigger] part_at(va, k)
                > part_at(vb, k),
    decreases va.len() + vb.len() - i,
{
    if i >= va.len() && i >= vb.len() {
        if exists|k: int|
            i <= k && (forall|j: int| i <= j < k ==> part_at(va, j) == part_at(vb, j)) && #[trigger] part_at(va, k)
                > part_at(vb, k) {
            let k = choose|k: int|
                i <= k && (forall|j: int| i <= j < k ==> part_at(va, j) == part_at(vb, j)) && #[trigger] part_at(
                    va,
                    k,
                ) > part_at(vb, k);
            assert(part_at(va, k) == 0 && part_at(vb, k) == 0);
        }
    } else if part_at(va, i) > part_at(vb, i) {
        assert(part_at(va, i) > part_at(vb, i));
    } else if part_at(va, i) < part_at(vb, i) {
        if exists|k: int|
            i <= k && (forall|j: int| i <= j < k ==> part_at(va, j) == part_at(vb, j)) && #[trigger] part_at(va, k)
                > part_at(vb, k) {
            let k = choose|k: int|
                i <= k && (forall|j: int| i <= j < k ==> part_at(va, j) == part_at(vb, j)) && #[trigger] part_at(
                    va,
                    k,
                ) > part_at(vb, k);
            if k > i {
                assert(part_at(va, i) == part_at(vb, i));
            }
        }
    } else {
        lemma_parts_gt_first_difference(va, vb, i + 1);
        if parts_gt_from(va, vb, i + 1) {
            let k = choose|k: int|
                i + 1 <= k && (forall|j: int| i + 1 <= j < k ==> part_at(va, j) == part_at(vb, j)) && #[trigger] part_at(
                    va,
                    k,
                ) > part_at(vb, k);
            assert(forall|j: int| i <= j < k ==> part_at(va, j) == part_at(vb, j));
        }
        if exists|k: int|
            i <= k && (forall|j: int| i <= j < k ==> part_at(va, j) == part_at(vb, j)) && #[trigger] part_at(va, k)
                > part_at(vb, k) {
            let k = choose|k: int|
                i <= k && (forall|j: int| i <= j < k ==> part_at(va, j) == part_at(vb, j)) && #[trigger] part_at(
                    va,
                    k,
                ) > part_at(vb, k);
            assert(k != i);
            assert(forall|j: int| i + 1 <= j < k ==> part_at(va, j) == part_at(vb, j));
        }
    }
}

/// Law: one version is newer than another exactly when, comparing their
/// numeric components in order (missing ones counting as 0), the first
/// component where they differ is larger in the first.
pub proof fn law_version_first_difference(a: Seq<char>, b: Seq<char>)
    ensures
        newer_version(a, b) <==> exists|k: int|
            0 <= k && (forall|j: int| 0 <= j < k ==> part_at(version_parts(a), j) == part_at(version_parts(b), j))
                && #[trigger] part_at(version_parts(a), k) > part_at(version_parts(b), k),
{
    lemma_parts_gt_first_difference(version_parts(a), version_parts(b), 0);
}

proof fn lemma_listing_clean_from(ls: Seq<Seq<char>>, k: int)
    requires
        0 <= k,
        listing_error_from(ls, k) is None,
    ensures
        forall|j: int| k <= j < ls.len() ==> #[trigger] entry_error(j, ls[j]) is None,
    decreases ls.len() - k,
{
    if k < ls.len() {
        lemma_listing_clean_from(ls, k + 1);
    }
}

/// Law: an archive listing is accepted only when it has between 1 and
/// 50,000 entries, each non-empty, at most 4096 bytes, relative, without a
/// `..` component, without a backslash or a control character, and neither
/// `.` nor starting with `./`.
pub proof fn law_archive_listing_accepted(listing: Seq<char>)
    ensures
        listing_outcome(listing) is Ok ==> {
            let ls = str_lines(listing);
            &&& 0 < ls.len() <= 50_000
            &&& forall|k: int|
                0 <= k < ls.len() ==> {
                    let e = #[trigger] ls[k];
                    &&& e.len() > 0
                    &&& byte_len(e) <= 4096
                    &&& !has_root(e)
                    &&& !normal_comps(e).contains(".."@)
                    &&& !e.contains('\\')
                    &&& (forall|i: int| 0 <= i < e.len() ==> !is_ctrl(#[trigger] e[i]))
                    &&& e != "."@
                    &&& !has_prefix(e, "./"@)
                }
        },
{
    let ls = str_lines(listing);
    if listing_outcome(listing) is Ok {
        lemma_listing_clean_from(ls, 0);
        if ls.len() > 50_000 {
            assert(entry_error(50_000, ls[50_000]) is Some);
        }
        assert forall|k: int| 0 <= k < ls.len() implies {
            let e = #[trigger] ls[k];
            &&& e.len() > 0
            &&& byte_len(e) <= 4096
            &&& !has_root(e)
            &&& !normal_comps(e).contains(".."@)
            &&& !e.contains('\\')
            &&& (forall|i: int| 0 <= i < e.len() ==> !is_ctrl(#[trigger] e[i]))
            &&& e != "."@
            &&& !has_prefix(e, "./"@)
        } by {
            assert(entry_error(k, ls[k]) is None);
        }
    }
}

proof fn lemma_first_by_rule_facts(lows: Seq<Seq<char>>, arch: Seq<char>, github: bool, rule: int, k: int)
    requires
        0 <= k,
    ensures
        match first_by_rule(lows, arch, github, rule, k) {
            Some(i) => k <= i < lows.len() && asset_rule(lows[i], arch, github, rule) && forall|j: int|
                k <= j < i ==> !asset_rule(#[trigger] lows[j], arch, github, rule),
            None => forall|j: int| k <= j < lows.len() ==> !asset_rule(#[trigger] lows[j], arch, github, rule),
        },
    decreases lows.len() - k,
{
    if k < lows.len() && !asset_rule(lows[k], arch, github, rule) {
        lemma_first_by_rule_facts(lows, arch, github, rule, k + 1);
    }
}

/// A name ending with `t + p` ends with `p`.
proof fn lemma_ends_text_suffix(s: Seq<char>, t: Seq<char>, p: Seq<char>)
    requires
        ends_text(s, t + p),
    ensures
        ends_text(s, p),
{
    let n = s.len();
    let q = t + p;
    let w = s.subrange(n - q.len(), n as int);
    assert(w == q);
    assert(s.subrange(n - p.len(), n as int) =~= w.subrange(t.len() as int, q.len() as int));
    assert(w.subrange(t.len() as int, q.len() as int) =~= p);
}

/// Every file a later rule accepts is a zip.
proof fn lemma_late_rules_zip(low: Seq<char>, arch: Seq<char>, github: bool, rule: int)
    requires
        rule >= 2,
        asset_rule(low, arch, github, rule),
    ensures
        ends_text(low, ".zip"@),
{
    reveal_strlit("-mac.zip");
    reveal_strlit(".zip");
    reveal_strlit("-");
    let mac_zip = "-mac.zip"@;
    assert(mac_zip =~= "-mac"@ + ".zip"@) by {
        reveal_strlit("-mac");
    }
    if github && rule == 2 {
        assert("-"@ + arch + "-mac.zip"@ =~= ("-"@ + arch + "-mac"@) + ".zip"@) by {
            reveal_strlit("-mac");
        }
        lemma_ends_text_suffix(low, "-"@ + arch + "-mac"@, ".zip"@);
    } else if github && rule == 3 {
        lemma_ends_text_suffix(low, "-mac"@, ".zip"@);
    }
}

/// The download chosen from rule `rule` on is a disk image or a zip.
proof fn lemma_pick_kind(lows: Seq<Seq<char>>, arch: Seq<char>, github: bool, rule: int)
    requires
        0 <= rule,
    ensures
        pick_asset_from(lows, arch, github, rule) matches Some(i) ==> 0 <= i < lows.len() && (ends_text(
            lows[i],
            ".dmg"@,
        ) || ends_text(lows[i], ".zip"@)),
    decreases 5 - rule,
{
    if rule < (if github { 5int } else { 4int }) {
        lemma_first_by_rule_facts(lows, arch, github, rule, 0);
        match first_by_rule(lows, arch, github, rule, 0) {
            Some(i) => {
                if rule >= 2 {
                    lemma_late_rules_zip(lows[i], arch, github, rule);
                }
            },
            None => {
                lemma_pick_kind(lows, arch, github, rule + 1);
            },
        }
    }
}

/// Law: the download chosen among a release's files is a disk image or a
/// zip; when some file is a disk image for this machine's architecture, the
/// first such is chosen; otherwise, when some file is a disk image, the
/// first disk image is chosen.
pub proof fn law_pick_prefers_disk_images(lows: Seq<Seq<char>>, arch: Seq<char>, github: bool)
    ensures
        pick_asset_from(lows, arch, github, 0) matches Some(i) ==> 0 <= i < lows.len() && (ends_text(
            lows[i],
            ".dmg"@,
        ) || ends_text(lows[i], ".zip"@)),
        (exists|k: int| 0 <= k < lows.len() && ends_text(#[trigger] lows[k], ".dmg"@) && contains_text(lows[k], arch))
            ==> (pick_asset_from(lows, arch, github, 0) matches Some(i) && ends_text(lows[i], ".dmg"@) && contains_text(
            lows[i],
            arch,
        ) && forall|j: int| 0 <= j < i ==> !(ends_text(#[trigger] lows[j], ".dmg"@) && contains_text(lows[j], arch))),
        (forall|k: int| 0 <= k < lows.len() ==> !(ends_text(#[trigger] lows[k], ".dmg"@) && contains_text(lows[k], arch)))
            && (exists|k: int| 0 <= k < lows.len() && ends_text(#[trigger] lows[k], ".dmg"@)) ==> (pick_asset_from(
            lows,
            arch,
            github,
            0,
        ) matches Some(i) && ends_text(lows[i], ".dmg"@) && forall|j: int|
            0 <= j < i ==> !ends_text(#[trigger] lows[j], ".dmg"@)),
{
    lemma_pick_kind(lows, arch, github, 0);
    lemma_first_by_rule_facts(lows, arch, github, 0, 0);
    lemma_first_by_rule_facts(lows, arch, github, 1, 0);
    if exists|k: int| 0 <= k < lows.len() && ends_text(#[trigger] lows[k], ".dmg"@) && contains_text(lows[k], arch) {
        let k = choose|k: int| 0 <= k < lows.len() && ends_text(#[trigger] lows[k], ".dmg"@) && contains_text(lows[k], arch);
        assert(asset_rule(lows[k], arch, github, 0));
    }
    if exists|k: int| 0 <= k < lows.len() && ends_text(#[trigger] lows[k], ".dmg"@) {
        let k = choose|k: int| 0 <= k < lows.len() && ends_text(#[trigger] lows[k], ".dmg"@);
        assert(asset_rule(lows[k], arch, github, 1));
        if forall|k: int| 0 <= k < lows.len() ==> !(ends_text(#[trigger] lows[k], ".dmg"@) && contains_text(lows[k], arch)) {
            assert forall|j: int| 0 <= j < lows.len() implies !asset_rule(#[trigger] lows[j], arch, github, 0) by {
                assert(!(ends_text(lows[j], ".dmg"@) && contains_text(lows[j], arch)));
            }
            assert(first_by_rule(lows, arch, github, 0, 0) is None);
            assert(pick_asset_from(lows, arch, github, 0) == pick_asset_from(lows, arch, github, 1));
            assert(first_by_rule(lows, arch, github, 1, 0) is Some);
        }
    }
}

/// Law: a release tag's version is the tag with all its leading `v`s
/// removed: what is removed is only `v`s, what remains is the rest of the
/// tag and does not start with `v`.
pub proof fn law_tag_version_strips_v(tag: Seq<char>)
    ensures
        ({
            let r = strip_leading(tag, "v"@);
            let n = tag.len() - r.len();
            &&& 0 <= n
            &&& tag.subrange(n, tag.len() as int) == r
            &&& forall|i: int| 0 <= i < n ==> tag[i] == 'v'
            &&& r.len() > 0 ==> r[0] != 'v'
        }),
    decreases tag.len(),
{
    reveal_strlit("v");
    if 1 <= tag.len() && tag.subrange(0, 1) == "v"@ {
        let rest = tag.skip(1);
        law_tag_version_strips_v(rest);
        let r = strip_leading(rest, "v"@);
        assert(strip_leading(tag, "v"@) == r);
        let n = tag.len() - r.len();
        assert(tag.subrange(n, tag.len() as int) =~= rest.subrange(rest.len() - r.len(), rest.len() as int));
        assert(tag[0] == tag.subrange(0, 1)[0]);
        assert forall|i: int| 0 <= i < n implies tag[i] == 'v' by {
            if i > 0 {
                assert(tag[i] == rest[i - 1]);
            }
        }
    } else {
        assert(tag.subrange(0, tag.len() as int) =~= tag);
        if tag.len() > 0 && tag[0] == 'v' {
            assert(tag.subrange(0, 1) =~= "v"@);
        }
    }
}

/// Law: a GitHub release is offered only when its version (the tag without
/// leading `v`s) is newer than the installed one, and the installed version
/// is then not newer than it; the download offered is one of the release's
/// asset URLs and, lower-cased, a disk image or a zip.
pub proof fn law_github_update_is_newer(doc: JsonValue, current: Seq<char>, is_arm: bool)
    ensures
        github_update_of(doc, current, is_arm) matches Some((v, u, n)) ==> {
            &&& text(field(doc, "tag_name"@)) matches Some(tag) && v == strip_leading(tag, "v"@)
            &&& newer_version(v, current)
            &&& !newer_version(current, v)
            &&& items(field(doc, "assets"@)) matches Some(a) && asset_urls(a).contains(u)
            &&& ends_text(lowercase(u), ".dmg"@) || ends_text(lowercase(u), ".zip"@)
        },
{
    if github_update_of(doc, current, is_arm) is Some {
        let (v, u, n) = github_update_of(doc, current, is_arm)->0;
        law_version_asymmetric(v, current);
        let a = items(field(doc, "assets"@))->0;
        let lows = lowered(asset_urls(a));
        lemma_pick_kind(lows, arch_label(is_arm), true, 0);
        let i = pick_asset_from(lows, arch_label(is_arm), true, 0)->0;
        assert(lows[i] == lowercase(asset_urls(a)[i]));
        assert(asset_urls(a)[i] == u);
    }
}

/// Law: an update is authorised exactly when the backend found it for the
/// same application name, the same download URL and the same bundle path
/// (compared component by component).
pub proof fn law_sparkle_authorised_on_match(
    found: Option<(Seq<char>, Seq<char>, Seq<char>)>,
    name: Seq<char>,
    download_url: Seq<char>,
    canonical: Seq<char>,
)
    ensures
        sparkle_authorisation(found, name, download_url, canonical) is Ok <==> (match found {
            Some((n, u, p)) => n == name && u == download_url && path_comps(p) == path_comps(canonical),
            None => false,
        }),
{
}

/// Law: a replacement bundle is accepted exactly when it is a `.app`, the
/// installed application's bundle identifier is known, and the replacement
/// has that same identifier.
pub proof fn law_replacement_same_bundle(
    replacement: Seq<char>,
    current_bundle: Option<Seq<char>>,
    replacement_bundle: Option<Seq<char>>,
)
    ensures
        replacement_outcome(replacement, current_bundle, replacement_bundle) is Ok <==> (path_extension(
            path_comps(replacement),
        ) == Some("app"@) && current_bundle is Some && replacement_bundle == current_bundle),
{
}

} // verus!
