//! APFS facts read from `diskutil` and `tmutil`: the purgeable space of the
//! startup volume and the local Time Machine snapshots with their sizes.
use vstd::prelude::*;
use crate::browse::{reported_size, size_in_report};
use crate::text::{
    chars_of, contains_text, find_chars, find_seq, has_prefix, lemma_find_from, lines_of,
    parse_u64, parsed_u64, push_str, str_lines, string_chars, string_of_range, strip_bounds,
    strip_leading, strip_trailing, trim, trim_bounds, chars_at,
};

verus! {

// ── Purgeable space ─────────────────────────────────────────────────────────

/// Space on the startup volume.
pub struct PurgeableInfo {
    pub purgeable_bytes: u64,
    pub free_bytes: u64,
    pub total_bytes: u64,
}

/// The `<integer>` given for `key` in a property list printed by
/// `diskutil info -plist`, or 0.
pub open spec fn plist_integer(s: Seq<char>, key: Seq<char>) -> u64 {
    let needle = "<key>"@ + key + "</key>"@;
    match find_seq(s, needle) {
        None => 0,
        Some(i) => {
            let rest = s.subrange(i + needle.len(), s.len() as int);
            match find_seq(rest, "<integer>"@) {
                None => 0,
                Some(a) => {
                    let tail = rest.subrange(a + 9, rest.len() as int);
                    match find_seq(tail, "</integer>"@) {
                        None => 0,
                        Some(e) => match parsed_u64(trim(tail.subrange(0, e))) {
                            Some(n) => n,
                            None => 0,
                        },
                    }
                },
            }
        },
    }
}

/// The integer given for `key` in a property list.
pub fn plist_u64(s: &str, key: &str) -> (r: u64)
    ensures
        r == plist_integer(s@, key@),
{
    let v = chars_of(s);
    let n = v.len();
    let mut needle = String::new();
    push_str(&mut needle, "<key>");
    push_str(&mut needle, key);
    push_str(&mut needle, "</key>");
    let nv = string_chars(&needle);
    let open_pat = chars_of("<integer>");
    let close_pat = chars_of("</integer>");
    proof {
        reveal_strlit("<integer>");
    }
    assert(v@.subrange(0, n as int) =~= v@);
    proof {
        lemma_find_from(v@, nv@, 0);
    }
    let i = match find_chars(&v, 0, n, &nv) {
        Some(i) => i,
        None => return 0,
    };
    let from = i + nv.len();
    let ghost rest = v@.subrange(from as int, n as int);
    proof {
        lemma_find_from(rest, "<integer>"@, 0);
    }
    let a = match find_chars(&v, from, n, &open_pat) {
        Some(a) => a,
        None => return 0,
    };
    let start = a + 9;
    let ghost tail = rest.subrange((a - from) + 9, rest.len() as int);
    assert(tail =~= v@.subrange(start as int, n as int));
    proof {
        lemma_find_from(tail, "</integer>"@, 0);
    }
    let e = match find_chars(&v, start, n, &close_pat) {
        Some(e) => e,
        None => return 0,
    };
    assert(tail.subrange(0, e - start) =~= v@.subrange(start as int, e as int));
    let piece = string_of_range(&v, start, e);
    let w = string_chars(&piece);
    let (x, y) = trim_bounds(&w);
    let digits = string_of_range(&w, x, y);
    match parse_u64(digits.as_str()) {
        Some(k) => k,
        None => 0,
    }
}

/// What `diskutil info -plist /` says of the startup volume: its size, its
/// free space, and the free space of its container beyond that.
pub open spec fn purgeable_of(raw: Seq<char>) -> (u64, u64, u64) {
    let total = plist_integer(raw, "TotalSize"@);
    let free = plist_integer(raw, "VolumeAvailableSpace"@);
    let container = plist_integer(raw, "APFSContainerFree"@);
    (if container >= free { (container - free) as u64 } else { 0 }, free, total)
}

/// The startup volume's space, from `diskutil info -plist /`.
pub fn purgeable_info(raw: &str) -> (p: PurgeableInfo)
    ensures
        (p.purgeable_bytes, p.free_bytes, p.total_bytes) == purgeable_of(raw@),
{
    let total_bytes = plist_u64(raw, "TotalSize");
    let free_bytes = plist_u64(raw, "VolumeAvailableSpace");
    let container = plist_u64(raw, "APFSContainerFree");
    let purgeable_bytes = if container >= free_bytes {
        container - free_bytes
    } else {
        0
    };
    PurgeableInfo { purgeable_bytes, free_bytes, total_bytes }
}

// ── Local snapshots ─────────────────────────────────────────────────────────

/// A local Time Machine snapshot: its date (`2024-12-01-153022`) and size.
pub struct TmSnapshot {
    pub date: String,
    pub size_bytes: u64,
}

/// The date in a snapshot name: what follows `TimeMachine.`, without the
/// trailing `.local`.
pub open spec fn snapshot_date(l: Seq<char>) -> Option<Seq<char>> {
    match find_seq(l, "TimeMachine."@) {
        Some(i) => Some(strip_trailing(l.subrange(i + 12, l.len() as int), ".local"@)),
        None => None,
    }
}

/// The snapshot dates among the lines `ls` of `tmutil listlocalsnapshots`.
pub open spec fn snapshot_dates_of(ls: Seq<Seq<char>>) -> Seq<Seq<char>>
    decreases ls.len(),
{
    if ls.len() == 0 {
        seq![]
    } else {
        match snapshot_date(trim(ls.last())) {
            Some(d) => snapshot_dates_of(ls.drop_last()).push(d),
            None => snapshot_dates_of(ls.drop_last()),
        }
    }
}

fn date_in(v: &Vec<char>, a: usize, b: usize) -> (r: Option<String>)
    requires
        a <= b <= v@.len(),
    ensures
        match snapshot_date(v@.subrange(a as int, b as int)) {
            Some(d) => r is Some && r->0@ == d,
            None => r is None,
        },
{
    let pat = chars_of("TimeMachine.");
    proof {
        reveal_strlit("TimeMachine.");
        lemma_find_from(v@.subrange(a as int, b as int), "TimeMachine."@, 0);
    }
    match find_chars(v, a, b, &pat) {
        Some(i) => {
            let (x, y) = strip_bounds(v, i + 12, b, "", ".local");
            proof {
                reveal_strlit("");
                assert(strip_leading(v@.subrange(i + 12, b as int), ""@) == v@.subrange(i + 12, b as int));
                assert(v@.subrange(a as int, b as int).subrange(i - a + 12, b - a) =~= v@.subrange(
                    i + 12,
                    b as int,
                ));
            }
            Some(string_of_range(v, x, y))
        },
        None => None,
    }
}

/// The snapshot dates that `tmutil listlocalsnapshots /` lists.
pub fn snapshot_dates(list_output: &str) -> (r: Vec<String>)
    ensures
        r.deep_view() == snapshot_dates_of(str_lines(list_output@)),
{
    let lines = lines_of(list_output);
    let ghost ls = lines.deep_view();
    let mut out: Vec<String> = Vec::new();
    let mut i: usize = 0;
    while i < lines.len()
        invariant
            ls == lines.deep_view(),
            i <= ls.len(),
            out.deep_view() == snapshot_dates_of(ls.take(i as int)),
        decreases ls.len() - i,
    {
        assert(ls.take(i + 1).drop_last() =~= ls.take(i as int));
        assert(ls.take(i + 1).last() == ls[i as int]);
        let v = chars_of(lines[i].as_str());
        let (a, b) = trim_bounds(&v);
        match date_in(&v, a, b) {
            Some(d) => {
                let ghost before = out.deep_view();
                out.push(d);
                assert(out.deep_view() =~= before.push(out@[out@.len() - 1]@));
            },
            None => {},
        }
        i += 1;
    }
    assert(ls.take(i as int) =~= ls);
    out
}

/// Reading the sizes that `diskutil apfs listSnapshots / -plist` gives:
/// the sizes read so far and the snapshot whose size comes next.
pub open spec fn size_scan(ls: Seq<Seq<char>>) -> (Seq<(Seq<char>, u64)>, Seq<char>)
    decreases ls.len(),
{
    if ls.len() == 0 {
        (seq![], seq![])
    } else {
        let (sizes, name) = size_scan(ls.drop_last());
        let l = trim(ls.last());
        if has_prefix(l, "<string>"@) && contains_text(l, "TimeMachine."@) {
            let s = strip_trailing(strip_leading(l, "<string>"@), "</string>"@);
            match snapshot_date(s) {
                Some(d) => (sizes, d),
                None => (sizes, name),
            }
        } else if has_prefix(l, "<integer>"@) && name.len() > 0 {
            let n = match parsed_u64(strip_trailing(strip_leading(l, "<integer>"@), "</integer>"@)) {
                Some(n) => n,
                None => 0,
            };
            if n > 0 {
                (sizes.push((name, n)), seq![])
            } else {
                (sizes, name)
            }
        } else {
            (sizes, name)
        }
    }
}

/// The snapshot sizes, in the order `diskutil` gives them.
pub fn snapshot_sizes(plist_output: &str) -> (r: Vec<(String, u64)>)
    ensures
        r@.map_values(|e: (String, u64)| (e.0@, e.1)) == size_scan(str_lines(plist_output@)).0,
{
    let lines = lines_of(plist_output);
    let ghost ls = lines.deep_view();
    let mut out: Vec<(String, u64)> = Vec::new();
    let mut name = String::new();
    let mut i: usize = 0;
    while i < lines.len()
        invariant
            ls == lines.deep_view(),
            i <= ls.len(),
            out@.map_values(|e: (String, u64)| (e.0@, e.1)) == size_scan(ls.take(i as int)).0,
            name@ == size_scan(ls.take(i as int)).1,
        decreases ls.len() - i,
    {
        assert(ls.take(i + 1).drop_last() =~= ls.take(i as int));
        assert(ls.take(i + 1).last() == ls[i as int]);
        let v = chars_of(lines[i].as_str());
        let (a, b) = trim_bounds(&v);
        let ghost l = v@.subrange(a as int, b as int);
        let open_s = chars_of("<string>");
        let open_i = chars_of("<integer>");
        let tm = chars_of("TimeMachine.");
        let is_string = b - a >= open_s.len() && chars_at(&v, a, &open_s);
        assert(is_string == has_prefix(l, "<string>"@)) by {
            if b - a >= open_s@.len() {
                assert(l.subrange(0, open_s@.len() as int) =~= v@.subrange(a as int, a + open_s@.len()));
            }
        }
        let has_tm = find_chars(&v, a, b, &tm).is_some();
        if is_string && has_tm {
            let (x, y) = strip_bounds(&v, a, b, "<string>", "</string>");
            match date_in(&v, x, y) {
                Some(d) => {
                    name = d;
                },
                None => {},
            }
        } else {
            let is_int = b - a >= open_i.len() && chars_at(&v, a, &open_i);
            assert(is_int == has_prefix(l, "<integer>"@)) by {
                if b - a >= open_i@.len() {
                    assert(l.subrange(0, open_i@.len() as int) =~= v@.subrange(a as int, a + open_i@.len()));
                }
            }
            if is_int && name.as_str().unicode_len() > 0 {
                let (x, y) = strip_bounds(&v, a, b, "<integer>", "</integer>");
                let digits = string_of_range(&v, x, y);
                let n: u64 = match parse_u64(digits.as_str()) {
                    Some(n) => n,
                    None => 0,
                };
                if n > 0 {
                    let ghost before = out@.map_values(|e: (String, u64)| (e.0@, e.1));
                    let ghost nm = name@;
                    let taken = name;
                    name = String::new();
                    out.push((taken, n));
                    assert(out@.map_values(|e: (String, u64)| (e.0@, e.1)) =~= before.push((nm, n)));
                }
            }
        }
        i += 1;
    }
    assert(ls.take(i as int) =~= ls);
    out
}

/// The snapshots, each with the size `diskutil` last gave for its date, or
/// 0.
pub fn tm_snapshots(dates: Vec<String>, sizes: &Vec<(String, u64)>) -> (r: Vec<TmSnapshot>)
    ensures
        r@.len() == dates@.len(),
        forall|i: int| 0 <= i < r@.len() ==> #[trigger] r@[i].date == dates@[i] && r@[i].size_bytes
            == reported_size(sizes@.map_values(|e: (String, u64)| (e.0@, e.1)), dates@[i]@),
{
    let ghost input = dates@;
    let mut rest = dates;
    let n: usize = rest.len();
    let mut out: Vec<TmSnapshot> = Vec::new();
    let mut k: usize = 0;
    while rest.len() > 0
        invariant
            rest@ == input.skip(k as int),
            k <= input.len(),
            input.len() == n,
            out@.len() == k,
            forall|i: int| 0 <= i < k ==> #[trigger] out@[i].date == input[i] && out@[i].size_bytes
                == reported_size(sizes@.map_values(|e: (String, u64)| (e.0@, e.1)), input[i]@),
        decreases rest@.len(),
    {
        let date = rest.remove(0);
        assert(input.skip(k as int).remove(0) =~= input.skip(k + 1));
        assert(date == input[k as int]);
        let size_bytes = size_in_report(sizes, date.as_str());
        out.push(TmSnapshot { date, size_bytes });
        k += 1;
    }
    out
}

} // verus!
