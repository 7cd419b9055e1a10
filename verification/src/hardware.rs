//! Hardware descriptions shown in the interface: the graphics processor as
//! `system_profiler` reports it, and the fan speed `powermetrics` reports.
use vstd::prelude::*;
use crate::json::{JsonValue, as_items, field, get, items, or_blank, text, text_of_either, text_or, text_or_blank};
use crate::text::{
    chars_of, find_chars, find_seq, lowercase, parse_u64, parsed_u64, push_str, string_of_range,
    to_lowercase, trim, trim_bounds, is_ws, is_whitespace, lemma_find_from, string_chars, contains_lit,
    first_index, lemma_first_index, is_ascii_digit, contains_text, lines_of, str_lines,
};

verus! {

/// The graphics processor.
pub struct GpuInfo {
    pub model: String,
    pub vram_mb: u64,
    pub vendor: String,
}

/// `s` without the prefix `p`, when it has it.
pub open spec fn without_prefix(s: Seq<char>, p: Seq<char>) -> Seq<char> {
    if p.len() <= s.len() && s.subrange(0, p.len() as int) == p {
        s.skip(p.len() as int)
    } else {
        s
    }
}

/// The first whitespace-separated word of `s`, if any.
pub open spec fn first_word(s: Seq<char>) -> Option<Seq<char>> {
    let t = trim(s);
    if t.len() == 0 {
        None
    } else {
        Some(t.take(crate::text::first_index(t, |c: char| is_ws(c))))
    }
}

/// Video memory in MiB from its description: none when shared (or
/// `partagée`), else the leading number, in GiB when the text says `gb`
/// (saturating).
pub open spec fn vram_mb_of(vram: Seq<char>) -> u64 {
    let lower = lowercase(vram);
    if lower.len() == 0 || find_seq(lower, "shared"@) is Some || find_seq(lower, "partagée"@) is Some {
        0
    } else {
        let num: u64 = match first_word(lower) {
            Some(w) => match parsed_u64(w) {
                Some(n) => n,
                None => 0,
            },
            None => 0,
        };
        if find_seq(lower, "gb"@) is Some {
            if num * 1024 > u64::MAX {
                u64::MAX
            } else {
                (num * 1024) as u64
            }
        } else {
            num
        }
    }
}

/// Video memory in MiB, from `system_profiler`'s description.
pub fn vram_mb_from(vram: &str) -> (r: u64)
    ensures
        r == vram_mb_of(vram@),
{
    let lower = to_lowercase(vram);
    let lv = string_chars(&lower);
    if lv.len() == 0 || contains_lit(&lv, "shared") || contains_lit(&lv, "partagée") {
        return 0;
    }
    let (a, b) = trim_bounds(&lv);
    let num: u64 = if a == b {
        0
    } else {
        let t = string_of_range(&lv, a, b);
        let tv = string_chars(&t);
        let mut k: usize = 0;
        while k < tv.len() && !is_whitespace(tv[k])
            invariant
                k <= tv@.len(),
                forall|j: int| 0 <= j < k ==> !is_ws(#[trigger] tv@[j]),
            decreases tv@.len() - k,
        {
            k += 1;
        }
        proof {
            crate::text::lemma_first_index(tv@, |c: char| is_ws(c), k as int);
        }
        let w = string_of_range(&tv, 0, k);
        assert(w@ =~= tv@.take(k as int));
        match parse_u64(w.as_str()) {
            Some(n) => n,
            None => 0,
        }
    };
    if contains_lit(&lv, "gb") {
        if num > u64::MAX / 1024 {
            u64::MAX
        } else {
            num * 1024
        }
    } else {
        num
    }
}

/// What is shown of the graphics processor: its model (with its core count
/// when known), video memory, and vendor without the `sppci_vendor_` prefix.
pub open spec fn gpu_view(model_base: Seq<char>, vendor_raw: Seq<char>, cores: Seq<char>, vram: Seq<char>) -> (
    Seq<char>,
    u64,
    Seq<char>,
) {
    (
        if cores.len() > 0 {
            model_base + " · "@ + cores + " cœurs GPU"@
        } else {
            model_base
        },
        vram_mb_of(vram),
        without_prefix(vendor_raw, "sppci_vendor_"@),
    )
}

/// The graphics processor, from the fields `system_profiler` reports.
pub fn gpu_info_from(model_base: &str, vendor_raw: &str, cores: &str, vram: &str) -> (g: GpuInfo)
    ensures
        (g.model@, g.vram_mb, g.vendor@) == gpu_view(model_base@, vendor_raw@, cores@, vram@),
{
    let mut model = String::new();
    push_str(&mut model, model_base);
    if cores.unicode_len() > 0 {
        push_str(&mut model, " · ");
        push_str(&mut model, cores);
        push_str(&mut model, " cœurs GPU");
    }
    let vv = chars_of(vendor_raw);
    proof {
        reveal_strlit("sppci_vendor_");
    }
    let vendor = if crate::text::has_at(&vv, 0, "sppci_vendor_") {
        let r = string_of_range(&vv, 13, vv.len());
        assert(r@ =~= vendor_raw@.skip(13));
        r
    } else {
        let mut r = String::new();
        push_str(&mut r, vendor_raw);
        r
    };
    GpuInfo { model, vram_mb: vram_mb_from(vram), vendor }
}


/// A Bluetooth device as the status tool reports it.
pub struct BluetoothDevice {
    pub name: String,
    pub connected: bool,
    pub battery: String,
}

// ── Fan speed ───────────────────────────────────────────────────────────────

/// The first run of ASCII digits in `l` (empty when it has none).
pub open spec fn first_digit_run(l: Seq<char>) -> Seq<char> {
    let i = first_index(l, |c: char| is_ascii_digit(c));
    let rest = l.skip(i);
    rest.take(first_index(rest, |c: char| !is_ascii_digit(c)))
}

/// A fan speed read from a line: the first number on it, when it fits a
/// `u32` and is not zero.
pub open spec fn rpm_value(l: Seq<char>) -> Option<u32> {
    match parsed_u64(first_digit_run(l)) {
        Some(v) => if 0 < v && v <= u32::MAX {
            Some(v as u32)
        } else {
            None
        },
        None => None,
    }
}

/// Whether a line of `powermetrics` output speaks of a fan speed.
pub open spec fn fan_line(l: Seq<char>) -> bool {
    contains_text(lowercase(l), "fan"@) && contains_text(lowercase(l), "rpm"@)
}

/// The fan speed `powermetrics --samplers smc` reports, from line `k` on:
/// the first line about a fan speed that carries a usable number.
pub open spec fn fan_rpm_from(ls: Seq<Seq<char>>, k: int) -> Option<u32>
    decreases ls.len() - k,
{
    if k < 0 || k >= ls.len() {
        None
    } else if fan_line(ls[k]) && rpm_value(ls[k]) is Some {
        rpm_value(ls[k])
    } else {
        fan_rpm_from(ls, k + 1)
    }
}

/// The first number on a line.
fn digit_run(l: &str) -> (r: String)
    ensures
        r@ == first_digit_run(l@),
{
    let v = chars_of(l);
    let mut i: usize = 0;
    while i < v.len() && !('0' <= v[i] && v[i] <= '9')
        invariant
            v@ == l@,
            i <= v@.len(),
            forall|j: int| 0 <= j < i ==> !is_ascii_digit(#[trigger] v@[j]),
        decreases v.len() - i,
    {
        i += 1;
    }
    proof {
        lemma_first_index(v@, |c: char| is_ascii_digit(c), i as int);
    }
    let mut j: usize = i;
    while j < v.len() && '0' <= v[j] && v[j] <= '9'
        invariant
            v@ == l@,
            i <= j <= v@.len(),
            forall|t: int| i <= t < j ==> is_ascii_digit(#[trigger] v@[t]),
        decreases v.len() - j,
    {
        j += 1;
    }
    proof {
        let rest = v@.skip(i as int);
        assert forall|t: int| 0 <= t < j - i implies !(|c: char| !is_ascii_digit(c))(#[trigger] rest[t]) by {
            assert(rest[t] == v@[i + t]);
        }
        if j < v.len() {
            assert(rest[j - i] == v@[j as int]);
        }
        lemma_first_index(rest, |c: char| !is_ascii_digit(c), j - i);
        assert(rest.take(j - i) =~= v@.subrange(i as int, j as int));
    }
    string_of_range(&v, i, j)
}

/// The fan speed `powermetrics --samplers smc` reports, if any.
pub fn fan_rpm(output: &str) -> (r: Option<u32>)
    ensures
        r == fan_rpm_from(str_lines(output@), 0),
{
    let ls = lines_of(output);
    let ghost lv = ls.deep_view();
    let mut k: usize = 0;
    while k < ls.len()
        invariant
            lv == ls.deep_view(),
            lv == str_lines(output@),
            k <= lv.len(),
            fan_rpm_from(lv, 0) == fan_rpm_from(lv, k as int),
        decreases lv.len() - k,
    {
        let line = ls[k].as_str();
        assert(line@ == lv[k as int]);
        let low = to_lowercase(line);
        let lowv = chars_of(low.as_str());
        if contains_lit(&lowv, "fan") && contains_lit(&lowv, "rpm") {
            let run = digit_run(line);
            if let Some(v) = parse_u64(run.as_str()) {
                if 0 < v && v <= 4294967295u64 {
                    return Some(v as u32);
                }
            }
        }
        k += 1;
    }
    None
}


/// The first display adapter `system_profiler SPDisplaysDataType -json`
/// lists, if any.
pub open spec fn first_display(doc: JsonValue) -> Option<JsonValue> {
    match items(field(doc, "SPDisplaysDataType"@)) {
        Some(a) => if a.len() > 0 {
            Some(a[0])
        } else {
            None
        },
        None => None,
    }
}

/// The graphics processor from `system_profiler`'s JSON report: the first
/// display adapter's model, vendor (or PCI vendor), core count and memory
/// (or shared memory); all empty when the report lists none.
pub fn gpu_info_of(doc: &JsonValue) -> (g: GpuInfo)
    ensures
        match first_display(*doc) {
            None => g.model@ == Seq::<char>::empty() && g.vram_mb == 0 && g.vendor@ == Seq::<char>::empty(),
            Some(e) => (g.model@, g.vram_mb, g.vendor@) == gpu_view(
                or_blank(text(field(e, "sppci_model"@))),
                text_or(text(field(e, "spdisplays_vendor"@)), text(field(e, "sppci_vendor"@))),
                or_blank(text(field(e, "sppci_cores"@))),
                text_or(text(field(e, "spdisplays_vram"@)), text(field(e, "spdisplays_vram_shared"@))),
            ),
        },
{
    let list = match as_items(get(doc, "SPDisplaysDataType")) {
        Some(a) => a,
        None => {
            return GpuInfo { model: String::new(), vram_mb: 0, vendor: String::new() };
        },
    };
    if list.len() == 0 {
        return GpuInfo { model: String::new(), vram_mb: 0, vendor: String::new() };
    }
    let e = &list[0];
    let model = text_or_blank(e, "sppci_model");
    let vendor = text_of_either(e, "spdisplays_vendor", "sppci_vendor");
    let cores = text_or_blank(e, "sppci_cores");
    let vram = text_of_either(e, "spdisplays_vram", "spdisplays_vram_shared");
    gpu_info_from(model.as_str(), vendor.as_str(), cores.as_str(), vram.as_str())
}

} // verus!
