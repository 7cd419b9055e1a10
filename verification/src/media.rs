//! Images shown in the interface: recognising an image file by its first
//! bytes, taking the PNG out of an application's `.icns` icon, and the
//! `data:` URLs handed to the web view.
use vstd::prelude::*;
use crate::paths::{PathParts, comps_start_with, path_comps};
use crate::text::push_str;

verus! {

/// The largest image a preview reads.
pub const MAX_IMAGE_BYTES: u64 = 4_000_000;

/// `b` begins with `p`.
pub open spec fn bytes_start(b: Seq<u8>, p: Seq<u8>) -> bool {
    p.len() <= b.len() && b.subrange(0, p.len() as int) == p
}

pub open spec fn png_magic() -> Seq<u8> {
    seq![0x89u8, 0x50, 0x4E, 0x47, 0x0D, 0x0A, 0x1A, 0x0A]
}

/// The media type of an image file, from its first bytes.
pub open spec fn image_mime(h: Seq<u8>) -> Option<Seq<char>> {
    if bytes_start(h, png_magic()) {
        Some("image/png"@)
    } else if bytes_start(h, seq![0xFFu8, 0xD8, 0xFF]) {
        Some("image/jpeg"@)
    } else if bytes_start(h, seq![0x47u8, 0x49, 0x46, 0x38, 0x37, 0x61]) || bytes_start(
        h,
        seq![0x47u8, 0x49, 0x46, 0x38, 0x39, 0x61],
    ) {
        Some("image/gif"@)
    } else if bytes_start(h, seq![0x52u8, 0x49, 0x46, 0x46]) && h.len() >= 12 && h.subrange(8, 12) == seq![
        0x57u8,
        0x45,
        0x42,
        0x50,
    ] {
        Some("image/webp"@)
    } else if bytes_start(h, seq![0x42u8, 0x4D]) {
        Some("image/bmp"@)
    } else if bytes_start(h, seq![0x49u8, 0x49, 0x2A, 0x00]) || bytes_start(h, seq![0x4Du8, 0x4D, 0x00, 0x2A]) {
        Some("image/tiff"@)
    } else {
        None
    }
}

/// Whether `h[at..]` begins with `p`.
fn bytes_at(h: &[u8], at: usize, p: &[u8]) -> (r: bool)
    requires
        at <= h@.len(),
    ensures
        r == (at + p@.len() <= h@.len() && h@.subrange(at as int, at + p@.len()) == p@),
{
    if p.len() > h.len() - at {
        return false;
    }
    let mut i: usize = 0;
    while i < p.len()
        invariant
            at + p@.len() <= h@.len(),
            i <= p@.len(),
            forall|j: int| 0 <= j < i ==> h@[at + j] == p@[j],
        decreases p@.len() - i,
    {
        assert(at + i < h.len());
        let idx: usize = at + i;
        if h[idx] != p[i] {
            assert(h@.subrange(at as int, at + p@.len())[i as int] != p@[i as int]);
            return false;
        }
        i += 1;
    }
    assert(h@.subrange(at as int, at + p@.len()) =~= p@);
    true
}

/// Recognises an image file by its first bytes.
pub fn detect_image_mime(header: &[u8]) -> (r: Option<&'static str>)
    ensures
        match r {
            Some(m) => image_mime(header@) == Some(m@),
            None => image_mime(header@) is None,
        },
{
    let png: [u8; 8] = [0x89, 0x50, 0x4E, 0x47, 0x0D, 0x0A, 0x1A, 0x0A];
    let jpeg: [u8; 3] = [0xFF, 0xD8, 0xFF];
    let gif7: [u8; 6] = [0x47, 0x49, 0x46, 0x38, 0x37, 0x61];
    let gif9: [u8; 6] = [0x47, 0x49, 0x46, 0x38, 0x39, 0x61];
    let riff: [u8; 4] = [0x52, 0x49, 0x46, 0x46];
    let webp: [u8; 4] = [0x57, 0x45, 0x42, 0x50];
    let bmp: [u8; 2] = [0x42, 0x4D];
    let tiff_le: [u8; 4] = [0x49, 0x49, 0x2A, 0x00];
    let tiff_be: [u8; 4] = [0x4D, 0x4D, 0x00, 0x2A];
    assert(png@ =~= png_magic());
    assert(jpeg@ =~= seq![0xFFu8, 0xD8, 0xFF]);
    assert(gif7@ =~= seq![0x47u8, 0x49, 0x46, 0x38, 0x37, 0x61]);
    assert(gif9@ =~= seq![0x47u8, 0x49, 0x46, 0x38, 0x39, 0x61]);
    assert(riff@ =~= seq![0x52u8, 0x49, 0x46, 0x46]);
    assert(webp@ =~= seq![0x57u8, 0x45, 0x42, 0x50]);
    assert(bmp@ =~= seq![0x42u8, 0x4D]);
    assert(tiff_le@ =~= seq![0x49u8, 0x49, 0x2A, 0x00]);
    assert(tiff_be@ =~= seq![0x4Du8, 0x4D, 0x00, 0x2A]);
    if bytes_at(header, 0, &png) {
        Some("image/png")
    } else if bytes_at(header, 0, &jpeg) {
        Some("image/jpeg")
    } else if bytes_at(header, 0, &gif7) || bytes_at(header, 0, &gif9) {
        Some("image/gif")
    } else if bytes_at(header, 0, &riff) && header.len() >= 12 && bytes_at(header, 8, &webp) {
        Some("image/webp")
    } else if bytes_at(header, 0, &bmp) {
        Some("image/bmp")
    } else if bytes_at(header, 0, &tiff_le) || bytes_at(header, 0, &tiff_be) {
        Some("image/tiff")
    } else {
        None
    }
}

// ── Application icons ───────────────────────────────────────────────────────

/// The big-endian number in `d[at..at + 4]`.
pub open spec fn be_u32(d: Seq<u8>, at: int) -> int {
    d[at] * 0x1000000 + d[at + 1] * 0x10000 + d[at + 2] * 0x100 + d[at + 3]
}

/// The icon types preferred, being small enough to transfer quickly:
/// `icp4`, `ic07`, `icp5`, `ic11`, `ic12`.
pub open spec fn preferred_icon_type(t: Seq<u8>) -> bool {
    ||| t == seq![0x69u8, 0x63, 0x70, 0x34]
    ||| t == seq![0x69u8, 0x63, 0x30, 0x37]
    ||| t == seq![0x69u8, 0x63, 0x70, 0x35]
    ||| t == seq![0x69u8, 0x63, 0x31, 0x31]
    ||| t == seq![0x69u8, 0x63, 0x31, 0x32]
}

/// Walking the icon's chunks from `pos`, with `first` the first PNG payload
/// seen so far (as a range of `d`): the payload of the first chunk of a
/// preferred type holding a PNG, else the first PNG payload. The walk stops
/// at a chunk whose length is below 8 or runs past the end.
pub open spec fn icns_png_from(d: Seq<u8>, pos: int, first: Option<(int, int)>) -> Option<(int, int)>
    decreases d.len() - pos,
{
    if pos < 8 || pos + 8 > d.len() {
        first
    } else {
        let sz = be_u32(d, pos + 4);
        if sz < 8 || pos + sz > d.len() {
            first
        } else {
            let payload = d.subrange(pos + 8, pos + sz);
            if bytes_start(payload, png_magic()) {
                if preferred_icon_type(d.subrange(pos, pos + 4)) {
                    Some((pos + 8, pos + sz))
                } else {
                    icns_png_from(
                        d,
                        pos + sz,
                        if first is None {
                            Some((pos + 8, pos + sz))
                        } else {
                            first
                        },
                    )
                }
            } else {
                icns_png_from(d, pos + sz, first)
            }
        }
    }
}

/// The PNG image an `.icns` file holds, as a range of its bytes.
pub open spec fn icns_png(d: Seq<u8>) -> Option<(int, int)> {
    if d.len() < 8 || d.subrange(0, 4) != seq![0x69u8, 0x63, 0x6E, 0x73] {
        None
    } else {
        icns_png_from(d, 8, None)
    }
}

fn read_be_u32(d: &[u8], at: usize) -> (r: u64)
    requires
        at + 4 <= d@.len(),
    ensures
        r == be_u32(d@, at as int),
{
    (d[at] as u64) * 0x1000000 + (d[at + 1] as u64) * 0x10000 + (d[at + 2] as u64) * 0x100 + (d[at + 3] as u64)
}

/// The bytes `d[a..b]`.
fn copy_range(d: &[u8], a: usize, b: usize) -> (r: Vec<u8>)
    requires
        a <= b <= d@.len(),
    ensures
        r@ == d@.subrange(a as int, b as int),
{
    let mut r: Vec<u8> = Vec::new();
    let mut i = a;
    while i < b
        invariant
            a <= i <= b <= d@.len(),
            r@ == d@.subrange(a as int, i as int),
        decreases b - i,
    {
        r.push(d[i]);
        assert(d@.subrange(a as int, i + 1) =~= d@.subrange(a as int, i as int).push(d@[i as int]));
        i += 1;
    }
    r
}

/// Takes the PNG image out of the bytes of an `.icns` icon file.
pub fn icon_png_from_icns(data: &[u8]) -> (r: Option<Vec<u8>>)
    ensures
        match icns_png(data@) {
            Some((a, b)) => r matches Some(v) && v@ == data@.subrange(a, b),
            None => r is None,
        },
{
    let n = data.len();
    let magic: [u8; 4] = [0x69, 0x63, 0x6E, 0x73];
    assert(magic@ =~= seq![0x69u8, 0x63, 0x6E, 0x73]);
    if n < 8 || !bytes_at(data, 0, &magic) {
        return None;
    }
    let png: [u8; 8] = [0x89, 0x50, 0x4E, 0x47, 0x0D, 0x0A, 0x1A, 0x0A];
    assert(png@ =~= png_magic());
    let t0: [u8; 4] = [0x69, 0x63, 0x70, 0x34];
    let t1: [u8; 4] = [0x69, 0x63, 0x30, 0x37];
    let t2: [u8; 4] = [0x69, 0x63, 0x70, 0x35];
    let t3: [u8; 4] = [0x69, 0x63, 0x31, 0x31];
    let t4: [u8; 4] = [0x69, 0x63, 0x31, 0x32];
    assert(t0@ =~= seq![0x69u8, 0x63, 0x70, 0x34]);
    assert(t1@ =~= seq![0x69u8, 0x63, 0x30, 0x37]);
    assert(t2@ =~= seq![0x69u8, 0x63, 0x70, 0x35]);
    assert(t3@ =~= seq![0x69u8, 0x63, 0x31, 0x31]);
    assert(t4@ =~= seq![0x69u8, 0x63, 0x31, 0x32]);
    let mut first: Option<(usize, usize)> = None;
    let mut pos: usize = 8;
    let mut stopped = false;
    while !stopped && pos <= n && 8 <= n - pos
        invariant
            n == data@.len(),
            8 <= pos,
            png@ == png_magic(),
            t0@ == seq![0x69u8, 0x63, 0x70, 0x34],
            t1@ == seq![0x69u8, 0x63, 0x30, 0x37],
            t2@ == seq![0x69u8, 0x63, 0x70, 0x35],
            t3@ == seq![0x69u8, 0x63, 0x31, 0x31],
            t4@ == seq![0x69u8, 0x63, 0x31, 0x32],
            stopped ==> icns_png(data@) == match first {
                Some((a, b)) => Some((a as int, b as int)),
                None => None,
            },
            !stopped ==> icns_png(data@) == icns_png_from(
                data@,
                pos as int,
                match first {
                    Some((a, b)) => Some((a as int, b as int)),
                    None => None,
                },
            ),
            match first {
                Some((a, b)) => a <= b <= n,
                None => true,
            },
        decreases n - pos + (if stopped { 0int } else { 1int }),
    {
        let sz = read_be_u32(data, pos + 4);
        if sz < 8 || sz > (n - pos) as u64 {
            stopped = true;
        } else {
            let end = pos + sz as usize;
            let is_png = sz >= 16 && bytes_at(data, pos + 8, &png);
            proof {
                let payload = data@.subrange(pos + 8, end as int);
                if end - (pos + 8) >= 8 {
                    assert(payload.subrange(0, 8) =~= data@.subrange(pos + 8, pos + 16));
                }
                assert(is_png == bytes_start(payload, png_magic()));
            }
            if is_png {
                let preferred = bytes_at(data, pos, &t0) || bytes_at(data, pos, &t1) || bytes_at(data, pos, &t2)
                    || bytes_at(data, pos, &t3) || bytes_at(data, pos, &t4);
                assert(preferred == preferred_icon_type(data@.subrange(pos as int, pos + 4)));
                if preferred {
                    return Some(copy_range(data, pos + 8, end));
                }
                if first.is_none() {
                    first = Some((pos + 8, end));
                }
            }
            pos = end;
        }
    }
    match first {
        Some((a, b)) => Some(copy_range(data, a, b)),
        None => None,
    }
}

// ── data: URLs ──────────────────────────────────────────────────────────────

/// The character of a six-bit value in the standard Base64 alphabet
/// (`A`–`Z`, `a`–`z`, `0`–`9`, `+`, `/`).
pub open spec fn b64_char(v: int) -> char {
    if v < 26 {
        (('A' as int) + v) as char
    } else if v < 52 {
        (('a' as int) + v - 26) as char
    } else if v < 62 {
        (('0' as int) + v - 52) as char
    } else if v == 62 {
        '+'
    } else {
        '/'
    }
}

/// The standard Base64 encoding (RFC 4648, with `=` padding) of some bytes:
/// each group of three bytes becomes four characters; a last group of one or
/// two bytes becomes two or three characters and is padded to four.
pub open spec fn base64_standard(d: Seq<u8>) -> Seq<char>
    decreases d.len(),
{
    if d.len() == 0 {
        seq![]
    } else if d.len() == 1 {
        let a = d[0] as int;
        seq![b64_char(a / 4), b64_char((a % 4) * 16), '=', '=']
    } else if d.len() == 2 {
        let a = d[0] as int;
        let b = d[1] as int;
        seq![b64_char(a / 4), b64_char((a % 4) * 16 + b / 16), b64_char((b % 16) * 4), '=']
    } else {
        let a = d[0] as int;
        let b = d[1] as int;
        let c = d[2] as int;
        seq![b64_char(a / 4), b64_char((a % 4) * 16 + b / 16), b64_char((b % 16) * 4 + c / 64), b64_char(c % 64)]
            + base64_standard(d.skip(3))
    }
}

/// `base64::engine::general_purpose::STANDARD.encode`: the standard Base64
/// text of `data`, with padding, as `base64_standard` writes it out.
#[verifier::external_body]
fn b64_encode(data: &[u8]) -> (r: String)
    ensures
        r@ == base64_standard(data@),
{
    base64::Engine::encode(&base64::engine::general_purpose::STANDARD, data)
}

/// A `data:` URL for content of the given media type.
pub open spec fn data_url(mime: Seq<char>, data: Seq<u8>) -> Seq<char> {
    "data:"@ + mime + ";base64,"@ + base64_standard(data)
}

/// The `data:` URL of some content.
pub fn to_data_url(mime: &str, data: &[u8]) -> (r: String)
    ensures
        r@ == data_url(mime@, data@),
{
    let mut out = String::new();
    push_str(&mut out, "data:");
    push_str(&mut out, mime);
    push_str(&mut out, ";base64,");
    let enc = b64_encode(data);
    push_str(&mut out, enc.as_str());
    out
}

/// The `data:` URL of an application's icon, from its `.icns` file's bytes.
pub fn icon_data_url(icns: &[u8]) -> (r: Option<String>)
    ensures
        match icns_png(icns@) {
            Some((a, b)) => r matches Some(u) && u@ == data_url("image/png"@, icns@.subrange(a, b)),
            None => r is None,
        },
{
    match icon_png_from_icns(icns) {
        Some(png) => Some(to_data_url("image/png", png.as_slice())),
        None => None,
    }
}

/// The `data:` URL of an image read for a preview, when it is one of the
/// recognised formats and no larger than the limit.
pub fn image_data_url(bytes: &[u8]) -> (r: Option<String>)
    ensures
        match image_mime(bytes@) {
            Some(m) => if bytes@.len() >= 4 && bytes@.len() <= MAX_IMAGE_BYTES {
                r matches Some(u) && u@ == data_url(m, bytes@)
            } else {
                r is None
            },
            None => r is None,
        },
{
    if bytes.len() < 4 || bytes.len() as u64 > MAX_IMAGE_BYTES {
        return None;
    }
    match detect_image_mime(bytes) {
        Some(m) => Some(to_data_url(m, bytes)),
        None => None,
    }
}

/// Where a preview may read: a path strictly below the (non-empty) home
/// directory, with no `..` below it.
pub open spec fn preview_path_ok(path: Seq<char>, home: Seq<char>) -> bool {
    let c = path_comps(path);
    let h = path_comps(home);
    &&& home.len() > 0
    &&& path.len() > 0 && path[0] == '/'
    &&& comps_start_with(c, h)
    &&& c.len() > h.len()
    &&& forall|k: int| h.len() <= k < c.len() ==> #[trigger] c[k] != ".."@
}

/// Checks, without touching the disk, where an image preview may read.
pub fn image_preview_path_ok(path: &str, home: &str) -> (r: bool)
    ensures
        r == preview_path_ok(path@, home@),
{
    if home.unicode_len() == 0 || path.unicode_len() == 0 || path.get_char(0) != '/' {
        return false;
    }
    let p = PathParts::parse(path);
    let h = PathParts::parse(home);
    if !p.starts_with_parts(&h) {
        return false;
    }
    let n = p.comps_len();
    let m = h.comps_len();
    if n <= m {
        return false;
    }
    let mut k = m;
    while k < n
        invariant
            p.wf(),
            p.comps() == path_comps(path@),
            n == p.comps().len(),
            m == path_comps(home@).len(),
            m <= k <= n,
            forall|j: int| m <= j < k ==> #[trigger] p.comps()[j] != ".."@,
        decreases n - k,
    {
        if p.comp_matches_str(k, "..") {
            return false;
        }
        k += 1;
    }
    true
}

} // verus!
