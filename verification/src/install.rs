//! Installing a downloaded update: whether the download is plausible, what
//! kind of archive it is, where `hdiutil` mounted a disk image, where the
//! application goes, and when a Homebrew upgrade is retried with `--force`.
use vstd::prelude::*;
use crate::guard::{component_prefixes, prefix_string};
use crate::paths::{PathParts, path_comps, root_comp};
use crate::text::{
    owned, chars_of, find_seq, find_chars, lines_of, push_str, split_char, split_on, str_lines, string_chars,
    string_of_range, trim, trim_bounds, has_at, contains_text, contains_lit,
};

verus! {

/// A download smaller than this is an error page, not an application.
pub const MIN_DOWNLOAD_BYTES: u64 = 500_000;

/// Downloads are limited to 2 GiB.
pub const MAX_DOWNLOAD_BYTES: u64 = 2_147_483_648;

/// Whether a download of `size` bytes may be an application update.
pub fn download_size_ok(size: u64) -> (r: bool)
    ensures
        r == (MIN_DOWNLOAD_BYTES <= size <= MAX_DOWNLOAD_BYTES),
{
    MIN_DOWNLOAD_BYTES <= size && size <= MAX_DOWNLOAD_BYTES
}

/// The kinds of update archives.
#[derive(Clone, Copy, Debug, PartialEq, Eq, Structural)]
pub enum ArchiveFormat {
    Dmg,
    TarBz2,
    TarGz,
    TarXz,
    Zip,
    Pkg,
}

/// The file extension of an archive format.
pub open spec fn format_ext(f: ArchiveFormat) -> Seq<char> {
    match f {
        ArchiveFormat::Dmg => "dmg"@,
        ArchiveFormat::TarBz2 => "tar.bz2"@,
        ArchiveFormat::TarGz => "tar.gz"@,
        ArchiveFormat::TarXz => "tar.xz"@,
        ArchiveFormat::Zip => "zip"@,
        ArchiveFormat::Pkg => "pkg"@,
    }
}

impl ArchiveFormat {
    /// The file extension.
    pub fn ext(self) -> (r: &'static str)
        ensures
            r@ == format_ext(self),
    {
        match self {
            ArchiveFormat::Dmg => "dmg",
            ArchiveFormat::TarBz2 => "tar.bz2",
            ArchiveFormat::TarGz => "tar.gz",
            ArchiveFormat::TarXz => "tar.xz",
            ArchiveFormat::Zip => "zip",
            ArchiveFormat::Pkg => "pkg",
        }
    }
}

/// The format of a download from its media type (as `file --mime-type`
/// reports it). A bzip2 stream may be a compressed disk image:
/// `bzip2_is_dmg` is what `hdiutil imageinfo` said of it. Anything else is
/// taken for a disk image.
pub open spec fn archive_format_of(mime: Seq<char>, bzip2_is_dmg: bool) -> ArchiveFormat {
    if contains_text(mime, "bzip2"@) {
        if bzip2_is_dmg {
            ArchiveFormat::Dmg
        } else {
            ArchiveFormat::TarBz2
        }
    } else if contains_text(mime, "gzip"@) {
        ArchiveFormat::TarGz
    } else if contains_text(mime, "x-xz"@) || contains_text(mime, "xz"@) {
        ArchiveFormat::TarXz
    } else if contains_text(mime, "zip"@) {
        ArchiveFormat::Zip
    } else if contains_text(mime, "xar"@) || contains_text(mime, "x-newton"@) {
        ArchiveFormat::Pkg
    } else {
        ArchiveFormat::Dmg
    }
}

/// Whether the media type calls for asking `hdiutil` if the download is a
/// disk image.
pub fn needs_disk_image_probe(mime: &str) -> (r: bool)
    ensures
        r == contains_text(mime@, "bzip2"@),
{
    let v = chars_of(mime);
    contains_lit(&v, "bzip2")
}

/// The format of a download.
pub fn archive_format(mime: &str, bzip2_is_dmg: bool) -> (r: ArchiveFormat)
    ensures
        r == archive_format_of(mime@, bzip2_is_dmg),
{
    let v = chars_of(mime);
    if contains_lit(&v, "bzip2") {
        if bzip2_is_dmg {
            ArchiveFormat::Dmg
        } else {
            ArchiveFormat::TarBz2
        }
    } else if contains_lit(&v, "gzip") {
        ArchiveFormat::TarGz
    } else if contains_lit(&v, "x-xz") || contains_lit(&v, "xz") {
        ArchiveFormat::TarXz
    } else if contains_lit(&v, "zip") {
        ArchiveFormat::Zip
    } else if contains_lit(&v, "xar") || contains_lit(&v, "x-newton") {
        ArchiveFormat::Pkg
    } else {
        ArchiveFormat::Dmg
    }
}

/// `s` begins with `p`.
pub open spec fn starts_text(s: Seq<char>, p: Seq<char>) -> bool {
    p.len() <= s.len() && s.subrange(0, p.len() as int) == p
}

/// Where `hdiutil attach` mounted a disk image, from line `k` of its output
/// on: the last tab-separated field of the first line whose last field,
/// trimmed, lies under `/Volumes/`.
pub open spec fn mount_point_from(ls: Seq<Seq<char>>, k: int) -> Option<Seq<char>>
    decreases ls.len() - k,
{
    if k < 0 || k >= ls.len() {
        None
    } else {
        let field = trim(split_on(ls[k], '\t').last());
        if starts_text(field, "/Volumes/"@) {
            Some(field)
        } else {
            mount_point_from(ls, k + 1)
        }
    }
}

/// Where `hdiutil attach` says it mounted the image.
pub fn mount_point(hdiutil_output: &str) -> (r: Option<String>)
    ensures
        match mount_point_from(str_lines(hdiutil_output@), 0) {
            Some(m) => r matches Some(x) && x@ == m,
            None => r is None,
        },
{
    let ls = lines_of(hdiutil_output);
    let ghost lv = ls.deep_view();
    let mut k: usize = 0;
    proof {
        reveal_strlit("/Volumes/");
    }
    while k < ls.len()
        invariant
            lv == ls.deep_view(),
            lv == str_lines(hdiutil_output@),
            k <= lv.len(),
            mount_point_from(lv, 0) == mount_point_from(lv, k as int),
        decreases lv.len() - k,
    {
        assert(ls@[k as int]@ == lv[k as int]);
        let fields = split_char(ls[k].as_str(), '\t');
        assert(fields.deep_view().len() == fields@.len());
        let last = &fields[fields.len() - 1];
        assert(last@ == split_on(lv[k as int], '\t').last());
        let lc = chars_of(last.as_str());
        let (a, b) = trim_bounds(&lc);
        let t = string_of_range(&lc, a, b);
        let tv = string_chars(&t);
        if has_at(&tv, 0, "/Volumes/") {
            return Some(t);
        }
        k += 1;
    }
    None
}

/// Where the updated application is installed: the folder holding the
/// installed one (`Path::parent`), else `/Applications`.
pub open spec fn install_dir_of(app_path: Seq<char>) -> Seq<char> {
    let c = path_comps(app_path);
    if c.len() == 0 || (c.len() == 1 && c[0] == root_comp()) {
        "/Applications"@
    } else {
        prefix_string(c, c.len() - 1)
    }
}

/// The folder the updated application goes to.
pub fn install_dir(app_path: &str) -> (r: String)
    ensures
        r@ == install_dir_of(app_path@),
{
    let p = PathParts::parse(app_path);
    let n = p.comps_len();
    if n == 0 || (n == 1 && p.rooted) {
        proof {
            if n == 1 && p.rooted {
                assert(p.comps()[0] == root_comp());
            }
        }
        let mut r = String::new();
        push_str(&mut r, "/Applications");
        return r;
    }
    proof {
        if n == 1 {
            assert(!p.rooted);
            assert(p.comps()[0] == p.comp(0));
            assert(p.comp(0) != root_comp());
        }
    }
    if n == 1 {
        return String::new();
    }
    let prefixes = component_prefixes(app_path);
    let r = prefixes[n - 2].clone();
    r
}

/// `s` holds `p`.
fn contains_str(s: &str, p: &str) -> (r: bool)
    ensures
        r == contains_text(s@, p@),
{
    let v = chars_of(s);
    contains_lit(&v, p)
}

/// Whether a failed `brew upgrade --cask` failed on an application left in
/// place by an earlier version, so that retrying with `--force` is in order.
pub fn brew_upgrade_conflict(stderr: &str) -> (r: bool)
    ensures
        r == (contains_text(stderr@, "there is already an App"@) || contains_text(stderr@, "already exists"@)),
{
    contains_str(stderr, "there is already an App") || contains_str(stderr, "already exists")
}

// ── Installing by format ────────────────────────────────────────────────────

/// What is done with a download once its format is known.
pub enum InstallRoute {
    /// Installer packages are refused: nothing ties them to the installed
    /// application.
    Refuse,
    /// An archive is unpacked into a directory with `program` and `args`.
    Extract { program: String, args: Vec<String> },
    /// A disk image is mounted.
    Mount,
}

/// How an archive of format `f` at `archive` is unpacked into `dest`:
/// `unzip -q -o` for a ZIP, `tar -xf … -C` for a tarball; `None` for a disk
/// image or a package.
pub open spec fn extraction_of(f: ArchiveFormat, archive: Seq<char>, dest: Seq<char>) -> Option<(Seq<char>, Seq<Seq<char>>)> {
    match f {
        ArchiveFormat::Zip => Some(("/usr/bin/unzip"@, seq!["-q"@, "-o"@, archive, "-d"@, dest])),
        ArchiveFormat::TarGz | ArchiveFormat::TarBz2 | ArchiveFormat::TarXz => Some(
            ("/usr/bin/tar"@, seq!["-xf"@, archive, "-C"@, dest]),
        ),
        _ => None,
    }
}

/// What is done with a download of format `f` at `archive`, to be unpacked
/// into `dest`.
pub fn install_route(f: ArchiveFormat, archive: &str, dest: &str) -> (r: InstallRoute)
    ensures
        f == ArchiveFormat::Pkg ==> r is Refuse,
        f == ArchiveFormat::Dmg ==> r is Mount,
        match extraction_of(f, archive@, dest@) {
            Some((p, a)) => r matches InstallRoute::Extract { program, args } && program@ == p
                && args.deep_view() == a,
            None => !(r is Extract),
        },
{
    match f {
        ArchiveFormat::Pkg => InstallRoute::Refuse,
        ArchiveFormat::Dmg => InstallRoute::Mount,
        ArchiveFormat::Zip => {
            let args = vec![owned("-q"), owned("-o"), owned(archive), owned("-d"), owned(dest)];
            assert(args.deep_view() =~= seq!["-q"@, "-o"@, archive@, "-d"@, dest@]);
            InstallRoute::Extract { program: owned("/usr/bin/unzip"), args }
        },
        _ => {
            let args = vec![owned("-xf"), owned(archive), owned("-C"), owned(dest)];
            assert(args.deep_view() =~= seq!["-xf"@, archive@, "-C"@, dest@]);
            InstallRoute::Extract { program: owned("/usr/bin/tar"), args }
        },
    }
}


} // verus!
