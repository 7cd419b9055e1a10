//! Universal binaries: which files are fat Mach-O binaries holding both
//! Intel and Apple Silicon code, which applications are scanned and may be
//! thinned, and how the findings are reported.
use vstd::prelude::*;
use crate::network::{split_words, words};
use crate::order::{HasSize, rank_by_size, ranked_by_size};
use crate::paths::{file_stem_of, has_extension, path_comps, path_extension, path_stem, stem_or_empty};
use crate::text::{owned, has_prefix, push_str, starts_with_str, str_eq};

verus! {

/// The first four bytes of a fat Mach-O file, in either byte order, with
/// 32- or 64-bit offsets.
pub open spec fn fat_magic(b: Seq<u8>) -> bool {
    b.len() == 4 && (b == seq![0xcau8, 0xfe, 0xba, 0xbe] || b == seq![0xbeu8, 0xba, 0xfe, 0xca]
        || b == seq![0xcau8, 0xfe, 0xba, 0xbf] || b == seq![0xbfu8, 0xba, 0xfe, 0xca])
}

/// Whether a file's first four bytes are a fat Mach-O magic number.
pub fn is_fat_magic(b: &[u8]) -> (r: bool)
    ensures
        r == fat_magic(b@),
{
    if b.len() != 4 {
        return false;
    }
    let r = (b[0] == 0xca && b[1] == 0xfe && b[2] == 0xba && b[3] == 0xbe) || (b[0] == 0xbe && b[1]
        == 0xba && b[2] == 0xfe && b[3] == 0xca) || (b[0] == 0xca && b[1] == 0xfe && b[2] == 0xba
        && b[3] == 0xbf) || (b[0] == 0xbf && b[1] == 0xba && b[2] == 0xfe && b[3] == 0xca);
    assert(r == fat_magic(b@)) by {
        if r {
        } else {
            if b@ == seq![0xcau8, 0xfe, 0xba, 0xbe] {
                assert(b@[0] == 0xca);
            }
            if b@ == seq![0xbeu8, 0xba, 0xfe, 0xca] {
                assert(b@[0] == 0xbe);
            }
            if b@ == seq![0xcau8, 0xfe, 0xba, 0xbf] {
                assert(b@[3] == 0xbf);
            }
            if b@ == seq![0xbfu8, 0xba, 0xfe, 0xca] {
                assert(b@[0] == 0xbf);
            }
        }
        if r {
            assert(b@ =~= seq![b[0], b[1], b[2], b[3]]);
        }
    }
    r
}

/// Whether `lipo -archs` lists both `x86_64` and `arm64`.
pub open spec fn has_both_arches(output: Seq<char>) -> bool {
    words(output).contains("x86_64"@) && words(output).contains("arm64"@)
}

/// Whether `lipo -archs` lists both architectures.
pub fn both_arches(lipo_output: &str) -> (r: bool)
    ensures
        r == has_both_arches(lipo_output@),
{
    let ws = split_words(lipo_output);
    let mut intel = false;
    let mut arm = false;
    let mut i: usize = 0;
    while i < ws.len()
        invariant
            i <= ws@.len(),
            intel == exists|j: int| 0 <= j < i && ws.deep_view()[j] == "x86_64"@,
            arm == exists|j: int| 0 <= j < i && ws.deep_view()[j] == "arm64"@,
        decreases ws@.len() - i,
    {
        assert(ws.deep_view()[i as int] == ws@[i as int]@);
        if str_eq(ws[i].as_str(), "x86_64") {
            intel = true;
        }
        if str_eq(ws[i].as_str(), "arm64") {
            arm = true;
        }
        i += 1;
    }
    assert(intel == ws.deep_view().contains("x86_64"@));
    assert(arm == ws.deep_view().contains("arm64"@));
    intel && arm
}

/// Whether an application is scanned: an `.app` folder that is not a
/// symbolic link, not Apple's, and not this application.
pub open spec fn scanned_app(path: Seq<char>, is_real_dir: bool, bundle_id: Seq<char>) -> bool {
    path_extension(path_comps(path)) == Some("app"@) && is_real_dir && !has_prefix(bundle_id, "com.apple."@)
        && bundle_id != "com.karimachi.burrow"@
}

/// Whether an application is scanned for universal binaries.
pub fn scans_app(path: &str, is_real_dir: bool, bundle_id: &str) -> (r: bool)
    ensures
        r == scanned_app(path@, is_real_dir, bundle_id@),
{
    has_extension(path, "app") && is_real_dir && !starts_with_str(bundle_id, "com.apple.") && !str_eq(
        bundle_id,
        "com.karimachi.burrow",
    )
}

/// An application holding universal binaries.
pub struct UniversalBinaryEntry {
    pub name: String,
    pub path: String,
    pub total_size_bytes: u64,
    pub reclaimable_bytes: u64,
    pub binary_count: usize,
    pub thinning_unsafe: bool,
    pub thinning_warning: String,
}

impl HasSize for UniversalBinaryEntry {
    open spec fn size_spec(&self) -> u64 {
        self.reclaimable_bytes
    }

    fn size(&self) -> (r: u64) {
        self.reclaimable_bytes
    }
}

/// The sum of `s`.
pub open spec fn sum_of(s: Seq<u64>) -> int
    decreases s.len(),
{
    if s.len() == 0 {
        0
    } else {
        sum_of(s.drop_last()) + s.last()
    }
}

proof fn lemma_sum_prefix(s: Seq<u64>, k: int)
    requires
        0 <= k <= s.len(),
    ensures
        0 <= sum_of(s.take(k)) <= sum_of(s),
    decreases s.len() - k,
{
    if k < s.len() {
        lemma_sum_prefix(s, k + 1);
        assert(s.take(k + 1).drop_last() =~= s.take(k));
    } else {
        assert(s.take(k) =~= s);
    }
    lemma_sum_nonneg(s.take(k));
}

proof fn lemma_sum_nonneg(s: Seq<u64>)
    ensures
        0 <= sum_of(s),
    decreases s.len(),
{
    if s.len() > 0 {
        lemma_sum_nonneg(s.drop_last());
    }
}

/// The warning shown with an application: App Store or provisioned
/// applications are never thinned; a broken signature must be repaired
/// first; otherwise how thinning proceeds.
pub open spec fn thinning_warning_of(app_store: bool, unsafe_: bool) -> Seq<char> {
    if app_store {
        "Application App Store ou provisionnée : l'identité de distribution est nécessaire à son fonctionnement. Amincissement refusé."@
    } else if unsafe_ {
        "Signature d’origine invalide ou absente. Réinstallez ou mettez à jour l’application avant de réessayer."@
    } else {
        "Burrow amincit une copie, la resigne localement si son enveloppe a changé, vérifie son intégrité, puis conserve l’original de l’éditeur dans la Corbeille."@
    }
}

/// The report for an application whose universal binaries have the sizes
/// `binary_sizes` (`binary_count` of them found); thinning is unsafe when
/// the signature does not verify or the application comes from the App
/// Store or a provisioning profile. Nothing when there is no binary.
pub fn universal_entry(
    app_path: &str,
    binary_count: usize,
    binary_sizes: &[u64],
    signature_valid: bool,
    app_store_or_provisioned: bool,
) -> (r: Option<UniversalBinaryEntry>)
    requires
        sum_of(binary_sizes@) <= u64::MAX,
    ensures
        binary_count == 0 ==> r is None,
        binary_count > 0 ==> r is Some && r->0.name@ == match path_stem(path_comps(app_path@)) {
            Some(stem) => stem,
            None => "Application"@,
        } && r->0.path@ == app_path@ && r->0.total_size_bytes == sum_of(binary_sizes@)
            && r->0.reclaimable_bytes == sum_of(binary_sizes@) / 2 && r->0.binary_count == binary_count
            && r->0.thinning_unsafe == (!signature_valid || app_store_or_provisioned)
            && r->0.thinning_warning@ == thinning_warning_of(
            app_store_or_provisioned,
            !signature_valid || app_store_or_provisioned,
        ),
{
    if binary_count == 0 {
        return None;
    }
    let mut total: u64 = 0;
    let mut i: usize = 0;
    while i < binary_sizes.len()
        invariant
            i <= binary_sizes@.len(),
            total == sum_of(binary_sizes@.take(i as int)),
            sum_of(binary_sizes@) <= u64::MAX,
        decreases binary_sizes@.len() - i,
    {
        assert(binary_sizes@.take(i + 1).drop_last() =~= binary_sizes@.take(i as int));
        proof {
            lemma_sum_prefix(binary_sizes@, i + 1);
        }
        total = total + binary_sizes[i];
        i += 1;
    }
    assert(binary_sizes@.take(i as int) =~= binary_sizes@);
    let thinning_unsafe = !signature_valid || app_store_or_provisioned;
    let warning = if app_store_or_provisioned {
        owned(
            "Application App Store ou provisionnée : l'identité de distribution est nécessaire à son fonctionnement. Amincissement refusé.",
        )
    } else if thinning_unsafe {
        owned("Signature d’origine invalide ou absente. Réinstallez ou mettez à jour l’application avant de réessayer.")
    } else {
        owned(
            "Burrow amincit une copie, la resigne localement si son enveloppe a changé, vérifie son intégrité, puis conserve l’original de l’éditeur dans la Corbeille.",
        )
    };
    let p = crate::paths::PathParts::parse(app_path);
    let name = match p.stem_range() {
        Some((a, b)) => crate::text::string_of_range(&p.chars, a, b),
        None => owned("Application"),
    };
    Some(
        UniversalBinaryEntry {
            name,
            path: owned(app_path),
            total_size_bytes: total,
            reclaimable_bytes: total / 2,
            binary_count,
            thinning_unsafe,
            thinning_warning: warning,
        },
    )
}

/// Applications, most space to reclaim first.
pub fn rank_universal_entries(found: Vec<UniversalBinaryEntry>) -> (r: Vec<UniversalBinaryEntry>)
    ensures
        r@ == ranked_by_size(found@, 0, usize::MAX as nat),
{
    rank_by_size(found, 0, usize::MAX)
}

/// The outcome of thinning an application.
pub struct ThinResult {
    pub bytes_saved: u64,
    pub binary_count: usize,
    pub original_in_trash: bool,
    pub locally_resigned: bool,
}

/// The outcome of a thinning that succeeded: the space saved (never
/// negative), with the original kept in the Trash.
pub fn thin_result(bytes_before: u64, bytes_after: u64, binary_count: usize, locally_resigned: bool) -> (r: ThinResult)
    ensures
        r.bytes_saved == (if bytes_before >= bytes_after { bytes_before - bytes_after } else { 0 }),
        r.binary_count == binary_count,
        r.original_in_trash,
        r.locally_resigned == locally_resigned,
{
    let bytes_saved = if bytes_before >= bytes_after {
        bytes_before - bytes_after
    } else {
        0
    };
    ThinResult { bytes_saved, binary_count, original_in_trash: true, locally_resigned }
}

} // verus!
