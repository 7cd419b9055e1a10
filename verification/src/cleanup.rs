//! Cleanup offers built from fixed catalogues: package-manager caches and
//! the caches of local AI tools. Each entry's location is fixed relative to
//! the home directory; an entry is offered when it holds something.
use vstd::prelude::*;
use crate::guard::{path_join, path_push};
use crate::text::push_str;

verus! {

/// A catalogue entry: `(id, label, location under home)`.
pub type CacheRow = (&'static str, &'static str, &'static str);

pub open spec fn cache_row_view(r: CacheRow) -> (Seq<char>, Seq<char>, Seq<char>) {
    (r.0@, r.1@, r.2@)
}

/// The entries of `rows` holding something (`sizes[i]` bytes for entry `i`,
/// missing sizes counting as 0): `(id, label, path, size)`.
pub open spec fn present_entries(
    rows: Seq<(Seq<char>, Seq<char>, Seq<char>)>,
    home: Seq<char>,
    sizes: Seq<u64>,
    k: int,
) -> Seq<(Seq<char>, Seq<char>, Seq<char>, u64)>
    decreases k,
{
    if k <= 0 {
        seq![]
    } else {
        let before = present_entries(rows, home, sizes, k - 1);
        let size: u64 = if k - 1 < sizes.len() { sizes[k - 1] } else { 0 };
        if size > 0 {
            before.push((rows[k - 1].0, rows[k - 1].1, path_push(home, rows[k - 1].2), size))
        } else {
            before
        }
    }
}

/// The size found at entry `i`, 0 when missing.
pub open spec fn size_at(sizes: Seq<u64>, i: int) -> u64 {
    if 0 <= i < sizes.len() {
        sizes[i]
    } else {
        0
    }
}

/// `e` is how entry `i` of `rows` is listed: its id and label, `home`
/// joined with its sub-path, and the non-zero size found there.
pub open spec fn lists_row(
    rows: Seq<(Seq<char>, Seq<char>, Seq<char>)>,
    home: Seq<char>,
    sizes: Seq<u64>,
    i: int,
    e: (Seq<char>, Seq<char>, Seq<char>, u64),
) -> bool {
    &&& 0 <= i < rows.len()
    &&& size_at(sizes, i) > 0
    &&& e == (rows[i].0, rows[i].1, path_push(home, rows[i].2), size_at(sizes, i))
}

/// `e` is how one of the first `k` entries is listed.
pub open spec fn from_some_row(
    rows: Seq<(Seq<char>, Seq<char>, Seq<char>)>,
    home: Seq<char>,
    sizes: Seq<u64>,
    k: int,
    e: (Seq<char>, Seq<char>, Seq<char>, u64),
) -> bool {
    exists|i: int| 0 <= i < k && #[trigger] lists_row(rows, home, sizes, i, e)
}

/// Law: among the first `k` entries, every cache listed is an entry of the
/// catalogue holding something, with its id, its label, the home joined
/// with its own sub-path and the size found; every entry holding something
/// is listed; and no more entries are listed than there are.
pub proof fn law_present_entries(
    rows: Seq<(Seq<char>, Seq<char>, Seq<char>)>,
    home: Seq<char>,
    sizes: Seq<u64>,
    k: int,
)
    requires
        0 <= k <= rows.len(),
    ensures
        present_entries(rows, home, sizes, k).len() <= k,
        forall|a: int|
            0 <= a < present_entries(rows, home, sizes, k).len() ==> from_some_row(
                rows,
                home,
                sizes,
                k,
                #[trigger] present_entries(rows, home, sizes, k)[a],
            ),
        forall|i: int|
            0 <= i < k && #[trigger] size_at(sizes, i) > 0 ==> present_entries(rows, home, sizes, k).contains(
                (rows[i].0, rows[i].1, path_push(home, rows[i].2), size_at(sizes, i)),
            ),
    decreases k,
{
    if k > 0 {
        law_present_entries(rows, home, sizes, k - 1);
        let before = present_entries(rows, home, sizes, k - 1);
        let now = present_entries(rows, home, sizes, k);
        let i = k - 1;
        let e = (rows[i].0, rows[i].1, path_push(home, rows[i].2), size_at(sizes, i));
        if size_at(sizes, i) > 0 {
            assert(now == before.push(e));
            assert(lists_row(rows, home, sizes, i, e));
        } else {
            assert(now == before);
        }
        assert forall|a: int|
            0 <= a < present_entries(rows, home, sizes, k).len() implies from_some_row(
                rows,
                home,
                sizes,
                k,
                #[trigger] present_entries(rows, home, sizes, k)[a],
            ) by {
            if a < before.len() {
                assert(now[a] == before[a]);
                assert(from_some_row(rows, home, sizes, k - 1, present_entries(rows, home, sizes, k - 1)[a]));
                let j = choose|j: int|
                    0 <= j < k - 1 && #[trigger] lists_row(rows, home, sizes, j, present_entries(rows, home, sizes, k - 1)[a]);
                assert(lists_row(rows, home, sizes, j, now[a]));
            } else {
                assert(now[a] == e);
                assert(lists_row(rows, home, sizes, i, now[a]));
            }
        }
        assert forall|j: int| 0 <= j < k && #[trigger] size_at(sizes, j) > 0 implies now.contains(
            (rows[j].0, rows[j].1, path_push(home, rows[j].2), size_at(sizes, j)),
        ) by {
            let ej = (rows[j].0, rows[j].1, path_push(home, rows[j].2), size_at(sizes, j));
            if j < k - 1 {
                assert(before.contains(ej));
                let a = choose|a: int| 0 <= a < before.len() && before[a] == ej;
                assert(now[a] == ej);
            } else {
                assert(now[before.len() as int] == ej);
            }
        }
    }
}

/// The catalogue of package-manager caches.
pub open spec fn dev_cache_item_table() -> Seq<(Seq<char>, Seq<char>, Seq<char>)> {
    seq![
        ("npm"@, "npm — Cache"@, ".npm"@),
        ("yarn"@, "Yarn — Cache"@, "Library/Caches/Yarn"@),
        ("pnpm"@, "pnpm — Store"@, "Library/pnpm/store"@),
        ("bun"@, "Bun — Cache"@, "Library/Caches/bun"@),
        ("brew"@, "Homebrew — Cache"@, "Library/Caches/Homebrew"@),
        ("pip"@, "pip — Cache"@, "Library/Caches/pip"@),
        ("cargo"@, "Cargo — Registry"@, ".cargo/registry/cache"@),
        ("gradle"@, "Gradle — Cache"@, ".gradle/caches"@),
        ("maven"@, "Maven — Repository"@, ".m2/repository"@),
        ("cocoapods"@, "CocoaPods — Cache"@, "Library/Caches/CocoaPods"@),
        ("spm"@, "Swift PM — Cache"@, "Library/Caches/org.swift.swiftpm"@),
    ]
}

/// The catalogue of package-manager caches.
pub fn dev_cache_item_rows() -> (v: Vec<CacheRow>)
    ensures
        v@.map_values(|x: CacheRow| cache_row_view(x)) == dev_cache_item_table(),
{
    let v: Vec<CacheRow> = vec![
        ("npm", "npm — Cache", ".npm"),
        ("yarn", "Yarn — Cache", "Library/Caches/Yarn"),
        ("pnpm", "pnpm — Store", "Library/pnpm/store"),
        ("bun", "Bun — Cache", "Library/Caches/bun"),
        ("brew", "Homebrew — Cache", "Library/Caches/Homebrew"),
        ("pip", "pip — Cache", "Library/Caches/pip"),
        ("cargo", "Cargo — Registry", ".cargo/registry/cache"),
        ("gradle", "Gradle — Cache", ".gradle/caches"),
        ("maven", "Maven — Repository", ".m2/repository"),
        ("cocoapods", "CocoaPods — Cache", "Library/Caches/CocoaPods"),
        ("spm", "Swift PM — Cache", "Library/Caches/org.swift.swiftpm"),
    ];
    assert(v@.map_values(|x: CacheRow| cache_row_view(x)) =~= dev_cache_item_table());
    v
}

/// The catalogue of local AI tools' caches.
pub open spec fn ai_cache_table() -> Seq<(Seq<char>, Seq<char>, Seq<char>)> {
    seq![
        ("ollama_logs"@, "Ollama — Logs"@, ".ollama/logs"@),
        ("ollama_cache"@, "Ollama — Cache"@, "Library/Caches/ollama"@),
        ("ollama_electron_cache"@, "Ollama — Cache Electron"@, "Library/Caches/com.electron.ollama"@),
        ("ollama_webkit"@, "Ollama — WebKit"@, "Library/WebKit/com.electron.ollama"@),
        ("ollama_state"@, "Ollama — État sauvegardé"@, "Library/Saved Application State/com.electron.ollama.savedState"@),
        ("lmstudio_logs"@, "LM Studio — Logs"@, ".lmstudio/server-logs"@),
        ("lmstudio_conv"@, "LM Studio — Conversations"@, ".lmstudio/conversations"@),
        ("anythingllm_cache"@, "AnythingLLM — Cache"@, "Library/Caches/com.electron.anythingllm"@),
        ("openwebui_cache"@, "Open WebUI — Cache"@, "Library/Caches/open-webui"@),
        ("cursor_cache"@, "Cursor — Cache"@, "Library/Caches/Cursor"@),
        ("cursor_logs"@, "Cursor — Logs"@, "Library/Logs/Cursor"@),
        ("copilot_cache"@, "GitHub Copilot — Cache"@, "Library/Caches/com.github.GitHubDesktop"@),
    ]
}

/// The catalogue of local AI tools' caches.
pub fn ai_cache_rows() -> (v: Vec<CacheRow>)
    ensures
        v@.map_values(|x: CacheRow| cache_row_view(x)) == ai_cache_table(),
{
    let v: Vec<CacheRow> = vec![
        ("ollama_logs", "Ollama — Logs", ".ollama/logs"),
        ("ollama_cache", "Ollama — Cache", "Library/Caches/ollama"),
        ("ollama_electron_cache", "Ollama — Cache Electron", "Library/Caches/com.electron.ollama"),
        ("ollama_webkit", "Ollama — WebKit", "Library/WebKit/com.electron.ollama"),
        ("ollama_state", "Ollama — État sauvegardé", "Library/Saved Application State/com.electron.ollama.savedState"),
        ("lmstudio_logs", "LM Studio — Logs", ".lmstudio/server-logs"),
        ("lmstudio_conv", "LM Studio — Conversations", ".lmstudio/conversations"),
        ("anythingllm_cache", "AnythingLLM — Cache", "Library/Caches/com.electron.anythingllm"),
        ("openwebui_cache", "Open WebUI — Cache", "Library/Caches/open-webui"),
        ("cursor_cache", "Cursor — Cache", "Library/Caches/Cursor"),
        ("cursor_logs", "Cursor — Logs", "Library/Logs/Cursor"),
        ("copilot_cache", "GitHub Copilot — Cache", "Library/Caches/com.github.GitHubDesktop"),
    ];
    assert(v@.map_values(|x: CacheRow| cache_row_view(x)) =~= ai_cache_table());
    v
}

/// A package-manager cache found under the home directory.
pub struct DevCacheItem {
    pub id: String,
    pub label: String,
    pub path: String,
    pub size_bytes: u64,
}

/// The catalogue entries holding something under `home`, given the size
/// found at each entry's location (in catalogue order).
pub fn dev_cache_items(home: &str, sizes: &[u64]) -> (r: Vec<DevCacheItem>)
    ensures
        r@.map_values(|x: DevCacheItem| (x.id@, x.label@, x.path@, x.size_bytes)) == present_entries(
            dev_cache_item_table(),
            home@,
            sizes@,
            dev_cache_item_table().len() as int,
        ),
{
    let rows = dev_cache_item_rows();
    let ghost rv = rows@.map_values(|x: CacheRow| cache_row_view(x));
    assert(rv == dev_cache_item_table());
    let mut out: Vec<DevCacheItem> = Vec::new();
    let mut i: usize = 0;
    while i < rows.len()
        invariant
            rv == rows@.map_values(|x: CacheRow| cache_row_view(x)),
            i <= rows@.len(),
            out@.map_values(|x: DevCacheItem| (x.id@, x.label@, x.path@, x.size_bytes)) == present_entries(rv, home@, sizes@, i as int),
        decreases rows@.len() - i,
    {
        let row = rows[i];
        assert(cache_row_view(row) == rv[i as int]);
        let size: u64 = if i < sizes.len() { sizes[i] } else { 0 };
        if size > 0 {
            let mut id = String::new();
            push_str(&mut id, row.0);
            let mut label = String::new();
            push_str(&mut label, row.1);
            let path = path_join(home, row.2);
            let ghost before = out@.map_values(|x: DevCacheItem| (x.id@, x.label@, x.path@, x.size_bytes));
            out.push(DevCacheItem { id, label, path, size_bytes: size });
            assert(out@.map_values(|x: DevCacheItem| (x.id@, x.label@, x.path@, x.size_bytes)) =~= before.push(
                (row.0@, row.1@, path_push(home@, row.2@), size),
            ));
        }
        i += 1;
    }
    assert(rows@.len() == rv.len());
    out
}

/// A local AI tool's cache found under the home directory.
pub struct AiCacheItem {
    pub id: String,
    pub label: String,
    pub path: String,
    pub size_bytes: u64,
}

/// The catalogue entries holding something under `home`, given the size
/// found at each entry's location (in catalogue order).
pub fn ai_cache_items(home: &str, sizes: &[u64]) -> (r: Vec<AiCacheItem>)
    ensures
        r@.map_values(|x: AiCacheItem| (x.id@, x.label@, x.path@, x.size_bytes)) == present_entries(
            ai_cache_table(),
            home@,
            sizes@,
            ai_cache_table().len() as int,
        ),
{
    let rows = ai_cache_rows();
    let ghost rv = rows@.map_values(|x: CacheRow| cache_row_view(x));
    assert(rv == ai_cache_table());
    let mut out: Vec<AiCacheItem> = Vec::new();
    let mut i: usize = 0;
    while i < rows.len()
        invariant
            rv == rows@.map_values(|x: CacheRow| cache_row_view(x)),
            i <= rows@.len(),
            out@.map_values(|x: AiCacheItem| (x.id@, x.label@, x.path@, x.size_bytes)) == present_entries(rv, home@, sizes@, i as int),
        decreases rows@.len() - i,
    {
        let row = rows[i];
        assert(cache_row_view(row) == rv[i as int]);
        let size: u64 = if i < sizes.len() { sizes[i] } else { 0 };
        if size > 0 {
            let mut id = String::new();
            push_str(&mut id, row.0);
            let mut label = String::new();
            push_str(&mut label, row.1);
            let path = path_join(home, row.2);
            let ghost before = out@.map_values(|x: AiCacheItem| (x.id@, x.label@, x.path@, x.size_bytes));
            out.push(AiCacheItem { id, label, path, size_bytes: size });
            assert(out@.map_values(|x: AiCacheItem| (x.id@, x.label@, x.path@, x.size_bytes)) =~= before.push(
                (row.0@, row.1@, path_push(home@, row.2@), size),
            ));
        }
        i += 1;
    }
    assert(rows@.len() == rv.len());
    out
}

} // verus!
