//! Collected update checks: which applications can be checked through an
//! update feed, which ones the Mac App Store knows, and how the outcomes of
//! the checks are gathered into the lists shown.
use vstd::prelude::*;
use crate::brew::UpToDateApp;
use crate::order::{HasName, by_key, items_of, named, sort_by_name};
use crate::text::{
    owned, chars_of, has_prefix, lowercase, push_str, split_char, split_on, starts_with_str, str_eq,
    string_of_range, to_lowercase, trim, trim_bounds, byte_len, byte_len_of, lemma_byte_len_ge_len, is_ws,
    is_whitespace,
};
use crate::updates::{SparkleUpdate, newer_version, version_gt};
use crate::json::{JsonValue, as_items, as_text, as_whole, field, get, items, or_blank, text, text_or_blank, whole};

verus! {

impl HasName for SparkleUpdate {
    open spec fn name_spec(&self) -> Seq<char> {
        self.name@
    }

    fn name_of(&self) -> (r: String) {
        self.name.clone()
    }
}

impl HasName for UpToDateApp {
    open spec fn name_spec(&self) -> Seq<char> {
        self.name@
    }

    fn name_of(&self) -> (r: String) {
        self.name.clone()
    }
}

fn trimmed(s: &str) -> (r: String)
    ensures
        r@ == trim(s@),
{
    let v = chars_of(s);
    let (a, b) = trim_bounds(&v);
    string_of_range(&v, a, b)
}

// ── Gathering outcomes ──────────────────────────────────────────────────────

/// The updates found among the outcomes `(name, installed version, update)`.
pub open spec fn found_updates<U>(s: Seq<(String, String, Option<U>)>) -> Seq<U>
    decreases s.len(),
{
    if s.len() == 0 {
        seq![]
    } else {
        match s.last().2 {
            Some(u) => found_updates(s.drop_last()).push(u),
            None => found_updates(s.drop_last()),
        }
    }
}

/// The applications found up to date among the outcomes.
pub open spec fn found_current<U>(s: Seq<(String, String, Option<U>)>) -> Seq<UpToDateApp>
    decreases s.len(),
{
    if s.len() == 0 {
        seq![]
    } else {
        match s.last().2 {
            Some(_) => found_current(s.drop_last()),
            None => found_current(s.drop_last()).push(
                UpToDateApp { name: s.last().0, current_version: s.last().1 },
            ),
        }
    }
}

/// Splits the outcomes into updates and applications up to date, each in
/// the order of the outcomes.
pub fn split_outcomes<U>(outcomes: Vec<(String, String, Option<U>)>) -> (r: (Vec<U>, Vec<UpToDateApp>))
    ensures
        r.0@ == found_updates(outcomes@),
        r.1@ == found_current(outcomes@),
{
    let ghost input = outcomes@;
    let mut rest = outcomes;
    let n: usize = rest.len();
    let mut updates: Vec<U> = Vec::new();
    let mut current: Vec<UpToDateApp> = Vec::new();
    let mut k: usize = 0;
    while rest.len() > 0
        invariant
            rest@ == input.skip(k as int),
            k <= input.len(),
            input.len() == n,
            updates@ == found_updates(input.take(k as int)),
            current@ == found_current(input.take(k as int)),
        decreases rest@.len(),
    {
        let (name, current_version, update) = rest.remove(0);
        proof {
            assert(input.skip(k as int).remove(0) =~= input.skip(k + 1));
            assert(input.take(k + 1).drop_last() =~= input.take(k as int));
        }
        match update {
            Some(u) => {
                updates.push(u);
            },
            None => {
                current.push(UpToDateApp { name, current_version });
            },
        }
        k += 1;
    }
    assert(input.take(k as int) =~= input);
    (updates, current)
}

// ── Update feeds ────────────────────────────────────────────────────────────

/// The result of checking applications against their update feeds.
pub struct SparkleResult {
    pub updates: Vec<SparkleUpdate>,
    pub up_to_date: Vec<UpToDateApp>,
    pub checked: usize,
}

/// Whether an application can be checked for updates: it has an
/// `Info.plist` and either an update feed over HTTP(S), an
/// electron-updater manifest, or the DevMate framework.
pub open spec fn feed_checkable(
    has_info_plist: bool,
    feed_url: Option<Seq<char>>,
    has_update_manifest: bool,
    has_devmate: bool,
) -> bool {
    has_info_plist && ((feed_url matches Some(u) && has_prefix(u, "http"@)) || has_update_manifest
        || has_devmate)
}

/// Whether an application can be checked for updates.
pub fn sparkle_checkable(
    has_info_plist: bool,
    feed_url: Option<&str>,
    has_update_manifest: bool,
    has_devmate: bool,
) -> (r: bool)
    ensures
        r == feed_checkable(
            has_info_plist,
            match feed_url {
                Some(u) => Some(u@),
                None => None,
            },
            has_update_manifest,
            has_devmate,
        ),
{
    if !has_info_plist {
        return false;
    }
    let feed_ok = match feed_url {
        Some(u) => starts_with_str(u, "http"),
        None => false,
    };
    feed_ok || has_update_manifest || has_devmate
}

/// Gathers the outcomes of the feed checks: updates and applications up to
/// date, each ordered by name.
pub fn sparkle_result(outcomes: Vec<(String, String, Option<SparkleUpdate>)>, checked: usize) -> (r: SparkleResult)
    ensures
        r.updates@ == items_of(by_key(named(found_updates(outcomes@)))),
        r.up_to_date@ == items_of(by_key(named(found_current(outcomes@)))),
        r.checked == checked,
{
    let (updates, current) = split_outcomes(outcomes);
    SparkleResult { updates: sort_by_name(updates), up_to_date: sort_by_name(current), checked }
}

// ── Mac App Store ───────────────────────────────────────────────────────────

/// An update offered by the Mac App Store.
pub struct AppStoreUpdate {
    pub name: String,
    pub bundle_id: String,
    pub installed_version: String,
    pub latest_version: String,
    pub release_notes: String,
    pub store_url: String,
    pub track_id: u64,
    /// Installed through the App Store, so that it can update it.
    pub from_store: bool,
}

impl HasName for AppStoreUpdate {
    open spec fn name_spec(&self) -> Seq<char> {
        self.name@
    }

    fn name_of(&self) -> (r: String) {
        self.name.clone()
    }
}

/// The result of checking the Mac App Store.
pub struct AppStoreResult {
    pub updates: Vec<AppStoreUpdate>,
    pub up_to_date: Vec<UpToDateApp>,
    pub checked: usize,
}

/// The store's country, from the `AppleLocale` preference (`fr_FR` gives
/// `fr`): the lower-cased part after the first `_`, else `us`.
pub open spec fn country_of(locale: Option<Seq<char>>) -> Seq<char> {
    match locale {
        Some(l) => {
            let parts = split_on(trim(l), '_');
            if parts.len() > 1 {
                lowercase(parts[1])
            } else {
                "us"@
            }
        },
        None => "us"@,
    }
}

/// The store's country, from the `AppleLocale` preference when it could be
/// read.
pub fn store_country(locale: Option<&str>) -> (r: String)
    ensures
        r@ == country_of(
            match locale {
                Some(l) => Some(l@),
                None => None,
            },
        ),
{
    match locale {
        Some(l) => {
            let t = trimmed(l);
            let parts = split_char(t.as_str(), '_');
            if parts.len() > 1 {
                to_lowercase(parts[1].as_str())
            } else {
                owned("us")
            }
        },
        None => owned("us"),
    }
}

/// Whether an application installed from the store is checked: not one of
/// Apple's own, and not this application.
pub open spec fn store_checked(name: Seq<char>, bundle_id: Seq<char>) -> bool {
    !has_prefix(bundle_id, "com.apple."@) && name != "Burrow"@
}

/// Whether an application installed from the store is checked.
pub fn app_store_candidate(name: &str, bundle_id: &str) -> (r: bool)
    ensures
        r == store_checked(name@, bundle_id@),
{
    !starts_with_str(bundle_id, "com.apple.") && !str_eq(name, "Burrow")
}

/// The store's lookup address for a bundle, with the given kind of entity
/// and country.
pub open spec fn lookup_url_of(bundle_id: Seq<char>, entity: Seq<char>, country: Seq<char>) -> Seq<char> {
    "https://itunes.apple.com/lookup?bundleId="@ + bundle_id + "&entity="@ + entity + "&country="@
        + country
}

/// The store's lookup address.
pub fn app_store_lookup_url(bundle_id: &str, entity: &str, country: &str) -> (r: String)
    ensures
        r@ == lookup_url_of(bundle_id@, entity@, country@),
{
    let mut r = owned("https://itunes.apple.com/lookup?bundleId=");
    push_str(&mut r, bundle_id);
    push_str(&mut r, "&entity=");
    push_str(&mut r, entity);
    push_str(&mut r, "&country=");
    push_str(&mut r, country);
    r
}

/// The update the store offers for an application, from the first result
/// of its lookup: only when the store's version is newer; the release notes
/// trimmed.
pub fn app_store_update(
    name: &str,
    bundle_id: &str,
    installed: &str,
    latest: &str,
    release_notes: &str,
    store_url: &str,
    track_id: u64,
) -> (r: Option<AppStoreUpdate>)
    ensures
        newer_version(latest@, installed@) ==> r is Some && r->0.name@ == name@ && r->0.bundle_id@
            == bundle_id@ && r->0.installed_version@ == installed@ && r->0.latest_version@ == latest@
            && r->0.release_notes@ == trim(release_notes@) && r->0.store_url@ == store_url@
            && r->0.track_id == track_id && r->0.from_store,
        !newer_version(latest@, installed@) ==> r is None,
{
    if !version_gt(latest, installed) {
        return None;
    }
    Some(
        AppStoreUpdate {
            name: owned(name),
            bundle_id: owned(bundle_id),
            installed_version: owned(installed),
            latest_version: owned(latest),
            release_notes: trimmed(release_notes),
            store_url: owned(store_url),
            track_id,
            from_store: true,
        },
    )
}

/// Gathers the outcomes of the store checks: updates and applications up
/// to date, each ordered by name.
pub fn app_store_result(outcomes: Vec<(String, String, Option<AppStoreUpdate>)>, checked: usize) -> (r: AppStoreResult)
    ensures
        r.updates@ == items_of(by_key(named(found_updates(outcomes@)))),
        r.up_to_date@ == items_of(by_key(named(found_current(outcomes@)))),
        r.checked == checked,
{
    let (updates, current) = split_outcomes(outcomes);
    AppStoreResult { updates: sort_by_name(updates), up_to_date: sort_by_name(current), checked }
}

/// Whether a store page may be opened: an HTTPS address on the App Store or
/// iTunes host, at most 2048 bytes, with no whitespace and no NUL character.
pub open spec fn store_url_ok(url: Seq<char>) -> bool {
    &&& (has_prefix(url, "https://apps.apple.com/"@) || has_prefix(url, "https://itunes.apple.com/"@))
    &&& byte_len(url) <= 2048
    &&& forall|i: int| 0 <= i < url.len() ==> !is_ws(#[trigger] url[i]) && url[i] != '\0'
}

/// Whether a store page may be opened.
pub fn store_url_allowed(url: &str) -> (r: bool)
    ensures
        r == store_url_ok(url@),
{
    if !starts_with_str(url, "https://apps.apple.com/") && !starts_with_str(url, "https://itunes.apple.com/") {
        return false;
    }
    let v = chars_of(url);
    let n = v.len();
    proof {
        lemma_byte_len_ge_len(url@);
        assert(v@.subrange(0, n as int) =~= v@);
    }
    if n > 2048 || byte_len_of(&v, 0, n) > 2048 {
        return false;
    }
    let mut i: usize = 0;
    while i < n
        invariant
            n == v@.len(),
            v@ == url@,
            i <= n,
            forall|j: int| 0 <= j < i ==> !is_ws(#[trigger] v@[j]) && v@[j] != '\0',
        decreases n - i,
    {
        if is_whitespace(v[i]) || v[i] == '\0' {
            return false;
        }
        i += 1;
    }
    true
}


// ── The store's lookup reply ────────────────────────────────────────────────

/// The results of an iTunes lookup reply, when there are some.
pub open spec fn store_results(doc: JsonValue) -> Option<Seq<JsonValue>> {
    match items(field(doc, "results"@)) {
        Some(a) => if a.len() > 0 {
            Some(a)
        } else {
            None
        },
        None => None,
    }
}

/// Whether a lookup reply holds results (else the next kind of software is
/// looked up).
pub fn store_has_results(doc: &JsonValue) -> (r: bool)
    ensures
        r == (store_results(*doc) is Some),
{
    match as_items(get(doc, "results")) {
        Some(a) => a.len() > 0,
        None => false,
    }
}

/// What the store offers for an application: the version, release notes and
/// page of its first result, and its identifier.
pub struct StoreOffer {
    pub version: String,
    pub release_notes: String,
    pub store_url: String,
    pub track_id: u64,
}

/// The offer of a lookup reply: from its first result, only when that has a
/// version; notes and page empty and identifier 0 when missing.
pub open spec fn store_offer_of(doc: JsonValue) -> Option<(Seq<char>, Seq<char>, Seq<char>, u64)> {
    match store_results(doc) {
        None => None,
        Some(a) => match text(field(a[0], "version"@)) {
            None => None,
            Some(v) => Some(
                (
                    v,
                    or_blank(text(field(a[0], "releaseNotes"@))),
                    or_blank(text(field(a[0], "trackViewUrl"@))),
                    match whole(field(a[0], "trackId"@)) {
                        Some(n) => n,
                        None => 0,
                    },
                ),
            ),
        },
    }
}

/// The offer of a lookup reply.
pub fn store_offer(doc: &JsonValue) -> (r: Option<StoreOffer>)
    ensures
        match store_offer_of(*doc) {
            Some((v, n, u, t)) => r matches Some(o) && o.version@ == v && o.release_notes@ == n
                && o.store_url@ == u && o.track_id == t,
            None => r is None,
        },
{
    let a = match as_items(get(doc, "results")) {
        Some(a) => a,
        None => return None,
    };
    if a.len() == 0 {
        return None;
    }
    let first = &a[0];
    let version = match as_text(get(first, "version")) {
        Some(v) => owned(v),
        None => return None,
    };
    let track_id = match as_whole(get(first, "trackId")) {
        Some(n) => n,
        None => 0,
    };
    Some(StoreOffer {
        version,
        release_notes: text_or_blank(first, "releaseNotes"),
        store_url: text_or_blank(first, "trackViewUrl"),
        track_id,
    })
}


} // verus!
