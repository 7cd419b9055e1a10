//! Homebrew: what `brew list --versions` prints, which installed packages are
//! up to date, the names under which an application may be published as a
//! cask, and the checks made before a cask is updated.
use vstd::prelude::*;
use crate::guard::{brew_token_valid, update_url_outcome, validate_brew_token, validate_update_url};
use crate::paths::chars_lt;
use crate::updates::{newer_version, version_gt};
use crate::json::{JsonValue, as_items, as_text, field, get, items, or_blank, text, text_or_blank, deref_opt};
use crate::text::{
    owned, chars_of, first_index, is_blank, is_ws, is_whitespace, lead_ws, lemma_first_index, lines_of,
    lowercase, push_char, push_str, split_on, str_eq, str_lines, string_of_range, to_lowercase, trim,
    trim_bounds, all_whitespace, split_char, replace_char, replace_all, has_prefix, starts_with_str,
};

verus! {

/// An installed package with a newer version available.
pub struct BrewOutdated {
    pub name: String,
    pub installed_version: String,
    pub current_version: String,
    pub download_url: String,
    pub brew_managed: bool,
}

/// An installed package that is up to date.
pub struct UpToDateApp {
    pub name: String,
    pub current_version: String,
}

/// The result of checking casks: updates, brew-managed casks up to date,
/// other applications known to the cask catalogue and up to date, and how
/// many were checked.
pub struct BrewResult {
    pub updates: Vec<BrewOutdated>,
    pub up_to_date: Vec<UpToDateApp>,
    pub up_to_date_cask: Vec<UpToDateApp>,
    pub checked: usize,
}

/// The result of checking formulae.
pub struct BrewFormulaResult {
    pub updates: Vec<BrewOutdated>,
    pub up_to_date: Vec<UpToDateApp>,
    pub checked: usize,
}

// ── brew list --versions ────────────────────────────────────────────────────

/// A line of `brew list --versions`: the name before the first space and
/// the versions after it, both trimmed.
pub open spec fn name_and_versions(l: Seq<char>) -> (Seq<char>, Seq<char>) {
    let k = first_index(l, |c: char| c == ' ');
    if k < l.len() {
        (trim(l.take(k)), trim(l.skip(k + 1)))
    } else {
        (trim(l), seq![])
    }
}

/// The packages `brew list --versions` lists, from line `k` on (blank lines
/// skipped).
pub open spec fn listed_packages(ls: Seq<Seq<char>>, k: int) -> Seq<(Seq<char>, Seq<char>)>
    decreases ls.len() - k,
{
    if k < 0 || k >= ls.len() {
        seq![]
    } else if is_blank(ls[k]) {
        listed_packages(ls, k + 1)
    } else {
        seq![name_and_versions(ls[k])] + listed_packages(ls, k + 1)
    }
}

/// The trimmed text of `v[a..b]`.
fn trimmed(v: &Vec<char>, a: usize, b: usize) -> (r: String)
    requires
        a <= b <= v@.len(),
    ensures
        r@ == trim(v@.subrange(a as int, b as int)),
{
    let piece = string_of_range(v, a, b);
    let pv = chars_of(piece.as_str());
    let (c, d) = trim_bounds(&pv);
    string_of_range(&pv, c, d)
}

/// The packages `brew list --versions` lists: `(name, versions)`.
pub fn parse_installed_versions(out: &str) -> (r: Vec<(String, String)>)
    ensures
        r@.map_values(|p: (String, String)| (p.0@, p.1@)) == listed_packages(str_lines(out@), 0),
{
    let ls = lines_of(out);
    let ghost lv = ls.deep_view();
    let mut res: Vec<(String, String)> = Vec::new();
    let mut k: usize = 0;
    while k < ls.len()
        invariant
            lv == ls.deep_view(),
            lv == str_lines(out@),
            k <= lv.len(),
            res@.map_values(|p: (String, String)| (p.0@, p.1@)) + listed_packages(lv, k as int) == listed_packages(lv, 0),
        decreases lv.len() - k,
    {
        let v = chars_of(ls[k].as_str());
        assert(v@ == lv[k as int]);
        if !all_whitespace(&v) {
            let n = v.len();
            let mut s: usize = 0;
            while s < n && v[s] != ' '
                invariant
                    n == v@.len(),
                    s <= n,
                    forall|j: int| 0 <= j < s ==> v@[j] != ' ',
                decreases n - s,
            {
                s += 1;
            }
            proof {
                lemma_first_index(v@, |c: char| c == ' ', s as int);
            }
            let pair = if s < n {
                assert(v@.take(s as int) =~= v@.subrange(0, s as int));
                assert(v@.skip(s + 1) =~= v@.subrange(s + 1, n as int));
                (trimmed(&v, 0, s), trimmed(&v, s + 1, n))
            } else {
                assert(v@ =~= v@.subrange(0, n as int));
                (trimmed(&v, 0, n), String::new())
            };
            let ghost before = res@.map_values(|p: (String, String)| (p.0@, p.1@));
            res.push(pair);
            assert(res@.map_values(|p: (String, String)| (p.0@, p.1@)) =~= before.push(name_and_versions(lv[k as int])));
            assert(before.push(name_and_versions(lv[k as int])) + listed_packages(lv, k + 1) =~= before + (seq![
                name_and_versions(lv[k as int]),
            ] + listed_packages(lv, k + 1)));
        }
        k += 1;
    }
    assert(res@.map_values(|p: (String, String)| (p.0@, p.1@)) + Seq::<(Seq<char>, Seq<char>)>::empty() =~= res@.map_values(
        |p: (String, String)| (p.0@, p.1@),
    ));
    res
}

/// The installed packages not among `outdated`, with their versions.
pub open spec fn up_to_date_among(
    installed: Seq<(Seq<char>, Seq<char>)>,
    outdated: Seq<Seq<char>>,
) -> Seq<(Seq<char>, Seq<char>)> {
    installed.filter(|p: (Seq<char>, Seq<char>)| !outdated.contains(p.0))
}

/// Law: every package reported up to date is an installed one (with its
/// installed version) that is not named among the outdated, and every
/// installed package not named among the outdated is reported.
pub proof fn law_up_to_date_complement(installed: Seq<(Seq<char>, Seq<char>)>, outdated: Seq<Seq<char>>)
    ensures
        forall|i: int|
            0 <= i < up_to_date_among(installed, outdated).len() ==> !outdated.contains(
                #[trigger] up_to_date_among(installed, outdated)[i].0,
            ) && installed.contains(up_to_date_among(installed, outdated)[i]),
        forall|j: int|
            0 <= j < installed.len() && !outdated.contains(installed[j].0) ==> up_to_date_among(
                installed,
                outdated,
            ).contains(#[trigger] installed[j]),
{
    let keep = |q: (Seq<char>, Seq<char>)| !outdated.contains(q.0);
    let kept = up_to_date_among(installed, outdated);
    assert(kept == installed.filter(keep));
    assert forall|i: int| 0 <= i < kept.len() implies !outdated.contains(#[trigger] kept[i].0) && installed.contains(
        kept[i],
    ) by {
        installed.lemma_filter_pred(keep, i);
        assert(kept.contains(kept[i]));
        installed.lemma_filter_contains_rev(keep, kept[i]);
    }
    assert forall|j: int| 0 <= j < installed.len() && !outdated.contains(installed[j].0) implies kept.contains(
        #[trigger] installed[j],
    ) by {
        installed.lemma_filter_contains(keep, j);
    }
}

/// The installed packages that no update is listed for.
pub fn up_to_date_packages(installed: &Vec<(String, String)>, outdated: &Vec<String>) -> (r: Vec<UpToDateApp>)
    ensures
        r@.map_values(|u: UpToDateApp| (u.name@, u.current_version@)) == up_to_date_among(
            installed@.map_values(|p: (String, String)| (p.0@, p.1@)),
            outdated.deep_view(),
        ),
{
    let ghost iv = installed@.map_values(|p: (String, String)| (p.0@, p.1@));
    let ghost ov = outdated.deep_view();
    let ghost pred = |p: (Seq<char>, Seq<char>)| !ov.contains(p.0);
    let mut res: Vec<UpToDateApp> = Vec::new();
    let mut k: usize = 0;
    while k < installed.len()
        invariant
            iv == installed@.map_values(|p: (String, String)| (p.0@, p.1@)),
            ov == outdated.deep_view(),
            pred == (|p: (Seq<char>, Seq<char>)| !ov.contains(p.0)),
            k <= iv.len(),
            res@.map_values(|u: UpToDateApp| (u.name@, u.current_version@)) == iv.take(k as int).filter(pred),
        decreases iv.len() - k,
    {
        let (n, v) = &installed[k];
        let mut listed = false;
        let mut j: usize = 0;
        while j < outdated.len()
            invariant
                ov == outdated.deep_view(),
                j <= ov.len(),
                listed == exists|i: int| 0 <= i < j && #[trigger] ov[i] == n@,
            decreases ov.len() - j,
        {
            assert(ov[j as int] == outdated@[j as int]@);
            if str_eq(outdated[j].as_str(), n.as_str()) {
                listed = true;
            }
            j += 1;
        }
        proof {
            if ov.contains(n@) {
                let i = choose|i: int| 0 <= i < ov.len() && ov[i] == n@;
                assert(ov[i] == n@);
            }
        }
        let ghost before = res@.map_values(|u: UpToDateApp| (u.name@, u.current_version@));
        assert(iv.take(k + 1).drop_last() =~= iv.take(k as int));
        assert(iv.take(k + 1).last() == iv[k as int]);
        proof {
            reveal(Seq::filter);
        }
        if !listed {
            let mut name = String::new();
            push_str(&mut name, n.as_str());
            let mut ver = String::new();
            push_str(&mut ver, v.as_str());
            res.push(UpToDateApp { name, current_version: ver });
            assert(res@.map_values(|u: UpToDateApp| (u.name@, u.current_version@)) =~= before.push((n@, v@)));
        }
        k += 1;
    }
    assert(iv.take(iv.len() as int) =~= iv);
    res
}

// ── Versions and names ──────────────────────────────────────────────────────

/// The last whitespace-separated word of `s`, or `s` when it has none
/// (`split_whitespace().last().unwrap_or(s)`).
pub open spec fn last_word(s: Seq<char>) -> Seq<char> {
    let t = trim(s);
    if t.len() == 0 {
        s
    } else {
        t.skip(last_ws_index(t) + 1)
    }
}

/// The index of the last whitespace character of `t`, or -1.
pub open spec fn last_ws_index(t: Seq<char>) -> int
    decreases t.len(),
{
    if t.len() == 0 {
        -1
    } else if is_ws(t.last()) {
        t.len() - 1
    } else {
        last_ws_index(t.drop_last())
    }
}

proof fn lemma_last_ws_index(t: Seq<char>)
    ensures
        -1 <= last_ws_index(t) < t.len(),
        last_ws_index(t) >= 0 ==> is_ws(t[last_ws_index(t)]),
        forall|i: int| last_ws_index(t) < i < t.len() ==> !#[trigger] is_ws(t[i]),
    decreases t.len(),
{
    if t.len() > 0 && !is_ws(t.last()) {
        lemma_last_ws_index(t.drop_last());
        assert forall|i: int| last_ws_index(t) < i < t.len() implies !#[trigger] is_ws(t[i]) by {
            if i < t.len() - 1 {
                assert(t[i] == t.drop_last()[i]);
            }
        }
    }
}

proof fn lemma_last_ws_unique(t: Seq<char>, k: int)
    requires
        -1 <= k < t.len(),
        k >= 0 ==> is_ws(t[k]),
        forall|i: int| k < i < t.len() ==> !#[trigger] is_ws(t[i]),
    ensures
        last_ws_index(t) == k,
{
    lemma_last_ws_index(t);
    if last_ws_index(t) < k {
        assert(!is_ws(t[k]));
    }
    if last_ws_index(t) > k {
        assert(!is_ws(t[last_ws_index(t)]));
    }
}

/// The last word of a version list.
pub fn last_word_of(s: &str) -> (r: String)
    ensures
        r@ == last_word(s@),
{
    let v = chars_of(s);
    let (a, b) = trim_bounds(&v);
    if a == b {
        let mut r = String::new();
        push_str(&mut r, s);
        assert(r@ =~= s@);
        return r;
    }
    let ghost t = v@.subrange(a as int, b as int);
    let mut k = b;
    while k > a && !is_whitespace(v[k - 1])
        invariant
            a <= k <= b <= v@.len(),
            t == v@.subrange(a as int, b as int),
            forall|i: int| k - a <= i < t.len() ==> !#[trigger] is_ws(t[i]),
        decreases k,
    {
        assert(t[k - 1 - a] == v@[k - 1]);
        k -= 1;
    }
    proof {
        if k > a {
            assert(t[k - 1 - a] == v@[k - 1]);
            lemma_last_ws_unique(t, k - 1 - a);
        } else {
            lemma_last_ws_unique(t, -1);
        }
        assert(t.skip(k - a) =~= v@.subrange(k as int, b as int));
    }
    string_of_range(&v, k, b)
}

/// The version a cask catalogue announces: what precedes the first comma.
pub open spec fn cask_version(raw: Seq<char>) -> Seq<char> {
    split_on(raw, ',')[0]
}

/// The version part of a catalogue version string.
pub fn cask_version_of(raw: &str) -> (r: String)
    ensures
        r@ == cask_version(raw@),
{
    let parts = split_char(raw, ',');
    assert(parts.deep_view().len() == parts@.len());
    assert(split_on(raw@, ',').len() >= 1);
    let first = &parts[0];
    let mut r = String::new();
    push_str(&mut r, first.as_str());
    assert(r@ =~= parts@[0]@);
    r
}


/// The cask tokens an application may be published under: its name in lower
/// case, with spaces turned into dashes, and with spaces removed.
pub open spec fn cask_token_candidates(app_name: Seq<char>) -> Seq<Seq<char>> {
    let low = lowercase(app_name);
    seq![low, replace_char(low, ' ', "-"@), replace_char(low, ' ', ""@)]
}

/// The cask tokens to look an application up by, in order.
pub fn cask_tokens_for(app_name: &str) -> (r: Vec<String>)
    ensures
        r.deep_view() == cask_token_candidates(app_name@),
{
    let low = to_lowercase(app_name);
    let dashed = replace_all(low.as_str(), ' ', "-");
    let joined = replace_all(low.as_str(), ' ', "");
    let r = vec![low, dashed, joined];
    assert(r.deep_view() =~= cask_token_candidates(app_name@));
    r
}

/// What an update shows: `(name, installed, current, url, brew-managed)`.
pub type UpdateView = (Seq<char>, Seq<char>, Seq<char>, Seq<char>, bool);

pub open spec fn update_view(u: BrewOutdated) -> UpdateView {
    (u.name@, u.installed_version@, u.current_version@, u.download_url@, u.brew_managed)
}

/// Where an update named `x` goes in `s`: after every update whose name is
/// not larger.
pub open spec fn name_pos(s: Seq<UpdateView>, x: Seq<char>, j: int) -> int
    decreases s.len() - j,
{
    if j < 0 || j >= s.len() {
        s.len() as int
    } else if chars_lt(x, s[j].0) {
        j
    } else {
        name_pos(s, x, j + 1)
    }
}

/// `s` sorted by name (`str::cmp`), updates of equal names kept in order
/// (`sort_by` is stable).
pub open spec fn sorted_by_name(s: Seq<UpdateView>) -> Seq<UpdateView>
    decreases s.len(),
{
    if s.len() == 0 {
        s
    } else {
        let r = sorted_by_name(s.drop_last());
        r.insert(name_pos(r, s.last().0, 0), s.last())
    }
}

proof fn lemma_name_pos_facts(s: Seq<UpdateView>, x: Seq<char>, j: int)
    requires
        0 <= j <= s.len(),
    ensures
        j <= name_pos(s, x, j) <= s.len(),
        forall|k: int| j <= k < name_pos(s, x, j) ==> !chars_lt(x, s[k].0),
        name_pos(s, x, j) < s.len() ==> chars_lt(x, s[name_pos(s, x, j)].0),
    decreases s.len() - j,
{
    if j < s.len() && !chars_lt(x, s[j].0) {
        lemma_name_pos_facts(s, x, j + 1);
    }
}

/// Law: sorting the updates by name leaves no name before a smaller one and keeps exactly the updates given.
pub proof fn law_sorted_by_name_orders(s: Seq<UpdateView>)
    ensures
        forall|i: int, j: int|
            0 <= i < j < sorted_by_name(s).len() ==> !chars_lt(sorted_by_name(s)[j].0, sorted_by_name(s)[i].0),
        sorted_by_name(s).to_multiset() == s.to_multiset(),
    decreases s.len(),
{
    broadcast use vstd::seq_lib::group_to_multiset_ensures;

    if s.len() == 0 {
        assert(s.to_multiset() =~= vstd::multiset::Multiset::empty());
        assert(sorted_by_name(s).to_multiset() =~= vstd::multiset::Multiset::empty());
    } else {
        let r = sorted_by_name(s.drop_last());
        law_sorted_by_name_orders(s.drop_last());
        let x = s.last();
        lemma_name_pos_facts(r, x.0, 0);
        let p = name_pos(r, x.0, 0);
        let t = r.insert(p, x);
        assert forall|i: int, j: int| 0 <= i < j < t.len() implies !chars_lt(t[j].0, t[i].0) by {
            if j < p {
                assert(t[i] == r[i] && t[j] == r[j]);
            } else if j == p {
                assert(t[i] == r[i]);
                crate::paths::lemma_chars_lt_strict(x.0, r[i].0);
            } else if i < p {
                assert(t[i] == r[i] && t[j] == r[j - 1]);
            } else if i == p {
                assert(t[j] == r[j - 1]);
                assert(chars_lt(x.0, r[p].0));
                crate::paths::lemma_chars_lt_strict(r[j - 1].0, r[p].0);
                crate::paths::lemma_chars_lt_strict(r[j - 1].0, x.0);
                if chars_lt(r[j - 1].0, x.0) {
                    if j - 1 > p {
                        assert(!chars_lt(r[j - 1].0, r[p].0));
                        if r[j - 1].0 != r[p].0 {
                            crate::paths::lemma_chars_lt_trans(r[j - 1].0, x.0, r[p].0);
                        }
                    }
                }
            } else {
                assert(t[i] == r[i - 1] && t[j] == r[j - 1]);
            }
        }
        vstd::seq_lib::to_multiset_insert(r, p, x);
        vstd::seq_lib::to_multiset_build(s.drop_last(), x);
        assert(s.drop_last().push(x) =~= s);
    }
}

/// Whether `a` sorts before `b` (`str::cmp`: by code points).
pub fn name_lt(a: &str, b: &str) -> (r: bool)
    ensures
        r == chars_lt(a@, b@),
{
    let x = chars_of(a);
    let y = chars_of(b);
    let mut i: usize = 0;
    assert(x@.skip(0) =~= x@);
    assert(y@.skip(0) =~= y@);
    while i < x.len() && i < y.len()
        invariant
            x@ == a@,
            y@ == b@,
            i <= x@.len(),
            i <= y@.len(),
            chars_lt(a@, b@) == chars_lt(x@.skip(i as int), y@.skip(i as int)),
        decreases x@.len() - i,
    {
        let u = x[i];
        let w = y[i];
        assert(x@.skip(i as int)[0] == u);
        assert(y@.skip(i as int)[0] == w);
        if u != w {
            return (u as u32) < (w as u32);
        }
        assert(x@.skip(i as int).drop_first() =~= x@.skip(i + 1));
        assert(y@.skip(i as int).drop_first() =~= y@.skip(i + 1));
        i += 1;
    }
    x.len() - i == 0 && y.len() - i > 0
}

/// Sorts updates by name, keeping the order of equal names.
pub fn sort_updates_by_name(updates: Vec<BrewOutdated>) -> (r: Vec<BrewOutdated>)
    ensures
        r@.map_values(|u: BrewOutdated| update_view(u)) == sorted_by_name(
            updates@.map_values(|u: BrewOutdated| update_view(u)),
        ),
{
    let ghost input = updates@.map_values(|u: BrewOutdated| update_view(u));
    let mut rest = updates;
    let total = rest.len();
    let mut taken: Vec<BrewOutdated> = Vec::new();
    // Take the updates out from the back, then insert them front to back.
    while rest.len() > 0
        invariant
            input.len() == rest@.len() + taken@.len(),
            forall|k: int| 0 <= k < rest@.len() ==> #[trigger] update_view(rest@[k]) == input[k],
            forall|k: int|
                0 <= k < taken@.len() ==> #[trigger] update_view(taken@[k]) == input[input.len() - 1 - k],
        decreases rest@.len(),
    {
        let u = rest.pop().unwrap();
        taken.push(u);
    }
    let mut out: Vec<BrewOutdated> = Vec::new();
    let mut k: usize = 0;
    while taken.len() > 0
        invariant
            input.len() == total,
            input.len() == taken@.len() + k,
            forall|j: int|
                0 <= j < taken@.len() ==> #[trigger] update_view(taken@[j]) == input[input.len() - 1 - j],
            out@.map_values(|u: BrewOutdated| update_view(u)) == sorted_by_name(input.take(k as int)),
        decreases taken@.len(),
    {
        let u = taken.pop().unwrap();
        assert(update_view(u) == input[k as int]);
        let ghost sorted = out@.map_values(|u: BrewOutdated| update_view(u));
        let mut j: usize = 0;
        while j < out.len() && !name_lt(u.name.as_str(), out[j].name.as_str())
            invariant
                sorted == out@.map_values(|u: BrewOutdated| update_view(u)),
                j <= out@.len(),
                name_pos(sorted, u.name@, 0) == name_pos(sorted, u.name@, j as int),
            decreases out@.len() - j,
        {
            assert(sorted[j as int].0 == out@[j as int].name@);
            j += 1;
        }
        proof {
            if j < out@.len() {
                assert(sorted[j as int].0 == out@[j as int].name@);
            }
        }
        let ghost uv = update_view(u);
        out.insert(j, u);
        proof {
            assert(input.take(k + 1).drop_last() =~= input.take(k as int));
            assert(input.take(k + 1).last() == uv);
            assert(out@.map_values(|u: BrewOutdated| update_view(u)) =~= sorted.insert(j as int, uv));
        }
        k += 1;
    }
    assert(input.take(k as int) =~= input);
    out
}

// ── Updating a cask ─────────────────────────────────────────────────────────

/// What the cask catalogue says of a token: `None` when it is not there,
/// `Some(None)` when its entry has no download URL.
pub open spec fn cask_update_outcome(
    has_brew: bool,
    token: Seq<char>,
    download_url: Seq<char>,
    brew_managed: bool,
    brew_lists_token: bool,
    catalog_url: Option<Option<Seq<char>>>,
) -> Result<(), Seq<char>> {
    if !brew_token_valid(token) {
        Err("Token Homebrew invalide"@)
    } else if brew_managed {
        if !has_brew {
            Err("Homebrew introuvable"@)
        } else if !brew_lists_token {
            Err("Cask non installé ou non autorisé"@)
        } else {
            Ok(())
        }
    } else {
        match catalog_url {
            None => Err("Cask absent du catalogue Homebrew backend"@),
            Some(None) => Err("URL absente du catalogue Homebrew"@),
            Some(Some(u)) => match update_url_outcome(u) {
                Err(e) => Err(e),
                Ok(()) => if download_url != u {
                    Err("URL de mise à jour différente du catalogue backend"@)
                } else {
                    Ok(())
                },
            },
        }
    }
}

/// Checks a request to update a cask. `brew_path` is where Homebrew is, if
/// installed; `brew_lists_token` whether `brew list --cask` lists the
/// token; `catalog_url` what the cask catalogue gives for it.
pub fn validate_cask_update_request(
    brew_path: Option<&str>,
    token: &str,
    download_url: &str,
    brew_managed: bool,
    brew_lists_token: bool,
    catalog_url: Option<Option<String>>,
) -> (r: Result<(), String>)
    requires
        !brew_managed ==> (catalog_url matches Some(Some(u)) ==> crate::guard::update_url_sliceable(u@)),
    ensures
        match r {
            Ok(()) => cask_update_outcome(
                brew_path is Some,
                token@,
                download_url@,
                brew_managed,
                brew_lists_token,
                match catalog_url {
                    None => None,
                    Some(None) => Some(None),
                    Some(Some(u)) => Some(Some(u@)),
                },
            ) is Ok,
            Err(m) => cask_update_outcome(
                brew_path is Some,
                token@,
                download_url@,
                brew_managed,
                brew_lists_token,
                match catalog_url {
                    None => None,
                    Some(None) => Some(None),
                    Some(Some(u)) => Some(Some(u@)),
                },
            ) == Err::<(), Seq<char>>(m@),
        },
{
    match validate_brew_token(token) {
        Err(e) => return Err(e),
        Ok(()) => {},
    }
    if brew_managed {
        if brew_path.is_none() {
            let mut m = String::new();
            push_str(&mut m, "Homebrew introuvable");
            return Err(m);
        }
        if !brew_lists_token {
            let mut m = String::new();
            push_str(&mut m, "Cask non installé ou non autorisé");
            return Err(m);
        }
        return Ok(());
    }
    match catalog_url {
        None => {
            let mut m = String::new();
            push_str(&mut m, "Cask absent du catalogue Homebrew backend");
            Err(m)
        },
        Some(None) => {
            let mut m = String::new();
            push_str(&mut m, "URL absente du catalogue Homebrew");
            Err(m)
        },
        Some(Some(u)) => {
            match validate_update_url(u.as_str()) {
                Err(e) => return Err(e),
                Ok(()) => {},
            }
            if !str_eq(download_url, u.as_str()) {
                let mut m = String::new();
                push_str(&mut m, "URL de mise à jour différente du catalogue backend");
                return Err(m);
            }
            Ok(())
        },
    }
}

// ── Casks the catalogue knows ───────────────────────────────────────────────

/// An entry of the cask catalogue: its token (when it has one), its raw
/// version and its download URL.
pub struct CaskEntry {
    pub token: Option<String>,
    pub version: String,
    pub url: String,
}

/// The name an update found through the catalogue goes by: the entry's token,
/// else the name it was looked up by.
pub open spec fn entry_name(entry: CaskEntry, name: Seq<char>) -> Seq<char> {
    match entry.token {
        Some(t) => t@,
        None => name,
    }
}

fn entry_name_of(entry: &CaskEntry, name: &str) -> (r: String)
    ensures
        r@ == entry_name(*entry, name@),
{
    let mut r = String::new();
    match &entry.token {
        Some(t) => push_str(&mut r, t.as_str()),
        None => push_str(&mut r, name),
    }
    r
}

/// A brew-managed cask that `brew outdated` leaves out because it updates
/// itself: its installed version (the last word of what `brew list
/// --versions` printed for it) is held against the catalogue's, and an update
/// is reported when the catalogue's is newer.
pub fn self_updating_cask(name: &str, installed_versions: &str, entry: &CaskEntry) -> (r: Option<BrewOutdated>)
    ensures
        (r is Some) == newer_version(cask_version(entry.version@), last_word(installed_versions@)),
        r matches Some(u) ==> update_view(u) == (
            entry_name(*entry, name@),
            last_word(installed_versions@),
            cask_version(entry.version@),
            entry.url@,
            true,
        ),
{
    let installed = last_word_of(installed_versions);
    let latest = cask_version_of(entry.version.as_str());
    if !version_gt(latest.as_str(), installed.as_str()) {
        return None;
    }
    Some(BrewOutdated {
        name: entry_name_of(entry, name),
        installed_version: installed,
        current_version: latest,
        download_url: owned(entry.url.as_str()),
        brew_managed: true,
    })
}

/// What the catalogue says of an application that Homebrew does not manage.
pub enum CatalogueOutcome {
    /// A newer version is published.
    Update(BrewOutdated),
    /// The installed version is current.
    Current(UpToDateApp),
}

/// Holds the installed version of an application that Homebrew does not
/// manage against the catalogue entry found for it: an update under the
/// entry's name when the catalogue's version is newer, else the application,
/// under its own name, as up to date.
pub fn catalogue_outcome(name: &str, current: &str, entry: &CaskEntry) -> (r: CatalogueOutcome)
    ensures
        newer_version(cask_version(entry.version@), current@) ==> (r matches CatalogueOutcome::Update(u)
            && update_view(u) == (entry_name(*entry, name@), current@, cask_version(entry.version@), entry.url@, false)),
        !newer_version(cask_version(entry.version@), current@) ==> (r matches CatalogueOutcome::Current(a)
            && a.name@ == name@ && a.current_version@ == current@),
{
    let latest = cask_version_of(entry.version.as_str());
    if version_gt(latest.as_str(), current) {
        CatalogueOutcome::Update(BrewOutdated {
            name: entry_name_of(entry, name),
            installed_version: owned(current),
            current_version: latest,
            download_url: owned(entry.url.as_str()),
            brew_managed: false,
        })
    } else {
        CatalogueOutcome::Current(UpToDateApp { name: owned(name), current_version: owned(current) })
    }
}

/// What is known of an installed application when deciding whether the cask
/// catalogue should be asked about it.
pub struct UpdateMarkers {
    /// It has `Contents/Info.plist`.
    pub has_info_plist: bool,
    /// Its name, in lower case, is one Homebrew lists as installed.
    pub brew_known: bool,
    /// It has an App Store receipt.
    pub has_store_receipt: bool,
    /// Its `SUFeedURL`, when it has one.
    pub feed_url: Option<String>,
    /// It has an electron-updater manifest (`app-update.yml`).
    pub has_update_manifest: bool,
    /// It bundles the DevMate framework.
    pub has_devmate: bool,
    /// It bundles the Squirrel framework.
    pub has_squirrel: bool,
    /// Its `Info.plist` has `SUAllowsAutomaticUpdates` or `SUAutomaticallyUpdate`.
    pub sparkle_without_feed: bool,
}

/// Whether the catalogue is asked about an application: one with an
/// `Info.plist`, not managed by Homebrew, not from the App Store, with no
/// update channel checked elsewhere (an HTTP feed, an electron-updater
/// manifest, DevMate), and which updates itself through Squirrel or through
/// Sparkle without a feed.
pub open spec fn catalogue_candidate(
    has_info_plist: bool,
    brew_known: bool,
    has_store_receipt: bool,
    feed_url: Option<Seq<char>>,
    has_update_manifest: bool,
    has_devmate: bool,
    has_squirrel: bool,
    sparkle_without_feed: bool,
) -> bool {
    &&& has_info_plist
    &&& !brew_known
    &&& !has_store_receipt
    &&& !(feed_url matches Some(u) && has_prefix(u, "http"@))
    &&& !has_update_manifest
    &&& !has_devmate
    &&& (has_squirrel || sparkle_without_feed)
}

/// Whether the cask catalogue is asked about an application.
pub fn asks_catalogue(m: &UpdateMarkers) -> (r: bool)
    ensures
        r == catalogue_candidate(
            m.has_info_plist,
            m.brew_known,
            m.has_store_receipt,
            match m.feed_url {
                Some(u) => Some(u@),
                None => None,
            },
            m.has_update_manifest,
            m.has_devmate,
            m.has_squirrel,
            m.sparkle_without_feed,
        ),
{
    if !m.has_info_plist || m.brew_known || m.has_store_receipt {
        return false;
    }
    let feed_http = match &m.feed_url {
        Some(u) => starts_with_str(u.as_str(), "http"),
        None => false,
    };
    !feed_http && !m.has_update_manifest && !m.has_devmate && (m.has_squirrel || m.sparkle_without_feed)
}

/// Whether an installed application is the one an update of cask `name` is
/// for: the one whose bundle identifier is the catalogue's, when the
/// catalogue gives one; else the one whose name equals `name` up to ASCII
/// case.
pub open spec fn is_update_target(
    expected_bundle: Option<Seq<char>>,
    bundle: Option<Seq<char>>,
    stem: Option<Seq<char>>,
    name: Seq<char>,
) -> bool {
    match expected_bundle {
        Some(e) => bundle == Some(e),
        None => match stem {
            Some(s) => ascii_lower(s) == ascii_lower(name),
            None => false,
        },
    }
}

/// The code of a character once put in ASCII lower case.
pub open spec fn ascii_lower_char(c: char) -> u32 {
    if 'A' <= c && c <= 'Z' {
        ((c as u32) + 32) as u32
    } else {
        c as u32
    }
}

/// A text in ASCII lower case, as character codes.
pub open spec fn ascii_lower(s: Seq<char>) -> Seq<u32> {
    s.map_values(|c: char| ascii_lower_char(c))
}

fn lower_char(c: char) -> (r: u32)
    ensures
        r == ascii_lower_char(c),
{
    if 'A' <= c && c <= 'Z' {
        (c as u32) + 32
    } else {
        c as u32
    }
}

/// Whether `a` and `b` are equal up to ASCII case.
pub fn eq_ignore_ascii_case(a: &str, b: &str) -> (r: bool)
    ensures
        r == (ascii_lower(a@) == ascii_lower(b@)),
{
    let va = chars_of(a);
    let vb = chars_of(b);
    if va.len() != vb.len() {
        proof {
            if ascii_lower(a@) == ascii_lower(b@) {
                assert(ascii_lower(a@).len() == ascii_lower(b@).len());
            }
        }
        return false;
    }
    let mut i: usize = 0;
    while i < va.len()
        invariant
            va@ == a@,
            vb@ == b@,
            va.len() == vb.len(),
            i <= va.len(),
            forall|j: int| 0 <= j < i ==> ascii_lower_char(#[trigger] va@[j]) == ascii_lower_char(vb@[j]),
        decreases va.len() - i,
    {
        if lower_char(va[i]) != lower_char(vb[i]) {
            proof {
                assert(ascii_lower(a@)[i as int] != ascii_lower(b@)[i as int]);
            }
            return false;
        }
        i += 1;
    }
    assert(ascii_lower(a@) =~= ascii_lower(b@));
    true
}

/// Whether an installed application is the one an update of cask `name` is
/// for.
pub fn update_target(expected_bundle: Option<&str>, bundle: Option<&str>, stem: Option<&str>, name: &str) -> (r: bool)
    ensures
        r == is_update_target(
            match expected_bundle {
                Some(e) => Some(e@),
                None => None,
            },
            match bundle {
                Some(b) => Some(b@),
                None => None,
            },
            match stem {
                Some(s) => Some(s@),
                None => None,
            },
            name@,
        ),
{
    match expected_bundle {
        Some(e) => match bundle {
            Some(b) => str_eq(b, e),
            None => false,
        },
        None => match stem {
            Some(s) => eq_ignore_ascii_case(s, name),
            None => false,
        },
    }
}

// ── Homebrew's JSON replies ─────────────────────────────────────────────────

/// `(token, download URL)` pairs of the cask catalogue, as views.
pub open spec fn url_pairs(v: Seq<(String, String)>) -> Seq<(Seq<char>, Seq<char>)> {
    v.map_values(|p: (String, String)| (p.0@, p.1@))
}

/// The URL of the last pair for `name` (a later entry of the catalogue
/// replaces an earlier one), or the empty text.
pub open spec fn last_url(urls: Seq<(Seq<char>, Seq<char>)>, name: Seq<char>) -> Seq<char>
    decreases urls.len(),
{
    if urls.len() == 0 {
        seq![]
    } else if urls.last().0 == name {
        urls.last().1
    } else {
        last_url(urls.drop_last(), name)
    }
}

/// The first item of an array, if any.
pub open spec fn first_item(a: Option<Seq<JsonValue>>) -> Option<JsonValue> {
    match a {
        Some(s) => if s.len() > 0 {
            Some(s[0])
        } else {
            None
        },
        None => None,
    }
}

/// The last item of an array, if any.
pub open spec fn last_item(a: Option<Seq<JsonValue>>) -> Option<JsonValue> {
    match a {
        Some(s) => if s.len() > 0 {
            Some(s.last())
        } else {
            None
        },
        None => None,
    }
}

/// An outdated cask of `brew outdated --cask --json=v2`: its name, its first
/// installed version, the current version (each empty when missing), the
/// catalogue's download URL for it, and managed by Homebrew.
pub open spec fn outdated_cask(c: JsonValue, urls: Seq<(Seq<char>, Seq<char>)>) -> UpdateView {
    let name = or_blank(text(field(c, "name"@)));
    (
        name,
        or_blank(text(first_item(items(field(c, "installed_versions"@))))),
        or_blank(text(field(c, "current_version"@))),
        last_url(urls, name),
        true,
    )
}

/// The outdated casks the reply lists, one for each entry of `casks`.
pub open spec fn outdated_casks_of(doc: JsonValue, urls: Seq<(Seq<char>, Seq<char>)>) -> Seq<UpdateView> {
    match items(field(doc, "casks"@)) {
        Some(a) => a.map_values(|c: JsonValue| outdated_cask(c, urls)),
        None => seq![],
    }
}

/// Law: the catalogue URL for a name is that of the last catalogue pair
/// with that name, or empty when no pair has it.
pub proof fn law_last_url(urls: Seq<(Seq<char>, Seq<char>)>, name: Seq<char>)
    ensures
        (exists|j: int| 0 <= j < urls.len() && #[trigger] urls[j].0 == name) ==> exists|j: int|
            0 <= j < urls.len() && #[trigger] urls[j].0 == name && last_url(urls, name) == urls[j].1 && forall|l: int|
                j < l < urls.len() ==> #[trigger] urls[l].0 != name,
        (forall|j: int| 0 <= j < urls.len() ==> #[trigger] urls[j].0 != name) ==> last_url(urls, name) == Seq::<
            char,
        >::empty(),
    decreases urls.len(),
{
    if urls.len() > 0 {
        let init = urls.drop_last();
        law_last_url(init, name);
        assert forall|j: int| 0 <= j < init.len() implies #[trigger] init[j] == urls[j] by {}
        if urls.last().0 == name {
            let j = urls.len() - 1;
            assert(urls[j].0 == name);
        } else if exists|j: int| 0 <= j < urls.len() && #[trigger] urls[j].0 == name {
            let j0 = choose|j: int| 0 <= j < urls.len() && #[trigger] urls[j].0 == name;
            assert(j0 < urls.len() - 1);
            assert(init[j0].0 == name);
            let j = choose|j: int|
                0 <= j < init.len() && #[trigger] init[j].0 == name && last_url(init, name) == init[j].1 && forall|l: int|
                    j < l < init.len() ==> #[trigger] init[l].0 != name;
            assert(urls[j].0 == name);
            assert forall|l: int| j < l < urls.len() implies #[trigger] urls[l].0 != name by {
                if l < urls.len() - 1 {
                    assert(init[l].0 != name);
                }
            }
        } else {
            assert forall|j: int| 0 <= j < init.len() implies #[trigger] init[j].0 != name by {
                assert(urls[j].0 != name);
            }
        }
    }
}

/// Law: a `brew outdated --cask` reply gives one update for each cask
/// listed, in order; each shows the cask's name, its first installed
/// version, its current version (each empty when missing), the catalogue URL
/// for that name, and is managed by Homebrew.
pub proof fn law_outdated_casks_fields(doc: JsonValue, urls: Seq<(Seq<char>, Seq<char>)>)
    ensures
        items(field(doc, "casks"@)) matches Some(a) ==> {
            let r = outdated_casks_of(doc, urls);
            &&& r.len() == a.len()
            &&& forall|k: int|
                0 <= k < a.len() ==> {
                    let c = #[trigger] a[k];
                    let name = or_blank(text(field(c, "name"@)));
                    let versions = items(field(c, "installed_versions"@));
                    &&& r[k].0 == name
                    &&& r[k].1 == (match versions {
                        Some(vs) => if vs.len() > 0 {
                            or_blank(text(Some(vs[0])))
                        } else {
                            Seq::empty()
                        },
                        None => Seq::empty(),
                    })
                    &&& r[k].2 == or_blank(text(field(c, "current_version"@)))
                    &&& r[k].3 == last_url(urls, name)
                    &&& r[k].4
                }
        },
        items(field(doc, "casks"@)) is None ==> outdated_casks_of(doc, urls).len() == 0,
{
}

fn url_for(urls: &Vec<(String, String)>, name: &str) -> (r: String)
    ensures
        r@ == last_url(url_pairs(urls@), name@),
{
    let ghost uv = url_pairs(urls@);
    let mut k = urls.len();
    assert(uv.take(k as int) =~= uv);
    while k > 0
        invariant
            k <= urls@.len(),
            uv == url_pairs(urls@),
            last_url(uv, name@) == last_url(uv.take(k as int), name@),
        decreases k,
    {
        assert(uv.take(k as int).drop_last() =~= uv.take(k - 1));
        if str_eq(urls[k - 1].0.as_str(), name) {
            return owned(urls[k - 1].1.as_str());
        }
        k -= 1;
    }
    String::new()
}

fn first_text(a: Option<&Vec<JsonValue>>) -> (r: String)
    ensures
        r@ == or_blank(text(first_item(match a {
            Some(v) => Some(v@),
            None => None,
        }))),
{
    match a {
        Some(v) => if v.len() > 0 {
            match as_text(Some(&v[0])) {
                Some(t) => owned(t),
                None => String::new(),
            }
        } else {
            String::new()
        },
        None => String::new(),
    }
}

fn last_text(a: Option<&Vec<JsonValue>>) -> (r: String)
    ensures
        r@ == or_blank(text(last_item(match a {
            Some(v) => Some(v@),
            None => None,
        }))),
{
    match a {
        Some(v) => if v.len() > 0 {
            match as_text(Some(&v[v.len() - 1])) {
                Some(t) => owned(t),
                None => String::new(),
            }
        } else {
            String::new()
        },
        None => String::new(),
    }
}

/// The outdated casks in a `brew outdated --cask --json=v2` reply, with the
/// catalogue's download URL for each (`catalogue_urls` pairs each cask token
/// with its URL, empty when the catalogue gives none).
pub fn brew_outdated_casks(doc: &JsonValue, catalogue_urls: &Vec<(String, String)>) -> (r: Vec<BrewOutdated>)
    ensures
        r@.map_values(|u: BrewOutdated| update_view(u)) == outdated_casks_of(*doc, url_pairs(catalogue_urls@)),
{
    let mut out: Vec<BrewOutdated> = Vec::new();
    let arr = match as_items(get(doc, "casks")) {
        Some(a) => a,
        None => {
            assert(out@.map_values(|u: BrewOutdated| update_view(u)) =~= Seq::<UpdateView>::empty());
            return out;
        },
    };
    let ghost urls = url_pairs(catalogue_urls@);
    let mut i: usize = 0;
    while i < arr.len()
        invariant
            i <= arr@.len(),
            items(field(*doc, "casks"@)) == Some(arr@),
            urls == url_pairs(catalogue_urls@),
            out@.map_values(|u: BrewOutdated| update_view(u)) =~= arr@.take(i as int).map_values(
                |c: JsonValue| outdated_cask(c, urls),
            ),
        decreases arr.len() - i,
    {
        let c = &arr[i];
        let name = text_or_blank(c, "name");
        let installed = first_text(as_items(get(c, "installed_versions")));
        let current = text_or_blank(c, "current_version");
        let url = url_for(catalogue_urls, name.as_str());
        let ghost before = out@;
        let u = BrewOutdated { name, installed_version: installed, current_version: current, download_url: url, brew_managed: true };
        assert(update_view(u) == outdated_cask(arr@[i as int], urls));
        out.push(u);
        proof {
            assert(arr@.take(i + 1) =~= arr@.take(i as int).push(arr@[i as int]));
            assert(out@ =~= before.push(u));
            assert(out@.map_values(|u: BrewOutdated| update_view(u)) =~= before.map_values(|u: BrewOutdated| update_view(u)).push(update_view(u)));
        }
        i += 1;
    }
    assert(arr@.take(i as int) =~= arr@);
    out
}

/// An outdated formula of `brew outdated --formula --json=v2`: only one that
/// has a name; its last installed version and its current version (empty
/// when missing), no download URL, managed by Homebrew.
pub open spec fn outdated_formula(f: JsonValue) -> Option<UpdateView> {
    match text(field(f, "name"@)) {
        None => None,
        Some(n) => Some(
            (
                n,
                or_blank(text(last_item(items(field(f, "installed_versions"@))))),
                or_blank(text(field(f, "current_version"@))),
                seq![],
                true,
            ),
        ),
    }
}

/// The outdated formulae among `a`, in order.
pub open spec fn formulae_from(a: Seq<JsonValue>) -> Seq<UpdateView>
    decreases a.len(),
{
    if a.len() == 0 {
        seq![]
    } else {
        let rest = formulae_from(a.drop_last());
        match outdated_formula(a.last()) {
            Some(u) => rest.push(u),
            None => rest,
        }
    }
}

/// The outdated formulae a reply lists.
pub open spec fn outdated_formulae_of(doc: JsonValue) -> Seq<UpdateView> {
    match items(field(doc, "formulae"@)) {
        Some(a) => formulae_from(a),
        None => seq![],
    }
}

/// The outdated formulae in a `brew outdated --formula --json=v2` reply.
pub fn brew_outdated_formulae(doc: &JsonValue) -> (r: Vec<BrewOutdated>)
    ensures
        r@.map_values(|u: BrewOutdated| update_view(u)) == outdated_formulae_of(*doc),
{
    let mut out: Vec<BrewOutdated> = Vec::new();
    let arr = match as_items(get(doc, "formulae")) {
        Some(a) => a,
        None => {
            assert(out@.map_values(|u: BrewOutdated| update_view(u)) =~= Seq::<UpdateView>::empty());
            return out;
        },
    };
    let mut i: usize = 0;
    assert(arr@.take(0) =~= Seq::<JsonValue>::empty());
    while i < arr.len()
        invariant
            i <= arr@.len(),
            items(field(*doc, "formulae"@)) == Some(arr@),
            out@.map_values(|u: BrewOutdated| update_view(u)) =~= formulae_from(arr@.take(i as int)),
        decreases arr.len() - i,
    {
        let f = &arr[i];
        assert(arr@.take(i + 1).drop_last() =~= arr@.take(i as int));
        assert(arr@.take(i + 1).last() == arr@[i as int]);
        if let Some(n) = as_text(get(f, "name")) {
            let installed = last_text(as_items(get(f, "installed_versions")));
            let current = text_or_blank(f, "current_version");
            let ghost before = out@;
            out.push(BrewOutdated {
                name: owned(n),
                installed_version: installed,
                current_version: current,
                download_url: String::new(),
                brew_managed: true,
            });
            assert(out@ =~= before.push(out@.last()));
        }
        i += 1;
    }
    assert(arr@.take(i as int) =~= arr@);
    out
}

// ── The cask catalogue ──────────────────────────────────────────────────────

/// An entry of the cask catalogue as read from its JSON: token, bundle
/// identifier (only when not empty), raw version (empty when missing) and
/// download URL.
pub struct CaskRow {
    pub token: Option<String>,
    pub bundle_id: Option<String>,
    pub version: String,
    pub url: Option<String>,
}

pub type RowView = (Option<Seq<char>>, Option<Seq<char>>, Seq<char>, Option<Seq<char>>);

pub open spec fn opt_view(o: Option<String>) -> Option<Seq<char>> {
    match o {
        Some(s) => Some(s@),
        None => None,
    }
}

pub open spec fn row_view(r: CaskRow) -> RowView {
    (opt_view(r.token), opt_view(r.bundle_id), r.version@, opt_view(r.url))
}

/// A text that is not empty.
pub open spec fn non_empty(t: Option<Seq<char>>) -> Option<Seq<char>> {
    match t {
        Some(s) => if s.len() > 0 {
            Some(s)
        } else {
            None
        },
        None => None,
    }
}

/// The row of one catalogue entry.
pub open spec fn row_of(c: JsonValue) -> RowView {
    (
        text(field(c, "token"@)),
        non_empty(text(field(c, "bundle_id"@))),
        or_blank(text(field(c, "version"@))),
        text(field(c, "url"@)),
    )
}

/// The rows of the catalogue (`https://formulae.brew.sh/api/cask.json`, an
/// array of casks); nothing when the document is not an array.
pub open spec fn rows_of(doc: JsonValue) -> Seq<RowView> {
    match doc {
        JsonValue::Array(a) => a@.map_values(|c: JsonValue| row_of(c)),
        _ => seq![],
    }
}

fn opt_text(v: Option<&JsonValue>) -> (r: Option<String>)
    ensures
        opt_view(r) == text(deref_opt(v)),
{
    match as_text(v) {
        Some(t) => Some(owned(t)),
        None => None,
    }
}

/// The rows of the cask catalogue.
pub fn cask_rows(doc: &JsonValue) -> (r: Vec<CaskRow>)
    ensures
        r@.map_values(|x: CaskRow| row_view(x)) == rows_of(*doc),
{
    let mut out: Vec<CaskRow> = Vec::new();
    match doc {
        JsonValue::Array(a) => {
            let mut i: usize = 0;
            while i < a.len()
                invariant
                    i <= a@.len(),
                    rows_of(*doc) == a@.map_values(|c: JsonValue| row_of(c)),
                    out@.map_values(|x: CaskRow| row_view(x)) =~= a@.take(i as int).map_values(|c: JsonValue| row_of(c)),
                decreases a.len() - i,
            {
                let c = &a[i];
                let bundle = match as_text(get(c, "bundle_id")) {
                    Some(b) => if b.unicode_len() > 0 {
                        Some(owned(b))
                    } else {
                        None
                    },
                    None => None,
                };
                let ghost before = out@;
                let row = CaskRow {
                    token: opt_text(get(c, "token")),
                    bundle_id: bundle,
                    version: text_or_blank(c, "version"),
                    url: opt_text(get(c, "url")),
                };
                assert(row_view(row) == row_of(a@[i as int]));
                out.push(row);
                proof {
                    assert(a@.take(i + 1) =~= a@.take(i as int).push(a@[i as int]));
                    assert(out@ =~= before.push(row));
                    assert(out@.map_values(|x: CaskRow| row_view(x)) =~= before.map_values(|x: CaskRow| row_view(x)).push(row_view(row)));
                }
                i += 1;
            }
            assert(a@.take(i as int) =~= a@);
            out
        },
        _ => {
            assert(out@.map_values(|x: CaskRow| row_view(x)) =~= Seq::<RowView>::empty());
            out
        },
    }
}

/// The last row whose token is `t` (a later entry replaces an earlier one).
pub open spec fn last_token_row(rows: Seq<RowView>, t: Seq<char>) -> Option<int>
    decreases rows.len(),
{
    if rows.len() == 0 {
        None
    } else if rows.last().0 == Some(t) {
        Some(rows.len() - 1)
    } else {
        last_token_row(rows.drop_last(), t)
    }
}

/// The last row whose bundle identifier is `b`.
pub open spec fn last_bundle_row(rows: Seq<RowView>, b: Seq<char>) -> Option<int>
    decreases rows.len(),
{
    if rows.len() == 0 {
        None
    } else if rows.last().1 == Some(b) {
        Some(rows.len() - 1)
    } else {
        last_bundle_row(rows.drop_last(), b)
    }
}

pub open spec fn rows_view(rows: Seq<CaskRow>) -> Seq<RowView> {
    rows.map_values(|x: CaskRow| row_view(x))
}

/// The row of the catalogue for a token.
pub fn row_for_token(rows: &Vec<CaskRow>, t: &str) -> (r: Option<usize>)
    ensures
        match last_token_row(rows_view(rows@), t@) {
            Some(i) => r == Some(i as usize),
            None => r is None,
        },
{
    let ghost rv = rows_view(rows@);
    let mut k = rows.len();
    assert(rv.take(k as int) =~= rv);
    while k > 0
        invariant
            k <= rows@.len(),
            rv == rows_view(rows@),
            last_token_row(rv, t@) == last_token_row(rv.take(k as int), t@),
        decreases k,
    {
        assert(rv.take(k as int).drop_last() =~= rv.take(k - 1));
        assert(rv.take(k as int).last() == row_view(rows@[k - 1]));
        let hit = match &rows[k - 1].token {
            Some(x) => str_eq(x.as_str(), t),
            None => false,
        };
        if hit {
            return Some(k - 1);
        }
        k -= 1;
    }
    None
}

/// The row of the catalogue for a bundle identifier.
pub fn row_for_bundle(rows: &Vec<CaskRow>, b: &str) -> (r: Option<usize>)
    ensures
        match last_bundle_row(rows_view(rows@), b@) {
            Some(i) => r == Some(i as usize),
            None => r is None,
        },
{
    let ghost rv = rows_view(rows@);
    let mut k = rows.len();
    assert(rv.take(k as int) =~= rv);
    while k > 0
        invariant
            k <= rows@.len(),
            rv == rows_view(rows@),
            last_bundle_row(rv, b@) == last_bundle_row(rv.take(k as int), b@),
        decreases k,
    {
        assert(rv.take(k as int).drop_last() =~= rv.take(k - 1));
        assert(rv.take(k as int).last() == row_view(rows@[k - 1]));
        let hit = match &rows[k - 1].bundle_id {
            Some(x) => str_eq(x.as_str(), b),
            None => false,
        };
        if hit {
            return Some(k - 1);
        }
        k -= 1;
    }
    None
}

/// The catalogue row for an application: by its bundle identifier when the
/// catalogue knows it, else by the first of its token candidates that the
/// catalogue knows.
pub open spec fn app_row(rows: Seq<RowView>, name: Seq<char>, bundle_id: Option<Seq<char>>) -> Option<int> {
    let by_bundle = match bundle_id {
        Some(b) => last_bundle_row(rows, b),
        None => None,
    };
    if by_bundle is Some {
        by_bundle
    } else {
        let c = cask_token_candidates(name);
        if last_token_row(rows, c[0]) is Some {
            last_token_row(rows, c[0])
        } else if last_token_row(rows, c[1]) is Some {
            last_token_row(rows, c[1])
        } else {
            last_token_row(rows, c[2])
        }
    }
}

/// The catalogue row for an application.
pub fn lookup_cask_row(rows: &Vec<CaskRow>, name: &str, bundle_id: Option<&str>) -> (r: Option<usize>)
    ensures
        match app_row(rows_view(rows@), name@, opt_str_view(bundle_id)) {
            Some(i) => r == Some(i as usize),
            None => r is None,
        },
{
    if let Some(b) = bundle_id {
        if let Some(i) = row_for_bundle(rows, b) {
            return Some(i);
        }
    }
    let c = cask_tokens_for(name);
    assert(c.deep_view().len() == c@.len());
    assert(c@.len() == 3);
    assert(c.deep_view()[0] == c@[0]@ && c.deep_view()[1] == c@[1]@ && c.deep_view()[2] == c@[2]@);
    if let Some(i) = row_for_token(rows, c[0].as_str()) {
        return Some(i);
    }
    if let Some(i) = row_for_token(rows, c[1].as_str()) {
        return Some(i);
    }
    row_for_token(rows, c[2].as_str())
}

pub open spec fn opt_str_view(o: Option<&str>) -> Option<Seq<char>> {
    match o {
        Some(s) => Some(s@),
        None => None,
    }
}

/// What the logic reads of a catalogue row: its token, raw version and
/// download URL (empty when missing).
pub fn row_entry(row: &CaskRow) -> (e: CaskEntry)
    ensures
        opt_view(e.token) == opt_view(row.token),
        e.version@ == row.version@,
        e.url@ == or_blank(opt_view(row.url)),
{
    CaskEntry {
        token: match &row.token {
            Some(t) => Some(owned(t.as_str())),
            None => None,
        },
        version: owned(row.version.as_str()),
        url: match &row.url {
            Some(u) => owned(u.as_str()),
            None => String::new(),
        },
    }
}


// ── Installed casks ─────────────────────────────────────────────────────────

/// A cask `brew info --installed --cask --json=v2` lists: its token, whether
/// one of its artifacts declares an application, and the application names
/// declared (a name that is not text counts as empty).
pub struct InstalledCask {
    pub token: String,
    pub declares_app: bool,
    pub app_names: Vec<String>,
}

pub open spec fn installed_cask_view(c: InstalledCask) -> (Seq<char>, bool, Seq<Seq<char>>) {
    (c.token@, c.declares_app, c.app_names@.map_values(|n: String| n@))
}

/// The application names one artifact declares.
pub open spec fn artifact_apps(a: JsonValue) -> Seq<Seq<char>> {
    match items(field(a, "app"@)) {
        Some(xs) => xs.map_values(|x: JsonValue| or_blank(text(Some(x)))),
        None => seq![],
    }
}

/// The application names the first `k` artifacts declare, in order.
pub open spec fn artifacts_apps(arts: Seq<JsonValue>, k: int) -> Seq<Seq<char>>
    decreases k,
{
    if k <= 0 {
        seq![]
    } else {
        artifacts_apps(arts, k - 1) + artifact_apps(arts[k - 1])
    }
}

/// One of the first `k` artifacts has an `app` member.
pub open spec fn declares_app_in(arts: Seq<JsonValue>, k: int) -> bool
    decreases k,
{
    if k <= 0 {
        false
    } else {
        declares_app_in(arts, k - 1) || field(arts[k - 1], "app"@) is Some
    }
}

/// What a listed cask gives; nothing without a text token and an array of
/// artifacts.
pub open spec fn installed_cask_entry(c: JsonValue) -> Option<(Seq<char>, bool, Seq<Seq<char>>)> {
    match (text(field(c, "token"@)), items(field(c, "artifacts"@))) {
        (Some(t), Some(arts)) => Some((t, declares_app_in(arts, arts.len() as int), artifacts_apps(arts, arts.len() as int))),
        _ => None,
    }
}

/// The casks among the first `k` listed.
pub open spec fn installed_cask_entries(cs: Seq<JsonValue>, k: int) -> Seq<(Seq<char>, bool, Seq<Seq<char>>)>
    decreases k,
{
    if k <= 0 {
        seq![]
    } else {
        match installed_cask_entry(cs[k - 1]) {
            Some(e) => installed_cask_entries(cs, k - 1).push(e),
            None => installed_cask_entries(cs, k - 1),
        }
    }
}

/// The application names one artifact declares.
fn artifact_app_names(a: &JsonValue, out: &mut Vec<String>)
    ensures
        final(out)@.map_values(|n: String| n@) == old(out)@.map_values(|n: String| n@) + artifact_apps(*a),
{
    match as_items(get(a, "app")) {
        Some(xs) => {
            let ghost start = out@.map_values(|n: String| n@);
            let mut j: usize = 0;
            while j < xs.len()
                invariant
                    j <= xs@.len(),
                    out@.map_values(|n: String| n@) == start + xs@.take(j as int).map_values(
                        |x: JsonValue| or_blank(text(Some(x))),
                    ),
                decreases xs.len() - j,
            {
                let name = match &xs[j] {
                    JsonValue::Str(t) => crate::text::owned(t.as_str()),
                    _ => String::new(),
                };
                assert(name@ == or_blank(text(Some(xs@[j as int]))));
                let ghost before = out@.map_values(|n: String| n@);
                out.push(name);
                assert(out@.map_values(|n: String| n@) =~= before.push(name@));
                assert(xs@.take(j + 1).map_values(|x: JsonValue| or_blank(text(Some(x))))
                    =~= xs@.take(j as int).map_values(|x: JsonValue| or_blank(text(Some(x)))).push(name@));
                j += 1;
            }
            assert(xs@.take(xs@.len() as int) =~= xs@);
            assert(out@.map_values(|n: String| n@) =~= start + artifact_apps(*a));
        },
        None => {
            assert(old(out)@.map_values(|n: String| n@) + artifact_apps(*a) =~= old(out)@.map_values(|n: String| n@));
        },
    }
}

/// The casks `brew info --installed --cask --json=v2` lists, in order;
/// nothing when the report holds no array of casks.
pub fn installed_casks(doc: &JsonValue) -> (r: Option<Vec<InstalledCask>>)
    ensures
        match items(field(*doc, "casks"@)) {
            Some(cs) => r matches Some(v) && v@.map_values(|c: InstalledCask| installed_cask_view(c))
                == installed_cask_entries(cs, cs.len() as int),
            None => r is None,
        },
{
    let mut out: Vec<InstalledCask> = Vec::new();
    let cs = match as_items(get(doc, "casks")) {
        Some(cs) => cs,
        None => {
            return None;
        },
    };
    let mut i: usize = 0;
    while i < cs.len()
        invariant
            i <= cs@.len(),
            items(field(*doc, "casks"@)) == Some(cs@),
            out@.map_values(|c: InstalledCask| installed_cask_view(c)) == installed_cask_entries(cs@, i as int),
        decreases cs.len() - i,
    {
        let c = &cs[i];
        let token = as_text(get(c, "token"));
        let arts = as_items(get(c, "artifacts"));
        match (token, arts) {
            (Some(t), Some(arts)) => {
                let mut names: Vec<String> = Vec::new();
                let mut declares = false;
                let mut k: usize = 0;
                while k < arts.len()
                    invariant
                        k <= arts@.len(),
                        names@.map_values(|n: String| n@) == artifacts_apps(arts@, k as int),
                        declares == declares_app_in(arts@, k as int),
                    decreases arts.len() - k,
                {
                    artifact_app_names(&arts[k], &mut names);
                    if get(&arts[k], "app").is_some() {
                        declares = true;
                    }
                    k += 1;
                }
                let entry = InstalledCask { token: crate::text::owned(t), declares_app: declares, app_names: names };
                let ghost before = out@.map_values(|c: InstalledCask| installed_cask_view(c));
                out.push(entry);
                assert(out@.map_values(|c: InstalledCask| installed_cask_view(c)) =~= before.push(installed_cask_view(entry)));
            },
            _ => {},
        }
        i += 1;
    }
    Some(out)
}

/// The tokens of the casks to keep: those that declare no application, and
/// those one of whose applications is on disk (`on_disk[i]` tells it for
/// the `i`-th cask).
pub open spec fn kept_cask_tokens(cs: Seq<(Seq<char>, bool, Seq<Seq<char>>)>, on_disk: Seq<bool>, k: int) -> Seq<Seq<char>>
    decreases k,
{
    if k <= 0 {
        seq![]
    } else if !cs[k - 1].1 || on_disk[k - 1] {
        kept_cask_tokens(cs, on_disk, k - 1).push(cs[k - 1].0)
    } else {
        kept_cask_tokens(cs, on_disk, k - 1)
    }
}

/// The installed casks whose application is still there.
pub fn kept_casks(casks: &Vec<InstalledCask>, on_disk: &Vec<bool>) -> (r: Vec<String>)
    requires
        on_disk@.len() == casks@.len(),
    ensures
        r@.map_values(|t: String| t@) == kept_cask_tokens(
            casks@.map_values(|c: InstalledCask| installed_cask_view(c)),
            on_disk@,
            casks@.len() as int,
        ),
{
    let ghost cv = casks@.map_values(|c: InstalledCask| installed_cask_view(c));
    let mut out: Vec<String> = Vec::new();
    let mut i: usize = 0;
    while i < casks.len()
        invariant
            i <= casks@.len(),
            on_disk@.len() == casks@.len(),
            cv == casks@.map_values(|c: InstalledCask| installed_cask_view(c)),
            out@.map_values(|t: String| t@) == kept_cask_tokens(cv, on_disk@, i as int),
        decreases casks.len() - i,
    {
        assert(cv[i as int] == installed_cask_view(casks@[i as int]));
        if !casks[i].declares_app || on_disk[i] {
            let t = crate::text::owned(casks[i].token.as_str());
            let ghost before = out@.map_values(|t: String| t@);
            out.push(t);
            assert(out@.map_values(|t: String| t@) =~= before.push(t@));
        }
        i += 1;
    }
    out
}

} // verus!
