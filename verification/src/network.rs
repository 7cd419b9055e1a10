//! Network services as `networksetup` and `route` describe them: which
//! services exist, which one carries the default route, and which DNS
//! servers each uses; and the byte counters `netstat` keeps per interface.
use vstd::prelude::*;
use crate::text::{
    owned, chars_of, contains_lit, contains_text, find_chars, find_seq, has_prefix, is_whitespace, is_ws,
    lemma_find_from, lines_of, push_str, str_eq, str_lines, string_chars, string_of_range, trim,
    trim_bounds, chars_at, has_at, parse_u64, parsed_u64,
};

verus! {

fn trimmed_of(v: &Vec<char>, a: usize, b: usize) -> (r: String)
    requires
        a <= b <= v@.len(),
    ensures
        r@ == trim(v@.subrange(a as int, b as int)),
{
    let piece = string_of_range(v, a, b);
    let w = string_chars(&piece);
    let (x, y) = trim_bounds(&w);
    string_of_range(&w, x, y)
}

fn trimmed(s: &str) -> (r: String)
    ensures
        r@ == trim(s@),
{
    let v = chars_of(s);
    assert(v@.subrange(0, v@.len() as int) =~= v@);
    trimmed_of(&v, 0, v.len())
}

// ── Words ───────────────────────────────────────────────────────────────────

/// The words of `s` so far and the word being read.
pub open spec fn word_scan(s: Seq<char>) -> (Seq<Seq<char>>, Seq<char>)
    decreases s.len(),
{
    if s.len() == 0 {
        (seq![], seq![])
    } else {
        let (done, cur) = word_scan(s.drop_last());
        if is_ws(s.last()) {
            if cur.len() > 0 {
                (done.push(cur), seq![])
            } else {
                (done, seq![])
            }
        } else {
            (done, cur.push(s.last()))
        }
    }
}

/// The words of `s`, as `str::split_whitespace` gives them.
pub open spec fn words(s: Seq<char>) -> Seq<Seq<char>> {
    let (done, cur) = word_scan(s);
    if cur.len() > 0 {
        done.push(cur)
    } else {
        done
    }
}

/// The words of `s`.
pub fn split_words(s: &str) -> (r: Vec<String>)
    ensures
        r.deep_view() == words(s@),
{
    let v = chars_of(s);
    let n = v.len();
    let mut out: Vec<String> = Vec::new();
    let mut start: usize = 0;
    let mut i: usize = 0;
    while i < n
        invariant
            v@ == s@,
            n == v@.len(),
            start <= i <= n,
            out.deep_view() == word_scan(v@.take(i as int)).0,
            v@.subrange(start as int, i as int) == word_scan(v@.take(i as int)).1,
        decreases n - i,
    {
        assert(v@.take(i + 1).drop_last() =~= v@.take(i as int));
        assert(v@.take(i + 1).last() == v@[i as int]);
        if is_whitespace(v[i]) {
            if start < i {
                let w = string_of_range(&v, start, i);
                out.push(w);
                assert(out.deep_view() =~= word_scan(v@.take(i as int)).0.push(
                    word_scan(v@.take(i as int)).1,
                ));
            }
            start = i + 1;
            assert(v@.subrange(start as int, i + 1) =~= Seq::<char>::empty());
        } else {
            assert(v@.subrange(start as int, i + 1) =~= v@.subrange(start as int, i as int).push(
                v@[i as int],
            ));
        }
        i += 1;
    }
    assert(v@.take(n as int) =~= v@);
    if start < n {
        let w = string_of_range(&v, start, n);
        out.push(w);
        assert(out.deep_view() =~= words(s@));
    }
    out
}

// ── Default route ───────────────────────────────────────────────────────────

/// The index of the first line from `k` on whose trimmed text begins with
/// `interface:`, or the number of lines.
pub open spec fn interface_line(ls: Seq<Seq<char>>, k: int) -> int
    decreases ls.len() - k,
{
    if k < 0 || k >= ls.len() {
        ls.len() as int
    } else if has_prefix(trim(ls[k]), "interface:"@) {
        k
    } else {
        interface_line(ls, k + 1)
    }
}

/// The interface of the default route, from what `route -n get default`
/// printed: the second word of its `interface:` line.
pub open spec fn default_interface(output: Seq<char>) -> Option<Seq<char>> {
    let ls = str_lines(output);
    let k = interface_line(ls, 0);
    if k < ls.len() && words(ls[k]).len() > 1 {
        Some(words(ls[k])[1])
    } else {
        None
    }
}

/// The interface of the default route.
pub fn default_route_interface(route_output: &str) -> (r: Option<String>)
    ensures
        match default_interface(route_output@) {
            Some(i) => r is Some && r->0@ == i,
            None => r is None,
        },
{
    let lines = lines_of(route_output);
    let ghost ls = lines.deep_view();
    let mut k: usize = 0;
    while k < lines.len()
        invariant
            ls == lines.deep_view(),
            ls == str_lines(route_output@),
            k <= ls.len(),
            interface_line(ls, 0) == interface_line(ls, k as int),
        decreases ls.len() - k,
    {
        let t = trimmed(lines[k].as_str());
        if crate::text::starts_with_str(t.as_str(), "interface:") {
            let ws = split_words(lines[k].as_str());
            if ws.len() > 1 {
                return Some(ws[1].clone());
            }
            return None;
        }
        k += 1;
    }
    None
}

// ── Services ────────────────────────────────────────────────────────────────

/// Whether `line` names the device `iface` (`Device: en0)` or
/// `Device: en0,`).
pub open spec fn names_device(line: Seq<char>, iface: Seq<char>) -> bool {
    contains_text(line, "Device: "@ + iface + ")"@) || contains_text(line, "Device: "@ + iface + ","@)
}

/// The index of the first line from `k` on, past the first, that names the
/// device, or the number of lines.
pub open spec fn device_line(ls: Seq<Seq<char>>, iface: Seq<char>, k: int) -> int
    decreases ls.len() - k,
{
    if k < 1 || k >= ls.len() {
        ls.len() as int
    } else if names_device(ls[k], iface) {
        k
    } else {
        device_line(ls, iface, k + 1)
    }
}

/// What follows the first `) ` in `s`, trimmed.
pub open spec fn after_paren(s: Seq<char>) -> Option<Seq<char>> {
    match find_seq(s, ") "@) {
        Some(i) => Some(trim(s.subrange(i + 2, s.len() as int))),
        None => None,
    }
}

/// The service using the device `iface`, from what `networksetup
/// -listnetworkserviceorder` printed: the line before the one that names
/// the device reads `(1) Wi-Fi`. A first line naming the device has no line
/// before it and is passed over.
pub open spec fn service_of_device(output: Seq<char>, iface: Seq<char>) -> Option<Seq<char>> {
    let ls = str_lines(output);
    let k = device_line(ls, iface, 1);
    if k < ls.len() {
        after_paren(ls[k - 1])
    } else {
        None
    }
}

fn contains_string(hay: &String, pat: &String) -> (r: bool)
    ensures
        r == contains_text(hay@, pat@),
{
    let v = string_chars(hay);
    let p = string_chars(pat);
    assert(v@.subrange(0, v@.len() as int) =~= v@);
    find_chars(&v, 0, v.len(), &p).is_some()
}

/// The service using the device `iface`.
pub fn interface_service(order_output: &str, iface: &str) -> (r: Option<String>)
    ensures
        match service_of_device(order_output@, iface@) {
            Some(s) => r is Some && r->0@ == s,
            None => r is None,
        },
{
    let lines = lines_of(order_output);
    let ghost ls = lines.deep_view();
    let mut closing = owned("Device: ");
    push_str(&mut closing, iface);
    let mut comma = owned("Device: ");
    push_str(&mut comma, iface);
    push_str(&mut closing, ")");
    push_str(&mut comma, ",");
    let mut k: usize = 1;
    while k < lines.len()
        invariant
            ls == lines.deep_view(),
            ls == str_lines(order_output@),
            1 <= k,
            k <= ls.len() || k == 1,
            closing@ == "Device: "@ + iface@ + ")"@,
            comma@ == "Device: "@ + iface@ + ","@,
            device_line(ls, iface@, 1) == device_line(ls, iface@, k as int),
        decreases ls.len() - k,
    {
        if contains_string(&lines[k], &closing) || contains_string(&lines[k], &comma) {
            let prev = chars_of(lines[k - 1].as_str());
            let pat = chars_of(") ");
            proof {
                reveal_strlit(") ");
                lemma_find_from(prev@, ") "@, 0);
            }
            assert(prev@.subrange(0, prev@.len() as int) =~= prev@);
            return match find_chars(&prev, 0, prev.len(), &pat) {
                Some(i) => Some(trimmed_of(&prev, i + 2, prev.len())),
                None => None,
            };
        }
        k += 1;
    }
    None
}

/// The services that `networksetup -listallnetworkservices` lists: every
/// line after the first, trimmed, but empty ones and disabled ones (`*`).
pub open spec fn service_names_from(ls: Seq<Seq<char>>, k: int) -> Seq<Seq<char>>
    decreases k,
{
    if k <= 1 {
        seq![]
    } else {
        let before = service_names_from(ls, k - 1);
        let l = ls[k - 1];
        if l.len() > 0 && l[0] != '*' {
            before.push(trim(l))
        } else {
            before
        }
    }
}

/// The services that `networksetup -listallnetworkservices` lists.
pub fn service_names(output: &str) -> (r: Vec<String>)
    ensures
        r.deep_view() == service_names_from(str_lines(output@), str_lines(output@).len() as int),
{
    let lines = lines_of(output);
    let ghost ls = lines.deep_view();
    assert(lines@.len() == ls.len());
    let mut out: Vec<String> = Vec::new();
    let mut k: usize = 1;
    while k < lines.len()
        invariant
            ls == lines.deep_view(),
            ls == str_lines(output@),
            lines@.len() == ls.len(),
            1 <= k,
            k <= ls.len() || k == 1,
            out.deep_view() == service_names_from(ls, k as int),
        decreases ls.len() - k,
    {
        let v = chars_of(lines[k].as_str());
        if v.len() > 0 && v[0] != '*' {
            let ghost before = out.deep_view();
            out.push(trimmed(lines[k].as_str()));
            assert(out.deep_view() =~= before.push(trim(ls[k as int])));
        }
        k += 1;
    }
    out
}

/// The DNS servers that `networksetup -getdnsservers` lists: none when it
/// says there aren't any, else each non-empty line, trimmed.
pub open spec fn dns_servers_of(output: Seq<char>) -> Seq<Seq<char>> {
    if contains_text(output, "aren't any"@) {
        seq![]
    } else {
        trimmed_nonempty(str_lines(output))
    }
}

/// The non-empty lines of `ls`, trimmed.
pub open spec fn trimmed_nonempty(ls: Seq<Seq<char>>) -> Seq<Seq<char>>
    decreases ls.len(),
{
    if ls.len() == 0 {
        seq![]
    } else if ls.last().len() > 0 {
        trimmed_nonempty(ls.drop_last()).push(trim(ls.last()))
    } else {
        trimmed_nonempty(ls.drop_last())
    }
}

/// The DNS servers of a service.
pub fn dns_servers(output: &str) -> (r: Vec<String>)
    ensures
        r.deep_view() == dns_servers_of(output@),
{
    let v = chars_of(output);
    if contains_lit(&v, "aren't any") {
        return Vec::new();
    }
    let lines = lines_of(output);
    let ghost ls = lines.deep_view();
    let mut out: Vec<String> = Vec::new();
    let mut i: usize = 0;
    while i < lines.len()
        invariant
            ls == lines.deep_view(),
            i <= ls.len(),
            out.deep_view() == trimmed_nonempty(ls.take(i as int)),
        decreases ls.len() - i,
    {
        assert(ls.take(i + 1).drop_last() =~= ls.take(i as int));
        assert(ls.take(i + 1).last() == ls[i as int]);
        if lines[i].as_str().unicode_len() > 0 {
            let ghost before = out.deep_view();
            out.push(trimmed(lines[i].as_str()));
            assert(out.deep_view() =~= before.push(trim(ls[i as int])));
        }
        i += 1;
    }
    assert(ls.take(i as int) =~= ls);
    out
}

/// A network service and its DNS servers; `active` when it carries the
/// default route.
pub struct NetworkService {
    pub name: String,
    pub dns_servers: Vec<String>,
    pub active: bool,
}

/// The service `name`, with the DNS servers that `dns_output` lists.
pub fn network_service(name: String, dns_output: &str, active_service: &Option<String>) -> (s: NetworkService)
    ensures
        s.name == name,
        s.dns_servers.deep_view() == dns_servers_of(dns_output@),
        s.active == (active_service is Some && active_service->0@ == name@),
{
    let active = match active_service {
        Some(a) => str_eq(a.as_str(), name.as_str()),
        None => false,
    };
    NetworkService { name, dns_servers: dns_servers(dns_output), active }
}

// ── Search domains and administrator commands ──────────────────────────────

/// The search domains that `networksetup -getsearchdomains` lists: none when
/// it prints nothing or says there are none (in any case), else each
/// non-empty line, trimmed.
pub open spec fn search_domains_of(output: Seq<char>) -> Seq<Seq<char>> {
    let raw = trim(output);
    if raw.len() == 0 || contains_text(crate::text::lowercase(raw), "there aren"@) || contains_text(
        crate::text::lowercase(raw),
        "empty"@,
    ) {
        seq![]
    } else {
        trimmed_nonempty(str_lines(raw))
    }
}

/// The search domains of a service.
pub fn search_domains(output: &str) -> (r: Vec<String>)
    ensures
        r.deep_view() == search_domains_of(output@),
{
    let raw = trimmed(output);
    if raw.as_str().unicode_len() == 0 {
        return Vec::new();
    }
    let low = crate::text::to_lowercase(raw.as_str());
    if crate::text::contains_str(low.as_str(), "there aren") || crate::text::contains_str(low.as_str(), "empty") {
        return Vec::new();
    }
    let lines = lines_of(raw.as_str());
    let ghost ls = lines.deep_view();
    let mut out: Vec<String> = Vec::new();
    let mut i: usize = 0;
    while i < lines.len()
        invariant
            ls == lines.deep_view(),
            i <= ls.len(),
            out.deep_view() == trimmed_nonempty(ls.take(i as int)),
        decreases ls.len() - i,
    {
        assert(ls.take(i + 1).drop_last() =~= ls.take(i as int));
        assert(ls.take(i + 1).last() == ls[i as int]);
        if lines[i].as_str().unicode_len() > 0 {
            let ghost before = out.deep_view();
            out.push(trimmed(lines[i].as_str()));
            assert(out.deep_view() =~= before.push(trim(ls[i as int])));
        }
        i += 1;
    }
    assert(ls.take(i as int) =~= ls);
    out
}

/// Whether a failed `networksetup -setdnsservers` is retried as
/// administrator: when it reported anything.
pub open spec fn retry_as_admin(stderr: Seq<char>) -> bool {
    contains_text(stderr, "Error"@) || contains_text(stderr, "permission"@) || trim(stderr).len() > 0
}

/// Whether a failed DNS change is retried as administrator.
pub fn dns_retry_as_admin(stderr: &str) -> (r: bool)
    ensures
        r == retry_as_admin(stderr@),
{
    let t = trimmed(stderr);
    crate::text::contains_str(stderr, "Error") || crate::text::contains_str(stderr, "permission")
        || t.as_str().unicode_len() > 0
}

/// Values written after a `networksetup` option: `Empty` for none, else
/// each single-quoted, separated by spaces.
pub open spec fn quoted_values(values: Seq<Seq<char>>) -> Seq<char>
    decreases values.len(),
{
    if values.len() == 0 {
        "Empty"@
    } else if values.len() == 1 {
        crate::staging::quoted(values[0])
    } else {
        quoted_values(values.drop_last()) + " "@ + crate::staging::quoted(values.last())
    }
}

/// The `networksetup` command run as administrator when the plain one
/// fails: `networksetup <option> '<service>' <values>`.
pub open spec fn networksetup_command_of(option: Seq<char>, service: Seq<char>, values: Seq<Seq<char>>) -> Seq<char> {
    "networksetup "@ + option + " "@ + crate::staging::quoted(service) + " "@ + quoted_values(values)
}

/// The `networksetup` command run as administrator.
pub fn networksetup_admin_command(option: &str, service: &str, values: &Vec<String>) -> (r: String)
    ensures
        r@ == networksetup_command_of(option@, service@, values.deep_view()),
{
    let mut r = owned("networksetup ");
    push_str(&mut r, option);
    push_str(&mut r, " ");
    let q = crate::guard::posix_shell_quote(service);
    push_str(&mut r, q.as_str());
    push_str(&mut r, " ");
    let ghost vs = values.deep_view();
    if values.len() == 0 {
        push_str(&mut r, "Empty");
        return r;
    }
    let ghost head = r@;
    let q0 = crate::guard::posix_shell_quote(values[0].as_str());
    push_str(&mut r, q0.as_str());
    assert(vs.take(1) =~= seq![vs[0]]);
    assert(quoted_values(vs.take(1)) == crate::staging::quoted(vs[0]));
    let mut i: usize = 1;
    while i < values.len()
        invariant
            vs == values.deep_view(),
            1 <= i <= vs.len(),
            r@ == head + quoted_values(vs.take(i as int)),
        decreases vs.len() - i,
    {
        assert(vs.take(i + 1).drop_last() =~= vs.take(i as int));
        assert(vs.take(i + 1).last() == values@[i as int]@);
        push_str(&mut r, " ");
        let q = crate::guard::posix_shell_quote(values[i].as_str());
        push_str(&mut r, q.as_str());
        assert(r@ =~= head + quoted_values(vs.take(i + 1)));
        i += 1;
    }
    assert(vs.take(i as int) =~= vs);
    r
}

// ── Byte counters ───────────────────────────────────────────────────────────

/// Received and sent bytes per interface: `(name, received, sent)`.
pub type LinkTotals = Seq<(Seq<char>, u64, u64)>;

/// `a + b`, or `u64::MAX` when that overflows.
pub open spec fn sat_add(a: u64, b: u64) -> u64 {
    if a + b > u64::MAX {
        u64::MAX
    } else {
        (a + b) as u64
    }
}

/// A counter column: its number, or 0 when it is not one.
pub open spec fn counter(s: Seq<char>) -> u64 {
    match parsed_u64(s) {
        Some(v) => v,
        None => 0,
    }
}

/// Whether the columns of a `netstat -ib` line are those of a link-layer
/// entry: at least ten columns, the third (the network) starting with `<`.
pub open spec fn link_entry(w: Seq<Seq<char>>) -> bool {
    w.len() >= 10 && w[2].len() > 0 && w[2][0] == '<'
}

/// Where `name` is in `acc`, from `i` on (`acc.len()` when it is not).
pub open spec fn name_index(acc: LinkTotals, name: Seq<char>, i: int) -> int
    decreases acc.len() - i,
{
    if i < 0 || i >= acc.len() {
        acc.len() as int
    } else if acc[i].0 == name {
        i
    } else {
        name_index(acc, name, i + 1)
    }
}

/// `acc` with `rx` and `tx` added to the counters of `name` (a new entry at
/// the end when it has none); sums saturate.
pub open spec fn with_counts(acc: LinkTotals, name: Seq<char>, rx: u64, tx: u64) -> LinkTotals {
    let i = name_index(acc, name, 0);
    if 0 <= i < acc.len() {
        acc.update(i, (name, sat_add(acc[i].1, rx), sat_add(acc[i].2, tx)))
    } else {
        acc.push((name, rx, tx))
    }
}

/// The totals of the link-layer lines from line `k` on, added to `acc`.
pub open spec fn link_totals_from(ls: Seq<Seq<char>>, k: int, acc: LinkTotals) -> LinkTotals
    decreases ls.len() - k,
{
    if k < 0 || k >= ls.len() {
        acc
    } else {
        let w = words(ls[k]);
        if link_entry(w) {
            link_totals_from(ls, k + 1, with_counts(acc, w[0], counter(w[6]), counter(w[9])))
        } else {
            link_totals_from(ls, k + 1, acc)
        }
    }
}

/// The bytes received and sent per interface, from `netstat -ib`: the
/// header line is skipped, and the counters of each link-layer line
/// (columns seven and ten) are added to its interface's.
pub open spec fn link_totals(output: Seq<char>) -> LinkTotals {
    link_totals_from(str_lines(output), 1, seq![])
}

pub open spec fn totals_view(v: Seq<(String, u64, u64)>) -> LinkTotals {
    v.map_values(|e: (String, u64, u64)| (e.0@, e.1, e.2))
}

fn sat_add_u64(a: u64, b: u64) -> (r: u64)
    ensures
        r == sat_add(a, b),
{
    if a > u64::MAX - b {
        u64::MAX
    } else {
        a + b
    }
}

fn add_counts(acc: &mut Vec<(String, u64, u64)>, name: &str, rx: u64, tx: u64)
    ensures
        totals_view(final(acc)@) == with_counts(totals_view(old(acc)@), name@, rx, tx),
{
    let ghost before = totals_view(acc@);
    let mut i: usize = 0;
    while i < acc.len() && !str_eq(acc[i].0.as_str(), name)
        invariant
            before == totals_view(acc@),
            i <= acc.len(),
            name_index(before, name@, 0) == name_index(before, name@, i as int),
        decreases acc.len() - i,
    {
        assert(before[i as int].0 == acc@[i as int].0@);
        i += 1;
    }
    if i < acc.len() {
        assert(before[i as int].0 == acc@[i as int].0@);
        assert(name_index(before, name@, i as int) == i);
        let r = sat_add_u64(acc[i].1, rx);
        let t = sat_add_u64(acc[i].2, tx);
        acc.set(i, (owned(name), r, t));
        assert(totals_view(acc@) =~= before.update(i as int, (name@, r, t)));
    } else {
        acc.push((owned(name), rx, tx));
        assert(totals_view(acc@) =~= before.push((name@, rx, tx)));
    }
}

fn counter_of(s: &str) -> (r: u64)
    ensures
        r == counter(s@),
{
    match parse_u64(s) {
        Some(v) => v,
        None => 0,
    }
}

/// The bytes received and sent per interface, from `netstat -ib`.
pub fn link_byte_counts(output: &str) -> (r: Vec<(String, u64, u64)>)
    ensures
        totals_view(r@) == link_totals(output@),
{
    let ls = lines_of(output);
    let ghost lv = ls.deep_view();
    let mut acc: Vec<(String, u64, u64)> = Vec::new();
    assert(totals_view(acc@) =~= Seq::<(Seq<char>, u64, u64)>::empty());
    if ls.len() == 0 {
        return acc;
    }
    let mut k: usize = 1;
    while k < ls.len()
        invariant
            lv == ls.deep_view(),
            lv == str_lines(output@),
            1 <= k <= lv.len(),
            link_totals_from(lv, 1, seq![]) == link_totals_from(lv, k as int, totals_view(acc@)),
        decreases lv.len() - k,
    {
        let w = split_words(ls[k].as_str());
        assert(ls@[k as int]@ == lv[k as int]);
        let ghost wv = w.deep_view();
        assert(wv == words(lv[k as int]));
        let mut link = false;
        if w.len() >= 10 {
            let third = chars_of(w[2].as_str());
            assert(third@ == wv[2]);
            link = third.len() > 0 && third[0] == '<';
        }
        if link {
            assert(wv[0] == w@[0]@ && wv[6] == w@[6]@ && wv[9] == w@[9]@);
            let rx = counter_of(w[6].as_str());
            let tx = counter_of(w[9].as_str());
            add_counts(&mut acc, w[0].as_str(), rx, tx);
        }
        k += 1;
    }
    acc
}


} // verus!
