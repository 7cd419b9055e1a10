//! What the status panel reads from the system's tools: the battery from
//! `ioreg`, the proxy from `scutil --proxy`, and the addressed network
//! interfaces from `ifconfig`.
use vstd::prelude::*;
use crate::network::{split_words, words};
use crate::text::{
    all_digits, chars_of, contains_str, contains_text, digits_value, find_chars, find_seq, has_prefix, lead_ws,
    lines_of, owned, parse_u64, parsed_u64, split_char, split_on, starts_with_str, str_lines, string_of_range, trim,
    trim_bounds, is_ascii_digit, is_whitespace, lemma_lead_ws, lemma_lead_ws_at, is_ws,
};

verus! {

// ── Numbers ─────────────────────────────────────────────────────────────────

/// What `str::parse::<i64>` gives: an optional sign, then at least one ASCII
/// digit, and a value that fits.
pub open spec fn parsed_i64(s: Seq<char>) -> Option<i64> {
    if s.len() > 0 && s[0] == '-' {
        let d = s.skip(1);
        if d.len() > 0 && all_digits(d) && digits_value(d) <= 0x8000_0000_0000_0000 {
            Some((-digits_value(d)) as i64)
        } else {
            None
        }
    } else {
        match parsed_u64(s) {
            Some(v) => if v <= i64::MAX {
                Some(v as i64)
            } else {
                None
            },
            None => None,
        }
    }
}

proof fn lemma_digits_nonnegative(d: Seq<char>)
    requires
        all_digits(d),
    ensures
        digits_value(d) >= 0,
    decreases d.len(),
{
    if d.len() > 0 {
        assert(is_ascii_digit(d[d.len() - 1]));
        assert(all_digits(d.drop_last())) by {
            assert forall|i: int| 0 <= i < d.drop_last().len() implies #[trigger] is_ascii_digit(d.drop_last()[i]) by {
                assert(d.drop_last()[i] == d[i]);
            }
        }
        lemma_digits_nonnegative(d.drop_last());
    }
}

/// Reads a decimal number as `str::parse::<i64>` does.
pub fn parse_i64(s: &str) -> (r: Option<i64>)
    ensures
        r == parsed_i64(s@),
{
    let v = chars_of(s);
    if v.len() > 0 && v[0] == '-' {
        let rest = string_of_range(&v, 1, v.len());
        assert(rest@ =~= s@.skip(1));
        let rv = chars_of(rest.as_str());
        if rv.len() == 0 || !('0' <= rv[0] && rv[0] <= '9') {
            proof {
                if rv@.len() > 0 {
                    assert(!is_ascii_digit(rest@[0]));
                }
            }
            return None;
        }
        assert(rv@ == rest@);
        assert(crate::text::unsigned_digits(rest@) == rest@);
        match parse_u64(rest.as_str()) {
            Some(x) => {
                proof {
                    lemma_digits_nonnegative(rest@);
                }
                assert(all_digits(rest@) && x == digits_value(rest@));
                if x > 0x8000_0000_0000_0000u64 {
                    None
                } else if x == 0x8000_0000_0000_0000u64 {
                    assert((-digits_value(rest@)) as i64 == i64::MIN);
                    Some(i64::MIN)
                } else {
                    let y: i64 = -(x as i64);
                    assert(y == -digits_value(rest@));
                    Some(y)
                }
            },
            None => {
                proof {
                    if all_digits(rest@) && digits_value(rest@) <= 0x8000_0000_0000_0000 {
                        assert(digits_value(rest@) <= u64::MAX);
                    }
                }
                None
            },
        }
    } else {
        match parse_u64(s) {
            Some(x) => if x <= i64::MAX as u64 {
                Some(x as i64)
            } else {
                None
            },
            None => None,
        }
    }
}

/// `100 * a / b` for a percentage, rounded toward zero as integer division
/// does; 0 when `b` is not positive or `100 * a` does not fit in an `i64`.
pub open spec fn percent_of(a: i64, b: i64) -> i64 {
    let p = 100 * a;
    if b <= 0 || p < i64::MIN || p > i64::MAX {
        0
    } else if p >= 0 {
        (p / (b as int)) as i64
    } else {
        (-((-p) / (b as int))) as i64
    }
}

fn percent(a: i64, b: i64) -> (r: i64)
    ensures
        r == percent_of(a, b),
{
    if b <= 0 {
        return 0;
    }
    let p: i128 = (a as i128) * 100;
    if p < i64::MIN as i128 || p > i64::MAX as i128 {
        return 0;
    }
    if p >= 0 {
        let q: u128 = (p as u128) / (b as u128);
        assert(q <= p);
        q as i64
    } else {
        let q: u128 = ((-p) as u128) / (b as u128);
        assert(q <= -p);
        -(q as i128) as i64
    }
}

// ── Battery ─────────────────────────────────────────────────────────────────

/// The integer `ioreg -a` gives for `key`: the text between `<integer>` and
/// `</integer>` after the first `<key>key</key>`, trimmed; 0 when any of
/// these is missing or the text is not a number.
pub open spec fn ioreg_integer(s: Seq<char>, key: Seq<char>) -> i64 {
    let needle = "<key>"@ + key + "</key>"@;
    match find_seq(s, needle) {
        None => 0,
        Some(i) => {
            let rest = s.skip(i + needle.len());
            match find_seq(rest, "<integer>"@) {
                None => 0,
                Some(a) => {
                    let vs = rest.skip(a + 9);
                    match find_seq(vs, "</integer>"@) {
                        None => 0,
                        Some(b) => match parsed_i64(trim(vs.take(b))) {
                            Some(v) => v,
                            None => 0,
                        },
                    }
                },
            }
        },
    }
}

/// The integer `ioreg -a` gives for `key`.
pub fn ioreg_int(s: &str, key: &str) -> (r: i64)
    ensures
        r == ioreg_integer(s@, key@),
{
    proof {
        reveal_strlit("<integer>");
        reveal_strlit("</integer>");
    }
    let mut needle = owned("<key>");
    crate::text::push_str(&mut needle, key);
    crate::text::push_str(&mut needle, "</key>");
    let v = chars_of(s);
    let nv = chars_of(needle.as_str());
    let i = match find_chars(&v, 0, v.len(), &nv) {
        Some(i) => i,
        None => {
            assert(v@.subrange(0, v@.len() as int) =~= v@);
            return 0;
        },
    };
    assert(v@.subrange(0, v@.len() as int) =~= v@);
    proof {
        crate::text::lemma_find_from(s@, nv@, 0);
    }
    let start = i + nv.len();
    let open_tag = chars_of("<integer>");
    let a = match find_chars(&v, start, v.len(), &open_tag) {
        Some(a) => a,
        None => {
            assert(v@.subrange(start as int, v@.len() as int) =~= s@.skip(i + nv@.len()));
            return 0;
        },
    };
    assert(v@.subrange(start as int, v@.len() as int) =~= s@.skip(i + nv@.len()));
    proof {
        crate::text::lemma_find_from(v@.subrange(start as int, v@.len() as int), open_tag@, 0);
        reveal_strlit("<integer>");
        assert(open_tag@.len() == 9);
    }
    let vstart = a + 9;
    let close_tag = chars_of("</integer>");
    let b = match find_chars(&v, vstart, v.len(), &close_tag) {
        Some(b) => b,
        None => {
            assert(v@.subrange(vstart as int, v@.len() as int) =~= s@.skip(i + nv@.len()).skip(a - start + 9));
            return 0;
        },
    };
    assert(v@.subrange(vstart as int, v@.len() as int) =~= s@.skip(i + nv@.len()).skip(a - start + 9));
    proof {
        crate::text::lemma_find_from(v@.subrange(vstart as int, v@.len() as int), close_tag@, 0);
    }
    let raw = string_of_range(&v, vstart, b);
    assert(raw@ =~= s@.skip(i + nv@.len()).skip(a - start + 9).take(b - vstart));
    let rv = chars_of(raw.as_str());
    let (x, y) = trim_bounds(&rv);
    let t = string_of_range(&rv, x, y);
    match parse_i64(t.as_str()) {
        Some(n) => n,
        None => 0,
    }
}

/// The battery as the status panel shows it.
pub struct BatteryInfo {
    /// Charge, percent of the current maximum capacity.
    pub percent: i64,
    /// `Chargée`, `En charge` or `Déchargement`.
    pub status: String,
    /// Charge cycles.
    pub cycles: i64,
    /// Maximum capacity, percent of the design capacity.
    pub capacity: i64,
}

/// The charging state: full, charging, or discharging.
pub open spec fn battery_status_of(s: Seq<char>) -> Seq<char> {
    if contains_text(s, "<key>FullyCharged</key>\n\t<true/>"@) {
        "Chargée"@
    } else if contains_text(s, "<key>IsCharging</key>\n\t<true/>"@) {
        "En charge"@
    } else {
        "Déchargement"@
    }
}

/// The battery, from `ioreg -n AppleSmartBattery -r -a`.
pub fn battery_info(s: &str) -> (r: BatteryInfo)
    ensures
        r.percent == percent_of(ioreg_integer(s@, "CurrentCapacity"@), ioreg_integer(s@, "MaxCapacity"@)),
        r.status@ == battery_status_of(s@),
        r.cycles == ioreg_integer(s@, "CycleCount"@),
        r.capacity == percent_of(ioreg_integer(s@, "MaxCapacity"@), ioreg_integer(s@, "DesignCapacity"@)),
{
    let current = ioreg_int(s, "CurrentCapacity");
    let max_cap = ioreg_int(s, "MaxCapacity");
    let design = ioreg_int(s, "DesignCapacity");
    let cycles = ioreg_int(s, "CycleCount");
    let status = if contains_str(s, "<key>FullyCharged</key>\n\t<true/>") {
        owned("Chargée")
    } else if contains_str(s, "<key>IsCharging</key>\n\t<true/>") {
        owned("En charge")
    } else {
        owned("Déchargement")
    };
    BatteryInfo { percent: percent(current, max_cap), status, cycles, capacity: percent(max_cap, design) }
}

// ── Proxy ───────────────────────────────────────────────────────────────────

/// The proxy as `scutil --proxy` reports it: `(enabled, kind, host)`.
/// Enabled when the HTTP or SOCKS proxy is; the kind is that of the first
/// enabled among SOCKS, HTTPS and HTTP; the host is the text after the first
/// colon of the first `HTTPProxy :` or `SOCKSProxy :` line, up to the next
/// colon, trimmed.
pub open spec fn proxy_of(s: Seq<char>) -> (bool, Seq<char>, Seq<char>) {
    let socks = contains_text(s, "SOCKSEnable : 1"@);
    let https = contains_text(s, "HTTPSEnable : 1"@);
    let http = contains_text(s, "HTTPEnable : 1"@);
    (
        http || socks,
        if socks {
            "SOCKS"@
        } else if https {
            "HTTPS"@
        } else if http {
            "HTTP"@
        } else {
            seq![]
        },
        proxy_host_from(str_lines(s), 0),
    )
}

/// The proxy host, from line `k` on.
pub open spec fn proxy_host_from(ls: Seq<Seq<char>>, k: int) -> Seq<char>
    decreases ls.len() - k,
{
    if k < 0 || k >= ls.len() {
        seq![]
    } else if contains_text(ls[k], "HTTPProxy :"@) || contains_text(ls[k], "SOCKSProxy :"@) {
        if split_on(ls[k], ':').len() > 1 {
            trim(split_on(ls[k], ':')[1])
        } else {
            seq![]
        }
    } else {
        proxy_host_from(ls, k + 1)
    }
}

fn proxy_host(s: &str) -> (r: String)
    ensures
        r@ == proxy_host_from(str_lines(s@), 0),
{
    let ls = lines_of(s);
    let ghost lv = ls.deep_view();
    let mut k: usize = 0;
    while k < ls.len()
        invariant
            lv == ls.deep_view(),
            lv == str_lines(s@),
            k <= lv.len(),
            proxy_host_from(lv, 0) == proxy_host_from(lv, k as int),
        decreases lv.len() - k,
    {
        let l = ls[k].as_str();
        assert(l@ == lv[k as int]);
        if contains_str(l, "HTTPProxy :") || contains_str(l, "SOCKSProxy :") {
            let parts = split_char(l, ':');
            assert(parts.deep_view().len() == parts@.len());
            if parts.len() > 1 {
                let p = chars_of(parts[1].as_str());
                assert(p@ == split_on(lv[k as int], ':')[1]);
                let (a, b) = trim_bounds(&p);
                return string_of_range(&p, a, b);
            }
            return String::new();
        }
        k += 1;
    }
    String::new()
}

/// The proxy as `scutil --proxy` reports it: `(enabled, kind, host)`.
pub fn proxy_info(s: &str) -> (r: (bool, String, String))
    ensures
        (r.0, r.1@, r.2@) == proxy_of(s@),
{
    let socks = contains_str(s, "SOCKSEnable : 1");
    let https = contains_str(s, "HTTPSEnable : 1");
    let http = contains_str(s, "HTTPEnable : 1");
    let kind = if socks {
        owned("SOCKS")
    } else if https {
        owned("HTTPS")
    } else if http {
        owned("HTTP")
    } else {
        String::new()
    };
    (http || socks, kind, proxy_host(s))
}

// ── Network interfaces ──────────────────────────────────────────────────────

/// Whether an `ifconfig` line starts an interface (it is not indented).
pub open spec fn interface_header(l: Seq<char>) -> bool {
    !(l.len() > 0 && (l[0] == '\t' || l[0] == ' '))
}

/// Whether an `ifconfig` line gives an IPv4 address.
pub open spec fn ipv4_line(l: Seq<char>) -> bool {
    has_prefix(l.skip(lead_ws(l) as int), "inet "@) && !contains_text(l, "inet6"@)
}

/// The second word of a line, or nothing.
pub open spec fn second_word(l: Seq<char>) -> Seq<char> {
    if words(l).len() > 1 {
        words(l)[1]
    } else {
        seq![]
    }
}

/// `acc` with the interface `name` at `ip` added, when it has a name and an
/// address and is not a loopback interface.
pub open spec fn with_interface(acc: Seq<(Seq<char>, Seq<char>)>, name: Seq<char>, ip: Seq<char>) -> Seq<(Seq<char>, Seq<char>)> {
    if name.len() > 0 && !has_prefix(name, "lo"@) && ip.len() > 0 {
        acc.push((name, ip))
    } else {
        acc
    }
}

/// The addressed interfaces of `ifconfig` output from line `k` on, the
/// current interface being `name` with address `ip` so far.
pub open spec fn interfaces_from(
    ls: Seq<Seq<char>>,
    k: int,
    name: Seq<char>,
    ip: Seq<char>,
    acc: Seq<(Seq<char>, Seq<char>)>,
) -> Seq<(Seq<char>, Seq<char>)>
    decreases ls.len() - k,
{
    if k < 0 || k >= ls.len() {
        with_interface(acc, name, ip)
    } else if interface_header(ls[k]) {
        interfaces_from(ls, k + 1, trim(split_on(ls[k], ':')[0]), seq![], with_interface(acc, name, ip))
    } else if ipv4_line(ls[k]) {
        interfaces_from(ls, k + 1, name, second_word(ls[k]), acc)
    } else {
        interfaces_from(ls, k + 1, name, ip, acc)
    }
}

/// The interfaces with an IPv4 address, loopback aside, as `(name, address)`
/// in the order `ifconfig` lists them; the last address listed for an
/// interface is kept.
pub open spec fn interfaces_of(s: Seq<char>) -> Seq<(Seq<char>, Seq<char>)> {
    interfaces_from(str_lines(s), 0, seq![], seq![], seq![])
}

pub open spec fn pairs_view(v: Seq<(String, String)>) -> Seq<(Seq<char>, Seq<char>)> {
    v.map_values(|p: (String, String)| (p.0@, p.1@))
}

fn push_interface(acc: &mut Vec<(String, String)>, name: &String, ip: &String)
    ensures
        pairs_view(final(acc)@) == with_interface(pairs_view(old(acc)@), name@, ip@),
{
    let ghost before = pairs_view(acc@);
    if name.as_str().unicode_len() > 0 && !starts_with_str(name.as_str(), "lo") && ip.as_str().unicode_len() > 0 {
        acc.push((owned(name.as_str()), owned(ip.as_str())));
        assert(pairs_view(acc@) =~= before.push((name@, ip@)));
    }
}

/// The interfaces with an IPv4 address, from `ifconfig`.
pub fn network_interfaces(s: &str) -> (r: Vec<(String, String)>)
    ensures
        pairs_view(r@) == interfaces_of(s@),
{
    let ls = lines_of(s);
    let ghost lv = ls.deep_view();
    let mut acc: Vec<(String, String)> = Vec::new();
    let mut name = String::new();
    let mut ip = String::new();
    assert(pairs_view(acc@) =~= Seq::<(Seq<char>, Seq<char>)>::empty());
    let mut k: usize = 0;
    while k < ls.len()
        invariant
            lv == ls.deep_view(),
            lv == str_lines(s@),
            k <= lv.len(),
            interfaces_of(s@) == interfaces_from(lv, k as int, name@, ip@, pairs_view(acc@)),
        decreases lv.len() - k,
    {
        let l = ls[k].as_str();
        assert(l@ == lv[k as int]);
        let v = chars_of(l);
        if !(v.len() > 0 && (v[0] == '\t' || v[0] == ' ')) {
            push_interface(&mut acc, &name, &ip);
            let parts = split_char(l, ':');
            assert(parts.deep_view().len() == parts@.len());
            let p = chars_of(parts[0].as_str());
            assert(p@ == split_on(lv[k as int], ':')[0]);
            let (a, b) = trim_bounds(&p);
            name = string_of_range(&p, a, b);
            ip = String::new();
        } else {
            let mut j: usize = 0;
            while j < v.len() && is_whitespace(v[j])
                invariant
                    j <= v@.len(),
                    forall|t: int| 0 <= t < j ==> #[trigger] is_ws(v@[t]),
                    j <= lead_ws(v@),
                decreases v@.len() - j,
            {
                proof {
                    lemma_lead_ws(v@);
                    lemma_lead_ws_at(v@, j as int);
                }
                j += 1;
            }
            proof {
                lemma_lead_ws(v@);
            }
            assert(j == lead_ws(v@));
            let rest = string_of_range(&v, j, v.len());
            assert(rest@ =~= v@.skip(j as int));
            if starts_with_str(rest.as_str(), "inet ") && !contains_str(l, "inet6") {
                let w = split_words(l);
                let ghost wv = w.deep_view();
                assert(wv == words(l@));
                if w.len() > 1 {
                    assert(wv[1] == w@[1]@);
                    ip = owned(w[1].as_str());
                } else {
                    ip = String::new();
                }
            }
        }
        k += 1;
    }
    push_interface(&mut acc, &name, &ip);
    acc
}

} // verus!
