use vstd::prelude::*;
use vstd::utf8::encode_utf8;

verus! {

/// The characters of a string slice, in order.
pub fn chars_of(s: &str) -> (v: Vec<char>)
    ensures
        v@ == s@,
{
    let mut v: Vec<char> = Vec::new();
    for c in it: s.chars()
        invariant
            v@ == it.seq().take(it.index() as int),
            it.seq() == s@,
    {
        v.push(c);
    }
    v
}

/// Appends one character to a string (`String::push`).
#[verifier::external_body]
pub fn push_char(s: &mut String, c: char)
    ensures
        final(s)@ == old(s)@.push(c),
{
    s.push(c);
}

/// Appends the characters `v[from..to]` to `out`.
pub fn push_range(out: &mut String, v: &Vec<char>, from: usize, to: usize)
    requires
        from <= to <= v@.len(),
    ensures
        final(out)@ == old(out)@ + v@.subrange(from as int, to as int),
{
    let mut i = from;
    while i < to
        invariant
            from <= i <= to <= v@.len(),
            out@ == old(out)@ + v@.subrange(from as int, i as int),
        decreases to - i,
    {
        push_char(out, v[i]);
        assert(v@.subrange(from as int, i + 1) =~= v@.subrange(from as int, i as int).push(v@[i as int]));
        i += 1;
    }
}

/// The string made of the characters `v[from..to]`.
pub fn string_of_range(v: &Vec<char>, from: usize, to: usize) -> (r: String)
    requires
        from <= to <= v@.len(),
    ensures
        r@ == v@.subrange(from as int, to as int),
{
    let mut r = String::new();
    push_range(&mut r, v, from, to);
    assert(Seq::<char>::empty() + v@.subrange(from as int, to as int) =~= v@.subrange(from as int, to as int));
    r
}

/// An owned copy of `s`.
pub fn owned(s: &str) -> (r: String)
    ensures
        r@ == s@,
{
    let mut r = String::new();
    push_str(&mut r, s);
    r
}

/// Appends a string slice.
pub fn push_str(out: &mut String, s: &str)
    ensures
        final(out)@ == old(out)@ + s@,
{
    out.append(s);
}

/// Whether `v[at..]` begins with the characters of `lit`.
pub fn has_at(v: &Vec<char>, at: usize, lit: &str) -> (r: bool)
    requires
        at <= v@.len(),
    ensures
        r == (at + lit@.len() <= v@.len() && v@.subrange(at as int, at + lit@.len()) == lit@),
{
    let n = lit.unicode_len();
    if n > v.len() - at {
        return false;
    }
    let mut i: usize = 0;
    while i < n
        invariant
            n == lit@.len(),
            at + n <= v.len(),
            i <= n,
            forall|j: int| 0 <= j < i ==> v@[at + j] == lit@[j],
        decreases n - i,
    {
        if v[at + i] != lit.get_char(i) {
            assert(v@.subrange(at as int, at + n)[i as int] != lit@[i as int]);
            return false;
        }
        i += 1;
    }
    assert(v@.subrange(at as int, at + n) =~= lit@);
    true
}


/// Unicode `White_Space` characters (what `char::is_whitespace` tests).
pub open spec fn is_ws(c: char) -> bool {
    ||| ('\u{9}' <= c && c <= '\u{d}')
    ||| c == ' '
    ||| c == '\u{85}'
    ||| c == '\u{a0}'
    ||| c == '\u{1680}'
    ||| ('\u{2000}' <= c && c <= '\u{200a}')
    ||| c == '\u{2028}'
    ||| c == '\u{2029}'
    ||| c == '\u{202f}'
    ||| c == '\u{205f}'
    ||| c == '\u{3000}'
}

pub fn is_whitespace(c: char) -> (r: bool)
    ensures
        r == is_ws(c),
{
    ('\u{9}' <= c && c <= '\u{d}') || c == ' ' || c == '\u{85}' || c == '\u{a0}' || c
        == '\u{1680}' || ('\u{2000}' <= c && c <= '\u{200a}') || c == '\u{2028}' || c
        == '\u{2029}' || c == '\u{202f}' || c == '\u{205f}' || c == '\u{3000}'
}

/// Unicode control characters (general category Cc, what `char::is_control` tests).
pub open spec fn is_ctrl(c: char) -> bool {
    c <= '\u{1f}' || ('\u{7f}' <= c && c <= '\u{9f}')
}

pub fn is_control(c: char) -> (r: bool)
    ensures
        r == is_ctrl(c),
{
    c <= '\u{1f}' || ('\u{7f}' <= c && c <= '\u{9f}')
}

/// Every character is whitespace: what `s.trim().is_empty()` tests.
pub open spec fn is_blank(s: Seq<char>) -> bool {
    forall|i: int| 0 <= i < s.len() ==> #[trigger] is_ws(s[i])
}

/// The number of leading whitespace characters.
pub open spec fn lead_ws(s: Seq<char>) -> nat
    decreases s.len(),
{
    if s.len() == 0 || !is_ws(s[0]) {
        0
    } else {
        1 + lead_ws(s.drop_first())
    }
}

/// The number of trailing whitespace characters.
pub open spec fn trail_ws(s: Seq<char>) -> nat
    decreases s.len(),
{
    if s.len() == 0 || !is_ws(s.last()) {
        0
    } else {
        1 + trail_ws(s.drop_last())
    }
}

/// `s` without leading and trailing whitespace (`str::trim`).
pub open spec fn trim(s: Seq<char>) -> Seq<char> {
    if lead_ws(s) >= s.len() {
        Seq::empty()
    } else {
        s.subrange(lead_ws(s) as int, s.len() - trail_ws(s))
    }
}

/// Leading whitespace runs at least past `a` when `s[0..=a]` is all
/// whitespace.
pub proof fn lemma_lead_ws_at(s: Seq<char>, a: int)
    requires
        0 <= a < s.len(),
        forall|j: int| 0 <= j <= a ==> #[trigger] is_ws(s[j]),
    ensures
        a < lead_ws(s),
    decreases a,
{
    assert(is_ws(s[0]));
    if a > 0 {
        assert forall|j: int| 0 <= j <= a - 1 implies #[trigger] is_ws(s.drop_first()[j]) by {
            assert(s.drop_first()[j] == s[j + 1]);
        }
        lemma_lead_ws_at(s.drop_first(), a - 1);
    }
}

pub proof fn lemma_lead_ws(s: Seq<char>)
    ensures
        lead_ws(s) <= s.len(),
        forall|i: int| 0 <= i < lead_ws(s) ==> #[trigger] is_ws(s[i]),
        lead_ws(s) < s.len() ==> !is_ws(s[lead_ws(s) as int]),
    decreases s.len(),
{
    if s.len() > 0 && is_ws(s[0]) {
        lemma_lead_ws(s.drop_first());
        assert forall|i: int| 0 <= i < lead_ws(s) implies #[trigger] is_ws(s[i]) by {
            if i > 0 {
                assert(s[i] == s.drop_first()[i - 1]);
            }
        }
    }
}

pub proof fn lemma_trail_ws(s: Seq<char>)
    ensures
        trail_ws(s) <= s.len(),
        forall|i: int| s.len() - trail_ws(s) <= i < s.len() ==> #[trigger] is_ws(s[i]),
        trail_ws(s) < s.len() ==> !is_ws(s[s.len() - 1 - trail_ws(s)]),
    decreases s.len(),
{
    if s.len() > 0 && is_ws(s.last()) {
        lemma_trail_ws(s.drop_last());
        assert forall|i: int| s.len() - trail_ws(s) <= i < s.len() implies #[trigger] is_ws(s[i]) by {
            if i < s.len() - 1 {
                assert(s[i] == s.drop_last()[i]);
            }
        }
    }
}

/// The bounds `(a, b)` of `trim(v[..])` within `v`.
pub fn trim_bounds(v: &Vec<char>) -> (r: (usize, usize))
    ensures
        r.0 <= r.1 <= v@.len(),
        v@.subrange(r.0 as int, r.1 as int) == trim(v@),
        r.0 == r.1 <==> is_blank(v@),
{
    proof {
        lemma_lead_ws(v@);
        lemma_trail_ws(v@);
    }
    let n = v.len();
    let mut a: usize = 0;
    while a < n && is_whitespace(v[a])
        invariant
            a <= n == v@.len(),
            forall|i: int| 0 <= i < a ==> #[trigger] is_ws(v@[i]),
            a <= lead_ws(v@),
            lead_ws(v@) <= n,
            forall|i: int| 0 <= i < lead_ws(v@) ==> #[trigger] is_ws(v@[i]),
            lead_ws(v@) < n ==> !is_ws(v@[lead_ws(v@) as int]),
        decreases n - a,
    {
        a += 1;
    }
    if a == n {
        assert(is_blank(v@));
        return (n, n);
    }
    assert(a == lead_ws(v@));
    let mut b: usize = n;
    while b > a && is_whitespace(v[b - 1])
        invariant
            a < n == v@.len(),
            a == lead_ws(v@),
            !is_ws(v@[a as int]),
            a <= b <= n,
            forall|i: int| b <= i < n ==> #[trigger] is_ws(v@[i]),
            n - b <= trail_ws(v@),
            trail_ws(v@) <= n,
            forall|i: int| n - trail_ws(v@) <= i < n ==> #[trigger] is_ws(v@[i]),
            trail_ws(v@) < n ==> !is_ws(v@[n - 1 - trail_ws(v@)]),
        decreases b,
    {
        b -= 1;
    }
    assert(b == n - trail_ws(v@));
    assert(!is_blank(v@));
    (a, b)
}

/// The UTF-8 width of a character.
pub open spec fn char_width(c: char) -> nat {
    if (c as u32) < 0x80 {
        1
    } else if (c as u32) < 0x800 {
        2
    } else if (c as u32) < 0x10000 {
        3
    } else {
        4
    }
}

/// The length in bytes of the UTF-8 encoding (what `str::len` returns).
pub open spec fn byte_len(s: Seq<char>) -> nat {
    encode_utf8(s).len()
}

pub proof fn lemma_byte_len_push(s: Seq<char>, c: char)
    ensures
        byte_len(s.push(c)) == byte_len(s) + char_width(c),
    decreases s.len(),
{
    broadcast use vstd::utf8::char_is_scalar;
    if s.len() == 0 {
        assert(s.push(c).drop_first() =~= Seq::<char>::empty());
        assert(encode_utf8(Seq::<char>::empty()) =~= Seq::<u8>::empty());
    } else {
        lemma_byte_len_push(s.drop_first(), c);
        assert(s.push(c).drop_first() =~= s.drop_first().push(c));
    }
}

/// The UTF-8 length of `v[from..to]`.
pub fn byte_len_of(v: &Vec<char>, from: usize, to: usize) -> (n: usize)
    requires
        from <= to <= v@.len(),
        to - from <= usize::MAX / 4,
    ensures
        n == byte_len(v@.subrange(from as int, to as int)),
{
    let mut n: usize = 0;
    let mut i = from;
    assert(v@.subrange(from as int, from as int) =~= Seq::<char>::empty());
    assert(encode_utf8(Seq::<char>::empty()) =~= Seq::<u8>::empty());
    while i < to
        invariant
            from <= i <= to <= v@.len(),
            to - from <= usize::MAX / 4,
            n <= 4 * (i - from),
            n == byte_len(v@.subrange(from as int, i as int)),
        decreases to - i,
    {
        let c = v[i];
        let w: usize = if (c as u32) < 0x80 {
            1
        } else if (c as u32) < 0x800 {
            2
        } else if (c as u32) < 0x10000 {
            3
        } else {
            4
        };
        proof {
            lemma_byte_len_push(v@.subrange(from as int, i as int), c);
            assert(v@.subrange(from as int, i + 1) =~= v@.subrange(from as int, i as int).push(c));
        }
        n += w;
        i += 1;
    }
    n
}

/// `{:?}` of a character.
pub uninterp spec fn char_debug(c: char) -> Seq<char>;

/// `{:?}` of a string.
pub uninterp spec fn str_debug(s: Seq<char>) -> Seq<char>;

/// Formats a character with `Debug` (`format!("{:?}", c)`); the result is
/// named `char_debug(c)`, its exact escaping rules are left to std.
#[verifier::external_body]
pub fn debug_char(c: char) -> (r: String)
    ensures
        r@ == char_debug(c),
{
    format!("{:?}", c)
}

/// Formats a string with `Debug` (`format!("{:?}", s)`); the result is named
/// `str_debug(s@)`, its exact escaping rules are left to std.
#[verifier::external_body]
pub fn debug_str(s: &str) -> (r: String)
    ensures
        r@ == str_debug(s@),
{
    format!("{:?}", s)
}

/// Whether `v` contains `c`.
pub fn contains_char(v: &Vec<char>, c: char) -> (r: bool)
    ensures
        r == v@.contains(c),
{
    let mut i: usize = 0;
    while i < v.len()
        invariant
            i <= v@.len(),
            forall|j: int| 0 <= j < i ==> v@[j] != c,
        decreases v.len() - i,
    {
        if v[i] == c {
            return true;
        }
        i += 1;
    }
    false
}


/// What `str::to_lowercase` returns for `s`.
pub uninterp spec fn lowercase(s: Seq<char>) -> Seq<char>;

/// A character is ASCII.
pub open spec fn is_ascii_char(c: char) -> bool {
    (c as u32) < 0x80
}

/// An ASCII character in lower case: `A`–`Z` become `a`–`z`, every other
/// character stays.
pub open spec fn ascii_lower(c: char) -> char {
    if 'A' <= c && c <= 'Z' {
        ((c as u32) + 32) as char
    } else {
        c
    }
}

/// `str::to_lowercase`: the full Unicode lowercase mapping, named
/// `lowercase(s@)`; its tables are left to std. Its documentation fixes the
/// ASCII case, stated here: an all-ASCII text gets its letters `A`–`Z` put in
/// lower case and keeps every other character (the Unicode lowercase mapping
/// of an ASCII character is `char::to_ascii_lowercase`).
#[verifier::external_body]
pub fn to_lowercase(s: &str) -> (r: String)
    ensures
        r@ == lowercase(s@),
        (forall|i: int| 0 <= i < s@.len() ==> is_ascii_char(#[trigger] s@[i])) ==> r@ == s@.map_values(
            |c: char| ascii_lower(c),
        ),
{
    s.to_lowercase()
}

/// Whether two strings are equal.
pub fn str_eq(a: &str, b: &str) -> (r: bool)
    ensures
        r == (a@ == b@),
{
    let v = chars_of(a);
    if v.len() != b.unicode_len() {
        return false;
    }
    let r = has_at(&v, 0, b);
    assert(v@.subrange(0, b@.len() as int) =~= v@);
    r
}


/// The index of the first character satisfying `p`, or `s.len()`.
pub open spec fn first_index(s: Seq<char>, p: spec_fn(char) -> bool) -> int
    decreases s.len(),
{
    if s.len() == 0 || p(s[0]) {
        0
    } else {
        1 + first_index(s.drop_first(), p)
    }
}

pub proof fn lemma_first_index(s: Seq<char>, p: spec_fn(char) -> bool, k: int)
    requires
        0 <= k <= s.len(),
        k < s.len() ==> p(s[k]),
        forall|i: int| 0 <= i < k ==> !p(#[trigger] s[i]),
    ensures
        first_index(s, p) == k,
    decreases s.len(),
{
    if s.len() > 0 && !p(s[0]) {
        assert(k > 0);
        assert forall|i: int| 0 <= i < k - 1 implies !p(#[trigger] s.drop_first()[i]) by {
            assert(s.drop_first()[i] == s[i + 1]);
        }
        lemma_first_index(s.drop_first(), p, k - 1);
    }
}

/// ASCII letters and digits.
pub open spec fn is_ascii_alnum(c: char) -> bool {
    ('a' <= c && c <= 'z') || ('A' <= c && c <= 'Z') || ('0' <= c && c <= '9')
}

/// `s` is split at every `sep`, empty pieces kept (`str::split`): the pieces
/// completed after the first `i` characters, and the piece being read.
pub open spec fn split_scan(s: Seq<char>, sep: char, i: int) -> (Seq<Seq<char>>, Seq<char>)
    decreases i,
{
    if i <= 0 {
        (seq![], seq![])
    } else {
        let prev = split_scan(s, sep, i - 1);
        if s[i - 1] == sep {
            (prev.0.push(prev.1), seq![])
        } else {
            (prev.0, prev.1.push(s[i - 1]))
        }
    }
}

/// `s` contains `p`.
pub open spec fn contains_text(s: Seq<char>, p: Seq<char>) -> bool {
    find_seq(s, p) is Some
}

/// `s` begins with `p`.
pub open spec fn has_prefix(s: Seq<char>, p: Seq<char>) -> bool {
    p.len() <= s.len() && s.subrange(0, p.len() as int) == p
}

/// Whether `lit` occurs in `v`.
pub fn contains_lit(v: &Vec<char>, lit: &str) -> (r: bool)
    ensures
        r == contains_text(v@, lit@),
{
    let p = chars_of(lit);
    assert(v@.subrange(0, v@.len() as int) =~= v@);
    find_chars(v, 0, v.len(), &p).is_some()
}

/// Whether `lit` occurs in `s` (`str::contains`).
pub fn contains_str(s: &str, lit: &str) -> (r: bool)
    ensures
        r == contains_text(s@, lit@),
{
    let v = chars_of(s);
    contains_lit(&v, lit)
}

/// Whether `s` begins with `lit` (`str::starts_with`).
pub fn starts_with_str(s: &str, lit: &str) -> (r: bool)
    ensures
        r == has_prefix(s@, lit@),
{
    let v = chars_of(s);
    let p = chars_of(lit);
    let r = chars_at(&v, 0, &p);
    assert(r == has_prefix(s@, lit@)) by {
        if p@.len() <= v@.len() {
            assert(v@.subrange(0, p@.len() as int) == s@.subrange(0, lit@.len() as int));
        }
    }
    r
}

/// `s` with every `c` replaced by `by`.
pub open spec fn replace_char(s: Seq<char>, c: char, by: Seq<char>) -> Seq<char>
    decreases s.len(),
{
    if s.len() == 0 {
        seq![]
    } else {
        replace_char(s.drop_last(), c, by) + if s.last() == c {
            by
        } else {
            seq![s.last()]
        }
    }
}

/// `s` with every `c` replaced by `by` (`str::replace`).
pub fn replace_all(s: &str, c: char, by: &str) -> (r: String)
    ensures
        r@ == replace_char(s@, c, by@),
{
    let v = chars_of(s);
    let mut out = String::new();
    let mut i: usize = 0;
    while i < v.len()
        invariant
            v@ == s@,
            i <= v@.len(),
            out@ == replace_char(v@.take(i as int), c, by@),
        decreases v@.len() - i,
    {
        assert(v@.take(i + 1).drop_last() =~= v@.take(i as int));
        if v[i] == c {
            push_str(&mut out, by);
        } else {
            push_char(&mut out, v[i]);
            assert(out@ =~= replace_char(v@.take(i as int), c, by@) + seq![v@[i as int]]);
        }
        i += 1;
    }
    assert(v@.take(v@.len() as int) =~= v@);
    out
}

/// The pieces of `s` between occurrences of `sep` (`str::split`).
pub open spec fn split_on(s: Seq<char>, sep: char) -> Seq<Seq<char>> {
    split_scan(s, sep, s.len() as int).0.push(split_scan(s, sep, s.len() as int).1)
}


/// Whether every character of `v` is whitespace.
pub fn all_whitespace(v: &Vec<char>) -> (r: bool)
    ensures
        r == is_blank(v@),
{
    let mut i: usize = 0;
    while i < v.len()
        invariant
            i <= v@.len(),
            forall|j: int| 0 <= j < i ==> #[trigger] is_ws(v@[j]),
        decreases v.len() - i,
    {
        if !is_whitespace(v[i]) {
            return false;
        }
        i += 1;
    }
    true
}

pub proof fn lemma_byte_len_ge_len(s: Seq<char>)
    ensures
        byte_len(s) >= s.len(),
    decreases s.len(),
{
    if s.len() == 0 {
        assert(encode_utf8(s) =~= Seq::<u8>::empty());
    } else {
        lemma_byte_len_ge_len(s.drop_last());
        lemma_byte_len_push(s.drop_last(), s.last());
        assert(s.drop_last().push(s.last()) =~= s);
    }
}


/// A line without the carriage return that ended it.
pub open spec fn strip_cr(l: Seq<char>) -> Seq<char> {
    if l.len() > 0 && l.last() == '\r' {
        l.drop_last()
    } else {
        l
    }
}

/// The lines of `s` (`str::lines`): split at `\n`, a `\r` before the `\n`
/// dropped, and no empty line after a final line ending.
pub open spec fn str_lines(s: Seq<char>) -> Seq<Seq<char>> {
    let sc = split_scan(s, '\n', s.len() as int);
    let done = sc.0.map_values(|l: Seq<char>| strip_cr(l));
    if sc.1.len() > 0 {
        done.push(sc.1)
    } else {
        done
    }
}

/// The lines of `s`.
pub fn lines_of(s: &str) -> (r: Vec<String>)
    ensures
        r.deep_view() == str_lines(s@),
{
    let v = chars_of(s);
    let n = v.len();
    let mut out: Vec<String> = Vec::new();
    let mut start: usize = 0;
    let mut i: usize = 0;
    while i < n
        invariant
            v@ == s@,
            n == v@.len(),
            start <= i <= n,
            split_scan(s@, '\n', i as int).1 == v@.subrange(start as int, i as int),
            out.deep_view() == split_scan(s@, '\n', i as int).0.map_values(|l: Seq<char>| strip_cr(l)),
        decreases n - i,
    {
        if v[i] == '\n' {
            let end = if i > start && v[i - 1] == '\r' { i - 1 } else { i };
            let line = string_of_range(&v, start, end);
            let ghost before = out.deep_view();
            out.push(line);
            proof {
                let piece = v@.subrange(start as int, i as int);
                assert(line@ == strip_cr(piece)) by {
                    if i > start && v@[i - 1] == '\r' {
                        assert(piece.drop_last() =~= v@.subrange(start as int, i - 1));
                    }
                }
                assert(out.deep_view() =~= before.push(line@));
                assert(split_scan(s@, '\n', i + 1).0 == split_scan(s@, '\n', i as int).0.push(piece));
                assert(split_scan(s@, '\n', i + 1).0.map_values(|l: Seq<char>| strip_cr(l)) =~= split_scan(
                    s@,
                    '\n',
                    i as int,
                ).0.map_values(|l: Seq<char>| strip_cr(l)).push(strip_cr(piece)));
            }
            start = i + 1;
            assert(v@.subrange(start as int, i + 1) =~= Seq::<char>::empty());
        } else {
            assert(v@.subrange(start as int, i + 1) =~= v@.subrange(start as int, i as int).push(v@[i as int]));
        }
        i += 1;
    }
    if start < n {
        let line = string_of_range(&v, start, n);
        let ghost before = out.deep_view();
        out.push(line);
        assert(out.deep_view() =~= before.push(line@));
    }
    out
}


/// `pat` occurs in `s` at `i`.
pub open spec fn matches_at(s: Seq<char>, pat: Seq<char>, i: int) -> bool {
    0 <= i && i + pat.len() <= s.len() && s.subrange(i, i + pat.len()) == pat
}

/// The first occurrence of `pat` in `s` at or after `i`.
pub open spec fn find_from(s: Seq<char>, pat: Seq<char>, i: int) -> Option<int>
    decreases s.len() + 1 - i,
{
    if i < 0 || i + pat.len() > s.len() {
        None
    } else if matches_at(s, pat, i) {
        Some(i)
    } else {
        find_from(s, pat, i + 1)
    }
}

/// The first occurrence of `pat` in `s` (`str::find`, counted in characters).
pub open spec fn find_seq(s: Seq<char>, pat: Seq<char>) -> Option<int> {
    find_from(s, pat, 0)
}

pub proof fn lemma_find_from(s: Seq<char>, pat: Seq<char>, i: int)
    requires
        0 <= i,
    ensures
        match find_from(s, pat, i) {
            Some(k) => i <= k && matches_at(s, pat, k) && forall|j: int| i <= j < k ==> !#[trigger] matches_at(s, pat, j),
            None => forall|j: int| i <= j ==> !#[trigger] matches_at(s, pat, j),
        },
    decreases s.len() + 1 - i,
{
    if i + pat.len() <= s.len() && !matches_at(s, pat, i) {
        lemma_find_from(s, pat, i + 1);
    }
}

/// The characters of `s` as a vector, so that a pattern built at run time
/// can be searched for.
pub fn string_chars(s: &String) -> (v: Vec<char>)
    ensures
        v@ == s@,
{
    chars_of(s.as_str())
}

/// Whether `pat` occurs in `v` at `at`.
pub fn chars_at(v: &Vec<char>, at: usize, pat: &Vec<char>) -> (r: bool)
    ensures
        r == matches_at(v@, pat@, at as int),
{
    if at > v.len() || pat.len() > v.len() - at {
        return false;
    }
    let mut i: usize = 0;
    while i < pat.len()
        invariant
            at + pat@.len() <= v@.len(),
            i <= pat@.len(),
            forall|j: int| 0 <= j < i ==> v@[at + j] == pat@[j],
        decreases pat@.len() - i,
    {
        assert(at + i < v.len());
        let idx: usize = at + i;
        if v[idx] != pat[i] {
            assert(v@.subrange(at as int, at + pat@.len())[i as int] != pat@[i as int]);
            return false;
        }
        i += 1;
    }
    assert(v@.subrange(at as int, at + pat@.len()) =~= pat@);
    true
}

/// The first occurrence of `pat` in `v[from..to]`, as an index into `v`.
pub fn find_chars(v: &Vec<char>, from: usize, to: usize, pat: &Vec<char>) -> (r: Option<usize>)
    requires
        from <= to <= v@.len(),
    ensures
        match find_seq(v@.subrange(from as int, to as int), pat@) {
            Some(k) => r == Some((k + from) as usize),
            None => r is None,
        },
{
    let ghost s = v@.subrange(from as int, to as int);
    let mut i: usize = from;
    while i <= to && pat.len() <= to - i
        invariant
            from <= i <= to + 1,
            to <= v@.len(),
            s == v@.subrange(from as int, to as int),
            find_seq(s, pat@) == find_from(s, pat@, i - from),
        decreases to + 1 - i,
    {
        let hit = chars_at(v, i, pat);
        assert(matches_at(s, pat@, i - from) == hit) by {
            if i + pat@.len() <= to {
                assert(s.subrange(i - from, i - from + pat@.len()) =~= v@.subrange(i as int, i + pat@.len()));
            }
        }
        if hit {
            return Some(i);
        }
        proof {
            if pat@.len() == 0 {
                assert(v@.subrange(i as int, i as int) =~= pat@);
            }
        }
        i += 1;
    }
    None
}


/// The pieces of `s` between occurrences of `sep` (`str::split`).
pub fn split_char(s: &str, sep: char) -> (r: Vec<String>)
    ensures
        r.deep_view() == split_on(s@, sep),
{
    let v = chars_of(s);
    let n = v.len();
    let mut out: Vec<String> = Vec::new();
    let mut start: usize = 0;
    let mut i: usize = 0;
    while i < n
        invariant
            v@ == s@,
            n == v@.len(),
            start <= i <= n,
            split_scan(s@, sep, i as int).1 == v@.subrange(start as int, i as int),
            out.deep_view() == split_scan(s@, sep, i as int).0,
        decreases n - i,
    {
        if v[i] == sep {
            let piece = string_of_range(&v, start, i);
            let ghost before = out.deep_view();
            out.push(piece);
            assert(out.deep_view() =~= before.push(piece@));
            start = i + 1;
            assert(v@.subrange(start as int, i + 1) =~= Seq::<char>::empty());
        } else {
            assert(v@.subrange(start as int, i + 1) =~= v@.subrange(start as int, i as int).push(v@[i as int]));
        }
        i += 1;
    }
    let last = string_of_range(&v, start, n);
    let ghost before = out.deep_view();
    out.push(last);
    assert(out.deep_view() =~= before.push(last@));
    out
}

/// The pieces joined with `sep` (`[T]::join`).
pub open spec fn join_with(ls: Seq<Seq<char>>, sep: Seq<char>) -> Seq<char>
    decreases ls.len(),
{
    if ls.len() == 0 {
        seq![]
    } else if ls.len() == 1 {
        ls[0]
    } else {
        join_with(ls.drop_last(), sep) + sep + ls.last()
    }
}

/// The first `n` strings of `v` joined with `sep`.
pub fn join_first(v: &Vec<String>, n: usize, sep: &str) -> (r: String)
    requires
        n <= v@.len(),
    ensures
        r@ == join_with(v.deep_view().take(n as int), sep@),
{
    let ghost vv = v.deep_view();
    let mut out = String::new();
    let mut k: usize = 0;
    while k < n
        invariant
            vv == v.deep_view(),
            n <= vv.len(),
            k <= n,
            out@ == join_with(vv.take(k as int), sep@),
        decreases n - k,
    {
        assert(vv.take(k + 1).drop_last() =~= vv.take(k as int));
        assert(vv.take(k + 1).last() == v@[k as int]@);
        if k > 0 {
            push_str(&mut out, sep);
        }
        push_str(&mut out, v[k].as_str());
        proof {
            if k == 0 {
                assert(out@ =~= vv.take(1)[0]);
            }
        }
        k += 1;
    }
    out
}


/// `s` with every leading repetition of `p` removed (`str::trim_start_matches`).
pub open spec fn strip_leading(s: Seq<char>, p: Seq<char>) -> Seq<char>
    decreases s.len(),
{
    if p.len() > 0 && p.len() <= s.len() && s.subrange(0, p.len() as int) == p {
        strip_leading(s.skip(p.len() as int), p)
    } else {
        s
    }
}

/// `s` with every trailing repetition of `p` removed (`str::trim_end_matches`).
pub open spec fn strip_trailing(s: Seq<char>, p: Seq<char>) -> Seq<char>
    decreases s.len(),
{
    if p.len() > 0 && p.len() <= s.len() && s.subrange(s.len() - p.len(), s.len() as int) == p {
        strip_trailing(s.subrange(0, s.len() - p.len()), p)
    } else {
        s
    }
}

/// The bounds of `strip_trailing(strip_leading(v[a..b], pre), suf)` in `v`.
pub fn strip_bounds(v: &Vec<char>, a: usize, b: usize, pre: &str, suf: &str) -> (r: (usize, usize))
    requires
        a <= b <= v@.len(),
    ensures
        a <= r.0 <= r.1 <= b,
        v@.subrange(r.0 as int, r.1 as int) == strip_trailing(strip_leading(v@.subrange(a as int, b as int), pre@), suf@),
{
    let np = pre.unicode_len();
    let ns = suf.unicode_len();
    let mut i = a;
    while np > 0 && np <= b - i && has_at(v, i, pre)
        invariant
            a <= i <= b <= v@.len(),
            np == pre@.len(),
            strip_leading(v@.subrange(a as int, b as int), pre@) == strip_leading(v@.subrange(i as int, b as int), pre@),
        decreases b - i,
    {
        proof {
            let t = v@.subrange(i as int, b as int);
            assert(t.subrange(0, np as int) =~= v@.subrange(i as int, i + np));
            assert(t.skip(np as int) =~= v@.subrange(i + np, b as int));
        }
        i += np;
    }
    proof {
        let t = v@.subrange(i as int, b as int);
        if np > 0 && np <= b - i {
            assert(t.subrange(0, np as int) =~= v@.subrange(i as int, i + np));
        }
    }
    let mut j = b;
    while ns > 0 && ns <= j - i && has_at(v, j - ns, suf)
        invariant
            i <= j <= b <= v@.len(),
            ns == suf@.len(),
            strip_trailing(v@.subrange(i as int, b as int), suf@) == strip_trailing(v@.subrange(i as int, j as int), suf@),
        decreases j,
    {
        proof {
            let t = v@.subrange(i as int, j as int);
            assert(t.subrange(t.len() - ns, t.len() as int) =~= v@.subrange(j - ns, j as int));
            assert(t.subrange(0, t.len() - ns) =~= v@.subrange(i as int, j - ns));
        }
        j -= ns;
    }
    proof {
        let t = v@.subrange(i as int, j as int);
        if ns > 0 && ns <= j - i {
            assert(t.subrange(t.len() - ns, t.len() as int) =~= v@.subrange(j - ns, j as int));
        }
    }
    (i, j)
}

pub open spec fn is_ascii_digit(c: char) -> bool {
    '0' <= c && c <= '9'
}

/// The number the decimal digits `r` write.
pub open spec fn digits_value(r: Seq<char>) -> int
    decreases r.len(),
{
    if r.len() == 0 {
        0
    } else {
        digits_value(r.drop_last()) * 10 + ((r.last() as int) - ('0' as int))
    }
}

/// Every character of `d` is an ASCII digit.
pub open spec fn all_digits(d: Seq<char>) -> bool {
    forall|i: int| 0 <= i < d.len() ==> #[trigger] is_ascii_digit(d[i])
}

/// The digits of a number to parse: after an optional `+`.
pub open spec fn unsigned_digits(s: Seq<char>) -> Seq<char> {
    if s.len() > 0 && s[0] == '+' {
        s.skip(1)
    } else {
        s
    }
}

/// What `str::parse::<u64>` gives: an optional `+`, then at least one ASCII
/// digit, and a value that fits.
pub open spec fn parsed_u64(s: Seq<char>) -> Option<u64> {
    let d = unsigned_digits(s);
    if d.len() > 0 && all_digits(d) && digits_value(d) <= u64::MAX {
        Some(digits_value(d) as u64)
    } else {
        None
    }
}

/// Reads a decimal number as `str::parse::<u64>` does.
pub fn parse_u64(s: &str) -> (r: Option<u64>)
    ensures
        r == parsed_u64(s@),
{
    let v = chars_of(s);
    let start: usize = if v.len() > 0 && v[0] == '+' { 1 } else { 0 };
    let ghost d = unsigned_digits(s@);
    assert(d =~= v@.subrange(start as int, v@.len() as int));
    if start >= v.len() {
        return None;
    }
    let mut value: u64 = 0;
    let mut i = start;
    while i < v.len()
        invariant
            v@ == s@,
            d == unsigned_digits(s@),
            start <= i <= v@.len(),
            start < v@.len(),
            d == v@.subrange(start as int, v@.len() as int),
            forall|k: int| start <= k < i ==> #[trigger] is_ascii_digit(v@[k]),
            value == digits_value(v@.subrange(start as int, i as int)),
        decreases v@.len() - i,
    {
        let c = v[i];
        if !('0' <= c && c <= '9') {
            assert(!is_ascii_digit(d[i - start]));
            assert(!all_digits(d));
            return None;
        }
        let digit = ((c as u32) - ('0' as u32)) as u64;
        assert(v@.subrange(start as int, i + 1).drop_last() =~= v@.subrange(start as int, i as int));
        if value > (u64::MAX - digit) / 10 {
            proof {
                assert(value * 10 + digit > u64::MAX) by (nonlinear_arith)
                    requires
                        value > (u64::MAX - digit) / 10,
                        digit <= 9,
                ;
                assert(d.subrange(0, i + 1 - start) =~= v@.subrange(start as int, i + 1));
                if all_digits(d) {
                    lemma_digits_value_grows(d, i + 1 - start);
                }
            }
            return None;
        }
        assert(value * 10 + digit <= u64::MAX) by (nonlinear_arith)
            requires
                value <= (u64::MAX - digit) / 10,
                digit <= 9,
        ;
        value = value * 10 + digit;
        i += 1;
    }
    Some(value)
}

/// A number's digits written on can only make it larger.
pub proof fn lemma_digits_value_grows(d: Seq<char>, k: int)
    requires
        0 <= k <= d.len(),
        forall|i: int| 0 <= i < d.len() ==> #[trigger] is_ascii_digit(d[i]),
    ensures
        digits_value(d.subrange(0, k)) <= digits_value(d),
    decreases d.len() - k,
{
    if k < d.len() {
        lemma_digits_value_grows(d, k + 1);
        assert(d.subrange(0, k + 1).drop_last() =~= d.subrange(0, k));
        assert(d.subrange(0, k + 1).last() == d[k]);
        assert(is_ascii_digit(d[k]));
        lemma_digits_value_nonneg(d.subrange(0, k));
    } else {
        assert(d.subrange(0, k) =~= d);
    }
}

pub proof fn lemma_digits_value_nonneg(d: Seq<char>)
    requires
        forall|i: int| 0 <= i < d.len() ==> #[trigger] is_ascii_digit(d[i]),
    ensures
        digits_value(d) >= 0,
    decreases d.len(),
{
    if d.len() > 0 {
        lemma_digits_value_nonneg(d.drop_last());
        assert(is_ascii_digit(d[d.len() - 1]));
    }
}

} // verus!
