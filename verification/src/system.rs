//! Small rules around privileged and system commands: what an administrator
//! command line may hold, how a command is quoted for AppleScript, the Touch
//! ID prompt, launch-item bundle prefixes and the uptime shown to the user.
use vstd::prelude::*;
use crate::guard::{posix_shell_quote, sh_escape};
use crate::paths::{PathParts, path_comps, path_stem};
use crate::text::{
    chars_of, push_char, push_str, split_char, split_on, join_first, join_with, trim, trim_bounds,
    contains_char, string_of_range,
};

verus! {

// ── Administrator commands ──────────────────────────────────────────────────

/// A command line for the administrator shell: one line, no NUL.
pub open spec fn admin_script_ok(s: Seq<char>) -> bool {
    !s.contains('\n') && !s.contains('\r') && !s.contains('\0')
}

/// Checks a command line before it is run with administrator rights.
pub fn validate_admin_script(script: &str) -> (r: Result<(), String>)
    ensures
        r is Ok <==> admin_script_ok(script@),
        r matches Err(m) ==> m@ == "Commande administrateur invalide"@,
{
    let v = chars_of(script);
    if contains_char(&v, '\n') || contains_char(&v, '\r') || contains_char(&v, '\0') {
        let mut m = String::new();
        push_str(&mut m, "Commande administrateur invalide");
        return Err(m);
    }
    Ok(())
}

/// One character of an AppleScript string literal.
pub open spec fn applescript_char(c: char) -> Seq<char> {
    if c == '\\' {
        seq!['\\', '\\']
    } else if c == '"' {
        seq!['\\', '"']
    } else {
        seq![c]
    }
}

/// The body of an AppleScript string literal for `s`.
pub open spec fn applescript_escaped(s: Seq<char>) -> Seq<char>
    decreases s.len(),
{
    if s.len() == 0 {
        seq![]
    } else {
        applescript_escaped(s.drop_last()) + applescript_char(s.last())
    }
}

/// An AppleScript string literal holding a shell command.
pub fn posix_applescript_string(shell_cmd: &str) -> (r: String)
    ensures
        r@ == seq!['"'] + applescript_escaped(shell_cmd@) + seq!['"'],
{
    let v = chars_of(shell_cmd);
    let mut out = String::new();
    push_char(&mut out, '"');
    let mut i: usize = 0;
    while i < v.len()
        invariant
            v@ == shell_cmd@,
            i <= v@.len(),
            out@ == seq!['"'] + applescript_escaped(v@.take(i as int)),
        decreases v@.len() - i,
    {
        let c = v[i];
        assert(v@.take(i + 1).drop_last() =~= v@.take(i as int));
        if c == '\\' || c == '"' {
            push_char(&mut out, '\\');
        }
        push_char(&mut out, c);
        assert(out@ =~= seq!['"'] + applescript_escaped(v@.take(i + 1)));
        i += 1;
    }
    assert(v@.take(v@.len() as int) =~= v@);
    push_char(&mut out, '"');
    out
}

/// What AppleScript reads from the body `t` of a string literal, up to and
/// including its closing quote: a backslash takes the next character as it
/// is, a double quote ends the literal (and must be last). Nothing when the
/// literal is not closed at the very end.
pub open spec fn literal_body(t: Seq<char>) -> Option<Seq<char>>
    decreases t.len(),
{
    if t.len() == 0 {
        None
    } else if t[0] == '"' {
        if t.len() == 1 {
            Some(seq![])
        } else {
            None
        }
    } else if t[0] == '\\' {
        if t.len() >= 2 {
            crate::guard::prepend(t[1], literal_body(t.skip(2)))
        } else {
            None
        }
    } else {
        crate::guard::prepend(t[0], literal_body(t.skip(1)))
    }
}

/// The text an AppleScript string literal `q` denotes.
pub open spec fn applescript_literal(q: Seq<char>) -> Option<Seq<char>> {
    if q.len() > 0 && q[0] == '"' {
        literal_body(q.skip(1))
    } else {
        None
    }
}

proof fn lemma_applescript_escaped_concat(a: Seq<char>, b: Seq<char>)
    ensures
        applescript_escaped(a + b) == applescript_escaped(a) + applescript_escaped(b),
    decreases b.len(),
{
    if b.len() == 0 {
        assert(a + b =~= a);
        assert(applescript_escaped(a) + applescript_escaped(b) =~= applescript_escaped(a));
    } else {
        lemma_applescript_escaped_concat(a, b.drop_last());
        assert((a + b).drop_last() =~= a + b.drop_last());
        assert((a + b).last() == b.last());
    }
}

proof fn lemma_literal_reads_escaped(s: Seq<char>, t: Seq<char>)
    ensures
        literal_body(applescript_escaped(s) + t) == match literal_body(t) {
            Some(r) => Some(s + r),
            None => None::<Seq<char>>,
        },
    decreases s.len(),
{
    if s.len() == 0 {
        assert(applescript_escaped(s) + t =~= t);
        match literal_body(t) {
            Some(r) => {
                assert(s + r =~= r);
            },
            None => {},
        }
    } else {
        let c = s[0];
        let rest = s.skip(1);
        assert(s =~= seq![c] + rest);
        lemma_applescript_escaped_concat(seq![c], rest);
        assert(seq![c].drop_last() =~= Seq::<char>::empty());
        assert(applescript_escaped(Seq::<char>::empty()) =~= Seq::<char>::empty());
        lemma_literal_reads_escaped(rest, t);
        let tail = applescript_escaped(rest) + t;
        let q = applescript_escaped(s) + t;
        if c == '\\' || c == '"' {
            assert(q =~= seq!['\\', c] + tail);
            assert(q.skip(2) =~= tail);
            assert(q[0] == '\\' && q[1] == c);
            assert(literal_body(q) == crate::guard::prepend(c, literal_body(tail)));
        } else {
            assert(q =~= seq![c] + tail);
            assert(q.skip(1) =~= tail);
            assert(q[0] == c);
            assert(literal_body(q) == crate::guard::prepend(c, literal_body(tail)));
        }
        match literal_body(t) {
            Some(r) => {
                assert(seq![c] + (rest + r) =~= s + r);
            },
            None => {},
        }
    }
}

/// Law: the string literal written for a shell command is read back by
/// AppleScript as exactly that command, whatever it holds (quotes and
/// backslashes included), and it ends where the literal was closed.
pub proof fn law_applescript_literal_roundtrip(s: Seq<char>)
    ensures
        applescript_literal(seq!['"'] + applescript_escaped(s) + seq!['"']) == Some(s),
{
    let q = seq!['"'] + applescript_escaped(s) + seq!['"'];
    assert(q.skip(1) =~= applescript_escaped(s) + seq!['"']);
    lemma_literal_reads_escaped(s, seq!['"']);
    assert(q[0] == '"');
    assert(literal_body(seq!['"']) == Some(Seq::<char>::empty()));
    assert(s + Seq::<char>::empty() =~= s);
}

/// The AppleScript that runs a shell command with administrator privileges
/// (the password dialog).
pub fn admin_applescript(script: &str) -> (r: String)
    ensures
        r@ == "do shell script "@ + (seq!['"'] + applescript_escaped(script@) + seq!['"'])
            + " with administrator privileges"@,
{
    let mut r = String::new();
    push_str(&mut r, "do shell script ");
    let lit = posix_applescript_string(script);
    push_str(&mut r, lit.as_str());
    push_str(&mut r, " with administrator privileges");
    r
}

/// A character allowed in a POSIX account name.
pub open spec fn account_char(c: char) -> bool {
    ('a' <= c && c <= 'z') || ('A' <= c && c <= 'Z') || ('0' <= c && c <= '9') || c == '_' || c == '-'
}

/// The account the application runs for: a name of letters, digits, `_`
/// and `-`, and an absolute home directory.
pub open spec fn valid_account(name: Seq<char>, home: Seq<char>) -> bool {
    name.len() > 0 && (forall|i: int| 0 <= i < name.len() ==> account_char(#[trigger] name[i])) && home.len()
        > 0 && home[0] == '/'
}

/// Checks the account the application runs for.
pub fn validate_user_record(name: &str, home: &str) -> (r: Result<(), String>)
    ensures
        r is Ok <==> valid_account(name@, home@),
        r matches Err(e) ==> e@ == "Compte utilisateur POSIX invalide"@,
{
    let v = chars_of(name);
    let mut ok = v.len() > 0;
    let mut i: usize = 0;
    while i < v.len()
        invariant
            v@ == name@,
            i <= v@.len(),
            ok == (v@.len() > 0 && forall|j: int| 0 <= j < i ==> account_char(#[trigger] v@[j])),
        decreases v@.len() - i,
    {
        let c = v[i];
        if !(('a' <= c && c <= 'z') || ('A' <= c && c <= 'Z') || ('0' <= c && c <= '9') || c == '_' || c == '-') {
            ok = false;
        }
        i += 1;
    }
    let h = chars_of(home);
    if ok && h.len() > 0 && h[0] == '/' {
        Ok(())
    } else {
        let mut e = String::new();
        push_str(&mut e, "Compte utilisateur POSIX invalide");
        Err(e)
    }
}

/// A value quoted for the POSIX shell.
pub fn posix_shell_quote_value(s: &str) -> (r: String)
    ensures
        r@ == seq!['\''] + sh_escape(s@) + seq!['\''],
{
    posix_shell_quote(s)
}

// ── Touch ID ────────────────────────────────────────────────────────────────

/// The reason shown in the Touch ID prompt: not blank, at most 200
/// characters, no NUL.
pub open spec fn touchid_reason_ok(r: Seq<char>) -> bool {
    trim(r).len() > 0 && r.len() <= 200 && !r.contains('\0')
}

/// Checks the reason shown in the Touch ID prompt.
pub fn validate_touchid_reason(reason: &str) -> (r: Result<(), String>)
    ensures
        r is Ok <==> touchid_reason_ok(reason@),
        r matches Err(m) ==> m@ == "Motif Touch ID invalide"@,
{
    let v = chars_of(reason);
    let (a, b) = trim_bounds(&v);
    if a == b || v.len() > 200 || contains_char(&v, '\0') {
        proof {
            if a == b {
                assert(v@.subrange(a as int, b as int).len() == 0);
            }
        }
        let mut m = String::new();
        push_str(&mut m, "Motif Touch ID invalide");
        return Err(m);
    }
    Ok(())
}

// ── Launch items ────────────────────────────────────────────────────────────

/// How many dot-separated parts of a launch item's name identify its
/// publisher: three of five or more, else all but the last, at least two.
pub open spec fn prefix_part_count(len: nat) -> nat {
    if len >= 5 {
        3
    } else {
        let a: nat = if len >= 1 { (len - 1) as nat } else { 0 };
        let b: nat = if a > 2 { a } else { 2 };
        if b < len { b } else { len }
    }
}

/// The publisher prefix of a launch item's property list: the leading parts
/// of its file stem (`com.vendor` of `com.vendor.agent.plist`).
pub open spec fn bundle_prefix_of(plist_path: Seq<char>) -> Seq<char> {
    let stem = match path_stem(path_comps(plist_path)) {
        Some(s) => s,
        None => seq![],
    };
    let parts = split_on(stem, '.');
    join_with(parts.take(prefix_part_count(parts.len()) as int), "."@)
}

/// The publisher prefix of a launch item's property list.
pub fn bundle_prefix(plist_path: &str) -> (r: String)
    ensures
        r@ == bundle_prefix_of(plist_path@),
{
    let p = PathParts::parse(plist_path);
    let stem = match p.stem_range() {
        Some((a, b)) => string_of_range(&p.chars, a, b),
        None => String::new(),
    };
    let parts = split_char(stem.as_str(), '.');
    let len = parts.len();
    let n = if len >= 5 {
        3
    } else {
        let a = if len >= 1 { len - 1 } else { 0 };
        let b = if a > 2 { a } else { 2 };
        if b < len { b } else { len }
    };
    join_first(&parts, n, ".")
}

// ── Uptime ──────────────────────────────────────────────────────────────────

/// The decimal digits of `n`.
pub open spec fn decimal_text(n: nat) -> Seq<char>
    decreases n,
{
    if n < 10 {
        seq![digit_char(n)]
    } else {
        decimal_text(n / 10).push(digit_char(n % 10))
    }
}

pub open spec fn digit_char(d: nat) -> char {
    seq!['0', '1', '2', '3', '4', '5', '6', '7', '8', '9'][d as int]
}

pub fn push_decimal(out: &mut String, n: u64)
    ensures
        final(out)@ == old(out)@ + decimal_text(n as nat),
    decreases n,
{
    let digits: [char; 10] = ['0', '1', '2', '3', '4', '5', '6', '7', '8', '9'];
    assert(digits@ =~= seq!['0', '1', '2', '3', '4', '5', '6', '7', '8', '9']);
    if n >= 10 {
        push_decimal(out, n / 10);
    }
    push_char(out, digits[(n % 10) as usize]);
    proof {
        if n < 10 {
            assert(n % 10 == n);
        }
    }
}

/// How long the machine has been up, for display: minutes under an hour,
/// hours and minutes under a day, else days and hours.
pub open spec fn uptime_text(secs: nat) -> Seq<char> {
    let d = secs / 86400;
    let h = (secs % 86400) / 3600;
    let m = (secs % 3600) / 60;
    if d == 0 && h == 0 {
        decimal_text(m) + " min"@
    } else if d == 0 {
        decimal_text(h) + "h "@ + decimal_text(m) + "min"@
    } else {
        decimal_text(d) + "j "@ + decimal_text(h) + "h"@
    }
}

/// The uptime shown to the user.
pub fn format_uptime(secs: u64) -> (r: String)
    ensures
        r@ == uptime_text(secs as nat),
{
    let d = secs / 86400;
    let h = (secs % 86400) / 3600;
    let m = (secs % 3600) / 60;
    let mut out = String::new();
    if d == 0 && h == 0 {
        push_decimal(&mut out, m);
        push_str(&mut out, " min");
    } else if d == 0 {
        push_decimal(&mut out, h);
        push_str(&mut out, "h ");
        push_decimal(&mut out, m);
        push_str(&mut out, "min");
    } else {
        push_decimal(&mut out, d);
        push_str(&mut out, "j ");
        push_decimal(&mut out, h);
        push_str(&mut out, "h");
    }
    out
}

} // verus!
