//! Temporary names and the administrator commands that move applications
//! into place: a staged copy and a backup share one random nonce, and every
//! path in a shell command is single-quoted.
use vstd::prelude::*;
use crate::guard::{posix_shell_quote, sh_escape};
use crate::system::{decimal_text, push_decimal};
use crate::text::{push_str, has_prefix, starts_with_str, chars_of, chars_at};

verus! {

/// Whether `c` is a lower-case hexadecimal digit.
pub open spec fn is_lower_hex(c: char) -> bool {
    ('0' <= c && c <= '9') || ('a' <= c && c <= 'f')
}

/// The text form of a random (version 4) UUID: 8-4-4-4-12 lower-case
/// hexadecimal digits, version digit `4`, variant digit one of `8`, `9`,
/// `a`, `b`.
pub open spec fn is_uuid_text(s: Seq<char>) -> bool {
    &&& s.len() == 36
    &&& forall|i: int| 0 <= i < 36 ==> (#[trigger] s[i] == '-' <==> (i == 8 || i == 13 || i == 18 || i == 23))
    &&& forall|i: int| 0 <= i < 36 && i != 8 && i != 13 && i != 18 && i != 23 ==> is_lower_hex(#[trigger] s[i])
    &&& s[14] == '4'
    &&& (s[19] == '8' || s[19] == '9' || s[19] == 'a' || s[19] == 'b')
}

/// A fresh random identifier: `uuid::Uuid::new_v4()` written with
/// `Display` (the hyphenated lower-case form). The identifier is random;
/// only its shape is stated.
#[verifier::external_body]
pub(crate) fn random_uuid() -> (r: String)
    ensures
        is_uuid_text(r@),
{
    uuid::Uuid::new_v4().to_string()
}

// ── Names ───────────────────────────────────────────────────────────────────

/// The staged copy and the backup made while replacing an application.
pub open spec fn staging_pair(nonce: Seq<char>) -> (Seq<char>, Seq<char>) {
    (".burrow-update-"@ + nonce + ".app"@, ".burrow-backup-"@ + nonce + ".app"@)
}

/// The names of the staged copy and the backup for a given nonce.
pub fn staging_names_with(nonce: &str) -> (r: (String, String))
    ensures
        (r.0@, r.1@) == staging_pair(nonce@),
{
    let mut staged = String::new();
    push_str(&mut staged, ".burrow-update-");
    push_str(&mut staged, nonce);
    push_str(&mut staged, ".app");
    let mut backup = String::new();
    push_str(&mut backup, ".burrow-backup-");
    push_str(&mut backup, nonce);
    push_str(&mut backup, ".app");
    (staged, backup)
}

/// Fresh names for the staged copy and the backup, sharing one random
/// nonce.
pub fn staging_names() -> (r: (String, String))
    ensures
        exists|nonce: Seq<char>| is_uuid_text(nonce) && (r.0@, r.1@) == staging_pair(nonce),
{
    let nonce = random_uuid();
    staging_names_with(nonce.as_str())
}

/// The name of the thinned copy prepared beside an application.
pub open spec fn thinned_name(nonce: Seq<char>) -> Seq<char> {
    ".burrow-thinned-"@ + nonce + ".app"@
}

/// A fresh name for the thinned copy of an application.
pub fn thinned_copy_name() -> (r: String)
    ensures
        exists|nonce: Seq<char>| is_uuid_text(nonce) && r@ == thinned_name(nonce),
{
    let nonce = random_uuid();
    let mut r = String::new();
    push_str(&mut r, ".burrow-thinned-");
    push_str(&mut r, nonce.as_str());
    push_str(&mut r, ".app");
    r
}

/// The name a file is kept under in quarantine: the time it was
/// quarantined, a nonce, and its own name.
pub open spec fn quarantine_name_of(secs: nat, nonce: Seq<char>, file_name: Seq<char>) -> Seq<char> {
    decimal_text(secs) + "_"@ + nonce + "_"@ + file_name
}

/// The quarantine name for a given time and nonce.
pub fn quarantine_name_with(secs: u64, nonce: &str, file_name: &str) -> (r: String)
    ensures
        r@ == quarantine_name_of(secs as nat, nonce@, file_name@),
{
    let mut r = String::new();
    push_decimal(&mut r, secs);
    push_str(&mut r, "_");
    push_str(&mut r, nonce);
    push_str(&mut r, "_");
    push_str(&mut r, file_name);
    r
}

/// A fresh quarantine name for a file quarantined at `secs`.
pub fn quarantine_name(secs: u64, file_name: &str) -> (r: String)
    ensures
        exists|nonce: Seq<char>| is_uuid_text(nonce) && r@ == quarantine_name_of(secs as nat, nonce, file_name@),
{
    let nonce = random_uuid();
    quarantine_name_with(secs, nonce.as_str(), file_name)
}

// ── Administrator commands ──────────────────────────────────────────────────

/// `s` single-quoted for the shell.
pub open spec fn quoted(s: Seq<char>) -> Seq<char> {
    seq!['\''] + sh_escape(s) + seq!['\'']
}

/// Removes `path` recursively.
pub open spec fn remove_command_of(path: Seq<char>) -> Seq<char> {
    "/bin/rm -rf "@ + quoted(path)
}

/// The command removing `path` recursively.
pub fn remove_command(path: &str) -> (r: String)
    ensures
        r@ == remove_command_of(path@),
{
    let mut r = String::new();
    push_str(&mut r, "/bin/rm -rf ");
    let q = posix_shell_quote(path);
    push_str(&mut r, q.as_str());
    r
}

/// Moves `source` to `destination`.
pub open spec fn move_command_of(source: Seq<char>, destination: Seq<char>) -> Seq<char> {
    "/bin/mv "@ + quoted(source) + " "@ + quoted(destination)
}

/// The command moving `source` to `destination`.
pub fn move_command(source: &str, destination: &str) -> (r: String)
    ensures
        r@ == move_command_of(source@, destination@),
{
    let mut r = String::new();
    push_str(&mut r, "/bin/mv ");
    let s = posix_shell_quote(source);
    push_str(&mut r, s.as_str());
    push_str(&mut r, " ");
    let d = posix_shell_quote(destination);
    push_str(&mut r, d.as_str());
    r
}

/// Copies `source` afresh to the staging location `stage`.
pub open spec fn restage_command_of(stage: Seq<char>, source: Seq<char>) -> Seq<char> {
    "/bin/rm -rf "@ + quoted(stage) + " && /usr/bin/ditto "@ + quoted(source) + " "@ + quoted(stage)
}

/// The command copying `source` afresh to `stage`.
pub fn restage_command(stage: &str, source: &str) -> (r: String)
    ensures
        r@ == restage_command_of(stage@, source@),
{
    let st = posix_shell_quote(stage);
    let so = posix_shell_quote(source);
    let mut r = String::new();
    push_str(&mut r, "/bin/rm -rf ");
    push_str(&mut r, st.as_str());
    push_str(&mut r, " && /usr/bin/ditto ");
    push_str(&mut r, so.as_str());
    push_str(&mut r, " ");
    push_str(&mut r, st.as_str());
    r
}

/// Replaces `destination` with the staged copy, keeping a backup that is
/// put back if the staged copy cannot be moved in.
pub open spec fn replace_command_of(destination: Seq<char>, staging: Seq<char>, backup: Seq<char>) -> Seq<char> {
    let d = quoted(destination);
    let s = quoted(staging);
    let b = quoted(backup);
    "/bin/mv "@ + d + " "@ + b + " && if /bin/mv "@ + s + " "@ + d + "; then /bin/rm -rf "@ + b
        + "; else /bin/mv "@ + b + " "@ + d + "; exit 1; fi"@
}

/// The command replacing `destination` with the staged copy.
pub fn replace_command(destination: &str, staging: &str, backup: &str) -> (r: String)
    ensures
        r@ == replace_command_of(destination@, staging@, backup@),
{
    let d = posix_shell_quote(destination);
    let s = posix_shell_quote(staging);
    let b = posix_shell_quote(backup);
    let mut r = String::new();
    push_str(&mut r, "/bin/mv ");
    push_str(&mut r, d.as_str());
    push_str(&mut r, " ");
    push_str(&mut r, b.as_str());
    push_str(&mut r, " && if /bin/mv ");
    push_str(&mut r, s.as_str());
    push_str(&mut r, " ");
    push_str(&mut r, d.as_str());
    push_str(&mut r, "; then /bin/rm -rf ");
    push_str(&mut r, b.as_str());
    push_str(&mut r, "; else /bin/mv ");
    push_str(&mut r, b.as_str());
    push_str(&mut r, " ");
    push_str(&mut r, d.as_str());
    push_str(&mut r, "; exit 1; fi");
    r
}

/// Whether a file name is that of a thinned copy this application
/// prepared: `.burrow-thinned-<nonce>.app`. Only such a copy is ever removed when
/// thinning fails.
pub open spec fn prepared_copy(name: Seq<char>) -> bool {
    has_prefix(name, ".burrow-thinned-"@) && ".app"@.len() <= name.len()
        && name.subrange(name.len() - 4, name.len() as int) == ".app"@
}

/// Whether a file name is that of a prepared thinned copy.
pub fn is_prepared_copy(name: &str) -> (r: bool)
    ensures
        r == prepared_copy(name@),
{
    if !starts_with_str(name, ".burrow-thinned-") {
        return false;
    }
    let v = chars_of(name);
    let suffix = chars_of(".app");
    proof {
        reveal_strlit(".app");
    }
    if v.len() < suffix.len() {
        return false;
    }
    chars_at(&v, v.len() - suffix.len(), &suffix)
}

/// Removes a prepared copy recursively (`--` before the path).
pub open spec fn remove_prepared_command_of(path: Seq<char>) -> Seq<char> {
    "/bin/rm -rf -- "@ + quoted(path)
}

/// The command removing a prepared copy.
pub fn remove_prepared_command(path: &str) -> (r: String)
    ensures
        r@ == remove_prepared_command_of(path@),
{
    let mut r = String::new();
    push_str(&mut r, "/bin/rm -rf -- ");
    let q = posix_shell_quote(path);
    push_str(&mut r, q.as_str());
    r
}

/// Copies a prepared application to `destination` without the quarantine
/// attribute.
pub open spec fn install_copy_command_of(source: Seq<char>, destination: Seq<char>) -> Seq<char> {
    "/usr/bin/ditto --noqtn "@ + quoted(source) + " "@ + quoted(destination)
}

/// The command copying a prepared application into place.
pub fn install_copy_command(source: &str, destination: &str) -> (r: String)
    ensures
        r@ == install_copy_command_of(source@, destination@),
{
    let mut r = String::new();
    push_str(&mut r, "/usr/bin/ditto --noqtn ");
    let s = posix_shell_quote(source);
    push_str(&mut r, s.as_str());
    push_str(&mut r, " ");
    let d = posix_shell_quote(destination);
    push_str(&mut r, d.as_str());
    r
}


} // verus!
