//! The activity journal: what each recorded entry holds, and how the journal
//! is listed and kept small. Reading and writing the journal file is the
//! caller's.
use vstd::prelude::*;
use crate::text::{chars_of, is_control, is_ctrl, push_char};

verus! {

/// The journal file is compacted once it is larger than this many bytes.
pub const MAX_LOG_BYTES: u64 = 2 * 1024 * 1024;

/// Compaction keeps this many of the most recent entries.
pub const MAX_RETAINED_ENTRIES: usize = 1_000;

/// A listing returns at most this many entries.
pub const MAX_RETURNED_ENTRIES: usize = 500;

/// One recorded action.
pub struct ActivityEntry {
    pub id: String,
    pub timestamp: u64,
    pub category: String,
    pub action: String,
    pub status: String,
    pub summary: String,
    pub bytes: Option<u64>,
    pub reversible: bool,
}

/// A character kept in journal text: anything but a control character,
/// tabs excepted.
pub open spec fn kept_in_journal(c: char) -> bool {
    !is_ctrl(c) || c == '\t'
}

/// The characters of `s` kept in journal text.
pub open spec fn journal_chars(s: Seq<char>) -> Seq<char>
    decreases s.len(),
{
    if s.len() == 0 {
        seq![]
    } else if kept_in_journal(s.last()) {
        journal_chars(s.drop_last()).push(s.last())
    } else {
        journal_chars(s.drop_last())
    }
}

/// Journal text: control characters (but tabs) removed, at most `max`
/// characters kept.
pub open spec fn sanitized(s: Seq<char>, max: nat) -> Seq<char> {
    let f = journal_chars(s);
    if f.len() <= max {
        f
    } else {
        f.take(max as int)
    }
}

pub proof fn lemma_journal_chars(s: Seq<char>)
    ensures
        journal_chars(s).len() <= s.len(),
        forall|i: int| 0 <= i < journal_chars(s).len() ==> #[trigger] kept_in_journal(journal_chars(s)[i]),
    decreases s.len(),
{
    if s.len() > 0 {
        lemma_journal_chars(s.drop_last());
    }
}

/// Journal text for `value`.
pub fn sanitize(value: &str, max_chars: usize) -> (r: String)
    ensures
        r@ == sanitized(value@, max_chars as nat),
{
    let v = chars_of(value);
    let mut out = String::new();
    let mut count: usize = 0;
    let mut i: usize = 0;
    while i < v.len() && count < max_chars
        invariant
            v@ == value@,
            i <= v@.len(),
            out@ == journal_chars(v@.take(i as int)),
            count == out@.len(),
            count <= max_chars,
        decreases v@.len() - i,
    {
        let c = v[i];
        assert(v@.take(i + 1).drop_last() =~= v@.take(i as int));
        if !is_control(c) || c == '\t' {
            push_char(&mut out, c);
            count += 1;
        }
        i += 1;
    }
    proof {
        lemma_journal_chars(v@);
        if i == v@.len() {
            assert(v@.take(i as int) =~= v@);
        } else {
            // The rest only adds characters after the first `max_chars`.
            lemma_journal_prefix(v@, i as int);
            assert(journal_chars(v@).take(max_chars as int) =~= out@);
        }
    }
    out
}

/// What is kept of a prefix is a prefix of what is kept.
pub proof fn lemma_journal_prefix(s: Seq<char>, i: int)
    requires
        0 <= i <= s.len(),
    ensures
        journal_chars(s.take(i)).len() <= journal_chars(s).len(),
        journal_chars(s).take(journal_chars(s.take(i)).len() as int) == journal_chars(s.take(i)),
    decreases s.len() - i,
{
    if i < s.len() {
        lemma_journal_prefix(s, i + 1);
        assert(s.take(i + 1).drop_last() =~= s.take(i));
        let a = journal_chars(s.take(i));
        let b = journal_chars(s.take(i + 1));
        assert(b.take(a.len() as int) =~= a);
        assert(journal_chars(s).take(a.len() as int) =~= journal_chars(s).take(b.len() as int).take(a.len() as int));
    } else {
        assert(s.take(i) =~= s);
        assert(journal_chars(s).take(journal_chars(s).len() as int) =~= journal_chars(s));
    }
}

/// A new entry under a fresh random identifier (see `new_entry`).
pub fn fresh_entry(
    timestamp: u64,
    category: &str,
    action: &str,
    status: &str,
    summary: &str,
    bytes: Option<u64>,
    reversible: bool,
) -> (e: ActivityEntry)
    ensures
        crate::staging::is_uuid_text(e.id@),
        e.timestamp == timestamp,
        e.category@ == sanitized(category@, 40),
        e.action@ == sanitized(action@, 80),
        e.status@ == sanitized(status@, 20),
        e.summary@ == sanitized(summary@, 500),
        e.bytes == bytes,
        e.reversible == reversible,
{
    let id = crate::staging::random_uuid();
    new_entry(id, timestamp, category, action, status, summary, bytes, reversible)
}

/// A new entry: its text fields sanitized and bounded (category 40, action
/// 80, status 20, summary 500 characters).
pub fn new_entry(
    id: String,
    timestamp: u64,
    category: &str,
    action: &str,
    status: &str,
    summary: &str,
    bytes: Option<u64>,
    reversible: bool,
) -> (e: ActivityEntry)
    ensures
        e.id == id,
        e.timestamp == timestamp,
        e.category@ == sanitized(category@, 40),
        e.action@ == sanitized(action@, 80),
        e.status@ == sanitized(status@, 20),
        e.summary@ == sanitized(summary@, 500),
        e.bytes == bytes,
        e.reversible == reversible,
{
    ActivityEntry {
        id,
        timestamp,
        category: sanitize(category, 40),
        action: sanitize(action, 80),
        status: sanitize(status, 20),
        summary: sanitize(summary, 500),
        bytes,
        reversible,
    }
}

/// How many entries a listing returns: 200 by default, between 1 and 500.
pub fn listing_limit(limit: Option<usize>) -> (n: usize)
    ensures
        n == match limit {
            None => 200,
            Some(l) => if l < 1 {
                1
            } else if l > MAX_RETURNED_ENTRIES {
                MAX_RETURNED_ENTRIES
            } else {
                l
            },
        },
        1 <= n <= MAX_RETURNED_ENTRIES,
{
    let l = match limit {
        None => 200,
        Some(l) => l,
    };
    if l < 1 {
        1
    } else if l > MAX_RETURNED_ENTRIES {
        MAX_RETURNED_ENTRIES
    } else {
        l
    }
}

/// The most recent entries first, at most `limit` of them.
pub fn latest_first<T>(entries: Vec<T>, limit: usize) -> (r: Vec<T>)
    ensures
        r@.len() == if entries@.len() < limit { entries@.len() } else { limit as nat },
        forall|i: int| 0 <= i < r@.len() ==> #[trigger] r@[i] == entries@[entries@.len() - 1 - i],
{
    let mut rest = entries;
    let ghost orig = rest@;
    let mut out: Vec<T> = Vec::new();
    while out.len() < limit && rest.len() > 0
        invariant
            rest@ == orig.take(orig.len() - out@.len()),
            out@.len() <= orig.len(),
            out@.len() <= limit,
            forall|i: int| 0 <= i < out@.len() ==> #[trigger] out@[i] == orig[orig.len() - 1 - i],
        decreases rest@.len(),
    {
        let e = rest.pop().unwrap();
        out.push(e);
        assert(rest@ =~= orig.take(orig.len() - out@.len()));
    }
    out
}

/// Whether a journal file of `size` bytes must be compacted.
pub fn needs_compaction(size: u64) -> (r: bool)
    ensures
        r == (size > MAX_LOG_BYTES),
{
    size > MAX_LOG_BYTES
}

/// Where the entries kept by compaction start.
pub fn retained_start(len: usize) -> (s: usize)
    ensures
        s == if len > MAX_RETAINED_ENTRIES { len - MAX_RETAINED_ENTRIES } else { 0 },
{
    if len > MAX_RETAINED_ENTRIES {
        len - MAX_RETAINED_ENTRIES
    } else {
        0
    }
}

} // verus!
