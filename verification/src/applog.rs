//! The activity log: what is kept of it in memory and on disk.
use vstd::prelude::*;
use vstd::string::*;

use crate::text::texts;

verus! {

/// How many entries are kept in memory at most.
pub const CAP: usize = 1000;

/// How many entries are kept on disk at most.
pub const FILE_CAP: usize = 10_000;

/// How long an entry is kept on disk, in milliseconds: fourteen days.
pub const RETENTION_MS: i128 = 1_209_600_000;

/// One entry of the activity log.
#[derive(Debug)]
pub struct LogEntry {
    /// When it was written, in whole milliseconds since 1970.
    pub ts: i64,
    /// info | warn | error
    pub level: String,
    pub message: String,
}

impl Clone for LogEntry {
    fn clone(&self) -> (r: Self)
        ensures
            r == *self,
    {
        LogEntry { ts: self.ts, level: self.level.clone(), message: self.message.clone() }
    }
}

/// Something to be written to the activity log.
#[derive(Debug)]
pub struct Note {
    pub level: &'static str,
    pub message: String,
}

/// What a `Note` holds.
#[verifier::ext_equal]
pub struct NoteModel {
    pub level: Seq<char>,
    pub message: Seq<char>,
}

impl View for Note {
    type V = NoteModel;

    open spec fn view(&self) -> NoteModel {
        NoteModel { level: self.level@, message: self.message@ }
    }
}

/// What some notes hold.
pub open spec fn note_models(v: Seq<Note>) -> Seq<NoteModel> {
    v.map_values(|x: Note| x@)
}

/// A note that something happened.
pub open spec fn info(message: Seq<char>) -> NoteModel {
    NoteModel { level: "info"@, message }
}

/// A note that something may need attention.
pub open spec fn warn(message: Seq<char>) -> NoteModel {
    NoteModel { level: "warn"@, message }
}

/// A note that something failed.
pub open spec fn error(message: Seq<char>) -> NoteModel {
    NoteModel { level: "error"@, message }
}

/// The last `n` of some entries, or all of them where there are fewer.
pub open spec fn last_of<T>(s: Seq<T>, n: int) -> Seq<T> {
    if s.len() > n {
        s.skip(s.len() - n)
    } else {
        s
    }
}

/// Writes an entry to the log in memory, which holds the most recent ones.
pub fn push(log: &mut Vec<LogEntry>, entry: LogEntry)
    ensures
        final(log)@ == last_of(old(log)@.push(entry), CAP as int),
{
    log.push(entry);
    let n: usize = log.len();
    if n > CAP {
        let kept = log.split_off(n - CAP);
        assert(kept@ =~= last_of(old(log)@.push(entry), CAP as int));
        *log = kept;
    }
}

/// Whether an entry is young enough at `now` to be kept.
pub open spec fn is_recent(e: LogEntry, now: int) -> bool {
    e.ts >= now - RETENTION_MS
}

/// The entries that are young enough, in order.
pub open spec fn recent_of(s: Seq<LogEntry>, now: int) -> Seq<LogEntry>
    decreases s.len(),
{
    if s.len() == 0 {
        s
    } else if is_recent(s.last(), now) {
        recent_of(s.drop_last(), now).push(s.last())
    } else {
        recent_of(s.drop_last(), now)
    }
}

/// What is kept of a log at `now`: the entries that are young enough, and of these the
/// most recent.
pub open spec fn pruned(s: Seq<LogEntry>, now: int) -> Seq<LogEntry> {
    last_of(recent_of(s, now), FILE_CAP as int)
}

proof fn lemma_recent_len(s: Seq<LogEntry>, now: int)
    ensures
        recent_of(s, now).len() <= s.len(),
    decreases s.len(),
{
    if s.len() > 0 {
        lemma_recent_len(s.drop_last(), now);
    }
}

/// What is kept of the log that was read from disk, and whether the file is to be
/// written anew because something was dropped.
pub fn read_pruned(entries: &Vec<LogEntry>, now_ms: i64) -> (r: (Vec<LogEntry>, bool))
    ensures
        r.0@ == pruned(entries@, now_ms as int),
        r.1 == (pruned(entries@, now_ms as int) != entries@),
{
    let n: usize = entries.len();
    let cutoff: i128 = now_ms as i128 - RETENTION_MS;
    let mut kept: Vec<LogEntry> = Vec::new();
    let mut i: usize = 0;
    while i < n
        invariant
            n == entries@.len(),
            cutoff == now_ms - RETENTION_MS,
            i <= n,
            kept@ == recent_of(entries@.take(i as int), now_ms as int),
        decreases n - i,
    {
        proof {
            assert(entries@.take(i + 1).drop_last() =~= entries@.take(i as int));
            assert(entries@.take(i + 1).last() == entries@[i as int]);
        }
        if entries[i].ts as i128 >= cutoff {
            kept.push(entries[i].clone());
        }
        i = i + 1;
    }
    assert(entries@.take(n as int) =~= entries@);
    proof {
        lemma_recent_len(entries@, now_ms as int);
        lemma_recent_whole(entries@, now_ms as int);
    }
    let m: usize = kept.len();
    if m > FILE_CAP {
        let ghost all = kept@;
        let tail = kept.split_off(m - FILE_CAP);
        assert(tail@ =~= last_of(all, FILE_CAP as int));
        kept = tail;
    }
    let rewrite: bool = kept.len() != n;
    (kept, rewrite)
}

proof fn lemma_recent_whole(s: Seq<LogEntry>, now: int)
    ensures
        recent_of(s, now).len() == s.len() ==> recent_of(s, now) == s,
    decreases s.len(),
{
    if s.len() > 0 {
        lemma_recent_whole(s.drop_last(), now);
        lemma_recent_len(s.drop_last(), now);
        if recent_of(s, now).len() == s.len() {
            assert(s.drop_last().push(s.last()) =~= s);
        }
    }
}

/// The most recent entries, with which the log in memory begins.
pub fn load(entries: &Vec<LogEntry>) -> (r: Vec<LogEntry>)
    ensures
        r@ == last_of(entries@, CAP as int),
{
    let n: usize = entries.len();
    let start: usize = if n > CAP {
        n - CAP
    } else {
        0
    };
    let mut out: Vec<LogEntry> = Vec::new();
    let mut i: usize = start;
    while i < n
        invariant
            n == entries@.len(),
            start <= i <= n,
            out@ == entries@.subrange(start as int, i as int),
        decreases n - i,
    {
        out.push(entries[i].clone());
        i = i + 1;
        assert(entries@.subrange(start as int, i as int) =~= entries@.subrange(
            start as int,
            i - 1,
        ).push(entries@[i - 1]));
    }
    assert(out@ =~= last_of(entries@, CAP as int));
    out
}

/// Lines, each with a line feed behind it.
pub open spec fn file_text(lines: Seq<Seq<char>>) -> Seq<char>
    decreases lines.len(),
{
    if lines.len() == 0 {
        Seq::empty()
    } else {
        file_text(lines.drop_last()) + lines.last() + "\n"@
    }
}

/// The text of the file that holds some lines.
pub fn log_text(lines: &Vec<String>) -> (r: String)
    ensures
        r@ == file_text(texts(lines@)),
{
    let n: usize = lines.len();
    let mut out = String::new();
    let mut i: usize = 0;
    while i < n
        invariant
            n == lines@.len(),
            i <= n,
            out@ == file_text(texts(lines@).take(i as int)),
        decreases n - i,
    {
        proof {
            let t = texts(lines@).take(i + 1);
            assert(t.drop_last() =~= texts(lines@).take(i as int));
            assert(t.last() == lines@[i as int]@);
        }
        out.append(lines[i].as_str());
        out.append("\n");
        i = i + 1;
    }
    assert(texts(lines@).take(n as int) =~= texts(lines@));
    out
}

/// A log in memory that holds no more than the bound stays so, and ends with what was
/// written last.
pub proof fn memory_is_bounded(log: Seq<LogEntry>, entry: LogEntry)
    ensures
        last_of(log.push(entry), CAP as int).len() <= CAP,
        last_of(log.push(entry), CAP as int).last() == entry,
        log.len() < CAP ==> last_of(log.push(entry), CAP as int) == log.push(entry),
{
}

proof fn lemma_recent_members(s: Seq<LogEntry>, now: int)
    ensures
        forall|i: int| 0 <= i < recent_of(s, now).len() ==> is_recent(#[trigger] recent_of(s, now)[i], now),
    decreases s.len(),
{
    if s.len() > 0 {
        let before = recent_of(s.drop_last(), now);
        lemma_recent_members(s.drop_last(), now);
        assert forall|i: int| 0 <= i < recent_of(s, now).len() implies is_recent(
            #[trigger] recent_of(s, now)[i],
            now,
        ) by {
            if i < before.len() {
                assert(recent_of(s, now)[i] == before[i]);
            }
        }
    }
}

proof fn lemma_recent_of_recent(s: Seq<LogEntry>, now: int)
    requires
        forall|i: int| 0 <= i < s.len() ==> is_recent(#[trigger] s[i], now),
    ensures
        recent_of(s, now) == s,
    decreases s.len(),
{
    if s.len() > 0 {
        let t = s.drop_last();
        assert forall|i: int| 0 <= i < t.len() implies is_recent(#[trigger] t[i], now) by {
            assert(t[i] == s[i]);
        }
        lemma_recent_of_recent(t, now);
        assert(is_recent(s[s.len() - 1], now));
        assert(t.push(s.last()) =~= s);
    }
}

/// What is kept on disk is bounded in number and in age, and keeping it once more drops
/// nothing.
pub proof fn pruning_settles(s: Seq<LogEntry>, now: int)
    ensures
        pruned(s, now).len() <= FILE_CAP,
        forall|i: int| 0 <= i < pruned(s, now).len() ==> is_recent(#[trigger] pruned(s, now)[i], now),
        pruned(pruned(s, now), now) == pruned(s, now),
{
    lemma_recent_members(s, now);
    let p = pruned(s, now);
    let r = recent_of(s, now);
    assert forall|i: int| 0 <= i < p.len() implies is_recent(#[trigger] p[i], now) by {
        assert(p[i] == r[i + (r.len() - p.len())]);
    }
    lemma_recent_of_recent(p, now);
}

} // verus!
