//! Following the combat log: which file, from where on, and what becomes of its bytes.
use vstd::prelude::*;
use vstd::string::*;
use vstd::utf8::*;

use crate::combatlog::{LineEvent, process_line};
use crate::laws::{lemma_texts, same_opt};
use crate::tailer::{
    CombatLogState, LogFile, Look, POLL_MS, Reconciled, Tailer, complete_lines, event_models,
    events_of, feed, find_log_file, first_newline, line_text, newest_log, partial_line,
    portions_make_no_difference, utf8_lossy,
};
use crate::text::{only, trim_end_by};

verus! {

/// Whether two events say the same.
pub open spec fn same_event(a: LineEvent, b: LineEvent) -> bool {
    match (a, b) {
        (LineEvent::Nothing, LineEvent::Nothing) => true,
        (LineEvent::Started { name: m }, LineEvent::Started { name: n }) => m@ == n@,
        (LineEvent::Ended { ts: s, body: a }, LineEvent::Ended { ts: t, body: b }) => s@ == t@ && a@ == b@,
        _ => false,
    }
}

/// Whether two lists of events say the same.
pub open spec fn same_events(a: Seq<LineEvent>, b: Seq<LineEvent>) -> bool {
    &&& a.len() == b.len()
    &&& forall|i: int| 0 <= i < a.len() ==> same_event(#[trigger] a[i], b[i])
}

/// Whether some bytes hold no line feed.
pub open spec fn no_line_feed(s: Seq<u8>) -> bool {
    forall|j: int| 0 <= j < s.len() ==> #[trigger] s[j] != 10
}

proof fn lemma_same_events(a: Seq<LineEvent>, b: Seq<LineEvent>)
    requires
        event_models(a) == event_models(b),
    ensures
        same_events(a, b),
{
    assert(event_models(a).len() == a.len() && event_models(b).len() == b.len());
    assert forall|i: int| 0 <= i < a.len() implies same_event(#[trigger] a[i], b[i]) by {
        assert(event_models(a)[i] == a[i]@ && event_models(b)[i] == b[i]@);
    }
}

proof fn lemma_newline(s: Seq<u8>, k: int)
    requires
        0 <= k <= s.len(),
        forall|j: int| 0 <= j < k ==> s[j] != 10,
        k < s.len() ==> s[k] == 10,
    ensures
        first_newline(s) == k,
    decreases k,
{
    if k > 0 {
        let t = s.skip(1);
        assert forall|j: int| 0 <= j < k - 1 implies t[j] != 10 by {
            assert(t[j] == s[j + 1]);
        }
        if k < s.len() {
            assert(t[k - 1] == s[k]);
        }
        assert(s[0] != 10);
        lemma_newline(t, k - 1);
    }
}

/// Bytes without a line feed wait for the rest of their line.
pub proof fn bytes_wait_for_their_line(
    pending: &mut Vec<u8>,
    buf: &[u8],
    in_run: &mut bool,
    r: Vec<LineEvent>,
)
    requires
        call_ensures(feed, (pending, buf, in_run), r),
        no_line_feed(old(pending)@ + buf@),
    ensures
        r@.len() == 0,
        final(pending)@ == old(pending)@ + buf@,
        *final(in_run) == *old(in_run),
{
    let s = old(pending)@ + buf@;
    lemma_newline(s, s.len() as int);
    assert(event_models(r@).len() == r@.len());
}

proof fn lemma_returns(text: Seq<char>, ends: Seq<char>)
    requires
        text.len() > 0 ==> text.last() != '\r',
        forall|j: int| 0 <= j < ends.len() ==> #[trigger] ends[j] == '\r',
    ensures
        trim_end_by(text + ends, only('\r')) == text,
    decreases ends.len(),
{
    if ends.len() == 0 {
        assert(text + ends =~= text);
    } else {
        assert((text + ends).drop_last() =~= text + ends.drop_last());
        assert((text + ends).last() == ends[ends.len() - 1]);
        assert forall|j: int| 0 <= j < ends.drop_last().len() implies #[trigger] ends.drop_last()[j]
            == '\r' by {
            assert(ends[j] == '\r');
        }
        lemma_returns(text, ends.drop_last());
    }
}

/// A line that is complete is processed as text, without the carriage returns at its end, and
/// what it calls for is told; nothing of it is kept. Bytes that are no text are read with what
/// stands in for them.
pub proof fn complete_lines_are_processed(
    pending: &mut Vec<u8>,
    buf: &[u8],
    in_run: &mut bool,
    r: Vec<LineEvent>,
    line: Seq<u8>,
    text: &str,
    ends: Seq<char>,
    run: &mut bool,
    e: LineEvent,
)
    requires
        call_ensures(feed, (pending, buf, in_run), r),
        old(pending)@ + buf@ == line.push(10),
        no_line_feed(line),
        valid_utf8(line) ==> line == encode_utf8(text@ + ends),
        !valid_utf8(line) ==> text@ + ends == utf8_lossy(line),
        text@.len() > 0 ==> text@.last() != '\r',
        forall|j: int| 0 <= j < ends.len() ==> #[trigger] ends[j] == '\r',
        call_ensures(process_line, (text, run), e),
        *old(run) == *old(in_run),
    ensures
        e is Nothing ==> r@.len() == 0,
        !(e is Nothing) ==> r@.len() == 1 && same_event(r@[0], e),
        final(pending)@.len() == 0,
        *final(in_run) == *final(run),
{
    let s = line.push(10);
    assert forall|j: int| 0 <= j < line.len() implies s[j] != 10 by {
        assert(s[j] == line[j]);
    }
    lemma_newline(s, line.len() as int);
    assert(s.take(line.len() as int) =~= line);
    let rest = s.skip(line.len() as int + 1);
    assert(rest.len() == 0);
    lemma_newline(rest, 0);
    assert(complete_lines(rest) =~= Seq::<Seq<u8>>::empty());
    assert(partial_line(rest) == rest);
    assert(partial_line(s) == partial_line(rest));
    let lines = complete_lines(s);
    assert(lines =~= seq![line]);
    assert(lines.drop_last() =~= Seq::<Seq<u8>>::empty());
    assert(lines.last() == line);
    if valid_utf8(line) {
        encode_utf8_decode_utf8(text@ + ends);
    }
    lemma_returns(text@, ends);
    assert(line_text(line) == text@);
    reveal_with_fuel(events_of, 2);
    reveal_with_fuel(crate::tailer::challenge_after, 2);
    assert(event_models(r@).len() == r@.len());
    if !(e is Nothing) {
        assert(event_models(r@) =~= seq![e@]);
        assert(event_models(r@)[0] == r@[0]@);
    }
}

/// How the log is cut into portions makes no difference: two taken in turn call for the same,
/// in the same order, as both at once, and leave the same behind.
pub proof fn portions_are_taken_in_turn(
    pending: &mut Vec<u8>,
    in_run: &mut bool,
    a: &[u8],
    ra: Vec<LineEvent>,
    next_pending: &mut Vec<u8>,
    next_run: &mut bool,
    b: &[u8],
    rb: Vec<LineEvent>,
    once_pending: &mut Vec<u8>,
    once_run: &mut bool,
    both: &[u8],
    r: Vec<LineEvent>,
)
    requires
        call_ensures(feed, (pending, a, in_run), ra),
        call_ensures(feed, (next_pending, b, next_run), rb),
        call_ensures(feed, (once_pending, both, once_run), r),
        old(next_pending)@ == final(pending)@,
        *old(next_run) == *final(in_run),
        old(once_pending)@ == old(pending)@,
        *old(once_run) == *old(in_run),
        both@ == a@ + b@,
    ensures
        same_events(r@, ra@ + rb@),
        final(once_pending)@ == final(next_pending)@,
        *final(once_run) == *final(next_run),
{
    portions_make_no_difference(old(pending)@, a@, b@, *old(in_run));
    assert(event_models(ra@ + rb@) =~= event_models(ra@) + event_models(rb@));
    lemma_same_events(r@, ra@ + rb@);
}

/// A follower takes bytes in as they are fed, and counts them; nothing else changes.
pub proof fn what_is_read_is_fed(
    t: &mut Tailer,
    bytes: &[u8],
    r: Vec<LineEvent>,
    pending: &mut Vec<u8>,
    in_run: &mut bool,
    q: Vec<LineEvent>,
)
    requires
        call_ensures(Tailer::received, (t, bytes), r),
        old(t).offset + bytes@.len() <= u64::MAX,
        call_ensures(feed, (pending, bytes, in_run), q),
        old(pending)@ == old(t).pending@,
        *old(in_run) == old(t).in_challenge,
    ensures
        same_events(r@, q@),
        final(t).pending@ == final(pending)@,
        final(t).in_challenge == *final(in_run),
        final(t).offset == old(t).offset + bytes@.len(),
        same_opt(final(t).open_path, old(t).open_path),
        final(t).warned_missing == old(t).warned_missing,
        final(t).last_beat == old(t).last_beat,
{
    lemma_same_events(r@, q@);
}

/// Whether two followers agree on how much was read, on what is kept of it, and on the run.
pub open spec fn same_reading(a: Tailer, b: Tailer) -> bool {
    a.offset == b.offset && a.pending@ == b.pending@ && a.in_challenge == b.in_challenge
}

/// A look at the folder calls for the log that was found, unless that is open already. Where
/// there is none, no log is open any more, and that is said the first time only.
pub proof fn the_log_that_is_found_is_opened(
    t: &mut Tailer,
    target: Option<String>,
    folder: &str,
    r: Look,
)
    requires
        call_ensures(Tailer::look, (t, target, folder), r),
    ensures
        target matches Some(p) ==> {
            &&& r is Keep <==> same_opt(old(t).open_path, target)
            &&& !same_opt(old(t).open_path, target) ==> (r matches Look::Open(q) && q@ == p@)
            &&& same_opt(final(t).open_path, old(t).open_path)
            &&& final(t).warned_missing == old(t).warned_missing
        },
        target is None ==> {
            &&& final(t).open_path is None
            &&& final(t).warned_missing
            &&& old(t).warned_missing ==> (r matches Look::Missing(w) && w is None)
            &&& !old(t).warned_missing ==> (r matches Look::Missing(Some(w)) && w@
                == "[Combatlog] "@ + "combat log not found in "@ + folder@)
        },
        same_reading(*final(t), *old(t)),
        final(t).last_beat == old(t).last_beat,
{
}

/// The log is looked at twice a second.
pub proof fn the_log_is_looked_at_often()
    ensures
        2 * POLL_MS == 1000,
{
}

/// A log that is opened is read from its end on, with nothing kept, and it is said which it is;
/// whether a keystone run is under way is not forgotten.
pub proof fn an_opened_log_is_read_from_its_end(
    t: &mut Tailer,
    path: String,
    name: &str,
    end: u64,
    now: u64,
    r: String,
)
    requires
        call_ensures(Tailer::opened, (t, path, name, end, now), r),
    ensures
        final(t).open_path matches Some(p) && p@ == path@,
        final(t).offset == end,
        final(t).pending@.len() == 0,
        final(t).last_beat == Some(now),
        final(t).in_challenge == old(t).in_challenge,
        final(t).warned_missing == old(t).warned_missing,
        r@ == "[Combatlog] "@ + "now watching "@ + name@,
{
}

/// A log that could not be opened is not open; nothing else changes.
pub proof fn a_log_that_fails_is_not_open(t: &mut Tailer)
    requires
        call_ensures(Tailer::open_failed, (t,), ()),
    ensures
        final(t).open_path is None,
        same_reading(*final(t), *old(t)),
        final(t).warned_missing == old(t).warned_missing,
        final(t).last_beat == old(t).last_beat,
{
}

/// A log that has grown is read to its new end. One that has become shorter is read from its
/// beginning, with nothing kept of what it was. One that cannot be measured is left alone.
pub proof fn a_log_is_read_to_its_end(t: &mut Tailer, size: Option<u64>, r: Option<u64>)
    requires
        call_ensures(Tailer::measured, (t, size), r),
    ensures
        size matches Some(n) ==> {
            &&& n > old(t).offset ==> r == Some(n) && same_reading(*final(t), *old(t))
            &&& n == old(t).offset ==> r is None && same_reading(*final(t), *old(t))
            &&& n < old(t).offset ==> {
                &&& final(t).offset == 0 && final(t).pending@.len() == 0
                &&& final(t).in_challenge == old(t).in_challenge
                &&& r is Some <==> n > 0
                &&& r is Some ==> r->0 == n
            }
        },
        size is None ==> r is None && same_reading(*final(t), *old(t)),
        same_opt(final(t).open_path, old(t).open_path),
        final(t).warned_missing == old(t).warned_missing,
        final(t).last_beat == old(t).last_beat,
{
}

/// As much is read at a time as there is, but never more than four mebibytes.
pub proof fn a_log_is_read_in_portions(t: &Tailer, size: u64, r: u64)
    requires
        call_ensures(Tailer::want, (t, size), r),
    ensures
        r <= 4 * 1024 * 1024,
        size <= t.offset ==> r == 0,
        size > t.offset ==> 0 < r && t.offset + r <= size,
        size > t.offset && r < 4 * 1024 * 1024 ==> t.offset + r == size,
{
}

/// While a log is open the server is told so every twenty seconds, counted from the last time;
/// while none is, it is not told, and the count begins anew.
pub proof fn the_server_is_told_every_twenty_seconds(t: &mut Tailer, now: u64, r: bool)
    requires
        call_ensures(Tailer::beat, (t, now), r),
    ensures
        old(t).open_path is None ==> !r && final(t).last_beat is None,
        old(t).open_path is Some && old(t).last_beat is None ==> r,
        old(t).open_path is Some && old(t).last_beat is Some ==> (r <==> now >= old(t).last_beat->0 + 20 * 1000),
        r ==> final(t).last_beat == Some(now),
        old(t).open_path is Some && !r ==> final(t).last_beat == old(t).last_beat,
        same_reading(*final(t), *old(t)),
        same_opt(final(t).open_path, old(t).open_path),
        final(t).warned_missing == old(t).warned_missing,
{
}

/// A follower begins with no log, nothing read, no run, nothing said.
pub proof fn nothing_is_followed_at_first(t: Tailer, s: CombatLogState)
    requires
        call_ensures(Tailer::new, (), t),
        call_ensures(CombatLogState::new, (), s),
    ensures
        t.open_path is None && t.offset == 0 && t.pending@.len() == 0,
        !t.in_challenge && !t.warned_missing && t.last_beat is None,
        s.active_guilds@.len() == 0 && !s.tailing,
{
}

/// Whether an entry of a folder is a file that is named like a combat log: by its beginning and
/// its end, whatever stands between them, which may overlap.
pub open spec fn is_log(f: LogFile) -> bool {
    &&& f.is_file
    &&& exists|x: Seq<char>| f.name@ == #[trigger] ("WoWCombatLog"@ + x)
    &&& exists|y: Seq<char>| f.name@ == #[trigger] (y + ".txt"@)
}

/// Whether an entry changed no later than another; one of which nothing is known counts as of
/// 1970.
pub open spec fn no_later(f: LogFile, g: LogFile) -> bool {
    let a: i128 = if f.modified is Some {
        f.modified->0
    } else {
        0
    };
    let b: i128 = if g.modified is Some {
        g.modified->0
    } else {
        0
    };
    a <= b
}

proof fn lemma_is_log(f: LogFile)
    ensures
        is_log(f) <==> crate::tailer::is_combat_log(f),
{
    let n = f.name@;
    let p = "WoWCombatLog"@;
    let e = ".txt"@;
    if crate::tailer::is_combat_log(f) {
        assert(n =~= p + n.skip(p.len() as int));
        assert(n =~= n.take(n.len() - e.len()) + e);
    }
    if is_log(f) {
        let x = choose|x: Seq<char>| n == #[trigger] (p + x);
        let y = choose|y: Seq<char>| n == #[trigger] (y + e);
        assert(n.take(p.len() as int) =~= p);
        assert(n.skip(n.len() - e.len()) =~= e);
    }
}

proof fn lemma_newest(files: Seq<LogFile>)
    ensures
        match newest_log(files) {
            Some(b) => {
                &&& 0 <= b < files.len()
                &&& is_log(files[b])
                &&& forall|i: int|
                    0 <= i < files.len() && is_log(#[trigger] files[i]) ==> no_later(files[i], files[b])
                        && (i > b ==> !no_later(files[b], files[i]))
            },
            None => forall|i: int| 0 <= i < files.len() ==> !is_log(#[trigger] files[i]),
        },
    decreases files.len(),
{
    if files.len() > 0 {
        let t = files.drop_last();
        lemma_newest(t);
        lemma_is_log(files.last());
        assert forall|i: int| 0 <= i < t.len() implies #[trigger] t[i] == files[i] by {}
        match newest_log(files) {
            Some(b) => {
                assert forall|i: int| 0 <= i < files.len() && is_log(#[trigger] files[i]) implies no_later(
                    files[i],
                    files[b],
                ) && (i > b ==> !no_later(files[b], files[i])) by {
                    if i < t.len() {
                        assert(is_log(t[i]));
                    }
                }
            },
            None => {
                assert forall|i: int| 0 <= i < files.len() implies !is_log(#[trigger] files[i]) by {
                    if i < t.len() {
                        assert(!is_log(t[i]));
                    }
                }
            },
        }
    }
}

/// The log that is followed is one of those in the folder, none of which changed after it; of
/// several that changed last, it is the one listed last. One is found whenever there is any.
pub proof fn the_newest_log_is_followed(files: &Vec<LogFile>, r: Option<String>) -> (b: int)
    requires
        call_ensures(find_log_file, (files,), r),
    ensures
        r is Some <==> exists|i: int| 0 <= i < files@.len() && is_log(#[trigger] files@[i]),
        r matches Some(p) ==> {
            &&& 0 <= b < files@.len() && is_log(files@[b]) && p@ == files@[b].path@
            &&& forall|i: int|
                0 <= i < files@.len() && is_log(#[trigger] files@[i]) ==> no_later(files@[i], files@[b]) && (
                i > b ==> !no_later(files@[b], files@[i]))
        },
{
    lemma_newest(files@);
    match newest_log(files@) {
        Some(b) => b,
        None => 0,
    }
}

/// The log is followed exactly if watching is on, some guild has a live session and the folder
/// is known, and what changes is said: where, when it begins; and when it ends, the server is
/// told if watching was turned off.
pub proof fn the_log_is_followed_for_live_guilds(
    s: &mut CombatLogState,
    enabled: bool,
    folder: &Option<String>,
    r: Reconciled,
)
    requires
        call_ensures(CombatLogState::reconcile, (s, enabled, folder), r),
    ensures
        final(s).tailing <==> enabled && old(s).active_guilds@.len() > 0 && folder is Some,
        final(s).active_guilds@ == old(s).active_guilds@,
        r is Same <==> final(s).tailing == old(s).tailing,
        r matches Reconciled::Start { folder: f, message } ==> {
            &&& final(s).tailing
            &&& folder matches Some(g) && f@ == g@
            &&& message@ == "[Combatlog] "@ + "live session started — watching the combat log"@
        },
        r matches Reconciled::Stop { clear_presence, message } ==> {
            &&& !final(s).tailing
            &&& clear_presence == !enabled
            &&& message@ == "[Combatlog] "@ + "live session ended — stopped watching"@
        },
{
    lemma_texts(old(s).active_guilds@);
}

/// The guilds that have a live session are told as they are kept.
pub proof fn live_guilds_are_told(s: &CombatLogState, r: Vec<String>)
    requires
        call_ensures(CombatLogState::active_guilds, (s,), r),
    ensures
        r@.len() == s.active_guilds@.len(),
        forall|i: int| 0 <= i < r@.len() ==> (#[trigger] r@[i])@ == s.active_guilds@[i]@,
{
    lemma_texts(r@);
    lemma_texts(s.active_guilds@);
}

} // verus!
