//! Following the combat log as it grows: which file, from where, in what portions,
//! and whether to follow at all.
use vstd::prelude::*;
use vstd::slice::*;
use vstd::string::*;
use vstd::utf8::*;

use crate::combatlog::{LineEvent, LineModel, TAG, line_outcome, process_line};
use crate::text::{
    ends, ends_with, only, opt_is, opt_text, starts, starts_with, texts, trim_end_by,
    trim_end_char,
};

verus! {

/// What `String::from_utf8_lossy` reads from bytes that are not valid UTF-8.
pub uninterp spec fn utf8_lossy(bytes: Seq<u8>) -> Seq<char>;

/// The text in some bytes: their plain UTF-8 reading where they are valid.
pub open spec fn text_in(bytes: Seq<u8>) -> Seq<char> {
    if valid_utf8(bytes) {
        decode_utf8(bytes)
    } else {
        utf8_lossy(bytes)
    }
}

/// Reads bytes as text by `String::from_utf8_lossy`. The result is the plain UTF-8 reading
/// of valid bytes, and depends on the bytes alone where they are not valid; what then
/// stands in for the invalid ones is left to the name.
#[verifier::external_body]
pub(crate) fn lossy_text(bytes: &[u8]) -> (r: String)
    ensures
        valid_utf8(bytes@) ==> r@ == decode_utf8(bytes@),
        !valid_utf8(bytes@) ==> r@ == utf8_lossy(bytes@),
{
    String::from_utf8_lossy(bytes).into_owned()
}

/// The position of the first line feed, or the length of `s` where there is none.
pub open spec fn first_newline(s: Seq<u8>) -> int
    decreases s.len(),
{
    if s.len() == 0 || s[0] == 10 {
        0
    } else {
        1 + first_newline(s.skip(1))
    }
}

proof fn lemma_first_newline(s: Seq<u8>)
    ensures
        0 <= first_newline(s) <= s.len(),
        forall|j: int| 0 <= j < first_newline(s) ==> s[j] != 10,
        first_newline(s) < s.len() ==> s[first_newline(s)] == 10,
    decreases s.len(),
{
    if s.len() > 0 && s[0] != 10 {
        lemma_first_newline(s.skip(1));
        assert forall|j: int| 0 <= j < first_newline(s) implies s[j] != 10 by {
            if j > 0 {
                assert(s.skip(1)[j - 1] == s[j]);
            }
        }
    }
}

/// The complete lines in a run of bytes: those that a line feed ends.
pub open spec fn complete_lines(s: Seq<u8>) -> Seq<Seq<u8>>
    decreases s.len(),
    via complete_lines_decreases
{
    let k = first_newline(s);
    if 0 <= k < s.len() {
        seq![s.take(k)] + complete_lines(s.skip(k + 1))
    } else {
        Seq::empty()
    }
}

#[via_fn]
proof fn complete_lines_decreases(s: Seq<u8>) {
    lemma_first_newline(s);
}

/// What follows the last line feed.
pub open spec fn partial_line(s: Seq<u8>) -> Seq<u8>
    decreases s.len(),
    via partial_line_decreases
{
    let k = first_newline(s);
    if 0 <= k < s.len() {
        partial_line(s.skip(k + 1))
    } else {
        s
    }
}

#[via_fn]
proof fn partial_line_decreases(s: Seq<u8>) {
    lemma_first_newline(s);
}

/// The text of a line: without the carriage returns at its end.
pub open spec fn line_text(bytes: Seq<u8>) -> Seq<char> {
    trim_end_by(text_in(bytes), only('\r'))
}

/// Whether a keystone run is under way behind a run of lines.
pub open spec fn challenge_after(lines: Seq<Seq<u8>>, in_challenge: bool) -> bool
    decreases lines.len(),
{
    if lines.len() == 0 {
        in_challenge
    } else {
        line_outcome(line_text(lines.last()), challenge_after(lines.drop_last(), in_challenge)).1
    }
}

/// What a run of lines calls for, in order.
pub open spec fn events_of(lines: Seq<Seq<u8>>, in_challenge: bool) -> Seq<LineModel>
    decreases lines.len(),
{
    if lines.len() == 0 {
        Seq::empty()
    } else {
        let before = lines.drop_last();
        let e = line_outcome(line_text(lines.last()), challenge_after(before, in_challenge)).0;
        if e is Nothing {
            events_of(before, in_challenge)
        } else {
            events_of(before, in_challenge).push(e)
        }
    }
}

/// What a list of events holds.
pub open spec fn event_models(v: Seq<LineEvent>) -> Seq<LineModel> {
    v.map_values(|x: LineEvent| x@)
}

proof fn lemma_first_newline_unique(s: Seq<u8>, k: int)
    requires
        0 <= k <= s.len(),
        forall|j: int| 0 <= j < k ==> s[j] != 10,
        k < s.len() ==> s[k] == 10,
    ensures
        first_newline(s) == k,
{
    lemma_first_newline(s);
}

/// Takes in bytes that were appended to the log: every line that is now complete is
/// processed, and what follows the last line feed is kept for the next time. Only
/// whole lines are read as text.
pub fn feed(pending: &mut Vec<u8>, buf: &[u8], in_challenge: &mut bool) -> (r: Vec<LineEvent>)
    ensures
        final(pending)@ == partial_line(old(pending)@ + buf@),
        event_models(r@) == events_of(
            complete_lines(old(pending)@ + buf@),
            *old(in_challenge),
        ),
        *final(in_challenge) == challenge_after(
            complete_lines(old(pending)@ + buf@),
            *old(in_challenge),
        ),
{
    let ghost c0 = *in_challenge;
    let ghost data = pending@ + buf@;
    pending.extend_from_slice(buf);
    assert(pending@ =~= data);
    let mut out: Vec<LineEvent> = Vec::new();
    let n: usize = pending.len();
    let mut start: usize = 0;
    let mut k: usize = 0;
    let ghost mut seen: Seq<Seq<u8>> = Seq::empty();
    proof {
        assert(data.skip(0) =~= data);
        assert(seen + complete_lines(data) =~= complete_lines(data));
        assert(event_models(out@) =~= events_of(seen, c0));
    }
    while k < n
        invariant
            pending@ == data,
            n == data.len(),
            start <= k <= n,
            forall|j: int| start <= j < k ==> data[j] != 10,
            complete_lines(data) == seen + complete_lines(data.skip(start as int)),
            partial_line(data) == partial_line(data.skip(start as int)),
            event_models(out@) == events_of(seen, c0),
            *in_challenge == challenge_after(seen, c0),
        decreases n - k,
    {
        if pending[k] == 10 {
            let line = slice_subrange(pending.as_slice(), start, k);
            let decoded = lossy_text(line);
            let event = process_line(trim_end_char(decoded.as_str(), '\r'), in_challenge);
            proof {
                let rest = data.skip(start as int);
                assert forall|j: int| 0 <= j < k - start implies rest[j] != 10 by {
                    assert(rest[j] == data[start + j]);
                }
                assert(rest[k - start] == data[k as int]);
                lemma_first_newline_unique(rest, k - start);
                assert(rest.take(k - start) =~= line@);
                assert(rest.skip(k - start + 1) =~= data.skip(k + 1));
                let more = seen.push(line@);
                assert(more.drop_last() =~= seen);
                assert(more + complete_lines(data.skip(k + 1)) =~= seen + (seq![line@]
                    + complete_lines(data.skip(k + 1))));
                assert(event_models(out@.push(event)) =~= event_models(out@).push(event@));
                seen = more;
            }
            match event {
                LineEvent::Nothing => {},
                e => {
                    out.push(e);
                },
            }
            start = k + 1;
        }
        k = k + 1;
    }
    proof {
        let rest = data.skip(start as int);
        assert forall|j: int| 0 <= j < rest.len() implies rest[j] != 10 by {
            assert(rest[j] == data[start + j]);
        }
        lemma_first_newline_unique(rest, rest.len() as int);
        assert(seen + Seq::<Seq<u8>>::empty() =~= seen);
    }
    let tail = pending.split_off(start);
    assert(tail@ =~= data.skip(start as int));
    *pending = tail;
    out
}

proof fn lemma_lines_concat(a: Seq<u8>, b: Seq<u8>)
    ensures
        complete_lines(a + b) == complete_lines(a) + complete_lines(partial_line(a) + b),
        partial_line(a + b) == partial_line(partial_line(a) + b),
    decreases a.len(),
{
    lemma_first_newline(a);
    let k = first_newline(a);
    if k < a.len() {
        let c = a + b;
        assert forall|j: int| 0 <= j < k implies c[j] != 10 by {
            assert(c[j] == a[j]);
        }
        assert(c[k] == a[k]);
        lemma_first_newline_unique(c, k);
        assert(c.take(k) =~= a.take(k));
        assert(c.skip(k + 1) =~= a.skip(k + 1) + b);
        lemma_lines_concat(a.skip(k + 1), b);
        let rest = complete_lines(partial_line(a) + b);
        assert(seq![a.take(k)] + (complete_lines(a.skip(k + 1)) + rest) =~= (seq![a.take(k)]
            + complete_lines(a.skip(k + 1))) + rest);
    } else {
        assert(complete_lines(a) + complete_lines(a + b) =~= complete_lines(a + b));
    }
}

proof fn lemma_events_concat(a: Seq<Seq<u8>>, b: Seq<Seq<u8>>, c: bool)
    ensures
        challenge_after(a + b, c) == challenge_after(b, challenge_after(a, c)),
        events_of(a + b, c) == events_of(a, c) + events_of(b, challenge_after(a, c)),
    decreases b.len(),
{
    if b.len() == 0 {
        assert(a + b =~= a);
        assert(events_of(a, c) + events_of(b, challenge_after(a, c)) =~= events_of(a, c));
    } else {
        let t = b.drop_last();
        lemma_events_concat(a, t, c);
        assert((a + b).drop_last() =~= a + t);
        assert((a + b).last() == b.last());
        let mid = challenge_after(a, c);
        let e = line_outcome(line_text(b.last()), challenge_after(t, mid)).0;
        if !(e is Nothing) {
            assert((events_of(a, c) + events_of(t, mid)).push(e) =~= events_of(a, c) + events_of(
                t,
                mid,
            ).push(e));
        }
    }
}

/// How the log is cut into portions makes no difference: feeding `b` after `a` leaves
/// the same unfinished line, the same keystone state and the same events as feeding
/// both at once, wherever the cut falls.
pub proof fn portions_make_no_difference(pending: Seq<u8>, a: Seq<u8>, b: Seq<u8>, in_challenge: bool)
    ensures
        partial_line(pending + (a + b)) == partial_line(partial_line(pending + a) + b),
        ({
            let first = complete_lines(pending + a);
            let second = complete_lines(partial_line(pending + a) + b);
            let whole = complete_lines(pending + (a + b));
            let mid = challenge_after(first, in_challenge);
            &&& events_of(whole, in_challenge) == events_of(first, in_challenge) + events_of(
                second,
                mid,
            )
            &&& challenge_after(whole, in_challenge) == challenge_after(second, mid)
        }),
{
    assert(pending + (a + b) =~= (pending + a) + b);
    lemma_lines_concat(pending + a, b);
    lemma_events_concat(
        complete_lines(pending + a),
        complete_lines(partial_line(pending + a) + b),
        in_challenge,
    );
}

/// What is kept between portions never holds a line feed.
pub proof fn kept_bytes_hold_no_line(s: Seq<u8>)
    ensures
        forall|j: int| 0 <= j < partial_line(s).len() ==> partial_line(s)[j] != 10,
    decreases s.len(),
{
    lemma_first_newline(s);
    let k = first_newline(s);
    if k < s.len() {
        kept_bytes_hold_no_line(s.skip(k + 1));
        assert(partial_line(s) == partial_line(s.skip(k + 1)));
    } else {
        assert(partial_line(s) == s);
    }
}

/// The complete lines, each with its line feed, and the rest make up the log.
pub open spec fn with_line_feeds(lines: Seq<Seq<u8>>) -> Seq<u8>
    decreases lines.len(),
{
    if lines.len() == 0 {
        Seq::empty()
    } else {
        lines[0].push(10) + with_line_feeds(lines.skip(1))
    }
}

/// No byte of the log is lost: the lines taken from it, each with its line feed, and
/// what is kept are the log again.
pub proof fn no_byte_is_lost(s: Seq<u8>)
    ensures
        with_line_feeds(complete_lines(s)) + partial_line(s) == s,
    decreases s.len(),
{
    lemma_first_newline(s);
    let k = first_newline(s);
    if k < s.len() {
        let rest = s.skip(k + 1);
        no_byte_is_lost(rest);
        let lines = complete_lines(s);
        assert(lines.skip(1) =~= complete_lines(rest));
        assert(lines[0] == s.take(k));
        assert(s =~= s.take(k).push(10) + rest);
        assert((s.take(k).push(10) + with_line_feeds(complete_lines(rest))) + partial_line(rest)
            =~= s.take(k).push(10) + (with_line_feeds(complete_lines(rest)) + partial_line(rest)));
    } else {
        assert(with_line_feeds(complete_lines(s)) + partial_line(s) =~= s);
    }
}

/// A directory entry, as far as the search for the log reads it. `modified` is the
/// time of its last change in nanoseconds since 1970, where it can be read.
#[derive(Debug)]
pub struct LogFile {
    pub path: String,
    pub name: String,
    pub is_file: bool,
    pub modified: Option<i128>,
}

/// Whether a directory entry is a combat log.
pub open spec fn is_combat_log(f: LogFile) -> bool {
    f.is_file && starts(f.name@, "WoWCombatLog"@) && ends(f.name@, ".txt"@)
}

/// When an entry last changed; one whose time cannot be read counts as of 1970.
pub open spec fn changed_at(f: LogFile) -> int {
    match f.modified {
        Some(t) => t as int,
        None => 0,
    }
}

/// The index of the combat log that changed last; of several, the last one listed.
pub open spec fn newest_log(files: Seq<LogFile>) -> Option<int>
    decreases files.len(),
{
    if files.len() == 0 {
        None
    } else {
        let best = newest_log(files.drop_last());
        if is_combat_log(files.last()) && (best matches Some(b) ==> changed_at(files.last())
            >= changed_at(files[b])) {
            Some(files.len() - 1)
        } else {
            best
        }
    }
}

proof fn lemma_newest_log(files: Seq<LogFile>)
    ensures
        match newest_log(files) {
            Some(b) => {
                &&& 0 <= b < files.len()
                &&& is_combat_log(files[b])
                &&& forall|i: int|
                    0 <= i < files.len() && is_combat_log(#[trigger] files[i]) ==> changed_at(
                        files[i],
                    ) <= changed_at(files[b]) && (changed_at(files[i]) == changed_at(files[b])
                        ==> i <= b)
            },
            None => forall|i: int| 0 <= i < files.len() ==> !is_combat_log(#[trigger] files[i]),
        },
    decreases files.len(),
{
    if files.len() > 0 {
        let t = files.drop_last();
        lemma_newest_log(t);
        match newest_log(files) {
            Some(b) => {
                assert forall|i: int|
                    0 <= i < files.len() && is_combat_log(#[trigger] files[i]) implies changed_at(
                    files[i],
                ) <= changed_at(files[b]) && (changed_at(files[i]) == changed_at(files[b])
                    ==> i <= b) by {
                    if i < t.len() {
                        assert(t[i] == files[i]);
                        assert(is_combat_log(t[i]));
                    }
                }
            },
            None => {
                assert forall|i: int| 0 <= i < files.len() implies !is_combat_log(
                    #[trigger] files[i],
                ) by {
                    if i < t.len() {
                        assert(t[i] == files[i]);
                    }
                }
            },
        }
    }
}

/// The path of the combat log to follow: of the logs in a directory listing, the one
/// that changed last.
pub fn find_log_file(files: &Vec<LogFile>) -> (r: Option<String>)
    ensures
        match newest_log(files@) {
            Some(b) => r == Some(files@[b].path),
            None => r is None,
        },
{
    let n: usize = files.len();
    let mut best: Option<usize> = None;
    let mut i: usize = 0;
    while i < n
        invariant
            n == files@.len(),
            i <= n,
            newest_log(files@.take(i as int)) == (match best {
                Some(b) => Some(b as int),
                None => None,
            }),
            best matches Some(b) ==> b < i,
        decreases n - i,
    {
        proof {
            assert(files@.take(i + 1).drop_last() =~= files@.take(i as int));
            assert(files@.take(i + 1).last() == files@[i as int]);
        }
        if files[i].is_file && starts_with(files[i].name.as_str(), "WoWCombatLog") && ends_with(
            files[i].name.as_str(),
            ".txt",
        ) {
            let at: i128 = match files[i].modified {
                Some(t) => t,
                None => 0,
            };
            let wins: bool = match best {
                Some(b) => {
                    let other: i128 = match files[b].modified {
                        Some(t) => t,
                        None => 0,
                    };
                    at >= other
                },
                None => true,
            };
            if wins {
                best = Some(i);
            }
        }
        i = i + 1;
    }
    assert(files@.take(n as int) =~= files@);
    match best {
        Some(b) => Some(files[b].path.clone()),
        None => None,
    }
}

/// The log that is followed is one, none changed after it, and it is found whenever
/// there is any. A stale log of the plain name does not hide a newer one.
pub proof fn newest_log_is_newest(files: Seq<LogFile>)
    ensures
        newest_log(files) is Some <==> exists|i: int|
            0 <= i < files.len() && is_combat_log(#[trigger] files[i]),
        newest_log(files) matches Some(b) ==> {
            &&& 0 <= b < files.len()
            &&& is_combat_log(files[b])
            &&& forall|i: int|
                0 <= i < files.len() && is_combat_log(#[trigger] files[i]) ==> changed_at(files[i])
                    <= changed_at(files[b])
        },
{
    lemma_newest_log(files);
}

/// How long to sleep between looks at the log, in milliseconds.
pub const POLL_MS: u64 = 500;

/// How often to tell the server that the log is being followed, in milliseconds.
pub const HEARTBEAT_MS: u64 = 20_000;

/// How much of the log is read at a time at most, in bytes.
pub const MAX_READ: u64 = 4_194_304;

/// How far the log has been followed.
#[derive(Debug)]
pub struct Tailer {
    /// The path of the open log.
    pub open_path: Option<String>,
    /// How much of it has been read or passed over, in bytes.
    pub offset: u64,
    /// What has been read of a line that is not complete yet.
    pub pending: Vec<u8>,
    /// Whether a keystone run is under way.
    pub in_challenge: bool,
    /// Whether it has been said that there is no log.
    pub warned_missing: bool,
    /// When the server was last told that the log is being followed, in milliseconds.
    pub last_beat: Option<u64>,
}

/// What a `Tailer` holds.
#[verifier::ext_equal]
pub struct TailModel {
    pub open_path: Option<Seq<char>>,
    pub offset: int,
    pub pending: Seq<u8>,
    pub in_challenge: bool,
    pub warned_missing: bool,
    pub last_beat: Option<int>,
}

impl View for Tailer {
    type V = TailModel;

    open spec fn view(&self) -> TailModel {
        TailModel {
            open_path: opt_text(self.open_path),
            offset: self.offset as int,
            pending: self.pending@,
            in_challenge: self.in_challenge,
            warned_missing: self.warned_missing,
            last_beat: match self.last_beat {
                Some(t) => Some(t as int),
                None => None,
            },
        }
    }
}

/// What a look into the logs folder calls for.
#[derive(Debug)]
pub enum Look {
    /// The log that is open is still the one to follow.
    Keep,
    /// Another log is to be opened.
    Open(String),
    /// There is no log; the warning to give, the first time.
    Missing(Option<String>),
}

/// What a `Look` holds.
pub enum LookModel {
    Keep,
    Open(Seq<char>),
    Missing(Option<Seq<char>>),
}

impl View for Look {
    type V = LookModel;

    open spec fn view(&self) -> LookModel {
        match self {
            Look::Keep => LookModel::Keep,
            Look::Open(p) => LookModel::Open(p@),
            Look::Missing(w) => LookModel::Missing(opt_text(*w)),
        }
    }
}

/// The warning that there is no log in a folder.
pub open spec fn missing_message(folder: Seq<char>) -> Seq<char> {
    TAG@ + "combat log not found in "@ + folder
}

/// The message that a log is being followed.
pub open spec fn watching_message(name: Seq<char>) -> Seq<char> {
    TAG@ + "now watching "@ + name
}

impl TailModel {
    /// Nothing but the beginning of one line is kept between portions.
    pub open spec fn wf(self) -> bool {
        forall|j: int| 0 <= j < self.pending.len() ==> self.pending[j] != 10
    }

    /// What a look into the folder calls for, where `target` is the log to follow.
    pub open spec fn sees(self, target: Option<Seq<char>>, folder: Seq<char>) -> LookModel {
        match target {
            Some(t) => if self.open_path == Some(t) {
                LookModel::Keep
            } else {
                LookModel::Open(t)
            },
            None => LookModel::Missing(
                if self.warned_missing {
                    None
                } else {
                    Some(missing_message(folder))
                },
            ),
        }
    }

    /// The state behind a look: without a log to follow, none is open.
    pub open spec fn looked(self, target: Option<Seq<char>>) -> TailModel {
        match target {
            Some(_) => self,
            None => TailModel { open_path: None, warned_missing: true, ..self },
        }
    }

    /// The state behind the opening of a log that is `end` bytes long: what it holds so
    /// far is passed over.
    pub open spec fn opened(self, path: Seq<char>, end: int, now: int) -> TailModel {
        TailModel {
            open_path: Some(path),
            offset: end,
            pending: Seq::empty(),
            last_beat: Some(now),
            ..self
        }
    }

    /// The state behind a look at the size of the open log: a log that has become
    /// shorter than what was read of it is read from its beginning.
    pub open spec fn measured(self, size: int) -> TailModel {
        if size < self.offset {
            TailModel { offset: 0, pending: Seq::empty(), ..self }
        } else {
            self
        }
    }

    /// The state behind the reading of some bytes.
    pub open spec fn received(self, bytes: Seq<u8>) -> TailModel {
        let data = self.pending + bytes;
        TailModel {
            offset: self.offset + bytes.len(),
            pending: partial_line(data),
            in_challenge: challenge_after(complete_lines(data), self.in_challenge),
            ..self
        }
    }

    /// What the reading of some bytes calls for.
    pub open spec fn heard(self, bytes: Seq<u8>) -> Seq<LineModel> {
        events_of(complete_lines(self.pending + bytes), self.in_challenge)
    }

    /// Whether the server is to be told at `now` that the log is being followed.
    pub open spec fn beat_due(self, now: int) -> bool {
        self.open_path is Some && (match self.last_beat {
            Some(t) => now - t >= HEARTBEAT_MS,
            None => true,
        })
    }

    /// The state behind a heartbeat check.
    pub open spec fn beaten(self, now: int) -> TailModel {
        if self.open_path is None {
            TailModel { last_beat: None, ..self }
        } else if self.beat_due(now) {
            TailModel { last_beat: Some(now), ..self }
        } else {
            self
        }
    }

    /// The state behind the reading of several portions in turn.
    pub open spec fn received_all(self, portions: Seq<Seq<u8>>) -> TailModel
        decreases portions.len(),
    {
        if portions.len() == 0 {
            self
        } else {
            self.received_all(portions.drop_last()).received(portions.last())
        }
    }

    /// What the reading of several portions in turn calls for.
    pub open spec fn heard_all(self, portions: Seq<Seq<u8>>) -> Seq<LineModel>
        decreases portions.len(),
    {
        if portions.len() == 0 {
            Seq::empty()
        } else {
            self.heard_all(portions.drop_last()) + self.received_all(portions.drop_last()).heard(
                portions.last(),
            )
        }
    }
}

/// Portions put together.
pub open spec fn joined(portions: Seq<Seq<u8>>) -> Seq<u8>
    decreases portions.len(),
{
    if portions.len() == 0 {
        Seq::empty()
    } else {
        joined(portions.drop_last()) + portions.last()
    }
}

impl Tailer {
    /// Nothing is open yet.
    pub fn new() -> (r: Self)
        ensures
            r@ == (TailModel {
                open_path: None,
                offset: 0,
                pending: Seq::empty(),
                in_challenge: false,
                warned_missing: false,
                last_beat: None,
            }),
            r@.wf(),
    {
        Tailer {
            open_path: None,
            offset: 0,
            pending: Vec::new(),
            in_challenge: false,
            warned_missing: false,
            last_beat: None,
        }
    }

    /// What a look into `folder` calls for, where `target` is the log to follow.
    pub fn look(&mut self, target: Option<String>, folder: &str) -> (r: Look)
        ensures
            final(self)@ == old(self)@.looked(opt_text(target)),
            r@ == old(self)@.sees(opt_text(target), folder@),
    {
        match target {
            Some(t) => {
                if opt_is(&self.open_path, t.as_str()) {
                    Look::Keep
                } else {
                    Look::Open(t)
                }
            },
            None => {
                self.open_path = None;
                if self.warned_missing {
                    Look::Missing(None)
                } else {
                    self.warned_missing = true;
                    let mut text = TAG.to_owned();
                    text.append("combat log not found in ");
                    text.append(folder);
                    assert(text@ =~= missing_message(folder@));
                    Look::Missing(Some(text))
                }
            },
        }
    }

    /// The log at `path` was opened and is `end` bytes long. The message to give.
    pub fn opened(&mut self, path: String, name: &str, end: u64, now: u64) -> (r: String)
        ensures
            final(self)@ == old(self)@.opened(path@, end as int, now as int),
            r@ == watching_message(name@),
    {
        self.open_path = Some(path);
        self.offset = end;
        self.pending = Vec::new();
        self.last_beat = Some(now);
        let mut text = TAG.to_owned();
        text.append("now watching ");
        text.append(name);
        assert(text@ =~= watching_message(name@));
        text
    }

    /// The log to follow could not be opened.
    pub fn open_failed(&mut self)
        ensures
            final(self)@ == (TailModel { open_path: None, ..old(self)@ }),
    {
        self.open_path = None;
    }

    /// The open log is `size` bytes long now, where that can be read. How far to read,
    /// where there is anything new.
    pub fn measured(&mut self, size: Option<u64>) -> (r: Option<u64>)
        ensures
            match size {
                Some(n) => {
                    &&& final(self)@ == old(self)@.measured(n as int)
                    &&& r == (if n > final(self)@.offset {
                        Some(n)
                    } else {
                        None::<u64>
                    })
                },
                None => final(self)@ == old(self)@ && r is None,
            },
    {
        match size {
            Some(n) => {
                if n < self.offset {
                    self.offset = 0;
                    self.pending = Vec::new();
                }
                if n > self.offset {
                    Some(n)
                } else {
                    None
                }
            },
            None => None,
        }
    }

    /// How much to read next of a log that is `size` bytes long: what is left of it, up
    /// to the bound.
    pub fn want(&self, size: u64) -> (r: u64)
        ensures
            r == (if size <= self@.offset {
                0
            } else if size - self@.offset < MAX_READ {
                size - self@.offset
            } else {
                MAX_READ as int
            }),
    {
        if size <= self.offset {
            0
        } else if size - self.offset < MAX_READ {
            size - self.offset
        } else {
            MAX_READ
        }
    }

    /// Some bytes of the log were read.
    pub fn received(&mut self, bytes: &[u8]) -> (r: Vec<LineEvent>)
        requires
            old(self)@.offset + bytes@.len() <= u64::MAX,
        ensures
            final(self)@ == old(self)@.received(bytes@),
            event_models(r@) == old(self)@.heard(bytes@),
    {
        self.offset = self.offset + bytes.len() as u64;
        feed(&mut self.pending, bytes, &mut self.in_challenge)
    }

    /// Whether to tell the server at `now` that the log is being followed.
    pub fn beat(&mut self, now: u64) -> (r: bool)
        ensures
            r == old(self)@.beat_due(now as int),
            final(self)@ == old(self)@.beaten(now as int),
    {
        if self.open_path.is_none() {
            self.last_beat = None;
            return false;
        }
        let due: bool = match self.last_beat {
            Some(t) => now >= t && now - t >= HEARTBEAT_MS,
            None => true,
        };
        if due {
            self.last_beat = Some(now);
        }
        due
    }
}

/// In what portions the log is read makes no difference: reading several in turn leaves
/// the same state and calls for the same as reading them at once.
pub proof fn portions_add_up(t: TailModel, portions: Seq<Seq<u8>>)
    requires
        t.wf(),
    ensures
        t.received_all(portions) == t.received(joined(portions)),
        t.heard_all(portions) == t.heard(joined(portions)),
    decreases portions.len(),
{
    if portions.len() == 0 {
        let data = t.pending + joined(portions);
        assert(data =~= t.pending);
        lemma_first_newline_unique(data, data.len() as int);
        assert(complete_lines(data) == Seq::<Seq<u8>>::empty());
        assert(partial_line(data) == data);
    } else {
        let before = portions.drop_last();
        portions_add_up(t, before);
        portions_make_no_difference(t.pending, joined(before), portions.last(), t.in_challenge);
    }
}

/// Every step keeps the state well formed.
pub proof fn steps_keep_one_line(
    t: TailModel,
    path: Seq<char>,
    target: Option<Seq<char>>,
    n: int,
    bytes: Seq<u8>,
)
    requires
        t.wf(),
    ensures
        t.looked(target).wf(),
        t.opened(path, n, n).wf(),
        t.measured(n).wf(),
        t.received(bytes).wf(),
        t.beaten(n).wf(),
{
    kept_bytes_hold_no_line(t.pending + bytes);
}

/// What a log holds when it is opened is never read: reading goes on from its end, and
/// what is heard from there on depends on what was appended alone, and on whether a
/// keystone run was under way.
pub proof fn history_is_passed_over(
    t: TailModel,
    u: TailModel,
    path: Seq<char>,
    end: int,
    now: int,
    portions: Seq<Seq<u8>>,
)
    requires
        t.in_challenge == u.in_challenge,
    ensures
        t.opened(path, end, now).offset == end,
        t.opened(path, end, now).heard_all(portions) == events_of(
            complete_lines(joined(portions)),
            t.in_challenge,
        ),
        t.opened(path, end, now).heard_all(portions) == u.opened(path, end, now).heard_all(portions),
        t.opened(path, end, now).received_all(portions).offset == end + joined(portions).len(),
{
    let a = t.opened(path, end, now);
    let b = u.opened(path, end, now);
    portions_add_up(a, portions);
    portions_add_up(b, portions);
    assert(a.pending + joined(portions) =~= joined(portions));
    assert(b.pending + joined(portions) =~= joined(portions));
}

/// After a look at its size, no more of a log counts as read than it holds.
pub proof fn reading_stays_inside(t: TailModel, size: int)
    requires
        0 <= size,
    ensures
        t.measured(size).offset <= size,
        size < t.offset ==> t.measured(size).offset == 0 && t.measured(size).pending.len() == 0,
{
}

/// Something that happens while the log is followed.
pub enum TailEvent {
    Look { target: Option<Seq<char>> },
    Opened { path: Seq<char>, end: int, now: int },
    OpenFailed,
    Measured { size: int },
    Received { bytes: Seq<u8> },
    Beat { now: int },
}

impl TailModel {
    /// The state behind something that happens.
    pub open spec fn step(self, e: TailEvent) -> TailModel {
        match e {
            TailEvent::Look { target } => self.looked(target),
            TailEvent::Opened { path, end, now } => self.opened(path, end, now),
            TailEvent::OpenFailed => TailModel { open_path: None, ..self },
            TailEvent::Measured { size } => self.measured(size),
            TailEvent::Received { bytes } => self.received(bytes),
            TailEvent::Beat { now } => self.beaten(now),
        }
    }

    /// The state behind a run of events.
    pub open spec fn after(self, events: Seq<TailEvent>) -> TailModel
        decreases events.len(),
    {
        if events.len() == 0 {
            self
        } else {
            self.after(events.drop_last()).step(events.last())
        }
    }
}

proof fn lemma_warned_stays(t: TailModel, events: Seq<TailEvent>)
    requires
        t.warned_missing,
    ensures
        t.after(events).warned_missing,
    decreases events.len(),
{
    if events.len() > 0 {
        lemma_warned_stays(t, events.drop_last());
    }
}

/// A missing log is warned of at most once in a run: whatever happens after a look that
/// found none, the opening of a log too, no look warns of it again.
pub proof fn missing_is_said_once(t: TailModel, folder: Seq<char>, events: Seq<TailEvent>)
    ensures
        t.looked(None).after(events).sees(None, folder) == LookModel::Missing(None),
{
    lemma_warned_stays(t.looked(None), events);
}

/// Heartbeats are sent only while a log is open, and never two within the interval.
pub proof fn heartbeats_are_spaced(t: TailModel, now: int, later: int)
    requires
        t.beat_due(now),
        now <= later < now + HEARTBEAT_MS,
    ensures
        t.open_path is Some,
        !t.beaten(now).beat_due(later),
        t.beaten(now).beat_due(now + HEARTBEAT_MS),
{
}

/// Whether the combat log is being followed, and for whom.
#[derive(Debug)]
pub struct CombatLogState {
    /// The guilds that have a live session.
    pub active_guilds: Vec<String>,
    /// Whether the log is being followed.
    pub tailing: bool,
}

/// What a change to the settings or the guilds calls for.
#[derive(Debug)]
pub enum Reconciled {
    /// Nothing changes.
    Same,
    /// Begin to follow the log in `folder`, and say so.
    Start { folder: String, message: String },
    /// Stop following, and say so; tell the server too where watching was turned off.
    Stop { clear_presence: bool, message: String },
}

/// The message that the log is being followed from now on.
pub open spec fn session_started_message() -> Seq<char> {
    TAG@ + "live session started — watching the combat log"@
}

/// The message that the log is no longer followed.
pub open spec fn session_ended_message() -> Seq<char> {
    TAG@ + "live session ended — stopped watching"@
}

/// Whether the log is to be followed: watching is on, some guild has a live session,
/// and the logs folder is known.
pub open spec fn should_tail(enabled: bool, guilds: Seq<Seq<char>>, folder: Option<Seq<char>>) -> bool {
    enabled && guilds.len() > 0 && folder is Some
}

impl CombatLogState {
    /// No guild has a live session, and the log is not followed.
    pub fn new() -> (r: Self)
        ensures
            r.active_guilds@.len() == 0,
            !r.tailing,
    {
        CombatLogState { active_guilds: Vec::new(), tailing: false }
    }

    /// The guilds that have a live session.
    pub fn active_guilds(&self) -> (r: Vec<String>)
        ensures
            texts(r@) == texts(self.active_guilds@),
    {
        let n: usize = self.active_guilds.len();
        let mut out: Vec<String> = Vec::new();
        let mut i: usize = 0;
        while i < n
            invariant
                n == self.active_guilds@.len(),
                i <= n,
                out@.len() == i,
                forall|j: int| 0 <= j < i ==> out@[j]@ == self.active_guilds@[j]@,
            decreases n - i,
        {
            out.push(self.active_guilds[i].clone());
            i = i + 1;
        }
        assert(texts(out@) =~= texts(self.active_guilds@));
        out
    }

    /// Starts or stops following the log where the settings and the guilds call for it.
    pub fn reconcile(&mut self, enabled: bool, folder: &Option<String>) -> (r: Reconciled)
        ensures
            final(self).active_guilds == old(self).active_guilds,
            final(self).tailing == should_tail(
                enabled,
                texts(old(self).active_guilds@),
                opt_text(*folder),
            ),
            match r {
                Reconciled::Same => final(self).tailing == old(self).tailing,
                Reconciled::Start { folder: f, message } => {
                    &&& !old(self).tailing && final(self).tailing
                    &&& opt_text(*folder) == Some(f@)
                    &&& message@ == session_started_message()
                },
                Reconciled::Stop { clear_presence, message } => {
                    &&& old(self).tailing && !final(self).tailing
                    &&& clear_presence == !enabled
                    &&& message@ == session_ended_message()
                },
            },
    {
        assert(texts(self.active_guilds@).len() == self.active_guilds@.len());
        let active: bool = self.active_guilds.len() > 0;
        if self.tailing {
            if enabled && active && folder.is_some() {
                Reconciled::Same
            } else {
                self.tailing = false;
                let mut message = TAG.to_owned();
                message.append("live session ended — stopped watching");
                assert(message@ =~= session_ended_message());
                Reconciled::Stop { clear_presence: !enabled, message }
            }
        } else {
            match folder {
                Some(f) => {
                    if enabled && active {
                        self.tailing = true;
                        let mut message = TAG.to_owned();
                        message.append("live session started — watching the combat log");
                        assert(message@ =~= session_started_message());
                        Reconciled::Start { folder: f.clone(), message }
                    } else {
                        Reconciled::Same
                    }
                },
                None => Reconciled::Same,
            }
        }
    }
}

} // verus!
