//! The combat log: what its lines say, and what the server is told when a raid
//! encounter has ended.
use vstd::prelude::*;
use vstd::string::*;

use crate::api::{EncounterSignal, EncounterSignalResp, SignalModel};
use crate::clock::{Civil, DAY_MS, local_instant, placed};
use crate::number::{
    decimal, digits_value, i64_text, is_digit, is_digits, parse_i32, parse_i64, parse_u32,
    signed_value, unsigned_value, within,
};
use crate::text::{
    blank, contains_text, first_index, is_whitespace, lemma_first_index,
    lemma_first_index_unique,
    lemma_split_nonempty, occurs, opt_text, same_text, slice_texts, split, split_at_char,
    split_at_gap, split_on, split_once_char, split_once_gap, starts, strip_start, texts, trim,
    trim_end_by, trim_start_by, trimmed,
};

verus! {

/// The mark at the head of every activity-log line about the combat log.
pub const TAG: &'static str = "[Combatlog] ";

/// The quoted name in the body of a line, and what follows its closing quote.
pub open spec fn quoted(body: Seq<char>) -> Option<(Seq<char>, Seq<char>)> {
    match split_at_char(body, '"') {
        Some((_, rest)) => split_at_char(rest, '"'),
        None => None,
    }
}

/// The name of an encounter: the quoted part of the body.
pub fn encounter_name(body: &str) -> (r: Option<String>)
    ensures
        opt_text(r) == (match quoted(body@) {
            Some((name, _)) => Some(name),
            None => None,
        }),
{
    match split_once_char(body, '"') {
        Some((_, rest)) => match split_once_char(rest, '"') {
            Some((name, _)) => Some(name.to_owned()),
            None => None,
        },
        None => None,
    }
}

/// What follows the comma that separates the name from the next field.
pub open spec fn behind_comma(after: Seq<char>) -> Seq<char> {
    if after.len() > 0 && after[0] == ',' {
        after.skip(1)
    } else {
        after
    }
}

/// The comma-separated fields behind the quoted name, each without surrounding space. A
/// field that is empty keeps its place.
pub open spec fn fields_of(body: Seq<char>) -> Seq<Seq<char>> {
    match quoted(body) {
        Some((_, after)) => split(behind_comma(after), ',').map_values(|f: Seq<char>| trim(f)),
        None => Seq::empty(),
    }
}

/// The comma-separated fields behind the quoted name, in order. For the end of an
/// encounter these are the difficulty id, the group size, the success flag and the
/// fight time in milliseconds.
pub fn fields_after_name<'a>(body: &'a str) -> (r: Vec<&'a str>)
    ensures
        slice_texts(r@) == fields_of(body@),
{
    let mut out: Vec<&'a str> = Vec::new();
    let after: &'a str = match split_once_char(body, '"') {
        Some((_, rest)) => match split_once_char(rest, '"') {
            Some((_, after)) => after,
            None => {
                assert(slice_texts(out@) =~= Seq::empty());
                return out;
            },
        },
        None => {
            assert(slice_texts(out@) =~= Seq::empty());
            return out;
        },
    };
    proof {
        reveal_strlit(",");
        if after@.len() > 0 {
            assert(after@.take(1) =~= seq![after@[0]]);
            assert(","@ =~= seq![',']);
            assert(seq![after@[0]][0] == after@[0]);
        }
    }
    let rest = match strip_start(after, ",") {
        Some(rest) => rest,
        None => after,
    };
    assert(rest@ == behind_comma(after@));
    let pieces = split_on(rest, ',');
    let ghost all = fields_of(body@);
    let n: usize = pieces.len();
    let mut i: usize = 0;
    assert(all.len() == n) by {
        assert(slice_texts(pieces@).len() == n);
    }
    while i < n
        invariant
            n == pieces@.len(),
            i <= n,
            all == slice_texts(pieces@).map_values(|f: Seq<char>| trim(f)),
            slice_texts(out@) == all.take(i as int),
        decreases n - i,
    {
        let f = trimmed(pieces[i]);
        proof {
            assert(slice_texts(pieces@)[i as int] == pieces@[i as int]@);
            assert(all[i as int] == f@);
            assert(all.len() == slice_texts(pieces@).len());
            assert(slice_texts(out@.push(f)) =~= slice_texts(out@).push(f@));
            assert(all.take(i as int).push(f@) =~= all.take(i + 1));
        }
        out.push(f);
        i = i + 1;
    }
    assert(all.take(n as int) =~= all);
    out
}

/// The number in a field, where it fits in 64 bits.
pub open spec fn number_in(field: Seq<char>) -> Option<int> {
    within(signed_value(field), i64::MIN as int, i64::MAX as int)
}

/// The encounter's id: the field behind the event name.
pub open spec fn id_of(body: Seq<char>) -> Option<int> {
    let fields = split(body, ',');
    if fields.len() < 2 {
        None
    } else {
        number_in(trim(fields[1]))
    }
}

/// The encounter's id: the field behind the event name.
pub fn encounter_id(body: &str) -> (r: Option<i64>)
    ensures
        match r {
            Some(v) => id_of(body@) == Some(v as int),
            None => id_of(body@) is None,
        },
{
    let fields = split_on(body, ',');
    assert(slice_texts(fields@).len() == fields@.len());
    if fields.len() < 2 {
        return None;
    }
    assert(slice_texts(fields@)[1] == fields@[1]@);
    parse_i64(trimmed(fields[1]))
}

/// What the end of an encounter says.
#[derive(Debug)]
pub struct EncounterEnd {
    pub encounter_id: i64,
    pub name: String,
    pub difficulty_id: i64,
    pub success: bool,
    pub fight_time_ms: i64,
}

/// What an `EncounterEnd` holds.
#[verifier::ext_equal]
pub struct EndModel {
    pub encounter_id: int,
    pub name: Seq<char>,
    pub difficulty_id: int,
    pub success: bool,
    pub fight_time_ms: int,
}

impl View for EncounterEnd {
    type V = EndModel;

    open spec fn view(&self) -> EndModel {
        EndModel {
            encounter_id: self.encounter_id as int,
            name: self.name@,
            difficulty_id: self.difficulty_id as int,
            success: self.success,
            fight_time_ms: self.fight_time_ms as int,
        }
    }
}

/// The number in field `i`, or zero where there is none.
pub open spec fn field_number(fields: Seq<Seq<char>>, i: int) -> int {
    if i < fields.len() {
        match number_in(fields[i]) {
            Some(v) => v,
            None => 0,
        }
    } else {
        0
    }
}

/// What the body of an encounter's last line says; nothing without an id. A missing
/// name is made up from the id, and a missing or unreadable number is zero.
pub open spec fn end_of(body: Seq<char>) -> Option<EndModel> {
    match id_of(body) {
        Some(id) => {
            let fields = fields_of(body);
            Some(
                EndModel {
                    encounter_id: id,
                    name: match quoted(body) {
                        Some((name, _)) => name,
                        None => decimal(id),
                    },
                    difficulty_id: field_number(fields, 0),
                    success: fields.len() > 2 && fields[2] == "1"@,
                    fight_time_ms: field_number(fields, 3),
                },
            )
        },
        None => None,
    }
}

/// The number in field `i`, or zero where there is none.
fn number_at(fields: &Vec<&str>, i: usize) -> (r: i64)
    ensures
        r == field_number(slice_texts(fields@), i as int),
{
    if i < fields.len() {
        assert(slice_texts(fields@)[i as int] == fields@[i as int]@);
        match parse_i64(fields[i]) {
            Some(v) => v,
            None => 0,
        }
    } else {
        0
    }
}

/// What the body of an encounter's last line says.
pub fn encounter_end(body: &str) -> (r: Option<EncounterEnd>)
    ensures
        match r {
            Some(e) => end_of(body@) == Some(e@),
            None => end_of(body@) is None,
        },
{
    let id: i64 = match encounter_id(body) {
        Some(id) => id,
        None => return None,
    };
    let name = match encounter_name(body) {
        Some(n) => n,
        None => i64_text(id),
    };
    let fields = fields_after_name(body);
    let difficulty_id: i64 = number_at(&fields, 0);
    let success: bool = if fields.len() > 2 {
        assert(slice_texts(fields@)[2] == fields@[2]@);
        same_text(fields[2], "1")
    } else {
        false
    };
    let fight_time_ms: i64 = number_at(&fields, 3);
    let e = EncounterEnd { encounter_id: id, name, difficulty_id, success, fight_time_ms };
    assert(slice_texts(fields@).len() == fields@.len());
    Some(e)
}

/// What one line of the log calls for.
#[derive(Debug)]
pub enum LineEvent {
    Nothing,
    /// A raid encounter began.
    Started { name: String },
    /// A raid encounter ended: the time stamp and the body of its line.
    Ended { ts: String, body: String },
}

/// What a `LineEvent` holds.
pub enum LineModel {
    Nothing,
    Started { name: Seq<char> },
    Ended { ts: Seq<char>, body: Seq<char> },
}

impl View for LineEvent {
    type V = LineModel;

    open spec fn view(&self) -> LineModel {
        match self {
            LineEvent::Nothing => LineModel::Nothing,
            LineEvent::Started { name } => LineModel::Started { name: name@ },
            LineEvent::Ended { ts, body } => LineModel::Ended { ts: ts@, body: body@ },
        }
    }
}

/// The event that the body of a line names.
pub open spec fn event_of(body: Seq<char>) -> Seq<char> {
    trim(split(body, ',')[0])
}

/// What a line calls for, and whether a keystone run is under way behind it. A line is
/// a time stamp, two spaces and a body. Encounters inside a keystone run are no raid
/// encounters and call for nothing.
pub open spec fn line_outcome(line: Seq<char>, in_challenge: bool) -> (LineModel, bool) {
    match split_at_gap(line) {
        None => (LineModel::Nothing, in_challenge),
        Some((ts, body)) => {
            let event = event_of(body);
            if event == "CHALLENGE_MODE_START"@ {
                (LineModel::Nothing, true)
            } else if event == "CHALLENGE_MODE_END"@ {
                (LineModel::Nothing, false)
            } else if in_challenge {
                (LineModel::Nothing, in_challenge)
            } else if event == "ENCOUNTER_START"@ {
                match quoted(body) {
                    Some((name, _)) => (LineModel::Started { name }, in_challenge),
                    None => (LineModel::Nothing, in_challenge),
                }
            } else if event == "ENCOUNTER_END"@ {
                (LineModel::Ended { ts, body }, in_challenge)
            } else {
                (LineModel::Nothing, in_challenge)
            }
        },
    }
}

proof fn lemma_trim_start_is_suffix(s: Seq<char>, p: spec_fn(char) -> bool) -> (a: int)
    ensures
        0 <= a <= s.len(),
        trim_start_by(s, p) == s.skip(a),
    decreases s.len(),
{
    if s.len() > 0 && p(s[0]) {
        let a = lemma_trim_start_is_suffix(s.skip(1), p);
        assert(s.skip(1).skip(a) =~= s.skip(a + 1));
        a + 1
    } else {
        assert(s.skip(0) =~= s);
        0
    }
}

proof fn lemma_trim_end_is_prefix(s: Seq<char>, p: spec_fn(char) -> bool) -> (b: int)
    ensures
        0 <= b <= s.len(),
        trim_end_by(s, p) == s.take(b),
    decreases s.len(),
{
    if s.len() > 0 && p(s.last()) {
        let b = lemma_trim_end_is_prefix(s.drop_last(), p);
        assert(s.drop_last().take(b) =~= s.take(b));
        b
    } else {
        assert(s.take(s.len() as int) =~= s);
        s.len() as int
    }
}

/// The body of a line.
pub open spec fn body_of(line: Seq<char>) -> Option<Seq<char>> {
    match split_at_gap(line) {
        Some((_, body)) => Some(body),
        None => None,
    }
}

/// The event that a line names stands in the line.
proof fn lemma_event_occurs(line: Seq<char>, word: Seq<char>)
    requires
        body_of(line) is Some,
        starts(event_of(body_of(line)->0), word),
    ensures
        occurs(line, word),
{
    let k = crate::text::first_gap(line);
    crate::text::lemma_first_gap_bounds(line);
    let body = line.skip(k + 2);
    lemma_split_nonempty(body, ',');
    lemma_first_index(body, ',');
    let head = body.take(first_index(body, ','));
    let a = lemma_trim_start_is_suffix(head, blank());
    let b = lemma_trim_end_is_prefix(head.skip(a), blank());
    let event = event_of(body);
    assert(event =~= line.subrange(k + 2 + a, k + 2 + a + b));
    let at = k + 2 + a;
    assert(event.take(word.len() as int) =~= line.subrange(at, at + word.len()));
    assert(line.subrange(at, at + word.len()) == word);
}

/// Takes in one line of the log. Lines that cannot name an event of interest are
/// passed over at once.
pub fn process_line(line: &str, in_challenge: &mut bool) -> (r: LineEvent)
    ensures
        (r@, *final(in_challenge)) == line_outcome(line@, *old(in_challenge)),
{
    proof {
        reveal_strlit("ENCOUNTER_");
        reveal_strlit("CHALLENGE_MODE_");
        reveal_strlit("ENCOUNTER_START");
        reveal_strlit("ENCOUNTER_END");
        reveal_strlit("CHALLENGE_MODE_START");
        reveal_strlit("CHALLENGE_MODE_END");
        assert("ENCOUNTER_START"@.take(10) =~= "ENCOUNTER_"@);
        assert("ENCOUNTER_END"@.take(10) =~= "ENCOUNTER_"@);
        assert("CHALLENGE_MODE_START"@.take(15) =~= "CHALLENGE_MODE_"@);
        assert("CHALLENGE_MODE_END"@.take(15) =~= "CHALLENGE_MODE_"@);
    }
    if !(contains_text(line, "ENCOUNTER_") || contains_text(line, "CHALLENGE_MODE_")) {
        proof {
            if body_of(line@) is Some {
                let event = event_of(body_of(line@)->0);
                if starts(event, "ENCOUNTER_"@) {
                    lemma_event_occurs(line@, "ENCOUNTER_"@);
                }
                if starts(event, "CHALLENGE_MODE_"@) {
                    lemma_event_occurs(line@, "CHALLENGE_MODE_"@);
                }
            }
        }
        return LineEvent::Nothing;
    }
    let (ts, body) = match split_once_gap(line) {
        Some(parts) => parts,
        None => return LineEvent::Nothing,
    };
    let pieces = split_on(body, ',');
    assert(slice_texts(pieces@)[0] == pieces@[0]@);
    let event = trimmed(pieces[0]);
    if same_text(event, "CHALLENGE_MODE_START") {
        *in_challenge = true;
        LineEvent::Nothing
    } else if same_text(event, "CHALLENGE_MODE_END") {
        *in_challenge = false;
        LineEvent::Nothing
    } else if *in_challenge {
        LineEvent::Nothing
    } else if same_text(event, "ENCOUNTER_START") {
        match encounter_name(body) {
            Some(name) => LineEvent::Started { name },
            None => LineEvent::Nothing,
        }
    } else if same_text(event, "ENCOUNTER_END") {
        LineEvent::Ended { ts: ts.to_owned(), body: body.to_owned() }
    } else {
        LineEvent::Nothing
    }
}

/// The number that a field of a time stamp writes out.
pub open spec fn part(s: Seq<char>) -> Option<u32> {
    match within(unsigned_value(s), 0, u32::MAX as int) {
        Some(v) => Some(v as u32),
        None => None,
    }
}

/// The year that a field of a time stamp writes out.
pub open spec fn year_part(s: Seq<char>) -> Option<i32> {
    match within(signed_value(s), i32::MIN as int, i32::MAX as int) {
        Some(v) => Some(v as i32),
        None => None,
    }
}

/// The first three digits of a fraction of a second, filled up with zeros.
pub open spec fn millis_text(frac: Seq<char>) -> Seq<char> {
    (frac + seq!['0', '0', '0']).take(3)
}

/// The civil time that a time stamp `M/D/YYYY H:MM:SS.ffff` writes out. The fraction
/// may be missing; whatever stands behind the year or the seconds after another
/// separator is passed over.
pub open spec fn stamp_of(ts: Seq<char>) -> Option<Civil> {
    match split_at_char(trim(ts), ' ') {
        None => None,
        Some((date, time)) => {
            let d = split(date, '/');
            let t = split(time, ':');
            if d.len() < 3 || t.len() < 3 {
                None
            } else {
                let (sec, frac) = match split_at_char(t[2], '.') {
                    Some((sec, frac)) => (sec, frac),
                    None => (t[2], seq!['0']),
                };
                match (part(d[0]), part(d[1]), year_part(d[2]), part(t[0]), part(t[1]), part(sec), part(
                    millis_text(frac),
                )) {
                    (
                        Some(month),
                        Some(day),
                        Some(year),
                        Some(hour),
                        Some(minute),
                        Some(second),
                        Some(ms),
                    ) => Some(Civil { year, month, day, hour, minute, second, ms }),
                    _ => None,
                }
            }
        },
    }
}

/// The milliseconds that a fraction of a second writes out.
fn parse_millis(frac: &str) -> (r: Option<u32>)
    ensures
        r == part(millis_text(frac@)),
{
    let mut padded = frac.to_owned();
    padded.append("000");
    proof {
        reveal_strlit("000");
        assert("000"@ =~= seq!['0', '0', '0']);
    }
    let head = padded.as_str().substring_char(0, 3);
    assert(head@ =~= millis_text(frac@));
    parse_u32(head)
}

/// The civil time that a time stamp of the log writes out.
pub fn parse_log_ts(ts: &str) -> (r: Option<Civil>)
    ensures
        r == stamp_of(ts@),
{
    let (date, time) = match split_once_char(trimmed(ts), ' ') {
        Some(parts) => parts,
        None => return None,
    };
    let d = split_on(date, '/');
    let t = split_on(time, ':');
    proof {
        assert(slice_texts(d@).len() == d@.len());
        assert(slice_texts(t@).len() == t@.len());
    }
    if d.len() < 3 || t.len() < 3 {
        return None;
    }
    proof {
        assert(slice_texts(d@)[0] == d@[0]@);
        assert(slice_texts(d@)[1] == d@[1]@);
        assert(slice_texts(d@)[2] == d@[2]@);
        assert(slice_texts(t@)[0] == t@[0]@);
        assert(slice_texts(t@)[1] == t@[1]@);
        assert(slice_texts(t@)[2] == t@[2]@);
        reveal_strlit("0");
        assert("0"@ =~= seq!['0']);
    }
    let (sec, frac) = match split_once_char(t[2], '.') {
        Some(parts) => parts,
        None => (t[2], "0"),
    };
    match (
        parse_u32(d[0]),
        parse_u32(d[1]),
        parse_i32(d[2]),
        parse_u32(t[0]),
        parse_u32(t[1]),
        parse_u32(sec),
        parse_millis(frac),
    ) {
        (
            Some(month),
            Some(day),
            Some(year),
            Some(hour),
            Some(minute),
            Some(second),
            Some(ms),
        ) => Some(Civil { year, month, day, hour, minute, second, ms }),
        _ => None,
    }
}

/// Whether `r` is the instant of a time stamp: what the machine's clock says of the civil
/// time that the stamp writes out, and none where it cannot be read. Any there is lies
/// within a day of the same reading in UTC, and whole seconds from it.
pub open spec fn instant_of(ts: Seq<char>, r: Option<i64>) -> bool {
    match stamp_of(ts) {
        Some(c) => {
            &&& placed(c, r)
            &&& r is Some ==> c.exists_on_calendar()
            &&& r matches Some(t) ==> -DAY_MS < t - c.utc_ms() < DAY_MS && (t - c.utc_ms()) % 1000
                == 0
        },
        None => r is None,
    }
}

/// The instant of a time stamp, which is in the machine's local time, in epoch
/// milliseconds.
pub fn parse_log_ts_ms(ts: &str) -> (r: Option<i64>)
    ensures
        instant_of(ts@, r),
{
    match parse_log_ts(ts) {
        Some(c) => local_instant(&c),
        None => None,
    }
}

/// When a fight began: its length before its end, where both are known, and
/// otherwise its end.
pub open spec fn start_of(end_time: int, fight_time_ms: int) -> int {
    if end_time > 0 && fight_time_ms > 0 {
        end_time - fight_time_ms
    } else {
        end_time
    }
}

/// What one guild is told.
pub open spec fn signal_to(guild: Seq<char>, e: EndModel, end_time: int) -> SignalModel {
    SignalModel {
        guild_id: guild,
        encounter_id: e.encounter_id as i64,
        encounter_name: e.name,
        difficulty_id: e.difficulty_id as i64,
        success: e.success,
        start_time: start_of(end_time, e.fight_time_ms) as i64,
        end_time: end_time as i64,
    }
}

/// What a list of signals holds.
pub open spec fn signal_models(v: Seq<EncounterSignal>) -> Seq<SignalModel> {
    v.map_values(|x: EncounterSignal| x@)
}

/// What the guilds are told when a fight ended at `end_time`: one signal each, in order.
pub open spec fn signals_to(guilds: Seq<Seq<char>>, e: EndModel, end_time: int) -> Seq<SignalModel> {
    guilds.map_values(|g: Seq<char>| signal_to(g, e, end_time))
}

/// The end of an encounter, ready to be reported: the line for the activity log, and
/// a signal for each guild.
#[derive(Debug)]
pub struct EncounterReport {
    pub name: String,
    pub message: String,
    pub signals: Vec<EncounterSignal>,
}

/// The activity-log line for the end of an encounter.
pub open spec fn ended_message(name: Seq<char>, success: bool) -> Seq<char> {
    TAG@ + "encounter ended: "@ + name + " ("@ + (if success {
        "kill"@
    } else {
        "wipe"@
    }) + ") — notifying server"@
}

/// The activity-log line for the start of an encounter.
pub open spec fn started_message(name: Seq<char>) -> Seq<char> {
    TAG@ + "encounter started: "@ + name
}

/// The activity-log line for the start of an encounter.
pub fn encounter_started(name: &str) -> (r: String)
    ensures
        r@ == started_message(name@),
{
    let mut msg = TAG.to_owned();
    msg.append("encounter started: ");
    msg.append(name);
    msg
}

/// Whether a report is that of an encounter that ended at `end_time`.
pub open spec fn reports(
    r: Option<EncounterReport>,
    body: Seq<char>,
    guilds: Seq<Seq<char>>,
    end_time: int,
) -> bool {
    match (r, end_of(body)) {
        (Some(rep), Some(e)) => {
            &&& guilds.len() > 0
            &&& rep.name@ == e.name
            &&& rep.message@ == ended_message(e.name, e.success)
            &&& signal_models(rep.signals@) == signals_to(guilds, e, end_time)
        },
        (None, Some(_)) => guilds.len() == 0,
        (None, None) => true,
        (Some(_), None) => false,
    }
}

/// Reports the end of an encounter at the given instant, if it could be told: to every
/// guild with a live session, and to nobody where there is none or the line carries no
/// id. An unknown instant counts as zero.
pub fn encounter_report(
    end_time: Option<i64>,
    body: &str,
    guilds: &Vec<String>,
) -> (r: Option<EncounterReport>)
    ensures
        reports(
            r,
            body@,
            texts(guilds@),
            match end_time {
                Some(t) => t as int,
                None => 0,
            },
        ),
{
    let e = match encounter_end(body) {
        Some(e) => e,
        None => return None,
    };
    let end: i64 = match end_time {
        Some(t) => t,
        None => 0,
    };
    let start: i64 = if end > 0 && e.fight_time_ms > 0 {
        end - e.fight_time_ms
    } else {
        end
    };
    assert(texts(guilds@).len() == guilds@.len());
    if guilds.len() == 0 {
        return None;
    }
    let mut message = TAG.to_owned();
    message.append("encounter ended: ");
    message.append(e.name.as_str());
    message.append(" (");
    if e.success {
        message.append("kill");
    } else {
        message.append("wipe");
    }
    message.append(") — notifying server");
    let ghost all = signals_to(texts(guilds@), e@, end as int);
    let mut signals: Vec<EncounterSignal> = Vec::new();
    let n: usize = guilds.len();
    let mut i: usize = 0;
    assert(signal_models(signals@) =~= all.take(0));
    while i < n
        invariant
            n == guilds@.len(),
            i <= n,
            all == signals_to(texts(guilds@), e@, end as int),
            start == start_of(end as int, e.fight_time_ms as int),
            signal_models(signals@) == all.take(i as int),
        decreases n - i,
    {
        let x = EncounterSignal {
            guild_id: guilds[i].clone(),
            encounter_id: e.encounter_id,
            encounter_name: e.name.clone(),
            difficulty_id: e.difficulty_id,
            success: e.success,
            start_time: start,
            end_time: end,
        };
        proof {
            assert(all.len() == n);
            assert(texts(guilds@)[i as int] == guilds@[i as int]@);
            assert(all[i as int] == x@);
            assert(signal_models(signals@.push(x)) =~= signal_models(signals@).push(x@));
            assert(all.take(i as int).push(x@) =~= all.take(i + 1));
        }
        signals.push(x);
        i = i + 1;
    }
    assert(all.take(n as int) =~= all);
    Some(EncounterReport { name: e.name, message, signals })
}

/// Takes in the end of a raid encounter: its time stamp is placed on this machine's
/// clock, and the guilds with a live session are to be told.
pub fn handle_encounter_end(ts: &str, body: &str, guilds: &Vec<String>) -> (r: Option<EncounterReport>)
    ensures
        exists|end_time: Option<i64>|
            instant_of(ts@, end_time) && reports(
                r,
                body@,
                texts(guilds@),
                match end_time {
                    Some(t) => t as int,
                    None => 0,
                },
            ),
        r is Some <==> end_of(body@) is Some && guilds@.len() > 0,
{
    let end_time: Option<i64> = parse_log_ts_ms(ts);
    assert(texts(guilds@).len() == guilds@.len());
    encounter_report(end_time, body, guilds)
}

/// The activity-log line for the server's answer to a signal.
pub open spec fn answer_message(name: Seq<char>, is_tracked: bool, polled: bool) -> Seq<char> {
    if is_tracked && polled {
        TAG@ + "server polling WCL for the new pull"@
    } else if is_tracked {
        TAG@ + "duplicate signal — server already polling"@
    } else {
        TAG@ + name + " not a tracked raid encounter — ignored"@
    }
}

/// The activity-log line for the server's answer to a signal.
pub fn signal_answer(name: &str, resp: &EncounterSignalResp) -> (r: String)
    ensures
        r@ == answer_message(name@, resp.is_tracked, resp.polled),
{
    let mut msg = TAG.to_owned();
    if resp.is_tracked && resp.polled {
        msg.append("server polling WCL for the new pull");
    } else if resp.is_tracked {
        msg.append("duplicate signal — server already polling");
    } else {
        msg.append(name);
        msg.append(" not a tracked raid encounter — ignored");
    }
    msg
}

/// The activity-log line for a signal that did not reach the server.
pub fn signal_failed(e: &str) -> (r: String)
    ensures
        r@ == TAG@ + "couldn't notify the server: "@ + e@,
{
    let mut msg = TAG.to_owned();
    msg.append("couldn't notify the server: ");
    msg.append(e);
    msg
}

/// Every guild with a live session is told of an encounter, and no other: signal `i`
/// goes to guild `i`, and all say the same of the encounter.
pub proof fn every_live_guild_is_told(guilds: Seq<Seq<char>>, e: EndModel, end_time: int, i: int)
    requires
        0 <= i < guilds.len(),
    ensures
        signals_to(guilds, e, end_time).len() == guilds.len(),
        signals_to(guilds, e, end_time)[i].guild_id == guilds[i],
        signals_to(guilds, e, end_time)[i] == (SignalModel {
            guild_id: guilds[i],
            ..signals_to(guilds, e, end_time)[0]
        }),
{
}

/// A fight does not begin after its end.
pub proof fn fights_begin_before_they_end(end_time: int, fight_time_ms: int)
    ensures
        start_of(end_time, fight_time_ms) <= end_time,
        end_time > 0 && fight_time_ms > 0 ==> end_time - start_of(end_time, fight_time_ms)
            == fight_time_ms,
{
}

/// Inside a keystone run no line reports an encounter, and only the end of the run ends it.
pub proof fn keystone_runs_are_silent(line: Seq<char>)
    ensures
        line_outcome(line, true).0 is Nothing,
        !line_outcome(line, true).1 ==> body_of(line) is Some && event_of(body_of(line)->0)
            == "CHALLENGE_MODE_END"@,
{
    reveal_strlit("CHALLENGE_MODE_START");
    reveal_strlit("CHALLENGE_MODE_END");
}

/// Whether a time stamp has no space around it and its seconds have no fraction.
pub open spec fn without_fraction(ts: Seq<char>) -> bool {
    &&& trim(ts) == ts
    &&& split_at_char(ts, ' ') matches Some((_, time)) && split(time, ':').len() == 3
        && split_at_char(split(time, ':')[2], '.') is None
}

/// The value of the digit at a place of a fraction; zero behind its end.
pub open spec fn digit_at(frac: Seq<char>, i: int) -> int {
    if i < frac.len() {
        frac[i] as int - '0' as int
    } else {
        0
    }
}

/// The milliseconds of a fraction of a second: it is filled up on the right to three digits,
/// and cut behind them.
pub open spec fn millis_of(frac: Seq<char>) -> int {
    100 * digit_at(frac, 0) + 10 * digit_at(frac, 1) + digit_at(frac, 2)
}

proof fn lemma_trim_lengths(s: Seq<char>)
    ensures
        trim_start_by(s, blank()).len() <= s.len(),
        trim_end_by(s, blank()).len() <= s.len(),
{
    let a = lemma_trim_start_is_suffix(s, blank());
    let b = lemma_trim_end_is_prefix(s, blank());
}

/// A text that begins and ends with something else than white space is trimmed already.
proof fn lemma_trimmed(s: Seq<char>)
    requires
        s.len() > 0,
        !is_whitespace(s[0]),
        !is_whitespace(s.last()),
    ensures
        trim(s) == s,
{
}

proof fn lemma_trimmed_ends(s: Seq<char>)
    requires
        s.len() > 0,
        trim(s) == s,
    ensures
        !is_whitespace(s[0]),
{
    lemma_trim_lengths(s);
    if is_whitespace(s[0]) {
        lemma_trim_lengths(s.skip(1));
        lemma_trim_lengths(trim_start_by(s, blank()));
    }
}

/// What follows the last separator goes into the last piece.
proof fn lemma_split_extend(x: Seq<char>, y: Seq<char>, sep: char)
    requires
        forall|i: int| 0 <= i < y.len() ==> y[i] != sep,
    ensures
        split(x + y, sep).len() == split(x, sep).len(),
        split(x + y, sep) == split(x, sep).drop_last().push(split(x, sep).last() + y),
    decreases x.len(),
{
    let s = x + y;
    lemma_first_index(x, sep);
    lemma_split_nonempty(x, sep);
    lemma_split_nonempty(s, sep);
    let k = first_index(x, sep);
    if k < x.len() {
        assert forall|j: int| 0 <= j < k implies s[j] != sep by {
            assert(s[j] == x[j]);
        }
        assert(s[k] == x[k]);
        lemma_first_index_unique(s, sep, k);
        let rest = x.skip(k + 1);
        assert(s.take(k) =~= x.take(k));
        assert(s.skip(k + 1) =~= rest + y);
        lemma_split_nonempty(rest, sep);
        lemma_split_extend(rest, y, sep);
        let a = seq![x.take(k)];
        assert(split(x, sep) == a + split(rest, sep));
        assert(split(s, sep) == a + split(rest + y, sep));
        assert(split(x, sep).last() == split(rest, sep).last());
        assert(split(x, sep).drop_last() =~= a + split(rest, sep).drop_last());
        assert(a + split(rest, sep).drop_last().push(split(rest, sep).last() + y) =~= (a + split(
            rest,
            sep,
        ).drop_last()).push(split(rest, sep).last() + y));
    } else {
        assert forall|j: int| 0 <= j < s.len() implies s[j] != sep by {
            if j < x.len() {
                assert(s[j] == x[j]);
            } else {
                assert(s[j] == y[j - x.len()]);
            }
        }
        lemma_first_index_unique(s, sep, s.len() as int);
        assert(split(x, sep) =~= seq![x]);
        assert(split(s, sep) =~= seq![s]);
        assert(split(x, sep).drop_last().push(split(x, sep).last() + y) =~= seq![s]);
    }
}

proof fn lemma_millis(frac: Seq<char>)
    requires
        is_digits(frac),
    ensures
        part(millis_text(frac)) == Some(millis_of(frac) as u32),
        0 <= millis_of(frac) < 1000,
{
    let t = millis_text(frac);
    let all = frac + seq!['0', '0', '0'];
    assert forall|i: int| 0 <= i < 3 implies is_digit(#[trigger] t[i]) && t[i] as int - '0' as int
        == digit_at(frac, i) by {
        assert(t[i] == all[i]);
        if i < frac.len() {
            assert(is_digit(frac[i]));
        }
    }
    assert(t.len() == 3);
    assert(is_digits(t));
    assert(is_digit(t[0]) && is_digit(t[1]) && is_digit(t[2]));
    let t2 = t.drop_last();
    let t1 = t2.drop_last();
    assert(t2.len() == 2 && t2.last() == t[1]);
    assert(t1.len() == 1 && t1.last() == t[0]);
    assert(t1.drop_last().len() == 0);
    assert(digits_value(t1.drop_last()) == 0);
    assert(digits_value(t1) == t[0] as int - '0' as int);
    assert(digits_value(t2) == digits_value(t1) * 10 + (t[1] as int - '0' as int));
    assert(digits_value(t) == digits_value(t2) * 10 + (t[2] as int - '0' as int));
}

/// A fraction adds its milliseconds to a time stamp and changes nothing else: `.5` adds 500,
/// `.05` adds 50, and of `.1239` the first three digits count.
pub proof fn fractions_add_milliseconds(ts: Seq<char>, frac: Seq<char>)
    requires
        without_fraction(ts),
        stamp_of(ts) is Some,
        is_digits(frac),
    ensures
        ({
            let c = stamp_of(ts)->0;
            let d = Civil { ms: millis_of(frac) as u32, ..c };
            &&& c.ms == 0
            &&& stamp_of(ts + seq!['.'] + frac) == Some(d)
            &&& d.utc_ms() == c.utc_ms() + millis_of(frac)
            &&& d.exists_on_calendar() == c.exists_on_calendar()
        }),
{
    let tail = seq!['.'] + frac;
    let s = ts + tail;
    assert(ts + seq!['.'] + frac =~= s);
    assert forall|i: int| 0 <= i < tail.len() implies tail[i] != ':' && tail[i] != ' ' && !is_whitespace(
        tail[i],
    ) by {
        if i > 0 {
            assert(tail[i] == frac[i - 1]);
            assert(is_digit(frac[i - 1]));
        }
    }
    lemma_first_index(ts, ' ');
    let k = first_index(ts, ' ');
    lemma_trimmed_ends(ts);
    assert(s[0] == ts[0]);
    assert(s.last() == tail.last());
    lemma_trimmed(s);
    assert forall|j: int| 0 <= j < k implies s[j] != ' ' by {
        assert(s[j] == ts[j]);
    }
    assert(s[k] == ts[k]);
    lemma_first_index_unique(s, ' ', k);
    let date = ts.take(k);
    let time = ts.skip(k + 1);
    assert(s.take(k) =~= date);
    assert(s.skip(k + 1) =~= time + tail);
    lemma_split_extend(time, tail, ':');
    let t = split(time, ':');
    let u = split(time + tail, ':');
    assert(u[0] == t[0] && u[1] == t[1]);
    assert(u[2] == t[2] + tail);
    lemma_first_index(t[2], '.');
    let n = t[2].len() as int;
    assert forall|j: int| 0 <= j < n implies u[2][j] != '.' by {
        assert(u[2][j] == t[2][j]);
    }
    assert(u[2][n] == '.');
    lemma_first_index_unique(u[2], '.', n);
    assert(u[2].take(n) =~= t[2]);
    assert(u[2].skip(n + 1) =~= frac);
    lemma_millis(frac);
    assert(is_digit(seq!['0'][0]));
    assert(is_digits(seq!['0']));
    lemma_millis(seq!['0']);
}

proof fn lemma_trim_start_blank(a: Seq<char>, s: Seq<char>)
    requires
        forall|i: int| 0 <= i < a.len() ==> is_whitespace(a[i]),
    ensures
        trim_start_by(a + s, blank()) == trim_start_by(s, blank()),
    decreases a.len(),
{
    if a.len() == 0 {
        assert(a + s =~= s);
    } else {
        assert((a + s)[0] == a[0]);
        assert((a + s).skip(1) =~= a.skip(1) + s);
        lemma_trim_start_blank(a.skip(1), s);
    }
}

proof fn lemma_trim_end_blank(s: Seq<char>, b: Seq<char>)
    requires
        forall|i: int| 0 <= i < b.len() ==> is_whitespace(b[i]),
    ensures
        trim_end_by(s + b, blank()) == trim_end_by(s, blank()),
    decreases b.len(),
{
    if b.len() == 0 {
        assert(s + b =~= s);
    } else {
        assert((s + b).last() == b.last());
        assert((s + b).drop_last() =~= s + b.drop_last());
        lemma_trim_end_blank(s, b.drop_last());
    }
}

proof fn lemma_trim_start_then(s: Seq<char>, b: Seq<char>)
    requires
        forall|i: int| 0 <= i < b.len() ==> is_whitespace(b[i]),
    ensures
        trim_end_by(trim_start_by(s + b, blank()), blank()) == trim(s),
    decreases s.len(),
{
    if s.len() == 0 {
        assert(s + b =~= b + s);
        lemma_trim_start_blank(b, s);
    } else if is_whitespace(s[0]) {
        assert((s + b)[0] == s[0]);
        assert((s + b).skip(1) =~= s.skip(1) + b);
        lemma_trim_start_then(s.skip(1), b);
    } else {
        assert((s + b)[0] == s[0]);
        lemma_trim_end_blank(s, b);
    }
}

/// White space around a time stamp changes nothing.
pub proof fn space_around_a_stamp_is_ignored(a: Seq<char>, ts: Seq<char>, b: Seq<char>)
    requires
        forall|i: int| 0 <= i < a.len() ==> is_whitespace(a[i]),
        forall|i: int| 0 <= i < b.len() ==> is_whitespace(b[i]),
    ensures
        stamp_of(a + ts + b) == stamp_of(ts),
{
    assert(a + ts + b =~= a + (ts + b));
    lemma_trim_start_blank(a, ts + b);
    lemma_trim_start_then(ts, b);
}

} // verus!
