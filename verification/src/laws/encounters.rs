//! The combat log: what a line says, and what the server is told of it.
use vstd::prelude::*;
use vstd::string::*;

use crate::api::EncounterSignalResp;
use crate::clock::{Civil, placed};
use crate::combatlog::{
    EncounterEnd, EncounterReport, LineEvent, encounter_end, encounter_id, encounter_name,
    encounter_report, encounter_started, fields_after_name, fields_of, handle_encounter_end,
    instant_of, parse_log_ts, process_line, quoted, signal_answer, signal_failed, signal_models,
};
use crate::laws::lemma_texts;
use crate::laws::texts::{
    gap, is_blank, joined, lacks, lemma_gap, lemma_split, lemma_trims, lemma_trims_unique, trims_to,
};
use crate::number::{decimal, parse_i32, parse_i64, parse_u32};
use crate::text::{
    first_gap, first_index, lemma_first_index, lemma_first_index_unique, lemma_split_nonempty,
    slice_texts, split, split_at_char, split_at_gap, split_on, split_once_char, texts, trim, trimmed,
};

verus! {

/// Whether a line is a time stamp, two spaces and a body: the first two spaces next to each
/// other part the two.
pub open spec fn is_line(line: Seq<char>, ts: Seq<char>, body: Seq<char>) -> bool {
    &&& line == ts + seq![' ', ' '] + body
    &&& forall|j: int| 0 <= j < ts.len() ==> !#[trigger] gap(line, j)
}

/// Whether the body of a line names an event: what stands before the first comma, without the
/// white space around it.
pub open spec fn names_event(body: Seq<char>, event: Seq<char>) -> bool {
    exists|head: Seq<char>, rest: Seq<char>| #[trigger] names_in(body, event, head, rest)
}

/// Whether the body of a line names an event in its first field, behind which there is `rest`.
pub open spec fn names_in(
    body: Seq<char>,
    event: Seq<char>,
    head: Seq<char>,
    rest: Seq<char>,
) -> bool {
    &&& body == head + rest
    &&& lacks(head, ',')
    &&& rest.len() == 0 || rest[0] == ','
    &&& trims_to(head, event)
}

/// Whether a body has a name in quotes, with something before and behind it.
pub open spec fn has_name(body: Seq<char>, name: Seq<char>, after: Seq<char>) -> bool {
    exists|before: Seq<char>| #[trigger] name_in(body, before, name, after)
}

/// Whether a body has a name in its first pair of quotes.
pub open spec fn name_in(
    body: Seq<char>,
    before: Seq<char>,
    name: Seq<char>,
    after: Seq<char>,
) -> bool {
    &&& body == before.push('"') + name.push('"') + after
    &&& lacks(before, '"')
    &&& lacks(name, '"')
}

proof fn lemma_line(line: Seq<char>, ts: Seq<char>, body: Seq<char>)
    requires
        is_line(line, ts, body),
    ensures
        split_at_gap(line) == Some((ts, body)),
{
    lemma_gap(line);
    let n = ts.len() as int;
    let k = first_gap(line);
    assert(line[n] == ' ' && line[n + 1] == ' ');
    assert(gap(line, n));
    assert(k == n);
    assert(line.take(n) =~= ts);
    assert(line.skip(n + 2) =~= body);
}

proof fn lemma_event(body: Seq<char>, event: Seq<char>)
    requires
        names_event(body, event),
    ensures
        crate::combatlog::event_of(body) == event,
{
    let (head, rest) = choose|head: Seq<char>, rest: Seq<char>| #[trigger]
        names_in(body, event, head, rest);
    let n = head.len() as int;
    assert forall|j: int| 0 <= j < n implies body[j] != ',' by {
        assert(body[j] == head[j]);
    }
    if rest.len() > 0 {
        assert(body[n] == rest[0]);
    }
    lemma_first_index_unique(body, ',', n);
    lemma_split_nonempty(body, ',');
    assert(body.take(n) =~= head);
    lemma_trims(head);
    lemma_trims_unique(head, event, trim(head));
}

proof fn lemma_name(body: Seq<char>, name: Seq<char>, after: Seq<char>)
    requires
        has_name(body, name, after),
    ensures
        quoted(body) == Some((name, after)),
{
    let before = choose|before: Seq<char>| #[trigger] name_in(body, before, name, after);
    let n = before.len() as int;
    assert forall|j: int| 0 <= j < n implies body[j] != '"' by {
        assert(body[j] == before[j]);
    }
    assert(body[n] == '"');
    lemma_first_index_unique(body, '"', n);
    let rest = body.skip(n + 1);
    assert(rest =~= name.push('"') + after);
    let m = name.len() as int;
    assert forall|j: int| 0 <= j < m implies rest[j] != '"' by {
        assert(rest[j] == name[j]);
    }
    assert(rest[m] == '"');
    lemma_first_index_unique(rest, '"', m);
    assert(rest.take(m) =~= name);
    assert(rest.skip(m + 1) =~= after);
}

proof fn lemma_quoted(body: Seq<char>)
    ensures
        quoted(body) matches Some((name, after)) ==> has_name(body, name, after),
        quoted(body) is None <==> lacks_name(body),
{
    lemma_first_index(body, '"');
    let n = first_index(body, '"');
    if n < body.len() {
        let rest = body.skip(n + 1);
        lemma_first_index(rest, '"');
        let m = first_index(rest, '"');
        assert(forall|j: int| 0 <= j < n ==> body[j] != '"');
        if m < rest.len() {
            let before = body.take(n);
            let name = rest.take(m);
            let after = rest.skip(m + 1);
            assert(body =~= before.push('"') + name.push('"') + after);
            assert forall|j: int| 0 <= j < n implies #[trigger] before[j] != '"' by {
                assert(before[j] == body[j]);
            }
            assert forall|j: int| 0 <= j < m implies #[trigger] name[j] != '"' by {
                assert(name[j] == rest[j]);
            }
            assert(name_in(body, before, name, after));
            assert(rest[m] == body[n + 1 + m]);
            assert(body[n] == '"' && body[n + 1 + m] == '"');
        } else {
            assert forall|i: int, j: int| 0 <= i < j < body.len() implies !(#[trigger] body[i] == '"'
                && #[trigger] body[j] == '"') by {
                if i == n {
                    assert(rest[j - n - 1] == body[j]);
                } else if i > n {
                    assert(rest[i - n - 1] == body[i]);
                }
            }
        }
    } else {
        assert forall|i: int, j: int| 0 <= i < j < body.len() implies !(#[trigger] body[i] == '"'
            && #[trigger] body[j] == '"') by {}
    }
}

/// Whether a body has no two quotes.
pub open spec fn lacks_name(body: Seq<char>) -> bool {
    forall|i: int, j: int|
        0 <= i < j < body.len() ==> !(#[trigger] body[i] == '"' && #[trigger] body[j] == '"')
}

/// Outside a keystone run the end of every encounter calls for a report, with the time stamp
/// and the body of its line, whatever else the line says: a kill or a wipe.
pub proof fn every_end_is_reported(
    line: &str,
    ts: Seq<char>,
    body: Seq<char>,
    in_run: &mut bool,
    r: LineEvent,
)
    requires
        call_ensures(process_line, (line, in_run), r),
        is_line(line@, ts, body),
        names_event(body, "ENCOUNTER_END"@),
        !*old(in_run),
    ensures
        r matches LineEvent::Ended { ts: t, body: b } && t@ == ts && b@ == body,
        !*final(in_run),
{
    lemma_line(line@, ts, body);
    lemma_event(body, "ENCOUNTER_END"@);
    lemma_events_differ();
}

proof fn lemma_events_differ()
    ensures
        "ENCOUNTER_END"@ != "ENCOUNTER_START"@,
        "ENCOUNTER_END"@ != "CHALLENGE_MODE_START"@,
        "ENCOUNTER_END"@ != "CHALLENGE_MODE_END"@,
        "ENCOUNTER_START"@ != "CHALLENGE_MODE_START"@,
        "ENCOUNTER_START"@ != "CHALLENGE_MODE_END"@,
        "CHALLENGE_MODE_START"@ != "CHALLENGE_MODE_END"@,
{
    reveal_strlit("ENCOUNTER_END");
    reveal_strlit("ENCOUNTER_START");
    reveal_strlit("CHALLENGE_MODE_START");
    reveal_strlit("CHALLENGE_MODE_END");
    assert("ENCOUNTER_END"@.len() == 13 && "ENCOUNTER_START"@.len() == 15 && "CHALLENGE_MODE_START"@.len()
        == 20 && "CHALLENGE_MODE_END"@.len() == 18);
}

/// Outside a keystone run the start of every encounter with a name is told, under that name.
pub proof fn every_start_is_told(
    line: &str,
    ts: Seq<char>,
    body: Seq<char>,
    name: Seq<char>,
    after: Seq<char>,
    in_run: &mut bool,
    r: LineEvent,
)
    requires
        call_ensures(process_line, (line, in_run), r),
        is_line(line@, ts, body),
        names_event(body, "ENCOUNTER_START"@),
        !*old(in_run),
    ensures
        has_name(body, name, after) ==> (r matches LineEvent::Started { name: n } && n@ == name),
        lacks_name(body) ==> r is Nothing,
        !*final(in_run),
{
    lemma_line(line@, ts, body);
    lemma_event(body, "ENCOUNTER_START"@);
    lemma_events_differ();
    if has_name(body, name, after) {
        lemma_name(body, name, after);
    }
    lemma_quoted(body);
}

/// A keystone run begins with its start and ends with its end, and neither calls for
/// anything.
pub proof fn keystone_runs_begin_and_end(
    line: &str,
    ts: Seq<char>,
    body: Seq<char>,
    in_run: &mut bool,
    r: LineEvent,
)
    requires
        call_ensures(process_line, (line, in_run), r),
        is_line(line@, ts, body),
    ensures
        names_event(body, "CHALLENGE_MODE_START"@) ==> r is Nothing && *final(in_run),
        names_event(body, "CHALLENGE_MODE_END"@) ==> r is Nothing && !*final(in_run),
{
    lemma_line(line@, ts, body);
    lemma_events_differ();
    if names_event(body, "CHALLENGE_MODE_START"@) {
        lemma_event(body, "CHALLENGE_MODE_START"@);
    }
    if names_event(body, "CHALLENGE_MODE_END"@) {
        lemma_event(body, "CHALLENGE_MODE_END"@);
    }
}

/// Every other line calls for nothing and changes nothing: one without two spaces, one that
/// names another event, and one inside a keystone run that does not end it.
pub proof fn every_other_line_is_passed_over(
    line: &str,
    ts: Seq<char>,
    body: Seq<char>,
    event: Seq<char>,
    in_run: &mut bool,
    r: LineEvent,
)
    requires
        call_ensures(process_line, (line, in_run), r),
    ensures
        (forall|j: int| !#[trigger] gap(line@, j)) ==> r is Nothing && *final(in_run) == *old(in_run),
        is_line(line@, ts, body) && names_event(body, event) && event != "CHALLENGE_MODE_START"@ && event
            != "CHALLENGE_MODE_END"@ && (*old(in_run) || (event != "ENCOUNTER_START"@ && event
            != "ENCOUNTER_END"@)) ==> r is Nothing && *final(in_run) == *old(in_run),
{
    if forall|j: int| !#[trigger] gap(line@, j) {
        lemma_gap(line@);
        assert(!gap(line@, first_gap(line@)));
    }
    if is_line(line@, ts, body) && names_event(body, event) {
        lemma_line(line@, ts, body);
        lemma_event(body, event);
    }
}

/// The name of an encounter is what stands in the first pair of quotes.
pub proof fn names_stand_in_quotes(body: &str, name: Seq<char>, after: Seq<char>, r: Option<String>)
    requires
        call_ensures(encounter_name, (body,), r),
    ensures
        has_name(body@, name, after) ==> r is Some && r->0@ == name,
        lacks_name(body@) ==> r is None,
{
    if has_name(body@, name, after) {
        lemma_name(body@, name, after);
    }
    lemma_quoted(body@);
}

/// The fields behind the name are what stands between the commas, each without the white
/// space around it; one comma parts the name from the first, and an empty field keeps its
/// place.
pub proof fn fields_keep_their_places(
    body: &str,
    name: Seq<char>,
    after: Seq<char>,
    r: Vec<&str>,
) -> (raw: Seq<Seq<char>>)
    requires
        call_ensures(fields_after_name, (body,), r),
    ensures
        lacks_name(body@) ==> r@.len() == 0,
        has_name(body@, name, after) ==> {
            &&& raw.len() == r@.len()
            &&& joined(raw, ',') == (if after.len() > 0 && after[0] == ',' {
                after.skip(1)
            } else {
                after
            })
            &&& forall|i: int|
                0 <= i < raw.len() ==> lacks(#[trigger] raw[i], ',') && trims_to(raw[i], r@[i]@)
        },
{
    assert(slice_texts(r@).len() == r@.len());
    lemma_quoted(body@);
    if has_name(body@, name, after) {
        lemma_name(body@, name, after);
        let rest = crate::combatlog::behind_comma(after);
        let raw = split(rest, ',');
        lemma_split(rest, ',');
        assert forall|i: int| 0 <= i < raw.len() implies lacks(#[trigger] raw[i], ',') && trims_to(
            raw[i],
            r@[i]@,
        ) by {
            assert(slice_texts(r@)[i] == r@[i]@);
            assert(fields_of(body@)[i] == trim(raw[i]));
            lemma_trims(raw[i]);
        }
        raw
    } else {
        Seq::empty()
    }
}

/// The id of an encounter is the number in the second field of its line.
pub proof fn the_id_is_the_second_field(
    body: &str,
    head: Seq<char>,
    second: Seq<char>,
    rest: Seq<char>,
    field: &str,
    number: Option<i64>,
    r: Option<i64>,
)
    requires
        call_ensures(encounter_id, (body,), r),
        call_ensures(parse_i64, (field,), number),
    ensures
        lacks(body@, ',') ==> r is None,
        body@ == head.push(',') + second + rest && lacks(head, ',') && lacks(second, ',') && (rest.len()
            == 0 || rest[0] == ',') && trims_to(second, field@) ==> r == number,
{
    if lacks(body@, ',') {
        lemma_first_index_unique(body@, ',', body@.len() as int);
        assert(split(body@, ',') =~= seq![body@]);
    }
    if body@ == head.push(',') + second + rest && lacks(head, ',') && lacks(second, ',') && (rest.len() == 0
        || rest[0] == ',') && trims_to(second, field@) {
        let n = head.len() as int;
        assert forall|j: int| 0 <= j < n implies body@[j] != ',' by {
            assert(body@[j] == head[j]);
        }
        assert(body@[n] == ',');
        lemma_first_index_unique(body@, ',', n);
        let tail = body@.skip(n + 1);
        assert(tail =~= second + rest);
        let m = second.len() as int;
        assert forall|j: int| 0 <= j < m implies tail[j] != ',' by {
            assert(tail[j] == second[j]);
        }
        if rest.len() > 0 {
            assert(tail[m] == rest[0]);
        }
        lemma_first_index_unique(tail, ',', m);
        lemma_split_nonempty(tail, ',');
        assert(tail.take(m) =~= second);
        assert(split(body@, ',')[1] == split(tail, ',')[0]);
        lemma_trims(second);
        lemma_trims_unique(second, field@, trim(second));
    }
}

/// The end of an encounter says what its line says: the id, without which it says nothing; the
/// name, or the id written out; the difficulty in the first field behind the name, the kill in
/// the third, and the fight time in the fourth.
pub proof fn an_end_says_what_its_line_says(
    body: &str,
    r: Option<EncounterEnd>,
    id: Option<i64>,
    name: Option<String>,
    fields: Vec<&str>,
    difficulty: Option<i64>,
    time: Option<i64>,
)
    requires
        call_ensures(encounter_end, (body,), r),
        call_ensures(encounter_id, (body,), id),
        call_ensures(encounter_name, (body,), name),
        call_ensures(fields_after_name, (body,), fields),
        fields@.len() > 0 ==> call_ensures(parse_i64, (fields@[0],), difficulty),
        fields@.len() > 3 ==> call_ensures(parse_i64, (fields@[3],), time),
    ensures
        r is Some <==> id is Some,
        r matches Some(e) ==> {
            &&& e.encounter_id == id->0
            &&& name is Some ==> e.name@ == name->0@
            &&& name is None ==> e.name@ == decimal(id->0 as int)
            &&& e.difficulty_id == (if fields@.len() > 0 && difficulty is Some {
                difficulty->0
            } else {
                0
            })
            &&& e.success <==> fields@.len() > 2 && fields@[2]@ == "1"@
            &&& e.fight_time_ms == (if fields@.len() > 3 && time is Some {
                time->0
            } else {
                0
            })
        },
{
    assert(slice_texts(fields@).len() == fields@.len());
    if fields@.len() > 0 {
        assert(slice_texts(fields@)[0] == fields@[0]@);
    }
    if fields@.len() > 2 {
        assert(slice_texts(fields@)[2] == fields@[2]@);
    }
    if fields@.len() > 3 {
        assert(slice_texts(fields@)[3] == fields@[3]@);
    }
}

/// Whether a report tells every guild of an encounter: each is told what its line says, kill
/// or wipe, when it ended, and that it began its length before that, where both are known.
pub open spec fn tells_all(
    rep: EncounterReport,
    e: EncounterEnd,
    guilds: Seq<String>,
    end: i64,
) -> bool {
    &&& rep.name@ == e.name@
    &&& rep.message@ == "[Combatlog] "@ + "encounter ended: "@ + e.name@ + " ("@ + (if e.success {
        "kill"@
    } else {
        "wipe"@
    }) + ") — notifying server"@
    &&& rep.signals@.len() == guilds.len()
    &&& forall|i: int|
        0 <= i < guilds.len() ==> {
            let s = #[trigger] rep.signals@[i];
            &&& s.guild_id@ == guilds[i]@
            &&& s.encounter_id == e.encounter_id
            &&& s.encounter_name@ == e.name@
            &&& s.difficulty_id == e.difficulty_id
            &&& s.success == e.success
            &&& s.end_time == end
            &&& s.start_time == (if end > 0 && e.fight_time_ms > 0 {
                end - e.fight_time_ms
            } else {
                end as int
            })
        }
}

proof fn lemma_tells_all(
    rep: EncounterReport,
    body: &str,
    guilds: Vec<String>,
    e: EncounterEnd,
    end: i64,
)
    requires
        call_ensures(encounter_end, (body,), Some(e)),
        crate::combatlog::reports(Some(rep), body@, texts(guilds@), end as int),
    ensures
        tells_all(rep, e, guilds@, end),
{
    lemma_texts(guilds@);
    assert(signal_models(rep.signals@).len() == rep.signals@.len());
    assert forall|i: int| 0 <= i < guilds@.len() implies {
        let s = #[trigger] rep.signals@[i];
        &&& s.guild_id@ == guilds@[i]@
        &&& s.encounter_id == e.encounter_id
        &&& s.encounter_name@ == e.name@
        &&& s.difficulty_id == e.difficulty_id
        &&& s.success == e.success
        &&& s.end_time == end
        &&& s.start_time == (if end > 0 && e.fight_time_ms > 0 {
            end - e.fight_time_ms
        } else {
            end as int
        })
    } by {
        assert(signal_models(rep.signals@)[i] == rep.signals@[i]@);
        assert(texts(guilds@)[i] == guilds@[i]@);
    }
}

/// The end of an encounter is reported exactly if its line carries an id and a guild has a live
/// session, and then to every such guild; an unknown instant counts as zero.
pub proof fn every_live_guild_is_told_all(
    end_time: Option<i64>,
    body: &str,
    guilds: Vec<String>,
    r: Option<EncounterReport>,
    e: Option<EncounterEnd>,
)
    requires
        call_ensures(encounter_report, (end_time, body, &guilds), r),
        call_ensures(encounter_end, (body,), e),
    ensures
        r is Some <==> e is Some && guilds@.len() > 0,
        r matches Some(rep) ==> tells_all(
            rep,
            e->0,
            guilds@,
            match end_time {
                Some(t) => t,
                None => 0,
            },
        ),
{
    lemma_texts(guilds@);
    if r is Some && e is Some {
        lemma_tells_all(
            r->0,
            body,
            guilds,
            e->0,
            match end_time {
                Some(t) => t,
                None => 0,
            },
        );
    }
}

/// The end of an encounter in the log is reported exactly if its line carries an id and a guild
/// has a live session, and then to every such guild, with the instant of its time stamp.
pub proof fn every_end_in_the_log_is_told(
    ts: &str,
    body: &str,
    guilds: Vec<String>,
    r: Option<EncounterReport>,
    c: Option<Civil>,
    e: Option<EncounterEnd>,
)
    requires
        call_ensures(handle_encounter_end, (ts, body, &guilds), r),
        call_ensures(parse_log_ts, (ts,), c),
        call_ensures(encounter_end, (body,), e),
    ensures
        r is Some <==> e is Some && guilds@.len() > 0,
        r matches Some(rep) ==> exists|at: Option<i64>| #[trigger] told_at(rep, e->0, guilds@, c, at),
{
    lemma_texts(guilds@);
    if r is Some && e is Some {
        let at = choose|at: Option<i64>|
            instant_of(ts@, at) && crate::combatlog::reports(
                r,
                body@,
                texts(guilds@),
                match at {
                    Some(t) => t as int,
                    None => 0,
                },
            );
        lemma_tells_all(
            r->0,
            body,
            guilds,
            e->0,
            match at {
                Some(t) => t,
                None => 0,
            },
        );
        assert(told_at(r->0, e->0, guilds@, c, at));
    }
}

/// Whether a report tells every guild of an encounter that ended when the machine's clock showed
/// the time of its stamp; at zero where the stamp cannot be read or the clock does not know.
pub open spec fn told_at(
    rep: EncounterReport,
    e: EncounterEnd,
    guilds: Seq<String>,
    stamp: Option<Civil>,
    at: Option<i64>,
) -> bool {
    &&& stamp is None ==> at is None
    &&& stamp is Some ==> placed(stamp->0, at)
    &&& at is Some ==> at->0 - stamp->0.utc_ms() < 24 * 3600 * 1000 && stamp->0.utc_ms() - at->0 < 24 * 3600
        * 1000 && (at->0 - stamp->0.utc_ms()) % 1000 == 0
    &&& tells_all(
        rep,
        e,
        guilds,
        match at {
            Some(t) => t,
            None => 0,
        },
    )
}

/// What the user reads of an encounter is in its own words.
pub proof fn encounters_are_told_in_words(
    name: &str,
    resp: EncounterSignalResp,
    e: &str,
    started: String,
    answer: String,
    failed: String,
)
    requires
        call_ensures(encounter_started, (name,), started),
        call_ensures(signal_answer, (name, &resp), answer),
        call_ensures(signal_failed, (e,), failed),
    ensures
        started@ == "[Combatlog] "@ + "encounter started: "@ + name@,
        answer@ == "[Combatlog] "@ + (if !resp.is_tracked {
            name@ + " not a tracked raid encounter — ignored"@
        } else if resp.polled {
            "server polling WCL for the new pull"@
        } else {
            "duplicate signal — server already polling"@
        }),
        failed@ == "[Combatlog] "@ + "couldn't notify the server: "@ + e@,
{
    assert("[Combatlog] "@ + (name@ + " not a tracked raid encounter — ignored"@) =~= "[Combatlog] "@ + name@
        + " not a tracked raid encounter — ignored"@);
}

/// A time stamp is read field by field: month, day and year between slashes, and behind a space
/// hour, minute and second between colons. Each is the number that is written there.
pub proof fn stamps_are_read_field_by_field(
    ts: &str,
    fields: (&str, &str, &str, &str, &str, &str),
    month: Option<u32>,
    day: Option<u32>,
    year: Option<i32>,
    hour: Option<u32>,
    minute: Option<u32>,
    second: Option<u32>,
    r: Option<Civil>,
)
    requires
        call_ensures(parse_log_ts, (ts,), r),
        ts@.len() > 0 && !is_blank(ts@[0]) && !is_blank(ts@.last()),
        ({
            let (a, b, c, d, e, f) = fields;
            &&& ts@ == (a@.push('/') + b@.push('/') + c@).push(' ') + (d@.push(':') + e@.push(':') + f@)
            &&& lacks(a@, '/') && lacks(b@, '/') && lacks(c@, '/')
            &&& lacks(a@, ' ') && lacks(b@, ' ') && lacks(c@, ' ')
            &&& lacks(d@, ':') && lacks(e@, ':') && lacks(f@, ':') && lacks(f@, '.')
            &&& call_ensures(parse_u32, (a,), month)
            &&& call_ensures(parse_u32, (b,), day)
            &&& call_ensures(parse_i32, (c,), year)
            &&& call_ensures(parse_u32, (d,), hour)
            &&& call_ensures(parse_u32, (e,), minute)
            &&& call_ensures(parse_u32, (f,), second)
        }),
    ensures
        r is Some <==> month is Some && day is Some && year is Some && hour is Some && minute is Some
            && second is Some,
        r matches Some(c) ==> c.month == month->0 && c.day == day->0 && c.year == year->0 && c.hour
            == hour->0 && c.minute == minute->0 && c.second == second->0 && c.ms == 0,
{
    let (a, b, c, d, e, f) = fields;
    lemma_stamp(ts@, a@, b@, c@, d@, e@, f@);
    assert(crate::combatlog::part(a@) == month);
    assert(crate::combatlog::part(b@) == day);
    assert(crate::combatlog::year_part(c@) == year);
    assert(crate::combatlog::part(d@) == hour);
    assert(crate::combatlog::part(e@) == minute);
    assert(crate::combatlog::part(f@) == second);
}

/// Whether three characters are the first of a fraction, filled up with zeros.
pub open spec fn is_thousandths(s: Seq<char>, frac: Seq<char>) -> bool {
    s.len() == 3 && forall|k: int|
        0 <= k < 3 ==> #[trigger] s[k] == (if k < frac.len() {
            frac[k]
        } else {
            '0'
        })
}

/// A time stamp is taken apart at its first space, the date at its slashes, the time at its
/// colons and the seconds at their first point; three of each are needed, what follows is
/// passed over, and each field is the number that is written there, the thousandths those of
/// the first three digits behind the point.
pub proof fn stamps_are_taken_apart(
    ts: &str,
    r: Option<Civil>,
    bare: &str,
    halves: Option<(&str, &str)>,
    d: Vec<&str>,
    t: Vec<&str>,
    seconds: Option<(&str, &str)>,
    whole: &str,
    thousandths: &str,
    day_fields: (Option<u32>, Option<u32>, Option<i32>),
    time_fields: (Option<u32>, Option<u32>, Option<u32>, Option<u32>),
)
    requires
        call_ensures(parse_log_ts, (ts,), r),
        call_ensures(trimmed, (ts,), bare),
        call_ensures(split_once_char, (bare, ' '), halves),
        halves matches Some((date, time)) ==> call_ensures(split_on, (date, '/'), d) && call_ensures(
            split_on,
            (time, ':'),
            t,
        ),
        halves is Some && d@.len() >= 3 && t@.len() >= 3 ==> {
            &&& call_ensures(split_once_char, (t@[2], '.'), seconds)
            &&& seconds is None ==> whole@ == t@[2]@ && is_thousandths(thousandths@, Seq::empty())
            &&& seconds matches Some((a, b)) ==> whole@ == a@ && is_thousandths(thousandths@, b@)
            &&& call_ensures(parse_u32, (d@[0],), day_fields.0)
            &&& call_ensures(parse_u32, (d@[1],), day_fields.1)
            &&& call_ensures(parse_i32, (d@[2],), day_fields.2)
            &&& call_ensures(parse_u32, (t@[0],), time_fields.0)
            &&& call_ensures(parse_u32, (t@[1],), time_fields.1)
            &&& call_ensures(parse_u32, (whole,), time_fields.2)
            &&& call_ensures(parse_u32, (thousandths,), time_fields.3)
        },
    ensures
        r is Some <==> halves is Some && d@.len() >= 3 && t@.len() >= 3 && day_fields.0 is Some
            && day_fields.1 is Some && day_fields.2 is Some && time_fields.0 is Some
            && time_fields.1 is Some && time_fields.2 is Some && time_fields.3 is Some,
        r matches Some(c) ==> {
            &&& c.month == day_fields.0->0
            &&& c.day == day_fields.1->0
            &&& c.year == day_fields.2->0
            &&& c.hour == time_fields.0->0
            &&& c.minute == time_fields.1->0
            &&& c.second == time_fields.2->0
            &&& c.ms == time_fields.3->0
        },
{
    if halves is Some {
        assert(slice_texts(d@).len() == d@.len());
        assert(slice_texts(t@).len() == t@.len());
        if d@.len() >= 3 && t@.len() >= 3 {
            assert(slice_texts(d@)[0] == d@[0]@);
            assert(slice_texts(d@)[1] == d@[1]@);
            assert(slice_texts(d@)[2] == d@[2]@);
            assert(slice_texts(t@)[0] == t@[0]@);
            assert(slice_texts(t@)[1] == t@[1]@);
            assert(slice_texts(t@)[2] == t@[2]@);
            let frac = match seconds {
                Some((a, b)) => b@,
                None => seq!['0'],
            };
            assert(thousandths@ =~= crate::combatlog::millis_text(frac));
        }
    }
}

proof fn lemma_stamp(
    ts: Seq<char>,
    a: Seq<char>,
    b: Seq<char>,
    c: Seq<char>,
    d: Seq<char>,
    e: Seq<char>,
    f: Seq<char>,
)
    requires
        ts.len() > 0 && !is_blank(ts[0]) && !is_blank(ts.last()),
        ts == (a.push('/') + b.push('/') + c).push(' ') + (d.push(':') + e.push(':') + f),
        lacks(a, '/') && lacks(b, '/') && lacks(c, '/'),
        lacks(a, ' ') && lacks(b, ' ') && lacks(c, ' '),
        lacks(d, ':') && lacks(e, ':') && lacks(f, ':') && lacks(f, '.'),
    ensures
        crate::combatlog::stamp_of(ts) == (match (
            crate::combatlog::part(a),
            crate::combatlog::part(b),
            crate::combatlog::year_part(c),
            crate::combatlog::part(d),
            crate::combatlog::part(e),
            crate::combatlog::part(f),
        ) {
            (Some(month), Some(day), Some(year), Some(hour), Some(minute), Some(second)) => Some(
                Civil { year, month, day, hour, minute, second, ms: 0 },
            ),
            _ => None,
        }),
{
    let date = a.push('/') + b.push('/') + c;
    let time = d.push(':') + e.push(':') + f;
    lemma_untrimmed(ts);
    assert(split_at_char(ts, ' ') == Some((date, time))) by {
        lemma_lacks(a, b, c, '/', ' ');
        lemma_at(date, time, ' ');
    }
    assert(split(date, '/') == seq![a, b, c]) by {
        lemma_three(a, b, c, '/');
    }
    assert(split(time, ':') == seq![d, e, f]) by {
        lemma_three(d, e, f, ':');
    }
    assert(split_at_char(f, '.') is None) by {
        lemma_first_index_unique(f, '.', f.len() as int);
    }
    lemma_stamp_parts(ts, date, time, a, b, c, d, e, f);
}

proof fn lemma_untrimmed(s: Seq<char>)
    requires
        s.len() > 0 && !is_blank(s[0]) && !is_blank(s.last()),
    ensures
        trim(s) == s,
{
    assert(s.subrange(0, s.len() as int) =~= s);
    assert(trims_to(s, s));
    lemma_trims(s);
    lemma_trims_unique(s, s, trim(s));
}

proof fn lemma_stamp_parts(
    ts: Seq<char>,
    date: Seq<char>,
    time: Seq<char>,
    a: Seq<char>,
    b: Seq<char>,
    c: Seq<char>,
    d: Seq<char>,
    e: Seq<char>,
    f: Seq<char>,
)
    requires
        trim(ts) == ts,
        split_at_char(ts, ' ') == Some((date, time)),
        split(date, '/') == seq![a, b, c],
        split(time, ':') == seq![d, e, f],
        split_at_char(f, '.') is None,
    ensures
        crate::combatlog::stamp_of(ts) == (match (
            crate::combatlog::part(a),
            crate::combatlog::part(b),
            crate::combatlog::year_part(c),
            crate::combatlog::part(d),
            crate::combatlog::part(e),
            crate::combatlog::part(f),
        ) {
            (Some(month), Some(day), Some(year), Some(hour), Some(minute), Some(second)) => Some(
                Civil { year, month, day, hour, minute, second, ms: 0 },
            ),
            _ => None,
        }),
{
    lemma_no_millis();
    let x = seq![a, b, c];
    let y = seq![d, e, f];
    assert(x.len() == 3 && x[0] == a && x[1] == b && x[2] == c);
    assert(y.len() == 3 && y[0] == d && y[1] == e && y[2] == f);
}

proof fn lemma_no_millis()
    ensures
        crate::combatlog::part(crate::combatlog::millis_text(seq!['0'])) == Some(0u32),
{
    let z = seq!['0', '0', '0'];
    assert(crate::combatlog::millis_text(seq!['0']) =~= z);
    assert(z.drop_last() =~= seq!['0', '0']);
    assert(z.drop_last().drop_last() =~= seq!['0']);
    assert(z.drop_last().drop_last().drop_last() =~= Seq::<char>::empty());
    reveal_with_fuel(crate::number::digits_value, 4);
    assert(crate::number::digits_value(z) == 0);
    assert(crate::number::is_digits(z));
}

proof fn lemma_lacks(a: Seq<char>, b: Seq<char>, c: Seq<char>, sep: char, x: char)
    requires
        lacks(a, x),
        lacks(b, x),
        lacks(c, x),
        sep != x,
    ensures
        lacks(a.push(sep) + b.push(sep) + c, x),
{
    let s = a.push(sep) + b.push(sep) + c;
    assert forall|j: int| 0 <= j < s.len() implies #[trigger] s[j] != x by {
        let i = j - a.len() - 1;
        let k = i - b.len() - 1;
        if j < a.len() {
            assert(s[j] == a[j]);
        } else if j == a.len() {
            assert(s[j] == sep);
        } else if i < b.len() {
            assert(s[j] == b[i]);
        } else if i == b.len() {
            assert(s[j] == sep);
        } else {
            assert(s[j] == c[k]);
        }
    }
}

proof fn lemma_at(a: Seq<char>, b: Seq<char>, c: char)
    requires
        lacks(a, c),
    ensures
        split_at_char(a.push(c) + b, c) == Some((a, b)),
{
    let s = a.push(c) + b;
    let n = a.len() as int;
    assert forall|j: int| 0 <= j < n implies s[j] != c by {
        assert(s[j] == a[j]);
    }
    assert(s[n] == c);
    lemma_first_index_unique(s, c, n);
    assert(s.take(n) =~= a);
    assert(s.skip(n + 1) =~= b);
}

proof fn lemma_three(a: Seq<char>, b: Seq<char>, c: Seq<char>, sep: char)
    requires
        lacks(a, sep),
        lacks(b, sep),
        lacks(c, sep),
    ensures
        split(a.push(sep) + b.push(sep) + c, sep) == seq![a, b, c],
{
    let s = a.push(sep) + b.push(sep) + c;
    let n = a.len() as int;
    assert forall|j: int| 0 <= j < n implies s[j] != sep by {
        assert(s[j] == a[j]);
    }
    assert(s[n] == sep);
    lemma_first_index_unique(s, sep, n);
    let t = s.skip(n + 1);
    assert(s.take(n) =~= a);
    assert(t =~= b.push(sep) + c);
    let m = b.len() as int;
    assert forall|j: int| 0 <= j < m implies t[j] != sep by {
        assert(t[j] == b[j]);
    }
    assert(t[m] == sep);
    lemma_first_index_unique(t, sep, m);
    assert(t.take(m) =~= b);
    assert(t.skip(m + 1) =~= c);
    lemma_first_index_unique(c, sep, c.len() as int);
    assert(split(c, sep) =~= seq![c]);
    assert(split(t, sep) =~= seq![b, c]);
    assert(split(s, sep) =~= seq![a, b, c]);
}

} // verus!
