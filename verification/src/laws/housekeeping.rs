//! The activity log, the folders, the settings, the session and the updates.
use vstd::prelude::*;
use vstd::string::*;

use crate::api::WhoAmI;
use crate::applog::{LogEntry, Note, load, log_text, push, read_pruned, recent_of};
use crate::clock::{Civil, days_before_month, epoch_day, leap_days_before, local_instant, placed};
use crate::combatlog::{parse_log_ts, parse_log_ts_ms};
use crate::detect::{
    Platform, first_folder, json_member, named_folder, recording_folder, scan_wow_logs_folder,
    wow_install_candidates, wow_logs_candidates, wow_logs_folder, wr_config_value,
};
use crate::laws::rescan::{lemma_owner, no_own_entry, own_entry};
use crate::laws::texts::{lemma_trims, lemma_trims_unique, trims_to};
use crate::laws::{lemma_texts, reads, same_opt};
use crate::metadata::{ArchonPlayer, RecorderMeta, sidecar_for};
use crate::session::{
    FolderEvent, Forgotten, InstallStep, KeychainReply, Looked, UpdateStep, check_for_update,
    clear_token, current_session, get_token, install_update, is_change, may_install, need_folder,
    need_token, update_failed_note, updating_note, watch_failed_note,
};
use crate::settings::Settings;
use crate::text::{opt_text, texts, trim};
use crate::util::{mtime_ms, now_ms};

verus! {

/// Whether `kept` is the end of `all`, and as much of it as `n` allows.
pub open spec fn is_end_of(all: Seq<LogEntry>, kept: Seq<LogEntry>, n: int) -> bool {
    &&& kept.len() <= n
    &&& kept.len() < n ==> kept.len() == all.len()
    &&& kept.len() <= all.len()
    &&& forall|k: int| 0 <= k < kept.len() ==> #[trigger] kept[k] == all[all.len() - kept.len() + k]
}

/// The log in memory holds the last thousand entries, the newest last, and begins with those
/// that were read.
pub proof fn the_last_entries_are_held(
    log: &mut Vec<LogEntry>,
    entry: LogEntry,
    entries: &Vec<LogEntry>,
    r: Vec<LogEntry>,
)
    requires
        call_ensures(push, (log, entry), ()),
        call_ensures(load, (entries,), r),
    ensures
        is_end_of(old(log)@.push(entry), final(log)@, 1000),
        is_end_of(entries@, r@, 1000),
{
}

/// An entry more in the file is kept behind the others if it is not older than fourteen days,
/// and takes the place of the first of ten thousand; an older one makes no difference, and an
/// empty file holds nothing.
pub proof fn entries_are_kept_for_a_fortnight(
    entries: &Vec<LogEntry>,
    more: &Vec<LogEntry>,
    e: LogEntry,
    now: i64,
    r: (Vec<LogEntry>, bool),
    s: (Vec<LogEntry>, bool),
)
    requires
        call_ensures(read_pruned, (entries, now), r),
        call_ensures(read_pruned, (more, now), s),
        more@ == entries@.push(e),
    ensures
        entries@.len() == 0 ==> r.0@.len() == 0,
        now - e.ts > 14 * 24 * 3600 * 1000 ==> s.0@ == r.0@,
        now - e.ts <= 14 * 24 * 3600 * 1000 && r.0@.len() < 10_000 ==> s.0@ == r.0@.push(e),
        now - e.ts <= 14 * 24 * 3600 * 1000 && r.0@.len() >= 10_000 ==> s.0@ == r.0@.skip(1).push(e),
        r.0@.len() <= 10_000,
{
    assert(more@.drop_last() =~= entries@);
    let a = recent_of(entries@, now as int);
    let b = recent_of(more@, now as int);
    if now - e.ts <= 14 * 24 * 3600 * 1000 {
        assert(b == a.push(e));
        if a.len() >= 10_000 {
            assert(s.0@ =~= r.0@.skip(1).push(e));
        }
    }
}

/// The file is written anew exactly if something in it was dropped.
pub proof fn the_file_is_rewritten_when_entries_are_dropped(
    entries: &Vec<LogEntry>,
    now: i64,
    r: (Vec<LogEntry>, bool),
)
    requires
        call_ensures(read_pruned, (entries, now), r),
    ensures
        r.1 <==> r.0@.len() < entries@.len(),
        !r.1 ==> r.0@ == entries@,
{
    lemma_kept(entries@, now as int);
    let a = recent_of(entries@, now as int);
    if r.0@.len() == entries@.len() {
        assert(a == entries@);
    }
}

proof fn lemma_kept(s: Seq<LogEntry>, now: int)
    ensures
        recent_of(s, now).len() <= s.len(),
        recent_of(s, now).len() == s.len() ==> recent_of(s, now) == s,
    decreases s.len(),
{
    if s.len() > 0 {
        lemma_kept(s.drop_last(), now);
        assert(s.drop_last().push(s.last()) =~= s);
    }
}

/// Each line is written with a line feed behind it, in order.
pub proof fn lines_are_written_in_order(
    lines: &Vec<String>,
    more: &Vec<String>,
    l: String,
    r: String,
    s: String,
)
    requires
        call_ensures(log_text, (lines,), r),
        call_ensures(log_text, (more,), s),
        more@ == lines@.push(l),
    ensures
        lines@.len() == 0 ==> r@.len() == 0,
        s@ == r@ + l@ + seq!['\n'],
{
    assert(texts(more@).drop_last() =~= texts(lines@));
    assert(texts(more@).last() == l@);
    reveal_strlit("\n");
    assert("\n"@ =~= seq!['\n']);
    lemma_texts(lines@);
}

/// The configured folder is the value without the white space around it, if anything is left.
pub proof fn configured_folders_are_trimmed(value: Option<String>, t: Seq<char>, r: Option<String>)
    requires
        call_ensures(named_folder, (value,), r),
    ensures
        value is None ==> r is None,
        value is Some && trims_to(value->0@, t) ==> {
            &&& r is Some <==> t.len() > 0
            &&& r is Some ==> r->0@ == t
        },
{
    if value is Some && trims_to(value->0@, t) {
        lemma_trims(value->0@);
        lemma_trims_unique(value->0@, t, trim(value->0@));
    }
}

/// A folder is configured by the member of the file that is asked for, and by no other.
pub proof fn folders_are_configured_by_member(
    text: Option<&str>,
    key: &str,
    r: Option<String>,
    value: Option<String>,
    q: Option<String>,
)
    requires
        call_ensures(wr_config_value, (text, key), r),
        call_ensures(named_folder, (value,), q),
        text is Some ==> opt_text(value) == json_member(text->0@, key@),
    ensures
        text is None ==> r is None,
        text is Some ==> same_opt(r, q),
{
}

/// The letters of the drives that are looked on.
pub open spec fn drive(d: int) -> Seq<char> {
    if d == 0 {
        "C"@
    } else if d == 1 {
        "D"@
    } else if d == 2 {
        "E"@
    } else if d == 3 {
        "F"@
    } else {
        "G"@
    }
}

/// The usual places on a drive.
pub open spec fn place(p: int) -> Seq<char> {
    if p == 0 {
        ":\\Program Files (x86)\\World of Warcraft"@
    } else if p == 1 {
        ":\\Program Files\\World of Warcraft"@
    } else if p == 2 {
        ":\\World of Warcraft"@
    } else {
        ":\\Games\\World of Warcraft"@
    }
}

/// On Windows every drive is looked on, the first first, and on each every usual place; on a
/// Mac there is one place, and elsewhere none. The logs are in the same folder of each.
pub proof fn every_usual_place_is_a_candidate(platform: Platform, r: Vec<String>, logs: Vec<String>)
    requires
        call_ensures(wow_install_candidates, (platform,), r),
        call_ensures(wow_logs_candidates, (platform,), logs),
    ensures
        platform == Platform::Windows ==> r@.len() == 20 && forall|d: int, p: int|
            0 <= d < 5 && 0 <= p < 4 ==> (#[trigger] r@[4 * d + p])@ == drive(d) + place(p),
        platform == Platform::Mac ==> r@.len() == 1 && r@[0]@ == "/Applications/World of Warcraft"@,
        platform == Platform::Other ==> r@.len() == 0,
        logs@.len() == r@.len(),
        platform == Platform::Windows ==> forall|i: int|
            0 <= i < r@.len() ==> (#[trigger] logs@[i])@ == r@[i]@ + "\\_retail_\\Logs"@,
        platform == Platform::Mac ==> forall|i: int|
            0 <= i < r@.len() ==> (#[trigger] logs@[i])@ == r@[i]@ + "/_retail_/Logs"@,
{
    lemma_texts(r@);
    lemma_texts(logs@);
    assert(r@.len() == crate::detect::install_places(platform).len());
    if platform == Platform::Windows {
        assert forall|d: int, p: int| 0 <= d < 5 && 0 <= p < 4 implies (#[trigger] r@[4 * d + p])@ == drive(d)
            + place(p) by {
            let i = 4 * d + p;
            assert(i / 4 == d && i % 4 == p);
            assert(texts(r@)[i] == r@[i]@);
            assert(crate::detect::install_places(platform)[i] == crate::detect::drives()[d]
                + crate::detect::places()[p]);
        }
    }
    assert forall|i: int| 0 <= i < r@.len() implies (#[trigger] logs@[i])@ == crate::detect::logs_inside(
        r@[i]@,
        platform,
    ) by {
        assert(texts(logs@)[i] == logs@[i]@);
        assert(texts(r@)[i] == r@[i]@);
    }
}

proof fn lemma_folder(paths: Seq<Seq<char>>, is_dir: Seq<bool>, i: int)
    requires
        paths.len() == is_dir.len(),
    ensures
        0 <= i < paths.len() && is_dir[i] && (forall|j: int| 0 <= j < i ==> !is_dir[j]) ==> first_folder(
            paths,
            is_dir,
        ) == Some(paths[i]),
        (forall|j: int| 0 <= j < is_dir.len() ==> !is_dir[j]) ==> first_folder(paths, is_dir) is None,
    decreases paths.len(),
{
    if paths.len() > 0 && !is_dir[0] {
        let a = paths.skip(1);
        let b = is_dir.skip(1);
        assert forall|j: int| 0 <= j < b.len() implies #[trigger] b[j] == is_dir[j + 1] by {}
        lemma_folder(a, b, i - 1);
        if 0 < i < paths.len() && is_dir[i] {
            assert(b[i - 1] == is_dir[i]);
            assert(a[i - 1] == paths[i]);
        }
    }
}

/// The first of the candidates that is a folder is taken, and none where none is.
pub proof fn the_first_folder_is_taken(
    candidates: &Vec<String>,
    is_dir: &Vec<bool>,
    i: int,
    r: Option<String>,
)
    requires
        call_ensures(scan_wow_logs_folder, (candidates, is_dir), r),
        candidates@.len() == is_dir@.len(),
    ensures
        0 <= i < candidates@.len() && is_dir@[i] && (forall|j: int| 0 <= j < i ==> !is_dir@[j]) ==> reads(
            r,
            candidates@[i]@,
        ),
        (forall|j: int| 0 <= j < is_dir@.len() ==> !is_dir@[j]) ==> r is None,
{
    lemma_texts(candidates@);
    lemma_folder(texts(candidates@), is_dir@, i);
}

/// A configured folder counts where it is one. Without it the logs are looked for in the usual
/// places, and the recordings nowhere.
pub proof fn configured_folders_come_first(
    configured: Option<String>,
    is_dir: bool,
    scanned: Option<String>,
    logs: Option<String>,
    recordings: Option<String>,
)
    requires
        call_ensures(wow_logs_folder, (configured, is_dir, scanned), logs),
        call_ensures(recording_folder, (configured, is_dir), recordings),
    ensures
        configured is Some && is_dir ==> same_opt(logs, configured) && same_opt(recordings, configured),
        configured is None || !is_dir ==> same_opt(logs, scanned) && recordings is None,
{
}

/// What is beside a recording under its own name comes before what is said of the folder.
pub proof fn a_recordings_own_sidecar_comes_first(
    own: String,
    own_is_file: bool,
    folders: Option<String>,
    folders_is_file: bool,
    r: Option<String>,
)
    requires
        call_ensures(sidecar_for, (own, own_is_file, folders, folders_is_file), r),
    ensures
        own_is_file ==> reads(r, own@),
        !own_is_file && folders_is_file ==> same_opt(r, folders),
        !own_is_file && !folders_is_file ==> r is None,
{
}

/// The owner of a recording is the first player with the recording's own number; there is none
/// without a number, without a list, and where nobody has the number.
pub proof fn the_owner_is_the_first_with_the_number(
    meta: RecorderMeta,
    i: int,
    r: Option<&ArchonPlayer>,
)
    requires
        call_ensures(RecorderMeta::archon_owner, (&meta,), r),
    ensures
        own_entry(meta, i) ==> r is Some && *r->0 == meta.players->0@[i],
        no_own_entry(meta) ==> r is None,
{
    if meta.actor_id is Some && meta.players is Some {
        lemma_owner(meta.players->0@, meta.actor_id->0, i);
    }
}

/// A setting is set alone.
pub proof fn a_setting_is_set_alone(
    s: &mut Settings,
    folder: String,
    t: &mut Settings,
    ids: Option<Vec<String>>,
    fresh: Settings,
)
    requires
        call_ensures(Settings::set_folder, (s, folder), ()),
        call_ensures(Settings::set_selected_guilds, (t, ids), ()),
        call_ensures(Settings::default, (), fresh),
    ensures
        reads(final(s).watch_folder, folder@),
        final(s).selected_guild_ids == old(s).selected_guild_ids,
        final(s).logs_folder == old(s).logs_folder,
        final(s).livelog_watching == old(s).livelog_watching,
        final(s).auto_upload == old(s).auto_upload,
        final(t).selected_guild_ids == ids,
        final(t).watch_folder == old(t).watch_folder,
        final(t).logs_folder == old(t).logs_folder,
        final(t).livelog_watching == old(t).livelog_watching,
        final(t).auto_upload == old(t).auto_upload,
        fresh.watch_folder is None && fresh.selected_guild_ids is None && fresh.logs_folder is None,
        fresh.livelog_watching is None && fresh.auto_upload is None,
{
}

/// Nobody is signed in without a token, and with one that the server rejects; whom it names is
/// signed in; and every other failure is passed on.
pub proof fn a_session_outlasts_a_failure(
    reply: Option<Result<WhoAmI, String>>,
    r: Result<Option<WhoAmI>, String>,
)
    requires
        call_ensures(current_session, (reply,), r),
    ensures
        reply is None ==> r is Ok && r->Ok_0 is None,
        (reply matches Some(o) && o is Ok) ==> r is Ok && r->Ok_0 is Some && r->Ok_0->0 == reply->0->Ok_0,
        (reply matches Some(Err(e)) && e@ == "unauthorized"@) ==> r is Ok && r->Ok_0 is None,
        (reply matches Some(Err(e)) && e@ != "unauthorized"@) ==> r is Err && r->Err_0@ == reply->0->Err_0@,
{
}

/// A command goes on with the folder and the token that there are, and says what is missing.
pub proof fn commands_need_a_folder_and_a_token(
    folder: Option<String>,
    f: Result<String, String>,
    token: Option<String>,
    t: Result<String, String>,
)
    requires
        call_ensures(need_folder, (folder,), f),
        call_ensures(need_token, (token,), t),
    ensures
        f is Ok <==> folder is Some,
        f is Ok ==> f->Ok_0@ == folder->0@,
        f is Err ==> f->Err_0@ == "No folder selected"@,
        t is Ok <==> token is Some,
        t is Ok ==> t->Ok_0@ == token->0@,
        t is Err ==> t->Err_0@ == "Not signed in"@,
{
}

/// The token is what the keychain gives. A keychain that fails gives none and says why, one
/// that holds none says nothing; and a token that was not there is as good as forgotten.
pub proof fn the_keychain_is_believed(
    reply: KeychainReply,
    r: (Option<String>, Option<String>),
    forgotten: Forgotten,
    f: Result<(), String>,
)
    requires
        call_ensures(get_token, (reply,), r),
        call_ensures(clear_token, (forgotten,), f),
    ensures
        reply matches KeychainReply::Token(t) ==> reads(r.0, t@) && r.1 is None,
        reply is NoEntry ==> r.0 is None && r.1 is None,
        reply matches KeychainReply::Unavailable(e) ==> r.0 is None && reads(
            r.1,
            "keychain unavailable: "@ + e@,
        ),
        reply matches KeychainReply::Failed(e) ==> r.0 is None && reads(
            r.1,
            "keychain read failed: "@ + e@,
        ),
        f is Ok <==> !(forgotten is Failed),
        forgotten matches Forgotten::Failed(e) ==> f->Err_0@ == e@,
{
}

/// Nothing is installed while an upload is in flight, nor unless it is asked for.
pub proof fn uploads_are_not_cut_off_by_updates(
    auto_install: bool,
    development: bool,
    uploading: bool,
    u: UpdateStep,
    may: Result<(), String>,
    looked: Looked,
    r: Result<InstallStep, String>,
)
    requires
        call_ensures(check_for_update, (auto_install, uploading), u),
        call_ensures(may_install, (development, uploading), may),
        call_ensures(install_update, (development, uploading, looked), r),
    ensures
        u == UpdateStep::Install <==> auto_install && !uploading,
        may is Ok <==> !development && !uploading,
        development ==> may->Err_0@ == "Updates are only available in release builds."@,
        !development && uploading ==> may->Err_0@
            == "An upload is in progress — try again once it finishes."@,
        may is Err ==> r is Err && r->Err_0@ == may->Err_0@,
        may is Ok && looked is NotYet ==> r is Ok && r->Ok_0 is Look,
        may is Ok && looked is Failed ==> r is Err && r->Err_0@ == looked->Failed_0@,
        may is Ok && looked is Nothing ==> r is Err && r->Err_0@ == "No update available."@,
        may is Ok && looked is Found ==> (r matches Ok(InstallStep::Install(n)) && n.level@
            == "info"@ && n.message@ == "Updating to v"@ + looked->Found_0@ + "…"@),
{
}

/// What is noted of updates and of the watched folder says what happened, to which version or
/// why.
pub proof fn notes_say_what_happened(v: &str, a: Note, e: &str, b: Note, c: Note)
    requires
        call_ensures(updating_note, (v,), a),
        call_ensures(update_failed_note, (e,), b),
        call_ensures(watch_failed_note, (e,), c),
    ensures
        a.level@ == "info"@ && a.message@ == "Updating to v"@ + v@ + "…"@,
        b.level@ == "warn"@ && b.message@ == "Update check failed: "@ + e@,
        c.level@ == "warn"@ && c.message@ == "[Video] Folder watch error: "@ + e@,
{
}

/// The window is told of everything that changes what is in the folder, and of nothing else.
pub proof fn changes_in_the_folder_are_told(e: FolderEvent, r: bool)
    requires
        call_ensures(is_change, (e,), r),
    ensures
        r <==> !(e is Accessed || e is Unknown),
{
}

/// A time is taken as it is read, and as the beginning where it cannot be read.
pub proof fn times_are_taken_as_read(since: Option<u128>, now: u128, changed: u128)
    requires
        call_ensures(now_ms, (since,), now),
        call_ensures(mtime_ms, (since,), changed),
    ensures
        since is Some ==> now == since->0 && changed == since->0,
        since is None ==> now == 0 && changed == 0,
{
}

/// How many days there are in a month.
pub open spec fn length_of(year: int, month: int) -> int {
    if month == 2 {
        if year % 400 == 0 || (year % 4 == 0 && year % 100 != 0) {
            29
        } else {
            28
        }
    } else if month == 4 || month == 6 || month == 9 || month == 11 {
        30
    } else {
        31
    }
}

/// Whether a date is on the day after another.
pub open spec fn is_next_day(a: Civil, b: Civil) -> bool {
    if a.day < length_of(a.year as int, a.month as int) {
        b.year == a.year && b.month == a.month && b.day == a.day + 1
    } else if a.month < 12 {
        b.year == a.year && b.month == a.month + 1 && b.day == 1
    } else {
        b.year == a.year + 1 && b.month == 1 && b.day == 1
    }
}

#[verifier::spinoff_prover]
proof fn lemma_year(y: int)
    ensures
        days_before_month(y, 12) + 31 == (if length_of(y, 2) == 29 {
            366int
        } else {
            365
        }),
{
    reveal_with_fuel(days_before_month, 13);
}

#[verifier::spinoff_prover]
proof fn lemma_leap(y: int)
    ensures
        leap_days_before(y + 1) == leap_days_before(y) + (if length_of(y, 2) == 29 {
            1int
        } else {
            0
        }),
{
}

/// The same year: only the days in it count.
proof fn lemma_in_year(y: int, m: int, d: int, n: int, e: int)
    ensures
        epoch_day(y, n, e) - epoch_day(y, m, d) == days_before_month(y, n) + e - days_before_month(y, m) - d,
{
}

/// The next year: the days of this one count too.
#[verifier::spinoff_prover]
proof fn lemma_across_years(y: int)
    ensures
        epoch_day(y + 1, 1, 1) == epoch_day(y, 12, 31) + 1,
{
    lemma_year(y);
    lemma_leap(y);
    let a = leap_days_before(y);
    let b = leap_days_before(y + 1);
    let c = days_before_month(y, 12);
    assert(epoch_day(y + 1, 1, 1) == 365 * (y + 1 - 1970) + b - leap_days_before(1970));
    assert(epoch_day(y, 12, 31) == 365 * (y - 1970) + a - leap_days_before(1970) + c + 31 - 1);
}

#[verifier::spinoff_prover]
proof fn lemma_next_day(a: Civil, b: Civil)
    requires
        1 <= a.month <= 12,
        1 <= a.day <= length_of(a.year as int, a.month as int),
        is_next_day(a, b),
    ensures
        epoch_day(b.year as int, b.month as int, b.day as int) == epoch_day(
            a.year as int,
            a.month as int,
            a.day as int,
        ) + 1,
{
    let y = a.year as int;
    let m = a.month as int;
    let d = a.day as int;
    if d < length_of(y, m) {
        lemma_in_year(y, m, d, m, d + 1);
    } else if m < 12 {
        lemma_in_year(y, m, d, m + 1, 1);
        assert(days_before_month(y, m + 1) == days_before_month(y, m) + length_of(y, m));
    } else {
        lemma_across_years(y);
    }
}

/// From one day to the next there are twenty-four hours, whatever the month and the year, and
/// an hour, a minute and a second are worth what they are; 1970 begins at zero.
pub proof fn days_follow_each_other(a: Civil, b: Civil)
    requires
        1 <= a.month <= 12,
        1 <= a.day <= length_of(a.year as int, a.month as int),
        is_next_day(a, b),
    ensures
        b.utc_ms() - a.utc_ms() == 24 * 3600 * 1000 + (b.hour - a.hour) * 3600 * 1000 + (b.minute - a.minute)
            * 60 * 1000 + (b.second - a.second) * 1000 + b.ms - a.ms,
        a.year == 1970 && a.month == 1 && a.day == 1 && a.hour == 0 && a.minute == 0 && a.second == 0
            ==> a.utc_ms() == a.ms,
{
    lemma_next_day(a, b);
    lemma_ms(a);
    lemma_ms(b);
    if a.year == 1970 && a.month == 1 && a.day == 1 {
        assert(epoch_day(1970, 1, 1) == 0);
    }
}

proof fn lemma_ms(a: Civil)
    ensures
        a.utc_ms() == epoch_day(a.year as int, a.month as int, a.day as int) * 86_400_000 + a.hour * 3_600_000
            + a.minute * 60_000 + a.second * 1000 + a.ms,
{
}

/// A time stamp has an instant only where it is one, of a date that there is. The instant is
/// what the machine's clock says, less than a day from where the clocks of the zero meridian
/// show the same.
pub proof fn stamps_are_placed_near_their_reading(ts: &str, c: Option<Civil>, r: Option<i64>)
    requires
        call_ensures(parse_log_ts, (ts,), c),
        call_ensures(parse_log_ts_ms, (ts,), r),
    ensures
        r is Some ==> c is Some,
        c is Some ==> placed(c->0, r),
        r is Some ==> 1 <= c->0.month <= 12 && 1 <= c->0.day <= length_of(
            c->0.year as int,
            c->0.month as int,
        ) && c->0.hour < 24 && c->0.minute < 60 && c->0.second < 60,
        r is Some ==> r->0 - c->0.utc_ms() < 24 * 3600 * 1000 && c->0.utc_ms() - r->0 < 24 * 3600 * 1000,
        r is Some ==> (r->0 - c->0.utc_ms()) % 1000 == 0,
{
}

/// The clock is asked for the reading of a date that there is.
pub proof fn the_clock_knows_no_other_dates(c: &Civil, r: Option<i64>)
    requires
        call_ensures(local_instant, (c,), r),
    ensures
        placed(*c, r),
        r is Some ==> 1 <= c.month <= 12 && 1 <= c.day <= length_of(c.year as int, c.month as int) && c.hour < 24
            && c.minute < 60 && c.second < 60,
        r is Some ==> r->0 - c.utc_ms() < 24 * 3600 * 1000 && c.utc_ms() - r->0 < 24 * 3600 * 1000,
        r is Some ==> (r->0 - c.utc_ms()) % 1000 == 0,
{
}

} // verus!
