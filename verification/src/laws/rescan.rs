//! Scans of the watched folder: which files are recordings and finished, what becomes of
//! them on the list, and what is said of it.
use vstd::prelude::*;
use vstd::string::*;

use crate::applog::{Note, note_models};
use crate::laws::{
    first_with, lemma_same, lemma_texts, lemma_videos, none_with, reads, same_file, same_list,
    same_match, same_opt, same_video,
};
use crate::merge::{is_news, match_warning, merge_scan, notes_of, scan_notes, status_note};
use crate::metadata::{ArchonPlayer, RecorderMeta, player_with};
use crate::number::decimal;
use crate::scan::{
    FileEntry, Findings, FirstLook, MAX_DEPTH, Sidecar, Stage, VideoItem, await_finish, cached_upload,
    first_look, found_recording, is_mp4, last_uploaded, take_in, video_models,
};
use crate::text::texts;
use crate::upload::{lemma_position, lemma_position_unique, position};
use crate::util::is_settled;

verus! {

proof fn lemma_known(prev: Seq<VideoItem>, id: Seq<char>, j: int)
    ensures
        first_with(prev, id, j) ==> crate::merge::known(video_models(prev), id) == Some(prev[j]@),
        none_with(prev, id) ==> crate::merge::known(video_models(prev), id) is None,
{
    lemma_videos(prev);
    let m = video_models(prev);
    lemma_position(m, id);
    if first_with(prev, id, j) {
        assert forall|k: int| 0 <= k < j implies m[k].id != id by {
            assert(prev[k].id@ != id);
        }
        lemma_position_unique(m, id, j);
    }
    if none_with(prev, id) {
        if let Some(i) = position(m, id) {
            assert(prev[i].id@ == id);
        }
    }
}

/// A scan lists what it found, each in its place. What was known of a recording before
/// counts only where that was an upload in flight, which stays as it was, or a finished one,
/// which stays too unless the server says otherwise: its pull is there without it, or every
/// request succeeded and there is no such pull.
pub proof fn what_is_found_is_listed(
    fresh: Vec<VideoItem>,
    prev: Vec<VideoItem>,
    match_ok: bool,
    r: Vec<VideoItem>,
    i: int,
    j: int,
)
    requires
        call_ensures(merge_scan, (fresh, &prev, match_ok), r),
    ensures
        r@.len() == fresh@.len(),
        0 <= i < fresh@.len() && none_with(prev@, fresh@[i].id@) ==> same_video(r@[i], fresh@[i]),
        0 <= i < fresh@.len() && first_with(prev@, fresh@[i].id@, j) ==> {
            let was = prev@[j];
            let found = fresh@[i];
            &&& was.status@ != "uploading"@ && was.status@ != "uploaded"@ ==> same_video(r@[i], found)
            &&& was.status@ == "uploading"@ ==> same_video(r@[i], was)
            &&& was.status@ == "uploaded"@ && found.status@ == "matched"@ ==> same_video(r@[i], found)
            &&& was.status@ == "uploaded"@ && found.status@ == "unmatched"@ && match_ok ==> same_video(
                r@[i],
                found,
            )
            &&& was.status@ == "uploaded"@ && found.status@ != "matched"@ && (!match_ok
                || found.status@ != "unmatched"@) ==> same_video(r@[i], was)
        },
{
    lemma_videos(fresh@);
    lemma_videos(prev@);
    lemma_videos(r@);
    reveal_strlit("uploaded");
    reveal_strlit("uploading");
    assert("uploaded"@.len() != "uploading"@.len());
    if 0 <= i < fresh@.len() {
        let id = fresh@[i].id@;
        lemma_known(prev@, id, j);
        assert(video_models(r@)[i] == r@[i]@);
        if r@[i]@ == fresh@[i]@ {
            lemma_same(r@[i], fresh@[i]);
        }
        if first_with(prev@, id, j) && r@[i]@ == prev@[j]@ {
            lemma_same(r@[i], prev@[j]);
        }
    }
}

/// Whether a recording is new to a list, or has another status than there.
pub open spec fn news(v: VideoItem, prev: Seq<VideoItem>) -> bool {
    none_with(prev, v.id@) || exists|j: int| #[trigger]
        first_with(prev, v.id@, j) && prev[j].status@ != v.status@
}

/// A reason in brackets, where there is one.
pub open spec fn in_brackets(reason: Option<String>) -> Seq<char> {
    match reason {
        Some(r) => " ("@ + r@ + ")"@,
        None => Seq::empty(),
    }
}

/// Whether a note is what is to be said of a recording.
pub open spec fn tells(n: Note, v: VideoItem) -> bool {
    ||| v.status@ == "matched"@ && n.level@ == "info"@ && v.matched is Some && n.message@ == "Matched "@
        + v.filename@ + " → "@ + v.matched->0.boss_name@ + " #"@ + decimal(
        v.matched->0.pull_number as int,
    ) + " ("@ + v.matched->0.guild_name@ + ")"@
    ||| v.status@ == "uploaded"@ && n.level@ == "info"@ && n.message@ == "Already on server: "@
        + v.filename@
    ||| v.status@ == "unmatched"@ && n.level@ == "info"@ && n.message@ == "No match: "@ + v.filename@
        + in_brackets(v.reason)
    ||| v.status@ == "error"@ && n.level@ == "error"@ && n.message@ == v.filename@ + in_brackets(
        v.reason,
    )
}

/// Whether anything is said of a recording when it is news.
pub open spec fn worth_telling(v: VideoItem) -> bool {
    ||| v.status@ == "matched"@ && v.matched is Some
    ||| v.status@ == "uploaded"@
    ||| v.status@ == "unmatched"@
    ||| v.status@ == "error"@
}

proof fn lemma_news(v: VideoItem, prev: Seq<VideoItem>)
    ensures
        is_news(v@, video_models(prev)) == news(v, prev),
{
    lemma_videos(prev);
    let m = video_models(prev);
    lemma_position(m, v.id@);
    match position(m, v.id@) {
        Some(j) => {
            assert forall|k: int| 0 <= k < j implies (#[trigger] prev[k]).id@ != v.id@ by {
                assert(m[k].id != v.id@);
            }
            assert(first_with(prev, v.id@, j));
            if news(v, prev) {
                if none_with(prev, v.id@) {
                    assert(prev[j].id@ == v.id@);
                } else {
                    let k = choose|k: int| #[trigger]
                        first_with(prev, v.id@, k) && prev[k].status@ != v.status@;
                    if k < j {
                        assert(m[k].id != v.id@);
                    }
                    if j < k {
                        assert(prev[j].id@ != v.id@);
                    }
                    assert(k == j);
                }
            }
        },
        None => {
            assert forall|k: int| 0 <= k < prev.len() implies (#[trigger] prev[k]).id@ != v.id@ by {
                assert(m[k].id != v.id@);
            }
        },
    }
}

proof fn lemma_statuses_differ()
    ensures
        "matched"@ != "uploaded"@,
        "matched"@ != "unmatched"@,
        "matched"@ != "error"@,
        "uploaded"@ != "unmatched"@,
        "uploaded"@ != "error"@,
        "unmatched"@ != "error"@,
{
    reveal_strlit("matched");
    reveal_strlit("uploaded");
    reveal_strlit("unmatched");
    reveal_strlit("error");
    assert("matched"@.len() == 7 && "uploaded"@.len() == 8 && "unmatched"@.len() == 9
        && "error"@.len() == 5);
}

proof fn lemma_tells(n: Note, v: VideoItem)
    ensures
        status_note(v@) is Some <==> worth_telling(v),
        status_note(v@) == Some(n@) <==> tells(n, v),
{
    lemma_statuses_differ();
}

proof fn lemma_notes(list: Seq<VideoItem>, prev: Seq<VideoItem>, notes: Seq<Note>) -> (of: Seq<int>)
    requires
        note_models(notes) == notes_of(video_models(list), video_models(prev)),
    ensures
        of.len() == notes.len(),
        forall|n: int|
            0 <= n < of.len() ==> 0 <= #[trigger] of[n] < list.len() && news(list[of[n]], prev)
                && tells(notes[n], list[of[n]]),
        forall|m: int, n: int| 0 <= m < n < of.len() ==> #[trigger] of[m] < #[trigger] of[n],
        forall|i: int|
            0 <= i < list.len() && worth_telling(#[trigger] list[i]) && news(list[i], prev)
                ==> of.contains(i),
    decreases list.len(),
{
    lemma_videos(list);
    assert(note_models(notes).len() == notes.len());
    if list.len() == 0 {
        Seq::empty()
    } else {
        let t = list.drop_last();
        let v = list.last();
        assert(video_models(list).drop_last() =~= video_models(t));
        assert(video_models(list).last() == v@);
        lemma_news(v, prev);
        lemma_tells(notes.last(), v);
        let said = status_note(v@) is Some && is_news(v@, video_models(prev));
        if said {
            let before = notes.drop_last();
            assert(note_models(before) =~= note_models(notes).drop_last());
            assert(note_models(notes).last() == notes.last()@);
            assert(note_models(notes).drop_last() =~= notes_of(video_models(t), video_models(prev)));
            let rest = lemma_notes(t, prev, before);
            let of = rest.push(list.len() - 1);
            assert forall|n: int| 0 <= n < of.len() implies 0 <= #[trigger] of[n] < list.len() && news(
                list[of[n]],
                prev,
            ) && tells(notes[n], list[of[n]]) by {
                if n < rest.len() {
                    assert(of[n] == rest[n]);
                    assert(t[rest[n]] == list[rest[n]]);
                    assert(before[n] == notes[n]);
                }
            }
            assert forall|m: int, n: int| 0 <= m < n < of.len() implies #[trigger] of[m] < #[trigger] of[n] by {
                assert(of[m] == rest[m]);
                if n < rest.len() {
                    assert(of[n] == rest[n]);
                }
            }
            assert forall|i: int|
                0 <= i < list.len() && worth_telling(#[trigger] list[i]) && news(list[i], prev) implies of.contains(
            i) by {
                if i < t.len() {
                    assert(t[i] == list[i]);
                    let n = choose|n: int| 0 <= n < rest.len() && rest[n] == i;
                    assert(of[n] == i);
                } else {
                    assert(of[of.len() - 1] == i);
                }
            }
            of
        } else {
            let of = lemma_notes(t, prev, notes);
            assert forall|n: int| 0 <= n < of.len() implies 0 <= #[trigger] of[n] < list.len() && news(
                list[of[n]],
                prev,
            ) && tells(notes[n], list[of[n]]) by {
                assert(t[of[n]] == list[of[n]]);
            }
            assert forall|i: int|
                0 <= i < list.len() && worth_telling(#[trigger] list[i]) && news(list[i], prev) implies of.contains(
            i) by {
                if i < t.len() {
                    assert(t[i] == list[i]);
                }
            }
            of
        }
    }
}

/// Every recording that is new or has changed its status to matched, uploaded, unmatched or
/// error is noted once, in the order of the list and in its own words; nothing else is.
pub proof fn news_is_noted(
    list: Vec<VideoItem>,
    prev: Vec<VideoItem>,
    r: Vec<Note>,
) -> (of: Seq<int>)
    requires
        call_ensures(scan_notes, (&list, &prev), r),
    ensures
        of.len() == r@.len(),
        forall|n: int|
            0 <= n < of.len() ==> 0 <= #[trigger] of[n] < list@.len() && news(list@[of[n]], prev@)
                && tells(r@[n], list@[of[n]]),
        forall|m: int, n: int| 0 <= m < n < of.len() ==> #[trigger] of[m] < #[trigger] of[n],
        forall|i: int|
            0 <= i < list@.len() && worth_telling(#[trigger] list@[i]) && news(list@[i], prev@)
                ==> of.contains(i),
{
    lemma_notes(list@, prev@, r@)
}

/// The user is warned that matching fails exactly if a scan could not rely on the server, a
/// recording says that its request failed, and the last warning is more than ten minutes
/// old.
pub proof fn failing_matches_are_warned_of(
    list: Vec<VideoItem>,
    match_ok: bool,
    now: u128,
    last: &mut u128,
    r: Option<Note>,
)
    requires
        call_ensures(match_warning, (&list, match_ok, now, last), r),
    ensures
        ({
            let failed = exists|i: int|
                0 <= i < list@.len() && (#[trigger] list@[i]).reason is Some
                    && list@[i].reason->0@.len() >= 20 && list@[i].reason->0@.take(20)
                    == "Match request failed"@;
            if !match_ok && failed && now - *old(last) > 600_000 {
                r is Some && r->0.level@ == "warn"@ && *final(last) == now && r->0.message@
                    == "A guild's match request failed — new recordings may not auto-upload until it recovers (see the videos list)."@
            } else {
                r is None && *final(last) == *old(last)
            }
        }),
{
    lemma_videos(list@);
    reveal_strlit("Match request failed");
    assert("Match request failed"@.len() == 20);
    let m = video_models(list@);
    if exists|i: int| 0 <= i < m.len() && crate::merge::match_failed(#[trigger] m[i]) {
        let i = choose|i: int| 0 <= i < m.len() && crate::merge::match_failed(#[trigger] m[i]);
        assert(list@[i].reason->0@.take(20) == "Match request failed"@);
    }
    assert forall|i: int|
        0 <= i < list@.len() && (#[trigger] list@[i]).reason is Some && list@[i].reason->0@.len() >= 20
            && list@[i].reason->0@.take(20) == "Match request failed"@ implies crate::merge::match_failed(
    m[i]) by {
        assert(m[i] == list@[i]@);
    }
}

/// A file is finished once it has not changed for five seconds.
pub proof fn files_settle(now: u128, mtime: u128, r: bool)
    requires
        call_ensures(is_settled, (now, mtime), r),
    ensures
        r <==> now - mtime >= 5000,
{
}

/// Recordings are looked for in the watched folder and in those inside it, eight levels of
/// folders in all.
pub proof fn recordings_are_looked_for_deep()
    ensures
        MAX_DEPTH == 8,
{
}

/// A recording is first seen as pending, without a match and without a player; its path is
/// its id.
pub proof fn recordings_begin_pending(path: &str, filename: &str, size: u64, r: VideoItem)
    requires
        call_ensures(found_recording, (path, filename, size), r),
    ensures
        r.id@ == path@,
        r.path@ == path@,
        r.filename@ == filename@,
        r.size_bytes == size,
        r.status@ == "pending"@,
        r.player_name is None && r.player_realm is None,
        r.reason is None && r.matched is None && r.uploaded_bytes is None,
{
}

/// Whether two entries say the same but for the reason.
pub open spec fn same_but_reason(a: VideoItem, b: VideoItem) -> bool {
    &&& same_file(a, b)
    &&& a.status@ == b.status@
    &&& same_match(a.matched, b.matched)
    &&& a.uploaded_bytes == b.uploaded_bytes
}

/// A recording is read on only once its sidecar is there and it has not changed for five
/// seconds; until then it is listed with the reason, and nothing else of it changes.
pub proof fn unfinished_recordings_wait(
    item: VideoItem,
    has_sidecar: bool,
    now: u128,
    mtime: u128,
    r: Stage,
)
    requires
        call_ensures(await_finish, (item, has_sidecar, now, mtime), r),
    ensures
        has_sidecar && now - mtime >= 5000 ==> (r matches Stage::Ready(v) && same_video(v, item)),
        !has_sidecar ==> (r matches Stage::Listed(v) && same_but_reason(v, item) && reads(
            v.reason,
            "Waiting for the recording to finish…"@,
        )),
        has_sidecar && now - mtime < 5000 ==> (r matches Stage::Listed(v) && same_but_reason(v, item)
            && reads(v.reason, "Finishing up…"@)),
{
}

/// Only an extension that reads mp4, in whatever case, is that of a recording.
pub proof fn recordings_are_mp4(ext: Option<&str>, r: bool)
    requires
        call_ensures(is_mp4, (ext,), r),
    ensures
        r <==> (ext is Some && ext->0@.len() == 3 && (ext->0@[0] == 'm' || ext->0@[0] == 'M') && (
        ext->0@[1] == 'p' || ext->0@[1] == 'P') && ext->0@[2] == '4'),
{
    if ext is Some {
        let e = ext->0@;
        let low = e.map_values(|c: char| crate::scan::ascii_lower(c));
        if r {
            assert(low.len() == e.len());
            assert(low[0] == 'm' && low[1] == 'p' && low[2] == '4');
        }
        if e.len() == 3 && (e[0] == 'm' || e[0] == 'M') && (e[1] == 'p' || e[1] == 'P') && e[2] == '4' {
            assert(low =~= seq!['m', 'p', '4']);
        }
    }
}

/// A file that the list shows as uploaded is taken over unread, from the last such entry,
/// unless the scan is to verify the uploads.
pub proof fn uploads_are_taken_over(
    prev: Vec<VideoItem>,
    path: &str,
    verify: bool,
    r: Option<VideoItem>,
    i: int,
)
    requires
        call_ensures(cached_upload, (&prev, path, verify), r),
    ensures
        verify ==> r is None,
        !verify && (forall|j: int|
            0 <= j < prev@.len() ==> !((#[trigger] prev@[j]).status@ == "uploaded"@ && prev@[j].path@
                == path@)) ==> r is None,
        !verify && 0 <= i < prev@.len() && prev@[i].status@ == "uploaded"@ && prev@[i].path@ == path@ && (
        forall|j: int|
            i < j < prev@.len() ==> !((#[trigger] prev@[j]).status@ == "uploaded"@ && prev@[j].path@
                == path@)) ==> r is Some && same_video(r->0, prev@[i]),
{
    lemma_last_uploaded(prev@, path@, i);
    if r is Some && 0 <= i < prev@.len() && r->0@ == prev@[i]@ {
        lemma_same(r->0, prev@[i]);
    }
}

proof fn lemma_last_uploaded(prev: Seq<VideoItem>, path: Seq<char>, i: int)
    ensures
        (forall|j: int|
            0 <= j < prev.len() ==> !((#[trigger] prev[j]).status@ == "uploaded"@ && prev[j].path@ == path))
            ==> last_uploaded(video_models(prev), path) is None,
        0 <= i < prev.len() && prev[i].status@ == "uploaded"@ && prev[i].path@ == path && (forall|j: int|
            i < j < prev.len() ==> !((#[trigger] prev[j]).status@ == "uploaded"@ && prev[j].path@ == path))
            ==> last_uploaded(video_models(prev), path) == Some(prev[i]@),
    decreases prev.len(),
{
    lemma_videos(prev);
    if prev.len() > 0 {
        let t = prev.drop_last();
        assert(video_models(prev).drop_last() =~= video_models(t));
        assert(video_models(prev).last() == prev.last()@);
        assert(prev.last() == prev[prev.len() - 1]);
        lemma_last_uploaded(t, path, i);
        assert forall|j: int| 0 <= j < t.len() implies #[trigger] t[j] == prev[j] by {}
    }
}

/// A file is ignored exactly if it is no file or no mp4; one that is taken over or not
/// finished is listed; every other is read, as it is first seen.
pub proof fn files_are_sorted_out(
    f: FileEntry,
    prev: Vec<VideoItem>,
    verify: bool,
    now: u128,
    r: FirstLook,
    mp4: bool,
)
    requires
        call_ensures(first_look, (&f, &prev, verify, now), r),
        mp4 <==> (f.extension is Some && f.extension->0@.len() == 3 && (f.extension->0@[0] == 'm'
            || f.extension->0@[0] == 'M') && (f.extension->0@[1] == 'p' || f.extension->0@[1] == 'P')
            && f.extension->0@[2] == '4'),
    ensures
        r is Ignore <==> !(f.is_file && mp4),
        ({
            let uploaded = !verify && exists|j: int|
                0 <= j < prev@.len() && (#[trigger] prev@[j]).status@ == "uploaded"@ && prev@[j].path@
                    == f.path@;
            &&& f.is_file && mp4 && uploaded ==> (r matches FirstLook::List(v) && v.status@ == "uploaded"@
                && v.path@ == f.path@)
            &&& f.is_file && mp4 && !uploaded && f.has_sidecar && now - f.mtime_ms >= 5000 ==> (
            r matches FirstLook::Read(v) && v.id@ == f.path@ && v.path@ == f.path@ && v.filename@
                == f.filename@ && v.size_bytes == f.size && v.status@ == "pending"@ && v.reason is None
                && v.matched is None && v.player_name is None && v.player_realm is None
                && v.uploaded_bytes is None)
            &&& f.is_file && mp4 && !uploaded && !f.has_sidecar ==> (r matches FirstLook::List(v)
                && v.id@ == f.path@ && v.status@ == "pending"@ && v.filename@ == f.filename@
                && v.size_bytes == f.size && reads(
                v.reason,
                "Waiting for the recording to finish…"@,
            ))
            &&& f.is_file && mp4 && !uploaded && f.has_sidecar && now - f.mtime_ms < 5000 ==> (
            r matches FirstLook::List(v) && v.id@ == f.path@ && v.status@ == "pending"@ && v.filename@
                == f.filename@ && v.size_bytes == f.size && reads(v.reason, "Finishing up…"@))
        }),
{
    lemma_videos(prev@);
    if f.extension is Some {
        let e = f.extension->0@;
        let low = e.map_values(|c: char| crate::scan::ascii_lower(c));
        assert(low.len() == e.len());
        if crate::scan::mp4_extension(Some(e)) {
            assert(low[0] == 'm' && low[1] == 'p' && low[2] == '4');
        }
        if mp4 {
            assert(low =~= seq!['m', 'p', '4']);
        }
    }
    if exists|j: int|
        0 <= j < prev@.len() && (#[trigger] prev@[j]).status@ == "uploaded"@ && prev@[j].path@ == f.path@ {
        lemma_uploaded_somewhere(prev@, f.path@);
    } else {
        lemma_last_uploaded(prev@, f.path@, 0);
    }
}

proof fn lemma_uploaded_somewhere(prev: Seq<VideoItem>, path: Seq<char>)
    requires
        exists|j: int|
            0 <= j < prev.len() && (#[trigger] prev[j]).status@ == "uploaded"@ && prev[j].path@ == path,
    ensures
        last_uploaded(video_models(prev), path) is Some,
        last_uploaded(video_models(prev), path)->0.status == "uploaded"@,
        last_uploaded(video_models(prev), path)->0.path == path,
    decreases prev.len(),
{
    lemma_videos(prev);
    let t = prev.drop_last();
    assert(video_models(prev).drop_last() =~= video_models(t));
    assert(video_models(prev).last() == prev.last()@);
    if !(prev.last().status@ == "uploaded"@ && prev.last().path@ == path) {
        let j = choose|j: int|
            0 <= j < prev.len() && (#[trigger] prev[j]).status@ == "uploaded"@ && prev[j].path@ == path;
        assert(t[j] == prev[j]);
        lemma_uploaded_somewhere(t, path);
    }
}

/// Whether `i` is the first entry of a list with the actor id of the recording.
pub open spec fn own_entry(meta: RecorderMeta, i: int) -> bool {
    &&& meta.actor_id is Some && meta.players is Some
    &&& 0 <= i < meta.players->0@.len()
    &&& meta.players->0@[i].actor_id == meta.actor_id
    &&& forall|j: int| 0 <= j < i ==> (#[trigger] meta.players->0@[j]).actor_id != meta.actor_id
}

/// Whether no entry of the list has the actor id of the recording.
pub open spec fn no_own_entry(meta: RecorderMeta) -> bool {
    ||| meta.actor_id is None
    ||| meta.players is None
    ||| forall|j: int| 0 <= j < meta.players->0@.len() ==> (#[trigger] meta.players->0@[j]).actor_id
        != meta.actor_id
}

pub(crate) proof fn lemma_owner(players: Seq<ArchonPlayer>, id: i64, i: int)
    ensures
        0 <= i < players.len() && players[i].actor_id == Some(id) && (forall|j: int|
            0 <= j < i ==> (#[trigger] players[j]).actor_id != Some(id)) ==> player_with(players, id)
            == Some(players[i]),
        (forall|j: int| 0 <= j < players.len() ==> (#[trigger] players[j]).actor_id != Some(id))
            ==> player_with(players, id) is None,
    decreases players.len(),
{
    if players.len() > 0 {
        let t = players.skip(1);
        lemma_owner(t, id, i - 1);
        assert forall|j: int| 0 <= j < t.len() implies #[trigger] t[j] == players[j + 1] by {}
    }
}

/// The name of the recorded character is the one that the recording itself gives, else that
/// of the entry of the list of players with its actor id.
pub proof fn the_recorded_character_is_named(meta: RecorderMeta, r: Option<String>, i: int)
    requires
        call_ensures(RecorderMeta::player_name, (&meta,), r),
    ensures
        meta.player is Some && meta.player->0.name is Some ==> reads(r, meta.player->0.name->0@),
        (meta.player is None || meta.player->0.name is None) && own_entry(meta, i) ==> same_opt(
            r,
            meta.players->0@[i].name,
        ),
        (meta.player is None || meta.player->0.name is None) && no_own_entry(meta) ==> r is None,
{
    if meta.actor_id is Some && meta.players is Some {
        lemma_owner(meta.players->0@, meta.actor_id->0, i);
    }
}

/// The realm of the recorded character is the one that the recording itself gives, else that
/// of the entry of the list of players with its actor id.
pub proof fn the_recorded_realm_is_named(meta: RecorderMeta, r: Option<String>, i: int)
    requires
        call_ensures(RecorderMeta::player_realm, (&meta,), r),
    ensures
        meta.player is Some && meta.player->0.realm is Some ==> reads(r, meta.player->0.realm->0@),
        (meta.player is None || meta.player->0.realm is None) && own_entry(meta, i) ==> same_opt(
            r,
            meta.players->0@[i].server_name,
        ),
        (meta.player is None || meta.player->0.realm is None) && no_own_entry(meta) ==> r is None,
{
    if meta.actor_id is Some && meta.players is Some {
        lemma_owner(meta.players->0@, meta.actor_id->0, i);
    }
}

/// A recording counts as a clip exactly if it was clipped, or its recorder says that it is of
/// something else than a raid; the category goes before the content type.
pub proof fn clips_are_known(meta: RecorderMeta, r: bool)
    requires
        call_ensures(RecorderMeta::is_clip, (&meta,), r),
    ensures
        meta.clipped ==> r,
        !meta.clipped && meta.category is Some ==> (r <==> meta.category->0@ != "Raids"@),
        !meta.clipped && meta.category is None && meta.content_type is Some
            && meta.content_type->0.name is Some ==> (r <==> meta.content_type->0.name->0@ != "Raids"@),
        !meta.clipped && meta.category is None && (meta.content_type is None
            || meta.content_type->0.name is None) ==> !r,
{
}

/// What is read of a finished recording decides what becomes of it: an unreadable sidecar is
/// an error with the reason, a clip is skipped, and every other is to be matched. Its player
/// is the one that the sidecar names.
pub proof fn finished_recordings_are_taken_in(
    item: VideoItem,
    sidecar: Result<RecorderMeta, String>,
    r: Stage,
    clip: bool,
    name: Option<String>,
    realm: Option<String>,
)
    requires
        call_ensures(take_in, (item, sidecar), r),
        sidecar matches Ok(meta) ==> call_ensures(RecorderMeta::is_clip, (&meta,), clip)
            && call_ensures(RecorderMeta::player_name, (&meta,), name) && call_ensures(
            RecorderMeta::player_realm,
            (&meta,),
            realm,
        ),
    ensures
        sidecar matches Err(e) ==> (r matches Stage::Listed(v) && same_file(v, item) && v.status@ == "error"@
            && reads(v.reason, "Couldn't read metadata: "@ + e@) && same_match(v.matched, item.matched)
            && v.uploaded_bytes == item.uploaded_bytes),
        sidecar is Ok ==> ({
            let v = match r {
                Stage::Listed(v) => v,
                Stage::Ready(v) => v,
            };
            &&& r is Listed <==> clip
            &&& v.id@ == item.id@ && v.path@ == item.path@ && v.filename@ == item.filename@
            &&& v.size_bytes == item.size_bytes
            &&& same_opt(v.player_name, name)
            &&& same_opt(v.player_realm, realm)
            &&& same_match(v.matched, item.matched)
            &&& v.uploaded_bytes == item.uploaded_bytes
            &&& clip ==> v.status@ == "skipped"@ && reads(v.reason, "Clip, not a full pull"@)
            &&& !clip ==> v.status@ == "unmatched"@ && same_opt(v.reason, item.reason)
        }),
{
}

/// What becomes of a file is what the checks before it say: an upload that is taken over is
/// listed as it is taken over, and any other recording as it stands behind the check whether
/// it is finished, where it is read on exactly if it is.
pub proof fn files_go_where_the_checks_say(
    f: FileEntry,
    prev: Vec<VideoItem>,
    verify: bool,
    now: u128,
    r: FirstLook,
    path: &str,
    filename: &str,
    cached: Option<VideoItem>,
    found: VideoItem,
    stage: Stage,
)
    requires
        call_ensures(first_look, (&f, &prev, verify, now), r),
        path@ == f.path@,
        filename@ == f.filename@,
        call_ensures(cached_upload, (&prev, path, verify), cached),
        call_ensures(found_recording, (path, filename, f.size), found),
        call_ensures(await_finish, (found, f.has_sidecar, now, f.mtime_ms), stage),
    ensures
        !(r is Ignore) && cached is Some ==> (r matches FirstLook::List(v) && same_video(v, cached->0)),
        !(r is Ignore) && cached is None ==> match stage {
            Stage::Listed(w) => r matches FirstLook::List(v) && same_video(v, w),
            Stage::Ready(w) => r matches FirstLook::Read(v) && same_video(v, w),
        },
{
    match r {
        FirstLook::List(v) => {
            if cached is Some {
                lemma_same(v, cached->0);
            } else if let Stage::Listed(w) = stage {
                lemma_same(v, w);
            }
        },
        FirstLook::Read(v) => {
            if let Stage::Ready(w) = stage {
                lemma_same(v, w);
            }
        },
        FirstLook::Ignore => {},
    }
}

/// Whether `b` is the list `a` with one entry more behind it.
pub open spec fn with_entry(a: Seq<VideoItem>, b: Seq<VideoItem>, v: VideoItem) -> bool {
    &&& b.len() == a.len() + 1
    &&& forall|k: int| 0 <= k < a.len() ==> same_video(#[trigger] b[k], a[k])
    &&& same_video(b[a.len() as int], v)
}

/// Whether two lists of sidecars hold the same texts, up to the length of the first.
pub open spec fn same_sidecars(a: Seq<String>, b: Seq<String>) -> bool {
    a.len() <= b.len() && forall|k: int| 0 <= k < a.len() ==> (#[trigger] b[k])@ == a[k]@
}

proof fn lemma_with_entry(a: Seq<VideoItem>, b: Seq<VideoItem>, v: VideoItem)
    requires
        video_models(b) == video_models(a).push(v@),
    ensures
        with_entry(a, b, v),
{
    lemma_videos(a);
    lemma_videos(b);
    assert forall|k: int| 0 <= k < a.len() implies same_video(#[trigger] b[k], a[k]) by {
        assert(video_models(b)[k] == video_models(a)[k]);
        lemma_same(b[k], a[k]);
    }
    assert(video_models(b)[a.len() as int] == v@);
    lemma_same(b[a.len() as int], v);
}

proof fn lemma_unchanged(a: Seq<VideoItem>, b: Seq<VideoItem>)
    requires
        video_models(b) == video_models(a),
    ensures
        same_list(a, b),
{
    lemma_videos(a);
    lemma_videos(b);
    assert forall|k: int| 0 <= k < a.len() implies same_video(#[trigger] a[k], b[k]) by {
        assert(video_models(b)[k] == video_models(a)[k]);
        lemma_same(a[k], b[k]);
    }
}

proof fn lemma_sidecars(a: Seq<String>, b: Seq<String>)
    requires
        texts(a).len() <= texts(b).len(),
        forall|k: int| 0 <= k < texts(a).len() ==> #[trigger] texts(b)[k] == texts(a)[k],
    ensures
        same_sidecars(a, b),
{
    lemma_texts(a);
    lemma_texts(b);
    assert forall|k: int| 0 <= k < a.len() implies (#[trigger] b[k])@ == a[k]@ by {
        assert(texts(b)[k] == texts(a)[k]);
    }
}

/// A recording that is listed as it is goes to the end of the list, and nothing that was found
/// before changes.
pub proof fn listed_recordings_are_kept(
    fresh: Findings,
    found: &mut Findings,
    item: VideoItem,
    r: (),
)
    requires
        call_ensures(Findings::new, (), fresh),
        call_ensures(Findings::list, (found, item), r),
    ensures
        fresh.listed@.len() == 0 && fresh.candidates@.len() == 0 && fresh.sidecars@.len() == 0,
        with_entry(old(found).listed@, final(found).listed@, item),
        same_list(old(found).candidates@, final(found).candidates@),
        final(found).sidecars@.len() == old(found).sidecars@.len(),
        same_sidecars(old(found).sidecars@, final(found).sidecars@),
{
    lemma_videos(fresh.listed@);
    lemma_videos(fresh.candidates@);
    lemma_texts(fresh.sidecars@);
    lemma_with_entry(old(found).listed@, final(found).listed@, item);
    lemma_unchanged(old(found).candidates@, final(found).candidates@);
    lemma_texts(old(found).sidecars@);
    lemma_texts(final(found).sidecars@);
    lemma_sidecars(old(found).sidecars@, final(found).sidecars@);
}

/// A recording that was read is put among the candidates, beside the text of its own sidecar,
/// exactly if it is to be matched, and on the list otherwise, each time as it was taken in;
/// nothing that was found before changes.
pub proof fn read_recordings_are_kept(
    found: &mut Findings,
    item: VideoItem,
    sidecar: Result<Sidecar, String>,
    r: bool,
    meta: Result<RecorderMeta, String>,
    stage: Stage,
)
    requires
        call_ensures(Findings::read, (found, item, sidecar), r),
        sidecar is Ok <==> meta is Ok,
        sidecar is Ok ==> meta->Ok_0 == sidecar->Ok_0.meta,
        sidecar is Err ==> meta->Err_0 == sidecar->Err_0,
        call_ensures(take_in, (item, meta), stage),
    ensures
        r <==> stage is Ready,
        stage matches Stage::Ready(v) ==> {
            let n = old(found).sidecars@.len() as int;
            &&& with_entry(old(found).candidates@, final(found).candidates@, v)
            &&& same_sidecars(old(found).sidecars@, final(found).sidecars@)
            &&& final(found).sidecars@.len() == n + 1
            &&& final(found).sidecars@[n]@ == sidecar->Ok_0.text@
            &&& same_list(old(found).listed@, final(found).listed@)
        },
        stage matches Stage::Listed(v) ==> {
            &&& with_entry(old(found).listed@, final(found).listed@, v)
            &&& same_list(old(found).candidates@, final(found).candidates@)
            &&& final(found).sidecars@.len() == old(found).sidecars@.len()
            &&& same_sidecars(old(found).sidecars@, final(found).sidecars@)
        },
{
    lemma_texts(old(found).sidecars@);
    lemma_texts(final(found).sidecars@);
    assert(crate::scan::meta_of(sidecar) == meta);
    match stage {
        Stage::Ready(v) => {
            lemma_with_entry(old(found).candidates@, final(found).candidates@, v);
            lemma_unchanged(old(found).listed@, final(found).listed@);
            let n = old(found).sidecars@.len() as int;
            assert(texts(final(found).sidecars@)[n] == sidecar->Ok_0.text@);
        },
        Stage::Listed(v) => {
            lemma_with_entry(old(found).listed@, final(found).listed@, v);
            lemma_unchanged(old(found).candidates@, final(found).candidates@);
        },
    }
    lemma_sidecars(old(found).sidecars@, final(found).sidecars@);
}

} // verus!
