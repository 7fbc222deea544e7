//! What a scan makes of the list of recordings, and what is noted of it.
use vstd::prelude::*;
use vstd::string::*;

use crate::applog::{Note, NoteModel, error, info, note_models, warn};
use crate::number::{decimal, i64_text};
use crate::scan::{VideoItem, VideoModel, video_models};
use crate::text::{same_text, starts, starts_with};
use crate::upload::{find_video, lemma_position, position};

verus! {

/// The recording that a list holds under an id.
pub open spec fn known(prev: Seq<VideoModel>, id: Seq<char>) -> Option<VideoModel> {
    match position(prev, id) {
        Some(i) => Some(prev[i]),
        None => None,
    }
}

/// What the list shows of a recording that a scan has found. An upload in flight is never
/// disturbed. A recording that was uploaded stays so unless the server says otherwise:
/// its pull is there without it, or the server was reached and knows no such pull.
pub open spec fn merged_item(f: VideoModel, cached: Option<VideoModel>, match_ok: bool) -> VideoModel {
    match cached {
        Some(c) => if c.status == "uploading"@ {
            c
        } else if c.status == "uploaded"@ {
            if f.status == "matched"@ || (match_ok && f.status == "unmatched"@) {
                f
            } else {
                c
            }
        } else {
            f
        },
        None => f,
    }
}

/// The list of recordings after a scan.
pub open spec fn merged(fresh: Seq<VideoModel>, prev: Seq<VideoModel>, match_ok: bool) -> Seq<VideoModel> {
    fresh.map_values(|f: VideoModel| merged_item(f, known(prev, f.id), match_ok))
}

/// The list of recordings after a scan that found `fresh`, where it was `prev` before;
/// `match_ok` says whether the server's answers can be relied on.
pub fn merge_scan(fresh: Vec<VideoItem>, prev: &Vec<VideoItem>, match_ok: bool) -> (r: Vec<VideoItem>)
    ensures
        video_models(r@) == merged(video_models(fresh@), video_models(prev@), match_ok),
{
    let n: usize = fresh.len();
    let ghost old_list = video_models(prev@);
    let mut out: Vec<VideoItem> = Vec::new();
    let mut i: usize = 0;
    while i < n
        invariant
            n == fresh@.len(),
            old_list == video_models(prev@),
            i <= n,
            out@.len() == i,
            forall|j: int|
                0 <= j < i ==> (#[trigger] out@[j])@ == merged_item(
                    fresh@[j]@,
                    known(old_list, fresh@[j]@.id),
                    match_ok,
                ),
        decreases n - i,
    {
        let f = &fresh[i];
        let item = match find_video(prev, f.id.as_str()) {
            Some(k) => {
                assert(old_list[k as int] == prev@[k as int]@);
                let c = &prev[k];
                if same_text(c.status.as_str(), "uploading") {
                    c.clone()
                } else if same_text(c.status.as_str(), "uploaded") {
                    if same_text(f.status.as_str(), "matched") || (match_ok && same_text(
                        f.status.as_str(),
                        "unmatched",
                    )) {
                        f.clone()
                    } else {
                        c.clone()
                    }
                } else {
                    f.clone()
                }
            },
            None => f.clone(),
        };
        assert(item@ == merged_item(fresh@[i as int]@, known(old_list, fresh@[i as int]@.id), match_ok));
        out.push(item);
        i = i + 1;
    }
    assert(video_models(out@) =~= merged(video_models(fresh@), old_list, match_ok));
    out
}

/// A reason in brackets.
pub open spec fn reason_suffix(reason: Option<Seq<char>>) -> Seq<char> {
    match reason {
        Some(r) => " ("@ + r + ")"@,
        None => Seq::empty(),
    }
}

/// What is noted of a recording whose status has changed.
pub open spec fn status_note(v: VideoModel) -> Option<NoteModel> {
    if v.status == "matched"@ {
        match v.matched {
            Some(m) => Some(
                info(
                    "Matched "@ + v.filename + " → "@ + m.boss_name + " #"@ + decimal(
                        m.pull_number as int,
                    ) + " ("@ + m.guild_name + ")"@,
                ),
            ),
            None => None,
        }
    } else if v.status == "uploaded"@ {
        Some(info("Already on server: "@ + v.filename))
    } else if v.status == "unmatched"@ {
        Some(info("No match: "@ + v.filename + reason_suffix(v.reason)))
    } else if v.status == "error"@ {
        Some(error(v.filename + reason_suffix(v.reason)))
    } else {
        None
    }
}

/// Whether a recording is new or has another status than before.
pub open spec fn is_news(v: VideoModel, prev: Seq<VideoModel>) -> bool {
    match known(prev, v.id) {
        Some(c) => c.status != v.status,
        None => true,
    }
}

/// What is noted of a list, in order.
pub open spec fn notes_of(list: Seq<VideoModel>, prev: Seq<VideoModel>) -> Seq<NoteModel>
    decreases list.len(),
{
    if list.len() == 0 {
        Seq::empty()
    } else {
        let before = notes_of(list.drop_last(), prev);
        match status_note(list.last()) {
            Some(n) => if is_news(list.last(), prev) {
                before.push(n)
            } else {
                before
            },
            None => before,
        }
    }
}

fn push_reason(text: &mut String, reason: &Option<String>)
    ensures
        final(text)@ == old(text)@ + reason_suffix(crate::text::opt_text(*reason)),
{
    match reason {
        Some(r) => {
            text.append(" (");
            text.append(r.as_str());
            text.append(")");
            assert(text@ =~= old(text)@ + (" ("@ + r@ + ")"@));
        },
        None => {
            assert(text@ =~= old(text)@ + Seq::<char>::empty());
        },
    }
}

fn note_status(v: &VideoItem) -> (r: Option<Note>)
    ensures
        match status_note(v@) {
            Some(n) => r matches Some(note) && note@ == n,
            None => r is None,
        },
{
    proof {
        reveal_strlit("matched");
        reveal_strlit("uploaded");
        reveal_strlit("unmatched");
        reveal_strlit("error");
    }
    if same_text(v.status.as_str(), "matched") {
        match &v.matched {
            Some(m) => {
                let mut message = "Matched ".to_owned();
                message.append(v.filename.as_str());
                message.append(" → ");
                message.append(m.boss_name.as_str());
                message.append(" #");
                message.append(i64_text(m.pull_number).as_str());
                message.append(" (");
                message.append(m.guild_name.as_str());
                message.append(")");
                Some(Note { level: "info", message })
            },
            None => None,
        }
    } else if same_text(v.status.as_str(), "uploaded") {
        let mut message = "Already on server: ".to_owned();
        message.append(v.filename.as_str());
        Some(Note { level: "info", message })
    } else if same_text(v.status.as_str(), "unmatched") {
        let mut message = "No match: ".to_owned();
        message.append(v.filename.as_str());
        push_reason(&mut message, &v.reason);
        Some(Note { level: "info", message })
    } else if same_text(v.status.as_str(), "error") {
        let mut message = v.filename.clone();
        push_reason(&mut message, &v.reason);
        Some(Note { level: "error", message })
    } else {
        None
    }
}

/// What is noted of the list after a scan, where it was `prev` before: recordings that
/// are new or have changed their status, but for those that are pending, skipped or being
/// uploaded.
pub fn scan_notes(list: &Vec<VideoItem>, prev: &Vec<VideoItem>) -> (r: Vec<Note>)
    ensures
        note_models(r@) == notes_of(video_models(list@), video_models(prev@)),
{
    let n: usize = list.len();
    let ghost all = video_models(list@);
    let ghost before = video_models(prev@);
    let mut out: Vec<Note> = Vec::new();
    let mut i: usize = 0;
    assert(note_models(out@) =~= Seq::<NoteModel>::empty());
    while i < n
        invariant
            n == list@.len(),
            all == video_models(list@),
            before == video_models(prev@),
            i <= n,
            note_models(out@) == notes_of(all.take(i as int), before),
        decreases n - i,
    {
        proof {
            assert(all.take(i + 1).drop_last() =~= all.take(i as int));
            assert(all.take(i + 1).last() == list@[i as int]@);
        }
        let v = &list[i];
        let news: bool = match find_video(prev, v.id.as_str()) {
            Some(k) => {
                assert(before[k as int] == prev@[k as int]@);
                !same_text(prev[k].status.as_str(), v.status.as_str())
            },
            None => true,
        };
        if news {
            match note_status(v) {
                Some(note) => {
                    assert(note_models(out@.push(note)) =~= note_models(out@).push(note@));
                    out.push(note);
                },
                None => {},
            }
        }
        i = i + 1;
    }
    assert(all.take(n as int) =~= all);
    out
}

/// How long to stay silent after a warning that a match failed, in milliseconds.
pub const WARN_INTERVAL_MS: u128 = 600_000;

/// Whether a recording could not be matched because a request failed.
pub open spec fn match_failed(v: VideoModel) -> bool {
    v.reason matches Some(r) && starts(r, "Match request failed"@)
}

/// Whether the user is to be warned at `now` that matching fails, having been warned last
/// at `last`.
pub open spec fn warning_due(list: Seq<VideoModel>, match_ok: bool, now: int, last: int) -> bool {
    &&& !match_ok
    &&& exists|i: int| 0 <= i < list.len() && match_failed(#[trigger] list[i])
    &&& now - last > WARN_INTERVAL_MS
}

/// The warning that matching fails.
pub open spec fn match_warning_text() -> Seq<char> {
    "A guild's match request failed — new recordings may not auto-upload until it recovers (see the videos list)."@
}

/// The warning that matching fails, where it is due; `last` is when it was last given.
pub fn match_warning(
    list: &Vec<VideoItem>,
    match_ok: bool,
    now_ms: u128,
    last: &mut u128,
) -> (r: Option<Note>)
    ensures
        ({
            if warning_due(video_models(list@), match_ok, now_ms as int, *old(last) as int) {
                &&& r matches Some(note) && note@ == warn(match_warning_text())
                &&& *final(last) == now_ms
            } else {
                r is None && *final(last) == *old(last)
            }
        }),
{
    if match_ok {
        return None;
    }
    let n: usize = list.len();
    let ghost all = video_models(list@);
    let mut failed: bool = false;
    let mut i: usize = 0;
    while i < n && !failed
        invariant
            n == list@.len(),
            all == video_models(list@),
            i <= n,
            failed ==> exists|j: int| 0 <= j < all.len() && match_failed(#[trigger] all[j]),
            !failed ==> forall|j: int| 0 <= j < i ==> !match_failed(#[trigger] all[j]),
        decreases n - i,
    {
        assert(all[i as int] == list@[i as int]@);
        match &list[i].reason {
            Some(r) => {
                if starts_with(r.as_str(), "Match request failed") {
                    assert(match_failed(all[i as int]));
                    failed = true;
                }
            },
            None => {},
        }
        i = i + 1;
    }
    if failed && now_ms.saturating_sub(*last) > WARN_INTERVAL_MS {
        *last = now_ms;
        let message =
            "A guild's match request failed — new recordings may not auto-upload until it recovers (see the videos list).".to_owned();
        Some(Note { level: "warn", message })
    } else {
        None
    }
}

/// An upload in flight is never disturbed by a scan.
pub proof fn uploads_in_flight_stay(fresh: Seq<VideoModel>, prev: Seq<VideoModel>, match_ok: bool, i: int)
    requires
        0 <= i < fresh.len(),
        known(prev, fresh[i].id) matches Some(c) && c.status == "uploading"@,
    ensures
        Some(merged(fresh, prev, match_ok)[i]) == known(prev, fresh[i].id),
{
}

/// A scan keeps every recording that it finds, in its place and under its id.
pub proof fn every_recording_found_is_listed(
    fresh: Seq<VideoModel>,
    prev: Seq<VideoModel>,
    match_ok: bool,
    i: int,
)
    requires
        0 <= i < fresh.len(),
    ensures
        merged(fresh, prev, match_ok).len() == fresh.len(),
        merged(fresh, prev, match_ok)[i].id == fresh[i].id,
{
    lemma_position(prev, fresh[i].id);
}

/// A recording that was uploaded stops being shown as such only where the server has been
/// heard: it has the pull without the recording, or every request succeeded and it has no
/// such pull. A request that failed changes nothing.
pub proof fn uploads_are_forgotten_only_on_evidence(f: VideoModel, c: VideoModel, match_ok: bool)
    requires
        c.status == "uploaded"@,
        merged_item(f, Some(c), match_ok) != c,
    ensures
        f.status == "matched"@ || (match_ok && f.status == "unmatched"@),
        merged_item(f, Some(c), match_ok) == f,
{
    reveal_strlit("uploaded");
    reveal_strlit("uploading");
    assert("uploaded"@.len() != "uploading"@.len());
}

/// After a warning there is none for the length of the interval.
pub proof fn warnings_are_spaced(list: Seq<VideoModel>, match_ok: bool, now: int, later: int)
    requires
        now <= later <= now + WARN_INTERVAL_MS,
    ensures
        !warning_due(list, match_ok, later, now),
{
}

/// A list that has not changed is not noted.
pub proof fn no_news_no_notes(list: Seq<VideoModel>, prev: Seq<VideoModel>)
    requires
        forall|i: int| 0 <= i < list.len() ==> !is_news(#[trigger] list[i], prev),
    ensures
        notes_of(list, prev).len() == 0,
    decreases list.len(),
{
    if list.len() > 0 {
        let t = list.drop_last();
        assert forall|i: int| 0 <= i < t.len() implies !is_news(#[trigger] t[i], prev) by {
            assert(t[i] == list[i]);
        }
        no_news_no_notes(t, prev);
        assert(!is_news(list[list.len() - 1], prev));
    }
}

} // verus!
