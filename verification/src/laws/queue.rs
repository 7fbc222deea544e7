//! The queue of uploads: what is taken into it, what the worker does, and what the list
//! shows of it.
use vstd::prelude::*;
use vstd::string::*;

use crate::laws::{
    first_with, lemma_same, lemma_texts, lemma_videos, none_with, reads, same_but, same_file,
    same_list, same_match, same_opt, same_pull, same_video, wants_upload,
};
use crate::part::{CANCEL, RUN};
use crate::number::decimal;
use crate::scan::{VideoItem, VideoModel, video_models};
use crate::text::texts;
use crate::transfer::UploadOutcome;
use crate::upload::{
    Aftermath, Change, Enqueued, ManualMatchInput, Onward, Picked, UploadQueue, WorkerStep,
    called_off, cancel_uploads, enqueue_upload, find_video, ids_distinct, is_uploadable,
    lemma_position, lemma_position_unique, lemma_reverted, load_videos, manual_match, next_upload,
    pause_uploads, position, resume_uploads, reverted, shown_reverted, update_video, upload_over,
    uploading_ids,
};

verus! {

/// A recording can be uploaded exactly if it is matched to a pull that does not have it yet,
/// whatever its status, its reason and the rest of it.
pub proof fn matched_recordings_can_be_uploaded(v: VideoItem, r: bool)
    requires
        call_ensures(is_uploadable, (&v,), r),
    ensures
        r <==> v.matched is Some && v.matched->0.existing_video_id is None,
{
}

/// Whether `after` is what `before` is shown as while it is uploaded or waits for that.
pub open spec fn shown_uploading(before: VideoItem, after: VideoItem) -> bool {
    &&& same_file(before, after)
    &&& after.status@ == "uploading"@
    &&& after.reason is None
    &&& after.uploaded_bytes == Some(0u64)
    &&& same_match(before.matched, after.matched)
}

/// Whether a queue holds an id.
pub open spec fn waits(q: UploadQueue, id: Seq<char>) -> bool {
    exists|k: int| 0 <= k < q.ids@.len() && (#[trigger] q.ids@[k])@ == id
}

/// Whether the ids of two queues are the same from `from` on in the first.
pub open spec fn same_waiting(a: UploadQueue, from: int, b: UploadQueue) -> bool {
    &&& b.ids@.len() == a.ids@.len() - from
    &&& forall|k: int| 0 <= k < b.ids@.len() ==> (#[trigger] b.ids@[k])@ == a.ids@[k + from]@
}

/// Whether `b` is the queue `a` with an id at its end.
pub open spec fn with_last(a: UploadQueue, b: UploadQueue, id: Seq<char>) -> bool {
    &&& b.ids@.len() == a.ids@.len() + 1
    &&& forall|k: int| 0 <= k < a.ids@.len() ==> (#[trigger] b.ids@[k])@ == a.ids@[k]@
    &&& b.ids@[a.ids@.len() as int]@ == id
}

/// Whether `b` is the queue `a` once an id was put into it: at its end, or where it is.
pub open spec fn taken(a: UploadQueue, b: UploadQueue, id: Seq<char>) -> bool {
    &&& b.uploading
    &&& if waits(a, id) {
        same_waiting(a, 0, b)
    } else {
        with_last(a, b, id)
    }
}

proof fn lemma_taken(a: UploadQueue, b: UploadQueue, id: Seq<char>)
    requires
        b@ == crate::upload::with_id(a@, id),
    ensures
        taken(a, b, id),
{
    lemma_texts(a.ids@);
    lemma_texts(b.ids@);
    if waits(a, id) {
        let k = choose|k: int| 0 <= k < a.ids@.len() && (#[trigger] a.ids@[k])@ == id;
        assert(a@.ids[k] == id);
        assert(a@.ids.contains(id));
        assert forall|k: int| 0 <= k < b.ids@.len() implies (#[trigger] b.ids@[k])@ == a.ids@[k + 0]@ by {
            assert(texts(b.ids@)[k] == texts(a.ids@)[k]);
        }
    } else {
        if a@.ids.contains(id) {
            let k = choose|k: int| 0 <= k < a@.ids.len() && a@.ids[k] == id;
            assert(a.ids@[k]@ == id);
        }
        assert forall|k: int| 0 <= k < a.ids@.len() implies (#[trigger] b.ids@[k])@ == a.ids@[k]@ by {
            assert(texts(b.ids@)[k] == texts(a.ids@)[k]);
        }
        assert(texts(b.ids@)[a.ids@.len() as int] == id);
    }
}

/// The place that the library finds is the first.
proof fn lemma_first(videos: Seq<VideoItem>, id: Seq<char>, i: int)
    requires
        first_with(videos, id, i),
    ensures
        position(video_models(videos), id) == Some(i),
{
    lemma_videos(videos);
    assert forall|j: int| 0 <= j < i implies video_models(videos)[j].id != id by {
        assert(videos[j].id@ != id);
    }
    lemma_position_unique(video_models(videos), id, i);
}

proof fn lemma_none(videos: Seq<VideoItem>, id: Seq<char>)
    requires
        none_with(videos, id),
    ensures
        position(video_models(videos), id) is None,
{
    lemma_videos(videos);
    lemma_position(video_models(videos), id);
    if let Some(i) = position(video_models(videos), id) {
        assert(videos[i].id@ == id);
    }
}

proof fn lemma_some_first(videos: Seq<VideoItem>, id: Seq<char>, k: int) -> (i: int)
    requires
        0 <= k < videos.len(),
        videos[k].id@ == id,
    ensures
        first_with(videos, id, i),
        i <= k,
{
    lemma_videos(videos);
    lemma_position(video_models(videos), id);
    assert(video_models(videos)[k].id == id);
    let i = position(video_models(videos), id)->0;
    assert forall|j: int| 0 <= j < i implies (#[trigger] videos[j]).id@ != id by {
        assert(video_models(videos)[j].id != id);
    }
    i
}

proof fn lemma_update_keeps(a: Seq<VideoItem>, b: Seq<VideoItem>, i: int)
    requires
        0 <= i < a.len(),
        video_models(b).len() == a.len(),
        forall|j: int| 0 <= j < a.len() && j != i ==> #[trigger] video_models(b)[j] == video_models(a)[j],
    ensures
        same_but(a, b, i),
{
    lemma_videos(a);
    lemma_videos(b);
    assert forall|j: int| 0 <= j < a.len() && j != i implies same_video(#[trigger] a[j], b[j]) by {
        assert(video_models(b)[j] == video_models(a)[j]);
        lemma_same(a[j], b[j]);
    }
}

proof fn lemma_same_list(a: Seq<VideoItem>, b: Seq<VideoItem>)
    requires
        video_models(a) == video_models(b),
    ensures
        same_list(a, b),
{
    lemma_videos(a);
    lemma_videos(b);
    assert forall|i: int| 0 <= i < a.len() implies same_video(#[trigger] a[i], b[i]) by {
        assert(video_models(a)[i] == video_models(b)[i]);
        lemma_same(a[i], b[i]);
    }
}

/// What a change makes of a recording.
pub open spec fn made(before: VideoItem, change: Change, after: VideoItem) -> bool {
    &&& same_file(before, after)
    &&& match change {
        Change::Begin => shown_uploading(before, after),
        Change::Finished(id) => {
            &&& after.status@ == "uploaded"@
            &&& reads(after.reason, "Uploaded"@)
            &&& after.uploaded_bytes == before.uploaded_bytes
            &&& match (before.matched, after.matched) {
                (Some(m), Some(n)) => same_pull(m, n) && reads(n.existing_video_id, id@),
                (None, None) => true,
                _ => false,
            }
        },
        Change::Revert => {
            &&& after.status@ == "matched"@
            &&& same_opt(before.reason, after.reason)
            &&& after.uploaded_bytes is None
            &&& same_match(before.matched, after.matched)
        },
        Change::Unsettled => {
            &&& after.status@ == "pending"@
            &&& reads(after.reason, "Finishing up…"@)
            &&& after.uploaded_bytes == before.uploaded_bytes
            &&& same_match(before.matched, after.matched)
        },
        Change::Failed(e) => {
            &&& after.status@ == "error"@
            &&& reads(after.reason, e@)
            &&& after.uploaded_bytes is None
            &&& same_match(before.matched, after.matched)
        },
        Change::Assigned(m) => {
            &&& after.status@ == "matched"@
            &&& after.reason is None
            &&& after.uploaded_bytes == before.uploaded_bytes
            &&& same_match(Some(m), after.matched)
        },
    }
}

/// A recording is found at the first place with its id, and nowhere where there is none.
pub proof fn recordings_are_found_by_id(videos: &Vec<VideoItem>, id: &str, r: Option<usize>, i: int)
    requires
        call_ensures(find_video, (videos, id), r),
    ensures
        first_with(videos@, id@, i) ==> r is Some && r->0 == i,
        none_with(videos@, id@) ==> r is None,
{
    if first_with(videos@, id@, i) {
        lemma_first(videos@, id@, i);
    }
    if none_with(videos@, id@) {
        lemma_none(videos@, id@);
    }
}

/// A queue begins empty and without a worker. What is put back goes to its end; emptying it
/// leaves the worker, and stopping the worker leaves what waits.
pub proof fn queues_are_kept(
    fresh: UploadQueue,
    a: &mut UploadQueue,
    id: String,
    b: &mut UploadQueue,
    c: &mut UploadQueue,
)
    requires
        call_ensures(UploadQueue::new, (), fresh),
        call_ensures(UploadQueue::requeue, (a, id), ()),
        call_ensures(UploadQueue::clear, (b,), ()),
        call_ensures(UploadQueue::stop_worker, (c,), ()),
    ensures
        fresh.ids@.len() == 0 && !fresh.uploading,
        with_last(*old(a), *final(a), id@),
        final(a).uploading == old(a).uploading,
        final(b).ids@.len() == 0,
        final(b).uploading == old(b).uploading,
        same_waiting(*old(c), 0, *final(c)),
        !final(c).uploading,
{
    lemma_texts(fresh.ids@);
    lemma_texts(final(b).ids@);
    lemma_texts(old(a).ids@);
    lemma_texts(final(a).ids@);
    lemma_texts(old(c).ids@);
    lemma_texts(final(c).ids@);
    let n = old(a).ids@.len() as int;
    assert forall|k: int| 0 <= k < n implies (#[trigger] final(a).ids@[k])@ == old(a).ids@[k]@ by {
        assert(texts(final(a).ids@)[k] == texts(old(a).ids@)[k]);
    }
    assert(texts(final(a).ids@)[n] == id@);
    assert forall|k: int| 0 <= k < final(c).ids@.len() implies (#[trigger] final(c).ids@[k])@ == old(
        c,
    ).ids@[k + 0]@ by {
        assert(texts(final(c).ids@)[k] == texts(old(c).ids@)[k]);
    }
}

/// A pause and its end are two wishes, and a cancellation is a third.
pub proof fn wishes_differ(
    paused: &mut u8,
    resumed: &mut u8,
    videos: &mut Vec<VideoItem>,
    queue: &mut UploadQueue,
    cancelled: &mut u8,
    r: Vec<VideoItem>,
)
    requires
        call_ensures(pause_uploads, (paused,), ()),
        call_ensures(resume_uploads, (resumed,), ()),
        call_ensures(cancel_uploads, (videos, queue, cancelled), r),
    ensures
        *final(resumed) == 0,
        *final(paused) == 1,
        *final(cancelled) == 2,
{
}

/// A change is made to the first recording with the id, and to no other; where there is
/// none, nothing changes.
pub proof fn a_change_is_made_to_its_recording(
    videos: &mut Vec<VideoItem>,
    id: &str,
    change: Change,
    r: Option<VideoItem>,
    i: int,
)
    requires
        call_ensures(update_video, (videos, id, change), r),
    ensures
        first_with(old(videos)@, id@, i) ==> {
            &&& same_but(old(videos)@, final(videos)@, i)
            &&& made(old(videos)@[i], change, final(videos)@[i])
            &&& r is Some && same_video(r->0, final(videos)@[i])
        },
        none_with(old(videos)@, id@) ==> r is None && same_list(old(videos)@, final(videos)@),
{
    lemma_videos(old(videos)@);
    lemma_videos(final(videos)@);
    if first_with(old(videos)@, id@, i) {
        lemma_first(old(videos)@, id@, i);
        lemma_update_keeps(old(videos)@, final(videos)@, i);
        assert(video_models(final(videos)@)[i] == final(videos)@[i]@);
        lemma_same(r->0, final(videos)@[i]);
    }
    if none_with(old(videos)@, id@) {
        lemma_none(old(videos)@, id@);
        lemma_same_list(old(videos)@, final(videos)@);
    }
}

/// A wish to upload a recording is followed exactly if a recording with the id can be
/// uploaded. It is then in the queue once, uploads run, a worker is at it, and the list shows
/// the recording as being uploaded; else nothing changes.
pub proof fn wishes_are_followed(
    videos: &mut Vec<VideoItem>,
    queue: &mut UploadQueue,
    control: &mut u8,
    id: &str,
    r: Enqueued,
)
    requires
        call_ensures(enqueue_upload, (videos, queue, control, id), r),
    ensures
        (exists|i: int|
            0 <= i < old(videos)@.len() && (#[trigger] old(videos)@[i]).id@ == id@ && wants_upload(
                old(videos)@[i],
            )) ==> {
            &&& taken(*old(queue), *final(queue), id@)
            &&& *final(control) == RUN
            &&& r matches Enqueued::Queued { start_worker, shown } && start_worker == !old(queue).uploading
                && exists|i: int| #[trigger]
                first_with(old(videos)@, id@, i) && same_but(old(videos)@, final(videos)@, i)
                    && shown_uploading(old(videos)@[i], final(videos)@[i]) && shown is Some
                    && same_video(shown->0, final(videos)@[i])
        },
        (forall|i: int|
            0 <= i < old(videos)@.len() && (#[trigger] old(videos)@[i]).id@ == id@ ==> !wants_upload(
                old(videos)@[i],
            )) ==> r is Refused && *final(queue) == *old(queue) && *final(videos) == *old(videos)
            && *final(control) == *old(control),
{
    let was = old(videos)@;
    let now = final(videos)@;
    lemma_videos(was);
    lemma_videos(now);
    if exists|i: int|
        0 <= i < was.len() && (#[trigger] was[i]).id@ == id@ && wants_upload(was[i]) {
        let k = choose|i: int|
            0 <= i < was.len() && (#[trigger] was[i]).id@ == id@ && wants_upload(was[i]);
        assert(video_models(was)[k].id == id@);
        lemma_taken(*old(queue), *final(queue), id@);
        let i = lemma_some_first(was, id@, k);
        lemma_first(was, id@, i);
        lemma_update_keeps(was, now, i);
        assert(video_models(now)[i] == now[i]@);
        if let Enqueued::Queued { shown, .. } = r {
            lemma_same(shown->0, now[i]);
        }
    } else {
        if crate::upload::eligible(video_models(was), id@) {
            let k = choose|i: int|
                0 <= i < was.len() && #[trigger] video_models(was)[i].id == id@
                    && crate::upload::uploadable(video_models(was)[i]);
            assert(was[k].id@ == id@ && wants_upload(was[k]));
        }
    }
}

/// A cancellation empties the queue and stops the worker; so does an empty queue.
pub proof fn the_worker_stops(
    videos: &mut Vec<VideoItem>,
    queue: &mut UploadQueue,
    control: u8,
    r: WorkerStep,
)
    requires
        call_ensures(next_upload, (videos, queue, control), r),
    ensures
        control == CANCEL || old(queue).ids@.len() == 0 <==> r is Stop,
        r is Stop ==> final(queue).ids@.len() == 0 && !final(queue).uploading,
        r !is Upload ==> same_list(old(videos)@, final(videos)@),
{
    lemma_texts(old(queue).ids@);
    lemma_texts(final(queue).ids@);
    if r !is Upload {
        lemma_same_list(old(videos)@, final(videos)@);
    }
}

/// With no cancellation the worker takes the id at the head of the queue. It uploads the
/// first recording with it exactly if that can be uploaded, as it stands, shows it as being
/// uploaded and says so; it passes over every other.
pub proof fn the_worker_takes_the_head(
    videos: &mut Vec<VideoItem>,
    queue: &mut UploadQueue,
    control: u8,
    r: WorkerStep,
    i: int,
)
    requires
        call_ensures(next_upload, (videos, queue, control), r),
        control != CANCEL,
        old(queue).ids@.len() > 0,
    ensures
        same_waiting(*old(queue), 1, *final(queue)),
        final(queue).uploading == old(queue).uploading,
        first_with(old(videos)@, old(queue).ids@[0]@, i) && wants_upload(old(videos)@[i]) ==> {
            &&& r matches WorkerStep::Upload { video, shown, note } && same_video(
                video,
                old(videos)@[i],
            ) && shown is Some && same_video(shown->0, final(videos)@[i]) && note.level@ == "info"@
                && note.message@ == "[Video] Uploading "@ + video.filename@ + "…"@
            &&& same_but(old(videos)@, final(videos)@, i)
            &&& shown_uploading(old(videos)@[i], final(videos)@[i])
        },
        first_with(old(videos)@, old(queue).ids@[0]@, i) && !wants_upload(old(videos)@[i]) ==> r is Skip,
        none_with(old(videos)@, old(queue).ids@[0]@) ==> r is Skip,
{
    let was = old(videos)@;
    let now = final(videos)@;
    lemma_texts(old(queue).ids@);
    lemma_texts(final(queue).ids@);
    lemma_videos(was);
    lemma_videos(now);
    let id = old(queue).ids@[0]@;
    assert(old(queue)@.ids[0] == id);
    assert forall|k: int| 0 <= k < final(queue).ids@.len() implies (#[trigger] final(queue).ids@[k])@
        == old(queue).ids@[k + 1]@ by {
        assert(texts(final(queue).ids@)[k] == texts(old(queue).ids@)[k + 1]);
    }
    if first_with(was, id, i) {
        lemma_first(was, id, i);
        if wants_upload(was[i]) {
            lemma_update_keeps(was, now, i);
            assert(video_models(now)[i] == now[i]@);
            if let WorkerStep::Upload { video, shown, .. } = r {
                lemma_same(video, was[i]);
                lemma_same(shown->0, now[i]);
            }
        }
    }
    if none_with(was, id) {
        lemma_none(was, id);
    }
}

/// The change that the end of an upload makes to its recording.
pub open spec fn change_of(result: Result<UploadOutcome, String>) -> Change {
    match result {
        Ok(UploadOutcome::Done(id)) => Change::Finished(id),
        Ok(UploadOutcome::Cancelled) => Change::Revert,
        Ok(UploadOutcome::NotReady) => Change::Unsettled,
        Err(e) => Change::Failed(e),
    }
}

/// However an upload ends, that is shown of its recording and of no other.
pub proof fn the_end_of_an_upload_is_shown(
    videos: &mut Vec<VideoItem>,
    queue: &mut UploadQueue,
    video: VideoItem,
    result: Result<UploadOutcome, String>,
    r: Aftermath,
    i: int,
)
    requires
        call_ensures(upload_over, (videos, queue, &video, result), r),
    ensures
        first_with(old(videos)@, video.id@, i) ==> {
            &&& same_but(old(videos)@, final(videos)@, i)
            &&& made(old(videos)@[i], change_of(result), final(videos)@[i])
            &&& r.shown is Some && same_video(r.shown->0, final(videos)@[i])
        },
        none_with(old(videos)@, video.id@) ==> r.shown is None && same_list(
            old(videos)@,
            final(videos)@,
        ),
{
    let was = old(videos)@;
    let now = final(videos)@;
    lemma_videos(was);
    lemma_videos(now);
    if first_with(was, video.id@, i) {
        lemma_first(was, video.id@, i);
        lemma_update_keeps(was, now, i);
        assert(video_models(now)[i] == now[i]@);
        lemma_same(r.shown->0, now[i]);
    }
    if none_with(was, video.id@) {
        lemma_none(was, video.id@);
        lemma_same_list(was, now);
    }
}

/// After an upload the worker goes on at once, but that it stops after a cancellation, which
/// drops the rest of the queue, and that it waits a while after a recording that has not
/// settled, which is put at the end. A failure touches nothing of the queue.
pub proof fn the_worker_goes_on(
    videos: &mut Vec<VideoItem>,
    queue: &mut UploadQueue,
    video: VideoItem,
    result: Result<UploadOutcome, String>,
    r: Aftermath,
)
    requires
        call_ensures(upload_over, (videos, queue, &video, result), r),
    ensures
        match result {
            Ok(UploadOutcome::Done(_)) => {
                &&& r.onward is Next
                &&& same_waiting(*old(queue), 0, *final(queue))
                &&& final(queue).uploading == old(queue).uploading
                &&& r.note is Some && r.note->0.level@ == "info"@
                &&& r.note->0.message@ == "[Video] Uploaded "@ + video.filename@ + " to "@ + (
                match video.matched {
                    Some(m) => m.guild_name@,
                    None => Seq::empty(),
                })
            },
            Ok(UploadOutcome::Cancelled) => {
                &&& r.onward is Stop
                &&& final(queue).ids@.len() == 0
                &&& !final(queue).uploading
                &&& r.note is Some && r.note->0.level@ == "info"@
                &&& r.note->0.message@ == "[Video] Uploads cancelled"@
            },
            Ok(UploadOutcome::NotReady) => {
                &&& r.onward == Onward::After(1500)
                &&& with_last(*old(queue), *final(queue), video.id@)
                &&& final(queue).uploading == old(queue).uploading
                &&& r.note is None
            },
            Err(e) => {
                &&& r.onward is Next
                &&& same_waiting(*old(queue), 0, *final(queue))
                &&& final(queue).uploading == old(queue).uploading
                &&& r.note is Some && r.note->0.level@ == "error"@
                &&& r.note->0.message@ == "[Video] Upload failed for "@ + video.filename@ + ": "@ + e@
            },
        },
{
    lemma_texts(old(queue).ids@);
    lemma_texts(final(queue).ids@);
    let n = old(queue).ids@.len() as int;
    match result {
        Ok(UploadOutcome::Cancelled) => {},
        Ok(UploadOutcome::NotReady) => {
            assert forall|k: int| 0 <= k < n implies (#[trigger] final(queue).ids@[k])@ == old(
                queue,
            ).ids@[k]@ by {
                assert(texts(final(queue).ids@)[k] == texts(old(queue).ids@)[k]);
            }
            assert(texts(final(queue).ids@)[n] == video.id@);
        },
        _ => {
            assert forall|k: int| 0 <= k < n implies (#[trigger] final(queue).ids@[k])@ == old(
                queue,
            ).ids@[k + 0]@ by {
                assert(texts(final(queue).ids@)[k] == texts(old(queue).ids@)[k]);
            }
        },
    }
}

/// A failed upload can be tried again, and one whose file had not settled is: a recording
/// that could be uploaded before still can be, unless the server has it now.
pub proof fn failed_uploads_can_be_tried_again(
    videos: &mut Vec<VideoItem>,
    queue: &mut UploadQueue,
    video: VideoItem,
    result: Result<UploadOutcome, String>,
    r: Aftermath,
    i: int,
    before: bool,
    after: bool,
)
    requires
        call_ensures(upload_over, (videos, queue, &video, result), r),
        0 <= i < old(videos)@.len(),
        call_ensures(is_uploadable, (&old(videos)@[i],), before),
        call_ensures(is_uploadable, (&final(videos)@[i],), after),
    ensures
        !(result matches Ok(UploadOutcome::Done(_))) ==> after == before,
        result matches Ok(UploadOutcome::Done(_)) && first_with(old(videos)@, video.id@, i) ==> !after,
{
    let was = old(videos)@;
    lemma_videos(was);
    if exists|k: int| 0 <= k < was.len() && (#[trigger] was[k]).id@ == video.id@ {
        let k = choose|k: int| 0 <= k < was.len() && (#[trigger] was[k]).id@ == video.id@;
        let j = lemma_some_first(was, video.id@, k);
        the_end_of_an_upload_is_shown(videos, queue, video, result, r, j);
        if i != j {
            assert(same_video(was[i], final(videos)@[i]));
        }
    } else {
        the_end_of_an_upload_is_shown(videos, queue, video, result, r, 0);
        assert(same_video(was[i], final(videos)@[i]));
    }
}

/// A failed upload is queued again when the user asks for it: the wish is followed.
pub proof fn failed_uploads_are_queued_again(
    videos: &mut Vec<VideoItem>,
    queue: &mut UploadQueue,
    video: VideoItem,
    e: String,
    r: Aftermath,
    again: &mut Vec<VideoItem>,
    waiting: &mut UploadQueue,
    control: &mut u8,
    id: &str,
    wish: Enqueued,
    i: int,
)
    requires
        call_ensures(upload_over, (videos, queue, &video, Err::<UploadOutcome, String>(e)), r),
        first_with(old(videos)@, video.id@, i),
        wants_upload(old(videos)@[i]),
        *old(again) == *final(videos),
        id@ == video.id@,
        call_ensures(enqueue_upload, (again, waiting, control, id), wish),
    ensures
        wish is Queued,
        waits(*final(waiting), id@),
{
    the_end_of_an_upload_is_shown(videos, queue, video, Err::<UploadOutcome, String>(e), r, i);
    assert(old(again)@[i].id@ == id@ && wants_upload(old(again)@[i]));
    wishes_are_followed(again, waiting, control, id, wish);
    if !waits(*old(waiting), id@) {
        assert(final(waiting).ids@[old(waiting).ids@.len() as int]@ == id@);
    } else {
        let k = choose|k: int|
            0 <= k < old(waiting).ids@.len() && (#[trigger] old(waiting).ids@[k])@ == id@;
        assert(final(waiting).ids@[k]@ == old(waiting).ids@[k + 0]@);
    }
}

/// A cancellation calls off every upload that is shown, and touches nothing else: nothing
/// waits, and each recording that was shown as being uploaded can be uploaded again.
pub proof fn a_cancellation_calls_off_every_upload(
    videos: &mut Vec<VideoItem>,
    queue: &mut UploadQueue,
    control: &mut u8,
    r: Vec<VideoItem>,
    i: int,
)
    requires
        call_ensures(cancel_uploads, (videos, queue, control), r),
        forall|a: int, b: int|
            0 <= a < b < old(videos)@.len() ==> (#[trigger] old(videos)@[a]).id@ != (
            #[trigger] old(videos)@[b]).id@,
    ensures
        *final(control) == CANCEL,
        final(queue).ids@.len() == 0,
        final(queue).uploading == old(queue).uploading,
        final(videos)@.len() == old(videos)@.len(),
        0 <= i < old(videos)@.len() && old(videos)@[i].status@ != "uploading"@ ==> same_video(
            old(videos)@[i],
            final(videos)@[i],
        ),
        0 <= i < old(videos)@.len() && old(videos)@[i].status@ == "uploading"@ ==> made(
            old(videos)@[i],
            Change::Revert,
            final(videos)@[i],
        ),
{
    lemma_texts(final(queue).ids@);
    let was = old(videos)@;
    lemma_videos(was);
    lemma_videos(final(videos)@);
    let m = video_models(was);
    assert forall|a: int, b: int| 0 <= a < m.len() && 0 <= b < m.len() && a != b implies #[trigger] m[a].id
        != #[trigger] m[b].id by {
        if a < b {
            assert(was[a].id@ != was[b].id@);
        } else {
            assert(was[b].id@ != was[a].id@);
        }
    }
    crate::upload::cancelling_calls_off_every_upload(m);
    if 0 <= i < was.len() {
        assert(video_models(final(videos)@)[i] == final(videos)@[i]@);
        assert(was[i]@ == m[i]);
        if was[i].status@ != "uploading"@ {
            lemma_same(was[i], final(videos)@[i]);
        }
    }
}

/// Whether places of a list are told in order, each at most once.
pub open spec fn in_order(at: Seq<int>, n: int) -> bool {
    &&& forall|x: int| 0 <= x < at.len() ==> 0 <= #[trigger] at[x] < n
    &&& forall|x: int, y: int| 0 <= x < y < at.len() ==> #[trigger] at[x] < #[trigger] at[y]
}

proof fn lemma_called_off(m: Seq<VideoModel>, k: int) -> (at: Seq<int>)
    requires
        ids_distinct(m),
        0 <= k <= m.len(),
    ensures
        at.len() == shown_reverted(m, uploading_ids(m.take(k))).len(),
        in_order(at, k),
        forall|x: int|
            0 <= x < at.len() ==> m[#[trigger] at[x]].status == "uploading"@ && shown_reverted(
                m,
                uploading_ids(m.take(k)),
            )[x] == called_off(m[at[x]]),
        forall|i: int| 0 <= i < k && (#[trigger] m[i]).status == "uploading"@ ==> at.contains(i),
    decreases k,
{
    if k == 0 {
        Seq::empty()
    } else {
        let before = lemma_called_off(m, k - 1);
        lemma_reverted(m, k - 1);
        let t = m.take(k);
        assert(t.drop_last() =~= m.take(k - 1));
        assert(t.last() == m[k - 1]);
        let ids = uploading_ids(m.take(k - 1));
        if m[k - 1].status == "uploading"@ {
            let id = m[k - 1].id;
            assert(ids.push(id).drop_last() =~= ids);
            let now = reverted(m, ids);
            assert forall|j: int| 0 <= j < k - 1 implies now[j].id != id by {
                assert(now[j].id == m[j].id);
            }
            assert(now[k - 1] == m[k - 1]);
            lemma_position_unique(now, id, k - 1);
            let at = before.push(k - 1);
            assert forall|i: int| 0 <= i < k && (#[trigger] m[i]).status == "uploading"@ implies at.contains(i) by {
                if i < k - 1 {
                    let x = choose|x: int| 0 <= x < before.len() && before[x] == i;
                    assert(at[x] == i);
                } else {
                    assert(at[before.len() as int] == i);
                }
            }
            at
        } else {
            before
        }
    }
}

/// A cancellation tells of every recording whose upload it calls off what the list shows of it
/// now, in the order of the list, and of no other.
pub proof fn what_is_called_off_is_told(
    videos: &mut Vec<VideoItem>,
    queue: &mut UploadQueue,
    control: &mut u8,
    r: Vec<VideoItem>,
) -> (at: Seq<int>)
    requires
        call_ensures(cancel_uploads, (videos, queue, control), r),
        forall|a: int, b: int|
            0 <= a < b < old(videos)@.len() ==> (#[trigger] old(videos)@[a]).id@ != (
            #[trigger] old(videos)@[b]).id@,
    ensures
        at.len() == r@.len(),
        in_order(at, old(videos)@.len() as int),
        forall|x: int|
            0 <= x < at.len() ==> old(videos)@[#[trigger] at[x]].status@ == "uploading"@ && same_video(
                r@[x],
                final(videos)@[at[x]],
            ),
        forall|i: int|
            0 <= i < old(videos)@.len() && (#[trigger] old(videos)@[i]).status@ == "uploading"@
                ==> at.contains(i),
{
    let was = old(videos)@;
    let now = final(videos)@;
    lemma_videos(was);
    lemma_videos(now);
    lemma_videos(r@);
    let m = video_models(was);
    assert forall|a: int, b: int| 0 <= a < m.len() && 0 <= b < m.len() && a != b implies #[trigger] m[a].id
        != #[trigger] m[b].id by {
        if a < b {
            assert(was[a].id@ != was[b].id@);
        } else {
            assert(was[b].id@ != was[a].id@);
        }
    }
    crate::upload::cancelling_calls_off_every_upload(m);
    assert(m.take(m.len() as int) =~= m);
    let at = lemma_called_off(m, m.len() as int);
    assert forall|x: int| 0 <= x < at.len() implies was[#[trigger] at[x]].status@ == "uploading"@ && same_video(
        r@[x],
        now[at[x]],
    ) by {
        assert(m[at[x]].status == "uploading"@);
        assert(was[at[x]]@ == m[at[x]]);
        assert(video_models(now)[at[x]] == now[at[x]]@);
        assert(video_models(r@)[x] == r@[x]@);
        lemma_same(r@[x], now[at[x]]);
    }
    assert forall|i: int| 0 <= i < was.len() && (#[trigger] was[i]).status@ == "uploading"@ implies at.contains(
        i,
    ) by {
        assert(m[i].status == "uploading"@);
    }
    at
}

/// A pick assigns the first recording with the id to exactly the pull that was picked, as the
/// user's own and free to upload, and puts it into the queue. A pause goes on, and a
/// cancellation is over. Where there is no such recording, nothing changes.
pub proof fn a_pick_is_followed(
    videos: &mut Vec<VideoItem>,
    queue: &mut UploadQueue,
    control: &mut u8,
    id: &str,
    choice: ManualMatchInput,
    r: Option<Picked>,
    i: int,
)
    requires
        call_ensures(manual_match, (videos, queue, control, id, choice), r),
    ensures
        first_with(old(videos)@, id@, i) ==> {
            let after = final(videos)@[i];
            &&& same_but(old(videos)@, final(videos)@, i)
            &&& same_file(old(videos)@[i], after)
            &&& after.status@ == "matched"@
            &&& after.reason is None
            &&& after.uploaded_bytes == old(videos)@[i].uploaded_bytes
            &&& after.matched matches Some(m) && {
                &&& m.guild_id@ == choice.guild_id@
                &&& m.guild_name@ == choice.guild_name@
                &&& m.pull_id@ == choice.pull_id@
                &&& m.boss_name@ == choice.boss_name@
                &&& m.pull_number == choice.pull_number
                &&& m.is_kill == choice.is_kill
                &&& m.date@ == choice.date@
                &&& m.start_time@ == choice.start_time@
                &&& m.is_own_pov
                &&& m.can_upload
                &&& m.existing_video_id is None
            }
            &&& taken(*old(queue), *final(queue), id@)
            &&& *final(control) == (if *old(control) == CANCEL {
                RUN
            } else {
                *old(control)
            })
            &&& r matches Some(p) && same_video(p.shown, after) && p.start_worker == !old(
                queue,
            ).uploading && p.note.level@ == "info"@ && p.note.message@ == "Manually matched "@
                + after.filename@ + " → "@ + choice.boss_name@ + " #"@ + decimal(
                choice.pull_number as int,
            )
        },
        none_with(old(videos)@, id@) ==> r is None && same_list(old(videos)@, final(videos)@)
            && *final(queue) == *old(queue) && *final(control) == *old(control),
{
    let was = old(videos)@;
    let now = final(videos)@;
    lemma_videos(was);
    lemma_videos(now);
    if first_with(was, id@, i) {
        lemma_first(was, id@, i);
        lemma_update_keeps(was, now, i);
        assert(video_models(now)[i] == now[i]@);
        lemma_taken(*old(queue), *final(queue), id@);
        lemma_same(r->0.shown, now[i]);
    }
    if none_with(was, id@) {
        lemma_none(was, id@);
        lemma_same_list(was, now);
    }
}

/// A list is taken over from an earlier run as it was, but that an upload that was cut short
/// is none any more: its recording is matched, or pending where it has no match.
pub proof fn a_list_is_taken_over(videos: Vec<VideoItem>, r: Vec<VideoItem>, i: int)
    requires
        call_ensures(load_videos, (videos,), r),
    ensures
        r@.len() == videos@.len(),
        0 <= i < r@.len() && videos@[i].status@ != "uploading"@ ==> same_video(videos@[i], r@[i]),
        0 <= i < r@.len() && videos@[i].status@ == "uploading"@ ==> {
            &&& same_file(videos@[i], r@[i])
            &&& same_opt(videos@[i].reason, r@[i].reason)
            &&& same_match(videos@[i].matched, r@[i].matched)
            &&& r@[i].uploaded_bytes is None
            &&& r@[i].status@ == (if videos@[i].matched is Some {
                "matched"@
            } else {
                "pending"@
            })
        },
{
    lemma_videos(videos@);
    lemma_videos(r@);
    if 0 <= i < r@.len() {
        assert(video_models(r@)[i] == r@[i]@);
        if videos@[i].status@ != "uploading"@ {
            lemma_same(videos@[i], r@[i]);
        }
    }
}

} // verus!
