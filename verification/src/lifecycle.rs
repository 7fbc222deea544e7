//! What holds of every recording on the list at all times, whatever happens to it.
use vstd::prelude::*;
use vstd::string::*;

use crate::api::GuildModel;
use crate::matching::{HitModel, classified};
use crate::merge::merged;
use crate::metadata::RecorderMeta;
use crate::scan::{
    FileEntry, LookModel, StageModel, VideoModel, first_look_at, intake_stage, last_uploaded,
};
use crate::transfer::UploadOutcome;
use crate::upload::{
    Board, ChangeModel, aftermath, called_off, changed_in, eligible, ids_distinct, lemma_position,
    position, restored, reverted, uploading_ids, worker_next,
};

verus! {

/// Whether a status is one of the seven that there are.
pub open spec fn known_status(s: Seq<char>) -> bool {
    ||| s == "pending"@
    ||| s == "matched"@
    ||| s == "uploading"@
    ||| s == "uploaded"@
    ||| s == "skipped"@
    ||| s == "unmatched"@
    ||| s == "error"@
}

/// Whether a status says that the recording belongs to a pull.
pub open spec fn needs_pull(s: Seq<char>) -> bool {
    s == "matched"@ || s == "uploading"@ || s == "uploaded"@
}

/// A recording has one of the seven statuses, and belongs to a pull where the status says
/// so.
pub open spec fn coherent(v: VideoModel) -> bool {
    &&& known_status(v.status)
    &&& needs_pull(v.status) ==> v.matched is Some
}

/// Every recording of a list is coherent.
pub open spec fn all_coherent(s: Seq<VideoModel>) -> bool {
    forall|i: int| 0 <= i < s.len() ==> coherent(#[trigger] s[i])
}

/// The statuses that do not say that a recording belongs to a pull.
proof fn lemma_statuses()
    ensures
        !needs_pull("pending"@),
        !needs_pull("skipped"@),
        !needs_pull("unmatched"@),
        !needs_pull("error"@),
        "uploading"@ != "pending"@,
        "uploading"@ != "matched"@,
{
    reveal_strlit("pending");
    reveal_strlit("matched");
    reveal_strlit("uploading");
    reveal_strlit("uploaded");
    reveal_strlit("skipped");
    reveal_strlit("unmatched");
    reveal_strlit("error");
    assert("pending"@.len() == 7 && "matched"@.len() == 7 && "skipped"@.len() == 7);
    assert("pending"@[0] == 'p' && "matched"@[0] == 'm' && "skipped"@[0] == 's');
    assert("uploading"@.len() == 9 && "unmatched"@.len() == 9);
    assert("uploading"@[1] == 'p' && "unmatched"@[1] == 'n');
    assert("uploaded"@.len() == 8 && "error"@.len() == 5);
}

proof fn lemma_last_uploaded_listed(prev: Seq<VideoModel>, path: Seq<char>)
    requires
        all_coherent(prev),
    ensures
        last_uploaded(prev, path) matches Some(v) ==> coherent(v),
    decreases prev.len(),
{
    if prev.len() > 0 {
        let t = prev.drop_last();
        assert forall|i: int| 0 <= i < t.len() implies coherent(#[trigger] t[i]) by {
            assert(t[i] == prev[i]);
        }
        lemma_last_uploaded_listed(t, path);
        assert(coherent(prev[prev.len() - 1]));
    }
}

/// A recording that a scan finds is coherent from the first look to the match.
pub proof fn found_recordings_are_coherent(
    f: FileEntry,
    prev: Seq<VideoModel>,
    verify: bool,
    now: int,
    sidecar: Result<RecorderMeta, String>,
)
    requires
        all_coherent(prev),
    ensures
        match first_look_at(f, prev, verify, now) {
            LookModel::Ignore => true,
            LookModel::List(v) => coherent(v),
            LookModel::Read(v) => coherent(v) && (match intake_stage(v, sidecar) {
                StageModel::Listed(w) => coherent(w),
                StageModel::Ready(w) => coherent(w) && w.status == "unmatched"@,
            }),
        },
{
    lemma_statuses();
    lemma_last_uploaded_listed(prev, f.path@);
}

/// A match keeps a recording coherent.
pub proof fn matches_are_coherent(
    item: VideoModel,
    place: Option<int>,
    hits: Seq<HitModel>,
    error: Option<Seq<char>>,
    selected: Option<Seq<Seq<char>>>,
    guilds: Seq<GuildModel>,
)
    requires
        coherent(item),
    ensures
        coherent(classified(item, place, hits, error, selected, guilds)),
{
}

/// A scan leaves a coherent list with the ids that it found, no two of them the same
/// where no two files have the same path.
pub proof fn scans_are_coherent(fresh: Seq<VideoModel>, prev: Seq<VideoModel>, match_ok: bool)
    requires
        all_coherent(fresh),
        all_coherent(prev),
        ids_distinct(fresh),
    ensures
        all_coherent(merged(fresh, prev, match_ok)),
        ids_distinct(merged(fresh, prev, match_ok)),
{
    let m = merged(fresh, prev, match_ok);
    assert forall|i: int| 0 <= i < m.len() implies coherent(#[trigger] m[i]) && m[i].id
        == fresh[i].id by {
        lemma_position(prev, fresh[i].id);
        assert(coherent(fresh[i]));
        match position(prev, fresh[i].id) {
            Some(k) => {
                assert(coherent(prev[k]));
            },
            None => {},
        }
    }
    assert forall|i: int, j: int| 0 <= i < m.len() && 0 <= j < m.len() && i != j implies #[trigger] m[i].id
        != #[trigger] m[j].id by {
        assert(fresh[i].id != fresh[j].id);
    }
}

/// Whether a change may be made to a recording: what says that it belongs to a pull is
/// said only of one that does.
pub open spec fn fits(v: VideoModel, c: ChangeModel) -> bool {
    match c {
        ChangeModel::Begin => v.matched is Some,
        ChangeModel::Finished(_) => v.matched is Some,
        ChangeModel::Revert => v.matched is Some,
        _ => true,
    }
}

/// A change that fits keeps a list coherent and its ids distinct.
pub proof fn changes_are_coherent(videos: Seq<VideoModel>, id: Seq<char>, c: ChangeModel)
    requires
        all_coherent(videos),
        ids_distinct(videos),
        position(videos, id) matches Some(i) ==> fits(videos[i], c),
    ensures
        all_coherent(changed_in(videos, id, c)),
        ids_distinct(changed_in(videos, id, c)),
{
    lemma_statuses();
    lemma_position(videos, id);
    let m = changed_in(videos, id, c);
    assert forall|i: int| 0 <= i < m.len() implies coherent(#[trigger] m[i]) && m[i].id
        == videos[i].id by {
        assert(coherent(videos[i]));
    }
    assert forall|i: int, j: int| 0 <= i < m.len() && 0 <= j < m.len() && i != j implies #[trigger] m[i].id
        != #[trigger] m[j].id by {
        assert(videos[i].id != videos[j].id);
    }
}

/// The user's wish to upload, and the worker that follows it, keep the list coherent.
pub proof fn uploading_is_coherent(b: Board, id: Seq<char>, control: u8)
    requires
        all_coherent(b.videos),
        ids_distinct(b.videos),
    ensures
        eligible(b.videos, id) ==> all_coherent(changed_in(b.videos, id, ChangeModel::Begin)),
        all_coherent(worker_next(b, control).1.videos),
        ids_distinct(worker_next(b, control).1.videos),
{
    lemma_position(b.videos, id);
    if eligible(b.videos, id) {
        let i = choose|i: int|
            0 <= i < b.videos.len() && #[trigger] b.videos[i].id == id && crate::upload::uploadable(
                b.videos[i],
            );
        let k = position(b.videos, id)->0;
        assert(position(b.videos, id) is Some);
        assert(b.videos[i].id == b.videos[k].id);
        assert(i == k);
        changes_are_coherent(b.videos, id, ChangeModel::Begin);
    }
    if b.queue.ids.len() > 0 {
        let next = b.queue.ids[0];
        match position(b.videos, next) {
            Some(i) => {
                if crate::upload::uploadable(b.videos[i]) {
                    changes_are_coherent(b.videos, next, ChangeModel::Begin);
                }
            },
            None => {},
        }
    }
}

/// However an upload ends, the list stays coherent, as long as the recording still belongs
/// to a pull.
pub proof fn uploads_end_coherently(b: Board, video: VideoModel, result: Result<UploadOutcome, String>)
    requires
        all_coherent(b.videos),
        ids_distinct(b.videos),
        position(b.videos, video.id) matches Some(i) ==> b.videos[i].matched is Some,
    ensures
        all_coherent(aftermath(b, video, result).1.videos),
        ids_distinct(aftermath(b, video, result).1.videos),
{
    let c = match result {
        Ok(UploadOutcome::Done(id)) => ChangeModel::Finished(id@),
        Ok(UploadOutcome::Cancelled) => ChangeModel::Revert,
        Ok(UploadOutcome::NotReady) => ChangeModel::Unsettled,
        Err(e) => ChangeModel::Failed(e@),
    };
    changes_are_coherent(b.videos, video.id, c);
}

/// Cancelling and restarting keep the list coherent.
pub proof fn interruptions_are_coherent(videos: Seq<VideoModel>)
    requires
        all_coherent(videos),
        ids_distinct(videos),
    ensures
        all_coherent(reverted(videos, uploading_ids(videos))),
        all_coherent(videos.map_values(|v: VideoModel| restored(v))),
{
    lemma_statuses();
    crate::upload::cancelling_calls_off_every_upload(videos);
    let r = reverted(videos, uploading_ids(videos));
    assert forall|i: int| 0 <= i < r.len() implies coherent(#[trigger] r[i]) by {
        assert(coherent(videos[i]));
        assert(r[i] == called_off(videos[i]));
    }
    let s = videos.map_values(|v: VideoModel| restored(v));
    assert forall|i: int| 0 <= i < s.len() implies coherent(#[trigger] s[i]) by {
        assert(coherent(videos[i]));
        assert(s[i] == restored(videos[i]));
    }
}

} // verus!
