//! The queue of recordings to upload, the worker that empties it one by one, and what
//! the list of recordings shows meanwhile.
use std::collections::VecDeque;
use vstd::prelude::*;
use vstd::string::*;

use crate::applog::{Note, NoteModel, error, info};
use crate::number::{decimal, i64_text};
use crate::part::{CANCEL, PAUSE, RUN};
use crate::scan::{MatchedInfo, MatchedModel, VideoItem, VideoModel, opt_video, video_models};
use crate::text::{same_text, texts};
use crate::transfer::UploadOutcome;

verus! {

/// The position of the first recording with an id.
pub open spec fn position(videos: Seq<VideoModel>, id: Seq<char>) -> Option<int>
    decreases videos.len(),
{
    if videos.len() == 0 {
        None
    } else if videos[0].id == id {
        Some(0)
    } else {
        match position(videos.skip(1), id) {
            Some(i) => Some(i + 1),
            None => None,
        }
    }
}

pub proof fn lemma_position(videos: Seq<VideoModel>, id: Seq<char>)
    ensures
        match position(videos, id) {
            Some(i) => 0 <= i < videos.len() && videos[i].id == id && forall|j: int|
                0 <= j < i ==> videos[j].id != id,
            None => forall|j: int| 0 <= j < videos.len() ==> videos[j].id != id,
        },
    decreases videos.len(),
{
    if videos.len() > 0 && videos[0].id != id {
        let rest = videos.skip(1);
        lemma_position(rest, id);
        let end = match position(videos, id) {
            Some(i) => i,
            None => videos.len() as int,
        };
        assert forall|j: int| 0 <= j < end implies videos[j].id != id by {
            if j > 0 {
                assert(rest[j - 1] == videos[j]);
            }
        }
    }
}

/// `position` is the only place with these properties.
pub proof fn lemma_position_unique(videos: Seq<VideoModel>, id: Seq<char>, i: int)
    requires
        0 <= i <= videos.len(),
        forall|j: int| 0 <= j < i ==> videos[j].id != id,
        i < videos.len() ==> videos[i].id == id,
    ensures
        position(videos, id) == (if i < videos.len() {
            Some(i)
        } else {
            None
        }),
{
    lemma_position(videos, id);
}

/// The position of the first recording with an id.
pub fn find_video(videos: &Vec<VideoItem>, id: &str) -> (r: Option<usize>)
    ensures
        match r {
            Some(i) => i < videos@.len() && position(video_models(videos@), id@) == Some(i as int),
            None => position(video_models(videos@), id@) is None,
        },
{
    let n: usize = videos.len();
    let mut i: usize = 0;
    while i < n
        invariant
            n == videos@.len(),
            i <= n,
            forall|j: int| 0 <= j < i ==> video_models(videos@)[j].id != id@,
        decreases n - i,
    {
        assert(video_models(videos@)[i as int] == videos@[i as int]@);
        if same_text(videos[i].id.as_str(), id) {
            proof {
                lemma_position_unique(video_models(videos@), id@, i as int);
            }
            return Some(i);
        }
        i = i + 1;
    }
    proof {
        lemma_position_unique(video_models(videos@), id@, i as int);
    }
    None
}

/// A change to what the list shows of a recording.
#[derive(Debug)]
pub enum Change {
    /// Its upload begins, or waits its turn.
    Begin,
    /// It is on the server under this id.
    Finished(String),
    /// Its upload was called off.
    Revert,
    /// Its file has not settled.
    Unsettled,
    /// Its upload failed.
    Failed(String),
    /// The user has assigned it to a pull.
    Assigned(MatchedInfo),
}

/// What a `Change` holds.
pub enum ChangeModel {
    Begin,
    Finished(Seq<char>),
    Revert,
    Unsettled,
    Failed(Seq<char>),
    Assigned(MatchedModel),
}

impl View for Change {
    type V = ChangeModel;

    open spec fn view(&self) -> ChangeModel {
        match self {
            Change::Begin => ChangeModel::Begin,
            Change::Finished(id) => ChangeModel::Finished(id@),
            Change::Revert => ChangeModel::Revert,
            Change::Unsettled => ChangeModel::Unsettled,
            Change::Failed(e) => ChangeModel::Failed(e@),
            Change::Assigned(m) => ChangeModel::Assigned(m@),
        }
    }
}

/// A recording behind a change.
pub open spec fn changed(v: VideoModel, c: ChangeModel) -> VideoModel {
    match c {
        ChangeModel::Begin => VideoModel {
            status: "uploading"@,
            uploaded_bytes: Some(0),
            reason: None,
            ..v
        },
        ChangeModel::Finished(id) => VideoModel {
            status: "uploaded"@,
            reason: Some("Uploaded"@),
            matched: match v.matched {
                Some(m) => Some(MatchedModel { existing_video_id: Some(id), ..m }),
                None => None,
            },
            ..v
        },
        ChangeModel::Revert => VideoModel { status: "matched"@, uploaded_bytes: None, ..v },
        ChangeModel::Unsettled => VideoModel {
            status: "pending"@,
            reason: Some("Finishing up…"@),
            ..v
        },
        ChangeModel::Failed(e) => VideoModel {
            status: "error"@,
            uploaded_bytes: None,
            reason: Some(e),
            ..v
        },
        ChangeModel::Assigned(m) => VideoModel {
            status: "matched"@,
            reason: None,
            matched: Some(m),
            ..v
        },
    }
}

/// A list behind a change to the first recording with an id.
pub open spec fn changed_in(videos: Seq<VideoModel>, id: Seq<char>, c: ChangeModel) -> Seq<VideoModel> {
    match position(videos, id) {
        Some(i) => videos.update(i, changed(videos[i], c)),
        None => videos,
    }
}

/// The first recording with an id, behind a change to it.
pub open spec fn shown_by(videos: Seq<VideoModel>, id: Seq<char>, c: ChangeModel) -> Option<VideoModel> {
    match position(videos, id) {
        Some(i) => Some(changed(videos[i], c)),
        None => None,
    }
}

fn apply(v: VideoItem, change: Change) -> (r: VideoItem)
    ensures
        r@ == changed(v@, change@),
{
    let mut v = v;
    match change {
        Change::Begin => {
            v.status = "uploading".to_owned();
            v.uploaded_bytes = Some(0);
            v.reason = None;
        },
        Change::Finished(id) => {
            v.status = "uploaded".to_owned();
            v.reason = Some("Uploaded".to_owned());
            match v.matched {
                Some(m) => {
                    let mut m = m;
                    m.existing_video_id = Some(id);
                    v.matched = Some(m);
                },
                None => {
                    v.matched = None;
                },
            }
        },
        Change::Revert => {
            v.status = "matched".to_owned();
            v.uploaded_bytes = None;
        },
        Change::Unsettled => {
            v.status = "pending".to_owned();
            v.reason = Some("Finishing up…".to_owned());
        },
        Change::Failed(e) => {
            v.status = "error".to_owned();
            v.uploaded_bytes = None;
            v.reason = Some(e);
        },
        Change::Assigned(m) => {
            v.status = "matched".to_owned();
            v.reason = None;
            v.matched = Some(m);
        },
    }
    v
}

/// Changes the first recording with an id. What it looks like now, for the window to
/// show.
pub fn update_video(videos: &mut Vec<VideoItem>, id: &str, change: Change) -> (r: Option<VideoItem>)
    ensures
        video_models(final(videos)@) == changed_in(video_models(old(videos)@), id@, change@),
        opt_video(r) == shown_by(video_models(old(videos)@), id@, change@),
{
    match find_video(videos, id) {
        Some(i) => {
            let ghost before = videos@;
            let item = apply(videos[i].clone(), change);
            assert(video_models(before)[i as int] == before[i as int]@);
            videos.set(i, item.clone());
            assert(video_models(videos@) =~= video_models(before).update(i as int, item@));
            Some(item)
        },
        None => None,
    }
}

/// The recordings to upload, in order, and whether a worker is at it.
#[derive(Debug)]
pub struct UploadQueue {
    pub ids: VecDeque<String>,
    pub uploading: bool,
}

/// What an `UploadQueue` holds.
#[verifier::ext_equal]
pub struct QueueModel {
    pub ids: Seq<Seq<char>>,
    pub uploading: bool,
}

impl View for UploadQueue {
    type V = QueueModel;

    open spec fn view(&self) -> QueueModel {
        QueueModel { ids: texts(self.ids@), uploading: self.uploading }
    }
}

impl QueueModel {
    /// Nothing waits without a worker to see to it.
    pub open spec fn attended(self) -> bool {
        self.ids.len() > 0 ==> self.uploading
    }
}

/// Whether a recording is matched to a pull that does not have it yet.
pub open spec fn uploadable(v: VideoModel) -> bool {
    v.matched matches Some(m) && m.existing_video_id is None
}

/// Whether a recording is matched to a pull that does not have it yet.
pub fn is_uploadable(v: &VideoItem) -> (r: bool)
    ensures
        r == uploadable(v@),
{
    match &v.matched {
        Some(m) => m.existing_video_id.is_none(),
        None => false,
    }
}

/// Whether a recording with an id can be uploaded.
pub open spec fn eligible(videos: Seq<VideoModel>, id: Seq<char>) -> bool {
    exists|i: int| 0 <= i < videos.len() && #[trigger] videos[i].id == id && uploadable(videos[i])
}

fn is_eligible(videos: &Vec<VideoItem>, id: &str) -> (r: bool)
    ensures
        r == eligible(video_models(videos@), id@),
{
    let n: usize = videos.len();
    let ghost all = video_models(videos@);
    let mut i: usize = 0;
    while i < n
        invariant
            n == videos@.len(),
            all == video_models(videos@),
            i <= n,
            forall|j: int| 0 <= j < i ==> !(#[trigger] all[j].id == id@ && uploadable(all[j])),
        decreases n - i,
    {
        assert(all[i as int] == videos@[i as int]@);
        if same_text(videos[i].id.as_str(), id) && is_uploadable(&videos[i]) {
            assert(all[i as int].id == id@ && uploadable(all[i as int]));
            return true;
        }
        i = i + 1;
    }
    false
}

/// What became of a wish to upload a recording.
#[derive(Debug)]
pub enum Enqueued {
    /// It cannot be uploaded; nothing has changed.
    Refused,
    /// It is in the queue. A worker is to be started where none is at it.
    Queued { start_worker: bool, shown: Option<VideoItem> },
}

/// A queue with an id at its end, if it was not in it before, and a worker at it.
pub open spec fn with_id(q: QueueModel, id: Seq<char>) -> QueueModel {
    QueueModel {
        ids: if q.ids.contains(id) {
            q.ids
        } else {
            q.ids.push(id)
        },
        uploading: true,
    }
}

impl UploadQueue {
    /// Nothing waits.
    pub fn new() -> (r: Self)
        ensures
            r@ == (QueueModel { ids: Seq::empty(), uploading: false }),
    {
        let q = UploadQueue { ids: VecDeque::new(), uploading: false };
        assert(q@.ids =~= Seq::<Seq<char>>::empty());
        q
    }

    fn holds(&self, id: &str) -> (r: bool)
        ensures
            r == self@.ids.contains(id@),
    {
        let n: usize = self.ids.len();
        let mut i: usize = 0;
        while i < n
            invariant
                n == self.ids@.len(),
                i <= n,
                forall|j: int| 0 <= j < i ==> self@.ids[j] != id@,
            decreases n - i,
        {
            assert(self@.ids[i as int] == self.ids@[i as int]@);
            if same_text(self.ids[i].as_str(), id) {
                return true;
            }
            i = i + 1;
        }
        assert(self@.ids.len() == self.ids@.len());
        false
    }

    /// Puts an id at the end.
    pub fn requeue(&mut self, id: String)
        ensures
            final(self)@ == (QueueModel { ids: old(self)@.ids.push(id@), ..old(self)@ }),
    {
        self.ids.push_back(id);
        assert(self@.ids =~= old(self)@.ids.push(id@));
    }

    /// Puts an id at the end if it is not in the queue yet, with a worker at it. Whether
    /// that worker is still to be started.
    fn take_id(&mut self, id: &str) -> (r: bool)
        ensures
            final(self)@ == with_id(old(self)@, id@),
            r == !old(self)@.uploading,
    {
        if !self.holds(id) {
            self.requeue(id.to_owned());
        }
        let start_worker: bool = !self.uploading;
        self.uploading = true;
        start_worker
    }

    /// Drops everything that waits; whether a worker is at it does not change.
    pub fn clear(&mut self)
        ensures
            final(self)@ == (QueueModel { ids: Seq::empty(), ..old(self)@ }),
    {
        self.ids.clear();
        assert(self@.ids =~= Seq::<Seq<char>>::empty());
    }

    /// The worker stops; what waits stays.
    pub fn stop_worker(&mut self)
        ensures
            final(self)@ == (QueueModel { uploading: false, ..old(self)@ }),
    {
        self.uploading = false;
    }
}

/// The user lets uploads wait.
pub fn pause_uploads(control: &mut u8)
    ensures
        *final(control) == PAUSE,
{
    *control = PAUSE;
}

/// The user lets uploads go on.
pub fn resume_uploads(control: &mut u8)
    ensures
        *final(control) == RUN,
{
    *control = RUN;
}

/// The user wants to upload a recording. Only one that is matched and not uploaded yet is
/// taken, and at most once. Uploads then run, even if they were paused or cancelled.
pub fn enqueue_upload(
    videos: &mut Vec<VideoItem>,
    queue: &mut UploadQueue,
    control: &mut u8,
    id: &str,
) -> (r: Enqueued)
    ensures
        ({
            let was = video_models(old(videos)@);
            if eligible(was, id@) {
                &&& *final(control) == RUN
                &&& final(queue)@ == with_id(old(queue)@, id@)
                &&& video_models(final(videos)@) == changed_in(was, id@, ChangeModel::Begin)
                &&& r matches Enqueued::Queued { start_worker, shown } && start_worker
                    == !old(queue)@.uploading && opt_video(shown) == shown_by(
                    was,
                    id@,
                    ChangeModel::Begin,
                )
            } else {
                &&& r is Refused
                &&& *final(queue) == *old(queue)
                &&& *final(videos) == *old(videos)
                &&& *final(control) == *old(control)
            }
        }),
{
    if !is_eligible(videos, id) {
        return Enqueued::Refused;
    }
    *control = RUN;
    let start_worker: bool = queue.take_id(id);
    let shown = update_video(videos, id, Change::Begin);
    Enqueued::Queued { start_worker, shown }
}

/// What the worker does next.
#[derive(Debug)]
pub enum WorkerStep {
    /// Nothing is left to do.
    Stop,
    /// The next id in the queue calls for nothing.
    Skip,
    /// Upload this recording; what the list shows of it now, and what to note.
    Upload { video: VideoItem, shown: Option<VideoItem>, note: Note },
}

/// What a `WorkerStep` holds.
pub enum WorkerModel {
    Stop,
    Skip,
    Upload { video: VideoModel, shown: Option<VideoModel>, note: NoteModel },
}

impl View for WorkerStep {
    type V = WorkerModel;

    open spec fn view(&self) -> WorkerModel {
        match self {
            WorkerStep::Stop => WorkerModel::Stop,
            WorkerStep::Skip => WorkerModel::Skip,
            WorkerStep::Upload { video, shown, note } => WorkerModel::Upload {
                video: video@,
                shown: opt_video(*shown),
                note: note@,
            },
        }
    }
}

/// The list of recordings and the queue.
#[verifier::ext_equal]
pub struct Board {
    pub videos: Seq<VideoModel>,
    pub queue: QueueModel,
}

/// The message that an upload begins.
pub open spec fn uploading_message(filename: Seq<char>) -> Seq<char> {
    "[Video] Uploading "@ + filename + "…"@
}

/// What the worker does next, and the board behind it.
pub open spec fn worker_next(b: Board, control: u8) -> (WorkerModel, Board) {
    if control == CANCEL {
        (
            WorkerModel::Stop,
            Board { queue: QueueModel { ids: Seq::empty(), uploading: false }, ..b },
        )
    } else if b.queue.ids.len() == 0 {
        (WorkerModel::Stop, Board { queue: QueueModel { uploading: false, ..b.queue }, ..b })
    } else {
        let id = b.queue.ids[0];
        let rest = QueueModel { ids: b.queue.ids.skip(1), ..b.queue };
        match position(b.videos, id) {
            Some(i) => if uploadable(b.videos[i]) {
                (
                    WorkerModel::Upload {
                        video: b.videos[i],
                        shown: shown_by(b.videos, id, ChangeModel::Begin),
                        note: info(uploading_message(b.videos[i].filename)),
                    },
                    Board { videos: changed_in(b.videos, id, ChangeModel::Begin), queue: rest },
                )
            } else {
                (WorkerModel::Skip, Board { queue: rest, ..b })
            },
            None => (WorkerModel::Skip, Board { queue: rest, ..b }),
        }
    }
}

/// What a list and a queue hold together.
pub open spec fn board(videos: Seq<VideoItem>, queue: UploadQueue) -> Board {
    Board { videos: video_models(videos), queue: queue@ }
}

/// What the worker does next: it takes the first id of the queue, passes over what has
/// vanished or is on the server already, and stops when the queue is empty or the user
/// has cancelled.
pub fn next_upload(videos: &mut Vec<VideoItem>, queue: &mut UploadQueue, control: u8) -> (r: WorkerStep)
    ensures
        (r@, board(final(videos)@, *final(queue))) == worker_next(
            board(old(videos)@, *old(queue)),
            control,
        ),
{
    let ghost b = board(videos@, *queue);
    if control == CANCEL {
        queue.clear();
        queue.uploading = false;
        return WorkerStep::Stop;
    }
    let ghost before = queue.ids@;
    let id = match queue.ids.pop_front() {
        Some(id) => id,
        None => {
            assert(texts(before).len() == before.len());
            queue.uploading = false;
            return WorkerStep::Stop;
        },
    };
    proof {
        assert(texts(before).len() == before.len());
        assert(texts(before)[0] == before[0]@);
        assert(queue@.ids =~= b.queue.ids.skip(1));
    }
    match find_video(videos, id.as_str()) {
        Some(i) => {
            assert(b.videos[i as int] == videos@[i as int]@);
            if is_uploadable(&videos[i]) {
                let video = videos[i].clone();
                let shown = update_video(videos, id.as_str(), Change::Begin);
                let mut message = "[Video] Uploading ".to_owned();
                message.append(video.filename.as_str());
                message.append("…");
                assert(message@ =~= uploading_message(video.filename@));
                WorkerStep::Upload { video, shown, note: Note { level: "info", message } }
            } else {
                WorkerStep::Skip
            }
        },
        None => WorkerStep::Skip,
    }
}

/// What the worker does after an upload.
#[derive(Debug)]
pub enum Onward {
    /// Take the next.
    Next,
    /// Take the next after that many milliseconds, or sooner where the user cancels.
    After(u64),
    Stop,
}

/// What an upload that is over calls for.
#[derive(Debug)]
pub struct Aftermath {
    pub note: Option<Note>,
    /// What the list shows of the recording now.
    pub shown: Option<VideoItem>,
    pub onward: Onward,
}

/// What an `Aftermath` holds.
pub struct AftermathModel {
    pub note: Option<NoteModel>,
    pub shown: Option<VideoModel>,
    pub onward: Onward,
}

impl View for Aftermath {
    type V = AftermathModel;

    open spec fn view(&self) -> AftermathModel {
        AftermathModel {
            note: match self.note {
                Some(n) => Some(n@),
                None => None,
            },
            shown: opt_video(self.shown),
            onward: self.onward,
        }
    }
}

/// How long to wait before a recording that has not settled is tried again, in
/// milliseconds.
pub const UNSETTLED_MS: u64 = 1500;

/// The name of the guild that a recording is matched to.
pub open spec fn guild_of(v: VideoModel) -> Seq<char> {
    match v.matched {
        Some(m) => m.guild_name,
        None => Seq::empty(),
    }
}

/// The message that a recording was uploaded.
pub open spec fn uploaded_message(v: VideoModel) -> Seq<char> {
    "[Video] Uploaded "@ + v.filename + " to "@ + guild_of(v)
}

/// The message that an upload failed.
pub open spec fn failed_message(filename: Seq<char>, e: Seq<char>) -> Seq<char> {
    "[Video] Upload failed for "@ + filename + ": "@ + e
}

/// What an upload that is over calls for, and the board behind it.
pub open spec fn aftermath(b: Board, video: VideoModel, result: Result<UploadOutcome, String>) -> (
    AftermathModel,
    Board,
) {
    let c = match result {
        Ok(UploadOutcome::Done(id)) => ChangeModel::Finished(id@),
        Ok(UploadOutcome::Cancelled) => ChangeModel::Revert,
        Ok(UploadOutcome::NotReady) => ChangeModel::Unsettled,
        Err(e) => ChangeModel::Failed(e@),
    };
    let videos = changed_in(b.videos, video.id, c);
    let shown = shown_by(b.videos, video.id, c);
    match result {
        Ok(UploadOutcome::Done(_)) => (
            AftermathModel {
                note: Some(info(uploaded_message(video))),
                shown,
                onward: Onward::Next,
            },
            Board { videos, ..b },
        ),
        Ok(UploadOutcome::Cancelled) => (
            AftermathModel {
                note: Some(info("[Video] Uploads cancelled"@)),
                shown,
                onward: Onward::Stop,
            },
            Board { videos, queue: QueueModel { ids: Seq::empty(), uploading: false } },
        ),
        Ok(UploadOutcome::NotReady) => (
            AftermathModel { note: None, shown, onward: Onward::After(UNSETTLED_MS) },
            Board { videos, queue: QueueModel { ids: b.queue.ids.push(video.id), ..b.queue } },
        ),
        Err(e) => (
            AftermathModel {
                note: Some(error(failed_message(video.filename, e@))),
                shown,
                onward: Onward::Next,
            },
            Board { videos, ..b },
        ),
    }
}

/// The upload of `video` is over. A cancellation drops the rest of the queue; a recording
/// that has not settled is put at its end; a failure concerns that recording alone.
pub fn upload_over(
    videos: &mut Vec<VideoItem>,
    queue: &mut UploadQueue,
    video: &VideoItem,
    result: Result<UploadOutcome, String>,
) -> (r: Aftermath)
    ensures
        (r@, board(final(videos)@, *final(queue))) == aftermath(
            board(old(videos)@, *old(queue)),
            video@,
            result,
        ),
{
    match result {
        Ok(UploadOutcome::Done(id)) => {
            let mut message = "[Video] Uploaded ".to_owned();
            message.append(video.filename.as_str());
            message.append(" to ");
            match &video.matched {
                Some(m) => {
                    message.append(m.guild_name.as_str());
                },
                None => {},
            }
            assert(message@ =~= uploaded_message(video@));
            let shown = update_video(videos, video.id.as_str(), Change::Finished(id));
            Aftermath {
                note: Some(Note { level: "info", message }),
                shown,
                onward: Onward::Next,
            }
        },
        Ok(UploadOutcome::Cancelled) => {
            queue.clear();
            queue.uploading = false;
            let shown = update_video(videos, video.id.as_str(), Change::Revert);
            let message = "[Video] Uploads cancelled".to_owned();
            Aftermath {
                note: Some(Note { level: "info", message }),
                shown,
                onward: Onward::Stop,
            }
        },
        Ok(UploadOutcome::NotReady) => {
            let shown = update_video(videos, video.id.as_str(), Change::Unsettled);
            queue.requeue(video.id.clone());
            Aftermath { note: None, shown, onward: Onward::After(UNSETTLED_MS) }
        },
        Err(e) => {
            let mut message = "[Video] Upload failed for ".to_owned();
            message.append(video.filename.as_str());
            message.append(": ");
            message.append(e.as_str());
            assert(message@ =~= failed_message(video.filename@, e@));
            let shown = update_video(videos, video.id.as_str(), Change::Failed(e));
            Aftermath {
                note: Some(Note { level: "error", message }),
                shown,
                onward: Onward::Next,
            }
        },
    }
}

/// The ids of the recordings that are shown as being uploaded, in order.
pub open spec fn uploading_ids(videos: Seq<VideoModel>) -> Seq<Seq<char>>
    decreases videos.len(),
{
    if videos.len() == 0 {
        Seq::empty()
    } else if videos.last().status == "uploading"@ {
        uploading_ids(videos.drop_last()).push(videos.last().id)
    } else {
        uploading_ids(videos.drop_last())
    }
}

/// A list behind the calling off of the uploads with some ids.
pub open spec fn reverted(videos: Seq<VideoModel>, ids: Seq<Seq<char>>) -> Seq<VideoModel>
    decreases ids.len(),
{
    if ids.len() == 0 {
        videos
    } else {
        changed_in(reverted(videos, ids.drop_last()), ids.last(), ChangeModel::Revert)
    }
}

/// What the list shows of each recording whose upload is called off.
pub open spec fn shown_reverted(videos: Seq<VideoModel>, ids: Seq<Seq<char>>) -> Seq<VideoModel>
    decreases ids.len(),
{
    if ids.len() == 0 {
        Seq::empty()
    } else {
        let before = shown_reverted(videos, ids.drop_last());
        match shown_by(reverted(videos, ids.drop_last()), ids.last(), ChangeModel::Revert) {
            Some(v) => before.push(v),
            None => before,
        }
    }
}

fn find_uploading(videos: &Vec<VideoItem>) -> (r: Vec<String>)
    ensures
        texts(r@) == uploading_ids(video_models(videos@)),
{
    let n: usize = videos.len();
    let ghost all = video_models(videos@);
    let mut out: Vec<String> = Vec::new();
    let mut i: usize = 0;
    assert(texts(out@) =~= Seq::<Seq<char>>::empty());
    while i < n
        invariant
            n == videos@.len(),
            all == video_models(videos@),
            i <= n,
            texts(out@) == uploading_ids(all.take(i as int)),
        decreases n - i,
    {
        proof {
            assert(all.take(i + 1).drop_last() =~= all.take(i as int));
            assert(all.take(i + 1).last() == videos@[i as int]@);
        }
        if same_text(videos[i].status.as_str(), "uploading") {
            let id = videos[i].id.clone();
            assert(texts(out@.push(id)) =~= texts(out@).push(id@));
            out.push(id);
        }
        i = i + 1;
    }
    assert(all.take(n as int) =~= all);
    out
}

/// The user cancels all uploads: nothing waits any more, and every recording that is
/// shown as being uploaded can be uploaded again. What the list shows of these now.
pub fn cancel_uploads(
    videos: &mut Vec<VideoItem>,
    queue: &mut UploadQueue,
    control: &mut u8,
) -> (r: Vec<VideoItem>)
    ensures
        *final(control) == CANCEL,
        final(queue)@ == (QueueModel { ids: Seq::empty(), ..old(queue)@ }),
        video_models(final(videos)@) == reverted(
            video_models(old(videos)@),
            uploading_ids(video_models(old(videos)@)),
        ),
        video_models(r@) == shown_reverted(
            video_models(old(videos)@),
            uploading_ids(video_models(old(videos)@)),
        ),
{
    *control = CANCEL;
    queue.clear();
    let ghost was = video_models(videos@);
    let ids = find_uploading(videos);
    let n: usize = ids.len();
    let mut out: Vec<VideoItem> = Vec::new();
    let mut i: usize = 0;
    assert(texts(ids@).take(0) =~= Seq::<Seq<char>>::empty());
    assert(video_models(out@) =~= Seq::<VideoModel>::empty());
    while i < n
        invariant
            n == ids@.len(),
            texts(ids@) == uploading_ids(was),
            i <= n,
            video_models(videos@) == reverted(was, texts(ids@).take(i as int)),
            video_models(out@) == shown_reverted(was, texts(ids@).take(i as int)),
        decreases n - i,
    {
        proof {
            let t = texts(ids@);
            assert(t.take(i + 1).drop_last() =~= t.take(i as int));
            assert(t.take(i + 1).last() == ids@[i as int]@);
        }
        match update_video(videos, ids[i].as_str(), Change::Revert) {
            Some(item) => {
                assert(video_models(out@.push(item)) =~= video_models(out@).push(item@));
                out.push(item);
            },
            None => {},
        }
        i = i + 1;
    }
    assert(texts(ids@).take(n as int) =~= texts(ids@));
    out
}

/// A pull that the user has picked for a recording.
#[derive(Debug)]
pub struct ManualMatchInput {
    pub guild_id: String,
    pub guild_name: String,
    pub pull_id: String,
    pub boss_name: String,
    pub pull_number: i64,
    pub is_kill: bool,
    pub date: String,
    pub start_time: String,
}

/// The match that a pick makes: the recording counts as the user's own, may be uploaded,
/// and is not on the server.
pub open spec fn picked(choice: ManualMatchInput) -> MatchedModel {
    MatchedModel {
        guild_id: choice.guild_id@,
        guild_name: choice.guild_name@,
        pull_id: choice.pull_id@,
        boss_name: choice.boss_name@,
        pull_number: choice.pull_number,
        is_kill: choice.is_kill,
        date: choice.date@,
        start_time: choice.start_time@,
        is_own_pov: true,
        can_upload: true,
        existing_video_id: None,
    }
}

/// The message that the user has assigned a recording to a pull.
pub open spec fn picked_message(filename: Seq<char>, boss: Seq<char>, pull_number: int) -> Seq<char> {
    "Manually matched "@ + filename + " → "@ + boss + " #"@ + decimal(pull_number)
}

/// What a pick calls for.
#[derive(Debug)]
pub struct Picked {
    /// What the list shows of the recording now.
    pub shown: VideoItem,
    pub note: Note,
    /// Whether a worker is to be started, because none is at the queue.
    pub start_worker: bool,
}

/// What the user wants of the uploads once a recording is picked: what they wanted before,
/// but that a cancellation is over, since it would call off the recording.
pub open spec fn wanted_after_pick(control: u8) -> u8 {
    if control == CANCEL {
        RUN
    } else {
        control
    }
}

/// The user assigns a recording to a pull, and it is put into the queue; a pause goes on.
/// Nothing happens where there is no such recording.
pub fn manual_match(
    videos: &mut Vec<VideoItem>,
    queue: &mut UploadQueue,
    control: &mut u8,
    id: &str,
    choice: ManualMatchInput,
) -> (r: Option<Picked>)
    ensures
        ({
            let was = video_models(old(videos)@);
            let c = ChangeModel::Assigned(picked(choice));
            &&& video_models(final(videos)@) == changed_in(was, id@, c)
            &&& match shown_by(was, id@, c) {
                Some(v) => {
                    &&& final(queue)@ == with_id(old(queue)@, id@)
                    &&& *final(control) == wanted_after_pick(*old(control))
                    &&& r matches Some(p) && p.shown@ == v && p.note@ == info(
                        picked_message(v.filename, choice.boss_name@, choice.pull_number as int),
                    ) && p.start_worker == !old(queue)@.uploading
                },
                None => {
                    &&& r is None
                    &&& *final(queue) == *old(queue)
                    &&& *final(control) == *old(control)
                },
            }
        }),
{
    let boss = choice.boss_name.clone();
    let pull_number: i64 = choice.pull_number;
    let m = MatchedInfo {
        guild_id: choice.guild_id,
        guild_name: choice.guild_name,
        pull_id: choice.pull_id,
        boss_name: choice.boss_name,
        pull_number: choice.pull_number,
        is_kill: choice.is_kill,
        date: choice.date,
        start_time: choice.start_time,
        is_own_pov: true,
        can_upload: true,
        existing_video_id: None,
    };
    match update_video(videos, id, Change::Assigned(m)) {
        Some(item) => {
            let mut message = "Manually matched ".to_owned();
            message.append(item.filename.as_str());
            message.append(" → ");
            message.append(boss.as_str());
            message.append(" #");
            message.append(i64_text(pull_number).as_str());
            assert(message@ =~= picked_message(item.filename@, boss@, pull_number as int));
            if *control == CANCEL {
                *control = RUN;
            }
            let start_worker: bool = queue.take_id(id);
            Some(Picked { shown: item, note: Note { level: "info", message }, start_worker })
        },
        None => None,
    }
}

/// A recording that the user has assigned to a pull is uploaded to that pull when its turn
/// comes, if nothing happens to it before.
pub proof fn picked_recordings_are_uploaded(b: Board, id: Seq<char>, choice: ManualMatchInput, control: u8)
    requires
        position(b.videos, id) is Some,
        b.queue.ids.len() == 0,
    ensures
        ({
            let after = Board {
                videos: changed_in(b.videos, id, ChangeModel::Assigned(picked(choice))),
                queue: with_id(b.queue, id),
            };
            worker_next(after, wanted_after_pick(control)).0 matches WorkerModel::Upload { video, .. }
                && video.id == id
                && video.matched == Some(picked(choice))
        }),
{
    let videos = changed_in(b.videos, id, ChangeModel::Assigned(picked(choice)));
    lemma_position(b.videos, id);
    let i = position(b.videos, id)->0;
    assert forall|j: int| 0 <= j < i implies videos[j].id != id by {
        assert(videos[j] == b.videos[j]);
    }
    lemma_position_unique(videos, id, i);
    assert(with_id(b.queue, id).ids =~= seq![id]);
}

/// A recording as it is taken over from an earlier run: an upload that was cut short is
/// none any more.
pub open spec fn restored(v: VideoModel) -> VideoModel {
    if v.status == "uploading"@ {
        VideoModel {
            status: if v.matched is Some {
                "matched"@
            } else {
                "pending"@
            },
            uploaded_bytes: None,
            ..v
        }
    } else {
        v
    }
}

/// The list of recordings as it is taken over from an earlier run.
pub fn load_videos(videos: Vec<VideoItem>) -> (r: Vec<VideoItem>)
    ensures
        video_models(r@) == video_models(videos@).map_values(|v: VideoModel| restored(v)),
{
    let n: usize = videos.len();
    let mut out: Vec<VideoItem> = Vec::new();
    let mut i: usize = 0;
    while i < n
        invariant
            n == videos@.len(),
            i <= n,
            out@.len() == i,
            forall|j: int| 0 <= j < i ==> (#[trigger] out@[j])@ == restored(videos@[j]@),
        decreases n - i,
    {
        let mut v = videos[i].clone();
        if same_text(v.status.as_str(), "uploading") {
            v.status = if v.matched.is_some() {
                "matched".to_owned()
            } else {
                "pending".to_owned()
            };
            v.uploaded_bytes = None;
        }
        assert(v@ == restored(videos@[i as int]@));
        out.push(v);
        i = i + 1;
    }
    assert(video_models(out@) =~= video_models(videos@).map_values(|v: VideoModel| restored(v)));
    out
}

/// Nothing waits in the queue without a worker to see to it: every step keeps that, and
/// a recording that is taken up is taken up by a worker.
pub proof fn nothing_waits_unattended(b: Board, id: Seq<char>, control: u8)
    requires
        b.queue.attended(),
    ensures
        with_id(b.queue, id).attended(),
        with_id(b.queue, id).uploading,
        worker_next(b, control).1.queue.attended(),
        worker_next(b, control).0 is Upload ==> worker_next(b, control).1.queue.uploading,
        worker_next(b, control).0 is Stop ==> !worker_next(b, control).1.queue.uploading
            && worker_next(b, control).1.queue.ids.len() == 0,
{
}

/// An upload that is over leaves nothing in the queue without a worker either.
pub proof fn nothing_is_stranded(b: Board, video: VideoModel, result: Result<UploadOutcome, String>)
    requires
        b.queue.uploading,
    ensures
        aftermath(b, video, result).1.queue.attended(),
        aftermath(b, video, result).0.onward is Stop <==> !aftermath(b, video, result).1.queue.uploading,
{
}

/// A recording waits in the queue at most once, however often the user asks for it.
pub proof fn queued_at_most_once(q: QueueModel, id: Seq<char>)
    requires
        q.ids.no_duplicates(),
    ensures
        with_id(q, id).ids.no_duplicates(),
        with_id(q, id).ids.contains(id),
        with_id(with_id(q, id), id) == with_id(q, id),
{
    let ids = with_id(q, id).ids;
    if !q.ids.contains(id) {
        assert(ids[q.ids.len() as int] == id);
        assert forall|i: int, j: int| 0 <= i < ids.len() && 0 <= j < ids.len() && i != j implies ids[i]
            != ids[j] by {
            if i < q.ids.len() && j < q.ids.len() {
                assert(q.ids[i] != q.ids[j]);
            } else if i < q.ids.len() {
                assert(q.ids[i] == ids[i]);
            } else {
                assert(q.ids[j] == ids[j]);
            }
        }
    }
}

/// Only a recording that is matched and not on the server is uploaded, and once it has
/// been uploaded it is on the server.
pub proof fn nothing_is_uploaded_twice(b: Board, control: u8, v: VideoModel, id: Seq<char>)
    ensures
        worker_next(b, control).0 matches WorkerModel::Upload { video, .. } ==> uploadable(video),
        !uploadable(changed(v, ChangeModel::Finished(id))),
{
}

/// Recordings are uploaded one by one in the order in which the user asked for them: a
/// new one goes to the end of the queue, and the worker takes the one at its head.
pub proof fn first_come_first_served(b: Board, control: u8, id: Seq<char>)
    ensures
        !b.queue.ids.contains(id) ==> with_id(b.queue, id).ids == b.queue.ids.push(id),
        b.queue.ids.contains(id) ==> with_id(b.queue, id).ids == b.queue.ids,
        worker_next(b, control).0 matches WorkerModel::Upload { video, .. } ==> {
            &&& b.queue.ids.len() > 0
            &&& video.id == b.queue.ids[0]
            &&& worker_next(b, control).1.queue.ids == b.queue.ids.skip(1)
        },
{
    if b.queue.ids.len() > 0 {
        lemma_position(b.videos, b.queue.ids[0]);
    }
}

/// A change concerns one recording: the list keeps its length, every id and path stays in
/// its place, and every other recording stays as it is.
pub proof fn changes_concern_one(videos: Seq<VideoModel>, id: Seq<char>, c: ChangeModel, j: int)
    requires
        0 <= j < videos.len(),
    ensures
        changed_in(videos, id, c).len() == videos.len(),
        changed_in(videos, id, c)[j].id == videos[j].id,
        changed_in(videos, id, c)[j].path == videos[j].path,
        changed_in(videos, id, c)[j].filename == videos[j].filename,
        videos[j].id != id ==> changed_in(videos, id, c)[j] == videos[j],
{
    lemma_position(videos, id);
}

/// Whether no two recordings have the same id.
pub open spec fn ids_distinct(videos: Seq<VideoModel>) -> bool {
    forall|i: int, j: int|
        0 <= i < videos.len() && 0 <= j < videos.len() && i != j ==> #[trigger] videos[i].id
            != #[trigger] videos[j].id
}

/// A recording whose upload, if any, is called off.
pub open spec fn called_off(v: VideoModel) -> VideoModel {
    if v.status == "uploading"@ {
        changed(v, ChangeModel::Revert)
    } else {
        v
    }
}

pub(crate) proof fn lemma_reverted(videos: Seq<VideoModel>, k: int)
    requires
        ids_distinct(videos),
        0 <= k <= videos.len(),
    ensures
        reverted(videos, uploading_ids(videos.take(k))) == Seq::new(
            videos.len(),
            |j: int| if j < k {
                called_off(videos[j])
            } else {
                videos[j]
            },
        ),
    decreases k,
{
    let want = Seq::new(
        videos.len(),
        |j: int| if j < k {
            called_off(videos[j])
        } else {
            videos[j]
        },
    );
    if k == 0 {
        assert(uploading_ids(videos.take(0)) =~= Seq::<Seq<char>>::empty());
        assert(want =~= videos);
    } else {
        lemma_reverted(videos, k - 1);
        let t = videos.take(k);
        assert(t.drop_last() =~= videos.take(k - 1));
        assert(t.last() == videos[k - 1]);
        let ids = uploading_ids(videos.take(k - 1));
        let before = reverted(videos, ids);
        if videos[k - 1].status == "uploading"@ {
            assert(uploading_ids(t) == ids.push(videos[k - 1].id));
            assert(ids.push(videos[k - 1].id).drop_last() =~= ids);
            assert forall|j: int| 0 <= j < k - 1 implies before[j].id != videos[k - 1].id by {
                assert(before[j].id == videos[j].id);
            }
            lemma_position_unique(before, videos[k - 1].id, k - 1);
            assert(before.update(k - 1, changed(before[k - 1], ChangeModel::Revert)) =~= want);
        } else {
            assert(before =~= want);
        }
    }
}

/// Cancelling calls off every upload that is shown, and touches nothing else: no
/// recording is shown as being uploaded any more.
pub proof fn cancelling_calls_off_every_upload(videos: Seq<VideoModel>)
    requires
        ids_distinct(videos),
    ensures
        reverted(videos, uploading_ids(videos)) == videos.map_values(|v: VideoModel| called_off(v)),
        forall|j: int|
            0 <= j < videos.len() ==> (#[trigger] reverted(videos, uploading_ids(videos))[j]).status
                != "uploading"@,
{
    reveal_strlit("matched");
    reveal_strlit("uploading");
    assert("matched"@.len() != "uploading"@.len());
    lemma_reverted(videos, videos.len() as int);
    assert(videos.take(videos.len() as int) =~= videos);
    assert(reverted(videos, uploading_ids(videos)) =~= videos.map_values(
        |v: VideoModel| called_off(v),
    ));
}

/// After a restart no recording is shown as being uploaded.
pub proof fn no_upload_survives_a_restart(v: VideoModel)
    ensures
        restored(v).status != "uploading"@,
        restored(v).id == v.id,
        restored(v).matched == v.matched,
        v.status != "uploading"@ ==> restored(v) == v,
{
    reveal_strlit("matched");
    reveal_strlit("pending");
    reveal_strlit("uploading");
    assert("matched"@.len() != "uploading"@.len());
    assert("pending"@.len() != "uploading"@.len());
}

/// An upload that is over is not shown as one any more.
pub proof fn uploads_come_to_an_end(b: Board, video: VideoModel, result: Result<UploadOutcome, String>)
    ensures
        aftermath(b, video, result).0.shown matches Some(v) ==> v.status != "uploading"@,
{
    reveal_strlit("matched");
    reveal_strlit("pending");
    reveal_strlit("uploading");
    reveal_strlit("uploaded");
    reveal_strlit("error");
    assert("matched"@.len() != "uploading"@.len());
    assert("pending"@.len() != "uploading"@.len());
    assert("uploaded"@.len() != "uploading"@.len());
    assert("error"@.len() != "uploading"@.len());
}

} // verus!
