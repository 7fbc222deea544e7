//! The upload of one recording: whether it can begin, which bytes go into which part,
//! and how it ends.
use vstd::prelude::*;
use vstd::string::*;

use crate::api::{
    ApiClient, CreateUpload, Request, RequestModel, abort_fields, complete_fields, part_models,
};
use crate::part::{
    OutcomeModel, PartOutcome, Progress, ProgressEvent, begun_at, progress_after, sent_since,
    shown_progress_stays_within,
};
use crate::scan::{VideoItem, VideoModel};
use crate::text::{opt_text, texts};
use crate::util::{is_settled, settled_at};

verus! {

/// How the upload of a recording went, where it did not fail.
#[derive(Debug)]
pub enum UploadOutcome {
    /// The server has it under this id.
    Done(String),
    Cancelled,
    /// The file has changed since it was matched.
    NotReady,
}

/// What an `UploadOutcome` holds.
pub enum UploadModel {
    Done(Seq<char>),
    Cancelled,
    NotReady,
}

impl View for UploadOutcome {
    type V = UploadModel;

    open spec fn view(&self) -> UploadModel {
        match self {
            UploadOutcome::Done(id) => UploadModel::Done(id@),
            UploadOutcome::Cancelled => UploadModel::Cancelled,
            UploadOutcome::NotReady => UploadModel::NotReady,
        }
    }
}

/// Whether an upload can begin.
#[derive(Debug)]
pub enum Prepared {
    /// It can, for this pull, character and realm, with a file of that many bytes and the
    /// recorder's metadata of it.
    Ready {
        pull_id: String,
        player_name: String,
        realm: Option<String>,
        size: u64,
        metadata: String,
    },
    /// The file has not settled.
    NotReady,
    Failed(String),
}

/// What a `Prepared` holds.
pub enum PreparedModel {
    Ready {
        pull_id: Seq<char>,
        player_name: Seq<char>,
        realm: Option<Seq<char>>,
        size: u64,
        metadata: Seq<char>,
    },
    NotReady,
    Failed(Seq<char>),
}

impl View for Prepared {
    type V = PreparedModel;

    open spec fn view(&self) -> PreparedModel {
        match self {
            Prepared::Ready { pull_id, player_name, realm, size, metadata } => PreparedModel::Ready {
                pull_id: pull_id@,
                player_name: player_name@,
                realm: match realm {
                    Some(s) => Some(s@),
                    None => None,
                },
                size: *size,
                metadata: metadata@,
            },
            Prepared::NotReady => PreparedModel::NotReady,
            Prepared::Failed(e) => PreparedModel::Failed(e@),
        }
    }
}

/// Whether the upload of a recording can begin. `size` is the size of the file, `sidecar`
/// the text of its sidecar, or why that cannot be read, if there is one.
pub open spec fn preparation(
    video: VideoModel,
    size: Result<u64, String>,
    now: int,
    mtime: int,
    sidecar: Option<Result<String, String>>,
) -> PreparedModel {
    match (video.matched, video.player_name, size) {
        (None, _, _) => PreparedModel::Failed("video has no match"@),
        (Some(_), None, _) => PreparedModel::Failed("video has no player name"@),
        (Some(_), Some(_), Err(e)) => PreparedModel::Failed(e@),
        (Some(m), Some(player_name), Ok(size)) => if !settled_at(now, mtime) {
            PreparedModel::NotReady
        } else {
            match sidecar {
                None => PreparedModel::Failed("sidecar disappeared"@),
                Some(Err(e)) => PreparedModel::Failed(e@),
                Some(Ok(text)) => PreparedModel::Ready {
                    pull_id: m.pull_id,
                    player_name,
                    realm: video.player_realm,
                    size,
                    metadata: text@,
                },
            }
        },
    }
}

/// Whether the upload of a recording can begin: it is matched to a pull and a character,
/// its file can be read and is still finished, and so is its sidecar.
pub fn prepare_upload(
    video: &VideoItem,
    size: Result<u64, String>,
    now_ms: u128,
    mtime_ms: u128,
    sidecar: Option<Result<String, String>>,
) -> (r: Prepared)
    ensures
        r@ == preparation(video@, size, now_ms as int, mtime_ms as int, sidecar),
{
    let matched = match &video.matched {
        Some(m) => m,
        None => return Prepared::Failed("video has no match".to_owned()),
    };
    let player_name = match &video.player_name {
        Some(p) => p.clone(),
        None => return Prepared::Failed("video has no player name".to_owned()),
    };
    let size: u64 = match size {
        Ok(n) => n,
        Err(e) => return Prepared::Failed(e),
    };
    if !is_settled(now_ms, mtime_ms) {
        return Prepared::NotReady;
    }
    match sidecar {
        None => Prepared::Failed("sidecar disappeared".to_owned()),
        Some(Err(e)) => Prepared::Failed(e),
        Some(Ok(text)) => Prepared::Ready {
            pull_id: matched.pull_id.clone(),
            player_name,
            realm: video.player_realm.clone(),
            size,
            metadata: text,
        },
    }
}

/// Where part `i` of a file begins and how long it is, where the file reaches that far.
pub open spec fn part_at(size: int, part_size: int, i: int) -> Option<(int, int)> {
    let offset = i * part_size;
    if offset >= size {
        None
    } else if size - offset < part_size {
        Some((offset, size - offset))
    } else {
        Some((offset, part_size))
    }
}

/// Where part `i` of a file begins and how long it is. A part list that is longer than
/// the file needs comes to an end here, however long it is.
pub fn part_range(size: u64, part_size: u64, i: usize) -> (r: Option<(u64, u64)>)
    ensures
        match r {
            Some((offset, len)) => part_at(size as int, part_size as int, i as int) == Some(
                (offset as int, len as int),
            ),
            None => part_at(size as int, part_size as int, i as int) is None,
        },
{
    match (i as u64).checked_mul(part_size) {
        None => None,
        Some(offset) => if offset >= size {
            None
        } else if size - offset < part_size {
            Some((offset, size - offset))
        } else {
            Some((offset, part_size))
        },
    }
}

/// Why an upload is called off. The parts that were stored are then removed.
#[derive(Debug)]
pub enum Ending {
    Cancelled,
    Failed(String),
}

/// What an `Ending` holds.
pub enum EndingModel {
    Cancelled,
    Failed(Seq<char>),
}

impl View for Ending {
    type V = EndingModel;

    open spec fn view(&self) -> EndingModel {
        match self {
            Ending::Cancelled => EndingModel::Cancelled,
            Ending::Failed(msg) => EndingModel::Failed(msg@),
        }
    }
}

/// What to do next about an upload that the server has begun.
#[derive(Debug)]
pub enum TransferStep {
    /// Send the `len` bytes from `offset` on to `url`, as part `index`.
    Put { index: usize, url: String, offset: u64, len: u64 },
    /// Every part is stored: complete the upload.
    Complete,
    /// Abort the upload.
    Abort(Ending),
}

/// What a `TransferStep` holds.
pub enum StepModel {
    Put { index: int, url: Seq<char>, offset: int, len: int },
    Complete,
    Abort(EndingModel),
}

impl View for TransferStep {
    type V = StepModel;

    open spec fn view(&self) -> StepModel {
        match self {
            TransferStep::Put { index, url, offset, len } => StepModel::Put {
                index: *index as int,
                url: url@,
                offset: *offset as int,
                len: *len as int,
            },
            TransferStep::Complete => StepModel::Complete,
            TransferStep::Abort(e) => StepModel::Abort(e@),
        }
    }
}

/// An upload that the server has begun.
#[derive(Debug)]
pub struct Transfer {
    pub size: u64,
    pub part_size: u64,
    /// Where each part goes.
    pub urls: Vec<String>,
    /// The number and the tag of each part that is stored.
    pub parts: Vec<(u32, String)>,
}

/// What a `Transfer` holds.
#[verifier::ext_equal]
pub struct TransferModel {
    pub size: int,
    pub part_size: int,
    pub urls: Seq<Seq<char>>,
    /// The number and the tag of each part that is stored.
    pub parts: Seq<(u32, Seq<char>)>,
}

impl View for Transfer {
    type V = TransferModel;

    open spec fn view(&self) -> TransferModel {
        TransferModel {
            size: self.size as int,
            part_size: self.part_size as int,
            urls: texts(self.urls@),
            parts: part_models(self.parts@),
        }
    }
}

impl TransferModel {
    /// What to do next.
    pub open spec fn next(self) -> StepModel {
        let i = self.parts.len() as int;
        if self.part_size == 0 {
            StepModel::Abort(EndingModel::Failed("server returned an invalid part size"@))
        } else if i >= self.urls.len() {
            StepModel::Complete
        } else {
            match part_at(self.size, self.part_size, i) {
                Some((offset, len)) => StepModel::Put { index: i, url: self.urls[i], offset, len },
                None => StepModel::Abort(
                    EndingModel::Failed("server returned more upload parts than the file needs"@),
                ),
            }
        }
    }

    /// The state behind the storing of one more part. Parts are numbered from one.
    pub open spec fn stored(self, tag: Seq<char>) -> TransferModel {
        TransferModel { parts: self.parts.push(((self.parts.len() + 1) as u32, tag)), ..self }
    }
}

impl Transfer {
    /// Parts are numbered from one, in order, and there are no more than places for them.
    pub open spec fn wf(self) -> bool {
        &&& self.parts@.len() <= self.urls@.len()
        &&& forall|k: int| 0 <= k < self.parts@.len() ==> (#[trigger] self.parts@[k]).0 == (k + 1) as u32
    }

    /// An upload of a file of `size` bytes that the server has begun.
    pub fn new(size: u64, part_size: u64, urls: Vec<String>) -> (r: Self)
        ensures
            r.wf(),
            r@ == (TransferModel {
                size: size as int,
                part_size: part_size as int,
                urls: texts(urls@),
                parts: Seq::empty(),
            }),
    {
        let parts: Vec<(u32, String)> = Vec::new();
        assert(part_models(parts@) =~= Seq::<(u32, Seq<char>)>::empty());
        Transfer { size, part_size, urls, parts }
    }

    /// What to do next.
    pub fn next_step(&self) -> (r: TransferStep)
        requires
            self.wf(),
        ensures
            r@ == self@.next(),
    {
        let i: usize = self.parts.len();
        assert(part_models(self.parts@).len() == self.parts@.len());
        assert(texts(self.urls@).len() == self.urls@.len());
        if self.part_size == 0 {
            TransferStep::Abort(Ending::Failed("server returned an invalid part size".to_owned()))
        } else if i >= self.urls.len() {
            TransferStep::Complete
        } else {
            match part_range(self.size, self.part_size, i) {
                Some((offset, len)) => TransferStep::Put {
                    index: i,
                    url: self.urls[i].clone(),
                    offset,
                    len,
                },
                None => TransferStep::Abort(
                    Ending::Failed(
                        "server returned more upload parts than the file needs".to_owned(),
                    ),
                ),
            }
        }
    }

    /// The part that was sent is over. Where it was not stored, the upload is aborted:
    /// the reason.
    pub fn part_over(&mut self, outcome: PartOutcome) -> (r: Option<Ending>)
        requires
            old(self).wf(),
            old(self).parts@.len() < old(self).urls@.len(),
        ensures
            final(self).wf(),
            match outcome@ {
                OutcomeModel::Done(tag) => r is None && final(self)@ == old(self)@.stored(tag),
                OutcomeModel::Cancelled => {
                    &&& r matches Some(e) && e@ == EndingModel::Cancelled
                    &&& final(self)@ == old(self)@
                },
                OutcomeModel::Failed(msg) => {
                    &&& r matches Some(e) && e@ == EndingModel::Failed(msg)
                    &&& final(self)@ == old(self)@
                },
            },
    {
        match outcome {
            PartOutcome::Done(tag) => {
                let stored: usize = self.parts.len();
                let wanted: usize = self.urls.len();
                assert(stored < wanted);
                let number: u32 = #[verifier::truncate] ((stored + 1) as u32);
                let ghost before = self.parts@;
                self.parts.push((number, tag));
                assert(part_models(self.parts@) =~= part_models(before).push((number, tag@)));
                None
            },
            PartOutcome::Cancelled => Some(Ending::Cancelled),
            PartOutcome::Failed(msg) => Some(Ending::Failed(msg)),
        }
    }
}

/// An upload that the server has begun, with what the server needs to end it.
#[derive(Debug)]
pub struct OpenUpload {
    pub pull_id: String,
    pub player_name: String,
    /// The length of the recording in seconds.
    pub duration_s: Option<u64>,
    /// The recorder's metadata of the recording.
    pub metadata: String,
    pub object_key: String,
    pub upload_id: String,
    pub storage_config_id: Option<String>,
    pub transfer: Transfer,
}

/// What to do next about an open upload.
#[derive(Debug)]
pub enum OpenStep {
    /// Send the `len` bytes from `offset` on to `url`, as part `index`.
    Put { index: usize, url: String, offset: u64, len: u64 },
    /// Complete it by this request.
    Complete(Request),
    /// Abort it by this request; it then ends so.
    Abort(Request, Ending),
}

/// What an `OpenStep` holds.
pub enum OpenModel {
    Put { index: int, url: Seq<char>, offset: int, len: int },
    Complete(RequestModel),
    Abort(RequestModel, EndingModel),
}

impl View for OpenStep {
    type V = OpenModel;

    open spec fn view(&self) -> OpenModel {
        match self {
            OpenStep::Put { index, url, offset, len } => OpenModel::Put {
                index: *index as int,
                url: url@,
                offset: *offset as int,
                len: *len as int,
            },
            OpenStep::Complete(r) => OpenModel::Complete(r@),
            OpenStep::Abort(r, e) => OpenModel::Abort(r@, e@),
        }
    }
}

impl OpenUpload {
    /// The upload that the server has begun for a recording of `size` bytes.
    pub fn new(
        pull_id: String,
        player_name: String,
        size: u64,
        duration_s: Option<u64>,
        metadata: String,
        created: CreateUpload,
    ) -> (r: Self)
        ensures
            r.transfer.wf(),
            r.transfer@ == (TransferModel {
                size: size as int,
                part_size: created.part_size as int,
                urls: texts(created.part_urls@),
                parts: Seq::empty(),
            }),
            r.pull_id == pull_id,
            r.player_name == player_name,
            r.duration_s == duration_s,
            r.metadata == metadata,
            r.object_key == created.object_key,
            r.upload_id == created.upload_id,
            r.storage_config_id == created.storage_config_id,
    {
        OpenUpload {
            pull_id,
            player_name,
            duration_s,
            metadata,
            object_key: created.object_key,
            upload_id: created.upload_id,
            storage_config_id: created.storage_config_id,
            transfer: Transfer::new(size, created.part_size, created.part_urls),
        }
    }

    /// The request that completes it.
    pub open spec fn completing(self, client: ApiClient) -> RequestModel {
        client.posts(
            "/api/povs/complete"@,
            complete_fields(
                self.pull_id@,
                self.player_name@,
                self.object_key@,
                self.upload_id@,
                part_models(self.transfer.parts@),
                self.transfer.size,
                self.duration_s,
                self.metadata@,
                opt_text(self.storage_config_id),
            ),
        )
    }

    /// The request that aborts it.
    pub open spec fn aborting(self, client: ApiClient) -> RequestModel {
        client.posts(
            "/api/povs/abort"@,
            abort_fields(self.object_key@, self.upload_id@, opt_text(self.storage_config_id)),
        )
    }

    /// What to do next.
    pub open spec fn next(self, client: ApiClient) -> OpenModel {
        match self.transfer@.next() {
            StepModel::Put { index, url, offset, len } => OpenModel::Put { index, url, offset, len },
            StepModel::Complete => OpenModel::Complete(self.completing(client)),
            StepModel::Abort(e) => OpenModel::Abort(self.aborting(client), e),
        }
    }

    fn abort(&self, client: &ApiClient) -> (r: Request)
        ensures
            r@ == self.aborting(*client),
    {
        client.abort_upload(
            self.object_key.clone(),
            self.upload_id.clone(),
            self.storage_config_id.clone(),
        )
    }

    /// What to do next.
    pub fn next_step(&self, client: &ApiClient) -> (r: OpenStep)
        requires
            self.transfer.wf(),
        ensures
            r@ == self.next(*client),
    {
        match self.transfer.next_step() {
            TransferStep::Put { index, url, offset, len } => OpenStep::Put {
                index,
                url,
                offset,
                len,
            },
            TransferStep::Abort(e) => OpenStep::Abort(self.abort(client), e),
            TransferStep::Complete => {
                let n: usize = self.transfer.parts.len();
                let mut parts: Vec<(u32, String)> = Vec::new();
                let mut i: usize = 0;
                while i < n
                    invariant
                        n == self.transfer.parts@.len(),
                        i <= n,
                        parts@.len() == i,
                        forall|k: int|
                            0 <= k < i ==> (#[trigger] parts@[k]).0 == self.transfer.parts@[k].0
                                && parts@[k].1@ == self.transfer.parts@[k].1@,
                    decreases n - i,
                {
                    let number: u32 = self.transfer.parts[i].0;
                    parts.push((number, self.transfer.parts[i].1.clone()));
                    i = i + 1;
                }
                assert(part_models(parts@) =~= part_models(self.transfer.parts@));
                OpenStep::Complete(
                    client.complete_upload(
                        self.pull_id.clone(),
                        self.player_name.clone(),
                        self.object_key.clone(),
                        self.upload_id.clone(),
                        parts,
                        self.transfer.size,
                        self.duration_s,
                        self.metadata.clone(),
                        self.storage_config_id.clone(),
                    ),
                )
            },
        }
    }

    /// The upload is given up for another reason than a part: it is aborted by this
    /// request, and ends so.
    pub fn give_up(&self, client: &ApiClient, msg: String) -> (r: (Request, Ending))
        ensures
            r.0@ == self.aborting(*client),
            r.1@ == EndingModel::Failed(msg@),
    {
        (self.abort(client), Ending::Failed(msg))
    }

    /// The server was asked to complete the upload. Where that failed, it is aborted: the
    /// request, and the reason.
    pub fn completed(
        &self,
        client: &ApiClient,
        reply: Result<String, String>,
    ) -> (r: Result<UploadOutcome, (Request, Ending)>)
        ensures
            match closed_by(reply) {
                CloseModel::Done(id) => r matches Ok(o) && o@ == UploadModel::Done(id),
                CloseModel::Aborted(e) => r matches Err((request, ending)) && request@
                    == self.aborting(*client) && ending@ == e,
            },
    {
        match reply {
            Ok(id) => Ok(UploadOutcome::Done(id)),
            Err(e) => Err(self.give_up(client, e)),
        }
    }

    /// The part that was sent is over. Where it was not stored, the upload is aborted: the
    /// request, and the reason.
    pub fn part_over(&mut self, client: &ApiClient, outcome: PartOutcome) -> (r: Option<(Request, Ending)>)
        requires
            old(self).transfer.wf(),
            old(self).transfer.parts@.len() < old(self).transfer.urls@.len(),
        ensures
            final(self).transfer.wf(),
            final(self).aborting(*client) == old(self).aborting(*client),
            final(self).pull_id == old(self).pull_id,
            final(self).player_name == old(self).player_name,
            final(self).duration_s == old(self).duration_s,
            final(self).metadata == old(self).metadata,
            final(self).object_key == old(self).object_key,
            final(self).upload_id == old(self).upload_id,
            final(self).storage_config_id == old(self).storage_config_id,
            match outcome@ {
                OutcomeModel::Done(tag) => r is None && final(self).transfer@
                    == old(self).transfer@.stored(tag),
                OutcomeModel::Cancelled => {
                    &&& r matches Some((request, e)) && request@ == old(self).aborting(*client)
                        && e@ == EndingModel::Cancelled
                    &&& final(self).transfer@ == old(self).transfer@
                },
                OutcomeModel::Failed(msg) => {
                    &&& r matches Some((request, e)) && request@ == old(self).aborting(*client)
                        && e@ == EndingModel::Failed(msg)
                    &&& final(self).transfer@ == old(self).transfer@
                },
            },
    {
        match self.transfer.part_over(outcome) {
            Some(e) => Some((self.abort(client), e)),
            None => None,
        }
    }
}

/// How an upload that the server has begun ends: completed under an id, or aborted.
pub enum CloseModel {
    Done(Seq<char>),
    Aborted(EndingModel),
}

/// How an upload ends that the server was asked to complete: where that fails, it is
/// aborted like any other that is given up.
pub open spec fn closed_by(reply: Result<String, String>) -> CloseModel {
    match reply {
        Ok(id) => CloseModel::Done(id@),
        Err(e) => CloseModel::Aborted(EndingModel::Failed(e@)),
    }
}

/// How an upload that was aborted went.
pub fn aborted(ending: Ending) -> (r: Result<UploadOutcome, String>)
    ensures
        match ending@ {
            EndingModel::Cancelled => r matches Ok(o) && o@ == UploadModel::Cancelled,
            EndingModel::Failed(msg) => r matches Err(e) && e@ == msg,
        },
{
    match ending {
        Ending::Cancelled => Ok(UploadOutcome::Cancelled),
        Ending::Failed(msg) => Err(msg),
    }
}

/// The warning that the parts of an upload could not be removed.
pub open spec fn abort_message(filename: Seq<char>, e: Seq<char>) -> Seq<char> {
    "[Video] Couldn't clean up the interrupted upload of "@ + filename + ": "@ + e
        + ". The bucket may keep the partial parts until its lifecycle rule removes them."@
}

/// The warning to give where the parts of an upload could not be removed.
pub fn abort_and_log(reply: Result<(), String>, filename: &str) -> (r: Option<String>)
    ensures
        match reply {
            Ok(_) => r is None,
            Err(e) => r matches Some(text) && text@ == abort_message(filename@, e@),
        },
{
    match reply {
        Ok(_) => None,
        Err(e) => {
            let mut text = "[Video] Couldn't clean up the interrupted upload of ".to_owned();
            text.append(filename);
            text.append(": ");
            text.append(e.as_str());
            text.append(
                ". The bucket may keep the partial parts until its lifecycle rule removes them.",
            );
            assert(text@ =~= abort_message(filename@, e@));
            Some(text)
        },
    }
}

/// The parts of a file tile it: they follow one another without a gap from the beginning
/// on, none is empty or longer than the bound, and the one behind which there is no other
/// ends where the file ends.
pub proof fn parts_tile_the_file(size: int, part_size: int, i: int)
    requires
        0 < part_size,
        0 <= i,
        part_at(size, part_size, i) is Some,
    ensures
        part_at(size, part_size, i) matches Some((offset, len)) && {
            &&& 0 < len <= part_size
            &&& offset + len <= size
            &&& i == 0 ==> offset == 0
            &&& i > 0 ==> part_at(size, part_size, i - 1) == Some((offset - part_size, part_size))
            &&& part_at(size, part_size, i + 1) is None <==> offset + len == size
            &&& part_at(size, part_size, i + 1) matches Some((next, _)) ==> next == offset + len
        },
{
    assert((i - 1) * part_size == i * part_size - part_size) by (nonlinear_arith);
    assert((i + 1) * part_size == i * part_size + part_size) by (nonlinear_arith);
    assert(i == 0 ==> i * part_size == 0) by (nonlinear_arith);
    assert(i * part_size >= 0) by (nonlinear_arith)
        requires
            i >= 0,
            part_size > 0,
    ;
}

/// Whether byte `b` of a file goes into part `i`.
pub open spec fn in_part(size: int, part_size: int, i: int, b: int) -> bool {
    match part_at(size, part_size, i) {
        Some((offset, len)) => offset <= b < offset + len,
        None => false,
    }
}

/// Every byte of a file goes into exactly one part.
pub proof fn every_byte_is_sent_once(size: int, part_size: int, b: int, i: int)
    requires
        0 < part_size,
        0 <= b < size,
        0 <= i,
    ensures
        in_part(size, part_size, i, b) <==> i == b / part_size,
{
    let k = b / part_size;
    vstd::arithmetic::div_mod::lemma_fundamental_div_mod(b, part_size);
    vstd::arithmetic::div_mod::lemma_mod_bound(b, part_size);
    assert(part_size * k == k * part_size) by (nonlinear_arith);
    if i < k {
        assert(i * part_size + part_size <= k * part_size) by (nonlinear_arith)
            requires
                i + 1 <= k,
                part_size > 0,
        ;
    }
    if i > k {
        assert(i * part_size >= k * part_size + part_size) by (nonlinear_arith)
            requires
                i >= k + 1,
                part_size > 0,
        ;
    }
}

/// Whether it is part `k` of a file that is being sent, once `events` have happened, and no
/// more of it than there is.
pub open spec fn sends_part(size: int, part_size: int, k: int, events: Seq<ProgressEvent>) -> bool {
    match part_at(size, part_size, k) {
        Some((offset, len)) => begun_at(0, events) == offset && sent_since(events) <= len,
        None => false,
    }
}

/// Whether `events` are those of sending parts of a file: at no time is anything else sent.
pub open spec fn sends_parts(size: int, part_size: int, events: Seq<ProgressEvent>) -> bool {
    forall|i: int|
        #![trigger events.take(i)]
        0 < i <= events.len() ==> exists|k: int| sends_part(size, part_size, k, events.take(i))
}

/// What is shown of an upload never exceeds the size of the file, however often parts are
/// begun again.
pub proof fn progress_stays_within_the_file(size: u64, part_size: u64, events: Seq<ProgressEvent>)
    requires
        sends_parts(size as int, part_size as int, events),
    ensures
        progress_after(Progress { uploaded: 0, shown: 0, last_emit: 0 }, events).shown <= size,
{
    assert forall|i: int| 0 <= i <= events.len() implies begun_at(0, #[trigger] events.take(i))
        + sent_since(events.take(i)) <= size by {
        if i > 0 {
            let k = choose|k: int| #[trigger]
                sends_part(size as int, part_size as int, k, events.take(i));
            assert(sends_part(size as int, part_size as int, k, events.take(i)));
        }
    }
    shown_progress_stays_within(Progress { uploaded: 0, shown: 0, last_emit: 0 }, events, size);
}

/// How a transfer runs out, given how each part goes: `None` where more parts are to be
/// sent than it is said of.
pub open spec fn run_out(
    t: TransferModel,
    outcomes: Seq<OutcomeModel>,
) -> Option<(StepModel, TransferModel)>
    decreases outcomes.len(),
{
    match t.next() {
        StepModel::Put { .. } => if outcomes.len() == 0 {
            None
        } else {
            match outcomes[0] {
                OutcomeModel::Done(tag) => run_out(t.stored(tag), outcomes.skip(1)),
                OutcomeModel::Cancelled => Some((StepModel::Abort(EndingModel::Cancelled), t)),
                OutcomeModel::Failed(msg) => Some((StepModel::Abort(EndingModel::Failed(msg)), t)),
            }
        },
        step => Some((step, t)),
    }
}

/// How an upload that the server has begun ends, given how each part goes and how the
/// server answers when it is asked to complete it: `None` where more parts are to be sent
/// than it is said of.
pub open spec fn close_of(
    t: TransferModel,
    outcomes: Seq<OutcomeModel>,
    reply: Result<String, String>,
) -> Option<CloseModel> {
    match run_out(t, outcomes) {
        Some((StepModel::Complete, _)) => Some(closed_by(reply)),
        Some((StepModel::Abort(e), _)) => Some(CloseModel::Aborted(e)),
        _ => None,
    }
}

/// No upload that the server has begun is left lying. Whatever happens to its parts and to
/// the request to complete it, it ends either with the server's word that it has the
/// recording, every part being stored, or with a request to abort it.
pub proof fn no_upload_is_left_lying(
    t: TransferModel,
    outcomes: Seq<OutcomeModel>,
    reply: Result<String, String>,
)
    requires
        t.parts.len() <= t.urls.len(),
        outcomes.len() >= t.urls.len() - t.parts.len(),
    ensures
        match close_of(t, outcomes, reply) {
            Some(CloseModel::Done(id)) => {
                &&& reply matches Ok(given) && given@ == id
                &&& forall|k: int|
                    0 <= k < t.urls.len() - t.parts.len() ==> #[trigger] outcomes[k] is Done
            },
            Some(CloseModel::Aborted(_)) => true,
            None => false,
        },
{
    lemma_run_out(t, outcomes);
}

/// An upload is completed with exactly the parts that were stored, in order, each with the
/// number of its place.
pub proof fn every_part_is_reported(t: TransferModel, outcomes: Seq<OutcomeModel>)
    requires
        t.parts.len() == 0,
        outcomes.len() >= t.urls.len(),
    ensures
        run_out(t, outcomes) matches Some((StepModel::Complete, end)) ==> {
            &&& end.parts.len() == t.urls.len()
            &&& forall|k: int|
                0 <= k < t.urls.len() ==> (#[trigger] end.parts[k]).0 == (k + 1) as u32
                    && outcomes[k] == OutcomeModel::Done(end.parts[k].1)
        },
{
    lemma_run_out(t, outcomes);
}

proof fn lemma_run_out(t: TransferModel, outcomes: Seq<OutcomeModel>)
    requires
        t.parts.len() <= t.urls.len(),
        outcomes.len() >= t.urls.len() - t.parts.len(),
    ensures
        match run_out(t, outcomes) {
            Some((StepModel::Complete, end)) => {
                &&& end.parts.len() == t.urls.len()
                &&& forall|k: int|
                    0 <= k < t.parts.len() ==> #[trigger] end.parts[k] == t.parts[k]
                &&& forall|k: int|
                    t.parts.len() <= k < t.urls.len() ==> (#[trigger] end.parts[k]).0 == (k + 1) as u32
                &&& forall|k: int|
                    0 <= k < t.urls.len() - t.parts.len() ==> #[trigger] outcomes[k]
                        == OutcomeModel::Done(end.parts[t.parts.len() + k].1)
            },
            Some((StepModel::Abort(_), _)) => true,
            _ => false,
        },
    decreases outcomes.len(),
{
    if t.next() is Put {
        match outcomes[0] {
            OutcomeModel::Done(tag) => {
                let n = t.parts.len() as int;
                let u = t.stored(tag);
                let rest = outcomes.skip(1);
                lemma_run_out(u, rest);
                match run_out(t, outcomes) {
                    Some((StepModel::Complete, end)) => {
                        assert(end.parts[n] == u.parts[n]);
                        assert forall|k: int| 0 <= k < t.parts.len() implies #[trigger] end.parts[k]
                            == t.parts[k] by {
                            assert(end.parts[k] == u.parts[k]);
                        }
                        assert forall|k: int|
                            0 <= k < t.urls.len() - n implies #[trigger] outcomes[k]
                            == OutcomeModel::Done(end.parts[n + k].1) by {
                            if k > 0 {
                                assert(rest[k - 1] == outcomes[k]);
                            }
                        }
                    },
                    _ => {},
                }
            },
            _ => {},
        }
    }
}

/// An upload is begun only for a recording that is matched to a pull, with a file that is
/// finished.
pub proof fn only_finished_matches_are_sent(
    video: VideoModel,
    size: Result<u64, String>,
    now: int,
    mtime: int,
    sidecar: Option<Result<String, String>>,
)
    ensures
        preparation(video, size, now, mtime, sidecar) matches PreparedModel::Ready {
            pull_id,
            size: n,
            ..
        } ==> {
            &&& video.matched matches Some(m) && m.pull_id == pull_id
            &&& settled_at(now, mtime)
            &&& size == Ok::<u64, String>(n)
        },
{
}

} // verus!
