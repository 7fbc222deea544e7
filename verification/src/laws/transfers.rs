//! The upload of one recording: when it may begin, which bytes go where, how often a part is
//! tried, and how it all ends.
use vstd::prelude::*;
use vstd::string::*;

use crate::api::{ApiClient, CreateUpload, Request, part_models};
use crate::laws::requests::{aborts, completes, has_text, lemma_aborts, lemma_completes, posts_to};
use crate::laws::{lemma_texts, same_opt};
use crate::number::decimal;
use crate::part::{
    AfterAttempt, CANCEL, PAUSE, PartOutcome, PartPhase, PartStep, Progress, Sent, SleepStep,
    backoff, next_part_step, part_sent, sleep_with_control,
};
use crate::scan::VideoItem;
use crate::text::texts;
use crate::transfer::{
    Ending, OpenStep, OpenUpload, Prepared, Transfer, TransferStep, UploadOutcome, abort_and_log,
    aborted, part_range, prepare_upload,
};

verus! {

/// An upload may begin exactly if the recording is matched to a pull and a character, its
/// file can be read and has not changed for five seconds, and its sidecar can be read. It is
/// then for that pull and that character, and the sidecar goes with it. The first of these
/// that fails is what is said.
pub proof fn uploads_begin_when_all_is_ready(
    video: VideoItem,
    size: Result<u64, String>,
    now: u128,
    mtime: u128,
    sidecar: Option<Result<String, String>>,
    r: Prepared,
)
    requires
        call_ensures(prepare_upload, (&video, size, now, mtime, sidecar), r),
    ensures
        r is Ready <==> video.matched is Some && video.player_name is Some && size is Ok && now - mtime
            >= 5000 && sidecar is Some && sidecar->0 is Ok,
        r matches Prepared::Ready { pull_id, player_name, realm, size: n, metadata } ==> {
            &&& pull_id@ == video.matched->0.pull_id@
            &&& player_name@ == video.player_name->0@
            &&& same_opt(realm, video.player_realm)
            &&& size == Ok::<u64, String>(n)
            &&& metadata@ == sidecar->0->Ok_0@
        },
        r is NotReady <==> video.matched is Some && video.player_name is Some && size is Ok && now - mtime
            < 5000,
        video.matched is None ==> (r matches Prepared::Failed(e) && e@ == "video has no match"@),
        video.matched is Some && video.player_name is None ==> (r matches Prepared::Failed(e) && e@
            == "video has no player name"@),
        video.matched is Some && video.player_name is Some && size is Err ==> (r matches Prepared::Failed(e)
            && e@ == size->Err_0@),
        video.matched is Some && video.player_name is Some && size is Ok && now - mtime >= 5000
            && sidecar is None ==> (r matches Prepared::Failed(e) && e@ == "sidecar disappeared"@),
        video.matched is Some && video.player_name is Some && size is Ok && now - mtime >= 5000
            && sidecar is Some && sidecar->0 is Err ==> (r matches Prepared::Failed(e) && e@
            == sidecar->0->Err_0@),
{
}

/// A part begins at its number times the length of a part, and reaches to the next one or to
/// the end of the file; there is none where it would begin behind that.
pub proof fn parts_are_cut_evenly(size: u64, part_size: u64, i: usize, r: Option<(u64, u64)>)
    requires
        call_ensures(part_range, (size, part_size, i), r),
    ensures
        r is None <==> i * part_size >= size,
        r matches Some((offset, len)) ==> offset == i * part_size && offset < size && len <= part_size
            && offset + len <= size && (len == part_size || offset + len == size),
{
}

/// The parts are sent in order, each to its own address, until all are stored; a plan of
/// parts that cannot be right is given up.
pub proof fn parts_are_sent_in_order(t: Transfer, r: TransferStep)
    requires
        t.parts@.len() <= t.urls@.len(),
        call_ensures(Transfer::next_step, (&t,), r),
    ensures
        ({
            let i = t.parts@.len() as int;
            &&& t.part_size == 0 ==> (r matches TransferStep::Abort(Ending::Failed(e)) && e@
                == "server returned an invalid part size"@)
            &&& t.part_size > 0 && i == t.urls@.len() ==> r is Complete
            &&& t.part_size > 0 && i < t.urls@.len() && i * t.part_size >= t.size ==> (
            r matches TransferStep::Abort(Ending::Failed(e)) && e@
                == "server returned more upload parts than the file needs"@)
            &&& t.part_size > 0 && i < t.urls@.len() && i * t.part_size < t.size ==> (
            r matches TransferStep::Put { index, url, offset, len } && index == i && url@ == t.urls@[i]@
                && offset == i * t.part_size && offset + len <= t.size && len <= t.part_size && (len
                == t.part_size || offset + len == t.size))
        }),
{
    lemma_texts(t.urls@);
    assert(part_models(t.parts@).len() == t.parts@.len());
    if t.parts@.len() < t.urls@.len() {
        assert(texts(t.urls@)[t.parts@.len() as int] == t.urls@[t.parts@.len() as int]@);
    }
}

/// Whether `b` is the upload `a` with one more part stored: numbered by its place, counted
/// from one, under its tag.
pub open spec fn with_part(a: Transfer, b: Transfer, tag: Seq<char>) -> bool {
    let n = a.parts@.len() as int;
    &&& b.parts@.len() == n + 1
    &&& forall|k: int|
        0 <= k < n ==> (#[trigger] b.parts@[k]).0 == a.parts@[k].0 && b.parts@[k].1@ == a.parts@[k].1@
    &&& b.parts@[n].0 == (n + 1) as u32
    &&& b.parts@[n].1@ == tag
}

/// Whether an upload has stored the same parts as before.
pub open spec fn same_parts(a: Transfer, b: Transfer) -> bool {
    &&& b.parts@.len() == a.parts@.len()
    &&& forall|k: int|
        0 <= k < a.parts@.len() ==> (#[trigger] b.parts@[k]).0 == a.parts@[k].0 && b.parts@[k].1@
            == a.parts@[k].1@
}

/// Whether two uploads are of the same file to the same places.
pub open spec fn same_plan(a: Transfer, b: Transfer) -> bool {
    &&& a.size == b.size
    &&& a.part_size == b.part_size
    &&& a.urls@.len() == b.urls@.len()
    &&& forall|k: int| 0 <= k < a.urls@.len() ==> (#[trigger] b.urls@[k])@ == a.urls@[k]@
}

proof fn lemma_plan(a: Transfer, b: Transfer)
    requires
        a@.size == b@.size,
        a@.part_size == b@.part_size,
        a@.urls == b@.urls,
    ensures
        same_plan(a, b),
{
    lemma_texts(a.urls@);
    lemma_texts(b.urls@);
    assert forall|k: int| 0 <= k < a.urls@.len() implies (#[trigger] b.urls@[k])@ == a.urls@[k]@ by {
        assert(texts(b.urls@)[k] == texts(a.urls@)[k]);
    }
}

proof fn lemma_same_parts(a: Transfer, b: Transfer)
    requires
        a@.parts == b@.parts,
    ensures
        same_parts(a, b),
{
    assert(part_models(a.parts@).len() == a.parts@.len());
    assert(part_models(b.parts@).len() == b.parts@.len());
    assert forall|k: int| 0 <= k < a.parts@.len() implies (#[trigger] b.parts@[k]).0 == a.parts@[k].0
        && b.parts@[k].1@ == a.parts@[k].1@ by {
        assert(part_models(a.parts@)[k] == part_models(b.parts@)[k]);
    }
}

proof fn lemma_with_part(a: Transfer, b: Transfer, tag: Seq<char>)
    requires
        b@.parts == a@.parts.push(((a@.parts.len() + 1) as u32, tag)),
    ensures
        with_part(a, b, tag),
{
    let n = a.parts@.len() as int;
    assert(part_models(a.parts@).len() == n);
    assert(part_models(b.parts@).len() == b.parts@.len());
    assert forall|k: int| 0 <= k < n implies (#[trigger] b.parts@[k]).0 == a.parts@[k].0
        && b.parts@[k].1@ == a.parts@[k].1@ by {
        assert(part_models(b.parts@)[k] == part_models(a.parts@)[k]);
    }
    assert(part_models(b.parts@)[n] == ((n + 1) as u32, tag));
}

/// A part that was stored is counted, and one that was not ends the upload for its reason.
pub proof fn a_part_is_counted_or_ends_the_upload(
    t: &mut Transfer,
    outcome: PartOutcome,
    r: Option<Ending>,
)
    requires
        call_ensures(Transfer::part_over, (t, outcome), r),
    ensures
        same_plan(*old(t), *final(t)),
        match outcome {
            PartOutcome::Done(tag) => r is None && with_part(*old(t), *final(t), tag@),
            PartOutcome::Cancelled => r == Some(Ending::Cancelled) && same_parts(*old(t), *final(t)),
            PartOutcome::Failed(msg) => (r matches Some(Ending::Failed(e)) && e@ == msg@) && same_parts(
                *old(t),
                *final(t),
            ),
        },
{
    lemma_plan(*old(t), *final(t));
    match outcome {
        PartOutcome::Done(tag) => {
            lemma_with_part(*old(t), *final(t), tag@);
        },
        _ => {
            lemma_same_parts(*old(t), *final(t));
        },
    }
}

/// An upload begins with no part stored, and nothing sent or shown.
pub proof fn nothing_is_stored_at_first(
    size: u64,
    part_size: u64,
    urls: Vec<String>,
    t: Transfer,
    p: Progress,
)
    requires
        call_ensures(Transfer::new, (size, part_size, urls), t),
        call_ensures(Progress::new, (), p),
    ensures
        t.size == size,
        t.part_size == part_size,
        t.parts@.len() == 0,
        t.urls@.len() == urls@.len(),
        forall|k: int| 0 <= k < urls@.len() ==> (#[trigger] t.urls@[k])@ == urls@[k]@,
        p.uploaded == 0 && p.shown == 0 && p.last_emit == 0,
{
    lemma_texts(t.urls@);
    lemma_texts(urls@);
    assert(part_models(t.parts@).len() == t.parts@.len());
    assert forall|k: int| 0 <= k < urls@.len() implies (#[trigger] t.urls@[k])@ == urls@[k]@ by {
        assert(texts(t.urls@)[k] == texts(urls@)[k]);
    }
}

/// An upload that the server has begun keeps what it is of and what the server calls it.
pub proof fn an_open_upload_is_what_was_begun(
    pull_id: String,
    player_name: String,
    size: u64,
    duration_s: Option<u64>,
    metadata: String,
    created: CreateUpload,
    u: OpenUpload,
)
    requires
        call_ensures(
            OpenUpload::new,
            (pull_id, player_name, size, duration_s, metadata, created),
            u,
        ),
    ensures
        u.pull_id@ == pull_id@,
        u.player_name@ == player_name@,
        u.duration_s == duration_s,
        u.metadata@ == metadata@,
        u.object_key@ == created.object_key@,
        u.upload_id@ == created.upload_id@,
        same_opt(u.storage_config_id, created.storage_config_id),
        u.transfer.size == size,
        u.transfer.part_size == created.part_size,
        u.transfer.parts@.len() == 0,
        u.transfer.urls@.len() == created.part_urls@.len(),
        forall|k: int|
            0 <= k < u.transfer.urls@.len() ==> (#[trigger] u.transfer.urls@[k])@ == created.part_urls@[k]@,
{
    lemma_texts(u.transfer.urls@);
    lemma_texts(created.part_urls@);
    assert(part_models(u.transfer.parts@).len() == u.transfer.parts@.len());
    assert forall|k: int| 0 <= k < u.transfer.urls@.len() implies (#[trigger] u.transfer.urls@[k])@
        == created.part_urls@[k]@ by {
        assert(texts(u.transfer.urls@)[k] == texts(created.part_urls@)[k]);
    }
}

/// Whether a request aborts an upload.
pub open spec fn aborts_upload(c: ApiClient, u: OpenUpload, r: Request) -> bool {
    posts_to(c, r, "/api/povs/abort"@) && aborts(
        r.payload->0,
        u.object_key@,
        u.upload_id@,
        u.storage_config_id,
    )
}

/// Whether a request completes an upload.
pub open spec fn completes_upload(c: ApiClient, u: OpenUpload, r: Request) -> bool {
    posts_to(c, r, "/api/povs/complete"@) && completes(
        r.payload->0,
        u.pull_id@,
        u.player_name@,
        u.object_key@,
        u.upload_id@,
        u.transfer.parts@,
        u.transfer.size,
        u.duration_s,
        u.metadata@,
        u.storage_config_id,
    )
}

proof fn lemma_aborts_upload(c: ApiClient, u: OpenUpload, r: Request)
    requires
        r@ == u.aborting(c),
    ensures
        aborts_upload(c, u, r),
{
    lemma_aborts(r.payload->0, u.object_key@, u.upload_id@, u.storage_config_id);
}

/// An upload goes on with its next part, is completed once all parts are stored, with those
/// and for the pull and the character it was begun for, and is aborted by its own key where
/// its plan cannot be right.
pub proof fn an_upload_goes_on(u: OpenUpload, c: ApiClient, r: OpenStep)
    requires
        u.transfer.parts@.len() <= u.transfer.urls@.len(),
        call_ensures(OpenUpload::next_step, (&u, &c), r),
    ensures
        ({
            let t = u.transfer;
            let i = t.parts@.len() as int;
            &&& t.part_size == 0 ==> (r matches OpenStep::Abort(q, Ending::Failed(e)) && aborts_upload(
                c,
                u,
                q,
            ) && e@ == "server returned an invalid part size"@)
            &&& t.part_size > 0 && i == t.urls@.len() ==> (r matches OpenStep::Complete(q)
                && completes_upload(c, u, q))
            &&& t.part_size > 0 && i < t.urls@.len() && i * t.part_size >= t.size ==> (
            r matches OpenStep::Abort(q, Ending::Failed(e)) && aborts_upload(c, u, q) && e@
                == "server returned more upload parts than the file needs"@)
            &&& t.part_size > 0 && i < t.urls@.len() && i * t.part_size < t.size ==> (
            r matches OpenStep::Put { index, url, offset, len } && index == i && url@ == t.urls@[i]@
                && offset == i * t.part_size && offset + len <= t.size && len <= t.part_size && (len
                == t.part_size || offset + len == t.size))
        }),
{
    let t = u.transfer;
    lemma_texts(t.urls@);
    assert(part_models(t.parts@).len() == t.parts@.len());
    if t.parts@.len() < t.urls@.len() {
        assert(texts(t.urls@)[t.parts@.len() as int] == t.urls@[t.parts@.len() as int]@);
    }
    match r {
        OpenStep::Abort(q, _) => {
            lemma_aborts_upload(c, u, q);
        },
        OpenStep::Complete(q) => {
            lemma_completes(
                q.payload->0,
                u.pull_id@,
                u.player_name@,
                u.object_key@,
                u.upload_id@,
                t.parts@,
                t.size,
                u.duration_s,
                u.metadata@,
                u.storage_config_id,
            );
        },
        OpenStep::Put { .. } => {},
    }
}

/// A part that is over is counted where it was stored; where it was not, the upload is aborted
/// by its own key for that reason. What the upload is of does not change.
pub proof fn a_part_of_an_upload_is_over(
    u: &mut OpenUpload,
    c: ApiClient,
    outcome: PartOutcome,
    r: Option<(Request, Ending)>,
)
    requires
        call_ensures(OpenUpload::part_over, (u, &c, outcome), r),
    ensures
        final(u).pull_id@ == old(u).pull_id@,
        final(u).player_name@ == old(u).player_name@,
        final(u).duration_s == old(u).duration_s,
        final(u).metadata@ == old(u).metadata@,
        final(u).object_key@ == old(u).object_key@,
        final(u).upload_id@ == old(u).upload_id@,
        same_opt(final(u).storage_config_id, old(u).storage_config_id),
        same_plan(old(u).transfer, final(u).transfer),
        match outcome {
            PartOutcome::Done(tag) => r is None && with_part(old(u).transfer, final(u).transfer, tag@),
            PartOutcome::Cancelled => same_parts(old(u).transfer, final(u).transfer) && (r matches Some(
                (q, e),
            ) && aborts_upload(c, *old(u), q) && e is Cancelled),
            PartOutcome::Failed(msg) => same_parts(old(u).transfer, final(u).transfer)
                && (r matches Some((q, Ending::Failed(e))) && aborts_upload(c, *old(u), q) && e@ == msg@),
        },
{
    lemma_plan(old(u).transfer, final(u).transfer);
    match outcome {
        PartOutcome::Done(tag) => {
            lemma_with_part(old(u).transfer, final(u).transfer, tag@);
        },
        _ => {
            lemma_same_parts(old(u).transfer, final(u).transfer);
            if let Some((q, _)) = r {
                lemma_aborts_upload(c, *old(u), q);
            }
        },
    }
}

/// An upload that is begun for a pull and a character is completed for them: the two requests
/// carry the same pull id and the same player name.
pub proof fn an_upload_ends_as_it_began(
    c: ApiClient,
    pull_id: String,
    player_name: String,
    realm: Option<String>,
    size: u64,
    filename: String,
    storage: Option<String>,
    begin: Request,
    duration_s: Option<u64>,
    metadata: String,
    created: CreateUpload,
    opened: OpenUpload,
    u: OpenUpload,
    end: Request,
)
    requires
        call_ensures(
            ApiClient::create_upload,
            (&c, pull_id, player_name, realm, size, filename, storage),
            begin,
        ),
        call_ensures(
            OpenUpload::new,
            (pull_id, player_name, size, duration_s, metadata, created),
            opened,
        ),
        u.pull_id@ == opened.pull_id@,
        u.player_name@ == opened.player_name@,
        u.transfer.parts@.len() <= u.transfer.urls@.len(),
        call_ensures(OpenUpload::next_step, (&u, &c), OpenStep::Complete(end)),
    ensures
        has_text(begin.payload->0, "pullId"@, pull_id@),
        has_text(end.payload->0, "pullId"@, pull_id@),
        has_text(begin.payload->0, "playerName"@, player_name@),
        has_text(end.payload->0, "playerName"@, player_name@),
{
    crate::laws::requests::an_upload_is_begun_for_its_pull(
        c,
        pull_id,
        player_name,
        realm,
        size,
        filename,
        storage,
        begin,
    );
    an_open_upload_is_what_was_begun(
        pull_id,
        player_name,
        size,
        duration_s,
        metadata,
        created,
        opened,
    );
    an_upload_goes_on(u, c, OpenStep::Complete(end));
}

/// An upload that was to be completed is done under the id that the server gives; where that
/// fails, and wherever else it is given up, it is aborted by its own key for that reason.
pub proof fn an_upload_is_done_or_aborted(
    u: OpenUpload,
    c: ApiClient,
    reply: Result<String, String>,
    r: Result<UploadOutcome, (Request, Ending)>,
    msg: String,
    given_up: (Request, Ending),
)
    requires
        call_ensures(OpenUpload::completed, (&u, &c, reply), r),
        call_ensures(OpenUpload::give_up, (&u, &c, msg), given_up),
    ensures
        reply matches Ok(id) ==> (r matches Ok(UploadOutcome::Done(got)) && got@ == id@),
        reply matches Err(e) ==> (r matches Err((q, Ending::Failed(why))) && aborts_upload(c, u, q)
            && why@ == e@),
        aborts_upload(c, u, given_up.0),
        given_up.1 matches Ending::Failed(why) && why@ == msg@,
{
    lemma_aborts_upload(c, u, given_up.0);
    if let Err((q, _)) = r {
        lemma_aborts_upload(c, u, q);
    }
}

/// An upload that was aborted ends as a cancellation or as a failure with its reason; where the
/// server could not remove its parts, the user is warned of that file.
pub proof fn an_aborted_upload_is_told(
    ending: Ending,
    r: Result<UploadOutcome, String>,
    reply: Result<(), String>,
    filename: &str,
    warning: Option<String>,
)
    requires
        call_ensures(aborted, (ending,), r),
        call_ensures(abort_and_log, (reply, filename), warning),
    ensures
        ending is Cancelled ==> r == Ok::<UploadOutcome, String>(UploadOutcome::Cancelled),
        ending matches Ending::Failed(msg) ==> (r matches Err(e) && e@ == msg@),
        reply is Ok <==> warning is None,
        reply matches Err(e) ==> warning->0@ == "[Video] Couldn't clean up the interrupted upload of "@
            + filename@ + ": "@ + e@
            + ". The bucket may keep the partial parts until its lifecycle rule removes them."@,
{
}

/// A wait is slept in slices of at most a tenth of a second; a cancellation ends it, a pause
/// uses up none of it, and it is over when nothing is left.
pub proof fn waits_can_be_called_off(left: u64, control: u8, r: SleepStep)
    requires
        call_ensures(sleep_with_control, (left, control), r),
    ensures
        r == SleepStep::Done <==> left == 0,
        r == SleepStep::Cancelled <==> left > 0 && control == CANCEL,
        left > 0 && control == PAUSE ==> r == SleepStep::Hold(100),
        left > 0 && control != CANCEL && control != PAUSE ==> (r matches SleepStep::Slice(ms) && 0 < ms
            <= 100 && ms <= left && (ms == 100 || ms == left)),
{
}

/// A part that was not begun is begun once the user lets it: a cancellation ends it, a pause
/// holds it, and otherwise it is sent for the first time.
pub proof fn a_part_is_begun(phase: &mut PartPhase, control: u8, r: PartStep)
    requires
        call_ensures(next_part_step, (phase, control), r),
        *old(phase) == PartPhase::Hold,
    ensures
        control == CANCEL ==> r == PartStep::Over(PartOutcome::Cancelled) && *final(phase) == *old(phase),
        control == PAUSE ==> r == PartStep::Sleep(250) && *final(phase) == *old(phase),
        control != CANCEL && control != PAUSE ==> r == PartStep::Send && *final(phase)
            == (PartPhase::Send { attempt: 1 }),
{
}

/// A part that failed is sent again once its wait is over, as the next attempt; a
/// cancellation ends it, and a pause uses up none of the wait.
pub proof fn a_part_is_sent_again(
    phase: &mut PartPhase,
    control: u8,
    r: PartStep,
    attempt: u32,
    left: u64,
)
    requires
        call_ensures(next_part_step, (phase, control), r),
        *old(phase) == (PartPhase::Wait { attempt, left }),
        attempt < 4,
    ensures
        left == 0 ==> r == PartStep::Send && *final(phase) == (PartPhase::Send {
            attempt: (attempt + 1) as u32,
        }),
        left > 0 && control == CANCEL ==> r == PartStep::Over(PartOutcome::Cancelled) && *final(phase)
            == *old(phase),
        left > 0 && control == PAUSE ==> r == PartStep::Sleep(100) && *final(phase) == *old(phase),
        left > 0 && control != CANCEL && control != PAUSE ==> (r matches PartStep::Sleep(ms) && 0 < ms <= 100
            && ms <= left && *final(phase) == (PartPhase::Wait { attempt, left: (left - ms) as u64 })),
{
}

/// A part that is being sent is still to be sent, whatever the user wants.
pub proof fn a_part_that_is_sent_goes_on(phase: &mut PartPhase, control: u8, r: PartStep)
    requires
        call_ensures(next_part_step, (phase, control), r),
        *old(phase) is Send,
    ensures
        r == PartStep::Send,
        *final(phase) == *old(phase),
{
}

/// A part that was stored is done under its tag. One that was refused is sent again after
/// half a second, one or two seconds, as long as that may help and it was not the fourth
/// attempt; a cancellation ends it, and every other failure is final, with its reason.
pub proof fn a_part_is_tried_four_times(
    phase: &mut PartPhase,
    sent: Sent,
    control: u8,
    index: usize,
    filename: &str,
    r: AfterAttempt,
    attempt: u32,
)
    requires
        call_ensures(part_sent, (phase, sent, control, index, filename), r),
        *old(phase) == (PartPhase::Send { attempt }),
        1 <= attempt <= 4,
    ensures
        r is Over ==> *final(phase) == *old(phase),
        match sent {
            Sent::Stored(tag) => r matches AfterAttempt::Over(PartOutcome::Done(t)) && t@ == tag@,
            Sent::CannotOpen(e) => r matches AfterAttempt::Over(PartOutcome::Failed(m)) && m@
                == "can't open recording: "@ + e@,
            Sent::CannotRead(e) => r matches AfterAttempt::Over(PartOutcome::Failed(m)) && m@
                == "can't read recording: "@ + e@,
            Sent::Refused(e) => {
                &&& control == CANCEL ==> r == AfterAttempt::Over(PartOutcome::Cancelled)
                &&& control != CANCEL && (!e.retryable || attempt == 4) ==> (
                r matches AfterAttempt::Over(PartOutcome::Failed(m)) && m@ == e.msg@ + " (after "@
                    + decimal(attempt as int) + " attempts)"@)
                &&& control != CANCEL && e.retryable && attempt < 4 ==> {
                    &&& r matches AfterAttempt::Again(w) && w@ == "[Video] Part "@ + decimal(index + 1)
                        + " of "@ + filename@ + " failed ("@ + e.msg@ + "), retrying ("@ + decimal(
                        attempt as int,
                    ) + "/"@ + decimal(4) + ")…"@
                    &&& *final(phase) == (PartPhase::Wait {
                        attempt,
                        left: if attempt == 1 {
                            500
                        } else if attempt == 2 {
                            1000
                        } else {
                            2000
                        },
                    })
                }
            },
        },
{
    reveal_with_fuel(backoff, 4);
    assert(backoff(1) == 500 && backoff(2) == 1000 && backoff(3) == 2000);
}

/// Progress counts from where a part begins, shows the most that was ever sent, and does so
/// at most five times a second.
pub proof fn progress_is_counted(p: &mut Progress, delta: u64, now: u64, r: Option<u64>)
    requires
        call_ensures(Progress::advance, (p, delta, now), r),
        old(p).uploaded + delta <= u64::MAX,
    ensures
        final(p).uploaded == old(p).uploaded + delta,
        final(p).shown >= old(p).shown && final(p).shown >= final(p).uploaded,
        final(p).shown == old(p).shown || final(p).shown == final(p).uploaded,
        r is Some <==> now - old(p).last_emit >= 200,
        r is Some ==> r->0 == final(p).shown && final(p).last_emit == now,
        r is None ==> final(p).last_emit == old(p).last_emit,
{
}

/// A part that begins, or begins again, takes progress back to its beginning, and what is shown
/// stays.
pub proof fn progress_begins_again(p: &mut Progress, offset: u64, r: ())
    requires
        call_ensures(Progress::restart, (p, offset), r),
    ensures
        final(p).uploaded == offset,
        final(p).shown == old(p).shown,
        final(p).last_emit == old(p).last_emit,
{
}

} // verus!
