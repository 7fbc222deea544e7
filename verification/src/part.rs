//! Sending one part of a recording: when to hold, when to try again, when to give up,
//! and how far the upload has come.
use vstd::prelude::*;
use vstd::string::*;

use crate::api::PartError;
use crate::number::{decimal, u64_text};

verus! {

/// The user lets uploads run.
pub const RUN: u8 = 0;

/// The user has paused uploads.
pub const PAUSE: u8 = 1;

/// The user has cancelled uploads.
pub const CANCEL: u8 = 2;

/// How often a part is sent at most.
pub const MAX_PART_ATTEMPTS: u32 = 4;

/// The longest single sleep of a wait that can be cancelled, in milliseconds.
pub const SLICE_MS: u64 = 100;

/// How long to sleep before looking again whether a pause is over that came before a
/// part was begun, in milliseconds.
pub const HOLD_MS: u64 = 250;

/// The next step of a wait that can be paused and cancelled.
#[derive(Debug, Clone, Copy, PartialEq, Eq, Structural)]
pub enum SleepStep {
    /// The time is over.
    Done,
    Cancelled,
    /// Sleep that long without using up any of the time.
    Hold(u64),
    /// Sleep that long, and count it.
    Slice(u64),
}

/// The next step of a wait with `left` milliseconds to go.
pub open spec fn sleep_next(left: int, control: u8) -> SleepStep {
    if left <= 0 {
        SleepStep::Done
    } else if control == CANCEL {
        SleepStep::Cancelled
    } else if control == PAUSE {
        SleepStep::Hold(SLICE_MS)
    } else if left < SLICE_MS {
        SleepStep::Slice(left as u64)
    } else {
        SleepStep::Slice(SLICE_MS)
    }
}

/// The next step of a wait with `left` milliseconds to go. It is slept in short slices,
/// so that a cancellation is noticed promptly; a pause uses up none of it.
pub fn sleep_with_control(left: u64, control: u8) -> (r: SleepStep)
    ensures
        r == sleep_next(left as int, control),
{
    if left == 0 {
        SleepStep::Done
    } else if control == CANCEL {
        SleepStep::Cancelled
    } else if control == PAUSE {
        SleepStep::Hold(SLICE_MS)
    } else if left < SLICE_MS {
        SleepStep::Slice(left)
    } else {
        SleepStep::Slice(SLICE_MS)
    }
}

/// How the upload of a part ended.
#[derive(Debug)]
pub enum PartOutcome {
    /// It was stored under this tag.
    Done(String),
    Cancelled,
    Failed(String),
}

/// What a `PartOutcome` holds.
pub enum OutcomeModel {
    Done(Seq<char>),
    Cancelled,
    Failed(Seq<char>),
}

impl View for PartOutcome {
    type V = OutcomeModel;

    open spec fn view(&self) -> OutcomeModel {
        match self {
            PartOutcome::Done(tag) => OutcomeModel::Done(tag@),
            PartOutcome::Cancelled => OutcomeModel::Cancelled,
            PartOutcome::Failed(msg) => OutcomeModel::Failed(msg@),
        }
    }
}

/// Where the upload of a part stands.
#[derive(Debug, Clone, Copy, PartialEq, Eq, Structural)]
pub enum PartPhase {
    /// Not begun.
    Hold,
    /// Being sent for the `attempt`th time.
    Send { attempt: u32 },
    /// To be sent again after `left` more milliseconds.
    Wait { attempt: u32, left: u64 },
}

/// What to do next about a part.
#[derive(Debug)]
pub enum PartStep {
    /// Sleep that many milliseconds, and look again.
    Sleep(u64),
    /// Send it.
    Send,
    Over(PartOutcome),
}

/// What a `PartStep` holds.
pub enum StepModel {
    Sleep(u64),
    Send,
    Over(OutcomeModel),
}

impl View for PartStep {
    type V = StepModel;

    open spec fn view(&self) -> StepModel {
        match self {
            PartStep::Sleep(ms) => StepModel::Sleep(*ms),
            PartStep::Send => StepModel::Send,
            PartStep::Over(o) => StepModel::Over(o@),
        }
    }
}

/// How long to wait after the `attempt`th failure: half a second, doubled each time.
pub open spec fn backoff(attempt: int) -> int
    decreases attempt,
{
    if attempt <= 1 {
        500
    } else {
        2 * backoff(attempt - 1)
    }
}

impl PartPhase {
    /// Attempts are counted from one and never exceed the bound; a wait follows a failed
    /// attempt that was not the last and is never longer than it began.
    pub open spec fn wf(self) -> bool {
        match self {
            PartPhase::Hold => true,
            PartPhase::Send { attempt } => 1 <= attempt <= MAX_PART_ATTEMPTS,
            PartPhase::Wait { attempt, left } => 1 <= attempt < MAX_PART_ATTEMPTS && left
                <= backoff(attempt as int),
        }
    }

    /// How often the part has been sent, or is being sent.
    pub open spec fn sends(self) -> int {
        match self {
            PartPhase::Hold => 0,
            PartPhase::Send { attempt } => attempt as int,
            PartPhase::Wait { attempt, left } => attempt as int,
        }
    }

    /// What to do next, and the phase behind it.
    pub open spec fn next(self, control: u8) -> (StepModel, PartPhase) {
        match self {
            PartPhase::Hold => if control == CANCEL {
                (StepModel::Over(OutcomeModel::Cancelled), self)
            } else if control == PAUSE {
                (StepModel::Sleep(HOLD_MS), self)
            } else {
                (StepModel::Send, PartPhase::Send { attempt: 1 })
            },
            PartPhase::Send { attempt } => (StepModel::Send, self),
            PartPhase::Wait { attempt, left } => match sleep_next(left as int, control) {
                SleepStep::Done => (
                    StepModel::Send,
                    PartPhase::Send { attempt: (attempt + 1) as u32 },
                ),
                SleepStep::Cancelled => (StepModel::Over(OutcomeModel::Cancelled), self),
                SleepStep::Hold(ms) => (StepModel::Sleep(ms), self),
                SleepStep::Slice(ms) => (
                    StepModel::Sleep(ms),
                    PartPhase::Wait { attempt, left: (left - ms) as u64 },
                ),
            },
        }
    }
}

/// What to do next about a part, given what the user wants at the moment.
pub fn next_part_step(phase: &mut PartPhase, control: u8) -> (r: PartStep)
    requires
        old(phase).wf(),
    ensures
        (r@, *final(phase)) == old(phase).next(control),
        final(phase).wf(),
{
    match *phase {
        PartPhase::Hold => {
            if control == CANCEL {
                PartStep::Over(PartOutcome::Cancelled)
            } else if control == PAUSE {
                PartStep::Sleep(HOLD_MS)
            } else {
                *phase = PartPhase::Send { attempt: 1 };
                PartStep::Send
            }
        },
        PartPhase::Send { attempt } => PartStep::Send,
        PartPhase::Wait { attempt, left } => match sleep_with_control(left, control) {
            SleepStep::Done => {
                *phase = PartPhase::Send { attempt: attempt + 1 };
                PartStep::Send
            },
            SleepStep::Cancelled => PartStep::Over(PartOutcome::Cancelled),
            SleepStep::Hold(ms) => PartStep::Sleep(ms),
            SleepStep::Slice(ms) => {
                *phase = PartPhase::Wait { attempt, left: left - ms };
                PartStep::Sleep(ms)
            },
        },
    }
}

/// How an attempt to send a part went.
#[derive(Debug)]
pub enum Sent {
    /// The part was stored under this tag.
    Stored(String),
    /// The recording could not be opened.
    CannotOpen(String),
    /// The recording could not be read from where the part begins.
    CannotRead(String),
    /// The part was not stored.
    Refused(PartError),
}

/// What becomes of a part after an attempt.
#[derive(Debug)]
pub enum AfterAttempt {
    Over(PartOutcome),
    /// It is sent again after a wait; the warning to give.
    Again(String),
}

/// What an `AfterAttempt` holds.
pub enum AfterModel {
    Over(OutcomeModel),
    Again(Seq<char>),
}

impl View for AfterAttempt {
    type V = AfterModel;

    open spec fn view(&self) -> AfterModel {
        match self {
            AfterAttempt::Over(o) => AfterModel::Over(o@),
            AfterAttempt::Again(warning) => AfterModel::Again(warning@),
        }
    }
}

/// The message of a part that was given up.
pub open spec fn given_up_message(msg: Seq<char>, attempt: int) -> Seq<char> {
    msg + " (after "@ + decimal(attempt) + " attempts)"@
}

/// The warning that a part is sent again.
pub open spec fn retry_message(index: int, filename: Seq<char>, msg: Seq<char>, attempt: int) -> Seq<char> {
    "[Video] Part "@ + decimal(index + 1) + " of "@ + filename + " failed ("@ + msg
        + "), retrying ("@ + decimal(attempt) + "/"@ + decimal(MAX_PART_ATTEMPTS as int) + ")…"@
}

/// What becomes of a part after its `attempt`th attempt, and the phase behind it. A
/// cancellation shows itself as a failed attempt.
pub open spec fn after_attempt(attempt: u32, sent: Sent, control: u8, index: int, filename: Seq<char>) -> (
    AfterModel,
    PartPhase,
) {
    let stays = PartPhase::Send { attempt };
    match sent {
        Sent::Stored(tag) => (AfterModel::Over(OutcomeModel::Done(tag@)), stays),
        Sent::CannotOpen(e) => (
            AfterModel::Over(OutcomeModel::Failed("can't open recording: "@ + e@)),
            stays,
        ),
        Sent::CannotRead(e) => (
            AfterModel::Over(OutcomeModel::Failed("can't read recording: "@ + e@)),
            stays,
        ),
        Sent::Refused(e) => if control == CANCEL {
            (AfterModel::Over(OutcomeModel::Cancelled), stays)
        } else if !e.retryable || attempt >= MAX_PART_ATTEMPTS {
            (
                AfterModel::Over(OutcomeModel::Failed(given_up_message(e.msg@, attempt as int))),
                stays,
            )
        } else {
            (
                AfterModel::Again(retry_message(index, filename, e.msg@, attempt as int)),
                PartPhase::Wait { attempt, left: backoff(attempt as int) as u64 },
            )
        },
    }
}

/// What becomes of a part after an attempt.
pub fn part_sent(
    phase: &mut PartPhase,
    sent: Sent,
    control: u8,
    index: usize,
    filename: &str,
) -> (r: AfterAttempt)
    requires
        old(phase).wf(),
        *old(phase) is Send,
        index < usize::MAX,
    ensures
        (r@, *final(phase)) == after_attempt(
            old(phase).sends() as u32,
            sent,
            control,
            index as int,
            filename@,
        ),
        final(phase).wf(),
{
    let attempt: u32 = match *phase {
        PartPhase::Send { attempt } => attempt,
        _ => 0,
    };
    match sent {
        Sent::Stored(tag) => AfterAttempt::Over(PartOutcome::Done(tag)),
        Sent::CannotOpen(e) => {
            let mut text = "can't open recording: ".to_owned();
            text.append(e.as_str());
            AfterAttempt::Over(PartOutcome::Failed(text))
        },
        Sent::CannotRead(e) => {
            let mut text = "can't read recording: ".to_owned();
            text.append(e.as_str());
            AfterAttempt::Over(PartOutcome::Failed(text))
        },
        Sent::Refused(e) => {
            if control == CANCEL {
                return AfterAttempt::Over(PartOutcome::Cancelled);
            }
            let tries = u64_text(attempt as u64);
            if !e.retryable || attempt >= MAX_PART_ATTEMPTS {
                let mut text = e.msg;
                text.append(" (after ");
                text.append(tries.as_str());
                text.append(" attempts)");
                assert(text@ =~= given_up_message(e.msg@, attempt as int));
                return AfterAttempt::Over(PartOutcome::Failed(text));
            }
            let mut text = "[Video] Part ".to_owned();
            text.append(u64_text(index as u64 + 1).as_str());
            text.append(" of ");
            text.append(filename);
            text.append(" failed (");
            text.append(e.msg.as_str());
            text.append("), retrying (");
            text.append(tries.as_str());
            text.append("/");
            text.append(u64_text(MAX_PART_ATTEMPTS as u64).as_str());
            text.append(")…");
            assert(text@ =~= retry_message(index as int, filename@, e.msg@, attempt as int));
            proof {
                reveal_with_fuel(backoff, 4);
            }
            let left: u64 = if attempt == 1 {
                500
            } else if attempt == 2 {
                1000
            } else {
                2000
            };
            *phase = PartPhase::Wait { attempt, left };
            AfterAttempt::Again(text)
        },
    }
}

/// A part is sent at most as often as the bound allows: each sending counts one more
/// than the one before, no step counts back, and none leaves the bound.
pub proof fn attempts_are_bounded(
    phase: PartPhase,
    sent: Sent,
    control: u8,
    index: int,
    filename: Seq<char>,
)
    requires
        phase.wf(),
    ensures
        phase.sends() <= MAX_PART_ATTEMPTS,
        phase.next(control).1.wf(),
        phase.next(control).1.sends() == phase.sends() + (if phase is Send || phase.next(
            control,
        ).0 !is Send {
            0int
        } else {
            1
        }),
        phase is Send ==> {
            let after = after_attempt(phase.sends() as u32, sent, control, index, filename);
            &&& after.1.wf()
            &&& after.1.sends() == phase.sends()
            &&& after.0 is Again ==> phase.sends() < MAX_PART_ATTEMPTS && after.1 is Wait
        },
{
    reveal_with_fuel(backoff, 4);
}

/// A cancellation is honoured wherever it is noticed: before a part is begun, after an
/// attempt that failed, and while a wait lasts. Nothing is sent any more.
pub proof fn cancellation_is_honoured(phase: PartPhase, sent: Sent, index: int, filename: Seq<char>)
    requires
        phase.wf(),
    ensures
        phase is Hold ==> phase.next(CANCEL).0 == StepModel::Over(OutcomeModel::Cancelled),
        phase matches PartPhase::Wait { left, .. } && left > 0 ==> phase.next(CANCEL).0
            == StepModel::Over(OutcomeModel::Cancelled),
        phase is Send && sent is Refused ==> after_attempt(
            phase.sends() as u32,
            sent,
            CANCEL,
            index,
            filename,
        ).0 == AfterModel::Over(OutcomeModel::Cancelled),
{
}

/// A pause holds: nothing is begun, and a wait uses up no time while it lasts.
pub proof fn pause_holds(phase: PartPhase)
    ensures
        phase is Hold ==> phase.next(PAUSE) == (StepModel::Sleep(HOLD_MS), phase),
        phase matches PartPhase::Wait { left, .. } && left > 0 ==> phase.next(PAUSE) == (
            StepModel::Sleep(SLICE_MS),
            phase,
        ),
{
}

/// An error that trying again cannot mend is not tried again.
pub proof fn permanent_errors_are_final(
    attempt: u32,
    e: PartError,
    control: u8,
    index: int,
    filename: Seq<char>,
)
    requires
        !e.retryable,
    ensures
        after_attempt(attempt, Sent::Refused(e), control, index, filename).0 is Over,
{
}

/// How far the upload of a recording has come.
#[derive(Debug)]
pub struct Progress {
    /// Bytes sent, counting a part that is being sent again from its beginning.
    pub uploaded: u64,
    /// The most bytes ever sent, which is what is shown.
    pub shown: u64,
    /// When progress was last shown, in milliseconds.
    pub last_emit: u64,
}

/// How often progress is shown, in milliseconds.
pub const EMIT_MS: u64 = 200;

impl Progress {
    /// Nothing has been sent or shown yet.
    pub fn new() -> (r: Self)
        ensures
            r.uploaded == 0,
            r.shown == 0,
            r.last_emit == 0,
    {
        Progress { uploaded: 0, shown: 0, last_emit: 0 }
    }

    /// The state behind the beginning, or another beginning, of the part at `offset`.
    pub open spec fn restarted(self, offset: u64) -> Progress {
        Progress { uploaded: offset, ..self }
    }

    /// Whether progress is due to be shown at `now`.
    pub open spec fn due(self, now: u64) -> bool {
        now - self.last_emit >= EMIT_MS
    }

    /// The state behind the sending of `delta` more bytes.
    pub open spec fn advanced(self, delta: u64, now: u64) -> Progress {
        let done = (self.uploaded + delta) as u64;
        Progress {
            uploaded: done,
            shown: if done > self.shown {
                done
            } else {
                self.shown
            },
            last_emit: if self.due(now) {
                now
            } else {
                self.last_emit
            },
        }
    }

    /// The part at `offset` begins, for the first time or again.
    pub fn restart(&mut self, offset: u64)
        ensures
            *final(self) == old(self).restarted(offset),
    {
        self.uploaded = offset;
    }

    /// `delta` more bytes were sent. The number of bytes to show, where that is due.
    pub fn advance(&mut self, delta: u64, now: u64) -> (r: Option<u64>)
        requires
            old(self).uploaded + delta <= u64::MAX,
        ensures
            *final(self) == old(self).advanced(delta, now),
            r == (if old(self).due(now) {
                Some(final(self).shown)
            } else {
                None::<u64>
            }),
    {
        let done: u64 = self.uploaded + delta;
        self.uploaded = done;
        if done > self.shown {
            self.shown = done;
        }
        if now >= self.last_emit && now - self.last_emit >= EMIT_MS {
            self.last_emit = now;
            Some(self.shown)
        } else {
            None
        }
    }
}

/// Something that happens to the progress of an upload.
pub enum ProgressEvent {
    Restart { offset: u64 },
    Advance { delta: u64, now: u64 },
}

/// The progress behind a run of events.
pub open spec fn progress_after(p: Progress, events: Seq<ProgressEvent>) -> Progress
    decreases events.len(),
{
    if events.len() == 0 {
        p
    } else {
        let before = progress_after(p, events.drop_last());
        match events.last() {
            ProgressEvent::Restart { offset } => before.restarted(offset),
            ProgressEvent::Advance { delta, now } => before.advanced(delta, now),
        }
    }
}

/// Progress is not shown again within the interval.
pub proof fn progress_is_shown_now_and_then(p: Progress, delta: u64, now: u64, later: u64)
    requires
        p.due(now),
        later < now + EMIT_MS,
    ensures
        !p.advanced(delta, now).due(later),
{
}

/// What is shown never goes back, though parts are begun again.
pub proof fn shown_progress_never_falls(p: Progress, events: Seq<ProgressEvent>, i: int, j: int)
    requires
        0 <= i <= j <= events.len(),
    ensures
        progress_after(p, events.take(i)).shown <= progress_after(p, events.take(j)).shown,
    decreases j,
{
    if i < j {
        shown_progress_never_falls(p, events, i, j - 1);
        assert(events.take(j).drop_last() =~= events.take(j - 1));
    }
}

/// Where the part that is being sent begins, once `events` have happened since `start`.
pub open spec fn begun_at(start: int, events: Seq<ProgressEvent>) -> int
    decreases events.len(),
{
    if events.len() == 0 {
        start
    } else {
        match events.last() {
            ProgressEvent::Restart { offset } => offset as int,
            ProgressEvent::Advance { .. } => begun_at(start, events.drop_last()),
        }
    }
}

/// How many bytes have been sent since the part that is being sent began.
pub open spec fn sent_since(events: Seq<ProgressEvent>) -> int
    decreases events.len(),
{
    if events.len() == 0 {
        0
    } else {
        match events.last() {
            ProgressEvent::Restart { .. } => 0,
            ProgressEvent::Advance { delta, .. } => sent_since(events.drop_last()) + delta,
        }
    }
}

/// What is shown never exceeds the size of a file, where no part begins behind its end and
/// none is sent beyond it.
pub proof fn shown_progress_stays_within(p: Progress, events: Seq<ProgressEvent>, size: u64)
    requires
        p.shown <= size,
        forall|i: int|
            0 <= i <= events.len() ==> begun_at(p.uploaded as int, #[trigger] events.take(i))
                + sent_since(events.take(i)) <= size,
    ensures
        progress_after(p, events).shown <= size,
        progress_after(p, events).uploaded == begun_at(p.uploaded as int, events) + sent_since(events),
    decreases events.len(),
{
    assert(events.take(events.len() as int) =~= events);
    if events.len() > 0 {
        let t = events.drop_last();
        assert forall|i: int| 0 <= i <= t.len() implies begun_at(
            p.uploaded as int,
            #[trigger] t.take(i),
        ) + sent_since(t.take(i)) <= size by {
            assert(t.take(i) =~= events.take(i));
        }
        shown_progress_stays_within(p, t, size);
    }
}

} // verus!
