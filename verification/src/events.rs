//! The server's event stream: what a line of it means, and when to connect again.
use vstd::prelude::*;
use vstd::string::*;

use crate::api::Status;
use crate::text::{same_text, starts, strip_start, trim, trimmed};

verus! {

/// How long to wait after a connection has ended, in seconds.
pub const RECONNECT_S: u64 = 3;

/// How long to wait at most after a failure, in seconds.
pub const MAX_BACKOFF_S: u64 = 60;

/// How long to wait while nobody is signed in, in seconds.
pub const SIGNED_OUT_S: u64 = 10;

/// How long to wait after the token was rejected, in seconds.
pub const REJECTED_S: u64 = 60;

/// Whether the event stream was opened, and what went wrong where it was not.
pub fn stream_reply(status: &Status) -> (r: Result<(), String>)
    ensures
        if status.code == 401 {
            r matches Err(e) && e@ == "unauthorized"@
        } else if !status.success() {
            r matches Err(e) && e@ == "status "@ + status.text@
        } else {
            r is Ok
        },
{
    if status.code == 401 {
        Err("unauthorized".to_owned())
    } else if !status.is_success() {
        let mut e = "status ".to_owned();
        e.append(status.text.as_str());
        Err(e)
    } else {
        Ok(())
    }
}

/// What has been read of an event.
#[derive(Debug)]
pub struct EventReader {
    /// What kind of event it is; empty where that has not been said.
    pub event_type: String,
}

/// The kind of event behind a line.
pub open spec fn kind_after(kind: Seq<char>, line: Seq<char>) -> Seq<char> {
    if line.len() == 0 {
        Seq::empty()
    } else if starts(line, "event:"@) {
        trim(line.skip(6))
    } else {
        kind
    }
}

/// Whether a line ends an event that says that pulls have changed.
pub open spec fn announces(kind: Seq<char>, line: Seq<char>) -> bool {
    line.len() == 0 && kind == "pulls-changed"@
}

impl EventReader {
    /// Nothing has been read.
    pub fn new() -> (r: Self)
        ensures
            r.event_type@.len() == 0,
    {
        let r = EventReader { event_type: String::new() };
        r
    }

    /// Takes in a line. Whether pulls have changed. Lines other than the one that names
    /// the kind of an event and the empty one that ends it are passed over.
    pub fn line(&mut self, line: &str) -> (r: bool)
        ensures
            r == announces(old(self).event_type@, line@),
            final(self).event_type@ == kind_after(old(self).event_type@, line@),
    {
        proof {
            reveal_strlit("event:");
        }
        if line.unicode_len() == 0 {
            let r: bool = same_text(self.event_type.as_str(), "pulls-changed");
            self.event_type = String::new();
            assert(self.event_type@ =~= Seq::<char>::empty());
            return r;
        }
        match strip_start(line, "event:") {
            Some(rest) => {
                self.event_type = trimmed(rest).to_owned();
            },
            None => {},
        }
        false
    }
}

/// The kind of event behind some lines.
pub open spec fn kind_of(lines: Seq<Seq<char>>) -> Seq<char>
    decreases lines.len(),
{
    if lines.len() == 0 {
        Seq::empty()
    } else {
        kind_after(kind_of(lines.drop_last()), lines.last())
    }
}

/// How often some lines say that pulls have changed.
pub open spec fn announcements(lines: Seq<Seq<char>>) -> nat
    decreases lines.len(),
{
    if lines.len() == 0 {
        0
    } else {
        announcements(lines.drop_last()) + (if announces(
            kind_of(lines.drop_last()),
            lines.last(),
        ) {
            1nat
        } else {
            0
        })
    }
}

/// Whether a line is neither empty nor names the kind of an event.
pub open spec fn is_noise(line: Seq<char>) -> bool {
    line.len() > 0 && !starts(line, "event:"@)
}

proof fn lemma_noise(lines: Seq<Seq<char>>, noise: Seq<Seq<char>>)
    requires
        forall|i: int| 0 <= i < noise.len() ==> is_noise(#[trigger] noise[i]),
    ensures
        kind_of(lines + noise) == kind_of(lines),
        announcements(lines + noise) == announcements(lines),
    decreases noise.len(),
{
    if noise.len() == 0 {
        assert(lines + noise =~= lines);
    } else {
        let t = noise.drop_last();
        assert forall|i: int| 0 <= i < t.len() implies is_noise(#[trigger] t[i]) by {
            assert(t[i] == noise[i]);
        }
        lemma_noise(lines, t);
        assert((lines + noise).drop_last() =~= lines + t);
        assert((lines + noise).last() == noise.last());
        assert(is_noise(noise[noise.len() - 1]));
    }
}

/// An event is announced once, however much data and however many keep-alive comments it
/// holds, and it is forgotten when it ends.
pub proof fn events_are_announced_once(lines: Seq<Seq<char>>, noise: Seq<Seq<char>>, head: Seq<char>)
    requires
        starts(head, "event:"@),
        trim(head.skip(6)) == "pulls-changed"@,
        forall|i: int| 0 <= i < noise.len() ==> is_noise(#[trigger] noise[i]),
    ensures
        announcements(lines.push(head) + noise + seq![Seq::<char>::empty()]) == announcements(lines)
            + 1,
        kind_of(lines.push(head) + noise + seq![Seq::<char>::empty()]).len() == 0,
{
    reveal_strlit("event:");
    let a = lines.push(head);
    assert(a.drop_last() =~= lines);
    lemma_noise(a, noise);
    let b = a + noise;
    let c = b + seq![Seq::<char>::empty()];
    assert(c.drop_last() =~= b);
    assert(c.last() == Seq::<char>::empty());
}

/// How a connection to the event stream ended.
#[derive(Debug)]
pub enum Listened {
    /// There was none: nobody is signed in.
    SignedOut,
    /// It came to its end, or failed.
    Over(Result<(), String>),
}

/// How long to wait before connecting again, in seconds, and how long after the next
/// failure. A rejected token is left alone for a while; other failures double the wait.
pub open spec fn next_wait(backoff: int, l: Listened) -> (int, int) {
    match l {
        Listened::SignedOut => (SIGNED_OUT_S as int, backoff),
        Listened::Over(Ok(_)) => (RECONNECT_S as int, RECONNECT_S as int),
        Listened::Over(Err(e)) => if e@ == "unauthorized"@ {
            (REJECTED_S as int, backoff)
        } else if 2 * backoff < MAX_BACKOFF_S {
            (backoff, 2 * backoff)
        } else {
            (backoff, MAX_BACKOFF_S as int)
        },
    }
}

/// When to connect again.
#[derive(Debug)]
pub struct Backoff {
    pub seconds: u64,
}

impl Backoff {
    /// The wait is never shorter than after an ended connection, nor longer than the
    /// bound.
    pub open spec fn wf(self) -> bool {
        RECONNECT_S <= self.seconds <= MAX_BACKOFF_S
    }

    /// No failure yet.
    pub fn new() -> (r: Self)
        ensures
            r.wf(),
            r.seconds == RECONNECT_S,
    {
        Backoff { seconds: RECONNECT_S }
    }

    /// How long to wait before connecting again, in seconds.
    pub fn after(&mut self, l: &Listened) -> (r: u64)
        requires
            old(self).wf(),
        ensures
            (r as int, final(self).seconds as int) == next_wait(old(self).seconds as int, *l),
            final(self).wf(),
    {
        match l {
            Listened::SignedOut => SIGNED_OUT_S,
            Listened::Over(Ok(_)) => {
                self.seconds = RECONNECT_S;
                RECONNECT_S
            },
            Listened::Over(Err(e)) => {
                if same_text(e.as_str(), "unauthorized") {
                    REJECTED_S
                } else {
                    let wait: u64 = self.seconds;
                    self.seconds = if 2 * wait < MAX_BACKOFF_S {
                        2 * wait
                    } else {
                        MAX_BACKOFF_S
                    };
                    wait
                }
            },
        }
    }
}

/// The wait is always between the bounds, and failures in a row never shorten it.
pub proof fn waits_are_bounded(backoff: int, l: Listened)
    requires
        RECONNECT_S <= backoff <= MAX_BACKOFF_S,
    ensures
        RECONNECT_S <= next_wait(backoff, l).0 <= MAX_BACKOFF_S,
        RECONNECT_S <= next_wait(backoff, l).1 <= MAX_BACKOFF_S,
        l matches Listened::Over(Err(_)) ==> next_wait(backoff, l).1 >= backoff,
{
}

} // verus!
