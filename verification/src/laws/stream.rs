//! The server's event stream: what is announced, and how long to wait for the next connection.
use vstd::prelude::*;
use vstd::string::*;

use crate::api::Status;
use crate::events::{Backoff, EventReader, Listened, stream_reply};
use crate::laws::texts::{lemma_trims, lemma_trims_unique, trims_to};
use crate::text::trim;

verus! {

/// An event is announced when it ends, exactly if it is named as one that changes pulls; the
/// line that names it does so with what follows the colon, without the white space around it;
/// every other line is passed over, and an ended event is forgotten.
pub proof fn pulls_that_change_are_announced(
    reader: &mut EventReader,
    line: &str,
    value: Seq<char>,
    kind: Seq<char>,
    r: bool,
)
    requires
        call_ensures(EventReader::line, (reader, line), r),
    ensures
        r <==> line@.len() == 0 && old(reader).event_type@ == "pulls-changed"@,
        line@.len() == 0 ==> final(reader).event_type@.len() == 0,
        line@ == "event:"@ + value && trims_to(value, kind) ==> final(reader).event_type@ == kind,
        line@.len() > 0 && (forall|v: Seq<char>| line@ != #[trigger] ("event:"@ + v)) ==> {
            final(reader).event_type@ == old(reader).event_type@
        },
{
    let p = "event:"@;
    reveal_strlit("event:");
    assert(p.len() == 6);
    if line@ == p + value && trims_to(value, kind) {
        assert(line@.take(6) =~= p);
        assert(line@.skip(6) =~= value);
        lemma_trims(value);
        lemma_trims_unique(value, kind, trim(value));
    }
    if forall|v: Seq<char>| line@ != #[trigger] (p + v) {
        if crate::text::starts(line@, p) {
            let v = line@.skip(6);
            assert(line@ =~= p + v);
        }
    }
}

/// A reader begins with no event, and the wait with three seconds.
pub proof fn nothing_is_announced_at_first(reader: EventReader, b: Backoff)
    requires
        call_ensures(EventReader::new, (), reader),
        call_ensures(Backoff::new, (), b),
    ensures
        reader.event_type@.len() == 0,
        b.seconds == 3,
{
}

/// While nobody is signed in the wait is ten seconds, and after a rejected token a minute, and
/// neither changes the wait after a failure. A connection that came to its end is followed by
/// three seconds, to which the wait falls back. Any other failure is followed by the wait,
/// which then doubles, up to a minute.
pub proof fn waits_follow_what_happened(b: &mut Backoff, l: &Listened, r: u64)
    requires
        call_ensures(Backoff::after, (b, l), r),
        3 <= old(b).seconds <= 60,
    ensures
        l is SignedOut ==> r == 10 && final(b).seconds == old(b).seconds,
        (l matches Listened::Over(o) && o is Ok) ==> r == 3 && final(b).seconds == 3,
        (l matches Listened::Over(Err(e)) && e@ == "unauthorized"@) ==> r == 60 && final(b).seconds
            == old(b).seconds,
        (l matches Listened::Over(Err(e)) && e@ != "unauthorized"@) ==> {
            &&& r == old(b).seconds
            &&& old(b).seconds <= 30 ==> final(b).seconds == 2 * old(b).seconds
            &&& old(b).seconds >= 30 ==> final(b).seconds == 60
        },
{
}

/// The stream is open exactly if the server says that all is well; a rejected token is told
/// from every other refusal, of which the status is told.
pub proof fn the_stream_opens_on_success(status: &Status, r: Result<(), String>)
    requires
        call_ensures(stream_reply, (status,), r),
    ensures
        r is Ok <==> 200 <= status.code < 300,
        status.code == 401 ==> r->Err_0@ == "unauthorized"@,
        r is Err && status.code != 401 ==> r->Err_0@ == "status "@ + status.text@,
{
}

} // verus!
