//! The order in which recordings are listed.
use vstd::prelude::*;
use vstd::string::*;
use vstd::utf8::*;

use crate::laws::{lemma_same, lemma_videos, same_video};
use crate::order::{
    bytes_less, in_order, insert_listed, listed_before, rank, sort_items, status_rank, text_before,
};
use crate::scan::{VideoItem, VideoModel, video_models};

verus! {

/// The statuses in the order in which they are listed; anything else comes last.
pub open spec fn status_at(i: int) -> Seq<char> {
    if i == 0 {
        "matched"@
    } else if i == 1 {
        "uploading"@
    } else if i == 2 {
        "uploaded"@
    } else if i == 3 {
        "unmatched"@
    } else if i == 4 {
        "pending"@
    } else if i == 5 {
        "error"@
    } else {
        "skipped"@
    }
}

proof fn lemma_status_at(i: int, s: Seq<char>)
    ensures
        0 <= i < 7 && s == status_at(i) ==> rank(s) == i,
        rank(s) < 7 ==> 0 <= rank(s) && s == status_at(rank(s)),
        rank(s) <= 7,
{
    reveal_strlit("matched");
    reveal_strlit("uploading");
    reveal_strlit("uploaded");
    reveal_strlit("unmatched");
    reveal_strlit("pending");
    reveal_strlit("error");
    reveal_strlit("skipped");
    assert("matched"@.len() == 7 && "pending"@.len() == 7 && "skipped"@.len() == 7);
    assert("matched"@[0] == 'm' && "pending"@[0] == 'p' && "skipped"@[0] == 's');
    assert("uploading"@.len() == 9 && "unmatched"@.len() == 9);
    assert("uploading"@[1] == 'p' && "unmatched"@[1] == 'n');
    assert("uploaded"@.len() == 8 && "error"@.len() == 5);
}

/// A status is listed in its place: matched, uploading, uploaded, unmatched, pending, error,
/// skipped, and then anything else.
pub proof fn statuses_have_their_places(s: &str, r: u8, i: int)
    requires
        call_ensures(status_rank, (s,), r),
    ensures
        0 <= i < 7 && s@ == status_at(i) ==> r == i,
        (forall|j: int| 0 <= j < 7 ==> s@ != #[trigger] status_at(j)) ==> r == 7,
{
    lemma_status_at(i, s@);
}

/// Whether one text comes before another byte by byte: at the first place at which they
/// differ it has the smaller byte, or it ends there.
pub open spec fn bytes_before(a: Seq<u8>, b: Seq<u8>) -> bool {
    exists|k: int|
        0 <= k <= a.len() && k < b.len() && #[trigger] a.take(k) == b.take(k) && (k == a.len() || a[k] < b[k])
}

proof fn lemma_bytes(a: Seq<u8>, b: Seq<u8>)
    ensures
        bytes_less(a, b) == bytes_before(a, b),
    decreases b.len(),
{
    if b.len() == 0 {
    } else if a.len() == 0 {
        assert(a.take(0) =~= b.take(0));
    } else if a[0] == b[0] {
        let x = a.skip(1);
        let y = b.skip(1);
        lemma_bytes(x, y);
        if bytes_before(x, y) {
            let k = choose|k: int|
                0 <= k <= x.len() && k < y.len() && #[trigger] x.take(k) == y.take(k) && (k == x.len()
                    || x[k] < y[k]);
            assert forall|j: int| 0 <= j < k + 1 implies a[j] == b[j] by {
                if j > 0 {
                    assert(x.take(k)[j - 1] == y.take(k)[j - 1]);
                }
            }
            assert(a.take(k + 1) =~= b.take(k + 1));
        }
        if bytes_before(a, b) {
            let k = choose|k: int|
                0 <= k <= a.len() && k < b.len() && #[trigger] a.take(k) == b.take(k) && (k == a.len()
                    || a[k] < b[k]);
            assert(k > 0);
            assert forall|j: int| 0 <= j < k - 1 implies x[j] == y[j] by {
                assert(a.take(k)[j + 1] == b.take(k)[j + 1]);
            }
            assert(x.take(k - 1) =~= y.take(k - 1));
        }
    } else {
        if a[0] < b[0] {
            assert(a.take(0) =~= b.take(0));
        }
        if bytes_before(a, b) {
            let k = choose|k: int|
                0 <= k <= a.len() && k < b.len() && #[trigger] a.take(k) == b.take(k) && (k == a.len()
                    || a[k] < b[k]);
            if k > 0 {
                assert(a.take(k)[0] == b.take(k)[0]);
            }
        }
    }
}

/// File names are ordered by the bytes of their UTF-8 form.
pub proof fn names_are_ordered_by_bytes(s: &str, t: &str, r: bool)
    requires
        call_ensures(text_before, (s, t), r),
    ensures
        r <==> bytes_before(encode_utf8(s@), encode_utf8(t@)),
{
    lemma_bytes(encode_utf8(s@), encode_utf8(t@));
}

/// Whether one status is listed before another.
pub open spec fn status_before(s: Seq<char>, t: Seq<char>) -> bool {
    exists|i: int|
        0 <= i < 7 && s == #[trigger] status_at(i) && forall|j: int|
            0 <= j <= i ==> t != #[trigger] status_at(j)
}

proof fn lemma_status_before(s: Seq<char>, t: Seq<char>)
    ensures
        status_before(s, t) <==> rank(s) < rank(t),
{
    lemma_status_at(rank(s), s);
    lemma_status_at(rank(t), t);
    if rank(s) < rank(t) {
        let i = rank(s);
        assert(s == status_at(i));
        assert forall|j: int| 0 <= j <= i implies t != #[trigger] status_at(j) by {
            lemma_status_at(j, t);
        }
    }
    if status_before(s, t) {
        let i = choose|i: int|
            0 <= i < 7 && s == #[trigger] status_at(i) && forall|j: int|
                0 <= j <= i ==> t != #[trigger] status_at(j);
        lemma_status_at(i, s);
        if rank(t) <= i {
            assert(t == status_at(rank(t)));
        }
    }
}

/// Whether one recording is to be listed before another: by status, and with the same status
/// by file name.
pub open spec fn goes_before(a: VideoItem, b: VideoItem) -> bool {
    status_before(a.status@, b.status@) || (!status_before(b.status@, a.status@) && bytes_before(
        encode_utf8(a.filename@),
        encode_utf8(b.filename@),
    ))
}

pub(crate) proof fn lemma_goes_before(a: VideoItem, b: VideoItem)
    ensures
        goes_before(a, b) == listed_before(a@, b@),
{
    lemma_status_before(a.status@, b.status@);
    lemma_status_before(b.status@, a.status@);
    lemma_bytes(encode_utf8(a.filename@), encode_utf8(b.filename@));
}

/// Whether `of` says of each place of `out` which of `items` stands there: each once, none
/// behind one it is to be listed before, and in the order of `items` where nothing else
/// decides.
pub open spec fn arranges(items: Seq<VideoModel>, out: Seq<VideoModel>, of: Seq<int>) -> bool {
    &&& of.len() == items.len() && out.len() == items.len()
    &&& forall|p: int| 0 <= p < of.len() ==> 0 <= #[trigger] of[p] < items.len() && out[p] == items[of[p]]
    &&& forall|p: int, q: int|
        0 <= p < q < of.len() ==> {
            &&& #[trigger] of[p] != #[trigger] of[q]
            &&& !listed_before(out[q], out[p])
            &&& !listed_before(out[p], out[q]) ==> of[p] < of[q]
        }
}

proof fn lemma_insert(s: Seq<VideoModel>, x: VideoModel) -> (at: int)
    ensures
        0 <= at <= s.len(),
        insert_listed(s, x) == s.take(at).push(x) + s.skip(at),
        forall|j: int| at <= j < s.len() ==> listed_before(x, #[trigger] s[j]),
        at > 0 ==> !listed_before(x, s[at - 1]),
    decreases s.len(),
{
    if s.len() == 0 || !listed_before(x, s.last()) {
        let n = s.len() as int;
        assert(s.take(n) =~= s);
        assert(s.push(x) =~= s.take(n).push(x) + s.skip(n));
        n
    } else {
        let t = s.drop_last();
        let at = lemma_insert(t, x);
        assert(t.take(at) =~= s.take(at));
        assert(t.skip(at).push(s.last()) =~= s.skip(at));
        assert((t.take(at).push(x) + t.skip(at)).push(s.last()) =~= s.take(at).push(x) + s.skip(at));
        assert forall|j: int| at <= j < s.len() implies listed_before(x, #[trigger] s[j]) by {
            if j < t.len() {
                assert(t[j] == s[j]);
            }
        }
        if at > 0 {
            assert(t[at - 1] == s[at - 1]);
        }
        at
    }
}

pub(crate) proof fn lemma_arranged(items: Seq<VideoModel>) -> (of: Seq<int>)
    ensures
        arranges(items, in_order(items), of),
    decreases items.len(),
{
    if items.len() == 0 {
        Seq::empty()
    } else {
        let t = items.drop_last();
        let x = items.last();
        let n = t.len() as int;
        let s = in_order(t);
        let before = lemma_arranged(t);
        let at = lemma_insert(s, x);
        let of = before.take(at).push(n) + before.skip(at);
        let out = in_order(items);
        crate::order::order_is_sorted(items);
        assert forall|p: int| 0 <= p < of.len() implies 0 <= #[trigger] of[p] < items.len() && out[p]
            == items[of[p]] by {
            if p < at {
                assert(of[p] == before[p] && out[p] == s[p]);
                assert(t[before[p]] == items[before[p]]);
            } else if p > at {
                assert(of[p] == before[p - 1] && out[p] == s[p - 1]);
                assert(t[before[p - 1]] == items[before[p - 1]]);
            }
        }
        assert forall|p: int, q: int| 0 <= p < q < of.len() implies {
            &&& #[trigger] of[p] != #[trigger] of[q]
            &&& !listed_before(out[q], out[p])
            &&& !listed_before(out[p], out[q]) ==> of[p] < of[q]
        } by {
            assert(!listed_before(out[q], out[p]));
            let i = if p > at {
                p - 1
            } else {
                p
            };
            let j = if q > at {
                q - 1
            } else {
                q
            };
            if p == at {
                assert(of[q] == before[j] && out[q] == s[j]);
                assert(listed_before(x, s[j]));
            } else if q == at {
                assert(of[p] == before[i]);
            } else {
                assert(of[p] == before[i] && of[q] == before[j]);
                assert(out[p] == s[i] && out[q] == s[j]);
                assert(i < j);
            }
        }
        of
    }
}

/// Recordings are listed by status and then by file name; nothing is lost or listed twice,
/// and what has the same place keeps the order in which it was found.
pub proof fn recordings_are_listed_in_order(
    items: Vec<VideoItem>,
    r: Vec<VideoItem>,
) -> (of: Seq<int>)
    requires
        call_ensures(sort_items, (items,), r),
    ensures
        of.len() == items@.len() && r@.len() == items@.len(),
        forall|p: int|
            0 <= p < of.len() ==> 0 <= #[trigger] of[p] < items@.len() && same_video(r@[p], items@[of[p]]),
        forall|p: int, q: int|
            0 <= p < q < of.len() ==> {
                &&& #[trigger] of[p] != #[trigger] of[q]
                &&& !goes_before(r@[q], r@[p])
                &&& !goes_before(r@[p], r@[q]) ==> of[p] < of[q]
            },
{
    lemma_videos(items@);
    lemma_videos(r@);
    let of = lemma_arranged(video_models(items@));
    assert forall|p: int| 0 <= p < of.len() implies 0 <= #[trigger] of[p] < items@.len() && same_video(
        r@[p],
        items@[of[p]],
    ) by {
        assert(video_models(r@)[p] == r@[p]@);
        assert(video_models(items@)[of[p]] == items@[of[p]]@);
        lemma_same(r@[p], items@[of[p]]);
    }
    assert forall|p: int, q: int| 0 <= p < q < of.len() implies {
        &&& #[trigger] of[p] != #[trigger] of[q]
        &&& !goes_before(r@[q], r@[p])
        &&& !goes_before(r@[p], r@[q]) ==> of[p] < of[q]
    } by {
        assert(video_models(r@)[p] == r@[p]@);
        assert(video_models(r@)[q] == r@[q]@);
        lemma_goes_before(r@[p], r@[q]);
        lemma_goes_before(r@[q], r@[p]);
    }
    of
}

} // verus!
