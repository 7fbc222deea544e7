//! The order in which recordings are listed.
use vstd::prelude::*;
use vstd::string::*;
use vstd::utf8::*;

use crate::scan::{VideoItem, VideoModel, video_models};
use crate::text::same_text;

verus! {

/// The place of a status in the list: matches and uploads first, then the rest.
pub open spec fn rank(s: Seq<char>) -> int {
    if s == "matched"@ {
        0
    } else if s == "uploading"@ {
        1
    } else if s == "uploaded"@ {
        2
    } else if s == "unmatched"@ {
        3
    } else if s == "pending"@ {
        4
    } else if s == "error"@ {
        5
    } else if s == "skipped"@ {
        6
    } else {
        7
    }
}

/// The place of a status in the list.
pub fn status_rank(s: &str) -> (r: u8)
    ensures
        r == rank(s@),
{
    if same_text(s, "matched") {
        0
    } else if same_text(s, "uploading") {
        1
    } else if same_text(s, "uploaded") {
        2
    } else if same_text(s, "unmatched") {
        3
    } else if same_text(s, "pending") {
        4
    } else if same_text(s, "error") {
        5
    } else if same_text(s, "skipped") {
        6
    } else {
        7
    }
}

/// Whether one byte sequence comes before another in lexicographic order.
pub open spec fn bytes_less(a: Seq<u8>, b: Seq<u8>) -> bool
    decreases b.len(),
{
    if b.len() == 0 {
        false
    } else if a.len() == 0 {
        true
    } else if a[0] == b[0] {
        bytes_less(a.skip(1), b.skip(1))
    } else {
        a[0] < b[0]
    }
}

/// Whether one text comes before another: by the bytes of their UTF-8 form, which is
/// by code point.
pub open spec fn text_less(a: Seq<char>, b: Seq<char>) -> bool {
    bytes_less(encode_utf8(a), encode_utf8(b))
}

/// Whether one text comes before another.
pub fn text_before(s: &str, t: &str) -> (r: bool)
    ensures
        r == text_less(s@, t@),
{
    let a = s.as_bytes();
    let b = t.as_bytes();
    let n: usize = a.len();
    let m: usize = b.len();
    let mut i: usize = 0;
    assert(a@.skip(0) =~= a@);
    assert(b@.skip(0) =~= b@);
    while i < n && i < m && a[i] == b[i]
        invariant
            a@ == encode_utf8(s@),
            b@ == encode_utf8(t@),
            n == a@.len(),
            m == b@.len(),
            i <= n,
            i <= m,
            text_less(s@, t@) == bytes_less(a@.skip(i as int), b@.skip(i as int)),
        decreases n - i,
    {
        assert(a@.skip(i as int).skip(1) =~= a@.skip(i + 1));
        assert(b@.skip(i as int).skip(1) =~= b@.skip(i + 1));
        i = i + 1;
    }
    if i >= m {
        false
    } else if i >= n {
        true
    } else {
        a[i] < b[i]
    }
}

/// Whether one recording is listed before another.
pub open spec fn listed_before(a: VideoModel, b: VideoModel) -> bool {
    rank(a.status) < rank(b.status) || (rank(a.status) == rank(b.status) && text_less(
        a.filename,
        b.filename,
    ))
}

/// `s` with `x` put behind everything that it is not to be listed before.
pub open spec fn insert_listed(s: Seq<VideoModel>, x: VideoModel) -> Seq<VideoModel>
    decreases s.len(),
{
    if s.len() == 0 || !listed_before(x, s.last()) {
        s.push(x)
    } else {
        insert_listed(s.drop_last(), x).push(s.last())
    }
}

/// The list in display order: by status rank, then by file name, and otherwise as found.
pub open spec fn in_order(items: Seq<VideoModel>) -> Seq<VideoModel>
    decreases items.len(),
{
    if items.len() == 0 {
        Seq::empty()
    } else {
        insert_listed(in_order(items.drop_last()), items.last())
    }
}

proof fn lemma_insert_listed(s: Seq<VideoModel>, x: VideoModel, p: int)
    requires
        0 <= p <= s.len(),
        forall|j: int| p <= j < s.len() ==> listed_before(x, #[trigger] s[j]),
        p > 0 ==> !listed_before(x, s[p - 1]),
    ensures
        insert_listed(s, x) == s.insert(p, x),
    decreases s.len() - p,
{
    if p == s.len() {
        assert(s.insert(p, x) =~= s.push(x));
    } else {
        let t = s.drop_last();
        assert(listed_before(x, s[s.len() - 1]));
        assert forall|j: int| p <= j < t.len() implies listed_before(x, #[trigger] t[j]) by {
            assert(t[j] == s[j]);
        }
        lemma_insert_listed(t, x, p);
        assert(t.insert(p, x).push(s.last()) =~= s.insert(p, x));
    }
}

/// Whether one recording is listed before another.
fn goes_before(a: &VideoItem, b: &VideoItem) -> (r: bool)
    ensures
        r == listed_before(a@, b@),
{
    let x: u8 = status_rank(a.status.as_str());
    let y: u8 = status_rank(b.status.as_str());
    x < y || (x == y && text_before(a.filename.as_str(), b.filename.as_str()))
}

/// Puts `x` in its place in a list.
fn insert_item(out: &mut Vec<VideoItem>, x: VideoItem)
    ensures
        video_models(final(out)@) == insert_listed(video_models(old(out)@), x@),
{
    let mut p: usize = out.len();
    let ghost s = video_models(out@);
    while p > 0 && goes_before(&x, &out[p - 1])
        invariant
            p <= out@.len(),
            s == video_models(out@),
            forall|j: int| p <= j < s.len() ==> listed_before(x@, #[trigger] s[j]),
        decreases p,
    {
        p = p - 1;
    }
    proof {
        lemma_insert_listed(s, x@, p as int);
        assert(video_models(out@.insert(p as int, x)) =~= s.insert(p as int, x@));
    }
    out.insert(p, x);
}

/// The list in display order: by status rank, then by file name, and otherwise as found.
pub fn sort_items(items: Vec<VideoItem>) -> (r: Vec<VideoItem>)
    ensures
        video_models(r@) == in_order(video_models(items@)),
{
    let ghost all = video_models(items@);
    let mut out: Vec<VideoItem> = Vec::new();
    let n: usize = items.len();
    let mut i: usize = 0;
    assert(video_models(out@) =~= in_order(all.take(0)));
    while i < n
        invariant
            n == items@.len(),
            i <= n,
            all == video_models(items@),
            video_models(out@) == in_order(all.take(i as int)),
        decreases n - i,
    {
        proof {
            assert(all.take(i + 1).drop_last() =~= all.take(i as int));
            assert(all.take(i + 1).last() == items@[i as int]@);
        }
        let x = items[i].clone();
        insert_item(&mut out, x);
        i = i + 1;
    }
    assert(all.take(n as int) =~= all);
    out
}

proof fn lemma_bytes_less_asymmetric(a: Seq<u8>, b: Seq<u8>)
    requires
        bytes_less(a, b),
    ensures
        !bytes_less(b, a),
    decreases b.len(),
{
    if a.len() > 0 && a[0] == b[0] {
        lemma_bytes_less_asymmetric(a.skip(1), b.skip(1));
    }
}

/// What comes before `c` comes before `b`, or `b` comes before `c`.
proof fn lemma_bytes_less_splits(a: Seq<u8>, b: Seq<u8>, c: Seq<u8>)
    requires
        bytes_less(a, c),
    ensures
        bytes_less(a, b) || bytes_less(b, c),
    decreases c.len(),
{
    if a.len() > 0 && b.len() > 0 && a[0] == c[0] && a[0] == b[0] {
        lemma_bytes_less_splits(a.skip(1), b.skip(1), c.skip(1));
    }
}

proof fn lemma_listed_before_asymmetric(a: VideoModel, b: VideoModel)
    requires
        listed_before(a, b),
    ensures
        !listed_before(b, a),
{
    if rank(a.status) == rank(b.status) {
        lemma_bytes_less_asymmetric(encode_utf8(a.filename), encode_utf8(b.filename));
    }
}

proof fn lemma_listed_before_splits(a: VideoModel, b: VideoModel, c: VideoModel)
    requires
        listed_before(a, c),
    ensures
        listed_before(a, b) || listed_before(b, c),
{
    if rank(a.status) == rank(c.status) {
        lemma_bytes_less_splits(
            encode_utf8(a.filename),
            encode_utf8(b.filename),
            encode_utf8(c.filename),
        );
    }
}

/// Whether nothing in `s` stands behind something it is to be listed before.
pub open spec fn is_listed_in_order(s: Seq<VideoModel>) -> bool {
    forall|i: int, j: int| 0 <= i < j < s.len() ==> !listed_before(#[trigger] s[j], #[trigger] s[i])
}

proof fn lemma_insert_keeps_order(s: Seq<VideoModel>, x: VideoModel)
    requires
        is_listed_in_order(s),
    ensures
        is_listed_in_order(insert_listed(s, x)),
        forall|k: int|
            0 <= k < insert_listed(s, x).len() ==> #[trigger] insert_listed(s, x)[k] == x
                || s.contains(insert_listed(s, x)[k]),
        insert_listed(s, x).len() == s.len() + 1,
        insert_listed(s, x).to_multiset() == s.to_multiset().insert(x),
    decreases s.len(),
{
    broadcast use vstd::seq_lib::group_to_multiset_ensures;

    let out = insert_listed(s, x);
    if s.len() == 0 || !listed_before(x, s.last()) {
        assert forall|i: int, j: int| 0 <= i < j < out.len() implies !listed_before(
            #[trigger] out[j],
            #[trigger] out[i],
        ) by {
            if j == s.len() && listed_before(x, s[i]) {
                if i < s.len() - 1 {
                    lemma_listed_before_splits(x, s.last(), s[i]);
                }
            }
        }
        assert forall|k: int| 0 <= k < out.len() implies #[trigger] out[k] == x || s.contains(out[k]) by {
            if k < s.len() {
                assert(out[k] == s[k]);
            }
        }
    } else {
        let t = s.drop_last();
        let l = s.last();
        let inner = insert_listed(t, x);
        assert(is_listed_in_order(t)) by {
            assert forall|i: int, j: int| 0 <= i < j < t.len() implies !listed_before(
                #[trigger] t[j],
                #[trigger] t[i],
            ) by {
                assert(t[j] == s[j] && t[i] == s[i]);
            }
        }
        lemma_insert_keeps_order(t, x);
        assert(s =~= t.push(l));
        assert forall|i: int, j: int| 0 <= i < j < out.len() implies !listed_before(
            #[trigger] out[j],
            #[trigger] out[i],
        ) by {
            if j == inner.len() {
                assert(out[i] == inner[i]);
                if inner[i] == x {
                    lemma_listed_before_asymmetric(x, l);
                } else {
                    let m = choose|m: int| 0 <= m < t.len() && t[m] == inner[i];
                    assert(s[m] == inner[i]);
                    assert(!listed_before(s[s.len() - 1], s[m]));
                }
            } else {
                assert(out[j] == inner[j] && out[i] == inner[i]);
            }
        }
        assert forall|k: int| 0 <= k < out.len() implies #[trigger] out[k] == x || s.contains(out[k]) by {
            if k < inner.len() {
                assert(out[k] == inner[k]);
                if inner[k] != x {
                    let m = choose|m: int| 0 <= m < t.len() && t[m] == inner[k];
                    assert(s[m] == inner[k]);
                }
            } else {
                assert(s[s.len() - 1] == out[k]);
            }
        }
        assert(out.to_multiset() =~= s.to_multiset().insert(x));
    }
}

/// The list is in order: nothing stands behind something it is to be listed before.
pub proof fn order_is_sorted(items: Seq<VideoModel>)
    ensures
        is_listed_in_order(in_order(items)),
    decreases items.len(),
{
    if items.len() > 0 {
        order_is_sorted(items.drop_last());
        lemma_insert_keeps_order(in_order(items.drop_last()), items.last());
    }
}

/// Ordering the list drops nothing and repeats nothing.
pub proof fn order_keeps_every_item(items: Seq<VideoModel>)
    ensures
        in_order(items).to_multiset() == items.to_multiset(),
    decreases items.len(),
{
    broadcast use vstd::seq_lib::group_to_multiset_ensures;

    if items.len() > 0 {
        let t = items.drop_last();
        order_keeps_every_item(t);
        order_is_sorted(t);
        lemma_insert_keeps_order(in_order(t), items.last());
        assert(items =~= t.push(items.last()));
        assert(in_order(items).to_multiset() =~= items.to_multiset());
    } else {
        assert(in_order(items) =~= items);
    }
}

/// Whether a recording has the given place in the list.
pub open spec fn has_place(r: int, filename: Seq<char>) -> spec_fn(VideoModel) -> bool {
    |v: VideoModel| rank(v.status) == r && v.filename == filename
}

proof fn lemma_insert_filter(s: Seq<VideoModel>, x: VideoModel, r: int, filename: Seq<char>)
    ensures
        insert_listed(s, x).filter(has_place(r, filename)) == s.push(x).filter(
            has_place(r, filename),
        ),
    decreases s.len(),
{
    let p = has_place(r, filename);
    reveal(Seq::filter);
    if s.len() > 0 && listed_before(x, s.last()) {
        let t = s.drop_last();
        let l = s.last();
        lemma_insert_filter(t, x, r, filename);
        assert(insert_listed(s, x).drop_last() =~= insert_listed(t, x));
        assert(t.push(x).drop_last() =~= t);
        assert(s.push(x).drop_last() =~= s);
        assert(insert_listed(s, x).last() == l && t.push(x).last() == x && s.push(x).last() == x);
        assert(s.filter(p) == if p(l) {
            t.filter(p).push(l)
        } else {
            t.filter(p)
        });
        assert(t.push(x).filter(p) == if p(x) {
            t.filter(p).push(x)
        } else {
            t.filter(p)
        });
        assert(insert_listed(s, x).filter(p) == if p(l) {
            insert_listed(t, x).filter(p).push(l)
        } else {
            insert_listed(t, x).filter(p)
        });
        if p(l) && p(x) {
            lemma_bytes_less_asymmetric(encode_utf8(x.filename), encode_utf8(l.filename));
        }
    }
}

/// Recordings with the same place keep the order in which they were found.
pub proof fn order_is_stable(items: Seq<VideoModel>, r: int, filename: Seq<char>)
    ensures
        in_order(items).filter(has_place(r, filename)) == items.filter(has_place(r, filename)),
    decreases items.len(),
{
    reveal(Seq::filter);
    if items.len() > 0 {
        let t = items.drop_last();
        let p = has_place(r, filename);
        order_is_stable(t, r, filename);
        lemma_insert_filter(in_order(t), items.last(), r, filename);
        assert(in_order(t).push(items.last()).drop_last() =~= in_order(t));
        assert(items =~= t.push(items.last()));
    }
}

} // verus!
