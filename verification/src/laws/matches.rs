//! Matching recordings to pulls: what the server is asked, what becomes of its answers, and
//! what a recording is attached to.
use vstd::prelude::*;
use vstd::string::*;

use crate::api::{ApiClient, Field, Guild, MatchResult, PullMatch, Request, guild_models, input_models};
use crate::laws::listing::{goes_before, lemma_arranged, lemma_goes_before};
use crate::laws::requests::{has_text, named, posts_to};
use crate::laws::{
    lemma_same, lemma_texts, lemma_videos, reads, same_file, same_match, same_opt, same_video,
};
use crate::matching::{
    Gathered, Hit, HitModel, MatchRequest, Reply, all_classified, as_place, asking_order, batch_end,
    batches, best_match, carried, chosen_guild, chosen_matches_of, classified, classify, first_hit,
    gather, guild_name, hit_models, ids_where, is_selected, match_call, match_order, match_requests,
    matches_of, name_of, names_of, opt_texts, place_of, plan, reasons_of, repeats, request_models,
    result_models, scan_and_match,
};
use crate::scan::{VideoItem, video_models};
use crate::text::{opt_text, texts};

verus! {

/// Whether a guild is among those chosen for upload; with no choice made, every one is.
pub open spec fn is_chosen(selected: Option<Vec<String>>, id: Seq<char>) -> bool {
    selected is None || exists|i: int|
        0 <= i < selected->0@.len() && (#[trigger] selected->0@[i])@ == id
}

proof fn lemma_chosen(selected: Option<Vec<String>>, id: Seq<char>)
    ensures
        chosen_guild(opt_texts(selected), id) == is_chosen(selected, id),
{
    if selected is Some {
        let ids = selected->0@;
        lemma_texts(ids);
        if texts(ids).contains(id) {
            let i = choose|i: int| 0 <= i < texts(ids).len() && texts(ids)[i] == id;
            assert(ids[i]@ == id);
        }
        if is_chosen(selected, id) {
            let i = choose|i: int| 0 <= i < ids.len() && (#[trigger] ids[i])@ == id;
            assert(texts(ids)[i] == id);
        }
    }
}

/// A guild is chosen for upload exactly if its id is among those chosen, or none ever were.
pub proof fn choices_are_heeded(selected: Option<Vec<String>>, id: &str, r: bool)
    requires
        call_ensures(is_selected, (&selected, id), r),
    ensures
        r <==> is_chosen(selected, id@),
{
    lemma_chosen(selected, id@);
}

/// Whether a name is that of the guild with an id: of the first one, or the id itself where
/// there is none.
pub open spec fn is_name_of(guilds: Seq<Guild>, id: Seq<char>, name: Seq<char>) -> bool {
    ||| exists|i: int|
        0 <= i < guilds.len() && (#[trigger] guilds[i]).id@ == id && guilds[i].name@ == name && forall|j: int|
            0 <= j < i ==> (#[trigger] guilds[j]).id@ != id
    ||| name == id && forall|j: int| 0 <= j < guilds.len() ==> (#[trigger] guilds[j]).id@ != id
}

proof fn lemma_name_of(guilds: Seq<Guild>, id: Seq<char>)
    ensures
        is_name_of(guilds, id, name_of(guild_models(guilds), id)),
    decreases guilds.len(),
{
    let m = guild_models(guilds);
    assert(m.len() == guilds.len());
    if guilds.len() > 0 {
        assert(m[0] == guilds[0]@);
        if guilds[0].id@ == id {
        } else {
            let t = guilds.skip(1);
            assert(guild_models(t) =~= m.skip(1));
            lemma_name_of(t, id);
            let name = name_of(m, id);
            if exists|i: int|
                0 <= i < t.len() && (#[trigger] t[i]).id@ == id && t[i].name@ == name && forall|j: int|
                    0 <= j < i ==> (#[trigger] t[j]).id@ != id {
                let i = choose|i: int|
                    0 <= i < t.len() && (#[trigger] t[i]).id@ == id && t[i].name@ == name && forall|j: int|
                        0 <= j < i ==> (#[trigger] t[j]).id@ != id;
                assert(guilds[i + 1] == t[i]);
                assert forall|j: int| 0 <= j < i + 1 implies (#[trigger] guilds[j]).id@ != id by {
                    if j > 0 {
                        assert(t[j - 1] == guilds[j]);
                    }
                }
            } else {
                assert forall|j: int| 0 <= j < guilds.len() implies (#[trigger] guilds[j]).id@ != id by {
                    if j > 0 {
                        assert(t[j - 1] == guilds[j]);
                    }
                }
            }
        }
    }
}

/// A guild is called by its name, or by its id where it is not known.
pub proof fn guilds_are_called_by_name(guilds: Vec<Guild>, id: &str, r: String)
    requires
        call_ensures(guild_name, (&guilds, id), r),
    ensures
        is_name_of(guilds@, id@, r@),
{
    lemma_name_of(guilds@, id@);
}

proof fn lemma_ids(guilds: Seq<Guild>, personal: bool) -> (of: Seq<int>)
    ensures
        of.len() == ids_where(guild_models(guilds), personal).len(),
        forall|p: int|
            0 <= p < of.len() ==> 0 <= #[trigger] of[p] < guilds.len() && guilds[of[p]].is_personal == personal
                && ids_where(guild_models(guilds), personal)[p] == guilds[of[p]].id@,
        forall|p: int, q: int| 0 <= p < q < of.len() ==> #[trigger] of[p] < #[trigger] of[q],
        forall|i: int|
            0 <= i < guilds.len() && (#[trigger] guilds[i]).is_personal == personal ==> of.contains(i),
    decreases guilds.len(),
{
    let m = guild_models(guilds);
    assert(m.len() == guilds.len());
    if guilds.len() == 0 {
        Seq::empty()
    } else {
        let t = guilds.drop_last();
        let n = t.len() as int;
        assert(guild_models(t) =~= m.drop_last());
        assert(m.last() == guilds.last()@);
        let before = lemma_ids(t, personal);
        let of = if guilds.last().is_personal == personal {
            before.push(n)
        } else {
            before
        };
        assert forall|p: int| 0 <= p < of.len() implies 0 <= #[trigger] of[p] < guilds.len()
            && guilds[of[p]].is_personal == personal && ids_where(m, personal)[p] == guilds[of[p]].id@ by {
            if p < before.len() {
                assert(of[p] == before[p]);
                assert(t[before[p]] == guilds[before[p]]);
            }
        }
        assert forall|p: int, q: int| 0 <= p < q < of.len() implies #[trigger] of[p] < #[trigger] of[q] by {
            assert(of[p] == before[p]);
            if q < before.len() {
                assert(of[q] == before[q]);
            }
        }
        assert forall|i: int| 0 <= i < guilds.len() && (#[trigger] guilds[i]).is_personal == personal implies of.contains(
        i) by {
            if i < n {
                assert(t[i] == guilds[i]);
                let p = choose|p: int| 0 <= p < before.len() && before[p] == i;
                assert(of[p] == i);
            } else {
                assert(of[of.len() - 1] == i);
            }
        }
        of
    }
}

/// Every guild is asked once: the shared ones first, then the personal ones, and each kind in
/// the server's order.
pub proof fn every_guild_is_asked_in_turn(guilds: Vec<Guild>, r: Vec<String>) -> (of: Seq<int>)
    requires
        call_ensures(match_order, (&guilds,), r),
    ensures
        of.len() == r@.len(),
        forall|p: int| 0 <= p < of.len() ==> 0 <= #[trigger] of[p] < guilds@.len() && r@[p]@ == guilds@[of[p]].id@,
        forall|i: int| 0 <= i < guilds@.len() ==> of.contains(i),
        forall|p: int, q: int|
            0 <= p < q < of.len() ==> {
                let a = guilds@[#[trigger] of[p]];
                let b = guilds@[#[trigger] of[q]];
                &&& a.is_personal ==> b.is_personal
                &&& a.is_personal == b.is_personal ==> of[p] < of[q]
            },
{
    let m = guild_models(guilds@);
    lemma_texts(r@);
    let shared = lemma_ids(guilds@, false);
    let own = lemma_ids(guilds@, true);
    let of = shared + own;
    assert forall|p: int| 0 <= p < of.len() implies 0 <= #[trigger] of[p] < guilds@.len() && r@[p]@
        == guilds@[of[p]].id@ by {
        assert(texts(r@)[p] == asking_order(m)[p]);
        if p < shared.len() {
            assert(of[p] == shared[p]);
        } else {
            assert(of[p] == own[p - shared.len()]);
        }
    }
    assert forall|i: int| 0 <= i < guilds@.len() implies of.contains(i) by {
        if guilds@[i].is_personal {
            let p = choose|p: int| 0 <= p < own.len() && own[p] == i;
            assert(of[shared.len() + p] == i);
        } else {
            let p = choose|p: int| 0 <= p < shared.len() && shared[p] == i;
            assert(of[p] == i);
        }
    }
    assert forall|p: int, q: int| 0 <= p < q < of.len() implies {
        let a = guilds@[#[trigger] of[p]];
        let b = guilds@[#[trigger] of[q]];
        &&& a.is_personal ==> b.is_personal
        &&& a.is_personal == b.is_personal ==> of[p] < of[q]
    } by {
        if p < shared.len() {
            assert(of[p] == shared[p]);
        } else {
            assert(of[p] == own[p - shared.len()]);
        }
        if q < shared.len() {
            assert(of[q] == shared[q]);
        } else {
            assert(of[q] == own[q - shared.len()]);
        }
    }
    of
}

/// Whether a request to a guild is as it should be: for at least one candidate and at most a
/// hundred, no two of one name, and as many as that allows.
pub open spec fn is_batch(q: MatchRequest, guild: Seq<char>, c: Seq<VideoItem>) -> bool {
    &&& q.guild_id@ == guild
    &&& q.start < q.end <= c.len()
    &&& q.end - q.start <= 100
    &&& forall|i: int, j: int|
        q.start <= i < j < q.end ==> (#[trigger] c[i]).filename@ != (#[trigger] c[j]).filename@
    &&& q.end == c.len() || q.end - q.start == 100 || exists|i: int|
        q.start <= i < q.end && (#[trigger] c[i]).filename@ == c[q.end as int].filename@
}

proof fn lemma_batch_full(names: Seq<Seq<char>>, from: int, end: int)
    requires
        0 <= from <= end <= names.len(),
        end - from <= 100,
    ensures
        ({
            let e = batch_end(names, from, end);
            e < names.len() && e - from < 100 ==> repeats(names, from, e)
        }),
    decreases names.len() - end,
{
    if end < names.len() && end - from < 100 && !repeats(names, from, end) {
        lemma_batch_full(names, from, end + 1);
    }
}

proof fn lemma_batches_full(guild: Seq<char>, from: int, names: Seq<Seq<char>>, q: int)
    requires
        0 <= from,
        0 <= q < batches(guild, from, names).len(),
    ensures
        ({
            let b = batches(guild, from, names)[q];
            b.end < names.len() && b.end - b.start < 100 ==> repeats(names, b.start, b.end)
        }),
    decreases names.len() - from,
{
    crate::matching::batches_tile(guild, from, names);
    let all = batches(guild, from, names);
    let end = batch_end(names, from, from);
    lemma_batch_full(names, from, from);
    assert(all[0].start == from && all[0].end == end);
    if q > 0 {
        let rest = batches(guild, end, names);
        assert(all =~= seq![all[0]] + rest);
        assert(all[q] == rest[q - 1]);
        lemma_batches_full(guild, end, names, q - 1);
    }
}

proof fn lemma_plan(guilds: Seq<Seq<char>>, names: Seq<Seq<char>>) -> (of: Seq<int>)
    ensures
        of.len() == plan(guilds, names).len(),
        (plan(guilds, names).len() == 0) == (guilds.len() == 0 || names.len() == 0),
        forall|q: int|
            0 <= q < of.len() ==> {
                let b = plan(guilds, names)[q];
                &&& 0 <= #[trigger] of[q] < guilds.len()
                &&& b.guild_id == guilds[of[q]]
                &&& 0 <= b.start < b.end <= names.len()
                &&& b.end - b.start <= 100
                &&& crate::matching::one_of_each(names, b.start, b.end)
                &&& b.end == names.len() || b.end - b.start == 100 || repeats(names, b.start, b.end)
            },
        of.len() > 0 ==> of[0] == 0 && plan(guilds, names)[0].start == 0 && of.last() == guilds.len() - 1
            && plan(guilds, names).last().end == names.len(),
        forall|p: int, q: int|
            0 <= p && q == p + 1 && q < of.len() ==> {
                let a = plan(guilds, names)[p];
                let b = plan(guilds, names)[q];
                ||| #[trigger] of[p] == #[trigger] of[q] && b.start == a.end
                ||| of[q] == of[p] + 1 && a.end == names.len() && b.start == 0
            },
    decreases guilds.len(),
{
    let all = plan(guilds, names);
    if guilds.len() == 0 {
        Seq::empty()
    } else {
        let head = plan(guilds.drop_last(), names);
        let tail = batches(guilds.last(), 0, names);
        let before = lemma_plan(guilds.drop_last(), names);
        crate::matching::batches_tile(guilds.last(), 0, names);
        let n = head.len() as int;
        let of = before + Seq::new(tail.len(), |i: int| guilds.len() - 1);
        assert forall|q: int| 0 <= q < of.len() implies {
            let b = all[q];
            &&& 0 <= #[trigger] of[q] < guilds.len()
            &&& b.guild_id == guilds[of[q]]
            &&& 0 <= b.start < b.end <= names.len()
            &&& b.end - b.start <= 100
            &&& crate::matching::one_of_each(names, b.start, b.end)
            &&& b.end == names.len() || b.end - b.start == 100 || repeats(names, b.start, b.end)
        } by {
            if q < n {
                assert(of[q] == before[q] && all[q] == head[q]);
                assert(guilds.drop_last()[before[q]] == guilds[before[q]]);
            } else {
                assert(of[q] == guilds.len() - 1 && all[q] == tail[q - n]);
                lemma_batches_full(guilds.last(), 0, names, q - n);
            }
        }
        if of.len() > 0 {
            if n > 0 {
                assert(of[0] == before[0] && all[0] == head[0]);
            } else {
                assert(all[0] == tail[0]);
                assert(names.len() > 0);
                assert(guilds.drop_last().len() == 0);
            }
            assert(tail.len() > 0);
            assert(all.last() == tail.last());
        }
        assert forall|p: int, q: int| 0 <= p && q == p + 1 && q < of.len() implies {
            let a = all[p];
            let b = all[q];
            ||| #[trigger] of[p] == #[trigger] of[q] && b.start == a.end
            ||| of[q] == of[p] + 1 && a.end == names.len() && b.start == 0
        } by {
            if q < n {
                assert(of[p] == before[p] && of[q] == before[q]);
                assert(all[p] == head[p] && all[q] == head[q]);
            } else if p >= n {
                assert(all[p] == tail[p - n] && all[q] == tail[q - n]);
            } else {
                assert(all[p] == head[p] && all[q] == tail[0]);
                assert(of[p] == before[p]);
                assert(head.last() == head[p]);
            }
        }
        of
    }
}

/// Every guild is asked for every candidate, in order and once: the requests to one guild
/// follow each other from the first candidate to the last, and only then comes the next guild.
pub proof fn every_candidate_is_asked_for(
    guilds: Vec<String>,
    candidates: Vec<VideoItem>,
    r: Vec<MatchRequest>,
) -> (of: Seq<int>)
    requires
        call_ensures(match_requests, (&guilds, &candidates), r),
    ensures
        of.len() == r@.len(),
        r@.len() == 0 <==> guilds@.len() == 0 || candidates@.len() == 0,
        forall|q: int|
            0 <= q < of.len() ==> 0 <= #[trigger] of[q] < guilds@.len() && is_batch(
                r@[q],
                guilds@[of[q]]@,
                candidates@,
            ),
        of.len() > 0 ==> of[0] == 0 && r@[0].start == 0 && of.last() == guilds@.len() - 1 && r@.last().end
            == candidates@.len(),
        forall|p: int, q: int|
            0 <= p && q == p + 1 && q < of.len() ==> {
                ||| #[trigger] of[p] == #[trigger] of[q] && r@[q].start == r@[p].end
                ||| of[q] == of[p] + 1 && r@[p].end == candidates@.len() && r@[q].start == 0
            },
{
    let names = names_of(video_models(candidates@));
    let all = request_models(r@);
    assert(all.len() == r@.len());
    lemma_texts(guilds@);
    lemma_videos(candidates@);
    assert(names.len() == candidates@.len());
    let of = lemma_plan(texts(guilds@), names);
    assert forall|q: int| 0 <= q < of.len() implies 0 <= #[trigger] of[q] < guilds@.len() && is_batch(
        r@[q],
        guilds@[of[q]]@,
        candidates@,
    ) by {
        let b = r@[q];
        assert(all[q] == b@);
        assert(texts(guilds@)[of[q]] == guilds@[of[q]]@);
        assert forall|i: int, j: int| b.start <= i < j < b.end implies (#[trigger] candidates@[i]).filename@ != (
        #[trigger] candidates@[j]).filename@ by {
            assert(names[i] != names[j]);
        }
        if b.end < names.len() && b.end - b.start < 100 {
            assert(repeats(names, b.start as int, b.end as int));
            let i = choose|i: int| b.start <= i < b.end && #[trigger] names[i] == names[b.end as int];
            assert(candidates@[i].filename@ == candidates@[b.end as int].filename@);
        }
    }
    if of.len() > 0 {
        assert(all[0] == r@[0]@);
        assert(all.last() == r@.last()@);
    }
    assert forall|p: int, q: int| 0 <= p && q == p + 1 && q < of.len() implies {
        ||| #[trigger] of[p] == #[trigger] of[q] && r@[q].start == r@[p].end
        ||| of[q] == of[p] + 1 && r@[p].end == candidates@.len() && r@[q].start == 0
    } by {
        assert(all[p] == r@[p]@ && all[q] == r@[q]@);
    }
    of
}

/// A match request is made of its guild, and carries the file name and the sidecar of exactly
/// the candidates it is for, in order.
pub proof fn a_request_carries_its_candidates(
    c: ApiClient,
    q: MatchRequest,
    candidates: Vec<VideoItem>,
    sidecars: Vec<String>,
    r: Request,
) -> (at: int)
    requires
        call_ensures(match_call, (&c, &q, &candidates, &sidecars), r),
        q.start <= q.end <= candidates@.len(),
        candidates@.len() == sidecars@.len(),
    ensures
        posts_to(c, r, "/api/povs/match"@),
        has_text(r.payload->0, "guildId"@, q.guild_id@),
        named(r.payload->0, "videos"@, at),
        r.payload->0@[at].1 matches Field::Videos(v) && v@.len() == q.end - q.start && forall|k: int|
            0 <= k < v@.len() ==> (#[trigger] v@[k]).filename@ == candidates@[q.start + k].filename@
                && v@[k].metadata@ == sidecars@[q.start + k]@,
{
    let p = r.payload->0;
    reveal_strlit("guildId");
    reveal_strlit("videos");
    assert("guildId"@.len() == 7 && "videos"@.len() == 6);
    let m = crate::api::payload_model(p@);
    assert(m.len() == p@.len());
    assert(m[0] == (p@[0].0@, p@[0].1@));
    assert(m[1] == (p@[1].0@, p@[1].1@));
    assert(named(p, "guildId"@, 0));
    assert(named(p, "videos"@, 1));
    lemma_videos(candidates@);
    lemma_texts(sidecars@);
    let all = carried(q@, names_of(video_models(candidates@)), texts(sidecars@));
    if let Field::Videos(v) = p@[1].1 {
        assert(input_models(v@) == all);
        assert(input_models(v@).len() == v@.len());
        assert forall|k: int| 0 <= k < v@.len() implies (#[trigger] v@[k]).filename@
            == candidates@[q.start + k].filename@ && v@[k].metadata@ == sidecars@[q.start + k]@ by {
            assert(input_models(v@)[k] == v@[k]@);
            assert(all[k].filename == names_of(video_models(candidates@))[q.start + k]);
            assert(video_models(candidates@)[q.start + k] == candidates@[q.start + k]@);
            assert(texts(sidecars@)[q.start + k] == sidecars@[q.start + k]@);
        }
    }
    1
}

/// Whether two pulls say the same.
pub open spec fn same_pull_match(a: Option<PullMatch>, b: Option<PullMatch>) -> bool {
    match (a, b) {
        (Some(m), Some(n)) => {
            &&& m.pull_id@ == n.pull_id@
            &&& m.boss_name@ == n.boss_name@
            &&& m.pull_number == n.pull_number
            &&& m.is_kill == n.is_kill
            &&& m.duration_ms == n.duration_ms
            &&& m.date@ == n.date@
            &&& m.start_time@ == n.start_time@
        },
        (None, None) => true,
        _ => false,
    }
}

/// Whether a hit is an answer to a request, as the server gave it.
pub open spec fn is_answer(h: Hit, q: MatchRequest, a: MatchResult) -> bool {
    &&& h.guild_id@ == q.guild_id@
    &&& h.start == q.start
    &&& h.end == q.end
    &&& h.result.filename@ == a.filename@
    &&& same_opt(h.result.existing_video_id, a.existing_video_id)
    &&& h.result.is_own_pov == a.is_own_pov
    &&& h.result.can_upload == a.can_upload
    &&& same_pull_match(h.result.matched, a.matched)
    &&& same_opt(h.result.reason, a.reason)
}

/// Whether answer `at.1` stands in the reply to request `at.0`.
pub open spec fn replied(replies: Seq<Reply>, at: (int, int)) -> bool {
    0 <= at.0 < replies.len() && (replies[at.0] matches Ok(v) && 0 <= at.1 < v@.len())
}

proof fn lemma_gathered(
    requests: Seq<MatchRequest>,
    replies: Seq<Reply>,
    hits: Seq<Hit>,
) -> (of: Seq<
    (int, int),
>)
    requires
        requests.len() == replies.len(),
        hit_models(hits) == crate::matching::all_hits(request_models(requests), replies),
    ensures
        of.len() == hits.len(),
        forall|h: int|
            0 <= h < of.len() ==> replied(replies, #[trigger] of[h]) && is_answer(
                hits[h],
                requests[of[h].0],
                replies[of[h].0]->Ok_0@[of[h].1],
            ),
        forall|h: int, k: int|
            0 <= h < k < of.len() ==> (#[trigger] of[h]).0 < (#[trigger] of[k]).0 || (of[h].0 == of[k].0
                && of[h].1 < of[k].1),
        forall|at: (int, int)| #[trigger] replied(replies, at) ==> of.contains(at),
    decreases requests.len(),
{
    assert(hit_models(hits).len() == hits.len());
    assert(request_models(requests).len() == requests.len());
    if requests.len() == 0 {
        Seq::empty()
    } else {
        let tq = requests.drop_last();
        let tr = replies.drop_last();
        let last = requests.len() - 1;
        assert(request_models(requests).drop_last() =~= request_models(tq));
        assert(request_models(requests).last() == requests.last()@);
        let head = crate::matching::all_hits(request_models(tq), tr);
        let tail = crate::matching::reply_hits(requests.last()@, replies.last());
        let n = head.len() as int;
        let first = hits.take(n);
        assert(hit_models(hits) == head + tail);
        assert forall|j: int| 0 <= j < n implies #[trigger] hit_models(first)[j] == head[j] by {
            assert(hit_models(hits)[j] == hits[j]@);
            assert(first[j] == hits[j]);
        }
        assert(hit_models(first) =~= head);
        let before = lemma_gathered(tq, tr, first);
        let of = before + Seq::new(tail.len(), |i: int| (last, i));
        assert forall|h: int| 0 <= h < of.len() implies replied(replies, #[trigger] of[h]) && is_answer(
            hits[h],
            requests[of[h].0],
            replies[of[h].0]->Ok_0@[of[h].1],
        ) by {
            assert(hit_models(hits)[h] == hits[h]@);
            if h < n {
                assert(of[h] == before[h]);
                assert(first[h] == hits[h]);
                assert(replied(tr, before[h]));
                assert(tq[before[h].0] == requests[before[h].0]);
                assert(tr[before[h].0] == replies[before[h].0]);
            } else {
                assert(of[h] == (last, h - n));
                assert(hits[h]@ == tail[h - n]);
                let v = replies.last()->Ok_0@;
                assert(result_models(v)[h - n] == v[h - n]@);
            }
        }
        assert forall|h: int, k: int| 0 <= h < k < of.len() implies (#[trigger] of[h]).0 < (
        #[trigger] of[k]).0 || (of[h].0 == of[k].0 && of[h].1 < of[k].1) by {
            if h < n {
                assert(of[h] == before[h]);
                assert(replied(tr, before[h]));
            } else {
                assert(of[h] == (last, h - n));
            }
            if k < n {
                assert(of[k] == before[k]);
            } else {
                assert(of[k] == (last, k - n));
            }
        }
        assert forall|at: (int, int)| #[trigger] replied(replies, at) implies of.contains(at) by {
            if at.0 < last {
                assert(tr[at.0] == replies[at.0]);
                assert(replied(tr, at));
                let h = choose|h: int| 0 <= h < before.len() && before[h] == at;
                assert(of[h] == at);
            } else {
                let v = replies.last()->Ok_0@;
                assert(result_models(v).len() == v.len());
                assert(of[n + at.1] == at);
            }
        }
        of
    }
}

/// Every answer of the server is kept, as it was given and to which request, in the order of
/// asking; nothing else is.
pub proof fn every_answer_is_kept(
    guilds: Vec<Guild>,
    requests: Vec<MatchRequest>,
    replies: Vec<Reply>,
    r: Gathered,
) -> (of: Seq<(int, int)>)
    requires
        call_ensures(gather, (&guilds, &requests, &replies), r),
        requests@.len() == replies@.len(),
    ensures
        of.len() == r.hits@.len(),
        forall|h: int|
            0 <= h < of.len() ==> replied(replies@, #[trigger] of[h]) && is_answer(
                r.hits@[h],
                requests@[of[h].0],
                replies@[of[h].0]->Ok_0@[of[h].1],
            ),
        forall|h: int, k: int|
            0 <= h < k < of.len() ==> (#[trigger] of[h]).0 < (#[trigger] of[k]).0 || (of[h].0 == of[k].0
                && of[h].1 < of[k].1),
        forall|at: (int, int)| #[trigger] replied(replies@, at) ==> of.contains(at),
{
    lemma_gathered(requests@, replies@, r.hits@)
}

proof fn lemma_failure(guilds: Seq<Guild>, requests: Seq<MatchRequest>, replies: Seq<Reply>, q: int)
    requires
        requests.len() == replies.len(),
    ensures
        ({
            let e = crate::matching::first_failure(
                guild_models(guilds),
                request_models(requests),
                replies,
            );
            &&& (forall|i: int| 0 <= i < replies.len() ==> (#[trigger] replies[i]) is Ok) <==> e is None
            &&& 0 <= q < replies.len() && replies[q] is Err && (forall|i: int|
                0 <= i < q ==> (#[trigger] replies[i]) is Ok) ==> e == Some(
                name_of(guild_models(guilds), requests[q].guild_id@) + ": "@ + replies[q]->Err_0@,
            )
        }),
    decreases requests.len(),
{
    assert(request_models(requests).len() == requests.len());
    if requests.len() > 0 {
        let tq = requests.drop_last();
        let tr = replies.drop_last();
        assert(request_models(requests).drop_last() =~= request_models(tq));
        assert(request_models(requests).last() == requests.last()@);
        lemma_failure(guilds, tq, tr, q);
        assert forall|i: int| 0 <= i < tr.len() implies #[trigger] tr[i] == replies[i] by {}
        assert(replies.last() == replies[replies.len() - 1]);
        if forall|i: int| 0 <= i < replies.len() ==> (#[trigger] replies[i]) is Ok {
            assert forall|i: int| 0 <= i < tr.len() implies (#[trigger] tr[i]) is Ok by {
                assert(replies[i] is Ok);
            }
        }
        if forall|i: int| 0 <= i < tr.len() ==> (#[trigger] tr[i]) is Ok {
            assert forall|i: int| 0 <= i < tr.len() implies (#[trigger] replies[i]) is Ok by {
                assert(tr[i] is Ok);
            }
        }
        if 0 <= q < tr.len() {
            assert(tq[q] == requests[q]);
            assert(tr[q] == replies[q]);
        }
    }
}

/// A failure is told of the first request that failed, with the name of its guild, and of none
/// where none did.
pub proof fn the_first_failure_is_told(
    guilds: Vec<Guild>,
    requests: Vec<MatchRequest>,
    replies: Vec<Reply>,
    r: Gathered,
    q: int,
)
    requires
        call_ensures(gather, (&guilds, &requests, &replies), r),
        requests@.len() == replies@.len(),
    ensures
        r.error is None <==> forall|i: int| 0 <= i < replies@.len() ==> (#[trigger] replies@[i]) is Ok,
        0 <= q < replies@.len() && replies@[q] is Err && (forall|i: int|
            0 <= i < q ==> (#[trigger] replies@[i]) is Ok) ==> r.error is Some && exists|name: Seq<char>| #[trigger]
            is_name_of(guilds@, requests@[q].guild_id@, name) && r.error->0@ == name + ": "@
                + replies@[q]->Err_0@,
{
    lemma_failure(guilds@, requests@, replies@, q);
    if 0 <= q < requests@.len() {
        lemma_name_of(guilds@, requests@[q].guild_id@);
    }
}

/// Whether an answer is for a recording: it has its file name and, where another recording has
/// it too, is to a request that holds this one.
pub open spec fn for_it(h: Hit, place: Option<usize>, filename: Seq<char>) -> bool {
    h.result.filename@ == filename && (place matches Some(k) ==> h.start <= k < h.end)
}

/// Whether an answer names a pull for a recording.
pub open spec fn names_pull(h: Hit, place: Option<usize>, filename: Seq<char>) -> bool {
    for_it(h, place, filename) && h.result.matched is Some
}

/// Whether an answer names a pull for a recording in a guild chosen for upload.
pub open spec fn names_chosen(
    h: Hit,
    place: Option<usize>,
    filename: Seq<char>,
    selected: Option<Vec<String>>,
) -> bool {
    names_pull(h, place, filename) && is_chosen(selected, h.guild_id@)
}

/// Whether answer `i` is the one that a recording goes by: the first that names a pull in a
/// guild chosen for upload, and where there is none of these, the first that names a pull.
pub open spec fn decides(
    hits: Seq<Hit>,
    place: Option<usize>,
    filename: Seq<char>,
    selected: Option<Vec<String>>,
    i: int,
) -> bool {
    &&& 0 <= i < hits.len()
    &&& names_pull(hits[i], place, filename)
    &&& if exists|j: int| 0 <= j < hits.len() && names_chosen(#[trigger] hits[j], place, filename, selected) {
        names_chosen(hits[i], place, filename, selected) && forall|j: int|
            0 <= j < i ==> !names_chosen(#[trigger] hits[j], place, filename, selected)
    } else {
        forall|j: int| 0 <= j < i ==> !names_pull(#[trigger] hits[j], place, filename)
    }
}

/// Whether a recording is attached to what an answer says: every field of the match is that of
/// the pull in it, or of the answer itself.
pub open spec fn attached_to(v: VideoItem, h: Hit, guilds: Seq<Guild>) -> bool {
    v.matched matches Some(m) && h.result.matched matches Some(p) && {
        &&& m.guild_id@ == h.guild_id@
        &&& is_name_of(guilds, h.guild_id@, m.guild_name@)
        &&& m.pull_id@ == p.pull_id@
        &&& m.boss_name@ == p.boss_name@
        &&& m.pull_number == p.pull_number
        &&& m.is_kill == p.is_kill
        &&& m.date@ == p.date@
        &&& m.start_time@ == p.start_time@
        &&& m.is_own_pov == h.result.is_own_pov
        &&& m.can_upload == h.result.can_upload
        &&& same_opt(m.existing_video_id, h.result.existing_video_id)
    }
}

/// Why a recording that is matched may not be uploaded by the user.
pub open spec fn is_refusal(why: Seq<char>, a: MatchResult) -> bool {
    if reads(a.reason, "no_upload_permission"@) {
        why == "Matched — you're not allowed to upload VODs to this guild"@
    } else if reads(a.reason, "no_storage"@) {
        why == "Matched — no upload storage is configured for this guild"@
    } else if reads(a.reason, "player_not_in_roster"@) {
        why == "Matched — you weren't in this pull's roster"@
    } else if !a.is_own_pov {
        why == "Another player's POV — only a guild admin can upload it"@
    } else {
        why == "Matched — you can't upload this recording"@
    }
}

/// Whether a recording is shown as what the answer it goes by makes of it: uploaded where the
/// server has it, skipped in a guild that is not chosen, and else matched, with the reason where
/// the user may not upload it.
pub open spec fn shown_by_answer(
    item: VideoItem,
    v: VideoItem,
    h: Hit,
    selected: Option<Vec<String>>,
) -> bool {
    if h.result.existing_video_id is Some {
        v.status@ == "uploaded"@ && reads(v.reason, "Already uploaded"@)
    } else if !is_chosen(selected, h.guild_id@) {
        v.status@ == "skipped"@ && reads(v.reason, "Matched, but this guild isn't selected for upload"@)
    } else if !h.result.can_upload {
        v.status@ == "matched"@ && v.reason is Some && is_refusal(v.reason->0@, h.result)
    } else {
        v.status@ == "matched"@ && same_opt(v.reason, item.reason)
    }
}

/// Why a recording has no match: the first reason that the server gives for it, else the
/// failure of a request, else that there is no such pull.
pub open spec fn is_excuse(
    why: Seq<char>,
    g: Gathered,
    place: Option<usize>,
    filename: Seq<char>,
) -> bool {
    let hits = g.hits@;
    if exists|j: int|
        0 <= j < hits.len() && for_it(#[trigger] hits[j], place, filename) && hits[j].result.reason is Some {
        exists|i: int|
            0 <= i < hits.len() && for_it(#[trigger] hits[i], place, filename) && hits[i].result.reason is Some
                && (forall|j: int|
                0 <= j < i ==> !(for_it(#[trigger] hits[j], place, filename)
                    && hits[j].result.reason is Some)) && why == (if hits[i].result.reason->0@
                == "player_not_in_roster"@ {
                "You weren't in this pull's roster"@
            } else {
                "No matching pull found"@
            })
    } else if g.error is Some {
        why == "Match request failed — "@ + g.error->0@
    } else {
        why == "No matching pull found"@
    }
}

/// Whether `v` is what a candidate becomes once the answers are in.
pub open spec fn becomes(
    item: VideoItem,
    place: Option<usize>,
    g: Gathered,
    selected: Option<Vec<String>>,
    guilds: Seq<Guild>,
    v: VideoItem,
) -> bool {
    &&& same_file(item, v)
    &&& v.uploaded_bytes == item.uploaded_bytes
    &&& if exists|j: int| 0 <= j < g.hits@.len() && names_pull(#[trigger] g.hits@[j], place, item.filename@) {
        exists|i: int| #[trigger]
            decides(g.hits@, place, item.filename@, selected, i) && attached_to(v, g.hits@[i], guilds)
                && shown_by_answer(item, v, g.hits@[i], selected)
    } else {
        &&& same_match(v.matched, item.matched)
        &&& v.status@ == item.status@
        &&& v.reason is Some && is_excuse(v.reason->0@, g, place, item.filename@)
    }
}

proof fn lemma_first(hits: Seq<Hit>, p: spec_fn(HitModel) -> bool) -> (i: int)
    ensures
        first_hit(hit_models(hits), p) is None ==> forall|j: int|
            0 <= j < hits.len() ==> !p((#[trigger] hits[j])@),
        first_hit(hit_models(hits), p) is Some ==> 0 <= i < hits.len() && first_hit(hit_models(hits), p)
            == Some(hits[i]@) && p(hits[i]@) && forall|j: int| 0 <= j < i ==> !p((#[trigger] hits[j])@),
    decreases hits.len(),
{
    let m = hit_models(hits);
    assert(m.len() == hits.len());
    if hits.len() == 0 {
        0
    } else {
        assert(m[0] == hits[0]@);
        if p(m[0]) {
            0
        } else {
            let t = hits.skip(1);
            assert(m.skip(1) =~= hit_models(t));
            let i = lemma_first(t, p);
            if first_hit(m, p) is None {
                assert forall|j: int| 0 <= j < hits.len() implies !p((#[trigger] hits[j])@) by {
                    if j > 0 {
                        assert(t[j - 1] == hits[j]);
                    }
                }
            } else {
                assert forall|j: int| 0 <= j < i + 1 implies !p((#[trigger] hits[j])@) by {
                    if j > 0 {
                        assert(t[j - 1] == hits[j]);
                    }
                }
            }
            i + 1
        }
    }
}

proof fn lemma_excuse(g: Gathered, place: Option<usize>, filename: Seq<char>)
    ensures
        is_excuse(
            crate::matching::no_match_reason(
                hit_models(g.hits@),
                opt_text(g.error),
                as_place(place),
                filename,
            ),
            g,
            place,
            filename,
        ),
{
    let hits = g.hits@;
    let p = reasons_of(as_place(place), filename);
    let i = lemma_first(hits, p);
    assert forall|j: int| 0 <= j < hits.len() implies p((#[trigger] hits[j])@) == (for_it(
        hits[j],
        place,
        filename,
    ) && hits[j].result.reason is Some) by {}
    if first_hit(hit_models(hits), p) is Some {
        assert(p(hits[i]@));
        assert(for_it(hits[i], place, filename));
    }
}

proof fn lemma_becomes(
    item: VideoItem,
    place: Option<usize>,
    g: Gathered,
    selected: Option<Vec<String>>,
    guilds: Seq<Guild>,
    v: VideoItem,
)
    requires
        v@ == classified(
            item@,
            as_place(place),
            hit_models(g.hits@),
            opt_text(g.error),
            opt_texts(selected),
            guild_models(guilds),
        ),
    ensures
        becomes(item, place, g, selected, guilds, v),
{
    let hits = g.hits@;
    let f = item.filename@;
    let p = matches_of(as_place(place), f);
    let c = chosen_matches_of(as_place(place), f, opt_texts(selected));
    let i = lemma_first(hits, c);
    let k = lemma_first(hits, p);
    assert forall|j: int| 0 <= j < hits.len() implies p((#[trigger] hits[j])@) == names_pull(
        hits[j],
        place,
        f,
    ) && c(hits[j]@) == names_chosen(hits[j], place, f, selected) by {
        lemma_chosen(selected, hits[j].guild_id@);
    }
    match best_match(hit_models(hits), as_place(place), f, opt_texts(selected)) {
        None => {
            assert forall|j: int| 0 <= j < hits.len() implies !names_pull(#[trigger] hits[j], place, f) by {
                assert(!p(hits[j]@));
            }
            lemma_excuse(g, place, f);
        },
        Some(h) => {
            let d = if first_hit(hit_models(hits), c) is Some {
                i
            } else {
                k
            };
            assert(names_pull(hits[d], place, f));
            if first_hit(hit_models(hits), c) is Some {
                assert(names_chosen(hits[i], place, f, selected));
                assert forall|j: int| 0 <= j < i implies !names_chosen(
                    #[trigger] hits[j],
                    place,
                    f,
                    selected,
                ) by {
                    assert(!c(hits[j]@));
                }
            } else {
                assert forall|j: int| 0 <= j < hits.len() implies !names_chosen(
                    #[trigger] hits[j],
                    place,
                    f,
                    selected,
                ) by {
                    assert(!c(hits[j]@));
                }
                assert forall|j: int| 0 <= j < k implies !names_pull(#[trigger] hits[j], place, f) by {
                    assert(!p(hits[j]@));
                }
            }
            assert(decides(hits, place, f, selected, d));
            assert(hits[d]@ == h);
            lemma_name_of(guilds, hits[d].guild_id@);
            lemma_chosen(selected, hits[d].guild_id@);
            assert(attached_to(v, hits[d], guilds));
            assert(shown_by_answer(item, v, hits[d], selected));
        },
    }
}

/// A candidate becomes what the answers for it say. It is attached to the pull in one of them,
/// with all that this says of the pull and of the user; where none names a pull, it stays as it
/// was, with the reason.
pub proof fn a_candidate_becomes_what_is_answered(
    item: VideoItem,
    place: Option<usize>,
    g: Gathered,
    selected: Option<Vec<String>>,
    guilds: Vec<Guild>,
    r: VideoItem,
)
    requires
        call_ensures(classify, (item, place, &g, &selected, &guilds), r),
    ensures
        becomes(item, place, g, selected, guilds@, r),
{
    lemma_becomes(item, place, g, selected, guilds@, r);
}

/// The place of a candidate, where another has its file name too.
pub open spec fn is_place(c: Seq<VideoItem>, k: int, place: Option<usize>) -> bool {
    if exists|j: int| 0 <= j < c.len() && j != k && (#[trigger] c[j]).filename@ == c[k].filename@ {
        place is Some && place->0 == k
    } else {
        place is None
    }
}

proof fn lemma_place(c: Seq<VideoItem>, k: int) -> (place: Option<usize>)
    requires
        0 <= k < c.len(),
        c.len() <= usize::MAX,
    ensures
        is_place(c, k, place),
        as_place(place) == place_of(names_of(video_models(c)), k),
{
    lemma_videos(c);
    let names = names_of(video_models(c));
    assert(names.len() == c.len());
    assert forall|j: int| 0 <= j < c.len() implies #[trigger] names[j] == c[j].filename@ by {
        assert(video_models(c)[j] == c[j]@);
    }
    if crate::matching::shares_name(names, k) {
        let j = choose|j: int| 0 <= j < names.len() && j != k && #[trigger] names[j] == names[k];
        assert(c[j].filename@ == c[k].filename@);
        Some(k as usize)
    } else {
        if exists|j: int| 0 <= j < c.len() && j != k && (#[trigger] c[j]).filename@ == c[k].filename@ {
            let j = choose|j: int| 0 <= j < c.len() && j != k && (#[trigger] c[j]).filename@ == c[k].filename@;
            assert(names[j] == names[k]);
        }
        None
    }
}

/// Whether the entry at a place of the list is what became of the file `of`: one that was listed
/// as it was, or a candidate behind these.
pub open spec fn is_outcome(
    v: VideoItem,
    of: int,
    listed: Seq<VideoItem>,
    candidates: Seq<VideoItem>,
    g: Gathered,
    selected: Option<Vec<String>>,
    guilds: Seq<Guild>,
) -> bool {
    if of < listed.len() {
        same_video(v, listed[of])
    } else {
        exists|place: Option<usize>| #[trigger]
            is_place(candidates, of - listed.len(), place) && becomes(
                candidates[of - listed.len()],
                place,
                g,
                selected,
                guilds,
                v,
            )
    }
}

/// A scan lists every file that was found, once and in order: what was settled as it was, and
/// each candidate as what the answers make of it. The server's list of pulls can be trusted
/// exactly if there was something to ask, someone to ask, and no failure.
pub proof fn a_scan_lists_every_file(
    listed: Vec<VideoItem>,
    candidates: Vec<VideoItem>,
    guilds: Vec<Guild>,
    selected: Option<Vec<String>>,
    g: Gathered,
    r: (Vec<VideoItem>, bool),
) -> (of: Seq<int>)
    requires
        call_ensures(scan_and_match, (listed, candidates, &guilds, &selected, &g), r),
    ensures
        r.1 <==> candidates@.len() > 0 && guilds@.len() > 0 && g.error is None,
        of.len() == listed@.len() + candidates@.len() && r.0@.len() == of.len(),
        forall|p: int|
            0 <= p < of.len() ==> 0 <= #[trigger] of[p] < of.len() && is_outcome(
                r.0@[p],
                of[p],
                listed@,
                candidates@,
                g,
                selected,
                guilds@,
            ),
        forall|p: int, q: int|
            0 <= p < q < of.len() ==> {
                &&& #[trigger] of[p] != #[trigger] of[q]
                &&& !goes_before(r.0@[q], r.0@[p])
                &&& !goes_before(r.0@[p], r.0@[q]) ==> of[p] < of[q]
            },
{
    lemma_videos(listed@);
    lemma_videos(candidates@);
    lemma_videos(r.0@);
    let done = all_classified(
        video_models(candidates@),
        hit_models(g.hits@),
        opt_text(g.error),
        opt_texts(selected),
        guild_models(guilds@),
    );
    let n = listed@.len() as int;
    let items = video_models(listed@) + done;
    let of = lemma_arranged(items);
    assert forall|p: int| 0 <= p < of.len() implies 0 <= #[trigger] of[p] < of.len() && is_outcome(
        r.0@[p],
        of[p],
        listed@,
        candidates@,
        g,
        selected,
        guilds@,
    ) by {
        let v = r.0@[p];
        assert(video_models(r.0@)[p] == v@);
        if of[p] < n {
            assert(items[of[p]] == video_models(listed@)[of[p]]);
            lemma_same(v, listed@[of[p]]);
        } else {
            let k = of[p] - n;
            assert(items[of[p]] == done[k]);
            assert(candidates.len() == candidates@.len());
            let place = lemma_place(candidates@, k);
            assert(video_models(candidates@)[k] == candidates@[k]@);
            lemma_becomes(candidates@[k], place, g, selected, guilds@, v);
        }
    }
    assert forall|p: int, q: int| 0 <= p < q < of.len() implies {
        &&& #[trigger] of[p] != #[trigger] of[q]
        &&& !goes_before(r.0@[q], r.0@[p])
        &&& !goes_before(r.0@[p], r.0@[q]) ==> of[p] < of[q]
    } by {
        assert(video_models(r.0@)[p] == r.0@[p]@);
        assert(video_models(r.0@)[q] == r.0@[q]@);
        lemma_goes_before(r.0@[p], r.0@[q]);
        lemma_goes_before(r.0@[q], r.0@[p]);
    }
    of
}

} // verus!
