//! Matching finished recordings against the user's guilds: what is asked of the
//! server, and what becomes of each recording once the answers are in.
use vstd::prelude::*;
use vstd::string::*;

use crate::api::{
    ApiClient, Guild, GuildModel, InputModel, MatchInput, MatchResult, PullModel, Request,
    ResultModel, guild_models, input_models, match_fields,
};
use crate::order::{in_order, sort_items};
use crate::scan::{MatchedInfo, MatchedModel, VideoItem, VideoModel, video_models};
use crate::text::{opt_is, opt_text, same_text, texts};

verus! {

/// How many recordings one match request may carry.
pub const MATCH_BATCH: usize = 100;

/// The ids of those guilds that are personal, or of those that are not, in order.
pub open spec fn ids_where(guilds: Seq<GuildModel>, personal: bool) -> Seq<Seq<char>>
    decreases guilds.len(),
{
    if guilds.len() == 0 {
        Seq::empty()
    } else {
        let before = ids_where(guilds.drop_last(), personal);
        if guilds.last().is_personal == personal {
            before.push(guilds.last().id)
        } else {
            before
        }
    }
}

/// The ids in the order in which they are asked: shared guilds before personal
/// ones, and the server's order within each group.
pub open spec fn asking_order(guilds: Seq<GuildModel>) -> Seq<Seq<char>> {
    ids_where(guilds, false) + ids_where(guilds, true)
}

/// Appends the ids of the guilds that are personal, or of those that are not.
fn push_ids(out: &mut Vec<String>, guilds: &Vec<Guild>, personal: bool)
    ensures
        texts(final(out)@) == texts(old(out)@) + ids_where(guild_models(guilds@), personal),
{
    let ghost all = guild_models(guilds@);
    let ghost before = texts(out@);
    let n: usize = guilds.len();
    let mut i: usize = 0;
    assert(before + ids_where(all.take(0), personal) =~= before);
    while i < n
        invariant
            n == guilds@.len(),
            i <= n,
            all == guild_models(guilds@),
            texts(out@) == before + ids_where(all.take(i as int), personal),
        decreases n - i,
    {
        proof {
            assert(all.take(i + 1).drop_last() =~= all.take(i as int));
            assert(all.take(i + 1).last() == guilds@[i as int]@);
        }
        if guilds[i].is_personal == personal {
            let id = guilds[i].id.clone();
            proof {
                assert(texts(out@.push(id)) =~= texts(out@).push(id@));
                assert(texts(out@).push(id@) =~= before + ids_where(all.take(i + 1), personal));
            }
            out.push(id);
        }
        i = i + 1;
    }
    assert(all.take(n as int) =~= all);
}

/// The guild ids in the order in which they are asked.
pub fn match_order(guilds: &Vec<Guild>) -> (r: Vec<String>)
    ensures
        texts(r@) == asking_order(guild_models(guilds@)),
{
    let mut out: Vec<String> = Vec::new();
    push_ids(&mut out, guilds, false);
    assert(texts(out@) =~= ids_where(guild_models(guilds@), false));
    push_ids(&mut out, guilds, true);
    out
}

/// One match request: the candidates from `start` up to `end`, asked of one guild.
#[derive(Debug)]
pub struct MatchRequest {
    pub guild_id: String,
    pub start: usize,
    pub end: usize,
}

/// What a `MatchRequest` holds.
#[verifier::ext_equal]
pub struct RequestModel {
    pub guild_id: Seq<char>,
    pub start: int,
    pub end: int,
}

impl View for MatchRequest {
    type V = RequestModel;

    open spec fn view(&self) -> RequestModel {
        RequestModel { guild_id: self.guild_id@, start: self.start as int, end: self.end as int }
    }
}

/// What a sequence of requests holds.
pub open spec fn request_models(v: Seq<MatchRequest>) -> Seq<RequestModel> {
    v.map_values(|x: MatchRequest| x@)
}

/// The file names of some recordings.
pub open spec fn names_of(videos: Seq<VideoModel>) -> Seq<Seq<char>> {
    videos.map_values(|v: VideoModel| v.filename)
}

/// Whether the name at `end` stands among those from `from` up to `end`.
pub open spec fn repeats(names: Seq<Seq<char>>, from: int, end: int) -> bool {
    exists|i: int| from <= i < end && #[trigger] names[i] == names[end]
}

/// How far a request that starts at `from` and holds the candidates up to `end` extends:
/// to the bound, but never to a file name that it holds already. The server answers by
/// file name, so that an answer says which recording it is for.
pub open spec fn batch_end(names: Seq<Seq<char>>, from: int, end: int) -> int
    decreases names.len() - end,
{
    if end >= names.len() || end - from >= MATCH_BATCH || repeats(names, from, end) {
        end
    } else {
        batch_end(names, from, end + 1)
    }
}

proof fn lemma_batch_end(names: Seq<Seq<char>>, from: int, end: int)
    requires
        0 <= from <= end <= names.len(),
        end - from <= MATCH_BATCH,
        forall|i: int, j: int|
            from <= i < j < end ==> #[trigger] names[i] != #[trigger] names[j],
    ensures
        end <= batch_end(names, from, end) <= names.len(),
        batch_end(names, from, end) - from <= MATCH_BATCH,
        forall|i: int, j: int|
            from <= i < j < batch_end(names, from, end) ==> #[trigger] names[i]
                != #[trigger] names[j],
        from == end && from < names.len() ==> batch_end(names, from, end) > from,
    decreases names.len() - end,
{
    if end < names.len() && end - from < MATCH_BATCH && !repeats(names, from, end) {
        assert forall|i: int, j: int| from <= i < j < end + 1 implies #[trigger] names[i]
            != #[trigger] names[j] by {
            if j == end {
                assert(names[i] != names[end]);
            }
        }
        lemma_batch_end(names, from, end + 1);
    }
}

/// The requests to one guild for the candidates from `from` on.
pub open spec fn batches(guild: Seq<char>, from: int, names: Seq<Seq<char>>) -> Seq<RequestModel>
    decreases names.len() - from,
    via batches_decreases
{
    if from < 0 || from >= names.len() {
        Seq::empty()
    } else {
        let end = batch_end(names, from, from);
        seq![RequestModel { guild_id: guild, start: from, end }] + batches(guild, end, names)
    }
}

#[via_fn]
proof fn batches_decreases(guild: Seq<char>, from: int, names: Seq<Seq<char>>) {
    if 0 <= from < names.len() {
        lemma_batch_end(names, from, from);
    }
}

/// All requests: every guild in turn, each for all candidates.
pub open spec fn plan(guilds: Seq<Seq<char>>, names: Seq<Seq<char>>) -> Seq<RequestModel>
    decreases guilds.len(),
{
    if guilds.len() == 0 {
        Seq::empty()
    } else {
        plan(guilds.drop_last(), names) + batches(guilds.last(), 0, names)
    }
}

/// Whether the file name of candidate `end` stands among those from `from` up to it.
fn name_repeats(candidates: &Vec<VideoItem>, from: usize, end: usize) -> (r: bool)
    requires
        from <= end < candidates@.len(),
    ensures
        r == repeats(names_of(video_models(candidates@)), from as int, end as int),
{
    let ghost names = names_of(video_models(candidates@));
    let mut i: usize = from;
    assert(names[end as int] == candidates@[end as int].filename@);
    while i < end
        invariant
            from <= i <= end < candidates@.len(),
            names == names_of(video_models(candidates@)),
            names[end as int] == candidates@[end as int].filename@,
            forall|j: int| from <= j < i ==> #[trigger] names[j] != names[end as int],
        decreases end - i,
    {
        assert(names[i as int] == candidates@[i as int].filename@);
        if same_text(candidates[i].filename.as_str(), candidates[end].filename.as_str()) {
            return true;
        }
        i = i + 1;
    }
    false
}

/// Appends the requests to one guild.
fn push_batches(out: &mut Vec<MatchRequest>, guild: &String, candidates: &Vec<VideoItem>)
    ensures
        request_models(final(out)@) == request_models(old(out)@) + batches(
            guild@,
            0,
            names_of(video_models(candidates@)),
        ),
{
    let ghost before = request_models(out@);
    let ghost names = names_of(video_models(candidates@));
    let total: usize = candidates.len();
    let mut from: usize = 0;
    while from < total
        invariant
            from <= total,
            total == candidates@.len(),
            names == names_of(video_models(candidates@)),
            request_models(out@) + batches(guild@, from as int, names) == before + batches(
                guild@,
                0,
                names,
            ),
        decreases total - from,
    {
        let mut end: usize = from;
        while end < total && end - from < MATCH_BATCH && !name_repeats(candidates, from, end)
            invariant
                from <= end <= total,
                total == candidates@.len(),
                names == names_of(video_models(candidates@)),
                batch_end(names, from as int, from as int) == batch_end(
                    names,
                    from as int,
                    end as int,
                ),
            decreases total - end,
        {
            end = end + 1;
        }
        let q = MatchRequest { guild_id: guild.clone(), start: from, end };
        proof {
            assert(names.len() == total);
            lemma_batch_end(names, from as int, from as int);
            assert(request_models(out@.push(q)) =~= request_models(out@).push(q@));
            assert(request_models(out@).push(q@) + batches(guild@, end as int, names)
                =~= request_models(out@) + batches(guild@, from as int, names));
        }
        out.push(q);
        from = end;
    }
    assert(names.len() == total);
    assert(request_models(out@) + batches(guild@, total as int, names) =~= request_models(out@));
}

/// All match requests for the candidates.
pub fn match_requests(guilds: &Vec<String>, candidates: &Vec<VideoItem>) -> (r: Vec<MatchRequest>)
    ensures
        request_models(r@) == plan(texts(guilds@), names_of(video_models(candidates@))),
{
    let ghost all = texts(guilds@);
    let ghost names = names_of(video_models(candidates@));
    let mut out: Vec<MatchRequest> = Vec::new();
    let n: usize = guilds.len();
    let mut i: usize = 0;
    assert(request_models(out@) =~= plan(all.take(0), names));
    while i < n
        invariant
            n == guilds@.len(),
            i <= n,
            all == texts(guilds@),
            names == names_of(video_models(candidates@)),
            request_models(out@) == plan(all.take(i as int), names),
        decreases n - i,
    {
        proof {
            assert(all.take(i + 1).drop_last() =~= all.take(i as int));
            assert(all.take(i + 1).last() == guilds@[i as int]@);
        }
        push_batches(&mut out, &guilds[i], candidates);
        i = i + 1;
    }
    assert(all.take(n as int) =~= all);
    out
}

/// What a request carries of some recordings, of which these are the file names and the
/// sidecars: both of each that it holds, in order.
pub open spec fn carried(
    q: RequestModel,
    names: Seq<Seq<char>>,
    sidecars: Seq<Seq<char>>,
) -> Seq<InputModel> {
    Seq::new(
        (q.end - q.start) as nat,
        |i: int| InputModel { filename: names[q.start + i], metadata: sidecars[q.start + i] },
    )
}

/// The call to the server that makes a match request.
pub fn match_call(
    client: &ApiClient,
    q: &MatchRequest,
    candidates: &Vec<VideoItem>,
    sidecars: &Vec<String>,
) -> (r: Request)
    requires
        q.start <= q.end <= candidates@.len(),
        candidates@.len() == sidecars@.len(),
    ensures
        r@ == client.posts(
            "/api/povs/match"@,
            match_fields(
                q.guild_id@,
                carried(q@, names_of(video_models(candidates@)), texts(sidecars@)),
            ),
        ),
{
    let ghost all = carried(q@, names_of(video_models(candidates@)), texts(sidecars@));
    let mut videos: Vec<MatchInput> = Vec::new();
    let mut i: usize = q.start;
    assert(input_models(videos@) =~= all.take(0));
    while i < q.end
        invariant
            q.start <= i <= q.end <= candidates@.len(),
            candidates@.len() == sidecars@.len(),
            all == carried(q@, names_of(video_models(candidates@)), texts(sidecars@)),
            input_models(videos@) == all.take(i - q.start),
        decreases q.end - i,
    {
        let v = MatchInput {
            filename: candidates[i].filename.clone(),
            metadata: sidecars[i].clone(),
        };
        proof {
            assert(all[i - q.start] == v@);
            assert(input_models(videos@.push(v)) =~= input_models(videos@).push(v@));
            assert(input_models(videos@).push(v@) =~= all.take(i + 1 - q.start));
        }
        videos.push(v);
        i = i + 1;
    }
    assert(all.take(q.end - q.start) =~= all);
    client.match_videos(q.guild_id.clone(), videos)
}

/// One answer of one guild, to a request for the candidates from `start` up to `end`.
#[derive(Debug)]
pub struct Hit {
    pub guild_id: String,
    pub start: usize,
    pub end: usize,
    pub result: MatchResult,
}

/// What a `Hit` holds.
#[verifier::ext_equal]
pub struct HitModel {
    pub guild_id: Seq<char>,
    pub start: int,
    pub end: int,
    pub result: ResultModel,
}

impl View for Hit {
    type V = HitModel;

    open spec fn view(&self) -> HitModel {
        HitModel {
            guild_id: self.guild_id@,
            start: self.start as int,
            end: self.end as int,
            result: self.result@,
        }
    }
}

/// What a sequence of answers holds.
pub open spec fn hit_models(v: Seq<Hit>) -> Seq<HitModel> {
    v.map_values(|x: Hit| x@)
}

/// All answers, in the order in which they came, and the first failure.
#[derive(Debug)]
pub struct Gathered {
    pub hits: Vec<Hit>,
    pub error: Option<String>,
}

/// The name of a guild, or its id where no guild has that id.
pub open spec fn name_of(guilds: Seq<GuildModel>, id: Seq<char>) -> Seq<char>
    decreases guilds.len(),
{
    if guilds.len() == 0 {
        id
    } else if guilds[0].id == id {
        guilds[0].name
    } else {
        name_of(guilds.skip(1), id)
    }
}

/// The name of a guild, or its id where no guild has that id.
pub fn guild_name(guilds: &Vec<Guild>, id: &str) -> (r: String)
    ensures
        r@ == name_of(guild_models(guilds@), id@),
{
    let ghost all = guild_models(guilds@);
    let n: usize = guilds.len();
    let mut i: usize = 0;
    assert(all.skip(0) =~= all);
    while i < n
        invariant
            n == guilds@.len(),
            i <= n,
            all == guild_models(guilds@),
            name_of(all, id@) == name_of(all.skip(i as int), id@),
        decreases n - i,
    {
        proof {
            assert(all.skip(i as int)[0] == guilds@[i as int]@);
            assert(all.skip(i as int).skip(1) =~= all.skip(i + 1));
        }
        if same_text(guilds[i].id.as_str(), id) {
            return guilds[i].name.clone();
        }
        i = i + 1;
    }
    id.to_owned()
}

/// The reply to one request.
pub type Reply = Result<Vec<MatchResult>, String>;

/// What a list of results holds.
pub open spec fn result_models(v: Seq<MatchResult>) -> Seq<ResultModel> {
    v.map_values(|x: MatchResult| x@)
}

/// An answer to a request.
pub open spec fn answer_to(q: RequestModel, r: ResultModel) -> HitModel {
    HitModel { guild_id: q.guild_id, start: q.start, end: q.end, result: r }
}

/// The answers in the reply to a request.
pub open spec fn reply_hits(q: RequestModel, reply: Reply) -> Seq<HitModel> {
    match reply {
        Ok(results) => result_models(results@).map_values(|r: ResultModel| answer_to(q, r)),
        Err(_) => Seq::empty(),
    }
}

/// The answers in the replies to a run of requests, in order.
pub open spec fn all_hits(requests: Seq<RequestModel>, replies: Seq<Reply>) -> Seq<HitModel>
    decreases requests.len(),
{
    if requests.len() == 0 || requests.len() != replies.len() {
        Seq::empty()
    } else {
        all_hits(requests.drop_last(), replies.drop_last()) + reply_hits(
            requests.last(),
            replies.last(),
        )
    }
}

/// The first failure among the replies, with the name of the guild it came from.
pub open spec fn first_failure(
    guilds: Seq<GuildModel>,
    requests: Seq<RequestModel>,
    replies: Seq<Reply>,
) -> Option<Seq<char>>
    decreases requests.len(),
{
    if requests.len() == 0 || requests.len() != replies.len() {
        None
    } else {
        match first_failure(guilds, requests.drop_last(), replies.drop_last()) {
            Some(e) => Some(e),
            None => match replies.last() {
                Ok(_) => None,
                Err(e) => Some(name_of(guilds, requests.last().guild_id) + ": "@ + e@),
            },
        }
    }
}

/// Appends the answers to one request.
fn push_hits(out: &mut Vec<Hit>, q: &MatchRequest, results: &Vec<MatchResult>)
    ensures
        hit_models(final(out)@) == hit_models(old(out)@) + result_models(results@).map_values(
            |r: ResultModel| answer_to(q@, r),
        ),
{
    let ghost before = hit_models(out@);
    let ghost tagged = result_models(results@).map_values(|r: ResultModel| answer_to(q@, r));
    let n: usize = results.len();
    let mut i: usize = 0;
    assert(before + tagged.take(0) =~= before);
    while i < n
        invariant
            n == results@.len(),
            i <= n,
            tagged == result_models(results@).map_values(|r: ResultModel| answer_to(q@, r)),
            hit_models(out@) == before + tagged.take(i as int),
        decreases n - i,
    {
        let h = Hit {
            guild_id: q.guild_id.clone(),
            start: q.start,
            end: q.end,
            result: results[i].clone(),
        };
        proof {
            assert(tagged[i as int] == h@);
            assert(hit_models(out@.push(h)) =~= hit_models(out@).push(h@));
            assert(hit_models(out@).push(h@) =~= before + tagged.take(i + 1));
        }
        out.push(h);
        i = i + 1;
    }
    assert(tagged.take(n as int) =~= tagged);
}

/// Collects the replies to a run of requests.
pub fn gather(guilds: &Vec<Guild>, requests: &Vec<MatchRequest>, replies: &Vec<Reply>) -> (r: Gathered)
    requires
        requests@.len() == replies@.len(),
    ensures
        hit_models(r.hits@) == all_hits(request_models(requests@), replies@),
        opt_text(r.error) == first_failure(
            guild_models(guilds@),
            request_models(requests@),
            replies@,
        ),
{
    let ghost all = request_models(requests@);
    let ghost gm = guild_models(guilds@);
    let mut hits: Vec<Hit> = Vec::new();
    let mut error: Option<String> = None;
    let n: usize = requests.len();
    let mut i: usize = 0;
    assert(hit_models(hits@) =~= all_hits(all.take(0), replies@.take(0)));
    while i < n
        invariant
            n == requests@.len(),
            n == replies@.len(),
            i <= n,
            all == request_models(requests@),
            gm == guild_models(guilds@),
            hit_models(hits@) == all_hits(all.take(i as int), replies@.take(i as int)),
            opt_text(error) == first_failure(gm, all.take(i as int), replies@.take(i as int)),
        decreases n - i,
    {
        proof {
            assert(all.take(i + 1).drop_last() =~= all.take(i as int));
            assert(all.take(i + 1).last() == requests@[i as int]@);
            assert(replies@.take(i + 1).drop_last() =~= replies@.take(i as int));
            assert(replies@.take(i + 1).last() == replies@[i as int]);
        }
        match &replies[i] {
            Ok(results) => {
                push_hits(&mut hits, &requests[i], results);
            },
            Err(e) => {
                if error.is_none() {
                    let mut msg = guild_name(guilds, requests[i].guild_id.as_str());
                    msg.append(": ");
                    msg.append(e.as_str());
                    error = Some(msg);
                }
                assert(hit_models(hits@) + Seq::<HitModel>::empty() =~= hit_models(hits@));
            },
        }
        i = i + 1;
    }
    assert(all.take(n as int) =~= all);
    assert(replies@.take(n as int) =~= replies@);
    Gathered { hits, error }
}

/// The texts of an optional list of strings.
pub open spec fn opt_texts(o: Option<Vec<String>>) -> Option<Seq<Seq<char>>> {
    match o {
        Some(v) => Some(texts(v@)),
        None => None,
    }
}

/// Whether matches in a guild are to be uploaded; with no choice made, all are.
pub open spec fn chosen_guild(selected: Option<Seq<Seq<char>>>, id: Seq<char>) -> bool {
    match selected {
        Some(ids) => ids.contains(id),
        None => true,
    }
}

/// Whether matches in a guild are to be uploaded.
pub fn is_selected(selected: &Option<Vec<String>>, id: &str) -> (r: bool)
    ensures
        r == chosen_guild(opt_texts(*selected), id@),
{
    match selected {
        None => true,
        Some(ids) => {
            let n: usize = ids.len();
            let mut i: usize = 0;
            while i < n
                invariant
                    n == ids@.len(),
                    i <= n,
                    opt_texts(*selected) == Some(texts(ids@)),
                    forall|j: int| 0 <= j < i ==> (#[trigger] ids@[j])@ != id@,
                decreases n - i,
            {
                if same_text(ids[i].as_str(), id) {
                    assert(texts(ids@)[i as int] == id@);
                    return true;
                }
                i = i + 1;
            }
            assert forall|j: int| 0 <= j < texts(ids@).len() implies texts(ids@)[j] != id@ by {
                assert(texts(ids@)[j] == ids@[j]@);
            }
            false
        },
    }
}

/// The first answer with a property.
pub open spec fn first_hit(hits: Seq<HitModel>, p: spec_fn(HitModel) -> bool) -> Option<HitModel>
    decreases hits.len(),
{
    if hits.len() == 0 {
        None
    } else if p(hits[0]) {
        Some(hits[0])
    } else {
        first_hit(hits.skip(1), p)
    }
}

/// Whether another of these names is the same as name `k`.
pub open spec fn shares_name(names: Seq<Seq<char>>, k: int) -> bool {
    exists|i: int| 0 <= i < names.len() && i != k && #[trigger] names[i] == names[k]
}

/// The place of candidate `k` among the candidates with these file names. An answer says by
/// file name which recording it is for. That is enough where no other has the name, and
/// the candidate needs no place; where another has it, its place is `k`, and only an
/// answer to a request that holds it is for it.
pub open spec fn place_of(names: Seq<Seq<char>>, k: int) -> Option<int> {
    if shares_name(names, k) {
        Some(k)
    } else {
        None
    }
}

/// Whether a request for the candidates from `start` up to `end` holds a place. Where none is
/// needed, every request does.
pub open spec fn holds(start: int, end: int, place: Option<int>) -> bool {
    match place {
        Some(k) => start <= k < end,
        None => true,
    }
}

/// The place that is meant by an index.
pub open spec fn as_place(place: Option<usize>) -> Option<int> {
    match place {
        Some(k) => Some(k as int),
        None => None,
    }
}

/// The place of candidate `k`.
fn place_for(candidates: &Vec<VideoItem>, k: usize) -> (r: Option<usize>)
    requires
        k < candidates@.len(),
    ensures
        as_place(r) == place_of(names_of(video_models(candidates@)), k as int),
{
    let ghost names = names_of(video_models(candidates@));
    let n: usize = candidates.len();
    let mut i: usize = 0;
    assert(names[k as int] == candidates@[k as int].filename@);
    while i < n
        invariant
            n == candidates@.len(),
            i <= n,
            k < n,
            names == names_of(video_models(candidates@)),
            names[k as int] == candidates@[k as int].filename@,
            forall|j: int| 0 <= j < i && j != k ==> #[trigger] names[j] != names[k as int],
        decreases n - i,
    {
        assert(names[i as int] == candidates@[i as int].filename@);
        if i != k && same_text(candidates[i].filename.as_str(), candidates[k].filename.as_str()) {
            return Some(k);
        }
        i = i + 1;
    }
    None
}

/// Whether an answer is for the candidate with this place and file name.
pub open spec fn answers(h: HitModel, place: Option<int>, filename: Seq<char>) -> bool {
    holds(h.start, h.end, place) && h.result.filename == filename
}

/// Whether an answer is for the candidate with this place and file name.
fn is_for(h: &Hit, place: Option<usize>, filename: &str) -> (r: bool)
    ensures
        r == answers(h@, as_place(place), filename@),
{
    let held = match place {
        Some(k) => h.start <= k && k < h.end,
        None => true,
    };
    held && same_text(h.result.filename.as_str(), filename)
}

/// The answers that name a pull for a candidate.
pub open spec fn matches_of(place: Option<int>, filename: Seq<char>) -> spec_fn(HitModel) -> bool {
    |h: HitModel| answers(h, place, filename) && h.result.matched is Some
}

/// The answers that name a pull for a candidate, in a guild chosen for upload.
pub open spec fn chosen_matches_of(
    place: Option<int>,
    filename: Seq<char>,
    selected: Option<Seq<Seq<char>>>,
) -> spec_fn(
    HitModel,
) -> bool {
    |h: HitModel|
        answers(h, place, filename) && h.result.matched is Some && chosen_guild(selected, h.guild_id)
}

/// The answers that give a reason for a candidate.
pub open spec fn reasons_of(place: Option<int>, filename: Seq<char>) -> spec_fn(HitModel) -> bool {
    |h: HitModel| answers(h, place, filename) && h.result.reason is Some
}

/// The match a candidate attaches to: the first in a chosen guild, else the first of all.
pub open spec fn best_match(
    hits: Seq<HitModel>,
    place: Option<int>,
    filename: Seq<char>,
    selected: Option<Seq<Seq<char>>>,
) -> Option<HitModel> {
    match first_hit(hits, chosen_matches_of(place, filename, selected)) {
        Some(h) => Some(h),
        None => first_hit(hits, matches_of(place, filename)),
    }
}

/// Why a candidate has no match: the server's reason, else the failure of the request.
pub open spec fn no_match_reason(
    hits: Seq<HitModel>,
    error: Option<Seq<char>>,
    place: Option<int>,
    filename: Seq<char>,
) -> Seq<char> {
    match first_hit(hits, reasons_of(place, filename)) {
        Some(h) => if h.result.reason == Some("player_not_in_roster"@) {
            "You weren't in this pull's roster"@
        } else {
            "No matching pull found"@
        },
        None => match error {
            Some(e) => "Match request failed — "@ + e,
            None => "No matching pull found"@,
        },
    }
}

/// Why the user may not upload a matched recording.
pub open spec fn refusal(r: ResultModel) -> Seq<char> {
    if r.reason == Some("no_upload_permission"@) {
        "Matched — you're not allowed to upload VODs to this guild"@
    } else if r.reason == Some("no_storage"@) {
        "Matched — no upload storage is configured for this guild"@
    } else if r.reason == Some("player_not_in_roster"@) {
        "Matched — you weren't in this pull's roster"@
    } else if !r.is_own_pov {
        "Another player's POV — only a guild admin can upload it"@
    } else {
        "Matched — you can't upload this recording"@
    }
}

/// The pull of an answer, as it is attached to a recording.
pub open spec fn attachment(guilds: Seq<GuildModel>, h: HitModel, pull: PullModel) -> MatchedModel {
    MatchedModel {
        guild_id: h.guild_id,
        guild_name: name_of(guilds, h.guild_id),
        pull_id: pull.pull_id,
        boss_name: pull.boss_name,
        pull_number: pull.pull_number,
        is_kill: pull.is_kill,
        date: pull.date,
        start_time: pull.start_time,
        is_own_pov: h.result.is_own_pov,
        can_upload: h.result.can_upload,
        existing_video_id: h.result.existing_video_id,
    }
}

/// What the candidate with this place becomes once the answers are in.
pub open spec fn classified(
    item: VideoModel,
    place: Option<int>,
    hits: Seq<HitModel>,
    error: Option<Seq<char>>,
    selected: Option<Seq<Seq<char>>>,
    guilds: Seq<GuildModel>,
) -> VideoModel {
    match best_match(hits, place, item.filename, selected) {
        None => VideoModel {
            reason: Some(no_match_reason(hits, error, place, item.filename)),
            ..item
        },
        Some(h) => {
            let attached = VideoModel {
                matched: Some(attachment(guilds, h, h.result.matched->0)),
                ..item
            };
            if h.result.existing_video_id is Some {
                VideoModel {
                    status: "uploaded"@,
                    reason: Some("Already uploaded"@),
                    ..attached
                }
            } else if !chosen_guild(selected, h.guild_id) {
                VideoModel {
                    status: "skipped"@,
                    reason: Some("Matched, but this guild isn't selected for upload"@),
                    ..attached
                }
            } else if !h.result.can_upload {
                VideoModel { status: "matched"@, reason: Some(refusal(h.result)), ..attached }
            } else {
                VideoModel { status: "matched"@, ..attached }
            }
        },
    }
}

/// The index of the first answer that names a pull for a candidate; where `chosen_only`
/// holds, in a guild chosen for upload.
fn find_match(
    hits: &Vec<Hit>,
    place: Option<usize>,
    filename: &str,
    selected: &Option<Vec<String>>,
    chosen_only: bool,
) -> (r: Option<usize>)
    ensures
        ({
            let p = if chosen_only {
                chosen_matches_of(as_place(place), filename@, opt_texts(*selected))
            } else {
                matches_of(as_place(place), filename@)
            };
            match r {
                Some(i) => i < hits@.len() && p(hits@[i as int]@) && first_hit(
                    hit_models(hits@),
                    p,
                ) == Some(hits@[i as int]@),
                None => first_hit(hit_models(hits@), p) is None,
            }
        }),
{
    let ghost all = hit_models(hits@);
    let ghost p = if chosen_only {
        chosen_matches_of(as_place(place), filename@, opt_texts(*selected))
    } else {
        matches_of(as_place(place), filename@)
    };
    let n: usize = hits.len();
    let mut i: usize = 0;
    assert(all.skip(0) =~= all);
    while i < n
        invariant
            n == hits@.len(),
            i <= n,
            all == hit_models(hits@),
            p == (if chosen_only {
                chosen_matches_of(as_place(place), filename@, opt_texts(*selected))
            } else {
                matches_of(as_place(place), filename@)
            }),
            first_hit(all, p) == first_hit(all.skip(i as int), p),
        decreases n - i,
    {
        proof {
            assert(all.skip(i as int)[0] == hits@[i as int]@);
            assert(all.skip(i as int).skip(1) =~= all.skip(i + 1));
        }
        if hits[i].result.matched.is_some() && is_for(&hits[i], place, filename) && (!chosen_only
            || is_selected(selected, hits[i].guild_id.as_str())) {
            return Some(i);
        }
        i = i + 1;
    }
    None
}

/// The index of the first answer that gives a reason for a candidate.
fn find_reason(hits: &Vec<Hit>, place: Option<usize>, filename: &str) -> (r: Option<usize>)
    ensures
        match r {
            Some(i) => i < hits@.len() && first_hit(
                hit_models(hits@),
                reasons_of(as_place(place), filename@),
            ) == Some(hits@[i as int]@),
            None => first_hit(hit_models(hits@), reasons_of(as_place(place), filename@)) is None,
        },
{
    let ghost all = hit_models(hits@);
    let n: usize = hits.len();
    let mut i: usize = 0;
    assert(all.skip(0) =~= all);
    while i < n
        invariant
            n == hits@.len(),
            i <= n,
            all == hit_models(hits@),
            first_hit(all, reasons_of(as_place(place), filename@)) == first_hit(
                all.skip(i as int),
                reasons_of(as_place(place), filename@),
            ),
        decreases n - i,
    {
        proof {
            assert(all.skip(i as int)[0] == hits@[i as int]@);
            assert(all.skip(i as int).skip(1) =~= all.skip(i + 1));
        }
        if hits[i].result.reason.is_some() && is_for(&hits[i], place, filename) {
            return Some(i);
        }
        i = i + 1;
    }
    None
}

/// Why a candidate has no match.
fn explain_no_match(gathered: &Gathered, place: Option<usize>, filename: &str) -> (r: String)
    ensures
        r@ == no_match_reason(
            hit_models(gathered.hits@),
            opt_text(gathered.error),
            as_place(place),
            filename@,
        ),
{
    match find_reason(&gathered.hits, place, filename) {
        Some(i) => if opt_is(&gathered.hits[i].result.reason, "player_not_in_roster") {
            "You weren't in this pull's roster".to_owned()
        } else {
            "No matching pull found".to_owned()
        },
        None => match &gathered.error {
            Some(e) => {
                let mut msg = String::new();
                msg.append("Match request failed — ");
                msg.append(e.as_str());
                assert(msg@ =~= "Match request failed — "@ + e@);
                msg
            },
            None => "No matching pull found".to_owned(),
        },
    }
}

/// Why the user may not upload a matched recording.
fn explain_refusal(r: &MatchResult) -> (s: String)
    ensures
        s@ == refusal(r@),
{
    if opt_is(&r.reason, "no_upload_permission") {
        "Matched — you're not allowed to upload VODs to this guild".to_owned()
    } else if opt_is(&r.reason, "no_storage") {
        "Matched — no upload storage is configured for this guild".to_owned()
    } else if opt_is(&r.reason, "player_not_in_roster") {
        "Matched — you weren't in this pull's roster".to_owned()
    } else if !r.is_own_pov {
        "Another player's POV — only a guild admin can upload it".to_owned()
    } else {
        "Matched — you can't upload this recording".to_owned()
    }
}

/// What the candidate with this place becomes once the answers are in.
pub fn classify(
    item: VideoItem,
    place: Option<usize>,
    gathered: &Gathered,
    selected: &Option<Vec<String>>,
    guilds: &Vec<Guild>,
) -> (r: VideoItem)
    ensures
        r@ == classified(
            item@,
            as_place(place),
            hit_models(gathered.hits@),
            opt_text(gathered.error),
            opt_texts(*selected),
            guild_models(guilds@),
        ),
{
    let mut item = item;
    let chosen: Option<usize> = match find_match(
        &gathered.hits,
        place,
        item.filename.as_str(),
        selected,
        true,
    ) {
        Some(i) => Some(i),
        None => find_match(&gathered.hits, place, item.filename.as_str(), selected, false),
    };
    let at: usize = match chosen {
        Some(i) => i,
        None => {
            let reason = explain_no_match(gathered, place, item.filename.as_str());
            item.reason = Some(reason);
            return item;
        },
    };
    let hit = &gathered.hits[at];
    match &hit.result.matched {
        Some(pull) => {
            item.matched = Some(
                MatchedInfo {
                    guild_id: hit.guild_id.clone(),
                    guild_name: guild_name(guilds, hit.guild_id.as_str()),
                    pull_id: pull.pull_id.clone(),
                    boss_name: pull.boss_name.clone(),
                    pull_number: pull.pull_number,
                    is_kill: pull.is_kill,
                    date: pull.date.clone(),
                    start_time: pull.start_time.clone(),
                    is_own_pov: hit.result.is_own_pov,
                    can_upload: hit.result.can_upload,
                    existing_video_id: hit.result.existing_video_id.clone(),
                },
            );
        },
        None => {},
    }
    if hit.result.existing_video_id.is_some() {
        item.status = "uploaded".to_owned();
        item.reason = Some("Already uploaded".to_owned());
    } else if !is_selected(selected, hit.guild_id.as_str()) {
        item.status = "skipped".to_owned();
        item.reason = Some("Matched, but this guild isn't selected for upload".to_owned());
    } else if !hit.result.can_upload {
        item.status = "matched".to_owned();
        item.reason = Some(explain_refusal(&hit.result));
    } else {
        item.status = "matched".to_owned();
    }
    item
}

/// What all candidates become.
pub open spec fn all_classified(
    candidates: Seq<VideoModel>,
    hits: Seq<HitModel>,
    error: Option<Seq<char>>,
    selected: Option<Seq<Seq<char>>>,
    guilds: Seq<GuildModel>,
) -> Seq<VideoModel> {
    Seq::new(
        candidates.len(),
        |k: int|
            classified(
                candidates[k],
                place_of(names_of(candidates), k),
                hits,
                error,
                selected,
                guilds,
            ),
    )
}

/// The outcome of a scan: the recordings already settled on the list together with
/// the classified candidates, in display order, and whether the server's list of
/// pulls can be trusted. It can only where something was asked and nothing failed.
pub fn scan_and_match(
    listed: Vec<VideoItem>,
    candidates: Vec<VideoItem>,
    guilds: &Vec<Guild>,
    selected: &Option<Vec<String>>,
    gathered: &Gathered,
) -> (r: (Vec<VideoItem>, bool))
    ensures
        video_models(r.0@) == in_order(
            video_models(listed@) + all_classified(
                video_models(candidates@),
                hit_models(gathered.hits@),
                opt_text(gathered.error),
                opt_texts(*selected),
                guild_models(guilds@),
            ),
        ),
        r.1 == (candidates@.len() > 0 && guilds@.len() > 0 && gathered.error is None),
{
    let ghost done = all_classified(
        video_models(candidates@),
        hit_models(gathered.hits@),
        opt_text(gathered.error),
        opt_texts(*selected),
        guild_models(guilds@),
    );
    let ghost before = video_models(listed@);
    let mut items = listed;
    let n: usize = candidates.len();
    let mut i: usize = 0;
    assert(before + done.take(0) =~= before);
    while i < n
        invariant
            n == candidates@.len(),
            i <= n,
            done == all_classified(
                video_models(candidates@),
                hit_models(gathered.hits@),
                opt_text(gathered.error),
                opt_texts(*selected),
                guild_models(guilds@),
            ),
            video_models(items@) == before + done.take(i as int),
        decreases n - i,
    {
        let place: Option<usize> = place_for(&candidates, i);
        let item = classify(candidates[i].clone(), place, gathered, selected, guilds);
        proof {
            assert(item@ == done[i as int]);
            assert(video_models(items@.push(item)) =~= video_models(items@).push(item@));
            assert(video_models(items@).push(item@) =~= before + done.take(i + 1));
        }
        items.push(item);
        i = i + 1;
    }
    assert(done.len() == n);
    assert(done.take(n as int) =~= done);
    let match_ok: bool = n > 0 && guilds.len() > 0 && gathered.error.is_none();
    (sort_items(items), match_ok)
}

/// Whether `b` are requests to one guild that follow each other without gap or
/// overlap from `from` up to the last candidate, each for at least one recording, for no
/// more than the bound, and for no two with the same file name.
pub open spec fn tiles(b: Seq<RequestModel>, guild: Seq<char>, from: int, names: Seq<Seq<char>>) -> bool {
    &&& (b.len() == 0 <==> from >= names.len())
    &&& b.len() > 0 ==> b[0].start == from && b.last().end == names.len()
    &&& forall|i: int|
        0 <= i < b.len() ==> {
            &&& (#[trigger] b[i]).guild_id == guild
            &&& 0 <= b[i].start < b[i].end <= b[i].start + MATCH_BATCH
            &&& b[i].end <= names.len()
            &&& one_of_each(names, b[i].start, b[i].end)
        }
    &&& forall|i: int, j: int|
        0 <= i && j == i + 1 && j < b.len() ==> (#[trigger] b[i]).end == (#[trigger] b[j]).start
}

/// Whether no two of the names from `start` up to `end` are the same.
pub open spec fn one_of_each(names: Seq<Seq<char>>, start: int, end: int) -> bool {
    forall|i: int, j: int| start <= i < j < end ==> #[trigger] names[i] != #[trigger] names[j]
}

/// The requests to one guild carry every candidate exactly once, at most a hundred
/// at a time, and never two with the same file name.
pub proof fn batches_tile(guild: Seq<char>, from: int, names: Seq<Seq<char>>)
    requires
        0 <= from,
    ensures
        tiles(batches(guild, from, names), guild, from, names),
    decreases names.len() - from,
{
    if from < names.len() {
        let b = batches(guild, from, names);
        lemma_batch_end(names, from, from);
        let end = batch_end(names, from, from);
        let rest = batches(guild, end, names);
        batches_tile(guild, end, names);
        assert(b =~= seq![b[0]] + rest);
        assert(one_of_each(names, from, end));
        assert forall|i: int| 0 <= i < b.len() implies {
            &&& (#[trigger] b[i]).guild_id == guild
            &&& 0 <= b[i].start < b[i].end <= b[i].start + MATCH_BATCH
            &&& b[i].end <= names.len()
            &&& one_of_each(names, b[i].start, b[i].end)
        } by {
            if i > 0 {
                assert(b[i] == rest[i - 1]);
            }
        }
        assert forall|i: int, j: int| 0 <= i && j == i + 1 && j < b.len() implies (#[trigger] b[i]).end
            == (#[trigger] b[j]).start by {
            assert(b[j] == rest[j - 1]);
            if i > 0 {
                assert(b[i] == rest[i - 1]);
            }
        }
        if rest.len() > 0 {
            assert(b.last() == rest.last());
        }
    }
}

/// Where no two file names are the same, a request is as long as the bound allows.
pub proof fn distinct_names_fill_requests(names: Seq<Seq<char>>, from: int, end: int)
    requires
        0 <= from <= end <= names.len(),
        end - from <= MATCH_BATCH,
        one_of_each(names, 0, names.len() as int),
    ensures
        batch_end(names, from, end) == (if names.len() - from <= MATCH_BATCH {
            names.len() as int
        } else {
            from + MATCH_BATCH
        }),
    decreases names.len() - end,
{
    if end < names.len() && end - from < MATCH_BATCH {
        assert(!repeats(names, from, end));
        distinct_names_fill_requests(names, from, end + 1);
    }
}

proof fn lemma_batches_reach(guild: Seq<char>, from: int, names: Seq<Seq<char>>, v: int)
    requires
        0 <= from <= v < names.len(),
    ensures
        exists|q: int|
            0 <= q < batches(guild, from, names).len() && (#[trigger] batches(
                guild,
                from,
                names,
            )[q]).start <= v < batches(guild, from, names)[q].end,
    decreases names.len() - from,
{
    let b = batches(guild, from, names);
    lemma_batch_end(names, from, from);
    let end = b[0].end;
    if v < end {
        assert(b[0].start <= v < b[0].end);
    } else {
        let rest = batches(guild, end, names);
        lemma_batches_reach(guild, end, names, v);
        let q = choose|q: int| 0 <= q < rest.len() && (#[trigger] rest[q]).start <= v < rest[q].end;
        assert(b[q + 1] == rest[q]);
    }
}

/// Every recording is asked of every guild.
pub proof fn plan_asks_everything(guilds: Seq<Seq<char>>, names: Seq<Seq<char>>, g: int, v: int)
    requires
        0 <= g < guilds.len(),
        0 <= v < names.len(),
    ensures
        exists|q: int|
            0 <= q < plan(guilds, names).len() && (#[trigger] plan(guilds, names)[q]).guild_id
                == guilds[g] && plan(guilds, names)[q].start <= v < plan(guilds, names)[q].end,
    decreases guilds.len(),
{
    let all = plan(guilds, names);
    let head = plan(guilds.drop_last(), names);
    let tail = batches(guilds.last(), 0, names);
    if g == guilds.len() - 1 {
        lemma_batches_reach(guilds.last(), 0, names, v);
        batches_tile(guilds.last(), 0, names);
        let q = choose|q: int| 0 <= q < tail.len() && (#[trigger] tail[q]).start <= v < tail[q].end;
        assert(all[head.len() + q] == tail[q]);
    } else {
        plan_asks_everything(guilds.drop_last(), names, g, v);
        let q = choose|q: int|
            0 <= q < head.len() && (#[trigger] head[q]).guild_id == guilds.drop_last()[g]
                && head[q].start <= v < head[q].end;
        assert(all[q] == head[q]);
    }
}

/// What a run of requests carries, one request behind the other.
pub open spec fn carried_by(
    b: Seq<RequestModel>,
    names: Seq<Seq<char>>,
    sidecars: Seq<Seq<char>>,
) -> Seq<InputModel>
    decreases b.len(),
{
    if b.len() == 0 {
        Seq::empty()
    } else {
        carried(b[0], names, sidecars) + carried_by(b.skip(1), names, sidecars)
    }
}

/// The requests to one guild carry together the file name and the sidecar of every
/// candidate, each once and in order.
pub proof fn requests_carry_everything(
    guild: Seq<char>,
    from: int,
    names: Seq<Seq<char>>,
    sidecars: Seq<Seq<char>>,
)
    requires
        0 <= from <= names.len(),
        names.len() == sidecars.len(),
    ensures
        carried_by(batches(guild, from, names), names, sidecars) == Seq::new(
            (names.len() - from) as nat,
            |i: int| InputModel { filename: names[from + i], metadata: sidecars[from + i] },
        ),
    decreases names.len() - from,
{
    if from < names.len() {
        lemma_batch_end(names, from, from);
        let b = batches(guild, from, names);
        let end = batch_end(names, from, from);
        assert(b.skip(1) =~= batches(guild, end, names));
        requests_carry_everything(guild, end, names, sidecars);
        assert(carried_by(b, names, sidecars) =~= Seq::new(
            (names.len() - from) as nat,
            |i: int| InputModel { filename: names[from + i], metadata: sidecars[from + i] },
        ));
    } else {
        assert(carried_by(batches(guild, from, names), names, sidecars) =~= Seq::new(
            0,
            |i: int| InputModel { filename: names[from + i], metadata: sidecars[from + i] },
        ));
    }
}

/// No request carries more recordings than the bound, or none at all, and none carries two
/// with the same file name.
pub proof fn plan_respects_the_bound(guilds: Seq<Seq<char>>, names: Seq<Seq<char>>, q: int)
    requires
        0 <= q < plan(guilds, names).len(),
    ensures
        0 <= plan(guilds, names)[q].start,
        plan(guilds, names)[q].end <= names.len(),
        0 < plan(guilds, names)[q].end - plan(guilds, names)[q].start <= MATCH_BATCH,
        one_of_each(names, plan(guilds, names)[q].start, plan(guilds, names)[q].end),
    decreases guilds.len(),
{
    let head = plan(guilds.drop_last(), names);
    batches_tile(guilds.last(), 0, names);
    if q < head.len() {
        plan_respects_the_bound(guilds.drop_last(), names, q);
        assert(plan(guilds, names)[q] == head[q]);
    } else {
        assert(plan(guilds, names)[q] == batches(guilds.last(), 0, names)[q - head.len()]);
    }
}

proof fn lemma_first_hit(hits: Seq<HitModel>, p: spec_fn(HitModel) -> bool)
    ensures
        match first_hit(hits, p) {
            Some(h) => exists|i: int|
                0 <= i < hits.len() && #[trigger] hits[i] == h && p(h) && forall|j: int|
                    0 <= j < i ==> !p(#[trigger] hits[j]),
            None => forall|j: int| 0 <= j < hits.len() ==> !p(#[trigger] hits[j]),
        },
    decreases hits.len(),
{
    if hits.len() == 0 {
    } else if p(hits[0]) {
    } else {
        let rest = hits.skip(1);
        lemma_first_hit(rest, p);
        match first_hit(hits, p) {
            Some(h) => {
                let i = choose|i: int|
                    0 <= i < rest.len() && #[trigger] rest[i] == h && p(h) && forall|j: int|
                        0 <= j < i ==> !p(#[trigger] rest[j]);
                assert(hits[i + 1] == h);
                assert forall|j: int| 0 <= j < i + 1 implies !p(#[trigger] hits[j]) by {
                    if j > 0 {
                        assert(rest[j - 1] == hits[j]);
                    }
                }
            },
            None => {
                assert forall|j: int| 0 <= j < hits.len() implies !p(#[trigger] hits[j]) by {
                    if j > 0 {
                        assert(rest[j - 1] == hits[j]);
                    }
                }
            },
        }
    }
}

/// A recording attaches to a guild chosen for upload whenever one of them matches it.
pub proof fn chosen_guild_wins(
    hits: Seq<HitModel>,
    place: Option<int>,
    filename: Seq<char>,
    selected: Option<Seq<Seq<char>>>,
    i: int,
)
    requires
        0 <= i < hits.len(),
        matches_of(place, filename)(hits[i]),
        chosen_guild(selected, hits[i].guild_id),
    ensures
        best_match(hits, place, filename, selected) is Some,
        matches_of(place, filename)(best_match(hits, place, filename, selected)->0),
        chosen_guild(selected, best_match(hits, place, filename, selected)->0.guild_id),
{
    lemma_first_hit(hits, chosen_matches_of(place, filename, selected));
    assert(chosen_matches_of(place, filename, selected)(hits[i]));
}

/// A recording whose file name no other candidate has takes every answer with that name,
/// whichever request it is to.
pub proof fn lone_names_are_enough(names: Seq<Seq<char>>, k: int, h: HitModel)
    requires
        0 <= k < names.len(),
        forall|i: int| 0 <= i < names.len() && i != k ==> #[trigger] names[i] != names[k],
    ensures
        answers(h, place_of(names, k), names[k]) <==> h.result.filename == names[k],
{
}

/// A recording has a match exactly when some guild named a pull for it.
pub proof fn any_match_is_taken(
    hits: Seq<HitModel>,
    place: Option<int>,
    filename: Seq<char>,
    selected: Option<Seq<Seq<char>>>,
)
    ensures
        best_match(hits, place, filename, selected) is Some <==> exists|i: int|
            0 <= i < hits.len() && matches_of(place, filename)(#[trigger] hits[i]),
        best_match(hits, place, filename, selected) is Some ==> matches_of(place, filename)(
            best_match(hits, place, filename, selected)->0,
        ),
{
    lemma_first_hit(hits, chosen_matches_of(place, filename, selected));
    lemma_first_hit(hits, matches_of(place, filename));
}

/// Whether no two guilds share an id.
pub open spec fn ids_distinct(guilds: Seq<GuildModel>) -> bool {
    forall|i: int, j: int|
        0 <= i < j < guilds.len() ==> (#[trigger] guilds[i]).id != (#[trigger] guilds[j]).id
}

/// Whether `id` is that of a personal guild.
pub open spec fn personal_id(guilds: Seq<GuildModel>, id: Seq<char>) -> bool {
    exists|i: int| 0 <= i < guilds.len() && (#[trigger] guilds[i]).is_personal && guilds[i].id == id
}

proof fn lemma_ids_where(guilds: Seq<GuildModel>, personal: bool)
    ensures
        forall|k: int|
            0 <= k < ids_where(guilds, personal).len() ==> exists|i: int|
                0 <= i < guilds.len() && (#[trigger] guilds[i]).is_personal == personal
                    && guilds[i].id == #[trigger] ids_where(guilds, personal)[k],
    decreases guilds.len(),
{
    if guilds.len() > 0 {
        let t = guilds.drop_last();
        lemma_ids_where(t, personal);
        let ids = ids_where(guilds, personal);
        let before = ids_where(t, personal);
        assert forall|k: int| 0 <= k < ids.len() implies exists|i: int|
            0 <= i < guilds.len() && (#[trigger] guilds[i]).is_personal == personal && guilds[i].id
                == #[trigger] ids[k] by {
            if k < before.len() {
                assert(ids[k] == before[k]);
                let i = choose|i: int|
                    0 <= i < t.len() && (#[trigger] t[i]).is_personal == personal && t[i].id
                        == before[k];
                assert(guilds[i] == t[i]);
            } else {
                assert(guilds[guilds.len() - 1].id == ids[k]);
            }
        }
    }
}

/// In the order of asking, no personal guild comes before a shared one.
pub proof fn shared_guilds_asked_first(guilds: Seq<GuildModel>, i: int, j: int)
    requires
        ids_distinct(guilds),
        0 <= i < j < asking_order(guilds).len(),
        personal_id(guilds, asking_order(guilds)[i]),
    ensures
        personal_id(guilds, asking_order(guilds)[j]),
{
    let shared = ids_where(guilds, false);
    let own = ids_where(guilds, true);
    lemma_ids_where(guilds, false);
    lemma_ids_where(guilds, true);
    if i < shared.len() {
        assert(asking_order(guilds)[i] == shared[i]);
        let a = choose|a: int|
            0 <= a < guilds.len() && (#[trigger] guilds[a]).is_personal == false && guilds[a].id
                == shared[i];
        let b = choose|b: int|
            0 <= b < guilds.len() && (#[trigger] guilds[b]).is_personal && guilds[b].id == shared[i];
        assert(guilds[a].id == guilds[b].id);
        assert(a != b);
        if a < b {
            assert(guilds[a].id != guilds[b].id);
        } else {
            assert(guilds[b].id != guilds[a].id);
        }
    } else {
        let k = j - shared.len();
        assert(asking_order(guilds)[j] == own[k]);
        let a = choose|a: int|
            0 <= a < guilds.len() && (#[trigger] guilds[a]).is_personal == true && guilds[a].id
                == own[k];
        assert(guilds[a].is_personal && guilds[a].id == own[k]);
    }
}

/// Whether answers of personal guilds stand behind those of shared ones.
pub open spec fn shared_first(guilds: Seq<GuildModel>, hits: Seq<HitModel>) -> bool {
    forall|i: int, j: int|
        0 <= i < j < hits.len() && personal_id(guilds, (#[trigger] hits[i]).guild_id)
            ==> personal_id(guilds, (#[trigger] hits[j]).guild_id)
}

/// Whether the requests to personal guilds stand behind those to shared ones.
pub open spec fn asks_shared_first(guilds: Seq<GuildModel>, requests: Seq<RequestModel>) -> bool {
    forall|i: int, j: int|
        0 <= i < j < requests.len() && personal_id(guilds, (#[trigger] requests[i]).guild_id)
            ==> personal_id(guilds, (#[trigger] requests[j]).guild_id)
}

proof fn lemma_plan_origin(ids: Seq<Seq<char>>, names: Seq<Seq<char>>, q: int) -> (g: int)
    requires
        0 <= q < plan(ids, names).len(),
    ensures
        0 <= g < ids.len(),
        plan(ids, names)[q].guild_id == ids[g],
        q >= plan(ids.drop_last(), names).len() ==> g == ids.len() - 1,
    decreases ids.len(),
{
    let head = plan(ids.drop_last(), names);
    if q < head.len() {
        let g = lemma_plan_origin(ids.drop_last(), names, q);
        assert(plan(ids, names)[q] == head[q]);
        g
    } else {
        batches_tile(ids.last(), 0, names);
        assert(plan(ids, names)[q] == batches(ids.last(), 0, names)[q - head.len()]);
        ids.len() - 1
    }
}

proof fn lemma_plan_shared_first(guilds: Seq<GuildModel>, ids: Seq<Seq<char>>, names: Seq<Seq<char>>)
    requires
        forall|i: int, j: int|
            0 <= i < j < ids.len() && personal_id(guilds, #[trigger] ids[i]) ==> personal_id(
                guilds,
                #[trigger] ids[j],
            ),
    ensures
        asks_shared_first(guilds, plan(ids, names)),
    decreases ids.len(),
{
    if ids.len() > 0 {
        let t = ids.drop_last();
        assert forall|i: int, j: int|
            0 <= i < j < t.len() && personal_id(guilds, #[trigger] t[i]) implies personal_id(
            guilds,
            #[trigger] t[j],
        ) by {
            assert(t[i] == ids[i] && t[j] == ids[j]);
        }
        lemma_plan_shared_first(guilds, t, names);
        let all = plan(ids, names);
        let head = plan(t, names);
        assert forall|i: int, j: int|
            0 <= i < j < all.len() && personal_id(guilds, (#[trigger] all[i]).guild_id) implies personal_id(
            guilds,
            (#[trigger] all[j]).guild_id,
        ) by {
            if j < head.len() {
                assert(all[i] == head[i] && all[j] == head[j]);
            } else {
                let gi = lemma_plan_origin(ids, names, i);
                let gj = lemma_plan_origin(ids, names, j);
                assert(gj == ids.len() - 1);
                if gi < gj {
                    assert(personal_id(guilds, ids[gi]));
                    assert(personal_id(guilds, ids[gj]));
                }
            }
        }
    }
}

proof fn lemma_hits_origin(requests: Seq<RequestModel>, replies: Seq<Reply>, k: int) -> (q: int)
    requires
        requests.len() == replies.len(),
        0 <= k < all_hits(requests, replies).len(),
    ensures
        0 <= q < requests.len(),
        all_hits(requests, replies)[k].guild_id == requests[q].guild_id,
        k >= all_hits(requests.drop_last(), replies.drop_last()).len() ==> q == requests.len() - 1,
    decreases requests.len(),
{
    let head = all_hits(requests.drop_last(), replies.drop_last());
    if k < head.len() {
        let q = lemma_hits_origin(requests.drop_last(), replies.drop_last(), k);
        assert(all_hits(requests, replies)[k] == head[k]);
        q
    } else {
        assert(all_hits(requests, replies)[k] == reply_hits(requests.last(), replies.last())[k
            - head.len()]);
        requests.len() - 1
    }
}

proof fn lemma_hits_shared_first(guilds: Seq<GuildModel>, requests: Seq<RequestModel>, replies: Seq<Reply>)
    requires
        requests.len() == replies.len(),
        asks_shared_first(guilds, requests),
    ensures
        shared_first(guilds, all_hits(requests, replies)),
    decreases requests.len(),
{
    if requests.len() > 0 {
        let tq = requests.drop_last();
        let tr = replies.drop_last();
        assert forall|i: int, j: int|
            0 <= i < j < tq.len() && personal_id(guilds, (#[trigger] tq[i]).guild_id) implies personal_id(
            guilds,
            (#[trigger] tq[j]).guild_id,
        ) by {
            assert(tq[i] == requests[i] && tq[j] == requests[j]);
        }
        lemma_hits_shared_first(guilds, tq, tr);
        let all = all_hits(requests, replies);
        let head = all_hits(tq, tr);
        assert forall|i: int, j: int|
            0 <= i < j < all.len() && personal_id(guilds, (#[trigger] all[i]).guild_id) implies personal_id(
            guilds,
            (#[trigger] all[j]).guild_id,
        ) by {
            if j < head.len() {
                assert(all[i] == head[i] && all[j] == head[j]);
            } else {
                let qi = lemma_hits_origin(requests, replies, i);
                let qj = lemma_hits_origin(requests, replies, j);
                assert(qj == requests.len() - 1);
                if qi < qj {
                    assert(personal_id(guilds, requests[qi].guild_id));
                    assert(personal_id(guilds, requests[qj].guild_id));
                }
            }
        }
    }
}

/// A pull that a shared guild and a personal one both have lands on the shared one:
/// whatever the replies, a recording is attached to a personal guild only where no shared
/// guild, of those chosen for upload or, failing these, of all, matches it.
pub proof fn shared_guild_preferred(
    guilds: Seq<GuildModel>,
    names: Seq<Seq<char>>,
    replies: Seq<Reply>,
    place: Option<int>,
    filename: Seq<char>,
    selected: Option<Seq<Seq<char>>>,
    i: int,
)
    requires
        ids_distinct(guilds),
        replies.len() == plan(asking_order(guilds), names).len(),
        0 <= i < all_hits(plan(asking_order(guilds), names), replies).len(),
        ({
            let h = all_hits(plan(asking_order(guilds), names), replies)[i];
            let chosen = chosen_matches_of(place, filename, selected);
            &&& !personal_id(guilds, h.guild_id)
            &&& chosen(h) || (matches_of(place, filename)(h) && first_hit(
                all_hits(plan(asking_order(guilds), names), replies),
                chosen,
            ) is None)
        }),
    ensures
        ({
            let hits = all_hits(plan(asking_order(guilds), names), replies);
            let best = best_match(hits, place, filename, selected);
            best is Some && !personal_id(guilds, best->0.guild_id)
        }),
{
    let ids = asking_order(guilds);
    let requests = plan(ids, names);
    let hits = all_hits(requests, replies);
    assert forall|a: int, b: int|
        0 <= a < b < ids.len() && personal_id(guilds, #[trigger] ids[a]) implies personal_id(
        guilds,
        #[trigger] ids[b],
    ) by {
        shared_guilds_asked_first(guilds, a, b);
    }
    lemma_plan_shared_first(guilds, ids, names);
    lemma_hits_shared_first(guilds, requests, replies);
    let chosen = chosen_matches_of(place, filename, selected);
    let p = if chosen(hits[i]) {
        chosen
    } else {
        matches_of(place, filename)
    };
    lemma_first_hit(hits, chosen);
    lemma_first_hit(hits, p);
    let best = first_hit(hits, p)->0;
    let n = choose|n: int|
        0 <= n < hits.len() && #[trigger] hits[n] == best && p(best) && forall|j: int|
            0 <= j < n ==> !p(#[trigger] hits[j]);
    assert(n <= i);
    if personal_id(guilds, hits[n].guild_id) && n < i {
        assert(personal_id(guilds, hits[i].guild_id));
    }
}

/// What the statuses of a classified candidate mean: it is `matched` without a
/// reason only where the pull is in a chosen guild, the user may upload it and the
/// server does not have it yet; it is `uploaded` exactly where the server has it;
/// and it stays `unmatched` exactly where no guild named a pull.
pub proof fn classification_means(
    item: VideoModel,
    place: Option<int>,
    hits: Seq<HitModel>,
    error: Option<Seq<char>>,
    selected: Option<Seq<Seq<char>>>,
    guilds: Seq<GuildModel>,
)
    requires
        item.status == "unmatched"@,
        item.reason is None,
        item.matched is None,
    ensures
        ({
            let r = classified(item, place, hits, error, selected, guilds);
            &&& r.status == "matched"@ && r.reason is None <==> {
                &&& r.matched is Some
                &&& r.matched->0.can_upload
                &&& r.matched->0.existing_video_id is None
                &&& chosen_guild(selected, r.matched->0.guild_id)
            }
            &&& r.status == "uploaded"@ <==> r.matched is Some
                && r.matched->0.existing_video_id is Some
            &&& r.status == "unmatched"@ <==> r.matched is None
            &&& r.status == "matched"@ || r.reason is Some
        }),
{
    reveal_strlit("matched");
    reveal_strlit("uploaded");
    reveal_strlit("unmatched");
    reveal_strlit("skipped");
    assert("matched"@.len() == 7 && "uploaded"@.len() == 8 && "unmatched"@.len() == 9
        && "skipped"@.len() == 7);
    assert("matched"@[0] != "skipped"@[0]);
}

/// Whether result `i` of reply `q` names a pull for the candidate with this place and file
/// name.
pub open spec fn names_pull(
    requests: Seq<RequestModel>,
    replies: Seq<Reply>,
    q: int,
    i: int,
    place: Option<int>,
    filename: Seq<char>,
) -> bool {
    &&& 0 <= q < requests.len()
    &&& holds(requests[q].start, requests[q].end, place)
    &&& replies[q] matches Ok(results) && 0 <= i < results@.len() && results@[i].filename@
        == filename && results@[i].matched is Some
}

/// The pull that result `i` of reply `q` names.
pub open spec fn pull_in(replies: Seq<Reply>, q: int, i: int) -> Seq<char> {
    match replies[q] {
        Ok(results) => results@[i].matched->0.pull_id@,
        Err(_) => Seq::empty(),
    }
}

/// Whether the replies to the requests that hold a place name the pull `pull` for its
/// candidate, and no other.
pub open spec fn told(
    requests: Seq<RequestModel>,
    replies: Seq<Reply>,
    place: Option<int>,
    filename: Seq<char>,
    pull: Seq<char>,
) -> bool {
    &&& exists|q: int, i: int| #[trigger] names_pull(requests, replies, q, i, place, filename)
    &&& forall|q: int, i: int| #[trigger]
        names_pull(requests, replies, q, i, place, filename) ==> pull_in(replies, q, i) == pull
}

proof fn lemma_hit_of(requests: Seq<RequestModel>, replies: Seq<Reply>, q: int, i: int) -> (h: int)
    requires
        requests.len() == replies.len(),
        0 <= q < requests.len(),
        replies[q] matches Ok(results) && 0 <= i < results@.len(),
    ensures
        0 <= h < all_hits(requests, replies).len(),
        replies[q] matches Ok(results) && all_hits(requests, replies)[h] == answer_to(
            requests[q],
            results@[i]@,
        ),
    decreases requests.len(),
{
    let head = all_hits(requests.drop_last(), replies.drop_last());
    if q < requests.len() - 1 {
        let h = lemma_hit_of(requests.drop_last(), replies.drop_last(), q, i);
        assert(all_hits(requests, replies)[h] == head[h]);
        h
    } else {
        let tail = reply_hits(requests.last(), replies.last());
        assert(all_hits(requests, replies)[head.len() + i] == tail[i]);
        head.len() + i
    }
}

proof fn lemma_origin_of(requests: Seq<RequestModel>, replies: Seq<Reply>, h: int) -> (o: (int, int))
    requires
        requests.len() == replies.len(),
        0 <= h < all_hits(requests, replies).len(),
    ensures
        0 <= o.0 < requests.len(),
        replies[o.0] matches Ok(results) && 0 <= o.1 < results@.len() && all_hits(requests, replies)[h]
            == answer_to(requests[o.0], results@[o.1]@),
    decreases requests.len(),
{
    let head = all_hits(requests.drop_last(), replies.drop_last());
    if h < head.len() {
        let o = lemma_origin_of(requests.drop_last(), replies.drop_last(), h);
        assert(all_hits(requests, replies)[h] == head[h]);
        o
    } else {
        let tail = reply_hits(requests.last(), replies.last());
        assert(all_hits(requests, replies)[h] == tail[h - head.len()]);
        (requests.len() - 1, h - head.len())
    }
}

/// A recording is attached to the pull that the replies to the requests that hold its place
/// name for it, whatever other requests are answered.
pub proof fn own_answer_is_taken(
    item: VideoModel,
    place: Option<int>,
    requests: Seq<RequestModel>,
    replies: Seq<Reply>,
    pull: Seq<char>,
    error: Option<Seq<char>>,
    selected: Option<Seq<Seq<char>>>,
    guilds: Seq<GuildModel>,
)
    requires
        requests.len() == replies.len(),
        told(requests, replies, place, item.filename, pull),
    ensures
        classified(item, place, all_hits(requests, replies), error, selected, guilds).matched matches Some(m)
            && m.pull_id == pull,
{
    let hits = all_hits(requests, replies);
    let (q, i) = choose|q: int, i: int| #[trigger]
        names_pull(requests, replies, q, i, place, item.filename);
    let at = lemma_hit_of(requests, replies, q, i);
    assert(matches_of(place, item.filename)(hits[at]));
    any_match_is_taken(hits, place, item.filename, selected);
    let best = best_match(hits, place, item.filename, selected)->0;
    lemma_first_hit(hits, chosen_matches_of(place, item.filename, selected));
    lemma_first_hit(hits, matches_of(place, item.filename));
    let b = choose|b: int| 0 <= b < hits.len() && #[trigger] hits[b] == best;
    let o = lemma_origin_of(requests, replies, b);
    assert(names_pull(requests, replies, o.0, o.1, place, item.filename));
}

/// Of two recordings with the same file name, each gets the pull that the server names for
/// its own metadata: no request holds both, so that an answer to the one is never taken
/// for one to the other, and where they are told different pulls they get these.
pub proof fn namesakes_get_their_own_pulls(
    guilds: Seq<GuildModel>,
    candidates: Seq<VideoModel>,
    replies: Seq<Reply>,
    i: int,
    j: int,
    a: Seq<char>,
    b: Seq<char>,
    error: Option<Seq<char>>,
    selected: Option<Seq<Seq<char>>>,
)
    requires
        0 <= i < candidates.len(),
        0 <= j < candidates.len(),
        i != j,
        candidates[i].filename == candidates[j].filename,
        ({
            let requests = plan(asking_order(guilds), names_of(candidates));
            &&& requests.len() == replies.len()
            &&& told(requests, replies, Some(i), candidates[i].filename, a)
            &&& told(requests, replies, Some(j), candidates[j].filename, b)
        }),
    ensures
        ({
            let requests = plan(asking_order(guilds), names_of(candidates));
            let hits = all_hits(requests, replies);
            let done = all_classified(candidates, hits, error, selected, guilds);
            &&& done[i].matched matches Some(m) && m.pull_id == a
            &&& done[j].matched matches Some(m) && m.pull_id == b
            &&& forall|h: int|
                0 <= h < hits.len() ==> !(answers(#[trigger] hits[h], Some(i), candidates[i].filename)
                    && answers(hits[h], Some(j), candidates[j].filename))
        }),
{
    let names = names_of(candidates);
    let ids = asking_order(guilds);
    let requests = plan(ids, names);
    let hits = all_hits(requests, replies);
    assert(names[i] == names[j]);
    assert(place_of(names, i) == Some(i));
    assert(place_of(names, j) == Some(j));
    own_answer_is_taken(candidates[i], Some(i), requests, replies, a, error, selected, guilds);
    own_answer_is_taken(candidates[j], Some(j), requests, replies, b, error, selected, guilds);
    assert forall|h: int| 0 <= h < hits.len() implies !(answers(
        #[trigger] hits[h],
        Some(i),
        candidates[i].filename,
    ) && answers(hits[h], Some(j), candidates[j].filename)) by {
        let o = lemma_origin_of(requests, replies, h);
        plan_respects_the_bound(ids, names, o.0);
    }
}

} // verus!
