//! Requests to the server: where each goes, in whose name, and what stands in it under which
//! name.
use vstd::prelude::*;
use vstd::string::*;

use crate::api::{
    ApiClient, EncounterSignal, Field, MatchInput, PartError, PartReply, Payload, Request, Status,
    abort_reply, input_models, part_models, payload_model, put_part, read_json, token_reply,
    token_request, whoami_reply,
};
use crate::settings::{Settings, base_url};

verus! {

/// Whether field `i`, and no other, stands under a name.
pub open spec fn named(p: Payload, name: Seq<char>, i: int) -> bool {
    &&& 0 <= i < p@.len()
    &&& p@[i].0@ == name
    &&& forall|j: int| 0 <= j < p@.len() && j != i ==> (#[trigger] p@[j]).0@ != name
}

/// Whether a text stands under a name.
pub open spec fn has_text(p: Payload, name: Seq<char>, s: Seq<char>) -> bool {
    exists|i: int| #[trigger] named(p, name, i) && (p@[i].1 matches Field::Text(t) && t@ == s)
}

/// Whether an optional text stands under a name, as null where there is none.
pub open spec fn has_opt(p: Payload, name: Seq<char>, o: Option<String>) -> bool {
    match o {
        Some(s) => has_text(p, name, s@),
        None => exists|i: int| #[trigger] named(p, name, i) && p@[i].1 is Null,
    }
}

/// Whether a count stands under a name.
pub open spec fn has_number(p: Payload, name: Seq<char>, n: u64) -> bool {
    exists|i: int| #[trigger] named(p, name, i) && (p@[i].1 matches Field::Number(m) && m == n)
}

/// Whether a number stands under a name.
pub open spec fn has_integer(p: Payload, name: Seq<char>, n: i64) -> bool {
    exists|i: int| #[trigger] named(p, name, i) && (p@[i].1 matches Field::Integer(m) && m == n)
}

/// Whether a flag stands under a name.
pub open spec fn has_flag(p: Payload, name: Seq<char>, b: bool) -> bool {
    exists|i: int| #[trigger] named(p, name, i) && (p@[i].1 matches Field::Flag(c) && c == b)
}

/// Whether metadata stands under a name.
pub open spec fn has_metadata(p: Payload, name: Seq<char>, s: Seq<char>) -> bool {
    exists|i: int| #[trigger] named(p, name, i) && (p@[i].1 matches Field::Metadata(t) && t@ == s)
}

/// Whether stored parts stand under a name: the number and the tag of each, in order.
pub open spec fn has_parts(p: Payload, name: Seq<char>, parts: Seq<(u32, String)>) -> bool {
    exists|i: int| #[trigger]
        named(p, name, i) && (p@[i].1 matches Field::Parts(q) && q@.len() == parts.len() && forall|k: int|
            0 <= k < parts.len() ==> (#[trigger] q@[k]).0 == parts[k].0 && q@[k].1@ == parts[k].1@)
}

/// Whether recordings stand under a name: the file name and the metadata of each, in order.
pub open spec fn has_videos(p: Payload, name: Seq<char>, videos: Seq<MatchInput>) -> bool {
    exists|i: int| #[trigger]
        named(p, name, i) && (p@[i].1 matches Field::Videos(v) && v@.len() == videos.len() && forall|k: int|
            0 <= k < videos.len() ==> (#[trigger] v@[k]).filename@ == videos[k].filename@ && v@[k].metadata@
                == videos[k].metadata@)
}

/// Whether a request posts something to a path of the client's server, in its name.
pub open spec fn posts_to(c: ApiClient, r: Request, path: Seq<char>) -> bool {
    r.url@ == c.base@ + path && r.token@ == c.token@ && r.payload is Some
}

/// Whether a request only asks at a path of the client's server, in its name.
pub open spec fn asks_at(c: ApiClient, r: Request, path: Seq<char>) -> bool {
    r.url@ == c.base@ + path && r.token@ == c.token@ && r.payload is None
}

proof fn lemma_payload(p: Payload)
    ensures
        payload_model(p@).len() == p@.len(),
        forall|i: int|
            0 <= i < p@.len() ==> (#[trigger] p@[i]).0@ == payload_model(p@)[i].0 && p@[i].1@
                == payload_model(p@)[i].1,
{
}

proof fn lemma_parts(q: Vec<(u32, String)>, parts: Seq<(u32, String)>)
    requires
        part_models(q@) == part_models(parts),
    ensures
        q@.len() == parts.len(),
        forall|k: int|
            0 <= k < parts.len() ==> (#[trigger] q@[k]).0 == parts[k].0 && q@[k].1@ == parts[k].1@,
{
    assert(part_models(q@).len() == q@.len());
    assert(part_models(parts).len() == parts.len());
    assert forall|k: int| 0 <= k < parts.len() implies (#[trigger] q@[k]).0 == parts[k].0 && q@[k].1@
        == parts[k].1@ by {
        assert(part_models(q@)[k] == (q@[k].0, q@[k].1@));
        assert(part_models(parts)[k] == (parts[k].0, parts[k].1@));
    }
}

proof fn lemma_videos_carried(v: Vec<MatchInput>, videos: Seq<MatchInput>)
    requires
        input_models(v@) == input_models(videos),
    ensures
        v@.len() == videos.len(),
        forall|k: int|
            0 <= k < videos.len() ==> (#[trigger] v@[k]).filename@ == videos[k].filename@ && v@[k].metadata@
                == videos[k].metadata@,
{
    assert(input_models(v@).len() == v@.len());
    assert(input_models(videos).len() == videos.len());
    assert forall|k: int| 0 <= k < videos.len() implies (#[trigger] v@[k]).filename@ == videos[k].filename@
        && v@[k].metadata@ == videos[k].metadata@ by {
        assert(input_models(v@)[k] == v@[k]@);
        assert(input_models(videos)[k] == videos[k]@);
    }
}

/// What is asked of the server is asked at its place.
pub proof fn questions_go_to_their_places(
    c: ApiClient,
    guild: &str,
    who: Request,
    events: Request,
    pulls: Request,
)
    requires
        call_ensures(ApiClient::whoami, (&c,), who),
        call_ensures(ApiClient::events, (&c,), events),
        call_ensures(ApiClient::list_pulls, (&c, guild), pulls),
    ensures
        asks_at(c, who, "/api/companion/whoami"@),
        asks_at(c, events, "/api/povs/events"@),
        asks_at(c, pulls, "/api/companion/pulls?guildId="@ + crate::encoding::url_text(guild@)),
{
}

/// The request that begins an upload names each thing as what it is.
pub proof fn an_upload_is_begun_for_its_pull(
    c: ApiClient,
    pull_id: String,
    player_name: String,
    realm: Option<String>,
    size_bytes: u64,
    filename: String,
    storage: Option<String>,
    r: Request,
)
    requires
        call_ensures(
            ApiClient::create_upload,
            (&c, pull_id, player_name, realm, size_bytes, filename, storage),
            r,
        ),
    ensures
        posts_to(c, r, "/api/povs/create-upload"@),
        r.payload->0@.len() == 6,
        has_text(r.payload->0, "pullId"@, pull_id@),
        has_text(r.payload->0, "playerName"@, player_name@),
        has_opt(r.payload->0, "realm"@, realm),
        has_number(r.payload->0, "sizeBytes"@, size_bytes),
        has_text(r.payload->0, "filename"@, filename@),
        has_opt(r.payload->0, "storage"@, storage),
{
    let p = r.payload->0;
    lemma_payload(p);
    reveal_strlit("pullId");
    reveal_strlit("playerName");
    reveal_strlit("realm");
    reveal_strlit("sizeBytes");
    reveal_strlit("filename");
    reveal_strlit("storage");
    assert("pullId"@.len() == 6
        && "playerName"@.len() == 10
        && "realm"@.len() == 5
        && "sizeBytes"@.len() == 9
        && "filename"@.len() == 8
        && "storage"@.len() == 7);
    assert(p@[0].0@ == "pullId"@);
    assert(p@[1].0@ == "playerName"@);
    assert(p@[2].0@ == "realm"@);
    assert(p@[3].0@ == "sizeBytes"@);
    assert(p@[4].0@ == "filename"@);
    assert(p@[5].0@ == "storage"@);
    assert(named(p, "pullId"@, 0));
    assert(named(p, "playerName"@, 1));
    assert(named(p, "realm"@, 2));
    assert(named(p, "sizeBytes"@, 3));
    assert(named(p, "filename"@, 4));
    assert(named(p, "storage"@, 5));
}

/// The request that completes an upload names each thing as what it is.
pub proof fn an_upload_is_completed_for_its_pull(
    c: ApiClient,
    pull_id: String,
    player_name: String,
    object_key: String,
    upload_id: String,
    parts: Vec<(u32, String)>,
    size_bytes: u64,
    duration_s: Option<u64>,
    metadata: String,
    storage_config_id: Option<String>,
    r: Request,
)
    requires
        call_ensures(
            ApiClient::complete_upload,
            (
                &c,
                pull_id,
                player_name,
                object_key,
                upload_id,
                parts,
                size_bytes,
                duration_s,
                metadata,
                storage_config_id,
            ),
            r,
        ),
    ensures
        posts_to(c, r, "/api/povs/complete"@),
        completes(
            r.payload->0,
            pull_id@,
            player_name@,
            object_key@,
            upload_id@,
            parts@,
            size_bytes,
            duration_s,
            metadata@,
            storage_config_id,
        ),
{
    lemma_completes(
        r.payload->0,
        pull_id@,
        player_name@,
        object_key@,
        upload_id@,
        parts@,
        size_bytes,
        duration_s,
        metadata@,
        storage_config_id,
    );
}

/// Whether what is posted completes this upload.
pub open spec fn completes(
    p: Payload,
    pull_id: Seq<char>,
    player_name: Seq<char>,
    object_key: Seq<char>,
    upload_id: Seq<char>,
    parts: Seq<(u32, String)>,
    size_bytes: u64,
    duration_s: Option<u64>,
    metadata: Seq<char>,
    storage_config_id: Option<String>,
) -> bool {
    &&& p@.len() == 9
    &&& has_text(p, "pullId"@, pull_id)
    &&& has_text(p, "playerName"@, player_name)
    &&& has_text(p, "objectKey"@, object_key)
    &&& has_text(p, "uploadId"@, upload_id)
    &&& has_parts(p, "parts"@, parts)
    &&& has_number(p, "sizeBytes"@, size_bytes)
    &&& match duration_s {
        Some(n) => has_number(p, "durationS"@, n),
        None => has_opt(p, "durationS"@, None),
    }
    &&& has_metadata(p, "metadata"@, metadata)
    &&& has_opt(p, "storageConfigId"@, storage_config_id)
}

pub(crate) proof fn lemma_completes(
    p: Payload,
    pull_id: Seq<char>,
    player_name: Seq<char>,
    object_key: Seq<char>,
    upload_id: Seq<char>,
    parts: Seq<(u32, String)>,
    size_bytes: u64,
    duration_s: Option<u64>,
    metadata: Seq<char>,
    storage_config_id: Option<String>,
)
    requires
        payload_model(p@) == crate::api::complete_fields(
            pull_id,
            player_name,
            object_key,
            upload_id,
            part_models(parts),
            size_bytes,
            duration_s,
            metadata,
            crate::text::opt_text(storage_config_id),
        ),
    ensures
        completes(
            p,
            pull_id,
            player_name,
            object_key,
            upload_id,
            parts,
            size_bytes,
            duration_s,
            metadata,
            storage_config_id,
        ),
{
    lemma_payload(p);
    reveal_strlit("pullId");
    reveal_strlit("playerName");
    reveal_strlit("objectKey");
    reveal_strlit("uploadId");
    reveal_strlit("parts");
    reveal_strlit("sizeBytes");
    reveal_strlit("durationS");
    reveal_strlit("metadata");
    reveal_strlit("storageConfigId");
    assert("pullId"@.len() == 6
        && "playerName"@.len() == 10
        && "objectKey"@.len() == 9
        && "uploadId"@.len() == 8
        && "parts"@.len() == 5
        && "sizeBytes"@.len() == 9
        && "durationS"@.len() == 9
        && "metadata"@.len() == 8
        && "storageConfigId"@.len() == 15);
    assert("objectKey"@[0] != "sizeBytes"@[0]);
    assert("objectKey"@[0] != "durationS"@[0]);
    assert("uploadId"@[0] != "metadata"@[0]);
    assert("sizeBytes"@[0] != "durationS"@[0]);
    assert(p@[0].0@ == "pullId"@);
    assert(p@[1].0@ == "playerName"@);
    assert(p@[2].0@ == "objectKey"@);
    assert(p@[3].0@ == "uploadId"@);
    assert(p@[4].0@ == "parts"@);
    assert(p@[5].0@ == "sizeBytes"@);
    assert(p@[6].0@ == "durationS"@);
    assert(p@[7].0@ == "metadata"@);
    assert(p@[8].0@ == "storageConfigId"@);
    assert(named(p, "pullId"@, 0));
    assert(named(p, "playerName"@, 1));
    assert(named(p, "objectKey"@, 2));
    assert(named(p, "uploadId"@, 3));
    assert(named(p, "parts"@, 4));
    assert(named(p, "sizeBytes"@, 5));
    assert(named(p, "durationS"@, 6));
    assert(named(p, "metadata"@, 7));
    assert(named(p, "storageConfigId"@, 8));
    if let Field::Parts(q) = p@[4].1 {
        lemma_parts(q, parts);
    }
}

/// Whether what is posted aborts this upload.
pub open spec fn aborts(
    p: Payload,
    object_key: Seq<char>,
    upload_id: Seq<char>,
    storage_config_id: Option<String>,
) -> bool {
    &&& p@.len() == 3
    &&& has_text(p, "objectKey"@, object_key)
    &&& has_text(p, "uploadId"@, upload_id)
    &&& has_opt(p, "storageConfigId"@, storage_config_id)
}

pub(crate) proof fn lemma_aborts(
    p: Payload,
    object_key: Seq<char>,
    upload_id: Seq<char>,
    storage_config_id: Option<String>,
)
    requires
        payload_model(p@) == crate::api::abort_fields(
            object_key,
            upload_id,
            crate::text::opt_text(storage_config_id),
        ),
    ensures
        aborts(p, object_key, upload_id, storage_config_id),
{
    lemma_payload(p);
    reveal_strlit("objectKey");
    reveal_strlit("uploadId");
    reveal_strlit("storageConfigId");
    assert("objectKey"@.len() == 9
        && "uploadId"@.len() == 8
        && "storageConfigId"@.len() == 15);
    assert(p@[0].0@ == "objectKey"@);
    assert(p@[1].0@ == "uploadId"@);
    assert(p@[2].0@ == "storageConfigId"@);
    assert(named(p, "objectKey"@, 0));
    assert(named(p, "uploadId"@, 1));
    assert(named(p, "storageConfigId"@, 2));
}

/// The request that aborts an upload names each thing as what it is.
pub proof fn an_upload_is_aborted_by_name(
    c: ApiClient,
    object_key: String,
    upload_id: String,
    storage_config_id: Option<String>,
    r: Request,
)
    requires
        call_ensures(ApiClient::abort_upload, (&c, object_key, upload_id, storage_config_id), r),
    ensures
        posts_to(c, r, "/api/povs/abort"@),
        aborts(r.payload->0, object_key@, upload_id@, storage_config_id),
{
    lemma_aborts(r.payload->0, object_key@, upload_id@, storage_config_id);
}

/// A match request is made of its guild, for exactly the recordings given, in order.
pub proof fn a_match_is_asked_of_its_guild(
    c: ApiClient,
    guild_id: String,
    videos: Vec<MatchInput>,
    r: Request,
)
    requires
        call_ensures(ApiClient::match_videos, (&c, guild_id, videos), r),
    ensures
        posts_to(c, r, "/api/povs/match"@),
        r.payload->0@.len() == 2,
        has_text(r.payload->0, "guildId"@, guild_id@),
        has_videos(r.payload->0, "videos"@, videos@),
{
    let p = r.payload->0;
    lemma_payload(p);
    reveal_strlit("guildId");
    reveal_strlit("videos");
    assert("guildId"@.len() == 7
        && "videos"@.len() == 6);
    assert(p@[0].0@ == "guildId"@);
    assert(p@[1].0@ == "videos"@);
    assert(named(p, "guildId"@, 0));
    assert(named(p, "videos"@, 1));
    if let Field::Videos(v) = p@[1].1 {
        lemma_videos_carried(v, videos@);
    }
}

/// The server is told of an encounter what the signal says, each under its name.
pub proof fn an_encounter_is_signalled_as_it_was(c: ApiClient, s: EncounterSignal, r: Request)
    requires
        call_ensures(ApiClient::post_encounter_signal, (&c, s), r),
    ensures
        posts_to(c, r, "/api/companion/encounter"@),
        r.payload->0@.len() == 7,
        has_text(r.payload->0, "guildId"@, s.guild_id@),
        has_integer(r.payload->0, "encounterId"@, s.encounter_id),
        has_text(r.payload->0, "encounterName"@, s.encounter_name@),
        has_integer(r.payload->0, "difficultyId"@, s.difficulty_id),
        has_flag(r.payload->0, "success"@, s.success),
        has_integer(r.payload->0, "startTime"@, s.start_time),
        has_integer(r.payload->0, "endTime"@, s.end_time),
{
    let p = r.payload->0;
    lemma_payload(p);
    reveal_strlit("guildId");
    reveal_strlit("encounterId");
    reveal_strlit("encounterName");
    reveal_strlit("difficultyId");
    reveal_strlit("success");
    reveal_strlit("startTime");
    reveal_strlit("endTime");
    assert("guildId"@.len() == 7
        && "encounterId"@.len() == 11
        && "encounterName"@.len() == 13
        && "difficultyId"@.len() == 12
        && "success"@.len() == 7
        && "startTime"@.len() == 9
        && "endTime"@.len() == 7);
    assert("guildId"@[0] != "success"@[0]);
    assert("guildId"@[0] != "endTime"@[0]);
    assert("success"@[0] != "endTime"@[0]);
    assert(p@[0].0@ == "guildId"@);
    assert(p@[1].0@ == "encounterId"@);
    assert(p@[2].0@ == "encounterName"@);
    assert(p@[3].0@ == "difficultyId"@);
    assert(p@[4].0@ == "success"@);
    assert(p@[5].0@ == "startTime"@);
    assert(p@[6].0@ == "endTime"@);
    assert(named(p, "guildId"@, 0));
    assert(named(p, "encounterId"@, 1));
    assert(named(p, "encounterName"@, 2));
    assert(named(p, "difficultyId"@, 3));
    assert(named(p, "success"@, 4));
    assert(named(p, "startTime"@, 5));
    assert(named(p, "endTime"@, 6));
}

/// A code is exchanged together with the verifier.
pub proof fn a_code_is_exchanged_with_its_verifier(code: String, verifier: String, p: Payload)
    requires
        call_ensures(token_request, (code, verifier), p),
    ensures
        p@.len() == 2,
        has_text(p, "code"@, code@),
        has_text(p, "verifier"@, verifier@),
{
    lemma_payload(p);
    reveal_strlit("code");
    reveal_strlit("verifier");
    assert("code"@.len() == 4
        && "verifier"@.len() == 8);
    assert(p@[0].0@ == "code"@);
    assert(p@[1].0@ == "verifier"@);
    assert(named(p, "code"@, 0));
    assert(named(p, "verifier"@, 1));
}

/// A release build talks to the public server, and a development build to the one on the
/// developers' own network; a client talks to the server that it is given, with its token.
pub proof fn a_build_is_pinned_to_its_server(
    development: bool,
    token: String,
    c: ApiClient,
    url: &'static str,
    base: String,
    d: ApiClient,
)
    requires
        call_ensures(ApiClient::new, (base, token), d),
        call_ensures(ApiClient::production, (development, token), c),
        call_ensures(base_url, (development,), url),
    ensures
        c.base@ == url@,
        c.token@ == token@,
        d.base@ == base@,
        d.token@ == token@,
        !development ==> url@ == "https://www.raidreview.com"@,
        development ==> url@ == "http://192.168.0.9:3080"@,
{
}

/// A reply counts as a success exactly if its status is one of the two hundreds; every other
/// is told with what the server said.
pub proof fn replies_are_judged_by_status(
    status: Status,
    label: &str,
    body: &str,
    read: Result<(), String>,
    who: Result<(), String>,
    abort: Result<(), String>,
    token: Result<(), String>,
    success: bool,
)
    requires
        call_ensures(Status::is_success, (&status,), success),
        call_ensures(read_json, (&status, label, body), read),
        call_ensures(whoami_reply, (&status,), who),
        call_ensures(abort_reply, (&status,), abort),
        call_ensures(token_reply, (&status,), token),
    ensures
        success <==> 200 <= status.code <= 299,
        read is Ok <==> 200 <= status.code <= 299,
        who is Ok <==> 200 <= status.code <= 299,
        abort is Ok <==> 200 <= status.code <= 299,
        token is Ok <==> 200 <= status.code <= 299,
        read matches Err(e) ==> e@ == label@ + " failed ("@ + status.text@ + "): "@ + body@,
        who matches Err(e) ==> e@ == (if status.code == 401 {
            "unauthorized"@
        } else {
            "whoami failed: "@ + status.text@
        }),
        abort matches Err(e) ==> e@ == "abort returned "@ + status.text@,
        token matches Err(e) ==> e@ == "token exchange failed: "@ + status.text@,
{
}

/// A part is stored exactly if it was answered with a success and a tag, and then under that
/// tag. Trying again is worth it exactly where no answer came, the storage failed or asked to
/// slow down.
pub proof fn parts_are_judged_by_their_answer(reply: PartReply, r: Result<String, PartError>)
    requires
        call_ensures(put_part, (reply,), r),
    ensures
        r is Ok <==> (reply matches PartReply::Answered { status, etag } && 200 <= status.code <= 299
            && etag is Some),
        r matches Ok(tag) ==> (reply matches PartReply::Answered { status, etag } && tag@ == etag->0@),
        r matches Err(e) ==> (e.retryable <==> (reply is Lost || (
        reply matches PartReply::Answered { status, etag } && (500 <= status.code <= 599 || status.code
            == 429)))),
        r matches Err(e) ==> match reply {
            PartReply::Lost(msg) => e.msg@ == msg@,
            PartReply::Answered { status, .. } => if 200 <= status.code <= 299 {
                e.msg@ == "part upload response missing ETag"@
            } else {
                e.msg@ == "part upload failed: "@ + status.text@
            },
        },
{
}

/// The combat log is watched unless that was turned off.
pub proof fn only_an_explicit_no_stops_the_watching(s: Settings, r: bool)
    requires
        call_ensures(Settings::livelog_watching_enabled, (&s,), r),
    ensures
        !r <==> s.livelog_watching == Some(false),
{
}

} // verus!
