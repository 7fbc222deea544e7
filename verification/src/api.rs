//! The records exchanged with the Raid Review server, the addresses they are
//! exchanged at, and what a reply's status means.
use vstd::prelude::*;
use vstd::string::*;

use crate::encoding::{url_encode, url_text};
use crate::settings::{base_url, pinned_url};
use crate::text::{opt_text, starts};

verus! {

/// The signed-in user.
#[derive(Debug)]
pub struct User {
    pub id: String,
    pub name: Option<String>,
    pub battle_tag: Option<String>,
}

impl Clone for User {
    fn clone(&self) -> (r: Self)
        ensures
            r == *self,
    {
        User {
            id: self.id.clone(),
            name: self.name.clone(),
            battle_tag: self.battle_tag.clone(),
        }
    }
}

/// A guild the user can see.
#[derive(Debug)]
pub struct Guild {
    pub id: String,
    pub name: String,
    pub is_personal: bool,
}

impl Clone for Guild {
    fn clone(&self) -> (r: Self)
        ensures
            r == *self,
    {
        Guild {
            id: self.id.clone(),
            name: self.name.clone(),
            is_personal: self.is_personal,
        }
    }
}

/// What a `Guild` holds.
#[verifier::ext_equal]
pub struct GuildModel {
    pub id: Seq<char>,
    pub name: Seq<char>,
    pub is_personal: bool,
}

impl View for Guild {
    type V = GuildModel;

    open spec fn view(&self) -> GuildModel {
        GuildModel { id: self.id@, name: self.name@, is_personal: self.is_personal }
    }
}

/// What a sequence of guilds holds.
pub open spec fn guild_models(v: Seq<Guild>) -> Seq<GuildModel> {
    v.map_values(|g: Guild| g@)
}

/// The signed-in user and the guilds they can see.
#[derive(Debug)]
pub struct WhoAmI {
    pub user: User,
    pub guilds: Vec<Guild>,
}

/// The raid pull that the server matched a recording to.
#[derive(Debug)]
pub struct PullMatch {
    pub pull_id: String,
    pub boss_name: String,
    pub pull_number: i64,
    pub is_kill: bool,
    pub duration_ms: i64,
    pub date: String,
    pub start_time: String,
}

impl Clone for PullMatch {
    fn clone(&self) -> (r: Self)
        ensures
            r == *self,
    {
        PullMatch {
            pull_id: self.pull_id.clone(),
            boss_name: self.boss_name.clone(),
            pull_number: self.pull_number,
            is_kill: self.is_kill,
            duration_ms: self.duration_ms,
            date: self.date.clone(),
            start_time: self.start_time.clone(),
        }
    }
}

/// What a `PullMatch` holds.
#[verifier::ext_equal]
pub struct PullModel {
    pub pull_id: Seq<char>,
    pub boss_name: Seq<char>,
    pub pull_number: i64,
    pub is_kill: bool,
    pub duration_ms: i64,
    pub date: Seq<char>,
    pub start_time: Seq<char>,
}

impl View for PullMatch {
    type V = PullModel;

    open spec fn view(&self) -> PullModel {
        PullModel {
            pull_id: self.pull_id@,
            boss_name: self.boss_name@,
            pull_number: self.pull_number,
            is_kill: self.is_kill,
            duration_ms: self.duration_ms,
            date: self.date@,
            start_time: self.start_time@,
        }
    }
}

/// The server's answer for one recording.
#[derive(Debug)]
pub struct MatchResult {
    pub filename: String,
    pub existing_video_id: Option<String>,
    pub is_own_pov: bool,
    pub can_upload: bool,
    pub matched: Option<PullMatch>,
    pub reason: Option<String>,
}

impl Clone for MatchResult {
    fn clone(&self) -> (r: Self)
        ensures
            r == *self,
    {
        MatchResult {
            filename: self.filename.clone(),
            existing_video_id: self.existing_video_id.clone(),
            is_own_pov: self.is_own_pov,
            can_upload: self.can_upload,
            matched: self.matched.clone(),
            reason: self.reason.clone(),
        }
    }
}

/// What a `MatchResult` holds.
#[verifier::ext_equal]
pub struct ResultModel {
    pub filename: Seq<char>,
    pub existing_video_id: Option<Seq<char>>,
    pub is_own_pov: bool,
    pub can_upload: bool,
    pub matched: Option<PullModel>,
    pub reason: Option<Seq<char>>,
}

impl View for MatchResult {
    type V = ResultModel;

    open spec fn view(&self) -> ResultModel {
        ResultModel {
            filename: self.filename@,
            existing_video_id: opt_text(self.existing_video_id),
            is_own_pov: self.is_own_pov,
            can_upload: self.can_upload,
            matched: match self.matched {
                Some(m) => Some(m@),
                None => None,
            },
            reason: opt_text(self.reason),
        }
    }
}

/// A multipart upload that the server has begun: where each part goes.
#[derive(Debug)]
pub struct CreateUpload {
    pub object_key: String,
    pub upload_id: String,
    pub part_size: u64,
    pub part_urls: Vec<String>,
    pub storage_config_id: Option<String>,
    pub storage_label: Option<String>,
}

/// What is sent when a raid encounter ends, so that the server can look for the
/// new pull at once.
#[derive(Debug)]
pub struct EncounterSignal {
    pub guild_id: String,
    pub encounter_id: i64,
    pub encounter_name: String,
    pub difficulty_id: i64,
    pub success: bool,
    pub start_time: i64,
    pub end_time: i64,
}

impl Clone for EncounterSignal {
    fn clone(&self) -> (r: Self)
        ensures
            r == *self,
    {
        EncounterSignal {
            guild_id: self.guild_id.clone(),
            encounter_id: self.encounter_id,
            encounter_name: self.encounter_name.clone(),
            difficulty_id: self.difficulty_id,
            success: self.success,
            start_time: self.start_time,
            end_time: self.end_time,
        }
    }
}

/// What an `EncounterSignal` holds.
#[verifier::ext_equal]
pub struct SignalModel {
    pub guild_id: Seq<char>,
    pub encounter_id: i64,
    pub encounter_name: Seq<char>,
    pub difficulty_id: i64,
    pub success: bool,
    pub start_time: i64,
    pub end_time: i64,
}

impl View for EncounterSignal {
    type V = SignalModel;

    open spec fn view(&self) -> SignalModel {
        SignalModel {
            guild_id: self.guild_id@,
            encounter_id: self.encounter_id,
            encounter_name: self.encounter_name@,
            difficulty_id: self.difficulty_id,
            success: self.success,
            start_time: self.start_time,
            end_time: self.end_time,
        }
    }
}

/// The server's verdict on an encounter signal: whether the boss is tracked, and
/// whether the signal set off a poll.
#[derive(Debug)]
pub struct EncounterSignalResp {
    pub is_tracked: bool,
    pub polled: bool,
}

/// One entry of the manual-match picker.
#[derive(Debug)]
pub struct PullSummary {
    pub id: String,
    pub boss_name: String,
    pub pull_number: i64,
    pub is_kill: bool,
    pub difficulty: i64,
    pub date: String,
    pub start_time: String,
}

impl Clone for PullSummary {
    fn clone(&self) -> (r: Self)
        ensures
            r == *self,
    {
        PullSummary {
            id: self.id.clone(),
            boss_name: self.boss_name.clone(),
            pull_number: self.pull_number,
            is_kill: self.is_kill,
            difficulty: self.difficulty,
            date: self.date.clone(),
            start_time: self.start_time.clone(),
        }
    }
}

/// A failed part upload, and whether trying again might succeed.
#[derive(Debug)]
pub struct PartError {
    pub retryable: bool,
    pub msg: String,
}

/// One recording in a match request.
#[derive(Debug)]
pub struct MatchInput {
    pub filename: String,
    /// The recorder's metadata of the recording: the text of its sidecar.
    pub metadata: String,
}

/// What a `MatchInput` holds.
#[verifier::ext_equal]
pub struct InputModel {
    pub filename: Seq<char>,
    pub metadata: Seq<char>,
}

impl View for MatchInput {
    type V = InputModel;

    open spec fn view(&self) -> InputModel {
        InputModel { filename: self.filename@, metadata: self.metadata@ }
    }
}

/// What the recordings in a match request hold.
pub open spec fn input_models(v: Seq<MatchInput>) -> Seq<InputModel> {
    v.map_values(|x: MatchInput| x@)
}

/// One value of a request.
#[derive(Debug)]
pub enum Field {
    Null,
    Text(String),
    Number(u64),
    Integer(i64),
    Flag(bool),
    /// The stored parts: the number and the tag of each.
    Parts(Vec<(u32, String)>),
    /// The recorder's metadata of the recording: the text of its sidecar.
    Metadata(String),
    /// The recordings to match.
    Videos(Vec<MatchInput>),
}

/// What a `Field` holds.
pub enum FieldModel {
    Null,
    Text(Seq<char>),
    Number(u64),
    Integer(i64),
    Flag(bool),
    Parts(Seq<(u32, Seq<char>)>),
    Metadata(Seq<char>),
    Videos(Seq<InputModel>),
}

/// The numbers and the tags of some parts.
pub open spec fn part_models(parts: Seq<(u32, String)>) -> Seq<(u32, Seq<char>)> {
    parts.map_values(|p: (u32, String)| (p.0, p.1@))
}

impl View for Field {
    type V = FieldModel;

    open spec fn view(&self) -> FieldModel {
        match self {
            Field::Null => FieldModel::Null,
            Field::Text(s) => FieldModel::Text(s@),
            Field::Number(n) => FieldModel::Number(*n),
            Field::Integer(n) => FieldModel::Integer(*n),
            Field::Flag(b) => FieldModel::Flag(*b),
            Field::Parts(p) => FieldModel::Parts(part_models(p@)),
            Field::Metadata(s) => FieldModel::Metadata(s@),
            Field::Videos(v) => FieldModel::Videos(input_models(v@)),
        }
    }
}

/// The values of a request, each under its name.
pub type Payload = Vec<(&'static str, Field)>;

/// What the values of a request hold.
pub open spec fn payload_model(p: Seq<(&'static str, Field)>) -> Seq<(Seq<char>, FieldModel)> {
    p.map_values(|f: (&'static str, Field)| (f.0@, f.1@))
}

/// A text, or null where there is none.
pub open spec fn text_or_null(o: Option<Seq<char>>) -> FieldModel {
    match o {
        Some(s) => FieldModel::Text(s),
        None => FieldModel::Null,
    }
}

fn or_null(o: Option<String>) -> (r: Field)
    ensures
        r@ == text_or_null(opt_text(o)),
{
    match o {
        Some(s) => Field::Text(s),
        None => Field::Null,
    }
}

/// A request to the server, made in the name of the holder of a token.
#[derive(Debug)]
pub struct Request {
    pub url: String,
    pub token: String,
    /// What is posted; a request without it only asks.
    pub payload: Option<Payload>,
}

/// What a `Request` holds.
#[verifier::ext_equal]
pub struct RequestModel {
    pub url: Seq<char>,
    pub token: Seq<char>,
    pub payload: Option<Seq<(Seq<char>, FieldModel)>>,
}

impl View for Request {
    type V = RequestModel;

    open spec fn view(&self) -> RequestModel {
        RequestModel {
            url: self.url@,
            token: self.token@,
            payload: match self.payload {
                Some(p) => Some(payload_model(p@)),
                None => None,
            },
        }
    }
}

/// What is sent to match recordings against the pulls of a guild.
pub open spec fn match_fields(
    guild_id: Seq<char>,
    videos: Seq<InputModel>,
) -> Seq<(Seq<char>, FieldModel)> {
    seq![("guildId"@, FieldModel::Text(guild_id)), ("videos"@, FieldModel::Videos(videos))]
}

/// What is sent of an encounter that has ended.
pub open spec fn signal_fields(s: SignalModel) -> Seq<(Seq<char>, FieldModel)> {
    seq![
        ("guildId"@, FieldModel::Text(s.guild_id)),
        ("encounterId"@, FieldModel::Integer(s.encounter_id)),
        ("encounterName"@, FieldModel::Text(s.encounter_name)),
        ("difficultyId"@, FieldModel::Integer(s.difficulty_id)),
        ("success"@, FieldModel::Flag(s.success)),
        ("startTime"@, FieldModel::Integer(s.start_time)),
        ("endTime"@, FieldModel::Integer(s.end_time)),
    ]
}

/// What is sent to begin an upload.
pub open spec fn create_fields(
    pull_id: Seq<char>,
    player_name: Seq<char>,
    realm: Option<Seq<char>>,
    size_bytes: u64,
    filename: Seq<char>,
    storage: Option<Seq<char>>,
) -> Seq<(Seq<char>, FieldModel)> {
    seq![
        ("pullId"@, FieldModel::Text(pull_id)),
        ("playerName"@, FieldModel::Text(player_name)),
        ("realm"@, text_or_null(realm)),
        ("sizeBytes"@, FieldModel::Number(size_bytes)),
        ("filename"@, FieldModel::Text(filename)),
        ("storage"@, text_or_null(storage)),
    ]
}

/// What is sent to complete an upload.
pub open spec fn complete_fields(
    pull_id: Seq<char>,
    player_name: Seq<char>,
    object_key: Seq<char>,
    upload_id: Seq<char>,
    parts: Seq<(u32, Seq<char>)>,
    size_bytes: u64,
    duration_s: Option<u64>,
    metadata: Seq<char>,
    storage_config_id: Option<Seq<char>>,
) -> Seq<(Seq<char>, FieldModel)> {
    seq![
        ("pullId"@, FieldModel::Text(pull_id)),
        ("playerName"@, FieldModel::Text(player_name)),
        ("objectKey"@, FieldModel::Text(object_key)),
        ("uploadId"@, FieldModel::Text(upload_id)),
        ("parts"@, FieldModel::Parts(parts)),
        ("sizeBytes"@, FieldModel::Number(size_bytes)),
        (
            "durationS"@,
            match duration_s {
                Some(n) => FieldModel::Number(n),
                None => FieldModel::Null,
            },
        ),
        ("metadata"@, FieldModel::Metadata(metadata)),
        ("storageConfigId"@, text_or_null(storage_config_id)),
    ]
}

/// What is sent to abort an upload.
pub open spec fn abort_fields(
    object_key: Seq<char>,
    upload_id: Seq<char>,
    storage_config_id: Option<Seq<char>>,
) -> Seq<(Seq<char>, FieldModel)> {
    seq![
        ("objectKey"@, FieldModel::Text(object_key)),
        ("uploadId"@, FieldModel::Text(upload_id)),
        ("storageConfigId"@, text_or_null(storage_config_id)),
    ]
}

/// The requests that are made to a server with a token.
#[derive(Debug)]
pub struct ApiClient {
    pub base: String,
    pub token: String,
}

impl ApiClient {
    /// Requests to the server at `base`.
    pub fn new(base: String, token: String) -> (r: Self)
        ensures
            r.base == base,
            r.token == token,
    {
        ApiClient { base, token }
    }

    /// Requests to the server that the build is pinned to.
    pub fn production(development: bool, token: String) -> (r: Self)
        ensures
            r.base@ == pinned_url(development),
            r.token == token,
    {
        ApiClient { base: base_url(development).to_owned(), token }
    }

    /// A request that asks for what is at a path.
    pub open spec fn asks(self, path: Seq<char>) -> RequestModel {
        RequestModel { url: self.base@ + path, token: self.token@, payload: None }
    }

    /// A request that posts something to a path.
    pub open spec fn posts(self, path: Seq<char>, fields: Seq<(Seq<char>, FieldModel)>) -> RequestModel {
        RequestModel { url: self.base@ + path, token: self.token@, payload: Some(fields) }
    }

    fn get(&self, path: &str) -> (r: Request)
        ensures
            r@ == self.asks(path@),
    {
        let mut url = self.base.clone();
        url.append(path);
        Request { url, token: self.token.clone(), payload: None }
    }

    fn post(&self, path: &str, payload: Payload) -> (r: Request)
        ensures
            r@ == self.posts(path@, payload_model(payload@)),
    {
        let mut url = self.base.clone();
        url.append(path);
        Request { url, token: self.token.clone(), payload: Some(payload) }
    }

    /// Asks who the user is, and which guilds they can upload to.
    pub fn whoami(&self) -> (r: Request)
        ensures
            r@ == self.asks("/api/companion/whoami"@),
    {
        self.get("/api/companion/whoami")
    }

    /// Asks for what the server announces.
    pub fn events(&self) -> (r: Request)
        ensures
            r@ == self.asks("/api/povs/events"@),
    {
        self.get("/api/povs/events")
    }

    /// Asks for the recent pulls of a guild.
    pub fn list_pulls(&self, guild_id: &str) -> (r: Request)
        ensures
            r@ == self.asks("/api/companion/pulls?guildId="@ + url_text(guild_id@)),
    {
        let mut path = "/api/companion/pulls?guildId=".to_owned();
        path.append(url_encode(guild_id).as_str());
        self.get(path.as_str())
    }

    /// Asks which pulls of a guild some recordings belong to.
    pub fn match_videos(&self, guild_id: String, videos: Vec<MatchInput>) -> (r: Request)
        ensures
            r@ == self.posts("/api/povs/match"@, match_fields(guild_id@, input_models(videos@))),
    {
        let payload: Payload = vec![
            ("guildId", Field::Text(guild_id)),
            ("videos", Field::Videos(videos)),
        ];
        assert(payload_model(payload@) =~= match_fields(guild_id@, input_models(videos@)));
        self.post("/api/povs/match", payload)
    }

    /// Says that a raid encounter has ended.
    pub fn post_encounter_signal(&self, signal: EncounterSignal) -> (r: Request)
        ensures
            r@ == self.posts("/api/companion/encounter"@, signal_fields(signal@)),
    {
        let payload: Payload = vec![
            ("guildId", Field::Text(signal.guild_id)),
            ("encounterId", Field::Integer(signal.encounter_id)),
            ("encounterName", Field::Text(signal.encounter_name)),
            ("difficultyId", Field::Integer(signal.difficulty_id)),
            ("success", Field::Flag(signal.success)),
            ("startTime", Field::Integer(signal.start_time)),
            ("endTime", Field::Integer(signal.end_time)),
        ];
        assert(payload_model(payload@) =~= signal_fields(signal@));
        self.post("/api/companion/encounter", payload)
    }

    /// Begins an upload.
    pub fn create_upload(
        &self,
        pull_id: String,
        player_name: String,
        realm: Option<String>,
        size_bytes: u64,
        filename: String,
        storage: Option<String>,
    ) -> (r: Request)
        ensures
            r@ == self.posts(
                "/api/povs/create-upload"@,
                create_fields(
                    pull_id@,
                    player_name@,
                    opt_text(realm),
                    size_bytes,
                    filename@,
                    opt_text(storage),
                ),
            ),
    {
        let payload: Payload = vec![
            ("pullId", Field::Text(pull_id)),
            ("playerName", Field::Text(player_name)),
            ("realm", or_null(realm)),
            ("sizeBytes", Field::Number(size_bytes)),
            ("filename", Field::Text(filename)),
            ("storage", or_null(storage)),
        ];
        assert(payload_model(payload@) =~= create_fields(
            pull_id@,
            player_name@,
            opt_text(realm),
            size_bytes,
            filename@,
            opt_text(storage),
        ));
        self.post("/api/povs/create-upload", payload)
    }

    /// Completes an upload.
    pub fn complete_upload(
        &self,
        pull_id: String,
        player_name: String,
        object_key: String,
        upload_id: String,
        parts: Vec<(u32, String)>,
        size_bytes: u64,
        duration_s: Option<u64>,
        metadata: String,
        storage_config_id: Option<String>,
    ) -> (r: Request)
        ensures
            r@ == self.posts(
                "/api/povs/complete"@,
                complete_fields(
                    pull_id@,
                    player_name@,
                    object_key@,
                    upload_id@,
                    part_models(parts@),
                    size_bytes,
                    duration_s,
                    metadata@,
                    opt_text(storage_config_id),
                ),
            ),
    {
        let duration = match duration_s {
            Some(n) => Field::Number(n),
            None => Field::Null,
        };
        let payload: Payload = vec![
            ("pullId", Field::Text(pull_id)),
            ("playerName", Field::Text(player_name)),
            ("objectKey", Field::Text(object_key)),
            ("uploadId", Field::Text(upload_id)),
            ("parts", Field::Parts(parts)),
            ("sizeBytes", Field::Number(size_bytes)),
            ("durationS", duration),
            ("metadata", Field::Metadata(metadata)),
            ("storageConfigId", or_null(storage_config_id)),
        ];
        assert(payload_model(payload@) =~= complete_fields(
            pull_id@,
            player_name@,
            object_key@,
            upload_id@,
            part_models(parts@),
            size_bytes,
            duration_s,
            metadata@,
            opt_text(storage_config_id),
        ));
        self.post("/api/povs/complete", payload)
    }

    /// Aborts an upload; the parts that are stored are removed.
    pub fn abort_upload(
        &self,
        object_key: String,
        upload_id: String,
        storage_config_id: Option<String>,
    ) -> (r: Request)
        ensures
            r@ == self.posts(
                "/api/povs/abort"@,
                abort_fields(object_key@, upload_id@, opt_text(storage_config_id)),
            ),
    {
        let payload: Payload = vec![
            ("objectKey", Field::Text(object_key)),
            ("uploadId", Field::Text(upload_id)),
            ("storageConfigId", or_null(storage_config_id)),
        ];
        assert(payload_model(payload@) =~= abort_fields(
            object_key@,
            upload_id@,
            opt_text(storage_config_id),
        ));
        self.post("/api/povs/abort", payload)
    }
}

/// Every request goes to the server of the client, in the name of its token.
pub proof fn requests_stay_with_the_server(
    c: ApiClient,
    path: Seq<char>,
    fields: Seq<(Seq<char>, FieldModel)>,
)
    ensures
        starts(c.asks(path).url, c.base@),
        starts(c.posts(path, fields).url, c.base@),
        c.asks(path).token == c.token@,
        c.posts(path, fields).token == c.token@,
{
    assert((c.base@ + path).take(c.base@.len() as int) =~= c.base@);
}

/// What is sent to exchange a code for the token.
pub open spec fn token_fields(code: Seq<char>, verifier: Seq<char>) -> Seq<(Seq<char>, FieldModel)> {
    seq![("code"@, FieldModel::Text(code)), ("verifier"@, FieldModel::Text(verifier))]
}

/// What is sent to exchange a code for the token.
pub fn token_request(code: String, verifier: String) -> (r: Payload)
    ensures
        payload_model(r@) == token_fields(code@, verifier@),
{
    let r: Payload = vec![("code", Field::Text(code)), ("verifier", Field::Text(verifier))];
    assert(payload_model(r@) =~= token_fields(code@, verifier@));
    r
}

/// A reply's status: its number, and the number with what it means.
#[derive(Debug)]
pub struct Status {
    pub code: u16,
    pub text: String,
}

impl Status {
    /// Whether the request succeeded.
    pub open spec fn success(self) -> bool {
        200 <= self.code < 300
    }

    /// Whether the request succeeded.
    pub fn is_success(&self) -> (r: bool)
        ensures
            r == self.success(),
    {
        200 <= self.code && self.code < 300
    }
}

/// Whether the answer to `label` can be read, and what went wrong where it cannot: the
/// status, and what the server had to say.
pub fn read_json(status: &Status, label: &str, body: &str) -> (r: Result<(), String>)
    ensures
        if status.success() {
            r is Ok
        } else {
            r matches Err(e) && e@ == label@ + " failed ("@ + status.text@ + "): "@ + body@
        },
{
    if status.is_success() {
        return Ok(());
    }
    let mut e = label.to_owned();
    e.append(" failed (");
    e.append(status.text.as_str());
    e.append("): ");
    e.append(body);
    Err(e)
}

/// Whether the answer to the question who the user is can be read. A token that is
/// rejected is told apart from every other failure.
pub fn whoami_reply(status: &Status) -> (r: Result<(), String>)
    ensures
        if status.code == 401 {
            r matches Err(e) && e@ == "unauthorized"@
        } else if !status.success() {
            r matches Err(e) && e@ == "whoami failed: "@ + status.text@
        } else {
            r is Ok
        },
{
    if status.code == 401 {
        Err("unauthorized".to_owned())
    } else if !status.is_success() {
        let mut e = "whoami failed: ".to_owned();
        e.append(status.text.as_str());
        Err(e)
    } else {
        Ok(())
    }
}

/// Whether an upload was aborted.
pub fn abort_reply(status: &Status) -> (r: Result<(), String>)
    ensures
        if status.success() {
            r is Ok
        } else {
            r matches Err(e) && e@ == "abort returned "@ + status.text@
        },
{
    if status.is_success() {
        Ok(())
    } else {
        let mut e = "abort returned ".to_owned();
        e.append(status.text.as_str());
        Err(e)
    }
}

/// Whether a code was exchanged for the token.
pub fn token_reply(status: &Status) -> (r: Result<(), String>)
    ensures
        if status.success() {
            r is Ok
        } else {
            r matches Err(e) && e@ == "token exchange failed: "@ + status.text@
        },
{
    if status.is_success() {
        Ok(())
    } else {
        let mut e = "token exchange failed: ".to_owned();
        e.append(status.text.as_str());
        Err(e)
    }
}

/// How the sending of a part was answered.
#[derive(Debug)]
pub enum PartReply {
    /// Not at all; what went wrong.
    Lost(String),
    /// With a status and, where there is one, a tag.
    Answered { status: Status, etag: Option<String> },
}

/// The tag under which a part was stored, or why it was not. No answer, a failure of the
/// storage and a request to slow down may pass; every other refusal is final.
pub fn put_part(reply: PartReply) -> (r: Result<String, PartError>)
    ensures
        match reply {
            PartReply::Lost(msg) => r matches Err(e) && e.retryable && e.msg == msg,
            PartReply::Answered { status, etag } => if !status.success() {
                r matches Err(e) && e.retryable == (500 <= status.code < 600 || status.code == 429)
                    && e.msg@ == "part upload failed: "@ + status.text@
            } else {
                match etag {
                    Some(tag) => r == Ok::<String, PartError>(tag),
                    None => r matches Err(e) && !e.retryable && e.msg@
                        == "part upload response missing ETag"@,
                }
            },
        },
{
    match reply {
        PartReply::Lost(msg) => Err(PartError { retryable: true, msg }),
        PartReply::Answered { status, etag } => {
            if !status.is_success() {
                let mut msg = "part upload failed: ".to_owned();
                msg.append(status.text.as_str());
                let server_error: bool = 500 <= status.code && status.code < 600;
                return Err(PartError { retryable: server_error || status.code == 429, msg });
            }
            match etag {
                Some(tag) => Ok(tag),
                None => Err(
                    PartError {
                        retryable: false,
                        msg: "part upload response missing ETag".to_owned(),
                    },
                ),
            }
        },
    }
}

} // verus!
