//! The recordings in the watched folder: which of them are finished, and which can be
//! matched.
use vstd::prelude::*;
use vstd::string::*;

use crate::metadata::RecorderMeta;
use crate::text::{opt_text, same_text, texts};
use crate::util::{is_settled, settled_at};

verus! {

/// The pull a recording belongs to, and what the user may do about it.
#[derive(Debug)]
pub struct MatchedInfo {
    pub guild_id: String,
    pub guild_name: String,
    pub pull_id: String,
    pub boss_name: String,
    pub pull_number: i64,
    pub is_kill: bool,
    pub date: String,
    pub start_time: String,
    /// The recording is of one of the signed-in user's own characters.
    pub is_own_pov: bool,
    /// The user may upload it.
    pub can_upload: bool,
    pub existing_video_id: Option<String>,
}

/// What a `MatchedInfo` holds.
#[verifier::ext_equal]
pub struct MatchedModel {
    pub guild_id: Seq<char>,
    pub guild_name: Seq<char>,
    pub pull_id: Seq<char>,
    pub boss_name: Seq<char>,
    pub pull_number: i64,
    pub is_kill: bool,
    pub date: Seq<char>,
    pub start_time: Seq<char>,
    pub is_own_pov: bool,
    pub can_upload: bool,
    pub existing_video_id: Option<Seq<char>>,
}

impl View for MatchedInfo {
    type V = MatchedModel;

    open spec fn view(&self) -> MatchedModel {
        MatchedModel {
            guild_id: self.guild_id@,
            guild_name: self.guild_name@,
            pull_id: self.pull_id@,
            boss_name: self.boss_name@,
            pull_number: self.pull_number,
            is_kill: self.is_kill,
            date: self.date@,
            start_time: self.start_time@,
            is_own_pov: self.is_own_pov,
            can_upload: self.can_upload,
            existing_video_id: opt_text(self.existing_video_id),
        }
    }
}

impl Clone for MatchedInfo {
    fn clone(&self) -> (r: Self)
        ensures
            r == *self,
    {
        MatchedInfo {
            guild_id: self.guild_id.clone(),
            guild_name: self.guild_name.clone(),
            pull_id: self.pull_id.clone(),
            boss_name: self.boss_name.clone(),
            pull_number: self.pull_number,
            is_kill: self.is_kill,
            date: self.date.clone(),
            start_time: self.start_time.clone(),
            is_own_pov: self.is_own_pov,
            can_upload: self.can_upload,
            existing_video_id: self.existing_video_id.clone(),
        }
    }
}

/// What an optional match holds.
pub open spec fn opt_matched(o: Option<MatchedInfo>) -> Option<MatchedModel> {
    match o {
        Some(m) => Some(m@),
        None => None,
    }
}

/// A recording found in the watched folder.
#[derive(Debug)]
pub struct VideoItem {
    pub id: String,
    pub path: String,
    pub filename: String,
    pub size_bytes: u64,
    pub player_name: Option<String>,
    pub player_realm: Option<String>,
    /// pending | matched | uploading | uploaded | skipped | unmatched | error
    pub status: String,
    pub reason: Option<String>,
    pub matched: Option<MatchedInfo>,
    /// Bytes sent so far, while the status is `uploading`.
    pub uploaded_bytes: Option<u64>,
}

/// What a `VideoItem` holds.
#[verifier::ext_equal]
pub struct VideoModel {
    pub id: Seq<char>,
    pub path: Seq<char>,
    pub filename: Seq<char>,
    pub size_bytes: u64,
    pub player_name: Option<Seq<char>>,
    pub player_realm: Option<Seq<char>>,
    pub status: Seq<char>,
    pub reason: Option<Seq<char>>,
    pub matched: Option<MatchedModel>,
    pub uploaded_bytes: Option<u64>,
}

impl View for VideoItem {
    type V = VideoModel;

    open spec fn view(&self) -> VideoModel {
        VideoModel {
            id: self.id@,
            path: self.path@,
            filename: self.filename@,
            size_bytes: self.size_bytes,
            player_name: opt_text(self.player_name),
            player_realm: opt_text(self.player_realm),
            status: self.status@,
            reason: opt_text(self.reason),
            matched: opt_matched(self.matched),
            uploaded_bytes: self.uploaded_bytes,
        }
    }
}

impl Clone for VideoItem {
    fn clone(&self) -> (r: Self)
        ensures
            r == *self,
    {
        VideoItem {
            id: self.id.clone(),
            path: self.path.clone(),
            filename: self.filename.clone(),
            size_bytes: self.size_bytes,
            player_name: self.player_name.clone(),
            player_realm: self.player_realm.clone(),
            status: self.status.clone(),
            reason: self.reason.clone(),
            matched: self.matched.clone(),
            uploaded_bytes: self.uploaded_bytes,
        }
    }
}

/// What a sequence of recordings holds.
pub open spec fn video_models(v: Seq<VideoItem>) -> Seq<VideoModel> {
    v.map_values(|x: VideoItem| x@)
}

/// A recording as it is first seen.
pub open spec fn found(path: Seq<char>, filename: Seq<char>, size: u64) -> VideoModel {
    VideoModel {
        id: path,
        path,
        filename,
        size_bytes: size,
        player_name: None,
        player_realm: None,
        status: "pending"@,
        reason: None,
        matched: None,
        uploaded_bytes: None,
    }
}

/// A recording as it is first seen; its path is its id.
pub fn found_recording(path: &str, filename: &str, size: u64) -> (r: VideoItem)
    ensures
        r@ == found(path@, filename@, size),
{
    VideoItem {
        id: path.to_owned(),
        path: path.to_owned(),
        filename: filename.to_owned(),
        size_bytes: size,
        player_name: None,
        player_realm: None,
        status: "pending".to_owned(),
        reason: None,
        matched: None,
        uploaded_bytes: None,
    }
}

/// `c` in lower case, where it is an ASCII letter.
pub open spec fn ascii_lower(c: char) -> char {
    if 'A' <= c <= 'Z' {
        (c as int + 32) as char
    } else {
        c
    }
}

/// Whether a file extension is that of a video, in either case.
pub open spec fn mp4_extension(ext: Option<Seq<char>>) -> bool {
    match ext {
        Some(e) => e.map_values(|c: char| ascii_lower(c)) == seq!['m', 'p', '4'],
        None => false,
    }
}

/// Whether a file extension is that of a video, in either case.
pub fn is_mp4(ext: Option<&str>) -> (r: bool)
    ensures
        r == mp4_extension(match ext {
            Some(e) => Some(e@),
            None => None,
        }),
{
    match ext {
        Some(e) => {
            let n: usize = e.unicode_len();
            let ghost low = e@.map_values(|c: char| ascii_lower(c));
            assert(low.len() == n && seq!['m', 'p', '4'].len() == 3);
            if n != 3 {
                return false;
            }
            let a: char = e.get_char(0);
            let b: char = e.get_char(1);
            let c: char = e.get_char(2);
            proof {
                if low == seq!['m', 'p', '4'] {
                    assert(low[0] == 'm' && low[1] == 'p' && low[2] == '4');
                }
            }
            if (a == 'm' || a == 'M') && (b == 'p' || b == 'P') && c == '4' {
                assert(low =~= seq!['m', 'p', '4']);
                true
            } else {
                false
            }
        },
        None => false,
    }
}

/// Where a recording stands after a check: on the list as it is, or on to the next step.
#[derive(Debug)]
pub enum Stage {
    Listed(VideoItem),
    Ready(VideoItem),
}

/// What a `Stage` holds.
pub enum StageModel {
    Listed(VideoModel),
    Ready(VideoModel),
}

impl View for Stage {
    type V = StageModel;

    open spec fn view(&self) -> StageModel {
        match self {
            Stage::Listed(v) => StageModel::Listed(v@),
            Stage::Ready(v) => StageModel::Ready(v@),
        }
    }
}

/// A recording is finished once its sidecar is there and the file has settled.
pub open spec fn finish_stage(item: VideoModel, has_sidecar: bool, now: int, mtime: int) -> StageModel {
    if !has_sidecar {
        StageModel::Listed(
            VideoModel { reason: Some("Waiting for the recording to finish…"@), ..item },
        )
    } else if !settled_at(now, mtime) {
        StageModel::Listed(VideoModel { reason: Some("Finishing up…"@), ..item })
    } else {
        StageModel::Ready(item)
    }
}

/// Whether the recorder is done with a file.
pub fn await_finish(item: VideoItem, has_sidecar: bool, now_ms: u128, mtime_ms: u128) -> (r: Stage)
    ensures
        r@ == finish_stage(item@, has_sidecar, now_ms as int, mtime_ms as int),
{
    let mut item = item;
    if !has_sidecar {
        item.reason = Some("Waiting for the recording to finish…".to_owned());
        Stage::Listed(item)
    } else if !is_settled(now_ms, mtime_ms) {
        item.reason = Some("Finishing up…".to_owned());
        Stage::Listed(item)
    } else {
        Stage::Ready(item)
    }
}

/// What a finished recording becomes: an unreadable sidecar is an error, a clip is
/// skipped, and the rest are candidates for a match.
pub open spec fn intake_stage(item: VideoModel, sidecar: Result<RecorderMeta, String>) -> StageModel {
    match sidecar {
        Err(e) => StageModel::Listed(
            VideoModel { status: "error"@, reason: Some("Couldn't read metadata: "@ + e@), ..item },
        ),
        Ok(meta) => {
            let named = VideoModel {
                player_name: meta.name(),
                player_realm: meta.realm(),
                ..item
            };
            if meta.clip() {
                StageModel::Listed(
                    VideoModel {
                        status: "skipped"@,
                        reason: Some("Clip, not a full pull"@),
                        ..named
                    },
                )
            } else {
                StageModel::Ready(VideoModel { status: "unmatched"@, ..named })
            }
        },
    }
}

/// What a finished recording becomes, given what its sidecar says.
pub fn take_in(item: VideoItem, sidecar: Result<RecorderMeta, String>) -> (r: Stage)
    ensures
        r@ == intake_stage(item@, sidecar),
{
    let mut item = item;
    match sidecar {
        Err(e) => {
            let mut text = String::new();
            text.append("Couldn't read metadata: ");
            text.append(e.as_str());
            assert(text@ =~= "Couldn't read metadata: "@ + e@);
            item.status = "error".to_owned();
            item.reason = Some(text);
            Stage::Listed(item)
        },
        Ok(meta) => {
            item.player_name = meta.player_name();
            item.player_realm = meta.player_realm();
            if meta.is_clip() {
                item.status = "skipped".to_owned();
                item.reason = Some("Clip, not a full pull".to_owned());
                Stage::Listed(item)
            } else {
                item.status = "unmatched".to_owned();
                Stage::Ready(item)
            }
        },
    }
}

/// The last recording of a list that is uploaded and stands at `path`.
pub open spec fn last_uploaded(prev: Seq<VideoModel>, path: Seq<char>) -> Option<VideoModel>
    decreases prev.len(),
{
    if prev.len() == 0 {
        None
    } else if prev.last().status == "uploaded"@ && prev.last().path == path {
        Some(prev.last())
    } else {
        last_uploaded(prev.drop_last(), path)
    }
}

/// What an optional recording holds.
pub open spec fn opt_video(o: Option<VideoItem>) -> Option<VideoModel> {
    match o {
        Some(v) => Some(v@),
        None => None,
    }
}

/// The entry to take over unread for the file at `path`: the one already uploaded,
/// unless this scan is to verify the uploads.
pub fn cached_upload(prev: &Vec<VideoItem>, path: &str, verify: bool) -> (r: Option<VideoItem>)
    ensures
        opt_video(r) == (if verify {
            None
        } else {
            last_uploaded(video_models(prev@), path@)
        }),
{
    if verify {
        return None;
    }
    let ghost all = video_models(prev@);
    let mut i: usize = prev.len();
    assert(all.take(i as int) =~= all);
    while i > 0
        invariant
            !verify,
            i <= prev@.len(),
            all == video_models(prev@),
            last_uploaded(all, path@) == last_uploaded(all.take(i as int), path@),
        decreases i,
    {
        proof {
            assert(all.take(i as int).last() == prev@[i - 1]@);
            assert(all.take(i as int).drop_last() =~= all.take(i - 1));
        }
        i = i - 1;
        if same_text(prev[i].status.as_str(), "uploaded") && same_text(
            prev[i].path.as_str(),
            path,
        ) {
            return Some(prev[i].clone());
        }
    }
    None
}

/// How many folders deep recordings are looked for.
pub const MAX_DEPTH: usize = 8;

/// What is known of a file in the watched folder before anything of it is read.
#[derive(Debug)]
pub struct FileEntry {
    pub path: String,
    pub filename: String,
    pub is_file: bool,
    pub extension: Option<String>,
    pub size: u64,
    /// When it last changed, in milliseconds since 1970.
    pub mtime_ms: u128,
    pub has_sidecar: bool,
}

/// What is to be done about a file in the watched folder.
#[derive(Debug)]
pub enum FirstLook {
    /// It is no recording.
    Ignore,
    /// It is listed as it is.
    List(VideoItem),
    /// Its sidecar is to be read.
    Read(VideoItem),
}

/// What a `FirstLook` holds.
pub enum LookModel {
    Ignore,
    List(VideoModel),
    Read(VideoModel),
}

impl View for FirstLook {
    type V = LookModel;

    open spec fn view(&self) -> LookModel {
        match self {
            FirstLook::Ignore => LookModel::Ignore,
            FirstLook::List(v) => LookModel::List(v@),
            FirstLook::Read(v) => LookModel::Read(v@),
        }
    }
}

/// What is to be done about a file. One that is known to be uploaded is taken over unread,
/// unless the scan is to verify the uploads.
pub open spec fn first_look_at(f: FileEntry, prev: Seq<VideoModel>, verify: bool, now: int) -> LookModel {
    if !f.is_file || !mp4_extension(opt_text(f.extension)) {
        LookModel::Ignore
    } else if !verify && last_uploaded(prev, f.path@) is Some {
        LookModel::List(last_uploaded(prev, f.path@)->0)
    } else {
        match finish_stage(
            found(f.path@, f.filename@, f.size),
            f.has_sidecar,
            now,
            f.mtime_ms as int,
        ) {
            StageModel::Listed(v) => LookModel::List(v),
            StageModel::Ready(v) => LookModel::Read(v),
        }
    }
}

/// What is to be done about a file in the watched folder, where the list was `prev` after
/// the last scan.
pub fn first_look(f: &FileEntry, prev: &Vec<VideoItem>, verify: bool, now_ms: u128) -> (r: FirstLook)
    ensures
        r@ == first_look_at(*f, video_models(prev@), verify, now_ms as int),
{
    if !f.is_file {
        return FirstLook::Ignore;
    }
    let ext = match &f.extension {
        Some(e) => Some(e.as_str()),
        None => None,
    };
    if !is_mp4(ext) {
        return FirstLook::Ignore;
    }
    match cached_upload(prev, f.path.as_str(), verify) {
        Some(item) => FirstLook::List(item),
        None => match await_finish(
            found_recording(f.path.as_str(), f.filename.as_str(), f.size),
            f.has_sidecar,
            now_ms,
            f.mtime_ms,
        ) {
            Stage::Listed(item) => FirstLook::List(item),
            Stage::Ready(item) => FirstLook::Read(item),
        },
    }
}

/// The sidecar of a recording, as it was read.
#[derive(Debug)]
pub struct Sidecar {
    pub meta: RecorderMeta,
    /// Its text, which the server is sent.
    pub text: String,
}

/// What became of reading the record in a sidecar.
pub open spec fn meta_of(sidecar: Result<Sidecar, String>) -> Result<RecorderMeta, String> {
    match sidecar {
        Ok(s) => Ok(s.meta),
        Err(e) => Err(e),
    }
}

/// What a scan has found: recordings that are listed as they are, and those to be matched.
#[derive(Debug)]
pub struct Findings {
    pub listed: Vec<VideoItem>,
    pub candidates: Vec<VideoItem>,
    /// The text of the sidecar of each candidate.
    pub sidecars: Vec<String>,
}

/// What `Findings` hold.
#[verifier::ext_equal]
pub struct FindingsModel {
    pub listed: Seq<VideoModel>,
    pub candidates: Seq<VideoModel>,
    pub sidecars: Seq<Seq<char>>,
}

impl View for Findings {
    type V = FindingsModel;

    open spec fn view(&self) -> FindingsModel {
        FindingsModel {
            listed: video_models(self.listed@),
            candidates: video_models(self.candidates@),
            sidecars: texts(self.sidecars@),
        }
    }
}

impl FindingsModel {
    /// The findings with one more file.
    pub open spec fn with_file(
        self,
        look: LookModel,
        sidecar: Result<Sidecar, String>,
    ) -> FindingsModel {
        match look {
            LookModel::Ignore => self,
            LookModel::List(v) => FindingsModel { listed: self.listed.push(v), ..self },
            LookModel::Read(v) => match intake_stage(v, meta_of(sidecar)) {
                StageModel::Listed(w) => FindingsModel { listed: self.listed.push(w), ..self },
                StageModel::Ready(w) => FindingsModel {
                    candidates: self.candidates.push(w),
                    sidecars: self.sidecars.push(sidecar->Ok_0.text@),
                    ..self
                },
            },
        }
    }
}

impl Findings {
    /// Nothing has been found.
    pub fn new() -> (r: Self)
        ensures
            r@.listed.len() == 0,
            r@.candidates.len() == 0,
            r@.sidecars.len() == 0,
    {
        Findings { listed: Vec::new(), candidates: Vec::new(), sidecars: Vec::new() }
    }

    /// Lists a recording as it is.
    pub fn list(&mut self, item: VideoItem)
        ensures
            final(self)@ == (FindingsModel {
                listed: old(self)@.listed.push(item@),
                ..old(self)@
            }),
    {
        self.listed.push(item);
        assert(self@.listed =~= old(self)@.listed.push(item@));
        assert(self@.candidates =~= old(self)@.candidates);
    }

    /// Takes in a recording whose sidecar was read. Whether it is to be matched.
    pub fn read(&mut self, item: VideoItem, sidecar: Result<Sidecar, String>) -> (r: bool)
        ensures
            final(self)@ == old(self)@.with_file(LookModel::Read(item@), sidecar),
            r == (intake_stage(item@, meta_of(sidecar)) is Ready),
    {
        let (meta, text) = match sidecar {
            Ok(s) => (Ok(s.meta), s.text),
            Err(e) => (Err(e), String::new()),
        };
        match take_in(item, meta) {
            Stage::Listed(v) => {
                self.list(v);
                false
            },
            Stage::Ready(v) => {
                self.candidates.push(v);
                self.sidecars.push(text);
                assert(self@.candidates =~= old(self)@.candidates.push(v@));
                assert(self@.sidecars =~= old(self)@.sidecars.push(text@));
                assert(self@.listed =~= old(self)@.listed);
                true
            },
        }
    }
}

/// Every file that is a recording appears once, on the list or among the candidates, and
/// nothing found before is lost.
pub proof fn every_recording_appears_once(
    s: FindingsModel,
    f: FileEntry,
    prev: Seq<VideoModel>,
    verify: bool,
    now: int,
    sidecar: Result<Sidecar, String>,
)
    ensures
        ({
            let t = s.with_file(first_look_at(f, prev, verify, now), sidecar);
            &&& t.listed.len() + t.candidates.len() == s.listed.len() + s.candidates.len() + (
            if f.is_file && mp4_extension(opt_text(f.extension)) {
                1nat
            } else {
                0
            })
            &&& t.listed.take(s.listed.len() as int) == s.listed
            &&& t.candidates.take(s.candidates.len() as int) == s.candidates
            &&& t.sidecars.take(s.sidecars.len() as int) == s.sidecars
        }),
{
    let t = s.with_file(first_look_at(f, prev, verify, now), sidecar);
    assert(t.listed.take(s.listed.len() as int) =~= s.listed);
    assert(t.candidates.take(s.candidates.len() as int) =~= s.candidates);
    assert(t.sidecars.take(s.sidecars.len() as int) =~= s.sidecars);
}

/// Each candidate stands beside the text of its own sidecar: a file that is to be matched
/// is put behind the others together with what was read of it, and no other file changes
/// the two.
pub proof fn candidates_keep_their_sidecars(
    s: FindingsModel,
    look: LookModel,
    sidecar: Result<Sidecar, String>,
)
    requires
        s.candidates.len() == s.sidecars.len(),
    ensures
        ({
            let t = s.with_file(look, sidecar);
            &&& t.candidates.len() == t.sidecars.len()
            &&& t.candidates.len() > s.candidates.len() ==> {
                &&& look matches LookModel::Read(v) && t.candidates.last().id == v.id
                &&& sidecar matches Ok(read) && t.sidecars.last() == read.text@
            }
            &&& t.candidates.len() == s.candidates.len() ==> t.candidates == s.candidates
                && t.sidecars == s.sidecars
        }),
{
}

proof fn lemma_last_uploaded(prev: Seq<VideoModel>, path: Seq<char>)
    ensures
        last_uploaded(prev, path) matches Some(v) ==> v.status == "uploaded"@ && v.path == path,
    decreases prev.len(),
{
    if prev.len() > 0 {
        lemma_last_uploaded(prev.drop_last(), path);
    }
}

/// A recording that is known to be uploaded is read again only to verify it; whatever else
/// is read is finished.
pub proof fn only_finished_files_are_read(f: FileEntry, prev: Seq<VideoModel>, verify: bool, now: int)
    ensures
        first_look_at(f, prev, verify, now) matches LookModel::Read(v) ==> {
            &&& f.has_sidecar
            &&& settled_at(now, f.mtime_ms as int)
            &&& verify || last_uploaded(prev, f.path@) is None
            &&& v == found(f.path@, f.filename@, f.size)
        },
        first_look_at(f, prev, verify, now) matches LookModel::List(v) ==> v.path == f.path@,
{
    lemma_last_uploaded(prev, f.path@);
}

} // verus!
