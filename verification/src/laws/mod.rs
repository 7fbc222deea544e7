//! What the library promises of each of its operations, said of what goes into a call and of
//! what comes out of it.
use vstd::prelude::*;
use vstd::string::*;

use crate::scan::{MatchedInfo, VideoItem, video_models};
use crate::text::texts;

pub mod encounters;
pub mod follow;
pub mod housekeeping;
pub mod listing;
pub mod matches;
pub mod queue;
pub mod requests;
pub mod rescan;
pub mod signin;
pub mod stream;
pub mod texts;
pub mod transfers;

verus! {

/// Whether two optional texts are the same.
pub open spec fn same_opt(a: Option<String>, b: Option<String>) -> bool {
    match (a, b) {
        (Some(s), Some(t)) => s@ == t@,
        (None, None) => true,
        _ => false,
    }
}

/// Whether an optional text is there and reads `s`.
pub open spec fn reads(o: Option<String>, s: Seq<char>) -> bool {
    match o {
        Some(t) => t@ == s,
        None => false,
    }
}

/// Whether two matches name the same pull of the same guild.
pub open spec fn same_pull(a: MatchedInfo, b: MatchedInfo) -> bool {
    &&& a.guild_id@ == b.guild_id@
    &&& a.guild_name@ == b.guild_name@
    &&& a.pull_id@ == b.pull_id@
    &&& a.boss_name@ == b.boss_name@
    &&& a.pull_number == b.pull_number
    &&& a.is_kill == b.is_kill
    &&& a.date@ == b.date@
    &&& a.start_time@ == b.start_time@
    &&& a.is_own_pov == b.is_own_pov
    &&& a.can_upload == b.can_upload
}

/// Whether two recordings are matched alike.
pub open spec fn same_match(a: Option<MatchedInfo>, b: Option<MatchedInfo>) -> bool {
    match (a, b) {
        (Some(m), Some(n)) => same_pull(m, n) && same_opt(m.existing_video_id, n.existing_video_id),
        (None, None) => true,
        _ => false,
    }
}

/// Whether two entries are of the same file.
pub open spec fn same_file(a: VideoItem, b: VideoItem) -> bool {
    &&& a.id@ == b.id@
    &&& a.path@ == b.path@
    &&& a.filename@ == b.filename@
    &&& a.size_bytes == b.size_bytes
    &&& same_opt(a.player_name, b.player_name)
    &&& same_opt(a.player_realm, b.player_realm)
}

/// Whether two entries say the same.
pub open spec fn same_video(a: VideoItem, b: VideoItem) -> bool {
    &&& same_file(a, b)
    &&& a.status@ == b.status@
    &&& same_opt(a.reason, b.reason)
    &&& same_match(a.matched, b.matched)
    &&& a.uploaded_bytes == b.uploaded_bytes
}

/// Whether two lists say the same.
pub open spec fn same_list(a: Seq<VideoItem>, b: Seq<VideoItem>) -> bool {
    &&& a.len() == b.len()
    &&& forall|i: int| 0 <= i < a.len() ==> same_video(#[trigger] a[i], b[i])
}

/// Whether `i` is the first place of a list at which there is the recording `id`.
pub open spec fn first_with(videos: Seq<VideoItem>, id: Seq<char>, i: int) -> bool {
    &&& 0 <= i < videos.len()
    &&& videos[i].id@ == id
    &&& forall|j: int| 0 <= j < i ==> (#[trigger] videos[j]).id@ != id
}

/// Whether a list has no recording `id`.
pub open spec fn none_with(videos: Seq<VideoItem>, id: Seq<char>) -> bool {
    forall|j: int| 0 <= j < videos.len() ==> (#[trigger] videos[j]).id@ != id
}

/// Whether two lists say the same but at place `i`.
pub open spec fn same_but(a: Seq<VideoItem>, b: Seq<VideoItem>, i: int) -> bool {
    &&& a.len() == b.len()
    &&& forall|j: int| 0 <= j < a.len() && j != i ==> same_video(#[trigger] a[j], b[j])
}

/// Whether a recording is matched to a pull that does not have it yet.
pub open spec fn wants_upload(v: VideoItem) -> bool {
    v.matched is Some && v.matched->0.existing_video_id is None
}

pub(crate) proof fn lemma_texts(s: Seq<String>)
    ensures
        texts(s).len() == s.len(),
        forall|i: int| 0 <= i < s.len() ==> (#[trigger] s[i])@ == texts(s)[i],
        forall|i: int| 0 <= i < s.len() ==> #[trigger] texts(s)[i] == s[i]@,
{
}

pub(crate) proof fn lemma_videos(s: Seq<VideoItem>)
    ensures
        video_models(s).len() == s.len(),
        forall|i: int| 0 <= i < s.len() ==> (#[trigger] s[i])@ == video_models(s)[i],
        forall|i: int| 0 <= i < s.len() ==> #[trigger] video_models(s)[i] == s[i]@,
{
}

/// Two entries with one view say the same.
pub(crate) proof fn lemma_same(a: VideoItem, b: VideoItem)
    requires
        a@ == b@,
    ensures
        same_video(a, b),
{
}

} // verus!
