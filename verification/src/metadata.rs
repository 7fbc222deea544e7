//! What a recorder writes beside a video: the WarcraftRecorder and the Archon
//! form of it, read into one record.
use vstd::prelude::*;
use vstd::string::*;

use crate::text::{opt_text, same_text};

verus! {

/// The character a WarcraftRecorder video was recorded on.
#[derive(Debug)]
pub struct Player {
    pub name: Option<String>,
    pub realm: Option<String>,
}

/// One entry of Archon's list of players.
#[derive(Debug)]
pub struct ArchonPlayer {
    pub actor_id: Option<i64>,
    pub name: Option<String>,
    pub server_name: Option<String>,
}

/// A record that holds a name alone: Archon's content type.
#[derive(Debug)]
pub struct NamedRef {
    pub name: Option<String>,
}

/// What the two recorders say about a video, as far as it is used here.
/// WarcraftRecorder fills `category`, `clipped` and `player`; Archon fills
/// `actor_id`, `players` and `content_type`.
#[derive(Debug)]
pub struct RecorderMeta {
    pub category: Option<String>,
    /// Whether the video carries a clipping time.
    pub clipped: bool,
    pub player: Option<Player>,
    pub actor_id: Option<i64>,
    pub players: Option<Vec<ArchonPlayer>>,
    pub content_type: Option<NamedRef>,
}

/// The first of `players` with the given actor id.
pub open spec fn player_with(players: Seq<ArchonPlayer>, id: i64) -> Option<ArchonPlayer>
    decreases players.len(),
{
    if players.len() == 0 {
        None
    } else if players[0].actor_id == Some(id) {
        Some(players[0])
    } else {
        player_with(players.skip(1), id)
    }
}

impl RecorderMeta {
    /// The entry of `players` that the recording belongs to.
    pub open spec fn owner(self) -> Option<ArchonPlayer> {
        match (self.actor_id, self.players) {
            (Some(id), Some(players)) => player_with(players@, id),
            _ => None,
        }
    }

    /// The kind of content: WarcraftRecorder's category, else Archon's content type.
    pub open spec fn content(self) -> Option<Seq<char>> {
        match (self.category, self.content_type) {
            (Some(c), _) => Some(c@),
            (None, Some(t)) => opt_text(t.name),
            (None, None) => None,
        }
    }

    /// Whether the video is a clip, or of something other than a raid.
    pub open spec fn clip(self) -> bool {
        self.clipped || match self.content() {
            Some(c) => c != "Raids"@,
            None => false,
        }
    }

    /// The recorded character's name.
    pub open spec fn name(self) -> Option<Seq<char>> {
        match self.player {
            Some(Player { name: Some(n), .. }) => Some(n@),
            _ => match self.owner() {
                Some(p) => opt_text(p.name),
                None => None,
            },
        }
    }

    /// The recorded character's realm.
    pub open spec fn realm(self) -> Option<Seq<char>> {
        match self.player {
            Some(Player { realm: Some(n), .. }) => Some(n@),
            _ => match self.owner() {
                Some(p) => opt_text(p.server_name),
                None => None,
            },
        }
    }

    /// The entry of Archon's list whose actor id is the recording's own.
    pub fn archon_owner(&self) -> (r: Option<&ArchonPlayer>)
        ensures
            match r {
                Some(p) => self.owner() == Some(*p),
                None => self.owner() is None,
            },
    {
        let id: i64 = match self.actor_id {
            Some(id) => id,
            None => return None,
        };
        let players = match &self.players {
            Some(p) => p,
            None => return None,
        };
        let n: usize = players.len();
        let mut i: usize = 0;
        assert(players@.skip(0) =~= players@);
        while i < n
            invariant
                n == players@.len(),
                i <= n,
                self.owner() == player_with(players@.skip(i as int), id),
            decreases n - i,
        {
            assert(players@.skip(i as int)[0] == players@[i as int]);
            assert(players@.skip(i as int).skip(1) =~= players@.skip(i + 1));
            match players[i].actor_id {
                Some(a) => if a == id {
                    return Some(&players[i]);
                },
                None => {},
            }
            i = i + 1;
        }
        None
    }

    /// Whether the video is a clip, or of something other than a raid: neither can
    /// belong to a pull.
    pub fn is_clip(&self) -> (r: bool)
        ensures
            r == self.clip(),
    {
        if self.clipped {
            return true;
        }
        match &self.category {
            Some(c) => !same_text(c.as_str(), "Raids"),
            None => match &self.content_type {
                Some(t) => match &t.name {
                    Some(c) => !same_text(c.as_str(), "Raids"),
                    None => false,
                },
                None => false,
            },
        }
    }

    /// The recorded character's name.
    pub fn player_name(&self) -> (r: Option<String>)
        ensures
            opt_text(r) == self.name(),
    {
        match &self.player {
            Some(p) => match &p.name {
                Some(n) => return Some(n.clone()),
                None => {},
            },
            None => {},
        }
        match self.archon_owner() {
            Some(p) => p.name.clone(),
            None => None,
        }
    }

    /// The recorded character's realm.
    pub fn player_realm(&self) -> (r: Option<String>)
        ensures
            opt_text(r) == self.realm(),
    {
        match &self.player {
            Some(p) => match &p.realm {
                Some(n) => return Some(n.clone()),
                None => {},
            },
            None => {},
        }
        match self.archon_owner() {
            Some(p) => p.server_name.clone(),
            None => None,
        }
    }
}

/// Which of the two places a sidecar may stand in holds one: a file with the
/// video's own stem comes first, `metadata.json` in the video's folder second.
/// Each place is given with whether a file stands there; a video without a folder
/// has no second place.
pub fn sidecar_for(
    same_stem: String,
    same_stem_is_file: bool,
    metadata_json: Option<String>,
    metadata_is_file: bool,
) -> (r: Option<String>)
    ensures
        r == (if same_stem_is_file {
            Some(same_stem)
        } else if metadata_is_file {
            metadata_json
        } else {
            None
        }),
{
    if same_stem_is_file {
        Some(same_stem)
    } else if metadata_is_file {
        metadata_json
    } else {
        None
    }
}

/// The owner, where there is one, is an entry of the list and bears the recording's
/// own actor id.
pub proof fn owner_is_listed(meta: RecorderMeta)
    ensures
        match meta.owner() {
            Some(p) => meta.players is Some && meta.players->0@.contains(p) && p.actor_id
                == meta.actor_id,
            None => true,
        },
{
    if meta.actor_id is Some && meta.players is Some {
        lemma_player_with(meta.players->0@, meta.actor_id->0);
    }
}

proof fn lemma_player_with(players: Seq<ArchonPlayer>, id: i64)
    ensures
        match player_with(players, id) {
            Some(p) => players.contains(p) && p.actor_id == Some(id),
            None => forall|i: int| 0 <= i < players.len() ==> (#[trigger] players[i]).actor_id != Some(
                id,
            ),
        },
    decreases players.len(),
{
    if players.len() > 0 && players[0].actor_id != Some(id) {
        let rest = players.skip(1);
        lemma_player_with(rest, id);
        if player_with(rest, id) is Some {
            let j = choose|j: int| 0 <= j < rest.len() && rest[j] == player_with(rest, id)->0;
            assert(players[j + 1] == rest[j]);
        } else {
            assert forall|i: int| 0 <= i < players.len() implies (#[trigger] players[i]).actor_id
                != Some(id) by {
                if i > 0 {
                    assert(rest[i - 1] == players[i]);
                }
            }
        }
    }
}

} // verus!
