//! What the user has set, and the server that a build talks to.
use vstd::prelude::*;
use vstd::string::*;

verus! {

/// What the user has set. The server is not among it: a build is pinned to one.
#[derive(Debug)]
pub struct Settings {
    pub watch_folder: Option<String>,
    /// The guilds to upload to; all of them where this was never chosen.
    pub selected_guild_ids: Option<Vec<String>>,
    /// The folder that holds the combat log.
    pub logs_folder: Option<String>,
    /// Only an explicit `false` turns the watching of the combat log off.
    pub livelog_watching: Option<bool>,
    /// Only an explicit `false` turns automatic uploads off.
    pub auto_upload: Option<bool>,
}

impl Default for Settings {
    fn default() -> (r: Self)
        ensures
            r.watch_folder is None,
            r.selected_guild_ids is None,
            r.logs_folder is None,
            r.livelog_watching is None,
            r.auto_upload is None,
    {
        Settings {
            watch_folder: None,
            selected_guild_ids: None,
            logs_folder: None,
            livelog_watching: None,
            auto_upload: None,
        }
    }
}

impl Settings {
    /// Whether the combat log is to be watched: unless that was turned off.
    pub fn livelog_watching_enabled(&self) -> (r: bool)
        ensures
            r == (self.livelog_watching != Some(false)),
    {
        match self.livelog_watching {
            Some(on) => on,
            None => true,
        }
    }

    /// Sets the folder to watch, and nothing else.
    pub fn set_folder(&mut self, folder: String)
        ensures
            *final(self) == (Settings { watch_folder: Some(folder), ..*old(self) }),
    {
        self.watch_folder = Some(folder);
    }

    /// Sets the guilds to upload to, and nothing else.
    pub fn set_selected_guilds(&mut self, ids: Option<Vec<String>>)
        ensures
            *final(self) == (Settings { selected_guild_ids: ids, ..*old(self) }),
    {
        self.selected_guild_ids = ids;
    }
}

/// The server that development builds talk to.
pub const DEVELOPMENT_URL: &'static str = "http://192.168.0.9:3080";

/// The server that release builds talk to.
pub const PRODUCTION_URL: &'static str = "https://www.raidreview.com";

/// The server that a build talks to.
pub open spec fn pinned_url(development: bool) -> Seq<char> {
    if development {
        DEVELOPMENT_URL@
    } else {
        PRODUCTION_URL@
    }
}

/// The server that a build talks to. Nothing but the kind of the build decides it.
pub fn base_url(development: bool) -> (r: &'static str)
    ensures
        r@ == pinned_url(development),
{
    if development {
        DEVELOPMENT_URL
    } else {
        PRODUCTION_URL
    }
}

} // verus!
