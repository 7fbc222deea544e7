//! Who is signed in, what a command needs before it can run, what the keychain says, and
//! when the program may replace itself.
use vstd::prelude::*;
use vstd::string::*;

use crate::api::WhoAmI;
use crate::applog::{Note, info, warn};
use crate::text::{opt_text, same_text};

verus! {

/// Who is signed in, given what the server says of the token, if there is one. A token
/// that is rejected means nobody; any other failure is passed on, so that a session
/// outlasts it.
pub fn current_session(reply: Option<Result<WhoAmI, String>>) -> (r: Result<Option<WhoAmI>, String>)
    ensures
        match reply {
            None => r == Ok::<Option<WhoAmI>, String>(None),
            Some(Ok(who)) => r == Ok::<Option<WhoAmI>, String>(Some(who)),
            Some(Err(e)) => if e@ == "unauthorized"@ {
                r == Ok::<Option<WhoAmI>, String>(None)
            } else {
                r == Err::<Option<WhoAmI>, String>(e)
            },
        },
{
    match reply {
        None => Ok(None),
        Some(Ok(who)) => Ok(Some(who)),
        Some(Err(e)) => {
            if same_text(e.as_str(), "unauthorized") {
                Ok(None)
            } else {
                Err(e)
            }
        },
    }
}

/// The folder to watch, without which there is nothing to scan.
pub fn need_folder(folder: Option<String>) -> (r: Result<String, String>)
    ensures
        match folder {
            Some(f) => r == Ok::<String, String>(f),
            None => r matches Err(e) && e@ == "No folder selected"@,
        },
{
    match folder {
        Some(f) => Ok(f),
        None => Err("No folder selected".to_owned()),
    }
}

/// The token, without which the server is not asked.
pub fn need_token(token: Option<String>) -> (r: Result<String, String>)
    ensures
        match token {
            Some(t) => r == Ok::<String, String>(t),
            None => r matches Err(e) && e@ == "Not signed in"@,
        },
{
    match token {
        Some(t) => Ok(t),
        None => Err("Not signed in".to_owned()),
    }
}

/// What the keychain says when it is asked for the token.
#[derive(Debug)]
pub enum KeychainReply {
    Token(String),
    /// It holds none.
    NoEntry,
    /// It cannot be used.
    Unavailable(String),
    /// It can be used, but the token cannot be read.
    Failed(String),
}

/// The token, and what to print where the keychain failed. A keychain that holds none and
/// one that fails both mean that nobody is signed in, but only the former is silent.
pub fn get_token(reply: KeychainReply) -> (r: (Option<String>, Option<String>))
    ensures
        match reply {
            KeychainReply::Token(t) => r == (Some(t), None::<String>),
            KeychainReply::NoEntry => r.0 is None && r.1 is None,
            KeychainReply::Unavailable(e) => r.0 is None && opt_text(r.1) == Some(
                "keychain unavailable: "@ + e@,
            ),
            KeychainReply::Failed(e) => r.0 is None && opt_text(r.1) == Some(
                "keychain read failed: "@ + e@,
            ),
        },
{
    match reply {
        KeychainReply::Token(t) => (Some(t), None),
        KeychainReply::NoEntry => (None, None),
        KeychainReply::Unavailable(e) => {
            let mut text = "keychain unavailable: ".to_owned();
            text.append(e.as_str());
            (None, Some(text))
        },
        KeychainReply::Failed(e) => {
            let mut text = "keychain read failed: ".to_owned();
            text.append(e.as_str());
            (None, Some(text))
        },
    }
}

/// What the keychain says when it is asked to forget the token.
#[derive(Debug)]
pub enum Forgotten {
    Done,
    /// It held none.
    NoEntry,
    Failed(String),
}

/// Whether the token is gone: also where there was none.
pub fn clear_token(reply: Forgotten) -> (r: Result<(), String>)
    ensures
        match reply {
            Forgotten::Done => r is Ok,
            Forgotten::NoEntry => r is Ok,
            Forgotten::Failed(e) => r == Err::<(), String>(e),
        },
{
    match reply {
        Forgotten::Done => Ok(()),
        Forgotten::NoEntry => Ok(()),
        Forgotten::Failed(e) => Err(e),
    }
}

/// What is done about an update that was found.
#[derive(Debug, Clone, Copy, PartialEq, Eq, Structural)]
pub enum UpdateStep {
    /// Install it and restart.
    Install,
    /// Tell the window that there is one.
    Announce,
}

/// What is done about an update that was found: it is installed at launch, and never
/// while an upload is in flight.
pub fn check_for_update(auto_install: bool, uploading: bool) -> (r: UpdateStep)
    ensures
        r == UpdateStep::Install <==> auto_install && !uploading,
{
    if auto_install && !uploading {
        UpdateStep::Install
    } else {
        UpdateStep::Announce
    }
}

/// Whether the user's wish to update is followed up: not in a development build, and not
/// while an upload is in flight.
pub fn may_install(development: bool, uploading: bool) -> (r: Result<(), String>)
    ensures
        if development {
            r matches Err(e) && e@ == "Updates are only available in release builds."@
        } else if uploading {
            r matches Err(e) && e@ == "An upload is in progress — try again once it finishes."@
        } else {
            r is Ok
        },
{
    if development {
        Err("Updates are only available in release builds.".to_owned())
    } else if uploading {
        Err("An upload is in progress — try again once it finishes.".to_owned())
    } else {
        Ok(())
    }
}

/// The note that an update is being installed.
pub fn updating_note(version: &str) -> (r: Note)
    ensures
        r@ == info("Updating to v"@ + version@ + "…"@),
{
    let mut message = "Updating to v".to_owned();
    message.append(version);
    message.append("…");
    Note { level: "info", message }
}

/// What has come of looking for an update.
#[derive(Debug)]
pub enum Looked {
    NotYet,
    Failed(String),
    Nothing,
    /// There is this version.
    Found(String),
}

/// What is done next about the user's wish to update.
#[derive(Debug)]
pub enum InstallStep {
    /// Look for an update.
    Look,
    /// Note this, install the version that was found and restart.
    Install(Note),
}

/// What is done next about the user's wish to update. Where it is refused, nothing is
/// looked for or installed; else the version that is found, if any, is installed.
pub fn install_update(
    development: bool,
    uploading: bool,
    looked: Looked,
) -> (r: Result<InstallStep, String>)
    ensures
        if development {
            r matches Err(e) && e@ == "Updates are only available in release builds."@
        } else if uploading {
            r matches Err(e) && e@ == "An upload is in progress — try again once it finishes."@
        } else {
            match looked {
                Looked::NotYet => r matches Ok(InstallStep::Look),
                Looked::Failed(why) => r matches Err(e) && e@ == why@,
                Looked::Nothing => r matches Err(e) && e@ == "No update available."@,
                Looked::Found(v) => r matches Ok(InstallStep::Install(n)) && n@ == info(
                    "Updating to v"@ + v@ + "…"@,
                ),
            }
        },
{
    match may_install(development, uploading) {
        Err(e) => Err(e),
        Ok(_) => match looked {
            Looked::NotYet => Ok(InstallStep::Look),
            Looked::Failed(e) => Err(e),
            Looked::Nothing => Err("No update available.".to_owned()),
            Looked::Found(v) => Ok(InstallStep::Install(updating_note(v.as_str()))),
        },
    }
}

/// The note that the check for an update failed.
pub fn update_failed_note(e: &str) -> (r: Note)
    ensures
        r@ == warn("Update check failed: "@ + e@),
{
    let mut message = "Update check failed: ".to_owned();
    message.append(e);
    Note { level: "warn", message }
}

/// What has happened in the watched folder.
#[derive(Debug, Clone, Copy, PartialEq, Eq, Structural)]
pub enum FolderEvent {
    Created,
    Modified,
    Removed,
    Accessed,
    Unknown,
}

/// Whether the window is told of an event in the watched folder: where something was
/// created, changed or removed.
pub fn is_change(e: FolderEvent) -> (r: bool)
    ensures
        r == (e == FolderEvent::Created || e == FolderEvent::Modified || e == FolderEvent::Removed),
{
    match e {
        FolderEvent::Created => true,
        FolderEvent::Modified => true,
        FolderEvent::Removed => true,
        FolderEvent::Accessed => false,
        FolderEvent::Unknown => false,
    }
}

/// The note that the folder is not being watched as it should.
pub fn watch_failed_note(e: &str) -> (r: Note)
    ensures
        r@ == warn("[Video] Folder watch error: "@ + e@),
{
    let mut message = "[Video] Folder watch error: ".to_owned();
    message.append(e);
    Note { level: "warn", message }
}

} // verus!
