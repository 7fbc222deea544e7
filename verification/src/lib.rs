//! The decision core of a raid-recording companion: what to do with a recording
//! found on disk, which raid pull it belongs to, how its multipart upload
//! proceeds, what a combat-log line means, and how a browser sign-in is framed.
//!
//! Everything here works on plain values. Disk, network, keychain and window
//! handling belong to the program around this library.
pub mod api;
pub mod applog;
pub mod auth;
pub mod clock;
pub mod combatlog;
pub mod detect;
pub mod encoding;
pub mod events;
pub mod laws;
pub mod lifecycle;
pub mod matching;
pub mod merge;
pub mod metadata;
pub mod number;
pub mod order;
pub mod part;
pub mod scan;
pub mod session;
pub mod settings;
pub mod tailer;
pub mod text;
pub mod transfer;
pub mod upload;
pub mod util;
