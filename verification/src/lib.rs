//! Versioned snapshot engine: an append-only, numbered history of copies of a
//! single tracked file.
//!
//! The engine derives each snapshot's identifier by scanning the names already
//! present in the snapshot directory (no persisted counter), turns bursts of
//! filesystem write notifications into at most one snapshot per quiet period,
//! and restores any prior snapshot byte for byte.  All filesystem access and
//! user interaction live outside this crate; the engine works on plain values:
//! entry names, byte contents, and timestamped events.

use vstd::prelude::*;

pub mod index;
pub mod note;
pub mod store;
pub mod watch;

verus! {

/// The failures the engine and its callers distinguish.
#[derive(Clone, Copy, Debug, PartialEq, Eq, Structural)]
pub enum SnapError {
    /// No tracked file has been selected.
    NotConfigured,
    /// The tracked file was absent when a snapshot was requested.
    SourceMissing,
    /// The snapshot directory could not be listed (distinct from "empty").
    DirectoryUnreadable,
    /// A byte copy or directory creation failed.
    IoFailure,
    /// The notification source could not be established.
    WatchInitError,
    /// The notification source failed mid-session.
    WatchChannelError,
}

impl SnapError {
    /// A human-readable cause, for display and logging by the caller.
    pub fn message(&self) -> (m: &'static str)
        ensures
            m@ == match *self {
                SnapError::NotConfigured => "no file has been set to back up"@,
                SnapError::SourceMissing => "save file not found"@,
                SnapError::DirectoryUnreadable => "the snapshot directory could not be read"@,
                SnapError::IoFailure => "copying the snapshot failed"@,
                SnapError::WatchInitError => "watching the save file could not be started"@,
                SnapError::WatchChannelError => "the watch notification channel failed"@,
            },
    {
        match *self {
            SnapError::NotConfigured => "no file has been set to back up",
            SnapError::SourceMissing => "save file not found",
            SnapError::DirectoryUnreadable => "the snapshot directory could not be read",
            SnapError::IoFailure => "copying the snapshot failed",
            SnapError::WatchInitError => "watching the save file could not be started",
            SnapError::WatchChannelError => "the watch notification channel failed",
        }
    }
}

/// The tracked file is owned by configuration outside the engine; the engine
/// must not assume it is set.  Absence is the `NotConfigured` error.
pub fn tracked_file(configured: Option<String>) -> (r: Result<String, SnapError>)
    ensures
        match configured {
            Some(name) => r is Ok && r->Ok_0 == name,
            None => r == Err::<String, SnapError>(SnapError::NotConfigured),
        },
{
    match configured {
        Some(name) => Ok(name),
        None => Err(SnapError::NotConfigured),
    }
}

} // verus!
