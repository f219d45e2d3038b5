//! Decisions of the watch-and-serve loop: which file-system events cause a
//! rebuild, and when connected browsers are told to reload.
use vstd::prelude::*;

verus! {

/// The kind of a file-system notification.
#[derive(Clone, Copy, Debug, PartialEq, Eq, Structural)]
pub enum WatchEvent {
    /// A file was only read or opened.
    Access,
    /// Anything else: creation, modification, removal, renaming.
    Change,
    /// The watcher itself reported an error.
    Error,
}

/// What the loop does next.
#[derive(Clone, Copy, Debug, PartialEq, Eq, Structural)]
pub enum WatchAction {
    /// Nothing: reading files must not trigger rebuilds, which read files.
    Ignore,
    /// Rebuild the site.
    Rebuild,
    /// Report the watcher's error and keep serving.
    ReportError,
}

/// How a rebuild ended.
#[derive(Clone, Copy, Debug, PartialEq, Eq, Structural)]
pub enum BuildOutcome {
    Succeeded,
    Failed,
}

/// What follows a rebuild.
#[derive(Clone, Copy, Debug, PartialEq, Eq, Structural)]
pub enum AfterBuild {
    /// Tell connected browsers to reload.
    Reload,
    /// Report the failure and keep serving the previous output.
    ReportFailure,
}

/// Only a change rebuilds; an access is ignored and an error is reported.
pub fn on_watch_event(e: WatchEvent) -> (r: WatchAction)
    ensures
        e == WatchEvent::Change <==> r == WatchAction::Rebuild,
        e == WatchEvent::Access <==> r == WatchAction::Ignore,
        e == WatchEvent::Error <==> r == WatchAction::ReportError,
{
    match e {
        WatchEvent::Access => WatchAction::Ignore,
        WatchEvent::Change => WatchAction::Rebuild,
        WatchEvent::Error => WatchAction::ReportError,
    }
}

/// Browsers reload only after a successful rebuild; a failed one never stops the server.
pub fn after_build(o: BuildOutcome) -> (r: AfterBuild)
    ensures
        o == BuildOutcome::Succeeded <==> r == AfterBuild::Reload,
{
    match o {
        BuildOutcome::Succeeded => AfterBuild::Reload,
        BuildOutcome::Failed => AfterBuild::ReportFailure,
    }
}

} // verus!
