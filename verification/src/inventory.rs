//! The list of known repositories, kept up to date.
//!
//! To answer "which repositories are there?" the cache is looked at first.
//! Where it is good for the configuration at hand, it is used; where it is
//! not, the disk is scanned and the cache written anew. Either way the
//! answer is what the cache lists, looked at once more: a repository that
//! is gone from the disk, or is ignored by now, is not part of it.
//!
//! The reading, the scanning and the writing are done by whoever asks. The
//! steps are decided here: `Config::get_repos` takes what has just happened
//! and says what is to be done next.

use vstd::prelude::*;
use crate::cache::{
    cache_repos, cache_text, cached_paths, live_paths, paths_in, read, valid_for, PathProbe,
};
use crate::config::Config;
use crate::discover::{find_repos, roots_shown, WalkEntry};
use crate::fingerprint::fingerprint_of;
use crate::ignore::IgnoreList;
use crate::order::listing;
use crate::repo::{paths_of, Repo};
use crate::text::{opt_text, texts};

verus! {

/// How far the answer has come.
#[derive(Clone, Copy, Debug, PartialEq, Eq, Structural)]
pub enum Phase {
    /// Nothing has been done yet.
    Idle,
    /// The cache is being read, to see whether it is good.
    CheckingCache,
    /// The disk is being scanned.
    Scanning,
    /// The cache is being written.
    Storing,
    /// The cache that was just written is being read.
    Rereading,
    /// The paths of the cache are being looked up on the disk.
    Probing,
    /// The answer has been given.
    Done,
}

/// What has just happened.
#[derive(Debug)]
pub enum Event {
    /// The list of repositories was asked for.
    Asked,
    /// The cache file was read: this is its text, or `None` where there is
    /// no such file.
    CacheRead(Option<String>),
    /// The disk was scanned: this is what the walk met.
    Scanned(Vec<WalkEntry>),
    /// The cache file was written.
    Stored,
    /// The paths were looked up: this is what the disk says of each.
    Probed(Vec<PathProbe>),
}

/// What is to be done next.
#[derive(Debug)]
pub enum Action {
    /// Read the cache file, and come back with `Event::CacheRead`.
    ReadCache,
    /// Walk the directory tree, and come back with `Event::Scanned`.
    Scan,
    /// Write this text to the cache file, and come back with
    /// `Event::Stored`.
    Store(String),
    /// Look these paths up on the disk, and come back with `Event::Probed`.
    Probe(Vec<String>),
    /// These are the repositories.
    Return(Vec<Repo>),
    /// This event does not belong here; nothing was done.
    Refuse,
}

impl Config {
    /// One step on the way to all known git repos, the cache being
    /// populated first where that is necessary. `phase` is how far the way
    /// has come and `event` what has just happened; the result is how far
    /// it has come now and what is to be done next. The way starts in
    /// `Phase::Idle` with `Event::Asked` and ends with `Action::Return`.
    pub fn get_repos(&self, ignored: &IgnoreList, phase: Phase, event: Event) -> (next: (
        Phase,
        Action,
    ))
        ensures
            match (phase, event) {
                (Phase::Idle, Event::Asked) => {
                    &&& next.0 == Phase::CheckingCache
                    &&& next.1 is ReadCache
                },
                (Phase::CheckingCache, Event::CacheRead(cache)) => {
                    if valid_for(opt_text(cache), fingerprint_of(self@)) {
                        &&& next.0 == Phase::Probing
                        &&& next.1 matches Action::Probe(paths)
                        &&& cache matches Some(text)
                        &&& texts(paths@) == paths_in(text@)
                    } else {
                        &&& next.0 == Phase::Scanning
                        &&& next.1 is Scan
                    }
                },
                (Phase::Scanning, Event::Scanned(entries)) => {
                    &&& next.0 == Phase::Storing
                    &&& next.1 matches Action::Store(text)
                    &&& text@ == cache_text(
                        fingerprint_of(self@),
                        listing(roots_shown(entries@, self@.ignored_patterns, ignored@)),
                    )
                },
                (Phase::Storing, Event::Stored) => {
                    &&& next.0 == Phase::Rereading
                    &&& next.1 is ReadCache
                },
                (Phase::Rereading, Event::CacheRead(cache)) => match cache {
                    Some(text) => {
                        &&& next.0 == Phase::Probing
                        &&& next.1 matches Action::Probe(paths)
                        &&& texts(paths@) == paths_in(text@)
                    },
                    None => {
                        &&& next.0 == Phase::Done
                        &&& next.1 matches Action::Return(repos)
                        &&& repos@.len() == 0
                    },
                },
                (Phase::Probing, Event::Probed(probes)) => {
                    &&& next.0 == Phase::Done
                    &&& next.1 matches Action::Return(repos)
                    &&& paths_of(repos@) == live_paths(probes@, ignored@)
                },
                _ => {
                    &&& next.0 == phase
                    &&& next.1 is Refuse
                },
            },
    {
        match (phase, event) {
            (Phase::Idle, Event::Asked) => (Phase::CheckingCache, Action::ReadCache),
            (Phase::CheckingCache, Event::CacheRead(cache)) => {
                match cache {
                    Some(text) => {
                        if self.has_cache(Some(text.as_str())) {
                            (Phase::Probing, Action::Probe(cached_paths(text.as_str())))
                        } else {
                            (Phase::Scanning, Action::Scan)
                        }
                    },
                    None => (Phase::Scanning, Action::Scan),
                }
            },
            (Phase::Scanning, Event::Scanned(entries)) => {
                let repos = find_repos(self, ignored, &entries);
                (Phase::Storing, Action::Store(cache_repos(self, &repos)))
            },
            (Phase::Storing, Event::Stored) => (Phase::Rereading, Action::ReadCache),
            (Phase::Rereading, Event::CacheRead(cache)) => {
                match cache {
                    Some(text) => (Phase::Probing, Action::Probe(cached_paths(text.as_str()))),
                    None => (Phase::Done, Action::Return(Vec::new())),
                }
            },
            (Phase::Probing, Event::Probed(probes)) => {
                (Phase::Done, Action::Return(read(&probes, ignored)))
            },
            _ => (phase, Action::Refuse),
        }
    }
}

} // verus!
