//! Preferences of the compact back end: always-present settings.
use vstd::prelude::*;

verus! {

/// What a `Config` holds.
pub struct ConfigView {
    pub limit_commits: bool,
    pub commit_count: usize,
}

/// Whether the commit graph is cut off, and after how many commits.
#[derive(Clone, Copy)]
pub struct Config {
    limit_commits: bool,
    commit_count: usize,
}

impl View for Config {
    type V = ConfigView;

    closed spec fn view(&self) -> ConfigView {
        ConfigView { limit_commits: self.limit_commits, commit_count: self.commit_count }
    }
}

impl Config {
    /// The default: cut the graph off after 2000 commits.
    pub fn new_default() -> (r: Self)
        ensures
            r@ == (ConfigView { limit_commits: true, commit_count: 2000 }),
    {
        Self { limit_commits: true, commit_count: 2000 }
    }

    /// A configuration with the given settings.
    pub fn from_parts(limit_commits: bool, commit_count: usize) -> (r: Self)
        ensures
            r@ == (ConfigView { limit_commits, commit_count }),
    {
        Self { limit_commits, commit_count }
    }

    pub fn get_limit_commits(&self) -> (r: bool)
        ensures
            r == self@.limit_commits,
    {
        self.limit_commits
    }

    pub fn get_commit_count(&self) -> (r: usize)
        ensures
            r == self@.commit_count,
    {
        self.commit_count
    }
}

} // verus!
