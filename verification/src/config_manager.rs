//! The user's preferences: whether the commit graph is cut off, after how
//! many commits, and the user name.
use vstd::prelude::*;

verus! {

/// What a `Config` holds.
pub struct ConfigView {
    pub limit_commits: Option<bool>,
    pub commit_count: Option<usize>,
    pub username: Option<Seq<char>>,
}

/// The user's preferences. A setting that is absent stays out of the saved
/// file.
pub struct Config {
    limit_commits: Option<bool>,
    commit_count: Option<usize>,
    username: Option<String>,
}

/// The plain value of an optional text.
pub open spec fn opt_text(o: Option<String>) -> Option<Seq<char>> {
    match o {
        Some(s) => Some(s@),
        None => None,
    }
}

impl View for Config {
    type V = ConfigView;

    closed spec fn view(&self) -> ConfigView {
        ConfigView {
            limit_commits: self.limit_commits,
            commit_count: self.commit_count,
            username: opt_text(self.username),
        }
    }
}

impl Config {
    /// The preferences a new installation starts with: the graph is cut off
    /// after 2000 commits and no user name is set.
    pub fn new_default() -> (r: Self)
        ensures
            r@ == (ConfigView { limit_commits: Some(true), commit_count: Some(2000), username: None }),
    {
        Self { limit_commits: Some(true), commit_count: Some(2000), username: None }
    }

    /// A configuration with the given settings.
    pub fn from_parts(limit_commits: Option<bool>, commit_count: Option<usize>, username: Option<String>) -> (r: Self)
        ensures
            r@ == (ConfigView { limit_commits, commit_count, username: opt_text(username) }),
    {
        Self { limit_commits, commit_count, username }
    }

    pub fn borrow_limit_commits(&self) -> (r: &Option<bool>)
        ensures
            *r == self@.limit_commits,
    {
        &self.limit_commits
    }

    pub fn borrow_commit_count(&self) -> (r: &Option<usize>)
        ensures
            *r == self@.commit_count,
    {
        &self.commit_count
    }

    pub fn borrow_username(&self) -> (r: &Option<String>)
        ensures
            opt_text(*r) == self@.username,
    {
        &self.username
    }

    pub fn set_username(&mut self, new_username: String)
        ensures
            final(self)@ == (ConfigView { username: Some(new_username@), ..old(self)@ }),
    {
        self.username = Some(new_username);
    }
}

} // verus!
