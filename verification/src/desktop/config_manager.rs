//! Preferences of the native desktop client, including the credentials
//! used to reach remotes.
use std::path::PathBuf;
use vstd::prelude::*;
use crate::config_manager::opt_text;

verus! {

/// A file-system path (`std::path::PathBuf`), carried through unchanged.
#[verifier::external_type_specification]
#[verifier::external_body]
pub struct ExPathBuf(PathBuf);

/// What a `Config` holds.
pub struct ConfigView {
    pub limit_commits: Option<bool>,
    pub commit_count: Option<usize>,
    pub cred_type: Option<Seq<char>>,
    pub https_username: Option<Seq<char>>,
    pub public_key_path: Option<PathBuf>,
    pub private_key_path: Option<PathBuf>,
    pub uses_passphrase: Option<bool>,
}

/// The user's preferences and how to authenticate to remotes: by user name
/// and password over HTTPS, or by an SSH key pair.
pub struct Config {
    limit_commits: Option<bool>,
    commit_count: Option<usize>,
    cred_type: Option<String>,
    https_username: Option<String>,
    public_key_path: Option<PathBuf>,
    private_key_path: Option<PathBuf>,
    uses_passphrase: Option<bool>,
}

impl View for Config {
    type V = ConfigView;

    closed spec fn view(&self) -> ConfigView {
        ConfigView {
            limit_commits: self.limit_commits,
            commit_count: self.commit_count,
            cred_type: opt_text(self.cred_type),
            https_username: opt_text(self.https_username),
            public_key_path: self.public_key_path,
            private_key_path: self.private_key_path,
            uses_passphrase: self.uses_passphrase,
        }
    }
}

impl Config {
    /// The preferences a new installation starts with: the graph is cut off
    /// after 2000 commits and no credentials are set.
    pub fn new_default() -> (r: Self)
        ensures
            r@ == (ConfigView {
                limit_commits: Some(true),
                commit_count: Some(2000),
                cred_type: None,
                https_username: None,
                public_key_path: None,
                private_key_path: None,
                uses_passphrase: None,
            }),
    {
        Self {
            limit_commits: Some(true),
            commit_count: Some(2000),
            cred_type: None,
            https_username: None,
            public_key_path: None,
            private_key_path: None,
            uses_passphrase: None,
        }
    }

    /// A configuration with the given settings.
    pub fn from_parts(
        limit_commits: Option<bool>,
        commit_count: Option<usize>,
        cred_type: Option<String>,
        https_username: Option<String>,
        public_key_path: Option<PathBuf>,
        private_key_path: Option<PathBuf>,
        uses_passphrase: Option<bool>,
    ) -> (r: Self)
        ensures
            r@ == (ConfigView {
                limit_commits,
                commit_count,
                cred_type: opt_text(cred_type),
                https_username: opt_text(https_username),
                public_key_path,
                private_key_path,
                uses_passphrase,
            }),
    {
        Self {
            limit_commits,
            commit_count,
            cred_type,
            https_username,
            public_key_path,
            private_key_path,
            uses_passphrase,
        }
    }

    pub fn borrow_limit_commits(&self) -> (r: &Option<bool>)
        ensures
            *r == self@.limit_commits,
    {
        &self.limit_commits
    }

    pub fn borrow_commit_count(&self) -> (r: &Option<usize>)
        ensures
            *r == self@.commit_count,
    {
        &self.commit_count
    }

    pub fn borrow_cred_type(&self) -> (r: &Option<String>)
        ensures
            opt_text(*r) == self@.cred_type,
    {
        &self.cred_type
    }

    pub fn borrow_https_username(&self) -> (r: &Option<String>)
        ensures
            opt_text(*r) == self@.https_username,
    {
        &self.https_username
    }

    pub fn borrow_public_key_path(&self) -> (r: &Option<PathBuf>)
        ensures
            *r == self@.public_key_path,
    {
        &self.public_key_path
    }

    pub fn borrow_private_key_path(&self) -> (r: &Option<PathBuf>)
        ensures
            *r == self@.private_key_path,
    {
        &self.private_key_path
    }

    pub fn borrow_uses_passphrase(&self) -> (r: &Option<bool>)
        ensures
            *r == self@.uses_passphrase,
    {
        &self.uses_passphrase
    }

    pub fn set_cred_type(&mut self, cred_type: String)
        ensures
            final(self)@ == (ConfigView { cred_type: Some(cred_type@), ..old(self)@ }),
    {
        self.cred_type = Some(cred_type);
    }

    pub fn set_https_username(&mut self, new_username: String)
        ensures
            final(self)@ == (ConfigView { https_username: Some(new_username@), ..old(self)@ }),
    {
        self.https_username = Some(new_username);
    }

    pub fn set_public_key_path(&mut self, public_key_path: PathBuf)
        ensures
            final(self)@ == (ConfigView { public_key_path: Some(public_key_path), ..old(self)@ }),
    {
        self.public_key_path = Some(public_key_path);
    }

    pub fn set_private_key_path(&mut self, private_key_path: PathBuf)
        ensures
            final(self)@ == (ConfigView { private_key_path: Some(private_key_path), ..old(self)@ }),
    {
        self.private_key_path = Some(private_key_path);
    }

    pub fn set_uses_passphrase(&mut self, uses_passphrase: bool)
        ensures
            final(self)@ == (ConfigView { uses_passphrase: Some(uses_passphrase), ..old(self)@ }),
    {
        self.uses_passphrase = Some(uses_passphrase);
    }
}

} // verus!
