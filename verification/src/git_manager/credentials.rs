//! How the back end authenticates to remotes. The stored preferences name
//! the kind of credentials (`"HTTPS"` or `"SSH"`) and their public parts;
//! the secret (password or passphrase) lives in the system keychain.
use std::path::PathBuf;
use vstd::prelude::*;
use crate::desktop::config_manager::Config;
use crate::text::{concat_str, owned, str_eq};

verus! {

/// Why no credentials can be offered to a remote.
pub enum CredentialError {
    /// The credentials, or a part of them, are not set.
    NotSet,
    /// SSH credentials are set but the remote's URL names no user.
    NoUsernameInUrl,
    /// The kind of credentials stored is neither HTTPS nor SSH.
    UnknownType,
}

/// The message shown when credentials cannot be offered.
pub open spec fn credential_error_text(e: CredentialError) -> Seq<char> {
    match e {
        CredentialError::NotSet => "Credentials are required to perform that operation. Please set your credentials in the menu bar under Security > Set Credentials"@,
        CredentialError::NoUsernameInUrl => "No username in Remote URL, did you use an SSH URL for your remote?"@,
        CredentialError::UnknownType => "Credential Type unrecognized. Please set your credentials in the menu bar under Security > Set Credentials"@,
    }
}

impl CredentialError {
    /// The message shown for this error (see `credential_error_text`).
    pub fn message(&self) -> (r: String)
        ensures
            r@ == credential_error_text(*self),
    {
        match self {
            CredentialError::NotSet => owned("Credentials are required to perform that operation. Please set your credentials in the menu bar under Security > Set Credentials"),
            CredentialError::NoUsernameInUrl => owned("No username in Remote URL, did you use an SSH URL for your remote?"),
            CredentialError::UnknownType => owned("Credential Type unrecognized. Please set your credentials in the menu bar under Security > Set Credentials"),
        }
    }
}

/// The credentials offered to a remote; the secret is read from the
/// keychain.
pub enum CredentialPlan {
    /// A user name and the password kept in the keychain.
    UserPassword { username: String },
    /// The stored SSH key pair for the URL's user, with the passphrase kept
    /// in the keychain when the key uses one.
    SshKey { username: String, with_passphrase: bool },
}

/// The plain value of a `CredentialPlan`.
pub enum CredentialPlanView {
    UserPassword { username: Seq<char> },
    SshKey { username: Seq<char>, with_passphrase: bool },
}

impl View for CredentialPlan {
    type V = CredentialPlanView;

    open spec fn view(&self) -> CredentialPlanView {
        match self {
            CredentialPlan::UserPassword { username } => CredentialPlanView::UserPassword { username: username@ },
            CredentialPlan::SshKey { username, with_passphrase } => CredentialPlanView::SshKey {
                username: username@,
                with_passphrase: *with_passphrase,
            },
        }
    }
}

/// The credentials offered for the stored preferences and the user the
/// remote's URL names.
pub open spec fn credential_plan_of(
    cred_type: Option<Seq<char>>,
    https_username: Option<Seq<char>>,
    has_public_key: bool,
    has_private_key: bool,
    uses_passphrase: Option<bool>,
    username_from_url: Option<Seq<char>>,
) -> Result<CredentialPlanView, CredentialError> {
    match cred_type {
        None => Err(CredentialError::NotSet),
        Some(t) => if t == "HTTPS"@ {
            match https_username {
                Some(u) => Ok(CredentialPlanView::UserPassword { username: u }),
                None => Err(CredentialError::NotSet),
            }
        } else if t == "SSH"@ {
            match username_from_url {
                None => Err(CredentialError::NoUsernameInUrl),
                Some(u) => if !has_public_key || !has_private_key {
                    Err(CredentialError::NotSet)
                } else {
                    match uses_passphrase {
                        Some(p) => Ok(CredentialPlanView::SshKey { username: u, with_passphrase: p }),
                        None => Err(CredentialError::NotSet),
                    }
                },
            }
        } else {
            Err(CredentialError::UnknownType)
        },
    }
}

/// Chooses the credentials offered to a remote (see `credential_plan_of`);
/// for SSH, both key paths are set in `config` whenever this succeeds.
pub fn credential_plan(config: &Config, username_from_url: Option<&str>) -> (r: Result<CredentialPlan, CredentialError>)
    ensures
        match credential_plan_of(
            config@.cred_type,
            config@.https_username,
            config@.public_key_path is Some,
            config@.private_key_path is Some,
            config@.uses_passphrase,
            match username_from_url {
                Some(u) => Some(u@),
                None => None,
            },
        ) {
            Ok(p) => r matches Ok(q) && q@ == p,
            Err(e) => r matches Err(e2) && e2 == e,
        },
{
    let cred_type = match config.borrow_cred_type() {
        Some(s) => s,
        None => return Err(CredentialError::NotSet),
    };
    if str_eq(cred_type.as_str(), "HTTPS") {
        match config.borrow_https_username() {
            Some(u) => Ok(CredentialPlan::UserPassword { username: owned(u.as_str()) }),
            None => Err(CredentialError::NotSet),
        }
    } else if str_eq(cred_type.as_str(), "SSH") {
        let username = match username_from_url {
            Some(s) => owned(s),
            None => return Err(CredentialError::NoUsernameInUrl),
        };
        if config.borrow_public_key_path().is_none() || config.borrow_private_key_path().is_none() {
            return Err(CredentialError::NotSet);
        }
        match config.borrow_uses_passphrase() {
            Some(b) => Ok(CredentialPlan::SshKey { username, with_passphrase: *b }),
            None => Err(CredentialError::NotSet),
        }
    } else {
        Err(CredentialError::UnknownType)
    }
}

/// What the keychain's answer means: a secret that was not found leaves
/// the credentials unset.
pub fn secret_found(success: bool) -> (r: Result<(), CredentialError>)
    ensures
        success ==> r is Ok,
        !success ==> (r matches Err(e) && e is NotSet),
{
    if success {
        Ok(())
    } else {
        Err(CredentialError::NotSet)
    }
}

/// The error a remote's report on a pushed reference raises: none when it
/// reports no problem, else `"Error(s) during push: "` and the report.
pub fn push_status_error(status_msg: Option<&str>) -> (r: Option<String>)
    ensures
        match status_msg {
            Some(m) => r matches Some(s) && s@ == "Error(s) during push: "@ + m@,
            None => r is None,
        },
{
    match status_msg {
        Some(m) => Some(concat_str("Error(s) during push: ", m)),
        None => None,
    }
}

/// Stores HTTPS credentials: the kind becomes `"HTTPS"` and the user name
/// is kept; the password goes to the keychain.
pub fn apply_https_credentials(config: &mut Config, username: String)
    ensures
        final(config)@ == (crate::desktop::config_manager::ConfigView {
            cred_type: Some("HTTPS"@),
            https_username: Some(username@),
            ..old(config)@
        }),
{
    config.set_cred_type(owned("HTTPS"));
    config.set_https_username(username);
}

/// Stores SSH credentials: the kind becomes `"SSH"`, the key paths are
/// kept, and the key is marked as using a passphrase when one was given.
/// Gives whether the passphrase goes to the keychain.
pub fn apply_ssh_credentials(config: &mut Config, public_key_path: PathBuf, private_key_path: PathBuf, passphrase: &str) -> (store_passphrase: bool)
    ensures
        store_passphrase == (passphrase@.len() != 0),
        final(config)@ == (crate::desktop::config_manager::ConfigView {
            cred_type: Some("SSH"@),
            public_key_path: Some(public_key_path),
            private_key_path: Some(private_key_path),
            uses_passphrase: Some(passphrase@.len() != 0),
            ..old(config)@
        }),
{
    config.set_cred_type(owned("SSH"));
    config.set_public_key_path(public_key_path);
    config.set_private_key_path(private_key_path);
    let store = crate::text::chars_of(passphrase).len() != 0;
    config.set_uses_passphrase(store);
    store
}

} // verus!
