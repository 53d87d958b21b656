use std::path::PathBuf;

use oxidized_git::config_manager::Config;
use oxidized_git::desktop::config_manager::Config as DesktopConfig;
use oxidized_git::git_manager::credentials::{
    apply_https_credentials, apply_ssh_credentials, credential_plan, push_status_error, secret_found,
    CredentialError, CredentialPlan,
};
use oxidized_git::git_manager::plans::{
    any_conflicted, apply_follow_up, commit_diff_choice, diff_source, discard_plan, get_file_index_in_diff,
    merge_follow_up, project_name, pull_rebase_diverged, pull_step, push_remote, rebase_step_action,
    stage_action, stash_message, tag_target, unstage_action, CommitDiffChoice, DiffSource, DiscardError,
    DiscardPlan, MergeAnalysis, MergeFollowUp, MergePreference, PullRefusal, PullStep, PushRemoteError,
    RebaseStep, StageAction, TagTargetError, UnstageAction,
};
use oxidized_git::git_manager::revwalk::{
    collect_starting_oids, old_shas_eq_sorted_new_oids, refresh_starting_shas, revwalk_limits, sort_by_time,
    walk_takes, RevwalkConfigError,
};

fn analysis(is_none: bool, is_unborn: bool, is_up_to_date: bool, is_fast_forward: bool, is_normal: bool) -> MergeAnalysis {
    MergeAnalysis { is_none, is_unborn, is_up_to_date, is_fast_forward, is_normal }
}

fn prefs(is_no_fast_forward: bool, is_fastforward_only: bool) -> MergePreference {
    MergePreference { is_no_fast_forward, is_fastforward_only }
}

fn strings(v: &[&str]) -> Vec<String> {
    v.iter().map(|s| s.to_string()).collect()
}

#[test]
fn starting_commits_are_listed_once_in_order() {
    let targets = vec![Some(String::from("a")), None, Some(String::from("b")), Some(String::from("a"))];
    assert_eq!(collect_starting_oids(&targets), strings(&["a", "b"]));
    assert_eq!(collect_starting_oids(&vec![]), Vec::<String>::new());
}

#[test]
fn starting_commits_sort_newest_first_and_stably() {
    let input = vec![
        (String::from("a"), 5),
        (String::from("b"), 9),
        (String::from("c"), 5),
        (String::from("d"), 1),
    ];
    let sorted = sort_by_time(input);
    let names: Vec<&str> = sorted.iter().map(|e| e.0.as_str()).collect();
    assert_eq!(names, vec!["b", "a", "c", "d"]);
    for w in sorted.windows(2) {
        assert!(w[1].1 <= w[0].1);
    }
}

#[test]
fn same_starting_commits_compare_equal() {
    assert!(old_shas_eq_sorted_new_oids(&strings(&["a", "b"]), &strings(&["a", "b"])));
    assert!(!old_shas_eq_sorted_new_oids(&strings(&["a", "b"]), &strings(&["b", "a"])));
    assert!(!old_shas_eq_sorted_new_oids(&strings(&["a"]), &strings(&["a", "b"])));
}

#[test]
fn graph_is_walked_again_only_when_its_start_changes() {
    let (kept, walk) = refresh_starting_shas(strings(&["a"]), &strings(&["a"]), false);
    assert_eq!(kept, strings(&["a"]));
    assert!(!walk);
    let (kept, walk) = refresh_starting_shas(strings(&["a"]), &strings(&["b"]), false);
    assert_eq!(kept, strings(&["b"]));
    assert!(walk);
    let (again, walk_again) = refresh_starting_shas(kept, &strings(&["b"]), false);
    assert_eq!(again, strings(&["b"]));
    assert!(!walk_again);
    let (kept, walk) = refresh_starting_shas(strings(&["a"]), &strings(&["a"]), true);
    assert_eq!(kept, strings(&["a"]));
    assert!(walk);
    let (kept, walk) = refresh_starting_shas(strings(&["a"]), &vec![], true);
    assert!(kept.is_empty());
    assert!(!walk);
}

#[test]
fn walk_limits_come_from_the_preferences() {
    assert!(matches!(revwalk_limits(&Config::new_default()), Ok((true, 2000))));
    assert!(matches!(revwalk_limits(&Config::from_parts(Some(false), Some(7), None)), Ok((false, 7))));
    assert!(matches!(
        revwalk_limits(&Config::from_parts(None, Some(7), None)),
        Err(RevwalkConfigError::MissingLimitCommits)
    ));
    assert!(matches!(
        revwalk_limits(&Config::from_parts(Some(true), None, None)),
        Err(RevwalkConfigError::MissingCommitCount)
    ));
}

#[test]
fn walk_stops_at_the_commit_count_only_when_limited() {
    assert!(walk_takes(true, 2, 1));
    assert!(!walk_takes(true, 2, 2));
    assert!(walk_takes(false, 2, 100));
}

#[test]
fn pull_steps_follow_the_merge_analysis() {
    assert!(matches!(pull_step(analysis(true, false, false, true, true), prefs(false, false)), PullStep::Refuse(PullRefusal::NoMergePossible)));
    assert!(matches!(pull_step(analysis(false, true, false, false, false), prefs(false, false)), PullStep::Refuse(PullRefusal::UnbornHead)));
    assert!(matches!(pull_step(analysis(false, false, true, false, false), prefs(false, false)), PullStep::UpToDate));
    assert!(matches!(pull_step(analysis(false, false, false, true, false), prefs(false, false)), PullStep::FastForward));
    assert!(matches!(pull_step(analysis(false, false, false, false, true), prefs(false, false)), PullStep::Rebase));
    assert!(matches!(pull_step(analysis(false, false, false, true, false), prefs(true, false)), PullStep::Refuse(PullRefusal::PreferencesPreventPull)));
    assert!(matches!(pull_step(analysis(false, false, false, false, true), prefs(false, true)), PullStep::Refuse(PullRefusal::PreferencesPreventPull)));
    assert!(matches!(pull_step(analysis(false, false, false, false, false), prefs(false, false)), PullStep::Refuse(PullRefusal::Undetermined)));
    assert!(matches!(pull_step(analysis(false, false, false, true, true), prefs(true, false)), PullStep::Rebase));
}

#[test]
fn rebase_steps_pause_commit_or_proceed() {
    assert!(matches!(rebase_step_action(true, false, true), RebaseStep::Pause));
    assert!(matches!(rebase_step_action(false, true, false), RebaseStep::Pause));
    assert!(matches!(rebase_step_action(false, false, true), RebaseStep::Commit));
    assert!(matches!(rebase_step_action(false, false, false), RebaseStep::Proceed));
    assert!(pull_rebase_diverged(false, false, true));
    assert!(!pull_rebase_diverged(false, false, false));
}

#[test]
fn merge_and_apply_follow_ups() {
    assert!(matches!(merge_follow_up(true, true), MergeFollowUp::LeaveForUser));
    assert!(matches!(merge_follow_up(false, true), MergeFollowUp::Commit));
    assert!(matches!(merge_follow_up(false, false), MergeFollowUp::NothingToCommit));
    let f = apply_follow_up(true, false, true);
    assert!(f.cleanup_state && f.commit);
    let f = apply_follow_up(false, false, true);
    assert!(f.cleanup_state && !f.commit);
    let f = apply_follow_up(true, true, true);
    assert!(!f.cleanup_state && !f.commit);
}

#[test]
fn staging_and_unstaging_depend_on_the_status() {
    assert!(matches!(stage_action(2), StageAction::RemovePath));
    assert!(matches!(stage_action(3), StageAction::AddPath));
    assert!(matches!(stage_action(7), StageAction::AddPath));
    assert!(matches!(unstage_action(2), UnstageAction::ResetToHead));
    assert!(matches!(unstage_action(3), UnstageAction::ResetToHead));
    assert!(matches!(unstage_action(1), UnstageAction::RemovePath));
}

#[test]
fn diff_sources_are_read_from_change_types() {
    assert!(matches!(diff_source("unstaged"), Some(DiffSource::Unstaged)));
    assert!(matches!(diff_source("staged"), Some(DiffSource::Staged)));
    assert!(matches!(diff_source("commit"), Some(DiffSource::Commit)));
    assert!(diff_source("stash").is_none());
}

#[test]
fn file_index_is_the_first_matching_path() {
    let paths = vec![None, Some(String::from("a.rs")), Some(String::from("b.rs")), Some(String::from("a.rs"))];
    assert_eq!(get_file_index_in_diff(&paths, "a.rs"), Some(1));
    assert_eq!(get_file_index_in_diff(&paths, "b.rs"), Some(2));
    assert_eq!(get_file_index_in_diff(&paths, "c.rs"), None);
}

#[test]
fn commit_diff_prefers_a_parent_with_changes() {
    assert!(matches!(commit_diff_choice(&vec![0, 3, 2]), CommitDiffChoice::Parent(1)));
    assert!(matches!(commit_diff_choice(&vec![0, 0]), CommitDiffChoice::Parent(1)));
    assert!(matches!(commit_diff_choice(&vec![4]), CommitDiffChoice::Parent(0)));
    assert!(matches!(commit_diff_choice(&vec![]), CommitDiffChoice::NoParent));
}

#[test]
fn conflicts_are_found_by_status() {
    assert!(any_conflicted(&vec![1, 10, 3]));
    assert!(!any_conflicted(&vec![1, 2, 3]));
    assert!(!any_conflicted(&vec![]));
}

#[test]
fn discard_plans_by_change_and_status() {
    assert!(matches!(discard_plan("unstaged", 7), Ok(DiscardPlan::StageThenCheckout)));
    assert!(matches!(discard_plan("staged", 7), Ok(DiscardPlan::Checkout)));
    assert!(matches!(discard_plan("unstaged", 4), Ok(DiscardPlan::CheckoutWithOldPath(DiffSource::Unstaged))));
    assert!(matches!(discard_plan("staged", 4), Ok(DiscardPlan::CheckoutWithOldPath(DiffSource::Staged))));
    assert!(matches!(discard_plan("commit", 4), Err(DiscardError::RenameOutsideChanges)));
    assert!(matches!(discard_plan("unstaged", 3), Ok(DiscardPlan::Checkout)));
}

#[test]
fn tags_go_on_the_given_sha_or_head() {
    assert_eq!(tag_target("abc", Some(String::from("head"))).ok().unwrap(), "abc");
    assert_eq!(tag_target("", Some(String::from("head"))).ok().unwrap(), "head");
    assert!(matches!(tag_target("", None), Err(TagTargetError::NoHeadTarget)));
}

#[test]
fn empty_stash_messages_are_left_out() {
    assert_eq!(stash_message(""), None);
    assert_eq!(stash_message("wip"), Some(String::from("wip")));
}

#[test]
fn pushes_go_upstream_or_to_the_chosen_remote() {
    let r = push_remote(Some(String::from("origin")), Some(String::from("other"))).ok().unwrap();
    assert_eq!(r, (String::from("origin"), false));
    let r = push_remote(None, Some(String::from("other"))).ok().unwrap();
    assert_eq!(r, (String::from("other"), true));
    assert!(matches!(push_remote(None, None), Err(PushRemoteError::NoRemote)));
}

#[test]
fn project_name_drops_the_git_ending() {
    assert_eq!(project_name("https://example.com/user/project.git"), "project");
    assert_eq!(project_name("git@example.com:user/tool.git"), "tool");
    assert_eq!(project_name("https://example.com/user/préx.gé"), "préx");
}

fn desktop(cred_type: Option<&str>, user: Option<&str>, keys: bool, passphrase: Option<bool>) -> DesktopConfig {
    DesktopConfig::from_parts(
        Some(true),
        Some(2000),
        cred_type.map(String::from),
        user.map(String::from),
        if keys { Some(PathBuf::from("/k/id.pub")) } else { None },
        if keys { Some(PathBuf::from("/k/id")) } else { None },
        passphrase,
    )
}

#[test]
fn credentials_follow_the_stored_kind() {
    match credential_plan(&desktop(Some("HTTPS"), Some("ann"), false, None), None) {
        Ok(CredentialPlan::UserPassword { username }) => assert_eq!(username, "ann"),
        _ => panic!("expected a user name and password"),
    }
    match credential_plan(&desktop(Some("SSH"), None, true, Some(true)), Some("git")) {
        Ok(CredentialPlan::SshKey { username, with_passphrase }) => {
            assert_eq!(username, "git");
            assert!(with_passphrase);
        },
        _ => panic!("expected an SSH key"),
    }
    assert!(matches!(credential_plan(&desktop(None, None, false, None), None), Err(CredentialError::NotSet)));
    assert!(matches!(credential_plan(&desktop(Some("HTTPS"), None, false, None), None), Err(CredentialError::NotSet)));
    assert!(matches!(credential_plan(&desktop(Some("SSH"), None, true, Some(false)), None), Err(CredentialError::NoUsernameInUrl)));
    assert!(matches!(credential_plan(&desktop(Some("SSH"), None, false, Some(false)), Some("git")), Err(CredentialError::NotSet)));
    assert!(matches!(credential_plan(&desktop(Some("SSH"), None, true, None), Some("git")), Err(CredentialError::NotSet)));
    assert!(matches!(credential_plan(&desktop(Some("FTP"), None, false, None), None), Err(CredentialError::UnknownType)));
    assert!(secret_found(true).is_ok());
    assert!(matches!(secret_found(false), Err(CredentialError::NotSet)));
}

#[test]
fn push_reports_become_errors() {
    assert_eq!(push_status_error(Some("rejected")), Some(String::from("Error(s) during push: rejected")));
    assert_eq!(push_status_error(None), None);
}

#[test]
fn storing_credentials_updates_the_preferences() {
    let mut c = DesktopConfig::new_default();
    apply_https_credentials(&mut c, String::from("ann"));
    assert_eq!(c.borrow_cred_type().as_deref(), Some("HTTPS"));
    assert_eq!(c.borrow_https_username().as_deref(), Some("ann"));
    let store = apply_ssh_credentials(&mut c, PathBuf::from("/k/id.pub"), PathBuf::from("/k/id"), "secret");
    assert!(store);
    assert_eq!(c.borrow_cred_type().as_deref(), Some("SSH"));
    assert_eq!(c.borrow_public_key_path().clone(), Some(PathBuf::from("/k/id.pub")));
    assert_eq!(c.borrow_private_key_path().clone(), Some(PathBuf::from("/k/id")));
    assert_eq!(*c.borrow_uses_passphrase(), Some(true));
    let store = apply_ssh_credentials(&mut c, PathBuf::from("/k/a"), PathBuf::from("/k/b"), "");
    assert!(!store);
    assert_eq!(*c.borrow_uses_passphrase(), Some(false));
}
