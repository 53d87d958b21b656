use oxidized_git::backend::svg_row::{RowLinkError, SVGRow as BackendRow};
use oxidized_git::git_manager::credentials::CredentialError;
use oxidized_git::git_manager::payload::{
    apply_stash_request, checkout_remote_choice, checkout_remote_request, commit_op_sha, file_diff_request,
    push_options, read_fields, read_string, reset_request, tag_request, RequestError,
};
use oxidized_git::git_manager::plans::{pull_rebase_abort_error, DiffSource, PullRefusal, PushRemoteError, TagTargetError};
use oxidized_git::git_manager::revwalk::RevwalkConfigError;
use oxidized_git::git_manager::ResetKind;
use oxidized_git::parseable_info::DiffDeltaError;

fn message_of<T>(r: Result<T, RequestError>) -> String {
    match r {
        Ok(_) => panic!("expected a refusal"),
        Err(e) => e.message(),
    }
}

#[test]
fn a_file_diff_request_reads_its_fields_in_order() {
    let (path, source, sha) =
        file_diff_request(r#"{"file_path":"src/a.rs","change_type":"commit","sha":"c1"}"#).ok().unwrap();
    assert_eq!(path, "src/a.rs");
    assert!(matches!(source, DiffSource::Commit));
    assert_eq!(sha, "c1");
    assert_eq!(
        message_of(file_diff_request(r#"{"change_type":"commit"}"#)),
        "file_path not returned from front-end payload."
    );
    assert_eq!(
        message_of(file_diff_request(r#"{"file_path":"a","change_type":"commit"}"#)),
        "sha not returned from front-end payload."
    );
    assert_eq!(
        message_of(file_diff_request(r#"{"file_path":"a","change_type":"other","sha":"c1"}"#)),
        "change_type not a valid type. Needs to be 'staged', 'unstaged', or 'commit'"
    );
    assert!(matches!(file_diff_request("not json"), Err(RequestError::Malformed(_))));
    assert!(matches!(file_diff_request(r#"{"file_path":1}"#), Err(RequestError::Malformed(_))));
}

#[test]
fn a_reset_request_names_its_kind() {
    let (sha, kind) = reset_request(r#"{"sha":"c1","type":"hard"}"#).ok().unwrap();
    assert_eq!(sha, "c1");
    assert!(matches!(kind, ResetKind::Hard));
    assert_eq!(
        message_of(reset_request(r#"{"sha":"c1","type":"gentle"}"#)),
        "type from front-end payload isn't a valid option. Choices are 'soft', 'mixed', or 'hard'"
    );
    assert_eq!(message_of(reset_request(r#"{"type":"soft"}"#)), "sha wasn't included in payload from the front-end.");
}

#[test]
fn push_options_default_to_an_unforced_push() {
    let (force, remote) = push_options(None).ok().unwrap();
    assert!(!force);
    assert!(remote.is_none());
    let (force, remote) = push_options(Some(r#"{"isForcePush":"true","selectedRemote":"origin"}"#)).ok().unwrap();
    assert!(force);
    assert_eq!(remote.unwrap(), "origin");
    assert_eq!(
        message_of(push_options(Some(r#"{"isForcePush":"false"}"#))),
        "selectedRemote not included in payload from front-end."
    );
}

#[test]
fn requests_read_flags_and_named_fields() {
    let (index, delete) = apply_stash_request(r#"{"index":"2","delete_stash":"true"}"#).ok().unwrap();
    assert_eq!(index, "2");
    assert!(delete);
    let (sha, light, name, message) =
        tag_request(r#"{"tag_sha":"","is_lightweight":"no","name":"v1","message":"m"}"#).ok().unwrap();
    assert_eq!((sha.as_str(), light, name.as_str(), message.as_str()), ("", false, "v1", "m"));
    let fields = checkout_remote_request(r#"{"branch_shorthand":"origin/x","full_branch_name":"refs/remotes/origin/x"}"#)
        .ok()
        .unwrap();
    assert_eq!(fields, vec![String::from("origin/x"), String::from("refs/remotes/origin/x")]);
    assert_eq!(
        message_of(checkout_remote_request(r#"{"full_branch_name":"f"}"#)),
        "JSON Data is missing branch_shorthand attribute."
    );
    let v = read_fields(r#"{"b":"2","a":"1"}"#, vec!["a", "b"], vec!["no a", "no b"]).ok().unwrap();
    assert_eq!(v, vec![String::from("1"), String::from("2")]);
}

#[test]
fn a_string_request_must_be_a_json_string() {
    assert_eq!(read_string(r#""path/to/repo""#).ok().unwrap(), "path/to/repo");
    assert_eq!(message_of(read_string("3")), "Invalid JSON String!");
    assert!(matches!(read_string("{"), Err(RequestError::Malformed(_))));
}

#[test]
fn the_first_tracking_branch_is_chosen() {
    let names = vec![None, Some(String::from("refs/remotes/origin/y")), Some(String::from("refs/remotes/origin/x")), Some(String::from("refs/remotes/origin/x"))];
    assert_eq!(checkout_remote_choice(&names, "refs/remotes/origin/x"), Some(2));
    assert_eq!(checkout_remote_choice(&names, "refs/remotes/origin/z"), None);
}

#[test]
fn a_rebase_operation_needs_a_sha() {
    let op = vec![(String::from("change"), String::from("pick")), (String::from("sha"), String::from("c1"))];
    assert_eq!(commit_op_sha(&op).ok().unwrap(), "c1");
    assert_eq!(message_of(commit_op_sha(&vec![])), "Payload from front-end is missing SHAs.");
}

#[test]
fn errors_carry_the_messages_shown() {
    assert_eq!(
        CredentialError::NotSet.message(),
        "Credentials are required to perform that operation. Please set your credentials in the menu bar under Security > Set Credentials"
    );
    assert_eq!(
        CredentialError::UnknownType.message(),
        "Credential Type unrecognized. Please set your credentials in the menu bar under Security > Set Credentials"
    );
    assert_eq!(RevwalkConfigError::MissingLimitCommits.message(), "limit_commits not present in config file!");
    assert_eq!(RevwalkConfigError::MissingCommitCount.message(), "commit_count not present in config file!");
    assert!(PullRefusal::PreferencesPreventPull.message().starts_with("It looks like a pull may be possible"));
    assert_eq!(
        pull_rebase_abort_error(false, true, false).unwrap(),
        "Pull by rebase aborted because changes on local branch differ from remote branch!"
    );
    assert!(pull_rebase_abort_error(false, false, false).is_none());
    assert_eq!(PushRemoteError::NoRemote.message(), "Attempted to push with no upstream branch and no specified remote.");
    assert_eq!(TagTargetError::NoHeadTarget.message(), "HEAD has no target to create a tag on.");
    assert_eq!(
        DiffDeltaError::InvalidUnicode.message(),
        "File Path uses invalid unicode. Not sure how your file system isn't corrupted..."
    );
}

#[test]
fn row_link_errors_read_as_before() {
    let row = BackendRow::new(String::from("a"), String::from("s"), vec![], vec![String::from("p")], vec![], 0, 0);
    let shas: Vec<String> = vec![];
    let e = row.get_parent_or_child_svg_row_values(&shas, "siblings").err().unwrap();
    assert!(matches!(e, RowLinkError::UnknownKind));
    assert_eq!(e.message(), "Please use parents or children for sha_type.");
    let e = row.get_parent_or_child_svg_row_values(&shas, "parents").err().unwrap();
    assert_eq!(e.message(), "Commit had parents or children that are not present from the revwalk.");
    assert!(row.get_parent_or_child_svg_row_values(&shas, "children").ok().unwrap().is_empty());
}
