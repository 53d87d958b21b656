use std::collections::VecDeque;

use oxidized_git::backend::config_manager::Config as BackendConfig;
use oxidized_git::config_manager::Config;
use oxidized_git::git_manager::{
    file_info_from_patch, CommitDetails, CommitInfo, CommitInfoError, DiffLineKind, DiffLineRecord,
    FileLineInfo, InteractiveRebaseInfo, InteractiveRebaseOps, LineInfo, PatchLine,
};
use oxidized_git::parseable_info::{
    format_author_time, get_branch_info_list, get_files_changed_info_list, get_general_info, get_oid_refs,
    get_parseable_diff_delta, head_has_upstream, BranchInfo, BranchInfoTreeNode, BranchTarget, DeltaPath,
    DeltaRecord, DiffDeltaError, FailedLookup, Lookup, RefKind, RefRecord, RepoStateKind,
};

fn line(content: &[u8], origin: char) -> DiffLineRecord {
    DiffLineRecord { content: content.to_vec(), old_lineno: Some(3), new_lineno: None, origin }
}

#[test]
fn a_diff_line_keeps_its_numbers_and_escapes_its_text() {
    let info = FileLineInfo::from_diff_line(line(b"x < y\n", '-'), &String::from("rs")).ok().unwrap();
    assert_eq!(info.content, "x &lt; y");
    assert_eq!(info.file_type, "rs");
    assert_eq!(info.origin, '-');
    assert_eq!(info.old_lineno, Some(3));
    assert_eq!(info.new_lineno, None);
}

#[test]
fn a_file_diff_shows_hunks_and_lines() {
    let lines = vec![
        PatchLine { kind: DiffLineKind::FileHeader, line: line(b"diff --git a/src/a.rs b/src/a.rs\n", 'F') },
        PatchLine { kind: DiffLineKind::FileHeader, line: line(b"old mode 100644\n", 'F') },
        PatchLine { kind: DiffLineKind::HunkHeader, line: line(b"@@ -1 +1 @@\n", 'H') },
        PatchLine { kind: DiffLineKind::Content, line: line(b"-old\n", '-') },
        PatchLine { kind: DiffLineKind::Content, line: line(&[0xff, 0x0a], '+') },
    ];
    let info = file_info_from_patch(String::from("unstaged"), "src/a.rs", lines);
    assert_eq!(info.change_type, "unstaged");
    assert_eq!(info.file_lines.len(), 3);
    assert!(matches!(&info.file_lines[0], LineInfo::SomeSeparator(s) if s == "old mode 100644"));
    assert!(matches!(&info.file_lines[1], LineInfo::SomeSeparator(s) if s == "@@ -1 +1 @@"));
    match &info.file_lines[2] {
        LineInfo::SomeFileLineInfo(f) => {
            assert_eq!(f.content, "-old");
            assert_eq!(f.file_type, "rs");
        },
        _ => panic!("expected a file line"),
    }
}

fn details(author: Option<&str>, committer: Option<&str>, files: Vec<DeltaRecord>) -> CommitDetails {
    CommitDetails {
        sha: String::from("abc"),
        summary: Some(String::from("Add <tag>")),
        message: Some(String::from("Add <tag>\n\nBody & more")),
        author_name: author.map(String::from),
        author_time: 100,
        committer_name: committer.map(String::from),
        committer_time: 200,
        changed_files: files,
    }
}

#[test]
fn commit_descriptions_are_escaped() {
    let files = vec![DeltaRecord { status: 3, path: DeltaPath::Text(String::from("a.rs")) }];
    let info = CommitInfo::from_commit(details(Some("Ann <ann@x>"), Some("Bob"), files)).ok().unwrap();
    assert_eq!(info.sha, "abc");
    assert_eq!(info.summary, "Add &lt;tag&gt;");
    assert_eq!(info.message, "Add &lt;tag&gt;\n\nBody &amp; more");
    assert_eq!(info.author_name, "Ann &lt;ann@x&gt;");
    assert_eq!(info.committer_time, 200);
    assert_eq!(info.changed_files.len(), 1);
    assert_eq!(info.changed_files[0].get_status(), 3);
}

#[test]
fn commit_descriptions_report_the_first_unreadable_part() {
    assert!(matches!(CommitInfo::from_commit(details(None, None, vec![])), Err(CommitInfoError::AuthorName)));
    assert!(matches!(CommitInfo::from_commit(details(Some("a"), None, vec![])), Err(CommitInfoError::CommitterName)));
    let bad = vec![DeltaRecord { status: 1, path: DeltaPath::NotUnicode }];
    assert!(matches!(
        CommitInfo::from_commit(details(Some("a"), Some("b"), bad)),
        Err(CommitInfoError::ChangedFiles(DiffDeltaError::InvalidUnicode))
    ));
}

#[test]
fn interactive_rebase_records_are_copied() {
    let commits = vec![vec![(String::from("sha"), String::from("abc")), (String::from("summary"), String::from("s"))]];
    let info = InteractiveRebaseInfo::new(String::from("onto"), commits.clone());
    assert_eq!(info.onto_sha, "onto");
    let ops = InteractiveRebaseOps::from_parts(String::from("onto"), commits.clone());
    assert_eq!(ops.clone_onto_sha(), "onto");
    assert_eq!(ops.clone_commit_ops(), commits);
}

#[test]
fn names_are_grouped_by_commit() {
    let branches = vec![
        BranchTarget { is_head: true, shorthand: String::from("main"), target: Some(String::from("c1")), is_remote: false },
        BranchTarget { is_head: false, shorthand: String::from("origin/main"), target: Some(String::from("c0")), is_remote: true },
        BranchTarget { is_head: false, shorthand: String::from("empty"), target: None, is_remote: false },
    ];
    let tags = vec![(String::from("v1"), String::from("c1"))];
    let refs = get_oid_refs(branches, None, tags);
    assert_eq!(refs.len(), 2);
    assert_eq!(refs[0].0, "c1");
    assert_eq!(refs[0].1, vec![(String::from("* main"), String::from("local")), (String::from("v1"), String::from("tag"))]);
    assert_eq!(refs[1].0, "c0");
    assert_eq!(refs[1].1, vec![(String::from("origin/main"), String::from("remote"))]);
    let detached = get_oid_refs(vec![], Some(String::from("c9")), vec![]);
    assert_eq!(detached, vec![(String::from("c9"), vec![(String::from("* HEAD"), String::from("local"))])]);
}

fn reference(shorthand: &str, kind: RefKind, is_head: bool) -> RefRecord {
    RefRecord {
        target_sha: String::from("c1"),
        shorthand: shorthand.to_string(),
        full_name: format!("refs/x/{}", shorthand),
        kind,
        is_head,
        upstream: Some((1, 2)),
    }
}

#[test]
fn branches_form_trees_by_name() {
    let refs = vec![
        reference("feature/x", RefKind::Branch, false),
        reference("feature/y", RefKind::Branch, true),
        reference("origin/HEAD", RefKind::Remote, false),
        reference("origin/main", RefKind::Remote, false),
        reference("v1", RefKind::Tag, false),
    ];
    let info = get_branch_info_list(vec![String::from("origin"), String::from("upstream")], refs, vec![(0, String::from("wip"))]);
    let local = &info.local_branch_info_tree;
    assert_eq!(local.text, "");
    assert_eq!(local.children.len(), 1);
    assert_eq!(local.children[0].text, "feature");
    assert!(local.children[0].branch_info.is_none());
    assert_eq!(local.children[0].children.len(), 2);
    let y = local.children[0].children[1].branch_info.as_ref().unwrap();
    assert!(y.is_head);
    assert_eq!(y.branch_shorthand, "feature/y");
    let remote = &info.remote_branch_info_tree;
    assert_eq!(remote.children.len(), 2);
    assert_eq!(remote.children[0].text, "origin");
    assert_eq!(remote.children[0].children.len(), 1);
    assert_eq!(remote.children[0].children[0].text, "main");
    assert_eq!(remote.children[1].text, "upstream");
    assert_eq!(info.tag_branch_info_tree.children[0].text, "v1");
    assert_eq!(info.stash_info_list[0].message, "0: wip");
}

#[test]
fn a_branch_without_upstream_is_neither_ahead_nor_behind() {
    let mut lone = reference("lone", RefKind::Branch, false);
    lone.upstream = None;
    let followed = reference("followed", RefKind::Branch, false);
    let info = get_branch_info_list(vec![], vec![lone, followed], vec![]);
    let lone_info = info.local_branch_info_tree.children[0].branch_info.as_ref().unwrap();
    assert!(!lone_info.has_upstream);
    assert_eq!((lone_info.ahead, lone_info.behind), (0, 0));
    let followed_info = info.local_branch_info_tree.children[1].branch_info.as_ref().unwrap();
    assert!(followed_info.has_upstream);
    assert_eq!((followed_info.ahead, followed_info.behind), (1, 2));
}

fn empty_root() -> BranchInfoTreeNode {
    get_branch_info_list(vec![], vec![], vec![]).local_branch_info_tree
}

fn branch(name: &str) -> BranchInfo {
    BranchInfo::new(String::from("c1"), name.to_string(), format!("refs/heads/{}", name), false, String::from("local"), 0, 0, false)
}

#[test]
fn inserting_a_branch_makes_its_path() {
    let mut root = empty_root();
    root.insert_split_shorthand(VecDeque::from(vec![String::from("a"), String::from("b")]), Some(branch("a/b")));
    root.insert_split_shorthand(VecDeque::from(vec![String::from("a"), String::from("c")]), Some(branch("a/c")));
    assert_eq!(root.text, "");
    assert_eq!(root.children.len(), 1);
    assert_eq!(root.children[0].children.len(), 2);
    assert_eq!(root.children[0].children[0].branch_info.as_ref().unwrap().branch_shorthand, "a/b");
    assert_eq!(root.children[0].children[1].text, "c");
}

#[test]
fn inserting_an_existing_path_adds_no_sibling_and_keeps_the_nodes() {
    let mut root = empty_root();
    root.insert_split_shorthand(VecDeque::from(vec![String::from("a"), String::from("b")]), Some(branch("a/b")));
    root.insert_split_shorthand(VecDeque::from(vec![String::from("a"), String::from("b")]), Some(branch("other")));
    root.insert_split_shorthand(VecDeque::from(vec![String::from("z")]), Some(branch("z")));
    assert_eq!(root.children.len(), 2);
    assert_eq!(root.children[0].text, "a");
    assert_eq!(root.children[0].children.len(), 1);
    assert_eq!(root.children[0].children[0].branch_info.as_ref().unwrap().branch_shorthand, "a/b");
    assert_eq!(root.children[1].text, "z");
}

#[test]
fn general_info_lists_the_repository_state() {
    let info = get_general_info(
        String::from("proj"),
        Some(String::from("c1")),
        Lookup::Found,
        Lookup::Found,
        Lookup::NotFound,
        RepoStateKind::RebaseMerge,
    )
    .ok()
    .unwrap();
    let expected: Vec<(String, String)> = vec![
        ("project_name", "proj"),
        ("head_sha", "c1"),
        ("head_has_upstream", "false"),
        ("is_cherrypicking", "false"),
        ("is_reverting", "false"),
        ("is_merging", "false"),
        ("is_rebasing", "true"),
    ]
    .into_iter()
    .map(|(k, v)| (k.to_string(), v.to_string()))
    .collect();
    assert_eq!(info, expected);
    assert!(matches!(head_has_upstream(Lookup::Failed, Lookup::Found, Lookup::Found), Err(FailedLookup::Head)));
    assert!(matches!(head_has_upstream(Lookup::UnbornBranch, Lookup::Failed, Lookup::Failed), Ok(false)));
    assert!(matches!(head_has_upstream(Lookup::Found, Lookup::Found, Lookup::Failed), Err(FailedLookup::Upstream)));
}

#[test]
fn author_times_are_relative_to_today() {
    assert_eq!(format_author_time(0, "2024-01-02", "10:00"), "Today 10:00");
    assert_eq!(format_author_time(1, "2024-01-02", "10:00"), "Yesterday 10:00");
    assert_eq!(format_author_time(5, "2024-01-02", "10:00"), "2024-01-02 10:00");
}

#[test]
fn changed_files_need_unicode_paths() {
    let ok = get_parseable_diff_delta(vec![
        DeltaRecord { status: 1, path: DeltaPath::Text(String::from("a")) },
        DeltaRecord { status: 2, path: DeltaPath::Text(String::from("b")) },
    ])
    .ok()
    .unwrap();
    assert_eq!(ok.len(), 2);
    assert_eq!(ok[1].get_path(), "b");
    assert!(matches!(
        get_parseable_diff_delta(vec![DeltaRecord { status: 1, path: DeltaPath::Missing }]),
        Err(DiffDeltaError::MissingPath)
    ));
    let info = get_files_changed_info_list(2, 1, vec![DeltaRecord { status: 7, path: DeltaPath::Text(String::from("n")) }], vec![])
        .ok()
        .unwrap();
    assert_eq!(info.files_changed, 3);
    assert_eq!(info.unstaged_files.len(), 1);
    assert!(info.staged_files.is_empty());
}

#[test]
fn preferences_start_with_a_cut_off_graph() {
    let c = Config::new_default();
    assert_eq!(*c.borrow_limit_commits(), Some(true));
    assert_eq!(*c.borrow_commit_count(), Some(2000));
    assert_eq!(*c.borrow_username(), None);
    let mut d = Config::new_default();
    d.set_username(String::from("ann"));
    assert_eq!(d.borrow_username().as_deref(), Some("ann"));
    let b = BackendConfig::new_default();
    assert!(b.get_limit_commits());
    assert_eq!(b.get_commit_count(), 2000);
}
