//! The decisions the Git back end takes between its repository calls: what
//! a pull does given the merge analysis, what a rebase does after each
//! step, which diff a request is about, how a file is staged, unstaged or
//! discarded, and where a push or a tag goes.
use vstd::prelude::*;
use crate::text::{owned, split_on, split_chars, str_eq};

verus! {

/// What the merge analysis says of merging the upstream into HEAD.
pub struct MergeAnalysis {
    pub is_none: bool,
    pub is_unborn: bool,
    pub is_up_to_date: bool,
    pub is_fast_forward: bool,
    pub is_normal: bool,
}

/// The merge preferences of the repository's configuration.
pub struct MergePreference {
    pub is_no_fast_forward: bool,
    pub is_fastforward_only: bool,
}

/// Why a pull is refused.
pub enum PullRefusal {
    /// No merge is possible at all.
    NoMergePossible,
    /// HEAD points at no commit yet.
    UnbornHead,
    /// A merge is possible but the preferences forbid the way it would go.
    PreferencesPreventPull,
    /// The analysis allows no decision.
    Undetermined,
}

/// The message shown when a pull is refused.
pub open spec fn pull_refusal_text(e: PullRefusal) -> Seq<char> {
    match e {
        PullRefusal::NoMergePossible => "Merge analysis indicates no merge is possible. If you're reading this, your repository may be corrupted."@,
        PullRefusal::UnbornHead => "The HEAD of the current repository is “unborn” and does not point to a valid commit. No pull can be performed, but the caller may wish to simply set HEAD to the target commit(s)."@,
        PullRefusal::PreferencesPreventPull => "It looks like a pull may be possible, but your MergePreference(s) are preventing it. If you have merge.ff or pull.ff set to 'only' or 'false', consider unsetting it by running 'git config --global --unset merge.ff' or 'git config --global --unset pull.ff'"@,
        PullRefusal::Undetermined => "Merge analysis failed to make any determination on how to proceed with the pull. If you're reading this, your repository may be corrupted."@,
    }
}

impl PullRefusal {
    /// The message shown for this error (see `pull_refusal_text`).
    pub fn message(&self) -> (r: String)
        ensures
            r@ == pull_refusal_text(*self),
    {
        match self {
            PullRefusal::NoMergePossible => owned("Merge analysis indicates no merge is possible. If you're reading this, your repository may be corrupted."),
            PullRefusal::UnbornHead => owned("The HEAD of the current repository is “unborn” and does not point to a valid commit. No pull can be performed, but the caller may wish to simply set HEAD to the target commit(s)."),
            PullRefusal::PreferencesPreventPull => owned("It looks like a pull may be possible, but your MergePreference(s) are preventing it. If you have merge.ff or pull.ff set to 'only' or 'false', consider unsetting it by running 'git config --global --unset merge.ff' or 'git config --global --unset pull.ff'"),
            PullRefusal::Undetermined => owned("Merge analysis failed to make any determination on how to proceed with the pull. If you're reading this, your repository may be corrupted."),
        }
    }
}

/// What a pull does.
pub enum PullStep {
    /// Nothing: the branch is up to date.
    UpToDate,
    /// Moves the branch and the working tree to the upstream commit.
    FastForward,
    /// Rebases the branch onto the upstream commit.
    Rebase,
    /// Refuses, for the given reason.
    Refuse(PullRefusal),
}

/// The step a pull takes, checking the analysis in this order: no merge,
/// unborn HEAD, up to date, fast-forward allowed, normal merge allowed,
/// forbidden by the preferences, undetermined.
pub open spec fn pull_step_of(ma: MergeAnalysis, mp: MergePreference) -> PullStep {
    if ma.is_none {
        PullStep::Refuse(PullRefusal::NoMergePossible)
    } else if ma.is_unborn {
        PullStep::Refuse(PullRefusal::UnbornHead)
    } else if ma.is_up_to_date {
        PullStep::UpToDate
    } else if ma.is_fast_forward && !mp.is_no_fast_forward {
        PullStep::FastForward
    } else if ma.is_normal && !mp.is_fastforward_only {
        PullStep::Rebase
    } else if (ma.is_fast_forward && mp.is_no_fast_forward) || (ma.is_normal && mp.is_fastforward_only) {
        PullStep::Refuse(PullRefusal::PreferencesPreventPull)
    } else {
        PullStep::Refuse(PullRefusal::Undetermined)
    }
}

/// Decides what a pull does (see `pull_step_of`).
pub fn pull_step(ma: MergeAnalysis, mp: MergePreference) -> (r: PullStep)
    ensures
        r == pull_step_of(ma, mp),
{
    if ma.is_none {
        PullStep::Refuse(PullRefusal::NoMergePossible)
    } else if ma.is_unborn {
        PullStep::Refuse(PullRefusal::UnbornHead)
    } else if ma.is_up_to_date {
        PullStep::UpToDate
    } else if ma.is_fast_forward && !mp.is_no_fast_forward {
        PullStep::FastForward
    } else if ma.is_normal && !mp.is_fastforward_only {
        PullStep::Rebase
    } else if (ma.is_fast_forward && mp.is_no_fast_forward) || (ma.is_normal && mp.is_fastforward_only) {
        PullStep::Refuse(PullRefusal::PreferencesPreventPull)
    } else {
        PullStep::Refuse(PullRefusal::Undetermined)
    }
}

/// A pull that can move the branch does so by a fast-forward or a rebase:
/// when the branch is neither up to date nor blocked, a fast-forward is
/// taken whenever it is possible, and a rebase otherwise, as long as the
/// preferences forbid neither.
pub proof fn lemma_pull_fast_forwards_or_rebases(ma: MergeAnalysis, mp: MergePreference)
    requires
        !ma.is_none,
        !ma.is_unborn,
        !ma.is_up_to_date,
        ma.is_fast_forward || ma.is_normal,
        !mp.is_no_fast_forward,
        !mp.is_fastforward_only,
    ensures
        ma.is_fast_forward ==> pull_step_of(ma, mp) == PullStep::FastForward,
        !ma.is_fast_forward ==> pull_step_of(ma, mp) == PullStep::Rebase,
{
}

/// What a rebase does after applying a step.
pub enum RebaseStep {
    /// Stops so the user can resolve conflicts or leftover changes.
    Pause,
    /// Commits the staged result and goes on.
    Commit,
    /// Goes on: the step left nothing to commit.
    Proceed,
}

/// Decides what a rebase does after a step: it pauses on conflicts or
/// unstaged changes, commits staged changes, and otherwise goes on.
pub fn rebase_step_action(has_conflicts: bool, has_unstaged_changes: bool, has_staged_changes: bool) -> (r: RebaseStep)
    ensures
        r == (if has_conflicts || has_unstaged_changes {
            RebaseStep::Pause
        } else if has_staged_changes {
            RebaseStep::Commit
        } else {
            RebaseStep::Proceed
        }),
{
    if has_conflicts || has_unstaged_changes {
        RebaseStep::Pause
    } else if has_staged_changes {
        RebaseStep::Commit
    } else {
        RebaseStep::Proceed
    }
}

/// Whether a pull that rebases is aborted after a step: when the step left
/// conflicts or any change, the local branch differs from the upstream.
pub fn pull_rebase_diverged(has_conflicts: bool, has_unstaged_changes: bool, has_staged_changes: bool) -> (b: bool)
    ensures
        b == (has_conflicts || has_unstaged_changes || has_staged_changes),
{
    has_conflicts || has_unstaged_changes || has_staged_changes
}

/// The error a pull that rebases ends with when a step diverged (see
/// `pull_rebase_diverged`); none when it did not.
pub fn pull_rebase_abort_error(has_conflicts: bool, has_unstaged_changes: bool, has_staged_changes: bool) -> (r: Option<String>)
    ensures
        r is Some <==> (has_conflicts || has_unstaged_changes || has_staged_changes),
        r matches Some(m) ==> m@ == "Pull by rebase aborted because changes on local branch differ from remote branch!"@,
{
    if pull_rebase_diverged(has_conflicts, has_unstaged_changes, has_staged_changes) {
        Some(owned("Pull by rebase aborted because changes on local branch differ from remote branch!"))
    } else {
        None
    }
}

/// What follows a merge.
pub enum MergeFollowUp {
    /// The merge stopped on conflicts; the user resolves them.
    LeaveForUser,
    /// The merge commit is made.
    Commit,
    /// The merge changed nothing, which is reported as an error.
    NothingToCommit,
}

/// Decides what follows a merge: nothing while it has conflicts, else a
/// merge commit when something is staged, else an error.
pub fn merge_follow_up(has_conflicts: bool, has_staged_changes: bool) -> (r: MergeFollowUp)
    ensures
        r == (if has_conflicts {
            MergeFollowUp::LeaveForUser
        } else if has_staged_changes {
            MergeFollowUp::Commit
        } else {
            MergeFollowUp::NothingToCommit
        }),
{
    if has_conflicts {
        MergeFollowUp::LeaveForUser
    } else if has_staged_changes {
        MergeFollowUp::Commit
    } else {
        MergeFollowUp::NothingToCommit
    }
}

/// What follows a cherry-pick or a revert: whether the operation's state is
/// cleaned up and whether its result is committed.
pub struct ApplyFollowUp {
    pub cleanup_state: bool,
    pub commit: bool,
}

/// Decides what follows a cherry-pick or a revert: without conflicts the
/// state is cleaned up, and the result is committed when the user asked for
/// it and something is staged.
pub fn apply_follow_up(is_committing: bool, has_conflicts: bool, has_staged_changes: bool) -> (r: ApplyFollowUp)
    ensures
        r == (ApplyFollowUp {
            cleanup_state: !has_conflicts,
            commit: is_committing && !has_conflicts && has_staged_changes,
        }),
{
    ApplyFollowUp { cleanup_state: !has_conflicts, commit: is_committing && !has_conflicts && has_staged_changes }
}

/// The status number of a deleted file.
pub const STATUS_DELETED: u8 = 2;

/// The status number of a modified file.
pub const STATUS_MODIFIED: u8 = 3;

/// The status number of a renamed file.
pub const STATUS_RENAMED: u8 = 4;

/// The status number of an untracked file.
pub const STATUS_UNTRACKED: u8 = 7;

/// The status number of a conflicted file.
pub const STATUS_CONFLICTED: u8 = 10;

/// How a path is staged.
pub enum StageAction {
    /// The path leaves the index (the file was deleted).
    RemovePath,
    /// The path's current content enters the index.
    AddPath,
}

/// Decides how a file with the given status is staged.
pub fn stage_action(status: u8) -> (r: StageAction)
    ensures
        r == (if status == STATUS_DELETED {
            StageAction::RemovePath
        } else {
            StageAction::AddPath
        }),
{
    if status == STATUS_DELETED {
        StageAction::RemovePath
    } else {
        StageAction::AddPath
    }
}

/// How a path is unstaged.
pub enum UnstageAction {
    /// The index entry is reset to HEAD's (the file was deleted or modified).
    ResetToHead,
    /// The path leaves the index (the file is new there).
    RemovePath,
}

/// Decides how a file with the given status is unstaged.
pub fn unstage_action(status: u8) -> (r: UnstageAction)
    ensures
        r == (if status == STATUS_DELETED || status == STATUS_MODIFIED {
            UnstageAction::ResetToHead
        } else {
            UnstageAction::RemovePath
        }),
{
    if status == STATUS_DELETED || status == STATUS_MODIFIED {
        UnstageAction::ResetToHead
    } else {
        UnstageAction::RemovePath
    }
}

/// Which changes a request is about.
pub enum DiffSource {
    Unstaged,
    Staged,
    Commit,
}

/// The changes a request names: `"unstaged"`, `"staged"` or `"commit"`.
pub open spec fn diff_source_of(change_type: Seq<char>) -> Option<DiffSource> {
    if change_type == "unstaged"@ {
        Some(DiffSource::Unstaged)
    } else if change_type == "staged"@ {
        Some(DiffSource::Staged)
    } else if change_type == "commit"@ {
        Some(DiffSource::Commit)
    } else {
        None
    }
}

/// Reads which changes a request is about (see `diff_source_of`); none for
/// any other text.
pub fn diff_source(change_type: &str) -> (r: Option<DiffSource>)
    ensures
        r == diff_source_of(change_type@),
{
    if str_eq(change_type, "unstaged") {
        Some(DiffSource::Unstaged)
    } else if str_eq(change_type, "staged") {
        Some(DiffSource::Staged)
    } else if str_eq(change_type, "commit") {
        Some(DiffSource::Commit)
    } else {
        None
    }
}

/// The first position at or after `i` whose path is `path`.
pub open spec fn first_path_from(paths: Seq<Option<Seq<char>>>, path: Seq<char>, i: int) -> Option<int>
    decreases paths.len() - i,
{
    if i < 0 || i >= paths.len() {
        None
    } else if paths[i] == Some(path) {
        Some(i)
    } else {
        first_path_from(paths, path, i + 1)
    }
}

/// The position of the first file of a diff whose new path is `path`; a
/// file whose path is absent or not valid text never matches.
pub fn get_file_index_in_diff(paths: &Vec<Option<String>>, path: &str) -> (r: Option<usize>)
    ensures
        match first_path_from(paths.deep_view(), path@, 0) {
            Some(i) => r == Some(i as usize),
            None => r is None,
        },
{
    let mut i: usize = 0;
    while i < paths.len()
        invariant
            i <= paths@.len(),
            first_path_from(paths.deep_view(), path@, 0) == first_path_from(paths.deep_view(), path@, i as int),
        decreases paths@.len() - i,
    {
        match &paths[i] {
            Some(p) => {
                if str_eq(p.as_str(), path) {
                    return Some(i);
                }
            },
            None => {},
        }
        i = i + 1;
    }
    None
}

/// Which diff shows a commit's changes.
pub enum CommitDiffChoice {
    /// The diff against the parent at this position.
    Parent(usize),
    /// The diff against nothing: the commit has no parent.
    NoParent,
}

/// The first position at or after `i` whose diff changes a file.
pub open spec fn first_nonempty_from(files_changed: Seq<usize>, i: int) -> Option<int>
    decreases files_changed.len() - i,
{
    if i < 0 || i >= files_changed.len() {
        None
    } else if files_changed[i] > 0 {
        Some(i)
    } else {
        first_nonempty_from(files_changed, i + 1)
    }
}

/// The diff that shows a commit's changes, given how many files its diff
/// against each parent changes: the first that changes any (for a merge
/// commit, the diff against the branch merged into is empty); else, the
/// last parent's; with no parent, the diff against nothing.
pub open spec fn commit_diff_of(files_changed: Seq<usize>) -> CommitDiffChoice {
    match first_nonempty_from(files_changed, 0) {
        Some(i) => CommitDiffChoice::Parent(i as usize),
        None => if files_changed.len() > 0 {
            CommitDiffChoice::Parent((files_changed.len() - 1) as usize)
        } else {
            CommitDiffChoice::NoParent
        },
    }
}

/// Chooses the diff that shows a commit's changes (see `commit_diff_of`).
pub fn commit_diff_choice(files_changed_per_parent: &Vec<usize>) -> (r: CommitDiffChoice)
    ensures
        r == commit_diff_of(files_changed_per_parent@),
{
    let mut i: usize = 0;
    while i < files_changed_per_parent.len()
        invariant
            i <= files_changed_per_parent@.len(),
            first_nonempty_from(files_changed_per_parent@, 0) == first_nonempty_from(files_changed_per_parent@, i as int),
        decreases files_changed_per_parent@.len() - i,
    {
        if files_changed_per_parent[i] > 0 {
            return CommitDiffChoice::Parent(i);
        }
        i = i + 1;
    }
    if files_changed_per_parent.len() > 0 {
        CommitDiffChoice::Parent(files_changed_per_parent.len() - 1)
    } else {
        CommitDiffChoice::NoParent
    }
}

/// Whether any of the statuses is that of a conflicted file.
pub fn any_conflicted(statuses: &Vec<u8>) -> (b: bool)
    ensures
        b == statuses@.contains(STATUS_CONFLICTED),
{
    let mut i: usize = 0;
    while i < statuses.len()
        invariant
            i <= statuses@.len(),
            forall|j: int| 0 <= j < i ==> statuses@[j] != STATUS_CONFLICTED,
        decreases statuses@.len() - i,
    {
        if statuses[i] == STATUS_CONFLICTED {
            proof {
                assert(statuses@[i as int] == STATUS_CONFLICTED);
            }
            return true;
        }
        i = i + 1;
    }
    false
}

/// How a change is discarded.
pub enum DiscardPlan {
    /// An untracked file is staged first, then checked out from HEAD.
    StageThenCheckout,
    /// A renamed file is checked out together with its old path, found in
    /// the given changes.
    CheckoutWithOldPath(DiffSource),
    /// The path is checked out from HEAD.
    Checkout,
}

/// Why a change cannot be discarded.
pub enum DiscardError {
    /// A renamed file that is neither staged nor unstaged.
    RenameOutsideChanges,
}

/// The message shown when changes cannot be discarded.
pub open spec fn discard_error_text(e: DiscardError) -> Seq<char> {
    match e {
        DiscardError::RenameOutsideChanges => "Attempting to discard a renamed file that's neither staged nor unstaged. This error should technically be impossible."@,
    }
}

impl DiscardError {
    /// The message shown for this error (see `discard_error_text`).
    pub fn message(&self) -> (r: String)
        ensures
            r@ == discard_error_text(*self),
    {
        match self {
            DiscardError::RenameOutsideChanges => owned("Attempting to discard a renamed file that's neither staged nor unstaged. This error should technically be impossible."),
        }
    }
}

/// The plan that discards a change of the given kind and status.
pub open spec fn discard_plan_of(change_type: Seq<char>, status: u8) -> Result<DiscardPlan, DiscardError> {
    if change_type == "unstaged"@ && status == STATUS_UNTRACKED {
        Ok(DiscardPlan::StageThenCheckout)
    } else if status == STATUS_RENAMED {
        if change_type == "unstaged"@ {
            Ok(DiscardPlan::CheckoutWithOldPath(DiffSource::Unstaged))
        } else if change_type == "staged"@ {
            Ok(DiscardPlan::CheckoutWithOldPath(DiffSource::Staged))
        } else {
            Err(DiscardError::RenameOutsideChanges)
        }
    } else {
        Ok(DiscardPlan::Checkout)
    }
}

/// Plans how a change is discarded (see `discard_plan_of`).
pub fn discard_plan(change_type: &str, status: u8) -> (r: Result<DiscardPlan, DiscardError>)
    ensures
        r == discard_plan_of(change_type@, status),
{
    let unstaged = str_eq(change_type, "unstaged");
    if unstaged && status == STATUS_UNTRACKED {
        Ok(DiscardPlan::StageThenCheckout)
    } else if status == STATUS_RENAMED {
        if unstaged {
            Ok(DiscardPlan::CheckoutWithOldPath(DiffSource::Unstaged))
        } else if str_eq(change_type, "staged") {
            Ok(DiscardPlan::CheckoutWithOldPath(DiffSource::Staged))
        } else {
            Err(DiscardError::RenameOutsideChanges)
        }
    } else {
        Ok(DiscardPlan::Checkout)
    }
}

/// Why a tag has no commit to go on.
pub enum TagTargetError {
    /// No sha was given and HEAD points at no commit.
    NoHeadTarget,
}

/// The message shown when a tag has no commit to go on.
pub open spec fn tag_target_error_text(e: TagTargetError) -> Seq<char> {
    match e {
        TagTargetError::NoHeadTarget => "HEAD has no target to create a tag on."@,
    }
}

impl TagTargetError {
    /// The message shown for this error (see `tag_target_error_text`).
    pub fn message(&self) -> (r: String)
        ensures
            r@ == tag_target_error_text(*self),
    {
        match self {
            TagTargetError::NoHeadTarget => owned("HEAD has no target to create a tag on."),
        }
    }
}

/// The commit a new tag goes on: the given sha, or HEAD's commit when the
/// sha is empty.
pub fn tag_target(tag_sha: &str, head_target: Option<String>) -> (r: Result<String, TagTargetError>)
    ensures
        tag_sha@.len() != 0 ==> (r matches Ok(s) && s@ == tag_sha@),
        tag_sha@.len() == 0 ==> match head_target {
            Some(h) => r matches Ok(s) && s@ == h@,
            None => r matches Err(e) && e is NoHeadTarget,
        },
{
    if crate::text::chars_of(tag_sha).len() != 0 {
        Ok(crate::text::owned(tag_sha))
    } else {
        match head_target {
            Some(h) => Ok(h),
            None => Err(TagTargetError::NoHeadTarget),
        }
    }
}

/// The message a stash is saved with: none for an empty message.
pub fn stash_message(message: &str) -> (r: Option<String>)
    ensures
        message@.len() == 0 ==> r is None,
        message@.len() != 0 ==> (r matches Some(s) && s@ == message@),
{
    if crate::text::chars_of(message).len() != 0 {
        Some(crate::text::owned(message))
    } else {
        None
    }
}

/// Why a push has no remote to go to.
pub enum PushRemoteError {
    /// The branch has no upstream and no remote was chosen.
    NoRemote,
}

/// The message shown when a push has nowhere to go.
pub open spec fn push_remote_error_text(e: PushRemoteError) -> Seq<char> {
    match e {
        PushRemoteError::NoRemote => "Attempted to push with no upstream branch and no specified remote."@,
    }
}

impl PushRemoteError {
    /// The message shown for this error (see `push_remote_error_text`).
    pub fn message(&self) -> (r: String)
        ensures
            r@ == push_remote_error_text(*self),
    {
        match self {
            PushRemoteError::NoRemote => owned("Attempted to push with no upstream branch and no specified remote."),
        }
    }
}

/// The remote a push goes to and whether it creates the remote branch: the
/// remote of the branch's upstream when it has one; else the remote chosen
/// by the user, creating the branch there.
pub fn push_remote(upstream_remote: Option<String>, selected_remote: Option<String>) -> (r: Result<(String, bool), PushRemoteError>)
    ensures
        match upstream_remote {
            Some(u) => r matches Ok(p) && p.0@ == u@ && !p.1,
            None => match selected_remote {
                Some(s) => r matches Ok(p) && p.0@ == s@ && p.1,
                None => r matches Err(e) && e is NoRemote,
            },
        },
{
    match upstream_remote {
        Some(u) => Ok((u, false)),
        None => match selected_remote {
            Some(s) => Ok((s, true)),
            None => Err(PushRemoteError::NoRemote),
        },
    }
}


/// The number of bytes UTF-8 takes for `c`.
pub open spec fn utf8_width(c: char) -> int {
    if (c as u32) < 0x80 {
        1
    } else if (c as u32) < 0x800 {
        2
    } else if (c as u32) < 0x10000 {
        3
    } else {
        4
    }
}

/// The number of bytes the last `k` characters of `s` take.
pub open spec fn tail_width(s: Seq<char>, k: int) -> int
    decreases k,
{
    if k <= 0 || k > s.len() {
        0
    } else {
        utf8_width(s[s.len() - k]) + tail_width(s, k - 1)
    }
}

/// The last `/`-separated piece of a clone URL.
pub open spec fn url_last_piece(clone_url: Seq<char>) -> Seq<char> {
    split_on(clone_url, '/').last()
}

/// The last piece of the URL ends in characters that take exactly four
/// bytes (such as `.git`), so that cutting four bytes off cuts whole
/// characters.
pub open spec fn has_four_byte_suffix(clone_url: Seq<char>) -> bool {
    exists|k: int| 0 <= k <= url_last_piece(clone_url).len() && #[trigger] tail_width(url_last_piece(clone_url), k) == 4
}

/// The name of a cloned project: the last piece of its URL without its
/// last four bytes (its `.git` ending).
pub open spec fn project_name_text(clone_url: Seq<char>) -> Seq<char> {
    let last = url_last_piece(clone_url);
    let k = choose|k: int| 0 <= k <= last.len() && #[trigger] tail_width(last, k) == 4;
    last.subrange(0, last.len() - k)
}

proof fn lemma_tail_width_grows(s: Seq<char>, k: int, m: int)
    requires
        0 <= k < m <= s.len(),
    ensures
        tail_width(s, k) < tail_width(s, m),
    decreases m - k,
{
    if k + 1 < m {
        lemma_tail_width_grows(s, k, m - 1);
    }
}

fn char_width(c: char) -> (w: usize)
    ensures
        w == utf8_width(c),
{
    let n = c as u32;
    if n < 0x80 {
        1
    } else if n < 0x800 {
        2
    } else if n < 0x10000 {
        3
    } else {
        4
    }
}

/// Names the directory a repository is cloned into (see
/// `project_name_text`).
pub fn project_name(clone_url: &str) -> (r: String)
    requires
        has_four_byte_suffix(clone_url@),
    ensures
        r@ == project_name_text(clone_url@),
{
    let pieces = split_chars(clone_url, '/');
    proof {
        crate::text::lemma_split_on_len(clone_url@, '/');
    }
    let last = &pieces[pieces.len() - 1];
    let cs = crate::text::chars_of(last.as_str());
    let ghost l = url_last_piece(clone_url@);
    assert(cs@ == l);
    let ghost w = choose|w: int| 0 <= w <= l.len() && #[trigger] tail_width(l, w) == 4;
    assert(0 <= w <= l.len() && tail_width(l, w) == 4);
    let mut k: usize = 0;
    let mut width: usize = 0;
    while width < 4
        invariant
            cs@ == l,
            0 <= w <= l.len(),
            tail_width(l, w) == 4,
            0 <= k <= w,
            width == tail_width(l, k as int),
        decreases w - k,
    {
        proof {
            if w == k {
                assert(false);
            }
        }
        let c = cs[cs.len() - 1 - k];
        width = width + char_width(c);
        k = k + 1;
        proof {
            if k > w {
                lemma_tail_width_grows(l, w, k as int);
            }
        }
    }
    proof {
        if k < w {
            lemma_tail_width_grows(l, k as int, w);
        }
        assert(w == k);
    }
    let mut out = String::new();
    let mut i: usize = 0;
    let end = cs.len() - k;
    while i < end
        invariant
            end == l.len() - k,
            end <= cs@.len(),
            i <= end,
            out@ == cs@.subrange(0, i as int),
        decreases end - i,
    {
        crate::text::string_push(&mut out, cs[i]);
        i = i + 1;
        proof {
            assert(out@ =~= cs@.subrange(0, i as int));
        }
    }
    out
}

} // verus!
