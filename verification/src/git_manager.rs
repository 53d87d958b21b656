//! The rules the Git back end follows around its repository operations:
//! how diff lines and commits are turned into records for the front end,
//! how commit messages, branch names and refspecs are written, and which
//! step an operation takes next given what the repository reports.
pub mod credentials;
pub mod payload;
pub mod plans;
pub mod revwalk;

use vstd::prelude::*;
use vstd::utf8::{decode_utf8, valid_utf8};
use crate::parseable_info::{
    deltas_view, diff_delta_error_text, get_parseable_diff_delta, DeltaRecord, DiffDeltaError, ParseableDiffDelta,
    ParseableDiffDeltaView,
};
use crate::text::{
    concat_str, contains_text, encode_html_text, escape_html_text, join_strs, join_text, matches_at, owned,
    push_all, split_chars, split_on, split_str, split_text, str_contains, str_ends_with_char,
    str_eq, string_pop, utf8_to_string,
};

verus! {

/// Text without one trailing `'\n'`, and then without one trailing `'\r'`.
pub open spec fn trimmed(s: Seq<char>) -> Seq<char> {
    let a = if s.len() > 0 && s.last() == '\n' {
        s.drop_last()
    } else {
        s
    };
    if a.len() > 0 && a.last() == '\r' {
        a.drop_last()
    } else {
        a
    }
}

/// Removes one trailing line feed, then one trailing carriage return.
pub fn trim_newline(s: &mut String)
    ensures
        final(s)@ == trimmed(old(s)@),
{
    if str_ends_with_char(s.as_str(), '\n') {
        string_pop(s);
    }
    if str_ends_with_char(s.as_str(), '\r') {
        string_pop(s);
    }
}

/// Why the text of a diff line could not be read.
pub enum ContentError {
    /// The line is not valid UTF-8.
    InvalidUtf8,
}

/// The text of a diff line as the front end shows it: decoded, without its
/// line ending, and HTML-escaped.
pub open spec fn line_text(bytes: Seq<u8>) -> Seq<char> {
    escape_html_text(trimmed(decode_utf8(bytes)))
}

/// The text of a diff line (see `line_text`), or an error when its bytes
/// are not valid UTF-8.
pub fn get_content_from_diff_line(content: &[u8]) -> (r: Result<String, ContentError>)
    ensures
        valid_utf8(content@) ==> (r matches Ok(s) && s@ == line_text(content@)),
        !valid_utf8(content@) ==> r is Err,
{
    let mut content_string = match utf8_to_string(content) {
        Some(s) => s,
        None => {
            return Err(ContentError::InvalidUtf8);
        },
    };
    trim_newline(&mut content_string);
    let escaped = encode_html_text(content_string.as_str());
    Ok(escaped)
}

/// A line of a diff as read from the repository.
pub struct DiffLineRecord {
    pub content: Vec<u8>,
    pub old_lineno: Option<u32>,
    pub new_lineno: Option<u32>,
    pub origin: char,
}

/// What a `FileLineInfo` holds.
pub struct FileLineInfoView {
    pub old_lineno: Option<u32>,
    pub new_lineno: Option<u32>,
    pub file_type: Seq<char>,
    pub content: Seq<char>,
    pub origin: char,
}

/// One line of a file's diff: its numbers in the old and new file, the
/// file's extension, its text and its origin marker (`+`, `-`, ` `, ...).
pub struct FileLineInfo {
    pub old_lineno: Option<u32>,
    pub new_lineno: Option<u32>,
    pub file_type: String,
    pub content: String,
    pub origin: char,
}

impl View for FileLineInfo {
    type V = FileLineInfoView;

    open spec fn view(&self) -> FileLineInfoView {
        FileLineInfoView {
            old_lineno: self.old_lineno,
            new_lineno: self.new_lineno,
            file_type: self.file_type@,
            content: self.content@,
            origin: self.origin,
        }
    }
}

impl DeepView for FileLineInfo {
    type V = FileLineInfoView;

    open spec fn deep_view(&self) -> FileLineInfoView {
        self@
    }
}

/// The record made for a diff line of a file with extension `file_type`.
pub open spec fn file_line_view(line: DiffLineRecord, file_type: Seq<char>) -> FileLineInfoView {
    FileLineInfoView {
        old_lineno: line.old_lineno,
        new_lineno: line.new_lineno,
        file_type,
        content: line_text(line.content@),
        origin: line.origin,
    }
}

impl FileLineInfo {
    /// The record of a diff line, or an error when its text is not valid
    /// UTF-8.
    pub fn from_diff_line(diff_line: DiffLineRecord, file_type: &String) -> (r: Result<Self, ContentError>)
        ensures
            valid_utf8(diff_line.content@) ==> (r matches Ok(f) && f@ == file_line_view(diff_line, file_type@)),
            !valid_utf8(diff_line.content@) ==> r is Err,
    {
        let content_string = match get_content_from_diff_line(diff_line.content.as_slice()) {
            Ok(c) => c,
            Err(e) => {
                return Err(e);
            },
        };
        Ok(Self {
            old_lineno: diff_line.old_lineno,
            new_lineno: diff_line.new_lineno,
            file_type: file_type.clone(),
            content: content_string,
            origin: diff_line.origin,
        })
    }
}

/// A plain line of a shown diff.
pub enum LineInfoView {
    Line(FileLineInfoView),
    Separator(Seq<char>),
}

/// A line of a shown diff: a file line, or a header shown as a separator.
pub enum LineInfo {
    SomeFileLineInfo(FileLineInfo),
    SomeSeparator(String),
}

impl DeepView for LineInfo {
    type V = LineInfoView;

    open spec fn deep_view(&self) -> LineInfoView {
        match self {
            LineInfo::SomeFileLineInfo(f) => LineInfoView::Line(f@),
            LineInfo::SomeSeparator(s) => LineInfoView::Separator(s@),
        }
    }
}

/// What a `FileInfo` holds.
pub struct FileInfoView {
    pub change_type: Seq<char>,
    pub file_lines: Seq<LineInfoView>,
}

/// The diff of one file: which kind of change it is and its lines.
pub struct FileInfo {
    pub change_type: String,
    pub file_lines: Vec<LineInfo>,
}

impl View for FileInfo {
    type V = FileInfoView;

    open spec fn view(&self) -> FileInfoView {
        FileInfoView { change_type: self.change_type@, file_lines: self.file_lines.deep_view() }
    }
}

impl FileInfo {
    pub fn new(change_type: String, file_lines: Vec<LineInfo>) -> (r: Self)
        ensures
            r@ == (FileInfoView { change_type: change_type@, file_lines: file_lines.deep_view() }),
    {
        Self { change_type, file_lines }
    }
}

/// A commit as read from the repository. A name or message that is not
/// valid UTF-8 is absent.
pub struct CommitDetails {
    pub sha: String,
    pub summary: Option<String>,
    pub message: Option<String>,
    pub author_name: Option<String>,
    pub author_time: i64,
    pub committer_name: Option<String>,
    pub committer_time: i64,
    pub changed_files: Vec<DeltaRecord>,
}

/// Why a commit could not be described.
pub enum CommitInfoError {
    /// The author's name is not valid UTF-8.
    AuthorName,
    /// The committer's name is not valid UTF-8.
    CommitterName,
    /// A changed file could not be read.
    ChangedFiles(DiffDeltaError),
    /// The summary is not valid UTF-8.
    Summary,
    /// The message is not valid UTF-8.
    Message,
}

/// The message shown when a commit cannot be described.
pub open spec fn commit_info_error_text(e: CommitInfoError) -> Seq<char> {
    match e {
        CommitInfoError::AuthorName => "Author Name uses invalid utf-8!"@,
        CommitInfoError::CommitterName => "Committer Name uses invalid utf-8!"@,
        CommitInfoError::ChangedFiles(d) => diff_delta_error_text(d),
        CommitInfoError::Summary => "Commit Summary uses invalid utf-8!"@,
        CommitInfoError::Message => "Commit Message uses invalid utf-8!"@,
    }
}

impl CommitInfoError {
    /// The message shown for this error (see `commit_info_error_text`).
    pub fn message(&self) -> (r: String)
        ensures
            r@ == commit_info_error_text(*self),
    {
        match self {
            CommitInfoError::AuthorName => owned("Author Name uses invalid utf-8!"),
            CommitInfoError::CommitterName => owned("Committer Name uses invalid utf-8!"),
            CommitInfoError::ChangedFiles(d) => d.message(),
            CommitInfoError::Summary => owned("Commit Summary uses invalid utf-8!"),
            CommitInfoError::Message => owned("Commit Message uses invalid utf-8!"),
        }
    }
}

/// What a `CommitInfo` holds.
pub struct CommitInfoView {
    pub sha: Seq<char>,
    pub summary: Seq<char>,
    pub message: Seq<char>,
    pub author_name: Seq<char>,
    pub author_time: i64,
    pub committer_name: Seq<char>,
    pub committer_time: i64,
    pub changed_files: Seq<ParseableDiffDeltaView>,
}

/// One commit as its detail view shows it; the texts are HTML-escaped.
pub struct CommitInfo {
    pub sha: String,
    pub summary: String,
    pub message: String,
    pub author_name: String,
    pub author_time: i64,
    pub committer_name: String,
    pub committer_time: i64,
    pub changed_files: Vec<ParseableDiffDelta>,
}

impl View for CommitInfo {
    type V = CommitInfoView;

    open spec fn view(&self) -> CommitInfoView {
        CommitInfoView {
            sha: self.sha@,
            summary: self.summary@,
            message: self.message@,
            author_name: self.author_name@,
            author_time: self.author_time,
            committer_name: self.committer_name@,
            committer_time: self.committer_time,
            changed_files: self.changed_files.deep_view(),
        }
    }
}

/// The description of a commit, or the first thing about it that could
/// not be read: the author's name, the committer's name, the changed files,
/// the summary, then the message.
pub open spec fn commit_info_result(d: CommitDetails) -> Result<CommitInfoView, CommitInfoError> {
    match (d.author_name, d.committer_name) {
        (None, _) => Err(CommitInfoError::AuthorName),
        (Some(_), None) => Err(CommitInfoError::CommitterName),
        (Some(a), Some(c)) => match deltas_view(d.changed_files@, d.changed_files@.len() as int) {
            Err(e) => Err(CommitInfoError::ChangedFiles(e)),
            Ok(files) => match (d.summary, d.message) {
                (None, _) => Err(CommitInfoError::Summary),
                (Some(_), None) => Err(CommitInfoError::Message),
                (Some(sm), Some(m)) => Ok(CommitInfoView {
                    sha: d.sha@,
                    summary: escape_html_text(sm@),
                    message: escape_html_text(m@),
                    author_name: escape_html_text(a@),
                    author_time: d.author_time,
                    committer_name: escape_html_text(c@),
                    committer_time: d.committer_time,
                    changed_files: files,
                }),
            },
        },
    }
}

/// A commit is described exactly when its names, summary and message are
/// valid text and its changed files can be read; the description keeps the
/// commit's sha, its author's time as the author time and its committer's
/// time as the committer time.
pub proof fn lemma_commit_info_keeps_times(d: CommitDetails)
    ensures
        commit_info_result(d) is Ok <==> (d.author_name is Some && d.committer_name is Some
            && deltas_view(d.changed_files@, d.changed_files@.len() as int) is Ok && d.summary is Some
            && d.message is Some),
        commit_info_result(d) matches Ok(v) ==> v.sha == d.sha@ && v.author_time == d.author_time
            && v.committer_time == d.committer_time,
{
}

impl CommitInfo {
    /// Describes a commit (see `commit_info_result`).
    pub fn from_commit(commit: CommitDetails) -> (r: Result<Self, CommitInfoError>)
        ensures
            match commit_info_result(commit) {
                Ok(v) => r matches Ok(info) && info@ == v,
                Err(e) => r == Err::<CommitInfo, CommitInfoError>(e),
            },
    {
        let ghost d = commit;
        let author_name = match commit.author_name {
            Some(a) => a,
            None => {
                return Err(CommitInfoError::AuthorName);
            },
        };
        let committer_name = match commit.committer_name {
            Some(c) => c,
            None => {
                return Err(CommitInfoError::CommitterName);
            },
        };
        let parseable_diff_delta = match get_parseable_diff_delta(commit.changed_files) {
            Ok(f) => f,
            Err(e) => {
                return Err(CommitInfoError::ChangedFiles(e));
            },
        };
        let summary = match commit.summary {
            Some(sm) => sm,
            None => {
                return Err(CommitInfoError::Summary);
            },
        };
        let message = match commit.message {
            Some(m) => m,
            None => {
                return Err(CommitInfoError::Message);
            },
        };
        Ok(Self {
            sha: commit.sha,
            summary: encode_html_text(summary.as_str()),
            message: encode_html_text(message.as_str()),
            author_name: encode_html_text(author_name.as_str()),
            author_time: commit.author_time,
            committer_name: encode_html_text(committer_name.as_str()),
            committer_time: commit.committer_time,
            changed_files: parseable_diff_delta,
        })
    }
}

/// The plain value of a list of name/value records.
pub type RecordsView = Seq<Seq<(Seq<char>, Seq<char>)>>;

/// What an `InteractiveRebaseInfo` holds.
pub struct InteractiveRebaseInfoView {
    pub onto_sha: Seq<char>,
    pub commits: RecordsView,
}

/// The commits an interactive rebase onto `onto_sha` would replay, each as
/// its `"sha"` and `"summary"`.
pub struct InteractiveRebaseInfo {
    pub onto_sha: String,
    pub commits: Vec<Vec<(String, String)>>,
}

impl View for InteractiveRebaseInfo {
    type V = InteractiveRebaseInfoView;

    open spec fn view(&self) -> InteractiveRebaseInfoView {
        InteractiveRebaseInfoView { onto_sha: self.onto_sha@, commits: self.commits.deep_view() }
    }
}

impl InteractiveRebaseInfo {
    pub fn new(onto_sha: String, commits: Vec<Vec<(String, String)>>) -> (r: Self)
        ensures
            r@ == (InteractiveRebaseInfoView { onto_sha: onto_sha@, commits: commits.deep_view() }),
    {
        Self { onto_sha, commits }
    }
}

/// What an `InteractiveRebaseOps` holds.
pub struct InteractiveRebaseOpsView {
    pub onto_sha: Seq<char>,
    pub commit_ops: RecordsView,
}

/// The operations the user chose for an interactive rebase.
pub struct InteractiveRebaseOps {
    pub onto_sha: String,
    pub commit_ops: Vec<Vec<(String, String)>>,
}

impl View for InteractiveRebaseOps {
    type V = InteractiveRebaseOpsView;

    open spec fn view(&self) -> InteractiveRebaseOpsView {
        InteractiveRebaseOpsView { onto_sha: self.onto_sha@, commit_ops: self.commit_ops.deep_view() }
    }
}

fn clone_records(v: &Vec<Vec<(String, String)>>) -> (r: Vec<Vec<(String, String)>>)
    ensures
        r.deep_view() == v.deep_view(),
{
    let mut out: Vec<Vec<(String, String)>> = Vec::new();
    let mut i: usize = 0;
    while i < v.len()
        invariant
            i <= v.len(),
            out@.len() == i,
            forall|j: int| 0 <= j < i ==> #[trigger] out@[j].deep_view() == v@[j].deep_view(),
        decreases v.len() - i,
    {
        out.push(crate::text::clone_pairs(&v[i]));
        i = i + 1;
    }
    assert(out.deep_view() =~= v.deep_view());
    out
}

impl InteractiveRebaseOps {
    /// Operations onto `onto_sha`.
    pub fn from_parts(onto_sha: String, commit_ops: Vec<Vec<(String, String)>>) -> (r: Self)
        ensures
            r@ == (InteractiveRebaseOpsView { onto_sha: onto_sha@, commit_ops: commit_ops.deep_view() }),
    {
        Self { onto_sha, commit_ops }
    }

    pub fn clone_onto_sha(&self) -> (r: String)
        ensures
            r@ == self@.onto_sha,
    {
        self.onto_sha.clone()
    }

    pub fn clone_commit_ops(&self) -> (r: Vec<Vec<(String, String)>>)
        ensures
            r.deep_view() == self@.commit_ops,
    {
        clone_records(&self.commit_ops)
    }
}

/// The message of a text that is not valid UTF-8: `"<name> uses invalid utf-8!"`.
pub open spec fn invalid_utf8_message(name: Seq<char>) -> Seq<char> {
    name + " uses invalid utf-8!"@
}

/// A text read from the repository, or the message that names it when it is
/// not valid UTF-8 (and so absent).
pub fn get_utf8_string<'a>(value: Option<&'a str>, str_name_type: &str) -> (r: Result<&'a str, String>)
    ensures
        match value {
            Some(v) => r == Ok::<&'a str, String>(v),
            None => r matches Err(m) && m@ == invalid_utf8_message(str_name_type@),
        },
{
    match value {
        Some(n) => Ok(n),
        None => Err(concat_str(str_name_type, " uses invalid utf-8!")),
    }
}

/// Why a payload value was refused.
pub enum PayloadError {
    /// The JSON value is not a string.
    InvalidJsonString,
}

impl PayloadError {
    /// The message shown for this error.
    pub fn message(&self) -> (r: String)
        ensures
            r@ == "Invalid JSON String!"@,
    {
        owned("Invalid JSON String!")
    }
}

/// The text of a JSON string value, or an error when the value is not a
/// string.
pub fn get_string_from_serde_string(value: Option<&str>) -> (r: Result<&str, PayloadError>)
    ensures
        match value {
            Some(v) => r == Ok::<&str, PayloadError>(v),
            None => r is Err,
        },
{
    match value {
        Some(s) => Ok(s),
        None => Err(PayloadError::InvalidJsonString),
    }
}

/// The paragraph separator a message uses: CRLF when splitting on a blank
/// CRLF line gives more than one piece, else LF.
pub open spec fn uses_crlf(full: Seq<char>) -> bool {
    split_text(full, "\r\n\r\n"@).len() != 1
}

/// A commit message without its first paragraph (the summary), joined back
/// with the separator it used, and whether that separator is CRLF.
pub open spec fn message_without_summary(full: Seq<char>) -> (Seq<char>, bool) {
    let crlf = uses_crlf(full);
    let sep = if crlf {
        "\r\n\r\n"@
    } else {
        "\n\n"@
    };
    (join_text(split_text(full, sep).drop_first(), sep), crlf)
}

/// The separator a commit message's paragraphs are split at.
pub open spec fn paragraph_separator(full: Seq<char>) -> Seq<char> {
    if uses_crlf(full) {
        "\r\n\r\n"@
    } else {
        "\n\n"@
    }
}

/// A message with more than one paragraph is its summary, the separator,
/// and the message without its summary, in that order.
pub proof fn lemma_summary_then_rest(full: Seq<char>)
    ensures
        split_text(full, paragraph_separator(full)).len() >= 2 ==> split_text(full, paragraph_separator(full))[0]
            + paragraph_separator(full) + message_without_summary(full).0 == full,
{
    reveal_strlit("\r\n\r\n");
    reveal_strlit("\n\n");
    let sep = paragraph_separator(full);
    let pieces = split_text(full, sep);
    if pieces.len() >= 2 {
        crate::text::lemma_join_split(full, sep);
        assert(pieces =~= seq![pieces[0]] + pieces.drop_first());
        crate::text::lemma_join_prepend(pieces[0], pieces.drop_first(), sep);
    }
}

/// Drops the summary paragraph of a commit message (see
/// `message_without_summary`).
pub fn get_message_without_summary(full_message: &str) -> (r: (String, bool))
    ensures
        (r.0@, r.1) == message_without_summary(full_message@),
{
    proof {
        reveal_strlit("\r\n\r\n");
        reveal_strlit("\n\n");
    }
    let mut separate_pieces = split_str(full_message, "\r\n\r\n");
    let mut use_crlf = true;
    if separate_pieces.len() == 1 {
        separate_pieces = split_str(full_message, "\n\n");
        use_crlf = false;
    }
    proof {
        crate::text::lemma_split_text_nonempty(full_message@, "\n\n"@);
        crate::text::lemma_split_text_nonempty(full_message@, "\r\n\r\n"@);
    }
    let rest = drop_first_string(separate_pieces);
    if use_crlf {
        (join_strs(&rest, "\r\n\r\n"), use_crlf)
    } else {
        (join_strs(&rest, "\n\n"), use_crlf)
    }
}

fn drop_first_string(v: Vec<String>) -> (r: Vec<String>)
    requires
        v@.len() >= 1,
    ensures
        r.deep_view() == v.deep_view().drop_first(),
{
    let mut out: Vec<String> = Vec::new();
    let mut i: usize = 1;
    while i < v.len()
        invariant
            1 <= i <= v.len(),
            out@.len() == i - 1,
            forall|j: int| 0 <= j < i - 1 ==> #[trigger] out@[j]@ == v@[j + 1]@,
        decreases v.len() - i,
    {
        out.push(v[i].clone());
        i = i + 1;
    }
    assert(out.deep_view() =~= v.deep_view().drop_first());
    out
}

/// The message of a revert commit: `Revert "<summary>"`, a blank line in
/// the reverted commit's line-ending style, and that commit's message without its
/// summary.
pub open spec fn revert_message_text(summary: Seq<char>, full_message: Seq<char>) -> Seq<char> {
    let (rest, crlf) = message_without_summary(full_message);
    "Revert \""@ + summary + "\""@ + (if crlf {
        "\r\n\r\n"@
    } else {
        "\n\n"@
    }) + rest
}

/// Writes the message of a revert commit (see `revert_message_text`).
pub fn revert_message(summary: &str, full_message: &str) -> (r: String)
    ensures
        r@ == revert_message_text(summary@, full_message@),
{
    let mut new_full_message = concat_str("Revert \"", summary);
    push_all(&mut new_full_message, "\"");
    let (message_without_summary, uses_crlf) = get_message_without_summary(full_message);
    if uses_crlf {
        push_all(&mut new_full_message, "\r\n\r\n");
    } else {
        push_all(&mut new_full_message, "\n\n");
    }
    push_all(&mut new_full_message, message_without_summary.as_str());
    new_full_message
}

/// The first `n` characters of `s` (all of it when it is shorter).
pub open spec fn prefix_of(s: Seq<char>, n: int) -> Seq<char> {
    if s.len() <= n {
        s
    } else {
        s.subrange(0, n)
    }
}

/// The message of a merge commit: `"Merge commit <5 chars of the merged
/// sha> into commit <5 chars of the head sha>"`.
pub open spec fn merge_message_text(sha: Seq<char>, head_sha: Seq<char>) -> Seq<char> {
    "Merge commit "@ + prefix_of(sha, 5) + " into commit "@ + prefix_of(head_sha, 5)
}

fn first_chars(s: &str, n: usize) -> (r: String)
    ensures
        r@ == prefix_of(s@, n as int),
{
    let cs = crate::text::chars_of(s);
    let mut out = String::new();
    let mut k: usize = 0;
    while k < n && k < cs.len()
        invariant
            k <= cs@.len(),
            k <= n,
            out@ == cs@.subrange(0, k as int),
        decreases cs@.len() - k,
    {
        crate::text::string_push(&mut out, cs[k]);
        k = k + 1;
        assert(out@ =~= cs@.subrange(0, k as int));
    }
    proof {
        if cs@.len() <= n {
            assert(cs@.subrange(0, cs@.len() as int) =~= cs@);
        }
    }
    out
}

/// Writes the message of a merge commit (see `merge_message_text`). The
/// shas are ASCII, so cutting them after five bytes cuts after five
/// characters.
pub fn merge_message(sha: &str, head_sha: &str) -> (r: String)
    requires
        vstd::string::is_ascii(sha),
        vstd::string::is_ascii(head_sha),
    ensures
        r@ == merge_message_text(sha@, head_sha@),
{
    let short_sha = first_chars(sha, 5);
    let head_short_sha = first_chars(head_sha, 5);
    let mut message = concat_str("Merge commit ", short_sha.as_str());
    push_all(&mut message, " into commit ");
    push_all(&mut message, head_short_sha.as_str());
    message
}

/// The full message of a new commit: the summary, and, when the message
/// text is not empty, a blank line and the message.
pub open spec fn commit_message_text(summary: Seq<char>, message: Seq<char>) -> Seq<char> {
    if message.len() == 0 {
        summary
    } else {
        summary + "\n\n"@ + message
    }
}

/// Writes the full message of a new commit (see `commit_message_text`).
pub fn commit_message(summary: &str, message: &str) -> (r: String)
    ensures
        r@ == commit_message_text(summary@, message@),
{
    let mut full_message = owned(summary);
    if crate::text::chars_of(message).len() != 0 {
        push_all(&mut full_message, "\n\n");
        push_all(&mut full_message, message);
    }
    full_message
}

/// The local branch made for a remote branch `<remote>/<name>`: the short
/// name without its first `/`-separated piece.
pub open spec fn local_branch_name_text(remote_shorthand: Seq<char>) -> Seq<char> {
    join_text(split_on(remote_shorthand, '/').drop_first(), "/"@)
}

/// Names the local branch made for a remote branch (see
/// `local_branch_name_text`).
pub fn local_branch_name(remote_shorthand: &str) -> (r: String)
    ensures
        r@ == local_branch_name_text(remote_shorthand@),
{
    let parts = split_chars(remote_shorthand, '/');
    proof {
        crate::text::lemma_split_on_len(remote_shorthand@, '/');
    }
    let rest = drop_first_string(parts);
    join_strs(&rest, "/")
}

/// The remote of a remote branch `<remote>/<name>` and the refspec that
/// deletes the branch there, `:refs/heads/<name>`; none when the name holds
/// no `/`.
pub open spec fn delete_refspec_text(shorthand: Seq<char>) -> Option<(Seq<char>, Seq<char>)> {
    match crate::text::first_match_from(shorthand, "/"@, 0) {
        Some(i) => Some(
            (shorthand.subrange(0, i), ":refs/heads/"@ + shorthand.subrange(i + 1, shorthand.len() as int)),
        ),
        None => None,
    }
}

/// The remote and refspec that delete a remote branch (see
/// `delete_refspec_text`).
pub fn remote_branch_refspec(shorthand: &str) -> (r: Option<(String, String)>)
    ensures
        match delete_refspec_text(shorthand@) {
            Some((remote, refspec)) => r matches Some(p) && p.0@ == remote && p.1@ == refspec,
            None => r is None,
        },
{
    proof {
        lemma_slash_matches(shorthand@);
        crate::text::lemma_first_match_from(shorthand@, "/"@, 0);
    }
    let cs = crate::text::chars_of(shorthand);
    let mut i: usize = 0;
    while i < cs.len()
        invariant
            cs@ == shorthand@,
            i <= cs@.len(),
            forall|m: int| 0 <= m < i ==> cs@[m] != '/',
        decreases cs@.len() - i,
    {
        if cs[i] == '/' {
            proof {
                lemma_slash_matches(shorthand@);
                crate::text::lemma_first_match_from(shorthand@, "/"@, 0);
                assert(matches_at(shorthand@, "/"@, i as int));
                match crate::text::first_match_from(shorthand@, "/"@, 0) {
                    Some(j) => {
                        if j < i {
                            assert(matches_at(shorthand@, "/"@, j));
                        }
                        if i < j {
                            assert(!matches_at(shorthand@, "/"@, i as int));
                        }
                    },
                    None => {},
                }
            }
            let remote = slice_of(&cs, 0, i);
            let mut refspec = owned(":refs/heads/");
            let rest = slice_of(&cs, i + 1, cs.len());
            push_all(&mut refspec, rest.as_str());
            return Some((remote, refspec));
        }
        i = i + 1;
    }
    proof {
        lemma_slash_matches(shorthand@);
        crate::text::lemma_first_match_from(shorthand@, "/"@, 0);
        match crate::text::first_match_from(shorthand@, "/"@, 0) {
            Some(j) => {
                assert(matches_at(shorthand@, "/"@, j));
            },
            None => {},
        }
    }
    None
}

/// A one-character `"/"` occurs exactly where the character is `/`.
proof fn lemma_slash_matches(s: Seq<char>)
    ensures
        forall|m: int| #[trigger] matches_at(s, "/"@, m) <==> (0 <= m < s.len() && s[m] == '/'),
{
    reveal_strlit("/");
    assert("/"@ =~= seq!['/']);
    assert forall|m: int| #[trigger] matches_at(s, "/"@, m) <==> (0 <= m < s.len() && s[m] == '/') by {
        if 0 <= m < s.len() {
            if s[m] == '/' {
                assert(s.subrange(m, m + 1) =~= seq!['/']);
            }
            if matches_at(s, "/"@, m) {
                assert(s.subrange(m, m + 1)[0] == s[m]);
            }
        }
    }
}

fn slice_of(cs: &Vec<char>, from: usize, to: usize) -> (r: String)
    requires
        from <= to <= cs@.len(),
    ensures
        r@ == cs@.subrange(from as int, to as int),
{
    let mut out = String::new();
    let mut k = from;
    while k < to
        invariant
            from <= k <= to,
            to <= cs@.len(),
            out@ == cs@.subrange(from as int, k as int),
        decreases to - k,
    {
        crate::text::string_push(&mut out, cs[k]);
        k = k + 1;
        assert(out@ =~= cs@.subrange(from as int, k as int));
    }
    out
}

/// The refspec that pushes a reference: its full name, after a `+` when
/// the push is forced.
pub open spec fn push_refspec_text(full_name: Seq<char>, is_force: bool) -> Seq<char> {
    if is_force {
        seq!['+'] + full_name
    } else {
        full_name
    }
}

/// Writes the refspec that pushes a reference (see `push_refspec_text`).
pub fn push_refspec(full_name: &str, is_force: bool) -> (r: String)
    ensures
        r@ == push_refspec_text(full_name@, is_force),
{
    if is_force {
        let mut sb = String::new();
        crate::text::string_push(&mut sb, '+');
        push_all(&mut sb, full_name);
        sb
    } else {
        owned(full_name)
    }
}

/// The short name of the remote branch that tracks a newly pushed branch:
/// `<remote>/<branch>`.
pub fn upstream_shorthand(remote_name: &str, branch_shorthand: &str) -> (r: String)
    ensures
        r@ == remote_name@ + "/"@ + branch_shorthand@,
{
    let mut s = concat_str(remote_name, "/");
    push_all(&mut s, branch_shorthand);
    s
}

/// Whether a payload flag is set: exactly the text `"true"`.
pub fn flag_is_true(value: &str) -> (b: bool)
    ensures
        b == (value@ == "true"@),
{
    str_eq(value, "true")
}

/// How far a reset goes.
pub enum ResetKind {
    Soft,
    Mixed,
    Hard,
}

/// The reset named `"soft"`, `"mixed"` or `"hard"`; none for any other text.
pub open spec fn reset_kind_of(s: Seq<char>) -> Option<ResetKind> {
    if s == "soft"@ {
        Some(ResetKind::Soft)
    } else if s == "mixed"@ {
        Some(ResetKind::Mixed)
    } else if s == "hard"@ {
        Some(ResetKind::Hard)
    } else {
        None
    }
}

/// Reads the kind of a reset (see `reset_kind_of`).
pub fn parse_reset_type(s: &str) -> (r: Option<ResetKind>)
    ensures
        r == reset_kind_of(s@),
{
    if str_eq(s, "soft") {
        Some(ResetKind::Soft)
    } else if str_eq(s, "mixed") {
        Some(ResetKind::Mixed)
    } else if str_eq(s, "hard") {
        Some(ResetKind::Hard)
    } else {
        None
    }
}

/// The extension a file's diff is shown with: the text after its last `.`
/// (the whole path when it has none).
pub open spec fn file_type_text(path: Seq<char>) -> Seq<char> {
    split_on(path, '.').last()
}

/// Reads a file's extension (see `file_type_text`).
pub fn file_type_of(path: &str) -> (r: String)
    ensures
        r@ == file_type_text(path@),
{
    let pieces = split_chars(path, '.');
    proof {
        crate::text::lemma_split_on_len(path@, '.');
    }
    pieces[pieces.len() - 1].clone()
}

/// A file header line of a diff is shown when it tells of a mode change
/// (and is not the `+++` line) or of a rename or copy.
pub open spec fn header_is_shown(s: Seq<char>) -> bool {
    let is_filemode_change = !contains_text(s, "+++"@) && (contains_text(s, "old mode"@) || contains_text(s, "new mode"@));
    let is_renamed_file = contains_text(s, "rename"@) || contains_text(s, "similarity"@);
    is_filemode_change || is_renamed_file
}

/// Whether a file header line is shown (see `header_is_shown`).
pub fn file_header_is_shown(s: &str) -> (b: bool)
    ensures
        b == header_is_shown(s@),
{
    let is_filemode_change = !str_contains(s, "+++") && (str_contains(s, "old mode") || str_contains(s, "new mode"));
    let is_renamed_file = str_contains(s, "rename") || str_contains(s, "similarity");
    is_filemode_change || is_renamed_file
}

/// What kind of line a patch line is.
pub enum DiffLineKind {
    FileHeader,
    HunkHeader,
    Content,
}

/// A line of a patch, with its kind.
pub struct PatchLine {
    pub kind: DiffLineKind,
    pub line: DiffLineRecord,
}

/// The shown lines of the first `k` patch lines: a file header as a
/// separator when it is shown (see `header_is_shown`), a hunk header as a
/// separator, any other line as a file line; a line whose text is not valid
/// UTF-8 is left out.
pub open spec fn shown_lines(lines: Seq<PatchLine>, file_type: Seq<char>, k: int) -> Seq<LineInfoView>
    decreases k,
{
    if k <= 0 {
        seq![]
    } else {
        let prev = shown_lines(lines, file_type, k - 1);
        let pl = lines[k - 1];
        if !valid_utf8(pl.line.content@) {
            prev
        } else {
            match pl.kind {
                DiffLineKind::FileHeader => if header_is_shown(line_text(pl.line.content@)) {
                    prev.push(LineInfoView::Separator(line_text(pl.line.content@)))
                } else {
                    prev
                },
                DiffLineKind::HunkHeader => prev.push(LineInfoView::Separator(line_text(pl.line.content@))),
                DiffLineKind::Content => prev.push(LineInfoView::Line(file_line_view(pl.line, file_type))),
            }
        }
    }
}

/// The diff of one file as shown (see `shown_lines`), with the file's
/// extension taken from its path.
pub fn file_info_from_patch(change_type: String, file_path: &str, lines: Vec<PatchLine>) -> (r: FileInfo)
    ensures
        r@ == (FileInfoView {
            change_type: change_type@,
            file_lines: shown_lines(lines@, file_type_text(file_path@), lines@.len() as int),
        }),
{
    let file_type = file_type_of(file_path);
    let ghost ft = file_type@;
    let mut file_lines: Vec<LineInfo> = Vec::new();
    let mut rest = lines;
    let ghost all = rest@;
    let mut i: usize = 0;
    let n = rest.len();
    proof {
        assert(file_lines.deep_view() =~= Seq::<LineInfoView>::empty());
    }
    while i < n
        invariant
            n == all.len(),
            i <= n,
            rest@ == all.subrange(i as int, n as int),
            file_type@ == ft,
            file_lines.deep_view() == shown_lines(all, ft, i as int),
        decreases n - i,
    {
        let pl = rest.remove(0);
        proof {
            assert(pl == all[i as int]);
        }
        let ghost before = file_lines.deep_view();
        match pl.kind {
            DiffLineKind::FileHeader => {
                match get_content_from_diff_line(pl.line.content.as_slice()) {
                    Ok(s) => {
                        if file_header_is_shown(s.as_str()) {
                            file_lines.push(LineInfo::SomeSeparator(s));
                            proof {
                                assert(file_lines.deep_view() =~= before.push(LineInfoView::Separator(s@)));
                            }
                        }
                    },
                    Err(_) => {},
                }
            },
            DiffLineKind::HunkHeader => {
                match get_content_from_diff_line(pl.line.content.as_slice()) {
                    Ok(s) => {
                        file_lines.push(LineInfo::SomeSeparator(s));
                        proof {
                            assert(file_lines.deep_view() =~= before.push(LineInfoView::Separator(s@)));
                        }
                    },
                    Err(_) => {},
                }
            },
            DiffLineKind::Content => {
                let ghost line = pl.line;
                match FileLineInfo::from_diff_line(pl.line, &file_type) {
                    Ok(fli) => {
                        file_lines.push(LineInfo::SomeFileLineInfo(fli));
                        proof {
                            assert(file_lines.deep_view() =~= before.push(LineInfoView::Line(fli@)));
                        }
                    },
                    Err(_) => {},
                }
            },
        }
        i = i + 1;
        proof {
            assert(all.subrange(i as int, n as int) =~= all.subrange(i - 1, n as int).drop_first());
        }
    }
    FileInfo::new(change_type, file_lines)
}

} // verus!
