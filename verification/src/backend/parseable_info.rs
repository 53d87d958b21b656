//! Commit records of the compact back end. Each commit of the walk is written
//! as a list of named values (its sha, place, summary, the names pointing
//! at it, its parents and children), and the rows of the graph are read
//! back from those lists, checking that every value is there and of the
//! right kind.
use vstd::prelude::*;
use crate::backend::svg_row::{SVGRow, SVGRowView};
use crate::parseable_info::{
    children_in, children_of, group_index, lemma_group_index, CommitRecord, CommitValue, RefGroups,
    SVGCommitInfoValue,
};
use crate::text::{clone_pairs, clone_strings, owned, str_eq};

verus! {

/// The names pointing at commit `sha`: its group in `refs`, or none.
pub open spec fn refs_for(refs: RefGroups, sha: Seq<char>) -> Seq<(Seq<char>, Seq<char>)> {
    match group_index(refs, sha) {
        Some(j) => refs[j].1,
        None => seq![],
    }
}

/// The record of commit `i` of the walk: its sha, column zero, row `i`, its
/// summary, the names pointing at it, its parents, and its children among
/// the walked commits.
pub open spec fn commit_entries(cs: Seq<CommitRecord>, refs: RefGroups, i: int) -> Seq<(Seq<char>, CommitValue)> {
    let c = cs[i];
    seq![
        ("oid"@, CommitValue::Str(c.sha@)),
        ("x"@, CommitValue::Int(0)),
        ("y"@, CommitValue::Int(i)),
        ("summary"@, CommitValue::Str(c.summary@)),
        ("branches_and_tags"@, CommitValue::Pairs(refs_for(refs, c.sha@))),
        ("parent_oids"@, CommitValue::Strs(c.parent_shas.deep_view())),
        ("child_oids"@, CommitValue::Strs(children_of(cs, c.sha@, cs.len() as int))),
    ]
}

/// The names pointing at a commit (see `refs_for`).
fn find_refs(oid_refs: &Vec<(String, Vec<(String, String)>)>, sha: &String) -> (r: Vec<(String, String)>)
    ensures
        r.deep_view() == refs_for(oid_refs.deep_view(), sha@),
{
    let mut i: usize = 0;
    while i < oid_refs.len()
        invariant
            i <= oid_refs@.len(),
            forall|m: int| 0 <= m < i ==> #[trigger] oid_refs.deep_view()[m].0 != sha@,
        decreases oid_refs@.len() - i,
    {
        if str_eq(oid_refs[i].0.as_str(), sha.as_str()) {
            proof {
                lemma_group_index(oid_refs.deep_view(), sha@);
                assert(oid_refs.deep_view()[i as int].0 == sha@);
                match group_index(oid_refs.deep_view(), sha@) {
                    Some(j) => {
                        if j < i {
                            assert(oid_refs.deep_view()[j].0 == sha@);
                        }
                        if i < j {
                            assert(oid_refs.deep_view()[i as int].0 != sha@);
                        }
                    },
                    None => {},
                }
            }
            return clone_pairs(&oid_refs[i].1);
        }
        i = i + 1;
    }
    proof {
        lemma_group_index(oid_refs.deep_view(), sha@);
        match group_index(oid_refs.deep_view(), sha@) {
            Some(j) => {
                assert(oid_refs.deep_view()[j].0 == sha@);
            },
            None => {},
        }
    }
    Vec::new()
}

/// The records of the walked commits, in walk order (see
/// `commit_entries`).
pub fn get_commit_info_list(commits: Vec<CommitRecord>, oid_refs: &Vec<(String, Vec<(String, String)>)>) -> (r: Vec<Vec<(String, SVGCommitInfoValue)>>)
    requires
        commits@.len() < isize::MAX,
    ensures
        r@.len() == commits@.len(),
        forall|i: int|
            0 <= i < commits@.len() ==> #[trigger] r@[i].deep_view() == commit_entries(commits@, oid_refs.deep_view(), i),
{
    let mut commit_list: Vec<Vec<(String, SVGCommitInfoValue)>> = Vec::new();
    let mut i: usize = 0;
    while i < commits.len()
        invariant
            i <= commits@.len(),
            commits@.len() < isize::MAX,
            commit_list@.len() == i,
            forall|m: int|
                0 <= m < i ==> #[trigger] commit_list@[m].deep_view() == commit_entries(commits@, oid_refs.deep_view(), m),
        decreases commits@.len() - i,
    {
        let c = &commits[i];
        let mut commit_info: Vec<(String, SVGCommitInfoValue)> = Vec::new();
        commit_info.push((owned("oid"), SVGCommitInfoValue::SomeString(owned(c.sha.as_str()))));
        commit_info.push((owned("x"), SVGCommitInfoValue::SomeInt(0)));
        commit_info.push((owned("y"), SVGCommitInfoValue::SomeInt(i as isize)));
        commit_info.push((owned("summary"), SVGCommitInfoValue::SomeString(owned(c.summary.as_str()))));
        commit_info.push((owned("branches_and_tags"), SVGCommitInfoValue::SomeStringTupleVec(find_refs(oid_refs, &c.sha))));
        commit_info.push((owned("parent_oids"), SVGCommitInfoValue::SomeStringVec(clone_strings(&c.parent_shas))));
        commit_info.push((owned("child_oids"), SVGCommitInfoValue::SomeStringVec(children_in(&commits, &c.sha))));
        proof {
            assert(commit_info.deep_view() =~= commit_entries(commits@, oid_refs.deep_view(), i as int));
        }
        commit_list.push(commit_info);
        i = i + 1;
    }
    commit_list
}

/// The named values of a commit record.
pub enum CommitField {
    Oid,
    Summary,
    BranchesAndTags,
    ParentOids,
    ChildOids,
    X,
    Y,
}

/// Why a row cannot be read from a commit record.
pub enum CommitFieldError {
    /// The record lacks the value.
    Missing(CommitField),
    /// The record holds the value with another kind.
    WrongKind(CommitField),
}

/// The message shown when a row cannot be read from a commit record.
pub open spec fn commit_field_error_text(e: CommitFieldError) -> Seq<char> {
    match e {
        CommitFieldError::Missing(f) => match f {
            CommitField::Oid => "Oid not found in commit_info hash map."@,
            CommitField::Summary => "Summary not found in commit_info hash map."@,
            CommitField::BranchesAndTags => "branches_and_tags not found in commit_info hash map."@,
            CommitField::ParentOids => "Parent Oids not found in commit_info hash map."@,
            CommitField::ChildOids => "Child Oids not found in commit_info hash map."@,
            CommitField::X => "X not found in commit_info hash map."@,
            CommitField::Y => "Y not found in commit_info hash map."@,
        },
        CommitFieldError::WrongKind(f) => match f {
            CommitField::Oid => "Oid was not passed as a string."@,
            CommitField::Summary => "Summary was not passed as a string."@,
            CommitField::BranchesAndTags => "branches_and_tags was not passed as a vector."@,
            CommitField::ParentOids => "Parent Oids was not passed as a vector."@,
            CommitField::ChildOids => "Child Oids was not passed as a vector."@,
            CommitField::X => "X was not passed as an isize."@,
            CommitField::Y => "Y was not passed as an isize."@,
        },
    }
}

impl CommitFieldError {
    /// The message shown for this error (see `commit_field_error_text`).
    pub fn message(&self) -> (r: String)
        ensures
            r@ == commit_field_error_text(*self),
    {
        match self {
            CommitFieldError::Missing(f) => match f {
                CommitField::Oid => owned("Oid not found in commit_info hash map."),
                CommitField::Summary => owned("Summary not found in commit_info hash map."),
                CommitField::BranchesAndTags => owned("branches_and_tags not found in commit_info hash map."),
                CommitField::ParentOids => owned("Parent Oids not found in commit_info hash map."),
                CommitField::ChildOids => owned("Child Oids not found in commit_info hash map."),
                CommitField::X => owned("X not found in commit_info hash map."),
                CommitField::Y => owned("Y not found in commit_info hash map."),
            },
            CommitFieldError::WrongKind(f) => match f {
                CommitField::Oid => owned("Oid was not passed as a string."),
                CommitField::Summary => owned("Summary was not passed as a string."),
                CommitField::BranchesAndTags => owned("branches_and_tags was not passed as a vector."),
                CommitField::ParentOids => owned("Parent Oids was not passed as a vector."),
                CommitField::ChildOids => owned("Child Oids was not passed as a vector."),
                CommitField::X => owned("X was not passed as an isize."),
                CommitField::Y => owned("Y was not passed as an isize."),
            },
        }
    }
}

/// The last value the record gives `key` (a later value replaces an
/// earlier one).
pub open spec fn entry_value(entries: Seq<(Seq<char>, CommitValue)>, key: Seq<char>) -> Option<CommitValue>
    decreases entries.len(),
{
    if entries.len() == 0 {
        None
    } else if entries.last().0 == key {
        Some(entries.last().1)
    } else {
        entry_value(entries.drop_last(), key)
    }
}

/// The text value of a field.
pub open spec fn text_field(entries: Seq<(Seq<char>, CommitValue)>, key: Seq<char>, f: CommitField) -> Result<Seq<char>, CommitFieldError> {
    match entry_value(entries, key) {
        Some(CommitValue::Str(s)) => Ok(s),
        Some(_) => Err(CommitFieldError::WrongKind(f)),
        None => Err(CommitFieldError::Missing(f)),
    }
}

/// The text-list value of a field.
pub open spec fn texts_field(entries: Seq<(Seq<char>, CommitValue)>, key: Seq<char>, f: CommitField) -> Result<Seq<Seq<char>>, CommitFieldError> {
    match entry_value(entries, key) {
        Some(CommitValue::Strs(s)) => Ok(s),
        Some(_) => Err(CommitFieldError::WrongKind(f)),
        None => Err(CommitFieldError::Missing(f)),
    }
}

/// The pair-list value of a field.
pub open spec fn pairs_field(entries: Seq<(Seq<char>, CommitValue)>, key: Seq<char>, f: CommitField) -> Result<Seq<(Seq<char>, Seq<char>)>, CommitFieldError> {
    match entry_value(entries, key) {
        Some(CommitValue::Pairs(s)) => Ok(s),
        Some(_) => Err(CommitFieldError::WrongKind(f)),
        None => Err(CommitFieldError::Missing(f)),
    }
}

/// The number value of a field.
pub open spec fn int_field(entries: Seq<(Seq<char>, CommitValue)>, key: Seq<char>, f: CommitField) -> Result<int, CommitFieldError> {
    match entry_value(entries, key) {
        Some(CommitValue::Int(i)) => Ok(i),
        Some(_) => Err(CommitFieldError::WrongKind(f)),
        None => Err(CommitFieldError::Missing(f)),
    }
}

/// The row a commit record describes; the fields are checked in the order
/// sha, summary, names, parents, children, column, row, and the first
/// missing or mistyped one is reported.
pub open spec fn row_from_entries(e: Seq<(Seq<char>, CommitValue)>) -> Result<SVGRowView, CommitFieldError> {
    match text_field(e, "oid"@, CommitField::Oid) {
        Err(err) => Err(err),
        Ok(sha) => match text_field(e, "summary"@, CommitField::Summary) {
            Err(err) => Err(err),
            Ok(summary) => match pairs_field(e, "branches_and_tags"@, CommitField::BranchesAndTags) {
                Err(err) => Err(err),
                Ok(bt) => match texts_field(e, "parent_oids"@, CommitField::ParentOids) {
                    Err(err) => Err(err),
                    Ok(ps) => match texts_field(e, "child_oids"@, CommitField::ChildOids) {
                        Err(err) => Err(err),
                        Ok(cs) => match int_field(e, "x"@, CommitField::X) {
                            Err(err) => Err(err),
                            Ok(x) => match int_field(e, "y"@, CommitField::Y) {
                                Err(err) => Err(err),
                                Ok(y) => Ok(
                                    SVGRowView {
                                        sha,
                                        summary,
                                        branches_and_tags: bt,
                                        parent_oids: ps,
                                        child_oids: cs,
                                        x,
                                        y,
                                    },
                                ),
                            },
                        },
                    },
                },
            },
        },
    }
}

/// The position of the value `entry_value` gives.
fn find_entry(entries: &Vec<(String, SVGCommitInfoValue)>, key: &str) -> (r: Option<usize>)
    ensures
        match entry_value(entries.deep_view(), key@) {
            Some(v) => r matches Some(i) && i < entries@.len() && entries@[i as int].1.deep_view() == v,
            None => r is None,
        },
{
    let ghost d = entries.deep_view();
    let mut i = entries.len();
    proof {
        assert(d.subrange(0, i as int) =~= d);
    }
    while i > 0
        invariant
            i <= entries@.len(),
            d == entries.deep_view(),
            entry_value(d, key@) == entry_value(d.subrange(0, i as int), key@),
        decreases i,
    {
        proof {
            assert(d.subrange(0, i as int).drop_last() =~= d.subrange(0, i - 1));
        }
        if str_eq(entries[i - 1].0.as_str(), key) {
            proof {
                assert(d.subrange(0, i as int).last() == d[i - 1]);
            }
            return Some(i - 1);
        }
        i = i - 1;
    }
    None
}

fn get_text(entries: &Vec<(String, SVGCommitInfoValue)>, key: &str, f: CommitField) -> (r: Result<String, CommitFieldError>)
    ensures
        match text_field(entries.deep_view(), key@, f) {
            Ok(s) => r matches Ok(t) && t@ == s,
            Err(e) => r matches Err(e2) && e2 == e,
        },
{
    match find_entry(entries, key) {
        Some(i) => match &entries[i].1 {
            SVGCommitInfoValue::SomeString(s) => Ok(owned(s.as_str())),
            _ => Err(CommitFieldError::WrongKind(f)),
        },
        None => Err(CommitFieldError::Missing(f)),
    }
}

fn get_texts(entries: &Vec<(String, SVGCommitInfoValue)>, key: &str, f: CommitField) -> (r: Result<Vec<String>, CommitFieldError>)
    ensures
        match texts_field(entries.deep_view(), key@, f) {
            Ok(s) => r matches Ok(t) && t.deep_view() == s,
            Err(e) => r matches Err(e2) && e2 == e,
        },
{
    match find_entry(entries, key) {
        Some(i) => match &entries[i].1 {
            SVGCommitInfoValue::SomeStringVec(v) => Ok(clone_strings(v)),
            _ => Err(CommitFieldError::WrongKind(f)),
        },
        None => Err(CommitFieldError::Missing(f)),
    }
}

fn get_pairs(entries: &Vec<(String, SVGCommitInfoValue)>, key: &str, f: CommitField) -> (r: Result<Vec<(String, String)>, CommitFieldError>)
    ensures
        match pairs_field(entries.deep_view(), key@, f) {
            Ok(s) => r matches Ok(t) && t.deep_view() == s,
            Err(e) => r matches Err(e2) && e2 == e,
        },
{
    match find_entry(entries, key) {
        Some(i) => match &entries[i].1 {
            SVGCommitInfoValue::SomeStringTupleVec(v) => Ok(clone_pairs(v)),
            _ => Err(CommitFieldError::WrongKind(f)),
        },
        None => Err(CommitFieldError::Missing(f)),
    }
}

fn get_int(entries: &Vec<(String, SVGCommitInfoValue)>, key: &str, f: CommitField) -> (r: Result<isize, CommitFieldError>)
    ensures
        match int_field(entries.deep_view(), key@, f) {
            Ok(s) => r matches Ok(t) && t as int == s,
            Err(e) => r matches Err(e2) && e2 == e,
        },
{
    match find_entry(entries, key) {
        Some(i) => match &entries[i].1 {
            SVGCommitInfoValue::SomeInt(v) => Ok(*v),
            _ => Err(CommitFieldError::WrongKind(f)),
        },
        None => Err(CommitFieldError::Missing(f)),
    }
}

/// Reads the row a commit record describes (see `row_from_entries`).
pub fn svg_row_from_commit_info(commit_info: &Vec<(String, SVGCommitInfoValue)>) -> (r: Result<SVGRow, CommitFieldError>)
    ensures
        match row_from_entries(commit_info.deep_view()) {
            Ok(v) => r matches Ok(row) && row@ == v,
            Err(e) => r matches Err(e2) && e2 == e,
        },
{
    let oid = match get_text(commit_info, "oid", CommitField::Oid) {
        Ok(s) => s,
        Err(e) => return Err(e),
    };
    let summary = match get_text(commit_info, "summary", CommitField::Summary) {
        Ok(s) => s,
        Err(e) => return Err(e),
    };
    let branches_and_tags = match get_pairs(commit_info, "branches_and_tags", CommitField::BranchesAndTags) {
        Ok(v) => v,
        Err(e) => return Err(e),
    };
    let parent_oids = match get_texts(commit_info, "parent_oids", CommitField::ParentOids) {
        Ok(v) => v,
        Err(e) => return Err(e),
    };
    let child_oids = match get_texts(commit_info, "child_oids", CommitField::ChildOids) {
        Ok(v) => v,
        Err(e) => return Err(e),
    };
    let x = match get_int(commit_info, "x", CommitField::X) {
        Ok(i) => i,
        Err(e) => return Err(e),
    };
    let y = match get_int(commit_info, "y", CommitField::Y) {
        Ok(i) => i,
        Err(e) => return Err(e),
    };
    Ok(SVGRow::new(oid, summary, branches_and_tags, parent_oids, child_oids, x, y))
}

/// The rows the first `k` commit records describe, or the first error.
pub open spec fn rows_from_records(records: Seq<Seq<(Seq<char>, CommitValue)>>, k: int) -> Result<Seq<SVGRowView>, CommitFieldError>
    decreases k,
{
    if k <= 0 {
        Ok(seq![])
    } else {
        match rows_from_records(records, k - 1) {
            Err(e) => Err(e),
            Ok(prev) => match row_from_entries(records[k - 1]) {
                Err(e) => Err(e),
                Ok(v) => Ok(prev.push(v)),
            },
        }
    }
}

/// Reads the rows of the graph back from the commit records, in order (see
/// `rows_from_records`).
pub fn get_svg_rows(commit_info_list: &Vec<Vec<(String, SVGCommitInfoValue)>>) -> (r: Result<Vec<SVGRow>, CommitFieldError>)
    ensures
        match rows_from_records(commit_info_list.deep_view(), commit_info_list@.len() as int) {
            Ok(vs) => r matches Ok(rows) && rows@.len() == vs.len() && forall|i: int|
                0 <= i < vs.len() ==> #[trigger] rows@[i]@ == vs[i],
            Err(e) => r matches Err(e2) && e2 == e,
        },
{
    let ghost d = commit_info_list.deep_view();
    let mut svg_rows: Vec<SVGRow> = Vec::new();
    let mut i: usize = 0;
    while i < commit_info_list.len()
        invariant
            i <= commit_info_list@.len(),
            d == commit_info_list.deep_view(),
            rows_from_records(d, i as int) matches Ok(vs) && svg_rows@.len() == vs.len() && forall|m: int|
                0 <= m < vs.len() ==> #[trigger] svg_rows@[m]@ == vs[m],
        decreases commit_info_list@.len() - i,
    {
        match svg_row_from_commit_info(&commit_info_list[i]) {
            Ok(row) => {
                svg_rows.push(row);
            },
            Err(e) => {
                proof {
                    lemma_rows_error_stays(d, (i + 1) as int, d.len() as int);
                }
                return Err(e);
            },
        }
        i = i + 1;
    }
    Ok(svg_rows)
}

proof fn lemma_rows_error_stays(records: Seq<Seq<(Seq<char>, CommitValue)>>, k: int, n: int)
    requires
        0 <= k <= n,
        rows_from_records(records, k) is Err,
    ensures
        rows_from_records(records, n) == rows_from_records(records, k),
    decreases n - k,
{
    if k < n {
        lemma_rows_error_stays(records, k + 1, n);
    }
}

} // verus!
