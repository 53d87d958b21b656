//! Where the commit graph starts and when it must be walked again. The walk
//! starts at the commits that branches (and a detached HEAD) point at, each
//! once, newest first; it is walked again only when that list changed or a
//! refresh is forced, and it stops after the configured number of commits
//! when the graph is cut off.
use vstd::prelude::*;
use crate::config_manager::Config;
use crate::text::{owned, str_eq};

verus! {

/// The commits that the given targets point at, without repeats, each
/// where it first occurs; a missing target is skipped.
pub open spec fn starting_points(targets: Seq<Option<Seq<char>>>) -> Seq<Seq<char>>
    decreases targets.len(),
{
    if targets.len() == 0 {
        seq![]
    } else {
        let prev = starting_points(targets.drop_last());
        match targets.last() {
            Some(o) => if prev.contains(o) {
                prev
            } else {
                prev.push(o)
            },
            None => prev,
        }
    }
}

/// Whether `v` holds a string equal to `s`.
fn holds_string(v: &Vec<String>, s: &String) -> (b: bool)
    ensures
        b == v.deep_view().contains(s@),
{
    let mut i: usize = 0;
    while i < v.len()
        invariant
            i <= v@.len(),
            forall|j: int| 0 <= j < i ==> v.deep_view()[j] != s@,
        decreases v@.len() - i,
    {
        if str_eq(v[i].as_str(), s.as_str()) {
            proof {
                assert(v.deep_view()[i as int] == s@);
            }
            return true;
        }
        i = i + 1;
    }
    false
}

/// Lists the commits the graph starts at (see `starting_points`): the
/// targets of the branches, then that of a detached HEAD.
pub fn collect_starting_oids(targets: &Vec<Option<String>>) -> (r: Vec<String>)
    ensures
        r.deep_view() == starting_points(targets.deep_view()),
{
    let mut oid_vec: Vec<String> = Vec::new();
    let mut i: usize = 0;
    while i < targets.len()
        invariant
            i <= targets@.len(),
            oid_vec.deep_view() == starting_points(targets.deep_view().subrange(0, i as int)),
        decreases targets@.len() - i,
    {
        let ghost before = oid_vec.deep_view();
        proof {
            assert(targets.deep_view().subrange(0, i + 1).drop_last() =~= targets.deep_view().subrange(0, i as int));
        }
        match &targets[i] {
            Some(oid) => {
                if !holds_string(&oid_vec, oid) {
                    oid_vec.push(oid.clone());
                    proof {
                        assert(oid_vec.deep_view() =~= before.push(oid@));
                    }
                }
            },
            None => {},
        }
        i = i + 1;
    }
    proof {
        assert(targets.deep_view().subrange(0, targets@.len() as int) =~= targets.deep_view());
    }
    oid_vec
}

/// The first position from `i` on whose time is older than `t` (the length
/// when there is none).
pub open spec fn first_older(s: Seq<(Seq<char>, i64)>, t: i64, i: int) -> int
    decreases s.len() - i,
{
    if i < 0 || i >= s.len() {
        s.len() as int
    } else if s[i].1 < t {
        i
    } else {
        first_older(s, t, i + 1)
    }
}

/// A list ordered newest first with `e` put after every entry at least as
/// new.
pub open spec fn insert_by_time(sorted: Seq<(Seq<char>, i64)>, e: (Seq<char>, i64)) -> Seq<(Seq<char>, i64)> {
    sorted.insert(first_older(sorted, e.1, 0), e)
}

/// The entries ordered by time, newest first; entries with the same time
/// keep their order.
pub open spec fn sorted_by_time(s: Seq<(Seq<char>, i64)>) -> Seq<(Seq<char>, i64)>
    decreases s.len(),
{
    if s.len() == 0 {
        seq![]
    } else {
        insert_by_time(sorted_by_time(s.drop_last()), s.last())
    }
}

/// No entry is newer than the one before it.
pub open spec fn newest_first(s: Seq<(Seq<char>, i64)>) -> bool {
    forall|i: int, j: int| 0 <= i < j < s.len() ==> s[j].1 <= s[i].1
}

proof fn lemma_first_older(s: Seq<(Seq<char>, i64)>, t: i64, i: int)
    requires
        0 <= i <= s.len(),
    ensures
        i <= first_older(s, t, i) <= s.len(),
        forall|m: int| i <= m < first_older(s, t, i) ==> !(s[m].1 < t),
        first_older(s, t, i) < s.len() ==> s[first_older(s, t, i)].1 < t,
    decreases s.len() - i,
{
    if i < s.len() && !(s[i].1 < t) {
        lemma_first_older(s, t, i + 1);
    }
}

/// Sorting keeps the list ordered newest first and keeps its entries.
pub proof fn lemma_sorted_by_time(s: Seq<(Seq<char>, i64)>)
    ensures
        newest_first(sorted_by_time(s)),
        sorted_by_time(s).to_multiset() == s.to_multiset(),
        sorted_by_time(s).len() == s.len(),
    decreases s.len(),
{
    broadcast use vstd::seq_lib::group_to_multiset_ensures;

    if s.len() == 0 {
        assert(s =~= Seq::<(Seq<char>, i64)>::empty());
    } else {
        let prev = sorted_by_time(s.drop_last());
        lemma_sorted_by_time(s.drop_last());
        let e = s.last();
        lemma_first_older(prev, e.1, 0);
        let p = first_older(prev, e.1, 0);
        let r = prev.insert(p, e);
        assert forall|i: int, j: int| 0 <= i < j < r.len() implies r[j].1 <= r[i].1 by {
            if j < p {
                assert(r[i] == prev[i] && r[j] == prev[j]);
            } else if j == p {
                assert(r[i] == prev[i]);
            } else if i < p {
                assert(r[i] == prev[i] && r[j] == prev[j - 1]);
                if p < prev.len() {
                    assert(prev[p].1 < e.1);
                }
            } else if i == p {
                assert(r[j] == prev[j - 1]);
                assert(prev[p].1 < e.1);
            } else {
                assert(r[i] == prev[i - 1] && r[j] == prev[j - 1]);
            }
        }
        vstd::seq_lib::to_multiset_insert(prev, p, e);
        assert(s =~= s.drop_last().push(e));
        assert(s.drop_last().push(e).to_multiset() =~= s.drop_last().to_multiset().insert(e));
    }
}

/// Whether an entry has time `t`.
pub open spec fn has_time(t: i64) -> spec_fn((Seq<char>, i64)) -> bool {
    |e: (Seq<char>, i64)| e.1 == t
}

/// The entries of `s` with time `t`, in their order.
pub open spec fn with_time(s: Seq<(Seq<char>, i64)>, t: i64) -> Seq<(Seq<char>, i64)> {
    s.filter(has_time(t))
}

/// Sorting is stable: the entries with any one time come out in the order
/// they went in.
pub proof fn lemma_sort_is_stable(s: Seq<(Seq<char>, i64)>, t: i64)
    ensures
        with_time(sorted_by_time(s), t) == with_time(s, t),
    decreases s.len(),
{
    if s.len() == 0 {
        assert(s =~= Seq::<(Seq<char>, i64)>::empty());
    } else {
        let pred = has_time(t);
        let prev = sorted_by_time(s.drop_last());
        lemma_sort_is_stable(s.drop_last(), t);
        lemma_sorted_by_time(s.drop_last());
        let e = s.last();
        lemma_first_older(prev, e.1, 0);
        let p = first_older(prev, e.1, 0);
        let a = prev.subrange(0, p);
        let b = prev.subrange(p, prev.len() as int);
        assert(prev =~= a + b);
        assert(prev.insert(p, e) =~= a.push(e) + b);
        Seq::filter_distributes_over_add(a, b, pred);
        Seq::filter_distributes_over_add(a.push(e), b, pred);
        a.lemma_filter_push(e, pred);
        assert(s =~= s.drop_last().push(e));
        s.drop_last().lemma_filter_push(e, pred);
        if e.1 == t {
            assert forall|m: int| 0 <= m < b.len() implies !pred(#[trigger] b[m]) by {
                assert(b[m] == prev[p + m]);
                assert(prev[p].1 < e.1);
                if m > 0 {
                    assert(prev[p + m].1 <= prev[p].1);
                }
            }
            b.lemma_all_neg_filter_empty(pred);
            assert(b.filter(pred) =~= Seq::<(Seq<char>, i64)>::empty());
        }
    }
}

/// Orders the starting commits by their commit time, newest first (see
/// `sorted_by_time`).
pub fn sort_by_time(oids: Vec<(String, i64)>) -> (r: Vec<(String, i64)>)
    ensures
        r.deep_view() == sorted_by_time(oids.deep_view()),
{
    let mut out: Vec<(String, i64)> = Vec::new();
    let mut i: usize = 0;
    let ghost all = oids.deep_view();
    while i < oids.len()
        invariant
            i <= oids@.len(),
            all == oids.deep_view(),
            out.deep_view() == sorted_by_time(all.subrange(0, i as int)),
        decreases oids@.len() - i,
    {
        let t = oids[i].1;
        let ghost sorted = out.deep_view();
        let mut p: usize = 0;
        while p < out.len() && !(out[p].1 < t)
            invariant
                p <= out@.len(),
                sorted == out.deep_view(),
                first_older(sorted, t, 0) == first_older(sorted, t, p as int),
            decreases out@.len() - p,
        {
            p = p + 1;
        }
        let e = (oids[i].0.clone(), t);
        out.insert(p, e);
        proof {
            assert(all.subrange(0, i + 1).drop_last() =~= all.subrange(0, i as int));
            assert(all.subrange(0, i + 1).last() == all[i as int]);
            assert(out.deep_view() =~= sorted.insert(p as int, e.deep_view()));
        }
        i = i + 1;
    }
    proof {
        assert(all.subrange(0, oids@.len() as int) =~= all);
    }
    out
}

/// Whether the commits the graph started at last time are, in order, the
/// ones it starts at now.
pub fn old_shas_eq_sorted_new_oids(old_graph_starting_shas: &Vec<String>, new_oids: &Vec<String>) -> (b: bool)
    ensures
        b == (old_graph_starting_shas.deep_view() == new_oids.deep_view()),
{
    if old_graph_starting_shas.len() != new_oids.len() {
        proof {
            assert(old_graph_starting_shas.deep_view().len() != new_oids.deep_view().len());
        }
        return false;
    }
    let mut i: usize = 0;
    while i < old_graph_starting_shas.len()
        invariant
            i <= old_graph_starting_shas@.len(),
            old_graph_starting_shas@.len() == new_oids@.len(),
            forall|j: int| 0 <= j < i ==> old_graph_starting_shas.deep_view()[j] == new_oids.deep_view()[j],
        decreases old_graph_starting_shas@.len() - i,
    {
        if !str_eq(old_graph_starting_shas[i].as_str(), new_oids[i].as_str()) {
            proof {
                assert(old_graph_starting_shas.deep_view()[i as int] != new_oids.deep_view()[i as int]);
            }
            return false;
        }
        i = i + 1;
    }
    proof {
        assert(old_graph_starting_shas.deep_view() =~= new_oids.deep_view());
    }
    true
}

/// The starting commits kept for next time, and whether the graph is walked
/// now: a forced refresh forgets the kept list first; the graph is walked
/// (and the new list kept) only when the kept list differs from the new one.
pub open spec fn refresh_decision(old: Seq<Seq<char>>, new: Seq<Seq<char>>, force_refresh: bool) -> (Seq<Seq<char>>, bool) {
    let base = if force_refresh {
        seq![]
    } else {
        old
    };
    if base == new {
        (base, false)
    } else {
        (new, true)
    }
}

/// Decides whether the graph is walked again (see `refresh_decision`).
pub fn refresh_starting_shas(old_graph_starting_shas: Vec<String>, new_oids: &Vec<String>, force_refresh: bool) -> (r: (Vec<String>, bool))
    ensures
        (r.0.deep_view(), r.1) == refresh_decision(old_graph_starting_shas.deep_view(), new_oids.deep_view(), force_refresh),
{
    let mut kept = old_graph_starting_shas;
    if force_refresh {
        kept = Vec::new();
        proof {
            assert(kept.deep_view() =~= Seq::<Seq<char>>::empty());
        }
    }
    if old_shas_eq_sorted_new_oids(&kept, new_oids) {
        return (kept, false);
    }
    (crate::text::clone_strings(new_oids), true)
}

/// The graph starts at each targeted commit exactly once: the starting list
/// has no repeats and holds every commit a target points at.
pub proof fn lemma_starting_points(targets: Seq<Option<Seq<char>>>)
    ensures
        starting_points(targets).no_duplicates(),
        forall|o: Seq<char>| #[trigger] starting_points(targets).contains(o) <==> targets.contains(Some(o)),
    decreases targets.len(),
{
    if targets.len() > 0 {
        let prev = starting_points(targets.drop_last());
        lemma_starting_points(targets.drop_last());
        assert(targets =~= targets.drop_last().push(targets.last()));
        assert forall|o: Seq<char>| #[trigger] starting_points(targets).contains(o) <==> targets.contains(Some(o)) by {
            if targets.drop_last().contains(Some(o)) {
                let w = choose|w: int| 0 <= w < targets.drop_last().len() && #[trigger] targets.drop_last()[w] == Some(o);
                assert(targets[w] == Some(o));
            }
            if targets.contains(Some(o)) {
                let w = choose|w: int| 0 <= w < targets.len() && #[trigger] targets[w] == Some(o);
                if w < targets.len() - 1 {
                    assert(targets.drop_last()[w] == Some(o));
                }
            }
            match targets.last() {
                Some(t) => {
                    if !prev.contains(t) {
                        assert(prev.push(t)[prev.len() as int] == t);
                        if prev.push(t).contains(o) {
                            let w = choose|w: int| 0 <= w < prev.len() + 1 && #[trigger] prev.push(t)[w] == o;
                            if w < prev.len() {
                                assert(prev[w] == o);
                            }
                        }
                        if prev.contains(o) {
                            let w = choose|w: int| 0 <= w < prev.len() && #[trigger] prev[w] == o;
                            assert(prev.push(t)[w] == o);
                        }
                    }
                },
                None => {},
            }
        }
        match targets.last() {
            Some(t) => {
                if !prev.contains(t) {
                    assert forall|i: int, j: int| 0 <= i < j < prev.len() + 1 implies prev.push(t)[i] != prev.push(t)[j] by {
                        if j == prev.len() {
                            assert(prev[i] == prev.push(t)[i]);
                        }
                    }
                }
            },
            None => {},
        }
    }
}

/// Once the graph was walked for a list of starting commits, the same list
/// does not make it walk again unless a refresh is forced.
pub proof fn lemma_refresh_settles(old: Seq<Seq<char>>, new: Seq<Seq<char>>, force_refresh: bool)
    ensures
        refresh_decision(old, new, force_refresh).0 == new,
        refresh_decision(refresh_decision(old, new, force_refresh).0, new, false) == (new, false),
{
}

/// Why the graph's limits could not be read from the preferences.
pub enum RevwalkConfigError {
    /// The preferences do not say whether the graph is cut off.
    MissingLimitCommits,
    /// The preferences do not say after how many commits.
    MissingCommitCount,
}

/// The message shown when a limit of the graph is not set.
pub open spec fn revwalk_config_error_text(e: RevwalkConfigError) -> Seq<char> {
    match e {
        RevwalkConfigError::MissingLimitCommits => "limit_commits not present in config file!"@,
        RevwalkConfigError::MissingCommitCount => "commit_count not present in config file!"@,
    }
}

impl RevwalkConfigError {
    /// The message shown for this error (see `revwalk_config_error_text`).
    pub fn message(&self) -> (r: String)
        ensures
            r@ == revwalk_config_error_text(*self),
    {
        match self {
            RevwalkConfigError::MissingLimitCommits => owned("limit_commits not present in config file!"),
            RevwalkConfigError::MissingCommitCount => owned("commit_count not present in config file!"),
        }
    }
}

/// Whether the graph is cut off and after how many commits; an error when
/// either setting is absent (the first one missing is reported).
pub fn revwalk_limits(config: &Config) -> (r: Result<(bool, usize), RevwalkConfigError>)
    ensures
        match (config@.limit_commits, config@.commit_count) {
            (Some(l), Some(c)) => r == Ok::<(bool, usize), RevwalkConfigError>((l, c)),
            (None, _) => r matches Err(e) && e is MissingLimitCommits,
            (Some(_), None) => r matches Err(e) && e is MissingCommitCount,
        },
{
    let limit_commits = match config.borrow_limit_commits() {
        Some(b) => *b,
        None => return Err(RevwalkConfigError::MissingLimitCommits),
    };
    let commit_count = match config.borrow_commit_count() {
        Some(i) => *i,
        None => return Err(RevwalkConfigError::MissingCommitCount),
    };
    Ok((limit_commits, commit_count))
}

/// Whether the walk takes the commit at position `i`: always, unless the
/// graph is cut off and `commit_count` commits were taken already.
pub fn walk_takes(limit_commits: bool, commit_count: usize, i: usize) -> (b: bool)
    ensures
        b == !(limit_commits && i >= commit_count),
{
    !(limit_commits && i >= commit_count)
}

} // verus!
