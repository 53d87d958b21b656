//! Plain records that describe a repository to the front end: commits,
//! changed files, branches arranged as trees by their `/`-separated names,
//! and stashes.
use std::collections::VecDeque;
use vstd::prelude::*;
use crate::svg_row::{
    all_marks_upto, all_set, branch_label, drawable, grid, ints, layout_ok, links_valid, max_or_zero,
    resolve_links, row_drawing, row_views, rows_upto, with_x, RowProperty, SVGProperty, SVGRow,
    rows_drawable, SVGRowView, LayoutError,
};
use crate::text::{clone_pairs, bool_text, bool_to_string, clone_strings, concat_str, nat_decimal, owned, push_all, split_chars, split_on, usize_to_string};

verus! {

/// What a `ParseableCommitInfo` holds.
pub struct ParseableCommitInfoView {
    pub sha: Seq<char>,
    pub author_name: Seq<char>,
    pub author_time: Seq<char>,
    pub x: int,
    pub y: int,
    pub summary: Seq<char>,
    pub parent_shas: Seq<Seq<char>>,
    pub child_shas: Seq<Seq<char>>,
}

/// One commit as the graph view needs it.
#[derive(Clone)]
pub struct ParseableCommitInfo {
    pub sha: String,
    pub author_name: String,
    pub author_time: String,
    pub x: isize,
    pub y: isize,
    pub summary: String,
    pub parent_shas: Vec<String>,
    pub child_shas: Vec<String>,
}

impl View for ParseableCommitInfo {
    type V = ParseableCommitInfoView;

    open spec fn view(&self) -> ParseableCommitInfoView {
        ParseableCommitInfoView {
            sha: self.sha@,
            author_name: self.author_name@,
            author_time: self.author_time@,
            x: self.x as int,
            y: self.y as int,
            summary: self.summary@,
            parent_shas: self.parent_shas.deep_view(),
            child_shas: self.child_shas.deep_view(),
        }
    }
}

impl ParseableCommitInfo {
    pub fn new(
        sha: String,
        author_name: String,
        author_time: String,
        x: isize,
        y: isize,
        summary: String,
        parent_shas: Vec<String>,
        child_shas: Vec<String>,
    ) -> (r: Self)
        ensures
            r@ == (ParseableCommitInfoView {
                sha: sha@,
                author_name: author_name@,
                author_time: author_time@,
                x: x as int,
                y: y as int,
                summary: summary@,
                parent_shas: parent_shas.deep_view(),
                child_shas: child_shas.deep_view(),
            }),
    {
        Self { sha, author_name, author_time, x, y, summary, parent_shas, child_shas }
    }

    pub fn borrow_sha(&self) -> (r: &String)
        ensures
            r@ == self@.sha,
    {
        &self.sha
    }

    pub fn borrow_author_name(&self) -> (r: &String)
        ensures
            r@ == self@.author_name,
    {
        &self.author_name
    }

    pub fn borrow_author_time(&self) -> (r: &String)
        ensures
            r@ == self@.author_time,
    {
        &self.author_time
    }

    pub fn borrow_x(&self) -> (r: &isize)
        ensures
            *r as int == self@.x,
    {
        &self.x
    }

    pub fn borrow_y(&self) -> (r: &isize)
        ensures
            *r as int == self@.y,
    {
        &self.y
    }

    pub fn borrow_summary(&self) -> (r: &String)
        ensures
            r@ == self@.summary,
    {
        &self.summary
    }

    pub fn borrow_parent_shas(&self) -> (r: &Vec<String>)
        ensures
            r.deep_view() == self@.parent_shas,
    {
        &self.parent_shas
    }

    pub fn borrow_child_shas(&self) -> (r: &Vec<String>)
        ensures
            r.deep_view() == self@.child_shas,
    {
        &self.child_shas
    }
}

/// What a `BranchInfo` holds.
pub struct BranchInfoView {
    pub target_sha: Seq<char>,
    pub branch_shorthand: Seq<char>,
    pub full_branch_name: Seq<char>,
    pub is_head: bool,
    pub branch_type: Seq<char>,
    pub ahead: usize,
    pub behind: usize,
    pub has_upstream: bool,
}

/// One branch or tag reference.
#[derive(Clone)]
pub struct BranchInfo {
    pub target_sha: String,
    pub branch_shorthand: String,
    pub full_branch_name: String,
    pub is_head: bool,
    pub branch_type: String,
    pub ahead: usize,
    pub behind: usize,
    pub has_upstream: bool,
}

impl View for BranchInfo {
    type V = BranchInfoView;

    open spec fn view(&self) -> BranchInfoView {
        BranchInfoView {
            target_sha: self.target_sha@,
            branch_shorthand: self.branch_shorthand@,
            full_branch_name: self.full_branch_name@,
            is_head: self.is_head,
            branch_type: self.branch_type@,
            ahead: self.ahead,
            behind: self.behind,
            has_upstream: self.has_upstream,
        }
    }
}

impl BranchInfo {
    pub fn new(
        target_sha: String,
        branch_shorthand: String,
        full_branch_name: String,
        is_head: bool,
        branch_type: String,
        ahead: usize,
        behind: usize,
        has_upstream: bool,
    ) -> (r: Self)
        ensures
            r@ == (BranchInfoView {
                target_sha: target_sha@,
                branch_shorthand: branch_shorthand@,
                full_branch_name: full_branch_name@,
                is_head,
                branch_type: branch_type@,
                ahead,
                behind,
                has_upstream,
            }),
    {
        Self {
            target_sha,
            branch_shorthand,
            full_branch_name,
            is_head,
            branch_type,
            ahead,
            behind,
            has_upstream,
        }
    }

    /// A copy of this record.
    pub fn duplicate(&self) -> (r: Self)
        ensures
            r@ == self@,
    {
        BranchInfo {
            target_sha: self.target_sha.clone(),
            branch_shorthand: self.branch_shorthand.clone(),
            full_branch_name: self.full_branch_name.clone(),
            is_head: self.is_head,
            branch_type: self.branch_type.clone(),
            ahead: self.ahead,
            behind: self.behind,
            has_upstream: self.has_upstream,
        }
    }
}

/// A node of a branch tree, as plain values: the name segment it stands
/// for, the branch that ends there (if any) and its child nodes in order.
pub struct BranchTree {
    pub text: Seq<char>,
    pub branch_info: Option<BranchInfoView>,
    pub children: Seq<BranchTree>,
}

/// Branches arranged by the segments of their names: `origin/feature/x`
/// becomes the path `origin` → `feature` → `x`.
pub struct BranchInfoTreeNode {
    pub text: String,
    pub branch_info: Option<BranchInfo>,
    pub children: Vec<BranchInfoTreeNode>,
}

/// The plain value of an optional branch record.
pub open spec fn info_view(info: Option<BranchInfo>) -> Option<BranchInfoView> {
    match info {
        Some(b) => Some(b@),
        None => None,
    }
}

/// The plain tree of a node.
pub closed spec fn tree_of(node: BranchInfoTreeNode) -> BranchTree
    decreases node, 1int,
{
    BranchTree {
        text: node.text@,
        branch_info: info_view(node.branch_info),
        children: trees_of(node.children@, node.children@.len() as int),
    }
}

/// The plain trees of the first `k` nodes of a sequence.
pub closed spec fn trees_of(nodes: Seq<BranchInfoTreeNode>, k: int) -> Seq<BranchTree>
    decreases nodes, 0int, k,
{
    if k <= 0 || k > nodes.len() {
        seq![]
    } else {
        proof {
            vstd::seq::axiom_seq_index_decreases(nodes, k - 1);
        }
        trees_of(nodes, k - 1).push(tree_of(nodes[k - 1]))
    }
}

impl View for BranchInfoTreeNode {
    type V = BranchTree;

    open spec fn view(&self) -> BranchTree {
        tree_of(*self)
    }
}

/// The index of the first child whose text is `t`.
pub open spec fn first_child_with_text(children: Seq<BranchTree>, t: Seq<char>) -> Option<int>
    decreases children.len(),
{
    if children.len() == 0 {
        None
    } else {
        match first_child_with_text(children.drop_last(), t) {
            Some(j) => Some(j),
            None => if children.last().text == t {
                Some(children.len() - 1)
            } else {
                None
            },
        }
    }
}

/// The tree `node` after the name segments `parts[i..]` are inserted below
/// it: each segment follows the first child with that text, or adds a new
/// child at the end; a new node made for the last segment carries `info`.
pub open spec fn tree_insert(
    node: BranchTree,
    parts: Seq<Seq<char>>,
    i: int,
    info: Option<BranchInfoView>,
) -> BranchTree
    decreases parts.len() - i,
{
    if i < 0 || i >= parts.len() {
        node
    } else {
        match first_child_with_text(node.children, parts[i]) {
            Some(j) => BranchTree {
                children: node.children.update(
                    j,
                    tree_insert(node.children[j], parts, i + 1, info),
                ),
                ..node
            },
            None => {
                let fresh = BranchTree {
                    text: parts[i],
                    branch_info: if i == parts.len() - 1 {
                        info
                    } else {
                        None
                    },
                    children: seq![],
                };
                BranchTree {
                    children: node.children.push(tree_insert(fresh, parts, i + 1, info)),
                    ..node
                }
            },
        }
    }
}

/// The plain values of a sequence of strings.
pub open spec fn strings_view(s: Seq<String>) -> Seq<Seq<char>> {
    s.map_values(|x: String| x@)
}

/// A copy of an optional branch record.
pub fn duplicate_info(info: &Option<BranchInfo>) -> (r: Option<BranchInfo>)
    ensures
        info_view(r) == info_view(*info),
{
    match info {
        Some(b) => Some(b.duplicate()),
        None => None,
    }
}

proof fn lemma_trees_of_index(nodes: Seq<BranchInfoTreeNode>, k: int)
    requires
        0 <= k <= nodes.len(),
    ensures
        trees_of(nodes, k).len() == k,
        forall|m: int| 0 <= m < k ==> #[trigger] trees_of(nodes, k)[m] == tree_of(nodes[m]),
    decreases k,
{
    if k > 0 {
        lemma_trees_of_index(nodes, k - 1);
    }
}

proof fn lemma_trees_of_ext(a: Seq<BranchInfoTreeNode>, b: Seq<BranchInfoTreeNode>, k: int)
    requires
        0 <= k <= a.len(),
        k <= b.len(),
        forall|m: int| 0 <= m < k ==> tree_of(#[trigger] a[m]) == tree_of(b[m]),
    ensures
        trees_of(a, k) == trees_of(b, k),
    decreases k,
{
    if k > 0 {
        lemma_trees_of_ext(a, b, k - 1);
    }
}

proof fn lemma_first_child(children: Seq<BranchTree>, t: Seq<char>)
    ensures
        match first_child_with_text(children, t) {
            Some(j) => 0 <= j < children.len() && children[j].text == t && forall|m: int|
                0 <= m < j ==> #[trigger] children[m].text != t,
            None => forall|m: int| 0 <= m < children.len() ==> #[trigger] children[m].text != t,
        },
    decreases children.len(),
{
    if children.len() > 0 {
        lemma_first_child(children.drop_last(), t);
        assert(forall|m: int|
            0 <= m < children.len() - 1 ==> children.drop_last()[m] == #[trigger] children[m]);
    }
}

impl BranchInfoTreeNode {
    pub fn new(text: String, branch_info: Option<BranchInfo>) -> (r: Self)
        ensures
            r@ == (BranchTree { text: text@, branch_info: info_view(branch_info), children: seq![] }),
    {
        let r = Self { text, branch_info, children: Vec::new() };
        proof {
            assert(trees_of(r.children@, 0) =~= seq![]);
        }
        r
    }

    /// The position of the first child whose text is `s`.
    fn find_child(&self, s: &String) -> (r: Option<usize>)
        ensures
            r matches Some(j) ==> first_child_with_text(self@.children, s@) == Some(j as int),
            r is None ==> first_child_with_text(self@.children, s@) is None,
    {
        proof {
            lemma_trees_of_index(self.children@, self.children@.len() as int);
        }
        let mut k: usize = 0;
        while k < self.children.len()
            invariant
                k <= self.children.len(),
                self@.children.len() == self.children@.len(),
                forall|m: int| 0 <= m < self.children@.len() ==> #[trigger] self@.children[m] == tree_of(self.children@[m]),
                forall|m: int| 0 <= m < k ==> #[trigger] self@.children[m].text != s@,
            decreases self.children.len() - k,
        {
            if self.children[k].text == *s {
                proof {
                    lemma_first_child(self@.children, s@);
                    assert(self@.children[k as int].text == s@);
                }
                return Some(k);
            }
            k = k + 1;
        }
        proof {
            lemma_first_child(self@.children, s@);
        }
        None
    }

    fn insert_from(&mut self, parts: &VecDeque<String>, i: usize, branch_info: &Option<BranchInfo>)
        requires
            i <= parts@.len(),
        ensures
            final(self)@ == tree_insert(old(self)@, strings_view(parts@), i as int, info_view(*branch_info)),
        decreases parts@.len() - i,
    {
        let ghost pv = strings_view(parts@);
        if i < parts.len() {
            let s = parts[i].clone();
            proof {
                lemma_trees_of_index(self.children@, self.children@.len() as int);
            }
            match self.find_child(&s) {
                Some(j) => {
                    proof {
                        lemma_first_child(self@.children, s@);
                    }
                    let ghost old_children = self.children@;
                    let ghost old_view = self@;
                    self.children[j].insert_from(parts, i + 1, branch_info);
                    proof {
                        let n = old_children.len() as int;
                        assert(self.children@.len() == n);
                        lemma_trees_of_index(self.children@, n);
                        lemma_trees_of_index(old_children, n);
                        assert(trees_of(self.children@, n) =~= old_view.children.update(
                            j as int,
                            tree_of(self.children@[j as int]),
                        ));
                        assert(s@ == pv[i as int]);
                        assert(self@.children == old_view.children.update(
                            j as int,
                            tree_insert(old_view.children[j as int], pv, i + 1, info_view(*branch_info)),
                        ));
                        assert(first_child_with_text(old_view.children, pv[i as int]) == Some(j as int));
                        assert(self@.text == old_view.text);
                        assert(self@.branch_info == old_view.branch_info);
                        assert(self@ == tree_insert(old_view, pv, i as int, info_view(*branch_info)));
                    }
                },
                None => {
                    let info = if i == parts.len() - 1 {
                        duplicate_info(branch_info)
                    } else {
                        None
                    };
                    let mut fresh = BranchInfoTreeNode::new(s, info);
                    fresh.insert_from(parts, i + 1, branch_info);
                    let ghost old_children = self.children@;
                    let ghost old_view = self@;
                    self.children.push(fresh);
                    proof {
                        let n = old_children.len() as int;
                        lemma_trees_of_ext(self.children@, old_children, n);
                        assert(self.children@[n] == fresh);
                        assert(trees_of(self.children@, n + 1) == trees_of(old_children, n).push(tree_of(fresh)));
                        assert(s@ == pv[i as int]);
                        assert(self@ == tree_insert(old_view, pv, i as int, info_view(*branch_info)));
                    }
                },
            }
        }
    }

    /// Adds a branch below this root node along the segments of its name.
    /// Each segment follows the first child that already has that text, or
    /// makes a new last child; the node made for the final segment (if it is
    /// new) holds `branch_info`.
    pub fn insert_split_shorthand(
        &mut self,
        split_shorthand: VecDeque<String>,
        branch_info: Option<BranchInfo>,
    )
        requires
            old(self)@.text == Seq::<char>::empty(),
        ensures
            final(self)@ == tree_insert(
                old(self)@,
                strings_view(split_shorthand@),
                0,
                info_view(branch_info),
            ),
    {
        self.insert_from(&split_shorthand, 0, &branch_info);
    }
}

/// The name segments `parts[i..]` lead, child by child (the first child
/// with each text), from `node` to a node of the tree.
pub open spec fn has_path(node: BranchTree, parts: Seq<Seq<char>>, i: int) -> bool
    decreases parts.len() - i,
{
    if i < 0 || i >= parts.len() {
        true
    } else {
        match first_child_with_text(node.children, parts[i]) {
            Some(j) => has_path(node.children[j], parts, i + 1),
            None => false,
        }
    }
}

proof fn lemma_first_child_update(children: Seq<BranchTree>, t: Seq<char>, j: int, c: BranchTree)
    requires
        first_child_with_text(children, t) == Some(j),
        c.text == t,
    ensures
        first_child_with_text(children.update(j, c), t) == Some(j),
{
    lemma_first_child(children, t);
    let u = children.update(j, c);
    lemma_first_child(u, t);
    match first_child_with_text(u, t) {
        Some(k) => {
            if k < j {
                assert(u[k] == children[k]);
            }
            if j < k {
                assert(u[j].text == t);
            }
        },
        None => {
            assert(u[j].text == t);
        },
    }
}

proof fn lemma_first_child_push(children: Seq<BranchTree>, t: Seq<char>, c: BranchTree)
    requires
        first_child_with_text(children, t) is None,
        c.text == t,
    ensures
        first_child_with_text(children.push(c), t) == Some(children.len() as int),
{
    assert(children.push(c).drop_last() =~= children);
}

/// Inserting a branch keeps the text of the node it is inserted below, and
/// afterwards the segments of the branch's name lead from that node to a
/// node of the tree.
pub proof fn lemma_insert_makes_path(node: BranchTree, parts: Seq<Seq<char>>, i: int, info: Option<BranchInfoView>)
    requires
        0 <= i,
    ensures
        tree_insert(node, parts, i, info).text == node.text,
        has_path(tree_insert(node, parts, i, info), parts, i),
    decreases parts.len() - i,
{
    if i < parts.len() {
        match first_child_with_text(node.children, parts[i]) {
            Some(j) => {
                lemma_first_child(node.children, parts[i]);
                lemma_insert_makes_path(node.children[j], parts, i + 1, info);
                lemma_first_child_update(node.children, parts[i], j, tree_insert(node.children[j], parts, i + 1, info));
            },
            None => {
                let fresh = BranchTree {
                    text: parts[i],
                    branch_info: if i == parts.len() - 1 {
                        info
                    } else {
                        None
                    },
                    children: seq![],
                };
                lemma_insert_makes_path(fresh, parts, i + 1, info);
                lemma_first_child_push(node.children, parts[i], tree_insert(fresh, parts, i + 1, info));
            },
        }
    }
}

/// No node of the tree has two children with the same text.
pub open spec fn siblings_distinct(t: BranchTree) -> bool
    decreases t,
{
    &&& forall|a: int, b: int|
        0 <= a < b < t.children.len() ==> #[trigger] t.children[a].text != #[trigger] t.children[b].text
    &&& forall|k: int| 0 <= k < t.children.len() ==> siblings_distinct(#[trigger] t.children[k])
}

/// Every node of `old` is still found in `new`, at the same place among
/// its siblings, with the same text and branch record.
pub open spec fn keeps_nodes(new: BranchTree, old: BranchTree) -> bool
    decreases old,
{
    &&& new.text == old.text
    &&& new.branch_info == old.branch_info
    &&& old.children.len() <= new.children.len()
    &&& forall|k: int|
        0 <= k < old.children.len() ==> keeps_nodes(#[trigger] new.children[k], old.children[k])
}

proof fn lemma_keeps_nodes_refl(t: BranchTree)
    ensures
        keeps_nodes(t, t),
    decreases t,
{
    assert forall|k: int| 0 <= k < t.children.len() implies keeps_nodes(
        #[trigger] t.children[k],
        t.children[k],
    ) by {
        lemma_keeps_nodes_refl(t.children[k]);
    }
}

/// Inserting a branch below a node keeps every node already there (same
/// place, text and branch record), and follows a child with a matching
/// text instead of adding a second one, so a tree whose siblings have
/// distinct texts keeps them distinct.
pub proof fn lemma_insert_keeps_nodes(
    node: BranchTree,
    parts: Seq<Seq<char>>,
    i: int,
    info: Option<BranchInfoView>,
)
    requires
        0 <= i,
    ensures
        keeps_nodes(tree_insert(node, parts, i, info), node),
        siblings_distinct(node) ==> siblings_distinct(tree_insert(node, parts, i, info)),
    decreases parts.len() - i,
{
    lemma_insert_makes_path(node, parts, i, info);
    if i >= parts.len() {
        lemma_keeps_nodes_refl(node);
    } else {
        let r = tree_insert(node, parts, i, info);
        lemma_first_child(node.children, parts[i]);
        match first_child_with_text(node.children, parts[i]) {
            Some(j) => {
                let c = tree_insert(node.children[j], parts, i + 1, info);
                lemma_insert_keeps_nodes(node.children[j], parts, i + 1, info);
                lemma_insert_makes_path(node.children[j], parts, i + 1, info);
                assert(r.children == node.children.update(j, c));
                assert forall|k: int| 0 <= k < node.children.len() implies keeps_nodes(
                    #[trigger] r.children[k],
                    node.children[k],
                ) by {
                    if k != j {
                        lemma_keeps_nodes_refl(node.children[k]);
                    }
                }
                if siblings_distinct(node) {
                    assert forall|a: int, b: int| 0 <= a < b < r.children.len() implies #[trigger] r.children[a].text
                        != #[trigger] r.children[b].text by {
                        assert(r.children[a].text == node.children[a].text);
                        assert(r.children[b].text == node.children[b].text);
                    }
                    assert forall|k: int| 0 <= k < r.children.len() implies siblings_distinct(
                        #[trigger] r.children[k],
                    ) by {
                        if k != j {
                            assert(r.children[k] == node.children[k]);
                        }
                    }
                }
            },
            None => {
                let fresh = BranchTree {
                    text: parts[i],
                    branch_info: if i == parts.len() - 1 {
                        info
                    } else {
                        None
                    },
                    children: seq![],
                };
                let c = tree_insert(fresh, parts, i + 1, info);
                lemma_insert_keeps_nodes(fresh, parts, i + 1, info);
                lemma_insert_makes_path(fresh, parts, i + 1, info);
                assert(r.children == node.children.push(c));
                assert forall|k: int| 0 <= k < node.children.len() implies keeps_nodes(
                    #[trigger] r.children[k],
                    node.children[k],
                ) by {
                    assert(r.children[k] == node.children[k]);
                    lemma_keeps_nodes_refl(node.children[k]);
                }
                assert(siblings_distinct(fresh));
                if siblings_distinct(node) {
                    assert forall|a: int, b: int| 0 <= a < b < r.children.len() implies #[trigger] r.children[a].text
                        != #[trigger] r.children[b].text by {
                        assert(r.children[a] == node.children[a]);
                        if b < node.children.len() {
                            assert(r.children[b] == node.children[b]);
                        } else {
                            assert(r.children[b].text == parts[i]);
                        }
                    }
                    assert forall|k: int| 0 <= k < r.children.len() implies siblings_distinct(
                        #[trigger] r.children[k],
                    ) by {
                        if k < node.children.len() {
                            assert(r.children[k] == node.children[k]);
                        }
                    }
                }
            },
        }
    }
}

/// What a `ParseableDiffDelta` holds.
pub struct ParseableDiffDeltaView {
    pub status: u8,
    pub path: Seq<char>,
}

/// One changed file: git's delta status number and the file's path.
#[derive(Clone)]
pub struct ParseableDiffDelta {
    pub status: u8,
    pub path: String,
}

impl View for ParseableDiffDelta {
    type V = ParseableDiffDeltaView;

    open spec fn view(&self) -> ParseableDiffDeltaView {
        ParseableDiffDeltaView { status: self.status, path: self.path@ }
    }
}

impl DeepView for ParseableDiffDelta {
    type V = ParseableDiffDeltaView;

    open spec fn deep_view(&self) -> ParseableDiffDeltaView {
        self@
    }
}

impl ParseableDiffDelta {
    pub fn new(status: u8, path: String) -> (r: Self)
        ensures
            r@ == (ParseableDiffDeltaView { status, path: path@ }),
    {
        Self { status, path }
    }

    pub fn get_status(&self) -> (r: u8)
        ensures
            r == self@.status,
    {
        self.status
    }

    pub fn get_path(&self) -> (r: &String)
        ensures
            r@ == self@.path,
    {
        &self.path
    }
}

/// What a `FilesChangedInfo` holds.
pub struct FilesChangedInfoView {
    pub files_changed: usize,
    pub unstaged_files: Seq<ParseableDiffDeltaView>,
    pub staged_files: Seq<ParseableDiffDeltaView>,
}

/// The working tree's unstaged and staged changes.
#[derive(Clone)]
pub struct FilesChangedInfo {
    pub files_changed: usize,
    pub unstaged_files: Vec<ParseableDiffDelta>,
    pub staged_files: Vec<ParseableDiffDelta>,
}

impl View for FilesChangedInfo {
    type V = FilesChangedInfoView;

    open spec fn view(&self) -> FilesChangedInfoView {
        FilesChangedInfoView {
            files_changed: self.files_changed,
            unstaged_files: self.unstaged_files.deep_view(),
            staged_files: self.staged_files.deep_view(),
        }
    }
}

impl FilesChangedInfo {
    pub fn new(
        files_changed: usize,
        unstaged_files: Vec<ParseableDiffDelta>,
        staged_files: Vec<ParseableDiffDelta>,
    ) -> (r: Self)
        ensures
            r@ == (FilesChangedInfoView {
                files_changed,
                unstaged_files: unstaged_files.deep_view(),
                staged_files: staged_files.deep_view(),
            }),
    {
        Self { files_changed, unstaged_files, staged_files }
    }
}

/// What a `StashInfo` holds.
pub struct StashInfoView {
    pub index: usize,
    pub message: Seq<char>,
}

/// One stash entry: its index and the text shown for it.
#[derive(Clone)]
pub struct StashInfo {
    pub index: usize,
    pub message: String,
}

impl View for StashInfo {
    type V = StashInfoView;

    open spec fn view(&self) -> StashInfoView {
        StashInfoView { index: self.index, message: self.message@ }
    }
}

impl DeepView for StashInfo {
    type V = StashInfoView;

    open spec fn deep_view(&self) -> StashInfoView {
        self@
    }
}

impl StashInfo {
    pub fn new(index: usize, message: String) -> (r: Self)
        ensures
            r@ == (StashInfoView { index, message: message@ }),
    {
        Self { index, message }
    }
}

/// What a `BranchesInfo` holds.
pub struct BranchesInfoView {
    pub local_branch_info_tree: BranchTree,
    pub remote_branch_info_tree: BranchTree,
    pub tag_branch_info_tree: BranchTree,
    pub stash_info_list: Seq<StashInfoView>,
}

/// The local, remote and tag trees of a repository, and its stashes.
pub struct BranchesInfo {
    pub local_branch_info_tree: BranchInfoTreeNode,
    pub remote_branch_info_tree: BranchInfoTreeNode,
    pub tag_branch_info_tree: BranchInfoTreeNode,
    pub stash_info_list: Vec<StashInfo>,
}

impl View for BranchesInfo {
    type V = BranchesInfoView;

    open spec fn view(&self) -> BranchesInfoView {
        BranchesInfoView {
            local_branch_info_tree: self.local_branch_info_tree@,
            remote_branch_info_tree: self.remote_branch_info_tree@,
            tag_branch_info_tree: self.tag_branch_info_tree@,
            stash_info_list: self.stash_info_list.deep_view(),
        }
    }
}

impl BranchesInfo {
    pub fn new(
        local_branch_info_tree: BranchInfoTreeNode,
        remote_branch_info_tree: BranchInfoTreeNode,
        tag_branch_info_tree: BranchInfoTreeNode,
        stash_info_list: Vec<StashInfo>,
    ) -> (r: Self)
        ensures
            r@ == (BranchesInfoView {
                local_branch_info_tree: local_branch_info_tree@,
                remote_branch_info_tree: remote_branch_info_tree@,
                tag_branch_info_tree: tag_branch_info_tree@,
                stash_info_list: stash_info_list.deep_view(),
            }),
    {
        Self { local_branch_info_tree, remote_branch_info_tree, tag_branch_info_tree, stash_info_list }
    }
}

/// Inserting below a node keeps the node's own text.
pub proof fn lemma_tree_insert_text(
    node: BranchTree,
    parts: Seq<Seq<char>>,
    i: int,
    info: Option<BranchInfoView>,
)
    ensures
        tree_insert(node, parts, i, info).text == node.text,
{
}

/// A root node: no text, no branch, no children.
pub open spec fn empty_root() -> BranchTree {
    BranchTree { text: seq![], branch_info: None, children: seq![] }
}

/// What kind of reference a record describes.
pub enum RefKind {
    /// A local branch.
    Branch,
    /// A remote-tracking branch.
    Remote,
    /// A tag.
    Tag,
    /// Any other reference (notes, stash, ...).
    Other,
}

/// One reference of the repository, as read from it: the commit it points
/// to (empty if none), its short and full names, its kind, and, for a local
/// branch, whether it is checked out and, when it has an upstream, how many
/// commits it is ahead of and behind it (`upstream` is `None` when there is
/// no upstream).
pub struct RefRecord {
    pub target_sha: String,
    pub shorthand: String,
    pub full_name: String,
    pub kind: RefKind,
    pub is_head: bool,
    pub upstream: Option<(usize, usize)>,
}

/// The type text the front end uses for a kind of reference.
pub open spec fn branch_type_text(k: RefKind) -> Seq<char> {
    match k {
        RefKind::Branch => "local"@,
        RefKind::Remote => "remote"@,
        RefKind::Tag => "tag"@,
        RefKind::Other => seq![],
    }
}

/// The branch record made for a reference. Only a local branch carries the
/// head flag and the upstream comparison; other references, and a branch
/// without an upstream, get `false` and zero.
pub open spec fn record_info(r: RefRecord) -> BranchInfoView {
    let is_branch = r.kind is Branch;
    let (has_upstream, ahead, behind) = match r.upstream {
        Some((a, b)) if is_branch => (true, a, b),
        _ => (false, 0usize, 0usize),
    };
    BranchInfoView {
        target_sha: r.target_sha@,
        branch_shorthand: r.shorthand@,
        full_branch_name: r.full_name@,
        is_head: is_branch && r.is_head,
        branch_type: branch_type_text(r.kind),
        ahead,
        behind,
        has_upstream,
    }
}

/// The names `<remote>/HEAD` of the remotes' default-branch pointers.
pub open spec fn remote_heads(remotes: Seq<Seq<char>>) -> Seq<Seq<char>> {
    remotes.map_values(|r: Seq<char>| r + "/HEAD"@)
}

/// The local, remote and tag trees.
pub struct BranchTrees {
    pub local: BranchTree,
    pub remote: BranchTree,
    pub tag: BranchTree,
}

/// The trees after the first `k` references are inserted: a remote's
/// `HEAD` pointer is skipped, every other reference goes into the tree of
/// its kind along the `/`-separated pieces of its short name, and a
/// reference of no known kind is dropped.
pub open spec fn trees_after_refs(remotes: Seq<Seq<char>>, refs: Seq<RefRecord>, k: int) -> BranchTrees
    decreases k,
{
    if k <= 0 {
        BranchTrees { local: empty_root(), remote: empty_root(), tag: empty_root() }
    } else {
        let prev = trees_after_refs(remotes, refs, k - 1);
        let r = refs[k - 1];
        let parts = split_on(r.shorthand@, '/');
        let info = Some(record_info(r));
        if remote_heads(remotes).contains(r.shorthand@) {
            prev
        } else {
            match r.kind {
                RefKind::Branch => BranchTrees { local: tree_insert(prev.local, parts, 0, info), ..prev },
                RefKind::Remote => BranchTrees { remote: tree_insert(prev.remote, parts, 0, info), ..prev },
                RefKind::Tag => BranchTrees { tag: tree_insert(prev.tag, parts, 0, info), ..prev },
                RefKind::Other => prev,
            }
        }
    }
}

/// The remote tree after the first `k` remote names are added as top-level
/// nodes (a name already present is left as it is).
pub open spec fn add_remote_names(tree: BranchTree, remotes: Seq<Seq<char>>, k: int) -> BranchTree
    decreases k,
{
    if k <= 0 {
        tree
    } else {
        tree_insert(add_remote_names(tree, remotes, k - 1), seq![remotes[k - 1]], 0, None)
    }
}

/// The text shown for a stash: its index, a colon and its message.
pub open spec fn stash_text(index: usize, message: Seq<char>) -> Seq<char> {
    nat_decimal(index as nat) + ": "@ + message
}

/// The branches of a repository as the front end shows them.
pub open spec fn branches_view(
    remotes: Seq<Seq<char>>,
    refs: Seq<RefRecord>,
    stashes: Seq<(usize, String)>,
) -> BranchesInfoView {
    let t = trees_after_refs(remotes, refs, refs.len() as int);
    BranchesInfoView {
        local_branch_info_tree: t.local,
        remote_branch_info_tree: add_remote_names(t.remote, remotes, remotes.len() as int),
        tag_branch_info_tree: t.tag,
        stash_info_list: stashes.map_values(|e: (usize, String)| StashInfoView { index: e.0, message: stash_text(e.0, e.1@) }),
    }
}

/// Every branch record in the tree has type text `ty`.
pub open spec fn infos_typed(t: BranchTree, ty: Seq<char>) -> bool
    decreases t,
{
    &&& (t.branch_info matches Some(i) ==> i.branch_type == ty)
    &&& forall|k: int| 0 <= k < t.children.len() ==> infos_typed(#[trigger] t.children[k], ty)
}

proof fn lemma_insert_typed(
    node: BranchTree,
    parts: Seq<Seq<char>>,
    i: int,
    info: Option<BranchInfoView>,
    ty: Seq<char>,
)
    requires
        0 <= i,
        infos_typed(node, ty),
        info matches Some(b) ==> b.branch_type == ty,
    ensures
        infos_typed(tree_insert(node, parts, i, info), ty),
    decreases parts.len() - i,
{
    if i < parts.len() {
        let r = tree_insert(node, parts, i, info);
        lemma_first_child(node.children, parts[i]);
        match first_child_with_text(node.children, parts[i]) {
            Some(j) => {
                lemma_insert_typed(node.children[j], parts, i + 1, info, ty);
                assert forall|k: int| 0 <= k < r.children.len() implies infos_typed(#[trigger] r.children[k], ty) by {
                    if k != j {
                        assert(r.children[k] == node.children[k]);
                    }
                }
            },
            None => {
                let fresh = BranchTree {
                    text: parts[i],
                    branch_info: if i == parts.len() - 1 {
                        info
                    } else {
                        None
                    },
                    children: seq![],
                };
                assert(infos_typed(fresh, ty));
                lemma_insert_typed(fresh, parts, i + 1, info, ty);
                assert forall|k: int| 0 <= k < r.children.len() implies infos_typed(#[trigger] r.children[k], ty) by {
                    if k < node.children.len() {
                        assert(r.children[k] == node.children[k]);
                    }
                }
            },
        }
    }
}

/// A branch record says where its reference lives: `"local"` for a local
/// branch, `"remote"` for a remote-tracking branch and `"tag"` for a tag,
/// three distinct texts.
pub proof fn lemma_record_types(r: RefRecord)
    ensures
        r.kind is Branch ==> record_info(r).branch_type == "local"@,
        r.kind is Remote ==> record_info(r).branch_type == "remote"@,
        r.kind is Tag ==> record_info(r).branch_type == "tag"@,
        "local"@ != "remote"@ && "local"@ != "tag"@ && "remote"@ != "tag"@,
{
    reveal_strlit("local");
    reveal_strlit("remote");
    reveal_strlit("tag");
    assert("local"@[0] != "remote"@[0]);
    assert("local"@[0] != "tag"@[0]);
    assert("remote"@[0] != "tag"@[0]);
}

proof fn lemma_trees_after_refs_typed(remotes: Seq<Seq<char>>, refs: Seq<RefRecord>, k: int)
    requires
        k <= refs.len(),
    ensures
        infos_typed(trees_after_refs(remotes, refs, k).local, "local"@),
        infos_typed(trees_after_refs(remotes, refs, k).remote, "remote"@),
        infos_typed(trees_after_refs(remotes, refs, k).tag, "tag"@),
    decreases k,
{
    if k > 0 {
        let prev = trees_after_refs(remotes, refs, k - 1);
        lemma_trees_after_refs_typed(remotes, refs, k - 1);
        let r = refs[k - 1];
        let parts = split_on(r.shorthand@, '/');
        lemma_record_types(r);
        if !remote_heads(remotes).contains(r.shorthand@) {
            match r.kind {
                RefKind::Branch => lemma_insert_typed(prev.local, parts, 0, Some(record_info(r)), "local"@),
                RefKind::Remote => lemma_insert_typed(prev.remote, parts, 0, Some(record_info(r)), "remote"@),
                RefKind::Tag => lemma_insert_typed(prev.tag, parts, 0, Some(record_info(r)), "tag"@),
                RefKind::Other => {},
            }
        }
    } else {
        assert(infos_typed(empty_root(), "local"@));
        assert(infos_typed(empty_root(), "remote"@));
        assert(infos_typed(empty_root(), "tag"@));
    }
}

proof fn lemma_remote_names_typed(tree: BranchTree, remotes: Seq<Seq<char>>, k: int, ty: Seq<char>)
    requires
        infos_typed(tree, ty),
    ensures
        infos_typed(add_remote_names(tree, remotes, k), ty),
    decreases k,
{
    if k > 0 {
        lemma_remote_names_typed(tree, remotes, k - 1, ty);
        lemma_insert_typed(add_remote_names(tree, remotes, k - 1), seq![remotes[k - 1]], 0, None, ty);
    }
}

/// In the branches shown, every record in the local tree is typed
/// `"local"`, every one in the remote tree `"remote"` and every one in the
/// tag tree `"tag"`.
pub proof fn lemma_branch_trees_typed(remotes: Seq<Seq<char>>, refs: Seq<RefRecord>, stashes: Seq<(usize, String)>)
    ensures
        infos_typed(branches_view(remotes, refs, stashes).local_branch_info_tree, "local"@),
        infos_typed(branches_view(remotes, refs, stashes).remote_branch_info_tree, "remote"@),
        infos_typed(branches_view(remotes, refs, stashes).tag_branch_info_tree, "tag"@),
{
    lemma_trees_after_refs_typed(remotes, refs, refs.len() as int);
    let t = trees_after_refs(remotes, refs, refs.len() as int);
    lemma_remote_names_typed(t.remote, remotes, remotes.len() as int, "remote"@);
}

fn deque_of(parts: Vec<String>) -> (r: VecDeque<String>)
    ensures
        strings_view(r@) == parts.deep_view(),
{
    let mut dq: VecDeque<String> = VecDeque::new();
    let mut i: usize = 0;
    while i < parts.len()
        invariant
            i <= parts.len(),
            dq@.len() == i,
            forall|j: int| 0 <= j < i ==> #[trigger] dq@[j]@ == parts@[j]@,
        decreases parts.len() - i,
    {
        let c = parts[i].clone();
        dq.push_back(c);
        i = i + 1;
    }
    assert(strings_view(dq@) =~= parts.deep_view());
    dq
}

fn contains_string(v: &Vec<String>, s: &String) -> (b: bool)
    ensures
        b == v.deep_view().contains(s@),
{
    let mut i: usize = 0;
    while i < v.len()
        invariant
            i <= v.len(),
            forall|j: int| 0 <= j < i ==> #[trigger] v.deep_view()[j] != s@,
        decreases v.len() - i,
    {
        if v[i] == *s {
            assert(v.deep_view()[i as int] == s@);
            return true;
        }
        i = i + 1;
    }
    false
}

/// Builds the branch record of a reference.
fn info_of(r: &RefRecord) -> (b: BranchInfo)
    ensures
        b@ == record_info(*r),
{
    let (branch_type, is_head, ahead, behind, has_upstream) = match r.kind {
        RefKind::Branch => match r.upstream {
            Some((a, b)) => (owned("local"), r.is_head, a, b, true),
            None => (owned("local"), r.is_head, 0, 0, false),
        },
        RefKind::Remote => (owned("remote"), false, 0, 0, false),
        RefKind::Tag => (owned("tag"), false, 0, 0, false),
        RefKind::Other => (String::new(), false, 0, 0, false),
    };
    BranchInfo::new(
        r.target_sha.clone(),
        r.shorthand.clone(),
        r.full_name.clone(),
        is_head,
        branch_type,
        ahead,
        behind,
        has_upstream,
    )
}

/// Arranges the references of a repository into local, remote and tag
/// trees by the `/`-separated pieces of their short names, skipping each
/// remote's `HEAD` pointer; then adds every remote's name to the remote tree
/// (so a remote without branches still shows), and lists the stashes as
/// `"<index>: <message>"`.
pub fn get_branch_info_list(
    remotes: Vec<String>,
    refs: Vec<RefRecord>,
    stashes: Vec<(usize, String)>,
) -> (r: BranchesInfo)
    ensures
        r@ == branches_view(remotes.deep_view(), refs@, stashes@),
{
    let ghost rv = remotes.deep_view();
    let mut heads: Vec<String> = Vec::new();
    let mut i: usize = 0;
    while i < remotes.len()
        invariant
            i <= remotes.len(),
            rv == remotes.deep_view(),
            heads@.len() == i,
            forall|j: int| 0 <= j < i ==> #[trigger] heads@[j]@ == rv[j] + "/HEAD"@,
        decreases remotes.len() - i,
    {
        let h = concat_str(remotes[i].as_str(), "/HEAD");
        heads.push(h);
        i = i + 1;
    }
    proof {
        assert(heads.deep_view() =~= remote_heads(rv));
    }
    let mut local_tree = BranchInfoTreeNode::new(String::new(), None);
    let mut remote_tree = BranchInfoTreeNode::new(String::new(), None);
    let mut tag_tree = BranchInfoTreeNode::new(String::new(), None);
    let mut k: usize = 0;
    while k < refs.len()
        invariant
            k <= refs.len(),
            rv == remotes.deep_view(),
            heads.deep_view() == remote_heads(rv),
            ({
                let t = trees_after_refs(rv, refs@, k as int);
                &&& local_tree@ == t.local
                &&& remote_tree@ == t.remote
                &&& tag_tree@ == t.tag
            }),
            local_tree@.text == Seq::<char>::empty(),
            remote_tree@.text == Seq::<char>::empty(),
            tag_tree@.text == Seq::<char>::empty(),
        decreases refs.len() - k,
    {
        let r = &refs[k];
        if !contains_string(&heads, &r.shorthand) {
            let parts = split_chars(r.shorthand.as_str(), '/');
            let split_shorthand = deque_of(parts);
            let info = info_of(r);
            let ghost info_v = Some(info@);
            match r.kind {
                RefKind::Branch => {
                    local_tree.insert_split_shorthand(split_shorthand, Some(info));
                },
                RefKind::Remote => {
                    remote_tree.insert_split_shorthand(split_shorthand, Some(info));
                },
                RefKind::Tag => {
                    tag_tree.insert_split_shorthand(split_shorthand, Some(info));
                },
                RefKind::Other => {},
            }
        }
        k = k + 1;
    }
    let mut m: usize = 0;
    let ghost after_refs = trees_after_refs(rv, refs@, refs@.len() as int);
    while m < remotes.len()
        invariant
            m <= remotes.len(),
            rv == remotes.deep_view(),
            remote_tree@ == add_remote_names(after_refs.remote, rv, m as int),
            remote_tree@.text == Seq::<char>::empty(),
        decreases remotes.len() - m,
    {
        let mut one: VecDeque<String> = VecDeque::new();
        one.push_back(remotes[m].clone());
        proof {
            assert(strings_view(one@) =~= seq![rv[m as int]]);
        }
        remote_tree.insert_split_shorthand(one, None);
        m = m + 1;
    }
    let mut stash_info_list: Vec<StashInfo> = Vec::new();
    let mut j: usize = 0;
    while j < stashes.len()
        invariant
            j <= stashes.len(),
            stash_info_list@.len() == j,
            forall|m: int| 0 <= m < j ==> #[trigger] stash_info_list@[m]@ == (StashInfoView {
                index: stashes@[m].0,
                message: stash_text(stashes@[m].0, stashes@[m].1@),
            }),
        decreases stashes.len() - j,
    {
        let (index, ref message) = stashes[j];
        let mut text = usize_to_string(index);
        push_all(&mut text, ": ");
        push_all(&mut text, message.as_str());
        let entry = StashInfo::new(index, text);
        stash_info_list.push(entry);
        j = j + 1;
    }
    proof {
        assert(stash_info_list.deep_view() =~= stashes@.map_values(
            |e: (usize, String)| StashInfoView { index: e.0, message: stash_text(e.0, e.1@) },
        ));
    }
    BranchesInfo::new(local_tree, remote_tree, tag_tree, stash_info_list)
}

/// A branch as read from the repository: whether it is checked out, its
/// short name, the commit it points to (if any) and whether it is a
/// remote-tracking branch.
pub struct BranchTarget {
    pub is_head: bool,
    pub shorthand: String,
    pub target: Option<String>,
    pub is_remote: bool,
}

/// A reference entry: the commit, then the label and the kind of reference.
pub type RefEntry = (Seq<char>, (Seq<char>, Seq<char>));

/// The entries of the first `k` branches: those that point to a commit,
/// labelled with their short name (after `"* "` when checked out) and
/// `"remote"` or `"local"`.
pub open spec fn branch_entries(bs: Seq<BranchTarget>, k: int) -> Seq<RefEntry>
    decreases k,
{
    if k <= 0 {
        seq![]
    } else {
        let prev = branch_entries(bs, k - 1);
        let b = bs[k - 1];
        match b.target {
            Some(t) => prev.push(
                (
                    t@,
                    (
                        if b.is_head {
                            "* "@ + b.shorthand@
                        } else {
                            b.shorthand@
                        },
                        if b.is_remote {
                            "remote"@
                        } else {
                            "local"@
                        },
                    ),
                ),
            ),
            None => prev,
        }
    }
}

/// Entry `e` labels branch `b`'s commit: `"* "` and the short name when
/// the branch is checked out, the short name alone otherwise, with
/// `"remote"` or `"local"` as its kind.
pub open spec fn labels_branch(b: BranchTarget, e: RefEntry) -> bool {
    &&& b.target is Some
    &&& e.0 == b.target->0@
    &&& e.1.0 == if b.is_head {
        "* "@ + b.shorthand@
    } else {
        b.shorthand@
    }
    &&& e.1.1 == if b.is_remote {
        "remote"@
    } else {
        "local"@
    }
}

/// Entry `e` labels one of the first `k` branches.
pub open spec fn labels_some_branch(bs: Seq<BranchTarget>, k: int, e: RefEntry) -> bool {
    exists|i: int| 0 <= i < k && #[trigger] labels_branch(bs[i], e)
}

/// Branch `b` is labelled by one of the entries `es`.
pub open spec fn labelled_in(b: BranchTarget, es: Seq<RefEntry>, n: int) -> bool {
    exists|m: int| 0 <= m < n && labels_branch(b, #[trigger] es[m])
}

proof fn lemma_branch_entries_label(bs: Seq<BranchTarget>, k: int)
    requires
        0 <= k <= bs.len(),
    ensures
        forall|m: int|
            0 <= m < branch_entries(bs, k).len() ==> labels_some_branch(bs, k, #[trigger] branch_entries(bs, k)[m]),
        forall|i: int|
            0 <= i < k && (#[trigger] bs[i]).target is Some ==> labelled_in(
                bs[i],
                branch_entries(bs, k),
                branch_entries(bs, k).len() as int,
            ),
    decreases k,
{
    if k > 0 {
        let prev = branch_entries(bs, k - 1);
        lemma_branch_entries_label(bs, k - 1);
        let cur = branch_entries(bs, k);
        assert forall|m: int| 0 <= m < cur.len() implies labels_some_branch(bs, k, #[trigger] cur[m]) by {
            if m < prev.len() {
                assert(cur[m] == prev[m]);
                assert(labels_some_branch(bs, k - 1, prev[m]));
                let i = choose|i: int| 0 <= i < k - 1 && #[trigger] labels_branch(bs[i], prev[m]);
                assert(labels_branch(bs[i], cur[m]));
            } else {
                assert(labels_branch(bs[k - 1], cur[m]));
            }
        }
        assert forall|i: int| 0 <= i < k && (#[trigger] bs[i]).target is Some implies labelled_in(
            bs[i],
            cur,
            cur.len() as int,
        ) by {
            if i < k - 1 {
                assert(labelled_in(bs[i], prev, prev.len() as int));
                let m = choose|m: int| 0 <= m < prev.len() && labels_branch(bs[i], #[trigger] prev[m]);
                assert(cur[m] == prev[m]);
            } else {
                assert(labels_branch(bs[i], cur[prev.len() as int]));
            }
        }
    }
}

/// The branch entries of the graph's labels are exactly one per branch that
/// points at a commit: each gives that commit, the label `"* "` and the
/// short name when the branch is checked out and the short name alone
/// otherwise, and `"remote"` or `"local"`; they come first among all
/// entries.
pub proof fn lemma_branch_labels(bs: Seq<BranchTarget>, detached_head: Option<String>, tags: Seq<(String, String)>)
    ensures
        ({
            let es = ref_entries(bs, detached_head, tags);
            let nb = branch_entries(bs, bs.len() as int).len() as int;
            &&& nb <= es.len()
            &&& forall|m: int| 0 <= m < nb ==> labels_some_branch(bs, bs.len() as int, #[trigger] es[m])
            &&& forall|i: int| 0 <= i < bs.len() && (#[trigger] bs[i]).target is Some ==> labelled_in(bs[i], es, nb)
        }),
{
    lemma_branch_entries_label(bs, bs.len() as int);
    let es = ref_entries(bs, detached_head, tags);
    let be = branch_entries(bs, bs.len() as int);
    assert forall|m: int| 0 <= m < be.len() implies labels_some_branch(bs, bs.len() as int, #[trigger] es[m]) by {
        assert(es[m] == be[m]);
        assert(labels_some_branch(bs, bs.len() as int, be[m]));
    }
    assert forall|i: int| 0 <= i < bs.len() && (#[trigger] bs[i]).target is Some implies labelled_in(bs[i], es, be.len() as int) by {
        assert(labelled_in(bs[i], be, be.len() as int));
        let m = choose|m: int| 0 <= m < be.len() && labels_branch(bs[i], #[trigger] be[m]);
        assert(es[m] == be[m]);
    }
}

/// The entries of the first `k` tags, given as (name, commit).
pub open spec fn tag_entries(tags: Seq<(String, String)>, k: int) -> Seq<RefEntry>
    decreases k,
{
    if k <= 0 {
        seq![]
    } else {
        tag_entries(tags, k - 1).push((tags[k - 1].1@, (tags[k - 1].0@, "tag"@)))
    }
}

/// All reference entries: branches, then a detached `HEAD`, then tags.
pub open spec fn ref_entries(
    bs: Seq<BranchTarget>,
    detached_head: Option<String>,
    tags: Seq<(String, String)>,
) -> Seq<RefEntry> {
    branch_entries(bs, bs.len() as int) + match detached_head {
        Some(h) => seq![(h@, ("* HEAD"@, "local"@))],
        None => seq![],
    } + tag_entries(tags, tags.len() as int)
}

/// Entries grouped by commit.
pub type RefGroups = Seq<(Seq<char>, Seq<(Seq<char>, Seq<char>)>)>;

/// The position of the group of commit `key`.
pub open spec fn group_index(g: RefGroups, key: Seq<char>) -> Option<int>
    decreases g.len(),
{
    if g.len() == 0 {
        None
    } else {
        match group_index(g.drop_last(), key) {
            Some(j) => Some(j),
            None => if g.last().0 == key {
                Some(g.len() - 1)
            } else {
                None
            },
        }
    }
}

/// The first `k` entries grouped by commit: a commit's group is made where
/// it first appears, and its labels keep their order.
pub open spec fn group_entries(es: Seq<RefEntry>, k: int) -> RefGroups
    decreases k,
{
    if k <= 0 {
        seq![]
    } else {
        let g = group_entries(es, k - 1);
        let (key, val) = es[k - 1];
        match group_index(g, key) {
            Some(j) => g.update(j, (key, g[j].1.push(val))),
            None => g.push((key, seq![val])),
        }
    }
}

pub(crate) proof fn lemma_group_index(g: RefGroups, key: Seq<char>)
    ensures
        match group_index(g, key) {
            Some(j) => 0 <= j < g.len() && g[j].0 == key && forall|m: int|
                0 <= m < j ==> #[trigger] g[m].0 != key,
            None => forall|m: int| 0 <= m < g.len() ==> #[trigger] g[m].0 != key,
        },
    decreases g.len(),
{
    if g.len() > 0 {
        lemma_group_index(g.drop_last(), key);
        assert(forall|m: int| 0 <= m < g.len() - 1 ==> g.drop_last()[m] == #[trigger] g[m]);
    }
}

fn find_group(groups: &Vec<(String, Vec<(String, String)>)>, key: &String) -> (r: Option<usize>)
    ensures
        r matches Some(j) ==> group_index(groups.deep_view(), key@) == Some(j as int),
        r is None ==> group_index(groups.deep_view(), key@) is None,
{
    let ghost g = groups.deep_view();
    let mut j: usize = 0;
    while j < groups.len()
        invariant
            j <= groups.len(),
            g == groups.deep_view(),
            forall|m: int| 0 <= m < j ==> #[trigger] g[m].0 != key@,
        decreases groups.len() - j,
    {
        if groups[j].0 == *key {
            proof {
                assert(g[j as int].0 == key@);
                lemma_group_index(g, key@);
            }
            return Some(j);
        }
        j = j + 1;
    }
    proof {
        lemma_group_index(g, key@);
    }
    None
}

fn push_entry(groups: &mut Vec<(String, Vec<(String, String)>)>, key: String, label: String, kind: String)
    ensures
        final(groups).deep_view() == ({
            let g = old(groups).deep_view();
            match group_index(g, key@) {
                Some(j) => g.update(j, (key@, g[j].1.push((label@, kind@)))),
                None => g.push((key@, seq![(label@, kind@)])),
            }
        }),
{
    let ghost g = groups.deep_view();
    let ghost kv = key@;
    let ghost lv = label@;
    let ghost tv = kind@;
    proof {
        lemma_group_index(g, key@);
    }
    match find_group(groups, &key) {
        Some(j) => {
            let ghost old_inner = groups@[j as int].1;
            groups[j].1.push((label, kind));
            proof {
                assert(g[j as int].0 == kv);
                assert(groups@[j as int].1.deep_view() =~= old_inner.deep_view().push((lv, tv)));
                assert(groups.deep_view() =~= g.update(j as int, (kv, g[j as int].1.push((lv, tv)))));
            }
        },
        None => {
            let mut fresh: Vec<(String, String)> = Vec::new();
            fresh.push((label, kind));
            groups.push((key, fresh));
            proof {
                assert(fresh.deep_view() =~= seq![(lv, tv)]);
                assert(groups.deep_view() =~= g.push((kv, seq![(lv, tv)])));
            }
        },
    }
}

/// No two groups are for the same commit.
pub open spec fn distinct_keys(g: RefGroups) -> bool {
    forall|i: int, j: int| 0 <= i < j < g.len() ==> #[trigger] g[i].0 != #[trigger] g[j].0
}

/// Grouping the names by commit gives each commit one group, holding
/// exactly the names of that commit, in order.
pub proof fn lemma_group_entries(es: Seq<RefEntry>, k: int)
    requires
        0 <= k <= es.len(),
    ensures
        distinct_keys(group_entries(es, k)),
        forall|key: Seq<char>|
            match #[trigger] group_index(group_entries(es, k), key) {
                Some(j) => group_entries(es, k)[j].1 == names_of(es, key, k),
                None => names_of(es, key, k).len() == 0,
            },
    decreases k,
{
    if k > 0 {
        lemma_group_entries(es, k - 1);
        let g = group_entries(es, k - 1);
        let (key, val) = es[k - 1];
        lemma_group_index(g, key);
        let g2 = group_entries(es, k);
        assert forall|a: int, b: int| 0 <= a < b < g2.len() implies #[trigger] g2[a].0 != #[trigger] g2[b].0 by {
            match group_index(g, key) {
                Some(j) => {},
                None => {
                    if b == g.len() {
                        assert(g2[a] == g[a]);
                    }
                },
            }
        }
        assert forall|k2: Seq<char>| true implies {
            match #[trigger] group_index(g2, k2) {
                Some(j) => g2[j].1 == names_of(es, k2, k),
                None => names_of(es, k2, k).len() == 0,
            }
        } by {
            lemma_group_index(g, k2);
            lemma_group_index(g2, k2);
            match group_index(g, key) {
                Some(j) => {
                    if k2 != key {
                        match group_index(g2, k2) {
                            Some(m) => {
                                if m == j {
                                    assert(g2[m].0 == key);
                                }
                                match group_index(g, k2) {
                                    Some(m2) => {
                                        if m2 < m {
                                            assert(g2[m2].0 == k2);
                                        }
                                        if m < m2 {
                                            assert(g[m].0 == k2);
                                        }
                                    },
                                    None => {
                                        assert(g[m].0 == k2);
                                    },
                                }
                            },
                            None => {
                                match group_index(g, k2) {
                                    Some(m2) => {
                                        assert(g2[m2].0 == k2);
                                    },
                                    None => {},
                                }
                            },
                        }
                    } else {
                        match group_index(g2, k2) {
                            Some(m) => {
                                if m < j {
                                    assert(g[m].0 == key);
                                }
                                if j < m {
                                    assert(g2[j].0 == key);
                                }
                            },
                            None => {
                                assert(g2[j].0 == key);
                            },
                        }
                    }
                },
                None => {
                    if k2 != key {
                        match group_index(g2, k2) {
                            Some(m) => {
                                if m == g.len() {
                                    assert(g2[m].0 == key);
                                }
                                match group_index(g, k2) {
                                    Some(m2) => {
                                        if m2 < m {
                                            assert(g2[m2].0 == k2);
                                        }
                                        if m < m2 {
                                            assert(g[m].0 == k2);
                                        }
                                    },
                                    None => {
                                        assert(g[m].0 == k2);
                                    },
                                }
                            },
                            None => {
                                match group_index(g, k2) {
                                    Some(m2) => {
                                        assert(g2[m2].0 == k2);
                                    },
                                    None => {},
                                }
                            },
                        }
                    } else {
                        match group_index(g2, k2) {
                            Some(m) => {
                                if m < g.len() {
                                    assert(g[m].0 == key);
                                }
                            },
                            None => {
                                assert(g2[g.len() as int].0 == key);
                            },
                        }
                    }
                },
            }
        }
    }
}

/// The names of commit `key` among the first `k` entries, in order.
pub open spec fn names_of(es: Seq<RefEntry>, key: Seq<char>, k: int) -> Seq<(Seq<char>, Seq<char>)>
    decreases k,
{
    if k <= 0 {
        seq![]
    } else if es[k - 1].0 == key {
        names_of(es, key, k - 1).push(es[k - 1].1)
    } else {
        names_of(es, key, k - 1)
    }
}

/// The labels of the branches, the detached `HEAD` and the tags, grouped
/// by the commit they point to: a branch reads as its short name (after
/// `"* "` when checked out) with `"local"` or `"remote"`, a detached `HEAD`
/// as `"* HEAD"` with `"local"`, a tag as its name with `"tag"`. Commits
/// come in the order they are first named; branches without a commit are
/// left out.
pub fn get_oid_refs(
    branches: Vec<BranchTarget>,
    detached_head_target: Option<String>,
    tags: Vec<(String, String)>,
) -> (r: Vec<(String, Vec<(String, String)>)>)
    ensures
        ({
            let es = ref_entries(branches@, detached_head_target, tags@);
            r.deep_view() == group_entries(es, es.len() as int)
        }),
{
    let ghost es = ref_entries(branches@, detached_head_target, tags@);
    let ghost nb = branch_entries(branches@, branches@.len() as int);
    let mut oid_refs: Vec<(String, Vec<(String, String)>)> = Vec::new();
    let ghost mut count: int = 0;
    let mut i: usize = 0;
    proof {
        assert(oid_refs.deep_view() =~= group_entries(es, 0));
    }
    while i < branches.len()
        invariant
            i <= branches.len(),
            es == ref_entries(branches@, detached_head_target, tags@),
            nb == branch_entries(branches@, branches@.len() as int),
            es.subrange(0, nb.len() as int) == nb,
            count == branch_entries(branches@, i as int).len(),
            branch_entries(branches@, i as int) == nb.subrange(0, count),
            count <= nb.len(),
            oid_refs.deep_view() == group_entries(es, count),
        decreases branches.len() - i,
    {
        proof {
            lemma_branch_entries_prefix(branches@, i + 1, branches@.len() as int);
        }
        let b = &branches[i];
        match &b.target {
            Some(t) => {
                let label = if b.is_head {
                    concat_str("* ", b.shorthand.as_str())
                } else {
                    b.shorthand.clone()
                };
                let kind = if b.is_remote {
                    owned("remote")
                } else {
                    owned("local")
                };
                let ghost entry = (t@, (label@, kind@));
                proof {
                    assert(branch_entries(branches@, i + 1) == branch_entries(branches@, i as int).push(entry));
                    assert(nb[count] == branch_entries(branches@, i + 1)[count]);
                    assert(es[count] == nb[count]);
                }
                push_entry(&mut oid_refs, t.clone(), label, kind);
                proof {
                    count = count + 1;
                    assert(branch_entries(branches@, i + 1) =~= nb.subrange(0, count));
                }
            },
            None => {},
        }
        i = i + 1;
    }
    proof {
        assert(count == nb.len());
        lemma_tag_entries_len(tags@, tags@.len() as int);
    }
    match &detached_head_target {
        Some(h) => {
            proof {
                assert(es[count] == (h@, ("* HEAD"@, "local"@)));
            }
            push_entry(&mut oid_refs, h.clone(), owned("* HEAD"), owned("local"));
            proof {
                count = count + 1;
            }
        },
        None => {},
    }
    proof {
        assert(es.subrange(count, es.len() as int) =~= tag_entries(tags@, tags@.len() as int));
    }
    let ghost base = count;
    let mut k: usize = 0;
    while k < tags.len()
        invariant
            k <= tags.len(),
            es == ref_entries(branches@, detached_head_target, tags@),
            base + tags@.len() == es.len(),
            es.subrange(base, es.len() as int) == tag_entries(tags@, tags@.len() as int),
            count == base + k,
            oid_refs.deep_view() == group_entries(es, count),
        decreases tags.len() - k,
    {
        proof {
            lemma_tag_entries_prefix(tags@, k + 1, tags@.len() as int);
            assert(es[count] == tag_entries(tags@, tags@.len() as int)[k as int]);
        }
        proof {
            assert(tag_entries(tags@, k + 1)[k as int] == (tags@[k as int].1@, (tags@[k as int].0@, "tag"@)));
        }
        push_entry(&mut oid_refs, tags[k].1.clone(), tags[k].0.clone(), owned("tag"));
        proof {
            count = count + 1;
        }
        k = k + 1;
    }
    oid_refs
}

proof fn lemma_branch_entries_prefix(bs: Seq<BranchTarget>, k: int, n: int)
    requires
        0 <= k <= n,
    ensures
        branch_entries(bs, k) == branch_entries(bs, n).subrange(0, branch_entries(bs, k).len() as int),
        branch_entries(bs, k).len() <= branch_entries(bs, n).len(),
    decreases n - k,
{
    if k < n {
        lemma_branch_entries_prefix(bs, k, n - 1);
        assert(branch_entries(bs, n).subrange(0, branch_entries(bs, k).len() as int)
            =~= branch_entries(bs, n - 1).subrange(0, branch_entries(bs, k).len() as int));
    } else {
        assert(branch_entries(bs, n).subrange(0, branch_entries(bs, n).len() as int) =~= branch_entries(bs, n));
    }
}

proof fn lemma_tag_entries_prefix(tags: Seq<(String, String)>, k: int, n: int)
    requires
        0 <= k <= n,
    ensures
        tag_entries(tags, n).len() == n,
        tag_entries(tags, k) =~= tag_entries(tags, n).subrange(0, k),
    decreases n - k,
{
    if k < n {
        lemma_tag_entries_prefix(tags, k, n - 1);
    } else {
        lemma_tag_entries_len(tags, n);
    }
}

proof fn lemma_tag_entries_len(tags: Seq<(String, String)>, n: int)
    requires
        0 <= n,
    ensures
        tag_entries(tags, n).len() == n,
    decreases n,
{
    if n > 0 {
        lemma_tag_entries_len(tags, n - 1);
    }
}

/// How a lookup in the repository ended.
pub enum Lookup {
    /// The object was found.
    Found,
    /// The object does not exist.
    NotFound,
    /// `HEAD` names a branch that has no commit yet.
    UnbornBranch,
    /// Any other failure.
    Failed,
}

/// Which lookup failed in a way that is not tolerated.
pub enum FailedLookup {
    Head,
    Branch,
    Upstream,
}

/// The state of the repository: an operation in progress, or none.
pub enum RepoStateKind {
    Clean,
    Merge,
    Revert,
    RevertSequence,
    CherryPick,
    CherryPickSequence,
    Bisect,
    Rebase,
    RebaseInteractive,
    RebaseMerge,
    ApplyMailbox,
    ApplyMailboxOrRebase,
}

/// Whether the checked-out branch has an upstream, from the lookups of
/// `HEAD`, of the local branch `HEAD` names, and of that branch's upstream.
/// An unborn `HEAD`, a missing branch or a missing upstream mean no
/// upstream; any other failure is an error. A lookup after a failed one is
/// not consulted.
pub open spec fn upstream_answer(head: Lookup, branch: Lookup, upstream: Lookup) -> Result<bool, FailedLookup> {
    match head {
        Lookup::Found => match branch {
            Lookup::Found => match upstream {
                Lookup::Found => Ok(true),
                Lookup::NotFound => Ok(false),
                _ => Err(FailedLookup::Upstream),
            },
            Lookup::NotFound => Ok(false),
            _ => Err(FailedLookup::Branch),
        },
        Lookup::UnbornBranch => Ok(false),
        _ => Err(FailedLookup::Head),
    }
}

/// Decides whether the checked-out branch has an upstream (see
/// `upstream_answer`).
pub fn head_has_upstream(head: Lookup, branch: Lookup, upstream: Lookup) -> (r: Result<bool, FailedLookup>)
    ensures
        r == upstream_answer(head, branch, upstream),
{
    match head {
        Lookup::Found => match branch {
            Lookup::Found => match upstream {
                Lookup::Found => Ok(true),
                Lookup::NotFound => Ok(false),
                _ => Err(FailedLookup::Upstream),
            },
            Lookup::NotFound => Ok(false),
            _ => Err(FailedLookup::Branch),
        },
        Lookup::UnbornBranch => Ok(false),
        _ => Err(FailedLookup::Head),
    }
}

/// Whether a state is one of the rebase states.
pub open spec fn is_rebase_state(s: RepoStateKind) -> bool {
    s is Rebase || s is RebaseMerge || s is RebaseInteractive
}

/// The general facts about a repository, by name, in this order: the
/// project's directory name, the commit of `HEAD` (empty when `HEAD` was not
/// found or points nowhere), whether `HEAD` has an upstream, and whether a
/// cherry-pick, revert, merge or rebase is in progress.
pub open spec fn general_info_view(
    project_name: Seq<char>,
    head: Lookup,
    head_target: Option<String>,
    has_upstream: bool,
    state: RepoStateKind,
) -> Seq<(Seq<char>, Seq<char>)> {
    seq![
        ("project_name"@, project_name),
        ("head_sha"@, match (head, head_target) {
            (Lookup::Found, Some(t)) => t@,
            _ => seq![],
        }),
        ("head_has_upstream"@, bool_text(has_upstream)),
        ("is_cherrypicking"@, bool_text(state is CherryPick)),
        ("is_reverting"@, bool_text(state is Revert)),
        ("is_merging"@, bool_text(state is Merge)),
        ("is_rebasing"@, bool_text(is_rebase_state(state))),
    ]
}

/// The general facts about a repository (see `general_info_view`), or the
/// lookup whose failure is not tolerated.
pub fn get_general_info(
    project_name: String,
    head_target: Option<String>,
    head: Lookup,
    branch: Lookup,
    upstream: Lookup,
    state: RepoStateKind,
) -> (r: Result<Vec<(String, String)>, FailedLookup>)
    ensures
        match upstream_answer(head, branch, upstream) {
            Ok(b) => r matches Ok(v) && v.deep_view() == general_info_view(
                project_name@,
                head,
                head_target,
                b,
                state,
            ),
            Err(e) => r == Err::<Vec<(String, String)>, FailedLookup>(e),
        },
{
    let head_found = match head {
        Lookup::Found => true,
        _ => false,
    };
    let has_upstream = match head_has_upstream(head, branch, upstream) {
        Ok(b) => b,
        Err(e) => {
            return Err(e);
        },
    };
    let ghost pn = project_name@;
    let mut general_info: Vec<(String, String)> = Vec::new();
    general_info.push((owned("project_name"), project_name));
    let head_sha = match head_target {
        Some(t) => if head_found {
            t
        } else {
            String::new()
        },
        None => String::new(),
    };
    general_info.push((owned("head_sha"), head_sha));
    general_info.push((owned("head_has_upstream"), bool_to_string(has_upstream)));
    let (cherry, revert, merge, rebase) = match state {
        RepoStateKind::CherryPick => (true, false, false, false),
        RepoStateKind::Revert => (false, true, false, false),
        RepoStateKind::Merge => (false, false, true, false),
        RepoStateKind::Rebase => (false, false, false, true),
        RepoStateKind::RebaseInteractive => (false, false, false, true),
        RepoStateKind::RebaseMerge => (false, false, false, true),
        _ => (false, false, false, false),
    };
    general_info.push((owned("is_cherrypicking"), bool_to_string(cherry)));
    general_info.push((owned("is_reverting"), bool_to_string(revert)));
    general_info.push((owned("is_merging"), bool_to_string(merge)));
    general_info.push((owned("is_rebasing"), bool_to_string(rebase)));
    proof {
        assert(general_info.deep_view() =~= general_info_view(pn, head, head_target, has_upstream, state));
    }
    Ok(general_info)
}

/// A commit as read from the repository, with its author time already
/// written out.
pub struct CommitRecord {
    pub sha: String,
    pub author_name: String,
    pub author_time: String,
    pub summary: String,
    pub parent_shas: Vec<String>,
}

/// `c` once for each of the first `j` parents in `ps` that equals `s`.
pub open spec fn child_marks(ps: Seq<Seq<char>>, s: Seq<char>, c: Seq<char>, j: int) -> Seq<Seq<char>>
    decreases j,
{
    if j <= 0 {
        seq![]
    } else if ps[j - 1] == s {
        child_marks(ps, s, c, j - 1).push(c)
    } else {
        child_marks(ps, s, c, j - 1)
    }
}

/// The children of commit `s` among the first `k` commits: each commit once
/// for every time it names `s` as a parent, in order.
pub open spec fn children_of(cs: Seq<CommitRecord>, s: Seq<char>, k: int) -> Seq<Seq<char>>
    decreases k,
{
    if k <= 0 {
        seq![]
    } else {
        let c = cs[k - 1];
        children_of(cs, s, k - 1) + child_marks(
            c.parent_shas.deep_view(),
            s,
            c.sha@,
            c.parent_shas.deep_view().len() as int,
        )
    }
}

proof fn lemma_child_marks(ps: Seq<Seq<char>>, s: Seq<char>, c: Seq<char>, j: int)
    requires
        0 <= j <= ps.len(),
    ensures
        forall|x: Seq<char>| #[trigger] child_marks(ps, s, c, j).contains(x) <==> (x == c && exists|w: int|
            0 <= w < j && #[trigger] ps[w] == s),
    decreases j,
{
    if j > 0 {
        lemma_child_marks(ps, s, c, j - 1);
        let prev = child_marks(ps, s, c, j - 1);
        assert forall|x: Seq<char>| #[trigger] child_marks(ps, s, c, j).contains(x) <==> (x == c && exists|w: int|
            0 <= w < j && #[trigger] ps[w] == s) by {
            if ps[j - 1] == s {
                assert(prev.push(c)[prev.len() as int] == c);
                if prev.push(c).contains(x) {
                    let w = choose|w: int| 0 <= w < prev.len() + 1 && #[trigger] prev.push(c)[w] == x;
                    if w < prev.len() {
                        assert(prev[w] == x);
                    }
                }
                if x == c {
                    assert(prev.push(c)[prev.len() as int] == x);
                }
                if prev.contains(x) {
                    let w = choose|w: int| 0 <= w < prev.len() && #[trigger] prev[w] == x;
                    assert(prev.push(c)[w] == x);
                }
            } else {
                if exists|w: int| 0 <= w < j && #[trigger] ps[w] == s {
                    let w = choose|w: int| 0 <= w < j && #[trigger] ps[w] == s;
                    assert(w < j - 1);
                }
            }
        }
    }
}

/// A commit is listed among the children of `s` exactly when it is one of
/// the walked commits and names `s` among its parents.
pub proof fn lemma_children_of(cs: Seq<CommitRecord>, s: Seq<char>, k: int)
    requires
        0 <= k <= cs.len(),
    ensures
        forall|x: Seq<char>| #[trigger] children_of(cs, s, k).contains(x) <==> exists|m: int|
            0 <= m < k && cs[m].sha@ == x && #[trigger] cs[m].parent_shas.deep_view().contains(s),
    decreases k,
{
    if k > 0 {
        lemma_children_of(cs, s, k - 1);
        let c = cs[k - 1];
        let ps = c.parent_shas.deep_view();
        lemma_child_marks(ps, s, c.sha@, ps.len() as int);
        let prev = children_of(cs, s, k - 1);
        let marks = child_marks(ps, s, c.sha@, ps.len() as int);
        assert forall|x: Seq<char>| #[trigger] children_of(cs, s, k).contains(x) <==> exists|m: int|
            0 <= m < k && cs[m].sha@ == x && #[trigger] cs[m].parent_shas.deep_view().contains(s) by {
            if (prev + marks).contains(x) {
                let w = choose|w: int| 0 <= w < (prev + marks).len() && #[trigger] (prev + marks)[w] == x;
                if w < prev.len() {
                    assert(prev[w] == x);
                    assert(prev.contains(x));
                } else {
                    assert(marks[w - prev.len()] == x);
                    assert(marks.contains(x));
                    let v = choose|v: int| 0 <= v < ps.len() && #[trigger] ps[v] == s;
                    assert(ps.contains(s));
                    assert(cs[k - 1].sha@ == x && cs[k - 1].parent_shas.deep_view().contains(s));
                }
            }
            if exists|m: int| 0 <= m < k && cs[m].sha@ == x && #[trigger] cs[m].parent_shas.deep_view().contains(s) {
                let m = choose|m: int| 0 <= m < k && cs[m].sha@ == x && #[trigger] cs[m].parent_shas.deep_view().contains(s);
                if m < k - 1 {
                    assert(0 <= m < k - 1 && cs[m].sha@ == x && cs[m].parent_shas.deep_view().contains(s));
                    assert(prev.contains(x));
                    let w = choose|w: int| 0 <= w < prev.len() && #[trigger] prev[w] == x;
                    assert((prev + marks)[w] == x);
                } else {
                    assert(ps.contains(s));
                    let v = choose|v: int| 0 <= v < ps.len() && #[trigger] ps[v] == s;
                    assert(ps[v] == s);
                    assert(marks.contains(x));
                    let w = choose|w: int| 0 <= w < marks.len() && #[trigger] marks[w] == x;
                    assert((prev + marks)[prev.len() + w] == x);
                }
            }
        }
    }
}

/// The graph record of commit `i`: column zero, row `i`, and its children
/// among all the commits.
pub open spec fn commit_info_view(cs: Seq<CommitRecord>, i: int) -> ParseableCommitInfoView {
    let c = cs[i];
    ParseableCommitInfoView {
        sha: c.sha@,
        author_name: c.author_name@,
        author_time: c.author_time@,
        x: 0,
        y: i,
        summary: c.summary@,
        parent_shas: c.parent_shas.deep_view(),
        child_shas: children_of(cs, c.sha@, cs.len() as int),
    }
}

pub(crate) fn children_in(commits: &Vec<CommitRecord>, s: &String) -> (r: Vec<String>)
    ensures
        r.deep_view() == children_of(commits@, s@, commits@.len() as int),
{
    let mut out: Vec<String> = Vec::new();
    let mut k: usize = 0;
    while k < commits.len()
        invariant
            k <= commits.len(),
            out.deep_view() == children_of(commits@, s@, k as int),
        decreases commits.len() - k,
    {
        let c = &commits[k];
        let ghost ps = c.parent_shas.deep_view();
        let ghost start = out.deep_view();
        let mut j: usize = 0;
        while j < c.parent_shas.len()
            invariant
                j <= c.parent_shas.len(),
                ps == c.parent_shas.deep_view(),
                out.deep_view() == start + child_marks(ps, s@, c.sha@, j as int),
            decreases c.parent_shas.len() - j,
        {
            if c.parent_shas[j] == *s {
                let ghost before = out.deep_view();
                out.push(c.sha.clone());
                proof {
                    assert(out.deep_view() =~= before.push(c.sha@));
                    assert(out.deep_view() =~= start + child_marks(ps, s@, c.sha@, j + 1));
                }
            }
            j = j + 1;
        }
        k = k + 1;
    }
    out
}

/// The graph records of commits listed in revision-walk order: commit `i`
/// sits in column zero of row `i`, and its children are the listed commits
/// that name it as a parent.
pub fn get_commit_info_list(commits: Vec<CommitRecord>) -> (r: Vec<ParseableCommitInfo>)
    requires
        commits@.len() < isize::MAX,
    ensures
        r@.len() == commits@.len(),
        forall|i: int| 0 <= i < commits@.len() ==> #[trigger] r@[i]@ == commit_info_view(commits@, i),
{
    let mut commit_list: Vec<ParseableCommitInfo> = Vec::new();
    let mut i: usize = 0;
    while i < commits.len()
        invariant
            i <= commits.len(),
            commits@.len() < isize::MAX,
            commit_list@.len() == i,
            forall|m: int| 0 <= m < i ==> #[trigger] commit_list@[m]@ == commit_info_view(commits@, m),
        decreases commits.len() - i,
    {
        let c = &commits[i];
        let children = children_in(&commits, &c.sha);
        let info = ParseableCommitInfo::new(
            c.sha.clone(),
            c.author_name.clone(),
            c.author_time.clone(),
            0,
            i as isize,
            c.summary.clone(),
            clone_strings(&c.parent_shas),
            children,
        );
        commit_list.push(info);
        i = i + 1;
    }
    commit_list
}

/// How an author time is shown: `"Today <time>"`, `"Yesterday <time>"`, or
/// `"<date> <time>"` for anything older (or newer).
pub open spec fn author_time_text(days_ago: i64, date: Seq<char>, time: Seq<char>) -> Seq<char> {
    if days_ago == 0 {
        "Today "@ + time
    } else if days_ago == 1 {
        "Yesterday "@ + time
    } else {
        date + " "@ + time
    }
}

/// Writes an author time relative to today (see `author_time_text`), given
/// how many days before today the commit was made, and its local date and
/// time already written out.
pub fn format_author_time(days_ago: i64, date: &str, time: &str) -> (r: String)
    ensures
        r@ == author_time_text(days_ago, date@, time@),
{
    if days_ago == 0 {
        concat_str("Today ", time)
    } else if days_ago == 1 {
        concat_str("Yesterday ", time)
    } else {
        let mut s = owned(date);
        push_all(&mut s, " ");
        push_all(&mut s, time);
        s
    }
}

/// The path of a changed file, as read from a diff.
pub enum DeltaPath {
    /// The diff holds no path for the new file.
    Missing,
    /// The path is not valid Unicode.
    NotUnicode,
    /// The path, as text.
    Text(String),
}

/// A changed file as read from a diff: git's delta status number and the
/// path of the new file.
pub struct DeltaRecord {
    pub status: u8,
    pub path: DeltaPath,
}

/// Why a list of changed files could not be read.
pub enum DiffDeltaError {
    /// A path is not valid Unicode.
    InvalidUnicode,
    /// A delta holds no path.
    MissingPath,
}

/// The message shown when a changed file's path cannot be read.
pub open spec fn diff_delta_error_text(e: DiffDeltaError) -> Seq<char> {
    match e {
        DiffDeltaError::InvalidUnicode => "File Path uses invalid unicode. Not sure how your file system isn't corrupted..."@,
        DiffDeltaError::MissingPath => "Possible invalid file path? I'm not actually sure why this error would occur. It looks like git didn't store a file path with a file or something."@,
    }
}

impl DiffDeltaError {
    /// The message shown for this error (see `diff_delta_error_text`).
    pub fn message(&self) -> (r: String)
        ensures
            r@ == diff_delta_error_text(*self),
    {
        match self {
            DiffDeltaError::InvalidUnicode => owned("File Path uses invalid unicode. Not sure how your file system isn't corrupted..."),
            DiffDeltaError::MissingPath => owned("Possible invalid file path? I'm not actually sure why this error would occur. It looks like git didn't store a file path with a file or something."),
        }
    }
}

/// The changed files of the first `k` deltas, or the error of the first
/// delta whose path cannot be read.
pub open spec fn deltas_view(ds: Seq<DeltaRecord>, k: int) -> Result<Seq<ParseableDiffDeltaView>, DiffDeltaError>
    decreases k,
{
    if k <= 0 {
        Ok(seq![])
    } else {
        match deltas_view(ds, k - 1) {
            Err(e) => Err(e),
            Ok(prev) => match ds[k - 1].path {
                DeltaPath::Missing => Err(DiffDeltaError::MissingPath),
                DeltaPath::NotUnicode => Err(DiffDeltaError::InvalidUnicode),
                DeltaPath::Text(p) => Ok(prev.push(ParseableDiffDeltaView { status: ds[k - 1].status, path: p@ })),
            },
        }
    }
}

/// The changed files of a diff, in order, or the error of the first delta
/// whose path cannot be read.
pub fn get_parseable_diff_delta(deltas: Vec<DeltaRecord>) -> (r: Result<Vec<ParseableDiffDelta>, DiffDeltaError>)
    ensures
        match deltas_view(deltas@, deltas@.len() as int) {
            Ok(v) => r matches Ok(files) && files.deep_view() == v,
            Err(e) => r == Err::<Vec<ParseableDiffDelta>, DiffDeltaError>(e),
        },
{
    let mut files: Vec<ParseableDiffDelta> = Vec::new();
    let mut i: usize = 0;
    proof {
        assert(files.deep_view() =~= Seq::<ParseableDiffDeltaView>::empty());
    }
    while i < deltas.len()
        invariant
            i <= deltas.len(),
            deltas_view(deltas@, i as int) == Ok::<Seq<ParseableDiffDeltaView>, DiffDeltaError>(files.deep_view()),
        decreases deltas.len() - i,
    {
        let d = &deltas[i];
        match &d.path {
            DeltaPath::Missing => {
                proof {
                    lemma_deltas_err_sticks(deltas@, i + 1, deltas@.len() as int);
                }
                return Err(DiffDeltaError::MissingPath);
            },
            DeltaPath::NotUnicode => {
                proof {
                    lemma_deltas_err_sticks(deltas@, i + 1, deltas@.len() as int);
                }
                return Err(DiffDeltaError::InvalidUnicode);
            },
            DeltaPath::Text(p) => {
                let ghost before = files.deep_view();
                files.push(ParseableDiffDelta::new(d.status, p.clone()));
                proof {
                    assert(files.deep_view() =~= before.push(ParseableDiffDeltaView { status: d.status, path: p@ }));
                }
            },
        }
        i = i + 1;
    }
    Ok(files)
}

proof fn lemma_deltas_err_sticks(ds: Seq<DeltaRecord>, k: int, n: int)
    requires
        0 <= k <= n,
        deltas_view(ds, k) is Err,
    ensures
        deltas_view(ds, n) == deltas_view(ds, k),
    decreases n - k,
{
    if k < n {
        lemma_deltas_err_sticks(ds, k, n - 1);
    }
}

/// The unstaged and staged changes, and how many files they touch in all.
/// The unstaged deltas are read first, so their error comes first.
pub fn get_files_changed_info_list(
    unstaged_files_changed: usize,
    staged_files_changed: usize,
    unstaged: Vec<DeltaRecord>,
    staged: Vec<DeltaRecord>,
) -> (r: Result<FilesChangedInfo, DiffDeltaError>)
    requires
        unstaged_files_changed + staged_files_changed <= usize::MAX,
    ensures
        match (deltas_view(unstaged@, unstaged@.len() as int), deltas_view(staged@, staged@.len() as int)) {
            (Ok(u), Ok(s)) => r matches Ok(info) && info@ == (FilesChangedInfoView {
                files_changed: (unstaged_files_changed + staged_files_changed) as usize,
                unstaged_files: u,
                staged_files: s,
            }),
            (Err(e), _) => r == Err::<FilesChangedInfo, DiffDeltaError>(e),
            (Ok(_), Err(e)) => r == Err::<FilesChangedInfo, DiffDeltaError>(e),
        },
{
    let files_changed = unstaged_files_changed + staged_files_changed;
    let u = match get_parseable_diff_delta(unstaged) {
        Ok(v) => v,
        Err(e) => {
            return Err(e);
        },
    };
    let s = match get_parseable_diff_delta(staged) {
        Ok(v) => v,
        Err(e) => {
            return Err(e);
        },
    };
    Ok(FilesChangedInfo::new(files_changed, u, s))
}

/// What a `CommitsInfo` holds.
pub struct CommitsInfoView {
    pub branch_draw_properties: Seq<(Seq<char>, Seq<Seq<crate::svg_row::ElementView>>)>,
    pub svg_row_draw_properties: Seq<Seq<(Seq<char>, crate::svg_row::RowValue)>>,
}

/// The drawing of the commit graph: the branch labels by commit, and the
/// drawing of each row.
pub struct CommitsInfo {
    pub branch_draw_properties: Vec<(String, Vec<Vec<Vec<(String, crate::svg_row::SVGProperty)>>>)>,
    pub svg_row_draw_properties: Vec<Vec<(String, crate::svg_row::RowProperty)>>,
}

impl View for CommitsInfo {
    type V = CommitsInfoView;

    open spec fn view(&self) -> CommitsInfoView {
        CommitsInfoView {
            branch_draw_properties: self.branch_draw_properties.deep_view(),
            svg_row_draw_properties: self.svg_row_draw_properties.deep_view(),
        }
    }
}

impl CommitsInfo {
    pub fn new(
        branch_draw_properties: Vec<(String, Vec<Vec<Vec<(String, crate::svg_row::SVGProperty)>>>)>,
        svg_row_draw_properties: Vec<Vec<(String, crate::svg_row::RowProperty)>>,
    ) -> (r: Self)
        ensures
            r@ == (CommitsInfoView {
                branch_draw_properties: branch_draw_properties.deep_view(),
                svg_row_draw_properties: svg_row_draw_properties.deep_view(),
            }),
    {
        Self { branch_draw_properties, svg_row_draw_properties }
    }
}

/// A value that a commit record of the graph can hold.
#[derive(Clone)]
pub enum SVGCommitInfoValue {
    SomeString(String),
    SomeStringVec(Vec<String>),
    SomeStringTupleVec(Vec<(String, String)>),
    SomeInt(isize),
}

/// The plain value of an `SVGCommitInfoValue`.
pub enum CommitValue {
    Str(Seq<char>),
    Strs(Seq<Seq<char>>),
    Pairs(Seq<(Seq<char>, Seq<char>)>),
    Int(int),
}

impl DeepView for SVGCommitInfoValue {
    type V = CommitValue;

    open spec fn deep_view(&self) -> CommitValue {
        match self {
            SVGCommitInfoValue::SomeString(s) => CommitValue::Str(s@),
            SVGCommitInfoValue::SomeStringVec(v) => CommitValue::Strs(v.deep_view()),
            SVGCommitInfoValue::SomeStringTupleVec(v) => CommitValue::Pairs(v.deep_view()),
            SVGCommitInfoValue::SomeInt(i) => CommitValue::Int(*i as int),
        }
    }
}

/// One part of the description of a repository.
pub enum RepoInfoValue {
    SomeCommitInfo(CommitsInfo),
    SomeBranchInfo(BranchesInfo),
    SomeRemoteInfo(Vec<String>),
    SomeGeneralInfo(Vec<(String, String)>),
    SomeFilesChangedInfo(FilesChangedInfo),
}

/// The row of a commit once linked to the rows of the listed commits.
pub open spec fn linked_view(c: ParseableCommitInfoView, shas: Seq<Seq<char>>) -> SVGRowView {
    SVGRowView {
        sha: c.sha,
        summary: c.summary,
        parent_oids: c.parent_shas,
        child_oids: c.child_shas,
        has_parent_child_svg_rows_set: true,
        parent_rows: resolve_links(c.parent_shas, shas, c.parent_shas.len() as int),
        child_rows: resolve_links(c.child_shas, shas, c.child_shas.len() as int),
        x: c.x,
        y: c.y,
    }
}

/// The shas of the listed commits.
pub open spec fn commit_shas(infos: Seq<ParseableCommitInfoView>) -> Seq<Seq<char>> {
    infos.map_values(|c: ParseableCommitInfoView| c.sha)
}

/// The rows of the listed commits, linked to one another.
pub open spec fn linked_rows(infos: Seq<ParseableCommitInfoView>) -> Seq<SVGRowView> {
    infos.map_values(|c: ParseableCommitInfoView| linked_view(c, commit_shas(infos)))
}

/// The rows once laid out: each with the column the layout gave it.
pub open spec fn placed_rows(rows: Seq<SVGRowView>) -> Seq<SVGRowView> {
    let fin = rows_upto(rows, rows.len() as int);
    Seq::new(rows.len(), |k: int| with_x(rows[k], fin.xs[k]))
}

/// The grid of the laid-out rows.
pub open spec fn placed_grid(rows: Seq<SVGRowView>) -> Seq<Seq<int>> {
    let fin = rows_upto(rows, rows.len() as int);
    all_marks_upto(fin, rows, rows.len() as int)
}

/// The listed commits can be laid out and drawn without a panic or an
/// overflow.
pub open spec fn graph_ok(infos: Seq<ParseableCommitInfoView>) -> bool {
    let rows = linked_rows(infos);
    &&& links_valid(rows)
    &&& layout_ok(rows)
    &&& drawable(placed_rows(rows), placed_grid(rows))
}

/// The drawing of the listed commits' graph and their branch labels.
pub open spec fn commits_drawing(
    infos: Seq<ParseableCommitInfoView>,
    oid_refs: Seq<(Seq<char>, Seq<(Seq<char>, Seq<char>)>)>,
) -> CommitsInfoView {
    let rows = linked_rows(infos);
    let placed = placed_rows(rows);
    let g = placed_grid(rows);
    CommitsInfoView {
        branch_draw_properties: oid_refs.map_values(
            |e: (Seq<char>, Seq<(Seq<char>, Seq<char>)>)|
                (e.0, e.1.map_values(|l: (Seq<char>, Seq<char>)| branch_label(l.0, l.1))),
        ),
        svg_row_draw_properties: Seq::new(
            placed.len(),
            |k: int| row_drawing(placed[k], placed, max_or_zero(g[placed[k].y])),
        ),
    }
}

/// Lays out and draws the graph of the listed commits (rows in list order,
/// linked to one another by sha) and draws the branch labels of each
/// commit.
pub fn get_commit_svg_draw_properties_list(
    commit_info_list: Vec<ParseableCommitInfo>,
    oid_refs: Vec<(String, Vec<(String, String)>)>,
) -> (r: CommitsInfo)
    requires
        graph_ok(commit_info_list@.map_values(|c: ParseableCommitInfo| c@)),
    ensures
        r@ == commits_drawing(commit_info_list@.map_values(|c: ParseableCommitInfo| c@), oid_refs.deep_view()),
{
    match draw_commit_graph(commit_info_list, oid_refs) {
        Ok(r) => r,
        Err(_) => {
            proof {
                assert(false);
            }
            CommitsInfo::new(Vec::new(), Vec::new())
        },
    }
}

/// Lays out and draws the graph of the listed commits as
/// `get_commit_svg_draw_properties_list` does, checking first that it can:
/// it fails with `InvalidLink` when a commit names itself as its parent,
/// and with `TooLarge` when a column, a grid row or a pixel coordinate would
/// not fit in an `isize`.
pub fn draw_commit_graph(
    commit_info_list: Vec<ParseableCommitInfo>,
    oid_refs: Vec<(String, Vec<(String, String)>)>,
) -> (r: Result<CommitsInfo, LayoutError>)
    ensures
        ({
            let infos = commit_info_list@.map_values(|c: ParseableCommitInfo| c@);
            match r {
                Ok(c) => graph_ok(infos) && c@ == commits_drawing(infos, oid_refs.deep_view()),
                Err(e) => {
                    &&& !graph_ok(infos)
                    &&& if links_valid(linked_rows(infos)) {
                        e is TooLarge
                    } else {
                        e is InvalidLink
                    }
                },
            }
        }),
{
    let ghost infos = commit_info_list@.map_values(|c: ParseableCommitInfo| c@);
    let ghost rows = linked_rows(infos);
    let n = commit_info_list.len();
    let mut shas: Vec<String> = Vec::new();
    let mut svg_rows: Vec<SVGRow> = Vec::new();
    let mut i: usize = 0;
    while i < n
        invariant
            n == commit_info_list@.len(),
            infos == commit_info_list@.map_values(|c: ParseableCommitInfo| c@),
            i <= n,
            shas@.len() == i,
            svg_rows@.len() == i,
            forall|k: int| 0 <= k < i ==> #[trigger] shas@[k]@ == infos[k].sha,
            forall|k: int| 0 <= k < i ==> #[trigger] svg_rows@[k]@ == (SVGRowView {
                sha: infos[k].sha,
                summary: infos[k].summary,
                parent_oids: infos[k].parent_shas,
                child_oids: infos[k].child_shas,
                has_parent_child_svg_rows_set: false,
                parent_rows: seq![],
                child_rows: seq![],
                x: infos[k].x,
                y: infos[k].y,
            }),
        decreases n - i,
    {
        let row = SVGRow::from_commit_info(&commit_info_list[i]);
        shas.push(commit_info_list[i].borrow_sha().clone());
        svg_rows.push(row);
        i = i + 1;
    }
    proof {
        assert(shas.deep_view() =~= commit_shas(infos));
    }
    let mut k: usize = 0;
    while k < n
        invariant
            n == svg_rows@.len(),
            n == infos.len(),
            rows == linked_rows(infos),
            shas.deep_view() == commit_shas(infos),
            k <= n,
            forall|m: int| 0 <= m < k ==> #[trigger] svg_rows@[m]@ == rows[m],
            forall|m: int| k <= m < n ==> #[trigger] svg_rows@[m]@ == (SVGRowView {
                sha: infos[m].sha,
                summary: infos[m].summary,
                parent_oids: infos[m].parent_shas,
                child_oids: infos[m].child_shas,
                has_parent_child_svg_rows_set: false,
                parent_rows: seq![],
                child_rows: seq![],
                x: infos[m].x,
                y: infos[m].y,
            }),
        decreases n - k,
    {
        svg_rows[k].set_parent_and_child_svg_row_values(&shas);
        proof {
            assert(svg_rows@[k as int]@ =~= rows[k as int]);
        }
        k = k + 1;
    }
    proof {
        assert(row_views(svg_rows@) =~= rows);
    }
    let table = match SVGRow::try_occupied_table(&mut svg_rows) {
        Ok(t) => t,
        Err(e) => {
            proof {
                assert(all_set(rows, n as int));
            }
            return Err(e);
        },
    };
    let ghost placed = placed_rows(rows);
    let ghost g = placed_grid(rows);
    proof {
        assert(row_views(svg_rows@) =~= placed);
        assert(grid(table@) == g);
    }
    if !rows_drawable(&svg_rows, &table) {
        return Err(LayoutError::TooLarge);
    }
    let mut svg_row_draw_properties: Vec<Vec<(String, RowProperty)>> = Vec::new();
    let mut m: usize = 0;
    while m < n
        invariant
            n == svg_rows@.len(),
            m <= n,
            row_views(svg_rows@) == placed,
            placed.len() == n,
            grid(table@) == g,
            drawable(placed, g),
            svg_row_draw_properties@.len() == m,
            forall|j: int| 0 <= j < m ==> #[trigger] svg_row_draw_properties@[j].deep_view() == row_drawing(
                placed[j],
                placed,
                max_or_zero(g[placed[j].y]),
            ),
        decreases n - m,
    {
        proof {
            let v = placed[m as int];
            assert(v == svg_rows@[m as int]@);
            assert(0 <= v.y < g.len());
            assert(g[v.y] == ints(table@[v.y]@));
        }
        let props = svg_rows[m].get_draw_properties(&table, &svg_rows);
        svg_row_draw_properties.push(props);
        m = m + 1;
    }
    let mut branch_draw_properties: Vec<(String, Vec<Vec<Vec<(String, SVGProperty)>>>)> = Vec::new();
    let mut j: usize = 0;
    while j < oid_refs.len()
        invariant
            j <= oid_refs.len(),
            branch_draw_properties@.len() == j,
            forall|q: int| 0 <= q < j ==> #[trigger] branch_draw_properties@[q].deep_view() == ({
                let e = oid_refs.deep_view()[q];
                (e.0, e.1.map_values(|l: (Seq<char>, Seq<char>)| branch_label(l.0, l.1)))
            }),
        decreases oid_refs.len() - j,
    {
        let (ref sha, ref labels) = oid_refs[j];
        let drawn = SVGRow::get_branch_draw_properties(clone_pairs(labels));
        proof {
            assert(drawn.deep_view() =~= labels.deep_view().map_values(
                |l: (Seq<char>, Seq<char>)| branch_label(l.0, l.1),
            ));
        }
        branch_draw_properties.push((sha.clone(), drawn));
        j = j + 1;
    }
    let r = CommitsInfo::new(branch_draw_properties, svg_row_draw_properties);
    proof {
        let want = commits_drawing(infos, oid_refs.deep_view());
        assert(r@.branch_draw_properties =~= want.branch_draw_properties);
        assert(r@.svg_row_draw_properties =~= want.svg_row_draw_properties);
    }
    Ok(r)
}

} // verus!
