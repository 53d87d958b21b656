//! A commit-graph row that places itself on a shared table of
//! occupied cells while it is drawn. The table maps a grid row to the
//! columns taken in it; a commit whose column is taken moves right to the
//! first free one, and the line to each parent takes its column in every
//! grid row it crosses.
use std::collections::HashMap;
use vstd::prelude::*;
use crate::svg_row::{ai, at, color_of, find_row, label_color_of, last_index_of, AttrValue, DrawValue, ElementView, PropValue};
use crate::text::{clone_pairs, clone_strings, owned, push_all, str_eq};

verus! {

broadcast use vstd::std_specs::hash::group_hash_axioms;

/// An SVG attribute value: text or a number.
pub enum SVGRowPropertyAttrs {
    SomeString(String),
    SomeInt(isize),
}

impl DeepView for SVGRowPropertyAttrs {
    type V = AttrValue;

    open spec fn deep_view(&self) -> AttrValue {
        match self {
            SVGRowPropertyAttrs::SomeString(s) => AttrValue::Str(s@),
            SVGRowPropertyAttrs::SomeInt(i) => AttrValue::Int(*i as int),
        }
    }
}

/// A property of an SVG element: a number, a text, or its attributes.
pub enum SVGRowProperty {
    SomeInt(isize),
    SomeString(String),
    SomeHashMap(Vec<(String, SVGRowPropertyAttrs)>),
}

impl DeepView for SVGRowProperty {
    type V = PropValue;

    open spec fn deep_view(&self) -> PropValue {
        match self {
            SVGRowProperty::SomeInt(i) => PropValue::Int(*i as int),
            SVGRowProperty::SomeString(s) => PropValue::Str(s@),
            SVGRowProperty::SomeHashMap(m) => PropValue::Attrs(m.deep_view()),
        }
    }
}

/// One element, a list of elements, or a list of element groups.
pub enum DrawProperty {
    SomeHashMap(Vec<(String, SVGRowProperty)>),
    SomeVector(Vec<Vec<(String, SVGRowProperty)>>),
    SomeVectorVector(Vec<Vec<Vec<(String, SVGRowProperty)>>>),
}

impl DeepView for DrawProperty {
    type V = DrawValue;

    open spec fn deep_view(&self) -> DrawValue {
        match self {
            DrawProperty::SomeHashMap(m) => DrawValue::Single(m.deep_view()),
            DrawProperty::SomeVector(v) => DrawValue::List(v.deep_view()),
            DrawProperty::SomeVectorVector(v) => DrawValue::Nested(v.deep_view()),
        }
    }
}

pub const Y_OFFSET: isize = 20;
pub const X_OFFSET: isize = 20;
pub const X_SPACING: isize = 20;
pub const Y_SPACING: isize = 30;
pub const TEXT_Y_ALIGNMENT: isize = 6;
pub const CIRCLE_RADIUS: isize = 10;
pub const RECT_Y_OFFSET: isize = -12;
pub const RECT_HEIGHT: isize = 24;

/// What an `SVGRow` holds.
pub struct SVGRowView {
    pub sha: Seq<char>,
    pub summary: Seq<char>,
    pub branches_and_tags: Seq<(Seq<char>, Seq<char>)>,
    pub parent_oids: Seq<Seq<char>>,
    pub child_oids: Seq<Seq<char>>,
    pub x: int,
    pub y: int,
}

/// One commit of the graph, with the names that point at it and its place
/// (column `x`, grid row `y`).
pub struct SVGRow {
    pub sha: String,
    pub summary: String,
    pub branches_and_tags: Vec<(String, String)>,
    pub parent_oids: Vec<String>,
    pub child_oids: Vec<String>,
    pub x: isize,
    pub y: isize,
}

impl View for SVGRow {
    type V = SVGRowView;

    open spec fn view(&self) -> SVGRowView {
        SVGRowView {
            sha: self.sha@,
            summary: self.summary@,
            branches_and_tags: self.branches_and_tags.deep_view(),
            parent_oids: self.parent_oids.deep_view(),
            child_oids: self.child_oids.deep_view(),
            x: self.x as int,
            y: self.y as int,
        }
    }
}

/// Why the rows linked to a row could not be listed.
pub enum RowLinkError {
    /// The kind asked for was neither `"parents"` nor `"children"`.
    UnknownKind,
    /// A linked sha is not among the rows of the graph.
    MissingRow,
}

/// The message shown when a row's links cannot be found.
pub open spec fn row_link_error_text(e: RowLinkError) -> Seq<char> {
    match e {
        RowLinkError::UnknownKind => "Please use parents or children for sha_type."@,
        RowLinkError::MissingRow => "Commit had parents or children that are not present from the revwalk."@,
    }
}

impl RowLinkError {
    /// The message shown for this error (see `row_link_error_text`).
    pub fn message(&self) -> (r: String)
        ensures
            r@ == row_link_error_text(*self),
    {
        match self {
            RowLinkError::UnknownKind => owned("Please use parents or children for sha_type."),
            RowLinkError::MissingRow => owned("Commit had parents or children that are not present from the revwalk."),
        }
    }
}

/// The rows of the first `k` shas of `oids` (the last row with each sha);
/// none when one of them is not a row.
pub open spec fn rows_of(oids: Seq<Seq<char>>, shas: Seq<Seq<char>>, k: int) -> Option<Seq<usize>>
    decreases k,
{
    if k <= 0 {
        Some(seq![])
    } else {
        match rows_of(oids, shas, k - 1) {
            Some(prev) => match last_index_of(shas, oids[k - 1]) {
                Some(i) => Some(prev.push(i as usize)),
                None => None,
            },
            None => None,
        }
    }
}

/// The rows that `get_parent_or_child_svg_row_values` gives for a row.
pub open spec fn linked_rows(v: SVGRowView, shas: Seq<Seq<char>>, kind: Seq<char>) -> Result<Seq<usize>, RowLinkError> {
    if kind == "parents"@ {
        match rows_of(v.parent_oids, shas, v.parent_oids.len() as int) {
            Some(r) => Ok(r),
            None => Err(RowLinkError::MissingRow),
        }
    } else if kind == "children"@ {
        match rows_of(v.child_oids, shas, v.child_oids.len() as int) {
            Some(r) => Ok(r),
            None => Err(RowLinkError::MissingRow),
        }
    } else {
        Err(RowLinkError::UnknownKind)
    }
}

/// The rows of a list of shas.
fn rows_for(oids: &Vec<String>, shas: &Vec<String>) -> (r: Option<Vec<usize>>)
    ensures
        match rows_of(oids.deep_view(), shas.deep_view(), oids@.len() as int) {
            Some(s) => r matches Some(v) && v@ == s,
            None => r is None,
        },
{
    let mut out: Vec<usize> = Vec::new();
    let mut k: usize = 0;
    while k < oids.len()
        invariant
            k <= oids@.len(),
            rows_of(oids.deep_view(), shas.deep_view(), k as int) == Some(out@),
        decreases oids@.len() - k,
    {
        match find_row(shas, &oids[k]) {
            Some(i) => {
                out.push(i);
            },
            None => {
                proof {
                    let m = (k + 1) as int;
                    assert(rows_of(oids.deep_view(), shas.deep_view(), m) is None);
                    lemma_rows_of_none(oids.deep_view(), shas.deep_view(), m, oids@.len() as int);
                }
                return None;
            },
        }
        k = k + 1;
    }
    Some(out)
}

proof fn lemma_rows_of_none(oids: Seq<Seq<char>>, shas: Seq<Seq<char>>, k: int, n: int)
    requires
        0 <= k <= n,
        rows_of(oids, shas, k) is None,
    ensures
        rows_of(oids, shas, n) is None,
    decreases n - k,
{
    if k < n {
        lemma_rows_of_none(oids, shas, k + 1, n);
    }
}

impl SVGRow {
    /// A row with the given contents.
    pub fn new(
        sha: String,
        summary: String,
        branches_and_tags: Vec<(String, String)>,
        parent_oids: Vec<String>,
        child_oids: Vec<String>,
        x: isize,
        y: isize,
    ) -> (r: Self)
        ensures
            r@ == (SVGRowView {
                sha: sha@,
                summary: summary@,
                branches_and_tags: branches_and_tags.deep_view(),
                parent_oids: parent_oids.deep_view(),
                child_oids: child_oids.deep_view(),
                x: x as int,
                y: y as int,
            }),
    {
        SVGRow { sha, summary, branches_and_tags, parent_oids, child_oids, x, y }
    }

    /// A copy of the row.
    pub fn duplicate(&self) -> (r: Self)
        ensures
            r@ == self@,
    {
        SVGRow {
            sha: owned(self.sha.as_str()),
            summary: owned(self.summary.as_str()),
            branches_and_tags: clone_pairs(&self.branches_and_tags),
            parent_oids: clone_strings(&self.parent_oids),
            child_oids: clone_strings(&self.child_oids),
            x: self.x,
            y: self.y,
        }
    }

    /// The positions, in the list of all rows (given by their shas), of the
    /// rows of this commit's parents (`"parents"`) or children
    /// (`"children"`); see `linked_rows`.
    pub fn get_parent_or_child_svg_row_values(&self, all_svg_rows: &Vec<String>, sha_type: &str) -> (r: Result<Vec<usize>, RowLinkError>)
        ensures
            match linked_rows(self@, all_svg_rows.deep_view(), sha_type@) {
                Ok(s) => r matches Ok(v) && v@ == s,
                Err(e) => r matches Err(e2) && e2 == e,
            },
    {
        let found;
        if str_eq(sha_type, "parents") {
            found = rows_for(&self.parent_oids, all_svg_rows);
        } else if str_eq(sha_type, "children") {
            found = rows_for(&self.child_oids, all_svg_rows);
        } else {
            return Err(RowLinkError::UnknownKind);
        }
        match found {
            Some(v) => Ok(v),
            None => Err(RowLinkError::MissingRow),
        }
    }
}


/// The plain cells of an occupied table: for each grid row, the columns
/// taken in it.
pub open spec fn grid_view(t: Map<isize, HashMap<isize, bool>>) -> Map<isize, Map<isize, bool>> {
    t.map_values(|h: HashMap<isize, bool>| h@)
}

/// `k` is the first column right of `x` that `row` leaves free.
pub open spec fn is_next_free(row: Map<isize, bool>, x: isize, k: isize) -> bool {
    &&& x < k
    &&& !row.contains_key(k)
    &&& forall|j: isize| x < j < k ==> row.contains_key(j)
}

/// The first column right of `x` that `row` leaves free.
pub open spec fn next_free(row: Map<isize, bool>, x: isize) -> isize {
    choose|k: isize| is_next_free(row, x, k)
}

proof fn lemma_next_free(row: Map<isize, bool>, x: isize, k: isize)
    requires
        is_next_free(row, x, k),
    ensures
        next_free(row, x) == k,
{
    let c = next_free(row, x);
    assert(is_next_free(row, x, c));
    if c < k {
        assert(row.contains_key(c));
    }
    if k < c {
        assert(row.contains_key(k));
    }
}

/// The table after a commit in grid row `y`, column `x`, takes its cell,
/// with the column it ends in: a taken cell (marked `true`) moves it to the
/// first free column right of it; a cell marked `false` is left as it is.
pub open spec fn occupy(g: Map<isize, Map<isize, bool>>, y: isize, x: isize) -> (Map<isize, Map<isize, bool>>, isize) {
    if g.contains_key(y) {
        let row = g[y];
        if row.contains_key(x) {
            if row[x] {
                let k = next_free(row, x);
                (g.insert(y, row.insert(k, true)), k)
            } else {
                (g, x)
            }
        } else {
            (g.insert(y, row.insert(x, true)), x)
        }
    } else {
        (g.insert(y, Map::empty().insert(x, true)), x)
    }
}

/// Every column taken in grid row `y` has a column right of it.
pub open spec fn row_has_room(g: Map<isize, Map<isize, bool>>, y: isize) -> bool {
    g.contains_key(y) ==> forall|k: isize| g[y].contains_key(k) ==> k < isize::MAX
}

/// Takes the cell of a commit (see `occupy`) and gives its column.
fn occupy_node(main_table: &mut HashMap<isize, HashMap<isize, bool>>, y: isize, x: isize) -> (nx: isize)
    requires
        row_has_room(grid_view(old(main_table)@), y),
    ensures
        (grid_view(final(main_table)@), nx) == occupy(grid_view(old(main_table)@), y, x),
        x <= nx,
        nx != x ==> grid_view(old(main_table)@).contains_key(y) && grid_view(old(main_table)@)[y].contains_key(
            (nx - 1) as isize,
        ),
{
    let ghost g0 = grid_view(main_table@);
    match main_table.remove(&y) {
        Some(mut hm) => {
            let ghost row0 = hm@;
            assert(row0 == g0[y]);
            let occupied: Option<bool> = match hm.get(&x) {
                Some(b) => Some(*b),
                None => None,
            };
            let mut nx = x;
            match occupied {
                Some(is_occupied) => {
                    if is_occupied {
                        let mut k = x + 1;
                        while hm.contains_key(&k)
                            invariant
                                hm@ == row0,
                                x < k,
                                forall|j: isize| x < j < k ==> row0.contains_key(j),
                                forall|j: isize| row0.contains_key(j) ==> j < isize::MAX,
                            decreases isize::MAX - k,
                        {
                            k = k + 1;
                        }
                        proof {
                            lemma_next_free(row0, x, k);
                            assert(row0.contains_key((k - 1) as isize));
                        }
                        hm.insert(k, true);
                        nx = k;
                    }
                },
                None => {
                    hm.insert(x, true);
                },
            }
            let ghost mid = main_table@;
            main_table.insert(y, hm);
            proof {
                assert(grid_view(main_table@) =~= g0.insert(y, hm@));
                if occupied == Some(false) {
                    assert(g0.insert(y, hm@) =~= g0);
                }
            }
            nx
        },
        None => {
            let mut temp_hm: HashMap<isize, bool> = HashMap::new();
            temp_hm.insert(x, true);
            main_table.insert(y, temp_hm);
            proof {
                assert(temp_hm@ =~= Map::<isize, bool>::empty().insert(x, true));
                assert(grid_view(main_table@) =~= g0.insert(y, temp_hm@));
            }
            x
        },
    }
}

/// The table after column `x` is marked taken in grid row `i`, unless the
/// row already has an entry for it.
pub open spec fn mark_cell(g: Map<isize, Map<isize, bool>>, i: isize, x: isize) -> Map<isize, Map<isize, bool>> {
    if g.contains_key(i) {
        if g[i].contains_key(x) {
            g
        } else {
            g.insert(i, g[i].insert(x, true))
        }
    } else {
        g.insert(i, Map::empty().insert(x, true))
    }
}

/// Marks column `x` in grid row `i` (see `mark_cell`).
fn mark_in(main_table: &mut HashMap<isize, HashMap<isize, bool>>, i: isize, x: isize)
    ensures
        grid_view(final(main_table)@) == mark_cell(grid_view(old(main_table)@), i, x),
{
    let ghost g0 = grid_view(main_table@);
    match main_table.remove(&i) {
        Some(mut hm) => {
            assert(hm@ == g0[i]);
            if !hm.contains_key(&x) {
                hm.insert(x, true);
            }
            main_table.insert(i, hm);
            proof {
                assert(grid_view(main_table@) =~= g0.insert(i, hm@));
                if g0[i].contains_key(x) {
                    assert(g0.insert(i, hm@) =~= g0);
                }
            }
        },
        None => {
            let mut temp_hm: HashMap<isize, bool> = HashMap::new();
            temp_hm.insert(x, true);
            main_table.insert(i, temp_hm);
            proof {
                assert(temp_hm@ =~= Map::<isize, bool>::empty().insert(x, true));
                assert(grid_view(main_table@) =~= g0.insert(i, temp_hm@));
            }
        },
    }
}

/// The table after column `x` is marked (see `mark_cell`) in grid rows
/// `from` up to, not including, `to`, in that order.
pub open spec fn mark_span(g: Map<isize, Map<isize, bool>>, from: int, to: int, x: isize) -> Map<isize, Map<isize, bool>>
    decreases to - from,
{
    if to <= from {
        g
    } else {
        mark_cell(mark_span(g, from, to - 1, x), (to - 1) as isize, x)
    }
}

/// The table after the line from a commit in grid row `y`, column `x`, to
/// each of its first `k` parents (in grid rows `parent_ys`) is marked in
/// the grid rows between them.
pub open spec fn mark_parents(g: Map<isize, Map<isize, bool>>, parent_ys: Seq<int>, k: int, y: int, x: isize) -> Map<isize, Map<isize, bool>>
    decreases k,
{
    if k <= 0 {
        g
    } else {
        mark_span(mark_parents(g, parent_ys, k - 1, y, x), y + 1, parent_ys[k - 1], x)
    }
}

/// The grid rows of a list of rows.
pub open spec fn ys_of(rows: Seq<SVGRow>) -> Seq<int> {
    rows.map_values(|r: SVGRow| r@.y)
}

/// Marks the lines to the parents (see `mark_parents`).
fn mark_parent_lines(main_table: &mut HashMap<isize, HashMap<isize, bool>>, parent_svg_rows: &Vec<SVGRow>, y: isize, x: isize)
    requires
        y < isize::MAX,
    ensures
        grid_view(final(main_table)@) == mark_parents(
            grid_view(old(main_table)@),
            ys_of(parent_svg_rows@),
            parent_svg_rows@.len() as int,
            y as int,
            x,
        ),
{
    let ghost g0 = grid_view(main_table@);
    let ghost ys = ys_of(parent_svg_rows@);
    let mut p: usize = 0;
    while p < parent_svg_rows.len()
        invariant
            p <= parent_svg_rows@.len(),
            y < isize::MAX,
            ys == ys_of(parent_svg_rows@),
            grid_view(main_table@) == mark_parents(g0, ys, p as int, y as int, x),
        decreases parent_svg_rows@.len() - p,
    {
        let py = parent_svg_rows[p].y;
        let ghost before = grid_view(main_table@);
        assert(ys[p as int] == py as int);
        let mut i: isize = y + 1;
        while i < py
            invariant
                y + 1 <= i,
                y + 1 <= py ==> i <= py,
                py < y + 1 ==> i == y + 1,
                grid_view(main_table@) == mark_span(before, y + 1, i as int, x),
            decreases py - i,
        {
            mark_in(main_table, i, x);
            i = i + 1;
        }
        proof {
            if py < y + 1 {
                assert(mark_span(before, y + 1, py as int, x) == before);
            }
        }
        p = p + 1;
    }
}


/// `m` is the largest column taken in `row`.
pub open spec fn is_largest(row: Map<isize, bool>, m: isize) -> bool {
    &&& row.contains_key(m)
    &&& forall|k: isize| row.contains_key(k) ==> k <= m
}

/// The largest column taken in grid row `y`, or zero when it has none.
pub open spec fn largest_column(g: Map<isize, Map<isize, bool>>, y: isize) -> isize {
    if g.contains_key(y) && exists|m: isize| is_largest(g[y], m) {
        choose|m: isize| is_largest(g[y], m)
    } else {
        0
    }
}

proof fn lemma_largest(g: Map<isize, Map<isize, bool>>, y: isize, m: isize)
    requires
        g.contains_key(y),
        is_largest(g[y], m),
    ensures
        largest_column(g, y) == m,
{
    let c = choose|k: isize| is_largest(g[y], k);
    assert(is_largest(g[y], c));
    assert(c <= m && m <= c);
}

/// The largest column taken in grid row `y` (see `largest_column`).
fn largest_occupied(main_table: &HashMap<isize, HashMap<isize, bool>>, y: isize) -> (r: isize)
    ensures
        r == largest_column(grid_view(main_table@), y),
{
    let ghost g = grid_view(main_table@);
    match main_table.get(&y) {
        None => 0,
        Some(hm) => {
            assert(hm@ == g[y]);
            let mut best: Option<isize> = None;
            let ghost mut seen: Seq<isize> = Seq::empty();
            let keys = hm.keys();
            for k in it: keys
                invariant
                    it.seq().unref().to_set() == hm@.dom(),
                    seen == it.seq().unref().subrange(0, it.index()),
                    best is None <==> seen.len() == 0,
                    best matches Some(m) ==> seen.contains(m) && forall|i: int|
                        0 <= i < seen.len() ==> seen[i] <= m,
                    it.index() == it.seq().len() ==> seen.to_set() == hm@.dom(),
            {
                let kv = *k;
                match best {
                    Some(m) => {
                        if kv > m {
                            best = Some(kv);
                        }
                    },
                    None => {
                        best = Some(kv);
                    },
                }
                proof {
                    assert(it.seq().unref()[it.index()] == kv);
                    seen = seen.push(kv);
                    assert(it.seq().unref().subrange(0, it.index() + 1) =~= seen);
                    assert(it.seq().unref().subrange(0, it.seq().len() as int) =~= it.seq().unref());
                }
            }
            proof {
                match best {
                    Some(m) => {
                        assert forall|k2: isize| hm@.contains_key(k2) implies k2 <= m by {
                            assert(seen.to_set().contains(k2));
                        }
                        assert(seen.to_set().contains(m));
                    },
                    None => {
                        assert(seen =~= Seq::<isize>::empty());
                        assert(seen.to_set() =~= Set::<isize>::empty());
                    },
                }
            }
            match best {
                Some(m) => {
                    proof {
                        lemma_largest(g, y, m);
                    }
                    m
                },
                None => {
                    proof {
                        if exists|m: isize| is_largest(g[y], m) {
                            let m = choose|m: isize| is_largest(g[y], m);
                            assert(hm@.dom().contains(m));
                        }
                    }
                    0
                },
            }
        },
    }
}


/// Column `x` gives a pixel that fits in an `isize`, with room for the
/// offsets that drawing adds.
pub open spec fn column_fits(x: int) -> bool {
    isize::MIN + 50 <= x * X_SPACING <= isize::MAX - 50
}

/// Grid row `y` gives a pixel that fits in an `isize`, with room for the
/// offsets that drawing adds.
pub open spec fn row_fits(y: int) -> bool {
    isize::MIN + 50 <= y * Y_SPACING <= isize::MAX - 50
}

/// The horizontal pixel of column `x`.
pub open spec fn x_pixel(x: int) -> int {
    x * X_SPACING + X_OFFSET
}

/// The vertical pixel of grid row `y`.
pub open spec fn y_pixel(y: int) -> int {
    y * Y_SPACING + Y_OFFSET
}

/// The style of a line drawn in the colour of column `x`.
pub open spec fn stroke_style(x: int) -> Seq<char> {
    "stroke:"@ + color_of(x) + ";stroke-width:4"@
}

/// A line from `(x1, y1)` to `(x2, y2)`.
pub open spec fn line_element(x1: int, y1: int, x2: int, y2: int, style: Seq<char>) -> ElementView {
    seq![
        ("tag"@, PropValue::Str("line"@)),
        ("attrs"@, PropValue::Attrs(seq![
            ai("x1"@, x1),
            ai("y1"@, y1),
            ai("x2"@, x2),
            ai("y2"@, y2),
            at("style"@, style),
        ])),
    ]
}

/// The lines from the first `k` children into row `v`: for each child, a
/// vertical line down from it to the grid row just above `v` (left out
/// when the child is in that grid row), then a line from there to `v`.
pub open spec fn child_lines(v: SVGRowView, children: Seq<SVGRowView>, k: int) -> Seq<ElementView>
    decreases k,
{
    if k <= 0 {
        seq![]
    } else {
        let c = children[k - 1];
        let before = y_pixel(v.y - 1);
        let upper = if before != y_pixel(c.y) {
            seq![line_element(x_pixel(c.x), y_pixel(c.y), x_pixel(c.x), before, stroke_style(c.x))]
        } else {
            seq![]
        };
        child_lines(v, children, k - 1) + upper + seq![
            line_element(x_pixel(c.x), before, x_pixel(v.x), y_pixel(v.y), stroke_style(c.x)),
        ]
    }
}

/// The circle of a commit.
pub open spec fn circle_element(v: SVGRowView) -> ElementView {
    seq![
        ("tag"@, PropValue::Str("circle"@)),
        ("attrs"@, PropValue::Attrs(seq![
            ai("cx"@, x_pixel(v.x)),
            ai("cy"@, y_pixel(v.y)),
            ai("r"@, CIRCLE_RADIUS as int),
            at("stroke"@, color_of(v.x)),
            ai("stroke-width"@, 1),
            at("fill"@, color_of(v.x)),
        ])),
    ]
}

/// A text in grid row `y`, with the largest column taken in that row.
pub open spec fn text_element(y: int, text: Seq<char>, largest: int) -> ElementView {
    seq![
        ("tag"@, PropValue::Str("text"@)),
        ("attrs"@, PropValue::Attrs(seq![
            ai("x"@, 0),
            ai("y"@, y_pixel(y) + TEXT_Y_ALIGNMENT),
            at("fill"@, "white"@),
        ])),
        ("textContent"@, PropValue::Str(text)),
        ("largestXValue"@, PropValue::Int(largest)),
    ]
}

/// The rectangle behind a branch or tag name of the given kind.
pub open spec fn label_rect(y: int, branch_type: Seq<char>) -> ElementView {
    seq![
        ("tag"@, PropValue::Str("rect"@)),
        ("attrs"@, PropValue::Attrs(seq![
            ai("x"@, 0),
            ai("y"@, y_pixel(y) + RECT_Y_OFFSET),
            ai("rx"@, 10),
            ai("ry"@, 10),
            ai("width"@, 0),
            ai("height"@, RECT_HEIGHT as int),
            at("style"@, "fill:"@ + label_color_of(branch_type) + ";fill-opacity:0.5;"@),
        ])),
    ]
}

/// The labels of the first `k` branches and tags of row `v`.
pub open spec fn labels(v: SVGRowView, largest: int, k: int) -> Seq<Seq<ElementView>>
    decreases k,
{
    if k <= 0 {
        seq![]
    } else {
        labels(v, largest, k - 1).push(
            seq![
                text_element(v.y, v.branches_and_tags[k - 1].0, largest),
                label_rect(v.y, v.branches_and_tags[k - 1].1),
            ],
        )
    }
}

/// The faint rectangle behind a whole row.
pub open spec fn background_element(v: SVGRowView) -> ElementView {
    seq![
        ("tag"@, PropValue::Str("rect"@)),
        ("attrs"@, PropValue::Attrs(seq![
            at("class"@, "backgroundRect"@),
            ai("x"@, x_pixel(v.x)),
            ai("y"@, y_pixel(v.y) + RECT_Y_OFFSET),
            ai("width"@, 0),
            ai("height"@, RECT_HEIGHT as int),
            at("style"@, "fill:white;fill-opacity:0.1;"@),
        ])),
    ]
}

/// Everything drawn for row `v` with the given children, where `largest`
/// is the largest column its grid row takes: the child lines, the circle,
/// the branch and tag labels, the summary text and the background.
pub open spec fn row_elements(v: SVGRowView, children: Seq<SVGRowView>, largest: int) -> Seq<DrawValue> {
    seq![
        DrawValue::List(child_lines(v, children, children.len() as int)),
        DrawValue::Single(circle_element(v)),
        DrawValue::Nested(labels(v, largest, v.branches_and_tags.len() as int)),
        DrawValue::Single(text_element(v.y, v.summary, largest)),
        DrawValue::Single(background_element(v)),
    ]
}

/// The plain values of a list of rows.
pub open spec fn row_views(rows: Seq<SVGRow>) -> Seq<SVGRowView> {
    rows.map_values(|r: SVGRow| r@)
}

fn attr_int(key: &str, v: isize) -> (r: (String, SVGRowPropertyAttrs))
    ensures
        r.deep_view() == ai(key@, v as int),
{
    (owned(key), SVGRowPropertyAttrs::SomeInt(v))
}

fn attr_text(key: &str, v: String) -> (r: (String, SVGRowPropertyAttrs))
    ensures
        r.deep_view() == at(key@, v@),
{
    (owned(key), SVGRowPropertyAttrs::SomeString(v))
}

fn prop_text(key: &str, v: String) -> (r: (String, SVGRowProperty))
    ensures
        r.deep_view() == (key@, PropValue::Str(v@)),
{
    (owned(key), SVGRowProperty::SomeString(v))
}

fn prop_attrs(key: &str, v: Vec<(String, SVGRowPropertyAttrs)>) -> (r: (String, SVGRowProperty))
    ensures
        r.deep_view() == (key@, PropValue::Attrs(v.deep_view())),
{
    (owned(key), SVGRowProperty::SomeHashMap(v))
}

fn style_for(x: isize) -> (r: String)
    ensures
        r@ == stroke_style(x as int),
{
    let mut style_str = owned("stroke:");
    let c = crate::svg_row::SVGRow::get_color_string(x);
    push_all(&mut style_str, c.as_str());
    push_all(&mut style_str, ";stroke-width:4");
    style_str
}

fn line(x1: isize, y1: isize, x2: isize, y2: isize, style: String) -> (r: Vec<(String, SVGRowProperty)>)
    ensures
        r.deep_view() == line_element(x1 as int, y1 as int, x2 as int, y2 as int, style@),
{
    let mut attrs: Vec<(String, SVGRowPropertyAttrs)> = Vec::new();
    attrs.push(attr_int("x1", x1));
    attrs.push(attr_int("y1", y1));
    attrs.push(attr_int("x2", x2));
    attrs.push(attr_int("y2", y2));
    attrs.push(attr_text("style", style));
    let mut element: Vec<(String, SVGRowProperty)> = Vec::new();
    element.push(prop_text("tag", owned("line")));
    element.push(prop_attrs("attrs", attrs));
    proof {
        assert(attrs.deep_view() =~= seq![
            ai("x1"@, x1 as int),
            ai("y1"@, y1 as int),
            ai("x2"@, x2 as int),
            ai("y2"@, y2 as int),
            at("style"@, style@),
        ]);
        assert(element.deep_view() =~= line_element(x1 as int, y1 as int, x2 as int, y2 as int, style@));
    }
    element
}

fn text_at(y: isize, text: String, largest: isize) -> (r: Vec<(String, SVGRowProperty)>)
    requires
        row_fits(y as int),
    ensures
        r.deep_view() == text_element(y as int, text@, largest as int),
{
    let py = y * Y_SPACING + Y_OFFSET;
    let mut attrs: Vec<(String, SVGRowPropertyAttrs)> = Vec::new();
    attrs.push(attr_int("x", 0));
    attrs.push(attr_int("y", py + TEXT_Y_ALIGNMENT));
    attrs.push(attr_text("fill", owned("white")));
    let mut element: Vec<(String, SVGRowProperty)> = Vec::new();
    element.push(prop_text("tag", owned("text")));
    element.push(prop_attrs("attrs", attrs));
    element.push(prop_text("textContent", text));
    element.push((owned("largestXValue"), SVGRowProperty::SomeInt(largest)));
    proof {
        assert(attrs.deep_view() =~= seq![
            ai("x"@, 0),
            ai("y"@, y_pixel(y as int) + TEXT_Y_ALIGNMENT),
            at("fill"@, "white"@),
        ]);
        assert(element.deep_view() =~= text_element(y as int, text@, largest as int));
    }
    element
}

fn label_rect_at(y: isize, branch_type: &String) -> (r: Vec<(String, SVGRowProperty)>)
    requires
        row_fits(y as int),
    ensures
        r.deep_view() == label_rect(y as int, branch_type@),
{
    let py = y * Y_SPACING + Y_OFFSET;
    let mut branch_rect_color = "yellow";
    if str_eq(branch_type.as_str(), "local") {
        branch_rect_color = "red";
    } else if str_eq(branch_type.as_str(), "remote") {
        branch_rect_color = "green";
    } else if str_eq(branch_type.as_str(), "tag") {
        branch_rect_color = "grey";
    }
    assert(branch_rect_color@ == label_color_of(branch_type@));
    let mut style_str = owned("fill:");
    push_all(&mut style_str, branch_rect_color);
    push_all(&mut style_str, ";fill-opacity:0.5;");
    let mut attrs: Vec<(String, SVGRowPropertyAttrs)> = Vec::new();
    attrs.push(attr_int("x", 0));
    attrs.push(attr_int("y", py + RECT_Y_OFFSET));
    attrs.push(attr_int("rx", 10));
    attrs.push(attr_int("ry", 10));
    attrs.push(attr_int("width", 0));
    attrs.push(attr_int("height", RECT_HEIGHT));
    attrs.push(attr_text("style", style_str));
    let mut element: Vec<(String, SVGRowProperty)> = Vec::new();
    element.push(prop_text("tag", owned("rect")));
    element.push(prop_attrs("attrs", attrs));
    proof {
        assert(attrs.deep_view() =~= seq![
            ai("x"@, 0),
            ai("y"@, y_pixel(y as int) + RECT_Y_OFFSET),
            ai("rx"@, 10),
            ai("ry"@, 10),
            ai("width"@, 0),
            ai("height"@, RECT_HEIGHT as int),
            at("style"@, "fill:"@ + label_color_of(branch_type@) + ";fill-opacity:0.5;"@),
        ]);
        assert(element.deep_view() =~= label_rect(y as int, branch_type@));
    }
    element
}


/// Every column taken in grid row `y` is one a commit can be drawn in, and
/// so is the column right of it.
pub open spec fn row_columns_fit(g: Map<isize, Map<isize, bool>>, y: isize) -> bool {
    g.contains_key(y) ==> forall|k: isize| #[trigger] g[y].contains_key(k) ==> column_fits(k as int) && column_fits(k + 1)
}


proof fn lemma_free_after(row: Map<isize, bool>, x: isize)
    requires
        x < isize::MAX,
        forall|k: isize| row.contains_key(k) ==> k < isize::MAX,
    ensures
        exists|k: isize| is_next_free(row, x, k),
    decreases isize::MAX - x,
{
    let n = (x + 1) as isize;
    if !row.contains_key(n) {
        assert(is_next_free(row, x, n));
    } else {
        lemma_free_after(row, n);
        let k = choose|k: isize| is_next_free(row, n, k);
        assert(is_next_free(row, x, k));
    }
}

/// One cell of the table holds the given mark.
pub open spec fn cell_is(g: Map<isize, Map<isize, bool>>, r: isize, c: isize, b: bool) -> bool {
    g.contains_key(r) && g[r].contains_key(c) && g[r][c] == b
}

/// Every cell of `g` is in `h` with the same mark.
pub open spec fn keeps_cells(g: Map<isize, Map<isize, bool>>, h: Map<isize, Map<isize, bool>>) -> bool {
    forall|r: isize, c: isize| #![trigger g[r].contains_key(c)] g.contains_key(r) && g[r].contains_key(c) ==> cell_is(h, r, c, g[r][c])
}

/// Placing a commit keeps every cell already taken, and (unless its own
/// cell was marked free with `false`) the commit ends in a cell marked
/// taken that was free before, its own or the first free one right of it.
pub proof fn lemma_occupy_takes_free_cell(g: Map<isize, Map<isize, bool>>, y: isize, x: isize)
    requires
        row_has_room(g, y),
    ensures
        keeps_cells(g, occupy(g, y, x).0),
        x <= occupy(g, y, x).1,
        !cell_is(g, y, x, false) ==> {
            let (h, nx) = occupy(g, y, x);
            &&& cell_is(h, y, nx, true)
            &&& nx == x || !(g.contains_key(y) && g[y].contains_key(nx))
        },
{
    if g.contains_key(y) && g[y].contains_key(x) && g[y][x] {
        lemma_free_after(g[y], x);
        let k = choose|k: isize| is_next_free(g[y], x, k);
        lemma_next_free(g[y], x, k);
    }
    let h = occupy(g, y, x).0;
    assert forall|r: isize, c: isize| #![trigger g[r].contains_key(c)] g.contains_key(r) && g[r].contains_key(c) implies cell_is(h, r, c, g[r][c]) by {
        if g.contains_key(y) && g[y].contains_key(x) && g[y][x] && r == y {
            let k = next_free(g[y], x);
            assert(!g[y].contains_key(k));
        }
    }
}

/// Marking the lines to the parents keeps every cell already taken, and
/// the line to each parent takes its column in every grid row strictly
/// between the commit and that parent.
pub proof fn lemma_marks_cover_lines(g: Map<isize, Map<isize, bool>>, parent_ys: Seq<int>, k: int, y: int, x: isize)
    requires
        0 <= k <= parent_ys.len(),
        forall|p: int| 0 <= p < k ==> #[trigger] parent_ys[p] <= isize::MAX,
    ensures
        keeps_cells(g, mark_parents(g, parent_ys, k, y, x)),
        forall|p: int, i: isize|
            #![trigger parent_ys[p], mark_parents(g, parent_ys, k, y, x).contains_key(i)]
            0 <= p < k && y < i < parent_ys[p] ==> mark_parents(g, parent_ys, k, y, x).contains_key(i)
                && mark_parents(g, parent_ys, k, y, x)[i].contains_key(x),
    decreases k,
{
    if k > 0 {
        lemma_marks_cover_lines(g, parent_ys, k - 1, y, x);
        let g1 = mark_parents(g, parent_ys, k - 1, y, x);
        lemma_span_covers(g1, y + 1, parent_ys[k - 1], x);
        let g2 = mark_parents(g, parent_ys, k, y, x);
        assert(g2 == mark_span(g1, y + 1, parent_ys[k - 1], x));
        assert forall|r: isize, c: isize| #![trigger g[r].contains_key(c)] g.contains_key(r) && g[r].contains_key(c) implies cell_is(g2, r, c, g[r][c]) by {
            assert(g1.contains_key(r) && g1[r].contains_key(c));
        }
        assert forall|p: int, i: isize|
            #![trigger parent_ys[p], mark_parents(g, parent_ys, k, y, x).contains_key(i)]
            0 <= p < k && y < i < parent_ys[p] implies mark_parents(g, parent_ys, k, y, x).contains_key(i)
                && mark_parents(g, parent_ys, k, y, x)[i].contains_key(x) by {
            if p < k - 1 {
                assert(g1.contains_key(i) && g1[i].contains_key(x));
            } else {
                assert(mark_span(g1, y + 1, parent_ys[k - 1], x).contains_key(i));
            }
        }
    }
}

proof fn lemma_span_covers(g: Map<isize, Map<isize, bool>>, from: int, to: int, x: isize)
    requires
        to <= isize::MAX,
    ensures
        keeps_cells(g, mark_span(g, from, to, x)),
        forall|i: isize| from <= i < to ==> #[trigger] mark_span(g, from, to, x).contains_key(i)
            && mark_span(g, from, to, x)[i].contains_key(x),
    decreases to - from,
{
    if to > from {
        lemma_span_covers(g, from, to - 1, x);
        let g1 = mark_span(g, from, to - 1, x);
        let g2 = mark_span(g, from, to, x);
        let c = (to - 1) as isize;
        assert forall|r: isize, cc: isize| #![trigger g[r].contains_key(cc)] g.contains_key(r) && g[r].contains_key(cc) implies cell_is(g2, r, cc, g[r][cc]) by {
            assert(g1.contains_key(r) && g1[r].contains_key(cc));
        }
        assert forall|i: isize| from <= i < to implies #[trigger] mark_span(g, from, to, x).contains_key(i)
            && mark_span(g, from, to, x)[i].contains_key(x) by {
            if i < to - 1 {
                assert(g1.contains_key(i) && g1[i].contains_key(x));
            }
        }
    }
}

/// The rows found for a commit's parents or children are rows with those
/// shas, one for each, in order.
pub proof fn lemma_linked_rows_match(oids: Seq<Seq<char>>, shas: Seq<Seq<char>>, k: int)
    requires
        0 <= k <= oids.len(),
        shas.len() <= usize::MAX,
    ensures
        rows_of(oids, shas, k) matches Some(r) ==> r.len() == k && forall|j: int|
            0 <= j < k ==> (#[trigger] r[j] as int) < shas.len() && shas[r[j] as int] == oids[j],
    decreases k,
{
    if k > 0 {
        lemma_linked_rows_match(oids, shas, k - 1);
        crate::svg_row::lemma_last_index_of(shas, oids[k - 1]);
        match rows_of(oids, shas, k - 1) {
            Some(prev) => match last_index_of(shas, oids[k - 1]) {
                Some(i) => {
                    let r = prev.push(i as usize);
                    assert(r[k - 1] as int == i);
                    assert forall|j: int| 0 <= j < k implies (#[trigger] r[j] as int) < shas.len() && shas[r[j] as int] == oids[j] by {
                        if j < k - 1 {
                            assert(r[j] == prev[j]);
                        }
                    }
                },
                None => {},
            },
            None => {},
        }
    }
}

impl SVGRow {
    /// Places this commit on the table and draws it. The commit takes its
    /// cell (see `occupy`; it may move right), the line to each parent takes
    /// its column in the grid rows between them (see `mark_parents`), and
    /// the row is drawn (see `row_elements`) with the largest column its grid
    /// row then takes.
    pub fn get_draw_properties(
        &mut self,
        main_table: &mut HashMap<isize, HashMap<isize, bool>>,
        parent_svg_rows: &Vec<SVGRow>,
        child_svg_rows: &Vec<SVGRow>,
    ) -> (r: Vec<DrawProperty>)
        requires
            column_fits(old(self)@.x),
            row_fits(old(self)@.y),
            row_has_room(grid_view(old(main_table)@), old(self)@.y as isize),
            row_columns_fit(grid_view(old(main_table)@), old(self)@.y as isize),
            forall|j: int|
                0 <= j < child_svg_rows@.len() ==> column_fits(#[trigger] child_svg_rows@[j]@.x) && row_fits(
                    child_svg_rows@[j]@.y,
                ),
        ensures
            ({
                let placed = occupy(grid_view(old(main_table)@), old(self)@.y as isize, old(self)@.x as isize);
                &&& final(self)@ == SVGRowView { x: placed.1 as int, ..old(self)@ }
                &&& grid_view(final(main_table)@) == mark_parents(
                    placed.0,
                    ys_of(parent_svg_rows@),
                    parent_svg_rows@.len() as int,
                    old(self)@.y,
                    placed.1,
                )
                &&& r.deep_view() == row_elements(
                    final(self)@,
                    row_views(child_svg_rows@),
                    largest_column(grid_view(final(main_table)@), old(self)@.y as isize) as int,
                )
            }),
    {
        let ghost g0 = grid_view(main_table@);
        let nx = occupy_node(main_table, self.y, self.x);
        proof {
            if nx != self.x {
                let k = (nx - 1) as isize;
                assert(g0[self.y].contains_key(k));
                assert(column_fits(k + 1));
            }
            assert(column_fits(nx as int));
        }
        self.x = nx;
        mark_parent_lines(main_table, parent_svg_rows, self.y, self.x);

        let ghost v = self@;
        let ghost children = row_views(child_svg_rows@);
        let mut draw_properties: Vec<DrawProperty> = Vec::new();

        let pixel_x = self.x * X_SPACING + X_OFFSET;
        let pixel_y = self.y * Y_SPACING + Y_OFFSET;
        let color = crate::svg_row::SVGRow::get_color_string(self.x);
        let before_pixel_y = (self.y - 1) * Y_SPACING + Y_OFFSET;
        let mut child_lines_v: Vec<Vec<(String, SVGRowProperty)>> = Vec::new();
        let mut c: usize = 0;
        while c < child_svg_rows.len()
            invariant
                c <= child_svg_rows@.len(),
                v == self@,
                children == row_views(child_svg_rows@),
                pixel_x == x_pixel(v.x),
                pixel_y == y_pixel(v.y),
                before_pixel_y == y_pixel(v.y - 1),
                forall|j: int|
                    0 <= j < child_svg_rows@.len() ==> column_fits(#[trigger] child_svg_rows@[j]@.x) && row_fits(
                        child_svg_rows@[j]@.y,
                    ),
                child_lines_v.deep_view() == child_lines(v, children, c as int),
            decreases child_svg_rows@.len() - c,
        {
            let child = &child_svg_rows[c];
            assert(children[c as int] == child@);
            assert(column_fits(child_svg_rows@[c as int]@.x));
            let child_pixel_x = child.x * X_SPACING + X_OFFSET;
            let child_pixel_y = child.y * Y_SPACING + Y_OFFSET;
            let ghost before = child_lines_v.deep_view();
            if before_pixel_y != child_pixel_y {
                child_lines_v.push(line(child_pixel_x, child_pixel_y, child_pixel_x, before_pixel_y, style_for(child.x)));
            }
            child_lines_v.push(line(child_pixel_x, before_pixel_y, pixel_x, pixel_y, style_for(child.x)));
            proof {
                let upper = if before_pixel_y != child_pixel_y {
                    seq![line_element(x_pixel(child@.x), y_pixel(child@.y), x_pixel(child@.x), y_pixel(v.y - 1), stroke_style(child@.x))]
                } else {
                    seq![]
                };
                assert(child_lines_v.deep_view() =~= before + upper + seq![
                    line_element(x_pixel(child@.x), y_pixel(v.y - 1), x_pixel(v.x), y_pixel(v.y), stroke_style(child@.x)),
                ]);
            }
            c = c + 1;
        }
        draw_properties.push(DrawProperty::SomeVector(child_lines_v));

        let mut circle_attrs: Vec<(String, SVGRowPropertyAttrs)> = Vec::new();
        circle_attrs.push(attr_int("cx", pixel_x));
        circle_attrs.push(attr_int("cy", pixel_y));
        circle_attrs.push(attr_int("r", CIRCLE_RADIUS));
        circle_attrs.push(attr_text("stroke", owned(color.as_str())));
        circle_attrs.push(attr_int("stroke-width", 1));
        circle_attrs.push(attr_text("fill", owned(color.as_str())));
        let mut circle: Vec<(String, SVGRowProperty)> = Vec::new();
        circle.push(prop_text("tag", owned("circle")));
        circle.push(prop_attrs("attrs", circle_attrs));
        proof {
            assert(circle_attrs.deep_view() =~= seq![
                ai("cx"@, x_pixel(v.x)),
                ai("cy"@, y_pixel(v.y)),
                ai("r"@, CIRCLE_RADIUS as int),
                at("stroke"@, color_of(v.x)),
                ai("stroke-width"@, 1),
                at("fill"@, color_of(v.x)),
            ]);
            assert(circle.deep_view() =~= circle_element(v));
        }
        draw_properties.push(DrawProperty::SomeHashMap(circle));

        let largest_occupied_x = largest_occupied(main_table, self.y);
        let mut branch_and_tags: Vec<Vec<Vec<(String, SVGRowProperty)>>> = Vec::new();
        let mut b: usize = 0;
        while b < self.branches_and_tags.len()
            invariant
                b <= v.branches_and_tags.len(),
                v == self@,
                row_fits(v.y),
                branch_and_tags.deep_view() == labels(v, largest_occupied_x as int, b as int),
            decreases v.branches_and_tags.len() - b,
        {
            let name = self.branches_and_tags[b].0.clone();
            let ghost before = branch_and_tags.deep_view();
            let mut group: Vec<Vec<(String, SVGRowProperty)>> = Vec::new();
            group.push(text_at(self.y, owned(self.branches_and_tags[b].0.as_str()), largest_occupied_x));
            group.push(label_rect_at(self.y, &self.branches_and_tags[b].1));
            branch_and_tags.push(group);
            proof {
                assert(v.branches_and_tags[b as int] == (self.branches_and_tags@[b as int].0@, self.branches_and_tags@[b as int].1@));
                assert(group.deep_view() =~= seq![
                    text_element(v.y, v.branches_and_tags[b as int].0, largest_occupied_x as int),
                    label_rect(v.y, v.branches_and_tags[b as int].1),
                ]);
                assert(branch_and_tags.deep_view() =~= labels(v, largest_occupied_x as int, b + 1));
            }
            b = b + 1;
        }
        draw_properties.push(DrawProperty::SomeVectorVector(branch_and_tags));

        draw_properties.push(DrawProperty::SomeHashMap(text_at(self.y, owned(self.summary.as_str()), largest_occupied_x)));

        let mut rect_attrs: Vec<(String, SVGRowPropertyAttrs)> = Vec::new();
        rect_attrs.push(attr_text("class", owned("backgroundRect")));
        rect_attrs.push(attr_int("x", pixel_x));
        rect_attrs.push(attr_int("y", pixel_y + RECT_Y_OFFSET));
        rect_attrs.push(attr_int("width", 0));
        rect_attrs.push(attr_int("height", RECT_HEIGHT));
        rect_attrs.push(attr_text("style", owned("fill:white;fill-opacity:0.1;")));
        let mut rect: Vec<(String, SVGRowProperty)> = Vec::new();
        rect.push(prop_text("tag", owned("rect")));
        rect.push(prop_attrs("attrs", rect_attrs));
        proof {
            assert(rect_attrs.deep_view() =~= seq![
                at("class"@, "backgroundRect"@),
                ai("x"@, x_pixel(v.x)),
                ai("y"@, y_pixel(v.y) + RECT_Y_OFFSET),
                ai("width"@, 0),
                ai("height"@, RECT_HEIGHT as int),
                at("style"@, "fill:white;fill-opacity:0.1;"@),
            ]);
            assert(rect.deep_view() =~= background_element(v));
        }
        draw_properties.push(DrawProperty::SomeHashMap(rect));
        proof {
            assert(draw_properties.deep_view() =~= row_elements(v, children, largest_occupied_x as int));
        }
        draw_properties
    }
}

} // verus!
