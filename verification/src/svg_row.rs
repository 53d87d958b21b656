//! Layout and drawing of the commit graph. Each commit is a row; rows are
//! linked to their parent and child rows by position in the list of rows.
//! `get_occupied_table` places every commit and the lines to its parents on
//! a grid of columns, moving a commit to the right while its column is
//! taken, and `get_draw_properties` turns a placed row into SVG elements.
use vstd::prelude::*;
use crate::parseable_info::ParseableCommitInfo;
use crate::text::{clone_strings, int_decimal, isize_to_string, owned, push_all, str_eq};

verus! {

/// A plain attribute value.
pub enum AttrValue {
    Str(Seq<char>),
    Int(int),
}

/// An SVG attribute value: text or a number.
#[derive(Clone)]
pub enum SVGPropertyAttrs {
    SomeString(String),
    SomeInt(isize),
}

impl DeepView for SVGPropertyAttrs {
    type V = AttrValue;

    open spec fn deep_view(&self) -> AttrValue {
        match self {
            SVGPropertyAttrs::SomeString(s) => AttrValue::Str(s@),
            SVGPropertyAttrs::SomeInt(i) => AttrValue::Int(*i as int),
        }
    }
}

/// Plain attributes of an element, in order.
pub type AttrsView = Seq<(Seq<char>, AttrValue)>;

/// A plain element property.
pub enum PropValue {
    Int(int),
    Str(Seq<char>),
    Attrs(AttrsView),
}

/// A property of an SVG element: a number, a text, or its attributes.
#[derive(Clone)]
pub enum SVGProperty {
    SomeInt(isize),
    SomeString(String),
    SomeHashMap(Vec<(String, SVGPropertyAttrs)>),
}

impl DeepView for SVGProperty {
    type V = PropValue;

    open spec fn deep_view(&self) -> PropValue {
        match self {
            SVGProperty::SomeInt(i) => PropValue::Int(*i as int),
            SVGProperty::SomeString(s) => PropValue::Str(s@),
            SVGProperty::SomeHashMap(m) => PropValue::Attrs(m.deep_view()),
        }
    }
}

/// A plain SVG element: its properties by name, in order.
pub type ElementView = Seq<(Seq<char>, PropValue)>;

/// A plain drawing entry.
pub enum DrawValue {
    Single(ElementView),
    List(Seq<ElementView>),
    Nested(Seq<Seq<ElementView>>),
}

/// One element, a list of elements, or a list of element groups.
#[derive(Clone)]
pub enum DrawProperty {
    SomeHashMap(Vec<(String, SVGProperty)>),
    SomeVector(Vec<Vec<(String, SVGProperty)>>),
    SomeVectorVector(Vec<Vec<Vec<(String, SVGProperty)>>>),
}

impl DeepView for DrawProperty {
    type V = DrawValue;

    open spec fn deep_view(&self) -> DrawValue {
        match self {
            DrawProperty::SomeHashMap(m) => DrawValue::Single(m.deep_view()),
            DrawProperty::SomeVector(v) => DrawValue::List(v.deep_view()),
            DrawProperty::SomeVectorVector(v) => DrawValue::Nested(v.deep_view()),
        }
    }
}

/// A plain row entry.
pub enum RowValue {
    Int(int),
    Str(Seq<char>),
    Entries(Seq<(Seq<char>, DrawValue)>),
}

/// A property of a drawn row: a number, a text, or its drawing entries.
#[derive(Clone)]
pub enum RowProperty {
    SomeInt(isize),
    SomeString(String),
    SomeHashMap(Vec<(String, DrawProperty)>),
}

impl DeepView for RowProperty {
    type V = RowValue;

    open spec fn deep_view(&self) -> RowValue {
        match self {
            RowProperty::SomeInt(i) => RowValue::Int(*i as int),
            RowProperty::SomeString(s) => RowValue::Str(s@),
            RowProperty::SomeHashMap(m) => RowValue::Entries(m.deep_view()),
        }
    }
}

pub const Y_SPACING: isize = 24;
pub const Y_OFFSET: isize = 20;
pub const X_SPACING: isize = 15;
pub const X_OFFSET: isize = 20;
pub const TEXT_Y_OFFSET: isize = 5;
pub const CIRCLE_RADIUS: isize = 5;
pub const LINE_STROKE_WIDTH: isize = 2;
pub const RECT_HEIGHT: isize = 18;
pub const RECT_Y_OFFSET: isize = -9;

/// What an `SVGRow` holds. `parent_rows` and `child_rows` are positions in
/// the list of all rows.
pub struct SVGRowView {
    pub sha: Seq<char>,
    pub summary: Seq<char>,
    pub parent_oids: Seq<Seq<char>>,
    pub child_oids: Seq<Seq<char>>,
    pub has_parent_child_svg_rows_set: bool,
    pub parent_rows: Seq<usize>,
    pub child_rows: Seq<usize>,
    pub x: int,
    pub y: int,
}

/// One commit of the graph: where it stands (column `x`, row `y`) and which
/// rows hold its parents and children.
pub struct SVGRow {
    pub sha: String,
    pub summary: String,
    pub parent_oids: Vec<String>,
    pub child_oids: Vec<String>,
    pub has_parent_child_svg_rows_set: bool,
    pub parent_svg_rows: Vec<usize>,
    pub child_svg_rows: Vec<usize>,
    pub x: isize,
    pub y: isize,
}

impl View for SVGRow {
    type V = SVGRowView;

    open spec fn view(&self) -> SVGRowView {
        SVGRowView {
            sha: self.sha@,
            summary: self.summary@,
            parent_oids: self.parent_oids.deep_view(),
            child_oids: self.child_oids.deep_view(),
            has_parent_child_svg_rows_set: self.has_parent_child_svg_rows_set,
            parent_rows: self.parent_svg_rows@,
            child_rows: self.child_svg_rows@,
            x: self.x as int,
            y: self.y as int,
        }
    }
}

/// The plain values of a list of rows.
pub open spec fn row_views(rows: Seq<SVGRow>) -> Seq<SVGRowView> {
    rows.map_values(|r: SVGRow| r@)
}

/// A row with its column replaced.
pub open spec fn with_x(v: SVGRowView, x: int) -> SVGRowView {
    SVGRowView { x, ..v }
}

/// The remainder of `x` divided by four as Rust's `%` computes it: it takes
/// the sign of `x`.
pub open spec fn rem4(x: int) -> int {
    if x >= 0 {
        x % 4
    } else {
        -((-x) % 4)
    }
}

/// The colour of the lines and circles drawn in column `x`.
pub open spec fn color_of(x: int) -> Seq<char> {
    let c = rem4(x);
    if c == 0 {
        "#00CC19"@
    } else if c == 1 {
        "#0198A6"@
    } else if c == 2 {
        "#FF7800"@
    } else {
        "#FF0D00"@
    }
}

/// Colours repeat every four columns to the right of column zero (left of
/// it, Rust's `%` keeps the sign and the pattern differs).
pub proof fn lemma_color_period(x: int)
    requires
        x >= 0,
    ensures
        color_of(x + 4) == color_of(x),
{
    assert((x + 4) % 4 == x % 4);
}

/// The last position of `s` in `shas`, if it occurs.
pub open spec fn last_index_of(shas: Seq<Seq<char>>, s: Seq<char>) -> Option<int>
    decreases shas.len(),
{
    if shas.len() == 0 {
        None
    } else if shas.last() == s {
        Some(shas.len() - 1)
    } else {
        last_index_of(shas.drop_last(), s)
    }
}

/// The rows that the first `k` of `oids` name, where row `j` has the sha
/// `shas[j]`; an oid that no row has is skipped.
pub open spec fn resolve_links(oids: Seq<Seq<char>>, shas: Seq<Seq<char>>, k: int) -> Seq<usize>
    decreases k,
{
    if k <= 0 || k > oids.len() {
        seq![]
    } else {
        let prev = resolve_links(oids, shas, k - 1);
        match last_index_of(shas, oids[k - 1]) {
            Some(j) => prev.push(j as usize),
            None => prev,
        }
    }
}

pub(crate) proof fn lemma_last_index_of(shas: Seq<Seq<char>>, s: Seq<char>)
    ensures
        match last_index_of(shas, s) {
            Some(j) => 0 <= j < shas.len() && shas[j] == s && forall|m: int|
                j < m < shas.len() ==> #[trigger] shas[m] != s,
            None => forall|m: int| 0 <= m < shas.len() ==> #[trigger] shas[m] != s,
        },
    decreases shas.len(),
{
    if shas.len() > 0 {
        lemma_last_index_of(shas.drop_last(), s);
        assert(forall|m: int| 0 <= m < shas.len() - 1 ==> shas.drop_last()[m] == #[trigger] shas[m]);
    }
}

/// The last position of `s` in `shas`.
pub(crate) fn find_row(shas: &Vec<String>, s: &String) -> (r: Option<usize>)
    ensures
        r matches Some(j) ==> last_index_of(shas.deep_view(), s@) == Some(j as int),
        r is None ==> last_index_of(shas.deep_view(), s@) is None,
{
    let mut k: usize = shas.len();
    while k > 0
        invariant
            k <= shas.len(),
            forall|m: int| k <= m < shas.len() ==> #[trigger] shas.deep_view()[m] != s@,
        decreases k,
    {
        if shas[k - 1] == *s {
            proof {
                lemma_last_index_of(shas.deep_view(), s@);
                assert(shas.deep_view()[k - 1] == s@);
            }
            return Some(k - 1);
        }
        k = k - 1;
    }
    proof {
        lemma_last_index_of(shas.deep_view(), s@);
    }
    None
}

impl SVGRow {
    /// A row for a commit, not yet linked to other rows.
    pub fn from_commit_info(commit_info: &ParseableCommitInfo) -> (r: Self)
        ensures
            r@ == (SVGRowView {
                sha: commit_info@.sha,
                summary: commit_info@.summary,
                parent_oids: commit_info@.parent_shas,
                child_oids: commit_info@.child_shas,
                has_parent_child_svg_rows_set: false,
                parent_rows: seq![],
                child_rows: seq![],
                x: commit_info@.x,
                y: commit_info@.y,
            }),
    {
        let r = Self {
            sha: commit_info.borrow_sha().clone(),
            summary: commit_info.borrow_summary().clone(),
            parent_oids: clone_strings(commit_info.borrow_parent_shas()),
            child_oids: clone_strings(commit_info.borrow_child_shas()),
            has_parent_child_svg_rows_set: false,
            parent_svg_rows: Vec::new(),
            child_svg_rows: Vec::new(),
            x: *commit_info.borrow_x(),
            y: *commit_info.borrow_y(),
        };
        proof {
            assert(r.parent_svg_rows@ =~= seq![]);
            assert(r.child_svg_rows@ =~= seq![]);
        }
        r
    }

    /// Links this row to the rows of its parents and children, where row
    /// `j` has the sha `all_svg_rows[j]`. A parent or child that no row has
    /// lies outside the walked range and is skipped; the links are added
    /// after any that the row already has.
    pub fn set_parent_and_child_svg_row_values(&mut self, all_svg_rows: &Vec<String>)
        ensures
            final(self)@ == (SVGRowView {
                has_parent_child_svg_rows_set: true,
                parent_rows: old(self)@.parent_rows + resolve_links(
                    old(self)@.parent_oids,
                    all_svg_rows.deep_view(),
                    old(self)@.parent_oids.len() as int,
                ),
                child_rows: old(self)@.child_rows + resolve_links(
                    old(self)@.child_oids,
                    all_svg_rows.deep_view(),
                    old(self)@.child_oids.len() as int,
                ),
                ..old(self)@
            }),
    {
        let ghost shas = all_svg_rows.deep_view();
        let ghost start_parents = self.parent_svg_rows@;
        let mut i: usize = 0;
        while i < self.parent_oids.len()
            invariant
                i <= self.parent_oids.len(),
                self.parent_oids == old(self).parent_oids,
                self.child_oids == old(self).child_oids,
                self.child_svg_rows == old(self).child_svg_rows,
                self.sha == old(self).sha,
                self.summary == old(self).summary,
                self.x == old(self).x,
                self.y == old(self).y,
                self.has_parent_child_svg_rows_set == old(self).has_parent_child_svg_rows_set,
                shas == all_svg_rows.deep_view(),
                self.parent_svg_rows@ == start_parents + resolve_links(
                    self.parent_oids.deep_view(),
                    shas,
                    i as int,
                ),
            decreases self.parent_oids.len() - i,
        {
            match find_row(all_svg_rows, &self.parent_oids[i]) {
                Some(j) => {
                    self.parent_svg_rows.push(j);
                },
                None => {},
            }
            i = i + 1;
            proof {
                assert(self.parent_svg_rows@ =~= start_parents + resolve_links(
                    self.parent_oids.deep_view(),
                    shas,
                    i as int,
                ));
            }
        }
        let ghost start_children = self.child_svg_rows@;
        let mut i: usize = 0;
        while i < self.child_oids.len()
            invariant
                i <= self.child_oids.len(),
                self.child_oids == old(self).child_oids,
                self.parent_oids == old(self).parent_oids,
                self.parent_svg_rows@ == old(self).parent_svg_rows@ + resolve_links(
                    old(self).parent_oids.deep_view(),
                    shas,
                    old(self).parent_oids.deep_view().len() as int,
                ),
                self.sha == old(self).sha,
                self.summary == old(self).summary,
                self.x == old(self).x,
                self.y == old(self).y,
                self.has_parent_child_svg_rows_set == old(self).has_parent_child_svg_rows_set,
                shas == all_svg_rows.deep_view(),
                self.child_svg_rows@ == start_children + resolve_links(
                    self.child_oids.deep_view(),
                    shas,
                    i as int,
                ),
            decreases self.child_oids.len() - i,
        {
            match find_row(all_svg_rows, &self.child_oids[i]) {
                Some(j) => {
                    self.child_svg_rows.push(j);
                },
                None => {},
            }
            i = i + 1;
            proof {
                assert(self.child_svg_rows@ =~= start_children + resolve_links(
                    self.child_oids.deep_view(),
                    shas,
                    i as int,
                ));
            }
        }
        self.has_parent_child_svg_rows_set = true;
    }

    /// The colour for column `x`: green, teal, orange or red by `x % 4`.
    pub fn get_color_string(x: isize) -> (r: String)
        ensures
            r@ == color_of(x as int),
    {
        let color_num = x % 4;
        if color_num == 0 {
            owned("#00CC19")
        } else if color_num == 1 {
            owned("#0198A6")
        } else if color_num == 2 {
            owned("#FF7800")
        } else {
            owned("#FF0D00")
        }
    }
}

/// The grid of a table, as integers.
pub open spec fn ints(v: Seq<isize>) -> Seq<int> {
    v.map_values(|e: isize| e as int)
}

/// The grid of a table, as integers.
pub open spec fn grid(t: Seq<Vec<isize>>) -> Seq<Seq<int>> {
    t.map_values(|r: Vec<isize>| ints(r@))
}

/// How many entries of `row` are at least `x`.
pub open spec fn count_at_least(row: Seq<int>, x: int) -> nat
    decreases row.len(),
{
    if row.len() == 0 {
        0
    } else {
        count_at_least(row.drop_last(), x) + if row.last() >= x {
            1nat
        } else {
            0nat
        }
    }
}

/// Moving past a held value leaves fewer entries at or above it.
pub proof fn lemma_count_at_least_step(row: Seq<int>, x: int)
    ensures
        count_at_least(row, x + 1) <= count_at_least(row, x),
        row.contains(x) ==> count_at_least(row, x + 1) < count_at_least(row, x),
    decreases row.len(),
{
    if row.len() > 0 {
        lemma_count_at_least_step(row.drop_last(), x);
        if row.contains(x) && !row.drop_last().contains(x) {
            assert(row.last() == x) by {
                let k = choose|k: int| 0 <= k < row.len() && row[k] == x;
                if k < row.len() - 1 {
                    assert(row.drop_last()[k] == x);
                }
            }
        }
        if row.drop_last().contains(x) {
            let k = choose|k: int| 0 <= k < row.drop_last().len() && row.drop_last()[k] == x;
            assert(row[k] == x);
        }
    }
}

/// The first value at or above `x` that `row` does not hold: a node or line
/// that wants column `x` in a grid row moves right until the column is free.
pub open spec fn first_free(row: Seq<int>, x: int) -> int
    decreases count_at_least(row, x),
{
    if row.contains(x) {
        proof {
            lemma_count_at_least_step(row, x);
        }
        first_free(row, x + 1)
    } else {
        x
    }
}

proof fn lemma_first_free(row: Seq<int>, x: int)
    ensures
        first_free(row, x) >= x,
        !row.contains(first_free(row, x)),
        row.contains(x) ==> first_free(row, x) > x,
    decreases count_at_least(row, x),
{
    if row.contains(x) {
        lemma_count_at_least_step(row, x);
        lemma_first_free(row, x + 1);
    }
}

/// The grid while rows are laid out, and the column of every row.
pub struct Layout {
    pub xs: Seq<int>,
    pub table: Seq<Seq<int>>,
}

/// Takes column `x` (or the first free one to its right) in grid row `y`;
/// a `y` past the last grid row adds a new grid row holding just `x`.
/// Gives the new grid and the column taken.
pub open spec fn place(table: Seq<Seq<int>>, y: int, x: int) -> (Seq<Seq<int>>, int) {
    if y < table.len() {
        let nx = first_free(table[y], x);
        (table.update(y, table[y].push(nx)), nx)
    } else {
        (table.push(seq![x]), x)
    }
}

/// Placing a commit (or a line) on the grid takes a column at or right of
/// the one it wanted that its grid row did not hold, adds it to that grid
/// row, and leaves every other grid row as it was.
pub proof fn lemma_place_takes_free_column(table: Seq<Seq<int>>, y: int, x: int)
    requires
        0 <= y <= table.len(),
    ensures
        ({
            let (t2, nx) = place(table, y, x);
            &&& nx >= x
            &&& t2.len() == if y < table.len() { table.len() } else { table.len() + 1 }
            &&& y < table.len() ==> !table[y].contains(nx) && t2[y] == table[y].push(nx)
            &&& y == table.len() ==> t2[y] == seq![x]
            &&& forall|r: int| 0 <= r < table.len() && r != y ==> #[trigger] t2[r] == table[r]
        }),
{
    if y < table.len() {
        lemma_first_free(table[y], x);
    }
}

/// `place` runs without a panic or an overflow.
pub open spec fn place_ok(table: Seq<Seq<int>>, y: int, x: int) -> bool {
    &&& 0 <= y
    &&& y < table.len() ==> first_free(table[y], x) <= isize::MAX
}

/// The grid after the line of column `x` is placed on `n` grid rows from
/// `from` on, and the column it was last moved to (zero if it never moved).
pub open spec fn span_upto(table: Seq<Seq<int>>, from: int, n: int, x: int) -> (Seq<Seq<int>>, int)
    decreases n,
{
    if n <= 0 {
        (table, 0)
    } else {
        let (t, moved) = span_upto(table, from, n - 1, x);
        let i = from + n - 1;
        let (t2, nx) = place(t, i, x);
        (t2, if i < t.len() && nx != x {
            nx
        } else {
            moved
        })
    }
}

/// `span_upto` runs without a panic or an overflow.
pub open spec fn span_ok(table: Seq<Seq<int>>, from: int, n: int, x: int) -> bool
    decreases n,
{
    n <= 0 || (span_ok(table, from, n - 1, x) && place_ok(
        span_upto(table, from, n - 1, x).0,
        from + n - 1,
        x,
    ))
}

/// The number of grid rows strictly between a row and its parent.
pub open spec fn gap(rows: Seq<SVGRowView>, r: int, p: int) -> int {
    rows[p].y - (rows[r].y + 1)
}

/// The layout after the lines from row `r` to its first `j` parents are
/// placed; each parent's column becomes the column its line was last moved
/// to, or zero.
pub open spec fn parents_upto(st: Layout, rows: Seq<SVGRowView>, r: int, j: int) -> Layout
    decreases j,
{
    if j <= 0 {
        st
    } else {
        let prev = parents_upto(st, rows, r, j - 1);
        let p = rows[r].parent_rows[j - 1] as int;
        let (t, moved) = span_upto(prev.table, rows[r].y + 1, gap(rows, r, p), prev.xs[r]);
        Layout { xs: prev.xs.update(p, moved), table: t }
    }
}

/// `parents_upto` runs without a panic or an overflow.
pub open spec fn parents_ok(st: Layout, rows: Seq<SVGRowView>, r: int, j: int) -> bool
    decreases j,
{
    j <= 0 || ({
        let prev = parents_upto(st, rows, r, j - 1);
        let p = rows[r].parent_rows[j - 1] as int;
        parents_ok(st, rows, r, j - 1) && span_ok(
            prev.table,
            rows[r].y + 1,
            gap(rows, r, p),
            prev.xs[r],
        )
    })
}

/// Row `r` takes its place in the grid, then the lines to its parents do.
pub open spec fn process_row(st: Layout, rows: Seq<SVGRowView>, r: int) -> Layout {
    let (t, nx) = place(st.table, rows[r].y, st.xs[r]);
    parents_upto(Layout { xs: st.xs.update(r, nx), table: t }, rows, r, rows[r].parent_rows.len() as int)
}

/// `process_row` runs without a panic or an overflow.
pub open spec fn row_ok(st: Layout, rows: Seq<SVGRowView>, r: int) -> bool {
    let (t, nx) = place(st.table, rows[r].y, st.xs[r]);
    &&& place_ok(st.table, rows[r].y, st.xs[r])
    &&& rows[r].y < isize::MAX
    &&& parents_ok(
        Layout { xs: st.xs.update(r, nx), table: t },
        rows,
        r,
        rows[r].parent_rows.len() as int,
    )
}

/// The columns the rows start with.
pub open spec fn start_xs(rows: Seq<SVGRowView>) -> Seq<int> {
    rows.map_values(|v: SVGRowView| v.x)
}

/// The layout after the first `k` rows are processed, in order.
pub open spec fn rows_upto(rows: Seq<SVGRowView>, k: int) -> Layout
    decreases k,
{
    if k <= 0 {
        Layout { xs: start_xs(rows), table: seq![] }
    } else {
        process_row(rows_upto(rows, k - 1), rows, k - 1)
    }
}

/// Processing the first `k` rows runs without a panic or an overflow.
pub open spec fn rows_ok(rows: Seq<SVGRowView>, k: int) -> bool
    decreases k,
{
    k <= 0 || (rows_ok(rows, k - 1) && row_ok(rows_upto(rows, k - 1), rows, k - 1))
}

/// The grid after the curved lines of row `r` to its first `j` parents mark
/// the summary-text area: the grid row of whichever end lies to the left
/// also holds the column of the other end.
pub open spec fn marks_upto(st: Layout, rows: Seq<SVGRowView>, r: int, j: int) -> Seq<Seq<int>>
    decreases j,
{
    if j <= 0 {
        st.table
    } else {
        let t = marks_upto(st, rows, r, j - 1);
        let p = rows[r].parent_rows[j - 1] as int;
        let xr = st.xs[r];
        let xp = st.xs[p];
        if xr < xp {
            t.update(rows[r].y, t[rows[r].y].push(xp))
        } else if xr > xp {
            t.update(rows[p].y, t[rows[p].y].push(xr))
        } else {
            t
        }
    }
}

/// `marks_upto` indexes only existing grid rows.
pub open spec fn marks_ok(st: Layout, rows: Seq<SVGRowView>, r: int, j: int) -> bool
    decreases j,
{
    j <= 0 || ({
        let t = marks_upto(st, rows, r, j - 1);
        let p = rows[r].parent_rows[j - 1] as int;
        let xr = st.xs[r];
        let xp = st.xs[p];
        &&& marks_ok(st, rows, r, j - 1)
        &&& xr < xp ==> 0 <= rows[r].y < t.len()
        &&& xr > xp ==> 0 <= rows[p].y < t.len()
    })
}

/// The grid after the curved lines of the first `k` rows are marked.
pub open spec fn all_marks_upto(st: Layout, rows: Seq<SVGRowView>, k: int) -> Seq<Seq<int>>
    decreases k,
{
    if k <= 0 {
        st.table
    } else {
        let t = all_marks_upto(st, rows, k - 1);
        marks_upto(Layout { xs: st.xs, table: t }, rows, k - 1, rows[k - 1].parent_rows.len() as int)
    }
}

/// `all_marks_upto` indexes only existing grid rows.
pub open spec fn all_marks_ok(st: Layout, rows: Seq<SVGRowView>, k: int) -> bool
    decreases k,
{
    k <= 0 || ({
        let t = all_marks_upto(st, rows, k - 1);
        all_marks_ok(st, rows, k - 1) && marks_ok(
            Layout { xs: st.xs, table: t },
            rows,
            k - 1,
            rows[k - 1].parent_rows.len() as int,
        )
    })
}

/// Every link names an existing row other than the row itself.
pub open spec fn links_valid(rows: Seq<SVGRowView>) -> bool {
    &&& forall|r: int, j: int|
        0 <= r < rows.len() && 0 <= j < rows[r].parent_rows.len() ==> {
            &&& #[trigger] rows[r].parent_rows[j] < rows.len()
            &&& rows[r].parent_rows[j] != r
        }
    &&& forall|r: int, j: int|
        0 <= r < rows.len() && 0 <= j < rows[r].child_rows.len() ==> #[trigger] rows[r].child_rows[j]
            < rows.len()
}

/// The first `k` rows have their links set.
pub open spec fn all_set(rows: Seq<SVGRowView>, k: int) -> bool {
    forall|j: int| 0 <= j < k ==> #[trigger] rows[j].has_parent_child_svg_rows_set
}

/// Laying out the rows runs without a panic or an overflow: every prefix of
/// linked rows can be processed, and when all rows are linked the marking
/// pass stays within the grid.
pub open spec fn layout_ok(rows: Seq<SVGRowView>) -> bool {
    &&& forall|k: int| 0 <= k <= rows.len() && all_set(rows, k) ==> #[trigger] rows_ok(rows, k)
    &&& all_set(rows, rows.len() as int) ==> all_marks_ok(
        rows_upto(rows, rows.len() as int),
        rows,
        rows.len() as int,
    )
}

/// The first row whose links are not set.
pub open spec fn first_unset(rows: Seq<SVGRowView>) -> int {
    choose|k: int| 0 <= k < rows.len() && all_set(rows, k) && !rows[k].has_parent_child_svg_rows_set
}

proof fn lemma_parents_keep_columns(st: Layout, rows: Seq<SVGRowView>, r: int, j: int)
    requires
        0 <= j <= rows[r].parent_rows.len(),
        forall|m: int|
            0 <= m < j ==> r < #[trigger] rows[r].parent_rows[m] < st.xs.len(),
    ensures
        parents_upto(st, rows, r, j).xs.len() == st.xs.len(),
        forall|q: int| 0 <= q <= r ==> #[trigger] parents_upto(st, rows, r, j).xs[q] == st.xs[q],
    decreases j,
{
    if j > 0 {
        let prev = parents_upto(st, rows, r, j - 1);
        lemma_parents_keep_columns(st, rows, r, j - 1);
        assert forall|q: int| 0 <= q <= r implies #[trigger] parents_upto(st, rows, r, j).xs[q] == st.xs[q] by {
            assert(prev.xs[q] == st.xs[q]);
        }
    }
}

/// Rows in list order, each on the grid row of its position, with every
/// parent listed after its children: the order in which the commit list is
/// built.
pub open spec fn listed_in_order(rows: Seq<SVGRowView>) -> bool {
    &&& forall|k: int| 0 <= k < rows.len() ==> #[trigger] rows[k].y == k
    &&& forall|r: int, j: int|
        0 <= r < rows.len() && 0 <= j < rows[r].parent_rows.len() ==> #[trigger] rows[r].parent_rows[j] > r
}

proof fn lemma_span_keeps_below(t: Seq<Seq<int>>, from: int, n: int, x: int, y: int)
    requires
        span_ok(t, from, n, x),
        0 <= y < from,
        y < t.len(),
    ensures
        span_upto(t, from, n, x).0.len() >= t.len(),
        span_upto(t, from, n, x).0[y] == t[y],
    decreases n,
{
    if n > 0 {
        let prev = span_upto(t, from, n - 1, x).0;
        lemma_span_keeps_below(t, from, n - 1, x, y);
        if from + n - 1 <= prev.len() {
            lemma_place_takes_free_column(prev, from + n - 1, x);
        } else {
            assert(place(prev, from + n - 1, x).0[y] == prev[y]);
        }
    }
}

proof fn lemma_parents_keep_below(st: Layout, rows: Seq<SVGRowView>, r: int, j: int, y: int)
    requires
        parents_ok(st, rows, r, j),
        0 <= y <= rows[r].y,
        y < st.table.len(),
    ensures
        parents_upto(st, rows, r, j).table.len() >= st.table.len(),
        parents_upto(st, rows, r, j).table[y] == st.table[y],
    decreases j,
{
    if j > 0 {
        let prev = parents_upto(st, rows, r, j - 1);
        let p = rows[r].parent_rows[j - 1] as int;
        lemma_parents_keep_below(st, rows, r, j - 1, y);
        lemma_span_keeps_below(prev.table, rows[r].y + 1, gap(rows, r, p), prev.xs[r], y);
    }
}

/// The grid row of each of the first `k` laid-out rows ends with that row's
/// column, which no earlier entry of the grid row holds.
proof fn lemma_rows_cells_upto(rows: Seq<SVGRowView>, k: int)
    requires
        links_valid(rows),
        listed_in_order(rows),
        0 <= k <= rows.len(),
        rows_ok(rows, k),
    ensures
        rows_upto(rows, k).xs.len() == rows.len(),
        rows_upto(rows, k).table.len() >= k,
        forall|r: int|
            0 <= r < k ==> {
                let row = #[trigger] rows_upto(rows, k).table[r];
                &&& row.len() > 0
                &&& row.last() == rows_upto(rows, k).xs[r]
                &&& !row.drop_last().contains(rows_upto(rows, k).xs[r])
            },
    decreases k,
{
    if k > 0 {
        let r = k - 1;
        let st = rows_upto(rows, r);
        lemma_rows_cells_upto(rows, r);
        let (t, nx) = place(st.table, rows[r].y, st.xs[r]);
        lemma_place_takes_free_column(st.table, rows[r].y, st.xs[r]);
        let st1 = Layout { xs: st.xs.update(r, nx), table: t };
        let m = rows[r].parent_rows.len() as int;
        assert forall|j: int| 0 <= j < m implies r < #[trigger] rows[r].parent_rows[j] < st1.xs.len() by {
            assert(rows[r].parent_rows[j] < rows.len());
        }
        lemma_parents_keep_columns(st1, rows, r, m);
        let fin = rows_upto(rows, k);
        assert(fin == parents_upto(st1, rows, r, m));
        lemma_parents_keep_below(st1, rows, r, m, r);
        assert forall|q: int| 0 <= q < k implies {
            let row = #[trigger] fin.table[q];
            &&& row.len() > 0
            &&& row.last() == fin.xs[q]
            &&& !row.drop_last().contains(fin.xs[q])
        } by {
            assert(fin.xs[q] == st1.xs[q]);
            lemma_parents_keep_below(st1, rows, r, m, q);
            if q < r {
                assert(t[q] == st.table[q]);
            } else {
                if r < st.table.len() {
                    assert(t[r].drop_last() =~= st.table[r]);
                } else {
                    assert(t[r].drop_last() =~= Seq::<int>::empty());
                }
            }
        }
    }
}

proof fn lemma_marks_keep_count(st: Layout, rows: Seq<SVGRowView>, r: int, j: int, c: int)
    requires
        marks_ok(st, rows, r, j),
        links_valid(rows),
        listed_in_order(rows),
        0 <= r < rows.len(),
        0 <= j <= rows[r].parent_rows.len(),
        0 <= c < st.table.len(),
    ensures
        marks_upto(st, rows, r, j).len() == st.table.len(),
        marks_upto(st, rows, r, j)[c].to_multiset().count(st.xs[c]) == st.table[c].to_multiset().count(
            st.xs[c],
        ),
    decreases j,
{
    broadcast use vstd::seq_lib::group_to_multiset_ensures;

    if j > 0 {
        let t = marks_upto(st, rows, r, j - 1);
        let p = rows[r].parent_rows[j - 1] as int;
        lemma_marks_keep_count(st, rows, r, j - 1, c);
        assert(p < rows.len());
        assert(rows[r].y == r && rows[p].y == p);
    }
}

proof fn lemma_all_marks_keep_count(st: Layout, rows: Seq<SVGRowView>, k: int, c: int)
    requires
        all_marks_ok(st, rows, k),
        links_valid(rows),
        listed_in_order(rows),
        k <= rows.len(),
        0 <= c < st.table.len(),
    ensures
        all_marks_upto(st, rows, k).len() == st.table.len(),
        all_marks_upto(st, rows, k)[c].to_multiset().count(st.xs[c]) == st.table[c].to_multiset().count(
            st.xs[c],
        ),
    decreases k,
{
    if k > 0 {
        let t = all_marks_upto(st, rows, k - 1);
        lemma_all_marks_keep_count(st, rows, k - 1, c);
        lemma_marks_keep_count(
            Layout { xs: st.xs, table: t },
            rows,
            k - 1,
            rows[k - 1].parent_rows.len() as int,
            c,
        );
    }
}

/// Every column each grid row of `old` holds is still held by that grid
/// row in `new`, and no grid row went missing.
pub open spec fn grid_grows(old: Seq<Seq<int>>, new: Seq<Seq<int>>) -> bool {
    &&& old.len() <= new.len()
    &&& forall|y: int, v: int|
        #![trigger old[y].contains(v)]
        0 <= y < old.len() && old[y].contains(v) ==> new[y].contains(v)
}

proof fn lemma_grows_trans(a: Seq<Seq<int>>, b: Seq<Seq<int>>, c: Seq<Seq<int>>)
    requires
        grid_grows(a, b),
        grid_grows(b, c),
    ensures
        grid_grows(a, c),
{
    assert forall|y: int, v: int| 0 <= y < a.len() && a[y].contains(v) implies c[y].contains(v) by {
        assert(b[y].contains(v));
    }
}

proof fn lemma_push_to_row(t: Seq<Seq<int>>, y: int, x: int)
    requires
        0 <= y < t.len(),
    ensures
        grid_grows(t, t.update(y, t[y].push(x))),
        t.update(y, t[y].push(x))[y].contains(x),
{
    let u = t.update(y, t[y].push(x));
    assert(u[y][t[y].len() as int] == x);
    assert forall|yy: int, v: int| 0 <= yy < t.len() && t[yy].contains(v) implies u[yy].contains(v) by {
        if yy == y {
            let i = choose|i: int| 0 <= i < t[y].len() && t[y][i] == v;
            assert(u[y][i] == v);
        }
    }
}

proof fn lemma_marks_step_grows(st: Layout, rows: Seq<SVGRowView>, r: int, j: int)
    requires
        marks_ok(st, rows, r, j),
        j > 0,
    ensures
        grid_grows(marks_upto(st, rows, r, j - 1), marks_upto(st, rows, r, j)),
{
    let t = marks_upto(st, rows, r, j - 1);
    let p = rows[r].parent_rows[j - 1] as int;
    if st.xs[r] < st.xs[p] {
        lemma_push_to_row(t, rows[r].y, st.xs[p]);
    } else if st.xs[r] > st.xs[p] {
        lemma_push_to_row(t, rows[p].y, st.xs[r]);
    }
}

proof fn lemma_marks_grows(st: Layout, rows: Seq<SVGRowView>, r: int, j: int)
    requires
        marks_ok(st, rows, r, j),
    ensures
        grid_grows(st.table, marks_upto(st, rows, r, j)),
    decreases j,
{
    if j > 0 {
        lemma_marks_grows(st, rows, r, j - 1);
        lemma_marks_step_grows(st, rows, r, j);
        lemma_grows_trans(st.table, marks_upto(st, rows, r, j - 1), marks_upto(st, rows, r, j));
    }
}

/// The curve from row `r` to its parent `p` is marked in `g`: the grid row
/// of the end further left holds the column of the other end.
pub open spec fn curve_marked(g: Seq<Seq<int>>, xs: Seq<int>, rows: Seq<SVGRowView>, r: int, p: int) -> bool {
    &&& xs[r] > xs[p] ==> 0 <= rows[p].y < g.len() && g[rows[p].y].contains(xs[r])
    &&& xs[r] < xs[p] ==> 0 <= rows[r].y < g.len() && g[rows[r].y].contains(xs[p])
}

proof fn lemma_grows_keeps_marked(a: Seq<Seq<int>>, b: Seq<Seq<int>>, xs: Seq<int>, rows: Seq<SVGRowView>, r: int, p: int)
    requires
        grid_grows(a, b),
        curve_marked(a, xs, rows, r, p),
    ensures
        curve_marked(b, xs, rows, r, p),
{
    if xs[r] > xs[p] {
        assert(a[rows[p].y].contains(xs[r]));
    }
    if xs[r] < xs[p] {
        assert(a[rows[r].y].contains(xs[p]));
    }
}

proof fn lemma_marks_mark_parents(st: Layout, rows: Seq<SVGRowView>, r: int, j: int)
    requires
        marks_ok(st, rows, r, j),
        j <= rows[r].parent_rows.len(),
    ensures
        forall|jj: int|
            0 <= jj < j ==> curve_marked(
                marks_upto(st, rows, r, j),
                st.xs,
                rows,
                r,
                #[trigger] rows[r].parent_rows[jj] as int,
            ),
    decreases j,
{
    if j > 0 {
        lemma_marks_mark_parents(st, rows, r, j - 1);
        lemma_marks_step_grows(st, rows, r, j);
        let t = marks_upto(st, rows, r, j - 1);
        let p = rows[r].parent_rows[j - 1] as int;
        if st.xs[r] < st.xs[p] {
            lemma_push_to_row(t, rows[r].y, st.xs[p]);
        } else if st.xs[r] > st.xs[p] {
            lemma_push_to_row(t, rows[p].y, st.xs[r]);
        }
        assert forall|jj: int| 0 <= jj < j implies curve_marked(
            marks_upto(st, rows, r, j),
            st.xs,
            rows,
            r,
            #[trigger] rows[r].parent_rows[jj] as int,
        ) by {
            if jj < j - 1 {
                lemma_grows_keeps_marked(t, marks_upto(st, rows, r, j), st.xs, rows, r, rows[r].parent_rows[jj] as int);
            }
        }
    }
}

proof fn lemma_all_marks_mark_parents(st: Layout, rows: Seq<SVGRowView>, k: int)
    requires
        all_marks_ok(st, rows, k),
        k <= rows.len(),
    ensures
        grid_grows(st.table, all_marks_upto(st, rows, k)),
        forall|r: int, jj: int|
            0 <= r < k && 0 <= jj < rows[r].parent_rows.len() ==> curve_marked(
                all_marks_upto(st, rows, k),
                st.xs,
                rows,
                r,
                #[trigger] rows[r].parent_rows[jj] as int,
            ),
    decreases k,
{
    if k > 0 {
        let t = all_marks_upto(st, rows, k - 1);
        lemma_all_marks_mark_parents(st, rows, k - 1);
        let st1 = Layout { xs: st.xs, table: t };
        let m = rows[k - 1].parent_rows.len() as int;
        lemma_marks_grows(st1, rows, k - 1, m);
        lemma_marks_mark_parents(st1, rows, k - 1, m);
        let g = all_marks_upto(st, rows, k);
        assert(g == marks_upto(st1, rows, k - 1, m));
        lemma_grows_trans(st.table, t, g);
        assert forall|r: int, jj: int| 0 <= r < k && 0 <= jj < rows[r].parent_rows.len() implies curve_marked(
            g,
            st.xs,
            rows,
            r,
            #[trigger] rows[r].parent_rows[jj] as int,
        ) by {
            if r < k - 1 {
                lemma_grows_keeps_marked(t, g, st.xs, rows, r, rows[r].parent_rows[jj] as int);
            }
        }
    } else {
        assert(grid_grows(st.table, st.table));
    }
}

/// In the finished grid every curve between a row and a parent in another
/// column is marked: when the row lies right of its parent, the parent's
/// grid row holds the row's column, and when it lies left, its own grid row
/// holds the parent's column.
pub proof fn lemma_curves_are_marked(rows: Seq<SVGRowView>)
    requires
        links_valid(rows),
        layout_ok(rows),
        all_set(rows, rows.len() as int),
    ensures
        ({
            let n = rows.len() as int;
            let fin = rows_upto(rows, n);
            let g = all_marks_upto(fin, rows, n);
            forall|r: int, j: int|
                0 <= r < n && 0 <= j < rows[r].parent_rows.len() ==> {
                    let p = #[trigger] rows[r].parent_rows[j] as int;
                    &&& fin.xs[r] > fin.xs[p] ==> 0 <= rows[p].y < g.len() && g[rows[p].y].contains(fin.xs[r])
                    &&& fin.xs[r] < fin.xs[p] ==> 0 <= rows[r].y < g.len() && g[rows[r].y].contains(fin.xs[p])
                }
        }),
{
    let n = rows.len() as int;
    let fin = rows_upto(rows, n);
    lemma_all_marks_mark_parents(fin, rows, n);
}

/// When the commits are listed in the order the commit list is built
/// (`listed_in_order`) and can be laid out, each commit's final column is
/// held exactly once by its own grid row of the finished grid: the commit's
/// cell is recorded, and no line to a parent and no mark of a curved line
/// takes it.
pub proof fn lemma_commit_cells_unshared(rows: Seq<SVGRowView>)
    requires
        links_valid(rows),
        layout_ok(rows),
        all_set(rows, rows.len() as int),
        listed_in_order(rows),
    ensures
        ({
            let n = rows.len() as int;
            let fin = rows_upto(rows, n);
            let g = all_marks_upto(fin, rows, n);
            forall|k: int|
                0 <= k < n ==> 0 <= rows[k].y < g.len() && #[trigger] g[rows[k].y].to_multiset().count(fin.xs[k])
                    == 1
        }),
{
    broadcast use vstd::seq_lib::group_to_multiset_ensures;

    let n = rows.len() as int;
    assert(rows_ok(rows, n));
    lemma_rows_cells_upto(rows, n);
    let fin = rows_upto(rows, n);
    let g = all_marks_upto(fin, rows, n);
    if n > 0 {
        lemma_all_marks_keep_count(fin, rows, n, 0);
    }
    assert forall|k: int| 0 <= k < n implies 0 <= rows[k].y < g.len() && #[trigger] g[rows[k].y].to_multiset().count(
        fin.xs[k],
    ) == 1 by {
        assert(rows[k].y == k);
        lemma_all_marks_keep_count(fin, rows, n, k);
        let row = fin.table[k];
        assert(row =~= row.drop_last().push(row.last()));
        assert(row.drop_last().to_multiset().count(fin.xs[k]) == 0);
    }
}

/// Why a grid could not be made.
pub enum LayoutError {
    /// A row was reached before its parent and child links were set.
    LinksNotSet,
    /// A link names a row that does not exist, or the row itself.
    InvalidLink,
    /// A column or grid row would not fit in an `isize`, or a line would
    /// mark a grid row that does not exist.
    TooLarge,
}

/// The message shown for a layout error.
pub open spec fn layout_error_text(e: LayoutError) -> Seq<char> {
    match e {
        LayoutError::LinksNotSet => "SVGRow object didn't have parents or children set. Make sure 'set_parent_and_child_svg_row_values' is run before 'get_occupied_table'!"@,
        LayoutError::InvalidLink => "An SVGRow object links to a row that does not exist, or to itself."@,
        LayoutError::TooLarge => "The commit graph is too large to lay out and draw."@,
    }
}

impl LayoutError {
    /// The message shown for this error (see `layout_error_text`).
    pub fn message(&self) -> (r: String)
        ensures
            r@ == layout_error_text(*self),
    {
        match self {
            LayoutError::LinksNotSet => owned("SVGRow object didn't have parents or children set. Make sure 'set_parent_and_child_svg_row_values' is run before 'get_occupied_table'!"),
            LayoutError::InvalidLink => owned("An SVGRow object links to a row that does not exist, or to itself."),
            LayoutError::TooLarge => owned("The commit graph is too large to lay out and draw."),
        }
    }
}

proof fn lemma_rows_ok_prefix(rows: Seq<SVGRowView>, k: int, m: int)
    requires
        0 <= m <= k,
        rows_ok(rows, k),
    ensures
        rows_ok(rows, m),
    decreases k - m,
{
    if m < k {
        lemma_rows_ok_prefix(rows, k - 1, m);
    }
}

/// Whether `x` is among the entries of `v`.
fn holds(v: &Vec<isize>, x: isize) -> (b: bool)
    ensures
        b == ints(v@).contains(x as int),
{
    let mut i: usize = 0;
    while i < v.len()
        invariant
            i <= v.len(),
            forall|j: int| 0 <= j < i ==> v@[j] != x,
        decreases v.len() - i,
    {
        if v[i] == x {
            assert(ints(v@)[i as int] == x as int);
            return true;
        }
        i = i + 1;
    }
    proof {
        if ints(v@).contains(x as int) {
            let k = choose|k: int| 0 <= k < ints(v@).len() && ints(v@)[k] == x as int;
            assert(v@[k] == x);
        }
    }
    false
}

/// Takes column `x` (or the first free one to its right) in grid row `y`.
fn place_in(table: &mut Vec<Vec<isize>>, y: isize, x: isize) -> (nx: isize)
    requires
        place_ok(grid(old(table)@), y as int, x as int),
    ensures
        (grid(final(table)@), nx as int) == place(grid(old(table)@), y as int, x as int),
{
    let ghost g = grid(table@);
    if (y as usize) < table.len() {
        let yu = y as usize;
        let ghost row = g[y as int];
        assert(row == ints(table@[y as int]@));
        let mut v = x;
        proof {
            lemma_first_free(row, x as int);
        }
        while holds(&table[yu], v)
            invariant
                yu == y,
                (yu as int) < table@.len(),
                table@ == old(table)@,
                row == ints(table@[yu as int]@),
                first_free(row, v as int) == first_free(row, x as int),
                first_free(row, x as int) <= isize::MAX,
                v as int <= first_free(row, x as int),
            decreases count_at_least(row, v as int),
        {
            proof {
                lemma_first_free(row, v as int);
                lemma_count_at_least_step(row, v as int);
            }
            v = v + 1;
        }
        proof {
            lemma_first_free(row, v as int);
        }
        let ghost before = table@;
        table[yu].push(v);
        proof {
            assert(table@[yu as int]@ == before[yu as int]@.push(v));
            assert(ints(table@[yu as int]@) =~= row.push(v as int));
            assert(grid(table@) =~= g.update(y as int, row.push(v as int)));
        }
        v
    } else {
        let mut fresh: Vec<isize> = Vec::new();
        fresh.push(x);
        table.push(fresh);
        proof {
            assert(ints(fresh@) =~= seq![x as int]);
            assert(grid(table@) =~= g.push(seq![x as int]));
        }
        x
    }
}

/// Takes column `x` (or the first free one to its right) in grid row `y`
/// when that can be done without an overflow; otherwise leaves the grid
/// alone and gives none.
fn try_place_in(table: &mut Vec<Vec<isize>>, y: isize, x: isize) -> (r: Option<isize>)
    ensures
        match r {
            Some(nx) => place_ok(grid(old(table)@), y as int, x as int) && (grid(final(table)@), nx as int)
                == place(grid(old(table)@), y as int, x as int),
            None => !place_ok(grid(old(table)@), y as int, x as int),
        },
{
    if y < 0 {
        return None;
    }
    if (y as usize) < table.len() {
        let ghost row = grid(table@)[y as int];
        let mut v = x;
        proof {
            lemma_first_free(row, x as int);
        }
        while holds(&table[y as usize], v)
            invariant
                0 <= y,
                (y as int) < table@.len(),
                row == ints(table@[y as int]@),
                first_free(row, v as int) == first_free(row, x as int),
                v as int <= first_free(row, x as int),
            decreases count_at_least(row, v as int),
        {
            proof {
                lemma_first_free(row, v as int);
                lemma_count_at_least_step(row, v as int);
            }
            if v == isize::MAX {
                return None;
            }
            v = v + 1;
        }
        proof {
            lemma_first_free(row, v as int);
        }
        return Some(place_in(table, y, x));
    }
    Some(place_in(table, y, x))
}

/// Places the line of column `x` on the grid rows `from..to` when that can
/// be done without an overflow (see `span_upto`); otherwise gives none.
fn try_span_in(table: &mut Vec<Vec<isize>>, from: isize, to: isize, x: isize) -> (r: Option<isize>)
    requires
        from >= 0,
    ensures
        match r {
            Some(moved) => span_ok(grid(old(table)@), from as int, to - from, x as int) && (
            grid(final(table)@), moved as int) == span_upto(grid(old(table)@), from as int, to - from, x as int),
            None => !span_ok(grid(old(table)@), from as int, to - from, x as int),
        },
{
    let ghost g0 = grid(table@);
    let mut moved: isize = 0;
    let mut i: isize = from;
    while i < to
        invariant
            g0 == grid(old(table)@),
            from <= i,
            to >= from ==> i <= to,
            to < from ==> i == from,
            span_ok(g0, from as int, i - from, x as int),
            (grid(table@), moved as int) == span_upto(g0, from as int, i - from, x as int),
        decreases to - i,
    {
        let in_range = (i as usize) < table.len();
        let ghost before = grid(table@);
        match try_place_in(table, i, x) {
            Some(nx) => {
                if in_range && nx != x {
                    moved = nx;
                }
            },
            None => {
                proof {
                    assert(before == span_upto(g0, from as int, i - from, x as int).0);
                    assert(!place_ok(before, i as int, x as int));
                    assert(!span_ok(g0, from as int, i - from + 1, x as int));
                    if span_ok(g0, from as int, to - from, x as int) {
                        lemma_span_ok_prefix(g0, from as int, to - from, i - from + 1, x as int);
                    }
                }
                return None;
            },
        }
        i = i + 1;
    }
    proof {
        if to < from {
            assert(span_upto(g0, from as int, to - from, x as int) == (g0, 0int));
            assert(span_upto(g0, from as int, 0, x as int) == (g0, 0int));
        }
    }
    Some(moved)
}

proof fn lemma_span_ok_prefix(table: Seq<Seq<int>>, from: int, n: int, m: int, x: int)
    requires
        m <= n,
        span_ok(table, from, n, x),
    ensures
        span_ok(table, from, m, x),
    decreases n - m,
{
    if m < n {
        lemma_span_ok_prefix(table, from, n - 1, m, x);
    }
}

proof fn lemma_parents_ok_prefix(st: Layout, rows: Seq<SVGRowView>, r: int, j: int, m: int)
    requires
        m <= j,
        parents_ok(st, rows, r, j),
    ensures
        parents_ok(st, rows, r, m),
    decreases j - m,
{
    if m < j {
        lemma_parents_ok_prefix(st, rows, r, j - 1, m);
    }
}

proof fn lemma_parents_len(st: Layout, rows: Seq<SVGRowView>, r: int, j: int)
    requires
        links_valid(rows),
        0 <= r < rows.len(),
        j <= rows[r].parent_rows.len(),
        st.xs.len() == rows.len(),
    ensures
        parents_upto(st, rows, r, j).xs.len() == rows.len(),
    decreases j,
{
    if j > 0 {
        lemma_parents_len(st, rows, r, j - 1);
        assert(rows[r].parent_rows[j - 1] < rows.len());
    }
}

proof fn lemma_rows_len(rows: Seq<SVGRowView>, k: int)
    requires
        links_valid(rows),
        k <= rows.len(),
    ensures
        rows_upto(rows, k).xs.len() == rows.len(),
    decreases k,
{
    if k > 0 {
        lemma_rows_len(rows, k - 1);
        let st = rows_upto(rows, k - 1);
        let (t, nx) = place(st.table, rows[k - 1].y, st.xs[k - 1]);
        lemma_parents_len(
            Layout { xs: st.xs.update(k - 1, nx), table: t },
            rows,
            k - 1,
            rows[k - 1].parent_rows.len() as int,
        );
    }
}

proof fn lemma_marks_ok_prefix(st: Layout, rows: Seq<SVGRowView>, r: int, j: int, m: int)
    requires
        m <= j,
        marks_ok(st, rows, r, j),
    ensures
        marks_ok(st, rows, r, m),
    decreases j - m,
{
    if m < j {
        lemma_marks_ok_prefix(st, rows, r, j - 1, m);
    }
}

proof fn lemma_all_marks_ok_prefix(st: Layout, rows: Seq<SVGRowView>, k: int, m: int)
    requires
        m <= k,
        all_marks_ok(st, rows, k),
    ensures
        all_marks_ok(st, rows, m),
    decreases k - m,
{
    if m < k {
        lemma_all_marks_ok_prefix(st, rows, k - 1, m);
    }
}

proof fn lemma_marks_bad(st: Layout, rows: Seq<SVGRowView>, r: int, j: int, np: int)
    requires
        0 <= j < np,
        !marks_ok(st, rows, r, j + 1),
    ensures
        !marks_ok(st, rows, r, np),
{
    if marks_ok(st, rows, r, np) {
        lemma_marks_ok_prefix(st, rows, r, np, j + 1);
    }
}

proof fn lemma_all_marks_bad(fin: Layout, rows: Seq<SVGRowView>, r: int, n: int)
    requires
        0 <= r < n,
        !marks_ok(
            Layout { xs: fin.xs, table: all_marks_upto(fin, rows, r) },
            rows,
            r,
            rows[r].parent_rows.len() as int,
        ),
    ensures
        !all_marks_ok(fin, rows, n),
{
    if all_marks_ok(fin, rows, n) {
        lemma_all_marks_ok_prefix(fin, rows, n, r + 1);
    }
}

impl SVGRow {
    /// Places every row and the lines to its parents on a grid of columns,
    /// row by row in order, and gives the grid: entry `y` lists the columns
    /// taken in grid row `y`. A row moves right while its column is taken;
    /// a line to a parent takes the row's column (or the first free one to
    /// its right) in each grid row between the two, and the parent's column
    /// becomes the column that line was last moved to, or zero. Then each
    /// curved line marks the grid row of its left end with the column of its
    /// right end. The columns found are stored in the rows.
    ///
    /// A row whose links are not set stops the work with `LinksNotSet`; the rows
    /// before it keep the columns already found.
    pub fn get_occupied_table(svg_rows: &mut Vec<SVGRow>) -> (result: Result<Vec<Vec<isize>>, LayoutError>)
        requires
            links_valid(row_views(old(svg_rows)@)),
            layout_ok(row_views(old(svg_rows)@)),
        ensures
            final(svg_rows)@.len() == old(svg_rows)@.len(),
            ({
                let rows = row_views(old(svg_rows)@);
                let n = rows.len() as int;
                match result {
                    Ok(table) => {
                        let fin = rows_upto(rows, n);
                        &&& all_set(rows, n)
                        &&& forall|k: int|
                            0 <= k < n ==> #[trigger] final(svg_rows)@[k]@ == with_x(rows[k], fin.xs[k])
                        &&& grid(table@) == all_marks_upto(fin, rows, n)
                    },
                    Err(e) => {
                        let stop = rows_upto(rows, first_unset(rows));
                        &&& e is LinksNotSet
                        &&& !all_set(rows, n)
                        &&& forall|k: int|
                            0 <= k < n ==> #[trigger] final(svg_rows)@[k]@ == with_x(rows[k], stop.xs[k])
                    },
                }
            }),
    {
        match SVGRow::try_occupied_table(svg_rows) {
            Ok(table) => Ok(table),
            Err(e) => Err(e),
        }
    }

    /// Whether every link of every row names another existing row.
    fn links_in_range(svg_rows: &Vec<SVGRow>) -> (b: bool)
        ensures
            b == links_valid(row_views(svg_rows@)),
    {
        let ghost rows = row_views(svg_rows@);
        let n = svg_rows.len();
        let mut r: usize = 0;
        while r < n
            invariant
                n == svg_rows@.len(),
                rows == row_views(svg_rows@),
                r <= n,
                forall|q: int, j: int|
                    0 <= q < r && 0 <= j < rows[q].parent_rows.len() ==> {
                        &&& #[trigger] rows[q].parent_rows[j] < n
                        &&& rows[q].parent_rows[j] != q
                    },
                forall|q: int, j: int| 0 <= q < r && 0 <= j < rows[q].child_rows.len() ==> #[trigger] rows[q].child_rows[j] < n,
            decreases n - r,
        {
            let row = &svg_rows[r];
            assert(rows[r as int] == row@);
            let mut j: usize = 0;
            while j < row.parent_svg_rows.len()
                invariant
                    n == svg_rows@.len(),
                    rows == row_views(svg_rows@),
                    r < n,
                    rows[r as int] == row@,
                    j <= row.parent_svg_rows@.len(),
                    forall|m: int| 0 <= m < j ==> #[trigger] row.parent_svg_rows@[m] < n && row.parent_svg_rows@[m] != r,
                decreases row.parent_svg_rows@.len() - j,
            {
                let p = row.parent_svg_rows[j];
                if p >= n || p == r {
                    proof {
                        assert(rows[r as int].parent_rows[j as int] == p);
                    }
                    return false;
                }
                j = j + 1;
            }
            let mut j: usize = 0;
            while j < row.child_svg_rows.len()
                invariant
                    n == svg_rows@.len(),
                    rows == row_views(svg_rows@),
                    r < n,
                    rows[r as int] == row@,
                    j <= row.child_svg_rows@.len(),
                    forall|m: int| 0 <= m < j ==> #[trigger] row.child_svg_rows@[m] < n,
                decreases row.child_svg_rows@.len() - j,
            {
                if row.child_svg_rows[j] >= n {
                    proof {
                        assert(rows[r as int].child_rows[j as int] == row.child_svg_rows@[j as int]);
                    }
                    return false;
                }
                j = j + 1;
            }
            r = r + 1;
        }
        true
    }

    /// Lays out the rows as `get_occupied_table` does, checking first that
    /// the links name existing rows and, as it goes, that no column or grid
    /// row overflows and no line marks a missing grid row. It succeeds
    /// exactly when the rows are linked, their links are valid and the
    /// layout fits (`links_valid` and `layout_ok`), and then gives what
    /// `get_occupied_table` gives.
    pub fn try_occupied_table(svg_rows: &mut Vec<SVGRow>) -> (result: Result<Vec<Vec<isize>>, LayoutError>)
        ensures
            final(svg_rows)@.len() == old(svg_rows)@.len(),
            ({
                let rows = row_views(old(svg_rows)@);
                let n = rows.len() as int;
                &&& result is Ok ==> links_valid(rows) && layout_ok(rows)
                &&& (result matches Err(LayoutError::InvalidLink)) <==> !links_valid(rows)
                &&& (result matches Err(LayoutError::LinksNotSet)) ==> !all_set(rows, n)
                &&& links_valid(rows) && layout_ok(rows) ==> match result {
                    Ok(table) => {
                        let fin = rows_upto(rows, n);
                        &&& all_set(rows, n)
                        &&& forall|k: int|
                            0 <= k < n ==> #[trigger] final(svg_rows)@[k]@ == with_x(rows[k], fin.xs[k])
                        &&& grid(table@) == all_marks_upto(fin, rows, n)
                    },
                    Err(e) => {
                        let stop = rows_upto(rows, first_unset(rows));
                        &&& e is LinksNotSet
                        &&& !all_set(rows, n)
                        &&& forall|k: int|
                            0 <= k < n ==> #[trigger] final(svg_rows)@[k]@ == with_x(rows[k], stop.xs[k])
                    },
                }
            }),
    {
        let ghost rows = row_views(svg_rows@);
        let n = svg_rows.len();
        if !SVGRow::links_in_range(svg_rows) {
            return Err(LayoutError::InvalidLink);
        }
        let mut main_table: Vec<Vec<isize>> = Vec::new();
        proof {
            assert(grid(main_table@) =~= seq![]);
            assert forall|k: int| 0 <= k < n implies #[trigger] svg_rows@[k]@ == with_x(
                rows[k],
                rows_upto(rows, 0).xs[k],
            ) by {
                assert(rows[k] == svg_rows@[k]@);
            }
        }
        let mut r: usize = 0;
        while r < n
            invariant
                n == svg_rows@.len(),
                n == rows.len(),
                rows == row_views(old(svg_rows)@),
                links_valid(rows),
                r <= n,
                all_set(rows, r as int),
                rows_ok(rows, r as int),
                rows_upto(rows, r as int).xs.len() == n,
                grid(main_table@) == rows_upto(rows, r as int).table,
                forall|k: int|
                    0 <= k < n ==> #[trigger] svg_rows@[k]@ == with_x(
                        rows[k],
                        rows_upto(rows, r as int).xs[k],
                    ),
            decreases n - r,
        {
            let ghost st = rows_upto(rows, r as int);
            assert(svg_rows@[r as int]@ == with_x(rows[r as int], st.xs[r as int]));
            if !svg_rows[r].has_parent_child_svg_rows_set {
                proof {
                    assert(all_set(rows, r as int) && !rows[r as int].has_parent_child_svg_rows_set);
                    let k = first_unset(rows);
                    assert(0 <= k < rows.len() && all_set(rows, k)
                        && !rows[k].has_parent_child_svg_rows_set);
                    if k < r {
                        assert(rows[k].has_parent_child_svg_rows_set);
                    }
                    if k > r {
                        assert(rows[r as int].has_parent_child_svg_rows_set);
                    }
                    assert(k == r);
                }
                return Err(LayoutError::LinksNotSet);
            }
            proof {
                assert(all_set(rows, r + 1));
            }
            let y = svg_rows[r].y;
            let ghost bad_row = !row_ok(st, rows, r as int);
            proof {
                if layout_ok(rows) {
                    assert(rows_ok(rows, r + 1));
                }
            }
            let nx = match try_place_in(&mut main_table, y, svg_rows[r].x) {
                Some(v) => v,
                None => {
                    proof {
                        if layout_ok(rows) {
                            assert(rows_ok(rows, r + 1));
                        }
                    }
                    return Err(LayoutError::TooLarge);
                },
            };
            if y == isize::MAX {
                proof {
                    if layout_ok(rows) {
                        assert(rows_ok(rows, r + 1));
                    }
                }
                return Err(LayoutError::TooLarge);
            }
            svg_rows[r].x = nx;
            let ghost st1 = Layout { xs: st.xs.update(r as int, nx as int), table: grid(main_table@) };
            let np = svg_rows[r].parent_svg_rows.len();
            proof {
                assert(np == rows[r as int].parent_rows.len());
                if layout_ok(rows) {
                    assert(rows_ok(rows, r + 1));
                    assert(row_ok(st, rows, r as int));
                    assert(parents_ok(st1, rows, r as int, np as int));
                }
            }
            let mut j: usize = 0;
            while j < np
                invariant
                    n == svg_rows@.len(),
                    n == rows.len(),
                    rows == row_views(old(svg_rows)@),
                    links_valid(rows),
                    r < n,
                    j <= np,
                    np == rows[r as int].parent_rows.len(),
                    y == rows[r as int].y,
                    0 <= y < isize::MAX,
                    st1.xs.len() == n,
                    !parents_ok(st1, rows, r as int, np as int) ==> !layout_ok(rows),
                    parents_ok(st1, rows, r as int, j as int),
                    parents_upto(st1, rows, r as int, j as int).xs.len() == n,
                    grid(main_table@) == parents_upto(st1, rows, r as int, j as int).table,
                    forall|k: int|
                        0 <= k < n ==> #[trigger] svg_rows@[k]@ == with_x(
                            rows[k],
                            parents_upto(st1, rows, r as int, j as int).xs[k],
                        ),
                decreases np - j,
            {
                let ghost prev = parents_upto(st1, rows, r as int, j as int);
                proof {
                    lemma_parents_len(st1, rows, r as int, j + 1);
                    assert(svg_rows@[r as int]@ == with_x(rows[r as int], prev.xs[r as int]));
                }
                let p = svg_rows[r].parent_svg_rows[j];
                proof {
                    assert(p == rows[r as int].parent_rows[j as int]);
                    assert(p < n && p != r);
                    assert(svg_rows@[p as int]@ == with_x(rows[p as int], prev.xs[p as int]));
                }
                let py = svg_rows[p].y;
                let rx = svg_rows[r].x;
                let moved = match try_span_in(&mut main_table, y + 1, py, rx) {
                    Some(m) => m,
                    None => {
                        proof {
                            assert(!parents_ok(st1, rows, r as int, j + 1));
                            if parents_ok(st1, rows, r as int, np as int) {
                                lemma_parents_ok_prefix(st1, rows, r as int, np as int, j + 1);
                            }
                        }
                        return Err(LayoutError::TooLarge);
                    },
                };
                svg_rows[p].x = moved;
                j = j + 1;
                proof {
                    let cur = parents_upto(st1, rows, r as int, j as int);
                    assert(cur.xs == prev.xs.update(p as int, moved as int));
                    assert forall|k: int| 0 <= k < n implies #[trigger] svg_rows@[k]@ == with_x(
                        rows[k],
                        cur.xs[k],
                    ) by {
                        if k == p as int {
                        } else {
                        }
                    }
                }
            }
            proof {
                assert(row_ok(st, rows, r as int));
                assert(rows_ok(rows, r + 1));
            }
            r = r + 1;
            proof {
                lemma_rows_len(rows, r as int);
            }
        }
        let ghost fin = rows_upto(rows, n as int);
        proof {
            assert(all_set(rows, n as int));
        }
        let mut r: usize = 0;
        while r < n
            invariant
                n == svg_rows@.len(),
                n == rows.len(),
                rows == row_views(old(svg_rows)@),
                links_valid(rows),
                rows_ok(rows, n as int),
                all_set(rows, n as int),
                fin == rows_upto(rows, n as int),
                fin.xs.len() == n,
                all_marks_ok(fin, rows, r as int),
                r <= n,
                grid(main_table@) == all_marks_upto(fin, rows, r as int),
                forall|k: int| 0 <= k < n ==> #[trigger] svg_rows@[k]@ == with_x(rows[k], fin.xs[k]),
            decreases n - r,
        {
            let ghost t0 = all_marks_upto(fin, rows, r as int);
            let ghost base = Layout { xs: fin.xs, table: t0 };
            let np = svg_rows[r].parent_svg_rows.len();
            proof {
                assert(svg_rows@[r as int]@ == with_x(rows[r as int], fin.xs[r as int]));
                assert(np == rows[r as int].parent_rows.len());
            }
            let mut j: usize = 0;
            while j < np
                invariant
                    n == svg_rows@.len(),
                    n == rows.len(),
                    rows == row_views(old(svg_rows)@),
                    links_valid(rows),
                    rows_ok(rows, n as int),
                    all_set(rows, n as int),
                    fin == rows_upto(rows, n as int),
                    fin.xs.len() == n,
                    all_marks_ok(fin, rows, r as int),
                    t0 == all_marks_upto(fin, rows, r as int),
                    r < n,
                    j <= np,
                    np == rows[r as int].parent_rows.len(),
                    base == (Layout { xs: fin.xs, table: t0 }),
                    marks_ok(base, rows, r as int, j as int),
                    grid(main_table@) == marks_upto(base, rows, r as int, j as int),
                    forall|k: int| 0 <= k < n ==> #[trigger] svg_rows@[k]@ == with_x(rows[k], fin.xs[k]),
                decreases np - j,
            {
                proof {
                    assert(svg_rows@[r as int]@ == with_x(rows[r as int], fin.xs[r as int]));
                }
                let p = svg_rows[r].parent_svg_rows[j];
                proof {
                    assert(p == rows[r as int].parent_rows[j as int]);
                    assert(p < n);
                    assert(svg_rows@[p as int]@ == with_x(rows[p as int], fin.xs[p as int]));
                }
                let xr = svg_rows[r].x;
                let xp = svg_rows[p].x;
                let ghost before = main_table@;
                if xr < xp {
                    let yr = svg_rows[r].y;
                    if yr < 0 || (yr as usize) >= main_table.len() {
                        proof {
                            lemma_marks_bad(base, rows, r as int, j as int, np as int);
                            lemma_all_marks_bad(fin, rows, r as int, n as int);
                        }
                        return Err(LayoutError::TooLarge);
                    }
                    main_table[yr as usize].push(xp);
                    proof {
                        assert(ints(main_table@[yr as int]@) =~= ints(before[yr as int]@).push(xp as int));
                        assert(grid(main_table@) =~= grid(before).update(
                            yr as int,
                            grid(before)[yr as int].push(xp as int),
                        ));
                    }
                } else if xr > xp {
                    let yp = svg_rows[p].y;
                    if yp < 0 || (yp as usize) >= main_table.len() {
                        proof {
                            lemma_marks_bad(base, rows, r as int, j as int, np as int);
                            lemma_all_marks_bad(fin, rows, r as int, n as int);
                        }
                        return Err(LayoutError::TooLarge);
                    }
                    main_table[yp as usize].push(xr);
                    proof {
                        assert(ints(main_table@[yp as int]@) =~= ints(before[yp as int]@).push(xr as int));
                        assert(grid(main_table@) =~= grid(before).update(
                            yp as int,
                            grid(before)[yp as int].push(xr as int),
                        ));
                    }
                }
                j = j + 1;
            }
            r = r + 1;
        }
        proof {
            assert forall|k: int| 0 <= k <= rows.len() && all_set(rows, k) implies #[trigger] rows_ok(rows, k) by {
                lemma_rows_ok_prefix(rows, n as int, k);
            }
        }
        Ok(main_table)
    }
}

/// The largest entry of a non-empty sequence.
pub open spec fn seq_max(s: Seq<int>) -> int
    decreases s.len(),
{
    if s.len() <= 1 {
        s[0]
    } else {
        let m = seq_max(s.drop_last());
        if s.last() > m {
            s.last()
        } else {
            m
        }
    }
}

/// The largest entry, or zero for an empty sequence.
pub open spec fn max_or_zero(s: Seq<int>) -> int {
    if s.len() == 0 {
        0
    } else {
        seq_max(s)
    }
}

/// The horizontal pixel of column `x`.
pub open spec fn column_pixel(x: int) -> int {
    x * X_SPACING + X_OFFSET
}

/// The vertical pixel of grid row `y`.
pub open spec fn row_pixel(y: int) -> int {
    y * Y_SPACING + Y_OFFSET
}

/// A numeric attribute.
pub open spec fn ai(k: Seq<char>, v: int) -> (Seq<char>, AttrValue) {
    (k, AttrValue::Int(v))
}

/// A text attribute.
pub open spec fn at(k: Seq<char>, v: Seq<char>) -> (Seq<char>, AttrValue) {
    (k, AttrValue::Str(v))
}

/// The stroke width, as text.
pub open spec fn stroke_width_text() -> Seq<char> {
    int_decimal(LINE_STROKE_WIDTH as int)
}

/// One grid row's piece of the vertical line at pixel `lpx`, in grid row `i`.
pub open spec fn segment_element(lpx: int, i: int) -> ElementView {
    seq![
        ("tag"@, PropValue::Str("line"@)),
        ("attrs"@, PropValue::Attrs(seq![
            ai("x1"@, lpx),
            ai("y1"@, row_pixel(i)),
            ai("x2"@, lpx),
            ai("y2"@, row_pixel(i + 1)),
            at("style"@, "stroke:"@ + color_of((lpx - X_OFFSET) / (X_SPACING as int)) + ";stroke-width:"@
                + stroke_width_text()),
        ])),
        ("row-y"@, PropValue::Int(i + 1)),
    ]
}

/// The grid rows that the vertical part of the line from a child at
/// `(cx, cy)` to a row at `(x, y)` crosses, as (pixel, first row, last row).
pub open spec fn segment_range(x: int, y: int, cx: int, cy: int) -> (int, int, int) {
    if x > cx {
        (column_pixel(x), cy + 1, y - 1)
    } else {
        (column_pixel(cx), cy, y - 2)
    }
}

/// The vertical pieces of the line from a child at `(cx, cy)` to a row at
/// `(x, y)`: none when the child is in the grid row just above, else one per
/// grid row from the first row to the last row of `segment_range`.
pub open spec fn segments(x: int, y: int, cx: int, cy: int) -> Seq<ElementView> {
    if row_pixel(y - 1) == row_pixel(cy) {
        seq![]
    } else {
        let (lpx, start, end) = segment_range(x, y, cx, cy);
        Seq::new(
            if end >= start {
                (end - start + 1) as nat
            } else {
                0nat
            },
            |k: int| segment_element(lpx, start + k),
        )
    }
}

/// The style of the line that joins a child to its row: coloured by the
/// child's column when the child is not left of the row, else by the row's.
pub open spec fn connector_style(x: int, cx: int) -> Seq<char> {
    "stroke:"@ + (if cx >= x {
        color_of(cx)
    } else {
        color_of(x)
    }) + ";fill:transparent;stroke-width:"@ + stroke_width_text()
}

/// The curve from a child at `(cx, cy)` to a row at `(x, y)`, as SVG path
/// data: a cubic Bézier curve whose control points lie three quarters of a
/// spacing along.
pub open spec fn path_d(x: int, y: int, cx: int, cy: int) -> Seq<char> {
    let cpx = column_pixel(cx);
    let cpy = row_pixel(cy);
    let px = column_pixel(x);
    let py = row_pixel(y);
    let bpy = row_pixel(y - 1);
    if cpx < px {
        let acpy = row_pixel(cy + 1);
        "M "@ + int_decimal(cpx) + " "@ + int_decimal(cpy) + " C "@ + int_decimal(
            cpx + X_SPACING * 3 / 4,
        ) + " "@ + int_decimal(cpy) + ", "@ + int_decimal(px) + " "@ + int_decimal(
            acpy - Y_SPACING * 3 / 4,
        ) + ", "@ + int_decimal(px) + " "@ + int_decimal(acpy)
    } else {
        "M "@ + int_decimal(cpx) + " "@ + int_decimal(bpy) + " C "@ + int_decimal(cpx) + " "@
            + int_decimal(bpy + Y_SPACING * 3 / 4) + ", "@ + int_decimal(px + X_SPACING * 3 / 4)
            + " "@ + int_decimal(py) + ", "@ + int_decimal(px) + " "@ + int_decimal(py)
    }
}

/// The line (same column) or curve (other column) from a child at
/// `(cx, cy)` into a row at `(x, y)`.
pub open spec fn connector_element(x: int, y: int, cx: int, cy: int) -> ElementView {
    let cpx = column_pixel(cx);
    let px = column_pixel(x);
    let py = row_pixel(y);
    let style = connector_style(x, cx);
    if cpx == px {
        seq![
            ("tag"@, PropValue::Str("line"@)),
            ("attrs"@, PropValue::Attrs(seq![
                ai("x1"@, cpx),
                ai("y1"@, row_pixel(y - 1)),
                ai("x2"@, px),
                ai("y2"@, py),
                at("style"@, style),
            ])),
            ("row-y"@, PropValue::Int(y)),
        ]
    } else {
        seq![
            ("tag"@, PropValue::Str("path"@)),
            ("attrs"@, PropValue::Attrs(seq![at("d"@, path_d(x, y, cx, cy)), at("style"@, style)])),
            ("row-y"@, PropValue::Int(y)),
        ]
    }
}

/// The lines from the first `k` children of row `v` into it.
pub open spec fn child_line_elements(v: SVGRowView, rows: Seq<SVGRowView>, k: int) -> Seq<ElementView>
    decreases k,
{
    if k <= 0 {
        seq![]
    } else {
        let c = rows[v.child_rows[k - 1] as int];
        child_line_elements(v, rows, k - 1) + segments(v.x, v.y, c.x, c.y) + seq![
            connector_element(v.x, v.y, c.x, c.y),
        ]
    }
}

/// Element `e` is a vertical line at pixel column `px` from the pixel row
/// of grid row `i` to that of grid row `i + 1`, drawn in grid row `i + 1`.
pub open spec fn is_vertical_piece(e: ElementView, px: int, i: int) -> bool {
    &&& e.len() == 3
    &&& e[0] == ("tag"@, PropValue::Str("line"@))
    &&& e[1].0 == "attrs"@
    &&& match e[1].1 {
        PropValue::Attrs(a) => {
            &&& a.len() >= 4
            &&& a[0] == ("x1"@, AttrValue::Int(px))
            &&& a[1] == ("y1"@, AttrValue::Int(24 * i + 20))
            &&& a[2] == ("x2"@, AttrValue::Int(px))
            &&& a[3] == ("y2"@, AttrValue::Int(24 * i + 44))
        },
        _ => false,
    }
    &&& e[2] == ("row-y"@, PropValue::Int(i + 1))
}

proof fn lemma_child_lines_prefix(v: SVGRowView, rows: Seq<SVGRowView>, k1: int, k2: int)
    requires
        0 <= k1 <= k2,
    ensures
        child_line_elements(v, rows, k1).len() <= child_line_elements(v, rows, k2).len(),
        forall|m: int|
            0 <= m < child_line_elements(v, rows, k1).len() ==> #[trigger] child_line_elements(v, rows, k2)[m]
                == child_line_elements(v, rows, k1)[m],
    decreases k2 - k1,
{
    if k1 < k2 {
        lemma_child_lines_prefix(v, rows, k1, k2 - 1);
        let a = child_line_elements(v, rows, k2 - 1);
        let c = rows[v.child_rows[k2 - 1] as int];
        let b = child_line_elements(v, rows, k2);
        assert(b == a + segments(v.x, v.y, c.x, c.y) + seq![connector_element(v.x, v.y, c.x, c.y)]);
        assert forall|m: int| 0 <= m < child_line_elements(v, rows, k1).len() implies #[trigger] b[m]
            == child_line_elements(v, rows, k1)[m] by {
            assert(b[m] == a[m]);
        }
    }
}

/// When a row's child lies more than one grid row above it, the row's
/// child lines hold a vertical line for every grid row crossed: in the
/// child's column from the child's grid row to two above the row when the
/// child is not to the left of the row, and in the row's column from just
/// below the child to just above the row otherwise; so the line from the
/// child reaches the piece that joins it to the row.
pub proof fn lemma_child_lines_cross_rows(v: SVGRowView, rows: Seq<SVGRowView>, j: int, i: int)
    requires
        0 <= j < v.child_rows.len(),
        rows[v.child_rows[j] as int].y + 1 < v.y,
        v.x > rows[v.child_rows[j] as int].x ==> rows[v.child_rows[j] as int].y + 1 <= i <= v.y - 1,
        v.x <= rows[v.child_rows[j] as int].x ==> rows[v.child_rows[j] as int].y <= i <= v.y - 2,
    ensures
        ({
            let c = rows[v.child_rows[j] as int];
            let col = if v.x > c.x {
                v.x
            } else {
                c.x
            };
            let lines = child_line_elements(v, rows, v.child_rows.len() as int);
            exists|m: int| 0 <= m < lines.len() && is_vertical_piece(#[trigger] lines[m], 15 * col + 20, i)
        }),
{
    let c = rows[v.child_rows[j] as int];
    let col = if v.x > c.x {
        v.x
    } else {
        c.x
    };
    let start = if v.x > c.x {
        c.y + 1
    } else {
        c.y
    };
    let segs = segments(v.x, v.y, c.x, c.y);
    assert(row_pixel(v.y - 1) != row_pixel(c.y));
    assert(segs.len() == v.y - 1 - c.y);
    let e = segs[i - start];
    assert(e == segment_element(column_pixel(col), i));
    assert(is_vertical_piece(e, 15 * col + 20, i));
    let pre = child_line_elements(v, rows, j);
    let here = child_line_elements(v, rows, j + 1);
    assert(here == pre + segs + seq![connector_element(v.x, v.y, c.x, c.y)]);
    let m = pre.len() + (i - start);
    assert(here[m] == e);
    lemma_child_lines_prefix(v, rows, j + 1, v.child_rows.len() as int);
    let lines = child_line_elements(v, rows, v.child_rows.len() as int);
    assert(lines[m] == e);
}

/// The circle of a commit.
pub open spec fn circle_element(x: int, y: int) -> ElementView {
    seq![
        ("tag"@, PropValue::Str("circle"@)),
        ("attrs"@, PropValue::Attrs(seq![
            ai("cx"@, column_pixel(x)),
            ai("cy"@, row_pixel(y)),
            ai("r"@, CIRCLE_RADIUS as int),
            at("stroke"@, color_of(x)),
            ai("stroke-width"@, 1),
            at("fill"@, color_of(x)),
        ])),
    ]
}

/// The summary text of a commit, right of the last column its grid row uses.
pub open spec fn summary_element(y: int, largest: int, summary: Seq<char>) -> ElementView {
    seq![
        ("tag"@, PropValue::Str("text"@)),
        ("attrs"@, PropValue::Attrs(seq![
            ai("x"@, column_pixel(largest + 1)),
            ai("y"@, row_pixel(y) + TEXT_Y_OFFSET),
            at("fill"@, "white"@),
        ])),
        ("textContent"@, PropValue::Str(summary)),
    ]
}

/// The hoverable background rectangle of a commit.
pub open spec fn back_rect_element(x: int, y: int) -> ElementView {
    seq![
        ("tag"@, PropValue::Str("rect"@)),
        ("attrs"@, PropValue::Attrs(seq![
            at("class"@, "svg-hoverable-row"@),
            ai("x"@, column_pixel(x)),
            ai("y"@, row_pixel(y) + RECT_Y_OFFSET),
            ai("width"@, 0),
            ai("height"@, RECT_HEIGHT as int),
            at("style"@, "fill:white;fill-opacity:0.1;"@),
        ])),
    ]
}

/// Everything drawn for row `v`, where `largest` is the largest column its
/// grid row uses (zero if none).
pub open spec fn row_drawing(v: SVGRowView, rows: Seq<SVGRowView>, largest: int) -> Seq<(Seq<char>, RowValue)> {
    seq![
        ("sha"@, RowValue::Str(v.sha)),
        ("pixel_y"@, RowValue::Int(row_pixel(v.y))),
        ("elements"@, RowValue::Entries(seq![
            ("child_lines"@, DrawValue::List(child_line_elements(v, rows, v.child_rows.len() as int))),
            ("circle"@, DrawValue::Single(circle_element(v.x, v.y))),
            ("summary_text"@, DrawValue::Single(summary_element(v.y, largest, v.summary))),
            ("back_rect"@, DrawValue::Single(back_rect_element(v.x, v.y))),
        ])),
    ]
}

/// Column `x` and grid row `y` give pixels that fit in an `isize`, with room
/// for the offsets that drawing adds.
pub open spec fn coord_ok(x: int, y: int) -> bool {
    &&& isize::MIN + 48 <= x * X_SPACING <= isize::MAX - 48
    &&& isize::MIN + 48 <= y * Y_SPACING <= isize::MAX - 48
}

fn attr_int(key: &str, v: isize) -> (r: (String, SVGPropertyAttrs))
    ensures
        r.deep_view() == ai(key@, v as int),
{
    (owned(key), SVGPropertyAttrs::SomeInt(v))
}

fn attr_text(key: &str, v: String) -> (r: (String, SVGPropertyAttrs))
    ensures
        r.deep_view() == at(key@, v@),
{
    (owned(key), SVGPropertyAttrs::SomeString(v))
}

fn prop_text(key: &str, v: &str) -> (r: (String, SVGProperty))
    ensures
        r.deep_view() == (key@, PropValue::Str(v@)),
{
    (owned(key), SVGProperty::SomeString(owned(v)))
}

fn prop_int(key: &str, v: isize) -> (r: (String, SVGProperty))
    ensures
        r.deep_view() == (key@, PropValue::Int(v as int)),
{
    (owned(key), SVGProperty::SomeInt(v))
}

fn prop_attrs(key: &str, v: Vec<(String, SVGPropertyAttrs)>) -> (r: (String, SVGProperty))
    ensures
        r.deep_view() == (key@, PropValue::Attrs(v.deep_view())),
{
    (owned(key), SVGProperty::SomeHashMap(v))
}

/// `a` followed by the decimal notation of `n`.
fn push_number(a: &mut String, n: isize)
    ensures
        final(a)@ == old(a)@ + int_decimal(n as int),
{
    let d = isize_to_string(n);
    push_all(a, d.as_str());
}

/// Whether a row at column `x` and grid row `y` has pixel coordinates
/// that fit, with room for what is drawn around them.
pub(crate) fn coord_fits(x: isize, y: isize) -> (b: bool)
    ensures
        b == coord_ok(x as int, y as int),
{
    let px = (x as i128) * 15;
    let py = (y as i128) * 24;
    let lo = (isize::MIN as i128) + 48;
    let hi = (isize::MAX as i128) - 48;
    lo <= px && px <= hi && lo <= py && py <= hi
}

/// Whether the summary text after column `largest` has a pixel column
/// that fits, with room around it.
pub(crate) fn label_fits(largest: isize) -> (b: bool)
    ensures
        b == (isize::MIN + 48 <= (largest + 1) * X_SPACING <= isize::MAX - 48),
{
    let p = ((largest as i128) + 1) * 15;
    let lo = (isize::MIN as i128) + 48;
    let hi = (isize::MAX as i128) - 48;
    lo <= p && p <= hi
}

/// A laid-out row `v` of `rows` can be drawn on grid `g` without a panic
/// or an overflow: its grid row exists, its coordinates and those of its
/// children fit, and so does the column of its summary text.
pub open spec fn row_drawable(rows: Seq<SVGRowView>, g: Seq<Seq<int>>, v: SVGRowView) -> bool {
    &&& 0 <= v.y < g.len()
    &&& coord_ok(v.x, v.y)
    &&& forall|j: int|
        0 <= j < v.child_rows.len() ==> #[trigger] v.child_rows[j] < rows.len() && coord_ok(
            rows[v.child_rows[j] as int].x,
            rows[v.child_rows[j] as int].y,
        )
    &&& isize::MIN + 48 <= (max_or_zero(g[v.y]) + 1) * X_SPACING <= isize::MAX - 48
}

/// Every laid-out row can be drawn without a panic or an overflow.
pub open spec fn drawable(rows: Seq<SVGRowView>, g: Seq<Seq<int>>) -> bool {
    forall|k: int| 0 <= k < rows.len() ==> row_drawable(rows, g, #[trigger] rows[k])
}

/// Whether every laid-out row can be drawn on the grid `table`.
pub(crate) fn rows_drawable(svg_rows: &Vec<SVGRow>, table: &Vec<Vec<isize>>) -> (b: bool)
    ensures
        b == drawable(row_views(svg_rows@), grid(table@)),
{
    let ghost rows = row_views(svg_rows@);
    let ghost g = grid(table@);
    let n = svg_rows.len();
    let mut k: usize = 0;
    while k < n
        invariant
            n == svg_rows@.len(),
            rows == row_views(svg_rows@),
            g == grid(table@),
            k <= n,
            forall|q: int| 0 <= q < k ==> row_drawable(rows, g, #[trigger] rows[q]),
        decreases n - k,
    {
        let row = &svg_rows[k];
        assert(rows[k as int] == row@);
        let y = row.y;
        if y < 0 || y as usize >= table.len() {
            return false;
        }
        if !coord_fits(row.x, y) {
            return false;
        }
        let mut j: usize = 0;
        while j < row.child_svg_rows.len()
            invariant
                n == svg_rows@.len(),
                rows == row_views(svg_rows@),
                k < n,
                rows[k as int] == row@,
                j <= row.child_svg_rows@.len(),
                forall|m: int|
                    0 <= m < j ==> #[trigger] row.child_svg_rows@[m] < n && coord_ok(
                        rows[row.child_svg_rows@[m] as int].x,
                        rows[row.child_svg_rows@[m] as int].y,
                    ),
            decreases row.child_svg_rows@.len() - j,
        {
            let c = row.child_svg_rows[j];
            if c >= n {
                assert(rows[k as int].child_rows[j as int] == c);
                assert(!row_drawable(rows, g, rows[k as int]));
                return false;
            }
            assert(rows[c as int] == svg_rows@[c as int]@);
            if !coord_fits(svg_rows[c].x, svg_rows[c].y) {
                assert(rows[k as int].child_rows[j as int] == c);
                assert(!row_drawable(rows, g, rows[k as int]));
                return false;
            }
            j = j + 1;
        }
        let largest = largest_or_zero(&table[y as usize]);
        assert(g[y as int] == ints(table@[y as int]@));
        if !label_fits(largest) {
            return false;
        }
        k = k + 1;
    }
    true
}

/// The largest entry, or zero for an empty list.
pub(crate) fn largest_or_zero(v: &Vec<isize>) -> (r: isize)
    ensures
        r as int == max_or_zero(ints(v@)),
{
    if v.len() == 0 {
        return 0;
    }
    let mut m = v[0];
    let mut i: usize = 1;
    proof {
        assert(ints(v@).subrange(0, 1) =~= seq![v@[0] as int]);
    }
    while i < v.len()
        invariant
            1 <= i <= v.len(),
            m as int == seq_max(ints(v@).subrange(0, i as int)),
        decreases v.len() - i,
    {
        proof {
            assert(ints(v@).subrange(0, i + 1).drop_last() =~= ints(v@).subrange(0, i as int));
        }
        if v[i] > m {
            m = v[i];
        }
        i = i + 1;
    }
    proof {
        assert(ints(v@).subrange(0, v@.len() as int) =~= ints(v@));
    }
    m
}

/// The style of one vertical piece of line at pixel `lpx`.
fn segment_style(lpx: isize, col: isize) -> (r: String)
    requires
        lpx == col * X_SPACING + X_OFFSET,
    ensures
        r@ == "stroke:"@ + color_of((lpx - X_OFFSET) / (X_SPACING as int)) + ";stroke-width:"@
            + stroke_width_text(),
{
    let mut s = owned("stroke:");
    let c = SVGRow::get_color_string(col);
    assert((lpx - X_OFFSET) / (X_SPACING as int) == col);
    push_all(&mut s, c.as_str());
    push_all(&mut s, ";stroke-width:");
    push_number(&mut s, LINE_STROKE_WIDTH);
    s
}

/// Appends the vertical pieces of the line from a child at `(cx, cy)` to a
/// row at `(x, y)`.
fn push_segments(out: &mut Vec<Vec<(String, SVGProperty)>>, x: isize, y: isize, cx: isize, cy: isize)
    requires
        coord_ok(x as int, y as int),
        coord_ok(cx as int, cy as int),
    ensures
        final(out).deep_view() == old(out).deep_view() + segments(x as int, y as int, cx as int, cy as int),
{
    let child_pixel_x = cx * X_SPACING + X_OFFSET;
    let child_pixel_y = cy * Y_SPACING + Y_OFFSET;
    let pixel_x = x * X_SPACING + X_OFFSET;
    let before_y = y - 1;
    let before_pixel_y = before_y * Y_SPACING + Y_OFFSET;
    if before_pixel_y != child_pixel_y {
        let start_index;
        let end_index;
        let line_pixel_x;
        let line_col;
        if x > cx {
            line_col = x;
            line_pixel_x = pixel_x;
            start_index = cy + 1;
            end_index = before_y;
        } else {
            line_col = cx;
            line_pixel_x = child_pixel_x;
            start_index = cy;
            end_index = before_y - 1;
        }
        let ghost start = old(out).deep_view();
        let ghost segs = segments(x as int, y as int, cx as int, cy as int);
        assert((line_pixel_x as int, start_index as int, end_index as int) == segment_range(
            x as int,
            y as int,
            cx as int,
            cy as int,
        ));
        let mut i = start_index;
        while i <= end_index
            invariant
                start_index <= i,
                end_index >= start_index ==> i <= end_index + 1,
                end_index < start_index ==> i == start_index,
                isize::MIN + 48 <= start_index * Y_SPACING,
                end_index * Y_SPACING <= isize::MAX - 48,
                line_pixel_x == line_col * X_SPACING + X_OFFSET,
                segs == segments(x as int, y as int, cx as int, cy as int),
                row_pixel(y - 1) != row_pixel(cy as int),
                (line_pixel_x as int, start_index as int, end_index as int) == segment_range(
                    x as int,
                    y as int,
                    cx as int,
                    cy as int,
                ),
                out.deep_view() == start + segs.subrange(0, i - start_index),
            decreases end_index - i + 1,
        {
            let top_pixel_y = i * Y_SPACING + Y_OFFSET;
            let bottom_pixel_y = (i + 1) * Y_SPACING + Y_OFFSET;
            let style_str = segment_style(line_pixel_x, line_col);
            let mut line_attrs: Vec<(String, SVGPropertyAttrs)> = Vec::new();
            line_attrs.push(attr_int("x1", line_pixel_x));
            line_attrs.push(attr_int("y1", top_pixel_y));
            line_attrs.push(attr_int("x2", line_pixel_x));
            line_attrs.push(attr_int("y2", bottom_pixel_y));
            line_attrs.push(attr_text("style", style_str));
            let mut element: Vec<(String, SVGProperty)> = Vec::new();
            element.push(prop_text("tag", "line"));
            element.push(prop_attrs("attrs", line_attrs));
            element.push(prop_int("row-y", i + 1));
            let ghost before = out.deep_view();
            out.push(element);
            proof {
                assert(element.deep_view() =~= segment_element(line_pixel_x as int, i as int)) by {
                    assert(line_attrs.deep_view() =~= seq![
                        ai("x1"@, line_pixel_x as int),
                        ai("y1"@, row_pixel(i as int)),
                        ai("x2"@, line_pixel_x as int),
                        ai("y2"@, row_pixel(i + 1)),
                        at("style"@, "stroke:"@ + color_of((line_pixel_x - X_OFFSET) / (X_SPACING as int))
                            + ";stroke-width:"@ + stroke_width_text()),
                    ]);
                }
                assert(segs[i - start_index] == segment_element(line_pixel_x as int, i as int));
                assert(out.deep_view() =~= before.push(element.deep_view()));
                assert(out.deep_view() =~= start + segs.subrange(0, i + 1 - start_index));
            }
            i = i + 1;
        }
        proof {
            assert(segs.subrange(0, i - start_index) =~= segs);
        }
    } else {
        proof {
            assert(old(out).deep_view() + segments(x as int, y as int, cx as int, cy as int)
                =~= old(out).deep_view());
        }
    }
}

/// The line or curve from a child at `(cx, cy)` into a row at `(x, y)`.
fn connector(x: isize, y: isize, cx: isize, cy: isize) -> (r: Vec<(String, SVGProperty)>)
    requires
        coord_ok(x as int, y as int),
        coord_ok(cx as int, cy as int),
    ensures
        r.deep_view() == connector_element(x as int, y as int, cx as int, cy as int),
{
    let child_pixel_x = cx * X_SPACING + X_OFFSET;
    let child_pixel_y = cy * Y_SPACING + Y_OFFSET;
    let pixel_x = x * X_SPACING + X_OFFSET;
    let pixel_y = y * Y_SPACING + Y_OFFSET;
    let before_y = y - 1;
    let before_pixel_y = before_y * Y_SPACING + Y_OFFSET;
    let mut style_str = owned("stroke:");
    let row_y = y;
    if cx >= x {
        let c = SVGRow::get_color_string(cx);
        push_all(&mut style_str, c.as_str());
    } else {
        let c = SVGRow::get_color_string(x);
        push_all(&mut style_str, c.as_str());
    }
    push_all(&mut style_str, ";fill:transparent;stroke-width:");
    push_number(&mut style_str, LINE_STROKE_WIDTH);
    assert(style_str@ =~= connector_style(x as int, cx as int));
    let mut element: Vec<(String, SVGProperty)> = Vec::new();
    if child_pixel_x == pixel_x {
        let mut line_attrs: Vec<(String, SVGPropertyAttrs)> = Vec::new();
        line_attrs.push(attr_int("x1", child_pixel_x));
        line_attrs.push(attr_int("y1", before_pixel_y));
        line_attrs.push(attr_int("x2", pixel_x));
        line_attrs.push(attr_int("y2", pixel_y));
        line_attrs.push(attr_text("style", style_str));
        element.push(prop_text("tag", "line"));
        element.push(prop_attrs("attrs", line_attrs));
        element.push(prop_int("row-y", row_y));
        proof {
            assert(line_attrs.deep_view() =~= seq![
                ai("x1"@, pixel_x as int),
                ai("y1"@, before_pixel_y as int),
                ai("x2"@, pixel_x as int),
                ai("y2"@, pixel_y as int),
                at("style"@, connector_style(x as int, cx as int)),
            ]);
            assert(element.deep_view() =~= connector_element(x as int, y as int, cx as int, cy as int));
        }
    } else {
        let mut d_str = owned("M ");
        push_number(&mut d_str, child_pixel_x);
        if child_pixel_x < pixel_x {
            let after_child_pixel_y = (cy + 1) * Y_SPACING + Y_OFFSET;
            let start_control_point_x = child_pixel_x + X_SPACING * 3 / 4;
            let end_control_point_y = after_child_pixel_y - Y_SPACING * 3 / 4;
            push_all(&mut d_str, " ");
            push_number(&mut d_str, child_pixel_y);
            push_all(&mut d_str, " C ");
            push_number(&mut d_str, start_control_point_x);
            push_all(&mut d_str, " ");
            push_number(&mut d_str, child_pixel_y);
            push_all(&mut d_str, ", ");
            push_number(&mut d_str, pixel_x);
            push_all(&mut d_str, " ");
            push_number(&mut d_str, end_control_point_y);
            push_all(&mut d_str, ", ");
            push_number(&mut d_str, pixel_x);
            push_all(&mut d_str, " ");
            push_number(&mut d_str, after_child_pixel_y);
        } else {
            let start_control_point_y = before_pixel_y + Y_SPACING * 3 / 4;
            let end_control_point_x = pixel_x + X_SPACING * 3 / 4;
            push_all(&mut d_str, " ");
            push_number(&mut d_str, before_pixel_y);
            push_all(&mut d_str, " C ");
            push_number(&mut d_str, child_pixel_x);
            push_all(&mut d_str, " ");
            push_number(&mut d_str, start_control_point_y);
            push_all(&mut d_str, ", ");
            push_number(&mut d_str, end_control_point_x);
            push_all(&mut d_str, " ");
            push_number(&mut d_str, pixel_y);
            push_all(&mut d_str, ", ");
            push_number(&mut d_str, pixel_x);
            push_all(&mut d_str, " ");
            push_number(&mut d_str, pixel_y);
        }
        assert(d_str@ =~= path_d(x as int, y as int, cx as int, cy as int));
        let mut path_attrs: Vec<(String, SVGPropertyAttrs)> = Vec::new();
        path_attrs.push(attr_text("d", d_str));
        path_attrs.push(attr_text("style", style_str));
        element.push(prop_text("tag", "path"));
        element.push(prop_attrs("attrs", path_attrs));
        element.push(prop_int("row-y", row_y));
        proof {
            assert(path_attrs.deep_view() =~= seq![
                at("d"@, path_d(x as int, y as int, cx as int, cy as int)),
                at("style"@, connector_style(x as int, cx as int)),
            ]);
            assert(element.deep_view() =~= connector_element(x as int, y as int, cx as int, cy as int));
        }
    }
    element
}

impl SVGRow {
    /// Everything drawn for this row: its sha and pixel row, the lines from
    /// each of its children into it, its circle, its summary text to the
    /// right of the last column its grid row uses, and a background
    /// rectangle. `svg_rows` holds the rows its links refer to.
    pub fn get_draw_properties(&self, main_table: &Vec<Vec<isize>>, svg_rows: &Vec<SVGRow>) -> (r: Vec<(String, RowProperty)>)
        requires
            0 <= self@.y < main_table@.len(),
            coord_ok(self@.x, self@.y),
            forall|j: int|
                0 <= j < self@.child_rows.len() ==> #[trigger] self@.child_rows[j] < svg_rows@.len(),
            forall|j: int|
                0 <= j < self@.child_rows.len() ==> coord_ok(
                    #[trigger] svg_rows@[self@.child_rows[j] as int]@.x,
                    svg_rows@[self@.child_rows[j] as int]@.y,
                ),
            isize::MIN + 48 <= (max_or_zero(ints(main_table@[self@.y]@)) + 1) * X_SPACING
                <= isize::MAX - 48,
        ensures
            r.deep_view() == row_drawing(
                self@,
                row_views(svg_rows@),
                max_or_zero(ints(main_table@[self@.y]@)),
            ),
    {
        let ghost rows = row_views(svg_rows@);
        let mut row_properties: Vec<(String, RowProperty)> = Vec::new();
        row_properties.push((owned("sha"), RowProperty::SomeString(self.sha.clone())));
        let pixel_x = self.x * X_SPACING + X_OFFSET;
        let pixel_y = self.y * Y_SPACING + Y_OFFSET;
        row_properties.push((owned("pixel_y"), RowProperty::SomeInt(pixel_y)));
        let color = SVGRow::get_color_string(self.x);
        let mut child_lines: Vec<Vec<(String, SVGProperty)>> = Vec::new();
        let mut k: usize = 0;
        proof {
            assert(child_lines.deep_view() =~= child_line_elements(self@, rows, 0));
        }
        while k < self.child_svg_rows.len()
            invariant
                k <= self.child_svg_rows.len(),
                rows == row_views(svg_rows@),
                coord_ok(self@.x, self@.y),
                forall|j: int|
                    0 <= j < self@.child_rows.len() ==> #[trigger] self@.child_rows[j] < svg_rows@.len(),
                forall|j: int|
                    0 <= j < self@.child_rows.len() ==> coord_ok(
                        #[trigger] svg_rows@[self@.child_rows[j] as int]@.x,
                        svg_rows@[self@.child_rows[j] as int]@.y,
                    ),
                child_lines.deep_view() == child_line_elements(self@, rows, k as int),
            decreases self.child_svg_rows.len() - k,
        {
            let ci = self.child_svg_rows[k];
            proof {
                assert(ci == self@.child_rows[k as int]);
                assert(coord_ok(svg_rows@[ci as int]@.x, svg_rows@[ci as int]@.y));
            }
            let c = &svg_rows[ci];
            let ghost before = child_lines.deep_view();
            push_segments(&mut child_lines, self.x, self.y, c.x, c.y);
            let line = connector(self.x, self.y, c.x, c.y);
            let ghost mid = child_lines.deep_view();
            child_lines.push(line);
            k = k + 1;
            proof {
                assert(rows[ci as int] == c@);
                assert(child_lines.deep_view() =~= mid.push(line.deep_view()));
                assert(child_lines.deep_view() =~= child_line_elements(self@, rows, k as int));
            }
        }
        let mut draw_properties: Vec<(String, DrawProperty)> = Vec::new();
        draw_properties.push((owned("child_lines"), DrawProperty::SomeVector(child_lines)));

        let mut circle_attrs: Vec<(String, SVGPropertyAttrs)> = Vec::new();
        circle_attrs.push(attr_int("cx", pixel_x));
        circle_attrs.push(attr_int("cy", pixel_y));
        circle_attrs.push(attr_int("r", CIRCLE_RADIUS));
        circle_attrs.push(attr_text("stroke", color.clone()));
        circle_attrs.push(attr_int("stroke-width", 1));
        circle_attrs.push(attr_text("fill", color.clone()));
        let mut circle: Vec<(String, SVGProperty)> = Vec::new();
        circle.push(prop_text("tag", "circle"));
        circle.push(prop_attrs("attrs", circle_attrs));
        proof {
            assert(circle_attrs.deep_view() =~= seq![
                ai("cx"@, column_pixel(self@.x)),
                ai("cy"@, row_pixel(self@.y)),
                ai("r"@, CIRCLE_RADIUS as int),
                at("stroke"@, color_of(self@.x)),
                ai("stroke-width"@, 1),
                at("fill"@, color_of(self@.x)),
            ]);
            assert(circle.deep_view() =~= circle_element(self@.x, self@.y));
        }
        draw_properties.push((owned("circle"), DrawProperty::SomeHashMap(circle)));

        let largest_occupied_x = largest_or_zero(&main_table[self.y as usize]);
        let mut text_attrs: Vec<(String, SVGPropertyAttrs)> = Vec::new();
        text_attrs.push(attr_int("x", (largest_occupied_x + 1) * X_SPACING + X_OFFSET));
        text_attrs.push(attr_int("y", pixel_y + TEXT_Y_OFFSET));
        text_attrs.push(attr_text("fill", owned("white")));
        let mut text: Vec<(String, SVGProperty)> = Vec::new();
        text.push(prop_text("tag", "text"));
        text.push(prop_attrs("attrs", text_attrs));
        text.push((owned("textContent"), SVGProperty::SomeString(self.summary.clone())));
        proof {
            assert(text_attrs.deep_view() =~= seq![
                ai("x"@, column_pixel(largest_occupied_x + 1)),
                ai("y"@, row_pixel(self@.y) + TEXT_Y_OFFSET),
                at("fill"@, "white"@),
            ]);
            assert(text.deep_view() =~= summary_element(self@.y, largest_occupied_x as int, self@.summary));
        }
        draw_properties.push((owned("summary_text"), DrawProperty::SomeHashMap(text)));

        let mut rect_attrs: Vec<(String, SVGPropertyAttrs)> = Vec::new();
        rect_attrs.push(attr_text("class", owned("svg-hoverable-row")));
        rect_attrs.push(attr_int("x", pixel_x));
        rect_attrs.push(attr_int("y", pixel_y + RECT_Y_OFFSET));
        rect_attrs.push(attr_int("width", 0));
        rect_attrs.push(attr_int("height", RECT_HEIGHT));
        rect_attrs.push(attr_text("style", owned("fill:white;fill-opacity:0.1;")));
        let mut rect: Vec<(String, SVGProperty)> = Vec::new();
        rect.push(prop_text("tag", "rect"));
        rect.push(prop_attrs("attrs", rect_attrs));
        proof {
            assert(rect_attrs.deep_view() =~= seq![
                at("class"@, "svg-hoverable-row"@),
                ai("x"@, column_pixel(self@.x)),
                ai("y"@, row_pixel(self@.y) + RECT_Y_OFFSET),
                ai("width"@, 0),
                ai("height"@, RECT_HEIGHT as int),
                at("style"@, "fill:white;fill-opacity:0.1;"@),
            ]);
            assert(rect.deep_view() =~= back_rect_element(self@.x, self@.y));
        }
        draw_properties.push((owned("back_rect"), DrawProperty::SomeHashMap(rect)));
        proof {
            assert(draw_properties.deep_view() =~= seq![
                ("child_lines"@, DrawValue::List(child_line_elements(self@, rows, self@.child_rows.len() as int))),
                ("circle"@, DrawValue::Single(circle_element(self@.x, self@.y))),
                ("summary_text"@, DrawValue::Single(summary_element(self@.y, largest_occupied_x as int, self@.summary))),
                ("back_rect"@, DrawValue::Single(back_rect_element(self@.x, self@.y))),
            ]);
        }
        row_properties.push((owned("elements"), RowProperty::SomeHashMap(draw_properties)));
        proof {
            assert(row_properties.deep_view() =~= row_drawing(self@, rows, largest_occupied_x as int));
        }
        row_properties
    }
}

/// The fill colour of a branch label by the kind of reference.
pub open spec fn label_color_of(branch_type: Seq<char>) -> Seq<char> {
    if branch_type == "local"@ {
        "red"@
    } else if branch_type == "remote"@ {
        "green"@
    } else if branch_type == "tag"@ {
        "grey"@
    } else {
        "yellow"@
    }
}

/// The label drawn for one branch or tag: its name and a rounded rectangle.
pub open spec fn branch_label(name: Seq<char>, branch_type: Seq<char>) -> Seq<ElementView> {
    seq![
        seq![
            ("tag"@, PropValue::Str("text"@)),
            ("attrs"@, PropValue::Attrs(seq![
                ai("x"@, 0),
                ai("y"@, TEXT_Y_OFFSET as int),
                at("fill"@, "white"@),
            ])),
            ("textContent"@, PropValue::Str(name)),
        ],
        seq![
            ("tag"@, PropValue::Str("rect"@)),
            ("attrs"@, PropValue::Attrs(seq![
                ai("x"@, 0),
                ai("y"@, RECT_Y_OFFSET as int),
                ai("rx"@, 10),
                ai("ry"@, 10),
                ai("width"@, 0),
                ai("height"@, RECT_HEIGHT as int),
                at("style"@, "fill:"@ + label_color_of(branch_type) + ";fill-opacity:0.5;"@),
            ])),
        ],
    ]
}

fn label_for(name: &String, branch_type: &String) -> (r: Vec<Vec<(String, SVGProperty)>>)
    ensures
        r.deep_view() == branch_label(name@, branch_type@),
{
    let mut group: Vec<Vec<(String, SVGProperty)>> = Vec::new();
    let mut text_attrs: Vec<(String, SVGPropertyAttrs)> = Vec::new();
    text_attrs.push(attr_int("x", 0));
    text_attrs.push(attr_int("y", TEXT_Y_OFFSET));
    text_attrs.push(attr_text("fill", owned("white")));
    let mut text: Vec<(String, SVGProperty)> = Vec::new();
    text.push(prop_text("tag", "text"));
    text.push(prop_attrs("attrs", text_attrs));
    text.push((owned("textContent"), SVGProperty::SomeString(name.clone())));
    group.push(text);

    let mut branch_rect_color = "yellow";
    if str_eq(branch_type.as_str(), "local") {
        branch_rect_color = "red";
    } else if str_eq(branch_type.as_str(), "remote") {
        branch_rect_color = "green";
    } else if str_eq(branch_type.as_str(), "tag") {
        branch_rect_color = "grey";
    }
    assert(branch_rect_color@ == label_color_of(branch_type@));
    let mut style_str = owned("fill:");
    push_all(&mut style_str, branch_rect_color);
    push_all(&mut style_str, ";fill-opacity:0.5;");
    let mut rect_attrs: Vec<(String, SVGPropertyAttrs)> = Vec::new();
    rect_attrs.push(attr_int("x", 0));
    rect_attrs.push(attr_int("y", RECT_Y_OFFSET));
    rect_attrs.push(attr_int("rx", 10));
    rect_attrs.push(attr_int("ry", 10));
    rect_attrs.push(attr_int("width", 0));
    rect_attrs.push(attr_int("height", RECT_HEIGHT));
    rect_attrs.push(attr_text("style", style_str));
    let mut rect: Vec<(String, SVGProperty)> = Vec::new();
    rect.push(prop_text("tag", "rect"));
    rect.push(prop_attrs("attrs", rect_attrs));
    group.push(rect);
    proof {
        assert(text_attrs.deep_view() =~= seq![
            ai("x"@, 0),
            ai("y"@, TEXT_Y_OFFSET as int),
            at("fill"@, "white"@),
        ]);
        assert(rect_attrs.deep_view() =~= seq![
            ai("x"@, 0),
            ai("y"@, RECT_Y_OFFSET as int),
            ai("rx"@, 10),
            ai("ry"@, 10),
            ai("width"@, 0),
            ai("height"@, RECT_HEIGHT as int),
            at("style"@, "fill:"@ + label_color_of(branch_type@) + ";fill-opacity:0.5;"@),
        ]);
        let bl = branch_label(name@, branch_type@);
        assert(text.deep_view() =~= bl[0]);
        assert(rect.deep_view() =~= bl[1]);
        assert(group.deep_view() =~= bl);
    }
    group
}

impl SVGRow {
    /// One label per branch or tag, in order: its name in white and a
    /// rectangle coloured red (local), green (remote), grey (tag) or yellow.
    pub fn get_branch_draw_properties(branches_and_tags: Vec<(String, String)>) -> (r: Vec<Vec<Vec<(String, SVGProperty)>>>)
        ensures
            r.deep_view().len() == branches_and_tags@.len(),
            forall|i: int|
                0 <= i < branches_and_tags@.len() ==> #[trigger] r.deep_view()[i] == branch_label(
                    branches_and_tags@[i].0@,
                    branches_and_tags@[i].1@,
                ),
    {
        let mut branch_and_tags: Vec<Vec<Vec<(String, SVGProperty)>>> = Vec::new();
        let mut i: usize = 0;
        while i < branches_and_tags.len()
            invariant
                i <= branches_and_tags.len(),
                branch_and_tags.deep_view().len() == i,
                forall|j: int|
                    0 <= j < i ==> #[trigger] branch_and_tags.deep_view()[j] == branch_label(
                        branches_and_tags@[j].0@,
                        branches_and_tags@[j].1@,
                    ),
            decreases branches_and_tags.len() - i,
        {
            let (ref name, ref branch_type) = branches_and_tags[i];
            let group = label_for(name, branch_type);
            let ghost before = branch_and_tags.deep_view();
            branch_and_tags.push(group);
            proof {
                assert(branch_and_tags.deep_view() =~= before.push(group.deep_view()));
            }
            i = i + 1;
        }
        branch_and_tags
    }
}

} // verus!
