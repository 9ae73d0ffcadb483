use crate::key::Key;
use crate::layout::LineLayout;
use crate::layout::rows_view;
use crate::position::Position;
use crate::seg::{grapheme_split, grapheme_split_wf, grapheme_count, grapheme_offset, cluster_prefix_len, grapheme_lens, grapheme_lens_post, lemma_cluster_prefix_mono, lemma_cluster_prefix_all, lemma_grapheme_offset_in_range};
use crate::strutil::{char_len, substring, insert_char, remove_char_range, concat_str};
use vstd::prelude::*;
use vstd::string::StrSliceExecFns;
use vstd::string::StringExecFns;

verus! {

// ------------------------------------------------------------------
// Views of the raw data.
// ------------------------------------------------------------------
/// The character sequences of a sequence of strings.
pub open spec fn lines_of(ss: Seq<String>) -> Seq<Seq<char>> {
    ss.map_values(|s: String| s@)
}

/// The width structure of a sequence of line layouts: per logical line, per
/// visual row, the cell widths of its graphemes.
pub open spec fn layouts_of(ls: Seq<LineLayout>) -> Seq<Seq<Seq<usize>>> {
    ls.map_values(|l: LineLayout| l@)
}

// ------------------------------------------------------------------
// The layout coordinate model: flattened visual rows over logical lines.
// ------------------------------------------------------------------
/// The number of visual rows taken by the first `li` logical lines.
pub open spec fn rows_before(ll: Seq<Seq<Seq<usize>>>, li: int) -> nat
    decreases li,
{
    if li <= 0 {
        0
    } else {
        rows_before(ll, li - 1) + ll[li - 1].len()
    }
}

/// The total number of visual rows of the whole layout.
pub open spec fn total_rows(ll: Seq<Seq<Seq<usize>>>) -> nat {
    rows_before(ll, ll.len() as int)
}

/// Logical line `li` owns flattened visual row `y`.
pub open spec fn owns_row(ll: Seq<Seq<Seq<usize>>>, y: int, li: int) -> bool {
    &&& 0 <= li < ll.len()
    &&& rows_before(ll, li) <= y < rows_before(ll, li) + ll[li].len()
}

/// The logical line that owns visual row `y`.
pub open spec fn line_of(ll: Seq<Seq<Seq<usize>>>, y: int) -> int {
    choose|li: int| owns_row(ll, y, li)
}

/// The position of row `y` among the rows of its own logical line.
pub open spec fn local_row(ll: Seq<Seq<Seq<usize>>>, y: int) -> int {
    y - rows_before(ll, line_of(ll, y))
}

/// The grapheme widths of visual row `y`.
pub open spec fn row_at(ll: Seq<Seq<Seq<usize>>>, y: int) -> Seq<usize> {
    ll[line_of(ll, y)][local_row(ll, y)]
}

/// The number of graphemes on visual row `y`.
pub open spec fn row_grapheme_len(ll: Seq<Seq<Seq<usize>>>, y: int) -> nat {
    row_at(ll, y).len()
}

/// The number of graphemes on the first `k` rows of one line's layout.
pub open spec fn row_prefix_graphemes(rows: Seq<Seq<usize>>, k: int) -> nat
    decreases k,
{
    if k <= 0 {
        0
    } else {
        row_prefix_graphemes(rows, k - 1) + rows[k - 1].len()
    }
}

/// The number of graphemes of a whole line layout.
pub open spec fn line_graphemes(rows: Seq<Seq<usize>>) -> nat {
    row_prefix_graphemes(rows, rows.len() as int)
}

/// The total cell width of the first `k` graphemes of a row.
pub open spec fn width_prefix(row: Seq<usize>, k: int) -> nat
    decreases k,
{
    if k <= 0 {
        0
    } else {
        width_prefix(row, k - 1) + row[k - 1] as nat
    }
}

/// The visual column of grapheme index `x` on `row`: the cells of the
/// graphemes left of it, or of the whole row when `x` lies beyond it.
pub open spec fn column_of(row: Seq<usize>, x: int) -> nat {
    width_prefix(
        row,
        if x <= row.len() {
            x
        } else {
            row.len() as int
        },
    )
}

/// Where a move to `row` aiming at visual column `col` lands: graphemes are
/// taken from the left for as long as they fit within `col`.
pub open spec fn landing_index(row: Seq<usize>, col: int) -> nat
    decreases row.len(),
{
    if row.len() == 0 {
        0
    } else if row[0] > col {
        0
    } else {
        1 + landing_index(row.drop_first(), col - row[0])
    }
}

/// The cursor resolved to a logical line index and an absolute grapheme
/// index within that line. The zero position short-circuits to the start.
pub open spec fn resolve(ll: Seq<Seq<Seq<usize>>>, x: int, y: int) -> (int, int) {
    if x == 0 && y == 0 {
        (0, 0)
    } else {
        let li = line_of(ll, y);
        (li, row_prefix_graphemes(ll[li], y - rows_before(ll, li)) + x)
    }
}

// ------------------------------------------------------------------
// Lemmas about the coordinate model.
// ------------------------------------------------------------------
pub proof fn lemma_rows_before_mono(ll: Seq<Seq<Seq<usize>>>, a: int, b: int)
    requires
        a <= b,
    ensures
        rows_before(ll, a) <= rows_before(ll, b),
    decreases b,
{
    if a < b && b > 0 {
        lemma_rows_before_mono(ll, a, b - 1);
    }
}

proof fn lemma_owns_exists_from(ll: Seq<Seq<Seq<usize>>>, y: int, i: int)
    requires
        0 <= i <= ll.len(),
        rows_before(ll, i) <= y < total_rows(ll),
    ensures
        exists|li: int| owns_row(ll, y, li),
    decreases ll.len() - i,
{
    if i == ll.len() {
        assert(false);
    } else if y < rows_before(ll, i) + ll[i].len() {
        assert(owns_row(ll, y, i));
    } else {
        assert(rows_before(ll, i + 1) == rows_before(ll, i) + ll[i].len());
        lemma_owns_exists_from(ll, y, i + 1);
    }
}

pub proof fn lemma_owns_unique(ll: Seq<Seq<Seq<usize>>>, y: int, a: int, b: int)
    requires
        owns_row(ll, y, a),
        owns_row(ll, y, b),
    ensures
        a == b,
{
    if a < b {
        assert(rows_before(ll, a + 1) == rows_before(ll, a) + ll[a].len());
        lemma_rows_before_mono(ll, a + 1, b);
    } else if b < a {
        assert(rows_before(ll, b + 1) == rows_before(ll, b) + ll[b].len());
        lemma_rows_before_mono(ll, b + 1, a);
    }
}

/// When some line owns row `y`, `line_of` names exactly that line.
pub proof fn lemma_line_of(ll: Seq<Seq<Seq<usize>>>, y: int, li: int)
    requires
        owns_row(ll, y, li),
    ensures
        line_of(ll, y) == li,
{
    let chosen = line_of(ll, y);
    assert(owns_row(ll, y, chosen)) by {
        assert(exists|c: int| owns_row(ll, y, c));
    }
    lemma_owns_unique(ll, y, chosen, li);
}

/// Every row index below the total is owned by its line.
pub proof fn lemma_row_exists(ll: Seq<Seq<Seq<usize>>>, y: int)
    requires
        0 <= y < total_rows(ll),
    ensures
        owns_row(ll, y, line_of(ll, y)),
{
    lemma_owns_exists_from(ll, y, 0);
    let li = choose|c: int| owns_row(ll, y, c);
    lemma_line_of(ll, y, li);
}

pub proof fn lemma_row_prefix_mono(rows: Seq<Seq<usize>>, a: int, b: int)
    requires
        a <= b,
    ensures
        row_prefix_graphemes(rows, a) <= row_prefix_graphemes(rows, b),
    decreases b,
{
    if a < b && b > 0 {
        lemma_row_prefix_mono(rows, a, b - 1);
    }
}

pub proof fn lemma_width_prefix_mono(row: Seq<usize>, a: int, b: int)
    requires
        a <= b,
    ensures
        width_prefix(row, a) <= width_prefix(row, b),
    decreases b,
{
    if a < b && b > 0 {
        lemma_width_prefix_mono(row, a, b - 1);
    }
}

// ------------------------------------------------------------------
// The engine.
// ------------------------------------------------------------------
/// A wrap-aware text editing engine: it owns the logical line buffer and the
/// cursor, and consumes a word-wrap layout supplied by the caller.
pub struct Text {
    cursor: Position,
    lines: Vec<String>,
    layout: Vec<LineLayout>,
}

impl Text {
    /// The logical lines, as character sequences.
    pub closed spec fn lines_view(&self) -> Seq<Seq<char>> {
        lines_of(self.lines@)
    }

    /// The injected layout, as width sequences.
    pub closed spec fn layout_view(&self) -> Seq<Seq<Seq<usize>>> {
        layouts_of(self.layout@)
    }

    /// The cursor's column (grapheme offset within its visual row).
    pub closed spec fn cursor_x(&self) -> nat {
        self.cursor@.0
    }

    /// The cursor's visual row index.
    pub closed spec fn cursor_y(&self) -> nat {
        self.cursor@.1
    }

    /// Create an engine holding one empty line, the default cursor and no
    /// layout.
    pub fn new() -> (t: Text)
        ensures
            t.lines_view() == seq![Seq::<char>::empty()],
            t.layout_view() == Seq::<Seq<Seq<usize>>>::empty(),
            t.cursor_x() == 0,
            t.cursor_y() == 0,
    {
        let lines = vec![String::new()];
        let t = Text { cursor: Position::default(), lines, layout: Vec::new() };
        proof {
            assert(t.lines_view() =~= seq![Seq::<char>::empty()]);
            assert(t.layout_view() =~= Seq::<Seq<Seq<usize>>>::empty());
        }
        t
    }

    /// The full value: the logical lines joined with nothing in between
    /// (line splits already encode the boundaries).
    pub fn value(&self) -> (r: String)
        ensures
            r@ == concat_lines(self.lines_view(), self.lines_view().len() as int),
    {
        let ghost lv = self.lines_view();
        let mut r = String::new();
        let mut i: usize = 0;
        while i < self.lines.len()
            invariant
                0 <= i <= self.lines.len(),
                lv == self.lines_view(),
                lv.len() == self.lines@.len(),
                r@ == concat_lines(lv, i as int),
            decreases self.lines.len() - i,
        {
            r.append(self.lines[i].as_str());
            i = i + 1;
        }
        r
    }

    /// The logical lines of the buffer.
    pub fn lines(&self) -> (r: &Vec<String>)
        ensures
            lines_of(r@) == self.lines_view(),
    {
        &self.lines
    }

    /// The cursor position in visual-row coordinates.
    pub fn cursor(&self) -> (p: Position)
        ensures
            p@ == (self.cursor_x(), self.cursor_y()),
    {
        self.cursor
    }

    /// Replace the layout wholesale. The caller recomputes it after every
    /// mutation so that navigation stays aligned with the buffer.
    pub fn set_layout(&mut self, layout: Vec<LineLayout>)
        ensures
            final(self).layout_view() == layouts_of(layout@),
            final(self).lines_view() == old(self).lines_view(),
            final(self).cursor_x() == old(self).cursor_x(),
            final(self).cursor_y() == old(self).cursor_y(),
    {
        self.layout = layout;
    }
}

// ------------------------------------------------------------------
// Consistency and per-key safety.
// ------------------------------------------------------------------
/// The caller-maintained consistency contract between lines, layout and
/// cursor: one layout entry per logical line, each with at least one visual
/// row; per line, the layout's grapheme total equals the line's grapheme
/// count; the cursor sits on an existing row, no further right than that
/// row's end. The size bounds keep every row and width sum representable.
pub open spec fn wf_state(
    lines: Seq<Seq<char>>,
    ll: Seq<Seq<Seq<usize>>>,
    x: int,
    y: int,
) -> bool {
    &&& ll.len() == lines.len()
    &&& forall|i: int| 0 <= i < ll.len() ==> (#[trigger] ll[i]).len() >= 1
    &&& forall|i: int|
        0 <= i < ll.len() ==> line_graphemes(#[trigger] ll[i]) == grapheme_count(lines[i])
    &&& forall|i: int| 0 <= i < lines.len() ==> grapheme_split_wf(#[trigger] lines[i])
    &&& forall|i: int| 0 <= i < lines.len() ==> grapheme_count(#[trigger] lines[i]) < usize::MAX
    &&& total_rows(ll) <= usize::MAX
    &&& forall|i: int, r: int|
        0 <= i < ll.len() && 0 <= r < ll[i].len() ==> width_prefix(
            #[trigger] ll[i][r],
            ll[i][r].len() as int,
        ) <= usize::MAX
    &&& 0 <= y < total_rows(ll)
    &&& 0 <= x <= row_grapheme_len(ll, y)
}

/// The cursor can be resolved to a line and grapheme index without leaving
/// any range: its row exists, the owning line exists in the buffer, and the
/// grapheme index is representable.
pub open spec fn resolvable(
    lines: Seq<Seq<char>>,
    ll: Seq<Seq<Seq<usize>>>,
    x: int,
    y: int,
) -> bool {
    if x == 0 && y == 0 {
        lines.len() >= 1
    } else {
        &&& 0 <= y < total_rows(ll)
        &&& line_of(ll, y) < lines.len()
        &&& resolve(ll, x, y).1 <= usize::MAX
    }
}

/// What a key press needs of the state so that it can run to completion:
/// the exact conditions under which a stale or inconsistent layout does not
/// drive any index out of range.
pub open spec fn key_safe(
    key: Key,
    lines: Seq<Seq<char>>,
    ll: Seq<Seq<Seq<usize>>>,
    x: int,
    y: int,
) -> bool {
    match key {
        Key::Char(_) => resolvable(lines, ll, x, y) && x < usize::MAX,
        Key::Backspace => {
            if x > 0 {
                &&& resolvable(lines, ll, x, y)
                &&& resolve(ll, x, y).1 <= grapheme_count(lines[resolve(ll, x, y).0])
            } else if y > 0 {
                &&& resolvable(lines, ll, x, y)
                &&& 1 <= line_of(ll, y)
            } else {
                true
            }
        },
        Key::Delete => {
            &&& 0 <= y < total_rows(ll)
            &&& x < row_grapheme_len(ll, y) ==> resolvable(lines, ll, x, y) && resolve(
                ll,
                x,
                y,
            ).1 < grapheme_count(lines[resolve(ll, x, y).0])
        },
        Key::Enter => resolvable(lines, ll, x, y) && y < usize::MAX,
        Key::Up => y > 0 ==> 0 <= y < total_rows(ll) && width_prefix(
            row_at(ll, y),
            row_at(ll, y).len() as int,
        ) <= usize::MAX,
        Key::Down => total_rows(ll) <= usize::MAX && (y + 1 < total_rows(ll)
            ==> 0 <= y && width_prefix(row_at(ll, y), row_at(ll, y).len() as int) <= usize::MAX),
        Key::Left => (x == 0 && y > 0) ==> y - 1 < total_rows(ll),
        Key::Right => 0 <= y < total_rows(ll) && total_rows(ll) <= usize::MAX,
        Key::Home => true,
        Key::End => 0 <= y < total_rows(ll),
    }
}

// ------------------------------------------------------------------
// The per-key transitions.
// ------------------------------------------------------------------
/// Inserting `ch` at the cursor: the character lands at the byte-exact spot
/// of the resolved grapheme; the cursor advances one column only when the
/// line's grapheme count grew (a combining input must not move it).
pub open spec fn char_post(
    lines: Seq<Seq<char>>,
    ll: Seq<Seq<Seq<usize>>>,
    x: int,
    y: int,
    ch: char,
    lines1: Seq<Seq<char>>,
    x1: int,
    y1: int,
) -> bool {
    let li = resolve(ll, x, y).0;
    let g = resolve(ll, x, y).1;
    let s = lines[li];
    let off = grapheme_offset(s, g) as int;
    let s1 = s.subrange(0, off) + seq![ch] + s.subrange(off, s.len() as int);
    &&& lines1 == lines.update(li, s1)
    &&& y1 == y
    &&& x1 == if grapheme_count(s1) > grapheme_count(s) {
        x + 1
    } else {
        x
    }
}

/// Backspace: left of the cursor within a row, the preceding grapheme of
/// the resolved line goes; at the start of a row below the first, the
/// resolved line is appended to the previous logical line and removed, and
/// the cursor moves to the end of the previous visual row. At the absolute
/// start nothing happens.
pub open spec fn backspace_post(
    lines: Seq<Seq<char>>,
    ll: Seq<Seq<Seq<usize>>>,
    x: int,
    y: int,
    lines1: Seq<Seq<char>>,
    x1: int,
    y1: int,
) -> bool {
    let li = resolve(ll, x, y).0;
    let g = resolve(ll, x, y).1;
    if x > 0 {
        let s = lines[li];
        let a = grapheme_offset(s, g - 1) as int;
        let b = grapheme_offset(s, g) as int;
        &&& lines1 == lines.update(li, s.subrange(0, a) + s.subrange(b, s.len() as int))
        &&& x1 == x - 1
        &&& y1 == y
    } else if y > 0 {
        &&& lines1 == lines.update(li - 1, lines[li - 1] + lines[li]).remove(li)
        &&& x1 == row_grapheme_len(ll, y - 1)
        &&& y1 == y - 1
    } else {
        &&& lines1 == lines
        &&& x1 == x
        &&& y1 == y
    }
}

/// Delete: within a row, the grapheme under the cursor goes and the cursor
/// stays; at or past the row's end nothing happens (no line merge).
pub open spec fn delete_post(
    lines: Seq<Seq<char>>,
    ll: Seq<Seq<Seq<usize>>>,
    x: int,
    y: int,
    lines1: Seq<Seq<char>>,
) -> bool {
    if x < row_grapheme_len(ll, y) {
        let li = resolve(ll, x, y).0;
        let g = resolve(ll, x, y).1;
        let s = lines[li];
        lines1 == lines.update(
            li,
            s.subrange(0, grapheme_offset(s, g) as int) + s.subrange(
                grapheme_offset(s, g + 1) as int,
                s.len() as int,
            ),
        )
    } else {
        lines1 == lines
    }
}

/// Enter: the resolved line splits at the cursor's grapheme boundary, the
/// suffix becomes a fresh line right below, and the cursor moves to the
/// start of the next visual row.
pub open spec fn enter_post(
    lines: Seq<Seq<char>>,
    ll: Seq<Seq<Seq<usize>>>,
    x: int,
    y: int,
    lines1: Seq<Seq<char>>,
    x1: int,
    y1: int,
) -> bool {
    let li = resolve(ll, x, y).0;
    let g = resolve(ll, x, y).1;
    let s = lines[li];
    let off = grapheme_offset(s, g) as int;
    &&& lines1 == lines.update(li, s.subrange(0, off)).insert(li + 1, s.subrange(off, s.len() as int))
    &&& x1 == 0
    &&& y1 == y + 1
}

/// Up preserves the visual column, not the grapheme index: on the row above
/// the cursor lands on the last grapheme whose cells still fit within the
/// current column.
pub open spec fn up_cursor(ll: Seq<Seq<Seq<usize>>>, x: int, y: int, x1: int, y1: int) -> bool {
    if y > 0 {
        &&& x1 == landing_index(row_at(ll, y - 1), column_of(row_at(ll, y), x) as int)
        &&& y1 == y - 1
    } else {
        x1 == x && y1 == y
    }
}

/// Down mirrors Up towards the row below, bounded by the total row count.
pub open spec fn down_cursor(ll: Seq<Seq<Seq<usize>>>, x: int, y: int, x1: int, y1: int) -> bool {
    if y + 1 < total_rows(ll) {
        &&& x1 == landing_index(row_at(ll, y + 1), column_of(row_at(ll, y), x) as int)
        &&& y1 == y + 1
    } else {
        x1 == x && y1 == y
    }
}

/// Left steps one grapheme back, wrapping to the end of the previous visual
/// row; a no-op at the absolute start.
pub open spec fn left_cursor(ll: Seq<Seq<Seq<usize>>>, x: int, y: int, x1: int, y1: int) -> bool {
    if x > 0 {
        x1 == x - 1 && y1 == y
    } else if y > 0 {
        x1 == row_grapheme_len(ll, y - 1) && y1 == y - 1
    } else {
        x1 == x && y1 == y
    }
}

/// Right steps one grapheme forward, wrapping to the start of the next
/// visual row; a no-op at the very last row's end.
pub open spec fn right_cursor(ll: Seq<Seq<Seq<usize>>>, x: int, y: int, x1: int, y1: int) -> bool {
    if x < row_grapheme_len(ll, y) {
        x1 == x + 1 && y1 == y
    } else if y + 1 < total_rows(ll) {
        x1 == 0 && y1 == y + 1
    } else {
        x1 == x && y1 == y
    }
}

/// What one key press does to the lines and the cursor, given the layout.
pub open spec fn key_post(
    key: Key,
    lines: Seq<Seq<char>>,
    ll: Seq<Seq<Seq<usize>>>,
    x: int,
    y: int,
    lines1: Seq<Seq<char>>,
    x1: int,
    y1: int,
) -> bool {
    match key {
        Key::Char(ch) => char_post(lines, ll, x, y, ch, lines1, x1, y1),
        Key::Backspace => backspace_post(lines, ll, x, y, lines1, x1, y1),
        Key::Delete => delete_post(lines, ll, x, y, lines1) && x1 == x && y1 == y,
        Key::Enter => enter_post(lines, ll, x, y, lines1, x1, y1),
        Key::Up => lines1 == lines && up_cursor(ll, x, y, x1, y1),
        Key::Down => lines1 == lines && down_cursor(ll, x, y, x1, y1),
        Key::Left => lines1 == lines && left_cursor(ll, x, y, x1, y1),
        Key::Right => lines1 == lines && right_cursor(ll, x, y, x1, y1),
        Key::Home => lines1 == lines && x1 == 0 && y1 == y,
        Key::End => lines1 == lines && x1 == row_grapheme_len(ll, y) && y1 == y,
    }
}

// ------------------------------------------------------------------
// Executable coordinate resolution.
// ------------------------------------------------------------------
/// The character offset at which grapheme `g` of `line` starts (the end of
/// the line when `g` lies at or past its last cluster).
fn goffset_of(line: &String, g: usize) -> (off: usize)
    ensures
        off == grapheme_offset(line@, g as int),
        off <= line@.len(),
        grapheme_split_wf(line@),
{
    let lens = grapheme_lens(line.as_str());
    let ghost segs = grapheme_split(line@);
    let m = if g < lens.len() {
        g
    } else {
        lens.len()
    };
    let n = char_len(line.as_str());
    proof {
        lemma_cluster_prefix_all(segs, segs.len() as int);
        assert(segs.subrange(0, segs.len() as int) =~= segs);
    }
    let mut off: usize = 0;
    let mut j: usize = 0;
    while j < m
        invariant
            0 <= j <= m,
            m <= lens.len(),
            grapheme_lens_post(line@, lens@),
            segs == grapheme_split(line@),
            n == line@.len(),
            cluster_prefix_len(segs, segs.len() as int) == n,
            off == cluster_prefix_len(segs, j as int),
        decreases m - j,
    {
        proof {
            lemma_cluster_prefix_mono(segs, j as int + 1, segs.len() as int);
        }
        off = off + lens[j];
        j = j + 1;
    }
    proof {
        lemma_cluster_prefix_mono(segs, m as int, segs.len() as int);
    }
    off
}

/// Where a move into a row of the given widths lands when it aims at visual
/// column `col`.
fn landing_on(widths: &Vec<usize>, col: usize) -> (g: usize)
    ensures
        g == landing_index(widths@, col as int),
        g <= widths@.len(),
{
    let ghost row = widths@;
    let mut i: usize = 0;
    let mut rem: usize = col;
    proof {
        assert(row.skip(0) =~= row);
    }
    loop
        invariant
            0 <= i <= row.len(),
            row == widths@,
            rem <= col,
            landing_index(row, col as int) == i + landing_index(row.skip(i as int), rem as int),
        decreases row.len() - i,
    {
        if i == widths.len() {
            proof {
                assert(row.skip(i as int) =~= Seq::<usize>::empty());
            }
            return i;
        }
        let w = widths[i];
        proof {
            assert(row.skip(i as int).len() > 0);
            assert(row.skip(i as int)[0] == row[i as int]);
        }
        if w > rem {
            return i;
        }
        proof {
            assert(row.skip(i as int).drop_first() =~= row.skip(i as int + 1));
        }
        rem = rem - w;
        i = i + 1;
    }
}

impl Text {
    /// Find the logical line owning visual row `y`, and `y`'s position
    /// among that line's rows.
    fn find_row(&self, y: usize) -> (r: (usize, usize))
        requires
            y < total_rows(self.layout_view()),
        ensures
            owns_row(self.layout_view(), y as int, r.0 as int),
            r.1 == y - rows_before(self.layout_view(), r.0 as int),
            line_of(self.layout_view(), y as int) == r.0 as int,
            local_row(self.layout_view(), y as int) == r.1 as int,
    {
        let ghost ll = self.layout_view();
        let mut li: usize = 0;
        let mut row: usize = 0;
        loop
            invariant
                0 <= li <= self.layout.len(),
                ll == self.layout_view(),
                ll.len() == self.layout@.len(),
                y < total_rows(ll),
                row == rows_before(ll, li as int),
                row <= y,
            decreases self.layout.len() - li,
        {
            proof {
                if li == self.layout@.len() {
                    assert(rows_before(ll, li as int) == total_rows(ll));
                    assert(false);
                }
            }
            let rows = self.layout[li].rows();
            let cnt = rows.len();
            proof {
                assert(ll[li as int] == self.layout@[li as int]@);
                assert(rows_view(rows@).len() == rows@.len());
            }
            if cnt > y - row {
                proof {
                    assert(owns_row(ll, y as int, li as int));
                    lemma_line_of(ll, y as int, li as int);
                }
                return (li, y - row);
            }
            row = row + cnt;
            li = li + 1;
        }
    }

    /// The total number of visual rows across all logical lines.
    fn total_row_count(&self) -> (n: usize)
        requires
            total_rows(self.layout_view()) <= usize::MAX,
        ensures
            n == total_rows(self.layout_view()),
    {
        let ghost ll = self.layout_view();
        let mut n: usize = 0;
        let mut li: usize = 0;
        while li < self.layout.len()
            invariant
                0 <= li <= self.layout.len(),
                ll == self.layout_view(),
                ll.len() == self.layout@.len(),
                total_rows(ll) <= usize::MAX,
                n == rows_before(ll, li as int),
            decreases self.layout.len() - li,
        {
            let rows = self.layout[li].rows();
            let cnt = rows.len();
            proof {
                assert(ll[li as int] == self.layout@[li as int]@);
                assert(rows_view(rows@).len() == rows@.len());
                lemma_rows_before_mono(ll, li as int + 1, ll.len() as int);
            }
            n = n + cnt;
            li = li + 1;
        }
        n
    }

    /// The grapheme count of visual row `y`.
    fn row_len_at(&self, y: usize) -> (n: usize)
        requires
            y < total_rows(self.layout_view()),
        ensures
            n == row_grapheme_len(self.layout_view(), y as int),
    {
        let (li, lr) = self.find_row(y);
        let ghost ll = self.layout_view();
        let rows = self.layout[li].rows();
        proof {
            assert(ll[li as int] == self.layout@[li as int]@);
            assert(rows_view(rows@)[lr as int] == rows@[lr as int]@);
        }
        let widths = rows[lr].widths();
        widths.len()
    }

    /// The cursor resolved to its logical line and the absolute grapheme
    /// index within it.
    fn resolve_cursor(&self) -> (r: (usize, usize))
        requires
            resolvable(
                self.lines_view(),
                self.layout_view(),
                self.cursor_x() as int,
                self.cursor_y() as int,
            ),
        ensures
            r.0 as int == resolve(
                self.layout_view(),
                self.cursor_x() as int,
                self.cursor_y() as int,
            ).0,
            r.1 as int == resolve(
                self.layout_view(),
                self.cursor_x() as int,
                self.cursor_y() as int,
            ).1,
            r.0 < self.lines@.len(),
    {
        let ghost ll = self.layout_view();
        let x = self.cursor.x();
        let y = self.cursor.y();
        if x == 0 && y == 0 {
            return (0, 0);
        }
        let (li, lr) = self.find_row(y);
        let rows = self.layout[li].rows();
        proof {
            assert(ll[li as int] == self.layout@[li as int]@);
        }
        let mut acc: usize = 0;
        let mut j: usize = 0;
        while j < lr
            invariant
                0 <= j <= lr,
                lr < rows_view(rows@).len(),
                rows_view(rows@) == ll[li as int],
                0 <= li < ll.len(),
                acc == row_prefix_graphemes(ll[li as int], j as int),
                row_prefix_graphemes(ll[li as int], lr as int) + x <= usize::MAX,
                x == self.cursor_x(),
            decreases lr - j,
        {
            let cnt = rows[j].widths().len();
            proof {
                assert(rows_view(rows@)[j as int] == rows@[j as int]@);
                lemma_row_prefix_mono(ll[li as int], j as int + 1, lr as int);
            }
            acc = acc + cnt;
            j = j + 1;
        }
        (li, acc + x)
    }

    /// The cursor's visual display column: the cells of the graphemes to
    /// its left on its own row.
    fn column_at_cursor(&self) -> (c: usize)
        requires
            self.cursor_y() < total_rows(self.layout_view()),
            width_prefix(
                row_at(self.layout_view(), self.cursor_y() as int),
                row_at(self.layout_view(), self.cursor_y() as int).len() as int,
            ) <= usize::MAX,
        ensures
            c == column_of(
                row_at(self.layout_view(), self.cursor_y() as int),
                self.cursor_x() as int,
            ),
    {
        let ghost ll = self.layout_view();
        let x = self.cursor.x();
        let y = self.cursor.y();
        let (li, lr) = self.find_row(y);
        let rows = self.layout[li].rows();
        proof {
            assert(ll[li as int] == self.layout@[li as int]@);
            assert(rows_view(rows@)[lr as int] == rows@[lr as int]@);
        }
        let widths = rows[lr].widths();
        let ghost row = row_at(ll, y as int);
        let m = if x < widths.len() {
            x
        } else {
            widths.len()
        };
        let mut c: usize = 0;
        let mut j: usize = 0;
        while j < m
            invariant
                0 <= j <= m,
                m <= widths@.len(),
                widths@ == row,
                width_prefix(row, row.len() as int) <= usize::MAX,
                c == width_prefix(row, j as int),
            decreases m - j,
        {
            proof {
                lemma_width_prefix_mono(row, j as int + 1, row.len() as int);
            }
            c = c + widths[j];
            j = j + 1;
        }
        c
    }
}

// ------------------------------------------------------------------
// View bookkeeping for the line buffer.
// ------------------------------------------------------------------
pub(crate) proof fn lemma_lines_of_push(ss: Seq<String>, v: String)
    ensures
        lines_of(ss.push(v)) == lines_of(ss).push(v@),
{
    assert(lines_of(ss.push(v)) =~= lines_of(ss).push(v@));
}

pub(crate) proof fn lemma_lines_of_update(ss: Seq<String>, i: int, v: String)
    requires
        0 <= i < ss.len(),
    ensures
        lines_of(ss.update(i, v)) == lines_of(ss).update(i, v@),
{
    assert(lines_of(ss.update(i, v)) =~= lines_of(ss).update(i, v@));
}

pub(crate) proof fn lemma_lines_of_remove(ss: Seq<String>, i: int)
    requires
        0 <= i < ss.len(),
    ensures
        lines_of(ss.remove(i)) == lines_of(ss).remove(i),
{
    assert(lines_of(ss.remove(i)) =~= lines_of(ss).remove(i));
}

pub(crate) proof fn lemma_lines_of_insert(ss: Seq<String>, i: int, v: String)
    requires
        0 <= i <= ss.len(),
    ensures
        lines_of(ss.insert(i, v)) == lines_of(ss).insert(i, v@),
{
    assert(lines_of(ss.insert(i, v)) =~= lines_of(ss).insert(i, v@));
}

// ------------------------------------------------------------------
// The operations.
// ------------------------------------------------------------------
impl Text {
    /// Insert `ch` at the cursor's grapheme boundary. The cursor advances
    /// only when the line's grapheme count grew: a character that combined
    /// with an existing cluster leaves it in place.
    fn insert_character(&mut self, ch: char)
        requires
            key_safe(
                Key::Char(ch),
                old(self).lines_view(),
                old(self).layout_view(),
                old(self).cursor_x() as int,
                old(self).cursor_y() as int,
            ),
        ensures
            final(self).layout_view() == old(self).layout_view(),
            char_post(
                old(self).lines_view(),
                old(self).layout_view(),
                old(self).cursor_x() as int,
                old(self).cursor_y() as int,
                ch,
                final(self).lines_view(),
                final(self).cursor_x() as int,
                final(self).cursor_y() as int,
            ),
    {
        let (li, g) = self.resolve_cursor();
        let ghost s = self.lines_view()[li as int];
        let before = grapheme_lens(self.lines[li].as_str()).len();
        let off = goffset_of(&self.lines[li], g);
        let s1 = insert_char(self.lines[li].as_str(), off, ch);
        proof {
            assert(self.lines_view()[li as int] == self.lines@[li as int]@);
            lemma_lines_of_update(self.lines@, li as int, s1);
        }
        self.lines.set(li, s1);
        let after = grapheme_lens(self.lines[li].as_str()).len();
        if after > before {
            let x = self.cursor.x();
            self.cursor = self.cursor.set_x(x + 1);
        }
    }

    /// Remove the grapheme left of the cursor, or, at the start of a row
    /// below the first, merge the resolved line into the previous one.
    fn backspace(&mut self)
        requires
            key_safe(
                Key::Backspace,
                old(self).lines_view(),
                old(self).layout_view(),
                old(self).cursor_x() as int,
                old(self).cursor_y() as int,
            ),
        ensures
            final(self).layout_view() == old(self).layout_view(),
            backspace_post(
                old(self).lines_view(),
                old(self).layout_view(),
                old(self).cursor_x() as int,
                old(self).cursor_y() as int,
                final(self).lines_view(),
                final(self).cursor_x() as int,
                final(self).cursor_y() as int,
            ),
    {
        let x = self.cursor.x();
        let y = self.cursor.y();
        if x > 0 {
            let (li, g) = self.resolve_cursor();
            let a = goffset_of(&self.lines[li], g - 1);
            let b = goffset_of(&self.lines[li], g);
            proof {
                lemma_grapheme_offset_in_range(self.lines@[li as int]@, g as int - 1);
                assert(self.lines_view()[li as int] == self.lines@[li as int]@);
            }
            let s1 = remove_char_range(self.lines[li].as_str(), a, b);
            proof {
                lemma_lines_of_update(self.lines@, li as int, s1);
            }
            self.lines.set(li, s1);
            self.cursor = self.cursor.set_x(x - 1);
        } else if y > 0 {
            let (li, g) = self.resolve_cursor();
            let plen = self.row_len_at(y - 1);
            self.cursor = Position::new(plen, y - 1);
            let moved = self.lines[li].clone();
            let merged = concat_str(self.lines[li - 1].as_str(), moved.as_str());
            proof {
                assert(self.lines_view()[li as int] == self.lines@[li as int]@);
                assert(self.lines_view()[li as int - 1] == self.lines@[li as int - 1]@);
                lemma_lines_of_update(self.lines@, li as int - 1, merged);
                lemma_lines_of_remove(self.lines@.update(li as int - 1, merged), li as int);
            }
            self.lines.set(li - 1, merged);
            self.lines.remove(li);
        }
    }

    /// Remove the grapheme under the cursor when it sits within its row;
    /// past the row's end nothing happens and no line merge takes place.
    fn delete(&mut self)
        requires
            key_safe(
                Key::Delete,
                old(self).lines_view(),
                old(self).layout_view(),
                old(self).cursor_x() as int,
                old(self).cursor_y() as int,
            ),
        ensures
            final(self).layout_view() == old(self).layout_view(),
            final(self).cursor_x() == old(self).cursor_x(),
            final(self).cursor_y() == old(self).cursor_y(),
            delete_post(
                old(self).lines_view(),
                old(self).layout_view(),
                old(self).cursor_x() as int,
                old(self).cursor_y() as int,
                final(self).lines_view(),
            ),
    {
        let y = self.cursor.y();
        let rl = self.row_len_at(y);
        let x = self.cursor.x();
        if x < rl {
            let (li, g) = self.resolve_cursor();
            let cnt = grapheme_lens(self.lines[li].as_str()).len();
            proof {
                assert(self.lines_view()[li as int] == self.lines@[li as int]@);
                assert((g as int) < cnt as int);
            }
            let a = goffset_of(&self.lines[li], g);
            let b = goffset_of(&self.lines[li], g + 1);
            proof {
                lemma_grapheme_offset_in_range(self.lines@[li as int]@, g as int);
            }
            let s1 = remove_char_range(self.lines[li].as_str(), a, b);
            proof {
                lemma_lines_of_update(self.lines@, li as int, s1);
            }
            self.lines.set(li, s1);
        }
    }

    /// Split the resolved line at the cursor's grapheme boundary; the
    /// suffix becomes a fresh logical line just below, and the cursor moves
    /// to the start of the next visual row.
    fn insert_newline(&mut self)
        requires
            key_safe(
                Key::Enter,
                old(self).lines_view(),
                old(self).layout_view(),
                old(self).cursor_x() as int,
                old(self).cursor_y() as int,
            ),
        ensures
            final(self).layout_view() == old(self).layout_view(),
            enter_post(
                old(self).lines_view(),
                old(self).layout_view(),
                old(self).cursor_x() as int,
                old(self).cursor_y() as int,
                final(self).lines_view(),
                final(self).cursor_x() as int,
                final(self).cursor_y() as int,
            ),
    {
        let (li, g) = self.resolve_cursor();
        let off = goffset_of(&self.lines[li], g);
        let n = char_len(self.lines[li].as_str());
        proof {
            assert(self.lines_view()[li as int] == self.lines@[li as int]@);
        }
        let prefix = substring(self.lines[li].as_str(), 0, off);
        let suffix = substring(self.lines[li].as_str(), off, n);
        proof {
            lemma_lines_of_update(self.lines@, li as int, prefix);
            lemma_lines_of_insert(self.lines@.update(li as int, prefix), li as int + 1, suffix);
        }
        self.lines.set(li, prefix);
        let line_count = self.lines.len();
        proof {
            assert(li < line_count);
        }
        self.lines.insert(li + 1, suffix);
        let y = self.cursor.y();
        self.cursor = Position::new(0, y + 1);
    }

    /// Move the cursor one visual row up, keeping its visual column.
    fn move_up(&mut self)
        requires
            key_safe(
                Key::Up,
                old(self).lines_view(),
                old(self).layout_view(),
                old(self).cursor_x() as int,
                old(self).cursor_y() as int,
            ),
        ensures
            final(self).layout_view() == old(self).layout_view(),
            final(self).lines_view() == old(self).lines_view(),
            up_cursor(
                old(self).layout_view(),
                old(self).cursor_x() as int,
                old(self).cursor_y() as int,
                final(self).cursor_x() as int,
                final(self).cursor_y() as int,
            ),
    {
        let y = self.cursor.y();
        if y > 0 {
            let col = self.column_at_cursor();
            let (li, lr) = self.find_row(y - 1);
            let rows = self.layout[li].rows();
            proof {
                assert(self.layout_view()[li as int] == self.layout@[li as int]@);
                assert(rows_view(rows@)[lr as int] == rows@[lr as int]@);
            }
            let widths = rows[lr].widths();
            let g = landing_on(widths, col);
            self.cursor = Position::new(g, y - 1);
        }
    }

    /// Move the cursor one visual row down, keeping its visual column.
    fn move_down(&mut self)
        requires
            key_safe(
                Key::Down,
                old(self).lines_view(),
                old(self).layout_view(),
                old(self).cursor_x() as int,
                old(self).cursor_y() as int,
            ),
        ensures
            final(self).layout_view() == old(self).layout_view(),
            final(self).lines_view() == old(self).lines_view(),
            down_cursor(
                old(self).layout_view(),
                old(self).cursor_x() as int,
                old(self).cursor_y() as int,
                final(self).cursor_x() as int,
                final(self).cursor_y() as int,
            ),
    {
        let total = self.total_row_count();
        let y = self.cursor.y();
        if total > 0 && y < total - 1 {
            let col = self.column_at_cursor();
            let (li, lr) = self.find_row(y + 1);
            let rows = self.layout[li].rows();
            proof {
                assert(self.layout_view()[li as int] == self.layout@[li as int]@);
                assert(rows_view(rows@)[lr as int] == rows@[lr as int]@);
            }
            let widths = rows[lr].widths();
            let g = landing_on(widths, col);
            self.cursor = Position::new(g, y + 1);
        }
    }

    /// Move the cursor one grapheme left, wrapping to the end of the
    /// previous visual row; a no-op at the absolute start.
    fn move_left(&mut self)
        requires
            key_safe(
                Key::Left,
                old(self).lines_view(),
                old(self).layout_view(),
                old(self).cursor_x() as int,
                old(self).cursor_y() as int,
            ),
        ensures
            final(self).layout_view() == old(self).layout_view(),
            final(self).lines_view() == old(self).lines_view(),
            left_cursor(
                old(self).layout_view(),
                old(self).cursor_x() as int,
                old(self).cursor_y() as int,
                final(self).cursor_x() as int,
                final(self).cursor_y() as int,
            ),
    {
        let x = self.cursor.x();
        let y = self.cursor.y();
        if x > 0 {
            self.cursor = self.cursor.set_x(x - 1);
        } else if y > 0 {
            let plen = self.row_len_at(y - 1);
            self.cursor = Position::new(plen, y - 1);
        }
    }

    /// Move the cursor one grapheme right, wrapping to the start of the
    /// next visual row; a no-op at the very end.
    fn move_right(&mut self)
        requires
            key_safe(
                Key::Right,
                old(self).lines_view(),
                old(self).layout_view(),
                old(self).cursor_x() as int,
                old(self).cursor_y() as int,
            ),
        ensures
            final(self).layout_view() == old(self).layout_view(),
            final(self).lines_view() == old(self).lines_view(),
            right_cursor(
                old(self).layout_view(),
                old(self).cursor_x() as int,
                old(self).cursor_y() as int,
                final(self).cursor_x() as int,
                final(self).cursor_y() as int,
            ),
    {
        let y = self.cursor.y();
        let rl = self.row_len_at(y);
        let x = self.cursor.x();
        if x < rl {
            self.cursor = self.cursor.set_x(x + 1);
        } else {
            let total = self.total_row_count();
            if total > 0 && y < total - 1 {
                self.cursor = Position::new(0, y + 1);
            }
        }
    }

    /// Update the engine's state from one key press. The caller keeps the
    /// layout aligned with the lines; `key_safe` states exactly what this
    /// operation needs of that alignment, and `wf_state` implies it. See
    /// `update_checked` for an entry point that tests the alignment itself.
    pub fn update(&mut self, key: Key)
        requires
            key_safe(
                key,
                old(self).lines_view(),
                old(self).layout_view(),
                old(self).cursor_x() as int,
                old(self).cursor_y() as int,
            ),
        ensures
            final(self).layout_view() == old(self).layout_view(),
            key_post(
                key,
                old(self).lines_view(),
                old(self).layout_view(),
                old(self).cursor_x() as int,
                old(self).cursor_y() as int,
                final(self).lines_view(),
                final(self).cursor_x() as int,
                final(self).cursor_y() as int,
            ),
    {
        match key {
            Key::Char(ch) => self.insert_character(ch),
            Key::Backspace => self.backspace(),
            Key::Delete => self.delete(),
            Key::Enter => self.insert_newline(),
            Key::Up => self.move_up(),
            Key::Down => self.move_down(),
            Key::Left => self.move_left(),
            Key::Right => self.move_right(),
            Key::Home => {
                self.cursor = self.cursor.set_x(0);
            },
            Key::End => {
                let y = self.cursor.y();
                let rl = self.row_len_at(y);
                self.cursor = self.cursor.set_x(rl);
            },
        }
    }
}

// ------------------------------------------------------------------
// Consistency implies safety; the checked entry point.
// ------------------------------------------------------------------
/// Under `rows_before`, line indices can only move the count up when every
/// line has at least one row.
pub proof fn lemma_rows_before_at_least(ll: Seq<Seq<Seq<usize>>>, li: int)
    requires
        0 <= li <= ll.len(),
        forall|i: int| 0 <= i < ll.len() ==> (#[trigger] ll[i]).len() >= 1,
    ensures
        rows_before(ll, li) >= li,
    decreases li,
{
    if li > 0 {
        lemma_rows_before_at_least(ll, li - 1);
    }
}

/// Under a consistent state the resolved cursor names the line owning its
/// row, and a grapheme index that does not pass the line's end.
pub proof fn lemma_resolve_under_wf(
    lines: Seq<Seq<char>>,
    ll: Seq<Seq<Seq<usize>>>,
    x: int,
    y: int,
)
    requires
        wf_state(lines, ll, x, y),
    ensures
        resolve(ll, x, y).0 == line_of(ll, y),
        resolve(ll, x, y).1 == row_prefix_graphemes(
            ll[line_of(ll, y)],
            y - rows_before(ll, line_of(ll, y)),
        ) + x,
        0 <= line_of(ll, y) < lines.len(),
        resolve(ll, x, y).1 <= grapheme_count(lines[line_of(ll, y)]),
{
    lemma_row_exists(ll, y);
    let li = line_of(ll, y);
    let lr = y - rows_before(ll, li);
    if x == 0 && y == 0 {
        lemma_rows_before_at_least(ll, li);
    }
    assert(row_prefix_graphemes(ll[li], lr + 1) == row_prefix_graphemes(ll[li], lr) + ll[li][
        lr
    ].len());
    lemma_row_prefix_mono(ll[li], lr + 1, ll[li].len() as int);
}

/// Width prefixes shift by the head grapheme when a row loses it.
pub(crate) proof fn lemma_width_prefix_shift(row: Seq<usize>, j: int)
    requires
        row.len() >= 1,
        0 <= j <= row.len() - 1,
    ensures
        width_prefix(row, j + 1) == row[0] + width_prefix(row.drop_first(), j),
    decreases j,
{
    let t = row.drop_first();
    if j == 0 {
        assert(width_prefix(row, 1) == width_prefix(row, 0) + row[0] as nat);
        assert(width_prefix(t, 0) == 0);
    } else {
        lemma_width_prefix_shift(row, j - 1);
        assert(t[j - 1] == row[j]);
        assert(width_prefix(t, j) == width_prefix(t, j - 1) + t[j - 1] as nat);
        assert(width_prefix(row, j + 1) == width_prefix(row, j) + row[j] as nat);
    }
}

/// The landing index is the longest prefix of the row whose cells still
/// fit within the column.
pub proof fn lemma_landing_char(row: Seq<usize>, col: int)
    requires
        col >= 0,
    ensures
        landing_index(row, col) <= row.len(),
        width_prefix(row, landing_index(row, col) as int) <= col,
        landing_index(row, col) < row.len() ==> width_prefix(
            row,
            landing_index(row, col) as int + 1,
        ) > col,
    decreases row.len(),
{
    if row.len() == 0 {
    } else if row[0] > col {
    } else {
        let t = row.drop_first();
        lemma_landing_char(t, col - row[0]);
        let k = landing_index(t, col - row[0]) as int;
        lemma_width_prefix_shift(row, k);
        if k + 1 <= row.len() - 1 {
            lemma_width_prefix_shift(row, k + 1);
        }
    }
}

/// Any index that fits the column, and whose successor does not, is the
/// landing index.
pub proof fn lemma_landing_unique(row: Seq<usize>, col: int, m: int)
    requires
        col >= 0,
        0 <= m <= row.len(),
        width_prefix(row, m) <= col,
        m < row.len() ==> width_prefix(row, m + 1) > col,
    ensures
        landing_index(row, col) == m,
{
    let k = landing_index(row, col) as int;
    lemma_landing_char(row, col);
    if k < m {
        lemma_width_prefix_mono(row, k + 1, m);
        assert(false);
    } else if m < k {
        lemma_width_prefix_mono(row, m + 1, k);
        assert(false);
    }
}

/// A consistent state admits every key press, except that a backspace at
/// the start of a soft-wrapped row of the very first logical line has no
/// previous line to merge into.
pub proof fn lemma_wf_implies_key_safe(
    key: Key,
    lines: Seq<Seq<char>>,
    ll: Seq<Seq<Seq<usize>>>,
    x: int,
    y: int,
)
    requires
        wf_state(lines, ll, x, y),
        (key is Backspace && x == 0 && y > 0) ==> line_of(ll, y) >= 1,
    ensures
        key_safe(key, lines, ll, x, y),
{
    lemma_row_exists(ll, y);
    let li = line_of(ll, y);
    let lr = y - rows_before(ll, li);
    assert(ll.len() >= 1);
    assert(row_prefix_graphemes(ll[li], lr + 1) == row_prefix_graphemes(ll[li], lr) + ll[li][
        lr
    ].len());
    lemma_row_prefix_mono(ll[li], lr + 1, ll[li].len() as int);
    assert(row_prefix_graphemes(ll[li], lr) + row_grapheme_len(ll, y) <= line_graphemes(ll[li]));
    if x == 0 && y == 0 {
        assert(resolvable(lines, ll, x, y));
    } else {
        assert(resolve(ll, x, y).1 == row_prefix_graphemes(ll[li], lr) + x);
        assert(resolve(ll, x, y).1 <= grapheme_count(lines[li]));
        assert(resolvable(lines, ll, x, y));
    }
    match key {
        Key::Char(_) => {
            assert(x <= row_grapheme_len(ll, y));
            assert(row_grapheme_len(ll, y) <= grapheme_count(lines[li]));
        },
        Key::Delete => {
            if x < row_grapheme_len(ll, y) {
                if x == 0 && y == 0 {
                    lemma_rows_before_at_least(ll, li);
                    if li > 0 {
                        lemma_rows_before_mono(ll, 1, li);
                        assert(rows_before(ll, 1) == ll[0].len());
                        assert(false);
                    }
                    assert(resolve(ll, x, y).1 == 0);
                    assert(row_grapheme_len(ll, y) <= grapheme_count(lines[0]));
                } else {
                    assert(resolve(ll, x, y).1 < grapheme_count(lines[li]));
                }
            }
        },
        _ => {},
    }
}

impl Text {
    /// The engine's own consistency statement over its current fields.
    pub open spec fn wf(&self) -> bool {
        wf_state(
            self.lines_view(),
            self.layout_view(),
            self.cursor_x() as int,
            self.cursor_y() as int,
        )
    }

    /// Decide at run time whether the current lines, layout and cursor are
    /// consistent with one another.
    pub fn check_wf(&self) -> (b: bool)
        ensures
            b == self.wf(),
    {
        let ghost ll = self.layout_view();
        let ghost lv = self.lines_view();
        if self.layout.len() != self.lines.len() {
            return false;
        }
        let mut total: usize = 0;
        let mut i: usize = 0;
        while i < self.layout.len()
            invariant
                0 <= i <= self.layout.len(),
                ll == self.layout_view(),
                lv == self.lines_view(),
                ll.len() == self.layout@.len(),
                lv.len() == self.lines@.len(),
                ll.len() == lv.len(),
                total == rows_before(ll, i as int),
                forall|j: int| 0 <= j < i ==> (#[trigger] ll[j]).len() >= 1,
                forall|j: int|
                    0 <= j < i ==> line_graphemes(#[trigger] ll[j]) == grapheme_count(lv[j]),
                forall|j: int| 0 <= j < i ==> grapheme_split_wf(#[trigger] lv[j]),
                forall|j: int| 0 <= j < i ==> grapheme_count(#[trigger] lv[j]) < usize::MAX,
                forall|j: int, r: int|
                    0 <= j < i && 0 <= r < ll[j].len() ==> width_prefix(
                        #[trigger] ll[j][r],
                        ll[j][r].len() as int,
                    ) <= usize::MAX,
            decreases self.layout.len() - i,
        {
            let rows = self.layout[i].rows();
            proof {
                assert(ll[i as int] == self.layout@[i as int]@);
                assert(rows_view(rows@).len() == rows@.len());
                assert(lv[i as int] == self.lines@[i as int]@);
            }
            if rows.len() == 0 {
                return false;
            }
            let lens = grapheme_lens(self.lines[i].as_str());
            let gcount = lens.len();
            if gcount == usize::MAX {
                return false;
            }
            // Per-row width sums must be representable.
            let mut r: usize = 0;
            while r < rows.len()
                invariant
                    0 <= r <= rows@.len(),
                    rows_view(rows@) == ll[i as int],
                    0 <= i < ll.len(),
                    ll == self.layout_view(),
                    lv == self.lines_view(),
                    ll.len() == lv.len(),
                    forall|q: int|
                        0 <= q < r ==> width_prefix(
                            #[trigger] ll[i as int][q],
                            ll[i as int][q].len() as int,
                        ) <= usize::MAX,
                decreases rows@.len() - r,
            {
                let widths = rows[r].widths();
                proof {
                    assert(rows_view(rows@)[r as int] == rows@[r as int]@);
                }
                if !row_widths_ok(widths) {
                    proof {
                        assert(ll[i as int][r as int] == widths@);
                        assert(!self.wf());
                    }
                    return false;
                }
                r = r + 1;
            }
            // The layout's grapheme total must match the line's.
            let mut acc: usize = 0;
            let mut q: usize = 0;
            while q < rows.len()
                invariant
                    0 <= q <= rows@.len(),
                    rows_view(rows@) == ll[i as int],
                    0 <= i < ll.len(),
                    lv == self.lines_view(),
                    ll == self.layout_view(),
                    ll.len() == lv.len(),
                    gcount < usize::MAX,
                    gcount == grapheme_count(lv[i as int]),
                    acc == row_prefix_graphemes(ll[i as int], q as int),
                    acc <= gcount,
                decreases rows@.len() - q,
            {
                let widths = rows[q].widths();
                proof {
                    assert(rows_view(rows@)[q as int] == rows@[q as int]@);
                }
                let c = widths.len();
                if c > gcount - acc {
                    proof {
                        lemma_row_prefix_mono(ll[i as int], q as int + 1, ll[i as int].len() as int);
                        assert(line_graphemes(ll[i as int]) > grapheme_count(lv[i as int]));
                        assert(!self.wf());
                    }
                    return false;
                }
                acc = acc + c;
                q = q + 1;
            }
            if acc != gcount {
                return false;
            }
            // Accumulate the total row count.
            let cnt = rows.len();
            if cnt > usize::MAX - total {
                proof {
                    lemma_rows_before_mono(ll, i as int + 1, ll.len() as int);
                }
                return false;
            }
            total = total + cnt;
            i = i + 1;
        }
        // Cursor within the rows, and within its row.
        let y = self.cursor.y();
        if y >= total {
            return false;
        }
        let rl = self.row_len_at(y);
        let x = self.cursor.x();
        if x > rl {
            return false;
        }
        true
    }

    /// Update the engine's state from one key press, after testing that the
    /// lines, layout and cursor are consistent (and that a backspace merge
    /// has a previous line to go to). With a stale layout the state is left
    /// untouched and `false` comes back, rather than any index running out
    /// of range.
    pub fn update_checked(&mut self, key: Key) -> (ok: bool)
        ensures
            ok == (old(self).wf() && key_safe(
                key,
                old(self).lines_view(),
                old(self).layout_view(),
                old(self).cursor_x() as int,
                old(self).cursor_y() as int,
            )),
            ok ==> final(self).layout_view() == old(self).layout_view() && key_post(
                key,
                old(self).lines_view(),
                old(self).layout_view(),
                old(self).cursor_x() as int,
                old(self).cursor_y() as int,
                final(self).lines_view(),
                final(self).cursor_x() as int,
                final(self).cursor_y() as int,
            ),
            !ok ==> *final(self) == *old(self),
    {
        if !self.check_wf() {
            return false;
        }
        let x = self.cursor.x();
        let y = self.cursor.y();
        let is_backspace = match &key {
            Key::Backspace => true,
            _ => false,
        };
        if is_backspace && x == 0 && y > 0 {
            let (li, _lr) = self.find_row(y);
            if li == 0 {
                return false;
            }
        }
        proof {
            lemma_wf_implies_key_safe(
                key,
                self.lines_view(),
                self.layout_view(),
                self.cursor_x() as int,
                self.cursor_y() as int,
            );
        }
        self.update(key);
        true
    }
}

/// The total cell width of a row fits in a machine word.
fn row_widths_ok(widths: &Vec<usize>) -> (b: bool)
    ensures
        b == (width_prefix(widths@, widths@.len() as int) <= usize::MAX),
{
    let mut acc: usize = 0;
    let mut k: usize = 0;
    while k < widths.len()
        invariant
            0 <= k <= widths@.len(),
            acc == width_prefix(widths@, k as int),
        decreases widths@.len() - k,
    {
        let w = widths[k];
        if w > usize::MAX - acc {
            proof {
                lemma_width_prefix_mono(widths@, k as int + 1, widths@.len() as int);
            }
            return false;
        }
        acc = acc + w;
        k = k + 1;
    }
    true
}

/// The characters of the first `k` lines, concatenated.
pub open spec fn concat_lines(lines: Seq<Seq<char>>, k: int) -> Seq<char>
    decreases k,
{
    if k <= 0 {
        Seq::empty()
    } else {
        concat_lines(lines, k - 1) + lines[k - 1]
    }
}

} // verus!
