use crate::key::Key;
use crate::seg::{
    grapheme_count, grapheme_offset, grapheme_split, grapheme_split_wf, cluster_prefix_len,
    lemma_cluster_prefix_insert, lemma_grapheme_offset_in_range,
};
use crate::text::{
    backspace_post, char_post, column_of, enter_post, key_post, landing_index, left_cursor,
    lemma_landing_char, lemma_landing_unique, lemma_line_of, lemma_resolve_under_wf,
    lemma_row_exists, lemma_width_prefix_mono, line_of, resolve, right_cursor, row_at,
    row_grapheme_len, rows_before, total_rows, up_cursor, down_cursor,
    wf_state, width_prefix,
};
use vstd::prelude::*;

verus! {

/// Home sets the cursor's column to zero on its row, and End that follows
/// sets it to the row's grapheme count — independent of the grapheme
/// widths on the row, and without touching the lines.
pub proof fn lemma_home_then_end(
    lines: Seq<Seq<char>>,
    ll: Seq<Seq<Seq<usize>>>,
    x: int,
    y: int,
    lines1: Seq<Seq<char>>,
    x1: int,
    y1: int,
    lines2: Seq<Seq<char>>,
    x2: int,
    y2: int,
)
    ensures
        (key_post(Key::Home, lines, ll, x, y, lines1, x1, y1) && key_post(
            Key::End,
            lines1,
            ll,
            x1,
            y1,
            lines2,
            x2,
            y2,
        )) ==> (x1 == 0 && y1 == y && x2 == row_grapheme_len(ll, y) && y2 == y && lines2
            == lines),
{
}

/// At the absolute start, Left leaves the cursor in place; at the last
/// grapheme boundary of the very last row, Right leaves it in place.
pub proof fn lemma_boundary_noops(
    ll: Seq<Seq<Seq<usize>>>,
    x: int,
    y: int,
    xl: int,
    yl: int,
    xr: int,
    yr: int,
)
    ensures
        left_cursor(ll, 0, 0, xl, yl) ==> (xl == 0 && yl == 0),
        (right_cursor(ll, x, y, xr, yr) && x == row_grapheme_len(ll, y) && y + 1 == total_rows(
            ll,
        )) ==> (xr == x && yr == y),
{
}

/// Up then Down from an interior row comes back to the very same cursor,
/// whenever the cursor's visual column is exactly realizable as a prefix
/// width `m` of the row above, and the cursor's own row has no zero-width
/// grapheme. (With rows of unequal widths the column may otherwise fall
/// inside a wide grapheme above and be rounded down.)
pub proof fn lemma_up_then_down_round_trip(
    ll: Seq<Seq<Seq<usize>>>,
    x: int,
    y: int,
    x1: int,
    y1: int,
    x2: int,
    y2: int,
    m: int,
)
    ensures
        ({
            &&& 0 < y < total_rows(ll)
            &&& 0 <= x <= row_grapheme_len(ll, y)
            &&& forall|i: int| 0 <= i < row_at(ll, y).len() ==> (#[trigger] row_at(ll, y)[i]) >= 1
            &&& 0 <= m <= row_at(ll, y - 1).len()
            &&& width_prefix(row_at(ll, y - 1), m) == column_of(row_at(ll, y), x)
            &&& up_cursor(ll, x, y, x1, y1)
            &&& down_cursor(ll, x1, y1, x2, y2)
        }) ==> (x2 == x && y2 == y),
{
    let above = row_at(ll, y - 1);
    let row = row_at(ll, y);
    let col = column_of(row, x) as int;
    if ({
        &&& 0 < y < total_rows(ll)
        &&& 0 <= x <= row_grapheme_len(ll, y)
        &&& forall|i: int| 0 <= i < row.len() ==> (#[trigger] row[i]) >= 1
        &&& 0 <= m <= above.len()
        &&& width_prefix(above, m) == col
        &&& up_cursor(ll, x, y, x1, y1)
        &&& down_cursor(ll, x1, y1, x2, y2)
    }) {
        lemma_landing_char(above, col);
        let k = landing_index(above, col) as int;
        if k < m {
            lemma_width_prefix_mono(above, k + 1, m);
            assert(false);
        }
        lemma_width_prefix_mono(above, m, k);
        assert(width_prefix(above, k) == col);
        assert(x1 == k && y1 == y - 1);
        assert(column_of(above, x1) == col);
        assert(width_prefix(row, x) == col);
        if x < row.len() {
            assert(width_prefix(row, x + 1) == width_prefix(row, x) + row[x] as nat);
        }
        lemma_landing_unique(row, col, x);
        assert(x2 == x && y2 == y);
    }
}

/// Inserting a character that becomes a grapheme cluster of its own and
/// pressing Backspace right away restores both the lines and the cursor:
/// the insert/backspace round trip over a consistent state.
pub proof fn lemma_char_backspace_round_trip(
    lines: Seq<Seq<char>>,
    ll: Seq<Seq<Seq<usize>>>,
    x: int,
    y: int,
    ch: char,
    lines1: Seq<Seq<char>>,
    x1: int,
    y1: int,
    lines2: Seq<Seq<char>>,
    x2: int,
    y2: int,
)
    ensures
        ({
            let li = resolve(ll, x, y).0;
            let g = resolve(ll, x, y).1;
            &&& wf_state(lines, ll, x, y)
            &&& char_post(lines, ll, x, y, ch, lines1, x1, y1)
            &&& grapheme_split(lines1[li]) == grapheme_split(lines[li]).insert(g, seq![ch])
            &&& backspace_post(lines1, ll, x1, y1, lines2, x2, y2)
        }) ==> (lines2 == lines && x2 == x && y2 == y),
{
    let li = resolve(ll, x, y).0;
    let g = resolve(ll, x, y).1;
    if ({
        &&& wf_state(lines, ll, x, y)
        &&& char_post(lines, ll, x, y, ch, lines1, x1, y1)
        &&& grapheme_split(lines1[li]) == grapheme_split(lines[li]).insert(g, seq![ch])
        &&& backspace_post(lines1, ll, x1, y1, lines2, x2, y2)
    }) {
        lemma_resolve_under_wf(lines, ll, x, y);
        let s = lines[li];
        let segs = grapheme_split(s);
        assert(grapheme_split_wf(s));
        lemma_grapheme_offset_in_range(s, g);
        let off = grapheme_offset(s, g) as int;
        let s1 = s.subrange(0, off) + seq![ch] + s.subrange(off, s.len() as int);
        assert(lines1 == lines.update(li, s1));
        assert(lines1[li] == s1);
        let segs1 = grapheme_split(s1);
        assert(segs1 == segs.insert(g, seq![ch]));
        assert(segs1.len() == segs.len() + 1);
        assert(grapheme_count(s1) > grapheme_count(s));
        assert(x1 == x + 1 && y1 == y);
        // The cursor after the insert resolves one grapheme further on the
        // same line.
        assert(resolve(ll, x1, y1).0 == li && resolve(ll, x1, y1).1 == g + 1) by {
            if x == 0 && y == 0 {
                lemma_row_exists(ll, y);
                crate::text::lemma_rows_before_at_least(ll, line_of(ll, 0));
            }
        }
        // Offsets into the grown line around the inserted cluster.
        lemma_cluster_prefix_insert(segs, g, seq![ch], g);
        assert(g <= grapheme_count(s));
        assert(grapheme_offset(s1, g) == cluster_prefix_len(segs1, g));
        assert(cluster_prefix_len(segs1, g) == cluster_prefix_len(segs, g));
        assert(grapheme_offset(s1, g) == off);
        assert(segs1[g] =~= seq![ch]);
        assert(cluster_prefix_len(segs1, g + 1) == cluster_prefix_len(segs1, g)
            + segs1[g].len());
        assert(grapheme_offset(s1, g + 1) == off + 1);
        // Backspace takes the inserted cluster back out.
        assert(x1 > 0);
        let removed = s1.subrange(0, off) + s1.subrange(off + 1, s1.len() as int);
        assert(lines2 == lines1.update(li, removed));
        assert(removed =~= s);
        assert(lines2 =~= lines);
        assert(x2 == x && y2 == y);
    }
}

/// Enter followed at once by Backspace from the start of the freshly made
/// line restores both the lines and the cursor: the split/merge round
/// trip. The fresh layout for the split buffer keeps the lines up to the
/// split on exactly the rows they occupied, and ends the cursor's old row
/// at the split column (no soft-wrap boundary crosses the split point).
pub proof fn lemma_enter_backspace_round_trip(
    lines: Seq<Seq<char>>,
    ll: Seq<Seq<Seq<usize>>>,
    x: int,
    y: int,
    lines1: Seq<Seq<char>>,
    x1: int,
    y1: int,
    ll1: Seq<Seq<Seq<usize>>>,
    lines2: Seq<Seq<char>>,
    x2: int,
    y2: int,
)
    ensures
        ({
            let li = resolve(ll, x, y).0;
            &&& wf_state(lines, ll, x, y)
            &&& enter_post(lines, ll, x, y, lines1, x1, y1)
            &&& wf_state(lines1, ll1, x1, y1)
            &&& rows_before(ll1, li + 1) == y + 1
            &&& row_grapheme_len(ll1, y) == x
            &&& backspace_post(lines1, ll1, x1, y1, lines2, x2, y2)
        }) ==> (lines2 == lines && x2 == x && y2 == y),
{
    let li = resolve(ll, x, y).0;
    let g = resolve(ll, x, y).1;
    if ({
        &&& wf_state(lines, ll, x, y)
        &&& enter_post(lines, ll, x, y, lines1, x1, y1)
        &&& wf_state(lines1, ll1, x1, y1)
        &&& rows_before(ll1, li + 1) == y + 1
        &&& row_grapheme_len(ll1, y) == x
        &&& backspace_post(lines1, ll1, x1, y1, lines2, x2, y2)
    }) {
        lemma_resolve_under_wf(lines, ll, x, y);
        let s = lines[li];
        assert(grapheme_split_wf(s));
        lemma_grapheme_offset_in_range(s, g);
        let off = grapheme_offset(s, g) as int;
        let prefix = s.subrange(0, off);
        let suffix = s.subrange(off, s.len() as int);
        assert(lines1 == lines.update(li, prefix).insert(li + 1, suffix));
        assert(x1 == 0 && y1 == y + 1);
        assert(lines1.len() == lines.len() + 1);
        // The row below the split belongs to the freshly made line.
        assert(li + 1 < ll1.len());
        assert(ll1[li + 1].len() >= 1);
        assert(rows_before(ll1, li + 1) <= y + 1 < rows_before(ll1, li + 1) + ll1[li
            + 1].len());
        lemma_line_of(ll1, y + 1, li + 1);
        assert(resolve(ll1, x1, y1).0 == li + 1);
        // Backspace merges it back into the split line.
        assert(lines1[li + 1] == suffix);
        assert(lines1[li] == prefix);
        assert(lines2 == lines1.update(li, prefix + suffix).remove(li + 1));
        assert(prefix + suffix =~= s);
        assert(lines2 =~= lines);
        assert(x2 == row_grapheme_len(ll1, y) && y2 == y);
    }
}

} // verus!
