//! A headless text-editing state engine: a mutable multi-line buffer and a
//! cursor, driven by discrete key inputs.
//!
//! The crate root holds a plain line editor whose cursor works directly in
//! character offsets. The [`text`] module holds the wrap-aware engine, which
//! navigates by grapheme clusters across a caller-supplied word-wrap layout.

use crate::strutil::{char_at, char_len, concat_str, insert_char, push_char, remove_char_range, substring};
use crate::text::{
    lemma_lines_of_insert, lemma_lines_of_push, lemma_lines_of_remove, lemma_lines_of_update,
    lines_of,
};
use vstd::prelude::*;
use vstd::string::StrSliceExecFns;
use vstd::string::StringExecFns;

pub mod key;
pub mod laws;
pub mod layout;
pub mod position;
pub mod result;
pub mod seg;
pub mod strutil;
pub mod text;

verus! {

/// Key inputs of the plain line editor.
pub enum Key {
    Char(char),
    Backspace,
    Enter,
    Up,
    Down,
    Left,
    Right,
}

// ------------------------------------------------------------------
// The value model of the plain editor.
// ------------------------------------------------------------------
/// The first `k` lines joined with one newline between each pair.
pub open spec fn joined_value(lines: Seq<Seq<char>>, k: int) -> Seq<char>
    decreases k,
{
    if k <= 0 {
        Seq::empty()
    } else if k == 1 {
        lines[0]
    } else {
        joined_value(lines, k - 1) + seq!['\n'] + lines[k - 1]
    }
}

/// The index of the first newline of `s`, or its length when there is none.
pub open spec fn first_break(s: Seq<char>) -> nat
    decreases s.len(),
{
    if s.len() == 0 {
        0
    } else if s[0] == '\n' {
        0
    } else {
        1 + first_break(s.drop_first())
    }
}

/// A segment with one trailing carriage return taken off, as a newline
/// preceded by one swallows it.
pub open spec fn strip_cr(s: Seq<char>) -> Seq<char> {
    if s.len() > 0 && s.last() == '\r' {
        s.drop_last()
    } else {
        s
    }
}

/// The segments of `s` between newlines: each segment before a newline
/// loses one trailing carriage return, the final segment keeps its
/// characters, and a trailing newline yields no empty final segment.
pub open spec fn split_lines(s: Seq<char>) -> Seq<Seq<char>>
    decreases s.len(),
{
    if s.len() == 0 {
        Seq::empty()
    } else {
        let i = first_break(s) as int;
        if i >= s.len() {
            seq![s]
        } else {
            seq![strip_cr(s.subrange(0, i))] + split_lines(s.subrange(i + 1, s.len() as int))
        }
    }
}

/// `s` with every newline and carriage return removed.
pub open spec fn strip_breaks(s: Seq<char>) -> Seq<char>
    decreases s.len(),
{
    if s.len() == 0 {
        Seq::empty()
    } else if s.last() == '\n' || s.last() == '\r' {
        strip_breaks(s.drop_last())
    } else {
        strip_breaks(s.drop_last()).push(s.last())
    }
}

/// The line buffer an editor starts from: the split of the given value (or
/// the value with its breaks removed, in single-line mode), with one empty
/// line appended when the split is empty or the value ends in a newline.
pub open spec fn initial_lines(s: Seq<char>, multi: bool) -> Seq<Seq<char>> {
    let base = if multi {
        split_lines(s)
    } else {
        seq![strip_breaks(s)]
    };
    if base.len() == 0 || (s.len() > 0 && s.last() == '\n') {
        base.push(Seq::empty())
    } else {
        base
    }
}

/// A requested cursor position clamped to the line buffer: first the row to
/// the last line, then the column to that line's length.
pub open spec fn clamped(lines: Seq<Seq<char>>, px: int, py: int) -> (int, int) {
    let cy = if py < lines.len() {
        py
    } else {
        lines.len() - 1
    };
    let cx = if px <= lines[cy].len() {
        px
    } else {
        lines[cy].len() as int
    };
    (cx, cy)
}

/// The editor's internal consistency: at least one line, the cursor on an
/// existing line and within it.
pub open spec fn editor_wf(lines: Seq<Seq<char>>, cx: int, cy: int) -> bool {
    &&& lines.len() >= 1
    &&& 0 <= cy < lines.len()
    &&& 0 <= cx <= lines[cy].len()
}

/// What one key press does to the plain editor's lines and cursor.
pub open spec fn ed_post(
    key: Key,
    multi: bool,
    lines: Seq<Seq<char>>,
    cx: int,
    cy: int,
    lines1: Seq<Seq<char>>,
    cx1: int,
    cy1: int,
) -> bool {
    match key {
        Key::Char(ch) => {
            &&& lines1 == lines.update(cy, lines[cy].insert(cx, ch))
            &&& cx1 == cx + 1
            &&& cy1 == cy
        },
        Key::Backspace => {
            if cx > 0 {
                &&& lines1 == lines.update(cy, lines[cy].remove(cx - 1))
                &&& cx1 == cx - 1
                &&& cy1 == cy
            } else if cy > 0 {
                &&& lines1 == lines.update(cy - 1, lines[cy - 1] + lines[cy]).remove(cy)
                &&& cx1 == lines[cy - 1].len()
                &&& cy1 == cy - 1
            } else {
                lines1 == lines && cx1 == cx && cy1 == cy
            }
        },
        Key::Enter => {
            if multi {
                &&& lines1 == lines.update(cy, lines[cy].subrange(0, cx)).insert(
                    cy + 1,
                    lines[cy].subrange(cx, lines[cy].len() as int),
                )
                &&& cx1 == 0
                &&& cy1 == cy + 1
            } else {
                lines1 == lines && cx1 == cx && cy1 == cy
            }
        },
        Key::Up => {
            if multi && cy > 0 {
                &&& lines1 == lines
                &&& cx1 == if cx <= lines[cy - 1].len() {
                    cx
                } else {
                    lines[cy - 1].len() as int
                }
                &&& cy1 == cy - 1
            } else {
                lines1 == lines && cx1 == cx && cy1 == cy
            }
        },
        Key::Down => {
            if multi && cy + 1 < lines.len() {
                &&& lines1 == lines
                &&& cx1 == if cx <= lines[cy + 1].len() {
                    cx
                } else {
                    lines[cy + 1].len() as int
                }
                &&& cy1 == cy + 1
            } else {
                lines1 == lines && cx1 == cx && cy1 == cy
            }
        },
        Key::Left => {
            if cx > 0 {
                lines1 == lines && cx1 == cx - 1 && cy1 == cy
            } else if cy > 0 {
                lines1 == lines && cx1 == lines[cy - 1].len() && cy1 == cy - 1
            } else {
                lines1 == lines && cx1 == cx && cy1 == cy
            }
        },
        Key::Right => {
            if cx < lines[cy].len() {
                lines1 == lines && cx1 == cx + 1 && cy1 == cy
            } else if cy + 1 < lines.len() {
                lines1 == lines && cx1 == 0 && cy1 == cy + 1
            } else {
                lines1 == lines && cx1 == cx && cy1 == cy
            }
        },
    }
}

// ------------------------------------------------------------------
// The plain line editor.
// ------------------------------------------------------------------
/// A multi-line text editor with cursor management: the cursor addresses
/// characters directly, without wrap awareness.
pub struct Text {
    lines: Vec<String>,
    cursor: (usize, usize),
    multi_line: bool,
}

impl Text {
    /// The lines of the buffer, as character sequences.
    pub closed spec fn lines_view(&self) -> Seq<Seq<char>> {
        lines_of(self.lines@)
    }

    /// The cursor's column (a character offset into its line).
    pub closed spec fn cursor_x(&self) -> nat {
        self.cursor.0 as nat
    }

    /// The line the cursor is on.
    pub closed spec fn cursor_y(&self) -> nat {
        self.cursor.1 as nat
    }

    /// Whether the editor accepts more than one line.
    pub closed spec fn is_multi_line(&self) -> bool {
        self.multi_line
    }

    /// The editor's internal consistency, over its current fields.
    pub open spec fn wf(&self) -> bool {
        editor_wf(self.lines_view(), self.cursor_x() as int, self.cursor_y() as int)
    }

    /// Create a new, empty editor in the specified mode.
    pub fn new(multi_line: bool) -> (t: Text)
        ensures
            t.lines_view() == seq![Seq::<char>::empty()],
            t.cursor_x() == 0,
            t.cursor_y() == 0,
            t.is_multi_line() == multi_line,
            t.wf(),
    {
        let lines = vec![String::new()];
        let t = Text { lines, cursor: (0, 0), multi_line };
        proof {
            assert(t.lines_view() =~= seq![Seq::<char>::empty()]);
        }
        t
    }

    /// Create a new editor from the specified value and cursor state and in
    /// the specified mode. In multi-line mode the value splits at newlines;
    /// in single-line mode the breaks are removed instead. The cursor is
    /// clamped to the resulting lines.
    pub fn from(value: &str, cursor: (usize, usize), multi_line: bool) -> (t: Text)
        ensures
            t.lines_view() == initial_lines(value@, multi_line),
            t.is_multi_line() == multi_line,
            (t.cursor_x() as int, t.cursor_y() as int) == clamped(
                initial_lines(value@, multi_line),
                cursor.0 as int,
                cursor.1 as int,
            ),
            t.wf(),
    {
        let mut lines: Vec<String> = if multi_line {
            split_value(value)
        } else {
            let stripped = strip_value(value);
            let mut v: Vec<String> = Vec::new();
            proof {
                lemma_lines_of_push(v@, stripped);
                assert(lines_of(Seq::<String>::empty()) =~= Seq::<Seq<char>>::empty());
            }
            v.push(stripped);
            proof {
                assert(lines_of(v@) =~= seq![strip_breaks(value@)]);
            }
            v
        };
        let n = char_len(value);
        let needs_extra = if lines.len() == 0 {
            true
        } else if n > 0 {
            char_at(value, n - 1) == '\n'
        } else {
            false
        };
        if needs_extra {
            let empty_line = String::new();
            proof {
                lemma_lines_of_push(lines@, empty_line);
            }
            lines.push(empty_line);
        }
        let mut t = Text { lines, cursor: (0, 0), multi_line };
        proof {
            assert(t.lines_view() == initial_lines(value@, multi_line));
            assert(t.lines_view().len() >= 1);
        }
        t.set_cursor(cursor);
        t
    }

    /// This editor's current cursor position as (columns, lines).
    pub fn cursor(&self) -> (c: (usize, usize))
        ensures
            c.0 == self.cursor_x(),
            c.1 == self.cursor_y(),
    {
        self.cursor
    }

    /// This editor's value's lines.
    pub fn lines(&self) -> (r: &Vec<String>)
        ensures
            lines_of(r@) == self.lines_view(),
    {
        &self.lines
    }

    /// This editor's current value: the lines joined with newlines.
    pub fn value(&self) -> (r: String)
        requires
            self.wf(),
        ensures
            r@ == joined_value(self.lines_view(), self.lines_view().len() as int),
    {
        let ghost lv = self.lines_view();
        proof {
            assert(lv[0] == self.lines@[0]@);
        }
        let mut r = self.lines[0].clone();
        let mut i: usize = 1;
        while i < self.lines.len()
            invariant
                1 <= i <= self.lines.len(),
                lv == self.lines_view(),
                lv.len() == self.lines@.len(),
                r@ == joined_value(lv, i as int),
            decreases self.lines.len() - i,
        {
            push_char(&mut r, '\n');
            r.append(self.lines[i].as_str());
            proof {
                assert(lv[i as int] == self.lines@[i as int]@);
            }
            i = i + 1;
        }
        r
    }

    /// Update this editor's cursor position. The position is clamped to the
    /// editor's current value.
    pub fn set_cursor(&mut self, position: (usize, usize))
        requires
            old(self).wf(),
        ensures
            final(self).lines_view() == old(self).lines_view(),
            final(self).is_multi_line() == old(self).is_multi_line(),
            (final(self).cursor_x() as int, final(self).cursor_y() as int) == clamped(
                old(self).lines_view(),
                position.0 as int,
                position.1 as int,
            ),
            final(self).wf(),
    {
        let mut cy = position.1;
        if cy >= self.lines.len() {
            cy = self.lines.len() - 1;
        }
        proof {
            assert(self.lines_view()[cy as int] == self.lines@[cy as int]@);
        }
        let line_length = char_len(self.lines[cy].as_str());
        let mut cx = position.0;
        if cx > line_length {
            cx = line_length;
        }
        self.cursor = (cx, cy);
    }

    /// Update this editor's state from the specified input.
    pub fn handle_input(&mut self, input: Key)
        requires
            old(self).wf(),
        ensures
            final(self).is_multi_line() == old(self).is_multi_line(),
            ed_post(
                input,
                old(self).is_multi_line(),
                old(self).lines_view(),
                old(self).cursor_x() as int,
                old(self).cursor_y() as int,
                final(self).lines_view(),
                final(self).cursor_x() as int,
                final(self).cursor_y() as int,
            ),
            final(self).wf(),
    {
        match input {
            Key::Char(ch) => self.insert_character(ch),
            Key::Backspace => self.backspace_character(),
            Key::Enter => self.insert_newline(),
            Key::Up => self.move_up(),
            Key::Down => self.move_down(),
            Key::Left => self.move_left(),
            Key::Right => self.move_right(),
        }
    }

    /// Insert the specified character at the editor's current cursor
    /// position and advance the cursor past it.
    pub fn insert_character(&mut self, ch: char)
        requires
            old(self).wf(),
        ensures
            final(self).is_multi_line() == old(self).is_multi_line(),
            ed_post(
                Key::Char(ch),
                old(self).is_multi_line(),
                old(self).lines_view(),
                old(self).cursor_x() as int,
                old(self).cursor_y() as int,
                final(self).lines_view(),
                final(self).cursor_x() as int,
                final(self).cursor_y() as int,
            ),
            final(self).wf(),
    {
        let (cx, cy) = self.cursor;
        let ghost s = self.lines_view()[cy as int];
        proof {
            assert(s == self.lines@[cy as int]@);
        }
        let s1 = insert_char(self.lines[cy].as_str(), cx, ch);
        let new_len = char_len(s1.as_str());
        proof {
            assert(cx < new_len);
            lemma_lines_of_update(self.lines@, cy as int, s1);
            assert(s1@ =~= s.insert(cx as int, ch));
        }
        self.lines.set(cy, s1);
        self.cursor = (cx + 1, cy);
    }

    /// Backspace the character preceding the editor's current cursor
    /// position, merging this line into the one above when the cursor sits
    /// at a line start.
    pub fn backspace_character(&mut self)
        requires
            old(self).wf(),
        ensures
            final(self).is_multi_line() == old(self).is_multi_line(),
            ed_post(
                Key::Backspace,
                old(self).is_multi_line(),
                old(self).lines_view(),
                old(self).cursor_x() as int,
                old(self).cursor_y() as int,
                final(self).lines_view(),
                final(self).cursor_x() as int,
                final(self).cursor_y() as int,
            ),
            final(self).wf(),
    {
        let (cx, cy) = self.cursor;
        let ghost s = self.lines_view()[cy as int];
        proof {
            assert(s == self.lines@[cy as int]@);
        }
        if cx > 0 {
            let s1 = remove_char_range(self.lines[cy].as_str(), cx - 1, cx);
            proof {
                lemma_lines_of_update(self.lines@, cy as int, s1);
                assert(s1@ =~= s.remove(cx as int - 1));
            }
            self.lines.set(cy, s1);
            self.cursor = (cx - 1, cy);
        } else if cy > 0 {
            let ghost prev = self.lines_view()[cy as int - 1];
            proof {
                assert(prev == self.lines@[cy as int - 1]@);
            }
            let moved = self.lines[cy].clone();
            let prev_len = char_len(self.lines[cy - 1].as_str());
            let merged = concat_str(self.lines[cy - 1].as_str(), moved.as_str());
            proof {
                lemma_lines_of_update(self.lines@, cy as int - 1, merged);
                lemma_lines_of_remove(self.lines@.update(cy as int - 1, merged), cy as int);
            }
            self.lines.set(cy - 1, merged);
            self.lines.remove(cy);
            self.cursor = (prev_len, cy - 1);
        }
    }

    /// Insert a newline at the editor's current cursor position, splitting
    /// the current line; a no-op in single-line mode.
    pub fn insert_newline(&mut self)
        requires
            old(self).wf(),
        ensures
            final(self).is_multi_line() == old(self).is_multi_line(),
            ed_post(
                Key::Enter,
                old(self).is_multi_line(),
                old(self).lines_view(),
                old(self).cursor_x() as int,
                old(self).cursor_y() as int,
                final(self).lines_view(),
                final(self).cursor_x() as int,
                final(self).cursor_y() as int,
            ),
            final(self).wf(),
    {
        if !self.multi_line {
            return ;
        }
        let (cx, cy) = self.cursor;
        let ghost s = self.lines_view()[cy as int];
        proof {
            assert(s == self.lines@[cy as int]@);
        }
        let n = char_len(self.lines[cy].as_str());
        let prefix = substring(self.lines[cy].as_str(), 0, cx);
        let suffix = substring(self.lines[cy].as_str(), cx, n);
        proof {
            lemma_lines_of_update(self.lines@, cy as int, prefix);
            lemma_lines_of_insert(self.lines@.update(cy as int, prefix), cy as int + 1, suffix);
        }
        self.lines.set(cy, prefix);
        let line_count = self.lines.len();
        proof {
            assert(cy < line_count);
        }
        self.lines.insert(cy + 1, suffix);
        self.cursor = (0, cy + 1);
    }

    /// Attempt to move the editor's cursor up one line, clamping the column
    /// to the shorter line; a no-op in single-line mode or on the first
    /// line.
    pub fn move_up(&mut self)
        requires
            old(self).wf(),
        ensures
            final(self).is_multi_line() == old(self).is_multi_line(),
            final(self).lines_view() == old(self).lines_view(),
            ed_post(
                Key::Up,
                old(self).is_multi_line(),
                old(self).lines_view(),
                old(self).cursor_x() as int,
                old(self).cursor_y() as int,
                final(self).lines_view(),
                final(self).cursor_x() as int,
                final(self).cursor_y() as int,
            ),
            final(self).wf(),
    {
        if !self.multi_line {
            return ;
        }
        let (cx, cy) = self.cursor;
        if cy > 0 {
            proof {
                assert(self.lines_view()[cy as int - 1] == self.lines@[cy as int - 1]@);
            }
            let plen = char_len(self.lines[cy - 1].as_str());
            let nx = if cx <= plen {
                cx
            } else {
                plen
            };
            self.cursor = (nx, cy - 1);
        }
    }

    /// Attempt to move the editor's cursor down one line, clamping the
    /// column; a no-op in single-line mode or on the last line.
    pub fn move_down(&mut self)
        requires
            old(self).wf(),
        ensures
            final(self).is_multi_line() == old(self).is_multi_line(),
            final(self).lines_view() == old(self).lines_view(),
            ed_post(
                Key::Down,
                old(self).is_multi_line(),
                old(self).lines_view(),
                old(self).cursor_x() as int,
                old(self).cursor_y() as int,
                final(self).lines_view(),
                final(self).cursor_x() as int,
                final(self).cursor_y() as int,
            ),
            final(self).wf(),
    {
        if !self.multi_line {
            return ;
        }
        let (cx, cy) = self.cursor;
        let line_count = self.lines.len();
        if cy + 1 < line_count {
            proof {
                assert(self.lines_view()[cy as int + 1] == self.lines@[cy as int + 1]@);
            }
            let nlen = char_len(self.lines[cy + 1].as_str());
            let nx = if cx <= nlen {
                cx
            } else {
                nlen
            };
            self.cursor = (nx, cy + 1);
        }
    }

    /// Attempt to move the editor's cursor left one character, wrapping to
    /// the end of the previous line; a no-op at the very start.
    pub fn move_left(&mut self)
        requires
            old(self).wf(),
        ensures
            final(self).is_multi_line() == old(self).is_multi_line(),
            final(self).lines_view() == old(self).lines_view(),
            ed_post(
                Key::Left,
                old(self).is_multi_line(),
                old(self).lines_view(),
                old(self).cursor_x() as int,
                old(self).cursor_y() as int,
                final(self).lines_view(),
                final(self).cursor_x() as int,
                final(self).cursor_y() as int,
            ),
            final(self).wf(),
    {
        let (cx, cy) = self.cursor;
        if cx > 0 {
            self.cursor = (cx - 1, cy);
        } else if cy > 0 {
            proof {
                assert(self.lines_view()[cy as int - 1] == self.lines@[cy as int - 1]@);
            }
            let plen = char_len(self.lines[cy - 1].as_str());
            self.cursor = (plen, cy - 1);
        }
    }

    /// Attempt to move the editor's cursor right one character, wrapping to
    /// the start of the next line; a no-op at the very end.
    pub fn move_right(&mut self)
        requires
            old(self).wf(),
        ensures
            final(self).is_multi_line() == old(self).is_multi_line(),
            final(self).lines_view() == old(self).lines_view(),
            ed_post(
                Key::Right,
                old(self).is_multi_line(),
                old(self).lines_view(),
                old(self).cursor_x() as int,
                old(self).cursor_y() as int,
                final(self).lines_view(),
                final(self).cursor_x() as int,
                final(self).cursor_y() as int,
            ),
            final(self).wf(),
    {
        let (cx, cy) = self.cursor;
        proof {
            assert(self.lines_view()[cy as int] == self.lines@[cy as int]@);
        }
        let line_length = char_len(self.lines[cy].as_str());
        let line_count = self.lines.len();
        if cx < line_length {
            self.cursor = (cx + 1, cy);
        } else if cy + 1 < line_count {
            self.cursor = (0, cy + 1);
        }
    }
}

// ------------------------------------------------------------------
// Parsing a value into lines.
// ------------------------------------------------------------------
proof fn lemma_first_break_at(s: Seq<char>, k: int)
    requires
        0 <= k <= s.len(),
        forall|j: int| 0 <= j < k ==> s[j] != '\n',
        k < s.len() ==> s[k] == '\n',
    ensures
        first_break(s) == k,
    decreases k,
{
    if s.len() == 0 {
    } else if k == 0 {
    } else {
        assert(s[0] != '\n');
        let t = s.drop_first();
        assert(forall|j: int| 0 <= j < k - 1 ==> t[j] == s[j + 1]);
        lemma_first_break_at(t, k - 1);
    }
}

/// The segments of `value` between newlines, as `split_lines` describes
/// them.
fn split_value(value: &str) -> (r: Vec<String>)
    ensures
        lines_of(r@) == split_lines(value@),
{
    let ghost v = value@;
    let n = char_len(value);
    let mut out: Vec<String> = Vec::new();
    let mut start: usize = 0;
    let mut i: usize = 0;
    proof {
        assert(v.subrange(0, n as int) =~= v);
        assert(lines_of(out@) =~= Seq::<Seq<char>>::empty());
    }
    while i < n
        invariant
            0 <= start as int <= i as int <= n as int,
            n == v.len(),
            v == value@,
            split_lines(v) == lines_of(out@) + split_lines(v.subrange(start as int, n as int)),
            forall|j: int| start <= j < i ==> v[j] != '\n',
        decreases n - i,
    {
        let c = char_at(value, i);
        if c == '\n' {
            let e = if i > start && char_at(value, i - 1) == '\r' {
                i - 1
            } else {
                i
            };
            let seg = substring(value, start, e);
            proof {
                let suf = v.subrange(start as int, n as int);
                assert(forall|j: int| 0 <= j < i - start ==> suf[j] == v[start + j]);
                lemma_first_break_at(suf, i as int - start as int);
                assert(suf.subrange(0, i as int - start as int) =~= v.subrange(
                    start as int,
                    i as int,
                ));
                assert(suf.subrange(i as int - start as int + 1, suf.len() as int) =~= v.subrange(
                    i as int + 1,
                    n as int,
                ));
                if i > start && v[i as int - 1] == '\r' {
                    assert(strip_cr(v.subrange(start as int, i as int)) =~= seg@);
                } else {
                    assert(strip_cr(v.subrange(start as int, i as int)) =~= seg@);
                }
                lemma_lines_of_push(out@, seg);
                assert(lines_of(out@.push(seg)) + split_lines(v.subrange(i as int + 1, n as int))
                    =~= lines_of(out@) + split_lines(suf));
            }
            out.push(seg);
            start = i + 1;
        }
        i = i + 1;
    }
    if start < n {
        let seg = substring(value, start, n);
        proof {
            let suf = v.subrange(start as int, n as int);
            lemma_first_break_at(suf, suf.len() as int);
            assert(seg@ =~= suf);
            lemma_lines_of_push(out@, seg);
            assert(lines_of(out@.push(seg)) =~= lines_of(out@) + split_lines(suf));
        }
        out.push(seg);
    } else {
        proof {
            assert(v.subrange(start as int, n as int) =~= Seq::<char>::empty());
            assert(lines_of(out@) + split_lines(Seq::<char>::empty()) =~= lines_of(out@));
        }
    }
    out
}

/// `value` with every newline and carriage return removed.
fn strip_value(value: &str) -> (r: String)
    ensures
        r@ == strip_breaks(value@),
{
    let ghost v = value@;
    let n = char_len(value);
    let mut r = String::new();
    let mut i: usize = 0;
    proof {
        assert(v.subrange(0, 0) =~= Seq::<char>::empty());
    }
    while i < n
        invariant
            0 <= i <= n,
            n == v.len(),
            v == value@,
            r@ == strip_breaks(v.subrange(0, i as int)),
        decreases n - i,
    {
        let c = char_at(value, i);
        proof {
            let t = v.subrange(0, i as int + 1);
            assert(t.drop_last() =~= v.subrange(0, i as int));
            assert(t.last() == v[i as int]);
        }
        if c != '\n' && c != '\r' {
            push_char(&mut r, c);
        }
        i = i + 1;
    }
    proof {
        assert(v.subrange(0, n as int) =~= v);
    }
    r
}

} // verus!\n