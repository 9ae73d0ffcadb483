use tty_text::key::Key;
use tty_text::layout::{LineLayout, RowLayout};
use tty_text::position::Position;
use tty_text::text::Text;

#[test]
fn engine_new() {
    let t = Text::new();
    assert_eq!("", t.value());
    assert_eq!(&vec!["".to_string()], t.lines());
    assert_eq!(0, t.cursor().x());
    assert_eq!(0, t.cursor().y());
}

#[test]
fn engine_typing_and_value() {
    let mut t = Text::new();
    t.set_layout(vec![LineLayout::new(vec![RowLayout::new(vec![])])]);
    t.update(Key::Char('a'));
    t.set_layout(vec![LineLayout::new(vec![RowLayout::new(vec![1])])]);
    t.update(Key::Char('b'));
    t.set_layout(vec![LineLayout::new(vec![RowLayout::new(vec![1, 1])])]);
    t.update(Key::Char('c'));
    t.set_layout(vec![LineLayout::new(vec![RowLayout::new(vec![1, 1, 1])])]);
    t.update(Key::Enter);
    t.set_layout(vec![
        LineLayout::new(vec![RowLayout::new(vec![1, 1, 1])]),
        LineLayout::new(vec![RowLayout::new(vec![])]),
    ]);
    t.update(Key::Char('d'));
    t.set_layout(vec![
        LineLayout::new(vec![RowLayout::new(vec![1, 1, 1])]),
        LineLayout::new(vec![RowLayout::new(vec![1])]),
    ]);
    t.update(Key::Char('e'));
    t.set_layout(vec![
        LineLayout::new(vec![RowLayout::new(vec![1, 1, 1])]),
        LineLayout::new(vec![RowLayout::new(vec![1, 1])]),
    ]);
    t.update(Key::Char('f'));
    t.set_layout(vec![
        LineLayout::new(vec![RowLayout::new(vec![1, 1, 1])]),
        LineLayout::new(vec![RowLayout::new(vec![1, 1, 1])]),
    ]);
    // The value joins the logical lines with nothing in between.
    assert_eq!("abcdef", t.value());
    assert_eq!(&vec!["abc".to_string(), "def".to_string()], t.lines());
    assert_eq!(3, t.cursor().x());
    assert_eq!(1, t.cursor().y());
}

#[test]
fn wrap_insert_left_backspace() {
    // Buffer ["abc", "def"], one row per line of unit widths, cursor (2, 1).
    let mut t = Text::new();
    t.set_layout(vec![LineLayout::new(vec![RowLayout::new(vec![])])]);
    t.update(Key::Char('a'));
    t.update(Key::Char('b'));
    t.update(Key::Char('c'));
    t.set_layout(vec![LineLayout::new(vec![RowLayout::new(vec![1, 1, 1])])]);
    t.update(Key::Enter);
    t.set_layout(vec![
        LineLayout::new(vec![RowLayout::new(vec![1, 1, 1])]),
        LineLayout::new(vec![RowLayout::new(vec![])]),
    ]);
    t.update(Key::Char('d'));
    t.update(Key::Char('e'));
    t.update(Key::Char('f'));
    t.set_layout(vec![
        LineLayout::new(vec![RowLayout::new(vec![1, 1, 1])]),
        LineLayout::new(vec![RowLayout::new(vec![1, 1, 1])]),
    ]);
    t.update(Key::Left);
    assert_eq!(2, t.cursor().x());
    assert_eq!(1, t.cursor().y());

    t.update(Key::Char('X'));
    assert_eq!(&vec!["abc".to_string(), "deXf".to_string()], t.lines());
    assert_eq!(3, t.cursor().x());
    assert_eq!(1, t.cursor().y());

    t.set_layout(vec![
        LineLayout::new(vec![RowLayout::new(vec![1, 1, 1])]),
        LineLayout::new(vec![RowLayout::new(vec![1, 1, 1, 1])]),
    ]);
    t.update(Key::Left);
    assert_eq!(2, t.cursor().x());
    assert_eq!(1, t.cursor().y());

    t.update(Key::Backspace);
    assert_eq!(&vec!["abc".to_string(), "dXf".to_string()], t.lines());
    assert_eq!(1, t.cursor().x());
    assert_eq!(1, t.cursor().y());
}

#[test]
fn enter_on_empty_buffer() {
    let mut t = Text::new();
    t.set_layout(vec![LineLayout::new(vec![RowLayout::new(vec![])])]);
    t.update(Key::Enter);
    assert_eq!(&vec!["".to_string(), "".to_string()], t.lines());
    assert_eq!(0, t.cursor().x());
    assert_eq!(1, t.cursor().y());
}

#[test]
fn left_at_origin_is_noop() {
    let mut t = Text::new();
    t.set_layout(vec![LineLayout::new(vec![RowLayout::new(vec![])])]);
    t.update(Key::Char('a'));
    t.update(Key::Char('b'));
    t.set_layout(vec![LineLayout::new(vec![RowLayout::new(vec![1, 1])])]);
    t.update(Key::Home);
    assert_eq!(0, t.cursor().x());
    assert_eq!(0, t.cursor().y());
    t.update(Key::Left);
    assert_eq!(0, t.cursor().x());
    assert_eq!(0, t.cursor().y());
    assert_eq!("ab", t.value());
}

#[test]
fn right_at_end_is_noop() {
    let mut t = Text::new();
    t.set_layout(vec![LineLayout::new(vec![RowLayout::new(vec![])])]);
    t.update(Key::Char('a'));
    t.update(Key::Char('b'));
    t.update(Key::Char('c'));
    t.set_layout(vec![LineLayout::new(vec![RowLayout::new(vec![1, 1, 1])])]);
    t.update(Key::End);
    assert_eq!(3, t.cursor().x());
    assert_eq!(0, t.cursor().y());
    t.update(Key::Right);
    assert_eq!(3, t.cursor().x());
    assert_eq!(0, t.cursor().y());
}

#[test]
fn home_then_end() {
    let mut t = Text::new();
    t.set_layout(vec![LineLayout::new(vec![RowLayout::new(vec![])])]);
    t.update(Key::Char('a'));
    t.update(Key::Char('b'));
    t.update(Key::Char('c'));
    t.set_layout(vec![LineLayout::new(vec![RowLayout::new(vec![2, 1, 3])])]);
    t.update(Key::Home);
    assert_eq!(0, t.cursor().x());
    assert_eq!(0, t.cursor().y());
    t.update(Key::End);
    // End lands on the row's grapheme count, independent of the widths.
    assert_eq!(3, t.cursor().x());
    assert_eq!(0, t.cursor().y());
}

#[test]
fn up_down_round_trip_on_equal_rows() {
    let mut t = Text::new();
    t.set_layout(vec![LineLayout::new(vec![RowLayout::new(vec![])])]);
    t.update(Key::Char('a'));
    t.update(Key::Char('b'));
    t.update(Key::Char('c'));
    t.set_layout(vec![LineLayout::new(vec![RowLayout::new(vec![1, 1, 1])])]);
    t.update(Key::Enter);
    t.set_layout(vec![
        LineLayout::new(vec![RowLayout::new(vec![1, 1, 1])]),
        LineLayout::new(vec![RowLayout::new(vec![])]),
    ]);
    t.update(Key::Char('d'));
    t.update(Key::Char('e'));
    t.update(Key::Char('f'));
    t.set_layout(vec![
        LineLayout::new(vec![RowLayout::new(vec![1, 1, 1])]),
        LineLayout::new(vec![RowLayout::new(vec![1, 1, 1])]),
    ]);
    t.update(Key::Left);
    assert_eq!(2, t.cursor().x());
    assert_eq!(1, t.cursor().y());
    t.update(Key::Up);
    assert_eq!(2, t.cursor().x());
    assert_eq!(0, t.cursor().y());
    t.update(Key::Down);
    assert_eq!(2, t.cursor().x());
    assert_eq!(1, t.cursor().y());
}

#[test]
fn up_preserves_visual_column_over_wide_grapheme() {
    // One logical line of three graphemes on two visual rows: the first row
    // holds one double-width grapheme, the second two single-width ones.
    let mut t = Text::new();
    t.set_layout(vec![LineLayout::new(vec![RowLayout::new(vec![])])]);
    t.update(Key::Char('a'));
    t.update(Key::Char('b'));
    t.update(Key::Char('c'));
    t.set_layout(vec![LineLayout::new(vec![
        RowLayout::new(vec![2]),
        RowLayout::new(vec![1, 1]),
    ])]);
    t.update(Key::Home);
    t.update(Key::Right);
    t.update(Key::Right);
    t.update(Key::Right);
    t.update(Key::Right);
    // Cursor now at the end of the second row: visual column 2.
    assert_eq!(2, t.cursor().x());
    assert_eq!(1, t.cursor().y());
    t.update(Key::Up);
    // The double-width grapheme fits within column 2, so the cursor lands
    // after it, not at grapheme index 2.
    assert_eq!(1, t.cursor().x());
    assert_eq!(0, t.cursor().y());
    t.update(Key::Down);
    assert_eq!(2, t.cursor().x());
    assert_eq!(1, t.cursor().y());
}

#[test]
fn delete_removes_grapheme_at_cursor() {
    // Forward delete removes the grapheme under the cursor (the resolved
    // index itself, not the one after it, which would run past the line's
    // end at the last grapheme).
    let mut t = Text::new();
    t.set_layout(vec![LineLayout::new(vec![RowLayout::new(vec![])])]);
    t.update(Key::Char('a'));
    t.update(Key::Char('b'));
    t.update(Key::Char('c'));
    t.set_layout(vec![LineLayout::new(vec![RowLayout::new(vec![1, 1, 1])])]);
    t.update(Key::Home);
    t.update(Key::Right);
    assert_eq!(1, t.cursor().x());
    t.update(Key::Delete);
    assert_eq!(&vec!["ac".to_string()], t.lines());
    assert_eq!(1, t.cursor().x());
    assert_eq!(0, t.cursor().y());
}

#[test]
fn delete_at_row_end_is_noop() {
    let mut t = Text::new();
    t.set_layout(vec![LineLayout::new(vec![RowLayout::new(vec![])])]);
    t.update(Key::Char('a'));
    t.update(Key::Char('b'));
    t.set_layout(vec![LineLayout::new(vec![RowLayout::new(vec![1, 1])])]);
    t.update(Key::Enter);
    t.set_layout(vec![
        LineLayout::new(vec![RowLayout::new(vec![1, 1])]),
        LineLayout::new(vec![RowLayout::new(vec![])]),
    ]);
    t.update(Key::Char('c'));
    t.set_layout(vec![
        LineLayout::new(vec![RowLayout::new(vec![1, 1])]),
        LineLayout::new(vec![RowLayout::new(vec![1])]),
    ]);
    t.update(Key::Up);
    t.update(Key::End);
    assert_eq!(2, t.cursor().x());
    assert_eq!(0, t.cursor().y());
    // Delete at the end of a row does not merge the next logical line.
    t.update(Key::Delete);
    assert_eq!(&vec!["ab".to_string(), "c".to_string()], t.lines());
    assert_eq!(2, t.cursor().x());
    assert_eq!(0, t.cursor().y());
}

#[test]
fn combining_character_keeps_cursor() {
    let mut t = Text::new();
    t.set_layout(vec![LineLayout::new(vec![RowLayout::new(vec![])])]);
    t.update(Key::Char('e'));
    t.set_layout(vec![LineLayout::new(vec![RowLayout::new(vec![1])])]);
    assert_eq!(1, t.cursor().x());
    // A combining acute accent joins the existing cluster: the grapheme
    // count does not grow, so the cursor must not move.
    t.update(Key::Char('\u{0301}'));
    assert_eq!(&vec!["e\u{0301}".to_string()], t.lines());
    assert_eq!(1, t.cursor().x());
    assert_eq!(0, t.cursor().y());
}

#[test]
fn backspace_removes_whole_cluster() {
    let mut t = Text::new();
    t.set_layout(vec![LineLayout::new(vec![RowLayout::new(vec![])])]);
    t.update(Key::Char('e'));
    t.set_layout(vec![LineLayout::new(vec![RowLayout::new(vec![1])])]);
    t.update(Key::Char('\u{0301}'));
    // One grapheme of two characters; the layout of one unit-width cell is
    // consistent, so the checked entry point accepts the backspace.
    let ok = t.update_checked(Key::Backspace);
    assert!(ok);
    assert_eq!(&vec!["".to_string()], t.lines());
    assert_eq!(0, t.cursor().x());
    assert_eq!(0, t.cursor().y());
}

#[test]
fn backspace_merges_logical_lines() {
    let mut t = Text::new();
    t.set_layout(vec![LineLayout::new(vec![RowLayout::new(vec![])])]);
    t.update(Key::Char('a'));
    t.update(Key::Char('b'));
    t.update(Key::Char('c'));
    t.set_layout(vec![LineLayout::new(vec![RowLayout::new(vec![1, 1, 1])])]);
    t.update(Key::Enter);
    t.set_layout(vec![
        LineLayout::new(vec![RowLayout::new(vec![1, 1, 1])]),
        LineLayout::new(vec![RowLayout::new(vec![])]),
    ]);
    t.update(Key::Char('d'));
    t.set_layout(vec![
        LineLayout::new(vec![RowLayout::new(vec![1, 1, 1])]),
        LineLayout::new(vec![RowLayout::new(vec![1])]),
    ]);
    t.update(Key::Home);
    assert_eq!(0, t.cursor().x());
    assert_eq!(1, t.cursor().y());
    t.update(Key::Backspace);
    assert_eq!(&vec!["abcd".to_string()], t.lines());
    assert_eq!(3, t.cursor().x());
    assert_eq!(0, t.cursor().y());
    assert_eq!("abcd", t.value());
}

#[test]
fn update_checked_rejects_stale_layout() {
    let mut t = Text::new();
    t.set_layout(vec![LineLayout::new(vec![RowLayout::new(vec![])])]);
    t.update(Key::Char('a'));
    t.update(Key::Char('b'));
    // The layout still describes an empty line: two graphemes are missing.
    assert!(!t.check_wf());
    let ok = t.update_checked(Key::Right);
    assert!(!ok);
    assert_eq!(&vec!["ab".to_string()], t.lines());
    assert_eq!(2, t.cursor().x());
    assert_eq!(0, t.cursor().y());
}

#[test]
fn update_checked_applies_when_consistent() {
    let mut t = Text::new();
    t.set_layout(vec![LineLayout::new(vec![RowLayout::new(vec![])])]);
    t.update(Key::Char('a'));
    t.update(Key::Char('b'));
    t.set_layout(vec![LineLayout::new(vec![RowLayout::new(vec![1, 1])])]);
    assert!(t.check_wf());
    t.update(Key::Home);
    let ok = t.update_checked(Key::Right);
    assert!(ok);
    assert_eq!(1, t.cursor().x());
    assert_eq!(0, t.cursor().y());
}

#[test]
fn update_checked_rejects_merge_into_nothing() {
    // One logical line soft-wrapped onto two visual rows: at the start of
    // the second row there is no previous logical line to merge into, so
    // the checked backspace refuses even though the layout is consistent.
    let mut t = Text::new();
    t.set_layout(vec![LineLayout::new(vec![RowLayout::new(vec![])])]);
    t.update(Key::Char('a'));
    t.update(Key::Char('b'));
    t.set_layout(vec![LineLayout::new(vec![
        RowLayout::new(vec![1]),
        RowLayout::new(vec![1]),
    ])]);
    t.update(Key::Home);
    t.update(Key::Right);
    t.update(Key::Right);
    assert_eq!(0, t.cursor().x());
    assert_eq!(1, t.cursor().y());
    assert!(t.check_wf());
    let ok = t.update_checked(Key::Backspace);
    assert!(!ok);
    assert_eq!(&vec!["ab".to_string()], t.lines());
    assert_eq!(0, t.cursor().x());
    assert_eq!(1, t.cursor().y());
}

#[test]
fn position_transforms() {
    let p = Position::new(3, 7);
    assert_eq!(3, p.x());
    assert_eq!(7, p.y());
    let q = p.set_x(5);
    assert_eq!(5, q.x());
    assert_eq!(7, q.y());
    let r = p.set_y(1);
    assert_eq!(3, r.x());
    assert_eq!(1, r.y());
    let s = p.add_x(-2);
    assert_eq!(1, s.x());
    assert_eq!(7, s.y());
    let u = p.add_y(4);
    assert_eq!(3, u.x());
    assert_eq!(11, u.y());
    let d = Position::default();
    assert_eq!(0, d.x());
    assert_eq!(0, d.y());
    assert_eq!(d, Position::new(0, 0));
}

#[test]
fn layout_accessors() {
    let row = RowLayout::new(vec![2, 1]);
    assert_eq!(&vec![2usize, 1usize], row.widths());
    let line = LineLayout::new(vec![RowLayout::new(vec![2, 1]), RowLayout::new(vec![1])]);
    assert_eq!(2, line.rows().len());
    assert_eq!(&vec![1usize], line.rows()[1].widths());
}

#[test]
fn char_backspace_round_trip_restores() {
    let mut t = Text::new();
    t.set_layout(vec![LineLayout::new(vec![RowLayout::new(vec![])])]);
    t.update(Key::Char('a'));
    t.update(Key::Char('b'));
    t.set_layout(vec![LineLayout::new(vec![RowLayout::new(vec![1, 1])])]);
    t.update(Key::Left);
    assert_eq!(1, t.cursor().x());
    // Insert a cluster of its own, then take it back out at once.
    t.update(Key::Char('X'));
    assert_eq!(&vec!["aXb".to_string()], t.lines());
    assert_eq!(2, t.cursor().x());
    t.update(Key::Backspace);
    assert_eq!(&vec!["ab".to_string()], t.lines());
    assert_eq!(1, t.cursor().x());
    assert_eq!(0, t.cursor().y());
}

#[test]
fn enter_backspace_round_trip_restores() {
    let mut t = Text::new();
    t.set_layout(vec![LineLayout::new(vec![RowLayout::new(vec![])])]);
    t.update(Key::Char('a'));
    t.update(Key::Char('b'));
    t.update(Key::Char('c'));
    t.set_layout(vec![LineLayout::new(vec![RowLayout::new(vec![1, 1, 1])])]);
    t.update(Key::Home);
    t.update(Key::Right);
    assert_eq!(1, t.cursor().x());
    t.update(Key::Enter);
    assert_eq!(&vec!["a".to_string(), "bc".to_string()], t.lines());
    assert_eq!(0, t.cursor().x());
    assert_eq!(1, t.cursor().y());
    // The caller pushes a fresh layout for the split buffer, then undoes
    // the split.
    t.set_layout(vec![
        LineLayout::new(vec![RowLayout::new(vec![1])]),
        LineLayout::new(vec![RowLayout::new(vec![1, 1])]),
    ]);
    t.update(Key::Backspace);
    assert_eq!(&vec!["abc".to_string()], t.lines());
    assert_eq!(1, t.cursor().x());
    assert_eq!(0, t.cursor().y());
}
