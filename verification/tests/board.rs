use sudoku::board::{idx, Board, Cell};

#[test]
fn notes_toggle() {
    let mut c = Cell::default();
    assert!(!c.has_note(5));
    c.toggle_note(5);
    assert!(c.has_note(5));
    c.toggle_note(5);
    assert!(!c.has_note(5));
}

#[test]
fn setting_value_clears_notes() {
    let mut b = Board::new();
    b.cell_mut(0, 0).toggle_note(3);
    assert!(b.cell(0, 0).has_note(3));
    b.set_value(0, 0, 7);
    assert_eq!(b.value(0, 0), Some(7));
    assert!(!b.cell(0, 0).has_note(3));
}

#[test]
fn givens_are_immutable() {
    let mut digits = [0u8; 81];
    digits[0] = 4;
    let mut b = Board::from_digits(&digits);
    assert!(b.is_given(0, 0));
    assert!(!b.set_value(0, 0, 9));
    assert!(!b.clear_value(0, 0));
    assert_eq!(b.value(0, 0), Some(4));
}

#[test]
fn detects_row_col_box_conflicts() {
    let mut b = Board::new();
    b.set_value(0, 0, 5);
    assert!(b.would_conflict(0, 8, 5)); // same row
    assert!(b.would_conflict(8, 0, 5)); // same col
    assert!(b.would_conflict(1, 1, 5)); // same box
    assert!(!b.would_conflict(4, 4, 5)); // unrelated
}

#[test]
fn missing_digits_per_unit() {
    let mut b = Board::new();
    for c in 0..8 {
        b.set_value(0, c, (c + 1) as u8); // row 0 holds 1..=8
    }
    assert_eq!(b.missing_in_row(0), vec![9]);
    // Column 0 only has the 1 from above.
    assert_eq!(b.missing_in_col(0), vec![2, 3, 4, 5, 6, 7, 8, 9]);
    // Top-left box has 1, 2, 3 (cols 0..3 of row 0).
    assert_eq!(b.missing_in_box(1, 1), vec![4, 5, 6, 7, 8, 9]);
}

const SOLVED: [u8; 81] = [
    5, 3, 4, 6, 7, 8, 9, 1, 2, 6, 7, 2, 1, 9, 5, 3, 4, 8, 1, 9, 8, 3, 4, 2, 5, 6, 7, 8, 5, 9, 7,
    6, 1, 4, 2, 3, 4, 2, 6, 8, 5, 3, 7, 9, 1, 7, 1, 3, 9, 2, 4, 8, 5, 6, 9, 6, 1, 5, 3, 7, 2, 8,
    4, 2, 8, 7, 4, 1, 9, 6, 3, 5, 3, 4, 5, 2, 8, 6, 1, 7, 9,
];

#[test]
fn solved_detection() {
    // A valid completed grid.
    let b = Board::from_digits(&SOLVED);
    assert!(b.is_solved());
    assert_eq!(b.empty_count(), 0);
}

#[test]
fn idx_flattens_row_major() {
    assert_eq!(idx(0, 0), 0);
    assert_eq!(idx(3, 4), 31);
    assert_eq!(idx(8, 8), 80);
}

#[test]
fn toggling_one_note_keeps_the_others() {
    let mut c = Cell::default();
    c.toggle_note(1);
    c.toggle_note(9);
    assert_eq!(c.notes, 0b1_0000_0001);
    c.toggle_note(9);
    assert!(c.has_note(1));
    assert!(!c.has_note(9));
    c.remove_note(1);
    assert!(!c.has_note(1));
    c.remove_note(1);
    assert_eq!(c.notes, 0);
    c.toggle_note(4);
    c.clear_notes();
    assert_eq!(c.notes, 0);
    assert_eq!(c.value, None);
}

#[test]
fn clearing_values() {
    let mut b = Board::new();
    assert!(!b.clear_value(2, 2)); // already empty
    b.cell_mut(2, 2).toggle_note(6);
    assert!(b.set_value(2, 2, 6));
    assert_eq!(b.cell(2, 2).notes, 0);
    assert!(b.clear_value(2, 2));
    assert_eq!(b.value(2, 2), None);
    assert!(!b.is_given(2, 2));
}

#[test]
fn conflicts_and_counts() {
    let mut b = Board::new();
    b.set_value(4, 4, 3);
    assert!(!b.has_conflict(4, 4));
    b.set_value(3, 5, 3); // same box
    assert!(b.has_conflict(4, 4));
    assert!(b.has_conflict(3, 5));
    assert!(!b.has_conflict(0, 0)); // empty cells never conflict
    assert!(!b.is_solved());
    assert_eq!(b.count_value(3), 2);
    assert_eq!(b.count_value(4), 0);
    assert_eq!(b.empty_count(), 79);
}

#[test]
fn one_wrong_cell_is_not_solved() {
    let mut grid = SOLVED;
    grid[80] = 0;
    let mut b = Board::from_digits(&grid);
    assert!(!b.is_solved());
    assert!(b.set_value(8, 8, 8)); // a clash with the 8 in row 8
    assert!(!b.is_solved());
    assert!(b.set_value(8, 8, 9));
    assert!(b.is_solved());
}

#[test]
fn missing_in_full_and_empty_units() {
    let b = Board::from_digits(&SOLVED);
    assert!(b.missing_in_row(4).is_empty());
    assert!(b.missing_in_col(7).is_empty());
    assert!(b.missing_in_box(8, 8).is_empty());
    let e = Board::default();
    assert_eq!(e.missing_in_box(4, 7), vec![1, 2, 3, 4, 5, 6, 7, 8, 9]);
}

#[test]
fn cloned_board_is_independent() {
    let mut a = Board::new();
    a.set_value(1, 1, 2);
    let b = a.clone();
    a.set_value(1, 1, 3);
    assert_eq!(b.value(1, 1), Some(2));
    assert_eq!(a.value(1, 1), Some(3));
}

#[test]
fn setting_the_same_value_again_changes_nothing() {
    let mut b = Board::new();
    assert!(b.set_value(0, 0, 7));
    assert!(!b.set_value(0, 0, 7));
    assert!(b.set_value(0, 0, 8));
    b.cell_mut(1, 1).toggle_note(3);
    b.set_value(1, 1, 4);
    b.cell_mut(1, 1).toggle_note(2);
    // Same value, but the notes get cleared: the board changes.
    assert!(b.set_value(1, 1, 4));
    assert!(!b.cell(1, 1).has_note(2));
}
