use sudoku::app::{App, Mode};
use sudoku::base64::base64;
use sudoku::board::{Board, Cell};
use sudoku::generator::Difficulty;
use sudoku::layout::{
    border_text, cell_glyphs, cell_highlight, cell_ink, centered_rect, junction, unit_contains,
    CellSize, Highlight, Ink,
};

#[test]
fn match_highlight_spans_every_units_with_the_digit() {
    let mut app = App::new(Difficulty::Easy);
    // Controlled board: two 9s in unrelated row/col/box.
    app.board = Board::new();
    app.board.set_value(0, 0, 9);
    app.board.set_value(4, 4, 9);
    app.cursor = (0, 0);

    // (4, 8) shares row 4 with the second 9 but none of the cursor's units.
    // Off: not highlighted. On: highlighted as a peer.
    app.highlight_matches = false;
    assert_eq!(cell_highlight(&app, 4, 8), None);
    app.highlight_matches = true;
    assert_eq!(cell_highlight(&app, 4, 8), Some(Highlight::Peer));

    // The other 9 itself stays a same-value match, and the cursor stays selected.
    assert_eq!(cell_highlight(&app, 4, 4), Some(Highlight::Same));
    assert_eq!(cell_highlight(&app, 0, 0), Some(Highlight::Select));

    // A cell touching no 9's unit is left alone even with highlight on.
    assert_eq!(cell_highlight(&app, 7, 2), None);
}

#[test]
fn highlight_cursor_conflict_and_win() {
    let mut app = App::new(Difficulty::Easy);
    app.board = Board::new();
    app.board.set_value(1, 1, 5);
    app.board.set_value(1, 7, 5);
    app.cursor = (6, 6);
    assert_eq!(cell_highlight(&app, 1, 1), Some(Highlight::Conflict));
    assert_eq!(cell_highlight(&app, 7, 7), Some(Highlight::Peer)); // cursor's box
    assert_eq!(cell_highlight(&app, 2, 2), None);
    app.mode = Mode::Note;
    assert_eq!(cell_highlight(&app, 6, 6), Some(Highlight::SelectNote));
    assert!(unit_contains(&app, 1, 4, 5));
    assert!(!unit_contains(&app, 5, 5, 5));
}

#[test]
fn glyph_inks() {
    let mut app = App::new(Difficulty::Easy);
    app.board = Board::new();
    app.board.set_value(0, 0, 3);
    app.board.set_value(0, 1, 3);
    app.board.set_value(5, 5, 4);
    assert_eq!(cell_ink(&app, 0, 0), (Ink::Wrong, false));
    assert_eq!(cell_ink(&app, 5, 5), (Ink::User, false));
    assert_eq!(cell_ink(&app, 8, 8), (Ink::Note, false));
    let mut digits = [0u8; 81];
    digits[2] = 7;
    app.board = Board::from_digits(&digits);
    assert_eq!(cell_ink(&app, 0, 2), (Ink::Given, true));
    app.won = true;
    assert_eq!(cell_ink(&app, 0, 2), (Ink::Won, true));
}

#[test]
fn junctions_of_the_grid() {
    assert_eq!(junction(0, 0), '┏');
    assert_eq!(junction(0, 9), '┓');
    assert_eq!(junction(9, 0), '┗');
    assert_eq!(junction(9, 9), '┛');
    assert_eq!(junction(0, 3), '┳');
    assert_eq!(junction(0, 4), '┯');
    assert_eq!(junction(9, 6), '┻');
    assert_eq!(junction(9, 1), '┷');
    assert_eq!(junction(3, 0), '┣');
    assert_eq!(junction(2, 0), '┠');
    assert_eq!(junction(6, 9), '┫');
    assert_eq!(junction(5, 9), '┨');
    assert_eq!(junction(1, 1), '┼');
    assert_eq!(junction(3, 1), '┿');
    assert_eq!(junction(1, 3), '╂');
    assert_eq!(junction(3, 3), '╋');
}

#[test]
fn border_lines() {
    assert_eq!(border_text(0, 1), "┏━┯━┯━┳━┯━┯━┳━┯━┯━┓");
    assert_eq!(border_text(1, 2), "┠──┼──┼──╂──┼──┼──╂──┼──┼──┨");
    assert_eq!(border_text(9, 0), "┗┷┷┻┷┷┻┷┷┛");
}

#[test]
fn cell_sizes_fit_the_terminal() {
    let s = CellSize::fit(40, 90);
    assert_eq!((s.w, s.h, s.inner_lines), (5, 3, true));
    assert_eq!((s.board_w(), s.board_h()), (55, 37));
    assert!(s.shows_notes());
    let s = CellSize::fit(33, 100);
    assert_eq!((s.w, s.h, s.inner_lines), (5, 3, false));
    let s = CellSize::fit(23, 40);
    assert_eq!((s.w, s.h, s.inner_lines), (3, 2, false));
    assert!(!s.shows_notes());
    let s = CellSize::fit(19, 50);
    assert_eq!((s.w, s.h, s.inner_lines), (4, 1, true));
    let s = CellSize::fit(5, 5);
    assert_eq!((s.w, s.h, s.inner_lines), (3, 1, false));
    assert_eq!(s.board_h(), 13);
}

#[test]
fn glyphs_show_values_and_notes() {
    let tall = CellSize { w: 5, h: 3, inner_lines: true };
    let value = Cell { value: Some(7), given: false, notes: 0 };
    assert_eq!(cell_glyphs(&value, &tall, 0), "     ");
    assert_eq!(cell_glyphs(&value, &tall, 1), "  7  ");
    let mut notes = Cell::default();
    notes.toggle_note(1);
    notes.toggle_note(3);
    notes.toggle_note(5);
    notes.toggle_note(9);
    assert_eq!(cell_glyphs(&notes, &tall, 0), "1   3");
    assert_eq!(cell_glyphs(&notes, &tall, 1), "  5  ");
    assert_eq!(cell_glyphs(&notes, &tall, 2), "    9");
    let narrow = CellSize { w: 3, h: 3, inner_lines: false };
    assert_eq!(cell_glyphs(&notes, &narrow, 0), "1 3");
    let short = CellSize { w: 3, h: 1, inner_lines: false };
    assert_eq!(cell_glyphs(&notes, &short, 0), "135");
    let mut two = Cell::default();
    two.toggle_note(2);
    two.toggle_note(8);
    let wide_short = CellSize { w: 5, h: 2, inner_lines: false };
    assert_eq!(cell_glyphs(&two, &wide_short, 1), " 28  ");
    assert_eq!(cell_glyphs(&two, &wide_short, 0), "     ");
    assert_eq!(cell_glyphs(&Cell::default(), &tall, 1), "     ");
}

#[test]
fn centered_rectangles() {
    assert_eq!(centered_rect(44, 10, 0, 0, 90, 40), (23, 15, 44, 10));
    assert_eq!(centered_rect(44, 10, 2, 3, 20, 5), (2, 3, 20, 5));
    assert_eq!(centered_rect(5, 4, 10, 10, 10, 10), (12, 13, 5, 4));
}

#[test]
fn base64_encodes_standard_alphabet() {
    assert_eq!(base64(b""), "");
    assert_eq!(base64(b"f"), "Zg==");
    assert_eq!(base64(b"fo"), "Zm8=");
    assert_eq!(base64(b"foo"), "Zm9v");
    assert_eq!(base64(b"foobar"), "Zm9vYmFy");
    assert_eq!(base64(b"hello"), "aGVsbG8=");
    assert_eq!(base64(&[0xfb, 0xff, 0xbf]), "+/+/");
    assert_eq!(base64("🟩".as_bytes()), "8J+fqQ==");
}
