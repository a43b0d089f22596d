use sudoku::board::Board;
use sudoku::app::App;
use sudoku::generator::{generate_seeded, Difficulty};
use sudoku::layout::panel_layout;
use sudoku::text::clock_text;

#[test]
fn clock_text_pads_minutes_and_seconds() {
    assert_eq!(clock_text(0), "00:00");
    assert_eq!(clock_text(65), "01:05");
    assert_eq!(clock_text(600), "10:00");
    assert_eq!(clock_text(6_000), "100:00");
}

#[test]
fn panel_hides_when_the_area_is_narrow() {
    assert_eq!(panel_layout(100, 40), (true, 70));
    assert_eq!(panel_layout(70, 40), (true, 70));
    assert_eq!(panel_layout(69, 40), (false, 40));
}

#[test]
fn redraw_is_faster_while_the_win_plays() {
    let mut a = App::new(Difficulty::Easy);
    assert_eq!(a.redraw_millis(), 250);
    for r in 0..9 {
        for c in 0..9 {
            a.cursor = (r, c);
            a.hint();
        }
    }
    assert!(a.is_won());
    assert_eq!(a.redraw_millis(), 33);
}

#[test]
fn finishing_a_copy_reports_it() {
    let mut a = App::new(Difficulty::Easy);
    a.copy_requested = true;
    a.finish_copy(true);
    assert!(!a.copy_requested);
    assert_eq!(a.status, "Copied to clipboard");
    a.finish_copy(false);
    assert_eq!(a.status, "Couldn't copy to clipboard");
}

#[test]
fn fresh_games_are_well_formed() {
    let mut a = App::new_seeded(Difficulty::Hard, 5);
    assert!(a.is_wf());
    a.cursor = (9, 0);
    assert!(!a.is_wf());
}

#[test]
fn new_seeded_shows_the_generated_puzzle() {
    let p = generate_seeded(Difficulty::Medium, 2024);
    let a = App::new_seeded(Difficulty::Medium, 2024);
    assert_eq!(a.solution, p.solution);
    for i in 0..81 {
        assert_eq!(a.board.cell(i / 9, i % 9), p.board.cell(i / 9, i % 9));
    }
}

#[test]
fn clues_are_never_flagged_wrong() {
    let mut a = App::new_seeded(Difficulty::Expert, 31);
    a.toggle_check();
    for r in 0..9 {
        for c in 0..9 {
            if a.board.is_given(r, c) {
                assert!(!a.is_wrong(r, c));
            }
        }
    }
}

#[test]
fn digits_left_to_place_count_down() {
    let mut b = Board::new();
    assert_eq!(b.left_to_place(4), 9);
    b.set_value(0, 0, 4);
    b.set_value(1, 3, 4);
    assert_eq!(b.left_to_place(4), 7);
    assert_eq!(b.left_to_place(5), 9);
}

#[test]
fn digits_placed_more_than_nine_times_leave_none_to_place() {
    let mut b = Board::new();
    for c in 0..9 {
        b.set_value(0, c, 3);
    }
    assert_eq!(b.left_to_place(3), 0);
    b.set_value(1, 0, 3);
    assert_eq!(b.count_value(3), 10);
    assert_eq!(b.left_to_place(3), 0);
}
