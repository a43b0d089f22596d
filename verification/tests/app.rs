use sudoku::app::{App, Direction, Mode};
use sudoku::board::Board;
use sudoku::generator::{encode_code, Difficulty};

fn app() -> App {
    App::new(Difficulty::Easy)
}

fn first_editable(a: &App) -> (usize, usize) {
    for r in 0..9 {
        for c in 0..9 {
            if !a.board.is_given(r, c) {
                return (r, c);
            }
        }
    }
    unreachable!()
}

#[test]
fn navigation_is_clamped() {
    let mut a = app();
    a.cursor = (0, 0);
    a.move_cursor(Direction::Up);
    a.move_cursor(Direction::Left);
    assert_eq!(a.cursor, (0, 0));
    a.move_bottom();
    a.move_row_end();
    assert_eq!(a.cursor, (8, 8));
    a.move_cursor(Direction::Down);
    a.move_cursor(Direction::Right);
    assert_eq!(a.cursor, (8, 8));
}

#[test]
fn pasting_a_code_reproduces_the_same_puzzle() {
    // One player's game and its share code.
    let mine = app();
    let code = mine.code();

    // A friend pastes the (possibly messy) code into their game.
    let mut friend = App::new(Difficulty::Expert); // start unrelated
    friend.open_code_entry();
    friend.code_entry_push(&format!("Puzzle #{} ", code));
    friend.code_entry_submit();

    // The prompt closed and they're on the exact same board and difficulty.
    assert!(friend.code_entry.is_none());
    assert_eq!(friend.difficulty, mine.difficulty);
    assert_eq!(friend.code(), code);
    for i in 0..81 {
        assert_eq!(
            friend.board.value(i / 9, i % 9),
            mine.board.value(i / 9, i % 9)
        );
    }
}

#[test]
fn bad_code_keeps_prompt_open() {
    let mut a = app();
    a.open_code_entry();
    a.code_entry_push("###");
    a.code_entry_submit();
    // Rejected: prompt stays open with the buffer intact and an error set.
    assert_eq!(a.code_entry.as_deref(), Some("###"));
    assert!(!a.status.is_empty());
}

#[test]
fn box_jump() {
    let mut a = app();
    a.cursor = (0, 0);
    a.move_box(Direction::Right);
    assert_eq!(a.cursor, (0, 3));
    a.move_box(Direction::Right);
    assert_eq!(a.cursor, (0, 6));
    a.move_box(Direction::Right);
    assert_eq!(a.cursor, (0, 6));
}

#[test]
fn note_mode_toggles_notes() {
    let mut a = app();
    // Find an empty, non-given cell.
    let (er, ec) = first_editable(&a);
    a.cursor = (er, ec);
    a.mode = Mode::Note;
    a.input_digit(4);
    assert!(a.board.cell(er, ec).has_note(4));
    a.input_digit(4);
    assert!(!a.board.cell(er, ec).has_note(4));
}

#[test]
fn undo_redo_roundtrip() {
    let mut a = app();
    let (er, ec) = first_editable(&a);
    a.cursor = (er, ec);
    a.mode = Mode::Normal;
    a.input_digit(5);
    assert_eq!(a.board.value(er, ec), Some(5));
    a.undo();
    assert_eq!(a.board.value(er, ec), None);
    a.redo();
    assert_eq!(a.board.value(er, ec), Some(5));
}

#[test]
fn find_nearest_jumps_to_closest() {
    let mut a = app();
    // Clear any givens so we control the board, then plant two 7s.
    a.board = Board::new();
    a.board.set_value(0, 5, 7);
    a.board.set_value(8, 8, 7);
    a.cursor = (0, 0);
    a.find_nearest(7);
    assert_eq!(a.cursor, (0, 5)); // closer of the two

    a.cursor = (8, 7);
    a.find_nearest(7);
    assert_eq!(a.cursor, (8, 8));

    // No 3 anywhere: cursor stays put, status set.
    a.cursor = (4, 4);
    a.find_nearest(3);
    assert_eq!(a.cursor, (4, 4));
    assert!(!a.status.is_empty());
}

#[test]
fn solving_arms_the_win_animation() {
    let mut a = app();
    assert!(!a.is_won());
    assert!(a.win_anim_elapsed().is_none());
    // Reveal every empty cell to force a solved board.
    for r in 0..9 {
        for c in 0..9 {
            if a.board.value(r, c).is_none() {
                a.cursor = (r, c);
                a.hint();
            }
        }
    }
    assert!(a.is_won());
    // The animation clock is running once solved.
    assert!(a.win_anim_elapsed().is_some());
    // Undo retreats from the win and disarms the animation.
    a.undo();
    assert!(!a.is_won());
    assert!(a.win_anim_elapsed().is_none());
}

#[test]
fn share_text_summarizes_the_game() {
    let mut a = app();
    // Error-check was toggled on then off; match-highlight never used.
    a.toggle_check();
    a.toggle_check();

    let empties: Vec<(usize, usize)> = (0..9)
        .flat_map(|r| (0..9).map(move |c| (r, c)))
        .filter(|&(r, c)| a.board.value(r, c).is_none())
        .collect();

    // First empty: one wrong guess (a mistake), then the right value.
    let (r0, c0) = empties[0];
    a.cursor = (r0, c0);
    let sol0 = a.solution[r0 * 9 + c0];
    a.input_digit(if sol0 == 1 { 2 } else { 1 });
    a.input_digit(sol0);

    // Second empty: revealed with a hint.
    let (r1, c1) = empties[1];
    a.cursor = (r1, c1);
    a.hint();

    // Everything else typed correctly.
    for &(r, c) in &empties[2..] {
        a.cursor = (r, c);
        a.input_digit(a.solution[r * 9 + c]);
    }

    assert!(a.is_won());
    assert_eq!(a.mistakes, 1);
    assert_eq!(a.hints_used, 1);
    assert!(a.used_check);
    assert!(!a.used_highlight);

    let s = a.share_text();
    assert!(s.contains("Solved!"));
    assert!(s.contains("1 mistake") && !s.contains("1 mistakes"));
    assert!(s.contains("1 hint") && !s.contains("1 hints"));
    assert!(s.contains("Error-check: used"));
    assert!(s.contains("Match-highlight: off"));

    // Count squares in the 9-cell grid rows only (the legend line also
    // carries one of each swatch).
    let grid: String = s
        .lines()
        .filter(|l| l.chars().count() == 9 && l.chars().all(|ch| "🟦🟩🟧".contains(ch)))
        .collect();
    let givens = (0..81).filter(|&i| a.board.is_given(i / 9, i % 9)).count();
    assert_eq!(grid.matches('🟧').count(), 1); // exactly one hinted cell
    assert_eq!(grid.matches('🟦').count(), givens); // every clue
    assert_eq!(grid.chars().count(), 81);
}

#[test]
fn hint_fills_solution_value() {
    let mut a = app();
    let (mut er, mut ec) = (0, 0);
    'outer: for r in 0..9 {
        for c in 0..9 {
            if a.board.value(r, c).is_none() {
                er = r;
                ec = c;
                break 'outer;
            }
        }
    }
    a.cursor = (er, ec);
    a.hint();
    assert_eq!(a.board.value(er, ec), Some(a.solution[er * 9 + ec]));
}

#[test]
fn new_game_starts_fresh() {
    let mut a = App::new_seeded(Difficulty::Hard, 5);
    assert_eq!(a.seed, 5);
    assert_eq!(a.code(), encode_code(Difficulty::Hard, 5));
    assert_eq!(a.menu_index, 2);
    a.cursor = (3, 3);
    a.new_game(Difficulty::Medium);
    assert_eq!(a.difficulty, Difficulty::Medium);
    assert_eq!(a.cursor, (0, 0));
    assert_eq!(a.status, "New Medium game");
    assert!(!a.is_won());
}

#[test]
fn menu_wraps_and_confirms() {
    let mut a = app();
    a.open_difficulty_menu();
    assert!(a.difficulty_menu);
    assert_eq!(a.menu_index, 0);
    a.menu_move(-1);
    assert_eq!(a.menu_index, 3);
    a.menu_move(1);
    assert_eq!(a.menu_index, 0);
    a.menu_move(6);
    assert_eq!(a.menu_index, 2);
    a.menu_select(7); // out of range: ignored
    assert_eq!(a.menu_index, 2);
    a.menu_select(1);
    a.menu_confirm();
    assert_eq!(a.difficulty, Difficulty::Medium);
    assert!(!a.difficulty_menu);
    assert_eq!(a.status, "New Medium game");
    a.open_difficulty_menu();
    a.close_difficulty_menu();
    assert!(!a.difficulty_menu);
}

#[test]
fn code_entry_editing() {
    let mut a = app();
    a.code_entry_push("ignored");
    assert!(a.code_entry.is_none());
    a.open_code_entry();
    a.code_entry_push("1A");
    a.code_entry_push("x");
    a.code_entry_backspace();
    assert_eq!(a.code_entry.as_deref(), Some("1A"));
    a.code_entry_backspace();
    a.code_entry_backspace();
    a.code_entry_backspace();
    assert_eq!(a.code_entry.as_deref(), Some(""));
    a.cancel_code_entry();
    assert!(a.code_entry.is_none());
    a.code_entry_submit(); // nothing to submit: no change
    assert!(a.code_entry.is_none());
}

#[test]
fn submitted_code_loads_the_puzzle() {
    let mut a = app();
    a.open_code_entry();
    a.code_entry_push(&encode_code(Difficulty::Expert, 77));
    a.code_entry_submit();
    assert!(a.code_entry.is_none());
    assert_eq!(a.difficulty, Difficulty::Expert);
    assert_eq!(a.seed, 77);
    assert_eq!(a.status, format!("Loaded puzzle #{} (Expert)", encode_code(Difficulty::Expert, 77)));
}

#[test]
fn clue_and_note_messages() {
    let mut a = App::new_seeded(Difficulty::Easy, 11);
    let given = (0..81).find(|&i| a.board.is_given(i / 9, i % 9)).unwrap();
    a.cursor = (given / 9, given % 9);
    a.input_digit(1);
    assert_eq!(a.status, "That cell is a clue");
    a.hint();
    assert_eq!(a.status, "Move to an empty cell for a hint");
    let (er, ec) = first_editable(&a);
    a.cursor = (er, ec);
    a.input_digit(3);
    a.toggle_mode();
    assert_eq!(a.mode, Mode::Note);
    a.input_digit(4);
    assert_eq!(a.status, "Clear the value before adding notes");
}

#[test]
fn typing_a_wrong_digit_counts_a_mistake() {
    let mut a = App::new_seeded(Difficulty::Medium, 21);
    let (er, ec) = first_editable(&a);
    a.cursor = (er, ec);
    let sol = a.solution[er * 9 + ec];
    let wrong = if sol == 9 { 1 } else { sol + 1 };
    a.input_digit(wrong);
    assert_eq!(a.mistakes, 1);
    assert!(!a.is_wrong(er, ec)); // only flagged while checking
    a.toggle_check();
    assert_eq!(a.status, "Error checking on");
    assert!(a.is_wrong(er, ec));
    a.input_digit(sol);
    assert_eq!(a.mistakes, 1);
    assert!(!a.is_wrong(er, ec));
}

#[test]
fn committing_a_digit_clears_peer_notes() {
    let mut a = app();
    a.board = Board::new();
    a.cursor = (4, 4);
    a.mode = Mode::Note;
    a.input_digit(6);
    a.cursor = (4, 0);
    a.input_digit(6); // same row
    a.cursor = (0, 4);
    a.input_digit(6); // same column
    a.cursor = (3, 3);
    a.input_digit(6); // same box
    a.cursor = (0, 0);
    a.input_digit(6); // unrelated
    a.cursor = (4, 4);
    a.input_digit(6); // toggle it back off at the target
    a.mode = Mode::Normal;
    a.input_digit(6);
    assert!(!a.board.cell(4, 0).has_note(6));
    assert!(!a.board.cell(0, 4).has_note(6));
    assert!(!a.board.cell(3, 3).has_note(6));
    assert!(a.board.cell(0, 0).has_note(6));
}

#[test]
fn clear_cell_clears_value_then_notes() {
    let mut a = app();
    a.board = Board::new();
    a.cursor = (2, 2);
    a.mode = Mode::Note;
    a.input_digit(2);
    a.clear_cell();
    assert_eq!(a.board.cell(2, 2).notes, 0);
    a.mode = Mode::Normal;
    a.input_digit(8);
    a.clear_cell();
    assert_eq!(a.board.value(2, 2), None);
    let depth = a.undo_stack.len();
    a.clear_cell(); // nothing left to clear: no new undo step
    assert_eq!(a.undo_stack.len(), depth);
}

#[test]
fn undo_and_redo_with_empty_history() {
    let mut a = app();
    a.undo();
    assert_eq!(a.status, "Nothing to undo");
    a.redo();
    assert_eq!(a.status, "Nothing to redo");
    let (er, ec) = first_editable(&a);
    a.cursor = (er, ec);
    a.input_digit(2);
    a.input_digit(3);
    a.undo();
    a.undo();
    assert_eq!(a.board.value(er, ec), None);
    a.redo();
    assert_eq!(a.board.value(er, ec), Some(2));
    a.input_digit(4); // a new edit drops the redo history
    assert!(a.redo_stack.is_empty());
}

#[test]
fn toggles_and_share_card() {
    let mut a = app();
    a.toggle_match_highlight();
    assert!(a.highlight_matches && a.used_highlight);
    assert_eq!(a.status, "Match highlight on");
    a.toggle_match_highlight();
    assert!(!a.highlight_matches && a.used_highlight);
    assert_eq!(a.status, "Match highlight off");
    a.open_share(); // not won yet
    assert!(!a.show_share && !a.copy_requested);
    for r in 0..9 {
        for c in 0..9 {
            if a.board.value(r, c).is_none() {
                a.cursor = (r, c);
                a.hint();
            }
        }
    }
    assert_eq!(a.status, "Solved! Press 'n' for a new game");
    a.open_share();
    assert!(a.show_share && a.copy_requested);
    a.close_share();
    assert!(!a.show_share);
    let elapsed = a.elapsed();
    assert_eq!(a.elapsed(), elapsed); // frozen once won
}

#[test]
fn share_text_at_exact_header() {
    let a = App::new_seeded(Difficulty::Hard, 3);
    let s = a.share_text_at(65);
    assert!(s.starts_with("Sudoku 🟠 Hard — Solved!\n⏱️ 01:05  ❌ 0 mistakes  💡 0 hints\n"));
    assert!(s.contains("🔆 Match-highlight: off   🔍 Error-check: off\n\n"));
    assert!(s.ends_with(&format!("\n🟦 clue  🟩 you  🟧 hint\n\n🧩 Puzzle #{}", a.code())));
    let long = a.share_text_at(3600 * 2 + 7);
    assert!(long.contains("⏱️ 120:07 "));
}

#[test]
fn find_nearest_prefers_top_left_on_ties() {
    let mut a = app();
    a.board = Board::new();
    a.board.set_value(3, 4, 2);
    a.board.set_value(4, 3, 2);
    a.board.set_value(4, 5, 2);
    a.cursor = (4, 4);
    a.find_nearest(2);
    assert_eq!(a.cursor, (3, 4));
    a.find_nearest(9);
    assert_eq!(a.status, "No 9 on the board");
}
