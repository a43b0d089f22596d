use sudoku::app::{App, Mode};
use sudoku::generator::Difficulty;
use sudoku::keys::{decide, handle_key, Command, Key, KeyInput, Pending};

fn press(c: char) -> KeyInput {
    KeyInput { key: Key::Char(c), ctrl: false }
}

fn key(k: Key) -> KeyInput {
    KeyInput { key: k, ctrl: false }
}

#[test]
fn motions_need_their_second_key() {
    let mut a = App::new_seeded(Difficulty::Easy, 4);
    let mut p = Pending::default();
    a.cursor = (5, 5);
    handle_key(&mut a, press('g'), &mut p);
    assert!(p.g);
    assert_eq!(a.cursor, (5, 5));
    handle_key(&mut a, press('g'), &mut p);
    assert!(!p.g);
    assert_eq!(a.cursor, (0, 5));
    handle_key(&mut a, press('G'), &mut p);
    assert_eq!(a.cursor, (8, 5));
    // A 'g' followed by another key does that key.
    handle_key(&mut a, press('g'), &mut p);
    handle_key(&mut a, press('k'), &mut p);
    assert!(!p.g);
    assert_eq!(a.cursor, (7, 5));
    handle_key(&mut a, press('0'), &mut p);
    assert_eq!(a.cursor, (7, 0));
    handle_key(&mut a, press('$'), &mut p);
    assert_eq!(a.cursor, (7, 8));
    handle_key(&mut a, press('b'), &mut p);
    assert_eq!(a.cursor, (7, 3));
    handle_key(&mut a, key(Key::Left), &mut p);
    assert_eq!(a.cursor, (7, 2));
}

#[test]
fn find_motion_takes_a_digit() {
    let mut a = App::new_seeded(Difficulty::Easy, 4);
    let mut p = Pending::default();
    handle_key(&mut a, press('f'), &mut p);
    assert!(p.find);
    handle_key(&mut a, press('x'), &mut p); // not a digit: the motion is dropped
    assert!(!p.find);
    let mut b = App::new_seeded(Difficulty::Easy, 4);
    let (cmd, next) = decide(&b, press('5'), Pending { g: false, find: true });
    assert_eq!(cmd, Command::FindNearest(5));
    assert!(!next.find);
    handle_key(&mut b, press('f'), &mut p);
    handle_key(&mut b, press('5'), &mut p);
    assert!(b.cursor.0 < 9 && b.cursor.1 < 9);
}

#[test]
fn keys_edit_the_board_and_undo() {
    let mut a = App::new_seeded(Difficulty::Medium, 8);
    let mut p = Pending::default();
    let (r, c) = (0..81)
        .map(|i| (i / 9, i % 9))
        .find(|&(r, c)| !a.board.is_given(r, c))
        .unwrap();
    a.cursor = (r, c);
    handle_key(&mut a, press('4'), &mut p);
    assert_eq!(a.board.value(r, c), Some(4));
    handle_key(&mut a, press('u'), &mut p);
    assert_eq!(a.board.value(r, c), None);
    handle_key(&mut a, press('r'), &mut p); // plain r does nothing
    assert_eq!(a.board.value(r, c), None);
    handle_key(&mut a, KeyInput { key: Key::Char('r'), ctrl: true }, &mut p);
    assert_eq!(a.board.value(r, c), Some(4));
    handle_key(&mut a, key(Key::Delete), &mut p);
    assert_eq!(a.board.value(r, c), None);
    handle_key(&mut a, press('m'), &mut p);
    assert_eq!(a.mode, Mode::Note);
    handle_key(&mut a, key(Key::Esc), &mut p);
    assert_eq!(a.mode, Mode::Normal);
    handle_key(&mut a, press('?'), &mut p);
    assert!(a.show_help);
    handle_key(&mut a, key(Key::Esc), &mut p);
    assert!(!a.show_help);
    handle_key(&mut a, press('c'), &mut p);
    assert!(a.check_errors);
    assert_eq!(a.status, "Error checking on");
    handle_key(&mut a, press('z'), &mut p); // unbound: clears the status line
    assert_eq!(a.status, "");
    handle_key(&mut a, press('q'), &mut p);
    assert!(a.should_quit);
}

#[test]
fn prompts_are_modal() {
    let mut a = App::new_seeded(Difficulty::Easy, 12);
    let mut p = Pending::default();
    handle_key(&mut a, press('p'), &mut p);
    assert_eq!(a.code_entry.as_deref(), Some(""));
    handle_key(&mut a, press('q'), &mut p); // typed into the prompt, not quit
    assert!(!a.should_quit);
    assert_eq!(a.code_entry.as_deref(), Some("q"));
    handle_key(&mut a, key(Key::Backspace), &mut p);
    assert_eq!(a.code_entry.as_deref(), Some(""));
    for ch in sudoku::generator::encode_code(Difficulty::Hard, 31).chars() {
        handle_key(&mut a, press(ch), &mut p);
    }
    handle_key(&mut a, key(Key::Enter), &mut p);
    assert!(a.code_entry.is_none());
    assert_eq!((a.difficulty, a.seed), (Difficulty::Hard, 31));

    handle_key(&mut a, press('d'), &mut p);
    assert!(a.difficulty_menu);
    assert_eq!(a.menu_index, 2);
    handle_key(&mut a, press('j'), &mut p);
    assert_eq!(a.menu_index, 3);
    handle_key(&mut a, key(Key::Down), &mut p);
    assert_eq!(a.menu_index, 0);
    handle_key(&mut a, press('h'), &mut p); // swallowed
    handle_key(&mut a, press('2'), &mut p);
    assert!(!a.difficulty_menu);
    assert_eq!(a.difficulty, Difficulty::Medium);
    assert_eq!(a.status, "New Medium game");

    handle_key(&mut a, press('N'), &mut p);
    assert_eq!(a.difficulty, Difficulty::Hard);
}

#[test]
fn share_card_keys() {
    let mut a = App::new_seeded(Difficulty::Easy, 2);
    let mut p = Pending::default();
    for r in 0..9 {
        for c in 0..9 {
            if a.board.value(r, c).is_none() {
                a.cursor = (r, c);
                handle_key(&mut a, press('H'), &mut p);
            }
        }
    }
    assert!(a.is_won());
    handle_key(&mut a, press('s'), &mut p);
    assert!(a.show_share && a.copy_requested);
    a.copy_requested = false;
    handle_key(&mut a, press('y'), &mut p);
    assert!(a.copy_requested);
    handle_key(&mut a, press('q'), &mut p); // closes the card, does not quit
    assert!(!a.show_share);
    assert!(!a.should_quit);
}

#[test]
fn full_counters_do_not_block_other_keys() {
    let mut a = App::new(Difficulty::Easy);
    a.mistakes = u32::MAX;
    a.hints_used = u32::MAX;
    let mut p = Pending::default();
    handle_key(&mut a, press('l'), &mut p);
    assert_eq!(a.cursor, (0, 1));
    handle_key(&mut a, press('q'), &mut p);
    assert!(a.should_quit);
}
