//! Keyboard handling: which game command a key press stands for, given the
//! open prompts and the pending multi-key motions, and carrying it out.
use vstd::prelude::*;
use crate::app::{
    box_jumped, clear_cell_post, cursor_index, code_entry_backspace_post, code_entry_push_post, fresh_game,
    find_nearest_post, hint_post, input_digit_post, new_game_message, redo_post, stepped,
    submit_post, undo_post, App, Direction, Mode,
};
use crate::board::board_solved;
use crate::generator::{difficulty_at, index_of, next_difficulty};

verus! {

/// A key, as far as the game tells keys apart.
#[derive(Clone, Copy, Debug, PartialEq, Eq, Structural)]
pub enum Key {
    Char(char),
    Enter,
    Esc,
    Backspace,
    Delete,
    Left,
    Right,
    Up,
    Down,
    /// Any other key.
    Other,
}

/// A key press: the key and whether Control was held.
#[derive(Clone, Copy, Debug, PartialEq, Eq, Structural)]
pub struct KeyInput {
    pub key: Key,
    pub ctrl: bool,
}

/// Tracks multi-key motions awaiting their second keypress.
#[derive(Clone, Copy, Debug, PartialEq, Eq, Structural)]
pub struct Pending {
    /// A `g` was pressed; the next `g` jumps to the top.
    pub g: bool,
    /// An `f` was pressed; the next digit jumps to the nearest cell with it.
    pub find: bool,
}

impl Default for Pending {
    fn default() -> (p: Pending)
        ensures
            p == (Pending { g: false, find: false }),
    {
        Pending { g: false, find: false }
    }
}

/// What a key press asks the game to do.
#[derive(Clone, Copy, Debug, PartialEq, Eq, Structural)]
pub enum Command {
    Nothing,
    SubmitCode,
    CancelCode,
    CodeBackspace,
    TypeCode(char),
    CopyShare,
    CloseShare,
    CloseMenu,
    MenuMove(i32),
    MenuConfirm,
    MenuPick(usize),
    FindNearest(u8),
    Top,
    Quit,
    Escape,
    ToggleHelp,
    Move(Direction),
    BoxJump(Direction),
    RowStart,
    RowEnd,
    Bottom,
    Digit(u8),
    ToggleMode,
    Clear,
    Undo,
    Redo,
    Hint,
    ToggleCheck,
    ToggleHighlight,
    OpenShare,
    OpenCodeEntry,
    OpenMenu,
    NewGame,
    NextDifficultyGame,
}

/// The digit 1..=9 that `c` stands for, if any.
pub open spec fn digit_of(c: char) -> Option<u8> {
    if '1' <= c && c <= '9' {
        Some((c as int - 48) as u8)
    } else {
        None
    }
}

/// What a key means in the main game view (no prompt open, no motion pending).
pub open spec fn game_command(k: KeyInput) -> Command {
    match k.key {
        Key::Char(c) => if c == 'q' {
            Command::Quit
        } else if c == '?' {
            Command::ToggleHelp
        } else if c == 'h' {
            Command::Move(Direction::Left)
        } else if c == 'j' {
            Command::Move(Direction::Down)
        } else if c == 'k' {
            Command::Move(Direction::Up)
        } else if c == 'l' {
            Command::Move(Direction::Right)
        } else if c == 'w' {
            Command::BoxJump(Direction::Right)
        } else if c == 'b' {
            Command::BoxJump(Direction::Left)
        } else if c == '0' {
            Command::RowStart
        } else if c == '$' {
            Command::RowEnd
        } else if c == 'G' {
            Command::Bottom
        } else if digit_of(c) is Some {
            Command::Digit(digit_of(c)->0)
        } else if c == 'm' {
            Command::ToggleMode
        } else if c == 'x' {
            Command::Clear
        } else if c == 'u' {
            Command::Undo
        } else if c == 'r' && k.ctrl {
            Command::Redo
        } else if c == 'H' {
            Command::Hint
        } else if c == 'c' {
            Command::ToggleCheck
        } else if c == 'v' {
            Command::ToggleHighlight
        } else if c == 's' {
            Command::OpenShare
        } else if c == 'p' {
            Command::OpenCodeEntry
        } else if c == 'd' {
            Command::OpenMenu
        } else if c == 'n' {
            Command::NewGame
        } else if c == 'N' {
            Command::NextDifficultyGame
        } else {
            Command::Nothing
        },
        Key::Esc => Command::Escape,
        Key::Left => Command::Move(Direction::Left),
        Key::Down => Command::Move(Direction::Down),
        Key::Up => Command::Move(Direction::Up),
        Key::Right => Command::Move(Direction::Right),
        Key::Backspace => Command::Clear,
        Key::Delete => Command::Clear,
        _ => Command::Nothing,
    }
}

/// The command a key press stands for in state `a` with the motions `p`
/// pending, and the motions pending afterwards. The code prompt, the share
/// card and the difficulty menu each take all keys while open; then a pending
/// `f` takes the next key, then a pending `g`; `g` and `f` start motions.
pub open spec fn key_command(a: App, k: KeyInput, p: Pending) -> (Command, Pending) {
    if a.code_entry is Some {
        (
            match k.key {
                Key::Enter => Command::SubmitCode,
                Key::Esc => Command::CancelCode,
                Key::Backspace => Command::CodeBackspace,
                Key::Char(c) => Command::TypeCode(c),
                _ => Command::Nothing,
            },
            p,
        )
    } else if a.show_share {
        (
            match k.key {
                Key::Char(c) => if c == 'y' {
                    Command::CopyShare
                } else if c == 's' || c == 'q' {
                    Command::CloseShare
                } else {
                    Command::Nothing
                },
                Key::Esc => Command::CloseShare,
                _ => Command::Nothing,
            },
            p,
        )
    } else if a.difficulty_menu {
        (
            match k.key {
                Key::Char(c) => if c == 'd' || c == 'q' {
                    Command::CloseMenu
                } else if c == 'j' {
                    Command::MenuMove(1i32)
                } else if c == 'k' {
                    Command::MenuMove(-1i32)
                } else if c == 'l' {
                    Command::MenuConfirm
                } else if '1' <= c && c <= '4' {
                    Command::MenuPick((c as int - 49) as usize)
                } else {
                    Command::Nothing
                },
                Key::Esc => Command::CloseMenu,
                Key::Down => Command::MenuMove(1i32),
                Key::Up => Command::MenuMove(-1i32),
                Key::Enter => Command::MenuConfirm,
                _ => Command::Nothing,
            },
            p,
        )
    } else if p.find {
        (
            match k.key {
                Key::Char(c) => if digit_of(c) is Some {
                    Command::FindNearest(digit_of(c)->0)
                } else {
                    Command::Nothing
                },
                _ => Command::Nothing,
            },
            Pending { find: false, ..p },
        )
    } else if p.g && k.key == Key::Char('g') {
        (Command::Top, Pending { g: false, ..p })
    } else if k.key == Key::Char('g') {
        (Command::Nothing, Pending { g: true, ..p })
    } else if k.key == Key::Char('f') {
        (Command::Nothing, Pending { g: false, find: true })
    } else {
        (game_command(k), Pending { g: false, ..p })
    }
}

/// `post` is `pre` after carrying out `cmd`.
pub open spec fn performs(pre: App, cmd: Command, post: App) -> bool {
    match cmd {
        Command::Nothing => post == pre,
        Command::SubmitCode => submit_post(pre, post),
        Command::CancelCode => post == (App { code_entry: None, ..pre }),
        Command::CodeBackspace => code_entry_backspace_post(pre, post),
        Command::TypeCode(c) => code_entry_push_post(pre, seq![c], post),
        Command::CopyShare => post == (App { copy_requested: true, ..pre }),
        Command::CloseShare => post == (App { show_share: false, ..pre }),
        Command::CloseMenu => post == (App { difficulty_menu: false, ..pre }),
        Command::MenuMove(delta) => post == (App {
            menu_index: ((pre.menu_index + delta) % 4) as usize,
            ..pre
        }),
        Command::MenuConfirm => fresh_game(post, difficulty_at(pre.menu_index as int))
            && post.status@ == new_game_message(difficulty_at(pre.menu_index as int)),
        Command::MenuPick(i) => {
            let d = difficulty_at(if i < 4 { i as int } else { pre.menu_index as int });
            fresh_game(post, d) && post.status@ == new_game_message(d)
        },
        Command::FindNearest(v) => find_nearest_post(pre, v, post),
        Command::Top => post == (App { cursor: (0usize, pre.cursor.1), ..pre }),
        Command::Quit => post == (App { should_quit: true, ..pre }),
        Command::Escape => if pre.show_help {
            post == (App { show_help: false, ..pre })
        } else {
            post == (App { mode: Mode::Normal, ..pre })
        },
        Command::ToggleHelp => post == (App { show_help: !pre.show_help, ..pre }),
        Command::Move(d) => post == (App { cursor: stepped(pre.cursor, d), ..pre }),
        Command::BoxJump(d) => post == (App { cursor: box_jumped(pre.cursor, d), ..pre }),
        Command::RowStart => post == (App { cursor: (pre.cursor.0, 0usize), ..pre }),
        Command::RowEnd => post == (App { cursor: (pre.cursor.0, 8usize), ..pre }),
        Command::Bottom => post == (App { cursor: (8usize, pre.cursor.1), ..pre }),
        Command::Digit(n) => input_digit_post(pre, n, post),
        Command::ToggleMode => post == (App {
            mode: if pre.mode == Mode::Normal {
                Mode::Note
            } else {
                Mode::Normal
            },
            ..pre
        }),
        Command::Clear => clear_cell_post(pre, post),
        Command::Undo => undo_post(pre, post),
        Command::Redo => redo_post(pre, post),
        Command::Hint => hint_post(pre, post),
        Command::ToggleCheck => {
            &&& post.status@ == if !pre.check_errors {
                "Error checking on"@
            } else {
                "Error checking off"@
            }
            &&& post == (App {
                check_errors: !pre.check_errors,
                used_check: pre.used_check || !pre.check_errors,
                status: post.status,
                ..pre
            })
        },
        Command::ToggleHighlight => {
            &&& post.status@ == if !pre.highlight_matches {
                "Match highlight on"@
            } else {
                "Match highlight off"@
            }
            &&& post == (App {
                highlight_matches: !pre.highlight_matches,
                used_highlight: pre.used_highlight || !pre.highlight_matches,
                status: post.status,
                ..pre
            })
        },
        Command::OpenShare => post == if pre.won {
            App { show_share: true, copy_requested: true, ..pre }
        } else {
            pre
        },
        Command::OpenCodeEntry => {
            &&& post.code_entry matches Some(buf) && buf@ == Seq::<char>::empty()
            &&& post == (App { code_entry: post.code_entry, show_share: false, ..pre })
        },
        Command::OpenMenu => post == (App {
            difficulty_menu: true,
            menu_index: index_of(pre.difficulty) as usize,
            ..pre
        }),
        Command::NewGame => fresh_game(post, pre.difficulty) && post.status@ == new_game_message(
            pre.difficulty,
        ),
        Command::NextDifficultyGame => fresh_game(post, next_difficulty(pre.difficulty))
            && post.status@ == new_game_message(next_difficulty(pre.difficulty)),
    }
}

/// The digit 1..=9 that `c` stands for, if any.
fn digit_value(c: char) -> (d: Option<u8>)
    ensures
        d == digit_of(c),
{
    if '1' <= c && c <= '9' {
        Some(((c as u32) - 48) as u8)
    } else {
        None
    }
}

/// What a key means in the main game view.
fn game_command_exec(k: KeyInput) -> (cmd: Command)
    ensures
        cmd == game_command(k),
{
    match k.key {
        Key::Char(c) => {
            if c == 'q' {
                Command::Quit
            } else if c == '?' {
                Command::ToggleHelp
            } else if c == 'h' {
                Command::Move(Direction::Left)
            } else if c == 'j' {
                Command::Move(Direction::Down)
            } else if c == 'k' {
                Command::Move(Direction::Up)
            } else if c == 'l' {
                Command::Move(Direction::Right)
            } else if c == 'w' {
                Command::BoxJump(Direction::Right)
            } else if c == 'b' {
                Command::BoxJump(Direction::Left)
            } else if c == '0' {
                Command::RowStart
            } else if c == '$' {
                Command::RowEnd
            } else if c == 'G' {
                Command::Bottom
            } else if let Some(n) = digit_value(c) {
                Command::Digit(n)
            } else if c == 'm' {
                Command::ToggleMode
            } else if c == 'x' {
                Command::Clear
            } else if c == 'u' {
                Command::Undo
            } else if c == 'r' && k.ctrl {
                Command::Redo
            } else if c == 'H' {
                Command::Hint
            } else if c == 'c' {
                Command::ToggleCheck
            } else if c == 'v' {
                Command::ToggleHighlight
            } else if c == 's' {
                Command::OpenShare
            } else if c == 'p' {
                Command::OpenCodeEntry
            } else if c == 'd' {
                Command::OpenMenu
            } else if c == 'n' {
                Command::NewGame
            } else if c == 'N' {
                Command::NextDifficultyGame
            } else {
                Command::Nothing
            }
        },
        Key::Esc => Command::Escape,
        Key::Left => Command::Move(Direction::Left),
        Key::Down => Command::Move(Direction::Down),
        Key::Up => Command::Move(Direction::Up),
        Key::Right => Command::Move(Direction::Right),
        Key::Backspace => Command::Clear,
        Key::Delete => Command::Clear,
        _ => Command::Nothing,
    }
}

/// The command a key press stands for, and the motions pending afterwards.
pub fn decide(app: &App, k: KeyInput, p: Pending) -> (r: (Command, Pending))
    ensures
        r == key_command(*app, k, p),
{
    // The code-entry prompt is modal: type or paste a code, Enter loads it.
    if app.code_entry.is_some() {
        let cmd = match k.key {
            Key::Enter => Command::SubmitCode,
            Key::Esc => Command::CancelCode,
            Key::Backspace => Command::CodeBackspace,
            Key::Char(c) => Command::TypeCode(c),
            _ => Command::Nothing,
        };
        return (cmd, p);
    }
    // The share card is modal: y re-copies, Esc/s/q closes it.
    if app.show_share {
        let cmd = match k.key {
            Key::Char(c) => {
                if c == 'y' {
                    Command::CopyShare
                } else if c == 's' || c == 'q' {
                    Command::CloseShare
                } else {
                    Command::Nothing
                }
            },
            Key::Esc => Command::CloseShare,
            _ => Command::Nothing,
        };
        return (cmd, p);
    }
    // The difficulty menu is modal: it swallows all input while open.
    if app.difficulty_menu {
        let cmd = match k.key {
            Key::Char(c) => {
                if c == 'd' || c == 'q' {
                    Command::CloseMenu
                } else if c == 'j' {
                    Command::MenuMove(1i32)
                } else if c == 'k' {
                    Command::MenuMove(-1i32)
                } else if c == 'l' {
                    Command::MenuConfirm
                } else if '1' <= c && c <= '4' {
                    Command::MenuPick(((c as u32) - 49) as usize)
                } else {
                    Command::Nothing
                }
            },
            Key::Esc => Command::CloseMenu,
            Key::Down => Command::MenuMove(1i32),
            Key::Up => Command::MenuMove(-1i32),
            Key::Enter => Command::MenuConfirm,
            _ => Command::Nothing,
        };
        return (cmd, p);
    }
    // Resolve a pending `f` prefix: `f<digit>` jumps to the nearest match.
    if p.find {
        let cmd = match k.key {
            Key::Char(c) => match digit_value(c) {
                Some(n) => Command::FindNearest(n),
                None => Command::Nothing,
            },
            _ => Command::Nothing,
        };
        return (cmd, Pending { find: false, ..p });
    }
    let is_g = match k.key {
        Key::Char(c) => c == 'g',
        _ => false,
    };
    // Resolve a pending `g` prefix: `gg` jumps to the top row.
    if p.g && is_g {
        return (Command::Top, Pending { g: false, ..p });
    }
    if is_g {
        return (Command::Nothing, Pending { g: true, ..p });
    }
    let is_f = match k.key {
        Key::Char(c) => c == 'f',
        _ => false,
    };
    if is_f {
        return (Command::Nothing, Pending { g: false, find: true });
    }
    (game_command_exec(k), Pending { g: false, ..p })
}

/// Carry out `cmd` on the game.
#[verifier::spinoff_prover]
#[verifier::rlimit(100)]
pub fn perform(app: &mut App, cmd: Command)
    requires
        old(app).wf(),
        cmd matches Command::Digit(n) ==> 1 <= n <= 9,
        cmd matches Command::Digit(n) ==> (n != old(app).solution@[cursor_index(*old(app))]
            ==> old(app).mistakes < u32::MAX),
        cmd is Hint ==> old(app).hints_used < u32::MAX,
        cmd matches Command::MenuMove(delta) ==> -1 <= delta <= 1,
    ensures
        performs(*old(app), cmd, *final(app)),
        final(app).wf(),
{
    match cmd {
        Command::Nothing => {},
        Command::SubmitCode => app.code_entry_submit(),
        Command::CancelCode => app.cancel_code_entry(),
        Command::CodeBackspace => app.code_entry_backspace(),
        Command::TypeCode(c) => {
            let mut text = String::new();
            text.push(c);
            app.code_entry_push(text.as_str());
        },
        Command::CopyShare => app.copy_requested = true,
        Command::CloseShare => app.close_share(),
        Command::CloseMenu => app.close_difficulty_menu(),
        Command::MenuMove(delta) => app.menu_move(delta),
        Command::MenuConfirm => app.menu_confirm(),
        Command::MenuPick(i) => {
            app.menu_select(i);
            app.menu_confirm();
        },
        Command::FindNearest(v) => app.find_nearest(v),
        Command::Top => app.move_top(),
        Command::Quit => app.should_quit = true,
        Command::Escape => {
            if app.show_help {
                app.show_help = false;
            } else {
                app.mode = Mode::Normal;
            }
        },
        Command::ToggleHelp => app.show_help = !app.show_help,
        Command::Move(d) => app.move_cursor(d),
        Command::BoxJump(d) => app.move_box(d),
        Command::RowStart => app.move_row_start(),
        Command::RowEnd => app.move_row_end(),
        Command::Bottom => app.move_bottom(),
        Command::Digit(n) => app.input_digit(n),
        Command::ToggleMode => app.toggle_mode(),
        Command::Clear => app.clear_cell(),
        Command::Undo => app.undo(),
        Command::Redo => app.redo(),
        Command::Hint => app.hint(),
        Command::ToggleCheck => app.toggle_check(),
        Command::ToggleHighlight => app.toggle_match_highlight(),
        Command::OpenShare => app.open_share(),
        Command::OpenCodeEntry => app.open_code_entry(),
        Command::OpenMenu => app.open_difficulty_menu(),
        Command::NewGame => {
            let d = app.difficulty;
            app.new_game(d);
        },
        Command::NextDifficultyGame => {
            let d = app.difficulty.next();
            app.new_game(d);
        },
    }
}

/// Handle one key press: clear the status line, then carry out the command the
/// key stands for and update the pending motions.
pub fn handle_key(app: &mut App, key: KeyInput, pending: &mut Pending)
    requires
        old(app).wf(),
        key_command(*old(app), key, *old(pending)).0 matches Command::Digit(n) ==> (n
            != old(app).solution@[cursor_index(*old(app))] ==> old(app).mistakes < u32::MAX),
        key_command(*old(app), key, *old(pending)).0 is Hint ==> old(app).hints_used < u32::MAX,
    ensures
        final(app).wf(),
        *final(pending) == key_command(*old(app), key, *old(pending)).1,
        exists|mid: App|
            mid == (App { status: mid.status, ..*old(app) }) && mid.status@ == Seq::<char>::empty()
                && #[trigger] performs(mid, key_command(*old(app), key, *old(pending)).0, *final(app)),
{
    app.status = String::new();
    let ghost mid = *app;
    let (cmd, next) = decide(app, key, *pending);
    proof {
        assert(key_command(mid, key, *old(pending)) == key_command(*old(app), key, *old(pending)));
    }
    perform(app, cmd);
    *pending = next;
}


/// Whatever key command a game carries out, it becomes won only when the command
/// is a digit, a hint or a redo that leaves the board solved, and it stops being
/// won only by an undo or by starting another game; while it stays won, its
/// frozen time and its animation clock stay as they were.
pub proof fn law_win_changes(pre: App, cmd: Command, post: App)
    requires
        pre.wf(),
        performs(pre, cmd, post),
    ensures
        post.won && !pre.won ==> board_solved(post.board@) && (cmd is Digit || cmd is Hint
            || cmd is Redo),
        pre.won && !post.won ==> (cmd is Undo || cmd is SubmitCode || cmd is MenuConfirm
            || cmd is MenuPick || cmd is NewGame || cmd is NextDifficultyGame),
        pre.won && post.won ==> post.win_elapsed == pre.win_elapsed && post.won_at == pre.won_at,
{
}

/// In the main game view (no code prompt, share card or menu open, no `f`
/// pending) each key stands for its game command: `h` `j` `k` `l` and the
/// arrows step, `w` / `b` jump a box, `0` / `$` go to the row's ends, `G` to
/// the bottom row, `1`-`9` enter that digit, `x`, Backspace and Delete clear the
/// cell, `u` undoes, Ctrl-`r` redoes, `H` hints, `m` switches modes, `c` and `v`
/// toggle error checking and match highlighting, `s` shares, `p` opens the code
/// prompt, `d` the difficulty menu, `n` / `N` start new games, `?` toggles help,
/// Esc escapes and `q` quits.
pub proof fn law_main_view_keys(a: App, p: Pending, ctrl: bool)
    requires
        a.code_entry is None,
        !a.show_share,
        !a.difficulty_menu,
        !p.find,
    ensures
        key_command(a, KeyInput { key: Key::Char('x'), ctrl }, p).0 == Command::Clear,
        key_command(a, KeyInput { key: Key::Backspace, ctrl }, p).0 == Command::Clear,
        key_command(a, KeyInput { key: Key::Delete, ctrl }, p).0 == Command::Clear,
        key_command(a, KeyInput { key: Key::Char('h'), ctrl }, p).0 == Command::Move(Direction::Left),
        key_command(a, KeyInput { key: Key::Char('j'), ctrl }, p).0 == Command::Move(Direction::Down),
        key_command(a, KeyInput { key: Key::Char('k'), ctrl }, p).0 == Command::Move(Direction::Up),
        key_command(a, KeyInput { key: Key::Char('l'), ctrl }, p).0 == Command::Move(Direction::Right),
        key_command(a, KeyInput { key: Key::Left, ctrl }, p).0 == Command::Move(Direction::Left),
        key_command(a, KeyInput { key: Key::Down, ctrl }, p).0 == Command::Move(Direction::Down),
        key_command(a, KeyInput { key: Key::Up, ctrl }, p).0 == Command::Move(Direction::Up),
        key_command(a, KeyInput { key: Key::Right, ctrl }, p).0 == Command::Move(Direction::Right),
        key_command(a, KeyInput { key: Key::Char('w'), ctrl }, p).0 == Command::BoxJump(
            Direction::Right,
        ),
        key_command(a, KeyInput { key: Key::Char('b'), ctrl }, p).0 == Command::BoxJump(
            Direction::Left,
        ),
        key_command(a, KeyInput { key: Key::Char('0'), ctrl }, p).0 == Command::RowStart,
        key_command(a, KeyInput { key: Key::Char('$'), ctrl }, p).0 == Command::RowEnd,
        key_command(a, KeyInput { key: Key::Char('G'), ctrl }, p).0 == Command::Bottom,
        forall|n: u8|
            1 <= n <= 9 ==> key_command(a, KeyInput { key: Key::Char((48 + n) as char), ctrl }, p).0
                == Command::Digit(n),
        key_command(a, KeyInput { key: Key::Char('u'), ctrl }, p).0 == Command::Undo,
        key_command(a, KeyInput { key: Key::Char('r'), ctrl: true }, p).0 == Command::Redo,
        key_command(a, KeyInput { key: Key::Char('H'), ctrl }, p).0 == Command::Hint,
        key_command(a, KeyInput { key: Key::Char('m'), ctrl }, p).0 == Command::ToggleMode,
        key_command(a, KeyInput { key: Key::Char('c'), ctrl }, p).0 == Command::ToggleCheck,
        key_command(a, KeyInput { key: Key::Char('v'), ctrl }, p).0 == Command::ToggleHighlight,
        key_command(a, KeyInput { key: Key::Char('s'), ctrl }, p).0 == Command::OpenShare,
        key_command(a, KeyInput { key: Key::Char('p'), ctrl }, p).0 == Command::OpenCodeEntry,
        key_command(a, KeyInput { key: Key::Char('d'), ctrl }, p).0 == Command::OpenMenu,
        key_command(a, KeyInput { key: Key::Char('n'), ctrl }, p).0 == Command::NewGame,
        key_command(a, KeyInput { key: Key::Char('N'), ctrl }, p).0 == Command::NextDifficultyGame,
        key_command(a, KeyInput { key: Key::Char('?'), ctrl }, p).0 == Command::ToggleHelp,
        key_command(a, KeyInput { key: Key::Esc, ctrl }, p).0 == Command::Escape,
        key_command(a, KeyInput { key: Key::Char('q'), ctrl }, p).0 == Command::Quit,
{
    assert forall|n: u8| 1 <= n <= 9 implies key_command(
        a,
        KeyInput { key: Key::Char((48 + n) as char), ctrl },
        p,
    ).0 == Command::Digit(n) by {
        let c = (48 + n) as char;
        assert(digit_of(c) == Some(n));
    }
}

/// The prompts and popups take the keys while open: in the code prompt Enter
/// submits, Esc cancels, Backspace deletes and any character is typed; on the
/// share card `y` copies and `s`, `q` or Esc close it; in the difficulty menu
/// `j` / Down and `k` / Up move, `l` / Enter confirm, `1`-`4` pick and `d`,
/// `q` or Esc close it. In the game view `g` then `g` goes to the top row and
/// `f` then a digit finds the nearest cell holding it (with no motion already
/// pending).
pub proof fn law_modal_keys(a: App, p: Pending, ctrl: bool, ch: char)
    ensures
        a.code_entry is Some ==> key_command(a, KeyInput { key: Key::Enter, ctrl }, p).0
            == Command::SubmitCode && key_command(a, KeyInput { key: Key::Esc, ctrl }, p).0
            == Command::CancelCode && key_command(a, KeyInput { key: Key::Backspace, ctrl }, p).0
            == Command::CodeBackspace && key_command(a, KeyInput { key: Key::Char(ch), ctrl }, p).0
            == Command::TypeCode(ch),
        a.code_entry is None && a.show_share ==> key_command(
            a,
            KeyInput { key: Key::Char('y'), ctrl },
            p,
        ).0 == Command::CopyShare && key_command(a, KeyInput { key: Key::Char('s'), ctrl }, p).0
            == Command::CloseShare && key_command(a, KeyInput { key: Key::Char('q'), ctrl }, p).0
            == Command::CloseShare && key_command(a, KeyInput { key: Key::Esc, ctrl }, p).0
            == Command::CloseShare,
        a.code_entry is None && !a.show_share && a.difficulty_menu ==> key_command(
            a,
            KeyInput { key: Key::Char('j'), ctrl },
            p,
        ).0 == Command::MenuMove(1i32) && key_command(a, KeyInput { key: Key::Down, ctrl }, p).0
            == Command::MenuMove(1i32) && key_command(a, KeyInput { key: Key::Char('k'), ctrl }, p).0
            == Command::MenuMove(-1i32) && key_command(a, KeyInput { key: Key::Up, ctrl }, p).0
            == Command::MenuMove(-1i32) && key_command(a, KeyInput { key: Key::Char('l'), ctrl }, p).0
            == Command::MenuConfirm && key_command(a, KeyInput { key: Key::Enter, ctrl }, p).0
            == Command::MenuConfirm && key_command(a, KeyInput { key: Key::Char('1'), ctrl }, p).0
            == Command::MenuPick(0) && key_command(a, KeyInput { key: Key::Char('4'), ctrl }, p).0
            == Command::MenuPick(3) && key_command(a, KeyInput { key: Key::Char('d'), ctrl }, p).0
            == Command::CloseMenu && key_command(a, KeyInput { key: Key::Char('q'), ctrl }, p).0
            == Command::CloseMenu && key_command(a, KeyInput { key: Key::Esc, ctrl }, p).0
            == Command::CloseMenu,
        a.code_entry is None && !a.show_share && !a.difficulty_menu && !p.find && !p.g
            ==> key_command(
            a,
            KeyInput { key: Key::Char('g'), ctrl },
            key_command(a, KeyInput { key: Key::Char('g'), ctrl }, p).1,
        ).0 == Command::Top,
        a.code_entry is None && !a.show_share && !a.difficulty_menu && !p.find ==> forall|n: u8|
            1 <= n <= 9 ==> key_command(
                a,
                KeyInput { key: Key::Char((48 + n) as char), ctrl },
                key_command(a, KeyInput { key: Key::Char('f'), ctrl }, p).1,
            ).0 == Command::FindNearest(n),
{
    assert forall|n: u8| 1 <= n <= 9 implies digit_of((48 + n) as char) == Some(n) by {}
}

/// What the motion and toggle commands do to the game: `gg` goes to the top
/// row and `G` to the bottom one, `0` / `$` to the row's first and last
/// column, keeping the other coordinate; a step moves one row or column; `m`
/// switches between normal and note mode; `q` asks to quit; `?` shows or hides
/// help; Esc leaves help, or else note mode. Nothing else changes, and the
/// board is never touched by them.
pub proof fn law_motions(pre: App, post: App, d: Direction)
    requires
        pre.wf(),
    ensures
        performs(pre, Command::Top, post) ==> post.cursor == (0usize, pre.cursor.1) && post.board
            == pre.board,
        performs(pre, Command::Bottom, post) ==> post.cursor == (8usize, pre.cursor.1)
            && post.board == pre.board,
        performs(pre, Command::RowStart, post) ==> post.cursor == (pre.cursor.0, 0usize)
            && post.board == pre.board,
        performs(pre, Command::RowEnd, post) ==> post.cursor == (pre.cursor.0, 8usize)
            && post.board == pre.board,
        performs(pre, Command::Move(d), post) ==> post.board == pre.board && (d == Direction::Down
            ==> post.cursor == (if pre.cursor.0 < 8 { (pre.cursor.0 + 1) as usize } else { 8usize }, pre.cursor.1))
            && (d == Direction::Up ==> post.cursor == (if pre.cursor.0 > 0 { (pre.cursor.0 - 1) as usize } else { 0usize }, pre.cursor.1))
            && (d == Direction::Right ==> post.cursor == (pre.cursor.0, if pre.cursor.1 < 8 { (pre.cursor.1 + 1) as usize } else { 8usize }))
            && (d == Direction::Left ==> post.cursor == (pre.cursor.0, if pre.cursor.1 > 0 { (pre.cursor.1 - 1) as usize } else { 0usize })),
        performs(pre, Command::ToggleMode, post) ==> post.mode != pre.mode && post.board == pre.board,
        performs(pre, Command::Quit, post) ==> post.should_quit && post.board == pre.board,
        performs(pre, Command::ToggleHelp, post) ==> post.show_help != pre.show_help,
        performs(pre, Command::Escape, post) ==> (pre.show_help ==> !post.show_help && post.mode
            == pre.mode) && (!pre.show_help ==> post.mode == Mode::Normal),
{
}

/// What the editing commands do at the cursor: a digit typed in normal mode on
/// a cell that is not a clue becomes its value; clearing empties a cell that is
/// not a clue; a hint on an empty cell that is not a clue reveals the
/// solution's digit there; undo brings back the last saved board and redo the
/// last undone one. A clue never changes.
pub proof fn law_edits(pre: App, post: App, n: u8)
    requires
        pre.wf(),
        1 <= n <= 9,
    ensures
        performs(pre, Command::Digit(n), post) && pre.mode == Mode::Normal && !pre.board@[9
            * pre.cursor.0 + pre.cursor.1].given ==> post.board@[9 * pre.cursor.0
            + pre.cursor.1].value == Some(n),
        performs(pre, Command::Clear, post) && !pre.board@[9 * pre.cursor.0 + pre.cursor.1].given
            ==> post.board@[9 * pre.cursor.0 + pre.cursor.1].value is None,
        performs(pre, Command::Hint, post) && !pre.board@[9 * pre.cursor.0 + pre.cursor.1].given
            && pre.board@[9 * pre.cursor.0 + pre.cursor.1].value is None ==> post.board@[9
            * pre.cursor.0 + pre.cursor.1].value == Some(pre.solution@[9 * pre.cursor.0
            + pre.cursor.1]),
        performs(pre, Command::Undo, post) && pre.undo_stack@.len() > 0 ==> post.board
            == pre.undo_stack@.last(),
        performs(pre, Command::Redo, post) && pre.redo_stack@.len() > 0 ==> post.board
            == pre.redo_stack@.last(),
        (performs(pre, Command::Digit(n), post) || performs(pre, Command::Clear, post) || performs(
            pre,
            Command::Hint,
            post,
        )) && pre.board@[9 * pre.cursor.0 + pre.cursor.1].given ==> post.board == pre.board,
{
    let i = 9 * pre.cursor.0 + pre.cursor.1;
    if performs(pre, Command::Digit(n), post) && pre.mode == Mode::Normal && !pre.board@[i].given {
        crate::app::law_digit_commits(pre, n, post);
    }
    if performs(pre, Command::Hint, post) && !pre.board@[i].given && pre.board@[i].value is None {
        crate::app::law_hint_commits(pre, post);
    }
    if performs(pre, Command::Clear, post) && !pre.board@[i].given {
        crate::app::law_clear_cell(pre, post);
    }
}

} // verus!
