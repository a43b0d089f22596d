//! Application state and game logic, independent of the terminal frontend.
use vstd::prelude::*;
use vstd::string::StringExecFns;
use crate::board::{
    blank_cell, board_solved, conflicts_at, law_toggle_note_twice, lemma_note_bits, note_in,
    cell_index, note_bit, same_unit,
    Board, Cell,
};
use crate::search::is_solved_grid;
use crate::generator::{
    self, law_share_code_in_text, law_share_code_roundtrip, same_ignoring_case, is_code_char, base36_text, decoded, difficulty_at, index_of, label_text, badge_text, packed_code,
    sound_puzzle, board_cells, seeded_grid, seeded_solution, Difficulty, Puzzle,
};
use crate::text::{decimal, decimal2, push_decimal, push_decimal2};
use std::time::{Duration, Instant};

verus! {

broadcast use crate::board::lemma_board_len;

#[verifier::external_type_specification]
#[verifier::external_body]
pub struct ExInstant(Instant);

/// `Instant::now`: the current time. It comes from the clock, so nothing about
/// it is stated.
#[verifier::external_body]
fn clock_now() -> Instant {
    Instant::now()
}

/// `Instant::elapsed`: the time since `t`, read from the clock; nothing about
/// it is stated.
#[verifier::external_body]
fn clock_since(t: &Instant) -> Duration {
    t.elapsed()
}

/// `Duration::as_secs`: the whole seconds of `d`. A `Duration` is opaque here,
/// so the number is left unsaid.
#[verifier::external_body]
fn whole_secs(d: &Duration) -> u64 {
    d.as_secs()
}

/// Input mode, à la vim.
#[derive(Clone, Copy, Debug, PartialEq, Eq, Structural)]
pub enum Mode {
    /// Digits place a committed value.
    Normal,
    /// Digits toggle pencil-mark notes.
    Note,
}

/// A cursor movement direction.
#[derive(Clone, Copy, Debug, PartialEq, Eq, Structural)]
pub enum Direction {
    Up,
    Down,
    Left,
    Right,
}

pub struct App {
    pub board: Board,
    /// The full solution of the puzzle being played.
    pub solution: [u8; 81],
    pub difficulty: Difficulty,
    /// The seed this puzzle was generated from; combined with the difficulty it
    /// forms the shareable code that reproduces this exact puzzle.
    pub seed: u32,
    pub cursor: (usize, usize),
    pub mode: Mode,
    /// Whether to flag cells whose value disagrees with the solution.
    pub check_errors: bool,
    /// Whether to highlight the rows, columns, and boxes of *every* cell sharing
    /// the cursor's value, not just the cursor's own peers.
    pub highlight_matches: bool,
    /// Whether match-highlight was ever switched on this game (for the share card).
    pub used_highlight: bool,
    /// Whether error-checking was ever switched on this game (for the share card).
    pub used_check: bool,
    /// Number of digits placed that disagreed with the solution.
    pub mistakes: u32,
    /// Number of cells revealed via the hint key.
    pub hints_used: u32,
    /// Per-cell flag: was this cell's final value filled by a hint (vs. typed)?
    pub hint_cells: [bool; 81],
    /// Whether the post-win share card is open.
    pub show_share: bool,
    /// Set when the user asks to copy the share card; the frontend performs the
    /// actual clipboard write and clears it.
    pub copy_requested: bool,
    pub status: String,
    pub show_help: bool,
    /// Whether the difficulty-selection menu is open.
    pub difficulty_menu: bool,
    /// Highlighted entry within the difficulty menu.
    pub menu_index: usize,
    pub should_quit: bool,
    /// Whether the puzzle has been solved.
    pub won: bool,
    /// When the game started.
    pub start: Instant,
    /// The play time, frozen at the moment of winning.
    pub win_elapsed: Option<Duration>,
    /// When the puzzle was solved, used to drive the win animation.
    pub won_at: Option<Instant>,
    /// While `Some`, the user is typing/pasting a puzzle code; holds the buffer.
    pub code_entry: Option<String>,
    /// Boards to go back to, the most recent last.
    pub undo_stack: Vec<Board>,
    /// Boards undone, to go forward to again, the most recent last.
    pub redo_stack: Vec<Board>,
}

/// The flat index of the cursor's cell.
pub open spec fn cursor_index(a: App) -> int {
    cell_index(a.cursor.0 as int, a.cursor.1 as int)
}

/// The cursor after one step in `dir`, clamped to the board.
pub open spec fn stepped(cur: (usize, usize), dir: Direction) -> (usize, usize) {
    match dir {
        Direction::Up => (if cur.0 == 0 { 0 } else { (cur.0 - 1) as usize }, cur.1),
        Direction::Down => (if cur.0 >= 8 { 8 } else { (cur.0 + 1) as usize }, cur.1),
        Direction::Left => (cur.0, if cur.1 == 0 { 0 } else { (cur.1 - 1) as usize }),
        Direction::Right => (cur.0, if cur.1 >= 8 { 8 } else { (cur.1 + 1) as usize }),
    }
}

/// The start of the box before the one holding `x` (the first box stays put).
pub open spec fn box_back(x: usize) -> usize {
    ((if x >= 3 { x - 3 } else { 0 }) / 3 * 3) as usize
}

/// The start of the box after the one holding `x` (the last box stays put).
pub open spec fn box_forward(x: usize) -> usize {
    if x / 3 * 3 + 3 <= 6 {
        (x / 3 * 3 + 3) as usize
    } else {
        6
    }
}

/// The cursor after a jump by one 3x3 box in `dir`.
pub open spec fn box_jumped(cur: (usize, usize), dir: Direction) -> (usize, usize) {
    match dir {
        Direction::Left => (cur.0, box_back(cur.1)),
        Direction::Right => (cur.0, box_forward(cur.1)),
        Direction::Up => (box_back(cur.0), cur.1),
        Direction::Down => (box_forward(cur.0), cur.1),
    }
}

/// Cell (r, c) is not the cursor's and holds `value`.
pub open spec fn is_other_match(cells: Seq<Cell>, cur: (usize, usize), value: u8, r: int, c: int) -> bool {
    0 <= r < 9 && 0 <= c < 9 && !(r == cur.0 && c == cur.1) && cells[cell_index(r, c)].value
        == Some(value)
}

/// Manhattan distance from the cursor to (r, c).
pub open spec fn distance(cur: (usize, usize), r: int, c: int) -> int {
    (if cur.0 >= r { cur.0 - r } else { r - cur.0 }) + (if cur.1 >= c { cur.1 - c } else { c
        - cur.1 })
}

/// `p` is the match nearest the cursor, the top-left-most one among equals.
pub open spec fn nearest_match(cells: Seq<Cell>, cur: (usize, usize), value: u8, p: (usize, usize)) -> bool {
    &&& is_other_match(cells, cur, value, p.0 as int, p.1 as int)
    &&& forall|r: int, c: int|
        #[trigger] is_other_match(cells, cur, value, r, c) ==> distance(cur, p.0 as int, p.1 as int)
            < distance(cur, r, c) || (distance(cur, p.0 as int, p.1 as int) == distance(cur, r, c)
            && cell_index(p.0 as int, p.1 as int) <= cell_index(r, c))
}

/// `cell` without pencil mark `n`.
pub open spec fn without_note(cell: Cell, n: u8) -> Cell {
    Cell { notes: cell.notes & !note_bit(n), ..cell }
}

/// `cells` with pencil mark `n` removed from every cell sharing a unit with `i`.
pub open spec fn peers_without_note(cells: Seq<Cell>, i: int, n: u8) -> Seq<Cell> {
    Seq::new(
        cells.len(),
        |j: int|
            if same_unit(i, j) {
                without_note(cells[j], n)
            } else {
                cells[j]
            },
    )
}

/// `cells` after committing `n` at `i`: the value placed, its notes dropped, and
/// note `n` removed from every peer.
pub open spec fn committed(cells: Seq<Cell>, i: int, n: u8) -> Seq<Cell> {
    peers_without_note(cells.update(i, Cell { value: Some(n), given: false, notes: 0 }), i, n)
}

pub open spec fn solved_message() -> Seq<char> {
    "Solved! Press 'n' for a new game"@
}

/// `post` is `mid` after the win check, where `mid_status` is the status text
/// before the check: a board that became solved marks the game won, freezes the
/// time, starts the animation and says so; otherwise nothing changes.
pub open spec fn settles_win(mid: App, mid_status: Seq<char>, post: App) -> bool {
    if !mid.won && board_solved(post.board@) {
        &&& post.won
        &&& post.win_elapsed is Some
        &&& post.won_at is Some
        &&& post.status@ == solved_message()
    } else {
        &&& post.won == mid.won
        &&& post.win_elapsed == mid.win_elapsed
        &&& post.won_at == mid.won_at
        &&& post.status@ == mid_status
    }
}

/// `post` is a brand-new game of difficulty `d` (its status text aside).
pub open spec fn fresh_game(post: App, d: Difficulty) -> bool {
    &&& post.difficulty == d
    &&& sound_puzzle(post.board@, post.solution@, d)
    &&& shows_seeded_puzzle(post)
    &&& post.cursor == (0usize, 0usize)
    &&& post.mode == Mode::Normal
    &&& !post.check_errors && !post.highlight_matches
    &&& !post.used_highlight && !post.used_check
    &&& post.mistakes == 0 && post.hints_used == 0
    &&& forall|i: int| 0 <= i < 81 ==> !#[trigger] post.hint_cells@[i]
    &&& !post.show_share && !post.copy_requested && !post.show_help
    &&& !post.difficulty_menu
    &&& post.menu_index == index_of(d)
    &&& !post.should_quit
    &&& !post.won && post.win_elapsed is None && post.won_at is None
    &&& post.code_entry is None
    &&& post.undo_stack@.len() == 0 && post.redo_stack@.len() == 0
}

/// The game's board and solution are the puzzle generated for its difficulty
/// and seed, so its share code reproduces them.
pub open spec fn shows_seeded_puzzle(a: App) -> bool {
    &&& a.board@ == board_cells(seeded_grid(a.difficulty, a.seed))
    &&& a.solution@ == seeded_solution(a.seed)
}

/// Every clue of the board `cells` holds the solution's digit.
pub open spec fn clues_hold(cells: Seq<Cell>, solution: Seq<u8>) -> bool {
    forall|i: int| 0 <= i < 81 && #[trigger] cells[i].given ==> cells[i].value == Some(solution[i])
}

/// Whether every clue of `board` holds the digit of `solution` there.
fn clues_ok(board: &Board, solution: &[u8; 81]) -> (ok: bool)
    ensures
        ok == clues_hold(board@, solution@),
{
    let mut i: usize = 0;
    while i < 81
        invariant
            i <= 81,
            board@.len() == 81,
            forall|j: int|
                0 <= j < i && #[trigger] board@[j].given ==> board@[j].value == Some(solution@[j]),
        decreases 81 - i,
    {
        let cell = board.cell(i / 9, i % 9);
        if cell.given {
            match cell.value {
                Some(v) => {
                    if v != solution[i] {
                        return false;
                    }
                },
                None => {
                    return false;
                },
            }
        }
        i += 1;
    }
    true
}

/// The game's status line for a new game of difficulty `d`.
pub open spec fn new_game_message(d: Difficulty) -> Seq<char> {
    "New "@ + label_text(d) + " game"@
}

/// The status line when no other cell holds `value`.
pub open spec fn no_value_message(value: u8) -> Seq<char> {
    "No "@ + decimal(value as nat) + " on the board"@
}

/// The status line after loading the puzzle of `d` and `seed` from a code.
pub open spec fn loaded_message(d: Difficulty, seed: u32) -> Seq<char> {
    "Loaded puzzle #"@ + base36_text(packed_code(d, seed)) + " ("@ + label_text(d) + ")"@
}

/// `n` followed by `word`, with an "s" unless `n` is one.
pub open spec fn plural(n: u32, word: Seq<char>) -> Seq<char> {
    decimal(n as nat) + " "@ + word + if n == 1 {
        Seq::<char>::empty()
    } else {
        "s"@
    }
}

/// How the share card reports whether an assist was used.
pub open spec fn usage(on: bool) -> Seq<char> {
    if on {
        "used"@
    } else {
        "off"@
    }
}

/// The share card's square for cell `i`: a clue, a hinted reveal, or a value
/// the player typed.
pub open spec fn share_square(a: App, i: int) -> char {
    if a.board@[i].given {
        '🟦'
    } else if a.hint_cells@[i] {
        '🟧'
    } else {
        '🟩'
    }
}

/// The share card's line for board row `r`.
pub open spec fn share_row(a: App, r: int) -> Seq<char> {
    Seq::new(9, |c: int| share_square(a, cell_index(r, c))).push('\n')
}

/// The share card's lines for the first `k` board rows.
pub open spec fn share_rows(a: App, k: nat) -> Seq<char>
    decreases k,
{
    if k == 0 {
        Seq::empty()
    } else {
        share_rows(a, (k - 1) as nat) + share_row(a, k - 1)
    }
}

/// The share card of game `a` when `secs` seconds were played.
pub open spec fn share_card(a: App, secs: u64) -> Seq<char> {
    "Sudoku "@ + badge_text(a.difficulty) + " "@ + label_text(a.difficulty) + " — Solved!\n"@
        + "⏱️ "@ + decimal2((secs / 60) as nat) + ":"@ + decimal2((secs % 60) as nat) + "  ❌ "@
        + plural(a.mistakes, "mistake"@) + "  💡 "@ + plural(a.hints_used, "hint"@) + "\n"@
        + "🔆 Match-highlight: "@ + usage(a.used_highlight) + "   🔍 Error-check: "@ + usage(
        a.used_check,
    ) + "\n\n"@ + share_rows(a, 9) + "\n🟦 clue  🟩 you  🟧 hint\n"@ + "\n🧩 Puzzle #"@
        + base36_text(packed_code(a.difficulty, a.seed))
}

/// Append `n` and `word`, pluralized unless `n` is one.
fn push_plural(s: &mut String, n: u32, word: &str)
    ensures
        final(s)@ == old(s)@ + plural(n, word@),
{
    push_decimal(s, n as u64);
    s.append(" ");
    s.append(word);
    if n != 1 {
        s.append("s");
    }
    assert(final(s)@ =~= old(s)@ + plural(n, word@));
}

/// What undo does: the last saved board comes back and the current one is kept
/// for redo, disarming any win; with nothing saved, it says so.
pub open spec fn undo_post(pre: App, post: App) -> bool {
    if pre.undo_stack@.len() > 0 {
        &&& post.board == pre.undo_stack@.last()
        &&& post.undo_stack@ == pre.undo_stack@.drop_last()
        &&& post.redo_stack@ == pre.redo_stack@.push(pre.board)
        &&& post == (App {
            board: post.board,
            undo_stack: post.undo_stack,
            redo_stack: post.redo_stack,
            won: false,
            win_elapsed: None,
            won_at: None,
            ..pre
        })
    } else {
        &&& post.status@ == "Nothing to undo"@
        &&& post == (App { status: post.status, ..pre })
    }
}

/// What redo does: the last undone board comes back, the current one is saved
/// for undo, and the win check runs; with nothing undone, it says so.
pub open spec fn redo_post(pre: App, post: App) -> bool {
    if pre.redo_stack@.len() > 0 {
        &&& post.board == pre.redo_stack@.last()
        &&& post.redo_stack@ == pre.redo_stack@.drop_last()
        &&& post.undo_stack@ == pre.undo_stack@.push(pre.board)
        &&& settles_win(pre, pre.status@, post)
        &&& post == (App {
            board: post.board,
            undo_stack: post.undo_stack,
            redo_stack: post.redo_stack,
            won: post.won,
            win_elapsed: post.win_elapsed,
            won_at: post.won_at,
            status: post.status,
            ..pre
        })
    } else {
        &&& post.status@ == "Nothing to redo"@
        &&& post == (App { status: post.status, ..pre })
    }
}

/// What typing digit `n` does at the cursor: refused on a clue; in normal mode
/// the digit is committed (counting a mistake when it disagrees with the
/// solution, clearing peer notes, running the win check); in note mode it
/// toggles pencil mark `n` on an empty cell.
pub open spec fn input_digit_post(pre: App, n: u8, post: App) -> bool {
    if pre.board@[cursor_index(pre)].given {
        &&& post.status@ == "That cell is a clue"@
        &&& post == (App { status: post.status, ..pre })
    } else if pre.mode == Mode::Normal {
        &&& post.board@ == committed(
            pre.board@,
            cursor_index(pre),
            n,
        )
        &&& post.undo_stack@ == pre.undo_stack@.push(pre.board)
        &&& post.redo_stack@ == Seq::<Board>::empty()
        &&& post.mistakes == pre.mistakes + if n != pre.solution@[cursor_index(pre)] {
            1int
        } else {
            0int
        }
        &&& post.hint_cells@ == pre.hint_cells@.update(
            cursor_index(pre),
            false,
        )
        &&& settles_win(pre, pre.status@, post)
        &&& post == (App {
            board: post.board,
            undo_stack: post.undo_stack,
            redo_stack: post.redo_stack,
            mistakes: post.mistakes,
            hint_cells: post.hint_cells,
            won: post.won,
            win_elapsed: post.win_elapsed,
            won_at: post.won_at,
            status: post.status,
            ..pre
        })
    } else if pre.board@[cursor_index(pre)].value is Some {
        &&& post.status@ == "Clear the value before adding notes"@
        &&& post == (App { status: post.status, ..pre })
    } else {
        &&& post.board@ == pre.board@.update(
            cursor_index(pre),
            Cell {
                notes: pre.board@[cursor_index(pre)].notes ^ note_bit(n),
                ..pre.board@[cursor_index(pre)]
            },
        )
        &&& post.undo_stack@ == pre.undo_stack@.push(pre.board)
        &&& post.redo_stack@ == Seq::<Board>::empty()
        &&& post == (App {
            board: post.board,
            undo_stack: post.undo_stack,
            redo_stack: post.redo_stack,
            ..pre
        })
    }
}

/// What submitting the code prompt does: a buffer that decodes starts that
/// puzzle; one that does not keeps the prompt open with an error.
pub open spec fn submit_post(pre: App, post: App) -> bool {
    match pre.code_entry {
        None => post == pre,
        Some(buf) => match decoded(buf@) {
            Some((d, seed)) => {
                &&& fresh_game(post, d)
                &&& post.seed == seed
                &&& post.status@ == loaded_message(d, seed)
            },
            None => {
                &&& post.status@ == "Not a valid puzzle code"@
                &&& post == (App { status: post.status, ..pre })
            },
        },
    }
}

/// What typing or pasting `text` into the code prompt does.
pub open spec fn code_entry_push_post(pre: App, text: Seq<char>, post: App) -> bool {
    &&& match pre.code_entry {
        Some(buf) => post.code_entry matches Some(b) && b@ == buf@ + text,
        None => post.code_entry is None,
    }
    &&& post == (App { code_entry: post.code_entry, ..pre })
}

/// What backspace in the code prompt does.
pub open spec fn code_entry_backspace_post(pre: App, post: App) -> bool {
    &&& match pre.code_entry {
        Some(buf) => post.code_entry matches Some(b) && b@ == if buf@.len() == 0 {
            buf@
        } else {
            buf@.drop_last()
        },
        None => post.code_entry is None,
    }
    &&& post == (App { code_entry: post.code_entry, ..pre })
}

/// What clearing the cursor's cell does: a value goes (and the cell stops
/// counting as hinted), or else its notes go; clues are left alone.
pub open spec fn clear_cell_post(pre: App, post: App) -> bool {
    &&& if pre.board@[cursor_index(pre)].given {
        post == pre
    } else if pre.board@[cursor_index(pre)].value is Some {
        &&& post.board@ == pre.board@.update(
            cursor_index(pre),
            Cell { value: None, ..pre.board@[cursor_index(pre)] },
        )
        &&& post.undo_stack@ == pre.undo_stack@.push(pre.board)
        &&& post.redo_stack@ == Seq::<Board>::empty()
        &&& post.hint_cells@ == pre.hint_cells@.update(
            cursor_index(pre),
            false,
        )
        &&& post == (App {
            board: post.board,
            undo_stack: post.undo_stack,
            redo_stack: post.redo_stack,
            hint_cells: post.hint_cells,
            ..pre
        })
    } else if pre.board@[cursor_index(pre)].notes != 0 {
        &&& post.board@ == pre.board@.update(
            cursor_index(pre),
            Cell { notes: 0, ..pre.board@[cursor_index(pre)] },
        )
        &&& post.undo_stack@ == pre.undo_stack@.push(pre.board)
        &&& post.redo_stack@ == Seq::<Board>::empty()
        &&& post == (App {
            board: post.board,
            undo_stack: post.undo_stack,
            redo_stack: post.redo_stack,
            ..pre
        })
    } else {
        post == pre
    }
}

/// What a hint does: an empty cell gets its solution value, committed like a
/// typed digit and counted as a hint; otherwise the status explains.
pub open spec fn hint_post(pre: App, post: App) -> bool {
    &&& if pre.board@[cursor_index(pre)].given || pre.board@[cursor_index(
        pre,
    )].value is Some {
        &&& post.status@ == "Move to an empty cell for a hint"@
        &&& post == (App { status: post.status, ..pre })
    } else {
        &&& post.board@ == committed(
            pre.board@,
            cursor_index(pre),
            pre.solution@[cursor_index(pre)],
        )
        &&& post.undo_stack@ == pre.undo_stack@.push(pre.board)
        &&& post.redo_stack@ == Seq::<Board>::empty()
        &&& post.hints_used == pre.hints_used + 1
        &&& post.hint_cells@ == pre.hint_cells@.update(
            cursor_index(pre),
            true,
        )
        &&& settles_win(pre, "Revealed"@, post)
        &&& post == (App {
            board: post.board,
            undo_stack: post.undo_stack,
            redo_stack: post.redo_stack,
            hints_used: post.hints_used,
            hint_cells: post.hint_cells,
            won: post.won,
            win_elapsed: post.win_elapsed,
            won_at: post.won_at,
            status: post.status,
            ..pre
        })
    }
}

/// What the find motion does: the cursor jumps to the nearest other cell that
/// holds `value`; when there is none, the status says so.
pub open spec fn find_nearest_post(pre: App, value: u8, post: App) -> bool {
    if exists|r: int, c: int| #[trigger] is_other_match(pre.board@, pre.cursor, value, r, c) {
        &&& nearest_match(pre.board@, pre.cursor, value, post.cursor)
        &&& post == (App { cursor: post.cursor, ..pre })
    } else {
        &&& post.status@ == no_value_message(value)
        &&& post == (App { status: post.status, ..pre })
    }
}

impl App {
    /// The state every operation keeps: the cursor and the menu highlight are in
    /// range, the solution holds digits, the win flag, the frozen time and the
    /// animation clock agree, and the clues of the board, and of every board
    /// kept for undo and redo, are the solution's digits.
    pub open spec fn wf(&self) -> bool {
        &&& self.cursor.0 < 9 && self.cursor.1 < 9
        &&& self.menu_index < 4
        &&& forall|i: int| 0 <= i < 81 ==> 1 <= #[trigger] self.solution@[i] <= 9
        &&& self.won == self.win_elapsed is Some
        &&& self.won == self.won_at is Some
        &&& clues_hold(self.board@, self.solution@)
        &&& forall|k: int|
            0 <= k < self.undo_stack@.len() ==> clues_hold(
                #[trigger] self.undo_stack@[k]@,
                self.solution@,
            )
        &&& forall|k: int|
            0 <= k < self.redo_stack@.len() ==> clues_hold(
                #[trigger] self.redo_stack@[k]@,
                self.solution@,
            )
    }

    /// Start a new game at the given difficulty from a fresh random seed.
    pub fn new(difficulty: Difficulty) -> (a: App)
        ensures
            fresh_game(a, difficulty),
            a.status@ == Seq::<char>::empty(),
            a.wf(),
    {
        App::from_puzzle(generator::generate(difficulty))
    }

    /// Start the specific puzzle identified by `difficulty` and `seed`.
    pub fn new_seeded(difficulty: Difficulty, seed: u32) -> (a: App)
        ensures
            fresh_game(a, difficulty),
            a.seed == seed,
            a.status@ == Seq::<char>::empty(),
            a.wf(),
    {
        App::from_puzzle(generator::generate_seeded(difficulty, seed))
    }

    fn from_puzzle(puzzle: Puzzle) -> (a: App)
        requires
            sound_puzzle(puzzle.board@, puzzle.solution@, puzzle.difficulty),
            puzzle.board@ == board_cells(seeded_grid(puzzle.difficulty, puzzle.seed)),
            puzzle.solution@ == seeded_solution(puzzle.seed),
        ensures
            fresh_game(a, puzzle.difficulty),
            a.board == puzzle.board,
            a.solution == puzzle.solution,
            a.seed == puzzle.seed,
            a.status@ == Seq::<char>::empty(),
            a.wf(),
    {
        let menu_index = puzzle.difficulty.index();
        App {
            board: puzzle.board,
            solution: puzzle.solution,
            difficulty: puzzle.difficulty,
            seed: puzzle.seed,
            cursor: (0, 0),
            mode: Mode::Normal,
            check_errors: false,
            highlight_matches: false,
            used_highlight: false,
            used_check: false,
            mistakes: 0,
            hints_used: 0,
            hint_cells: [false; 81],
            show_share: false,
            copy_requested: false,
            status: String::new(),
            show_help: false,
            difficulty_menu: false,
            menu_index,
            should_quit: false,
            won: false,
            start: clock_now(),
            win_elapsed: None,
            won_at: None,
            code_entry: None,
            undo_stack: Vec::new(),
            redo_stack: Vec::new(),
        }
    }

    /// Replace the current game with a freshly generated one.
    pub fn new_game(&mut self, difficulty: Difficulty)
        ensures
            fresh_game(*final(self), difficulty),
            final(self).status@ == new_game_message(difficulty),
            final(self).wf(),
    {
        *self = App::new(difficulty);
        let mut status = String::from_str("New ");
        status.append(difficulty.label());
        status.append(" game");
        self.status = status;
    }

    /// This puzzle's shareable code, e.g. `"3F9KQ2"`.
    pub fn code(&self) -> (code: String)
        ensures
            code@ == base36_text(packed_code(self.difficulty, self.seed)),
    {
        generator::encode_code(self.difficulty, self.seed)
    }

    /// Whether the state is one every operation keeps (see `wf`).
    pub fn is_wf(&self) -> (ok: bool)
        ensures
            ok == self.wf(),
    {
        if !(self.cursor.0 < 9 && self.cursor.1 < 9 && self.menu_index < 4) {
            return false;
        }
        let mut i: usize = 0;
        while i < 81
            invariant
                i <= 81,
                forall|j: int| 0 <= j < i ==> 1 <= #[trigger] self.solution@[j] <= 9,
            decreases 81 - i,
        {
            if self.solution[i] < 1 || self.solution[i] > 9 {
                return false;
            }
            i += 1;
        }
        if !(self.won == self.win_elapsed.is_some() && self.won == self.won_at.is_some()) {
            return false;
        }
        if !clues_ok(&self.board, &self.solution) {
            return false;
        }
        let mut k: usize = 0;
        while k < self.undo_stack.len()
            invariant
                k <= self.undo_stack@.len(),
                forall|j: int|
                    0 <= j < k ==> clues_hold(#[trigger] self.undo_stack@[j]@, self.solution@),
            decreases self.undo_stack@.len() - k,
        {
            if !clues_ok(&self.undo_stack[k], &self.solution) {
                return false;
            }
            k += 1;
        }
        let mut k: usize = 0;
        while k < self.redo_stack.len()
            invariant
                k <= self.redo_stack@.len(),
                forall|j: int|
                    0 <= j < k ==> clues_hold(#[trigger] self.redo_stack@[j]@, self.solution@),
            decreases self.redo_stack@.len() - k,
        {
            if !clues_ok(&self.redo_stack[k], &self.solution) {
                return false;
            }
            k += 1;
        }
        true
    }

    /// How long the frontend waits for a key before redrawing, in
    /// milliseconds: about 30 frames a second while the win animation plays,
    /// otherwise just often enough to keep the timer ticking.
    pub fn redraw_millis(&self) -> (ms: u64)
        ensures
            ms == if self.won { 33u64 } else { 250u64 },
    {
        if self.won {
            33
        } else {
            250
        }
    }

    /// The frontend has tried to put the share card on the clipboard:
    /// withdraw the request and report how it went.
    pub fn finish_copy(&mut self, copied: bool)
        ensures
            final(self).status@ == if copied {
                "Copied to clipboard"@
            } else {
                "Couldn't copy to clipboard"@
            },
            *final(self) == (App { copy_requested: false, status: final(self).status, ..*old(self) }),
    {
        self.copy_requested = false;
        self.status = if copied {
            String::from_str("Copied to clipboard")
        } else {
            String::from_str("Couldn't copy to clipboard")
        };
        proof {
            reveal_strlit("Copied to clipboard");
            reveal_strlit("Couldn't copy to clipboard");
        }
    }

    pub fn is_won(&self) -> (won: bool)
        ensures
            won == self.won,
    {
        self.won
    }

    /// Time since the puzzle was solved, or `None` if it isn't solved.
    /// Drives the win animation; the frontend redraws while this is `Some`.
    pub fn win_anim_elapsed(&self) -> (t: Option<Duration>)
        ensures
            t is Some <==> self.won_at is Some,
    {
        match &self.won_at {
            Some(t) => Some(clock_since(t)),
            None => None,
        }
    }

    /// Time elapsed, frozen at the moment of winning.
    pub fn elapsed(&self) -> (t: Duration)
        ensures
            self.win_elapsed matches Some(frozen) ==> t == frozen,
    {
        match self.win_elapsed {
            Some(d) => d,
            None => clock_since(&self.start),
        }
    }

    // --- Navigation ---------------------------------------------------------

    pub fn move_cursor(&mut self, dir: Direction)
        requires
            old(self).wf(),
        ensures
            *final(self) == (App { cursor: stepped(old(self).cursor, dir), ..*old(self) }),
            final(self).wf(),
    {
        let (r, c) = self.cursor;
        self.cursor = match dir {
            Direction::Up => (r.saturating_sub(1), c),
            Direction::Down => (if r + 1 < 8 { r + 1 } else { 8 }, c),
            Direction::Left => (r, c.saturating_sub(1)),
            Direction::Right => (r, if c + 1 < 8 { c + 1 } else { 8 }),
        };
    }

    pub fn move_row_start(&mut self)
        ensures
            *final(self) == (App { cursor: (old(self).cursor.0, 0usize), ..*old(self) }),
    {
        self.cursor.1 = 0;
    }

    pub fn move_row_end(&mut self)
        ensures
            *final(self) == (App { cursor: (old(self).cursor.0, 8usize), ..*old(self) }),
    {
        self.cursor.1 = 8;
    }

    pub fn move_top(&mut self)
        ensures
            *final(self) == (App { cursor: (0usize, old(self).cursor.1), ..*old(self) }),
    {
        self.cursor.0 = 0;
    }

    pub fn move_bottom(&mut self)
        ensures
            *final(self) == (App { cursor: (8usize, old(self).cursor.1), ..*old(self) }),
    {
        self.cursor.0 = 8;
    }

    /// Jump to the next 3x3 box boundary in a direction (vim `w`/`b` feel).
    pub fn move_box(&mut self, dir: Direction)
        requires
            old(self).wf(),
        ensures
            *final(self) == (App { cursor: box_jumped(old(self).cursor, dir), ..*old(self) }),
            final(self).wf(),
    {
        let (r, c) = self.cursor;
        self.cursor = match dir {
            Direction::Left => (r, c.saturating_sub(3) / 3 * 3),
            Direction::Right => (r, if c / 3 * 3 + 3 <= 6 { c / 3 * 3 + 3 } else { 6 }),
            Direction::Up => (r.saturating_sub(3) / 3 * 3, c),
            Direction::Down => (if r / 3 * 3 + 3 <= 6 { r / 3 * 3 + 3 } else { 6 }, c),
        };
    }

    // --- Editing ------------------------------------------------------------

    pub fn toggle_mode(&mut self)
        ensures
            *final(self) == (App {
                mode: if old(self).mode == Mode::Normal {
                    Mode::Note
                } else {
                    Mode::Normal
                },
                ..*old(self)
            }),
    {
        self.mode = match self.mode {
            Mode::Normal => Mode::Note,
            Mode::Note => Mode::Normal,
        };
    }

    // --- Difficulty menu ----------------------------------------------------

    pub fn open_difficulty_menu(&mut self)
        ensures
            *final(self) == (App {
                difficulty_menu: true,
                menu_index: index_of(old(self).difficulty) as usize,
                ..*old(self)
            }),
    {
        self.difficulty_menu = true;
        self.menu_index = self.difficulty.index();
    }

    pub fn close_difficulty_menu(&mut self)
        ensures
            *final(self) == (App { difficulty_menu: false, ..*old(self) }),
    {
        self.difficulty_menu = false;
    }

    /// Move the menu highlight by `delta`, wrapping around.
    pub fn menu_move(&mut self, delta: i32)
        requires
            old(self).wf(),
            old(self).menu_index + delta <= i32::MAX,
        ensures
            *final(self) == (App {
                menu_index: ((old(self).menu_index + delta) % 4) as usize,
                ..*old(self)
            }),
            final(self).wf(),
    {
        let len: i32 = 4;
        let moved = self.menu_index as i32 + delta;
        let wrapped = moved.checked_rem_euclid(len).unwrap();
        self.menu_index = wrapped as usize;
    }

    /// Jump the menu highlight to a specific entry.
    pub fn menu_select(&mut self, index: usize)
        ensures
            *final(self) == if index < 4 {
                App { menu_index: index, ..*old(self) }
            } else {
                *old(self)
            },
    {
        if index < 4 {
            self.menu_index = index;
        }
    }

    /// Start a new game at the highlighted difficulty and close the menu.
    pub fn menu_confirm(&mut self)
        requires
            old(self).wf(),
        ensures
            fresh_game(*final(self), difficulty_at(old(self).menu_index as int)),
            final(self).status@ == new_game_message(difficulty_at(old(self).menu_index as int)),
            final(self).wf(),
    {
        let difficulty = Difficulty::ALL[self.menu_index];
        self.new_game(difficulty);
    }

    /// Jump to the cell holding `value` that is nearest the cursor (by
    /// Manhattan distance), excluding the current cell. Ties favor the
    /// top-left-most match. Sets a status message if no such value is placed.
    pub fn find_nearest(&mut self, value: u8)
        requires
            old(self).wf(),
        ensures
            find_nearest_post(*old(self), value, *final(self)),
            final(self).wf(),
    {
        let (cr, cc) = self.cursor;
        let ghost cells = self.board@;
        let ghost cur = self.cursor;
        let mut best: Option<(usize, (usize, usize))> = None;
        for r in 0usize..9
            invariant
                cells == self.board@,
                cur == self.cursor,
                cur == (cr, cc),
                cr < 9 && cc < 9,
                cells.len() == 81,
                best is None <==> !exists|r2: int, c2: int|
                    r2 < r && #[trigger] is_other_match(cells, cur, value, r2, c2),
                best matches Some((d, p)) ==> {
                    &&& is_other_match(cells, cur, value, p.0 as int, p.1 as int)
                    &&& p.0 < r
                    &&& d == distance(cur, p.0 as int, p.1 as int)
                    &&& forall|r2: int, c2: int|
                        r2 < r && #[trigger] is_other_match(cells, cur, value, r2, c2) ==> d
                            < distance(cur, r2, c2) || (d == distance(cur, r2, c2) && cell_index(
                            p.0 as int,
                            p.1 as int,
                        ) <= cell_index(r2, c2))
                },
        {
            for c in 0usize..9
                invariant
                    cells == self.board@,
                    cur == self.cursor,
                    cur == (cr, cc),
                    cr < 9 && cc < 9,
                    r < 9,
                    cells.len() == 81,
                    best is None <==> !exists|r2: int, c2: int|
                        (r2 < r || (r2 == r && c2 < c)) && #[trigger] is_other_match(
                            cells,
                            cur,
                            value,
                            r2,
                            c2,
                        ),
                    best matches Some((d, p)) ==> {
                        &&& is_other_match(cells, cur, value, p.0 as int, p.1 as int)
                        &&& (p.0 < r || (p.0 == r && p.1 < c))
                        &&& d == distance(cur, p.0 as int, p.1 as int)
                        &&& forall|r2: int, c2: int|
                            (r2 < r || (r2 == r && c2 < c)) && #[trigger] is_other_match(
                                cells,
                                cur,
                                value,
                                r2,
                                c2,
                            ) ==> d < distance(cur, r2, c2) || (d == distance(cur, r2, c2)
                                && cell_index(p.0 as int, p.1 as int) <= cell_index(r2, c2))
                    },
            {
                let here = self.board.value(r, c);
                let is_match = !(r == cr && c == cc) && match here {
                    Some(v) => v == value,
                    None => false,
                };
                assert(is_match == is_other_match(cells, cur, value, r as int, c as int));
                if is_match {
                    let dr = if cr >= r { cr - r } else { r - cr };
                    let dc = if cc >= c { cc - c } else { c - cc };
                    let dist = dr + dc;
                    let better = match best {
                        None => true,
                        Some((bd, _)) => dist < bd,
                    };
                    if better {
                        best = Some((dist, (r, c)));
                    }
                }
            }
        }
        match best {
            Some((_, pos)) => self.cursor = pos,
            None => {
                let mut status = String::from_str("No ");
                push_decimal(&mut status, value as u64);
                status.append(" on the board");
                self.status = status;
            },
        }
    }

    // --- Play-by-code -------------------------------------------------------

    /// Open the prompt for entering a shared puzzle code.
    pub fn open_code_entry(&mut self)
        ensures
            final(self).code_entry matches Some(buf) && buf@ == Seq::<char>::empty(),
            *final(self) == (App {
                code_entry: final(self).code_entry,
                show_share: false,
                ..*old(self)
            }),
    {
        self.code_entry = Some(String::new());
        self.show_share = false;
    }

    pub fn cancel_code_entry(&mut self)
        ensures
            *final(self) == (App { code_entry: None, ..*old(self) }),
    {
        self.code_entry = None;
    }

    /// Append typed or pasted text to the code buffer (no-op if not entering).
    pub fn code_entry_push(&mut self, text: &str)
        ensures
            code_entry_push_post(*old(self), text@, *final(self)),
    {
        match &mut self.code_entry {
            Some(buf) => buf.append(text),
            None => {},
        }
    }

    pub fn code_entry_backspace(&mut self)
        ensures
            code_entry_backspace_post(*old(self), *final(self)),
    {
        match &mut self.code_entry {
            Some(buf) => {
                buf.pop();
            },
            None => {},
        }
    }

    /// Try to start the puzzle named by the current code buffer. On success the
    /// game is replaced; on failure the prompt stays open with an error.
    #[verifier::rlimit(40)]
    pub fn code_entry_submit(&mut self)
        requires
            old(self).wf(),
        ensures
            final(self).wf(),
            submit_post(*old(self), *final(self)),
    {
        let buf = match self.code_entry.take() {
            Some(b) => b,
            None => return ,
        };
        match generator::decode_code(buf.as_str()) {
            Some((difficulty, seed)) => {
                let code = generator::encode_code(difficulty, seed);
                *self = App::new_seeded(difficulty, seed);
                let mut status = String::from_str("Loaded puzzle #");
                status.append(code.as_str());
                status.append(" (");
                status.append(difficulty.label());
                status.append(")");
                self.status = status;
            },
            None => {
                self.status = String::from_str("Not a valid puzzle code");
                self.code_entry = Some(buf);  // keep it open so they can fix it
            },
        }
    }

    /// Snapshot the board onto the undo stack and clear the redo stack.
    fn checkpoint(&mut self)
        ensures
            final(self).undo_stack@ == old(self).undo_stack@.push(old(self).board),
            final(self).redo_stack@ == Seq::<Board>::empty(),
            *final(self) == (App {
                undo_stack: final(self).undo_stack,
                redo_stack: final(self).redo_stack,
                ..*old(self)
            }),
    {
        self.undo_stack.push(self.board.clone());
        self.redo_stack.clear();
    }

    /// Handle a digit 1..=9 according to the current mode.
    #[verifier::rlimit(80)]
    pub fn input_digit(&mut self, n: u8)
        requires
            old(self).wf(),
            1 <= n <= 9,
            n != old(self).solution@[cursor_index(*old(self))] ==> old(self).mistakes < u32::MAX,
        ensures
            final(self).wf(),
            input_digit_post(*old(self), n, *final(self)),
    {
        let (r, c) = self.cursor;
        if self.board.is_given(r, c) {
            self.status = String::from_str("That cell is a clue");
            return ;
        }
        match self.mode {
            Mode::Normal => {
                self.checkpoint();
                self.board.set_value(r, c, n);
                // A typed value that contradicts the solution is a mistake; the
                // cell is now player-owned, so it's no longer a hint.
                if n != self.solution[r * 9 + c] {
                    self.mistakes += 1;
                }
                self.hint_cells[r * 9 + c] = false;
                self.clear_peer_notes(r, c, n);
                self.check_win();
            },
            Mode::Note => {
                // Notes only make sense on empty cells.
                if self.board.value(r, c).is_some() {
                    self.status = String::from_str("Clear the value before adding notes");
                    return ;
                }
                self.checkpoint();
                self.board.cell_mut(r, c).toggle_note(n);
            },
        }
    }

    /// Clear the value (or, if empty, the notes) of the current cell.
    #[verifier::rlimit(80)]
    pub fn clear_cell(&mut self)
        requires
            old(self).wf(),
        ensures
            clear_cell_post(*old(self), *final(self)),
            final(self).wf(),
    {
        let (r, c) = self.cursor;
        if self.board.is_given(r, c) {
            return ;
        }
        if self.board.value(r, c).is_some() {
            self.checkpoint();
            self.board.clear_value(r, c);
            self.hint_cells[r * 9 + c] = false;
        } else if self.board.cell(r, c).notes != 0 {
            self.checkpoint();
            self.board.cell_mut(r, c).clear_notes();
        }
    }

    /// Remove note `n` from every empty peer of (r, c) once `n` is committed there.
    #[verifier::rlimit(40)]
    fn clear_peer_notes(&mut self, r: usize, c: usize, n: u8)
        requires
            r < 9,
            c < 9,
            1 <= n <= 9,
        ensures
            final(self).board@ == peers_without_note(
                old(self).board@,
                cell_index(r as int, c as int),
                n,
            ),
            *final(self) == (App { board: final(self).board, ..*old(self) }),
    {
        let ghost b0 = self.board@;
        let ghost me = cell_index(r as int, c as int);
        for i in 0..9
            invariant
                r < 9,
                c < 9,
                1 <= n <= 9,
                me == cell_index(r as int, c as int),
                b0.len() == 81,
                *self == (App { board: self.board, ..*old(self) }),
                old(self).board@ == b0,
                forall|j: int|
                    0 <= j < 81 ==> #[trigger] self.board@[j] == if (j / 9 == r && j % 9 < i) || (
                    j % 9 == c && j / 9 < i) {
                        without_note(b0[j], n)
                    } else {
                        b0[j]
                    },
        {
            proof {
                lemma_without_note_twice(b0[cell_index(r as int, i as int)], n);
                lemma_without_note_twice(b0[cell_index(i as int, c as int)], n);
            }
            self.board.cell_mut(r, i).remove_note(n);
            self.board.cell_mut(i, c).remove_note(n);
        }
        let br = r / 3 * 3;
        let bc = c / 3 * 3;
        for rr in br..br + 3
            invariant
                r < 9,
                c < 9,
                1 <= n <= 9,
                br == r / 3 * 3,
                bc == c / 3 * 3,
                br <= rr <= br + 3,
                me == cell_index(r as int, c as int),
                b0.len() == 81,
                *self == (App { board: self.board, ..*old(self) }),
                old(self).board@ == b0,
                forall|j: int|
                    0 <= j < 81 ==> #[trigger] self.board@[j] == if j / 9 == r || j % 9 == c || (
                    br <= j / 9 < rr && bc <= j % 9 < bc + 3) {
                        without_note(b0[j], n)
                    } else {
                        b0[j]
                    },
        {
            for cc in bc..bc + 3
                invariant
                    r < 9,
                    c < 9,
                    1 <= n <= 9,
                    br == r / 3 * 3,
                    bc == c / 3 * 3,
                    br <= rr < br + 3,
                    bc <= cc <= bc + 3,
                    me == cell_index(r as int, c as int),
                    b0.len() == 81,
                    *self == (App { board: self.board, ..*old(self) }),
                    old(self).board@ == b0,
                    forall|j: int|
                        0 <= j < 81 ==> #[trigger] self.board@[j] == if j / 9 == r || j % 9 == c
                            || (br <= j / 9 < rr && bc <= j % 9 < bc + 3) || (j / 9 == rr && bc
                            <= j % 9 < cc) {
                            without_note(b0[j], n)
                        } else {
                            b0[j]
                        },
            {
                proof {
                    lemma_without_note_twice(b0[cell_index(rr as int, cc as int)], n);
                }
                self.board.cell_mut(rr, cc).remove_note(n);
            }
        }
        assert forall|j: int| 0 <= j < 81 implies #[trigger] self.board@[j] == peers_without_note(
            b0,
            me,
            n,
        )[j] by {
            assert(j / 27 == (j / 9) / 3);
            assert(me / 27 == r as int / 3);
        }
        assert(self.board@ =~= peers_without_note(b0, me, n));
    }

    /// Reveal the current cell's correct value from the solution.
    pub fn hint(&mut self)
        requires
            old(self).wf(),
            old(self).hints_used < u32::MAX,
        ensures
            hint_post(*old(self), *final(self)),
            final(self).wf(),
    {
        let (r, c) = self.cursor;
        if self.board.is_given(r, c) || self.board.value(r, c).is_some() {
            self.status = String::from_str("Move to an empty cell for a hint");
            return ;
        }
        let correct = self.solution[r * 9 + c];
        self.checkpoint();
        self.board.set_value(r, c, correct);
        self.hint_cells[r * 9 + c] = true;
        self.hints_used += 1;
        self.clear_peer_notes(r, c, correct);
        self.status = String::from_str("Revealed");
        self.check_win();
    }

    fn check_win(&mut self)
        ensures
            settles_win(*old(self), old(self).status@, *final(self)),
            *final(self) == (App {
                won: final(self).won,
                win_elapsed: final(self).win_elapsed,
                won_at: final(self).won_at,
                status: final(self).status,
                ..*old(self)
            }),
    {
        if !self.won && self.board.is_solved() {
            self.won = true;
            self.win_elapsed = Some(clock_since(&self.start));
            self.won_at = Some(clock_now());
            self.status = String::from_str("Solved! Press 'n' for a new game");
        }
    }

    pub fn toggle_match_highlight(&mut self)
        ensures
            final(self).status@ == if !old(self).highlight_matches {
                "Match highlight on"@
            } else {
                "Match highlight off"@
            },
            *final(self) == (App {
                highlight_matches: !old(self).highlight_matches,
                used_highlight: old(self).used_highlight || !old(self).highlight_matches,
                status: final(self).status,
                ..*old(self)
            }),
    {
        self.highlight_matches = !self.highlight_matches;
        self.used_highlight = self.used_highlight || self.highlight_matches;
        self.status = if self.highlight_matches {
            String::from_str("Match highlight on")
        } else {
            String::from_str("Match highlight off")
        };
    }

    pub fn toggle_check(&mut self)
        ensures
            final(self).status@ == if !old(self).check_errors {
                "Error checking on"@
            } else {
                "Error checking off"@
            },
            *final(self) == (App {
                check_errors: !old(self).check_errors,
                used_check: old(self).used_check || !old(self).check_errors,
                status: final(self).status,
                ..*old(self)
            }),
    {
        self.check_errors = !self.check_errors;
        self.used_check = self.used_check || self.check_errors;
        self.status = if self.check_errors {
            String::from_str("Error checking on")
        } else {
            String::from_str("Error checking off")
        };
    }

    // --- Share card ---------------------------------------------------------

    /// Open the post-win share card and request a clipboard copy.
    pub fn open_share(&mut self)
        ensures
            *final(self) == if old(self).won {
                App { show_share: true, copy_requested: true, ..*old(self) }
            } else {
                *old(self)
            },
    {
        if !self.won {
            return ;
        }
        self.show_share = true;
        self.copy_requested = true;
    }

    pub fn close_share(&mut self)
        ensures
            *final(self) == (App { show_share: false, ..*old(self) }),
    {
        self.show_share = false;
    }

    /// Whether the cell holds a value that disagrees with the solution.
    /// Only meaningful while `check_errors` is enabled.
    pub fn is_wrong(&self, r: usize, c: usize) -> (wrong: bool)
        requires
            r < 9,
            c < 9,
        ensures
            wrong == (self.check_errors && match self.board@[cell_index(r as int, c as int)].value {
                Some(v) => v != self.solution@[cell_index(r as int, c as int)],
                None => false,
            }),
    {
        self.check_errors && match self.board.value(r, c) {
            Some(v) => v != self.solution[r * 9 + c],
            None => false,
        }
    }

    pub fn undo(&mut self)
        requires
            old(self).wf(),
        ensures
            final(self).wf(),
            undo_post(*old(self), *final(self)),
    {
        if self.undo_stack.len() > 0 {
            let mut prev = self.undo_stack.pop().unwrap();
            std::mem::swap(&mut self.board, &mut prev);
            self.redo_stack.push(prev);
            self.won = false;
            self.win_elapsed = None;
            self.won_at = None;
        } else {
            self.status = String::from_str("Nothing to undo");
        }
    }

    pub fn redo(&mut self)
        requires
            old(self).wf(),
        ensures
            final(self).wf(),
            redo_post(*old(self), *final(self)),
    {
        if self.redo_stack.len() > 0 {
            let mut next = self.redo_stack.pop().unwrap();
            std::mem::swap(&mut self.board, &mut next);
            self.undo_stack.push(next);
            self.check_win();
        } else {
            self.status = String::from_str("Nothing to redo");
        }
    }

    /// A Wordle-style, spoiler-free summary of the finished game, suitable for
    /// pasting into a chat. Each cell becomes a colored square: a clue, a value
    /// the player typed, or a hinted reveal.
    pub fn share_text(&self) -> (card: String)
        ensures
            exists|secs: u64| card@ == share_card(*self, secs),
    {
        let secs = whole_secs(&self.elapsed());
        self.share_text_at(secs)
    }

    /// The share card for a game that took `secs` seconds.
    pub fn share_text_at(&self, secs: u64) -> (card: String)
        ensures
            card@ == share_card(*self, secs),
    {
        let mut s = String::new();
        s.append("Sudoku ");
        s.append(self.difficulty.badge());
        s.append(" ");
        s.append(self.difficulty.label());
        s.append(" — Solved!\n");
        s.append("⏱️ ");
        push_decimal2(&mut s, secs / 60);
        s.append(":");
        push_decimal2(&mut s, secs % 60);
        s.append("  ❌ ");
        push_plural(&mut s, self.mistakes, "mistake");
        s.append("  💡 ");
        push_plural(&mut s, self.hints_used, "hint");
        s.append("\n");
        s.append("🔆 Match-highlight: ");
        s.append(if self.used_highlight { "used" } else { "off" });
        s.append("   🔍 Error-check: ");
        s.append(if self.used_check { "used" } else { "off" });
        s.append("\n\n");
        let ghost head = s@;
        for r in 0usize..9
            invariant
                s@ == head + share_rows(*self, r as nat),
        {
            let ghost row_start = s@;
            for c in 0usize..9
                invariant
                    r < 9,
                    row_start == head + share_rows(*self, r as nat),
                    s@ == row_start + Seq::new(
                        c as nat,
                        |k: int| share_square(*self, cell_index(r as int, k)),
                    ),
            {
                let sq = if self.board.is_given(r, c) {
                    '🟦'
                } else if self.hint_cells[r * 9 + c] {
                    '🟧'
                } else {
                    '🟩'
                };
                s.push(sq);
                assert(s@ =~= row_start + Seq::new(
                    (c + 1) as nat,
                    |k: int| share_square(*self, cell_index(r as int, k)),
                ));
            }
            s.push('\n');
            assert(s@ =~= head + share_rows(*self, (r + 1) as nat));
        }
        s.append("\n🟦 clue  🟩 you  🟧 hint\n");
        s.append("\n🧩 Puzzle #");
        s.append(self.code().as_str());
        s
    }
} // impl App

/// Removing a pencil mark a second time changes nothing.
proof fn lemma_without_note_twice(cell: Cell, n: u8)
    requires
        1 <= n <= 9,
    ensures
        without_note(without_note(cell, n), n) == without_note(cell, n),
{
    let x = cell.notes;
    assert(((x & !(1u16 << ((n - 1) as u16))) & !(1u16 << ((n - 1) as u16))) == (x & !(1u16 << ((
    n - 1) as u16)))) by (bit_vector);
}


/// Undoing and then redoing gives back the board and both histories.
pub proof fn law_undo_then_redo(a: App, b: App, c: App)
    requires
        a.undo_stack@.len() > 0,
        undo_post(a, b),
        redo_post(b, c),
    ensures
        c.board == a.board,
        c.undo_stack@ == a.undo_stack@,
        c.redo_stack@ == a.redo_stack@,
{
    assert(b.redo_stack@.len() > 0);
    assert(a.undo_stack@.drop_last().push(a.undo_stack@.last()) =~= a.undo_stack@);
    assert(a.redo_stack@.push(a.board).drop_last() =~= a.redo_stack@);
}

/// Redoing and then undoing gives back the board and both histories.
pub proof fn law_redo_then_undo(a: App, b: App, c: App)
    requires
        a.redo_stack@.len() > 0,
        redo_post(a, b),
        undo_post(b, c),
    ensures
        c.board == a.board,
        c.undo_stack@ == a.undo_stack@,
        c.redo_stack@ == a.redo_stack@,
{
    assert(b.undo_stack@.len() > 0);
    assert(a.redo_stack@.drop_last().push(a.redo_stack@.last()) =~= a.redo_stack@);
    assert(a.undo_stack@.push(a.board).drop_last() =~= a.undo_stack@);
}

/// A digit typed on a cell that is not a clue (in note mode, on an empty cell)
/// can be undone: undo gives back the board and the undo history, and the game
/// is not won.
pub proof fn law_digit_then_undo(a: App, n: u8, b: App, c: App)
    requires
        a.wf(),
        !a.board@[cursor_index(a)].given,
        a.mode == Mode::Normal || a.board@[cursor_index(a)].value is None,
        input_digit_post(a, n, b),
        undo_post(b, c),
    ensures
        c.board == a.board,
        c.undo_stack@ == a.undo_stack@,
        !c.won,
{
    assert(a.undo_stack@.push(a.board).drop_last() =~= a.undo_stack@);
}

/// Typing the same digit twice in note mode on an empty cell leaves the board's
/// cells as they were.
pub proof fn law_note_digit_twice(a: App, n: u8, b: App, c: App)
    requires
        a.wf(),
        1 <= n <= 9,
        a.mode == Mode::Note,
        !a.board@[cursor_index(a)].given,
        a.board@[cursor_index(a)].value is None,
        input_digit_post(a, n, b),
        input_digit_post(b, n, c),
    ensures
        c.board@ == a.board@,
{
    let i = cursor_index(a);
    law_toggle_note_twice(a.board@[i].notes, n);
    assert(b.cursor == a.cursor && b.mode == a.mode);
    assert(0 <= i < 81);
    assert(b.board@[i].notes == a.board@[i].notes ^ note_bit(n));
    assert(!b.board@[i].given && b.board@[i].value is None);
    assert(c.board@[i] == a.board@[i]);
    assert(c.board@ =~= a.board@);
}

/// A digit that completes the board wins the game.
pub proof fn law_completing_digit_wins(a: App, n: u8, b: App)
    requires
        a.wf(),
        !a.board@[cursor_index(a)].given,
        a.mode == Mode::Normal,
        input_digit_post(a, n, b),
        board_solved(b.board@),
    ensures
        b.won,
{
}

/// Submitting a prompt that holds exactly a puzzle's code starts that puzzle:
/// the same difficulty and seed.
pub proof fn law_submit_code_loads_puzzle(a: App, b: App, d: Difficulty, seed: u32)
    requires
        a.code_entry matches Some(buf) && buf@ == base36_text(packed_code(d, seed)),
        submit_post(a, b),
    ensures
        fresh_game(b, d),
        b.seed == seed,
        b.status@ == loaded_message(d, seed),
        b.board@ == board_cells(seeded_grid(d, seed)),
        b.solution@ == seeded_solution(seed),
{
    law_share_code_roundtrip(d, seed);
}

/// Submitting a pasted line that holds a puzzle's code after a `#` (in any
/// letter case, followed by text that holds no `#` and does not start with a
/// letter or digit) starts that puzzle: the same difficulty and seed.
pub proof fn law_paste_code_loads_puzzle(
    a: App,
    b: App,
    d: Difficulty,
    seed: u32,
    before: Seq<char>,
    code: Seq<char>,
    after: Seq<char>,
)
    requires
        a.code_entry matches Some(buf) && buf@ == before + seq!['#'] + code + after,
        same_ignoring_case(code, base36_text(packed_code(d, seed))),
        forall|i: int| 0 <= i < after.len() ==> #[trigger] after[i] != '#',
        after.len() == 0 || !is_code_char(after[0]),
        submit_post(a, b),
    ensures
        fresh_game(b, d),
        b.seed == seed,
        b.status@ == loaded_message(d, seed),
        b.board@ == board_cells(seeded_grid(d, seed)),
        b.solution@ == seeded_solution(seed),
{
    law_share_code_in_text(d, seed, before, code, after);
}

/// Pasting a game's share line (`#` and its code, with text around it) into
/// another game's code prompt, while the first game still shows the puzzle it
/// was generated with, loads that same puzzle: the same board, solution,
/// difficulty and seed.
pub proof fn law_shared_code_reproduces_puzzle(
    mine: App,
    a: App,
    b: App,
    before: Seq<char>,
    after: Seq<char>,
)
    requires
        shows_seeded_puzzle(mine),
        a.code_entry matches Some(buf) && buf@ == before + seq!['#'] + base36_text(
            packed_code(mine.difficulty, mine.seed),
        ) + after,
        forall|i: int| 0 <= i < after.len() ==> #[trigger] after[i] != '#',
        after.len() == 0 || !is_code_char(after[0]),
        submit_post(a, b),
    ensures
        b.board@ == mine.board@,
        b.solution@ == mine.solution@,
        b.difficulty == mine.difficulty,
        b.seed == mine.seed,
{
    let code = base36_text(packed_code(mine.difficulty, mine.seed));
    assert(same_ignoring_case(code, code));
    law_share_code_in_text(mine.difficulty, mine.seed, before, code, after);
}

/// In a well-formed game no clue disagrees with the solution, so the error
/// check never flags a clue.
pub proof fn law_clues_never_wrong(a: App, i: int)
    requires
        a.wf(),
        0 <= i < 81,
        a.board@[i].given,
    ensures
        a.board@[i].value == Some(a.solution@[i]),
{
}

/// Every filled cell of the game holds the solution's digit.
pub open spec fn filled_cells_right(a: App) -> bool {
    forall|i: int|
        0 <= i < 81 ==> (#[trigger] a.board@[i].value matches Some(v) ==> v == a.solution@[i])
}

/// A fresh game's solution is a solved grid and its clues are the solution's
/// digits.
pub proof fn law_fresh_game_is_right(a: App, d: Difficulty)
    requires
        fresh_game(a, d),
    ensures
        is_solved_grid(a.solution@),
        filled_cells_right(a),
{
    assert forall|i: int| 0 <= i < 81 implies (#[trigger] a.board@[i].value matches Some(v) ==> v
        == a.solution@[i]) by {
        assert(a.board@[i] == blank_cell() || a.board@[i] == (Cell {
            value: Some(a.solution@[i]),
            given: true,
            notes: 0,
        }));
    }
}

/// Hinting keeps every filled cell on the solution's digit, and the hint that
/// fills the last empty cell of a game with a solved-grid solution wins it. So
/// hinting every empty cell of a fresh game wins it.
pub proof fn law_hints_win(a: App, b: App)
    requires
        a.wf(),
        filled_cells_right(a),
        hint_post(a, b),
    ensures
        b.solution == a.solution,
        filled_cells_right(b),
        is_solved_grid(a.solution@) && !a.board@[cursor_index(a)].given
            && a.board@[cursor_index(a)].value is None && (forall|j: int|
            0 <= j < 81 ==> #[trigger] b.board@[j].value is Some) ==> b.won,
{
    let i = cursor_index(a);
    if !(a.board@[i].given || a.board@[i].value is Some) {
        assert forall|j: int| 0 <= j < 81 implies (#[trigger] b.board@[j].value matches Some(v) ==> v
            == b.solution@[j]) by {
            if j != i {
                assert(b.board@[j].value == a.board@[j].value);
            }
        }
        if is_solved_grid(a.solution@) && (forall|j: int| 0 <= j < 81 ==> #[trigger] b.board@[j].value is Some) {
            assert forall|j: int| 0 <= j < 81 implies match #[trigger] b.board@[j].value {
                Some(v) => !conflicts_at(b.board@, j, v),
                None => false,
            } by {
                assert(b.board@[j].value is Some);
                if conflicts_at(b.board@, j, b.solution@[j]) {
                    let k = choose|k: int|
                        0 <= k < 81 && k != j && same_unit(j, k) && b.board@[k].value == Some(
                            b.solution@[j],
                        );
                    assert(b.board@[k].value is Some);
                    assert(b.solution@[k] != b.solution@[j]);
                }
            }
            assert(board_solved(b.board@));
        }
    }
}

/// The share card gives nothing away: two games that agree on difficulty, seed,
/// counters, the aids used, which cells are clues and which were hinted get the
/// same card, whatever digits their cells hold.
pub proof fn law_share_card_spoiler_free(a: App, b: App, secs: u64)
    requires
        a.difficulty == b.difficulty,
        a.seed == b.seed,
        a.mistakes == b.mistakes,
        a.hints_used == b.hints_used,
        a.used_highlight == b.used_highlight,
        a.used_check == b.used_check,
        forall|i: int| 0 <= i < 81 ==> #[trigger] a.board@[i].given == b.board@[i].given,
        forall|i: int| 0 <= i < 81 ==> #[trigger] a.hint_cells@[i] == b.hint_cells@[i],
    ensures
        share_card(a, secs) == share_card(b, secs),
{
    assert forall|r: int| 0 <= r < 9 implies #[trigger] share_row(a, r) == share_row(b, r) by {
        assert forall|c: int| 0 <= c < 9 implies share_square(a, cell_index(r, c)) == share_square(
            b,
            cell_index(r, c),
        ) by {
            assert(a.board@[cell_index(r, c)].given == b.board@[cell_index(r, c)].given);
            assert(a.hint_cells@[cell_index(r, c)] == b.hint_cells@[cell_index(r, c)]);
        }
        assert(share_row(a, r) =~= share_row(b, r));
    }
    lemma_share_rows_agree(a, b, 9);
}

/// Games whose share rows agree have the same first `k` share lines.
proof fn lemma_share_rows_agree(a: App, b: App, k: nat)
    requires
        k <= 9,
        forall|r: int| 0 <= r < 9 ==> #[trigger] share_row(a, r) == share_row(b, r),
    ensures
        share_rows(a, k) == share_rows(b, k),
    decreases k,
{
    if k > 0 {
        lemma_share_rows_agree(a, b, (k - 1) as nat);
        assert(share_row(a, k - 1) == share_row(b, k - 1));
    }
}

/// A digit typed on a cell that is not a clue, undone and then redone, is back:
/// the board is the one right after the digit was typed.
pub proof fn law_digit_undo_redo(a: App, n: u8, b: App, c: App, d: App)
    requires
        a.wf(),
        !a.board@[cursor_index(a)].given,
        a.mode == Mode::Normal || a.board@[cursor_index(a)].value is None,
        input_digit_post(a, n, b),
        undo_post(b, c),
        redo_post(c, d),
    ensures
        d.board == b.board,
{
    law_digit_then_undo(a, n, b, c);
    assert(b.undo_stack@.len() > 0);
    law_undo_then_redo(b, c, d);
}

/// A single step moves the cursor by exactly one row or column in its
/// direction and stops at the board's edge; a step back undoes a step that
/// moved.
pub proof fn law_steps(r: usize, c: usize)
    requires
        r < 9,
        c < 9,
    ensures
        stepped((r, c), Direction::Down) == (if r < 8 { (r + 1) as usize } else { 8usize }, c),
        stepped((r, c), Direction::Up) == (if r > 0 { (r - 1) as usize } else { 0usize }, c),
        stepped((r, c), Direction::Right) == (r, if c < 8 { (c + 1) as usize } else { 8usize }),
        stepped((r, c), Direction::Left) == (r, if c > 0 { (c - 1) as usize } else { 0usize }),
        r < 8 ==> stepped(stepped((r, c), Direction::Down), Direction::Up) == (r, c),
        r > 0 ==> stepped(stepped((r, c), Direction::Up), Direction::Down) == (r, c),
        c < 8 ==> stepped(stepped((r, c), Direction::Right), Direction::Left) == (r, c),
        c > 0 ==> stepped(stepped((r, c), Direction::Left), Direction::Right) == (r, c),
{
}

/// A box jump lands on the first row or column of the neighbouring 3x3 box in
/// its direction, keeping the other coordinate; from the last box it goes to
/// that box's start.
pub proof fn law_box_jumps(r: usize, c: usize)
    requires
        r < 9,
        c < 9,
    ensures
        box_jumped((r, c), Direction::Right).0 == r,
        box_jumped((r, c), Direction::Right).1 % 3 == 0,
        box_jumped((r, c), Direction::Right).1 / 3 == if c / 3 < 2 { c / 3 + 1 } else { 2 },
        box_jumped((r, c), Direction::Left).0 == r,
        box_jumped((r, c), Direction::Left).1 % 3 == 0,
        box_jumped((r, c), Direction::Left).1 / 3 == if c / 3 > 0 { c / 3 - 1 } else { 0 },
        box_jumped((r, c), Direction::Down).1 == c,
        box_jumped((r, c), Direction::Down).0 % 3 == 0,
        box_jumped((r, c), Direction::Down).0 / 3 == if r / 3 < 2 { r / 3 + 1 } else { 2 },
        box_jumped((r, c), Direction::Up).1 == c,
        box_jumped((r, c), Direction::Up).0 % 3 == 0,
        box_jumped((r, c), Direction::Up).0 / 3 == if r / 3 > 0 { r / 3 - 1 } else { 0 },
{
}

/// What committing `n` at cell `i` does to a board: the cell holds `n` as a
/// player value without notes, every cell sharing a unit with it loses pencil
/// mark `n`, no other mark or value changes, and cells outside its units are
/// untouched.
proof fn lemma_commit_effect(cells: Seq<Cell>, i: int, n: u8)
    requires
        cells.len() == 81,
        0 <= i < 81,
        1 <= n <= 9,
    ensures
        committed(cells, i, n)[i] == (Cell { value: Some(n), given: false, notes: 0 }),
        forall|j: int|
            0 <= j < 81 && #[trigger] same_unit(i, j) ==> !note_in(committed(cells, i, n)[j].notes, n),
        forall|j: int|
            0 <= j < 81 && j != i ==> #[trigger] committed(cells, i, n)[j].value == cells[j].value
                && committed(cells, i, n)[j].given == cells[j].given,
        forall|j: int|
            0 <= j < 81 && !same_unit(i, j) ==> #[trigger] committed(cells, i, n)[j] == cells[j],
        forall|j: int, m: u8|
            0 <= j < 81 && 1 <= m <= 9 && m != n ==> #[trigger] note_in(
                committed(cells, i, n)[j].notes,
                m,
            ) == (j != i && note_in(cells[j].notes, m)),
{
    let b = committed(cells, i, n);
    assert(0u16 & !(1u16 << ((n - 1) as u16)) == 0u16) by (bit_vector);
    assert(same_unit(i, i));
    assert forall|j: int| 0 <= j < 81 && #[trigger] same_unit(i, j) implies !note_in(
        b[j].notes,
        n,
    ) by {
        if j != i {
            lemma_note_bits(cells[j].notes, n, n);
        } else {
            lemma_note_bits(0u16, n, n);
        }
    }
    assert forall|j: int, m: u8|
        0 <= j < 81 && 1 <= m <= 9 && m != n implies #[trigger] note_in(b[j].notes, m) == (j != i
        && note_in(cells[j].notes, m)) by {
        lemma_note_bits(cells[j].notes, n, m);
        lemma_note_bits(0u16, n, m);
    }
}

/// A hint commits the solution's digit at an empty cell just as typing it
/// does: the cell holds the digit as a player value without notes, every cell
/// sharing a unit with it loses that pencil mark, and every other cell and
/// every value elsewhere are untouched.
pub proof fn law_hint_commits(a: App, b: App)
    requires
        a.wf(),
        !a.board@[cursor_index(a)].given,
        a.board@[cursor_index(a)].value is None,
        hint_post(a, b),
    ensures
        b.board@[cursor_index(a)] == (Cell {
            value: Some(a.solution@[cursor_index(a)]),
            given: false,
            notes: 0,
        }),
        forall|j: int|
            0 <= j < 81 && #[trigger] same_unit(cursor_index(a), j) ==> !note_in(
                b.board@[j].notes,
                a.solution@[cursor_index(a)],
            ),
        forall|j: int|
            0 <= j < 81 && j != cursor_index(a) ==> #[trigger] b.board@[j].value == a.board@[j].value
                && b.board@[j].given == a.board@[j].given,
        forall|j: int|
            0 <= j < 81 && !same_unit(cursor_index(a), j) ==> #[trigger] b.board@[j] == a.board@[j],
        forall|j: int, m: u8|
            0 <= j < 81 && 1 <= m <= 9 && m != a.solution@[cursor_index(a)] ==> #[trigger] note_in(
                b.board@[j].notes,
                m,
            ) == (j != cursor_index(a) && note_in(a.board@[j].notes, m)),
        b.hints_used == a.hints_used + 1,
        b.mistakes == a.mistakes,
{
    lemma_commit_effect(a.board@, cursor_index(a), a.solution@[cursor_index(a)]);
}

/// A digit typed in normal mode on a cell that is not a clue is committed: the
/// cell holds it as a player value without notes, every cell sharing a unit
/// with it loses that pencil mark, nothing else changes on the board, and it
/// counts as a mistake exactly when it differs from the solution.
pub proof fn law_digit_commits(a: App, n: u8, b: App)
    requires
        a.wf(),
        1 <= n <= 9,
        a.mode == Mode::Normal,
        !a.board@[cursor_index(a)].given,
        input_digit_post(a, n, b),
    ensures
        b.board@[cursor_index(a)] == (Cell { value: Some(n), given: false, notes: 0 }),
        forall|j: int|
            0 <= j < 81 && #[trigger] same_unit(cursor_index(a), j) ==> !note_in(
                b.board@[j].notes,
                n,
            ),
        forall|j: int|
            0 <= j < 81 && j != cursor_index(a) ==> #[trigger] b.board@[j].value == a.board@[j].value
                && b.board@[j].given == a.board@[j].given,
        forall|j: int|
            0 <= j < 81 && !same_unit(cursor_index(a), j) ==> #[trigger] b.board@[j] == a.board@[j],
        forall|j: int, m: u8|
            0 <= j < 81 && 1 <= m <= 9 && m != n ==> #[trigger] note_in(b.board@[j].notes, m) == (j
                != cursor_index(a) && note_in(a.board@[j].notes, m)),
        b.mistakes == if n == a.solution@[cursor_index(a)] {
            a.mistakes as int
        } else {
            a.mistakes + 1
        },
        b.hints_used == a.hints_used,
{
    lemma_commit_effect(a.board@, cursor_index(a), n);
}

/// Clearing a cell that is not a clue empties its value and keeps its notes,
/// or, on an empty cell, drops its notes; no other cell changes. A clue is
/// never cleared.
pub proof fn law_clear_cell(a: App, b: App)
    requires
        a.wf(),
        clear_cell_post(a, b),
    ensures
        a.board@[cursor_index(a)].given ==> b.board@ == a.board@,
        !a.board@[cursor_index(a)].given ==> b.board@[cursor_index(a)].value is None
            && !b.board@[cursor_index(a)].given,
        !a.board@[cursor_index(a)].given && a.board@[cursor_index(a)].value is Some
            ==> b.board@[cursor_index(a)].notes == a.board@[cursor_index(a)].notes,
        !a.board@[cursor_index(a)].given && a.board@[cursor_index(a)].value is None
            ==> b.board@[cursor_index(a)].notes == 0,
        forall|j: int| 0 <= j < 81 && j != cursor_index(a) ==> #[trigger] b.board@[j] == a.board@[j],
{
}

/// The share card opens with the difficulty's badge and name, then the time
/// played as mm:ss, the game's own mistake counter next to "mistake" and its
/// hint counter next to "hint"; it ends with the puzzle's share code.
pub proof fn law_share_card_lines(a: App, secs: u64)
    ensures
        ({
            let head = "Sudoku "@ + badge_text(a.difficulty) + " "@ + label_text(a.difficulty)
                + " — Solved!\n"@ + "⏱️ "@ + decimal2((secs / 60) as nat) + ":"@ + decimal2(
                (secs % 60) as nat,
            ) + "  ❌ "@ + plural(a.mistakes, "mistake"@) + "  💡 "@ + plural(
                a.hints_used,
                "hint"@,
            ) + "\n"@;
            let card = share_card(a, secs);
            head.len() <= card.len() && card.subrange(0, head.len() as int) == head
        }),
        ({
            let tail = "\n🧩 Puzzle #"@ + base36_text(packed_code(a.difficulty, a.seed));
            let card = share_card(a, secs);
            tail.len() <= card.len() && card.subrange(card.len() - tail.len(), card.len() as int)
                == tail
        }),
{
    let head = "Sudoku "@ + badge_text(a.difficulty) + " "@ + label_text(a.difficulty)
        + " — Solved!\n"@ + "⏱️ "@ + decimal2((secs / 60) as nat) + ":"@ + decimal2(
        (secs % 60) as nat,
    ) + "  ❌ "@ + plural(a.mistakes, "mistake"@) + "  💡 "@ + plural(a.hints_used, "hint"@)
        + "\n"@;
    let rest = "🔆 Match-highlight: "@ + usage(a.used_highlight) + "   🔍 Error-check: "@ + usage(
        a.used_check,
    ) + "\n\n"@ + share_rows(a, 9) + "\n🟦 clue  🟩 you  🟧 hint\n"@ + "\n🧩 Puzzle #"@
        + base36_text(packed_code(a.difficulty, a.seed));
    assert(share_card(a, secs) =~= head + rest);
    assert((head + rest).subrange(0, head.len() as int) =~= head);
    let front = head + "🔆 Match-highlight: "@ + usage(a.used_highlight) + "   🔍 Error-check: "@
        + usage(a.used_check) + "\n\n"@ + share_rows(a, 9) + "\n🟦 clue  🟩 you  🟧 hint\n"@;
    let tail = "\n🧩 Puzzle #"@ + base36_text(packed_code(a.difficulty, a.seed));
    assert(share_card(a, secs) =~= front + tail);
    assert((front + tail).subrange(front.len() as int, (front + tail).len() as int) =~= tail);
}

/// Each line of the share card's grid is the board row's nine squares and a
/// line break: blue for a clue, orange for a cell revealed by a hint, green for
/// a cell the player filled or left.
pub proof fn law_share_squares(a: App, r: int, c: int)
    requires
        0 <= r < 9,
        0 <= c < 9,
    ensures
        share_row(a, r).len() == 10,
        share_row(a, r)[9] == '\n',
        share_row(a, r)[c] == if a.board@[9 * r + c].given {
            '🟦'
        } else if a.hint_cells@[9 * r + c] {
            '🟧'
        } else {
            '🟩'
        },
{
}

/// Finding a digit moves the cursor to another cell holding it that is at
/// least as near (counting rows and columns apart) as every other such cell;
/// when no other cell holds it the cursor stays and the status says so.
pub proof fn law_find_nearest(a: App, v: u8, b: App)
    requires
        a.wf(),
        find_nearest_post(a, v, b),
    ensures
        (exists|r: int, c: int|
            0 <= r < 9 && 0 <= c < 9 && !(r == a.cursor.0 && c == a.cursor.1) && #[trigger] a.board@[9
                * r + c].value == Some(v)) ==> {
            &&& b.cursor != a.cursor
            &&& b.cursor.0 < 9 && b.cursor.1 < 9
            &&& a.board@[9 * b.cursor.0 + b.cursor.1].value == Some(v)
            &&& forall|r: int, c: int|
                0 <= r < 9 && 0 <= c < 9 && !(r == a.cursor.0 && c == a.cursor.1) && #[trigger] a.board@[9
                    * r + c].value == Some(v) ==> (if b.cursor.0 >= a.cursor.0 {
                    b.cursor.0 - a.cursor.0
                } else {
                    a.cursor.0 - b.cursor.0
                }) + (if b.cursor.1 >= a.cursor.1 {
                    b.cursor.1 - a.cursor.1
                } else {
                    a.cursor.1 - b.cursor.1
                }) <= (if r >= a.cursor.0 {
                    r - a.cursor.0
                } else {
                    a.cursor.0 - r
                }) + (if c >= a.cursor.1 {
                    c - a.cursor.1
                } else {
                    a.cursor.1 - c
                })
            &&& b.board == a.board
        },
        !(exists|r: int, c: int|
            0 <= r < 9 && 0 <= c < 9 && !(r == a.cursor.0 && c == a.cursor.1) && #[trigger] a.board@[9
                * r + c].value == Some(v)) ==> b.cursor == a.cursor && b.status@ == no_value_message(v),
{
    if exists|r: int, c: int|
        0 <= r < 9 && 0 <= c < 9 && !(r == a.cursor.0 && c == a.cursor.1) && #[trigger] a.board@[9
            * r + c].value == Some(v) {
        let (r0, c0) = choose|r: int, c: int|
            0 <= r < 9 && 0 <= c < 9 && !(r == a.cursor.0 && c == a.cursor.1) && #[trigger] a.board@[9
                * r + c].value == Some(v);
        assert(is_other_match(a.board@, a.cursor, v, r0, c0));
        assert forall|r: int, c: int|
            0 <= r < 9 && 0 <= c < 9 && !(r == a.cursor.0 && c == a.cursor.1) && #[trigger] a.board@[9
                * r + c].value == Some(v) implies distance(a.cursor, b.cursor.0 as int, b.cursor.1 as int)
            <= distance(a.cursor, r, c) by {
            assert(is_other_match(a.board@, a.cursor, v, r, c));
        }
    } else {
        assert forall|r: int, c: int| !is_other_match(a.board@, a.cursor, v, r, c) by {
            if is_other_match(a.board@, a.cursor, v, r, c) {
                assert(a.board@[9 * r + c].value == Some(v));
            }
        }
    }
}

/// In the code prompt, typing a character and then deleting one gives back
/// the prompt's text, and deleting shortens a non-empty text by exactly its
/// last character; nothing else about the game changes.
pub proof fn law_code_typing(a: App, ch: char, b: App, c: App)
    requires
        a.code_entry is Some,
        code_entry_push_post(a, seq![ch], b),
        code_entry_backspace_post(b, c),
    ensures
        c.code_entry matches Some(t) && a.code_entry matches Some(u) && t@ == u@,
        b.code_entry matches Some(t) && a.code_entry matches Some(u) && t@.len() == u@.len() + 1
            && t@.last() == ch,
        c == (App { code_entry: c.code_entry, ..a }),
{
    let u = a.code_entry->0;
    assert((u@ + seq![ch]).drop_last() =~= u@);
}

} // verus!
