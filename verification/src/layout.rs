//! The decisions behind the terminal drawing: how large cells are, which
//! gridline character goes where, what a cell shows, and how it is highlighted.
use vstd::prelude::*;
use vstd::string::StringExecFns;
use crate::app::{App, Mode};
use crate::board::{cell_index, conflicts_at, note_in, same_unit, Cell};

verus! {

broadcast use crate::board::lemma_board_len;

/// Cell dimensions are chosen at draw time to fit the terminal. Cells are kept
/// 3 rows tall (so pencil marks show) for as long as possible — dropping the
/// thin gridlines between cells before shrinking the cells themselves.
#[derive(Clone, Copy, Debug, PartialEq, Eq, Structural)]
pub struct CellSize {
    pub w: usize,
    pub h: usize,
    /// Whether thin gridlines are drawn between cells within a box. When false,
    /// only the heavy box borders are drawn, which saves vertical space.
    pub inner_lines: bool,
}

/// Rows taken by horizontal gridlines: all ten, or only the four heavy ones.
pub open spec fn border_rows(inner_lines: bool) -> int {
    if inner_lines {
        10
    } else {
        4
    }
}

/// The cell width for a terminal `area_w` columns wide: the room per cell left
/// after the ten vertical gridlines, kept within 3..=5.
pub open spec fn cell_width(area_w: int) -> int {
    let room = if area_w >= 10 {
        (area_w - 10) / 9
    } else {
        0
    };
    if room <= 3 {
        3
    } else if room >= 5 {
        5
    } else {
        room
    }
}

/// The cell height and gridline choice for a terminal `avail` rows high: the
/// first of (3, thin lines), (3, none), (2, thin), (2, none), (1, thin),
/// (1, none) whose board fits, or the smallest when none does.
pub open spec fn fitted(avail: int) -> (int, bool) {
    if avail >= 27 + 10 {
        (3, true)
    } else if avail >= 27 + 4 {
        (3, false)
    } else if avail >= 18 + 10 {
        (2, true)
    } else if avail >= 18 + 4 {
        (2, false)
    } else if avail >= 9 + 10 {
        (1, true)
    } else {
        (1, false)
    }
}

/// Candidate `j` of the six (3 rows with thin lines, 3 rows without, 2 with,
/// ...) fits `avail` rows.
pub open spec fn candidate_fits(avail: int, j: int) -> bool {
    avail >= 9 * (3 - j / 2) + border_rows(j % 2 == 0)
}

/// A cell size as the layout makes them.
pub open spec fn size_ok(size: CellSize) -> bool {
    3 <= size.w <= 5 && 1 <= size.h <= 3
}

impl CellSize {
    /// Pick the densest layout that still fits an area `height` rows high and
    /// `width` columns wide, preferring tall (3-row) cells so notes remain visible.
    pub fn fit(height: u16, width: u16) -> (size: CellSize)
        ensures
            size.h == fitted(height as int).0,
            size.inner_lines == fitted(height as int).1,
            size.w == cell_width(width as int),
            size_ok(size),
    {
        let avail = height as i32;
        let mut k: usize = 0;
        while k < 6
            invariant
                avail == height as int,
                0 <= k <= 6,
                forall|j: int| 0 <= j < k ==> !#[trigger] candidate_fits(avail as int, j),
            decreases 6 - k,
        {
            let h: i32 = 3 - (k / 2) as i32;
            let inner = k % 2 == 0;
            let border: i32 = if inner { 10 } else { 4 };
            assert(candidate_fits(avail as int, k as int) == (avail >= 9 * h + border));
            if avail >= 9 * h + border {
                proof {
                    assert(forall|j: int| 0 <= j < k ==> !candidate_fits(avail as int, j));
                    if k >= 1 { assert(!candidate_fits(avail as int, 0)); }
                    if k >= 2 { assert(!candidate_fits(avail as int, 1)); }
                    if k >= 3 { assert(!candidate_fits(avail as int, 2)); }
                    if k >= 4 { assert(!candidate_fits(avail as int, 3)); }
                    if k >= 5 { assert(!candidate_fits(avail as int, 4)); }
                }
                return CellSize::with_width(h, inner, width);
            }
            k = k + 1;
        }
        // Terminal is shorter than any full board; use the smallest and clip.
        assert(!candidate_fits(avail as int, 0) && !candidate_fits(avail as int, 1)
            && !candidate_fits(avail as int, 2) && !candidate_fits(avail as int, 3)
            && !candidate_fits(avail as int, 4) && !candidate_fits(avail as int, 5));
        CellSize::with_width(1, false, width)
    }

    fn with_width(h: i32, inner_lines: bool, area_w: u16) -> (size: CellSize)
        requires
            1 <= h <= 3,
        ensures
            size == (CellSize {
                w: cell_width(area_w as int) as usize,
                h: h as usize,
                inner_lines,
            }),
    {
        let room: usize = if area_w >= 10 {
            ((area_w - 10) / 9) as usize
        } else {
            0
        };
        let max_w: usize = if room <= 3 {
            3
        } else if room >= 7 {
            7
        } else {
            room
        };
        CellSize { w: if max_w < 5 { max_w } else { 5 }, h: h as usize, inner_lines }
    }

    pub fn board_w(&self) -> (w: u16)
        requires
            size_ok(*self),
        ensures
            w == 9 * self.w + 10,
    {
        (9 * self.w + 10) as u16
    }

    pub fn board_h(&self) -> (h: u16)
        requires
            size_ok(*self),
        ensures
            h == 9 * self.h + border_rows(self.inner_lines),
    {
        let border_rows: usize = if self.inner_lines { 10 } else { 4 };
        (9 * self.h + border_rows) as u16
    }

    /// Whether cells are tall enough for the 3x3 pencil-mark grid.
    pub fn shows_notes(&self) -> (b: bool)
        ensures
            b == (self.h >= 3),
    {
        self.h >= 3
    }
}

/// The character at the intersection of horizontal gridline `hi` and vertical
/// gridline `vi` (both 0..=9): corners, edges and crossings, heavy on the box
/// lines (every third) and light elsewhere.
pub open spec fn junction_char(hi: int, vi: int) -> char {
    let hh = hi % 3 == 0;
    let vh = vi % 3 == 0;
    let north = hi > 0;
    let south = hi < 9;
    let west = vi > 0;
    let east = vi < 9;
    if !north && south && !west && east {
        '┏'
    } else if !north && south && west && !east {
        '┓'
    } else if north && !south && !west && east {
        '┗'
    } else if north && !south && west && !east {
        '┛'
    } else if !north && south && west && east {
        if vh {
            '┳'
        } else {
            '┯'
        }
    } else if north && !south && west && east {
        if vh {
            '┻'
        } else {
            '┷'
        }
    } else if north && south && !west && east {
        if hh {
            '┣'
        } else {
            '┠'
        }
    } else if north && south && west && !east {
        if hh {
            '┫'
        } else {
            '┨'
        }
    } else if north && south && west && east {
        if !vh && !hh {
            '┼'
        } else if !vh && hh {
            '┿'
        } else if vh && !hh {
            '╂'
        } else {
            '╋'
        }
    } else {
        ' '
    }
}

/// The character at the intersection of horizontal line `hi` and vertical line
/// `vi` (both 0..=9). Lines on a 3-boundary are heavy; the rest are light.
pub fn junction(hi: usize, vi: usize) -> (ch: char)
    ensures
        ch == junction_char(hi as int, vi as int),
{
    let hh = hi % 3 == 0;  // horizontal line heavy?
    let vh = vi % 3 == 0;  // vertical line heavy?
    let (north, south, west, east) = (hi > 0, hi < 9, vi > 0, vi < 9);
    match (north, south, west, east) {
        (false, true, false, true) => '┏',
        (false, true, true, false) => '┓',
        (true, false, false, true) => '┗',
        (true, false, true, false) => '┛',
        (false, true, true, true) => {
            if vh {
                '┳'
            } else {
                '┯'
            }
        },
        (true, false, true, true) => {
            if vh {
                '┻'
            } else {
                '┷'
            }
        },
        (true, true, false, true) => {
            if hh {
                '┣'
            } else {
                '┠'
            }
        },
        (true, true, true, false) => {
            if hh {
                '┫'
            } else {
                '┨'
            }
        },
        (true, true, true, true) => match (vh, hh) {
            (false, false) => '┼',
            (false, true) => '┿',
            (true, false) => '╂',
            (true, true) => '╋',
        },
        _ => ' ',
    }
}

/// The line character of horizontal gridline `hi`: heavy on box lines.
pub open spec fn segment_char(hi: int) -> char {
    if hi % 3 == 0 {
        '━'
    } else {
        '─'
    }
}

/// The first `k` pieces (0..=10) of horizontal gridline `hi`: each junction,
/// followed by `cw` line characters up to the last junction.
pub open spec fn border_prefix(hi: int, cw: nat, k: int) -> Seq<char>
    decreases k,
{
    if k <= 0 {
        Seq::empty()
    } else {
        border_prefix(hi, cw, k - 1).push(junction_char(hi, k - 1)) + if k - 1 < 9 {
            Seq::new(cw, |j: int| segment_char(hi))
        } else {
            Seq::empty()
        }
    }
}

/// The text of horizontal gridline `hi` (0..=9) with cells `cw` wide.
pub open spec fn border_text_spec(hi: int, cw: nat) -> Seq<char> {
    border_prefix(hi, cw, 10)
}

/// Build the horizontal gridline for horizontal-line index `hi`.
pub fn border_text(hi: usize, cw: usize) -> (s: String)
    ensures
        s@ == border_text_spec(hi as int, cw as nat),
{
    let seg = if hi % 3 == 0 { '━' } else { '─' };
    let mut s = String::new();
    for vi in 0usize..10
        invariant
            seg == segment_char(hi as int),
            s@ == border_prefix(hi as int, cw as nat, vi as int),
    {
        let ghost before = s@;
        s.push(junction(hi, vi));
        if vi < 9 {
            for _k in 0usize..cw
                invariant
                    seg == segment_char(hi as int),
                    s@ == before.push(junction_char(hi as int, vi as int)) + Seq::new(
                        _k as nat,
                        |j: int| segment_char(hi as int),
                    ),
            {
                s.push(seg);
                assert(s@ =~= before.push(junction_char(hi as int, vi as int)) + Seq::new(
                    (_k + 1) as nat,
                    |j: int| segment_char(hi as int),
                ));
            }
        }
        assert(s@ =~= border_prefix(hi as int, cw as nat, vi + 1));
    }
    s
}

/// The digit character for `d` (0..=9).
pub open spec fn digit_glyph(d: int) -> char {
    (48 + d) as char
}

/// The pencil marks of `notes` among 1..=k, in ascending order, as digits.
pub open spec fn note_list(notes: u16, k: int) -> Seq<char>
    decreases k,
{
    if k <= 0 {
        Seq::empty()
    } else {
        note_list(notes, k - 1) + if note_in(notes, k as u8) {
            seq![digit_glyph(k)]
        } else {
            Seq::empty()
        }
    }
}

/// Which pencil mark of row `sub` of the 3x3 note grid sits at column `x` of a
/// cell `w` wide (spread out when there is room), if any.
pub open spec fn note_at(w: int, sub: int, x: int) -> Option<u8> {
    if w >= 5 {
        if 0 <= x <= 4 && x % 2 == 0 {
            Some((sub * 3 + x / 2 + 1) as u8)
        } else {
            None
        }
    } else if 0 <= x <= 2 {
        Some((sub * 3 + x + 1) as u8)
    } else {
        None
    }
}

/// The glyph at column `x` of text row `sub` of a cell drawn `size` large: its
/// value centered, or its pencil marks (a 3x3 grid in tall cells, otherwise a
/// centered list clipped to the width), or a blank.
pub open spec fn glyph_at(cell: Cell, size: CellSize, sub: int, x: int) -> char {
    let w = size.w as int;
    let h = size.h as int;
    match cell.value {
        Some(v) => if sub == h / 2 && x == w / 2 {
            digit_glyph(v as int)
        } else {
            ' '
        },
        None => if cell.notes == 0 {
            ' '
        } else if h >= 3 {
            match note_at(w, sub, x) {
                Some(n) => if note_in(cell.notes, n) {
                    digit_glyph(n as int)
                } else {
                    ' '
                },
                None => ' ',
            }
        } else if sub == h / 2 {
            let cand = note_list(cell.notes, 9);
            let shown = if cand.len() < w {
                cand.len() as int
            } else {
                w
            };
            let start = (w - shown) / 2;
            if start <= x < start + shown {
                cand[x - start]
            } else {
                ' '
            }
        } else {
            ' '
        },
    }
}

/// The `w` glyphs for sub-row `sub` of a cell: a centered value, the pencil
/// marks, or blanks.
pub fn cell_glyphs(cell: &Cell, size: &CellSize, sub: usize) -> (s: String)
    requires
        size_ok(*size),
        sub < size.h,
        cell.value matches Some(v) ==> v <= 9,
    ensures
        s@ == Seq::new(size.w as nat, |x: int| glyph_at(*cell, *size, sub as int, x)),
{
    let w = size.w;
    let mut out: Vec<char> = Vec::new();
    for _i in 0..w
        invariant
            out@.len() == _i,
            forall|j: int| 0 <= j < _i ==> out@[j] == ' ',
    {
        out.push(' ');
    }
    if let Some(v) = cell.value {
        if sub == size.h / 2 {
            out.set(w / 2, (v + 48) as char);
        }
    } else if cell.notes != 0 {
        if size.shows_notes() {
            // Notes 1-3 / 4-6 / 7-9 sit on rows 0/1/2; spread across the width
            // when there's room, otherwise packed to the left.
            let cols: [usize; 3] = if w >= 5 { [0, 2, 4] } else { [0, 1, 2] };
            assert(cols@ =~= if w >= 5 { seq![0usize, 2, 4] } else { seq![0usize, 1, 2] });
            for k in 0usize..3
                invariant
                    size_ok(*size),
                    w == size.w,
                    size.h >= 3,
                    sub < size.h,
                    cell.value is None,
                    cell.notes != 0,
                    cols@ == if w >= 5 { seq![0usize, 2, 4] } else { seq![0usize, 1, 2] },
                    out@.len() == w,
                    forall|x: int|
                        0 <= x < w ==> #[trigger] out@[x] == if note_at(w as int, sub as int, x)
                            matches Some(n) && n <= k + (sub * 3) as int && note_in(cell.notes, n) {
                            digit_glyph(note_at(w as int, sub as int, x)->0 as int)
                        } else {
                            ' '
                        },
            {
                let n = (sub * 3 + k + 1) as u8;
                if cell.has_note(n) {
                    out.set(cols[k], (n + 48) as char);
                }
            }
        } else if sub == size.h / 2 {
            // Too short for the grid: list the candidates, centered and clipped.
            let mut cand: Vec<char> = Vec::new();
            let mut n: u8 = 1;
            while n <= 9
                invariant
                    1 <= n <= 10,
                    cand@ == note_list(cell.notes, n - 1),
                    cand@.len() <= n - 1,
                decreases 10 - n,
            {
                if cell.has_note(n) {
                    cand.push((n + 48) as char);
                }
                n = n + 1;
            }
            let shown = if cand.len() < w { cand.len() } else { w };
            let start = (w - shown) / 2;
            for k in 0..shown
                invariant
                    shown <= w,
                    shown <= cand@.len(),
                    start == (w - shown) / 2,
                    w == size.w,
                    out@.len() == w,
                    forall|x: int|
                        0 <= x < w ==> #[trigger] out@[x] == if start <= x < start + k {
                            cand@[x - start]
                        } else {
                            ' '
                        },
            {
                out.set(start + k, cand[k]);
            }
        }
    }
    let mut s = String::new();
    for x in 0..w
        invariant
            out@.len() == w,
            s@ == out@.take(x as int),
    {
        s.push(out[x]);
        assert(s@ =~= out@.take(x + 1));
    }
    assert(out@.take(w as int) =~= out@);
    assert(s@ =~= Seq::new(size.w as nat, |x: int| glyph_at(*cell, *size, sub as int, x)));
    s
}


/// How a cell's background is highlighted.
#[derive(Clone, Copy, Debug, PartialEq, Eq, Structural)]
pub enum Highlight {
    /// The win animation washes over every cell.
    Win,
    /// The cursor's cell in normal mode.
    Select,
    /// The cursor's cell in note mode.
    SelectNote,
    /// A value that conflicts with a peer or (when checking) with the solution.
    Conflict,
    /// Another cell holding the cursor's value.
    Same,
    /// A cell in a highlighted row, column or box.
    Peer,
}

/// Whether `o` is `Some(v)`.
fn is_value(o: Option<u8>, v: u8) -> (b: bool)
    ensures
        b == (o == Some(v)),
{
    match o {
        Some(x) => x == v,
        None => false,
    }
}

/// Whether two optional values are equal.
fn same_value(a: Option<u8>, b: Option<u8>) -> (e: bool)
    ensures
        e == (a == b),
{
    match (a, b) {
        (Some(x), Some(y)) => x == y,
        (None, None) => true,
        _ => false,
    }
}

/// The row, column or 3x3 box of cell (r, c) holds `v` somewhere.
pub open spec fn unit_has(cells: Seq<Cell>, r: int, c: int, v: u8) -> bool {
    exists|j: int| 0 <= j < 81 && same_unit(cell_index(r, c), j) && cells[j].value == Some(v)
}

/// Whether the row, column, or 3x3 box of cell (r, c) contains the value `v`
/// anywhere. Used by match-highlight to span all units holding a digit.
#[verifier::spinoff_prover]
#[verifier::rlimit(40)]
pub fn unit_contains(app: &App, r: usize, c: usize, v: u8) -> (b: bool)
    requires
        r < 9,
        c < 9,
    ensures
        b == unit_has(app.board@, r as int, c as int, v),
{
    let ghost me = cell_index(r as int, c as int);
    for i in 0..9
        invariant
            r < 9,
            c < 9,
            me == cell_index(r as int, c as int),
            app.board@.len() == 81,
            forall|j: int|
                0 <= j < 81 && ((j / 9 == r && j % 9 < i) || (j % 9 == c && j / 9 < i))
                    ==> app.board@[j].value != Some(v),
    {
        if is_value(app.board.value(r, i), v) || is_value(app.board.value(i, c), v) {
            proof {
                if app.board@[cell_index(r as int, i as int)].value == Some(v) {
                    assert(same_unit(me, cell_index(r as int, i as int)));
                } else {
                    assert(same_unit(me, cell_index(i as int, c as int)));
                }
            }
            return true;
        }
    }
    let br = r / 3 * 3;
    let bc = c / 3 * 3;
    for rr in br..br + 3
        invariant
            r < 9,
            c < 9,
            br == r / 3 * 3,
            bc == c / 3 * 3,
            br <= rr <= br + 3,
            me == cell_index(r as int, c as int),
            app.board@.len() == 81,
            forall|j: int| 0 <= j < 81 && (j / 9 == r || j % 9 == c) ==> app.board@[j].value != Some(v),
            forall|j: int|
                0 <= j < 81 && br <= j / 9 < rr && bc <= j % 9 < bc + 3 ==> app.board@[j].value
                    != Some(v),
    {
        for cc in bc..bc + 3
            invariant
                r < 9,
                c < 9,
                br == r / 3 * 3,
                bc == c / 3 * 3,
                br <= rr < br + 3,
                bc <= cc <= bc + 3,
                me == cell_index(r as int, c as int),
                app.board@.len() == 81,
                forall|j: int|
                    0 <= j < 81 && (j / 9 == r || j % 9 == c) ==> app.board@[j].value != Some(v),
                forall|j: int|
                    0 <= j < 81 && ((br <= j / 9 < rr && bc <= j % 9 < bc + 3) || (j / 9 == rr
                        && bc <= j % 9 < cc)) ==> app.board@[j].value != Some(v),
        {
            if is_value(app.board.value(rr, cc), v) {
                assert(same_unit(me, cell_index(rr as int, cc as int)));
                return true;
            }
        }
    }
    assert forall|j: int| 0 <= j < 81 && same_unit(me, j) implies app.board@[j].value != Some(v) by {
        assert(j / 27 == (j / 9) / 3);
        assert(me / 27 == r as int / 3);
    }
    false
}

/// Cell (r, c) holds a value that conflicts with a peer, or that disagrees with
/// the solution while error checking is on.
pub open spec fn shows_error(a: App, r: int, c: int) -> bool {
    let i = cell_index(r, c);
    ||| (a.board@[i].value matches Some(v) && conflicts_at(a.board@, i, v))
    ||| (a.check_errors && (a.board@[i].value matches Some(v) && v != a.solution@[i]))
}

/// The background of cell (r, c): the win animation over everything; else the
/// cursor; else an error; else a cell sharing the cursor's value; else the units
/// highlighted (those of every cell holding the cursor's value when
/// match-highlight is on, else the cursor's own); else none.
pub open spec fn highlight_of(a: App, r: int, c: int) -> Option<Highlight> {
    let cur_val = a.board@[cursor_index_of(a)].value;
    if a.won_at is Some {
        Some(Highlight::Win)
    } else if r == a.cursor.0 && c == a.cursor.1 {
        Some(
            if a.mode == Mode::Note {
                Highlight::SelectNote
            } else {
                Highlight::Select
            },
        )
    } else if shows_error(a, r, c) {
        Some(Highlight::Conflict)
    } else if cur_val is Some && a.board@[cell_index(r, c)].value == cur_val {
        Some(Highlight::Same)
    } else if (if a.highlight_matches && cur_val is Some {
        unit_has(a.board@, r, c, cur_val->0)
    } else {
        r == a.cursor.0 || c == a.cursor.1 || (r / 3 == a.cursor.0 / 3 && c / 3 == a.cursor.1
            / 3)
    }) {
        Some(Highlight::Peer)
    } else {
        None
    }
}

/// The flat index of the cursor's cell.
pub open spec fn cursor_index_of(a: App) -> int {
    cell_index(a.cursor.0 as int, a.cursor.1 as int)
}

/// Background highlight for a cell given the cursor and game state.
pub fn cell_highlight(app: &App, r: usize, c: usize) -> (h: Option<Highlight>)
    requires
        app.wf(),
        r < 9,
        c < 9,
    ensures
        h == highlight_of(*app, r as int, c as int),
{
    // The win animation washes over every cell, replacing the usual highlights.
    if app.won_at.is_some() {
        return Some(Highlight::Win);
    }
    let (cr, cc) = app.cursor;
    if r == cr && c == cc {
        return Some(
            match app.mode {
                Mode::Note => Highlight::SelectNote,
                _ => Highlight::Select,
            },
        );
    }
    if app.board.has_conflict(r, c) || app.is_wrong(r, c) {
        return Some(Highlight::Conflict);
    }
    let cursor_val = app.board.value(cr, cc);
    if cursor_val.is_some() && same_value(app.board.value(r, c), cursor_val) {
        return Some(Highlight::Same);
    }
    // With match-highlight on, light up the unit of *every* cell holding the
    // cursor's value; otherwise just the cursor's own row/column/box.
    let peer = match (app.highlight_matches, cursor_val) {
        (true, Some(v)) => unit_contains(app, r, c, v),
        _ => r == cr || c == cc || (r / 3 == cr / 3 && c / 3 == cc / 3),
    };
    if peer {
        return Some(Highlight::Peer);
    }
    None
}

/// The color role of a cell's glyphs.
#[derive(Clone, Copy, Debug, PartialEq, Eq, Structural)]
pub enum Ink {
    /// A value in error.
    Wrong,
    /// A clue.
    Given,
    /// A value the player placed.
    User,
    /// Pencil marks.
    Note,
    /// Any value once the game is won (bright over the animation).
    Won,
}

/// The ink of cell (r, c), and whether it is bold: values are bright once won,
/// else red in error, else clue or player colored; pencil marks are dim. Clues,
/// and every value once won, are bold.
pub open spec fn ink_of(a: App, r: int, c: int) -> (Ink, bool) {
    let cell = a.board@[cell_index(r, c)];
    let ink = if cell.value is Some {
        if a.won {
            Ink::Won
        } else if shows_error(a, r, c) {
            Ink::Wrong
        } else if cell.given {
            Ink::Given
        } else {
            Ink::User
        }
    } else {
        Ink::Note
    };
    (ink, (cell.given || a.won) && cell.value is Some)
}

/// The glyph color role of cell (r, c) and whether it is drawn bold.
pub fn cell_ink(app: &App, r: usize, c: usize) -> (ink: (Ink, bool))
    requires
        r < 9,
        c < 9,
    ensures
        ink == ink_of(*app, r as int, c as int),
{
    let cell = app.board.cell(r, c);
    let fg = if cell.value.is_some() {
        if app.board.has_conflict(r, c) || app.is_wrong(r, c) {
            Ink::Wrong
        } else if cell.given {
            Ink::Given
        } else {
            Ink::User
        }
    } else {
        Ink::Note
    };
    // During the win sweep, force bright digits so they stay crisp over the
    // shifting rainbow rather than blending into it.
    let fg = if app.is_won() && cell.value.is_some() {
        Ink::Won
    } else {
        fg
    };
    (fg, (cell.given || app.is_won()) && cell.value.is_some())
}

/// A `width` x `height` rectangle centered within the area at (`x`, `y`) of
/// size `area_w` x `area_h`, shrunk to fit: (x, y, width, height).
pub fn centered_rect(width: u16, height: u16, x: u16, y: u16, area_w: u16, area_h: u16) -> (rect: (
    u16,
    u16,
    u16,
    u16,
))
    requires
        x + (area_w - if width < area_w { width } else { area_w }) / 2 <= u16::MAX,
        y + (area_h - if height < area_h { height } else { area_h }) / 2 <= u16::MAX,
    ensures
        rect.2 == if width < area_w { width } else { area_w },
        rect.3 == if height < area_h { height } else { area_h },
        rect.0 == x + (area_w - rect.2) / 2,
        rect.1 == y + (area_h - rect.3) / 2,
{
    let w = if width < area_w { width } else { area_w };
    let h = if height < area_h { height } else { area_h };
    let cx = x + (area_w.saturating_sub(w)) / 2;
    let cy = y + (area_h.saturating_sub(h)) / 2;
    (cx, cy, w, h)
}

/// Width of the info panel beside the board.
pub const INFO_W: u16 = 28;

/// Whether the info panel fits beside a board `board_w` wide in an area
/// `area_w` wide (two columns of gap between them), and the width of what is
/// drawn: board and panel, or the board alone.
pub fn panel_layout(area_w: u16, board_w: u16) -> (r: (bool, u16))
    requires
        board_w + 2 + INFO_W <= u16::MAX,
    ensures
        r.0 == (area_w >= board_w + 2 + INFO_W),
        r.1 == if r.0 { board_w + 2 + INFO_W } else { board_w as int },
{
    let show = area_w >= board_w + 2 + INFO_W;
    (show, if show { board_w + 2 + INFO_W } else { board_w })
}

/// Before the win, with match-highlight off: the cursor's cell is selected;
/// any other cell that is not flagged as an error and does not share the
/// cursor's value is highlighted as a peer exactly when it shares a row, a
/// column or a 3x3 box with the cursor. Once won, every cell shows the win.
pub proof fn law_peer_highlight(a: App, r: int, c: int)
    requires
        a.wf(),
        0 <= r < 9,
        0 <= c < 9,
    ensures
        a.won_at is Some ==> highlight_of(a, r, c) == Some(Highlight::Win),
        a.won_at is None && r == a.cursor.0 && c == a.cursor.1 ==> highlight_of(a, r, c) == Some(
            if a.mode == Mode::Note {
                Highlight::SelectNote
            } else {
                Highlight::Select
            },
        ),
        a.won_at is None && !(r == a.cursor.0 && c == a.cursor.1) && !shows_error(a, r, c) && !(
        a.board@[cursor_index_of(a)].value is Some && a.board@[cell_index(r, c)].value
            == a.board@[cursor_index_of(a)].value) && !a.highlight_matches ==> (highlight_of(
            a,
            r,
            c,
        ) == Some(Highlight::Peer) <==> same_unit(cursor_index_of(a), cell_index(r, c))) && (
        highlight_of(a, r, c) is None <==> !same_unit(cursor_index_of(a), cell_index(r, c))),
        a.won_at is None && !(r == a.cursor.0 && c == a.cursor.1) && !shows_error(a, r, c)
            && a.highlight_matches && a.board@[cursor_index_of(a)].value is Some
            && a.board@[cell_index(r, c)].value != a.board@[cursor_index_of(a)].value ==> (
        highlight_of(a, r, c) == Some(Highlight::Peer) <==> exists|j: int|
            0 <= j < 81 && #[trigger] same_unit(cell_index(r, c), j) && a.board@[j].value
                == a.board@[cursor_index_of(a)].value),
        a.won_at is None && !(r == a.cursor.0 && c == a.cursor.1) && !shows_error(a, r, c)
            && a.board@[cursor_index_of(a)].value is Some && a.board@[cell_index(r, c)].value
            == a.board@[cursor_index_of(a)].value ==> highlight_of(a, r, c) == Some(Highlight::Same),
        a.won_at is None && !(r == a.cursor.0 && c == a.cursor.1) && shows_error(a, r, c)
            ==> highlight_of(a, r, c) == Some(Highlight::Conflict),
{
    let i = cursor_index_of(a);
    let j = cell_index(r, c);
    let cr = a.cursor.0 as int;
    let cc = a.cursor.1 as int;
    assert(i / 9 == cr && i % 9 == cc);
    assert(j / 9 == r && j % 9 == c);
    assert(i / 27 == cr / 3);
    assert(j / 27 == r / 3);
}

/// What a cell shows: a value as its digit in the middle of the cell and
/// blanks elsewhere; in a cell three rows tall, pencil mark `n` of an empty cell
/// in row (n-1)/3 of a 3x3 grid, at column (n-1)%3 (every other column when the
/// cell is five wide), shown as its digit when set and blank when not; an empty
/// cell without marks shows only blanks.
pub proof fn law_cell_glyphs(cell: Cell, size: CellSize, n: u8, sub: int, x: int)
    requires
        size_ok(size),
        1 <= n <= 9,
        0 <= sub < size.h,
        0 <= x < size.w,
    ensures
        cell.value matches Some(v) ==> glyph_at(cell, size, sub, x) == if sub == size.h / 2 && x
            == size.w / 2 {
            (48 + v) as char
        } else {
            ' '
        },
        cell.value is None && cell.notes == 0 ==> glyph_at(cell, size, sub, x) == ' ',
        cell.value is None && cell.notes != 0 && size.h == 3 ==> glyph_at(
            cell,
            size,
            (n - 1) / 3,
            if size.w == 5 { 2 * ((n - 1) % 3) } else { (n - 1) % 3 },
        ) == if note_in(cell.notes, n) {
            (48 + n) as char
        } else {
            ' '
        },
{
}

/// The fitted board is as large as the area allows: its height fits whenever
/// the smallest board does, no taller cell would fit even without thin lines,
/// thin lines are dropped only when they would not fit, and the cells are as
/// wide as fits (3 to 5 columns), the board fitting whenever 3 columns do.
pub proof fn law_fit_is_largest(avail: int, area_w: int)
    requires
        avail >= 0,
        area_w >= 0,
    ensures
        1 <= fitted(avail).0 <= 3,
        avail >= 9 + 4 ==> 9 * fitted(avail).0 + border_rows(fitted(avail).1) <= avail,
        fitted(avail).0 < 3 ==> 9 * 3 + 4 > avail,
        fitted(avail).0 < 2 ==> 9 * 2 + 4 > avail,
        !fitted(avail).1 ==> 9 * fitted(avail).0 + 10 > avail,
        3 <= cell_width(area_w) <= 5,
        area_w >= 9 * 3 + 10 ==> 9 * cell_width(area_w) + 10 <= area_w,
        cell_width(area_w) < 5 ==> 9 * (cell_width(area_w) + 1) + 10 > area_w,
{
}

/// The gridline joints: the four outer corners are the heavy corners; along
/// the outer edges a joint is a heavy tee where a box line meets the edge and a
/// light-stemmed tee elsewhere; inside, the crossing is heavy in exactly the
/// directions of the box lines (every third line) it lies on.
pub proof fn law_junctions(hi: int, vi: int)
    requires
        0 <= hi <= 9,
        0 <= vi <= 9,
    ensures
        hi == 0 && vi == 0 ==> junction_char(hi, vi) == '┏',
        hi == 0 && vi == 9 ==> junction_char(hi, vi) == '┓',
        hi == 9 && vi == 0 ==> junction_char(hi, vi) == '┗',
        hi == 9 && vi == 9 ==> junction_char(hi, vi) == '┛',
        hi == 0 && 0 < vi < 9 ==> junction_char(hi, vi) == if vi % 3 == 0 { '┳' } else { '┯' },
        hi == 9 && 0 < vi < 9 ==> junction_char(hi, vi) == if vi % 3 == 0 { '┻' } else { '┷' },
        vi == 0 && 0 < hi < 9 ==> junction_char(hi, vi) == if hi % 3 == 0 { '┣' } else { '┠' },
        vi == 9 && 0 < hi < 9 ==> junction_char(hi, vi) == if hi % 3 == 0 { '┫' } else { '┨' },
        0 < hi < 9 && 0 < vi < 9 ==> junction_char(hi, vi) == if hi % 3 == 0 && vi % 3 == 0 {
            '╋'
        } else if hi % 3 == 0 {
            '┿'
        } else if vi % 3 == 0 {
            '╂'
        } else {
            '┼'
        },
{
}

} // verus!
