//! The Sudoku board model: cells, the 9x9 grid, and validation.
use vstd::prelude::*;

verus! {

/// The bit that stands for pencil mark `n` (1..=9) in a cell's note mask.
pub open spec fn note_bit(n: u8) -> u16 {
    1u16 << ((n - 1) as u16)
}

/// Whether the note mask `notes` holds pencil mark `n`.
pub open spec fn note_in(notes: u16, n: u8) -> bool {
    (notes & note_bit(n)) != 0u16
}

/// Flat index of cell (row, col).
pub open spec fn cell_index(row: int, col: int) -> int {
    row * 9 + col
}

/// Whether flat cells `i` and `j` share a row, a column or a 3x3 box
/// (a cell shares all three with itself).
pub open spec fn same_unit(i: int, j: int) -> bool {
    ||| i / 9 == j / 9
    ||| i % 9 == j % 9
    ||| (i / 27 == j / 27 && (i % 9) / 3 == (j % 9) / 3)
}

/// Two cells share a unit exactly when they are in the same row, the same
/// column or the same 3x3 box.
pub proof fn law_same_unit(r1: int, c1: int, r2: int, c2: int)
    requires
        0 <= r1 < 9,
        0 <= c1 < 9,
        0 <= r2 < 9,
        0 <= c2 < 9,
    ensures
        same_unit(cell_index(r1, c1), cell_index(r2, c2)) <==> (r1 == r2 || c1 == c2 || (r1 / 3
            == r2 / 3 && c1 / 3 == c2 / 3)),
{
    let i = cell_index(r1, c1);
    let j = cell_index(r2, c2);
    assert(i / 9 == r1 && i % 9 == c1);
    assert(j / 9 == r2 && j % 9 == c2);
    assert(i / 27 == r1 / 3);
    assert(j / 27 == r2 / 3);
}

/// Whether some other cell in a unit of cell `i` holds `v`.
pub open spec fn conflicts_at(cells: Seq<Cell>, i: int, v: u8) -> bool {
    exists|j: int| 0 <= j < 81 && j != i && same_unit(i, j) && cells[j].value == Some(v)
}

/// Every cell is filled and none conflicts with a peer.
pub open spec fn board_solved(cells: Seq<Cell>) -> bool {
    forall|i: int|
        0 <= i < 81 ==> match #[trigger] cells[i].value {
            Some(v) => !conflicts_at(cells, i, v),
            None => false,
        }
}

/// Number of empty cells in `cells`.
pub open spec fn num_empty(cells: Seq<Cell>) -> nat
    decreases cells.len(),
{
    if cells.len() == 0 {
        0
    } else {
        num_empty(cells.drop_last()) + if cells.last().value is None {
            1nat
        } else {
            0nat
        }
    }
}

/// Number of cells in `cells` holding `v`.
pub open spec fn num_with_value(cells: Seq<Cell>, v: u8) -> nat
    decreases cells.len(),
{
    if cells.len() == 0 {
        0
    } else {
        num_with_value(cells.drop_last(), v) + if cells.last().value == Some(v) {
            1nat
        } else {
            0nat
        }
    }
}

/// Number of cells in `cells` holding one of the digits 1..=k.
pub open spec fn num_with_digits(cells: Seq<Cell>, k: int) -> nat
    decreases k,
{
    if k <= 0 {
        0
    } else {
        num_with_digits(cells, k - 1) + num_with_value(cells, k as u8)
    }
}

/// Counting the digits 1..=k peels off the last cell like the single counts do.
proof fn lemma_digits_drop_last(cells: Seq<Cell>, k: int)
    requires
        cells.len() > 0,
        0 <= k <= 9,
    ensures
        num_with_digits(cells, k) == num_with_digits(cells.drop_last(), k) + if (
        cells.last().value matches Some(v) && 1 <= v <= k) {
            1nat
        } else {
            0nat
        },
    decreases k,
{
    if k > 0 {
        lemma_digits_drop_last(cells, k - 1);
    }
}

/// On a board whose values are all digits 1..=9, the empty cells and the
/// cells of each digit add up to all the cells.
pub proof fn law_empty_and_digit_counts(cells: Seq<Cell>)
    requires
        forall|i: int|
            0 <= i < cells.len() ==> (#[trigger] cells[i].value matches Some(v) ==> 1 <= v <= 9),
    ensures
        num_empty(cells) + num_with_digits(cells, 9) == cells.len(),
    decreases cells.len(),
{
    if cells.len() > 0 {
        let d = cells.drop_last();
        assert forall|i: int| 0 <= i < d.len() implies (#[trigger] d[i].value matches Some(v)
            ==> 1 <= v <= 9) by {
            assert(d[i] == cells[i]);
        }
        law_empty_and_digit_counts(d);
        lemma_digits_drop_last(cells, 9);
        assert(cells.last() == cells[cells.len() - 1]);
        assert(cells[cells.len() - 1].value matches Some(v) ==> 1 <= v <= 9);
    } else {
        lemma_digits_none(cells, 9);
    }
}

/// No cells hold no digits.
proof fn lemma_digits_none(cells: Seq<Cell>, k: int)
    requires
        cells.len() == 0,
    ensures
        num_with_digits(cells, k) == 0,
    decreases k,
{
    if k > 0 {
        lemma_digits_none(cells, k - 1);
    }
}

/// Row `row` holds the digit `d`.
pub open spec fn row_has(cells: Seq<Cell>, row: int, d: u8) -> bool {
    exists|c: int| 0 <= c < 9 && cells[cell_index(row, c)].value == Some(d)
}

/// Column `col` holds the digit `d`.
pub open spec fn col_has(cells: Seq<Cell>, col: int, d: u8) -> bool {
    exists|r: int| 0 <= r < 9 && cells[cell_index(r, col)].value == Some(d)
}

/// The 3x3 box around (row, col) holds the digit `d`.
pub open spec fn box_has(cells: Seq<Cell>, row: int, col: int, d: u8) -> bool {
    exists|r: int, c: int|
        row / 3 * 3 <= r < row / 3 * 3 + 3 && col / 3 * 3 <= c < col / 3 * 3 + 3
            && cells[cell_index(r, c)].value == Some(d)
}

/// `s` lists, in strictly ascending order, exactly the digits 1..=9 for which
/// `present` is false.
pub open spec fn lists_absent_digits(s: Seq<u8>, present: spec_fn(u8) -> bool) -> bool {
    &&& forall|a: int, b: int| 0 <= a < b < s.len() ==> s[a] < s[b]
    &&& forall|k: int| 0 <= k < s.len() ==> 1 <= #[trigger] s[k] <= 9 && !present(s[k])
    &&& forall|d: u8| 1 <= d <= 9 && !present(d) ==> s.contains(d)
}

/// The values of row `row` are all digits 0..=9 (a larger value cannot be tallied).
pub open spec fn row_values_small(cells: Seq<Cell>, row: int) -> bool {
    forall|c: int|
        0 <= c < 9 ==> (#[trigger] cells[cell_index(row, c)].value matches Some(v) ==> v <= 9)
}

/// The values of column `col` are all digits 0..=9.
pub open spec fn col_values_small(cells: Seq<Cell>, col: int) -> bool {
    forall|r: int|
        0 <= r < 9 ==> (#[trigger] cells[cell_index(r, col)].value matches Some(v) ==> v <= 9)
}

/// The values of the box around (row, col) are all digits 0..=9.
pub open spec fn box_values_small(cells: Seq<Cell>, row: int, col: int) -> bool {
    forall|r: int, c: int|
        row / 3 * 3 <= r < row / 3 * 3 + 3 && col / 3 * 3 <= c < col / 3 * 3 + 3 ==> (
        #[trigger] cells[cell_index(r, c)].value matches Some(v) ==> v <= 9)
}

/// The empty, editable cell.
pub open spec fn blank_cell() -> Cell {
    Cell { value: None, given: false, notes: 0 }
}

/// A single cell on the board.
#[derive(Clone, Copy, Debug, PartialEq, Eq)]
pub struct Cell {
    /// The committed value, 1..=9, or `None` if empty.
    pub value: Option<u8>,
    /// Whether this cell is a fixed clue from the puzzle (not user-editable).
    pub given: bool,
    /// Pencil-mark candidates as a bitmask: bit `n-1` set means note `n` is present.
    pub notes: u16,
}

impl Default for Cell {
    fn default() -> (c: Cell)
        ensures
            c == blank_cell(),
    {
        Cell { value: None, given: false, notes: 0 }
    }
}

/// Flipping one note bit flips pencil mark `n` and leaves every other mark alone;
/// clearing it removes mark `n` only.
pub proof fn lemma_note_bits(notes: u16, n: u8, m: u8)
    requires
        1 <= n <= 9,
        1 <= m <= 9,
    ensures
        note_in(notes ^ note_bit(n), m) == if n == m {
            !note_in(notes, m)
        } else {
            note_in(notes, m)
        },
        note_in(notes & !note_bit(n), m) == (n != m && note_in(notes, m)),
        !note_in(0u16, m),
{
    assert(((notes ^ (1u16 << ((n - 1) as u16))) & (1u16 << ((m - 1) as u16)) != 0u16) == if n
        == m {
        (notes & (1u16 << ((m - 1) as u16))) == 0u16
    } else {
        (notes & (1u16 << ((m - 1) as u16))) != 0u16
    }) by (bit_vector)
        requires
            1 <= n <= 9,
            1 <= m <= 9,
    ;
    assert(((notes & !(1u16 << ((n - 1) as u16))) & (1u16 << ((m - 1) as u16)) != 0u16) == (n
        != m && (notes & (1u16 << ((m - 1) as u16))) != 0u16)) by (bit_vector)
        requires
            1 <= n <= 9,
            1 <= m <= 9,
    ;
    assert((0u16 & (1u16 << ((m - 1) as u16))) == 0u16) by (bit_vector);
}

/// Toggling the same pencil mark twice leaves the notes as they were.
pub proof fn law_toggle_note_twice(notes: u16, n: u8)
    requires
        1 <= n <= 9,
    ensures
        (notes ^ note_bit(n)) ^ note_bit(n) == notes,
{
    assert(((notes ^ (1u16 << ((n - 1) as u16))) ^ (1u16 << ((n - 1) as u16))) == notes)
        by (bit_vector);
}

impl Cell {
    pub fn has_note(&self, n: u8) -> (r: bool)
        requires
            1 <= n <= 9,
        ensures
            r == note_in(self.notes, n),
    {
        (self.notes & (1u16 << (n - 1))) != 0
    }

    pub fn toggle_note(&mut self, n: u8)
        requires
            1 <= n <= 9,
        ensures
            final(self).notes == old(self).notes ^ note_bit(n),
            final(self).value == old(self).value,
            final(self).given == old(self).given,
            forall|m: u8|
                1 <= m <= 9 ==> note_in(final(self).notes, m) == if m == n {
                    !note_in(old(self).notes, m)
                } else {
                    note_in(old(self).notes, m)
                },
    {
        self.notes = self.notes ^ (1u16 << (n - 1));
        proof {
            assert forall|m: u8| 1 <= m <= 9 implies note_in(self.notes, m) == if m == n {
                !note_in(old(self).notes, m)
            } else {
                note_in(old(self).notes, m)
            } by {
                lemma_note_bits(old(self).notes, n, m);
            }
        }
    }

    pub fn remove_note(&mut self, n: u8)
        requires
            1 <= n <= 9,
        ensures
            final(self).notes == old(self).notes & !note_bit(n),
            final(self).value == old(self).value,
            final(self).given == old(self).given,
            forall|m: u8|
                1 <= m <= 9 ==> note_in(final(self).notes, m) == (m != n && note_in(
                    old(self).notes,
                    m,
                )),
    {
        self.notes = self.notes & !(1u16 << (n - 1));
        proof {
            assert forall|m: u8| 1 <= m <= 9 implies note_in(self.notes, m) == (m != n && note_in(
                old(self).notes,
                m,
            )) by {
                lemma_note_bits(old(self).notes, n, m);
            }
        }
    }

    pub fn clear_notes(&mut self)
        ensures
            *final(self) == (Cell { notes: 0, ..*old(self) }),
    {
        self.notes = 0;
    }
}

/// Whether `v` is `Some(d)`.
fn holds(v: Option<u8>, d: u8) -> (r: bool)
    ensures
        r == (v == Some(d)),
{
    match v {
        Some(x) => x == d,
        None => false,
    }
}

/// A 9x9 Sudoku grid.
#[derive(Debug)]
pub struct Board {
    cells: [Cell; 81],
}

impl View for Board {
    type V = Seq<Cell>;

    closed spec fn view(&self) -> Seq<Cell> {
        self.cells@
    }
}

/// A board always has 81 cells.
pub broadcast proof fn lemma_board_len(b: Board)
    ensures
        #[trigger] b@.len() == 81,
{
}

impl Clone for Board {
    fn clone(&self) -> (b: Board)
        ensures
            b == *self,
    {
        Board { cells: self.cells }
    }
}

impl Default for Board {
    fn default() -> (b: Board)
        ensures
            b@ == Seq::new(81, |i: int| blank_cell()),
    {
        Self::new()
    }
}

/// Flatten a (row, col) pair into a 0..81 index.
#[inline]
pub fn idx(row: usize, col: usize) -> (i: usize)
    requires
        row < 9,
        col < 9,
    ensures
        i == cell_index(row as int, col as int),
{
    row * 9 + col
}


impl Board {
    pub fn new() -> (b: Board)
        ensures
            b@ == Seq::new(81, |i: int| blank_cell()),
    {
        let b = Board { cells: [Cell { value: None, given: false, notes: 0 }; 81] };
        assert(b@ =~= Seq::new(81, |i: int| blank_cell()));
        b
    }

    /// Build a board from a 81-length array of digits (0 = empty). All non-zero
    /// cells are marked as givens.
    pub fn from_digits(digits: &[u8; 81]) -> (b: Board)
        ensures
            forall|i: int|
                0 <= i < 81 ==> #[trigger] b@[i] == if digits@[i] == 0 {
                    blank_cell()
                } else {
                    Cell { value: Some(digits@[i]), given: true, notes: 0 }
                },
    {
        let mut board = Board::new();
        for i in 0..81
            invariant
                board@.len() == 81,
                forall|j: int|
                    0 <= j < 81 ==> #[trigger] board@[j] == if j < i && digits@[j] != 0 {
                        Cell { value: Some(digits@[j]), given: true, notes: 0 }
                    } else {
                        blank_cell()
                    },
        {
            let d = digits[i];
            if d != 0 {
                board.cells[i] = Cell { value: Some(d), given: true, notes: 0 };
            }
        }
        board
    }

    pub fn cell(&self, row: usize, col: usize) -> (c: &Cell)
        requires
            row < 9,
            col < 9,
        ensures
            *c == self@[cell_index(row as int, col as int)],
    {
        &self.cells[idx(row, col)]
    }

    pub fn cell_mut(&mut self, row: usize, col: usize) -> (c: &mut Cell)
        requires
            row < 9,
            col < 9,
        ensures
            *c == old(self)@[cell_index(row as int, col as int)],
            final(self)@ == old(self)@.update(cell_index(row as int, col as int), *final(c)),
    {
        let i = idx(row, col);
        &mut self.cells[i]
    }

    pub fn value(&self, row: usize, col: usize) -> (v: Option<u8>)
        requires
            row < 9,
            col < 9,
        ensures
            v == self@[cell_index(row as int, col as int)].value,
    {
        self.cells[idx(row, col)].value
    }

    pub fn is_given(&self, row: usize, col: usize) -> (g: bool)
        requires
            row < 9,
            col < 9,
        ensures
            g == self@[cell_index(row as int, col as int)].given,
    {
        self.cells[idx(row, col)].given
    }

    /// Set a value on a non-given cell. Clears the cell's notes. No-op on givens.
    /// Returns true if the board changed.
    pub fn set_value(&mut self, row: usize, col: usize, value: u8) -> (changed: bool)
        requires
            row < 9,
            col < 9,
            1 <= value <= 9,
        ensures
            final(self)@ == if old(self)@[cell_index(row as int, col as int)].given {
                old(self)@
            } else {
                old(self)@.update(
                    cell_index(row as int, col as int),
                    Cell { value: Some(value), given: false, notes: 0 },
                )
            },
            changed == (final(self)@ != old(self)@),
    {
        let i = idx(row, col);
        if self.cells[i].given {
            return false;
        }
        let same = match self.cells[i].value {
            Some(v) => v == value && self.cells[i].notes == 0,
            None => false,
        };
        let ghost before = self@;
        self.cells[i].value = Some(value);
        self.cells[i].clear_notes();
        proof {
            if !same {
                assert(self@[i as int] != before[i as int]);
            } else {
                assert(self@ =~= before);
            }
        }
        !same
    }

    /// Clear a non-given cell's value (notes are left untouched). No-op on givens.
    /// Returns true if the board changed.
    pub fn clear_value(&mut self, row: usize, col: usize) -> (changed: bool)
        requires
            row < 9,
            col < 9,
        ensures
            changed == (!old(self)@[cell_index(row as int, col as int)].given
                && old(self)@[cell_index(row as int, col as int)].value is Some),
            final(self)@ == if changed {
                old(self)@.update(
                    cell_index(row as int, col as int),
                    Cell { value: None, ..old(self)@[cell_index(row as int, col as int)] },
                )
            } else {
                old(self)@
            },
    {
        let i = idx(row, col);
        if self.cells[i].given || self.cells[i].value.is_none() {
            return false;
        }
        self.cells[i].value = None;
        true
    }

    /// Whether placing `value` at (row, col) duplicates an existing value in the
    /// same row, column, or 3x3 box (ignoring the cell itself).
    pub fn would_conflict(&self, row: usize, col: usize, value: u8) -> (r: bool)
        requires
            row < 9,
            col < 9,
        ensures
            r == conflicts_at(self@, cell_index(row as int, col as int), value),
    {
        let ghost me = cell_index(row as int, col as int);
        // Row and column.
        for i in 0..9
            invariant
                row < 9,
                col < 9,
                me == cell_index(row as int, col as int),
                self@.len() == 81,
                forall|j: int|
                    0 <= j < 81 && j != me && ((j / 9 == row && j % 9 < i) || (j % 9 == col && j
                        / 9 < i)) ==> self@[j].value != Some(value),
        {
            if i != col && holds(self.value(row, i), value) {
                assert(same_unit(me, cell_index(row as int, i as int)));
                return true;
            }
            if i != row && holds(self.value(i, col), value) {
                assert(same_unit(me, cell_index(i as int, col as int)));
                return true;
            }
        }
        // 3x3 box.
        let br = row / 3 * 3;
        let bc = col / 3 * 3;
        for r in br..br + 3
            invariant
                row < 9,
                col < 9,
                br == row / 3 * 3,
                bc == col / 3 * 3,
                br <= r <= br + 3,
                me == cell_index(row as int, col as int),
                self@.len() == 81,
                forall|j: int|
                    0 <= j < 81 && j != me && (j / 9 == row || j % 9 == col) ==> self@[j].value
                        != Some(value),
                forall|j: int|
                    0 <= j < 81 && j != me && br <= j / 9 < r && bc <= j % 9 < bc + 3
                        ==> self@[j].value != Some(value),
        {
            for c in bc..bc + 3
                invariant
                    row < 9,
                    col < 9,
                    br == row / 3 * 3,
                    bc == col / 3 * 3,
                    br <= r < br + 3,
                    bc <= c <= bc + 3,
                    me == cell_index(row as int, col as int),
                    self@.len() == 81,
                    forall|j: int|
                        0 <= j < 81 && j != me && (j / 9 == row || j % 9 == col)
                            ==> self@[j].value != Some(value),
                    forall|j: int|
                        0 <= j < 81 && j != me && ((br <= j / 9 < r && bc <= j % 9 < bc + 3) || (
                        j / 9 == r && bc <= j % 9 < c)) ==> self@[j].value != Some(value),
            {
                if (r != row || c != col) && holds(self.value(r, c), value) {
                    assert(same_unit(me, cell_index(r as int, c as int)));
                    return true;
                }
            }
        }
        assert forall|j: int|
            0 <= j < 81 && j != me && same_unit(me, j) implies self@[j].value != Some(value) by {
            assert(j / 27 == (j / 9) / 3);
            assert(me / 27 == row as int / 3);
        }
        false
    }

    /// Whether the cell at (row, col) currently holds a value that conflicts with
    /// a peer. Empty cells never conflict.
    pub fn has_conflict(&self, row: usize, col: usize) -> (r: bool)
        requires
            row < 9,
            col < 9,
        ensures
            r == match self@[cell_index(row as int, col as int)].value {
                Some(v) => conflicts_at(self@, cell_index(row as int, col as int), v),
                None => false,
            },
    {
        match self.value(row, col) {
            Some(v) => self.would_conflict(row, col, v),
            None => false,
        }
    }

    /// True when every cell is filled and no cell conflicts: a winning board.
    pub fn is_solved(&self) -> (r: bool)
        ensures
            r == board_solved(self@),
    {
        for row in 0usize..9
            invariant
                self@.len() == 81,
                forall|i: int|
                    0 <= i < row * 9 ==> match #[trigger] self@[i].value {
                        Some(v) => !conflicts_at(self@, i, v),
                        None => false,
                    },
        {
            for col in 0usize..9
                invariant
                    row < 9,
                    self@.len() == 81,
                    forall|i: int|
                        0 <= i < row * 9 + col ==> match #[trigger] self@[i].value {
                            Some(v) => !conflicts_at(self@, i, v),
                            None => false,
                        },
            {
                match self.value(row, col) {
                    None => return false,
                    Some(v) => {
                        if self.would_conflict(row, col, v) {
                            return false;
                        }
                    },
                }
            }
        }
        true
    }

    /// Number of empty cells remaining.
    pub fn empty_count(&self) -> (n: usize)
        ensures
            n == num_empty(self@),
    {
        let mut n: usize = 0;
        for i in 0..81
            invariant
                self@.len() == 81,
                n == num_empty(self@.take(i as int)),
                n <= i,
        {
            assert(self@.take(i + 1).drop_last() =~= self@.take(i as int));
            if self.cells[i].value.is_none() {
                n = n + 1;
            }
        }
        assert(self@.take(81) =~= self@);
        n
    }

    /// How many more of `v` a full board still needs (each digit appears
    /// nine times in a solution); none once nine or more are placed.
    pub fn left_to_place(&self, v: u8) -> (n: usize)
        ensures
            n == if num_with_value(self@, v) >= 9 {
                0
            } else {
                9 - num_with_value(self@, v)
            },
    {
        let placed = self.count_value(v);
        if placed >= 9 {
            0
        } else {
            9 - placed
        }
    }

    /// How many cells currently hold the value `v`.
    pub fn count_value(&self, v: u8) -> (n: usize)
        ensures
            n == num_with_value(self@, v),
    {
        let mut n: usize = 0;
        for i in 0..81
            invariant
                self@.len() == 81,
                n == num_with_value(self@.take(i as int), v),
                n <= i,
        {
            assert(self@.take(i + 1).drop_last() =~= self@.take(i as int));
            if holds(self.cells[i].value, v) {
                n = n + 1;
            }
        }
        assert(self@.take(81) =~= self@);
        n
    }

    /// Digits 1..=9 not yet present in `row`, in ascending order.
    pub fn missing_in_row(&self, row: usize) -> (m: Vec<u8>)
        requires
            row < 9,
            row_values_small(self@, row as int),
        ensures
            lists_absent_digits(m@, |d: u8| row_has(self@, row as int, d)),
    {
        let mut values: Vec<u8> = Vec::new();
        for c in 0..9
            invariant
                row < 9,
                self@.len() == 81,
                row_values_small(self@, row as int),
                forall|k: int| 0 <= k < values@.len() ==> #[trigger] values@[k] <= 9,
                forall|d: u8|
                    values@.contains(d) <==> exists|c2: int|
                        0 <= c2 < c && self@[cell_index(row as int, c2)].value == Some(d),
        {
            let ghost before = values@;
            if let Some(v) = self.value(row, c) {
                assert(self@[cell_index(row as int, c as int)].value matches Some(x) ==> x <= 9);
                values.push(v);
                assert(values@.last() == v);
            }
            assert forall|d: u8|
                values@.contains(d) <==> exists|c2: int|
                    0 <= c2 < c + 1 && self@[cell_index(row as int, c2)].value == Some(d) by {
                if values@.contains(d) {
                    let k = choose|k: int| 0 <= k < values@.len() && values@[k] == d;
                    if k < before.len() {
                        assert(before[k] == d);
                        assert(before.contains(d));
                    }
                }
                if exists|c2: int|
                    0 <= c2 < c + 1 && self@[cell_index(row as int, c2)].value == Some(d) {
                    let c2 = choose|c2: int|
                        0 <= c2 < c + 1 && self@[cell_index(row as int, c2)].value == Some(d);
                    if c2 < c {
                        assert(before.contains(d));
                        let k = choose|k: int| 0 <= k < before.len() && before[k] == d;
                        assert(values@[k] == d);
                    } else {
                        assert(values@[values@.len() - 1] == d);
                    }
                }
            }
        }
        Self::missing(&values)
    }

    /// Digits 1..=9 not yet present in `col`, in ascending order.
    pub fn missing_in_col(&self, col: usize) -> (m: Vec<u8>)
        requires
            col < 9,
            col_values_small(self@, col as int),
        ensures
            lists_absent_digits(m@, |d: u8| col_has(self@, col as int, d)),
    {
        let mut values: Vec<u8> = Vec::new();
        for r in 0..9
            invariant
                col < 9,
                self@.len() == 81,
                col_values_small(self@, col as int),
                forall|k: int| 0 <= k < values@.len() ==> #[trigger] values@[k] <= 9,
                forall|d: u8|
                    values@.contains(d) <==> exists|r2: int|
                        0 <= r2 < r && self@[cell_index(r2, col as int)].value == Some(d),
        {
            let ghost before = values@;
            if let Some(v) = self.value(r, col) {
                assert(self@[cell_index(r as int, col as int)].value matches Some(x) ==> x <= 9);
                values.push(v);
                assert(values@.last() == v);
            }
            assert forall|d: u8|
                values@.contains(d) <==> exists|r2: int|
                    0 <= r2 < r + 1 && self@[cell_index(r2, col as int)].value == Some(d) by {
                if values@.contains(d) {
                    let k = choose|k: int| 0 <= k < values@.len() && values@[k] == d;
                    if k < before.len() {
                        assert(before[k] == d);
                        assert(before.contains(d));
                    }
                }
                if exists|r2: int|
                    0 <= r2 < r + 1 && self@[cell_index(r2, col as int)].value == Some(d) {
                    let r2 = choose|r2: int|
                        0 <= r2 < r + 1 && self@[cell_index(r2, col as int)].value == Some(d);
                    if r2 < r {
                        assert(before.contains(d));
                        let k = choose|k: int| 0 <= k < before.len() && before[k] == d;
                        assert(values@[k] == d);
                    } else {
                        assert(values@[values@.len() - 1] == d);
                    }
                }
            }
        }
        Self::missing(&values)
    }

    /// Digits 1..=9 not yet present in the 3x3 box containing (row, col).
    pub fn missing_in_box(&self, row: usize, col: usize) -> (m: Vec<u8>)
        requires
            row < 9,
            col < 9,
            box_values_small(self@, row as int, col as int),
        ensures
            lists_absent_digits(m@, |d: u8| box_has(self@, row as int, col as int, d)),
    {
        let br = row / 3 * 3;
        let bc = col / 3 * 3;
        let mut values: Vec<u8> = Vec::new();
        for r in br..br + 3
            invariant
                row < 9,
                col < 9,
                br == row / 3 * 3,
                bc == col / 3 * 3,
                br <= r <= br + 3,
                self@.len() == 81,
                box_values_small(self@, row as int, col as int),
                forall|k: int| 0 <= k < values@.len() ==> #[trigger] values@[k] <= 9,
                forall|d: u8|
                    values@.contains(d) <==> exists|r2: int, c2: int|
                        br <= r2 < r && bc <= c2 < bc + 3 && self@[cell_index(r2, c2)].value
                            == Some(d),
        {
            for c in bc..bc + 3
                invariant
                    row < 9,
                    col < 9,
                    br == row / 3 * 3,
                    bc == col / 3 * 3,
                    br <= r < br + 3,
                    bc <= c <= bc + 3,
                    self@.len() == 81,
                    box_values_small(self@, row as int, col as int),
                    forall|k: int| 0 <= k < values@.len() ==> #[trigger] values@[k] <= 9,
                    forall|d: u8|
                        values@.contains(d) <==> exists|r2: int, c2: int|
                            ((br <= r2 < r && bc <= c2 < bc + 3) || (r2 == r && bc <= c2 < c))
                                && self@[cell_index(r2, c2)].value == Some(d),
            {
                let ghost before = values@;
                if let Some(v) = self.value(r, c) {
                    assert(self@[cell_index(r as int, c as int)].value matches Some(x) ==> x
                        <= 9);
                    values.push(v);
                    assert(values@.last() == v);
                }
                assert forall|d: u8|
                    values@.contains(d) <==> exists|r2: int, c2: int|
                        ((br <= r2 < r && bc <= c2 < bc + 3) || (r2 == r && bc <= c2 < c + 1))
                            && self@[cell_index(r2, c2)].value == Some(d) by {
                    if values@.contains(d) {
                        let k = choose|k: int| 0 <= k < values@.len() && values@[k] == d;
                        if k < before.len() {
                            assert(before[k] == d);
                            assert(before.contains(d));
                        }
                    }
                    if exists|r2: int, c2: int|
                        ((br <= r2 < r && bc <= c2 < bc + 3) || (r2 == r && bc <= c2 < c + 1))
                            && self@[cell_index(r2, c2)].value == Some(d) {
                        let (r2, c2) = choose|r2: int, c2: int|
                            ((br <= r2 < r && bc <= c2 < bc + 3) || (r2 == r && bc <= c2 < c
                                + 1)) && self@[cell_index(r2, c2)].value == Some(d);
                        if r2 < r || c2 < c {
                            assert(before.contains(d));
                            let k = choose|k: int| 0 <= k < before.len() && before[k] == d;
                            assert(values@[k] == d);
                        } else {
                            assert(values@[values@.len() - 1] == d);
                        }
                    }
                }
            }
        }
        Self::missing(&values)
    }

    /// Given the values present in some unit, return the absent digits 1..=9.
    fn missing(values: &Vec<u8>) -> (m: Vec<u8>)
        requires
            forall|k: int| 0 <= k < values@.len() ==> #[trigger] values@[k] <= 9,
        ensures
            lists_absent_digits(m@, |d: u8| values@.contains(d)),
    {
        let mut present = [false;10];
        for k in 0..values.len()
            invariant
                forall|j: int| 0 <= j < values@.len() ==> #[trigger] values@[j] <= 9,
                forall|d: int|
                    0 <= d < 10 ==> present@[d] == exists|j: int|
                        0 <= j < k && values@[j] == d,
        {
            let v = values[k];
            present[v as usize] = true;
        }
        let mut out: Vec<u8> = Vec::new();
        let mut n: u8 = 1;
        while n <= 9
            invariant
                1 <= n <= 10,
                forall|d: int|
                    0 <= d < 10 ==> present@[d] == exists|j: int|
                        0 <= j < values@.len() && values@[j] == d,
                forall|a: int, b: int| 0 <= a < b < out@.len() ==> out@[a] < out@[b],
                forall|k: int|
                    0 <= k < out@.len() ==> 1 <= #[trigger] out@[k] < n && !values@.contains(
                        out@[k],
                    ),
                forall|d: u8| 1 <= d < n && !values@.contains(d) ==> out@.contains(d),
            decreases 10 - n,
        {
            let ghost before = out@;
            if !present[n as usize] {
                out.push(n);
                assert(!values@.contains(n)) by {
                    if values@.contains(n) {
                        let j = choose|j: int| 0 <= j < values@.len() && values@[j] == n;
                        assert(present@[n as int]);
                    }
                }
            } else {
                assert(values@.contains(n)) by {
                    let j = choose|j: int| 0 <= j < values@.len() && values@[j] == n as int;
                    assert(values@[j] == n);
                }
            }
            assert forall|d: u8| 1 <= d < n + 1 && !values@.contains(d) implies out@.contains(d) by {
                if d < n {
                    let k = choose|k: int| 0 <= k < before.len() && before[k] == d;
                    assert(out@[k] == d);
                } else {
                    assert(out@[out@.len() - 1] == d);
                }
            }
            n = n + 1;
        }
        out
    }
} // impl Board

} // verus!
