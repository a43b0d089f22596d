//! Puzzle generation: a backtracking solver, a uniqueness counter, and a
//! generator that carves a uniquely-solvable puzzle out of a full solution.
use vstd::prelude::*;
use crate::board::{blank_cell, num_empty, same_unit, Board, Cell};
use crate::search::{
    agrees_with, blank_grid, completions, lemma_count_is_completions, first_empty, is_completion, is_solved_grid, lemma_blank_has_completion,
    lemma_completion_of_blank, lemma_completion_step, lemma_first_empty, lemma_num_givens_clear,
    lemma_one_solution, lemma_search_count_completions, lemma_search_skips_filled,
    lemma_solution_completes, num_givens,
    num_solutions, placeable, search_count, branch_count, branch_term, small_digits,
};
use rand::rngs::StdRng;
use rand::seq::SliceRandom;
use rand::{Rng, SeedableRng};

verus! {

broadcast use crate::board::lemma_board_len;

#[verifier::external_type_specification]
#[verifier::external_body]
pub struct ExStdRng(StdRng);

/// A `StdRng` made from a 64-bit seed, with what fixes the rest of its stream:
/// the seed, and the lengths of the slices it has shuffled since (it is used
/// for nothing else).
pub struct SeededRng {
    rng: StdRng,
    seed: Ghost<u64>,
    drawn: Ghost<Seq<nat>>,
}

impl SeededRng {
    /// The seed the generator was made from.
    pub closed spec fn seed(&self) -> u64 {
        self.seed@
    }

    /// The lengths of the slices shuffled so far, oldest first.
    pub closed spec fn drawn(&self) -> Seq<nat> {
        self.drawn@
    }

    /// A generator seeded with `seed`.
    pub fn from_seed(seed: u64) -> (r: SeededRng)
        ensures
            r.seed() == seed,
            r.drawn() == Seq::<nat>::empty(),
    {
        seeded_rng(seed)
    }
}

/// The order that `SliceRandom::shuffle` puts a slice of length `len` in, on a
/// `StdRng` made by `seed_from_u64(seed)` that has already shuffled slices of
/// the lengths `drawn` and done nothing else: item `i` of the result is item
/// `order[i]` of the input. `StdRng` is deterministic (ChaCha12 in this version
/// of rand), and each shuffle draws its swap positions with `gen_index`, whose
/// 32-bit sampling gives the same numbers on every platform.
pub uninterp spec fn shuffle_order(seed: u64, drawn: Seq<nat>, len: nat) -> Seq<int>;

/// `s` rearranged so that item `i` is `s[order[i]]`.
pub open spec fn permuted<T>(s: Seq<T>, order: Seq<int>) -> Seq<T> {
    Seq::new(s.len(), |i: int| s[order[i]])
}

/// `StdRng::seed_from_u64`: a generator whose stream is fixed by `seed`; it has
/// shuffled nothing yet. The seed and the (empty) list of shuffled lengths are
/// recorded beside it as its model.
#[verifier::external_body]
fn seeded_rng(seed: u64) -> (r: SeededRng)
    ensures
        r.seed() == seed,
        r.drawn() == Seq::<nat>::empty(),
{
    SeededRng { rng: StdRng::seed_from_u64(seed), seed: Ghost(seed), drawn: Ghost(Seq::empty()) }
}

/// `SliceRandom::shuffle`: permutes `items` in place by a run of swaps whose
/// positions come from the generator alone (`gen_index` for each length), so
/// the order is a function of the seed, the lengths shuffled before, and the
/// length of `items`. The items stay the same, only their order changes, and
/// the generator's model records one more shuffled length.
#[verifier::external_body]
fn shuffle<T>(items: &mut [T], rng: &mut SeededRng)
    ensures
        final(items)@ == permuted(
            old(items)@,
            shuffle_order(old(rng).seed(), old(rng).drawn(), old(items)@.len()),
        ),
        final(items)@.to_multiset() == old(items)@.to_multiset(),
        final(rng).seed() == old(rng).seed(),
        final(rng).drawn() == old(rng).drawn().push(old(items)@.len()),
{
    items.shuffle(&mut rng.rng)
}

/// `rand::thread_rng().gen::<u32>()`: a fresh random seed; any `u32` may come back.
#[verifier::external_body]
fn random_seed() -> u32 {
    rand::thread_rng().gen()
}

/// Puzzle difficulty, expressed as a target number of remaining clues.
#[derive(Clone, Copy, Debug, PartialEq, Eq, Structural)]
pub enum Difficulty {
    Easy,
    Medium,
    Hard,
    Expert,
}

/// The position of `d` within `Difficulty::ALL`.
pub open spec fn index_of(d: Difficulty) -> nat {
    match d {
        Difficulty::Easy => 0,
        Difficulty::Medium => 1,
        Difficulty::Hard => 2,
        Difficulty::Expert => 3,
    }
}

/// The difficulty at position `i` (0..4) of `Difficulty::ALL`.
pub open spec fn difficulty_at(i: int) -> Difficulty {
    if i == 0 {
        Difficulty::Easy
    } else if i == 1 {
        Difficulty::Medium
    } else if i == 2 {
        Difficulty::Hard
    } else {
        Difficulty::Expert
    }
}

/// How many clues a puzzle of difficulty `d` aims to keep.
pub open spec fn clue_target(d: Difficulty) -> nat {
    match d {
        Difficulty::Easy => 42,
        Difficulty::Medium => 34,
        Difficulty::Hard => 30,
        Difficulty::Expert => 26,
    }
}

/// The name shown for `d`.
pub open spec fn label_text(d: Difficulty) -> Seq<char> {
    match d {
        Difficulty::Easy => "Easy"@,
        Difficulty::Medium => "Medium"@,
        Difficulty::Hard => "Hard"@,
        Difficulty::Expert => "Expert"@,
    }
}

/// The colored emoji shown for `d`.
pub open spec fn badge_text(d: Difficulty) -> Seq<char> {
    match d {
        Difficulty::Easy => "🟢"@,
        Difficulty::Medium => "🟡"@,
        Difficulty::Hard => "🟠"@,
        Difficulty::Expert => "🔴"@,
    }
}

/// The difficulty after `d` in the cycle Easy, Medium, Hard, Expert, Easy, ...
pub open spec fn next_difficulty(d: Difficulty) -> Difficulty {
    difficulty_at(((index_of(d) + 1) % 4) as int)
}

impl Difficulty {
    /// All difficulties, in ascending order.
    pub const ALL: [Difficulty; 4] = [
        Difficulty::Easy,
        Difficulty::Medium,
        Difficulty::Hard,
        Difficulty::Expert,
    ];

    /// This difficulty's position within [`Difficulty::ALL`].
    pub fn index(self) -> (i: usize)
        ensures
            i == index_of(self),
    {
        match self {
            Difficulty::Easy => 0,
            Difficulty::Medium => 1,
            Difficulty::Hard => 2,
            Difficulty::Expert => 3,
        }
    }

    /// The difficulty at position `i` within [`Difficulty::ALL`], if any.
    pub fn from_index(i: usize) -> (d: Option<Difficulty>)
        ensures
            d == if i < 4 {
                Some(difficulty_at(i as int))
            } else {
                None::<Difficulty>
            },
    {
        if i < 4 {
            Some(Difficulty::ALL[i])
        } else {
            None
        }
    }

    /// How many clues to aim to leave on the board.
    fn target_clues(self) -> (n: usize)
        ensures
            n == clue_target(self),
    {
        match self {
            Difficulty::Easy => 42,
            Difficulty::Medium => 34,
            Difficulty::Hard => 30,
            Difficulty::Expert => 26,
        }
    }

    pub fn label(self) -> (s: &'static str)
        ensures
            s@ == label_text(self),
    {
        match self {
            Difficulty::Easy => "Easy",
            Difficulty::Medium => "Medium",
            Difficulty::Hard => "Hard",
            Difficulty::Expert => "Expert",
        }
    }

    /// A colored emoji that flags the difficulty in shared results.
    pub fn badge(self) -> (s: &'static str)
        ensures
            s@ == badge_text(self),
    {
        match self {
            Difficulty::Easy => "🟢",
            Difficulty::Medium => "🟡",
            Difficulty::Hard => "🟠",
            Difficulty::Expert => "🔴",
        }
    }

    /// Cycle to the next difficulty (wraps around).
    pub fn next(self) -> (d: Difficulty)
        ensures
            d == next_difficulty(self),
    {
        match self {
            Difficulty::Easy => Difficulty::Medium,
            Difficulty::Medium => Difficulty::Hard,
            Difficulty::Hard => Difficulty::Expert,
            Difficulty::Expert => Difficulty::Easy,
        }
    }
}

/// `index` and `from_index` are inverse to each other, and four steps of
/// `next` come back to the start.
pub proof fn law_difficulty_index(d: Difficulty, i: int)
    requires
        0 <= i < 4,
    ensures
        difficulty_at(index_of(d) as int) == d,
        index_of(difficulty_at(i)) == i,
        next_difficulty(next_difficulty(next_difficulty(next_difficulty(d)))) == d,
{
}

/// A generated puzzle: the playable board plus its unique full solution.
pub struct Puzzle {
    pub board: Board,
    pub solution: [u8; 81],
    pub difficulty: Difficulty,
    /// The seed it was generated from; the same seed and difficulty always
    /// reproduce this exact puzzle.
    pub seed: u32,
}

/// A puzzle as the generator promises it, given its board cells, its solution
/// and its difficulty: a solved grid, a board whose clues are cells of that
/// grid, no other solved grid that fits the clues, and at least the
/// difficulty's target number of clues.
pub open spec fn sound_puzzle(board: Seq<Cell>, solution: Seq<u8>, difficulty: Difficulty) -> bool {
    &&& board.len() == 81
    &&& is_solved_grid(solution)
    &&& forall|i: int|
        0 <= i < 81 ==> #[trigger] board[i] == blank_cell() || board[i] == (Cell {
            value: Some(solution[i]),
            given: true,
            notes: 0,
        })
    &&& forall|c: Seq<u8>|
        #[trigger] is_solved_grid(c) && (forall|i: int|
            0 <= i < 81 && board[i].value is Some ==> c[i] == solution[i]) ==> c == solution
    &&& 81 - num_empty(board) >= clue_target(difficulty)
}

/// Whether `val` can be placed at flat index `i` without violating row/col/box.
pub fn valid(grid: &[u8; 81], i: usize, val: u8) -> (ok: bool)
    requires
        i < 81,
    ensures
        ok == placeable(grid@, i as int, val),
{
    let r = i / 9;
    let c = i % 9;
    for k in 0..9
        invariant
            i < 81,
            r == i / 9,
            c == i % 9,
            forall|j: int|
                0 <= j < 81 && ((j / 9 == r && j % 9 < k) || (j % 9 == c && j / 9 < k))
                    ==> grid@[j] != val,
    {
        if grid[r * 9 + k] == val || grid[k * 9 + c] == val {
            proof {
                if grid@[r * 9 + k] == val {
                    assert(same_unit(i as int, r * 9 + k));
                } else {
                    assert(same_unit(i as int, k * 9 + c));
                }
            }
            return false;
        }
    }
    let br = r / 3 * 3;
    let bc = c / 3 * 3;
    for rr in br..br + 3
        invariant
            i < 81,
            r == i / 9,
            c == i % 9,
            br == r / 3 * 3,
            bc == c / 3 * 3,
            br <= rr <= br + 3,
            forall|j: int| 0 <= j < 81 && (j / 9 == r || j % 9 == c) ==> grid@[j] != val,
            forall|j: int|
                0 <= j < 81 && br <= j / 9 < rr && bc <= j % 9 < bc + 3 ==> grid@[j] != val,
    {
        for cc in bc..bc + 3
            invariant
                i < 81,
                r == i / 9,
                c == i % 9,
                br == r / 3 * 3,
                bc == c / 3 * 3,
                br <= rr < br + 3,
                bc <= cc <= bc + 3,
                forall|j: int| 0 <= j < 81 && (j / 9 == r || j % 9 == c) ==> grid@[j] != val,
                forall|j: int|
                    0 <= j < 81 && ((br <= j / 9 < rr && bc <= j % 9 < bc + 3) || (j / 9 == rr
                        && bc <= j % 9 < cc)) ==> grid@[j] != val,
        {
            if grid[rr * 9 + cc] == val {
                assert(same_unit(i as int, rr * 9 + cc));
                return false;
            }
        }
    }
    assert forall|j: int| 0 <= j < 81 && #[trigger] same_unit(i as int, j) implies grid@[j]
        != val by {
        assert(j / 27 == (j / 9) / 3);
        assert(i as int / 27 == r as int / 3);
    }
    true
}

/// The first empty cell of `grid`, if there is one.
fn find_empty(grid: &[u8; 81]) -> (pos: Option<usize>)
    ensures
        pos == if first_empty(grid@, 0) < 81 {
            Some(first_empty(grid@, 0) as usize)
        } else {
            None::<usize>
        },
{
    proof {
        lemma_first_empty(grid@, 0);
    }
    let mut p: usize = 0;
    while p < 81
        invariant
            p <= 81,
            p <= first_empty(grid@, 0),
            forall|i: int| 0 <= i < p ==> grid@[i] != 0,
            first_empty(grid@, 0) <= 81,
            forall|i: int| 0 <= i < first_empty(grid@, 0) ==> grid@[i] != 0,
            first_empty(grid@, 0) < 81 ==> grid@[first_empty(grid@, 0)] == 0,
        decreases 81 - p,
    {
        if grid[p] == 0 {
            return Some(p);
        }
        p = p + 1;
    }
    None
}

/// The candidate digits before they are shuffled.
pub open spec fn digits() -> Seq<u8> {
    seq![1u8, 2, 3, 4, 5, 6, 7, 8, 9]
}

/// What `fill` does from grid `g` with a generator made from `seed` that has
/// shuffled slices of the lengths `drawn`: whether it succeeds, the grid it
/// leaves, and the shuffle lengths afterwards. At the first empty cell it
/// shuffles the digits 1..=9 and tries them in that order.
pub open spec fn fill_run(g: Seq<u8>, seed: u64, drawn: Seq<nat>) -> (bool, Seq<u8>, Seq<nat>)
    decreases g.len() - first_empty(g, 0), 10int,
{
    if first_empty(g, 0) >= g.len() {
        (true, g, drawn)
    } else {
        fill_try(g, permuted(digits(), shuffle_order(seed, drawn, 9)), 0, seed, drawn.push(9))
    }
}

/// `fill` at the first empty cell of `g`, trying the candidates `cands` from
/// the `k`-th on: the first that may go there and leads to a full grid wins;
/// when none does the grid is left as it was.
pub open spec fn fill_try(g: Seq<u8>, cands: Seq<u8>, k: int, seed: u64, drawn: Seq<nat>) -> (
    bool,
    Seq<u8>,
    Seq<nat>,
)
    decreases g.len() - first_empty(g, 0), 9 - k,
{
    let p = first_empty(g, 0);
    if k >= 9 || k < 0 || p >= g.len() {
        (false, g, drawn)
    } else {
        let v = cands[k];
        if v != 0 && placeable(g, p, v) {
            let g2 = g.update(p, v);
            proof {
                lemma_first_empty(g, 0);
                lemma_first_empty(g2, 0);
                if first_empty(g2, 0) < p {
                    assert(g2[first_empty(g2, 0)] == g[first_empty(g2, 0)]);
                }
            }
            let r = fill_run(g2, seed, drawn);
            if r.0 {
                r
            } else {
                fill_try(g, cands, k + 1, seed, r.2)
            }
        } else {
            fill_try(g, cands, k + 1, seed, drawn)
        }
    }
}

/// Fill `grid` completely with a random valid solution via backtracking.
/// Returns false only if the (partial) grid is unsolvable.
pub fn fill(grid: &mut [u8; 81], rng: &mut SeededRng) -> (ok: bool)
    requires
        small_digits(old(grid)@),
    ensures
        (ok, final(grid)@, final(rng).drawn()) == fill_run(old(grid)@, old(rng).seed(), old(rng).drawn()),
        final(rng).seed() == old(rng).seed(),
        ok ==> is_completion(old(grid)@, final(grid)@),
        !ok ==> final(grid)@ == old(grid)@ && !exists|c: Seq<u8>|
            is_completion(old(grid)@, c),
    decreases 81 - first_empty(old(grid)@, 0),
{
    let ghost g = grid@;
    let ghost seed = rng.seed();
    let ghost d0 = rng.drawn();
    proof {
        lemma_first_empty(g, 0);
    }
    let pos = match find_empty(grid) {
        Some(p) => p,
        None => {
            assert(is_completion(g, g));
            return true;  // fully filled
        },
    };
    let mut candidates: [u8; 9] = [1, 2, 3, 4, 5, 6, 7, 8, 9];
    let ghost digits = candidates@;
    assert(digits =~= seq![1u8, 2, 3, 4, 5, 6, 7, 8, 9]);
    shuffle(&mut candidates, rng);
    assert(fill_run(g, seed, d0) == fill_try(g, candidates@, 0, seed, rng.drawn()));
    proof {
        broadcast use vstd::seq_lib::group_to_multiset_ensures;

        assert forall|k: int| 0 <= k < 9 implies 1 <= #[trigger] candidates@[k] <= 9 by {
            assert(candidates@.contains(candidates@[k]));
            assert(digits.to_multiset().count(candidates@[k]) > 0);
        }
        assert forall|v: u8| 1 <= v <= 9 implies #[trigger] candidates@.contains(v) by {
            assert(digits[v - 1] == v);
            assert(digits.contains(v));
            assert(digits.to_multiset().count(v) > 0);
            assert(candidates@.to_multiset().count(v) > 0);
        }
    }
    let mut k: usize = 0;
    while k < 9
        invariant
            0 <= k <= 9,
            pos < 81,
            pos == first_empty(g, 0),
            g[pos as int] == 0,
            small_digits(g),
            grid@ == g,
            old(grid)@ == g,
            forall|i: int| 0 <= i < pos ==> g[i] != 0,
            forall|j: int| 0 <= j < 9 ==> 1 <= #[trigger] candidates@[j] <= 9,
            forall|v: u8| 1 <= v <= 9 ==> #[trigger] candidates@.contains(v),
            forall|j: int|
                0 <= j < k ==> !(placeable(g, pos as int, #[trigger] candidates@[j])
                    && exists|c: Seq<u8>| is_completion(g.update(pos as int, candidates@[j]), c)),
            rng.seed() == seed,
            seed == old(rng).seed(),
            d0 == old(rng).drawn(),
            fill_run(g, seed, d0) == fill_try(g, candidates@, k as int, seed, rng.drawn()),
        decreases 9 - k,
    {
        let val = candidates[k];
        if valid(grid, pos, val) {
            grid[pos] = val;
            proof {
                let g2 = g.update(pos as int, val);
                assert(grid@ == g2);
                lemma_first_empty(g2, 0);
                assert(first_empty(g2, 0) > pos);
                assert(81 - first_empty(grid@, 0) < 81 - first_empty(g, 0));
            }
            if fill(grid, rng) {
                proof {
                    assert(grid@[pos as int] == val);
                    lemma_completion_step(g, grid@, pos as int);
                }
                return true;
            }
            grid[pos] = 0;
            assert(grid@ =~= g);
        }
        k = k + 1;
    }
    proof {
        assert forall|c: Seq<u8>| !is_completion(g, c) by {
            if is_completion(g, c) {
                lemma_completion_step(g, c, pos as int);
                let v = c[pos as int];
                assert(candidates@.contains(v));
                let j = choose|j: int| 0 <= j < 9 && candidates@[j] == v;
                assert(placeable(g, pos as int, candidates@[j]));
            }
        }
    }
    false
}

/// Count solutions of `grid`, stopping early once `limit` is reached.
pub fn count_solutions(grid: &mut [u8; 81], limit: usize) -> (total: usize)
    requires
        small_digits(old(grid)@),
        limit * 81 <= usize::MAX || num_solutions(old(grid)@) <= usize::MAX,
    ensures
        final(grid)@ == old(grid)@,
        total <= num_solutions(old(grid)@),
        total < limit ==> total == num_solutions(old(grid)@),
        completions(old(grid)@).finite(),
        completions(old(grid)@).len() == num_solutions(old(grid)@),
        total <= limit * (81 - first_empty(old(grid)@, 0)) + 1,
    decreases 81 - first_empty(old(grid)@, 0),
{
    let ghost g = grid@;
    proof {
        lemma_first_empty(g, 0);
        lemma_count_is_completions(g, 0);
    }
    let pos = match find_empty(grid) {
        Some(p) => p,
        None => {
            proof {
                lemma_search_skips_filled(g, 0, 81);
            }
            return 1;
        },
    };
    proof {
        lemma_search_skips_filled(g, 0, pos as int);
        assert(search_count(g, pos as int) == branch_count(g, pos as int, 9));
    }
    let mut total: usize = 0;
    let mut val: u8 = 1;
    while val <= 9
        invariant
            1 <= val <= 10,
            pos < 81,
            pos == first_empty(g, 0),
            g[pos as int] == 0,
            small_digits(g),
            limit * 81 <= usize::MAX || num_solutions(g) <= usize::MAX,
            completions(g).finite(),
            completions(g).len() == num_solutions(g),
            grid@ == g,
            old(grid)@ == g,
            forall|i: int| 0 <= i < pos ==> g[i] != 0,
            num_solutions(g) == branch_count(g, pos as int, 9),
            total <= branch_count(g, pos as int, val - 1),
            total < limit ==> total == branch_count(g, pos as int, val - 1),
            total < limit || total == 0,
        decreases 10 - val,
    {
        assert(branch_count(g, pos as int, val as int) == branch_count(g, pos as int, val - 1)
            + branch_term(g, pos as int, val as int));
        if valid(grid, pos, val) {
            grid[pos] = val;
            let ghost g2 = g.update(pos as int, val);
            proof {
                assert(grid@ == g2);
                lemma_first_empty(g2, 0);
                lemma_first_empty(g2, pos as int + 1);
                assert(first_empty(g2, 0) == first_empty(g2, pos as int + 1)) by {
                    lemma_first_empty_from(g2, 0, pos as int + 1);
                }
                lemma_search_skips_filled(g2, pos as int + 1, first_empty(g2, 0));
                lemma_search_skips_filled(g2, 0, first_empty(g2, 0));
                assert(search_count(g2, 0) == search_count(g2, pos as int + 1));
                assert(branch_term(g, pos as int, val as int) == search_count(g2, pos as int + 1));
                vstd::arithmetic::mul::lemma_mul_inequality(
                    81 - first_empty(g2, 0),
                    80 - pos as int,
                    limit as int,
                );
                assert(limit * (80 - pos as int) + limit == limit * (81 - pos as int))
                    by (nonlinear_arith);
                assert(limit * (81 - pos as int) <= limit * 81) by (nonlinear_arith)
                    requires
                        limit >= 0,
                        0 <= 81 - pos as int <= 81,
                ;
                assert(limit * (81 - first_empty(g2, 0)) >= 0) by (nonlinear_arith)
                    requires
                        81 - first_empty(g2, 0) >= 0,
                ;
                assert(81 - first_empty(grid@, 0) < 81 - first_empty(g, 0));
                lemma_branch_count_monotone(g, pos as int, val as int);
                assert(num_solutions(g2) == branch_term(g, pos as int, val as int));
            }
            let sub = count_solutions(grid, limit);
            total = total + sub;
            grid[pos] = 0;
            assert(grid@ =~= g);
            if total >= limit {
                proof {
                    lemma_branch_count_monotone(g, pos as int, val as int);
                }
                return total;
            }
        }
        val = val + 1;
    }
    assert(limit <= limit * (81 - pos as int)) by (nonlinear_arith)
        requires
            limit >= 0,
            81 - pos as int >= 1,
    ;
    total
}

/// The number of empty cells of a board that mirrors a grid is the number of
/// empty cells of the grid.
proof fn lemma_empty_cells_mirror(cells: Seq<Cell>, g: Seq<u8>)
    requires
        cells.len() == g.len(),
        forall|i: int| 0 <= i < g.len() ==> (#[trigger] cells[i].value is None <==> g[i] == 0),
    ensures
        num_empty(cells) + num_givens(g) == g.len(),
    decreases g.len(),
{
    if g.len() > 0 {
        lemma_empty_cells_mirror(cells.drop_last(), g.drop_last());
        assert(cells.last().value is None <==> g.last() == 0);
    }
}

/// The flat positions 0..81 in order.
pub open spec fn all_positions() -> Seq<usize> {
    Seq::new(81, |i: int| i as usize)
}

/// `g` has two different completions.
pub open spec fn two_completions(g: Seq<u8>) -> bool {
    exists|c1: Seq<u8>, c2: Seq<u8>| is_completion(g, c1) && is_completion(g, c2) && c1 != c2
}

/// The carving pass: walking the positions of `order` from the `k`-th on, a
/// clue is emptied whenever the grid keeps exactly one solution without it,
/// until only `target` clues are left or the positions run out.
pub open spec fn carve(g: Seq<u8>, order: Seq<usize>, k: int, target: nat) -> Seq<u8>
    decreases 81 - k,
{
    if k >= 81 || k < 0 || num_givens(g) <= target {
        g
    } else {
        let q = g.update(order[k] as int, 0u8);
        if g[order[k] as int] != 0 && num_solutions(q) == 1 {
            carve(q, order, k + 1, target)
        } else {
            carve(g, order, k + 1, target)
        }
    }
}

/// The solution that the generator fills in from `seed`.
pub open spec fn seeded_solution(seed: u32) -> Seq<u8> {
    fill_run(blank_grid(), seed as u64, Seq::empty()).1
}

/// The order in which the generator tries to empty cells for `seed`: the
/// positions shuffled by the generator after it filled the solution.
pub open spec fn seeded_order(seed: u32) -> Seq<usize> {
    permuted(
        all_positions(),
        shuffle_order(seed as u64, fill_run(blank_grid(), seed as u64, Seq::empty()).2, 81),
    )
}

/// The puzzle digits (0 for an empty cell) generated for `(d, seed)`.
pub open spec fn seeded_grid(d: Difficulty, seed: u32) -> Seq<u8> {
    carve(seeded_solution(seed), seeded_order(seed), 0, clue_target(d))
}

/// The board cells for the puzzle digits `g`: clues are givens, the rest blank.
pub open spec fn board_cells(g: Seq<u8>) -> Seq<Cell> {
    Seq::new(
        81,
        |i: int|
            if g[i] == 0 {
                blank_cell()
            } else {
                Cell { value: Some(g[i]), given: true, notes: 0 }
            },
    )
}

/// Carving stops at the target, or when every clue left is needed: emptying
/// any of them lets the grid be completed in two ways.
pub open spec fn carved_enough(g: Seq<u8>, target: nat) -> bool {
    ||| num_givens(g) == target
    ||| forall|i: int| 0 <= i < 81 && g[i] != 0 ==> #[trigger] two_completions(g.update(i, 0u8))
}

/// Emptying one more cell of a grid that agrees with a solved grid keeps every
/// completion a completion.
proof fn lemma_completion_drop(b: Seq<u8>, c: Seq<u8>, x: int, sol: Seq<u8>)
    requires
        is_completion(b, c),
        agrees_with(b, sol),
        is_solved_grid(sol),
        0 <= x < 81,
    ensures
        is_completion(b.update(x, 0u8), c),
{
    let b2 = b.update(x, 0u8);
    assert forall|i: int, j: int|
        0 <= i < 81 && 0 <= j < 81 && i != j && b2[i] == 0 && #[trigger] same_unit(i, j) implies c[i]
        != c[j] by {
        if b[i] != 0 {
            assert(i == x);
            assert(c[i] == b[i] && b[i] == sol[i]);
            assert(same_unit(j, i));
            if b[j] != 0 {
                assert(c[j] == b[j] && b[j] == sol[j]);
            }
        }
    }
}

/// A clue that cannot be emptied stays so when other clues are emptied.
proof fn lemma_still_needed(a: Seq<u8>, x: int, y: int, sol: Seq<u8>)
    requires
        small_digits(a),
        agrees_with(a, sol),
        is_solved_grid(sol),
        0 <= x < 81,
        0 <= y < 81,
        two_completions(a.update(y, 0u8)),
    ensures
        two_completions(a.update(x, 0u8).update(y, 0u8)),
{
    let b = a.update(y, 0u8);
    let (c1, c2) = choose|c1: Seq<u8>, c2: Seq<u8>|
        is_completion(b, c1) && is_completion(b, c2) && c1 != c2;
    assert(agrees_with(b, sol));
    lemma_completion_drop(b, c1, x, sol);
    lemma_completion_drop(b, c2, x, sol);
    assert(b.update(x, 0u8) =~= a.update(x, 0u8).update(y, 0u8));
}

/// Generate a puzzle of the given difficulty from a fresh random seed.
pub fn generate(difficulty: Difficulty) -> (p: Puzzle)
    ensures
        p.difficulty == difficulty,
        sound_puzzle(p.board@, p.solution@, p.difficulty),
        p.solution@ == seeded_solution(p.seed),
        p.board@ == board_cells(seeded_grid(difficulty, p.seed)),
{
    generate_seeded(difficulty, random_seed())
}

/// Generate a puzzle of the given difficulty with a guaranteed unique solution,
/// deterministically from `seed`. The same `(difficulty, seed)` pair always
/// yields the identical puzzle, which is what makes share codes reproducible.
pub fn generate_seeded(difficulty: Difficulty, seed: u32) -> (p: Puzzle)
    ensures
        p.difficulty == difficulty,
        p.seed == seed,
        sound_puzzle(p.board@, p.solution@, p.difficulty),
        p.solution@ == seeded_solution(seed),
        p.board@ == board_cells(seeded_grid(difficulty, seed)),
        carved_enough(seeded_grid(difficulty, seed), clue_target(difficulty)),
{
    let mut rng = seeded_rng(seed as u64);

    // 1. Build a complete, valid solution.
    let mut solution: [u8; 81] = [0; 81];
    proof {
        assert(solution@ =~= blank_grid());
        lemma_blank_has_completion();
    }
    let filled = fill(&mut solution, &mut rng);
    proof {
        assert(filled);
        lemma_completion_of_blank(solution@);
        assert(solution@ == seeded_solution(seed));
    }

    // 2. Carve holes while keeping the solution unique.
    let mut puzzle = solution;
    let mut positions: Vec<usize> = Vec::new();
    for i in 0..81
        invariant
            positions@.len() == i,
            forall|k: int| 0 <= k < i ==> #[trigger] positions@[k] == k,
    {
        positions.push(i);
    }
    let ghost ordered = positions@;
    assert(ordered =~= all_positions());
    shuffle(positions.as_mut_slice(), &mut rng);
    assert(positions@ == seeded_order(seed));
    proof {
        broadcast use vstd::seq_lib::group_to_multiset_ensures;

        assert forall|i: int| 0 <= i < 81 implies #[trigger] positions@.contains(i as usize) by {
            assert(ordered[i] == i as usize);
            assert(ordered.contains(i as usize));
            assert(ordered.to_multiset().count(i as usize) > 0);
            assert(positions@.to_multiset().count(i as usize) > 0);
        }

        assert forall|k: int| 0 <= k < positions@.len() implies #[trigger] positions@[k] < 81 by {
            let x = positions@[k];
            assert(positions@.contains(x));
            assert(positions@.to_multiset().count(x) > 0);
            assert(ordered.to_multiset().count(x) > 0);
            assert(ordered.contains(x));
        }
        assert(positions@.len() == 81) by {
            assert(positions@.to_multiset().len() == ordered.to_multiset().len());
        }
        lemma_all_given(puzzle@);
    }

    let mut clues: usize = 81;
    let target = difficulty.target_clues();
    let mut k: usize = 0;
    let ghost order = positions@;
    while k < 81 && clues > target
        invariant
            0 <= k <= 81,
            positions@ == order,
            carve(puzzle@, order, k as int, target as nat) == carve(
                solution@,
                order,
                0,
                target as nat,
            ),
            forall|j: int|
                #![trigger order[j]]
                0 <= j < k && puzzle@[order[j] as int] != 0 ==> two_completions(
                    puzzle@.update(order[j] as int, 0u8),
                ),
            positions@.len() == 81,
            forall|j: int| 0 <= j < 81 ==> #[trigger] positions@[j] < 81,
            is_solved_grid(solution@),
            agrees_with(puzzle@, solution@),
            small_digits(puzzle@),
            forall|c: Seq<u8>| #[trigger] is_completion(puzzle@, c) ==> c == solution@,
            clues == num_givens(puzzle@),
            clues >= target,
            target == clue_target(difficulty),
        decreases 81 - k,
    {
        let pos = positions[k];
        let removed = puzzle[pos];
        if removed != 0 {
            let ghost before = puzzle@;
            puzzle[pos] = 0;
            let mut probe = puzzle;
            proof {
                assert forall|i: int| 0 <= i < 81 implies #[trigger] puzzle@[i] <= 9 by {
                    assert(before[i] <= 9);
                }
                assert forall|i: int| 0 <= i < 81 implies #[trigger] puzzle@[i] == 0 || puzzle@[i]
                    == solution@[i] by {
                    assert(before[i] == 0 || before[i] == solution@[i]);
                }
            }
            let count = count_solutions(&mut probe, 2);
            if count == 1 {
                proof {
                    lemma_one_solution(puzzle@);
                    lemma_solution_completes(puzzle@, solution@);
                    lemma_num_givens_clear(before, pos as int);
                    assert(puzzle@ == before.update(pos as int, 0u8));
                    assert forall|j: int|
                        #![trigger order[j]]
                        0 <= j < k + 1 && puzzle@[order[j] as int] != 0 implies two_completions(
                            puzzle@.update(order[j] as int, 0u8),
                        ) by {
                        if j < k {
                            lemma_still_needed(before, pos as int, order[j] as int, solution@);
                        }
                    }
                }
                clues -= 1;
            } else {
                proof {
                    let q = before.update(pos as int, 0u8);
                    assert(puzzle@ == q);
                    lemma_solution_completes(q, solution@);
                    lemma_search_count_completions(q, 0);
                }
                puzzle[pos] = removed;
                assert(puzzle@ =~= before);
            }
        }
        k += 1;
    }

    let board = Board::from_digits(&puzzle);
    proof {
        assert(puzzle@ == seeded_grid(difficulty, seed));
        assert(board@ =~= board_cells(puzzle@));
        if clues > target {
            assert forall|i: int| 0 <= i < 81 && puzzle@[i] != 0 implies #[trigger] two_completions(
                puzzle@.update(i, 0u8),
            ) by {
                assert(order.contains(i as usize));
                let j = choose|j: int| 0 <= j < order.len() && order[j] == i as usize;
                assert(order[j] == i as usize);
            }
        }
        lemma_empty_cells_mirror(board@, puzzle@);
        assert forall|i: int|
            0 <= i < 81 implies #[trigger] board@[i] == blank_cell() || board@[i] == (Cell {
                value: Some(solution@[i]),
                given: true,
                notes: 0,
            }) by {
            assert(puzzle@[i] == 0 || puzzle@[i] == solution@[i]);
        }
        assert forall|c: Seq<u8>|
            #[trigger] is_solved_grid(c) && (forall|i: int|
                0 <= i < 81 && board@[i].value is Some ==> c[i] == solution@[i]) implies c
            == solution@ by {
            assert forall|i: int| 0 <= i < 81 implies #[trigger] puzzle@[i] == 0 || puzzle@[i]
                == c[i] by {
                if puzzle@[i] != 0 {
                    assert(board@[i].value is Some);
                }
            }
            lemma_solution_completes(puzzle@, c);
        }
    }
    Puzzle { board, solution, difficulty, seed }
}

/// A grid with no empty cell has as many givens as cells.
proof fn lemma_all_given(g: Seq<u8>)
    requires
        forall|i: int| 0 <= i < g.len() ==> #[trigger] g[i] != 0,
    ensures
        num_givens(g) == g.len(),
    decreases g.len(),
{
    if g.len() > 0 {
        lemma_all_given(g.drop_last());
    }
}

/// The partial branch sums only grow.
proof fn lemma_branch_count_monotone(g: Seq<u8>, p: int, k: int)
    requires
        0 <= p < 81,
        0 <= k <= 9,
    ensures
        branch_count(g, p, k) <= branch_count(g, p, 9),
    decreases 9 - k,
{
    if k < 9 {
        lemma_branch_count_monotone(g, p, k + 1);
    }
}

/// Scanning for an empty cell from `0` and from `q` agree when the cells before
/// `q` are filled.
proof fn lemma_first_empty_from(g: Seq<u8>, p: int, q: int)
    requires
        0 <= p <= q <= g.len(),
        forall|i: int| p <= i < q ==> g[i] != 0,
    ensures
        first_empty(g, p) == first_empty(g, q),
    decreases q - p,
{
    if p < q {
        lemma_first_empty_from(g, p + 1, q);
    }
}


// --- Share codes ------------------------------------------------------------
//
// A share code packs the difficulty and seed into one base-36 token: the low
// two bits are the difficulty index, the rest is the 32-bit seed. So a single
// short string fully determines the puzzle.

/// An ASCII letter or digit: the characters a share code is made of.
pub open spec fn is_code_char(c: char) -> bool {
    ||| ('0' <= c && c <= '9')
    ||| ('A' <= c && c <= 'Z')
    ||| ('a' <= c && c <= 'z')
}

/// The value of a base-36 digit character (either case).
pub open spec fn code_digit(c: char) -> nat {
    if '0' <= c && c <= '9' {
        (c as int - 48) as nat
    } else if 'A' <= c && c <= 'Z' {
        (c as int - 55) as nat
    } else {
        (c as int - 87) as nat
    }
}

/// The uppercase base-36 digit character for `d` (0..36).
pub open spec fn base36_char(d: nat) -> char {
    if d < 10 {
        (48 + d) as char
    } else {
        (55 + d) as char
    }
}

/// `n` written in uppercase base 36, without leading zeros ("0" for zero).
pub open spec fn base36_text(n: nat) -> Seq<char>
    decreases n,
{
    if n < 36 {
        seq![base36_char(n)]
    } else {
        base36_text(n / 36).push(base36_char(n % 36))
    }
}

/// The number that the base-36 digits `s` stand for.
pub open spec fn base36_value(s: Seq<char>) -> nat
    decreases s.len(),
{
    if s.len() == 0 {
        0
    } else {
        base36_value(s.drop_last()) * 36 + code_digit(s.last())
    }
}

/// The text after the last `#` of `s`, or all of `s` if it has none.
pub open spec fn after_last_hash(s: Seq<char>) -> Seq<char>
    decreases s.len(),
{
    if s.len() == 0 {
        s
    } else if s.last() == '#' {
        Seq::empty()
    } else {
        after_last_hash(s.drop_last()).push(s.last())
    }
}

/// `s` without its leading characters that are not letters or digits.
pub open spec fn skip_to_code(s: Seq<char>) -> Seq<char>
    decreases s.len(),
{
    if s.len() == 0 || is_code_char(s[0]) {
        s
    } else {
        skip_to_code(s.drop_first())
    }
}

/// The longest prefix of `s` made of letters and digits.
pub open spec fn leading_code(s: Seq<char>) -> Seq<char>
    decreases s.len(),
{
    if s.len() == 0 || !is_code_char(s[0]) {
        Seq::empty()
    } else {
        seq![s[0]] + leading_code(s.drop_first())
    }
}

/// The code token of a pasted text: the first run of letters and digits after
/// the last `#` (or in the whole text, without a `#`).
pub open spec fn code_token(s: Seq<char>) -> Seq<char> {
    leading_code(skip_to_code(after_last_hash(s)))
}

/// What a pasted text decodes to: the difficulty in the token's low two bits
/// and the seed in the rest, or `None` when there is no token, the token does
/// not fit in 64 bits, or the seed does not fit in 32 bits.
pub open spec fn decoded(s: Seq<char>) -> Option<(Difficulty, u32)> {
    let t = code_token(s);
    let v = base36_value(t);
    if t.len() == 0 || v > u64::MAX || v / 4 > u32::MAX {
        None
    } else {
        Some((difficulty_at((v % 4) as int), (v / 4) as u32))
    }
}

/// The number a share code stands for.
pub open spec fn packed_code(d: Difficulty, seed: u32) -> nat {
    seed as nat * 4 + index_of(d)
}

/// The shareable code for a `(difficulty, seed)` puzzle, e.g. `"3F9KQ2"`.
pub fn encode_code(difficulty: Difficulty, seed: u32) -> (code: String)
    ensures
        code@ == base36_text(packed_code(difficulty, seed)),
{
    let d = difficulty.index() as u64;
    let s = seed as u64;
    let packed = s << 2 | d;
    assert(s << 2 | d == s * 4 + d) by (bit_vector)
        requires
            s <= 0xffff_ffffu64,
            d < 4,
    ;
    to_base36(packed)
}

/// Encode `n` as an uppercase base-36 string.
fn to_base36(n: u64) -> (s: String)
    ensures
        s@ == base36_text(n as nat),
    decreases n,
{
    if n < 36 {
        let mut s = String::new();
        s.push(base36_digit((n % 36) as u8));
        s
    } else {
        let mut s = to_base36(n / 36);
        s.push(base36_digit((n % 36) as u8));
        s
    }
}

/// The uppercase base-36 digit character for `d`.
fn base36_digit(d: u8) -> (c: char)
    requires
        d < 36,
    ensures
        c == base36_char(d as nat),
{
    if d < 10 {
        (d + 48) as char
    } else {
        (d + 55) as char
    }
}

/// Whether `c` is an ASCII letter or digit.
fn is_code_char_exec(c: char) -> (b: bool)
    ensures
        b == is_code_char(c),
{
    ('0' <= c && c <= '9') || ('A' <= c && c <= 'Z') || ('a' <= c && c <= 'z')
}

/// The base-36 value of the letter or digit `c`.
fn code_digit_exec(c: char) -> (d: u64)
    requires
        is_code_char(c),
    ensures
        d == code_digit(c),
        d < 36,
{
    if '0' <= c && c <= '9' {
        (c as u64) - 48
    } else if 'A' <= c && c <= 'Z' {
        (c as u64) - 55
    } else {
        (c as u64) - 87
    }
}

/// Where the text after the last `#` among the first `k` characters starts.
pub open spec fn hash_end(s: Seq<char>, k: int) -> int
    decreases k,
{
    if k <= 0 {
        0
    } else if s[k - 1] == '#' {
        k
    } else {
        hash_end(s, k - 1)
    }
}

proof fn lemma_after_last_hash_prefix(s: Seq<char>, k: int)
    requires
        0 <= k <= s.len(),
    ensures
        0 <= hash_end(s, k) <= k,
        after_last_hash(s.take(k)) == s.subrange(hash_end(s, k), k),
    decreases k,
{
    if k > 0 {
        lemma_after_last_hash_prefix(s, k - 1);
        assert(s.take(k).drop_last() =~= s.take(k - 1));
        if s[k - 1] != '#' {
            assert(s.subrange(hash_end(s, k - 1), k - 1).push(s[k - 1]) =~= s.subrange(
                hash_end(s, k),
                k,
            ));
        } else {
            assert(s.subrange(k, k) =~= Seq::<char>::empty());
        }
    } else {
        assert(s.take(0) =~= s.subrange(0, 0));
    }
}

proof fn lemma_skip_step(s: Seq<char>, a: int)
    requires
        0 <= a < s.len(),
        !is_code_char(s[a]),
    ensures
        skip_to_code(s.subrange(a, s.len() as int)) == skip_to_code(
            s.subrange(a + 1, s.len() as int),
        ),
{
    assert(s.subrange(a, s.len() as int).drop_first() =~= s.subrange(a + 1, s.len() as int));
}

proof fn lemma_leading_code_split(s: Seq<char>, b: int, j: int)
    requires
        0 <= b <= j <= s.len(),
        forall|i: int| b <= i < j ==> is_code_char(#[trigger] s[i]),
    ensures
        leading_code(s.subrange(b, s.len() as int)) == s.subrange(b, j) + leading_code(
            s.subrange(j, s.len() as int),
        ),
    decreases j - b,
{
    if b < j {
        lemma_leading_code_split(s, b + 1, j);
        assert(s.subrange(b, s.len() as int).drop_first() =~= s.subrange(b + 1, s.len() as int));
        assert(seq![s[b]] + s.subrange(b + 1, j) =~= s.subrange(b, j));
        assert(seq![s[b]] + (s.subrange(b + 1, j) + leading_code(s.subrange(j, s.len() as int)))
            =~= s.subrange(b, j) + leading_code(s.subrange(j, s.len() as int)));
    } else {
        assert(s.subrange(b, j) =~= Seq::<char>::empty());
    }
}

proof fn lemma_base36_value_grows(x: Seq<char>, y: Seq<char>)
    ensures
        base36_value(x + y) >= base36_value(x),
    decreases y.len(),
{
    if y.len() > 0 {
        lemma_base36_value_grows(x, y.drop_last());
        assert((x + y).drop_last() =~= x + y.drop_last());
    } else {
        assert(x + y =~= x);
    }
}

/// Parse a share code back into its difficulty and seed. Tolerant of
/// surrounding text: it grabs the token after a `#` if present, else the whole
/// trimmed input, and ignores case and non-alphanumeric noise. Returns `None`
/// if the token isn't a valid code.
pub fn decode_code(input: &str) -> (r: Option<(Difficulty, u32)>)
    ensures
        r == decoded(input@),
{
    let ghost s = input@;
    let n = input.unicode_len();
    // Where the text after the last '#' starts.
    let mut start: usize = 0;
    let mut i: usize = 0;
    while i < n
        invariant
            n == s.len(),
            s == input@,
            i <= n,
            start == hash_end(s, i as int),
        decreases n - i,
    {
        if input.get_char(i) == '#' {
            start = i + 1;
        }
        i = i + 1;
    }
    proof {
        lemma_after_last_hash_prefix(s, n as int);
        assert(s.take(n as int) =~= s);
    }
    // The first maximal run of alphanumerics (skips leading spaces, stops at the
    // first separator), so both a bare code and a pasted "#CODE …" line work.
    let mut j: usize = start;
    while j < n
        invariant
            n == s.len(),
            s == input@,
            start <= j <= n,
            skip_to_code(after_last_hash(s)) == skip_to_code(s.subrange(j as int, n as int)),
        ensures
            start <= j <= n,
            skip_to_code(after_last_hash(s)) == skip_to_code(s.subrange(j as int, n as int)),
            j < n ==> is_code_char(s[j as int]),
        decreases n - j,
    {
        if is_code_char_exec(input.get_char(j)) {
            break;
        }
        proof {
            lemma_skip_step(s, j as int);
        }
        j = j + 1;
    }
    let ghost b = j as int;
    proof {
        if b < n {
            assert(s.subrange(b, n as int)[0] == s[b]);
        }
        assert(skip_to_code(s.subrange(b, n as int)) == s.subrange(b, n as int));
    }
    if j == n {
        assert(s.subrange(b, n as int) =~= Seq::<char>::empty());
        return None;
    }
    let mut packed: u64 = 0;
    while j < n
        invariant
            n == s.len(),
            s == input@,
            0 <= b <= j <= n,
            b < n,
            code_token(s) == leading_code(s.subrange(b, n as int)),
            forall|k: int| b <= k < j ==> is_code_char(#[trigger] s[k]),
            packed == base36_value(s.subrange(b, j as int)),
        ensures
            b <= j <= n,
            forall|k: int| b <= k < j ==> is_code_char(#[trigger] s[k]),
            packed == base36_value(s.subrange(b, j as int)),
            j < n ==> !is_code_char(s[j as int]),
        decreases n - j,
    {
        let c = input.get_char(j);
        assert(c == s[j as int]);
        if !is_code_char_exec(c) {
            break;
        }
        let digit = code_digit_exec(c);
        proof {
            assert(s.subrange(b, j + 1).drop_last() =~= s.subrange(b, j as int));
            lemma_leading_code_split(s, b, j + 1);
            lemma_base36_value_grows(
                s.subrange(b, j + 1),
                leading_code(s.subrange(j + 1, n as int)),
            );
        }
        match packed.checked_mul(36) {
            Some(x) => match x.checked_add(digit) {
                Some(y) => {
                    packed = y;
                },
                None => {
                    return None;
                },
            },
            None => {
                return None;
            },
        }
        j = j + 1;
    }
    proof {
        lemma_leading_code_split(s, b, j as int);
        if j < n {
            assert(!is_code_char(s[j as int]));
        }
        assert(leading_code(s.subrange(j as int, n as int)) =~= Seq::<char>::empty());
        assert(s.subrange(b, j as int) + Seq::<char>::empty() =~= s.subrange(b, j as int));
        assert(s[b] == s.subrange(b, n as int)[0]);
    }
    let seed = packed / 4;
    if seed > 0xffff_ffffu64 {
        return None;  // not one of our codes
    }
    let difficulty = match Difficulty::from_index((packed % 4) as usize) {
        Some(d) => d,
        None => {
            return None;
        },
    };
    Some((difficulty, seed as u32))
}


/// The lowercase form of an ASCII letter; other characters are unchanged.
pub open spec fn ascii_lower(c: char) -> char {
    if 'A' <= c && c <= 'Z' {
        (c as int + 32) as char
    } else {
        c
    }
}

/// `u` is `t` with any of its letters written in lowercase.
pub open spec fn same_ignoring_case(u: Seq<char>, t: Seq<char>) -> bool {
    u.len() == t.len() && forall|i: int|
        0 <= i < t.len() ==> #[trigger] u[i] == t[i] || u[i] == ascii_lower(t[i])
}

/// An uppercase base-36 digit character.
pub open spec fn is_upper_code_char(c: char) -> bool {
    ('0' <= c && c <= '9') || ('A' <= c && c <= 'Z')
}

proof fn lemma_base36_text(n: nat)
    ensures
        base36_text(n).len() >= 1,
        forall|i: int|
            0 <= i < base36_text(n).len() ==> is_upper_code_char(#[trigger] base36_text(n)[i]),
        base36_value(base36_text(n)) == n,
    decreases n,
{
    let c = base36_char(n % 36);
    if n % 36 < 10 {
        assert(c as int == 48 + n % 36);
    } else {
        assert(c as int == 55 + n % 36);
    }
    assert(is_upper_code_char(c) && code_digit(c) == n % 36);
    if n < 36 {
        assert(base36_text(n).drop_last() =~= Seq::<char>::empty());
        assert(base36_text(n).last() == c);
        assert(base36_value(Seq::<char>::empty()) == 0);
        assert(base36_value(base36_text(n)) == code_digit(c));
    } else {
        lemma_base36_text(n / 36);
        assert(base36_text(n).drop_last() =~= base36_text(n / 36));
        assert(base36_text(n).last() == c);
        assert(n == (n / 36) * 36 + n % 36);
        assert(base36_value(base36_text(n)) == base36_value(base36_text(n / 36)) * 36
            + code_digit(c));
    }
}

proof fn lemma_value_ignores_case(u: Seq<char>, t: Seq<char>)
    requires
        same_ignoring_case(u, t),
        forall|i: int| 0 <= i < t.len() ==> is_upper_code_char(#[trigger] t[i]),
    ensures
        base36_value(u) == base36_value(t),
        forall|i: int| 0 <= i < u.len() ==> is_code_char(#[trigger] u[i]),
    decreases t.len(),
{
    if t.len() > 0 {
        lemma_value_ignores_case(u.drop_last(), t.drop_last());
        let c = t.last();
        assert(u.last() == t[t.len() - 1] || u.last() == ascii_lower(t[t.len() - 1]));
        if 'A' <= c && c <= 'Z' {
            assert(ascii_lower(c) as int == c as int + 32);
        }
        assert(code_digit(u.last()) == code_digit(c));
        assert forall|i: int| 0 <= i < u.len() implies is_code_char(#[trigger] u[i]) by {
            if i < u.len() - 1 {
                assert(u[i] == u.drop_last()[i]);
            } else {
                assert(is_upper_code_char(t[i]));
                if 'A' <= t[i] && t[i] <= 'Z' {
                    assert(ascii_lower(t[i]) as int == t[i] as int + 32);
                }
            }
        }
    }
}

proof fn lemma_after_last_hash_append(x: Seq<char>, y: Seq<char>)
    requires
        forall|i: int| 0 <= i < y.len() ==> #[trigger] y[i] != '#',
    ensures
        after_last_hash(x + y) == after_last_hash(x) + y,
    decreases y.len(),
{
    if y.len() == 0 {
        assert(x + y =~= x);
        assert(after_last_hash(x) + y =~= after_last_hash(x));
    } else {
        lemma_after_last_hash_append(x, y.drop_last());
        assert((x + y).drop_last() =~= x + y.drop_last());
        assert((x + y).last() == y.last());
        assert((after_last_hash(x) + y.drop_last()).push(y.last()) =~= after_last_hash(x) + y);
    }
}

proof fn lemma_leading_code_whole(u: Seq<char>, q: Seq<char>)
    requires
        forall|i: int| 0 <= i < u.len() ==> is_code_char(#[trigger] u[i]),
        q.len() == 0 || !is_code_char(q[0]),
    ensures
        leading_code(u + q) == u,
    decreases u.len(),
{
    if u.len() == 0 {
        assert(u + q =~= q);
    } else {
        lemma_leading_code_whole(u.drop_first(), q);
        assert((u + q).drop_first() =~= u.drop_first() + q);
        assert((u + q)[0] == u[0]);
        assert(seq![u[0]] + u.drop_first() =~= u);
    }
}

/// Decoding the code of a puzzle gives back its difficulty and seed.
pub proof fn law_share_code_roundtrip(d: Difficulty, seed: u32)
    ensures
        decoded(base36_text(packed_code(d, seed))) == Some((d, seed)),
{
    let t = base36_text(packed_code(d, seed));
    lemma_base36_text(packed_code(d, seed));
    lemma_after_last_hash_append(Seq::<char>::empty(), t);
    assert(Seq::<char>::empty() + t =~= t);
    lemma_leading_code_whole(t, Seq::<char>::empty());
    assert(t + Seq::<char>::empty() =~= t);
    assert(is_code_char(t[0]));
}

/// A code still decodes to its puzzle when it is pasted with any of its letters
/// in lowercase, after a `#`, with any text before that and, after it, text that
/// holds no `#` and does not start with a letter or digit.
pub proof fn law_share_code_in_text(
    d: Difficulty,
    seed: u32,
    before: Seq<char>,
    code: Seq<char>,
    after: Seq<char>,
)
    requires
        same_ignoring_case(code, base36_text(packed_code(d, seed))),
        forall|i: int| 0 <= i < after.len() ==> #[trigger] after[i] != '#',
        after.len() == 0 || !is_code_char(after[0]),
    ensures
        decoded(before + seq!['#'] + code + after) == Some((d, seed)),
{
    let t = base36_text(packed_code(d, seed));
    lemma_base36_text(packed_code(d, seed));
    lemma_value_ignores_case(code, t);
    let y = code + after;
    assert forall|i: int| 0 <= i < y.len() implies #[trigger] y[i] != '#' by {
        if i < code.len() {
            assert(is_code_char(code[i]));
        } else {
            assert(y[i] == after[i - code.len()]);
        }
    }
    let x = before + seq!['#'];
    assert(before + seq!['#'] + code + after =~= x + y);
    lemma_after_last_hash_append(x, y);
    assert(x.last() == '#');
    assert(after_last_hash(x) =~= Seq::<char>::empty());
    assert(Seq::<char>::empty() + y =~= y);
    assert(y[0] == code[0]);
    lemma_leading_code_whole(code, after);
}

} // verus!
