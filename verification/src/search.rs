//! The mathematics of the backtracking search: what a completion of a partial
//! grid is, how many the search finds, and the facts that tie the two together.
use vstd::prelude::*;
use crate::board::same_unit;

verus! {

/// `v` may go at flat index `i` of `g`: no cell in a unit of `i` (itself
/// included) already holds it.
pub open spec fn placeable(g: Seq<u8>, i: int, v: u8) -> bool {
    forall|j: int| 0 <= j < 81 && #[trigger] same_unit(i, j) ==> g[j] != v
}

/// A flat 81-cell grid whose entries are 0 (empty) or a digit 1..=9.
pub open spec fn small_digits(g: Seq<u8>) -> bool {
    g.len() == 81 && forall|i: int| 0 <= i < 81 ==> #[trigger] g[i] <= 9
}

/// `c` fills every empty cell of `g` with a digit that no peer of that cell
/// holds in `c`, and keeps every filled cell of `g`.
pub open spec fn is_completion(g: Seq<u8>, c: Seq<u8>) -> bool {
    &&& g.len() == 81
    &&& c.len() == 81
    &&& forall|i: int| 0 <= i < 81 ==> 1 <= #[trigger] c[i] <= 9
    &&& forall|i: int| 0 <= i < 81 && g[i] != 0 ==> #[trigger] c[i] == g[i]
    &&& forall|i: int, j: int|
        0 <= i < 81 && 0 <= j < 81 && i != j && g[i] == 0 && #[trigger] same_unit(i, j) ==> c[i]
            != c[j]
}

/// A complete, valid Sudoku grid: every cell holds 1..=9 and no two cells of a
/// unit agree.
pub open spec fn is_solved_grid(c: Seq<u8>) -> bool {
    &&& c.len() == 81
    &&& forall|i: int| 0 <= i < 81 ==> 1 <= #[trigger] c[i] <= 9
    &&& forall|i: int, j: int|
        0 <= i < 81 && 0 <= j < 81 && i != j && #[trigger] same_unit(i, j) ==> c[i] != c[j]
}

/// Every filled cell of `g` holds the value of `c` at the same place.
pub open spec fn agrees_with(g: Seq<u8>, c: Seq<u8>) -> bool {
    forall|i: int| 0 <= i < 81 ==> #[trigger] g[i] == 0 || g[i] == c[i]
}

/// The first empty cell of `g` at or after `p`, or `g.len()` when there is none.
pub open spec fn first_empty(g: Seq<u8>, p: int) -> int
    decreases g.len() - p,
{
    if p >= g.len() {
        g.len() as int
    } else if g[p] == 0 {
        p
    } else {
        first_empty(g, p + 1)
    }
}

/// The grid with every cell empty.
pub open spec fn blank_grid() -> Seq<u8> {
    Seq::new(81, |i: int| 0u8)
}

/// Number of filled cells of `g`.
pub open spec fn num_givens(g: Seq<u8>) -> nat
    decreases g.len(),
{
    if g.len() == 0 {
        0
    } else {
        num_givens(g.drop_last()) + if g.last() != 0 {
            1nat
        } else {
            0nat
        }
    }
}

/// How many full grids the search reaches from `g` when it fills the empty
/// cells at or after `p` in order, trying each digit that may go there.
pub open spec fn search_count(g: Seq<u8>, p: int) -> nat
    decreases 81 - p, 10int,
{
    if p >= 81 {
        1
    } else if g[p] != 0 {
        search_count(g, p + 1)
    } else {
        branch_count(g, p, 9)
    }
}

/// The part of `search_count(g, p)` that comes from trying the digits 1..=k at
/// the empty cell `p`.
pub open spec fn branch_count(g: Seq<u8>, p: int, k: int) -> nat
    decreases 81 - p, k,
{
    if k <= 0 || p >= 81 {
        0
    } else {
        branch_count(g, p, k - 1) + branch_term(g, p, k)
    }
}

/// What the digit `k` contributes at the empty cell `p`.
pub open spec fn branch_term(g: Seq<u8>, p: int, k: int) -> nat
    decreases 81 - p, 0int,
{
    if 1 <= k <= 9 && 0 <= p < 81 && placeable(g, p, k as u8) {
        search_count(g.update(p, k as u8), p + 1)
    } else {
        0
    }
}

/// The number of completions of `g`, counted by the search.
pub open spec fn num_solutions(g: Seq<u8>) -> nat {
    search_count(g, 0)
}

/// `first_empty` is the first empty cell at or after `p`.
pub proof fn lemma_first_empty(g: Seq<u8>, p: int)
    requires
        0 <= p <= g.len(),
    ensures
        p <= first_empty(g, p) <= g.len(),
        forall|i: int| p <= i < first_empty(g, p) ==> g[i] != 0,
        first_empty(g, p) < g.len() ==> g[first_empty(g, p)] == 0,
    decreases g.len() - p,
{
    if p < g.len() && g[p] != 0 {
        lemma_first_empty(g, p + 1);
    }
}

/// The search passes over filled cells without branching.
pub proof fn lemma_search_skips_filled(g: Seq<u8>, p: int, q: int)
    requires
        g.len() == 81,
        0 <= p <= q <= 81,
        forall|i: int| p <= i < q ==> g[i] != 0,
    ensures
        search_count(g, p) == search_count(g, q),
    decreases q - p,
{
    if p < q {
        lemma_search_skips_filled(g, p + 1, q);
    }
}

/// A completion of `g` is exactly a digit that may go at the empty cell `p`,
/// followed by a completion of `g` with that digit placed.
pub proof fn lemma_completion_step(g: Seq<u8>, c: Seq<u8>, p: int)
    requires
        g.len() == 81,
        c.len() == 81,
        0 <= p < 81,
        g[p] == 0,
    ensures
        is_completion(g, c) <==> (1 <= c[p] <= 9 && placeable(g, p, c[p]) && is_completion(
            g.update(p, c[p]),
            c,
        )),
{
    let v = c[p];
    let g2 = g.update(p, v);
    if is_completion(g, c) {
        assert forall|j: int| 0 <= j < 81 && #[trigger] same_unit(p, j) implies g[j] != v by {
            if j != p && g[j] != 0 {
                assert(c[j] == g[j]);
                assert(c[p] != c[j]);
            }
        }
        assert forall|i: int, j: int|
            0 <= i < 81 && 0 <= j < 81 && i != j && g2[i] == 0 && #[trigger] same_unit(
                i,
                j,
            ) implies c[i] != c[j] by {
            assert(i != p);
            assert(g[i] == 0);
        }
        assert forall|i: int| 0 <= i < 81 && g2[i] != 0 implies #[trigger] c[i] == g2[i] by {
            if i != p {
                assert(g[i] != 0);
            }
        }
    }
    if 1 <= v <= 9 && placeable(g, p, v) && is_completion(g2, c) {
        assert forall|i: int, j: int|
            0 <= i < 81 && 0 <= j < 81 && i != j && g[i] == 0 && #[trigger] same_unit(
                i,
                j,
            ) implies c[i] != c[j] by {
            if i != p {
                assert(g2[i] == 0);
            } else {
                assert(same_unit(p, j));
                if g[j] != 0 {
                    assert(g2[j] == g[j]);
                    assert(c[j] == g2[j]);
                } else {
                    assert(g2[j] == 0);
                    assert(same_unit(j, i));
                }
            }
        }
        assert forall|i: int| 0 <= i < 81 && g[i] != 0 implies #[trigger] c[i] == g[i] by {
            assert(i != p);
            assert(g2[i] == g[i]);
        }
    }
}

/// How the partial sums of the branches reach one and two.
proof fn lemma_branch_sums(g: Seq<u8>, p: int, k: int)
    requires
        0 <= p < 81,
        0 <= k <= 9,
    ensures
        branch_count(g, p, k) >= 1 <==> exists|v: int|
            1 <= v <= k && #[trigger] branch_term(g, p, v) >= 1,
        branch_count(g, p, k) >= 2 <==> (exists|v: int|
            1 <= v <= k && #[trigger] branch_term(g, p, v) >= 2) || (exists|a: int, b: int|
            1 <= a < b <= k && #[trigger] branch_term(g, p, a) >= 1 && #[trigger] branch_term(
                g,
                p,
                b,
            ) >= 1),
    decreases k,
{
    if k > 0 {
        lemma_branch_sums(g, p, k - 1);
        let t = branch_term(g, p, k);
        assert(branch_count(g, p, k) == branch_count(g, p, k - 1) + t);
        if branch_count(g, p, k) >= 2 && t == 1 {
            let a = choose|v: int| 1 <= v <= k - 1 && #[trigger] branch_term(g, p, v) >= 1;
            assert(1 <= a < k && branch_term(g, p, a) >= 1 && branch_term(g, p, k) >= 1);
        }
        if exists|a: int, b: int|
            1 <= a < b <= k && #[trigger] branch_term(g, p, a) >= 1 && #[trigger] branch_term(
                g,
                p,
                b,
            ) >= 1 {
            let (a, b) = choose|a: int, b: int|
                1 <= a < b <= k && #[trigger] branch_term(g, p, a) >= 1 && #[trigger] branch_term(
                    g,
                    p,
                    b,
                ) >= 1;
            if b < k {
                assert(branch_count(g, p, k - 1) >= 2);
            } else {
                assert(branch_count(g, p, k - 1) >= 1);
            }
        }
    }
}

/// The search count reaches one exactly when a completion exists, and two
/// exactly when two different completions exist.
pub proof fn lemma_search_count_completions(g: Seq<u8>, p: int)
    requires
        small_digits(g),
        0 <= p <= 81,
        forall|i: int| 0 <= i < p ==> g[i] != 0,
    ensures
        search_count(g, p) >= 1 <==> exists|c: Seq<u8>| is_completion(g, c),
        search_count(g, p) >= 2 <==> exists|c1: Seq<u8>, c2: Seq<u8>|
            is_completion(g, c1) && is_completion(g, c2) && c1 != c2,
    decreases 81 - p,
{
    if p == 81 {
        assert(is_completion(g, g));
        assert forall|c: Seq<u8>| is_completion(g, c) implies c == g by {
            assert(c =~= g);
        }
    } else if g[p] != 0 {
        lemma_search_count_completions(g, p + 1);
    } else {
        lemma_branch_sums(g, p, 9);
        // What each digit contributes, and the completions that go with it.
        assert forall|v: int| 1 <= v <= 9 implies (#[trigger] branch_term(g, p, v) >= 1
            <==> exists|c: Seq<u8>| is_completion(g, c) && c[p] == v) && (branch_term(g, p, v)
            >= 2 <==> exists|c1: Seq<u8>, c2: Seq<u8>|
            is_completion(g, c1) && is_completion(g, c2) && c1 != c2 && c1[p] == v && c2[p]
                == v) by {
            let gv = g.update(p, v as u8);
            if placeable(g, p, v as u8) {
                lemma_search_count_completions(gv, p + 1);
                assert forall|c: Seq<u8>| is_completion(gv, c) implies is_completion(g, c)
                    && c[p] == v by {
                    assert(gv[p] == v);
                    lemma_completion_step(g, c, p);
                }
                assert forall|c: Seq<u8>| is_completion(g, c) && c[p] == v implies is_completion(
                    gv,
                    c,
                ) by {
                    lemma_completion_step(g, c, p);
                }
            } else {
                assert forall|c: Seq<u8>| is_completion(g, c) implies c[p] != v by {
                    lemma_completion_step(g, c, p);
                }
            }
        }
        if exists|c: Seq<u8>| is_completion(g, c) {
            let c = choose|c: Seq<u8>| is_completion(g, c);
            assert(1 <= c[p] <= 9);
            assert(branch_term(g, p, c[p] as int) >= 1);
        }
        if exists|c1: Seq<u8>, c2: Seq<u8>|
            is_completion(g, c1) && is_completion(g, c2) && c1 != c2 {
            let (c1, c2) = choose|c1: Seq<u8>, c2: Seq<u8>|
                is_completion(g, c1) && is_completion(g, c2) && c1 != c2;
            let a = c1[p] as int;
            let b = c2[p] as int;
            assert(1 <= a <= 9 && 1 <= b <= 9);
            if a == b {
                assert(branch_term(g, p, a) >= 2);
            } else if a < b {
                assert(branch_term(g, p, a) >= 1 && branch_term(g, p, b) >= 1);
            } else {
                assert(branch_term(g, p, b) >= 1 && branch_term(g, p, a) >= 1);
            }
        }
        if search_count(g, p) >= 2 {
            if exists|v: int| 1 <= v <= 9 && #[trigger] branch_term(g, p, v) >= 2 {
                let v = choose|v: int| 1 <= v <= 9 && #[trigger] branch_term(g, p, v) >= 2;
                assert(branch_term(g, p, v) >= 2);
            } else {
                let (a, b) = choose|a: int, b: int|
                    1 <= a < b <= 9 && #[trigger] branch_term(g, p, a) >= 1 && #[trigger] branch_term(
                        g,
                        p,
                        b,
                    ) >= 1;
                assert(branch_term(g, p, a) >= 1);
                assert(branch_term(g, p, b) >= 1);
                let c1 = choose|c: Seq<u8>| is_completion(g, c) && c[p] == a;
                let c2 = choose|c: Seq<u8>| is_completion(g, c) && c[p] == b;
                assert(c1 != c2);
            }
        }
    }
}

/// A grid whose search count is one has exactly one completion.
pub proof fn lemma_one_solution(g: Seq<u8>)
    requires
        small_digits(g),
        num_solutions(g) == 1,
    ensures
        exists|c: Seq<u8>| is_completion(g, c),
        forall|c1: Seq<u8>, c2: Seq<u8>|
            is_completion(g, c1) && is_completion(g, c2) ==> c1 == c2,
{
    lemma_search_count_completions(g, 0);
}

/// A solved grid completes every grid that agrees with it.
pub proof fn lemma_solution_completes(g: Seq<u8>, c: Seq<u8>)
    requires
        g.len() == 81,
        is_solved_grid(c),
        agrees_with(g, c),
    ensures
        is_completion(g, c),
{
    assert forall|i: int| 0 <= i < 81 && g[i] != 0 implies #[trigger] c[i] == g[i] by {
        assert(g[i] == 0 || g[i] == c[i]);
    }
}

/// A completion of the empty grid is a solved grid.
pub proof fn lemma_completion_of_blank(c: Seq<u8>)
    requires
        is_completion(blank_grid(), c),
    ensures
        is_solved_grid(c),
{
    let z = blank_grid();
    assert forall|i: int, j: int|
        0 <= i < 81 && 0 <= j < 81 && i != j && #[trigger] same_unit(i, j) implies c[i] != c[j] by {
        assert(z[i] == 0);
    }
}

/// The classic shifted pattern: row `r` is the digits 1..=9 rotated left by
/// `3 * (r % 3) + r / 3`.
pub open spec fn pattern_digit(i: int) -> u8 {
    ((3 * ((i / 9) % 3) + (i / 9) / 3 + i % 9) % 9 + 1) as u8
}

proof fn lemma_mod9_distinct(x: int, y: int)
    requires
        0 <= x < 18,
        0 <= y < 18,
        x != y,
        -9 < x - y < 9,
    ensures
        x % 9 != y % 9,
{
    if x >= 9 {
        assert(x % 9 == x - 9);
    } else {
        assert(x % 9 == x);
    }
    if y >= 9 {
        assert(y % 9 == y - 9);
    } else {
        assert(y % 9 == y);
    }
}

proof fn lemma_pattern_distinct(i: int, j: int)
    requires
        0 <= i < 81,
        0 <= j < 81,
        i != j,
        same_unit(i, j),
    ensures
        pattern_digit(i) != pattern_digit(j),
{
    let r1 = i / 9;
    let c1 = i % 9;
    let r2 = j / 9;
    let c2 = j % 9;
    assert(i == 9 * r1 + c1 && j == 9 * r2 + c2);
    assert(0 <= r1 < 9 && 0 <= r2 < 9);
    let a1 = r1 % 3;
    let b1 = r1 / 3;
    let a2 = r2 % 3;
    let b2 = r2 / 3;
    assert(r1 == 3 * b1 + a1 && r2 == 3 * b2 + a2);
    assert(0 <= b1 < 3 && 0 <= b2 < 3);
    let s1 = 3 * a1 + b1 + c1;
    let s2 = 3 * a2 + b2 + c2;
    assert(pattern_digit(i) == (s1 % 9 + 1) as u8);
    assert(pattern_digit(j) == (s2 % 9 + 1) as u8);
    assert(0 <= s1 < 18 && 0 <= s2 < 18);
    if r1 == r2 {
        assert(c1 != c2);
        lemma_mod9_distinct(s1, s2);
    } else if c1 == c2 {
        assert(a1 != a2 || b1 != b2);
        lemma_mod9_distinct(s1, s2);
    } else {
        assert(i / 27 == j / 27 && c1 / 3 == c2 / 3);
        assert(i / 27 == b1 && j / 27 == b2);
        let t = c1 / 3;
        let e1 = c1 % 3;
        let e2 = c2 % 3;
        assert(c1 == 3 * t + e1 && c2 == 3 * t + e2);
        assert(s1 - s2 == 3 * (a1 - a2) + (e1 - e2));
        lemma_mod9_distinct(s1, s2);
    }
}

/// The empty grid can be completed.
pub proof fn lemma_blank_has_completion()
    ensures
        exists|c: Seq<u8>| is_completion(blank_grid(), c),
{
    let z = blank_grid();
    let c = Seq::new(81, |i: int| pattern_digit(i));
    assert forall|i: int, j: int|
        0 <= i < 81 && 0 <= j < 81 && i != j && z[i] == 0 && #[trigger] same_unit(
            i,
            j,
        ) implies c[i] != c[j] by {
        lemma_pattern_distinct(i, j);
    }
    assert(is_completion(z, c));
}

/// Emptying a filled cell removes one given.
pub proof fn lemma_num_givens_clear(g: Seq<u8>, i: int)
    requires
        0 <= i < g.len(),
        g[i] != 0,
    ensures
        num_givens(g.update(i, 0u8)) + 1 == num_givens(g),
    decreases g.len(),
{
    let g2 = g.update(i, 0u8);
    if i == g.len() - 1 {
        assert(g2.drop_last() =~= g.drop_last());
    } else {
        assert(g2.drop_last() =~= g.drop_last().update(i, 0u8));
        lemma_num_givens_clear(g.drop_last(), i);
    }
}

/// The completions of `g`.
pub open spec fn completions(g: Seq<u8>) -> Set<Seq<u8>> {
    Set::new(|c: Seq<u8>| is_completion(g, c))
}

/// The completions of `g` whose digit at `p` is at most `k`.
pub open spec fn completions_upto(g: Seq<u8>, p: int, k: int) -> Set<Seq<u8>> {
    Set::new(|c: Seq<u8>| is_completion(g, c) && c[p] <= k)
}

/// The search counts the completions: there are finitely many, exactly as many
/// as the search reaches.
pub proof fn lemma_count_is_completions(g: Seq<u8>, p: int)
    requires
        small_digits(g),
        0 <= p <= 81,
        forall|i: int| 0 <= i < p ==> g[i] != 0,
    ensures
        completions(g).finite(),
        completions(g).len() == search_count(g, p),
    decreases 81 - p, 10int,
{
    if p == 81 {
        assert(is_completion(g, g));
        assert forall|c: Seq<u8>| #[trigger] completions(g).contains(c) <==> c == g by {
            if is_completion(g, c) {
                assert(c =~= g);
            }
        }
        assert(completions(g) =~= Set::<Seq<u8>>::empty().insert(g));
    } else if g[p] != 0 {
        lemma_count_is_completions(g, p + 1);
    } else {
        lemma_branch_completions(g, p, 9);
        assert(completions(g) =~= completions_upto(g, p, 9));
    }
}

/// The completions with digit at most `k` at the first empty cell `p` are
/// counted by the first `k` branches of the search.
proof fn lemma_branch_completions(g: Seq<u8>, p: int, k: int)
    requires
        small_digits(g),
        0 <= p < 81,
        g[p] == 0,
        forall|i: int| 0 <= i < p ==> g[i] != 0,
        0 <= k <= 9,
    ensures
        completions_upto(g, p, k).finite(),
        completions_upto(g, p, k).len() == branch_count(g, p, k),
    decreases 81 - p, k,
{
    broadcast use vstd::set::axiom_set_empty_finite, vstd::set::axiom_set_empty_len,
        vstd::set::axiom_set_union_finite, vstd::set_lib::lemma_set_disjoint_lens;

    if k == 0 {
        assert(completions_upto(g, p, 0) =~= Set::<Seq<u8>>::empty());
    } else {
        lemma_branch_completions(g, p, k - 1);
        let g2 = g.update(p, k as u8);
        let a = completions_upto(g, p, k - 1);
        let t = if placeable(g, p, k as u8) {
            completions(g2)
        } else {
            Set::<Seq<u8>>::empty()
        };
        if placeable(g, p, k as u8) {
            lemma_count_is_completions(g2, p + 1);
        }
        assert forall|c: Seq<u8>|
            #[trigger] completions_upto(g, p, k).contains(c) <==> a.contains(c) || t.contains(c) by {
            if c.len() == 81 {
                lemma_completion_step(g, c, p);
            }
        }
        assert(completions_upto(g, p, k) =~= a + t);
        assert(a.disjoint(t));
        vstd::set_lib::lemma_set_disjoint_lens(a, t);
        assert(t.len() == branch_term(g, p, k));
        assert(branch_count(g, p, k) == branch_count(g, p, k - 1) + branch_term(g, p, k));
    }
}

} // verus!
