use sudoku::generator::{
    count_solutions, decode_code, encode_code, fill, generate, generate_seeded, valid, Difficulty,
    SeededRng,
};

type Grid = [u8; 81];

fn is_full_valid(grid: &Grid) -> bool {
    grid.iter().all(|&v| (1..=9).contains(&v))
        && (0..81).all(|i| {
            let v = grid[i];
            let mut tmp = *grid;
            tmp[i] = 0;
            valid(&tmp, i, v)
        })
}

#[test]
fn fill_produces_valid_solution() {
    let mut grid: Grid = [0; 81];
    assert!(fill(&mut grid, &mut SeededRng::from_seed(rand::random::<u64>())));
    assert!(is_full_valid(&grid));
}

#[test]
fn same_seed_reproduces_the_same_puzzle() {
    for diff in Difficulty::ALL {
        let a = generate_seeded(diff, 123_456);
        let b = generate_seeded(diff, 123_456);
        assert_eq!(a.solution, b.solution);
        assert_eq!(a.seed, 123_456);
        for i in 0..81 {
            assert_eq!(a.board.value(i / 9, i % 9), b.board.value(i / 9, i % 9));
        }
    }
    // A different seed should (essentially always) give a different board.
    let a = generate_seeded(Difficulty::Easy, 1);
    let b = generate_seeded(Difficulty::Easy, 2);
    assert_ne!(a.solution, b.solution);
}

#[test]
fn share_code_roundtrips() {
    for diff in Difficulty::ALL {
        for &seed in &[0u32, 1, 42, 123_456, u32::MAX] {
            let code = encode_code(diff, seed);
            assert_eq!(decode_code(&code), Some((diff, seed)));
            // Case-insensitive, and tolerant of a '#' prefix and trailing text.
            let messy = format!("Puzzle #{} — come beat my time!", code.to_lowercase());
            assert_eq!(decode_code(&messy), Some((diff, seed)));
        }
    }
    assert_eq!(decode_code(""), None);
    assert_eq!(decode_code("###"), None);
}

#[test]
fn generated_puzzles_are_unique_and_solvable() {
    for diff in [
        Difficulty::Easy,
        Difficulty::Medium,
        Difficulty::Hard,
        Difficulty::Expert,
    ] {
        let p = generate(diff);
        assert!(is_full_valid(&p.solution));

        // Reconstruct the flat puzzle from the board's givens.
        let mut grid: Grid = [0; 81];
        for r in 0..9 {
            for c in 0..9 {
                if let Some(v) = p.board.value(r, c) {
                    grid[r * 9 + c] = v;
                }
            }
        }
        // Exactly one solution, and it equals the stored solution.
        let mut probe = grid;
        assert_eq!(count_solutions(&mut probe, 2), 1);
        let mut solved = grid;
        fill(&mut solved, &mut SeededRng::from_seed(rand::random::<u64>()));
        assert_eq!(solved, p.solution);
    }
}

#[test]
fn encode_code_exact_values() {
    // (seed << 2 | index) in uppercase base 36.
    assert_eq!(encode_code(Difficulty::Easy, 0), "0");
    assert_eq!(encode_code(Difficulty::Expert, 0), "3");
    assert_eq!(encode_code(Difficulty::Medium, 9), "11"); // 37
    assert_eq!(encode_code(Difficulty::Hard, 1_000_000), "2DQF6"); // 4_000_002
    assert_eq!(encode_code(Difficulty::Expert, u32::MAX), "7W4G7WF");
}

#[test]
fn decode_code_edge_cases() {
    assert_eq!(decode_code("  11  "), Some((Difficulty::Medium, 9)));
    // Only the text after the last '#' counts.
    assert_eq!(decode_code("#zz #11"), Some((Difficulty::Medium, 9)));
    // The token stops at the first separator.
    assert_eq!(decode_code("11-ZZZZ"), Some((Difficulty::Medium, 9)));
    // A seed that does not fit in 32 bits is not one of ours.
    assert_eq!(decode_code("7W4G7WG"), None);
    // Overflowing 64 bits.
    assert_eq!(decode_code("ZZZZZZZZZZZZZZZZZZZZ"), None);
    assert_eq!(decode_code("# !"), None);
}

#[test]
fn difficulty_index_label_badge_next() {
    for (i, d) in Difficulty::ALL.iter().enumerate() {
        assert_eq!(d.index(), i);
        assert_eq!(Difficulty::from_index(i), Some(*d));
        assert_eq!(d.next().next().next().next(), *d);
    }
    assert_eq!(Difficulty::from_index(4), None);
    assert_eq!(Difficulty::Expert.next(), Difficulty::Easy);
    assert_eq!(Difficulty::Hard.label(), "Hard");
    assert_eq!(Difficulty::Medium.badge(), "🟡");
}

#[test]
fn generated_clue_counts_reach_the_target() {
    for (diff, target) in [
        (Difficulty::Easy, 42),
        (Difficulty::Medium, 34),
        (Difficulty::Hard, 30),
        (Difficulty::Expert, 26),
    ] {
        let p = generate_seeded(diff, 7);
        assert_eq!(p.difficulty, diff);
        assert!(81 - p.board.empty_count() >= target);
        for i in 0..81 {
            let cell = p.board.cell(i / 9, i % 9);
            match cell.value {
                Some(v) => {
                    assert!(cell.given);
                    assert_eq!(v, p.solution[i]);
                }
                None => assert!(!cell.given),
            }
        }
    }
}

#[test]
fn count_solutions_on_small_cases() {
    // The full grid has one solution; removing one cell keeps it unique.
    let p = generate_seeded(Difficulty::Easy, 99);
    let mut full = p.solution;
    assert_eq!(count_solutions(&mut full, 2), 1);
    assert_eq!(full, p.solution); // the grid is restored
    full[40] = 0;
    assert_eq!(count_solutions(&mut full, 2), 1);
    // An empty grid has many; the count stops at the limit.
    let mut empty: Grid = [0; 81];
    assert!(count_solutions(&mut empty, 2) >= 2);
    assert_eq!(empty, [0; 81]);
}

#[test]
fn fill_reports_unsolvable_grids() {
    // Row 0 holds 1..=8 and column 8 a 9 below, so cell (0, 8) has no digit
    // left: the grid cannot be completed, and it comes back as it was.
    let mut grid: Grid = [0; 81];
    for c in 0..8 {
        grid[c] = (c + 1) as u8;
    }
    grid[17] = 9;
    let before = grid;
    assert!(!fill(&mut grid, &mut SeededRng::from_seed(3)));
    assert_eq!(grid, before);
}

#[test]
fn valid_checks_row_column_and_box() {
    let mut grid: Grid = [0; 81];
    grid[0] = 5;
    assert!(!valid(&grid, 8, 5)); // row
    assert!(!valid(&grid, 72, 5)); // column
    assert!(!valid(&grid, 20, 5)); // box
    assert!(valid(&grid, 40, 5));
    assert!(valid(&grid, 8, 6));
}

#[test]
fn seeded_fill_is_reproducible() {
    let mut a: Grid = [0; 81];
    let mut b: Grid = [0; 81];
    assert!(fill(&mut a, &mut SeededRng::from_seed(42)));
    assert!(fill(&mut b, &mut SeededRng::from_seed(42)));
    assert_eq!(a, b);
    assert!(is_full_valid(&a));
}

#[test]
fn carving_stops_at_the_target_or_when_every_clue_is_needed() {
    for diff in Difficulty::ALL {
        for seed in [1u32, 77, 9_999] {
            let p = generate_seeded(diff, seed);
            let mut grid: Grid = [0; 81];
            for i in 0..81 {
                grid[i] = p.board.value(i / 9, i % 9).unwrap_or(0);
            }
            let clues = grid.iter().filter(|&&v| v != 0).count();
            let target = match diff {
                Difficulty::Easy => 42,
                Difficulty::Medium => 34,
                Difficulty::Hard => 30,
                Difficulty::Expert => 26,
            };
            assert!(clues >= target);
            if clues > target {
                for i in 0..81 {
                    if grid[i] != 0 {
                        let mut probe = grid;
                        probe[i] = 0;
                        assert!(count_solutions(&mut probe, 2) >= 2);
                    }
                }
            }
        }
    }
}
