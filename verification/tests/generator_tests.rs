use sudoku_gen::filler::create_solved_table;
use sudoku_gen::grid::Grid;
use sudoku_gen::oracle::is_unique_solution;
use sudoku_gen::puncher::{remove_numbers, try_remove_cell};

fn grid_from(rows: [[u8; 9]; 9]) -> Grid {
    let mut cells: Vec<u8> = Vec::new();
    for row in rows.iter() {
        for &d in row.iter() {
            cells.push(d);
        }
    }
    Grid::from_cells(cells).unwrap()
}

fn fixture() -> [[u8; 9]; 9] {
    [
        [5, 3, 0, 0, 7, 0, 0, 0, 0],
        [6, 0, 0, 1, 9, 5, 0, 0, 0],
        [0, 9, 8, 0, 0, 0, 0, 6, 0],
        [8, 0, 0, 0, 6, 0, 0, 0, 3],
        [4, 0, 0, 8, 0, 3, 0, 0, 1],
        [7, 0, 0, 0, 2, 0, 0, 0, 6],
        [0, 6, 0, 0, 0, 0, 2, 8, 0],
        [0, 0, 0, 4, 1, 9, 0, 0, 5],
        [0, 0, 0, 0, 8, 0, 0, 7, 9],
    ]
}

fn count_zeros(g: &Grid) -> usize {
    let mut n = 0;
    for i in 0..81usize {
        if g.get(i / 9, i % 9) == 0 {
            n += 1;
        }
    }
    n
}

fn assert_unit_is_permutation(values: [u8; 9]) {
    for d in 1..=9u8 {
        assert!(
            values.iter().filter(|&&v| v == d).count() == 1,
            "digit {} does not appear exactly once in {:?}",
            d,
            values
        );
    }
}

#[test]
fn test_filler_produces_complete_valid_grid() {
    let g = create_solved_table();
    for r in 0..9usize {
        let mut row = [0u8; 9];
        for c in 0..9usize {
            row[c] = g.get(r, c);
        }
        assert_unit_is_permutation(row);
    }
    for c in 0..9usize {
        let mut col = [0u8; 9];
        for r in 0..9usize {
            col[r] = g.get(r, c);
        }
        assert_unit_is_permutation(col);
    }
    for br in [0usize, 3, 6] {
        for bc in [0usize, 3, 6] {
            let mut boxed = [0u8; 9];
            for i in 0..3usize {
                for j in 0..3usize {
                    boxed[i * 3 + j] = g.get(br + i, bc + j);
                }
            }
            assert_unit_is_permutation(boxed);
        }
    }
}

#[test]
fn test_puncher_reaches_target_and_keeps_uniqueness() {
    let mut table = create_solved_table();
    let success = remove_numbers(&mut table, 40);
    assert!(success);
    assert_eq!(count_zeros(&table), 40);
    assert!(is_unique_solution(&table));
}

#[test]
fn test_puncher_zero_target_succeeds_immediately() {
    let mut table = create_solved_table();
    let success = remove_numbers(&mut table, 0);
    assert!(success);
    assert_eq!(count_zeros(&table), 0);
}

#[test]
fn test_rejected_removal_restores_cell_exactly() {
    // with (8, 7) already cleared, clearing (8, 8) as well admits
    // several completions, so the oracle rejects the removal and the
    // attempt must leave every cell exactly as it was
    let mut table = grid_from(fixture());
    table.set_cell(8, 7, 0);
    let before: Vec<u8> = (0..81).map(|i| table.get(i / 9, i % 9)).collect();
    let removed = try_remove_cell(&mut table, 8, 8);
    assert!(!removed);
    for i in 0..81usize {
        assert_eq!(table.get(i / 9, i % 9), before[i]);
    }
}

#[test]
fn test_accepted_removal_empties_only_that_cell() {
    // row 4 of the fixture keeps a unique solution when (4, 0) is
    // cleared, so the removal is kept
    let mut table = grid_from(fixture());
    let before: Vec<u8> = (0..81).map(|i| table.get(i / 9, i % 9)).collect();
    let removed = try_remove_cell(&mut table, 4, 0);
    if removed {
        for i in 0..81usize {
            if i == 4 * 9 {
                assert_eq!(table.get(4, 0), 0);
            } else {
                assert_eq!(table.get(i / 9, i % 9), before[i]);
            }
        }
    } else {
        for i in 0..81usize {
            assert_eq!(table.get(i / 9, i % 9), before[i]);
        }
    }
}
