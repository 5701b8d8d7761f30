use sudoku_gen::grid::Grid;
use sudoku_gen::oracle::{is_unique_solution, solve};

fn grid_from(rows: [[u8; 9]; 9]) -> Grid {
    let mut cells: Vec<u8> = Vec::new();
    for row in rows.iter() {
        for &d in row.iter() {
            cells.push(d);
        }
    }
    Grid::from_cells(cells).unwrap()
}

fn fixture() -> [[u8; 9]; 9] {
    [
        [5, 3, 0, 0, 7, 0, 0, 0, 0],
        [6, 0, 0, 1, 9, 5, 0, 0, 0],
        [0, 9, 8, 0, 0, 0, 0, 6, 0],
        [8, 0, 0, 0, 6, 0, 0, 0, 3],
        [4, 0, 0, 8, 0, 3, 0, 0, 1],
        [7, 0, 0, 0, 2, 0, 0, 0, 6],
        [0, 6, 0, 0, 0, 0, 2, 8, 0],
        [0, 0, 0, 4, 1, 9, 0, 0, 5],
        [0, 0, 0, 0, 8, 0, 0, 7, 9],
    ]
}

#[test]
fn test_solve_unique_solution() {
    let mut table = grid_from(fixture());
    assert_eq!(solve(&mut table, 0, 0, 0), 1);
}

#[test]
fn test_solve_multiple_solutions() {
    let mut table = grid_from([
        [5, 3, 0, 0, 7, 0, 0, 0, 0],
        [6, 0, 0, 1, 9, 5, 0, 0, 0],
        [0, 9, 8, 0, 0, 0, 0, 6, 0],
        [8, 0, 0, 0, 6, 0, 0, 0, 3],
        [4, 0, 0, 8, 0, 3, 0, 0, 1],
        [7, 0, 0, 0, 2, 0, 0, 0, 6],
        [0, 6, 0, 0, 0, 0, 2, 8, 0],
        [0, 0, 0, 4, 1, 9, 0, 0, 5],
        [0, 0, 0, 0, 8, 0, 0, 0, 0],
    ]);
    table.set_cell(8, 8, 0); // Make the puzzle have multiple solutions
    assert!(solve(&mut table, 0, 0, 0) > 1);
}

#[test]
fn test_solve_no_solution() {
    let mut table = grid_from(fixture());
    table.set_cell(0, 0, 9); // Make the puzzle unsolvable
    assert_eq!(solve(&mut table, 0, 0, 0), 0);
}

#[test]
fn test_solve_restores_grid_when_count_at_most_one() {
    let mut table = grid_from(fixture());
    let before: Vec<u8> = (0..81).map(|i| table.get(i / 9, i % 9)).collect();
    let r = solve(&mut table, 0, 0, 0);
    assert_eq!(r, 1);
    for i in 0..81usize {
        assert_eq!(table.get(i / 9, i % 9), before[i]);
    }
}

#[test]
fn test_is_unique_solution_on_fixture() {
    let table = grid_from(fixture());
    assert!(is_unique_solution(&table));
}

#[test]
fn test_is_unique_solution_rejects_ambiguous_grid() {
    let mut table = grid_from(fixture());
    table.set_cell(8, 7, 0);
    table.set_cell(8, 8, 0);
    assert!(!is_unique_solution(&table));
}

#[test]
fn test_is_unique_solution_rejects_contradictory_grid() {
    let mut table = grid_from(fixture());
    table.set_cell(0, 0, 9);
    assert!(!is_unique_solution(&table));
}
