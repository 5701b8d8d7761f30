use sudoku_gen::grid::{is_safe, used_in_box, used_in_col, used_in_row, Grid};

fn grid_from(rows: [[u8; 9]; 9]) -> Grid {
    let mut cells: Vec<u8> = Vec::new();
    for row in rows.iter() {
        for &d in row.iter() {
            cells.push(d);
        }
    }
    Grid::from_cells(cells).unwrap()
}

fn fixture() -> [[u8; 9]; 9] {
    [
        [5, 3, 0, 0, 7, 0, 0, 0, 0],
        [6, 0, 0, 1, 9, 5, 0, 0, 0],
        [0, 9, 8, 0, 0, 0, 0, 6, 0],
        [8, 0, 0, 0, 6, 0, 0, 0, 3],
        [4, 0, 0, 8, 0, 3, 0, 0, 1],
        [7, 0, 0, 0, 2, 0, 0, 0, 6],
        [0, 6, 0, 0, 0, 0, 2, 8, 0],
        [0, 0, 0, 4, 1, 9, 0, 0, 5],
        [0, 0, 0, 0, 8, 0, 0, 7, 9],
    ]
}

#[test]
fn test_new_empty_is_all_zero() {
    let g = Grid::new_empty();
    for r in 0..9usize {
        for c in 0..9usize {
            assert_eq!(g.get(r, c), 0);
        }
    }
}

#[test]
fn test_from_cells_rejects_wrong_length() {
    assert!(Grid::from_cells(vec![0u8; 80]).is_none());
    assert!(Grid::from_cells(vec![0u8; 82]).is_none());
    assert!(Grid::from_cells(Vec::new()).is_none());
}

#[test]
fn test_from_cells_rejects_out_of_range_digit() {
    let mut cells = vec![0u8; 81];
    cells[40] = 10;
    assert!(Grid::from_cells(cells).is_none());
}

#[test]
fn test_from_cells_accepts_and_keeps_values() {
    let g = grid_from(fixture());
    assert_eq!(g.get(0, 0), 5);
    assert_eq!(g.get(0, 4), 7);
    assert_eq!(g.get(8, 8), 9);
    assert_eq!(g.get(4, 3), 8);
    assert_eq!(g.get(2, 0), 0);
}

#[test]
fn test_set_cell_changes_only_that_cell() {
    let mut g = grid_from(fixture());
    let before: Vec<u8> = (0..81).map(|i| g.get(i / 9, i % 9)).collect();
    g.set_cell(3, 5, 7);
    for i in 0..81usize {
        if i == 3 * 9 + 5 {
            assert_eq!(g.get(i / 9, i % 9), 7);
        } else {
            assert_eq!(g.get(i / 9, i % 9), before[i]);
        }
    }
}

#[test]
fn test_duplicate_is_equal_and_independent() {
    let g = grid_from(fixture());
    let mut copy = g.duplicate();
    for i in 0..81usize {
        assert_eq!(copy.get(i / 9, i % 9), g.get(i / 9, i % 9));
    }
    copy.set_cell(0, 2, 4);
    assert_eq!(g.get(0, 2), 0);
    assert_eq!(copy.get(0, 2), 4);
}

#[test]
fn test_used_in_row() {
    let g = grid_from(fixture());
    assert!(used_in_row(&g, 0, 5));
    assert!(used_in_row(&g, 0, 7));
    assert!(!used_in_row(&g, 0, 9));
    assert!(used_in_row(&g, 8, 9));
}

#[test]
fn test_used_in_col() {
    let g = grid_from(fixture());
    assert!(used_in_col(&g, 0, 5));
    assert!(used_in_col(&g, 0, 8));
    assert!(!used_in_col(&g, 0, 9));
    assert!(used_in_col(&g, 8, 1));
}

#[test]
fn test_used_in_box() {
    let g = grid_from(fixture());
    assert!(used_in_box(&g, 0, 0, 9));
    assert!(used_in_box(&g, 0, 0, 5));
    assert!(!used_in_box(&g, 0, 0, 4));
    assert!(used_in_box(&g, 6, 6, 7));
}

#[test]
fn test_is_safe_does_not_mutate_grid() {
    let g = grid_from(fixture());
    let before: Vec<u8> = (0..81).map(|i| g.get(i / 9, i % 9)).collect();
    for r in 0..9usize {
        for c in 0..9usize {
            for d in 1..=9u8 {
                let _ = is_safe(&g, r, c, d);
            }
        }
    }
    for i in 0..81usize {
        assert_eq!(g.get(i / 9, i % 9), before[i]);
    }
}

#[test]
fn test_is_safe_on_fixture() {
    let g = grid_from(fixture());
    // (0, 2) is empty; 4 conflicts with nothing in its row, column, or box
    assert!(is_safe(&g, 0, 2, 4));
    // 5 already stands in row 0
    assert!(!is_safe(&g, 0, 2, 5));
    // 8 already stands in column 2 (row 2)
    assert!(!is_safe(&g, 0, 2, 8));
    // 6 already stands in the top-left box (row 1)
    assert!(!is_safe(&g, 0, 2, 6));
}
