use sudoku_gen::fingerprint::hash_table;
use sudoku_gen::grid::Grid;
use sudoku_gen::render::render_table;

fn grid_from(rows: [[u8; 9]; 9]) -> Grid {
    let mut cells: Vec<u8> = Vec::new();
    for row in rows.iter() {
        for &d in row.iter() {
            cells.push(d);
        }
    }
    Grid::from_cells(cells).unwrap()
}

fn fixture() -> [[u8; 9]; 9] {
    [
        [5, 3, 0, 0, 7, 0, 0, 0, 0],
        [6, 0, 0, 1, 9, 5, 0, 0, 0],
        [0, 9, 8, 0, 0, 0, 0, 6, 0],
        [8, 0, 0, 0, 6, 0, 0, 0, 3],
        [4, 0, 0, 8, 0, 3, 0, 0, 1],
        [7, 0, 0, 0, 2, 0, 0, 0, 6],
        [0, 6, 0, 0, 0, 0, 2, 8, 0],
        [0, 0, 0, 4, 1, 9, 0, 0, 5],
        [0, 0, 0, 0, 8, 0, 0, 7, 9],
    ]
}

#[test]
fn test_hash_of_empty_grid() {
    let g = Grid::new_empty();
    assert_eq!(hash_table(&g), 0x0edbe9edbe9a769f);
}

#[test]
fn test_hash_of_fixture_grid() {
    let g = grid_from(fixture());
    assert_eq!(hash_table(&g), 0xe66b430e65bc025b);
}

#[test]
fn test_hash_is_stable_and_value_sensitive() {
    let g = grid_from(fixture());
    let h1 = hash_table(&g);
    let h2 = hash_table(&g.duplicate());
    assert_eq!(h1, h2);
    let mut other = grid_from(fixture());
    other.set_cell(0, 2, 4);
    assert_ne!(hash_table(&other), h1);
}

#[test]
fn test_render_fixture_grid() {
    let g = grid_from(fixture());
    let out = render_table(&g);
    let expected = "5 3 . . 7 . . . . \n\
                    6 . . 1 9 5 . . . \n\
                    . 9 8 . . . . 6 . \n\
                    8 . . . 6 . . . 3 \n\
                    4 . . 8 . 3 . . 1 \n\
                    7 . . . 2 . . . 6 \n\
                    . 6 . . . . 2 8 . \n\
                    . . . 4 1 9 . . 5 \n\
                    . . . . 8 . . 7 9 \n";
    assert_eq!(out, expected.as_bytes());
}

#[test]
fn test_render_empty_grid_line_shape() {
    let g = Grid::new_empty();
    let out = render_table(&g);
    let text = String::from_utf8(out).unwrap();
    let lines: Vec<&str> = text.lines().collect();
    assert_eq!(lines.len(), 9);
    for line in lines {
        assert_eq!(line, ". . . . . . . . . ");
    }
}
