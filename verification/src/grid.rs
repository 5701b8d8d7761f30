//! The 9x9 grid and its validity primitives.

use vstd::prelude::*;

verus! {

/// A 9x9 sudoku board stored row-major as 81 cells; 0 marks an empty
/// cell, 1 through 9 a placed digit.
pub struct Grid {
    cells: Vec<u8>,
}

/// The digit at row `r`, column `c` of a row-major board.
pub open spec fn cell_value(s: Seq<u8>, r: int, c: int) -> u8 {
    s[r * 9 + c]
}

/// A well-formed board: 81 cells, each holding 0 (empty) or a digit 1-9.
pub open spec fn grid_wf(s: Seq<u8>) -> bool {
    &&& s.len() == 81
    &&& forall|i: int| 0 <= i < 81 ==> s[i] <= 9
}

/// Digit `d` appears somewhere in row `r`.
pub open spec fn row_contains(s: Seq<u8>, r: int, d: u8) -> bool {
    exists|c: int| 0 <= c < 9 && cell_value(s, r, c) == d
}

/// Digit `d` appears somewhere in column `c`.
pub open spec fn col_contains(s: Seq<u8>, c: int, d: u8) -> bool {
    exists|r: int| 0 <= r < 9 && cell_value(s, r, c) == d
}

/// Digit `d` appears somewhere in the 3x3 box whose top-left corner is
/// (`br`, `bc`).
pub open spec fn box_contains(s: Seq<u8>, br: int, bc: int, d: u8) -> bool {
    exists|i: int, j: int|
        0 <= i < 3 && 0 <= j < 3 && #[trigger] cell_value(s, br + i, bc + j) == d
}

/// Placing digit `d` at (`r`, `c`) violates no row, column, or box
/// constraint: `d` is absent from row `r`, from column `c`, and from
/// the 3x3 box containing (`r`, `c`).
pub open spec fn safe_at(s: Seq<u8>, r: int, c: int, d: u8) -> bool {
    &&& !row_contains(s, r, d)
    &&& !col_contains(s, c, d)
    &&& !box_contains(s, r - r % 3, c - c % 3, d)
}

/// Partial validity: no two equal non-zero digits share a row, a
/// column, or a 3x3 box.
pub open spec fn grid_valid(s: Seq<u8>) -> bool {
    forall|r1: int, c1: int, r2: int, c2: int|
        #![trigger cell_value(s, r1, c1), cell_value(s, r2, c2)]
        0 <= r1 < 9 && 0 <= c1 < 9 && 0 <= r2 < 9 && 0 <= c2 < 9
            && !(r1 == r2 && c1 == c2)
            && (r1 == r2 || c1 == c2 || (r1 / 3 == r2 / 3 && c1 / 3 == c2 / 3))
            && cell_value(s, r1, c1) != 0
            ==> cell_value(s, r1, c1) != cell_value(s, r2, c2)
}

/// The all-empty board.
pub open spec fn empty_board() -> Seq<u8> {
    Seq::new(81, |i: int| 0u8)
}

/// Every cell holds a digit (no cell is empty).
pub open spec fn grid_complete(s: Seq<u8>) -> bool {
    forall|i: int| 0 <= i < 81 ==> s[i] != 0
}

/// The number of empty cells of the board.
pub open spec fn zero_count(s: Seq<u8>) -> int
    decreases s.len(),
{
    if s.len() == 0 {
        0
    } else {
        zero_count(s.drop_last()) + if s.last() == 0 { 1int } else { 0int }
    }
}

impl View for Grid {
    type V = Seq<u8>;

    closed spec fn view(&self) -> Seq<u8> {
        self.cells@
    }
}

impl Grid {
    /// The board is well-formed.
    pub open spec fn wf(&self) -> bool {
        grid_wf(self@)
    }

    /// An all-empty board.
    pub fn new_empty() -> (g: Grid)
        ensures
            g.wf(),
            g@ == empty_board(),
    {
        let mut cells: Vec<u8> = Vec::new();
        let mut i: usize = 0;
        while i < 81
            invariant
                i <= 81,
                cells@.len() == i,
                forall|k: int| 0 <= k < i ==> cells@[k] == 0,
            decreases 81 - i,
        {
            cells.push(0);
            i += 1;
        }
        proof {
            assert(cells@ =~= empty_board());
        }
        Grid { cells }
    }

    /// Builds a board from 81 row-major cell values; rejects any input
    /// that is not 81 cells of values 0-9.
    pub fn from_cells(cells: Vec<u8>) -> (g: Option<Grid>)
        ensures
            g is Some <==> (cells@.len() == 81 && forall|i: int|
                0 <= i < 81 ==> cells@[i] <= 9),
            g is Some ==> g->Some_0@ == cells@ && g->Some_0.wf(),
    {
        if cells.len() != 81 {
            return None;
        }
        let mut i: usize = 0;
        while i < 81
            invariant
                i <= 81,
                cells@.len() == 81,
                forall|k: int| 0 <= k < i ==> cells@[k] <= 9,
            decreases 81 - i,
        {
            if cells[i] > 9 {
                return None;
            }
            i += 1;
        }
        Some(Grid { cells })
    }

    /// Reads the digit at (`row`, `col`).
    pub fn get(&self, row: usize, col: usize) -> (d: u8)
        requires
            self.wf(),
            row < 9,
            col < 9,
        ensures
            d == cell_value(self@, row as int, col as int),
    {
        self.cells[row * 9 + col]
    }

    /// Writes digit `d` at (`row`, `col`), leaving every other cell as
    /// it was.
    pub fn set_cell(&mut self, row: usize, col: usize, d: u8)
        requires
            old(self).wf(),
            row < 9,
            col < 9,
            d <= 9,
        ensures
            final(self)@ == old(self)@.update(row * 9 + col, d),
            final(self).wf(),
    {
        self.cells[row * 9 + col] = d;
    }

    /// An independent copy of the board.
    pub fn duplicate(&self) -> (g: Grid)
        ensures
            g@ == self@,
    {
        let mut cells: Vec<u8> = Vec::new();
        let mut i: usize = 0;
        while i < self.cells.len()
            invariant
                i <= self.cells.len(),
                cells@ =~= self.cells@.take(i as int),
            decreases self.cells.len() - i,
        {
            cells.push(self.cells[i]);
            i += 1;
        }
        proof {
            assert(cells@ =~= self.cells@);
        }
        Grid { cells }
    }
}

/// Reports whether digit `num` already appears in row `row`.
pub fn used_in_row(table: &Grid, row: usize, num: u8) -> (r: bool)
    requires
        table.wf(),
        row < 9,
    ensures
        r == row_contains(table@, row as int, num),
{
    let mut c: usize = 0;
    while c < 9
        invariant
            table.wf(),
            row < 9,
            c <= 9,
            forall|k: int| 0 <= k < c ==> cell_value(table@, row as int, k) != num,
        decreases 9 - c,
    {
        if table.get(row, c) == num {
            return true;
        }
        c += 1;
    }
    false
}

/// Reports whether digit `num` already appears in column `col`.
pub fn used_in_col(table: &Grid, col: usize, num: u8) -> (r: bool)
    requires
        table.wf(),
        col < 9,
    ensures
        r == col_contains(table@, col as int, num),
{
    let mut row: usize = 0;
    while row < 9
        invariant
            table.wf(),
            col < 9,
            row <= 9,
            forall|k: int| 0 <= k < row ==> cell_value(table@, k, col as int) != num,
        decreases 9 - row,
    {
        if table.get(row, col) == num {
            return true;
        }
        row += 1;
    }
    false
}

/// Reports whether digit `num` already appears in the 3x3 box whose
/// top-left corner is (`box_start_row`, `box_start_col`).
pub fn used_in_box(table: &Grid, box_start_row: usize, box_start_col: usize, num: u8) -> (r: bool)
    requires
        table.wf(),
        box_start_row <= 6,
        box_start_col <= 6,
    ensures
        r == box_contains(table@, box_start_row as int, box_start_col as int, num),
{
    let mut i: usize = 0;
    while i < 3
        invariant
            table.wf(),
            box_start_row <= 6,
            box_start_col <= 6,
            i <= 3,
            forall|a: int, b: int|
                0 <= a < i && 0 <= b < 3
                    ==> #[trigger] cell_value(table@, box_start_row + a, box_start_col + b) != num,
        decreases 3 - i,
    {
        let mut j: usize = 0;
        while j < 3
            invariant
                table.wf(),
                box_start_row <= 6,
                box_start_col <= 6,
                i < 3,
                j <= 3,
                forall|a: int, b: int|
                    0 <= a < i && 0 <= b < 3
                        ==> #[trigger] cell_value(table@, box_start_row + a, box_start_col + b) != num,
                forall|b: int|
                    0 <= b < j
                        ==> #[trigger] cell_value(table@, box_start_row + i, box_start_col + b) != num,
            decreases 3 - j,
        {
            if table.get(box_start_row + i, box_start_col + j) == num {
                return true;
            }
            j += 1;
        }
        i += 1;
    }
    false
}

/// Reports whether digit `num` may be placed at (`row`, `col`) without
/// violating the row, column, or box constraint. Takes the board by
/// shared reference, so it can never change a cell.
pub fn is_safe(table: &Grid, row: usize, col: usize, num: u8) -> (r: bool)
    requires
        table.wf(),
        row < 9,
        col < 9,
    ensures
        r == safe_at(table@, row as int, col as int, num),
{
    !used_in_row(table, row, num) && !used_in_col(table, col, num)
        && !used_in_box(table, row - row % 3, col - col % 3, num)
}

/// Placing a digit on an empty cell where it is safe preserves partial
/// validity.
pub proof fn lemma_place_preserves_valid(s: Seq<u8>, r: int, c: int, d: u8)
    requires
        grid_wf(s),
        grid_valid(s),
        0 <= r < 9,
        0 <= c < 9,
        1 <= d <= 9,
        cell_value(s, r, c) == 0,
        safe_at(s, r, c, d),
    ensures
        grid_wf(s.update(r * 9 + c, d)),
        grid_valid(s.update(r * 9 + c, d)),
{
    let s2 = s.update(r * 9 + c, d);
    assert forall|r1: int, c1: int, r2: int, c2: int|
        #![trigger cell_value(s2, r1, c1), cell_value(s2, r2, c2)]
        0 <= r1 < 9 && 0 <= c1 < 9 && 0 <= r2 < 9 && 0 <= c2 < 9
            && !(r1 == r2 && c1 == c2)
            && (r1 == r2 || c1 == c2 || (r1 / 3 == r2 / 3 && c1 / 3 == c2 / 3))
            && cell_value(s2, r1, c1) != 0
        implies cell_value(s2, r1, c1) != cell_value(s2, r2, c2) by {
        assert(r1 * 9 + c1 == r * 9 + c <==> r1 == r && c1 == c);
        assert(r2 * 9 + c2 == r * 9 + c <==> r2 == r && c2 == c);
        if r1 == r && c1 == c {
            lemma_conflict_is_unsafe(s, r, c, d, r2, c2);
        } else if r2 == r && c2 == c {
            lemma_conflict_is_unsafe(s, r, c, d, r1, c1);
        } else {
            assert(cell_value(s2, r1, c1) == cell_value(s, r1, c1));
            assert(cell_value(s2, r2, c2) == cell_value(s, r2, c2));
        }
    }
}

/// If some cell (`r2`, `c2`) distinct from (`r`, `c`) shares a unit
/// with (`r`, `c`) and holds digit `d`, then `d` is not safe at
/// (`r`, `c`).
proof fn lemma_conflict_is_unsafe(s: Seq<u8>, r: int, c: int, d: u8, r2: int, c2: int)
    requires
        0 <= r < 9,
        0 <= c < 9,
        0 <= r2 < 9,
        0 <= c2 < 9,
        !(r2 == r && c2 == c),
        r2 == r || c2 == c || (r2 / 3 == r / 3 && c2 / 3 == c / 3),
        safe_at(s, r, c, d),
    ensures
        cell_value(s, r2, c2) != d,
{
    if cell_value(s, r2, c2) == d {
        if r2 == r {
            assert(row_contains(s, r, d));
        } else if c2 == c {
            assert(col_contains(s, c, d));
        } else {
            let br = r - r % 3;
            let bc = c - c % 3;
            assert(br == 3 * (r / 3));
            assert(bc == 3 * (c / 3));
            let i = r2 - br;
            let j = c2 - bc;
            assert(0 <= i < 3);
            assert(0 <= j < 3);
            assert(cell_value(s, br + i, bc + j) == d);
            assert(box_contains(s, br, bc, d));
        }
    }
}

/// Emptying a cell preserves partial validity.
pub proof fn lemma_clear_preserves_valid(s: Seq<u8>, r: int, c: int)
    requires
        grid_wf(s),
        grid_valid(s),
        0 <= r < 9,
        0 <= c < 9,
    ensures
        grid_valid(s.update(r * 9 + c, 0)),
{
    let s2 = s.update(r * 9 + c, 0);
    assert forall|r1: int, c1: int, r2: int, c2: int|
        #![trigger cell_value(s2, r1, c1), cell_value(s2, r2, c2)]
        0 <= r1 < 9 && 0 <= c1 < 9 && 0 <= r2 < 9 && 0 <= c2 < 9
            && !(r1 == r2 && c1 == c2)
            && (r1 == r2 || c1 == c2 || (r1 / 3 == r2 / 3 && c1 / 3 == c2 / 3))
            && cell_value(s2, r1, c1) != 0
        implies cell_value(s2, r1, c1) != cell_value(s2, r2, c2) by {
        assert(r1 * 9 + c1 == r * 9 + c <==> r1 == r && c1 == c);
        assert(r2 * 9 + c2 == r * 9 + c <==> r2 == r && c2 == c);
        if r2 == r && c2 == c {
            assert(cell_value(s2, r2, c2) == 0);
            assert(cell_value(s2, r1, c1) != 0);
        } else {
            assert(cell_value(s2, r1, c1) == cell_value(s, r1, c1));
            assert(cell_value(s2, r2, c2) == cell_value(s, r2, c2));
        }
    }
}

/// How the empty-cell count changes when one cell is overwritten.
pub proof fn lemma_zero_count_update(s: Seq<u8>, i: int, v: u8)
    requires
        0 <= i < s.len(),
    ensures
        zero_count(s.update(i, v)) == zero_count(s) - (if s[i] == 0 { 1int } else { 0int })
            + (if v == 0 { 1int } else { 0int }),
    decreases s.len(),
{
    let s2 = s.update(i, v);
    if i == s.len() - 1 {
        assert(s2.drop_last() =~= s.drop_last());
    } else {
        assert(s2.drop_last() =~= s.drop_last().update(i, v));
        lemma_zero_count_update(s.drop_last(), i, v);
        assert(s2.last() == s.last());
    }
}

/// The empty-cell count lies between 0 and the cell count.
pub proof fn lemma_zero_count_bounds(s: Seq<u8>)
    ensures
        0 <= zero_count(s) <= s.len(),
    decreases s.len(),
{
    if s.len() > 0 {
        lemma_zero_count_bounds(s.drop_last());
    }
}

/// A board with no empty cell has an empty-cell count of zero.
pub proof fn lemma_no_zeros_zero_count(s: Seq<u8>)
    requires
        forall|i: int| 0 <= i < s.len() ==> s[i] != 0,
    ensures
        zero_count(s) == 0,
    decreases s.len(),
{
    if s.len() > 0 {
        lemma_no_zeros_zero_count(s.drop_last());
    }
}

} // verus!
