//! The hole puncher: removes digits from a solved board one at a
//! time, keeping a removal only when the uniqueness oracle certifies
//! that exactly one solution remains, and restoring the digit
//! otherwise.

use vstd::prelude::*;
use crate::grid::{
    Grid, cell_value, grid_complete, grid_valid, lemma_clear_preserves_valid,
    lemma_no_zeros_zero_count, lemma_zero_count_update, zero_count,
};
use crate::oracle::{completes_from, has_unique_solution, is_unique_solution};
use crate::rng::random_index;

verus! {

/// One removal attempt at (`row`, `col`): empties the cell, asks the
/// oracle, and either keeps the hole (the board changes in exactly
/// that one cell) or rolls back (the board is exactly as it was,
/// the remembered digit restored and no other cell altered). The
/// removal is kept exactly when the punched board still has a unique
/// full valid solution.
pub fn try_remove_cell(table: &mut Grid, row: usize, col: usize) -> (removed: bool)
    requires
        old(table).wf(),
        grid_valid(old(table)@),
        row < 9,
        col < 9,
        cell_value(old(table)@, row as int, col as int) != 0,
    ensures
        final(table).wf(),
        grid_valid(final(table)@),
        removed == has_unique_solution(old(table)@.update(row * 9 + col, 0)),
        removed ==> final(table)@ == old(table)@.update(row * 9 + col, 0),
        !removed ==> final(table)@ == old(table)@,
        removed ==> has_unique_solution(final(table)@),
{
    let ghost s0 = table@;
    let backup = table.get(row, col);
    table.set_cell(row, col, 0);
    proof {
        lemma_clear_preserves_valid(s0, row as int, col as int);
    }
    if is_unique_solution(table) {
        true
    } else {
        table.set_cell(row, col, backup);
        proof {
            assert(table@ =~= s0);
        }
        false
    }
}

/// Punches up to `count` holes into a solved board. Each attempt picks
/// a uniformly random cell; an already-empty cell costs the attempt
/// and does nothing else, a filled cell is tentatively emptied and the
/// removal is kept only if the oracle certifies a unique solution. The
/// run stops once `count` holes exist or after `2 * count` attempts,
/// whichever comes first; it succeeds exactly when the punched board
/// has `count` empty cells. Cells are only ever emptied, never changed
/// to another digit, and in every outcome the punched board still has
/// exactly one full valid solution.
#[verifier::loop_isolation(false)]
pub fn remove_numbers(table: &mut Grid, count: usize) -> (success: bool)
    requires
        old(table).wf(),
        grid_valid(old(table)@),
        grid_complete(old(table)@),
        count <= usize::MAX / 2,
    ensures
        final(table).wf(),
        grid_valid(final(table)@),
        forall|i: int|
            0 <= i < 81 && final(table)@[i] != old(table)@[i] ==> final(table)@[i] == 0,
        zero_count(final(table)@) <= count,
        success <==> zero_count(final(table)@) == count,
        has_unique_solution(final(table)@),
{
    let ghost s0 = table@;
    proof {
        lemma_no_zeros_zero_count(s0);
        assert(completes_from(s0, s0, 0));
        assert forall|t1: Seq<u8>, t2: Seq<u8>|
            #[trigger] completes_from(s0, t1, 0) && #[trigger] completes_from(
                s0,
                t2,
                0,
            ) implies t1 == t2 by {
            assert(t1 =~= s0);
            assert(t2 =~= s0);
        }
    }
    let mut attempts: usize = 0;
    let mut removed: usize = 0;
    while removed < count && attempts < count * 2
        invariant
            table.wf(),
            grid_valid(table@),
            removed <= count,
            attempts <= count * 2,
            zero_count(table@) == removed,
            forall|i: int| 0 <= i < 81 && table@[i] != s0[i] ==> table@[i] == 0,
            has_unique_solution(table@),
        decreases count * 2 - attempts,
    {
        let row = random_index();
        let col = random_index();
        if table.get(row, col) != 0 {
            let ghost before = table@;
            if try_remove_cell(table, row, col) {
                proof {
                    lemma_zero_count_update(before, row * 9 + col as int, 0);
                }
                removed += 1;
            }
        }
        attempts += 1;
    }
    removed == count
}

} // verus!
