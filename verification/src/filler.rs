//! The filler: randomized recursive backtracking that turns an empty
//! board into a complete, fully valid solution.

use vstd::prelude::*;
use crate::grid::{
    empty_board, Grid, cell_value, grid_complete, grid_valid, lemma_place_preserves_valid,
    lemma_zero_count_bounds, lemma_zero_count_update, zero_count,
};
use crate::oracle::{
    completes_from, lemma_completes_advance, lemma_completes_unplace, lemma_completion_digit_safe,
};
use crate::rng::shuffled_digits;

verus! {

/// Fills every empty cell of the board with a digit so that the board
/// becomes complete and valid, visiting cells in row-major order and
/// trying candidate digits in a random order. The search is
/// exhaustive: it succeeds exactly when the board has a completion,
/// and then the filled board is such a completion. On failure the
/// board is left exactly as it was; filled cells are never changed in
/// either case.
#[verifier::loop_isolation(false)]
pub fn fill_table(table: &mut Grid) -> (success: bool)
    requires
        old(table).wf(),
        grid_valid(old(table)@),
    ensures
        final(table).wf(),
        grid_valid(final(table)@),
        forall|i: int| 0 <= i < 81 && old(table)@[i] != 0 ==> final(table)@[i] == old(table)@[i],
        success ==> grid_complete(final(table)@),
        success ==> completes_from(old(table)@, final(table)@, 0),
        !success ==> final(table)@ == old(table)@,
        success <==> exists|t: Seq<u8>| #[trigger] completes_from(old(table)@, t, 0),
    decreases zero_count(table@),
{
    let ghost s0 = table@;
    let mut i: usize = 0;
    while i < 9
        invariant
            table@ == s0,
            i <= 9,
            forall|r: int, c: int|
                0 <= r < 9 && 0 <= c < 9 && r < i ==> #[trigger] cell_value(s0, r, c) != 0,
        decreases 9 - i,
    {
        let mut j: usize = 0;
        while j < 9
            invariant
                table@ == s0,
                i < 9,
                j <= 9,
                forall|c: int| 0 <= c < j ==> #[trigger] cell_value(s0, i as int, c) != 0,
            decreases 9 - j,
        {
            if table.get(i, j) == 0 {
                let ghost pos = i * 9 + j as int;
                proof {
                    assert forall|idx: int| 0 <= idx < pos implies s0[idx] != 0 by {
                        let r = idx / 9;
                        let c = idx % 9;
                        assert(idx == r * 9 + c);
                        assert(r < i || (r == i && c < j));
                        assert(cell_value(s0, r, c) != 0);
                    }
                }
                let nums = shuffled_digits();
                let mut k: usize = 0;
                while k < 9
                    invariant
                        table@ == s0,
                        k <= 9,
                        forall|k0: int, t: Seq<u8>|
                            0 <= k0 < k && #[trigger] completes_from(s0, t, pos) && t[pos]
                                == #[trigger] nums@[k0] ==> false,
                    decreases 9 - k,
                {
                    let num = nums[k];
                    if crate::grid::is_safe(table, i, j, num) {
                        table.set_cell(i, j, num);
                        proof {
                            lemma_place_preserves_valid(s0, i as int, j as int, num);
                            lemma_zero_count_update(s0, pos, num);
                            lemma_zero_count_bounds(table@);
                        }
                        if fill_table(table) {
                            proof {
                                assert forall|idx: int| 0 <= idx < 81 && s0[idx]
                                    != 0 implies table@[idx] == s0[idx] by {
                                    assert(s0.update(pos, num)[idx] == s0[idx]);
                                }
                                assert(completes_from(s0, table@, 0));
                            }
                            return true;
                        }
                        proof {
                            // the deeper search found nothing: no completion
                            // places this digit on this cell
                            assert forall|t: Seq<u8>|
                                #[trigger] completes_from(s0, t, pos) && t[pos]
                                    == num implies false by {
                                lemma_completes_unplace(s0, t, pos, num);
                                lemma_completes_advance(s0.update(pos, num), t, pos + 1);
                            }
                        }
                        table.set_cell(i, j, 0);
                        proof {
                            assert(table@ =~= s0);
                        }
                    } else {
                        proof {
                            // an unsafe digit cannot stand here in any
                            // completion
                            assert forall|t: Seq<u8>|
                                #[trigger] completes_from(s0, t, pos) && t[pos]
                                    == num implies false by {
                                lemma_completion_digit_safe(s0, t, i as int, j as int);
                            }
                        }
                    }
                    k += 1;
                }
                proof {
                    // every digit was refused: the board has no completion
                    assert forall|t: Seq<u8>| !#[trigger] completes_from(s0, t, 0) by {
                        if completes_from(s0, t, 0) {
                            lemma_completes_advance(s0, t, pos);
                            assert(1 <= t[pos] <= 9);
                            assert(nums@.contains(t[pos]));
                            let k0 = choose|k0: int| 0 <= k0 < nums@.len() && nums@[k0] == t[pos];
                            assert(completes_from(s0, t, pos) && t[pos] == nums@[k0]);
                        }
                    }
                }
                return false;
            }
            j += 1;
        }
        i += 1;
    }
    proof {
        assert forall|idx: int| 0 <= idx < 81 implies s0[idx] != 0 by {
            let r = idx / 9;
            let c = idx % 9;
            assert(idx == r * 9 + c);
            assert(cell_value(s0, r, c) != 0);
        }
        assert(completes_from(s0, s0, 0));
    }
    true
}

/// Produces a solved board: starts from an all-empty board and runs
/// the filler. The result is complete (and is then a full valid
/// solution grown from the empty board) exactly when the filler
/// succeeds, which its contract owes whenever the empty board has a
/// completion at all; otherwise it is still the all-empty board.
pub fn create_solved_table() -> (g: Grid)
    ensures
        g.wf(),
        grid_valid(g@),
        grid_complete(g@) ==> completes_from(empty_board(), g@, 0),
        grid_complete(g@) <==> exists|t: Seq<u8>| #[trigger] completes_from(empty_board(), t, 0),
        grid_complete(g@) || g@ == empty_board(),
{
    let mut g = Grid::new_empty();
    proof {
        assert forall|r1: int, c1: int, r2: int, c2: int|
            #![trigger cell_value(g@, r1, c1), cell_value(g@, r2, c2)]
            0 <= r1 < 9 && 0 <= c1 < 9 && 0 <= r2 < 9 && 0 <= c2 < 9
                && !(r1 == r2 && c1 == c2)
                && (r1 == r2 || c1 == c2 || (r1 / 3 == r2 / 3 && c1 / 3 == c2 / 3))
                && cell_value(g@, r1, c1) != 0
            implies cell_value(g@, r1, c1) != cell_value(g@, r2, c2) by {
            assert(g@[r1 * 9 + c1] == 0);
        }
    }
    let success = fill_table(&mut g);
    proof {
        if success {
            assert(grid_complete(g@));
        } else {
            assert(!grid_complete(g@)) by {
                assert(g@[0] == 0);
            }
        }
    }
    g
}

} // verus!
