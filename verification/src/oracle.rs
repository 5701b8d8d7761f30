//! The uniqueness oracle: a bounded solution-counting search over a
//! partially filled board. It counts completions up to an early-exit
//! threshold of two, so the caller can decide "exactly one solution"
//! without the search ever enumerating more than a second one.

use vstd::prelude::*;
use crate::grid::{
    Grid, box_contains, cell_value, col_contains, grid_valid, grid_wf,
    lemma_place_preserves_valid, row_contains, safe_at,
};
use crate::rng::shuffled_digits;

verus! {

/// Board `t` is a completion of board `s` from position `pos` on
/// (positions are row-major cell indices): `t` is well-formed and
/// valid, it agrees with `s` on every cell before `pos` and on every
/// filled cell of `s`, and it leaves no cell from `pos` on empty. For
/// `pos == 0` this says exactly that `t` is a full valid solution of
/// the puzzle `s`.
pub open spec fn completes_from(s: Seq<u8>, t: Seq<u8>, pos: int) -> bool {
    &&& grid_wf(t)
    &&& grid_valid(t)
    &&& forall|i: int| 0 <= i < 81 && (i < pos || s[i] != 0) ==> t[i] == s[i]
    &&& forall|i: int| pos <= i < 81 ==> t[i] != 0
}

/// The board has no completion from `pos` on.
pub open spec fn no_completion_from(s: Seq<u8>, pos: int) -> bool {
    forall|t: Seq<u8>| !#[trigger] completes_from(s, t, pos)
}

/// Any two completions of the board from `pos` on coincide.
pub open spec fn at_most_one_completion_from(s: Seq<u8>, pos: int) -> bool {
    forall|t1: Seq<u8>, t2: Seq<u8>|
        #[trigger] completes_from(s, t1, pos) && #[trigger] completes_from(s, t2, pos)
            ==> t1 == t2
}

/// The board has exactly one full valid solution.
pub open spec fn has_unique_solution(s: Seq<u8>) -> bool {
    &&& exists|t: Seq<u8>| #[trigger] completes_from(s, t, 0)
    &&& at_most_one_completion_from(s, 0)
}

/// A completion from the position after a filled cell is a completion
/// from that cell as well, and conversely.
proof fn lemma_completes_skip(s: Seq<u8>, t: Seq<u8>, pos: int)
    requires
        0 <= pos < 81,
        s.len() == 81,
        s[pos] != 0,
        completes_from(s, t, pos + 1) || completes_from(s, t, pos),
    ensures
        completes_from(s, t, pos + 1) && completes_from(s, t, pos),
{
    assert(t[pos] == s[pos]);
}

/// A completion of the board with digit `d` placed at an empty cell
/// `pos`, taken from the next position, is a completion of the
/// unchanged board from `pos` whose digit at `pos` is `d`.
proof fn lemma_completes_place(s: Seq<u8>, t: Seq<u8>, pos: int, d: u8)
    requires
        0 <= pos < 81,
        s.len() == 81,
        s[pos] == 0,
        1 <= d <= 9,
        completes_from(s.update(pos, d), t, pos + 1),
    ensures
        completes_from(s, t, pos),
        t[pos] == d,
{
    let s2 = s.update(pos, d);
    assert(t[pos] == s2[pos]);
    assert forall|i: int| 0 <= i < 81 && (i < pos || s[i] != 0) implies #[trigger] t[i]
        == s[i] by {
        assert(s2[i] == s[i]);
    }
}

/// Conversely: a completion of the board from an empty cell `pos`
/// whose digit there is `d` is a completion of the board with `d`
/// placed at `pos`, from the next position.
pub(crate) proof fn lemma_completes_unplace(s: Seq<u8>, t: Seq<u8>, pos: int, d: u8)
    requires
        0 <= pos < 81,
        s.len() == 81,
        s[pos] == 0,
        completes_from(s, t, pos),
        t[pos] == d,
    ensures
        completes_from(s.update(pos, d), t, pos + 1),
{
    let s2 = s.update(pos, d);
    assert forall|i: int| 0 <= i < 81 && (i < pos + 1 || s2[i] != 0) implies #[trigger] t[i]
        == s2[i] by {
        if i == pos {
            assert(s2[i] == d);
        } else {
            assert(s2[i] == s[i]);
        }
    }
}

/// When every cell before `pos` is filled, the completions of the
/// board from `pos` are exactly its completions from the start.
pub(crate) proof fn lemma_completes_advance(s: Seq<u8>, t: Seq<u8>, pos: int)
    requires
        0 <= pos <= 81,
        forall|i: int| 0 <= i < pos ==> s[i] != 0,
        completes_from(s, t, 0) || completes_from(s, t, pos),
    ensures
        completes_from(s, t, 0) && completes_from(s, t, pos),
{
    if completes_from(s, t, 0) {
        assert forall|i: int| 0 <= i < 81 && (i < pos || s[i] != 0) implies #[trigger] t[i]
            == s[i] by {}
    } else {
        assert forall|i: int| 0 <= i < 81 implies #[trigger] t[i] != 0 by {
            if i < pos {
                assert(t[i] == s[i]);
            }
        }
    }
}

/// A completion from a position past the last cell is the board
/// itself.
proof fn lemma_completes_at_end(s: Seq<u8>, t: Seq<u8>, pos: int)
    requires
        pos >= 81,
        s.len() == 81,
        completes_from(s, t, pos),
    ensures
        t == s,
{
    assert(t =~= s);
}

/// The digit a completion places on an empty cell is safe there: any
/// same-unit conflict in the board would be a conflict inside the
/// (valid) completion itself.
pub(crate) proof fn lemma_completion_digit_safe(s: Seq<u8>, t: Seq<u8>, r: int, c: int)
    requires
        s.len() == 81,
        0 <= r < 9,
        0 <= c < 9,
        s[r * 9 + c] == 0,
        completes_from(s, t, r * 9 + c),
    ensures
        safe_at(s, r, c, t[r * 9 + c]),
{
    let pos = r * 9 + c;
    let d = t[pos];
    assert(t[pos] != 0);
    assert(cell_value(t, r, c) == d);
    if row_contains(s, r, d) {
        let c2 = choose|c2: int| 0 <= c2 < 9 && #[trigger] cell_value(s, r, c2) == d;
        assert(s[r * 9 + c2] == d);
        assert(t[r * 9 + c2] == d);
        assert(cell_value(t, r, c2) == d);
        assert(c2 != c);
        assert(cell_value(t, r, c) != cell_value(t, r, c2));
        assert(false);
    }
    if col_contains(s, c, d) {
        let r2 = choose|r2: int| 0 <= r2 < 9 && #[trigger] cell_value(s, r2, c) == d;
        assert(s[r2 * 9 + c] == d);
        assert(t[r2 * 9 + c] == d);
        assert(cell_value(t, r2, c) == d);
        assert(r2 != r);
        assert(cell_value(t, r, c) != cell_value(t, r2, c));
        assert(false);
    }
    let br = r - r % 3;
    let bc = c - c % 3;
    if box_contains(s, br, bc, d) {
        let (i, j) = choose|i: int, j: int|
            0 <= i < 3 && 0 <= j < 3 && #[trigger] cell_value(s, br + i, bc + j) == d;
        let r2 = br + i;
        let c2 = bc + j;
        assert(r2 / 3 == r / 3);
        assert(c2 / 3 == c / 3);
        assert(s[r2 * 9 + c2] == d);
        assert(t[r2 * 9 + c2] == d);
        assert(cell_value(t, r2, c2) == d);
        assert(!(r2 == r && c2 == c));
        assert(cell_value(t, r, c) != cell_value(t, r2, c2));
        assert(false);
    }
}

/// Counts the completions of the board from cell (`row`, `col`) on,
/// stopping as soon as the running count `count` would exceed one;
/// the result is therefore capped at two. The board is explored by
/// placing and removing digits; whenever the result is at most one
/// the board is left exactly as it was, and a filled cell is never
/// changed. The result characterizes the completions of the board:
/// a result equal to `count` means no completion exists from here; a
/// result exceeding it by one comes with a completion, and (for a
/// fresh count) with the fact that all completions coincide; a result
/// exceeding it by two comes with two distinct completions.
#[verifier::loop_isolation(false)]
pub fn solve(table: &mut Grid, row: usize, col: usize, count: usize) -> (r: usize)
    requires
        old(table).wf(),
        grid_valid(old(table)@),
        row <= 9,
        col <= 9,
        count <= 1,
    ensures
        final(table).wf(),
        grid_valid(final(table)@),
        count <= r <= 2,
        forall|i: int| 0 <= i < 81 && old(table)@[i] != 0 ==> final(table)@[i] == old(table)@[i],
        r <= 1 ==> final(table)@ == old(table)@,
        r >= count + 1 ==> exists|t: Seq<u8>| #[trigger] completes_from(old(table)@, t, row * 9 + col),
        r >= count + 2 ==> exists|t1: Seq<u8>, t2: Seq<u8>|
            t1 != t2 && #[trigger] completes_from(old(table)@, t1, row * 9 + col)
                && #[trigger] completes_from(old(table)@, t2, row * 9 + col),
        r == count ==> no_completion_from(old(table)@, row * 9 + col),
        count == 0 && r == 1 ==> at_most_one_completion_from(old(table)@, row * 9 + col),
    decreases 9 - row, 9 - col,
{
    let ghost s0 = table@;
    if row == 9 {
        proof {
            assert(completes_from(s0, s0, row * 9 + col));
            assert forall|t1: Seq<u8>, t2: Seq<u8>|
                #[trigger] completes_from(s0, t1, row * 9 + col) && #[trigger] completes_from(
                    s0,
                    t2,
                    row * 9 + col,
                ) implies t1 == t2 by {
                lemma_completes_at_end(s0, t1, row * 9 + col);
                lemma_completes_at_end(s0, t2, row * 9 + col);
            }
        }
        return count + 1;
    }

    if col == 9 {
        let r = solve(table, row + 1, 0, count);
        proof {
            assert((row + 1) * 9 + 0 == row * 9 + 9);
        }
        return r;
    }

    let ghost pos = row * 9 + col as int;
    if table.get(row, col) != 0 {
        let r = solve(table, row, col + 1, count);
        proof {
            if r >= count + 1 {
                let t = choose|t: Seq<u8>| #[trigger] completes_from(s0, t, pos + 1);
                lemma_completes_skip(s0, t, pos);
            }
            if r >= count + 2 {
                let (t1, t2) = choose|t1: Seq<u8>, t2: Seq<u8>|
                    t1 != t2 && #[trigger] completes_from(s0, t1, pos + 1)
                        && #[trigger] completes_from(s0, t2, pos + 1);
                lemma_completes_skip(s0, t1, pos);
                lemma_completes_skip(s0, t2, pos);
            }
            if r == count {
                assert forall|t: Seq<u8>| !#[trigger] completes_from(s0, t, pos) by {
                    if completes_from(s0, t, pos) {
                        lemma_completes_skip(s0, t, pos);
                    }
                }
            }
            if count == 0 && r == 1 {
                assert forall|t1: Seq<u8>, t2: Seq<u8>|
                    #[trigger] completes_from(s0, t1, pos) && #[trigger] completes_from(
                        s0,
                        t2,
                        pos,
                    ) implies t1 == t2 by {
                    lemma_completes_skip(s0, t1, pos);
                    lemma_completes_skip(s0, t2, pos);
                }
            }
        }
        return r;
    }

    let nums = shuffled_digits();
    let mut cur: usize = count;
    let ghost mut w1: Seq<u8> = Seq::empty();
    let ghost mut d1: u8 = 0;
    let mut k: usize = 0;
    while k < 9
        invariant
            table@ == s0,
            k <= 9,
            count <= cur <= 1,
            cur > count ==> completes_from(s0, w1, pos) && w1[pos] == d1 && (exists|k0: int|
                0 <= k0 < k && d1 == #[trigger] nums@[k0]),
            forall|k0: int, t: Seq<u8>|
                0 <= k0 < k && #[trigger] completes_from(s0, t, pos) && t[pos]
                    == #[trigger] nums@[k0] ==> cur > count && t[pos] == d1,
            count == 0 && cur == 1 ==> (forall|t1: Seq<u8>, t2: Seq<u8>|
                #[trigger] completes_from(s0, t1, pos) && #[trigger] completes_from(s0, t2, pos)
                    && t1[pos] == d1 && t2[pos] == d1 ==> t1 == t2),
        decreases 9 - k,
    {
        let num = nums[k];
        if crate::grid::is_safe(table, row, col, num) {
            table.set_cell(row, col, num);
            proof {
                lemma_place_preserves_valid(s0, row as int, col as int, num);
            }
            let nc = solve(table, row, col + 1, cur);
            if nc > cur {
                proof {
                    let t = choose|t: Seq<u8>|
                        #[trigger] completes_from(s0.update(pos, num), t, pos + 1);
                    lemma_completes_place(s0, t, pos, num);
                    if nc >= cur + 2 {
                        let (t1, t2) = choose|t1: Seq<u8>, t2: Seq<u8>|
                            t1 != t2 && #[trigger] completes_from(s0.update(pos, num), t1, pos + 1)
                                && #[trigger] completes_from(s0.update(pos, num), t2, pos + 1);
                        lemma_completes_place(s0, t1, pos, num);
                        lemma_completes_place(s0, t2, pos, num);
                        assert(cur == count);
                    } else if cur > count {
                        // a completion was already found under an earlier
                        // digit; the new one differs from it at `pos`
                        assert(w1[pos] != t[pos]);
                        assert(w1 != t);
                    }
                }
                if nc > 1 {
                    return nc;
                }
                cur = nc;
                proof {
                    w1 = choose|t: Seq<u8>|
                        #[trigger] completes_from(s0, t, pos) && t[pos] == nums@[k as int];
                    d1 = num;
                    // all completions placing this digit here coincide, by
                    // the deeper call's uniqueness
                    if count == 0 {
                        assert forall|t1: Seq<u8>, t2: Seq<u8>|
                            #[trigger] completes_from(s0, t1, pos) && #[trigger] completes_from(
                                s0,
                                t2,
                                pos,
                            ) && t1[pos] == d1 && t2[pos] == d1 implies t1 == t2 by {
                            lemma_completes_unplace(s0, t1, pos, num);
                            lemma_completes_unplace(s0, t2, pos, num);
                        }
                    }
                }
            } else {
                proof {
                    // the deeper call found nothing: no completion places
                    // this digit on this cell
                    assert forall|t: Seq<u8>|
                        #[trigger] completes_from(s0, t, pos) && t[pos] == num implies false by {
                        lemma_completes_unplace(s0, t, pos, num);
                    }
                }
            }
            table.set_cell(row, col, 0);
            proof {
                assert(table@ =~= s0);
            }
        } else {
            proof {
                // an unsafe digit cannot stand here in any completion
                assert forall|t: Seq<u8>|
                    #[trigger] completes_from(s0, t, pos) && t[pos] == num implies false by {
                    lemma_completion_digit_safe(s0, t, row as int, col as int);
                }
            }
        }
        k += 1;
    }
    proof {
        // every digit was tried: any completion's digit at this cell is
        // one of them
        assert forall|t: Seq<u8>| #[trigger] completes_from(s0, t, pos) implies cur > count
            && t[pos] == d1 by {
            assert(1 <= t[pos] <= 9);
            assert(nums@.contains(t[pos]));
            let k0 = choose|k0: int| 0 <= k0 < nums@.len() && nums@[k0] == t[pos];
            assert(completes_from(s0, t, pos) && t[pos] == nums@[k0]);
        }
    }
    cur
}

/// Decides whether the board has exactly one completion, by running
/// the bounded counting search on a private copy: the answer is
/// positive exactly when one full valid solution of the board exists
/// and every full valid solution coincides with it.
pub fn is_unique_solution(table: &Grid) -> (r: bool)
    requires
        table.wf(),
        grid_valid(table@),
    ensures
        r == has_unique_solution(table@),
{
    let mut table_copy = table.duplicate();
    let n = solve(&mut table_copy, 0, 0, 0);
    proof {
        if n == 0 {
            assert(no_completion_from(table@, 0));
            assert(!has_unique_solution(table@));
        }
        if n == 2 {
            let (t1, t2) = choose|t1: Seq<u8>, t2: Seq<u8>|
                t1 != t2 && #[trigger] completes_from(table@, t1, 0)
                    && #[trigger] completes_from(table@, t2, 0);
            assert(completes_from(table@, t1, 0) && completes_from(table@, t2, 0) && t1 != t2);
            assert(!at_most_one_completion_from(table@, 0));
        }
    }
    n == 1
}

} // verus!
