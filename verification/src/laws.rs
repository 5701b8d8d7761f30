//! Proved facts about solved boards: every row, column, and 3x3 box
//! of a complete valid board is a permutation of the digits 1-9.

use vstd::prelude::*;
use crate::grid::{
    box_contains, cell_value, col_contains, grid_complete, grid_valid, grid_wf, row_contains,
};

verus! {

/// Nine pairwise distinct values, each between 1 and 9, cover every
/// digit from 1 to 9.
proof fn lemma_nine_distinct_digits(q: Seq<u8>)
    requires
        q.len() == 9,
        forall|i: int| 0 <= i < 9 ==> 1 <= #[trigger] q[i] <= 9,
        forall|i: int, j: int| 0 <= i < 9 && 0 <= j < 9 && i != j ==> q[i] != q[j],
    ensures
        forall|d: u8| 1 <= d <= 9 ==> q.contains(d),
{
    broadcast use vstd::seq_lib::seq_to_set_is_finite;
    broadcast use vstd::set::group_set_axioms;

    let digits: Seq<u8> = seq![1u8, 2u8, 3u8, 4u8, 5u8, 6u8, 7u8, 8u8, 9u8];
    assert(digits[0] == 1 && digits[1] == 2 && digits[2] == 3 && digits[3] == 4 && digits[4]
        == 5 && digits[5] == 6 && digits[6] == 7 && digits[7] == 8 && digits[8] == 9);
    assert(digits.no_duplicates());
    assert(q.no_duplicates());
    q.unique_seq_to_set();
    digits.unique_seq_to_set();
    assert forall|x: u8| q.to_set().contains(x) implies digits.to_set().contains(x) by {
        assert(q.contains(x));
        let i = choose|i: int| 0 <= i < q.len() && q[i] == x;
        assert(digits[x - 1] == x);
        assert(digits.contains(x));
    }
    vstd::set_lib::lemma_subset_equality(q.to_set(), digits.to_set());
    assert forall|d: u8| 1 <= d <= 9 implies q.contains(d) by {
        assert(digits[d - 1] == d);
        assert(digits.contains(d));
        assert(digits.to_set().contains(d));
        assert(q.to_set().contains(d));
    }
}

/// On a complete valid board every row, every column, and every 3x3
/// box is a permutation of the digits 1 through 9: each digit appears
/// there (the first three clauses), and only once (the last three:
/// two positions of the same unit holding the same digit coincide).
pub proof fn lemma_solved_grid_units(s: Seq<u8>)
    requires
        grid_wf(s),
        grid_valid(s),
        grid_complete(s),
    ensures
        forall|r: int, d: u8| 0 <= r < 9 && 1 <= d <= 9 ==> #[trigger] row_contains(s, r, d),
        forall|c: int, d: u8| 0 <= c < 9 && 1 <= d <= 9 ==> #[trigger] col_contains(s, c, d),
        forall|br: int, bc: int, d: u8|
            0 <= br < 9 && br % 3 == 0 && 0 <= bc < 9 && bc % 3 == 0 && 1 <= d <= 9
                ==> #[trigger] box_contains(s, br, bc, d),
        forall|r: int, c1: int, c2: int|
            #![trigger cell_value(s, r, c1), cell_value(s, r, c2)]
            0 <= r < 9 && 0 <= c1 < 9 && 0 <= c2 < 9 && cell_value(s, r, c1) == cell_value(
                s,
                r,
                c2,
            ) ==> c1 == c2,
        forall|c: int, r1: int, r2: int|
            #![trigger cell_value(s, r1, c), cell_value(s, r2, c)]
            0 <= c < 9 && 0 <= r1 < 9 && 0 <= r2 < 9 && cell_value(s, r1, c) == cell_value(
                s,
                r2,
                c,
            ) ==> r1 == r2,
        forall|r1: int, c1: int, r2: int, c2: int|
            #![trigger cell_value(s, r1, c1), cell_value(s, r2, c2)]
            0 <= r1 < 9 && 0 <= c1 < 9 && 0 <= r2 < 9 && 0 <= c2 < 9 && r1 / 3 == r2 / 3 && c1
                / 3 == c2 / 3 && cell_value(s, r1, c1) == cell_value(s, r2, c2) ==> r1 == r2
                && c1 == c2,
{
    assert forall|i: int| 0 <= i < 81 implies 1 <= #[trigger] s[i] <= 9 by {}
    assert forall|r: int, d: u8| 0 <= r < 9 && 1 <= d <= 9 implies #[trigger] row_contains(
        s,
        r,
        d,
    ) by {
        let q = Seq::new(9, |c: int| cell_value(s, r, c));
        assert forall|i: int| 0 <= i < 9 implies 1 <= #[trigger] q[i] <= 9 by {
            assert(q[i] == s[r * 9 + i]);
        }
        lemma_nine_distinct_digits(q);
        assert(q.contains(d));
        let c = choose|i: int| 0 <= i < 9 && q[i] == d;
        assert(cell_value(s, r, c) == d);
    }
    assert forall|c: int, d: u8| 0 <= c < 9 && 1 <= d <= 9 implies #[trigger] col_contains(
        s,
        c,
        d,
    ) by {
        let q = Seq::new(9, |r: int| cell_value(s, r, c));
        assert forall|i: int| 0 <= i < 9 implies 1 <= #[trigger] q[i] <= 9 by {
            assert(q[i] == s[i * 9 + c]);
        }
        lemma_nine_distinct_digits(q);
        assert(q.contains(d));
        let r = choose|i: int| 0 <= i < 9 && q[i] == d;
        assert(cell_value(s, r, c) == d);
    }
    assert forall|br: int, bc: int, d: u8|
        0 <= br < 9 && br % 3 == 0 && 0 <= bc < 9 && bc % 3 == 0 && 1 <= d
            <= 9 implies #[trigger] box_contains(s, br, bc, d) by {
        let q = Seq::new(9, |n: int| cell_value(s, br + n / 3, bc + n % 3));
        assert forall|i: int| 0 <= i < 9 implies 1 <= #[trigger] q[i] <= 9 by {
            assert(q[i] == s[(br + i / 3) * 9 + (bc + i % 3)]);
        }
        assert forall|i: int, j: int| 0 <= i < 9 && 0 <= j < 9 && i != j implies q[i] != q[j] by {
            let ri = br + i / 3;
            let ci = bc + i % 3;
            let rj = br + j / 3;
            let cj = bc + j % 3;
            assert(ri / 3 == rj / 3 && ci / 3 == cj / 3);
            assert(!(ri == rj && ci == cj));
            assert(cell_value(s, ri, ci) != 0);
        }
        lemma_nine_distinct_digits(q);
        assert(q.contains(d));
        let n = choose|i: int| 0 <= i < 9 && q[i] == d;
        assert(cell_value(s, br + n / 3, bc + n % 3) == d);
        assert(0 <= n / 3 < 3 && 0 <= n % 3 < 3);
    }
}

} // verus!
