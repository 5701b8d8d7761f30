//! Text rendering of a board: each cell as its digit (or a dot when
//! empty) followed by a space, nine cells to a line. The result is the
//! exact ASCII byte sequence of that layout.

use vstd::prelude::*;
use crate::grid::Grid;

verus! {

/// The two bytes a cell renders to: '.' for an empty cell, the
/// decimal digit otherwise, then a space.
pub open spec fn cell_bytes(d: u8) -> Seq<u8> {
    seq![if d == 0 { 46u8 } else { (48 + d) as u8 }, 32u8]
}

/// The rendering of the board from row-major cell `pos` to the end:
/// each cell's two bytes, with a line feed after each ninth column.
pub open spec fn render_from(s: Seq<u8>, pos: int) -> Seq<u8>
    decreases 81 - pos,
{
    if pos < 0 || pos >= 81 {
        Seq::empty()
    } else {
        cell_bytes(s[pos]) + (if pos % 9 == 8 {
            seq![10u8]
        } else {
            Seq::empty()
        }) + render_from(s, pos + 1)
    }
}

/// The full rendering of a board.
pub open spec fn render_spec(s: Seq<u8>) -> Seq<u8> {
    render_from(s, 0)
}

/// Renders the board to its ASCII byte layout: nine lines of nine
/// space-separated cells, empty cells shown as dots.
#[verifier::loop_isolation(false)]
pub fn render_table(table: &Grid) -> (out: Vec<u8>)
    requires
        table.wf(),
    ensures
        out@ == render_spec(table@),
{
    let mut out: Vec<u8> = Vec::new();
    let mut i: usize = 0;
    while i < 81
        invariant
            i <= 81,
            out@ + render_from(table@, i as int) =~= render_spec(table@),
        decreases 81 - i,
    {
        let d = table.get(i / 9, i % 9);
        proof {
            assert(d == table@[i as int]);
        }
        if d == 0 {
            out.push(46);
        } else {
            out.push(48 + d);
        }
        out.push(32);
        if i % 9 == 8 {
            out.push(10);
        }
        proof {
            assert(out@ + render_from(table@, i + 1) =~= render_spec(table@));
        }
        i += 1;
    }
    proof {
        assert(out@ =~= render_spec(table@));
    }
    out
}

} // verus!
