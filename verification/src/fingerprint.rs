//! A stable fingerprint of a board, for downstream identification and
//! deduplication: the 64-bit FNV-1a hash of the 81 row-major cell
//! values. The hash depends on the cell values alone, so equal boards
//! always fingerprint alike, on every machine and in every run.

use vstd::prelude::*;
use crate::grid::Grid;

verus! {

pub const FNV_OFFSET_BASIS: u64 = 0xcbf29ce484222325;

pub const FNV_PRIME: u64 = 0x100000001b3;

/// The product of `x` and `y` reduced modulo 2^64.
pub open spec fn mul_mod64(x: u64, y: u64) -> u64 {
    ((x * y) % 0x1_0000_0000_0000_0000) as u64
}

/// One FNV-1a step: fold byte `b` into state `h`.
pub open spec fn fnv1a_step(h: u64, b: u8) -> u64 {
    mul_mod64(h ^ (b as u64), FNV_PRIME)
}

/// The FNV-1a hash of a byte sequence, folded left to right from the
/// offset basis.
pub open spec fn fnv1a(s: Seq<u8>) -> u64
    decreases s.len(),
{
    if s.len() == 0 {
        FNV_OFFSET_BASIS
    } else {
        fnv1a_step(fnv1a(s.drop_last()), s.last())
    }
}

/// The fingerprint of the board: the FNV-1a hash of its 81 cells in
/// row-major order.
pub fn hash_table(table: &Grid) -> (r: u64)
    requires
        table.wf(),
    ensures
        r == fnv1a(table@),
{
    let mut h: u64 = FNV_OFFSET_BASIS;
    let mut i: usize = 0;
    while i < 81
        invariant
            table.wf(),
            i <= 81,
            h == fnv1a(table@.take(i as int)),
        decreases 81 - i,
    {
        let b = table.get(i / 9, i % 9);
        proof {
            assert(b == table@[i as int]);
            assert(table@.take(i + 1).drop_last() =~= table@.take(i as int));
            assert(table@.take(i + 1).last() == table@[i as int]);
        }
        let x: u64 = h ^ (b as u64);
        let prod: u128 = (x as u128) * (FNV_PRIME as u128);
        let next: u64 = (prod % 0x1_0000_0000_0000_0000u128) as u64;
        proof {
            assert(prod % 0x1_0000_0000_0000_0000u128 < 0x1_0000_0000_0000_0000) by (nonlinear_arith);
            assert(next == mul_mod64(x, FNV_PRIME));
        }
        h = next;
        i += 1;
    }
    proof {
        assert(table@.take(81) =~= table@);
    }
    h
}

} // verus!
