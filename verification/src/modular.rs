//! Facts about remainders that the cursor arithmetic rests on.
//!
//! A cursor counts bytes without ever wrapping; its physical position is the
//! cursor modulo the capacity. The lemmas here relate the positions of nearby
//! cursors.
use vstd::prelude::*;
use vstd::arithmetic::div_mod::{
    lemma_fundamental_div_mod, lemma_fundamental_div_mod_converse, lemma_mod_bound,
};

verus! {

/// A remainder by a positive modulus lies in `[0, c)`.
pub proof fn lemma_position_in_range(x: int, c: int)
    requires
        c > 0,
    ensures
        0 <= x % c < c,
{
    lemma_mod_bound(x, c);
}

/// Advancing by `j` without reaching the modulus advances the position by `j`.
pub proof fn lemma_position_advances(x: int, j: int, c: int)
    requires
        c > 0,
        0 <= j,
        x % c + j < c,
    ensures
        (x + j) % c == x % c + j,
{
    lemma_position_in_range(x, c);
    lemma_fundamental_div_mod(x, c);
    assert(x + j == (x / c) * c + (x % c + j)) by (nonlinear_arith)
        requires
            x == c * (x / c) + x % c,
    ;
    lemma_fundamental_div_mod_converse(x + j, c, x / c, x % c + j);
}

/// Two cursors less than one modulus apart, and not equal, have different
/// positions.
pub proof fn lemma_positions_differ(x: int, y: int, c: int)
    requires
        c > 0,
        0 < y - x < c,
    ensures
        x % c != y % c,
{
    lemma_fundamental_div_mod(x, c);
    lemma_fundamental_div_mod(y, c);
    if x % c == y % c {
        let d = y / c - x / c;
        assert(y - x == c * d) by (nonlinear_arith)
            requires
                x == c * (x / c) + x % c,
                y == c * (y / c) + y % c,
                x % c == y % c,
                d == y / c - x / c,
        ;
        assert(false) by (nonlinear_arith)
            requires
                c > 0,
                0 < c * d < c,
        ;
    }
}

} // verus!
