use vstd::arithmetic::div_mod::{lemma_fundamental_div_mod, lemma_mod_multiples_basic};
use vstd::prelude::*;

verus! {

/// `x` is a multiple of `size`.
pub open spec fn aligned(x: int, size: int) -> bool {
    x % size == 0
}

/// Rounding down to a multiple of `size` gives a multiple of `size`.
pub proof fn lemma_round_down_aligned(a: int, size: int)
    requires
        a >= 0,
        size > 0,
    ensures
        aligned(a - a % size, size),
        0 <= a % size < size,
        a % size <= a,
{
    lemma_fundamental_div_mod(a, size);
    assert(a / size >= 0) by (nonlinear_arith)
        requires
            a >= 0,
            size > 0,
    ;
    assert(size * (a / size) >= 0) by (nonlinear_arith)
        requires
            a / size >= 0,
            size > 0,
    ;
    lemma_mod_multiples_basic(a / size, size);
    assert(a - a % size == (a / size) * size) by (nonlinear_arith)
        requires
            a == size * (a / size) + (a % size),
    ;
}

/// Two distinct multiples of `size` lie at least `size` apart.
pub proof fn lemma_aligned_gap(x: int, y: int, size: int)
    requires
        size > 0,
        x >= 0,
        y >= 0,
        aligned(x, size),
        aligned(y, size),
        x < y,
    ensures
        x + size <= y,
{
    lemma_fundamental_div_mod(x, size);
    lemma_fundamental_div_mod(y, size);
    assert(x + size <= y) by (nonlinear_arith)
        requires
            x == size * (x / size),
            y == size * (y / size),
            x < y,
            size > 0,
    ;
}

/// A multiple of `size` at or below `a` is at or below `a` rounded down.
pub proof fn lemma_aligned_below_round_down(x: int, a: int, size: int)
    requires
        size > 0,
        x >= 0,
        aligned(x, size),
        x <= a,
    ensures
        x <= a - a % size,
{
    lemma_round_down_aligned(a, size);
    if x > a - a % size {
        lemma_aligned_gap(a - a % size, x, size);
    }
}

/// A multiple of `big` is a multiple of `small` when `small` divides `big`.
pub proof fn lemma_aligned_divisor(x: int, big: int, small: int)
    requires
        x >= 0,
        small > 0,
        big > 0,
        aligned(x, big),
        aligned(big, small),
    ensures
        aligned(x, small),
{
    lemma_fundamental_div_mod(x, big);
    lemma_fundamental_div_mod(big, small);
    let k = x / big;
    let m = big / small;
    assert(x == (k * m) * small) by (nonlinear_arith)
        requires
            x == big * k,
            big == small * m,
    ;
    lemma_mod_multiples_basic(k * m, small);
}

/// Adding `size` to a multiple of `size` keeps it one.
pub proof fn lemma_aligned_step(x: int, size: int)
    requires
        x >= 0,
        size > 0,
        aligned(x, size),
    ensures
        aligned(x + size, size),
{
    lemma_fundamental_div_mod(x, size);
    assert(x + size == (x / size + 1) * size) by (nonlinear_arith)
        requires
            x == size * (x / size),
    ;
    lemma_mod_multiples_basic(x / size + 1, size);
}

} // verus!
