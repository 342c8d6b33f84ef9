//! Address-range utility: rounding an address up to an alignment boundary.
//!
//! Every allocator strategy uses this arithmetic when it places a block at
//! an aligned address inside a free region.

use vstd::prelude::*;
use vstd::arithmetic::div_mod::{
    lemma_fundamental_div_mod,
    lemma_mod_division_less_than_divisor,
    lemma_mod_multiples_basic,
    lemma_mod_self_0,
    lemma_small_mod,
};
use vstd::arithmetic::power::{lemma_pow_adds, lemma_pow_increases_converse, lemma_pow_positive};
use vstd::arithmetic::power2::{is_pow2, is_pow2_equiv, is_pow2_exists};

verus! {

/// The least multiple of `align` that is at least `addr`.
pub open spec fn align_up_spec(addr: int, align: int) -> int
    recommends
        addr >= 0,
        align >= 1,
{
    addr + ((align - addr % align) % align)
}

/// `align_up_spec` names the least multiple of the alignment at or above
/// the given address.
pub proof fn lemma_align_up(addr: int, align: int)
    requires
        addr >= 0,
        align >= 1,
    ensures
        align_up_spec(addr, align) % align == 0,
        addr <= align_up_spec(addr, align) < addr + align,
        forall|m: int| m >= addr && #[trigger] (m % align) == 0 ==> align_up_spec(addr, align) <= m,
{
    let r = addr % align;
    let q = addr / align;
    lemma_fundamental_div_mod(addr, align);
    lemma_mod_division_less_than_divisor(addr, align);
    if r == 0 {
        lemma_mod_self_0(align);
        assert(align_up_spec(addr, align) == addr);
        lemma_mod_multiples_basic(q, align);
    } else {
        lemma_small_mod((align - r) as nat, align as nat);
        assert(align_up_spec(addr, align) == (q + 1) * align) by {
            assert(addr == q * align + r);
            assert(align_up_spec(addr, align) == q * align + align);
            assert(q * align + align == (q + 1) * align) by (nonlinear_arith);
        }
        lemma_mod_multiples_basic(q + 1, align);
    }
    assert forall|m: int| m >= addr && #[trigger] (m % align) == 0 implies align_up_spec(
        addr,
        align,
    ) <= m by {
        let k = m / align;
        lemma_fundamental_div_mod(m, align);
        assert(m == k * align);
        if r == 0 {
            assert(align_up_spec(addr, align) == addr);
        } else {
            assert(k * align >= q * align + r);
            assert(k > q) by (nonlinear_arith)
                requires
                    k * align >= q * align + r,
                    0 < r < align,
            ;
            assert(k * align >= (q + 1) * align) by (nonlinear_arith)
                requires
                    k >= q + 1,
                    align >= 1,
            ;
        }
    }
}

/// Rounds `addr` up to the next multiple of `align`.
pub fn align_up(addr: usize, align: usize) -> (r: usize)
    requires
        align >= 1,
        align_up_spec(addr as int, align as int) <= usize::MAX,
    ensures
        r == align_up_spec(addr as int, align as int),
        r % align == 0,
        addr <= r < addr + align,
{
    proof {
        lemma_align_up(addr as int, align as int);
    }
    let rem: usize = addr % align;
    if rem == 0 {
        proof {
            lemma_mod_self_0(align as int);
        }
        addr
    } else {
        proof {
            lemma_small_mod((align - rem) as nat, align as nat);
        }
        addr + (align - rem)
    }
}

/// Rounds `addr` up to the next multiple of `align`, reporting `None` when
/// the rounded address does not fit in a machine word.
pub fn align_up_checked(addr: usize, align: usize) -> (r: Option<usize>)
    requires
        align >= 1,
    ensures
        match r {
            Some(v) => v == align_up_spec(addr as int, align as int),
            None => align_up_spec(addr as int, align as int) > usize::MAX,
        },
{
    proof {
        lemma_align_up(addr as int, align as int);
    }
    let rem: usize = addr % align;
    if rem == 0 {
        proof {
            lemma_mod_self_0(align as int);
        }
        Some(addr)
    } else {
        proof {
            lemma_small_mod((align - rem) as nat, align as nat);
        }
        addr.checked_add(align - rem)
    }
}

/// A power of two is positive.
pub proof fn lemma_pow2_pos(n: int)
    requires
        is_pow2(n),
    ensures
        n >= 1,
{
    reveal(is_pow2);
}

/// Among powers of two, the smaller always divides the larger.
pub proof fn lemma_pow2_le_divides(a: int, b: int)
    requires
        is_pow2(a),
        is_pow2(b),
        a <= b,
    ensures
        b % a == 0,
{
    broadcast use is_pow2_equiv;

    let i = choose|i: nat| vstd::arithmetic::power::pow(2, i) == a;
    let j = choose|j: nat| vstd::arithmetic::power::pow(2, j) == b;
    lemma_pow_positive(2, i);
    lemma_pow_positive(2, j);
    lemma_pow_increases_converse(2, i, j);
    lemma_pow_adds(2, i, (j - i) as nat);
    let f = vstd::arithmetic::power::pow(2, (j - i) as nat);
    assert(b == a * f) by {
        assert(b == vstd::arithmetic::power::pow(2, i) * f);
    }
    lemma_mod_multiples_basic(f, a);
    assert(f * a == a * f) by (nonlinear_arith);
}

/// The sum of two multiples of `m` is a multiple of `m`.
pub proof fn lemma_mod_sum_zero(x: int, y: int, m: int)
    requires
        m >= 1,
        x % m == 0,
        y % m == 0,
    ensures
        (x + y) % m == 0,
{
    let k = x / m;
    let l = y / m;
    lemma_fundamental_div_mod(x, m);
    lemma_fundamental_div_mod(y, m);
    assert(x + y == (k + l) * m) by (nonlinear_arith)
        requires
            x == k * m,
            y == l * m,
    ;
    lemma_mod_multiples_basic(k + l, m);
}

/// A multiple of a multiple of `a` is itself a multiple of `a`.
pub proof fn lemma_mod_zero_transitive(x: int, b: int, a: int)
    requires
        a >= 1,
        b >= 1,
        x % b == 0,
        b % a == 0,
    ensures
        x % a == 0,
{
    let k = x / b;
    let l = b / a;
    lemma_fundamental_div_mod(x, b);
    lemma_fundamental_div_mod(b, a);
    assert(x == (k * l) * a) by (nonlinear_arith)
        requires
            x == k * b,
            b == l * a,
    ;
    lemma_mod_multiples_basic(k * l, a);
}

} // verus!
