//! Saturating integer arithmetic over `isize` and offset alignment.

use vstd::prelude::*;

verus! {

/// The value `v` clamped into the range of `isize`.
pub open spec fn clamp(v: int) -> int {
    if v > isize::MAX as int {
        isize::MAX as int
    } else if v < isize::MIN as int {
        isize::MIN as int
    } else {
        v
    }
}

/// Integer division rounding toward zero, as Rust's `/` does.
pub open spec fn div_toward_zero(x: int, d: int) -> int
    recommends
        d != 0,
{
    if x >= 0 && d > 0 {
        x / d
    } else if x < 0 && d < 0 {
        (-x) / (-d)
    } else if x < 0 {
        -((-x) / d)
    } else {
        -(x / (-d))
    }
}

/// Saturating quotient; a zero divisor gives zero.
pub open spec fn sat_div_spec(x: int, d: int) -> int {
    if d == 0 {
        0
    } else {
        clamp(div_toward_zero(x, d))
    }
}

/// `base` raised to `exp`.
pub open spec fn pow_spec(base: int, exp: nat) -> int
    decreases exp,
{
    if exp == 0 {
        1
    } else {
        base * pow_spec(base, (exp - 1) as nat)
    }
}

pub fn saturating_add(a: isize, b: isize) -> (r: isize)
    ensures
        r == clamp(a + b),
{
    match a.checked_add(b) {
        Some(v) => v,
        None => if b > 0 {
            isize::MAX
        } else {
            isize::MIN
        },
    }
}

pub fn saturating_sub(a: isize, b: isize) -> (r: isize)
    ensures
        r == clamp(a - b),
{
    match a.checked_sub(b) {
        Some(v) => v,
        None => if b < 0 {
            isize::MAX
        } else {
            isize::MIN
        },
    }
}

pub fn saturating_mul(a: isize, b: isize) -> (r: isize)
    ensures
        r == clamp(a * b),
{
    match a.checked_mul(b) {
        Some(v) => v,
        None => {
            if (a > 0) == (b > 0) {
                assert(a * b > 0) by (nonlinear_arith)
                    requires
                        (a > 0) == (b > 0),
                        a != 0,
                        b != 0,
                ;
                isize::MAX
            } else {
                assert(a * b < 0) by (nonlinear_arith)
                    requires
                        (a > 0) != (b > 0),
                        a != 0,
                        b != 0,
                ;
                isize::MIN
            }
        },
    }
}

/// Division that never panics: it rounds toward zero, saturates the one
/// overflowing case (`isize::MIN / -1`) and maps a zero divisor to zero.
pub fn saturating_div(a: isize, b: isize) -> (r: isize)
    ensures
        r == sat_div_spec(a as int, b as int),
{
    if b == 0 {
        return 0;
    }
    match a.checked_div(b) {
        Some(v) => v,
        None => {
            assert(a == isize::MIN && b == -1) by (nonlinear_arith)
                requires
                    b != 0,
                    a >= isize::MIN,
                    a <= isize::MAX,
                    b >= isize::MIN,
                    b <= isize::MAX,
                    !(isize::MIN <= div_toward_zero(a as int, b as int) <= isize::MAX),
            {
            }
            isize::MAX
        },
    }
}


proof fn lemma_pow_abs(b: int, e: nat)
    ensures
        (if pow_spec(b, e) >= 0 { pow_spec(b, e) } else { -pow_spec(b, e) }) == pow_spec(
            if b >= 0 { b } else { -b },
            e,
        ),
    decreases e,
{
    if e > 0 {
        lemma_pow_abs(b, (e - 1) as nat);
        let p = pow_spec(b, (e - 1) as nat);
        assert((if b * p >= 0 { b * p } else { -(b * p) }) == (if b >= 0 { b } else { -b }) * (if p
            >= 0 { p } else { -p })) by (nonlinear_arith);
    }
}

proof fn lemma_pow_mono(a: int, i: nat, e: nat)
    requires
        a >= 1,
        i <= e,
    ensures
        1 <= pow_spec(a, i) <= pow_spec(a, e),
    decreases e,
{
    if e > i {
        lemma_pow_mono(a, i, (e - 1) as nat);
        let p = pow_spec(a, (e - 1) as nat);
        assert(p <= a * p) by (nonlinear_arith)
            requires
                a >= 1,
                p >= 1,
        ;
    } else if e > 0 {
        lemma_pow_mono(a, 0, (e - 1) as nat);
        let p = pow_spec(a, (e - 1) as nat);
        assert(1 <= a * p) by (nonlinear_arith)
            requires
                a >= 1,
                p >= 1,
        ;
    }
}

proof fn lemma_pow_sign(b: int, e: nat)
    requires
        b != 0,
    ensures
        (pow_spec(b, e) < 0) == (b < 0 && e % 2 == 1),
        pow_spec(b, e) != 0,
    decreases e,
{
    if e > 0 {
        lemma_pow_sign(b, (e - 1) as nat);
        let p = pow_spec(b, (e - 1) as nat);
        assert((b * p < 0) == ((b < 0) != (p < 0)) && b * p != 0) by (nonlinear_arith)
            requires
                b != 0,
                p != 0,
        ;
    }
}

/// Power that saturates at the bounds of `isize` instead of overflowing.
pub fn saturating_pow(base: isize, exp: u32) -> (r: isize)
    ensures
        r == clamp(pow_spec(base as int, exp as nat)),
{
    if base == 0 || base == 1 {
        let r: isize = if exp == 0 { 1 } else { base };
        proof {
            assert forall|k: nat| pow_spec(base as int, k) == (if k == 0 { 1 } else { base as int }) by {
                lemma_pow_base01(base as int, k);
            }
        }
        return r;
    }
    if base == -1 {
        proof {
            lemma_pow_abs(-1, exp as nat);
            lemma_pow_mono(1, 0, exp as nat);
            lemma_pow_mono(1, exp as nat, exp as nat);
            lemma_pow_one(exp as nat);
            lemma_pow_sign(-1, exp as nat);
        }
        return if exp % 2 == 0 { 1 } else { -1 };
    }
    let mut acc: isize = 1;
    let mut i: u32 = 0;
    while i < exp
        invariant
            i <= exp,
            acc as int == pow_spec(base as int, i as nat),
            base != 0 && base != 1 && base != -1,
        decreases exp - i,
    {
        match acc.checked_mul(base) {
            Some(v) => {
                proof {
                    assert(pow_spec(base as int, (i + 1) as nat) == base * pow_spec(base as int, i as nat));
                    assert(v == acc * base);
                    assert(acc * base == base * acc) by (nonlinear_arith);
                }
                acc = v;
                i = i + 1;
            },
            None => {
                proof {
                    let b = base as int;
                    let ab = if b >= 0 { b } else { -b };
                    assert(pow_spec(b, (i + 1) as nat) == b * pow_spec(b, i as nat));
                    assert(acc * b == b * acc) by (nonlinear_arith);
                    lemma_pow_abs(b, (i + 1) as nat);
                    lemma_pow_abs(b, exp as nat);
                    lemma_pow_mono(ab, (i + 1) as nat, exp as nat);
                    lemma_pow_sign(b, exp as nat);
                }
                if base < 0 && exp % 2 == 1 {
                    return isize::MIN;
                } else {
                    return isize::MAX;
                }
            },
        }
    }
    acc
}

proof fn lemma_pow_base01(b: int, k: nat)
    requires
        b == 0 || b == 1,
    ensures
        pow_spec(b, k) == (if k == 0 { 1 } else { b }),
    decreases k,
{
    if k > 0 {
        lemma_pow_base01(b, (k - 1) as nat);
    }
}

proof fn lemma_pow_one(k: nat)
    ensures
        pow_spec(1, k) == 1,
    decreases k,
{
    if k > 0 {
        lemma_pow_one((k - 1) as nat);
    }
}

/// The least multiple of `alignment` that is at least `offset`.
pub open spec fn align_up(offset: int, alignment: int) -> int {
    if offset % alignment == 0 {
        offset
    } else {
        offset - offset % alignment + alignment
    }
}

/// Rounds `offset` up to the next multiple of `alignment`.
pub fn offset_align_to(offset: usize, alignment: usize) -> (r: usize)
    requires
        alignment > 0,
        align_up(offset as int, alignment as int) <= usize::MAX,
    ensures
        r == align_up(offset as int, alignment as int),
        r >= offset,
        r % alignment == 0,
        r - offset < alignment,
{
    let remainder = offset % alignment;
    if remainder != 0 {
        proof {
            vstd::arithmetic::div_mod::lemma_fundamental_div_mod(offset as int, alignment as int);
            vstd::arithmetic::div_mod::lemma_mod_multiples_basic(offset as int / alignment as int + 1, alignment as int);
            assert(offset - remainder + alignment == alignment * (offset as int / alignment as int + 1)) by (nonlinear_arith)
                requires offset == alignment * (offset as int / alignment as int) + remainder;
        }
        return offset - remainder + alignment;
    }
    offset
}

} // verus!
