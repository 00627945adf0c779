//! Address arithmetic shared by blocks and the arena: rounding up to an
//! alignment, powers of two, and the smallest power of two above a size.
use vstd::prelude::*;

verus! {

/// The smallest multiple of `align` that is `>= addr` (for `align > 0`).
pub open spec fn round_up(addr: int, align: int) -> int {
    if addr % align == 0 {
        addr
    } else {
        addr + (align - addr % align)
    }
}

/// `size` bytes at `align` form a valid memory layout: the size rounded up
/// to the alignment is at most `isize::MAX`.
pub open spec fn layout_ok(size: int, align: int) -> bool {
    round_up(size, align) <= isize::MAX
}

/// `n` is a power of two.
pub open spec fn is_pow2(n: int) -> bool
    decreases n,
{
    if n <= 0 {
        false
    } else if n == 1 {
        true
    } else {
        n % 2 == 0 && is_pow2(n / 2)
    }
}

/// The smallest power of two `>= x`, searching upwards from the power `p`.
pub open spec fn next_pow2_from(x: int, p: int) -> int
    decreases (if p < x { x - p } else { 0 }),
{
    if p <= 0 || p >= x {
        p
    } else {
        next_pow2_from(x, 2 * p)
    }
}

/// The smallest power of two that is `>= x`.
pub open spec fn next_pow2(x: int) -> int {
    next_pow2_from(x, 1)
}

/// What rounding up gives: a multiple of `align`, at or above `addr`, less
/// than `align` above it.
pub proof fn lemma_round_up(addr: int, align: int)
    requires
        align > 0,
        addr >= 0,
    ensures
        round_up(addr, align) % align == 0,
        addr <= round_up(addr, align) < addr + align,
        round_up(addr, align) >= 0,
        addr % align == 0 ==> round_up(addr, align) == addr,
{
    let r = addr % align;
    assert(0 <= r < align) by {
        vstd::arithmetic::div_mod::lemma_mod_bound(addr, align);
    }
    if r != 0 {
        assert((addr + (align - r)) % align == 0) by {
            vstd::arithmetic::div_mod::lemma_fundamental_div_mod(addr, align);
            let q = addr / align;
            assert(addr + (align - r) == (q + 1) * align) by (nonlinear_arith)
                requires
                    addr == align * q + r,
            ;
            vstd::arithmetic::div_mod::lemma_mod_multiples_basic(q + 1, align);
        }
    }
}

/// A multiple of a power of two is a multiple of every smaller power of two.
pub proof fn lemma_pow2_multiple(x: int, big: int, small: int)
    requires
        is_pow2(big),
        is_pow2(small),
        small <= big,
        x % big == 0,
    ensures
        x % small == 0,
    decreases big,
{
    if small == big {
    } else {
        lemma_pow2_divides(big, small);
        let k = big / small;
        vstd::arithmetic::div_mod::lemma_fundamental_div_mod(x, big);
        let q = x / big;
        assert(x == small * (k * q)) by (nonlinear_arith)
            requires
                x == big * q + 0,
                big == small * k,
        ;
        vstd::arithmetic::div_mod::lemma_mod_multiples_basic(k * q, small);
        assert(x % small == (k * q * small) % small) by (nonlinear_arith)
            requires
                x == small * (k * q),
        ;
    }
}

/// A larger power of two is a multiple of a smaller one.
pub proof fn lemma_pow2_divides(big: int, small: int)
    requires
        is_pow2(big),
        is_pow2(small),
        small <= big,
    ensures
        big % small == 0,
        big == small * (big / small),
    decreases big,
{
    if big == small {
        vstd::arithmetic::div_mod::lemma_div_by_self(big);
    } else {
        // big > small >= 1, so big is even and big / 2 >= small
        assert(big > 1);
        assert(big % 2 == 0 && is_pow2(big / 2));
        lemma_pow2_ge(small);
        lemma_pow2_half_ge(big, small);
        lemma_pow2_divides(big / 2, small);
        let k = (big / 2) / small;
        assert(big == small * (2 * k)) by (nonlinear_arith)
            requires
                big / 2 == small * k,
                big % 2 == 0,
                big == 2 * (big / 2) + big % 2,
        ;
        vstd::arithmetic::div_mod::lemma_mod_multiples_basic(2 * k, small);
        assert(big % small == 0) by (nonlinear_arith)
            requires
                big == small * (2 * k),
                (2 * k * small) % small == 0,
        ;
        vstd::arithmetic::div_mod::lemma_div_multiples_vanish(2 * k, small);
        assert(big / small == 2 * k) by (nonlinear_arith)
            requires
                big == small * (2 * k),
                (small * (2 * k)) / small == 2 * k,
        ;
    }
}

/// Powers of two are positive.
pub proof fn lemma_pow2_ge(n: int)
    requires
        is_pow2(n),
    ensures
        n >= 1,
{
}

/// Between two distinct powers of two, halving the larger one stays at or
/// above the smaller one.
proof fn lemma_pow2_half_ge(big: int, small: int)
    requires
        is_pow2(big),
        is_pow2(small),
        small < big,
    ensures
        big / 2 >= small,
    decreases big,
{
    if small == 1 {
        assert(big >= 2);
    } else {
        assert(small % 2 == 0 && is_pow2(small / 2));
        assert(big % 2 == 0 && is_pow2(big / 2));
        lemma_pow2_ge(small / 2);
        lemma_pow2_half_ge(big / 2, small / 2);
    }
}

/// Doubling a power of two gives a power of two.
pub proof fn lemma_pow2_double(p: int)
    requires
        is_pow2(p),
    ensures
        is_pow2(2 * p),
{
    assert((2 * p) / 2 == p);
}

/// The search for the next power of two from a power `p` ends on a power of
/// two that is at least `x` and at least `p`.
pub proof fn lemma_next_pow2_from(x: int, p: int)
    requires
        is_pow2(p),
    ensures
        is_pow2(next_pow2_from(x, p)),
        next_pow2_from(x, p) >= x,
        next_pow2_from(x, p) >= p,
    decreases (if p < x { x - p } else { 0 }),
{
    lemma_pow2_ge(p);
    if p >= x {
    } else {
        lemma_pow2_double(p);
        lemma_next_pow2_from(x, 2 * p);
    }
}

/// The search for the next power of two never goes below where it starts.
pub proof fn lemma_next_pow2_from_ge(x: int, p: int)
    requires
        p > 0,
    ensures
        next_pow2_from(x, p) >= p,
    decreases (if p < x { x - p } else { 0 }),
{
    if p < x {
        lemma_next_pow2_from_ge(x, 2 * p);
    }
}

/// Clearing the low bits below a power of two `a` rounds down to a multiple
/// of `a`.
pub proof fn lemma_mask_rounds_down(x: usize, a: usize)
    requires
        is_pow2(a as int),
    ensures
        x & !((a - 1) as usize) == x - x % a,
    decreases a,
{
    if a == 1 {
        assert(x & !(0usize) == x) by (bit_vector);
    } else {
        let b: usize = a / 2;
        assert(is_pow2(b as int));
        lemma_pow2_ge(b as int);
        assert(a == 2 * b);
        let y: usize = x >> 1;
        lemma_mask_rounds_down(y, b);
        assert(x & !((a - 1) as usize) == ((x >> 1) & !((b - 1) as usize)) << 1) by (bit_vector)
            requires
                1 <= b,
                a == 2 * b,
        ;
        assert(x >> 1 == x / 2) by (bit_vector);
        let m: usize = y & !((b - 1) as usize);
        assert(m <= y);
        assert(m << 1 == 2 * m) by (bit_vector)
            requires
                m <= y,
                y == x >> 1,
        ;
        vstd::arithmetic::div_mod::lemma_mod_breakdown(x as int, 2, b as int);
        assert(x % a == 2 * ((x / 2) % b) + x % 2);
        assert(2 * (x / 2) + x % 2 == x) by (nonlinear_arith);
    }
}

/// Rounds `addr` up to the next multiple of `align` with the usual mask
/// arithmetic: `(addr + align - 1) & !(align - 1)`. For a power of two
/// `align` this is the true round-up; for other alignments it is what the
/// mask gives. `addr + align - 1` must fit in `usize`.
pub fn align_up(addr: usize, align: usize) -> (r: usize)
    requires
        align > 0,
        addr + align - 1 <= usize::MAX,
    ensures
        r == ((addr + align - 1) as usize) & !((align - 1) as usize),
        is_pow2(align as int) ==> r == round_up(addr as int, align as int),
        is_pow2(align as int) ==> r % align == 0,
        is_pow2(align as int) ==> addr <= r < addr + align,
{
    let r = (addr + (align - 1)) & !(align - 1);
    proof {
        if is_pow2(align as int) {
            lemma_round_up(addr as int, align as int);
            let t: usize = (addr + align - 1) as usize;
            lemma_mask_rounds_down(t, align);
            let q = round_up(addr as int, align as int);
            let k = q / (align as int);
            let d = (t as int) - q;
            vstd::arithmetic::div_mod::lemma_fundamental_div_mod(q, align as int);
            assert(q == (align as int) * k + 0);
            assert(t as int == (align as int) * k + d);
            vstd::arithmetic::div_mod::lemma_mod_multiples_vanish(k, d, align as int);
            vstd::arithmetic::div_mod::lemma_small_mod(d as nat, align as nat);
            assert(t % align == d);
        }
    }
    r
}

/// Rounds `addr` up to the next multiple of `align`, or `None` when the
/// rounded address does not fit in `usize`.
pub fn checked_align_up(addr: usize, align: usize) -> (r: Option<usize>)
    requires
        align > 0,
    ensures
        match r {
            Some(v) => v == round_up(addr as int, align as int),
            None => round_up(addr as int, align as int) > usize::MAX,
        },
{
    proof {
        lemma_round_up(addr as int, align as int);
    }
    let rem = addr % align;
    if rem == 0 {
        Some(addr)
    } else {
        addr.checked_add(align - rem)
    }
}

/// Whether `x` is a power of two.
pub fn is_power_of_two(x: usize) -> (b: bool)
    ensures
        b == is_pow2(x as int),
{
    if x == 0 {
        return false;
    }
    let mut y: usize = x;
    while y > 1 && y % 2 == 0
        invariant
            y >= 1,
            is_pow2(y as int) == is_pow2(x as int),
        decreases y,
    {
        y = y / 2;
    }
    proof {
        if y > 1 {
            assert(y % 2 != 0);
            assert(!is_pow2(y as int));
        }
    }
    y == 1
}

/// The smallest power of two `>= x`, or `None` when it exceeds `usize::MAX`.
pub fn checked_next_power_of_two(x: usize) -> (r: Option<usize>)
    ensures
        match r {
            Some(p) => p == next_pow2(x as int),
            None => next_pow2(x as int) > usize::MAX,
        },
{
    let mut p: usize = 1;
    proof {
        assert(is_pow2(1));
    }
    while p < x
        invariant
            is_pow2(p as int),
            next_pow2_from(x as int, p as int) == next_pow2(x as int),
        decreases (if p < x { x - p } else { 0 }),
    {
        if p > usize::MAX / 2 {
            proof {
                lemma_next_pow2_from_ge(x as int, 2 * p);
            }
            return None;
        }
        proof {
            lemma_pow2_double(p as int);
        }
        p = p * 2;
    }
    Some(p)
}

} // verus!
