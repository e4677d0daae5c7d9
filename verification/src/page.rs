use vstd::prelude::*;

verus! {

/// `n` is a power of two: exactly one bit is set.
pub open spec fn is_power_of_two(n: usize) -> bool {
    n != 0 && n & ((n - 1) as usize) == 0
}

/// The least multiple of `page_size` that is at least `size`.
pub open spec fn page_multiple_at_least(size: int, page_size: int) -> int {
    ((size + page_size - 1) / page_size) * page_size
}

/// Clearing the bits below a power of two rounds down to a multiple of it.
proof fn lemma_mask_rounds_down(x: usize, ps: usize)
    requires
        is_power_of_two(ps),
    ensures
        (x & !((ps - 1) as usize)) as int == (x as int / ps as int) * ps as int,
    decreases ps,
{
    if ps == 1 {
        assert(x & !((1usize - 1) as usize) == x) by (bit_vector);
    } else {
        let h: usize = ps >> 1;
        let hx: usize = x >> 1;
        assert(h != 0 && h & ((h - 1) as usize) == 0 && ps == h + h && h < ps) by (bit_vector)
            requires
                ps != 0usize,
                ps != 1usize,
                ps & ((ps - 1) as usize) == 0usize,
                h == ps >> 1,
        ;
        assert(x & !((ps - 1) as usize) == (hx & !((h - 1) as usize)) + (hx & !((h - 1) as usize))
            && hx == x / 2) by (bit_vector)
            requires
                ps != 0usize,
                ps != 1usize,
                ps & ((ps - 1) as usize) == 0usize,
                h == ps >> 1,
                hx == x >> 1,
        ;
        lemma_mask_rounds_down(hx, h);
        vstd::arithmetic::div_mod::lemma_div_denominator(x as int, 2, h as int);
        let q = (x as int / 2) / h as int;
        assert(q * ps == q * h + q * h) by (nonlinear_arith)
            requires ps == h + h;
    }
}

/// Round `size` up to the nearest multiple of `page_size`.
pub fn round_up_to_page_size(size: usize, page_size: usize) -> (r: usize)
    requires
        page_size >= 1,
        size + page_size - 1 <= usize::MAX,
    ensures
        r == page_multiple_at_least(size as int, page_size as int),
{
    let x = size + (page_size - 1);
    let mask = page_size - 1;
    if page_size & mask == 0 {
        proof {
            lemma_mask_rounds_down(x, page_size);
        }
        x & !mask
    } else {
        let q = x / page_size;
        proof {
            assert(q * page_size <= x) by (nonlinear_arith)
                requires
                    page_size > 0,
                    q == x / page_size,
            ;
        }
        q * page_size
    }
}

/// Rounding up gives the least page multiple that is at least `size`: a
/// multiple of `page_size`, no smaller than `size`, and less than a page
/// above it.
pub proof fn lemma_round_up_is_least_page_multiple(size: int, page_size: int)
    requires
        size >= 0,
        page_size >= 1,
    ensures
        page_multiple_at_least(size, page_size) % page_size == 0,
        size <= page_multiple_at_least(size, page_size) < size + page_size,
{
    let x = size + page_size - 1;
    let q = x / page_size;
    vstd::arithmetic::div_mod::lemma_fundamental_div_mod(x, page_size);
    vstd::arithmetic::mul::lemma_mul_is_commutative(q, page_size);
    vstd::arithmetic::div_mod::lemma_mod_multiples_basic(q, page_size);
}

/// A size that is already a page multiple is left as it is.
pub proof fn lemma_round_up_keeps_page_multiples(size: int, page_size: int)
    requires
        size >= 0,
        page_size >= 1,
        size % page_size == 0,
    ensures
        page_multiple_at_least(size, page_size) == size,
{
    lemma_round_up_is_least_page_multiple(size, page_size);
    let r = page_multiple_at_least(size, page_size);
    vstd::arithmetic::div_mod::lemma_fundamental_div_mod(r, page_size);
    vstd::arithmetic::div_mod::lemma_fundamental_div_mod(size, page_size);
    let a = size / page_size;
    let b = r / page_size;
    assert(b == a) by (nonlinear_arith)
        requires
            page_size > 0,
            size == page_size * a,
            r == page_size * b,
            size <= r < size + page_size,
    ;
}

/// Rounding up twice rounds once.
pub proof fn lemma_round_up_idempotent(size: int, page_size: int)
    requires
        size >= 0,
        page_size >= 1,
    ensures
        page_multiple_at_least(page_multiple_at_least(size, page_size), page_size)
            == page_multiple_at_least(size, page_size),
{
    lemma_round_up_is_least_page_multiple(size, page_size);
    lemma_round_up_keeps_page_multiples(page_multiple_at_least(size, page_size), page_size);
}

/// With a power-of-two page size, rounding up clears the bits below the page
/// size, as a mask does.
pub proof fn lemma_round_up_clears_low_bits(size: usize, page_size: usize)
    requires
        is_power_of_two(page_size),
        size + page_size - 1 <= usize::MAX,
    ensures
        page_multiple_at_least(size as int, page_size as int)
            == (((size + page_size - 1) as usize) & !((page_size - 1) as usize)),
        (((size + page_size - 1) as usize) & !((page_size - 1) as usize)) & ((page_size - 1) as usize) == 0,
{
    let x = (size + page_size - 1) as usize;
    let m = (page_size - 1) as usize;
    lemma_mask_rounds_down(x, page_size);
    assert((x & !m) & m == 0) by (bit_vector);
}


/// Below a power of two, the low bits of `x` are its remainder.
pub proof fn lemma_low_bits_are_remainder(x: usize, page_size: usize)
    requires
        is_power_of_two(page_size),
    ensures
        x & ((page_size - 1) as usize) == x % page_size,
{
    let m = (page_size - 1) as usize;
    lemma_mask_rounds_down(x, page_size);
    assert((x & m) + (x & !m) == x) by (bit_vector);
    vstd::arithmetic::div_mod::lemma_fundamental_div_mod(x as int, page_size as int);
    vstd::arithmetic::mul::lemma_mul_is_commutative(x as int / page_size as int, page_size as int);
}

} // verus!
