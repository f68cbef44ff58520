//! How many terms of each band of a truncated harmonic series are summed.
//!
//! A series table is a flat array of coefficients grouped into bands, one
//! band per power of time. A term budget selects a prefix of every band: a
//! negative budget takes every term; otherwise each band takes a share of
//! terms proportional to the budget and to the band's size relative to the
//! first band, rounded to the nearest whole term, plus a small margin in
//! every band after the first, and never more than the band holds. The
//! planetary tables hold three coefficients per term, the lunar ones six.
use vstd::prelude::*;
use vstd::arithmetic::div_mod::lemma_div_is_ordered;

verus! {

/// Coefficients per term of a planetary table.
pub const PLANET_STRIDE: i64 = 3;

/// Coefficients per term of a lunar table.
pub const MOON_STRIDE: i64 = 6;

/// Largest table size (in coefficients) handled.
pub const MAX_TABLE: i64 = 10_000_000;

/// `x / y` rounded to the nearest integer (halves up), for `y > 0`.
pub open spec fn round_div(x: int, y: int) -> int {
    (2 * x + y) / (2 * y)
}

/// The end (exclusive, as a position in the flat table) of the terms of band
/// `band` that a budget of `n` sums, the band spanning positions `start` to
/// `end` and the first band holding `first` coefficients.
pub open spec fn planet_band_end(n: int, band: int, start: int, end: int, first: int) -> int {
    if n < 0 || first == 0 {
        end
    } else {
        let k = start + round_div(PLANET_STRIDE * (n * (end - start)), first) + if band != 0 {
            PLANET_STRIDE
        } else {
            0
        };
        if k > end {
            end
        } else {
            k
        }
    }
}

/// The number of coefficients of lunar band `band` (holding `len` of them)
/// that a budget of `n` sums, the first band holding `first`.
pub open spec fn moon_band_len(n: int, band: int, len: int, first: int) -> int {
    if first == 0 {
        len
    } else {
        let budget = if n < 0 { first } else { MOON_STRIDE * n };
        let k = round_div(budget * len, first) + if band != 0 {
            MOON_STRIDE
        } else {
            0
        };
        if k > len {
            len
        } else {
            k
        }
    }
}

/// The end of the summed terms of a planetary band (see `planet_band_end`).
pub fn planet_terms_end(n: i32, band: usize, start: i64, end: i64, first: i64) -> (r: i64)
    requires
        0 <= start <= end <= MAX_TABLE,
        0 <= first <= MAX_TABLE,
    ensures
        r == planet_band_end(n as int, band as int, start as int, end as int, first as int),
        start <= r <= end,
{
    if n < 0 || first == 0 {
        return end;
    }
    assert(0 <= (n as int) * (end - start) <= 2_147_483_647 * 10_000_000) by (nonlinear_arith)
        requires
            0 <= n <= 2_147_483_647,
            0 <= end - start <= 10_000_000,
    ;
    let x: i64 = PLANET_STRIDE * ((n as i64) * (end - start));
    let mut k: i64 = start + (2 * x + first) / (2 * first);
    if band != 0 {
        k = k + PLANET_STRIDE;
    }
    if k > end {
        end
    } else {
        k
    }
}

/// The number of summed coefficients of a lunar band (see `moon_band_len`).
pub fn moon_terms_len(n: i32, band: usize, len: i64, first: i64) -> (r: i64)
    requires
        0 <= len <= MAX_TABLE,
        0 <= first <= MAX_TABLE,
    ensures
        r == moon_band_len(n as int, band as int, len as int, first as int),
        0 <= r <= len,
{
    if first == 0 {
        return len;
    }
    let budget: i64 = if n < 0 {
        first
    } else {
        MOON_STRIDE * (n as i64)
    };
    assert(0 <= budget * len <= 12_884_901_882 * 10_000_000) by (nonlinear_arith)
        requires
            0 <= budget <= 12_884_901_882,
            0 <= len <= 10_000_000,
    ;
    let x: i64 = budget * len;
    let mut k: i64 = (2 * x + first) / (2 * first);
    if band != 0 {
        k = k + MOON_STRIDE;
    }
    if k > len {
        len
    } else {
        k
    }
}

/// A larger budget never sums fewer terms, and a negative budget sums the
/// whole band.
pub proof fn lemma_budget_monotone(n1: int, n2: int, band: int, start: int, end: int, first: int)
    requires
        0 <= n1 <= n2,
        0 <= start <= end,
        0 <= first,
    ensures
        planet_band_end(n1, band, start, end, first) <= planet_band_end(n2, band, start, end, first),
        planet_band_end(n2, band, start, end, first) <= planet_band_end(-1, band, start, end, first),
        moon_band_len(n1, band, end - start, first) <= moon_band_len(n2, band, end - start, first),
{
    if first > 0 {
        let len = end - start;
        assert(2 * (PLANET_STRIDE * (n1 * len)) + first <= 2 * (PLANET_STRIDE * (n2 * len)) + first) by (
        nonlinear_arith)
            requires
                0 <= n1 <= n2,
                0 <= len,
        ;
        lemma_div_is_ordered(
            2 * (PLANET_STRIDE * (n1 * len)) + first,
            2 * (PLANET_STRIDE * (n2 * len)) + first,
            2 * first,
        );
        assert(2 * (MOON_STRIDE * n1 * len) + first <= 2 * (MOON_STRIDE * n2 * len) + first) by (
        nonlinear_arith)
            requires
                0 <= n1 <= n2,
                0 <= len,
        ;
        lemma_div_is_ordered(
            2 * (MOON_STRIDE * n1 * len) + first,
            2 * (MOON_STRIDE * n2 * len) + first,
            2 * first,
        );
    }
}

} // verus!
