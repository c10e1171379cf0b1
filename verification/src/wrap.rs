//! Wrapping 32-bit sequence-number arithmetic.
//!
//! TCP sequence numbers live on a circle of size 2^32. A number `a` precedes
//! `b` on that circle exactly when `b - a` (mod 2^32) is less than 2^31, the
//! half-space criterion of RFC 1323.
use vstd::prelude::*;

verus! {

/// `a + k` reduced into the 32-bit circle, for a small non-negative offset.
pub open spec fn add32(a: u32, k: int) -> u32
    recommends
        0 <= k < 0x1_0000_0000,
{
    if a + k <= 0xFFFF_FFFF {
        (a + k) as u32
    } else {
        (a + k - 0x1_0000_0000) as u32
    }
}

/// `a - b` reduced into the 32-bit circle.
pub open spec fn sub32(a: u32, b: u32) -> u32 {
    if a >= b {
        (a - b) as u32
    } else {
        (a - b + 0x1_0000_0000) as u32
    }
}

/// `a` precedes `b` on the sequence circle (RFC 1323 half-space rule).
pub open spec fn wlt(a: u32, b: u32) -> bool {
    sub32(a, b) > 0x8000_0000u32
}

/// `x` lies strictly between `s` and `e` on the sequence circle.
pub open spec fn between(s: u32, x: u32, e: u32) -> bool {
    wlt(s, x) && wlt(x, e)
}

/// Wrapping addition with an exact spec.
pub fn wadd(a: u32, b: u32) -> (r: u32)
    ensures
        r == add32(a, b as int),
{
    let s: u64 = a as u64 + b as u64;
    if s <= 0xFFFF_FFFF {
        s as u32
    } else {
        (s - 0x1_0000_0000) as u32
    }
}

/// Wrapping subtraction with an exact spec.
pub fn wsub(a: u32, b: u32) -> (r: u32)
    ensures
        r == sub32(a, b),
{
    if a >= b {
        a - b
    } else {
        ((0x1_0000_0000u64 + a as u64) - b as u64) as u32
    }
}

/// True iff `lhs` precedes `rhs` in the circular sequence space.
pub fn wrapping_lt(lhs: u32, rhs: u32) -> (r: bool)
    ensures
        r == wlt(lhs, rhs),
{
    wsub(lhs, rhs) > 0x8000_0000
}

/// True iff `x` lies strictly between `start` and `end` on the circle.
pub fn is_between_wrapped(start: u32, x: u32, end: u32) -> (r: bool)
    ensures
        r == between(start, x, end),
{
    wrapping_lt(start, x) && wrapping_lt(x, end)
}

/// Two small hops around the circle collapse into one.
pub proof fn lemma_add32_chain(a: u32, j: int, k: int)
    requires
        0 <= j,
        0 <= k,
        j + k < 0x1_0000_0000,
    ensures
        add32(add32(a, j), k) == add32(a, j + k),
{
}

/// Moving the far end of an arc forward by one step.
pub proof fn lemma_sub32_succ(a: u32, b: u32)
    ensures
        sub32(add32(a, 1), b) == if sub32(a, b) == 0xFFFF_FFFFu32 {
            0u32
        } else {
            (sub32(a, b) + 1) as u32
        },
{
}

/// A hop of `k` lands exactly `k` past the start.
pub proof fn lemma_add_sub(a: u32, k: int)
    requires
        0 <= k < 0x1_0000_0000,
    ensures
        sub32(add32(a, k), a) == k,
{
}

/// A hop of `k` is undone by subtracting `k`.
pub proof fn lemma_cancel(a: u32, k: u32)
    ensures
        sub32(add32(a, k as int), k) == a,
{
}

/// A point at or past `a - 1` but not past `a` is `a` itself.
pub proof fn lemma_pinch(a: u32, x: u32)
    requires
        wlt(sub32(a, 1), x),
        !wlt(a, x),
    ensures
        x == a,
{
    assert({
        let am1 = if a >= 1 { (a - 1) as u32 } else { 0xFFFF_FFFFu32 };
        let d1 = if am1 >= x { (am1 - x) as u32 } else { (am1 - x + 0x1_0000_0000) as u32 };
        let d2 = if a >= x { (a - x) as u32 } else { (a - x + 0x1_0000_0000) as u32 };
        (d1 > 0x8000_0000u32 && !(d2 > 0x8000_0000u32)) ==> x == a
    }) by (bit_vector);
    assert(sub32(a, 1) == (if a >= 1 { (a - 1) as u32 } else { 0xFFFF_FFFFu32 }));
}

/// Strict precedence separates the points.
pub proof fn lemma_wlt_neq(a: u32, b: u32)
    requires
        wlt(a, b),
    ensures
        a != b,
{
}

/// A point strictly between the edges of a short arc splits its length.
pub proof fn lemma_between_dist(a: u32, x: u32, e: u32)
    requires
        between(a, x, e),
        sub32(e, a) < 0x8000_0000,
    ensures
        1 <= sub32(x, a),
        sub32(x, a) + sub32(e, x) == sub32(e, a),
{
}

/// The half-space order is a strict total order away from the antipode:
/// for any `a`, `b` with `b - a != 2^31`, exactly one of `a < b`, `b < a`,
/// `a == b` holds. On the antipode (`b == a + 2^31`) both comparisons are
/// false, so the law is stated away from it.
pub proof fn lemma_wlt_total(a: u32, b: u32)
    requires
        sub32(a, b) != 0x8000_0000u32,
    ensures
        (wlt(a, b) ^ wlt(b, a)) ^ (a == b),
{
    assert ({
        let d = if a >= b { (a - b) as u32 } else { (a - b + 0x1_0000_0000) as u32 };
        let e = if b >= a { (b - a) as u32 } else { (b - a + 0x1_0000_0000) as u32 };
        d != 0x8000_0000u32 ==> (((d > 0x8000_0000u32) ^ (e > 0x8000_0000u32)) ^ (a == b))
    }) by (bit_vector);
}

/// The order is irreflexive, so strict betweenness excludes both endpoints.
pub proof fn lemma_between_irreflexive(x: u32, y: u32)
    ensures
        !between(x, x, y),
        !between(x, y, y),
{
    assert(sub32(x, x) == 0);
}

} // verus!
