//! Lattice points, integer vectors and exact integer square roots.

use vstd::arithmetic::div_mod::{
    lemma_basic_div, lemma_div_is_ordered, lemma_div_multiples_vanish_fancy,
    lemma_fundamental_div_mod, lemma_mod_bound,
};
use vstd::prelude::*;

verus! {

/// `r` is the integer square root of `n`, rounded down.
pub open spec fn is_floor_root(n: nat, r: nat) -> bool {
    r * r <= n < (r + 1) * (r + 1)
}

/// The greatest natural number whose square does not exceed `n`.
pub open spec fn floor_root(n: nat) -> nat {
    choose|r: nat| is_floor_root(n, r)
}

/// The least natural number whose square is at least `n`.
pub open spec fn ceil_root(n: nat) -> nat {
    if floor_root(n) * floor_root(n) == n {
        floor_root(n)
    } else {
        floor_root(n) + 1
    }
}

proof fn lemma_floor_root_exists(n: nat)
    ensures
        exists|r: nat| is_floor_root(n, r),
    decreases n,
{
    if n == 0 {
        assert(is_floor_root(0, 0)) by (nonlinear_arith);
    } else {
        let m = (n - 1) as nat;
        lemma_floor_root_exists(m);
        let r = choose|r: nat| is_floor_root(m, r);
        if (r + 1) * (r + 1) <= n {
            assert((r + 2) * (r + 2) > (r + 1) * (r + 1)) by (nonlinear_arith);
            assert(is_floor_root(n, r + 1));
        } else {
            assert(is_floor_root(n, r));
        }
    }
}

/// `floor_root(n)` squares to at most `n`, and its successor squares past `n`.
pub proof fn lemma_floor_root(n: nat)
    ensures
        is_floor_root(n, floor_root(n)),
{
    lemma_floor_root_exists(n);
}

/// Only one number satisfies `is_floor_root(n, _)`.
pub proof fn lemma_floor_root_unique(n: nat, r: nat)
    requires
        is_floor_root(n, r),
    ensures
        r == floor_root(n),
{
    lemma_floor_root(n);
    let s = floor_root(n);
    if r < s {
        assert((r + 1) * (r + 1) <= s * s) by (nonlinear_arith)
            requires
                r + 1 <= s,
        ;
    } else if s < r {
        assert((s + 1) * (s + 1) <= r * r) by (nonlinear_arith)
            requires
                s + 1 <= r,
        ;
    }
}

/// `ceil_root(n)` squares to at least `n`, and nothing smaller does.
pub proof fn lemma_ceil_root(n: nat)
    ensures
        ceil_root(n) * ceil_root(n) >= n,
        ceil_root(n) > 0 ==> (ceil_root(n) - 1) * (ceil_root(n) - 1) < n,
        n > 0 ==> ceil_root(n) > 0,
        floor_root(n) <= ceil_root(n) <= floor_root(n) + 1,
{
    lemma_floor_root(n);
    let f = floor_root(n);
    let c = ceil_root(n);
    if f * f == n {
        if f > 0 {
            assert((f - 1) * (f - 1) < f * f) by (nonlinear_arith)
                requires
                    f >= 1,
            ;
        }
    } else {
        assert(c - 1 == f);
    }
    if n > 0 && f == 0 {
        assert(f * f == 0) by (nonlinear_arith)
            requires
                f == 0,
        ;
    }
}

/// Integer square root, rounded down.
pub fn isqrt(n: u128) -> (r: u64)
    ensures
        r == floor_root(n as nat),
{
    let mut lo: u128 = 0;
    let mut hi: u128 = 0x1_0000_0000_0000_0000;
    assert(0x1_0000_0000_0000_0000int * 0x1_0000_0000_0000_0000int > u128::MAX) by (nonlinear_arith);
    while hi - lo > 1
        invariant
            lo < hi <= 0x1_0000_0000_0000_0000,
            lo * lo <= n < hi * hi,
        decreases hi - lo,
    {
        let mid: u128 = lo + (hi - lo) / 2;
        assert(mid * mid <= 0xffff_ffff_ffff_ffffint * 0xffff_ffff_ffff_ffffint) by (nonlinear_arith)
            requires
                0 <= mid <= 0xffff_ffff_ffff_ffffint,
        ;
        assert(0xffff_ffff_ffff_ffffint * 0xffff_ffff_ffff_ffffint <= u128::MAX) by (nonlinear_arith);
        if mid * mid <= n {
            lo = mid;
        } else {
            hi = mid;
        }
    }
    proof {
        assert(hi == lo + 1);
        lemma_floor_root_unique(n as nat, lo as nat);
    }
    lo as u64
}

/// Integer square root, rounded up.
pub fn isqrt_up(n: u128) -> (r: u128)
    ensures
        r == ceil_root(n as nat),
        r <= 0x1_0000_0000_0000_0000,
{
    let f: u64 = isqrt(n);
    proof {
        lemma_floor_root(n as nat);
        assert(f * f <= 0xffff_ffff_ffff_ffffint * 0xffff_ffff_ffff_ffffint) by (nonlinear_arith)
            requires
                0 <= f <= 0xffff_ffff_ffff_ffffint,
        ;
        assert(0xffff_ffff_ffff_ffffint * 0xffff_ffff_ffff_ffffint <= u128::MAX) by (nonlinear_arith);
    }
    let wide: u128 = f as u128;
    if wide * wide == n {
        wide
    } else {
        wide + 1
    }
}

/// A lattice point: a position in fixed-point units.
#[derive(Clone, Copy, Debug, PartialEq, Eq, Structural)]
pub struct Point {
    pub x: i32,
    pub y: i32,
}

/// A displacement, velocity or force in fixed-point units.
#[derive(Clone, Copy, Debug, PartialEq, Eq, Structural)]
pub struct Vector {
    pub x: i64,
    pub y: i64,
}

/// Squared Euclidean length of the vector `(dx, dy)`.
pub open spec fn norm_sq(dx: int, dy: int) -> int {
    dx * dx + dy * dy
}

/// Absolute value.
pub open spec fn abs(x: int) -> int {
    if x < 0 {
        -x
    } else {
        x
    }
}

/// `x * num / den`, rounded toward zero.
pub open spec fn toward_zero(x: int, num: nat, den: nat) -> int {
    if x < 0 {
        -((-x * num) / (den as int))
    } else {
        (x * num) / (den as int)
    }
}

/// `a * m / sqrt(n)` rounded up, for `a >= 0` and `n > 0`: the least number
/// whose square times `n` reaches the square of `a * m`.
pub open spec fn raised(a: int, m: nat, n: nat) -> nat {
    ceil_root(((a * a * (m * m) + n - 1) / (n as int)) as nat)
}

/// `a * m / sqrt(n)` rounded down, for `a >= 0` and `n > 0`: the greatest
/// number whose square times `n` does not exceed the square of `a * m`.
pub open spec fn lowered(a: int, m: nat, n: nat) -> nat {
    floor_root(((a * a * (m * m)) / (n as int)) as nat)
}

/// A square is never negative.
pub proof fn lemma_norm_sq_bounds(dx: int, dy: int)
    ensures
        norm_sq(dx, dy) >= 0,
        norm_sq(dx, dy) >= dx * dx >= 0,
        norm_sq(dx, dy) >= dy * dy >= 0,
        norm_sq(dx, dy) == 0 <==> dx == 0 && dy == 0,
        norm_sq(dx, dy) == norm_sq(abs(dx), abs(dy)),
{
    assert(dx * dx >= 0 && (dx != 0 ==> dx * dx > 0)) by (nonlinear_arith);
    assert(dy * dy >= 0 && (dy != 0 ==> dy * dy > 0)) by (nonlinear_arith);
    assert(dx * dx == abs(dx) * abs(dx)) by (nonlinear_arith)
        requires
            abs(dx) == dx || abs(dx) == -dx,
    ;
    assert(dy * dy == abs(dy) * abs(dy)) by (nonlinear_arith)
        requires
            abs(dy) == dy || abs(dy) == -dy,
    ;
}

/// The magnitude of a signed value, widened.
fn magnitude(x: i64) -> (m: u128)
    ensures
        m == abs(x as int),
        m <= 0x8000_0000_0000_0000,
{
    if x < 0 {
        (-(x as i128)) as u128
    } else {
        x as u128
    }
}

impl Point {
    /// Squared Euclidean distance between two points.
    pub open spec fn dist_sq(self, other: Point) -> int {
        norm_sq(self.x - other.x, self.y - other.y)
    }

    /// Squared Euclidean distance between two points, computed exactly.
    pub fn distance_squared(self, other: Point) -> (d: u128)
        ensures
            d == self.dist_sq(other),
    {
        self.offset_from(other).length_squared()
    }

    /// The displacement that leads from `origin` to `self`.
    pub fn offset_from(self, origin: Point) -> (v: Vector)
        ensures
            v.x == self.x - origin.x,
            v.y == self.y - origin.y,
    {
        Vector { x: self.x as i64 - origin.x as i64, y: self.y as i64 - origin.y as i64 }
    }
}

impl Vector {
    /// The vector without length.
    pub open spec fn zero() -> Vector {
        Vector { x: 0, y: 0 }
    }

    /// Squared Euclidean length.
    pub open spec fn len_sq(self) -> int {
        norm_sq(self.x as int, self.y as int)
    }

    /// This vector lies in the disk of the given radius around the origin.
    pub open spec fn within(self, radius: u32) -> bool {
        self.len_sq() <= radius * radius
    }

    /// Tells whether this vector lies in the disk of the given radius around
    /// the origin.
    pub fn is_within(self, radius: u32) -> (yes: bool)
        ensures
            yes == self.within(radius),
    {
        self.length_squared() <= squared(radius)
    }

    /// Squared Euclidean length, computed exactly.
    pub fn length_squared(self) -> (n: u128)
        ensures
            n == self.len_sq(),
            n <= 0x8000_0000_0000_0000_0000_0000_0000_0000,
    {
        let a: u128 = magnitude(self.x);
        let b: u128 = magnitude(self.y);
        proof {
            lemma_norm_sq_bounds(self.x as int, self.y as int);
            assert(a * a <= 0x8000_0000_0000_0000int * 0x8000_0000_0000_0000int) by (nonlinear_arith)
                requires
                    0 <= a <= 0x8000_0000_0000_0000int,
            ;
            assert(b * b <= 0x8000_0000_0000_0000int * 0x8000_0000_0000_0000int) by (nonlinear_arith)
                requires
                    0 <= b <= 0x8000_0000_0000_0000int,
            ;
            assert(0x8000_0000_0000_0000int * 0x8000_0000_0000_0000int
                == 0x4000_0000_0000_0000_0000_0000_0000_0000int) by (nonlinear_arith);
        }
        a * a + b * b
    }
}

/// A quotient rounded down: `a * num / den` with `a <= den` is at most `num`,
/// and multiplying it back does not exceed `a * num`.
proof fn lemma_quotient_down(a: nat, num: nat, den: nat)
    requires
        den > 0,
        a <= den,
    ensures
        (a * num) / den <= num,
        ((a * num) / den) * den <= a * num,
        (a * num) / den >= 0,
        a == 0 ==> (a * num) / den == 0,
{
    if a == 0 {
        assert(a * num == 0) by (nonlinear_arith)
            requires
                a == 0,
        ;
        lemma_basic_div(0, den as int);
    }
    let p = (a * num) as int;
    let d = den as int;
    lemma_fundamental_div_mod(p, d);
    lemma_mod_bound(p, d);
    assert(a * num <= den * num) by (nonlinear_arith)
        requires
            a <= den,
    ;
    lemma_div_is_ordered(p, d * num, d);
    lemma_div_multiples_vanish_fancy(num as int, 0, d);
    assert((p / d) * d == d * (p / d)) by (nonlinear_arith);
}

/// A quotient rounded up: `ceil(a / n)` is at most `k` where `a <= k * n`,
/// and multiplying it back reaches `a`.
proof fn lemma_ceil_div(a: nat, n: nat, k: nat)
    requires
        n > 0,
        a <= k * n,
    ensures
        (a + n - 1) / (n as int) <= k,
        ((a + n - 1) / (n as int)) * n >= a,
        (a + n - 1) / (n as int) >= 0,
{
    let p = (a + n - 1) as int;
    let d = n as int;
    lemma_fundamental_div_mod(p, d);
    lemma_mod_bound(p, d);
    assert(d * k == k * n) by (nonlinear_arith)
        requires
            d == n,
    ;
    lemma_div_is_ordered(p, d * k + (d - 1), d);
    lemma_div_multiples_vanish_fancy(k as int, d - 1, d);
    lemma_div_is_ordered(0, p, d);
    assert((p / d) * d == d * (p / d)) by (nonlinear_arith);
}

/// What [`raised`] gives is at most `m` where `a * a <= n`, and its square
/// times `n` reaches the square of `a * m`.
proof fn lemma_raised(a: nat, m: nat, n: nat)
    requires
        n > 0,
        a * a <= n,
    ensures
        raised(a as int, m, n) <= m,
        raised(a as int, m, n) * raised(a as int, m, n) * n >= (a * a) * (m * m),
        a == 0 ==> raised(a as int, m, n) == 0,
{
    let top = (a * a) * (m * m);
    assert(top == a * a * (m * m));
    assert(top <= (m * m) * n) by (nonlinear_arith)
        requires
            top == (a * a) * (m * m),
            a * a <= n,
    ;
    lemma_ceil_div(top, n, m * m);
    let c = ((top + n - 1) / (n as int)) as nat;
    let p = ceil_root(c);
    lemma_ceil_root(c);
    if p > m {
        lemma_square_le(m as int, p - 1);
    }
    assert(p * p * n >= c * n) by (nonlinear_arith)
        requires
            p * p >= c,
            n > 0,
    ;
    if a == 0 {
        assert(top == 0) by (nonlinear_arith)
            requires
                top == (a * a) * (m * m),
                a == 0,
        ;
        lemma_basic_div(n - 1, n as int);
        assert(is_floor_root(0, 0)) by (nonlinear_arith);
        lemma_floor_root_unique(0, 0);
    }
}

/// Squares of ordered non-negative numbers are ordered.
pub proof fn lemma_square_le(a: int, b: int)
    requires
        0 <= a <= b,
    ensures
        a * a <= b * b,
{
    assert(a * a <= b * b) by (nonlinear_arith)
        requires
            0 <= a <= b,
    ;
}

/// A non-negative number whose square does not exceed `c * c` does not exceed `c`.
pub proof fn lemma_le_from_squares(a: int, c: int)
    requires
        0 <= a,
        0 <= c,
        a * a <= c * c,
    ensures
        a <= c,
{
    if a > c {
        assert(a * a >= (c + 1) * (c + 1)) by (nonlinear_arith)
            requires
                a >= c + 1,
                c >= 0,
        ;
        assert((c + 1) * (c + 1) > c * c) by (nonlinear_arith)
            requires
                c >= 0,
        ;
    }
}

/// `x * num / den` rounded toward zero, for `|x| <= den`.
fn scale_toward_zero(x: i64, num: u32, den: u128) -> (r: i64)
    requires
        den > 0,
        abs(x as int) <= den,
    ensures
        r == toward_zero(x as int, num as nat, den as nat),
        abs(r as int) <= num,
        abs(r as int) * den <= abs(x as int) * num,
{
    let a: u128 = magnitude(x);
    proof {
        lemma_quotient_down(a as nat, num as nat, den as nat);
        assert(a * num <= 0x8000_0000_0000_0000int * 0xffff_ffffint) by (nonlinear_arith)
            requires
                0 <= a <= 0x8000_0000_0000_0000int,
                0 <= num <= 0xffff_ffffint,
        ;
    }
    let q: u128 = a * (num as u128) / den;
    if x < 0 {
        -(q as i64)
    } else {
        q as i64
    }
}

/// What [`lowered`] gives is at most `m` where `a * a <= n`; its square times
/// `n` does not exceed the square of `a * m`, and that of its successor does.
proof fn lemma_lowered(a: nat, m: nat, n: nat)
    requires
        n > 0,
        a * a <= n,
    ensures
        lowered(a as int, m, n) <= m,
        lowered(a as int, m, n) * lowered(a as int, m, n) * n <= (a * a) * (m * m),
        (lowered(a as int, m, n) + 1) * (lowered(a as int, m, n) + 1) * n > (a * a) * (m * m),
        a == 0 ==> lowered(a as int, m, n) == 0,
{
    let top = (a * a) * (m * m);
    assert(top == a * a * (m * m));
    assert(top <= (m * m) * n) by (nonlinear_arith)
        requires
            top == (a * a) * (m * m),
            a * a <= n,
    ;
    let d = n as int;
    lemma_fundamental_div_mod(top as int, d);
    lemma_mod_bound(top as int, d);
    lemma_div_is_ordered(0, top as int, d);
    lemma_div_is_ordered(top as int, d * (m * m), d);
    lemma_div_multiples_vanish_fancy((m * m) as int, 0, d);
    assert(d * (m * m) == (m * m) * n) by (nonlinear_arith)
        requires
            d == n,
    ;
    let c = (top as int / d) as nat;
    assert(c * n <= top < (c + 1) * n) by (nonlinear_arith)
        requires
            top == d * c + (top as int % d),
            0 <= top as int % d < d,
            d == n,
    ;
    let p = floor_root(c);
    lemma_floor_root(c);
    lemma_le_from_squares(p as int, m as int);
    assert(p * p * n <= c * n) by (nonlinear_arith)
        requires
            p * p <= c,
            n > 0,
    ;
    assert((p + 1) * (p + 1) * n >= (c + 1) * n) by (nonlinear_arith)
        requires
            (p + 1) * (p + 1) >= c + 1,
            n > 0,
    ;
    if a == 0 {
        assert(top == 0) by (nonlinear_arith)
            requires
                top == (a * a) * (m * m),
                a == 0,
        ;
        lemma_basic_div(0, d);
        assert(is_floor_root(0, 0)) by (nonlinear_arith);
        lemma_floor_root_unique(0, 0);
    }
}

/// Two numbers whose successors' squares add up to more than the square of
/// `big` have squares that add up to more than the square of `big - 2`.
proof fn lemma_near(p: int, q: int, big: int)
    requires
        0 <= p,
        0 <= q,
        big >= 2,
        (p + 1) * (p + 1) + (q + 1) * (q + 1) > big * big,
    ensures
        p * p + q * q > (big - 2) * (big - 2),
{
    if p * p + q * q <= (big - 2) * (big - 2) {
        let s = p + q;
        assert(s * s <= 2 * (p * p + q * q)) by (nonlinear_arith)
            requires
                s == p + q,
        ;
        if s >= 2 * big - 2 {
            assert(s * s >= (2 * big - 2) * (2 * big - 2)) by (nonlinear_arith)
                requires
                    s >= 2 * big - 2,
                    2 * big - 2 >= 0,
            ;
            assert((2 * big - 2) * (2 * big - 2) > 2 * ((big - 2) * (big - 2))) by (nonlinear_arith)
                requires
                    big >= 2,
            ;
            assert(false);
        }
        assert((p + 1) * (p + 1) + (q + 1) * (q + 1) == p * p + q * q + 2 * s + 2)
            by (nonlinear_arith)
            requires
                s == p + q,
        ;
        assert((big - 2) * (big - 2) + 2 * (2 * big - 3) + 2 == big * big) by (nonlinear_arith);
        assert(false);
    }
}

/// `|x| * m / sqrt(n)` rounded down, with the sign of `x`, for a component of
/// at most 32 bits.
fn lower(x: i64, m: u32, n: u128) -> (r: i64)
    requires
        0 < n,
        x * x <= n,
        abs(x as int) <= 0xffff_ffff,
    ensures
        abs(r as int) == lowered(abs(x as int), m as nat, n as nat),
        x >= 0 ==> r >= 0,
        x <= 0 ==> r <= 0,
        abs(r as int) <= m,
{
    let a: u128 = magnitude(x);
    proof {
        lemma_norm_sq_bounds(x as int, 0);
        assert(a * a == x * x);
        lemma_lowered(a as nat, m as nat, n as nat);
        lemma_square_le(a as int, 0xffff_ffff);
        lemma_square_le(m as int, 0xffff_ffff);
        assert((a * a) * (m * m) <= (0xffff_ffffint * 0xffff_ffffint) * (0xffff_ffffint
            * 0xffff_ffffint)) by (nonlinear_arith)
            requires
                0 <= a * a <= 0xffff_ffffint * 0xffff_ffffint,
                0 <= m * m <= 0xffff_ffffint * 0xffff_ffffint,
        ;
        assert((0xffff_ffffint * 0xffff_ffffint) * (0xffff_ffffint * 0xffff_ffffint)
            <= u128::MAX) by (nonlinear_arith);
        assert(0xffff_ffffint * 0xffff_ffffint <= u128::MAX) by (nonlinear_arith);
    }
    let top: u128 = (a * a) * ((m as u128) * (m as u128));
    let p: u64 = isqrt(top / n);
    if x < 0 {
        -(p as i64)
    } else {
        p as i64
    }
}

/// `x * num / den` rounded toward zero.
pub fn scaled_toward_zero(x: i64, num: u64, den: u128) -> (r: i64)
    requires
        den > 0,
        (abs(x as int) * num) / (den as int) <= i64::MAX,
    ensures
        r == toward_zero(x as int, num as nat, den as nat),
{
    let a: u128 = magnitude(x);
    proof {
        assert(a * num <= 0x8000_0000_0000_0000int * 0xffff_ffff_ffff_ffffint) by (nonlinear_arith)
            requires
                0 <= a <= 0x8000_0000_0000_0000int,
                0 <= num <= 0xffff_ffff_ffff_ffffint,
        ;
        assert(0x8000_0000_0000_0000int * 0xffff_ffff_ffff_ffffint <= u128::MAX)
            by (nonlinear_arith);
        lemma_div_is_ordered(0, a * num, den as int);
    }
    let q: u128 = a * (num as u128) / den;
    if x < 0 {
        -(q as i64)
    } else {
        q as i64
    }
}

/// `|x| * m / sqrt(n)` rounded up, with the sign of `x`.
fn raise(x: i64, m: u32, n: u128) -> (r: i64)
    requires
        0 < n <= 0xffff_ffff * 0xffff_ffff,
        x * x <= n,
    ensures
        abs(r as int) == raised(abs(x as int), m as nat, n as nat),
        x >= 0 ==> r >= 0,
        x <= 0 ==> r <= 0,
        abs(r as int) <= m,
{
    let a: u128 = magnitude(x);
    proof {
        lemma_norm_sq_bounds(x as int, 0);
        assert(a * a == x * x);
        lemma_le_from_squares(a as int, 0xffff_ffff);
        lemma_raised(a as nat, m as nat, n as nat);
        lemma_square_le(a as int, 0xffff_ffff);
        lemma_square_le(m as int, 0xffff_ffff);
        assert((a * a) * (m * m) <= (0xffff_ffffint * 0xffff_ffffint) * (0xffff_ffffint
            * 0xffff_ffffint)) by (nonlinear_arith)
            requires
                0 <= a * a <= 0xffff_ffffint * 0xffff_ffffint,
                0 <= m * m <= 0xffff_ffffint * 0xffff_ffffint,
        ;
        assert((0xffff_ffffint * 0xffff_ffffint) * (0xffff_ffffint * 0xffff_ffffint)
            + 0xffff_ffffint * 0xffff_ffffint <= u128::MAX) by (nonlinear_arith);
        assert(0xffff_ffffint * 0xffff_ffffint <= u128::MAX) by (nonlinear_arith);
    }
    let top: u128 = (a * a) * ((m as u128) * (m as u128));
    let p: u128 = isqrt_up((top + n - 1) / n);
    if x < 0 {
        -(p as i64)
    } else {
        p as i64
    }
}

/// Bounds on a vector whose components were scaled by `num / den` with
/// rounding toward zero, where `den * den` is at least the squared length.
proof fn lemma_shrink_bound(x: int, y: int, p: int, q: int, num: nat, den: nat)
    requires
        den > 0,
        norm_sq(x, y) <= den * den,
        0 <= p,
        0 <= q,
        p * den <= abs(x) * num,
        q * den <= abs(y) * num,
    ensures
        norm_sq(p, q) <= num * num,
{
    lemma_norm_sq_bounds(x, y);
    let a = abs(x);
    let b = abs(y);
    let n = norm_sq(a, b);
    assert(p * den >= 0 && q * den >= 0) by (nonlinear_arith)
        requires
            p >= 0,
            q >= 0,
            den > 0,
    ;
    lemma_square_le(p * den, a * num);
    lemma_square_le(q * den, b * num);
    assert((p * den) * (p * den) == (p * p) * (den * den)) by (nonlinear_arith);
    assert((q * den) * (q * den) == (q * q) * (den * den)) by (nonlinear_arith);
    assert((a * num) * (a * num) + (b * num) * (b * num) == (a * a + b * b) * (num * num))
        by (nonlinear_arith);
    assert((p * p) * (den * den) + (q * q) * (den * den) == (p * p + q * q) * (den * den))
        by (nonlinear_arith);
    assert(n * (num * num) <= (den * den) * (num * num)) by (nonlinear_arith)
        requires
            n <= den * den,
    ;
    let lhs = p * p + q * q;
    let dd = (den * den) as int;
    let mm = (num * num) as int;
    assert(lhs * dd <= dd * mm);
    assert(dd > 0) by (nonlinear_arith)
        requires
            dd == den * den,
            den > 0,
    ;
    assert(lhs <= mm) by (nonlinear_arith)
        requires
            lhs * dd <= dd * mm,
            dd > 0,
    ;
}

impl Vector {
    /// Both components are at most 32 bits wide.
    pub open spec fn is_short(self) -> bool {
        abs(self.x as int) <= 0xffff_ffff && abs(self.y as int) <= 0xffff_ffff
    }

    /// This vector brought to length `m` along its own direction, each
    /// component rounded toward zero. The vector without length stays as it
    /// is.
    ///
    /// A component of a short vector is multiplied by `m` and divided by the
    /// length, and only the quotient is rounded. For a vector that is not
    /// short, whose length is beyond 2^32, the length is rounded up to a whole
    /// number before the division.
    pub open spec fn shrunk(self, m: nat) -> Vector {
        if self.len_sq() == 0 {
            Vector::zero()
        } else if self.is_short() {
            let n = self.len_sq() as nat;
            Vector {
                x: if self.x < 0 {
                    (-lowered(-self.x, m, n)) as i64
                } else {
                    lowered(self.x as int, m, n) as i64
                },
                y: if self.y < 0 {
                    (-lowered(-self.y, m, n)) as i64
                } else {
                    lowered(self.y as int, m, n) as i64
                },
            }
        } else {
            let c = ceil_root(self.len_sq() as nat);
            Vector {
                x: toward_zero(self.x as int, m, c) as i64,
                y: toward_zero(self.y as int, m, c) as i64,
            }
        }
    }

    /// This vector brought to length `m` or just above: both components are
    /// multiplied by `m`, divided by the length, and rounded away from zero.
    /// The vector without length stays as it is.
    pub open spec fn stretched(self, m: nat) -> Vector {
        if self.len_sq() == 0 {
            Vector::zero()
        } else {
            let n = self.len_sq() as nat;
            Vector {
                x: if self.x < 0 {
                    (-raised(-self.x, m, n)) as i64
                } else {
                    raised(self.x as int, m, n) as i64
                },
                y: if self.y < 0 {
                    (-raised(-self.y, m, n)) as i64
                } else {
                    raised(self.y as int, m, n) as i64
                },
            }
        }
    }

    /// The vector of length `m` along the axis of the larger component, with
    /// that component's sign; along the positive x axis where neither is larger
    /// and `x` is not negative.
    pub open spec fn axis(self, m: nat) -> Vector {
        if abs(self.x as int) >= abs(self.y as int) {
            if self.x < 0 {
                Vector { x: (-(m as int)) as i64, y: 0 }
            } else {
                Vector { x: m as i64, y: 0 }
            }
        } else {
            if self.y < 0 {
                Vector { x: 0, y: (-(m as int)) as i64 }
            } else {
                Vector { x: 0, y: m as i64 }
            }
        }
    }

    /// This vector with its length brought into `[min, max]`.
    ///
    /// A vector inside the band is kept. A longer one is shrunk to `max`, a
    /// shorter one stretched to `min`. Where rounding takes the result out of
    /// the band, or where the vector has no length and so no direction, the
    /// result lies on an axis instead.
    pub open spec fn clamped(self, min: nat, max: nat) -> Vector {
        let n = self.len_sq();
        if min * min <= n <= max * max {
            self
        } else if n > max * max {
            if self.shrunk(max).len_sq() >= min * min {
                self.shrunk(max)
            } else {
                self.axis(max)
            }
        } else {
            if n > 0 && self.stretched(min).len_sq() <= max * max {
                self.stretched(min)
            } else {
                self.axis(min)
            }
        }
    }

    /// A shrunk vector is no longer than asked, and points the same way.
    pub proof fn lemma_shrunk(self, m: nat)
        requires
            m <= u32::MAX,
        ensures
            self.shrunk(m).len_sq() <= m * m,
            abs(self.shrunk(m).x as int) <= m,
            abs(self.shrunk(m).y as int) <= m,
            self.x >= 0 ==> self.shrunk(m).x >= 0,
            self.x <= 0 ==> self.shrunk(m).x <= 0,
            self.y >= 0 ==> self.shrunk(m).y >= 0,
            self.y <= 0 ==> self.shrunk(m).y <= 0,
    {
        let n = self.len_sq();
        lemma_norm_sq_bounds(self.x as int, self.y as int);
        let a = abs(self.x as int);
        let b = abs(self.y as int);
        if n == 0 {
            assert(m * m >= 0) by (nonlinear_arith);
        } else if self.is_short() {
            lemma_lowered(a as nat, m, n as nat);
            lemma_lowered(b as nat, m, n as nat);
            let p = lowered(a, m, n as nat);
            let q = lowered(b, m, n as nat);
            let r = self.shrunk(m);
            assert(abs(r.x as int) == p);
            assert(abs(r.y as int) == q);
            lemma_norm_sq_bounds(r.x as int, r.y as int);
            assert((p * p + q * q) * n <= n * (m * m)) by (nonlinear_arith)
                requires
                    p * p * n <= (a * a) * (m * m),
                    q * q * n <= (b * b) * (m * m),
                    n == a * a + b * b,
            ;
            let lhs = (p * p + q * q) as int;
            let mm = (m * m) as int;
            assert(lhs <= mm) by (nonlinear_arith)
                requires
                    lhs * n <= n * mm,
                    n > 0,
            ;
        } else {
            let c = ceil_root(n as nat);
            lemma_ceil_root(n as nat);
            lemma_le_from_squares(a, c as int);
            lemma_le_from_squares(b, c as int);
            lemma_quotient_down(a as nat, m, c);
            lemma_quotient_down(b as nat, m, c);
            let p = (a * m) / (c as int);
            let q = (b * m) / (c as int);
            lemma_shrink_bound(self.x as int, self.y as int, p, q, m, c);
            let r = self.shrunk(m);
            assert(abs(r.x as int) == p);
            assert(abs(r.y as int) == q);
            lemma_norm_sq_bounds(r.x as int, r.y as int);
        }
    }

    /// A shrunk vector with length is hardly shorter than asked: a short one
    /// by less than two units, any other by less than three.
    pub proof fn lemma_shrunk_near(self, m: nat)
        requires
            m <= u32::MAX,
            self.len_sq() > 0,
        ensures
            m >= 2 && self.is_short() ==> self.shrunk(m).len_sq() > (m - 2) * (m - 2),
            m >= 3 ==> self.shrunk(m).len_sq() > (m - 3) * (m - 3),
    {
        let n = self.len_sq();
        lemma_norm_sq_bounds(self.x as int, self.y as int);
        let a = abs(self.x as int);
        let b = abs(self.y as int);
        let r = self.shrunk(m);
        lemma_norm_sq_bounds(r.x as int, r.y as int);
        if self.is_short() {
            lemma_lowered(a as nat, m, n as nat);
            lemma_lowered(b as nat, m, n as nat);
            let p = lowered(a, m, n as nat) as int;
            let q = lowered(b, m, n as nat) as int;
            assert(abs(r.x as int) == p);
            assert(abs(r.y as int) == q);
            let up = (p + 1) * (p + 1) + (q + 1) * (q + 1);
            let mm = (m * m) as int;
            assert(up * n > n * mm) by (nonlinear_arith)
                requires
                    up == (p + 1) * (p + 1) + (q + 1) * (q + 1),
                    (p + 1) * (p + 1) * n > (a * a) * (m * m),
                    (q + 1) * (q + 1) * n > (b * b) * (m * m),
                    n == a * a + b * b,
                    mm == m * m,
            ;
            assert(up > mm) by (nonlinear_arith)
                requires
                    up * n > n * mm,
                    n > 0,
            ;
            if m >= 2 {
                lemma_near(p, q, m as int);
            }
            if m >= 3 {
                assert((m - 2) * (m - 2) >= (m - 3) * (m - 3)) by (nonlinear_arith)
                    requires
                        m >= 3,
                ;
            }
        } else if m >= 3 {
            let c = ceil_root(n as nat) as int;
            lemma_ceil_root(n as nat);
            lemma_le_from_squares(a, c);
            lemma_le_from_squares(b, c);
            // The length is beyond 32 bits, so it is beyond `m`.
            assert(c > m) by {
                if c <= 0xffff_ffff {
                    lemma_square_le(c, 0xffff_ffff);
                    if a > 0xffff_ffff {
                        lemma_square_le(0x1_0000_0000, a);
                    } else {
                        lemma_square_le(0x1_0000_0000, b);
                    }
                    assert(0x1_0000_0000int * 0x1_0000_0000int > 0xffff_ffffint * 0xffff_ffffint)
                        by (nonlinear_arith);
                }
            }
            let p = (a * m) / c;
            let q = (b * m) / c;
            lemma_quotient_down(a as nat, m, c as nat);
            lemma_quotient_down(b as nat, m, c as nat);
            assert(abs(r.x as int) == p);
            assert(abs(r.y as int) == q);
            lemma_fundamental_div_mod(a * m, c);
            lemma_mod_bound(a * m, c);
            lemma_fundamental_div_mod(b * m, c);
            lemma_mod_bound(b * m, c);
            assert((p + 1) * c > a * m) by (nonlinear_arith)
                requires
                    a * m == c * p + (a * m) % c,
                    (a * m) % c < c,
            ;
            assert((q + 1) * c > b * m) by (nonlinear_arith)
                requires
                    b * m == c * q + (b * m) % c,
                    (b * m) % c < c,
            ;
            assert(a * m >= 0 && b * m >= 0) by (nonlinear_arith)
                requires
                    a >= 0,
                    b >= 0,
                    m >= 0,
            ;
            let pc = (p + 1) * c;
            let qc = (q + 1) * c;
            assert(pc * pc > (a * m) * (a * m)) by (nonlinear_arith)
                requires
                    pc > a * m,
                    a * m >= 0,
            ;
            assert(qc * qc > (b * m) * (b * m)) by (nonlinear_arith)
                requires
                    qc > b * m,
                    b * m >= 0,
            ;
            let up = (p + 1) * (p + 1) + (q + 1) * (q + 1);
            let cc = c * c;
            let mm = (m * m) as int;
            assert(up * cc == pc * pc + qc * qc) by (nonlinear_arith)
                requires
                    up == (p + 1) * (p + 1) + (q + 1) * (q + 1),
                    pc == (p + 1) * c,
                    qc == (q + 1) * c,
                    cc == c * c,
            ;
            assert((a * m) * (a * m) + (b * m) * (b * m) == n * mm) by (nonlinear_arith)
                requires
                    n == a * a + b * b,
                    mm == m * m,
            ;
            // With `n > (c - 1)^2` and `m <= c`, the sum exceeds `(m - 1)^2`.
            let low = (m - 1) * (m - 1);
            if up <= low {
                assert(up * cc <= low * cc) by (nonlinear_arith)
                    requires
                        up <= low,
                        cc >= 0,
                        cc == c * c,
                ;
                assert((m - 1) * c <= (c - 1) * m) by (nonlinear_arith)
                    requires
                        m <= c,
                ;
                let left = (m - 1) * c;
                let right = (c - 1) * m;
                assert(left >= 0) by (nonlinear_arith)
                    requires
                        left == (m - 1) * c,
                        m >= 1,
                        c >= 0,
                ;
                lemma_square_le(left, right);
                assert(left * left == low * cc) by (nonlinear_arith)
                    requires
                        left == (m - 1) * c,
                        low == (m - 1) * (m - 1),
                        cc == c * c,
                ;
                assert(right * right == ((c - 1) * (c - 1)) * mm) by (nonlinear_arith)
                    requires
                        right == (c - 1) * m,
                        mm == m * m,
                ;
                assert(((c - 1) * (c - 1)) * mm <= n * mm) by (nonlinear_arith)
                    requires
                        (c - 1) * (c - 1) < n,
                        mm >= 0,
                        mm == m * m,
                ;
                assert(false);
            }
            lemma_near(p, q, m - 1);
        }
    }

    /// A stretched vector with length is no shorter than asked, its
    /// components are at most `m`, and it points the same way.
    pub proof fn lemma_stretched(self, m: nat)
        requires
            m <= u32::MAX,
            self.len_sq() > 0,
        ensures
            self.stretched(m).len_sq() >= m * m,
            abs(self.stretched(m).x as int) <= m,
            abs(self.stretched(m).y as int) <= m,
            self.x >= 0 ==> self.stretched(m).x >= 0,
            self.x <= 0 ==> self.stretched(m).x <= 0,
            self.y >= 0 ==> self.stretched(m).y >= 0,
            self.y <= 0 ==> self.stretched(m).y <= 0,
    {
        let n = self.len_sq() as nat;
        lemma_norm_sq_bounds(self.x as int, self.y as int);
        let a = abs(self.x as int) as nat;
        let b = abs(self.y as int) as nat;
        lemma_raised(a, m, n);
        lemma_raised(b, m, n);
        let p = raised(a as int, m, n);
        let q = raised(b as int, m, n);
        let r = self.stretched(m);
        assert(abs(r.x as int) == p);
        assert(abs(r.y as int) == q);
        lemma_norm_sq_bounds(r.x as int, r.y as int);
        assert(n == a * a + b * b);
        assert((p * p + q * q) * n >= n * (m * m)) by (nonlinear_arith)
            requires
                p * p * n >= (a * a) * (m * m),
                q * q * n >= (b * b) * (m * m),
                n == a * a + b * b,
        ;
        let lhs = (p * p + q * q) as int;
        let mm = (m * m) as int;
        assert(lhs >= mm) by (nonlinear_arith)
            requires
                lhs * n >= n * mm,
                n > 0,
        ;
    }

    /// An axis vector has exactly the length asked.
    pub proof fn lemma_axis(self, m: nat)
        requires
            m <= u32::MAX,
        ensures
            self.axis(m).len_sq() == m * m,
    {
        assert((-(m as int)) * (-(m as int)) == m * m) by (nonlinear_arith);
    }

    /// Whatever the vector, its clamped form has a length inside the band.
    pub proof fn lemma_clamped_in_band(self, min: nat, max: nat)
        requires
            min <= max <= u32::MAX,
        ensures
            min * min <= self.clamped(min, max).len_sq() <= max * max,
    {
        let n = self.len_sq();
        lemma_norm_sq_bounds(self.x as int, self.y as int);
        lemma_square_le(min as int, max as int);
        self.lemma_axis(min);
        self.lemma_axis(max);
        self.lemma_shrunk(max);
        if n > 0 {
            self.lemma_stretched(min);
        }
    }

    /// Brings this vector to length `m`, keeping its direction and rounding each
    /// component toward zero. A vector with length comes out less than three
    /// units shorter than `m`, a short one less than two.
    pub fn scaled_to(self, m: u32) -> (r: Vector)
        ensures
            r == self.shrunk(m as nat),
            r.len_sq() <= m * m,
            self.len_sq() > 0 && m >= 2 && self.is_short() ==> r.len_sq() > (m - 2) * (m - 2),
            self.len_sq() > 0 && m >= 3 ==> r.len_sq() > (m - 3) * (m - 3),
    {
        let n: u128 = self.length_squared();
        proof {
            self.lemma_shrunk(m as nat);
            if n > 0 {
                self.lemma_shrunk_near(m as nat);
            }
            lemma_norm_sq_bounds(self.x as int, self.y as int);
        }
        if n == 0 {
            return Vector { x: 0, y: 0 };
        }
        if magnitude(self.x) <= 0xffff_ffff && magnitude(self.y) <= 0xffff_ffff {
            return Vector { x: lower(self.x, m, n), y: lower(self.y, m, n) };
        }
        let c: u128 = isqrt_up(n);
        proof {
            lemma_ceil_root(n as nat);
            lemma_le_from_squares(abs(self.x as int), c as int);
            lemma_le_from_squares(abs(self.y as int), c as int);
        }
        Vector { x: scale_toward_zero(self.x, m, c), y: scale_toward_zero(self.y, m, c) }
    }

    /// Brings a vector with length that is shorter than `m` to length `m` or
    /// just above, keeping its direction.
    fn stretched_to(self, m: u32) -> (r: Vector)
        requires
            0 < self.len_sq() < m * m,
        ensures
            r == self.stretched(m as nat),
            r.len_sq() >= m * m,
    {
        let n: u128 = self.length_squared();
        proof {
            self.lemma_stretched(m as nat);
            lemma_norm_sq_bounds(self.x as int, self.y as int);
            lemma_square_le(m as int, 0xffff_ffff);
        }
        Vector { x: raise(self.x, m, n), y: raise(self.y, m, n) }
    }

    /// The vector of length `m` along the axis of the larger component.
    fn along_axis(self, m: u32) -> (r: Vector)
        ensures
            r == self.axis(m as nat),
    {
        if magnitude(self.x) >= magnitude(self.y) {
            if self.x < 0 {
                Vector { x: -(m as i64), y: 0 }
            } else {
                Vector { x: m as i64, y: 0 }
            }
        } else {
            if self.y < 0 {
                Vector { x: 0, y: -(m as i64) }
            } else {
                Vector { x: 0, y: m as i64 }
            }
        }
    }

    /// Brings the length of this vector into `[min, max]`.
    pub fn clamp_length(self, min: u32, max: u32) -> (r: Vector)
        requires
            min <= max,
        ensures
            r == self.clamped(min as nat, max as nat),
            min * min <= r.len_sq() <= max * max,
    {
        proof {
            self.lemma_clamped_in_band(min as nat, max as nat);
            assert(min * min <= 0xffff_ffffint * 0xffff_ffffint) by (nonlinear_arith)
                requires
                    0 <= min <= 0xffff_ffffint,
            ;
            assert(max * max <= 0xffff_ffffint * 0xffff_ffffint) by (nonlinear_arith)
                requires
                    0 <= max <= 0xffff_ffffint,
            ;
        }
        let n: u128 = self.length_squared();
        let lower: u128 = (min as u128) * (min as u128);
        let upper: u128 = (max as u128) * (max as u128);
        if lower <= n && n <= upper {
            self
        } else if n > upper {
            let s: Vector = self.scaled_to(max);
            if s.length_squared() >= lower {
                s
            } else {
                self.along_axis(max)
            }
        } else {
            if n > 0 {
                let s: Vector = self.stretched_to(min);
                if s.length_squared() <= upper {
                    return s;
                }
            }
            self.along_axis(min)
        }
    }
}

/// The square of a 32-bit length.
pub fn squared(length: u32) -> (sq: u128)
    ensures
        sq == length * length,
{
    assert(length * length <= 0xffff_ffffint * 0xffff_ffffint) by (nonlinear_arith)
        requires
            0 <= length <= 0xffff_ffffint,
    ;
    (length as u128) * (length as u128)
}

/// Distance does not depend on the direction it is measured in.
pub proof fn lemma_dist_sq_symmetric(a: Point, b: Point)
    ensures
        a.dist_sq(b) == b.dist_sq(a),
{
    let dx = a.x - b.x;
    let dy = a.y - b.y;
    assert(dx * dx == (-dx) * (-dx)) by (nonlinear_arith);
    assert(dy * dy == (-dy) * (-dy)) by (nonlinear_arith);
}

} // verus!
