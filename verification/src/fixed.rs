//! Fixed-point scalars: products, quotients, square roots and the sine.
use vstd::prelude::*;

verus! {

/// Raw value of the number one: a scalar `s` stands for `s / ONE`.
pub const ONE: i64 = 1_000_000;

/// Largest coordinate magnitude that the vector operations accept.
pub const LIMIT: i64 = 1_000_000_000_000;

/// Whether `v` can be held in a scalar.
pub open spec fn fits(v: int) -> bool {
    i64::MIN <= v <= i64::MAX
}

/// Absolute value.
pub open spec fn magnitude(v: int) -> int {
    if v < 0 {
        -v
    } else {
        v
    }
}

/// Quotient of `n` by `d`, rounded toward zero.
pub open spec fn quot(n: int, d: int) -> int
    recommends
        d != 0,
{
    if (n >= 0) == (d > 0) {
        magnitude(n) / magnitude(d)
    } else {
        -(magnitude(n) / magnitude(d))
    }
}

/// Fixed-point product of two scalars.
pub open spec fn product_spec(a: int, b: int) -> int {
    quot(a * b, ONE as int)
}

/// Fixed-point quotient of two scalars.
pub open spec fn quotient_spec(a: int, b: int) -> int
    recommends
        b != 0,
{
    quot(a * ONE, b)
}

/// Division of wide integers, rounded toward zero.
pub fn wide_quot(n: i128, d: i128) -> (r: i128)
    requires
        d != 0,
        n > i128::MIN,
        d > i128::MIN,
    ensures
        r == quot(n as int, d as int),
{
    let nm: u128 = if n < 0 {
        (-n) as u128
    } else {
        n as u128
    };
    let dm: u128 = if d < 0 {
        (-d) as u128
    } else {
        d as u128
    };
    let q: u128 = nm / dm;
    assert(q <= nm) by (nonlinear_arith)
        requires
            q == nm / dm,
            dm >= 1,
    ;
    if (n >= 0) == (d > 0) {
        q as i128
    } else {
        -(q as i128)
    }
}

/// The exact product of two scalars as a wide integer.
pub fn wide_product(a: i64, b: i64) -> (r: i128)
    ensures
        r == a * b,
        -0x4000_0000_0000_0000_0000_0000_0000_0000 <= r <= 0x4000_0000_0000_0000_0000_0000_0000_0000,
{
    assert(-0x4000_0000_0000_0000_0000_0000_0000_0000 <= a * b
        <= 0x4000_0000_0000_0000_0000_0000_0000_0000) by (nonlinear_arith)
        requires
            -0x8000_0000_0000_0000 <= a <= 0x8000_0000_0000_0000,
            -0x8000_0000_0000_0000 <= b <= 0x8000_0000_0000_0000,
    ;
    (a as i128) * (b as i128)
}

/// Fixed-point product `a * b / ONE`, rounded toward zero.
pub fn product(a: i64, b: i64) -> (r: i64)
    requires
        fits(product_spec(a as int, b as int)),
    ensures
        r == product_spec(a as int, b as int),
{
    let q: i128 = wide_quot(wide_product(a, b), 1_000_000);
    q as i64
}

/// Fixed-point quotient `a * ONE / b`, rounded toward zero.
pub fn quotient(a: i64, b: i64) -> (r: i64)
    requires
        b != 0,
        fits(quotient_spec(a as int, b as int)),
    ensures
        r == quotient_spec(a as int, b as int),
{
    let q: i128 = wide_quot(wide_product(a, 1_000_000), b as i128);
    q as i64
}

/// The product of two bounded integers is bounded by the product of the bounds.
pub proof fn lemma_product_bound(a: int, b: int, m: int, n: int)
    by (nonlinear_arith)
    requires
        -m <= a <= m,
        -n <= b <= n,
    ensures
        -(m * n) <= a * b <= m * n,
{
}

/// A quotient rounded toward zero is no larger in magnitude than its numerator,
/// and multiplied back by the divisor it does not pass the numerator.
pub proof fn lemma_quot_bounds(n: int, d: int)
    by (nonlinear_arith)
    requires
        d != 0,
    ensures
        magnitude(quot(n, d)) <= magnitude(n),
        magnitude(quot(n, d)) * magnitude(d) <= magnitude(n),
        magnitude(n) < (magnitude(quot(n, d)) + 1) * magnitude(d),
        magnitude(quot(n, d)) == magnitude(n) / magnitude(d),
{
    let nm = magnitude(n);
    let dm = magnitude(d);
    assert(nm == dm * (nm / dm) + nm % dm && 0 <= nm % dm < dm) by {
        vstd::arithmetic::div_mod::lemma_fundamental_div_mod(nm, dm);
        vstd::arithmetic::div_mod::lemma_mod_bound(nm, dm);
    }
    assert(nm / dm >= 0);
}

/// What a quotient rounded toward zero leaves over is smaller in magnitude
/// than the divisor and has the sign of the numerator.
pub proof fn lemma_quot_remainder(n: int, d: int)
    by (nonlinear_arith)
    requires
        d > 0,
    ensures
        -d < n - quot(n, d) * d < d,
        n >= 0 ==> 0 <= n - quot(n, d) * d,
        n <= 0 ==> n - quot(n, d) * d <= 0,
{
    let nm = magnitude(n);
    assert(nm == d * (nm / d) + nm % d && 0 <= nm % d < d) by {
        vstd::arithmetic::div_mod::lemma_fundamental_div_mod(nm, d);
        vstd::arithmetic::div_mod::lemma_mod_bound(nm, d);
    }
}

/// Scaling back by `ONE` divides a bound by `ONE`.
pub proof fn lemma_quot_one(n: int, b: int)
    requires
        -(b * 1_000_000) <= n <= b * 1_000_000,
    ensures
        -b <= quot(n, ONE as int) <= b,
{
    let m = magnitude(n);
    assert(magnitude(ONE as int) == 1_000_000);
    assert(m / 1_000_000 <= b);
    assert(0 <= m / 1_000_000);
}

/// Scaling back by `ONE` keeps a value between the scaled-back ends of any
/// range that holds it.
pub proof fn lemma_quot_range(n: int, low: int, high: int)
    requires
        low * 1_000_000 <= n <= high * 1_000_000,
    ensures
        low <= quot(n, ONE as int) <= high,
{
    let m = magnitude(n);
    assert(magnitude(ONE as int) == 1_000_000);
    assert(0 <= m / 1_000_000);
    if n >= 0 {
        assert(low <= m / 1_000_000 <= high);
    } else {
        assert(-high <= m / 1_000_000 <= -low);
    }
}

/// Whether `r` is the integer square root of `n`.
pub open spec fn is_root(n: nat, r: nat) -> bool {
    r * r <= n < (r + 1) * (r + 1)
}

/// The integer square root of `n`: the largest `r` with `r * r <= n`.
pub open spec fn root_spec(n: nat) -> nat {
    choose|r: nat| is_root(n, r)
}

/// The smallest `r` with `n <= r * r`.
pub open spec fn root_up_spec(n: nat) -> nat {
    if root_spec(n) * root_spec(n) == n {
        root_spec(n)
    } else {
        root_spec(n) + 1
    }
}

/// Every natural number has an integer square root.
pub proof fn lemma_root_exists(n: nat)
    ensures
        is_root(n, root_spec(n)),
    decreases n,
{
    if n == 0 {
        assert(is_root(0, 0)) by (nonlinear_arith);
    } else {
        lemma_root_exists((n - 1) as nat);
        let r = root_spec((n - 1) as nat);
        if (r + 1) * (r + 1) <= n {
            assert((r + 2) * (r + 2) > (r + 1) * (r + 1)) by (nonlinear_arith);
            assert(is_root(n, r + 1));
        } else {
            assert(is_root(n, r));
        }
    }
}

/// The integer square root is unique.
pub proof fn lemma_root_unique(n: nat, r: nat, s: nat)
    requires
        is_root(n, r),
        is_root(n, s),
    ensures
        r == s,
{
    if r < s {
        assert((r + 1) * (r + 1) <= s * s) by (nonlinear_arith)
            requires
                r + 1 <= s,
        ;
    } else if s < r {
        assert((s + 1) * (s + 1) <= r * r) by (nonlinear_arith)
            requires
                s + 1 <= r,
        ;
    }
}

/// A number that brackets `n` between its square and the next is the root of `n`.
pub proof fn lemma_root_is(n: nat, r: nat)
    requires
        is_root(n, r),
    ensures
        root_spec(n) == r,
{
    lemma_root_exists(n);
    lemma_root_unique(n, r, root_spec(n));
}

/// The integer square root grows with its argument.
pub proof fn lemma_root_monotonic(a: nat, b: nat)
    requires
        a <= b,
    ensures
        root_spec(a) <= root_spec(b),
{
    lemma_root_exists(a);
    lemma_root_exists(b);
    let r = root_spec(a);
    let s = root_spec(b);
    if s < r {
        assert((s + 1) * (s + 1) <= r * r) by (nonlinear_arith)
            requires
                s + 1 <= r,
        ;
    }
}

/// The root of a square is its base.
pub proof fn lemma_root_of_square(r: nat)
    ensures
        root_spec(r * r) == r,
{
    assert(r * r < (r + 1) * (r + 1)) by (nonlinear_arith);
    lemma_root_is(r * r, r);
}

/// Integer square root, by bisection.
pub fn root(n: u128) -> (r: u64)
    ensures
        r == root_spec(n as nat),
{
    let mut lo: u128 = 0;
    let mut hi: u128 = 0x1_0000_0000_0000_0000;
    assert(0x1_0000_0000_0000_0000int * 0x1_0000_0000_0000_0000int > u128::MAX) by (nonlinear_arith);
    while hi - lo > 1
        invariant
            lo < hi <= 0x1_0000_0000_0000_0000,
            lo * lo <= n < hi * hi,
        decreases hi - lo,
    {
        let mid: u128 = lo + (hi - lo) / 2;
        assert(mid * mid <= 0xffff_ffff_ffff_ffff * 0xffff_ffff_ffff_ffff) by (nonlinear_arith)
            requires
                0 <= mid <= 0xffff_ffff_ffff_ffff,
        ;
        assert(0xffff_ffff_ffff_ffffint * 0xffff_ffff_ffff_ffffint <= u128::MAX) by (nonlinear_arith);
        if mid * mid <= n {
            lo = mid;
        } else {
            hi = mid;
        }
    }
    proof {
        assert(is_root(n as nat, lo as nat));
        lemma_root_is(n as nat, lo as nat);
    }
    lo as u64
}

/// Integer square root rounded up.
pub fn root_up(n: u128) -> (r: u128)
    ensures
        r == root_up_spec(n as nat),
        r <= 0x1_0000_0000_0000_0000,
{
    let r: u64 = root(n);
    proof {
        lemma_root_exists(n as nat);
    }
    assert(r * r <= u128::MAX);
    if (r as u128) * (r as u128) == n {
        r as u128
    } else {
        r as u128 + 1
    }
}

/// Half a turn, in raw angle units.
pub const PI: i64 = 3_141_592;

/// A quarter turn.
pub const HALF_PI: i64 = 1_570_796;

/// A full turn.
pub const TAU: i64 = 6_283_184;

/// Sine over half a turn, by the rational approximation
/// `16 x (PI - x) / (5 PI^2 - 4 x (PI - x))`.
pub open spec fn arc_spec(x: int) -> int {
    (16 * (x * (PI - x)) * ONE) / (5 * PI * PI - 4 * (x * (PI - x)))
}

/// The fixed-point sine of the angle `t`.
pub open spec fn sin_spec(t: int) -> int {
    let r = t % (TAU as int);
    if r <= PI {
        arc_spec(r)
    } else {
        -arc_spec(r - PI)
    }
}

/// The fixed-point cosine of the angle `t`.
pub open spec fn cos_spec(t: int) -> int {
    sin_spec(t + HALF_PI)
}

/// The sine over half a turn lies between zero and one.
pub proof fn lemma_arc_bounds(x: int)
    requires
        0 <= x <= PI,
    ensures
        0 <= arc_spec(x) <= ONE,
        0 <= x * (PI - x) <= 2_467_400_073_616,
{
    let y = x * (PI - x);
    assert(0 <= y && 4 * y <= PI * PI) by (nonlinear_arith)
        requires
            y == x * (PI - x),
            0 <= x <= PI,
    ;
    let num = 16 * y * ONE;
    let den = 5 * PI * PI - 4 * y;
    assert(0 <= num / den <= ONE) by (nonlinear_arith)
        requires
            0 <= num <= ONE * den,
            den > 0,
    ;
}

/// Sine and cosine never leave the interval from minus one to one.
pub proof fn lemma_sin_cos_bounds(t: int)
    ensures
        -ONE <= sin_spec(t) <= ONE,
        -ONE <= cos_spec(t) <= ONE,
{
    let r = t % (TAU as int);
    if r <= PI {
        lemma_arc_bounds(r);
    } else {
        lemma_arc_bounds(r - PI);
    }
    let q = (t + HALF_PI) % (TAU as int);
    if q <= PI {
        lemma_arc_bounds(q);
    } else {
        lemma_arc_bounds(q - PI);
    }
}

/// Over the middle half of a half turn the sine is at least seven tenths.
pub proof fn lemma_arc_middle(x: int)
    requires
        785_398 <= x <= 2_356_194,
    ensures
        700_000 <= arc_spec(x),
{
    lemma_arc_bounds(x);
    let y = x * (PI - x);
    assert(y >= 1_850_550_055_212) by (nonlinear_arith)
        requires
            y == x * (3_141_592 - x),
            785_398 <= x <= 2_356_194,
    ;
    let num = 16 * y * ONE;
    let den = 5 * PI * PI - 4 * y;
    assert(num / den >= 700_000) by (nonlinear_arith)
        requires
            num >= 700_000 * den,
            den > 0,
    ;
}

/// At every angle the sine or the cosine has magnitude at least seven
/// tenths.
pub proof fn lemma_sin_or_cos_large(t: int)
    ensures
        magnitude(sin_spec(t)) >= 700_000 || magnitude(cos_spec(t)) >= 700_000,
{
    let r = t % 6_283_184;
    let k = t / 6_283_184;
    assert(t == 6_283_184 * k + r);
    let q = (t + HALF_PI) % 6_283_184;
    if r + HALF_PI >= TAU {
        assert(t + HALF_PI == 6_283_184 * (k + 1) + (r + HALF_PI - TAU));
        assert((t + HALF_PI) / 6_283_184 == k + 1);
        assert(q == r + HALF_PI - TAU);
    } else {
        assert(t + HALF_PI == 6_283_184 * k + (r + HALF_PI));
        assert((t + HALF_PI) / 6_283_184 == k);
        assert(q == r + HALF_PI);
    }
    let xs = if r <= PI {
        r
    } else {
        r - PI
    };
    let xc = if q <= PI {
        q
    } else {
        q - PI
    };
    lemma_arc_bounds(xs);
    lemma_arc_bounds(xc);
    if 785_398 <= xs <= 2_356_194 {
        lemma_arc_middle(xs);
    } else {
        assert(785_398 <= xc <= 2_356_194);
        lemma_arc_middle(xc);
    }
}

/// Sine of an angle already reduced to one turn.
fn sin_reduced(r: i64) -> (s: i64)
    requires
        0 <= r < TAU,
    ensures
        s == sin_spec(r as int),
        -ONE <= s <= ONE,
{
    let x: i64 = if r <= PI {
        r
    } else {
        r - PI
    };
    proof {
        lemma_arc_bounds(x as int);
    }
    let y: i64 = x * (PI - x);
    let num: i128 = 16 * (y as i128) * 1_000_000;
    let den: i128 = 5 * (PI as i128) * (PI as i128) - 4 * (y as i128);
    let a: i128 = num / den;
    if r <= PI {
        a as i64
    } else {
        -(a as i64)
    }
}

/// The angle `t` reduced to the turn that starts at zero.
pub fn reduce(t: i64) -> (r: i64)
    ensures
        r == (t as int) % (TAU as int),
        0 <= r < TAU,
{
    let m: i64 = t % TAU;
    if m < 0 {
        m + TAU
    } else {
        m
    }
}

/// Fixed-point sine of the angle `t`.
pub fn sin(t: i64) -> (s: i64)
    ensures
        s == sin_spec(t as int),
        -ONE <= s <= ONE,
{
    sin_reduced(reduce(t))
}

/// Fixed-point cosine of the angle `t`.
pub fn cos(t: i64) -> (c: i64)
    ensures
        c == cos_spec(t as int),
        -ONE <= c <= ONE,
{
    let r: i64 = reduce(t) + HALF_PI;
    let q: i64 = if r >= TAU {
        r - TAU
    } else {
        r
    };
    proof {
        let k = (t as int) / 6_283_184;
        assert(t == 6_283_184 * k + (t as int) % 6_283_184);
        if r >= TAU {
            assert(t + HALF_PI == 6_283_184 * (k + 1) + q);
            assert((t + HALF_PI) / 6_283_184 == k + 1);
        } else {
            assert(t + HALF_PI == 6_283_184 * k + q);
            assert((t + HALF_PI) / 6_283_184 == k);
        }
        assert((t + HALF_PI) % 6_283_184 == q);
        assert((q as int) % 6_283_184 == q);
    }
    sin_reduced(q)
}

} // verus!
