//! IEEE 754 single-precision numbers, held as their bit patterns and computed
//! with integers.
//!
//! A finite number is a whole multiple of the smallest positive one: its
//! *units*. Every operation gives the number nearest to the exact result,
//! with a tie going to the even bit pattern.

use vstd::arithmetic::power2::*;
use vstd::prelude::*;

verus! {

/// The distance between two exponents in a bit pattern.
pub const STEP: u32 = 0x80_0000;

/// The bit pattern of positive infinity.
pub const INFINITE: u32 = 0x7f80_0000;

/// The bit pattern of a quiet number-less value.
pub const QUIET_NAN: u32 = 0x7fc0_0000;

/// The sign bit.
pub const SIGN: u32 = 0x8000_0000;

/// A single-precision number, as its bit pattern.
#[derive(Clone, Copy, Debug, PartialEq, Eq, Structural)]
pub struct Single {
    pub bits: u32,
}

/// How many units the bit pattern `m` of a non-negative number stands for.
/// The pattern of infinity stands for the first number out of range.
pub open spec fn units_of(m: nat) -> nat {
    let e = m / (STEP as nat);
    let f = m % (STEP as nat);
    if e == 0 {
        f
    } else {
        (f + STEP as nat) * pow2((e - 1) as nat)
    }
}

/// Whether `m` is the bit pattern nearest to `n / d` units.
pub open spec fn is_nearest(n: nat, d: nat, m: nat) -> bool {
    &&& m <= INFINITE
    &&& m > 0 ==> {
        let mid = (units_of((m - 1) as nat) + units_of(m)) * d;
        2 * n > mid || (2 * n == mid && m % 2 == 0)
    }
    &&& m < INFINITE ==> {
        let mid = (units_of(m) + units_of(m + 1)) * d;
        2 * n < mid || (2 * n == mid && m % 2 == 0)
    }
}

/// The bit pattern nearest to `n / d` units.
pub open spec fn nearest(n: nat, d: nat) -> nat {
    choose|m: nat| is_nearest(n, d, m)
}

impl Single {
    /// The bit pattern without the sign.
    pub open spec fn magnitude(self) -> nat {
        (self.bits % SIGN) as nat
    }

    pub open spec fn negative(self) -> bool {
        self.bits >= SIGN
    }

    pub open spec fn is_nan(self) -> bool {
        self.magnitude() > INFINITE
    }

    pub open spec fn is_infinite(self) -> bool {
        self.magnitude() == INFINITE
    }

    pub open spec fn is_finite(self) -> bool {
        self.magnitude() < INFINITE
    }

    /// The size of a finite number, in units.
    pub open spec fn units(self) -> nat {
        units_of(self.magnitude())
    }

    /// A finite number, in units.
    pub open spec fn signed_units(self) -> int {
        if self.negative() {
            -(self.units() as int)
        } else {
            self.units() as int
        }
    }
}

/// Units grow with the bit pattern.
pub proof fn units_grow_one(m: nat)
    ensures
        units_of(m) < units_of(m + 1),
{
    let s = STEP as nat;
    let e = m / s;
    let f = m % s;
    assert(m == e * s + f);
    if f + 1 < s {
        assert((m + 1) / s == e && (m + 1) % s == f + 1) by (nonlinear_arith)
            requires
                m == e * s + f,
                f + 1 < s,
        ;
        if e > 0 {
            lemma_pow2_pos((e - 1) as nat);
            let p = pow2((e - 1) as nat);
            assert((f + s) * p < (f + 1 + s) * p) by (nonlinear_arith)
                requires
                    p > 0,
            ;
            assert(units_of(m + 1) == (f + 1 + s) * p);
        }
    } else {
        assert((m + 1) / s == e + 1 && (m + 1) % s == 0) by (nonlinear_arith)
            requires
                m == e * s + f,
                f + 1 == s,
        ;
        lemma_pow2_pos(e);
        assert(units_of(m + 1) == s * pow2(e));
        if e > 0 {
            lemma_pow2_unfold(e);
            let p = pow2((e - 1) as nat);
            lemma_pow2_pos((e - 1) as nat);
            assert((f + s) * p < s * (2 * p)) by (nonlinear_arith)
                requires
                    p > 0,
                    f + 1 == s,
            ;
        } else {
            lemma2_to64();
        }
    }
}

/// Units grow with the bit pattern.
pub proof fn units_grow(a: nat, b: nat)
    requires
        a <= b,
    ensures
        units_of(a) <= units_of(b),
        a < b ==> units_of(a) < units_of(b),
    decreases b - a,
{
    if a < b {
        units_grow(a, (b - 1) as nat);
        units_grow_one((b - 1) as nat);
    }
}

/// Only one bit pattern is the nearest.
pub proof fn nearest_unique(n: nat, d: nat, a: nat, b: nat)
    requires
        d > 0,
        is_nearest(n, d, a),
        is_nearest(n, d, b),
    ensures
        a == b,
{
    if a < b {
        nearest_ordered(n, d, a, b);
    } else if b < a {
        nearest_ordered(n, d, b, a);
    }
}

proof fn nearest_ordered(n: nat, d: nat, a: nat, b: nat)
    requires
        d > 0,
        is_nearest(n, d, a),
        a < b,
    ensures
        !is_nearest(n, d, b),
{
    units_grow(a, (b - 1) as nat);
    units_grow(a + 1, b);
    let low = units_of(a) + units_of(a + 1);
    let high = units_of((b - 1) as nat) + units_of(b);
    if a + 1 < b {
        assert(low < high);
        assert(low * d < high * d) by (nonlinear_arith)
            requires
                low < high,
                d > 0,
        ;
    }
}

/// The pattern that is the nearest is what `nearest` names.
pub proof fn nearest_is(n: nat, d: nat, m: nat)
    requires
        d > 0,
        is_nearest(n, d, m),
    ensures
        nearest(n, d) == m,
{
    nearest_unique(n, d, m, nearest(n, d));
}

/// Whether a number is not below the middle between `m` and the pattern before
/// it, or on it and `m` is even.
spec fn reaches(n: nat, d: nat, m: nat) -> bool {
    m > 0 ==> {
        let mid = (units_of((m - 1) as nat) + units_of(m)) * d;
        2 * n > mid || (2 * n == mid && m % 2 == 0)
    }
}

proof fn nearest_below(n: nat, d: nat, m: nat)
    requires
        m <= INFINITE,
        m == INFINITE || !reaches(n, d, m + 1),
    ensures
        exists|k: nat| is_nearest(n, d, k),
    decreases m,
{
    if reaches(n, d, m) {
        assert(is_nearest(n, d, m));
    } else {
        nearest_below(n, d, (m - 1) as nat);
    }
}

/// There is a nearest bit pattern.
pub proof fn nearest_exists(n: nat, d: nat)
    ensures
        is_nearest(n, d, nearest(n, d)),
{
    nearest_below(n, d, INFINITE as nat);
}

/// What is not above a number is not rounded above it.
pub proof fn nearest_at_most(n: nat, d: nat, k: nat)
    requires
        d > 0,
        n <= units_of(k) * d,
    ensures
        nearest(n, d) <= k,
{
    nearest_exists(n, d);
    let m = nearest(n, d);
    if m > k {
        units_grow_one((m - 1) as nat);
        if m - 1 > k {
            units_grow(k, (m - 1) as nat);
        }
        let u = units_of(k);
        let v = units_of((m - 1) as nat) + units_of(m);
        assert(v * d > 2 * (u * d)) by (nonlinear_arith)
            requires
                v > 2 * u,
                d > 0,
        ;
    }
}

/// What is not below a number is not rounded below it.
pub proof fn nearest_at_least(n: nat, d: nat, k: nat)
    requires
        d > 0,
        k <= INFINITE,
        n >= units_of(k) * d,
    ensures
        nearest(n, d) >= k,
{
    nearest_exists(n, d);
    let m = nearest(n, d);
    if m < k {
        units_grow_one(m);
        if m + 1 < k {
            units_grow(m + 1, k);
        }
        let u = units_of(k);
        let v = units_of(m) + units_of(m + 1);
        assert(v * d < 2 * (u * d)) by (nonlinear_arith)
            requires
                v < 2 * u,
                d > 0,
        ;
    }
}

/// The pattern of a power of two.
pub proof fn power_pattern(k: nat)
    ensures
        units_of(((127 + k) * STEP) as nat) == pow2(149 + k),
{
    let m = ((127 + k) * STEP) as nat;
    vstd::arithmetic::div_mod::lemma_fundamental_div_mod_converse(
        m as int,
        STEP as int,
        127 + k as int,
        0,
    );
    lemma2_to64();
    lemma_pow2_adds(23, 126 + k);
}

/// A number of units that a pattern stands for is nearest to itself.
pub proof fn nearest_exact(m: nat)
    requires
        m < INFINITE,
    ensures
        nearest(units_of(m), 1) == m,
{
    units_grow_one(m);
    if m > 0 {
        units_grow_one((m - 1) as nat);
    }
    nearest_is(units_of(m), 1, m);
}

/// The pattern with significand `q` at the exponent `e`.
proof fn units_at(e: nat, q: nat)
    requires
        q <= 2 * STEP,
        e > 0 ==> q >= STEP,
    ensures
        units_of(e * (STEP as nat) + q) == q * pow2(e),
{
    let s = STEP as nat;
    let m = e * s + q;
    lemma2_to64();
    if q < s {
        assert(e == 0);
        assert(m / s == 0 && m % s == q) by (nonlinear_arith)
            requires
                m == q,
                q < s,
        ;
    } else if q < 2 * s {
        assert(m / s == e + 1 && m % s == q - s) by (nonlinear_arith)
            requires
                m == e * s + q,
                s <= q < 2 * s,
        ;
    } else {
        assert(m / s == e + 2 && m % s == 0) by (nonlinear_arith)
            requires
                m == e * s + q,
                q == 2 * s,
                s > 0,
        ;
        lemma_pow2_unfold(e + 1);
        assert(s * (2 * pow2(e)) == (2 * s) * pow2(e)) by (nonlinear_arith);
    }
}

/// `x` lies in the step of length `p` that `sig` numbers; `sticky` tells
/// whether it lies behind the beginning of that step.
spec fn in_step(x: nat, sig: nat, p: nat, sticky: bool) -> bool {
    &&& p > 0
    &&& sig * p <= x < (sig + 1) * p
    &&& sticky == (sig * p < x)
}

proof fn step_halved(x: nat, sig: nat, p: nat, sticky: bool)
    requires
        in_step(x, sig, p, sticky),
    ensures
        in_step(x, sig / 2, 2 * p, sticky || sig % 2 == 1),
{
    let h = sig / 2;
    let r = sig % 2;
    assert(h * (2 * p) + r * p == sig * p) by (nonlinear_arith)
        requires
            sig == 2 * h + r,
    ;
    assert((h + 1) * (2 * p) + r * p == (sig + 1) * p + p) by (nonlinear_arith)
        requires
            sig == 2 * h + r,
    ;
    assert(r == 0 || r * p == p) by (nonlinear_arith)
        requires
            r == 0 || r == 1,
    ;
    assert(r == 0 ==> r * p == 0) by (nonlinear_arith);
}

/// Drops the lowest `by` bits of `sig`, keeping track of whether any was set.
fn shift_down(sig: u128, sticky: bool, by: u32, Ghost(x): Ghost<nat>, Ghost(p): Ghost<nat>) -> (r: (
    u128,
    bool,
))
    requires
        in_step(x, sig as nat, p, sticky),
    ensures
        in_step(x, r.0 as nat, p * pow2(by as nat), r.1),
        r.0 <= sig,
{
    let mut s: u128 = sig;
    let mut k: bool = sticky;
    let mut i: u32 = 0;
    proof {
        lemma2_to64();
        assert(p * pow2(0) == p) by (nonlinear_arith)
            requires
                pow2(0) == 1,
        ;
    }
    while i < by
        invariant
            i <= by,
            s <= sig,
            in_step(x, s as nat, p * pow2(i as nat), k),
        decreases by - i,
    {
        proof {
            step_halved(x, s as nat, p * pow2(i as nat), k);
            lemma_pow2_unfold((i + 1) as nat);
            assert(2 * (p * pow2(i as nat)) == p * pow2((i + 1) as nat)) by (nonlinear_arith)
                requires
                    pow2((i + 1) as nat) == 2 * pow2(i as nat),
            ;
        }
        k = k || s % 2 == 1;
        s = s / 2;
        i += 1;
    }
    (s, k)
}

/// A significand below `2 * STEP`, with two more bits and a flag for what is
/// behind them, rounds to the nearest pattern.
proof fn rounding(n: nat, d: nat, e: nat, sig: nat, sticky: bool, m: nat)
    requires
        d > 0,
        in_step(4 * n, sig, pow2(e) * d, sticky),
        sig < 8 * STEP,
        e > 0 ==> sig >= 4 * STEP,
        e <= 253,
        m == e * (STEP as nat) + sig / 4 + (if sig % 4 == 3 || (sig % 4 == 2 && (sticky || (sig
            / 4) % 2 == 1)) {
            1nat
        } else {
            0nat
        }),
    ensures
        is_nearest(n, d, m),
{
    let q = sig / 4;
    let r = sig % 4;
    let s = STEP as nat;
    let low = e * s + q;
    let p = pow2(e);
    units_at(e, q);
    units_at(e, q + 1);
    assert(low + 1 == e * s + (q + 1));
    lemma_pow2_pos(e);
    let w = p * d;
    assert(w > 0) by (nonlinear_arith)
        requires
            p > 0,
            d > 0,
            w == p * d,
    ;
    assert(sig * w == 4 * (q * w) + r * w) by (nonlinear_arith)
        requires
            sig == 4 * q + r,
    ;
    assert((sig + 1) * w == 4 * (q * w) + (r + 1) * w) by (nonlinear_arith)
        requires
            sig == 4 * q + r,
    ;
    assert((q * p) * d == q * w) by (nonlinear_arith)
        requires
            w == p * d,
    ;
    assert((q * p + (q + 1) * p) * d == 2 * (q * w) + w) by (nonlinear_arith)
        requires
            w == p * d,
    ;
    assert(low % 2 == q % 2) by (nonlinear_arith)
        requires
            low == e * s + q,
            s == 0x80_0000,
    ;
    assert(r == 0 ==> r * w == 0) by (nonlinear_arith);
    assert(r == 1 ==> r * w == w) by (nonlinear_arith);
    assert(r == 2 ==> r * w == 2 * w) by (nonlinear_arith);
    assert(r == 3 ==> r * w == 3 * w) by (nonlinear_arith);
    assert((r + 1) * w == r * w + w) by (nonlinear_arith);
    assert(e * s <= 253 * s) by (nonlinear_arith)
        requires
            e <= 253,
    ;
    if m == low {
        // 2n <= (q + q + 1) w, and n >= q w.
        if low > 0 {
            units_grow_one((low - 1) as nat);
            let below = units_of((low - 1) as nat);
            assert((below + q * p) * d < 2 * (q * w)) by (nonlinear_arith)
                requires
                    below < q * p,
                    d > 0,
                    (q * p) * d == q * w,
            ;
        }
    } else {
        assert(m == low + 1);
        units_grow_one(m);
        let above = units_of(m + 1);
        assert(((q + 1) * p) * d == q * w + w) by (nonlinear_arith)
            requires
                w == p * d,
        ;
        assert(((q + 1) * p + above) * d > 2 * (q * w + w)) by (nonlinear_arith)
            requires
                above > (q + 1) * p,
                d > 0,
                ((q + 1) * p) * d == q * w + w,
        ;
    }
}

/// Beyond the largest exponent every number rounds to infinity.
proof fn rounding_out(n: nat, d: nat, e: nat, sig: nat)
    requires
        d > 0,
        sig * (pow2(e) * d) <= 4 * n,
        sig >= 4 * STEP,
        e >= 254,
    ensures
        is_nearest(n, d, INFINITE as nat),
{
    let s = STEP as nat;
    let top = INFINITE as nat;
    units_at(254, s);
    assert(254 * s + s == top);
    units_grow_one((top - 1) as nat);
    if e > 254 {
        lemma_pow2_strictly_increases(254, e);
    }
    let p = pow2(254);
    let below = units_of((top - 1) as nat);
    let pe = pow2(e);
    let full = (s * p) * d;
    assert(pe * d >= p * d) by (nonlinear_arith)
        requires
            pe >= p,
            d > 0,
    ;
    let w = pe * d;
    let pd = p * d;
    assert(sig * w >= (4 * s) * pd) by (nonlinear_arith)
        requires
            sig >= 4 * s,
            w >= pd,
    ;
    assert((4 * s) * (p * d) == 4 * ((s * p) * d)) by (nonlinear_arith)
        requires
            s == 0x80_0000,
    ;
    let sp = s * p;
    assert((below + sp) * d < 2 * (sp * d)) by (nonlinear_arith)
        requires
            below < sp,
            d > 0,
    ;
}

proof fn most_bits(s: u128, k: nat)
    requires
        k >= 128,
    ensures
        s < pow2(k),
{
    lemma2_to64();
    lemma_pow2_adds(64, 64);
    if k > 128 {
        lemma_pow2_strictly_increases(128, k);
    }
}

/// The bit pattern nearest to `n / d` units, given `4 n` as a significand of
/// steps of length `2^exp d`.
fn assemble(sig: u128, exp: u32, sticky: bool, Ghost(n): Ghost<nat>, Ghost(d): Ghost<nat>) -> (m: u32)
    requires
        d > 0,
        in_step(4 * n, sig as nat, pow2(exp as nat) * d, sticky),
        exp <= 0x1000,
        exp == 0 || !sticky || sig >= 8 * STEP,
    ensures
        is_nearest(n, d, m as nat),
        m == nearest(n, d),
        m <= INFINITE,
{
    let mut s: u128 = sig;
    let mut e: u32 = exp;
    let mut k: bool = sticky;
    if s == 0 && !k {
        proof {
            assert(0 * (pow2(exp as nat) * d) == 0) by (nonlinear_arith);
            units_grow_one(0);
            let top = units_of(0) + units_of(1);
            assert(top * d > 0) by (nonlinear_arith)
                requires
                    top > 0,
                    d > 0,
            ;
            nearest_is(n, d, 0);
        }
        return 0;
    }
    while s < 4 * (STEP as u128) && e > 0
        invariant
            d > 0,
            s > 0 || k,
            in_step(4 * n, s as nat, pow2(e as nat) * d, k),
            e <= 0x1000,
            e == 0 || !k || s >= 8 * STEP,
        decreases e,
    {
        proof {
            lemma_pow2_unfold(e as nat);
            lemma_pow2_pos((e - 1) as nat);
            let h = pow2((e - 1) as nat);
            assert((2 * s as nat) * (h * d) == (s as nat) * ((2 * h) * d)) by (nonlinear_arith);
            assert(h * d > 0) by (nonlinear_arith)
                requires
                    h > 0,
                    d > 0,
            ;
            assert((2 * s as nat + 1) * (h * d) == (2 * s as nat) * (h * d) + h * d)
                by (nonlinear_arith);
        }
        s = s * 2;
        e -= 1;
    }
    proof {
        most_bits(s, (0x1080 - e) as nat);
    }
    while s >= 8 * (STEP as u128)
        invariant
            d > 0,
            in_step(4 * n, s as nat, pow2(e as nat) * d, k),
            e <= 0x1080,
            e > 0 ==> s >= 4 * STEP,
            s < pow2((0x1080 - e) as nat),
        decreases s,
    {
        proof {
            if e == 0x1080 {
                lemma2_to64();
            }
            lemma_pow2_unfold((0x1080 - e) as nat);
            step_halved(4 * n, s as nat, pow2(e as nat) * d, k);
            lemma_pow2_unfold((e + 1) as nat);
            assert(2 * (pow2(e as nat) * d) == pow2((e + 1) as nat) * d) by (nonlinear_arith)
                requires
                    pow2((e + 1) as nat) == 2 * pow2(e as nat),
            ;
        }
        k = k || s % 2 == 1;
        s = s / 2;
        e += 1;
    }
    if e > 253 {
        proof {
            rounding_out(n, d, e as nat, s as nat);
            nearest_is(n, d, INFINITE as nat);
        }
        return INFINITE;
    }
    let q = (s / 4) as u32;
    let r = (s % 4) as u32;
    let up = r == 3 || (r == 2 && (k || q % 2 == 1));
    let m: u32 = e * STEP + q + if up { 1u32 } else { 0u32 };
    proof {
        rounding(n, d, e as nat, s as nat, k, m as nat);
        nearest_is(n, d, m as nat);
    }
    m
}

/// The significand and the exponent of a bit pattern.
fn split(m: u32) -> (r: (u32, u32))
    requires
        m < INFINITE,
    ensures
        units_of(m as nat) == r.0 as nat * pow2(r.1 as nat),
        r.0 < 2 * STEP,
        r.1 <= 253,
        r.1 > 0 ==> r.0 >= STEP,
        r.1 == (if m < STEP { 0 } else { (m / STEP - 1) as u32 }),
        m == r.1 * STEP + r.0,
{
    let e = m / STEP;
    let f = m % STEP;
    if e == 0 {
        proof {
            units_at(0, f as nat);
        }
        (f, 0)
    } else {
        proof {
            units_at((e - 1) as nat, (f + STEP) as nat);
        }
        (f + STEP, e - 1)
    }
}

/// `2^k`.
fn power(k: u32) -> (r: u128)
    requires
        k <= 64,
    ensures
        r == pow2(k as nat),
{
    let mut r: u128 = 1;
    let mut i: u32 = 0;
    proof {
        lemma2_to64();
    }
    while i < k
        invariant
            i <= k <= 64,
            r == pow2(i as nat),
        decreases k - i,
    {
        proof {
            lemma_pow2_unfold((i + 1) as nat);
            lemma2_to64();
            if i + 1 < 64 {
                lemma_pow2_strictly_increases((i + 1) as nat, 64);
            }
        }
        r = r * 2;
        i += 1;
    }
    r
}

/// The exact number `hi 2^a` less or plus `lo 2^b` rounds as its leading bits
/// do.
fn combine(hi: u32, a: u32, lo: u32, b: u32, minus: bool) -> (m: u32)
    requires
        b <= a <= 253,
        hi < 2 * STEP,
        lo < 2 * STEP,
        a > 0 ==> hi >= STEP,
        minus ==> lo * pow2(b as nat) <= hi * pow2(a as nat),
    ensures
        minus ==> m == nearest((hi * pow2(a as nat) - lo * pow2(b as nat)) as nat, 1),
        !minus ==> m == nearest((hi * pow2(a as nat) + lo * pow2(b as nat)) as nat, 1),
        m <= INFINITE,
{
    let k = a - b;
    let ghost pa = pow2(a as nat);
    let ghost pb = pow2(b as nat);
    let ghost n: nat = if minus {
        (hi * pa - lo * pb) as nat
    } else {
        (hi * pa + lo * pb) as nat
    };
    proof {
        lemma_pow2_pos(b as nat);
        lemma2_to64();
    }
    if k <= 32 {
        let scale = power(k);
        proof {
            lemma_pow2_adds(k as nat, b as nat);
            let pk = pow2(k as nat);
            if k < 32 {
                lemma_pow2_strictly_increases(k as nat, 32);
            }
            assert(hi * pk < 0x100_0000 * 0x1_0000_0000) by (nonlinear_arith)
                requires
                    hi < 0x100_0000,
                    0 < pk <= 0x1_0000_0000,
            ;
            assert((hi * pk) * pb == hi * pa) by (nonlinear_arith)
                requires
                    pa == pk * pb,
            ;
            if minus {
                assert(lo <= hi * pk) by (nonlinear_arith)
                    requires
                        lo * pb <= (hi * pk) * pb,
                        pb > 0,
                ;
            }
        }
        let h = hi as u128 * scale;
        let sig: u128 = if minus {
            h - lo as u128
        } else {
            h + lo as u128
        };
        proof {
            let pk = pow2(k as nat);
            let g = sig as nat;
            assert(n == g * pb) by (nonlinear_arith)
                requires
                    (hi * pk) * pb == hi * pa,
                    minus ==> g == hi * pk - lo && n == hi * pa - lo * pb,
                    !minus ==> g == hi * pk + lo && n == hi * pa + lo * pb,
            ;
            exact_step(n, g, b as nat);
        }
        assemble(sig, b + 2, false, Ghost(n), Ghost(1nat))
    } else {
        let by = k - 32;
        proof {
            assert(lo * pb < (lo + 1) * pb) by (nonlinear_arith)
                requires
                    pb > 0,
            ;
        }
        let (tail, cut) = shift_down(lo as u128, false, by, Ghost((lo * pb) as nat), Ghost(pb));
        let c = b + by;
        let ghost pc = pow2(c as nat);
        proof {
            lemma_pow2_adds(b as nat, by as nat);
            lemma_pow2_adds(c as nat, 32);
            assert(hi * pa == (hi * 0x1_0000_0000) * pc) by (nonlinear_arith)
                requires
                    pa == pc * 0x1_0000_0000,
            ;
        }
        let h = hi as u128 * 0x1_0000_0000;
        let ghost t = tail as nat;
        if minus {
            let sig: u128 = if cut {
                h - tail - 1
            } else {
                h - tail
            };
            proof {
                let g = sig as nat;
                let hh = h as nat;
                let x = (lo * pb) as nat;
                if cut {
                    assert(g * pc < hh * pc - x && hh * pc - x < (g + 1) * pc) by (nonlinear_arith)
                        requires
                            g == hh - t - 1,
                            t * pc < x < (t + 1) * pc,
                    ;
                } else {
                    assert(g * pc == hh * pc - x) by (nonlinear_arith)
                        requires
                            g == hh - t,
                            t * pc == x,
                    ;
                    assert(hh * pc - x < (g + 1) * pc) by (nonlinear_arith)
                        requires
                            g == hh - t,
                            t * pc == x,
                            pc > 0,
                    ;
                }
                step_in_quarters(n, g, c as nat, cut);
            }
            assemble(sig, c + 2, cut, Ghost(n), Ghost(1nat))
        } else {
            let sig: u128 = h + tail;
            proof {
                let g = sig as nat;
                let hh = h as nat;
                let x = (lo * pb) as nat;
                assert(g * pc == hh * pc + t * pc && (g + 1) * pc == hh * pc + (t + 1) * pc)
                    by (nonlinear_arith)
                    requires
                        g == hh + t,
                ;
                step_in_quarters(n, g, c as nat, cut);
            }
            assemble(sig, c + 2, cut, Ghost(n), Ghost(1nat))
        }
    }
}

proof fn step_in_quarters(n: nat, g: nat, c: nat, cut: bool)
    requires
        in_step(n, g, pow2(c), cut),
    ensures
        in_step(4 * n, g, pow2(c + 2) * 1, cut),
{
    lemma2_to64();
    lemma_pow2_adds(c, 2);
    let p = pow2(c);
    assert(g * (p * 4) == 4 * (g * p)) by (nonlinear_arith);
    assert((g + 1) * (p * 4) == 4 * ((g + 1) * p)) by (nonlinear_arith);
}

proof fn exact_step(n: nat, g: nat, c: nat)
    requires
        n == g * pow2(c),
    ensures
        in_step(4 * n, g, pow2(c + 2) * 1, false),
{
    lemma_pow2_pos(c);
    let p = pow2(c);
    assert((g + 1) * p == g * p + p) by (nonlinear_arith);
    step_in_quarters(n, g, c, false);
}

proof fn quotient_step(p: nat, q: nat, a: nat, n: nat, g: nat, cut: bool)
    requires
        q > 0,
        n == (p * pow2(a)) * pow2(149),
        g == (p * 0x10_0000_0000_0000_0000_0000_0000) / q,
        cut == ((p * 0x10_0000_0000_0000_0000_0000_0000) % q != 0),
    ensures
        in_step(4 * n, g, q * pow2(a + 51), cut),
{
    let wide = p * 0x10_0000_0000_0000_0000_0000_0000;
    let r = wide % q;
    vstd::arithmetic::div_mod::lemma_fundamental_div_mod(wide as int, q as int);
    assert(wide == q * g + r);
    lemma2_to64();
    lemma_pow2_adds(64, 36);
    lemma_pow2_adds(32, 4);
    lemma_pow2_adds(a, 149);
    lemma_pow2_adds(a + 51, 100);
    lemma_pow2_adds(a + 149, 2);
    lemma_pow2_pos(a + 51);
    let pa = pow2(a);
    let pn = pow2(149);
    let pc = pow2(a + 51);
    let h = pow2(100);
    assert(h == 0x10_0000_0000_0000_0000_0000_0000);
    assert((a + 51) + 100 == (a + 149) + 2);
    assert((p * pa) * pn == p * (pa * pn)) by (nonlinear_arith);
    assert(4 * (p * pow2(a + 149)) == p * (pow2(a + 149) * 4)) by (nonlinear_arith);
    assert(p * (pc * h) == (p * h) * pc) by (nonlinear_arith);
    assert(4 * n == wide * pc);
    assert(g * (q * pc) + r * pc == wide * pc) by (nonlinear_arith)
        requires
            wide == q * g + r,
    ;
    assert((g + 1) * (q * pc) == g * (q * pc) + q * pc) by (nonlinear_arith);
    assert(q * pc > r * pc && q * pc > 0) by (nonlinear_arith)
        requires
            q > r,
            pc > 0,
            q > 0,
    ;
    assert((r == 0) == (r * pc == 0)) by (nonlinear_arith)
        requires
            pc > 0,
    ;
}

/// One unit is `2^-149`: so many units make the number one.
pub open spec fn one() -> nat {
    pow2(149)
}

/// The absolute value of an integer.
pub open spec fn size(x: int) -> nat {
    if x < 0 {
        (-x) as nat
    } else {
        x as nat
    }
}

/// The bit pattern `m` with a sign.
pub open spec fn with_sign(negative: bool, m: nat) -> nat {
    if negative {
        SIGN as nat + m
    } else {
        m
    }
}

impl Single {
    /// The bit pattern of `|self - other|`.
    pub open spec fn gap_bits(self, other: Single) -> nat {
        if self.is_nan() || other.is_nan() {
            QUIET_NAN as nat
        } else if self.is_infinite() && other.is_infinite() && self.negative()
            == other.negative() {
            QUIET_NAN as nat
        } else if self.is_infinite() || other.is_infinite() {
            INFINITE as nat
        } else {
            nearest(size(self.signed_units() - other.signed_units()), 1)
        }
    }

    /// The bit pattern of `self * factor`, for a finite factor above zero.
    pub open spec fn times_bits(self, factor: Single) -> nat {
        if self.is_nan() {
            QUIET_NAN as nat
        } else if self.is_infinite() {
            with_sign(self.negative(), INFINITE as nat)
        } else {
            with_sign(self.negative(), nearest(self.units() * factor.units(), one()))
        }
    }

    /// The bit pattern of `self / other`.
    pub open spec fn over_bits(self, other: Single) -> nat {
        let negative = self.negative() != other.negative();
        if self.is_nan() || other.is_nan() || (self.is_infinite() && other.is_infinite()) {
            QUIET_NAN as nat
        } else if self.is_infinite() {
            with_sign(negative, INFINITE as nat)
        } else if other.is_infinite() {
            with_sign(negative, 0)
        } else if other.units() == 0 {
            if self.units() == 0 {
                QUIET_NAN as nat
            } else {
                with_sign(negative, INFINITE as nat)
            }
        } else {
            with_sign(negative, nearest(self.units() * one(), other.units()))
        }
    }

    /// The size of a finite number, rounded down to an integer.
    pub open spec fn whole(self) -> nat {
        self.units() / one()
    }

    /// The size of a finite number, rounded to an integer, a half going up.
    pub open spec fn rounded(self) -> nat {
        (2 * self.units() + one()) / (2 * one())
    }

    /// The number for a bit pattern.
    pub fn from_bits(bits: u32) -> (r: Single)
        ensures
            r.bits == bits,
    {
        Single { bits }
    }

    /// `|self - other|`.
    pub fn gap(self, other: Single) -> (r: Single)
        ensures
            r.bits == self.gap_bits(other),
    {
        let x = self.bits % SIGN;
        let y = other.bits % SIGN;
        let same = (self.bits >= SIGN) == (other.bits >= SIGN);
        if x > INFINITE || y > INFINITE || (x == INFINITE && y == INFINITE && same) {
            return Single { bits: QUIET_NAN };
        }
        if x == INFINITE || y == INFINITE {
            return Single { bits: INFINITE };
        }
        let (big, small) = if x >= y {
            (x, y)
        } else {
            (y, x)
        };
        let (hi, a) = split(big);
        let (lo, b) = split(small);
        proof {
            units_grow(small as nat, big as nat);
        }
        Single { bits: combine(hi, a, lo, b, same) }
    }

    /// `self * factor`, for a finite factor above zero.
    pub fn times(self, factor: Single) -> (r: Single)
        requires
            factor.is_finite(),
            !factor.negative(),
            factor.units() > 0,
        ensures
            r.bits == self.times_bits(factor),
    {
        let x = self.bits % SIGN;
        let sign: u32 = if self.bits >= SIGN {
            SIGN
        } else {
            0
        };
        if x > INFINITE {
            return Single { bits: QUIET_NAN };
        }
        if x == INFINITE {
            return Single { bits: sign + INFINITE };
        }
        let (p, a) = split(x);
        let (q, b) = split(factor.bits);
        let e = a + b;
        proof {
            assert(p * q < 0x100_0000 * 0x100_0000) by (nonlinear_arith)
                requires
                    0 <= p < 0x100_0000,
                    0 <= q < 0x100_0000,
            ;
        }
        let sig: u128 = p as u128 * q as u128;
        let ghost n = (self.units() * factor.units()) as nat;
        let ghost g = sig as nat;
        let ghost pe = pow2(e as nat);
        let ghost four = pow2((e + 2) as nat);
        proof {
            lemma_pow2_pos(149);
            let pa = pow2(a as nat);
            let pb = pow2(b as nat);
            lemma_pow2_adds(a as nat, b as nat);
            assert((p * pa) * (q * pb) == (p * q) * (pa * pb)) by (nonlinear_arith);
            lemma2_to64();
            lemma_pow2_adds(e as nat, 2);
            lemma_pow2_pos(e as nat);
            assert(4 * (g * pe) == g * four) by (nonlinear_arith)
                requires
                    four == pe * 4,
            ;
            assert((g + 1) * four == g * four + four) by (nonlinear_arith);
        }
        if e + 2 >= 149 {
            proof {
                lemma_pow2_adds((e + 2 - 149) as nat, 149);
            }
            let m = assemble(sig, e + 2 - 149, false, Ghost(n), Ghost(one()));
            Single { bits: sign + m }
        } else {
            let (s, cut) = shift_down(sig, false, 149 - (e + 2), Ghost(4 * n), Ghost(four));
            proof {
                lemma_pow2_adds((e + 2) as nat, (149 - (e + 2)) as nat);
                assert(pow2(0) * one() == one()) by (nonlinear_arith)
                    requires
                        pow2(0) == 1,
                ;
            }
            let m = assemble(s, 0, cut, Ghost(n), Ghost(one()));
            Single { bits: sign + m }
        }
    }

    /// `self / other`.
    pub fn over(self, other: Single) -> (r: Single)
        ensures
            r.bits == self.over_bits(other),
    {
        let x = self.bits % SIGN;
        let y = other.bits % SIGN;
        let sign: u32 = if (self.bits >= SIGN) != (other.bits >= SIGN) {
            SIGN
        } else {
            0
        };
        if x > INFINITE || y > INFINITE || (x == INFINITE && y == INFINITE) {
            return Single { bits: QUIET_NAN };
        }
        if x == INFINITE {
            return Single { bits: sign + INFINITE };
        }
        if y == INFINITE {
            return Single { bits: sign };
        }
        if y == 0 {
            return if x == 0 {
                Single { bits: QUIET_NAN }
            } else {
                proof {
                    units_grow(0, x as nat);
                }
                Single { bits: sign + INFINITE }
            };
        }
        proof {
            units_grow(0, y as nat);
        }
        let q = Single { bits: x }.over_finite(Single { bits: y });
        Single { bits: sign + q.bits }
    }

    /// `self / other`, for finite numbers without a sign.
    fn over_finite(self, other: Single) -> (r: Single)
        requires
            self.is_finite(),
            !self.negative(),
            other.is_finite(),
            !other.negative(),
            other.units() > 0,
        ensures
            r.bits == nearest(self.units() * one(), other.units()),
            r.bits <= INFINITE,
    {
        let (p, a) = split(self.bits);
        let (q, b) = split(other.bits);
        let ghost pa = pow2(a as nat);
        let ghost pb = pow2(b as nat);
        proof {
            lemma_pow2_pos(a as nat);
            lemma_pow2_pos(b as nat);
            assert((p == 0) == (p * pa == 0) && (q == 0) == (q * pb == 0)) by (nonlinear_arith)
                requires
                    pa > 0,
                    pb > 0,
            ;
        }
        let scale: u128 = 0x10_0000_0000_0000_0000_0000_0000;
        let wide: u128 = p as u128 * scale;
        let sig: u128 = wide / q as u128;
        let cut = wide % q as u128 != 0;
        let ghost n = self.units() * one();
        let ghost d = other.units();
        let ghost pc = pow2((a + 51) as nat);
        let ghost step = q as nat * pc;
        proof {
            quotient_step(p as nat, q as nat, a as nat, n, sig as nat, cut);
            if p > 0 {
                assert(sig >= 8 * STEP) by (nonlinear_arith)
                    requires
                        p >= 1,
                        wide == p * 0x10_0000_0000_0000_0000_0000_0000,
                        sig == wide / (q as u128),
                        0 < q < 0x100_0000,
                ;
            } else {
                vstd::arithmetic::div_mod::lemma_small_mod(0, q as nat);
                assert(wide == 0);
            }
        }
        if a + 51 >= b {
            proof {
                lemma_pow2_adds((a + 51 - b) as nat, b as nat);
                let px = pow2((a + 51 - b) as nat);
                assert(q * (px * pb) == px * (q * pb)) by (nonlinear_arith);
            }
            Single { bits: assemble(sig, a + 51 - b, cut, Ghost(n), Ghost(d)) }
        } else {
            let (s, k) = shift_down(sig, cut, b - (a + 51), Ghost(4 * n), Ghost(step));
            proof {
                lemma2_to64();
                lemma_pow2_adds((a + 51) as nat, (b - (a + 51)) as nat);
                let px = pow2((b - (a + 51)) as nat);
                assert((q * pc) * px == q * (pc * px)) by (nonlinear_arith);
                assert(pow2(0) * d == d) by (nonlinear_arith)
                    requires
                        pow2(0) == 1,
                ;
            }
            Single { bits: assemble(s, 0, k, Ghost(n), Ghost(d)) }
        }
    }

    /// The number nearest to an integer.
    pub fn from_integer(k: u64) -> (r: Single)
        ensures
            r.bits == nearest(k as nat * one(), 1),
    {
        proof {
            exact_step(k as nat * one(), k as nat, 149);
        }
        Single { bits: assemble(k as u128, 151, false, Ghost(k as nat * one()), Ghost(1nat)) }
    }

    /// The number nearest to a signed 16-bit sample as a fraction of full
    /// scale, `2^15`.
    pub fn from_sample(s: i16) -> (r: Single)
        ensures
            r.bits == sample_bits(s),
    {
        let k: u32 = if s < 0 {
            (-(s as i32)) as u32
        } else {
            s as u32
        };
        proof {
            exact_step(k as nat * pow2(134), k as nat, 134);
        }
        let m = assemble(k as u128, 136, false, Ghost(k as nat * pow2(134)), Ghost(1nat));
        if s < 0 {
            Single { bits: SIGN + m }
        } else {
            Single { bits: m }
        }
    }

    /// The conversion to `i64` that drops the fraction: out of range it gives
    /// the nearest end, without a number it gives zero.
    pub open spec fn truncated_i64(self) -> int {
        if self.is_nan() {
            0
        } else if self.is_infinite() {
            saturated(self.negative(), 0x1_0000_0000_0000_0000)
        } else {
            saturated(self.negative(), self.whole())
        }
    }

    /// Rounding to the nearest integer, a half away from zero, and the
    /// conversion to `i64`.
    pub open spec fn rounded_i64(self) -> int {
        if self.is_nan() {
            0
        } else if self.is_infinite() {
            saturated(self.negative(), 0x1_0000_0000_0000_0000)
        } else {
            saturated(self.negative(), self.rounded())
        }
    }

    /// Drops the fraction.
    pub fn to_i64(self) -> (r: i64)
        ensures
            r == self.truncated_i64(),
    {
        let m = self.bits % SIGN;
        if m > INFINITE {
            return 0;
        }
        let n: u128 = if m == INFINITE {
            0x1_0000_0000_0000_0000
        } else {
            proof {
                lemma_pow2_pos(149);
                halves(self.units(), one());
            }
            twice(m) / 2
        };
        saturate(self.bits >= SIGN, n)
    }

    /// Rounds to the nearest integer, a half away from zero.
    pub fn round_to_i64(self) -> (r: i64)
        ensures
            r == self.rounded_i64(),
    {
        let m = self.bits % SIGN;
        if m > INFINITE {
            return 0;
        }
        let n: u128 = if m == INFINITE {
            0x1_0000_0000_0000_0000
        } else {
            proof {
                lemma_pow2_pos(149);
                halves(self.units(), one());
            }
            (twice(m) + 1) / 2
        };
        saturate(self.bits >= SIGN, n)
    }
}

impl Single {
    /// The bit pattern of the number rounded to an integer, a half away from
    /// zero.
    pub open spec fn round_bits(self) -> nat {
        if self.is_nan() {
            QUIET_NAN as nat
        } else if self.is_infinite() {
            self.bits as nat
        } else {
            with_sign(self.negative(), nearest(self.rounded() * one(), 1))
        }
    }

    /// Rounds to an integer, a half away from zero.
    pub fn round(self) -> (r: Single)
        ensures
            r.bits == self.round_bits(),
    {
        let m = self.bits % SIGN;
        if m > INFINITE {
            return Single { bits: QUIET_NAN };
        }
        if m == INFINITE {
            return self;
        }
        let (s, e) = split(m);
        let ghost o = one();
        proof {
            lemma_pow2_pos(149);
            halves(self.units(), o);
        }
        if e >= 149 {
            proof {
                let pk = pow2((e - 149) as nat);
                lemma_pow2_adds((e - 149) as nat, 149);
                let t = s as nat * pk;
                assert(s * (pk * o) == t * o) by (nonlinear_arith)
                    requires
                        t == s * pk,
                ;
                assert(2 * (t * o) == t * (2 * o)) by (nonlinear_arith);
                vstd::arithmetic::div_mod::lemma_fundamental_div_mod_converse(
                    (2 * (t * o) + o) as int,
                    (2 * o) as int,
                    t as int,
                    o as int,
                );
                nearest_exact(m as nat);
            }
            self
        } else {
            let n: u128 = (twice(m) + 1) / 2;
            proof {
                // A number below 2^24 has fewer than 2^25 halves.
                below_integers(s as nat, e as nat);
            }
            let sign: u32 = if self.bits >= SIGN {
                SIGN
            } else {
                0
            };
            proof {
                exact_step(n as nat * o, n as nat, 149);
            }
            Single { bits: sign + assemble(n, 151, false, Ghost(n as nat * o), Ghost(1nat)) }
        }
    }

    /// Whether two numbers compare equal: zero has two signs, and what is no
    /// number equals nothing.
    pub open spec fn equals(self, other: Single) -> bool {
        &&& !self.is_nan()
        &&& !other.is_nan()
        &&& self.rank() == other.rank()
    }

    /// The place of a number in the order of numbers.
    pub open spec fn rank(self) -> int {
        if self.negative() {
            -(self.magnitude() as int)
        } else {
            self.magnitude() as int
        }
    }

    /// The place of a number in the order of numbers.
    pub fn place(self) -> (r: i64)
        ensures
            r == self.rank(),
    {
        let m = (self.bits % SIGN) as i64;
        if self.bits >= SIGN {
            -m
        } else {
            m
        }
    }

    /// Whether one number is above another; what is no number is above and below
    /// nothing.
    pub open spec fn above(self, other: Single) -> bool {
        &&& !self.is_nan()
        &&& !other.is_nan()
        &&& self.rank() > other.rank()
    }

    /// Whether one number is above another.
    pub fn exceeds(self, other: Single) -> (r: bool)
        ensures
            r == self.above(other),
    {
        self.bits % SIGN <= INFINITE && other.bits % SIGN <= INFINITE && self.place()
            > other.place()
    }

    /// The number without its sign.
    pub open spec fn absolute(self) -> Single {
        Single { bits: self.magnitude() as u32 }
    }

    /// The number without its sign.
    pub fn abs(self) -> (r: Single)
        ensures
            r == self.absolute(),
    {
        Single { bits: self.bits % SIGN }
    }

    /// Whether two numbers compare equal.
    pub fn equal(self, other: Single) -> (r: bool)
        ensures
            r == self.equals(other),
    {
        self.bits % SIGN <= INFINITE && other.bits % SIGN <= INFINITE && self.place()
            == other.place()
    }
}

proof fn below_integers(s: nat, e: nat)
    requires
        s < 2 * STEP,
        e < 149,
    ensures
        (2 * (s * pow2(e))) / one() < 0x200_0000,
{
    let p = pow2(e);
    let o = one();
    lemma_pow2_pos(e);
    lemma_pow2_strictly_increases(e, 149);
    assert(2 * (s * p) < 0x200_0000 * o) by (nonlinear_arith)
        requires
            s < 0x100_0000,
            0 < p < o,
    ;
    assert((2 * (s * p)) / o < 0x200_0000) by (nonlinear_arith)
        requires
            2 * (s * p) < 0x200_0000 * o,
            o > 0,
    ;
}

/// The bit pattern of a signed 16-bit sample as a fraction of full scale.
pub open spec fn sample_bits(s: i16) -> nat {
    with_sign(s < 0, nearest(size(s as int) * pow2(134), 1))
}

/// `n` with a sign, held in the range of `i64`.
pub open spec fn saturated(negative: bool, n: nat) -> int {
    if negative {
        if n > 0x8000_0000_0000_0000 {
            i64::MIN as int
        } else {
            -(n as int)
        }
    } else {
        if n > i64::MAX {
            i64::MAX as int
        } else {
            n as int
        }
    }
}

fn saturate(negative: bool, n: u128) -> (r: i64)
    ensures
        forall|x: nat|
            n == x || (n >= 0x8000_0000_0000_0001 && x >= 0x8000_0000_0000_0001) ==> r
                == #[trigger] saturated(negative, x),
{
    if negative {
        if n >= 0x8000_0000_0000_0000 {
            i64::MIN
        } else {
            -(n as i64)
        }
    } else {
        if n > 0x7fff_ffff_ffff_ffff {
            i64::MAX
        } else {
            n as i64
        }
    }
}

/// Twice the number with the pattern `m`, rounded down to an integer, as far
/// as it lies below a bound.
fn twice(m: u32) -> (r: u128)
    requires
        m < INFINITE,
    ensures
        ({
            let exact = (2 * units_of(m as nat)) / one();
            r == if exact < 0x100_0000_0000_0000_0000_0000 {
                exact
            } else {
                0x100_0000_0000_0000_0000_0000
            }
        }),
{
    let (s, e) = split(m);
    let ghost u = units_of(m as nat);
    let ghost pe = pow2((e + 1) as nat);
    proof {
        lemma_pow2_unfold((e + 1) as nat);
        lemma_pow2_pos((e + 1) as nat);
        lemma_pow2_pos(149);
        assert(2 * (s * pow2(e as nat)) == s * pe) by (nonlinear_arith)
            requires
                pe == 2 * pow2(e as nat),
        ;
        lemma2_to64();
    }
    if e + 1 >= 149 {
        let k = e + 1 - 149;
        let ghost pk = pow2(k as nat);
        proof {
            lemma_pow2_adds(k as nat, 149);
            lemma_pow2_pos(k as nat);
            let o = one();
            assert(pe == pk * o);
            assert(s * (pk * o) == (s * pk) * o) by (nonlinear_arith);
            assert(2 * u == (s * pk) * o);
            vstd::arithmetic::div_mod::lemma_fundamental_div_mod_converse(
                (2 * u) as int,
                o as int,
                (s * pk) as int,
                0,
            );
            assert((2 * u) / o == s * pk);
        }
        if k <= 64 {
            let scale = power(k);
            proof {
                if k < 64 {
                    lemma_pow2_strictly_increases(k as nat, 64);
                }
                assert(s * pk < 0x100_0000 * 0x1_0000_0000_0000_0000) by (nonlinear_arith)
                    requires
                        0 <= s < 0x100_0000,
                        0 < pk <= 0x1_0000_0000_0000_0000,
                ;
                assert(scale == pk);
            }
            s as u128 * scale
        } else {
            proof {
                lemma_pow2_adds(64, 1);
                if k > 65 {
                    lemma_pow2_strictly_increases(65, k as nat);
                }
                assert(s * pk >= 0x80_0000 * 0x2_0000_0000_0000_0000) by (nonlinear_arith)
                    requires
                        s >= 0x80_0000,
                        pk >= 0x2_0000_0000_0000_0000,
                ;
            }
            0x100_0000_0000_0000_0000_0000
        }
    } else {
        proof {
            assert((s + 1) * pe == s * pe + pe) by (nonlinear_arith);
        }
        let (q, cut) = shift_down(s as u128, false, 149 - (e + 1), Ghost(2 * u), Ghost(pe));
        proof {
            lemma_pow2_adds((e + 1) as nat, (149 - (e + 1)) as nat);
            let g = q as nat;
            let o = one();
            assert((g + 1) * o == g * o + o) by (nonlinear_arith);
            vstd::arithmetic::div_mod::lemma_fundamental_div_mod_converse(
                (2 * u) as int,
                o as int,
                g as int,
                2 * u - g * o,
            );
            assert((2 * u) / o == g);
        }
        q
    }
}

proof fn halves(u: nat, o: nat)
    requires
        o > 0,
    ensures
        ((2 * u) / o) / 2 == u / o,
        ((2 * u) / o + 1) / 2 == (2 * u + o) / (2 * o),
{
    let h = (2 * u) / o;
    let r = (2 * u) % o;
    vstd::arithmetic::div_mod::lemma_fundamental_div_mod((2 * u) as int, o as int);
    let t = h / 2;
    let b = h % 2;
    assert(2 * u == o * h + r);
    assert(u == o * t + (b * o + r) / 2 && 0 <= (b * o + r) / 2 < o) by (nonlinear_arith)
        requires
            2 * u == o * h + r,
            h == 2 * t + b,
            0 <= b < 2,
            0 <= r < o,
    ;
    vstd::arithmetic::div_mod::lemma_fundamental_div_mod_converse(
        u as int,
        o as int,
        t as int,
        ((b * o + r) / 2) as int,
    );
    let t2 = (h + 1) / 2;
    let b2 = (h + 1) % 2;
    assert(2 * u + o == (2 * o) * t2 + (b2 * o + r) && 0 <= b2 * o + r < 2 * o) by (nonlinear_arith)
        requires
            2 * u == o * h + r,
            h + 1 == 2 * t2 + b2,
            0 <= b2 < 2,
            0 <= r < o,
    ;
    vstd::arithmetic::div_mod::lemma_fundamental_div_mod_converse(
        (2 * u + o) as int,
        (2 * o) as int,
        t2 as int,
        (b2 * o + r) as int,
    );
}

} // verus!
