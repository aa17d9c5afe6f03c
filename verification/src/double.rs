//! Rounding to double precision, on integers.
use vstd::arithmetic::power2;
use vstd::prelude::*;

verus! {

/// The weight of the first bit that a 53-bit significand cannot hold.
pub const SIGNIFICAND_END: u128 = 0x20_0000_0000_0000;

/// The least power of two, `unit` or more, that leaves no more than 53 bits of
/// the whole part of `n / d`.
pub open spec fn ulp_from(n: nat, d: nat, unit: nat) -> nat
    decreases n - unit,
{
    if 0 < d && 0 < unit && n / d >= unit * SIGNIFICAND_END {
        ulp_from(n, d, 2 * unit)
    } else {
        unit
    }
}

/// The distance of neighbouring doubles around `n / d`, in units.
pub open spec fn ulp(n: nat, d: nat) -> nat {
    ulp_from(n, d, 1)
}

/// `n / d` rounded to the nearest multiple of [`ulp`], to the even one of two:
/// the double nearest to `n / d`, where the least unit is not below 1.
pub open spec fn nearest(n: nat, d: nat) -> nat {
    let unit = ulp(n, d);
    let low = n / (d * unit);
    let twice_rest = 2 * (n % (d * unit));
    if twice_rest < d * unit || (twice_rest == d * unit && low % 2 == 0) {
        low * unit
    } else {
        (low + 1) * unit
    }
}

/// A quotient in two steps is the quotient by the product.
pub proof fn lemma_div_twice(n: nat, d: nat, u: nat)
    requires
        d > 0,
        u > 0,
    ensures
        d * u > 0,
        n / (d * u) == (n / d) / u,
        n % (d * u) == ((n / d) % u) * d + n % d,
{
    vstd::arithmetic::mul::lemma_mul_strictly_positive(d as int, u as int);
    vstd::arithmetic::div_mod::lemma_div_denominator(n as int, d as int, u as int);
    let q = n / d;
    let low = q / u;
    vstd::arithmetic::div_mod::lemma_fundamental_div_mod(n as int, d as int);
    vstd::arithmetic::div_mod::lemma_fundamental_div_mod(q as int, u as int);
    vstd::arithmetic::div_mod::lemma_fundamental_div_mod(n as int, (d * u) as int);
    assert(n == d * q + n % d);
    assert(q == u * low + q % u);
    assert(n == (d * u) * low + n % (d * u));
    let over = q % u;
    assert(d * (u * low + over) == (d * u) * low + over * d) by (nonlinear_arith);
}

/// Rounds `n / d` to double precision.
pub fn round_ratio(n: u128, d: u128) -> (r: u128)
    requires
        0 < d <= 0x20_0000_0000_0000,
        n < 0x80_0000_0000_0000_0000_0000_0000_0000,
    ensures
        r == nearest(n as nat, d as nat),
        r <= 2 * n,
        n >= d ==> r > 0,
{
    let q: u128 = n / d;
    let rest: u128 = n % d;
    let mut unit: u128 = 1;
    proof {
        assert(q <= n && q * d <= n) by (nonlinear_arith)
            requires
                q == n / d,
                d > 0,
        ;
    }
    while q / SIGNIFICAND_END >= unit
        invariant
            unit >= 1,
            q == n / d,
            q <= n,
            d > 0,
            n < 0x80_0000_0000_0000_0000_0000_0000_0000,
            unit <= 0x8_0000_0000_0000_0000_0000,
            unit == 1 || unit * SIGNIFICAND_END <= 2 * q,
            ulp(n as nat, d as nat) == ulp_from(n as nat, d as nat, unit as nat),
        decreases q - unit,
    {
        proof {
            assert(unit * SIGNIFICAND_END <= q);
        }
        unit = 2 * unit;
    }
    proof {
        assert(q < unit * SIGNIFICAND_END);
        assert(unit == ulp(n as nat, d as nat));
        lemma_div_twice(n as nat, d as nat, unit as nat);
    }
    let low: u128 = q / unit;
    let over: u128 = q % unit;
    proof {
        if n >= d {
            assert(q >= 1) by (nonlinear_arith)
                requires
                    q == n / d,
                    n >= d,
                    d > 0,
            ;
            assert(unit <= q);
            assert(low >= 1 && low * unit >= 1) by (nonlinear_arith)
                requires
                    low == q / unit,
                    1 <= unit <= q,
            ;
        }
        assert(over < unit);
        assert(over * d + rest < unit * d) by (nonlinear_arith)
            requires
                over + 1 <= unit,
                rest < d,
                d > 0,
        ;
        if unit == 1 {
            assert(unit * d == d);
        } else {
            assert(unit <= 2 * q);
            assert(unit * d <= 2 * n) by (nonlinear_arith)
                requires
                    unit <= 2 * q,
                    q * d <= n,
                    d > 0,
            ;
        }
        assert(unit * d == d * unit) by (nonlinear_arith);
        assert(low * unit <= q) by (nonlinear_arith)
            requires
                low == q / unit,
                unit > 0,
        ;
        assert((low + 1) * unit == low * unit + unit) by (nonlinear_arith);
        assert(0 <= over * d) by (nonlinear_arith);
    }
    let step: u128 = unit * d;
    let twice_rest: u128 = 2 * (over * d + rest);
    if twice_rest < step || (twice_rest == step && low % 2 == 0) {
        low * unit
    } else {
        proof {
            if unit > 1 {
                assert(unit <= q);
            }
            if unit == 1 {
                assert(over == 0);
                assert(2 * rest >= d);
                assert(rest <= n) by (nonlinear_arith)
                    requires
                        rest == n % d,
                        d > 0,
                ;
                assert(n >= 1);
                assert(q + 1 <= 2 * n) by (nonlinear_arith)
                    requires
                        q == n / d,
                        n >= 1,
                        d >= 1,
                        2 * (n % d) >= d,
                ;
            }
        }
        (low + 1) * unit
    }
}

/// A positive finite double is its significand divided by a power of two; this is
/// the significand of the one with the given bits.
pub open spec fn significand(bits: u64) -> nat {
    if bits < 0x10_0000_0000_0000 {
        bits as nat
    } else {
        (0x10_0000_0000_0000 + bits % 0x10_0000_0000_0000) as nat
    }
}

/// The bits of the double from which on all doubles are even numbers.
pub const EVEN_FROM: u64 = 0x4340_0000_0000_0000;

/// The exponent of the power of two, for doubles below [`EVEN_FROM`].
pub open spec fn scale(bits: u64) -> nat {
    if bits < 0x10_0000_0000_0000 {
        1074
    } else {
        (1075 - bits / 0x10_0000_0000_0000) as nat
    }
}

/// The significand of a double.
fn significand_of(bits: u64) -> (m: u128)
    ensures
        m == significand(bits),
        m < 0x20_0000_0000_0000,
{
    if bits < 0x10_0000_0000_0000 {
        bits as u128
    } else {
        (0x10_0000_0000_0000 + bits % 0x10_0000_0000_0000) as u128
    }
}

/// The exponent of a double below [`EVEN_FROM`].
fn scale_of(bits: u64) -> (k: u32)
    requires
        bits < EVEN_FROM,
    ensures
        k == scale(bits),
        k <= 1074,
        bits <= 0x3ff0_0000_0000_0000 ==> 52 <= k,
{
    if bits < 0x10_0000_0000_0000 {
        1074
    } else {
        (1075 - bits / 0x10_0000_0000_0000) as u32
    }
}

/// `n` divided by two to the power of `k`, without the fraction.
fn shift_down(n: u128, k: u32) -> (r: u128)
    ensures
        r == n as nat / power2::pow2(k as nat),
        r <= n,
{
    let mut r: u128 = n;
    let mut i: u32 = 0;
    proof {
        power2::lemma2_to64();
        assert(power2::pow2(0) == 1);
        assert(n as nat / 1 == n);
    }
    while i < k
        invariant
            i <= k,
            r == n as nat / power2::pow2(i as nat),
            r <= n,
        decreases k - i,
    {
        proof {
            power2::lemma_pow2_pos(i as nat);
            power2::lemma_pow2_unfold((i + 1) as nat);
            vstd::arithmetic::div_mod::lemma_div_denominator(
                n as int,
                power2::pow2(i as nat) as int,
                2,
            );
            assert(power2::pow2(i as nat) * 2 == power2::pow2((i + 1) as nat));
        }
        r = r / 2;
        i = i + 1;
    }
    r
}

/// Two to the power of `k`.
fn power(k: u32) -> (r: u128)
    requires
        k <= 126,
    ensures
        r == power2::pow2(k as nat),
        k < 119 ==> r < 0x80_0000_0000_0000_0000_0000_0000_0000,
{
    let mut r: u128 = 1;
    let mut i: u32 = 0;
    proof {
        power2::lemma2_to64();
        assert(power2::pow2(0) == 1);
        lemma_pow2_bounds();
    }
    while i < k
        invariant
            i <= k <= 126,
            r == power2::pow2(i as nat),
            power2::pow2(126) < 0x8000_0000_0000_0000_0000_0000_0000_0000,
        decreases k - i,
    {
        proof {
            power2::lemma_pow2_unfold((i + 1) as nat);
            if i + 1 < 126 {
                power2::lemma_pow2_strictly_increases((i + 1) as nat, 126);
            }
        }
        r = r * 2;
        i = i + 1;
    }
    proof {
        if k < 119 {
            power2::lemma_pow2_strictly_increases(k as nat, 119);
        }
    }
    r
}

/// Two powers of two.
proof fn lemma_pow2_bounds()
    ensures
        power2::pow2(126) < 0x8000_0000_0000_0000_0000_0000_0000_0000,
        power2::pow2(119) == 0x80_0000_0000_0000_0000_0000_0000_0000,
{
    power2::lemma2_to64();
    power2::lemma_pow2_adds(62, 64);
    power2::lemma_pow2_adds(55, 64);
    power2::lemma2_to64_rest();
    assert(power2::pow2(62) * power2::pow2(64) < 0x8000_0000_0000_0000_0000_0000_0000_0000) by (nonlinear_arith)
        requires
            power2::pow2(62) == 0x4000_0000_0000_0000,
            power2::pow2(64) == 0x1_0000_0000_0000_0000,
    ;
    assert(power2::pow2(55) * power2::pow2(64) == 0x80_0000_0000_0000_0000_0000_0000_0000) by (nonlinear_arith)
        requires
            power2::pow2(55) == 0x80_0000_0000_0000,
            power2::pow2(64) == 0x1_0000_0000_0000_0000,
    ;
}

/// `n` times two to the power of `k`, where a length can be as much; else anything
/// more than a length can be.
fn shift_up(n: u128, k: u32) -> (r: u128)
    requires
        n < 0x8000_0000_0000_0000_0000_0000_0000_0000,
    ensures
        n * power2::pow2(k as nat) <= usize::MAX ==> r == n * power2::pow2(k as nat),
        n * power2::pow2(k as nat) > usize::MAX ==> r > usize::MAX,
{
    let mut r: u128 = n;
    let mut i: u32 = 0;
    proof {
        power2::lemma2_to64();
        assert(power2::pow2(0) == 1);
        assert(n * 1 == n);
    }
    while i < k && r <= usize::MAX as u128
        invariant
            i <= k,
            r == n * power2::pow2(i as nat),
        decreases k - i,
    {
        proof {
            power2::lemma_pow2_unfold((i + 1) as nat);
            let p = power2::pow2(i as nat);
            assert(n * (2 * p) == 2 * (n * p)) by (nonlinear_arith);
        }
        r = 2 * r;
        i = i + 1;
    }
    proof {
        if i < k {
            power2::lemma_pow2_strictly_increases(i as nat, k as nat);
            let p = power2::pow2(i as nat);
            let q = power2::pow2(k as nat);
            assert(n * p <= n * q) by (nonlinear_arith)
                requires
                    p <= q,
                    n >= 0,
            ;
        }
    }
    r
}

/// The whole part of the double product of `n` and a double that is not negative.
/// For the infinity it is beyond any length, unless `n` is zero.
pub open spec fn product_floor(n: nat, bits: u64) -> nat {
    let product = nearest(nearest(n, 1) * significand(bits), 1);
    if bits < EVEN_FROM {
        product / power2::pow2(scale(bits))
    } else {
        product * power2::pow2((bits / 0x10_0000_0000_0000 - 1075) as nat)
    }
}

/// Computes [`product_floor`], but no more than a length can be.
pub fn floor_of_product(n: usize, bits: u64) -> (r: usize)
    requires
        bits <= 0x7ff0_0000_0000_0000,
    ensures
        r == if product_floor(n as nat, bits) <= usize::MAX {
            product_floor(n as nat, bits) as int
        } else {
            usize::MAX as int
        },
{
    let m: u128 = significand_of(bits);
    let whole: u128 = round_ratio(n as u128, 1);
    proof {
        assert(whole * m < 0x40_0000_0000_0000_0000_0000_0000_0000) by (nonlinear_arith)
            requires
                whole <= 2 * 0xffff_ffff_ffff_ffff,
                m < 0x20_0000_0000_0000,
        ;
    }
    let product: u128 = round_ratio(whole * m, 1);
    let r: u128 = if bits < EVEN_FROM {
        shift_down(product, scale_of(bits))
    } else {
        shift_up(product, (bits / 0x10_0000_0000_0000 - 1075) as u32)
    };
    if r <= usize::MAX as u128 {
        r as usize
    } else {
        usize::MAX
    }
}

/// How finely a reciprocal is computed before it is rounded to a whole number.
pub open spec fn guard_bits(bits: u64) -> nat {
    if scale(bits) < 107 {
        (107 - scale(bits)) as nat
    } else {
        0
    }
}

/// The double reciprocal of a double in the unit interval, as a multiple of
/// two to the power of minus [`guard_bits`].
pub open spec fn reciprocal(bits: u64) -> nat {
    nearest(power2::pow2(scale(bits) + guard_bits(bits)), significand(bits))
}

/// The double reciprocal rounded to a whole number, halves away from zero.
pub open spec fn reciprocal_rounded(bits: u64) -> nat {
    if guard_bits(bits) == 0 {
        reciprocal(bits)
    } else {
        (reciprocal(bits) + power2::pow2((guard_bits(bits) - 1) as nat)) / power2::pow2(guard_bits(bits))
    }
}

/// Computes [`reciprocal_rounded`], but no more than a length can be. Doubles with
/// exponents below -64 have reciprocals beyond any length.
pub fn round_reciprocal(bits: u64) -> (r: usize)
    requires
        0 < bits <= 0x3ff0_0000_0000_0000,
    ensures
        r == if scale(bits) <= 116 && reciprocal_rounded(bits) <= usize::MAX {
            reciprocal_rounded(bits) as int
        } else {
            usize::MAX as int
        },
{
    let k: u32 = scale_of(bits);
    if k > 116 {
        return usize::MAX;
    }
    let m: u128 = significand_of(bits);
    let guard: u32 = if k < 107 {
        107 - k
    } else {
        0
    };
    let n: u128 = power(k + guard);
    let q: u128 = round_ratio(n, m);
    let r: u128 = if guard == 0 {
        q
    } else {
        let half: u128 = power(guard - 1);
        proof {
            lemma_pow2_bounds();
            if guard - 1 < 119 {
                power2::lemma_pow2_strictly_increases((guard - 1) as nat, 119);
            }
        }
        shift_down(q + half, guard)
    };
    if r <= usize::MAX as u128 {
        r as usize
    } else {
        usize::MAX
    }
}

/// The distance of two numbers.
pub open spec fn distance(a: nat, b: nat) -> nat {
    if a >= b {
        (a - b) as nat
    } else {
        (b - a) as nat
    }
}

/// The power of two at which doubling ends that starts at a lower one.
proof fn lemma_ulp_from(n: nat, d: nat, i: nat, x: nat)
    requires
        0 < d,
        i <= x,
        n / d < power2::pow2(x) * SIGNIFICAND_END,
        x == 0 || 2 * (n / d) >= power2::pow2(x) * SIGNIFICAND_END,
    ensures
        ulp_from(n, d, power2::pow2(i)) == power2::pow2(x),
    decreases x - i,
{
    power2::lemma_pow2_pos(i);
    if i < x {
        power2::lemma_pow2_unfold(i + 1);
        assert(power2::pow2(i + 1) == 2 * power2::pow2(i));
        if i + 1 < x {
            power2::lemma_pow2_strictly_increases(i + 1, x);
        }
        let (q, wide, narrow) = (n / d, power2::pow2(x), power2::pow2(i));
        assert(q >= narrow * 0x20_0000_0000_0000) by (nonlinear_arith)
            requires
                2 * q >= wide * 0x20_0000_0000_0000,
                wide >= 2 * narrow,
        ;
        lemma_ulp_from(n, d, i + 1, x);
    }
}

/// The distance of neighbouring doubles, told by the place of `n / d` among them.
proof fn lemma_ulp(n: nat, d: nat, x: nat)
    requires
        0 < d,
        n / (d * power2::pow2(x)) < 0x20_0000_0000_0000,
        x == 0 || n / (d * power2::pow2(x)) >= 0x10_0000_0000_0000,
    ensures
        ulp(n, d) == power2::pow2(x),
{
    let u = power2::pow2(x);
    let q = n / d;
    power2::lemma_pow2_pos(x);
    power2::lemma2_to64();
    lemma_div_twice(n, d, u);
    vstd::arithmetic::div_mod::lemma_fundamental_div_mod(q as int, u as int);
    let low = q / u;
    let over = q % u;
    assert(q == u * low + over);
    assert(q < u * 0x20_0000_0000_0000) by (nonlinear_arith)
        requires
            q == u * low + over,
            over < u,
            low + 1 <= 0x20_0000_0000_0000,
    ;
    if x > 0 {
        assert(2 * q >= u * 0x20_0000_0000_0000) by (nonlinear_arith)
            requires
                q == u * low + over,
                0 <= over,
                low >= 0x10_0000_0000_0000,
                u > 0,
        ;
    }
    assert(power2::pow2(0) == 1);
    lemma_ulp_from(n, d, 0, x);
}

/// What rounding gives for a quotient that is written with a common factor.
proof fn lemma_nearest(n: nat, d: nat, num: nat, den: nat, k: nat, x: nat)
    requires
        0 < d,
        0 < k,
        0 < den,
        n == num * k,
        d * power2::pow2(x) == den * k,
        num / den < 0x20_0000_0000_0000,
        x == 0 || num / den >= 0x10_0000_0000_0000,
    ensures
        nearest(n, d) == if 2 * (num % den) < den || (2 * (num % den) == den && (num / den) % 2
            == 0) {
            (num / den) * power2::pow2(x)
        } else {
            (num / den + 1) * power2::pow2(x)
        },
{
    let unit = power2::pow2(x);
    vstd::arithmetic::div_mod::lemma_fundamental_div_mod(num as int, den as int);
    let low = num / den;
    let rest = num % den;
    assert(num == den * low + rest);
    let step = (den * k) as int;
    assert(step > 0 && (rest * k) as int >= 0 && rest * k < step && n == step * low + rest * k)
        by (nonlinear_arith)
        requires
            n == num * k,
            num == den * low + rest,
            step == den * k,
            0 <= rest < den,
            k > 0,
    ;
    vstd::arithmetic::div_mod::lemma_fundamental_div_mod_converse(
        n as int,
        step,
        low as int,
        (rest * k) as int,
    );
    assert(n / (d * unit) == low);
    assert(n % (d * unit) == rest * k);
    lemma_ulp(n, d, x);
    assert((2 * (rest * k) < den * k) == (2 * rest < den)) by (nonlinear_arith)
        requires
            k > 0,
    ;
    assert((2 * (rest * k) == den * k) == (2 * rest == den)) by (nonlinear_arith)
        requires
            k > 0,
    ;
}

/// A double that is not negative, as a multiple of a unit: a significand and the
/// exponent of a power of two.
#[derive(Debug, Clone, Copy)]
pub struct Double {
    pub m: u64,
    pub e: u32,
}

impl Double {
    /// The significand has all of its bits, unless the exponent is as low as it can be.
    pub open spec fn wf(self) -> bool {
        self.m < 0x20_0000_0000_0000 && (self.e == 0 || self.m >= 0x10_0000_0000_0000)
    }

    /// The number, in units.
    pub open spec fn value(self) -> nat {
        self.m as nat * power2::pow2(self.e as nat)
    }

    /// The greater exponent belongs to the greater number.
    proof fn lemma_exponent_orders(a: Double, b: Double)
        requires
            a.wf(),
            b.wf(),
            a.e < b.e,
        ensures
            a.value() < b.value(),
    {
        let p = power2::pow2(a.e as nat);
        let q = power2::pow2(b.e as nat);
        power2::lemma_pow2_pos(a.e as nat);
        power2::lemma_pow2_unfold((a.e + 1) as nat);
        if a.e + 1 < b.e {
            power2::lemma_pow2_strictly_increases((a.e + 1) as nat, b.e as nat);
        }
        assert(a.m as nat * p < b.m as nat * q) by (nonlinear_arith)
            requires
                q >= 2 * p,
                p > 0,
                a.m < 0x20_0000_0000_0000,
                b.m >= 0x10_0000_0000_0000,
        ;
    }

    /// Whether one number is below another.
    pub fn less(&self, other: &Double) -> (r: bool)
        requires
            self.wf(),
            other.wf(),
        ensures
            r == (self.value() < other.value()),
    {
        if self.e < other.e {
            proof {
                Self::lemma_exponent_orders(*self, *other);
            }
            true
        } else if other.e < self.e {
            proof {
                Self::lemma_exponent_orders(*other, *self);
            }
            false
        } else {
            proof {
                let p = power2::pow2(self.e as nat);
                power2::lemma_pow2_pos(self.e as nat);
                assert((self.m as nat * p < other.m as nat * p) == (self.m < other.m))
                    by (nonlinear_arith)
                    requires
                        p > 0,
                ;
            }
            self.m < other.m
        }
    }

    /// `num / den`, times two to the power of `e`, in double precision.
    pub fn rounded(num: u128, den: u128, e: u32) -> (r: Double)
        requires
            0 < den <= 0x2_0000_0000_0000_0000,
            num < 0x8000_0000_0000_0000_0000_0000_0000_0000,
            e <= 4000,
        ensures
            r.wf(),
            r.value() == nearest(num as nat * power2::pow2(e as nat), den as nat),
            r.e <= e + 128,
    {
        let ghost n = num as nat * power2::pow2(e as nat);
        let ghost d = den as nat;
        let mut num: u128 = num;
        let mut x: u32 = e;
        while num / den < 0x10_0000_0000_0000 && x > 0
            invariant
                0 < den <= 0x2_0000_0000_0000_0000,
                x <= e,
                num < 0x8000_0000_0000_0000_0000_0000_0000_0000,
                n == num as nat * power2::pow2(x as nat),
            decreases x,
        {
            proof {
                let p = power2::pow2((x - 1) as nat);
                power2::lemma_pow2_unfold(x as nat);
                assert(num as nat * (2 * p) == (2 * num as nat) * p) by (nonlinear_arith);
                assert(num < den * 0x10_0000_0000_0000) by (nonlinear_arith)
                    requires
                        num / den < 0x10_0000_0000_0000,
                        den > 0,
                ;
            }
            num = 2 * num;
            x = x - 1;
        }
        let ghost k = power2::pow2(x as nat);
        let ghost x0 = x;
        let mut den: u128 = den;
        proof {
            power2::lemma_pow2_pos(x as nat);
            power2::lemma2_to64();
            assert(power2::pow2(0) == 1);
        }
        while num / den >= 0x20_0000_0000_0000
            invariant
                0 < den,
                den < 0x1000_0000_0000_0000_0000_0000_0000_0000,
                num < 0x8000_0000_0000_0000_0000_0000_0000_0000,
                x0 <= x <= 4128,
                x - x0 <= 127,
                den >= power2::pow2((x - x0) as nat),
                x0 <= e <= 4000,
                d * power2::pow2(x as nat) == den as nat * k,
                x == 0 || num / den >= 0x10_0000_0000_0000,
            decreases num - den,
        {
            proof {
                power2::lemma_pow2_unfold((x + 1) as nat);
                power2::lemma_pow2_unfold((x - x0 + 1) as nat);
                lemma_pow2_bounds();
                if x - x0 >= 126 {
                    if x - x0 > 126 {
                        power2::lemma_pow2_strictly_increases(126, (x - x0) as nat);
                    }
                    power2::lemma_pow2_strictly_increases(119, (x - x0) as nat);
                }
                let p = power2::pow2(x as nat);
                assert(d * (2 * p) == 2 * (d * p)) by (nonlinear_arith);
                assert((2 * den) as nat * k == 2 * (den as nat * k)) by (nonlinear_arith);
                assert(den * 0x20_0000_0000_0000 <= num) by (nonlinear_arith)
                    requires
                        num / den >= 0x20_0000_0000_0000,
                        den > 0,
                ;
                assert(num as int / (2 * den) >= 0x10_0000_0000_0000) by (nonlinear_arith)
                    requires
                        den * 0x20_0000_0000_0000 <= num,
                        den > 0,
                ;
            }
            den = 2 * den;
            x = x + 1;
        }
        let m: u128 = num / den;
        let rest: u128 = num % den;
        proof {
            lemma_nearest(n, d, num as nat, den as nat, k, x as nat);
        }
        if 2 * rest < den || (2 * rest == den && m % 2 == 0) {
            Double { m: m as u64, e: x }
        } else if m + 1 < 0x20_0000_0000_0000 {
            Double { m: (m + 1) as u64, e: x }
        } else {
            proof {
                power2::lemma_pow2_unfold((x + 1) as nat);
                let p = power2::pow2(x as nat);
                assert(0x20_0000_0000_0000 * p == 0x10_0000_0000_0000 * (2 * p)) by (nonlinear_arith);
            }
            Double { m: 0x10_0000_0000_0000, e: x + 1 }
        }
    }

    /// A number that is far below the last bit of another one does not change it.
    proof fn lemma_absorbed(a: Double, t: nat)
        requires
            a.wf(),
            a.e > 0,
            4 * t < power2::pow2(a.e as nat),
        ensures
            t <= a.value(),
            nearest((a.value() - t) as nat, 1) == a.value(),
    {
        let x = a.e as nat;
        let u = power2::pow2(x);
        let half = power2::pow2((x - 1) as nat);
        let m = a.m as nat;
        power2::lemma_pow2_unfold(x);
        power2::lemma_pow2_pos((x - 1) as nat);
        assert(u == 2 * half);
        assert(m * u >= u) by (nonlinear_arith)
            requires
                m >= 1,
                u > 0,
        ;
        let n = (m * u - t) as nat;
        if t == 0 {
            assert(m * u == u * m) by (nonlinear_arith);
            vstd::arithmetic::div_mod::lemma_fundamental_div_mod_converse(
                n as int,
                u as int,
                m as int,
                0,
            );
            lemma_nearest(n, 1, n, u, 1, x);
        } else if m > 0x10_0000_0000_0000 {
            assert(n == u * (m - 1) + (u - t)) by (nonlinear_arith)
                requires
                    n == m * u - t,
            ;
            vstd::arithmetic::div_mod::lemma_fundamental_div_mod_converse(
                n as int,
                u as int,
                m - 1,
                u - t,
            );
            lemma_nearest(n, 1, n, u, 1, x);
        } else {
            let low: int = 0x1f_ffff_ffff_ffff;
            assert(n == half * low + (half - t)) by (nonlinear_arith)
                requires
                    n == m * u - t,
                    u == 2 * half,
                    m == 0x10_0000_0000_0000,
                    low == 0x1f_ffff_ffff_ffffint,
            ;
            vstd::arithmetic::div_mod::lemma_fundamental_div_mod_converse(
                n as int,
                half as int,
                low,
                half - t,
            );
            lemma_nearest(n, 1, n, half, 1, (x - 1) as nat);
            assert((low + 1) * half == m * u) by (nonlinear_arith)
                requires
                    u == 2 * half,
                    m == 0x10_0000_0000_0000,
                    low == 0x1f_ffff_ffff_ffffint,
            ;
        }
    }

    /// What is left of the greater of two numbers, in double precision.
    fn above(&self, other: &Double) -> (r: Double)
        requires
            self.wf(),
            other.wf(),
            self.value() >= other.value(),
            self.e >= other.e,
            self.e <= 4000,
        ensures
            r.wf(),
            r.value() == nearest((self.value() - other.value()) as nat, 1),
    {
        let shift: u32 = self.e - other.e;
        let ghost p = power2::pow2(other.e as nat);
        let ghost f = power2::pow2(shift as nat);
        proof {
            power2::lemma_pow2_adds(shift as nat, other.e as nat);
            power2::lemma_pow2_pos(other.e as nat);
            power2::lemma_pow2_pos(shift as nat);
            assert(self.m as nat * (f * p) == (self.m as nat * f) * p) by (nonlinear_arith);
        }
        if shift > 64 {
            proof {
                let t = other.value();
                power2::lemma_pow2_strictly_increases(64, shift as nat);
                power2::lemma2_to64();
                power2::lemma2_to64_rest();
                assert(4 * t < f * p) by (nonlinear_arith)
                    requires
                        t == other.m as nat * p,
                        other.m < 0x20_0000_0000_0000,
                        f > 0x1_0000_0000_0000_0000,
                        p > 0,
                ;
                Self::lemma_absorbed(*self, t);
            }
            return *self;
        }
        let factor: u128 = power(shift);
        proof {
            power2::lemma2_to64();
            power2::lemma2_to64_rest();
            if shift < 64 {
                power2::lemma_pow2_strictly_increases(shift as nat, 64);
            }
            assert(self.m * factor < 0x20_0000_0000_0000_0000_0000_0000_0000) by (nonlinear_arith)
                requires
                    self.m < 0x20_0000_0000_0000,
                    factor <= 0x1_0000_0000_0000_0000,
            ;
            let big = self.m as nat * f;
            assert(big >= other.m) by (nonlinear_arith)
                requires
                    big * p >= other.m as nat * p,
                    p > 0,
            ;
            assert((big - other.m) * p == big * p - other.m * p) by (nonlinear_arith);
        }
        let left: u128 = self.m as u128 * factor - other.m as u128;
        Self::rounded(left, 1, other.e)
    }

    /// The distance of two numbers, in double precision.
    pub fn distance_to(&self, other: &Double) -> (r: Double)
        requires
            self.wf(),
            other.wf(),
            self.e <= 4000,
            other.e <= 4000,
        ensures
            r.wf(),
            r.value() == nearest(distance(self.value(), other.value()), 1),
    {
        let smaller: bool = self.less(other);
        proof {
            if self.e < other.e {
                Self::lemma_exponent_orders(*self, *other);
            } else if other.e < self.e {
                Self::lemma_exponent_orders(*other, *self);
            }
        }
        if smaller {
            other.above(self)
        } else {
            self.above(other)
        }
    }

    /// A whole number in double precision.
    pub fn whole(n: u128) -> (r: Double)
        requires
            n < 0x8000_0000_0000_0000_0000_0000_0000_0000,
        ensures
            r.wf(),
            r.value() == nearest(n as nat, 1),
            r.e <= 128,
    {
        proof {
            power2::lemma2_to64();
            assert(n as nat * power2::pow2(0) == n as nat);
        }
        Self::rounded(n, 1, 0)
    }

    /// The product of two numbers, in double precision.
    pub fn times(&self, other: &Double) -> (r: Double)
        requires
            self.wf(),
            other.wf(),
            self.e + other.e <= 4000,
        ensures
            r.wf(),
            r.value() == nearest(self.value() * other.value(), 1),
            r.e <= self.e + other.e + 128,
    {
        proof {
            assert(self.m * other.m < 0x400_0000_0000_0000_0000_0000_0000) by (nonlinear_arith)
                requires
                    self.m < 0x20_0000_0000_0000,
                    other.m < 0x20_0000_0000_0000,
            ;
            power2::lemma_pow2_adds(self.e as nat, other.e as nat);
            let p = power2::pow2(self.e as nat);
            let q = power2::pow2(other.e as nat);
            let a = self.m as nat;
            let b = other.m as nat;
            assert((a * p) * (b * q) == (a * b) * (p * q)) by (nonlinear_arith);
        }
        Self::rounded(self.m as u128 * other.m as u128, 1, self.e + other.e)
    }
}

/// The distance of neighbouring doubles around a quotient is a power of two that leaves
/// 53 bits of the quotient, and no more than are there.
proof fn lemma_ulp_is_tight(n: nat, d: nat, i: nat) -> (x: nat)
    requires
        0 < d,
        i == 0 || 2 * (n / d) >= power2::pow2(i) * SIGNIFICAND_END,
    ensures
        ulp_from(n, d, power2::pow2(i)) == power2::pow2(x),
        n / d < power2::pow2(x) * SIGNIFICAND_END,
        x == 0 || 2 * (n / d) >= power2::pow2(x) * SIGNIFICAND_END,
    decreases n - power2::pow2(i),
{
    let unit = power2::pow2(i);
    power2::lemma_pow2_pos(i);
    if n / d >= unit * SIGNIFICAND_END {
        power2::lemma_pow2_unfold(i + 1);
        assert(n / d <= n) by (nonlinear_arith)
            requires
                0 < d,
        ;
        assert(2 * (n / d) >= power2::pow2(i + 1) * SIGNIFICAND_END);
        lemma_ulp_is_tight(n, d, i + 1)
    } else {
        i
    }
}

/// Rounding gives a multiple of the distance of neighbouring doubles, no further from
/// the quotient than half that distance, and the even one of two that are as near. The
/// distance is the power of two that leaves 53 bits of the quotient.
pub proof fn law_rounding_is_to_the_nearest(n: nat, d: nat) -> (x: nat)
    requires
        0 < d,
    ensures
        ({
            let unit = power2::pow2(x);
            let r = nearest(n, d);
            &&& unit > 0
            &&& ulp(n, d) == unit
            &&& n / d < unit * 0x20_0000_0000_0000
            &&& x == 0 || 2 * (n / d) >= unit * 0x20_0000_0000_0000
            &&& r % unit == 0
            &&& 2 * distance(r * d, n) <= d * unit
            &&& 2 * distance(r * d, n) == d * unit ==> (r / unit) % 2 == 0
        }),
{
    power2::lemma_pow2(0);
    vstd::arithmetic::power::lemma_pow0(2);
    assert(power2::pow2(0) == 1);
    let x = lemma_ulp_is_tight(n, d, 0);
    let unit = power2::pow2(x);
    power2::lemma_pow2_pos(x);
    let step = d * unit;
    assert(step > 0) by (nonlinear_arith)
        requires
            step == d * unit,
            d > 0,
            unit > 0,
    ;
    let low = n / step;
    let rest = n % step;
    vstd::arithmetic::div_mod::lemma_fundamental_div_mod(n as int, step as int);
    assert(n == low * step + rest) by (nonlinear_arith)
        requires
            n == step * low + rest,
    ;
    assert((low * unit) * d == low * step && ((low + 1) * unit) * d == low * step + step)
        by (nonlinear_arith)
        requires
            step == d * unit,
    ;
    vstd::arithmetic::div_mod::lemma_fundamental_div_mod_converse(
        (low * unit) as int,
        unit as int,
        low as int,
        0,
    );
    vstd::arithmetic::div_mod::lemma_fundamental_div_mod_converse(
        ((low + 1) * unit) as int,
        unit as int,
        (low + 1) as int,
        0,
    );
    x
}

/// Whole numbers of 53 bits are doubles.
pub proof fn law_small_numbers_are_doubles(n: nat)
    requires
        n < 0x20_0000_0000_0000,
    ensures
        nearest(n, 1) == n,
{
    assert(n / 1 == n && n % 1 == 0);
    assert(ulp(n, 1) == 1);
    let step: nat = 1 * ulp(n, 1);
    assert(step == 1);
    assert(n / step == n && n % step == 0);
    assert((n / step) * ulp(n, 1) == n);
}

/// The bits of a double are its exponent and its fraction. A double with an exponent
/// has a leading one above the fraction; the exponent tells the power of two that
/// divides it.
pub proof fn law_bits_hold_exponent_and_fraction(bits: u64, exponent: int, fraction: int)
    requires
        0 <= exponent <= 1075,
        0 <= fraction < 0x10_0000_0000_0000,
        bits == exponent * 0x10_0000_0000_0000 + fraction,
    ensures
        exponent == 0 ==> significand(bits) == fraction && scale(bits) == 1074,
        exponent > 0 ==> significand(bits) == 0x10_0000_0000_0000 + fraction && scale(bits) == 1075
            - exponent,
{
}

/// The whole part of a product is as much as the rounded product holds of whole
/// numbers.
pub proof fn law_whole_part_is_below_the_product(n: nat, bits: u64)
    requires
        bits < EVEN_FROM,
    ensures
        ({
            let product = nearest(nearest(n, 1) * significand(bits), 1);
            let whole = product_floor(n, bits);
            let one = power2::pow2(scale(bits));
            whole * one <= product < (whole + 1) * one
        }),
{
    let product = nearest(nearest(n, 1) * significand(bits), 1);
    let one = power2::pow2(scale(bits));
    power2::lemma_pow2_pos(scale(bits));
    vstd::arithmetic::div_mod::lemma_fundamental_div_mod(product as int, one as int);
    let whole = product / one;
    let rest = product % one;
    assert(whole * one <= product && product < (whole + 1) * one) by (nonlinear_arith)
        requires
            product == one * whole + rest,
            0 <= rest < one,
    ;
}

/// A reciprocal is rounded to the nearest whole number, up if two are as near. It is
/// computed with 107 bits before that, or more where the scale has more.
pub proof fn law_reciprocal_is_rounded_half_up(bits: u64)
    ensures
        scale(bits) + guard_bits(bits) >= 107,
        guard_bits(bits) == 0 || scale(bits) + guard_bits(bits) == 107,
        guard_bits(bits) == 0 ==> reciprocal_rounded(bits) == reciprocal(bits),
        guard_bits(bits) > 0 ==> ({
            let one = power2::pow2(guard_bits(bits));
            let whole = reciprocal_rounded(bits);
            &&& 2 * whole * one <= 2 * reciprocal(bits) + one
            &&& 2 * reciprocal(bits) + one < 2 * whole * one + 2 * one
        }),
{
    let g = guard_bits(bits);
    if g > 0 {
        let one = power2::pow2(g);
        let half = power2::pow2((g - 1) as nat);
        power2::lemma_pow2_unfold(g);
        power2::lemma_pow2_pos(g);
        assert(one == 2 * half);
        let sum = reciprocal(bits) + half;
        vstd::arithmetic::div_mod::lemma_fundamental_div_mod(sum as int, one as int);
        let whole = sum / one;
        let rest = sum % one;
        assert(2 * whole * one <= 2 * sum && 2 * sum < 2 * whole * one + 2 * one)
            by (nonlinear_arith)
            requires
                sum == one * whole + rest,
                0 <= rest < one,
        ;
    }
}

} // verus!
