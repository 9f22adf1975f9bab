//! Fixed-point decimal numbers: a signed mantissa and a count of fractional
//! digits, as the upstream sends timestamps and prices.
use vstd::prelude::*;

verus! {

/// Largest scale (digits after the point) that a `Dec` may carry.
pub const MAX_SCALE: u32 = 28;

/// Exclusive bound on the magnitude of a `Dec` mantissa (two to the 96th).
pub const MANTISSA_LIMIT: i128 = 79_228_162_514_264_337_593_543_950_336;

/// `10^MAX_SCALE`: the unit in which distances are split into a whole and a
/// fractional part.
pub const SPLIT_BASE: i128 = 10_000_000_000_000_000_000_000_000_000;

pub open spec fn pow10(n: nat) -> nat
    decreases n,
{
    if n == 0 {
        1
    } else {
        10 * pow10((n - 1) as nat)
    }
}

pub proof fn lemma_pow10_monotone(a: nat, b: nat)
    requires
        a <= b,
    ensures
        1 <= pow10(a) <= pow10(b),
    decreases b,
{
    if b > 0 {
        if a < b {
            lemma_pow10_monotone(a, (b - 1) as nat);
        } else {
            lemma_pow10_monotone((a - 1) as nat, (b - 1) as nat);
        }
    }
}

pub proof fn lemma_pow10_add(a: nat, b: nat)
    ensures
        pow10(a) * pow10(b) == pow10(a + b),
    decreases a,
{
    if a > 0 {
        lemma_pow10_add((a - 1) as nat, b);
        assert(pow10(a + b) == 10 * pow10((a - 1 + b) as nat));
        assert(pow10(a) * pow10(b) == 10 * (pow10((a - 1) as nat) * pow10(b))) by (nonlinear_arith)
            requires
                pow10(a) == 10 * pow10((a - 1) as nat),
        ;
    } else {
        assert(pow10(a) == 1);
        assert(pow10(a) * pow10(b) == pow10(b));
    }
}

pub proof fn lemma_pow10_28()
    ensures
        pow10(28) == SPLIT_BASE,
{
    reveal_with_fuel(pow10, 29);
}

/// Computes `10^n`.
pub fn pow10_of(n: u32) -> (r: i128)
    requires
        n <= MAX_SCALE,
    ensures
        r == pow10(n as nat),
        1 <= r <= SPLIT_BASE,
{
    let mut p: i128 = 1;
    let mut k: u32 = 0;
    proof {
        lemma_pow10_28();
    }
    while k < n
        invariant
            k <= n <= MAX_SCALE,
            p == pow10(k as nat),
            pow10(28) == SPLIT_BASE,
        decreases n - k,
    {
        proof {
            lemma_pow10_monotone(k as nat, 27);
            reveal_with_fuel(pow10, 28);
        }
        p = p * 10;
        k = k + 1;
    }
    proof {
        lemma_pow10_monotone(n as nat, 28);
    }
    p
}

/// A decimal number `mantissa * 10^(-scale)`.
#[derive(Clone, Copy, Debug, PartialEq, Eq, Structural)]
pub struct Dec {
    pub mantissa: i128,
    pub scale: u32,
}

impl Dec {
    /// The range of `rust_decimal`'s numbers: a 96-bit mantissa and at most
    /// 28 digits after the point.
    pub open spec fn wf(self) -> bool {
        -MANTISSA_LIMIT < self.mantissa < MANTISSA_LIMIT && self.scale <= MAX_SCALE
    }

    /// The value as an integer count of units of `10^(-MAX_SCALE)`.
    pub open spec fn fixed(self) -> int {
        self.mantissa * pow10((MAX_SCALE - self.scale) as nat)
    }

    /// Builds a value, or `None` when it lies outside the supported range.
    pub fn new(mantissa: i128, scale: u32) -> (r: Option<Dec>)
        ensures
            r == (if -MANTISSA_LIMIT < mantissa < MANTISSA_LIMIT && scale <= MAX_SCALE {
                Some(Dec { mantissa, scale })
            } else {
                None::<Dec>
            }),
    {
        if -MANTISSA_LIMIT < mantissa && mantissa < MANTISSA_LIMIT && scale <= MAX_SCALE {
            Some(Dec { mantissa, scale })
        } else {
            None
        }
    }

    pub fn zero() -> (r: Dec)
        ensures
            r == (Dec { mantissa: 0, scale: 0 }),
            r.wf(),
    {
        Dec { mantissa: 0, scale: 0 }
    }

    /// The value as `whole * SPLIT_BASE + part` with `0 <= part < SPLIT_BASE`.
    pub fn split(&self) -> (r: (i128, i128))
        requires
            self.wf(),
        ensures
            r.0 * SPLIT_BASE + r.1 == self.fixed(),
            0 <= r.1 < SPLIT_BASE,
            -MANTISSA_LIMIT <= r.0 < MANTISSA_LIMIT,
    {
        let p = pow10_of(self.scale);
        let f = pow10_of(MAX_SCALE - self.scale);
        proof {
            lemma_pow10_add(self.scale as nat, (MAX_SCALE - self.scale) as nat);
            lemma_pow10_28();
        }
        let u: i128 = if self.mantissa < 0 { -self.mantissa } else { self.mantissa };
        let q: i128 = u / p;
        let r: i128 = u % p;
        proof {
            vstd::arithmetic::div_mod::lemma_fundamental_div_mod(u as int, p as int);
            assert(0 <= q <= u) by (nonlinear_arith)
                requires
                    u == p * q + r,
                    0 <= r < p,
                    1 <= p,
                    0 <= u,
            ;
            assert(0 <= r * f < SPLIT_BASE) by (nonlinear_arith)
                requires
                    0 <= r < p,
                    1 <= f,
                    p * f == SPLIT_BASE,
            ;
            assert(u * f == q * SPLIT_BASE + r * f) by (nonlinear_arith)
                requires
                    u == p * q + r,
                    p * f == SPLIT_BASE,
            ;
            assert(f == pow10((MAX_SCALE - self.scale) as nat));
        }
        if self.mantissa >= 0 {
            (q, r * f)
        } else if r == 0 {
            proof {
                assert(self.mantissa * f == -(u * f)) by (nonlinear_arith)
                    requires
                        self.mantissa == -u,
                ;
                assert((-q) * SPLIT_BASE == -(q * SPLIT_BASE)) by (nonlinear_arith);
            }
            (-q, 0)
        } else {
            proof {
                assert(self.mantissa * f == -(u * f)) by (nonlinear_arith)
                    requires
                        self.mantissa == -u,
                ;
                assert(0 < (p - r) * f < SPLIT_BASE) by (nonlinear_arith)
                    requires
                        0 < r < p,
                        1 <= f,
                        p * f == SPLIT_BASE,
                ;
                assert((p - r) * f == SPLIT_BASE - r * f) by (nonlinear_arith)
                    requires
                        p * f == SPLIT_BASE,
                ;
                assert((-q - 1) * SPLIT_BASE + (SPLIT_BASE - r * f) == -(q * SPLIT_BASE + r * f))
                    by (nonlinear_arith);
            }
            (-q - 1, (p - r) * f)
        }
    }
}

/// How far `a` lies from `target`, in units of `10^(-MAX_SCALE)`.
pub open spec fn distance(a: Dec, target: Dec) -> int {
    let d = a.fixed() - target.fixed();
    if d < 0 {
        -d
    } else {
        d
    }
}

/// The number `whole * SPLIT_BASE + part`.
pub open spec fn split_value(s: (i128, i128)) -> int {
    s.0 * SPLIT_BASE + s.1
}

/// Computes `distance(a, target)` as a whole and a fractional part.
pub fn distance_between(a: &Dec, target: &Dec) -> (r: (i128, i128))
    requires
        a.wf(),
        target.wf(),
    ensures
        split_value(r) == distance(*a, *target),
        0 <= r.0,
        0 <= r.1 < SPLIT_BASE,
{
    let (ha, la) = a.split();
    let (ht, lt) = target.split();
    let mut dh: i128 = ha - ht;
    let mut dl: i128 = la - lt;
    if dl < 0 {
        dh = dh - 1;
        dl = dl + SPLIT_BASE;
    }
    assert(dh * SPLIT_BASE + dl == a.fixed() - target.fixed()) by (nonlinear_arith)
        requires
            ha * SPLIT_BASE + la == a.fixed(),
            ht * SPLIT_BASE + lt == target.fixed(),
            dl == la - lt || dl == la - lt + SPLIT_BASE,
            dl == la - lt ==> dh == ha - ht,
            dl == la - lt + SPLIT_BASE ==> dh == ha - ht - 1,
    ;
    if dh >= 0 {
        assert(dh * SPLIT_BASE + dl >= 0) by (nonlinear_arith)
            requires
                dh >= 0,
                dl >= 0,
        ;
        (dh, dl)
    } else if dl == 0 {
        assert(dh * SPLIT_BASE < 0) by (nonlinear_arith)
            requires
                dh < 0,
        ;
        assert((-dh) * SPLIT_BASE == -(dh * SPLIT_BASE)) by (nonlinear_arith);
        (-dh, 0)
    } else {
        assert(dh * SPLIT_BASE + dl < 0) by (nonlinear_arith)
            requires
                dh < 0,
                dl < SPLIT_BASE,
        ;
        assert((-dh - 1) * SPLIT_BASE + (SPLIT_BASE - dl) == -(dh * SPLIT_BASE + dl)) by (nonlinear_arith);
        (-dh - 1, SPLIT_BASE - dl)
    }
}

/// Whether split `x` denotes a smaller number than split `y`.
pub fn split_less(x: (i128, i128), y: (i128, i128)) -> (r: bool)
    requires
        0 <= x.1 < SPLIT_BASE,
        0 <= y.1 < SPLIT_BASE,
    ensures
        r == (split_value(x) < split_value(y)),
{
    proof {
        if x.0 < y.0 {
            assert(split_value(x) < split_value(y)) by (nonlinear_arith)
                requires
                    x.0 < y.0,
                    0 <= x.1 < SPLIT_BASE,
                    0 <= y.1,
            ;
        } else if x.0 > y.0 {
            assert(split_value(x) > split_value(y)) by (nonlinear_arith)
                requires
                    x.0 > y.0,
                    0 <= y.1 < SPLIT_BASE,
                    0 <= x.1,
            ;
        }
    }
    x.0 < y.0 || (x.0 == y.0 && x.1 < y.1)
}

} // verus!
