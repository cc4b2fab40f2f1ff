//! Exact fixed-point decimal amounts.
//!
//! An [`Amount`] is a signed decimal number `mantissa / 10^scale` with up to
//! 96 bits of mantissa and at most 28 fractional digits, mirroring the range
//! of common fixed-point decimal libraries. All arithmetic on well-formed
//! amounts is exact; operations that would leave the representable range
//! report failure instead of rounding.

use vstd::prelude::*;

verus! {

/// Largest mantissa magnitude: `2^96 - 1`.
pub const MAX_MANTISSA: i128 = 79228162514264337593543950335;

/// Largest number of fractional digits.
pub const MAX_SCALE: u32 = 28;

/// `10^e`.
pub open spec fn pow10(e: nat) -> int
    decreases e,
{
    if e == 0 {
        1
    } else {
        10 * pow10((e - 1) as nat)
    }
}

/// A decimal number `mantissa / 10^scale`.
#[derive(Debug, Clone, Copy)]
pub struct Amount {
    /// Signed integral coefficient.
    pub mantissa: i128,
    /// Number of fractional digits; the denominator is `10^scale`.
    pub scale: u32,
}

impl Amount {
    /// The representation is within range: at most [`MAX_SCALE`] fractional
    /// digits and a mantissa of at most 96 bits.
    pub open spec fn wf(self) -> bool {
        &&& self.scale <= MAX_SCALE
        &&& -MAX_MANTISSA <= self.mantissa <= MAX_MANTISSA
    }

    /// The value measured in units of `10^-MAX_SCALE`. Two well-formed
    /// amounts denote the same number exactly when their `units` agree.
    pub open spec fn units(self) -> int {
        self.mantissa * pow10((MAX_SCALE - self.scale) as nat)
    }

    /// The value is strictly below zero.
    pub open spec fn spec_is_negative(self) -> bool {
        self.mantissa < 0
    }

    /// Zero, at scale 0.
    pub fn zero() -> (r: Amount)
        ensures
            r == (Amount { mantissa: 0, scale: 0 }),
            r.wf(),
            r.units() == 0,
    {
        proof {
            lemma_pow10_positive(MAX_SCALE as nat);
        }
        Amount { mantissa: 0, scale: 0 }
    }

    /// An integral amount, at scale 0.
    pub fn from_int(n: i64) -> (r: Amount)
        ensures
            r == (Amount { mantissa: n as i128, scale: 0 }),
            r.wf(),
    {
        Amount { mantissa: n as i128, scale: 0 }
    }

    /// An amount from a mantissa and a scale; `None` when out of range.
    pub fn new(mantissa: i128, scale: u32) -> (r: Option<Amount>)
        ensures
            r == if (Amount { mantissa, scale }).wf() {
                Some(Amount { mantissa, scale })
            } else {
                None::<Amount>
            },
    {
        if scale <= MAX_SCALE && -MAX_MANTISSA <= mantissa && mantissa <= MAX_MANTISSA {
            Some(Amount { mantissa, scale })
        } else {
            None
        }
    }

    /// The value is strictly below zero.
    pub fn is_negative(&self) -> (r: bool)
        ensures
            r == self.spec_is_negative(),
    {
        self.mantissa < 0
    }
}

/// The scale both operands of an exact operation are brought to: the larger
/// of the two scales.
pub open spec fn common_scale(a: Amount, b: Amount) -> u32 {
    if a.scale >= b.scale {
        a.scale
    } else {
        b.scale
    }
}

/// The mantissa of `a` rescaled to scale `s` (meaningful for `a.scale <= s`).
pub open spec fn rescaled(a: Amount, s: u32) -> int {
    a.mantissa * pow10((s - a.scale) as nat)
}

/// The exact sum of `a` and `b` is representable at their common scale.
pub open spec fn addable(a: Amount, b: Amount) -> bool {
    let s = common_scale(a, b);
    &&& -MAX_MANTISSA <= rescaled(a, s) <= MAX_MANTISSA
    &&& -MAX_MANTISSA <= rescaled(b, s) <= MAX_MANTISSA
    &&& -MAX_MANTISSA <= rescaled(a, s) + rescaled(b, s) <= MAX_MANTISSA
}

/// The exact sum of `a` and `b`, at their common scale (meaningful when
/// `addable(a, b)`).
pub open spec fn spec_add(a: Amount, b: Amount) -> Amount {
    let s = common_scale(a, b);
    Amount { mantissa: (rescaled(a, s) + rescaled(b, s)) as i128, scale: s }
}

/// `a` with its sign flipped.
pub open spec fn spec_neg(a: Amount) -> Amount {
    Amount { mantissa: (-a.mantissa) as i128, scale: a.scale }
}

/// The exact difference of `a` and `b` is representable at their common
/// scale.
pub open spec fn subtractable(a: Amount, b: Amount) -> bool {
    addable(a, spec_neg(b))
}

/// The exact difference of `a` and `b`, at their common scale (meaningful
/// when `subtractable(a, b)`).
pub open spec fn spec_sub(a: Amount, b: Amount) -> Amount {
    spec_add(a, spec_neg(b))
}

impl Amount {
    /// The exact sum, or `None` when an operand or the sum is not
    /// representable at the operands' common scale.
    pub fn checked_add(&self, other: &Amount) -> (r: Option<Amount>)
        requires
            self.wf(),
            other.wf(),
        ensures
            r == if addable(*self, *other) {
                Some(spec_add(*self, *other))
            } else {
                None::<Amount>
            },
    {
        let s = if self.scale >= other.scale {
            self.scale
        } else {
            other.scale
        };
        let ra = match scale_up(self.mantissa, s - self.scale) {
            Some(v) => v,
            None => {
                return None;
            },
        };
        let rb = match scale_up(other.mantissa, s - other.scale) {
            Some(v) => v,
            None => {
                return None;
            },
        };
        let sum = ra + rb;
        if -MAX_MANTISSA <= sum && sum <= MAX_MANTISSA {
            Some(Amount { mantissa: sum, scale: s })
        } else {
            None
        }
    }

    /// The exact difference, or `None` when an operand or the difference is
    /// not representable at the operands' common scale.
    pub fn checked_sub(&self, other: &Amount) -> (r: Option<Amount>)
        requires
            self.wf(),
            other.wf(),
        ensures
            r == if subtractable(*self, *other) {
                Some(spec_sub(*self, *other))
            } else {
                None::<Amount>
            },
    {
        let negated = Amount { mantissa: -other.mantissa, scale: other.scale };
        self.checked_add(&negated)
    }

    /// Three-way value comparison: `-1`, `0` or `1` as `self` is below, at or
    /// above `other`.
    pub fn units_cmp(&self, other: &Amount) -> (r: i8)
        requires
            self.wf(),
            other.wf(),
        ensures
            r == -1 || r == 0 || r == 1,
            (r == -1) <==> self.units() < other.units(),
            (r == 0) <==> self.units() == other.units(),
    {
        let s = if self.scale >= other.scale {
            self.scale
        } else {
            other.scale
        };
        proof {
            lemma_units_order(*self, *other, s);
        }
        let ra = scale_up(self.mantissa, s - self.scale);
        let rb = scale_up(other.mantissa, s - other.scale);
        match (ra, rb) {
            (Some(x), Some(y)) => {
                if x < y {
                    -1
                } else if x == y {
                    0
                } else {
                    1
                }
            },
            (None, Some(y)) => {
                proof {
                    lemma_out_of_range_dominates(*self, *other, s);
                }
                if self.mantissa < 0 {
                    -1
                } else {
                    1
                }
            },
            (Some(x), None) => {
                proof {
                    lemma_out_of_range_dominates(*other, *self, s);
                }
                if other.mantissa < 0 {
                    1
                } else {
                    -1
                }
            },
            (None, None) => {
                // One operand already sits at the common scale, so at most
                // one rescaling can leave the representable range.
                proof {
                    assert(self.mantissa * pow10(0) == self.mantissa);
                    assert(other.mantissa * pow10(0) == other.mantissa);
                }
                0
            },
        }
    }

    /// The value of `self` is strictly below the value of `other`.
    pub fn lt(&self, other: &Amount) -> (r: bool)
        requires
            self.wf(),
            other.wf(),
        ensures
            r == (self.units() < other.units()),
    {
        self.units_cmp(other) == -1
    }
}

/// Two amounts denote the same number. On well-formed amounts this is value
/// equality (`1.0` equals `1.00`); outside the representable range it falls
/// back to equality of representations.
pub open spec fn same_value(a: Amount, b: Amount) -> bool {
    if a.wf() && b.wf() {
        a.units() == b.units()
    } else {
        a == b
    }
}

impl PartialEq for Amount {
    /// Value equality: two amounts are equal when they denote the same
    /// number, regardless of scale.
    fn eq(&self, other: &Amount) -> (r: bool) {
        if self.scale <= MAX_SCALE && other.scale <= MAX_SCALE && -MAX_MANTISSA <= self.mantissa
            && self.mantissa <= MAX_MANTISSA && -MAX_MANTISSA <= other.mantissa && other.mantissa
            <= MAX_MANTISSA {
            self.units_cmp(other) == 0
        } else {
            self.mantissa == other.mantissa && self.scale == other.scale
        }
    }
}

impl vstd::std_specs::cmp::PartialEqSpecImpl for Amount {
    open spec fn obeys_eq_spec() -> bool {
        true
    }

    open spec fn eq_spec(&self, other: &Amount) -> bool {
        same_value(*self, *other)
    }
}

/// Integer division of `m` by `d > 0`, rounding to the nearest integer with
/// ties away from zero.
pub open spec fn div_round_half_away(m: int, d: int) -> int {
    let a = if m >= 0 {
        m
    } else {
        -m
    };
    let q = if 2 * (a % d) >= d {
        a / d + 1
    } else {
        a / d
    };
    if m >= 0 {
        q
    } else {
        -q
    }
}

/// `a` brought down to scale `ns`, rounding to nearest with ties away from
/// zero (meaningful for `ns < a.scale`).
pub open spec fn spec_rescaled_down(a: Amount, ns: u32) -> Amount {
    Amount {
        mantissa: div_round_half_away(a.mantissa as int, pow10((a.scale - ns) as nat)) as i128,
        scale: ns,
    }
}

impl Amount {
    /// The amount brought down to scale `new_scale`, rounding to the nearest
    /// representable value with ties away from zero.
    pub fn rescale_down(&self, new_scale: u32) -> (r: Amount)
        requires
            self.wf(),
            new_scale < self.scale,
        ensures
            r == spec_rescaled_down(*self, new_scale),
            r.wf(),
    {
        let ghost d = pow10((self.scale - new_scale) as nat);
        let du = pow10_i128(self.scale - new_scale) as u128;
        let neg = self.mantissa < 0;
        let a = if neg {
            (-self.mantissa) as u128
        } else {
            self.mantissa as u128
        };
        let q = a / du;
        let r = a % du;
        let up = 2 * r >= du;
        let mag = if up {
            q + 1
        } else {
            q
        };
        proof {
            lemma_pow10_increases(1, (self.scale - new_scale) as nat);
            assert(a / du <= a) by {
                vstd::arithmetic::div_mod::lemma_div_nonincreasing(a as int, du as int);
            }
            assert(a as int / (du as int) < MAX_MANTISSA) by {
                vstd::arithmetic::div_mod::lemma_div_is_ordered(a as int, MAX_MANTISSA as int, du as int);
                vstd::arithmetic::div_mod::lemma_div_is_ordered_by_denominator(MAX_MANTISSA as int, 10, du as int);
                assert(MAX_MANTISSA as int / 10 < MAX_MANTISSA);
            }
        }
        let m = if neg {
            -(mag as i128)
        } else {
            mag as i128
        };
        Amount { mantissa: m, scale: new_scale }
    }
}

/// Rescaling `a` (well-formed, of scale at most `s`) to scale `s` keeps its
/// value: the rescaled mantissa denotes the same number at scale `s`.
pub proof fn lemma_rescaled_units(a: Amount, s: u32)
    requires
        a.wf(),
        a.scale <= s <= MAX_SCALE,
    ensures
        rescaled(a, s) * pow10((MAX_SCALE - s) as nat) == a.units(),
{
    lemma_pow10_adds((s - a.scale) as nat, (MAX_SCALE - s) as nat);
    vstd::arithmetic::mul::lemma_mul_is_associative(
        a.mantissa as int,
        pow10((s - a.scale) as nat),
        pow10((MAX_SCALE - s) as nat),
    );
}

/// At a common scale, the order and equality of rescaled mantissas coincide
/// with the order and equality of values.
pub proof fn lemma_units_order(a: Amount, b: Amount, s: u32)
    requires
        a.wf(),
        b.wf(),
        a.scale <= s <= MAX_SCALE,
        b.scale <= s,
    ensures
        (rescaled(a, s) < rescaled(b, s)) <==> (a.units() < b.units()),
        (rescaled(a, s) == rescaled(b, s)) <==> (a.units() == b.units()),
{
    lemma_rescaled_units(a, s);
    lemma_rescaled_units(b, s);
    let p = pow10((MAX_SCALE - s) as nat);
    lemma_pow10_positive((MAX_SCALE - s) as nat);
    if rescaled(a, s) < rescaled(b, s) {
        vstd::arithmetic::mul::lemma_mul_strict_inequality(rescaled(a, s), rescaled(b, s), p);
    }
    if rescaled(b, s) < rescaled(a, s) {
        vstd::arithmetic::mul::lemma_mul_strict_inequality(rescaled(b, s), rescaled(a, s), p);
    }
}

/// When rescaling pushes `a` out of the representable range, its value
/// strictly dominates (in magnitude, on its own side of zero) every
/// in-range rescaled operand.
proof fn lemma_out_of_range_dominates(a: Amount, b: Amount, s: u32)
    requires
        a.wf(),
        b.wf(),
        a.scale <= s <= MAX_SCALE,
        b.scale <= s,
        !(-MAX_MANTISSA <= rescaled(a, s) <= MAX_MANTISSA),
        -MAX_MANTISSA <= rescaled(b, s) <= MAX_MANTISSA,
    ensures
        a.mantissa < 0 ==> a.units() < b.units(),
        a.mantissa > 0 ==> a.units() > b.units(),
        a.mantissa != 0,
{
    let k = (s - a.scale) as nat;
    lemma_pow10_positive(k);
    if a.mantissa == 0 {
        vstd::arithmetic::mul::lemma_mul_by_zero_is_zero(pow10(k));
        assert(rescaled(a, s) == 0);
    } else if a.mantissa < 0 {
        vstd::arithmetic::mul::lemma_mul_strictly_positive(-a.mantissa as int, pow10(k));
        assert(a.mantissa * pow10(k) == -((-a.mantissa) * pow10(k))) by (nonlinear_arith);
        lemma_units_order(a, b, s);
    } else {
        vstd::arithmetic::mul::lemma_mul_strictly_positive(a.mantissa as int, pow10(k));
        lemma_units_order(a, b, s);
    }
}

/// The sum of two addable amounts is well-formed and its value is the sum of
/// the values.
pub proof fn lemma_spec_add_units(a: Amount, b: Amount)
    requires
        a.wf(),
        b.wf(),
        addable(a, b),
    ensures
        spec_add(a, b).wf(),
        spec_add(a, b).scale == common_scale(a, b),
        spec_add(a, b).units() == a.units() + b.units(),
{
    let s = common_scale(a, b);
    let p = pow10((MAX_SCALE - s) as nat);
    lemma_rescaled_units(a, s);
    lemma_rescaled_units(b, s);
    vstd::arithmetic::mul::lemma_mul_is_distributive_add_other_way(
        p,
        rescaled(a, s),
        rescaled(b, s),
    );
}

/// The negation of a well-formed amount is well-formed and its value is the
/// negated value.
pub proof fn lemma_spec_neg_units(a: Amount)
    requires
        a.wf(),
    ensures
        spec_neg(a).wf(),
        spec_neg(a).units() == -a.units(),
        spec_neg(a).scale == a.scale,
{
    assert((-a.mantissa) * pow10((MAX_SCALE - a.scale) as nat) == -(a.mantissa * pow10((
    MAX_SCALE - a.scale) as nat))) by (nonlinear_arith);
}

/// The difference of two subtractable amounts is well-formed and its value is
/// the difference of the values.
pub proof fn lemma_spec_sub_units(a: Amount, b: Amount)
    requires
        a.wf(),
        b.wf(),
        subtractable(a, b),
    ensures
        spec_sub(a, b).wf(),
        spec_sub(a, b).scale == common_scale(a, b),
        spec_sub(a, b).units() == a.units() - b.units(),
{
    lemma_spec_neg_units(b);
    lemma_spec_add_units(a, spec_neg(b));
}

/// `m * 10^e`, or `None` when the product leaves the representable mantissa
/// range.
fn scale_up(m: i128, e: u32) -> (r: Option<i128>)
    requires
        -MAX_MANTISSA <= m <= MAX_MANTISSA,
        e <= MAX_SCALE,
    ensures
        match r {
            Some(v) => v == m * pow10(e as nat) && -MAX_MANTISSA <= v <= MAX_MANTISSA,
            None => !(-MAX_MANTISSA <= m * pow10(e as nat) <= MAX_MANTISSA),
        },
{
    let p = pow10_i128(e);
    match m.checked_mul(p) {
        Some(v) => {
            if -MAX_MANTISSA <= v && v <= MAX_MANTISSA {
                Some(v)
            } else {
                None
            }
        },
        None => None,
    }
}

/// An amount with a zero mantissa denotes zero, at any scale.
pub proof fn lemma_zero_mantissa_units(a: Amount)
    requires
        a.mantissa == 0,
    ensures
        a.units() == 0,
{
    vstd::arithmetic::mul::lemma_mul_by_zero_is_zero(pow10((MAX_SCALE - a.scale) as nat));
}

/// `10^e > 0`.
pub proof fn lemma_pow10_positive(e: nat)
    ensures
        pow10(e) >= 1,
    decreases e,
{
    if e > 0 {
        lemma_pow10_positive((e - 1) as nat);
    }
}

/// `10^e` grows with `e`.
pub proof fn lemma_pow10_increases(e1: nat, e2: nat)
    requires
        e1 <= e2,
    ensures
        pow10(e1) <= pow10(e2),
    decreases e2,
{
    if e1 < e2 {
        lemma_pow10_increases(e1, (e2 - 1) as nat);
        lemma_pow10_positive(e1);
    }
}

/// `10^a * 10^b == 10^(a + b)`.
pub proof fn lemma_pow10_adds(a: nat, b: nat)
    ensures
        pow10(a) * pow10(b) == pow10(a + b),
    decreases a,
{
    if a == 0 {
    } else {
        lemma_pow10_adds((a - 1) as nat, b);
        assert(pow10(a) * pow10(b) == 10 * pow10((a - 1) as nat) * pow10(b))
            by (nonlinear_arith)
            requires
                pow10(a) == 10 * pow10((a - 1) as nat),
        ;
        assert(10 * pow10((a - 1) as nat) * pow10(b) == 10 * (pow10((a - 1) as nat) * pow10(b)))
            by (nonlinear_arith);
    }
}

/// `10^28` written out, to bound executable computations.
pub proof fn lemma_pow10_max_scale()
    ensures
        pow10(MAX_SCALE as nat) == 10000000000000000000000000000,
{
    reveal_with_fuel(pow10, 29);
    assert(pow10(28) == 10000000000000000000000000000);
}

/// `10^e` for `e <= MAX_SCALE`, computed executably.
pub fn pow10_i128(e: u32) -> (r: i128)
    requires
        e <= MAX_SCALE,
    ensures
        r == pow10(e as nat),
        r >= 1,
{
    let mut r: i128 = 1;
    let mut i: u32 = 0;
    while i < e
        invariant
            i <= e <= MAX_SCALE,
            r == pow10(i as nat),
            r >= 1,
        decreases e - i,
    {
        proof {
            lemma_pow10_increases((i + 1) as nat, MAX_SCALE as nat);
            lemma_pow10_max_scale();
        }
        r = r * 10;
        i = i + 1;
    }
    r
}

} // verus!
