//! Exact signed decimal amounts.
//!
//! A [`Value`] is a pair of signed digits and a number of decimal places:
//! it stands for `digits / 10^places`. Sums and differences are exact:
//! there is one wherever digits of at most 96 bits with at most 28 decimal
//! places can write it, and none elsewhere. Nothing is ever rounded.

use vstd::bytes::{
    lemma_auto_spec_u128_to_from_le_bytes, spec_u128_from_le_bytes, spec_u128_to_le_bytes,
    u128_from_le_bytes, u128_to_le_bytes,
};
use vstd::prelude::*;

verus! {

/// The largest number of decimal places an amount can carry.
pub const MAX_SCALE: u32 = 28;

/// The largest magnitude of an amount's digits, `2^96 - 1`.
pub const MAX_MANTISSA: i128 = 79228162514264337593543950335;

/// `10^n`.
pub open spec fn pow10(n: nat) -> int
    decreases n,
{
    if n == 0 {
        1
    } else {
        10 * pow10((n - 1) as nat)
    }
}

/// Whether `d` fits the digits of an amount.
pub open spec fn in_range(d: int) -> bool {
    -MAX_MANTISSA <= d <= MAX_MANTISSA
}

/// The larger of two numbers of decimal places.
pub open spec fn max_places(a: nat, b: nat) -> nat {
    if a >= b {
        a
    } else {
        b
    }
}

/// A power of ten is at least one.
pub proof fn lemma_pow10_positive(n: nat)
    ensures
        pow10(n) >= 1,
    decreases n,
{
    if n > 0 {
        lemma_pow10_positive((n - 1) as nat);
    }
}

/// A larger exponent gives no smaller power of ten.
pub proof fn lemma_pow10_monotonic(a: nat, b: nat)
    requires
        a <= b,
    ensures
        pow10(a) <= pow10(b),
    decreases b,
{
    if a < b {
        lemma_pow10_monotonic(a, (b - 1) as nat);
        lemma_pow10_positive((b - 1) as nat);
    }
}

/// The power of a sum is the product of the powers.
pub proof fn lemma_pow10_sum(a: nat, b: nat)
    ensures
        pow10(a + b) == pow10(a) * pow10(b),
    decreases a,
{
    if a == 0 {
        assert(pow10(0) == 1);
        assert(pow10(a + b) == 1 * pow10(b));
    } else {
        lemma_pow10_sum((a - 1) as nat, b);
        assert(pow10(a + b) == 10 * pow10((a + b - 1) as nat));
        assert(((a - 1) as nat) + b == (a + b - 1) as nat);
        assert(10 * (pow10((a - 1) as nat) * pow10(b)) == (10 * pow10((a - 1) as nat)) * pow10(
            b,
        )) by (nonlinear_arith);
    }
}

/// The powers of ten at the ends of the range of decimal places.
pub proof fn lemma_pow10_limit()
    ensures
        pow10(28) == 10000000000000000000000000000,
        pow10(0) == 1,
        pow10(1) == 10,
{
    reveal_with_fuel(pow10, 30);
}

/// A signed decimal amount, `digits / 10^places`.
#[derive(Clone, Copy, Debug)]
pub struct Value {
    mantissa: i128,
    scale: u32,
}

impl Default for Value {
    fn default() -> (r: Value)
        ensures
            r == Value::make(0, 0),
    {
        Value { mantissa: 0, scale: 0 }
    }
}

impl View for Value {
    type V = int;

    /// The amount in units of `10^-28`.
    open spec fn view(&self) -> int {
        self.units()
    }
}

impl Value {
    /// The signed digits.
    pub closed spec fn digits(self) -> int {
        self.mantissa as int
    }

    /// The number of decimal places.
    pub closed spec fn places(self) -> nat {
        self.scale as nat
    }

    /// The amount with the given digits and decimal places.
    pub closed spec fn make(digits: int, places: nat) -> Value {
        Value { mantissa: digits as i128, scale: places as u32 }
    }

    /// What holds of every amount that a program can hold.
    #[verifier::type_invariant]
    pub open spec fn wf(self) -> bool {
        in_range(self.digits()) && self.places() <= MAX_SCALE
    }

    /// The amount in units of `10^-28`.
    pub open spec fn units(self) -> int {
        self.digits() * pow10((MAX_SCALE - self.places()) as nat)
    }

    /// The digits written with `places` decimal places.
    pub open spec fn aligned(self, places: nat) -> int {
        self.digits() * pow10((places - self.places()) as nat)
    }

    /// The exact sum, where an amount can write it. Nothing added to an
    /// amount leaves it as it is written; otherwise the sum has the decimal
    /// places of the operand that has more, or as many of them as fit.
    #[verifier::opaque]
    pub open spec fn spec_add(self, rhs: Value) -> Option<Value> {
        let p = max_places(self.places(), rhs.places());
        if self.digits() == 0 {
            Some(rhs)
        } else if rhs.digits() == 0 {
            Some(self)
        } else {
            fitted(self.aligned(p) + rhs.aligned(p), p)
        }
    }

    /// The exact difference, where an amount can write it. Nothing taken
    /// from an amount leaves it as it is written, and an amount taken from
    /// nothing keeps its decimal places; otherwise the difference has the
    /// decimal places of the operand that has more, or as many of them as
    /// fit.
    #[verifier::opaque]
    pub open spec fn spec_sub(self, rhs: Value) -> Option<Value> {
        let p = max_places(self.places(), rhs.places());
        if self.digits() == 0 {
            Some(Value::make(-rhs.digits(), rhs.places()))
        } else if rhs.digits() == 0 {
            Some(self)
        } else {
            fitted(self.aligned(p) - rhs.aligned(p), p)
        }
    }

    /// `make` gives back what it was given.
    pub proof fn lemma_make(digits: int, places: nat)
        requires
            in_range(digits),
            places <= MAX_SCALE,
        ensures
            Value::make(digits, places).digits() == digits,
            Value::make(digits, places).places() == places,
            Value::make(digits, places).wf(),
    {
    }

    /// Two amounts with the same digits and decimal places are one amount.
    pub proof fn lemma_same(self, other: Value)
        requires
            self.digits() == other.digits(),
            self.places() == other.places(),
        ensures
            self == other,
    {
    }

    /// An amount is its digits aligned to 28 places.
    pub proof fn lemma_units_aligned(self, places: nat)
        requires
            self.places() <= places <= MAX_SCALE,
        ensures
            self.units() == self.aligned(places) * pow10((MAX_SCALE - places) as nat),
    {
        let a = (places - self.places()) as nat;
        let b = (MAX_SCALE - places) as nat;
        lemma_pow10_sum(a, b);
        assert(a + b == (MAX_SCALE - self.places()) as nat);
        assert(self.digits() * (pow10(a) * pow10(b)) == (self.digits() * pow10(a)) * pow10(b))
            by (nonlinear_arith);
    }

    /// The sum of two amounts, in units of `10^-28`, is the sum of their
    /// aligned digits.
    pub proof fn lemma_sum_worth(self, rhs: Value)
        requires
            self.wf(),
            rhs.wf(),
        ensures
            ({
                let p = max_places(self.places(), rhs.places());
                &&& self@ + rhs@ == worth(self.aligned(p) + rhs.aligned(p), p)
                &&& self@ - rhs@ == worth(self.aligned(p) - rhs.aligned(p), p)
            }),
    {
        let p = max_places(self.places(), rhs.places());
        self.lemma_units_aligned(p);
        rhs.lemma_units_aligned(p);
        let k = pow10((MAX_SCALE - p) as nat);
        assert((self.aligned(p) + rhs.aligned(p)) * k == self.aligned(p) * k + rhs.aligned(p) * k)
            by (nonlinear_arith);
        assert((self.aligned(p) - rhs.aligned(p)) * k == self.aligned(p) * k - rhs.aligned(p) * k)
            by (nonlinear_arith);
    }

    /// A sum that exists is the sum of the amounts, exactly.
    pub proof fn lemma_add_units(self, rhs: Value)
        requires
            self.wf(),
            rhs.wf(),
            self.spec_add(rhs) is Some,
        ensures
            self.spec_add(rhs).unwrap()@ == self@ + rhs@,
            self.spec_add(rhs).unwrap().wf(),
            self.spec_add(rhs).unwrap().places() <= max_places(self.places(), rhs.places()),
    {
        reveal(Value::spec_add);
        let p = max_places(self.places(), rhs.places());
        self.lemma_sum_worth(rhs);
        self.lemma_sign();
        rhs.lemma_sign();
        if self.digits() != 0 && rhs.digits() != 0 {
            lemma_fitted(self.aligned(p) + rhs.aligned(p), p);
        }
    }

    /// A difference that exists is the difference of the amounts, exactly.
    pub proof fn lemma_sub_units(self, rhs: Value)
        requires
            self.wf(),
            rhs.wf(),
            self.spec_sub(rhs) is Some,
        ensures
            self.spec_sub(rhs).unwrap()@ == self@ - rhs@,
            self.spec_sub(rhs).unwrap().wf(),
            self.spec_sub(rhs).unwrap().places() <= max_places(self.places(), rhs.places()),
    {
        reveal(Value::spec_sub);
        let p = max_places(self.places(), rhs.places());
        self.lemma_sum_worth(rhs);
        self.lemma_sign();
        rhs.lemma_sign();
        if self.digits() == 0 {
            rhs.lemma_negated();
        } else if rhs.digits() != 0 {
            lemma_fitted(self.aligned(p) - rhs.aligned(p), p);
        }
    }

    /// The amount with the opposite sign is worth the opposite.
    pub proof fn lemma_negated(self)
        requires
            self.wf(),
        ensures
            Value::make(-self.digits(), self.places()).wf(),
            Value::make(-self.digits(), self.places())@ == -self@,
    {
        Value::lemma_make(-self.digits(), self.places());
        let k = pow10((MAX_SCALE - self.places()) as nat);
        assert((-self.digits()) * k == -(self.digits() * k)) by (nonlinear_arith);
    }

    /// The sum exists wherever an amount is worth it.
    pub proof fn lemma_add_exists(self, rhs: Value, sum: Value)
        requires
            self.wf(),
            rhs.wf(),
            sum.wf(),
            sum@ == self@ + rhs@,
        ensures
            self.spec_add(rhs) is Some,
    {
        reveal(Value::spec_add);
        let p = max_places(self.places(), rhs.places());
        self.lemma_sum_worth(rhs);
        if self.digits() != 0 && rhs.digits() != 0 {
            lemma_fitted_exists(self.aligned(p) + rhs.aligned(p), p, sum.digits(), sum.places());
        }
    }

    /// The difference exists wherever an amount is worth it.
    pub proof fn lemma_sub_exists(self, rhs: Value, difference: Value)
        requires
            self.wf(),
            rhs.wf(),
            difference.wf(),
            difference@ == self@ - rhs@,
        ensures
            self.spec_sub(rhs) is Some,
    {
        reveal(Value::spec_sub);
        let p = max_places(self.places(), rhs.places());
        self.lemma_sum_worth(rhs);
        if self.digits() != 0 && rhs.digits() != 0 {
            lemma_fitted_exists(
                self.aligned(p) - rhs.aligned(p),
                p,
                difference.digits(),
                difference.places(),
            );
        }
    }

    /// The sum and the difference exist if and only if digits of at most 96
    /// bits with at most 28 decimal places can write them.
    pub proof fn lemma_exists_iff_writable(self, rhs: Value)
        requires
            self.wf(),
            rhs.wf(),
        ensures
            self.spec_add(rhs) is Some <==> writable(self@ + rhs@),
            self.spec_sub(rhs) is Some <==> writable(self@ - rhs@),
    {
        reveal(Value::spec_add);
        reveal(Value::spec_sub);
        let p = max_places(self.places(), rhs.places());
        let sum = self@ + rhs@;
        let difference = self@ - rhs@;
        self.lemma_sum_worth(rhs);
        if self.spec_add(rhs) is Some {
            let found = self.spec_add(rhs).unwrap();
            self.lemma_add_units(rhs);
            assert(writes(found.digits(), found.places(), sum));
        }
        if writable(sum) && self.digits() != 0 && rhs.digits() != 0 {
            let (m, s) = choose|m: int, s: nat| #[trigger] writes(m, s, sum);
            lemma_fitted_exists(self.aligned(p) + rhs.aligned(p), p, m, s);
        }
        if self.spec_sub(rhs) is Some {
            let found = self.spec_sub(rhs).unwrap();
            self.lemma_sub_units(rhs);
            assert(writes(found.digits(), found.places(), difference));
        }
        if writable(difference) && self.digits() != 0 && rhs.digits() != 0 {
            let (m, s) = choose|m: int, s: nat| #[trigger] writes(m, s, difference);
            lemma_fitted_exists(self.aligned(p) - rhs.aligned(p), p, m, s);
        }
    }
}

/// What `digits / 10^places` is worth, in units of `10^-28`.
pub open spec fn worth(digits: int, places: nat) -> int {
    digits * pow10((MAX_SCALE - places) as nat)
}

/// Whether the digits and the decimal places are those of an amount that
/// is worth `units`.
pub open spec fn writes(digits: int, places: nat, units: int) -> bool {
    in_range(digits) && places <= MAX_SCALE && worth(digits, places) == units
}

/// Whether some amount is worth `units`: digits of at most 96 bits with at
/// most 28 decimal places.
pub open spec fn writable(units: int) -> bool {
    exists|digits: int, places: nat| #[trigger] writes(digits, places, units)
}

/// The amount worth `digits / 10^places` that has the most decimal places,
/// at most `places`: places are given up, one zero digit at a time, until
/// the digits fit. `None` where the digits do not fit and end in no zero.
pub open spec fn fitted(digits: int, places: nat) -> Option<Value>
    decreases places,
{
    if in_range(digits) {
        Some(Value::make(digits, places))
    } else if places > 0 && digits % 10 == 0 {
        fitted(digits / 10, (places - 1) as nat)
    } else {
        None
    }
}

/// What `fitted` gives is an amount, worth what it was given, with no more
/// decimal places.
pub proof fn lemma_fitted(digits: int, places: nat)
    requires
        places <= MAX_SCALE,
        fitted(digits, places) is Some,
    ensures
        fitted(digits, places).unwrap().wf(),
        fitted(digits, places).unwrap().places() <= places,
        fitted(digits, places).unwrap()@ == worth(digits, places),
    decreases places,
{
    if in_range(digits) {
        Value::lemma_make(digits, places);
    } else {
        let tenth = digits / 10;
        lemma_fitted(tenth, (places - 1) as nat);
        let k = pow10((MAX_SCALE - places) as nat);
        assert(pow10((MAX_SCALE - (places - 1)) as nat) == 10 * k);
        assert(tenth * (10 * k) == (10 * tenth) * k) by (nonlinear_arith);
    }
}

/// `fitted` gives an amount wherever there is one of that worth.
pub proof fn lemma_fitted_exists(digits: int, places: nat, m: int, s: nat)
    requires
        places <= MAX_SCALE,
        writes(m, s, worth(digits, places)),
    ensures
        fitted(digits, places) is Some,
    decreases places,
{
    if !in_range(digits) {
        let q = pow10((MAX_SCALE - places) as nat);
        let p = pow10((MAX_SCALE - s) as nat);
        lemma_pow10_positive((MAX_SCALE - places) as nat);
        lemma_pow10_positive((MAX_SCALE - s) as nat);
        if s >= places {
            let k = pow10((s - places) as nat);
            lemma_pow10_positive((s - places) as nat);
            lemma_pow10_sum((s - places) as nat, (MAX_SCALE - s) as nat);
            assert(q == k * p);
            assert(digits * (k * p) == (digits * k) * p) by (nonlinear_arith);
            lemma_scaling_keeps_order(m, digits * k, p);
            assert(m == digits * k);
            assert(digits >= 0 ==> digits * k >= digits) by (nonlinear_arith)
                requires
                    k >= 1,
            ;
            assert(digits <= 0 ==> digits * k <= digits) by (nonlinear_arith)
                requires
                    k >= 1,
            ;
            assert(false);
        } else {
            let d = (places - s) as nat;
            let r = pow10((d - 1) as nat);
            lemma_pow10_sum(d, (MAX_SCALE - places) as nat);
            assert(p == pow10(d) * q);
            assert(pow10(d) == 10 * r);
            assert(m * ((10 * r) * q) == (10 * (m * r)) * q) by (nonlinear_arith);
            lemma_scaling_keeps_order(digits, 10 * (m * r), q);
            assert(digits == 10 * (m * r));
            assert(digits % 10 == 0 && digits / 10 == m * r);
            assert(pow10((MAX_SCALE - (places - 1)) as nat) == 10 * q);
            assert((m * r) * (10 * q) == (10 * (m * r)) * q) by (nonlinear_arith);
            lemma_fitted_exists(digits / 10, (places - 1) as nat, m, s);
        }
    }
}

/// `10^n` for `n` up to 28.
fn power_of_ten(n: u32) -> (r: i128)
    requires
        n <= MAX_SCALE,
    ensures
        r == pow10(n as nat),
        1 <= r <= 10000000000000000000000000000,
{
    let mut r: i128 = 1;
    let mut i: u32 = 0;
    while i < n
        invariant
            i <= n <= MAX_SCALE,
            r == pow10(i as nat),
        decreases n - i,
    {
        proof {
            lemma_pow10_monotonic(i as nat, 27);
            reveal_with_fuel(pow10, 30);
            assert(pow10(27) == 1000000000000000000000000000);
        }
        r = r * 10;
        i = i + 1;
    }
    proof {
        lemma_pow10_monotonic(n as nat, 28);
        lemma_pow10_positive(n as nat);
        lemma_pow10_limit();
    }
    r
}

/// `digits * 10^by`, where it fits 128 bits.
fn scaled_up(digits: i128, by: u32) -> (r: Option<i128>)
    requires
        by <= MAX_SCALE,
    ensures
        r == if i128::MIN <= digits * pow10(by as nat) <= i128::MAX {
            Some((digits * pow10(by as nat)) as i128)
        } else {
            None
        },
{
    let p = power_of_ten(by);
    digits.checked_mul(p)
}

impl Value {
    /// Zero, with no decimal places.
    pub fn zero() -> (r: Value)
        ensures
            r == Value::make(0, 0),
            r.digits() == 0,
            r.places() == 0,
    {
        Value { mantissa: 0, scale: 0 }
    }

    /// One, with no decimal places.
    pub fn one() -> (r: Value)
        ensures
            r == Value::make(1, 0),
            r.digits() == 1,
            r.places() == 0,
    {
        Value { mantissa: 1, scale: 0 }
    }

    /// Ten, with no decimal places.
    pub fn ten() -> (r: Value)
        ensures
            r == Value::make(10, 0),
            r.digits() == 10,
            r.places() == 0,
    {
        Value { mantissa: 10, scale: 0 }
    }

    /// The amount `num / 10^scale`.
    pub fn new(num: i64, scale: u32) -> (r: Value)
        requires
            scale <= MAX_SCALE,
        ensures
            r == Value::make(num as int, scale as nat),
            r.digits() == num,
            r.places() == scale,
    {
        Value { mantissa: num as i128, scale }
    }

    /// The amount `digits / 10^scale`, where `digits` has at most 96 bits
    /// and `scale` is at most 28.
    pub fn from_parts(digits: i128, scale: u32) -> (r: Option<Value>)
        ensures
            r == if in_range(digits as int) && scale <= MAX_SCALE {
                Some(Value::make(digits as int, scale as nat))
            } else {
                None
            },
    {
        if -MAX_MANTISSA <= digits && digits <= MAX_MANTISSA && scale <= MAX_SCALE {
            Some(Value { mantissa: digits, scale })
        } else {
            None
        }
    }

    /// The signed digits.
    pub fn mantissa(&self) -> (r: i128)
        ensures
            r == self.digits(),
            in_range(r as int),
    {
        proof {
            use_type_invariant(self);
        }
        self.mantissa
    }

    /// The number of decimal places.
    pub fn scale(&self) -> (r: u32)
        ensures
            r == self.places(),
            r <= MAX_SCALE,
    {
        proof {
            use_type_invariant(self);
        }
        self.scale
    }

    /// The exact sum, or `None` where no amount can write it.
    pub fn checked_add(self, rhs: Value) -> (r: Option<Value>)
        ensures
            r == self.spec_add(rhs),
            r is Some <==> writable(self@ + rhs@),
            r is Some ==> r.unwrap()@ == self@ + rhs@,
    {
        proof {
            reveal(Value::spec_add);
            use_type_invariant(&self);
            use_type_invariant(&rhs);
            self.lemma_exists_iff_writable(rhs);
            if self.spec_add(rhs) is Some {
                self.lemma_add_units(rhs);
            }
        }
        if self.mantissa == 0 {
            Some(rhs)
        } else if rhs.mantissa == 0 {
            Some(self)
        } else {
            fit_sum(self.mantissa, self.scale, rhs.mantissa, rhs.scale)
        }
    }

    /// The exact difference, or `None` where no amount can write it.
    pub fn checked_sub(self, rhs: Value) -> (r: Option<Value>)
        ensures
            r == self.spec_sub(rhs),
            r is Some <==> writable(self@ - rhs@),
            r is Some ==> r.unwrap()@ == self@ - rhs@,
    {
        proof {
            reveal(Value::spec_sub);
            use_type_invariant(&self);
            use_type_invariant(&rhs);
            self.lemma_exists_iff_writable(rhs);
            if self.spec_sub(rhs) is Some {
                self.lemma_sub_units(rhs);
            }
            let p = max_places(self.places(), rhs.places());
            let k = pow10((p - rhs.places()) as nat);
            assert((-rhs.digits()) * k == -(rhs.digits() * k)) by (nonlinear_arith);
        }
        if self.mantissa == 0 {
            Some(Value { mantissa: -rhs.mantissa, scale: rhs.scale })
        } else if rhs.mantissa == 0 {
            Some(self)
        } else {
            fit_sum(self.mantissa, self.scale, -rhs.mantissa, rhs.scale)
        }
    }
}

/// The sum of two rows of digits, each aligned to the decimal places of the
/// one that has more.
pub open spec fn aligned_sum(a: int, a_places: nat, b: int, b_places: nat) -> int {
    let p = max_places(a_places, b_places);
    a * pow10((p - a_places) as nat) + b * pow10((p - b_places) as nat)
}

/// A tenth of the digits, where they end in a zero.
fn tenth(digits: i128) -> (r: Option<i128>)
    requires
        -2 * MAX_MANTISSA <= digits <= 2 * MAX_MANTISSA,
    ensures
        r == if digits % 10 == 0 {
            Some((digits / 10) as i128)
        } else {
            None
        },
{
    let magnitude: u128 = if digits < 0 {
        (-digits) as u128
    } else {
        digits as u128
    };
    if magnitude % 10 != 0 {
        None
    } else if digits < 0 {
        Some(-((magnitude / 10) as i128))
    } else {
        Some((magnitude / 10) as i128)
    }
}

/// The amount worth `a / 10^a_scale + b / 10^b_scale`, with the decimal
/// places of the operand that has more, or with as many of them as fit.
fn fit_sum(first: i128, first_scale: u32, second: i128, second_scale: u32) -> (r: Option<Value>)
    requires
        in_range(first as int),
        in_range(second as int),
        first_scale <= MAX_SCALE,
        second_scale <= MAX_SCALE,
    ensures
        r == fitted(
            aligned_sum(first as int, first_scale as nat, second as int, second_scale as nat),
            max_places(first_scale as nat, second_scale as nat),
        ),
{
    let ghost wanted = fitted(
        aligned_sum(first as int, first_scale as nat, second as int, second_scale as nat),
        max_places(first_scale as nat, second_scale as nat),
    );
    let mut a = first;
    let mut a_scale = first_scale;
    let mut b = second;
    let mut b_scale = second_scale;
    loop
        invariant
            wanted == fitted(
                aligned_sum(
                    first as int,
                    first_scale as nat,
                    second as int,
                    second_scale as nat,
                ),
                max_places(first_scale as nat, second_scale as nat),
            ),
            in_range(a as int),
            in_range(b as int),
            a_scale <= MAX_SCALE,
            b_scale <= MAX_SCALE,
            wanted == fitted(
                aligned_sum(a as int, a_scale as nat, b as int, b_scale as nat),
                max_places(a_scale as nat, b_scale as nat),
            ),
        decreases a_scale + b_scale,
    {
        let scale = if a_scale >= b_scale {
            a_scale
        } else {
            b_scale
        };
        let ghost sum = aligned_sum(a as int, a_scale as nat, b as int, b_scale as nat);
        proof {
            lemma_pow10_limit();
            lemma_pow10_positive((scale - a_scale) as nat);
            lemma_pow10_positive((scale - b_scale) as nat);
            assert(a_scale == scale ==> a * pow10((scale - a_scale) as nat) == a) by {
                assert(a * pow10(0) == a);
            }
            assert(b_scale == scale ==> b * pow10((scale - b_scale) as nat) == b) by {
                assert(b * pow10(0) == b);
            }
        }
        let x = scaled_up(a, scale - a_scale);
        let y = scaled_up(b, scale - b_scale);
        match (x, y) {
            (Some(x), Some(y)) => {
                match x.checked_add(y) {
                    Some(fits) => {
                        if -MAX_MANTISSA <= fits && fits <= MAX_MANTISSA {
                            return Some(Value { mantissa: fits, scale });
                        }
                    },
                    None => {},
                }
            },
            _ => {},
        }
        assert(!in_range(sum));
        if a_scale == b_scale {
            if scale == 0 {
                return None;
            }
            proof {
                assert(sum == a + b);
                if sum % 10 == 0 {
                    assert(in_range(sum / 10));
                    assert(fitted(sum / 10, (scale - 1) as nat) == Some(
                        Value::make(sum / 10, (scale - 1) as nat),
                    ));
                }
            }
            return match tenth(a + b) {
                Some(digits) => Some(Value { mantissa: digits, scale: scale - 1 }),
                None => None,
            };
        } else if a_scale < b_scale {
            proof {
                let d = (b_scale - a_scale) as nat;
                let rest = a * pow10((d - 1) as nat);
                assert(pow10(d) == 10 * pow10((d - 1) as nat));
                assert(a * (10 * pow10((d - 1) as nat)) == 10 * rest) by (nonlinear_arith)
                    requires
                        rest == a * pow10((d - 1) as nat),
                ;
                assert(sum == 10 * rest + b);
                assert((b / 10) * pow10(0) == b / 10);
            }
            match tenth(b) {
                Some(digits) => {
                    b = digits;
                    b_scale = b_scale - 1;
                },
                None => {
                    return None;
                },
            }
        } else {
            proof {
                let d = (a_scale - b_scale) as nat;
                let rest = b * pow10((d - 1) as nat);
                assert(pow10(d) == 10 * pow10((d - 1) as nat));
                assert(b * (10 * pow10((d - 1) as nat)) == 10 * rest) by (nonlinear_arith)
                    requires
                        rest == b * pow10((d - 1) as nat),
                ;
                assert(sum == a + 10 * rest);
                assert((a / 10) * pow10(0) == a / 10);
            }
            match tenth(a) {
                Some(digits) => {
                    a = digits;
                    a_scale = a_scale - 1;
                },
                None => {
                    return None;
                },
            }
        }
    }
}

/// Among integers, multiplying by a positive number keeps the order.
proof fn lemma_scaling_keeps_order(x: int, y: int, k: int)
    requires
        k > 0,
    ensures
        x < y <==> x * k < y * k,
        x == y <==> x * k == y * k,
{
    assert(x < y ==> x * k < y * k) by (nonlinear_arith)
        requires
            k > 0,
    ;
    assert(y < x ==> y * k < x * k) by (nonlinear_arith)
        requires
            k > 0,
    ;
}

impl Value {
    /// Amounts are ordered as their digits are, once aligned.
    pub proof fn lemma_order_aligned(self, rhs: Value, places: nat)
        requires
            self.places() <= places <= MAX_SCALE,
            rhs.places() <= places,
        ensures
            self@ < rhs@ <==> self.aligned(places) < rhs.aligned(places),
            self@ == rhs@ <==> self.aligned(places) == rhs.aligned(places),
    {
        self.lemma_units_aligned(places);
        rhs.lemma_units_aligned(places);
        let k = pow10((MAX_SCALE - places) as nat);
        lemma_pow10_positive((MAX_SCALE - places) as nat);
        lemma_scaling_keeps_order(self.aligned(places), rhs.aligned(places), k);
    }

    /// An amount has the sign of its digits.
    pub proof fn lemma_sign(self)
        requires
            self.places() <= MAX_SCALE,
        ensures
            self@ < 0 <==> self.digits() < 0,
            self@ == 0 <==> self.digits() == 0,
    {
        let k = pow10((MAX_SCALE - self.places()) as nat);
        lemma_pow10_positive((MAX_SCALE - self.places()) as nat);
        lemma_scaling_keeps_order(self.digits(), 0, k);
    }

    /// -1, 0 or 1 as `self` is less than, equal to or more than `rhs`.
    fn order(&self, rhs: &Value) -> (r: i8)
        ensures
            r == -1 || r == 0 || r == 1,
            r == -1 <==> self@ < rhs@,
            r == 0 <==> self@ == rhs@,
    {
        proof {
            use_type_invariant(self);
            use_type_invariant(rhs);
            lemma_pow10_limit();
        }
        let scale = if self.scale >= rhs.scale {
            self.scale
        } else {
            rhs.scale
        };
        proof {
            self.lemma_order_aligned(*rhs, scale as nat);
            lemma_pow10_positive((scale - self.scale) as nat);
            lemma_pow10_positive((scale - rhs.scale) as nat);
        }
        let a = scaled_up(self.mantissa, scale - self.scale);
        let b = scaled_up(rhs.mantissa, scale - rhs.scale);
        assert(self.aligned(scale as nat) == self.mantissa * pow10((scale - self.scale) as nat));
        assert(rhs.aligned(scale as nat) == rhs.mantissa * pow10((scale - rhs.scale) as nat));
        assert(scale == self.scale ==> self.aligned(scale as nat) == self.mantissa) by {
            if scale == self.scale {
                assert((scale - self.scale) as nat == 0);
                assert(self.mantissa * pow10(0) == self.mantissa);
            }
        }
        assert(scale == rhs.scale ==> rhs.aligned(scale as nat) == rhs.mantissa) by {
            if scale == rhs.scale {
                assert((scale - rhs.scale) as nat == 0);
                assert(rhs.mantissa * pow10(0) == rhs.mantissa);
            }
        }
        match (a, b) {
            (Some(a), Some(b)) => {
                if a < b {
                    -1
                } else if a == b {
                    0
                } else {
                    1
                }
            },
            (None, _) => {
                proof {
                    let p = pow10((scale - self.scale) as nat);
                    assert(self.mantissa < 0 ==> self.mantissa * p < 0) by (nonlinear_arith)
                        requires
                            p >= 1,
                    ;
                    assert(self.mantissa >= 0 ==> self.mantissa * p >= 0) by (nonlinear_arith)
                        requires
                            p >= 1,
                    ;
                }
                if self.mantissa < 0 {
                    -1
                } else {
                    1
                }
            },
            (_, None) => {
                proof {
                    let p = pow10((scale - rhs.scale) as nat);
                    assert(rhs.mantissa < 0 ==> rhs.mantissa * p < 0) by (nonlinear_arith)
                        requires
                            p >= 1,
                    ;
                    assert(rhs.mantissa >= 0 ==> rhs.mantissa * p >= 0) by (nonlinear_arith)
                        requires
                            p >= 1,
                    ;
                }
                if rhs.mantissa < 0 {
                    1
                } else {
                    -1
                }
            },
        }
    }

    /// Whether `self` is the smaller amount.
    pub fn is_less_than(&self, rhs: &Value) -> (r: bool)
        ensures
            r == (self@ < rhs@),
    {
        self.order(rhs) == -1
    }

    /// Whether `self` is the larger amount or the same.
    pub fn is_at_least(&self, rhs: &Value) -> (r: bool)
        ensures
            r == (self@ >= rhs@),
    {
        self.order(rhs) != -1
    }

    /// Whether the two are the same amount, whatever their decimal places.
    pub fn same_amount(&self, rhs: &Value) -> (r: bool)
        ensures
            r == (self@ == rhs@),
    {
        self.order(rhs) == 0
    }

    /// Whether the amount is below zero.
    pub fn is_negative(&self) -> (r: bool)
        ensures
            r == (self@ < 0),
    {
        proof {
            use_type_invariant(self);
            self.lemma_sign();
        }
        self.mantissa < 0
    }
}

/// `2^96`: the digits of an amount are written below it.
pub const DIGITS_SPAN: u128 = 79228162514264337593543950336;

/// `2^104`: set in the written form of an amount below zero.
pub const SIGN_FLAG: u128 = 20282409603651670423947251286016;

impl Value {
    /// The amount as one number: the magnitude of the digits in the low 96
    /// bits, the decimal places in the next 8, the sign above them.
    pub open spec fn packed(self) -> int {
        if self.digits() < 0 {
            -self.digits() + self.places() * DIGITS_SPAN + SIGN_FLAG
        } else {
            self.digits() + self.places() * DIGITS_SPAN
        }
    }

    /// The amount that `x` is the packed form of, if it is that of any.
    pub open spec fn unpacked(x: int) -> Option<Value> {
        let magnitude = x % (DIGITS_SPAN as int);
        let places = (x / (DIGITS_SPAN as int)) % 256;
        let sign = x / (SIGN_FLAG as int);
        if sign == 0 && places <= MAX_SCALE {
            Some(Value::make(magnitude, places as nat))
        } else if sign == 1 && places <= MAX_SCALE && magnitude != 0 {
            Some(Value::make(-magnitude, places as nat))
        } else {
            None
        }
    }

    /// The 16 bytes that stand for the amount: its packed form, least
    /// significant byte first.
    pub open spec fn spec_le_bytes(self) -> Seq<u8> {
        spec_u128_to_le_bytes(self.packed() as u128)
    }

    /// The amount that 16 bytes stand for, if they stand for any.
    pub open spec fn spec_from_le_bytes(bytes: Seq<u8>) -> Option<Value> {
        if bytes.len() == 16 {
            Value::unpacked(spec_u128_from_le_bytes(bytes) as int)
        } else {
            None
        }
    }

    /// Unpacking undoes packing.
    pub proof fn lemma_packed(self)
        requires
            self.wf(),
        ensures
            0 <= self.packed() < 2 * SIGN_FLAG,
            Value::unpacked(self.packed()) == Some(self),
    {
        let x = self.packed();
        let magnitude = if self.digits() < 0 {
            -self.digits()
        } else {
            self.digits()
        };
        let p = self.places() as int;
        let sign: int = if self.digits() < 0 {
            1
        } else {
            0
        };
        assert(x == magnitude + p * 79228162514264337593543950336 + sign
            * 20282409603651670423947251286016);
        assert(x % 79228162514264337593543950336 == magnitude);
        assert(x / 79228162514264337593543950336 == p + sign * 256);
        assert(x / 20282409603651670423947251286016 == sign);
        assert((p + sign * 256) % 256 == p);
        if sign == 0 {
            Value::lemma_make(magnitude, p as nat);
            Value::make(magnitude, p as nat).lemma_same(self);
        } else {
            Value::lemma_make(-magnitude, p as nat);
            Value::make(-magnitude, p as nat).lemma_same(self);
        }
    }

    /// Reading the bytes of an amount gives the amount back.
    pub proof fn lemma_bytes_round_trip(self)
        requires
            self.wf(),
        ensures
            self.spec_le_bytes().len() == 16,
            Value::spec_from_le_bytes(self.spec_le_bytes()) == Some(self),
    {
        self.lemma_packed();
        lemma_auto_spec_u128_to_from_le_bytes();
    }

    /// The 16 bytes that stand for the amount.
    pub fn to_le_bytes(&self) -> (r: Vec<u8>)
        ensures
            r@ == self.spec_le_bytes(),
            r@.len() == 16,
    {
        proof {
            use_type_invariant(self);
        }
        let places: u128 = self.scale as u128;
        let packed: u128 = if self.mantissa < 0 {
            ((-self.mantissa) as u128) + places * DIGITS_SPAN + SIGN_FLAG
        } else {
            (self.mantissa as u128) + places * DIGITS_SPAN
        };
        u128_to_le_bytes(packed)
    }

    /// The amount that 16 bytes stand for, or `None` where they stand for
    /// none.
    pub fn from_le_bytes(bytes: &[u8]) -> (r: Option<Value>)
        ensures
            r == Value::spec_from_le_bytes(bytes@),
    {
        if bytes.len() != 16 {
            return None;
        }
        let x: u128 = u128_from_le_bytes(bytes);
        let magnitude: u128 = x % DIGITS_SPAN;
        let places: u128 = (x / DIGITS_SPAN) % 256;
        let sign: u128 = x / SIGN_FLAG;
        assert(magnitude < 79228162514264337593543950336);
        if sign == 0 && places <= 28 {
            Some(Value { mantissa: magnitude as i128, scale: places as u32 })
        } else if sign == 1 && places <= 28 && magnitude != 0 {
            Some(Value { mantissa: -(magnitude as i128), scale: places as u32 })
        } else {
            None
        }
    }
}

impl Value {
    /// A positive amount has digits that stay positive when aligned.
    pub proof fn lemma_aligned_sign(self, places: nat)
        requires
            self.places() <= places <= MAX_SCALE,
        ensures
            self@ >= 0 <==> self.aligned(places) >= 0,
    {
        self.lemma_units_aligned(places);
        lemma_pow10_positive((MAX_SCALE - places) as nat);
        lemma_scaling_keeps_order(self.aligned(places), 0, pow10((MAX_SCALE - places) as nat));
    }

    /// The digits of an amount aligned to its own decimal places are its
    /// digits.
    pub proof fn lemma_aligned_own(self)
        ensures
            self.aligned(self.places()) == self.digits(),
    {
        assert((self.places() - self.places()) as nat == 0);
        assert(self.digits() * pow10(0) == self.digits());
    }
}

} // verus!
