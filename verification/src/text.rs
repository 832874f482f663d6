//! Amounts as decimal literals: `-12.50`, `3`, `0.001`.
//!
//! Reading is exact: the digits after the point become the decimal places
//! of the amount, and a literal that an amount cannot hold is refused, never
//! rounded. Writing gives the literal back.

use crate::decimal::{in_range, Value, MAX_MANTISSA, MAX_SCALE};
use vstd::prelude::*;

verus! {

/// `-`
pub const MINUS: u8 = 45;

/// `+`
pub const PLUS: u8 = 43;

/// `.`
pub const POINT: u8 = 46;

/// `0`
pub const ZERO: u8 = 48;

/// Whether the byte is one of `0` to `9`.
pub open spec fn is_digit(b: u8) -> bool {
    48 <= b <= 57
}

/// Whether the bytes are digits, all of them.
pub open spec fn all_digits(s: Seq<u8>) -> bool {
    forall|i: int| 0 <= i < s.len() ==> is_digit(#[trigger] s[i])
}

/// The number that a row of digits writes.
pub open spec fn number(s: Seq<u8>) -> nat
    decreases s.len(),
{
    if s.len() == 0 {
        0
    } else {
        number(s.drop_last()) * 10 + (s.last() - 48) as nat
    }
}

/// The literal without its sign.
pub open spec fn unsigned(s: Seq<u8>) -> Seq<u8> {
    if s.len() > 0 && (s[0] == MINUS || s[0] == PLUS) {
        s.skip(1)
    } else {
        s
    }
}

/// Whether the literal starts with `-`.
pub open spec fn negative(s: Seq<u8>) -> bool {
    s.len() > 0 && s[0] == MINUS
}

/// Whether `k` is where the point of an unsigned literal stands: digits
/// before it, at least one, and digits after it, at least one.
pub open spec fn point_at(body: Seq<u8>, k: int) -> bool {
    &&& 0 < k < body.len() - 1
    &&& body[k] == POINT
    &&& all_digits(body.take(k))
    &&& all_digits(body.skip(k + 1))
}

/// The amount with the given sign, magnitude and decimal places, where an
/// amount can hold it.
pub open spec fn amount(negative: bool, magnitude: nat, places: nat) -> Option<Value> {
    if magnitude <= MAX_MANTISSA && places <= MAX_SCALE {
        Some(
            Value::make(
                if negative {
                    -(magnitude as int)
                } else {
                    magnitude as int
                },
                places,
            ),
        )
    } else {
        None
    }
}

/// The digits that an unsigned literal writes, without its point, and how
/// many of them stand after the point. `None` where the bytes are no
/// literal.
pub open spec fn written(body: Seq<u8>) -> Option<(Seq<u8>, nat)> {
    if exists|k: int| point_at(body, k) {
        let k = choose|k: int| point_at(body, k);
        Some((body.take(k) + body.skip(k + 1), (body.len() - 1 - k) as nat))
    } else if body.len() > 0 && all_digits(body) {
        Some((body, 0))
    } else {
        None
    }
}

/// The amount that a decimal literal writes: an optional sign, digits, and
/// optionally a point and more digits. `None` where the bytes are no such
/// literal, or write more than an amount can hold.
pub open spec fn spec_parse(s: Seq<u8>) -> Option<Value> {
    match written(unsigned(s)) {
        Some((digits, places)) => amount(negative(s), number(digits), places),
        None => None,
    }
}

/// A row of digits with one more digit writes ten times the number, plus
/// the digit.
pub proof fn lemma_number_push(s: Seq<u8>, d: u8)
    ensures
        number(s.push(d)) == number(s) * 10 + (d - 48) as nat,
{
    assert(s.push(d).drop_last() =~= s);
}

/// More digits never write a smaller number.
pub proof fn lemma_number_grows(s: Seq<u8>, k: int)
    requires
        0 <= k <= s.len(),
    ensures
        number(s.take(k)) <= number(s),
    decreases s.len() - k,
{
    if k < s.len() {
        lemma_number_grows(s, k + 1);
        assert(s.take(k + 1).drop_last() =~= s.take(k));
    } else {
        assert(s.take(k) =~= s);
    }
}

/// A literal has its point in one place at most.
pub proof fn lemma_point_once(body: Seq<u8>, k: int, j: int)
    requires
        point_at(body, k),
        point_at(body, j),
    ensures
        k == j,
{
    if j < k {
        assert(body.take(k)[j] == body[j]);
    } else if k < j {
        assert(body.skip(k + 1)[j - k - 1] == body[j]);
    }
}

/// Digits alone are a literal without decimal places.
pub proof fn lemma_written_plain(body: Seq<u8>)
    requires
        body.len() > 0,
        all_digits(body),
    ensures
        written(body) == Some((body, 0nat)),
{
    assert forall|k: int| !point_at(body, k) by {
        if 0 < k < body.len() - 1 {
            assert(is_digit(body[k]));
        }
    }
}

/// Digits, a point and digits are a literal with as many decimal places as
/// there are digits after the point.
pub proof fn lemma_written_point(body: Seq<u8>, k: int)
    requires
        point_at(body, k),
    ensures
        written(body) == Some((body.take(k) + body.skip(k + 1), (body.len() - 1 - k) as nat)),
{
    let j = choose|j: int| point_at(body, j);
    lemma_point_once(body, k, j);
}

/// Bytes whose first byte that is no digit is no point either, or stands
/// first, are no literal.
pub proof fn lemma_written_bad_byte(body: Seq<u8>, p: int)
    requires
        0 <= p <= body.len(),
        all_digits(body.take(p)),
        p == body.len() ==> p == 0,
        p < body.len() ==> !is_digit(body[p]) && (body[p] != POINT || p == 0),
    ensures
        written(body) is None,
{
    assert forall|k: int| !point_at(body, k) by {
        if point_at(body, k) {
            if k < p {
                assert(body.take(p)[k] == body[k]);
            } else if k > p {
                assert(body.take(k)[p] == body[p]);
            }
        }
    }
    if body.len() > 0 && all_digits(body) {
        assert(is_digit(body[p]));
    }
}

/// Bytes with a point after their first digits, and then no digit or a
/// byte that is none, are no literal.
pub proof fn lemma_written_bad_tail(body: Seq<u8>, p: int, q: int)
    requires
        0 < p < q <= body.len(),
        all_digits(body.take(p)),
        body[p] == POINT,
        all_digits(body.subrange(p + 1, q)),
        q == body.len() ==> q == p + 1,
        q < body.len() ==> !is_digit(body[q]),
    ensures
        written(body) is None,
{
    assert forall|k: int| !point_at(body, k) by {
        if point_at(body, k) {
            if k < p {
                assert(body.take(p)[k] == body[k]);
            } else if k > p {
                assert(body.take(k)[p] == body[p]);
            } else {
                if q < body.len() {
                    assert(body.skip(p + 1)[q - p - 1] == body[q]);
                }
            }
        }
    }
    if body.len() > 0 && all_digits(body) {
        assert(is_digit(body[p]));
    }
}

/// The digits that a literal writes start with the digits that the
/// literal starts with.
pub proof fn lemma_written_starts(body: Seq<u8>, j: int)
    requires
        0 <= j <= body.len(),
        all_digits(body.take(j)),
        written(body) is Some,
    ensures
        j <= written(body).unwrap().0.len(),
        written(body).unwrap().0.take(j) == body.take(j),
        number(body.take(j)) <= number(written(body).unwrap().0),
{
    let digits = written(body).unwrap().0;
    if exists|k: int| point_at(body, k) {
        let k = choose|k: int| point_at(body, k);
        if k < j {
            assert(body.take(j)[k] == body[k]);
        }
        assert(digits.take(j) =~= body.take(j));
    } else {
        assert(digits.take(j) =~= body.take(j));
    }
    lemma_number_grows(digits, j);
}

/// The digits that a literal with a point writes start with the digits
/// before the point and those that follow it.
pub proof fn lemma_written_follows(body: Seq<u8>, p: int, q: int)
    requires
        0 < p < q <= body.len(),
        all_digits(body.take(p)),
        body[p] == POINT,
        all_digits(body.subrange(p + 1, q)),
        written(body) is Some,
    ensures
        written(body).unwrap().1 >= q - p - 1,
        number(body.take(p) + body.subrange(p + 1, q)) <= number(written(body).unwrap().0),
{
    let digits = written(body).unwrap().0;
    if exists|k: int| point_at(body, k) {
        let k = choose|k: int| point_at(body, k);
        if k < p {
            assert(body.take(p)[k] == body[k]);
        } else if k > p {
            assert(body.take(k)[p] == body[p]);
        }
        assert(digits.take(q - 1) =~= body.take(p) + body.subrange(p + 1, q));
        lemma_number_grows(digits, q - 1);
    } else {
        assert(is_digit(body[p]));
    }
}

impl Value {
    /// Read an amount from a decimal literal in ASCII.
    pub fn parse(text: &[u8]) -> (r: Option<Value>)
        ensures
            r == spec_parse(text@),
    {
        let n = text.len();
        let negative = n > 0 && text[0] == MINUS;
        let start: usize = if n > 0 && (text[0] == MINUS || text[0] == PLUS) {
            1
        } else {
            0
        };
        let ghost body = unsigned(text@);
        assert(body =~= text@.skip(start as int));
        let mut i: usize = start;
        let mut magnitude: u128 = 0;
        while i < n && ZERO <= text[i] && text[i] <= ZERO + 9
            invariant
                start <= i <= n,
                n == text@.len(),
                body == text@.skip(start as int),
                body == unsigned(text@),
                all_digits(body.take(i - start)),
                magnitude == number(body.take(i - start)),
                magnitude <= MAX_MANTISSA,
            decreases n - i,
        {
            let digit = (text[i] - ZERO) as u128;
            let next = magnitude * 10 + digit;
            proof {
                assert(body.take(i - start + 1) =~= body.take(i - start).push(text@[i as int]));
                lemma_number_push(body.take(i - start), text@[i as int]);
            }
            if next > MAX_MANTISSA as u128 {
                proof {
                    assert(next == number(body.take(i - start + 1)));
                    if written(body) is Some {
                        lemma_written_starts(body, i - start + 1);
                    }
                    assert(spec_parse(text@) is None);
                }
                return None;
            }
            magnitude = next;
            i = i + 1;
        }
        let point = i - start;
        if point == 0 {
            proof {
                lemma_written_bad_byte(body, 0);
            }
            return None;
        }
        if i == n {
            proof {
                assert(body.take(point as int) =~= body);
                lemma_written_plain(body);
            }
            return Value::signed(negative, magnitude, 0);
        }
        if text[i] != POINT {
            proof {
                lemma_written_bad_byte(body, point as int);
            }
            return None;
        }
        i = i + 1;
        let mut places: u32 = 0;
        while i < n && ZERO <= text[i] && text[i] <= ZERO + 9
            invariant
                start < start + point < i <= n,
                n == text@.len(),
                body == text@.skip(start as int),
                body == unsigned(text@),
                all_digits(body.take(point as int)),
                body[point as int] == POINT,
                all_digits(body.subrange(point + 1, i - start)),
                magnitude == number(body.take(point as int) + body.subrange(point + 1, i - start)),
                magnitude <= MAX_MANTISSA,
                places == i - start - point - 1,
                places <= MAX_SCALE,
            decreases n - i,
        {
            let digit = (text[i] - ZERO) as u128;
            let next = magnitude * 10 + digit;
            proof {
                let so_far = body.take(point as int) + body.subrange(point + 1, i - start);
                assert(body.subrange(point + 1, i - start + 1) =~= body.subrange(
                    point + 1,
                    i - start,
                ).push(text@[i as int]));
                assert(body.take(point as int) + body.subrange(point + 1, i - start + 1)
                    =~= so_far.push(text@[i as int]));
                lemma_number_push(so_far, text@[i as int]);
            }
            if next > MAX_MANTISSA as u128 || places == MAX_SCALE {
                proof {
                    assert(next == number(
                        body.take(point as int) + body.subrange(point + 1, i - start + 1),
                    ));
                    if written(body) is Some {
                        lemma_written_follows(body, point as int, i - start + 1);
                    }
                    assert(spec_parse(text@) is None);
                }
                return None;
            }
            magnitude = next;
            places = places + 1;
            i = i + 1;
        }
        if i < n || places == 0 {
            proof {
                lemma_written_bad_tail(body, point as int, i - start);
            }
            return None;
        }
        proof {
            assert(body.subrange(point + 1, i - start) =~= body.skip(point + 1));
            lemma_written_point(body, point as int);
        }
        Value::signed(negative, magnitude, places)
    }

    /// The amount with the sign, the magnitude and the decimal places.
    fn signed(negative: bool, magnitude: u128, places: u32) -> (r: Option<Value>)
        requires
            magnitude <= MAX_MANTISSA,
            places <= MAX_SCALE,
        ensures
            r == amount(negative, magnitude as nat, places as nat),
    {
        if negative {
            Value::from_parts(-(magnitude as i128), places)
        } else {
            Value::from_parts(magnitude as i128, places)
        }
    }
}

/// One less, or nothing where there is nothing.
pub open spec fn less_one(width: nat) -> nat {
    if width > 0 {
        (width - 1) as nat
    } else {
        0
    }
}

/// The digits of `m`, most significant first, with zeros in front where
/// there would be fewer than `width`.
pub open spec fn render(m: nat, width: nat) -> Seq<u8>
    decreases m, width,
{
    if m < 10 && width <= 1 {
        seq![(48 + m) as u8]
    } else {
        render(m / 10, less_one(width)).push((48 + m % 10) as u8)
    }
}

/// The decimal literal of an amount: a `-` where it is below zero, its
/// digits, and a point before the last of them where it has decimal
/// places, as many as it has.
pub open spec fn spec_text(value: Value) -> Seq<u8> {
    let magnitude = if value.digits() < 0 {
        (-value.digits()) as nat
    } else {
        value.digits() as nat
    };
    let all = render(magnitude, value.places() + 1);
    let cut = all.len() - value.places();
    let body = if value.places() == 0 {
        all
    } else {
        all.take(cut) + seq![POINT] + all.skip(cut)
    };
    if value.digits() < 0 {
        seq![MINUS] + body
    } else {
        body
    }
}

/// What `render` gives: digits, at least one and at least `width`, that
/// write `m`.
pub proof fn lemma_render(m: nat, width: nat)
    ensures
        all_digits(render(m, width)),
        render(m, width).len() >= 1,
        render(m, width).len() >= width,
        number(render(m, width)) == m,
    decreases m, width,
{
    if m < 10 && width <= 1 {
        let s = render(m, width);
        assert(s.drop_last() =~= Seq::<u8>::empty());
        assert(number(s.drop_last()) == 0);
    } else {
        lemma_render(m / 10, less_one(width));
        lemma_number_push(render(m / 10, less_one(width)), (48 + m % 10) as u8);
    }
}

/// Reading what was written gives the amount back.
pub proof fn lemma_text_round_trip(value: Value)
    requires
        value.wf(),
    ensures
        spec_parse(spec_text(value)) == Some(value),
{
    let magnitude = if value.digits() < 0 {
        (-value.digits()) as nat
    } else {
        value.digits() as nat
    };
    let places = value.places();
    let all = render(magnitude, places + 1);
    lemma_render(magnitude, places + 1);
    let cut = all.len() - places;
    let body = if places == 0 {
        all
    } else {
        all.take(cut) + seq![POINT] + all.skip(cut)
    };
    let text = spec_text(value);
    assert(is_digit(all[0]));
    assert(body[0] == all[0]);
    assert(unsigned(text) =~= body);
    assert(negative(text) == (value.digits() < 0));
    if places == 0 {
        lemma_written_plain(body);
    } else {
        assert(body.take(cut) =~= all.take(cut));
        assert(body.skip(cut + 1) =~= all.skip(cut));
        assert(all.take(cut) + all.skip(cut) =~= all);
        assert(point_at(body, cut));
        lemma_written_point(body, cut);
    }
    Value::lemma_make(value.digits(), places);
    Value::make(value.digits(), places).lemma_same(value);
}

impl Value {
    /// Write the amount as a decimal literal in ASCII.
    pub fn to_text(&self) -> (r: Vec<u8>)
        ensures
            r@ == spec_text(*self),
    {
        let digits = self.mantissa();
        let places = self.scale();
        let magnitude: u128 = if digits < 0 {
            (-digits) as u128
        } else {
            digits as u128
        };
        // The digits, least significant first.
        let mut reversed: Vec<u8> = Vec::new();
        let mut m: u128 = magnitude;
        let mut width: u32 = places + 1;
        while !(m < 10 && width <= 1)
            invariant
                render(magnitude as nat, (places + 1) as nat) == render(m as nat, width as nat)
                    + reversed@.reverse(),
            decreases m, width,
        {
            let digit = ZERO + (m % 10) as u8;
            let ghost rest = render((m / 10) as nat, less_one(width as nat));
            proof {
                assert(reversed@.push(digit).reverse() =~= seq![digit] + reversed@.reverse());
                assert(render(m as nat, width as nat) == rest.push(digit));
                assert(rest.push(digit) + reversed@.reverse() =~= rest + (seq![digit]
                    + reversed@.reverse()));
            }
            reversed.push(digit);
            m = m / 10;
            if width > 0 {
                width = width - 1;
            }
        }
        let last = ZERO + m as u8;
        proof {
            assert(reversed@.push(last).reverse() =~= seq![last] + reversed@.reverse());
            assert(render(m as nat, width as nat) =~= seq![last]);
        }
        reversed.push(last);
        let ghost all = render(magnitude as nat, (places + 1) as nat);
        assert(all == reversed@.reverse());
        proof {
            lemma_render(magnitude as nat, (places + 1) as nat);
        }
        let len = reversed.len();
        let cut = len - places as usize;
        let mut out: Vec<u8> = Vec::new();
        if digits < 0 {
            out.push(MINUS);
        }
        let ghost sign = out@;
        let mut i: usize = 0;
        while i < len
            invariant
                i <= len,
                len == reversed@.len(),
                all == reversed@.reverse(),
                cut == len - places,
                1 <= cut <= len,
                out@ == sign + (if places == 0 || i <= cut {
                    all.take(i as int)
                } else {
                    all.take(cut as int) + seq![POINT] + all.subrange(cut as int, i as int)
                }),
            decreases len - i,
        {
            if places > 0 && i == cut {
                out.push(POINT);
            }
            out.push(reversed[len - 1 - i]);
            proof {
                assert(all[i as int] == reversed@[len - 1 - i]);
                if places == 0 || i + 1 <= cut {
                    assert(all.take(i + 1) =~= all.take(i as int).push(all[i as int]));
                } else if i == cut {
                    assert(all.subrange(cut as int, i + 1) =~= seq![all[i as int]]);
                    assert(all.subrange(cut as int, i as int) =~= Seq::<u8>::empty());
                } else {
                    assert(all.subrange(cut as int, i + 1) =~= all.subrange(
                        cut as int,
                        i as int,
                    ).push(all[i as int]));
                }
            }
            i = i + 1;
        }
        proof {
            assert(all.take(len as int) =~= all);
            assert(all.subrange(cut as int, len as int) =~= all.skip(cut as int));
        }
        out
    }
}

} // verus!
