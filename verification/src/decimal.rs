//! Exact fixed-point decimals: prices and volumes as whole multiples of
//! `10^-18`, so that sums and differences of what a payload states are exact.

use crate::numeral::{
    digit_run, is_negative, is_run_end, lemma_digits_bound, lemma_run_end_exists, pow10, run_end,
    run_value, sign_len, NumeralError,
};
use crate::text::{
    all_digits, digit_char, digits_value, is_digit, lemma_nat_text_value, nat_text, push_nat,
};
use vstd::prelude::*;

verus! {

/// Number of digits kept after the decimal point.
pub const FRACTION_DIGITS: usize = 18;

/// How many units make one: `10^18`.
pub const UNITS_PER_ONE: i128 = 1_000_000_000_000_000_000;

/// Largest integer part that a numeral may have.
pub const MAX_WHOLE: u128 = 1_000_000_000_000_000_000;

/// A decimal number, held as its count of `10^-18` units.
#[derive(Clone, Copy, Debug, PartialEq, Eq, Structural)]
pub struct Decimal {
    pub units: i128,
}

/// Every decimal that a numeral denotes lies strictly between `-LIMIT` and
/// `LIMIT` units.
pub const LIMIT: i128 = 1_000_000_000_000_000_001_000_000_000_000_000_000;

/// The pieces of a decimal numeral: its sign, the digits before the point and
/// the digits after it.
pub struct NumeralParts {
    pub negative: bool,
    pub whole: Seq<char>,
    pub fraction: Seq<char>,
}

/// Splits a decimal numeral into its parts. A numeral is an optional sign,
/// digits, and optionally a point followed by digits, with at least one digit
/// in all; `None` for any other text.
pub open spec fn decimal_parts(s: Seq<char>) -> Option<NumeralParts> {
    let start = sign_len(s);
    let point = run_end(s, start);
    let whole = s.subrange(start, point);
    if point == s.len() {
        if whole.len() > 0 {
            Some(NumeralParts { negative: is_negative(s), whole, fraction: Seq::empty() })
        } else {
            None
        }
    } else if s[point] == '.' {
        let end = run_end(s, point + 1);
        let fraction = s.subrange(point + 1, end);
        if end == s.len() && whole.len() + fraction.len() > 0 {
            Some(NumeralParts { negative: is_negative(s), whole, fraction })
        } else {
            None
        }
    } else {
        None
    }
}

/// The number of units that the parts denote, where it can be held exactly.
pub open spec fn parts_units(p: NumeralParts) -> Option<int> {
    if p.fraction.len() <= FRACTION_DIGITS && digits_value(p.whole) <= MAX_WHOLE {
        let magnitude = digits_value(p.whole) * UNITS_PER_ONE + digits_value(p.fraction) * pow10(
            (FRACTION_DIGITS - p.fraction.len()) as nat,
        );
        Some(
            if p.negative {
                -magnitude
            } else {
                magnitude
            },
        )
    } else {
        None
    }
}

/// What reading a text as a decimal gives: a numeral with more than 18
/// fraction digits, or with an integer part above `10^18`, is out of range.
pub open spec fn decimal_outcome(s: Seq<char>) -> Result<Decimal, NumeralError> {
    match decimal_parts(s) {
        None => Err(NumeralError::Malformed),
        Some(p) => match parts_units(p) {
            None => Err(NumeralError::OutOfRange),
            Some(units) => Ok(Decimal { units: units as i128 }),
        },
    }
}

/// The units of a numeral that can be held exactly.
pub open spec fn decimal_units(s: Seq<char>) -> Option<int> {
    match decimal_parts(s) {
        None => None,
        Some(p) => parts_units(p),
    }
}

/// The `width` lowest decimal digits of `n`, with leading zeros.
pub open spec fn padded(n: nat, width: nat) -> Seq<char>
    decreases width,
{
    if width == 0 {
        Seq::empty()
    } else {
        padded(n / 10, (width - 1) as nat).push(digit_char(n % 10))
    }
}

/// The text of a decimal: a minus sign for a negative number, the digits of
/// the whole part, a point, and all 18 fraction digits.
pub open spec fn decimal_text(units: int) -> Seq<char> {
    let magnitude = if units < 0 {
        -units
    } else {
        units
    };
    let sign = if units < 0 {
        seq!['-']
    } else {
        Seq::<char>::empty()
    };
    sign + nat_text((magnitude / (UNITS_PER_ONE as int)) as nat) + seq!['.'] + padded(
        (magnitude % (UNITS_PER_ONE as int)) as nat,
        FRACTION_DIGITS as nat,
    )
}

proof fn lemma_padded_value(n: nat, width: nat)
    requires
        n < pow10(width),
    ensures
        padded(n, width).len() == width,
        all_digits(padded(n, width)),
        digits_value(padded(n, width)) == n,
    decreases width,
{
    let t = padded(n, width);
    if width > 0 {
        lemma_padded_value(n / 10, (width - 1) as nat);
        assert(t.drop_last() =~= padded(n / 10, (width - 1) as nat));
        assert(t.last() == digit_char(n % 10));
        assert forall|i: int| 0 <= i < t.len() implies is_digit(#[trigger] t[i]) by {
            if i < t.len() - 1 {
                assert(t[i] == padded(n / 10, (width - 1) as nat)[i]);
            }
        }
    }
}

/// Reading the text of a decimal gives the decimal back, for every decimal
/// within the limit.
pub proof fn lemma_text_round_trip(d: Decimal)
    requires
        d.in_range(),
    ensures
        decimal_outcome(decimal_text(d.units as int)) == Ok::<Decimal, NumeralError>(d),
{
    let units = d.units as int;
    let magnitude = if units < 0 {
        -units
    } else {
        units
    };
    let whole = (magnitude / (UNITS_PER_ONE as int)) as nat;
    let part = (magnitude % (UNITS_PER_ONE as int)) as nat;
    let w = nat_text(whole);
    let f = padded(part, 18);
    let t = decimal_text(units);
    lemma_nat_text_value(whole);
    lemma_pow10_18();
    lemma_padded_value(part, 18);
    let start: int = if units < 0 {
        1
    } else {
        0
    };
    let point = start + w.len();
    assert(t.len() == start + w.len() + 1 + 18);
    assert forall|k: int| start <= k < point implies is_digit(#[trigger] t[k]) by {
        assert(t[k] == w[k - start]);
    }
    assert(t[point] == '.');
    assert(is_digit(t[start]));
    assert(sign_len(t) == start);
    assert(is_run_end(t, start, point));
    crate::numeral::lemma_run_end_unique(t, start, point);
    assert forall|k: int| point + 1 <= k < t.len() implies is_digit(#[trigger] t[k]) by {
        assert(t[k] == f[k - point - 1]);
    }
    assert(is_run_end(t, point + 1, t.len() as int));
    crate::numeral::lemma_run_end_unique(t, point + 1, t.len() as int);
    assert(t.subrange(start, point) =~= w);
    assert(t.subrange(point + 1, t.len() as int) =~= f);
    assert(is_negative(t) == (units < 0));
    let parts = NumeralParts { negative: units < 0, whole: w, fraction: f };
    assert(decimal_parts(t) == Some(parts));
    assert(pow10(0) == 1);
    assert(part * pow10(0) == part) by (nonlinear_arith)
        requires
            pow10(0) == 1,
    ;
    assert(whole * 1_000_000_000_000_000_000 + part == magnitude);
    assert(whole <= MAX_WHOLE);
    assert(parts_units(parts) == Some(units));
}

proof fn lemma_pow10_monotone(a: nat, b: nat)
    requires
        a <= b,
    ensures
        pow10(a) <= pow10(b),
        pow10(a) >= 1,
    decreases b,
{
    if a < b {
        lemma_pow10_monotone(a, (b - 1) as nat);
    } else if a > 0 {
        lemma_pow10_monotone((a - 1) as nat, (b - 1) as nat);
    }
}

proof fn lemma_pow10_18()
    ensures
        pow10(18) == 1_000_000_000_000_000_000,
{
    reveal_with_fuel(pow10, 19);
}

/// Every decimal read from a text lies within the limit, and holds exactly
/// the units that the numeral denotes.
pub proof fn lemma_outcome_in_range(s: Seq<char>)
    ensures
        decimal_outcome(s) matches Ok(d) ==> d.in_range() && decimal_units(s) == Some(
            d.units as int,
        ),
{
    if decimal_outcome(s) is Ok {
        let p = decimal_parts(s)->0;
        let start = sign_len(s);
        lemma_run_end_exists(s, start);
        let point = run_end(s, start);
        if point < s.len() {
            lemma_run_end_exists(s, point + 1);
            let end = run_end(s, point + 1);
            assert(is_run_end(s, point + 1, end));
            assert forall|i: int| 0 <= i < p.fraction.len() implies is_digit(
                #[trigger] p.fraction[i],
            ) by {
                assert(p.fraction[i] == s[point + 1 + i]);
            }
        }
        let k = (FRACTION_DIGITS - p.fraction.len()) as nat;
        lemma_digits_bound(p.fraction);
        lemma_scaled_fraction(digits_value(p.fraction), p.fraction.len(), k);
        lemma_pow10_18();
        assert(digits_value(p.whole) * 1_000_000_000_000_000_000 <= 1_000_000_000_000_000_000
            * 1_000_000_000_000_000_000) by (nonlinear_arith)
            requires
                digits_value(p.whole) <= 1_000_000_000_000_000_000,
        ;
    }
}

proof fn lemma_pow10_add(a: nat, b: nat)
    ensures
        pow10(a + b) == pow10(a) * pow10(b),
    decreases a,
{
    if a > 0 {
        lemma_pow10_add((a - 1) as nat, b);
        assert(pow10(a + b) == 10 * pow10((a + b - 1) as nat));
        assert(10 * (pow10((a - 1) as nat) * pow10(b)) == (10 * pow10((a - 1) as nat)) * pow10(b))
            by (nonlinear_arith);
    } else {
        assert(pow10(0) == 1);
        assert(1 * pow10(b) == pow10(b)) by (nonlinear_arith);
    }
}

proof fn lemma_scaled_fraction(v: nat, len: nat, k: nat)
    requires
        v < pow10(len),
    ensures
        v * pow10(k) < pow10(len + k),
{
    lemma_pow10_add(len, k);
    lemma_pow10_monotone(0, k);
    assert(v * pow10(k) < pow10(len) * pow10(k)) by (nonlinear_arith)
        requires
            v < pow10(len),
            pow10(k) >= 1,
    ;
}

/// Multiplies the value of a fraction of `len` digits by `10^(18 - len)`.
fn scale_fraction(value: u128, len: usize) -> (r: u128)
    requires
        len <= FRACTION_DIGITS,
        value < pow10(len as nat),
    ensures
        r == value * pow10((FRACTION_DIGITS - len) as nat),
        r < 1_000_000_000_000_000_000,
{
    let mut acc: u128 = value;
    let mut j: usize = len;
    proof {
        assert(pow10(0) == 1);
        assert(value * 1 == value) by (nonlinear_arith);
        lemma_pow10_monotone(len as nat, 18);
        lemma_pow10_18();
    }
    while j < FRACTION_DIGITS
        invariant
            len <= j <= FRACTION_DIGITS,
            acc == value * pow10((j - len) as nat),
            acc < pow10(j as nat),
            value < pow10(len as nat),
        decreases FRACTION_DIGITS - j,
    {
        proof {
            lemma_pow10_monotone(j as nat, 17);
            reveal_with_fuel(pow10, 18);
            assert(pow10(17) == 100_000_000_000_000_000);
            let k = (j - len) as nat;
            assert(pow10(k + 1) == 10 * pow10(k));
            assert(value * (10 * pow10(k)) == (value * pow10(k)) * 10) by (nonlinear_arith);
        }
        acc = acc * 10;
        j += 1;
    }
    proof {
        lemma_pow10_18();
    }
    acc
}

/// Appends the `width` lowest decimal digits of `n`, with leading zeros.
fn push_padded(out: &mut String, n: u128, width: usize)
    ensures
        final(out)@ == old(out)@ + padded(n as nat, width as nat),
    decreases width,
{
    if width > 0 {
        push_padded(out, n / 10, width - 1);
        let d: u8 = (n % 10) as u8;
        let c: char = (d + 48) as char;
        out.push(c);
        assert((old(out)@ + padded((n / 10) as nat, (width - 1) as nat)).push(c) =~= old(out)@
            + padded(n as nat, width as nat));
    } else {
        assert(old(out)@ + padded(n as nat, 0) =~= old(out)@);
    }
}

impl Decimal {
    /// Whether the decimal lies within the limit that numerals keep to.
    pub open spec fn in_range(self) -> bool {
        -LIMIT < self.units < LIMIT
    }

    /// A whole number as a decimal.
    pub fn whole(n: i64) -> (r: Decimal)
        ensures
            r.units == n * UNITS_PER_ONE,
    {
        let wide: i128 = n as i128;
        Decimal { units: wide * UNITS_PER_ONE }
    }

    /// Whether the decimal is below zero.
    pub fn is_negative(&self) -> (r: bool)
        ensures
            r == (self.units < 0),
    {
        self.units < 0
    }

    /// Writes the decimal as text.
    pub fn to_text(&self) -> (r: String)
        ensures
            r@ == decimal_text(self.units as int),
    {
        let mut out = String::new();
        let magnitude: u128 = if self.units < 0 {
            out.push('-');
            ((-(self.units + 1)) as u128) + 1
        } else {
            self.units as u128
        };
        push_nat(&mut out, magnitude / 1_000_000_000_000_000_000u128);
        out.push('.');
        push_padded(&mut out, magnitude % 1_000_000_000_000_000_000u128, FRACTION_DIGITS);
        assert(out@ =~= decimal_text(self.units as int));
        out
    }

    /// `self - other`, exactly; `None` where the difference cannot be held.
    pub fn minus(&self, other: &Decimal) -> (r: Option<Decimal>)
        ensures
            r == if i128::MIN <= self.units - other.units <= i128::MAX {
                Some(Decimal { units: (self.units - other.units) as i128 })
            } else {
                None
            },
    {
        match self.units.checked_sub(other.units) {
            Some(units) => Some(Decimal { units }),
            None => None,
        }
    }

    /// Reads a decimal numeral: an optional sign, digits, and optionally a
    /// point followed by digits, with at least one digit in all.
    pub fn parse(chars: &Vec<char>) -> (r: Result<Decimal, NumeralError>)
        ensures
            r == decimal_outcome(chars@),
            r matches Ok(d) ==> d.in_range(),
    {
        let n = chars.len();
        let negative = n > 0 && chars[0] == '-';
        let start: usize = if n > 0 && (chars[0] == '-' || chars[0] == '+') {
            1
        } else {
            0
        };
        let point = digit_run(chars, start);
        let mut end: usize = point;
        let mut frac_from: usize = point;
        if point < n {
            if chars[point] != '.' {
                return Err(NumeralError::Malformed);
            }
            frac_from = point + 1;
            end = digit_run(chars, frac_from);
            if end < n {
                return Err(NumeralError::Malformed);
            }
        }
        if (point - start) + (end - frac_from) == 0 {
            return Err(NumeralError::Malformed);
        }
        let ghost parts = decimal_parts(chars@)->0;
        proof {
            if point == n {
                assert(chars@.subrange(frac_from as int, end as int) =~= Seq::<char>::empty());
            }
            assert(parts.whole == chars@.subrange(start as int, point as int));
            assert(parts.fraction == chars@.subrange(frac_from as int, end as int));
            assert(parts.negative == negative);
        }
        let frac_len: usize = end - frac_from;
        if frac_len > FRACTION_DIGITS {
            return Err(NumeralError::OutOfRange);
        }
        let whole: u128 = match run_value(chars, start, point, MAX_WHOLE) {
            Some(v) => v,
            None => {
                return Err(NumeralError::OutOfRange);
            },
        };
        proof {
            assert forall|i: int| 0 <= i < parts.fraction.len() implies is_digit(
                #[trigger] parts.fraction[i],
            ) by {
                assert(parts.fraction[i] == chars@[frac_from + i]);
            }
            lemma_digits_bound(parts.fraction);
            lemma_pow10_monotone(frac_len as nat, 18);
            lemma_pow10_18();
        }
        let fraction: u128 = match run_value(
            chars,
            frac_from,
            end,
            999_999_999_999_999_999u128,
        ) {
            Some(v) => v,
            None => 0,
        };
        let scaled = scale_fraction(fraction, frac_len);
        assert(whole * 1_000_000_000_000_000_000 <= 1_000_000_000_000_000_000
            * 1_000_000_000_000_000_000) by (nonlinear_arith)
            requires
                whole <= 1_000_000_000_000_000_000,
        ;
        let magnitude: u128 = whole * 1_000_000_000_000_000_000u128 + scaled;
        let units: i128 = if negative {
            -(magnitude as i128)
        } else {
            magnitude as i128
        };
        Ok(Decimal { units })
    }
}

} // verus!
