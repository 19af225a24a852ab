//! Decimal numerals: the grammar of the numbers that a payload carries as
//! text, and their exact values.

use crate::text::{
    all_digits, digit_of, digit_value, digits_value, int_text, is_digit, lemma_nat_text_value,
    nat_text,
};
use vstd::prelude::*;

verus! {

/// Why a text was not read as a number.
#[derive(Clone, Copy, Debug, PartialEq, Eq, Structural)]
pub enum NumeralError {
    /// The text is not a numeral.
    Malformed,
    /// The text is a numeral, but its value cannot be held.
    OutOfRange,
}

/// Largest cap that [`run_value`] can be asked to respect.
pub const MAX_CAP: u128 = 1_000_000_000_000_000_000_000_000_000_000_000_000;

/// Ten to the power `n`.
pub open spec fn pow10(n: nat) -> nat
    decreases n,
{
    if n == 0 {
        1
    } else {
        10 * pow10((n - 1) as nat)
    }
}

/// Length of the optional leading sign, `+` or `-`.
pub open spec fn sign_len(s: Seq<char>) -> int {
    if s.len() > 0 && (s[0] == '-' || s[0] == '+') {
        1
    } else {
        0
    }
}

/// Whether a text begins with a minus sign.
pub open spec fn is_negative(s: Seq<char>) -> bool {
    s.len() > 0 && s[0] == '-'
}

/// `end` is where the run of digits that starts at `from` stops: everything
/// in between is a digit, and `end` is the end of the text or a non-digit.
pub open spec fn is_run_end(s: Seq<char>, from: int, end: int) -> bool {
    &&& from <= end <= s.len()
    &&& forall|k: int| from <= k < end ==> is_digit(#[trigger] s[k])
    &&& (end == s.len() || !is_digit(s[end]))
}

/// Where the run of digits that starts at `from` stops.
pub open spec fn run_end(s: Seq<char>, from: int) -> int {
    choose|end: int| is_run_end(s, from, end)
}

/// Every position has a run end: the run may be empty.
pub proof fn lemma_run_end_exists(s: Seq<char>, from: int)
    requires
        0 <= from <= s.len(),
    ensures
        is_run_end(s, from, run_end(s, from)),
    decreases s.len() - from,
{
    if from == s.len() || !is_digit(s[from]) {
        assert(is_run_end(s, from, from));
    } else {
        lemma_run_end_exists(s, from + 1);
        let e = run_end(s, from + 1);
        assert forall|k: int| from <= k < e implies is_digit(#[trigger] s[k]) by {
            if k > from {
                assert(is_digit(s[k]));
            }
        }
        assert(is_run_end(s, from, e));
    }
}

/// A run of digits has exactly one end.
pub proof fn lemma_run_end_unique(s: Seq<char>, from: int, end: int)
    requires
        is_run_end(s, from, end),
    ensures
        run_end(s, from) == end,
{
    let e = run_end(s, from);
    assert(is_run_end(s, from, e));
    if e < end {
        assert(is_digit(s[e]));
    } else if end < e {
        assert(is_digit(s[end]));
    }
}

/// A prefix of a digit run never denotes more than the whole run.
pub proof fn lemma_digits_monotone(s: Seq<char>, k: int)
    requires
        0 <= k <= s.len(),
    ensures
        digits_value(s.take(k)) <= digits_value(s),
    decreases s.len() - k,
{
    if k == s.len() {
        assert(s.take(k) =~= s);
    } else {
        lemma_digits_monotone(s.drop_last(), k);
        assert(s.drop_last().take(k) =~= s.take(k));
    }
}

/// A run of `n` digits denotes a number below `10^n`.
pub proof fn lemma_digits_bound(s: Seq<char>)
    requires
        all_digits(s),
    ensures
        digits_value(s) < pow10(s.len()),
    decreases s.len(),
{
    if s.len() > 0 {
        let front = s.drop_last();
        assert forall|i: int| 0 <= i < front.len() implies is_digit(#[trigger] front[i]) by {
            assert(front[i] == s[i]);
        }
        lemma_digits_bound(front);
        assert(is_digit(s[s.len() - 1]));
    }
}

/// Finds where the run of digits starting at `from` stops.
pub(crate) fn digit_run(chars: &Vec<char>, from: usize) -> (end: usize)
    requires
        from <= chars.len(),
    ensures
        is_run_end(chars@, from as int, end as int),
        end as int == run_end(chars@, from as int),
{
    let mut end: usize = from;
    while end < chars.len() && digit_of(chars[end]).is_some()
        invariant
            from <= end <= chars.len(),
            forall|k: int| from <= k < end ==> is_digit(#[trigger] chars@[k]),
        decreases chars.len() - end,
    {
        end += 1;
    }
    proof {
        lemma_run_end_unique(chars@, from as int, end as int);
    }
    end
}

/// The value of the digits in `from..end`, unless it exceeds `cap`.
pub(crate) fn run_value(chars: &Vec<char>, from: usize, end: usize, cap: u128) -> (r: Option<u128>)
    requires
        from <= end <= chars.len(),
        forall|k: int| from <= k < end ==> is_digit(#[trigger] chars@[k]),
        cap <= MAX_CAP,
    ensures
        r == if digits_value(chars@.subrange(from as int, end as int)) <= cap {
            Some(digits_value(chars@.subrange(from as int, end as int)) as u128)
        } else {
            None
        },
{
    let ghost run = chars@.subrange(from as int, end as int);
    let mut acc: u128 = 0;
    let mut i: usize = from;
    while i < end
        invariant
            from <= i <= end <= chars.len(),
            forall|k: int| from <= k < end ==> is_digit(#[trigger] chars@[k]),
            run == chars@.subrange(from as int, end as int),
            acc == digits_value(run.take(i - from)),
            acc <= cap <= MAX_CAP,
        decreases end - i,
    {
        let d: u8 = match digit_of(chars[i]) {
            Some(d) => d,
            None => 0,
        };
        let next: u128 = acc * 10 + d as u128;
        proof {
            let longer = run.take(i - from + 1);
            assert(longer.drop_last() =~= run.take(i - from));
            assert(longer.last() == chars@[i as int]);
            assert(next == digits_value(longer));
            lemma_digits_monotone(run, i - from + 1);
        }
        if next > cap {
            return None;
        }
        acc = next;
        i += 1;
    }
    assert(run.take(end - from) =~= run);
    Some(acc)
}

/// The integer that a numeral denotes: an optional sign, then one or more
/// digits and nothing else.
pub open spec fn integer_value(s: Seq<char>) -> Option<int> {
    let digits = s.skip(sign_len(s));
    if digits.len() > 0 && all_digits(digits) {
        Some(
            if is_negative(s) {
                -(digits_value(digits) as int)
            } else {
                digits_value(digits) as int
            },
        )
    } else {
        None
    }
}

/// The decimal text of an integer denotes that integer.
pub proof fn lemma_int_text_round_trip(n: int)
    ensures
        integer_value(int_text(n)) == Some(n),
{
    let t = int_text(n);
    if n < 0 {
        lemma_nat_text_value((-n) as nat);
        assert(t.skip(1) =~= nat_text((-n) as nat));
    } else {
        lemma_nat_text_value(n as nat);
        assert(is_digit(t[0]));
        assert(t.skip(0) =~= t);
    }
}

/// What reading a text as a signed 64-bit integer gives.
pub open spec fn i64_outcome(s: Seq<char>) -> Result<i64, NumeralError> {
    match integer_value(s) {
        None => Err(NumeralError::Malformed),
        Some(v) => if i64::MIN <= v <= i64::MAX {
            Ok(v as i64)
        } else {
            Err(NumeralError::OutOfRange)
        },
    }
}

/// Reads a signed 64-bit integer numeral.
pub fn parse_i64(chars: &Vec<char>) -> (r: Result<i64, NumeralError>)
    ensures
        r == i64_outcome(chars@),
{
    let n = chars.len();
    let negative = n > 0 && chars[0] == '-';
    let start: usize = if n > 0 && (chars[0] == '-' || chars[0] == '+') {
        1
    } else {
        0
    };
    let end = digit_run(chars, start);
    let ghost digits = chars@.skip(start as int);
    if end < n || end == start {
        proof {
            if end < n {
                assert(digits[end - start] == chars@[end as int]);
            }
        }
        return Err(NumeralError::Malformed);
    }
    proof {
        assert(digits =~= chars@.subrange(start as int, end as int));
        assert forall|i: int| 0 <= i < digits.len() implies is_digit(#[trigger] digits[i]) by {
            assert(digits[i] == chars@[start + i]);
        }
    }
    match run_value(chars, start, end, 9_223_372_036_854_775_808u128) {
        None => Err(NumeralError::OutOfRange),
        Some(v) => {
            if negative {
                if v == 9_223_372_036_854_775_808u128 {
                    Ok(i64::MIN)
                } else {
                    let m: i64 = v as i64;
                    Ok(-m)
                }
            } else if v == 9_223_372_036_854_775_808u128 {
                Err(NumeralError::OutOfRange)
            } else {
                Ok(v as i64)
            }
        },
    }
}

} // verus!
