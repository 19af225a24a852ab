use kline_ingest::decimal::{Decimal, LIMIT, UNITS_PER_ONE};
use kline_ingest::numeral::{parse_i64, NumeralError};
use kline_ingest::text::chars_of;

fn read(text: &str) -> Result<Decimal, NumeralError> {
    Decimal::parse(&chars_of(text))
}

#[test]
fn whole_numbers_are_read_exactly() {
    assert_eq!(read("0"), Ok(Decimal { units: 0 }));
    assert_eq!(read("350"), Ok(Decimal::whole(350)));
    assert_eq!(read("000350"), Ok(Decimal { units: 350 * UNITS_PER_ONE }));
    assert_eq!(read("+7"), Ok(Decimal::whole(7)));
    assert_eq!(read("-7"), Ok(Decimal::whole(-7)));
}

#[test]
fn fractions_are_read_exactly() {
    assert_eq!(read("0.1"), Ok(Decimal { units: 100_000_000_000_000_000 }));
    assert_eq!(read("45218.5"), Ok(Decimal { units: 45_218_500_000_000_000_000_000 }));
    assert_eq!(read("0.000000000000000001"), Ok(Decimal { units: 1 }));
    assert_eq!(read("-0.25"), Ok(Decimal { units: -250_000_000_000_000_000 }));
    assert_eq!(read("5."), Ok(Decimal::whole(5)));
    assert_eq!(read(".5"), Ok(Decimal { units: 500_000_000_000_000_000 }));
    assert_eq!(read("1.500"), read("1.5"));
}

#[test]
fn other_texts_are_malformed() {
    for text in ["", "+", "-", ".", "-.", "1e5", "1.2.3", "12a", " 1", "1 ", "nan", "inf", "--1", "1,5"] {
        assert_eq!(read(text), Err(NumeralError::Malformed), "{:?}", text);
    }
}

#[test]
fn numerals_that_cannot_be_held_are_out_of_range() {
    assert_eq!(read("0.0000000000000000001"), Err(NumeralError::OutOfRange));
    assert_eq!(read("1000000000000000001"), Err(NumeralError::OutOfRange));
    assert_eq!(read("99999999999999999999999999999999999999999999"), Err(NumeralError::OutOfRange));
    assert_eq!(
        read("1000000000000000000.999999999999999999"),
        Ok(Decimal { units: LIMIT - 1 })
    );
    assert_eq!(
        read("-1000000000000000000.999999999999999999"),
        Ok(Decimal { units: -(LIMIT - 1) })
    );
}

#[test]
fn differences_are_exact() {
    let a = read("0.3").unwrap();
    let b = read("0.1").unwrap();
    assert_eq!(a.minus(&b), Some(read("0.2").unwrap()));
    assert_eq!(b.minus(&a), Some(read("-0.2").unwrap()));
    assert!(b.minus(&a).unwrap().is_negative());
    assert!(!a.is_negative());
    assert_eq!(Decimal { units: i128::MIN }.minus(&Decimal { units: 1 }), None);
    assert_eq!(Decimal { units: i128::MAX }.minus(&Decimal { units: -1 }), None);
}

#[test]
fn integers_are_read_with_their_sign() {
    let read = |text: &str| parse_i64(&chars_of(text));
    assert_eq!(read("1704067200000"), Ok(1_704_067_200_000));
    assert_eq!(read("-42"), Ok(-42));
    assert_eq!(read("+42"), Ok(42));
    assert_eq!(read("9223372036854775807"), Ok(i64::MAX));
    assert_eq!(read("-9223372036854775808"), Ok(i64::MIN));
    assert_eq!(read("9223372036854775808"), Err(NumeralError::OutOfRange));
    assert_eq!(read("-9223372036854775809"), Err(NumeralError::OutOfRange));
    assert_eq!(read(""), Err(NumeralError::Malformed));
    assert_eq!(read("-"), Err(NumeralError::Malformed));
    assert_eq!(read("1.0"), Err(NumeralError::Malformed));
    assert_eq!(read("12x"), Err(NumeralError::Malformed));
}

#[test]
fn decimals_are_written_with_all_their_digits() {
    assert_eq!(Decimal::whole(0).to_text(), "0.000000000000000000");
    assert_eq!(Decimal::whole(105).to_text(), "105.000000000000000000");
    assert_eq!(Decimal { units: 1 }.to_text(), "0.000000000000000001");
    assert_eq!(Decimal { units: -250_000_000_000_000_000 }.to_text(), "-0.250000000000000000");
    assert_eq!(
        Decimal { units: i128::MIN }.to_text(),
        "-170141183460469231731.687303715884105728"
    );
    assert_eq!(
        Decimal { units: i128::MAX }.to_text(),
        "170141183460469231731.687303715884105727"
    );
}

#[test]
fn what_is_written_is_read_back() {
    for units in [0i128, 1, -1, 999_999_999_999_999_999, 1_000_000_000_000_000_000, -45_218_500_000_000_000_000_000, LIMIT - 1, -(LIMIT - 1)] {
        let d = Decimal { units };
        assert_eq!(read(&d.to_text()), Ok(d));
    }
    assert_eq!(read(&Decimal { units: LIMIT }.to_text()), Err(NumeralError::OutOfRange));
}
