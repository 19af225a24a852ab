use kline_ingest::decimal::Decimal;
use kline_ingest::parser::{
    content_chars, parse_row, KlineParser, ParseError, PoloniexKlineParser, VBS,
};

fn row(fields: &[&str]) -> Vec<String> {
    fields.iter().map(|f| f.to_string()).collect()
}

fn sample() -> Vec<String> {
    row(&[
        "\"100\"", "\"110\"", "\"105\"", "\"108\"", "\"1000\"", "\"900\"", "\"400\"", "\"350\"",
        "0", "0", "\"\"", "\"1h\"", "1704067200000", "1704070799999",
    ])
}

fn with_field(at: usize, token: &str) -> Vec<String> {
    let mut r = sample();
    r[at] = token.to_string();
    r
}

#[test]
fn a_row_becomes_a_canonical_record() {
    let klines = PoloniexKlineParser.parse("BTC_USDT", "HOUR_1", vec![sample()]).unwrap();
    assert_eq!(klines.len(), 1);
    let k = &klines[0];
    assert_eq!(k.pair, "BTC_USDT");
    assert_eq!(k.time_frame, "1h");
    assert_eq!(k.o, Decimal::whole(105));
    assert_eq!(k.h, Decimal::whole(110));
    assert_eq!(k.l, Decimal::whole(100));
    assert_eq!(k.c, Decimal::whole(108));
    assert_eq!(k.utc_begin, 1_704_067_200_000);
    assert_eq!(
        k.volume_bs,
        VBS {
            buy_base: Decimal::whole(350),
            sell_base: Decimal::whole(550),
            buy_quote: Decimal::whole(400),
            sell_quote: Decimal::whole(600),
        }
    );
}

#[test]
fn the_label_comes_from_the_request_not_the_payload() {
    let klines = PoloniexKlineParser.parse("p", "DAY_1", vec![sample()]).unwrap();
    assert_eq!(klines[0].time_frame, "1d");
    let klines = PoloniexKlineParser.parse("p", "MINUTE_5", vec![sample()]).unwrap();
    assert_eq!(klines[0].time_frame, "5m");
}

#[test]
fn numbers_may_come_bare_or_quoted() {
    let bare = row(&[
        "100", "110", "105", "108", "1000", "900", "400", "350", "0", "0", "\"\"", "\"1h\"",
        "\"1704067200000\"", "1704070799999",
    ]);
    let a = PoloniexKlineParser.parse("p", "HOUR_1", vec![bare]).unwrap();
    let b = PoloniexKlineParser.parse("p", "HOUR_1", vec![sample()]).unwrap();
    assert_eq!(a[0].o, b[0].o);
    assert_eq!(a[0].volume_bs, b[0].volume_bs);
    assert_eq!(a[0].utc_begin, b[0].utc_begin);
}

#[test]
fn sell_and_buy_add_up_to_the_total() {
    let r = with_field(5, "\"0.3\"");
    let r = {
        let mut r = r;
        r[7] = "\"0.1\"".to_string();
        r
    };
    let k = parse_row("p", "1h", &r, 0).unwrap();
    assert_eq!(k.volume_bs.sell_base, Decimal { units: 200_000_000_000_000_000 });
    assert_eq!(
        k.volume_bs.sell_base.units + k.volume_bs.buy_base.units,
        300_000_000_000_000_000
    );
    assert_eq!(k.volume_bs.sell_quote.units + k.volume_bs.buy_quote.units, Decimal::whole(1000).units);
}

#[test]
fn a_buy_volume_above_the_total_is_rejected() {
    let r = with_field(7, "\"901\"");
    assert_eq!(
        PoloniexKlineParser.parse("p", "HOUR_1", vec![sample(), r]).unwrap_err(),
        ParseError::NegativeVolume { row: 1 }
    );
    let r = with_field(6, "\"1000.000000000000000001\"");
    assert_eq!(parse_row("p", "1h", &r, 4).unwrap_err(), ParseError::NegativeVolume { row: 4 });
}

#[test]
fn a_negative_buy_volume_is_rejected() {
    let r = with_field(7, "\"-1\"");
    assert_eq!(parse_row("p", "1h", &r, 0).unwrap_err(), ParseError::NegativeVolume { row: 0 });
    let r = with_field(6, "-0.5");
    assert_eq!(parse_row("p", "1h", &r, 0).unwrap_err(), ParseError::NegativeVolume { row: 0 });
}

#[test]
fn a_buy_volume_equal_to_the_total_leaves_nothing_sold() {
    let r = with_field(7, "\"900\"");
    let k = parse_row("p", "1h", &r, 0).unwrap();
    assert_eq!(k.volume_bs.sell_base, Decimal { units: 0 });
}

#[test]
fn a_row_of_the_wrong_length_is_rejected() {
    let mut short = sample();
    short.pop();
    assert_eq!(
        PoloniexKlineParser.parse("p", "HOUR_1", vec![short]).unwrap_err(),
        ParseError::FieldCount { row: 0, found: 13 }
    );
    let mut long = sample();
    long.push("0".to_string());
    assert_eq!(
        PoloniexKlineParser.parse("p", "HOUR_1", vec![sample(), sample(), long]).unwrap_err(),
        ParseError::FieldCount { row: 2, found: 15 }
    );
    assert_eq!(
        PoloniexKlineParser.parse("p", "HOUR_1", vec![vec![]]).unwrap_err(),
        ParseError::FieldCount { row: 0, found: 0 }
    );
}

#[test]
fn a_field_that_is_not_a_number_is_rejected() {
    for field in [0usize, 1, 2, 3, 4, 5, 6, 7, 12] {
        let r = with_field(field, "\"abc\"");
        assert_eq!(
            parse_row("p", "1h", &r, 3).unwrap_err(),
            ParseError::NotNumeric { row: 3, field }
        );
    }
    let r = with_field(12, "\"1704067200000.5\"");
    assert_eq!(parse_row("p", "1h", &r, 0).unwrap_err(), ParseError::NotNumeric { row: 0, field: 12 });
    let r = with_field(0, "null");
    assert_eq!(parse_row("p", "1h", &r, 0).unwrap_err(), ParseError::NotNumeric { row: 0, field: 0 });
}

#[test]
fn fields_that_are_not_read_may_hold_anything() {
    let mut r = sample();
    for at in [8usize, 9, 10, 11, 13] {
        r[at] = "{\"x\":[1,null]}".to_string();
    }
    assert!(parse_row("p", "1h", &r, 0).is_ok());
}

#[test]
fn a_number_that_cannot_be_held_is_out_of_range() {
    let r = with_field(2, "\"0.1234567890123456789\"");
    assert_eq!(parse_row("p", "1h", &r, 0).unwrap_err(), ParseError::OutOfRange { row: 0, field: 2 });
    let r = with_field(12, "9223372036854775808");
    assert_eq!(parse_row("p", "1h", &r, 0).unwrap_err(), ParseError::OutOfRange { row: 0, field: 12 });
}

#[test]
fn the_first_bad_field_in_reading_order_is_reported() {
    let mut r = sample();
    r[0] = "x".to_string();
    r[12] = "x".to_string();
    r[4] = "x".to_string();
    assert_eq!(parse_row("p", "1h", &r, 0).unwrap_err(), ParseError::NotNumeric { row: 0, field: 4 });
    r[5] = "x".to_string();
    assert_eq!(parse_row("p", "1h", &r, 0).unwrap_err(), ParseError::NotNumeric { row: 0, field: 5 });
}

#[test]
fn an_unknown_interval_is_rejected() {
    assert_eq!(
        PoloniexKlineParser.parse("p", "WEEK_1", vec![sample()]).unwrap_err(),
        ParseError::UnknownInterval
    );
    assert_eq!(
        PoloniexKlineParser.parse("p", "1h", vec![]).unwrap_err(),
        ParseError::UnknownInterval
    );
}

#[test]
fn an_empty_payload_has_no_records() {
    assert!(PoloniexKlineParser.parse("p", "HOUR_1", vec![]).unwrap().is_empty());
}

#[test]
fn records_keep_the_order_of_their_rows() {
    let rows: Vec<Vec<String>> =
        (0..5).map(|i| with_field(12, &format!("{}", 1000 + i))).collect();
    let klines = PoloniexKlineParser.parse("p", "HOUR_1", rows).unwrap();
    let starts: Vec<i64> = klines.iter().map(|k| k.utc_begin).collect();
    assert_eq!(starts, vec![1000, 1001, 1002, 1003, 1004]);
}

#[test]
fn quotes_are_taken_off_once() {
    let text = |t: &str| content_chars(t).into_iter().collect::<String>();
    assert_eq!(text("\"100\""), "100");
    assert_eq!(text("100"), "100");
    assert_eq!(text("\"\""), "");
    assert_eq!(text("\""), "\"");
    assert_eq!(text("\"\"1\"\""), "\"1\"");
    assert_eq!(text("\"1"), "\"1");
}
