//! Payload parsing: one exchange payload, a list of rows of positional
//! fields, into canonical kline records.

use crate::decimal::{decimal_outcome, lemma_outcome_in_range, Decimal};
use crate::interval::Interval;
use crate::numeral::{i64_outcome, parse_i64, NumeralError};
use crate::text::chars_of;
use vstd::prelude::*;

verus! {

/// Number of fields in one row of a payload.
pub const FIELD_COUNT: usize = 14;

/// Position of the lowest price in a row.
pub const LOW: usize = 0;

/// Position of the highest price.
pub const HIGH: usize = 1;

/// Position of the opening price.
pub const OPEN: usize = 2;

/// Position of the closing price.
pub const CLOSE: usize = 3;

/// Position of the total volume in quote currency.
pub const QUOTE_TOTAL: usize = 4;

/// Position of the total volume in base currency.
pub const BASE_TOTAL: usize = 5;

/// Position of the buy-taker volume in quote currency.
pub const QUOTE_BUY: usize = 6;

/// Position of the buy-taker volume in base currency.
pub const BASE_BUY: usize = 7;

/// Position of the candle's start time, in Unix milliseconds.
pub const START_TIME: usize = 12;

/// Traded volume of one candle, split by taker side, in base and in quote
/// currency.
#[derive(Clone, Copy, Debug, PartialEq, Eq, Structural)]
pub struct VBS {
    pub buy_base: Decimal,
    pub sell_base: Decimal,
    pub buy_quote: Decimal,
    pub sell_quote: Decimal,
}

/// The canonical record of one candle.
#[derive(Clone, Debug)]
pub struct Kline {
    pub pair: String,
    pub time_frame: String,
    pub o: Decimal,
    pub h: Decimal,
    pub l: Decimal,
    pub c: Decimal,
    pub utc_begin: i64,
    pub volume_bs: VBS,
}

/// A record with its texts as character sequences.
pub struct KlineView {
    pub pair: Seq<char>,
    pub time_frame: Seq<char>,
    pub o: Decimal,
    pub h: Decimal,
    pub l: Decimal,
    pub c: Decimal,
    pub utc_begin: i64,
    pub volume_bs: VBS,
}

impl View for Kline {
    type V = KlineView;

    open spec fn view(&self) -> KlineView {
        KlineView {
            pair: self.pair@,
            time_frame: self.time_frame@,
            o: self.o,
            h: self.h,
            l: self.l,
            c: self.c,
            utc_begin: self.utc_begin,
            volume_bs: self.volume_bs,
        }
    }
}

/// Why a payload was rejected. `row` counts rows from zero, `field` is the
/// position within the row.
#[derive(Clone, Copy, Debug, PartialEq, Eq, Structural)]
pub enum ParseError {
    /// The requested interval is not one of the known set.
    UnknownInterval,
    /// A row does not have exactly [`FIELD_COUNT`] fields.
    FieldCount { row: usize, found: usize },
    /// A field that must be a number is not a numeral.
    NotNumeric { row: usize, field: usize },
    /// A numeral whose value cannot be held exactly.
    OutOfRange { row: usize, field: usize },
    /// A buy volume is negative or exceeds the total, so that a volume of
    /// the record would be negative.
    NegativeVolume { row: usize },
}

/// A row as plain text: its fields as character sequences.
pub open spec fn row_text(row: Seq<String>) -> Seq<Seq<char>> {
    Seq::new(row.len(), |j: int| row[j]@)
}

/// A payload as plain text: rows of fields of characters.
pub open spec fn rows_text(rows: Seq<Vec<String>>) -> Seq<Seq<Seq<char>>> {
    Seq::new(rows.len(), |i: int| row_text(rows[i]@))
}

/// A list of records with their texts as character sequences.
pub open spec fn klines_view(klines: Seq<Kline>) -> Seq<KlineView> {
    Seq::new(klines.len(), |i: int| klines[i]@)
}

/// The outcome of reading one row, with the record as its view.
pub open spec fn row_result_view(r: Result<Kline, ParseError>) -> Result<KlineView, ParseError> {
    match r {
        Ok(k) => Ok(k@),
        Err(e) => Err(e),
    }
}

/// The outcome of parsing a payload, with the records as their views.
pub open spec fn parse_result_view(r: Result<Vec<Kline>, ParseError>) -> Result<
    Seq<KlineView>,
    ParseError,
> {
    match r {
        Ok(klines) => Ok(klines_view(klines@)),
        Err(e) => Err(e),
    }
}

/// Whether a field is written between double quotes.
pub open spec fn is_quoted(token: Seq<char>) -> bool {
    token.len() >= 2 && token[0] == '"' && token.last() == '"'
}

/// What a field says: a field written between double quotes stands for the
/// text between them, any other field for itself. A number may thus come
/// bare or as a quoted string.
pub open spec fn token_content(token: Seq<char>) -> Seq<char> {
    if is_quoted(token) {
        token.subrange(1, token.len() - 1)
    } else {
        token
    }
}

/// The decimal in position `field` of a row.
pub open spec fn decimal_field(row: Seq<Seq<char>>, index: usize, field: usize) -> Result<
    Decimal,
    ParseError,
> {
    match decimal_outcome(token_content(row[field as int])) {
        Ok(d) => Ok(d),
        Err(NumeralError::Malformed) => Err(ParseError::NotNumeric { row: index, field }),
        Err(NumeralError::OutOfRange) => Err(ParseError::OutOfRange { row: index, field }),
    }
}

/// The candle's start time, in position [`START_TIME`] of a row.
pub open spec fn time_field(row: Seq<Seq<char>>, index: usize) -> Result<i64, ParseError> {
    match i64_outcome(token_content(row[START_TIME as int])) {
        Ok(t) => Ok(t),
        Err(NumeralError::Malformed) => Err(
            ParseError::NotNumeric { row: index, field: START_TIME },
        ),
        Err(NumeralError::OutOfRange) => Err(
            ParseError::OutOfRange { row: index, field: START_TIME },
        ),
    }
}

/// The record that row number `index` stands for, or why it is rejected.
///
/// The fields are read in a fixed order (base total, quote total, base buy,
/// quote buy, start time, low, high, open, close) and the first one that
/// fails gives the error. The sell volumes are the totals less the buy
/// volumes; a row in which any of the four volumes would be negative is
/// rejected.
pub open spec fn row_outcome(
    pair: Seq<char>,
    label: Seq<char>,
    row: Seq<Seq<char>>,
    index: usize,
) -> Result<KlineView, ParseError> {
    let base_total = decimal_field(row, index, BASE_TOTAL);
    let quote_total = decimal_field(row, index, QUOTE_TOTAL);
    let base_buy = decimal_field(row, index, BASE_BUY);
    let quote_buy = decimal_field(row, index, QUOTE_BUY);
    let start = time_field(row, index);
    let low = decimal_field(row, index, LOW);
    let high = decimal_field(row, index, HIGH);
    let open = decimal_field(row, index, OPEN);
    let close = decimal_field(row, index, CLOSE);
    if row.len() != FIELD_COUNT {
        Err(ParseError::FieldCount { row: index, found: row.len() as usize })
    } else if base_total is Err {
        Err(base_total->Err_0)
    } else if quote_total is Err {
        Err(quote_total->Err_0)
    } else if base_buy is Err {
        Err(base_buy->Err_0)
    } else if quote_buy is Err {
        Err(quote_buy->Err_0)
    } else if start is Err {
        Err(start->Err_0)
    } else if low is Err {
        Err(low->Err_0)
    } else if high is Err {
        Err(high->Err_0)
    } else if open is Err {
        Err(open->Err_0)
    } else if close is Err {
        Err(close->Err_0)
    } else {
        let sell_base = base_total->Ok_0.units - base_buy->Ok_0.units;
        let sell_quote = quote_total->Ok_0.units - quote_buy->Ok_0.units;
        if base_buy->Ok_0.units < 0 || quote_buy->Ok_0.units < 0 || sell_base < 0 || sell_quote
            < 0 {
            Err(ParseError::NegativeVolume { row: index })
        } else {
            Ok(
                KlineView {
                    pair,
                    time_frame: label,
                    o: open->Ok_0,
                    h: high->Ok_0,
                    l: low->Ok_0,
                    c: close->Ok_0,
                    utc_begin: start->Ok_0,
                    volume_bs: VBS {
                        buy_base: base_buy->Ok_0,
                        sell_base: Decimal { units: sell_base as i128 },
                        buy_quote: quote_buy->Ok_0,
                        sell_quote: Decimal { units: sell_quote as i128 },
                    },
                },
            )
        }
    }
}

/// The records of a list of rows, in order; the error of the first rejected
/// row where there is one.
pub open spec fn rows_outcome(pair: Seq<char>, label: Seq<char>, rows: Seq<Seq<Seq<char>>>) -> Result<
    Seq<KlineView>,
    ParseError,
>
    decreases rows.len(),
{
    if rows.len() == 0 {
        Ok(Seq::empty())
    } else {
        match rows_outcome(pair, label, rows.drop_last()) {
            Err(e) => Err(e),
            Ok(front) => match row_outcome(pair, label, rows.last(), (rows.len() - 1) as usize) {
                Err(e) => Err(e),
                Ok(k) => Ok(front.push(k)),
            },
        }
    }
}

/// What parsing a payload gives: the label comes from the requested interval
/// alone, never from the payload.
pub open spec fn payload_outcome(
    pair: Seq<char>,
    interval: Seq<char>,
    rows: Seq<Seq<Seq<char>>>,
) -> Result<Seq<KlineView>, ParseError> {
    match Interval::named(interval) {
        None => Err(ParseError::UnknownInterval),
        Some(known) => rows_outcome(pair, known.label(), rows),
    }
}

/// A failure among the first rows of a payload is the failure of the whole.
pub proof fn lemma_failure_persists(
    pair: Seq<char>,
    label: Seq<char>,
    rows: Seq<Seq<Seq<char>>>,
    k: int,
)
    requires
        0 <= k <= rows.len(),
        rows_outcome(pair, label, rows.take(k)) is Err,
    ensures
        rows_outcome(pair, label, rows) == rows_outcome(pair, label, rows.take(k)),
    decreases rows.len() - k,
{
    if k == rows.len() {
        assert(rows.take(k) =~= rows);
    } else {
        assert(rows.drop_last().take(k) =~= rows.take(k));
        lemma_failure_persists(pair, label, rows.drop_last(), k);
    }
}

/// The volumes of `k` split the totals that `row` states: in base and in
/// quote currency the sell and the buy volume add up to the total, exactly,
/// and none of the four volumes is negative.
pub open spec fn splits_totals(k: KlineView, row: Seq<Seq<char>>) -> bool {
    &&& decimal_outcome(token_content(row[BASE_TOTAL as int])) matches Ok(base_total)
    &&& decimal_outcome(token_content(row[QUOTE_TOTAL as int])) matches Ok(quote_total)
    &&& k.volume_bs.sell_base.units + k.volume_bs.buy_base.units == base_total.units
    &&& k.volume_bs.sell_quote.units + k.volume_bs.buy_quote.units == quote_total.units
    &&& k.volume_bs.buy_base.units >= 0
    &&& k.volume_bs.sell_base.units >= 0
    &&& k.volume_bs.buy_quote.units >= 0
    &&& k.volume_bs.sell_quote.units >= 0
}

/// Every record that a row gives splits the totals of that row; a row for
/// which no such record exists gives none.
pub proof fn lemma_volume_split(
    pair: Seq<char>,
    label: Seq<char>,
    row: Seq<Seq<char>>,
    index: usize,
)
    ensures
        row_outcome(pair, label, row, index) matches Ok(k) ==> splits_totals(k, row),
{
    lemma_outcome_in_range(token_content(row[BASE_TOTAL as int]));
    lemma_outcome_in_range(token_content(row[QUOTE_TOTAL as int]));
    lemma_outcome_in_range(token_content(row[BASE_BUY as int]));
    lemma_outcome_in_range(token_content(row[QUOTE_BUY as int]));
}

/// The records of an accepted list of rows are the records of its rows, one
/// for one and in order.
pub proof fn lemma_records_match_rows(pair: Seq<char>, label: Seq<char>, rows: Seq<Seq<Seq<char>>>)
    ensures
        rows_outcome(pair, label, rows) matches Ok(records) ==> records.len() == rows.len()
            && forall|i: int|
            0 <= i < rows.len() ==> row_outcome(pair, label, #[trigger] rows[i], i as usize) == Ok::<
                KlineView,
                ParseError,
            >(records[i]),
    decreases rows.len(),
{
    if rows.len() > 0 {
        lemma_records_match_rows(pair, label, rows.drop_last());
        if rows_outcome(pair, label, rows) is Ok {
            let records = rows_outcome(pair, label, rows)->Ok_0;
            let front = rows_outcome(pair, label, rows.drop_last())->Ok_0;
            assert forall|i: int| 0 <= i < rows.len() implies row_outcome(
                pair,
                label,
                #[trigger] rows[i],
                i as usize,
            ) == Ok::<KlineView, ParseError>(records[i]) by {
                if i < rows.len() - 1 {
                    assert(rows.drop_last()[i] == rows[i]);
                    assert(records[i] == front[i]);
                }
            }
        }
    }
}

/// Every record of an accepted payload splits the totals of its row.
pub proof fn lemma_payload_volumes_split(
    pair: Seq<char>,
    interval: Seq<char>,
    rows: Seq<Seq<Seq<char>>>,
)
    ensures
        payload_outcome(pair, interval, rows) matches Ok(records) ==> records.len() == rows.len()
            && forall|i: int|
            0 <= i < rows.len() ==> splits_totals(#[trigger] records[i], rows[i]),
{
    if payload_outcome(pair, interval, rows) is Ok {
        let label = Interval::named(interval)->0.label();
        let records = payload_outcome(pair, interval, rows)->Ok_0;
        lemma_records_match_rows(pair, label, rows);
        assert forall|i: int| 0 <= i < rows.len() implies splits_totals(
            #[trigger] records[i],
            rows[i],
        ) by {
            assert(row_outcome(pair, label, rows[i], i as usize) == Ok::<KlineView, ParseError>(
                records[i],
            ));
            lemma_volume_split(pair, label, rows[i], i as usize);
        }
    }
}

/// The characters that a field stands for.
pub fn content_chars(token: &str) -> (r: Vec<char>)
    ensures
        r@ == token_content(token@),
{
    let all = chars_of(token);
    let n = all.len();
    if n >= 2 && all[0] == '"' && all[n - 1] == '"' {
        let mut inner: Vec<char> = Vec::new();
        let mut i: usize = 1;
        while i < n - 1
            invariant
                1 <= i <= n - 1,
                n == all.len(),
                inner@ == all@.subrange(1, i as int),
            decreases n - i,
        {
            inner.push(all[i]);
            assert(all@.subrange(1, i + 1) =~= all@.subrange(1, i as int).push(all@[i as int]));
            i += 1;
        }
        inner
    } else {
        all
    }
}

fn decimal_at(row: &Vec<String>, index: usize, field: usize) -> (r: Result<Decimal, ParseError>)
    requires
        field < row.len(),
    ensures
        r == decimal_field(row_text(row@), index, field),
        r matches Ok(d) ==> d.in_range(),
{
    let chars = content_chars(row[field].as_str());
    match Decimal::parse(&chars) {
        Ok(d) => Ok(d),
        Err(NumeralError::Malformed) => Err(ParseError::NotNumeric { row: index, field }),
        Err(NumeralError::OutOfRange) => Err(ParseError::OutOfRange { row: index, field }),
    }
}

fn time_at(row: &Vec<String>, index: usize) -> (r: Result<i64, ParseError>)
    requires
        START_TIME < row.len(),
    ensures
        r == time_field(row_text(row@), index),
{
    let chars = content_chars(row[START_TIME].as_str());
    match parse_i64(&chars) {
        Ok(t) => Ok(t),
        Err(NumeralError::Malformed) => Err(
            ParseError::NotNumeric { row: index, field: START_TIME },
        ),
        Err(NumeralError::OutOfRange) => Err(
            ParseError::OutOfRange { row: index, field: START_TIME },
        ),
    }
}

/// Builds the record of one row.
pub fn parse_row(pair: &str, label: &str, row: &Vec<String>, index: usize) -> (r: Result<
    Kline,
    ParseError,
>)
    ensures
        row_result_view(r) == row_outcome(pair@, label@, row_text(row@), index),
{
    if row.len() != FIELD_COUNT {
        return Err(ParseError::FieldCount { row: index, found: row.len() });
    }
    let base_total = decimal_at(row, index, BASE_TOTAL)?;
    let quote_total = decimal_at(row, index, QUOTE_TOTAL)?;
    let base_buy = decimal_at(row, index, BASE_BUY)?;
    let quote_buy = decimal_at(row, index, QUOTE_BUY)?;
    let utc_begin = time_at(row, index)?;
    let l = decimal_at(row, index, LOW)?;
    let h = decimal_at(row, index, HIGH)?;
    let o = decimal_at(row, index, OPEN)?;
    let c = decimal_at(row, index, CLOSE)?;
    let sell_base = Decimal { units: base_total.units - base_buy.units };
    let sell_quote = Decimal { units: quote_total.units - quote_buy.units };
    if base_buy.is_negative() || quote_buy.is_negative() || sell_base.is_negative()
        || sell_quote.is_negative() {
        return Err(ParseError::NegativeVolume { row: index });
    }
    Ok(
        Kline {
            pair: pair.to_owned(),
            time_frame: label.to_owned(),
            o,
            h,
            l,
            c,
            utc_begin,
            volume_bs: VBS { buy_base: base_buy, sell_base, buy_quote: quote_buy, sell_quote },
        },
    )
}

/// A parser of one exchange's payloads.
pub trait KlineParser {
    /// What this parser makes of a payload.
    spec fn outcome(
        &self,
        pair: Seq<char>,
        interval: Seq<char>,
        rows: Seq<Seq<Seq<char>>>,
    ) -> Result<Seq<KlineView>, ParseError>;

    fn parse(&self, pair: &str, interval: &str, raw_data: Vec<Vec<String>>) -> (r: Result<
        Vec<Kline>,
        ParseError,
    >)
        ensures
            parse_result_view(r) == self.outcome(pair@, interval@, rows_text(raw_data@)),
    ;
}

/// The parser for Poloniex candle payloads.
#[derive(Debug)]
pub struct PoloniexKlineParser;

impl KlineParser for PoloniexKlineParser {
    open spec fn outcome(
        &self,
        pair: Seq<char>,
        interval: Seq<char>,
        rows: Seq<Seq<Seq<char>>>,
    ) -> Result<Seq<KlineView>, ParseError> {
        payload_outcome(pair, interval, rows)
    }

    fn parse(&self, pair: &str, interval: &str, raw_data: Vec<Vec<String>>) -> (r: Result<
        Vec<Kline>,
        ParseError,
    >) {
        let known = match Interval::from_name(interval) {
            Some(known) => known,
            None => {
                return Err(ParseError::UnknownInterval);
            },
        };
        let label = known.timeframe();
        let ghost rows = rows_text(raw_data@);
        let mut klines: Vec<Kline> = Vec::new();
        let mut i: usize = 0;
        assert(rows.take(0) =~= Seq::empty());
        assert(klines_view(klines@) =~= Seq::empty());
        while i < raw_data.len()
            invariant
                i <= raw_data.len(),
                rows == rows_text(raw_data@),
                label@ == known.label(),
                Interval::named(interval@) == Some(known),
                rows_outcome(pair@, label@, rows.take(i as int)) == Ok::<
                    Seq<KlineView>,
                    ParseError,
                >(klines_view(klines@)),
            decreases raw_data.len() - i,
        {
            let ghost before = klines_view(klines@);
            proof {
                assert(rows.take(i + 1).drop_last() =~= rows.take(i as int));
                assert(rows.take(i + 1).last() == row_text(raw_data@[i as int]@));
            }
            match parse_row(pair, label, &raw_data[i], i) {
                Ok(kline) => {
                    klines.push(kline);
                    assert(klines_view(klines@) =~= before.push(kline@));
                },
                Err(e) => {
                    proof {
                        assert(rows_outcome(pair@, label@, rows.take(i + 1)) == Err::<
                            Seq<KlineView>,
                            ParseError,
                        >(e));
                        lemma_failure_persists(pair@, label@, rows, i + 1);
                    }
                    return Err(e);
                },
            }
            i += 1;
        }
        assert(rows.take(i as int) =~= rows);
        Ok(klines)
    }
}

} // verus!
