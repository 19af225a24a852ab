//! The exchange side of the pipeline: which requests to make, and what to do
//! with each payload that comes back.

use crate::db::{
    destination_name, store_outcome, Database, DbError, DbErrorView, InsertRequest, InsertView,
};
use crate::interval::Interval;
use crate::parser::{klines_view, rows_text, Kline, KlineParser, KlineView, ParseError};
use crate::payload::{decode_error_text, decode_rows, decoded_rows};
use crate::planner::{is_plan, plan, RequestDescriptor};
use vstd::arithmetic::div_mod::lemma_fundamental_div_mod_converse;
use vstd::prelude::*;

verus! {

/// Largest number of requests that may be in flight at once.
pub const PARALLEL_REQUESTS: usize = 10;

/// Reads the clock: `chrono::Utc::now()` as Unix milliseconds, by
/// `DateTime::timestamp_millis`. The result depends on when the call is made,
/// so nothing is claimed of it. (The call panics only on a machine whose clock
/// stands before 1970 or beyond the years that `chrono` can hold.)
#[verifier::external_body]
pub(crate) fn now_millis() -> i64 {
    chrono::Utc::now().timestamp_millis()
}

/// Why a payload gave no inserts.
#[derive(Clone, Debug)]
pub enum IngestError {
    /// The body is not a list of rows.
    Decode(String),
    /// A row was rejected.
    Parse(ParseError),
    /// A record has no destination.
    Store(DbError),
}

/// An ingest error with its texts as character sequences.
pub enum IngestErrorView {
    Decode(Seq<char>),
    Parse(ParseError),
    Store(DbErrorView),
}

impl View for IngestError {
    type V = IngestErrorView;

    open spec fn view(&self) -> IngestErrorView {
        match self {
            IngestError::Decode(s) => IngestErrorView::Decode(s@),
            IngestError::Parse(e) => IngestErrorView::Parse(*e),
            IngestError::Store(e) => IngestErrorView::Store(e@),
        }
    }
}

/// A list of inserts with their texts as character sequences.
pub open spec fn inserts_view(requests: Seq<InsertRequest>) -> Seq<InsertView> {
    Seq::new(requests.len(), |i: int| requests[i]@)
}

/// What `route` returned, with texts as character sequences.
pub open spec fn route_result_view(r: Result<Vec<InsertRequest>, DbError>) -> Result<
    Seq<InsertView>,
    DbErrorView,
> {
    match r {
        Ok(requests) => Ok(inserts_view(requests@)),
        Err(e) => Err(e@),
    }
}

/// What processing a payload returned, with texts as character sequences.
pub open spec fn ingest_result_view(r: Result<Vec<InsertRequest>, IngestError>) -> Result<
    Seq<InsertView>,
    IngestErrorView,
> {
    match r {
        Ok(requests) => Ok(inserts_view(requests@)),
        Err(e) => Err(e@),
    }
}

/// The inserts that store a list of records, in order; the error of the
/// first record without a destination where there is one.
pub open spec fn routed(destinations: Map<Seq<char>, u32>, klines: Seq<KlineView>) -> Result<
    Seq<InsertView>,
    DbErrorView,
>
    decreases klines.len(),
{
    if klines.len() == 0 {
        Ok(Seq::empty())
    } else {
        match routed(destinations, klines.drop_last()) {
            Err(e) => Err(e),
            Ok(front) => match store_outcome(destinations, klines.last()) {
                Err(e) => Err(e),
                Ok(request) => Ok(front.push(request)),
            },
        }
    }
}

/// What a payload comes to, given what the parser made of it: the inserts of
/// its records, or the first failure. A rejected payload gives no insert.
pub open spec fn ingest_outcome(
    parsed: Result<Seq<KlineView>, ParseError>,
    destinations: Map<Seq<char>, u32>,
) -> Result<Seq<InsertView>, IngestErrorView> {
    match parsed {
        Err(e) => Err(IngestErrorView::Parse(e)),
        Ok(klines) => match routed(destinations, klines) {
            Err(e) => Err(IngestErrorView::Store(e)),
            Ok(requests) => Ok(requests),
        },
    }
}

/// A failure among the first records is the failure of the whole list.
pub proof fn lemma_routing_failure_persists(
    destinations: Map<Seq<char>, u32>,
    klines: Seq<KlineView>,
    k: int,
)
    requires
        0 <= k <= klines.len(),
        routed(destinations, klines.take(k)) is Err,
    ensures
        routed(destinations, klines) == routed(destinations, klines.take(k)),
    decreases klines.len() - k,
{
    if k == klines.len() {
        assert(klines.take(k) =~= klines);
    } else {
        assert(klines.drop_last().take(k) =~= klines.take(k));
        lemma_routing_failure_persists(destinations, klines.drop_last(), k);
    }
}

/// A record without a destination leaves the whole list without inserts.
pub proof fn lemma_unknown_destination_stores_nothing(
    destinations: Map<Seq<char>, u32>,
    klines: Seq<KlineView>,
    i: int,
)
    requires
        0 <= i < klines.len(),
        !destinations.contains_key(destination_name(klines[i].pair)),
    ensures
        routed(destinations, klines) is Err,
{
    let upto = klines.take(i + 1);
    assert(upto.last() == klines[i]);
    assert(routed(destinations, upto) is Err);
    lemma_routing_failure_persists(destinations, klines, i + 1);
}

/// The inserts of a routed list are those of its records, one for one and
/// in order, each into the destination named after the record's pair.
pub proof fn lemma_inserts_match_records(destinations: Map<Seq<char>, u32>, klines: Seq<KlineView>)
    ensures
        routed(destinations, klines) matches Ok(requests) ==> requests.len() == klines.len()
            && forall|i: int|
            0 <= i < klines.len() ==> store_outcome(destinations, #[trigger] klines[i]) == Ok::<
                InsertView,
                DbErrorView,
            >(requests[i]),
    decreases klines.len(),
{
    if klines.len() > 0 {
        lemma_inserts_match_records(destinations, klines.drop_last());
        if routed(destinations, klines) is Ok {
            let requests = routed(destinations, klines)->Ok_0;
            let front = routed(destinations, klines.drop_last())->Ok_0;
            assert forall|i: int| 0 <= i < klines.len() implies store_outcome(
                destinations,
                #[trigger] klines[i],
            ) == Ok::<InsertView, DbErrorView>(requests[i]) by {
                if i < klines.len() - 1 {
                    assert(klines.drop_last()[i] == klines[i]);
                    assert(requests[i] == front[i]);
                }
            }
        }
    }
}

/// One pair with one interval: the unit in which the pipeline works.
#[derive(Clone, Debug)]
pub struct WorkUnit {
    pub pair: String,
    pub interval: Interval,
}

/// `units` is the schedule for the given pairs and intervals: every pair
/// with every interval, pair by pair, the intervals in their given order.
pub open spec fn is_schedule(
    units: Seq<WorkUnit>,
    pairs: Seq<String>,
    intervals: Seq<String>,
) -> bool {
    &&& units.len() == pairs.len() * intervals.len()
    &&& forall|k: int|
        0 <= k < units.len() ==> (#[trigger] units[k]).pair@ == pairs[k / (
        intervals.len() as int)]@ && Some(units[k].interval) == Interval::named(
            intervals[k % (intervals.len() as int)]@,
        )
}

/// In a schedule, the unit of pair number `i` with interval number `j` stands
/// at position `i * m + j`, where `m` is the number of intervals.
pub proof fn lemma_schedule_position(
    units: Seq<WorkUnit>,
    pairs: Seq<String>,
    intervals: Seq<String>,
    i: int,
    j: int,
)
    requires
        is_schedule(units, pairs, intervals),
        0 <= i < pairs.len(),
        0 <= j < intervals.len(),
    ensures
        0 <= i * intervals.len() + j < units.len(),
        units[i * intervals.len() + j].pair@ == pairs[i]@,
        Some(units[i * intervals.len() + j].interval) == Interval::named(intervals[j]@),
{
    let m = intervals.len() as int;
    let n = pairs.len() as int;
    let k = i * m + j;
    assert(0 <= i * m && i * m + m <= n * m) by (nonlinear_arith)
        requires
            0 <= i < n,
            m > 0,
    ;
    lemma_fundamental_div_mod_converse(k, m, i, j);
    assert(units[k].pair@ == pairs[k / m]@);
}

/// Position of the first name that is not a known interval.
pub open spec fn is_first_unknown(intervals: Seq<String>, at: int) -> bool {
    &&& 0 <= at < intervals.len()
    &&& Interval::named(intervals[at]@) is None
    &&& forall|j: int| 0 <= j < at ==> Interval::named(#[trigger] intervals[j]@) is Some
}

/// The pipeline's parts for one exchange: where to fetch, what fetches, what
/// stores, and how to parse. The client `C` and the store `D` are carried for
/// the driver, which alone calls them.
pub struct Exchange<C, D, P: KlineParser> {
    pub rest_url: String,
    pub rest_client: C,
    pub db: D,
    pub parser: P,
}

impl<C, D, P: KlineParser> Exchange<C, D, P> {
    /// Lays out the work: one unit for every pair with every interval, in
    /// pair-major order. An interval outside the known set is an error, given
    /// as the position of the first such name; nothing is scheduled then.
    pub fn schedule(pairs: &Vec<String>, intervals: &Vec<String>) -> (r: Result<
        Vec<WorkUnit>,
        usize,
    >)
        ensures
            r matches Ok(units) ==> is_schedule(units@, pairs@, intervals@) && forall|j: int|
                0 <= j < intervals.len() ==> Interval::named(#[trigger] intervals[j]@) is Some,
            r matches Err(at) ==> is_first_unknown(intervals@, at as int),
    {
        let m = intervals.len();
        let mut known: Vec<Interval> = Vec::new();
        let mut j: usize = 0;
        while j < m
            invariant
                j <= m == intervals.len(),
                known.len() == j,
                forall|k: int|
                    0 <= k < j ==> Interval::named(#[trigger] intervals[k]@) == Some(known[k]),
            decreases m - j,
        {
            match Interval::from_name(intervals[j].as_str()) {
                Some(interval) => {
                    known.push(interval);
                },
                None => {
                    return Err(j);
                },
            }
            j += 1;
        }
        let mut units: Vec<WorkUnit> = Vec::new();
        let mut i: usize = 0;
        assert(0 * (m as int) == 0);
        while i < pairs.len()
            invariant
                i <= pairs.len(),
                m == intervals.len() == known.len(),
                forall|k: int|
                    0 <= k < m ==> Interval::named(#[trigger] intervals[k]@) == Some(known[k]),
                units.len() == i * m,
                forall|k: int|
                    0 <= k < units.len() ==> (#[trigger] units[k]).pair@ == pairs[k / (m as int)]@
                        && units[k].interval == known[k % (m as int)],
            decreases pairs.len() - i,
        {
            let mut j: usize = 0;
            while j < m
                invariant
                    i < pairs.len(),
                    j <= m,
                    m == intervals.len() == known.len(),
                    units.len() == i * m + j,
                    forall|k: int|
                        0 <= k < units.len() ==> (#[trigger] units[k]).pair@ == pairs[k / (
                        m as int)]@ && units[k].interval == known[k % (m as int)],
                decreases m - j,
            {
                let ghost before = units@;
                units.push(WorkUnit { pair: pairs[i].clone(), interval: known[j] });
                proof {
                    let at = before.len() as int;
                    lemma_fundamental_div_mod_converse(at, m as int, i as int, j as int);
                    assert forall|k: int| 0 <= k < units.len() implies (#[trigger] units[k]).pair@
                        == pairs[k / (m as int)]@ && units[k].interval == known[k % (m as int)] by {
                        if k < at {
                            assert(units[k] == before[k]);
                        }
                    }
                }
                j += 1;
            }
            proof {
                assert((i + 1) * m == i * m + m) by (nonlinear_arith);
            }
            i += 1;
        }
        proof {
            assert forall|k: int| 0 <= k < units.len() implies (#[trigger] units[k]).pair@
                == pairs[k / (m as int)]@ && Some(units[k].interval) == Interval::named(
                intervals[k % (m as int)]@,
            ) by {
                if m == 0 {
                    assert(pairs.len() * 0 == 0);
                } else {
                    assert(0 <= k % (m as int) < m) by (nonlinear_arith)
                        requires
                            0 <= k,
                            m > 0,
                    ;
                    let j = k % (m as int);
                    assert(Interval::named(intervals[j]@) == Some(known[j]));
                }
            }
            assert(is_schedule(units@, pairs@, intervals@));
        }
        Ok(units)
    }

    /// Plans the requests of one unit up to the present moment. `None` for an
    /// interval outside the known set.
    pub fn build_endpoints(&self, pair: &str, interval: &str, start_date: i64) -> (r: Option<
        Vec<RequestDescriptor>,
    >)
        ensures
            r is Some <==> Interval::named(interval@) is Some,
            r is Some ==> exists|now: int|
                i64::MIN <= now <= i64::MAX && #[trigger] is_plan(
                    r->0@,
                    self.rest_url@,
                    pair@,
                    Interval::named(interval@)->0,
                    start_date as int,
                    now,
                ),
    {
        match Interval::from_name(interval) {
            None => None,
            Some(known) => {
                let now = now_millis();
                let requests = plan(self.rest_url.as_str(), pair, known, start_date, now);
                let r = Some(requests);
                assert(is_plan(
                    r->0@,
                    self.rest_url@,
                    pair@,
                    Interval::named(interval@)->0,
                    start_date as int,
                    now as int,
                ));
                r
            },
        }
    }

    /// Routes every record to its destination in `db`.
    pub fn route(db: &Database, klines: &Vec<Kline>) -> (r: Result<Vec<InsertRequest>, DbError>)
        ensures
            route_result_view(r) == routed(db.space_ids@, klines_view(klines@)),
    {
        let ghost all = klines_view(klines@);
        let mut requests: Vec<InsertRequest> = Vec::new();
        let mut i: usize = 0;
        assert(all.take(0) =~= Seq::empty());
        assert(inserts_view(requests@) =~= Seq::empty());
        while i < klines.len()
            invariant
                i <= klines.len(),
                all == klines_view(klines@),
                routed(db.space_ids@, all.take(i as int)) == Ok::<Seq<InsertView>, DbErrorView>(
                    inserts_view(requests@),
                ),
            decreases klines.len() - i,
        {
            let ghost before = inserts_view(requests@);
            proof {
                assert(all.take(i + 1).drop_last() =~= all.take(i as int));
                assert(all.take(i + 1).last() == klines@[i as int]@);
            }
            match db.save(&klines[i]) {
                Ok(request) => {
                    requests.push(request);
                    assert(inserts_view(requests@) =~= before.push(request@));
                },
                Err(e) => {
                    proof {
                        assert(routed(db.space_ids@, all.take(i + 1)) == Err::<
                            Seq<InsertView>,
                            DbErrorView,
                        >(e@));
                        lemma_routing_failure_persists(db.space_ids@, all, i + 1);
                    }
                    return Err(e);
                },
            }
            i += 1;
        }
        assert(all.take(i as int) =~= all);
        Ok(requests)
    }

    /// Parses the rows of one payload and routes its records in `db`.
    pub fn process_rows(
        &self,
        db: &Database,
        pair: &str,
        interval: &str,
        rows: Vec<Vec<String>>,
    ) -> (r: Result<Vec<InsertRequest>, IngestError>)
        ensures
            ingest_result_view(r) == ingest_outcome(
                self.parser.outcome(pair@, interval@, rows_text(rows@)),
                db.space_ids@,
            ),
    {
        let klines = match self.parser.parse(pair, interval, rows) {
            Ok(klines) => klines,
            Err(e) => {
                return Err(IngestError::Parse(e));
            },
        };
        match Self::route(db, &klines) {
            Ok(requests) => Ok(requests),
            Err(e) => Err(IngestError::Store(e)),
        }
    }

    /// Decodes one response body and processes its rows.
    pub fn process_payload(&self, db: &Database, pair: &str, interval: &str, body: &str) -> (r:
        Result<Vec<InsertRequest>, IngestError>)
        ensures
            match decoded_rows(body@) {
                Some(rows) => ingest_result_view(r) == ingest_outcome(
                    self.parser.outcome(pair@, interval@, rows),
                    db.space_ids@,
                ),
                None => r matches Err(IngestError::Decode(_)),
            },
    {
        match decode_rows(body) {
            Ok(rows) => self.process_rows(db, pair, interval, rows),
            Err(e) => Err(IngestError::Decode(decode_error_text(&e))),
        }
    }
}

/// What is missing from an exchange that was to be built.
#[derive(Clone, Copy, Debug, PartialEq, Eq, Structural)]
pub enum ExchangeBuilderError {
    MissingRestUrl,
    MissingRestClient,
    MissingDB,
    MissingParser,
}

impl ExchangeBuilderError {
    /// The words that describe the error.
    pub open spec fn text(self) -> Seq<char> {
        match self {
            ExchangeBuilderError::MissingRestUrl => "Missing REST URL"@,
            ExchangeBuilderError::MissingRestClient => "Missing REST client"@,
            ExchangeBuilderError::MissingDB => "Missing database"@,
            ExchangeBuilderError::MissingParser => "Missing parser"@,
        }
    }

    /// Describes the error in words.
    pub fn message(&self) -> (r: &'static str)
        ensures
            r@ == self.text(),
    {
        match self {
            ExchangeBuilderError::MissingRestUrl => "Missing REST URL",
            ExchangeBuilderError::MissingRestClient => "Missing REST client",
            ExchangeBuilderError::MissingDB => "Missing database",
            ExchangeBuilderError::MissingParser => "Missing parser",
        }
    }
}

/// Collects the parts of an exchange.
pub struct ExchangeBuilder<C, D, P: KlineParser> {
    pub base_url: Option<String>,
    pub rest_client: Option<C>,
    pub db: Option<D>,
    pub parser: Option<P>,
}

impl<C, D, P: KlineParser> ExchangeBuilder<C, D, P> {
    /// A builder with nothing set.
    pub fn new() -> (r: Self)
        ensures
            r.base_url is None,
            r.rest_client is None,
            r.db is None,
            r.parser is None,
    {
        ExchangeBuilder { base_url: None, rest_client: None, db: None, parser: None }
    }

    /// Sets the address under which the exchange serves its markets.
    pub fn set_base_url(self, base_url: String) -> (r: Self)
        ensures
            r.base_url == Some(base_url),
            r.rest_client == self.rest_client,
            r.db == self.db,
            r.parser == self.parser,
    {
        let mut b = self;
        b.base_url = Some(base_url);
        b
    }

    /// Sets the client that fetches.
    pub fn set_rest_client(self, client: C) -> (r: Self)
        ensures
            r.base_url == self.base_url,
            r.rest_client == Some(client),
            r.db == self.db,
            r.parser == self.parser,
    {
        let mut b = self;
        b.rest_client = Some(client);
        b
    }

    /// Sets the store that records go to.
    pub fn set_db(self, db: D) -> (r: Self)
        ensures
            r.base_url == self.base_url,
            r.rest_client == self.rest_client,
            r.db == Some(db),
            r.parser == self.parser,
    {
        let mut b = self;
        b.db = Some(db);
        b
    }

    /// Sets the parser of the exchange's payloads.
    pub fn set_parser(self, parser: P) -> (r: Self)
        ensures
            r.base_url == self.base_url,
            r.rest_client == self.rest_client,
            r.db == self.db,
            r.parser == Some(parser),
    {
        let mut b = self;
        b.parser = Some(parser);
        b
    }

    /// The first part that is missing, in the order address, client,
    /// database, parser.
    pub open spec fn missing(self) -> Option<ExchangeBuilderError> {
        if self.base_url is None {
            Some(ExchangeBuilderError::MissingRestUrl)
        } else if self.rest_client is None {
            Some(ExchangeBuilderError::MissingRestClient)
        } else if self.db is None {
            Some(ExchangeBuilderError::MissingDB)
        } else if self.parser is None {
            Some(ExchangeBuilderError::MissingParser)
        } else {
            None
        }
    }

    /// Builds the exchange from the parts that were set; fails on the first
    /// part that is missing.
    pub fn build(self) -> (r: Result<Exchange<C, D, P>, ExchangeBuilderError>)
        ensures
            match self.missing() {
                Some(e) => r == Err::<Exchange<C, D, P>, ExchangeBuilderError>(e),
                None => r matches Ok(exchange) && exchange.rest_url == self.base_url->0
                    && exchange.rest_client == self.rest_client->0 && exchange.db == self.db->0
                    && exchange.parser == self.parser->0,
            },
    {
        let rest_url = match self.base_url {
            Some(v) => v,
            None => {
                return Err(ExchangeBuilderError::MissingRestUrl);
            },
        };
        let rest_client = match self.rest_client {
            Some(v) => v,
            None => {
                return Err(ExchangeBuilderError::MissingRestClient);
            },
        };
        let db = match self.db {
            Some(v) => v,
            None => {
                return Err(ExchangeBuilderError::MissingDB);
            },
        };
        let parser = match self.parser {
            Some(v) => v,
            None => {
                return Err(ExchangeBuilderError::MissingParser);
            },
        };
        Ok(Exchange { rest_url, rest_client, db, parser })
    }
}

} // verus!
