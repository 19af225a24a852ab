//! Window planning: the ordered requests that cover a time range, each for
//! at most one page of candles.

use crate::interval::Interval;
use crate::text::{int_text, push_int};
use vstd::prelude::*;
use vstd::string::*;

verus! {

/// Number of candles asked for in one request.
pub const LIMIT: i64 = 500;

/// One request: which candles to fetch, and the address to fetch them from.
/// Both bounds are inclusive, in Unix milliseconds.
#[derive(Clone, Debug)]
pub struct RequestDescriptor {
    pub pair: String,
    pub interval: String,
    pub window_start: i64,
    pub window_end: i64,
    pub url: String,
}

/// Milliseconds covered by one full page of candles.
pub open spec fn span_millis(interval: Interval) -> int {
    interval.millis() * LIMIT
}

/// First millisecond of window number `i`.
pub open spec fn window_start(start: int, span: int, i: int) -> int {
    start + i * span
}

/// Last millisecond of window number `i`: a full span, cut off at the last
/// millisecond before `now`.
pub open spec fn window_end(start: int, now: int, span: int, i: int) -> int {
    let full = start + (i + 1) * span - 1;
    if full < now - 1 {
        full
    } else {
        now - 1
    }
}

/// `n` is the number of windows of length `span` that it takes to cover
/// `start..now`: none for an empty range, else the one `n` for which `n - 1`
/// windows fall short of `now` and `n` windows reach it.
pub open spec fn is_window_count(start: int, now: int, span: int, n: int) -> bool {
    if start >= now {
        n == 0
    } else {
        n >= 1 && start + (n - 1) * span < now <= start + n * span
    }
}

/// The address of the request for the candles of `from..=to`.
pub open spec fn request_url(
    base: Seq<char>,
    pair: Seq<char>,
    interval: Seq<char>,
    from: int,
    to: int,
) -> Seq<char> {
    base + "/"@ + pair + "/candles?interval="@ + interval + "&startTime="@ + int_text(from)
        + "&endTime="@ + int_text(to) + "&limit="@ + int_text(LIMIT as int)
}

/// `d` is request number `i` of the plan for the given range.
pub open spec fn describes(
    d: RequestDescriptor,
    base: Seq<char>,
    pair: Seq<char>,
    interval: Interval,
    start: int,
    now: int,
    i: int,
) -> bool {
    &&& d.pair@ == pair
    &&& d.interval@ == interval.request_name()
    &&& d.window_start == window_start(start, span_millis(interval), i)
    &&& d.window_end == window_end(start, now, span_millis(interval), i)
    &&& d.url@ == request_url(
        base,
        pair,
        interval.request_name(),
        d.window_start as int,
        d.window_end as int,
    )
}

/// `plan` is the whole plan for the given range: the right number of
/// requests, each the one that its position asks for.
pub open spec fn is_plan(
    plan: Seq<RequestDescriptor>,
    base: Seq<char>,
    pair: Seq<char>,
    interval: Interval,
    start: int,
    now: int,
) -> bool {
    &&& is_window_count(start, now, span_millis(interval), plan.len() as int)
    &&& forall|i: int|
        0 <= i < plan.len() ==> describes(#[trigger] plan[i], base, pair, interval, start, now, i)
}

/// The windows of a plan tile the range `start..now`: the first begins at
/// `start`, each next one begins one millisecond after the one before ends,
/// the last ends one millisecond before `now`, and each holds at least one
/// millisecond and at most one span.
pub proof fn lemma_windows_tile(start: int, now: int, span: int, n: int)
    requires
        span > 0,
        is_window_count(start, now, span, n),
    ensures
        n > 0 ==> window_start(start, span, 0) == start,
        n > 0 ==> window_end(start, now, span, n - 1) == now - 1,
        forall|i: int|
            0 <= i < n - 1 ==> #[trigger] window_end(start, now, span, i) + 1 == window_start(
                start,
                span,
                i + 1,
            ),
        forall|i: int|
            0 <= i < n ==> window_start(start, span, i) <= #[trigger] window_end(
                start,
                now,
                span,
                i,
            ) < window_start(start, span, i) + span,
{
    assert(0 * span == 0);
    assert forall|i: int| 0 <= i < n - 1 implies #[trigger] window_end(start, now, span, i) + 1
        == window_start(start, span, i + 1) by {
        assert((i + 1) * span <= (n - 1) * span) by (nonlinear_arith)
            requires
                i + 1 <= n - 1,
                span > 0,
        ;
    }
    assert forall|i: int| 0 <= i < n implies window_start(start, span, i) <= #[trigger] window_end(
        start,
        now,
        span,
        i,
    ) < window_start(start, span, i) + span by {
        assert((i + 1) * span == i * span + span) by (nonlinear_arith);
        assert(i * span <= (n - 1) * span) by (nonlinear_arith)
            requires
                i <= n - 1,
                span > 0,
        ;
    }
    if n > 0 {
        assert((n - 1 + 1) * span == n * span);
    }
}

/// No range has two window counts.
pub proof fn lemma_window_count_unique(start: int, now: int, span: int, n: int, m: int)
    requires
        span > 0,
        is_window_count(start, now, span, n),
        is_window_count(start, now, span, m),
    ensures
        n == m,
{
    if start < now {
        if n < m {
            assert(n * span <= (m - 1) * span) by (nonlinear_arith)
                requires
                    n <= m - 1,
                    span > 0,
            ;
        } else if m < n {
            assert(m * span <= (n - 1) * span) by (nonlinear_arith)
                requires
                    m <= n - 1,
                    span > 0,
            ;
        }
    }
}

/// Builds the address of one request.
pub fn build_url(base: &str, pair: &str, interval: &str, from: i64, to: i64) -> (url: String)
    ensures
        url@ == request_url(base@, pair@, interval@, from as int, to as int),
{
    let mut url = String::new();
    url.append(base);
    url.append("/");
    url.append(pair);
    url.append("/candles?interval=");
    url.append(interval);
    url.append("&startTime=");
    push_int(&mut url, from as i128);
    url.append("&endTime=");
    push_int(&mut url, to as i128);
    url.append("&limit=");
    push_int(&mut url, LIMIT as i128);
    assert(url@ =~= request_url(base@, pair@, interval@, from as int, to as int));
    url
}

/// Plans the requests that cover `start_ms..now`, in time order.
pub fn plan(base_url: &str, pair: &str, interval: Interval, start_ms: i64, now: i64) -> (r: Vec<
    RequestDescriptor,
>)
    ensures
        is_plan(r@, base_url@, pair@, interval, start_ms as int, now as int),
        r.len() > 0 ==> r[0].window_start == start_ms && r[r.len() - 1].window_end == now - 1,
        forall|i: int|
            0 <= i < r.len() - 1 ==> (#[trigger] r[i]).window_end + 1 == r[i + 1].window_start,
        forall|i: int| 0 <= i < r.len() ==> (#[trigger] r[i]).window_start <= r[i].window_end,
{
    let span: i64 = interval.duration_ms() * LIMIT;
    let name = interval.name();
    let mut out: Vec<RequestDescriptor> = Vec::new();
    let mut current: i64 = start_ms;
    let ghost start = start_ms as int;
    assert(0 * (span as int) == 0);
    while current < now
        invariant
            span == span_millis(interval),
            0 < span <= 43_200_000_000,
            name@ == interval.request_name(),
            start == start_ms,
            current == start + out.len() * span || (out.len() >= 1 && current == now && now
                <= start + out.len() * span),
            out.len() >= 1 ==> start + (out.len() - 1) * span < now,
            forall|i: int|
                0 <= i < out.len() ==> describes(
                    #[trigger] out[i],
                    base_url@,
                    pair@,
                    interval,
                    start,
                    now as int,
                    i,
                ),
        decreases now - current,
    {
        let ghost i = out.len() as int;
        let room: i128 = now as i128 - current as i128;
        let end: i64 = if room > span as i128 {
            current + (span - 1)
        } else {
            now - 1
        };
        proof {
            assert((i + 1) * span == i * span + span) by (nonlinear_arith);
            assert((i + 1 - 1) * span == i * span);
        }
        let url = build_url(base_url, pair, name, current, end);
        let ghost before = out@;
        out.push(
            RequestDescriptor {
                pair: pair.to_owned(),
                interval: name.to_owned(),
                window_start: current,
                window_end: end,
                url,
            },
        );
        proof {
            assert forall|k: int| 0 <= k < out.len() implies describes(
                #[trigger] out[k],
                base_url@,
                pair@,
                interval,
                start,
                now as int,
                k,
            ) by {
                if k < i {
                    assert(out[k] == before[k]);
                }
            }
        }
        current = end + 1;
    }
    proof {
        lemma_windows_tile(start, now as int, span as int, out.len() as int);
        assert forall|i: int| 0 <= i < out.len() - 1 implies (#[trigger] out[i]).window_end + 1
            == out[i + 1].window_start by {
            assert(describes(out[i], base_url@, pair@, interval, start, now as int, i));
            assert(describes(out[i + 1], base_url@, pair@, interval, start, now as int, i + 1));
            assert(window_end(start, now as int, span as int, i) + 1 == window_start(
                start,
                span as int,
                i + 1,
            ));
        }
        assert forall|i: int| 0 <= i < out.len() implies (#[trigger] out[i]).window_start
            <= out[i].window_end by {
            assert(describes(out[i], base_url@, pair@, interval, start, now as int, i));
            assert(window_start(start, span as int, i) <= window_end(
                start,
                now as int,
                span as int,
                i,
            ));
        }
        if out.len() > 0 {
            assert(describes(out[0], base_url@, pair@, interval, start, now as int, 0));
            assert(describes(
                out[out.len() - 1],
                base_url@,
                pair@,
                interval,
                start,
                now as int,
                out.len() - 1,
            ));
        }
    }
    out
}

} // verus!
