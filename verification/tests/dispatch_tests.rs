use kline_ingest::db::{DbError, Enumeration};
use kline_ingest::dispatch::{classify, DispatchAction, Dispatcher, UnitReport, WindowOutcome};
use kline_ingest::exchange::IngestError;
use kline_ingest::parser::ParseError;
use kline_ingest::resolver::{ResolveStep, Resolver};

#[test]
fn requests_are_issued_in_order_up_to_the_limit() {
    let mut d = Dispatcher::new(25);
    for i in 0..10 {
        assert_eq!(d.next(), DispatchAction::Issue(i));
    }
    assert_eq!(d.next(), DispatchAction::Wait);
    assert_eq!(d.next(), DispatchAction::Wait);
    assert!(d.complete());
    assert_eq!(d.next(), DispatchAction::Issue(10));
    assert_eq!(d.next(), DispatchAction::Wait);
}

#[test]
fn never_more_than_the_limit_in_flight() {
    let mut d = Dispatcher::new(1000);
    let mut in_flight = 0usize;
    let mut issued = 0usize;
    let mut step = 0usize;
    loop {
        match d.next() {
            DispatchAction::Issue(i) => {
                assert_eq!(i, issued);
                issued += 1;
                in_flight += 1;
            }
            DispatchAction::Wait => {
                assert!(in_flight > 0);
                let done = 1 + step % in_flight;
                for _ in 0..done {
                    assert!(d.complete());
                    in_flight -= 1;
                }
            }
            DispatchAction::Done => break,
        }
        assert!(in_flight <= 10);
        step += 1;
    }
    assert_eq!(issued, 1000);
    assert_eq!(in_flight, 0);
}

#[test]
fn a_short_plan_is_issued_whole() {
    let mut d = Dispatcher::new(2);
    assert_eq!(d.next(), DispatchAction::Issue(0));
    assert_eq!(d.next(), DispatchAction::Issue(1));
    assert_eq!(d.next(), DispatchAction::Wait);
    assert!(d.complete());
    assert_eq!(d.next(), DispatchAction::Wait);
    assert!(d.complete());
    assert_eq!(d.next(), DispatchAction::Done);
    assert_eq!(d.next(), DispatchAction::Done);
}

#[test]
fn an_empty_plan_is_done_at_once() {
    let mut d = Dispatcher::new(0);
    assert_eq!(d.next(), DispatchAction::Done);
}

#[test]
fn a_completion_with_nothing_in_flight_is_not_counted() {
    let mut d = Dispatcher::new(1);
    assert!(!d.complete());
    assert_eq!(d.next(), DispatchAction::Issue(0));
    assert!(d.complete());
    assert!(!d.complete());
    assert_eq!(d.next(), DispatchAction::Done);
}

#[test]
fn the_tally_counts_each_kind_of_ending() {
    let mut report = UnitReport::new();
    assert_eq!(report.failed(), 0);
    report.record(WindowOutcome::Stored);
    report.record(WindowOutcome::Stored);
    report.record(WindowOutcome::FetchFailed);
    report.record(WindowOutcome::ParseFailed);
    report.record(WindowOutcome::StoreFailed);
    report.record(WindowOutcome::StoreFailed);
    report.record(WindowOutcome::StoreFailed);
    assert_eq!(
        report,
        UnitReport { stored: 2, fetch_failed: 1, parse_failed: 1, store_failed: 3 }
    );
    assert_eq!(report.failed(), 5);
}

#[test]
fn a_full_count_stays_full() {
    let mut report =
        UnitReport { stored: u64::MAX, fetch_failed: u64::MAX, parse_failed: 1, store_failed: 0 };
    report.record(WindowOutcome::Stored);
    assert_eq!(report.stored, u64::MAX);
    assert_eq!(report.failed(), u64::MAX);
}

#[test]
fn failures_are_counted_by_their_kind() {
    assert_eq!(classify(&IngestError::Decode("eof".to_string())), WindowOutcome::FetchFailed);
    assert_eq!(classify(&IngestError::Parse(ParseError::UnknownInterval)), WindowOutcome::ParseFailed);
    assert_eq!(
        classify(&IngestError::Store(DbError::UnknownSpace("klines_x".to_string()))),
        WindowOutcome::StoreFailed
    );
}

#[test]
fn only_the_first_to_ask_enumerates() {
    let mut r = Resolver::new();
    assert!(r.database().is_none());
    assert_eq!(r.begin(), ResolveStep::Enumerate);
    assert_eq!(r.begin(), ResolveStep::Wait);
    assert_eq!(r.begin(), ResolveStep::Wait);
    assert!(r.finish(Enumeration::Listed(vec![(3, "klines_btc_usdt".to_string())])));
    assert_eq!(r.begin(), ResolveStep::Ready);
    assert_eq!(r.begin(), ResolveStep::Ready);
    let db = r.database().unwrap();
    assert_eq!(db.space_ids.get(&"klines_btc_usdt".to_string()), Some(3));
}

#[test]
fn what_was_resolved_is_never_replaced() {
    let mut r = Resolver::new();
    assert!(!r.finish(Enumeration::Listed(vec![(1, "early".to_string())])));
    assert_eq!(r.begin(), ResolveStep::Enumerate);
    assert!(r.finish(Enumeration::Listed(vec![(3, "a".to_string())])));
    assert!(!r.finish(Enumeration::Listed(vec![(4, "a".to_string()), (5, "b".to_string())])));
    assert!(!r.finish(Enumeration::CallFailed("late".to_string())));
    let db = r.database().unwrap();
    assert_eq!(db.space_ids.get(&"a".to_string()), Some(3));
    assert_eq!(db.space_ids.get(&"b".to_string()), None);
    assert!(r.failure().is_none());
}

#[test]
fn a_failed_enumeration_is_final() {
    let mut r = Resolver::new();
    assert_eq!(r.begin(), ResolveStep::Enumerate);
    assert!(r.finish(Enumeration::CallFailed("refused".to_string())));
    assert_eq!(r.begin(), ResolveStep::Failed);
    assert_eq!(r.begin(), ResolveStep::Failed);
    assert!(!r.finish(Enumeration::Listed(vec![(3, "a".to_string())])));
    assert!(r.database().is_none());
    assert_eq!(r.failure().unwrap().message(), "Space discovery failed: Failed to call get_spaces: refused");
}
