//! Bounded dispatch: which request may be issued next, so that no more than
//! a fixed number are ever in flight, and the tally of how the windows of
//! one unit of work ended.

use crate::exchange::{IngestError, PARALLEL_REQUESTS};
use vstd::prelude::*;

verus! {

/// What the dispatcher tells its driver to do next.
#[derive(Clone, Copy, Debug, PartialEq, Eq, Structural)]
pub enum DispatchAction {
    /// Issue the request with this position in the plan.
    Issue(usize),
    /// Every slot is taken, or every request is issued: wait for one of the
    /// requests in flight to complete.
    Wait,
    /// Every request has completed.
    Done,
}

/// Gates the issuance of the requests of one plan.
pub struct Dispatcher {
    total: usize,
    issued: usize,
    completed: usize,
    limit: usize,
}

impl Dispatcher {
    #[verifier::type_invariant]
    spec fn inv(self) -> bool {
        &&& self.completed <= self.issued <= self.total
        &&& self.issued - self.completed <= self.limit
        &&& self.limit >= 1
    }

    /// Number of requests in the plan.
    pub closed spec fn total(self) -> nat {
        self.total as nat
    }

    /// Number of requests issued so far.
    pub closed spec fn issued(self) -> nat {
        self.issued as nat
    }

    /// Number of requests that have completed.
    pub closed spec fn completed(self) -> nat {
        self.completed as nat
    }

    /// Largest number of requests that may be in flight.
    pub closed spec fn limit(self) -> nat {
        self.limit as nat
    }

    /// Number of requests issued and not yet completed.
    pub open spec fn in_flight(self) -> int {
        self.issued() - self.completed()
    }

    /// A dispatcher for `total` requests, of which at most
    /// [`PARALLEL_REQUESTS`] may be in flight.
    pub fn new(total: usize) -> (r: Dispatcher)
        ensures
            r.total() == total,
            r.issued() == 0,
            r.completed() == 0,
            r.limit() == PARALLEL_REQUESTS,
    {
        Dispatcher { total, issued: 0, completed: 0, limit: PARALLEL_REQUESTS }
    }

    /// Decides the next step. A request is issued only while fewer than the
    /// limit are in flight; requests are issued in the order of the plan.
    pub fn next(&mut self) -> (action: DispatchAction)
        ensures
            final(self).total() == old(self).total(),
            final(self).limit() == old(self).limit(),
            final(self).completed() == old(self).completed(),
            0 <= final(self).in_flight() <= final(self).limit(),
            action == if old(self).issued() < old(self).total() && old(self).in_flight() < old(
                self,
            ).limit() {
                DispatchAction::Issue(old(self).issued() as usize)
            } else if old(self).completed() < old(self).total() {
                DispatchAction::Wait
            } else {
                DispatchAction::Done
            },
            final(self).issued() == if action is Issue {
                old(self).issued() + 1
            } else {
                old(self).issued()
            },
            action is Wait ==> final(self).in_flight() > 0,
    {
        proof {
            use_type_invariant(&*self);
        }
        if self.issued < self.total && self.issued - self.completed < self.limit {
            let index = self.issued;
            self.issued = index + 1;
            DispatchAction::Issue(index)
        } else if self.completed < self.total {
            DispatchAction::Wait
        } else {
            DispatchAction::Done
        }
    }

    /// Notes that one request in flight has completed, however it ended.
    /// Returns `false`, and changes nothing, where none is in flight.
    pub fn complete(&mut self) -> (noted: bool)
        ensures
            final(self).total() == old(self).total(),
            final(self).limit() == old(self).limit(),
            final(self).issued() == old(self).issued(),
            noted == (old(self).in_flight() > 0),
            final(self).completed() == if noted {
                old(self).completed() + 1
            } else {
                old(self).completed()
            },
            0 <= final(self).in_flight() <= final(self).limit(),
    {
        proof {
            use_type_invariant(&*self);
        }
        if self.completed < self.issued {
            self.completed = self.completed + 1;
            true
        } else {
            false
        }
    }
}

/// How the window of one request ended.
#[derive(Clone, Copy, Debug, PartialEq, Eq, Structural)]
pub enum WindowOutcome {
    /// Every record of the window was stored.
    Stored,
    /// The request failed, or its body was not a payload.
    FetchFailed,
    /// A row of the payload was rejected.
    ParseFailed,
    /// A record could not be stored.
    StoreFailed,
}

/// How a rejected payload counts in the tally: a body that does not decode
/// counts as a failed fetch.
pub open spec fn failure_kind(e: IngestError) -> WindowOutcome {
    match e {
        IngestError::Decode(_) => WindowOutcome::FetchFailed,
        IngestError::Parse(_) => WindowOutcome::ParseFailed,
        IngestError::Store(_) => WindowOutcome::StoreFailed,
    }
}

/// The kind under which a rejected payload is counted.
pub fn classify(e: &IngestError) -> (r: WindowOutcome)
    ensures
        r == failure_kind(*e),
{
    match e {
        IngestError::Decode(_) => WindowOutcome::FetchFailed,
        IngestError::Parse(_) => WindowOutcome::ParseFailed,
        IngestError::Store(_) => WindowOutcome::StoreFailed,
    }
}

/// The tally of one unit of work: how many of its windows ended in each way.
/// A count that reaches `u64::MAX` stays there.
#[derive(Clone, Copy, Debug, PartialEq, Eq, Structural)]
pub struct UnitReport {
    pub stored: u64,
    pub fetch_failed: u64,
    pub parse_failed: u64,
    pub store_failed: u64,
}

/// One more than `n`, unless `n` is the largest count there is.
pub open spec fn bumped(n: u64) -> u64 {
    if n < u64::MAX {
        (n + 1) as u64
    } else {
        n
    }
}

impl UnitReport {
    /// A tally without windows.
    pub fn new() -> (r: UnitReport)
        ensures
            r == (UnitReport { stored: 0, fetch_failed: 0, parse_failed: 0, store_failed: 0 }),
    {
        UnitReport { stored: 0, fetch_failed: 0, parse_failed: 0, store_failed: 0 }
    }

    /// The tally after one more window.
    pub open spec fn with(self, outcome: WindowOutcome) -> UnitReport {
        match outcome {
            WindowOutcome::Stored => UnitReport { stored: bumped(self.stored), ..self },
            WindowOutcome::FetchFailed => UnitReport {
                fetch_failed: bumped(self.fetch_failed),
                ..self
            },
            WindowOutcome::ParseFailed => UnitReport {
                parse_failed: bumped(self.parse_failed),
                ..self
            },
            WindowOutcome::StoreFailed => UnitReport {
                store_failed: bumped(self.store_failed),
                ..self
            },
        }
    }

    /// Counts one window.
    pub fn record(&mut self, outcome: WindowOutcome)
        ensures
            *final(self) == old(self).with(outcome),
    {
        match outcome {
            WindowOutcome::Stored => {
                self.stored = self.stored.saturating_add(1);
            },
            WindowOutcome::FetchFailed => {
                self.fetch_failed = self.fetch_failed.saturating_add(1);
            },
            WindowOutcome::ParseFailed => {
                self.parse_failed = self.parse_failed.saturating_add(1);
            },
            WindowOutcome::StoreFailed => {
                self.store_failed = self.store_failed.saturating_add(1);
            },
        }
    }

    /// Number of windows that failed, in whatever way.
    pub fn failed(&self) -> (r: u64)
        ensures
            r == if self.fetch_failed + self.parse_failed + self.store_failed <= u64::MAX {
                (self.fetch_failed + self.parse_failed + self.store_failed) as u64
            } else {
                u64::MAX
            },
    {
        self.fetch_failed.saturating_add(self.parse_failed).saturating_add(self.store_failed)
    }
}

} // verus!
