//! One-time resolution of the database: the destinations are enumerated at
//! most once, by whoever asks first, and what that enumeration gave stands
//! from then on.

use crate::db::{Database, DbError, DbErrorView, Enumeration};
use crate::destination::{listing_text, resolved};
use vstd::prelude::*;

verus! {

/// What the one who asks for the database is told to do.
#[derive(Clone, Copy, Debug, PartialEq, Eq, Structural)]
pub enum ResolveStep {
    /// Nobody has enumerated yet: do it, and report with `finish`.
    Enumerate,
    /// Somebody else is enumerating: wait, and ask again.
    Wait,
    /// The database is resolved.
    Ready,
    /// The enumeration failed: there is no database, and there will be none.
    Failed,
}

/// Where the resolution stands.
pub enum ResolverState {
    Idle,
    Pending,
    Ready(Map<Seq<char>, u32>),
    Failed(DbErrorView),
}

/// What an enumeration comes to.
pub open spec fn enumeration_outcome(enumeration: Enumeration) -> Result<
    Map<Seq<char>, u32>,
    DbErrorView,
> {
    match enumeration {
        Enumeration::CallFailed(reason) => Err(
            DbErrorView::SpaceDiscovery("Failed to call get_spaces: "@ + reason@),
        ),
        Enumeration::DecodeFailed(reason) => Err(DbErrorView::Connection(reason@)),
        Enumeration::Listed(listing) => Ok(resolved(listing_text(listing@))),
    }
}

/// The step that is answered in a state.
pub open spec fn step_in(state: ResolverState) -> ResolveStep {
    match state {
        ResolverState::Idle => ResolveStep::Enumerate,
        ResolverState::Pending => ResolveStep::Wait,
        ResolverState::Ready(_) => ResolveStep::Ready,
        ResolverState::Failed(_) => ResolveStep::Failed,
    }
}

/// The state after somebody asked: the first to ask turns the resolver
/// pending, and asking changes nothing after that.
pub open spec fn after_begin(state: ResolverState) -> ResolverState {
    match state {
        ResolverState::Idle => ResolverState::Pending,
        other => other,
    }
}

/// The state after an enumeration was reported: it settles a pending
/// resolver, and is ignored in every other state.
pub open spec fn after_finish(
    state: ResolverState,
    outcome: Result<Map<Seq<char>, u32>, DbErrorView>,
) -> ResolverState {
    match state {
        ResolverState::Pending => match outcome {
            Ok(map) => ResolverState::Ready(map),
            Err(e) => ResolverState::Failed(e),
        },
        other => other,
    }
}

/// One call on a resolver.
pub enum ResolverCall {
    Begin,
    Finish(Result<Map<Seq<char>, u32>, DbErrorView>),
}

/// The state after a sequence of calls.
pub open spec fn state_after(state: ResolverState, calls: Seq<ResolverCall>) -> ResolverState
    decreases calls.len(),
{
    if calls.len() == 0 {
        state
    } else {
        let before = state_after(state, calls.drop_last());
        match calls.last() {
            ResolverCall::Begin => after_begin(before),
            ResolverCall::Finish(outcome) => after_finish(before, outcome),
        }
    }
}

/// How many of the calls were told to enumerate.
pub open spec fn enumerations(state: ResolverState, calls: Seq<ResolverCall>) -> nat
    decreases calls.len(),
{
    if calls.len() == 0 {
        0
    } else {
        let before = state_after(state, calls.drop_last());
        let earlier = enumerations(state, calls.drop_last());
        if calls.last() is Begin && step_in(before) == ResolveStep::Enumerate {
            earlier + 1
        } else {
            earlier
        }
    }
}

/// Whatever calls are made on a resolver, and in whatever order, at most one
/// of them is told to enumerate; and once a call was, the resolver is never
/// idle again.
pub proof fn lemma_enumerated_at_most_once(calls: Seq<ResolverCall>)
    ensures
        enumerations(ResolverState::Idle, calls) <= 1,
        enumerations(ResolverState::Idle, calls) == 1 ==> !(state_after(
            ResolverState::Idle,
            calls,
        ) is Idle),
        enumerations(ResolverState::Idle, calls) == 0 ==> state_after(
            ResolverState::Idle,
            calls,
        ) is Idle,
    decreases calls.len(),
{
    if calls.len() > 0 {
        lemma_enumerated_at_most_once(calls.drop_last());
    }
}

/// Once the resolver is ready, the map it holds is never replaced.
pub proof fn lemma_resolved_for_good(
    map: Map<Seq<char>, u32>,
    calls: Seq<ResolverCall>,
)
    ensures
        state_after(ResolverState::Ready(map), calls) == ResolverState::Ready(map),
        enumerations(ResolverState::Ready(map), calls) == 0,
    decreases calls.len(),
{
    if calls.len() > 0 {
        lemma_resolved_for_good(map, calls.drop_last());
    }
}

enum Progress {
    Idle,
    Pending,
    Ready(Database),
    Failed(DbError),
}

/// Holds the database of the process, resolved on first use.
pub struct Resolver {
    progress: Progress,
}

impl View for Resolver {
    type V = ResolverState;

    closed spec fn view(&self) -> ResolverState {
        match self.progress {
            Progress::Idle => ResolverState::Idle,
            Progress::Pending => ResolverState::Pending,
            Progress::Ready(db) => ResolverState::Ready(db.space_ids@),
            Progress::Failed(e) => ResolverState::Failed(e@),
        }
    }
}

impl Resolver {
    /// A resolver that nobody has asked yet.
    pub fn new() -> (r: Resolver)
        ensures
            r@ is Idle,
    {
        Resolver { progress: Progress::Idle }
    }

    /// Asks for the database. Only the first to ask is told to enumerate.
    pub fn begin(&mut self) -> (step: ResolveStep)
        ensures
            step == step_in(old(self)@),
            final(self)@ == after_begin(old(self)@),
    {
        match &self.progress {
            Progress::Idle => {
                self.progress = Progress::Pending;
                ResolveStep::Enumerate
            },
            Progress::Pending => ResolveStep::Wait,
            Progress::Ready(_) => ResolveStep::Ready,
            Progress::Failed(_) => ResolveStep::Failed,
        }
    }

    /// Reports what the enumeration gave. Returns whether the report was
    /// taken: it is only while the resolver is pending.
    pub fn finish(&mut self, enumeration: Enumeration) -> (taken: bool)
        ensures
            taken == (old(self)@ is Pending),
            final(self)@ == after_finish(old(self)@, enumeration_outcome(enumeration)),
    {
        match &self.progress {
            Progress::Pending => {
                match Database::new(enumeration) {
                    Ok(db) => {
                        self.progress = Progress::Ready(db);
                    },
                    Err(e) => {
                        self.progress = Progress::Failed(e);
                    },
                }
                true
            },
            _ => false,
        }
    }

    /// The database, once it is resolved.
    pub fn database(&self) -> (r: Option<&Database>)
        ensures
            match self@ {
                ResolverState::Ready(map) => r matches Some(db) && db.space_ids@ == map,
                _ => r is None,
            },
    {
        match &self.progress {
            Progress::Ready(db) => Some(db),
            _ => None,
        }
    }

    /// Why there is no database, where the enumeration failed.
    pub fn failure(&self) -> (r: Option<&DbError>)
        ensures
            match self@ {
                ResolverState::Failed(e) => r matches Some(error) && error@ == e,
                _ => r is None,
            },
    {
        match &self.progress {
            Progress::Failed(e) => Some(e),
            _ => None,
        }
    }
}

} // verus!
