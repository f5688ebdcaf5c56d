//! What is known of the containers that run, and when it has to be looked up again.
use crate::compose::{RuntimeState, RuntimeStateView};
use crate::duplicate::{self, Duplicate};
use crate::registry;
use vstd::prelude::*;

verus! {

/// What was last seen of the services of a project.
#[derive(Debug)]
pub struct RuntimeStateCache {
    states: Option<Vec<(String, RuntimeState)>>,
    last_attempt: Option<u128>,
    refreshing: bool,
    error: Option<String>,
}

pub struct RuntimeStateCacheView {
    pub states: Option<Seq<(Seq<char>, RuntimeStateView)>>,
    /// When a look was last begun, in nanoseconds.
    pub last_attempt: Option<u128>,
    pub refreshing: bool,
    pub error: Option<Seq<char>>,
}

impl DeepView for RuntimeStateCache {
    type V = RuntimeStateCacheView;

    closed spec fn deep_view(&self) -> RuntimeStateCacheView {
        RuntimeStateCacheView {
            states: self.states.deep_view(),
            last_attempt: self.last_attempt,
            refreshing: self.refreshing,
            error: self.error.deep_view(),
        }
    }
}

/// What is known, and whether somebody has to look again.
#[derive(Debug)]
pub struct RuntimeStateSnapshot {
    pub states: Option<Vec<(String, RuntimeState)>>,
    pub refreshing: bool,
    pub error: Option<String>,
    /// Whether it is the caller who has to look.
    pub start_refresh: bool,
}

pub struct RuntimeStateSnapshotView {
    pub states: Option<Seq<(Seq<char>, RuntimeStateView)>>,
    pub refreshing: bool,
    pub error: Option<Seq<char>>,
    pub start_refresh: bool,
}

impl DeepView for RuntimeStateSnapshot {
    type V = RuntimeStateSnapshotView;

    open spec fn deep_view(&self) -> RuntimeStateSnapshotView {
        RuntimeStateSnapshotView {
            states: self.states.deep_view(),
            refreshing: self.refreshing,
            error: self.error.deep_view(),
            start_refresh: self.start_refresh,
        }
    }
}

impl Duplicate for RuntimeStateSnapshot {
    fn duplicate(&self) -> (r: Self) {
        RuntimeStateSnapshot {
            states: self.states.duplicate(),
            refreshing: self.refreshing,
            error: self.error.duplicate(),
            start_refresh: self.start_refresh,
        }
    }
}

impl Default for RuntimeStateCache {
    fn default() -> (r: Self)
        ensures
            r.deep_view() == (RuntimeStateCacheView {
                states: None,
                last_attempt: None,
                refreshing: false,
                error: None,
            }),
    {
        RuntimeStateCache { states: None, last_attempt: None, refreshing: false, error: None }
    }
}

impl RuntimeStateCacheView {
    /// Whether somebody has to look again: the last look is too long ago, and nobody is looking.
    pub open spec fn is_due(self, now: u128, max_age_seconds: u64) -> bool {
        &&& !self.refreshing
        &&& match self.last_attempt {
            Some(at) => registry::elapsed(at, now) >= registry::nanoseconds(max_age_seconds),
            None => true,
        }
    }

    pub open spec fn after_snapshot(self, now: u128, max_age_seconds: u64) -> RuntimeStateCacheView {
        if self.is_due(now, max_age_seconds) {
            RuntimeStateCacheView { refreshing: true, last_attempt: Some(now), ..self }
        } else {
            self
        }
    }

    pub open spec fn completed(
        self,
        result: Result<Seq<(Seq<char>, RuntimeStateView)>, Seq<char>>,
    ) -> RuntimeStateCacheView {
        match result {
            Ok(states) => RuntimeStateCacheView {
                refreshing: false,
                states: Some(states),
                error: None,
                ..self
            },
            Err(error) => RuntimeStateCacheView { refreshing: false, error: Some(error), ..self },
        }
    }

    pub open spec fn invalidated(self) -> RuntimeStateCacheView {
        RuntimeStateCacheView { last_attempt: None, ..self }
    }

    pub open spec fn cleared(self) -> RuntimeStateCacheView {
        RuntimeStateCacheView { states: None, last_attempt: None, error: None, ..self }
    }
}

impl RuntimeStateCache {
    /// What is known at `now`, in nanoseconds. Where somebody has to look again, it is the caller.
    pub fn snapshot(&mut self, now: u128, max_age_seconds: u64) -> (r: RuntimeStateSnapshot)
        ensures
            final(self).deep_view() == old(self).deep_view().after_snapshot(now, max_age_seconds),
            r.deep_view() == (RuntimeStateSnapshotView {
                states: old(self).deep_view().states,
                refreshing: final(self).deep_view().refreshing,
                error: old(self).deep_view().error,
                start_refresh: old(self).deep_view().is_due(now, max_age_seconds),
            }),
    {
        let expired = match self.last_attempt {
            Some(at) => registry::is_stale(at, now, max_age_seconds),
            None => true,
        };
        let start_refresh = expired && !self.refreshing;
        if start_refresh {
            self.refreshing = true;
            self.last_attempt = Some(now);
        }
        RuntimeStateSnapshot {
            states: self.states.duplicate(),
            refreshing: self.refreshing,
            error: self.error.duplicate(),
            start_refresh,
        }
    }

    /// Ends a look. Where it failed, what was known before stays.
    pub fn complete(&mut self, result: Result<Vec<(String, RuntimeState)>, String>)
        ensures
            final(self).deep_view() == old(self).deep_view().completed(duplicate::outcome(result)),
    {
        self.refreshing = false;
        match result {
            Ok(states) => {
                self.states = Some(states);
                self.error = None;
            },
            Err(error) => {
                self.error = Some(error);
            },
        }
    }

    /// Has somebody look again, and keeps what is known until then.
    pub fn invalidate(&mut self)
        ensures
            final(self).deep_view() == old(self).deep_view().invalidated(),
    {
        self.last_attempt = None;
    }

    /// Forgets what is known.
    pub fn clear(&mut self)
        ensures
            final(self).deep_view() == old(self).deep_view().cleared(),
    {
        self.states = None;
        self.last_attempt = None;
        self.error = None;
    }
}

/// While somebody is looking, nobody else is sent.
pub proof fn law_one_look_at_a_time(
    c: RuntimeStateCacheView,
    first: u128,
    second: u128,
    max_age_seconds: u64,
)
    ensures
        !c.after_snapshot(first, max_age_seconds).is_due(second, max_age_seconds) || !c.is_due(
            first,
            max_age_seconds,
        ),
        c.is_due(first, max_age_seconds) ==> c.after_snapshot(first, max_age_seconds).refreshing,
        c.refreshing ==> !c.is_due(second, max_age_seconds),
{
}

/// A finished look is good for its time, and no longer.
pub proof fn law_looks_are_repeated_in_time(
    c: RuntimeStateCacheView,
    first: u128,
    second: u128,
    max_age_seconds: u64,
    result: Result<Seq<(Seq<char>, RuntimeStateView)>, Seq<char>>,
)
    requires
        c.is_due(first, max_age_seconds),
    ensures
        c.after_snapshot(first, max_age_seconds).completed(result).is_due(second, max_age_seconds)
            <==> registry::elapsed(first, second) >= registry::nanoseconds(max_age_seconds),
{
}

/// What was seen stays known when a later look fails and when a new look is asked for.
pub proof fn law_known_states_survive(
    c: RuntimeStateCacheView,
    error: Seq<char>,
    now: u128,
    max_age_seconds: u64,
)
    ensures
        c.completed(Err(error)).states == c.states,
        c.invalidated().states == c.states,
        c.after_snapshot(now, max_age_seconds).states == c.states,
        !c.refreshing ==> c.invalidated().is_due(now, max_age_seconds),
{
}

} // verus!
