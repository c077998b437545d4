//! Readiness sets, poll options and registrations, as plain values.

use vstd::prelude::*;

verus! {

/// A set of readiness kinds that a socket is interested in, or that an event
/// reports.
#[derive(Clone, Copy, Debug, PartialEq, Eq, Structural)]
pub struct EventSet {
    pub readable: bool,
    pub writable: bool,
    pub error: bool,
    pub hup: bool,
}

impl EventSet {
    /// The set that holds readability only, as a spec value.
    pub open spec fn readable_spec() -> EventSet {
        EventSet { readable: true, writable: false, error: false, hup: false }
    }

    /// The set that holds writability only, as a spec value.
    pub open spec fn writable_spec() -> EventSet {
        EventSet { readable: false, writable: true, error: false, hup: false }
    }

    /// The set that holds the hang-up kind only, as a spec value.
    pub open spec fn hup_spec() -> EventSet {
        EventSet { readable: false, writable: false, error: false, hup: true }
    }

    /// The empty set.
    pub fn none() -> (s: EventSet)
        ensures
            s == (EventSet { readable: false, writable: false, error: false, hup: false }),
    {
        EventSet { readable: false, writable: false, error: false, hup: false }
    }

    /// The set that holds readability only.
    pub fn readable() -> (s: EventSet)
        ensures
            s == (EventSet { readable: true, writable: false, error: false, hup: false }),
    {
        EventSet { readable: true, writable: false, error: false, hup: false }
    }

    /// The set that holds writability only.
    pub fn writable() -> (s: EventSet)
        ensures
            s == (EventSet { readable: false, writable: true, error: false, hup: false }),
    {
        EventSet { readable: false, writable: true, error: false, hup: false }
    }

    /// The set that holds the error kind only.
    pub fn error() -> (s: EventSet)
        ensures
            s == (EventSet { readable: false, writable: false, error: true, hup: false }),
    {
        EventSet { readable: false, writable: false, error: true, hup: false }
    }

    /// The set that holds the hang-up kind only.
    pub fn hup() -> (s: EventSet)
        ensures
            s == (EventSet { readable: false, writable: false, error: false, hup: true }),
    {
        EventSet { readable: false, writable: false, error: false, hup: true }
    }

    /// The union of two sets, as a spec value.
    pub open spec fn union_spec(self, other: EventSet) -> EventSet {
        EventSet {
            readable: self.readable || other.readable,
            writable: self.writable || other.writable,
            error: self.error || other.error,
            hup: self.hup || other.hup,
        }
    }

    /// `self` without the kinds of `other`, as a spec value.
    pub open spec fn difference_spec(self, other: EventSet) -> EventSet {
        EventSet {
            readable: self.readable && !other.readable,
            writable: self.writable && !other.writable,
            error: self.error && !other.error,
            hup: self.hup && !other.hup,
        }
    }

    /// Adds the kinds of `other` to `self`.
    pub fn insert(&mut self, other: EventSet)
        ensures
            *final(self) == old(self).union_spec(other),
    {
        self.readable = self.readable || other.readable;
        self.writable = self.writable || other.writable;
        self.error = self.error || other.error;
        self.hup = self.hup || other.hup;
    }

    /// Removes the kinds of `other` from `self`.
    pub fn remove(&mut self, other: EventSet)
        ensures
            *final(self) == old(self).difference_spec(other),
    {
        self.readable = self.readable && !other.readable;
        self.writable = self.writable && !other.writable;
        self.error = self.error && !other.error;
        self.hup = self.hup && !other.hup;
    }

    /// Whether the set holds readability.
    pub fn is_readable(&self) -> (b: bool)
        ensures
            b == self.readable,
    {
        self.readable
    }

    /// Whether the set holds writability.
    pub fn is_writable(&self) -> (b: bool)
        ensures
            b == self.writable,
    {
        self.writable
    }
}

/// Adding kinds and then removing them leaves the set without them, and
/// as it was in every other kind.
pub proof fn law_insert_then_remove(s: EventSet, x: EventSet)
    ensures
        s.union_spec(x).difference_spec(x) == s.difference_spec(x),
{
}

/// Adding kinds that the set already holds changes nothing.
pub proof fn law_insert_idempotent(s: EventSet, x: EventSet)
    ensures
        s.union_spec(x).union_spec(x) == s.union_spec(x),
{
}

/// Removing one kind never touches another: removing writability keeps
/// readability, and the other way round.
pub proof fn law_remove_keeps_other_kinds(s: EventSet)
    ensures
        s.difference_spec(EventSet::writable_spec()).readable == s.readable,
        s.difference_spec(EventSet::readable_spec()).writable == s.writable,
{
}

/// How a registration is triggered.
#[derive(Clone, Copy, Debug, PartialEq, Eq, Structural)]
pub struct PollOpt {
    pub edge: bool,
    pub level: bool,
    pub oneshot: bool,
}

impl PollOpt {
    /// Edge triggered and oneshot, as a spec value.
    pub open spec fn edge_oneshot_spec() -> PollOpt {
        PollOpt { edge: true, level: false, oneshot: true }
    }

    /// Edge triggered, and disarmed after the first event: the options that
    /// every registration of these servers uses.
    pub fn edge_oneshot() -> (o: PollOpt)
        ensures
            o == (PollOpt { edge: true, level: false, oneshot: true }),
    {
        PollOpt { edge: true, level: false, oneshot: true }
    }
}

/// What the caller is to hand to the event loop's `register` or `reregister`.
#[derive(Clone, Copy, Debug, PartialEq, Eq, Structural)]
pub struct Registration {
    pub token: usize,
    pub interest: EventSet,
    pub opts: PollOpt,
}

} // verus!
