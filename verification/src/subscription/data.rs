//! Per-connection state of datatypes that are expensive to keep.

use crate::conntrack::conn_state::StateTransition;
use crate::conntrack::pdu::L4Pdu;
use crate::time::Instant;
use vstd::prelude::*;

verus! {

/// A datatype that is kept throughout all or part of a connection.
pub trait TrackedData: Sized {
    /// Initializes internal data on the first PDU in a connection. `now` is what the clock
    /// reads.
    fn new(first_pkt: &L4Pdu, now: Instant) -> Self;

    /// Clears internal data.
    fn clear(&mut self);
}

/// Can be requested in a callback: the text of the filter pattern, that is, the list of
/// predicates, that led to the callback being invoked. If several patterns match, it is the
/// one that matches first.
pub type FilterStr<'a> = &'a str;

#[derive(Debug, Clone, Copy, PartialEq, Eq, Structural)]
pub enum DatatypeState {
    /// Should be updated.
    Active,
    /// In a state transition that decides whether it stays active.
    Pending,
    /// No longer active at all.
    Inactive,
}

/// A set of state transitions, one bit each.
pub open spec fn has_transition(set: u8, tx: StateTransition) -> bool {
    set & (1u8 << (tx.index() as u8)) != 0
}

/// The part of the wrapper that decides whether its data is still needed.
pub struct Lifecycle {
    pub state: DatatypeState,
    pub refresh_at: u8,
}

impl Lifecycle {
    /// Goes out of scope.
    pub open spec fn cleared(self) -> Lifecycle {
        Lifecycle { state: DatatypeState::Inactive, refresh_at: 0 }
    }

    /// A transition begins: active data that is to be refreshed at it becomes pending.
    pub open spec fn started(self, tx: StateTransition) -> Lifecycle {
        if self.state == DatatypeState::Active && has_transition(self.refresh_at, tx) {
            Lifecycle { state: DatatypeState::Pending, ..self }
        } else {
            self
        }
    }

    /// A subscription needs the data until the transitions `txs`.
    pub open spec fn needed_until(self, txs: u8) -> Lifecycle {
        Lifecycle { state: DatatypeState::Active, refresh_at: self.refresh_at | txs }
    }

    /// A transition ends: data that is still pending goes out of scope.
    pub open spec fn ended(self) -> Lifecycle {
        if self.state == DatatypeState::Pending {
            self.cleared()
        } else {
            self
        }
    }
}

/// Data that no subscription claims during a transition it is refreshed at goes out of
/// scope at the end of it.
pub proof fn law_unclaimed_data_goes_out_of_scope(l: Lifecycle, tx: StateTransition)
    requires
        l.state == DatatypeState::Active,
        has_transition(l.refresh_at, tx),
    ensures
        l.started(tx).ended() == l.cleared(),
{
}

/// Data that some subscription claims during a transition stays active through it.
pub proof fn law_claimed_data_stays_active(l: Lifecycle, tx: StateTransition, txs: u8)
    ensures
        l.started(tx).needed_until(txs).ended().state == DatatypeState::Active,
{
}

/// A transition that the data is not refreshed at does not affect it.
pub proof fn law_other_transitions_do_not_affect_data(l: Lifecycle, tx: StateTransition)
    requires
        l.state != DatatypeState::Pending,
        !has_transition(l.refresh_at, tx),
    ensures
        l.started(tx).ended() == l,
{
}

/// Inactive data stays inactive through transitions that no subscription claims it in.
pub proof fn law_inactive_data_stays_inactive(l: Lifecycle, tx: StateTransition)
    requires
        l.state == DatatypeState::Inactive,
    ensures
        l.started(tx).ended() == l,
{
}

/// Wraps a datatype that is specified as expensive, to tell when it is still needed by
/// active subscriptions.
#[derive(Debug)]
pub struct TrackedDataWrapper<T: TrackedData> {
    /// The wrapped data.
    pub data: T,
    /// Whether to continue updating.
    pub state: DatatypeState,
    /// The transitions to refresh at, one bit each.
    pub refresh_at: u8,
}

impl<T: TrackedData> TrackedDataWrapper<T> {
    pub open spec fn lifecycle(&self) -> Lifecycle {
        Lifecycle { state: self.state, refresh_at: self.refresh_at }
    }

    pub fn new(pdu: &L4Pdu, now: Instant) -> (w: TrackedDataWrapper<T>)
        ensures
            w.state == DatatypeState::Active,
            w.refresh_at == 0,
            call_ensures(T::new, (pdu, now), w.data),
    {
        TrackedDataWrapper { data: T::new(pdu, now), state: DatatypeState::Active, refresh_at: 0 }
    }

    /// Clears the data; it is no longer needed.
    pub fn clear(&mut self)
        ensures
            final(self).lifecycle() == old(self).lifecycle().cleared(),
            exists|r: &mut T|
                *r == old(self).data && *final(r) == final(self).data && #[trigger] call_ensures(
                    T::clear,
                    (r,),
                    (),
                ),
    {
        self.data.clear();
        self.state = DatatypeState::Inactive;
        self.refresh_at = 0;
    }

    pub fn start_state_tx(&mut self, tx: &StateTransition)
        ensures
            final(self).lifecycle() == old(self).lifecycle().started(*tx),
            final(self).data == old(self).data,
    {
        let bit: u8 = 1u8 << (tx.as_usize() as u8);
        if matches!(self.state, DatatypeState::Active) && self.refresh_at & bit != 0 {
            self.state = DatatypeState::Pending;
        }
    }

    pub fn set_active_until(&mut self, txs: u8)
        ensures
            final(self).lifecycle() == old(self).lifecycle().needed_until(txs),
            final(self).data == old(self).data,
    {
        self.state = DatatypeState::Active;
        self.refresh_at = self.refresh_at | txs;
    }

    /// Returns `true` if the data is to be updated. Includes pending data, so that
    /// functions can still be invoked within a transition.
    pub fn is_active(&self) -> (b: bool)
        ensures
            b == (self.state != DatatypeState::Inactive),
    {
        matches!(self.state, DatatypeState::Active | DatatypeState::Pending)
    }

    pub fn end_state_tx(&mut self)
        ensures
            final(self).lifecycle() == old(self).lifecycle().ended(),
            old(self).state != DatatypeState::Pending ==> final(self).data == old(self).data,
            old(self).state == DatatypeState::Pending ==> exists|r: &mut T|
                *r == old(self).data && *final(r) == final(self).data && #[trigger] call_ensures(
                    T::clear,
                    (r,),
                    (),
                ),
    {
        if matches!(self.state, DatatypeState::Pending) {
            self.clear();
        }
    }
}

} // verus!
