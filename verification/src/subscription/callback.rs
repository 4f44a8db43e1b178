//! Per-connection state of callbacks.

use crate::conntrack::pdu::L4Pdu;
use vstd::prelude::*;

verus! {

/// A stateful callback.
pub trait StreamingCallback: Sized {
    /// Initializes internal data. Called on the first packet in a connection, whether or
    /// not the callback's filter has matched.
    fn new(first_pkt: &L4Pdu) -> Self;

    /// Clears internal data. Called when the callback unsubscribes.
    fn clear(&mut self);
}

#[derive(Debug, Clone, Copy, PartialEq, Eq, Structural)]
pub enum CallbackState {
    /// A filter pattern has matched: the callback is to be invoked.
    Active,
    /// No filter pattern has matched yet.
    Matching,
    /// The callback no longer wants this connection.
    Unsubscribed,
}

impl CallbackState {
    /// The state after a filter pattern has matched.
    pub open spec fn matched(self) -> CallbackState {
        if self == CallbackState::Unsubscribed {
            self
        } else {
            CallbackState::Active
        }
    }
}

/// What can happen to a callback on a connection.
pub enum CallbackEvent {
    /// A filter pattern matched.
    Match,
    /// The callback unsubscribed.
    Unsubscribe,
}

/// The state after a run of events.
pub open spec fn state_after(s: CallbackState, events: Seq<CallbackEvent>) -> CallbackState
    decreases events.len(),
{
    if events.len() == 0 {
        s
    } else {
        let before = state_after(s, events.drop_last());
        match events.last() {
            CallbackEvent::Match => before.matched(),
            CallbackEvent::Unsubscribe => CallbackState::Unsubscribed,
        }
    }
}

/// A callback that has unsubscribed from a connection stays unsubscribed, whatever matches
/// later.
pub proof fn law_unsubscribing_is_permanent(events: Seq<CallbackEvent>)
    ensures
        state_after(CallbackState::Unsubscribed, events) == CallbackState::Unsubscribed,
    decreases events.len(),
{
    if events.len() > 0 {
        law_unsubscribing_is_permanent(events.drop_last());
    }
}

/// A callback that has neither unsubscribed nor matched is subscribed but not active.
pub proof fn law_active_only_after_a_match(events: Seq<CallbackEvent>)
    ensures
        state_after(CallbackState::Matching, events) == CallbackState::Active ==> exists|i: int|
            0 <= i < events.len() && events[i] is Match,
    decreases events.len(),
{
    if events.len() > 0 {
        law_active_only_after_a_match(events.drop_last());
        if events.last() is Match {
            assert(events[events.len() - 1] is Match);
        } else if state_after(CallbackState::Matching, events) == CallbackState::Active {
            let i = choose|i: int|
                0 <= i < events.drop_last().len() && events.drop_last()[i] is Match;
            assert(events[i] is Match);
        }
    }
}

/// Wrapper for a stateful callback that is invoked in a streaming state or has multiple
/// functions.
#[derive(Debug)]
pub struct StreamCallbackWrapper<C: StreamingCallback> {
    pub state: CallbackState,
    pub callback: C,
}

impl<C: StreamingCallback> StreamCallbackWrapper<C> {
    pub fn new(first_pkt: &L4Pdu) -> (w: StreamCallbackWrapper<C>)
        ensures
            w.state == CallbackState::Matching,
            call_ensures(C::new, (first_pkt,), w.callback),
    {
        StreamCallbackWrapper { state: CallbackState::Matching, callback: C::new(first_pkt) }
    }

    /// Returns true if the callback should be invoked.
    pub fn is_active(&self) -> (b: bool)
        ensures
            b == (self.state == CallbackState::Active),
    {
        matches!(self.state, CallbackState::Active)
    }

    /// Returns true while the callback may still match, that is, it has not unsubscribed.
    /// Actions that keep a connection alive so that the callback can eventually match must
    /// be gated on this rather than on `is_active`.
    pub fn is_subscribed(&self) -> (b: bool)
        ensures
            b == (self.state != CallbackState::Unsubscribed),
    {
        !matches!(self.state, CallbackState::Unsubscribed)
    }

    /// Invoked when a filter pattern for the callback has matched.
    pub fn try_set_active(&mut self)
        ensures
            final(self).state == old(self).state.matched(),
            final(self).callback == old(self).callback,
    {
        if !matches!(self.state, CallbackState::Unsubscribed) {
            self.state = CallbackState::Active;
        }
    }

    /// Invoked when the callback has unsubscribed. An active callback clears its data.
    pub fn set_inactive(&mut self)
        ensures
            final(self).state == CallbackState::Unsubscribed,
            old(self).state != CallbackState::Active ==> final(self).callback == old(self).callback,
            old(self).state == CallbackState::Active ==> exists|r: &mut C|
                *r == old(self).callback && *final(r) == final(self).callback && #[trigger] call_ensures(
                    C::clear,
                    (r,),
                    (),
                ),
    {
        if matches!(self.state, CallbackState::Active) {
            self.callback.clear();
        }
        self.state = CallbackState::Unsubscribed;
    }

    /// Invoked when a callback goes out of scope.
    pub fn clear(&mut self)
        ensures
            final(self).state == old(self).state,
            exists|r: &mut C|
                *r == old(self).callback && *final(r) == final(self).callback && #[trigger] call_ensures(
                    C::clear,
                    (r,),
                    (),
                ),
    {
        self.callback.clear();
    }
}

/// Wrapper around a streaming callback that does not maintain state.
#[derive(Debug, Clone, Copy, PartialEq, Eq, Structural)]
pub struct StatelessCallbackWrapper {
    pub state: CallbackState,
}

impl StatelessCallbackWrapper {
    pub fn new(_first_pkt: &L4Pdu) -> (w: StatelessCallbackWrapper)
        ensures
            w.state == CallbackState::Matching,
    {
        StatelessCallbackWrapper { state: CallbackState::Matching }
    }

    pub fn is_active(&self) -> (b: bool)
        ensures
            b == (self.state == CallbackState::Active),
    {
        matches!(self.state, CallbackState::Active)
    }

    /// See `StreamCallbackWrapper::is_subscribed`.
    pub fn is_subscribed(&self) -> (b: bool)
        ensures
            b == (self.state != CallbackState::Unsubscribed),
    {
        !matches!(self.state, CallbackState::Unsubscribed)
    }

    pub fn try_set_active(&mut self)
        ensures
            final(self).state == old(self).state.matched(),
    {
        if !matches!(self.state, CallbackState::Unsubscribed) {
            self.state = CallbackState::Active;
        }
    }

    pub fn set_inactive(&mut self)
        ensures
            final(self).state == CallbackState::Unsubscribed,
    {
        self.state = CallbackState::Unsubscribed;
    }
}

/// Ensures that a callback is invoked once per connection or session, where a subscription
/// specifies a streaming filter and a non-streaming callback.
#[derive(Debug, Clone, Copy, PartialEq, Eq, Structural)]
pub struct StaticCallbackWrapper {
    pub invoked: bool,
}

/// How often the callback is invoked over `n` occasions: on each it is, if it should be, and
/// is marked as invoked.
pub open spec fn invocations(w: StaticCallbackWrapper, n: nat) -> nat
    decreases n,
{
    if n == 0 {
        0
    } else if w.invoked {
        invocations(w, (n - 1) as nat)
    } else {
        1 + invocations(StaticCallbackWrapper { invoked: true }, (n - 1) as nat)
    }
}

/// The callback is invoked at most once, however many patterns match.
pub proof fn law_callback_is_invoked_at_most_once(w: StaticCallbackWrapper, n: nat)
    ensures
        invocations(w, n) <= 1,
        w.invoked ==> invocations(w, n) == 0,
    decreases n,
{
    if n > 0 {
        law_callback_is_invoked_at_most_once(
            StaticCallbackWrapper { invoked: true },
            (n - 1) as nat,
        );
    }
}

impl StaticCallbackWrapper {
    pub fn new(_first_pkt: &L4Pdu) -> (w: StaticCallbackWrapper)
        ensures
            !w.invoked,
    {
        StaticCallbackWrapper { invoked: false }
    }

    pub fn should_invoke(&self) -> (b: bool)
        ensures
            b == !self.invoked,
    {
        !self.invoked
    }

    pub fn set_invoked(&mut self)
        ensures
            final(self).invoked,
    {
        self.invoked = true;
    }
}

/// A match makes a callback active unless it has unsubscribed, which no match undoes; whether
/// it is active, and whether it is subscribed, is told by its state alone.
pub proof fn law_matches_activate_subscribed_callbacks(was: StatelessCallbackWrapper)
    ensures
        forall|w: &mut StatelessCallbackWrapper, b: bool|
            *w == was && #[trigger] call_ensures(StatelessCallbackWrapper::try_set_active, (w,), ())
                && #[trigger] call_ensures(StatelessCallbackWrapper::is_subscribed, (&was,), b)
                ==> {
                &&& b ==> (*final(w)).state == CallbackState::Active
                &&& !b ==> (*final(w)).state == CallbackState::Unsubscribed
            },
        forall|w: &mut StatelessCallbackWrapper, a: bool, b: bool| #[trigger]
            call_ensures(StatelessCallbackWrapper::set_inactive, (w,), ()) && #[trigger]
            call_ensures(StatelessCallbackWrapper::is_active, (&*final(w),), a) && #[trigger]
            call_ensures(StatelessCallbackWrapper::is_subscribed, (&*final(w),), b) ==> !a && !b,
        forall|w: &mut StaticCallbackWrapper, b: bool| #[trigger]
            call_ensures(StaticCallbackWrapper::set_invoked, (w,), ()) && #[trigger] call_ensures(
                StaticCallbackWrapper::should_invoke,
                (&*final(w),),
                b,
            ) ==> !b,
{
}

} // verus!
