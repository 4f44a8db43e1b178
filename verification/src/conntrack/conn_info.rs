//! Per-connection state for subscription management.

use crate::conntrack::conn_state::{LayerState, StateTransition};
use crate::conntrack::pdu::{FiveTuple, L4Pdu};
use crate::conntrack::reassembly::StreamConsumer;
use crate::conntrack::tcp::TCP_PROTOCOL;
use vstd::prelude::*;

verus! {

/// A call that changes what an application keeps on a connection, with its arguments and
/// its answer.
pub enum AppCall {
    /// Every layer enters a transition.
    Start(StateTransition),
    /// The filters and callbacks for a transition run, on the packet if there is one.
    Run(StateTransition, Option<L4Pdu>),
    /// The layers above the transport layer leave a transition.
    End,
    /// The transport layer is to pass data on.
    NextLayer,
    /// The streaming functions take a packet; the answer is whether the actions may need to
    /// be refreshed.
    Update(L4Pdu, StateTransition, bool),
    /// The layer above takes a segment; the answer is the transition that it led to, and
    /// what is left of the segment.
    Process(L4Pdu, StateTransition, L4Pdu),
    /// The layer above is asked for a transition that it owes.
    Settle(Option<StateTransition>),
    /// All internal data is cleared.
    Clear,
}

/// What a subscribed application keeps on a connection and decides about it: the data it
/// tracks, the actions it has asked for at each layer, and the layers above the transport
/// layer.
pub trait Trackable: Sized {
    /// The application can get from one state to the other by the call. An application that
    /// says nothing here promises nothing of what its calls do.
    open spec fn step(before: Self, call: AppCall, after: Self) -> bool {
        true
    }

    /// A bound on the transitions that the layer above still owes. Each that it hands over
    /// leaves fewer, and going through a transition adds none.
    open spec fn owed(&self) -> nat {
        0
    }

    /// Starts tracking, on the first packet of a connection.
    fn new(first_pkt: &L4Pdu, core_id: u32) -> Self;

    /// The transport layer's actions ask for every packet as it arrives.
    fn needs_update(&self) -> bool;

    /// The transport layer's actions ask for the reassembled stream.
    fn needs_parse(&self) -> bool;

    /// Some layer above the transport layer asks for the reassembled stream.
    fn needs_stream(&self) -> bool;

    /// No layer's actions change at this transition.
    fn skip_tx(&self, tx: StateTransition) -> bool;

    /// Every layer enters a transition.
    fn start_state_tx(&mut self, tx: StateTransition)
        ensures
            Self::step(*old(self), AppCall::Start(tx), *final(self)),
            final(self).owed() <= old(self).owed(),
    ;

    /// The application's filters and callbacks for a transition.
    fn state_tx(&mut self, tx: StateTransition, pdu: Option<&L4Pdu>)
        ensures
            Self::step(
                *old(self),
                AppCall::Run(
                    tx,
                    match pdu {
                        Some(p) => Some(*p),
                        None => None,
                    },
                ),
                *final(self),
            ),
            final(self).owed() <= old(self).owed(),
    ;

    /// The layers above the transport layer leave a transition.
    fn end_state_tx(&mut self)
        ensures
            Self::step(*old(self), AppCall::End, *final(self)),
            final(self).owed() <= old(self).owed(),
    ;

    /// The transport layer has no actions left.
    fn l4_done(&self) -> bool;

    /// No layer above the transport layer has actions left.
    fn layers_done(&self) -> bool;

    /// The transport layer is to pass data on.
    fn set_next_layer(&mut self)
        ensures
            Self::step(*old(self), AppCall::NextLayer, *final(self)),
            final(self).owed() <= old(self).owed(),
    ;

    /// Hands a packet to the application's streaming functions for `tx`. Returns `true` if
    /// the actions may need to be refreshed.
    fn update(&mut self, pdu: &L4Pdu, tx: StateTransition) -> (refresh: bool)
        ensures
            Self::step(*old(self), AppCall::Update(*pdu, tx, refresh), *final(self)),
    ;

    /// Hands a segment of the stream to the layer above, which says what it led to.
    fn process_stream(&mut self, pdu: &mut L4Pdu) -> (tx: StateTransition)
        ensures
            Self::step(*old(self), AppCall::Process(*old(pdu), tx, *final(pdu)), *final(self)),
    ;

    /// The layer above asks for the same segment once more.
    fn needs_process(&self, tx: StateTransition, pdu: &L4Pdu) -> bool;

    /// The next transition that the layer above owes before the connection ends.
    fn handle_terminate(&mut self) -> (tx: Option<StateTransition>)
        ensures
            Self::step(*old(self), AppCall::Settle(tx), *final(self)),
            tx is Some ==> final(self).owed() < old(self).owed(),
    ;

    /// Clears all internal data.
    fn clear(&mut self)
        ensures
            Self::step(*old(self), AppCall::Clear, *final(self)),
    ;
}

/// The streaming transition that a packet belongs to.
pub open spec fn streaming_tx(reassembled: bool) -> StateTransition {
    if reassembled {
        StateTransition::InL4Stream
    } else {
        StateTransition::InL4Conn
    }
}

/// The streaming transition that a packet belongs to, and whether it is asked for: a
/// packet as it arrives by those who ask for updates, a reassembled one by those who ask
/// for the stream.
pub fn packet_transition(reassembled: bool, needs_update: bool, needs_parse: bool) -> (r: (
    StateTransition,
    bool,
))
    ensures
        r.0 == streaming_tx(reassembled),
        r.1 == (if reassembled {
            needs_parse
        } else {
            needs_update
        }),
{
    if reassembled {
        (StateTransition::InL4Stream, needs_parse)
    } else {
        (StateTransition::InL4Conn, needs_update)
    }
}

/// A transition that leads nowhere: a bare packet is a no-op, and the first packet is
/// handled on its own.
pub open spec fn no_op(tx: StateTransition) -> bool {
    tx == StateTransition::Packet || tx == StateTransition::L4FirstPacket
}

/// Decides whether a transition is executed, given that no layer's actions change at it.
pub fn executes(tx: StateTransition, skipped: bool) -> (b: bool)
    ensures
        b == (!no_op(tx) && !skipped),
{
    !matches!(tx, StateTransition::Packet | StateTransition::L4FirstPacket) && !skipped
}

/// What becomes of a connection after a transition: it is dropped if no layer has actions
/// left; otherwise the transport layer passes data on if some layer above has.
pub fn after_transition(state: LayerState, l4_done: bool, layers_done: bool) -> (r: (
    LayerState,
    bool,
))
    ensures
        r.0 == (if l4_done && layers_done {
            LayerState::Dropped
        } else {
            state
        }),
        r.1 == !layers_done,
{
    if l4_done && layers_done {
        (LayerState::Dropped, false)
    } else {
        (state, !layers_done)
    }
}

/// State of the transport layer on the first packet: TCP has its handshake ahead.
pub open spec fn initial_state(proto: usize) -> LayerState {
    if proto == TCP_PROTOCOL {
        LayerState::Headers
    } else {
        LayerState::Payload
    }
}

/// Per-connection. Holds the state of the connection at the transport layer and what the
/// application tracks.
pub struct ConnInfo<T: Trackable> {
    /// State from the perspective of the transport layer.
    pub state: LayerState,
    /// Five-tuple, for filtering and for the direction of future packets.
    pub five_tuple: FiveTuple,
    /// Subscription data.
    pub app: T,
}

/// The connection after a transition. A transition that leads nowhere, or at which no
/// layer's actions change, leaves everything as it is. Otherwise the application goes
/// through it, and the connection is dropped if no layer has actions left then.
pub open spec fn transitioned<T: Trackable>(
    before: ConnInfo<T>,
    tx: StateTransition,
    after: ConnInfo<T>,
) -> bool {
    if no_op(tx) {
        after == before
    } else {
        ||| call_ensures(T::skip_tx, (&before.app, tx), true) && after == before
        ||| call_ensures(T::skip_tx, (&before.app, tx), false) && exists|
            started: T,
            run: T,
            ended: T,
            l4_done: bool,
            layers_done: bool,
        |
            {
                &&& #[trigger] T::step(before.app, AppCall::Start(tx), started)
                &&& #[trigger] T::step(started, AppCall::Run(tx, None), run)
                &&& #[trigger] T::step(run, AppCall::End, ended)
                &&& #[trigger] call_ensures(T::l4_done, (&ended,), l4_done)
                &&& #[trigger] call_ensures(T::layers_done, (&ended,), layers_done)
                &&& after.five_tuple == before.five_tuple
                &&& after.state == (if l4_done && layers_done {
                    LayerState::Dropped
                } else {
                    before.state
                })
                &&& if layers_done {
                    after.app == ended
                } else {
                    T::step(ended, AppCall::NextLayer, after.app)
                }
            }
    }
}

/// The connection after a packet was offered to the application: if it asks for it, the
/// streaming functions take it, and the actions are refreshed where they call for that.
pub open spec fn packet_seen<T: Trackable>(
    before: ConnInfo<T>,
    pdu: L4Pdu,
    after: ConnInfo<T>,
) -> bool {
    let tx = streaming_tx(pdu.ctxt.reassembled);
    ||| before.asked_for(pdu, false) && after == before
    ||| before.asked_for(pdu, true) && exists|refresh: bool, app: T|
        {
            &&& #[trigger] T::step(before.app, AppCall::Update(pdu, tx, refresh), app)
            &&& if refresh {
                transitioned(ConnInfo { app, ..before }, tx, after)
            } else {
                after == (ConnInfo { app, ..before })
            }
        }
}

/// The connection after the layer above has taken a segment, which led to `tx` and left
/// `left` of the segment.
pub open spec fn processed<T: Trackable>(
    before: ConnInfo<T>,
    pdu: L4Pdu,
    tx: StateTransition,
    left: L4Pdu,
    after: ConnInfo<T>,
) -> bool {
    exists|app: T|
        {
            &&& #[trigger] T::step(before.app, AppCall::Process(pdu, tx, left), app)
            &&& transitioned(ConnInfo { app, ..before }, tx, after)
        }
}

/// The connection after a segment of the stream: the layer above takes it first, if it
/// asks for the stream, and a second time if it asks for that; then the application does.
pub open spec fn stream_consumed<T: Trackable>(
    before: ConnInfo<T>,
    pdu: L4Pdu,
    after: ConnInfo<T>,
) -> bool {
    ||| call_ensures(T::needs_stream, (&before.app,), false) && packet_seen(before, pdu, after)
    ||| call_ensures(T::needs_stream, (&before.app,), true) && exists|
        tx: StateTransition,
        left: L4Pdu,
        once: ConnInfo<T>,
    |
        {
            &&& #[trigger] processed(before, pdu, tx, left, once)
            &&& {
                ||| call_ensures(T::needs_process, (&once.app, tx, &left), false) && packet_seen(
                    once,
                    left,
                    after,
                )
                ||| call_ensures(T::needs_process, (&once.app, tx, &left), true) && exists|
                    again: StateTransition,
                    rest: L4Pdu,
                    twice: ConnInfo<T>,
                |
                    {
                        &&& #[trigger] processed(once, left, again, rest, twice)
                        &&& packet_seen(twice, rest, after)
                    }
            }
        }
}

/// The connection after the layer above has been asked for the transitions that it owes, until
/// it owes none or the connection is dropped.
pub open spec fn settled<T: Trackable>(before: ConnInfo<T>, after: ConnInfo<T>) -> bool
    decreases before.app.owed(),
{
    exists|tx: Option<StateTransition>, app: T|
        {
            &&& #[trigger] T::step(before.app, AppCall::Settle(tx), app)
            &&& match tx {
                None => after == (ConnInfo { app, ..before }),
                Some(tx) => exists|next: ConnInfo<T>|
                    {
                        &&& #[trigger] transitioned(ConnInfo { app, ..before }, tx, next)
                        &&& if next.state == LayerState::Dropped {
                            after == next
                        } else {
                            &&& next.app.owed() < before.app.owed()
                            &&& settled(next, after)
                        }
                    },
            }
        }
}

/// The connection after its end: what the layer above owes is settled, and the end is
/// delivered unless the connection is dropped by then.
pub open spec fn ended<T: Trackable>(
    before: ConnInfo<T>,
    delivered: bool,
    after: ConnInfo<T>,
) -> bool {
    exists|last: ConnInfo<T>|
        {
            &&& #[trigger] settled(before, last)
            &&& delivered == (last.state != LayerState::Dropped)
            &&& if delivered {
                transitioned(last, StateTransition::L4Terminated, after)
            } else {
                after == last
            }
        }
}

impl<T: Trackable> ConnInfo<T> {
    /// The transport layer's state can only have been given up.
    pub open spec fn kept_or_dropped(&self, before: &ConnInfo<T>) -> bool {
        &&& self.five_tuple == before.five_tuple
        &&& self.state == before.state || self.state == LayerState::Dropped
    }

    pub fn new(pdu: &L4Pdu, core_id: u32) -> (c: ConnInfo<T>)
        ensures
            c.state == initial_state(pdu.ctxt.proto),
            c.five_tuple == FiveTuple::of(pdu.ctxt, pdu.dir),
            call_ensures(T::new, (pdu, core_id), c.app),
    {
        ConnInfo {
            state: if pdu.ctxt.proto == TCP_PROTOCOL {
                LayerState::Headers
            } else {
                LayerState::Payload
            },
            five_tuple: FiveTuple::from_ctxt(&pdu.ctxt, pdu.dir),
            app: T::new(pdu, core_id),
        }
    }

    /// Initializes actions at all layers when the first packet is observed.
    pub fn filter_first_packet(&mut self, pdu: &L4Pdu)
        ensures
            final(self).state == old(self).state,
            final(self).five_tuple == old(self).five_tuple,
            T::step(
                old(self).app,
                AppCall::Run(StateTransition::L4FirstPacket, Some(*pdu)),
                final(self).app,
            ),
    {
        self.app.state_tx(StateTransition::L4FirstPacket, Some(pdu));
    }

    /// Leaves the pre-handshake state of a connection that was adopted while in progress.
    /// No handshake was observed, so its end is not dispatched.
    pub fn adopt_midstream(&mut self)
        ensures
            *final(self) == (ConnInfo { state: LayerState::Payload, ..*old(self) }),
    {
        self.state = LayerState::Payload;
    }

    /// Updates the application's data when a new packet is observed. This is invoked up to
    /// twice: as the packet arrives, and once it has been reassembled.
    pub fn new_packet(&mut self, pdu: &L4Pdu)
        ensures
            final(self).kept_or_dropped(old(self)),
            packet_seen(*old(self), *pdu, *final(self)),
    {
        let (tx, needed) = packet_transition(
            pdu.ctxt.reassembled,
            self.app.needs_update(),
            self.app.needs_parse(),
        );
        if needed {
            let refresh = self.app.update(pdu, tx);
            assert(T::step(old(self).app, AppCall::Update(*pdu, tx, refresh), self.app));
            if refresh {
                self.exec_state_tx(tx);
            }
        }
    }

    /// Drops the connection.
    pub fn exec_drop(&mut self)
        ensures
            *final(self) == (ConnInfo { state: LayerState::Dropped, ..*old(self) }),
    {
        self.state = LayerState::Dropped;
    }

    /// Invoked when the connection has terminated. Delivers any end-of-connection data.
    /// Returns whether `L4Terminated` was delivered: a connection already in a drop state
    /// gets none, so anything a subscription accumulated for it is discarded.
    pub fn handle_terminate(&mut self) -> (delivered: bool)
        ensures
            final(self).kept_or_dropped(old(self)),
            ended(*old(self), delivered, *final(self)),
            old(self).state == LayerState::Dropped ==> !delivered,
            !delivered ==> final(self).state == LayerState::Dropped,
    {
        let mut more = true;
        while more
            invariant
                self.kept_or_dropped(old(self)),
                more ==> forall|last: ConnInfo<T>| #[trigger]
                    settled(*self, last) ==> settled(*old(self), last),
                !more ==> settled(*old(self), *self),
            decreases (if more {
                1int
            } else {
                0
            }), self.app.owed(),
        {
            let ghost before = *self;
            let answer = self.app.handle_terminate();
            let ghost asked = *self;
            assert(T::step(before.app, AppCall::Settle(answer), asked.app));
            assert(asked == (ConnInfo { app: asked.app, ..before }));
            match answer {
                Some(tx) => {
                    self.exec_state_tx(tx);
                    assert(transitioned(ConnInfo { app: asked.app, ..before }, tx, *self));
                    more = self.state != LayerState::Dropped;
                },
                None => {
                    more = false;
                },
            }
            proof {
                if more {
                    assert forall|last: ConnInfo<T>| #[trigger]
                        settled(*self, last) implies settled(before, last) by {
                    }
                } else {
                    assert(settled(before, *self));
                }
            }
        }
        let delivered = self.state != LayerState::Dropped;
        if delivered {
            self.exec_state_tx(StateTransition::L4Terminated);
        }
        delivered
    }

    /// Updates subscription data and current state upon a state transition.
    pub fn exec_state_tx(&mut self, tx: StateTransition)
        ensures
            final(self).kept_or_dropped(old(self)),
            final(self).app.owed() <= old(self).app.owed(),
            transitioned(*old(self), tx, *final(self)),
    {
        if !executes(tx, self.app.skip_tx(tx)) {
            return;
        }
        self.app.start_state_tx(tx);
        let ghost started = self.app;
        self.app.state_tx(tx, None);
        let ghost run = self.app;
        self.app.end_state_tx();
        assert(T::step(old(self).app, AppCall::Start(tx), started));
        assert(T::step(started, AppCall::Run(tx, None), run));
        assert(T::step(run, AppCall::End, self.app));
        let l4_done = self.app.l4_done();
        let layers_done = self.app.layers_done();
        assert(call_ensures(T::l4_done, (&self.app,), l4_done));
        assert(call_ensures(T::layers_done, (&self.app,), layers_done));
        let (state, next_layer) = after_transition(self.state, l4_done, layers_done);
        self.state = state;
        if next_layer {
            self.app.set_next_layer();
        }
    }

    /// Hands a segment to the layer above, and goes through the transition that it led to.
    fn process_layer(&mut self, segment: &mut L4Pdu) -> (tx: StateTransition)
        ensures
            final(self).kept_or_dropped(old(self)),
            processed(*old(self), *old(segment), tx, *final(segment), *final(self)),
    {
        let tx = self.app.process_stream(segment);
        assert(T::step(old(self).app, AppCall::Process(*old(segment), tx, *segment), self.app));
        self.exec_state_tx(tx);
        tx
    }

    /// Clears what the application tracks.
    pub fn clear(&mut self)
        ensures
            final(self).state == old(self).state,
            final(self).five_tuple == old(self).five_tuple,
            T::step(old(self).app, AppCall::Clear, final(self).app),
    {
        self.app.clear();
    }

    /// The application can answer so, asked whether it wants the packet.
    pub open spec fn asked_for(&self, pdu: L4Pdu, answer: bool) -> bool {
        if pdu.ctxt.reassembled {
            call_ensures(T::needs_parse, (&self.app,), answer)
        } else {
            call_ensures(T::needs_update, (&self.app,), answer)
        }
    }

    /// The application can answer so, asked whether anything wants the reassembled stream.
    pub open spec fn asked_for_stream(&self, answer: bool) -> bool {
        if answer {
            call_ensures(T::needs_parse, (&self.app,), true) || call_ensures(
                T::needs_stream,
                (&self.app,),
                true,
            )
        } else {
            call_ensures(T::needs_parse, (&self.app,), false) && call_ensures(
                T::needs_stream,
                (&self.app,),
                false,
            )
        }
    }

    /// Returns `true` if anything asks for the reassembled stream.
    pub fn needs_reassembly(&self) -> (b: bool)
        ensures
            self.asked_for_stream(b),
    {
        self.app.needs_parse() || self.app.needs_stream()
    }

    /// Returns `true` if anything asks for every packet as it arrives.
    pub fn needs_update(&self) -> (b: bool)
        ensures
            call_ensures(T::needs_update, (&self.app,), b),
    {
        self.app.needs_update()
    }
}

impl<T: Trackable> StreamConsumer for ConnInfo<T> {
    open spec fn dropped(&self) -> bool {
        self.state == LayerState::Dropped
    }

    open spec fn conn(&self) -> FiveTuple {
        self.five_tuple
    }

    open spec fn took(before: Self, segment: L4Pdu, after: Self) -> bool {
        stream_consumed(before, segment, after)
    }

    open spec fn told_of_handshake(before: Self, after: Self) -> bool {
        transitioned(
            ConnInfo { state: LayerState::Payload, ..before },
            StateTransition::L4EndHshk,
            after,
        )
    }

    /// Returns true if the connection should be dropped.
    fn drop(&self) -> (b: bool) {
        self.state == LayerState::Dropped
    }

    /// Invoked by the transport layer to update data for encapsulated layers, in
    /// reassembled order for TCP and in received order for UDP.
    fn consume_stream(&mut self, segment: &mut L4Pdu)
        ensures
            final(self).kept_or_dropped(old(self)),
    {
        if self.app.needs_stream() {
            let tx = self.process_layer(segment);
            if self.app.needs_process(tx, segment) {
                self.process_layer(segment);
            }
        }
        self.new_packet(segment);
    }

    /// Invoked by reassembly when the TCP handshake is completed.
    fn handshake_done(&mut self)
        ensures
            final(self).state == LayerState::Payload || final(self).state == LayerState::Dropped,
    {
        self.state = LayerState::Payload;
        self.exec_state_tx(StateTransition::L4EndHshk);
    }
}

} // verus!
