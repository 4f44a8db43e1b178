//! Per-connection state machines.

use crate::protocols::{Session, SessionProto};
use crate::text::str_eq;
use core::cmp::Ordering;
use vstd::prelude::*;
use vstd::string::*;

verus! {

/// Current state of a layer in the per-connection state machine, based on what it has seen
/// so far in the connection.
#[derive(Debug, Clone, Copy, PartialEq, Eq, Structural)]
pub enum LayerState {
    /// Determining the protocol. For the transport layer, before the handshake.
    Discovery,
    /// In the headers (TCP handshake, TLS handshake, HTTP headers).
    Headers,
    /// Headers done; new packets are expected to be payload.
    Payload,
    /// This layer and its child layers should no longer receive packets.
    Dropped,
}

impl LayerState {
    /// Position in the order in which a layer goes through its states.
    pub open spec fn rank(self) -> int {
        match self {
            LayerState::Discovery => 0,
            LayerState::Headers => 1,
            LayerState::Payload => 2,
            LayerState::Dropped => 3,
        }
    }

    /// Returns `true` if the layer has come as far as `other`.
    pub fn at_least(&self, other: &LayerState) -> (b: bool)
        ensures
            b == (self.rank() >= other.rank()),
    {
        match (self, other) {
            (_, LayerState::Discovery) => true,
            (LayerState::Discovery, _) => false,
            (_, LayerState::Headers) => true,
            (LayerState::Headers, _) => false,
            (_, LayerState::Payload) => true,
            (LayerState::Payload, _) => false,
            _ => true,
        }
    }
}

/// The state transitions that a datatype, filter or callback can be associated with.
#[derive(Debug, Clone, Copy, PartialEq, Eq, Structural)]
pub enum StateTransition {
    /// On the first packet in the connection.
    L4FirstPacket,
    /// Observed and reassembled SYNs and ACKs from both sides.
    L4EndHshk,
    /// Streaming anywhere in a TCP or UDP connection, not reassembled.
    InL4Conn,
    /// Streaming anywhere in a TCP or UDP connection, reassembled.
    InL4Stream,
    /// On identification of the application-layer protocol.
    L7OnDisc,
    /// On the end of the application-layer headers.
    L7EndHdrs,
    /// The connection has terminated by FIN/ACK sequence or timeout.
    L4Terminated,
    /// A single, connectionless packet. In the connection tracker, a no-op transition.
    Packet,
}

/// Number of transitions that a connection can go through: all but `Packet`, which is
/// listed last.
pub const NUM_STATE_TRANSITIONS: usize = 7;

/// Order of two state transitions in the lifetime of a connection.
#[derive(Debug, Clone, Copy, PartialEq, Eq, Structural)]
pub enum StateTxOrd {
    /// No ordering is guaranteed.
    Unknown,
    /// Not applicable.
    Any,
    /// The first comes after the second.
    Greater,
    /// The first comes before the second.
    Less,
    /// The two are the same.
    Equal,
}

impl StateTxOrd {
    /// The order that a comparison found.
    pub open spec fn from_order(ordering: Ordering) -> StateTxOrd {
        match ordering {
            Ordering::Greater => StateTxOrd::Greater,
            Ordering::Less => StateTxOrd::Less,
            Ordering::Equal => StateTxOrd::Equal,
        }
    }

    pub fn from_ord(ordering: Ordering) -> (o: StateTxOrd)
        ensures
            o == StateTxOrd::from_order(ordering),
    {
        match ordering {
            Ordering::Greater => StateTxOrd::Greater,
            Ordering::Less => StateTxOrd::Less,
            Ordering::Equal => StateTxOrd::Equal,
        }
    }

    /// The order of two numbers.
    pub open spec fn of_numbers(a: int, b: int) -> StateTxOrd {
        if a > b {
            StateTxOrd::Greater
        } else if a < b {
            StateTxOrd::Less
        } else {
            StateTxOrd::Equal
        }
    }

    /// The order with the sides exchanged.
    pub open spec fn reversed(self) -> StateTxOrd {
        match self {
            StateTxOrd::Greater => StateTxOrd::Less,
            StateTxOrd::Less => StateTxOrd::Greater,
            o => o,
        }
    }
}

impl StateTransition {
    /// Position in the list of transitions.
    pub open spec fn index(self) -> int {
        match self {
            StateTransition::L4FirstPacket => 0,
            StateTransition::L4EndHshk => 1,
            StateTransition::InL4Conn => 2,
            StateTransition::InL4Stream => 3,
            StateTransition::L7OnDisc => 4,
            StateTransition::L7EndHdrs => 5,
            StateTransition::L4Terminated => 6,
            StateTransition::Packet => 7,
        }
    }

    /// The transition's position as an index.
    pub fn as_usize(&self) -> (n: usize)
        ensures
            n == self.index(),
    {
        match self {
            StateTransition::L4FirstPacket => 0,
            StateTransition::L4EndHshk => 1,
            StateTransition::InL4Conn => 2,
            StateTransition::InL4Stream => 3,
            StateTransition::L7OnDisc => 4,
            StateTransition::L7EndHdrs => 5,
            StateTransition::L4Terminated => 6,
            StateTransition::Packet => 7,
        }
    }

    /// The transition at an index.
    pub fn from_usize(i: usize) -> (t: StateTransition)
        requires
            i <= NUM_STATE_TRANSITIONS,
        ensures
            t.index() == i,
    {
        match i {
            0 => StateTransition::L4FirstPacket,
            1 => StateTransition::L4EndHshk,
            2 => StateTransition::InL4Conn,
            3 => StateTransition::InL4Stream,
            4 => StateTransition::L7OnDisc,
            5 => StateTransition::L7EndHdrs,
            6 => StateTransition::L4Terminated,
            _ => StateTransition::Packet,
        }
    }

    /// The name by which the transition's properties are known.
    pub open spec fn name_of(self) -> Seq<char> {
        match self {
            StateTransition::L4FirstPacket => "L4FirstPacket"@,
            StateTransition::L4EndHshk => "L4EndHshk"@,
            StateTransition::InL4Conn => "InL4Conn"@,
            StateTransition::InL4Stream => "InL4Stream"@,
            StateTransition::L4Terminated => "L4Terminated"@,
            StateTransition::L7OnDisc => "L7OnDisc"@,
            StateTransition::L7EndHdrs => "L7EndHdrs"@,
            StateTransition::Packet => "L4Pdu"@,
        }
    }

    pub fn name(&self) -> (s: &'static str)
        ensures
            s@ == self.name_of(),
    {
        match self {
            StateTransition::L4FirstPacket => "L4FirstPacket",
            StateTransition::L4EndHshk => "L4EndHshk",
            StateTransition::InL4Conn => "InL4Conn",
            StateTransition::InL4Stream => "InL4Stream",
            StateTransition::L4Terminated => "L4Terminated",
            StateTransition::L7OnDisc => "L7OnDisc",
            StateTransition::L7EndHdrs => "L7EndHdrs",
            StateTransition::Packet => "L4Pdu",
        }
    }

    /// The name under which the transition is written out.
    pub open spec fn display_of(self) -> Seq<char> {
        match self {
            StateTransition::Packet => "Packet"@,
            _ => self.name_of(),
        }
    }

    /// Writes the transition out.
    pub fn to_text(&self) -> (s: String)
        ensures
            s@ == self.display_of(),
    {
        match self {
            StateTransition::Packet => "Packet".to_owned(),
            _ => self.name().to_owned(),
        }
    }

    /// The transition belongs to the transport layer, as its name says.
    pub open spec fn transport(self) -> bool {
        self != StateTransition::L7OnDisc && self != StateTransition::L7EndHdrs
    }

    /// The transition recurs throughout the connection.
    pub open spec fn streaming(self) -> bool {
        self == StateTransition::InL4Conn || self == StateTransition::InL4Stream
    }

    pub fn in_transport(&self) -> (b: bool)
        ensures
            b == self.transport(),
    {
        !matches!(self, StateTransition::L7OnDisc | StateTransition::L7EndHdrs)
    }

    pub fn is_streaming(&self) -> (b: bool)
        ensures
            b == self.streaming(),
    {
        matches!(self, StateTransition::InL4Conn | StateTransition::InL4Stream)
    }

    /// Index of the layer above the transport layer that the transition belongs to.
    pub fn layer_idx(&self) -> (i: Option<usize>)
        ensures
            i == (if self.transport() {
                None
            } else {
                Some(0usize)
            }),
    {
        if self.in_transport() {
            None
        } else {
            Some(0)
        }
    }

    /// The order of two transitions. Nothing is ordered against a bare packet. The first
    /// packet comes before everything else, the end of the connection after everything
    /// else, and the TCP handshake before the end of the application-layer headers, which
    /// need data from both endpoints. Apart from that, only transitions of the application
    /// layer are ordered, as listed.
    pub open spec fn order(self, other: StateTransition) -> StateTxOrd {
        let either = |t: StateTransition| self == t || other == t;
        if self == other {
            StateTxOrd::Equal
        } else if either(StateTransition::Packet) {
            StateTxOrd::Any
        } else if either(StateTransition::L4Terminated) || either(StateTransition::L4FirstPacket)
            || (either(StateTransition::L4EndHshk) && either(StateTransition::L7EndHdrs)) || (
        !self.transport() && !other.transport()) {
            StateTxOrd::of_numbers(self.index(), other.index())
        } else {
            StateTxOrd::Unknown
        }
    }

    /// Returns `Greater` if `self` comes after `other`, `Less` if it comes before, `Equal`
    /// if they are the same, `Any` if one of them is a bare packet, and `Unknown` if they
    /// cannot be compared.
    pub fn compare(&self, other: &StateTransition) -> (o: StateTxOrd)
        ensures
            o == self.order(*other),
    {
        if *self == *other {
            return StateTxOrd::Equal;
        }
        if matches!(self, StateTransition::Packet) || matches!(other, StateTransition::Packet) {
            return StateTxOrd::Any;
        }
        // End of connection is always greatest, start of connection always lowest.
        if matches!(self, StateTransition::L4Terminated) || matches!(
            other,
            StateTransition::L4Terminated
        ) || matches!(self, StateTransition::L4FirstPacket) || matches!(
            other,
            StateTransition::L4FirstPacket
        ) {
            return self.listed_order(other);
        }
        // The TCP handshake must complete before anything that requires data from both
        // endpoints.
        if (matches!(self, StateTransition::L4EndHshk) || matches!(
            other,
            StateTransition::L4EndHshk
        )) && (matches!(self, StateTransition::L7EndHdrs) || matches!(
            other,
            StateTransition::L7EndHdrs
        )) {
            return self.listed_order(other);
        }
        // Different layers.
        if self.in_transport() != other.in_transport() {
            return StateTxOrd::Unknown;
        }
        // The handshake and the streaming states may overlap.
        if matches!(
            self,
            StateTransition::L4EndHshk | StateTransition::InL4Conn | StateTransition::InL4Stream
        ) {
            return StateTxOrd::Unknown;
        }
        self.listed_order(other)
    }

    /// The order in which the transitions are listed.
    fn listed_order(&self, other: &StateTransition) -> (o: StateTxOrd)
        ensures
            o == StateTxOrd::of_numbers(self.index(), other.index()),
    {
        StateTxOrd::from_ord(self.as_usize().cmp(&other.as_usize()))
    }

    /// The transition that a string names, if it names one. Besides the names under which
    /// transitions are written out, there is an older name for `InL4Stream`.
    pub open spec fn named_by(s: Seq<char>) -> Option<StateTransition> {
        if s == "L4FirstPacket"@ {
            Some(StateTransition::L4FirstPacket)
        } else if s == "L4EndHshk"@ {
            Some(StateTransition::L4EndHshk)
        } else if s == "InL4Conn"@ {
            Some(StateTransition::InL4Conn)
        } else if s == "InL4Stream"@ || s == "InL4Conn(reassemble)"@ {
            Some(StateTransition::InL4Stream)
        } else if s == "L4Terminated"@ {
            Some(StateTransition::L4Terminated)
        } else if s == "L7OnDisc"@ {
            Some(StateTransition::L7OnDisc)
        } else if s == "L7EndHdrs"@ {
            Some(StateTransition::L7EndHdrs)
        } else if s == "Packet"@ {
            Some(StateTransition::Packet)
        } else {
            None
        }
    }

    /// Reads a transition's name; fails with a message if it is none.
    pub fn from_str(s: &str) -> (r: Result<StateTransition, String>)
        ensures
            match r {
                Ok(t) => StateTransition::named_by(s@) == Some(t),
                Err(m) => StateTransition::named_by(s@) is None && m@
                    == "Invalid StateTransition: "@ + s@,
            },
    {
        if str_eq(s, "L4FirstPacket") {
            Ok(StateTransition::L4FirstPacket)
        } else if str_eq(s, "L4EndHshk") {
            Ok(StateTransition::L4EndHshk)
        } else if str_eq(s, "InL4Conn") {
            Ok(StateTransition::InL4Conn)
        } else if str_eq(s, "InL4Stream") || str_eq(s, "InL4Conn(reassemble)") {
            Ok(StateTransition::InL4Stream)
        } else if str_eq(s, "L4Terminated") {
            Ok(StateTransition::L4Terminated)
        } else if str_eq(s, "L7OnDisc") {
            Ok(StateTransition::L7OnDisc)
        } else if str_eq(s, "L7EndHdrs") {
            Ok(StateTransition::L7EndHdrs)
        } else if str_eq(s, "Packet") {
            Ok(StateTransition::Packet)
        } else {
            Err("Invalid StateTransition: ".to_owned().concat(s))
        }
    }
}

/// Every transition has an index of its own, and `Packet` has the one after all those that
/// a connection goes through.
pub proof fn law_transitions_are_numbered(a: StateTransition, b: StateTransition)
    ensures
        0 <= a.index() <= NUM_STATE_TRANSITIONS,
        a.index() == b.index() ==> a == b,
        a.index() == NUM_STATE_TRANSITIONS <==> a == StateTransition::Packet,
{
}

/// Comparing two transitions the other way round reverses the order.
pub proof fn law_order_is_antisymmetric(a: StateTransition, b: StateTransition)
    ensures
        b.order(a) == a.order(b).reversed(),
{
}

/// The order is transitive.
pub proof fn law_order_is_transitive(a: StateTransition, b: StateTransition, c: StateTransition)
    requires
        a.order(b) == StateTxOrd::Less,
        b.order(c) == StateTxOrd::Less,
    ensures
        a.order(c) == StateTxOrd::Less,
{
}

/// The first packet precedes, and the end of the connection follows, every other
/// transition of a connection.
pub proof fn law_connection_begins_and_ends(t: StateTransition)
    requires
        t != StateTransition::Packet,
    ensures
        t != StateTransition::L4FirstPacket ==> StateTransition::L4FirstPacket.order(t)
            == StateTxOrd::Less,
        t != StateTransition::L4Terminated ==> StateTransition::L4Terminated.order(t)
            == StateTxOrd::Greater,
{
}

/// What a transition is written out as is read back as that transition.
pub proof fn law_written_transitions_are_read_back(t: StateTransition)
    ensures
        StateTransition::named_by(t.display_of()) == Some(t),
{
    reveal_strlit("L4FirstPacket");
    reveal_strlit("L4EndHshk");
    reveal_strlit("InL4Conn");
    reveal_strlit("InL4Stream");
    reveal_strlit("InL4Conn(reassemble)");
    reveal_strlit("L4Terminated");
    reveal_strlit("L7OnDisc");
    reveal_strlit("L7EndHdrs");
    reveal_strlit("Packet");
    assert("L4FirstPacket"@[2] == 'F');
    assert("L4EndHshk"@[2] == 'E');
    assert("InL4Conn"@[4] == 'C');
    assert("InL4Stream"@[4] == 'S');
    assert("L4Terminated"@[2] == 'T');
    assert("L7OnDisc"@[2] == 'O');
    assert("L7EndHdrs"@[1] == '7');
    assert("Packet"@[0] == 'P');
}

/// State transitions with associated data, which a function can ask for as a parameter.
#[derive(Debug)]
pub enum StateTxData<'a> {
    L7OnDisc(SessionProto),
    L7EndHdrs(&'a Session),
    Null,
}

impl<'a> StateTxData<'a> {
    /// The data that goes with a transition, out of what the layer identified and parsed
    /// last. `L7EndHdrs` can fire with nothing parsed; the session is then an empty one.
    pub fn from_tx(
        state: &StateTransition,
        last_protocol: SessionProto,
        last_session: &'a Session,
    ) -> (d: StateTxData<'a>)
        ensures
            d == (match *state {
                StateTransition::L7OnDisc => StateTxData::L7OnDisc(last_protocol),
                StateTransition::L7EndHdrs => StateTxData::L7EndHdrs(last_session),
                _ => StateTxData::Null,
            }),
    {
        match state {
            StateTransition::L7OnDisc => StateTxData::L7OnDisc(last_protocol),
            StateTransition::L7EndHdrs => StateTxData::L7EndHdrs(last_session),
            _ => StateTxData::Null,
        }
    }

    /// The index of the transition that the data goes with.
    pub fn as_usize(&self) -> (n: usize)
        requires
            !(self is Null),
        ensures
            self is L7OnDisc ==> n == StateTransition::L7OnDisc.index(),
            self is L7EndHdrs ==> n == StateTransition::L7EndHdrs.index(),
    {
        match self {
            StateTxData::L7OnDisc(_) => StateTransition::L7OnDisc.as_usize(),
            _ => StateTransition::L7EndHdrs.as_usize(),
        }
    }
}

} // verus!
