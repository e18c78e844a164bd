//! The per-connection protocol state machine, and the pure part of handling
//! one inbound packet buffer.  The socket itself and the task that drives it
//! live outside this crate; they feed byte buffers in and carry responses
//! back out.

use vstd::prelude::*;

use crate::packet::{spec_parse, Packet, PacketError};

verus! {

/// The negotiation phase of one connection (handshake, status, login, play,
/// transfer).  Each connection owns exactly one value of this type; nothing
/// is shared across connections.
#[derive(Debug, Clone, Copy, PartialEq, Eq, Structural)]
pub enum ConnectionState {
    Handshake,
    Status,
    Login,
    Play,
    Transfer,
}

/// Errors raised when a packet id is held against the connection state.
#[derive(Debug, Clone, Copy, PartialEq, Eq, Structural)]
pub enum ConnectionStateError {
    /// The packet id is not legal in the current connection state.
    InvalidId,
    /// Transitions out of this state are not specified yet.
    UnspecifiedTransition,
}

/// The transition table keyed by (state, packet id).  From `Handshake` only
/// the handshake packet (id 0x00) is legal; transitions out of the other
/// states are not specified yet and are rejected explicitly rather than
/// guessed.
pub open spec fn spec_transition(state: ConnectionState, packet_id: i32) -> Result<
    ConnectionState,
    ConnectionStateError,
> {
    match state {
        ConnectionState::Handshake => if packet_id == 0 {
            Ok(ConnectionState::Login)
        } else {
            Err(ConnectionStateError::InvalidId)
        },
        _ => Err(ConnectionStateError::UnspecifiedTransition),
    }
}

/// Which state a handshake asks for, by the intent value carried in the
/// handshake payload's trailing VarInt: 1 asks for a status query, 2 for
/// login, 3 for a transfer.
pub open spec fn spec_intent_target(intent: i32) -> Result<
    ConnectionState,
    ConnectionStateError,
> {
    if intent == 1 {
        Ok(ConnectionState::Status)
    } else if intent == 2 {
        Ok(ConnectionState::Login)
    } else if intent == 3 {
        Ok(ConnectionState::Transfer)
    } else {
        Err(ConnectionStateError::InvalidId)
    }
}

impl ConnectionState {
    /// Every connection starts in the handshake phase.
    pub fn new() -> (r: Self)
        ensures
            r == ConnectionState::Handshake,
    {
        Self::Handshake
    }

    /// Validates `packet`'s id against `last_state` and returns the next
    /// state, following the transition table exactly.
    pub fn try_from_packet(last_state: Self, packet: &Packet) -> (r: Result<
        Self,
        ConnectionStateError,
    >)
        ensures
            r == spec_transition(last_state, packet.spec_id().spec_value()),
    {
        match last_state {
            ConnectionState::Handshake => {
                if packet.get_id().get_value() == 0x00 {
                    Ok(Self::Login)
                } else {
                    Err(ConnectionStateError::InvalidId)
                }
            },
            _ => Err(ConnectionStateError::UnspecifiedTransition),
        }
    }

    /// Maps the intent value from a handshake payload to the state it asks
    /// for, following `spec_intent_target` exactly.
    pub fn next_state_from_intent(intent: i32) -> (r: Result<Self, ConnectionStateError>)
        ensures
            r == spec_intent_target(intent),
    {
        if intent == 1 {
            Ok(Self::Status)
        } else if intent == 2 {
            Ok(Self::Login)
        } else if intent == 3 {
            Ok(Self::Transfer)
        } else {
            Err(ConnectionStateError::InvalidId)
        }
    }
}

/// The sequence of bytes every response opens with: the ASCII codes of
/// `"Received: "`.
pub open spec fn spec_response_prefix() -> Seq<u8> {
    seq![82u8, 101u8, 99u8, 101u8, 105u8, 118u8, 101u8, 100u8, 58u8, 32u8]
}

/// Takes one packet buffer and returns the response to write back: the
/// buffer echoed behind a fixed prefix.  Fails exactly when the buffer does
/// not frame as a packet, with the framing error.
pub fn handle_packet(buffer: &[u8]) -> (r: Result<Vec<u8>, PacketError>)
    ensures
        match r {
            Ok(response) => (spec_parse(buffer@) is Ok) && response@ == spec_response_prefix()
                + buffer@,
            Err(e) => spec_parse(buffer@) == Err::<(nat, nat, nat, Seq<u8>), _>(e),
        },
{
    let _packet = match Packet::new(buffer) {
        Ok(p) => p,
        Err(e) => {
            return Err(e);
        },
    };

    let mut response: Vec<u8> = Vec::new();
    response.push(82);  // 'R'
    response.push(101);  // 'e'
    response.push(99);  // 'c'
    response.push(101);  // 'e'
    response.push(105);  // 'i'
    response.push(118);  // 'v'
    response.push(101);  // 'e'
    response.push(100);  // 'd'
    response.push(58);  // ':'
    response.push(32);  // ' '
    response.extend_from_slice(buffer);
    proof {
        assert(response@ =~= spec_response_prefix() + buffer@);
    }
    Ok(response)
}

} // verus!
