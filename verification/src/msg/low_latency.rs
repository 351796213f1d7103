use crate::control::CompressedControllerSequence;
use vstd::prelude::*;

verus! {

/// Represents messages a client can send to the server over a low-latency (Udp) transport.
#[derive(Clone, Debug, PartialEq)]
pub enum ClientMessage {
    /// A compressed series of control inputs -- one for each game tick since the last tick
    /// received.
    ControllerInput(CompressedControllerSequence),
}

/// Represents messages passed from the server to a client over a low-latency (Udp) transport.
#[derive(Clone, Debug, PartialEq)]
pub enum ServerMessage {
    /// The latest segment of world state needed by a specific client.
    WorldState(Vec<u8>),
    /// World tick number for the latest client controller input received.
    LastTickReceived(usize),
}

} // verus!
