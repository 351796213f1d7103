use crate::msg::{Credentials, Username};
use vstd::prelude::*;

verus! {

/// A server's response to a `ClientMessage::JoinRequest`. If a `JoinRequest` was rejected, a
/// reason will be provided. Otherwise, a `Confirmation` with the server's Udp port is sent before
/// world states begin streaming.
#[derive(Clone, Debug, PartialEq)]
pub enum JoinResponse {
    Confirmation(u16),
    AuthenticationError,
}

/// Represents messages a client can send to the server over a reliable (Tcp) transport.
#[derive(Clone, Debug, PartialEq)]
pub enum ClientMessage {
    /// A message to send to the server that will be visible to all players.
    ChatMessage(String),
    /// Request to join the server with the given user's `Credentials`.
    JoinRequest(Credentials),
}

/// A chat message along with the user who wrote it.
#[derive(Clone, Debug, PartialEq)]
pub struct ChatMessage {
    pub from: Username,
    pub message: String,
}

/// Represents messages passed from the server to a client over a reliable (Tcp) transport.
#[derive(Clone, Debug, PartialEq)]
pub enum ServerMessage {
    JoinResponse(JoinResponse),
    ChatMessage(ChatMessage),
    /// World tick number for the latest client controller input received.
    LastTickReceived(usize),
}

} // verus!
