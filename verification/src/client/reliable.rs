use crate::channel::{
    forwarded, messages, newer, one_round, still_connected, MpscInbox, MpscOutbox, Receipt,
};
use crate::io::io_error_kind;
use crate::msg::reliable::{ChatMessage, ClientMessage, JoinResponse, ServerMessage};
use crate::msg::{checked_io, comm_error, CommError, Credentials};
use std::sync::mpsc;
use vstd::prelude::*;

verus! {

/// Represents messages a client application thread can send to a client reliable servicer thread.
#[derive(Clone, Debug, PartialEq)]
pub enum ApplicationMessage {
    /// A message that is to be visible to all players.
    ChatMessage(String),
}

/// Represents messages a client reliable servicer thread can send to a client application thread.
#[derive(Clone, Debug, PartialEq)]
pub enum ServicerMessage {
    /// A message that will be visible to all players.
    ChatMessage(ChatMessage),
    /// World tick number for the latest controller input that the server received.
    LastTickReceived(usize),
}

/// How many bytes of an answer were read, if any came. A connection that gives none has been closed
/// by the server.
pub fn receive_server_message(read: Result<Option<usize>, std::io::Error>) -> (r: Result<
    Option<usize>,
    CommError,
>)
    ensures
        r == (match read {
            Ok(Some(bytes)) => if bytes == 0 {
                Err::<Option<usize>, CommError>(CommError::Exit)
            } else {
                Ok::<Option<usize>, CommError>(Some(bytes))
            },
            Ok(None) => Ok::<Option<usize>, CommError>(None),
            Err(err) => Err::<Option<usize>, CommError>(comm_error(io_error_kind(err), err)),
        }),
{
    match checked_io(read) {
        Ok(Some(bytes)) => if bytes == 0 {
            // The Tcp stream has been closed.
            Err(CommError::Exit)
        } else {
            Ok(Some(bytes))
        },
        Ok(None) => Ok(None),
        Err(err) => Err(err),
    }
}

/// Whether the servicer goes on after a round with this outcome: any error ends it.
pub fn keeps_spinning(outcome: &Result<(), CommError>) -> (r: bool)
    ensures
        r == (*outcome is Ok),
{
    outcome.is_ok()
}

/// Services a client using a reliable transport (Tcp). Communicates messages to the application
/// thread via an in-process queue.
pub struct Servicer {
    to_application: MpscOutbox<ServicerMessage>,
    from_application: MpscInbox<ApplicationMessage>,
    server_udp_port: Option<u16>,
}

impl Servicer {
    /// The port on which the server receives low-latency messages, once it is known.
    pub closed spec fn udp_port(&self) -> Option<u16> {
        self.server_udp_port
    }

    /// What was handed to the application thread.
    pub closed spec fn to_application(&self) -> Seq<(ServicerMessage, bool)> {
        self.to_application.attempts()
    }

    /// What the queue from the application thread answered.
    pub closed spec fn from_application(&self) -> Seq<Receipt<ApplicationMessage>> {
        self.from_application.answers()
    }

    /// A servicer that has sent its request to join and waits for the response.
    pub fn connect(
        to_application: mpsc::Sender<ServicerMessage>,
        from_application: mpsc::Receiver<ApplicationMessage>,
    ) -> (r: Self)
        ensures
            r.udp_port() == None::<u16>,
            r.to_application() == Seq::<(ServicerMessage, bool)>::empty(),
            r.from_application() == Seq::<Receipt<ApplicationMessage>>::empty(),
    {
        Servicer {
            to_application: MpscOutbox::new(to_application),
            from_application: MpscInbox::new(from_application),
            server_udp_port: None,
        }
    }

    /// The message that asks the server to let a user join.
    pub fn join_request(cred: Credentials) -> (r: ClientMessage)
        ensures
            r == ClientMessage::JoinRequest(cred),
    {
        ClientMessage::JoinRequest(cred)
    }

    /// Whether the server has let the user join, after a round with the given outcome. An error
    /// ends the attempt.
    pub fn has_joined(&self, spun: Result<(), CommError>) -> (r: Result<bool, CommError>)
        ensures
            r == (match spun {
                Ok(_) => Ok::<bool, CommError>(self.udp_port() is Some),
                Err(err) => Err::<bool, CommError>(err),
            }),
    {
        match spun {
            Ok(_) => Ok(self.server_udp_port().is_some()),
            Err(err) => Err(err),
        }
    }

    pub fn server_udp_port(&self) -> (r: Option<u16>)
        ensures
            r == self.udp_port(),
    {
        self.server_udp_port
    }

    /// Handles what came from the server, if anything did.
    pub fn spin_once(&mut self, received: Result<Option<ServerMessage>, CommError>) -> (r: Result<
        (),
        CommError,
    >)
        ensures
            final(self).from_application() == old(self).from_application(),
            match received {
                Ok(Some(ServerMessage::JoinResponse(JoinResponse::Confirmation(port)))) => {
                    &&& r == Ok::<(), CommError>(())
                    &&& final(self).udp_port() == Some(port)
                    &&& final(self).to_application() == old(self).to_application()
                },
                Ok(Some(ServerMessage::JoinResponse(JoinResponse::AuthenticationError))) => {
                    &&& r == Err::<(), CommError>(CommError::Exit)
                    &&& final(self).udp_port() == old(self).udp_port()
                    &&& final(self).to_application() == old(self).to_application()
                },
                Ok(Some(ServerMessage::ChatMessage(chat))) => {
                    &&& final(self).udp_port() == old(self).udp_port()
                    &&& forwarded(
                        old(self).to_application(),
                        final(self).to_application(),
                        ServicerMessage::ChatMessage(chat),
                        r,
                    )
                },
                Ok(Some(ServerMessage::LastTickReceived(tick))) => {
                    &&& final(self).udp_port() == old(self).udp_port()
                    &&& forwarded(
                        old(self).to_application(),
                        final(self).to_application(),
                        ServicerMessage::LastTickReceived(tick),
                        r,
                    )
                },
                Ok(None) => {
                    &&& r == Ok::<(), CommError>(())
                    &&& final(self).udp_port() == old(self).udp_port()
                    &&& final(self).to_application() == old(self).to_application()
                },
                Err(err) => {
                    &&& r == Err::<(), CommError>(err)
                    &&& final(self).udp_port() == old(self).udp_port()
                    &&& final(self).to_application() == old(self).to_application()
                },
            },
    {
        match received {
            Ok(Some(ServerMessage::JoinResponse(response))) => self.handle_join_response(response),
            Ok(Some(ServerMessage::ChatMessage(chat))) => self.handle_chat_message(chat),
            Ok(Some(ServerMessage::LastTickReceived(tick))) => self.handle_last_tick_received(tick),
            Ok(None) => Ok(()),
            Err(err) => Err(err),
        }
    }

    fn handle_join_response(&mut self, response: JoinResponse) -> (r: Result<(), CommError>)
        ensures
            final(self).to_application() == old(self).to_application(),
            final(self).from_application() == old(self).from_application(),
            match response {
                JoinResponse::Confirmation(port) => {
                    &&& r == Ok::<(), CommError>(())
                    &&& final(self).udp_port() == Some(port)
                },
                JoinResponse::AuthenticationError => {
                    &&& r == Err::<(), CommError>(CommError::Exit)
                    &&& final(self).udp_port() == old(self).udp_port()
                },
            },
    {
        match response {
            JoinResponse::Confirmation(port) => {
                self.server_udp_port = Some(port);
                Ok(())
            },
            JoinResponse::AuthenticationError => Err(CommError::Exit),
        }
    }

    fn handle_chat_message(&mut self, chat: ChatMessage) -> (r: Result<(), CommError>)
        ensures
            final(self).udp_port() == old(self).udp_port(),
            final(self).from_application() == old(self).from_application(),
            forwarded(
                old(self).to_application(),
                final(self).to_application(),
                ServicerMessage::ChatMessage(chat),
                r,
            ),
    {
        self.to_application.forward(ServicerMessage::ChatMessage(chat))
    }

    fn handle_last_tick_received(&mut self, last_tick: usize) -> (r: Result<(), CommError>)
        ensures
            final(self).udp_port() == old(self).udp_port(),
            final(self).from_application() == old(self).from_application(),
            forwarded(
                old(self).to_application(),
                final(self).to_application(),
                ServicerMessage::LastTickReceived(last_tick),
                r,
            ),
    {
        self.to_application.forward(ServicerMessage::LastTickReceived(last_tick))
    }

    /// The messages that the application wants the server to have, in order. The servicer exits
    /// once the application has disconnected.
    pub fn forward_from_client_to_server(&mut self) -> (r: Result<Vec<ClientMessage>, CommError>)
        ensures
            final(self).udp_port() == old(self).udp_port(),
            final(self).to_application() == old(self).to_application(),
            one_round(old(self).from_application(), final(self).from_application()),
            ({
                let round = newer(old(self).from_application(), final(self).from_application());
                match r {
                    Ok(outgoing) => {
                        &&& still_connected(round)
                        &&& outgoing@ == to_server(messages(round))
                    },
                    Err(err) => {
                        &&& !still_connected(round)
                        &&& err == CommError::Exit
                    },
                }
            }),
    {
        match self.from_application.drain() {
            Ok(msgs) => {
                let ghost all = msgs@;
                let mut outgoing: Vec<ClientMessage> = Vec::new();
                for msg in it: msgs
                    invariant
                        it.seq() == all,
                        outgoing@ == to_server(all.take(it.index() as int)),
                {
                    match msg {
                        ApplicationMessage::ChatMessage(chat) => {
                            outgoing.push(ClientMessage::ChatMessage(chat));
                        },
                    }
                    assert(outgoing@ =~= to_server(all.take(it.index() + 1)));
                }
                assert(all.take(all.len() as int) =~= all);
                Ok(outgoing)
            },
            Err(_) => {
                // Our application thread has disconnected our message queue. Time to exit.
                Err(CommError::Exit)
            },
        }
    }
}

/// What is sent to the server for these messages of the application.
pub open spec fn to_server(msgs: Seq<ApplicationMessage>) -> Seq<ClientMessage> {
    msgs.map_values(
        |msg: ApplicationMessage|
            match msg {
                ApplicationMessage::ChatMessage(chat) => ClientMessage::ChatMessage(chat),
            },
    )
}

/// Each chat message of the application goes to the server, with its text as it is, in order, and
/// nothing else does.
pub proof fn lemma_every_chat_goes_to_the_server(
    msgs: Seq<ApplicationMessage>,
    i: int,
    chat: String,
)
    requires
        0 <= i < msgs.len(),
        msgs[i] == ApplicationMessage::ChatMessage(chat),
    ensures
        to_server(msgs).len() == msgs.len(),
        to_server(msgs)[i] == ClientMessage::ChatMessage(chat),
{
}

} // verus!
