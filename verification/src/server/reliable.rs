use crate::channel::{
    forwarded, messages, newer, one_round, still_connected, MpscOutbox, Receipt, SpmcInbox,
};
use crate::io::{error_kind, io_error_kind, IoErrorKind};
use crate::msg::reliable::{ClientMessage, JoinResponse, ServerMessage};
use crate::msg::{
    checked_io, comm_error, decoded, ClientData, CommError, Credentials, Drop, Username, Warning,
};
use crate::server::{ServicerMessage, ServicerPayload};
use std::sync::mpsc;
use vstd::prelude::*;

verus! {

/// Represents a message from the application thread to the reliable servicers, bound for the
/// client.
#[derive(Clone, Debug)]
pub struct ToClient {
    /// The user `payload` is intended for.
    pub to: Username,
    /// The payload intended for the user `to`.
    pub payload: ServerMessage,
}

impl ToClient {
    pub fn new(to: Username, payload: ServerMessage) -> (r: Self)
        ensures
            r == (ToClient { to, payload }),
    {
        ToClient { to, payload }
    }
}

/// What the listener does about an incoming connection.
pub enum Incoming<T> {
    /// Serve the client at the other end of the stream.
    Serve(T),
    /// There is no connection yet: wait.
    Wait,
    /// Report that accepting failed.
    Report(CommError),
}

/// Decides about the result of accepting a connection.
pub fn listen<T>(accepted: Result<T, std::io::Error>) -> (r: Incoming<T>)
    ensures
        r == (match accepted {
            Ok(stream) => Incoming::Serve(stream),
            Err(err) => if io_error_kind(err) == IoErrorKind::WouldBlock {
                Incoming::Wait
            } else {
                Incoming::Report(CommError::Drop(Drop::IoFailure(err)))
            },
        }),
{
    match accepted {
        Ok(stream) => Incoming::Serve(stream),
        Err(err) => match error_kind(&err) {
            // Wait until the network socket is ready.
            IoErrorKind::WouldBlock => Incoming::Wait,
            _ => Incoming::Report(CommError::Drop(Drop::IoFailure(err))),
        },
    }
}

/// What an attempt to read a client's request to join leads to.
pub enum JoinAttempt {
    /// The client gets in with these credentials, or is turned away.
    Finished(Result<Credentials, CommError>),
    /// Reading failed for now: try again.
    Retry(Warning),
}

/// Services a single client using a reliable transport (Tcp). Communicates messages to the
/// application thread via an in-process queue.
pub struct Servicer {
    /// Our in-process transport to the application thread.
    to_application: MpscOutbox<ServicerMessage>,
    /// Our in-process transport from the application thread to all reliable servicers.
    from_application: SpmcInbox<ToClient>,
    /// The user this servicer is servicing.
    user: Username,
    /// When `true`, the server will terminate any open connections and stop servicing inputs.
    shutting_down: bool,
}

/// The payloads of those of `msgs` that are intended for `user`, in order.
pub open spec fn payloads_for(user: Seq<char>, msgs: Seq<ToClient>) -> Seq<ServerMessage>
    decreases msgs.len(),
{
    if msgs.len() == 0 {
        Seq::empty()
    } else if msgs.last().to.0@ == user {
        payloads_for(user, msgs.drop_last()).push(msgs.last().payload)
    } else {
        payloads_for(user, msgs.drop_last())
    }
}

impl Servicer {
    /// The user this servicer is servicing.
    pub closed spec fn user(&self) -> Username {
        self.user
    }

    /// The servicer is to stop.
    pub closed spec fn stopping(&self) -> bool {
        self.shutting_down
    }

    /// What was handed to the application thread.
    pub closed spec fn to_application(&self) -> Seq<(ServicerMessage, bool)> {
        self.to_application.attempts()
    }

    /// What the queue from the application thread answered.
    pub closed spec fn from_application(&self) -> Seq<Receipt<ToClient>> {
        self.from_application.answers()
    }

    /// A servicer for a client that was authenticated. The application thread is told about the
    /// client; where it is gone, there is no servicer.
    pub fn new(
        authenticated: Result<ClientData, CommError>,
        to_application: mpsc::Sender<ServicerMessage>,
        from_application: spmc::Receiver<ToClient>,
    ) -> (r: Result<Self, CommError>)
        ensures
            match authenticated {
                Ok(client_data) => match r {
                    Ok(servicer) => {
                        &&& servicer.user() == client_data.username
                        &&& !servicer.stopping()
                        &&& servicer.to_application() == seq![(introduction(client_data), true)]
                        &&& servicer.from_application() == Seq::<Receipt<ToClient>>::empty()
                    },
                    Err(err) => err == CommError::Drop(Drop::ApplicationThreadDisconnected),
                },
                Err(err) => r == Err::<Self, CommError>(err),
            },
    {
        match authenticated {
            Ok(client_data) => {
                // Make the servicer.
                let mut servicer = Servicer {
                    to_application: MpscOutbox::new(to_application),
                    from_application: SpmcInbox::new(from_application),
                    user: client_data.username.clone(),
                    shutting_down: false,
                };
                match servicer.introduce(client_data) {
                    Ok(_) => Ok(servicer),
                    Err(err) => Err(err),
                }
            },
            Err(err) => Err(err),
        }
    }

    /// Sends the data of the client to the application thread.
    pub fn introduce(&mut self, client_data: ClientData) -> (r: Result<(), CommError>)
        ensures
            final(self).user() == old(self).user(),
            final(self).stopping() == old(self).stopping(),
            final(self).from_application() == old(self).from_application(),
            forwarded(
                old(self).to_application(),
                final(self).to_application(),
                introduction(client_data),
                r,
            ),
    {
        let client_data_msg = ServicerMessage {
            from: client_data.username.clone(),
            payload: ServicerPayload::ClientData(client_data),
        };
        self.to_application.forward(client_data_msg)
    }

    pub fn is_shutting_down(&self) -> (r: bool)
        ensures
            r == self.stopping(),
    {
        self.shutting_down
    }

    /// Takes note of how a round went and whether the server still runs. The servicer stops once
    /// its client is dropped, it is to exit, or the server no longer runs.
    pub fn spin(&mut self, outcome: &Result<(), CommError>, server_running: bool)
        ensures
            final(self).stopping() == (old(self).stopping() || !server_running || (match *outcome {
                Ok(_) => false,
                Err(CommError::Warning(_)) => false,
                Err(CommError::Drop(_)) => true,
                Err(CommError::Exit) => true,
            })),
            final(self).user() == old(self).user(),
            final(self).to_application() == old(self).to_application(),
            final(self).from_application() == old(self).from_application(),
    {
        match outcome {
            Ok(_) => {},
            Err(CommError::Warning(_)) => {},
            Err(CommError::Drop(_)) => {
                self.shutdown();
            },
            Err(CommError::Exit) => {
                self.shutdown();
            },
        }
        if !server_running {
            self.shutdown();
        }
    }

    /// The messages of the application that are intended for this servicer's client, in order.
    pub fn outgoing(&mut self) -> (r: Result<Vec<ServerMessage>, CommError>)
        ensures
            one_round(old(self).from_application(), final(self).from_application()),
            final(self).user() == old(self).user(),
            final(self).stopping() == old(self).stopping(),
            final(self).to_application() == old(self).to_application(),
            ({
                let round = newer(old(self).from_application(), final(self).from_application());
                match r {
                    Ok(payloads) => {
                        &&& still_connected(round)
                        &&& payloads@ == payloads_for(old(self).user().0@, messages(round))
                    },
                    Err(err) => {
                        &&& !still_connected(round)
                        &&& err == CommError::Drop(Drop::ApplicationThreadDisconnected)
                    },
                }
            }),
    {
        // Receive messages from the server application thread.
        match self.from_application.drain() {
            Ok(msgs) => Ok(addressed_to(&self.user, msgs)),
            Err(drop) => {
                // If the server application thread has begun shutting down, we should also shut
                // down.
                Err(CommError::Drop(drop))
            },
        }
    }

    /// Handles what was read from the client, if anything was.
    pub fn spin_once(
        &mut self,
        received: Result<Option<Result<ClientMessage, Box<bincode::ErrorKind>>>, std::io::Error>,
    ) -> (r: Result<(), CommError>)
        ensures
            final(self).user() == old(self).user(),
            final(self).stopping() == old(self).stopping(),
            final(self).from_application() == old(self).from_application(),
            match received {
                Ok(Some(Ok(ClientMessage::ChatMessage(msg)))) => forwarded(
                    old(self).to_application(),
                    final(self).to_application(),
                    (ServicerMessage {
                        from: old(self).user(),
                        payload: ServicerPayload::ChatMessage(msg),
                    }),
                    r,
                ),
                Ok(Some(Ok(ClientMessage::JoinRequest(_)))) => {
                    &&& r == Err::<(), CommError>(CommError::Drop(Drop::AlreadyConnected))
                    &&& final(self).to_application() == old(self).to_application()
                },
                Ok(Some(Err(err))) => {
                    &&& r == Err::<(), CommError>(
                        CommError::Warning(Warning::FailedToDeserialize(err)),
                    )
                    &&& final(self).to_application() == old(self).to_application()
                },
                Ok(None) => {
                    &&& r == Ok::<(), CommError>(())
                    &&& final(self).to_application() == old(self).to_application()
                },
                Err(err) => {
                    &&& r == Err::<(), CommError>(comm_error(io_error_kind(err), err))
                    &&& final(self).to_application() == old(self).to_application()
                },
            },
    {
        match checked_io(received) {
            Ok(Some(result)) => match decoded(result) {
                // Handle an incoming message from the client.
                Ok(ClientMessage::ChatMessage(msg)) => self.handle_chat_message(msg),
                Ok(ClientMessage::JoinRequest(_)) => {
                    // The user attempted to join again.
                    Err(CommError::Drop(Drop::AlreadyConnected))
                },
                Err(err) => Err(err),
            },
            Ok(None) => Ok(()),
            Err(err) => Err(err),
        }
    }

    /// All messages that the application thread has sent. Where it is gone, the servicer begins
    /// shutting down.
    pub fn poll_application_thread(&mut self) -> (r: Vec<ToClient>)
        ensures
            one_round(old(self).from_application(), final(self).from_application()),
            r@ == messages(newer(old(self).from_application(), final(self).from_application())),
            final(self).stopping() == (old(self).stopping() || !still_connected(
                newer(old(self).from_application(), final(self).from_application()),
            )),
            final(self).user() == old(self).user(),
            final(self).to_application() == old(self).to_application(),
    {
        let (msgs, connected) = self.from_application.poll();
        if !connected {
            // The application thread disconnected; we should begin shutting down.
            self.shutdown();
        }
        msgs
    }

    fn shutdown(&mut self)
        ensures
            final(self).stopping(),
            final(self).user() == old(self).user(),
            final(self).to_application() == old(self).to_application(),
            final(self).from_application() == old(self).from_application(),
    {
        self.shutting_down = true;
    }

    /// The credentials that a client's first message is expected to carry.
    pub fn expect_join_request(result: Result<ClientMessage, Box<bincode::ErrorKind>>) -> (r:
        Result<Credentials, CommError>)
        ensures
            r == join_outcome(result),
    {
        match decoded(result) {
            Ok(ClientMessage::JoinRequest(cred)) => Ok(cred),
            Ok(_) => Err(CommError::Warning(Warning::WrongMessageType)),
            Err(err) => Err(err),
        }
    }

    /// What an attempt to read a client's request to join leads to.
    pub fn wait_for_join_request(
        received: Result<Result<ClientMessage, Box<bincode::ErrorKind>>, std::io::Error>,
    ) -> (r: JoinAttempt)
        ensures
            r == (match received {
                Ok(result) => JoinAttempt::Finished(join_outcome(result)),
                Err(err) => match comm_error(io_error_kind(err), err) {
                    CommError::Warning(warn) => JoinAttempt::Retry(warn),
                    failure => JoinAttempt::Finished(Err(failure)),
                },
            }),
    {
        match checked_io(received) {
            Ok(result) => JoinAttempt::Finished(Servicer::expect_join_request(result)),
            Err(CommError::Warning(warn)) => JoinAttempt::Retry(warn),
            Err(failure) => JoinAttempt::Finished(Err(failure)),
        }
    }

    /// The data of the user with these credentials. Every user is let in.
    pub fn authenticate_user(cred: Credentials) -> (r: Result<ClientData, CommError>)
        ensures
            r == Ok::<ClientData, CommError>(
                ClientData { username: cred.username, udp_addr: cred.udp_addr },
            ),
    {
        Ok(ClientData { username: cred.username, udp_addr: cred.udp_addr })
    }

    /// The answer to a request to join: a confirmation with the server's Udp port, or where the
    /// request was rejected, the reason.
    pub fn join_response(authenticated: &Result<ClientData, CommError>, udp_port: u16) -> (r:
        ServerMessage)
        ensures
            r == ServerMessage::JoinResponse(
                if *authenticated is Ok {
                    JoinResponse::Confirmation(udp_port)
                } else {
                    JoinResponse::AuthenticationError
                },
            ),
    {
        match authenticated {
            Ok(_) => ServerMessage::JoinResponse(JoinResponse::Confirmation(udp_port)),
            Err(_) => ServerMessage::JoinResponse(JoinResponse::AuthenticationError),
        }
    }

    fn handle_chat_message(&mut self, msg: String) -> (r: Result<(), CommError>)
        ensures
            final(self).user() == old(self).user(),
            final(self).stopping() == old(self).stopping(),
            final(self).from_application() == old(self).from_application(),
            forwarded(
                old(self).to_application(),
                final(self).to_application(),
                (ServicerMessage {
                    from: old(self).user(),
                    payload: ServicerPayload::ChatMessage(msg),
                }),
                r,
            ),
    {
        // Send the chat message back to the application thread for broadcast.
        self.to_application.forward(
            ServicerMessage {
                from: self.user.clone(),
                payload: ServicerPayload::ChatMessage(msg),
            },
        )
    }

    /// What comes of writing a message to the client. A failure that passes leaves the connection
    /// as it is, with a warning to log.
    pub fn send_message(written: Result<(), std::io::Error>) -> (r: Result<
        Option<Warning>,
        CommError,
    >)
        ensures
            r == (match written {
                Ok(_) => Ok::<Option<Warning>, CommError>(None),
                Err(err) => match comm_error(io_error_kind(err), err) {
                    CommError::Warning(warn) => Ok::<Option<Warning>, CommError>(Some(warn)),
                    failure => Err::<Option<Warning>, CommError>(failure),
                },
            }),
    {
        match checked_io(written) {
            Ok(_) => Ok(None),
            Err(CommError::Warning(warn)) => Ok(Some(warn)),
            Err(failure) => Err(failure),
        }
    }
}

/// What a client's first message leads to: only a request to join is accepted.
pub open spec fn join_outcome(result: Result<ClientMessage, Box<bincode::ErrorKind>>) -> Result<
    Credentials,
    CommError,
> {
    match result {
        Ok(ClientMessage::JoinRequest(cred)) => Ok(cred),
        Ok(_) => Err(CommError::Warning(Warning::WrongMessageType)),
        Err(err) => Err(CommError::Warning(Warning::FailedToDeserialize(err))),
    }
}

/// The message by which the application thread learns of a new client.
pub open spec fn introduction(client_data: ClientData) -> ServicerMessage {
    ServicerMessage {
        from: client_data.username,
        payload: ServicerPayload::ClientData(client_data),
    }
}

/// The payloads of those of `msgs` that are intended for `user`, in order.
pub fn addressed_to(user: &Username, msgs: Vec<ToClient>) -> (r: Vec<ServerMessage>)
    ensures
        r@ == payloads_for(user.0@, msgs@),
{
    let ghost all = msgs@;
    let mut payloads: Vec<ServerMessage> = Vec::new();
    for msg in it: msgs
        invariant
            it.seq() == all,
            payloads@ == payloads_for(user.0@, all.take(it.index() as int)),
    {
        let ghost so_far = all.take(it.index() as int);
        assert(all.take(it.index() + 1).drop_last() =~= so_far);
        if msg.to == *user {
            payloads.push(msg.payload);
        }
    }
    assert(all.take(all.len() as int) =~= all);
    payloads
}

/// Of the messages that its servicer takes from the queue, a client gets those intended for it in
/// order, and none is left out or repeated, however they are split into rounds. A message in the
/// queue goes to one servicer only: one that is taken by the servicer of another user is lost.
pub proof fn lemma_rounds_add_up(user: Seq<char>, first: Seq<ToClient>, second: Seq<ToClient>)
    ensures
        payloads_for(user, first + second) == payloads_for(user, first) + payloads_for(
            user,
            second,
        ),
    decreases second.len(),
{
    if second.len() == 0 {
        assert(first + second =~= first);
        assert(payloads_for(user, first) + payloads_for(user, second) =~= payloads_for(
            user,
            first,
        ));
    } else {
        lemma_rounds_add_up(user, first, second.drop_last());
        assert((first + second).drop_last() =~= first + second.drop_last());
        assert(payloads_for(user, first + second) =~= payloads_for(user, first) + payloads_for(
            user,
            second,
        ));
    }
}

/// No client gets a message that is intended for another one.
pub proof fn lemma_payloads_are_intended(user: Seq<char>, msgs: Seq<ToClient>)
    ensures
        forall|i: int|
            0 <= i < payloads_for(user, msgs).len() ==> exists|j: int|
                0 <= j < msgs.len() && (#[trigger] msgs[j]).to.0@ == user && msgs[j].payload
                    == #[trigger] payloads_for(user, msgs)[i],
    decreases msgs.len(),
{
    if msgs.len() > 0 {
        let front = msgs.drop_last();
        lemma_payloads_are_intended(user, front);
        let payloads = payloads_for(user, msgs);
        assert forall|i: int| 0 <= i < payloads.len() implies exists|j: int|
            0 <= j < msgs.len() && (#[trigger] msgs[j]).to.0@ == user && msgs[j].payload
                == #[trigger] payloads[i] by {
            if i < payloads_for(user, front).len() {
                let j = choose|j: int|
                    0 <= j < front.len() && (#[trigger] front[j]).to.0@ == user && front[j].payload
                        == payloads_for(user, front)[i];
                assert(msgs[j] == front[j]);
            } else {
                assert(msgs[msgs.len() - 1].payload == payloads[i]);
            }
        }
    }
}

/// Every message that is intended for a user is delivered, with its payload as it is, whatever that
/// is. No other one is.
pub proof fn lemma_every_payload_is_delivered(user: Seq<char>, msgs: Seq<ToClient>, msg: ToClient)
    ensures
        payloads_for(user, Seq::empty()) == Seq::<ServerMessage>::empty(),
        msg.to.0@ == user ==> payloads_for(user, msgs.push(msg)) == payloads_for(user, msgs).push(
            msg.payload,
        ),
        msg.to.0@ != user ==> payloads_for(user, msgs.push(msg)) == payloads_for(user, msgs),
{
    assert(msgs.push(msg).drop_last() =~= msgs);
}

/// A user gets as many payloads as there are messages intended for that user: those payloads, in
/// the order of the messages.
pub proof fn lemma_payloads_are_those_intended(user: Seq<char>, msgs: Seq<ToClient>)
    ensures
        payloads_for(user, msgs) == msgs.filter(|msg: ToClient| msg.to.0@ == user).map_values(
            |msg: ToClient| msg.payload,
        ),
    decreases msgs.len(),
{
    reveal(Seq::filter);
    if msgs.len() > 0 {
        lemma_payloads_are_those_intended(user, msgs.drop_last());
        assert(payloads_for(user, msgs) =~= msgs.filter(
            |msg: ToClient| msg.to.0@ == user,
        ).map_values(|msg: ToClient| msg.payload));
    } else {
        assert(payloads_for(user, msgs) =~= msgs.filter(
            |msg: ToClient| msg.to.0@ == user,
        ).map_values(|msg: ToClient| msg.payload));
    }
}

/// The application learns of a new client by all its data, under its own name.
pub proof fn lemma_introduction_is_complete(client_data: ClientData)
    ensures
        introduction(client_data).from == client_data.username,
        introduction(client_data).payload == ServicerPayload::ClientData(client_data),
{
}

/// A request to join is accepted with the credentials it carries, whatever they are, and no other
/// message is.
pub proof fn lemma_only_join_requests_are_accepted(
    cred: Credentials,
    chat: String,
    err: Box<bincode::ErrorKind>,
)
    ensures
        join_outcome(Ok(ClientMessage::JoinRequest(cred))) == Ok::<Credentials, CommError>(cred),
        join_outcome(Ok(ClientMessage::ChatMessage(chat))) == Err::<Credentials, CommError>(
            CommError::Warning(Warning::WrongMessageType),
        ),
        join_outcome(Err(err)) == Err::<Credentials, CommError>(
            CommError::Warning(Warning::FailedToDeserialize(err)),
        ),
{
}

} // verus!
