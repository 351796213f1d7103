use crate::addr::{AddressKey, SocketAddr};
use crate::address_book::{
    address_for, distinct_addresses, distinct_users, inserted,
    lemma_address_is_that_of_the_first_entry, lemma_insert_keeps_addresses_distinct,
    lemma_inserted_user_is_found, lemma_insertion_touches_nobody_else,
    lemma_removal_touches_nobody_else, lemma_remove_keeps_addresses_distinct,
    lemma_user_at_is_that_of_the_first_entry, removed, user_at, AddressBook,
};
use crate::channel::{messages, newer, one_round, still_connected, MpscOutbox, Receipt, SpmcInbox};
use crate::client::low_latency::controller_input;
use crate::control::{CompressedControllerSequence, ControllerSequence};
use crate::msg::low_latency::{ClientMessage, ServerMessage};
use crate::msg::{decoded, ClientData, CommError, Username, Warning};
use crate::server::{ServicerMessage, ServicerPayload};
use std::sync::mpsc;
use vstd::prelude::*;

verus! {

/// Represents a message from the application thread to the low latency servicer, bound for the
/// client.
#[derive(Clone, Debug)]
pub struct ToClient {
    /// The user `payload` is intended for.
    pub to: Username,
    /// The payload intended for the user `to`.
    pub payload: ServerMessage,
}

impl ToClient {
    pub fn new(to: Username, payload: ServerMessage) -> (r: Self)
        ensures
            r == (ToClient { to, payload }),
    {
        ToClient { to, payload }
    }
}

/// What becomes of a message that is bound for a client.
#[derive(Clone, Debug, PartialEq)]
pub enum Delivery {
    /// It is sent to this address.
    To(SocketAddr, ServerMessage),
    /// There is no such user.
    NoSuchUser(Username),
}

/// Represents a message from the server application thread to the server low latency servicer.
#[derive(Clone, Debug)]
pub enum ApplicationMessage {
    /// A message to be forwarded to a specific client.
    ToClient(ToClient),
    /// When a new client connects, the low latency servicer updates its user/socket map.
    NewClient(ClientData),
    /// When a client disconnects, the low latency servicer updates its user/socket map.
    ClientDisconnect(Username),
}

/// The entries of an address book after one message of the application.
pub open spec fn book_after_one(
    entries: Seq<(AddressKey, Seq<char>)>,
    msg: ApplicationMessage,
) -> Seq<(AddressKey, Seq<char>)> {
    match msg {
        ApplicationMessage::ToClient(_) => entries,
        ApplicationMessage::NewClient(client_data) => inserted(
            entries,
            client_data.udp_addr.as_key(),
            client_data.username.0@,
        ),
        ApplicationMessage::ClientDisconnect(user) => removed(entries, user.0@),
    }
}

/// The entries of an address book after `msgs` of the application, one after the other.
pub open spec fn book_after(
    entries: Seq<(AddressKey, Seq<char>)>,
    msgs: Seq<ApplicationMessage>,
) -> Seq<(AddressKey, Seq<char>)>
    decreases msgs.len(),
{
    if msgs.len() == 0 {
        entries
    } else {
        book_after_one(book_after(entries, msgs.drop_last()), msgs.last())
    }
}

/// The most recent world state among `msgs`, with the user it is intended for.
pub open spec fn latest_world_state(msgs: Seq<ApplicationMessage>) -> Option<ToClient>
    decreases msgs.len(),
{
    if msgs.len() == 0 {
        None
    } else {
        match msgs.last() {
            ApplicationMessage::ToClient(to_client) => if to_client.payload is WorldState {
                Some(to_client)
            } else {
                latest_world_state(msgs.drop_last())
            },
            _ => latest_world_state(msgs.drop_last()),
        }
    }
}

/// The messages among `msgs` that are bound for clients, in order.
pub open spec fn bound_for_clients(msgs: Seq<ApplicationMessage>) -> Seq<ToClient>
    decreases msgs.len(),
{
    if msgs.len() == 0 {
        Seq::empty()
    } else {
        match msgs.last() {
            ApplicationMessage::ToClient(to_client) => bound_for_clients(msgs.drop_last()).push(
                to_client,
            ),
            _ => bound_for_clients(msgs.drop_last()),
        }
    }
}

/// `r` is where a message goes: to the address of its user, or nowhere where the user is unknown.
pub open spec fn routed(
    entries: Seq<(AddressKey, Seq<char>)>,
    msg: ToClient,
    r: Delivery,
) -> bool {
    match address_for(entries, msg.to.0@) {
        Some(address) => r matches Delivery::To(addr, payload) && addr.as_key() == address
            && payload == msg.payload,
        None => r == Delivery::NoSuchUser(msg.to),
    }
}

/// `msg` tells the application of the controller states that came from `user`.
pub open spec fn reports_controls(
    msg: ServicerMessage,
    user: Seq<char>,
    start: usize,
    inputs: Seq<Seq<bool>>,
) -> bool {
    &&& msg.from.0@ == user
    &&& msg.payload matches ServicerPayload::ControllerSequence(sequence) && sequence.start()
        == start && sequence.inputs() == inputs
}

/// `r` is what the address book `entries` makes of the controller input that came from `src`: a
/// message for the application, or a warning where the source is unknown or the input stands for no
/// controller states.
pub open spec fn controls_from(
    entries: Seq<(AddressKey, Seq<char>)>,
    src: SocketAddr,
    input: CompressedControllerSequence,
    r: Result<ServicerMessage, CommError>,
) -> bool {
    match (user_at(entries, src.as_key()), input.decoded()) {
        (None, _) => r == Err::<ServicerMessage, CommError>(
            CommError::Warning(Warning::UnknownSource(src)),
        ),
        (Some(_), None) => r == Err::<ServicerMessage, CommError>(
            CommError::Warning(Warning::FailedToDecompress),
        ),
        (Some(user), Some(inputs)) => r matches Ok(msg) && reports_controls(
            msg,
            user,
            input.start(),
            inputs,
        ),
    }
}

/// Services all clients using a low-latency transport (Udp). Communicates messages to the
/// application thread via an in-process queue.
///
/// Drop errors have different semantics here than on the reliable side. Since the low latency
/// servicer handles all clients, Drop means "drop this particular client and propagate this fact to
/// all other threads", not that the servicer ends. No part of a round comes to that: what goes
/// wrong with one client is a warning, and the others are served on. Only a lost application thread
/// ends the servicer.
pub struct Servicer {
    /// Our in-process transport to the application thread.
    to_application: MpscOutbox<ServicerMessage>,
    /// Our in-process transport from the application thread to all low-latency servicers.
    from_application: SpmcInbox<ApplicationMessage>,
    address_user: AddressBook,
    /// When `true`, the server will terminate any open connections and stop servicing inputs.
    shutting_down: bool,
}

/// Whether the servicer goes on after a round with this outcome: it does unless it is to exit.
pub fn keeps_spinning(outcome: &Result<(), CommError>) -> (r: bool)
    ensures
        r == !(outcome matches Err(CommError::Exit)),
{
    match outcome {
        Ok(_) => true,
        Err(CommError::Drop(_)) => true,
        Err(CommError::Warning(_)) => true,
        Err(CommError::Exit) => false,
    }
}

/// What comes of sending a datagram.
pub fn sent(result: Result<usize, std::io::Error>) -> (r: Result<(), CommError>)
    ensures
        !(r matches Err(CommError::Drop(_))),
        r == (match result {
            Ok(_) => Ok::<(), CommError>(()),
            Err(err) => Err::<(), CommError>(CommError::Warning(Warning::IoFailure(err))),
        }),
{
    match result {
        Ok(_) => Ok(()),
        Err(err) => Err(CommError::Warning(Warning::IoFailure(err))),
    }
}

impl Servicer {
    /// The entries of the address book.
    pub closed spec fn book(&self) -> Seq<(AddressKey, Seq<char>)> {
        self.address_user@
    }

    /// The servicer is to stop.
    pub closed spec fn stopping(&self) -> bool {
        self.shutting_down
    }

    /// What was handed to the application thread.
    pub closed spec fn to_application(&self) -> Seq<(ServicerMessage, bool)> {
        self.to_application.attempts()
    }

    /// What the queue from the application thread answered.
    pub closed spec fn from_application(&self) -> Seq<Receipt<ApplicationMessage>> {
        self.from_application.answers()
    }

    /// A servicer that knows no client yet.
    pub fn new(
        to_application: mpsc::Sender<ServicerMessage>,
        from_application: spmc::Receiver<ApplicationMessage>,
    ) -> (r: Self)
        ensures
            r.book() == Seq::<(AddressKey, Seq<char>)>::empty(),
            !r.stopping(),
            r.to_application() == Seq::<(ServicerMessage, bool)>::empty(),
            r.from_application() == Seq::<Receipt<ApplicationMessage>>::empty(),
    {
        Servicer {
            to_application: MpscOutbox::new(to_application),
            from_application: SpmcInbox::new(from_application),
            address_user: AddressBook::new(),
            shutting_down: false,
        }
    }

    pub fn is_shutting_down(&self) -> (r: bool)
        ensures
            r == self.stopping(),
    {
        self.shutting_down
    }

    /// Takes up what the application has sent and returns what becomes of the most recent world
    /// state among it, if there is one. The servicer exits once the application has disconnected.
    pub fn outgoing(&mut self) -> (r: Result<Option<Delivery>, CommError>)
        ensures
            !(r matches Err(CommError::Drop(_))),
            one_round(old(self).from_application(), final(self).from_application()),
            final(self).stopping() == old(self).stopping(),
            final(self).to_application() == old(self).to_application(),
            ({
                let round = newer(old(self).from_application(), final(self).from_application());
                if still_connected(round) {
                    &&& final(self).book() == book_after(old(self).book(), messages(round))
                    &&& match latest_world_state(messages(round)) {
                        Some(msg) => r matches Ok(Some(delivery)) && routed(
                            final(self).book(),
                            msg,
                            delivery,
                        ),
                        None => r == Ok::<Option<Delivery>, CommError>(None),
                    }
                } else {
                    &&& final(self).book() == old(self).book()
                    &&& r == Err::<Option<Delivery>, CommError>(CommError::Exit)
                }
            }),
    {
        match self.from_application.drain() {
            Ok(msgs) => match parse_application_messages(msgs, &mut self.address_user) {
                Some(msg) => Ok(Some(send_message(&self.address_user, msg))),
                None => Ok(None),
            },
            Err(_) => Err(CommError::Exit),
        }
    }

    /// Handles what was received from the network.
    pub fn spin_once(
        &mut self,
        received: Result<
            (SocketAddr, Result<ClientMessage, Box<bincode::ErrorKind>>),
            std::io::Error,
        >,
    ) -> (r: Result<(), CommError>)
        ensures
            !(r matches Err(CommError::Drop(_))),
            match received {
                Ok((src, result)) => processed(*old(self), *final(self), src, result, r),
                Err(err) => {
                    &&& r == Err::<(), CommError>(CommError::Warning(Warning::IoFailure(err)))
                    &&& *final(self) == *old(self)
                },
            },
    {
        match received {
            Ok((src, result)) => self.process_udp(src, result),
            Err(err) => Err(CommError::Warning(Warning::IoFailure(err))),
        }
    }

    /// Handles a datagram that came from `src`.
    pub fn process_udp(
        &mut self,
        src: SocketAddr,
        result: Result<ClientMessage, Box<bincode::ErrorKind>>,
    ) -> (r: Result<(), CommError>)
        ensures
            !(r matches Err(CommError::Drop(_))),
            processed(*old(self), *final(self), src, result, r),
    {
        match decoded(result) {
            Ok(ClientMessage::ControllerInput(input)) => {
                let response = self.handle_controller_input(src, input);
                assert(controls_from(old(self).book(), src, input, response));
                match response {
                    Ok(msg) => {
                        let taken = self.to_application.send(msg);
                        assert(old(self).to_application().push((msg, taken))
                            == self.to_application());
                        if taken {
                            Ok(())
                        } else {
                            // Application thread closed the in-process connection, so we should
                            // exit gracefully.
                            Err(CommError::Exit)
                        }
                    },
                    Err(err) => Err(err),
                }
            },
            Err(err) => Err(err),
        }
    }

    /// The message that tells the application of the controller states that came from `src`.
    pub fn handle_controller_input(
        &self,
        src: SocketAddr,
        input: CompressedControllerSequence,
    ) -> (r: Result<ServicerMessage, CommError>)
        ensures
            !(r matches Err(CommError::Drop(_))),
            controls_from(self.book(), src, input, r),
            r matches Ok(msg) ==> msg.payload matches ServicerPayload::ControllerSequence(sequence)
                && sequence.start() == input.start() && input.decoded() == Some(sequence.inputs()),
    {
        // Lookup the user given the source socket address.
        match self.address_user.get_by_first(&src) {
            Some(user) => {
                // Decompress the deserialized controller input sequence.
                match input.to_controller_sequence() {
                    Some(controller_seq) => Ok(
                        ServicerMessage {
                            from: user,
                            payload: ServicerPayload::ControllerSequence(controller_seq),
                        },
                    ),
                    None => Err(CommError::Warning(Warning::FailedToDecompress)),
                }
            },
            None => Err(CommError::Warning(Warning::UnknownSource(src))),
        }
    }

    /// Takes up what the application has sent and returns all messages that are bound for clients.
    /// Where the application is gone, the servicer begins shutting down.
    pub fn poll_application_thread(&mut self) -> (r: Vec<ToClient>)
        ensures
            one_round(old(self).from_application(), final(self).from_application()),
            final(self).to_application() == old(self).to_application(),
            ({
                let round = newer(old(self).from_application(), final(self).from_application());
                &&& final(self).stopping() == (old(self).stopping() || !still_connected(round))
                &&& final(self).book() == book_after(old(self).book(), messages(round))
                &&& r@ == bound_for_clients(messages(round))
            }),
    {
        let (msgs, connected) = self.from_application.poll();
        if !connected {
            // The application thread disconnected; we should begin shutting down.
            self.shutdown();
        }
        let ghost all = msgs@;
        let ghost polled = *self;
        let mut to_clients: Vec<ToClient> = Vec::new();
        for msg in it: msgs
            invariant
                it.seq() == all,
                self.stopping() == polled.stopping(),
                self.to_application() == polled.to_application(),
                self.from_application() == polled.from_application(),
                self.book() == book_after(polled.book(), all.take(it.index() as int)),
                to_clients@ == bound_for_clients(all.take(it.index() as int)),
        {
            assert(all.take(it.index() + 1).drop_last() =~= all.take(it.index() as int));
            match msg {
                ApplicationMessage::ToClient(to_client) => {
                    to_clients.push(to_client);
                },
                ApplicationMessage::NewClient(client_data) => {
                    self.address_user.insert(client_data.udp_addr, client_data.username);
                },
                ApplicationMessage::ClientDisconnect(user) => {
                    self.address_user.remove_by_second(&user);
                },
            }
        }
        assert(all.take(all.len() as int) =~= all);
        to_clients
    }

    fn shutdown(&mut self)
        ensures
            final(self).stopping(),
            final(self).book() == old(self).book(),
            final(self).to_application() == old(self).to_application(),
            final(self).from_application() == old(self).from_application(),
    {
        self.shutting_down = true;
    }
}

/// The servicer handled a datagram from `src`, with outcome `r`. The application is told of
/// controller states; once it is gone, the servicer exits.
pub open spec fn processed(
    before: Servicer,
    after: Servicer,
    src: SocketAddr,
    result: Result<ClientMessage, Box<bincode::ErrorKind>>,
    r: Result<(), CommError>,
) -> bool {
    &&& after.book() == before.book()
    &&& after.stopping() == before.stopping()
    &&& after.from_application() == before.from_application()
    &&& match result {
        Ok(ClientMessage::ControllerInput(input)) => exists|
            response: Result<ServicerMessage, CommError>,
        | #[trigger]
            controls_from(before.book(), src, input, response) && (match response {
                Ok(msg) => exists|taken: bool| #[trigger]
                    before.to_application().push((msg, taken)) == after.to_application() && r == (
                    if taken {
                        Ok::<(), CommError>(())
                    } else {
                        Err::<(), CommError>(CommError::Exit)
                    }),
                Err(err) => {
                    &&& after.to_application() == before.to_application()
                    &&& r == Err::<(), CommError>(err)
                },
            }),
        Err(err) => {
            &&& after.to_application() == before.to_application()
            &&& r == Err::<(), CommError>(CommError::Warning(Warning::FailedToDeserialize(err)))
        },
    }
}

/// Parses a vector of app messages: updates `address_user` on NewClient or ClientDisconnect and
/// returns the most recent world state.
pub fn parse_application_messages(
    msg_vec: Vec<ApplicationMessage>,
    address_user: &mut AddressBook,
) -> (r: Option<ToClient>)
    ensures
        final(address_user)@ == book_after(old(address_user)@, msg_vec@),
        r == latest_world_state(msg_vec@),
{
    let ghost all = msg_vec@;
    let mut world_state_opt: Option<ToClient> = None;
    for msg in it: msg_vec
        invariant
            it.seq() == all,
            address_user@ == book_after(old(address_user)@, all.take(it.index() as int)),
            world_state_opt == latest_world_state(all.take(it.index() as int)),
    {
        assert(all.take(it.index() + 1).drop_last() =~= all.take(it.index() as int));
        match msg {
            ApplicationMessage::ToClient(to_client) => {
                // Only the most recent world state is stored. A tick is not sent on this way.
                match to_client.payload {
                    ServerMessage::WorldState(_) => {
                        world_state_opt = Some(to_client);
                    },
                    ServerMessage::LastTickReceived(_) => {},
                }
            },
            ApplicationMessage::NewClient(client_data) => {
                address_user.insert(client_data.udp_addr, client_data.username);
            },
            ApplicationMessage::ClientDisconnect(user) => {
                address_user.remove_by_second(&user);
            },
        }
    }
    assert(all.take(all.len() as int) =~= all);
    world_state_opt
}

/// Where to send a message: if we have the designated user in our address book, to them. Otherwise
/// there is no such user.
pub fn send_message(address_user: &AddressBook, msg: ToClient) -> (r: Delivery)
    ensures
        routed(address_user@, msg, r),
{
    match address_user.get_by_second(&msg.to) {
        Some(address) => Delivery::To(address, msg.payload),
        None => Delivery::NoSuchUser(msg.to),
    }
}

/// How the application's messages are split into rounds makes no difference to the address book.
pub proof fn lemma_rounds_add_up(
    entries: Seq<(AddressKey, Seq<char>)>,
    first: Seq<ApplicationMessage>,
    second: Seq<ApplicationMessage>,
)
    ensures
        book_after(entries, first + second) == book_after(book_after(entries, first), second),
        bound_for_clients(first + second) == bound_for_clients(first) + bound_for_clients(second),
    decreases second.len(),
{
    if second.len() == 0 {
        assert(first + second =~= first);
        assert(bound_for_clients(first) + bound_for_clients(second) =~= bound_for_clients(first));
    } else {
        lemma_rounds_add_up(entries, first, second.drop_last());
        assert((first + second).drop_last() =~= first + second.drop_last());
        assert(bound_for_clients(first + second) =~= bound_for_clients(first) + bound_for_clients(
            second,
        ));
    }
}

/// However clients come and go, no two of them are at the same address.
pub proof fn lemma_addresses_stay_distinct(
    entries: Seq<(AddressKey, Seq<char>)>,
    msgs: Seq<ApplicationMessage>,
)
    requires
        distinct_addresses(entries),
    ensures
        distinct_addresses(book_after(entries, msgs)),
    decreases msgs.len(),
{
    if msgs.len() > 0 {
        lemma_addresses_stay_distinct(entries, msgs.drop_last());
        let before = book_after(entries, msgs.drop_last());
        match msgs.last() {
            ApplicationMessage::ToClient(_) => {},
            ApplicationMessage::NewClient(client_data) => {
                lemma_insert_keeps_addresses_distinct(
                    before,
                    client_data.udp_addr.as_key(),
                    client_data.username.0@,
                );
            },
            ApplicationMessage::ClientDisconnect(user) => {
                lemma_remove_keeps_addresses_distinct(before, user.0@);
            },
        }
    }
}

/// Only the last of several world states is sent, whoever they are intended for.
pub proof fn lemma_latest_world_state_counts(
    msgs: Seq<ApplicationMessage>,
    to_client: ToClient,
    rest: Seq<ApplicationMessage>,
)
    requires
        to_client.payload is WorldState,
        latest_world_state(rest) is None,
    ensures
        latest_world_state(msgs.push(ApplicationMessage::ToClient(to_client)) + rest) == Some(
            to_client,
        ),
    decreases rest.len(),
{
    let front = msgs.push(ApplicationMessage::ToClient(to_client));
    if rest.len() == 0 {
        assert(front + rest =~= front);
    } else {
        lemma_latest_world_state_counts(msgs, to_client, rest.drop_last());
        assert((front + rest).drop_last() =~= front + rest.drop_last());
    }
}

/// A datagram never makes the servicer drop a client: what is wrong with it is worth a warning, and
/// only a lost application thread ends the servicer.
pub proof fn lemma_datagrams_drop_nobody(
    before: Servicer,
    after: Servicer,
    src: SocketAddr,
    result: Result<ClientMessage, Box<bincode::ErrorKind>>,
    r: Result<(), CommError>,
)
    requires
        processed(before, after, src, result, r),
    ensures
        !(r matches Err(CommError::Drop(_))),
        r matches Err(CommError::Exit) ==> after.to_application().len()
            == before.to_application().len() + 1 && !after.to_application().last().1,
{
}

/// A client that the application has announced is known: its controller states are reported under
/// its name. `input` stands for what the client sent, as it came over the network.
pub proof fn lemma_controls_reach_the_application(
    entries: Seq<(AddressKey, Seq<char>)>,
    client_data: ClientData,
    pending: ControllerSequence,
    payload: CompressedControllerSequence,
    input: CompressedControllerSequence,
    r: Result<ServicerMessage, CommError>,
)
    requires
        distinct_addresses(entries),
        controller_input(pending, Ok(Some(ClientMessage::ControllerInput(payload)))),
        input.same(&payload),
        controls_from(
            book_after(entries, seq![ApplicationMessage::NewClient(client_data)]),
            client_data.udp_addr,
            input,
            r,
        ),
    ensures
        r matches Ok(msg) && msg.from.0@ == client_data.username.0@ && (msg.payload matches
            ServicerPayload::ControllerSequence(sequence) && sequence.start() == pending.start()
            && sequence.inputs() == pending.inputs() && forall|t: int| #[trigger]
            sequence.at_tick(t) == pending.at_tick(t)),
{
    let msgs = seq![ApplicationMessage::NewClient(client_data)];
    reveal_with_fuel(book_after, 2);
    assert(msgs.drop_last() =~= Seq::empty());
    lemma_inserted_user_is_found(
        entries,
        client_data.udp_addr.as_key(),
        client_data.username.0@,
    );
}

/// What each message of the application does to the address book. A message that is bound for a
/// client leaves it as it is; only comings and goings change it.
pub proof fn lemma_only_comings_and_goings_change_the_book(
    entries: Seq<(AddressKey, Seq<char>)>,
    msgs: Seq<ApplicationMessage>,
    to_client: ToClient,
    client_data: ClientData,
    user: Username,
)
    ensures
        book_after(entries, Seq::empty()) == entries,
        book_after(entries, msgs.push(ApplicationMessage::ToClient(to_client))) == book_after(
            entries,
            msgs,
        ),
        book_after(entries, msgs.push(ApplicationMessage::NewClient(client_data))) == inserted(
            book_after(entries, msgs),
            client_data.udp_addr.as_key(),
            client_data.username.0@,
        ),
        book_after(entries, msgs.push(ApplicationMessage::ClientDisconnect(user))) == removed(
            book_after(entries, msgs),
            user.0@,
        ),
{
    assert(msgs.push(ApplicationMessage::ToClient(to_client)).drop_last() =~= msgs);
    assert(msgs.push(ApplicationMessage::NewClient(client_data)).drop_last() =~= msgs);
    assert(msgs.push(ApplicationMessage::ClientDisconnect(user)).drop_last() =~= msgs);
}

/// A round in which nobody comes or goes leaves the address book as it is.
pub proof fn lemma_messages_keep_the_book(
    entries: Seq<(AddressKey, Seq<char>)>,
    msgs: Seq<ApplicationMessage>,
)
    requires
        forall|i: int| 0 <= i < msgs.len() ==> (#[trigger] msgs[i]) is ToClient,
    ensures
        book_after(entries, msgs) == entries,
    decreases msgs.len(),
{
    if msgs.len() > 0 {
        lemma_messages_keep_the_book(entries, msgs.drop_last());
        assert(msgs.last() is ToClient);
    }
}

/// A client that comes last in a round is in the address book after it, and one that goes last is
/// not, where nobody was in the book twice.
pub proof fn lemma_comings_and_goings_take_effect(
    entries: Seq<(AddressKey, Seq<char>)>,
    msgs: Seq<ApplicationMessage>,
    client_data: ClientData,
    user: Username,
    address: AddressKey,
)
    requires
        distinct_addresses(entries),
    ensures
        book_after(entries, msgs.push(ApplicationMessage::NewClient(client_data))).contains(
            (client_data.udp_addr.as_key(), client_data.username.0@),
        ),
        distinct_users(book_after(entries, msgs)) ==> !book_after(
            entries,
            msgs.push(ApplicationMessage::ClientDisconnect(user)),
        ).contains((address, user.0@)),
{
    lemma_addresses_stay_distinct(entries, msgs);
    let before = book_after(entries, msgs);
    assert(msgs.push(ApplicationMessage::NewClient(client_data)).drop_last() =~= msgs);
    assert(msgs.push(ApplicationMessage::ClientDisconnect(user)).drop_last() =~= msgs);
    lemma_insertion_touches_nobody_else(
        before,
        client_data.udp_addr.as_key(),
        client_data.username.0@,
        (address, user.0@),
    );
    lemma_removal_touches_nobody_else(before, user.0@, (address, user.0@));
}

/// The world state that is sent is the last one of the round, as it is and for the user it is
/// intended for. None is sent exactly when there is none in the round.
pub proof fn lemma_the_last_world_state_is_sent(msgs: Seq<ApplicationMessage>)
    ensures
        match latest_world_state(msgs) {
            Some(to_client) => exists|i: int|
                0 <= i < msgs.len() && #[trigger] msgs[i] == ApplicationMessage::ToClient(to_client)
                    && to_client.payload is WorldState && forall|j: int|
                    i < j < msgs.len() ==> !((#[trigger] msgs[j]) is ToClient
                        && msgs[j]->ToClient_0.payload is WorldState),
            None => forall|j: int|
                0 <= j < msgs.len() ==> !((#[trigger] msgs[j]) is ToClient
                    && msgs[j]->ToClient_0.payload is WorldState),
        },
    decreases msgs.len(),
{
    if msgs.len() > 0 {
        let front = msgs.drop_last();
        lemma_the_last_world_state_is_sent(front);
        assert forall|j: int| 0 <= j < front.len() implies front[j] == msgs[j] by {}
        if msgs.last() is ToClient && msgs.last()->ToClient_0.payload is WorldState {
            let i = msgs.len() - 1;
            assert(msgs[i] == ApplicationMessage::ToClient(latest_world_state(msgs)->0));
        } else {
            assert(latest_world_state(msgs) == latest_world_state(front));
            if let Some(to_client) = latest_world_state(front) {
                let i = choose|i: int|
                    0 <= i < front.len() && #[trigger] front[i] == ApplicationMessage::ToClient(
                        to_client,
                    ) && to_client.payload is WorldState && forall|j: int|
                        i < j < front.len() ==> !((#[trigger] front[j]) is ToClient
                            && front[j]->ToClient_0.payload is WorldState);
                assert(msgs[i] == ApplicationMessage::ToClient(to_client));
                assert forall|j: int| i < j < msgs.len() implies !((#[trigger] msgs[j]) is ToClient
                    && msgs[j]->ToClient_0.payload is WorldState) by {
                    if j < front.len() {
                        assert(front[j] == msgs[j]);
                    }
                }
            } else {
                assert forall|j: int| 0 <= j < msgs.len() implies !((#[trigger] msgs[j]) is ToClient
                    && msgs[j]->ToClient_0.payload is WorldState) by {
                    if j < front.len() {
                        assert(front[j] == msgs[j]);
                    }
                }
            }
        }
    }
}

/// In a round in which nobody comes or goes, the last world state goes, as it is, to the address
/// that the book had for its user before.
pub proof fn lemma_world_state_goes_to_its_user(
    entries: Seq<(AddressKey, Seq<char>)>,
    msgs: Seq<ApplicationMessage>,
    i: int,
    to_client: ToClient,
    k: int,
    delivery: Delivery,
)
    requires
        forall|j: int| 0 <= j < msgs.len() ==> (#[trigger] msgs[j]) is ToClient,
        0 <= i < msgs.len(),
        msgs[i] == ApplicationMessage::ToClient(to_client),
        to_client.payload is WorldState,
        forall|j: int|
            i < j < msgs.len() ==> !((#[trigger] msgs[j])->ToClient_0.payload is WorldState),
        0 <= k < entries.len(),
        entries[k].1 == to_client.to.0@,
        forall|j: int| 0 <= j < k ==> (#[trigger] entries[j]).1 != to_client.to.0@,
        latest_world_state(msgs) matches Some(msg) ==> routed(
            book_after(entries, msgs),
            msg,
            delivery,
        ),
    ensures
        latest_world_state(msgs) == Some(to_client),
        delivery matches Delivery::To(address, payload) && address.as_key() == entries[k].0
            && payload == to_client.payload,
{
    lemma_messages_keep_the_book(entries, msgs);
    lemma_the_last_world_state_is_sent(msgs);
    assert(msgs[i] is ToClient);
    lemma_address_is_that_of_the_first_entry(entries, to_client.to.0@);
    assert(entries[k] == (entries[k].0, to_client.to.0@));
}

/// A message goes, as it is, to the address of the first entry of its user, and nowhere exactly
/// when the user is in no entry.
pub proof fn lemma_messages_go_to_their_users(
    entries: Seq<(AddressKey, Seq<char>)>,
    msg: ToClient,
    delivery: Delivery,
    k: int,
)
    requires
        routed(entries, msg, delivery),
    ensures
        0 <= k < entries.len() && entries[k].1 == msg.to.0@ && (forall|j: int|
            0 <= j < k ==> (#[trigger] entries[j]).1 != msg.to.0@) ==> (delivery matches
            Delivery::To(address, payload) && address.as_key() == entries[k].0 && payload
            == msg.payload),
        (forall|j: int| 0 <= j < entries.len() ==> (#[trigger] entries[j]).1 != msg.to.0@)
            ==> delivery == Delivery::NoSuchUser(msg.to),
{
    lemma_address_is_that_of_the_first_entry(entries, msg.to.0@);
}

/// Every message that is bound for a client is among those that polling gives, as it is and in
/// order. Comings and goings are not.
pub proof fn lemma_polling_gives_every_message(
    msgs: Seq<ApplicationMessage>,
    to_client: ToClient,
    client_data: ClientData,
    user: Username,
)
    ensures
        bound_for_clients(Seq::empty()) == Seq::<ToClient>::empty(),
        bound_for_clients(msgs.push(ApplicationMessage::ToClient(to_client))) == bound_for_clients(
            msgs,
        ).push(to_client),
        bound_for_clients(msgs.push(ApplicationMessage::NewClient(client_data)))
            == bound_for_clients(msgs),
        bound_for_clients(msgs.push(ApplicationMessage::ClientDisconnect(user)))
            == bound_for_clients(msgs),
{
    assert(msgs.push(ApplicationMessage::ToClient(to_client)).drop_last() =~= msgs);
    assert(msgs.push(ApplicationMessage::NewClient(client_data)).drop_last() =~= msgs);
    assert(msgs.push(ApplicationMessage::ClientDisconnect(user)).drop_last() =~= msgs);
}

/// What the application is told of controller input: under the name in the first entry with its
/// source, from the tick it starts at, the states it stands for. Input from a source that is in no
/// entry, and input that stands for no states, is worth a warning.
pub proof fn lemma_controls_are_reported_as_they_came(
    entries: Seq<(AddressKey, Seq<char>)>,
    src: SocketAddr,
    input: CompressedControllerSequence,
    r: Result<ServicerMessage, CommError>,
    k: int,
)
    requires
        controls_from(entries, src, input, r),
    ensures
        (forall|j: int| 0 <= j < entries.len() ==> (#[trigger] entries[j]).0 != src.as_key())
            ==> r == Err::<ServicerMessage, CommError>(
            CommError::Warning(Warning::UnknownSource(src)),
        ),
        0 <= k < entries.len() && entries[k].0 == src.as_key() && (forall|j: int|
            0 <= j < k ==> (#[trigger] entries[j]).0 != src.as_key()) ==> match input.decoded() {
            Some(inputs) => r matches Ok(msg) && msg.from.0@ == entries[k].1 && (msg.payload matches
                ServicerPayload::ControllerSequence(sequence) && sequence.start() == input.start()
                && sequence.inputs() == inputs),
            None => r == Err::<ServicerMessage, CommError>(
                CommError::Warning(Warning::FailedToDecompress),
            ),
        },
{
    lemma_user_at_is_that_of_the_first_entry(entries, src.as_key());
}

/// A datagram with controller input of a known client hands the application just one message, of
/// that client, with the states and the start tick of the datagram. Other datagrams hand it none.
/// The address book stays as it is either way.
pub proof fn lemma_datagrams_reach_the_application(
    before: Servicer,
    after: Servicer,
    src: SocketAddr,
    input: CompressedControllerSequence,
    undecodable: Box<bincode::ErrorKind>,
    r: Result<(), CommError>,
    k: int,
)
    ensures
        processed(before, after, src, Ok(ClientMessage::ControllerInput(input)), r) && 0 <= k
            < before.book().len() && before.book()[k].0 == src.as_key() && (forall|j: int|
            0 <= j < k ==> (#[trigger] before.book()[j]).0 != src.as_key()) ==> match input.decoded() {
            Some(inputs) => {
                &&& after.to_application().len() == before.to_application().len() + 1
                &&& after.to_application().drop_last() == before.to_application()
                &&& after.to_application().last().0.from.0@ == before.book()[k].1
                &&& after.to_application().last().0.payload matches
                    ServicerPayload::ControllerSequence(sequence) && sequence.start()
                    == input.start() && sequence.inputs() == inputs
                &&& r == (if after.to_application().last().1 {
                    Ok::<(), CommError>(())
                } else {
                    Err::<(), CommError>(CommError::Exit)
                })
            },
            None => {
                &&& after.to_application() == before.to_application()
                &&& r == Err::<(), CommError>(CommError::Warning(Warning::FailedToDecompress))
            },
        },
        processed(before, after, src, Ok(ClientMessage::ControllerInput(input)), r) && (forall|j:
            int|
            0 <= j < before.book().len() ==> (#[trigger] before.book()[j]).0 != src.as_key()) ==> {
            &&& after.to_application() == before.to_application()
            &&& r == Err::<(), CommError>(CommError::Warning(Warning::UnknownSource(src)))
        },
        processed(before, after, src, Err(undecodable), r) ==> {
            &&& after.to_application() == before.to_application()
            &&& r == Err::<(), CommError>(
                CommError::Warning(Warning::FailedToDeserialize(undecodable)),
            )
        },
        processed(before, after, src, Ok(ClientMessage::ControllerInput(input)), r) || processed(
            before,
            after,
            src,
            Err(undecodable),
            r,
        ) ==> after.book() == before.book() && after.stopping() == before.stopping()
            && after.from_application() == before.from_application(),
{
    if processed(before, after, src, Ok(ClientMessage::ControllerInput(input)), r) {
        let response = choose|response: Result<ServicerMessage, CommError>| #[trigger]
            controls_from(before.book(), src, input, response) && (match response {
                Ok(msg) => exists|taken: bool| #[trigger]
                    before.to_application().push((msg, taken)) == after.to_application() && r == (
                    if taken {
                        Ok::<(), CommError>(())
                    } else {
                        Err::<(), CommError>(CommError::Exit)
                    }),
                Err(err) => {
                    &&& after.to_application() == before.to_application()
                    &&& r == Err::<(), CommError>(err)
                },
            });
        lemma_controls_are_reported_as_they_came(before.book(), src, input, response, k);
        if let Ok(msg) = response {
            let taken = choose|taken: bool| #[trigger]
                before.to_application().push((msg, taken)) == after.to_application() && r == (
                if taken {
                    Ok::<(), CommError>(())
                } else {
                    Err::<(), CommError>(CommError::Exit)
                });
            assert(before.to_application().push((msg, taken)).drop_last()
                =~= before.to_application());
        }
    }
}

} // verus!
