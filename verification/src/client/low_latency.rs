use crate::addr::SocketAddr;
use crate::bitvec::{all_same_size, compressed, lemma_same_size_of_any_two, BitVec};
use crate::channel::{
    forwarded, lemma_round_gives_every_message, messages, newer, one_round, still_connected,
    MpscInbox, MpscOutbox, Receipt,
};
use crate::control::{removed_count, ControllerSequence};
use crate::msg::low_latency::{ClientMessage, ServerMessage};
use crate::msg::{decoded, encoded, CommError, Drop, Warning};
use crate::util::MAX_PACKET_SIZE;
use std::sync::mpsc;
use vstd::prelude::*;

verus! {

/// Represents messages a client application thread can send to a client low latency servicer
/// thread.
#[derive(Clone, Debug)]
pub enum ApplicationMessage {
    /// An uncompressed bit-vector, representing a snapshot of the player's controls.
    Control(BitVec),
}

/// Represents messages a client low latency servicer thread can send to a client application
/// thread.
#[derive(Clone, Debug, PartialEq)]
pub enum ServicerMessage {
    WorldState(Vec<u8>),
}

/// The bits of the controller states that these messages carry.
pub open spec fn controls(msgs: Seq<ApplicationMessage>) -> Seq<Seq<bool>> {
    msgs.map_values(
        |msg: ApplicationMessage|
            match msg {
                ApplicationMessage::Control(state) => state@,
            },
    )
}

/// The datagram that is to be decoded: one that came and is not empty.
pub fn datagram_to_decode(received: Result<Option<(Vec<u8>, SocketAddr)>, CommError>) -> (r: Result<
    Option<Vec<u8>>,
    CommError,
>)
    ensures
        r == (match received {
            Ok(Some((buf, _))) => Ok::<Option<Vec<u8>>, CommError>(
                if buf@.len() == 0 {
                    None
                } else {
                    Some(buf)
                },
            ),
            Ok(None) => Ok::<Option<Vec<u8>>, CommError>(None),
            Err(err) => Err::<Option<Vec<u8>>, CommError>(err),
        }),
{
    match received {
        Ok(Some((buf, _))) => if buf.len() == 0 {
            Ok(None)
        } else {
            Ok(Some(buf))
        },
        Ok(None) => Ok(None),
        Err(err) => Err(err),
    }
}

/// Whether the servicer goes on after a round with this outcome: it does unless the connection is
/// dropped or the servicer is to exit.
pub fn keeps_spinning(outcome: &Result<(), CommError>) -> (r: bool)
    ensures
        r == (match *outcome {
            Ok(_) => true,
            Err(CommError::Warning(_)) => true,
            Err(CommError::Drop(_)) => false,
            Err(CommError::Exit) => false,
        }),
{
    match outcome {
        Ok(_) => true,
        Err(CommError::Warning(_)) => true,
        Err(CommError::Drop(_)) => false,
        Err(CommError::Exit) => false,
    }
}

/// The packet to send for an encoded message. If the server doesn't acknowledge our controller
/// inputs fast enough, we will eventually run out of space in our controller sequence packets. This
/// is considered a disconnect since the only way to recover would be to pause the game clock for
/// all players.
pub fn packet_to_send(result: Result<Vec<u8>, Box<bincode::ErrorKind>>) -> (r: Result<
    Vec<u8>,
    CommError,
>)
    ensures
        r == (match result {
            Ok(bytes) => if bytes@.len() > MAX_PACKET_SIZE {
                Err::<Vec<u8>, CommError>(CommError::Exit)
            } else {
                Ok::<Vec<u8>, CommError>(bytes)
            },
            Err(err) => Err::<Vec<u8>, CommError>(
                CommError::Warning(Warning::FailedToSerialize(err)),
            ),
        }),
{
    match encoded(result) {
        Ok(bytes) => if bytes.len() > MAX_PACKET_SIZE {
            Err(CommError::Exit)
        } else {
            Ok(bytes)
        },
        Err(err) => Err(err),
    }
}

/// The controller states that the server has not acknowledged.
struct PendingInputs {
    seq: ControllerSequence,
}

impl PendingInputs {
    /// Every state has a tick, and so has the next one.
    #[verifier::type_invariant]
    spec fn inv(self) -> bool {
        self.seq.start() + self.seq.inputs().len() <= usize::MAX
    }

    fn new() -> (r: Self)
        ensures
            r.seq.start() == 0,
            r.seq.inputs() == Seq::<Seq<bool>>::empty(),
    {
        let seq = ControllerSequence::new();
        PendingInputs { seq }
    }

    /// Whether there are ticks left for `count` more states.
    fn has_ticks_for(&self, count: usize) -> (r: bool)
        ensures
            r == (self.seq.start() + self.seq.inputs().len() + count <= usize::MAX),
    {
        proof {
            use_type_invariant(self);
        }
        count <= usize::MAX - self.seq.last_tick()
    }

    fn push(&mut self, controller_state: BitVec)
        requires
            old(self).seq.start() + old(self).seq.inputs().len() < usize::MAX,
        ensures
            final(self).seq.start() == old(self).seq.start(),
            final(self).seq.inputs() == old(self).seq.inputs().push(controller_state@),
    {
        let mut seq = ControllerSequence::new();
        std::mem::swap(&mut self.seq, &mut seq);
        seq.push(controller_state);
        self.seq = seq;
    }

    /// Removes the states of all ticks up to `tick`, which the server has received.
    fn acknowledge(&mut self, tick: usize)
        ensures
            acknowledged(old(self).seq, final(self).seq, tick),
    {
        proof {
            use_type_invariant(&*self);
        }
        let mut seq = ControllerSequence::new();
        std::mem::swap(&mut self.seq, &mut seq);
        // There is no state of the largest tick, so removing the states before it removes all.
        let next_tick = if tick < usize::MAX {
            tick + 1
        } else {
            tick
        };
        seq.remove_till_tick(next_tick);
        self.seq = seq;
    }
}

/// Services a client using a low-latency transport (Udp). Communicates messages to the
/// application thread via an in-process queue.
pub struct Servicer {
    server_addr: SocketAddr,
    self_addr: SocketAddr,
    controller_seq: PendingInputs,
    to_application: MpscOutbox<ServicerMessage>,
    from_application: MpscInbox<ApplicationMessage>,
}

impl Servicer {
    /// The controller states that the server has not acknowledged.
    pub closed spec fn pending(&self) -> ControllerSequence {
        self.controller_seq.seq
    }

    /// The address of the server, and that of this client.
    pub closed spec fn addresses(&self) -> (SocketAddr, SocketAddr) {
        (self.server_addr, self.self_addr)
    }

    /// What was handed to the application thread.
    pub closed spec fn to_application(&self) -> Seq<(ServicerMessage, bool)> {
        self.to_application.attempts()
    }

    /// What the queue from the application thread answered.
    pub closed spec fn from_application(&self) -> Seq<Receipt<ApplicationMessage>> {
        self.from_application.answers()
    }

    /// A servicer without controller states.
    pub fn connect(
        server_addr: SocketAddr,
        self_addr: SocketAddr,
        to_application: mpsc::Sender<ServicerMessage>,
        from_application: mpsc::Receiver<ApplicationMessage>,
    ) -> (r: Self)
        ensures
            r.pending().start() == 0,
            r.pending().inputs() == Seq::<Seq<bool>>::empty(),
            r.addresses() == (server_addr, self_addr),
            r.to_application() == Seq::<(ServicerMessage, bool)>::empty(),
            r.from_application() == Seq::<Receipt<ApplicationMessage>>::empty(),
    {
        Servicer {
            server_addr,
            self_addr,
            controller_seq: PendingInputs::new(),
            to_application: MpscOutbox::new(to_application),
            from_application: MpscInbox::new(from_application),
        }
    }

    /// The address to which packets are sent.
    pub fn server_addr(&self) -> (r: SocketAddr)
        ensures
            r == self.addresses().0,
    {
        self.server_addr
    }

    /// Forwards what was received from the server, then what the application has queued. Returns
    /// the message for the server, if there is any.
    pub fn spin_once(
        &mut self,
        received: Result<Option<Result<ServerMessage, Box<bincode::ErrorKind>>>, CommError>,
    ) -> (r: Result<Option<ClientMessage>, CommError>)
        ensures
            exists|between: Servicer, outcome: Result<(), CommError>| #[trigger]
                server_to_client(*old(self), between, received, outcome) && (match outcome {
                    Ok(_) => client_to_server(between, *final(self), r),
                    Err(err) => between == *final(self) && r == Err::<
                        Option<ClientMessage>,
                        CommError,
                    >(err),
                }),
    {
        let outcome = self.forward_from_server_to_client(received);
        let ghost between = *self;
        assert(server_to_client(*old(self), between, received, outcome));
        match outcome {
            Ok(_) => self.forward_from_client_to_server(),
            Err(err) => Err(err),
        }
    }

    /// Handles a datagram of the server, if one came. It may be one that could not be decoded.
    pub fn forward_from_server_to_client(
        &mut self,
        received: Result<Option<Result<ServerMessage, Box<bincode::ErrorKind>>>, CommError>,
    ) -> (r: Result<(), CommError>)
        ensures
            server_to_client(*old(self), *final(self), received, r),
    {
        match received {
            Ok(Some(result)) => match decoded(result) {
                Ok(server_message) => self.parse_server_message(server_message),
                Err(err) => Err(err),
            },
            Ok(None) => Ok(()),
            Err(err) => Err(err),
        }
    }

    fn parse_server_message(&mut self, server_message: ServerMessage) -> (r: Result<(), CommError>)
        ensures
            message_handled(*old(self), *final(self), server_message, r),
    {
        match server_message {
            ServerMessage::WorldState(state) => {
                // Send it on to the client application thread.
                self.to_application.forward(ServicerMessage::WorldState(state))
            },
            ServerMessage::LastTickReceived(tick) => {
                // Update the controller sequence, removing inputs of ticks already received by the
                // server.
                self.controller_seq.acknowledge(tick);
                Ok(())
            },
        }
    }

    /// Takes up the controller states that the application has queued and returns the message with
    /// all states that the server has not acknowledged, if there are any. The servicer exits once
    /// the application has disconnected.
    pub fn forward_from_client_to_server(&mut self) -> (r: Result<Option<ClientMessage>, CommError>)
        ensures
            client_to_server(*old(self), *final(self), r),
    {
        match self.from_application.drain() {
            Ok(msg_vec) => {
                if !self.controller_seq.has_ticks_for(msg_vec.len()) {
                    return Err(CommError::Exit);
                }
                self.parse_application_messages(msg_vec);
                self.send_controller_inputs()
            },
            Err(_) => {
                // Our application thread has disconnected our message queue. Time to exit.
                Err(CommError::Exit)
            },
        }
    }

    // Parse a vector of app messages.
    fn parse_application_messages(&mut self, msg_vec: Vec<ApplicationMessage>)
        requires
            old(self).pending().start() + old(self).pending().inputs().len() + msg_vec@.len()
                <= usize::MAX,
        ensures
            final(self).addresses() == old(self).addresses(),
            final(self).to_application() == old(self).to_application(),
            final(self).from_application() == old(self).from_application(),
            final(self).pending().start() == old(self).pending().start(),
            final(self).pending().inputs() == old(self).pending().inputs() + controls(msg_vec@),
    {
        let ghost before = self.pending().inputs();
        let ghost all = msg_vec@;
        assert(before + controls(all.take(0)) =~= before);
        for msg in it: msg_vec
            invariant
                it.seq() == all,
                self.pending().start() == old(self).pending().start(),
                self.pending().start() + before.len() + all.len() <= usize::MAX,
                self.addresses() == old(self).addresses(),
                self.to_application() == old(self).to_application(),
                self.from_application() == old(self).from_application(),
                self.pending().inputs() == before + controls(all.take(it.index() as int)),
        {
            match msg {
                ApplicationMessage::Control(controller_state) => {
                    self.controller_seq.push(controller_state);
                },
            }
            assert(self.pending().inputs() =~= before + controls(all.take(it.index() + 1)));
        }
        assert(all.take(all.len() as int) =~= all);
    }

    /// The message with all controller states that the server has not acknowledged, if there are
    /// any.
    pub fn send_controller_inputs(&self) -> (r: Result<Option<ClientMessage>, CommError>)
        ensures
            controller_input(self.pending(), r),
    {
        if self.controller_seq.seq.is_empty() {
            return Ok(None);
        }
        if !self.controller_seq.seq.is_equally_sized() {
            return Err(CommError::Warning(Warning::FailedToCompress));
        }
        if !self.controller_seq.seq.compressed_size_fits() {
            // No packet could hold as much.
            return Err(CommError::Exit);
        }
        match self.controller_seq.seq.to_compressed() {
            Some(payload) => Ok(Some(ClientMessage::ControllerInput(payload))),
            None => Err(CommError::Warning(Warning::FailedToCompress)),
        }
    }
}

/// `after` is what is left of `before` once the server has received the states up to `tick`: the
/// state of a tick stays exactly when it is a later one, and the start moves along.
pub open spec fn acknowledged(
    before: ControllerSequence,
    after: ControllerSequence,
    tick: usize,
) -> bool {
    let k = removed_count(before.start() as int, before.inputs().len() as int, tick + 1);
    &&& after.start() == before.start() + k
    &&& after.inputs() == before.inputs().skip(k)
    &&& forall|t: int| #[trigger]
        after.at_tick(t) == (if t > tick {
            before.at_tick(t)
        } else {
            None
        })
}

/// The servicer took `message` from the server, with outcome `r`. A world state goes to the
/// application; the tick that the server received last tells which controller states are done with.
pub open spec fn message_handled(
    before: Servicer,
    after: Servicer,
    message: ServerMessage,
    r: Result<(), CommError>,
) -> bool {
    &&& after.addresses() == before.addresses()
    &&& after.from_application() == before.from_application()
    &&& match message {
        ServerMessage::WorldState(state) => {
            &&& after.pending() == before.pending()
            &&& forwarded(
                before.to_application(),
                after.to_application(),
                ServicerMessage::WorldState(state),
                r,
            )
        },
        ServerMessage::LastTickReceived(tick) => {
            &&& r == Ok::<(), CommError>(())
            &&& acknowledged(before.pending(), after.pending(), tick)
            &&& after.to_application() == before.to_application()
        },
    }
}

/// The servicer handled what was received from the server, with outcome `r`. Nothing changes where
/// nothing came, where receiving failed and where the datagram could not be decoded.
pub open spec fn server_to_client(
    before: Servicer,
    after: Servicer,
    received: Result<Option<Result<ServerMessage, Box<bincode::ErrorKind>>>, CommError>,
    r: Result<(), CommError>,
) -> bool {
    match received {
        Ok(Some(Ok(message))) => message_handled(before, after, message, r),
        Ok(Some(Err(err))) => after == before && r == Err::<(), CommError>(
            CommError::Warning(Warning::FailedToDeserialize(err)),
        ),
        Ok(None) => after == before && r == Ok::<(), CommError>(()),
        Err(err) => after == before && r == Err::<(), CommError>(err),
    }
}

/// The servicer emptied the queue from the application and `r` is what is sent to the server. Once
/// the application has disconnected, or there are no ticks left to count its controller states by,
/// the servicer exits.
pub open spec fn client_to_server(
    before: Servicer,
    after: Servicer,
    r: Result<Option<ClientMessage>, CommError>,
) -> bool {
    let round = newer(before.from_application(), after.from_application());
    &&& after.addresses() == before.addresses()
    &&& after.to_application() == before.to_application()
    &&& one_round(before.from_application(), after.from_application())
    &&& if still_connected(round) && before.pending().start() + before.pending().inputs().len()
        + messages(round).len() <= usize::MAX {
        &&& after.pending().start() == before.pending().start()
        &&& after.pending().inputs() == before.pending().inputs() + controls(messages(round))
        &&& controller_input(after.pending(), r)
    } else {
        &&& r == Err::<Option<ClientMessage>, CommError>(CommError::Exit)
        &&& after.pending() == before.pending()
    }
}

/// `r` is what is sent of `pending`: nothing of an empty sequence, a warning of one with states of
/// different sizes, else a message that stands for the whole sequence. One that no `usize` counts
/// the bits of is too large for any packet.
pub open spec fn controller_input(
    pending: ControllerSequence,
    r: Result<Option<ClientMessage>, CommError>,
) -> bool {
    if pending.inputs().len() == 0 {
        r == Ok::<Option<ClientMessage>, CommError>(None)
    } else if !all_same_size(pending.inputs()) {
        r == Err::<Option<ClientMessage>, CommError>(CommError::Warning(Warning::FailedToCompress))
    } else if pending.compressed_bits() > usize::MAX {
        r == Err::<Option<ClientMessage>, CommError>(CommError::Exit)
    } else {
        r matches Ok(Some(ClientMessage::ControllerInput(payload))) && pending.is_compressed_to(
            payload,
        )
    }
}

/// Every controller state that the application has queued becomes one pending state, bit for bit
/// and in order, after those that were pending. Nothing else is added and nothing is taken away.
pub proof fn lemma_every_control_becomes_pending(
    before: Servicer,
    after: Servicer,
    r: Result<Option<ClientMessage>, CommError>,
)
    requires
        client_to_server(before, after, r),
        after.from_application().last() == Receipt::<ApplicationMessage>::Empty,
        before.pending().start() + before.pending().inputs().len()
            + after.from_application().len() - before.from_application().len() - 1 <= usize::MAX,
    ensures
        after.pending().start() == before.pending().start(),
        after.pending().inputs().len() == before.pending().inputs().len()
            + after.from_application().len() - before.from_application().len() - 1,
        forall|i: int|
            0 <= i < before.pending().inputs().len() ==> #[trigger] after.pending().inputs()[i]
                == before.pending().inputs()[i],
        forall|i: int|
            0 <= i < after.from_application().len() - before.from_application().len() - 1
                ==> (after.from_application()[before.from_application().len() + i] matches
                Receipt::Message(ApplicationMessage::Control(state)) && state@
                == #[trigger] after.pending().inputs()[before.pending().inputs().len() + i]),
{
    lemma_round_gives_every_message(before.from_application(), after.from_application());
    let msgs = messages(newer(before.from_application(), after.from_application()));
    assert forall|i: int|
        0 <= i < after.from_application().len() - before.from_application().len()
            - 1 implies (after.from_application()[before.from_application().len() + i] matches
        Receipt::Message(ApplicationMessage::Control(state)) && state@
        == #[trigger] after.pending().inputs()[before.pending().inputs().len() + i]) by {
        assert(Receipt::Message(msgs[i]) == after.from_application()[before.from_application().len()
            + i]);
        assert(after.pending().inputs()[before.pending().inputs().len() + i] == controls(msgs)[i]);
    }
}

/// Once the application has disconnected, the servicer exits, and what was pending stays as it was.
pub proof fn lemma_servicer_exits_with_the_application(
    before: Servicer,
    after: Servicer,
    r: Result<Option<ClientMessage>, CommError>,
)
    requires
        client_to_server(before, after, r),
        after.from_application().last() == Receipt::<ApplicationMessage>::Disconnected,
    ensures
        r == Err::<Option<ClientMessage>, CommError>(CommError::Exit),
        after.pending() == before.pending(),
        after.to_application() == before.to_application(),
{
    lemma_round_gives_every_message(before.from_application(), after.from_application());
}

/// All that is pending is sent, from the right tick on. Nothing is sent exactly when nothing is
/// pending, and states of different sizes are not sent.
pub proof fn lemma_all_that_is_pending_is_sent(
    pending: ControllerSequence,
    r: Result<Option<ClientMessage>, CommError>,
)
    requires
        controller_input(pending, r),
    ensures
        r == Ok::<Option<ClientMessage>, CommError>(None) <==> pending.inputs().len() == 0,
        r matches Ok(Some(ClientMessage::ControllerInput(payload))) ==> {
            &&& payload.start() == pending.start()
            &&& payload.decoded() == Some(pending.inputs())
            &&& payload.states().payload() == compressed(pending.inputs())
            &&& payload.states().element_bits() == pending.inputs()[0].len()
        },
        (exists|i: int, j: int|
            0 <= i < pending.inputs().len() && 0 <= j < pending.inputs().len() && (
            #[trigger] pending.inputs()[i]).len() != (#[trigger] pending.inputs()[j]).len())
            <==> r == Err::<Option<ClientMessage>, CommError>(
            CommError::Warning(Warning::FailedToCompress),
        ),
        r == Err::<Option<ClientMessage>, CommError>(CommError::Exit) ==> compressed(
            pending.inputs(),
        ).len() > usize::MAX,
        r matches Err(err) ==> err == CommError::Exit || err == CommError::Warning(
            Warning::FailedToCompress,
        ),
{
    lemma_same_size_of_any_two(pending.inputs());
}

/// A world state from the server goes to the application as it is, and changes nothing else.
pub proof fn lemma_world_state_is_forwarded(
    before: Servicer,
    after: Servicer,
    state: Vec<u8>,
    r: Result<(), CommError>,
)
    requires
        server_to_client(before, after, Ok(Some(Ok(ServerMessage::WorldState(state)))), r),
    ensures
        after.to_application() == before.to_application().push(
            (ServicerMessage::WorldState(state), r is Ok),
        ),
        r matches Err(err) ==> err == CommError::Drop(Drop::ApplicationThreadDisconnected),
        after.pending() == before.pending(),
        after.from_application() == before.from_application(),
        after.addresses() == before.addresses(),
{
}

/// An acknowledgement takes away the pending states of the ticks that the server has received, and
/// those alone: the state of every later tick stays as it is, at its tick.
pub proof fn lemma_received_ticks_are_done_with(
    before: Servicer,
    after: Servicer,
    tick: usize,
    r: Result<(), CommError>,
    t: int,
)
    requires
        server_to_client(before, after, Ok(Some(Ok(ServerMessage::LastTickReceived(tick)))), r),
    ensures
        r == Ok::<(), CommError>(()),
        after.to_application() == before.to_application(),
        after.from_application() == before.from_application(),
        after.addresses() == before.addresses(),
        before.pending().start() <= after.pending().start(),
        after.pending().start() + after.pending().inputs().len() == before.pending().start()
            + before.pending().inputs().len(),
        before.pending().start() <= t < before.pending().start() + before.pending().inputs().len()
            ==> (after.pending().start() <= t <==> t > tick),
        after.pending().start() <= t < after.pending().start() + after.pending().inputs().len()
            ==> after.pending().inputs()[t - after.pending().start()]
            == before.pending().inputs()[t - before.pending().start()],
{
}

/// Where nothing came, receiving failed, or what came could not be decoded, nothing changes, and
/// the failure is handed on.
pub proof fn lemma_failures_change_nothing(
    before: Servicer,
    after: Servicer,
    failure: CommError,
    undecodable: Box<bincode::ErrorKind>,
    r: Result<(), CommError>,
)
    ensures
        server_to_client(before, after, Ok(None), r) ==> after == before && r == Ok::<
            (),
            CommError,
        >(()),
        server_to_client(before, after, Err(failure), r) ==> after == before && r == Err::<
            (),
            CommError,
        >(failure),
        server_to_client(before, after, Ok(Some(Err(undecodable))), r) ==> after == before && r
            == Err::<(), CommError>(CommError::Warning(Warning::FailedToDeserialize(undecodable))),
{
}

} // verus!
