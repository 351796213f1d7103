use crate::addr::SocketAddr;
use crate::bitvec::BitVec;
use crate::channel::{messages, newer, one_round, still_connected, MpscInbox, MpscOutbox, Receipt};
use crate::msg::reliable::ChatMessage;
use crate::msg::{ApplicationError, Credentials, Username};
use std::sync::mpsc;
use vstd::prelude::*;

pub mod low_latency;
pub mod reliable;

verus! {

/// The credentials of a user who receives low-latency messages at `udp_addr`.
pub fn credentials(username: String, password: String, udp_addr: SocketAddr) -> (r: Credentials)
    ensures
        r == (Credentials { username: Username(username), password, udp_addr }),
{
    Credentials { username: Username(username), password, udp_addr }
}

/// The address of the server's low-latency servicer, once the server at `server_addr` has let the
/// user of `servicer` join.
pub fn low_latency_server_addr(server_addr: SocketAddr, servicer: &reliable::Servicer) -> (r:
    Option<SocketAddr>)
    ensures
        r == (match servicer.udp_port() {
            Some(port) => Some(server_addr.with_port(port)),
            None => None,
        }),
{
    match servicer.server_udp_port() {
        Some(port) => {
            let mut addr = server_addr;
            addr.set_port(port);
            Some(addr)
        },
        None => None,
    }
}

/// The world state that is the latest after `msgs`, where `held` was before.
pub open spec fn latest_state(
    held: Option<Vec<u8>>,
    msgs: Seq<low_latency::ServicerMessage>,
) -> Option<Vec<u8>> {
    if msgs.len() == 0 {
        held
    } else {
        match msgs.last() {
            low_latency::ServicerMessage::WorldState(world_state) => Some(world_state),
        }
    }
}

/// The chat messages among `msgs`, in order.
pub open spec fn chats(msgs: Seq<reliable::ServicerMessage>) -> Seq<ChatMessage>
    decreases msgs.len(),
{
    if msgs.len() == 0 {
        Seq::empty()
    } else {
        match msgs.last() {
            reliable::ServicerMessage::ChatMessage(chat) => chats(msgs.drop_last()).push(chat),
            reliable::ServicerMessage::LastTickReceived(_) => chats(msgs.drop_last()),
        }
    }
}

/// The world state to keep once `msgs` have arrived, where `held` was kept before.
pub fn newest_world_state(held: Option<Vec<u8>>, msgs: Vec<low_latency::ServicerMessage>) -> (r:
    Option<Vec<u8>>)
    ensures
        r == latest_state(held, msgs@),
{
    let mut world_state = held;
    let ghost all = msgs@;
    for msg in it: msgs
        invariant
            it.seq() == all,
            world_state == latest_state(held, all.take(it.index() as int)),
    {
        match msg {
            low_latency::ServicerMessage::WorldState(state) => {
                world_state = Some(state);
            },
        }
    }
    assert(all.take(all.len() as int) =~= all);
    world_state
}

/// `history` with the chat messages among `msgs` added.
pub fn extended_chat_history(
    history: Vec<ChatMessage>,
    msgs: Vec<reliable::ServicerMessage>,
) -> (r: Vec<ChatMessage>)
    ensures
        r@ == history@ + chats(msgs@),
{
    let mut extended = history;
    let ghost all = msgs@;
    assert(history@ + chats(all.take(0)) =~= history@);
    for msg in it: msgs
        invariant
            it.seq() == all,
            extended@ == history@ + chats(all.take(it.index() as int)),
    {
        let ghost so_far = all.take(it.index() as int);
        match msg {
            reliable::ServicerMessage::ChatMessage(chat) => {
                extended.push(chat);
            },
            reliable::ServicerMessage::LastTickReceived(_) => {},
        }
        assert(all.take(it.index() + 1).drop_last() =~= so_far);
        assert(extended@ =~= history@ + chats(all.take(it.index() + 1)));
    }
    assert(all.take(all.len() as int) =~= all);
    extended
}

/// The application's side of a connection to the server, whose two servicers it talks to through
/// queues.
pub struct Client {
    /// The chat messages received by this client that were not consumed yet.
    chat_history: Vec<ChatMessage>,
    /// The most recent world state sent from the server.
    world_state: Option<Vec<u8>>,
    /// When true, the servicers should disconnect and shutdown, which they do once the client is
    /// dropped. Likewise, if the servicers disconnect, this is set to true.
    shutdown: bool,
    from_reliable_servicer: MpscInbox<reliable::ServicerMessage>,
    to_reliable_servicer: MpscOutbox<reliable::ApplicationMessage>,
    from_low_latency_servicer: MpscInbox<low_latency::ServicerMessage>,
    to_low_latency_servicer: MpscOutbox<low_latency::ApplicationMessage>,
}

impl Client {
    /// The chat messages that were not consumed yet.
    pub closed spec fn history(&self) -> Seq<ChatMessage> {
        self.chat_history@
    }

    /// The world state that was not consumed yet.
    pub closed spec fn held_state(&self) -> Option<Vec<u8>> {
        self.world_state
    }

    /// A servicer has turned out to be gone.
    pub closed spec fn is_shut_down(&self) -> bool {
        self.shutdown
    }

    /// What the queue from the reliable servicer answered.
    pub closed spec fn from_reliable(&self) -> Seq<Receipt<reliable::ServicerMessage>> {
        self.from_reliable_servicer.answers()
    }

    /// What was handed to the reliable servicer.
    pub closed spec fn to_reliable(&self) -> Seq<(reliable::ApplicationMessage, bool)> {
        self.to_reliable_servicer.attempts()
    }

    /// What the queue from the low-latency servicer answered.
    pub closed spec fn from_low_latency(&self) -> Seq<Receipt<low_latency::ServicerMessage>> {
        self.from_low_latency_servicer.answers()
    }

    /// What was handed to the low-latency servicer.
    pub closed spec fn to_low_latency(&self) -> Seq<(low_latency::ApplicationMessage, bool)> {
        self.to_low_latency_servicer.attempts()
    }

    /// A client whose servicers are connected to the server, at the other ends of these queues.
    pub fn connect(
        from_reliable_servicer: mpsc::Receiver<reliable::ServicerMessage>,
        to_reliable_servicer: mpsc::Sender<reliable::ApplicationMessage>,
        from_low_latency_servicer: mpsc::Receiver<low_latency::ServicerMessage>,
        to_low_latency_servicer: mpsc::Sender<low_latency::ApplicationMessage>,
    ) -> (r: Self)
        ensures
            r.history() == Seq::<ChatMessage>::empty(),
            r.held_state() == None::<Vec<u8>>,
            !r.is_shut_down(),
            r.from_reliable() == Seq::<Receipt<reliable::ServicerMessage>>::empty(),
            r.to_reliable() == Seq::<(reliable::ApplicationMessage, bool)>::empty(),
            r.from_low_latency() == Seq::<Receipt<low_latency::ServicerMessage>>::empty(),
            r.to_low_latency() == Seq::<(low_latency::ApplicationMessage, bool)>::empty(),
    {
        Client {
            chat_history: Vec::new(),
            world_state: None,
            shutdown: false,
            from_reliable_servicer: MpscInbox::new(from_reliable_servicer),
            to_reliable_servicer: MpscOutbox::new(to_reliable_servicer),
            from_low_latency_servicer: MpscInbox::new(from_low_latency_servicer),
            to_low_latency_servicer: MpscOutbox::new(to_low_latency_servicer),
        }
    }

    /// Disconnect all servicer queues, which tells their threads to join.
    /// This method consumes the Client object it is called on, ensuring no other methods can be
    /// called on it.
    pub fn quit(self) {
        // The servicer message queues are disconnected when `self` goes out of scope here. This
        // informs the servicers to disconnect from their sockets and join their parent thread.
    }

    /// If the servicer is still connected, we add `controller_input` to the list of unacknowledged
    /// controller inputs. The servicer handles the compression, network transmission, and
    /// receipt of acknowledgment for any inputs the server has received.
    ///
    /// Returns an error if there is no connection to the servicer. Whether there is a problem
    /// compressing the control sequence cannot be told here: the servicer compresses it later and
    /// in its own thread, along with all inputs that the server has not acknowledged by then, and
    /// warns where that fails. So an input is handed on whatever its size is.
    pub fn send_controller_input(&mut self, controller_input: BitVec) -> (r: Result<
        (),
        ApplicationError,
    >)
        ensures
            old(self).is_shut_down() ==> {
                &&& r == Err::<(), ApplicationError>(ApplicationError::Shutdown)
                &&& *final(self) == *old(self)
            },
            !old(self).is_shut_down() ==> {
                &&& final(self).to_low_latency() == old(self).to_low_latency().push(
                    (low_latency::ApplicationMessage::Control(controller_input), r is Ok),
                )
                &&& r matches Err(err) ==> err == ApplicationError::Shutdown
                &&& final(self).is_shut_down() == (r is Err)
                &&& final(self).history() == old(self).history()
                &&& final(self).held_state() == old(self).held_state()
                &&& final(self).from_reliable() == old(self).from_reliable()
                &&& final(self).to_reliable() == old(self).to_reliable()
                &&& final(self).from_low_latency() == old(self).from_low_latency()
            },
    {
        if self.shutdown {
            return Err(ApplicationError::Shutdown);
        }
        let msg = low_latency::ApplicationMessage::Control(controller_input);
        if self.to_low_latency_servicer.send(msg) {
            Ok(())
        } else {
            self.shutdown = true;
            Err(ApplicationError::Shutdown)
        }
    }

    /// Sends a chat message to the server.
    pub fn send_chat_message(&mut self, chat_msg: String) -> (r: Result<(), ApplicationError>)
        ensures
            old(self).is_shut_down() ==> {
                &&& r == Err::<(), ApplicationError>(ApplicationError::Shutdown)
                &&& *final(self) == *old(self)
            },
            !old(self).is_shut_down() ==> {
                &&& final(self).to_reliable() == old(self).to_reliable().push(
                    (reliable::ApplicationMessage::ChatMessage(chat_msg), r is Ok),
                )
                &&& r matches Err(err) ==> err == ApplicationError::Shutdown
                &&& final(self).is_shut_down() == (r is Err)
                &&& final(self).history() == old(self).history()
                &&& final(self).held_state() == old(self).held_state()
                &&& final(self).from_reliable() == old(self).from_reliable()
                &&& final(self).from_low_latency() == old(self).from_low_latency()
                &&& final(self).to_low_latency() == old(self).to_low_latency()
            },
    {
        if self.shutdown {
            return Err(ApplicationError::Shutdown);
        }
        // Send the chat string to the reliable servicer, who forwards it to the server. The server
        // is responsible for populating the username attached to the chat message.

        let msg = reliable::ApplicationMessage::ChatMessage(chat_msg);
        if self.to_reliable_servicer.send(msg) {
            Ok(())
        } else {
            // Our reliable servicer queue has been disconnected. Time to shutdown.
            self.shutdown = true;
            Err(ApplicationError::Shutdown)
        }
    }

    /// Consumes the latest world-state (currently just an opaque byte vector) sent to us from the
    /// server. It is empty where none has come since the last call.
    pub fn take_world_state(&mut self) -> (r: Result<Vec<u8>, ApplicationError>)
        ensures
            old(self).is_shut_down() ==> {
                &&& r == Err::<Vec<u8>, ApplicationError>(ApplicationError::Shutdown)
                &&& *final(self) == *old(self)
            },
            !old(self).is_shut_down() ==> {
                &&& one_round(old(self).from_low_latency(), final(self).from_low_latency())
                &&& final(self).history() == old(self).history()
                &&& final(self).from_reliable() == old(self).from_reliable()
                &&& final(self).to_reliable() == old(self).to_reliable()
                &&& final(self).to_low_latency() == old(self).to_low_latency()
                &&& final(self).is_shut_down() == !still_connected(
                    newer(old(self).from_low_latency(), final(self).from_low_latency()),
                )
                &&& if final(self).is_shut_down() {
                    &&& r == Err::<Vec<u8>, ApplicationError>(ApplicationError::Shutdown)
                    &&& final(self).held_state() == old(self).held_state()
                } else {
                    &&& r matches Ok(world_state) && world_state@ == (match latest_state(
                        old(self).held_state(),
                        messages(newer(old(self).from_low_latency(), final(self).from_low_latency())),
                    ) {
                        Some(latest) => latest@,
                        None => Seq::empty(),
                    })
                    &&& final(self).held_state() == None::<Vec<u8>>
                }
            },
    {
        if self.shutdown {
            return Err(ApplicationError::Shutdown);
        }
        // Drain the incoming message queue from our low latency servicer before giving away our
        // world state (which comes from the low latency servicer).

        match self.from_low_latency_servicer.drain() {
            Ok(msgs) => {
                // Use a swap trick to give away our internal data without invalidating its
                // variable.
                let mut held: Option<Vec<u8>> = None;
                std::mem::swap(&mut self.world_state, &mut held);
                match newest_world_state(held, msgs) {
                    Some(world_state) => Ok(world_state),
                    None => Ok(Vec::new()),
                }
            },
            Err(_) => {
                self.shutdown = true;
                Err(ApplicationError::Shutdown)
            },
        }
    }

    /// Consumes all previously unconsumed chat history from the server.
    pub fn take_chat_history(&mut self) -> (r: Result<Vec<ChatMessage>, ApplicationError>)
        ensures
            old(self).is_shut_down() ==> {
                &&& r == Err::<Vec<ChatMessage>, ApplicationError>(ApplicationError::Shutdown)
                &&& *final(self) == *old(self)
            },
            !old(self).is_shut_down() ==> {
                &&& one_round(old(self).from_reliable(), final(self).from_reliable())
                &&& final(self).held_state() == old(self).held_state()
                &&& final(self).to_reliable() == old(self).to_reliable()
                &&& final(self).from_low_latency() == old(self).from_low_latency()
                &&& final(self).to_low_latency() == old(self).to_low_latency()
                &&& final(self).is_shut_down() == !still_connected(
                    newer(old(self).from_reliable(), final(self).from_reliable()),
                )
                &&& if final(self).is_shut_down() {
                    &&& r == Err::<Vec<ChatMessage>, ApplicationError>(ApplicationError::Shutdown)
                    &&& final(self).history() == old(self).history()
                } else {
                    &&& r matches Ok(chat_history) && chat_history@ == old(self).history() + chats(
                        messages(newer(old(self).from_reliable(), final(self).from_reliable())),
                    )
                    &&& final(self).history() == Seq::<ChatMessage>::empty()
                }
            },
    {
        if self.shutdown {
            return Err(ApplicationError::Shutdown);
        }
        // Drain the incoming message queue from our reliable servicer before giving away our chat
        // history (which comes from the reliable servicer).

        match self.from_reliable_servicer.drain() {
            Ok(msgs) => {
                // Use a swap trick to give away our internal data without invalidating its
                // variable.
                let mut history: Vec<ChatMessage> = Vec::new();
                std::mem::swap(&mut self.chat_history, &mut history);
                Ok(extended_chat_history(history, msgs))
            },
            Err(_) => {
                self.shutdown = true;
                Err(ApplicationError::Shutdown)
            },
        }
    }
}

/// Chat messages keep their order, and none is lost or repeated, however they are split between
/// two calls that consume them.
pub proof fn lemma_chats_come_in_order(
    first: Seq<reliable::ServicerMessage>,
    second: Seq<reliable::ServicerMessage>,
)
    ensures
        chats(first + second) == chats(first) + chats(second),
    decreases second.len(),
{
    if second.len() == 0 {
        assert(first + second =~= first);
        assert(chats(first) + chats(second) =~= chats(first));
    } else {
        lemma_chats_come_in_order(first, second.drop_last());
        assert((first + second).drop_last() =~= first + second.drop_last());
        assert(chats(first + second) =~= chats(first) + chats(second));
    }
}

/// Of the world states that arrive between two calls that consume them, only the last one counts,
/// however they arrive.
pub proof fn lemma_latest_state_counts(
    held: Option<Vec<u8>>,
    first: Seq<low_latency::ServicerMessage>,
    second: Seq<low_latency::ServicerMessage>,
)
    ensures
        latest_state(held, first + second) == latest_state(latest_state(held, first), second),
{
    if second.len() == 0 {
        assert(first + second =~= first);
    } else {
        assert((first + second).last() == second.last());
    }
}

/// A world state that arrives is the latest one, byte for byte, whatever is in it and whatever came
/// before. Where none arrives, the one that was held stays.
pub proof fn lemma_world_state_is_kept_whole(
    held: Option<Vec<u8>>,
    msgs: Seq<low_latency::ServicerMessage>,
    world_state: Vec<u8>,
)
    ensures
        latest_state(held, msgs.push(low_latency::ServicerMessage::WorldState(world_state)))
            == Some(world_state),
        latest_state(held, Seq::empty()) == held,
{
}

/// Every chat message that arrives is added to the history as it is, whoever wrote it. The tick
/// that the server received last adds nothing.
pub proof fn lemma_every_chat_is_kept(
    msgs: Seq<reliable::ServicerMessage>,
    chat: ChatMessage,
    tick: usize,
)
    ensures
        chats(Seq::empty()) == Seq::<ChatMessage>::empty(),
        chats(msgs.push(reliable::ServicerMessage::ChatMessage(chat))) == chats(msgs).push(chat),
        chats(msgs.push(reliable::ServicerMessage::LastTickReceived(tick))) == chats(msgs),
{
    assert(msgs.push(reliable::ServicerMessage::ChatMessage(chat)).drop_last() =~= msgs);
    assert(msgs.push(reliable::ServicerMessage::LastTickReceived(tick)).drop_last() =~= msgs);
}

} // verus!
