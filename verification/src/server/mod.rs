use crate::channel::{
    drain_outcome, newer, one_round, MpscInbox, Receipt, SpmcInbox, SpmcOutbox,
};
use crate::control::ControllerSequence;
use crate::msg::{ClientData, Drop, Username};
use crate::util::drain_spmc_receiver;
use std::sync::mpsc;
use vstd::prelude::*;

pub mod low_latency;
pub mod reliable;

verus! {

/// Represents messages passed from client servicer threads to the main application thread.
#[derive(Clone, Debug)]
pub enum ServicerPayload {
    /// A message that will be visible to all players.
    ChatMessage(String),
    /// A series of control inputs -- one for each game tick since the last tick received.
    ControllerSequence(ControllerSequence),
    /// Used to authenticate a user.
    ClientData(ClientData),
}

/// Represents messages passed from servicer threads to the main application thread, along
/// with the user the message originated from over the network.
#[derive(Clone, Debug)]
pub struct ServicerMessage {
    /// Originator's user name.
    pub from: Username,
    /// The message payload to be handled by the application thread.
    pub payload: ServicerPayload,
}

/// The application's side of a server, which talks to its servicers through queues.
pub struct Server {
    from_servicer: MpscInbox<ServicerMessage>,
    to_low_latency_servicer: SpmcOutbox<low_latency::ApplicationMessage>,
    to_reliable_servicer: SpmcOutbox<reliable::ToClient>,
}

impl Server {
    /// What the queue from the servicers answered.
    pub closed spec fn from_servicer(&self) -> Seq<Receipt<ServicerMessage>> {
        self.from_servicer.answers()
    }

    /// What was handed to the low-latency servicer.
    pub closed spec fn to_low_latency(&self) -> Seq<(low_latency::ApplicationMessage, bool)> {
        self.to_low_latency_servicer.attempts()
    }

    /// What was handed to the reliable servicers.
    pub closed spec fn to_reliable(&self) -> Seq<(reliable::ToClient, bool)> {
        self.to_reliable_servicer.attempts()
    }

    /// A server whose servicers are at the other ends of these queues.
    pub fn new(
        from_servicer: mpsc::Receiver<ServicerMessage>,
        to_low_latency_servicer: spmc::Sender<low_latency::ApplicationMessage>,
        to_reliable_servicer: spmc::Sender<reliable::ToClient>,
    ) -> (r: Self)
        ensures
            r.from_servicer() == Seq::<Receipt<ServicerMessage>>::empty(),
            r.to_low_latency() == Seq::<(low_latency::ApplicationMessage, bool)>::empty(),
            r.to_reliable() == Seq::<(reliable::ToClient, bool)>::empty(),
    {
        Server {
            from_servicer: MpscInbox::new(from_servicer),
            to_low_latency_servicer: SpmcOutbox::new(to_low_latency_servicer),
            to_reliable_servicer: SpmcOutbox::new(to_reliable_servicer),
        }
    }

    /// Hands a message to the low-latency servicer. It is lost where the servicer is gone.
    pub fn send_low_latency(&mut self, msg: low_latency::ApplicationMessage)
        ensures
            exists|taken: bool| #[trigger]
                old(self).to_low_latency().push((msg, taken)) == final(self).to_low_latency(),
            final(self).to_reliable() == old(self).to_reliable(),
            final(self).from_servicer() == old(self).from_servicer(),
    {
        let taken = self.to_low_latency_servicer.send(msg);
        assert(old(self).to_low_latency().push((msg, taken)) == self.to_low_latency());
    }

    /// Hands a message to the reliable servicers, one of which takes it from the queue. It is lost
    /// where that is the servicer of another user than the one it is intended for, and where all of
    /// them are gone.
    pub fn send_reliable(&mut self, msg: reliable::ToClient)
        ensures
            exists|taken: bool| #[trigger]
                old(self).to_reliable().push((msg, taken)) == final(self).to_reliable(),
            final(self).to_low_latency() == old(self).to_low_latency(),
            final(self).from_servicer() == old(self).from_servicer(),
    {
        let taken = self.to_reliable_servicer.send(msg);
        assert(old(self).to_reliable().push((msg, taken)) == self.to_reliable());
    }

    /// Disconnects all servicer queues, which tells their threads to join.
    pub fn quit(self) {
        // The servicer message queues are disconnected when `self` goes out of scope here. This
        // informs the servicers to disconnect from their sockets and join their parent thread.
    }
}

/// Takes all messages that have arrived on `receiver`, unless the application thread has
/// disconnected it.
pub fn drain_receiver<M: Send>(receiver: &mut SpmcInbox<M>) -> (r: Result<Vec<M>, Drop>)
    ensures
        one_round(old(receiver).answers(), final(receiver).answers()),
        drain_outcome(newer(old(receiver).answers(), final(receiver).answers()), r),
{
    drain_spmc_receiver(receiver)
}

} // verus!
