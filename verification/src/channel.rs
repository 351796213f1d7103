use crate::msg::{CommError, Drop};
use std::sync::mpsc;
use vstd::prelude::*;

verus! {

/// The receiving end of a `std::sync::mpsc` channel. Its value is opaque here.
#[verifier::external_type_specification]
#[verifier::external_body]
#[verifier::reject_recursive_types(T)]
pub struct ExMpscReceiver<T>(mpsc::Receiver<T>);

/// The sending end of a `std::sync::mpsc` channel. Its value is opaque here.
#[verifier::external_type_specification]
#[verifier::external_body]
#[verifier::reject_recursive_types(T)]
pub struct ExMpscSender<T>(mpsc::Sender<T>);

/// The receiving end of an `spmc` channel. Its value is opaque here.
#[verifier::external_type_specification]
#[verifier::external_body]
#[verifier::reject_recursive_types(T)]
pub struct ExSpmcReceiver<T: Send>(spmc::Receiver<T>);

/// The sending end of an `spmc` channel. Its value is opaque here.
#[verifier::external_type_specification]
#[verifier::external_body]
#[verifier::reject_recursive_types(T)]
pub struct ExSpmcSender<T: Send>(spmc::Sender<T>);

/// What a channel answers when it is asked for a message.
pub enum Receipt<M> {
    /// The next message.
    Message(M),
    /// There is no message now.
    Empty,
    /// There is no message, and there will be none: the sending end is gone.
    Disconnected,
}

/// `receipts` are the answers of a channel that was asked until it had no message: every one but
/// the last is a message.
pub open spec fn is_complete<M>(receipts: Seq<Receipt<M>>) -> bool {
    &&& receipts.len() > 0
    &&& forall|i: int| 0 <= i < receipts.len() - 1 ==> (#[trigger] receipts[i]) is Message
    &&& !(receipts.last() is Message)
}

/// The messages among the answers of a channel that was asked until it had none.
pub open spec fn messages<M>(receipts: Seq<Receipt<M>>) -> Seq<M> {
    Seq::new((receipts.len() - 1) as nat, |i: int| receipts[i]->Message_0)
}

/// The sending end was still there when the channel had no more messages.
pub open spec fn still_connected<M>(receipts: Seq<Receipt<M>>) -> bool {
    receipts.last() is Empty
}

/// What one receipt makes of the messages gathered so far: `None` where there may be more to
/// come, else whether the sending end is still there.
pub fn gather<M>(gathered: &mut Vec<M>, receipt: Receipt<M>) -> (r: Option<bool>)
    ensures
        match receipt {
            Receipt::Message(message) => r == None::<bool> && final(gathered)@ == old(gathered)@.push(
                message,
            ),
            Receipt::Empty => r == Some(true) && final(gathered)@ == old(gathered)@,
            Receipt::Disconnected => r == Some(false) && final(gathered)@ == old(gathered)@,
        },
{
    match receipt {
        Receipt::Message(message) => {
            gathered.push(message);
            None
        },
        Receipt::Empty => Some(true),
        Receipt::Disconnected => Some(false),
    }
}

/// The messages that were gathered, or that the application thread is gone where the sending end
/// is.
pub fn drained<M>(gathered: Vec<M>, connected: bool) -> (r: Result<Vec<M>, Drop>)
    ensures
        connected ==> r == Ok::<Vec<M>, Drop>(gathered),
        !connected ==> r == Err::<Vec<M>, Drop>(Drop::ApplicationThreadDisconnected),
{
    if connected {
        Ok(gathered)
    } else {
        // The application thread disconnected; we should begin shutting down.
        Err(Drop::ApplicationThreadDisconnected)
    }
}

/// `r` is what draining a channel gives when it answers `receipts`: its messages, or an error
/// where the sending end turns out to be gone, whatever arrived before.
pub open spec fn drain_outcome<M>(receipts: Seq<Receipt<M>>, r: Result<Vec<M>, Drop>) -> bool {
    match r {
        Ok(gathered) => still_connected(receipts) && gathered@ == messages(receipts),
        Err(reason) => !still_connected(receipts) && reason == Drop::ApplicationThreadDisconnected,
    }
}

/// What a channel answered between `before` and `after`, the records of its answers.
pub open spec fn newer<M>(before: Seq<Receipt<M>>, after: Seq<Receipt<M>>) -> Seq<Receipt<M>> {
    after.skip(before.len() as int)
}

/// The channel was emptied once between `before` and `after`, the records of its answers.
pub open spec fn one_round<M>(before: Seq<Receipt<M>>, after: Seq<Receipt<M>>) -> bool {
    &&& after == before + newer(before, after)
    &&& is_complete(newer(before, after))
}

/// `message` was handed to a channel whose attempts were `before` and are `after`, and `r` is an
/// error exactly when the channel did not take it: the application thread is gone then.
pub open spec fn forwarded<M>(
    before: Seq<(M, bool)>,
    after: Seq<(M, bool)>,
    message: M,
    r: Result<(), CommError>,
) -> bool {
    exists|taken: bool| #[trigger]
        before.push((message, taken)) == after && r == (if taken {
            Ok::<(), CommError>(())
        } else {
            Err::<(), CommError>(CommError::Drop(Drop::ApplicationThreadDisconnected))
        })
}

/// The receiving end of an `mpsc` channel, with a record of what the channel answered.
#[verifier::reject_recursive_types(M)]
pub struct MpscInbox<M: Send> {
    receiver: mpsc::Receiver<M>,
    answers: Ghost<Seq<Receipt<M>>>,
}

impl<M: Send> MpscInbox<M> {
    /// What the channel has answered so far, in order.
    pub closed spec fn answers(&self) -> Seq<Receipt<M>> {
        self.answers@
    }

    pub fn new(receiver: mpsc::Receiver<M>) -> (r: Self)
        ensures
            r.answers() == Seq::<Receipt<M>>::empty(),
    {
        MpscInbox { receiver, answers: Ghost(Seq::empty()) }
    }

    /// Calls `std::sync::mpsc::Receiver::try_recv`. What it answers depends on what other threads
    /// have sent so far, so nothing is claimed of the answer itself. The contract claims that the
    /// answer is what is returned, and the one that is entered in the record, which nothing else
    /// writes.
    #[verifier::external_body]
    fn try_recv(&mut self) -> (r: Receipt<M>)
        ensures
            final(self).answers() == old(self).answers().push(r),
    {
        match self.receiver.try_recv() {
            Ok(message) => Receipt::Message(message),
            Err(mpsc::TryRecvError::Empty) => Receipt::Empty,
            Err(mpsc::TryRecvError::Disconnected) => Receipt::Disconnected,
        }
    }

    /// Takes all messages that have arrived. The second part of the result tells whether the
    /// sending end is still there.
    pub fn poll(&mut self) -> (r: (Vec<M>, bool))
        ensures
            one_round(old(self).answers(), final(self).answers()),
            r.0@ == messages(newer(old(self).answers(), final(self).answers())),
            r.1 == still_connected(newer(old(self).answers(), final(self).answers())),
    {
        let ghost before = self.answers();
        let mut gathered: Vec<M> = Vec::new();
        assert(before + newer(before, before) =~= before);
        loop
            invariant
                before == old(self).answers(),
                self.answers() == before + newer(before, self.answers()),
                newer(before, self.answers()).len() == gathered@.len(),
                forall|i: int|
                    0 <= i < gathered@.len() ==> #[trigger] newer(before, self.answers())[i]
                        == Receipt::Message(gathered@[i]),
            decreases usize::MAX - gathered@.len(),
        {
            let ghost so_far = newer(before, self.answers());
            let receipt = self.try_recv();
            assert(newer(before, self.answers()) =~= so_far.push(receipt));
            assert(self.answers() =~= before + newer(before, self.answers()));
            if let Some(connected) = gather(&mut gathered, receipt) {
                assert(gathered@ =~= messages(newer(before, self.answers())));
                return (gathered, connected);
            }
            assert(gathered.len() <= usize::MAX);
        }
    }

    /// Takes all messages that have arrived, unless the sending end is gone.
    pub fn drain(&mut self) -> (r: Result<Vec<M>, Drop>)
        ensures
            one_round(old(self).answers(), final(self).answers()),
            drain_outcome(newer(old(self).answers(), final(self).answers()), r),
    {
        let (gathered, connected) = self.poll();
        drained(gathered, connected)
    }
}

/// The receiving end of an `spmc` channel, with a record of what the channel answered.
#[verifier::reject_recursive_types(M)]
pub struct SpmcInbox<M: Send> {
    receiver: spmc::Receiver<M>,
    answers: Ghost<Seq<Receipt<M>>>,
}

impl<M: Send> SpmcInbox<M> {
    /// What the channel has answered so far, in order.
    pub closed spec fn answers(&self) -> Seq<Receipt<M>> {
        self.answers@
    }

    pub fn new(receiver: spmc::Receiver<M>) -> (r: Self)
        ensures
            r.answers() == Seq::<Receipt<M>>::empty(),
    {
        SpmcInbox { receiver, answers: Ghost(Seq::empty()) }
    }

    /// Calls `spmc::Receiver::try_recv`. What it answers depends on what other threads have sent
    /// so far, so nothing is claimed of the answer itself. The contract claims that the answer is
    /// what is returned, and the one that is entered in the record, which nothing else writes.
    #[verifier::external_body]
    fn try_recv(&mut self) -> (r: Receipt<M>)
        ensures
            final(self).answers() == old(self).answers().push(r),
    {
        match self.receiver.try_recv() {
            Ok(message) => Receipt::Message(message),
            Err(spmc::TryRecvError::Empty) => Receipt::Empty,
            Err(spmc::TryRecvError::Disconnected) => Receipt::Disconnected,
        }
    }

    /// Takes all messages that have arrived. The second part of the result tells whether the
    /// sending end is still there.
    pub fn poll(&mut self) -> (r: (Vec<M>, bool))
        ensures
            one_round(old(self).answers(), final(self).answers()),
            r.0@ == messages(newer(old(self).answers(), final(self).answers())),
            r.1 == still_connected(newer(old(self).answers(), final(self).answers())),
    {
        let ghost before = self.answers();
        let mut gathered: Vec<M> = Vec::new();
        assert(before + newer(before, before) =~= before);
        loop
            invariant
                before == old(self).answers(),
                self.answers() == before + newer(before, self.answers()),
                newer(before, self.answers()).len() == gathered@.len(),
                forall|i: int|
                    0 <= i < gathered@.len() ==> #[trigger] newer(before, self.answers())[i]
                        == Receipt::Message(gathered@[i]),
            decreases usize::MAX - gathered@.len(),
        {
            let ghost so_far = newer(before, self.answers());
            let receipt = self.try_recv();
            assert(newer(before, self.answers()) =~= so_far.push(receipt));
            assert(self.answers() =~= before + newer(before, self.answers()));
            if let Some(connected) = gather(&mut gathered, receipt) {
                assert(gathered@ =~= messages(newer(before, self.answers())));
                return (gathered, connected);
            }
            assert(gathered.len() <= usize::MAX);
        }
    }

    /// Takes all messages that have arrived, unless the sending end is gone.
    pub fn drain(&mut self) -> (r: Result<Vec<M>, Drop>)
        ensures
            one_round(old(self).answers(), final(self).answers()),
            drain_outcome(newer(old(self).answers(), final(self).answers()), r),
    {
        let (gathered, connected) = self.poll();
        drained(gathered, connected)
    }
}

/// The sending end of an `mpsc` channel, with a record of what was handed to it.
#[verifier::reject_recursive_types(M)]
pub struct MpscOutbox<M: Send> {
    sender: mpsc::Sender<M>,
    attempts: Ghost<Seq<(M, bool)>>,
}

impl<M: Send> MpscOutbox<M> {
    /// Every message that was handed to the channel, and whether the channel took it.
    pub closed spec fn attempts(&self) -> Seq<(M, bool)> {
        self.attempts@
    }

    pub fn new(sender: mpsc::Sender<M>) -> (r: Self)
        ensures
            r.attempts() == Seq::<(M, bool)>::empty(),
    {
        MpscOutbox { sender, attempts: Ghost(Seq::empty()) }
    }

    /// Calls `std::sync::mpsc::Sender::send`. Whether it succeeds depends on whether the receiving
    /// end is still there, so nothing is claimed of that. The contract claims that success is what
    /// is returned, and what is entered in the record, with the message, which nothing else writes.
    #[verifier::external_body]
    fn try_send(&mut self, message: M) -> (r: bool)
        ensures
            final(self).attempts() == old(self).attempts().push((message, r)),
    {
        self.sender.send(message).is_ok()
    }

    /// Hands `message` to the channel. Returns `false` where the receiving end is gone.
    pub fn send(&mut self, message: M) -> (r: bool)
        ensures
            final(self).attempts() == old(self).attempts().push((message, r)),
    {
        self.try_send(message)
    }

    /// Hands `message` to the application thread, which is gone where the channel does not take
    /// it.
    pub fn forward(&mut self, message: M) -> (r: Result<(), CommError>)
        ensures
            forwarded(old(self).attempts(), final(self).attempts(), message, r),
    {
        let ghost before = self.attempts();
        let taken = self.send(message);
        assert(before.push((message, taken)) == self.attempts());
        if taken {
            Ok(())
        } else {
            Err(CommError::Drop(Drop::ApplicationThreadDisconnected))
        }
    }
}

/// The sending end of an `spmc` channel, with a record of what was handed to it.
#[verifier::reject_recursive_types(M)]
pub struct SpmcOutbox<M: Send> {
    sender: spmc::Sender<M>,
    attempts: Ghost<Seq<(M, bool)>>,
}

impl<M: Send> SpmcOutbox<M> {
    /// Every message that was handed to the channel, and whether the channel took it.
    pub closed spec fn attempts(&self) -> Seq<(M, bool)> {
        self.attempts@
    }

    pub fn new(sender: spmc::Sender<M>) -> (r: Self)
        ensures
            r.attempts() == Seq::<(M, bool)>::empty(),
    {
        SpmcOutbox { sender, attempts: Ghost(Seq::empty()) }
    }

    /// Calls `spmc::Sender::send`. Whether it succeeds depends on whether a receiving end is
    /// still there, so nothing is claimed of that. The contract claims that success is what is
    /// returned, and what is entered in the record, with the message, which nothing else writes.
    #[verifier::external_body]
    fn try_send(&mut self, message: M) -> (r: bool)
        ensures
            final(self).attempts() == old(self).attempts().push((message, r)),
    {
        self.sender.send(message).is_ok()
    }

    /// Hands `message` to the channel. Returns `false` where the receiving end is gone.
    pub fn send(&mut self, message: M) -> (r: bool)
        ensures
            final(self).attempts() == old(self).attempts().push((message, r)),
    {
        self.try_send(message)
    }
}

/// A channel that was emptied gave a message for every answer but the last, and the messages are
/// those answers, in order. The last answer tells whether the sending end was still there. Answers
/// of earlier rounds stay as they were.
pub proof fn lemma_round_gives_every_message<M>(before: Seq<Receipt<M>>, after: Seq<Receipt<M>>)
    requires
        one_round(before, after),
    ensures
        before.len() < after.len(),
        forall|i: int| 0 <= i < before.len() ==> #[trigger] after[i] == before[i],
        messages(newer(before, after)).len() == after.len() - before.len() - 1,
        forall|i: int|
            0 <= i < after.len() - before.len() - 1 ==> Receipt::Message(
                #[trigger] messages(newer(before, after))[i],
            ) == after[before.len() + i],
        still_connected(newer(before, after)) <==> after.last() == Receipt::<M>::Empty,
        !still_connected(newer(before, after)) <==> after.last() == Receipt::<M>::Disconnected,
{
    let round = newer(before, after);
    assert forall|i: int| 0 <= i < before.len() implies #[trigger] after[i] == before[i] by {
        assert((before + round)[i] == before[i]);
    }
    assert forall|i: int| 0 <= i < round.len() implies #[trigger] round[i] == after[before.len()
        + i] by {}
    assert forall|i: int| 0 <= i < after.len() - before.len() - 1 implies Receipt::Message(
        #[trigger] messages(round)[i],
    ) == after[before.len() + i] by {
        assert(round[i] is Message);
    }
    assert(after.last() == round.last());
}

/// Draining gives the messages of the round, all of them and in order, exactly when the sending end
/// was still there. Otherwise it gives an error, whatever came before.
pub proof fn lemma_drain_gives_every_message<M>(
    before: Seq<Receipt<M>>,
    after: Seq<Receipt<M>>,
    r: Result<Vec<M>, Drop>,
)
    requires
        one_round(before, after),
        drain_outcome(newer(before, after), r),
    ensures
        match r {
            Ok(gathered) => {
                &&& after.last() == Receipt::<M>::Empty
                &&& gathered@.len() == after.len() - before.len() - 1
                &&& forall|i: int|
                    0 <= i < gathered@.len() ==> Receipt::Message(#[trigger] gathered@[i])
                        == after[before.len() + i]
            },
            Err(reason) => {
                &&& after.last() == Receipt::<M>::Disconnected
                &&& reason == Drop::ApplicationThreadDisconnected
            },
        },
{
    lemma_round_gives_every_message(before, after);
    if let Ok(gathered) = r {
        assert forall|i: int| 0 <= i < gathered@.len() implies Receipt::Message(
            #[trigger] gathered@[i],
        ) == after[before.len() + i] by {
            assert(gathered@[i] == messages(newer(before, after))[i]);
        }
    }
}

/// Forwarding hands the very message to the channel, once, and fails exactly when the channel did
/// not take it.
pub proof fn lemma_forwarding_hands_over<M>(
    before: Seq<(M, bool)>,
    after: Seq<(M, bool)>,
    message: M,
    r: Result<(), CommError>,
)
    requires
        forwarded(before, after, message, r),
    ensures
        after == before.push((message, r is Ok)),
        r matches Err(err) ==> err == CommError::Drop(Drop::ApplicationThreadDisconnected),
{
}

} // verus!
