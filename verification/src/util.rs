use crate::addr::SocketAddr;
use crate::channel::{drain_outcome, newer, one_round, MpscInbox, SpmcInbox};
use crate::io::{error_kind, io_error_kind, IoErrorKind};
use crate::msg::{CommError, Drop, Warning};
use vstd::prelude::*;

verus! {

/// The size of the largest datagram that is sent or received.
pub const MAX_PACKET_SIZE: usize = 1500;

/// Takes all messages that have arrived on `receiver`, unless the application thread has
/// disconnected it.
pub fn drain_spmc_receiver<M: Send>(receiver: &mut SpmcInbox<M>) -> (r: Result<Vec<M>, Drop>)
    ensures
        one_round(old(receiver).answers(), final(receiver).answers()),
        drain_outcome(newer(old(receiver).answers(), final(receiver).answers()), r),
{
    receiver.drain()
}

/// Takes all messages that have arrived on `receiver`, unless the application thread has
/// disconnected it.
pub fn drain_mpsc_receiver<M: Send>(receiver: &mut MpscInbox<M>) -> (r: Result<Vec<M>, Drop>)
    ensures
        one_round(old(receiver).answers(), final(receiver).answers()),
        drain_outcome(newer(old(receiver).answers(), final(receiver).answers()), r),
{
    receiver.drain()
}

/// A buffer of the maximum packet size.
pub fn receive_buffer() -> (r: Vec<u8>)
    ensures
        r@ == Seq::new(MAX_PACKET_SIZE as nat, |i: int| 0u8),
{
    let mut buf = Vec::<u8>::with_capacity(MAX_PACKET_SIZE);
    buf.resize(MAX_PACKET_SIZE, 0);
    assert(buf@ =~= Seq::new(MAX_PACKET_SIZE as nat, |i: int| 0u8));
    buf
}

/// An I/O error of this kind means that there was nothing to receive.
pub open spec fn is_silence(kind: IoErrorKind) -> bool {
    kind == IoErrorKind::WouldBlock || kind == IoErrorKind::TimedOut
}

/// Whether an I/O error means that there was nothing to receive. Timing out probably just means we
/// didn't receive any data.
pub fn nothing_received(err: &std::io::Error) -> (r: bool)
    ensures
        r == is_silence(io_error_kind(*err)),
{
    match error_kind(err) {
        IoErrorKind::WouldBlock => true,
        IoErrorKind::TimedOut => true,
        _ => false,
    }
}

/// What comes of an attempt to read within a given time: how many bytes were read, or nothing
/// where none came in time. Platforms differ in which of the two kinds of error they report then. A
/// connection that has itself timed out reports one of them too, and cannot be told from one on
/// which nothing was said: it counts as silent until writing to it fails.
pub fn maybe_read(read: Result<usize, std::io::Error>) -> (r: Result<Option<usize>, std::io::Error>)
    ensures
        r == (match read {
            Ok(size) => Ok::<Option<usize>, std::io::Error>(Some(size)),
            Err(err) => if is_silence(io_error_kind(err)) {
                Ok::<Option<usize>, std::io::Error>(None)
            } else {
                Err::<Option<usize>, std::io::Error>(err)
            },
        }),
{
    match read {
        Ok(size) => Ok(Some(size)),
        Err(err) => if nothing_received(&err) {
            Ok(None)
        } else {
            Err(err)
        },
    }
}

/// The first `size` bytes of `buf`, with zeros after its end.
pub open spec fn resized(buf: Seq<u8>, size: nat) -> Seq<u8> {
    Seq::new(
        size,
        |i: int|
            if i < buf.len() {
                buf[i]
            } else {
                0u8
            },
    )
}

/// What comes of an attempt to receive a datagram into `buf`: the datagram and its source where
/// one came, nothing where none was there, and a warning where something else went wrong.
pub fn maybe_receive_udp(
    buf: Vec<u8>,
    received: Result<(usize, SocketAddr), std::io::Error>,
) -> (r: Result<Option<(Vec<u8>, SocketAddr)>, CommError>)
    ensures
        match received {
            Ok((size, src)) => r matches Ok(Some(datagram)) && datagram.0@ == resized(
                buf@,
                size as nat,
            ) && datagram.1 == src,
            Err(err) => if is_silence(io_error_kind(err)) {
                r == Ok::<Option<(Vec<u8>, SocketAddr)>, CommError>(None)
            } else {
                r == Err::<Option<(Vec<u8>, SocketAddr)>, CommError>(
                    CommError::Warning(Warning::IoFailure(err)),
                )
            },
        },
{
    let mut buf = buf;
    match received {
        Ok((size, src)) => {
            // Truncate to the size of the packet received.
            let ghost whole = buf@;
            buf.resize(size, 0);
            assert(buf@ =~= resized(whole, size as nat)) by {
                assert forall|i: int| 0 <= i < size implies buf@[i] == resized(
                    whole,
                    size as nat,
                )[i] by {
                    if size > whole.len() && i < whole.len() {
                        assert(buf@.subrange(0, whole.len() as int)[i] == whole[i]);
                    }
                }
            }
            Ok(Some((buf, src)))
        },
        Err(err) => if nothing_received(&err) {
            Ok(None)
        } else {
            // Other errors are unexpected.
            Err(CommError::Warning(Warning::IoFailure(err)))
        },
    }
}

/// The datagram that is handed on is what was received, byte for byte and of the size received: the
/// bytes of the buffer that the datagram filled, and no others.
pub proof fn lemma_datagram_is_what_filled_the_buffer(buf: Seq<u8>, size: nat)
    ensures
        resized(buf, size).len() == size,
        size <= buf.len() ==> resized(buf, size) == buf.take(size as int),
        size > buf.len() ==> resized(buf, size) == buf + Seq::new(
            (size - buf.len()) as nat,
            |i: int| 0u8,
        ),
{
    if size <= buf.len() {
        assert(resized(buf, size) =~= buf.take(size as int));
    } else {
        assert(resized(buf, size) =~= buf + Seq::new((size - buf.len()) as nat, |i: int| 0u8));
    }
}

/// Two kinds of error mean that nothing was there to receive, and no others do.
pub proof fn lemma_silence(kind: IoErrorKind)
    ensures
        is_silence(kind) <==> kind is WouldBlock || kind is TimedOut,
{
}

} // verus!
