# Game Network

A networking layer for games. It follows a client-server model and uses both TCP (reliable) servicer
threads and UDP (low-latency) servicer threads to fulfill separate quality-of-service contracts for
different kinds of data.

The server has a single UDP servicer and `N` TCP servicers, while each of `N` clients has one UDP and
one TCP servicer. Each servicer thread communicates bi-directionally via in-process queues with the
main thread.

## Layout

`src/` is the library. Its behaviour is stated in contracts that Verus proves.

- `bitvec`: vectors of bits, and the compressed form of a run of them.
- `control`: runs of controller states, one for each game tick.
- `msg`: the messages that clients and servers exchange, and what can go wrong.
- `addr`, `address_book`: socket addresses, and which user is at which.
- `channel`, `util`: the in-process queues, and buffers for datagrams.
- `io`: the kinds of I/O errors.
- `client`, `server`: the application's side of a connection and the servicers.

The servicers take what was received as plain values and say what is to be sent. Queues are real
ones. Their ends keep a ghost record of what the channel answered and of what was handed to it, over
which the contracts speak. The methods of `channel` that make the channel's calls are trusted: that
each enters in the record the answer that it returns is assumed, not proved. Nothing else writes the
record, and all that is said of a queue beyond that is proved from it.

`app/` holds what is left: sockets, threads, and turning messages into bytes.

`tests/` run the library on concrete values.
