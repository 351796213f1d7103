use game_network::addr::SocketAddr;
use game_network::bitvec::BitVec;
use game_network::client::low_latency;
use game_network::client::reliable;
use game_network::client::{
    credentials, extended_chat_history, low_latency_server_addr, newest_world_state, Client,
};
use game_network::msg;
use game_network::msg::reliable::{ChatMessage, JoinResponse};
use game_network::msg::{ApplicationError, CommError, Drop, Username, Warning};
use std::io::{Error, ErrorKind};
use std::sync::mpsc;

struct Ends {
    to_client_reliable: mpsc::Sender<reliable::ServicerMessage>,
    from_client_reliable: mpsc::Receiver<reliable::ApplicationMessage>,
    to_client_low_latency: mpsc::Sender<low_latency::ServicerMessage>,
    from_client_low_latency: mpsc::Receiver<low_latency::ApplicationMessage>,
}

fn client() -> (Client, Ends) {
    let (to_client_reliable, from_re) = mpsc::channel();
    let (to_re, from_client_reliable) = mpsc::channel();
    let (to_client_low_latency, from_ll) = mpsc::channel();
    let (to_ll, from_client_low_latency) = mpsc::channel();
    (
        Client::connect(from_re, to_re, from_ll, to_ll),
        Ends {
            to_client_reliable,
            from_client_reliable,
            to_client_low_latency,
            from_client_low_latency,
        },
    )
}

fn chat(from: &str, message: &str) -> ChatMessage {
    ChatMessage { from: Username(String::from(from)), message: String::from(message) }
}

fn undecodable<T>() -> Result<T, Box<bincode::ErrorKind>> {
    match bincode::deserialize::<u32>(&[]) {
        Err(err) => Err(err),
        Ok(_) => unreachable!(),
    }
}

#[test]
fn client_takes_the_latest_world_state() {
    let (mut client, ends) = client();
    assert_eq!(Ok(vec![]), client.take_world_state());
    for state in [vec![1u8], vec![2u8], vec![3u8]] {
        ends.to_client_low_latency
            .send(low_latency::ServicerMessage::WorldState(state))
            .unwrap();
    }
    assert_eq!(Ok(vec![3u8]), client.take_world_state());
    assert_eq!(Ok(vec![]), client.take_world_state());
}

#[test]
fn client_takes_all_chats_in_order() {
    let (mut client, ends) = client();
    assert_eq!(Ok(vec![]), client.take_chat_history());
    for msg in [
        reliable::ServicerMessage::ChatMessage(chat("ann", "hi")),
        reliable::ServicerMessage::LastTickReceived(4),
        reliable::ServicerMessage::ChatMessage(chat("bob", "ho")),
    ] {
        ends.to_client_reliable.send(msg).unwrap();
    }
    assert_eq!(Ok(vec![chat("ann", "hi"), chat("bob", "ho")]), client.take_chat_history());
    assert_eq!(Ok(vec![]), client.take_chat_history());
}

#[test]
fn client_hands_messages_to_its_servicers() {
    let (mut client, ends) = client();
    assert_eq!(Ok(()), client.send_chat_message(String::from("hello")));
    assert_eq!(
        reliable::ApplicationMessage::ChatMessage(String::from("hello")),
        ends.from_client_reliable.try_recv().unwrap()
    );
    assert_eq!(Ok(()), client.send_controller_input(BitVec::from_slice(&[true])));
    match ends.from_client_low_latency.try_recv().unwrap() {
        low_latency::ApplicationMessage::Control(state) => {
            assert_eq!(BitVec::from_slice(&[true]), state)
        }
    }
}

#[test]
fn client_hands_on_inputs_of_any_size() {
    let (mut client, ends) = client();
    for bits in [&[true, false][..], &[true][..], &[][..]] {
        assert_eq!(Ok(()), client.send_controller_input(BitVec::from_slice(bits)));
    }
    let sizes: Vec<usize> = ends
        .from_client_low_latency
        .try_iter()
        .map(|msg| match msg {
            low_latency::ApplicationMessage::Control(state) => state.len(),
        })
        .collect();
    assert_eq!(vec![2, 1, 0], sizes);
    assert!(ends.from_client_reliable.try_recv().is_err());
}

#[test]
fn client_stays_shut_down() {
    let (mut client, ends) = client();
    ends.to_client_low_latency
        .send(low_latency::ServicerMessage::WorldState(vec![1]))
        .unwrap();
    drop(ends.to_client_low_latency);
    // The servicer is gone, so that what it sent does not count.
    assert_eq!(Err(ApplicationError::Shutdown), client.take_world_state());
    // The other servicer is still there, but the client is shut down as a whole.
    assert_eq!(Err(ApplicationError::Shutdown), client.take_chat_history());
    assert_eq!(Err(ApplicationError::Shutdown), client.send_chat_message(String::from("x")));
    assert_eq!(
        Err(ApplicationError::Shutdown),
        client.send_controller_input(BitVec::new())
    );
    assert!(ends.from_client_reliable.try_recv().is_err());
}

#[test]
fn client_notices_lost_servicers() {
    let (mut chatting, ends) = client();
    drop(ends.from_client_reliable);
    assert_eq!(Err(ApplicationError::Shutdown), chatting.send_chat_message(String::from("x")));
    let (mut playing, ends) = client();
    drop(ends.from_client_low_latency);
    assert_eq!(
        Err(ApplicationError::Shutdown),
        playing.send_controller_input(BitVec::new())
    );
    let (mut reading, ends) = client();
    drop(ends.to_client_reliable);
    assert_eq!(Err(ApplicationError::Shutdown), reading.take_chat_history());
}

#[test]
fn quitting_disconnects_the_queues() {
    let (client, ends) = client();
    client.quit();
    assert!(ends
        .to_client_low_latency
        .send(low_latency::ServicerMessage::WorldState(vec![]))
        .is_err());
    assert!(matches!(
        ends.from_client_reliable.try_recv(),
        Err(mpsc::TryRecvError::Disconnected)
    ));
}

#[test]
fn world_states_and_chats_add_up() {
    let states = |numbers: &[u8]| -> Vec<low_latency::ServicerMessage> {
        numbers.iter().map(|n| low_latency::ServicerMessage::WorldState(vec![*n])).collect()
    };
    assert_eq!(None, newest_world_state(None, vec![]));
    assert_eq!(Some(vec![9]), newest_world_state(Some(vec![9]), vec![]));
    let first = newest_world_state(Some(vec![9]), states(&[1, 2]));
    assert_eq!(Some(vec![2]), first);
    assert_eq!(
        newest_world_state(None, states(&[1, 2, 3])),
        newest_world_state(first, states(&[3]))
    );

    let chats = |numbers: &[usize]| -> Vec<reliable::ServicerMessage> {
        numbers
            .iter()
            .map(|n| {
                if *n == 0 {
                    reliable::ServicerMessage::LastTickReceived(0)
                } else {
                    reliable::ServicerMessage::ChatMessage(chat("ann", &format!("{}", n)))
                }
            })
            .collect()
    };
    let first = extended_chat_history(vec![], chats(&[1, 0, 2]));
    assert_eq!(vec![chat("ann", "1"), chat("ann", "2")], first);
    assert_eq!(
        extended_chat_history(vec![], chats(&[1, 0, 2, 0, 3])),
        extended_chat_history(first, chats(&[0, 3]))
    );
}

#[test]
fn credentials_name_the_user() {
    let cred = credentials(String::from("ann"), String::from("pw"), SocketAddr::loopback(7));
    assert_eq!(Username(String::from("ann")), cred.username);
    assert_eq!("pw", cred.password);
    assert_eq!(SocketAddr::loopback(7), cred.udp_addr);
    assert_eq!(
        msg::reliable::ClientMessage::JoinRequest(cred.clone()),
        reliable::Servicer::join_request(cred)
    );
}

#[test]
fn reliable_servicer_joins() {
    let (to_application, _from_servicer) = mpsc::channel();
    let (_to_servicer, from_application) = mpsc::channel();
    let mut servicer = reliable::Servicer::connect(to_application, from_application);
    assert_eq!(None, servicer.server_udp_port());
    assert_eq!(false, servicer.has_joined(Ok(())).unwrap());
    assert!(matches!(servicer.has_joined(Err(CommError::Exit)), Err(CommError::Exit)));
    let addr = SocketAddr::loopback(80);
    assert_eq!(None, low_latency_server_addr(addr, &servicer));

    let confirmation =
        msg::reliable::ServerMessage::JoinResponse(JoinResponse::Confirmation(1234));
    let outcome = servicer.spin_once(Ok(Some(confirmation)));
    assert!(reliable::keeps_spinning(&outcome));
    assert_eq!(true, servicer.has_joined(outcome).unwrap());
    assert_eq!(Some(1234), servicer.server_udp_port());
    assert_eq!(Some(SocketAddr::loopback(1234)), low_latency_server_addr(addr, &servicer));
}

#[test]
fn refused_client_exits() {
    let (to_application, _from_servicer) = mpsc::channel();
    let (_to_servicer, from_application) = mpsc::channel();
    let mut servicer = reliable::Servicer::connect(to_application, from_application);
    let refusal =
        msg::reliable::ServerMessage::JoinResponse(JoinResponse::AuthenticationError);
    let outcome = servicer.spin_once(Ok(Some(refusal)));
    assert!(!reliable::keeps_spinning(&outcome));
    assert!(matches!(outcome, Err(CommError::Exit)));
    assert_eq!(None, servicer.server_udp_port());
}

#[test]
fn reliable_servicer_forwards_both_ways() {
    let (to_application, from_servicer) = mpsc::channel();
    let (to_servicer, from_application) = mpsc::channel();
    let mut servicer = reliable::Servicer::connect(to_application, from_application);

    let message = msg::reliable::ServerMessage::ChatMessage(chat("ann", "hi"));
    servicer.spin_once(Ok(Some(message))).unwrap();
    servicer.spin_once(Ok(Some(msg::reliable::ServerMessage::LastTickReceived(8)))).unwrap();
    assert_eq!(
        reliable::ServicerMessage::ChatMessage(chat("ann", "hi")),
        from_servicer.try_recv().unwrap()
    );
    assert_eq!(
        reliable::ServicerMessage::LastTickReceived(8),
        from_servicer.try_recv().unwrap()
    );
    servicer.spin_once(Ok(None)).unwrap();
    assert!(from_servicer.try_recv().is_err());
    assert!(matches!(
        servicer.spin_once(Err(CommError::Warning(Warning::WrongMessageType))),
        Err(CommError::Warning(Warning::WrongMessageType))
    ));

    for text in ["a", "b"] {
        to_servicer
            .send(reliable::ApplicationMessage::ChatMessage(String::from(text)))
            .unwrap();
    }
    assert_eq!(
        vec![
            msg::reliable::ClientMessage::ChatMessage(String::from("a")),
            msg::reliable::ClientMessage::ChatMessage(String::from("b")),
        ],
        servicer.forward_from_client_to_server().unwrap()
    );

    drop(to_servicer);
    assert!(matches!(servicer.forward_from_client_to_server(), Err(CommError::Exit)));
    drop(from_servicer);
    let message = msg::reliable::ServerMessage::ChatMessage(chat("ann", "hi"));
    assert!(matches!(
        servicer.spin_once(Ok(Some(message))),
        Err(CommError::Drop(Drop::ApplicationThreadDisconnected))
    ));
}

#[test]
fn closed_stream_ends_the_client() {
    assert!(matches!(reliable::receive_server_message(Ok(Some(0))), Err(CommError::Exit)));
    assert_eq!(Some(3), reliable::receive_server_message(Ok(Some(3))).unwrap());
    assert_eq!(None, reliable::receive_server_message(Ok(None)).unwrap());
    assert!(matches!(
        reliable::receive_server_message(Err(Error::new(ErrorKind::NotConnected, "test"))),
        Err(CommError::Drop(Drop::IoFailure(_)))
    ));
}

struct LowLatency {
    servicer: low_latency::Servicer,
    from_servicer: mpsc::Receiver<low_latency::ServicerMessage>,
    to_servicer: mpsc::Sender<low_latency::ApplicationMessage>,
}

fn low_latency_servicer() -> LowLatency {
    let (to_application, from_servicer) = mpsc::channel();
    let (to_servicer, from_application) = mpsc::channel();
    let servicer = low_latency::Servicer::connect(
        SocketAddr::loopback(1),
        SocketAddr::loopback(2),
        to_application,
        from_application,
    );
    LowLatency { servicer, from_servicer, to_servicer }
}

fn control(bits: &[bool]) -> low_latency::ApplicationMessage {
    low_latency::ApplicationMessage::Control(BitVec::from_slice(bits))
}

fn sent_states(message: Option<msg::low_latency::ClientMessage>) -> (usize, Vec<BitVec>) {
    match message.unwrap() {
        msg::low_latency::ClientMessage::ControllerInput(input) => {
            let (start_tick, states) = input.into_parts();
            (start_tick, states.decompress().unwrap().into_iter().collect())
        }
    }
}

/// A controller state for each number.
fn numbered(i: usize) -> [bool; 4] {
    [i & 1 != 0, i & 2 != 0, i & 4 != 0, i & 8 != 0]
}

#[test]
fn controls_are_sent_until_acknowledged() {
    let mut end = low_latency_servicer();
    assert_eq!(SocketAddr::loopback(1), end.servicer.server_addr());
    // Nothing came and nothing is to be sent.
    assert_eq!(None, end.servicer.spin_once(Ok(None)).unwrap());

    for i in 0..10 {
        end.to_servicer.send(control(&numbered(i))).unwrap();
    }
    let all: Vec<BitVec> = (0..12).map(|i| BitVec::from_slice(&numbered(i))).collect();
    let sent = end.servicer.spin_once(Ok(None)).unwrap();
    assert_eq!((0, all[..10].to_vec()), sent_states(sent));
    // What was not acknowledged is sent again.
    let sent = end.servicer.spin_once(Ok(None)).unwrap();
    assert_eq!((0, all[..10].to_vec()), sent_states(sent));

    // The states of the ticks up to the one received go, the later ones stay.
    let ack = |tick| Ok(Some(Ok(msg::low_latency::ServerMessage::LastTickReceived(tick))));
    let sent = end.servicer.spin_once(ack(0)).unwrap();
    assert_eq!((1, all[1..10].to_vec()), sent_states(sent));
    let sent = end.servicer.spin_once(ack(2)).unwrap();
    assert_eq!((3, all[3..10].to_vec()), sent_states(sent));
    // An acknowledgement that comes late or twice removes nothing.
    let sent = end.servicer.spin_once(ack(1)).unwrap();
    assert_eq!((3, all[3..10].to_vec()), sent_states(sent));

    end.to_servicer.send(control(&numbered(10))).unwrap();
    let sent = end.servicer.spin_once(ack(8)).unwrap();
    assert_eq!((9, all[9..11].to_vec()), sent_states(sent));
    // Everything has been received, and the next state is that of the next tick.
    assert_eq!(None, end.servicer.spin_once(ack(10)).unwrap());
    end.to_servicer.send(control(&numbered(11))).unwrap();
    let sent = end.servicer.spin_once(Ok(None)).unwrap();
    assert_eq!((11, all[11..].to_vec()), sent_states(sent));
    assert_eq!(None, end.servicer.spin_once(ack(usize::MAX)).unwrap());
}

#[test]
fn world_states_are_forwarded() {
    let mut end = low_latency_servicer();
    let state = msg::low_latency::ServerMessage::WorldState(vec![1, 2]);
    assert_eq!(None, end.servicer.spin_once(Ok(Some(Ok(state.clone())))).unwrap());
    assert_eq!(
        low_latency::ServicerMessage::WorldState(vec![1, 2]),
        end.from_servicer.try_recv().unwrap()
    );
    drop(end.from_servicer);
    let outcome = end.servicer.forward_from_server_to_client(Ok(Some(Ok(state))));
    assert!(!low_latency::keeps_spinning(&outcome));
    assert!(matches!(
        outcome,
        Err(CommError::Drop(Drop::ApplicationThreadDisconnected))
    ));
}

#[test]
fn broken_datagrams_are_warnings() {
    let mut end = low_latency_servicer();
    let outcome = end.servicer.forward_from_server_to_client(Ok(Some(undecodable())));
    assert!(low_latency::keeps_spinning(&outcome));
    assert!(matches!(
        outcome,
        Err(CommError::Warning(Warning::FailedToDeserialize(_)))
    ));
    // A failure to receive keeps the queue of the application untouched.
    end.to_servicer.send(control(&[true])).unwrap();
    assert!(matches!(
        end.servicer.spin_once(Err(CommError::Warning(Warning::WrongMessageType))),
        Err(CommError::Warning(Warning::WrongMessageType))
    ));
    assert!(end.servicer.send_controller_inputs().unwrap().is_none());
    assert!(end.servicer.spin_once(Ok(None)).unwrap().is_some());
    assert!(end.servicer.send_controller_inputs().unwrap().is_some());
}

#[test]
fn controls_of_different_sizes_are_not_sent() {
    let mut end = low_latency_servicer();
    end.to_servicer.send(control(&[true])).unwrap();
    end.to_servicer.send(control(&[true, false])).unwrap();
    assert!(matches!(
        end.servicer.forward_from_client_to_server(),
        Err(CommError::Warning(Warning::FailedToCompress))
    ));
    // Once the input of the other size has been acknowledged, the rest can be sent.
    let ack = msg::low_latency::ServerMessage::LastTickReceived(0);
    let sent = end.servicer.spin_once(Ok(Some(Ok(ack)))).unwrap();
    assert_eq!((1, vec![BitVec::from_slice(&[true, false])]), sent_states(sent));
}

#[test]
fn servicer_exits_with_the_application() {
    let mut end = low_latency_servicer();
    end.to_servicer.send(control(&[true])).unwrap();
    drop(end.to_servicer);
    assert!(matches!(end.servicer.spin_once(Ok(None)), Err(CommError::Exit)));
    assert!(!low_latency::keeps_spinning(&Err(CommError::Exit)));
    assert!(low_latency::keeps_spinning(&Ok(())));
}

#[test]
fn packets_have_a_maximum_size() {
    assert_eq!(1500, low_latency::packet_to_send(Ok(vec![0; 1500])).unwrap().len());
    assert!(matches!(low_latency::packet_to_send(Ok(vec![0; 1501])), Err(CommError::Exit)));
    assert!(matches!(
        low_latency::packet_to_send(undecodable()),
        Err(CommError::Warning(Warning::FailedToSerialize(_)))
    ));
}

#[test]
fn empty_datagrams_are_not_decoded() {
    let src = SocketAddr::loopback(1);
    assert_eq!(None, low_latency::datagram_to_decode(Ok(None)).unwrap());
    assert_eq!(None, low_latency::datagram_to_decode(Ok(Some((vec![], src)))).unwrap());
    assert_eq!(
        Some(vec![1]),
        low_latency::datagram_to_decode(Ok(Some((vec![1], src)))).unwrap()
    );
    assert!(matches!(
        low_latency::datagram_to_decode(Err(CommError::Exit)),
        Err(CommError::Exit)
    ));
}
