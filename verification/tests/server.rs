use game_network::addr::SocketAddr;
use game_network::address_book::AddressBook;
use game_network::bitvec::{BitVec, CompressedBitVec};
use game_network::client;
use game_network::control::{CompressedControllerSequence, ControllerSequence};
use game_network::msg;
use game_network::msg::reliable::{ChatMessage, ClientMessage, JoinResponse, ServerMessage};
use game_network::msg::{ClientData, CommError, Credentials, Drop, Username, Warning};
use game_network::server::low_latency;
use game_network::channel::SpmcInbox;
use game_network::server::low_latency::{
    parse_application_messages, ApplicationMessage, Delivery, ToClient,
};
use game_network::server::reliable;
use game_network::server::{Server, ServicerMessage, ServicerPayload};
use std::io::{Error, ErrorKind};
use std::sync::mpsc;

fn user(name: &str) -> Username {
    Username(String::from(name))
}

fn undecodable<T>() -> Result<T, Box<bincode::ErrorKind>> {
    match bincode::deserialize::<u32>(&[]) {
        Err(err) => Err(err),
        Ok(_) => unreachable!(),
    }
}

fn io_error<T>(kind: ErrorKind) -> Result<T, Error> {
    Err(Error::new(kind, "test"))
}

fn new_client(name: &str, port: u16) -> ApplicationMessage {
    ApplicationMessage::NewClient(ClientData {
        username: user(name),
        udp_addr: SocketAddr::loopback(port),
    })
}

fn world_state(name: &str, state: Vec<u8>) -> ApplicationMessage {
    ApplicationMessage::ToClient(ToClient::new(
        user(name),
        msg::low_latency::ServerMessage::WorldState(state),
    ))
}

#[test]
fn test_parse_app_msgs() {
    let msg_vec = vec![
        ApplicationMessage::ToClient(ToClient::new(
            msg::Username(String::from("to_client")),
            msg::low_latency::ServerMessage::WorldState(vec![127]),
        )),
        ApplicationMessage::NewClient(msg::ClientData {
            username: msg::Username(String::from("client_data")),
            // 127.0.0.1:12345
            udp_addr: SocketAddr::loopback(12345),
        }),
    ];
    let mut address_user = AddressBook::new();
    let world_state_opt = parse_application_messages(msg_vec, &mut address_user);
    assert!(world_state_opt.is_some());
    assert!(!address_user.is_empty());
}

#[test]
fn test_parse_app_msgs_repeated() {
    let msg_vec = vec![
        ApplicationMessage::ToClient(ToClient::new(
            msg::Username(String::from("to_client")),
            msg::low_latency::ServerMessage::WorldState(vec![127]),
        )),
        ApplicationMessage::ToClient(ToClient::new(
            msg::Username(String::from("to_client")),
            msg::low_latency::ServerMessage::WorldState(vec![123]),
        )),
    ];
    let mut address_user = AddressBook::new();
    let world_state_opt = parse_application_messages(msg_vec, &mut address_user);
    assert_eq!(
        msg::low_latency::ServerMessage::WorldState(vec![123]),
        world_state_opt.unwrap().payload
    );
}

#[test]
fn test_parse_app_msgs_disconnect() {
    let msg_vec = vec![
        ApplicationMessage::NewClient(msg::ClientData {
            username: msg::Username(String::from("client_data")),
            // 127.0.0.1:12345
            udp_addr: SocketAddr::loopback(12345),
        }),
        ApplicationMessage::ClientDisconnect(msg::Username(String::from("client_data"))),
    ];
    let mut address_user = AddressBook::new();
    let world_state_opt = parse_application_messages(msg_vec, &mut address_user);
    assert!(world_state_opt.is_none());
    assert!(address_user.is_empty());
}

#[test]
fn test_send_message() {
    let mut address_user = AddressBook::new();
    address_user.insert(
        SocketAddr::loopback(4321),
        msg::Username(String::from("client_data")),
    );

    let msg = ToClient {
        to: msg::Username(String::from("client_data")),
        payload: msg::low_latency::ServerMessage::WorldState(vec![127]),
    };
    let (address, server_message) = match low_latency::send_message(&address_user, msg) {
        Delivery::To(address, server_message) => (address, server_message),
        other => panic!("{:?}", other),
    };
    assert_eq!(SocketAddr::loopback(4321), address);
    assert_eq!(
        msg::low_latency::ServerMessage::WorldState(vec![127]),
        server_message
    );
}

#[test]
fn messages_to_unknown_users_go_nowhere() {
    let msg = ToClient::new(user("ann"), msg::low_latency::ServerMessage::WorldState(vec![1]));
    assert_eq!(
        Delivery::NoSuchUser(user("ann")),
        low_latency::send_message(&AddressBook::new(), msg)
    );
}

#[test]
fn last_ticks_are_not_world_states() {
    let mut address_user = AddressBook::new();
    let tick = ApplicationMessage::ToClient(ToClient::new(
        user("ann"),
        msg::low_latency::ServerMessage::LastTickReceived(3),
    ));
    assert!(parse_application_messages(vec![tick.clone()], &mut address_user).is_none());
    let latest =
        parse_application_messages(vec![world_state("bob", vec![5]), tick], &mut address_user)
            .unwrap();
    assert_eq!(user("bob"), latest.to);
}

struct LowLatency {
    servicer: low_latency::Servicer,
    from_servicer: mpsc::Receiver<ServicerMessage>,
    to_servicer: spmc::Sender<ApplicationMessage>,
}

fn low_latency_servicer() -> LowLatency {
    let (to_application, from_servicer) = mpsc::channel();
    let (to_servicer, from_application) = spmc::channel();
    LowLatency {
        servicer: low_latency::Servicer::new(to_application, from_application),
        from_servicer,
        to_servicer,
    }
}

fn input(states: &[[bool; 2]]) -> CompressedControllerSequence {
    let mut seq = ControllerSequence::new();
    for bits in states {
        seq.push(BitVec::from_slice(bits));
    }
    seq.to_compressed().unwrap()
}

fn controller_input(
    input: CompressedControllerSequence,
) -> Result<msg::low_latency::ClientMessage, Box<bincode::ErrorKind>> {
    Ok(msg::low_latency::ClientMessage::ControllerInput(input))
}

#[test]
fn world_states_are_routed() {
    let mut end = low_latency_servicer();
    assert!(end.servicer.outgoing().unwrap().is_none());
    end.to_servicer.send(world_state("ann", vec![1])).unwrap();
    end.to_servicer.send(world_state("bob", vec![2])).unwrap();
    end.to_servicer.send(new_client("bob", 7)).unwrap();
    assert_eq!(
        Some(Delivery::To(
            SocketAddr::loopback(7),
            msg::low_latency::ServerMessage::WorldState(vec![2])
        )),
        end.servicer.outgoing().unwrap()
    );
    // The user is remembered in the next round.
    end.to_servicer.send(world_state("bob", vec![3])).unwrap();
    assert!(end.servicer.outgoing().unwrap().is_some());
    end.to_servicer.send(world_state("ann", vec![4])).unwrap();
    assert_eq!(Some(Delivery::NoSuchUser(user("ann"))), end.servicer.outgoing().unwrap());
}

#[test]
fn low_latency_servicer_exits_with_the_application() {
    let mut end = low_latency_servicer();
    end.to_servicer.send(world_state("bob", vec![2])).unwrap();
    drop(end.to_servicer);
    assert!(matches!(end.servicer.outgoing(), Err(CommError::Exit)));
    assert!(!low_latency::keeps_spinning(&Err(CommError::Exit)));
    assert!(low_latency::keeps_spinning(&Err(CommError::Drop(Drop::AlreadyConnected))));
    assert!(low_latency::keeps_spinning(&Err(CommError::Warning(Warning::WrongMessageType))));
    assert!(low_latency::keeps_spinning(&Ok(())));
}

#[test]
fn polling_takes_what_came_before_the_end() {
    let mut end = low_latency_servicer();
    end.to_servicer.send(new_client("bob", 7)).unwrap();
    end.to_servicer.send(world_state("ann", vec![1])).unwrap();
    end.to_servicer.send(world_state("bob", vec![2])).unwrap();
    let names: Vec<Username> =
        end.servicer.poll_application_thread().into_iter().map(|msg| msg.to).collect();
    assert_eq!(vec![user("ann"), user("bob")], names);
    assert!(!end.servicer.is_shutting_down());
    drop(end.to_servicer);
    assert!(end.servicer.poll_application_thread().is_empty());
    assert!(end.servicer.is_shutting_down());
}

#[test]
fn controls_reach_the_application() {
    // The client's side.
    let (to_application, _from_servicer) = mpsc::channel();
    let (to_servicer, from_application) = mpsc::channel();
    let mut playing = client::low_latency::Servicer::connect(
        SocketAddr::loopback(1),
        SocketAddr::loopback(7),
        to_application,
        from_application,
    );
    let states = [[true, false], [true, false], [false, true]];
    for bits in states {
        let state = BitVec::from_slice(&bits);
        to_servicer.send(client::low_latency::ApplicationMessage::Control(state)).unwrap();
    }
    let sent = playing.spin_once(Ok(None)).unwrap().unwrap();
    let msg::low_latency::ClientMessage::ControllerInput(payload) = sent;

    // The network.
    let (start_tick, comp_seq) = payload.into_parts();
    let (storage, len_of_last, element_size) = comp_seq.to_parts();
    let comp_seq = CompressedBitVec::from_parts(storage, len_of_last, element_size).unwrap();
    let received = CompressedControllerSequence::from_parts(start_tick, comp_seq);

    // The server's side.
    let mut end = low_latency_servicer();
    end.to_servicer.send(new_client("ann", 7)).unwrap();
    assert!(end.servicer.outgoing().unwrap().is_none());
    let datagram = (SocketAddr::loopback(7), controller_input(received));
    end.servicer.spin_once(Ok(datagram)).unwrap();
    let report = end.from_servicer.try_recv().unwrap();
    assert_eq!(user("ann"), report.from);
    match report.payload {
        ServicerPayload::ControllerSequence(seq) => {
            assert_eq!(3, seq.last_tick());
            assert_eq!(input(&states), seq.to_compressed().unwrap());
        }
        other => panic!("{:?}", other),
    }
}

#[test]
fn bad_datagrams_are_warnings() {
    let mut end = low_latency_servicer();
    let src = SocketAddr::loopback(7);
    match end.servicer.process_udp(src, controller_input(input(&[[true, true]]))) {
        Err(CommError::Warning(Warning::UnknownSource(unknown))) => assert_eq!(src, unknown),
        other => panic!("{:?}", other),
    }
    end.to_servicer.send(new_client("ann", 7)).unwrap();
    assert!(end.servicer.outgoing().unwrap().is_none());
    let broken = CompressedControllerSequence::from_parts(
        0,
        CompressedBitVec::from_parts(vec![0], 1, 2).unwrap(),
    );
    assert!(matches!(
        end.servicer.handle_controller_input(src, broken.clone()),
        Err(CommError::Warning(Warning::FailedToDecompress))
    ));
    assert!(matches!(
        end.servicer.process_udp(src, controller_input(broken)),
        Err(CommError::Warning(Warning::FailedToDecompress))
    ));
    assert!(matches!(
        end.servicer.process_udp(src, undecodable()),
        Err(CommError::Warning(Warning::FailedToDeserialize(_)))
    ));
    assert!(matches!(
        end.servicer.spin_once(io_error(ErrorKind::WouldBlock)),
        Err(CommError::Warning(Warning::IoFailure(_)))
    ));
    assert!(end.from_servicer.try_recv().is_err());
    drop(end.from_servicer);
    assert!(matches!(
        end.servicer.process_udp(src, controller_input(input(&[[true, true]]))),
        Err(CommError::Exit)
    ));
}

#[test]
fn unsent_datagrams_are_warnings() {
    assert!(low_latency::sent(Ok(3)).is_ok());
    assert!(matches!(
        low_latency::sent(io_error(ErrorKind::BrokenPipe)),
        Err(CommError::Warning(Warning::IoFailure(_)))
    ));
}

struct Reliable {
    servicer: reliable::Servicer,
    from_servicer: mpsc::Receiver<ServicerMessage>,
    to_servicer: spmc::Sender<reliable::ToClient>,
}

fn client_data() -> ClientData {
    ClientData { username: user("ann"), udp_addr: SocketAddr::loopback(7) }
}

fn reliable_servicer() -> Reliable {
    let (to_application, from_servicer) = mpsc::channel();
    let (to_servicer, from_application) = spmc::channel();
    let servicer =
        reliable::Servicer::new(Ok(client_data()), to_application, from_application).unwrap();
    Reliable { servicer, from_servicer, to_servicer }
}

fn chat_for(name: &str, message: &str) -> reliable::ToClient {
    let payload = ServerMessage::ChatMessage(ChatMessage {
        from: user("server"),
        message: String::from(message),
    });
    reliable::ToClient::new(user(name), payload)
}

#[test]
fn new_clients_are_introduced() {
    let end = reliable_servicer();
    let introduction = end.from_servicer.try_recv().unwrap();
    assert_eq!(user("ann"), introduction.from);
    match introduction.payload {
        ServicerPayload::ClientData(data) => {
            assert_eq!(user("ann"), data.username);
            assert_eq!(SocketAddr::loopback(7), data.udp_addr);
        }
        other => panic!("{:?}", other),
    }
    assert!(!end.servicer.is_shutting_down());
}

#[test]
fn introductions_may_fail() {
    let mut end = reliable_servicer();
    end.from_servicer.try_recv().unwrap();
    end.servicer.introduce(client_data()).unwrap();
    assert!(matches!(
        end.from_servicer.try_recv().unwrap().payload,
        ServicerPayload::ClientData(_)
    ));
    drop(end.from_servicer);
    assert!(matches!(
        end.servicer.introduce(client_data()),
        Err(CommError::Drop(Drop::ApplicationThreadDisconnected))
    ));
}

#[test]
fn no_servicer_without_an_application() {
    let (to_application, from_servicer) = mpsc::channel();
    let (_to_servicer, from_application) = spmc::channel();
    drop(from_servicer);
    assert!(matches!(
        reliable::Servicer::new(Ok(client_data()), to_application, from_application),
        Err(CommError::Drop(Drop::ApplicationThreadDisconnected))
    ));
}

#[test]
fn no_servicer_for_a_rejected_client() {
    let (to_application, from_servicer) = mpsc::channel();
    let (_to_servicer, from_application) = spmc::channel();
    assert!(matches!(
        reliable::Servicer::new(
            Err(CommError::Drop(Drop::AlreadyConnected)),
            to_application,
            from_application
        ),
        Err(CommError::Drop(Drop::AlreadyConnected))
    ));
    assert!(from_servicer.try_recv().is_err());
}

#[test]
fn join_requests_are_answered() {
    let cred = Credentials {
        username: user("ann"),
        password: String::from("pw"),
        udp_addr: SocketAddr::loopback(7),
    };
    let authenticated = reliable::Servicer::authenticate_user(cred.clone());
    match &authenticated {
        Ok(data) => {
            assert_eq!(user("ann"), data.username);
            assert_eq!(SocketAddr::loopback(7), data.udp_addr);
        }
        Err(err) => panic!("{:?}", err),
    }
    assert_eq!(
        ServerMessage::JoinResponse(JoinResponse::Confirmation(99)),
        reliable::Servicer::join_response(&authenticated, 99)
    );
    let rejected = Err(CommError::Drop(Drop::FailedToAuthenticate(cred)));
    assert_eq!(
        ServerMessage::JoinResponse(JoinResponse::AuthenticationError),
        reliable::Servicer::join_response(&rejected, 99)
    );
}

#[test]
fn first_message_is_a_join_request() {
    let cred = Credentials {
        username: user("ann"),
        password: String::from("pw"),
        udp_addr: SocketAddr::loopback(7),
    };
    let request = ClientMessage::JoinRequest(cred.clone());
    assert_eq!(cred, reliable::Servicer::expect_join_request(Ok(request.clone())).unwrap());
    assert!(matches!(
        reliable::Servicer::expect_join_request(Ok(ClientMessage::ChatMessage(String::new()))),
        Err(CommError::Warning(Warning::WrongMessageType))
    ));
    assert!(matches!(
        reliable::Servicer::expect_join_request(undecodable()),
        Err(CommError::Warning(Warning::FailedToDeserialize(_)))
    ));

    match reliable::Servicer::wait_for_join_request(Ok(Ok(request))) {
        reliable::JoinAttempt::Finished(Ok(joined)) => assert_eq!(cred, joined),
        _ => panic!("the request was not accepted"),
    }
    assert!(matches!(
        reliable::Servicer::wait_for_join_request(io_error(ErrorKind::Interrupted)),
        reliable::JoinAttempt::Retry(Warning::IoFailure(_))
    ));
    assert!(matches!(
        reliable::Servicer::wait_for_join_request(io_error(ErrorKind::NotConnected)),
        reliable::JoinAttempt::Finished(Err(CommError::Drop(Drop::IoFailure(_))))
    ));
}

#[test]
fn clients_get_their_own_messages() {
    let mut end = reliable_servicer();
    for msg in [
        chat_for("ann", "1"),
        chat_for("bob", "2"),
        chat_for("ann", "3"),
    ] {
        end.to_servicer.send(msg).unwrap();
    }
    assert_eq!(
        vec![chat_for("ann", "1").payload, chat_for("ann", "3").payload],
        end.servicer.outgoing().unwrap()
    );
    assert!(end.servicer.outgoing().unwrap().is_empty());
    end.to_servicer.send(chat_for("ann", "4")).unwrap();
    drop(end.to_servicer);
    assert!(matches!(
        end.servicer.outgoing(),
        Err(CommError::Drop(Drop::ApplicationThreadDisconnected))
    ));
}

#[test]
fn own_messages_add_up() {
    let first = vec![chat_for("ann", "1"), chat_for("bob", "2")];
    let second = vec![chat_for("bob", "3"), chat_for("ann", "4")];
    let mut apart = reliable::addressed_to(&user("bob"), first.clone());
    apart.extend(reliable::addressed_to(&user("bob"), second.clone()));
    let together: Vec<reliable::ToClient> = first.into_iter().chain(second).collect();
    assert_eq!(reliable::addressed_to(&user("bob"), together), apart);
    assert_eq!(vec![chat_for("bob", "2").payload, chat_for("bob", "3").payload], apart);
}

#[test]
fn chats_are_reported_under_the_user() {
    let mut end = reliable_servicer();
    end.from_servicer.try_recv().unwrap();
    end.servicer.spin_once(Ok(Some(Ok(ClientMessage::ChatMessage(String::from("hi")))))).unwrap();
    let report = end.from_servicer.try_recv().unwrap();
    assert_eq!(user("ann"), report.from);
    assert!(matches!(report.payload, ServicerPayload::ChatMessage(text) if text == "hi"));

    end.servicer.spin_once(Ok(None)).unwrap();
    assert!(end.from_servicer.try_recv().is_err());

    let again = ClientMessage::JoinRequest(Credentials {
        username: user("ann"),
        password: String::new(),
        udp_addr: SocketAddr::loopback(7),
    });
    assert!(matches!(
        end.servicer.spin_once(Ok(Some(Ok(again)))),
        Err(CommError::Drop(Drop::AlreadyConnected))
    ));
    assert!(matches!(
        end.servicer.spin_once(Ok(Some(undecodable()))),
        Err(CommError::Warning(Warning::FailedToDeserialize(_)))
    ));
    assert!(matches!(
        end.servicer.spin_once(io_error(ErrorKind::WouldBlock)),
        Err(CommError::Warning(Warning::IoFailure(_)))
    ));
    assert!(end.from_servicer.try_recv().is_err());
    drop(end.from_servicer);
    assert!(matches!(
        end.servicer.spin_once(Ok(Some(Ok(ClientMessage::ChatMessage(String::from("hi")))))),
        Err(CommError::Drop(Drop::ApplicationThreadDisconnected))
    ));
}

#[test]
fn reliable_servicer_stops() {
    let mut end = reliable_servicer();
    end.servicer.spin(&Ok(()), true);
    end.servicer.spin(&Err(CommError::Warning(Warning::WrongMessageType)), true);
    assert!(!end.servicer.is_shutting_down());
    end.servicer.spin(&Err(CommError::Drop(Drop::AlreadyConnected)), true);
    assert!(end.servicer.is_shutting_down());
    end.servicer.spin(&Ok(()), true);
    assert!(end.servicer.is_shutting_down());

    let mut stopped = reliable_servicer();
    stopped.servicer.spin(&Ok(()), false);
    assert!(stopped.servicer.is_shutting_down());
}

#[test]
fn reliable_polling_takes_everything() {
    let mut end = reliable_servicer();
    end.to_servicer.send(chat_for("ann", "1")).unwrap();
    end.to_servicer.send(chat_for("bob", "2")).unwrap();
    let names: Vec<Username> =
        end.servicer.poll_application_thread().into_iter().map(|msg| msg.to).collect();
    assert_eq!(vec![user("ann"), user("bob")], names);
    assert!(!end.servicer.is_shutting_down());
    drop(end.to_servicer);
    assert!(end.servicer.poll_application_thread().is_empty());
    assert!(end.servicer.is_shutting_down());
}

#[test]
fn written_messages_may_warn() {
    assert!(reliable::Servicer::send_message(Ok(())).unwrap().is_none());
    assert!(matches!(
        reliable::Servicer::send_message(io_error(ErrorKind::Interrupted)),
        Ok(Some(Warning::IoFailure(_)))
    ));
    assert!(matches!(
        reliable::Servicer::send_message(io_error(ErrorKind::BrokenPipe)),
        Err(CommError::Drop(Drop::IoFailure(_)))
    ));
}

#[test]
fn listener_waits_or_serves() {
    assert!(matches!(reliable::listen(Ok(5u8)), reliable::Incoming::Serve(5)));
    assert!(matches!(
        reliable::listen::<u8>(io_error(ErrorKind::WouldBlock)),
        reliable::Incoming::Wait
    ));
    assert!(matches!(
        reliable::listen::<u8>(io_error(ErrorKind::ConnectionAborted)),
        reliable::Incoming::Report(CommError::Drop(Drop::IoFailure(_)))
    ));
}

#[test]
fn server_hands_messages_to_its_servicers() {
    let (_to_application, from_servicer) = mpsc::channel();
    let (to_low_latency, low_latency_end) = spmc::channel();
    let (to_reliable, reliable_end) = spmc::channel();
    let mut low_latency_end = SpmcInbox::new(low_latency_end);
    let mut reliable_end = SpmcInbox::new(reliable_end);
    let mut server = Server::new(from_servicer, to_low_latency, to_reliable);
    server.send_low_latency(new_client("ann", 7));
    server.send_reliable(chat_for("ann", "1"));
    let msgs = game_network::server::drain_receiver(&mut low_latency_end).unwrap();
    assert_eq!(1, msgs.len());
    assert!(matches!(&msgs[0], ApplicationMessage::NewClient(data) if data.username == user("ann")));
    let msgs = game_network::server::drain_receiver(&mut reliable_end).unwrap();
    assert_eq!(1, msgs.len());
    assert_eq!(user("ann"), msgs[0].to);

    server.quit();
    assert!(game_network::server::drain_receiver(&mut low_latency_end).is_err());
    assert!(game_network::server::drain_receiver(&mut reliable_end).is_err());
}

#[test]
fn address_book_rounds_add_up() {
    let first = vec![new_client("ann", 1), new_client("bob", 2)];
    let second =
        vec![ApplicationMessage::ClientDisconnect(user("ann")), new_client("cat", 1)];
    let mut apart = AddressBook::new();
    parse_application_messages(first.clone(), &mut apart);
    parse_application_messages(second.clone(), &mut apart);
    let mut together = AddressBook::new();
    parse_application_messages(first.into_iter().chain(second).collect(), &mut together);
    for book in [&apart, &together] {
        assert_eq!(Some(user("cat")), book.get_by_first(&SocketAddr::loopback(1)));
        assert_eq!(Some(user("bob")), book.get_by_first(&SocketAddr::loopback(2)));
        assert_eq!(None, book.get_by_second(&user("ann")));
    }
}
