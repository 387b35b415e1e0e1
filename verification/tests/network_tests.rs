use baldej::client_id::{client_id_from_hardware_id, generate_client_id};
use baldej::networking::{message_receiver_from_script, reliability_from_flag};
use baldej::networking::{
    channel_for, is_client, is_server, ClientStatus, Delivery, MessageChannel, MessageReceiver,
    MessageReliability, NetworkError, NetworkEvent, NetworkState, NetworkingMode,
};

#[test]
fn new_state_is_disconnected() {
    let state = NetworkState::new();
    assert!(!is_server(&state));
    assert!(!is_client(&state));
    assert!(matches!(state.current_mode(), NetworkingMode::Disconnected(None)));
    assert!(state.get_network_events().is_empty());
}

#[test]
fn only_one_connection_at_a_time() {
    let mut state = NetworkState::new();
    assert!(state.new_server().is_ok());
    assert!(is_server(&state));
    assert!(matches!(state.new_client(), Err(NetworkError::NotDisconnected)));
    assert!(matches!(state.new_server(), Err(NetworkError::NotDisconnected)));
    assert!(is_server(&state));
    assert!(!state.disconnect());
}

#[test]
fn client_connects_and_announces_once() {
    let mut state = NetworkState::new();
    state.new_client().unwrap();
    assert!(is_client(&state));
    assert!(matches!(state.current_mode(), NetworkingMode::Client(ClientStatus::Connecting)));
    state.set_client_status(false, true, None, false);
    assert!(state.get_network_events().is_empty());
    state.set_client_status(true, false, None, false);
    assert!(matches!(state.current_mode(), NetworkingMode::Client(ClientStatus::Connected)));
    state.set_client_status(true, false, None, false);
    let events = state.get_network_events();
    assert_eq!(events.len(), 1);
    assert!(matches!(events[0], NetworkEvent::ConnectedSuccessfully));
    state.update();
    assert!(state.get_network_events().is_empty());
    assert!(state.disconnect());
}

#[test]
fn client_disconnect_keeps_the_reason() {
    let mut state = NetworkState::new();
    state.new_client().unwrap();
    state.set_client_status(false, false, Some("timeout".to_string()), true);
    match state.current_mode() {
        NetworkingMode::Disconnected(Some(reason)) => assert_eq!(reason, "timeout"),
        _ => panic!("expected a disconnection with a reason"),
    }
    assert!(state.new_server().is_ok());
}

#[test]
fn client_disconnect_without_reason() {
    let mut state = NetworkState::new();
    state.new_client().unwrap();
    state.set_client_status(false, false, None, false);
    assert!(is_client(&state));
    state.set_client_status(false, false, None, true);
    assert!(matches!(state.current_mode(), NetworkingMode::Disconnected(None)));
}

#[test]
fn sending_while_disconnected_is_refused() {
    let state = NetworkState::new();
    let r = state.send_message(MessageReliability::Reliable, MessageReceiver::Everybody, Ok(vec![1]));
    assert!(matches!(r, Err(NetworkError::IsDisconnected)));
}

#[test]
fn connecting_client_cannot_send() {
    let mut state = NetworkState::new();
    state.new_client().unwrap();
    let r = state.send_message(MessageReliability::Unreliable, MessageReceiver::Everybody, Ok(vec![1]));
    assert!(matches!(r, Err(NetworkError::WrongClientStatus)));
}

#[test]
fn server_routes_by_receiver() {
    let mut state = NetworkState::new();
    state.new_server().unwrap();
    let out = state
        .send_message(MessageReliability::Reliable, MessageReceiver::EverybodyExcept(4), Ok(vec![1, 2]))
        .unwrap();
    assert_eq!(out.delivery, Delivery::BroadcastExcept(4));
    assert_eq!(out.channel, MessageChannel::ReliableOrdered);
    assert_eq!(out.bytes, vec![1, 2]);
    let out = state
        .send_message(MessageReliability::Unreliable, MessageReceiver::OneClient(9), Ok(vec![]))
        .unwrap();
    assert_eq!(out.delivery, Delivery::ToClient(9));
    assert_eq!(out.channel, MessageChannel::Unreliable);
    let out = state
        .send_message(MessageReliability::Reliable, MessageReceiver::Everybody, Ok(vec![3]))
        .unwrap();
    assert_eq!(out.delivery, Delivery::Broadcast);
}

#[test]
fn encoding_errors_are_passed_on() {
    let mut state = NetworkState::new();
    state.new_server().unwrap();
    let r = state.send_message(MessageReliability::Reliable, MessageReceiver::Everybody, Err("bad".to_string()));
    match r {
        Err(NetworkError::MessageSerializeErr(e)) => assert_eq!(e, "bad"),
        _ => panic!("expected an encoding error"),
    }
}

#[test]
fn connected_client_sends_to_server() {
    let mut state = NetworkState::new();
    state.new_client().unwrap();
    state.set_client_status(true, false, None, false);
    let out = state
        .send_message(MessageReliability::Unreliable, MessageReceiver::OneClient(1), Ok(vec![7]))
        .unwrap();
    assert_eq!(out.delivery, Delivery::ToServer);
    assert_eq!(out.channel, channel_for(MessageReliability::Unreliable));
}

#[test]
fn server_events_are_recorded_in_order() {
    let mut state = NetworkState::new();
    state.new_server().unwrap();
    state.set_network_event(NetworkEvent::ClientConnected(3));
    state.set_network_event(NetworkEvent::ClientDisconnected(3, "left".to_string()));
    let events = state.get_network_events();
    assert!(matches!(events[0], NetworkEvent::ClientConnected(3)));
    assert!(matches!(events[1], NetworkEvent::ClientDisconnected(3, _)));
}

#[test]
fn client_id_from_digits_of_bytes() {
    assert_eq!(client_id_from_hardware_id(b"ab"), Some(9798));
    assert_eq!(client_id_from_hardware_id(&[0, 7]), Some(7));
    assert_eq!(client_id_from_hardware_id(b"0123456789"), Some(484950515253545556));
    assert_eq!(client_id_from_hardware_id(b"d0123456789"), Some(1004849505152535455));
}

#[test]
fn client_id_of_nothing_is_none() {
    assert_eq!(client_id_from_hardware_id(&[]), None);
}

#[test]
fn client_id_overflowing_u64_is_none() {
    assert_eq!(client_id_from_hardware_id(&[9, 99, 99, 99, 99, 99, 99, 99, 99, 100]), None);
    assert_eq!(client_id_from_hardware_id(b"ddddddd"), Some(100100100100100100));
    assert_eq!(client_id_from_hardware_id(b"dddddd9"), Some(100100100100100100));
}

#[test]
fn generated_client_id_is_made_of_hex_digit_codes() {
    if let Some(id) = generate_client_id() {
        let digits = id.to_string();
        assert!(digits.len() >= 18);
        let mut rest = digits.as_str();
        while !rest.is_empty() {
            let take = if rest.starts_with('1') { 3 } else { 2 };
            assert!(rest.len() >= take);
            let code: u32 = rest[..take].parse().unwrap();
            assert!((48..=57).contains(&code) || (97..=102).contains(&code), "code {code}");
            rest = &rest[take..];
        }
    }
}

#[test]
fn client_id_depends_on_the_first_nine_bytes() {
    let a = client_id_from_hardware_id(b"0123456789abcdef0123456789abcdef");
    let b = client_id_from_hardware_id(b"012345678fffffffffffffffffffffff");
    assert_eq!(a, Some(484950515253545556));
    assert_eq!(a, b);
}

#[test]
fn script_receivers_by_name() {
    assert_eq!(message_receiver_from_script("Everybody", None), (MessageReceiver::Everybody, true));
    assert_eq!(message_receiver_from_script("OneClient", Some(5)), (MessageReceiver::OneClient(5), true));
    assert_eq!(message_receiver_from_script("OneClient", None), (MessageReceiver::OneClient(0), false));
    assert_eq!(
        message_receiver_from_script("EverybodyExcept", Some(2)),
        (MessageReceiver::EverybodyExcept(2), true)
    );
    assert_eq!(message_receiver_from_script("Nobody", Some(2)), (MessageReceiver::OneClient(0), false));
    assert_eq!(reliability_from_flag(true), MessageReliability::Reliable);
    assert_eq!(reliability_from_flag(false), MessageReliability::Unreliable);
}
