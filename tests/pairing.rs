use hug_relay::{
    Client, ClientError, HugCommand, HugEvent, Message, RecvOutcome, State, CHANNEL_CAPACITY, REGISTRY_CAPACITY,
    ROOM_TTL_MILLIS,
};

fn deliver(client: &mut Client, state: &mut State<String>) -> Option<HugEvent<String>> {
    match client.recv_message(state) {
        RecvOutcome::Message(m) => client.handle_message(state, Some(m)),
        RecvOutcome::Closed => client.handle_message(state, None),
        RecvOutcome::Empty => None,
    }
}

fn room_key(event: HugEvent<String>) -> String {
    match event {
        HugEvent::RoomCreated { key } => key,
        other => panic!("expected a room key, got {:?}", other),
    }
}

#[test]
fn random_match_scenario() {
    let mut state: State<String> = State::new();
    let mut a = Client::new();
    let mut b = Client::new();
    assert_eq!(a.join_random(&mut state), None);
    assert_eq!(deliver(&mut a, &mut state), None);
    assert_eq!(b.join_random(&mut state), Some(HugEvent::Joined { is_primary: false }));
    assert_eq!(deliver(&mut a, &mut state), Some(HugEvent::Joined { is_primary: true }));
    assert_eq!(deliver(&mut b, &mut state), None);
}

#[test]
fn third_random_joiner_waits_alone() {
    let mut state: State<String> = State::new();
    let mut a = Client::new();
    let mut b = Client::new();
    let mut c = Client::new();
    assert_eq!(a.join_random(&mut state), None);
    assert_eq!(b.join_random(&mut state), Some(HugEvent::Joined { is_primary: false }));
    assert_eq!(c.join_random(&mut state), None);
    let sa = a.message_socket.as_ref().unwrap();
    let sb = b.message_socket.as_ref().unwrap();
    let sc = c.message_socket.as_ref().unwrap();
    assert_eq!(sa.channel, sb.channel);
    assert_ne!(sa.side, sb.side);
    assert_ne!(sc.channel, sa.channel);
    assert!(state.random_matching.waiting.is_some());
}

#[test]
fn stale_waiter_is_replaced() {
    let mut state: State<String> = State::new();
    let mut a = Client::new();
    let mut b = Client::new();
    let mut c = Client::new();
    assert_eq!(a.join_random(&mut state), None);
    a.leave(&mut state);
    assert_eq!(b.join_random(&mut state), None);
    assert_eq!(c.join_random(&mut state), Some(HugEvent::Joined { is_primary: false }));
    assert_eq!(deliver(&mut b, &mut state), Some(HugEvent::Joined { is_primary: true }));
    assert_eq!(a.message_socket, None);
}

#[test]
fn room_round_trip() {
    let mut state: State<String> = State::new();
    let mut a = Client::new();
    let mut b = Client::new();
    let mut c = Client::new();
    let key = room_key(a.create_room(&mut state, 0).unwrap());
    assert_eq!(key.len(), 36);
    assert_eq!(key.matches('-').count(), 4);
    let joined = b.handle_command(&mut state, HugCommand::JoinRoom { key: key.clone() }, 10);
    assert_eq!(joined, Ok(Some(HugEvent::Joined { is_primary: false })));
    assert_eq!(deliver(&mut a, &mut state), Some(HugEvent::Joined { is_primary: true }));
    let again = c.handle_command(&mut state, HugCommand::JoinRoom { key }, 20);
    assert_eq!(again, Ok(Some(HugEvent::NotFound)));
    assert_eq!(c.message_socket, None);
}

#[test]
fn room_key_created_by_command() {
    let mut state: State<String> = State::new();
    let mut a = Client::new();
    let mut b = Client::new();
    let created = a.handle_command(&mut state, HugCommand::CreateRoom, 0).unwrap().unwrap();
    let key = room_key(created);
    let upper = key.to_uppercase();
    assert_eq!(b.handle_command(&mut state, HugCommand::JoinRoom { key: upper }, 1), Ok(Some(HugEvent::Joined { is_primary: false })));
}

#[test]
fn malformed_room_key_is_not_found() {
    let mut state: State<String> = State::new();
    let mut a = Client::new();
    let r = a.handle_command(&mut state, HugCommand::JoinRoom { key: "not-a-key".to_string() }, 0);
    assert_eq!(r, Ok(Some(HugEvent::NotFound)));
    let r = a.handle_command(&mut state, HugCommand::JoinRoom { key: String::new() }, 0);
    assert_eq!(r, Ok(Some(HugEvent::NotFound)));
    assert_eq!(a.message_socket, None);
}

#[test]
fn unknown_room_key_is_not_found() {
    let mut state: State<String> = State::new();
    let mut a = Client::new();
    assert_eq!(a.join_room(&mut state, 7, 0), HugEvent::NotFound);
}

#[test]
fn room_expires_after_its_time_to_live() {
    let mut state: State<String> = State::new();
    let mut a = Client::new();
    let mut b = Client::new();
    let key = room_key(a.create_room(&mut state, 1_000).unwrap());
    let late = b.handle_command(&mut state, HugCommand::JoinRoom { key: key.clone() }, 1_000 + ROOM_TTL_MILLIS);
    assert_eq!(late, Ok(Some(HugEvent::NotFound)));
    assert_eq!(b.message_socket, None);
    // The expired room is gone for good, as if it never existed.
    let again = b.handle_command(&mut state, HugCommand::JoinRoom { key }, 0);
    assert_eq!(again, Ok(Some(HugEvent::NotFound)));
    // The creator's stream ends: nothing will ever arrive.
    assert_eq!(a.recv_message(&mut state), RecvOutcome::Closed);
}

#[test]
fn room_joined_just_before_expiry() {
    let mut state: State<String> = State::new();
    let mut a = Client::new();
    let mut b = Client::new();
    let key = room_key(a.create_room(&mut state, 1_000).unwrap());
    let joined = b.handle_command(&mut state, HugCommand::JoinRoom { key }, 1_000 + ROOM_TTL_MILLIS - 1);
    assert_eq!(joined, Ok(Some(HugEvent::Joined { is_primary: false })));
}

#[test]
fn room_with_departed_creator_is_not_found() {
    let mut state: State<String> = State::new();
    let mut a = Client::new();
    let mut b = Client::new();
    let key = room_key(a.create_room(&mut state, 0).unwrap());
    a.leave(&mut state);
    let r = b.handle_command(&mut state, HugCommand::JoinRoom { key }, 5);
    assert_eq!(r, Ok(Some(HugEvent::NotFound)));
    assert_eq!(b.message_socket, None);
}

#[test]
fn relay_keeps_order() {
    let mut state: State<String> = State::new();
    let mut a = Client::new();
    let mut b = Client::new();
    a.join_random(&mut state);
    b.join_random(&mut state);
    assert_eq!(deliver(&mut a, &mut state), Some(HugEvent::Joined { is_primary: true }));
    assert_eq!(a.push(&mut state, "first".to_string()), Ok(()));
    assert_eq!(a.handle_command(&mut state, HugCommand::Push { payload: "second".to_string() }, 0), Ok(None));
    assert_eq!(deliver(&mut b, &mut state), Some(HugEvent::Push { payload: "first".to_string() }));
    assert_eq!(deliver(&mut b, &mut state), Some(HugEvent::Push { payload: "second".to_string() }));
    assert_eq!(b.recv_message(&mut state), RecvOutcome::Empty);
}

#[test]
fn push_while_unpaired_fails() {
    let mut state: State<String> = State::new();
    let mut a = Client::new();
    assert_eq!(a.push(&mut state, "p".to_string()), Err(ClientError::NotPaired));
    assert_eq!(a.recv_message(&mut state), RecvOutcome::Empty);
}

#[test]
fn backpressure_holds_back_the_sender() {
    let mut state: State<String> = State::new();
    let mut a = Client::new();
    let mut b = Client::new();
    a.join_random(&mut state);
    b.join_random(&mut state);
    // A's inbox already holds the Joined notice.
    for i in 0..CHANNEL_CAPACITY - 1 {
        assert_eq!(b.push(&mut state, format!("m{}", i)), Ok(()));
    }
    assert_eq!(b.push(&mut state, "late".to_string()), Err(ClientError::Full("late".to_string())));
    assert_eq!(deliver(&mut a, &mut state), Some(HugEvent::Joined { is_primary: true }));
    assert_eq!(b.push(&mut state, "late".to_string()), Ok(()));
    for i in 0..CHANNEL_CAPACITY - 1 {
        assert_eq!(deliver(&mut a, &mut state), Some(HugEvent::Push { payload: format!("m{}", i) }));
    }
    assert_eq!(deliver(&mut a, &mut state), Some(HugEvent::Push { payload: "late".to_string() }));
}

#[test]
fn leave_propagates_to_peer() {
    let mut state: State<String> = State::new();
    let mut a = Client::new();
    let mut b = Client::new();
    a.join_random(&mut state);
    b.join_random(&mut state);
    b.push(&mut state, "hello".to_string()).unwrap();
    b.leave(&mut state);
    assert_eq!(b.message_socket, None);
    assert_eq!(deliver(&mut a, &mut state), Some(HugEvent::Joined { is_primary: true }));
    assert_eq!(deliver(&mut a, &mut state), Some(HugEvent::Push { payload: "hello".to_string() }));
    assert_eq!(a.recv_message(&mut state), RecvOutcome::Message(Message::Leave));
    assert_eq!(a.handle_message(&mut state, Some(Message::Leave)), None);
    assert_eq!(a.message_socket, None);
}

#[test]
fn push_to_departed_peer_fails() {
    let mut state: State<String> = State::new();
    let mut a = Client::new();
    let mut b = Client::new();
    a.join_random(&mut state);
    b.join_random(&mut state);
    b.leave(&mut state);
    assert_eq!(a.push(&mut state, "p".to_string()), Err(ClientError::PeerGone));
    assert_eq!(a.message_socket, None);
}

#[test]
fn registry_full_refuses_new_rooms() {
    let mut state: State<String> = State::new();
    let mut creators: Vec<Client> = Vec::new();
    for _ in 0..REGISTRY_CAPACITY {
        let mut c = Client::new();
        assert!(c.create_room(&mut state, 0).is_ok());
        creators.push(c);
    }
    let mut late = Client::new();
    assert_eq!(late.create_room(&mut state, 0), Err(ClientError::RegistryFull));
    assert_eq!(late.message_socket, None);
}

#[test]
fn full_registry_sweeps_expired_rooms() {
    let mut state: State<String> = State::new();
    let mut creators: Vec<Client> = Vec::new();
    for _ in 0..REGISTRY_CAPACITY {
        let mut c = Client::new();
        assert!(c.create_room(&mut state, 0).is_ok());
        creators.push(c);
    }
    let mut late = Client::new();
    let created = late.create_room(&mut state, ROOM_TTL_MILLIS);
    assert!(matches!(created, Ok(HugEvent::RoomCreated { .. })));
    // The expired rooms were dropped: their creators' streams have ended.
    assert_eq!(creators[0].recv_message(&mut state), RecvOutcome::Closed);
    assert_eq!(late.recv_message(&mut state), RecvOutcome::Empty);
}

#[test]
fn default_state_is_empty() {
    let mut state: State<String> = State::default();
    let mut a = Client::new();
    assert_eq!(a.join_room(&mut state, 1, 0), HugEvent::NotFound);
    assert!(state.random_matching.waiting.is_none());
}

#[test]
fn room_key_text_is_hyphenated_lower_hex() {
    let mut state: State<String> = State::new();
    let mut a = Client::new();
    let key = room_key(a.create_room(&mut state, 0).unwrap());
    let groups: Vec<&str> = key.split('-').collect();
    let lens: Vec<usize> = groups.iter().map(|g| g.len()).collect();
    assert_eq!(lens, vec![8, 4, 4, 4, 12]);
    assert!(groups.iter().all(|g| g.chars().all(|c| c.is_ascii_digit() || ('a'..='f').contains(&c))));
}
