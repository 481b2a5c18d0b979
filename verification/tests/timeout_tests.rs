use quiz_game_rust::handlers::command_handler::FollowUp;
use quiz_game_rust::handlers::command_handler::apply_authorized_command;
use quiz_game_rust::handlers::command_handler::apply_unauthorized_command;
use quiz_game_rust::handlers::connection_handler::handle_disconnect;
use quiz_game_rust::handlers::connection_handler::register_connection;
use quiz_game_rust::handlers::timeout_handler::handle_room_timeout;
use quiz_game_rust::handlers::timeout_handler::handle_user_timeout;
use quiz_game_rust::models::communication::AuthorizedCommand;
use quiz_game_rust::models::communication::CommandTokenPair;
use quiz_game_rust::models::communication::Response;
use quiz_game_rust::models::communication::UnauthorizedCommand;
use quiz_game_rust::registry::Registry;

fn create_room_as(state: &mut Registry, conn: &str, name: &str, room_id: &str) -> String {
    let conn = conn.to_string();
    register_connection(state, &conn);
    let effects = apply_unauthorized_command(
        state,
        UnauthorizedCommand::createRoom { name: name.to_string(), avatarPath: "".to_string() },
        &conn,
        room_id.to_string(),
        0,
        1000,
    );
    match &effects[0].response {
        Response::createRoomResponse { token, .. } => token.clone(),
        other => panic!("unexpected response: {:?}", other),
    }
}

fn join_room_as(state: &mut Registry, conn: &str, name: &str, room_id: &str) -> String {
    let conn = conn.to_string();
    register_connection(state, &conn);
    let effects = apply_unauthorized_command(
        state,
        UnauthorizedCommand::joinRoom {
            name: name.to_string(),
            avatarPath: "".to_string(),
            roomId: room_id.to_string(),
        },
        &conn,
        "unused".to_string(),
        1,
        1000,
    );
    match &effects[0].response {
        Response::joinRoomResponse { token, .. } => token.clone(),
        other => panic!("unexpected response: {:?}", other),
    }
}

#[test]
fn disconnect_then_reconnect_within_grace_keeps_the_user() {
    let mut state = Registry::new();
    let token_a = create_room_as(&mut state, "c1", "A", "room-1");

    // The socket closes: the channel goes away, a removal timer is due.
    let outcome = handle_disconnect(&mut state, &"c1".to_string(), 0);
    assert_eq!(outcome.timeout, Some(("c1".to_string(), "room-1".to_string())));
    assert!(!outcome.cancel_previous);
    assert!(state.connections.is_empty());
    assert_eq!(state.users.len(), 1);

    // A new socket arrives and reconnects with the old token.
    let fresh = "fresh-conn".to_string();
    register_connection(&mut state, &fresh);
    let mut conn = fresh.clone();
    let (effects, follow) = apply_authorized_command(
        &mut state,
        CommandTokenPair { command: AuthorizedCommand::reconnectRoom, token: token_a },
        &mut conn,
        1500,
    );
    assert_eq!(follow, FollowUp::CancelUserTimeout { user_id: "c1".to_string() });
    assert_eq!(conn, "c1");
    match &effects[0].response {
        Response::updateUserList { userList } => {
            assert_eq!(userList.len(), 1);
            assert_eq!(userList[0].name, "A");
            assert_eq!(userList[0].avatarPath, "");
            assert!(userList[0].isHost);
        },
        other => panic!("unexpected response: {:?}", other),
    }
    assert_eq!(effects[0].recipients, vec!["c1".to_string()]);
    // The user record survived, rebound to its old id.
    assert_eq!(state.users.len(), 1);
    assert_eq!(state.connections, vec!["c1".to_string()]);
    assert!(state.user_timeouts.is_empty());

    // The timer that does fire later finds a live connection and leaves
    // everything alone.
    let (effects, schedule_room) = handle_user_timeout(&mut state, &"c1".to_string());
    assert!(effects.is_empty());
    assert!(!schedule_room);
    assert_eq!(state.users.len(), 1);
}

#[test]
fn expired_grace_removes_the_user_and_refuses_the_old_token() {
    let mut state = Registry::new();
    let token_a = create_room_as(&mut state, "c1", "A", "room-1");
    handle_disconnect(&mut state, &"c1".to_string(), 0);

    // The grace window passes without a reconnect: the timer fires.
    let (effects, schedule_room) = handle_user_timeout(&mut state, &"c1".to_string());
    assert!(state.users.is_empty());
    assert_eq!(state.rooms[0].current_players, 0);
    assert!(schedule_room);
    // The survivors' roster update goes to nobody: the room is empty.
    match &effects[0].response {
        Response::updateUserList { userList } => assert!(userList.is_empty()),
        other => panic!("unexpected response: {:?}", other),
    }

    // A reconnect attempt after removal is told to restart the join flow.
    let fresh = "fresh-conn".to_string();
    register_connection(&mut state, &fresh);
    let mut conn = fresh.clone();
    let (effects, _) = apply_authorized_command(
        &mut state,
        CommandTokenPair { command: AuthorizedCommand::reconnectRoom, token: token_a },
        &mut conn,
        1500,
    );
    match &effects[0].response {
        Response::errorResponse { errorText, errorCode } => {
            assert_eq!(errorText, "User has been removed");
            assert_eq!(*errorCode, 2);
        },
        other => panic!("unexpected response: {:?}", other),
    }
}

#[test]
fn host_failover_picks_a_survivor() {
    let mut state = Registry::new();
    create_room_as(&mut state, "c1", "A", "room-1");
    let token_b = join_room_as(&mut state, "c2", "B", "room-1");

    // The host drops; the only survivor inherits the flag.
    handle_disconnect(&mut state, &"c1".to_string(), 0);
    assert!(!state.users[0].isHost);
    assert!(state.users[1].isHost);

    // After the grace window the old host is removed for good.
    let (_, schedule_room) = handle_user_timeout(&mut state, &"c1".to_string());
    assert!(!schedule_room);
    assert_eq!(state.users.len(), 1);
    assert_eq!(state.users[0].id, "c2");
    assert!(state.users[0].isHost);
    assert_eq!(state.rooms[0].current_players, 1);

    // The new host can start the game.
    let mut conn = "c2".to_string();
    let (_, follow) = apply_authorized_command(
        &mut state,
        CommandTokenPair {
            command: AuthorizedCommand::startGame { packPath: "p.json".to_string() },
            token: token_b,
        },
        &mut conn,
        1500,
    );
    assert!(matches!(follow, FollowUp::LoadPack { .. }));
}

#[test]
fn empty_room_is_reaped_after_its_own_grace() {
    let mut state = Registry::new();
    create_room_as(&mut state, "c1", "A", "room-1");
    handle_disconnect(&mut state, &"c1".to_string(), 0);
    let (_, schedule_room) = handle_user_timeout(&mut state, &"c1".to_string());
    assert!(schedule_room);

    // The room timer fires while the room is still empty: the room goes.
    let removed = handle_room_timeout(&mut state, &"room-1".to_string());
    assert!(removed);
    assert!(state.rooms.is_empty());

    // A join citing the reaped room is refused.
    let c2 = "c2".to_string();
    register_connection(&mut state, &c2);
    let effects = apply_unauthorized_command(
        &mut state,
        UnauthorizedCommand::joinRoom {
            name: "B".to_string(),
            avatarPath: "".to_string(),
            roomId: "room-1".to_string(),
        },
        &c2,
        "unused".to_string(),
        0,
        1000,
    );
    match &effects[0].response {
        Response::errorResponse { errorText, .. } => assert_eq!(errorText, "Room does not exist"),
        other => panic!("unexpected response: {:?}", other),
    }
}

#[test]
fn late_joiner_keeps_the_room_and_becomes_host() {
    let mut state = Registry::new();
    create_room_as(&mut state, "c1", "A", "room-1");
    handle_disconnect(&mut state, &"c1".to_string(), 0);
    let (_, schedule_room) = handle_user_timeout(&mut state, &"c1".to_string());
    assert!(schedule_room);

    // A joiner arrives inside the room's grace window.
    join_room_as(&mut state, "c2", "B", "room-1");
    assert_eq!(state.rooms[0].current_players, 1);
    assert!(state.users[0].isHost, "the joiner of an empty room becomes its host");

    // The room timer then finds the room populated and does nothing.
    let removed = handle_room_timeout(&mut state, &"room-1".to_string());
    assert!(!removed);
    assert_eq!(state.rooms.len(), 1);
}

#[test]
fn second_disconnect_replaces_the_pending_timer() {
    let mut state = Registry::new();
    let token_a = create_room_as(&mut state, "c1", "A", "room-1");
    handle_disconnect(&mut state, &"c1".to_string(), 0);

    // Reconnect, then drop again: the new timer replaces the old one.
    let fresh = "fresh-conn".to_string();
    register_connection(&mut state, &fresh);
    let mut conn = fresh.clone();
    apply_authorized_command(
        &mut state,
        CommandTokenPair { command: AuthorizedCommand::reconnectRoom, token: token_a },
        &mut conn,
        1500,
    );
    assert!(state.user_timeouts.is_empty());
    let outcome = handle_disconnect(&mut state, &"c1".to_string(), 0);
    assert!(!outcome.cancel_previous);
    assert_eq!(state.user_timeouts, vec!["c1".to_string()]);
    let outcome = handle_disconnect(&mut state, &"c1".to_string(), 0);
    assert!(outcome.cancel_previous);
    assert_eq!(state.user_timeouts, vec!["c1".to_string()]);
}

#[test]
fn reconnect_with_live_session_is_refused() {
    let mut state = Registry::new();
    let token_a = create_room_as(&mut state, "c1", "A", "room-1");
    // The first connection is still live.
    let fresh = "fresh-conn".to_string();
    register_connection(&mut state, &fresh);
    let mut conn = fresh.clone();
    let (effects, _) = apply_authorized_command(
        &mut state,
        CommandTokenPair { command: AuthorizedCommand::reconnectRoom, token: token_a },
        &mut conn,
        1500,
    );
    match &effects[0].response {
        Response::errorResponse { errorText, errorCode } => {
            assert_eq!(errorText, "User already active");
            assert_eq!(*errorCode, 0);
        },
        other => panic!("unexpected response: {:?}", other),
    }
    assert_eq!(conn, "fresh-conn");
}
