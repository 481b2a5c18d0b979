use quiz_game_rust::handlers::command_handler::FollowUp;
use quiz_game_rust::handlers::command_handler::apply_authorized_command;
use quiz_game_rust::handlers::command_handler::apply_unauthorized_command;
use quiz_game_rust::handlers::connection_handler::register_connection;
use quiz_game_rust::helpers::get_list_element;
use quiz_game_rust::helpers::get_room_user_list;
use quiz_game_rust::helpers::edit_list_element;
use quiz_game_rust::models::communication::AuthorizedCommand;
use quiz_game_rust::models::communication::CommandTokenPair;
use quiz_game_rust::models::communication::Response;
use quiz_game_rust::models::communication::UnauthorizedCommand;
use quiz_game_rust::models::lobby::User;
use quiz_game_rust::models::lobby::UserColors;
use quiz_game_rust::models::lobby::color_from_index;
use quiz_game_rust::registry::Registry;

fn create_room_as(
    state: &mut Registry,
    conn: &str,
    name: &str,
    room_id: &str,
    now: u64,
) -> (String, Vec<User>) {
    let conn = conn.to_string();
    register_connection(state, &conn);
    let effects = apply_unauthorized_command(
        state,
        UnauthorizedCommand::createRoom { name: name.to_string(), avatarPath: "".to_string() },
        &conn,
        room_id.to_string(),
        0,
        now,
    );
    match &effects[0].response {
        Response::createRoomResponse { token, userList } => (token.clone(), userList.clone()),
        other => panic!("unexpected response: {:?}", other),
    }
}

fn join_room_as(
    state: &mut Registry,
    conn: &str,
    name: &str,
    room_id: &str,
    now: u64,
) -> Vec<quiz_game_rust::server_messages::Outbound> {
    let conn = conn.to_string();
    register_connection(state, &conn);
    apply_unauthorized_command(
        state,
        UnauthorizedCommand::joinRoom {
            name: name.to_string(),
            avatarPath: "".to_string(),
            roomId: room_id.to_string(),
        },
        &conn,
        "unused-room-id".to_string(),
        1,
        now,
    )
}

#[test]
fn palette_values_match_the_wire_codes() {
    assert_eq!(UserColors::Black.value(), "#000000");
    assert_eq!(UserColors::Yellow.value(), "#FFFF00");
    assert_eq!(UserColors::Blue.value(), "#00FFFF");
    assert_eq!(UserColors::Red.value(), "#FF0000");
    assert_eq!(UserColors::Green.value(), "#00FF00");
    assert_eq!(UserColors::Purple.value(), "#A020F0");
    assert_eq!(UserColors::Brown.value(), "#964B00");
    assert_eq!(UserColors::Orange.value(), "#FFA500");
    assert_eq!(UserColors::Cyan.value(), "#00FFFF");
}

#[test]
fn color_sampling_falls_back_to_red() {
    assert_eq!(color_from_index(0), UserColors::Yellow);
    assert_eq!(color_from_index(1), UserColors::Blue);
    assert_eq!(color_from_index(2), UserColors::Black);
    assert_eq!(color_from_index(3), UserColors::Green);
    assert_eq!(color_from_index(4), UserColors::Purple);
    assert_eq!(color_from_index(5), UserColors::Brown);
    assert_eq!(color_from_index(6), UserColors::Orange);
    assert_eq!(color_from_index(7), UserColors::Cyan);
    assert_eq!(color_from_index(8), UserColors::Red);
    assert_eq!(color_from_index(9), UserColors::Red);
}

#[test]
fn create_room_makes_a_host_and_a_room() {
    let mut state = Registry::new();
    let (_token, user_list) = create_room_as(&mut state, "c1", "A", "room-1", 1000);
    assert_eq!(user_list.len(), 1);
    assert_eq!(user_list[0].id, "c1");
    assert_eq!(user_list[0].name, "A");
    assert!(user_list[0].isHost);
    assert_eq!(state.rooms.len(), 1);
    assert_eq!(state.rooms[0].id, "room-1");
    assert_eq!(state.rooms[0].max_players, 6);
    assert_eq!(state.rooms[0].current_players, 1);
    assert_eq!(state.rooms[0].host_id, "c1");
}

#[test]
fn create_room_twice_from_one_connection_fails() {
    let mut state = Registry::new();
    create_room_as(&mut state, "c1", "A", "room-1", 1000);
    let conn = "c1".to_string();
    let effects = apply_unauthorized_command(
        &mut state,
        UnauthorizedCommand::createRoom { name: "A2".to_string(), avatarPath: "".to_string() },
        &conn,
        "room-2".to_string(),
        0,
        1000,
    );
    match &effects[0].response {
        Response::errorResponse { errorText, errorCode } => {
            assert_eq!(errorText, "User already exists");
            assert_eq!(*errorCode, 0);
        },
        other => panic!("unexpected response: {:?}", other),
    }
    assert_eq!(state.rooms.len(), 1);
}

#[test]
fn join_and_chat_reach_the_whole_room() {
    let mut state = Registry::new();
    let (token_a, _) = create_room_as(&mut state, "c1", "A", "room-1", 1000);
    let effects = join_room_as(&mut state, "c2", "B", "room-1", 1000);
    match &effects[0].response {
        Response::joinRoomResponse { token: _, userList } => {
            assert_eq!(userList.len(), 2);
            assert_eq!(userList[0].name, "A");
            assert_eq!(userList[1].name, "B");
            assert!(!userList[1].isHost);
        },
        other => panic!("unexpected response: {:?}", other),
    }
    // The roster update goes to the room except the joiner.
    match &effects[1].response {
        Response::updateUserList { userList } => assert_eq!(userList.len(), 2),
        other => panic!("unexpected response: {:?}", other),
    }
    assert_eq!(effects[1].recipients, vec!["c1".to_string()]);

    // A chat message from A reaches both members, including the sender.
    let mut conn = "c1".to_string();
    let (chat_effects, follow) = apply_authorized_command(
        &mut state,
        CommandTokenPair {
            command: AuthorizedCommand::broadcastMessage { text: "hi".to_string() },
            token: token_a,
        },
        &mut conn,
        1500,
    );
    assert_eq!(follow, FollowUp::Nothing);
    match &chat_effects[0].response {
        Response::newMessage { author, text } => {
            assert_eq!(author, "c1");
            assert_eq!(text, "hi");
        },
        other => panic!("unexpected response: {:?}", other),
    }
    assert_eq!(chat_effects[0].recipients, vec!["c1".to_string(), "c2".to_string()]);
}

#[test]
fn seventh_join_is_refused_and_changes_nothing() {
    let mut state = Registry::new();
    create_room_as(&mut state, "c1", "A", "room-1", 1000);
    for k in 2..=6 {
        let effects = join_room_as(&mut state, &format!("c{}", k), &format!("U{}", k), "room-1", 1000);
        match &effects[0].response {
            Response::joinRoomResponse { .. } => {},
            other => panic!("join {} failed: {:?}", k, other),
        }
    }
    assert_eq!(state.rooms[0].current_players, 6);
    let users_before = state.users.len();
    let effects = join_room_as(&mut state, "c7", "U7", "room-1", 1000);
    match &effects[0].response {
        Response::errorResponse { errorText, errorCode } => {
            assert_eq!(errorText, "Room is full");
            assert_eq!(*errorCode, 0);
        },
        other => panic!("unexpected response: {:?}", other),
    }
    assert_eq!(state.users.len(), users_before);
    assert_eq!(state.rooms[0].current_players, 6);
}

#[test]
fn join_of_missing_room_is_refused() {
    let mut state = Registry::new();
    let effects = join_room_as(&mut state, "c1", "B", "no-such-room", 1000);
    match &effects[0].response {
        Response::errorResponse { errorText, errorCode } => {
            assert_eq!(errorText, "Room does not exist");
            assert_eq!(*errorCode, 0);
        },
        other => panic!("unexpected response: {:?}", other),
    }
}

#[test]
fn get_user_list_replies_with_the_roster() {
    let mut state = Registry::new();
    let (token_a, _) = create_room_as(&mut state, "c1", "A", "room-1", 1000);
    join_room_as(&mut state, "c2", "B", "room-1", 1000);
    let mut conn = "c1".to_string();
    let (effects, _) = apply_authorized_command(
        &mut state,
        CommandTokenPair { command: AuthorizedCommand::getUserList, token: token_a },
        &mut conn,
        1500,
    );
    match &effects[0].response {
        Response::updateUserList { userList } => assert_eq!(userList.len(), 2),
        other => panic!("unexpected response: {:?}", other),
    }
    assert_eq!(effects[0].recipients, vec!["c1".to_string()]);
}

#[test]
fn change_username_and_avatar_mutate_silently() {
    let mut state = Registry::new();
    let (token_a, _) = create_room_as(&mut state, "c1", "A", "room-1", 1000);
    let mut conn = "c1".to_string();
    let (effects, _) = apply_authorized_command(
        &mut state,
        CommandTokenPair {
            command: AuthorizedCommand::changeUsername { newName: "Anna".to_string() },
            token: token_a.clone(),
        },
        &mut conn,
        1500,
    );
    assert!(effects.is_empty());
    let (effects2, _) = apply_authorized_command(
        &mut state,
        CommandTokenPair {
            command: AuthorizedCommand::changeAvatar { newAvatarPath: "a.png".to_string() },
            token: token_a,
        },
        &mut conn,
        1500,
    );
    assert!(effects2.is_empty());
    assert_eq!(state.users[0].name, "Anna");
    assert_eq!(state.users[0].avatarPath, "a.png");
    assert!(state.users[0].isHost);
}

#[test]
fn stale_token_is_refused_with_code_two() {
    let mut state = Registry::new();
    let (token_a, _) = create_room_as(&mut state, "c1", "A", "room-1", 1000);
    let mut conn = "c1".to_string();
    let (effects, follow) = apply_authorized_command(
        &mut state,
        CommandTokenPair { command: AuthorizedCommand::getUserList, token: token_a },
        &mut conn,
        1000 + 86400,
    );
    assert_eq!(follow, FollowUp::Nothing);
    match &effects[0].response {
        Response::errorResponse { errorText, errorCode } => {
            assert_eq!(errorText, "Token expired");
            assert_eq!(*errorCode, 2);
        },
        other => panic!("unexpected response: {:?}", other),
    }
}

#[test]
fn list_helpers_find_and_edit_by_id() {
    let mut state = Registry::new();
    create_room_as(&mut state, "c1", "A", "room-1", 1000);
    join_room_as(&mut state, "c2", "B", "room-1", 1000);
    let found = get_list_element(&"c2".to_string(), &state.users).unwrap();
    assert_eq!(found.name, "B");
    assert!(get_list_element(&"c9".to_string(), &state.users).is_none());
    let roster = get_room_user_list(&"room-1".to_string(), &state.users);
    assert_eq!(roster.len(), 2);
    let edited = edit_list_element(&"c2".to_string(), &mut state.users, |u: User| User {
        name: "Bob".to_string(),
        ..u
    });
    assert!(edited.is_ok());
    assert_eq!(state.users[1].name, "Bob");
    let missing = edit_list_element(&"c9".to_string(), &mut state.users, |u: User| u);
    assert_eq!(missing.unwrap_err(), "edit_list_element: Element does not exist in list");
}
