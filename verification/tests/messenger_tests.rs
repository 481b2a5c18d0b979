use quiz_game_rust::models::communication::Response;
use quiz_game_rust::models::lobby::User;
use quiz_game_rust::server_messages::broadcast_message_all;
use quiz_game_rust::server_messages::broadcast_message_except;
use quiz_game_rust::server_messages::broadcast_message_room_all;
use quiz_game_rust::server_messages::broadcast_message_room_except;
use quiz_game_rust::server_messages::send_message;

fn member(id: &str) -> User {
    User {
        id: id.to_string(),
        name: id.to_string(),
        avatarPath: "".to_string(),
        roomId: "room-1".to_string(),
        isHost: false,
        userColor: "#FF0000".to_string(),
    }
}

fn heartbeat_note() -> Response {
    Response::newMessage { author: "server".to_string(), text: "note".to_string() }
}

#[test]
fn send_message_addresses_one_connection() {
    let ob = send_message(heartbeat_note(), &"c1".to_string());
    assert_eq!(ob.recipients, vec!["c1".to_string()]);
}

#[test]
fn room_broadcasts_follow_the_roster() {
    let roster = vec![member("c1"), member("c2"), member("c3")];
    let ob = broadcast_message_room_all(heartbeat_note(), &roster);
    assert_eq!(ob.recipients, vec!["c1".to_string(), "c2".to_string(), "c3".to_string()]);
    let ob = broadcast_message_room_except(heartbeat_note(), &roster, &"c2".to_string());
    assert_eq!(ob.recipients, vec!["c1".to_string(), "c3".to_string()]);
}

#[test]
fn global_broadcasts_follow_the_connection_table() {
    let connections = vec!["c1".to_string(), "c2".to_string()];
    let ob = broadcast_message_all(heartbeat_note(), &connections);
    assert_eq!(ob.recipients, connections);
    let ob = broadcast_message_except(heartbeat_note(), &connections, &"c1".to_string());
    assert_eq!(ob.recipients, vec!["c2".to_string()]);
}
