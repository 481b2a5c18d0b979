use vstd::prelude::*;
use crate::models::game::Answer;
use crate::models::game::ScoreEntry;
use crate::models::lobby::User;

verus! {

/// A server-to-client message: the tagged-union envelope
/// `{ "response": <variant>, "data": <payload> }` on the wire.
#[allow(non_snake_case)]
#[allow(non_camel_case_types)]
#[allow(inconsistent_fields)]
#[derive(Debug, PartialEq, Eq)]
pub enum Response {
    createRoomResponse { token: String, userList: Vec<User> },
    joinRoomResponse { token: String, userList: Vec<User> },
    updateUserList { userList: Vec<User> },
    newMessage { author: String, text: String },
    startGame,
    errorResponse { errorText: String, errorCode: i32 },
    questionResponse { question: String },
    answersResponse { answers: Vec<Answer>, timer: i32 },
    timerResponse { timer: i32 },
    correctAnswerResponse { answers: Vec<ScoreEntry>, correct_answer: i32 },
    scoresResponse { scores: Vec<ScoreEntry> },
}

/// A client-to-server message: either an open command or a command paired
/// with a bearer token.
#[allow(non_camel_case_types)]
pub enum Command {
    UnauthorizedCommand(UnauthorizedCommand),
    CommandTokenPair(CommandTokenPair),
}

/// The commands a client may send before it holds a token.
#[allow(non_snake_case)]
#[allow(non_camel_case_types)]
#[derive(Debug, PartialEq, Eq)]
pub enum UnauthorizedCommand {
    createRoom { name: String, avatarPath: String },
    joinRoom { name: String, avatarPath: String, roomId: String },
    heartbeat,
}

/// The commands a client may send once it holds a token.
#[allow(non_snake_case)]
#[allow(non_camel_case_types)]
#[derive(Debug, PartialEq, Eq)]
pub enum AuthorizedCommand {
    reconnectRoom,
    startGame { packPath: String },
    getUserList,
    broadcastMessage { text: String },
    writeAnswer { answer: i32 },
    changeUsername { newName: String },
    changeAvatar { newAvatarPath: String },
}

/// An authorized command together with the token that must authorize it.
#[derive(Debug, PartialEq, Eq)]
pub struct CommandTokenPair {
    pub command: AuthorizedCommand,
    pub token: String,
}

} // verus!
