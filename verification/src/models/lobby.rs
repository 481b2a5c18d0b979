use vstd::prelude::*;
use vstd::string::StringExecFns;

verus! {

/// An item of one of the registry's ordered indices, addressed by a string id.
pub trait HasId: Sized {
    /// The id of this item, as a sequence of characters.
    spec fn id_spec(&self) -> Seq<char>;

    fn get_id(&self) -> (r: String)
        ensures
            r@ == self.id_spec(),
    ;
}

/// A lobby participant. The id equals the connection-id the user was created
/// under; the room id names the room the user currently belongs to.
#[allow(non_snake_case)]
#[derive(Debug, PartialEq, Eq)]
pub struct User {
    pub id: String,
    pub name: String,
    pub avatarPath: String,
    pub roomId: String,
    pub isHost: bool,
    pub userColor: String,
}

impl Clone for User {
    fn clone(&self) -> (res: Self)
        ensures
            res == *self,
    {
        User {
            id: self.id.clone(),
            name: self.name.clone(),
            avatarPath: self.avatarPath.clone(),
            roomId: self.roomId.clone(),
            isHost: self.isHost,
            userColor: self.userColor.clone(),
        }
    }
}

impl HasId for User {
    open spec fn id_spec(&self) -> Seq<char> {
        self.id@
    }

    fn get_id(&self) -> (r: String) {
        self.id.clone()
    }
}

/// A lobby container: at most `max_players` members, one of which is host.
/// `current_players` is kept equal to the number of users whose room id
/// equals this room's id.
#[derive(Debug, PartialEq, Eq)]
pub struct Room {
    pub id: String,
    pub max_players: i32,
    pub host_id: String,
    pub current_players: i32,
}

impl Clone for Room {
    fn clone(&self) -> (res: Self)
        ensures
            res == *self,
    {
        Room {
            id: self.id.clone(),
            max_players: self.max_players,
            host_id: self.host_id.clone(),
            current_players: self.current_players,
        }
    }
}

impl HasId for Room {
    open spec fn id_spec(&self) -> Seq<char> {
        self.id@
    }

    fn get_id(&self) -> (r: String) {
        self.id.clone()
    }
}

/// The fixed palette a user's color is drawn from.
#[derive(Clone, Copy, Debug, PartialEq, Eq)]
pub enum UserColors {
    Black,
    Yellow,
    Blue,
    Red,
    Green,
    Purple,
    Brown,
    Orange,
    Cyan,
}

/// The hex code each palette color carries on the wire.
pub open spec fn color_code(c: UserColors) -> Seq<char> {
    match c {
        UserColors::Black => "#000000"@,
        UserColors::Yellow => "#FFFF00"@,
        UserColors::Blue => "#00FFFF"@,
        UserColors::Red => "#FF0000"@,
        UserColors::Green => "#00FF00"@,
        UserColors::Purple => "#A020F0"@,
        UserColors::Brown => "#964B00"@,
        UserColors::Orange => "#FFA500"@,
        UserColors::Cyan => "#00FFFF"@,
    }
}

/// The palette color a sampled index in `0 ..= 9` maps to; anything outside
/// the enumerated range falls back to red.
pub open spec fn spec_color_from_index(i: u32) -> UserColors {
    if i == 0 {
        UserColors::Yellow
    } else if i == 1 {
        UserColors::Blue
    } else if i == 2 {
        UserColors::Black
    } else if i == 3 {
        UserColors::Green
    } else if i == 4 {
        UserColors::Purple
    } else if i == 5 {
        UserColors::Brown
    } else if i == 6 {
        UserColors::Orange
    } else if i == 7 {
        UserColors::Cyan
    } else {
        UserColors::Red
    }
}

impl UserColors {
    /// The wire form of this color.
    pub fn value(&self) -> (r: String)
        ensures
            r@ == color_code(*self),
    {
        match *self {
            UserColors::Black => String::from_str("#000000"),
            UserColors::Yellow => String::from_str("#FFFF00"),
            UserColors::Blue => String::from_str("#00FFFF"),
            UserColors::Red => String::from_str("#FF0000"),
            UserColors::Green => String::from_str("#00FF00"),
            UserColors::Purple => String::from_str("#A020F0"),
            UserColors::Brown => String::from_str("#964B00"),
            UserColors::Orange => String::from_str("#FFA500"),
            UserColors::Cyan => String::from_str("#00FFFF"),
        }
    }
}

/// Maps a sampled index to a palette color, exactly as the random color
/// source distributes them.
pub fn color_from_index(i: u32) -> (r: UserColors)
    ensures
        r == spec_color_from_index(i),
{
    match i {
        0 => UserColors::Yellow,
        1 => UserColors::Blue,
        2 => UserColors::Black,
        3 => UserColors::Green,
        4 => UserColors::Purple,
        5 => UserColors::Brown,
        6 => UserColors::Orange,
        7 => UserColors::Cyan,
        _ => UserColors::Red,
    }
}

} // verus!
