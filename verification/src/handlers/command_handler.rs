use vstd::prelude::*;
use vstd::string::StringExecFns;
use crate::helpers::connect_user_to_room;
use crate::helpers::edit_list_element;
use crate::helpers::get_list_element;
use crate::helpers::get_room_user_list;
use crate::helpers::incr_players;
use crate::helpers::join_broadcast_ok;
use crate::helpers::joining_room_ok;
use crate::helpers::mid_join;
use crate::helpers::room_user_list;
use crate::helpers::set_host;
use crate::jwtoken::TokenError;
use crate::jwtoken::claims_fit;
use crate::jwtoken::generate_token;
use crate::jwtoken::spec_claims_for;
use crate::jwtoken::spec_token;
use crate::models::communication::Response;
use crate::models::communication::UnauthorizedCommand;
use crate::models::lobby::HasId;
use crate::models::lobby::Room;
use crate::models::lobby::User;
use crate::models::lobby::UserColors;
use crate::models::lobby::color_code;
use crate::models::lobby::color_from_index;
use crate::models::lobby::spec_color_from_index;
use crate::registry::Registry;
use crate::registry::host_in_room;
use crate::registry::in_room;
use crate::registry::lemma_count_push;
use crate::registry::lemma_count_zero;
use crate::registry::num_hosts_in_room;
use crate::registry::num_in_room;
use crate::registry::room_exists;
use crate::registry::room_index;
use crate::registry::room_ok;
use crate::registry::str_in;
use crate::registry::user_exists;
use crate::registry::wf;
use crate::registry::hosts_full;
use crate::registry::contains_str;
use crate::server_messages::Outbound;
use crate::server_messages::ids_except;
use crate::server_messages::send_message;
use crate::server_messages::views_of;

verus! {

/// Relies on uuid's Uuid::new_v4 and its Display form: a fresh random v4
/// UUID written in the hyphenated format, which is 36 characters.
#[verifier::external_body]
fn new_uuid() -> (r: String)
    ensures
        r@.len() == 36,
{
    uuid::Uuid::new_v4().to_string()
}

/// Relies on rand::random_range: a uniform draw from the given range, here
/// 0 through 9.
#[verifier::external_body]
fn random_color_index() -> (r: u32)
    ensures
        r <= 9,
{
    rand::random_range(0u32..=9u32)
}

/// Relies on chrono's Utc::now and timestamp: the current wall-clock time
/// as Unix seconds. Nothing is promised of the value; the clock may read
/// anything.
#[verifier::external_body]
fn now_unix_seconds() -> (r: i64) {
    chrono::Utc::now().timestamp()
}

/// The current time as Unix seconds, clamped to zero for clocks that read
/// before the epoch.
pub fn now_seconds() -> (r: u64)
    ensures
        r <= 0x7FFFFFFFFFFFFFFF,
{
    let t = now_unix_seconds();
    if t < 0 {
        0
    } else {
        t as u64
    }
}

/// Builds the user, room and token a `createRoom` command asks for, from
/// the drawn room id, color index, and current time. Nothing is inserted
/// here, and nothing can fail: issuing a token always succeeds.
pub fn create_room(
    id: &String,
    name: String,
    avatar_path: String,
    room_id: String,
    color_index: u32,
    now: u64,
) -> (res: Result<(User, String, Room), TokenError>)
    requires
        now + 86400 <= u64::MAX,
    ensures
        res matches Ok(p) && {
            &&& p.0 == (User {
                id: *id,
                name: name,
                avatarPath: avatar_path,
                roomId: room_id,
                isHost: true,
                userColor: p.0.userColor,
            })
            &&& p.0.userColor@ == color_code(spec_color_from_index(color_index))
            &&& p.2 == (Room { id: room_id, max_players: 6, host_id: *id, current_players: 1 })
            &&& claims_fit(spec_claims_for(p.0, now as nat))
            &&& p.1@ == spec_token(spec_claims_for(p.0, now as nat))
        },
{
    let new_room = Room {
        id: room_id.clone(),
        max_players: 6,
        host_id: id.clone(),
        current_players: 1,
    };
    let color: UserColors = color_from_index(color_index);
    let new_user = User {
        id: id.clone(),
        name,
        avatarPath: avatar_path,
        roomId: room_id,
        isHost: true,
        userColor: color.value(),
    };
    proof {
        lemma_pow16_u64_bound();
    }
    let token = match generate_token(&new_user, now) {
        Ok(t) => t,
        Err(e) => {
            proof {
                assert(false);
            }
            return Err(e);
        },
    };
    Ok((new_user, token, new_room))
}

/// The largest token expiry always fits sixteen hex digits.
pub open spec fn pow16_u64_bound() -> bool {
    crate::encoding::pow16(16) == 0x10000000000000000
}

pub proof fn lemma_pow16_u64_bound()
    ensures
        pow16_u64_bound(),
{
    reveal_with_fuel(crate::encoding::pow16, 17);
}

/// Builds the user and token a `joinRoom` command asks for; the joiner
/// starts without the host flag. Nothing is inserted here, and nothing can
/// fail: issuing a token always succeeds.
pub fn join_room(
    id: &String,
    name: String,
    avatar_path: String,
    room_id: &String,
    color_index: u32,
    now: u64,
) -> (res: Result<(User, String), TokenError>)
    requires
        now + 86400 <= u64::MAX,
    ensures
        res matches Ok(p) && {
            &&& p.0 == (User {
                id: *id,
                name: name,
                avatarPath: avatar_path,
                roomId: *room_id,
                isHost: false,
                userColor: p.0.userColor,
            })
            &&& p.0.userColor@ == color_code(spec_color_from_index(color_index))
            &&& claims_fit(spec_claims_for(p.0, now as nat))
            &&& p.1@ == spec_token(spec_claims_for(p.0, now as nat))
        },
{
    let color: UserColors = color_from_index(color_index);
    let new_user = User {
        id: id.clone(),
        name,
        avatarPath: avatar_path,
        roomId: room_id.clone(),
        isHost: false,
        userColor: color.value(),
    };
    proof {
        lemma_pow16_u64_bound();
    }
    let token = match generate_token(&new_user, now) {
        Ok(t) => t,
        Err(e) => {
            proof {
                assert(false);
            }
            return Err(e);
        },
    };
    Ok((new_user, token))
}

/// The state graph is untouched.
pub open spec fn same_state(s0: Registry, s1: Registry) -> bool {
    &&& s1.connections@ == s0.connections@
    &&& s1.users@ == s0.users@
    &&& s1.rooms@ == s0.rooms@
    &&& s1.games@ == s0.games@
    &&& s1.user_timeouts@ == s0.user_timeouts@
}

/// The one effect is an error report to `conn` with the given text and
/// code.
pub open spec fn is_error_to(ob: Outbound, conn: Seq<char>, text: Seq<char>, code: int) -> bool {
    &&& views_of(ob.recipients@) == seq![conn]
    &&& ob.response matches Response::errorResponse { errorText, errorCode } && errorText@ == text
        && errorCode == code
}

pub open spec fn sole_error(
    s0: Registry,
    s1: Registry,
    effects: Seq<Outbound>,
    conn: Seq<char>,
    text: Seq<char>,
    code: int,
) -> bool {
    &&& same_state(s0, s1)
    &&& effects.len() == 1
    &&& is_error_to(effects[0], conn, text, code)
}

/// A successful `createRoom`: a fresh room holding only its creator, who is
/// host; a token for the creator; the roster sent back, and the roster
/// broadcast to the (empty) rest of the room.
pub open spec fn created_ok(
    s0: Registry,
    s1: Registry,
    effects: Seq<Outbound>,
    conn: Seq<char>,
    name: Seq<char>,
    avatar: Seq<char>,
    rid: Seq<char>,
    color: u32,
    now: nat,
) -> bool {
    let u = s1.users@.last();
    let r = s1.rooms@.last();
    &&& s1.users@.len() == s0.users@.len() + 1
    &&& s1.users@ == s0.users@.push(u)
    &&& s1.rooms@.len() == s0.rooms@.len() + 1
    &&& s1.rooms@ == s0.rooms@.push(r)
    &&& s1.connections@ == s0.connections@
    &&& s1.games@ == s0.games@
    &&& s1.user_timeouts@ == s0.user_timeouts@
    &&& u.id@ == conn
    &&& u.name@ == name
    &&& u.avatarPath@ == avatar
    &&& u.roomId@ == rid
    &&& u.isHost
    &&& u.userColor@ == color_code(spec_color_from_index(color))
    &&& r.id@ == rid
    &&& r.max_players == 6
    &&& r.host_id@ == conn
    &&& r.current_players == 1
    &&& effects.len() == 2
    &&& views_of(effects[0].recipients@) == seq![conn]
    &&& effects[0].response matches Response::createRoomResponse { token, userList }
        && token@ == spec_token(spec_claims_for(u, now)) && userList@ == room_user_list(
        s1.users@,
        rid,
    )
    &&& effects[1].response matches Response::updateUserList { userList } && userList@
        == room_user_list(s1.users@, rid)
    &&& views_of(effects[1].recipients@) == ids_except(room_user_list(s1.users@, rid), conn)
}

/// A successful `joinRoom`: the joiner appended without the host flag and
/// promoted exactly when the room stood empty; the room's counter stepped;
/// the token sent back, and the roster broadcast to the others.
pub open spec fn joined_ok(
    s0: Registry,
    s1: Registry,
    effects: Seq<Outbound>,
    conn: Seq<char>,
    name: Seq<char>,
    avatar: Seq<char>,
    rid: Seq<char>,
    color: u32,
    now: nat,
) -> bool {
    let u = s1.users@.last();
    let u0 = User { isHost: false, ..u };
    let mid = s0.users@.push(u0);
    let promoted = num_in_room(mid, rid) == 1;
    let k = room_index(s0.rooms@, rid);
    &&& s1.users@.len() == s0.users@.len() + 1
    &&& s1.users@ == if promoted {
        mid.update(mid.len() - 1, set_host(u0))
    } else {
        mid
    }
    &&& u.isHost == promoted
    &&& s1.rooms@ == s0.rooms@.update(k, incr_players(s0.rooms@[k]))
    &&& s1.connections@ == s0.connections@
    &&& s1.games@ == s0.games@
    &&& s1.user_timeouts@ == s0.user_timeouts@
    &&& u.id@ == conn
    &&& u.name@ == name
    &&& u.avatarPath@ == avatar
    &&& u.roomId@ == rid
    &&& u.userColor@ == color_code(spec_color_from_index(color))
    &&& effects.len() == 2
    &&& views_of(effects[0].recipients@) == seq![conn]
    &&& effects[0].response matches Response::joinRoomResponse { token, userList }
        && token@ == spec_token(spec_claims_for(u0, now)) && userList@ == room_user_list(
        s1.users@,
        rid,
    )
    &&& effects[1].response matches Response::updateUserList { userList } && userList@
        == room_user_list(s1.users@, rid)
    &&& views_of(effects[1].recipients@) == ids_except(room_user_list(s1.users@, rid), conn)
}

/// What one unauthenticated command does, given the drawn room id, color
/// index, and current time: the checks in order, their error reports, and
/// the success shape.
pub open spec fn unauth_step(
    s0: Registry,
    s1: Registry,
    effects: Seq<Outbound>,
    command: UnauthorizedCommand,
    conn: Seq<char>,
    rid: Seq<char>,
    color: u32,
    now: nat,
) -> bool {
    match command {
        UnauthorizedCommand::createRoom { name, avatarPath } => {
            if user_exists(s0.users@, conn) {
                sole_error(s0, s1, effects, conn, "User already exists"@, 0)
            } else if room_exists(s0.rooms@, rid) {
                sole_error(s0, s1, effects, conn, "Room already exists"@, 0)
            } else {
                created_ok(s0, s1, effects, conn, name@, avatarPath@, rid, color, now)
            }
        },
        UnauthorizedCommand::joinRoom { name, avatarPath, roomId } => {
            if user_exists(s0.users@, conn) {
                sole_error(s0, s1, effects, conn, "User already exists"@, 0)
            } else if !room_exists(s0.rooms@, roomId@) {
                sole_error(s0, s1, effects, conn, "Room does not exist"@, 0)
            } else if s0.rooms@[room_index(s0.rooms@, roomId@)].current_players >= s0.rooms@[
                room_index(s0.rooms@, roomId@)
            ].max_players {
                sole_error(s0, s1, effects, conn, "Room is full"@, 0)
            } else if str_in(s0.games@, roomId@) {
                sole_error(s0, s1, effects, conn, "Game is in progress"@, 0)
            } else {
                joined_ok(s0, s1, effects, conn, name@, avatarPath@, roomId@, color, now)
            }
        },
        UnauthorizedCommand::heartbeat => {
            same_state(s0, s1) && effects.len() == 0
        },
    }
}

/// Appending a creator and a fresh room keeps the invariant; a populated
/// fresh room has its one host.
proof fn lemma_create_wf(s0: Registry, s1: Registry, u: User, r: Room)
    requires
        wf(s0),
        !user_exists(s0.users@, u.id@),
        !room_exists(s0.rooms@, r.id@),
        u.roomId@ == r.id@,
        u.isHost,
        r.max_players == 6,
        r.current_players == 1,
        s1.users@ == s0.users@.push(u),
        s1.rooms@ == s0.rooms@.push(r),
        s1.connections@ == s0.connections@,
        s1.games@ == s0.games@,
        s1.user_timeouts@ == s0.user_timeouts@,
    ensures
        wf(s1),
        hosts_full(s0) ==> hosts_full(s1),
{
    let users0 = s0.users@;
    let users1 = s1.users@;
    let rid = r.id@;

    // No existing user sits in the fresh room: each of their rooms exists,
    // and the fresh room does not.
    assert forall|i: int| 0 <= i < users0.len() implies (#[trigger] users0[i]).roomId@ != rid by {
        assert(room_exists(s0.rooms@, users0[i].roomId@));
        if users0[i].roomId@ == rid {
            let w = choose|w: int|
                0 <= w < s0.rooms@.len() && (#[trigger] s0.rooms@[w]).id@ == users0[i].roomId@;
        }
    }
    lemma_count_zero(users0, in_room(rid));
    lemma_count_zero(users0, host_in_room(rid));
    lemma_count_push(users0, in_room(rid), u);
    lemma_count_push(users0, host_in_room(rid), u);
    assert(num_in_room(users1, rid) == 1);
    assert(num_hosts_in_room(users1, rid) == 1);

    assert forall|i: int, j: int| 0 <= i < j < users1.len() implies (#[trigger] users1[i]).id@
        != (#[trigger] users1[j]).id@ by {
        if j == users1.len() - 1 {
            assert(users1[j] == u);
            assert(users1[i] == users0[i]);
        }
    }
    assert forall|i: int, j: int| 0 <= i < j < s1.rooms@.len() implies (#[trigger] s1.rooms@[i]).id@
        != (#[trigger] s1.rooms@[j]).id@ by {
        if j == s1.rooms@.len() - 1 {
            assert(s1.rooms@[j] == r);
            assert(s1.rooms@[i] == s0.rooms@[i]);
        }
    }
    assert forall|i: int| 0 <= i < users1.len() implies room_exists(
        s1.rooms@,
        (#[trigger] users1[i]).roomId@,
    ) by {
        if i < users0.len() {
            let w = choose|w: int|
                0 <= w < s0.rooms@.len() && (#[trigger] s0.rooms@[w]).id@ == users0[i].roomId@;
            assert(s1.rooms@[w].id@ == users1[i].roomId@);
        } else {
            assert(s1.rooms@[s1.rooms@.len() - 1].id@ == rid);
        }
    }
    assert forall|i: int| 0 <= i < s1.rooms@.len() implies room_ok(
        users1,
        #[trigger] s1.rooms@[i],
    ) by {
        if i < s0.rooms@.len() {
            assert(s0.rooms@[i].id@ != rid);
            lemma_count_push(users0, in_room(s0.rooms@[i].id@), u);
            lemma_count_push(users0, host_in_room(s0.rooms@[i].id@), u);
            assert(room_ok(users0, s0.rooms@[i]));
        } else {
            assert(s1.rooms@[i] == r);
        }
    }
    if hosts_full(s0) {
        assert forall|i: int|
            0 <= i < s1.rooms@.len() && num_in_room(users1, (#[trigger] s1.rooms@[i]).id@)
                > 0 implies num_hosts_in_room(users1, s1.rooms@[i].id@) == 1 by {
            if i < s0.rooms@.len() {
                assert(s0.rooms@[i].id@ != rid);
                lemma_count_push(users0, in_room(s0.rooms@[i].id@), u);
                lemma_count_push(users0, host_in_room(s0.rooms@[i].id@), u);
                assert(num_in_room(users0, s0.rooms@[i].id@) > 0);
            }
        }
    }
}

/// Runs one unauthenticated command against the state graph, with the
/// drawn room id, color index, and current time handed in, and yields the
/// deliveries it causes.
pub fn apply_unauthorized_command(
    state: &mut Registry,
    command: UnauthorizedCommand,
    connection_id: &String,
    new_room_id: String,
    color_index: u32,
    now: u64,
) -> (effects: Vec<Outbound>)
    requires
        wf(*old(state)),
        now + 86400 <= u64::MAX,
    ensures
        wf(*final(state)),
        hosts_full(*old(state)) ==> hosts_full(*final(state)),
        unauth_step(
            *old(state),
            *final(state),
            effects@,
            command,
            connection_id@,
            new_room_id@,
            color_index,
            now as nat,
        ),
{
    let ghost s0 = *state;
    match command {
        UnauthorizedCommand::createRoom { name, avatarPath } => {
            match get_list_element(connection_id, &state.users) {
                Some(_) => {
                    let response = Response::errorResponse {
                        errorText: String::from_str("User already exists"),
                        errorCode: 0,
                    };
                    let mut effects: Vec<Outbound> = Vec::new();
                    effects.push(send_message(response, connection_id));
                    proof {
                        assert(effects@ =~= seq![effects@[0]]);
                    }
                    return effects;
                },
                None => {},
            }
            let create_res = create_room(
                connection_id,
                name,
                avatarPath,
                new_room_id,
                color_index,
                now,
            );
            match create_res {
                Ok(created) => {
                    let (new_user, token, new_room) = created;
                    match get_list_element(&new_room.id, &state.rooms) {
                        Some(_) => {
                            let response = Response::errorResponse {
                                errorText: String::from_str("Room already exists"),
                                errorCode: 0,
                            };
                            let mut effects: Vec<Outbound> = Vec::new();
                            effects.push(send_message(response, connection_id));
                            proof {
                                assert(effects@ =~= seq![effects@[0]]);
                            }
                            return effects;
                        },
                        None => {},
                    }
                    let room_id = new_room.id.clone();
                    let ghost u = new_user;
                    let ghost r = new_room;
                    state.users.push(new_user);
                    state.rooms.push(new_room);
                    proof {
                        lemma_create_wf(s0, *state, u, r);
                    }
                    let user_list = get_room_user_list(&room_id, &state.users);
                    let user_list_copy = crate::helpers::clone_users(&user_list);
                    let user_list_copy2 = crate::helpers::clone_users(&user_list);
                    let response = Response::createRoomResponse {
                        token,
                        userList: user_list_copy,
                    };
                    let mut effects: Vec<Outbound> = Vec::new();
                    effects.push(send_message(response, connection_id));
                    let user_list_response = Response::updateUserList { userList: user_list_copy2 };
                    effects.push(
                        crate::server_messages::broadcast_message_room_except(
                            user_list_response,
                            &user_list,
                            connection_id,
                        ),
                    );
                    proof {
                        assert(effects@ =~= seq![effects@[0], effects@[1]]);
                        assert(state.users@.last() == u);
                        assert(state.rooms@.last() == r);
                    }
                    effects
                },
                Err(_) => {
                    proof {
                        assert(false);
                    }
                    Vec::new()
                },
            }
        },
        UnauthorizedCommand::joinRoom { name, avatarPath, roomId } => {
            apply_join_room(state, name, avatarPath, roomId, connection_id, color_index, now)
        },
        UnauthorizedCommand::heartbeat => {
            Vec::new()
        },
    }
}

/// The `joinRoom` arm: the four precondition checks in the protocol's
/// order, then the insert, count, promote and broadcasts.
fn apply_join_room(
    state: &mut Registry,
    name: String,
    avatar_path: String,
    room_id: String,
    connection_id: &String,
    color_index: u32,
    now: u64,
) -> (effects: Vec<Outbound>)
    requires
        wf(*old(state)),
        now + 86400 <= u64::MAX,
    ensures
        wf(*final(state)),
        hosts_full(*old(state)) ==> hosts_full(*final(state)),
        unauth_step(
            *old(state),
            *final(state),
            effects@,
            UnauthorizedCommand::joinRoom { name, avatarPath: avatar_path, roomId: room_id },
            connection_id@,
            Seq::empty(),
            color_index,
            now as nat,
        ),
{
    let ghost s0 = *state;
    match get_list_element(connection_id, &state.users) {
        Some(_) => {
            return one_error(String::from_str("User already exists"), 0, connection_id);
        },
        None => {},
    }
    let room = match get_list_element(&room_id, &state.rooms) {
        Some(room) => room,
        None => {
            return one_error(String::from_str("Room does not exist"), 0, connection_id);
        },
    };
    let ghost k = room_index(s0.rooms@, room_id@);
    proof {
        let i = choose|i: int|
            0 <= i < s0.rooms@.len() && (#[trigger] s0.rooms@[i]).id_spec() == room_id@
                && cloned::<Room>(s0.rooms@[i], room);
        if i != k {
            assert(s0.rooms@[i].id@ == s0.rooms@[k].id@);
            assert(false);
        }
        assert(room == s0.rooms@[k]);
    }
    if room.current_players >= room.max_players {
        return one_error(String::from_str("Room is full"), 0, connection_id);
    }
    if contains_str(&state.games, &room_id) {
        return one_error(String::from_str("Game is in progress"), 0, connection_id);
    }
    let join_res = join_room(connection_id, name, avatar_path, &room_id, color_index, now);
    let (new_user, token) = match join_res {
        Ok(p) => p,
        Err(_) => {
            proof {
                assert(false);
            }
            return Vec::new();
        },
    };
    let ghost u0 = new_user;
    state.users.push(new_user);
    proof {
        lemma_mid_join(s0, *state, u0, room_id@);
    }
    let connect_res = connect_user_to_room(&room_id, connection_id, state);
    let (user_list, broadcast) = match connect_res {
        Ok(p) => p,
        Err(_) => {
            proof {
                assert(false);
            }
            return Vec::new();
        },
    };
    let user_list_copy = crate::helpers::clone_users(&user_list);
    let response = Response::joinRoomResponse { token, userList: user_list_copy };
    let mut effects: Vec<Outbound> = Vec::new();
    effects.push(send_message(response, connection_id));
    effects.push(broadcast);
    proof {
        assert(effects@ =~= seq![effects@[0], effects@[1]]);
        let mid = s0.users@.push(u0);
        let rid = room_id@;
        let promoted = num_in_room(mid, rid) == 1;
        let last = mid.len() - 1;
        let k = room_index(s0.rooms@, rid);
        lemma_count_push(s0.users@, in_room(rid), u0);
        lemma_count_push(s0.users@, host_in_room(rid), u0);
        if promoted {
            assert(state.users@.last() == set_host(u0));
        } else {
            assert(state.users@.last() == u0);
        }
        if hosts_full(s0) {
            assert forall|i: int|
                0 <= i < state.rooms@.len() && num_in_room(
                    state.users@,
                    (#[trigger] state.rooms@[i]).id@,
                ) > 0 implies num_hosts_in_room(state.users@, state.rooms@[i].id@) == 1 by {
                let rid2 = state.rooms@[i].id@;
                assert(rid2 == s0.rooms@[i].id@);
                if rid2 == rid {
                    if !promoted {
                        assert(num_in_room(s0.users@, rid) > 0);
                        assert(num_hosts_in_room(s0.users@, rid) == 1);
                        crate::registry::lemma_count_update(
                            mid,
                            host_in_room(rid),
                            last,
                            set_host(u0),
                        );
                    }
                } else {
                    lemma_count_push(s0.users@, in_room(rid2), u0);
                    lemma_count_push(s0.users@, host_in_room(rid2), u0);
                    if promoted {
                        crate::registry::lemma_count_update(mid, in_room(rid2), last, set_host(u0));
                        crate::registry::lemma_count_update(
                            mid,
                            host_in_room(rid2),
                            last,
                            set_host(u0),
                        );
                    }
                    assert(num_in_room(s0.users@, rid2) > 0);
                }
            }
        }
    }
    effects
}

/// The joiner's append leaves the graph exactly mid-join.
proof fn lemma_mid_join(s0: Registry, s1: Registry, u: User, rid: Seq<char>)
    requires
        wf(s0),
        !user_exists(s0.users@, u.id@),
        room_exists(s0.rooms@, rid),
        s0.rooms@[room_index(s0.rooms@, rid)].current_players < 6,
        u.roomId@ == rid,
        !u.isHost,
        s1.users@ == s0.users@.push(u),
        s1.rooms@ == s0.rooms@,
        s1.connections@ == s0.connections@,
        s1.games@ == s0.games@,
        s1.user_timeouts@ == s0.user_timeouts@,
    ensures
        mid_join(s1, rid, u.id@),
        room_exists(s1.rooms@, rid),
{
    let users0 = s0.users@;
    let users1 = s1.users@;
    assert forall|i: int, j: int| 0 <= i < j < users1.len() implies (#[trigger] users1[i]).id@
        != (#[trigger] users1[j]).id@ by {
        if j == users1.len() - 1 {
            assert(users1[i] == users0[i]);
        }
    }
    assert forall|i: int| 0 <= i < users1.len() implies room_exists(
        s1.rooms@,
        (#[trigger] users1[i]).roomId@,
    ) by {
        if i < users0.len() {
            assert(room_exists(s0.rooms@, users0[i].roomId@));
        }
    }
    let k = room_index(s0.rooms@, rid);
    assert(0 <= k < s0.rooms@.len() && s0.rooms@[k].id@ == rid) by {
        let w = choose|w: int| 0 <= w < s0.rooms@.len() && (#[trigger] s0.rooms@[w]).id@ == rid;
    }
    assert forall|i: int|
        0 <= i < s1.rooms@.len() && (#[trigger] s1.rooms@[i]).id@ == rid implies joining_room_ok(
        users1,
        s1.rooms@[i],
    ) by {
        if i != k {
            assert(s0.rooms@[i].id@ == s0.rooms@[k].id@);
            assert(false);
        }
        lemma_count_push(users0, in_room(rid), u);
        lemma_count_push(users0, host_in_room(rid), u);
        assert(room_ok(users0, s0.rooms@[k]));
    }
    assert forall|i: int|
        0 <= i < s1.rooms@.len() && (#[trigger] s1.rooms@[i]).id@ != rid implies room_ok(
        users1,
        s1.rooms@[i],
    ) by {
        lemma_count_push(users0, in_room(s0.rooms@[i].id@), u);
        lemma_count_push(users0, host_in_room(s0.rooms@[i].id@), u);
        assert(room_ok(users0, s0.rooms@[i]));
    }
}

/// One error report to the given connection.
fn one_error(text: String, code: i32, connection_id: &String) -> (effects: Vec<Outbound>)
    ensures
        effects@.len() == 1,
        is_error_to(effects@[0], connection_id@, text@, code as int),
{
    let response = Response::errorResponse { errorText: text, errorCode: code };
    let mut effects: Vec<Outbound> = Vec::new();
    effects.push(send_message(response, connection_id));
    proof {
        assert(effects@ =~= seq![effects@[0]]);
    }
    effects
}

/// What the dispatcher asks its caller to do after it returns: nothing,
/// load a quiz pack and launch the game for a room, forward an answer into
/// a running game, or signal a pending user-removal timer to stand down.
#[derive(Debug, PartialEq, Eq)]
pub enum FollowUp {
    Nothing,
    LoadPack { room_id: String, pack_path: String },
    ForwardAnswer { room_id: String, command: crate::models::game::GameCommand },
    CancelUserTimeout { user_id: String },
}

/// What one authenticated command does, given the current time: token
/// validation first, then the command's own checks in protocol order, each
/// with its error report, and the success shape, including how the
/// session's connection id is rebound on reconnect.
pub open spec fn auth_step(
    s0: Registry,
    s1: Registry,
    effects: Seq<Outbound>,
    follow: FollowUp,
    pair: crate::models::communication::CommandTokenPair,
    conn0: Seq<char>,
    conn1: Seq<char>,
    now: nat,
) -> bool {
    let t = pair.token@;
    if !crate::jwtoken::token_wf(t) {
        auth_rejected(s0, s1, effects, follow, conn0, conn1, "Invalid token"@)
    } else if !crate::jwtoken::token_signed(t) {
        auth_rejected(s0, s1, effects, follow, conn0, conn1, "Invalid token signature"@)
    } else if !crate::jwtoken::token_fresh(t, now) {
        auth_rejected(s0, s1, effects, follow, conn0, conn1, "Token expired"@)
    } else {
        let c = crate::jwtoken::token_payload(t);
        match pair.command {
            crate::models::communication::AuthorizedCommand::reconnectRoom => {
                if str_in(s0.connections@, c.id) {
                    unchanged_conn(s0, s1, effects, follow, conn0, conn1, "User already active"@, 0)
                } else if !str_in(s0.connections@, conn0) {
                    unchanged_conn(
                        s0,
                        s1,
                        effects,
                        follow,
                        conn0,
                        conn1,
                        "Cannot find connection channel"@,
                        0,
                    )
                } else if !user_exists(s0.users@, c.id) {
                    unchanged_conn(s0, s1, effects, follow, conn0, conn1, "User has been removed"@, 2)
                } else {
                    &&& s1.connections@ == crate::registry::spec_remove_str(
                        s0.connections@,
                        conn0,
                    ).push(s1.connections@.last())
                    &&& s1.connections@.last()@ == c.id
                    &&& s1.user_timeouts@ == crate::registry::spec_remove_str(
                        s0.user_timeouts@,
                        c.id,
                    )
                    &&& s1.users@ == s0.users@
                    &&& s1.rooms@ == s0.rooms@
                    &&& s1.games@ == s0.games@
                    &&& conn1 == c.id
                    &&& effects.len() == 1
                    &&& views_of(effects[0].recipients@) == seq![c.id]
                    &&& effects[0].response matches Response::updateUserList { userList }
                        && userList@ == room_user_list(s0.users@, c.room_id)
                    &&& follow matches FollowUp::CancelUserTimeout { user_id } && user_id@ == c.id
                }
            },
            crate::models::communication::AuthorizedCommand::startGame { packPath } => {
                if !user_exists(s0.users@, c.id) {
                    unchanged_conn(s0, s1, effects, follow, conn0, conn1, "User does not exist"@, 0)
                } else if str_in(s0.games@, c.room_id) {
                    unchanged_conn(s0, s1, effects, follow, conn0, conn1, "Game in progress"@, 0)
                } else if !s0.users@[crate::registry::user_index(s0.users@, c.id)].isHost {
                    unchanged_conn(
                        s0,
                        s1,
                        effects,
                        follow,
                        conn0,
                        conn1,
                        "Only host can start game"@,
                        0,
                    )
                } else {
                    // Nothing is broadcast yet: the pack is read and
                    // decoded first, and only a successful decode (in
                    // `launch_game`) announces the game to the room.
                    &&& same_state(s0, s1)
                    &&& conn1 == conn0
                    &&& effects.len() == 0
                    &&& follow matches FollowUp::LoadPack { room_id, pack_path } && room_id@
                        == c.room_id && pack_path@ == packPath@
                }
            },
            crate::models::communication::AuthorizedCommand::getUserList => {
                &&& same_state(s0, s1)
                &&& conn1 == conn0
                &&& effects.len() == 1
                &&& views_of(effects[0].recipients@) == seq![conn0]
                &&& effects[0].response matches Response::updateUserList { userList } && userList@
                    == room_user_list(s0.users@, c.room_id)
                &&& follow == FollowUp::Nothing
            },
            crate::models::communication::AuthorizedCommand::broadcastMessage { text } => {
                &&& same_state(s0, s1)
                &&& conn1 == conn0
                &&& effects.len() == 1
                &&& effects[0].response matches Response::newMessage { author, text: t2 }
                    && author@ == c.id && t2@ == text@
                &&& views_of(effects[0].recipients@) == crate::server_messages::ids_of(
                    room_user_list(s0.users@, c.room_id),
                )
                &&& follow == FollowUp::Nothing
            },
            crate::models::communication::AuthorizedCommand::writeAnswer { answer } => {
                if !user_exists(s0.users@, conn0) {
                    unchanged_conn(s0, s1, effects, follow, conn0, conn1, "User does not exist"@, 0)
                } else if !str_in(s0.games@, c.room_id) {
                    unchanged_conn(s0, s1, effects, follow, conn0, conn1, "Game is not started"@, 0)
                } else {
                    &&& same_state(s0, s1)
                    &&& conn1 == conn0
                    &&& effects.len() == 0
                    &&& follow matches FollowUp::ForwardAnswer { room_id, command } && room_id@
                        == c.room_id && command.user_id@ == c.id && command.answer == answer
                }
            },
            crate::models::communication::AuthorizedCommand::changeUsername { newName } => {
                &&& user_updated(s0, s1, c.id, (User {
                    name: newName,
                    ..s0.users@[crate::registry::user_index(s0.users@, c.id)]
                }))
                &&& conn1 == conn0
                &&& effects.len() == 0
                &&& follow == FollowUp::Nothing
            },
            crate::models::communication::AuthorizedCommand::changeAvatar { newAvatarPath } => {
                &&& user_updated(s0, s1, c.id, (User {
                    avatarPath: newAvatarPath,
                    ..s0.users@[crate::registry::user_index(s0.users@, c.id)]
                }))
                &&& conn1 == conn0
                &&& effects.len() == 0
                &&& follow == FollowUp::Nothing
            },
        }
    }
}

/// Rejected token: nothing changes and the sender is told to reacquire a
/// session.
pub open spec fn auth_rejected(
    s0: Registry,
    s1: Registry,
    effects: Seq<Outbound>,
    follow: FollowUp,
    conn0: Seq<char>,
    conn1: Seq<char>,
    text: Seq<char>,
) -> bool {
    &&& same_state(s0, s1)
    &&& conn1 == conn0
    &&& effects.len() == 1
    &&& is_error_to(effects[0], conn0, text, 2)
    &&& follow == FollowUp::Nothing
}

/// A failed precondition inside an authenticated command: nothing changes
/// and one error report goes back.
pub open spec fn unchanged_conn(
    s0: Registry,
    s1: Registry,
    effects: Seq<Outbound>,
    follow: FollowUp,
    conn0: Seq<char>,
    conn1: Seq<char>,
    text: Seq<char>,
    code: int,
) -> bool {
    &&& same_state(s0, s1)
    &&& conn1 == conn0
    &&& effects.len() == 1
    &&& is_error_to(effects[0], conn0, text, code)
    &&& follow == FollowUp::Nothing
}

/// A rename or avatar change: the user's record is replaced by `u2` when it
/// exists, and the command is silently dropped when it does not.
pub open spec fn user_updated(s0: Registry, s1: Registry, uid: Seq<char>, u2: User) -> bool {
    let i = crate::registry::user_index(s0.users@, uid);
    &&& s1.connections@ == s0.connections@
    &&& s1.rooms@ == s0.rooms@
    &&& s1.games@ == s0.games@
    &&& s1.user_timeouts@ == s0.user_timeouts@
    &&& if user_exists(s0.users@, uid) {
        s1.users@ == s0.users@.update(i, u2)
    } else {
        s1.users@ == s0.users@
    }
}

/// Replacing one user's record, keeping its id, room binding and host
/// flag, keeps the invariant, and keeps every populated room's single host.
proof fn lemma_user_update_wf(s0: Registry, s1: Registry, i: int, u2: User)
    requires
        wf(s0),
        0 <= i < s0.users@.len(),
        u2.id@ == s0.users@[i].id@,
        u2.roomId@ == s0.users@[i].roomId@,
        u2.isHost == s0.users@[i].isHost,
        s1.users@ == s0.users@.update(i, u2),
        s1.connections@ == s0.connections@,
        s1.rooms@ == s0.rooms@,
        s1.games@ == s0.games@,
        s1.user_timeouts@ == s0.user_timeouts@,
    ensures
        wf(s1),
        hosts_full(s0) ==> hosts_full(s1),
{
    let users0 = s0.users@;
    let users1 = s1.users@;
    assert forall|r: Seq<char>| num_in_room(users1, r) == num_in_room(users0, r) by {
        crate::registry::lemma_count_update(users0, in_room(r), i, u2);
    }
    assert forall|r: Seq<char>| num_hosts_in_room(users1, r) == num_hosts_in_room(users0, r) by {
        crate::registry::lemma_count_update(users0, host_in_room(r), i, u2);
    }
    assert forall|a: int, b: int| 0 <= a < b < users1.len() implies (#[trigger] users1[a]).id@
        != (#[trigger] users1[b]).id@ by {
        assert(users1[a].id@ == users0[a].id@);
        assert(users1[b].id@ == users0[b].id@);
    }
    assert forall|a: int| 0 <= a < users1.len() implies room_exists(
        s1.rooms@,
        (#[trigger] users1[a]).roomId@,
    ) by {
        assert(users1[a].roomId@ == users0[a].roomId@);
        assert(room_exists(s0.rooms@, users0[a].roomId@));
    }
    assert forall|a: int| 0 <= a < s1.rooms@.len() implies room_ok(
        users1,
        #[trigger] s1.rooms@[a],
    ) by {
        assert(room_ok(users0, s0.rooms@[a]));
    }
}

/// Validates the token and runs one authenticated command against the
/// state graph, with the current time handed in. Yields the deliveries it
/// causes and what the session loop must do next; a reconnect rebinds the
/// session's connection id in place.
pub fn apply_authorized_command(
    state: &mut Registry,
    command_token_pair: crate::models::communication::CommandTokenPair,
    connection_id: &mut String,
    now: u64,
) -> (r: (Vec<Outbound>, FollowUp))
    requires
        wf(*old(state)),
    ensures
        wf(*final(state)),
        hosts_full(*old(state)) ==> hosts_full(*final(state)),
        auth_step(
            *old(state),
            *final(state),
            r.0@,
            r.1,
            command_token_pair,
            old(connection_id)@,
            final(connection_id)@,
            now as nat,
        ),
{
    let ghost s0 = *state;
    let token_info = match crate::jwtoken::decode_token(&command_token_pair.token, now) {
        Ok(c) => c,
        Err(e) => {
            let effects = one_error(e.message(), 2, connection_id);
            return (effects, FollowUp::Nothing);
        },
    };
    let ghost claims = crate::jwtoken::token_payload(command_token_pair.token@);
    proof {
        assert(claims == crate::jwtoken::claims_data(token_info));
    }
    match command_token_pair.command {
        crate::models::communication::AuthorizedCommand::reconnectRoom => {
            if contains_str(&state.connections, &token_info.id) {
                return (
                    one_error(String::from_str("User already active"), 0, connection_id),
                    FollowUp::Nothing,
                );
            }
            if !contains_str(&state.connections, connection_id) {
                return (
                    one_error(String::from_str("Cannot find connection channel"), 0, connection_id),
                    FollowUp::Nothing,
                );
            }
            match get_list_element(&token_info.id, &state.users) {
                Some(_) => {},
                None => {
                    return (
                        one_error(String::from_str("User has been removed"), 2, connection_id),
                        FollowUp::Nothing,
                    );
                },
            }
            crate::registry::remove_str(&mut state.connections, connection_id);
            state.connections.push(token_info.id.clone());
            crate::registry::remove_str(&mut state.user_timeouts, &token_info.id);
            proof {
                crate::registry::lemma_remove_str_membership(s0.connections@, old(connection_id)@);
                crate::registry::lemma_remove_str_membership(s0.user_timeouts@, claims.id);
                let removed = crate::registry::spec_remove_str(s0.connections@, old(connection_id)@);
                assert forall|a: int, b: int|
                    0 <= a < b < state.connections@.len() implies (#[trigger] state.connections@[a])@
                    != (#[trigger] state.connections@[b])@ by {
                    if b == state.connections@.len() - 1 {
                        assert(state.connections@[a] == removed[a]);
                        assert(str_in(removed, removed[a]@));
                    }
                }
            }
            let user_list = get_room_user_list(&token_info.roomId, &state.users);
            let response = Response::updateUserList { userList: user_list };
            let mut effects: Vec<Outbound> = Vec::new();
            effects.push(send_message(response, &token_info.id));
            *connection_id = token_info.id.clone();
            proof {
                assert(effects@ =~= seq![effects@[0]]);
            }
            (effects, FollowUp::CancelUserTimeout { user_id: token_info.id.clone() })
        },
        crate::models::communication::AuthorizedCommand::startGame { packPath } => {
            let user = match get_list_element(&token_info.id, &state.users) {
                Some(u) => u,
                None => {
                    return (
                        one_error(String::from_str("User does not exist"), 0, connection_id),
                        FollowUp::Nothing,
                    );
                },
            };
            proof {
                let i = choose|i: int|
                    0 <= i < s0.users@.len() && (#[trigger] s0.users@[i]).id_spec() == claims.id
                        && cloned::<User>(s0.users@[i], user);
                let k = crate::registry::user_index(s0.users@, claims.id);
                assert(0 <= k < s0.users@.len() && s0.users@[k].id@ == claims.id);
                if i != k {
                    assert(s0.users@[i].id@ == s0.users@[k].id@);
                    assert(false);
                }
                assert(user == s0.users@[k]);
            }
            if contains_str(&state.games, &token_info.roomId) {
                return (
                    one_error(String::from_str("Game in progress"), 0, connection_id),
                    FollowUp::Nothing,
                );
            }
            if !user.isHost {
                return (
                    one_error(String::from_str("Only host can start game"), 0, connection_id),
                    FollowUp::Nothing,
                );
            }
            (
                Vec::new(),
                FollowUp::LoadPack { room_id: token_info.roomId.clone(), pack_path: packPath },
            )
        },
        crate::models::communication::AuthorizedCommand::getUserList => {
            let user_list = get_room_user_list(&token_info.roomId, &state.users);
            let response = Response::updateUserList { userList: user_list };
            let mut effects: Vec<Outbound> = Vec::new();
            effects.push(send_message(response, connection_id));
            proof {
                assert(effects@ =~= seq![effects@[0]]);
            }
            (effects, FollowUp::Nothing)
        },
        crate::models::communication::AuthorizedCommand::broadcastMessage { text } => {
            let user_list = get_room_user_list(&token_info.roomId, &state.users);
            let response = Response::newMessage { author: token_info.id.clone(), text };
            let ob = crate::server_messages::broadcast_message_room_all(response, &user_list);
            let mut effects: Vec<Outbound> = Vec::new();
            effects.push(ob);
            proof {
                assert(effects@ =~= seq![effects@[0]]);
            }
            (effects, FollowUp::Nothing)
        },
        crate::models::communication::AuthorizedCommand::writeAnswer { answer } => {
            match get_list_element(connection_id, &state.users) {
                Some(_) => {},
                None => {
                    return (
                        one_error(String::from_str("User does not exist"), 0, connection_id),
                        FollowUp::Nothing,
                    );
                },
            }
            if !contains_str(&state.games, &token_info.roomId) {
                return (
                    one_error(String::from_str("Game is not started"), 0, connection_id),
                    FollowUp::Nothing,
                );
            }
            (
                Vec::new(),
                FollowUp::ForwardAnswer {
                    room_id: token_info.roomId.clone(),
                    command: crate::models::game::GameCommand {
                        user_id: token_info.id.clone(),
                        answer,
                    },
                },
            )
        },
        crate::models::communication::AuthorizedCommand::changeUsername { newName } => {
            let ghost g_name = newName;
            let rename = |user: User| -> (r: User)
                ensures
                    r == (User { name: newName, ..user }),
                {
                    User {
                        id: user.id,
                        name: newName,
                        avatarPath: user.avatarPath,
                        roomId: user.roomId,
                        isHost: user.isHost,
                        userColor: user.userColor,
                    }
                };
            let ghost g_rename = rename;
            let edit_res = edit_list_element(&token_info.id, &mut state.users, rename);
            proof {
                lemma_field_edit(s0, *state, claims.id, g_rename, edit_res is Ok);
                if edit_res is Ok {
                    let k = crate::registry::user_index(s0.users@, claims.id);
                    assert(state.users@[k] == (User { name: g_name, ..s0.users@[k] }));
                }
            }
            (Vec::new(), FollowUp::Nothing)
        },
        crate::models::communication::AuthorizedCommand::changeAvatar { newAvatarPath } => {
            let ghost g_avatar = newAvatarPath;
            let reavatar = |user: User| -> (r: User)
                ensures
                    r == (User { avatarPath: newAvatarPath, ..user }),
                {
                    User {
                        id: user.id,
                        name: user.name,
                        avatarPath: newAvatarPath,
                        roomId: user.roomId,
                        isHost: user.isHost,
                        userColor: user.userColor,
                    }
                };
            let ghost g_reavatar = reavatar;
            let edit_res = edit_list_element(&token_info.id, &mut state.users, reavatar);
            proof {
                lemma_field_edit(s0, *state, claims.id, g_reavatar, edit_res is Ok);
                if edit_res is Ok {
                    let k = crate::registry::user_index(s0.users@, claims.id);
                    assert(state.users@[k] == (User { avatarPath: g_avatar, ..s0.users@[k] }));
                }
            }
            (Vec::new(), FollowUp::Nothing)
        },
    }
}

/// An in-place user edit through the shared list helper lands exactly on
/// the record carrying `uid`, when there is one.
proof fn lemma_field_edit<F: FnOnce(User) -> User>(
    s0: Registry,
    s1: Registry,
    uid: Seq<char>,
    f: F,
    ok: bool,
)
    requires
        wf(s0),
        forall|x: User, y: User| #[trigger] call_ensures(f, (x,), y) ==> y.id@ == x.id@
            && y.roomId@ == x.roomId@ && y.isHost == x.isHost,
        s1.connections@ == s0.connections@,
        s1.rooms@ == s0.rooms@,
        s1.games@ == s0.games@,
        s1.user_timeouts@ == s0.user_timeouts@,
        ok ==> exists|i: int|
            {
                &&& 0 <= i < s0.users@.len()
                &&& (#[trigger] s0.users@[i]).id_spec() == uid
                &&& s1.users@.len() == s0.users@.len()
                &&& call_ensures(f, (s0.users@[i],), s1.users@[i])
                &&& forall|j: int|
                    0 <= j < s0.users@.len() && j != i ==> s1.users@[j] == s0.users@[j]
            },
        !ok ==> s1.users@ == s0.users@ && (forall|i: int|
            0 <= i < s0.users@.len() ==> (#[trigger] s0.users@[i]).id_spec() != uid),
    ensures
        wf(s1),
        hosts_full(s0) ==> hosts_full(s1),
        user_exists(s0.users@, uid) <==> ok,
        ok ==> s1.users@ == s0.users@.update(
            crate::registry::user_index(s0.users@, uid),
            s1.users@[crate::registry::user_index(s0.users@, uid)],
        ),
        ok ==> call_ensures(
            f,
            (s0.users@[crate::registry::user_index(s0.users@, uid)],),
            s1.users@[crate::registry::user_index(s0.users@, uid)],
        ),
        !ok ==> s1.users@ == s0.users@,
{
    if ok {
        let i = choose|i: int|
            {
                &&& 0 <= i < s0.users@.len()
                &&& (#[trigger] s0.users@[i]).id_spec() == uid
                &&& s1.users@.len() == s0.users@.len()
                &&& call_ensures(f, (s0.users@[i],), s1.users@[i])
                &&& forall|j: int|
                    0 <= j < s0.users@.len() && j != i ==> s1.users@[j] == s0.users@[j]
            };
        let k = crate::registry::user_index(s0.users@, uid);
        assert(0 <= k < s0.users@.len() && s0.users@[k].id@ == uid);
        if i != k {
            assert(s0.users@[i].id@ == s0.users@[k].id@);
            assert(false);
        }
        assert(s1.users@ =~= s0.users@.update(k, s1.users@[k]));
        lemma_user_update_wf(s0, s1, k, s1.users@[k]);
    }
}

/// Validates and runs one authenticated command at the current wall-clock
/// time, exactly as `apply_authorized_command` describes for that time.
pub fn execute_authorized_command(
    state: &mut Registry,
    command_token_pair: crate::models::communication::CommandTokenPair,
    connection_id: &mut String,
) -> (r: (Vec<Outbound>, FollowUp))
    requires
        wf(*old(state)),
    ensures
        wf(*final(state)),
        hosts_full(*old(state)) ==> hosts_full(*final(state)),
        exists|now: nat|
            now + 86400 <= u64::MAX && auth_step(
                *old(state),
                *final(state),
                r.0@,
                r.1,
                command_token_pair,
                old(connection_id)@,
                final(connection_id)@,
                now,
            ),
{
    let ghost g_pair = command_token_pair;
    let now = now_seconds();
    let r = apply_authorized_command(state, command_token_pair, connection_id, now);
    proof {
        assert(auth_step(
            *old(state),
            *state,
            r.0@,
            r.1,
            g_pair,
            old(connection_id)@,
            connection_id@,
            now as nat,
        ));
    }
    r
}

/// Parses nothing and draws everything: runs one unauthenticated command
/// with a fresh room id, a random color, and the current time, exactly as
/// `apply_unauthorized_command` describes for some such draw.
pub fn execute_unauthorized_command(
    state: &mut Registry,
    command: UnauthorizedCommand,
    connection_id: &String,
) -> (effects: Vec<Outbound>)
    requires
        wf(*old(state)),
    ensures
        wf(*final(state)),
        hosts_full(*old(state)) ==> hosts_full(*final(state)),
        exists|rid: Seq<char>, color: u32, now: nat|
            rid.len() == 36 && color <= 9 && now + 86400 <= u64::MAX && unauth_step(
                *old(state),
                *final(state),
                effects@,
                command,
                connection_id@,
                rid,
                color,
                now,
            ),
{
    let new_room_id = new_uuid();
    let color_index = random_color_index();
    let now = now_seconds();
    let effects = apply_unauthorized_command(
        state,
        command,
        connection_id,
        new_room_id,
        color_index,
        now,
    );
    proof {
        assert(unauth_step(
            *old(state),
            *state,
            effects@,
            command,
            connection_id@,
            new_room_id@,
            color_index,
            now as nat,
        ));
    }
    effects
}

} // verus!
