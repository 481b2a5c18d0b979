use vstd::prelude::*;
use vstd::string::StringExecFns;
use crate::models::communication::Response;
use crate::models::lobby::HasId;
use crate::models::lobby::Room;
use crate::models::lobby::User;
use crate::registry::Registry;
use crate::registry::host_in_room;
use crate::registry::in_room;
use crate::registry::lemma_count_at_least_one;
use crate::registry::lemma_count_at_least_two;
use crate::registry::lemma_count_bounds;
use crate::registry::lemma_count_update;
use crate::registry::lemma_count_witness;
use crate::registry::num_hosts_in_room;
use crate::registry::num_in_room;
use crate::registry::room_exists;
use crate::registry::room_index;
use crate::registry::room_ok;
use crate::registry::rooms_distinct;
use crate::registry::strings_distinct;
use crate::registry::users_distinct;
use crate::registry::wf;
use crate::server_messages::Outbound;
use crate::server_messages::broadcast_message_room_except;
use crate::server_messages::ids_except;

verus! {

/// The members of the room named `rid`, in user-index order: the roster that
/// `updateUserList` carries.
pub open spec fn room_user_list(users: Seq<User>, rid: Seq<char>) -> Seq<User>
    decreases users.len(),
{
    if users.len() == 0 {
        Seq::empty()
    } else {
        room_user_list(users.drop_last(), rid) + if users.last().roomId@ == rid {
            seq![users.last()]
        } else {
            Seq::<User>::empty()
        }
    }
}

/// The roster of a room is as long as the room's member count.
pub proof fn lemma_room_user_list_len(users: Seq<User>, rid: Seq<char>)
    ensures
        room_user_list(users, rid).len() == num_in_room(users, rid),
    decreases users.len(),
{
    if users.len() > 0 {
        lemma_room_user_list_len(users.drop_last(), rid);
    }
}

/// Every roster entry is a member of the room, drawn from the user index.
pub proof fn lemma_room_user_list_members(users: Seq<User>, rid: Seq<char>)
    ensures
        forall|j: int|
            0 <= j < room_user_list(users, rid).len() ==> {
                let u = #[trigger] room_user_list(users, rid)[j];
                u.roomId@ == rid && exists|i: int| 0 <= i < users.len() && users[i] == u
            },
    decreases users.len(),
{
    if users.len() > 0 {
        let d = users.drop_last();
        lemma_room_user_list_members(d, rid);
        assert forall|j: int| 0 <= j < room_user_list(users, rid).len() implies {
            let u = #[trigger] room_user_list(users, rid)[j];
            u.roomId@ == rid && exists|i: int| 0 <= i < users.len() && users[i] == u
        } by {
            let u = room_user_list(users, rid)[j];
            if j < room_user_list(d, rid).len() {
                assert(u == room_user_list(d, rid)[j]);
                let i = choose|i: int| 0 <= i < d.len() && d[i] == u;
                assert(users[i] == u);
            } else {
                assert(u == users.last());
                assert(users[users.len() - 1] == u);
            }
        }
    }
}

/// A roster drawn from a duplicate-free user index is duplicate-free.
pub proof fn lemma_room_user_list_distinct(users: Seq<User>, rid: Seq<char>)
    requires
        users_distinct(users),
    ensures
        users_distinct(room_user_list(users, rid)),
    decreases users.len(),
{
    if users.len() > 0 {
        let d = users.drop_last();
        lemma_room_user_list_distinct(d, rid);
        lemma_room_user_list_members(d, rid);
        let l = room_user_list(users, rid);
        assert forall|a: int, b: int| 0 <= a < b < l.len() implies (#[trigger] l[a]).id@
            != (#[trigger] l[b]).id@ by {
            if b < room_user_list(d, rid).len() {
                assert(l[a] == room_user_list(d, rid)[a]);
                assert(l[b] == room_user_list(d, rid)[b]);
            } else {
                assert(l[b] == users.last());
                assert(l[a] == room_user_list(d, rid)[a]);
                let w = choose|w: int| 0 <= w < d.len() && d[w] == room_user_list(d, rid)[a];
                assert(users[w] == l[a]);
                assert(users[users.len() - 1] == users.last());
            }
        }
    }
}

/// The user at `users[k]` with the host flag set.
pub open spec fn set_host(u: User) -> User {
    User { isHost: true, ..u }
}

/// The room with one more member counted.
pub open spec fn incr_players(r: Room) -> Room {
    Room { current_players: (r.current_players + 1) as i32, ..r }
}

/// The room with one member fewer counted.
pub open spec fn decr_players(r: Room) -> Room {
    Room { current_players: (r.current_players - 1) as i32, ..r }
}

/// Collects the members of the room named `room_id`, in index order.
pub fn get_room_user_list(room_id: &String, user_list: &Vec<User>) -> (r: Vec<User>)
    ensures
        r@ == room_user_list(user_list@, room_id@),
{
    let mut users: Vec<User> = Vec::new();
    let mut k: usize = 0;
    while k < user_list.len()
        invariant
            0 <= k <= user_list@.len(),
            users@ == room_user_list(user_list@.take(k as int), room_id@),
        decreases user_list@.len() - k,
    {
        proof {
            let t = user_list@.take(k as int + 1);
            assert(t.drop_last() =~= user_list@.take(k as int));
            assert(t.last() == user_list@[k as int]);
        }
        if user_list[k].roomId.eq(room_id) {
            users.push(user_list[k].clone());
            proof {
                assert(users@ =~= room_user_list(user_list@.take(k as int + 1), room_id@));
            }
        } else {
            proof {
                assert(users@ =~= room_user_list(user_list@.take(k as int + 1), room_id@));
            }
        }
        k += 1;
    }
    proof {
        assert(user_list@.take(user_list@.len() as int) =~= user_list@);
    }
    users
}

/// An exact copy of a user roster.
pub fn clone_users(v: &Vec<User>) -> (r: Vec<User>)
    ensures
        r@ == v@,
{
    let r = v.clone();
    proof {
        assert forall|i: int| 0 <= i < v@.len() implies v@[i] == r@[i] by {
            assert(cloned::<User>(v[i], r[i]));
        }
        assert(v@ =~= r@);
    }
    r
}

/// The first index whose element carries the id `id`, if any.
pub fn find_index_by_id<T: HasId>(id: &String, list: &Vec<T>) -> (res: Option<usize>)
    ensures
        match res {
            Some(k) => 0 <= k < list@.len() && list@[k as int].id_spec() == id@ && (forall|j: int|
                0 <= j < k ==> (#[trigger] list@[j]).id_spec() != id@),
            None => forall|j: int| 0 <= j < list@.len() ==> (#[trigger] list@[j]).id_spec() != id@,
        },
{
    let mut k: usize = 0;
    while k < list.len()
        invariant
            0 <= k <= list@.len(),
            forall|j: int| 0 <= j < k ==> (#[trigger] list@[j]).id_spec() != id@,
        decreases list@.len() - k,
    {
        let elem_id = list[k].get_id();
        if elem_id.eq(id) {
            return Some(k);
        }
        k += 1;
    }
    None
}

/// Looks up the element carrying the id `id` and hands back a detached copy
/// of the first match, for read-only use outside the index.
pub fn get_list_element<T: HasId + Clone>(id: &String, list: &Vec<T>) -> (res: Option<T>)
    ensures
        match res {
            Some(r) => exists|i: int|
                0 <= i < list@.len() && (#[trigger] list@[i]).id_spec() == id@ && (forall|j: int|
                    0 <= j < i ==> (#[trigger] list@[j]).id_spec() != id@) && cloned::<T>(
                    list@[i],
                    r,
                ),
            None => forall|i: int| 0 <= i < list@.len() ==> (#[trigger] list@[i]).id_spec() != id@,
        },
{
    match find_index_by_id(id, list) {
        Some(k) => Some(list[k].clone()),
        None => None,
    }
}

/// Applies `function` to the first element carrying the id `id`, in place;
/// reports "not found" if no element carries it.
pub fn edit_list_element<T: HasId, F: FnOnce(T) -> T>(
    id: &String,
    list: &mut Vec<T>,
    function: F,
) -> (res: Result<(), String>)
    requires
        forall|i: int|
            0 <= i < old(list)@.len() && (#[trigger] old(list)@[i]).id_spec() == id@
                ==> call_requires(function, (old(list)@[i],)),
    ensures
        match res {
            Ok(_) => exists|i: int|
                {
                    &&& 0 <= i < old(list)@.len()
                    &&& (#[trigger] old(list)@[i]).id_spec() == id@
                    &&& forall|j: int| 0 <= j < i ==> (#[trigger] old(list)@[j]).id_spec() != id@
                    &&& final(list)@.len() == old(list)@.len()
                    &&& call_ensures(function, (old(list)@[i],), final(list)@[i])
                    &&& forall|j: int|
                        0 <= j < old(list)@.len() && j != i ==> final(list)@[j] == old(list)@[j]
                },
            Err(e) => {
                &&& *final(list) == *old(list)
                &&& forall|i: int|
                    0 <= i < old(list)@.len() ==> (#[trigger] old(list)@[i]).id_spec() != id@
                &&& e@ == "edit_list_element: Element does not exist in list"@
            },
        },
{
    match find_index_by_id(id, list) {
        Some(k) => {
            let ghost orig = list@;
            let element = list.remove(k);
            let new_element = function(element);
            list.insert(k, new_element);
            proof {
                assert(list@ =~= orig.update(k as int, list@[k as int]));
            }
            Ok(())
        },
        None => Err(String::from_str("edit_list_element: Element does not exist in list")),
    }
}

/// The roster broadcast that completing a join sends to the room.
pub open spec fn join_broadcast_ok(
    ob: Outbound,
    users: Seq<User>,
    rid: Seq<char>,
    uid: Seq<char>,
) -> bool {
    &&& crate::server_messages::views_of(ob.recipients@) == ids_except(
        room_user_list(users, rid),
        uid,
    )
    &&& ob.response matches Response::updateUserList { userList } && userList@ == room_user_list(
        users,
        rid,
    )
}

/// A room well formed while a join is half done: the joining user (the last
/// entry of the user index, not yet host) is already counted by the index
/// but not yet by the room's counter.
pub open spec fn joining_room_ok(users: Seq<User>, r: Room) -> bool {
    &&& r.max_players == 6
    &&& 0 <= r.current_players <= 5
    &&& r.current_players == num_in_room(users, r.id@) - 1
    &&& num_hosts_in_room(users, r.id@) <= 1
}

/// The state graph in the middle of a join: the new user, bound to the room
/// named `rid` and carrying the id `uid`, has been appended to the user
/// index, and the target room's counter has not yet been incremented.
pub open spec fn mid_join(s: Registry, rid: Seq<char>, uid: Seq<char>) -> bool {
    &&& users_distinct(s.users@)
    &&& rooms_distinct(s.rooms@)
    &&& strings_distinct(s.connections@)
    &&& strings_distinct(s.games@)
    &&& strings_distinct(s.user_timeouts@)
    &&& s.users@.len() > 0
    &&& s.users@.last().id@ == uid
    &&& s.users@.last().roomId@ == rid
    &&& !s.users@.last().isHost
    &&& forall|i: int|
        0 <= i < s.users@.len() - 1 ==> room_exists(s.rooms@, (#[trigger] s.users@[i]).roomId@)
    &&& forall|i: int|
        0 <= i < s.rooms@.len() && (#[trigger] s.rooms@[i]).id@ != rid ==> room_ok(
            s.users@,
            s.rooms@[i],
        )
    &&& forall|i: int|
        0 <= i < s.rooms@.len() && (#[trigger] s.rooms@[i]).id@ == rid ==> joining_room_ok(
            s.users@,
            s.rooms@[i],
        )
}

/// Completes a join whose user record is already in the user index: counts
/// the user into the room, promotes the joiner to host if the room was empty
/// before the join, and prepares the roster broadcast for the other members.
/// A target room that does not exist is reported back, with nothing changed
/// and nothing to broadcast.
pub fn connect_user_to_room(room_id: &String, user_id: &String, state: &mut Registry) -> (res:
    Result<(Vec<User>, Outbound), String>)
    requires
        mid_join(*old(state), room_id@, user_id@),
    ensures
        ({
            let s0 = *old(state);
            let k = room_index(s0.rooms@, room_id@);
            let promoted = num_in_room(s0.users@, room_id@) == 1;
            match res {
                Ok((ul, ob)) => {
                    &&& room_exists(s0.rooms@, room_id@)
                    &&& final(state).users@ == if promoted {
                        s0.users@.update(s0.users@.len() - 1, set_host(s0.users@.last()))
                    } else {
                        s0.users@
                    }
                    &&& final(state).rooms@ == s0.rooms@.update(k, incr_players(s0.rooms@[k]))
                    &&& final(state).connections == s0.connections
                    &&& final(state).games == s0.games
                    &&& final(state).user_timeouts == s0.user_timeouts
                    &&& wf(*final(state))
                    &&& num_hosts_in_room(final(state).users@, room_id@) == if promoted {
                        1int
                    } else {
                        num_hosts_in_room(s0.users@, room_id@)
                    }
                    &&& ul@ == room_user_list(final(state).users@, room_id@)
                    &&& join_broadcast_ok(ob, final(state).users@, room_id@, user_id@)
                },
                Err(e) => {
                    &&& !room_exists(s0.rooms@, room_id@)
                    &&& *final(state) == s0
                    &&& e@ == "connect_user_to_room: "@
                        + "edit_list_element: Element does not exist in list"@
                },
            }
        }),
{
    let ghost s0 = *state;
    let ghost rid = room_id@;
    let ghost uid = user_id@;
    let ghost k = room_index(s0.rooms@, rid);
    let count_in = |room: Room| -> (r: Room)
        requires
            room.current_players < 6,
        ensures
            r == incr_players(room),
        {
            Room {
                id: room.id,
                max_players: room.max_players,
                host_id: room.host_id,
                current_players: room.current_players + 1,
            }
        };
    let ghost g_count_in = count_in;
    proof {
        assert forall|i: int|
            0 <= i < s0.rooms@.len() && (#[trigger] s0.rooms@[i]).id_spec() == rid implies call_requires(
            g_count_in,
            (s0.rooms@[i],),
        ) by {
            assert(joining_room_ok(s0.users@, s0.rooms@[i]));
        }
    }
    let edit_res = edit_list_element(room_id, &mut state.rooms, count_in);
    match edit_res {
        Ok(_) => {},
        Err(error) => {
            proof {
                assert forall|i: int| 0 <= i < s0.rooms@.len() implies (#[trigger] s0.rooms@[i]).id@
                    != rid by {
                    assert(s0.rooms@[i].id_spec() != rid);
                }
            }
            let report = String::from_str("connect_user_to_room: ").concat(error.as_str());
            return Err(report);
        },
    }
    proof {
        assert(room_exists(s0.rooms@, rid)) by {
            let i = choose|i: int|
                {
                    &&& 0 <= i < s0.rooms@.len()
                    &&& (#[trigger] s0.rooms@[i]).id_spec() == rid
                    &&& forall|j: int| 0 <= j < i ==> (#[trigger] s0.rooms@[j]).id_spec() != rid
                    &&& state.rooms@.len() == s0.rooms@.len()
                    &&& call_ensures(g_count_in, (s0.rooms@[i],), state.rooms@[i])
                    &&& forall|j: int|
                        0 <= j < s0.rooms@.len() && j != i ==> state.rooms@[j] == s0.rooms@[j]
                };
        }
        assert(0 <= k < s0.rooms@.len() && s0.rooms@[k].id@ == rid) by {
            let w = choose|i: int|
                0 <= i < s0.rooms@.len() && (#[trigger] s0.rooms@[i]).id@ == rid;
        }
        let i = choose|i: int|
            {
                &&& 0 <= i < s0.rooms@.len()
                &&& (#[trigger] s0.rooms@[i]).id_spec() == rid
                &&& forall|j: int| 0 <= j < i ==> (#[trigger] s0.rooms@[j]).id_spec() != rid
                &&& state.rooms@.len() == s0.rooms@.len()
                &&& call_ensures(g_count_in, (s0.rooms@[i],), state.rooms@[i])
                &&& forall|j: int|
                    0 <= j < s0.rooms@.len() && j != i ==> state.rooms@[j] == s0.rooms@[j]
            };
        if i != k {
            assert(s0.rooms@[i].id@ == s0.rooms@[k].id@);
            assert(false);
        }
        assert(state.rooms@ =~= s0.rooms@.update(k, incr_players(s0.rooms@[k])));
    }
    let ghost n_members = num_in_room(s0.users@, rid);
    let ghost promoted = n_members == 1;

    // The updated counter equals the member count; an empty room's first
    // joiner becomes its host.
    let room_info = get_list_element(room_id, &state.rooms);
    match room_info {
        Some(room) => {
            proof {
                let i = choose|i: int|
                    0 <= i < state.rooms@.len() && (#[trigger] state.rooms@[i]).id_spec() == rid
                        && cloned::<Room>(state.rooms@[i], room);
                if i != k {
                    assert(s0.rooms@[i].id@ == s0.rooms@[k].id@);
                    assert(false);
                }
                assert(room == state.rooms@[k]);
                assert(joining_room_ok(s0.users@, s0.rooms@[k]));
                assert(room.current_players == n_members);
            }
            if room.current_players == 1 {
                let make_host = |user: User| -> (r: User)
                    ensures
                        r == set_host(user),
                    {
                        User {
                            id: user.id,
                            name: user.name,
                            avatarPath: user.avatarPath,
                            roomId: user.roomId,
                            isHost: true,
                            userColor: user.userColor,
                        }
                    };
                let ghost g_make_host = make_host;
                let edit_user_res = edit_list_element(user_id, &mut state.users, make_host);
                match edit_user_res {
                    Ok(_) => {},
                    Err(error) => {
                        proof {
                            assert(s0.users@[s0.users@.len() - 1].id_spec() == uid);
                            assert(false);
                        }
                        return Err(error);
                    },
                }
                proof {
                    let last = s0.users@.len() - 1;
                    let i = choose|i: int|
                        {
                            &&& 0 <= i < s0.users@.len()
                            &&& (#[trigger] s0.users@[i]).id_spec() == uid
                            &&& forall|j: int|
                                0 <= j < i ==> (#[trigger] s0.users@[j]).id_spec() != uid
                            &&& state.users@.len() == s0.users@.len()
                            &&& call_ensures(g_make_host, (s0.users@[i],), state.users@[i])
                            &&& forall|j: int|
                                0 <= j < s0.users@.len() && j != i ==> state.users@[j]
                                    == s0.users@[j]
                        };
                    if i != last {
                        assert(s0.users@[i].id@ == s0.users@[last].id@);
                        assert(false);
                    }
                    assert(state.users@ =~= s0.users@.update(last, set_host(s0.users@.last())));
                }
            }
        },
        None => {
            proof {
                assert(state.rooms@[k].id_spec() == rid);
                assert(false);
            }
            return Err(String::from_str("connect_user_to_room: room lookup failed"));
        },
    }

    proof {
        lemma_connect_wf(s0, *state, rid, uid, k, promoted);
    }

    let user_list = get_room_user_list(room_id, &state.users);
    let user_list_copy = clone_users(&user_list);
    let user_list_response = Response::updateUserList { userList: user_list_copy };
    let ob = broadcast_message_room_except(user_list_response, &user_list, user_id);
    Ok((user_list, ob))
}

/// Completing a join restores the global invariant.
proof fn lemma_connect_wf(s0: Registry, s1: Registry, rid: Seq<char>, uid: Seq<char>, k: int, promoted: bool)
    requires
        mid_join(s0, rid, uid),
        room_exists(s0.rooms@, rid),
        0 <= k < s0.rooms@.len(),
        s0.rooms@[k].id@ == rid,
        k == room_index(s0.rooms@, rid),
        promoted == (num_in_room(s0.users@, rid) == 1),
        s1.users@ == if promoted {
            s0.users@.update(s0.users@.len() - 1, set_host(s0.users@.last()))
        } else {
            s0.users@
        },
        s1.rooms@ == s0.rooms@.update(k, incr_players(s0.rooms@[k])),
        s1.connections == s0.connections,
        s1.games == s0.games,
        s1.user_timeouts == s0.user_timeouts,
    ensures
        wf(s1),
        num_hosts_in_room(s1.users@, rid) == if promoted {
            1int
        } else {
            num_hosts_in_room(s0.users@, rid)
        },
{
    let users0 = s0.users@;
    let users1 = s1.users@;
    let last = users0.len() - 1;
    assert(num_in_room(users0, rid) >= 1) by {
        lemma_count_at_least_one(users0, in_room(rid), last);
    }

    // Counts are unchanged by the host promotion, which touches no room id;
    // host counts change only for the joined room.
    assert forall|r: Seq<char>| num_in_room(users1, r) == num_in_room(users0, r) by {
        if promoted {
            lemma_count_update(users0, in_room(r), last, set_host(users0.last()));
        }
    }
    assert forall|r: Seq<char>| r != rid implies num_hosts_in_room(users1, r)
        == num_hosts_in_room(users0, r) by {
        if promoted {
            lemma_count_update(users0, host_in_room(r), last, set_host(users0.last()));
        }
    }
    if promoted {
        // The joined room's sole member is the joiner, who was not host.
        assert(num_hosts_in_room(users0, rid) == 0) by {
            if num_hosts_in_room(users0, rid) != 0 {
                lemma_count_bounds(users0, host_in_room(rid));
                let w = lemma_count_witness(users0, host_in_room(rid));
                if w != last {
                    lemma_count_at_least_two(
                        users0,
                        in_room(rid),
                        if w < last {
                            w
                        } else {
                            last
                        },
                        if w < last {
                            last
                        } else {
                            w
                        },
                    );
                } else {
                    assert(!users0.last().isHost);
                }
            }
        }
        lemma_count_update(users0, host_in_room(rid), last, set_host(users0.last()));
        assert(num_hosts_in_room(users1, rid) == 1);
    }

    assert forall|i: int, j: int| 0 <= i < j < users1.len() implies (#[trigger] users1[i]).id@
        != (#[trigger] users1[j]).id@ by {
        assert(users1[i].id@ == users0[i].id@);
        assert(users1[j].id@ == users0[j].id@);
    }
    assert forall|i: int, j: int| 0 <= i < j < s1.rooms@.len() implies (#[trigger] s1.rooms@[i]).id@
        != (#[trigger] s1.rooms@[j]).id@ by {
        assert(s1.rooms@[i].id@ == s0.rooms@[i].id@);
        assert(s1.rooms@[j].id@ == s0.rooms@[j].id@);
    }
    assert forall|i: int| 0 <= i < users1.len() implies room_exists(
        s1.rooms@,
        (#[trigger] users1[i]).roomId@,
    ) by {
        assert(users1[i].roomId@ == users0[i].roomId@);
        let w = choose|w: int|
            0 <= w < s0.rooms@.len() && (#[trigger] s0.rooms@[w]).id@ == users0[i].roomId@;
        assert(s1.rooms@[w].id@ == s0.rooms@[w].id@);
    }
    assert forall|i: int| 0 <= i < s1.rooms@.len() implies room_ok(users1, #[trigger] s1.rooms@[i]) by {
        if i == k {
            assert(s1.rooms@[i] == incr_players(s0.rooms@[k]));
        } else {
            assert(s1.rooms@[i] == s0.rooms@[i]);
            assert(s0.rooms@[i].id@ != rid);
            assert(room_ok(users0, s0.rooms@[i]));
        }
    }
}

} // verus!
