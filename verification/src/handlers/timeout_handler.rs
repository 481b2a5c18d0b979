use vstd::prelude::*;
use crate::helpers::decr_players;
use crate::helpers::find_index_by_id;
use crate::helpers::get_room_user_list;
use crate::helpers::room_user_list;
use crate::models::communication::Response;
use crate::models::lobby::HasId;
use crate::registry::Registry;
use crate::registry::contains_str;
use crate::registry::host_in_room;
use crate::registry::in_room;
use crate::registry::lemma_count_remove;
use crate::registry::lemma_count_zero;
use crate::registry::num_hosts_in_room;
use crate::registry::num_in_room;
use crate::registry::room_exists;
use crate::registry::room_index;
use crate::registry::room_ok;
use crate::registry::str_in;
use crate::registry::user_exists;
use crate::registry::user_index;
use crate::registry::wf;
use crate::registry::hosts_full;
use crate::server_messages::Outbound;
use crate::server_messages::broadcast_message_room_all;
use crate::server_messages::ids_of;
use crate::server_messages::views_of;

verus! {

/// The user-removal decision when a grace timer fires: if the user has not
/// reconnected (no live connection under their id), remove the record,
/// count it out of its room, tell the survivors, and say whether a
/// room-removal timer must now be started.
pub fn handle_user_timeout(state: &mut Registry, user_id: &String) -> (r: (Vec<Outbound>, bool))
    requires
        wf(*old(state)),
    ensures
        wf(*final(state)),
        final(state).connections@ == old(state).connections@,
        final(state).games@ == old(state).games@,
        final(state).user_timeouts@ == old(state).user_timeouts@,
        str_in(old(state).connections@, user_id@) || !user_exists(old(state).users@, user_id@)
            ==> {
            &&& final(state).users@ == old(state).users@
            &&& final(state).rooms@ == old(state).rooms@
            &&& r.0@.len() == 0
            &&& r.1 == false
        },
        !str_in(old(state).connections@, user_id@) && user_exists(old(state).users@, user_id@)
            ==> {
            let users0 = old(state).users@;
            let i = user_index(users0, user_id@);
            let rid = users0[i].roomId@;
            let k = room_index(old(state).rooms@, rid);
            &&& final(state).users@ == users0.remove(i)
            &&& final(state).rooms@ == old(state).rooms@.update(
                k,
                decr_players(old(state).rooms@[k]),
            )
            &&& r.0@.len() == 1
            &&& r.0@[0].response matches Response::updateUserList { userList } && userList@
                == room_user_list(final(state).users@, rid)
            &&& views_of(r.0@[0].recipients@) == ids_of(room_user_list(final(state).users@, rid))
            &&& r.1 == (num_in_room(final(state).users@, rid) == 0)
        },
        hosts_full(*old(state)) && (str_in(old(state).connections@, user_id@) || !user_exists(
            old(state).users@,
            user_id@,
        ) || !old(state).users@[user_index(old(state).users@, user_id@)].isHost || num_in_room(
            final(state).users@,
            old(state).users@[user_index(old(state).users@, user_id@)].roomId@,
        ) == 0) ==> hosts_full(*final(state)),
{
    let ghost s0 = *state;
    if contains_str(&state.connections, user_id) {
        return (Vec::new(), false);
    }
    let i = match find_index_by_id(user_id, &state.users) {
        Some(i) => i,
        None => {
            return (Vec::new(), false);
        },
    };
    proof {
        let k = user_index(s0.users@, user_id@);
        assert(0 <= k < s0.users@.len() && s0.users@[k].id@ == user_id@);
        if i as int != k {
            assert(s0.users@[i as int].id@ == s0.users@[k].id@);
            assert(false);
        }
    }
    let departed = state.users.remove(i);
    let room_id = departed.roomId;
    let ghost rid = room_id@;
    let ghost kr = room_index(s0.rooms@, rid);
    proof {
        assert(room_exists(s0.rooms@, rid));
        let w = choose|w: int| 0 <= w < s0.rooms@.len() && (#[trigger] s0.rooms@[w]).id@ == rid;
        assert(0 <= kr < s0.rooms@.len() && s0.rooms@[kr].id@ == rid);
        lemma_count_remove(s0.users@, in_room(rid), i as int);
        crate::registry::lemma_count_at_least_one(s0.users@, in_room(rid), i as int);
        assert(room_ok(s0.users@, s0.rooms@[kr]));
    }
    let room_pos = match find_index_by_id(&room_id, &state.rooms) {
        Some(p) => p,
        None => {
            proof {
                assert(state.rooms@[kr].id_spec() == rid);
                assert(false);
            }
            return (Vec::new(), false);
        },
    };
    proof {
        if room_pos as int != kr {
            assert(s0.rooms@[room_pos as int].id@ == s0.rooms@[kr].id@);
            assert(false);
        }
    }
    let old_room = state.rooms.remove(room_pos);
    let new_count = old_room.current_players - 1;
    let updated_room = crate::models::lobby::Room {
        id: old_room.id,
        max_players: old_room.max_players,
        host_id: old_room.host_id,
        current_players: new_count,
    };
    state.rooms.insert(room_pos, updated_room);
    proof {
        assert(state.rooms@ =~= s0.rooms@.update(kr, decr_players(s0.rooms@[kr])));
        lemma_user_timeout_wf(s0, *state, i as int, kr);
    }
    let user_list = get_room_user_list(&room_id, &state.users);
    let response = Response::updateUserList { userList: user_list };
    let user_list_again = get_room_user_list(&room_id, &state.users);
    let ob = broadcast_message_room_all(response, &user_list_again);
    proof {
        assert(ob.response matches Response::updateUserList { userList } && userList@
            == room_user_list(state.users@, rid));
    }
    let mut effects: Vec<Outbound> = Vec::new();
    effects.push(ob);
    let schedule_room_timer = new_count <= 0;
    proof {
        assert(effects@ =~= seq![effects@[0]]);
        crate::helpers::lemma_room_user_list_len(state.users@, rid);
        assert(new_count as int == num_in_room(state.users@, rid));
    }
    (effects, schedule_room_timer)
}

/// Removing a user and counting them out of their room keeps the
/// invariant; the populated-room host count survives when the removed user
/// was not host or the room drained.
proof fn lemma_user_timeout_wf(s0: Registry, s1: Registry, i: int, kr: int)
    requires
        wf(s0),
        0 <= i < s0.users@.len(),
        0 <= kr < s0.rooms@.len(),
        s0.rooms@[kr].id@ == s0.users@[i].roomId@,
        s1.users@ == s0.users@.remove(i),
        s1.rooms@ == s0.rooms@.update(kr, decr_players(s0.rooms@[kr])),
        s1.connections@ == s0.connections@,
        s1.games@ == s0.games@,
        s1.user_timeouts@ == s0.user_timeouts@,
    ensures
        wf(s1),
        hosts_full(s0) && (!s0.users@[i].isHost || num_in_room(s1.users@, s0.users@[i].roomId@)
            == 0) ==> hosts_full(s1),
{
    let users0 = s0.users@;
    let users1 = s1.users@;
    let rid = s0.users@[i].roomId@;
    assert forall|r: Seq<char>| #![auto] num_in_room(users1, r) == num_in_room(users0, r) - (
    if users0[i].roomId@ == r {
        1int
    } else {
        0int
    }) by {
        lemma_count_remove(users0, in_room(r), i);
    }
    assert forall|r: Seq<char>| #![auto] num_hosts_in_room(users1, r) == num_hosts_in_room(
        users0,
        r,
    ) - (if users0[i].roomId@ == r && users0[i].isHost {
        1int
    } else {
        0int
    }) by {
        lemma_count_remove(users0, host_in_room(r), i);
    }
    assert forall|a: int, b: int| 0 <= a < b < users1.len() implies (#[trigger] users1[a]).id@
        != (#[trigger] users1[b]).id@ by {
        let a0 = if a < i {
            a
        } else {
            a + 1
        };
        let b0 = if b < i {
            b
        } else {
            b + 1
        };
        assert(users1[a] == users0[a0] && users1[b] == users0[b0]);
    }
    assert forall|a: int| 0 <= a < users1.len() implies room_exists(
        s1.rooms@,
        (#[trigger] users1[a]).roomId@,
    ) by {
        let a0 = if a < i {
            a
        } else {
            a + 1
        };
        assert(users1[a] == users0[a0]);
        let w = choose|w: int|
            0 <= w < s0.rooms@.len() && (#[trigger] s0.rooms@[w]).id@ == users0[a0].roomId@;
        assert(s1.rooms@[w].id@ == s0.rooms@[w].id@);
    }
    assert forall|a: int| 0 <= a < s1.rooms@.len() implies room_ok(
        users1,
        #[trigger] s1.rooms@[a],
    ) by {
        assert(room_ok(users0, s0.rooms@[a]));
        if a == kr {
            crate::registry::lemma_count_at_least_one(users0, in_room(rid), i);
        } else {
            assert(s0.rooms@[a].id@ != rid);
        }
    }
    if hosts_full(s0) && (!users0[i].isHost || num_in_room(users1, rid) == 0) {
        assert forall|a: int|
            0 <= a < s1.rooms@.len() && num_in_room(users1, (#[trigger] s1.rooms@[a]).id@)
                > 0 implies num_hosts_in_room(users1, s1.rooms@[a].id@) == 1 by {
            let r2 = s1.rooms@.index(a).id@;
            assert(r2 == s0.rooms@[a].id@);
            assert(num_in_room(users0, r2) > 0);
            assert(num_hosts_in_room(users0, r2) == 1);
        }
    }
}

/// The room-removal decision when a room grace timer fires: reap the room
/// if it still counts no members; a late joiner makes this a no-op.
pub fn handle_room_timeout(state: &mut Registry, room_id: &String) -> (removed: bool)
    requires
        wf(*old(state)),
    ensures
        wf(*final(state)),
        hosts_full(*old(state)) ==> hosts_full(*final(state)),
        final(state).connections@ == old(state).connections@,
        final(state).users@ == old(state).users@,
        final(state).games@ == old(state).games@,
        final(state).user_timeouts@ == old(state).user_timeouts@,
        removed == (room_exists(old(state).rooms@, room_id@) && old(state).rooms@[room_index(
            old(state).rooms@,
            room_id@,
        )].current_players <= 0),
        removed ==> final(state).rooms@ == old(state).rooms@.remove(
            room_index(old(state).rooms@, room_id@),
        ),
        !removed ==> final(state).rooms@ == old(state).rooms@,
{
    let ghost s0 = *state;
    let k = match find_index_by_id(room_id, &state.rooms) {
        Some(k) => k,
        None => {
            return false;
        },
    };
    proof {
        let kr = room_index(s0.rooms@, room_id@);
        assert(0 <= kr < s0.rooms@.len() && s0.rooms@[kr].id@ == room_id@);
        if k as int != kr {
            assert(s0.rooms@[k as int].id@ == s0.rooms@[kr].id@);
            assert(false);
        }
    }
    if state.rooms[k].current_players > 0 {
        return false;
    }
    let ghost rid = room_id@;
    proof {
        assert(room_ok(s0.users@, s0.rooms@[k as int]));
        lemma_count_zero(s0.users@, in_room(rid));
    }
    state.rooms.remove(k);
    proof {
        let users1 = state.users@;
        assert forall|a: int| 0 <= a < users1.len() implies room_exists(
            state.rooms@,
            (#[trigger] users1[a]).roomId@,
        ) by {
            assert(users1[a].roomId@ != rid);
            let w = choose|w: int|
                0 <= w < s0.rooms@.len() && (#[trigger] s0.rooms@[w]).id@ == users1[a].roomId@;
            let w1 = if w < k as int {
                w
            } else {
                w - 1
            };
            assert(state.rooms@[w1] == s0.rooms@[w]);
        }
        assert forall|a: int, b: int| 0 <= a < b < state.rooms@.len() implies (#[trigger] state
            .rooms@[a]).id@ != (#[trigger] state.rooms@[b]).id@ by {
            let a0 = if a < k as int {
                a
            } else {
                a + 1
            };
            let b0 = if b < k as int {
                b
            } else {
                b + 1
            };
            assert(state.rooms@[a] == s0.rooms@[a0] && state.rooms@[b] == s0.rooms@[b0]);
        }
        assert forall|a: int| 0 <= a < state.rooms@.len() implies room_ok(
            state.users@,
            #[trigger] state.rooms@[a],
        ) by {
            let a0 = if a < k as int {
                a
            } else {
                a + 1
            };
            assert(state.rooms@[a] == s0.rooms@[a0]);
            assert(room_ok(s0.users@, s0.rooms@[a0]));
        }
        if hosts_full(s0) {
            assert forall|a: int|
                0 <= a < state.rooms@.len() && num_in_room(
                    state.users@,
                    (#[trigger] state.rooms@[a]).id@,
                ) > 0 implies num_hosts_in_room(state.users@, state.rooms@[a].id@) == 1 by {
                let a0 = if a < k as int {
                    a
                } else {
                    a + 1
                };
                assert(state.rooms@[a] == s0.rooms@[a0]);
            }
        }
    }
    true
}

} // verus!
