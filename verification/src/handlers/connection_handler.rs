use vstd::prelude::*;
use crate::helpers::set_host;
use crate::models::lobby::User;
use crate::registry::Registry;
use crate::registry::contains_str;
use crate::registry::host_in_room;
use crate::registry::in_room;
use crate::registry::lemma_count_at_least_one;
use crate::registry::lemma_count_update;
use crate::registry::num_hosts_in_room;
use crate::registry::num_in_room;
use crate::registry::remove_str;
use crate::registry::room_exists;
use crate::registry::room_ok;
use crate::registry::spec_remove_str;
use crate::registry::str_in;
use crate::registry::user_exists;
use crate::registry::user_index;
use crate::registry::wf;
use crate::registry::hosts_full;

verus! {

/// The user with the host flag cleared.
pub open spec fn unset_host(u: User) -> User {
    User { isHost: false, ..u }
}

/// The indices of the members of the room named `rid`, the one at `excl`
/// left out, in index order: the candidates for host failover.
pub open spec fn member_indices(users: Seq<User>, rid: Seq<char>, excl: int) -> Seq<int>
    decreases users.len(),
{
    if users.len() == 0 {
        Seq::empty()
    } else {
        member_indices(users.drop_last(), rid, excl) + if users.last().roomId@ == rid && users.len()
            - 1 != excl {
            seq![users.len() - 1]
        } else {
            Seq::<int>::empty()
        }
    }
}

pub proof fn lemma_member_indices(users: Seq<User>, rid: Seq<char>, excl: int)
    ensures
        forall|j: int|
            0 <= j < member_indices(users, rid, excl).len() ==> {
                let w = #[trigger] member_indices(users, rid, excl)[j];
                0 <= w < users.len() && w != excl && users[w].roomId@ == rid
            },
    decreases users.len(),
{
    if users.len() > 0 {
        lemma_member_indices(users.drop_last(), rid, excl);
        let d = users.drop_last();
        assert forall|j: int| 0 <= j < member_indices(users, rid, excl).len() implies {
            let w = #[trigger] member_indices(users, rid, excl)[j];
            0 <= w < users.len() && w != excl && users[w].roomId@ == rid
        } by {
            if j < member_indices(d, rid, excl).len() {
                assert(member_indices(users, rid, excl)[j] == member_indices(d, rid, excl)[j]);
                let w = member_indices(d, rid, excl)[j];
                assert(d[w] == users[w]);
            } else {
                assert(member_indices(users, rid, excl)[j] == users.len() - 1);
            }
        }
    }
}

/// Records a freshly accepted socket's connection id in the outbound
/// table; a colliding id (never drawn in practice) is refused.
pub fn register_connection(state: &mut Registry, connection_id: &String) -> (r: bool)
    requires
        wf(*old(state)),
    ensures
        wf(*final(state)),
        hosts_full(*old(state)) ==> hosts_full(*final(state)),
        r == !str_in(old(state).connections@, connection_id@),
        final(state).users@ == old(state).users@,
        final(state).rooms@ == old(state).rooms@,
        final(state).games@ == old(state).games@,
        final(state).user_timeouts@ == old(state).user_timeouts@,
        r ==> final(state).connections@ == old(state).connections@.push(
            final(state).connections@.last(),
        ) && final(state).connections@.last()@ == connection_id@,
        !r ==> final(state).connections@ == old(state).connections@,
{
    if contains_str(&state.connections, connection_id) {
        return false;
    }
    state.connections.push(connection_id.clone());
    proof {
        assert forall|a: int, b: int|
            0 <= a < b < state.connections@.len() implies (#[trigger] state.connections@[a])@
            != (#[trigger] state.connections@[b])@ by {
            if b == state.connections@.len() - 1 {
                assert(state.connections@[a] == old(state).connections@[a]);
            }
        }
    }
    true
}

/// What a socket's close leaves behind: whether a removal timer must be
/// started (and for whom), and whether an older timer for the same user
/// must first be told to stand down.
pub struct DisconnectOutcome {
    pub timeout: Option<(String, String)>,
    pub cancel_previous: bool,
}

/// The session teardown decision on socket close: unregister the outbound
/// channel; if the connection was a user, transfer the host flag to the
/// member that `pick` selects (when the departing user was host and a
/// survivor exists), and replace the user's pending-removal timer.
#[verifier::rlimit(100)]
pub fn handle_disconnect(state: &mut Registry, connection_id: &String, pick: usize) -> (r:
    DisconnectOutcome)
    requires
        wf(*old(state)),
    ensures
        wf(*final(state)),
        hosts_full(*old(state)) ==> hosts_full(*final(state)),
        final(state).connections@ == spec_remove_str(old(state).connections@, connection_id@),
        final(state).rooms@ == old(state).rooms@,
        final(state).games@ == old(state).games@,
        !user_exists(old(state).users@, connection_id@) ==> {
            &&& final(state).users@ == old(state).users@
            &&& final(state).user_timeouts@ == old(state).user_timeouts@
            &&& r.timeout is None
        },
        user_exists(old(state).users@, connection_id@) ==> {
            let users0 = old(state).users@;
            let i = user_index(users0, connection_id@);
            let rid = users0[i].roomId@;
            let survivors = member_indices(users0, rid, i);
            &&& final(state).users@ == if users0[i].isHost && survivors.len() > 0 {
                users0.update(i, unset_host(users0[i])).update(
                    survivors[pick as int % survivors.len() as int],
                    set_host(users0[survivors[pick as int % survivors.len() as int]]),
                )
            } else {
                users0
            }
            &&& final(state).user_timeouts@ == spec_remove_str(
                old(state).user_timeouts@,
                connection_id@,
            ).push(final(state).user_timeouts@.last())
            &&& final(state).user_timeouts@.last()@ == connection_id@
            &&& r.cancel_previous == str_in(old(state).user_timeouts@, connection_id@)
            &&& r.timeout matches Some(t) && t.0@ == connection_id@ && t.1@ == rid
        },
{
    let ghost s0 = *state;
    let user_pos = crate::helpers::find_index_by_id(connection_id, &state.users);
    let outcome = match user_pos {
        Some(i) => {
            proof {
                let k = user_index(s0.users@, connection_id@);
                assert(0 <= k < s0.users@.len() && s0.users@[k].id@ == connection_id@);
                if i as int != k {
                    assert(s0.users@[i as int].id@ == s0.users@[k].id@);
                    assert(false);
                }
            }
            let room_id = state.users[i].roomId.clone();
            let user_id = state.users[i].id.clone();
            let ghost rid = room_id@;

            // Host failover: collect the other members of the room and hand
            // the flag to the one the random pick selects.
            if state.users[i].isHost {
                let mut survivors: Vec<usize> = Vec::new();
                let mut k: usize = 0;
                while k < state.users.len()
                    invariant
                        0 <= k <= state.users@.len(),
                        state.users@ == s0.users@,
                        i < s0.users@.len(),
                        rid == s0.users@[i as int].roomId@,
                        room_id@ == rid,
                        survivors@.len() == member_indices(
                            s0.users@.take(k as int),
                            rid,
                            i as int,
                        ).len(),
                        forall|j: int|
                            0 <= j < survivors@.len() ==> (#[trigger] survivors@[j]) as int
                                == member_indices(s0.users@.take(k as int), rid, i as int)[j],
                    decreases state.users@.len() - k,
                {
                    proof {
                        let t = s0.users@.take(k as int + 1);
                        assert(t.drop_last() =~= s0.users@.take(k as int));
                        assert(t.last() == s0.users@[k as int]);
                        assert(t.len() - 1 == k as int);
                        assert(member_indices(t, rid, i as int) == member_indices(
                            s0.users@.take(k as int),
                            rid,
                            i as int,
                        ) + (if s0.users@[k as int].roomId@ == rid && k as int != i as int {
                            seq![k as int]
                        } else {
                            Seq::<int>::empty()
                        }));
                    }
                    if k != i && state.users[k].roomId.eq(&room_id) {
                        survivors.push(k);
                    }
                    k += 1;
                }
                proof {
                    assert(s0.users@.take(s0.users@.len() as int) =~= s0.users@);
                }
                if survivors.len() > 0 {
                    let chosen = survivors[pick % survivors.len()];
                    proof {
                        lemma_member_indices(s0.users@, rid, i as int);
                        assert(survivors@[pick as int % survivors@.len() as int] == chosen);
                        assert(member_indices(s0.users@, rid, i as int)[pick as int
                            % survivors@.len() as int] == chosen as int);
                    }
                    let departing = state.users.remove(i);
                    let cleared = User {
                        id: departing.id,
                        name: departing.name,
                        avatarPath: departing.avatarPath,
                        roomId: departing.roomId,
                        isHost: false,
                        userColor: departing.userColor,
                    };
                    state.users.insert(i, cleared);
                    let survivor = state.users.remove(chosen);
                    let promoted = User {
                        id: survivor.id,
                        name: survivor.name,
                        avatarPath: survivor.avatarPath,
                        roomId: survivor.roomId,
                        isHost: true,
                        userColor: survivor.userColor,
                    };
                    state.users.insert(chosen, promoted);
                    proof {
                        let j = chosen as int;
                        assert(state.users@ =~= s0.users@.update(
                            i as int,
                            unset_host(s0.users@[i as int]),
                        ).update(j, set_host(s0.users@[j])));
                        lemma_failover_wf(s0, *state, i as int, j);
                    }
                }
            }

            // Replace any pending removal timer for this user.
            let cancel_previous = contains_str(&state.user_timeouts, &user_id);
            remove_str(&mut state.user_timeouts, &user_id);
            state.user_timeouts.push(user_id.clone());
            proof {
                crate::registry::lemma_remove_str_membership(s0.user_timeouts@, connection_id@);
                let removed = spec_remove_str(s0.user_timeouts@, connection_id@);
                assert forall|a: int, b: int|
                    0 <= a < b < state.user_timeouts@.len() implies (#[trigger] state
                    .user_timeouts@[a])@ != (#[trigger] state.user_timeouts@[b])@ by {
                    if b == state.user_timeouts@.len() - 1 {
                        assert(state.user_timeouts@[a] == removed[a]);
                        assert(str_in(removed, removed[a]@));
                    }
                }
            }
            DisconnectOutcome { timeout: Some((user_id, room_id)), cancel_previous }
        },
        None => DisconnectOutcome { timeout: None, cancel_previous: false },
    };
    remove_str(&mut state.connections, connection_id);
    proof {
        crate::registry::lemma_remove_str_membership(s0.connections@, connection_id@);
    }
    outcome
}

/// Transferring the host flag from a departing member to a surviving one
/// keeps the invariant and the populated-room host count.
proof fn lemma_failover_wf(s0: Registry, s1: Registry, i: int, j: int)
    requires
        wf(s0),
        0 <= i < s0.users@.len(),
        0 <= j < s0.users@.len(),
        i != j,
        s0.users@[i].isHost,
        s0.users@[j].roomId@ == s0.users@[i].roomId@,
        s1.users@ == s0.users@.update(i, unset_host(s0.users@[i])).update(
            j,
            set_host(s0.users@[j]),
        ),
        s1.connections@ == s0.connections@,
        s1.rooms@ == s0.rooms@,
        s1.games@ == s0.games@,
        s1.user_timeouts@ == s0.user_timeouts@,
    ensures
        wf(s1),
        hosts_full(s0) ==> hosts_full(s1),
{
    let users0 = s0.users@;
    let mid = users0.update(i, unset_host(users0[i]));
    let users1 = s1.users@;
    let rid = users0[i].roomId@;
    assert forall|r: Seq<char>| num_in_room(users1, r) == num_in_room(users0, r) by {
        lemma_count_update(users0, in_room(r), i, unset_host(users0[i]));
        lemma_count_update(mid, in_room(r), j, set_host(users0[j]));
        assert(mid[j] == users0[j]);
    }
    assert forall|r: Seq<char>| num_hosts_in_room(users1, r) == num_hosts_in_room(users0, r) by {
        lemma_count_update(users0, host_in_room(r), i, unset_host(users0[i]));
        lemma_count_update(mid, host_in_room(r), j, set_host(users0[j]));
        assert(mid[j] == users0[j]);
        if r == rid {
            if users0[j].isHost {
                crate::registry::lemma_count_at_least_two(
                    users0,
                    host_in_room(rid),
                    if i < j {
                        i
                    } else {
                        j
                    },
                    if i < j {
                        j
                    } else {
                        i
                    },
                );
                let w = crate::registry::room_index(s0.rooms@, rid);
                assert(room_exists(s0.rooms@, rid));
                let ww = choose|ww: int|
                    0 <= ww < s0.rooms@.len() && (#[trigger] s0.rooms@[ww]).id@ == rid;
                assert(room_ok(users0, s0.rooms@[ww]));
                assert(false);
            }
        }
    }
    assert forall|a: int, b: int| 0 <= a < b < users1.len() implies (#[trigger] users1[a]).id@
        != (#[trigger] users1[b]).id@ by {
        assert(users1[a].id@ == users0[a].id@);
        assert(users1[b].id@ == users0[b].id@);
    }
    assert forall|a: int| 0 <= a < users1.len() implies room_exists(
        s1.rooms@,
        (#[trigger] users1[a]).roomId@,
    ) by {
        assert(users1[a].roomId@ == users0[a].roomId@);
        assert(room_exists(s0.rooms@, users0[a].roomId@));
    }
    assert forall|a: int| 0 <= a < s1.rooms@.len() implies room_ok(
        users1,
        #[trigger] s1.rooms@[a],
    ) by {
        assert(room_ok(users0, s0.rooms@[a]));
    }
}

} // verus!
