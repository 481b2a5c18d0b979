use vstd::prelude::*;
use crate::models::lobby::Room;
use crate::models::lobby::User;

verus! {

/// The in-memory state graph of the server: live connection ids, lobby
/// users, rooms, room ids with a running game, and user ids with a pending
/// removal timer. Each index is ordered by insertion and keyed by a string
/// id that is unique within the index.
pub struct Registry {
    pub connections: Vec<String>,
    pub users: Vec<User>,
    pub rooms: Vec<Room>,
    pub games: Vec<String>,
    pub user_timeouts: Vec<String>,
}

/// How many users of `users` satisfy `p`.
pub open spec fn count_matching(users: Seq<User>, p: spec_fn(User) -> bool) -> int
    decreases users.len(),
{
    if users.len() == 0 {
        0
    } else {
        (if p(users.last()) {
            1int
        } else {
            0int
        }) + count_matching(users.drop_last(), p)
    }
}

/// Membership of `u` in the room named `rid`.
pub open spec fn in_room(rid: Seq<char>) -> spec_fn(User) -> bool {
    |u: User| u.roomId@ == rid
}

/// Membership of `u` in the room named `rid` with the host flag set.
pub open spec fn host_in_room(rid: Seq<char>) -> spec_fn(User) -> bool {
    |u: User| u.roomId@ == rid && u.isHost
}

/// The number of users currently assigned to the room named `rid`.
pub open spec fn num_in_room(users: Seq<User>, rid: Seq<char>) -> int {
    count_matching(users, in_room(rid))
}

/// The number of users of the room named `rid` that carry the host flag.
pub open spec fn num_hosts_in_room(users: Seq<User>, rid: Seq<char>) -> int {
    count_matching(users, host_in_room(rid))
}

pub open spec fn user_exists(users: Seq<User>, uid: Seq<char>) -> bool {
    exists|i: int| 0 <= i < users.len() && (#[trigger] users[i]).id@ == uid
}

pub open spec fn room_exists(rooms: Seq<Room>, rid: Seq<char>) -> bool {
    exists|i: int| 0 <= i < rooms.len() && (#[trigger] rooms[i]).id@ == rid
}

/// Membership of the character string `x` in a list of string ids.
pub open spec fn str_in(ids: Seq<String>, x: Seq<char>) -> bool {
    exists|i: int| 0 <= i < ids.len() && (#[trigger] ids[i])@ == x
}

pub open spec fn users_distinct(users: Seq<User>) -> bool {
    forall|i: int, j: int|
        0 <= i < j < users.len() ==> (#[trigger] users[i]).id@ != (#[trigger] users[j]).id@
}

pub open spec fn rooms_distinct(rooms: Seq<Room>) -> bool {
    forall|i: int, j: int|
        0 <= i < j < rooms.len() ==> (#[trigger] rooms[i]).id@ != (#[trigger] rooms[j]).id@
}

pub open spec fn strings_distinct(ids: Seq<String>) -> bool {
    forall|i: int, j: int| 0 <= i < j < ids.len() ==> (#[trigger] ids[i])@ != (#[trigger] ids[j])@
}

/// Well-formedness of one room against the user index: the fixed capacity,
/// an accurate member counter within bounds, and at most one host.
pub open spec fn room_ok(users: Seq<User>, r: Room) -> bool {
    &&& r.max_players == 6
    &&& 0 <= r.current_players <= 6
    &&& r.current_players == num_in_room(users, r.id@)
    &&& num_hosts_in_room(users, r.id@) <= 1
}

/// The global invariant of the state graph: ids unique per index, every
/// user's room id names an existing room, and every room well formed.
pub open spec fn wf(s: Registry) -> bool {
    &&& users_distinct(s.users@)
    &&& rooms_distinct(s.rooms@)
    &&& strings_distinct(s.connections@)
    &&& strings_distinct(s.games@)
    &&& strings_distinct(s.user_timeouts@)
    &&& forall|i: int|
        0 <= i < s.users@.len() ==> room_exists(s.rooms@, (#[trigger] s.users@[i]).roomId@)
    &&& forall|i: int| 0 <= i < s.rooms@.len() ==> room_ok(s.users@, #[trigger] s.rooms@[i])
}

/// Every populated room has exactly one host.
pub open spec fn hosts_full(s: Registry) -> bool {
    forall|i: int|
        0 <= i < s.rooms@.len() && num_in_room(s.users@, (#[trigger] s.rooms@[i]).id@) > 0
            ==> num_hosts_in_room(s.users@, s.rooms@[i].id@) == 1
}

impl Registry {
    /// The empty state graph a server starts from.
    pub fn new() -> (s: Registry)
        ensures
            wf(s),
            hosts_full(s),
            s.connections@.len() == 0,
            s.users@.len() == 0,
            s.rooms@.len() == 0,
            s.games@.len() == 0,
            s.user_timeouts@.len() == 0,
    {
        Registry {
            connections: Vec::new(),
            users: Vec::new(),
            rooms: Vec::new(),
            games: Vec::new(),
            user_timeouts: Vec::new(),
        }
    }
}

pub proof fn lemma_count_bounds(users: Seq<User>, p: spec_fn(User) -> bool)
    ensures
        0 <= count_matching(users, p) <= users.len(),
    decreases users.len(),
{
    if users.len() > 0 {
        lemma_count_bounds(users.drop_last(), p);
    }
}

pub proof fn lemma_count_push(users: Seq<User>, p: spec_fn(User) -> bool, u: User)
    ensures
        count_matching(users.push(u), p) == count_matching(users, p) + if p(u) {
            1int
        } else {
            0int
        },
{
    assert(users.push(u).drop_last() =~= users);
    assert(users.push(u).last() == u);
}

pub proof fn lemma_count_remove(users: Seq<User>, p: spec_fn(User) -> bool, i: int)
    requires
        0 <= i < users.len(),
    ensures
        count_matching(users.remove(i), p) == count_matching(users, p) - if p(users[i]) {
            1int
        } else {
            0int
        },
    decreases users.len(),
{
    if i == users.len() - 1 {
        assert(users.remove(i) =~= users.drop_last());
    } else {
        lemma_count_remove(users.drop_last(), p, i);
        assert(users.remove(i).drop_last() =~= users.drop_last().remove(i));
        assert(users.remove(i).last() == users.last());
    }
}

pub proof fn lemma_count_update(users: Seq<User>, p: spec_fn(User) -> bool, i: int, u: User)
    requires
        0 <= i < users.len(),
    ensures
        count_matching(users.update(i, u), p) == count_matching(users, p) - (if p(users[i]) {
            1int
        } else {
            0int
        }) + if p(u) {
            1int
        } else {
            0int
        },
    decreases users.len(),
{
    if i == users.len() - 1 {
        assert(users.update(i, u).drop_last() =~= users.drop_last());
        assert(users.update(i, u).last() == u);
    } else {
        lemma_count_update(users.drop_last(), p, i, u);
        assert(users.update(i, u).drop_last() =~= users.drop_last().update(i, u));
        assert(users.update(i, u).last() == users.last());
    }
}

/// A member satisfying `p` witnesses a count of at least one.
pub proof fn lemma_count_at_least_one(users: Seq<User>, p: spec_fn(User) -> bool, i: int)
    requires
        0 <= i < users.len(),
        p(users[i]),
    ensures
        count_matching(users, p) >= 1,
    decreases users.len(),
{
    lemma_count_bounds(users.drop_last(), p);
    if i < users.len() - 1 {
        lemma_count_at_least_one(users.drop_last(), p, i);
    }
}

/// Two distinct members satisfying `p` witness a count of at least two.
pub proof fn lemma_count_at_least_two(users: Seq<User>, p: spec_fn(User) -> bool, i: int, j: int)
    requires
        0 <= i < j < users.len(),
        p(users[i]),
        p(users[j]),
    ensures
        count_matching(users, p) >= 2,
    decreases users.len(),
{
    if j == users.len() - 1 {
        lemma_count_at_least_one(users.drop_last(), p, i);
    } else {
        lemma_count_at_least_two(users.drop_last(), p, i, j);
    }
}

/// A zero count means no member satisfies `p`, and conversely.
pub proof fn lemma_count_zero(users: Seq<User>, p: spec_fn(User) -> bool)
    ensures
        (count_matching(users, p) == 0) <==> (forall|i: int|
            0 <= i < users.len() ==> !p(#[trigger] users[i])),
    decreases users.len(),
{
    if users.len() > 0 {
        let d = users.drop_last();
        lemma_count_zero(d, p);
        lemma_count_bounds(d, p);
        if count_matching(users, p) == 0 {
            assert(count_matching(d, p) == 0);
            assert forall|i: int| 0 <= i < users.len() implies !p(#[trigger] users[i]) by {
                if i < users.len() - 1 {
                    assert(!p(d[i]));
                    assert(d[i] == users[i]);
                } else {
                    assert(users[i] == users.last());
                }
            }
        }
        if forall|i: int| 0 <= i < users.len() ==> !p(#[trigger] users[i]) {
            assert forall|i: int| 0 <= i < d.len() implies !p(#[trigger] d[i]) by {
                assert(d[i] == users[i]);
                assert(!p(users[i]));
            }
            assert(count_matching(d, p) == 0);
            assert(!p(users.last()));
        }
    }
}

/// A positive count yields a member satisfying `p`.
pub proof fn lemma_count_witness(users: Seq<User>, p: spec_fn(User) -> bool) -> (i: int)
    requires
        count_matching(users, p) > 0,
    ensures
        0 <= i < users.len(),
        p(users[i]),
    decreases users.len(),
{
    if p(users.last()) {
        users.len() - 1
    } else {
        lemma_count_witness(users.drop_last(), p)
    }
}

/// The index of the room named `rid` within the room index.
pub open spec fn room_index(rooms: Seq<Room>, rid: Seq<char>) -> int {
    choose|i: int| 0 <= i < rooms.len() && (#[trigger] rooms[i]).id@ == rid
}

/// The index of the user carrying `uid` within the user index.
pub open spec fn user_index(users: Seq<User>, uid: Seq<char>) -> int {
    choose|i: int| 0 <= i < users.len() && (#[trigger] users[i]).id@ == uid
}

/// The first index of `x` in a list of string ids.
pub open spec fn index_of_str(ids: Seq<String>, x: Seq<char>) -> int {
    choose|i: int| 0 <= i < ids.len() && (#[trigger] ids[i])@ == x
}

/// The list with its (unique) occurrence of `x` taken out.
pub open spec fn spec_remove_str(ids: Seq<String>, x: Seq<char>) -> Seq<String> {
    if str_in(ids, x) {
        ids.remove(index_of_str(ids, x))
    } else {
        ids
    }
}

/// Removing an id from a duplicate-free list keeps it duplicate-free,
/// removes exactly that id, and keeps every other id.
pub proof fn lemma_remove_str_membership(ids: Seq<String>, x: Seq<char>)
    requires
        strings_distinct(ids),
    ensures
        strings_distinct(spec_remove_str(ids, x)),
        !str_in(spec_remove_str(ids, x), x),
        forall|y: Seq<char>| y != x ==> (str_in(spec_remove_str(ids, x), y) <==> str_in(ids, y)),
        str_in(ids, x) ==> spec_remove_str(ids, x).len() == ids.len() - 1,
        !str_in(ids, x) ==> spec_remove_str(ids, x) == ids,
{
    if str_in(ids, x) {
        let k = index_of_str(ids, x);
        let out = ids.remove(k);
        assert(0 <= k < ids.len() && ids[k]@ == x);
        assert forall|i: int, j: int| 0 <= i < j < out.len() implies (#[trigger] out[i])@
            != (#[trigger] out[j])@ by {
            let i0 = if i < k {
                i
            } else {
                i + 1
            };
            let j0 = if j < k {
                j
            } else {
                j + 1
            };
            assert(out[i] == ids[i0] && out[j] == ids[j0]);
        }
        assert forall|i: int| 0 <= i < out.len() implies (#[trigger] out[i])@ != x by {
            let i0 = if i < k {
                i
            } else {
                i + 1
            };
            assert(out[i] == ids[i0]);
        }
        assert forall|y: Seq<char>| y != x implies (str_in(out, y) <==> str_in(ids, y)) by {
            if str_in(out, y) {
                let i = choose|i: int| 0 <= i < out.len() && (#[trigger] out[i])@ == y;
                let i0 = if i < k {
                    i
                } else {
                    i + 1
                };
                assert(ids[i0]@ == y);
            }
            if str_in(ids, y) {
                let i = choose|i: int| 0 <= i < ids.len() && (#[trigger] ids[i])@ == y;
                let i0 = if i < k {
                    i
                } else {
                    i - 1
                };
                assert(out[i0]@ == y);
            }
        }
    }
}

/// Does this list of string ids contain `id`?
pub fn contains_str(ids: &Vec<String>, id: &String) -> (r: bool)
    ensures
        r == str_in(ids@, id@),
{
    let mut k: usize = 0;
    while k < ids.len()
        invariant
            0 <= k <= ids@.len(),
            forall|i: int| 0 <= i < k ==> (#[trigger] ids@[i])@ != id@,
        decreases ids@.len() - k,
    {
        if ids[k].eq(id) {
            return true;
        }
        k += 1;
    }
    false
}

/// Removes the occurrence of `id`, if any, from a duplicate-free list.
pub fn remove_str(ids: &mut Vec<String>, id: &String)
    requires
        strings_distinct(old(ids)@),
    ensures
        final(ids)@ == spec_remove_str(old(ids)@, id@),
{
    let mut k: usize = 0;
    while k < ids.len()
        invariant
            0 <= k <= ids@.len(),
            strings_distinct(ids@),
            forall|i: int| 0 <= i < k ==> (#[trigger] ids@[i])@ != id@,
            ids@ == old(ids)@,
        decreases ids@.len() - k,
    {
        if ids[k].eq(id) {
            proof {
                assert(str_in(ids@, id@));
                let c = index_of_str(ids@, id@);
                assert(0 <= c < ids@.len() && ids@[c]@ == id@);
                if c < k {
                    assert(ids@[c]@ != id@);
                }
                if c > k {
                    assert(ids@[k as int]@ != ids@[c]@);
                }
                assert(c == k as int);
            }
            ids.remove(k);
            return ;
        }
        k += 1;
    }
    proof {
        assert(!str_in(ids@, id@));
    }
}

} // verus!
