use vstd::prelude::*;
use crate::handlers::command_handler::joined_ok;
use crate::handlers::command_handler::sole_error;
use crate::handlers::command_handler::unauth_step;
use crate::handlers::connection_handler::member_indices;
use crate::handlers::connection_handler::lemma_member_indices;
use crate::handlers::game_handler::entry_exists;
use crate::handlers::game_handler::entry_index;
use crate::handlers::game_handler::spec_ingest;
use crate::handlers::game_handler::spec_reset;
use crate::helpers::lemma_room_user_list_len;
use crate::helpers::lemma_room_user_list_members;
use crate::helpers::room_user_list;
use crate::jwtoken::claims_fit;
use crate::jwtoken::lemma_token_round_trip;
use crate::jwtoken::spec_claims_for;
use crate::jwtoken::spec_token;
use crate::jwtoken::token_fresh;
use crate::jwtoken::token_payload;
use crate::jwtoken::token_signed;
use crate::jwtoken::token_wf;
use crate::models::communication::UnauthorizedCommand;
use crate::models::game::ScoreEntry;
use crate::models::lobby::User;
use crate::registry::Registry;
use crate::registry::host_in_room;
use crate::registry::in_room;
use crate::registry::lemma_count_at_least_one;
use crate::registry::lemma_count_at_least_two;
use crate::registry::lemma_count_bounds;
use crate::registry::num_hosts_in_room;
use crate::registry::num_in_room;
use crate::registry::room_exists;
use crate::registry::room_index;
use crate::registry::room_ok;
use crate::registry::user_exists;
use crate::registry::user_index;
use crate::registry::wf;
use crate::registry::hosts_full;
use crate::server_messages::Outbound;

verus! {

/// Every room of a well-formed state carries at most one host, and exactly
/// one whenever the room is populated and the host accounting is intact.
pub proof fn lemma_host_count(s: Registry, i: int)
    requires
        wf(s),
        0 <= i < s.rooms@.len(),
    ensures
        0 <= num_hosts_in_room(s.users@, s.rooms@[i].id@) <= 1,
        hosts_full(s) && num_in_room(s.users@, s.rooms@[i].id@) > 0 ==> num_hosts_in_room(
            s.users@,
            s.rooms@[i].id@,
        ) == 1,
{
    assert(room_ok(s.users@, s.rooms@[i]));
    lemma_count_bounds(s.users@, host_in_room(s.rooms@[i].id@));
}

/// Every room's member counter equals the number of users assigned to it,
/// which is the length of the roster that `updateUserList` carries.
pub proof fn lemma_player_count_accurate(s: Registry, i: int)
    requires
        wf(s),
        0 <= i < s.rooms@.len(),
    ensures
        s.rooms@[i].current_players == num_in_room(s.users@, s.rooms@[i].id@),
        s.rooms@[i].current_players == room_user_list(s.users@, s.rooms@[i].id@).len(),
{
    assert(room_ok(s.users@, s.rooms@[i]));
    lemma_room_user_list_len(s.users@, s.rooms@[i].id@);
}

/// No user's room id refers to a removed room: each names an existing one.
pub proof fn lemma_no_dangling_room(s: Registry, i: int)
    requires
        wf(s),
        0 <= i < s.users@.len(),
    ensures
        room_exists(s.rooms@, s.users@[i].roomId@),
{
}

/// For every connection id, at most one user carries it.
pub proof fn lemma_connection_user_unique(s: Registry, cid: Seq<char>, i: int, j: int)
    requires
        wf(s),
        0 <= i < s.users@.len(),
        0 <= j < s.users@.len(),
        s.users@[i].id@ == cid,
        s.users@[j].id@ == cid,
    ensures
        i == j,
{
}

/// Issuing a token and reading it back within its day of validity yields a
/// well-formed, signed, fresh token whose claims are exactly the user's
/// projected fields.
pub proof fn lemma_issue_verify_round_trip(u: User, now: nat, later: nat)
    requires
        claims_fit(spec_claims_for(u, now)),
        later < now + 86400,
    ensures
        token_wf(spec_token(spec_claims_for(u, now))),
        token_signed(spec_token(spec_claims_for(u, now))),
        token_fresh(spec_token(spec_claims_for(u, now)), later),
        token_payload(spec_token(spec_claims_for(u, now))) == spec_claims_for(u, now),
        token_payload(spec_token(spec_claims_for(u, now))).id == u.id@,
        token_payload(spec_token(spec_claims_for(u, now))).name == u.name@,
        token_payload(spec_token(spec_claims_for(u, now))).avatar_path == u.avatarPath@,
        token_payload(spec_token(spec_claims_for(u, now))).room_id == u.roomId@,
        token_payload(spec_token(spec_claims_for(u, now))).is_host == u.isHost,
{
    lemma_token_round_trip(spec_claims_for(u, now), later);
}

/// After a room is created, its creator's token still authenticates from a
/// fresh socket, the closing of the first socket transfers nothing (the
/// creator has no fellow member), and the roster the reconnect reply
/// carries holds exactly the creator, with the given name, avatar path and
/// the host flag.
pub proof fn lemma_create_then_reconnect(s1: Registry, conn: Seq<char>, rid: Seq<char>, now: nat, later: nat)
    requires
        wf(s1),
        user_exists(s1.users@, conn),
        s1.users@[user_index(s1.users@, conn)].roomId@ == rid,
        s1.users@[user_index(s1.users@, conn)].isHost,
        num_in_room(s1.users@, rid) == 1,
        claims_fit(spec_claims_for(s1.users@[user_index(s1.users@, conn)], now)),
        later < now + 86400,
    ensures
        ({
            let u = s1.users@[user_index(s1.users@, conn)];
            let t = spec_token(spec_claims_for(u, now));
            &&& token_wf(t)
            &&& token_signed(t)
            &&& token_fresh(t, later)
            &&& token_payload(t).id == u.id@
            &&& token_payload(t).room_id == rid
            &&& room_user_list(s1.users@, rid) == seq![u]
            &&& member_indices(s1.users@, rid, user_index(s1.users@, conn)).len() == 0
        }),
{
    let i = user_index(s1.users@, conn);
    assert(0 <= i < s1.users@.len() && s1.users@[i].id@ == conn);
    let u = s1.users@[i];
    lemma_token_round_trip(spec_claims_for(u, now), later);
    lemma_room_user_list_len(s1.users@, rid);
    lemma_room_user_list_members(s1.users@, rid);
    let l = room_user_list(s1.users@, rid);
    assert(l.len() == 1);
    let w = choose|w: int| 0 <= w < s1.users@.len() && s1.users@[w] == l[0];
    if w != i {
        lemma_count_at_least_two(
            s1.users@,
            in_room(rid),
            if w < i {
                w
            } else {
                i
            },
            if w < i {
                i
            } else {
                w
            },
        );
    }
    assert(l[0] == u);
    assert(l =~= seq![u]);
    if member_indices(s1.users@, rid, i).len() > 0 {
        lemma_member_indices(s1.users@, rid, i);
        let m = member_indices(s1.users@, rid, i)[0];
        lemma_count_at_least_two(
            s1.users@,
            in_room(rid),
            if m < i {
                m
            } else {
                i
            },
            if m < i {
                i
            } else {
                m
            },
        );
    }
}

/// A join aimed at a full room fails with "Room is full" and changes
/// nothing.
pub proof fn lemma_full_room_join_rejected(
    s0: Registry,
    s1: Registry,
    effects: Seq<Outbound>,
    conn: Seq<char>,
    name: String,
    avatar: String,
    room_id: String,
    rid2: Seq<char>,
    color: u32,
    now: nat,
)
    requires
        wf(s0),
        !user_exists(s0.users@, conn),
        room_exists(s0.rooms@, room_id@),
        s0.rooms@[room_index(s0.rooms@, room_id@)].current_players >= 6,
        unauth_step(
            s0,
            s1,
            effects,
            UnauthorizedCommand::joinRoom { name: name, avatarPath: avatar, roomId: room_id },
            conn,
            rid2,
            color,
            now,
        ),
    ensures
        sole_error(s0, s1, effects, conn, "Room is full"@, 0),
{
    let k = room_index(s0.rooms@, room_id@);
    assert(0 <= k < s0.rooms@.len() && s0.rooms@[k].id@ == room_id@) by {
        let w = choose|w: int|
            0 <= w < s0.rooms@.len() && (#[trigger] s0.rooms@[w]).id@ == room_id@;
    }
    assert(room_ok(s0.users@, s0.rooms@[k]));
}

/// A join into a standing but empty room makes the joiner its host.
pub proof fn lemma_empty_room_join_promotes(
    s0: Registry,
    s1: Registry,
    effects: Seq<Outbound>,
    conn: Seq<char>,
    name: Seq<char>,
    avatar: Seq<char>,
    rid: Seq<char>,
    color: u32,
    now: nat,
)
    requires
        wf(s0),
        num_in_room(s0.users@, rid) == 0,
        joined_ok(s0, s1, effects, conn, name, avatar, rid, color, now),
    ensures
        s1.users@.last().isHost,
        num_in_room(s1.users@, rid) == 1,
        num_hosts_in_room(s1.users@, rid) == 1,
{
    let u = s1.users@.last();
    let u0 = User { isHost: false, ..u };
    let mid = s0.users@.push(u0);
    crate::registry::lemma_count_push(s0.users@, in_room(rid), u0);
    assert(num_in_room(mid, rid) == 1);
    let last = mid.len() - 1;
    crate::registry::lemma_count_update(mid, in_room(rid), last, crate::helpers::set_host(u0));
    crate::registry::lemma_count_push(s0.users@, host_in_room(rid), u0);
    crate::registry::lemma_count_zero(s0.users@, host_in_room(rid));
    assert forall|i: int| 0 <= i < s0.users@.len() implies !(host_in_room(rid)(
        #[trigger] s0.users@[i],
    )) by {
        if host_in_room(rid)(s0.users@[i]) {
            lemma_count_at_least_one(s0.users@, in_room(rid), i);
        }
    }
    crate::registry::lemma_count_update(mid, host_in_room(rid), last, crate::helpers::set_host(u0));
}

/// A room's game entry lives exactly as long as the runner it was handed
/// out with: `launch_game` creates the entry together with the runner's
/// state, and `finish_game` takes the entry out when the runner ends, so
/// afterwards the index holds no entry for the room.
pub proof fn lemma_game_entry_lifecycle(games0: Seq<String>, rid: Seq<char>)
    requires
        crate::registry::strings_distinct(games0),
    ensures
        !crate::registry::str_in(crate::registry::spec_remove_str(games0, rid), rid),
        forall|y: Seq<char>|
            y != rid ==> (crate::registry::str_in(
                crate::registry::spec_remove_str(games0, rid),
                y,
            ) <==> crate::registry::str_in(games0, y)),
{
    crate::registry::lemma_remove_str_membership(games0, rid);
}

/// A start attempted by a member without the host flag is refused with
/// "Only host can start game" and changes nothing, so the host's own start,
/// issued afterwards, finds the state it would have found before.
pub proof fn lemma_non_host_start_rejected(
    s0: Registry,
    s1: Registry,
    effects: Seq<Outbound>,
    follow: crate::handlers::command_handler::FollowUp,
    pair: crate::models::communication::CommandTokenPair,
    conn0: Seq<char>,
    conn1: Seq<char>,
    now: nat,
)
    requires
        wf(s0),
        token_wf(pair.token@),
        token_signed(pair.token@),
        token_fresh(pair.token@, now),
        pair.command matches crate::models::communication::AuthorizedCommand::startGame {
            packPath: _,
        },
        user_exists(s0.users@, token_payload(pair.token@).id),
        !crate::registry::str_in(s0.games@, token_payload(pair.token@).room_id),
        !s0.users@[user_index(s0.users@, token_payload(pair.token@).id)].isHost,
        crate::handlers::command_handler::auth_step(
            s0,
            s1,
            effects,
            follow,
            pair,
            conn0,
            conn1,
            now,
        ),
    ensures
        crate::handlers::command_handler::same_state(s0, s1),
        effects.len() == 1,
        crate::handlers::command_handler::is_error_to(
            effects[0],
            conn0,
            "Only host can start game"@,
            0,
        ),
        follow == crate::handlers::command_handler::FollowUp::Nothing,
{
}

/// An answer submitted after a question's closing snapshot but before the
/// next question is recorded against the next question: the snapshot the
/// close broadcast carries is the table as it stood, the table is then
/// cleared, and the late answer lands in the cleared table, where the next
/// snapshot will show it.
pub proof fn lemma_late_answer_counts_next(
    entries: Seq<ScoreEntry>,
    uid: Seq<char>,
    a: i32,
)
    requires
        entry_exists(entries, uid),
    ensures
        ({
            let next = spec_ingest(spec_reset(entries), uid, a);
            &&& next[entry_index(spec_reset(entries), uid)].value == a
            &&& next[entry_index(spec_reset(entries), uid)].user_id@ == uid
            &&& forall|j: int|
                0 <= j < next.len() && j != entry_index(spec_reset(entries), uid)
                    ==> (#[trigger] next[j]).value == -1
        }),
{
    let cleared = spec_reset(entries);
    let w = choose|w: int| 0 <= w < entries.len() && (#[trigger] entries[w]).user_id@ == uid;
    assert(cleared[w].user_id@ == uid);
    assert(entry_exists(cleared, uid));
    let i = entry_index(cleared, uid);
    assert(0 <= i < cleared.len() && cleared[i].user_id@ == uid);
}

/// Once a user's grace timer has removed the record, the old token's
/// reconnect can only be refused: no user with that id exists any more.
pub proof fn lemma_removed_user_stays_removed(s0: Registry, s1: Registry, uid: Seq<char>)
    requires
        wf(s0),
        user_exists(s0.users@, uid),
        s1.users@ == s0.users@.remove(user_index(s0.users@, uid)),
    ensures
        !user_exists(s1.users@, uid),
{
    let i = user_index(s0.users@, uid);
    assert(0 <= i < s0.users@.len() && s0.users@[i].id@ == uid);
    assert forall|j: int| 0 <= j < s1.users@.len() implies (#[trigger] s1.users@[j]).id@ != uid by {
        let j0 = if j < i {
            j
        } else {
            j + 1
        };
        assert(s1.users@[j] == s0.users@[j0]);
        if s0.users@[j0].id@ == uid {
            if j0 < i {
                assert(s0.users@[j0].id@ != s0.users@[i].id@);
            } else {
                assert(s0.users@[i].id@ != s0.users@[j0].id@);
            }
        }
    }
}

/// A disconnect never removes a user record: whoever existed before the
/// socket closed still exists during the grace window, so a reconnect
/// within it finds the user.
pub proof fn lemma_disconnect_keeps_users(users0: Seq<User>, users1: Seq<User>, i: int, j: int, uid: Seq<char>)
    requires
        0 <= i < users0.len(),
        0 <= j < users0.len(),
        users1 == users0.update(i, crate::handlers::connection_handler::unset_host(users0[i]))
            .update(j, crate::helpers::set_host(users0[j])),
    ensures
        user_exists(users1, uid) <==> user_exists(users0, uid),
{
    assert forall|k: int| 0 <= k < users0.len() implies (#[trigger] users1[k]).id@
        == users0[k].id@ by {}
    if user_exists(users0, uid) {
        let w = choose|w: int| 0 <= w < users0.len() && (#[trigger] users0[w]).id@ == uid;
        assert(users1[w].id@ == uid);
    }
    if user_exists(users1, uid) {
        let w = choose|w: int| 0 <= w < users1.len() && (#[trigger] users1[w]).id@ == uid;
        assert(users0[w].id@ == uid);
    }
}

} // verus!
