use vstd::prelude::*;
use vstd::string::StringExecFns;
use crate::helpers::get_room_user_list;
use crate::helpers::lemma_room_user_list_distinct;
use crate::helpers::room_user_list;
use crate::models::communication::Response;
use crate::models::game::Answer;
use crate::models::game::Pack;
use crate::models::game::Question;
use crate::models::game::ScoreEntry;
use crate::models::lobby::User;
use crate::registry::Registry;
use crate::registry::contains_str;
use crate::registry::str_in;
use crate::registry::users_distinct;
use crate::registry::wf;
use crate::registry::hosts_full;
use crate::server_messages::Outbound;
use crate::server_messages::broadcast_message_room_all;
use crate::server_messages::ids_of;
use crate::server_messages::send_message;
use crate::server_messages::views_of;

verus! {

/// The per-room quiz state a Game Runner task steps through: the roster
/// captured at start, the answer of each player for the current question
/// (-1 until they answer), and each player's score.
pub struct Game {
    pub room_id: String,
    pub roster: Vec<User>,
    pub answers: Vec<ScoreEntry>,
    pub scores: Vec<ScoreEntry>,
}

/// The answer and score tables carry exactly one entry per roster member,
/// in roster order.
pub open spec fn game_wf(g: Game) -> bool {
    &&& g.answers@.len() == g.roster@.len()
    &&& g.scores@.len() == g.roster@.len()
    &&& forall|i: int|
        0 <= i < g.roster@.len() ==> (#[trigger] g.answers@[i]).user_id@ == g.roster@[i].id@
    &&& forall|i: int|
        0 <= i < g.roster@.len() ==> (#[trigger] g.scores@[i]).user_id@ == g.roster@[i].id@
    &&& users_distinct(g.roster@)
}

pub open spec fn entry_exists(entries: Seq<ScoreEntry>, uid: Seq<char>) -> bool {
    exists|i: int| 0 <= i < entries.len() && (#[trigger] entries[i]).user_id@ == uid
}

pub open spec fn entry_index(entries: Seq<ScoreEntry>, uid: Seq<char>) -> int {
    choose|i: int| 0 <= i < entries.len() && (#[trigger] entries[i]).user_id@ == uid
}

/// An answer submission recorded into the table: the last write before the
/// snapshot wins; a submitter outside the roster is ignored.
pub open spec fn spec_ingest(entries: Seq<ScoreEntry>, uid: Seq<char>, a: i32) -> Seq<ScoreEntry> {
    if entry_exists(entries, uid) {
        let i = entry_index(entries, uid);
        entries.update(i, ScoreEntry { user_id: entries[i].user_id, value: a })
    } else {
        entries
    }
}

/// Every answer put back to "not answered".
pub open spec fn spec_reset(entries: Seq<ScoreEntry>) -> Seq<ScoreEntry> {
    entries.map_values(|e: ScoreEntry| ScoreEntry { user_id: e.user_id, value: (-1) as i32 })
}

/// The scores after a question closes: one hundred points for each player
/// whose snapshotted answer equals the correct one.
pub open spec fn spec_scored(
    answers: Seq<ScoreEntry>,
    scores: Seq<ScoreEntry>,
    correct: i32,
) -> Seq<ScoreEntry> {
    Seq::new(
        scores.len(),
        |i: int|
            ScoreEntry {
                user_id: scores[i].user_id,
                value: (scores[i].value + if answers[i].value == correct {
                    100int
                } else {
                    0int
                }) as i32,
            },
    )
}

/// Starts the game for a room once the pack has been read and decoded: a
/// read or decode failure is reported back and nothing is announced; only
/// a successful decode broadcasts the start to the room, registers the
/// room's game entry (unless one raced in) and hands back the runner's
/// initial state, with every answer at -1 and every score at 0.
pub fn launch_game(
    state: &mut Registry,
    room_id: &String,
    pack_result: Result<Pack, String>,
    connection_id: &String,
) -> (r: (Option<(Game, Pack)>, Vec<Outbound>))
    requires
        wf(*old(state)),
    ensures
        wf(*final(state)),
        hosts_full(*old(state)) ==> hosts_full(*final(state)),
        final(state).connections@ == old(state).connections@,
        final(state).users@ == old(state).users@,
        final(state).rooms@ == old(state).rooms@,
        final(state).user_timeouts@ == old(state).user_timeouts@,
        match pack_result {
            Err(text) => {
                &&& final(state).games@ == old(state).games@
                &&& r.0 is None
                &&& r.1@.len() == 1
                &&& crate::handlers::command_handler::is_error_to(
                    r.1@[0],
                    connection_id@,
                    text@,
                    0,
                )
            },
            Ok(pack) => {
                if str_in(old(state).games@, room_id@) {
                    &&& final(state).games@ == old(state).games@
                    &&& r.0 is None
                    &&& r.1@.len() == 1
                    &&& crate::handlers::command_handler::is_error_to(
                        r.1@[0],
                        connection_id@,
                        "Game in progress"@,
                        0,
                    )
                } else {
                    &&& final(state).games@ == old(state).games@.push(
                        final(state).games@.last(),
                    )
                    &&& final(state).games@.last()@ == room_id@
                    &&& r.0 matches Some(gp) && {
                        let g = gp.0;
                        &&& gp.1 == pack
                        &&& g.room_id@ == room_id@
                        &&& game_wf(g)
                        &&& g.roster@ == room_user_list(old(state).users@, room_id@)
                        &&& forall|i: int|
                            0 <= i < g.answers@.len() ==> (#[trigger] g.answers@[i]).value == -1
                        &&& forall|i: int|
                            0 <= i < g.scores@.len() ==> (#[trigger] g.scores@[i]).value == 0
                    }
                    &&& r.1@.len() == 1
                    &&& r.1@[0].response matches Response::startGame
                    &&& views_of(r.1@[0].recipients@) == ids_of(
                        room_user_list(old(state).users@, room_id@),
                    )
                }
            },
        },
{
    let ghost s0 = *state;
    let pack = match pack_result {
        Ok(pack) => pack,
        Err(text) => {
            let response = Response::errorResponse { errorText: text, errorCode: 0 };
            let mut effects: Vec<Outbound> = Vec::new();
            effects.push(send_message(response, connection_id));
            proof {
                assert(effects@ =~= seq![effects@[0]]);
            }
            return (None, effects);
        },
    };
    if contains_str(&state.games, room_id) {
        let response = Response::errorResponse {
            errorText: String::from_str("Game in progress"),
            errorCode: 0,
        };
        let mut effects: Vec<Outbound> = Vec::new();
        effects.push(send_message(response, connection_id));
        proof {
            assert(effects@ =~= seq![effects@[0]]);
        }
        return (None, effects);
    }
    state.games.push(room_id.clone());
    proof {
        assert forall|a: int, b: int|
            0 <= a < b < state.games@.len() implies (#[trigger] state.games@[a])@
            != (#[trigger] state.games@[b])@ by {
            if b == state.games@.len() - 1 {
                assert(state.games@[a] == s0.games@[a]);
            }
        }
    }
    let roster = get_room_user_list(room_id, &state.users);
    let mut answers: Vec<ScoreEntry> = Vec::new();
    let mut scores: Vec<ScoreEntry> = Vec::new();
    let mut k: usize = 0;
    while k < roster.len()
        invariant
            0 <= k <= roster@.len(),
            answers@.len() == k,
            scores@.len() == k,
            forall|i: int|
                0 <= i < k ==> (#[trigger] answers@[i]).user_id@ == roster@[i].id@
                    && answers@[i].value == -1,
            forall|i: int|
                0 <= i < k ==> (#[trigger] scores@[i]).user_id@ == roster@[i].id@
                    && scores@[i].value == 0,
        decreases roster@.len() - k,
    {
        answers.push(ScoreEntry { user_id: roster[k].id.clone(), value: -1 });
        scores.push(ScoreEntry { user_id: roster[k].id.clone(), value: 0 });
        k += 1;
    }
    proof {
        lemma_room_user_list_distinct(s0.users@, room_id@);
    }
    let announcement = broadcast_message_room_all(Response::startGame, &roster);
    let mut effects: Vec<Outbound> = Vec::new();
    effects.push(announcement);
    proof {
        assert(effects@ =~= seq![effects@[0]]);
    }
    let game = Game { room_id: room_id.clone(), roster, answers, scores };
    (Some((game, pack)), effects)
}

impl Game {
    /// Records one answer submission: the submitter's entry takes the new
    /// value, everything else stands.
    pub fn ingest(&mut self, user_id: &String, answer: i32)
        requires
            game_wf(*old(self)),
        ensures
            game_wf(*final(self)),
            final(self).answers@ == spec_ingest(old(self).answers@, user_id@, answer),
            final(self).scores@ == old(self).scores@,
            final(self).roster@ == old(self).roster@,
            final(self).room_id@ == old(self).room_id@,
    {
        let ghost a0 = self.answers@;
        let mut k: usize = 0;
        while k < self.answers.len()
            invariant
                0 <= k <= self.answers@.len(),
                game_wf(*old(self)),
                a0 == old(self).answers@,
                *self == *old(self),
                forall|i: int| 0 <= i < k ==> (#[trigger] a0[i]).user_id@ != user_id@,
            decreases self.answers@.len() - k,
        {
            if self.answers[k].user_id.eq(user_id) {
                let entry = self.answers.remove(k);
                let updated = ScoreEntry { user_id: entry.user_id, value: answer };
                self.answers.insert(k, updated);
                proof {
                    let i = entry_index(a0, user_id@);
                    assert(0 <= i < a0.len() && a0[i].user_id@ == user_id@);
                    if i != k as int {
                        assert(false) by {
                            assert(a0[i].user_id@ == a0[k as int].user_id@);
                            assert(old(self).roster@[i].id@ == old(self).roster@[k as int].id@);
                        }
                    }
                    assert(self.answers@ =~= a0.update(
                        k as int,
                        ScoreEntry { user_id: a0[k as int].user_id, value: answer },
                    ));
                }
                return ;
            }
            k += 1;
        }
        proof {
            assert(!entry_exists(a0, user_id@));
        }
    }

    /// The question announcement that opens a round.
    pub fn question_broadcast(&self, question: &Question) -> (ob: Outbound)
        ensures
            ob.response matches Response::questionResponse { question: q } && q@ == question.text@,
            views_of(ob.recipients@) == ids_of(self.roster@),
    {
        let response = Response::questionResponse { question: question.text.clone() };
        broadcast_message_room_all(response, &self.roster)
    }

    /// The options and countdown length for the current question.
    pub fn answers_broadcast(&self, question: &Question) -> (ob: Outbound)
        ensures
            ob.response matches Response::answersResponse { answers, timer } && answers@
                == question.answers@ && timer == question.duration_sec,
            views_of(ob.recipients@) == ids_of(self.roster@),
    {
        let response = Response::answersResponse {
            answers: clone_answers(&question.answers),
            timer: question.duration_sec,
        };
        broadcast_message_room_all(response, &self.roster)
    }

    /// One tick of the countdown.
    pub fn timer_broadcast(&self, t: i32) -> (ob: Outbound)
        ensures
            ob.response matches Response::timerResponse { timer } && timer == t,
            views_of(ob.recipients@) == ids_of(self.roster@),
    {
        let response = Response::timerResponse { timer: t };
        broadcast_message_room_all(response, &self.roster)
    }

    /// The close of a round: the answer table as it stands at this moment
    /// (the snapshot the scoring works from) and the correct answer.
    pub fn correct_answer_broadcast(&self, correct: i32) -> (ob: Outbound)
        ensures
            ob.response matches Response::correctAnswerResponse { answers, correct_answer }
                && answers@ == self.answers@ && correct_answer == correct,
            views_of(ob.recipients@) == ids_of(self.roster@),
    {
        let response = Response::correctAnswerResponse {
            answers: clone_entries(&self.answers),
            correct_answer: correct,
        };
        broadcast_message_room_all(response, &self.roster)
    }

    /// Awards one hundred points to every player whose snapshotted answer
    /// equals the correct one.
    pub fn apply_scores(&mut self, correct: i32)
        requires
            game_wf(*old(self)),
            forall|i: int|
                0 <= i < old(self).scores@.len() ==> (#[trigger] old(self).scores@[i]).value
                    <= i32::MAX - 100,
        ensures
            game_wf(*final(self)),
            final(self).scores@ == spec_scored(old(self).answers@, old(self).scores@, correct),
            final(self).answers@ == old(self).answers@,
            final(self).roster@ == old(self).roster@,
            final(self).room_id@ == old(self).room_id@,
    {
        let ghost a0 = self.answers@;
        let ghost s0 = self.scores@;
        let mut k: usize = 0;
        while k < self.scores.len()
            invariant
                0 <= k <= self.scores@.len(),
                self.answers@ == a0,
                self.roster@ == old(self).roster@,
                self.room_id@ == old(self).room_id@,
                a0.len() == s0.len(),
                self.scores@.len() == s0.len(),
                forall|i: int|
                    k <= i < s0.len() ==> (#[trigger] self.scores@[i]) == s0[i],
                forall|i: int|
                    0 <= i < s0.len() ==> (#[trigger] s0[i]).value <= i32::MAX - 100,
                forall|i: int|
                    0 <= i < k ==> (#[trigger] self.scores@[i]) == spec_scored(a0, s0, correct)[i],
            decreases self.scores@.len() - k,
        {
            if self.answers[k].value == correct {
                let entry = self.scores.remove(k);
                let updated = ScoreEntry { user_id: entry.user_id, value: entry.value + 100 };
                self.scores.insert(k, updated);
            } else {
                let entry = self.scores.remove(k);
                self.scores.insert(k, entry);
            }
            proof {
                assert(self.scores@[k as int] == spec_scored(a0, s0, correct)[k as int]);
            }
            k += 1;
        }
        proof {
            assert(self.scores@ =~= spec_scored(a0, s0, correct));
        }
    }

    /// The score table after a round.
    pub fn scores_broadcast(&self) -> (ob: Outbound)
        ensures
            ob.response matches Response::scoresResponse { scores } && scores@ == self.scores@,
            views_of(ob.recipients@) == ids_of(self.roster@),
    {
        let response = Response::scoresResponse { scores: clone_entries(&self.scores) };
        broadcast_message_room_all(response, &self.roster)
    }

    /// Clears the answer table for the next question.
    pub fn reset_answers(&mut self)
        requires
            game_wf(*old(self)),
        ensures
            game_wf(*final(self)),
            final(self).answers@ == spec_reset(old(self).answers@),
            final(self).scores@ == old(self).scores@,
            final(self).roster@ == old(self).roster@,
            final(self).room_id@ == old(self).room_id@,
    {
        let ghost a0 = self.answers@;
        let mut k: usize = 0;
        while k < self.answers.len()
            invariant
                0 <= k <= self.answers@.len(),
                self.scores@ == old(self).scores@,
                self.roster@ == old(self).roster@,
                self.room_id@ == old(self).room_id@,
                self.answers@.len() == a0.len(),
                forall|i: int| k <= i < a0.len() ==> (#[trigger] self.answers@[i]) == a0[i],
                forall|i: int|
                    0 <= i < k ==> (#[trigger] self.answers@[i]) == spec_reset(a0)[i],
            decreases self.answers@.len() - k,
        {
            let entry = self.answers.remove(k);
            let updated = ScoreEntry { user_id: entry.user_id, value: -1 };
            self.answers.insert(k, updated);
            k += 1;
        }
        proof {
            assert(self.answers@ =~= spec_reset(a0));
        }
    }
}

/// Where the Game Runner stands inside the current question's pipeline:
/// about to announce the question, about to show its options, counting
/// down with `remaining` seconds on the clock, or about to close the round.
#[derive(Clone, Copy, Debug, PartialEq, Eq)]
pub enum GamePhase {
    Announce,
    Options,
    Countdown { remaining: i32 },
    Close,
}

/// The runner's position in the pack: which question, and which phase of
/// its pipeline comes next.
#[derive(Clone, Copy, Debug, PartialEq, Eq)]
pub struct GameCursor {
    pub question_index: usize,
    pub phase: GamePhase,
}

/// A cursor that still points into the pack, with a countdown that has not
/// run below zero.
pub open spec fn cursor_ok(c: GameCursor, pack: Pack) -> bool {
    &&& c.question_index < pack.questions@.len()
    &&& match c.phase {
        GamePhase::Countdown { remaining } => remaining >= 0,
        _ => true,
    }
}

impl GameCursor {
    /// The position a fresh runner starts from: the first question's
    /// announcement.
    pub fn start() -> (c: GameCursor)
        ensures
            c.question_index == 0,
            c.phase is Announce,
    {
        GameCursor { question_index: 0, phase: GamePhase::Announce }
    }
}

impl Game {
    /// One step of the driver pipeline, in the protocol's order: announce
    /// the question, then its options, then each countdown tick, then the
    /// close of the round (snapshot, scoring, score table, reset). Yields
    /// the deliveries of this step, how many seconds to wait before the
    /// next step, and whether the pack is exhausted. The loop around it
    /// only sleeps and delivers.
    pub fn run_phase(&mut self, pack: &Pack, cursor: &mut GameCursor) -> (r: (Vec<Outbound>, u64, bool))
        requires
            game_wf(*old(self)),
            cursor_ok(*old(cursor), *pack),
            old(cursor).phase is Close ==> forall|i: int|
                0 <= i < old(self).scores@.len() ==> (#[trigger] old(self).scores@[i]).value
                    <= i32::MAX - 100,
        ensures
            game_wf(*final(self)),
            final(self).roster@ == old(self).roster@,
            final(self).room_id@ == old(self).room_id@,
            !r.2 ==> cursor_ok(*final(cursor), *pack),
            ({
                let q = pack.questions@[old(cursor).question_index as int];
                match old(cursor).phase {
                    GamePhase::Announce => {
                        &&& *final(self) == *old(self)
                        &&& r.0@.len() == 1
                        &&& r.0@[0].response matches Response::questionResponse { question }
                            && question@ == q.text@
                        &&& views_of(r.0@[0].recipients@) == ids_of(old(self).roster@)
                        &&& r.1 == 2
                        &&& r.2 == false
                        &&& *final(cursor) == (GameCursor {
                            question_index: old(cursor).question_index,
                            phase: GamePhase::Options,
                        })
                    },
                    GamePhase::Options => {
                        &&& *final(self) == *old(self)
                        &&& r.0@.len() == 1
                        &&& r.0@[0].response matches Response::answersResponse { answers, timer }
                            && answers@ == q.answers@ && timer == q.duration_sec
                        &&& views_of(r.0@[0].recipients@) == ids_of(old(self).roster@)
                        &&& r.1 == 0
                        &&& r.2 == false
                        &&& *final(cursor) == (GameCursor {
                            question_index: old(cursor).question_index,
                            phase: if q.duration_sec < 0 {
                                GamePhase::Close
                            } else {
                                GamePhase::Countdown { remaining: q.duration_sec }
                            },
                        })
                    },
                    GamePhase::Countdown { remaining } => {
                        &&& *final(self) == *old(self)
                        &&& r.0@.len() == 1
                        &&& r.0@[0].response matches Response::timerResponse { timer } && timer
                            == remaining
                        &&& views_of(r.0@[0].recipients@) == ids_of(old(self).roster@)
                        &&& r.1 == 1
                        &&& r.2 == false
                        &&& *final(cursor) == (GameCursor {
                            question_index: old(cursor).question_index,
                            phase: if remaining == 0 {
                                GamePhase::Close
                            } else {
                                GamePhase::Countdown { remaining: (remaining - 1) as i32 }
                            },
                        })
                    },
                    GamePhase::Close => {
                        &&& final(self).answers@ == spec_reset(old(self).answers@)
                        &&& final(self).scores@ == spec_scored(
                            old(self).answers@,
                            old(self).scores@,
                            q.correct_answer,
                        )
                        &&& r.0@.len() == 2
                        &&& r.0@[0].response matches Response::correctAnswerResponse {
                            answers,
                            correct_answer,
                        } && answers@ == old(self).answers@ && correct_answer == q.correct_answer
                        &&& r.0@[1].response matches Response::scoresResponse { scores } && scores@
                            == spec_scored(old(self).answers@, old(self).scores@, q.correct_answer)
                        &&& views_of(r.0@[0].recipients@) == ids_of(old(self).roster@)
                        &&& views_of(r.0@[1].recipients@) == ids_of(old(self).roster@)
                        &&& r.1 == 2
                        &&& *final(cursor) == (GameCursor {
                            question_index: (old(cursor).question_index + 1) as usize,
                            phase: GamePhase::Announce,
                        })
                        &&& r.2 == (old(cursor).question_index + 1 == pack.questions@.len())
                    },
                }
            }),
    {
        let q = &pack.questions[cursor.question_index];
        match cursor.phase {
            GamePhase::Announce => {
                let ob = self.question_broadcast(q);
                let mut effects: Vec<Outbound> = Vec::new();
                effects.push(ob);
                proof {
                    assert(effects@ =~= seq![effects@[0]]);
                }
                cursor.phase = GamePhase::Options;
                (effects, 2, false)
            },
            GamePhase::Options => {
                let ob = self.answers_broadcast(q);
                let mut effects: Vec<Outbound> = Vec::new();
                effects.push(ob);
                proof {
                    assert(effects@ =~= seq![effects@[0]]);
                }
                cursor.phase = if q.duration_sec < 0 {
                    GamePhase::Close
                } else {
                    GamePhase::Countdown { remaining: q.duration_sec }
                };
                (effects, 0, false)
            },
            GamePhase::Countdown { remaining } => {
                let ob = self.timer_broadcast(remaining);
                let mut effects: Vec<Outbound> = Vec::new();
                effects.push(ob);
                proof {
                    assert(effects@ =~= seq![effects@[0]]);
                }
                cursor.phase = if remaining == 0 {
                    GamePhase::Close
                } else {
                    GamePhase::Countdown { remaining: remaining - 1 }
                };
                (effects, 1, false)
            },
            GamePhase::Close => {
                let snapshot = self.correct_answer_broadcast(q.correct_answer);
                self.apply_scores(q.correct_answer);
                let score_table = self.scores_broadcast();
                self.reset_answers();
                let mut effects: Vec<Outbound> = Vec::new();
                effects.push(snapshot);
                effects.push(score_table);
                proof {
                    assert(effects@ =~= seq![effects@[0], effects@[1]]);
                }
                let total = pack.questions.len();
                cursor.question_index = cursor.question_index + 1;
                cursor.phase = GamePhase::Announce;
                let finished = cursor.question_index == total;
                (effects, 2, finished)
            },
        }
    }
}

/// Removes a finished or cancelled game's entry: the room's game is over.
pub fn finish_game(state: &mut Registry, room_id: &String)
    requires
        wf(*old(state)),
    ensures
        wf(*final(state)),
        hosts_full(*old(state)) ==> hosts_full(*final(state)),
        final(state).connections@ == old(state).connections@,
        final(state).users@ == old(state).users@,
        final(state).rooms@ == old(state).rooms@,
        final(state).user_timeouts@ == old(state).user_timeouts@,
        final(state).games@ == crate::registry::spec_remove_str(old(state).games@, room_id@),
{
    let ghost s0 = *state;
    crate::registry::remove_str(&mut state.games, room_id);
    proof {
        crate::registry::lemma_remove_str_membership(s0.games@, room_id@);
    }
}

/// An exact copy of a question's option list.
pub fn clone_answers(v: &Vec<Answer>) -> (r: Vec<Answer>)
    ensures
        r@ == v@,
{
    let r = v.clone();
    proof {
        assert forall|i: int| 0 <= i < v@.len() implies v@[i] == r@[i] by {
            assert(cloned::<Answer>(v[i], r[i]));
        }
        assert(v@ =~= r@);
    }
    r
}

/// An exact copy of an answer or score table.
pub fn clone_entries(v: &Vec<ScoreEntry>) -> (r: Vec<ScoreEntry>)
    ensures
        r@ == v@,
{
    let r = v.clone();
    proof {
        assert forall|i: int| 0 <= i < v@.len() implies v@[i] == r@[i] by {
            assert(cloned::<ScoreEntry>(v[i], r[i]));
        }
        assert(v@ =~= r@);
    }
    r
}

} // verus!
