use quiz_game_rust::handlers::command_handler::FollowUp;
use quiz_game_rust::handlers::command_handler::apply_authorized_command;
use quiz_game_rust::handlers::command_handler::apply_unauthorized_command;
use quiz_game_rust::handlers::connection_handler::register_connection;
use quiz_game_rust::handlers::game_handler::finish_game;
use quiz_game_rust::handlers::game_handler::launch_game;
use quiz_game_rust::handlers::game_handler::GameCursor;
use quiz_game_rust::handlers::game_handler::GamePhase;
use quiz_game_rust::models::communication::AuthorizedCommand;
use quiz_game_rust::models::communication::CommandTokenPair;
use quiz_game_rust::models::communication::Response;
use quiz_game_rust::models::communication::UnauthorizedCommand;
use quiz_game_rust::models::game::Answer;
use quiz_game_rust::models::game::Pack;
use quiz_game_rust::models::game::Question;
use quiz_game_rust::registry::Registry;

fn two_member_room(state: &mut Registry) -> (String, String) {
    let c1 = "c1".to_string();
    register_connection(state, &c1);
    let effects = apply_unauthorized_command(
        state,
        UnauthorizedCommand::createRoom { name: "A".to_string(), avatarPath: "".to_string() },
        &c1,
        "room-1".to_string(),
        0,
        1000,
    );
    let token_a = match &effects[0].response {
        Response::createRoomResponse { token, .. } => token.clone(),
        other => panic!("unexpected response: {:?}", other),
    };
    let c2 = "c2".to_string();
    register_connection(state, &c2);
    let effects = apply_unauthorized_command(
        state,
        UnauthorizedCommand::joinRoom {
            name: "B".to_string(),
            avatarPath: "".to_string(),
            roomId: "room-1".to_string(),
        },
        &c2,
        "unused".to_string(),
        1,
        1000,
    );
    let token_b = match &effects[0].response {
        Response::joinRoomResponse { token, .. } => token.clone(),
        other => panic!("unexpected response: {:?}", other),
    };
    (token_a, token_b)
}

fn one_question_pack() -> Pack {
    Pack {
        name: "p".to_string(),
        questions: vec![Question {
            text: "q1".to_string(),
            answers: vec![
                Answer { number: 1, text: "a".to_string() },
                Answer { number: 2, text: "b".to_string() },
            ],
            correct_answer: 1,
            duration_sec: 2,
        }],
    }
}

fn answer_of(game: &quiz_game_rust::handlers::game_handler::Game, uid: &str) -> i32 {
    for e in game.answers.iter() {
        if e.user_id == uid {
            return e.value;
        }
    }
    panic!("no entry for {}", uid);
}

fn score_of(game: &quiz_game_rust::handlers::game_handler::Game, uid: &str) -> i32 {
    for e in game.scores.iter() {
        if e.user_id == uid {
            return e.value;
        }
    }
    panic!("no entry for {}", uid);
}

#[test]
fn non_host_cannot_start_but_host_can() {
    let mut state = Registry::new();
    let (token_a, token_b) = two_member_room(&mut state);
    let mut conn_b = "c2".to_string();
    let (effects, follow) = apply_authorized_command(
        &mut state,
        CommandTokenPair {
            command: AuthorizedCommand::startGame { packPath: "packs/p.json".to_string() },
            token: token_b,
        },
        &mut conn_b,
        1500,
    );
    assert_eq!(follow, FollowUp::Nothing);
    match &effects[0].response {
        Response::errorResponse { errorText, errorCode } => {
            assert_eq!(errorText, "Only host can start game");
            assert_eq!(*errorCode, 0);
        },
        other => panic!("unexpected response: {:?}", other),
    }

    let mut conn_a = "c1".to_string();
    let (effects, follow) = apply_authorized_command(
        &mut state,
        CommandTokenPair {
            command: AuthorizedCommand::startGame { packPath: "packs/p.json".to_string() },
            token: token_a,
        },
        &mut conn_a,
        1500,
    );
    match follow {
        FollowUp::LoadPack { room_id, pack_path } => {
            assert_eq!(room_id, "room-1");
            assert_eq!(pack_path, "packs/p.json");
        },
        other => panic!("unexpected follow-up: {:?}", other),
    }
    // Nothing is broadcast yet: the pack must be read and decoded first.
    assert!(effects.is_empty());
}

#[test]
fn one_question_game_scores_flat_hundred() {
    let mut state = Registry::new();
    let (_token_a, token_b) = two_member_room(&mut state);
    let room = "room-1".to_string();
    let c1 = "c1".to_string();
    let (started, effects) = launch_game(&mut state, &room, Ok(one_question_pack()), &c1);
    // Only a successfully decoded pack announces the start, to the roster.
    assert!(matches!(effects[0].response, Response::startGame));
    assert_eq!(effects[0].recipients, vec!["c1".to_string(), "c2".to_string()]);
    let (mut game, pack) = started.unwrap();
    assert_eq!(game.room_id, "room-1");
    assert_eq!(answer_of(&game, "c1"), -1);
    assert_eq!(answer_of(&game, "c2"), -1);
    assert_eq!(score_of(&game, "c1"), 0);
    assert_eq!(score_of(&game, "c2"), 0);

    let q = &pack.questions[0];
    let ob = game.question_broadcast(q);
    match &ob.response {
        Response::questionResponse { question } => assert_eq!(question, "q1"),
        other => panic!("unexpected response: {:?}", other),
    }
    let ob = game.answers_broadcast(q);
    match &ob.response {
        Response::answersResponse { answers, timer } => {
            assert_eq!(answers.len(), 2);
            assert_eq!(answers[0].number, 1);
            assert_eq!(*timer, 2);
        },
        other => panic!("unexpected response: {:?}", other),
    }
    for t in [2, 1, 0] {
        let ob = game.timer_broadcast(t);
        match &ob.response {
            Response::timerResponse { timer } => assert_eq!(*timer, t),
            other => panic!("unexpected response: {:?}", other),
        }
    }

    // A answers correctly, B does not; a writeAnswer submission routes
    // through the dispatcher as a forwarded game command.
    let mut conn_b = "c2".to_string();
    let (_, follow) = apply_authorized_command(
        &mut state,
        CommandTokenPair {
            command: AuthorizedCommand::writeAnswer { answer: 2 },
            token: token_b,
        },
        &mut conn_b,
        1500,
    );
    match follow {
        FollowUp::ForwardAnswer { room_id, command } => {
            assert_eq!(room_id, "room-1");
            assert_eq!(command.user_id, "c2");
            game.ingest(&command.user_id, command.answer);
        },
        other => panic!("unexpected follow-up: {:?}", other),
    }
    game.ingest(&"c1".to_string(), 1);

    let ob = game.correct_answer_broadcast(q.correct_answer);
    match &ob.response {
        Response::correctAnswerResponse { answers, correct_answer } => {
            assert_eq!(*correct_answer, 1);
            assert_eq!(answers.iter().find(|e| e.user_id == "c1").unwrap().value, 1);
            assert_eq!(answers.iter().find(|e| e.user_id == "c2").unwrap().value, 2);
        },
        other => panic!("unexpected response: {:?}", other),
    }
    game.apply_scores(q.correct_answer);
    let ob = game.scores_broadcast();
    match &ob.response {
        Response::scoresResponse { scores } => {
            assert_eq!(scores.iter().find(|e| e.user_id == "c1").unwrap().value, 100);
            assert_eq!(scores.iter().find(|e| e.user_id == "c2").unwrap().value, 0);
        },
        other => panic!("unexpected response: {:?}", other),
    }
    game.reset_answers();
    assert_eq!(answer_of(&game, "c1"), -1);
    assert_eq!(answer_of(&game, "c2"), -1);

    finish_game(&mut state, &room);
    assert!(state.games.is_empty());
}

#[test]
fn late_answer_counts_for_the_next_question() {
    let mut state = Registry::new();
    two_member_room(&mut state);
    let room = "room-1".to_string();
    let c1 = "c1".to_string();
    let (started, _) = launch_game(&mut state, &room, Ok(one_question_pack()), &c1);
    let (mut game, _) = started.unwrap();

    game.ingest(&"c1".to_string(), 1);
    game.ingest(&"c2".to_string(), 2);
    // The closing snapshot for this question is taken at emission.
    let ob = game.correct_answer_broadcast(1);
    match &ob.response {
        Response::correctAnswerResponse { answers, .. } => {
            assert_eq!(answers.iter().find(|e| e.user_id == "c1").unwrap().value, 1);
        },
        other => panic!("unexpected response: {:?}", other),
    }
    game.apply_scores(1);
    game.reset_answers();

    // A submission arriving after the snapshot and reset lands in the
    // cleared table: it is an answer to the next question.
    game.ingest(&"c1".to_string(), 2);
    let ob = game.correct_answer_broadcast(2);
    match &ob.response {
        Response::correctAnswerResponse { answers, .. } => {
            assert_eq!(answers.iter().find(|e| e.user_id == "c1").unwrap().value, 2);
            assert_eq!(answers.iter().find(|e| e.user_id == "c2").unwrap().value, -1);
        },
        other => panic!("unexpected response: {:?}", other),
    }
}

#[test]
fn join_is_refused_while_a_game_runs() {
    let mut state = Registry::new();
    two_member_room(&mut state);
    let room = "room-1".to_string();
    let c1 = "c1".to_string();
    let (started, _) = launch_game(&mut state, &room, Ok(one_question_pack()), &c1);
    assert!(started.is_some());

    let c3 = "c3".to_string();
    register_connection(&mut state, &c3);
    let effects = apply_unauthorized_command(
        &mut state,
        UnauthorizedCommand::joinRoom {
            name: "C".to_string(),
            avatarPath: "".to_string(),
            roomId: "room-1".to_string(),
        },
        &c3,
        "unused".to_string(),
        0,
        1000,
    );
    match &effects[0].response {
        Response::errorResponse { errorText, .. } => assert_eq!(errorText, "Game is in progress"),
        other => panic!("unexpected response: {:?}", other),
    }
}

#[test]
fn second_launch_for_the_same_room_is_refused() {
    let mut state = Registry::new();
    two_member_room(&mut state);
    let room = "room-1".to_string();
    let c1 = "c1".to_string();
    let (started, _) = launch_game(&mut state, &room, Ok(one_question_pack()), &c1);
    assert!(started.is_some());
    let (second, effects) = launch_game(&mut state, &room, Ok(one_question_pack()), &c1);
    assert!(second.is_none());
    assert_eq!(state.games.len(), 1);
    match &effects[0].response {
        Response::errorResponse { errorText, .. } => assert_eq!(errorText, "Game in progress"),
        other => panic!("unexpected response: {:?}", other),
    }
}

#[test]
fn failed_pack_load_reports_and_registers_nothing() {
    let mut state = Registry::new();
    two_member_room(&mut state);
    let room = "room-1".to_string();
    let c1 = "c1".to_string();
    let (started, effects) = launch_game(
        &mut state,
        &room,
        Err("No such file or directory".to_string()),
        &c1,
    );
    assert!(started.is_none());
    assert!(state.games.is_empty());
    match &effects[0].response {
        Response::errorResponse { errorText, errorCode } => {
            assert_eq!(errorText, "No such file or directory");
            assert_eq!(*errorCode, 0);
        },
        other => panic!("unexpected response: {:?}", other),
    }
}

#[test]
fn phase_machine_follows_the_protocol_order() {
    let mut state = Registry::new();
    two_member_room(&mut state);
    let room = "room-1".to_string();
    let c1 = "c1".to_string();
    let (started, _) = launch_game(&mut state, &room, Ok(one_question_pack()), &c1);
    let (mut game, pack) = started.unwrap();
    game.ingest(&"c1".to_string(), 1);
    game.ingest(&"c2".to_string(), 2);

    let mut cursor = GameCursor::start();
    let mut tags: Vec<String> = Vec::new();
    let mut delays: Vec<u64> = Vec::new();
    loop {
        assert!(!matches!(cursor.phase, GamePhase::Close)
            || game.scores.iter().all(|e| e.value <= i32::MAX - 100));
        let (effects, delay, finished) = game.run_phase(&pack, &mut cursor);
        for ob in effects.iter() {
            tags.push(match &ob.response {
                Response::questionResponse { .. } => "question".to_string(),
                Response::answersResponse { .. } => "answers".to_string(),
                Response::timerResponse { timer } => format!("timer {}", timer),
                Response::correctAnswerResponse { .. } => "correct".to_string(),
                Response::scoresResponse { .. } => "scores".to_string(),
                other => panic!("unexpected response: {:?}", other),
            });
        }
        delays.push(delay);
        if finished {
            break;
        }
    }
    assert_eq!(
        tags,
        vec![
            "question".to_string(),
            "answers".to_string(),
            "timer 2".to_string(),
            "timer 1".to_string(),
            "timer 0".to_string(),
            "correct".to_string(),
            "scores".to_string(),
        ]
    );
    assert_eq!(delays, vec![2, 0, 1, 1, 1, 2]);
    assert_eq!(score_of(&game, "c1"), 100);
    assert_eq!(score_of(&game, "c2"), 0);
    assert_eq!(answer_of(&game, "c1"), -1);
}
