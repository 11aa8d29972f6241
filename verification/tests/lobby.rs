use gamelogic::{
    add_bot_player, check_playername, choose_trumpf_as, create_lobby, join_lobby, play_as,
    predict_as, start_lobby, state_for, suit_from_input, ApiError, ChooseTrumpfInput,
    CreateInput, EventView, GameView, JoinInput, LobbyView, PlayInput, PlayerView, PredictInput,
    Suit, WizardGame, BAD_REQUEST, CONFLICT, FORBIDDEN,
};

const ID: &str = "ABCDE";

fn new_lobby(name: &str, n: usize) -> WizardGame {
    create_lobby(&CreateInput {
        playername: name.to_string(),
        num_players: n,
    })
    .unwrap()
}

fn join(game: &mut WizardGame, name: &str) -> Result<LobbyView, ApiError> {
    join_lobby(
        ID,
        game,
        &JoinInput {
            playername: name.to_string(),
        },
    )
}

fn names(view: &LobbyView) -> Vec<String> {
    view.players.iter().map(|p| p.name.clone()).collect()
}

fn filled_with_bots_and_started(human: &str) -> WizardGame {
    let mut game = new_lobby(human, 3);
    add_bot_player(ID, &mut game).unwrap();
    add_bot_player(ID, &mut game).unwrap();
    let started = start_lobby(ID, &mut game).unwrap();
    assert!(started.started);
    game
}

#[test]
fn create_lobby_returns_view() {
    let game = new_lobby("Nyuchen", 3);
    let view = LobbyView::from_game(ID.to_string(), &game);
    assert_eq!(view.num_players, 3);
    assert_eq!(view.players.len(), 1);
    assert_eq!(view.players[0].name, "Nyuchen");
    assert!(!view.players[0].is_ai);
    assert!(!view.started);
    assert_eq!(view.id, ID);
}

#[test]
fn create_lobby_validates_num_players() {
    for n in [0usize, 1, 2, 7, 100] {
        let err = create_lobby(&CreateInput {
            playername: "x".to_string(),
            num_players: n,
        })
        .unwrap_err();
        assert_eq!(err.status, BAD_REQUEST, "n={n} should be rejected");
        assert_eq!(err.body.error, "num_players must be between 3 and 6");
    }
    for n in 3..=6 {
        assert!(create_lobby(&CreateInput {
            playername: "x".to_string(),
            num_players: n,
        })
        .is_ok());
    }
}

#[test]
fn create_lobby_rejects_empty_name() {
    let err = create_lobby(&CreateInput {
        playername: "  ".to_string(),
        num_players: 3,
    })
    .unwrap_err();
    assert_eq!(err.status, BAD_REQUEST);
    assert_eq!(err.body.error, "playername must not be empty");
}

#[test]
fn blank_names_are_refused() {
    assert!(check_playername("").is_err());
    assert!(check_playername(" \t\n").is_err());
    assert!(check_playername("\u{3000}").is_err());
    assert!(check_playername(" a ").is_ok());
}

#[test]
fn get_lobby_reflects_join() {
    let mut game = new_lobby("host", 3);
    let joined = join(&mut game, "guest").unwrap();
    assert_eq!(names(&joined), vec!["host", "guest"]);
    assert!(joined.players.iter().all(|p| !p.is_ai));
    assert_eq!(LobbyView::from_game(ID.to_string(), &game), joined);
}

#[test]
fn join_rejects_duplicate_name() {
    let mut game = new_lobby("twin", 3);
    let err = join(&mut game, "twin").unwrap_err();
    assert_eq!(err.status, CONFLICT);
    assert_eq!(err.body.error, "name 'twin' is already taken in this lobby");
    assert_eq!(game.players().len(), 1);
}

#[test]
fn join_rejects_when_full() {
    let mut game = new_lobby("a", 3);
    join(&mut game, "b").unwrap();
    join(&mut game, "c").unwrap();
    let err = join(&mut game, "d").unwrap_err();
    assert_eq!(err.status, CONFLICT);
    assert_eq!(err.body.error, "lobby is full");
}

#[test]
fn add_ai_marks_player_as_ai_and_increments_slot() {
    let mut game = new_lobby("human", 3);
    let after_one = add_bot_player(ID, &mut game).unwrap();
    assert_eq!(after_one.players.len(), 2);
    assert_eq!(
        after_one.players[1],
        PlayerView {
            name: "BOT_1".into(),
            is_ai: true
        }
    );
    let after_two = add_bot_player(ID, &mut game).unwrap();
    assert_eq!(
        after_two.players[2],
        PlayerView {
            name: "BOT_2".into(),
            is_ai: true
        }
    );
}

#[test]
fn bot_takes_first_free_number() {
    let mut game = new_lobby("BOT_1", 4);
    join(&mut game, "BOT_3").unwrap();
    let view = add_bot_player(ID, &mut game).unwrap();
    assert_eq!(view.players[2].name, "BOT_2");
    let view = add_bot_player(ID, &mut game).unwrap();
    assert_eq!(view.players[3].name, "BOT_4");
}

#[test]
fn add_ai_rejected_when_full() {
    let mut game = new_lobby("p0", 3);
    join(&mut game, "p1").unwrap();
    join(&mut game, "p2").unwrap();
    let err = add_bot_player(ID, &mut game).unwrap_err();
    assert_eq!(err.status, CONFLICT);
    assert_eq!(err.body.error, "lobby is full");
}

#[test]
fn add_ai_rejected_after_start() {
    let mut game = filled_with_bots_and_started("p0");
    let err = add_bot_player(ID, &mut game).unwrap_err();
    assert_eq!(err.status, CONFLICT);
    assert_eq!(err.body.error, "game already started");
}

#[test]
fn lobby_filled_with_ais_can_start() {
    let game = filled_with_bots_and_started("solo");
    let view = LobbyView::from_game(ID.to_string(), &game);
    assert!(view.started);
    assert_eq!(view.players.iter().filter(|p| p.is_ai).count(), 2);
    assert_eq!(view.players.iter().filter(|p| !p.is_ai).count(), 1);
}

#[test]
fn start_game_rejects_when_not_full() {
    let mut game = new_lobby("lonely", 3);
    let err = start_lobby(ID, &mut game).unwrap_err();
    assert_eq!(err.status, CONFLICT);
    assert_eq!(err.body.error, "lobby not full (1/3)");
}

#[test]
fn start_game_rejects_when_already_started() {
    let mut game = filled_with_bots_and_started("p0");
    let err = start_lobby(ID, &mut game).unwrap_err();
    assert_eq!(err.status, CONFLICT);
    assert_eq!(err.body.error, "game already started");
}

#[test]
fn join_after_start_is_rejected_as_full() {
    let mut game = new_lobby("p0", 3);
    join(&mut game, "p1").unwrap();
    join(&mut game, "p2").unwrap();
    start_lobby(ID, &mut game).unwrap();
    let err = join(&mut game, "latecomer").unwrap_err();
    assert_eq!(err.status, CONFLICT);
    assert_eq!(err.body.error, "lobby is full");
}

#[test]
fn state_returns_game_view_for_player() {
    let game = filled_with_bots_and_started("human");
    let view = state_for(ID, &game, "human").unwrap();
    assert_eq!(view.lobby_id, ID);
    assert_eq!(view.your_name, "human");
    assert_eq!(view.your_index, 0);
    assert_eq!(view.your_hand.len(), 1);
    assert_eq!(view.round, 1);
    assert_eq!(view.max_rounds, 20);
    assert_eq!(view.players.len(), 3);
    if view.phase == "choose_trumpf" {
        assert!(!view.players[view.current_dealer_index].is_ai);
    }
    assert!(matches!(
        view.phase.as_str(),
        "prediction" | "choose_trumpf"
    ));
}

#[test]
fn state_rejects_unknown_player() {
    let game = filled_with_bots_and_started("human");
    let err = state_for(ID, &game, "ghost").unwrap_err();
    assert_eq!(err.status, FORBIDDEN);
    assert_eq!(err.body.error, "player not in this lobby");
}

#[test]
fn state_rejects_before_start() {
    let game = new_lobby("host", 3);
    let err = state_for(ID, &game, "host").unwrap_err();
    assert_eq!(err.status, CONFLICT);
    assert_eq!(err.body.error, "game not started");
}

#[test]
fn event_log_records_round_progress() {
    let mut game = filled_with_bots_and_started("host");
    let mut state = state_for(ID, &game, "host").unwrap();
    // A Wizard turned up makes the host (the dealer of round 1) choose the
    // trump colour before anyone predicts.
    if state.phase == "choose_trumpf" {
        state = act(&mut game, &state);
    }
    assert!(matches!(
        state.log.first(),
        Some(EventView::RoundStarted { round: 1, .. })
    ));
    let predicted: Vec<usize> = state
        .log
        .iter()
        .filter_map(|e| match e {
            EventView::Predicted { player, .. } => Some(*player),
            _ => None,
        })
        .collect();
    assert!(predicted.contains(&1) && predicted.contains(&2));
}

fn act(game: &mut WizardGame, state: &GameView) -> GameView {
    match state.phase.as_str() {
        "choose_trumpf" => {
            let suit = suit_from_input("blue").unwrap();
            choose_trumpf_as(
                ID,
                game,
                &ChooseTrumpfInput {
                    player: "host".into(),
                    suit: "blue".into(),
                },
                suit,
            )
            .unwrap()
        }
        "prediction" => {
            // predict 0, or 1 where 0 would make the predictions add up to
            // the number of tricks
            let first = predict_as(
                ID,
                game,
                &PredictInput {
                    player: "host".into(),
                    prediction: 0,
                },
            );
            match first {
                Ok(v) => v,
                Err(e) => {
                    assert_eq!(e.status, BAD_REQUEST);
                    assert_eq!(
                        e.body.error,
                        format!("the predictions must not add up to {}", state.round)
                    );
                    predict_as(
                        ID,
                        game,
                        &PredictInput {
                            player: "host".into(),
                            prediction: 1,
                        },
                    )
                    .unwrap()
                }
            }
        }
        "playing" => {
            let pick = state.your_legal_card_indices[0];
            play_as(
                ID,
                game,
                &PlayInput {
                    player: "host".into(),
                    card_index: pick,
                },
            )
            .unwrap()
        }
        other => panic!("unexpected phase in round 1: {other}"),
    }
}

#[test]
fn round_one_human_drives_to_round_two() {
    let mut game = filled_with_bots_and_started("host");
    let mut state = state_for(ID, &game, "host").unwrap();
    let mut safety = 200;
    while state.round == 1 && state.phase != "game_over" {
        safety -= 1;
        assert!(safety > 0, "round 1 didn't advance; stuck in {:?}", state);
        state = act(&mut game, &state);
    }
    assert_eq!(state.round, 2);
    assert!(matches!(
        state.phase.as_str(),
        "choose_trumpf" | "prediction"
    ));
    assert!(state.predictions[state.your_index].is_none());
    assert!(state.tricks_won.iter().all(|&t| t == 0));
    assert!(state.points.iter().any(|&p| p != 0));
    assert!(state
        .log
        .iter()
        .any(|e| matches!(e, EventView::RoundScored { round: 1, .. })));
}

#[test]
fn whole_game_with_bots_reaches_game_over() {
    let mut game = filled_with_bots_and_started("host");
    let mut state = state_for(ID, &game, "host").unwrap();
    let mut safety = 2000;
    while state.phase != "game_over" {
        safety -= 1;
        assert!(safety > 0, "game did not end; stuck in {:?}", state);
        state = act(&mut game, &state);
    }
    assert_eq!(state.round, 20);
    assert!(matches!(state.log.last(), Some(EventView::GameOver)));
}

#[test]
fn out_of_turn_requests_are_refused() {
    let mut game = filled_with_bots_and_started("host");
    let state = state_for(ID, &game, "host").unwrap();
    // the human is never asked to play during the prediction phase
    if state.phase == "prediction" {
        let err = play_as(
            ID,
            &mut game,
            &PlayInput {
                player: "host".into(),
                card_index: 0,
            },
        )
        .unwrap_err();
        assert_eq!(err.status, CONFLICT);
        assert_eq!(err.body.error, "not in playing phase");
        let err = predict_as(
            ID,
            &mut game,
            &PredictInput {
                player: "host".into(),
                prediction: 2,
            },
        )
        .unwrap_err();
        assert_eq!(err.status, BAD_REQUEST);
        assert_eq!(err.body.error, "prediction must be between 0 and 1");
    }
    let err = predict_as(
        ID,
        &mut game,
        &PredictInput {
            player: "ghost".into(),
            prediction: 0,
        },
    )
    .unwrap_err();
    assert_eq!(err.status, FORBIDDEN);
}

#[test]
fn choose_trumpf_outside_its_phase_is_refused() {
    let mut game = filled_with_bots_and_started("host");
    let state = state_for(ID, &game, "host").unwrap();
    if state.phase != "choose_trumpf" {
        let err = choose_trumpf_as(
            ID,
            &mut game,
            &ChooseTrumpfInput {
                player: "host".into(),
                suit: "red".into(),
            },
            Suit::Red,
        )
        .unwrap_err();
        assert_eq!(err.status, CONFLICT);
        assert_eq!(err.body.error, "not in choose-trumpf phase");
    }
}

#[test]
fn suit_names_are_read() {
    assert_eq!(suit_from_input("red").unwrap(), Suit::Red);
    assert_eq!(suit_from_input("yellow").unwrap(), Suit::Yellow);
    assert_eq!(suit_from_input("green").unwrap(), Suit::Green);
    assert_eq!(suit_from_input("blue").unwrap(), Suit::Blue);
    let err = suit_from_input("Blue").unwrap_err();
    assert_eq!(err.status, BAD_REQUEST);
    assert_eq!(err.body.error, "suit must be red/yellow/green/blue");
}


#[test]
fn suits_in_list_order() {
    assert_eq!(gamelogic::server::suit_at(0), Suit::Red);
    assert_eq!(gamelogic::server::suit_at(1), Suit::Yellow);
    assert_eq!(gamelogic::server::suit_at(2), Suit::Green);
    assert_eq!(gamelogic::server::suit_at(3), Suit::Blue);
    let s = gamelogic::random_suit();
    assert!(matches!(s, Suit::Red | Suit::Yellow | Suit::Green | Suit::Blue));
}
