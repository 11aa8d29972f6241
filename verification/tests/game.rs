use gamelogic::{
    AddPlayerError, GameEvent, GameLogicError, GamePhase, Player, PlayCardError, PredictionError,
    WizardGame,
};

fn full_game(n: usize) -> WizardGame {
    let mut game = WizardGame::new(n, "p0");
    for i in 1..n {
        game.add_player(Player::new(&format!("p{i}"))).unwrap();
    }
    game
}

#[test]
fn rounds_depend_on_player_count() {
    assert_eq!(full_game(3).max_rounds(), 20);
    assert_eq!(full_game(4).max_rounds(), 15);
    assert_eq!(full_game(5).max_rounds(), 12);
    assert_eq!(full_game(6).max_rounds(), 10);
}

#[test]
fn lobby_ids_are_five_letters_or_digits() {
    for _ in 0..20 {
        let id = WizardGame::create_id();
        assert_eq!(id.chars().count(), 5);
        assert!(id.chars().all(|c| c.is_ascii_alphanumeric()));
    }
}

#[test]
fn new_game_is_waiting_for_players() {
    let game = WizardGame::new(3, "JARV1S");
    assert!(!game.is_started());
    assert!(!game.is_full());
    assert_eq!(game.round_number(), 0);
    assert_eq!(*game.game_phase(), GamePhase::NotStarted);
    assert_eq!(game.players()[0].name(), "JARV1S");
    assert!(!game.players()[0].is_bot());
    assert!(game.event_log().is_empty());
    assert!(game.trumpf().is_none());
}

#[test]
fn add_player_error_converts_to_game_logic_error() {
    let e: GameLogicError = AddPlayerError::LobbyFull { max_players: 3 }.into();
    assert_eq!(
        e,
        GameLogicError::AddPlayer(AddPlayerError::LobbyFull { max_players: 3 })
    );
}

#[test]
fn dealer_rotates_each_round() {
    let mut game = full_game(3);
    game.start_game();
    let mut dealers = vec![game.dealer_index()];
    for _ in 0..4 {
        game.start_new_round();
        dealers.push(game.dealer_index());
    }
    assert_eq!(dealers, vec![0, 1, 2, 0, 1]);
}

#[test]
fn first_to_act_sits_after_the_dealer() {
    let mut game = full_game(4);
    game.start_game();
    if *game.game_phase() == GamePhase::Prediction {
        assert_eq!(game.current_player_index(), (game.dealer_index() + 1) % 4);
    }
    assert_eq!(game.current_trick_starter(), (game.dealer_index() + 1) % 4);
}

#[test]
fn round_start_is_logged_with_the_turned_card() {
    let mut game = full_game(3);
    game.start_game();
    match &game.event_log()[0] {
        GameEvent::RoundStarted {
            round,
            dealer,
            flipped_card,
        } => {
            assert_eq!(*round, 1);
            assert_eq!(*dealer, 0);
            assert_eq!(game.dealer_index(), 0);
            if let Some(c) = flipped_card {
                if c.is_wizard() {
                    assert_eq!(*game.game_phase(), GamePhase::ChooseTrumpf);
                } else {
                    assert_eq!(*game.game_phase(), GamePhase::Prediction);
                }
            }
        }
        other => panic!("unexpected first event {other:?}"),
    }
}

#[test]
fn last_round_turns_up_no_card() {
    let mut game = full_game(6);
    game.start_game();
    for _ in 1..10 {
        game.start_new_round();
    }
    assert_eq!(game.round_number(), 10);
    assert!(game.trumpf().is_none());
    for p in game.players() {
        assert_eq!(p.hand().len(), 10);
    }
    assert_eq!(*game.game_phase(), GamePhase::Prediction);
}

#[test]
fn predictions_checked_for_phase_turn_and_range() {
    let mut game = full_game(3);
    assert_eq!(
        game.place_prediction(0, 0),
        Err(PredictionError::WrongPhase)
    );
    game.start_game();
    if *game.game_phase() == GamePhase::ChooseTrumpf {
        game.choose_trumpf(gamelogic::Suit::Green);
    }
    let cur = game.current_player_index();
    assert_eq!(
        game.place_prediction((cur + 1) % 3, 0),
        Err(PredictionError::NotYourTurn)
    );
    assert_eq!(
        game.place_prediction(cur, 2),
        Err(PredictionError::OutOfRange { max: 1 })
    );
    assert_eq!(game.place_prediction(cur, 1), Ok(()));
    assert_eq!(game.players()[cur].prediction(), Some(1));
    assert_eq!(game.current_player_index(), (cur + 1) % 3);
}

#[test]
fn play_card_checks_phase_turn_and_index() {
    let mut game = full_game(3);
    assert_eq!(game.play_card(0, 0), Err(PlayCardError::WrongPhase));
    game.start_game();
    if *game.game_phase() == GamePhase::ChooseTrumpf {
        game.choose_trumpf(gamelogic::Suit::Red);
    }
    for _ in 0..3 {
        let cur = game.current_player_index();
        game.place_prediction(cur, 0).unwrap();
    }
    assert_eq!(*game.game_phase(), GamePhase::Playing);
    let cur = game.current_player_index();
    assert_eq!(
        game.play_card((cur + 1) % 3, 0),
        Err(PlayCardError::NotYourTurn)
    );
    assert_eq!(
        game.play_card(cur, 1),
        Err(PlayCardError::BadIndex {
            index: 1,
            hand_size: 1
        })
    );
    assert_eq!(game.play_card(cur, 0), Ok(()));
    assert_eq!(game.current_trick().len(), 1);
    assert!(game.players()[cur].hand().is_empty());
}

#[test]
fn player_reset_clears_the_round() {
    let mut p = Player::new_bot("BOT_1");
    p.hand = vec![gamelogic::Card::new(gamelogic::Suit::Red, 3)];
    p.reset();
    assert!(p.hand().is_empty());
    assert_eq!(p.prediction(), None);
    assert_eq!(p.tricks_won(), 0);
    assert_eq!(p.points(), 0);
    assert!(p.is_bot());
}

#[test]
fn error_messages_read_as_documented() {
    assert_eq!(
        AddPlayerError::LobbyFull { max_players: 3 }.message(),
        "The lobby was already at max capacity 3/3."
    );
    assert_eq!(
        AddPlayerError::NameTaken {
            name: "kaipai5".to_string()
        }
        .message(),
        "kaipai5 already taken."
    );
    assert_eq!(
        GameLogicError::AddPlayer(AddPlayerError::LobbyFull { max_players: 4 }).message(),
        "The lobby was already at max capacity 4/4."
    );
    assert_eq!(PredictionError::WrongPhase.message(), "not in prediction phase");
    assert_eq!(PredictionError::NotYourTurn.message(), "not your turn");
    assert_eq!(
        PredictionError::OutOfRange { max: 12 }.message(),
        "prediction must be between 0 and 12"
    );
    assert_eq!(PlayCardError::WrongPhase.message(), "not in playing phase");
    assert_eq!(
        PlayCardError::BadIndex {
            index: 7,
            hand_size: 3
        }
        .message(),
        "card index 7 out of range (hand has 3 cards)"
    );
    assert_eq!(PlayCardError::MustFollowSuit.message(), "must follow lead suit");
}

#[test]
fn decimal_strings() {
    assert_eq!(gamelogic::text::decimal_string(0), "0");
    assert_eq!(gamelogic::text::decimal_string(7), "7");
    assert_eq!(gamelogic::text::decimal_string(10), "10");
    assert_eq!(gamelogic::text::decimal_string(1234567), "1234567");
}

#[test]
fn last_prediction_may_not_even_the_bids() {
    let mut game = full_game(3);
    game.start_game();
    if *game.game_phase() == GamePhase::ChooseTrumpf {
        game.choose_trumpf(gamelogic::Suit::Yellow);
    }
    let first = game.current_player_index();
    assert_eq!(game.forbidden_prediction(first), None);
    game.place_prediction(first, 1).unwrap();
    let second = game.current_player_index();
    game.place_prediction(second, 0).unwrap();
    let last = game.current_player_index();
    assert_eq!(game.forbidden_prediction(last), Some(0));
    assert_eq!(
        game.place_prediction(last, 0),
        Err(PredictionError::SumMatchesTricks { tricks: 1 })
    );
    assert_eq!(*game.game_phase(), GamePhase::Prediction);
    assert_eq!(game.place_prediction(last, 1), Ok(()));
    assert_eq!(*game.game_phase(), GamePhase::Playing);
    assert_eq!(
        PredictionError::SumMatchesTricks { tricks: 1 }.message(),
        "the predictions must not add up to 1"
    );
}

#[test]
fn no_trump_card_only_in_final_round() {
    let mut game = full_game(5);
    game.start_game();
    for _ in 1..12 {
        assert!(game.trumpf().is_some());
        game.start_new_round();
    }
    assert_eq!(game.round_number(), 12);
    assert!(game.trumpf().is_none());
}
