use gamelogic::{
    legal_card_indices, AddPlayerError, Card, GamePhase, PlayCardError, Player, Suit, WizardGame,
};

#[test]
fn gamelogic_add_player_succeeds() {
    let mut lobby = WizardGame::new(3, "Nyuchen");

    let hase = Player::new("Wuschelhase");
    lobby.add_player(hase).unwrap();

    assert!(lobby
        .players
        .into_iter()
        .eq(vec![Player::new("Nyuchen"), Player::new("Wuschelhase")]));
}

#[test]
fn gamelogic_add_player_full_lobby_fails() {
    let mut lobby = WizardGame::new(3, "CallMeJooooooo");
    lobby.add_player(Player::new("Justus_Fluegel")).unwrap();
    lobby.add_player(Player::new("gast_lurksAALot")).unwrap();

    assert_eq!(
        lobby.add_player(Player::new("Adri86rose")).unwrap_err(),
        AddPlayerError::LobbyFull { max_players: 3 }
    );
}

#[test]
fn gamelogic_add_player_name_taken_fails() {
    let mut lobby = WizardGame::new(3, "kaipai5");
    assert_eq!(
        lobby.add_player(Player::new("kaipai5")).unwrap_err(),
        AddPlayerError::NameTaken {
            name: "kaipai5".to_string()
        }
    );
}

#[test]
fn deal_cards_per_round() {
    let mut lobby = WizardGame::new(3, "lil_maeve");
    lobby.add_player(Player::new("ThePseud0")).unwrap();
    lobby.add_player(Player::new("kredit0r")).unwrap();

    lobby.start_new_round();
    assert_eq!(lobby.round_number(), 1);
    for player in &lobby.players {
        assert_eq!(player.hand.len(), 1);
    }

    lobby.start_new_round();
    assert_eq!(lobby.round_number(), 2);
    for player in &lobby.players {
        assert_eq!(player.hand.len(), 2);
    }
}

/// drive a full round of round_number 1 (one card each) by playing the first legal card.
#[test]
fn round_one_plays_to_completion() {
    let mut game = WizardGame::new(3, "a");
    game.add_player(Player::new("b")).unwrap();
    game.add_player(Player::new("c")).unwrap();
    game.start_game();

    // resolve choose_trumpf if needed by picking blue arbitrarily
    if *game.game_phase() == GamePhase::ChooseTrumpf {
        game.choose_trumpf(Suit::Blue);
    }
    assert_eq!(*game.game_phase(), GamePhase::Prediction);

    // each player predicts 0
    for _ in 0..3 {
        let idx = game.current_player_index();
        game.place_prediction(idx, 0).unwrap();
    }
    assert_eq!(*game.game_phase(), GamePhase::Playing);

    // each player plays the first card in their hand
    for _ in 0..3 {
        let idx = game.current_player_index();
        let legal = legal_card_indices(&game, idx);
        assert!(!legal.is_empty());
        game.play_card(idx, legal[0]).unwrap();
    }

    // after round 1 finishes, scoring runs and round 2 begins
    assert_eq!(game.round_number(), 2);
    assert!(matches!(
        game.game_phase(),
        GamePhase::ChooseTrumpf | GamePhase::Prediction
    ));
    // someone won, someone got penalized for predicting 0
    let any_nonzero = game.players().iter().any(|p| p.points() != 0);
    assert!(any_nonzero, "scoring should mark prediction hits/misses");
}

#[test]
fn follow_suit_enforced() {
    let mut game = WizardGame::new(3, "a");
    game.add_player(Player::new("b")).unwrap();
    game.add_player(Player::new("c")).unwrap();
    game.start_game();
    if *game.game_phase() == GamePhase::ChooseTrumpf {
        game.choose_trumpf(Suit::Blue);
    }

    // jump straight into a fabricated playing state we can reason about
    for _ in 0..3 {
        let idx = game.current_player_index();
        game.place_prediction(idx, 0).unwrap();
    }
    assert_eq!(*game.game_phase(), GamePhase::Playing);

    // Construct a hand for current player with a non-special card; pretend the trick lead
    // a specific suit they have — then a different-suit non-wizard play should be rejected.
    let cp = game.current_player_index();
    // Replace hands and trick deterministically.
    game.players[cp].hand = vec![Card::new(Suit::Red, 5), Card::new(Suit::Blue, 5)];
    game.current_trick = vec![((cp + 2) % 3, Card::new(Suit::Red, 3))];
    // Playing blue while holding red and red was led should error
    let err = game.play_card(cp, 1).unwrap_err();
    assert_eq!(err, PlayCardError::MustFollowSuit);
    // Playing red (index 0) is legal
    game.play_card(cp, 0).unwrap();
}
