//! Rules and state machine of the trick-taking card game Wizard: cards and
//! deck, trick resolution, scoring, the round/phase state machine, and the
//! decisions of the lobby server (views, lobby validation, bot turns).
#![allow(unused_imports)]

pub mod cards;
pub mod game;
pub mod laws;
pub mod model;
mod rng;
pub mod rules;
pub mod server;
pub mod text;
pub mod views;

pub use cards::{Card, Deck, Suit, DECK_SIZE, JESTER_VALUE, WIZARD_VALUE};
pub use game::{
    legal_card_indices, AddPlayerError, GameLogicError, PlayCardError, Player, PredictionError,
    WizardGame,
};
pub use model::{GameEvent, GamePhase};
pub use rules::{determine_trick_winner, lead_suit_in_trick, round_score_delta, violates_follow_suit};
pub use server::{
    add_bot_player, check_playername, choose_trumpf_as, create_lobby, drive_bot_actions,
    join_lobby, lobby_not_found, play_as, player_not_in_lobby, predict_as, random_suit,
    start_lobby, state_for, suit_from_input, ApiError, ChooseTrumpfInput,
    CreateInput, JoinInput, PlayInput, PredictInput, BAD_REQUEST, CONFLICT, FORBIDDEN, NOT_FOUND,
};
pub use views::{
    find_player, phase_name, player_view, suit_name, CardView, ErrorBody, EventView, GameView,
    LobbyView, PlayedCard, PlayerView,
};
