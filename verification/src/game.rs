use vstd::prelude::*;

use crate::cards::{
    card_le, cards_sorted, fresh_deck, sort_cards, spec_is_wizard, Card, Deck, Suit, DECK_SIZE,
    WIZARD_VALUE,
};
use crate::model::{
    bid_of, evens_the_bids, others_predicted, without_bid,
    all_hands_empty, all_predicted, cards_accounted, cards_out, choose_trumpf_step, core_valid,
    dealer_of, dealt_hand, flip_after_deal, held_of, in_round, lemma_deal_position,
    lemma_rounds_fit, lemma_sum_const, lemma_sum_ext,
    lemma_sum_nonneg, lemma_sum_nonneg_le, lemma_sum_update, max_rounds_for, next_seat,
    opening_phase, place_card, play_card_outcome, points_cap, predict_step, prediction_or_zero,
    resolve_trick_step, round_deltas, score_round_step, start_round, sum_by, total_held,
    total_tricks, tricks_of, valid, lemma_small_counts, turn_order, EventRecord, GameEvent, GamePhase, GameState, PlayerState,
};
use crate::laws::{law_play_keeps_turn_order, law_predictions_go_round_once, lemma_start_round_turn_order};
use crate::rng::{push_char, random_alphanumeric};
use crate::text::{decimal, decimal_string};
use crate::rules::{
    breaks_follow_suit, determine_trick_winner, is_legal_play, lead_suit, lead_suit_in_trick,
    legal_index_list, legal_indices, lemma_winner_props, round_delta, round_score_delta, trick_winner, trump_of,
    violates_follow_suit, winner_pos,
};

verus! {

/// Why a player could not join.
#[derive(Debug, PartialEq, Eq)]
pub enum AddPlayerError {
    LobbyFull { max_players: usize },
    NameTaken { name: String },
}

/// Errors of the game logic as a whole.
#[derive(Debug, PartialEq, Eq)]
pub enum GameLogicError {
    AddPlayer(AddPlayerError),
}

impl From<AddPlayerError> for GameLogicError {
    fn from(e: AddPlayerError) -> (r: Self) {
        GameLogicError::AddPlayer(e)
    }
}

impl vstd::std_specs::convert::FromSpecImpl<AddPlayerError> for GameLogicError {
    open spec fn obeys_from_spec() -> bool {
        true
    }

    open spec fn from_spec(e: AddPlayerError) -> GameLogicError {
        GameLogicError::AddPlayer(e)
    }
}

/// Why a prediction was refused.
#[derive(Debug, Clone, Copy, PartialEq, Eq, Structural)]
pub enum PredictionError {
    WrongPhase,
    NotYourTurn,
    OutOfRange { max: usize },
    /// The last prediction of the round would make all predictions add up
    /// to the number of tricks, `tricks`.
    SumMatchesTricks { tricks: usize },
}

/// Why a card could not be played.
#[derive(Debug, Clone, Copy, PartialEq, Eq, Structural)]
pub enum PlayCardError {
    WrongPhase,
    NotYourTurn,
    BadIndex { index: usize, hand_size: usize },
    MustFollowSuit,
}

/// The text that describes why a player could not join.
pub open spec fn add_player_message(e: AddPlayerError) -> Seq<char> {
    match e {
        AddPlayerError::LobbyFull { max_players } => "The lobby was already at max capacity "@
            + decimal(max_players as nat) + "/"@ + decimal(max_players as nat) + "."@,
        AddPlayerError::NameTaken { name } => name@ + " already taken."@,
    }
}

/// The text that describes why a prediction was refused.
pub open spec fn prediction_message(e: PredictionError) -> Seq<char> {
    match e {
        PredictionError::WrongPhase => "not in prediction phase"@,
        PredictionError::NotYourTurn => "not your turn"@,
        PredictionError::OutOfRange { max } => "prediction must be between 0 and "@ + decimal(
            max as nat,
        ),
        PredictionError::SumMatchesTricks { tricks } => "the predictions must not add up to "@
            + decimal(tricks as nat),
    }
}

/// The text that describes why a card could not be played.
pub open spec fn play_card_message(e: PlayCardError) -> Seq<char> {
    match e {
        PlayCardError::WrongPhase => "not in playing phase"@,
        PlayCardError::NotYourTurn => "not your turn"@,
        PlayCardError::BadIndex { index, hand_size } => "card index "@ + decimal(index as nat)
            + " out of range (hand has "@ + decimal(hand_size as nat) + " cards)"@,
        PlayCardError::MustFollowSuit => "must follow lead suit"@,
    }
}

impl AddPlayerError {
    /// The error as text.
    pub fn message(&self) -> (r: String)
        ensures
            r@ == add_player_message(*self),
    {
        match self {
            AddPlayerError::LobbyFull { max_players } => {
                let mut s = "The lobby was already at max capacity ".to_owned();
                let a = decimal_string(*max_players);
                s.append(a.as_str());
                s.append("/");
                s.append(a.as_str());
                s.append(".");
                s
            },
            AddPlayerError::NameTaken { name } => {
                let mut s = name.clone();
                s.append(" already taken.");
                s
            },
        }
    }
}

impl GameLogicError {
    /// The error as text: that of the error it wraps.
    pub fn message(&self) -> (r: String)
        ensures
            match self {
                GameLogicError::AddPlayer(e) => r@ == add_player_message(*e),
            },
    {
        match self {
            GameLogicError::AddPlayer(e) => e.message(),
        }
    }
}

impl PredictionError {
    /// The error as text.
    pub fn message(&self) -> (r: String)
        ensures
            r@ == prediction_message(*self),
    {
        match self {
            PredictionError::WrongPhase => "not in prediction phase".to_owned(),
            PredictionError::NotYourTurn => "not your turn".to_owned(),
            PredictionError::OutOfRange { max } => {
                let mut s = "prediction must be between 0 and ".to_owned();
                let a = decimal_string(*max);
                s.append(a.as_str());
                s
            },
            PredictionError::SumMatchesTricks { tricks } => {
                let mut s = "the predictions must not add up to ".to_owned();
                let a = decimal_string(*tricks);
                s.append(a.as_str());
                s
            },
        }
    }
}

impl PlayCardError {
    /// The error as text.
    pub fn message(&self) -> (r: String)
        ensures
            r@ == play_card_message(*self),
    {
        match self {
            PlayCardError::WrongPhase => "not in playing phase".to_owned(),
            PlayCardError::NotYourTurn => "not your turn".to_owned(),
            PlayCardError::BadIndex { index, hand_size } => {
                let mut s = "card index ".to_owned();
                let a = decimal_string(*index);
                let b = decimal_string(*hand_size);
                s.append(a.as_str());
                s.append(" out of range (hand has ");
                s.append(b.as_str());
                s.append(" cards)");
                s
            },
            PlayCardError::MustFollowSuit => "must follow lead suit".to_owned(),
        }
    }
}

/// A seat at the table.
#[derive(Debug, PartialEq, Eq)]
pub struct Player {
    name: String,
    pub hand: Vec<Card>,
    prediction: Option<usize>,
    tricks_won: usize,
    points: i32,
    is_bot: bool,
}

impl View for Player {
    type V = PlayerState;

    closed spec fn view(&self) -> PlayerState {
        PlayerState {
            name: self.name@,
            hand: self.hand@,
            prediction: self.prediction,
            tricks_won: self.tricks_won,
            points: self.points,
            is_bot: self.is_bot,
        }
    }
}

/// A newly seated player: no cards, no prediction, no tricks, no points.
pub open spec fn fresh_player(name: Seq<char>, is_bot: bool) -> PlayerState {
    PlayerState {
        name,
        hand: Seq::empty(),
        prediction: None,
        tricks_won: 0,
        points: 0,
        is_bot,
    }
}

impl Player {
    pub fn new(name: &str) -> (p: Self)
        ensures
            p@ == fresh_player(name@, false),
    {
        Player {
            name: name.to_owned(),
            hand: Vec::new(),
            prediction: None,
            tricks_won: 0,
            points: 0,
            is_bot: false,
        }
    }

    pub fn new_bot(name: &str) -> (p: Self)
        ensures
            p@ == fresh_player(name@, true),
    {
        let mut p = Self::new(name);
        p.is_bot = true;
        p
    }

    pub fn name(&self) -> (r: &str)
        ensures
            r@ == self@.name,
    {
        self.name.as_str()
    }

    pub fn is_bot(&self) -> (b: bool)
        ensures
            b == self@.is_bot,
    {
        self.is_bot
    }

    pub fn hand(&self) -> (h: &[Card])
        ensures
            h@ == self@.hand,
    {
        self.hand.as_slice()
    }

    pub fn prediction(&self) -> (p: Option<usize>)
        ensures
            p == self@.prediction,
    {
        self.prediction
    }

    pub fn tricks_won(&self) -> (t: usize)
        ensures
            t == self@.tricks_won,
    {
        self.tricks_won
    }

    pub fn points(&self) -> (p: i32)
        ensures
            p == self@.points,
    {
        self.points
    }

    /// Clears hand, prediction and trick count for a new round; keeps name,
    /// points and whether the seat is a bot.
    pub fn reset(&mut self)
        ensures
            final(self)@ == (PlayerState {
                hand: Seq::empty(),
                prediction: None,
                tricks_won: 0,
                ..old(self)@
            }),
    {
        self.hand = Vec::new();
        self.prediction = None;
        self.tricks_won = 0;
    }

    /// Sorts the hand by colour (red, yellow, green, blue), then by value.
    pub fn sort_hand(&mut self)
        ensures
            cards_sorted(final(self)@.hand),
            final(self)@.hand.to_multiset() == old(self)@.hand.to_multiset(),
            final(self)@ == (PlayerState { hand: final(self)@.hand, ..old(self)@ }),
    {
        self.hand = sort_cards(&self.hand);
    }
}

/// A game of Wizard, from the lobby to the final score.
#[derive(Debug, PartialEq, Eq)]
pub struct WizardGame {
    num_players: usize,
    pub players: Vec<Player>,
    current_player_index: usize,
    current_trick_starter: usize,
    game_phase: GamePhase,
    round_number: usize,
    deck: Deck,
    trumpf: Option<Card>,
    pub current_trick: Vec<(usize, Card)>,
    event_log: Vec<GameEvent>,
}

pub open spec fn players_view(ps: Seq<Player>) -> Seq<PlayerState> {
    ps.map_values(|p: Player| p@)
}

pub open spec fn events_view(es: Seq<GameEvent>) -> Seq<EventRecord> {
    es.map_values(|e: GameEvent| e@)
}

impl View for WizardGame {
    type V = GameState;

    closed spec fn view(&self) -> GameState {
        GameState {
            num_players: self.num_players,
            players: players_view(self.players@),
            current_player_index: self.current_player_index,
            current_trick_starter: self.current_trick_starter,
            game_phase: self.game_phase,
            round_number: self.round_number,
            deck: self.deck@,
            trumpf: self.trumpf,
            current_trick: self.current_trick@,
            event_log: events_view(self.event_log@),
        }
    }
}

/// Some player already has this name.
pub open spec fn name_taken(ps: Seq<PlayerState>, name: Seq<char>) -> bool {
    exists|i: int| 0 <= i < ps.len() && (#[trigger] ps[i]).name == name
}

/// The state a game is in before a round is dealt: a full table, a deck of
/// all cards, and totals that a round can still add to.
pub open spec fn ready_to_deal(g: GameState) -> bool {
    &&& g.num_players >= 1
    &&& g.players.len() == g.num_players
    &&& g.deck.len() == DECK_SIZE
    &&& g.deck.to_multiset() == fresh_deck().to_multiset()
    &&& forall|i: int|
        0 <= i < g.players.len() ==> -700 * (g.round_number + 3) <= (#[trigger] g.players[i]).points
            <= 700 * (g.round_number + 3)
}

/// A character of a lobby id: an ASCII letter or digit.
pub open spec fn is_id_char(c: char) -> bool {
    ('A' <= c <= 'Z') || ('a' <= c <= 'z') || ('0' <= c <= '9')
}

/// A new lobby for `num_players` seats with its first player called `name`.
pub open spec fn new_game_state(num_players: usize, name: Seq<char>) -> GameState {
    GameState {
        num_players,
        players: seq![fresh_player(name, false)],
        current_player_index: 0,
        current_trick_starter: 0,
        game_phase: GamePhase::NotStarted,
        round_number: 0,
        deck: fresh_deck(),
        trumpf: None,
        current_trick: Seq::empty(),
        event_log: Seq::empty(),
    }
}

impl WizardGame {
    /// A random lobby id: five ASCII letters or digits.
    pub fn create_id() -> (id: String)
        ensures
            id@.len() == 5,
            forall|i: int| 0 <= i < 5 ==> is_id_char(#[trigger] id@[i]),
    {
        let password_len: usize = 5;
        let mut id = String::new();
        let mut i: usize = 0;
        while i < password_len
            invariant
                i <= password_len,
                password_len == 5,
                id@.len() == i,
                forall|k: int| 0 <= k < i ==> is_id_char(#[trigger] id@[k]),
            decreases password_len - i,
        {
            let b = random_alphanumeric();
            let c = b as char;
            push_char(&mut id, c);
            i = i + 1;
        }
        id
    }

    /// A lobby for `num_players` seats with its first player.
    pub fn new(num_players: usize, player_name: &str) -> (g: Self)
        ensures
            g@ == new_game_state(num_players, player_name@),
            num_players >= 1 ==> valid(g@),
    {
        let new_player = Player::new(player_name);
        let mut players: Vec<Player> = Vec::new();
        players.push(new_player);
        let g = WizardGame {
            num_players,
            players,
            current_player_index: 0,
            current_trick_starter: 0,
            game_phase: GamePhase::NotStarted,
            round_number: 0,
            deck: Deck::new(),
            trumpf: None,
            current_trick: Vec::new(),
            event_log: Vec::new(),
        };
        assert(g@.players =~= seq![fresh_player(player_name@, false)]);
        assert(g@.event_log =~= Seq::empty());
        g
    }

    pub fn event_log(&self) -> (r: &[GameEvent])
        ensures
            events_view(r@) == self@.event_log,
    {
        self.event_log.as_slice()
    }

    pub fn num_players(&self) -> (n: usize)
        ensures
            n == self@.num_players,
    {
        self.num_players
    }

    pub fn players(&self) -> (r: &[Player])
        ensures
            players_view(r@) == self@.players,
    {
        self.players.as_slice()
    }

    pub fn is_started(&self) -> (b: bool)
        ensures
            b == (self@.game_phase != GamePhase::NotStarted),
    {
        self.game_phase != GamePhase::NotStarted
    }

    pub fn is_full(&self) -> (b: bool)
        ensures
            b == (self@.players.len() >= self@.num_players),
    {
        self.players.len() >= self.num_players
    }

    pub fn round_number(&self) -> (r: usize)
        ensures
            r == self@.round_number,
    {
        self.round_number
    }

    /// Rounds in a game: as many as the 60 cards allow.
    pub fn max_rounds(&self) -> (m: usize)
        requires
            self@.num_players >= 1,
        ensures
            m == max_rounds_for(self@.num_players as int),
    {
        DECK_SIZE / self.num_players
    }

    /// The card that sets the trump colour (for a Wizard, the chosen colour).
    pub fn trumpf(&self) -> (r: Option<&Card>)
        ensures
            match r {
                Some(c) => self@.trumpf == Some(*c),
                None => self@.trumpf is None,
            },
    {
        match &self.trumpf {
            Some(c) => Some(c),
            None => None,
        }
    }

    pub fn current_player_index(&self) -> (i: usize)
        ensures
            i == self@.current_player_index,
    {
        self.current_player_index
    }

    /// Dealer for the current round. Rotates clockwise each round starting from player 0.
    pub fn dealer_index(&self) -> (d: usize)
        requires
            self@.num_players >= 1,
            self@.round_number >= 1,
        ensures
            d == dealer_of(self@.round_number as int, self@.num_players as int),
    {
        (self.round_number - 1) % self.num_players
    }

    pub fn current_trick_starter(&self) -> (i: usize)
        ensures
            i == self@.current_trick_starter,
    {
        self.current_trick_starter
    }

    pub fn game_phase(&self) -> (p: &GamePhase)
        ensures
            *p == self@.game_phase,
    {
        &self.game_phase
    }

    pub fn current_trick(&self) -> (t: &[(usize, Card)])
        ensures
            t@ == self@.current_trick,
    {
        self.current_trick.as_slice()
    }

    /// Seats `player` unless the lobby is full or the name is taken.
    pub fn add_player(&mut self, player: Player) -> (r: Result<(), AddPlayerError>)
        ensures
            old(self)@.players.len() >= old(self)@.num_players ==> r == Err::<(), AddPlayerError>(
                AddPlayerError::LobbyFull { max_players: old(self)@.num_players },
            ),
            old(self)@.players.len() < old(self)@.num_players && name_taken(
                old(self)@.players,
                player@.name,
            ) ==> (r matches Err(AddPlayerError::NameTaken { name }) && name@ == player@.name),
            old(self)@.players.len() < old(self)@.num_players && !name_taken(
                old(self)@.players,
                player@.name,
            ) ==> r is Ok,
            r is Ok ==> final(self)@ == (GameState {
                players: old(self)@.players.push(player@),
                ..old(self)@
            }),
            r is Err ==> final(self)@ == old(self)@,
            valid(old(self)@) && player@.points == 0 ==> valid(final(self)@),
    {
        if self.players.len() >= self.num_players {
            return Err(AddPlayerError::LobbyFull { max_players: self.num_players });
        }
        let mut i: usize = 0;
        while i < self.players.len()
            invariant
                i <= self.players@.len(),
                self.players@.len() < self.num_players,
                self@ == old(self)@,
                players_view(self.players@) == self@.players,
                forall|k: int| 0 <= k < i ==> (#[trigger] self@.players[k]).name != player@.name,
            decreases self.players.len() - i,
        {
            if self.players[i].name == player.name {
                assert(self@.players[i as int] == self.players@[i as int]@);
                return Err(AddPlayerError::NameTaken { name: player.name });
            }
            assert(self@.players[i as int] == self.players@[i as int]@);
            i = i + 1;
        }
        let ghost old_view = self@;
        self.players.push(player);
        assert(self@.players =~= old_view.players.push(player@));
        assert(self@ =~= GameState { players: old_view.players.push(player@), ..old_view });
        Ok(())
    }
}

impl Deck {
    /// Deals `round_number` cards to each player, seat after seat, from the
    /// top of the deck; returns the next card, if any is left, to set trump.
    fn deal_cards(&self, players: &mut Vec<Player>, round_number: usize) -> (flip: Option<Card>)
        requires
            old(players)@.len() * round_number <= self@.len(),
            self@.len() == DECK_SIZE,
        ensures
            final(players)@.len() == old(players)@.len(),
            forall|i: int|
                0 <= i < old(players)@.len() ==> (#[trigger] final(players)@[i])@ == (PlayerState {
                    hand: old(players)@[i]@.hand + dealt_hand(self@, i, round_number as int),
                    ..old(players)@[i]@
                }),
            flip == flip_after_deal(self@, old(players)@.len() as int, round_number as int),
    {
        let n = players.len();
        let r = round_number;
        for pi in 0..n
            invariant
                n == players@.len(),
                n == old(players)@.len(),
                n * r <= self@.len(),
                self@.len() == DECK_SIZE,
                forall|i: int|
                    0 <= i < pi ==> (#[trigger] players@[i])@ == (PlayerState {
                        hand: old(players)@[i]@.hand + dealt_hand(self@, i, r as int),
                        ..old(players)@[i]@
                    }),
                forall|i: int| pi <= i < n ==> #[trigger] players@[i] == old(players)@[i],
        {
            proof {
                if r > 0 {
                    lemma_deal_position(pi as int, 0, n as int, r as int);
                } else {
                    assert(pi * r == 0) by (nonlinear_arith)
                        requires
                            r == 0,
                    ;
                }
            }
            assert(old(players)@[pi as int]@.hand + self@.subrange(pi * r, pi * r + 0)
                =~= old(players)@[pi as int]@.hand);
            for k in 0..r
                invariant
                    n == players@.len(),
                    n == old(players)@.len(),
                    pi < n,
                    n * r <= self@.len(),
                    self@.len() == DECK_SIZE,
                    forall|i: int|
                        0 <= i < pi ==> (#[trigger] players@[i])@ == (PlayerState {
                            hand: old(players)@[i]@.hand + dealt_hand(self@, i, r as int),
                            ..old(players)@[i]@
                        }),
                    forall|i: int| pi < i < n ==> #[trigger] players@[i] == old(players)@[i],
                    players@[pi as int]@ == (PlayerState {
                        hand: old(players)@[pi as int]@.hand + self@.subrange(
                            pi * r,
                            pi * r + k,
                        ),
                        ..old(players)@[pi as int]@
                    }),
            {
                proof {
                    lemma_deal_position(pi as int, k as int, n as int, r as int);
                }
                let c = self.card_at(pi * r + k);
                let ghost before = players@[pi as int]@;
                players[pi].hand.push(c);
                assert(players@[pi as int]@.hand =~= old(players)@[pi as int]@.hand
                    + self@.subrange(pi * r, pi * r + k + 1));
                assert(players@[pi as int]@ =~= (PlayerState {
                    hand: old(players)@[pi as int]@.hand + self@.subrange(pi * r, pi * r + k + 1),
                    ..old(players)@[pi as int]@
                }));
            }
            proof {
                if r > 0 {
                    lemma_deal_position(pi as int, 0, n as int, r as int);
                }
            }
            assert(players@[pi as int]@ =~= (PlayerState {
                hand: old(players)@[pi as int]@.hand + dealt_hand(self@, pi as int, r as int),
                ..old(players)@[pi as int]@
            }));
        }
        let total = n * r;
        if total < DECK_SIZE {
            Some(self.card_at(total))
        } else {
            None
        }
    }
}

impl WizardGame {
    /// Deals the next round (see `start_round`) from a freshly shuffled deck.
    #[verifier::loop_isolation(false)]
    pub fn start_new_round(&mut self)
        requires
            old(self)@.num_players >= 1,
            old(self)@.round_number < usize::MAX,
            old(self)@.players.len() * (old(self)@.round_number + 1) <= DECK_SIZE,
            old(self)@.deck.len() == DECK_SIZE,
        ensures
            final(self)@ == start_round(old(self)@, final(self)@.deck),
            final(self)@.deck.to_multiset() == old(self)@.deck.to_multiset(),
            ready_to_deal(old(self)@) ==> valid(final(self)@) && cards_accounted(final(self)@)
                && turn_order(final(self)@),
    {
        let ghost g0 = self@;
        self.round_number = self.round_number + 1;
        let dealer = self.dealer_index();
        self.current_player_index = (dealer + 1) % self.num_players;
        self.current_trick_starter = self.current_player_index;
        self.deck.shuffle();
        proof {
            vstd::seq_lib::to_multiset_len(self.deck@);
            vstd::seq_lib::to_multiset_len(g0.deck);
        }
        let len = self.players.len();
        let ghost g1 = self@;
        let mut i: usize = 0;
        while i < len
            invariant
                self@ == (GameState { players: self@.players, ..g1 }),
                self.deck@ == g1.deck,
                self.round_number == g1.round_number,
                self.num_players == g1.num_players,
                len == self.players@.len(),
                len == g0.players.len(),
                i <= len,
                forall|k: int|
                    0 <= k < i ==> (#[trigger] self.players@[k])@ == (PlayerState {
                        hand: Seq::empty(),
                        prediction: None,
                        tricks_won: 0,
                        ..g0.players[k]
                    }),
                forall|k: int| i <= k < len ==> (#[trigger] self.players@[k])@ == g0.players[k],
            decreases len - i,
        {
            self.players[i].reset();
            i = i + 1;
        }
        self.current_trick = Vec::new();
        let flip = self.deck.deal_cards(&mut self.players, self.round_number);
        self.trumpf = flip;
        self.event_log.push(
            GameEvent::RoundStarted { round: self.round_number, dealer, flipped_card: flip },
        );
        let phase = match flip {
            Some(c) => if c.is_wizard() {
                GamePhase::ChooseTrumpf
            } else {
                GamePhase::Prediction
            },
            None => GamePhase::Prediction,
        };
        self.game_phase = phase;
        proof {
            let g = self@;
            let expected = start_round(g0, g.deck);
            let r = g.round_number as int;
            assert forall|k: int| 0 <= k < len implies #[trigger] g.players[k] == expected.players[k] by {
                assert(g.players[k] == self.players@[k]@);
                assert(Seq::<Card>::empty() + dealt_hand(g.deck, k, r) =~= dealt_hand(g.deck, k, r));
            }
            assert(g.players =~= expected.players);
            assert(g.event_log =~= expected.event_log);
            assert(g.current_trick =~= expected.current_trick);
            assert(g =~= expected);
            if ready_to_deal(g0) {
                vstd::seq_lib::to_multiset_len(g.deck);
                lemma_start_round_turn_order(g0, g.deck);
                let n = g.num_players as int;
                lemma_rounds_fit(n, r);
                assert forall|k: int| 0 <= k < len implies (#[trigger] held_of()(g.players[k])) == r by {
                    lemma_deal_position(k, 0, n, r);
                }
                lemma_sum_const(g.players, held_of(), r);
                assert forall|k: int| 0 <= k < len implies (#[trigger] tricks_of()(g.players[k])) == 0 by {}
                lemma_sum_const(g.players, tricks_of(), 0);
                assert(cards_out(g) == n * r);
                assert forall|k: int| 0 <= k < g.players.len() implies -points_cap(g) <= (
                #[trigger] g.players[k]).points <= points_cap(g) by {
                    assert(g.players[k].points == g0.players[k].points);
                }
            }
        }
    }

    /// Deals the first round.
    pub fn start_game(&mut self)
        requires
            old(self)@.num_players >= 1,
            old(self)@.round_number < usize::MAX,
            old(self)@.players.len() * (old(self)@.round_number + 1) <= DECK_SIZE,
            old(self)@.deck.len() == DECK_SIZE,
        ensures
            final(self)@ == start_round(old(self)@, final(self)@.deck),
            final(self)@.deck.to_multiset() == old(self)@.deck.to_multiset(),
            ready_to_deal(old(self)@) ==> valid(final(self)@) && cards_accounted(final(self)@)
                && turn_order(final(self)@),
    {
        self.start_new_round();
    }

    /// The dealer names the trump colour after a Wizard was turned up.
    pub fn choose_trumpf(&mut self, suit: Suit)
        requires
            old(self)@.num_players >= 1,
            old(self)@.round_number >= 1,
            old(self)@.game_phase == GamePhase::ChooseTrumpf,
        ensures
            final(self)@ == choose_trumpf_step(old(self)@, suit),
            valid(old(self)@) ==> valid(final(self)@),
            cards_accounted(old(self)@) ==> cards_accounted(final(self)@),
            turn_order(old(self)@) && old(self)@.game_phase == GamePhase::ChooseTrumpf ==> turn_order(
                final(self)@,
            ),
    {
        let ghost g0 = self@;
        let chooser = self.dealer_index();
        self.trumpf = Some(Card::new(suit, WIZARD_VALUE));
        self.game_phase = GamePhase::Prediction;
        self.event_log.push(GameEvent::TrumpfChosen { chooser, suit });
        assert(self@.event_log =~= choose_trumpf_step(g0, suit).event_log);
        assert(self@ =~= choose_trumpf_step(g0, suit));
    }
}

impl WizardGame {
    /// The one prediction that seat `player_index` may not make because it
    /// would be the last of the round and make all predictions add up to
    /// the number of tricks; `None` when no prediction would do that.
    pub fn forbidden_prediction(&self, player_index: usize) -> (r: Option<usize>)
        requires
            valid(self@),
            self@.game_phase != GamePhase::NotStarted,
            player_index < self@.players.len(),
        ensures
            forall|p: usize| evens_the_bids(self@, player_index as int, p) <==> r == Some(p),
            r matches Some(b) ==> b <= self@.round_number,
    {
        let ghost g = self@;
        let ghost pi = player_index as int;
        let ghost wb = without_bid(g.players, pi);
        proof {
            lemma_small_counts(g);
            lemma_rounds_fit(g.num_players as int, g.round_number as int);
            assert(g.num_players <= g.num_players * g.round_number) by (nonlinear_arith)
                requires
                    g.round_number >= 1,
            ;
        }
        let n = self.players.len();
        let mut all = true;
        let mut sum: usize = 0;
        let mut i: usize = 0;
        assert(wb.take(0) =~= Seq::<PlayerState>::empty());
        while i < n
            invariant
                n == g.players.len(),
                n <= DECK_SIZE,
                i <= n,
                self@ == g,
                pi == player_index,
                pi < n,
                wb == without_bid(g.players, pi),
                wb.len() == n,
                players_view(self.players@) == g.players,
                forall|k: int|
                    0 <= k < g.players.len() ==> 0 <= prediction_or_zero(#[trigger] g.players[k])
                        <= DECK_SIZE,
                sum == sum_by(wb.take(i as int), bid_of()),
                sum <= DECK_SIZE * i,
                all <==> (forall|j: int| 0 <= j < i && j != pi ==> (#[trigger] g.players[j]).prediction is Some),
            decreases n - i,
        {
            assert(wb.take(i + 1).drop_last() =~= wb.take(i as int));
            assert(wb.take(i + 1).last() == wb[i as int]);
            assert(g.players[i as int] == self.players@[i as int]@);
            let ghost s0 = sum;
            if i != player_index {
                assert(wb[i as int] == g.players[i as int]);
                match self.players[i].prediction {
                    Some(x) => {
                        assert(prediction_or_zero(g.players[i as int]) == x);
                        sum = sum + x;
                    },
                    None => {
                        all = false;
                    },
                }
            }
            proof {
                assert(sum_by(wb.take(i + 1), bid_of()) == sum_by(wb.take(i as int), bid_of())
                    + bid_of()(wb[i as int]));
                assert(sum == s0 + bid_of()(wb[i as int]));
            }
            i = i + 1;
        }
        assert(wb.take(n as int) =~= wb);
        proof {
            assert forall|p: usize| #![auto] evens_the_bids(g, pi, p) <==> (all && sum + p == g.round_number) by {
                let q = PlayerState { prediction: Some(p), ..g.players[pi] };
                let ps = g.players.update(pi, q);
                assert(wb.update(pi, q) =~= ps);
                lemma_sum_update(wb, bid_of(), pi, q);
                assert(all_predicted(ps) <==> others_predicted(g.players, pi)) by {
                    if others_predicted(g.players, pi) {
                        assert forall|j: int| 0 <= j < ps.len() implies (#[trigger] ps[j]).prediction is Some by {
                            if j != pi {
                                assert(ps[j] == g.players[j]);
                            }
                        }
                    }
                    if all_predicted(ps) {
                        assert forall|j: int| 0 <= j < g.players.len() && j != pi implies (#[trigger] g.players[j]).prediction is Some by {
                            assert(ps[j] == g.players[j]);
                        }
                    }
                }
            }
        }
        if all && sum <= self.round_number {
            Some(self.round_number - sum)
        } else {
            None
        }
    }

    /// Player `player_index` predicts how many tricks they will take.
    pub fn place_prediction(&mut self, player_index: usize, prediction: usize) -> (r: Result<
        (),
        PredictionError,
    >)
        requires
            valid(old(self)@),
        ensures
            old(self)@.game_phase != GamePhase::Prediction ==> r == Err::<(), PredictionError>(
                PredictionError::WrongPhase,
            ),
            old(self)@.game_phase == GamePhase::Prediction && player_index
                != old(self)@.current_player_index ==> r == Err::<(), PredictionError>(
                PredictionError::NotYourTurn,
            ),
            old(self)@.game_phase == GamePhase::Prediction && player_index
                == old(self)@.current_player_index && prediction > old(self)@.round_number ==> r
                == Err::<(), PredictionError>(
                PredictionError::OutOfRange { max: old(self)@.round_number },
            ),
            old(self)@.game_phase == GamePhase::Prediction && player_index
                == old(self)@.current_player_index && prediction <= old(self)@.round_number
                && evens_the_bids(old(self)@, player_index as int, prediction) ==> r == Err::<
                (),
                PredictionError,
            >(PredictionError::SumMatchesTricks { tricks: old(self)@.round_number }),
            old(self)@.game_phase == GamePhase::Prediction && player_index
                == old(self)@.current_player_index && prediction <= old(self)@.round_number
                && !evens_the_bids(old(self)@, player_index as int, prediction) ==> r is Ok,
            r is Ok ==> final(self)@ == predict_step(old(self)@, player_index as int, prediction),
            r is Err ==> final(self)@ == old(self)@,
            valid(final(self)@),
            cards_accounted(old(self)@) ==> cards_accounted(final(self)@),
            turn_order(old(self)@) ==> turn_order(final(self)@),
    {
        if self.game_phase != GamePhase::Prediction {
            return Err(PredictionError::WrongPhase);
        }
        if player_index != self.current_player_index {
            return Err(PredictionError::NotYourTurn);
        }
        if prediction > self.round_number {
            return Err(PredictionError::OutOfRange { max: self.round_number });
        }
        if let Some(f) = self.forbidden_prediction(player_index) {
            if f == prediction {
                return Err(PredictionError::SumMatchesTricks { tricks: self.round_number });
            }
        }
        let ghost g0 = self@;
        let n = self.num_players;
        self.players[player_index].prediction = Some(prediction);
        self.event_log.push(GameEvent::Predicted { player: player_index, prediction });
        self.current_player_index = (self.current_player_index + 1) % n;
        let ghost ps = g0.players.update(
            player_index as int,
            PlayerState { prediction: Some(prediction), ..g0.players[player_index as int] },
        );
        assert(self@.players =~= ps);
        let mut all = true;
        let mut i: usize = 0;
        while i < self.players.len()
            invariant
                i <= self.players@.len(),
                self@.players == ps,
                all <==> (forall|k: int| 0 <= k < i ==> (#[trigger] ps[k]).prediction is Some),
            decreases self.players.len() - i,
        {
            assert(ps[i as int] == self.players@[i as int]@);
            if self.players[i].prediction.is_none() {
                all = false;
            }
            i = i + 1;
        }
        if all {
            self.game_phase = GamePhase::Playing;
            let dealer = self.dealer_index();
            self.current_player_index = (dealer + 1) % n;
        }
        proof {
            let g = self@;
            assert(g.event_log =~= predict_step(g0, player_index as int, prediction).event_log);
            assert(g =~= predict_step(g0, player_index as int, prediction));
            assert forall|k: int| 0 <= k < g.players.len() implies #[trigger] tricks_of()(g.players[k])
                == tricks_of()(g0.players[k]) by {}
            assert forall|k: int| 0 <= k < g.players.len() implies #[trigger] held_of()(g.players[k])
                == held_of()(g0.players[k]) by {}
            lemma_sum_ext(g.players, g0.players, tricks_of());
            lemma_sum_ext(g.players, g0.players, held_of());
            assert(cards_out(g) == cards_out(g0));
            if turn_order(g0) {
                law_predictions_go_round_once(g0, player_index as int, prediction);
            }
        }
        Ok(())
    }

    /// Player `player_index` plays card `card_index` of their hand.
    pub fn play_card(&mut self, player_index: usize, card_index: usize) -> (r: Result<
        (),
        PlayCardError,
    >)
        requires
            valid(old(self)@),
        ensures
            old(self)@.game_phase != GamePhase::Playing ==> r == Err::<(), PlayCardError>(
                PlayCardError::WrongPhase,
            ),
            old(self)@.game_phase == GamePhase::Playing && player_index
                != old(self)@.current_player_index ==> r == Err::<(), PlayCardError>(
                PlayCardError::NotYourTurn,
            ),
            old(self)@.game_phase == GamePhase::Playing && player_index
                == old(self)@.current_player_index && card_index >= old(
                self,
            )@.players[player_index as int].hand.len() ==> r == Err::<(), PlayCardError>(
                PlayCardError::BadIndex {
                    index: card_index,
                    hand_size: old(self)@.players[player_index as int].hand.len() as usize,
                },
            ),
            old(self)@.game_phase == GamePhase::Playing && player_index
                == old(self)@.current_player_index && card_index < old(
                self,
            )@.players[player_index as int].hand.len() ==> (r == Err::<(), PlayCardError>(
                PlayCardError::MustFollowSuit,
            ) <==> breaks_follow_suit(
                old(self)@.players[player_index as int].hand[card_index as int],
                old(self)@.players[player_index as int].hand,
                lead_suit(old(self)@.current_trick),
            )),
            old(self)@.game_phase == GamePhase::Playing && player_index
                == old(self)@.current_player_index && card_index < old(
                self,
            )@.players[player_index as int].hand.len() ==> (r is Ok <==> !breaks_follow_suit(
                old(self)@.players[player_index as int].hand[card_index as int],
                old(self)@.players[player_index as int].hand,
                lead_suit(old(self)@.current_trick),
            )),
            r is Ok ==> play_card_outcome(
                old(self)@,
                player_index as int,
                card_index as int,
                final(self)@,
            ),
            r is Err ==> final(self)@ == old(self)@,
            valid(final(self)@),
            cards_accounted(old(self)@) ==> final(self)@.game_phase == GamePhase::GameOver
                || cards_accounted(final(self)@),
            turn_order(old(self)@) ==> turn_order(final(self)@),
    {
        if self.game_phase != GamePhase::Playing {
            return Err(PlayCardError::WrongPhase);
        }
        if player_index != self.current_player_index {
            return Err(PlayCardError::NotYourTurn);
        }
        let ghost g0 = self@;
        assert(g0.players[player_index as int] == self.players@[player_index as int]@);
        let hand_size = self.players[player_index].hand.len();
        if card_index >= hand_size {
            return Err(PlayCardError::BadIndex { index: card_index, hand_size });
        }
        let lead = lead_suit_in_trick(&self.current_trick);
        if violates_follow_suit(
            &self.players[player_index].hand[card_index],
            &self.players[player_index].hand,
            lead,
        ) {
            return Err(PlayCardError::MustFollowSuit);
        }
        let card = self.players[player_index].hand.remove(card_index);
        self.event_log.push(GameEvent::CardPlayed { player: player_index, card });
        self.current_trick.push((player_index, card));
        proof {
            let g = self@;
            let g1 = place_card(g0, player_index as int, card_index as int);
            assert(g.players =~= g1.players);
            assert(g.event_log =~= g1.event_log);
            assert(g =~= g1);
            let pi = player_index as int;
            let old_p = g0.players[pi];
            let new_p = g.players[pi];
            lemma_sum_update(g0.players, held_of(), pi, new_p);
            lemma_sum_update(g0.players, tricks_of(), pi, new_p);
            assert(g.players == g0.players.update(pi, new_p));
            assert(cards_out(g) == cards_out(g0));
        }
        if self.current_trick.len() == self.num_players {
            self.resolve_trick();
        } else {
            self.current_player_index = (self.current_player_index + 1) % self.num_players;
        }
        proof {
            if turn_order(g0) {
                law_play_keeps_turn_order(g0, player_index as int, card_index as int, self@);
            }
        }
        Ok(())
    }

    /// The complete trick goes to its winner (see `resolve_trick_step`); a
    /// round whose hands are empty is then scored.
    fn resolve_trick(&mut self)
        requires
            core_valid(old(self)@),
            old(self)@.game_phase == GamePhase::Playing,
            old(self)@.current_trick.len() == old(self)@.num_players,
        ensures
            ({
                let g2 = resolve_trick_step(old(self)@);
                if !all_hands_empty(g2.players) {
                    final(self)@ == g2
                } else {
                    let g3 = score_round_step(g2);
                    if g3.game_phase == GamePhase::GameOver {
                        final(self)@ == g3
                    } else {
                        &&& final(self)@ == start_round(g3, final(self)@.deck)
                        &&& final(self)@.deck.to_multiset() == g3.deck.to_multiset()
                    }
                }
            }),
            valid(final(self)@),
            cards_accounted(old(self)@) ==> final(self)@.game_phase == GamePhase::GameOver
                || cards_accounted(final(self)@),
    {
        let ghost g0 = self@;
        proof {
            lemma_winner_props(g0.current_trick, trump_of(g0.trumpf));
            lemma_small_counts(g0);
        }
        let trump = match &self.trumpf {
            Some(c) => if c.is_jester() {
                None
            } else {
                Some(c.suit)
            },
            None => None,
        };
        let winner = determine_trick_winner(&self.current_trick, trump);
        assert(winner < self.num_players);
        assert(g0.players[winner as int] == self.players@[winner as int]@);
        self.players[winner].tricks_won = self.players[winner].tricks_won + 1;
        self.current_trick_starter = winner;
        self.current_player_index = winner;
        self.current_trick = Vec::new();
        self.event_log.push(GameEvent::TrickWon { winner });
        proof {
            let g = self@;
            let g2 = resolve_trick_step(g0);
            assert(g.players =~= g2.players);
            assert(g.event_log =~= g2.event_log);
            assert(g =~= g2);
            let w = winner as int;
            lemma_sum_update(g0.players, held_of(), w, g.players[w]);
            lemma_sum_update(g0.players, tricks_of(), w, g.players[w]);
            assert(g.players == g0.players.update(w, g.players[w]));
            let n = g0.num_players as int;
            let t = total_tricks(g0.players);
            assert(n * (t + 1) == n * t + n) by (nonlinear_arith);
            assert(cards_out(g) == cards_out(g0));
        }
        let mut all_empty = true;
        let mut i: usize = 0;
        while i < self.players.len()
            invariant
                i <= self.players@.len(),
                self@ == resolve_trick_step(g0),
                all_empty <==> (forall|k: int|
                    0 <= k < i ==> (#[trigger] self@.players[k]).hand.len() == 0),
            decreases self.players.len() - i,
        {
            assert(self@.players[i as int] == self.players@[i as int]@);
            if self.players[i].hand.len() != 0 {
                all_empty = false;
            }
            i = i + 1;
        }
        if all_empty {
            self.score_round();
        }
    }

    /// Scores the round (see `score_round_step`); deals the next round unless
    /// this was the last one.
    fn score_round(&mut self)
        requires
            core_valid(old(self)@),
            old(self)@.game_phase == GamePhase::Playing,
            old(self)@.current_trick.len() == 0,
            all_hands_empty(old(self)@.players),
        ensures
            ({
                let g3 = score_round_step(old(self)@);
                if g3.game_phase == GamePhase::GameOver {
                    final(self)@ == g3
                } else {
                    &&& final(self)@ == start_round(g3, final(self)@.deck)
                    &&& final(self)@.deck.to_multiset() == g3.deck.to_multiset()
                }
            }),
            valid(final(self)@),
            cards_accounted(final(self)@) || final(self)@.game_phase == GamePhase::GameOver,
    {
        let ghost g0 = self@;
        proof {
            lemma_small_counts(g0);
        }
        let ghost d = round_deltas(g0.players);
        let len = self.players.len();
        let mut deltas: Vec<i32> = Vec::new();
        let mut i: usize = 0;
        while i < len
            invariant
                len == self.players@.len(),
                len == g0.players.len(),
                i <= len,
                d == round_deltas(g0.players),
                self@ == (GameState { players: self@.players, ..g0 }),
                deltas@ == d.take(i as int),
                forall|k: int|
                    0 <= k < i ==> (#[trigger] self@.players[k]) == (PlayerState {
                        points: (g0.players[k].points + d[k]) as i32,
                        ..g0.players[k]
                    }),
                forall|k: int| i <= k < len ==> (#[trigger] self@.players[k]) == g0.players[k],
                forall|k: int|
                    0 <= k < len ==> (#[trigger] g0.players[k]).tricks_won <= DECK_SIZE
                        && 0 <= prediction_or_zero(g0.players[k]) <= DECK_SIZE,
                forall|k: int|
                    0 <= k < len ==> -points_cap(g0) <= (#[trigger] g0.players[k]).points
                        <= points_cap(g0),
                g0.round_number <= DECK_SIZE,
            decreases len - i,
        {
            assert(self@.players[i as int] == self.players@[i as int]@);
            let prediction = match self.players[i].prediction {
                Some(p) => p,
                None => 0,
            };
            let tricks = self.players[i].tricks_won;
            let delta = round_score_delta(prediction, tricks);
            assert(prediction as int == prediction_or_zero(g0.players[i as int]));
            assert(d[i as int] == delta);
            let ghost before = self@.players;
            self.players[i].points = self.players[i].points + delta;
            deltas.push(delta);
            assert(self@.players =~= before.update(
                i as int,
                PlayerState {
                    points: (g0.players[i as int].points + d[i as int]) as i32,
                    ..g0.players[i as int]
                },
            ));
            proof {
                assert(d.take(i + 1) =~= d.take(i as int).push(delta));
            }
            i = i + 1;
        }
        assert(d.take(len as int) =~= d);
        let round = self.round_number;
        self.event_log.push(GameEvent::RoundScored { round, deltas });
        let max = self.max_rounds();
        proof {
            let g = self@;
            let g3 = score_round_step(g0);
            assert(g.players =~= g3.players);
            lemma_rounds_fit(g0.num_players as int, g0.round_number as int);
            lemma_rounds_fit(g0.num_players as int, g0.round_number as int + 1);
            assert forall|k: int| 0 <= k < g.players.len() implies #[trigger] tricks_of()(g.players[k])
                == tricks_of()(g0.players[k]) by {}
            assert forall|k: int| 0 <= k < g.players.len() implies #[trigger] held_of()(g.players[k])
                == held_of()(g0.players[k]) by {}
            lemma_sum_ext(g.players, g0.players, tricks_of());
            lemma_sum_ext(g.players, g0.players, held_of());
        }
        if round >= max {
            self.game_phase = GamePhase::GameOver;
            self.event_log.push(GameEvent::GameOver);
            proof {
                let g = self@;
                let g3 = score_round_step(g0);
                assert(g.event_log =~= g3.event_log);
                assert(g =~= g3);
            }
        } else {
            proof {
                let g = self@;
                let g3 = score_round_step(g0);
                assert(g.event_log =~= g3.event_log);
                assert(g =~= g3);
            }
            self.start_new_round();
        }
    }
}

/// Returns indices into the player's hand that are legal plays this trick,
/// in increasing order.
pub fn legal_card_indices(game: &WizardGame, player_index: usize) -> (r: Vec<usize>)
    requires
        player_index < game@.players.len(),
    ensures
        legal_index_list(
            r@,
            game@.players[player_index as int].hand,
            lead_suit(game@.current_trick),
        ),
{
    assert(game@.players[player_index as int] == game.players@[player_index as int]@);
    let hand = &game.players[player_index].hand;
    let lead = lead_suit_in_trick(&game.current_trick);
    legal_indices(hand, lead)
}

} // verus!
