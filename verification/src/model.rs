use vstd::prelude::*;

use crate::cards::{fresh_deck, spec_is_wizard, Card, Suit, DECK_SIZE, WIZARD_VALUE};
use crate::rules::{round_delta, trick_winner, trump_of};

verus! {

/// The phases of a game. `RoundEnd` exists for completeness; the game moves
/// from the last trick of a round straight to scoring and the next round.
#[derive(Debug, Clone, Copy, PartialEq, Eq, Structural)]
pub enum GamePhase {
    NotStarted,
    ChooseTrumpf,
    Prediction,
    Playing,
    RoundEnd,
    GameOver,
}

/// What happened in a game, in order.
#[derive(Debug, Clone, PartialEq, Eq)]
pub enum GameEvent {
    RoundStarted { round: usize, dealer: usize, flipped_card: Option<Card> },
    TrumpfChosen { chooser: usize, suit: Suit },
    Predicted { player: usize, prediction: usize },
    CardPlayed { player: usize, card: Card },
    TrickWon { winner: usize },
    RoundScored { round: usize, deltas: Vec<i32> },
    GameOver,
}

/// The mathematical value of a `GameEvent`.
pub enum EventRecord {
    RoundStarted { round: usize, dealer: usize, flipped_card: Option<Card> },
    TrumpfChosen { chooser: usize, suit: Suit },
    Predicted { player: usize, prediction: usize },
    CardPlayed { player: usize, card: Card },
    TrickWon { winner: usize },
    RoundScored { round: usize, deltas: Seq<i32> },
    GameOver,
}

impl View for GameEvent {
    type V = EventRecord;

    open spec fn view(&self) -> EventRecord {
        match self {
            GameEvent::RoundStarted { round, dealer, flipped_card } => EventRecord::RoundStarted {
                round: *round,
                dealer: *dealer,
                flipped_card: *flipped_card,
            },
            GameEvent::TrumpfChosen { chooser, suit } => EventRecord::TrumpfChosen {
                chooser: *chooser,
                suit: *suit,
            },
            GameEvent::Predicted { player, prediction } => EventRecord::Predicted {
                player: *player,
                prediction: *prediction,
            },
            GameEvent::CardPlayed { player, card } => EventRecord::CardPlayed {
                player: *player,
                card: *card,
            },
            GameEvent::TrickWon { winner } => EventRecord::TrickWon { winner: *winner },
            GameEvent::RoundScored { round, deltas } => EventRecord::RoundScored {
                round: *round,
                deltas: deltas@,
            },
            GameEvent::GameOver => EventRecord::GameOver,
        }
    }
}

/// The mathematical value of a player.
#[verifier::ext_equal]
pub struct PlayerState {
    pub name: Seq<char>,
    pub hand: Seq<Card>,
    pub prediction: Option<usize>,
    pub tricks_won: usize,
    pub points: i32,
    pub is_bot: bool,
}

/// The mathematical value of a game.
#[verifier::ext_equal]
pub struct GameState {
    pub num_players: usize,
    pub players: Seq<PlayerState>,
    pub current_player_index: usize,
    pub current_trick_starter: usize,
    pub game_phase: GamePhase,
    pub round_number: usize,
    pub deck: Seq<Card>,
    pub trumpf: Option<Card>,
    pub current_trick: Seq<(usize, Card)>,
    pub event_log: Seq<EventRecord>,
}

/// Number of rounds for `n` players: every player gets one card more each
/// round until the deck cannot serve another round.
pub open spec fn max_rounds_for(n: int) -> int {
    DECK_SIZE as int / n
}

/// The dealer of round `round` (counted from 1): seat 0 deals first, then
/// the deal passes one seat clockwise each round.
pub open spec fn dealer_of(round: int, n: int) -> int {
    (round - 1) % n
}

/// The next seat clockwise.
pub open spec fn next_seat(i: int, n: int) -> int {
    (i + 1) % n
}

/// Seat `i` receives the `r` cards that follow the hands of the seats before it.
pub open spec fn dealt_hand(deck: Seq<Card>, i: int, r: int) -> Seq<Card> {
    deck.subrange(i * r, i * r + r)
}

/// The card turned up after dealing `r` cards to each of `nplayers` seats;
/// none when the deck is used up.
pub open spec fn flip_after_deal(deck: Seq<Card>, nplayers: int, r: int) -> Option<Card> {
    if nplayers * r < deck.len() {
        Some(deck[nplayers * r])
    } else {
        None
    }
}

/// The phase a round opens with: a Wizard turned up lets the dealer choose
/// the trump colour first; otherwise predictions begin.
pub open spec fn opening_phase(flip: Option<Card>) -> GamePhase {
    match flip {
        Some(c) => if spec_is_wizard(c) {
            GamePhase::ChooseTrumpf
        } else {
            GamePhase::Prediction
        },
        None => GamePhase::Prediction,
    }
}

/// Starts the next round with the (shuffled) deck `deck`: the round number
/// goes up by one, the player after the dealer is first to act and to lead,
/// every player's hand, prediction and trick count are replaced by a fresh
/// deal, and the next card is turned up.
pub open spec fn start_round(g: GameState, deck: Seq<Card>) -> GameState {
    let r = g.round_number + 1;
    let n = g.num_players as int;
    let dealer = dealer_of(r, n);
    let first = next_seat(dealer, n);
    let flip = flip_after_deal(deck, g.players.len() as int, r);
    GameState {
        current_player_index: first as usize,
        current_trick_starter: first as usize,
        round_number: r as usize,
        deck: deck,
        players: Seq::new(
            g.players.len(),
            |i: int|
                PlayerState {
                    hand: dealt_hand(deck, i, r),
                    prediction: None,
                    tricks_won: 0,
                    ..g.players[i]
                },
        ),
        current_trick: Seq::empty(),
        trumpf: flip,
        event_log: g.event_log.push(
            EventRecord::RoundStarted {
                round: r as usize,
                dealer: dealer as usize,
                flipped_card: flip,
            },
        ),
        game_phase: opening_phase(flip),
        ..g
    }
}

/// The dealer names the trump colour; predictions begin.
pub open spec fn choose_trumpf_step(g: GameState, suit: Suit) -> GameState {
    GameState {
        trumpf: Some(Card { suit, value: WIZARD_VALUE }),
        game_phase: GamePhase::Prediction,
        event_log: g.event_log.push(
            EventRecord::TrumpfChosen {
                chooser: dealer_of(g.round_number as int, g.num_players as int) as usize,
                suit,
            },
        ),
        ..g
    }
}

pub open spec fn all_predicted(ps: Seq<PlayerState>) -> bool {
    forall|i: int| 0 <= i < ps.len() ==> (#[trigger] ps[i]).prediction is Some
}

/// Player `pi` predicts `p` tricks; the turn passes on, and once every
/// player has predicted, play begins with the player after the dealer.
pub open spec fn predict_step(g: GameState, pi: int, p: usize) -> GameState {
    let n = g.num_players as int;
    let ps = g.players.update(pi, PlayerState { prediction: Some(p), ..g.players[pi] });
    let g1 = GameState {
        players: ps,
        event_log: g.event_log.push(EventRecord::Predicted { player: pi as usize, prediction: p }),
        current_player_index: next_seat(g.current_player_index as int, n) as usize,
        ..g
    };
    if all_predicted(ps) {
        GameState {
            game_phase: GamePhase::Playing,
            current_player_index: next_seat(dealer_of(g.round_number as int, n), n) as usize,
            ..g1
        }
    } else {
        g1
    }
}

/// Player `pi` moves card `ci` of their hand into the trick.
pub open spec fn place_card(g: GameState, pi: int, ci: int) -> GameState {
    let card = g.players[pi].hand[ci];
    GameState {
        players: g.players.update(
            pi,
            PlayerState { hand: g.players[pi].hand.remove(ci), ..g.players[pi] },
        ),
        event_log: g.event_log.push(EventRecord::CardPlayed { player: pi as usize, card }),
        current_trick: g.current_trick.push((pi as usize, card)),
        ..g
    }
}

/// The winner of the complete trick takes it and leads the next one.
pub open spec fn resolve_trick_step(g: GameState) -> GameState {
    let w = trick_winner(g.current_trick, trump_of(g.trumpf));
    GameState {
        players: g.players.update(
            w as int,
            PlayerState { tricks_won: (g.players[w as int].tricks_won + 1) as usize, ..g.players[w as int] },
        ),
        current_trick_starter: w,
        current_player_index: w,
        current_trick: Seq::empty(),
        event_log: g.event_log.push(EventRecord::TrickWon { winner: w }),
        ..g
    }
}

pub open spec fn all_hands_empty(ps: Seq<PlayerState>) -> bool {
    forall|i: int| 0 <= i < ps.len() ==> (#[trigger] ps[i]).hand.len() == 0
}

/// A missing prediction counts as a prediction of 0.
pub open spec fn prediction_or_zero(p: PlayerState) -> int {
    match p.prediction {
        Some(x) => x as int,
        None => 0,
    }
}

/// A player's prediction as a number (0 when there is none yet).
pub open spec fn bid_of() -> spec_fn(PlayerState) -> int {
    |p: PlayerState| prediction_or_zero(p)
}

/// The players with the prediction of seat `pi` taken away.
pub open spec fn without_bid(ps: Seq<PlayerState>, pi: int) -> Seq<PlayerState> {
    ps.update(pi, PlayerState { prediction: None, ..ps[pi] })
}

/// Every seat but `pi` has predicted.
pub open spec fn others_predicted(ps: Seq<PlayerState>, pi: int) -> bool {
    forall|j: int| 0 <= j < ps.len() && j != pi ==> (#[trigger] ps[j]).prediction is Some
}

/// Prediction `p` by seat `pi` would be the last of the round and make all
/// predictions add up to the number of tricks (the round number), which
/// the rules forbid.
pub open spec fn evens_the_bids(g: GameState, pi: int, p: usize) -> bool {
    let ps = g.players.update(pi, PlayerState { prediction: Some(p), ..g.players[pi] });
    all_predicted(ps) && sum_by(ps, bid_of()) == g.round_number
}

/// Each player's points for the round.
pub open spec fn round_deltas(ps: Seq<PlayerState>) -> Seq<i32> {
    Seq::new(
        ps.len(),
        |i: int| round_delta(prediction_or_zero(ps[i]), ps[i].tricks_won as int) as i32,
    )
}

/// Adds each player's points for the round; after the last round the game is over.
pub open spec fn score_round_step(g: GameState) -> GameState {
    let d = round_deltas(g.players);
    let g1 = GameState {
        players: Seq::new(
            g.players.len(),
            |i: int| PlayerState { points: (g.players[i].points + d[i]) as i32, ..g.players[i] },
        ),
        event_log: g.event_log.push(EventRecord::RoundScored { round: g.round_number, deltas: d }),
        ..g
    };
    if g.round_number >= max_rounds_for(g.num_players as int) {
        GameState {
            game_phase: GamePhase::GameOver,
            event_log: g1.event_log.push(EventRecord::GameOver),
            ..g1
        }
    } else {
        g1
    }
}

/// `new` is what playing card `ci` of player `pi` in `old` leads to: the card
/// joins the trick; a complete trick goes to its winner; when the hands are
/// empty the round is scored and either the game ends or the next round is
/// dealt from a reshuffled deck (`new.deck`, which holds the same cards).
pub open spec fn play_card_outcome(old: GameState, pi: int, ci: int, new: GameState) -> bool {
    let n = old.num_players as int;
    let g1 = place_card(old, pi, ci);
    if g1.current_trick.len() != n {
        new == GameState {
            current_player_index: next_seat(old.current_player_index as int, n) as usize,
            ..g1
        }
    } else {
        let g2 = resolve_trick_step(g1);
        if !all_hands_empty(g2.players) {
            new == g2
        } else {
            let g3 = score_round_step(g2);
            if g3.game_phase == GamePhase::GameOver {
                new == g3
            } else {
                &&& new == start_round(g3, new.deck)
                &&& new.deck.to_multiset() == g3.deck.to_multiset()
            }
        }
    }
}

// ----- sums over players -----

pub open spec fn sum_by(ps: Seq<PlayerState>, f: spec_fn(PlayerState) -> int) -> int
    decreases ps.len(),
{
    if ps.len() == 0 {
        0
    } else {
        sum_by(ps.drop_last(), f) + f(ps.last())
    }
}

pub open spec fn tricks_of() -> spec_fn(PlayerState) -> int {
    |p: PlayerState| p.tricks_won as int
}

pub open spec fn held_of() -> spec_fn(PlayerState) -> int {
    |p: PlayerState| p.hand.len() as int
}

/// Tricks taken so far this round, by all players together.
pub open spec fn total_tricks(ps: Seq<PlayerState>) -> int {
    sum_by(ps, tricks_of())
}

/// Cards held, by all players together.
pub open spec fn total_held(ps: Seq<PlayerState>) -> int {
    sum_by(ps, held_of())
}

/// Cards dealt this round that are accounted for: in tricks already taken,
/// in hands, and in the trick on the table.
pub open spec fn cards_out(g: GameState) -> int {
    g.num_players * total_tricks(g.players) + total_held(g.players) + g.current_trick.len()
}

pub proof fn lemma_sum_update(
    ps: Seq<PlayerState>,
    f: spec_fn(PlayerState) -> int,
    i: int,
    p: PlayerState,
)
    requires
        0 <= i < ps.len(),
    ensures
        sum_by(ps.update(i, p), f) == sum_by(ps, f) - f(ps[i]) + f(p),
    decreases ps.len(),
{
    let q = ps.update(i, p);
    if i == ps.len() - 1 {
        assert(q.drop_last() =~= ps.drop_last());
    } else {
        lemma_sum_update(ps.drop_last(), f, i, p);
        assert(q.drop_last() =~= ps.drop_last().update(i, p));
    }
}

pub proof fn lemma_sum_nonneg_le(ps: Seq<PlayerState>, f: spec_fn(PlayerState) -> int, i: int)
    requires
        0 <= i < ps.len(),
        forall|j: int| 0 <= j < ps.len() ==> f(#[trigger] ps[j]) >= 0,
    ensures
        f(ps[i]) <= sum_by(ps, f),
        sum_by(ps, f) >= 0,
    decreases ps.len(),
{
    lemma_sum_nonneg(ps.drop_last(), f);
    if i < ps.len() - 1 {
        lemma_sum_nonneg_le(ps.drop_last(), f, i);
    }
}

pub proof fn lemma_sum_nonneg(ps: Seq<PlayerState>, f: spec_fn(PlayerState) -> int)
    requires
        forall|j: int| 0 <= j < ps.len() ==> f(#[trigger] ps[j]) >= 0,
    ensures
        sum_by(ps, f) >= 0,
    decreases ps.len(),
{
    if ps.len() > 0 {
        lemma_sum_nonneg(ps.drop_last(), f);
    }
}

pub proof fn lemma_sum_const(ps: Seq<PlayerState>, f: spec_fn(PlayerState) -> int, c: int)
    requires
        forall|j: int| 0 <= j < ps.len() ==> f(#[trigger] ps[j]) == c,
    ensures
        sum_by(ps, f) == ps.len() * c,
    decreases ps.len(),
{
    if ps.len() > 0 {
        lemma_sum_const(ps.drop_last(), f, c);
        assert(sum_by(ps, f) == (ps.len() - 1) * c + c);
        assert((ps.len() - 1) * c + c == ps.len() * c) by (nonlinear_arith);
    }
}

pub proof fn lemma_sum_ext(ps: Seq<PlayerState>, qs: Seq<PlayerState>, f: spec_fn(PlayerState) -> int)
    requires
        ps.len() == qs.len(),
        forall|j: int| 0 <= j < ps.len() ==> f(#[trigger] ps[j]) == f(qs[j]),
    ensures
        sum_by(ps, f) == sum_by(qs, f),
    decreases ps.len(),
{
    if ps.len() > 0 {
        lemma_sum_ext(ps.drop_last(), qs.drop_last(), f);
    }
}

// ----- arithmetic -----

/// `r` rounds of `n` hands fit into the deck exactly when `r` is at most the number of rounds.
pub proof fn lemma_rounds_fit(n: int, r: int)
    requires
        n >= 1,
        r >= 0,
    ensures
        (n * r <= DECK_SIZE) <==> (r <= max_rounds_for(n)),
        max_rounds_for(n) <= DECK_SIZE,
{
    let q = DECK_SIZE as int / n;
    let m = DECK_SIZE as int % n;
    vstd::arithmetic::div_mod::lemma_fundamental_div_mod(DECK_SIZE as int, n);
    vstd::arithmetic::div_mod::lemma_mod_bound(DECK_SIZE as int, n);
    assert(DECK_SIZE as int == n * q + m);
    assert(q <= DECK_SIZE) by (nonlinear_arith)
        requires
            n >= 1,
            DECK_SIZE as int == n * q + m,
            m >= 0,
    ;
    if r <= q {
        assert(n * r <= n * q) by (nonlinear_arith)
            requires
                n >= 1,
                r <= q,
        ;
    } else {
        assert(n * r >= n * q + n) by (nonlinear_arith)
            requires
                n >= 1,
                r >= q + 1,
        ;
    }
}

/// Seat `i` of `n`, card `k` of `r`: the deal position lies inside the `n * r` cards dealt.
pub proof fn lemma_deal_position(i: int, k: int, n: int, r: int)
    requires
        0 <= i < n,
        0 <= k < r,
    ensures
        0 <= i * r + k < n * r,
        (i + 1) * r <= n * r,
        i * r + r == (i + 1) * r,
        0 <= i * r,
{
    assert(0 <= i * r + k < n * r && (i + 1) * r <= n * r && i * r + r == (i + 1) * r && 0 <= i
        * r) by (nonlinear_arith)
        requires
            0 <= i < n,
            0 <= k < r,
    ;
}

/// `x % n` for `x` inside the window `[n * q, n * (q + 1))`.
pub proof fn lemma_mod_window(x: int, n: int, q: int)
    requires
        n > 0,
        n * q <= x < n * q + n,
    ensures
        x % n == x - n * q,
{
    vstd::arithmetic::div_mod::lemma_fundamental_div_mod(x, n);
    vstd::arithmetic::div_mod::lemma_mod_bound(x, n);
    let d = x / n;
    let m = x % n;
    assert(d == q) by (nonlinear_arith)
        requires
            n > 0,
            x == n * d + m,
            0 <= m < n,
            n * q <= x < n * q + n,
    ;
}

/// How far seat `i` sits clockwise from seat `s`.
pub open spec fn seat_offset(i: int, s: int, n: int) -> int {
    (i - s) % n
}

/// Seats of a table of `n`, seen from seat `s`: the seat `k` places on
/// from `s` is at offset `k`, and different seats have different offsets.
pub proof fn lemma_seats(s: int, n: int)
    requires
        0 <= s < n,
    ensures
        forall|k: int| 0 <= k < n ==> 0 <= #[trigger] ((s + k) % n) < n && seat_offset((s + k) % n, s, n) == k,
        forall|i: int| 0 <= i < n ==> 0 <= #[trigger] seat_offset(i, s, n) < n && (s + seat_offset(i, s, n)) % n == i,
        forall|i: int, j: int|
            0 <= i < n && 0 <= j < n && #[trigger] seat_offset(i, s, n) == #[trigger] seat_offset(j, s, n) ==> i == j,
{
    assert forall|k: int| 0 <= k < n implies 0 <= #[trigger] ((s + k) % n) < n && seat_offset((s + k) % n, s, n) == k by {
        if s + k < n {
            lemma_mod_window(s + k, n, 0);
            lemma_mod_window(k, n, 0);
        } else {
            lemma_mod_window(s + k, n, 1);
            lemma_mod_window(k, n, 0);
            lemma_mod_window(s + k - n - s, n, -1);
        }
    }
    assert forall|i: int| 0 <= i < n implies 0 <= #[trigger] seat_offset(i, s, n) < n && (s + seat_offset(i, s, n)) % n == i by {
        if i >= s {
            lemma_mod_window(i - s, n, 0);
            lemma_mod_window(i, n, 0);
        } else {
            lemma_mod_window(i - s, n, -1);
            lemma_mod_window(i + n, n, 1);
        }
    }
}

// ----- validity -----

/// Bound on every player's total: each round moves a total by at most 620.
pub open spec fn points_cap(g: GameState) -> int {
    if g.game_phase == GamePhase::GameOver {
        700 * (g.round_number + 3)
    } else {
        700 * (g.round_number + 2)
    }
}

/// What holds of a game between rounds or during one, apart from the size
/// of the trick on the table.
pub open spec fn core_valid(g: GameState) -> bool {
    let n = g.num_players as int;
    &&& n >= 1
    &&& g.players.len() <= n
    &&& g.deck.len() == DECK_SIZE
    &&& g.deck.to_multiset() == fresh_deck().to_multiset()
    &&& forall|i: int|
        0 <= i < g.players.len() ==> -points_cap(g) <= (#[trigger] g.players[i]).points
            <= points_cap(g)
    &&& g.game_phase == GamePhase::NotStarted ==> g.round_number == 0
    &&& in_round(g) ==> (g.trumpf is None <==> g.num_players * g.round_number == DECK_SIZE)
    &&& g.game_phase == GamePhase::ChooseTrumpf ==> g.trumpf is Some
    &&& g.game_phase != GamePhase::NotStarted ==> {
        &&& g.players.len() == n
        &&& 1 <= g.round_number <= max_rounds_for(n)
        &&& g.current_player_index < n
        &&& g.current_trick_starter < n
        &&& forall|k: int| 0 <= k < g.current_trick.len() ==> (#[trigger] g.current_trick[k]).0 < n
        &&& forall|i: int|
            0 <= i < g.players.len() ==> ((#[trigger] g.players[i]).prediction matches Some(p)
                ==> p <= g.round_number)
        &&& cards_out(g) <= DECK_SIZE
    }
}

/// The invariant of a game: `core_valid`, and a trick on the table is never complete.
pub open spec fn valid(g: GameState) -> bool {
    &&& core_valid(g)
    &&& g.game_phase != GamePhase::NotStarted ==> g.current_trick.len() < g.num_players
}

/// The game is inside a round.
pub open spec fn in_round(g: GameState) -> bool {
    ||| g.game_phase == GamePhase::ChooseTrumpf
    ||| g.game_phase == GamePhase::Prediction
    ||| g.game_phase == GamePhase::Playing
}

/// The seat that acts first in the current round: the one after the dealer.
pub open spec fn first_seat(g: GameState) -> int {
    next_seat(dealer_of(g.round_number as int, g.num_players as int), g.num_players as int)
}

/// Seat `i` has already played to the trick on the table.
pub open spec fn has_played(g: GameState, i: int) -> bool {
    seat_offset(i, g.current_trick_starter as int, g.num_players as int) < g.current_trick.len()
}

/// The order of turns within a round. Before play, the trick is empty,
/// every hand holds as many cards as the round number, and the players who
/// predicted are exactly those from the first seat up to the one whose turn
/// it is. During play, the seats play in turn from the one who led; every
/// hand holds the round number minus the tricks taken, minus one for those
/// who already played to the current trick; and fewer tricks than the round
/// number have been taken.
pub open spec fn turn_order(g: GameState) -> bool {
    let n = g.num_players as int;
    let r = g.round_number as int;
    let first = first_seat(g);
    let t = total_tricks(g.players);
    &&& (g.game_phase == GamePhase::ChooseTrumpf || g.game_phase == GamePhase::Prediction) ==> {
        &&& g.current_trick_starter == first
        &&& g.current_trick.len() == 0
        &&& forall|i: int|
            0 <= i < g.players.len() ==> (#[trigger] g.players[i]).tricks_won == 0
                && g.players[i].hand.len() == r
        &&& forall|i: int|
            0 <= i < g.players.len() ==> ((#[trigger] g.players[i]).prediction is Some
                <==> seat_offset(i, first, n) < seat_offset(g.current_player_index as int, first, n))
    }
    &&& g.game_phase == GamePhase::ChooseTrumpf ==> g.current_player_index == first
    &&& g.game_phase == GamePhase::Playing ==> {
        &&& g.current_player_index == (g.current_trick_starter + g.current_trick.len()) % n
        &&& forall|k: int|
            0 <= k < g.current_trick.len() ==> (#[trigger] g.current_trick[k]).0 == (
            g.current_trick_starter + k) % n
        &&& forall|i: int|
            0 <= i < g.players.len() ==> (#[trigger] g.players[i]).hand.len() + t + (if has_played(
                g,
                i,
            ) {
                1int
            } else {
                0int
            }) == r
        &&& t < r
    }
}

/// Players keep their names and whether they are bots.
pub open spec fn same_seats(a: GameState, b: GameState) -> bool {
    &&& a.num_players == b.num_players
    &&& a.players.len() == b.players.len()
    &&& forall|i: int|
        0 <= i < a.players.len() ==> (#[trigger] b.players[i]).name == a.players[i].name
            && b.players[i].is_bot == a.players[i].is_bot
}

/// A move by a player: a trump choice, a prediction or a card played.
pub open spec fn move_by(e: EventRecord) -> Option<usize> {
    match e {
        EventRecord::TrumpfChosen { chooser, .. } => Some(chooser),
        EventRecord::Predicted { player, .. } => Some(player),
        EventRecord::CardPlayed { player, .. } => Some(player),
        _ => None,
    }
}

/// `b` continues the log of `a`, and every move logged since was made by a bot.
pub open spec fn moves_since_by_bots(a: GameState, b: GameState) -> bool {
    &&& a.event_log.len() <= b.event_log.len()
    &&& b.event_log.take(a.event_log.len() as int) == a.event_log
    &&& forall|k: int|
        a.event_log.len() <= k < b.event_log.len() ==> (#[trigger] move_by(b.event_log[k]) matches Some(
            p,
        ) ==> p < b.players.len() && b.players[p as int].is_bot)
}

pub open spec fn unpredicted_of() -> spec_fn(PlayerState) -> int {
    |p: PlayerState| if p.prediction is None {
        1int
    } else {
        0int
    }
}

/// Players still to predict.
pub open spec fn unpredicted(ps: Seq<PlayerState>) -> int {
    sum_by(ps, unpredicted_of())
}

/// Every card dealt this round is in a hand, on the table, or in a trick taken.
pub open spec fn cards_accounted(g: GameState) -> bool {
    cards_out(g) == g.num_players * g.round_number
}

/// In a game that satisfies `core_valid`, every trick count and prediction
/// is at most 60 and a complete round of play cannot overflow the totals.
pub proof fn lemma_small_counts(g: GameState)
    requires
        core_valid(g),
        g.game_phase != GamePhase::NotStarted,
    ensures
        forall|k: int| 0 <= k < g.players.len() ==> (#[trigger] g.players[k]).tricks_won <= DECK_SIZE,
        forall|k: int|
            0 <= k < g.players.len() ==> 0 <= prediction_or_zero(#[trigger] g.players[k]) <= DECK_SIZE,
        g.round_number <= DECK_SIZE,
        total_tricks(g.players) <= DECK_SIZE,
        total_tricks(g.players) >= 0,
        total_held(g.players) >= 0,
{
    let n = g.num_players as int;
    lemma_rounds_fit(n, g.round_number as int);
    assert forall|k: int| 0 <= k < g.players.len() implies #[trigger] tricks_of()(g.players[k]) >= 0 by {}
    assert forall|k: int| 0 <= k < g.players.len() implies #[trigger] held_of()(g.players[k]) >= 0 by {}
    lemma_sum_nonneg(g.players, tricks_of());
    lemma_sum_nonneg(g.players, held_of());
    let t = total_tricks(g.players);
    assert(t <= n * t) by (nonlinear_arith)
        requires
            n >= 1,
            t >= 0,
    ;
    assert forall|k: int| 0 <= k < g.players.len() implies (#[trigger] g.players[k]).tricks_won
        <= DECK_SIZE by {
        lemma_sum_nonneg_le(g.players, tricks_of(), k);
    }
    assert forall|k: int| 0 <= k < g.players.len() implies 0 <= prediction_or_zero(
        #[trigger] g.players[k],
    ) <= DECK_SIZE by {}
}

} // verus!
