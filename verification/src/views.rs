use vstd::prelude::*;

use crate::cards::{Card, Suit, DECK_SIZE};
use crate::game::{events_view, legal_card_indices, name_taken, players_view, Player, WizardGame};
use crate::model::{
    dealer_of, max_rounds_for, valid, EventRecord, GameEvent, GamePhase, GameState, PlayerState,
};
use crate::rules::{lead_suit, legal_index_list};

verus! {

/// A seat as the lobby shows it.
#[derive(Debug, PartialEq, Eq)]
pub struct PlayerView {
    pub name: String,
    pub is_ai: bool,
}

/// A lobby as clients see it.
#[derive(Debug, PartialEq, Eq)]
pub struct LobbyView {
    pub id: String,
    pub num_players: usize,
    pub players: Vec<PlayerView>,
    pub started: bool,
}

/// A card as clients see it.
#[derive(Debug, PartialEq, Eq)]
pub struct CardView {
    pub suit: String,
    pub value: usize,
}

/// A card on the table and who played it.
#[derive(Debug, PartialEq, Eq)]
pub struct PlayedCard {
    pub player_index: usize,
    pub card: CardView,
}

/// A game event as clients see it.
#[derive(Debug, PartialEq, Eq)]
pub enum EventView {
    RoundStarted { round: usize, dealer: usize, flipped_card: Option<CardView> },
    TrumpfChosen { chooser: usize, suit: String },
    Predicted { player: usize, prediction: usize },
    CardPlayed { player: usize, card: CardView },
    TrickWon { winner: usize },
    RoundScored { round: usize, deltas: Vec<i32> },
    GameOver,
}

/// The game as one player sees it: everything public plus their own hand.
#[derive(Debug, PartialEq, Eq)]
pub struct GameView {
    pub lobby_id: String,
    pub phase: String,
    pub round: usize,
    pub max_rounds: usize,
    pub trumpf: Option<CardView>,
    pub current_player_index: usize,
    pub current_trick_starter: usize,
    pub current_dealer_index: usize,
    pub current_trick: Vec<PlayedCard>,
    pub players: Vec<PlayerView>,
    pub predictions: Vec<Option<usize>>,
    pub tricks_won: Vec<usize>,
    pub points: Vec<i32>,
    pub your_name: String,
    pub your_index: usize,
    pub your_hand: Vec<CardView>,
    pub your_legal_card_indices: Vec<usize>,
    pub log: Vec<EventView>,
}

/// The body of an error answer.
#[derive(Debug, PartialEq, Eq)]
pub struct ErrorBody {
    pub error: String,
}

// ----- what a view shows -----

pub open spec fn suit_label(s: Suit) -> Seq<char> {
    match s {
        Suit::Red => "red"@,
        Suit::Yellow => "yellow"@,
        Suit::Green => "green"@,
        Suit::Blue => "blue"@,
    }
}

pub open spec fn phase_label(p: GamePhase) -> Seq<char> {
    match p {
        GamePhase::NotStarted => "not_started"@,
        GamePhase::ChooseTrumpf => "choose_trumpf"@,
        GamePhase::Prediction => "prediction"@,
        GamePhase::Playing => "playing"@,
        GamePhase::RoundEnd => "round_end"@,
        GamePhase::GameOver => "game_over"@,
    }
}

pub open spec fn shows_player(v: PlayerView, p: PlayerState) -> bool {
    v.name@ == p.name && v.is_ai == p.is_bot
}

pub open spec fn shows_players(vs: Seq<PlayerView>, ps: Seq<PlayerState>) -> bool {
    vs.len() == ps.len() && forall|i: int| 0 <= i < ps.len() ==> shows_player(#[trigger] vs[i], ps[i])
}

pub open spec fn shows_lobby(v: LobbyView, id: Seq<char>, g: GameState) -> bool {
    &&& v.id@ == id
    &&& v.num_players == g.num_players
    &&& shows_players(v.players@, g.players)
    &&& v.started == (g.game_phase != GamePhase::NotStarted)
}

pub open spec fn shows_card(v: CardView, c: Card) -> bool {
    v.suit@ == suit_label(c.suit) && v.value == c.value
}

pub open spec fn shows_opt_card(v: Option<CardView>, c: Option<Card>) -> bool {
    match (v, c) {
        (Some(a), Some(b)) => shows_card(a, b),
        (None, None) => true,
        _ => false,
    }
}

pub open spec fn shows_event(v: EventView, e: EventRecord) -> bool {
    match e {
        EventRecord::RoundStarted { round, dealer, flipped_card } => v matches EventView::RoundStarted {
            round: a,
            dealer: b,
            flipped_card: f,
        } && a == round && b == dealer && shows_opt_card(f, flipped_card),
        EventRecord::TrumpfChosen { chooser, suit } => v matches EventView::TrumpfChosen {
            chooser: a,
            suit: s,
        } && a == chooser && s@ == suit_label(suit),
        EventRecord::Predicted { player, prediction } => v matches EventView::Predicted {
            player: a,
            prediction: b,
        } && a == player && b == prediction,
        EventRecord::CardPlayed { player, card } => v matches EventView::CardPlayed {
            player: a,
            card: c,
        } && a == player && shows_card(c, card),
        EventRecord::TrickWon { winner } => v matches EventView::TrickWon { winner: a } && a
            == winner,
        EventRecord::RoundScored { round, deltas } => v matches EventView::RoundScored {
            round: a,
            deltas: d,
        } && a == round && d@ == deltas,
        EventRecord::GameOver => v is GameOver,
    }
}

pub open spec fn shows_events(vs: Seq<EventView>, es: Seq<EventRecord>) -> bool {
    vs.len() == es.len() && forall|i: int| 0 <= i < es.len() ==> shows_event(#[trigger] vs[i], es[i])
}

pub open spec fn shows_cards(vs: Seq<CardView>, cs: Seq<Card>) -> bool {
    vs.len() == cs.len() && forall|i: int| 0 <= i < cs.len() ==> shows_card(#[trigger] vs[i], cs[i])
}

pub open spec fn shows_trick(vs: Seq<PlayedCard>, t: Seq<(usize, Card)>) -> bool {
    vs.len() == t.len() && forall|i: int|
        0 <= i < t.len() ==> (#[trigger] vs[i]).player_index == t[i].0 && shows_card(vs[i].card, t[i].1)
}

/// `i` is the first seat whose player is called `name`.
pub open spec fn first_seat_named(ps: Seq<PlayerState>, name: Seq<char>, i: int) -> bool {
    &&& 0 <= i < ps.len()
    &&& ps[i].name == name
    &&& forall|j: int| 0 <= j < i ==> (#[trigger] ps[j]).name != name
}

/// What the game view for the player called `name` shows of game `g` in lobby `id`.
pub open spec fn shows_game(v: GameView, id: Seq<char>, g: GameState, name: Seq<char>) -> bool {
    let n = g.num_players as int;
    let me = v.your_index as int;
    &&& v.lobby_id@ == id
    &&& v.phase@ == phase_label(g.game_phase)
    &&& v.round == g.round_number
    &&& v.max_rounds == max_rounds_for(n)
    &&& shows_opt_card(v.trumpf, g.trumpf)
    &&& v.current_player_index == g.current_player_index
    &&& v.current_trick_starter == g.current_trick_starter
    &&& v.current_dealer_index == dealer_of(g.round_number as int, n)
    &&& shows_trick(v.current_trick@, g.current_trick)
    &&& shows_players(v.players@, g.players)
    &&& v.predictions@ == g.players.map_values(|p: PlayerState| p.prediction)
    &&& v.tricks_won@ == g.players.map_values(|p: PlayerState| p.tricks_won)
    &&& v.points@ == g.players.map_values(|p: PlayerState| p.points)
    &&& v.your_name@ == name
    &&& first_seat_named(g.players, name, me)
    &&& shows_cards(v.your_hand@, g.players[me].hand)
    &&& if g.game_phase == GamePhase::Playing && g.current_player_index == v.your_index {
        legal_index_list(v.your_legal_card_indices@, g.players[me].hand, lead_suit(g.current_trick))
    } else {
        v.your_legal_card_indices@.len() == 0
    }
    &&& shows_events(v.log@, g.event_log)
}

// ----- building views -----

pub fn suit_name(s: &Suit) -> (r: &'static str)
    ensures
        r@ == suit_label(*s),
{
    match s {
        Suit::Red => "red",
        Suit::Yellow => "yellow",
        Suit::Green => "green",
        Suit::Blue => "blue",
    }
}

pub fn phase_name(p: &GamePhase) -> (r: &'static str)
    ensures
        r@ == phase_label(*p),
{
    match p {
        GamePhase::NotStarted => "not_started",
        GamePhase::ChooseTrumpf => "choose_trumpf",
        GamePhase::Prediction => "prediction",
        GamePhase::Playing => "playing",
        GamePhase::RoundEnd => "round_end",
        GamePhase::GameOver => "game_over",
    }
}

pub fn player_view(p: &Player) -> (v: PlayerView)
    ensures
        shows_player(v, p@),
{
    PlayerView { name: p.name().to_owned(), is_ai: p.is_bot() }
}

fn player_views(ps: &[Player]) -> (vs: Vec<PlayerView>)
    ensures
        shows_players(vs@, players_view(ps@)),
{
    let mut vs: Vec<PlayerView> = Vec::new();
    let mut i: usize = 0;
    while i < ps.len()
        invariant
            i <= ps@.len(),
            vs@.len() == i,
            forall|k: int| 0 <= k < i ==> shows_player(#[trigger] vs@[k], ps@[k]@),
        decreases ps.len() - i,
    {
        vs.push(player_view(&ps[i]));
        i = i + 1;
    }
    vs
}

impl CardView {
    pub fn from_card(c: &Card) -> (v: CardView)
        ensures
            shows_card(v, *c),
    {
        CardView { suit: suit_name(&c.suit).to_owned(), value: c.value }
    }
}

fn card_views(cs: &[Card]) -> (vs: Vec<CardView>)
    ensures
        shows_cards(vs@, cs@),
{
    let mut vs: Vec<CardView> = Vec::new();
    let mut i: usize = 0;
    while i < cs.len()
        invariant
            i <= cs@.len(),
            vs@.len() == i,
            forall|k: int| 0 <= k < i ==> shows_card(#[trigger] vs@[k], cs@[k]),
        decreases cs.len() - i,
    {
        vs.push(CardView::from_card(&cs[i]));
        i = i + 1;
    }
    vs
}

fn opt_card_view(c: Option<&Card>) -> (v: Option<CardView>)
    ensures
        match c {
            Some(x) => shows_opt_card(v, Some(*x)),
            None => v is None,
        },
{
    match c {
        Some(x) => Some(CardView::from_card(x)),
        None => None,
    }
}

fn copy_deltas(d: &Vec<i32>) -> (r: Vec<i32>)
    ensures
        r@ == d@,
{
    let mut r: Vec<i32> = Vec::new();
    let mut i: usize = 0;
    while i < d.len()
        invariant
            i <= d@.len(),
            r@ == d@.take(i as int),
        decreases d.len() - i,
    {
        r.push(d[i]);
        assert(d@.take(i + 1) =~= d@.take(i as int).push(d@[i as int]));
        i = i + 1;
    }
    assert(d@.take(d@.len() as int) =~= d@);
    r
}

impl EventView {
    pub fn from_event(e: &GameEvent) -> (v: EventView)
        ensures
            shows_event(v, e@),
    {
        match e {
            GameEvent::RoundStarted { round, dealer, flipped_card } => {
                let f = match flipped_card {
                    Some(c) => Some(CardView::from_card(c)),
                    None => None,
                };
                EventView::RoundStarted { round: *round, dealer: *dealer, flipped_card: f }
            },
            GameEvent::TrumpfChosen { chooser, suit } => EventView::TrumpfChosen {
                chooser: *chooser,
                suit: suit_name(suit).to_owned(),
            },
            GameEvent::Predicted { player, prediction } => EventView::Predicted {
                player: *player,
                prediction: *prediction,
            },
            GameEvent::CardPlayed { player, card } => EventView::CardPlayed {
                player: *player,
                card: CardView::from_card(card),
            },
            GameEvent::TrickWon { winner } => EventView::TrickWon { winner: *winner },
            GameEvent::RoundScored { round, deltas } => EventView::RoundScored {
                round: *round,
                deltas: copy_deltas(deltas),
            },
            GameEvent::GameOver => EventView::GameOver,
        }
    }
}

fn event_views(es: &[GameEvent]) -> (vs: Vec<EventView>)
    ensures
        shows_events(vs@, events_view(es@)),
{
    let mut vs: Vec<EventView> = Vec::new();
    let mut i: usize = 0;
    while i < es.len()
        invariant
            i <= es@.len(),
            vs@.len() == i,
            forall|k: int| 0 <= k < i ==> shows_event(#[trigger] vs@[k], es@[k]@),
        decreases es.len() - i,
    {
        vs.push(EventView::from_event(&es[i]));
        i = i + 1;
    }
    vs
}

impl LobbyView {
    pub fn from_game(id: String, game: &WizardGame) -> (v: LobbyView)
        ensures
            shows_lobby(v, id@, game@),
    {
        LobbyView {
            id,
            num_players: game.num_players(),
            players: player_views(game.players()),
            started: game.is_started(),
        }
    }
}

/// The first seat whose player is called `name`, if any.
pub fn find_player(game: &WizardGame, name: &str) -> (r: Option<usize>)
    ensures
        match r {
            Some(i) => first_seat_named(game@.players, name@, i as int),
            None => !name_taken(game@.players, name@),
        },
{
    let ps = game.players();
    let mut i: usize = 0;
    while i < ps.len()
        invariant
            i <= ps@.len(),
            players_view(ps@) == game@.players,
            forall|j: int| 0 <= j < i ==> (#[trigger] game@.players[j]).name != name@,
        decreases ps.len() - i,
    {
        assert(game@.players[i as int] == ps@[i as int]@);
        if crate::text::same_text(ps[i].name(), name) {
            return Some(i);
        }
        i = i + 1;
    }
    None
}

impl GameView {
    /// The view of the game for the player called `player_name`; `None`
    /// if nobody at the table has that name.
    pub fn for_player(id: &str, game: &WizardGame, player_name: &str) -> (r: Option<GameView>)
        requires
            valid(game@),
            game@.game_phase != GamePhase::NotStarted,
        ensures
            r is None <==> !name_taken(game@.players, player_name@),
            r matches Some(v) ==> shows_game(v, id@, game@, player_name@),
    {
        let your_index = match find_player(game, player_name) {
            Some(i) => i,
            None => {
                return None;
            },
        };
        let ps = game.players();
        assert(game@.players[your_index as int] == ps@[your_index as int]@);
        let your_legal_card_indices = if *game.game_phase() == GamePhase::Playing
            && game.current_player_index() == your_index {
            legal_card_indices(game, your_index)
        } else {
            Vec::new()
        };
        let mut trick: Vec<PlayedCard> = Vec::new();
        let t = game.current_trick();
        let mut k: usize = 0;
        while k < t.len()
            invariant
                k <= t@.len(),
                t@ == game@.current_trick,
                trick@.len() == k,
                forall|j: int|
                    0 <= j < k ==> (#[trigger] trick@[j]).player_index == t@[j].0 && shows_card(
                        trick@[j].card,
                        t@[j].1,
                    ),
            decreases t.len() - k,
        {
            trick.push(PlayedCard { player_index: t[k].0, card: CardView::from_card(&t[k].1) });
            k = k + 1;
        }
        let mut predictions: Vec<Option<usize>> = Vec::new();
        let mut tricks_won: Vec<usize> = Vec::new();
        let mut points: Vec<i32> = Vec::new();
        let mut i: usize = 0;
        while i < ps.len()
            invariant
                i <= ps@.len(),
                players_view(ps@) == game@.players,
                predictions@ == game@.players.map_values(|p: PlayerState| p.prediction).take(i as int),
                tricks_won@ == game@.players.map_values(|p: PlayerState| p.tricks_won).take(i as int),
                points@ == game@.players.map_values(|p: PlayerState| p.points).take(i as int),
            decreases ps.len() - i,
        {
            assert(game@.players[i as int] == ps@[i as int]@);
            predictions.push(ps[i].prediction());
            tricks_won.push(ps[i].tricks_won());
            points.push(ps[i].points());
            assert(predictions@ =~= game@.players.map_values(|p: PlayerState| p.prediction).take(
                i + 1,
            ));
            assert(tricks_won@ =~= game@.players.map_values(|p: PlayerState| p.tricks_won).take(
                i + 1,
            ));
            assert(points@ =~= game@.players.map_values(|p: PlayerState| p.points).take(i + 1));
            i = i + 1;
        }
        assert(predictions@ =~= game@.players.map_values(|p: PlayerState| p.prediction));
        assert(tricks_won@ =~= game@.players.map_values(|p: PlayerState| p.tricks_won));
        assert(points@ =~= game@.players.map_values(|p: PlayerState| p.points));
        let v = GameView {
            lobby_id: id.to_owned(),
            phase: phase_name(game.game_phase()).to_owned(),
            round: game.round_number(),
            max_rounds: game.max_rounds(),
            trumpf: opt_card_view(game.trumpf()),
            current_player_index: game.current_player_index(),
            current_trick_starter: game.current_trick_starter(),
            current_dealer_index: game.dealer_index(),
            current_trick: trick,
            players: player_views(ps),
            predictions,
            tricks_won,
            points,
            your_name: player_name.to_owned(),
            your_index,
            your_hand: card_views(ps[your_index].hand()),
            your_legal_card_indices,
            log: event_views(game.event_log()),
        };
        Some(v)
    }
}

} // verus!
