use vstd::prelude::*;

use crate::cards::{Card, Suit, DECK_SIZE};
use crate::game::{
    fresh_player, legal_card_indices, name_taken, new_game_state, AddPlayerError, PlayCardError,
    Player, PredictionError, WizardGame,
};
use crate::text::{decimal, decimal_string, is_blank, is_blank_text, same_text};
use crate::views::{find_player, first_seat_named, shows_game, shows_lobby, ErrorBody, GameView, LobbyView};
use crate::laws::{law_player_to_move_can_play, lemma_play_progress, lemma_predict_progress};
use crate::model::{
    evens_the_bids, choose_trumpf_step, predict_step, play_card_outcome, start_round, dealer_of, max_rounds_for, move_by, moves_since_by_bots, same_seats, total_held, turn_order,
    unpredicted, valid, GamePhase, GameState,
};
use crate::rng::random_below;
use crate::rules::{is_legal_play, lead_suit, legal_index_list};

verus! {

/// The game is waiting for a human: the player to act is not a bot, or
/// nobody is to act.
pub open spec fn awaits_human(g: GameState) -> bool {
    let n = g.num_players as int;
    match g.game_phase {
        GamePhase::ChooseTrumpf => !g.players[dealer_of(g.round_number as int, n)].is_bot,
        GamePhase::Prediction => !g.players[g.current_player_index as int].is_bot,
        GamePhase::Playing => !g.players[g.current_player_index as int].is_bot,
        _ => true,
    }
}

pub open spec fn phase_rank(p: GamePhase) -> int {
    match p {
        GamePhase::ChooseTrumpf => 2,
        GamePhase::Prediction => 1,
        _ => 0,
    }
}

/// Moves left in the current phase: predictions still to make, or cards still to play.
pub open spec fn moves_left_in_phase(g: GameState) -> int {
    match g.game_phase {
        GamePhase::Prediction => unpredicted(g.players),
        GamePhase::Playing => total_held(g.players),
        _ => 0,
    }
}

/// The colour at position `i` of the list red, yellow, green, blue.
pub open spec fn suit_in_order(i: int) -> Suit {
    if i == 0 {
        Suit::Red
    } else if i == 1 {
        Suit::Yellow
    } else if i == 2 {
        Suit::Green
    } else {
        Suit::Blue
    }
}

/// The colour at position `i` (0 to 3) of the list red, yellow, green, blue.
pub fn suit_at(i: usize) -> (s: Suit)
    requires
        i < 4,
    ensures
        s == suit_in_order(i as int),
{
    if i == 0 {
        Suit::Red
    } else if i == 1 {
        Suit::Yellow
    } else if i == 2 {
        Suit::Green
    } else {
        Suit::Blue
    }
}

/// A random colour, each equally likely: the colour at a random position of
/// the list red, yellow, green, blue. Every colour can come, so nothing is
/// promised of the result.
pub fn random_suit() -> (s: Suit) {
    let i = random_below(4);
    suit_at(i)
}

proof fn lemma_moves_nonneg(g: GameState)
    ensures
        moves_left_in_phase(g) >= 0,
{
    crate::model::lemma_sum_nonneg(g.players, crate::model::held_of());
    crate::model::lemma_sum_nonneg(g.players, crate::model::unpredicted_of());
}

/// One move by the bot whose turn it is in `s`, leading to `t`: a bot dealer
/// names a trump colour; a bot predicts from 0 to the round number, but not
/// the prediction that would make all predictions add up to it; a bot plays
/// a card that the follow-suit rule allows.
pub open spec fn bot_step(s: GameState, t: GameState) -> bool {
    let n = s.num_players as int;
    let cur = s.current_player_index as int;
    match s.game_phase {
        GamePhase::ChooseTrumpf => s.players[dealer_of(s.round_number as int, n)].is_bot && exists|
            suit: Suit,
        | t == #[trigger] choose_trumpf_step(s, suit),
        GamePhase::Prediction => s.players[cur].is_bot && exists|p: usize|
            p <= s.round_number && !evens_the_bids(s, cur, p) && t == #[trigger] predict_step(
                s,
                cur,
                p,
            ),
        GamePhase::Playing => s.players[cur].is_bot && exists|ci: int|
            is_legal_play(s.players[cur].hand, ci, lead_suit(s.current_trick))
                && #[trigger] play_card_outcome(s, cur, ci, t),
        _ => false,
    }
}

/// `b` is reached from `a` by bot moves alone, one after another (none at all when `b == a`).
pub open spec fn bot_moves(a: GameState, b: GameState) -> bool {
    exists|path: Seq<GameState>|
        {
            &&& path.len() >= 1
            &&& path[0] == a
            &&& path.last() == b
            &&& forall|k: int| 0 <= k < path.len() - 1 ==> bot_step(#[trigger] path[k], path[k + 1])
        }
}

proof fn lemma_path_bot_moves(a: GameState, b: GameState, path: Seq<GameState>)
    requires
        path.len() >= 1,
        path[0] == a,
        path.last() == b,
        forall|k: int| 0 <= k < path.len() - 1 ==> bot_step(#[trigger] path[k], path[k + 1]),
    ensures
        bot_moves(a, b),
{
}

/// A path of bot moves that ends in `a` extends by one more bot move.
proof fn lemma_path_push(path: Seq<GameState>, t: GameState)
    requires
        path.len() >= 1,
        forall|k: int| 0 <= k < path.len() - 1 ==> bot_step(#[trigger] path[k], path[k + 1]),
        bot_step(path.last(), t),
    ensures
        ({
            let p2 = path.push(t);
            &&& p2.len() >= 1
            &&& p2[0] == path[0]
            &&& p2.last() == t
            &&& forall|k: int| 0 <= k < p2.len() - 1 ==> bot_step(#[trigger] p2[k], p2[k + 1])
        }),
{
    let p2 = path.push(t);
    assert forall|k: int| 0 <= k < p2.len() - 1 implies bot_step(#[trigger] p2[k], p2[k + 1]) by {
        if k < path.len() - 1 {
            assert(p2[k] == path[k] && p2[k + 1] == path[k + 1]);
        } else {
            assert(p2[k] == path.last());
        }
    }
}

/// Takes every turn that falls to a bot, until a human is to act or the
/// game has ended: a bot dealer names a random trump colour, a bot predicts
/// a random number of tricks, a bot plays a random legal card.
pub fn drive_bot_actions(game: &mut WizardGame)
    requires
        valid(old(game)@),
        turn_order(old(game)@),
    ensures
        valid(final(game)@),
        turn_order(final(game)@),
        awaits_human(final(game)@),
        same_seats(old(game)@, final(game)@),
        moves_since_by_bots(old(game)@, final(game)@),
        bot_moves(old(game)@, final(game)@),
        old(game)@.game_phase != GamePhase::NotStarted ==> final(game)@.game_phase
            != GamePhase::NotStarted,
{
    let ghost g0 = game@;
    let ghost mut path: Seq<GameState> = seq![g0];
    assert(game@.event_log.take(game@.event_log.len() as int) =~= game@.event_log);
    loop
        invariant
            valid(game@),
            turn_order(game@),
            same_seats(g0, game@),
            moves_since_by_bots(g0, game@),
            g0.game_phase != GamePhase::NotStarted ==> game@.game_phase != GamePhase::NotStarted,
            path.len() >= 1,
            path[0] == g0,
            path.last() == game@,
            forall|k: int| 0 <= k < path.len() - 1 ==> bot_step(#[trigger] path[k], path[k + 1]),
        ensures
            valid(game@),
            turn_order(game@),
            awaits_human(game@),
            same_seats(g0, game@),
            moves_since_by_bots(g0, game@),
            g0.game_phase != GamePhase::NotStarted ==> game@.game_phase != GamePhase::NotStarted,
            bot_moves(g0, game@),
        decreases
            max_rounds_for(game@.num_players as int) - game@.round_number,
            phase_rank(game@.game_phase),
            moves_left_in_phase(game@),
    {
        let ghost g = game@;
        proof {
            lemma_path_bot_moves(g0, g, path);
            lemma_moves_nonneg(g);
            if g.game_phase != GamePhase::NotStarted {
                crate::model::lemma_rounds_fit(g.num_players as int, g.round_number as int);
            }
        }
        match *game.game_phase() {
            GamePhase::ChooseTrumpf => {
                let chooser = game.dealer_index();
                if !game.players()[chooser].is_bot() {
                    break ;
                }
                let suit = random_suit();
                game.choose_trumpf(suit);
                proof {
                    let g2 = game@;
                    assert(bot_step(g, g2));
                    lemma_path_push(path, g2);
                    path = path.push(g2);
                    assert(g2.event_log.take(g.event_log.len() as int) =~= g.event_log);
                    assert(g2.event_log.take(g0.event_log.len() as int) =~= g0.event_log);
                    assert(g2.round_number == g.round_number && phase_rank(g2.game_phase) < phase_rank(g.game_phase));
                }
            },
            GamePhase::Prediction => {
                let cur = game.current_player_index();
                if !game.players()[cur].is_bot() {
                    break ;
                }
                let max = game.round_number();
                // a random prediction from 0 to the round number, leaving out
                // the one that would make the predictions add up to it
                let prediction = match game.forbidden_prediction(cur) {
                    None => random_below(max + 1),
                    Some(f) => {
                        let k = random_below(max);
                        if k >= f {
                            k + 1
                        } else {
                            k
                        }
                    },
                };
                let predicted = game.place_prediction(cur, prediction);
                assert(predicted is Ok);
                proof {
                    lemma_predict_progress(g, cur as int, prediction);
                    let g2 = game@;
                    assert(bot_step(g, g2));
                    lemma_path_push(path, g2);
                    path = path.push(g2);
                    lemma_moves_nonneg(g2);
                    assert(g2.round_number == g.round_number);
                    assert(phase_rank(g2.game_phase) < phase_rank(g.game_phase) || (phase_rank(g2.game_phase) == phase_rank(g.game_phase) && moves_left_in_phase(g2) < moves_left_in_phase(g)));
                    assert(g2.event_log.take(g.event_log.len() as int) =~= g.event_log);
                    assert(g2.event_log.take(g0.event_log.len() as int) =~= g0.event_log);
                }
            },
            GamePhase::Playing => {
                let cur = game.current_player_index();
                if !game.players()[cur].is_bot() {
                    break ;
                }
                proof {
                    law_player_to_move_can_play(g);
                    assert forall|j: int| 0 <= j < g.players.len() implies crate::model::held_of()(
                        #[trigger] g.players[j],
                    ) >= 0 by {}
                    crate::model::lemma_sum_nonneg_le(g.players, crate::model::held_of(), cur as int);
                    assert(total_held(g.players) >= 1);
                }
                let legal = legal_card_indices(game, cur);
                proof {
                    let i = choose|i: int|
                        is_legal_play(g.players[cur as int].hand, i, lead_suit(g.current_trick));
                    assert(legal@.contains(i as usize));
                }
                let k = random_below(legal.len());
                let pick = legal[k];
                assert(is_legal_play(g.players[cur as int].hand, legal@[k as int] as int, lead_suit(g.current_trick)));
                let played = game.play_card(cur, pick);
                assert(played is Ok);
                proof {
                    lemma_play_progress(g, cur as int, pick as int, game@);
                    let g2 = game@;
                    assert(bot_step(g, g2));
                    lemma_path_push(path, g2);
                    path = path.push(g2);
                    lemma_moves_nonneg(g2);
                    if g2.game_phase != GamePhase::NotStarted {
                        crate::model::lemma_rounds_fit(g2.num_players as int, g2.round_number as int);
                    }
                    assert(max_rounds_for(g2.num_players as int) - g2.round_number < max_rounds_for(g.num_players as int) - g.round_number
                     || (g2.round_number == g.round_number && phase_rank(g2.game_phase) == phase_rank(g.game_phase) && moves_left_in_phase(g2) < moves_left_in_phase(g)));
                    assert(g2.event_log.take(g0.event_log.len() as int) =~= g0.event_log) by {
                        assert(g2.event_log.take(g0.event_log.len() as int) =~= g2.event_log.take(
                            g.event_log.len() as int,
                        ).take(g0.event_log.len() as int));
                    }
                    assert forall|k: int|
                        g0.event_log.len() <= k < g2.event_log.len() implies (#[trigger] move_by(
                        g2.event_log[k],
                    ) matches Some(p) ==> p < g2.players.len() && g2.players[p as int].is_bot) by {
                        if k < g.event_log.len() {
                            assert(g2.event_log[k] == g.event_log[k]);
                        }
                    }
                }
            },
            _ => {
                break ;
            },
        }
    }
}

// ----- requests and errors -----

/// Request to open a lobby.
#[derive(Debug)]
pub struct CreateInput {
    pub playername: String,
    pub num_players: usize,
}

/// Request to join a lobby.
#[derive(Debug)]
pub struct JoinInput {
    pub playername: String,
}

/// Request to predict.
#[derive(Debug)]
pub struct PredictInput {
    pub player: String,
    pub prediction: usize,
}

/// Request to play a card.
#[derive(Debug)]
pub struct PlayInput {
    pub player: String,
    pub card_index: usize,
}

/// Request to name the trump colour.
#[derive(Debug)]
pub struct ChooseTrumpfInput {
    pub player: String,
    pub suit: String,
}

pub const BAD_REQUEST: u16 = 400;

pub const FORBIDDEN: u16 = 403;

pub const NOT_FOUND: u16 = 404;

pub const CONFLICT: u16 = 409;

/// A refused request: the HTTP status and the body to answer with.
#[derive(Debug, PartialEq, Eq)]
pub struct ApiError {
    pub status: u16,
    pub body: ErrorBody,
}

pub open spec fn fails_with<T>(r: Result<T, ApiError>, status: u16, msg: Seq<char>) -> bool {
    r matches Err(e) && e.status == status && e.body.error@ == msg
}

fn api_error(status: u16, msg: String) -> (e: ApiError)
    ensures
        e.status == status,
        e.body.error@ == msg@,
{
    ApiError { status, body: ErrorBody { error: msg } }
}

fn api_error_str(status: u16, msg: &str) -> (e: ApiError)
    ensures
        e.status == status,
        e.body.error@ == msg@,
{
    api_error(status, msg.to_owned())
}

/// The answer to a lookup of a lobby id that does not exist.
pub fn lobby_not_found() -> (e: ApiError)
    ensures
        e.status == NOT_FOUND,
        e.body.error@ == "lobby not found"@,
{
    api_error_str(NOT_FOUND, "lobby not found")
}

/// The answer to a request by a name nobody in the lobby has.
pub fn player_not_in_lobby() -> (e: ApiError)
    ensures
        e.status == FORBIDDEN,
        e.body.error@ == "player not in this lobby"@,
{
    api_error_str(FORBIDDEN, "player not in this lobby")
}

/// After `s`, bots took their turns until a human is to act: `f` keeps the
/// seats and the log of `s`, every move logged since is a bot's, and the
/// game stays valid and in turn order.
pub open spec fn bots_moved_after(s: GameState, f: GameState) -> bool {
    &&& valid(f)
    &&& turn_order(f)
    &&& awaits_human(f)
    &&& same_seats(s, f)
    &&& moves_since_by_bots(s, f)
    &&& bot_moves(s, f)
}

pub open spec fn name_taken_message(name: Seq<char>) -> Seq<char> {
    "name '"@ + name + "' is already taken in this lobby"@
}

/// The player names must not be blank.
pub fn check_playername(name: &str) -> (r: Result<(), ApiError>)
    ensures
        r is Ok <==> !is_blank_text(name@),
        !is_blank_text(name@) || fails_with(r, BAD_REQUEST, "playername must not be empty"@),
{
    if is_blank(name) {
        return Err(api_error_str(BAD_REQUEST, "playername must not be empty"));
    }
    Ok(())
}

/// Opens a lobby for 3 to 6 players with its first (human) player.
pub fn create_lobby(input: &CreateInput) -> (r: Result<WizardGame, ApiError>)
    ensures
        !(3 <= input.num_players <= 6) ==> fails_with(
            r,
            BAD_REQUEST,
            "num_players must be between 3 and 6"@,
        ),
        3 <= input.num_players <= 6 && is_blank_text(input.playername@) ==> fails_with(
            r,
            BAD_REQUEST,
            "playername must not be empty"@,
        ),
        3 <= input.num_players <= 6 && !is_blank_text(input.playername@) ==> (r matches Ok(g) && g@
            == new_game_state(input.num_players, input.playername@) && valid(g@) && turn_order(g@)),
{
    if input.num_players < 3 || input.num_players > 6 {
        return Err(api_error_str(BAD_REQUEST, "num_players must be between 3 and 6"));
    }
    check_playername(input.playername.as_str())?;
    let g = WizardGame::new(input.num_players, input.playername.as_str());
    Ok(g)
}

/// Seats a new player; a refusal leaves the game as it was.
fn seat_player(id: &str, game: &mut WizardGame, player: Player) -> (r: Result<LobbyView, ApiError>)
    requires
        valid(old(game)@),
        player@.points == 0,
    ensures
        old(game)@.players.len() >= old(game)@.num_players ==> fails_with(
            r,
            CONFLICT,
            "lobby is full"@,
        ),
        old(game)@.players.len() < old(game)@.num_players && name_taken(
            old(game)@.players,
            player@.name,
        ) ==> fails_with(r, CONFLICT, name_taken_message(player@.name)),
        old(game)@.players.len() < old(game)@.num_players && !name_taken(
            old(game)@.players,
            player@.name,
        ) ==> (r matches Ok(v) && final(game)@ == (GameState {
            players: old(game)@.players.push(player@),
            ..old(game)@
        }) && shows_lobby(v, id@, final(game)@)),
        r is Err ==> final(game)@ == old(game)@,
        valid(final(game)@),
        turn_order(old(game)@) ==> turn_order(final(game)@),
{
    let ghost pname = player@.name;
    match game.add_player(player) {
        Ok(()) => Ok(LobbyView::from_game(id.to_owned(), game)),
        Err(AddPlayerError::LobbyFull { .. }) => Err(api_error_str(CONFLICT, "lobby is full")),
        Err(AddPlayerError::NameTaken { name }) => {
            let mut msg = "name '".to_owned();
            msg.append(name.as_str());
            msg.append("' is already taken in this lobby");
            Err(api_error(CONFLICT, msg))
        },
    }
}

/// A human joins the lobby (the name was checked with `check_playername`).
pub fn join_lobby(id: &str, game: &mut WizardGame, input: &JoinInput) -> (r: Result<
    LobbyView,
    ApiError,
>)
    requires
        valid(old(game)@),
    ensures
        old(game)@.players.len() >= old(game)@.num_players ==> fails_with(
            r,
            CONFLICT,
            "lobby is full"@,
        ),
        old(game)@.players.len() < old(game)@.num_players && name_taken(
            old(game)@.players,
            input.playername@,
        ) ==> fails_with(r, CONFLICT, name_taken_message(input.playername@)),
        old(game)@.players.len() < old(game)@.num_players && !name_taken(
            old(game)@.players,
            input.playername@,
        ) ==> (r matches Ok(v) && final(game)@ == (GameState {
            players: old(game)@.players.push(fresh_player(input.playername@, false)),
            ..old(game)@
        }) && shows_lobby(v, id@, final(game)@)),
        r is Err ==> final(game)@ == old(game)@,
        valid(final(game)@),
        turn_order(old(game)@) ==> turn_order(final(game)@),
{
    let player = Player::new(input.playername.as_str());
    seat_player(id, game, player)
}

/// The name of the `k`-th bot.
pub open spec fn bot_name(k: nat) -> Seq<char> {
    "BOT_"@ + decimal(k)
}

/// `k` is the smallest positive number whose bot name nobody has.
pub open spec fn first_free_bot(ps: Seq<crate::model::PlayerState>, k: nat) -> bool {
    &&& k >= 1
    &&& !name_taken(ps, bot_name(k))
    &&& forall|j: nat| 1 <= j < k ==> name_taken(ps, #[trigger] bot_name(j))
}

proof fn lemma_bot_name_injective(a: nat, b: nat)
    requires
        bot_name(a) == bot_name(b),
    ensures
        a == b,
{
    let p = "BOT_"@;
    assert(bot_name(a).skip(p.len() as int) =~= decimal(a));
    assert(bot_name(b).skip(p.len() as int) =~= decimal(b));
    crate::text::lemma_decimal_injective(a, b);
}

/// `m` different bot names cannot all be taken by fewer than `m` players.
proof fn lemma_bot_names_pigeonhole(ps: Seq<crate::model::PlayerState>, m: nat)
    requires
        forall|j: nat| 1 <= j <= m ==> name_taken(ps, #[trigger] bot_name(j)),
    ensures
        m <= ps.len(),
{
    let names = ps.map_values(|p: crate::model::PlayerState| p.name);
    let x = vstd::set_lib::set_int_range(1, m as int + 1);
    let f = |j: int| bot_name(j as nat);
    vstd::set_lib::lemma_int_range(1, m as int + 1);
    assert(vstd::relations::injective_on(f, x)) by {
        assert forall|a: int, b: int| x.contains(a) && x.contains(b) && #[trigger] f(a) == #[trigger] f(b) implies a == b by {
            lemma_bot_name_injective(a as nat, b as nat);
        }
    }
    let y = x.map(f);
    vstd::set_lib::lemma_map_size(x, y, f);
    assert(y.subset_of(names.to_set())) by {
        assert forall|s: Seq<char>| y.contains(s) implies names.to_set().contains(s) by {
            let j = choose|j: int| x.contains(j) && f(j) == s;
            assert(name_taken(ps, bot_name(j as nat)));
            let i = choose|i: int| 0 <= i < ps.len() && (#[trigger] ps[i]).name == bot_name(j as nat);
            assert(names[i] == s);
        }
    }
    vstd::set_lib::lemma_len_subset(y, names.to_set());
    names.lemma_cardinality_of_set();
}

fn bot_name_string(k: usize) -> (s: String)
    ensures
        s@ == bot_name(k as nat),
{
    let mut s = "BOT_".to_owned();
    let d = decimal_string(k);
    s.append(d.as_str());
    s
}

/// Seats a bot, named after the first free number (`BOT_1`, `BOT_2`, ...),
/// unless the game has started or the lobby is full.
pub fn add_bot_player(id: &str, game: &mut WizardGame) -> (r: Result<LobbyView, ApiError>)
    requires
        valid(old(game)@),
        old(game)@.players.len() < usize::MAX,
    ensures
        old(game)@.game_phase != GamePhase::NotStarted ==> fails_with(
            r,
            CONFLICT,
            "game already started"@,
        ),
        old(game)@.game_phase == GamePhase::NotStarted && old(game)@.players.len() >= old(
            game,
        )@.num_players ==> fails_with(r, CONFLICT, "lobby is full"@),
        old(game)@.game_phase == GamePhase::NotStarted && old(game)@.players.len() < old(
            game,
        )@.num_players ==> (r matches Ok(v) && exists|k: nat|
            first_free_bot(old(game)@.players, k) && final(game)@ == (GameState {
                players: old(game)@.players.push(fresh_player(bot_name(k), true)),
                ..old(game)@
            }) && shows_lobby(v, id@, final(game)@)),
        r is Err ==> final(game)@ == old(game)@,
        valid(final(game)@),
        turn_order(old(game)@) ==> turn_order(final(game)@),
{
    if game.is_started() {
        return Err(api_error_str(CONFLICT, "game already started"));
    }
    let ghost ps = game@.players;
    let len = game.players().len();
    let mut k: usize = 1;
    let mut name = String::new();
    loop
        invariant
            1 <= k <= len + 1,
            len < usize::MAX,
            len == ps.len(),
            game@.players == ps,
            forall|j: nat| 1 <= j < k ==> name_taken(ps, #[trigger] bot_name(j)),
        ensures
            first_free_bot(ps, k as nat),
            name@ == bot_name(k as nat),
        decreases len + 1 - k,
    {
        let candidate = bot_name_string(k);
        match find_player(game, candidate.as_str()) {
            None => {
                name = candidate;
                break ;
            },
            Some(i) => {
                proof {
                    assert(ps[i as int].name == bot_name(k as nat));
                    assert(name_taken(ps, bot_name(k as nat)));
                    if k == len + 1 {
                        lemma_bot_names_pigeonhole(ps, k as nat);
                        assert(false);
                    }
                }
            },
        }
        k = k + 1;
    }
    let player = Player::new_bot(name.as_str());
    seat_player(id, game, player)
}

/// Starts a full lobby: deals the first round and lets the bots act.
pub fn start_lobby(id: &str, game: &mut WizardGame) -> (r: Result<LobbyView, ApiError>)
    requires
        valid(old(game)@),
        turn_order(old(game)@),
        old(game)@.game_phase == GamePhase::NotStarted && old(game)@.players.len() >= old(
            game,
        )@.num_players ==> old(game)@.num_players <= DECK_SIZE,
    ensures
        old(game)@.game_phase != GamePhase::NotStarted ==> fails_with(
            r,
            CONFLICT,
            "game already started"@,
        ),
        old(game)@.game_phase == GamePhase::NotStarted && old(game)@.players.len() < old(
            game,
        )@.num_players ==> fails_with(
            r,
            CONFLICT,
            "lobby not full ("@ + decimal(old(game)@.players.len()) + "/"@ + decimal(
                old(game)@.num_players as nat,
            ) + ")"@,
        ),
        old(game)@.game_phase == GamePhase::NotStarted && old(game)@.players.len() >= old(
            game,
        )@.num_players ==> (r matches Ok(v) && (exists|d: Seq<Card>|
            d.to_multiset() == old(game)@.deck.to_multiset() && bots_moved_after(
                #[trigger] start_round(old(game)@, d),
                final(game)@,
            )) && final(game)@.game_phase != GamePhase::NotStarted && v.started && shows_lobby(
            v,
            id@,
            final(game)@,
        )),
        r is Err ==> final(game)@ == old(game)@,
        valid(final(game)@),
        turn_order(final(game)@),
{
    if game.is_started() {
        return Err(api_error_str(CONFLICT, "game already started"));
    }
    if !game.is_full() {
        let mut msg = "lobby not full (".to_owned();
        let a = decimal_string(game.players().len());
        let b = decimal_string(game.num_players());
        msg.append(a.as_str());
        msg.append("/");
        msg.append(b.as_str());
        msg.append(")");
        return Err(api_error(CONFLICT, msg));
    }
    let ghost g0 = game@;
    proof {
        assert(g0.round_number == 0);
        let l = g0.players.len() as int;
        assert(l * (0 + 1) == l) by (nonlinear_arith);
    }
    game.start_game();
    drive_bot_actions(game);
    Ok(LobbyView::from_game(id.to_owned(), game))
}

/// Reads the colour a player names: `red`, `yellow`, `green` or `blue`.
pub fn suit_from_input(s: &str) -> (r: Result<Suit, ApiError>)
    ensures
        s@ == "red"@ ==> (r matches Ok(x) && x == Suit::Red),
        s@ == "yellow"@ ==> (r matches Ok(x) && x == Suit::Yellow),
        s@ == "green"@ ==> (r matches Ok(x) && x == Suit::Green),
        s@ == "blue"@ ==> (r matches Ok(x) && x == Suit::Blue),
        s@ != "red"@ && s@ != "yellow"@ && s@ != "green"@ && s@ != "blue"@ ==> fails_with(
            r,
            BAD_REQUEST,
            "suit must be red/yellow/green/blue"@,
        ),
{
    proof {
        reveal_strlit("red");
        reveal_strlit("yellow");
        reveal_strlit("green");
        reveal_strlit("blue");
        // the four names differ in length
        assert("red"@.len() == 3 && "blue"@.len() == 4);
        assert("green"@.len() == 5 && "yellow"@.len() == 6);
    }
    if same_text(s, "red") {
        Ok(Suit::Red)
    } else if same_text(s, "yellow") {
        Ok(Suit::Yellow)
    } else if same_text(s, "green") {
        Ok(Suit::Green)
    } else if same_text(s, "blue") {
        Ok(Suit::Blue)
    } else {
        Err(api_error_str(BAD_REQUEST, "suit must be red/yellow/green/blue"))
    }
}

/// The view for `name` of a game that keeps the seats of `before`, where
/// `name` sits.
fn view_after(id: &str, game: &WizardGame, name: &str, Ghost(before): Ghost<GameState>, Ghost(
    i,
): Ghost<int>) -> (r: Result<GameView, ApiError>)
    requires
        valid(game@),
        game@.game_phase != GamePhase::NotStarted,
        same_seats(before, game@),
        first_seat_named(before.players, name@, i),
    ensures
        r matches Ok(v) && shows_game(v, id@, game@, name@),
{
    proof {
        assert(game@.players[i].name == name@);
    }
    match GameView::for_player(id, game, name) {
        Some(v) => Ok(v),
        None => {
            proof {
                assert(false);
            }
            Err(player_not_in_lobby())
        },
    }
}

proof fn lemma_same_seats_first_named(a: GameState, b: GameState, name: Seq<char>, i: int)
    requires
        same_seats(a, b),
        first_seat_named(a.players, name, i),
    ensures
        first_seat_named(b.players, name, i),
{
    assert forall|j: int| 0 <= j < i implies (#[trigger] b.players[j]).name != name by {
        assert(a.players[j].name != name);
    }
}

/// The dealer names the trump colour; then the bots act.
pub fn choose_trumpf_as(
    id: &str,
    game: &mut WizardGame,
    input: &ChooseTrumpfInput,
    suit: Suit,
) -> (r: Result<GameView, ApiError>)
    requires
        valid(old(game)@),
        turn_order(old(game)@),
    ensures
        !name_taken(old(game)@.players, input.player@) ==> fails_with(
            r,
            FORBIDDEN,
            "player not in this lobby"@,
        ),
        name_taken(old(game)@.players, input.player@) && old(game)@.game_phase
            != GamePhase::ChooseTrumpf ==> fails_with(r, CONFLICT, "not in choose-trumpf phase"@),
        forall|i: int|
            first_seat_named(old(game)@.players, input.player@, i) && old(game)@.game_phase
                == GamePhase::ChooseTrumpf ==> (if dealer_of(
                old(game)@.round_number as int,
                old(game)@.num_players as int,
            ) != i {
                fails_with(r, CONFLICT, "you are not the trumpf chooser"@)
            } else {
                r matches Ok(v) && bots_moved_after(choose_trumpf_step(old(game)@, suit), final(game)@)
                    && shows_game(v, id@, final(game)@, input.player@)
            }),
        r is Err ==> final(game)@ == old(game)@,
        valid(final(game)@),
        turn_order(final(game)@),
{
    let player_index = match find_player(game, input.player.as_str()) {
        Some(i) => i,
        None => {
            return Err(player_not_in_lobby());
        },
    };
    if *game.game_phase() != GamePhase::ChooseTrumpf {
        return Err(api_error_str(CONFLICT, "not in choose-trumpf phase"));
    }
    if game.dealer_index() != player_index {
        return Err(api_error_str(CONFLICT, "you are not the trumpf chooser"));
    }
    let ghost g0 = game@;
    game.choose_trumpf(suit);
    drive_bot_actions(game);
    proof {
        lemma_same_seats_first_named(g0, game@, input.player@, player_index as int);
    }
    view_after(id, game, input.player.as_str(), Ghost(g0), Ghost(player_index as int))
}

/// A player predicts; then the bots act.
pub fn predict_as(id: &str, game: &mut WizardGame, input: &PredictInput) -> (r: Result<
    GameView,
    ApiError,
>)
    requires
        valid(old(game)@),
        turn_order(old(game)@),
    ensures
        !name_taken(old(game)@.players, input.player@) ==> fails_with(
            r,
            FORBIDDEN,
            "player not in this lobby"@,
        ),
        forall|i: int|
            first_seat_named(old(game)@.players, input.player@, i) ==> {
                let g = old(game)@;
                if g.game_phase != GamePhase::Prediction {
                    fails_with(r, CONFLICT, "not in prediction phase"@)
                } else if i != g.current_player_index {
                    fails_with(r, CONFLICT, "not your turn"@)
                } else if input.prediction > g.round_number {
                    fails_with(
                        r,
                        BAD_REQUEST,
                        "prediction must be between 0 and "@ + decimal(g.round_number as nat),
                    )
                } else if evens_the_bids(g, i, input.prediction) {
                    fails_with(
                        r,
                        BAD_REQUEST,
                        "the predictions must not add up to "@ + decimal(g.round_number as nat),
                    )
                } else {
                    r matches Ok(v) && bots_moved_after(
                        predict_step(g, i, input.prediction),
                        final(game)@,
                    ) && shows_game(v, id@, final(game)@, input.player@)
                }
            },
        r is Err ==> final(game)@ == old(game)@,
        valid(final(game)@),
        turn_order(final(game)@),
{
    let player_index = match find_player(game, input.player.as_str()) {
        Some(i) => i,
        None => {
            return Err(player_not_in_lobby());
        },
    };
    let ghost g0 = game@;
    match game.place_prediction(player_index, input.prediction) {
        Ok(()) => {},
        Err(e) => {
            let status = match e {
                PredictionError::OutOfRange { .. } | PredictionError::SumMatchesTricks { .. } => {
                    BAD_REQUEST
                },
                _ => CONFLICT,
            };
            return Err(api_error(status, e.message()));
        },
    }
    proof {
        crate::laws::lemma_predict_progress(g0, player_index as int, input.prediction);
    }
    drive_bot_actions(game);
    proof {
        lemma_same_seats_first_named(g0, game@, input.player@, player_index as int);
    }
    view_after(id, game, input.player.as_str(), Ghost(g0), Ghost(player_index as int))
}

/// A player plays a card; then the bots act.
pub fn play_as(id: &str, game: &mut WizardGame, input: &PlayInput) -> (r: Result<
    GameView,
    ApiError,
>)
    requires
        valid(old(game)@),
        turn_order(old(game)@),
    ensures
        !name_taken(old(game)@.players, input.player@) ==> fails_with(
            r,
            FORBIDDEN,
            "player not in this lobby"@,
        ),
        forall|i: int|
            first_seat_named(old(game)@.players, input.player@, i) ==> {
                let g = old(game)@;
                let ci = input.card_index;
                if g.game_phase != GamePhase::Playing {
                    fails_with(r, CONFLICT, "not in playing phase"@)
                } else if i != g.current_player_index {
                    fails_with(r, CONFLICT, "not your turn"@)
                } else if ci >= g.players[i].hand.len() {
                    fails_with(
                        r,
                        BAD_REQUEST,
                        "card index "@ + decimal(ci as nat) + " out of range (hand has "@ + decimal(
                            g.players[i].hand.len(),
                        ) + " cards)"@,
                    )
                } else if crate::rules::breaks_follow_suit(
                    g.players[i].hand[ci as int],
                    g.players[i].hand,
                    lead_suit(g.current_trick),
                ) {
                    fails_with(r, BAD_REQUEST, "must follow lead suit"@)
                } else {
                    r matches Ok(v) && (exists|n: GameState|
                        play_card_outcome(g, i, ci as int, n) && #[trigger] bots_moved_after(
                            n,
                            final(game)@,
                        )) && shows_game(v, id@, final(game)@, input.player@)
                }
            },
        r is Err ==> final(game)@ == old(game)@,
        valid(final(game)@),
        turn_order(final(game)@),
{
    let player_index = match find_player(game, input.player.as_str()) {
        Some(i) => i,
        None => {
            return Err(player_not_in_lobby());
        },
    };
    let ghost g0 = game@;
    match game.play_card(player_index, input.card_index) {
        Ok(()) => {},
        Err(e) => {
            let status = match e {
                PlayCardError::BadIndex { .. } | PlayCardError::MustFollowSuit => BAD_REQUEST,
                _ => CONFLICT,
            };
            return Err(api_error(status, e.message()));
        },
    }
    let ghost g1 = game@;
    proof {
        lemma_play_progress(g0, player_index as int, input.card_index as int, g1);
    }
    drive_bot_actions(game);
    proof {
        lemma_same_seats_first_named(g0, g1, input.player@, player_index as int);
        lemma_same_seats_first_named(g1, game@, input.player@, player_index as int);
        assert(bots_moved_after(g1, game@));
    }
    view_after(id, game, input.player.as_str(), Ghost(g1), Ghost(player_index as int))
}

/// The game as the player called `player` sees it.
pub fn state_for(id: &str, game: &WizardGame, player: &str) -> (r: Result<GameView, ApiError>)
    requires
        valid(game@),
    ensures
        game@.game_phase == GamePhase::NotStarted ==> fails_with(
            r,
            CONFLICT,
            "game not started"@,
        ),
        game@.game_phase != GamePhase::NotStarted && !name_taken(game@.players, player@)
            ==> fails_with(r, FORBIDDEN, "player not in this lobby"@),
        game@.game_phase != GamePhase::NotStarted && name_taken(game@.players, player@) ==> (r matches Ok(
            v,
        ) && shows_game(v, id@, game@, player@)),
{
    if !game.is_started() {
        return Err(api_error_str(CONFLICT, "game not started"));
    }
    match GameView::for_player(id, game, player) {
        Some(v) => Ok(v),
        None => Err(player_not_in_lobby()),
    }
}

} // verus!
