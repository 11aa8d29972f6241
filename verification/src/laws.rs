use vstd::prelude::*;

use vstd::multiset::Multiset;

use crate::cards::{is_special, spec_is_jester, spec_is_wizard, Card, Suit, DECK_SIZE};
use crate::model::{
    choose_trumpf_step, prediction_or_zero, bid_of, evens_the_bids, in_round, sum_by,
    same_seats, move_by, unpredicted, unpredicted_of, first_seat, has_played, lemma_deal_position, lemma_mod_window, lemma_seats, seat_offset,
    turn_order, all_predicted, predict_step, play_card_outcome, score_round_step, dealt_hand,
    all_hands_empty, cards_accounted, cards_out, dealer_of, flip_after_deal, held_of,
    lemma_rounds_fit, lemma_small_counts, lemma_sum_const, lemma_sum_nonneg, lemma_sum_update, max_rounds_for,
    next_seat, opening_phase, place_card, resolve_trick_step, start_round, total_held,
    total_tricks, tricks_of, valid, GamePhase, GameState, PlayerState,
};
use crate::rules::{
    lead_suit, breaks_follow_suit, holds_suit, is_legal_play, lemma_winner_props, round_delta, trick_winner,
    trump_of, winner_pos,
};

verus! {

/// Placing a card moves it from a hand to the table: the cards accounted
/// for stay the same.
pub proof fn lemma_place_card_keeps_cards(g: GameState, pi: int, ci: int)
    requires
        0 <= pi < g.players.len(),
        0 <= ci < g.players[pi].hand.len(),
    ensures
        cards_out(place_card(g, pi, ci)) == cards_out(g),
{
    let g1 = place_card(g, pi, ci);
    lemma_sum_update(g.players, held_of(), pi, g1.players[pi]);
    lemma_sum_update(g.players, tricks_of(), pi, g1.players[pi]);
}

/// Taking a complete trick moves its cards from the table to the winner's
/// pile: the cards accounted for stay the same.
pub proof fn lemma_resolve_keeps_cards(g: GameState)
    requires
        g.current_trick.len() == g.num_players,
        g.num_players >= 1,
        forall|k: int| 0 <= k < g.current_trick.len() ==> (#[trigger] g.current_trick[k]).0
            < g.players.len(),
        forall|k: int| 0 <= k < g.players.len() ==> (#[trigger] g.players[k]).tricks_won
            < usize::MAX,
    ensures
        cards_out(resolve_trick_step(g)) == cards_out(g),
{
    lemma_winner_props(g.current_trick, trump_of(g.trumpf));
    let g2 = resolve_trick_step(g);
    let w = trick_winner(g.current_trick, trump_of(g.trumpf)) as int;
    assert(g.current_trick[winner_pos(g.current_trick, trump_of(g.trumpf))].0 < g.players.len());
    assert(g2.players == g.players.update(w, g2.players[w]));
    lemma_sum_update(g.players, held_of(), w, g2.players[w]);
    lemma_sum_update(g.players, tricks_of(), w, g2.players[w]);
    let n = g.num_players as int;
    let t = total_tricks(g.players);
    assert(n * (t + 1) == n * t + n) by (nonlinear_arith);
}

/// A round has as many tricks as cards in each hand: when the last card of
/// a round is played and its trick taken, the tricks taken by all players
/// add up to the round number.
pub proof fn law_round_has_round_number_tricks(g: GameState, pi: int, ci: int)
    requires
        valid(g),
        cards_accounted(g),
        g.game_phase == GamePhase::Playing,
        0 <= pi < g.players.len(),
        0 <= ci < g.players[pi].hand.len(),
        place_card(g, pi, ci).current_trick.len() == g.num_players,
        all_hands_empty(resolve_trick_step(place_card(g, pi, ci)).players),
    ensures
        total_tricks(resolve_trick_step(place_card(g, pi, ci)).players) == g.round_number,
{
    let g1 = place_card(g, pi, ci);
    let g2 = resolve_trick_step(g1);
    lemma_small_counts(g);
    assert forall|k: int| 0 <= k < g1.players.len() implies (#[trigger] g1.players[k]).tricks_won
        < usize::MAX by {
        assert(g1.players[k].tricks_won == g.players[k].tricks_won);
    }
    lemma_place_card_keeps_cards(g, pi, ci);
    lemma_resolve_keeps_cards(g1);
    assert forall|k: int| 0 <= k < g2.players.len() implies #[trigger] held_of()(g2.players[k])
        == 0 by {}
    lemma_sum_const(g2.players, held_of(), 0);
    let n = g.num_players as int;
    let t = total_tricks(g2.players);
    let r = g.round_number as int;
    assert(n * t == n * r);
    assert(t == r) by (nonlinear_arith)
        requires
            n >= 1,
            n * t == n * r,
    ;
}

/// The bonus is for being right: a round earns points exactly when the
/// prediction was correct, and a correct prediction earns 20 plus 10 per trick.
pub proof fn law_points_only_for_correct_predictions(prediction: int, tricks: int)
    requires
        prediction >= 0,
        tricks >= 0,
    ensures
        round_delta(prediction, tricks) > 0 <==> prediction == tricks,
        prediction == tricks ==> round_delta(prediction, tricks) == 20 + 10 * tricks,
        prediction != tricks ==> round_delta(prediction, tricks) == -10 * (if prediction > tricks {
            prediction - tricks
        } else {
            tricks - prediction
        }),
{
}

/// In the final round all cards are dealt, so no card is turned up and
/// there is no trump; every earlier round turns up a card.
pub proof fn law_only_last_round_has_no_card_turned_up(g: GameState, deck: Seq<Card>)
    requires
        g.num_players >= 1,
        g.players.len() == g.num_players,
        deck.len() == DECK_SIZE,
        DECK_SIZE as int % (g.num_players as int) == 0,
        g.round_number + 1 <= max_rounds_for(g.num_players as int),
    ensures
        (start_round(g, deck).trumpf is None) <==> g.round_number + 1 == max_rounds_for(
            g.num_players as int,
        ),
        start_round(g, deck).trumpf is None ==> trump_of(start_round(g, deck).trumpf) is None,
{
    let n = g.num_players as int;
    let r = g.round_number + 1;
    let q = max_rounds_for(n);
    vstd::arithmetic::div_mod::lemma_fundamental_div_mod(DECK_SIZE as int, n);
    assert(n * q == DECK_SIZE);
    lemma_rounds_fit(n, r);
    if r < q {
        assert(n * r < n * q) by (nonlinear_arith)
            requires
                n >= 1,
                r < q,
        ;
    }
}

/// How a round's trump is set by the card turned up: a Jester gives no
/// trump, a Wizard lets the dealer choose first, a numbered card gives its colour.
pub proof fn law_turned_up_card_sets_trump(g: GameState, deck: Seq<Card>)
    ensures
        ({
            let s = start_round(g, deck);
            match s.trumpf {
                Some(c) => {
                    &&& spec_is_jester(c) ==> trump_of(s.trumpf) is None && s.game_phase
                        == GamePhase::Prediction
                    &&& spec_is_wizard(c) ==> s.game_phase == GamePhase::ChooseTrumpf
                    &&& !is_special(c) ==> trump_of(s.trumpf) == Some(c.suit) && s.game_phase
                        == GamePhase::Prediction
                },
                None => s.game_phase == GamePhase::Prediction,
            }
        }),
{
}

/// Each round is dealt by the next seat clockwise, and the player after the
/// dealer acts and leads first.
pub proof fn law_dealer_rotates(g: GameState, deck: Seq<Card>)
    requires
        g.num_players >= 1,
        g.round_number < usize::MAX,
    ensures
        ({
            let s = start_round(g, deck);
            let n = g.num_players as int;
            &&& s.round_number == g.round_number + 1
            &&& g.round_number >= 1 ==> dealer_of(s.round_number as int, n) == next_seat(
                dealer_of(g.round_number as int, n),
                n,
            )
            &&& s.current_player_index == next_seat(dealer_of(s.round_number as int, n), n)
            &&& s.current_trick_starter == s.current_player_index
        }),
{
    let n = g.num_players as int;
    let r = g.round_number as int;
    if r >= 1 {
        vstd::arithmetic::div_mod::lemma_add_mod_noop_right(1, r - 1, n);
    }
}

/// The colour to follow is fixed once a card other than a Jester is on the
/// table: a card played later, a Wizard or a Jester among them, does not
/// change it.
pub proof fn law_lead_colour_is_fixed(trick: Seq<(usize, Card)>, next: (usize, Card))
    requires
        exists|k: int| 0 <= k < trick.len() && !spec_is_jester(#[trigger] trick[k].1),
    ensures
        lead_suit(trick.push(next)) == lead_suit(trick),
    decreases trick.len(),
{
    if spec_is_jester(trick[0].1) {
        let k = choose|k: int| 0 <= k < trick.len() && !spec_is_jester(#[trigger] trick[k].1);
        let rest = trick.drop_first();
        assert(rest[k - 1] == trick[k]);
        assert(trick.push(next).drop_first() =~= rest.push(next));
        law_lead_colour_is_fixed(rest, next);
    }
}

/// The winner of a trick leads the next one: after the trick is taken it is
/// the winner's turn, the table is empty and the winner has one trick more.
pub proof fn law_trick_winner_leads_next(g: GameState)
    requires
        g.current_trick.len() > 0,
    ensures
        ({
            let w = trick_winner(g.current_trick, trump_of(g.trumpf));
            let n = resolve_trick_step(g);
            &&& n.current_player_index == w
            &&& n.current_trick_starter == w
            &&& n.current_trick.len() == 0
            &&& (w < g.players.len() && g.players[w as int].tricks_won < usize::MAX ==> n.players[w as int].tricks_won == g.players[w as int].tricks_won + 1)
        }),
{
}

/// Throughout a round (trump choice, predictions and play), no card sets
/// the trump exactly in the final round, when all 60 cards are dealt.
pub proof fn law_no_trump_card_exactly_in_final_round(g: GameState)
    requires
        valid(g),
        in_round(g),
    ensures
        g.trumpf is None <==> g.num_players * g.round_number == DECK_SIZE,
{
}

/// When an accepted prediction completes the predictions of a round, they
/// do not add up to the number of tricks.
pub proof fn law_predictions_never_add_up_to_tricks(g: GameState, pi: int, p: usize)
    requires
        g.game_phase == GamePhase::Prediction,
        !evens_the_bids(g, pi, p),
    ensures
        predict_step(g, pi, p).game_phase == GamePhase::Playing ==> sum_by(
            predict_step(g, pi, p).players,
            bid_of(),
        ) != g.round_number,
{
}

/// A Wizard or a Jester may always be played; without a colour to follow,
/// or without a card of that colour in hand, any card may be played.
pub proof fn law_when_any_card_is_legal(hand: Seq<Card>, i: int, lead: Option<Suit>)
    requires
        0 <= i < hand.len(),
    ensures
        is_special(hand[i]) ==> is_legal_play(hand, i, lead),
        lead is None ==> is_legal_play(hand, i, lead),
        lead matches Some(s) && !holds_suit(hand, s) ==> is_legal_play(hand, i, lead),
        lead matches Some(s) && hand[i].suit == s ==> is_legal_play(hand, i, lead),
{
}

/// A freshly dealt round starts in turn order (see `turn_order`).
pub proof fn lemma_start_round_turn_order(g: GameState, deck: Seq<Card>)
    requires
        g.num_players >= 1,
        g.players.len() == g.num_players,
        deck.len() == DECK_SIZE,
        g.num_players * (g.round_number + 1) <= DECK_SIZE,
        g.round_number + 1 <= usize::MAX,
    ensures
        turn_order(start_round(g, deck)),
{
    let s = start_round(g, deck);
    let n = g.num_players as int;
    let r = g.round_number + 1;
    vstd::arithmetic::div_mod::lemma_mod_bound(r - 1, n);
    vstd::arithmetic::div_mod::lemma_mod_bound((r - 1) % n + 1, n);
    let first = first_seat(s);
    assert(s.current_player_index as int == first);
    lemma_mod_window(0, n, 0);
    assert(seat_offset(first, first, n) == 0);
    assert forall|i: int| 0 <= i < s.players.len() implies (#[trigger] s.players[i]).tricks_won == 0
        && s.players[i].hand.len() == r by {
        lemma_deal_position(i, 0, n, r);
    }
}

/// Predictions go round the table once, from the first seat on: the player
/// whose turn it is has not predicted yet, and the round stays in turn order.
pub proof fn law_predictions_go_round_once(g: GameState, pi: int, p: usize)
    requires
        valid(g),
        turn_order(g),
        g.game_phase == GamePhase::Prediction,
        pi == g.current_player_index,
        p <= g.round_number,
    ensures
        g.players[pi].prediction is None,
        turn_order(predict_step(g, pi, p)),
{
    let n = g.num_players as int;
    let first = first_seat(g);
    vstd::arithmetic::div_mod::lemma_mod_bound(g.round_number - 1, n);
    vstd::arithmetic::div_mod::lemma_mod_bound((g.round_number - 1) % n + 1, n);
    lemma_seats(first, n);
    let c = seat_offset(pi, first, n);
    let g1 = predict_step(g, pi, p);
    let ps = g1.players;
    let cur1 = g1.current_player_index as int;
    assert(cur1 == next_seat(pi, n) || cur1 == next_seat(dealer_of(g.round_number as int, n), n));
    // the seat at offset c is pi, so the predictions now cover offsets up to c
    assert forall|i: int| 0 <= i < ps.len() implies ((#[trigger] ps[i]).prediction is Some <==> seat_offset(
        i,
        first,
        n,
    ) < c + 1) by {
        if i == pi {
        } else {
            assert(seat_offset(i, first, n) != c);
        }
    }
    if c + 1 < n {
        let j = (first + (c + 1)) % n;
        assert(seat_offset(j, first, n) == c + 1);
        assert(ps[j].prediction is None);
        assert(!all_predicted(ps));
        // the next seat is at offset c + 1
        vstd::arithmetic::div_mod::lemma_add_mod_noop_right(1, first + c, n);
        assert((first + c) % n == pi);
        assert(cur1 == (first + (c + 1)) % n);
    } else {
        assert(all_predicted(ps));
        assert(g1.game_phase == GamePhase::Playing);
        lemma_mod_window(first, n, 0);
        assert forall|i: int| 0 <= i < ps.len() implies !has_played(g1, i) by {}
        lemma_sum_const_tricks_zero(ps);
        assert(g1.current_player_index as int == (g1.current_trick_starter + g1.current_trick.len()) % n);
    }
}

/// The player to move always holds a card, and so has a legal play: play
/// never gets stuck.
pub proof fn law_player_to_move_can_play(g: GameState)
    requires
        valid(g),
        turn_order(g),
        g.game_phase == GamePhase::Playing,
    ensures
        g.players[g.current_player_index as int].hand.len() >= 1,
        exists|i: int|
            is_legal_play(
                g.players[g.current_player_index as int].hand,
                i,
                crate::rules::lead_suit(g.current_trick),
            ),
{
    let n = g.num_players as int;
    let s = g.current_trick_starter as int;
    let len = g.current_trick.len() as int;
    lemma_seats(s, n);
    let cur = g.current_player_index as int;
    assert(seat_offset(cur, s, n) == len);
    assert(!has_played(g, cur));
    crate::rules::lemma_some_play_is_legal(
        g.players[cur].hand,
        crate::rules::lead_suit(g.current_trick),
    );
}

/// Playing a card keeps the round in turn order (see `turn_order`); a new
/// round dealt after the last trick starts in turn order too.
pub proof fn law_play_keeps_turn_order(g: GameState, pi: int, ci: int, new: GameState)
    requires
        valid(g),
        turn_order(g),
        g.game_phase == GamePhase::Playing,
        pi == g.current_player_index,
        0 <= ci < g.players[pi].hand.len(),
        play_card_outcome(g, pi, ci, new),
    ensures
        turn_order(new),
{
    let n = g.num_players as int;
    let s = g.current_trick_starter as int;
    let len = g.current_trick.len() as int;
    let r = g.round_number as int;
    lemma_seats(s, n);
    lemma_small_counts(g);
    let g1 = place_card(g, pi, ci);
    let t = total_tricks(g.players);
    assert(seat_offset(pi, s, n) == len);
    lemma_place_card_keeps_cards(g, pi, ci);
    lemma_sum_update(g.players, tricks_of(), pi, g1.players[pi]);
    assert(g1.players == g.players.update(pi, g1.players[pi]));
    assert(total_tricks(g1.players) == t);
    // after placing: the player who played is now marked as played
    assert forall|i: int| 0 <= i < g1.players.len() implies (#[trigger] g1.players[i]).hand.len() + t
        + (if has_played(g1, i) {
        1int
    } else {
        0int
    }) == r by {
        if i == pi {
            assert(has_played(g1, i));
            assert(!has_played(g, i));
        } else {
            assert(seat_offset(i, s, n) != len);
            assert(has_played(g1, i) == has_played(g, i));
        }
    }
    if len + 1 != n {
        vstd::arithmetic::div_mod::lemma_add_mod_noop_right(1, s + len, n);
        assert(new.current_player_index as int == (s + len + 1) % n);
        assert forall|i: int| 0 <= i < new.players.len() implies (#[trigger] new.players[i]).hand.len()
            + total_tricks(new.players) + (if has_played(new, i) {
            1int
        } else {
            0int
        }) == r by {
            assert(new.players[i] == g1.players[i]);
            assert(has_played(new, i) == has_played(g1, i));
        }
    } else {
        let g2 = resolve_trick_step(g1);
        assert forall|k: int| 0 <= k < g1.current_trick.len() implies (#[trigger] g1.current_trick[k]).0
            < g1.players.len() by {
            if k < len {
                assert(g1.current_trick[k] == g.current_trick[k]);
            }
        }
        assert forall|k: int| 0 <= k < g1.players.len() implies (#[trigger] g1.players[k]).tricks_won
            < usize::MAX by {
            assert(g1.players[k].tricks_won == g.players[k].tricks_won);
        }
        lemma_winner_props(g1.current_trick, trump_of(g1.trumpf));
        let w = trick_winner(g1.current_trick, trump_of(g1.trumpf)) as int;
        assert(0 <= w < n);
        assert(g2.players == g1.players.update(w, g2.players[w]));
        lemma_sum_update(g1.players, tricks_of(), w, g2.players[w]);
        let t2 = total_tricks(g2.players);
        assert(t2 == t + 1);
        // every seat played to the complete trick
        assert forall|i: int| 0 <= i < g2.players.len() implies (#[trigger] g2.players[i]).hand.len()
            + t2 == r by {
            assert(has_played(g1, i));
            assert(g2.players[i].hand == g1.players[i].hand);
        }
        if !all_hands_empty(g2.players) {
            let i = choose|i: int| 0 <= i < g2.players.len() && (#[trigger] g2.players[i]).hand.len() != 0;
            assert(t2 < r);
            lemma_mod_window(w, n, 0);
            assert(new == g2);
            assert forall|i: int| 0 <= i < new.players.len() implies (#[trigger] new.players[i]).hand.len()
                + total_tricks(new.players) + (if has_played(new, i) {
                1int
            } else {
                0int
            }) == r by {
                assert(!has_played(new, i));
            }
        } else {
            let g3 = score_round_step(g2);
            if g3.game_phase != GamePhase::GameOver {
                lemma_rounds_fit(n, r + 1);
                vstd::seq_lib::to_multiset_len(new.deck);
                vstd::seq_lib::to_multiset_len(g3.deck);
                lemma_start_round_turn_order(g3, new.deck);
            }
        }
    }
}

/// One prediction: the seats stay, the prediction is logged, and one player
/// fewer is still to predict (or play begins).
pub proof fn lemma_predict_progress(g: GameState, pi: int, p: usize)
    requires
        valid(g),
        turn_order(g),
        g.game_phase == GamePhase::Prediction,
        pi == g.current_player_index,
        p <= g.round_number,
    ensures
        ({
            let new = predict_step(g, pi, p);
            &&& same_seats(g, new)
            &&& new.round_number == g.round_number
            &&& new.event_log == g.event_log.push(
                crate::model::EventRecord::Predicted { player: pi as usize, prediction: p },
            )
            &&& (new.game_phase == GamePhase::Prediction && unpredicted(new.players) == unpredicted(
                g.players,
            ) - 1) || new.game_phase == GamePhase::Playing
        }),
{
    law_predictions_go_round_once(g, pi, p);
    let new = predict_step(g, pi, p);
    let ps = g.players.update(pi, PlayerState { prediction: Some(p), ..g.players[pi] });
    lemma_sum_update(g.players, unpredicted_of(), pi, ps[pi]);
}

/// One card played: the seats stay, the card is logged first and no other
/// move after it, and the game progresses: fewer cards in hands, or the
/// game is over, or the next round has begun.
pub proof fn lemma_play_progress(g: GameState, pi: int, ci: int, new: GameState)
    requires
        valid(g),
        g.game_phase == GamePhase::Playing,
        pi == g.current_player_index,
        0 <= ci < g.players[pi].hand.len(),
        play_card_outcome(g, pi, ci, new),
    ensures
        same_seats(g, new),
        g.event_log.len() < new.event_log.len(),
        new.event_log.take(g.event_log.len() as int) == g.event_log,
        move_by(new.event_log[g.event_log.len() as int]) == Some(pi as usize),
        forall|k: int|
            g.event_log.len() < k < new.event_log.len() ==> #[trigger] move_by(new.event_log[k])
                is None,
        (new.round_number == g.round_number && new.game_phase == GamePhase::Playing
            && total_held(new.players) == total_held(g.players) - 1) || (new.round_number
            == g.round_number && new.game_phase == GamePhase::GameOver) || new.round_number
            == g.round_number + 1,
{
    let n = g.num_players as int;
    let len = g.event_log.len() as int;
    let g1 = place_card(g, pi, ci);
    lemma_sum_update(g.players, held_of(), pi, g1.players[pi]);
    assert(g1.players == g.players.update(pi, g1.players[pi]));
    assert(total_held(g1.players) == total_held(g.players) - 1);
    assert(g1.event_log.take(len) =~= g.event_log);
    if g1.current_trick.len() != n {
        assert(new.event_log.take(len) =~= g.event_log);
    } else {
        lemma_small_counts(g);
        let g2 = resolve_trick_step(g1);
        lemma_winner_props(g1.current_trick, trump_of(g1.trumpf));
        assert forall|k: int| 0 <= k < g1.current_trick.len() implies (#[trigger] g1.current_trick[k]).0
            < g1.players.len() by {
            if k < g.current_trick.len() {
                assert(g1.current_trick[k] == g.current_trick[k]);
            }
        }
        let w = trick_winner(g1.current_trick, trump_of(g1.trumpf)) as int;
        assert(g2.players == g1.players.update(w, g2.players[w]));
        lemma_sum_update(g1.players, held_of(), w, g2.players[w]);
        assert(g2.event_log.take(len) =~= g.event_log);
        if !all_hands_empty(g2.players) {
            assert(new == g2);
        } else {
            let g3 = score_round_step(g2);
            assert(g3.event_log.take(len) =~= g.event_log);
            if g3.game_phase == GamePhase::GameOver {
                assert(new == g3);
            } else {
                assert(new.event_log.take(len) =~= g.event_log);
            }
        }
    }
}

proof fn lemma_sum_const_tricks_zero(ps: Seq<PlayerState>)
    requires
        forall|i: int| 0 <= i < ps.len() ==> (#[trigger] ps[i]).tricks_won == 0,
    ensures
        total_tricks(ps) == 0,
{
    assert forall|i: int| 0 <= i < ps.len() implies #[trigger] tricks_of()(ps[i]) == 0 by {}
    lemma_sum_const(ps, tricks_of(), 0);
}

/// The colour the dealer names after a Wizard is turned up is the round's
/// trump: the card that sets the trump becomes a Wizard of that colour, and
/// in any trick without a Wizard, a numbered card of that colour, when one
/// was played, wins over everything else: the winning card has that colour
/// and is the highest of that colour.
pub proof fn law_named_colour_is_trump(g: GameState, s: Suit)
    ensures
        choose_trumpf_step(g, s).trumpf == Some(Card { suit: s, value: 14 }),
        trump_of(choose_trumpf_step(g, s).trumpf) == Some(s),
        forall|trick: Seq<(usize, Card)>, i: int|
            #![trigger trick[i], winner_pos(trick, trump_of(choose_trumpf_step(g, s).trumpf))]
            0 <= i < trick.len() && (forall|k: int| 0 <= k < trick.len() ==> trick[k].1.value
                < 14) && trick[i].1.suit == s && 1 <= trick[i].1.value <= 13 ==> {
                let w = trick[winner_pos(trick, trump_of(choose_trumpf_step(g, s).trumpf))].1;
                &&& w.suit == s
                &&& 1 <= w.value <= 13
                &&& trick[i].1.value <= w.value
            },
{
    assert forall|trick: Seq<(usize, Card)>, i: int|
        0 <= i < trick.len() && (forall|k: int| 0 <= k < trick.len() ==> trick[k].1.value < 14)
            && trick[i].1.suit == s && 1 <= trick[i].1.value <= 13 implies {
        let w = trick[winner_pos(trick, trump_of(choose_trumpf_step(g, s).trumpf))].1;
        &&& w.suit == s
        &&& 1 <= w.value <= 13
        &&& trick[i].1.value <= w.value
    } by {
        lemma_winner_props(trick, Some(s));
        assert forall|k: int| 0 <= k < trick.len() implies !spec_is_wizard(#[trigger] trick[k].1) by {}
        assert(trump_of(choose_trumpf_step(g, s).trumpf) == Some(s));
        let w = trick[winner_pos(trick, Some(s))].1;
        assert(w.value != 14);
        assert(!is_special(trick[i].1));
    }
}

/// Scoring adds each player's points for the round to their running total:
/// 20 plus 10 per trick for a correct prediction, minus 10 per trick of
/// difference for a wrong one (a missing prediction counts as 0).
pub proof fn law_scoring_adds_to_total(g: GameState, i: int)
    requires
        0 <= i < g.players.len(),
        ({
            let p = prediction_or_zero(g.players[i]);
            let t = g.players[i].tricks_won as int;
            let delta = if p == t {
                20 + 10 * t
            } else if p > t {
                -10 * (p - t)
            } else {
                -10 * (t - p)
            };
            &&& i32::MIN <= delta <= i32::MAX
            &&& i32::MIN <= g.players[i].points + delta <= i32::MAX
        }),
    ensures
        ({
            let p = prediction_or_zero(g.players[i]);
            let t = g.players[i].tricks_won as int;
            let delta = if p == t {
                20 + 10 * t
            } else if p > t {
                -10 * (p - t)
            } else {
                -10 * (t - p)
            };
            score_round_step(g).players.len() == g.players.len()
                && score_round_step(g).players[i].points == g.players[i].points + delta
        }),
{
    let p = prediction_or_zero(g.players[i]);
    let t = g.players[i].tricks_won as int;
    let d = crate::model::round_deltas(g.players);
    assert(d[i] == round_delta(p, t) as i32);
    assert(d[i] as int == round_delta(p, t));
}

/// The follow-suit rule looks at the whole hand: a numbered card of another
/// colour may not be played while any card of the hand, wherever it sits,
/// is a numbered card of the colour led.
pub proof fn law_follow_suit_sees_whole_hand(hand: Seq<Card>, i: int, j: int, s: Suit)
    requires
        0 <= i < hand.len(),
        0 <= j < hand.len(),
        1 <= hand[j].value <= 13,
        hand[j].suit == s,
        1 <= hand[i].value <= 13,
        hand[i].suit != s,
    ensures
        !is_legal_play(hand, i, Some(s)),
{
    assert(!is_special(hand[j]));
}

/// All the cards of the hands of a seat sequence, together.
pub open spec fn cards_in_hands(ps: Seq<PlayerState>) -> Multiset<Card>
    decreases ps.len(),
{
    if ps.len() == 0 {
        Multiset::empty()
    } else {
        cards_in_hands(ps.drop_last()).add(ps.last().hand.to_multiset())
    }
}

proof fn lemma_prefix_in_deck(deck: Seq<Card>, m: int)
    requires
        0 <= m <= deck.len(),
    ensures
        deck.subrange(0, m).to_multiset().subset_of(deck.to_multiset()),
{
    broadcast use vstd::multiset::group_multiset_axioms;

    assert(deck =~= deck.subrange(0, m) + deck.subrange(m, deck.len() as int));
    vstd::seq_lib::lemma_multiset_commutative(deck.subrange(0, m), deck.subrange(m, deck.len() as int));
}

proof fn lemma_dealt_prefix(ps: Seq<PlayerState>, deck: Seq<Card>, r: int, k: int)
    requires
        r >= 0,
        0 <= k <= ps.len(),
        ps.len() * r <= deck.len(),
        forall|j: int| 0 <= j < ps.len() ==> (#[trigger] ps[j]).hand == dealt_hand(deck, j, r),
    ensures
        k * r <= deck.len(),
        cards_in_hands(ps.take(k)) == deck.subrange(0, k * r).to_multiset(),
    decreases k,
{
    broadcast use {vstd::seq_lib::group_to_multiset_ensures, vstd::multiset::group_multiset_axioms};

    assert(k * r <= ps.len() * r) by (nonlinear_arith)
        requires
            k <= ps.len(),
            r >= 0,
    ;
    if k == 0 {
        assert(k * r == 0) by (nonlinear_arith)
            requires
                k == 0,
        ;
        assert(ps.take(0) =~= Seq::<PlayerState>::empty());
        assert(deck.subrange(0, 0) =~= Seq::<Card>::empty());
        assert(cards_in_hands(Seq::<PlayerState>::empty()) == Multiset::<Card>::empty());
        assert(deck.subrange(0, 0).to_multiset() =~= Multiset::<Card>::empty());
    } else {
        lemma_dealt_prefix(ps, deck, r, k - 1);
        assert(ps.take(k).drop_last() =~= ps.take(k - 1));
        assert(ps.take(k).last() == ps[k - 1]);
        assert((k - 1) * r + r == k * r) by (nonlinear_arith);
        let a = deck.subrange(0, (k - 1) * r);
        let b = deck.subrange((k - 1) * r, k * r);
        assert(deck.subrange(0, k * r) =~= a + b);
        assert(ps[k - 1].hand == b);
        vstd::seq_lib::lemma_multiset_commutative(a, b);
        assert(cards_in_hands(ps.take(k)) == cards_in_hands(ps.take(k - 1)).add(
            ps[k - 1].hand.to_multiset(),
        ));
        assert(cards_in_hands(ps.take(k)) =~= deck.subrange(0, k * r).to_multiset());
    }
}

/// Dealing gives no card of the deck to two seats: the cards of all hands
/// and the card turned up together are part of the deck (as a multiset),
/// so with a deck of distinct cards, the hands are disjoint and the turned-up
/// card is in none of them.
pub proof fn law_hands_are_dealt_from_distinct_cards(g: GameState, deck: Seq<Card>)
    requires
        g.players.len() * (g.round_number + 1) <= deck.len(),
    ensures
        ({
            let n = start_round(g, deck);
            let up = match n.trumpf {
                Some(c) => Multiset::singleton(c),
                None => Multiset::empty(),
            };
            cards_in_hands(n.players).add(up).subset_of(deck.to_multiset())
        }),
{
    broadcast use {vstd::seq_lib::group_to_multiset_ensures, vstd::multiset::group_multiset_axioms};

    let n = start_round(g, deck);
    let r = g.round_number + 1;
    let len = g.players.len() as int;
    lemma_dealt_prefix(n.players, deck, r, len);
    assert(n.players.take(len) =~= n.players);
    let m = len * r;
    if m < deck.len() {
        assert(deck.subrange(0, m + 1) =~= deck.subrange(0, m).push(deck[m]));
        lemma_prefix_in_deck(deck, m + 1);
        assert(deck.subrange(0, m).push(deck[m]).to_multiset() =~= deck.subrange(0, m).to_multiset().insert(deck[m]));
        assert(n.trumpf == Some(deck[m]));
    } else {
        lemma_prefix_in_deck(deck, m);
        assert(n.trumpf is None);
    }
}

} // verus!
