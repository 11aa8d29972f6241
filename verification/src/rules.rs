use vstd::prelude::*;

use crate::cards::{card_le, is_special, spec_is_jester, spec_is_wizard, Card, Suit};

verus! {

/// The colour that later players of a trick must follow. Leading Jesters
/// are skipped; the first other card decides: a Wizard means no colour to
/// follow, a numbered card sets its colour. A trick of Jesters only (or an
/// empty trick) has no colour to follow.
pub open spec fn lead_suit(trick: Seq<(usize, Card)>) -> Option<Suit>
    decreases trick.len(),
{
    if trick.len() == 0 {
        None
    } else if spec_is_jester(trick[0].1) {
        lead_suit(trick.drop_first())
    } else if spec_is_wizard(trick[0].1) {
        None
    } else {
        Some(trick[0].1.suit)
    }
}

/// The hand holds a numbered card of colour `s`.
pub open spec fn holds_suit(hand: Seq<Card>, s: Suit) -> bool {
    exists|i: int| 0 <= i < hand.len() && !is_special(#[trigger] hand[i]) && hand[i].suit == s
}

/// Playing `card` from `hand` breaks the follow-suit rule: it is a numbered
/// card of another colour while the hand holds a card of the colour led.
pub open spec fn breaks_follow_suit(card: Card, hand: Seq<Card>, lead: Option<Suit>) -> bool {
    match lead {
        Some(s) => !is_special(card) && holds_suit(hand, s) && card.suit != s,
        None => false,
    }
}

/// Position `i` of `hand` may be played into a trick whose lead colour is `lead`.
pub open spec fn is_legal_play(hand: Seq<Card>, i: int, lead: Option<Suit>) -> bool {
    0 <= i < hand.len() && !breaks_follow_suit(hand[i], hand, lead)
}

/// `r` lists, in increasing order, exactly the positions of `hand` that may be played.
pub open spec fn legal_index_list(r: Seq<usize>, hand: Seq<Card>, lead: Option<Suit>) -> bool {
    &&& forall|k: int| 0 <= k < r.len() ==> is_legal_play(hand, #[trigger] r[k] as int, lead)
    &&& forall|i: int| is_legal_play(hand, i, lead) ==> r.contains(i as usize)
    &&& forall|j: int, k: int| 0 <= j < k < r.len() ==> r[j] < r[k]
}

/// The trump colour of a round, given the card that set it: none without a
/// card or when a Jester was flipped, else the card's colour (for a Wizard,
/// the colour the dealer chose).
pub open spec fn trump_of(trumpf: Option<Card>) -> Option<Suit> {
    match trumpf {
        Some(c) => if spec_is_jester(c) {
            None
        } else {
            Some(c.suit)
        },
        None => None,
    }
}

/// Position of the first Wizard at or after `i`; `trick.len()` if there is none.
pub open spec fn first_wizard_from(trick: Seq<(usize, Card)>, i: int) -> int
    decreases trick.len() - i,
{
    if i < 0 || i >= trick.len() {
        trick.len() as int
    } else if spec_is_wizard(trick[i].1) {
        i
    } else {
        first_wizard_from(trick, i + 1)
    }
}

pub open spec fn first_wizard(trick: Seq<(usize, Card)>) -> int {
    first_wizard_from(trick, 0)
}

/// Among the first `n` cards, the position of the highest numbered card of
/// colour `s` (the later one of equal values); -1 if there is none.
pub open spec fn best_of_suit(trick: Seq<(usize, Card)>, s: Suit, n: int) -> int
    decreases n,
{
    if n <= 0 {
        -1
    } else {
        let b = best_of_suit(trick, s, n - 1);
        let c = trick[n - 1].1;
        if !is_special(c) && c.suit == s && (b < 0 || trick[b].1.value <= c.value) {
            n - 1
        } else {
            b
        }
    }
}

/// Position of the card that wins a complete trick: the first Wizard; else
/// the highest trump; else the highest card of the colour led; else (only
/// Jesters) the first card.
pub open spec fn winner_pos(trick: Seq<(usize, Card)>, trump: Option<Suit>) -> int {
    let len = trick.len() as int;
    if first_wizard(trick) < len {
        first_wizard(trick)
    } else if trump is Some && best_of_suit(trick, trump->0, len) >= 0 {
        best_of_suit(trick, trump->0, len)
    } else if lead_suit(trick) is Some {
        best_of_suit(trick, lead_suit(trick)->0, len)
    } else {
        0
    }
}

/// The player who wins the trick.
pub open spec fn trick_winner(trick: Seq<(usize, Card)>, trump: Option<Suit>) -> usize {
    trick[winner_pos(trick, trump)].0
}

/// Points for one round: a correct prediction earns 20 plus 10 per trick,
/// a wrong one loses 10 per trick of difference.
pub open spec fn round_delta(prediction: int, tricks: int) -> int {
    if prediction == tricks {
        20 + 10 * tricks
    } else if prediction > tricks {
        -10 * (prediction - tricks)
    } else {
        -10 * (tricks - prediction)
    }
}

// ----- lemmas about the spec functions -----

proof fn lemma_lead_suit_skip(trick: Seq<(usize, Card)>, i: int)
    requires
        0 <= i < trick.len(),
        spec_is_jester(trick[i].1),
    ensures
        lead_suit(trick.skip(i)) == lead_suit(trick.skip(i + 1)),
{
    assert(trick.skip(i).drop_first() =~= trick.skip(i + 1));
}

/// The lead colour, when there is one, is the colour of a numbered card of the trick.
pub proof fn lemma_lead_suit_witness(trick: Seq<(usize, Card)>)
    ensures
        lead_suit(trick) matches Some(s) ==> exists|i: int|
            0 <= i < trick.len() && !is_special(#[trigger] trick[i].1) && trick[i].1.suit == s,
        lead_suit(trick) is None ==> (forall|i: int|
            0 <= i < trick.len() && !spec_is_wizard(#[trigger] trick[i].1) ==> spec_is_jester(
                trick[i].1,
            )) || first_wizard(trick) < trick.len(),
    decreases trick.len(),
{
    if trick.len() == 0 {
    } else if spec_is_jester(trick[0].1) {
        let t = trick.drop_first();
        lemma_lead_suit_witness(t);
        if let Some(s) = lead_suit(t) {
            let i = choose|i: int| 0 <= i < t.len() && !is_special(#[trigger] t[i].1) && t[i].1.suit == s;
            assert(trick[i + 1] == t[i]);
        } else {
            if first_wizard(t) < t.len() {
                lemma_first_wizard_props(t, 0);
                lemma_first_wizard_props(trick, 0);
                let w = first_wizard(t);
                assert(trick[w + 1] == t[w]);
                lemma_first_wizard_props(trick, 0);
            } else {
                assert forall|i: int|
                    0 <= i < trick.len() && !spec_is_wizard(#[trigger] trick[i].1) implies spec_is_jester(
                    trick[i].1,
                ) by {
                    if i > 0 {
                        assert(trick[i] == t[i - 1]);
                        lemma_first_wizard_props(t, 0);
                    }
                }
            }
        }
    } else if spec_is_wizard(trick[0].1) {
        assert(first_wizard(trick) == 0);
    } else {
    }
}

/// `first_wizard_from(trick, i)` is a Wizard position, or the length when
/// no Wizard sits at or after `i`; no Wizard lies between `i` and it.
pub proof fn lemma_first_wizard_props(trick: Seq<(usize, Card)>, i: int)
    requires
        0 <= i <= trick.len(),
    ensures
        i <= first_wizard_from(trick, i) <= trick.len(),
        first_wizard_from(trick, i) < trick.len() ==> spec_is_wizard(
            trick[first_wizard_from(trick, i)].1,
        ),
        forall|k: int| i <= k < first_wizard_from(trick, i) ==> !spec_is_wizard(#[trigger] trick[k].1),
    decreases trick.len() - i,
{
    if i < trick.len() && !spec_is_wizard(trick[i].1) {
        lemma_first_wizard_props(trick, i + 1);
    }
}

/// `best_of_suit` picks a numbered card of the colour with the highest value.
pub proof fn lemma_best_of_suit_props(trick: Seq<(usize, Card)>, s: Suit, n: int)
    requires
        0 <= n <= trick.len(),
    ensures
        -1 <= best_of_suit(trick, s, n) < n,
        best_of_suit(trick, s, n) >= 0 ==> !is_special(trick[best_of_suit(trick, s, n)].1)
            && trick[best_of_suit(trick, s, n)].1.suit == s,
        best_of_suit(trick, s, n) >= 0 ==> forall|k: int|
            0 <= k < n && !is_special(#[trigger] trick[k].1) && trick[k].1.suit == s
                ==> trick[k].1.value <= trick[best_of_suit(trick, s, n)].1.value,
        best_of_suit(trick, s, n) < 0 ==> forall|k: int|
            0 <= k < n ==> !(!is_special(#[trigger] trick[k].1) && trick[k].1.suit == s),
    decreases n,
{
    if n > 0 {
        lemma_best_of_suit_props(trick, s, n - 1);
    }
}

/// Properties of the trick winner, as the rules state them.
pub proof fn lemma_winner_props(trick: Seq<(usize, Card)>, trump: Option<Suit>)
    requires
        trick.len() > 0,
    ensures
        0 <= winner_pos(trick, trump) < trick.len(),
        // the first Wizard wins
        forall|i: int|
            0 <= i < trick.len() && spec_is_wizard(#[trigger] trick[i].1) ==> spec_is_wizard(
                trick[winner_pos(trick, trump)].1,
            ) && winner_pos(trick, trump) <= i,
        // without a Wizard, a trump card beats every other card
        (forall|i: int| 0 <= i < trick.len() ==> !spec_is_wizard(#[trigger] trick[i].1)) ==> (
        forall|i: int|
            0 <= i < trick.len() && trump == Some(trick[i].1.suit) && !is_special(
                #[trigger] trick[i].1,
            ) ==> {
                let w = trick[winner_pos(trick, trump)].1;
                &&& !is_special(w)
                &&& w.suit == trick[i].1.suit
                &&& trick[i].1.value <= w.value
            }),
        // without a Wizard or a trump card, the highest card of the colour led wins
        (forall|i: int|
            0 <= i < trick.len() ==> !spec_is_wizard(#[trigger] trick[i].1) && !(trump == Some(
                trick[i].1.suit,
            ) && !is_special(trick[i].1))) ==> (lead_suit(trick) matches Some(s) ==> {
            let w = trick[winner_pos(trick, trump)].1;
            &&& !is_special(w)
            &&& w.suit == s
            &&& forall|i: int|
                0 <= i < trick.len() && !is_special(#[trigger] trick[i].1) && trick[i].1.suit == s
                    ==> trick[i].1.value <= w.value
        }),
        // a Jester wins only a trick of Jesters, and then the first one wins
        spec_is_jester(trick[winner_pos(trick, trump)].1) ==> (forall|i: int|
            0 <= i < trick.len() ==> spec_is_jester(#[trigger] trick[i].1)),
        (forall|i: int| 0 <= i < trick.len() ==> spec_is_jester(#[trigger] trick[i].1))
            ==> winner_pos(trick, trump) == 0,
        // a numbered card of neither trump nor the colour led never wins
        !is_special(trick[winner_pos(trick, trump)].1) ==> (trump == Some(
            trick[winner_pos(trick, trump)].1.suit,
        ) || lead_suit(trick) == Some(trick[winner_pos(trick, trump)].1.suit)),
{
    let len = trick.len() as int;
    lemma_first_wizard_props(trick, 0);
    lemma_lead_suit_witness(trick);
    if let Some(ts) = trump {
        lemma_best_of_suit_props(trick, ts, len);
    }
    if let Some(ls) = lead_suit(trick) {
        lemma_best_of_suit_props(trick, ls, len);
    }
    let w = winner_pos(trick, trump);
    if first_wizard(trick) < len {
    } else if trump is Some && best_of_suit(trick, trump->0, len) >= 0 {
    } else if lead_suit(trick) is Some {
        let ls = lead_suit(trick)->0;
        let i = choose|i: int|
            0 <= i < trick.len() && !is_special(#[trigger] trick[i].1) && trick[i].1.suit == ls;
        assert(best_of_suit(trick, ls, len) >= 0);
    } else {
        if trump is Some {
            assert forall|i: int|
                0 <= i < trick.len() && trump == Some(trick[i].1.suit) implies is_special(
                #[trigger] trick[i].1,
            ) by {}
        }
    }
}

// ----- executable rules -----

/// The colour the rest of the trick must follow (see `lead_suit`).
pub fn lead_suit_in_trick(trick: &Vec<(usize, Card)>) -> (r: Option<Suit>)
    ensures
        r == lead_suit(trick@),
{
    let mut i: usize = 0;
    assert(trick@.skip(0) =~= trick@);
    while i < trick.len() && trick[i].1.is_jester()
        invariant
            i <= trick@.len(),
            lead_suit(trick@) == lead_suit(trick@.skip(i as int)),
        decreases trick.len() - i,
    {
        proof {
            lemma_lead_suit_skip(trick@, i as int);
        }
        i = i + 1;
    }
    if i == trick.len() {
        assert(trick@.skip(i as int).len() == 0);
        None
    } else {
        assert(trick@.skip(i as int)[0] == trick@[i as int]);
        if trick[i].1.is_wizard() {
            None
        } else {
            Some(trick[i].1.suit)
        }
    }
}

/// The hand holds a numbered card of colour `s`.
pub fn hand_holds_suit(hand: &Vec<Card>, s: Suit) -> (b: bool)
    ensures
        b == holds_suit(hand@, s),
{
    let mut i: usize = 0;
    while i < hand.len()
        invariant
            i <= hand@.len(),
            forall|k: int| 0 <= k < i ==> !(!is_special(#[trigger] hand@[k]) && hand@[k].suit == s),
        decreases hand.len() - i,
    {
        let c = hand[i];
        if !c.is_wizard() && !c.is_jester() && c.suit == s {
            return true;
        }
        i = i + 1;
    }
    false
}

/// Whether playing `card` from `hand` breaks the follow-suit rule.
pub fn violates_follow_suit(card: &Card, hand: &Vec<Card>, lead: Option<Suit>) -> (b: bool)
    ensures
        b == breaks_follow_suit(*card, hand@, lead),
{
    if card.is_wizard() || card.is_jester() {
        return false;
    }
    match lead {
        None => false,
        Some(s) => {
            let has_lead = hand_holds_suit(hand, s);
            has_lead && card.suit != s
        },
    }
}

/// The positions of `hand` that may be played, in increasing order.
pub fn legal_indices(hand: &Vec<Card>, lead: Option<Suit>) -> (r: Vec<usize>)
    ensures
        legal_index_list(r@, hand@, lead),
{
    let mut r: Vec<usize> = Vec::new();
    let n = hand.len();
    for i in 0..n
        invariant
            n == hand@.len(),
            forall|k: int| 0 <= k < r@.len() ==> is_legal_play(hand@, #[trigger] r@[k] as int, lead),
            forall|k: int| 0 <= k < r@.len() ==> #[trigger] r@[k] < i,
            forall|x: int| 0 <= x < i && is_legal_play(hand@, x, lead) ==> r@.contains(x as usize),
            forall|j: int, k: int| 0 <= j < k < r@.len() ==> r@[j] < r@[k],
    {
        if !violates_follow_suit(&hand[i], hand, lead) {
            let ghost old_r = r@;
            r.push(i);
            assert forall|x: int| 0 <= x < i + 1 && is_legal_play(hand@, x, lead) implies r@.contains(
                x as usize,
            ) by {
                if x < i {
                    let k = choose|k: int| 0 <= k < old_r.len() && old_r[k] == x as usize;
                    assert(r@[k] == x as usize);
                } else {
                    assert(r@[r@.len() - 1] == i);
                }
            }
        }
    }
    r
}

/// A player who still holds cards always has a legal play.
pub proof fn lemma_some_play_is_legal(hand: Seq<Card>, lead: Option<Suit>)
    requires
        hand.len() > 0,
    ensures
        exists|i: int| is_legal_play(hand, i, lead),
{
    match lead {
        Some(s) => {
            if holds_suit(hand, s) {
                let i = choose|i: int| 0 <= i < hand.len() && !is_special(#[trigger] hand[i]) && hand[i].suit == s;
                assert(is_legal_play(hand, i, lead));
            } else {
                assert(is_legal_play(hand, 0, lead));
            }
        },
        None => {
            assert(is_legal_play(hand, 0, lead));
        },
    }
}

/// Position of the highest numbered card of colour `s` in the trick (the
/// later one of equal values), if there is one.
fn best_position_of_suit(trick: &Vec<(usize, Card)>, s: Suit) -> (r: Option<usize>)
    ensures
        match r {
            Some(p) => p as int == best_of_suit(trick@, s, trick@.len() as int),
            None => best_of_suit(trick@, s, trick@.len() as int) < 0,
        },
{
    let mut best: Option<usize> = None;
    let mut i: usize = 0;
    while i < trick.len()
        invariant
            i <= trick@.len(),
            match best {
                Some(p) => p as int == best_of_suit(trick@, s, i as int) && p < i,
                None => best_of_suit(trick@, s, i as int) < 0,
            },
        decreases trick.len() - i,
    {
        let c = trick[i].1;
        if !c.is_wizard() && !c.is_jester() && c.suit == s {
            match best {
                None => {
                    best = Some(i);
                },
                Some(p) => {
                    if trick[p].1.value <= c.value {
                        best = Some(i);
                    }
                },
            }
        }
        i = i + 1;
    }
    best
}

/// The player who wins a complete trick under trump colour `trumpf_suit`
/// (see `winner_pos` and `lemma_winner_props`).
pub fn determine_trick_winner(trick: &Vec<(usize, Card)>, trumpf_suit: Option<Suit>) -> (w: usize)
    requires
        trick@.len() > 0,
    ensures
        w == trick_winner(trick@, trumpf_suit),
{
    proof {
        lemma_winner_props(trick@, trumpf_suit);
        lemma_first_wizard_props(trick@, 0);
    }
    let mut i: usize = 0;
    while i < trick.len()
        invariant
            i <= trick@.len(),
            first_wizard(trick@) == first_wizard_from(trick@, i as int),
        decreases trick.len() - i,
    {
        if trick[i].1.is_wizard() {
            return trick[i].0;
        }
        i = i + 1;
    }
    if let Some(t) = trumpf_suit {
        if let Some(p) = best_position_of_suit(trick, t) {
            return trick[p].0;
        }
    }
    match lead_suit_in_trick(trick) {
        Some(l) => {
            proof {
                lemma_lead_suit_witness(trick@);
                lemma_best_of_suit_props(trick@, l, trick@.len() as int);
                let k = choose|k: int|
                    0 <= k < trick@.len() && !is_special(#[trigger] trick@[k].1) && trick@[k].1.suit
                        == l;
            }
            match best_position_of_suit(trick, l) {
                Some(p) => trick[p].0,
                None => trick[0].0,
            }
        },
        None => trick[0].0,
    }
}

/// The points a player gains (or loses) for a round (see `round_delta`).
pub fn round_score_delta(prediction: usize, tricks: usize) -> (d: i32)
    requires
        prediction <= 100_000,
        tricks <= 100_000,
    ensures
        d as int == round_delta(prediction as int, tricks as int),
{
    let p = prediction as i32;
    let t = tricks as i32;
    if p == t {
        20 + 10 * p
    } else if p > t {
        -10 * (p - t)
    } else {
        -10 * (t - p)
    }
}

} // verus!
