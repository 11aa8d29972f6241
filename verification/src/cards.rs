use vstd::prelude::*;

use crate::rng::shuffle_cards;

verus! {

/// Value that encodes a Wizard.
pub const WIZARD_VALUE: usize = 14;

/// Value that encodes a Jester.
pub const JESTER_VALUE: usize = 0;

/// Number of cards in a full deck.
pub const DECK_SIZE: usize = 60;

/// The four colours. Their declaration order is the order used to sort a hand.
#[derive(Debug, Clone, Copy, PartialEq, Eq, Structural, PartialOrd, Ord, Hash)]
pub enum Suit {
    Red,
    Yellow,
    Green,
    Blue,
}

/// A card: `value` 0 is a Jester, 14 a Wizard, anything else a numbered card
/// of colour `suit`.
#[derive(Debug, Clone, Copy, PartialEq, Eq, Structural, PartialOrd, Ord, Hash)]
pub struct Card {
    pub suit: Suit,
    pub value: usize,
}

/// Position of a suit in the declaration order of `Suit`.
pub open spec fn suit_rank(s: Suit) -> int {
    match s {
        Suit::Red => 0,
        Suit::Yellow => 1,
        Suit::Green => 2,
        Suit::Blue => 3,
    }
}

pub open spec fn spec_is_wizard(c: Card) -> bool {
    c.value == WIZARD_VALUE
}

pub open spec fn spec_is_jester(c: Card) -> bool {
    c.value == JESTER_VALUE
}

/// Wizards and Jesters have no colour.
pub open spec fn is_special(c: Card) -> bool {
    spec_is_wizard(c) || spec_is_jester(c)
}

/// The order of hands: by suit (declaration order), then by value.
pub open spec fn card_le(a: Card, b: Card) -> bool {
    suit_rank(a.suit) < suit_rank(b.suit) || (suit_rank(a.suit) == suit_rank(b.suit) && a.value
        <= b.value)
}

/// A sequence of cards in non-decreasing `card_le` order.
pub open spec fn cards_sorted(s: Seq<Card>) -> bool {
    forall|i: int, j: int| 0 <= i < j < s.len() ==> card_le(#[trigger] s[i], #[trigger] s[j])
}

/// The suit that sits at position `k` (mod 4) of a fresh deck.
pub open spec fn fresh_suit(k: int) -> Suit {
    if k == 0 {
        Suit::Blue
    } else if k == 1 {
        Suit::Red
    } else if k == 2 {
        Suit::Green
    } else {
        Suit::Yellow
    }
}

/// The card at position `i` of a fresh, unshuffled deck.
pub open spec fn fresh_card(i: int) -> Card {
    Card { suit: fresh_suit(i % 4), value: (i / 4) as usize }
}

/// The 60 cards of a fresh deck, in their fresh order.
pub open spec fn fresh_deck() -> Seq<Card> {
    Seq::new(DECK_SIZE as nat, |i: int| fresh_card(i))
}

impl Card {
    pub fn new(suit: Suit, value: usize) -> (c: Self)
        ensures
            c == (Card { suit, value }),
    {
        Card { suit, value }
    }

    pub fn is_wizard(&self) -> (b: bool)
        ensures
            b == spec_is_wizard(*self),
    {
        self.value == WIZARD_VALUE
    }

    pub fn is_jester(&self) -> (b: bool)
        ensures
            b == spec_is_jester(*self),
    {
        self.value == JESTER_VALUE
    }
}

pub fn suit_index(s: Suit) -> (r: u8)
    ensures
        r as int == suit_rank(s),
{
    match s {
        Suit::Red => 0,
        Suit::Yellow => 1,
        Suit::Green => 2,
        Suit::Blue => 3,
    }
}

/// `card_le` in executable form.
pub fn card_leq(a: Card, b: Card) -> (r: bool)
    ensures
        r == card_le(a, b),
{
    let sa = suit_index(a.suit);
    let sb = suit_index(b.suit);
    sa < sb || (sa == sb && a.value <= b.value)
}

/// Two cards that are each `card_le` the other are the same card.
pub proof fn lemma_card_le_antisymmetric(a: Card, b: Card)
    requires
        card_le(a, b),
        card_le(b, a),
    ensures
        a == b,
{
    assert(a.suit == b.suit) by {
        match a.suit {
            Suit::Red => {},
            Suit::Yellow => {},
            Suit::Green => {},
            Suit::Blue => {},
        }
        match b.suit {
            Suit::Red => {},
            Suit::Yellow => {},
            Suit::Green => {},
            Suit::Blue => {},
        }
    }
}

/// Returns the cards of `cards` in sorted order (insertion sort).
pub fn sort_cards(cards: &Vec<Card>) -> (res: Vec<Card>)
    ensures
        cards_sorted(res@),
        res@.to_multiset() == cards@.to_multiset(),
{
    broadcast use vstd::seq_lib::group_to_multiset_ensures;

    let mut res: Vec<Card> = Vec::new();
    let n = cards.len();
    for i in 0..n
        invariant
            n == cards.len(),
            cards_sorted(res@),
            res@.to_multiset() == cards@.take(i as int).to_multiset(),
    {
        let c = cards[i];
        let mut pos: usize = 0;
        while pos < res.len() && card_leq(res[pos], c)
            invariant
                pos <= res.len(),
                forall|k: int| 0 <= k < pos ==> card_le(#[trigger] res@[k], c),
            decreases res.len() - pos,
        {
            pos = pos + 1;
        }
        let ghost old_res = res@;
        res.insert(pos, c);
        assert(res@ == old_res.insert(pos as int, c));
        assert forall|a: int, b: int| 0 <= a < b < res@.len() implies card_le(
            #[trigger] res@[a],
            #[trigger] res@[b],
        ) by {
            if b < pos {
            } else if a > pos {
                assert(res@[a] == old_res[a - 1]);
                assert(res@[b] == old_res[b - 1]);
            } else if a == pos {
                // c <= old_res[pos] <= old_res[b - 1]
                assert(!card_le(old_res[pos as int], c));
                if b - 1 > pos {
                    assert(card_le(old_res[pos as int], old_res[b - 1]));
                }
            } else {
                // a < pos, b >= pos
                if b == pos {
                } else {
                    assert(card_le(old_res[a], c));
                    assert(!card_le(old_res[pos as int], c));
                    assert(card_le(old_res[a], old_res[b - 1]));
                }
            }
        }
        assert(cards@.take(i + 1) == cards@.take(i as int).push(c));
        proof { vstd::seq_lib::to_multiset_insert(old_res, pos as int, c); }
        assert(res@.to_multiset() == old_res.to_multiset().insert(c));
        proof { vstd::seq_lib::to_multiset_build(cards@.take(i as int), c); }
        assert(cards@.take(i + 1).to_multiset() == cards@.take(i as int).to_multiset().insert(c));
    }
    assert(cards@.take(n as int) == cards@);
    res
}

/// A deck of cards, in dealing order.
#[derive(Debug, PartialEq, Eq)]
pub struct Deck {
    deck: Vec<Card>,
}

impl View for Deck {
    type V = Seq<Card>;

    closed spec fn view(&self) -> Seq<Card> {
        self.deck@
    }
}

impl Deck {
    /// The 60 cards in fresh order: position `i` holds colour `i % 4`
    /// (blue, red, green, yellow) and value `i / 4`, so values 0 (Jesters)
    /// and 14 (Wizards) occur four times each and 1 to 13 once per colour.
    pub fn new() -> (d: Self)
        ensures
            d@ == fresh_deck(),
    {
        let mut deck: Vec<Card> = Vec::new();
        for i in 0..DECK_SIZE
            invariant
                deck@.len() == i,
                forall|k: int| 0 <= k < i ==> #[trigger] deck@[k] == fresh_card(k),
        {
            let m = i % 4;
            let suit = if m == 0 {
                Suit::Blue
            } else if m == 1 {
                Suit::Red
            } else if m == 2 {
                Suit::Green
            } else {
                Suit::Yellow
            };
            deck.push(Card::new(suit, i / 4));
        }
        assert(deck@ =~= fresh_deck());
        Deck { deck }
    }

    /// Puts the cards in a random order: afterwards the deck holds the same
    /// cards as before.
    pub fn shuffle(&mut self)
        ensures
            final(self)@.to_multiset() == old(self)@.to_multiset(),
    {
        shuffle_cards(&mut self.deck);
    }

    pub fn card_at(&self, i: usize) -> (c: Card)
        requires
            i < self@.len(),
        ensures
            c == self@[i as int],
    {
        self.deck[i]
    }
}

} // verus!
