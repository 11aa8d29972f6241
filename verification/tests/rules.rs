use gamelogic::{
    determine_trick_winner, lead_suit_in_trick, round_score_delta, violates_follow_suit, Card,
    Deck, Player, Suit, JESTER_VALUE, WIZARD_VALUE,
};

fn wizard() -> Card {
    Card::new(Suit::Red, WIZARD_VALUE)
}

fn jester() -> Card {
    Card::new(Suit::Blue, JESTER_VALUE)
}

#[test]
fn scoring_table_from_the_rules() {
    assert_eq!(round_score_delta(0, 0), 20);
    assert_eq!(round_score_delta(2, 2), 40);
    assert_eq!(round_score_delta(5, 5), 70);
    assert_eq!(round_score_delta(2, 1), -10);
    assert_eq!(round_score_delta(2, 3), -10);
    assert_eq!(round_score_delta(0, 4), -40);
    assert_eq!(round_score_delta(5, 0), -50);
}

#[test]
fn rulebook_round_three_totals() {
    // Henry, Anya, Freya: previous totals 10, 10, 20.
    assert_eq!(10 + round_score_delta(2, 2), 50);
    assert_eq!(10 + round_score_delta(2, 1), 0);
    assert_eq!(20 + round_score_delta(0, 0), 40);
}

#[test]
fn first_wizard_wins_the_trick() {
    let trick = vec![
        (2, Card::new(Suit::Red, 13)),
        (0, wizard()),
        (1, wizard()),
    ];
    assert_eq!(determine_trick_winner(&trick, Some(Suit::Red)), 0);
}

#[test]
fn highest_trump_beats_led_colour() {
    let trick = vec![
        (0, Card::new(Suit::Red, 13)),
        (1, Card::new(Suit::Blue, 2)),
        (2, Card::new(Suit::Blue, 5)),
    ];
    assert_eq!(determine_trick_winner(&trick, Some(Suit::Blue)), 2);
}

#[test]
fn highest_led_colour_wins_without_trump() {
    let trick = vec![
        (1, Card::new(Suit::Green, 7)),
        (2, Card::new(Suit::Yellow, 13)),
        (0, Card::new(Suit::Green, 9)),
    ];
    assert_eq!(determine_trick_winner(&trick, None), 0);
    assert_eq!(determine_trick_winner(&trick, Some(Suit::Red)), 0);
}

#[test]
fn all_jesters_first_jester_wins() {
    let trick = vec![(2, jester()), (0, jester()), (1, jester())];
    assert_eq!(determine_trick_winner(&trick, Some(Suit::Green)), 2);
}

#[test]
fn jester_lead_then_number_sets_the_colour() {
    let trick = vec![
        (0, jester()),
        (1, Card::new(Suit::Yellow, 3)),
        (2, Card::new(Suit::Yellow, 11)),
    ];
    assert_eq!(lead_suit_in_trick(&trick), Some(Suit::Yellow));
    assert_eq!(determine_trick_winner(&trick, None), 2);
}

#[test]
fn jester_lead_then_wizard_sets_no_colour() {
    let trick = vec![(0, jester()), (1, wizard())];
    assert_eq!(lead_suit_in_trick(&trick), None);
    assert_eq!(determine_trick_winner(&trick, None), 1);
}

#[test]
fn lead_suit_of_empty_and_wizard_led_tricks() {
    assert_eq!(lead_suit_in_trick(&vec![]), None);
    assert_eq!(lead_suit_in_trick(&vec![(0, wizard())]), None);
    assert_eq!(
        lead_suit_in_trick(&vec![(0, Card::new(Suit::Blue, 4))]),
        Some(Suit::Blue)
    );
}

#[test]
fn follow_suit_rule_cases() {
    let hand = vec![
        Card::new(Suit::Red, 4),
        Card::new(Suit::Green, 9),
        wizard(),
        jester(),
    ];
    // must follow red while holding red
    assert!(violates_follow_suit(&hand[1], &hand, Some(Suit::Red)));
    assert!(!violates_follow_suit(&hand[0], &hand, Some(Suit::Red)));
    // wizards and jesters are always legal
    assert!(!violates_follow_suit(&hand[2], &hand, Some(Suit::Red)));
    assert!(!violates_follow_suit(&hand[3], &hand, Some(Suit::Red)));
    // holding no blue, anything goes
    assert!(!violates_follow_suit(&hand[1], &hand, Some(Suit::Blue)));
    // no colour led
    assert!(!violates_follow_suit(&hand[1], &hand, None));
}

#[test]
fn fresh_deck_holds_sixty_cards() {
    let deck = Deck::new();
    let mut wizards = 0;
    let mut jesters = 0;
    let mut numbered = 0;
    for i in 0..60 {
        let c = deck.card_at(i);
        if c.is_wizard() {
            wizards += 1;
        } else if c.is_jester() {
            jesters += 1;
        } else {
            assert!(c.value >= 1 && c.value <= 13);
            numbered += 1;
        }
    }
    assert_eq!((wizards, jesters, numbered), (4, 4, 52));
}

#[test]
fn shuffle_keeps_the_cards() {
    let mut deck = Deck::new();
    deck.shuffle();
    let mut counts = std::collections::HashMap::new();
    for i in 0..60 {
        let c = deck.card_at(i);
        *counts.entry((c.suit, c.value)).or_insert(0) += 1;
    }
    assert_eq!(counts.values().sum::<usize>(), 60);
    for suit in [Suit::Red, Suit::Yellow, Suit::Green, Suit::Blue] {
        for v in 1..=13 {
            assert_eq!(counts.get(&(suit, v)), Some(&1));
        }
    }
}

#[test]
fn sort_hand_orders_by_suit_then_value() {
    let mut p = Player::new("sorter");
    p.hand = vec![
        Card::new(Suit::Blue, 3),
        Card::new(Suit::Red, 9),
        Card::new(Suit::Red, 2),
        Card::new(Suit::Green, 13),
    ];
    p.sort_hand();
    let got: Vec<(Suit, usize)> = p.hand().iter().map(|c| (c.suit, c.value)).collect();
    let mut expected = got.clone();
    expected.sort();
    assert_eq!(got, expected);
    assert_eq!(got.len(), 4);
}

#[test]
fn lead_colour_stays_after_later_wizard_or_jester() {
    let mut trick = vec![(0, Card::new(Suit::Green, 6))];
    assert_eq!(lead_suit_in_trick(&trick), Some(Suit::Green));
    trick.push((1, wizard()));
    assert_eq!(lead_suit_in_trick(&trick), Some(Suit::Green));
    trick.push((2, jester()));
    assert_eq!(lead_suit_in_trick(&trick), Some(Suit::Green));
    trick.push((3, Card::new(Suit::Red, 13)));
    assert_eq!(lead_suit_in_trick(&trick), Some(Suit::Green));
}
