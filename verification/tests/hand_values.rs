use blackjack::card::Card;
use blackjack::card::CardSuit;
use blackjack::card::CardValue;
use blackjack::hand::Hand;
use blackjack::outcome::Outcome;

fn card(value: CardValue) -> Card {
    Card { value, suit: CardSuit::Heart }
}

fn hand_of(values: &[CardValue]) -> Hand {
    let mut h = Hand::new();
    for v in values {
        h.push_card(card(*v));
    }
    h
}

#[test]
fn ace_six_is_soft_seventeen() {
    let h = hand_of(&[CardValue::Ace, CardValue::Six]);
    assert_eq!(h.get_real_value(), (17, true));
    assert_eq!(h.value_string(), "a soft 17");
}

#[test]
fn ace_six_ten_is_hard_seventeen() {
    let h = hand_of(&[CardValue::Ace, CardValue::Six, CardValue::Ten]);
    assert_eq!(h.get_real_value(), (17, false));
    assert!(!h.is_bust());
    assert_eq!(h.value_string(), "17");
}

#[test]
fn ten_seven_ace_reduces_once_to_hard_eighteen() {
    let h = hand_of(&[CardValue::Ten, CardValue::Seven, CardValue::Ace]);
    assert_eq!(h.value, 28);
    assert_eq!(h.get_real_value(), (18, false));
}

#[test]
fn ten_king_five_busts_with_no_ace_to_reduce() {
    let h = hand_of(&[CardValue::Ten, CardValue::King, CardValue::Five]);
    assert_eq!(h.get_real_value(), (25, false));
    assert!(h.is_bust());
}

#[test]
fn hidden_card_contributes_nothing() {
    let mut h = Hand::new();
    h.add_hidden_card();
    assert_eq!(h.value, 0);
    assert_eq!(h.get_real_value(), (0, false));
    h.push_card(card(CardValue::Ten));
    assert_eq!(h.value, 10);
    assert_eq!(h.get_real_value(), (10, false));
}

#[test]
fn numerical_values_follow_the_table() {
    let expected = [
        (CardValue::Two, 2),
        (CardValue::Three, 3),
        (CardValue::Four, 4),
        (CardValue::Five, 5),
        (CardValue::Six, 6),
        (CardValue::Seven, 7),
        (CardValue::Eight, 8),
        (CardValue::Nine, 9),
        (CardValue::Ten, 10),
        (CardValue::Jack, 10),
        (CardValue::Queen, 10),
        (CardValue::King, 10),
        (CardValue::Ace, 11),
    ];
    for (v, n) in expected {
        assert_eq!(card(v).numerical_value(), n);
    }
    assert_eq!(Card::new_hidden().numerical_value(), 0);
}

#[test]
fn new_hidden_card_is_fully_hidden() {
    let c = Card::new_hidden();
    assert_eq!(c.value, CardValue::Hidden);
    assert_eq!(c.suit, CardSuit::Hidden);
}

#[test]
fn drawn_cards_are_visible_with_points_in_range() {
    for _ in 0..100 {
        let c = Card::new();
        assert_ne!(c.value, CardValue::Hidden);
        assert_ne!(c.suit, CardSuit::Hidden);
        let n = c.numerical_value();
        assert!((2..=11).contains(&n));
    }
}

#[test]
fn flipping_a_hidden_card_makes_it_visible() {
    let mut c = Card::new_hidden();
    c.flip_card();
    assert_ne!(c.value, CardValue::Hidden);
    assert_ne!(c.suit, CardSuit::Hidden);
}

#[test]
fn fresh_hand_is_empty_and_not_finished() {
    let h = Hand::new();
    assert_eq!(h.contains.len(), 0);
    assert_eq!(h.value, 0);
    assert_eq!(h.number_of_aces, 0);
    assert_eq!(h.bet, 0);
    assert_eq!(h.outcome, Outcome::NotFinished);
}

#[test]
fn add_card_appends_one_visible_card() {
    let mut h = Hand::new();
    h.add_card();
    assert_eq!(h.contains.len(), 1);
    assert_ne!(h.contains[0].value, CardValue::Hidden);
    assert_eq!(h.value, h.contains[0].numerical_value());
}
