use blackjack::card::Card;
use blackjack::card::CardSuit;
use blackjack::card::CardValue;
use blackjack::hand::Hand;
use blackjack::outcome::Outcome;
use blackjack::table::App;
use blackjack::table::Player;

fn card(value: CardValue) -> Card {
    Card { value, suit: CardSuit::Spade }
}

fn hand_of(values: &[CardValue]) -> Hand {
    let mut h = Hand::new();
    for v in values {
        h.push_card(card(*v));
    }
    h
}

fn standing_hand(values: &[CardValue], bet: i64) -> Hand {
    let mut h = hand_of(values);
    h.bet = bet;
    h.outcome = Outcome::Stand;
    h
}

fn table_with(player_hand: Hand, dealer_hand: Hand) -> App {
    App {
        players: vec![Player { hands: vec![player_hand], name: String::from("P"), bank: 0 }],
        dealer_hand,
        active_hand_index: (0, 0),
    }
}

fn payout(outcome: &Outcome) -> i64 {
    match outcome {
        Outcome::DealerBusts(_, _) => 10,
        Outcome::PlayerWins(_, _) => 10,
        Outcome::Push(_) => 5,
        _ => 0,
    }
}

#[test]
fn initialize_seats_the_default_player() {
    let mut app = App::new();
    app.initialize();
    assert_eq!(app.players.len(), 1);
    assert_eq!(app.players[0].name, "Nick");
    assert_eq!(app.players[0].bank, 100);
    assert!(app.players[0].hands.is_empty());
}

#[test]
fn player_new_is_empty() {
    let p = Player::new();
    assert!(p.hands.is_empty());
    assert_eq!(p.name, "");
    assert_eq!(p.bank, 0);
}

#[test]
fn reset_structure_is_the_same_after_every_reset() {
    let mut app = App::new();
    app.initialize();
    for round in 1..=3 {
        app.reset();
        assert_eq!(app.active_hand_index, (0, 0));
        assert_eq!(app.players[0].bank, 100 - 10 * round);
        assert_eq!(app.players[0].hands.len(), 2);
        for hand in &app.players[0].hands {
            assert_eq!(hand.contains.len(), 2);
            assert_ne!(hand.contains[0].value, CardValue::Hidden);
            assert_ne!(hand.contains[1].value, CardValue::Hidden);
            assert_eq!(hand.bet, 5);
            assert_eq!(hand.outcome, Outcome::NotFinished);
        }
        assert_eq!(app.dealer_hand.contains.len(), 2);
        assert_eq!(app.dealer_hand.contains[0].value, CardValue::Hidden);
        assert_eq!(app.dealer_hand.contains[0].suit, CardSuit::Hidden);
        assert_ne!(app.dealer_hand.contains[1].value, CardValue::Hidden);
        assert_eq!(app.dealer_hand.bet, 0);
        assert_eq!(app.dealer_hand.outcome, Outcome::NotFinished);
    }
}

#[test]
fn standing_walks_the_cursor_across_players_and_settles_once() {
    let mut app = App::new();
    app.initialize();
    app.players.push(Player { hands: vec![], name: String::from("Pat"), bank: 100 });
    app.reset();
    assert_eq!(app.active_hand_index, (0, 0));
    app.stay();
    assert_eq!(app.active_hand_index, (0, 1));
    app.stay();
    assert_eq!(app.active_hand_index, (1, 0));
    app.stay();
    assert_eq!(app.active_hand_index, (1, 1));
    for player in &app.players {
        assert_eq!(player.bank, 90);
    }
    assert_eq!(app.dealer_hand.contains[0].value, CardValue::Hidden);
    app.stay();
    assert_eq!(app.active_hand_index, (1, 1));
    assert_ne!(app.dealer_hand.contains[0].value, CardValue::Hidden);
    assert!(app.dealer_hand.get_real_value().0 >= 17);
    for player in &app.players {
        let mut expected = 90;
        for hand in &player.hands {
            assert!(!matches!(hand.outcome, Outcome::NotFinished | Outcome::Stand));
            assert_eq!(hand.bet, 0);
            expected += payout(&hand.outcome);
        }
        assert_eq!(player.bank, expected);
    }
    // a further stand after the round is complete changes nothing
    let banks: Vec<i64> = app.players.iter().map(|p| p.bank).collect();
    let dealer_cards = app.dealer_hand.contains.clone();
    app.stay();
    assert_eq!(app.players.iter().map(|p| p.bank).collect::<Vec<i64>>(), banks);
    assert_eq!(app.dealer_hand.contains, dealer_cards);
}

#[test]
fn hit_draws_into_the_active_hand_only_below_twenty_one() {
    let mut app = App::new();
    app.initialize();
    app.reset();
    let before = app.players[0].hands[0].get_real_value().0;
    app.hit();
    if before < 21 {
        assert_eq!(app.players[0].hands[0].contains.len(), 3);
    } else {
        assert_eq!(app.players[0].hands[0].contains.len(), 2);
    }
    assert_eq!(app.players[0].hands[1].contains.len(), 2);
    assert_eq!(app.players[0].hands[0].bet, 5);
}

#[test]
fn hit_on_a_standing_hand_changes_nothing() {
    let mut app = App::new();
    app.initialize();
    app.reset();
    app.stay();
    app.active_hand_index = (0, 0);
    let cards = app.players[0].hands[0].contains.clone();
    app.hit();
    assert_eq!(app.players[0].hands[0].contains, cards);
    assert_eq!(app.players[0].hands[0].bet, 5);
    assert_eq!(app.players[0].hands[0].outcome, Outcome::Stand);
}

#[test]
fn hit_on_a_busted_hand_changes_nothing() {
    let mut hand = hand_of(&[CardValue::Ten, CardValue::King, CardValue::Five]);
    hand.bet = 5;
    let mut app = table_with(hand, hand_of(&[CardValue::Nine]));
    let cards = app.players[0].hands[0].contains.clone();
    app.hit();
    assert_eq!(app.players[0].hands[0].contains, cards);
    assert_eq!(app.players[0].hands[0].bet, 5);
    assert_eq!(app.players[0].hands[0].outcome, Outcome::NotFinished);
}

#[test]
fn dealer_stops_on_hard_seventeen() {
    let mut app = table_with(
        standing_hand(&[CardValue::Ten, CardValue::Nine], 5),
        hand_of(&[CardValue::Ten, CardValue::Seven]),
    );
    let dealer_cards = app.dealer_hand.contains.clone();
    app.end();
    assert_eq!(app.dealer_hand.contains, dealer_cards);
    assert_eq!(app.dealer_hand.get_real_value().0, 17);
}

#[test]
fn dealer_stands_on_soft_seventeen() {
    // the policy draws only while the real value is below 17, so a soft 17
    // already stops the dealer
    let mut app = table_with(
        standing_hand(&[CardValue::Ten, CardValue::Nine], 5),
        hand_of(&[CardValue::Ace, CardValue::Six]),
    );
    assert_eq!(app.dealer_hand.get_real_value(), (17, true));
    let dealer_cards = app.dealer_hand.contains.clone();
    app.end();
    assert_eq!(app.dealer_hand.contains, dealer_cards);
}

#[test]
fn dealer_draws_while_below_seventeen() {
    let mut app = table_with(
        standing_hand(&[CardValue::Ten, CardValue::Nine], 5),
        hand_of(&[CardValue::Ten, CardValue::Six]),
    );
    app.end();
    assert!(app.dealer_hand.contains.len() >= 3);
    let settled = app.dealer_hand.get_real_value().0;
    // the dealer stops at the first total of 17 or more, so never past 26
    assert!((17..=26).contains(&settled));
}

#[test]
fn end_reveals_the_hole_card_and_recomputes_the_total() {
    let mut dealer = Hand::new();
    dealer.add_hidden_card();
    dealer.push_card(card(CardValue::Ten));
    let mut app = table_with(standing_hand(&[CardValue::Ten, CardValue::Nine], 5), dealer);
    app.end();
    assert_ne!(app.dealer_hand.contains[0].value, CardValue::Hidden);
    let raw: u8 = app.dealer_hand.contains.iter().map(|c| c.numerical_value()).sum();
    assert_eq!(app.dealer_hand.value, raw);
    assert!(app.dealer_hand.get_real_value().0 >= 17);
}

#[test]
fn player_nineteen_wins_against_dealer_seventeen() {
    let mut app = table_with(
        standing_hand(&[CardValue::Ten, CardValue::Nine], 5),
        hand_of(&[CardValue::Ten, CardValue::Seven]),
    );
    app.end();
    assert_eq!(app.players[0].hands[0].outcome, Outcome::PlayerWins(17, 19));
    assert_eq!(app.players[0].bank, 10);
    assert_eq!(app.players[0].hands[0].bet, 0);
}

#[test]
fn dealer_twenty_wins_against_player_nineteen() {
    let mut app = table_with(
        standing_hand(&[CardValue::Ten, CardValue::Nine], 5),
        hand_of(&[CardValue::Ten, CardValue::Queen]),
    );
    app.end();
    assert_eq!(app.players[0].hands[0].outcome, Outcome::DealerWins(20, 19));
    assert_eq!(app.players[0].bank, 0);
    assert_eq!(app.players[0].hands[0].bet, 0);
}

#[test]
fn equal_seventeens_push_and_return_the_stake() {
    let mut app = table_with(
        standing_hand(&[CardValue::Ten, CardValue::Seven], 5),
        hand_of(&[CardValue::Ten, CardValue::Seven]),
    );
    app.end();
    assert_eq!(app.players[0].hands[0].outcome, Outcome::Push(17));
    assert_eq!(app.players[0].bank, 5);
}

#[test]
fn busted_player_loses_the_bet() {
    let mut busted = hand_of(&[CardValue::Ten, CardValue::King, CardValue::Five]);
    busted.bet = 5;
    busted.outcome = Outcome::Stand;
    let mut app = table_with(busted, hand_of(&[CardValue::Ten, CardValue::Seven]));
    app.end();
    assert_eq!(app.players[0].hands[0].outcome, Outcome::PlayerBusts(17, 25));
    assert_eq!(app.players[0].bank, 0);
    assert_eq!(app.players[0].hands[0].bet, 0);
}

#[test]
fn settlement_leaves_already_settled_hands_alone() {
    let mut settled = hand_of(&[CardValue::Ten, CardValue::Nine]);
    settled.outcome = Outcome::PlayerWins(17, 19);
    let mut app = table_with(settled, hand_of(&[CardValue::Ten, CardValue::Seven]));
    app.end();
    assert_eq!(app.players[0].hands[0].outcome, Outcome::PlayerWins(17, 19));
    assert_eq!(app.players[0].bank, 0);
}
