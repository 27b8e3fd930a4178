use blackjack::outcome::Outcome;
use blackjack::outcome::resolve;

#[test]
fn dealer_twenty_beats_player_nineteen() {
    assert_eq!(resolve(20, 19, 5), (Outcome::DealerWins(20, 19), 0));
}

#[test]
fn dealer_bust_pays_double_the_bet() {
    assert_eq!(resolve(22, 19, 5), (Outcome::DealerBusts(22, 19), 10));
}

#[test]
fn equal_totals_push_and_return_the_stake() {
    assert_eq!(resolve(20, 20, 5), (Outcome::Push(20), 5));
}

#[test]
fn player_bust_loses_regardless_of_dealer_total() {
    assert_eq!(resolve(18, 23, 5), (Outcome::PlayerBusts(18, 23), 0));
    assert_eq!(resolve(25, 23, 5), (Outcome::PlayerBusts(25, 23), 0));
}

#[test]
fn player_nineteen_beats_dealer_eighteen() {
    assert_eq!(resolve(18, 19, 5), (Outcome::PlayerWins(18, 19), 10));
}

#[test]
fn display_strings_match_each_outcome() {
    assert_eq!(
        Outcome::DealerBusts(22, 19).display_string(),
        "Dealer busts with 22, you win with 19!"
    );
    assert_eq!(
        Outcome::DealerWins(20, 19).display_string(),
        "Dealer wins with 20 vs your 19"
    );
    assert_eq!(
        Outcome::PlayerBusts(18, 23).display_string(),
        "You busted with 23, dealer wins with 18"
    );
    assert_eq!(
        Outcome::PlayerWins(18, 19).display_string(),
        "You win with 19 vs the dealer's 18!"
    );
    assert_eq!(
        Outcome::DealerBlackjack(19).display_string(),
        "Dealer got a blackjack vs your 19, dealer wins"
    );
    assert_eq!(
        Outcome::PlayerBlackjack(18).display_string(),
        "You got a blackjack vs dealer's 18, you win!"
    );
    assert_eq!(
        Outcome::Push(20).display_string(),
        "Push, both you and the dealer have 20"
    );
    assert_eq!(Outcome::NotFinished.display_string(), "");
    assert_eq!(Outcome::Stand.display_string(), "");
}
