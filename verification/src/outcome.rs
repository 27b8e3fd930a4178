//! Settlement outcomes and the pure outcome-resolution matrix.

use vstd::prelude::*;
use crate::digits::dec_digits;
use crate::digits::u8_to_string;

verus! {

/// The settlement state of one hand. Every hand starts `NotFinished`,
/// becomes `Stand` when the player ends the turn without busting, and is
/// overwritten with a final settlement tag at round end. The settlement
/// tags carry the settled dealer and player totals for display. The two
/// blackjack tags exist in the taxonomy but are never produced: no
/// natural-blackjack detection is performed at deal time.
#[derive(Clone, Copy, PartialEq, Eq, Structural, Debug)]
pub enum Outcome {
    NotFinished,
    Stand,
    DealerWins(u8, u8),
    DealerBusts(u8, u8),
    PlayerWins(u8, u8),
    PlayerBusts(u8, u8),
    DealerBlackjack(u8),
    PlayerBlackjack(u8),
    Push(u8),
}

/// The outcome-resolution matrix for dealer total `d`, player total `p`
/// and wager `bet`: the settled outcome and the amount credited to the
/// owning player's bank. A busted player forfeits the bet (no credit); a
/// win pays back twice the bet; a push returns the stake.
pub open spec fn resolve_spec(d: u8, p: u8, bet: i64) -> (Outcome, int) {
    if p > 21 {
        (Outcome::PlayerBusts(d, p), 0)
    } else if d > 21 {
        (Outcome::DealerBusts(d, p), 2 * bet)
    } else if p < d {
        (Outcome::DealerWins(d, p), 0)
    } else if p > d {
        (Outcome::PlayerWins(d, p), 2 * bet)
    } else {
        (Outcome::Push(d), bet as int)
    }
}

/// Settle one hand against the dealer: a pure function from the two totals
/// and the wager to the outcome tag and the bank credit.
pub fn resolve(dealer_total: u8, player_total: u8, bet: i64) -> (r: (Outcome, i64))
    requires
        0 <= bet,
        2 * bet <= i64::MAX,
    ensures
        r.0 == resolve_spec(dealer_total, player_total, bet).0,
        r.1 as int == resolve_spec(dealer_total, player_total, bet).1,
{
    if player_total > 21 {
        (Outcome::PlayerBusts(dealer_total, player_total), 0)
    } else if dealer_total > 21 {
        (Outcome::DealerBusts(dealer_total, player_total), 2 * bet)
    } else if player_total < dealer_total {
        (Outcome::DealerWins(dealer_total, player_total), 0)
    } else if player_total > dealer_total {
        (Outcome::PlayerWins(dealer_total, player_total), 2 * bet)
    } else {
        (Outcome::Push(dealer_total), bet)
    }
}

/// The display text of each outcome.
pub open spec fn display_spec(o: Outcome) -> Seq<char> {
    match o {
        Outcome::DealerBusts(d, p) => "Dealer busts with "@ + dec_digits(d as nat) + ", you win with "@
            + dec_digits(p as nat) + "!"@,
        Outcome::DealerWins(d, p) => "Dealer wins with "@ + dec_digits(d as nat) + " vs your "@
            + dec_digits(p as nat),
        Outcome::PlayerBusts(d, p) => "You busted with "@ + dec_digits(p as nat)
            + ", dealer wins with "@ + dec_digits(d as nat),
        Outcome::PlayerWins(d, p) => "You win with "@ + dec_digits(p as nat) + " vs the dealer's "@
            + dec_digits(d as nat) + "!"@,
        Outcome::DealerBlackjack(p) => "Dealer got a blackjack vs your "@ + dec_digits(p as nat)
            + ", dealer wins"@,
        Outcome::PlayerBlackjack(d) => "You got a blackjack vs dealer's "@ + dec_digits(d as nat)
            + ", you win!"@,
        Outcome::Push(t) => "Push, both you and the dealer have "@ + dec_digits(t as nat),
        Outcome::NotFinished => Seq::empty(),
        Outcome::Stand => Seq::empty(),
    }
}

impl Outcome {
    /// The text shown for this outcome (empty while the hand is not settled).
    pub fn display_string(&self) -> (s: String)
        ensures
            s@ == display_spec(*self),
    {
        match *self {
            Outcome::DealerBusts(d, p) => {
                let mut s = "Dealer busts with ".to_owned();
                s.append(u8_to_string(d).as_str());
                s.append(", you win with ");
                s.append(u8_to_string(p).as_str());
                s.append("!");
                proof {
                    assert(s@ =~= display_spec(*self));
                }
                s
            },
            Outcome::DealerWins(d, p) => {
                let mut s = "Dealer wins with ".to_owned();
                s.append(u8_to_string(d).as_str());
                s.append(" vs your ");
                s.append(u8_to_string(p).as_str());
                proof {
                    assert(s@ =~= display_spec(*self));
                }
                s
            },
            Outcome::PlayerBusts(d, p) => {
                let mut s = "You busted with ".to_owned();
                s.append(u8_to_string(p).as_str());
                s.append(", dealer wins with ");
                s.append(u8_to_string(d).as_str());
                proof {
                    assert(s@ =~= display_spec(*self));
                }
                s
            },
            Outcome::PlayerWins(d, p) => {
                let mut s = "You win with ".to_owned();
                s.append(u8_to_string(p).as_str());
                s.append(" vs the dealer's ");
                s.append(u8_to_string(d).as_str());
                s.append("!");
                proof {
                    assert(s@ =~= display_spec(*self));
                }
                s
            },
            Outcome::DealerBlackjack(p) => {
                let mut s = "Dealer got a blackjack vs your ".to_owned();
                s.append(u8_to_string(p).as_str());
                s.append(", dealer wins");
                proof {
                    assert(s@ =~= display_spec(*self));
                }
                s
            },
            Outcome::PlayerBlackjack(d) => {
                let mut s = "You got a blackjack vs dealer's ".to_owned();
                s.append(u8_to_string(d).as_str());
                s.append(", you win!");
                proof {
                    assert(s@ =~= display_spec(*self));
                }
                s
            },
            Outcome::Push(t) => {
                let mut s = "Push, both you and the dealer have ".to_owned();
                s.append(u8_to_string(t).as_str());
                proof {
                    assert(s@ =~= display_spec(*self));
                }
                s
            },
            Outcome::NotFinished => {
                let s = "".to_owned();
                proof {
                    reveal_strlit("");
                    assert(s@ =~= display_spec(*self));
                }
                s
            },
            Outcome::Stand => {
                let s = "".to_owned();
                proof {
                    reveal_strlit("");
                    assert(s@ =~= display_spec(*self));
                }
                s
            },
        }
    }
}

} // verus!
