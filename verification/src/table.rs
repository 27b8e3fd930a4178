//! The round state machine: the players, the dealer's hand, and the active
//! hand cursor that drives turn advancement, the dealer's drawing policy
//! and wager settlement.

use vstd::prelude::*;
use crate::card::CardValue;
use crate::hand::Hand;
use crate::hand::count_aces;
use crate::hand::lemma_aces_bound;
use crate::hand::lemma_push_card;
use crate::hand::lemma_reduce;
use crate::hand::lemma_reduce_add_le;
use crate::hand::lemma_sum_bounded_by_real;
use crate::hand::reduce;
use crate::hand::sum_points;
use crate::outcome::Outcome;
use crate::outcome::resolve;
use crate::outcome::resolve_spec;

verus! {

/// The fixed wager deducted from a player's bank for each hand at the
/// start of a round, in whole currency units.
pub const ANTE: i64 = 5;

/// A player: display name, bank balance, and the hands currently in play.
/// The bank is signed and is never floored at zero.
pub struct Player {
    pub hands: Vec<Hand>,
    pub name: String,
    pub bank: i64,
}

impl Player {
    /// The player holds at least one hand, every hand is well formed, and
    /// no wager exceeds the ante.
    pub open spec fn wf(self) -> bool {
        &&& self.hands@.len() >= 1
        &&& forall|h: int|
            0 <= h < self.hands@.len() ==> (#[trigger] self.hands@[h]).wf() && 0
                <= self.hands@[h].bet <= ANTE
    }

    /// A player with no name, no money and no hands yet.
    pub fn new() -> (p: Player)
        ensures
            p.hands@.len() == 0,
            p.name@.len() == 0,
            p.bank == 0,
    {
        let p = Player { hands: Vec::new(), name: "".to_owned(), bank: 0 };
        proof {
            reveal_strlit("");
        }
        p
    }
}

/// How settlement rewrites one hand, given the dealer's settled total `d`:
/// a hand still `NotFinished` or `Stand` takes the resolver's tag for its
/// real value and forfeits its wager into the payout; an already settled
/// hand is untouched.
pub open spec fn hand_settled(pre: Hand, post: Hand, d: u8) -> bool {
    if pre.outcome is NotFinished || pre.outcome is Stand {
        &&& post.contains@ == pre.contains@
        &&& post.number_of_aces == pre.number_of_aces
        &&& post.value == pre.value
        &&& post.bet == 0
        &&& post.outcome == resolve_spec(d, pre.real_total() as u8, pre.bet).0
    } else {
        post.same_hand(pre)
    }
}

/// The bank credit settlement yields for one hand.
pub open spec fn hand_delta(pre: Hand, d: u8) -> int {
    if pre.outcome is NotFinished || pre.outcome is Stand {
        resolve_spec(d, pre.real_total() as u8, pre.bet).1
    } else {
        0
    }
}

/// The total bank credit settlement yields for a sequence of hands.
pub open spec fn hands_delta(pre: Seq<Hand>, d: u8) -> int
    decreases pre.len(),
{
    if pre.len() == 0 {
        0
    } else {
        hands_delta(pre.drop_last(), d) + hand_delta(pre.last(), d)
    }
}

/// How settlement rewrites one player: every hand settled against the
/// dealer's total and the payouts credited to the bank.
pub open spec fn player_settled(pre: Player, post: Player, d: u8) -> bool {
    &&& post.name == pre.name
    &&& post.hands@.len() == pre.hands@.len()
    &&& post.bank == pre.bank + hands_delta(pre.hands@, d)
    &&& forall|h: int|
        0 <= h < pre.hands@.len() ==> hand_settled(pre.hands@[h], (#[trigger] post.hands@[h]), d)
}

/// What the end of the round does to the dealer's hand: the hole card is
/// revealed if still hidden, cards are drawn until the real value reaches
/// 17 (drawing on any lower total, soft or hard), and nothing else
/// changes. A dealer who already shows a revealed hand at 17 or more is
/// left exactly as it was, and whenever a card was drawn the dealer
/// stopped at the first total of 17 or more — the hand less its last card
/// was still below 17, so the settled total is at most 26.
pub open spec fn dealer_done(pre: Hand, post: Hand) -> bool {
    &&& post.wf()
    &&& post.real_total() >= 17
    &&& post.contains@.len() >= pre.contains@.len()
    &&& post.contains@[0].is_visible()
    &&& forall|i: int| 1 <= i < pre.contains@.len() ==> post.contains@[i] == pre.contains@[i]
    &&& (pre.contains@[0].is_visible() ==> post.contains@[0] == pre.contains@[0])
    &&& forall|i: int|
        pre.contains@.len() <= i < post.contains@.len() ==> (#[trigger] post.contains@[i]).is_visible()
    &&& post.bet == pre.bet
    &&& post.outcome == pre.outcome
    &&& (pre.contains@[0].is_visible() && pre.real_total() >= 17 ==> post.same_hand(pre))
    &&& (post.contains@.len() > pre.contains@.len() ==> ({
        let prev = post.contains@.drop_last();
        reduce(sum_points(prev), count_aces(prev)).0 < 17
    }))
    &&& (post.contains@.len() > pre.contains@.len() ==> post.real_total() <= 26)
}

/// A hand as dealt at the start of a round: the ante as wager, exactly two
/// visible cards, not finished.
pub open spec fn dealt_hand(h: Hand) -> bool {
    &&& h.wf()
    &&& h.contains@.len() == 2
    &&& h.contains@[0].is_visible()
    &&& h.contains@[1].is_visible()
    &&& h.bet == ANTE
    &&& h.outcome is NotFinished
}

/// Whether every hand of every player is finished.
pub open spec fn spec_all_finished(players: Seq<Player>) -> bool {
    forall|q: int, k: int|
        0 <= q < players.len() && 0 <= k < players[q].hands@.len() ==> !((
        #[trigger] players[q].hands@[k]).outcome is NotFinished)
}

/// A mutable reference to the player at `i`.
fn player_at(players: &mut Vec<Player>, i: usize) -> (p: &mut Player)
    requires
        i < old(players)@.len(),
    ensures
        *p == old(players)@[i as int],
        final(players)@ == old(players)@.update(i as int, *final(p)),
{
    &mut players[i]
}

/// A mutable reference to the hand at `i`.
fn hand_at(hands: &mut Vec<Hand>, i: usize) -> (h: &mut Hand)
    requires
        i < old(hands)@.len(),
    ensures
        *h == old(hands)@[i as int],
        final(hands)@ == old(hands)@.update(i as int, *final(h)),
{
    &mut hands[i]
}

/// Deal one fresh hand: the ante wagered, two visible cards drawn.
fn deal_hand() -> (h: Hand)
    ensures
        dealt_hand(h),
{
    let mut h = Hand::new();
    h.bet = ANTE;
    h.add_card();
    h.add_card();
    h
}

/// The round state machine. It owns the players and the dealer's hand for
/// the lifetime of one round; `reset` discards and rebuilds that subtree.
pub struct App {
    pub players: Vec<Player>,
    pub dealer_hand: Hand,
    pub active_hand_index: (usize, usize),
}

impl App {
    /// The round's structural invariant: there is at least one player, the
    /// active cursor addresses a real hand, every player is well formed,
    /// and the dealer's hand is well formed and non-empty.
    pub open spec fn wf(self) -> bool {
        &&& self.players@.len() >= 1
        &&& (self.active_hand_index.0 as int) < self.players@.len()
        &&& (self.active_hand_index.1 as int)
            < self.players@[self.active_hand_index.0 as int].hands@.len()
        &&& forall|p: int| 0 <= p < self.players@.len() ==> (#[trigger] self.players@[p]).wf()
        &&& self.dealer_hand.wf()
        &&& self.dealer_hand.contains@.len() >= 1
    }

    /// The hand the active cursor addresses.
    pub open spec fn active_hand(self) -> Hand {
        self.players@[self.active_hand_index.0 as int].hands@[self.active_hand_index.1 as int]
    }

    /// Where the cursor moves on stand: the next hand of the same player,
    /// else the first hand of the next player, else it stays put.
    pub open spec fn next_index_spec(self) -> (usize, usize) {
        let pi = self.active_hand_index.0;
        let hi = self.active_hand_index.1;
        if hi + 1 < self.players@[pi as int].hands@.len() {
            (pi, (hi + 1) as usize)
        } else if pi + 1 < self.players@.len() {
            ((pi + 1) as usize, 0usize)
        } else {
            (pi, hi)
        }
    }

    /// Whether every hand would be finished once the active hand stands:
    /// the active hand itself cannot stay `NotFinished` through a stand,
    /// so only the other hands matter.
    pub open spec fn all_finished_after_stand(self) -> bool {
        forall|p: int, h: int|
            0 <= p < self.players@.len() && 0 <= h < self.players@[p].hands@.len() && !(p
                == self.active_hand_index.0 && h == self.active_hand_index.1) ==> !((
            #[trigger] self.players@[p].hands@[h]).outcome is NotFinished)
    }

    /// An empty table: no players seated, an empty dealer hand, the cursor
    /// at the first hand of the first player.
    pub fn new() -> (a: App)
        ensures
            a.players@.len() == 0,
            a.dealer_hand.contains@.len() == 0,
            a.dealer_hand.bet == 0,
            a.dealer_hand.outcome is NotFinished,
            a.dealer_hand.wf(),
            a.active_hand_index == (0usize, 0usize),
    {
        App { players: Vec::new(), dealer_hand: Hand::new(), active_hand_index: (0, 0) }
    }

    /// Seat the default player with the starting bank.
    pub fn initialize(&mut self)
        ensures
            final(self).players@.len() == old(self).players@.len() + 1,
            final(self).players@ == old(self).players@.push(final(self).players@.last()),
            final(self).players@.last().name@ == "Nick"@,
            final(self).players@.last().bank == 100,
            final(self).players@.last().hands@.len() == 0,
            final(self).dealer_hand == old(self).dealer_hand,
            final(self).active_hand_index == old(self).active_hand_index,
    {
        let mut p = Player::new();
        p.name = "Nick".to_owned();
        p.bank = 100;
        self.players.push(p);
    }

    /// Start or restart a round: every player's hands are replaced by two
    /// fresh hands, each with the ante moved from the bank into the wager
    /// and two visible cards dealt; the dealer gets a hidden hole card and
    /// one visible card; the cursor returns to the first hand of the first
    /// player.
    pub fn reset(&mut self)
        requires
            forall|p: int|
                0 <= p < old(self).players@.len() ==> i64::MIN + 2 * ANTE <= (#[trigger] old(self).players@[p]).bank,
        ensures
            final(self).active_hand_index == (0usize, 0usize),
            final(self).players@.len() == old(self).players@.len(),
            forall|p: int|
                0 <= p < old(self).players@.len() ==> {
                    let pl = #[trigger] final(self).players@[p];
                    &&& pl.name == old(self).players@[p].name
                    &&& pl.bank == old(self).players@[p].bank - 2 * ANTE
                    &&& pl.hands@.len() == 2
                    &&& dealt_hand(pl.hands@[0])
                    &&& dealt_hand(pl.hands@[1])
                },
            final(self).dealer_hand.contains@.len() == 2,
            final(self).dealer_hand.contains@[0].is_hidden(),
            final(self).dealer_hand.contains@[1].is_visible(),
            final(self).dealer_hand.bet == 0,
            final(self).dealer_hand.outcome is NotFinished,
            final(self).dealer_hand.wf(),
            sum_points(final(self).dealer_hand.contains@) <= 11,
            old(self).players@.len() >= 1 ==> final(self).wf(),
    {
        self.active_hand_index = (0, 0);
        let n = self.players.len();
        let mut p: usize = 0;
        while p < n
            invariant
                n == self.players@.len(),
                self.players@.len() == old(self).players@.len(),
                p <= n,
                forall|q: int|
                    p <= q < n ==> (#[trigger] self.players@[q]) == old(self).players@[q],
                forall|q: int|
                    0 <= q < p ==> {
                        let pl = #[trigger] self.players@[q];
                        &&& pl.name == old(self).players@[q].name
                        &&& pl.bank == old(self).players@[q].bank - 2 * ANTE
                        &&& pl.hands@.len() == 2
                        &&& dealt_hand(pl.hands@[0])
                        &&& dealt_hand(pl.hands@[1])
                    },
                forall|q: int|
                    0 <= q < old(self).players@.len() ==> i64::MIN + 2 * ANTE <= (#[trigger] old(self).players@[q]).bank,
                self.dealer_hand == old(self).dealer_hand,
                self.active_hand_index == (0usize, 0usize),
            decreases n - p,
        {
            let mut hands: Vec<Hand> = Vec::new();
            hands.push(deal_hand());
            hands.push(deal_hand());
            let pl = player_at(&mut self.players, p);
            pl.hands = hands;
            pl.bank = pl.bank - 2 * ANTE;
            p = p + 1;
        }
        self.dealer_hand = Hand::new();
        self.dealer_hand.add_hidden_card();
        self.dealer_hand.add_card();
    }

    /// Act on the active hand: if it is not finished and its real value is
    /// below 21, draw one card into it. Otherwise the command does
    /// nothing at all — a finished or busted hand is never mutated by
    /// further hits.
    pub fn hit(&mut self)
        requires
            old(self).wf(),
        ensures
            final(self).wf(),
            final(self).active_hand_index == old(self).active_hand_index,
            final(self).players@.len() == old(self).players@.len(),
            ({
                let pi = old(self).active_hand_index.0 as int;
                let hi = old(self).active_hand_index.1 as int;
                let h0 = old(self).active_hand();
                if h0.outcome is NotFinished && h0.real_total() < 21 {
                    &&& final(self).dealer_hand == old(self).dealer_hand
                    &&& forall|q: int|
                        0 <= q < old(self).players@.len() && q != pi ==> (#[trigger] final(self).players@[q]) == old(self).players@[q]
                    &&& final(self).players@[pi].name == old(self).players@[pi].name
                    &&& final(self).players@[pi].bank == old(self).players@[pi].bank
                    &&& final(self).players@[pi].hands@.len() == old(self).players@[pi].hands@.len()
                    &&& forall|k: int|
                        0 <= k < old(self).players@[pi].hands@.len() && k != hi ==> (
                        #[trigger] final(self).players@[pi].hands@[k]) == old(self).players@[pi].hands@[k]
                    &&& {
                        let hn = final(self).active_hand();
                        &&& hn.contains@.len() == h0.contains@.len() + 1
                        &&& hn.contains@ == h0.contains@.push(hn.contains@.last())
                        &&& hn.contains@.last().is_visible()
                        &&& hn.bet == h0.bet
                        &&& hn.outcome == h0.outcome
                        &&& hn.wf()
                    }
                } else {
                    *final(self) == *old(self)
                }
            }),
    {
        let pi = self.active_hand_index.0;
        let hi = self.active_hand_index.1;
        let not_finished = self.players[pi].hands[hi].outcome == Outcome::NotFinished;
        let rv = self.players[pi].hands[hi].get_real_value();
        if not_finished && rv.0 < 21 {
            proof {
                let h0 = self.players@[pi as int].hands@[hi as int];
                lemma_aces_bound(h0.contains@);
                lemma_sum_bounded_by_real(h0.value as nat, h0.number_of_aces as nat);
            }
            let pl = player_at(&mut self.players, pi);
            let hd = hand_at(&mut pl.hands, hi);
            hd.add_card();
        }
    }

    /// Advance the cursor to the next hand: the next hand of the same
    /// player if one exists, else the first hand of the next player if one
    /// exists, else stay on the last hand.
    pub fn next_hand(&mut self)
        requires
            old(self).wf(),
        ensures
            final(self).active_hand_index == old(self).next_index_spec(),
            final(self).players == old(self).players,
            final(self).dealer_hand == old(self).dealer_hand,
            final(self).wf(),
    {
        let pi = self.active_hand_index.0;
        let hi = self.active_hand_index.1;
        let nh = self.players[pi].hands.len();
        let np = self.players.len();
        if hi + 1 < nh {
            self.active_hand_index = (pi, hi + 1);
        } else if pi + 1 < np {
            self.active_hand_index = (pi + 1, 0);
        }
    }
}


/// A prefix of the hands extended by one hand extends its payout total by
/// that hand's payout.
proof fn lemma_delta_prefix_step(hands: Seq<Hand>, i: int, d: u8)
    requires
        0 <= i < hands.len(),
    ensures
        hands_delta(hands.subrange(0, i + 1), d) == hands_delta(hands.subrange(0, i), d)
            + hand_delta(hands[i], d),
{
    assert(hands.subrange(0, i + 1).drop_last() =~= hands.subrange(0, i));
    assert(hands.subrange(0, i + 1).last() == hands[i]);
}

/// Replacing one hand by one that yields the same payout leaves the total
/// payout of the sequence unchanged.
proof fn lemma_delta_update(hands: Seq<Hand>, i: int, h2: Hand, d: u8)
    requires
        0 <= i < hands.len(),
        hand_delta(h2, d) == hand_delta(hands[i], d),
    ensures
        hands_delta(hands.update(i, h2), d) == hands_delta(hands, d),
    decreases hands.len(),
{
    if i == hands.len() - 1 {
        assert(hands.update(i, h2).drop_last() =~= hands.drop_last());
        assert(hands.update(i, h2).last() == h2);
    } else {
        lemma_delta_update(hands.drop_last(), i, h2, d);
        assert(hands.update(i, h2).drop_last() =~= hands.drop_last().update(i, h2));
        assert(hands.update(i, h2).last() == hands.last());
    }
}

/// Progress measure for the dealer's drawing loop: every visible card
/// raises the discounted raw total `sum - 10 * aces` by at least one, and
/// the dealer stops before that total reaches 17.
spec fn dealer_draw_measure(h: Hand) -> int {
    let gap = 17 - (sum_points(h.contains@) - 10 * count_aces(h.contains@));
    if gap > 0 {
        gap
    } else {
        0
    }
}

/// Whether any hand of any player is still `NotFinished`.
fn all_hands_finished(players: &Vec<Player>) -> (r: bool)
    ensures
        r == spec_all_finished(players@),
{
    let np = players.len();
    let mut p: usize = 0;
    while p < np
        invariant
            np == players@.len(),
            p <= np,
            forall|q: int, j: int|
                0 <= q < p && 0 <= j < players@[q].hands@.len() ==> !((
                #[trigger] players@[q].hands@[j]).outcome is NotFinished),
        decreases np - p,
    {
        let nh = players[p].hands.len();
        let mut k: usize = 0;
        while k < nh
            invariant
                np == players@.len(),
                p < np,
                nh == players@[p as int].hands@.len(),
                k <= nh,
                forall|q: int, j: int|
                    0 <= q < p && 0 <= j < players@[q].hands@.len() ==> !((
                    #[trigger] players@[q].hands@[j]).outcome is NotFinished),
                forall|j: int|
                    0 <= j < k ==> !((#[trigger] players@[p as int].hands@[j]).outcome
                        is NotFinished),
            decreases nh - k,
        {
            if players[p].hands[k].outcome == Outcome::NotFinished {
                return false;
            }
            k = k + 1;
        }
        p = p + 1;
    }
    true
}

impl App {
    /// End of the round: reveal the dealer's hole card if it is still
    /// hidden, draw into the dealer's hand while its real value is below
    /// 17 (on any lower total, soft or hard), then settle every hand still
    /// `NotFinished` or `Stand` against the dealer's total and credit the
    /// payouts to the owning banks.
    pub fn end(&mut self)
        requires
            old(self).wf(),
            sum_points(old(self).dealer_hand.contains@) + 11 <= u8::MAX,
            forall|p: int|
                0 <= p < old(self).players@.len() ==> (#[trigger] old(self).players@[p]).bank + 2
                    * ANTE * old(self).players@[p].hands@.len() <= i64::MAX,
        ensures
            final(self).wf(),
            final(self).active_hand_index == old(self).active_hand_index,
            final(self).players@.len() == old(self).players@.len(),
            dealer_done(old(self).dealer_hand, final(self).dealer_hand),
            forall|p: int|
                0 <= p < old(self).players@.len() ==> player_settled(
                    old(self).players@[p],
                    (#[trigger] final(self).players@[p]),
                    final(self).dealer_hand.real_total() as u8,
                ),
    {
        let hidden = self.dealer_hand.contains[0].value == CardValue::Hidden;
        if hidden {
            self.dealer_hand.reveal_first_card();
        }
        loop
            invariant
                self.players == old(self).players,
                self.active_hand_index == old(self).active_hand_index,
                self.dealer_hand.wf(),
                old(self).dealer_hand.contains@.len() >= 1,
                self.dealer_hand.contains@.len() >= old(self).dealer_hand.contains@.len(),
                self.dealer_hand.contains@[0].is_visible(),
                forall|i: int|
                    1 <= i < old(self).dealer_hand.contains@.len()
                        ==> self.dealer_hand.contains@[i] == old(self).dealer_hand.contains@[i],
                old(self).dealer_hand.contains@[0].is_visible()
                    ==> self.dealer_hand.contains@[0] == old(self).dealer_hand.contains@[0],
                forall|i: int|
                    old(self).dealer_hand.contains@.len() <= i < self.dealer_hand.contains@.len()
                        ==> (#[trigger] self.dealer_hand.contains@[i]).is_visible(),
                self.dealer_hand.bet == old(self).dealer_hand.bet,
                self.dealer_hand.outcome == old(self).dealer_hand.outcome,
                old(self).dealer_hand.contains@[0].is_visible() && old(self).dealer_hand.real_total() >= 17 ==> self.dealer_hand.same_hand(
                    old(self).dealer_hand,
                ),
                self.dealer_hand.contains@.len() > old(self).dealer_hand.contains@.len() ==> ({
                    let prev = self.dealer_hand.contains@.drop_last();
                    reduce(sum_points(prev), count_aces(prev)).0 < 17
                }),
                self.dealer_hand.contains@.len() > old(self).dealer_hand.contains@.len()
                    ==> self.dealer_hand.real_total() <= 26,
            ensures
                self.dealer_hand.real_total() >= 17,
            decreases dealer_draw_measure(self.dealer_hand),
        {
            let rv = self.dealer_hand.get_real_value();
            if rv.0 >= 17 {
                break;
            }
            proof {
                lemma_aces_bound(self.dealer_hand.contains@);
                lemma_sum_bounded_by_real(
                    self.dealer_hand.value as nat,
                    self.dealer_hand.number_of_aces as nat,
                );
                lemma_reduce(self.dealer_hand.value as nat, self.dealer_hand.number_of_aces as nat);
            }
            let ghost before = self.dealer_hand;
            self.dealer_hand.add_card();
            proof {
                let c = self.dealer_hand.contains@.last();
                lemma_push_card(before.contains@, c);
                assert(self.dealer_hand.contains@.drop_last() =~= before.contains@);
                let s = before.value as nat;
                let a = before.number_of_aces as nat;
                if c.value is Ace {
                    assert(c.points() == 11);
                    if s + 11 > 21 {
                        assert(reduce(s + 11, a + 1) == reduce(s + 1, a));
                        lemma_reduce_add_le(s, 1, a);
                    }
                } else {
                    assert(2 <= c.points() <= 10);
                    lemma_reduce_add_le(s, c.points(), a);
                }
                assert(self.dealer_hand.real_total() <= 26);
            }
        }
        let drv = self.dealer_hand.get_real_value();
        let d: u8 = drv.0;
        let ghost dealer1 = self.dealer_hand;
        let np = self.players.len();
        let mut p: usize = 0;
        while p < np
            invariant
                np == self.players@.len(),
                self.players@.len() == old(self).players@.len(),
                p <= np,
                self.dealer_hand == dealer1,
                dealer_done(old(self).dealer_hand, dealer1),
                d as nat == dealer1.real_total(),
                self.active_hand_index == old(self).active_hand_index,
                forall|q: int|
                    p <= q < np ==> (#[trigger] self.players@[q]) == old(self).players@[q],
                forall|q: int|
                    0 <= q < p ==> player_settled(
                        old(self).players@[q],
                        (#[trigger] self.players@[q]),
                        d,
                    ),
                forall|q: int| 0 <= q < np ==> (#[trigger] old(self).players@[q]).wf(),
                forall|q: int|
                    0 <= q < np ==> (#[trigger] old(self).players@[q]).bank + 2 * ANTE * old(self).players@[q].hands@.len() <= i64::MAX,
            decreases np - p,
        {
            let ghost pl0 = self.players@[p as int];
            let pl = player_at(&mut self.players, p);
            let nh = pl.hands.len();
            let mut h: usize = 0;
            while h < nh
                invariant
                    h <= nh,
                    nh == pl.hands@.len(),
                    pl.hands@.len() == pl0.hands@.len(),
                    pl.name == pl0.name,
                    pl0.wf(),
                    pl0.bank + 2 * ANTE * pl0.hands@.len() <= i64::MAX,
                    pl.bank == pl0.bank + hands_delta(pl0.hands@.subrange(0, h as int), d),
                    0 <= hands_delta(pl0.hands@.subrange(0, h as int), d) <= 2 * ANTE * h,
                    forall|k: int|
                        0 <= k < h ==> hand_settled(pl0.hands@[k], (#[trigger] pl.hands@[k]), d),
                    forall|k: int| h <= k < nh ==> (#[trigger] pl.hands@[k]) == pl0.hands@[k],
                decreases nh - h,
            {
                proof {
                    lemma_delta_prefix_step(pl0.hands@, h as int, d);
                }
                let hd = hand_at(&mut pl.hands, h);
                if hd.outcome == Outcome::NotFinished || hd.outcome == Outcome::Stand {
                    let rv = hd.get_real_value();
                    let rr = resolve(d, rv.0, hd.bet);
                    hd.outcome = rr.0;
                    pl.bank = pl.bank + rr.1;
                    hd.bet = 0;
                }
                h = h + 1;
            }
            proof {
                assert(pl0.hands@.subrange(0, nh as int) =~= pl0.hands@);
            }
            p = p + 1;
        }
        proof {
            assert forall|q: int| 0 <= q < self.players@.len() implies (#[trigger] self.players@[q]).wf() by {
                let pre = old(self).players@[q];
                let post = self.players@[q];
                assert(player_settled(pre, post, d));
                assert forall|k: int| 0 <= k < post.hands@.len() implies (#[trigger] post.hands@[k]).wf() && 0 <= post.hands@[k].bet <= ANTE by {
                    assert(hand_settled(pre.hands@[k], post.hands@[k], d));
                };
            };
        }
    }

    /// End the turn on the active hand: mark it `Stand` if it was not yet
    /// finished, advance the cursor, and, once no hand anywhere is left
    /// `NotFinished`, run the end of the round.
    pub fn stay(&mut self)
        requires
            old(self).wf(),
            sum_points(old(self).dealer_hand.contains@) + 11 <= u8::MAX,
            forall|p: int|
                0 <= p < old(self).players@.len() ==> (#[trigger] old(self).players@[p]).bank + 2
                    * ANTE * old(self).players@[p].hands@.len() <= i64::MAX,
        ensures
            final(self).wf(),
            final(self).players@.len() == old(self).players@.len(),
            final(self).active_hand_index == old(self).next_index_spec(),
            ({
                let pi = old(self).active_hand_index.0 as int;
                let hi = old(self).active_hand_index.1 as int;
                let h0 = old(self).active_hand();
                let stood = if h0.outcome is NotFinished {
                    Outcome::Stand
                } else {
                    h0.outcome
                };
                if old(self).all_finished_after_stand() {
                    &&& dealer_done(old(self).dealer_hand, final(self).dealer_hand)
                    &&& forall|p: int|
                        0 <= p < old(self).players@.len() ==> player_settled(
                            old(self).players@[p],
                            (#[trigger] final(self).players@[p]),
                            final(self).dealer_hand.real_total() as u8,
                        )
                } else {
                    &&& final(self).dealer_hand == old(self).dealer_hand
                    &&& forall|q: int|
                        0 <= q < old(self).players@.len() && q != pi ==> (#[trigger] final(self).players@[q]) == old(self).players@[q]
                    &&& final(self).players@[pi].name == old(self).players@[pi].name
                    &&& final(self).players@[pi].bank == old(self).players@[pi].bank
                    &&& final(self).players@[pi].hands@.len() == old(self).players@[pi].hands@.len()
                    &&& forall|k: int|
                        0 <= k < old(self).players@[pi].hands@.len() && k != hi ==> (
                        #[trigger] final(self).players@[pi].hands@[k]) == old(self).players@[pi].hands@[k]
                    &&& {
                        let hn = final(self).players@[pi].hands@[hi];
                        &&& hn.contains@ == h0.contains@
                        &&& hn.value == h0.value
                        &&& hn.number_of_aces == h0.number_of_aces
                        &&& hn.bet == h0.bet
                        &&& hn.outcome == stood
                    }
                }
            }),
    {
        let pi = self.active_hand_index.0;
        let hi = self.active_hand_index.1;
        if self.players[pi].hands[hi].outcome == Outcome::NotFinished {
            let pl = player_at(&mut self.players, pi);
            let hd = hand_at(&mut pl.hands, hi);
            hd.outcome = Outcome::Stand;
        }
        proof {
            assert forall|q: int| 0 <= q < self.players@.len() implies (#[trigger] self.players@[q]).wf() by {
                assert(old(self).players@[q].wf());
            };
            assert(self.wf());
        }
        self.next_hand();
        let ghost mid = *self;
        let fin = all_hands_finished(&self.players);
        proof {
            let pii = pi as int;
            let hii = hi as int;
            if fin {
                assert forall|p: int, h: int|
                    0 <= p < old(self).players@.len() && 0 <= h < old(
                        self,
                    ).players@[p].hands@.len() && !(p == pii && h == hii) implies !((
                #[trigger] old(self).players@[p].hands@[h]).outcome is NotFinished) by {
                    assert(!(mid.players@[p].hands@[h].outcome is NotFinished));
                    assert(mid.players@[p].hands@[h].outcome == old(
                        self,
                    ).players@[p].hands@[h].outcome);
                };
                assert(old(self).all_finished_after_stand());
            } else {
                assert(!spec_all_finished(mid.players@));
                let (wp, wh) = choose|wp: int, wh: int|
                    0 <= wp < mid.players@.len() && 0 <= wh < mid.players@[wp].hands@.len()
                        && (mid.players@[wp].hands@[wh].outcome is NotFinished);
                assert(!(mid.players@[pii].hands@[hii].outcome is NotFinished));
                assert(!(wp == pii && wh == hii));
                assert(old(self).players@[wp].hands@[wh].outcome
                    == mid.players@[wp].hands@[wh].outcome);
                assert(!old(self).all_finished_after_stand());
            }
        }
        if fin {
            proof {
                assert forall|q: int| 0 <= q < self.players@.len() implies (
                #[trigger] self.players@[q]).bank + 2 * ANTE * self.players@[q].hands@.len()
                    <= i64::MAX by {
                    assert(old(self).players@[q].bank + 2 * ANTE * old(self).players@[q].hands@.len() <= i64::MAX);
                };
            }
            self.end();
            proof {
                let d = self.dealer_hand.real_total() as u8;
                let pii = pi as int;
                let hii = hi as int;
                let h0 = old(self).active_hand();
                if h0.outcome is NotFinished {
                    let marked = mid.players@[pii].hands@[hii];
                    lemma_delta_update(old(self).players@[pii].hands@, hii, marked, d);
                }
                assert forall|p: int| 0 <= p < old(self).players@.len() implies player_settled(
                    old(self).players@[p],
                    (#[trigger] self.players@[p]),
                    d,
                ) by {
                    assert(player_settled(mid.players@[p], self.players@[p], d));
                };
            }
        }
    }
}

} // verus!
