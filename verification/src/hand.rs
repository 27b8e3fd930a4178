//! Hands: an ordered sequence of cards with ace-aware valuation.
//!
//! A hand caches its raw total (aces counted as 11) and its ace count; the
//! caches are recomputed whenever a card is added or revealed, so they are
//! never stale. The *real value* is derived on demand by ace reduction:
//! subtract 10 for one ace at a time while the total exceeds 21 and an ace
//! is left to discount.

use vstd::prelude::*;
use crate::card::Card;
use crate::card::CardValue;
use crate::digits::dec_digits;
use crate::digits::u8_to_string;
use crate::outcome::Outcome;

verus! {

/// Sum of the points of a sequence of cards (a hidden card counts 0).
pub open spec fn sum_points(cards: Seq<Card>) -> nat
    decreases cards.len(),
{
    if cards.len() == 0 {
        0
    } else {
        sum_points(cards.drop_last()) + cards.last().points()
    }
}

/// Number of aces in a sequence of cards.
pub open spec fn count_aces(cards: Seq<Card>) -> nat
    decreases cards.len(),
{
    if cards.len() == 0 {
        0
    } else {
        count_aces(cards.drop_last()) + (if cards.last().value is Ace {
            1nat
        } else {
            0nat
        })
    }
}

/// Ace reduction: starting from the raw total `value` with `aces` aces
/// counted as 11, repeatedly subtract 10 (count one ace as 1 instead of 11)
/// while the total exceeds 21 and an ace is left to discount. Returns the
/// reduced total and the number of aces still counted as 11.
pub open spec fn reduce(value: nat, aces: nat) -> (nat, nat)
    decreases aces,
{
    if value > 21 && aces > 0 {
        reduce((value - 10) as nat, (aces - 1) as nat)
    } else {
        (value, aces)
    }
}

/// Appending a card adds its points to the sum and its ace flag to the count.
pub proof fn lemma_push_card(cards: Seq<Card>, c: Card)
    ensures
        sum_points(cards.push(c)) == sum_points(cards) + c.points(),
        count_aces(cards.push(c)) == count_aces(cards) + (if c.value is Ace {
            1nat
        } else {
            0nat
        }),
{
    assert(cards.push(c).drop_last() =~= cards);
}

/// Replacing one card exchanges its contribution for the new card's.
pub proof fn lemma_update_card(cards: Seq<Card>, i: int, c: Card)
    requires
        0 <= i < cards.len(),
    ensures
        sum_points(cards.update(i, c)) + cards[i].points() == sum_points(cards) + c.points(),
        count_aces(cards.update(i, c)) + (if cards[i].value is Ace {
            1nat
        } else {
            0nat
        }) == count_aces(cards) + (if c.value is Ace {
            1nat
        } else {
            0nat
        }),
    decreases cards.len(),
{
    if i == cards.len() - 1 {
        assert(cards.update(i, c).drop_last() =~= cards.drop_last());
        assert(cards.update(i, c).last() == c);
    } else {
        lemma_update_card(cards.drop_last(), i, c);
        assert(cards.update(i, c).drop_last() =~= cards.drop_last().update(i, c));
        assert(cards.update(i, c).last() == cards.last());
    }
}

/// Every ace contributes 11 to the raw sum, so eleven times the ace count
/// never exceeds the sum.
pub proof fn lemma_aces_bound(cards: Seq<Card>)
    ensures
        11 * count_aces(cards) <= sum_points(cards),
    decreases cards.len(),
{
    if cards.len() > 0 {
        lemma_aces_bound(cards.drop_last());
        if cards.last().value is Ace {
            assert(cards.last().points() == 11);
        }
    }
}

/// Ace reduction removes exactly 10 per discounted ace, discounts at most
/// `aces` aces, and stops only once the total is at most 21 or no ace is
/// left to discount.
pub proof fn lemma_reduce(value: nat, aces: nat)
    ensures
        reduce(value, aces).1 <= aces,
        reduce(value, aces).0 + 10 * (aces - reduce(value, aces).1) == value,
        reduce(value, aces).0 <= value,
        reduce(value, aces).1 > 0 ==> reduce(value, aces).0 <= 21,
        reduce(value, aces).0 > 21 ==> reduce(value, aces).1 == 0,
    decreases aces,
{
    if value > 21 && aces > 0 {
        lemma_reduce((value - 10) as nat, (aces - 1) as nat);
    }
}

/// A hand's real value never exceeds 21 while any ace can still be
/// discounted: a soft reduced total is at most 21, and a total that busts
/// has no ace left counted as 11.
pub proof fn lemma_soft_at_most_21(value: nat, aces: nat)
    ensures
        reduce(value, aces).1 > 0 ==> reduce(value, aces).0 <= 21,
        reduce(value, aces).0 > 21 ==> reduce(value, aces).1 == 0,
{
    lemma_reduce(value, aces);
}

/// Raising the raw total raises the reduced total by at most as much:
/// extra reductions can only eat into the increase.
pub proof fn lemma_reduce_add_le(value: nat, d: nat, aces: nat)
    ensures
        reduce(value + d, aces).0 <= reduce(value, aces).0 + d,
    decreases aces,
{
    if value + d > 21 && aces > 0 {
        assert(reduce((value + d) as nat, aces) == reduce(
            (value + d - 10) as nat,
            (aces - 1) as nat,
        ));
        if value > 21 {
            assert(reduce(value, aces) == reduce((value - 10) as nat, (aces - 1) as nat));
            lemma_reduce_add_le((value - 10) as nat, d, (aces - 1) as nat);
        } else {
            assert(reduce(value, aces).0 == value);
            if d >= 10 {
                lemma_reduce_add_le(value, (d - 10) as nat, (aces - 1) as nat);
                assert(reduce(value, (aces - 1) as nat).0 == value);
            } else {
                assert(value + d - 10 <= 21);
                assert(reduce((value + d - 10) as nat, (aces - 1) as nat).0 == value + d - 10);
            }
        }
    }
}

/// For every hand, the real value never exceeds 21 while any ace can
/// still be discounted: a soft hand's real value is at most 21, and a
/// hand whose real value busts has no ace left to reduce.
pub proof fn lemma_soft_hand_at_most_21(h: Hand)
    ensures
        h.is_soft() ==> h.real_total() <= 21,
        h.real_total() > 21 ==> !h.is_soft(),
{
    lemma_soft_at_most_21(h.value as nat, h.number_of_aces as nat);
}

/// The raw sum is at most eleven times the reduced total: only aces are
/// discounted, and each ace put 11 into the sum.
pub proof fn lemma_sum_bounded_by_real(value: nat, aces: nat)
    requires
        11 * aces <= value,
    ensures
        value <= 11 * reduce(value, aces).0,
{
    lemma_reduce(value, aces);
    let rv = reduce(value, aces).0;
    let ra = reduce(value, aces).1;
    assert(value <= 11 * rv) by (nonlinear_arith)
        requires
            rv + 10 * (aces - ra) == value,
            0 <= ra <= aces,
            11 * aces <= value,
    ;
}

/// One player's or the dealer's hand.
pub struct Hand {
    pub contains: Vec<Card>,
    pub number_of_aces: u8,
    pub value: u8,
    pub bet: i64,
    pub outcome: Outcome,
}

impl Hand {
    /// The cached raw total and ace count agree with the cards, and every
    /// card is either fully hidden or fully visible.
    pub open spec fn wf(self) -> bool {
        &&& self.value as nat == sum_points(self.contains@)
        &&& self.number_of_aces as nat == count_aces(self.contains@)
        &&& forall|i: int|
            0 <= i < self.contains@.len() ==> (#[trigger] self.contains@[i]).wf()
    }

    /// The hand's real value: the raw total after ace reduction.
    pub open spec fn real_total(self) -> nat {
        reduce(self.value as nat, self.number_of_aces as nat).0
    }

    /// Whether the hand is soft: an ace still counts as 11 after reduction.
    pub open spec fn is_soft(self) -> bool {
        reduce(self.value as nat, self.number_of_aces as nat).1 > 0
    }

    /// Two hands that hold the same cards, caches, wager and outcome.
    pub open spec fn same_hand(self, other: Hand) -> bool {
        &&& self.contains@ == other.contains@
        &&& self.number_of_aces == other.number_of_aces
        &&& self.value == other.value
        &&& self.bet == other.bet
        &&& self.outcome == other.outcome
    }

    /// An empty hand with no wager and no outcome yet.
    pub fn new() -> (h: Hand)
        ensures
            h.contains@.len() == 0,
            h.number_of_aces == 0,
            h.value == 0,
            h.bet == 0,
            h.outcome is NotFinished,
            h.wf(),
    {
        Hand {
            contains: Vec::new(),
            number_of_aces: 0,
            value: 0,
            bet: 0,
            outcome: Outcome::NotFinished,
        }
    }

    /// The raw total of the cards (aces as 11, hidden cards as 0).
    pub fn get_value(&self) -> (r: u8)
        requires
            sum_points(self.contains@) <= u8::MAX,
        ensures
            r as nat == sum_points(self.contains@),
    {
        let mut value: u8 = 0;
        let mut i: usize = 0;
        while i < self.contains.len()
            invariant
                i <= self.contains@.len(),
                value as nat == sum_points(self.contains@.subrange(0, i as int)),
                sum_points(self.contains@) <= u8::MAX,
            decreases self.contains@.len() - i,
        {
            proof {
                lemma_prefix_step(self.contains@, i as int);
                lemma_prefix_bound(self.contains@, i + 1);
            }
            value = value + self.contains[i].numerical_value();
            i = i + 1;
        }
        proof {
            assert(self.contains@.subrange(0, self.contains@.len() as int) =~= self.contains@);
        }
        value
    }

    /// The number of aces among the cards.
    pub fn get_number_of_aces(&self) -> (r: u8)
        requires
            count_aces(self.contains@) <= u8::MAX,
        ensures
            r as nat == count_aces(self.contains@),
    {
        let mut aces: u8 = 0;
        let mut i: usize = 0;
        while i < self.contains.len()
            invariant
                i <= self.contains@.len(),
                aces as nat == count_aces(self.contains@.subrange(0, i as int)),
                count_aces(self.contains@) <= u8::MAX,
            decreases self.contains@.len() - i,
        {
            proof {
                lemma_prefix_step(self.contains@, i as int);
                lemma_prefix_bound(self.contains@, i + 1);
            }
            if self.contains[i].value == CardValue::Ace {
                aces = aces + 1;
            }
            i = i + 1;
        }
        proof {
            assert(self.contains@.subrange(0, self.contains@.len() as int) =~= self.contains@);
        }
        aces
    }

    /// Append a chosen card and recompute the cached total and ace count.
    pub fn push_card(&mut self, c: Card)
        requires
            old(self).wf(),
            c.wf(),
            sum_points(old(self).contains@) + c.points() <= u8::MAX,
        ensures
            final(self).contains@ == old(self).contains@.push(c),
            final(self).bet == old(self).bet,
            final(self).outcome == old(self).outcome,
            final(self).wf(),
    {
        proof {
            lemma_push_card(self.contains@, c);
            lemma_aces_bound(self.contains@.push(c));
        }
        self.contains.push(c);
        self.value = self.get_value();
        self.number_of_aces = self.get_number_of_aces();
    }

    /// Draw a visible card from the shoe into the hand.
    pub fn add_card(&mut self)
        requires
            old(self).wf(),
            sum_points(old(self).contains@) + 11 <= u8::MAX,
        ensures
            final(self).contains@.len() == old(self).contains@.len() + 1,
            final(self).contains@ == old(self).contains@.push(final(self).contains@.last()),
            final(self).contains@.last().is_visible(),
            sum_points(final(self).contains@) <= sum_points(old(self).contains@) + 11,
            final(self).bet == old(self).bet,
            final(self).outcome == old(self).outcome,
            final(self).wf(),
    {
        let c = Card::new();
        proof {
            lemma_push_card(self.contains@, c);
            assert(c.points() <= 11);
        }
        self.push_card(c);
    }

    /// Append the face-down hole card. The cached totals are unchanged,
    /// and stay accurate: a hidden card contributes nothing until revealed.
    pub fn add_hidden_card(&mut self)
        requires
            old(self).wf(),
        ensures
            final(self).contains@.len() == old(self).contains@.len() + 1,
            final(self).contains@ == old(self).contains@.push(final(self).contains@.last()),
            final(self).contains@.last().is_hidden(),
            final(self).number_of_aces == old(self).number_of_aces,
            final(self).value == old(self).value,
            final(self).bet == old(self).bet,
            final(self).outcome == old(self).outcome,
            final(self).wf(),
    {
        let c = Card::new_hidden();
        proof {
            lemma_push_card(self.contains@, c);
        }
        self.contains.push(c);
    }

    /// Reveal the hole card: flip the first card to a fresh random visible
    /// card and recompute both caches so they are never stale.
    pub fn reveal_first_card(&mut self)
        requires
            old(self).wf(),
            old(self).contains@.len() >= 1,
            sum_points(old(self).contains@) + 11 <= u8::MAX,
        ensures
            final(self).contains@.len() == old(self).contains@.len(),
            final(self).contains@[0].is_visible(),
            forall|i: int|
                1 <= i < old(self).contains@.len() ==> final(self).contains@[i] == old(
                    self,
                ).contains@[i],
            final(self).bet == old(self).bet,
            final(self).outcome == old(self).outcome,
            final(self).wf(),
    {
        let mut c = self.contains[0];
        c.flip_card();
        proof {
            lemma_update_card(self.contains@, 0, c);
            assert(c.points() <= 11);
            lemma_aces_bound(self.contains@.update(0, c));
        }
        self.contains.set(0, c);
        self.value = self.get_value();
        self.number_of_aces = self.get_number_of_aces();
    }

    /// The ace-reduction algorithm: the hand's real value, and whether the
    /// hand is still soft. Recomputed on every call from the cached total.
    pub fn get_real_value(&self) -> (r: (u8, bool))
        ensures
            r.0 as nat == self.real_total(),
            r.1 == self.is_soft(),
    {
        let mut value: u8 = self.value;
        let mut aces: u8 = self.number_of_aces;
        while value > 21 && aces > 0
            invariant
                reduce(value as nat, aces as nat) == reduce(
                    self.value as nat,
                    self.number_of_aces as nat,
                ),
            decreases aces,
        {
            aces = aces - 1;
            value = value - 10;
        }
        let soft = aces > 0;
        (value, soft)
    }

    /// Whether the hand busts: real value above 21 after all reductions.
    pub fn is_bust(&self) -> (r: bool)
        ensures
            r == (self.real_total() > 21),
    {
        let rv = self.get_real_value();
        rv.0 > 21
    }

    /// The display text of the hand's value: the real total, prefixed with
    /// "a soft " while an ace still counts as 11.
    pub open spec fn value_string_spec(self) -> Seq<char> {
        if self.is_soft() {
            "a soft "@ + dec_digits(self.real_total())
        } else {
            dec_digits(self.real_total())
        }
    }

    /// The hand's value as shown to the player.
    pub fn value_string(&self) -> (s: String)
        ensures
            s@ == self.value_string_spec(),
    {
        let rv = self.get_real_value();
        let num = u8_to_string(rv.0);
        if rv.1 {
            let mut s = "a soft ".to_owned();
            s.append(num.as_str());
            s
        } else {
            num
        }
    }
}

/// Extending a prefix of the cards by one card extends its sum and count.
proof fn lemma_prefix_step(cards: Seq<Card>, i: int)
    requires
        0 <= i < cards.len(),
    ensures
        sum_points(cards.subrange(0, i + 1)) == sum_points(cards.subrange(0, i))
            + cards[i].points(),
        count_aces(cards.subrange(0, i + 1)) == count_aces(cards.subrange(0, i)) + (
        if cards[i].value is Ace {
            1nat
        } else {
            0nat
        }),
{
    assert(cards.subrange(0, i + 1).drop_last() =~= cards.subrange(0, i));
    assert(cards.subrange(0, i + 1).last() == cards[i]);
}

/// A prefix of the cards never sums or counts more than the whole.
proof fn lemma_prefix_bound(cards: Seq<Card>, i: int)
    requires
        0 <= i <= cards.len(),
    ensures
        sum_points(cards.subrange(0, i)) <= sum_points(cards),
        count_aces(cards.subrange(0, i)) <= count_aces(cards),
    decreases cards.len() - i,
{
    if i == cards.len() {
        assert(cards.subrange(0, i) =~= cards);
    } else {
        lemma_prefix_step(cards, i);
        lemma_prefix_bound(cards, i + 1);
    }
}

} // verus!
