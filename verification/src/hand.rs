//! The hand engine: a hand accumulates cards into the set of all totals it
//! can simultaneously be worth, since every Ace counts as 1 or as 11 at
//! once. Totals that go over 21 are dropped as soon as they arise and never
//! return; a non-empty hand whose set of totals is empty is busted.
//!
//! The concrete state keeps the totals as a strictly ascending `Vec<u8>`,
//! deduplicated, which is also the display order. The mathematical model is
//! the set `spec_totals(cards)`: every sum the card sequence can make, with
//! each Ace free to count as 1 or 11, restricted to sums of at most 21.

use vstd::prelude::*;
use crate::card::{Card, Rank};

verus! {

/// One card extends a set of running sums: an Ace turns each sum `t` into
/// both `t + 1` and `t + 11`; any other card turns it into `t + value`.
pub open spec fn step_sums(sums: Set<int>, c: Card) -> Set<int> {
    if c.rank is Ace {
        Set::new(|x: int| exists|t: int| sums.contains(t) && (x == t + 1 || x == t + 11))
    } else {
        Set::new(|x: int| exists|t: int| sums.contains(t) && x == t + c.value)
    }
}

/// Every sum a sequence of cards can make, counting each Ace as 1 or as 11.
/// The empty sequence makes only 0, the seed of every running sum.
pub open spec fn all_sums(cards: Seq<Card>) -> Set<int>
    decreases cards.len(),
{
    if cards.len() == 0 {
        set![0int]
    } else {
        step_sums(all_sums(cards.drop_last()), cards.last())
    }
}

/// Keeps only the sums that have not gone over 21.
pub open spec fn keep_valid(sums: Set<int>) -> Set<int> {
    sums.filter(|t: int| t <= 21)
}

/// The totals a hand of these cards is worth: every achievable sum that is
/// still at most 21. Empty both for no cards at all and for a busted hand;
/// the two are told apart by the card count.
pub open spec fn spec_totals(cards: Seq<Card>) -> Set<int> {
    if cards.len() == 0 {
        Set::empty()
    } else {
        keep_valid(all_sums(cards))
    }
}

/// The set of integers a vector of totals holds.
pub open spec fn vals_set(vals: Seq<u8>) -> Set<int> {
    Set::new(|x: int| exists|i: int| 0 <= i < vals.len() && vals[i] as int == x)
}

/// Strictly ascending: sorted, with no duplicates.
pub open spec fn sorted_strict(vals: Seq<u8>) -> bool {
    forall|i: int, j: int| 0 <= i < j < vals.len() ==> vals[i] < vals[j]
}

/// A hand: the cards in draw order, and the deduplicated, ascending list of
/// every total the hand can currently be worth.
pub struct Hand {
    pub cards: Vec<Card>,
    pub values: Vec<u8>,
}

impl Hand {
    /// The mathematical reading of the hand's totals.
    pub open spec fn totals(self) -> Set<int> {
        spec_totals(self.cards@)
    }

    /// The largest current total, or 0 for an empty or busted hand.
    pub open spec fn spec_max(self) -> int {
        if self.values@.len() == 0 {
            0
        } else {
            self.values@.last() as int
        }
    }

    /// Busted: at least one card, yet no total survived the 21 limit.
    pub open spec fn spec_busted(self) -> bool {
        self.cards@.len() > 0 && self.totals().is_empty()
    }

    /// A natural: exactly two cards that can be worth 21.
    pub open spec fn spec_blackjack(self) -> bool {
        self.cards@.len() == 2 && self.totals().contains(21)
    }

    /// Well-formedness: the cards are valid, and the stored list of totals
    /// is exactly the model set, ascending, deduplicated, capped at 21.
    pub open spec fn wf(self) -> bool {
        &&& forall|i: int| 0 <= i < self.cards@.len() ==> self.cards@[i].wf()
        &&& sorted_strict(self.values@)
        &&& forall|i: int| 0 <= i < self.values@.len() ==> self.values@[i] <= 21
        &&& vals_set(self.values@) == self.totals()
    }

    /// A fresh, empty hand.
    pub fn new() -> (h: Hand)
        ensures
            h.wf(),
            h.cards@.len() == 0,
            h.values@.len() == 0,
    {
        let h = Hand { cards: Vec::new(), values: Vec::new() };
        proof {
            assert(vals_set(h.values@) =~= spec_totals(h.cards@));
        }
        h
    }

    /// Drops every stored total that exceeds 21. On a well-formed hand this
    /// is a no-op; `add_card` uses it to bust-filter freshly grown totals.
    pub fn clear_invalid(&mut self)
        requires
            sorted_strict(old(self).values@),
        ensures
            final(self).cards@ == old(self).cards@,
            sorted_strict(final(self).values@),
            forall|i: int| 0 <= i < final(self).values@.len() ==> final(self).values@[i] <= 21,
            vals_set(final(self).values@) == keep_valid(vals_set(old(self).values@)),
    {
        while self.values.len() > 0 && self.values[self.values.len() - 1] > 21
            invariant
                self.cards@ == old(self).cards@,
                self.values@.len() <= old(self).values@.len(),
                forall|j: int|
                    0 <= j < self.values@.len() ==> self.values@[j] == old(self).values@[j],
                forall|j: int|
                    self.values@.len() <= j < old(self).values@.len() ==> old(self).values@[j] > 21,
            decreases self.values.len(),
        {
            self.values.pop();
        }
        proof {
            let k = self.values@.len() as int;
            assert forall|i: int, j: int| 0 <= i < j < k implies self.values@[i] < self.values@[j] by {
                assert(self.values@[i] == old(self).values@[i]);
                assert(self.values@[j] == old(self).values@[j]);
            }
            assert forall|i: int| 0 <= i < k implies self.values@[i] <= 21 by {
                assert(self.values@[k - 1] == old(self).values@[k - 1]);
                assert(self.values@[k - 1] <= 21);
                if i < k - 1 {
                    assert(self.values@[i] < self.values@[k - 1]);
                }
            }
            assert(vals_set(self.values@) =~= keep_valid(vals_set(old(self).values@))) by {
                assert forall|x: int| keep_valid(vals_set(old(self).values@)).contains(x)
                    implies vals_set(self.values@).contains(x) by {
                    let i = choose|i: int|
                        0 <= i < old(self).values@.len() && old(self).values@[i] as int == x;
                    assert(i < k);
                    assert(self.values@[i] as int == x);
                }
                assert forall|x: int| vals_set(self.values@).contains(x)
                    implies keep_valid(vals_set(old(self).values@)).contains(x) by {
                    let i = choose|i: int| 0 <= i < k && self.values@[i] as int == x;
                    assert(old(self).values@[i] as int == x);
                }
            }
        }
    }

    /// On a well-formed hand, every total still in play is at most 21 and
    /// at most the hand's best value; the stored list is empty exactly when
    /// the model holds no total, and otherwise the best value is itself one
    /// of the totals.
    pub proof fn lemma_totals_listed(self)
        requires
            self.wf(),
        ensures
            forall|t: int| self.totals().contains(t) ==> t <= 21,
            forall|t: int| self.totals().contains(t) ==> t <= self.spec_max(),
            self.values@.len() == 0 <==> self.totals().is_empty(),
            self.values@.len() > 0 ==> self.totals().contains(self.spec_max()),
    {
        let n = self.values@.len() as int;
        assert forall|t: int| self.totals().contains(t)
            implies t <= 21 && t <= self.spec_max() by {
            let i = choose|i: int| 0 <= i < n && self.values@[i] as int == t;
            assert(self.values@[i] <= 21);
            if i < n - 1 {
                assert(self.values@[i] < self.values@[n - 1]);
            }
        }
        if n > 0 {
            assert(self.values@[n - 1] as int == self.spec_max());
            assert(vals_set(self.values@).contains(self.spec_max()));
        } else {
            assert forall|t: int| !self.totals().contains(t) by {
                if vals_set(self.values@).contains(t) {
                    let i = choose|i: int| 0 <= i < n && self.values@[i] as int == t;
                }
            }
            assert(self.totals() =~= Set::<int>::empty());
        }
    }

    /// The hand's best current value: the largest total still in play, or 0
    /// for a hand with no totals left (not yet dealt, or busted).
    pub fn max_value(&self) -> (r: u8)
        requires
            self.wf(),
        ensures
            r as int == self.spec_max(),
            self.totals().is_empty() ==> r == 0,
            !self.totals().is_empty() ==> self.totals().contains(r as int),
            forall|t: int| self.totals().contains(t) ==> t <= r as int,
    {
        proof {
            self.lemma_totals_listed();
        }
        if self.values.len() == 0 {
            0
        } else {
            self.values[self.values.len() - 1]
        }
    }

    /// Busted: the hand holds cards, yet no way of counting its Aces keeps
    /// it at or under 21.
    pub fn busted(&self) -> (r: bool)
        requires
            self.wf(),
        ensures
            r == self.spec_busted(),
    {
        proof {
            self.lemma_totals_listed();
        }
        if self.values.len() == 0 && self.cards.len() != 0 {
            true
        } else if self.max_value() > 21 {
            // Defensively mirrors the busted test on the raw maximum; under
            // well-formedness every listed total is at most 21, so this arm
            // never fires.
            true
        } else {
            false
        }
    }

    /// A natural blackjack: exactly two cards worth 21. A 21 reached with
    /// three or more cards does not count.
    pub fn blackjack(&self) -> (r: bool)
        requires
            self.wf(),
        ensures
            r == self.spec_blackjack(),
    {
        proof {
            self.lemma_totals_listed();
        }
        self.max_value() == 21 && self.cards.len() == 2
    }

    /// Renders every total the hand can be worth, ascending, deduplicated,
    /// joined with " or ": a hand holding an Ace and a six shows "7 or 17".
    /// Only meaningful while at least one total survives, so callers must
    /// keep it off busted and undealt hands.
    pub fn format_options(&self) -> (r: String)
        requires
            self.wf(),
            self.values@.len() > 0,
        ensures
            r@ == crate::render::options_str(self.values@),
    {
        let mut s = String::new();
        crate::render::append_total(&mut s, self.values[0]);
        proof {
            assert(self.values@.subrange(0, 1) =~= seq![self.values@[0]]);
            assert(s@ =~= crate::render::options_str(self.values@.subrange(0, 1)));
        }
        let mut i: usize = 1;
        while i < self.values.len()
            invariant
                1 <= i <= self.values@.len(),
                sorted_strict(self.values@),
                forall|j: int| 0 <= j < self.values@.len() ==> self.values@[j] <= 21,
                s@ == crate::render::options_str(self.values@.subrange(0, i as int)),
            decreases self.values@.len() - i,
        {
            s.append(" or ");
            crate::render::append_total(&mut s, self.values[i]);
            proof {
                reveal_strlit(" or ");
                let cur = self.values@.subrange(0, i as int + 1);
                assert(cur.drop_last() =~= self.values@.subrange(0, i as int));
                assert(cur.last() == self.values@[i as int]);
                assert(s@ =~= crate::render::options_str(cur));
            }
            i += 1;
        }
        proof {
            assert(self.values@.subrange(0, self.values@.len() as int) =~= self.values@);
        }
        s
    }

    /// Adds one drawn card to the hand. The first card ever added seeds the
    /// running sums with 0; an Ace then splits every running sum into a low
    /// (+1) and a high (+11) reading, any other card adds its value to every
    /// sum. Sums over 21 are dropped at once; a hand whose sums are all gone
    /// is busted for good, and further cards only lengthen `cards`.
    pub fn add_card(&mut self, card: Card)
        requires
            old(self).wf(),
            card.wf(),
        ensures
            final(self).wf(),
            final(self).cards@ == old(self).cards@.push(card),
    {
        proof {
            crate::card::lemma_rank_value_bounds(card.rank);
        }
        if self.cards.len() == 0 {
            proof {
                if self.values@.len() > 0 {
                    assert(vals_set(self.values@).contains(self.values@[0] as int));
                }
            }
            self.values.push(0);
        }
        let ghost grown = vals_set(self.values@);
        proof {
            assert(grown =~= keep_valid(all_sums(old(self).cards@))) by {
                if old(self).cards@.len() == 0 {
                    assert(self.values@ =~= seq![0u8]);
                    assert(self.values@[0] == 0u8);
                    assert(vals_set(self.values@).contains(0));
                    assert(all_sums(old(self).cards@) == set![0int]);
                    assert(keep_valid(set![0int]).contains(0));
                }
            }
        }
        let is_ace = matches!(card.rank, Rank::Ace);
        let mut new_values: Vec<u8> = Vec::new();
        let ghost pre = self.values@;
        let mut i: usize = 0;
        while i < self.values.len()
            invariant
                i <= pre.len(),
                self.values@ == pre,
                grown == vals_set(pre),
                grown == keep_valid(all_sums(old(self).cards@)),
                sorted_strict(pre),
                is_ace == (card.rank is Ace),
                card.wf(),
                1 <= crate::card::rank_value(card.rank) <= 11,
                forall|j: int| 0 <= j < pre.len() ==> pre[j] <= 21,
                sorted_strict(new_values@),
                vals_set(new_values@) == step_sums(vals_set(pre.subrange(0, i as int)), card),
            decreases pre.len() - i,
        {
            let v = self.values[i];
            proof {
                assert(pre[i as int] <= 21);
            }
            let ghost before = vals_set(new_values@);
            let ghost part = vals_set(pre.subrange(0, i as int));
            let ghost part_next = vals_set(pre.subrange(0, i as int + 1));
            proof {
                let sub_i = pre.subrange(0, i as int);
                let sub_n = pre.subrange(0, i as int + 1);
                assert(part_next =~= part.insert(pre[i as int] as int)) by {
                    assert forall|x: int| part_next.contains(x)
                        implies part.insert(pre[i as int] as int).contains(x) by {
                        let j = choose|j: int| 0 <= j < sub_n.len() && sub_n[j] as int == x;
                        if j < i {
                            assert(sub_i[j] as int == x);
                        }
                    }
                    assert forall|x: int| part.insert(pre[i as int] as int).contains(x)
                        implies part_next.contains(x) by {
                        if part.contains(x) {
                            let j = choose|j: int| 0 <= j < sub_i.len() && sub_i[j] as int == x;
                            assert(sub_n[j] as int == x);
                        } else {
                            assert(sub_n[i as int] as int == x);
                        }
                    }
                }
            }
            if is_ace {
                insert_sorted(&mut new_values, v + 1);
                insert_sorted(&mut new_values, v + 11);
                proof {
                    let t = pre[i as int] as int;
                    assert(vals_set(new_values@) =~= step_sums(part_next, card)) by {
                        assert forall|x: int| vals_set(new_values@).contains(x)
                            implies step_sums(part_next, card).contains(x) by {
                            if before.contains(x) {
                                let u = choose|u: int|
                                    part.contains(u) && (x == u + 1 || x == u + 11);
                                assert(part_next.contains(u));
                            } else {
                                assert(part_next.contains(t));
                                assert(x == t + 1 || x == t + 11);
                            }
                        }
                        assert forall|x: int| step_sums(part_next, card).contains(x)
                            implies vals_set(new_values@).contains(x) by {
                            let u = choose|u: int|
                                part_next.contains(u) && (x == u + 1 || x == u + 11);
                            if part.contains(u) {
                                assert(step_sums(part, card).contains(x));
                                assert(before.contains(x));
                            }
                        }
                    }
                }
            } else {
                let add_v = card.value;
                insert_sorted(&mut new_values, v + add_v);
                proof {
                    let t = pre[i as int] as int;
                    assert(vals_set(new_values@) =~= step_sums(part_next, card)) by {
                        assert forall|x: int| vals_set(new_values@).contains(x)
                            implies step_sums(part_next, card).contains(x) by {
                            if before.contains(x) {
                                let u = choose|u: int| part.contains(u) && x == u + card.value;
                                assert(part_next.contains(u));
                            } else {
                                assert(part_next.contains(t));
                                assert(x == t + card.value);
                            }
                        }
                        assert forall|x: int| step_sums(part_next, card).contains(x)
                            implies vals_set(new_values@).contains(x) by {
                            let u = choose|u: int| part_next.contains(u) && x == u + card.value;
                            if part.contains(u) {
                                assert(step_sums(part, card).contains(x));
                                assert(before.contains(x));
                            }
                        }
                    }
                }
            }
            i += 1;
        }
        proof {
            assert(pre.subrange(0, pre.len() as int) =~= pre);
        }
        self.values = new_values;
        self.clear_invalid();
        self.cards.push(card);
        proof {
            lemma_step_keep_valid(all_sums(old(self).cards@), card);
            assert(self.cards@.drop_last() =~= old(self).cards@);
            assert(self.cards@.last() == card);
            assert(all_sums(self.cards@) == step_sums(all_sums(old(self).cards@), card));
            assert(vals_set(self.values@) == self.totals());
            assert forall|i2: int| 0 <= i2 < self.cards@.len() implies self.cards@[i2].wf() by {
                if i2 < old(self).cards@.len() {
                    assert(self.cards@[i2] == old(self).cards@[i2]);
                }
            }
        }
    }
}

/// The plain sum of the cards' stored values.
pub open spec fn sum_values(cards: Seq<Card>) -> int
    decreases cards.len(),
{
    if cards.len() == 0 {
        0
    } else {
        sum_values(cards.drop_last()) + cards.last().value
    }
}

/// Without an Ace there is nothing to branch on: the cards can make exactly
/// one sum, the plain sum of their values.
proof fn lemma_non_ace_all_sums(cards: Seq<Card>)
    requires
        forall|i: int| 0 <= i < cards.len() ==> !(#[trigger] cards[i].rank is Ace),
    ensures
        all_sums(cards) == set![sum_values(cards)],
    decreases cards.len(),
{
    if cards.len() == 0 {
        assert(all_sums(cards) =~= set![sum_values(cards)]);
    } else {
        let front = cards.drop_last();
        let c = cards.last();
        assert forall|i: int| 0 <= i < front.len() implies !(#[trigger] front[i].rank is Ace) by {
            assert(front[i] == cards[i]);
        }
        lemma_non_ace_all_sums(front);
        assert(!(c.rank is Ace));
        let s = sum_values(front);
        assert(all_sums(cards) =~= set![sum_values(cards)]) by {
            assert forall|x: int| all_sums(cards).contains(x)
                implies set![sum_values(cards)].contains(x) by {
                let t = choose|t: int| set![s].contains(t) && x == t + c.value;
                assert(t == s);
            }
            assert(set![s].contains(s));
            assert(all_sums(cards).contains(s + c.value));
        }
    }
}

/// A hand of non-Ace cards is worth exactly the plain sum of its cards'
/// values; if that sum has gone over 21, no total is left and the hand is
/// busted.
pub proof fn lemma_non_ace_totals(cards: Seq<Card>)
    requires
        cards.len() > 0,
        forall|i: int| 0 <= i < cards.len() ==> !(#[trigger] cards[i].rank is Ace),
    ensures
        sum_values(cards) <= 21 ==> spec_totals(cards) == set![sum_values(cards)],
        sum_values(cards) > 21 ==> spec_totals(cards) == Set::<int>::empty(),
{
    lemma_non_ace_all_sums(cards);
    let s = sum_values(cards);
    if s <= 21 {
        assert(spec_totals(cards) =~= set![s]) by {
            assert(set![s].contains(s));
            assert(keep_valid(set![s]).contains(s));
        }
    } else {
        assert(spec_totals(cards) =~= Set::<int>::empty());
    }
}

/// For a well-formed hand of non-Ace cards: its best value is the plain sum
/// of the card values while that sum is at most 21, and past 21 the hand
/// has no totals left at all.
pub proof fn lemma_non_ace_max(h: Hand)
    requires
        h.wf(),
        h.cards@.len() > 0,
        forall|i: int| 0 <= i < h.cards@.len() ==> !(#[trigger] h.cards@[i].rank is Ace),
    ensures
        sum_values(h.cards@) <= 21 ==> h.spec_max() == sum_values(h.cards@),
        sum_values(h.cards@) > 21 ==> h.totals().is_empty(),
{
    lemma_non_ace_totals(h.cards@);
    let s = sum_values(h.cards@);
    if s <= 21 {
        assert(set![s].contains(s));
        assert(h.totals().contains(s));
        let i = choose|i: int| 0 <= i < h.values@.len() && h.values@[i] as int == s;
        let n = h.values@.len() as int;
        assert(vals_set(h.values@).contains(h.values@[n - 1] as int));
        assert(h.values@[n - 1] as int == s);
        assert(h.spec_max() == s);
    }
}

/// Inserts a total into an ascending, deduplicated vector, keeping it so;
/// a total already present is left alone.
fn insert_sorted(vals: &mut Vec<u8>, x: u8)
    requires
        sorted_strict(old(vals)@),
    ensures
        sorted_strict(final(vals)@),
        vals_set(final(vals)@) == vals_set(old(vals)@).insert(x as int),
{
    let mut i: usize = 0;
    while i < vals.len() && vals[i] < x
        invariant
            i <= vals@.len(),
            vals@ == old(vals)@,
            forall|j: int| 0 <= j < i ==> vals@[j] < x,
        decreases vals@.len() - i,
    {
        i += 1;
    }
    if i < vals.len() && vals[i] == x {
        proof {
            assert(vals_set(vals@).contains(x as int));
            assert(vals_set(vals@) =~= vals_set(old(vals)@).insert(x as int));
        }
    } else {
        let ghost before = vals@;
        vals.insert(i, x);
        proof {
            assert forall|a: int, b: int| 0 <= a < b < vals@.len()
                implies vals@[a] < vals@[b] by {
                if b < i {
                    assert(vals@[a] == before[a] && vals@[b] == before[b]);
                } else if a > i {
                    assert(vals@[a] == before[a - 1] && vals@[b] == before[b - 1]);
                } else if a == i {
                    assert(vals@[a] == x && vals@[b] == before[b - 1]);
                    assert(before[i as int] > x);
                    if b - 1 > i {
                        assert(before[i as int] < before[b - 1]);
                    }
                } else if b == i {
                    assert(vals@[a] == before[a] && vals@[b] == x);
                } else {
                    assert(vals@[a] == before[a] && vals@[b] == before[b - 1]);
                    assert(before[a] < x);
                    assert(before[i as int] > x);
                    if b - 1 > i {
                        assert(before[i as int] < before[b - 1]);
                    }
                }
            }
            assert(vals_set(vals@) =~= vals_set(before).insert(x as int)) by {
                assert forall|y: int| vals_set(vals@).contains(y)
                    implies vals_set(before).insert(x as int).contains(y) by {
                    let k = choose|k: int| 0 <= k < vals@.len() && vals@[k] as int == y;
                    if k < i {
                        assert(before[k] as int == y);
                    } else if k > i {
                        assert(before[k - 1] as int == y);
                    }
                }
                assert forall|y: int| vals_set(before).insert(x as int).contains(y)
                    implies vals_set(vals@).contains(y) by {
                    if vals_set(before).contains(y) {
                        let k = choose|k: int| 0 <= k < before.len() && before[k] as int == y;
                        if k < i {
                            assert(vals@[k] as int == y);
                        } else {
                            assert(vals@[k + 1] as int == y);
                        }
                    } else {
                        assert(vals@[i as int] as int == y);
                    }
                }
            }
        }
    }
}

/// Bust-filtering commutes with growing the sums by one card: sums that are
/// already over 21 can never come back under it, since every card only adds
/// at least 1 to a sum. So filtering the grown previous totals gives the
/// same set as growing the unfiltered sums and filtering once.
proof fn lemma_step_keep_valid(b: Set<int>, c: Card)
    requires
        c.wf(),
    ensures
        keep_valid(step_sums(keep_valid(b), c)) == keep_valid(step_sums(b, c)),
{
    crate::card::lemma_rank_value_bounds(c.rank);
    assert(keep_valid(step_sums(keep_valid(b), c)) =~= keep_valid(step_sums(b, c))) by {
        assert forall|x: int| keep_valid(step_sums(b, c)).contains(x)
            implies keep_valid(step_sums(keep_valid(b), c)).contains(x) by {
            if c.rank is Ace {
                let t = choose|t: int| b.contains(t) && (x == t + 1 || x == t + 11);
                assert(keep_valid(b).contains(t));
                assert(step_sums(keep_valid(b), c).contains(x));
            } else {
                let t = choose|t: int| b.contains(t) && x == t + c.value;
                assert(c.value >= 1);
                assert(keep_valid(b).contains(t));
                assert(step_sums(keep_valid(b), c).contains(x));
            }
        }
        assert forall|x: int| keep_valid(step_sums(keep_valid(b), c)).contains(x)
            implies keep_valid(step_sums(b, c)).contains(x) by {
            if c.rank is Ace {
                let t = choose|t: int| keep_valid(b).contains(t) && (x == t + 1 || x == t + 11);
                assert(b.contains(t));
                assert(step_sums(b, c).contains(x));
            } else {
                let t = choose|t: int| keep_valid(b).contains(t) && x == t + c.value;
                assert(b.contains(t));
                assert(step_sums(b, c).contains(x));
            }
        }
    }
}

} // verus!

