//! A deck of cards: drawing and dealing from the top, and shuffling.

use vstd::prelude::*;
use rand::seq::SliceRandom;
use rand::Rng;
use crate::card::{Card, Rank as Face, Suit, RANKS, SUITS};
use crate::group::card;

verus! {

/// Relies on rand's `SliceRandom::shuffle` with `thread_rng`: it only swaps
/// elements, so the cards stay the same, each as often as before, in an
/// order left to chance.
#[verifier::external_body]
fn shuffle_cards(cards: &mut Vec<Card>)
    ensures
        final(cards)@.to_multiset() == old(cards)@.to_multiset(),
{
    cards.shuffle(&mut rand::thread_rng());
}

/// Relies on rand's `Rng::gen_range` with `thread_rng`: a number of the
/// half-open range `0..n`, which must not be empty.
#[verifier::external_body]
pub(crate) fn random_below(n: usize) -> (r: usize)
    requires
        n > 0,
    ensures
        r < n,
{
    rand::thread_rng().gen_range(0..n)
}

/// The 52 cards of a full deck, ordered by rank, then suit.
pub open spec fn full_deck() -> Seq<Card> {
    Seq::new(52, |k: int| card(k / 4, k % 4))
}

/// A pile of cards; the top of the deck is the end of the pile.
#[derive(Debug)]
pub struct Deck {
    inner_deck: Vec<Card>,
}

impl View for Deck {
    type V = Seq<Card>;

    /// The cards, the top card last.
    closed spec fn view(&self) -> Seq<Card> {
        self.inner_deck@
    }
}

impl Deck {
    /// Draws the top card, or `None` when the deck is empty.
    pub fn draw(&mut self) -> (r: Option<Card>)
        ensures
            old(self)@.len() == 0 ==> r is None && final(self)@ == old(self)@,
            old(self)@.len() > 0 ==> r == Some(old(self)@.last()) && final(self)@
                == old(self)@.drop_last(),
    {
        self.inner_deck.pop()
    }

    /// Deals `size` cards from the top, the top card first; `None`, and the
    /// deck untouched, when fewer than `size` are left.
    pub fn deal(&mut self, size: usize) -> (r: Option<Vec<Card>>)
        ensures
            old(self)@.len() < size ==> r is None && final(self)@ == old(self)@,
            old(self)@.len() >= size ==> r is Some && final(self)@ == old(self)@.subrange(
                0,
                old(self)@.len() - size,
            ) && r->Some_0@.len() == size && forall|i: int|
                0 <= i < size ==> #[trigger] r->Some_0@[i] == old(self)@[old(self)@.len() - 1 - i],
    {
        if self.inner_deck.len() < size {
            return None;
        }
        let ghost start = self.inner_deck@;
        let mut cards: Vec<Card> = Vec::new();
        let mut i: usize = 0;
        while i < size
            invariant
                i <= size <= start.len(),
                self.inner_deck@ == start.subrange(0, start.len() - i),
                cards@.len() == i,
                forall|k: int| 0 <= k < i ==> #[trigger] cards@[k] == start[start.len() - 1 - k],
            decreases size - i,
        {
            let c = self.inner_deck.pop().unwrap();
            cards.push(c);
            i = i + 1;
            proof {
                assert(self.inner_deck@ =~= start.subrange(0, start.len() - i));
            }
        }
        Some(cards)
    }

    /// Removes the top card, if any.
    pub fn discard(&mut self)
        ensures
            old(self)@.len() == 0 ==> final(self)@ == old(self)@,
            old(self)@.len() > 0 ==> final(self)@ == old(self)@.drop_last(),
    {
        self.inner_deck.pop();
    }

    /// Shuffles the deck: the same cards, in an order left to chance.
    pub fn shuffle(&mut self)
        ensures
            final(self)@.to_multiset() == old(self)@.to_multiset(),
    {
        shuffle_cards(&mut self.inner_deck);
    }

    /// How many cards are left.
    pub fn len(&self) -> (n: usize)
        ensures
            n == self@.len(),
    {
        self.inner_deck.len()
    }

    /// A full deck of the 52 distinct cards, sorted by rank, then suit.
    pub fn new_sorted() -> (d: Deck)
        ensures
            d@ == full_deck(),
    {
        let mut deck: Vec<Card> = Vec::new();
        let mut r: usize = 0;
        while r < RANKS
            invariant
                r <= 13,
                deck@.len() == 4 * r,
                forall|k: int| 0 <= k < 4 * r ==> #[trigger] deck@[k] == card(k / 4, k % 4),
            decreases 13 - r,
        {
            let mut j: usize = 0;
            while j < SUITS
                invariant
                    j <= 4,
                    r < 13,
                    deck@.len() == 4 * r + j,
                    forall|k: int| 0 <= k < 4 * r + j ==> #[trigger] deck@[k] == card(k / 4, k % 4),
                decreases 4 - j,
            {
                deck.push(Card::new(Face::from_index(r), Suit::from_index(j)));
                proof {
                    let k = 4 * r + j;
                    assert(k / 4 == r as int && k % 4 == j as int);
                }
                j = j + 1;
            }
            r = r + 1;
        }
        proof {
            assert(deck@ =~= full_deck());
        }
        Deck { inner_deck: deck }
    }

    /// A full deck of the 52 distinct cards, shuffled.
    pub fn new_shuffled() -> (d: Deck)
        ensures
            d@.to_multiset() == full_deck().to_multiset(),
    {
        let mut deck = Deck::new_sorted();
        deck.shuffle();
        deck
    }

    /// A deck of the given cards, the last of them on top.
    pub fn new_custom(cards: &[Card]) -> (d: Deck)
        ensures
            d@ == cards@,
    {
        Deck { inner_deck: vstd::slice::slice_to_vec(cards) }
    }

    /// Whether no card is left.
    pub fn is_empty(&self) -> (b: bool)
        ensures
            b == (self@.len() == 0),
    {
        self.inner_deck.len() == 0
    }
}

impl Default for Deck {
    /// A shuffled full deck.
    fn default() -> (d: Deck)
        ensures
            d@.to_multiset() == full_deck().to_multiset(),
    {
        Deck::new_shuffled()
    }
}

impl Card {
    /// A card drawn at random from the 52.
    pub fn random() -> Card {
        let k = random_below(52);
        Card::new(Face::from_index(k / 4), Suit::from_index(k % 4))
    }
}

} // verus!
