//! Playing cards: suits, ranks and the card value type.

use vstd::prelude::*;

verus! {

/// The four suits. Their order only matters for grouping and for the
/// canonical order of cards inside a category.
#[derive(Clone, Copy, Debug, PartialEq, Eq, Structural, PartialOrd, Ord, Hash)]
pub enum Suit {
    Clubs,
    Diamonds,
    Hearts,
    Spades,
}

/// The face of a card, from the lowest to the highest. The ace is high
/// everywhere but in the wheel straight (ace, two, three, four, five),
/// where the straight logic alone lets it count low.
#[derive(Clone, Copy, Debug, PartialEq, Eq, Structural, PartialOrd, Ord, Hash)]
pub enum Rank {
    Two,
    Three,
    Four,
    Five,
    Six,
    Seven,
    Eight,
    Nine,
    Ten,
    Jack,
    Queen,
    King,
    Ace,
}

/// A playing card: a rank and a suit.
#[derive(Clone, Copy, Debug, PartialEq, Eq, Structural, PartialOrd, Ord, Hash)]
pub struct Card {
    pub rank: Rank,
    pub suit: Suit,
}

/// Number of suits.
pub const SUITS: usize = 4;

/// Number of ranks.
pub const RANKS: usize = 13;

impl Suit {
    /// Position of the suit, clubs first.
    pub open spec fn index(self) -> int {
        match self {
            Suit::Clubs => 0,
            Suit::Diamonds => 1,
            Suit::Hearts => 2,
            Suit::Spades => 3,
        }
    }

    /// The suit at a position; positions outside `0..4` give spades.
    pub open spec fn at(i: int) -> Suit {
        if i == 0 {
            Suit::Clubs
        } else if i == 1 {
            Suit::Diamonds
        } else if i == 2 {
            Suit::Hearts
        } else {
            Suit::Spades
        }
    }

    /// The suit at position `i`.
    pub fn from_index(i: usize) -> (r: Suit)
        requires
            i < SUITS,
        ensures
            r == Suit::at(i as int),
            r.index() == i,
    {
        if i == 0 {
            Suit::Clubs
        } else if i == 1 {
            Suit::Diamonds
        } else if i == 2 {
            Suit::Hearts
        } else {
            Suit::Spades
        }
    }

    /// Position of the suit, clubs first.
    pub fn to_index(self) -> (r: usize)
        ensures
            r as int == self.index(),
            r < SUITS,
    {
        match self {
            Suit::Clubs => 0,
            Suit::Diamonds => 1,
            Suit::Hearts => 2,
            Suit::Spades => 3,
        }
    }

    /// Number of suits.
    pub fn count() -> (r: usize)
        ensures
            r == SUITS,
    {
        SUITS
    }

    /// Moves to the following suit, spades wrapping round to clubs, and
    /// returns the new suit.
    pub fn next(&mut self) -> (r: Suit)
        ensures
            final(self).index() == (old(self).index() + 1) % 4,
            r == *final(self),
    {
        self.step_by(1)
    }

    /// Moves to the preceding suit, clubs wrapping round to spades, and
    /// returns the new suit.
    pub fn last(&mut self) -> (r: Suit)
        ensures
            final(self).index() == (old(self).index() - 1) % 4,
            r == *final(self),
    {
        self.step_by(-1)
    }

    /// Moves `n` suits forward (backward when `n` is negative) round the
    /// circle of suits and returns the new suit.
    pub fn step_by(&mut self, n: isize) -> (r: Suit)
        ensures
            final(self).index() == (old(self).index() + n) % 4,
            r == *final(self),
    {
        let i = circular_step(self.to_index(), n, SUITS);
        *self = Suit::from_index(i);
        *self
    }
}

impl Rank {
    /// Position of the rank, two first and ace last.
    pub open spec fn index(self) -> int {
        match self {
            Rank::Two => 0,
            Rank::Three => 1,
            Rank::Four => 2,
            Rank::Five => 3,
            Rank::Six => 4,
            Rank::Seven => 5,
            Rank::Eight => 6,
            Rank::Nine => 7,
            Rank::Ten => 8,
            Rank::Jack => 9,
            Rank::Queen => 10,
            Rank::King => 11,
            Rank::Ace => 12,
        }
    }

    /// The rank at a position; positions outside `0..13` give the ace.
    pub open spec fn at(i: int) -> Rank {
        if i == 0 {
            Rank::Two
        } else if i == 1 {
            Rank::Three
        } else if i == 2 {
            Rank::Four
        } else if i == 3 {
            Rank::Five
        } else if i == 4 {
            Rank::Six
        } else if i == 5 {
            Rank::Seven
        } else if i == 6 {
            Rank::Eight
        } else if i == 7 {
            Rank::Nine
        } else if i == 8 {
            Rank::Ten
        } else if i == 9 {
            Rank::Jack
        } else if i == 10 {
            Rank::Queen
        } else if i == 11 {
            Rank::King
        } else {
            Rank::Ace
        }
    }

    /// The rank at position `i`.
    pub fn from_index(i: usize) -> (r: Rank)
        requires
            i < RANKS,
        ensures
            r == Rank::at(i as int),
            r.index() == i,
    {
        if i == 0 {
            Rank::Two
        } else if i == 1 {
            Rank::Three
        } else if i == 2 {
            Rank::Four
        } else if i == 3 {
            Rank::Five
        } else if i == 4 {
            Rank::Six
        } else if i == 5 {
            Rank::Seven
        } else if i == 6 {
            Rank::Eight
        } else if i == 7 {
            Rank::Nine
        } else if i == 8 {
            Rank::Ten
        } else if i == 9 {
            Rank::Jack
        } else if i == 10 {
            Rank::Queen
        } else if i == 11 {
            Rank::King
        } else {
            Rank::Ace
        }
    }

    /// Position of the rank, two first and ace last.
    pub fn to_index(self) -> (r: usize)
        ensures
            r as int == self.index(),
            r < RANKS,
    {
        match self {
            Rank::Two => 0,
            Rank::Three => 1,
            Rank::Four => 2,
            Rank::Five => 3,
            Rank::Six => 4,
            Rank::Seven => 5,
            Rank::Eight => 6,
            Rank::Nine => 7,
            Rank::Ten => 8,
            Rank::Jack => 9,
            Rank::Queen => 10,
            Rank::King => 11,
            Rank::Ace => 12,
        }
    }

    /// Number of ranks.
    pub fn count() -> (r: usize)
        ensures
            r == RANKS,
    {
        RANKS
    }

    /// Moves to the following rank, the ace wrapping round to the two, and
    /// returns the new rank.
    pub fn next(&mut self) -> (r: Rank)
        ensures
            final(self).index() == (old(self).index() + 1) % 13,
            r == *final(self),
    {
        self.step_by(1)
    }

    /// Moves to the preceding rank, the two wrapping round to the ace, and
    /// returns the new rank.
    pub fn last(&mut self) -> (r: Rank)
        ensures
            final(self).index() == (old(self).index() - 1) % 13,
            r == *final(self),
    {
        self.step_by(-1)
    }

    /// Moves `n` ranks forward (backward when `n` is negative) round the
    /// circle of ranks and returns the new rank.
    pub fn step_by(&mut self, n: isize) -> (r: Rank)
        ensures
            final(self).index() == (old(self).index() + n) % 13,
            r == *final(self),
    {
        let i = circular_step(self.to_index(), n, RANKS);
        *self = Rank::from_index(i);
        *self
    }
}

/// `(i + n) mod m`, for a position `i` on a circle of `m` places.
fn circular_step(i: usize, n: isize, m: usize) -> (r: usize)
    requires
        i < m,
        0 < m <= 13,
    ensures
        r < m,
        r as int == (i + n) % (m as int),
{
    let k: usize = if n >= 0 {
        (n as usize) % m
    } else {
        let a: usize = (-(n + 1)) as usize;
        m - 1 - a % m
    };
    let r = (i + k) % m;
    proof {
        let mm = m as int;
        if n >= 0 {
            vstd::arithmetic::div_mod::lemma_add_mod_noop(i as int, n as int, mm);
            vstd::arithmetic::div_mod::lemma_mod_twice(n as int, mm);
            vstd::arithmetic::div_mod::lemma_small_mod(i as nat, mm as nat);
        } else {
            let a = -(n + 1);
            let q = a / mm;
            vstd::arithmetic::div_mod::lemma_fundamental_div_mod(a, mm);
            let x = i + k;
            assert(i + n == mm * (-(1 + q)) + x) by (nonlinear_arith)
                requires
                    a == mm * q + a % mm,
                    k == mm - 1 - a % mm,
                    x == i + k,
                    a == -(n + 1),
            ;
            vstd::arithmetic::div_mod::lemma_mod_multiples_vanish(-(1 + q), x, mm);
        }
    }
    r
}

/// A value on a circle of values, which can step round it.
pub trait Circular<T> {
    /// The value `t` places on from this one, round the circle.
    fn step(self, t: T) -> Self;
}

impl Circular<isize> for Suit {
    fn step(self, t: isize) -> Suit {
        let mut s = self;
        s.step_by(t)
    }
}

impl Circular<isize> for Rank {
    fn step(self, t: isize) -> Rank {
        let mut r = self;
        r.step_by(t)
    }
}

impl Card {
    /// Constructs a card.
    pub fn new(rank: Rank, suit: Suit) -> (r: Card)
        ensures
            r == (Card { rank, suit }),
    {
        Card { rank, suit }
    }

    /// Position of the card in the order by rank first, then suit.
    pub open spec fn key(self) -> int {
        self.rank.index() * 4 + self.suit.index()
    }

    /// The card at a position of the order by rank first, then suit.
    pub open spec fn at(k: int) -> Card {
        Card { rank: Rank::at(k / 4), suit: Suit::at(k % 4) }
    }

    /// The card's byte: the rank's position in the high four bits, the
    /// suit's position in the low four.
    pub open spec fn byte(self) -> u8 {
        (self.rank.index() * 16 + self.suit.index()) as u8
    }
}

impl From<Card> for u8 {
    /// The card's byte: the rank's position in the high four bits, the
    /// suit's position in the low four.
    fn from(card: Card) -> (r: u8) {
        let hi = card.rank.to_index() as u8;
        let lo = card.suit.to_index() as u8;
        hi * 16 + lo
    }
}

impl vstd::std_specs::convert::FromSpecImpl<Card> for u8 {
    open spec fn obeys_from_spec() -> bool {
        true
    }

    open spec fn from_spec(card: Card) -> u8 {
        card.byte()
    }
}

} // verus!
