//! Random, valid cards for each category, for examples and tests.

use vstd::prelude::*;
use crate::card::{Card, Rank as Face, Suit};
use crate::deck::random_below;
use crate::group::card;
use crate::rank::{consecutive, same_suit, straight_pos, valid, Kind};

verus! {

fn make(r: usize, j: usize) -> (c: Card)
    requires
        r < 13,
        j < 4,
    ensures
        c == card(r as int, j as int),
        c.rank.index() == r,
        c.suit.index() == j,
{
    Card::new(Face::from_index(r), Suit::from_index(j))
}

/// Two different suit positions, ascending.
fn two_suits() -> (r: (usize, usize))
    ensures
        r.0 < r.1 < 4,
{
    let a = random_below(4);
    let b = (a + 1 + random_below(3)) % 4;
    if a < b {
        (a, b)
    } else {
        (b, a)
    }
}

/// Two different rank positions, ascending.
fn two_ranks() -> (r: (usize, usize))
    ensures
        r.0 < r.1 < 13,
{
    let a = random_below(13);
    let b = (a + 1 + random_below(12)) % 13;
    if a < b {
        (a, b)
    } else {
        (b, a)
    }
}

fn pair_of(r: usize) -> (c: [Card; 2])
    requires
        r < 13,
    ensures
        valid(Kind::Pair, c@),
        c[0].rank.index() == r,
        c[0].suit != c[1].suit,
{
    let (a, b) = two_suits();
    let c = [make(r, a), make(r, b)];
    proof {
        assert(crate::rank::suit_step(c@, 0));
    }
    c
}

fn trips_of(r: usize) -> (c: [Card; 3])
    requires
        r < 13,
    ensures
        valid(Kind::Trips, c@),
        c[0].rank.index() == r,
{
    let skip = random_below(4);
    let a: usize = if skip == 0 { 1 } else { 0 };
    let b: usize = if skip <= 1 { 2 } else { 1 };
    let d: usize = if skip <= 2 { 3 } else { 2 };
    let c = [make(r, a), make(r, b), make(r, d)];
    proof {
        assert(crate::rank::suit_step(c@, 0));
        assert(crate::rank::suit_step(c@, 1));
    }
    c
}

/// A random card.
pub fn high_card() -> Card {
    Card::random()
}

/// A random pair of two different suits, ascending by suit.
pub fn pair_cards() -> (c: [Card; 2])
    ensures
        valid(Kind::Pair, c@),
        c[0].suit != c[1].suit,
{
    pair_of(random_below(13))
}

/// A random two pair, the lower pair first.
pub fn two_pairs_cards() -> (c: ([Card; 2], [Card; 2]))
    ensures
        valid(Kind::TwoPair, c.0@ + c.1@),
{
    let (lo, hi) = two_ranks();
    let a = pair_of(lo);
    let b = pair_of(hi);
    proof {
        let s = a@ + b@;
        assert(s.subrange(0, 2) =~= a@);
        assert(s.subrange(2, 4) =~= b@);
    }
    (a, b)
}

/// A random three of a kind, of three different suits.
pub fn trips_cards() -> (c: [Card; 3])
    ensures
        valid(Kind::Trips, c@),
{
    trips_of(random_below(13))
}

/// A random straight whose first two cards differ in suit, so that it is
/// no straight flush.
pub fn straight_cards() -> (c: [Card; 5])
    ensures
        valid(Kind::Straight, c@),
        !same_suit(c@),
{
    let h = 3 + random_below(10);
    let (a, b) = two_suits();
    let lo: usize = if h == 3 { 12 } else { h - 4 };
    let c = [
        make(lo, a),
        make(h - 3, b),
        make(h - 2, random_below(4)),
        make(h - 1, random_below(4)),
        make(h, random_below(4)),
    ];
    proof {
        assert(straight_pos(c@, 1) == straight_pos(c@, 0) + 1);
        assert(straight_pos(c@, 2) == straight_pos(c@, 0) + 2);
        assert(straight_pos(c@, 3) == straight_pos(c@, 0) + 3);
        assert(straight_pos(c@, 4) == straight_pos(c@, 0) + 4);
        assert(c@[1].suit != c@[0].suit);
    }
    c
}

/// A random flush, ascending by rank, that is no straight.
pub fn flush_cards() -> (c: [Card; 5])
    ensures
        valid(Kind::Flush, c@),
        !consecutive(c@),
{
    // Five distinct ranks, ascending, each subset as likely as any other.
    let mut ranks: Vec<usize> = Vec::new();
    let mut r: usize = 0;
    while r < 13
        invariant
            r <= 13,
            ranks@.len() <= 5,
            5 - ranks@.len() <= 13 - r,
            forall|i: int| 0 <= i < ranks@.len() ==> #[trigger] ranks@[i] < r,
            forall|i: int| 0 <= i < ranks@.len() - 1 ==> #[trigger] ranks@[i] < ranks@[i + 1],
        decreases 13 - r,
    {
        let needed = 5 - ranks.len();
        if needed > 0 && random_below(13 - r) < needed {
            ranks.push(r);
        }
        r = r + 1;
    }
    let (r0, r1, r2, r3, r4) = (ranks[0], ranks[1], ranks[2], ranks[3], ranks[4]);
    proof {
        assert(ranks@[0] < ranks@[1]);
        assert(ranks@[1] < ranks@[2]);
        assert(ranks@[2] < ranks@[3]);
        assert(ranks@[3] < ranks@[4]);
    }
    // Break a run of five: move its top up, or for the ace-topped runs,
    // move a lower card down or up.
    let (r0, r3, r4) = if r4 - r0 == 4 && r4 < 12 {
        (r0, r3, r4 + 1)
    } else if r4 - r0 == 4 {
        (r0 - 1, r3, r4)
    } else if r4 == 12 && r3 == 3 {
        (r0, 4, r4)
    } else {
        (r0, r3, r4)
    };
    let j = random_below(4);
    let c = [make(r0, j), make(r1, j), make(r2, j), make(r3, j), make(r4, j)];
    proof {
        assert(crate::rank::rank_step(c@, 0));
        assert(crate::rank::rank_step(c@, 1));
        assert(crate::rank::rank_step(c@, 2));
        assert(crate::rank::rank_step(c@, 3));
        if consecutive(c@) {
            assert(straight_pos(c@, 4) == straight_pos(c@, 0) + 4);
            assert(straight_pos(c@, 3) == straight_pos(c@, 0) + 3);
        }
    }
    c
}

/// A random full house, the three of a kind and the pair of different
/// ranks.
pub fn house_cards() -> (c: ([Card; 3], [Card; 2]))
    ensures
        valid(Kind::House, c.0@ + c.1@),
{
    let (x, y) = two_ranks();
    let (t, p) = if random_below(2) == 0 {
        (x, y)
    } else {
        (y, x)
    };
    let a = trips_of(t);
    let b = pair_of(p);
    proof {
        let s = a@ + b@;
        assert(s.subrange(0, 3) =~= a@);
        assert(s.subrange(3, 5) =~= b@);
    }
    (a, b)
}

/// A random four of a kind.
pub fn quad_cards() -> (c: [Card; 4])
    ensures
        valid(Kind::Quads, c@),
{
    let r = random_below(13);
    let c = [make(r, 0), make(r, 1), make(r, 2), make(r, 3)];
    proof {
        assert(crate::rank::suit_step(c@, 0));
        assert(crate::rank::suit_step(c@, 1));
        assert(crate::rank::suit_step(c@, 2));
    }
    c
}

/// A random five of a kind, ascending by suit; some suit comes twice, as
/// with more than one deck.
pub fn five_cards() -> (c: [Card; 5])
    ensures
        valid(Kind::Fives, c@),
{
    let r = random_below(13);
    let s0 = random_below(4);
    let s1 = s0 + random_below(4 - s0);
    let s2 = s1 + random_below(4 - s1);
    let s3 = s2 + random_below(4 - s2);
    let s4 = s3 + random_below(4 - s3);
    let c = [make(r, s0), make(r, s1), make(r, s2), make(r, s3), make(r, s4)];
    proof {
        assert(crate::rank::suit_step(c@, 0));
        assert(crate::rank::suit_step(c@, 1));
        assert(crate::rank::suit_step(c@, 2));
        assert(crate::rank::suit_step(c@, 3));
    }
    c
}

} // verus!
