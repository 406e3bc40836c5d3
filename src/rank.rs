//! Hand categories. A `Rank` can only be built through the validating
//! constructors below, so that every value holds cards that really form
//! its category, in the category's canonical order.

use vstd::prelude::*;
use std::cmp::Ordering;
use crate::card::{Card, Rank as Face};
use crate::error::Error;
use crate::order::{flip, ints, lex, lex_cmp};

verus! {

/// The ten categories, weakest first.
#[derive(Clone, Copy, Debug, PartialEq, Eq, Structural, Hash)]
pub enum Kind {
    High,
    Pair,
    TwoPair,
    Trips,
    Straight,
    Flush,
    House,
    Quads,
    StraightFlush,
    Fives,
}

impl Kind {
    /// Position of the category in the order of strength, `High` first.
    pub open spec fn index(self) -> int {
        match self {
            Kind::High => 0,
            Kind::Pair => 1,
            Kind::TwoPair => 2,
            Kind::Trips => 3,
            Kind::Straight => 4,
            Kind::Flush => 5,
            Kind::House => 6,
            Kind::Quads => 7,
            Kind::StraightFlush => 8,
            Kind::Fives => 9,
        }
    }

    /// How many cards a category of this kind holds.
    pub open spec fn size(self) -> int {
        match self {
            Kind::High => 1,
            Kind::Pair => 2,
            Kind::TwoPair => 4,
            Kind::Trips => 3,
            Kind::Quads => 4,
            _ => 5,
        }
    }
}

/// All cards share one rank.
pub open spec fn same_rank(c: Seq<Card>) -> bool {
    forall|i: int| 0 <= i < c.len() ==> #[trigger] c[i].rank == c[0].rank
}

/// All cards share one suit.
pub open spec fn same_suit(c: Seq<Card>) -> bool {
    forall|i: int| 0 <= i < c.len() ==> #[trigger] c[i].suit == c[0].suit
}

/// The suit of card `i` is at most the suit of card `i + 1`.
pub open spec fn suit_step(c: Seq<Card>, i: int) -> bool {
    c[i].suit.index() <= c[i + 1].suit.index()
}

/// The rank of card `i` is strictly below the rank of card `i + 1`.
pub open spec fn rank_step(c: Seq<Card>, i: int) -> bool {
    c[i].rank.index() < c[i + 1].rank.index()
}

/// Each card's suit is at most the next card's suit.
pub open spec fn suits_ascending(c: Seq<Card>) -> bool {
    forall|i: int| 0 <= i < c.len() - 1 ==> #[trigger] suit_step(c, i)
}

/// Each card's rank is strictly below the next card's rank.
pub open spec fn ranks_ascending(c: Seq<Card>) -> bool {
    forall|i: int| 0 <= i < c.len() - 1 ==> #[trigger] rank_step(c, i)
}

/// Position of the `i`-th card of a would-be straight: its rank's
/// position, except that an ace opening the straight counts below the two.
pub open spec fn straight_pos(c: Seq<Card>, i: int) -> int {
    if i == 0 && c[0].rank == Face::Ace {
        -1
    } else {
        c[i].rank.index()
    }
}

/// The cards run up one rank at a time, the ace counting low when it
/// comes first (the wheel) and high when it comes last (Broadway).
pub open spec fn consecutive(c: Seq<Card>) -> bool {
    forall|i: int| 0 < i < c.len() ==> #[trigger] straight_pos(c, i) == straight_pos(c, 0) + i
}

/// The rank and suit rules of a category, whatever the order of the cards.
/// A two pair is its lower pair followed by its higher pair; a full house
/// is its three of a kind followed by its pair.
pub open spec fn shape(kind: Kind, c: Seq<Card>) -> bool {
    match kind {
        Kind::High => true,
        Kind::TwoPair => same_rank(c.subrange(0, 2)) && same_rank(c.subrange(2, 4)) && c[0].rank
            != c[2].rank,
        Kind::Straight => consecutive(c),
        Kind::Flush => same_suit(c),
        Kind::House => same_rank(c.subrange(0, 3)) && same_rank(c.subrange(3, 5)) && c[0].rank
            != c[3].rank,
        Kind::StraightFlush => consecutive(c) && same_suit(c),
        _ => same_rank(c),
    }
}

/// The order rules of a category: cards of one rank ascend by suit, a
/// flush ascends strictly by rank, a two pair has its lower pair first.
pub open spec fn order(kind: Kind, c: Seq<Card>) -> bool {
    match kind {
        Kind::TwoPair => suits_ascending(c.subrange(0, 2)) && suits_ascending(c.subrange(2, 4))
            && c[0].rank.index() < c[2].rank.index(),
        Kind::Flush => ranks_ascending(c),
        Kind::House => suits_ascending(c.subrange(0, 3)) && suits_ascending(c.subrange(3, 5)),
        Kind::Pair | Kind::Trips | Kind::Quads | Kind::Fives => suits_ascending(c),
        _ => true,
    }
}

/// The cards form a category of this kind, in its canonical order.
pub open spec fn valid(kind: Kind, c: Seq<Card>) -> bool {
    c.len() == kind.size() && shape(kind, c) && order(kind, c)
}

/// What a constructor returns for the cards `c`: the category when they
/// are valid, else the error naming the first rule they break, with the
/// cards echoed back.
pub open spec fn built(r: Result<Rank, Error>, kind: Kind, c: Seq<Card>) -> bool {
    match r {
        Ok(v) => valid(kind, c) && v@ == (kind, c),
        Err(Error::InvalidShape(e)) => !shape(kind, c) && e@ == c,
        Err(Error::UnsortedInput(e)) => shape(kind, c) && !order(kind, c) && e@ == c,
        Err(_) => false,
    }
}

/// What a constructor from a slice returns: too few cards are refused,
/// else the category is built from the last `kind.size()` cards.
pub open spec fn built_from_last(r: Result<Rank, Error>, kind: Kind, c: Seq<Card>) -> bool {
    if c.len() < kind.size() {
        r == Err::<Rank, Error>(
            Error::InsufficientCards { expected: kind.size() as usize, actual: c.len() as usize },
        )
    } else {
        built(r, kind, c.subrange(c.len() - kind.size(), c.len() as int))
    }
}

/// The highest rank of a straight, as a position (five for the wheel).
pub open spec fn straight_high(c: Seq<Card>) -> int {
    straight_pos(c, 0) + 4
}

/// What decides between two categories: the kind first, then, for equal
/// kinds, the ranks that matter, most significant first.
pub open spec fn strength_of(kind: Kind, c: Seq<Card>) -> Seq<int> {
    match kind {
        Kind::TwoPair => seq![kind.index(), c[2].rank.index(), c[0].rank.index()],
        Kind::Straight | Kind::StraightFlush => seq![kind.index(), straight_high(c)],
        Kind::Flush => seq![kind.index(), c[4].rank.index()],
        Kind::House => seq![kind.index(), c[0].rank.index(), c[3].rank.index()],
        _ => seq![kind.index(), c[0].rank.index()],
    }
}

#[derive(Clone, Copy, Debug, PartialEq, Eq, Hash)]
enum Inner {
    High([Card; 1]),
    Pair([Card; 2]),
    TwoPair([Card; 2], [Card; 2]),
    Trips([Card; 3]),
    Straight([Card; 5]),
    Flush([Card; 5]),
    House([Card; 3], [Card; 2]),
    Quads([Card; 4]),
    StraightFlush([Card; 5]),
    Fives([Card; 5]),
}

/// A hand category together with the cards that make it up. Its fields
/// are private: the constructors are the only way to a value, and they
/// check the category's rules.
#[derive(Clone, Copy, Debug, PartialEq, Eq, Hash)]
pub struct Rank(Inner);

impl View for Rank {
    type V = (Kind, Seq<Card>);

    /// The kind and the cards, in canonical order.
    closed spec fn view(&self) -> (Kind, Seq<Card>) {
        match self.0 {
            Inner::High(c) => (Kind::High, c@),
            Inner::Pair(c) => (Kind::Pair, c@),
            Inner::TwoPair(a, b) => (Kind::TwoPair, a@ + b@),
            Inner::Trips(c) => (Kind::Trips, c@),
            Inner::Straight(c) => (Kind::Straight, c@),
            Inner::Flush(c) => (Kind::Flush, c@),
            Inner::House(a, b) => (Kind::House, a@ + b@),
            Inner::Quads(c) => (Kind::Quads, c@),
            Inner::StraightFlush(c) => (Kind::StraightFlush, c@),
            Inner::Fives(c) => (Kind::Fives, c@),
        }
    }
}

fn check_same_rank(c: &[Card]) -> (r: bool)
    ensures
        r == same_rank(c@),
{
    let mut i: usize = 0;
    while i < c.len()
        invariant
            0 <= i <= c@.len(),
            forall|j: int| 0 <= j < i ==> #[trigger] c@[j].rank == c@[0].rank,
        decreases c@.len() - i,
    {
        if c[i].rank != c[0].rank {
            return false;
        }
        i = i + 1;
    }
    true
}

fn check_same_suit(c: &[Card]) -> (r: bool)
    ensures
        r == same_suit(c@),
{
    let mut i: usize = 0;
    while i < c.len()
        invariant
            0 <= i <= c@.len(),
            forall|j: int| 0 <= j < i ==> #[trigger] c@[j].suit == c@[0].suit,
        decreases c@.len() - i,
    {
        if c[i].suit != c[0].suit {
            return false;
        }
        i = i + 1;
    }
    true
}

fn check_suits_ascending(c: &[Card]) -> (r: bool)
    ensures
        r == suits_ascending(c@),
{
    if c.len() < 2 {
        return true;
    }
    let mut i: usize = 1;
    while i < c.len()
        invariant
            1 <= i <= c@.len(),
            forall|j: int| 0 <= j < i - 1 ==> #[trigger] suit_step(c@, j),
        decreases c@.len() - i,
    {
        if c[i - 1].suit.to_index() > c[i].suit.to_index() {
            assert(!suit_step(c@, i - 1));
            return false;
        }
        i = i + 1;
    }
    true
}

fn check_ranks_ascending(c: &[Card]) -> (r: bool)
    ensures
        r == ranks_ascending(c@),
{
    if c.len() < 2 {
        return true;
    }
    let mut i: usize = 1;
    while i < c.len()
        invariant
            1 <= i <= c@.len(),
            forall|j: int| 0 <= j < i - 1 ==> #[trigger] rank_step(c@, j),
        decreases c@.len() - i,
    {
        if c[i - 1].rank.to_index() >= c[i].rank.to_index() {
            assert(!rank_step(c@, i - 1));
            return false;
        }
        i = i + 1;
    }
    true
}

/// Position of the `i`-th card of a would-be straight, shifted up by one
/// so that the low ace is zero.
fn straight_pos_exec(c: &[Card], i: usize) -> (r: usize)
    requires
        i < c@.len(),
    ensures
        r as int == straight_pos(c@, i as int) + 1,
{
    if i == 0 && c[0].rank == Face::Ace {
        0
    } else {
        c[i].rank.to_index() + 1
    }
}

fn check_consecutive(c: &[Card]) -> (r: bool)
    requires
        c@.len() > 0,
    ensures
        r == consecutive(c@),
{
    let first = straight_pos_exec(c, 0);
    let mut i: usize = 1;
    while i < c.len()
        invariant
            1 <= i <= c@.len(),
            first as int == straight_pos(c@, 0) + 1,
            first <= 13,
            forall|j: int| 0 < j < i ==> #[trigger] straight_pos(c@, j) == straight_pos(c@, 0) + j,
        decreases c@.len() - i,
    {
        let p = straight_pos_exec(c, i);
        if p < first || p - first != i {
            return false;
        }
        i = i + 1;
    }
    true
}

impl Rank {
    #[verifier::type_invariant]
    spec fn inv(self) -> bool {
        valid(self@.0, self@.1)
    }

    /// The kind of the category; the cards it holds form that kind.
    pub fn kind(&self) -> (k: Kind)
        ensures
            k == self@.0,
            valid(self@.0, self@.1),
    {
        proof {
            use_type_invariant(self);
        }
        match self.0 {
            Inner::High(_) => Kind::High,
            Inner::Pair(_) => Kind::Pair,
            Inner::TwoPair(_, _) => Kind::TwoPair,
            Inner::Trips(_) => Kind::Trips,
            Inner::Straight(_) => Kind::Straight,
            Inner::Flush(_) => Kind::Flush,
            Inner::House(_, _) => Kind::House,
            Inner::Quads(_) => Kind::Quads,
            Inner::StraightFlush(_) => Kind::StraightFlush,
            Inner::Fives(_) => Kind::Fives,
        }
    }
}

#[allow(non_snake_case)]
impl Rank {
    /// A high card. Any card is one.
    pub fn High(cards: [Card; 1]) -> (r: Result<Rank, Error>)
        ensures
            built(r, Kind::High, cards@),
            r is Ok,
    {
        Ok(Rank(Inner::High(cards)))
    }

    /// A pair: two cards of one rank, ascending by suit.
    pub fn Pair(cards: [Card; 2]) -> (r: Result<Rank, Error>)
        ensures
            built(r, Kind::Pair, cards@),
    {
        let c = cards.as_slice();
        if !check_same_rank(c) {
            Err(Error::InvalidShape(vstd::slice::slice_to_vec(c)))
        } else if !check_suits_ascending(c) {
            Err(Error::UnsortedInput(vstd::slice::slice_to_vec(c)))
        } else {
            Ok(Rank(Inner::Pair(cards)))
        }
    }

    /// Two pairs of different ranks, the lower pair first.
    pub fn TwoPair(pair0: [Card; 2], pair1: [Card; 2]) -> (r: Result<Rank, Error>)
        ensures
            built(r, Kind::TwoPair, pair0@ + pair1@),
    {
        let ghost c = pair0@ + pair1@;
        proof {
            assert(c.subrange(0, 2) =~= pair0@);
            assert(c.subrange(2, 4) =~= pair1@);
        }
        let a = pair0.as_slice();
        let b = pair1.as_slice();
        let mut all = vstd::slice::slice_to_vec(a);
        all.extend_from_slice(b);
        proof {
            assert(all@ =~= c);
        }
        if !check_same_rank(a) || !check_same_rank(b) || pair0[0].rank == pair1[0].rank {
            Err(Error::InvalidShape(all))
        } else if !check_suits_ascending(a) || !check_suits_ascending(b)
            || pair0[0].rank.to_index() > pair1[0].rank.to_index() {
            Err(Error::UnsortedInput(all))
        } else {
            Ok(Rank(Inner::TwoPair(pair0, pair1)))
        }
    }

    /// Three cards of one rank, ascending by suit.
    pub fn Trips(cards: [Card; 3]) -> (r: Result<Rank, Error>)
        ensures
            built(r, Kind::Trips, cards@),
    {
        let c = cards.as_slice();
        if !check_same_rank(c) {
            Err(Error::InvalidShape(vstd::slice::slice_to_vec(c)))
        } else if !check_suits_ascending(c) {
            Err(Error::UnsortedInput(vstd::slice::slice_to_vec(c)))
        } else {
            Ok(Rank(Inner::Trips(cards)))
        }
    }

    /// Five cards running up one rank at a time: an ace comes first in the
    /// wheel (ace to five) and last in Broadway (ten to ace).
    pub fn Straight(cards: [Card; 5]) -> (r: Result<Rank, Error>)
        ensures
            built(r, Kind::Straight, cards@),
    {
        let c = cards.as_slice();
        if !check_consecutive(c) {
            Err(Error::InvalidShape(vstd::slice::slice_to_vec(c)))
        } else {
            Ok(Rank(Inner::Straight(cards)))
        }
    }

    /// Five cards of one suit, strictly ascending by rank.
    pub fn Flush(cards: [Card; 5]) -> (r: Result<Rank, Error>)
        ensures
            built(r, Kind::Flush, cards@),
    {
        let c = cards.as_slice();
        if !check_same_suit(c) {
            Err(Error::InvalidShape(vstd::slice::slice_to_vec(c)))
        } else if !check_ranks_ascending(c) {
            Err(Error::UnsortedInput(vstd::slice::slice_to_vec(c)))
        } else {
            Ok(Rank(Inner::Flush(cards)))
        }
    }

    /// A full house: three of a kind and a pair of another rank.
    pub fn House(trips: [Card; 3], pair: [Card; 2]) -> (r: Result<Rank, Error>)
        ensures
            built(r, Kind::House, trips@ + pair@),
    {
        let ghost c = trips@ + pair@;
        proof {
            assert(c.subrange(0, 3) =~= trips@);
            assert(c.subrange(3, 5) =~= pair@);
        }
        let a = trips.as_slice();
        let b = pair.as_slice();
        let mut all = vstd::slice::slice_to_vec(a);
        all.extend_from_slice(b);
        proof {
            assert(all@ =~= c);
        }
        if !check_same_rank(a) || !check_same_rank(b) || trips[0].rank == pair[0].rank {
            Err(Error::InvalidShape(all))
        } else if !check_suits_ascending(a) || !check_suits_ascending(b) {
            Err(Error::UnsortedInput(all))
        } else {
            Ok(Rank(Inner::House(trips, pair)))
        }
    }

    /// Four cards of one rank, ascending by suit.
    pub fn Quads(cards: [Card; 4]) -> (r: Result<Rank, Error>)
        ensures
            built(r, Kind::Quads, cards@),
    {
        let c = cards.as_slice();
        if !check_same_rank(c) {
            Err(Error::InvalidShape(vstd::slice::slice_to_vec(c)))
        } else if !check_suits_ascending(c) {
            Err(Error::UnsortedInput(vstd::slice::slice_to_vec(c)))
        } else {
            Ok(Rank(Inner::Quads(cards)))
        }
    }

    /// A straight whose cards all share one suit.
    pub fn StraightFlush(cards: [Card; 5]) -> (r: Result<Rank, Error>)
        ensures
            built(r, Kind::StraightFlush, cards@),
    {
        let c = cards.as_slice();
        if !check_consecutive(c) || !check_same_suit(c) {
            Err(Error::InvalidShape(vstd::slice::slice_to_vec(c)))
        } else {
            Ok(Rank(Inner::StraightFlush(cards)))
        }
    }

    /// Five cards of one rank, ascending by suit; only a game with more
    /// than one deck deals them.
    pub fn Fives(cards: [Card; 5]) -> (r: Result<Rank, Error>)
        ensures
            built(r, Kind::Fives, cards@),
    {
        let c = cards.as_slice();
        if !check_same_rank(c) {
            Err(Error::InvalidShape(vstd::slice::slice_to_vec(c)))
        } else if !check_suits_ascending(c) {
            Err(Error::UnsortedInput(vstd::slice::slice_to_vec(c)))
        } else {
            Ok(Rank(Inner::Fives(cards)))
        }
    }
}

impl Rank {
    /// What decides between this category and another.
    pub open spec fn strength(self) -> Seq<int> {
        strength_of(self@.0, self@.1)
    }

    /// The order of two categories: by kind, then by the ranks that matter.
    pub open spec fn cmp_spec(self, other: Rank) -> Ordering {
        lex(self.strength(), other.strength())
    }

    /// The cards of the category, in canonical order.
    pub fn to_vec(self) -> (v: Vec<Card>)
        ensures
            v@ == self@.1,
    {
        match self.0 {
            Inner::High(c) => vstd::slice::slice_to_vec(c.as_slice()),
            Inner::Pair(c) => vstd::slice::slice_to_vec(c.as_slice()),
            Inner::TwoPair(a, b) => {
                let mut v = vstd::slice::slice_to_vec(a.as_slice());
                v.extend_from_slice(b.as_slice());
                v
            },
            Inner::Trips(c) => vstd::slice::slice_to_vec(c.as_slice()),
            Inner::Straight(c) => vstd::slice::slice_to_vec(c.as_slice()),
            Inner::Flush(c) => vstd::slice::slice_to_vec(c.as_slice()),
            Inner::House(a, b) => {
                let mut v = vstd::slice::slice_to_vec(a.as_slice());
                v.extend_from_slice(b.as_slice());
                v
            },
            Inner::Quads(c) => vstd::slice::slice_to_vec(c.as_slice()),
            Inner::StraightFlush(c) => vstd::slice::slice_to_vec(c.as_slice()),
            Inner::Fives(c) => vstd::slice::slice_to_vec(c.as_slice()),
        }
    }

    fn strength_vec(&self) -> (v: Vec<usize>)
        ensures
            ints(v@) =~= self.strength(),
    {
        let mut v: Vec<usize> = Vec::new();
        match self.0 {
            Inner::High(c) => {
                v.push(0);
                v.push(c[0].rank.to_index());
            },
            Inner::Pair(c) => {
                v.push(1);
                v.push(c[0].rank.to_index());
            },
            Inner::TwoPair(a, b) => {
                v.push(2);
                v.push(b[0].rank.to_index());
                v.push(a[0].rank.to_index());
            },
            Inner::Trips(c) => {
                v.push(3);
                v.push(c[0].rank.to_index());
            },
            Inner::Straight(c) => {
                v.push(4);
                v.push(straight_pos_exec(c.as_slice(), 0) + 3);
            },
            Inner::Flush(c) => {
                v.push(5);
                v.push(c[4].rank.to_index());
            },
            Inner::House(a, b) => {
                v.push(6);
                v.push(a[0].rank.to_index());
                v.push(b[0].rank.to_index());
            },
            Inner::Quads(c) => {
                v.push(7);
                v.push(c[0].rank.to_index());
            },
            Inner::StraightFlush(c) => {
                v.push(8);
                v.push(straight_pos_exec(c.as_slice(), 0) + 3);
            },
            Inner::Fives(c) => {
                v.push(9);
                v.push(c[0].rank.to_index());
            },
        }
        v
    }

    /// Orders two categories: first by kind (high card weakest, five of a
    /// kind strongest), then within a kind by the ranks that matter, most
    /// significant first. A high card, pair, three, four or five of a kind
    /// compares its rank; a two pair its higher then its lower pair; a
    /// straight its highest rank, the wheel being the lowest; a flush its
    /// highest rank (lower cards are left to the kickers of the hands); a
    /// full house its three of a kind, then
    /// its pair.
    pub fn compare(&self, other: &Rank) -> (o: Ordering)
        ensures
            o == self.cmp_spec(*other),
    {
        let a = self.strength_vec();
        let b = other.strength_vec();
        lex_cmp(&a, &b)
    }

    /// Every category compares equal to itself.
    pub proof fn lemma_compare_reflexive(a: Rank)
        ensures
            a.cmp_spec(a) == Ordering::Equal,
    {
        crate::order::lemma_lex_reflexive(a.strength());
    }

    /// Swapping two categories flips their order.
    pub proof fn lemma_compare_antisymmetric(a: Rank, b: Rank)
        ensures
            b.cmp_spec(a) == flip(a.cmp_spec(b)),
    {
        crate::order::lemma_lex_flip(a.strength(), b.strength());
    }

    /// The order of categories is transitive, for each outcome.
    pub proof fn lemma_compare_transitive(a: Rank, b: Rank, c: Rank, o: Ordering)
        requires
            a.cmp_spec(b) == o,
            b.cmp_spec(c) == o,
        ensures
            a.cmp_spec(c) == o,
    {
        crate::order::lemma_lex_transitive(a.strength(), b.strength(), c.strength(), o);
    }

    /// A category of a stronger kind beats one of a weaker kind.
    pub proof fn lemma_compare_by_kind(a: Rank, b: Rank)
        requires
            a@.0.index() < b@.0.index(),
        ensures
            a.cmp_spec(b) == Ordering::Less,
    {
    }
}

/// The name of a category: a straight flush topped by the ace is a royal
/// flush.
pub open spec fn name_of(kind: Kind, c: Seq<Card>) -> &'static str {
    match kind {
        Kind::High => "High card",
        Kind::Pair => "Pair",
        Kind::TwoPair => "Two pairs",
        Kind::Trips => "Three of a kind",
        Kind::Straight => "Straight",
        Kind::Flush => "Flush",
        Kind::House => "Full house",
        Kind::Quads => "Four of a kind",
        Kind::StraightFlush => if straight_high(c) == 12 {
            "Royal flush"
        } else {
            "Straight flush"
        },
        Kind::Fives => "Five of a kind",
    }
}

impl Rank {
    /// The name of the category, as a player says it.
    pub fn name(&self) -> (s: &'static str)
        ensures
            s == name_of(self@.0, self@.1),
    {
        match self.0 {
            Inner::High(_) => "High card",
            Inner::Pair(_) => "Pair",
            Inner::TwoPair(_, _) => "Two pairs",
            Inner::Trips(_) => "Three of a kind",
            Inner::Straight(_) => "Straight",
            Inner::Flush(_) => "Flush",
            Inner::House(_, _) => "Full house",
            Inner::Quads(_) => "Four of a kind",
            Inner::StraightFlush(c) => {
                if straight_pos_exec(c.as_slice(), 0) == 9 {
                    "Royal flush"
                } else {
                    "Straight flush"
                }
            },
            Inner::Fives(_) => "Five of a kind",
        }
    }
}

/// Building a category from cards that form it succeeds, and the category
/// holds exactly those cards in the order given, which `to_vec` (and the
/// `drop_` function of the kind) hands back.
pub proof fn lemma_round_trip(r: Result<Rank, Error>, kind: Kind, c: Seq<Card>)
    requires
        built(r, kind, c),
        valid(kind, c),
    ensures
        r is Ok,
        r->Ok_0@ == (kind, c),
{
}

#[allow(non_snake_case)]
impl Rank {
    /// The cards of a high card.
    pub fn drop_High(self) -> (r: [Card; 1])
        requires
            self@.0 == Kind::High,
        ensures
            r@ == self@.1,
    {
        match self.0 {
            Inner::High(c) => c,
            _ => vstd::pervasive::unreached(),
        }
    }

    /// The cards of a pair.
    pub fn drop_Pair(self) -> (r: [Card; 2])
        requires
            self@.0 == Kind::Pair,
        ensures
            r@ == self@.1,
    {
        match self.0 {
            Inner::Pair(c) => c,
            _ => vstd::pervasive::unreached(),
        }
    }

    /// The lower and the higher pair of a two pair.
    pub fn drop_TwoPair(self) -> (r: ([Card; 2], [Card; 2]))
        requires
            self@.0 == Kind::TwoPair,
        ensures
            r.0@ + r.1@ == self@.1,
    {
        match self.0 {
            Inner::TwoPair(a, b) => (a, b),
            _ => vstd::pervasive::unreached(),
        }
    }

    /// The cards of a three of a kind.
    pub fn drop_Trips(self) -> (r: [Card; 3])
        requires
            self@.0 == Kind::Trips,
        ensures
            r@ == self@.1,
    {
        match self.0 {
            Inner::Trips(c) => c,
            _ => vstd::pervasive::unreached(),
        }
    }

    /// The cards of a straight.
    pub fn drop_Straight(self) -> (r: [Card; 5])
        requires
            self@.0 == Kind::Straight,
        ensures
            r@ == self@.1,
    {
        match self.0 {
            Inner::Straight(c) => c,
            _ => vstd::pervasive::unreached(),
        }
    }

    /// The cards of a flush.
    pub fn drop_Flush(self) -> (r: [Card; 5])
        requires
            self@.0 == Kind::Flush,
        ensures
            r@ == self@.1,
    {
        match self.0 {
            Inner::Flush(c) => c,
            _ => vstd::pervasive::unreached(),
        }
    }

    /// The three of a kind and the pair of a full house.
    pub fn drop_House(self) -> (r: ([Card; 3], [Card; 2]))
        requires
            self@.0 == Kind::House,
        ensures
            r.0@ + r.1@ == self@.1,
    {
        match self.0 {
            Inner::House(a, b) => (a, b),
            _ => vstd::pervasive::unreached(),
        }
    }

    /// The cards of a four of a kind.
    pub fn drop_Quads(self) -> (r: [Card; 4])
        requires
            self@.0 == Kind::Quads,
        ensures
            r@ == self@.1,
    {
        match self.0 {
            Inner::Quads(c) => c,
            _ => vstd::pervasive::unreached(),
        }
    }

    /// The cards of a straight flush.
    pub fn drop_StraightFlush(self) -> (r: [Card; 5])
        requires
            self@.0 == Kind::StraightFlush,
        ensures
            r@ == self@.1,
    {
        match self.0 {
            Inner::StraightFlush(c) => c,
            _ => vstd::pervasive::unreached(),
        }
    }

    /// The cards of a five of a kind.
    pub fn drop_Fives(self) -> (r: [Card; 5])
        requires
            self@.0 == Kind::Fives,
        ensures
            r@ == self@.1,
    {
        match self.0 {
            Inner::Fives(c) => c,
            _ => vstd::pervasive::unreached(),
        }
    }
}

impl Rank {
    /// A high card of `card`.
    pub fn high_from(card: &Card) -> (r: Rank)
        ensures
            r@ == (Kind::High, seq![*card]),
    {
        let c = [*card];
        proof {
            assert(c@ =~= seq![*card]);
        }
        Rank(Inner::High(c))
    }

    /// A pair from the last 2 of `cards`.
    pub fn pair_try_from(cards: &[Card]) -> (r: Result<Rank, Error>)
        ensures
            built_from_last(r, Kind::Pair, cards@),
    {
        let n = cards.len();
        if n < 2 {
            return Err(Error::InsufficientCards { expected: 2, actual: n });
        }
        let c = [cards[n - 2], cards[n - 1]];
        proof {
            assert(c@ =~= cards@.subrange(n - 2, n as int));
        }
        Rank::Pair(c)
    }

    /// A three of a kind from the last 3 of `cards`.
    pub fn trips_try_from(cards: &[Card]) -> (r: Result<Rank, Error>)
        ensures
            built_from_last(r, Kind::Trips, cards@),
    {
        let n = cards.len();
        if n < 3 {
            return Err(Error::InsufficientCards { expected: 3, actual: n });
        }
        let c = [cards[n - 3], cards[n - 2], cards[n - 1]];
        proof {
            assert(c@ =~= cards@.subrange(n - 3, n as int));
        }
        Rank::Trips(c)
    }

    /// A straight from the last 5 of `cards`.
    pub fn straight_try_from(cards: &[Card]) -> (r: Result<Rank, Error>)
        ensures
            built_from_last(r, Kind::Straight, cards@),
    {
        let n = cards.len();
        if n < 5 {
            return Err(Error::InsufficientCards { expected: 5, actual: n });
        }
        let c = [cards[n - 5], cards[n - 4], cards[n - 3], cards[n - 2], cards[n - 1]];
        proof {
            assert(c@ =~= cards@.subrange(n - 5, n as int));
        }
        Rank::Straight(c)
    }

    /// A flush from the last 5 of `cards`.
    pub fn flush_try_from(cards: &[Card]) -> (r: Result<Rank, Error>)
        ensures
            built_from_last(r, Kind::Flush, cards@),
    {
        let n = cards.len();
        if n < 5 {
            return Err(Error::InsufficientCards { expected: 5, actual: n });
        }
        let c = [cards[n - 5], cards[n - 4], cards[n - 3], cards[n - 2], cards[n - 1]];
        proof {
            assert(c@ =~= cards@.subrange(n - 5, n as int));
        }
        Rank::Flush(c)
    }

    /// A four of a kind from the last 4 of `cards`.
    pub fn quads_try_from(cards: &[Card]) -> (r: Result<Rank, Error>)
        ensures
            built_from_last(r, Kind::Quads, cards@),
    {
        let n = cards.len();
        if n < 4 {
            return Err(Error::InsufficientCards { expected: 4, actual: n });
        }
        let c = [cards[n - 4], cards[n - 3], cards[n - 2], cards[n - 1]];
        proof {
            assert(c@ =~= cards@.subrange(n - 4, n as int));
        }
        Rank::Quads(c)
    }

    /// A straight flush from the last 5 of `cards`.
    pub fn straight_flush_try_from(cards: &[Card]) -> (r: Result<Rank, Error>)
        ensures
            built_from_last(r, Kind::StraightFlush, cards@),
    {
        let n = cards.len();
        if n < 5 {
            return Err(Error::InsufficientCards { expected: 5, actual: n });
        }
        let c = [cards[n - 5], cards[n - 4], cards[n - 3], cards[n - 2], cards[n - 1]];
        proof {
            assert(c@ =~= cards@.subrange(n - 5, n as int));
        }
        Rank::StraightFlush(c)
    }

    /// A five of a kind from the last 5 of `cards`.
    pub fn fives_try_from(cards: &[Card]) -> (r: Result<Rank, Error>)
        ensures
            built_from_last(r, Kind::Fives, cards@),
    {
        let n = cards.len();
        if n < 5 {
            return Err(Error::InsufficientCards { expected: 5, actual: n });
        }
        let c = [cards[n - 5], cards[n - 4], cards[n - 3], cards[n - 2], cards[n - 1]];
        proof {
            assert(c@ =~= cards@.subrange(n - 5, n as int));
        }
        Rank::Fives(c)
    }

    /// A two pair from the last two cards of `pair0` (the lower pair) and
    /// the last two of `pair1` (the higher pair).
    pub fn two_pair_try_from(pair0: &[Card], pair1: &[Card]) -> (r: Result<Rank, Error>)
        ensures
            pair0@.len() < 2 ==> r == Err::<Rank, Error>(
                Error::InsufficientCards { expected: 2, actual: pair0@.len() as usize },
            ),
            pair0@.len() >= 2 && pair1@.len() < 2 ==> r == Err::<Rank, Error>(
                Error::InsufficientCards { expected: 2, actual: pair1@.len() as usize },
            ),
            pair0@.len() >= 2 && pair1@.len() >= 2 ==> built(
                r,
                Kind::TwoPair,
                pair0@.subrange(pair0@.len() - 2, pair0@.len() as int) + pair1@.subrange(
                    pair1@.len() - 2,
                    pair1@.len() as int,
                ),
            ),
    {
        let n = pair0.len();
        let m = pair1.len();
        if n < 2 {
            return Err(Error::InsufficientCards { expected: 2, actual: n });
        }
        if m < 2 {
            return Err(Error::InsufficientCards { expected: 2, actual: m });
        }
        let a = [pair0[n - 2], pair0[n - 1]];
        let b = [pair1[m - 2], pair1[m - 1]];
        proof {
            assert(a@ =~= pair0@.subrange(n - 2, n as int));
            assert(b@ =~= pair1@.subrange(m - 2, m as int));
        }
        Rank::TwoPair(a, b)
    }

    /// A full house from the last three cards of `trips` and the last two
    /// of `pair`.
    pub fn house_try_from(trips: &[Card], pair: &[Card]) -> (r: Result<Rank, Error>)
        ensures
            trips@.len() < 3 ==> r == Err::<Rank, Error>(
                Error::InsufficientCards { expected: 3, actual: trips@.len() as usize },
            ),
            trips@.len() >= 3 && pair@.len() < 2 ==> r == Err::<Rank, Error>(
                Error::InsufficientCards { expected: 2, actual: pair@.len() as usize },
            ),
            trips@.len() >= 3 && pair@.len() >= 2 ==> built(
                r,
                Kind::House,
                trips@.subrange(trips@.len() - 3, trips@.len() as int) + pair@.subrange(
                    pair@.len() - 2,
                    pair@.len() as int,
                ),
            ),
    {
        let n = trips.len();
        let m = pair.len();
        if n < 3 {
            return Err(Error::InsufficientCards { expected: 3, actual: n });
        }
        if m < 2 {
            return Err(Error::InsufficientCards { expected: 2, actual: m });
        }
        let a = [trips[n - 3], trips[n - 2], trips[n - 1]];
        let b = [pair[m - 2], pair[m - 1]];
        proof {
            assert(a@ =~= trips@.subrange(n - 3, n as int));
            assert(b@ =~= pair@.subrange(m - 2, m as int));
        }
        Rank::House(a, b)
    }
}

} // verus!
