//! A player's hand: all the cards the player may use, the best category
//! they form and the kickers left over, and the order between hands.

use vstd::prelude::*;
use std::cmp::Ordering;
use crate::card::Card;
use crate::error::Error;
use crate::group::{leftover, leftover_cards};
use crate::order::{ints, lex, lex_cmp};
use crate::rank::{Kind, Rank};
use crate::select::{pair_best, sf_best};

verus! {

/// The best category that `s` holds, with its cards: the stronger of the
/// best of the pair family and the best of the straight and flush family.
/// The two families never share a kind, so the order between them is the
/// order of kinds: five of a kind, straight flush, four of a kind, full
/// house, flush, straight, three of a kind, two pair, pair, high card.
pub open spec fn best(s: Seq<Card>) -> (Kind, Seq<Card>) {
    match sf_best(s) {
        Some(x) => if x.0.index() > pair_best(s).0.index() {
            x
        } else {
            pair_best(s)
        },
        None => pair_best(s),
    }
}

/// The kickers of `s`: the cards its best category leaves over, highest
/// first.
pub open spec fn kickers_of(s: Seq<Card>) -> Seq<Card> {
    leftover(s, best(s).1)
}

/// The ranks of a sequence of cards, as positions.
pub open spec fn rank_positions(k: Seq<Card>) -> Seq<int> {
    k.map_values(|c: Card| c.rank.index())
}

/// The order of two kicker lists: their ranks pairwise, highest first, as
/// far as both go; the first unequal rank decides, and when all those are
/// equal the hands are tied.
pub open spec fn kicker_order(a: Seq<Card>, b: Seq<Card>) -> Ordering {
    let m = if a.len() < b.len() {
        a.len()
    } else {
        b.len()
    };
    lex(rank_positions(a).take(m as int), rank_positions(b).take(m as int))
}

/// Classifies a card collection: its best category and its kickers, the
/// cards the category leaves over, highest first. Fails only on no cards.
pub fn classify(cards: &[Card]) -> (r: Result<(Rank, Vec<Card>), Error>)
    ensures
        cards@.len() == 0 ==> r == Err::<(Rank, Vec<Card>), Error>(Error::EmptyInput),
        cards@.len() > 0 ==> r is Ok && r->Ok_0.0@ == best(cards@) && r->Ok_0.1@ == kickers_of(
            cards@,
        ),
{
    let pair = match Hand::pair_rank(cards) {
        Ok(p) => p,
        Err(e) => {
            return Err(e);
        },
    };
    let rank = match Hand::straight_flush_rank(cards) {
        Some(x) => {
            proof {
                if x@.0.index() > pair@.0.index() {
                    Rank::lemma_compare_by_kind(pair, x);
                    Rank::lemma_compare_antisymmetric(pair, x);
                } else {
                    Rank::lemma_compare_by_kind(x, pair);
                }
            }
            match x.compare(&pair) {
                Ordering::Greater => x,
                _ => pair,
            }
        },
        None => pair,
    };
    let used = rank.to_vec();
    let kickers = leftover_cards(cards, used.as_slice());
    Ok((rank, kickers))
}

/// The cards available to a player: private cards and the community cards
/// last handed over. It keeps the best category they form and the cards
/// that category leaves over, highest first, which break ties between equal
/// categories.
#[derive(Debug)]
pub struct Hand {
    cards: Vec<Card>,
    community: Vec<Card>,
    rank: Rank,
    kickers: Vec<Card>,
}

fn concat(a: &[Card], b: &[Card]) -> (v: Vec<Card>)
    ensures
        v@ == a@ + b@,
{
    let mut v = vstd::slice::slice_to_vec(a);
    v.extend_from_slice(b);
    v
}

impl Hand {
    /// The player's private cards.
    pub closed spec fn held(self) -> Seq<Card> {
        self.cards@
    }

    /// The community cards last handed over.
    pub closed spec fn shared(self) -> Seq<Card> {
        self.community@
    }

    /// The best category of all the cards available.
    pub closed spec fn category(self) -> Rank {
        self.rank
    }

    /// The cards that the category leaves over, highest first.
    pub closed spec fn leftover(self) -> Seq<Card> {
        self.kickers@
    }

    /// All the cards available to the player.
    pub open spec fn available(self) -> Seq<Card> {
        self.held() + self.shared()
    }

    #[verifier::type_invariant]
    spec fn inv(self) -> bool {
        &&& self.cards@.len() > 0
        &&& self.rank@ == best(self.cards@ + self.community@)
        &&& self.kickers@ == kickers_of(self.cards@ + self.community@)
    }

    /// A hand of the given private cards, classified at once. Fails only
    /// on no cards.
    pub fn new(cards: Vec<Card>) -> (r: Result<Hand, Error>)
        ensures
            cards@.len() == 0 ==> r == Err::<Hand, Error>(Error::EmptyInput),
            cards@.len() > 0 ==> r is Ok && r->Ok_0.held() == cards@ && r->Ok_0.shared() == Seq::<
                Card,
            >::empty() && r->Ok_0.category()@ == best(cards@) && r->Ok_0.leftover() == kickers_of(
                cards@,
            ),
    {
        match classify(cards.as_slice()) {
            Ok((rank, kickers)) => {
                let community: Vec<Card> = Vec::new();
                proof {
                    assert(cards@ + community@ =~= cards@);
                }
                Ok(Hand { cards, community, rank, kickers })
            },
            Err(e) => Err(e),
        }
    }

    /// Classifies the private `cards` together with the `community` cards:
    /// the best category and the kickers, highest first. Fails only when
    /// both are empty.
    pub fn ranking(cards: &[Card], community: &[Card]) -> (r: Result<(Rank, Vec<Card>), Error>)
        ensures
            cards@.len() + community@.len() == 0 ==> r == Err::<(Rank, Vec<Card>), Error>(
                Error::EmptyInput,
            ),
            cards@.len() + community@.len() > 0 ==> r is Ok && r->Ok_0.0@ == best(
                cards@ + community@,
            ) && r->Ok_0.1@ == kickers_of(cards@ + community@),
    {
        let all = concat(cards, community);
        classify(all.as_slice())
    }

    /// Classifies the hand anew with the given community cards in place of
    /// those handed over before. The private cards are kept.
    pub fn update(&mut self, community: &[Card]) -> (r: Result<(), Error>)
        ensures
            r is Ok,
            final(self).held() == old(self).held(),
            final(self).shared() == community@,
            final(self).category()@ == best(old(self).held() + community@),
            final(self).leftover() == kickers_of(old(self).held() + community@),
    {
        proof {
            use_type_invariant(&*self);
        }
        let all = concat(self.cards.as_slice(), community);
        match classify(all.as_slice()) {
            Ok((rank, kickers)) => {
                let cards = vstd::slice::slice_to_vec(self.cards.as_slice());
                let community = vstd::slice::slice_to_vec(community);
                *self = Hand { cards, community, rank, kickers };
                Ok(())
            },
            Err(e) => Err(e),
        }
    }

    /// Gives up the hand, handing back its private cards.
    pub fn discard(self) -> (v: Vec<Card>)
        ensures
            v@ == self.held(),
    {
        self.cards
    }

    /// How many private cards the hand holds.
    pub fn len(&self) -> (n: usize)
        ensures
            n == self.held().len(),
    {
        self.cards.len()
    }

    /// Whether the hand holds no private cards; never the case.
    pub fn is_empty(&self) -> (b: bool)
        ensures
            b == (self.held().len() == 0),
            !b,
    {
        proof {
            use_type_invariant(self);
        }
        self.cards.len() == 0
    }

    /// The best category of the available cards.
    pub fn rank(&self) -> (r: Rank)
        ensures
            r == self.category(),
            r@ == best(self.available()),
    {
        proof {
            use_type_invariant(self);
        }
        self.rank
    }

    /// The cards that the category leaves over, highest first.
    pub fn kickers(&self) -> (v: Vec<Card>)
        ensures
            v@ == self.leftover(),
            v@ == kickers_of(self.available()),
    {
        proof {
            use_type_invariant(self);
        }
        vstd::slice::slice_to_vec(self.kickers.as_slice())
    }

    /// The order of two hands: by category, then, for equal categories, by
    /// the ranks of the kickers, highest first, as far as both hands have
    /// kickers; the first unequal kicker decides, else the hands are tied.
    pub open spec fn cmp_spec(self, other: Hand) -> Ordering {
        let o = self.category().cmp_spec(other.category());
        if o != Ordering::Equal {
            o
        } else {
            kicker_order(self.leftover(), other.leftover())
        }
    }

    /// Orders two hands: by category, then by kickers.
    pub fn compare(&self, other: &Hand) -> (o: Ordering)
        ensures
            o == self.cmp_spec(*other),
    {
        match self.rank.compare(&other.rank) {
            Ordering::Equal => {
                let mut a = rank_list(&self.kickers);
                let mut b = rank_list(&other.kickers);
                let m = if a.len() < b.len() {
                    a.len()
                } else {
                    b.len()
                };
                a.truncate(m);
                b.truncate(m);
                proof {
                    assert(ints(a@) =~= rank_positions(self.kickers@).take(m as int));
                    assert(ints(b@) =~= rank_positions(other.kickers@).take(m as int));
                }
                lex_cmp(&a, &b)
            },
            o => o,
        }
    }
}

fn rank_list(k: &Vec<Card>) -> (v: Vec<usize>)
    ensures
        ints(v@) == rank_positions(k@),
{
    let mut v: Vec<usize> = Vec::new();
    let mut i: usize = 0;
    while i < k.len()
        invariant
            i <= k@.len(),
            ints(v@) =~= rank_positions(k@.take(i as int)),
        decreases k@.len() - i,
    {
        let ghost before = v@;
        v.push(k[i].rank.to_index());
        proof {
            assert(ints(v@) =~= ints(before).push(k@[i as int].rank.index()));
            assert(k@.take(i + 1) =~= k@.take(i as int).push(k@[i as int]));
            assert(rank_positions(k@.take(i + 1)) =~= rank_positions(k@.take(i as int)).push(
                k@[i as int].rank.index(),
            ));
        }
        i = i + 1;
    }
    proof {
        assert(k@.take(k@.len() as int) =~= k@);
    }
    v
}

} // verus!
