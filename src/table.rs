//! A table: a deck and the players seated at it.

use vstd::prelude::*;
use crate::card::Card;
use crate::deck::{full_deck, Deck};
use crate::player::Player;

verus! {

/// A deck and the players seated round it, in dealing order.
#[derive(Debug)]
pub struct Table {
    deck: Deck,
    players: Vec<Player>,
}

/// The `k`-th card dealt to the `i`-th player when each of them is dealt
/// `size` cards in turn from the top of `deck`.
pub open spec fn dealt_card(deck: Seq<Card>, size: int, i: int, k: int) -> Card {
    deck[deck.len() - 1 - size * i - k]
}

impl Table {
    /// The cards of the deck, the top card last.
    pub closed spec fn deck(self) -> Seq<Card> {
        self.deck@
    }

    /// The players, in dealing order.
    pub closed spec fn players(self) -> Seq<Player> {
        self.players@
    }

    /// A table with the given deck and players.
    pub fn new(deck: Deck, players: Vec<Player>) -> (t: Table)
        ensures
            t.deck() == deck@,
            t.players() == players@,
    {
        Table { deck, players }
    }

    /// Deals `size` cards from the top of the deck to each player in turn,
    /// which takes them as its hand. The deck must hold enough cards and no
    /// player may have a hand yet.
    pub fn deal(&mut self, size: usize)
        requires
            size * old(self).players().len() <= old(self).deck().len(),
            forall|i: int|
                0 <= i < old(self).players().len() ==> (#[trigger] old(self).players()[i]).hand() is None,
        ensures
            final(self).players().len() == old(self).players().len(),
            final(self).deck() == old(self).deck().subrange(
                0,
                old(self).deck().len() - size * old(self).players().len(),
            ),
            forall|i: int|
                0 <= i < final(self).players().len() ==> {
                    let p = #[trigger] final(self).players()[i];
                    &&& p.chips() == old(self).players()[i].chips()
                    &&& p.bet_so_far() == old(self).players()[i].bet_so_far()
                    &&& size == 0 ==> p.hand() is None
                    &&& size > 0 ==> p.hand() is Some && p.hand()->Some_0.held().len() == size
                        && forall|k: int|
                        0 <= k < size ==> #[trigger] p.hand()->Some_0.held()[k] == dealt_card(
                            old(self).deck(),
                            size as int,
                            i,
                            k,
                        )
                },
    {
        let ghost start = self.deck@;
        let ghost seated = self.players@;
        let n = self.players.len();
        let mut dealt: Vec<Player> = Vec::new();
        let mut i: usize = 0;
        while i < n
            invariant
                i <= n,
                n == seated.len(),
                size * n <= start.len(),
                self.players@ == seated.subrange(i as int, n as int),
                self.deck@ == start.subrange(0, start.len() - size * i),
                dealt@.len() == i,
                forall|q: int| 0 <= q < n ==> (#[trigger] seated[q]).hand() is None,
                forall|q: int|
                    0 <= q < i ==> {
                        let p = #[trigger] dealt@[q];
                        &&& p.chips() == seated[q].chips()
                        &&& p.bet_so_far() == seated[q].bet_so_far()
                        &&& size == 0 ==> p.hand() is None
                        &&& size > 0 ==> p.hand() is Some && p.hand()->Some_0.held().len() == size
                            && forall|k: int|
                            0 <= k < size ==> #[trigger] p.hand()->Some_0.held()[k] == dealt_card(
                                start,
                                size as int,
                                q,
                                k,
                            )
                    },
            decreases n - i,
        {
            proof {
                assert(size * i + size <= size * n) by (nonlinear_arith)
                    requires
                        i < n,
                ;
                assert(size * (i + 1) == size * i + size) by (nonlinear_arith);
            }
            let ghost before = self.deck@;
            let cards = match self.deck.deal(size) {
                Some(c) => c,
                None => vstd::pervasive::unreached(),
            };
            let mut p = self.players.remove(0);
            proof {
                assert(p == seated[i as int]);
            }
            p.take(cards);
            proof {
                assert forall|k: int| 0 <= k < size implies #[trigger] cards@[k] == dealt_card(
                    start,
                    size as int,
                    i as int,
                    k,
                ) by {
                    assert(cards@[k] == before[before.len() - 1 - k]);
                }
                assert(self.players@ =~= seated.subrange(i + 1, n as int));
                assert(self.deck@ =~= start.subrange(0, start.len() - size * (i + 1)));
            }
            dealt.push(p);
            i = i + 1;
        }
        self.players = dealt;
        proof {
            assert(self.players@ =~= dealt@);
        }
    }
}

impl Default for Table {
    /// A table with a shuffled full deck and no players.
    fn default() -> (t: Table)
        ensures
            t.deck().to_multiset() == full_deck().to_multiset(),
            t.players().len() == 0,
    {
        Table { deck: Deck::new_shuffled(), players: Vec::new() }
    }
}

} // verus!
