//! The grouping engine: a card collection is tallied card by card, and
//! every grouping (by rank, by suit, into runs of ranks) is read off the
//! tally. The tally depends on the multiset of cards alone, never on the
//! order in which they were handed over.

use vstd::prelude::*;
use crate::card::{Card, Rank as Face, Suit, RANKS, SUITS};
use crate::hand::Hand;

verus! {

/// How many times card `c` occurs in `s`.
pub open spec fn cnt(s: Seq<Card>, c: Card) -> nat
    decreases s.len(),
{
    if s.len() == 0 {
        0
    } else {
        cnt(s.drop_last(), c) + if s.last() == c {
            1nat
        } else {
            0nat
        }
    }
}

/// The card of rank position `r` and suit position `j`.
pub open spec fn card(r: int, j: int) -> Card {
    Card { rank: Face::at(r), suit: Suit::at(j) }
}

/// `n` copies of card `c`.
pub open spec fn copies(c: Card, n: nat) -> Seq<Card> {
    Seq::new(n, |i: int| c)
}

/// The cards of `s` of rank position `r` whose suit comes before suit
/// position `j`, ascending by suit.
pub open spec fn of_rank_upto(s: Seq<Card>, r: int, j: int) -> Seq<Card>
    decreases j,
{
    if j <= 0 {
        seq![]
    } else {
        of_rank_upto(s, r, j - 1) + copies(card(r, j - 1), cnt(s, card(r, j - 1)))
    }
}

/// The cards of `s` of rank position `r`, ascending by suit.
pub open spec fn of_rank(s: Seq<Card>, r: int) -> Seq<Card> {
    of_rank_upto(s, r, 4)
}

/// How many cards of `s` have rank position `r`.
pub open spec fn rcnt(s: Seq<Card>, r: int) -> nat {
    of_rank(s, r).len()
}

/// The last `n` cards of `s` of rank position `r`: those of the highest
/// suits.
pub open spec fn top(s: Seq<Card>, r: int, n: int) -> Seq<Card> {
    of_rank(s, r).subrange(rcnt(s, r) - n, rcnt(s, r) as int)
}

/// The rank groups of `s` among the rank positions below `k`: for each rank
/// that occurs, ascending, its cards ascending by suit.
pub open spec fn rank_groups_upto(s: Seq<Card>, k: int) -> Seq<Seq<Card>>
    decreases k,
{
    if k <= 0 {
        seq![]
    } else if rcnt(s, k - 1) > 0 {
        rank_groups_upto(s, k - 1).push(of_rank(s, k - 1))
    } else {
        rank_groups_upto(s, k - 1)
    }
}

/// The cards of `s` of suit position `j` whose rank comes before rank
/// position `k`, ascending by rank.
pub open spec fn of_suit_upto(s: Seq<Card>, j: int, k: int) -> Seq<Card>
    decreases k,
{
    if k <= 0 {
        seq![]
    } else {
        of_suit_upto(s, j, k - 1) + copies(card(k - 1, j), cnt(s, card(k - 1, j)))
    }
}

/// The cards of `s` of suit position `j`, ascending by rank.
pub open spec fn of_suit(s: Seq<Card>, j: int) -> Seq<Card> {
    of_suit_upto(s, j, 13)
}

/// The suit groups of `s` among the suit positions below `k`: for each suit
/// that occurs, in suit order, its cards ascending by rank.
pub open spec fn suit_groups_upto(s: Seq<Card>, k: int) -> Seq<Seq<Card>>
    decreases k,
{
    if k <= 0 {
        seq![]
    } else if of_suit(s, k - 1).len() > 0 {
        suit_groups_upto(s, k - 1).push(of_suit(s, k - 1))
    } else {
        suit_groups_upto(s, k - 1)
    }
}

/// The views of a sequence of vectors.
pub open spec fn views(v: Seq<Vec<Card>>) -> Seq<Seq<Card>> {
    v.map_values(|g: Vec<Card>| g@)
}

/// Position of card `(r, j)` in a tally.
pub open spec fn slot(r: int, j: int) -> int {
    4 * r + j
}

/// `t` holds, for each card, how often it occurs in `s`.
pub open spec fn tallied(t: Seq<usize>, s: Seq<Card>) -> bool {
    &&& t.len() == 52
    &&& forall|r: int, j: int|
        0 <= r < 13 && 0 <= j < 4 ==> #[trigger] t[slot(r, j)] as nat == cnt(s, card(r, j))
}

/// The card built from its rank and suit positions is the card.
pub proof fn lemma_card_of_positions(c: Card)
    ensures
        card(c.rank.index(), c.suit.index()) == c,
        0 <= c.rank.index() < 13,
        0 <= c.suit.index() < 4,
{
}

/// Positions name their rank and suit.
pub proof fn lemma_positions_of_card(r: int, j: int)
    requires
        0 <= r < 13,
        0 <= j < 4,
    ensures
        card(r, j).rank.index() == r,
        card(r, j).suit.index() == j,
{
}

/// A prefix of `s` holds no more of a card than `s` does, and no card
/// occurs more often than `s` is long.
pub proof fn lemma_cnt_bound(s: Seq<Card>, c: Card)
    ensures
        cnt(s, c) <= s.len(),
    decreases s.len(),
{
    if s.len() > 0 {
        lemma_cnt_bound(s.drop_last(), c);
    }
}

/// A rank is held as often as its four cards are, together.
pub proof fn lemma_rcnt(s: Seq<Card>, r: int)
    ensures
        rcnt(s, r) == cnt(s, card(r, 0)) + cnt(s, card(r, 1)) + cnt(s, card(r, 2)) + cnt(
            s,
            card(r, 3),
        ),
{
    reveal_with_fuel(of_rank_upto, 5);
}

/// No rank is held more often than there are cards.
pub proof fn lemma_rcnt_bound(s: Seq<Card>, r: int)
    ensures
        rcnt(s, r) <= s.len(),
    decreases s.len(),
{
    lemma_rcnt(s, r);
    if s.len() > 0 {
        lemma_rcnt_bound(s.drop_last(), r);
        lemma_rcnt(s.drop_last(), r);
    }
}

/// How many cards of `s` have rank position `r`, counted card by card.
pub open spec fn rank_count(s: Seq<Card>, r: int) -> nat
    decreases s.len(),
{
    if s.len() == 0 {
        0
    } else {
        rank_count(s.drop_last(), r) + if s.last().rank.index() == r {
            1nat
        } else {
            0nat
        }
    }
}

/// The rank groups count the cards of each rank.
pub proof fn lemma_rcnt_count(s: Seq<Card>, r: int)
    requires
        0 <= r < 13,
    ensures
        rcnt(s, r) == rank_count(s, r),
    decreases s.len(),
{
    lemma_rcnt(s, r);
    if s.len() > 0 {
        let t = s.drop_last();
        lemma_rcnt_count(t, r);
        lemma_rcnt(t, r);
        lemma_card_of_positions(s.last());
        lemma_positions_of_card(r, 0);
        lemma_positions_of_card(r, 1);
        lemma_positions_of_card(r, 2);
        lemma_positions_of_card(r, 3);
    }
}

/// A card held means its rank is held.
pub proof fn lemma_holds_rank(s: Seq<Card>, r: int, j: int)
    requires
        0 <= j < 4,
        cnt(s, card(r, j)) > 0,
    ensures
        rcnt(s, r) > 0,
{
    lemma_rcnt(s, r);
}

/// Counts the cards of `cards`, one slot per card.
pub fn tally(cards: &[Card]) -> (t: Vec<usize>)
    ensures
        tallied(t@, cards@),
{
    let mut t: Vec<usize> = Vec::new();
    let mut k: usize = 0;
    while k < 52
        invariant
            k <= 52,
            t@.len() == k,
            forall|i: int| 0 <= i < k ==> t@[i] == 0,
        decreases 52 - k,
    {
        t.push(0);
        k = k + 1;
    }
    let mut i: usize = 0;
    while i < cards.len()
        invariant
            i <= cards@.len(),
            t@.len() == 52,
            forall|r: int, j: int|
                0 <= r < 13 && 0 <= j < 4 ==> #[trigger] t@[slot(r, j)] as nat == cnt(
                    cards@.take(i as int),
                    card(r, j),
                ),
        decreases cards@.len() - i,
    {
        let c = cards[i];
        let ghost pre = cards@.take(i as int);
        let ghost post = cards@.take(i + 1);
        proof {
            assert(post.drop_last() =~= pre);
            lemma_card_of_positions(c);
            lemma_cnt_bound(pre, c);
        }
        let at = 4 * c.rank.to_index() + c.suit.to_index();
        let n = t[at];
        proof {
            assert(t@[slot(c.rank.index(), c.suit.index())] as nat == cnt(pre, c));
        }
        t.set(at, n + 1);
        proof {
            assert forall|r: int, j: int| 0 <= r < 13 && 0 <= j < 4 implies #[trigger] t@[slot(
                r,
                j,
            )] as nat == cnt(post, card(r, j)) by {
                lemma_positions_of_card(r, j);
                if slot(r, j) == at as int {
                    assert(r == c.rank.index() && j == c.suit.index());
                } else {
                    assert(card(r, j) != c);
                }
            }
        }
        i = i + 1;
    }
    proof {
        assert(cards@.take(cards@.len() as int) =~= cards@);
    }
    t
}

pub(crate) fn push_copies(v: &mut Vec<Card>, c: Card, n: usize)
    ensures
        final(v)@ == old(v)@ + copies(c, n as nat),
{
    let ghost start = v@;
    let mut i: usize = 0;
    while i < n
        invariant
            i <= n,
            v@ == start + copies(c, i as nat),
        decreases n - i,
    {
        v.push(c);
        i = i + 1;
        proof {
            assert(v@ =~= start + copies(c, i as nat));
        }
    }
}

/// The cards of `cards` of rank position `r`, ascending by suit, read off
/// the tally `t`.
pub(crate) fn rank_group(cards: &[Card], t: &Vec<usize>, r: usize) -> (v: Vec<Card>)
    requires
        tallied(t@, cards@),
        r < RANKS,
    ensures
        v@ == of_rank(cards@, r as int),
{
    let mut v: Vec<Card> = Vec::new();
    let mut j: usize = 0;
    while j < SUITS
        invariant
            j <= 4,
            r < 13,
            tallied(t@, cards@),
            v@ == of_rank_upto(cards@, r as int, j as int),
        decreases 4 - j,
    {
        let c = Card::new(Face::from_index(r), Suit::from_index(j));
        proof {
            assert(t@[slot(r as int, j as int)] as nat == cnt(cards@, card(r as int, j as int)));
        }
        push_copies(&mut v, c, t[4 * r + j]);
        j = j + 1;
    }
    v
}

/// The cards of `cards` of suit position `j`, ascending by rank, read off
/// the tally `t`.
pub(crate) fn suit_group(cards: &[Card], t: &Vec<usize>, j: usize) -> (v: Vec<Card>)
    requires
        tallied(t@, cards@),
        j < SUITS,
    ensures
        v@ == of_suit(cards@, j as int),
{
    let mut v: Vec<Card> = Vec::new();
    let mut r: usize = 0;
    while r < RANKS
        invariant
            r <= 13,
            j < 4,
            tallied(t@, cards@),
            v@ == of_suit_upto(cards@, j as int, r as int),
        decreases 13 - r,
    {
        let c = Card::new(Face::from_index(r), Suit::from_index(j));
        proof {
            assert(t@[slot(r as int, j as int)] as nat == cnt(cards@, card(r as int, j as int)));
        }
        push_copies(&mut v, c, t[4 * r + j]);
        r = r + 1;
    }
    v
}

/// How many of card `(r, j)` are in `s` but not in `used`.
pub open spec fn left(s: Seq<Card>, used: Seq<Card>, r: int, j: int) -> nat {
    if cnt(s, card(r, j)) >= cnt(used, card(r, j)) {
        (cnt(s, card(r, j)) - cnt(used, card(r, j))) as nat
    } else {
        0
    }
}

/// The cards of rank position `r` in `s` but not in `used`, of suit
/// position `j` or above, highest suit first.
pub open spec fn left_of_rank(s: Seq<Card>, used: Seq<Card>, r: int, j: int) -> Seq<Card>
    decreases 4 - j,
{
    if j >= 4 {
        seq![]
    } else {
        left_of_rank(s, used, r, j + 1) + copies(card(r, j), left(s, used, r, j))
    }
}

/// The cards in `s` but not in `used`, of rank position `k` or above,
/// highest first (by rank, then by suit).
pub open spec fn left_from(s: Seq<Card>, used: Seq<Card>, k: int) -> Seq<Card>
    decreases 13 - k,
{
    if k >= 13 {
        seq![]
    } else {
        left_from(s, used, k + 1) + left_of_rank(s, used, k, 0)
    }
}

/// The cards of `s` that `used` does not take (counted with multiplicity),
/// highest first: by rank, then by suit.
pub open spec fn leftover(s: Seq<Card>, used: Seq<Card>) -> Seq<Card> {
    left_from(s, used, 0)
}

/// The cards of `cards` that `used` does not take, highest first.
pub fn leftover_cards(cards: &[Card], used: &[Card]) -> (v: Vec<Card>)
    ensures
        v@ == leftover(cards@, used@),
{
    let t = tally(cards);
    let u = tally(used);
    let mut v: Vec<Card> = Vec::new();
    let mut k: usize = RANKS;
    while k > 0
        invariant
            k <= 13,
            tallied(t@, cards@),
            tallied(u@, used@),
            v@ == left_from(cards@, used@, k as int),
        decreases k,
    {
        let r = k - 1;
        let mut j: usize = SUITS;
        let ghost before = v@;
        while j > 0
            invariant
                j <= 4,
                r < 13,
                r + 1 == k,
                tallied(t@, cards@),
                tallied(u@, used@),
                before == left_from(cards@, used@, k as int),
                v@ == before + left_of_rank(cards@, used@, r as int, j as int),
            decreases j,
        {
            let jj = j - 1;
            proof {
                assert(t@[slot(r as int, jj as int)] as nat == cnt(cards@, card(r as int, jj as int)));
                assert(u@[slot(r as int, jj as int)] as nat == cnt(used@, card(r as int, jj as int)));
            }
            let have = t[4 * r + jj];
            let taken = u[4 * r + jj];
            let n = if have >= taken {
                have - taken
            } else {
                0
            };
            push_copies(&mut v, Card::new(Face::from_index(r), Suit::from_index(jj)), n);
            proof {
                assert(v@ =~= before + left_of_rank(cards@, used@, r as int, jj as int));
            }
            j = jj;
        }
        proof {
            assert(v@ =~= left_from(cards@, used@, r as int));
        }
        k = r;
    }
    v
}

impl Hand {
    /// Groups the cards by rank: one group per rank that occurs, in
    /// ascending rank order (the ace last), each group ascending by suit.
    pub fn pair_groups(cards: &[Card]) -> (groups: Vec<Vec<Card>>)
        ensures
            views(groups@) == rank_groups_upto(cards@, 13),
    {
        let t = tally(cards);
        let mut groups: Vec<Vec<Card>> = Vec::new();
        let mut r: usize = 0;
        while r < RANKS
            invariant
                r <= 13,
                tallied(t@, cards@),
                views(groups@) == rank_groups_upto(cards@, r as int),
            decreases 13 - r,
        {
            let g = rank_group(cards, &t, r);
            if g.len() > 0 {
                groups.push(g);
            }
            proof {
                assert(views(groups@) =~= rank_groups_upto(cards@, r + 1));
            }
            r = r + 1;
        }
        groups
    }

    /// Groups the cards by suit: one group per suit that occurs, in suit
    /// order, each group ascending by rank.
    pub fn flush_groups(cards: &[Card]) -> (groups: Vec<Vec<Card>>)
        ensures
            views(groups@) == suit_groups_upto(cards@, 4),
    {
        let t = tally(cards);
        let mut groups: Vec<Vec<Card>> = Vec::new();
        let mut j: usize = 0;
        while j < SUITS
            invariant
                j <= 4,
                tallied(t@, cards@),
                views(groups@) == suit_groups_upto(cards@, j as int),
            decreases 4 - j,
        {
            let g = suit_group(cards, &t, j);
            if g.len() > 0 {
                groups.push(g);
            }
            proof {
                assert(views(groups@) =~= suit_groups_upto(cards@, j + 1));
            }
            j = j + 1;
        }
        groups
    }
}

} // verus!
