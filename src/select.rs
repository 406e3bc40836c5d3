//! The best-hand selector: the best category of the pair family (high
//! card up to five of a kind), the best of the straight and flush family,
//! and the better of the two.

use vstd::prelude::*;
use crate::card::{Card, Rank as Face, Suit, RANKS, SUITS};
use crate::error::Error;
use crate::group::{lemma_rcnt, lemma_rcnt_bound, card, cnt, copies, lemma_card_of_positions, of_rank, of_rank_upto, rank_group, rcnt, slot, tallied, tally, top};
use crate::hand::Hand;
use crate::rank::{consecutive, rank_step, ranks_ascending, same_rank, straight_high, straight_pos, strength_of, suit_step, suits_ascending, valid, Kind, Rank};
use crate::order::lex;
use std::cmp::Ordering;

verus! {

/// The highest rank position below `k`, other than `x`, of which `s` holds
/// at least `m` cards; -1 when there is none.
pub open spec fn highest(s: Seq<Card>, m: nat, x: int, k: int) -> int
    decreases k,
{
    if k <= 0 {
        -1
    } else if k - 1 != x && rcnt(s, k - 1) >= m {
        k - 1
    } else {
        highest(s, m, x, k - 1)
    }
}

/// The highest rank position other than `x` of which `s` holds at least
/// `m` cards; -1 when there is none.
pub open spec fn hi(s: Seq<Card>, m: nat, x: int) -> int {
    highest(s, m, x, 13)
}

/// The best category of the pair family that `s` holds, with its cards:
/// five of a kind, else four of a kind, else a full house (the highest
/// three of a kind with the highest other rank held at least twice), else
/// three of a kind, else two pair (the two highest pairs), else a pair,
/// else the highest card. Where a rank is held more often than the
/// category needs, the cards of the highest suits are taken.
pub open spec fn pair_best(s: Seq<Card>) -> (Kind, Seq<Card>) {
    let f = hi(s, 5, -1);
    let q = hi(s, 4, -1);
    let t = hi(s, 3, -1);
    let p = hi(s, 2, -1);
    if f >= 0 {
        (Kind::Fives, top(s, f, 5))
    } else if q >= 0 {
        (Kind::Quads, top(s, q, 4))
    } else if t >= 0 && hi(s, 2, t) >= 0 {
        (Kind::House, top(s, t, 3) + top(s, hi(s, 2, t), 2))
    } else if t >= 0 {
        (Kind::Trips, top(s, t, 3))
    } else if p >= 0 && hi(s, 2, p) >= 0 {
        (Kind::TwoPair, top(s, hi(s, 2, p), 2) + top(s, p, 2))
    } else if p >= 0 {
        (Kind::Pair, top(s, p, 2))
    } else {
        (Kind::High, top(s, hi(s, 1, -1), 1))
    }
}

/// The cards of one rank are all of that rank and ascend by suit.
pub proof fn lemma_of_rank(s: Seq<Card>, r: int, j: int)
    requires
        0 <= j <= 4,
    ensures
        forall|i: int|
            0 <= i < of_rank_upto(s, r, j).len() ==> (#[trigger] of_rank_upto(s, r, j)[i]).rank
                == Face::at(r) && of_rank_upto(s, r, j)[i].suit.index() < j,
        suits_ascending(of_rank_upto(s, r, j)),
    decreases j,
{
    if j > 0 {
        lemma_of_rank(s, r, j - 1);
        let a = of_rank_upto(s, r, j - 1);
        let b = copies(card(r, j - 1), cnt(s, card(r, j - 1)));
        let c = a + b;
        assert(c == of_rank_upto(s, r, j));
        assert forall|i: int| 0 <= i < c.len() - 1 implies #[trigger] suit_step(c, i) by {
            if i + 1 < a.len() {
                assert(suit_step(a, i));
            }
        }
    }
}

/// A stretch of a sequence of cards of one rank, ascending by suit, is of
/// one rank and ascends by suit.
pub proof fn lemma_stretch(c: Seq<Card>, rank: Face, lo: int, hi: int)
    requires
        0 <= lo <= hi <= c.len(),
        forall|i: int| 0 <= i < c.len() ==> (#[trigger] c[i]).rank == rank,
        suits_ascending(c),
    ensures
        same_rank(c.subrange(lo, hi)),
        suits_ascending(c.subrange(lo, hi)),
{
    let d = c.subrange(lo, hi);
    assert forall|i: int| 0 <= i < d.len() - 1 implies #[trigger] suit_step(d, i) by {
        assert(suit_step(c, lo + i));
    }
}

/// The highest cards of one rank form a valid group of that size.
pub proof fn lemma_top(s: Seq<Card>, r: int, n: int)
    requires
        0 <= n <= rcnt(s, r),
    ensures
        top(s, r, n).len() == n,
        same_rank(top(s, r, n)),
        suits_ascending(top(s, r, n)),
        n > 0 ==> top(s, r, n)[0].rank == Face::at(r),
{
    lemma_of_rank(s, r, 4);
    lemma_stretch(of_rank(s, r), Face::at(r), rcnt(s, r) - n, rcnt(s, r) as int);
}

/// What `highest` finds is held at least `m` times, is not `x`, and no
/// higher rank below `k` qualifies.
pub proof fn lemma_highest(s: Seq<Card>, m: nat, x: int, k: int)
    requires
        0 <= k <= 13,
    ensures
        -1 <= highest(s, m, x, k) < k,
        highest(s, m, x, k) >= 0 ==> rcnt(s, highest(s, m, x, k)) >= m && highest(s, m, x, k)
            != x,
        forall|r: int|
            highest(s, m, x, k) < r < k && r != x ==> #[trigger] rcnt(s, r) < m,
    decreases k,
{
    if k > 0 {
        lemma_highest(s, m, x, k - 1);
    }
}

/// How many cards of each rank `cards` holds, read off the tally.
fn rank_counts(cards: &[Card], t: &Vec<usize>) -> (rc: Vec<usize>)
    requires
        tallied(t@, cards@),
    ensures
        rc@.len() == 13,
        forall|r: int| 0 <= r < 13 ==> #[trigger] rc@[r] as nat == rcnt(cards@, r),
{
    let mut rc: Vec<usize> = Vec::new();
    let len = cards.len();
    let mut r: usize = 0;
    while r < RANKS
        invariant
            r <= 13,
            len == cards@.len(),
            tallied(t@, cards@),
            rc@.len() == r,
            forall|i: int| 0 <= i < r ==> #[trigger] rc@[i] as nat == rcnt(cards@, i),
        decreases 13 - r,
    {
        let ghost s = cards@;
        let ghost ri = r as int;
        proof {
            assert(t@[slot(ri, 0)] as nat == cnt(s, card(ri, 0)));
            assert(t@[slot(ri, 1)] as nat == cnt(s, card(ri, 1)));
            assert(t@[slot(ri, 2)] as nat == cnt(s, card(ri, 2)));
            assert(t@[slot(ri, 3)] as nat == cnt(s, card(ri, 3)));
            lemma_rcnt(s, ri);
            lemma_rcnt_bound(s, ri);
        }
        let n = t[4 * r] + t[4 * r + 1] + t[4 * r + 2] + t[4 * r + 3];
        rc.push(n);
        r = r + 1;
    }
    rc
}

/// The highest rank position other than `x` held at least `m` times; -1
/// when there is none.
fn highest_rank(cards: &[Card], rc: &Vec<usize>, m: usize, x: isize) -> (r: isize)
    requires
        rc@.len() == 13,
        forall|r: int| 0 <= r < 13 ==> #[trigger] rc@[r] as nat == rcnt(cards@, r),
    ensures
        r as int == hi(cards@, m as nat, x as int),
{
    let mut k: usize = RANKS;
    while k > 0
        invariant
            k <= 13,
            rc@.len() == 13,
            forall|r: int| 0 <= r < 13 ==> #[trigger] rc@[r] as nat == rcnt(cards@, r),
            hi(cards@, m as nat, x as int) == highest(cards@, m as nat, x as int, k as int),
        decreases k,
    {
        if (k - 1) as isize != x && rc[k - 1] >= m {
            return (k - 1) as isize;
        }
        k = k - 1;
    }
    -1
}

/// The last `n` cards of one rank group, as an array of the wanted size.
fn last1(g: &Vec<Card>) -> (a: [Card; 1])
    requires
        g@.len() >= 1,
    ensures
        a@ == g@.subrange(g@.len() - 1, g@.len() as int),
{
    let n = g.len();
    let a = [g[n - 1]];
    proof {
        assert(a@ =~= g@.subrange(n - 1, n as int));
    }
    a
}

fn last2(g: &Vec<Card>) -> (a: [Card; 2])
    requires
        g@.len() >= 2,
    ensures
        a@ == g@.subrange(g@.len() - 2, g@.len() as int),
{
    let n = g.len();
    let a = [g[n - 2], g[n - 1]];
    proof {
        assert(a@ =~= g@.subrange(n - 2, n as int));
    }
    a
}

fn last3(g: &Vec<Card>) -> (a: [Card; 3])
    requires
        g@.len() >= 3,
    ensures
        a@ == g@.subrange(g@.len() - 3, g@.len() as int),
{
    let n = g.len();
    let a = [g[n - 3], g[n - 2], g[n - 1]];
    proof {
        assert(a@ =~= g@.subrange(n - 3, n as int));
    }
    a
}

fn last4(g: &Vec<Card>) -> (a: [Card; 4])
    requires
        g@.len() >= 4,
    ensures
        a@ == g@.subrange(g@.len() - 4, g@.len() as int),
{
    let n = g.len();
    let a = [g[n - 4], g[n - 3], g[n - 2], g[n - 1]];
    proof {
        assert(a@ =~= g@.subrange(n - 4, n as int));
    }
    a
}

fn last5(g: &Vec<Card>) -> (a: [Card; 5])
    requires
        g@.len() >= 5,
    ensures
        a@ == g@.subrange(g@.len() - 5, g@.len() as int),
{
    let n = g.len();
    let a = [g[n - 5], g[n - 4], g[n - 3], g[n - 2], g[n - 1]];
    proof {
        assert(a@ =~= g@.subrange(n - 5, n as int));
    }
    a
}

/// The category that a constructor was proved to accept.
fn accepted(r: Result<Rank, Error>) -> (v: Rank)
    requires
        r is Ok,
    ensures
        r == Ok::<Rank, Error>(v),
{
    match r {
        Ok(v) => v,
        Err(_) => vstd::pervasive::unreached(),
    }
}

impl Hand {
    /// The best category of the pair family held by `cards`: five of a
    /// kind, four of a kind, full house, three of a kind, two pair, pair or
    /// high card, in that order of preference. Fails only on no cards.
    #[verifier::rlimit(40)]
    pub fn pair_rank(cards: &[Card]) -> (r: Result<Rank, Error>)
        ensures
            cards@.len() == 0 <==> r == Err::<Rank, Error>(Error::EmptyInput),
            cards@.len() > 0 ==> r is Ok && r->Ok_0@ == pair_best(cards@),
    {
        if cards.len() == 0 {
            return Err(Error::EmptyInput);
        }
        let ghost s = cards@;
        let t = tally(cards);
        let rc = rank_counts(cards, &t);
        let f = highest_rank(cards, &rc, 5, -1);
        let q = highest_rank(cards, &rc, 4, -1);
        let tr = highest_rank(cards, &rc, 3, -1);
        let p = highest_rank(cards, &rc, 2, -1);
        proof {
            lemma_highest(s, 5, -1, 13);
            lemma_highest(s, 4, -1, 13);
            lemma_highest(s, 3, -1, 13);
            lemma_highest(s, 2, -1, 13);
        }
        if f >= 0 {
            let g = rank_group(cards, &t, f as usize);
            proof {
                lemma_top(s, f as int, 5);
            }
            return Ok(accepted(Rank::Fives(last5(&g))));
        }
        if q >= 0 {
            let g = rank_group(cards, &t, q as usize);
            proof {
                lemma_top(s, q as int, 4);
            }
            return Ok(accepted(Rank::Quads(last4(&g))));
        }
        if tr >= 0 {
            let g = rank_group(cards, &t, tr as usize);
            let other = highest_rank(cards, &rc, 2, tr);
            proof {
                lemma_highest(s, 2, tr as int, 13);
                lemma_top(s, tr as int, 3);
            }
            if other >= 0 {
                let h = rank_group(cards, &t, other as usize);
                proof {
                    lemma_top(s, other as int, 2);
                    let c = top(s, tr as int, 3) + top(s, other as int, 2);
                    assert(c.subrange(0, 3) =~= top(s, tr as int, 3));
                    assert(c.subrange(3, 5) =~= top(s, other as int, 2));
                    assert(c[0] == top(s, tr as int, 3)[0]);
                    assert(c[3] == top(s, other as int, 2)[0]);
                    assert(Face::at(tr as int).index() == tr);
                    assert(Face::at(other as int).index() == other);
                }
                return Ok(accepted(Rank::House(last3(&g), last2(&h))));
            }
            return Ok(accepted(Rank::Trips(last3(&g))));
        }
        if p >= 0 {
            let g = rank_group(cards, &t, p as usize);
            let other = highest_rank(cards, &rc, 2, p);
            proof {
                lemma_highest(s, 2, p as int, 13);
                lemma_top(s, p as int, 2);
            }
            if other >= 0 {
                let h = rank_group(cards, &t, other as usize);
                proof {
                    lemma_top(s, other as int, 2);
                    let c = top(s, other as int, 2) + top(s, p as int, 2);
                    assert(c.subrange(0, 2) =~= top(s, other as int, 2));
                    assert(c.subrange(2, 4) =~= top(s, p as int, 2));
                    assert(c[0] == top(s, other as int, 2)[0]);
                    assert(c[2] == top(s, p as int, 2)[0]);
                    assert(Face::at(p as int).index() == p);
                    assert(Face::at(other as int).index() == other);
                }
                return Ok(accepted(Rank::TwoPair(last2(&h), last2(&g))));
            }
            return Ok(accepted(Rank::Pair(last2(&g))));
        }
        let h1 = highest_rank(cards, &rc, 1, -1);
        proof {
            lemma_highest(s, 1, -1, 13);
            lemma_some_rank(s);
        }
        let g = rank_group(cards, &t, h1 as usize);
        proof {
            lemma_top(s, h1 as int, 1);
        }
        Ok(accepted(Rank::High(last1(&g))))
    }
}

/// A non-empty collection holds some rank at least once.
pub proof fn lemma_some_rank(s: Seq<Card>)
    requires
        s.len() > 0,
    ensures
        hi(s, 1, -1) >= 0,
{
    let c = s.last();
    lemma_card_of_positions(c);
    let r = c.rank.index();
    let j = c.suit.index();
    assert(cnt(s, card(r, j)) > 0);
    lemma_highest(s, 1, -1, 13);
    lemma_rcnt(s, r);
    assert(rcnt(s, r) >= cnt(s, card(r, j)));
}

/// Rank position of the `i`-th card of the straight topped by rank
/// position `h`: the wheel (topped by the five) opens with the ace.
pub open spec fn sr(h: int, i: int) -> int {
    if h - 4 + i < 0 {
        12
    } else {
        h - 4 + i
    }
}

/// `s` holds the card of rank position `r` and suit position `j`.
pub open spec fn holds(s: Seq<Card>, r: int, j: int) -> bool {
    cnt(s, card(r, j)) > 0
}

/// `s` holds, in suit position `j`, the five cards of the straight topped
/// by `h`.
pub open spec fn sf_at(s: Seq<Card>, h: int, j: int) -> bool {
    &&& holds(s, sr(h, 0), j)
    &&& holds(s, sr(h, 1), j)
    &&& holds(s, sr(h, 2), j)
    &&& holds(s, sr(h, 3), j)
    &&& holds(s, sr(h, 4), j)
}

/// `s` holds, in any suits, the five ranks of the straight topped by `h`.
pub open spec fn straight_at(s: Seq<Card>, h: int) -> bool {
    &&& rcnt(s, sr(h, 0)) > 0
    &&& rcnt(s, sr(h, 1)) > 0
    &&& rcnt(s, sr(h, 2)) > 0
    &&& rcnt(s, sr(h, 3)) > 0
    &&& rcnt(s, sr(h, 4)) > 0
}

/// The highest suit position below `k` in which `s` holds the straight
/// flush topped by `h`; -1 when there is none.
pub open spec fn sf_suit(s: Seq<Card>, h: int, k: int) -> int
    decreases k,
{
    if k <= 0 {
        -1
    } else if sf_at(s, h, k - 1) {
        k - 1
    } else {
        sf_suit(s, h, k - 1)
    }
}

/// The highest top rank position below `k` of a straight flush held by
/// `s`; -1 when there is none. The lowest top is the five (the wheel).
pub open spec fn sf_high(s: Seq<Card>, k: int) -> int
    decreases k,
{
    if k <= 3 {
        -1
    } else if sf_suit(s, k - 1, 4) >= 0 {
        k - 1
    } else {
        sf_high(s, k - 1)
    }
}

/// The highest top rank position below `k` of a straight held by `s`; -1
/// when there is none.
pub open spec fn straight_high_below(s: Seq<Card>, k: int) -> int
    decreases k,
{
    if k <= 3 {
        -1
    } else if straight_at(s, k - 1) {
        k - 1
    } else {
        straight_high_below(s, k - 1)
    }
}

/// The highest suit position below `k` in which `s` holds rank position
/// `r`; -1 when there is none.
pub open spec fn top_suit(s: Seq<Card>, r: int, k: int) -> int
    decreases k,
{
    if k <= 0 {
        -1
    } else if holds(s, r, k - 1) {
        k - 1
    } else {
        top_suit(s, r, k - 1)
    }
}

/// The card standing for rank position `r` in a straight: the one of the
/// highest suit.
pub open spec fn rep(s: Seq<Card>, r: int) -> Card {
    card(r, top_suit(s, r, 4))
}

/// The straight flush topped by `h` in suit position `j`, lowest card
/// first.
pub open spec fn sf_cards(h: int, j: int) -> Seq<Card> {
    seq![card(sr(h, 0), j), card(sr(h, 1), j), card(sr(h, 2), j), card(sr(h, 3), j), card(sr(h, 4), j)]
}

/// The straight topped by `h` that `s` holds, lowest card first, each rank
/// by its card of the highest suit.
pub open spec fn straight_cards(s: Seq<Card>, h: int) -> Seq<Card> {
    seq![rep(s, sr(h, 0)), rep(s, sr(h, 1)), rep(s, sr(h, 2)), rep(s, sr(h, 3)), rep(s, sr(h, 4))]
}

/// The cards of suit position `j` held by `s` with rank position below
/// `k`, one per rank, ascending by rank.
pub open spec fn suit_ranks(s: Seq<Card>, j: int, k: int) -> Seq<Card>
    decreases k,
{
    if k <= 0 {
        seq![]
    } else if holds(s, k - 1, j) {
        suit_ranks(s, j, k - 1).push(card(k - 1, j))
    } else {
        suit_ranks(s, j, k - 1)
    }
}

/// The flush that `s` holds in suit position `j`: its five highest ranks
/// in that suit, ascending.
pub open spec fn flush_cards(s: Seq<Card>, j: int) -> Seq<Card> {
    let c = suit_ranks(s, j, 13);
    c.subrange(c.len() - 5, c.len() as int)
}

/// The suit position below `k` of the best flush that `s` holds; between
/// equal flushes, the higher suit. -1 when there is none.
pub open spec fn best_flush(s: Seq<Card>, k: int) -> int
    decreases k,
{
    if k <= 0 {
        -1
    } else {
        let b = best_flush(s, k - 1);
        let j = k - 1;
        if suit_ranks(s, j, 13).len() < 5 {
            b
        } else if b < 0 {
            j
        } else if lex(
            strength_of(Kind::Flush, flush_cards(s, j)),
            strength_of(Kind::Flush, flush_cards(s, b)),
        ) == Ordering::Less {
            b
        } else {
            j
        }
    }
}

/// The best category of the straight and flush family that `s` holds:
/// the highest straight flush (in the highest suit that has it), else the
/// best flush, else the highest straight; none when `s` holds none of them.
pub open spec fn sf_best(s: Seq<Card>) -> Option<(Kind, Seq<Card>)> {
    let h = sf_high(s, 13);
    let f = best_flush(s, 4);
    let t = straight_high_below(s, 13);
    if h >= 0 {
        Some((Kind::StraightFlush, sf_cards(h, sf_suit(s, h, 4))))
    } else if f >= 0 {
        Some((Kind::Flush, flush_cards(s, f)))
    } else if t >= 0 {
        Some((Kind::Straight, straight_cards(s, t)))
    } else {
        None
    }
}

/// The five cards running up from rank position `h - 4` (the wheel's ace
/// first) are a straight, whatever their suits.
pub proof fn lemma_straight_valid(c: Seq<Card>, h: int)
    requires
        3 <= h <= 12,
        c.len() == 5,
        forall|i: int| 0 <= i < 5 ==> (#[trigger] c[i]).rank == Face::at(sr(h, i)),
    ensures
        consecutive(c),
        straight_high(c) == h,
{
    assert(c[0].rank == Face::at(sr(h, 0)));
    assert(c[1].rank == Face::at(sr(h, 1)));
    assert(c[2].rank == Face::at(sr(h, 2)));
    assert(c[3].rank == Face::at(sr(h, 3)));
    assert(c[4].rank == Face::at(sr(h, 4)));
    assert forall|i: int| 0 < i < c.len() implies #[trigger] straight_pos(c, i) == straight_pos(c, 0)
        + i by {
        assert(c[i].rank == Face::at(sr(h, i)));
    }
}

/// The cards of one suit, one per rank, are of that suit and strictly
/// ascend by rank.
pub proof fn lemma_suit_ranks(s: Seq<Card>, j: int, k: int)
    requires
        0 <= k <= 13,
    ensures
        forall|i: int|
            0 <= i < suit_ranks(s, j, k).len() ==> (#[trigger] suit_ranks(s, j, k)[i]).suit
                == Suit::at(j) && suit_ranks(s, j, k)[i].rank.index() < k,
        ranks_ascending(suit_ranks(s, j, k)),
        suit_ranks(s, j, k).len() <= k,
    decreases k,
{
    if k > 0 {
        lemma_suit_ranks(s, j, k - 1);
        let a = suit_ranks(s, j, k - 1);
        let c = suit_ranks(s, j, k);
        if holds(s, k - 1, j) {
            assert(c == a.push(card(k - 1, j)));
            assert forall|i: int| 0 <= i < c.len() - 1 implies #[trigger] rank_step(c, i) by {
                if i + 1 < a.len() {
                    assert(rank_step(a, i));
                }
            }
        }
    }
}

/// A flush is of one suit and strictly ascends by rank.
pub proof fn lemma_flush_valid(s: Seq<Card>, j: int)
    requires
        suit_ranks(s, j, 13).len() >= 5,
    ensures
        valid(Kind::Flush, flush_cards(s, j)),
{
    let c = suit_ranks(s, j, 13);
    let d = flush_cards(s, j);
    lemma_suit_ranks(s, j, 13);
    assert forall|i: int| 0 <= i < d.len() implies #[trigger] d[i].suit == d[0].suit by {
        assert(c[c.len() - 5 + i].suit == Suit::at(j));
        assert(c[c.len() - 5].suit == Suit::at(j));
    }
    assert forall|i: int| 0 <= i < d.len() - 1 implies #[trigger] rank_step(d, i) by {
        assert(rank_step(c, c.len() - 5 + i));
    }
}

fn sr_exec(h: usize, i: usize) -> (r: usize)
    requires
        3 <= h <= 12,
        i < 5,
    ensures
        r as int == sr(h as int, i as int),
        r < 13,
{
    if h + i < 4 {
        12
    } else {
        h + i - 4
    }
}

fn holds_exec(cards: &[Card], t: &Vec<usize>, r: usize, j: usize) -> (b: bool)
    requires
        tallied(t@, cards@),
        r < 13,
        j < 4,
    ensures
        b == holds(cards@, r as int, j as int),
{
    proof {
        assert(t@[slot(r as int, j as int)] as nat == cnt(cards@, card(r as int, j as int)));
    }
    t[4 * r + j] > 0
}

fn sf_at_exec(cards: &[Card], t: &Vec<usize>, h: usize, j: usize) -> (b: bool)
    requires
        tallied(t@, cards@),
        3 <= h <= 12,
        j < 4,
    ensures
        b == sf_at(cards@, h as int, j as int),
{
    holds_exec(cards, t, sr_exec(h, 0), j) && holds_exec(cards, t, sr_exec(h, 1), j)
        && holds_exec(cards, t, sr_exec(h, 2), j) && holds_exec(cards, t, sr_exec(h, 3), j)
        && holds_exec(cards, t, sr_exec(h, 4), j)
}

fn top_suit_exec(cards: &[Card], t: &Vec<usize>, r: usize) -> (j: usize)
    requires
        tallied(t@, cards@),
        r < 13,
    ensures
        j < 4,
        card(r as int, j as int) == rep(cards@, r as int),
{
    let mut k: usize = SUITS;
    while k > 0
        invariant
            k <= 4,
            r < 13,
            tallied(t@, cards@),
            top_suit(cards@, r as int, 4) == top_suit(cards@, r as int, k as int),
        decreases k,
    {
        if holds_exec(cards, t, r, k - 1) {
            return k - 1;
        }
        k = k - 1;
    }
    proof {
        assert(Suit::at(-1) == Suit::at(3));
    }
    3
}

fn make_card(r: usize, j: usize) -> (c: Card)
    requires
        r < 13,
        j < 4,
    ensures
        c == card(r as int, j as int),
{
    Card::new(Face::from_index(r), Suit::from_index(j))
}

/// The cards of suit position `j` held by `cards`, one per rank, ascending
/// by rank, read off the tally.
fn suit_ranks_exec(cards: &[Card], t: &Vec<usize>, j: usize) -> (v: Vec<Card>)
    requires
        tallied(t@, cards@),
        j < 4,
    ensures
        v@ == suit_ranks(cards@, j as int, 13),
{
    let mut v: Vec<Card> = Vec::new();
    let mut r: usize = 0;
    while r < RANKS
        invariant
            r <= 13,
            j < 4,
            tallied(t@, cards@),
            v@ == suit_ranks(cards@, j as int, r as int),
        decreases 13 - r,
    {
        if holds_exec(cards, t, r, j) {
            v.push(make_card(r, j));
        }
        r = r + 1;
    }
    v
}

fn straight_at_exec(cards: &[Card], rc: &Vec<usize>, hh: usize) -> (b: bool)
    requires
        3 <= hh <= 12,
        rc@.len() == 13,
        forall|r: int| 0 <= r < 13 ==> #[trigger] rc@[r] as nat == rcnt(cards@, r),
    ensures
        b == straight_at(cards@, hh as int),
{
    rc[sr_exec(hh, 0)] > 0 && rc[sr_exec(hh, 1)] > 0 && rc[sr_exec(hh, 2)] > 0 && rc[sr_exec(hh, 3)]
        > 0 && rc[sr_exec(hh, 4)] > 0
}

/// The straight topped by `hh`, each rank by its card of the highest suit.
fn straight_of(cards: &[Card], t: &Vec<usize>, hh: usize) -> (r: Rank)
    requires
        tallied(t@, cards@),
        3 <= hh <= 12,
    ensures
        r@ == (Kind::Straight, straight_cards(cards@, hh as int)),
{
    let ghost s = cards@;
    let r0 = sr_exec(hh, 0);
    let r1 = sr_exec(hh, 1);
    let r2 = sr_exec(hh, 2);
    let r3 = sr_exec(hh, 3);
    let r4 = sr_exec(hh, 4);
    let c = [
        make_card(r0, top_suit_exec(cards, t, r0)),
        make_card(r1, top_suit_exec(cards, t, r1)),
        make_card(r2, top_suit_exec(cards, t, r2)),
        make_card(r3, top_suit_exec(cards, t, r3)),
        make_card(r4, top_suit_exec(cards, t, r4)),
    ];
    proof {
        assert(c@ =~= straight_cards(s, hh as int));
        assert forall|i: int| 0 <= i < 5 implies (#[trigger] c@[i]).rank == Face::at(
            sr(hh as int, i),
        ) by {
            assert(c@[i] == straight_cards(s, hh as int)[i]);
        }
        lemma_straight_valid(c@, hh as int);
    }
    accepted(Rank::Straight(c))
}

/// The straight flush topped by `hh` in suit position `j`.
fn straight_flush_of(hh: usize, j: usize) -> (r: Rank)
    requires
        3 <= hh <= 12,
        j < 4,
    ensures
        r@ == (Kind::StraightFlush, sf_cards(hh as int, j as int)),
{
    let c = [
        make_card(sr_exec(hh, 0), j),
        make_card(sr_exec(hh, 1), j),
        make_card(sr_exec(hh, 2), j),
        make_card(sr_exec(hh, 3), j),
        make_card(sr_exec(hh, 4), j),
    ];
    proof {
        assert(c@ =~= sf_cards(hh as int, j as int));
        assert forall|i: int| 0 <= i < 5 implies (#[trigger] c@[i]).rank == Face::at(
            sr(hh as int, i),
        ) by {
            assert(c@[i] == sf_cards(hh as int, j as int)[i]);
        }
        lemma_straight_valid(c@, hh as int);
        assert forall|i: int| 0 <= i < c@.len() implies #[trigger] c@[i].suit == c@[0].suit by {
            assert(c@[i] == sf_cards(hh as int, j as int)[i]);
        }
    }
    accepted(Rank::StraightFlush(c))
}

impl Hand {
    /// The best category of the straight and flush family held by `cards`:
    /// straight flush, flush or straight, in that order of preference;
    /// `None` when the cards hold none of them.
    pub fn straight_flush_rank(cards: &[Card]) -> (r: Option<Rank>)
        ensures
            match sf_best(cards@) {
                Some(x) => r is Some && r->Some_0@ == x,
                None => r is None,
            },
    {
        let ghost s = cards@;
        let t = tally(cards);
        // Straight flush: the highest top, then the highest suit.
        let mut h: usize = RANKS;
        while h > 3
            invariant
                3 <= h <= 13,
                tallied(t@, cards@),
                s == cards@,
                sf_high(s, 13) == sf_high(s, h as int),
            decreases h,
        {
            let hh = h - 1;
            let mut k: usize = SUITS;
            while k > 0
                invariant
                    k <= 4,
                    3 <= hh <= 12,
                    hh + 1 == h,
                    sf_high(s, 13) == sf_high(s, h as int),
                    tallied(t@, cards@),
                    s == cards@,
                s == cards@,
                    sf_suit(s, hh as int, 4) == sf_suit(s, hh as int, k as int),
                decreases k,
            {
                let j = k - 1;
                if sf_at_exec(cards, &t, hh, j) {
                    proof {
                        assert(sf_suit(s, hh as int, k as int) == j);
                        assert(sf_high(s, h as int) == hh);
                    }
                    return Some(straight_flush_of(hh, j));
                }
                k = k - 1;
            }
            h = h - 1;
        }
        // Flush: the best over the suits.
        let mut best: Option<Rank> = None;
        let ghost mut bi: int = -1;
        let mut j: usize = 0;
        while j < SUITS
            invariant
                j <= 4,
                tallied(t@, cards@),
                s == cards@,
                sf_high(s, 13) == -1,
                bi == best_flush(s, j as int),
                bi < 0 <==> best is None,
                best is Some ==> best->Some_0@ == (Kind::Flush, flush_cards(s, bi)),
            decreases 4 - j,
        {
            let g = suit_ranks_exec(cards, &t, j);
            if g.len() >= 5 {
                proof {
                    lemma_flush_valid(s, j as int);
                }
                let cand = accepted(Rank::Flush(last5(&g)));
                match best {
                    None => {
                        best = Some(cand);
                        proof {
                            bi = j as int;
                        }
                    },
                    Some(b) => {
                        match cand.compare(&b) {
                            Ordering::Less => {},
                            _ => {
                                best = Some(cand);
                                proof {
                                    bi = j as int;
                                }
                            },
                        }
                    },
                }
            }
            j = j + 1;
        }
        if best.is_some() {
            return best;
        }
        // Straight: the highest top.
        let rc = rank_counts(cards, &t);
        let mut h: usize = RANKS;
        while h > 3
            invariant
                3 <= h <= 13,
                tallied(t@, cards@),
                s == cards@,
                rc@.len() == 13,
                forall|r: int| 0 <= r < 13 ==> #[trigger] rc@[r] as nat == rcnt(cards@, r),
                straight_high_below(s, 13) == straight_high_below(s, h as int),
                sf_high(s, 13) == -1,
                best_flush(s, 4) < 0,
            decreases h,
        {
            let hh = h - 1;
            if straight_at_exec(cards, &rc, hh) {
                proof {
                    assert(straight_high_below(s, h as int) == hh);
                }
                return Some(straight_of(cards, &t, hh));
            }
            h = h - 1;
        }
        None
    }
}

/// The cards standing for the ranks below `k` that `s` holds, one per
/// rank (its card of the highest suit), ascending by rank.
pub open spec fn reps_upto(s: Seq<Card>, k: int) -> Seq<Card>
    decreases k,
{
    if k <= 0 {
        seq![]
    } else if rcnt(s, k - 1) > 0 {
        reps_upto(s, k - 1).push(rep(s, k - 1))
    } else {
        reps_upto(s, k - 1)
    }
}

/// Position of a card's rank with the ace low: the ace is 0, the two 1,
/// and so on up to the king, 12.
pub open spec fn low_pos(c: Card) -> int {
    if c.rank == Face::Ace {
        0
    } else {
        c.rank.index() + 1
    }
}

fn low_pos_exec(c: Card) -> (p: usize)
    ensures
        p as int == low_pos(c),
        p < 13,
{
    if c.rank == Face::Ace {
        0
    } else {
        c.rank.to_index() + 1
    }
}

/// `q` cut into maximal runs of cards each one rank above the one before,
/// the ace counting low.
pub open spec fn runs(q: Seq<Card>) -> Seq<Seq<Card>>
    decreases q.len(),
{
    if q.len() == 0 {
        seq![]
    } else {
        let prev = runs(q.drop_last());
        let c = q.last();
        if prev.len() > 0 && low_pos(q.drop_last().last()) + 1 == low_pos(c) {
            prev.update(prev.len() - 1, prev.last().push(c))
        } else {
            prev.push(seq![c])
        }
    }
}

/// The ranks that `s` holds, one card each (that of the highest suit),
/// ascending with the ace low: the ace first, then the two up to the king.
pub open spec fn reps_low(s: Seq<Card>) -> Seq<Card> {
    (if rcnt(s, 12) > 0 {
        seq![rep(s, 12)]
    } else {
        seq![]
    }) + reps_upto(s, 12)
}

/// The straight runs of `s`: its ranks, one card each, ascending with the
/// ace low, cut into maximal runs of consecutive ranks. When `s` holds both
/// an ace and a king, one more run comes last: the run ending at the king,
/// followed by the ace card, which counts high there (Broadway).
pub open spec fn straight_runs(s: Seq<Card>) -> Seq<Seq<Card>> {
    let q = reps_low(s);
    let r = runs(q);
    if q.len() > 0 && q[0].rank == Face::Ace && q.last().rank == Face::King {
        r.push(r.last().push(q[0]))
    } else {
        r
    }
}

fn runs_of(q: &Vec<Card>) -> (out: Vec<Vec<Card>>)
    ensures
        crate::group::views(out@) == runs(q@),
{
    let mut out: Vec<Vec<Card>> = Vec::new();
    let mut i: usize = 0;
    while i < q.len()
        invariant
            i <= q@.len(),
            crate::group::views(out@) == runs(q@.take(i as int)),
            i > 0 ==> out@.len() > 0,
        decreases q@.len() - i,
    {
        let c = q[i];
        let ghost pre = q@.take(i as int);
        let ghost post = q@.take(i + 1);
        proof {
            assert(post.drop_last() =~= pre);
            assert(post.last() == c);
        }
        if i > 0 && low_pos_exec(q[i - 1]) + 1 == low_pos_exec(c) {
            proof {
                assert(pre.last() == q@[i - 1]);
            }
            let last = out.pop();
            match last {
                Some(mut g) => {
                    let ghost g0 = g@;
                    g.push(c);
                    out.push(g);
                    proof {
                        assert(crate::group::views(out@) =~= runs(pre).update(
                            runs(pre).len() - 1,
                            g0.push(c),
                        ));
                    }
                },
                None => {},
            }
        } else {
            let mut g: Vec<Card> = Vec::new();
            g.push(c);
            out.push(g);
            proof {
                assert(crate::group::views(out@) =~= runs(pre).push(seq![c]));
            }
        }
        i = i + 1;
    }
    proof {
        assert(q@.take(q@.len() as int) =~= q@);
    }
    out
}

impl Hand {
    /// Groups the cards into straight runs: one card per rank held (that of
    /// the highest suit), ascending with the ace low, cut wherever a rank is
    /// missing. When both an ace and a king are held, one more run comes
    /// last: the run ending at the king followed by the ace card, counting
    /// high. A straight stands in the last five cards of a run of five or
    /// more.
    pub fn straight_groups(cards: &[Card]) -> (groups: Vec<Vec<Card>>)
        ensures
            crate::group::views(groups@) == straight_runs(cards@),
    {
        let ghost s = cards@;
        let t = tally(cards);
        let rc = rank_counts(cards, &t);
        let mut q: Vec<Card> = Vec::new();
        if rc[12] > 0 {
            let j = top_suit_exec(cards, &t, 12);
            q.push(make_card(12, j));
        }
        let ghost head = q@;
        proof {
            assert(head + reps_upto(s, 0) =~= head);
        }
        let mut r: usize = 0;
        while r < 12
            invariant
                r <= 12,
                s == cards@,
                tallied(t@, cards@),
                rc@.len() == 13,
                forall|i: int| 0 <= i < 13 ==> #[trigger] rc@[i] as nat == rcnt(cards@, i),
                q@ == head + reps_upto(s, r as int),
            decreases 12 - r,
        {
            if rc[r] > 0 {
                let j = top_suit_exec(cards, &t, r);
                q.push(make_card(r, j));
            }
            proof {
                assert(q@ =~= head + reps_upto(s, r + 1));
            }
            r = r + 1;
        }
        proof {
            assert(q@ =~= reps_low(s));
        }
        let mut rs = runs_of(&q);
        let n = q.len();
        if n > 0 && q[0].rank == Face::Ace && q[n - 1].rank == Face::King {
            proof {
                lemma_runs_nonempty(q@);
            }
            let m = rs.len();
            let mut extra = vstd::slice::slice_to_vec(rs[m - 1].as_slice());
            extra.push(q[0]);
            let ghost before = rs@;
            rs.push(extra);
            proof {
                assert(crate::group::views(rs@) =~= crate::group::views(before).push(
                    crate::group::views(before).last().push(q@[0]),
                ));
            }
        }
        rs
    }
}

/// A non-empty sequence has at least one run.
proof fn lemma_runs_nonempty(q: Seq<Card>)
    requires
        q.len() > 0,
    ensures
        runs(q).len() > 0,
{
}

} // verus!
