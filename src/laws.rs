//! Properties of classification and of the order between hands, proved
//! over the specifications of the selector.

use vstd::prelude::*;
use std::cmp::Ordering;
use crate::card::{Card, Rank as Face};
use crate::group::{
    card, cnt, copies, left, left_from, left_of_rank, lemma_card_of_positions, lemma_holds_rank,
    lemma_positions_of_card, lemma_rcnt, lemma_rcnt_count, of_rank, of_rank_upto, rank_count, rcnt,
    top,
};
use crate::hand::{best, kicker_order, kickers_of, rank_positions, Hand};
use crate::order::{lemma_lex_first_difference, lemma_lex_reflexive, lex};
use crate::rank::{straight_high, straight_pos, strength_of, valid, Kind};
use crate::select::{
    best_flush, hi, highest, holds, lemma_highest, lemma_some_rank, lemma_straight_valid, lemma_top,
    pair_best, rep, sf_at, top_suit,
    sf_best, sf_cards, sf_high, sf_suit, sr, straight_at, straight_cards, straight_high_below,
    suit_ranks,
};

verus! {

proof fn lemma_highest_none(s: Seq<Card>, m: nat, x: int, k: int)
    requires
        k <= 13,
        forall|r: int| 0 <= r < k && r != x ==> #[trigger] rcnt(s, r) < m,
    ensures
        highest(s, m, x, k) == -1,
    decreases k,
{
    if k > 0 {
        lemma_highest_none(s, m, x, k - 1);
    }
}

proof fn lemma_highest_found(s: Seq<Card>, m: nat, x: int, k: int, r: int)
    requires
        0 <= r < k <= 13,
        r != x,
        rcnt(s, r) >= m,
        forall|q: int| r < q < k && q != x ==> #[trigger] rcnt(s, q) < m,
    ensures
        highest(s, m, x, k) == r,
    decreases k,
{
    if k - 1 != r {
        lemma_highest_found(s, m, x, k - 1, r);
    }
}

proof fn lemma_sf_suit_none(s: Seq<Card>, h: int, k: int)
    requires
        forall|j: int| 0 <= j < k ==> !#[trigger] sf_at(s, h, j),
    ensures
        sf_suit(s, h, k) == -1,
    decreases k,
{
    if k > 0 {
        lemma_sf_suit_none(s, h, k - 1);
    }
}

/// A straight flush needs each of its ranks held.
proof fn lemma_sf_needs_ranks(s: Seq<Card>, h: int, i: int)
    requires
        0 <= i < 5,
        rcnt(s, sr(h, i)) == 0,
    ensures
        sf_suit(s, h, 4) == -1,
        !straight_at(s, h),
{
    assert forall|j: int| 0 <= j < 4 implies !#[trigger] sf_at(s, h, j) by {
        if sf_at(s, h, j) {
            lemma_holds_rank(s, sr(h, i), j);
        }
    }
    lemma_sf_suit_none(s, h, 4);
}

/// The wheel: an ace, two, three, four and five of the given suits.
pub open spec fn wheel(j0: int, j1: int, j2: int, j3: int, j4: int) -> Seq<Card> {
    seq![card(12, j0), card(0, j1), card(1, j2), card(2, j3), card(3, j4)]
}

proof fn lemma_wheel_counts(j0: int, j1: int, j2: int, j3: int, j4: int, r: int)
    requires
        0 <= j0 < 4 && 0 <= j1 < 4 && 0 <= j2 < 4 && 0 <= j3 < 4 && 0 <= j4 < 4,
        0 <= r < 13,
    ensures
        rcnt(wheel(j0, j1, j2, j3, j4), r) == if r == 12 || 0 <= r <= 3 {
            1nat
        } else {
            0nat
        },
{
    let s = wheel(j0, j1, j2, j3, j4);
    lemma_rcnt_count(s, r);
    reveal_with_fuel(rank_count, 6);
    assert(s.drop_last().drop_last().drop_last().drop_last().drop_last() =~= Seq::<Card>::empty());
    assert(s.drop_last().drop_last().drop_last().drop_last() =~= seq![card(12, j0)]);
    assert(s.drop_last().drop_last().drop_last() =~= seq![card(12, j0), card(0, j1)]);
    assert(s.drop_last().drop_last() =~= seq![card(12, j0), card(0, j1), card(1, j2)]);
    assert(s.drop_last() =~= seq![card(12, j0), card(0, j1), card(1, j2), card(2, j3)]);
}

proof fn lemma_wheel_holds(j0: int, j1: int, j2: int, j3: int, j4: int, j: int)
    requires
        0 <= j0 < 4 && 0 <= j1 < 4 && 0 <= j2 < 4 && 0 <= j3 < 4 && 0 <= j4 < 4,
        0 <= j < 4,
    ensures
        holds(wheel(j0, j1, j2, j3, j4), 12, j) <==> j == j0,
        holds(wheel(j0, j1, j2, j3, j4), 0, j) <==> j == j1,
        holds(wheel(j0, j1, j2, j3, j4), 1, j) <==> j == j2,
        holds(wheel(j0, j1, j2, j3, j4), 2, j) <==> j == j3,
        holds(wheel(j0, j1, j2, j3, j4), 3, j) <==> j == j4,
{
    let s = wheel(j0, j1, j2, j3, j4);
    reveal_with_fuel(cnt, 6);
    assert(s.drop_last().drop_last().drop_last().drop_last().drop_last() =~= Seq::<Card>::empty());
    assert(s.drop_last().drop_last().drop_last().drop_last() =~= seq![card(12, j0)]);
    assert(s.drop_last().drop_last().drop_last() =~= seq![card(12, j0), card(0, j1)]);
    assert(s.drop_last().drop_last() =~= seq![card(12, j0), card(0, j1), card(1, j2)]);
    assert(s.drop_last() =~= seq![card(12, j0), card(0, j1), card(1, j2), card(2, j3)]);
}

proof fn lemma_best_flush_none(s: Seq<Card>, k: int)
    requires
        forall|j: int| 0 <= j < k ==> #[trigger] suit_ranks(s, j, 13).len() < 5,
    ensures
        best_flush(s, k) == -1,
    decreases k,
{
    if k > 0 {
        lemma_best_flush_none(s, k - 1);
    }
}

proof fn lemma_wheel_no_flush(j0: int, j1: int, j2: int, j3: int, j4: int, j: int)
    requires
        0 <= j0 < 4 && 0 <= j1 < 4 && 0 <= j2 < 4 && 0 <= j3 < 4 && 0 <= j4 < 4,
        0 <= j < 4,
        !(j0 == j1 && j1 == j2 && j2 == j3 && j3 == j4),
        forall|r: int| 0 <= r < 13 ==> #[trigger] rcnt(wheel(j0, j1, j2, j3, j4), r) == if r == 12
            || 0 <= r <= 3 {
            1nat
        } else {
            0nat
        },
    ensures
        suit_ranks(wheel(j0, j1, j2, j3, j4), j, 13).len() < 5,
{
    let s = wheel(j0, j1, j2, j3, j4);
    lemma_wheel_holds(j0, j1, j2, j3, j4, j);
    assert forall|r: int| 4 <= r < 12 implies !#[trigger] holds(s, r, j) by {
        if holds(s, r, j) {
            lemma_holds_rank(s, r, j);
        }
    }
    reveal_with_fuel(suit_ranks, 14);
}

proof fn lemma_wheel_sorted(j0: int, j1: int, j2: int, j3: int, j4: int)
    requires
        0 <= j0 < 4 && 0 <= j1 < 4 && 0 <= j2 < 4 && 0 <= j3 < 4 && 0 <= j4 < 4,
    ensures
        best(wheel(j0, j1, j2, j3, j4)).1 == wheel(j0, j1, j2, j3, j4),
        ({
            let b = best(wheel(j0, j1, j2, j3, j4));
            &&& (j0 == j1 && j1 == j2 && j2 == j3 && j3 == j4) ==> b.0 == Kind::StraightFlush
            &&& !(j0 == j1 && j1 == j2 && j2 == j3 && j3 == j4) ==> b.0 == Kind::Straight
            &&& valid(b.0, b.1)
            &&& straight_high(b.1) == 3
            &&& forall|c: Seq<Card>|
                straight_high(c) == 4 ==> #[trigger] lex(strength_of(b.0, b.1), strength_of(b.0, c))
                    == Ordering::Less
        }),
{
    let s = wheel(j0, j1, j2, j3, j4);
    assert forall|r: int| 0 <= r < 13 implies #[trigger] rcnt(s, r) == if r == 12 || 0 <= r <= 3 {
        1nat
    } else {
        0nat
    } by {
        lemma_wheel_counts(j0, j1, j2, j3, j4, r);
    }
    // The pair family holds nothing but the ace high.
    lemma_highest_none(s, 5, -1, 13);
    lemma_highest_none(s, 4, -1, 13);
    lemma_highest_none(s, 3, -1, 13);
    lemma_highest_none(s, 2, -1, 13);
    lemma_highest_found(s, 1, -1, 13, 12);
    assert(pair_best(s).0 == Kind::High);
    // No straight, and no straight flush, is topped above the five.
    assert forall|h: int| 4 <= h <= 12 implies #[trigger] sf_suit(s, h, 4) == -1 && !straight_at(
        s,
        h,
    ) by {
        if h == 12 {
            assert(sr(h, 0) == 8);
            lemma_sf_needs_ranks(s, h, 0);
        } else {
            assert(sr(h, 4) == h);
            lemma_sf_needs_ranks(s, h, 4);
        }
    }
    assert(sf_high(s, 13) == sf_high(s, 4)) by {
        reveal_with_fuel(sf_high, 10);
    }
    assert(straight_high_below(s, 13) == straight_high_below(s, 4)) by {
        reveal_with_fuel(straight_high_below, 10);
    }
    assert forall|j: int| 0 <= j < 4 implies #[trigger] sf_at(s, 3, j) <==> (j == j0 && j == j1
        && j == j2 && j == j3 && j == j4) by {
        lemma_wheel_holds(j0, j1, j2, j3, j4, j);
    }
    assert(straight_at(s, 3));
    assert forall|i: int| 0 <= i < 5 implies (#[trigger] sf_cards(3, j0)[i]).rank == Face::at(
        sr(3, i),
    ) by {}
    assert forall|i: int| 0 <= i < 5 implies (#[trigger] straight_cards(s, 3)[i]).rank == Face::at(
        sr(3, i),
    ) by {}
    lemma_straight_valid(sf_cards(3, j0), 3);
    lemma_straight_valid(straight_cards(s, 3), 3);
    if j0 == j1 && j1 == j2 && j2 == j3 && j3 == j4 {
        assert(sf_suit(s, 3, 4) == j0) by {
            reveal_with_fuel(sf_suit, 5);
        }
        assert(sf_high(s, 4) == 3);
        assert(sf_best(s) == Some((Kind::StraightFlush, sf_cards(3, j0))));
        assert(sf_cards(3, j0) =~= s);
        let c = sf_cards(3, j0);
        assert forall|i: int| 0 <= i < c.len() implies #[trigger] c[i].suit == c[0].suit by {}
    } else {
        lemma_sf_suit_none(s, 3, 4);
        assert(sf_high(s, 4) == -1) by {
            reveal_with_fuel(sf_high, 2);
        }
        assert forall|j: int| 0 <= j < 4 implies #[trigger] suit_ranks(s, j, 13).len() < 5 by {
            lemma_wheel_no_flush(j0, j1, j2, j3, j4, j);
        }
        lemma_best_flush_none(s, 4);
        assert(straight_high_below(s, 4) == 3);
        assert(sf_best(s) == Some((Kind::Straight, straight_cards(s, 3))));
        assert(top_suit(s, 12, 4) == j0 && top_suit(s, 0, 4) == j1 && top_suit(s, 1, 4) == j2
            && top_suit(s, 2, 4) == j3 && top_suit(s, 3, 4) == j4) by {
            lemma_wheel_holds(j0, j1, j2, j3, j4, 0);
            lemma_wheel_holds(j0, j1, j2, j3, j4, 1);
            lemma_wheel_holds(j0, j1, j2, j3, j4, 2);
            lemma_wheel_holds(j0, j1, j2, j3, j4, 3);
            reveal_with_fuel(top_suit, 5);
        }
        assert(straight_cards(s, 3) =~= s);
    }
    let b = best(s);
    assert forall|c: Seq<Card>| straight_high(c) == 4 implies #[trigger] lex(
        strength_of(b.0, b.1),
        strength_of(b.0, c),
    ) == Ordering::Less by {
        reveal_with_fuel(lex, 3);
        assert(strength_of(b.0, b.1).drop_first() =~= seq![3int]);
        assert(strength_of(b.0, c).drop_first() =~= seq![4int]);
    }
}

/// Broadway in one suit: ten, jack, queen, king and ace of suit `j`.
pub open spec fn broadway(j: int) -> Seq<Card> {
    seq![card(8, j), card(9, j), card(10, j), card(11, j), card(12, j)]
}

proof fn lemma_broadway_holds(j: int, r: int, i: int)
    requires
        0 <= j < 4,
        0 <= i < 4,
        0 <= r < 13,
    ensures
        holds(broadway(j), r, i) <==> (8 <= r <= 12 && i == j),
        rcnt(broadway(j), r) == if 8 <= r <= 12 {
            1nat
        } else {
            0nat
        },
{
    let s = broadway(j);
    reveal_with_fuel(cnt, 6);
    reveal_with_fuel(rank_count, 6);
    lemma_rcnt_count(s, r);
    assert(s.drop_last().drop_last().drop_last().drop_last().drop_last() =~= Seq::<Card>::empty());
    assert(s.drop_last().drop_last().drop_last().drop_last() =~= seq![card(8, j)]);
    assert(s.drop_last().drop_last().drop_last() =~= seq![card(8, j), card(9, j)]);
    assert(s.drop_last().drop_last() =~= seq![card(8, j), card(9, j), card(10, j)]);
    assert(s.drop_last() =~= seq![card(8, j), card(9, j), card(10, j), card(11, j)]);
}

/// No category but five of a kind is stronger than a straight flush topped
/// by the ace, and only another such straight flush is as strong.
pub proof fn lemma_royal_is_top(k: Kind, c: Seq<Card>)
    requires
        valid(k, c),
        k != Kind::Fives,
    ensures
        lex(strength_of(k, c), strength_of(Kind::StraightFlush, sf_cards(12, 0))) != Ordering::Greater,
        lex(strength_of(k, c), strength_of(Kind::StraightFlush, sf_cards(12, 0))) == Ordering::Equal
            ==> k == Kind::StraightFlush && straight_high(c) == 12,
{
    reveal_with_fuel(lex, 3);
    assert(straight_high(sf_cards(12, 0)) == 12);
    if k == Kind::StraightFlush {
        assert(straight_pos(c, 4) == straight_pos(c, 0) + 4);
        assert(strength_of(k, c).drop_first() =~= seq![straight_high(c)]);
        assert(strength_of(Kind::StraightFlush, sf_cards(12, 0)).drop_first() =~= seq![12int]);
    }
}

proof fn lemma_broadway_sorted(j: int)
    requires
        0 <= j < 4,
    ensures
        sf_cards(12, j) == broadway(j),
        best(broadway(j)) == (Kind::StraightFlush, sf_cards(12, j)),
        valid(Kind::StraightFlush, sf_cards(12, j)),
        forall|k: Kind, c: Seq<Card>|
            valid(k, c) && k != Kind::Fives ==> #[trigger] lex(
                strength_of(k, c),
                strength_of(Kind::StraightFlush, sf_cards(12, j)),
            ) != Ordering::Greater,
        forall|k: Kind, c: Seq<Card>|
            valid(k, c) && k != Kind::Fives && #[trigger] lex(
                strength_of(k, c),
                strength_of(Kind::StraightFlush, sf_cards(12, j)),
            ) == Ordering::Equal ==> k == Kind::StraightFlush && straight_high(c) == 12,
{
    assert(sf_cards(12, j) =~= broadway(j));
    let s = broadway(j);
    assert forall|r: int| 0 <= r < 13 implies #[trigger] rcnt(s, r) == if 8 <= r <= 12 {
        1nat
    } else {
        0nat
    } by {
        lemma_broadway_holds(j, r, 0);
    }
    lemma_highest_none(s, 5, -1, 13);
    lemma_highest_none(s, 4, -1, 13);
    lemma_highest_none(s, 3, -1, 13);
    lemma_highest_none(s, 2, -1, 13);
    lemma_highest_found(s, 1, -1, 13, 12);
    assert(pair_best(s).0 == Kind::High);
    assert forall|i: int| 0 <= i < 4 implies #[trigger] sf_at(s, 12, i) <==> i == j by {
        lemma_broadway_holds(j, 8, i);
        lemma_broadway_holds(j, 9, i);
        lemma_broadway_holds(j, 10, i);
        lemma_broadway_holds(j, 11, i);
        lemma_broadway_holds(j, 12, i);
    }
    assert(sf_suit(s, 12, 4) == j) by {
        reveal_with_fuel(sf_suit, 5);
    }
    assert(sf_high(s, 13) == 12);
    let c = sf_cards(12, j);
    assert forall|i: int| 0 <= i < 5 implies (#[trigger] c[i]).rank == Face::at(sr(12, i)) by {}
    lemma_straight_valid(c, 12);
    assert forall|i: int| 0 <= i < c.len() implies #[trigger] c[i].suit == c[0].suit by {}
    assert(strength_of(Kind::StraightFlush, c) =~= strength_of(Kind::StraightFlush, sf_cards(12, 0)));
    assert forall|k: Kind, d: Seq<Card>| valid(k, d) && k != Kind::Fives implies #[trigger] lex(
        strength_of(k, d),
        strength_of(Kind::StraightFlush, sf_cards(12, j)),
    ) != Ordering::Greater && (lex(
        strength_of(k, d),
        strength_of(Kind::StraightFlush, sf_cards(12, j)),
    ) == Ordering::Equal ==> k == Kind::StraightFlush && straight_high(d) == 12) by {
        lemma_royal_is_top(k, d);
    }
}

/// Two hands whose categories are pairs of one rank are ordered by their
/// kickers: the first kicker, from the highest down, whose rank differs
/// decides, the higher rank winning.
pub proof fn lemma_pair_tie_break(a: Hand, b: Hand, i: int)
    requires
        a.category()@.0 == Kind::Pair,
        b.category()@.0 == Kind::Pair,
        a.category()@.1[0].rank == b.category()@.1[0].rank,
        0 <= i < a.leftover().len(),
        i < b.leftover().len(),
        forall|k: int| 0 <= k < i ==> #[trigger] a.leftover()[k].rank == b.leftover()[k].rank,
        a.leftover()[i].rank != b.leftover()[i].rank,
    ensures
        a.cmp_spec(b) == kicker_order(a.leftover(), b.leftover()),
        a.leftover()[i].rank.index() > b.leftover()[i].rank.index() ==> a.cmp_spec(b)
            == Ordering::Greater,
        a.leftover()[i].rank.index() < b.leftover()[i].rank.index() ==> a.cmp_spec(b)
            == Ordering::Less,
{
    let x = a.category();
    let y = b.category();
    assert(x.strength() =~= y.strength());
    lemma_lex_reflexive(x.strength());
    let m = if a.leftover().len() < b.leftover().len() {
        a.leftover().len()
    } else {
        b.leftover().len()
    };
    let p = rank_positions(a.leftover()).take(m as int);
    let q = rank_positions(b.leftover()).take(m as int);
    assert forall|k: int| 0 <= k < i implies #[trigger] p[k] == q[k] by {
        assert(a.leftover()[k].rank == b.leftover()[k].rank);
    }
    lemma_lex_first_difference(p, q, i);
}

proof fn lemma_of_rank_held(s: Seq<Card>, r: int, j: int)
    requires
        0 <= j <= 4,
    ensures
        forall|i: int|
            0 <= i < of_rank_upto(s, r, j).len() ==> cnt(s, #[trigger] of_rank_upto(s, r, j)[i]) > 0,
    decreases j,
{
    if j > 0 {
        lemma_of_rank_held(s, r, j - 1);
        let a = of_rank_upto(s, r, j - 1);
        let c = of_rank_upto(s, r, j);
        assert forall|i: int| 0 <= i < c.len() implies cnt(s, #[trigger] c[i]) > 0 by {
            if i < a.len() {
                assert(c[i] == a[i]);
            }
        }
    }
}

proof fn lemma_top_held(s: Seq<Card>, r: int, n: int)
    requires
        0 <= n <= rcnt(s, r),
    ensures
        forall|i: int| 0 <= i < n ==> cnt(s, #[trigger] top(s, r, n)[i]) > 0,
{
    lemma_of_rank_held(s, r, 4);
    assert forall|i: int| 0 <= i < n implies cnt(s, #[trigger] top(s, r, n)[i]) > 0 by {
        assert(top(s, r, n)[i] == of_rank(s, r)[rcnt(s, r) - n + i]);
    }
}

proof fn lemma_suit_ranks_held(s: Seq<Card>, j: int, k: int)
    ensures
        forall|i: int| 0 <= i < suit_ranks(s, j, k).len() ==> cnt(s, #[trigger] suit_ranks(s, j, k)[i]) > 0,
    decreases k,
{
    if k > 0 {
        lemma_suit_ranks_held(s, j, k - 1);
        let a = suit_ranks(s, j, k - 1);
        let c = suit_ranks(s, j, k);
        assert forall|i: int| 0 <= i < c.len() implies cnt(s, #[trigger] c[i]) > 0 by {
            if i < a.len() {
                assert(c[i] == a[i]);
            }
        }
    }
}

proof fn lemma_top_suit(s: Seq<Card>, r: int, k: int)
    requires
        0 <= k <= 4,
    ensures
        top_suit(s, r, k) >= 0 ==> holds(s, r, top_suit(s, r, k)),
        (exists|j: int| 0 <= j < k && #[trigger] holds(s, r, j)) ==> top_suit(s, r, k) >= 0,
    decreases k,
{
    if k > 0 {
        lemma_top_suit(s, r, k - 1);
    }
}

proof fn lemma_rep_held(s: Seq<Card>, r: int)
    requires
        rcnt(s, r) > 0,
    ensures
        cnt(s, rep(s, r)) > 0,
{
    lemma_rcnt(s, r);
    if holds(s, r, 0) {
    } else if holds(s, r, 1) {
    } else if holds(s, r, 2) {
    } else {
        assert(holds(s, r, 3));
    }
    lemma_top_suit(s, r, 4);
}

proof fn lemma_sf_suit_found(s: Seq<Card>, h: int, k: int)
    ensures
        sf_suit(s, h, k) >= 0 ==> sf_at(s, h, sf_suit(s, h, k)),
    decreases k,
{
    if k > 0 {
        lemma_sf_suit_found(s, h, k - 1);
    }
}

proof fn lemma_sf_high_found(s: Seq<Card>, k: int)
    ensures
        sf_high(s, k) >= 0 ==> 3 <= sf_high(s, k) < k && sf_suit(s, sf_high(s, k), 4) >= 0,
    decreases k,
{
    if k > 3 {
        lemma_sf_high_found(s, k - 1);
    }
}

proof fn lemma_straight_found(s: Seq<Card>, k: int)
    ensures
        straight_high_below(s, k) >= 0 ==> 3 <= straight_high_below(s, k) < k && straight_at(
            s,
            straight_high_below(s, k),
        ),
    decreases k,
{
    if k > 3 {
        lemma_straight_found(s, k - 1);
    }
}

proof fn lemma_best_flush_found(s: Seq<Card>, k: int)
    ensures
        best_flush(s, k) >= 0 ==> suit_ranks(s, best_flush(s, k), 13).len() >= 5,
    decreases k,
{
    if k > 0 {
        lemma_best_flush_found(s, k - 1);
    }
}

/// Every card of the best category is one of the cards classified: the
/// category is made of the player's own cards.
pub proof fn lemma_best_held(s: Seq<Card>)
    requires
        s.len() > 0,
    ensures
        forall|i: int| 0 <= i < best(s).1.len() ==> cnt(s, #[trigger] best(s).1[i]) > 0,
{
    let b = best(s);
    let p = pair_best(s);
    // The pair family.
    lemma_highest(s, 5, -1, 13);
    lemma_highest(s, 4, -1, 13);
    lemma_highest(s, 3, -1, 13);
    lemma_highest(s, 2, -1, 13);
    lemma_highest(s, 1, -1, 13);
    lemma_some_rank(s);
    let f = hi(s, 5, -1);
    let q = hi(s, 4, -1);
    let t = hi(s, 3, -1);
    let pp = hi(s, 2, -1);
    lemma_highest(s, 2, t, 13);
    lemma_highest(s, 2, pp, 13);
    assert forall|i: int| 0 <= i < p.1.len() implies cnt(s, #[trigger] p.1[i]) > 0 by {
        if f >= 0 {
            lemma_top_held(s, f, 5);
        } else if q >= 0 {
            lemma_top_held(s, q, 4);
        } else if t >= 0 && hi(s, 2, t) >= 0 {
            lemma_top_held(s, t, 3);
            lemma_top_held(s, hi(s, 2, t), 2);
            lemma_top(s, t, 3);
            if i >= 3 {
                assert(p.1[i] == top(s, hi(s, 2, t), 2)[i - 3]);
            }
        } else if t >= 0 {
            lemma_top_held(s, t, 3);
        } else if pp >= 0 && hi(s, 2, pp) >= 0 {
            lemma_top_held(s, pp, 2);
            lemma_top_held(s, hi(s, 2, pp), 2);
            lemma_top(s, hi(s, 2, pp), 2);
            if i >= 2 {
                assert(p.1[i] == top(s, pp, 2)[i - 2]);
            }
        } else if pp >= 0 {
            lemma_top_held(s, pp, 2);
        } else {
            lemma_top_held(s, hi(s, 1, -1), 1);
        }
    }
    // The straight and flush family.
    match sf_best(s) {
        Some(x) => {
            let h = sf_high(s, 13);
            let fl = best_flush(s, 4);
            let st = straight_high_below(s, 13);
            lemma_sf_high_found(s, 13);
            lemma_best_flush_found(s, 4);
            lemma_straight_found(s, 13);
            assert forall|i: int| 0 <= i < x.1.len() implies cnt(s, #[trigger] x.1[i]) > 0 by {
                if h >= 0 {
                    lemma_sf_suit_found(s, h, 4);
                    let j = sf_suit(s, h, 4);
                    assert(x.1 == sf_cards(h, j));
                } else if fl >= 0 {
                    lemma_suit_ranks_held(s, fl, 13);
                    let c = suit_ranks(s, fl, 13);
                    assert(x.1[i] == c[c.len() - 5 + i]);
                } else {
                    lemma_rep_held(s, sr(st, 0));
                    lemma_rep_held(s, sr(st, 1));
                    lemma_rep_held(s, sr(st, 2));
                    lemma_rep_held(s, sr(st, 3));
                    lemma_rep_held(s, sr(st, 4));
                    assert(x.1 == straight_cards(s, st));
                }
            }
        },
        None => {},
    }
}

/// Two collections hold each card equally often.
pub open spec fn same_counts(a: Seq<Card>, b: Seq<Card>) -> bool {
    forall|c: Card| #[trigger] cnt(a, c) == cnt(b, c)
}

/// How often a card occurs is its count in the multiset of the cards.
pub proof fn lemma_cnt_multiset(s: Seq<Card>, c: Card)
    ensures
        cnt(s, c) == s.to_multiset().count(c),
    decreases s.len(),
{
    broadcast use vstd::multiset::group_multiset_axioms;

    if s.len() == 0 {
        s.to_multiset_ensures();
        assert(!s.contains(c));
    } else {
        let t = s.drop_last();
        lemma_cnt_multiset(t, c);
        assert(s == t.push(s.last()));
        vstd::seq_lib::to_multiset_build(t, s.last());
    }
}

/// Collections holding the same multiset of cards hold each card equally
/// often.
pub proof fn lemma_same_counts(a: Seq<Card>, b: Seq<Card>)
    requires
        a.to_multiset() == b.to_multiset(),
    ensures
        same_counts(a, b),
{
    assert forall|c: Card| #[trigger] cnt(a, c) == cnt(b, c) by {
        lemma_cnt_multiset(a, c);
        lemma_cnt_multiset(b, c);
    }
}

proof fn lemma_of_rank_eq(a: Seq<Card>, b: Seq<Card>, r: int, j: int)
    requires
        same_counts(a, b),
    ensures
        of_rank_upto(a, r, j) == of_rank_upto(b, r, j),
    decreases j,
{
    if j > 0 {
        lemma_of_rank_eq(a, b, r, j - 1);
        assert(cnt(a, card(r, j - 1)) == cnt(b, card(r, j - 1)));
    }
}

proof fn lemma_rcnt_eq(a: Seq<Card>, b: Seq<Card>)
    requires
        same_counts(a, b),
    ensures
        forall|r: int| #[trigger] rcnt(a, r) == rcnt(b, r),
        forall|r: int, n: int| #[trigger] top(a, r, n) == top(b, r, n),
{
    assert forall|r: int| #[trigger] rcnt(a, r) == rcnt(b, r) by {
        lemma_of_rank_eq(a, b, r, 4);
    }
    assert forall|r: int, n: int| #[trigger] top(a, r, n) == top(b, r, n) by {
        lemma_of_rank_eq(a, b, r, 4);
    }
}

proof fn lemma_highest_eq(a: Seq<Card>, b: Seq<Card>, m: nat, x: int, k: int)
    requires
        forall|r: int| #[trigger] rcnt(a, r) == rcnt(b, r),
    ensures
        highest(a, m, x, k) == highest(b, m, x, k),
    decreases k,
{
    if k > 0 {
        lemma_highest_eq(a, b, m, x, k - 1);
    }
}

proof fn lemma_pair_best_eq(a: Seq<Card>, b: Seq<Card>)
    requires
        same_counts(a, b),
    ensures
        pair_best(a) == pair_best(b),
{
    lemma_rcnt_eq(a, b);
    lemma_highest_eq(a, b, 5, -1, 13);
    lemma_highest_eq(a, b, 4, -1, 13);
    lemma_highest_eq(a, b, 3, -1, 13);
    lemma_highest_eq(a, b, 2, -1, 13);
    lemma_highest_eq(a, b, 1, -1, 13);
    lemma_highest_eq(a, b, 2, hi(a, 3, -1), 13);
    lemma_highest_eq(a, b, 2, hi(a, 2, -1), 13);
}

proof fn lemma_sf_suit_eq(a: Seq<Card>, b: Seq<Card>, h: int, k: int)
    requires
        same_counts(a, b),
    ensures
        sf_suit(a, h, k) == sf_suit(b, h, k),
    decreases k,
{
    if k > 0 {
        lemma_sf_suit_eq(a, b, h, k - 1);
        assert(sf_at(a, h, k - 1) == sf_at(b, h, k - 1));
    }
}

proof fn lemma_sf_high_eq(a: Seq<Card>, b: Seq<Card>, k: int)
    requires
        same_counts(a, b),
    ensures
        sf_high(a, k) == sf_high(b, k),
    decreases k,
{
    if k > 3 {
        lemma_sf_high_eq(a, b, k - 1);
        lemma_sf_suit_eq(a, b, k - 1, 4);
    }
}

proof fn lemma_straight_high_eq(a: Seq<Card>, b: Seq<Card>, k: int)
    requires
        forall|r: int| #[trigger] rcnt(a, r) == rcnt(b, r),
    ensures
        straight_high_below(a, k) == straight_high_below(b, k),
    decreases k,
{
    if k > 3 {
        lemma_straight_high_eq(a, b, k - 1);
    }
}

proof fn lemma_top_suit_eq(a: Seq<Card>, b: Seq<Card>, r: int, k: int)
    requires
        same_counts(a, b),
    ensures
        top_suit(a, r, k) == top_suit(b, r, k),
    decreases k,
{
    if k > 0 {
        lemma_top_suit_eq(a, b, r, k - 1);
        assert(cnt(a, card(r, k - 1)) == cnt(b, card(r, k - 1)));
    }
}

proof fn lemma_suit_ranks_eq(a: Seq<Card>, b: Seq<Card>, j: int, k: int)
    requires
        same_counts(a, b),
    ensures
        suit_ranks(a, j, k) == suit_ranks(b, j, k),
    decreases k,
{
    if k > 0 {
        lemma_suit_ranks_eq(a, b, j, k - 1);
        assert(cnt(a, card(k - 1, j)) == cnt(b, card(k - 1, j)));
    }
}

proof fn lemma_best_flush_eq(a: Seq<Card>, b: Seq<Card>, k: int)
    requires
        same_counts(a, b),
    ensures
        best_flush(a, k) == best_flush(b, k),
    decreases k,
{
    if k > 0 {
        lemma_best_flush_eq(a, b, k - 1);
        lemma_suit_ranks_eq(a, b, k - 1, 13);
        lemma_suit_ranks_eq(a, b, best_flush(a, k - 1), 13);
    }
}

proof fn lemma_left_eq(a: Seq<Card>, b: Seq<Card>, u: Seq<Card>, k: int)
    requires
        same_counts(a, b),
        k <= 13,
    ensures
        left_from(a, u, k) == left_from(b, u, k),
    decreases 13 - k,
{
    if k < 13 {
        lemma_left_eq(a, b, u, k + 1);
        lemma_left_rank_eq(a, b, u, k, 0);
    }
}

proof fn lemma_left_rank_eq(a: Seq<Card>, b: Seq<Card>, u: Seq<Card>, r: int, j: int)
    requires
        same_counts(a, b),
        j <= 4,
    ensures
        left_of_rank(a, u, r, j) == left_of_rank(b, u, r, j),
    decreases 4 - j,
{
    if j < 4 {
        lemma_left_rank_eq(a, b, u, r, j + 1);
        assert(cnt(a, card(r, j)) == cnt(b, card(r, j)));
    }
}

/// Classification depends on the multiset of cards alone: in whatever
/// order the same cards come, they give the same category and the same
/// kickers.
pub proof fn lemma_order_free(a: Seq<Card>, b: Seq<Card>)
    requires
        a.to_multiset() == b.to_multiset(),
    ensures
        best(a) == best(b),
        kickers_of(a) == kickers_of(b),
{
    lemma_same_counts(a, b);
    lemma_rcnt_eq(a, b);
    lemma_pair_best_eq(a, b);
    lemma_sf_high_eq(a, b, 13);
    lemma_best_flush_eq(a, b, 4);
    lemma_straight_high_eq(a, b, 13);
    let h = sf_high(a, 13);
    lemma_sf_suit_eq(a, b, h, 4);
    let t = straight_high_below(a, 13);
    lemma_top_suit_eq(a, b, sr(t, 0), 4);
    lemma_top_suit_eq(a, b, sr(t, 1), 4);
    lemma_top_suit_eq(a, b, sr(t, 2), 4);
    lemma_top_suit_eq(a, b, sr(t, 3), 4);
    lemma_top_suit_eq(a, b, sr(t, 4), 4);
    lemma_suit_ranks_eq(a, b, best_flush(a, 4), 13);
    assert(sf_best(a) == sf_best(b));
    lemma_left_eq(a, b, best(a).1, 0);
}

/// A collection leaves nothing over once all its cards are taken.
proof fn lemma_leftover_none(s: Seq<Card>, k: int)
    requires
        k <= 13,
    ensures
        left_from(s, s, k) == Seq::<Card>::empty(),
    decreases 13 - k,
{
    if k < 13 {
        lemma_leftover_none(s, k + 1);
        lemma_leftover_rank_none(s, k, 0);
    }
}

proof fn lemma_leftover_rank_none(s: Seq<Card>, r: int, j: int)
    requires
        j <= 4,
    ensures
        left_of_rank(s, s, r, j) == Seq::<Card>::empty(),
    decreases 4 - j,
{
    if j < 4 {
        lemma_leftover_rank_none(s, r, j + 1);
        assert(copies(card(r, j), left(s, s, r, j)) =~= Seq::<Card>::empty());
    }
}

/// Classifying an ace, two, three, four and five, of any suits and in any
/// order, gives a straight (a straight flush when the suits agree) of
/// exactly those cards, the ace first, with no kickers. It is topped by the
/// five, the lowest top there is: it loses to the same kind topped by the
/// six.
pub proof fn lemma_wheel(s: Seq<Card>, j0: int, j1: int, j2: int, j3: int, j4: int)
    requires
        0 <= j0 < 4 && 0 <= j1 < 4 && 0 <= j2 < 4 && 0 <= j3 < 4 && 0 <= j4 < 4,
        s.to_multiset() == wheel(j0, j1, j2, j3, j4).to_multiset(),
    ensures
        ({
            let b = best(s);
            &&& (j0 == j1 && j1 == j2 && j2 == j3 && j3 == j4) ==> b.0 == Kind::StraightFlush
            &&& !(j0 == j1 && j1 == j2 && j2 == j3 && j3 == j4) ==> b.0 == Kind::Straight
            &&& b.1 == wheel(j0, j1, j2, j3, j4)
            &&& valid(b.0, b.1)
            &&& straight_high(b.1) == 3
            &&& forall|c: Seq<Card>|
                straight_high(c) == 4 ==> #[trigger] lex(strength_of(b.0, b.1), strength_of(b.0, c))
                    == Ordering::Less
        }),
        kickers_of(s) == Seq::<Card>::empty(),
{
    let w = wheel(j0, j1, j2, j3, j4);
    lemma_wheel_sorted(j0, j1, j2, j3, j4);
    lemma_order_free(s, w);
    lemma_leftover_none(w, 0);
}

/// Classifying the ten, jack, queen, king and ace of one suit, in any
/// order, gives the straight flush of exactly those cards, ten first and
/// ace last, with no kickers: no category but five of a kind (which only
/// several decks deal) is stronger, and only another ace-topped straight
/// flush is as strong.
pub proof fn lemma_broadway(s: Seq<Card>, j: int)
    requires
        0 <= j < 4,
        s.to_multiset() == broadway(j).to_multiset(),
    ensures
        best(s) == (Kind::StraightFlush, broadway(j)),
        kickers_of(s) == Seq::<Card>::empty(),
        valid(Kind::StraightFlush, broadway(j)),
        forall|k: Kind, c: Seq<Card>|
            valid(k, c) && k != Kind::Fives ==> #[trigger] lex(
                strength_of(k, c),
                strength_of(Kind::StraightFlush, broadway(j)),
            ) != Ordering::Greater,
        forall|k: Kind, c: Seq<Card>|
            valid(k, c) && k != Kind::Fives && #[trigger] lex(
                strength_of(k, c),
                strength_of(Kind::StraightFlush, broadway(j)),
            ) == Ordering::Equal ==> k == Kind::StraightFlush && straight_high(c) == 12,
{
    let w = broadway(j);
    lemma_broadway_sorted(j);
    lemma_order_free(s, w);
    lemma_leftover_none(w, 0);
}

proof fn lemma_cnt_concat(a: Seq<Card>, b: Seq<Card>, x: Card)
    ensures
        cnt(a + b, x) == cnt(a, x) + cnt(b, x),
    decreases b.len(),
{
    if b.len() == 0 {
        assert(a + b =~= a);
    } else {
        lemma_cnt_concat(a, b.drop_last(), x);
        assert((a + b).drop_last() =~= a + b.drop_last());
    }
}

proof fn lemma_cnt_copies(c: Card, n: nat, x: Card)
    ensures
        cnt(copies(c, n), x) == if c == x {
            n
        } else {
            0
        },
    decreases n,
{
    if n > 0 {
        lemma_cnt_copies(c, (n - 1) as nat, x);
        assert(copies(c, n).drop_last() =~= copies(c, (n - 1) as nat));
    }
}

proof fn lemma_cnt_left_of_rank(s: Seq<Card>, u: Seq<Card>, r: int, j: int, x: Card)
    requires
        0 <= j <= 4,
        0 <= r < 13,
    ensures
        cnt(left_of_rank(s, u, r, j), x) == if x.rank.index() == r && x.suit.index() >= j {
            left(s, u, r, x.suit.index())
        } else {
            0
        },
    decreases 4 - j,
{
    lemma_card_of_positions(x);
    if j < 4 {
        lemma_positions_of_card(r, j);
        lemma_cnt_left_of_rank(s, u, r, j + 1, x);
        lemma_cnt_concat(left_of_rank(s, u, r, j + 1), copies(card(r, j), left(s, u, r, j)), x);
        lemma_cnt_copies(card(r, j), left(s, u, r, j), x);
    } else {
        assert(left_of_rank(s, u, r, j) =~= Seq::<Card>::empty());
    }
}

proof fn lemma_cnt_left_from(s: Seq<Card>, u: Seq<Card>, k: int, x: Card)
    requires
        0 <= k <= 13,
    ensures
        cnt(left_from(s, u, k), x) == if x.rank.index() >= k {
            left(s, u, x.rank.index(), x.suit.index())
        } else {
            0
        },
    decreases 13 - k,
{
    lemma_card_of_positions(x);
    if k < 13 {
        lemma_cnt_left_from(s, u, k + 1, x);
        lemma_cnt_concat(left_from(s, u, k + 1), left_of_rank(s, u, k, 0), x);
        lemma_cnt_left_of_rank(s, u, k, 0, x);
    } else {
        assert(left_from(s, u, k) =~= Seq::<Card>::empty());
    }
}

/// The kickers hold each card as often as the cards classified hold it
/// beyond what the category takes: together with the category they are
/// the cards classified.
pub proof fn lemma_kickers_count(s: Seq<Card>, x: Card)
    ensures
        cnt(kickers_of(s), x) == if cnt(s, x) >= cnt(best(s).1, x) {
            (cnt(s, x) - cnt(best(s).1, x)) as nat
        } else {
            0
        },
{
    lemma_cnt_left_from(s, best(s).1, 0, x);
    lemma_card_of_positions(x);
}

proof fn lemma_cnt_of_rank(s: Seq<Card>, r: int, j: int, x: Card)
    requires
        0 <= j <= 4,
        0 <= r < 13,
    ensures
        cnt(of_rank_upto(s, r, j), x) == if x.rank.index() == r && x.suit.index() < j {
            cnt(s, x)
        } else {
            0
        },
    decreases j,
{
    lemma_card_of_positions(x);
    if j > 0 {
        lemma_positions_of_card(r, j - 1);
        lemma_cnt_of_rank(s, r, j - 1, x);
        lemma_cnt_concat(of_rank_upto(s, r, j - 1), copies(card(r, j - 1), cnt(s, card(r, j - 1))), x);
        lemma_cnt_copies(card(r, j - 1), cnt(s, card(r, j - 1)), x);
    } else {
        assert(of_rank_upto(s, r, j) =~= Seq::<Card>::empty());
    }
}

/// When the best category is a pair, the kickers are exactly the cards
/// outside the pair's rank, each as often as it was classified: two hands whose pairs have one rank are then ordered by these
/// cards alone (see `lemma_pair_tie_break`).
pub proof fn lemma_pair_kickers(s: Seq<Card>, x: Card)
    requires
        best(s).0 == Kind::Pair,
    ensures
        cnt(kickers_of(s), x) == if x.rank == best(s).1[0].rank {
            0
        } else {
            cnt(s, x)
        },
{
    let p = hi(s, 2, -1);
    lemma_highest(s, 5, -1, 13);
    lemma_highest(s, 4, -1, 13);
    lemma_highest(s, 3, -1, 13);
    lemma_highest(s, 2, -1, 13);
    lemma_highest(s, 2, p, 13);
    assert(pair_best(s) == best(s));
    assert(best(s).1 == top(s, p, 2));
    assert(rcnt(s, p) == 2);
    assert(top(s, p, 2) =~= of_rank(s, p));
    lemma_top(s, p, 2);
    lemma_cnt_of_rank(s, p, 4, x);
    lemma_kickers_count(s, x);
    lemma_card_of_positions(x);
}

} // verus!
