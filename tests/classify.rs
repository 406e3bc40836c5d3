use aces_high::card::{Card, Rank as Face, Suit};
use aces_high::error::Error;
use aces_high::hand::{classify, Hand};
use aces_high::rank::Kind;
use std::cmp::Ordering;

fn c(rank: Face, suit: Suit) -> Card {
    Card::new(rank, suit)
}

#[test]
fn pair_of_twos_with_kickers() {
    let cards = [
        c(Face::Two, Suit::Clubs),
        c(Face::Two, Suit::Diamonds),
        c(Face::Five, Suit::Hearts),
        c(Face::Nine, Suit::Spades),
        c(Face::King, Suit::Clubs),
    ];
    let (rank, kickers) = classify(&cards).unwrap();
    assert_eq!(rank.kind(), Kind::Pair);
    assert_eq!(rank.to_vec(), vec![cards[0], cards[1]]);
    assert_eq!(kickers, vec![cards[4], cards[3], cards[2]]);
}

#[test]
fn full_house_of_threes_and_sevens() {
    let cards = [
        c(Face::Three, Suit::Clubs),
        c(Face::Three, Suit::Diamonds),
        c(Face::Three, Suit::Hearts),
        c(Face::Seven, Suit::Spades),
        c(Face::Seven, Suit::Hearts),
    ];
    let (rank, kickers) = classify(&cards).unwrap();
    assert_eq!(rank.kind(), Kind::House);
    let (trips, pair) = rank.drop_House();
    assert_eq!(trips, [cards[0], cards[1], cards[2]]);
    assert_eq!(pair, [cards[4], cards[3]]);
    assert!(kickers.is_empty());
}

#[test]
fn straight_flush_beats_straight_of_same_top() {
    let sf = [
        c(Face::Four, Suit::Clubs),
        c(Face::Five, Suit::Clubs),
        c(Face::Six, Suit::Clubs),
        c(Face::Seven, Suit::Clubs),
        c(Face::Eight, Suit::Clubs),
    ];
    let st = [
        c(Face::Four, Suit::Diamonds),
        c(Face::Five, Suit::Clubs),
        c(Face::Six, Suit::Hearts),
        c(Face::Seven, Suit::Spades),
        c(Face::Eight, Suit::Diamonds),
    ];
    let (a, _) = classify(&sf).unwrap();
    let (b, _) = classify(&st).unwrap();
    assert_eq!(a.kind(), Kind::StraightFlush);
    assert_eq!(a.to_vec(), sf.to_vec());
    assert_eq!(b.kind(), Kind::Straight);
    assert_eq!(b.to_vec(), st.to_vec());
    assert_eq!(a.compare(&b), Ordering::Greater);
}

#[test]
fn royal_flush_is_the_top() {
    let royal = [
        c(Face::Ace, Suit::Spades),
        c(Face::King, Suit::Spades),
        c(Face::Queen, Suit::Spades),
        c(Face::Jack, Suit::Spades),
        c(Face::Ten, Suit::Spades),
    ];
    let (a, kickers) = classify(&royal).unwrap();
    assert_eq!(a.kind(), Kind::StraightFlush);
    assert_eq!(a.drop_StraightFlush()[4], c(Face::Ace, Suit::Spades));
    assert!(kickers.is_empty());
    let nine_high = [
        c(Face::Five, Suit::Hearts),
        c(Face::Six, Suit::Hearts),
        c(Face::Seven, Suit::Hearts),
        c(Face::Eight, Suit::Hearts),
        c(Face::Nine, Suit::Hearts),
    ];
    let (b, _) = classify(&nine_high).unwrap();
    assert_eq!(a.compare(&b), Ordering::Greater);
    let quads = [
        c(Face::Ace, Suit::Clubs),
        c(Face::Ace, Suit::Diamonds),
        c(Face::Ace, Suit::Hearts),
        c(Face::Ace, Suit::Spades),
        c(Face::King, Suit::Clubs),
    ];
    let (q, _) = classify(&quads).unwrap();
    assert_eq!(q.kind(), Kind::Quads);
    assert_eq!(a.compare(&q), Ordering::Greater);
}

#[test]
fn no_cards_is_an_error() {
    assert_eq!(classify(&[]), Err(Error::EmptyInput));
    assert!(matches!(Hand::new(vec![]), Err(Error::EmptyInput)));
    assert_eq!(Hand::pair_rank(&[]), Err(Error::EmptyInput));
}

#[test]
fn wheel_is_the_lowest_straight() {
    let wheel = [
        c(Face::Ace, Suit::Hearts),
        c(Face::Two, Suit::Clubs),
        c(Face::Three, Suit::Spades),
        c(Face::Four, Suit::Clubs),
        c(Face::Five, Suit::Diamonds),
    ];
    let six_high = [
        c(Face::Two, Suit::Hearts),
        c(Face::Three, Suit::Clubs),
        c(Face::Four, Suit::Spades),
        c(Face::Five, Suit::Clubs),
        c(Face::Six, Suit::Diamonds),
    ];
    let (a, _) = classify(&wheel).unwrap();
    let (b, _) = classify(&six_high).unwrap();
    assert_eq!(a.kind(), Kind::Straight);
    assert_eq!(a.to_vec(), wheel.to_vec());
    assert_eq!(a.compare(&b), Ordering::Less);

    let suited = [
        c(Face::Ace, Suit::Clubs),
        c(Face::Two, Suit::Clubs),
        c(Face::Three, Suit::Clubs),
        c(Face::Four, Suit::Clubs),
        c(Face::Five, Suit::Clubs),
    ];
    let (s, _) = classify(&suited).unwrap();
    assert_eq!(s.kind(), Kind::StraightFlush);
    assert_eq!(s.to_vec(), suited.to_vec());
}

#[test]
fn pair_of_kings_tie_broken_by_kickers() {
    let a = Hand::new(vec![
        c(Face::King, Suit::Clubs),
        c(Face::King, Suit::Hearts),
        c(Face::Ace, Suit::Spades),
        c(Face::Nine, Suit::Diamonds),
        c(Face::Seven, Suit::Clubs),
        c(Face::Four, Suit::Hearts),
        c(Face::Two, Suit::Spades),
    ])
    .unwrap();
    let b = Hand::new(vec![
        c(Face::King, Suit::Diamonds),
        c(Face::King, Suit::Spades),
        c(Face::Ace, Suit::Hearts),
        c(Face::Nine, Suit::Clubs),
        c(Face::Six, Suit::Clubs),
        c(Face::Four, Suit::Spades),
        c(Face::Two, Suit::Hearts),
    ])
    .unwrap();
    assert_eq!(a.rank().kind(), Kind::Pair);
    assert_eq!(b.rank().kind(), Kind::Pair);
    assert_eq!(
        a.kickers(),
        vec![
            c(Face::Ace, Suit::Spades),
            c(Face::Nine, Suit::Diamonds),
            c(Face::Seven, Suit::Clubs),
            c(Face::Four, Suit::Hearts),
            c(Face::Two, Suit::Spades),
        ]
    );
    assert_eq!(a.rank().compare(&b.rank()), Ordering::Equal);
    assert_eq!(a.compare(&b), Ordering::Greater);
    assert_eq!(b.compare(&a), Ordering::Less);
    assert_eq!(a.compare(&a), Ordering::Equal);
}

#[test]
fn classification_picks_the_best_family() {
    // A flush and three of a kind: the flush wins.
    let cards = [
        c(Face::Two, Suit::Hearts),
        c(Face::Two, Suit::Clubs),
        c(Face::Two, Suit::Spades),
        c(Face::Six, Suit::Hearts),
        c(Face::Nine, Suit::Hearts),
        c(Face::Jack, Suit::Hearts),
        c(Face::King, Suit::Hearts),
    ];
    let (rank, kickers) = classify(&cards).unwrap();
    assert_eq!(rank.kind(), Kind::Flush);
    assert_eq!(rank.to_vec(), vec![cards[0], cards[3], cards[4], cards[5], cards[6]]);
    assert_eq!(kickers, vec![cards[2], cards[1]]);

    // Two three of a kinds make a full house, the higher one as the three.
    let cards = [
        c(Face::Four, Suit::Hearts),
        c(Face::Four, Suit::Clubs),
        c(Face::Four, Suit::Spades),
        c(Face::Queen, Suit::Hearts),
        c(Face::Queen, Suit::Diamonds),
        c(Face::Queen, Suit::Spades),
        c(Face::Ace, Suit::Hearts),
    ];
    let (rank, kickers) = classify(&cards).unwrap();
    assert_eq!(rank.kind(), Kind::House);
    let (trips, pair) = rank.drop_House();
    assert_eq!(trips, [cards[4], cards[3], cards[5]]);
    assert_eq!(pair, [cards[0], cards[2]]);
    assert_eq!(kickers, vec![cards[6], cards[1]]);

    // Three pairs: the two highest make the two pair.
    let cards = [
        c(Face::Three, Suit::Hearts),
        c(Face::Three, Suit::Clubs),
        c(Face::Eight, Suit::Spades),
        c(Face::Eight, Suit::Hearts),
        c(Face::Jack, Suit::Diamonds),
        c(Face::Jack, Suit::Spades),
        c(Face::Five, Suit::Hearts),
    ];
    let (rank, _) = classify(&cards).unwrap();
    assert_eq!(rank.kind(), Kind::TwoPair);
    let (low, high) = rank.drop_TwoPair();
    assert_eq!(low, [cards[3], cards[2]]);
    assert_eq!(high, [cards[4], cards[5]]);

    // Nothing: the highest card.
    let cards = [
        c(Face::Three, Suit::Hearts),
        c(Face::Queen, Suit::Clubs),
        c(Face::Eight, Suit::Spades),
    ];
    let (rank, kickers) = classify(&cards).unwrap();
    assert_eq!(rank.kind(), Kind::High);
    assert_eq!(rank.to_vec(), vec![cards[1]]);
    assert_eq!(kickers, vec![cards[2], cards[0]]);
}

#[test]
fn straight_flush_in_seven_cards_beats_quads() {
    let cards = [
        c(Face::Nine, Suit::Diamonds),
        c(Face::Nine, Suit::Clubs),
        c(Face::Nine, Suit::Hearts),
        c(Face::Nine, Suit::Spades),
        c(Face::Ten, Suit::Spades),
        c(Face::Jack, Suit::Spades),
        c(Face::Queen, Suit::Spades),
        c(Face::King, Suit::Spades),
    ];
    let (rank, kickers) = classify(&cards).unwrap();
    assert_eq!(rank.kind(), Kind::StraightFlush);
    assert_eq!(rank.to_vec(), vec![cards[3], cards[4], cards[5], cards[6], cards[7]]);
    assert_eq!(kickers, vec![cards[2], cards[0], cards[1]]);
}

#[test]
fn five_of_a_kind_from_two_decks() {
    let cards = [
        c(Face::Six, Suit::Diamonds),
        c(Face::Six, Suit::Clubs),
        c(Face::Six, Suit::Hearts),
        c(Face::Six, Suit::Spades),
        c(Face::Six, Suit::Spades),
        c(Face::Two, Suit::Spades),
    ];
    let (rank, kickers) = classify(&cards).unwrap();
    assert_eq!(rank.kind(), Kind::Fives);
    assert_eq!(rank.to_vec(), vec![cards[1], cards[0], cards[2], cards[3], cards[4]]);
    assert_eq!(kickers, vec![cards[5]]);
}

#[test]
fn hand_update_reclassifies_with_community_cards() {
    let mut hand = Hand::new(vec![c(Face::Ace, Suit::Clubs), c(Face::Ace, Suit::Hearts)]).unwrap();
    assert_eq!(hand.rank().kind(), Kind::Pair);
    assert_eq!(hand.len(), 2);
    assert!(!hand.is_empty());
    hand.update(&[
        c(Face::Ace, Suit::Spades),
        c(Face::Five, Suit::Clubs),
        c(Face::Five, Suit::Hearts),
    ])
    .unwrap();
    assert_eq!(hand.rank().kind(), Kind::House);
    assert!(hand.kickers().is_empty());
    hand.update(&[c(Face::King, Suit::Spades)]).unwrap();
    assert_eq!(hand.rank().kind(), Kind::Pair);
    assert_eq!(hand.kickers(), vec![c(Face::King, Suit::Spades)]);
    assert_eq!(hand.len(), 2);
    assert_eq!(
        Hand::ranking(&[c(Face::Two, Suit::Clubs)], &[c(Face::Two, Suit::Hearts)])
            .unwrap()
            .0
            .kind(),
        Kind::Pair
    );
    assert_eq!(hand.discard(), vec![c(Face::Ace, Suit::Clubs), c(Face::Ace, Suit::Hearts)]);
}

#[test]
fn grouping_engine() {
    let cards = [
        c(Face::Ace, Suit::Spades),
        c(Face::Two, Suit::Hearts),
        c(Face::Three, Suit::Clubs),
        c(Face::Three, Suit::Diamonds),
        c(Face::Four, Suit::Hearts),
        c(Face::Five, Suit::Spades),
        c(Face::Nine, Suit::Hearts),
        c(Face::Ten, Suit::Clubs),
    ];
    let ranks = Hand::pair_groups(&cards);
    assert_eq!(
        ranks,
        vec![
            vec![cards[1]],
            vec![cards[2], cards[3]],
            vec![cards[4]],
            vec![cards[5]],
            vec![cards[6]],
            vec![cards[7]],
            vec![cards[0]],
        ]
    );
    let suits = Hand::flush_groups(&cards);
    assert_eq!(
        suits,
        vec![
            vec![cards[2], cards[7]],
            vec![cards[3]],
            vec![cards[1], cards[4], cards[6]],
            vec![cards[5], cards[0]],
        ]
    );
    let runs = Hand::straight_groups(&cards);
    assert_eq!(
        runs,
        vec![
            vec![cards[0], cards[1], cards[3], cards[4], cards[5]],
            vec![cards[6], cards[7]],
        ]
    );
    assert!(Hand::straight_flush_rank(&cards).is_some());
    assert!(Hand::straight_flush_rank(&cards[2..]).is_none());
}

#[test]
fn straight_runs_put_the_ace_low_and_wrap_it_after_the_king() {
    let ace = c(Face::Ace, Suit::Clubs);
    let five = c(Face::Five, Suit::Clubs);
    let king = c(Face::King, Suit::Clubs);
    assert_eq!(Hand::straight_groups(&[ace, five]), vec![vec![ace], vec![five]]);
    assert_eq!(
        Hand::straight_groups(&[king, ace]),
        vec![vec![ace], vec![king], vec![king, ace]]
    );
    let broadway = [
        c(Face::Queen, Suit::Hearts),
        c(Face::Ace, Suit::Spades),
        c(Face::Jack, Suit::Hearts),
        c(Face::King, Suit::Hearts),
        c(Face::Ten, Suit::Diamonds),
        c(Face::Ten, Suit::Clubs),
    ];
    assert_eq!(
        Hand::straight_groups(&broadway),
        vec![
            vec![broadway[1]],
            vec![broadway[4], broadway[2], broadway[0], broadway[3]],
            vec![broadway[4], broadway[2], broadway[0], broadway[3], broadway[1]],
        ]
    );
    assert!(Hand::straight_groups(&[]).is_empty());
}

#[test]
fn hands_tie_when_their_common_kickers_agree() {
    let a = Hand::new(vec![
        c(Face::King, Suit::Clubs),
        c(Face::King, Suit::Hearts),
        c(Face::Nine, Suit::Diamonds),
    ])
    .unwrap();
    let b = Hand::new(vec![
        c(Face::King, Suit::Diamonds),
        c(Face::King, Suit::Spades),
        c(Face::Nine, Suit::Clubs),
        c(Face::Two, Suit::Clubs),
    ])
    .unwrap();
    assert_eq!(a.compare(&b), Ordering::Equal);
    assert_eq!(b.compare(&a), Ordering::Equal);
}

#[test]
fn wheel_and_broadway_in_any_order() {
    let wheel = [
        c(Face::Four, Suit::Clubs),
        c(Face::Ace, Suit::Hearts),
        c(Face::Five, Suit::Diamonds),
        c(Face::Two, Suit::Clubs),
        c(Face::Three, Suit::Spades),
    ];
    let (r, k) = Hand::ranking(&wheel, &[]).unwrap();
    assert_eq!(r.kind(), Kind::Straight);
    assert_eq!(r.to_vec(), vec![wheel[1], wheel[3], wheel[4], wheel[0], wheel[2]]);
    assert!(k.is_empty());

    let royal = [
        c(Face::King, Suit::Diamonds),
        c(Face::Ten, Suit::Diamonds),
        c(Face::Ace, Suit::Diamonds),
        c(Face::Queen, Suit::Diamonds),
        c(Face::Jack, Suit::Diamonds),
    ];
    let (r, k) = Hand::ranking(&royal, &[]).unwrap();
    assert_eq!(r.kind(), Kind::StraightFlush);
    assert_eq!(r.name(), "Royal flush");
    assert_eq!(r.to_vec(), vec![royal[1], royal[4], royal[3], royal[0], royal[2]]);
    assert!(k.is_empty());
}
