use aces_high::card::{Card, Rank as Face, Suit};
use aces_high::error::Error;
use aces_high::extra::{
    five_cards, flush_cards, high_card, house_cards, pair_cards, quad_cards, straight_cards,
    trips_cards, two_pairs_cards,
};
use aces_high::hand::classify;
use aces_high::rank::{Kind, Rank};
use std::cmp::Ordering;

fn c(rank: Face, suit: Suit) -> Card {
    Card::new(rank, suit)
}

#[test]
fn rank_from() {
    println!("{:?}", Rank::pair_try_from(&[Card::random(), Card::random()]))
}

#[test]
fn pair_round_trip_and_errors() {
    let cards = [c(Face::Two, Suit::Clubs), c(Face::Two, Suit::Diamonds)];
    let pair = Rank::Pair(cards).unwrap();
    assert_eq!(pair.kind(), Kind::Pair);
    assert_eq!(pair.to_vec(), cards.to_vec());
    assert_eq!(pair.drop_Pair(), cards);

    let unsorted = [c(Face::Two, Suit::Diamonds), c(Face::Two, Suit::Clubs)];
    assert_eq!(Rank::Pair(unsorted), Err(Error::UnsortedInput(unsorted.to_vec())));

    let mixed = [c(Face::Two, Suit::Clubs), c(Face::Three, Suit::Diamonds)];
    assert_eq!(Rank::Pair(mixed), Err(Error::InvalidShape(mixed.to_vec())));
}

#[test]
fn slice_constructors_take_the_last_cards() {
    let cards = [
        c(Face::Nine, Suit::Hearts),
        c(Face::Four, Suit::Clubs),
        c(Face::Four, Suit::Spades),
    ];
    let pair = Rank::pair_try_from(&cards).unwrap();
    assert_eq!(pair.to_vec(), cards[1..].to_vec());
    assert_eq!(
        Rank::pair_try_from(&cards[..1]),
        Err(Error::InsufficientCards { expected: 2, actual: 1 })
    );
    assert_eq!(
        Rank::fives_try_from(&cards),
        Err(Error::InsufficientCards { expected: 5, actual: 3 })
    );
    let high = Rank::high_from(&cards[0]);
    assert_eq!(high.to_vec(), vec![cards[0]]);
}

#[test]
fn two_pair_rules() {
    let low = [c(Face::Three, Suit::Clubs), c(Face::Three, Suit::Hearts)];
    let high = [c(Face::Nine, Suit::Diamonds), c(Face::Nine, Suit::Spades)];
    let tp = Rank::TwoPair(low, high).unwrap();
    assert_eq!(tp.kind(), Kind::TwoPair);
    assert_eq!(tp.drop_TwoPair(), (low, high));
    let mut all = low.to_vec();
    all.extend_from_slice(&high);
    assert_eq!(tp.to_vec(), all.clone());

    let mut swapped = high.to_vec();
    swapped.extend_from_slice(&low);
    assert_eq!(Rank::TwoPair(high, low), Err(Error::UnsortedInput(swapped)));

    let same = [c(Face::Three, Suit::Diamonds), c(Face::Three, Suit::Spades)];
    let mut both = low.to_vec();
    both.extend_from_slice(&same);
    assert_eq!(Rank::TwoPair(low, same), Err(Error::InvalidShape(both)));

    assert_eq!(
        Rank::two_pair_try_from(&low, &high[..1]),
        Err(Error::InsufficientCards { expected: 2, actual: 1 })
    );
    assert_eq!(Rank::two_pair_try_from(&low, &high).unwrap().to_vec(), all);
}

#[test]
fn trips_quads_fives_rules() {
    let trips = [
        c(Face::Seven, Suit::Clubs),
        c(Face::Seven, Suit::Hearts),
        c(Face::Seven, Suit::Spades),
    ];
    assert_eq!(Rank::Trips(trips).unwrap().drop_Trips(), trips);
    let bad = [
        c(Face::Seven, Suit::Clubs),
        c(Face::Seven, Suit::Spades),
        c(Face::Seven, Suit::Hearts),
    ];
    assert_eq!(Rank::Trips(bad), Err(Error::UnsortedInput(bad.to_vec())));

    let quads = [
        c(Face::Jack, Suit::Clubs),
        c(Face::Jack, Suit::Diamonds),
        c(Face::Jack, Suit::Hearts),
        c(Face::Jack, Suit::Spades),
    ];
    assert_eq!(Rank::Quads(quads).unwrap().drop_Quads(), quads);
    let odd = [
        c(Face::Jack, Suit::Clubs),
        c(Face::Jack, Suit::Diamonds),
        c(Face::Queen, Suit::Hearts),
        c(Face::Jack, Suit::Spades),
    ];
    assert_eq!(Rank::Quads(odd), Err(Error::InvalidShape(odd.to_vec())));

    let fives = [
        c(Face::Two, Suit::Clubs),
        c(Face::Two, Suit::Clubs),
        c(Face::Two, Suit::Diamonds),
        c(Face::Two, Suit::Hearts),
        c(Face::Two, Suit::Spades),
    ];
    assert_eq!(Rank::Fives(fives).unwrap().drop_Fives(), fives);
    assert_eq!(Rank::fives_try_from(&fives).unwrap().kind(), Kind::Fives);
}

#[test]
fn straight_rules() {
    let wheel = [
        c(Face::Ace, Suit::Clubs),
        c(Face::Two, Suit::Hearts),
        c(Face::Three, Suit::Clubs),
        c(Face::Four, Suit::Spades),
        c(Face::Five, Suit::Clubs),
    ];
    assert_eq!(Rank::Straight(wheel).unwrap().drop_Straight(), wheel);
    let broadway = [
        c(Face::Ten, Suit::Clubs),
        c(Face::Jack, Suit::Hearts),
        c(Face::Queen, Suit::Clubs),
        c(Face::King, Suit::Spades),
        c(Face::Ace, Suit::Clubs),
    ];
    assert!(Rank::Straight(broadway).is_ok());
    let wrap = [
        c(Face::Queen, Suit::Clubs),
        c(Face::King, Suit::Hearts),
        c(Face::Ace, Suit::Clubs),
        c(Face::Two, Suit::Spades),
        c(Face::Three, Suit::Clubs),
    ];
    assert_eq!(Rank::Straight(wrap), Err(Error::InvalidShape(wrap.to_vec())));
    assert_eq!(Rank::StraightFlush(wheel), Err(Error::InvalidShape(wheel.to_vec())));
    let sf = [
        c(Face::Ace, Suit::Hearts),
        c(Face::Two, Suit::Hearts),
        c(Face::Three, Suit::Hearts),
        c(Face::Four, Suit::Hearts),
        c(Face::Five, Suit::Hearts),
    ];
    assert_eq!(Rank::StraightFlush(sf).unwrap().drop_StraightFlush(), sf);
    assert!(Rank::straight_flush_try_from(&sf).is_ok());
    assert!(Rank::straight_try_from(&sf[1..]).is_err());
}

#[test]
fn flush_and_house_rules() {
    let flush = [
        c(Face::Two, Suit::Hearts),
        c(Face::Five, Suit::Hearts),
        c(Face::Nine, Suit::Hearts),
        c(Face::Jack, Suit::Hearts),
        c(Face::King, Suit::Hearts),
    ];
    assert_eq!(Rank::Flush(flush).unwrap().drop_Flush(), flush);
    assert!(Rank::flush_try_from(&flush).is_ok());
    let unsorted = [flush[1], flush[0], flush[2], flush[3], flush[4]];
    assert_eq!(Rank::Flush(unsorted), Err(Error::UnsortedInput(unsorted.to_vec())));
    let mixed = [flush[0], flush[1], flush[2], flush[3], c(Face::Ace, Suit::Clubs)];
    assert_eq!(Rank::Flush(mixed), Err(Error::InvalidShape(mixed.to_vec())));

    let trips = [
        c(Face::Three, Suit::Clubs),
        c(Face::Three, Suit::Diamonds),
        c(Face::Three, Suit::Hearts),
    ];
    let pair = [c(Face::Seven, Suit::Hearts), c(Face::Seven, Suit::Spades)];
    let house = Rank::House(trips, pair).unwrap();
    assert_eq!(house.drop_House(), (trips, pair));
    assert!(Rank::house_try_from(&trips, &pair).is_ok());
    assert_eq!(
        Rank::house_try_from(&trips[1..], &pair),
        Err(Error::InsufficientCards { expected: 3, actual: 2 })
    );
    let same = [c(Face::Three, Suit::Clubs), c(Face::Three, Suit::Spades)];
    assert!(matches!(Rank::House(trips, same), Err(Error::InvalidShape(_))));
}

#[test]
fn categories_order_by_kind_then_ranks() {
    let pair_twos = Rank::Pair([c(Face::Two, Suit::Clubs), c(Face::Two, Suit::Hearts)]).unwrap();
    let pair_aces = Rank::Pair([c(Face::Ace, Suit::Clubs), c(Face::Ace, Suit::Hearts)]).unwrap();
    let high_ace = Rank::high_from(&c(Face::Ace, Suit::Spades));
    let high_king = Rank::high_from(&c(Face::King, Suit::Spades));
    assert_eq!(pair_twos.compare(&pair_twos), Ordering::Equal);
    assert_eq!(pair_twos.compare(&pair_aces), Ordering::Less);
    assert_eq!(pair_aces.compare(&pair_twos), Ordering::Greater);
    assert_eq!(high_ace.compare(&pair_twos), Ordering::Less);
    assert_eq!(high_ace.compare(&high_king), Ordering::Greater);

    let flush_a = Rank::Flush([
        c(Face::Two, Suit::Hearts),
        c(Face::Five, Suit::Hearts),
        c(Face::Nine, Suit::Hearts),
        c(Face::Jack, Suit::Hearts),
        c(Face::King, Suit::Hearts),
    ])
    .unwrap();
    let flush_b = Rank::Flush([
        c(Face::Three, Suit::Clubs),
        c(Face::Five, Suit::Clubs),
        c(Face::Nine, Suit::Clubs),
        c(Face::Jack, Suit::Clubs),
        c(Face::King, Suit::Clubs),
    ])
    .unwrap();
    // Flushes compare by their highest card alone.
    assert_eq!(flush_a.compare(&flush_b), Ordering::Equal);
    let flush_c = Rank::Flush([
        c(Face::Two, Suit::Spades),
        c(Face::Three, Suit::Spades),
        c(Face::Four, Suit::Spades),
        c(Face::Five, Suit::Spades),
        c(Face::Ace, Suit::Spades),
    ])
    .unwrap();
    assert_eq!(flush_a.compare(&flush_c), Ordering::Less);

    let tp_a = Rank::TwoPair(
        [c(Face::Three, Suit::Clubs), c(Face::Three, Suit::Hearts)],
        [c(Face::Nine, Suit::Diamonds), c(Face::Nine, Suit::Spades)],
    )
    .unwrap();
    let tp_b = Rank::TwoPair(
        [c(Face::Eight, Suit::Clubs), c(Face::Eight, Suit::Hearts)],
        [c(Face::Nine, Suit::Clubs), c(Face::Nine, Suit::Hearts)],
    )
    .unwrap();
    assert_eq!(tp_a.compare(&tp_b), Ordering::Less);
    assert_eq!(tp_b.compare(&pair_aces), Ordering::Greater);
}

#[test]
fn category_names() {
    let pair = Rank::Pair([c(Face::Two, Suit::Clubs), c(Face::Two, Suit::Hearts)]).unwrap();
    assert_eq!(pair.name(), "Pair");
    let royal = Rank::StraightFlush([
        c(Face::Ten, Suit::Spades),
        c(Face::Jack, Suit::Spades),
        c(Face::Queen, Suit::Spades),
        c(Face::King, Suit::Spades),
        c(Face::Ace, Suit::Spades),
    ])
    .unwrap();
    assert_eq!(royal.name(), "Royal flush");
    let sf = Rank::StraightFlush([
        c(Face::Nine, Suit::Spades),
        c(Face::Ten, Suit::Spades),
        c(Face::Jack, Suit::Spades),
        c(Face::Queen, Suit::Spades),
        c(Face::King, Suit::Spades),
    ])
    .unwrap();
    assert_eq!(sf.name(), "Straight flush");
    assert_eq!(Rank::high_from(&c(Face::Two, Suit::Clubs)).name(), "High card");
}

#[test]
fn random_categories_are_valid() {
    for _ in 0..1_000 {
        Rank::High([high_card()]).unwrap();
        Rank::Pair(pair_cards()).unwrap();
        let (a, b) = two_pairs_cards();
        Rank::TwoPair(a, b).unwrap();
        Rank::Trips(trips_cards()).unwrap();
        let s = straight_cards();
        Rank::Straight(s).unwrap();
        assert_eq!(classify(&s).unwrap().0.kind(), Kind::Straight);
        let f = flush_cards();
        Rank::Flush(f).unwrap();
        assert_eq!(classify(&f).unwrap().0.kind(), Kind::Flush);
        let (t, p) = house_cards();
        Rank::House(t, p).unwrap();
        Rank::Quads(quad_cards()).unwrap();
        Rank::Fives(five_cards()).unwrap();
    }
}
