use aces_high::card::{Card, Circular, Rank, Suit};

#[test]
fn card_check_build() {
    let card0 = Card {
        rank: Rank::Eight,
        suit: Suit::Diamonds,
    };

    let card1 = Card::new(Rank::Ace, Suit::Spades);

    assert_ne!(card0, card1);

    let i: u8 = card1.into();

    println!("{:#X}", i);
    println!("{:?}", card1);
}

#[test]
fn test_check_build() {
    let card0 = Card {
        rank: Rank::Eight,
        suit: Suit::Diamonds,
    };

    let card1 = Card::new(Rank::Ace, Suit::Spades);

    assert_ne!(card0, card1);

    let i: u8 = card1.into();

    println!("{:#X}", i);
}

#[test]
fn card_byte_holds_rank_and_suit() {
    assert_eq!(u8::from(Card::new(Rank::Ace, Suit::Spades)), 0xC3);
    assert_eq!(u8::from(Card::new(Rank::Two, Suit::Clubs)), 0x00);
    assert_eq!(u8::from(Card::new(Rank::Eight, Suit::Diamonds)), 0x61);
}

#[test]
fn ranks_step_round_the_circle() {
    let mut r = Rank::King;
    assert_eq!(r.next(), Rank::Ace);
    assert_eq!(r.next(), Rank::Two);
    assert_eq!(r.last(), Rank::Ace);
    let mut t = Rank::Two;
    assert_eq!(t.step_by(-14), Rank::Ace);
    assert_eq!(t.step_by(27), Rank::Two);
    assert_eq!(Rank::count(), 13);
    assert_eq!(Rank::Queen.step(2), Rank::Ace);
}

#[test]
fn suits_step_round_the_circle() {
    let mut s = Suit::Spades;
    assert_eq!(s.next(), Suit::Clubs);
    assert_eq!(s.last(), Suit::Spades);
    assert_eq!(s.step_by(-5), Suit::Hearts);
    assert_eq!(Suit::count(), 4);
    assert_eq!(Suit::Clubs.step(-1), Suit::Spades);
}

#[test]
fn card_order_is_by_rank_then_suit() {
    assert!(Card::new(Rank::Ace, Suit::Clubs) > Card::new(Rank::King, Suit::Spades));
    assert!(Card::new(Rank::Two, Suit::Spades) > Card::new(Rank::Two, Suit::Hearts));
}

#[test]
fn random_cards_vary() {
    let first = Card::random();
    let mut differs = false;
    for _ in 0..200 {
        if Card::random() != first {
            differs = true;
        }
    }
    assert!(differs);
}
