use aces_high::card::{Card, Rank, Suit};
use aces_high::deck::Deck;

#[test]
fn deck_test() {
    let cards = [
        Card::new(Rank::Ace, Suit::Spades),
        Card::new(Rank::King, Suit::Hearts),
    ];
    let deck = Deck::new_custom(&cards);
    println!("{:?}", Card::new(Rank::Ace, Suit::Spades));
    println!("CARD:  {:X}", u8::from(cards[0]));
    println!("{:?}", deck);
    println!("{:X}", u8::from(cards[1]));
}

#[test]
fn custom_deck_draws_its_last_card_first() {
    let mut deck = Deck::new_custom(&[
        Card::new(Rank::King, Suit::Hearts),
        Card::new(Rank::Ace, Suit::Spades),
    ]);
    assert_eq!(deck.draw(), Some(Card::new(Rank::Ace, Suit::Spades)));
    assert_eq!(deck.len(), 1);
    deck.discard();
    assert!(deck.is_empty());
    assert_eq!(deck.draw(), None);
}

#[test]
fn deal_takes_from_the_top_or_nothing() {
    let mut deck = Deck::new_sorted();
    assert_eq!(deck.len(), 52);
    let cards = deck.deal(3).unwrap();
    assert_eq!(
        cards,
        vec![
            Card::new(Rank::Ace, Suit::Spades),
            Card::new(Rank::Ace, Suit::Hearts),
            Card::new(Rank::Ace, Suit::Diamonds),
        ]
    );
    assert_eq!(deck.len(), 49);
    assert_eq!(deck.deal(50), None);
    assert_eq!(deck.len(), 49);
    assert_eq!(deck.deal(0), Some(vec![]));
}

#[test]
fn sorted_deck_is_sorted_and_complete() {
    let mut deck = Deck::new_sorted();
    let mut cards = Vec::new();
    while let Some(c) = deck.draw() {
        cards.push(c);
    }
    cards.reverse();
    assert_eq!(cards.len(), 52);
    for w in cards.windows(2) {
        assert!(w[0] < w[1]);
    }
    assert_eq!(cards[0], Card::new(Rank::Two, Suit::Clubs));
}

#[test]
fn shuffled_deck_holds_the_same_cards_in_another_order() {
    let mut sorted = Deck::new_sorted();
    let mut shuffled = Deck::new_shuffled();
    let mut a = Vec::new();
    let mut b = Vec::new();
    while let Some(c) = sorted.draw() {
        a.push(c);
    }
    while let Some(c) = shuffled.draw() {
        b.push(c);
    }
    assert_ne!(a, b);
    b.sort();
    a.sort();
    assert_eq!(a, b);
    assert_eq!(Deck::default().len(), 52);
}
