use aces_high::card::{Card, Rank, Suit};
use aces_high::clump::Clump;

#[test]
fn clump_test() {
    let cards = vec![
        Card::new(Rank::Ace, Suit::Spades),
        Card::new(Rank::Ace, Suit::Spades),
        Card::new(Rank::Two, Suit::Spades),
        Card::new(Rank::Ace, Suit::Spades),
        Card::new(Rank::Five, Suit::Spades),
        Card::new(Rank::Ace, Suit::Spades),
        Card::new(Rank::Ace, Suit::Spades),
    ];

    let mut clump = Clump::new(|a: &Card, b: &Card| a.rank == b.rank);
    for card in cards {
        clump.push(card);
    }

    println!("{:?}", clump.elems);
}

#[test]
fn clump_refuses_what_fails_the_check() {
    let mut clump = Clump::new(|a: &u32, b: &u32| a > b);
    assert!(clump.push(1));
    assert!(clump.push(3));
    assert!(!clump.push(2));
    assert!(clump.push(4));
    assert_eq!(clump.elems, vec![vec![1, 3, 4]]);
}
