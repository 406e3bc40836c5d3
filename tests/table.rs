use aces_high::card::{Card, Rank, Suit};
use aces_high::deck::Deck;
use aces_high::player::{Action, Player};
use aces_high::table::Table;

#[test]
fn players_take_fold_and_call() {
    let mut player = Player::new(100);
    assert!(player.hand_is_none());
    assert_eq!(player.hand_len(), 0);
    player
        .take(vec![Card::new(Rank::Ace, Suit::Spades), Card::new(Rank::Ace, Suit::Clubs)])
        .unwrap();
    assert_eq!(player.hand_len(), 2);
    let call = Action::calling(&mut player, 30);
    assert_eq!(call.bet(), Some(30));
    assert_eq!(player.pot, 70);
    let all_in = Action::calling(&mut player, 500);
    assert_eq!(all_in.bet(), Some(70));
    assert_eq!(player.pot, 0);
    let fold = Action::folding(&mut player);
    assert_eq!(fold.bet(), None);
    assert!(player.hand_is_none());
    assert!(player.discard().is_empty());
}

#[test]
fn table_deals_to_each_player_in_turn() {
    let deck = Deck::new_sorted();
    let mut table = Table::new(deck, vec![Player::new(10), Player::new(20)]);
    table.deal(2);
    let mut other = Table::default();
    other.deal(3);
}
