//! Poker hand evaluation: cards, hand categories that can only be built
//! valid, the grouping engine, the best-hand selector and the total order
//! between categories and between hands.
//!
//! Cards may come from more than one deck: the same card may occur twice,
//! which is how five of a kind can be dealt. There are no wild cards.

pub mod card;
pub mod error;
pub mod order;
pub mod rank;
pub mod group;
pub mod select;
pub mod hand;
pub mod laws;
pub mod extra;
pub mod clump;
pub mod deck;
pub mod player;
pub mod table;
