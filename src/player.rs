//! A player: chips, the bet so far and, once dealt, a hand.

use vstd::prelude::*;
use crate::card::Card;
use crate::error::Error;
use crate::hand::{best, Hand};

verus! {

/// A player at the table.
#[derive(Debug)]
pub struct Player {
    /// Chips the player still has.
    pub pot: u32,
    /// Chips the player has bet in this deal.
    pub tot_bet: u32,
    hand: Option<Hand>,
}

#[derive(Debug)]
enum ActionInner {
    Fold(Vec<Card>),
    /// Checks, calls or raises by the given amount.
    Call(u32),
}

/// What a player does in a betting round.
#[derive(Debug)]
pub struct Action(ActionInner);

impl Action {
    /// The cards given up by a fold; `None` for a call.
    pub closed spec fn folded(self) -> Option<Seq<Card>> {
        match self.0 {
            ActionInner::Fold(c) => Some(c@),
            ActionInner::Call(_) => None,
        }
    }

    /// The chips put in by a call; `None` for a fold.
    pub closed spec fn called(self) -> Option<u32> {
        match self.0 {
            ActionInner::Fold(_) => None,
            ActionInner::Call(b) => Some(b),
        }
    }

    /// The player folds, giving up the hand's private cards.
    pub fn folding(player: &mut Player) -> (a: Action)
        ensures
            a.called() is None,
            a.folded() == Some(
                match old(player).hand() {
                    Some(h) => h.held(),
                    None => Seq::<Card>::empty(),
                },
            ),
            final(player).hand() is None,
            final(player).chips() == old(player).chips(),
            final(player).bet_so_far() == old(player).bet_so_far(),
    {
        Action(ActionInner::Fold(player.discard()))
    }

    /// The player calls (or checks, or raises) with `bet` chips, at most
    /// what the player has left, which leaves the player's chips.
    pub fn calling(player: &mut Player, bet: u32) -> (a: Action)
        ensures
            a.folded() is None,
            a.called() == Some(if bet <= old(player).chips() { bet } else { old(player).chips() }),
            final(player).chips() == old(player).chips() - a.called()->Some_0,
            final(player).bet_so_far() == old(player).bet_so_far(),
            final(player).hand() == old(player).hand(),
    {
        let bet = if bet <= player.pot {
            bet
        } else {
            player.pot
        };
        player.pot = player.pot - bet;
        Action(ActionInner::Call(bet))
    }

    /// The chips put in by a call; `None` for a fold.
    pub fn bet(&self) -> (r: Option<u32>)
        ensures
            r == self.called(),
    {
        match &self.0 {
            ActionInner::Fold(_) => None,
            ActionInner::Call(b) => Some(*b),
        }
    }
}

impl Player {
    /// The chips the player still has.
    pub closed spec fn chips(self) -> u32 {
        self.pot
    }

    /// The chips the player has bet in this deal.
    pub closed spec fn bet_so_far(self) -> u32 {
        self.tot_bet
    }

    /// The player's hand, if dealt.
    pub closed spec fn hand(self) -> Option<Hand> {
        self.hand
    }

    /// A player with `pot` chips, nothing bet and no hand.
    pub fn new(pot: u32) -> (p: Player)
        ensures
            p.chips() == pot,
            p.bet_so_far() == 0,
            p.hand() is None,
    {
        Player { pot, tot_bet: 0, hand: None }
    }

    /// Takes the dealt `cards` as the player's hand, classified at once.
    /// Fails, leaving the player without a hand, on no cards.
    pub fn take(&mut self, cards: Vec<Card>) -> (r: Result<(), Error>)
        requires
            old(self).hand() is None,
        ensures
            cards@.len() == 0 ==> r == Err::<(), Error>(Error::EmptyInput) && final(self).hand() is None,
            cards@.len() > 0 ==> r is Ok && final(self).hand() is Some && final(self).hand()->Some_0.held()
                == cards@ && final(self).hand()->Some_0.category()@ == best(cards@),
            final(self).chips() == old(self).chips(),
            final(self).bet_so_far() == old(self).bet_so_far(),
    {
        match Hand::new(cards) {
            Ok(h) => {
                self.hand = Some(h);
                Ok(())
            },
            Err(e) => Err(e),
        }
    }

    /// Gives up the hand, handing back its private cards; no cards when
    /// there was no hand.
    pub fn discard(&mut self) -> (v: Vec<Card>)
        ensures
            v@ == match old(self).hand() {
                Some(h) => h.held(),
                None => Seq::<Card>::empty(),
            },
            final(self).hand() is None,
            final(self).chips() == old(self).chips(),
            final(self).bet_so_far() == old(self).bet_so_far(),
    {
        match self.hand.take() {
            Some(h) => h.discard(),
            None => Vec::new(),
        }
    }

    /// How many private cards the player holds.
    pub fn hand_len(&self) -> (n: usize)
        ensures
            n == match self.hand() {
                Some(h) => h.held().len(),
                None => 0,
            },
    {
        match &self.hand {
            Some(h) => h.len(),
            None => 0,
        }
    }

    /// Whether the player has no hand.
    pub fn hand_is_none(&self) -> (b: bool)
        ensures
            b == self.hand() is None,
    {
        self.hand.is_none()
    }
}

} // verus!
