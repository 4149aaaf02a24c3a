use vstd::prelude::*;

verus! {

/// The four suits of the deck.
#[derive(Clone, Copy, Debug, PartialEq, Eq, Hash, Structural)]
pub enum Suit {
    Hearts,
    Diamonds,
    Clubs,
    Spades,
}

/// The eight ranks used in Omi (Seven up to Ace).
#[derive(Clone, Copy, Debug, PartialEq, Eq, Hash, Structural)]
pub enum Rank {
    Ace,
    King,
    Queen,
    Jack,
    Ten,
    Nine,
    Eight,
    Seven,
}

impl Rank {
    /// Strength of a rank: Seven is 0, Ace is 7.
    pub open spec fn spec_value(self) -> u8 {
        match self {
            Rank::Ace => 7,
            Rank::King => 6,
            Rank::Queen => 5,
            Rank::Jack => 4,
            Rank::Ten => 3,
            Rank::Nine => 2,
            Rank::Eight => 1,
            Rank::Seven => 0,
        }
    }

    /// Numeric strength of the rank (Ace highest).
    pub fn value(self) -> (v: u8)
        ensures
            v == self.spec_value(),
            v <= 7,
    {
        match self {
            Rank::Ace => 7,
            Rank::King => 6,
            Rank::Queen => 5,
            Rank::Jack => 4,
            Rank::Ten => 3,
            Rank::Nine => 2,
            Rank::Eight => 1,
            Rank::Seven => 0,
        }
    }
}

/// A playing card.
#[derive(Clone, Copy, Debug, PartialEq, Eq, Structural)]
pub struct Card {
    pub suit: Suit,
    pub rank: Rank,
}

/// Phase of a room's game.
#[derive(Clone, Copy, Debug, PartialEq, Eq, Structural)]
pub enum GameStatus {
    WaitingForPlayers,
    WaitingForDeal,
    WaitingForTrump,
    Playing,
    RoundEnd,
    GameOver,
}

/// Whether a room is played by four people or one person and three bots.
#[derive(Clone, Copy, Debug, PartialEq, Eq, Structural)]
pub enum RoomMode {
    Multiplayer,
    SinglePlayer,
}

/// One card played into a trick, with the player who played it.
#[derive(Clone, Copy, Debug, PartialEq, Eq, Structural)]
pub struct Play {
    pub player_id: u64,
    pub card: Card,
}

} // verus!
