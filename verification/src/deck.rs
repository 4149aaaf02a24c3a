use vstd::prelude::*;
use rand::rngs::StdRng;
use crate::types::{Card, Rank, Suit};
use crate::random::shuffle_cards;

verus! {

/// The suits in deck order.
pub open spec fn suit_of_index(i: int) -> Suit {
    if i == 0 {
        Suit::Hearts
    } else if i == 1 {
        Suit::Diamonds
    } else if i == 2 {
        Suit::Clubs
    } else {
        Suit::Spades
    }
}

/// Position of a suit in deck order.
pub open spec fn suit_index(s: Suit) -> int {
    match s {
        Suit::Hearts => 0,
        Suit::Diamonds => 1,
        Suit::Clubs => 2,
        Suit::Spades => 3,
    }
}

/// The ranks in deck order (Ace first).
pub open spec fn rank_of_index(i: int) -> Rank {
    if i == 0 {
        Rank::Ace
    } else if i == 1 {
        Rank::King
    } else if i == 2 {
        Rank::Queen
    } else if i == 3 {
        Rank::Jack
    } else if i == 4 {
        Rank::Ten
    } else if i == 5 {
        Rank::Nine
    } else if i == 6 {
        Rank::Eight
    } else {
        Rank::Seven
    }
}

/// Position of a rank in deck order.
pub open spec fn rank_index(r: Rank) -> int {
    match r {
        Rank::Ace => 0,
        Rank::King => 1,
        Rank::Queen => 2,
        Rank::Jack => 3,
        Rank::Ten => 4,
        Rank::Nine => 5,
        Rank::Eight => 6,
        Rank::Seven => 7,
    }
}

/// The unshuffled deck: for each suit in order, each rank in order.
pub open spec fn standard_deck() -> Seq<Card> {
    Seq::new(32, |i: int| Card { suit: suit_of_index(i / 8), rank: rank_of_index(i % 8) })
}

fn suit_at(i: usize) -> (s: Suit)
    requires
        i < 4,
    ensures
        s == suit_of_index(i as int),
{
    if i == 0 {
        Suit::Hearts
    } else if i == 1 {
        Suit::Diamonds
    } else if i == 2 {
        Suit::Clubs
    } else {
        Suit::Spades
    }
}

fn rank_at(i: usize) -> (r: Rank)
    requires
        i < 8,
    ensures
        r == rank_of_index(i as int),
{
    if i == 0 {
        Rank::Ace
    } else if i == 1 {
        Rank::King
    } else if i == 2 {
        Rank::Queen
    } else if i == 3 {
        Rank::Jack
    } else if i == 4 {
        Rank::Ten
    } else if i == 5 {
        Rank::Nine
    } else if i == 6 {
        Rank::Eight
    } else {
        Rank::Seven
    }
}

/// Build the 32-card Omi deck (Seven to Ace in each of the four suits).
pub fn generate_deck() -> (deck: Vec<Card>)
    ensures
        deck@ == standard_deck(),
{
    let mut deck: Vec<Card> = Vec::with_capacity(32);
    let mut k: usize = 0;
    while k < 32
        invariant
            k <= 32,
            deck@ =~= standard_deck().take(k as int),
        decreases 32 - k,
    {
        let card = Card { suit: suit_at(k / 8), rank: rank_at(k % 8) };
        deck.push(card);
        k = k + 1;
        assert(deck@ =~= standard_deck().take(k as int));
    }
    deck
}

/// Every card of the standard deck sits at the position given by its suit and rank.
pub proof fn lemma_standard_deck_position(c: Card)
    ensures
        standard_deck()[suit_index(c.suit) * 8 + rank_index(c.rank)] == c,
        0 <= suit_index(c.suit) * 8 + rank_index(c.rank) < 32,
{
    let i = suit_index(c.suit) * 8 + rank_index(c.rank);
    assert(i / 8 == suit_index(c.suit) && i % 8 == rank_index(c.rank));
}

/// The standard deck holds every one of the 32 cards exactly once.
pub proof fn lemma_standard_deck_complete()
    ensures
        standard_deck().len() == 32,
        forall|c: Card| #[trigger] standard_deck().contains(c),
        forall|i: int, j: int|
            0 <= i < j < 32 ==> #[trigger] standard_deck()[i] != #[trigger] standard_deck()[j],
{
    assert forall|c: Card| #[trigger] standard_deck().contains(c) by {
        lemma_standard_deck_position(c);
    }
    assert forall|i: int, j: int| 0 <= i < j < 32 implies #[trigger] standard_deck()[i]
        != #[trigger] standard_deck()[j] by {
        let a = standard_deck()[i];
        let b = standard_deck()[j];
        assert(suit_index(a.suit) == i / 8 && rank_index(a.rank) == i % 8);
        assert(suit_index(b.suit) == j / 8 && rank_index(b.rank) == j % 8);
    }
}

/// Shuffle the deck in place with the given generator.
pub fn shuffle_deck(deck: &mut Vec<Card>, rng: &mut StdRng)
    ensures
        final(deck)@.len() == old(deck)@.len(),
        final(deck)@.to_multiset() == old(deck)@.to_multiset(),
{
    shuffle_cards(deck, rng);
}

/// Number of cards a deal of `count` takes from a deck of `len` cards.
pub open spec fn dealt_count(count: usize, len: nat) -> int {
    if count < len { count as int } else { len as int }
}

/// Take up to `count` cards from the top (front) of the deck.
pub fn deal_cards(deck: &mut Vec<Card>, count: usize) -> (dealt: Vec<Card>)
    ensures
        dealt@ == old(deck)@.take(dealt_count(count, old(deck)@.len())),
        final(deck)@ == old(deck)@.skip(dealt_count(count, old(deck)@.len())),
        dealt@ + final(deck)@ == old(deck)@,
{
    let n: usize = if count < deck.len() { count } else { deck.len() };
    let mut dealt: Vec<Card> = Vec::new();
    let mut rest: Vec<Card> = Vec::new();
    let mut i: usize = 0;
    while i < deck.len()
        invariant
            0 <= i <= deck.len(),
            n <= deck.len(),
            dealt@ =~= deck@.take(if i < n { i as int } else { n as int }),
            rest@ =~= deck@.subrange(n as int, if i < n { n as int } else { i as int }),
        decreases deck.len() - i,
    {
        if i < n {
            dealt.push(deck[i]);
        } else {
            rest.push(deck[i]);
        }
        i = i + 1;
    }
    *deck = rest;
    assert(dealt@ + deck@ =~= old(deck)@);
    dealt
}

} // verus!
