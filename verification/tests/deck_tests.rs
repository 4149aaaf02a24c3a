use omi_game::deck::{deal_cards, generate_deck, shuffle_deck};
use rand::rngs::StdRng;
use rand::SeedableRng;
use omi_game::types::{Card, Rank, Suit};

fn key(c: &Card) -> (u8, u8) {
    let s = match c.suit {
        Suit::Hearts => 0,
        Suit::Diamonds => 1,
        Suit::Clubs => 2,
        Suit::Spades => 3,
    };
    (s, c.rank.value())
}

#[test]
fn generate_deck_has_32_distinct_cards_in_order() {
    let deck = generate_deck();
    assert_eq!(deck.len(), 32);
    assert_eq!(deck[0], Card { suit: Suit::Hearts, rank: Rank::Ace });
    assert_eq!(deck[7], Card { suit: Suit::Hearts, rank: Rank::Seven });
    assert_eq!(deck[8], Card { suit: Suit::Diamonds, rank: Rank::Ace });
    assert_eq!(deck[31], Card { suit: Suit::Spades, rank: Rank::Seven });
    let mut keys: Vec<(u8, u8)> = deck.iter().map(key).collect();
    keys.sort();
    keys.dedup();
    assert_eq!(keys.len(), 32);
}

#[test]
fn shuffle_deck_keeps_the_cards_and_changes_the_order() {
    let fresh = generate_deck();
    let mut deck = generate_deck();
    let mut rng = StdRng::seed_from_u64(42);
    shuffle_deck(&mut deck, &mut rng);
    assert_eq!(deck.len(), 32);
    assert_ne!(deck, fresh);
    let mut a: Vec<(u8, u8)> = deck.iter().map(key).collect();
    let mut b: Vec<(u8, u8)> = fresh.iter().map(key).collect();
    a.sort();
    b.sort();
    assert_eq!(a, b);
}

#[test]
fn shuffle_deck_is_deterministic_for_a_seed() {
    let mut d1 = generate_deck();
    let mut d2 = generate_deck();
    shuffle_deck(&mut d1, &mut StdRng::seed_from_u64(7));
    shuffle_deck(&mut d2, &mut StdRng::seed_from_u64(7));
    assert_eq!(d1, d2);
}

#[test]
fn deal_cards_takes_from_the_top() {
    let mut deck = generate_deck();
    let dealt = deal_cards(&mut deck, 4);
    assert_eq!(dealt, generate_deck()[..4].to_vec());
    assert_eq!(deck, generate_deck()[4..].to_vec());
    assert_eq!(deck.len(), 28);
}

#[test]
fn deal_cards_stops_at_an_empty_deck() {
    let mut deck = generate_deck()[..3].to_vec();
    let dealt = deal_cards(&mut deck, 100);
    assert_eq!(dealt.len(), 3);
    assert!(deck.is_empty());
    let none = deal_cards(&mut deck, 4);
    assert!(none.is_empty());
}

#[test]
fn deal_cards_of_zero_takes_nothing() {
    let mut deck = generate_deck();
    let dealt = deal_cards(&mut deck, 0);
    assert!(dealt.is_empty());
    assert_eq!(deck.len(), 32);
}

#[test]
fn rank_values_order_seven_to_ace() {
    assert_eq!(Rank::Ace.value(), 7);
    assert_eq!(Rank::King.value(), 6);
    assert_eq!(Rank::Queen.value(), 5);
    assert_eq!(Rank::Jack.value(), 4);
    assert_eq!(Rank::Ten.value(), 3);
    assert_eq!(Rank::Nine.value(), 2);
    assert_eq!(Rank::Eight.value(), 1);
    assert_eq!(Rank::Seven.value(), 0);
}
