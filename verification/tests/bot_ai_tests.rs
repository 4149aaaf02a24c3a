use omi_game::bot_ai::{decide_card, decide_card_for_draws, find_current_winner, legal_card_list, select_trump};
use omi_game::game_logic::{beats, is_valid_play, resolve_hand_winner};
use rand::rngs::StdRng;
use rand::SeedableRng;
use omi_game::types::{Card, Play, Rank, Suit};

fn c(suit: Suit, rank: Rank) -> Card {
    Card { suit, rank }
}

fn p(player_id: u64, suit: Suit, rank: Rank) -> Play {
    Play { player_id, card: c(suit, rank) }
}

fn hard(hand: &[Card], plays: &[Play], trump: Suit, teammate: Option<u64>) -> Card {
    decide_card(hand, plays, trump, teammate, 2, &mut StdRng::seed_from_u64(1))
}

#[test]
fn select_trump_prefers_the_longest_suit() {
    let cards = [c(Suit::Hearts, Rank::Seven), c(Suit::Diamonds, Rank::King), c(Suit::Diamonds, Rank::Nine), c(Suit::Clubs, Rank::Ace)];
    assert_eq!(select_trump(&cards), Suit::Diamonds);
    let cards = [c(Suit::Spades, Rank::Seven), c(Suit::Spades, Rank::Eight), c(Suit::Spades, Rank::Nine), c(Suit::Hearts, Rank::Ace)];
    assert_eq!(select_trump(&cards), Suit::Spades);
}

#[test]
fn select_trump_breaks_ties_by_top_card() {
    let cards = [c(Suit::Hearts, Rank::King), c(Suit::Diamonds, Rank::Ace)];
    assert_eq!(select_trump(&cards), Suit::Diamonds);
}

#[test]
fn select_trump_breaks_full_ties_by_suit_order() {
    let cards = [c(Suit::Clubs, Rank::King), c(Suit::Diamonds, Rank::King)];
    assert_eq!(select_trump(&cards), Suit::Diamonds);
    assert_eq!(select_trump(&[]), Suit::Hearts);
}

#[test]
fn leads_a_non_trump_ace() {
    let hand = [c(Suit::Hearts, Rank::Ace), c(Suit::Clubs, Rank::Seven), c(Suit::Clubs, Rank::Ace), c(Suit::Diamonds, Rank::King)];
    assert_eq!(hard(&hand, &[], Suit::Hearts, None), c(Suit::Clubs, Rank::Ace));
}

#[test]
fn leads_a_non_trump_singleton() {
    let hand = [c(Suit::Hearts, Rank::Ace), c(Suit::Clubs, Rank::Seven), c(Suit::Clubs, Rank::Nine), c(Suit::Diamonds, Rank::King)];
    assert_eq!(hard(&hand, &[], Suit::Hearts, None), c(Suit::Diamonds, Rank::King));
}

#[test]
fn leads_the_lowest_non_trump() {
    let hand = [
        c(Suit::Hearts, Rank::Ace),
        c(Suit::Clubs, Rank::Nine),
        c(Suit::Clubs, Rank::Seven),
        c(Suit::Diamonds, Rank::King),
        c(Suit::Diamonds, Rank::Eight),
    ];
    assert_eq!(hard(&hand, &[], Suit::Hearts, None), c(Suit::Clubs, Rank::Seven));
}

#[test]
fn leads_the_trump_ace_with_only_trumps() {
    let hand = [c(Suit::Hearts, Rank::King), c(Suit::Hearts, Rank::Ace), c(Suit::Hearts, Rank::Nine)];
    assert_eq!(hard(&hand, &[], Suit::Hearts, None), c(Suit::Hearts, Rank::Ace));
}

#[test]
fn leads_the_lowest_trump_with_only_trumps() {
    let hand = [c(Suit::Hearts, Rank::King), c(Suit::Hearts, Rank::Nine), c(Suit::Hearts, Rank::Jack)];
    assert_eq!(hard(&hand, &[], Suit::Hearts, None), c(Suit::Hearts, Rank::Nine));
}

#[test]
fn follows_with_the_ace_when_not_last() {
    let plays = [p(10, Suit::Clubs, Rank::King)];
    let hand = [c(Suit::Clubs, Rank::Nine), c(Suit::Clubs, Rank::Ace), c(Suit::Diamonds, Rank::Seven)];
    assert_eq!(hard(&hand, &plays, Suit::Hearts, None), c(Suit::Clubs, Rank::Ace));
}

#[test]
fn follows_low_when_not_last_without_the_ace() {
    let plays = [p(10, Suit::Clubs, Rank::King)];
    let hand = [c(Suit::Clubs, Rank::Nine), c(Suit::Clubs, Rank::Eight), c(Suit::Diamonds, Rank::Seven)];
    assert_eq!(hard(&hand, &plays, Suit::Hearts, None), c(Suit::Clubs, Rank::Eight));
}

#[test]
fn last_player_plays_low_when_partner_wins() {
    let plays = [p(10, Suit::Clubs, Rank::Nine), p(20, Suit::Clubs, Rank::King), p(30, Suit::Clubs, Rank::Jack)];
    let hand = [c(Suit::Clubs, Rank::Ace), c(Suit::Clubs, Rank::Eight)];
    assert_eq!(hard(&hand, &plays, Suit::Hearts, Some(20)), c(Suit::Clubs, Rank::Eight));
}

#[test]
fn last_player_plays_low_after_a_trump() {
    let plays = [p(10, Suit::Clubs, Rank::Nine), p(20, Suit::Hearts, Rank::Seven), p(30, Suit::Clubs, Rank::Jack)];
    let hand = [c(Suit::Clubs, Rank::Ace), c(Suit::Clubs, Rank::Eight)];
    assert_eq!(hard(&hand, &plays, Suit::Hearts, Some(40)), c(Suit::Clubs, Rank::Eight));
}

#[test]
fn last_player_beats_the_highest_card_cheaply() {
    let plays = [p(10, Suit::Clubs, Rank::Nine), p(20, Suit::Clubs, Rank::Queen), p(30, Suit::Clubs, Rank::Jack)];
    let hand = [c(Suit::Clubs, Rank::Ace), c(Suit::Clubs, Rank::King), c(Suit::Clubs, Rank::Eight)];
    assert_eq!(hard(&hand, &plays, Suit::Hearts, Some(10)), c(Suit::Clubs, Rank::King));
}

#[test]
fn last_player_plays_low_when_it_cannot_win() {
    let plays = [p(10, Suit::Clubs, Rank::Nine), p(20, Suit::Clubs, Rank::Ace), p(30, Suit::Clubs, Rank::Jack)];
    let hand = [c(Suit::Clubs, Rank::King), c(Suit::Clubs, Rank::Eight)];
    assert_eq!(hard(&hand, &plays, Suit::Hearts, Some(10)), c(Suit::Clubs, Rank::Eight));
}

#[test]
fn void_without_trumps_discards_a_singleton() {
    let plays = [p(1, Suit::Clubs, Rank::Nine)];
    let hand = [c(Suit::Spades, Rank::King), c(Suit::Diamonds, Rank::Seven), c(Suit::Spades, Rank::Nine)];
    assert_eq!(hard(&hand, &plays, Suit::Hearts, None), c(Suit::Diamonds, Rank::Seven));
}

#[test]
fn void_without_trumps_or_singletons_discards_lowest() {
    let plays = [p(1, Suit::Clubs, Rank::Nine)];
    let hand = [c(Suit::Diamonds, Rank::King), c(Suit::Diamonds, Rank::Eight), c(Suit::Spades, Rank::Nine), c(Suit::Spades, Rank::Seven)];
    assert_eq!(hard(&hand, &plays, Suit::Hearts, None), c(Suit::Spades, Rank::Seven));
}

#[test]
fn void_overtrumps_with_the_smallest_higher_trump() {
    let plays = [p(1, Suit::Clubs, Rank::Nine), p(2, Suit::Hearts, Rank::Ten)];
    let hand = [c(Suit::Hearts, Rank::Ace), c(Suit::Hearts, Rank::Queen), c(Suit::Diamonds, Rank::Seven)];
    assert_eq!(hard(&hand, &plays, Suit::Hearts, None), c(Suit::Hearts, Rank::Queen));
}

#[test]
fn void_discards_when_it_cannot_overtrump() {
    let plays = [p(1, Suit::Clubs, Rank::Nine), p(2, Suit::Hearts, Rank::Ace)];
    let hand = [c(Suit::Hearts, Rank::Queen), c(Suit::Diamonds, Rank::Nine), c(Suit::Diamonds, Rank::Eight)];
    assert_eq!(hard(&hand, &plays, Suit::Hearts, None), c(Suit::Diamonds, Rank::Eight));
}

#[test]
fn void_with_only_trumps_plays_lowest_trump_when_beaten() {
    let plays = [p(1, Suit::Clubs, Rank::Nine), p(2, Suit::Hearts, Rank::Ace)];
    let hand = [c(Suit::Hearts, Rank::Queen), c(Suit::Hearts, Rank::Eight)];
    assert_eq!(hard(&hand, &plays, Suit::Hearts, None), c(Suit::Hearts, Rank::Eight));
}

#[test]
fn void_cuts_with_the_lowest_trump() {
    let plays = [p(1, Suit::Clubs, Rank::Nine)];
    let hand = [c(Suit::Hearts, Rank::Queen), c(Suit::Hearts, Rank::Eight), c(Suit::Diamonds, Rank::Seven)];
    assert_eq!(hard(&hand, &plays, Suit::Hearts, None), c(Suit::Hearts, Rank::Eight));
}

#[test]
fn easy_bot_always_plays_a_legal_card() {
    let plays = [p(1, Suit::Clubs, Rank::Nine)];
    let hand = [c(Suit::Clubs, Rank::Queen), c(Suit::Clubs, Rank::Eight), c(Suit::Diamonds, Rank::Seven), c(Suit::Hearts, Rank::Ace)];
    let mut seen_other = false;
    for seed in 0..300u64 {
        let mut rng = StdRng::seed_from_u64(seed);
        let card = decide_card(&hand, &plays, Suit::Hearts, None, 0, &mut rng);
        assert!(is_valid_play(card, &hand, Some(Suit::Clubs)));
        if card != c(Suit::Clubs, Rank::Eight) {
            seen_other = true;
        }
    }
    // The strategy plays the Eight; a random play sometimes picks the Queen.
    assert!(seen_other);
}

#[test]
fn easy_bot_leads_any_card_of_its_hand() {
    let hand = [c(Suit::Clubs, Rank::Queen), c(Suit::Diamonds, Rank::Seven), c(Suit::Hearts, Rank::Ace)];
    for seed in 0..100u64 {
        let card = decide_card(&hand, &[], Suit::Hearts, None, 0, &mut StdRng::seed_from_u64(seed));
        assert!(hand.contains(&card));
    }
}

#[test]
fn a_roll_at_or_above_the_chance_plays_the_strategy_card() {
    let plays = [p(1, Suit::Clubs, Rank::Nine)];
    let hand = [c(Suit::Clubs, Rank::Queen), c(Suit::Clubs, Rank::Eight), c(Suit::Hearts, Rank::Ace)];
    let strategy = c(Suit::Clubs, Rank::Eight);
    assert_eq!(decide_card_for_draws(&hand, &plays, Suit::Hearts, None, 1, 10, 0), strategy);
    assert_eq!(decide_card_for_draws(&hand, &plays, Suit::Hearts, None, 0, 40, 7), strategy);
    assert_eq!(decide_card_for_draws(&hand, &plays, Suit::Hearts, None, 2, 0, 0), strategy);
}

#[test]
fn a_roll_below_the_chance_plays_the_picked_legal_card() {
    let plays = [p(1, Suit::Clubs, Rank::Nine)];
    let hand = [c(Suit::Clubs, Rank::Queen), c(Suit::Hearts, Rank::Ace), c(Suit::Clubs, Rank::Eight)];
    assert_eq!(decide_card_for_draws(&hand, &plays, Suit::Hearts, None, 1, 9, 0), c(Suit::Clubs, Rank::Queen));
    assert_eq!(decide_card_for_draws(&hand, &plays, Suit::Hearts, None, 1, 9, 1), c(Suit::Clubs, Rank::Eight));
    assert_eq!(decide_card_for_draws(&hand, &plays, Suit::Hearts, None, 0, 39, 1), c(Suit::Clubs, Rank::Eight));
    // Leading: every card of the hand is legal, in hand order.
    assert_eq!(decide_card_for_draws(&hand, &[], Suit::Hearts, None, 0, 0, 1), c(Suit::Hearts, Rank::Ace));
}

#[test]
fn legal_cards_follow_the_led_suit_when_possible() {
    let hand = [c(Suit::Clubs, Rank::Queen), c(Suit::Hearts, Rank::Ace), c(Suit::Clubs, Rank::Eight)];
    assert_eq!(legal_card_list(&hand, &[]), hand.to_vec());
    assert_eq!(
        legal_card_list(&hand, &[p(1, Suit::Clubs, Rank::Nine)]),
        vec![c(Suit::Clubs, Rank::Queen), c(Suit::Clubs, Rank::Eight)]
    );
    assert_eq!(legal_card_list(&hand, &[p(1, Suit::Spades, Rank::Nine)]), hand.to_vec());
}

#[test]
fn trump_choice_ignores_the_order_of_the_cards() {
    let a = [c(Suit::Hearts, Rank::King), c(Suit::Spades, Rank::Ace), c(Suit::Hearts, Rank::Seven), c(Suit::Spades, Rank::Nine)];
    let b = [a[3], a[1], a[0], a[2]];
    assert_eq!(select_trump(&a), select_trump(&b));
    assert_eq!(select_trump(&a), Suit::Spades);
}

#[test]
fn the_current_winner_is_the_hand_winner() {
    let plays = [p(1, Suit::Clubs, Rank::Nine), p(2, Suit::Hearts, Rank::Seven), p(3, Suit::Clubs, Rank::Ace)];
    let w = find_current_winner(&plays, Suit::Clubs, Suit::Hearts).unwrap();
    assert_eq!(w, plays[1]);
    assert_eq!(Some(w.player_id), resolve_hand_winner(&plays, Suit::Hearts));
    assert_eq!(find_current_winner(&[], Suit::Clubs, Suit::Hearts), None);
}

#[test]
fn beats_is_strict_and_trump_beats_the_rest() {
    let ace_c = c(Suit::Clubs, Rank::Ace);
    let seven_h = c(Suit::Hearts, Rank::Seven);
    assert!(beats(seven_h, ace_c, Suit::Clubs, Suit::Hearts));
    assert!(!beats(ace_c, seven_h, Suit::Clubs, Suit::Hearts));
    assert!(!beats(ace_c, ace_c, Suit::Clubs, Suit::Hearts));
}
