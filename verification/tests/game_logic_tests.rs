use omi_game::game_logic::{calculate_round_score, is_valid_play, resolve_hand_winner, RoundResult};
use omi_game::types::{Card, Play, Rank, Suit};

fn c(suit: Suit, rank: Rank) -> Card {
    Card { suit, rank }
}

fn p(player_id: u64, suit: Suit, rank: Rank) -> Play {
    Play { player_id, card: c(suit, rank) }
}

#[test]
fn empty_hand_has_no_winner() {
    assert_eq!(resolve_hand_winner(&[], Suit::Hearts), None);
}

#[test]
fn highest_card_of_leading_suit_wins_without_trump() {
    let plays = [
        p(1, Suit::Clubs, Rank::Ten),
        p(2, Suit::Clubs, Rank::King),
        p(3, Suit::Diamonds, Rank::Ace),
        p(4, Suit::Clubs, Rank::Nine),
    ];
    assert_eq!(resolve_hand_winner(&plays, Suit::Hearts), Some(2));
}

#[test]
fn lowest_trump_beats_leading_suit_ace() {
    let plays = [
        p(1, Suit::Clubs, Rank::Ace),
        p(2, Suit::Hearts, Rank::Seven),
        p(3, Suit::Clubs, Rank::King),
        p(4, Suit::Diamonds, Rank::Ace),
    ];
    assert_eq!(resolve_hand_winner(&plays, Suit::Hearts), Some(2));
}

#[test]
fn highest_trump_wins_among_trumps() {
    let plays = [
        p(1, Suit::Clubs, Rank::Ace),
        p(2, Suit::Hearts, Rank::Seven),
        p(3, Suit::Hearts, Rank::Jack),
        p(4, Suit::Hearts, Rank::Eight),
    ];
    assert_eq!(resolve_hand_winner(&plays, Suit::Hearts), Some(3));
}

#[test]
fn trump_led_hand_goes_to_highest_trump() {
    let plays = [
        p(1, Suit::Spades, Rank::Nine),
        p(2, Suit::Spades, Rank::Queen),
        p(3, Suit::Hearts, Rank::Ace),
        p(4, Suit::Spades, Rank::Ten),
    ];
    assert_eq!(resolve_hand_winner(&plays, Suit::Spades), Some(2));
}

#[test]
fn leader_wins_when_nobody_follows() {
    let plays = [
        p(9, Suit::Diamonds, Rank::Seven),
        p(2, Suit::Clubs, Rank::Ace),
        p(3, Suit::Spades, Rank::Ace),
    ];
    assert_eq!(resolve_hand_winner(&plays, Suit::Hearts), Some(9));
}

#[test]
fn card_must_be_in_hand() {
    let hand = [c(Suit::Clubs, Rank::Ace)];
    assert!(!is_valid_play(c(Suit::Clubs, Rank::King), &hand, None));
    assert!(is_valid_play(c(Suit::Clubs, Rank::Ace), &hand, None));
}

#[test]
fn must_follow_leading_suit_when_able() {
    let hand = [c(Suit::Clubs, Rank::Ace), c(Suit::Hearts, Rank::Ten)];
    assert!(!is_valid_play(c(Suit::Hearts, Rank::Ten), &hand, Some(Suit::Clubs)));
    assert!(is_valid_play(c(Suit::Clubs, Rank::Ace), &hand, Some(Suit::Clubs)));
}

#[test]
fn any_card_when_void_in_leading_suit() {
    let hand = [c(Suit::Clubs, Rank::Ace), c(Suit::Hearts, Rank::Ten)];
    assert!(is_valid_play(c(Suit::Hearts, Rank::Ten), &hand, Some(Suit::Spades)));
    assert!(is_valid_play(c(Suit::Clubs, Rank::Ace), &hand, Some(Suit::Spades)));
}

fn rr(a: u32, b: u32, tie: bool) -> RoundResult {
    RoundResult { team_a_round_points: a, team_b_round_points: b, is_tie: tie }
}

#[test]
fn four_four_is_a_tie_worth_nothing() {
    assert_eq!(calculate_round_score(4, 4, true, false), rr(0, 0, true));
    assert_eq!(calculate_round_score(4, 4, false, true), rr(0, 0, true));
}

#[test]
fn trump_team_win_is_one_point() {
    assert_eq!(calculate_round_score(5, 3, true, false), rr(1, 0, false));
    assert_eq!(calculate_round_score(2, 6, false, false), rr(0, 1, false));
}

#[test]
fn trump_team_win_after_a_tie_is_two_points() {
    assert_eq!(calculate_round_score(6, 2, true, true), rr(2, 0, false));
    assert_eq!(calculate_round_score(3, 5, false, true), rr(0, 2, false));
}

#[test]
fn other_team_win_is_one_point() {
    assert_eq!(calculate_round_score(5, 3, false, false), rr(1, 0, false));
    assert_eq!(calculate_round_score(1, 7, true, false), rr(0, 1, false));
}

#[test]
fn other_team_win_after_a_tie_is_two_points() {
    assert_eq!(calculate_round_score(5, 3, false, true), rr(2, 0, false));
    assert_eq!(calculate_round_score(1, 7, true, true), rr(0, 2, false));
}

#[test]
fn kapothi_by_trump_team_is_two_points() {
    assert_eq!(calculate_round_score(8, 0, true, false), rr(2, 0, false));
    assert_eq!(calculate_round_score(0, 8, false, true), rr(0, 2, false));
}

#[test]
fn kapothi_by_other_team_is_three_points() {
    assert_eq!(calculate_round_score(8, 0, false, false), rr(3, 0, false));
    assert_eq!(calculate_round_score(0, 8, true, true), rr(0, 3, false));
}
