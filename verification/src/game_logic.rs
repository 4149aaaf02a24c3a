use vstd::prelude::*;
use crate::types::{Card, Play, Suit};

verus! {

/// Does `challenger` take the trick from `current`, given the leading suit and trump?
pub open spec fn spec_beats(challenger: Card, current: Card, leading_suit: Suit, trump: Suit) -> bool {
    let challenger_is_trump = challenger.suit == trump;
    let current_is_trump = current.suit == trump;
    if challenger_is_trump && current_is_trump {
        challenger.rank.spec_value() > current.rank.spec_value()
    } else if challenger_is_trump {
        true
    } else if current_is_trump {
        false
    } else if challenger.suit == leading_suit && current.suit == leading_suit {
        challenger.rank.spec_value() > current.rank.spec_value()
    } else {
        challenger.suit == leading_suit
    }
}

/// The play currently holding the trick: the first play, replaced in turn by
/// every later play that beats the holder.
pub open spec fn trick_holder(plays: Seq<Play>, leading_suit: Suit, trump: Suit) -> Play
    recommends
        plays.len() > 0,
    decreases plays.len(),
{
    if plays.len() <= 1 {
        plays[0]
    } else {
        let best = trick_holder(plays.drop_last(), leading_suit, trump);
        if spec_beats(plays.last().card, best.card, leading_suit, trump) {
            plays.last()
        } else {
            best
        }
    }
}

/// The winner of a hand: the holder of the trick led by the first play.
pub open spec fn hand_winner(plays: Seq<Play>, trump: Suit) -> Option<u64> {
    if plays.len() == 0 {
        None
    } else {
        Some(trick_holder(plays, plays[0].card.suit, trump).player_id)
    }
}

/// Determine the winner of a hand given the plays and trump suit.
pub fn resolve_hand_winner(plays: &[Play], trump: Suit) -> (winner: Option<u64>)
    ensures
        winner == hand_winner(plays@, trump),
{
    if plays.len() == 0 {
        return None;
    }
    let leading_suit = plays[0].card.suit;
    let mut best_play = plays[0];
    let mut i: usize = 1;
    while i < plays.len()
        invariant
            1 <= i <= plays.len(),
            leading_suit == plays@[0].card.suit,
            best_play == trick_holder(plays@.take(i as int), leading_suit, trump),
        decreases plays.len() - i,
    {
        let play = plays[i];
        assert(plays@.take(i + 1).drop_last() =~= plays@.take(i as int));
        if beats(play.card, best_play.card, leading_suit, trump) {
            best_play = play;
        }
        i = i + 1;
    }
    assert(plays@.take(plays.len() as int) =~= plays@);
    Some(best_play.player_id)
}

/// Check if `challenger` beats `current` given leading suit and trump.
pub fn beats(challenger: Card, current: Card, leading_suit: Suit, trump: Suit) -> (b: bool)
    ensures
        b == spec_beats(challenger, current, leading_suit, trump),
{
    let challenger_is_trump = challenger.suit == trump;
    let current_is_trump = current.suit == trump;
    let challenger_follows_lead = challenger.suit == leading_suit;
    let current_follows_lead = current.suit == leading_suit;

    match (challenger_is_trump, current_is_trump) {
        (true, true) => challenger.rank.value() > current.rank.value(),
        (true, false) => true,
        (false, true) => false,
        (false, false) => {
            if challenger_follows_lead && current_follows_lead {
                challenger.rank.value() > current.rank.value()
            } else if challenger_follows_lead {
                true
            } else {
                false
            }
        },
    }
}

/// Does the hand hold a card of the given suit?
pub open spec fn has_suit(hand: Seq<Card>, suit: Suit) -> bool {
    exists|i: int| 0 <= i < hand.len() && #[trigger] hand[i].suit == suit
}

/// A play is legal when the card is in the hand and, if a suit was led and
/// the hand holds that suit, the card follows it.
pub open spec fn valid_play(card: Card, hand: Seq<Card>, leading_suit: Option<Suit>) -> bool {
    &&& hand.contains(card)
    &&& match leading_suit {
        Some(lead) => has_suit(hand, lead) ==> card.suit == lead,
        None => true,
    }
}

/// Does the hand hold a card of the given suit? (executable)
pub fn hand_has_suit(hand: &[Card], suit: Suit) -> (b: bool)
    ensures
        b == has_suit(hand@, suit),
{
    let mut i: usize = 0;
    while i < hand.len()
        invariant
            0 <= i <= hand.len(),
            forall|j: int| 0 <= j < i ==> hand@[j].suit != suit,
        decreases hand.len() - i,
    {
        if hand[i].suit == suit {
            return true;
        }
        i = i + 1;
    }
    false
}

/// Is the card in the hand? (executable)
pub fn hand_contains(hand: &[Card], card: Card) -> (b: bool)
    ensures
        b == hand@.contains(card),
{
    let mut i: usize = 0;
    while i < hand.len()
        invariant
            0 <= i <= hand.len(),
            forall|j: int| 0 <= j < i ==> hand@[j] != card,
        decreases hand.len() - i,
    {
        if hand[i] == card {
            assert(hand@[i as int] == card);
            return true;
        }
        i = i + 1;
    }
    false
}

/// Check if a player can legally play a card.
pub fn is_valid_play(card: Card, player_hand: &[Card], leading_suit: Option<Suit>) -> (b: bool)
    ensures
        b == valid_play(card, player_hand@, leading_suit),
{
    if !hand_contains(player_hand, card) {
        return false;
    }
    if let Some(lead) = leading_suit {
        let has_leading_suit = hand_has_suit(player_hand, lead);
        if has_leading_suit && card.suit != lead {
            return false;
        }
    }
    true
}

/// Points won by each team in a round.
#[derive(Clone, Copy, Debug, PartialEq, Eq, Structural)]
pub struct RoundResult {
    pub team_a_round_points: u32,
    pub team_b_round_points: u32,
    pub is_tie: bool,
}

/// The Omi scoring rules for one round, given the hands each team took,
/// which team chose trump, and whether the previous round was tied: a 4-4
/// split is a tie worth nothing; a win of all 8 hands (kapothi) is worth 2
/// points, or 3 to the team that did not choose trump; any other win is
/// worth 1 point, or 2 after a tied round.
pub open spec fn round_score(
    team_a_hands: u32,
    team_b_hands: u32,
    trump_selector_team_is_a: bool,
    previous_round_tied: bool,
) -> RoundResult {
    if team_a_hands == 4 && team_b_hands == 4 {
        RoundResult { team_a_round_points: 0, team_b_round_points: 0, is_tie: true }
    } else {
        let team_a_wins = team_a_hands > team_b_hands;
        let winner_chose_trump = team_a_wins == trump_selector_team_is_a;
        let kapothi = team_a_hands == 8 || team_b_hands == 8;
        let points: u32 = if kapothi {
            if winner_chose_trump { 2 } else { 3 }
        } else if previous_round_tied {
            2
        } else {
            1
        };
        if team_a_wins {
            RoundResult { team_a_round_points: points, team_b_round_points: 0, is_tie: false }
        } else {
            RoundResult { team_a_round_points: 0, team_b_round_points: points, is_tie: false }
        }
    }
}

/// Calculate round points based on Omi scoring rules.
pub fn calculate_round_score(
    team_a_hands: u32,
    team_b_hands: u32,
    trump_selector_team_is_a: bool,
    previous_round_tied: bool,
) -> (r: RoundResult)
    ensures
        r == round_score(team_a_hands, team_b_hands, trump_selector_team_is_a, previous_round_tied),
{
    if team_a_hands == 4 && team_b_hands == 4 {
        return RoundResult { team_a_round_points: 0, team_b_round_points: 0, is_tie: true };
    }

    let team_a_wins = team_a_hands > team_b_hands;
    let is_kapothi = team_a_hands == 8 || team_b_hands == 8;

    let (winner_points, loser_points): (u32, u32) = if is_kapothi {
        if (team_a_wins && trump_selector_team_is_a) || (!team_a_wins && !trump_selector_team_is_a) {
            (2, 0)
        } else {
            (3, 0)
        }
    } else if previous_round_tied {
        (2, 0)
    } else {
        (1, 0)
    };

    if team_a_wins {
        RoundResult {
            team_a_round_points: winner_points,
            team_b_round_points: loser_points,
            is_tie: false,
        }
    } else {
        RoundResult {
            team_a_round_points: loser_points,
            team_b_round_points: winner_points,
            is_tie: false,
        }
    }
}

/// Law of the trick: the winner played in the hand; if any trump was played,
/// the winning card is a trump no lower than any other trump played;
/// otherwise it is of the leading suit and no lower than any other card of
/// that suit.
pub proof fn lemma_trick_holder_wins(plays: Seq<Play>, leading_suit: Suit, trump: Suit)
    requires
        plays.len() > 0,
        plays[0].card.suit == leading_suit,
    ensures
        plays.contains(trick_holder(plays, leading_suit, trump)),
        ({
            let w = trick_holder(plays, leading_suit, trump).card;
            if exists|i: int| 0 <= i < plays.len() && #[trigger] plays[i].card.suit == trump {
                &&& w.suit == trump
                &&& forall|i: int|
                    0 <= i < plays.len() && #[trigger] plays[i].card.suit == trump
                        ==> plays[i].card.rank.spec_value() <= w.rank.spec_value()
            } else {
                &&& w.suit == leading_suit
                &&& forall|i: int|
                    0 <= i < plays.len() && #[trigger] plays[i].card.suit == leading_suit
                        ==> plays[i].card.rank.spec_value() <= w.rank.spec_value()
            }
        }),
    decreases plays.len(),
{
    if plays.len() > 1 {
        let t = plays.drop_last();
        lemma_trick_holder_wins(t, leading_suit, trump);
        let b = trick_holder(t, leading_suit, trump);
        let last = plays.last();
        let n = plays.len() - 1;
        assert(plays[n] == last);
        assert forall|i: int| 0 <= i < t.len() implies #[trigger] t[i] == plays[i] by {}
        assert(t.contains(b));
        let j = choose|j: int| 0 <= j < t.len() && t[j] == b;
        assert(plays[j] == b);
        let w = trick_holder(plays, leading_suit, trump);
        assert(w == if spec_beats(last.card, b.card, leading_suit, trump) { last } else { b });
        assert(plays.contains(w));
        let t_trump = exists|i: int| 0 <= i < t.len() && #[trigger] t[i].card.suit == trump;
        if t_trump {
            let i0 = choose|i: int| 0 <= i < t.len() && #[trigger] t[i].card.suit == trump;
            assert(plays[i0].card.suit == trump);
            assert forall|i: int| 0 <= i < plays.len() && #[trigger] plays[i].card.suit == trump
                implies plays[i].card.rank.spec_value() <= w.card.rank.spec_value() by {
                if i < n {
                    assert(t[i].card.suit == trump);
                }
            }
        } else {
            assert(leading_suit != trump) by {
                assert(t[0].card.suit == leading_suit);
            }
            if last.card.suit == trump {
                assert forall|i: int| 0 <= i < plays.len() && #[trigger] plays[i].card.suit == trump
                    implies plays[i].card.rank.spec_value() <= w.card.rank.spec_value() by {
                    if i < n {
                        assert(t[i].card.suit == trump);
                    }
                }
            } else {
                assert forall|i: int| 0 <= i < plays.len() implies #[trigger] plays[i].card.suit != trump by {
                    if i < n {
                        assert(t[i] == plays[i]);
                    }
                }
                assert forall|i: int| 0 <= i < plays.len() && #[trigger] plays[i].card.suit == leading_suit
                    implies plays[i].card.rank.spec_value() <= w.card.rank.spec_value() by {
                    if i < n {
                        assert(t[i].card.suit == leading_suit);
                    }
                }
            }
        }
    } else {
        assert(plays[0] == trick_holder(plays, leading_suit, trump));
    }
}

/// The holder of a trick is one of its plays, whatever suit is taken as led.
pub proof fn lemma_trick_holder_in(plays: Seq<Play>, leading_suit: Suit, trump: Suit)
    requires
        plays.len() > 0,
    ensures
        plays.contains(trick_holder(plays, leading_suit, trump)),
    decreases plays.len(),
{
    if plays.len() > 1 {
        let t = plays.drop_last();
        lemma_trick_holder_in(t, leading_suit, trump);
        let b = trick_holder(t, leading_suit, trump);
        let j = choose|j: int| 0 <= j < t.len() && t[j] == b;
        assert(plays[j] == b);
        assert(plays[plays.len() - 1] == plays.last());
    } else {
        assert(plays[0] == trick_holder(plays, leading_suit, trump));
    }
}

/// Law of `beats`: no card beats a card that beats it, so no card beats
/// itself; a trump beats every card that is not a trump.
pub proof fn lemma_beats_is_strict(a: Card, b: Card, leading_suit: Suit, trump: Suit)
    ensures
        spec_beats(a, b, leading_suit, trump) ==> !spec_beats(b, a, leading_suit, trump),
        !spec_beats(a, a, leading_suit, trump),
        a.suit == trump && b.suit != trump ==> spec_beats(a, b, leading_suit, trump),
{
}

/// Law: the winner of a non-empty hand is one of the players who played in it.
pub proof fn lemma_hand_winner_played(plays: Seq<Play>, trump: Suit)
    requires
        plays.len() > 0,
    ensures
        hand_winner(plays, trump) matches Some(w) && exists|i: int|
            0 <= i < plays.len() && #[trigger] plays[i].player_id == w,
{
    lemma_trick_holder_wins(plays, plays[0].card.suit, trump);
    let h = trick_holder(plays, plays[0].card.suit, trump);
    let i = choose|i: int| 0 <= i < plays.len() && plays[i] == h;
    assert(plays[i].player_id == h.player_id);
}

/// Laws of round scoring over a complete round (the two teams took 8 hands
/// between them): a 4-4 split is a tie worth nothing; otherwise only the team
/// with more hands scores, 1 to 3 points; a clean sweep (kapothi) is worth 2
/// to the team that chose trump and 3 to the other team; any other win is
/// worth 1 point, or 2 after a tied round.
pub proof fn lemma_round_score_rules(
    team_a_hands: u32,
    team_b_hands: u32,
    trump_selector_team_is_a: bool,
    previous_round_tied: bool,
)
    requires
        team_a_hands + team_b_hands == 8,
    ensures
        ({
            let r = round_score(team_a_hands, team_b_hands, trump_selector_team_is_a, previous_round_tied);
            let a_wins = team_a_hands > team_b_hands;
            let winner_points = if a_wins { r.team_a_round_points } else { r.team_b_round_points };
            let loser_points = if a_wins { r.team_b_round_points } else { r.team_a_round_points };
            let winner_chose_trump = a_wins == trump_selector_team_is_a;
            &&& r.is_tie <==> team_a_hands == 4
            &&& r.is_tie ==> r.team_a_round_points == 0 && r.team_b_round_points == 0
            &&& !r.is_tie ==> {
                &&& loser_points == 0
                &&& 1 <= winner_points <= 3
                &&& (team_a_hands == 8 || team_b_hands == 8) ==> winner_points == if winner_chose_trump { 2u32 } else { 3u32 }
                &&& (team_a_hands != 8 && team_b_hands != 8) ==> winner_points == if previous_round_tied { 2u32 } else { 1u32 }
            }
        }),
{
}

} // verus!
