use vstd::prelude::*;
use rand::rngs::StdRng;
use crate::types::{Card, Play, Rank, Suit};
use crate::game_logic::{has_suit, hand_has_suit, spec_beats, trick_holder, valid_play};
use crate::random::{gen_index, gen_percent};

verus! {

// ── Selecting trump ────────────────────────────────────────────────────

/// Number of cards of the given suit.
pub open spec fn suit_count(cards: Seq<Card>, suit: Suit) -> nat
    decreases cards.len(),
{
    if cards.len() == 0 {
        0
    } else {
        suit_count(cards.drop_last(), suit) + if cards.last().suit == suit { 1nat } else { 0nat }
    }
}

/// Highest rank value among the cards of the given suit (0 when there is none).
pub open spec fn top_value(cards: Seq<Card>, suit: Suit) -> u8
    decreases cards.len(),
{
    if cards.len() == 0 {
        0
    } else {
        let prev = top_value(cards.drop_last(), suit);
        let c = cards.last();
        if c.suit == suit && c.rank.spec_value() > prev {
            c.rank.spec_value()
        } else {
            prev
        }
    }
}

/// The per-suit card count as the bot keeps it: an 8-bit counter, which
/// wraps past 255.
pub open spec fn count_u8(cards: Seq<Card>, suit: Suit) -> nat {
    suit_count(cards, suit) % 256
}

/// Suit `a` is strictly preferred to suit `b` as trump: more cards, or as
/// many cards and a higher top card.
pub open spec fn trump_preferred(cards: Seq<Card>, a: Suit, b: Suit) -> bool {
    ||| count_u8(cards, a) > count_u8(cards, b)
    ||| count_u8(cards, a) == count_u8(cards, b) && top_value(cards, a) > top_value(cards, b)
}

/// The suit the bot names as trump: the best suit by (count, top card), the
/// earliest of Hearts, Diamonds, Clubs, Spades on a tie.
pub open spec fn preferred_trump(cards: Seq<Card>) -> Suit {
    let b1 = if trump_preferred(cards, Suit::Diamonds, Suit::Hearts) {
        Suit::Diamonds
    } else {
        Suit::Hearts
    };
    let b2 = if trump_preferred(cards, Suit::Clubs, b1) {
        Suit::Clubs
    } else {
        b1
    };
    if trump_preferred(cards, Suit::Spades, b2) {
        Suit::Spades
    } else {
        b2
    }
}

/// Count and top rank of one suit in the cards.
fn suit_summary(cards: &[Card], suit: Suit) -> (r: (u8, u8))
    ensures
        r.0 == count_u8(cards@, suit),
        r.1 == top_value(cards@, suit),
{
    let mut count: u8 = 0;
    let mut top: u8 = 0;
    let mut i: usize = 0;
    while i < cards.len()
        invariant
            0 <= i <= cards.len(),
            count == count_u8(cards@.take(i as int), suit),
            top == top_value(cards@.take(i as int), suit),
        decreases cards.len() - i,
    {
        let card = cards[i];
        assert(cards@.take(i + 1).drop_last() =~= cards@.take(i as int));
        if card.suit == suit {
            count = count.wrapping_add(1);
            let v = card.rank.value();
            if v > top {
                top = v;
            }
        }
        i = i + 1;
    }
    assert(cards@.take(cards.len() as int) =~= cards@);
    (count, top)
}

fn preferred(a: (u8, u8), b: (u8, u8)) -> (r: bool)
    ensures
        r == (a.0 > b.0 || (a.0 == b.0 && a.1 > b.1)),
{
    a.0 > b.0 || (a.0 == b.0 && a.1 > b.1)
}

/// Select trump suit from the first cards using bot AI logic.
pub fn select_trump(cards: &[Card]) -> (s: Suit)
    ensures
        s == preferred_trump(cards@),
{
    let hearts = suit_summary(cards, Suit::Hearts);
    let diamonds = suit_summary(cards, Suit::Diamonds);
    let clubs = suit_summary(cards, Suit::Clubs);
    let spades = suit_summary(cards, Suit::Spades);
    let (mut best, mut key) = (Suit::Hearts, hearts);
    if preferred(diamonds, key) {
        best = Suit::Diamonds;
        key = diamonds;
    }
    if preferred(clubs, key) {
        best = Suit::Clubs;
        key = clubs;
    }
    if preferred(spades, key) {
        best = Suit::Spades;
    }
    best
}

// ── Card filters and searches ──────────────────────────────────────────

/// Which cards of a hand a search looks at.
#[derive(Clone, Copy, Debug, PartialEq, Eq, Structural)]
pub enum CardFilter {
    AnySuit,
    SuitIs(Suit),
    SuitNot(Suit),
}

impl CardFilter {
    pub open spec fn admits(self, c: Card) -> bool {
        match self {
            CardFilter::AnySuit => true,
            CardFilter::SuitIs(s) => c.suit == s,
            CardFilter::SuitNot(s) => c.suit != s,
        }
    }

    fn check(&self, c: Card) -> (b: bool)
        ensures
            b == self.admits(c),
    {
        match self {
            CardFilter::AnySuit => true,
            CardFilter::SuitIs(s) => c.suit == *s,
            CardFilter::SuitNot(s) => c.suit != *s,
        }
    }
}

/// The lowest-ranked card admitted by `f` whose rank value exceeds `floor`;
/// among equally low cards, the first in hand order.
pub open spec fn lowest_matching(s: Seq<Card>, f: CardFilter, floor: int) -> Option<Card>
    decreases s.len(),
{
    if s.len() == 0 {
        None
    } else {
        let prev = lowest_matching(s.drop_last(), f, floor);
        let c = s.last();
        if f.admits(c) && c.rank.spec_value() > floor && (prev is None || c.rank.spec_value()
            < prev->0.rank.spec_value()) {
            Some(c)
        } else {
            prev
        }
    }
}

/// The first Ace (in hand order) admitted by `f`.
pub open spec fn first_ace(s: Seq<Card>, f: CardFilter) -> Option<Card>
    decreases s.len(),
{
    if s.len() == 0 {
        None
    } else {
        let prev = first_ace(s.drop_last(), f);
        if prev is None && f.admits(s.last()) && s.last().rank == Rank::Ace {
            Some(s.last())
        } else {
            prev
        }
    }
}

/// The first card of `s` that is the only card of its (non-trump) suit in `hand`.
pub open spec fn first_singleton(s: Seq<Card>, hand: Seq<Card>, trump: Suit) -> Option<Card>
    decreases s.len(),
{
    if s.len() == 0 {
        None
    } else {
        let prev = first_singleton(s.drop_last(), hand, trump);
        let c = s.last();
        if prev is None && c.suit != trump && suit_count(hand, c.suit) == 1 {
            Some(c)
        } else {
            prev
        }
    }
}

/// A lowest match exists exactly when some card passes the filter and floor,
/// and it is such a card of the sequence, no higher than any other such card.
pub proof fn lemma_lowest_matching(s: Seq<Card>, f: CardFilter, floor: int)
    ensures
        lowest_matching(s, f, floor) is Some <==> exists|i: int|
            0 <= i < s.len() && f.admits(#[trigger] s[i]) && s[i].rank.spec_value() > floor,
        lowest_matching(s, f, floor) matches Some(c) ==> {
            &&& s.contains(c)
            &&& f.admits(c)
            &&& c.rank.spec_value() > floor
            &&& forall|i: int|
                0 <= i < s.len() && f.admits(#[trigger] s[i]) && s[i].rank.spec_value() > floor
                    ==> c.rank.spec_value() <= s[i].rank.spec_value()
        },
    decreases s.len(),
{
    if s.len() > 0 {
        let t = s.drop_last();
        let last = s.last();
        lemma_lowest_matching(t, f, floor);
        assert(s[s.len() - 1] == last);
        let prev = lowest_matching(t, f, floor);
        let r = lowest_matching(s, f, floor);
        if exists|i: int| 0 <= i < s.len() && f.admits(#[trigger] s[i]) && s[i].rank.spec_value() > floor {
            let i = choose|i: int| 0 <= i < s.len() && f.admits(#[trigger] s[i]) && s[i].rank.spec_value() > floor;
            if i < s.len() - 1 {
                assert(t[i] == s[i]);
            }
            assert(r is Some);
        }
        if let Some(c) = r {
            if let Some(p) = prev {
                let j = choose|j: int| 0 <= j < t.len() && t[j] == p;
                assert(s[j] == p);
            }
            assert(s.contains(c));
            assert forall|i: int|
                0 <= i < s.len() && f.admits(#[trigger] s[i]) && s[i].rank.spec_value() > floor
                    implies c.rank.spec_value() <= s[i].rank.spec_value() by {
                if i < s.len() - 1 {
                    assert(t[i] == s[i]);
                }
            }
        }
    }
}

/// The first Ace found is an admitted Ace of the sequence; there is one exactly
/// when the sequence holds an admitted Ace.
pub proof fn lemma_first_ace(s: Seq<Card>, f: CardFilter)
    ensures
        first_ace(s, f) is Some <==> exists|i: int|
            0 <= i < s.len() && f.admits(#[trigger] s[i]) && s[i].rank == Rank::Ace,
        first_ace(s, f) matches Some(c) ==> s.contains(c) && f.admits(c) && c.rank == Rank::Ace,
    decreases s.len(),
{
    if s.len() > 0 {
        let t = s.drop_last();
        lemma_first_ace(t, f);
        assert(s[s.len() - 1] == s.last());
        if exists|i: int| 0 <= i < s.len() && f.admits(#[trigger] s[i]) && s[i].rank == Rank::Ace {
            let i = choose|i: int| 0 <= i < s.len() && f.admits(#[trigger] s[i]) && s[i].rank == Rank::Ace;
            if i < s.len() - 1 {
                assert(t[i] == s[i]);
            }
        }
        if exists|i: int| 0 <= i < t.len() && f.admits(#[trigger] t[i]) && t[i].rank == Rank::Ace {
            let i = choose|i: int| 0 <= i < t.len() && f.admits(#[trigger] t[i]) && t[i].rank == Rank::Ace;
            assert(t[i] == s[i]);
        }
        if let Some(c) = first_ace(t, f) {
            let j = choose|j: int| 0 <= j < t.len() && t[j] == c;
            assert(s[j] == c);
        }
    }
}

/// The first singleton found belongs to the sequence and is a non-trump card.
pub proof fn lemma_first_singleton(s: Seq<Card>, hand: Seq<Card>, trump: Suit)
    ensures
        first_singleton(s, hand, trump) matches Some(c) ==> s.contains(c) && c.suit != trump,
    decreases s.len(),
{
    if s.len() > 0 {
        let t = s.drop_last();
        lemma_first_singleton(t, hand, trump);
        if let Some(c) = first_singleton(t, hand, trump) {
            let j = choose|j: int| 0 <= j < t.len() && t[j] == c;
            assert(s[j] == c);
        }
        assert(s[s.len() - 1] == s.last());
    }
}

/// Lowest admitted card whose rank value exceeds `floor` (when given).
fn scan_lowest(hand: &[Card], f: CardFilter, floor: Option<u8>) -> (r: Option<Card>)
    ensures
        r == lowest_matching(
            hand@,
            f,
            match floor {
                Some(t) => t as int,
                None => -1,
            },
        ),
{
    let ghost fl: int = match floor {
        Some(t) => t as int,
        None => -1,
    };
    let mut best: Option<Card> = None;
    let mut i: usize = 0;
    while i < hand.len()
        invariant
            0 <= i <= hand.len(),
            fl == match floor {
                Some(t) => t as int,
                None => -1,
            },
            best == lowest_matching(hand@.take(i as int), f, fl),
        decreases hand.len() - i,
    {
        let c = hand[i];
        assert(hand@.take(i + 1).drop_last() =~= hand@.take(i as int));
        let v = c.rank.value();
        let above = match floor {
            Some(t) => v > t,
            None => true,
        };
        if f.check(c) && above {
            match best {
                None => {
                    best = Some(c);
                },
                Some(b) => {
                    if v < b.rank.value() {
                        best = Some(c);
                    }
                },
            }
        }
        i = i + 1;
    }
    assert(hand@.take(hand.len() as int) =~= hand@);
    best
}

/// Return the lowest-ranked card among the admitted cards of the hand.
fn lowest(hand: &[Card], f: CardFilter) -> (c: Card)
    requires
        exists|i: int| 0 <= i < hand@.len() && f.admits(#[trigger] hand@[i]),
    ensures
        lowest_matching(hand@, f, -1) == Some(c),
{
    proof {
        lemma_lowest_matching(hand@, f, -1);
        let i = choose|i: int| 0 <= i < hand@.len() && f.admits(#[trigger] hand@[i]);
        assert(hand@[i].rank.spec_value() > -1);
    }
    let r = scan_lowest(hand, f, None);
    r.unwrap()
}

/// Return the lowest-ranked card of a non-empty slice of cards.
fn lowest_from_slice(cards: &[Card]) -> (c: Card)
    requires
        cards.len() > 0,
    ensures
        lowest_matching(cards@, CardFilter::AnySuit, -1) == Some(c),
{
    assert(CardFilter::AnySuit.admits(cards@[0]));
    lowest(cards, CardFilter::AnySuit)
}

/// Return the admitted card with the smallest rank strictly above `threshold`.
fn smallest_above(hand: &[Card], f: CardFilter, threshold: u8) -> (r: Option<Card>)
    ensures
        r == lowest_matching(hand@, f, threshold as int),
{
    scan_lowest(hand, f, Some(threshold))
}

/// The first admitted Ace of the hand.
fn find_ace(hand: &[Card], f: CardFilter) -> (r: Option<Card>)
    ensures
        r == first_ace(hand@, f),
{
    let mut found: Option<Card> = None;
    let mut i: usize = 0;
    while i < hand.len()
        invariant
            0 <= i <= hand.len(),
            found == first_ace(hand@.take(i as int), f),
        decreases hand.len() - i,
    {
        let c = hand[i];
        assert(hand@.take(i + 1).drop_last() =~= hand@.take(i as int));
        if found.is_none() && f.check(c) && c.rank == Rank::Ace {
            found = Some(c);
        }
        i = i + 1;
    }
    assert(hand@.take(hand.len() as int) =~= hand@);
    found
}

/// Number of cards of the given suit in the hand.
fn count_suit(hand: &[Card], suit: Suit) -> (n: usize)
    ensures
        n == suit_count(hand@, suit),
{
    let mut n: usize = 0;
    let mut i: usize = 0;
    while i < hand.len()
        invariant
            0 <= i <= hand.len(),
            n == suit_count(hand@.take(i as int), suit),
            n <= i,
        decreases hand.len() - i,
    {
        assert(hand@.take(i + 1).drop_last() =~= hand@.take(i as int));
        if hand[i].suit == suit {
            n = n + 1;
        }
        i = i + 1;
    }
    assert(hand@.take(hand.len() as int) =~= hand@);
    n
}

/// Find the first card that is the only card of its non-trump suit in hand.
fn find_singleton_non_trump(hand: &[Card], trump: Suit) -> (r: Option<Card>)
    ensures
        r == first_singleton(hand@, hand@, trump),
{
    let mut found: Option<Card> = None;
    let mut i: usize = 0;
    while i < hand.len()
        invariant
            0 <= i <= hand.len(),
            found == first_singleton(hand@.take(i as int), hand@, trump),
        decreases hand.len() - i,
    {
        let c = hand[i];
        assert(hand@.take(i + 1).drop_last() =~= hand@.take(i as int));
        if found.is_none() && c.suit != trump && count_suit(hand, c.suit) == 1 {
            found = Some(c);
        }
        i = i + 1;
    }
    assert(hand@.take(hand.len() as int) =~= hand@);
    found
}

// ── Reading the trick so far ───────────────────────────────────────────

/// Was a card of the given suit played?
pub open spec fn suit_played(plays: Seq<Play>, suit: Suit) -> bool {
    exists|i: int| 0 <= i < plays.len() && #[trigger] plays[i].card.suit == suit
}

/// Highest rank value played in the given suit (0 when none was played).
pub open spec fn top_played(plays: Seq<Play>, suit: Suit) -> u8
    decreases plays.len(),
{
    if plays.len() == 0 {
        0
    } else {
        let prev = top_played(plays.drop_last(), suit);
        let c = plays.last().card;
        if c.suit == suit && c.rank.spec_value() > prev {
            c.rank.spec_value()
        } else {
            prev
        }
    }
}

fn any_play_of_suit(plays: &[Play], suit: Suit) -> (b: bool)
    ensures
        b == suit_played(plays@, suit),
{
    let mut i: usize = 0;
    while i < plays.len()
        invariant
            0 <= i <= plays.len(),
            forall|j: int| 0 <= j < i ==> plays@[j].card.suit != suit,
        decreases plays.len() - i,
    {
        if plays[i].card.suit == suit {
            return true;
        }
        i = i + 1;
    }
    false
}

fn highest_played(plays: &[Play], suit: Suit) -> (v: u8)
    ensures
        v == top_played(plays@, suit),
{
    let mut top: u8 = 0;
    let mut i: usize = 0;
    while i < plays.len()
        invariant
            0 <= i <= plays.len(),
            top == top_played(plays@.take(i as int), suit),
        decreases plays.len() - i,
    {
        let c = plays[i].card;
        assert(plays@.take(i + 1).drop_last() =~= plays@.take(i as int));
        if c.suit == suit {
            let v = c.rank.value();
            if v > top {
                top = v;
            }
        }
        i = i + 1;
    }
    assert(plays@.take(plays.len() as int) =~= plays@);
    top
}

/// The play currently winning the trick (None when nothing was played).
pub open spec fn current_winner(plays: Seq<Play>, leading_suit: Suit, trump: Suit) -> Option<Play> {
    if plays.len() == 0 {
        None
    } else {
        Some(trick_holder(plays, leading_suit, trump))
    }
}

/// Find the play that is currently winning the trick.
pub fn find_current_winner(plays: &[Play], leading_suit: Suit, trump: Suit) -> (r: Option<Play>)
    ensures
        r == current_winner(plays@, leading_suit, trump),
        r matches Some(p) ==> plays@.contains(p),
        plays@.len() > 0 && leading_suit == plays@[0].card.suit ==> (r matches Some(p)
            && crate::game_logic::hand_winner(plays@, trump) == Some(p.player_id)),
{
    proof {
        if plays@.len() > 0 {
            crate::game_logic::lemma_trick_holder_in(plays@, leading_suit, trump);
        }
    }
    if plays.len() == 0 {
        return None;
    }
    let mut best = plays[0];
    let mut i: usize = 1;
    while i < plays.len()
        invariant
            1 <= i <= plays.len(),
            best == trick_holder(plays@.take(i as int), leading_suit, trump),
        decreases plays.len() - i,
    {
        let play = plays[i];
        assert(plays@.take(i + 1).drop_last() =~= plays@.take(i as int));
        let dominated = match (play.card.suit == trump, best.card.suit == trump) {
            (true, true) => play.card.rank.value() > best.card.rank.value(),
            (true, false) => true,
            (false, true) => false,
            (false, false) => {
                play.card.suit == leading_suit && (best.card.suit != leading_suit
                    || play.card.rank.value() > best.card.rank.value())
            },
        };
        assert(dominated == spec_beats(play.card, best.card, leading_suit, trump));
        if dominated {
            best = play;
        }
        i = i + 1;
    }
    assert(plays@.take(plays.len() as int) =~= plays@);
    Some(best)
}

// ── Strategy ───────────────────────────────────────────────────────────

/// The card the bot leads with.
pub open spec fn lead_choice(hand: Seq<Card>, trump: Suit) -> Card {
    match first_ace(hand, CardFilter::SuitNot(trump)) {
        Some(c) => c,
        None => match first_singleton(hand, hand, trump) {
            Some(c) => c,
            None => match lowest_matching(hand, CardFilter::SuitNot(trump), -1) {
                Some(c) => c,
                None => match first_ace(hand, CardFilter::AnySuit) {
                    Some(c) => c,
                    None => lowest_matching(hand, CardFilter::AnySuit, -1)->0,
                },
            },
        },
    }
}

/// The card the bot follows with when it holds the leading suit.
pub open spec fn follow_suit_choice(
    hand: Seq<Card>,
    plays: Seq<Play>,
    leading_suit: Suit,
    trump: Suit,
    teammate_id: Option<u64>,
) -> Card {
    let suit = CardFilter::SuitIs(leading_suit);
    let lowest_of_suit = lowest_matching(hand, suit, -1)->0;
    if plays.len() == 3 {
        let partner_winning = match teammate_id {
            Some(t) => trick_holder(plays, leading_suit, trump).player_id == t,
            None => false,
        };
        if partner_winning {
            lowest_of_suit
        } else if leading_suit != trump && suit_played(plays, trump) {
            lowest_of_suit
        } else {
            match lowest_matching(hand, suit, top_played(plays, leading_suit) as int) {
                Some(c) => c,
                None => lowest_of_suit,
            }
        }
    } else {
        match first_ace(hand, suit) {
            Some(c) => c,
            None => lowest_of_suit,
        }
    }
}

/// The card the bot plays when it cannot follow the leading suit.
pub open spec fn discard_or_trump_choice(hand: Seq<Card>, plays: Seq<Play>, trump: Suit) -> Card {
    let trumps = CardFilter::SuitIs(trump);
    if !has_suit(hand, trump) {
        match first_singleton(hand, hand, trump) {
            Some(c) => c,
            None => lowest_matching(hand, CardFilter::AnySuit, -1)->0,
        }
    } else if plays[0].card.suit != trump && suit_played(plays, trump) {
        match lowest_matching(hand, trumps, top_played(plays, trump) as int) {
            Some(c) => c,
            None => match lowest_matching(hand, CardFilter::SuitNot(trump), -1) {
                Some(c) => c,
                None => lowest_matching(hand, trumps, -1)->0,
            },
        }
    } else {
        lowest_matching(hand, trumps, -1)->0
    }
}

/// The card the bot's strategy picks (without any random play).
pub open spec fn strategy_choice(
    hand: Seq<Card>,
    plays: Seq<Play>,
    trump: Suit,
    teammate_id: Option<u64>,
) -> Card {
    if plays.len() == 0 {
        lead_choice(hand, trump)
    } else if has_suit(hand, plays[0].card.suit) {
        follow_suit_choice(hand, plays, plays[0].card.suit, trump, teammate_id)
    } else {
        discard_or_trump_choice(hand, plays, trump)
    }
}

/// The suit led in the trick, if any card was played.
pub open spec fn leading_suit_of(plays: Seq<Play>) -> Option<Suit> {
    if plays.len() == 0 {
        None
    } else {
        Some(plays[0].card.suit)
    }
}

fn first_player_strategy(hand: &[Card], trump: Suit) -> (c: Card)
    requires
        hand.len() > 0,
    ensures
        c == lead_choice(hand@, trump),
{
    if let Some(card) = find_ace(hand, CardFilter::SuitNot(trump)) {
        return card;
    }
    if let Some(card) = find_singleton_non_trump(hand, trump) {
        return card;
    }
    if let Some(card) = scan_lowest(hand, CardFilter::SuitNot(trump), None) {
        return card;
    }
    if let Some(card) = find_ace(hand, CardFilter::AnySuit) {
        return card;
    }
    lowest_from_slice(hand)
}

fn following_player_strategy(
    hand: &[Card],
    plays: &[Play],
    trump: Suit,
    teammate_id: Option<u64>,
) -> (c: Card)
    requires
        hand.len() > 0,
        plays.len() > 0,
    ensures
        c == strategy_choice(hand@, plays@, trump, teammate_id),
{
    let leading_suit = plays[0].card.suit;
    let has_leading_suit = hand_has_suit(hand, leading_suit);
    if has_leading_suit {
        follow_with_leading_suit(hand, plays, leading_suit, trump, teammate_id)
    } else {
        follow_without_leading_suit(hand, plays, trump)
    }
}

fn follow_with_leading_suit(
    hand: &[Card],
    plays: &[Play],
    leading_suit: Suit,
    trump: Suit,
    teammate_id: Option<u64>,
) -> (c: Card)
    requires
        has_suit(hand@, leading_suit),
    ensures
        c == follow_suit_choice(hand@, plays@, leading_suit, trump, teammate_id),
{
    let suit = CardFilter::SuitIs(leading_suit);
    proof {
        let i = choose|i: int| 0 <= i < hand@.len() && #[trigger] hand@[i].suit == leading_suit;
        assert(suit.admits(hand@[i]));
    }
    let is_last_player = plays.len() == 3;

    if is_last_player {
        let current_winner = find_current_winner(plays, leading_suit, trump);
        let partner_winning = match teammate_id {
            Some(tid) => match current_winner {
                Some(p) => p.player_id == tid,
                None => false,
            },
            None => false,
        };
        if partner_winning {
            return lowest(hand, suit);
        }
        let trump_played = leading_suit != trump && any_play_of_suit(plays, trump);
        if trump_played {
            return lowest(hand, suit);
        }
        let highest_lead = highest_played(plays, leading_suit);
        if let Some(card) = smallest_above(hand, suit, highest_lead) {
            return card;
        }
        return lowest(hand, suit);
    }
    if let Some(card) = find_ace(hand, suit) {
        return card;
    }
    lowest(hand, suit)
}

fn follow_without_leading_suit(hand: &[Card], plays: &[Play], trump: Suit) -> (c: Card)
    requires
        hand.len() > 0,
        plays.len() > 0,
    ensures
        c == discard_or_trump_choice(hand@, plays@, trump),
{
    let trumps = CardFilter::SuitIs(trump);
    let has_trump = hand_has_suit(hand, trump);
    if !has_trump {
        if let Some(card) = find_singleton_non_trump(hand, trump) {
            return card;
        }
        return lowest_from_slice(hand);
    }
    proof {
        let i = choose|i: int| 0 <= i < hand@.len() && #[trigger] hand@[i].suit == trump;
        assert(trumps.admits(hand@[i]));
    }
    let leading_suit = plays[0].card.suit;
    let trump_previously_played = leading_suit != trump && any_play_of_suit(plays, trump);
    if trump_previously_played {
        let highest_trump = highest_played(plays, trump);
        if let Some(card) = smallest_above(hand, trumps, highest_trump) {
            return card;
        }
        if let Some(card) = scan_lowest(hand, CardFilter::SuitNot(trump), None) {
            return card;
        }
        return lowest(hand, trumps);
    }
    lowest(hand, trumps)
}

/// The highest rank played in a suit is at least every rank played in it,
/// and is the rank of one of those cards when the suit was played.
pub proof fn lemma_top_played(plays: Seq<Play>, suit: Suit)
    ensures
        forall|j: int|
            0 <= j < plays.len() && #[trigger] plays[j].card.suit == suit ==> plays[j].card.rank.spec_value()
                <= top_played(plays, suit),
        (exists|j: int| 0 <= j < plays.len() && #[trigger] plays[j].card.suit == suit) ==> exists|j: int|
            0 <= j < plays.len() && #[trigger] plays[j].card.suit == suit && plays[j].card.rank.spec_value()
                == top_played(plays, suit),
    decreases plays.len(),
{
    if plays.len() > 0 {
        let t = plays.drop_last();
        lemma_top_played(t, suit);
        assert forall|j: int| 0 <= j < t.len() implies #[trigger] t[j] == plays[j] by {}
        let n = plays.len() - 1;
        assert(plays[n] == plays.last());
        if exists|j: int| 0 <= j < plays.len() && #[trigger] plays[j].card.suit == suit {
            if exists|j: int| 0 <= j < t.len() && #[trigger] t[j].card.suit == suit {
                let j = choose|j: int|
                    0 <= j < t.len() && #[trigger] t[j].card.suit == suit && t[j].card.rank.spec_value()
                        == top_played(t, suit);
                assert(plays[j] == t[j]);
            } else {
                let j = choose|j: int| 0 <= j < plays.len() && #[trigger] plays[j].card.suit == suit;
                if j < n {
                    assert(t[j] == plays[j]);
                }
                assert(top_played(t, suit) == 0) by {
                    lemma_top_played_none(t, suit);
                }
            }
        }
        assert forall|j: int|
            0 <= j < plays.len() && #[trigger] plays[j].card.suit == suit implies plays[j].card.rank.spec_value()
                <= top_played(plays, suit) by {
            if j < n {
                assert(t[j] == plays[j]);
            }
        }
    }
}

proof fn lemma_top_played_none(plays: Seq<Play>, suit: Suit)
    requires
        forall|j: int| 0 <= j < plays.len() ==> #[trigger] plays[j].card.suit != suit,
    ensures
        top_played(plays, suit) == 0,
    decreases plays.len(),
{
    if plays.len() > 0 {
        let t = plays.drop_last();
        assert forall|j: int| 0 <= j < t.len() implies #[trigger] t[j].card.suit != suit by {
            assert(t[j] == plays[j]);
        }
        lemma_top_played_none(t, suit);
        assert(plays[plays.len() - 1] == plays.last());
    }
}

/// Law of the last player: a bot that plays fourth, holds the led suit, and
/// whose partner is not winning the trick, takes the trick when it can while
/// no trump cuts it (trump was led, or no trump was played): it plays the
/// lowest card of the led suit that beats every led-suit card played.
pub proof fn lemma_last_player_takes_the_trick(
    hand: Seq<Card>,
    plays: Seq<Play>,
    trump: Suit,
    teammate_id: Option<u64>,
)
    requires
        plays.len() == 3,
        ({
            let lead = plays[0].card.suit;
            &&& !(teammate_id matches Some(t) && trick_holder(plays, lead, trump).player_id == t)
            &&& (lead == trump || forall|j: int| 0 <= j < 3 ==> #[trigger] plays[j].card.suit != trump)
            &&& exists|i: int|
                0 <= i < hand.len() && #[trigger] hand[i].suit == lead && forall|j: int|
                    0 <= j < 3 && #[trigger] plays[j].card.suit == lead ==> hand[i].rank.spec_value()
                        > plays[j].card.rank.spec_value()
        }),
    ensures
        ({
            let lead = plays[0].card.suit;
            let c = strategy_choice(hand, plays, trump, teammate_id);
            &&& hand.contains(c)
            &&& c.suit == lead
            &&& forall|j: int|
                0 <= j < 3 && #[trigger] plays[j].card.suit == lead ==> c.rank.spec_value()
                    > plays[j].card.rank.spec_value()
            &&& forall|i: int|
                0 <= i < hand.len() && #[trigger] hand[i].suit == lead && (forall|j: int|
                    0 <= j < 3 && #[trigger] plays[j].card.suit == lead ==> hand[i].rank.spec_value()
                        > plays[j].card.rank.spec_value()) ==> c.rank.spec_value() <= hand[i].rank.spec_value()
        }),
{
    let lead = plays[0].card.suit;
    let f = CardFilter::SuitIs(lead);
    let top = top_played(plays, lead) as int;
    lemma_top_played(plays, lead);
    assert(plays[0].card.suit == lead);
    let i0 = choose|i: int|
        0 <= i < hand.len() && #[trigger] hand[i].suit == lead && forall|j: int|
            0 <= j < 3 && #[trigger] plays[j].card.suit == lead ==> hand[i].rank.spec_value()
                > plays[j].card.rank.spec_value();
    let jt = choose|j: int|
        0 <= j < plays.len() && #[trigger] plays[j].card.suit == lead && plays[j].card.rank.spec_value()
            == top_played(plays, lead);
    assert(hand[i0].rank.spec_value() > top);
    assert(f.admits(hand[i0]));
    assert(has_suit(hand, lead));
    if lead != trump {
        assert(!suit_played(plays, trump));
    }
    lemma_lowest_matching(hand, f, top);
    let c = lowest_matching(hand, f, top)->0;
    assert(strategy_choice(hand, plays, trump, teammate_id) == c);
    assert forall|i: int|
        0 <= i < hand.len() && #[trigger] hand[i].suit == lead && (forall|j: int|
            0 <= j < 3 && #[trigger] plays[j].card.suit == lead ==> hand[i].rank.spec_value()
                > plays[j].card.rank.spec_value()) implies c.rank.spec_value() <= hand[i].rank.spec_value() by {
        assert(hand[i].rank.spec_value() > plays[jt].card.rank.spec_value());
        assert(f.admits(hand[i]));
    }
}

/// Law: whatever the bot's strategy picks is a legal play for its hand.
pub proof fn lemma_strategy_choice_is_valid(
    hand: Seq<Card>,
    plays: Seq<Play>,
    trump: Suit,
    teammate_id: Option<u64>,
)
    requires
        hand.len() > 0,
    ensures
        valid_play(strategy_choice(hand, plays, trump, teammate_id), hand, leading_suit_of(plays)),
{
    let c = strategy_choice(hand, plays, trump, teammate_id);
    lemma_first_ace(hand, CardFilter::SuitNot(trump));
    lemma_first_ace(hand, CardFilter::AnySuit);
    lemma_first_singleton(hand, hand, trump);
    lemma_lowest_matching(hand, CardFilter::SuitNot(trump), -1);
    lemma_lowest_matching(hand, CardFilter::AnySuit, -1);
    lemma_lowest_matching(hand, CardFilter::SuitIs(trump), -1);
    assert(CardFilter::AnySuit.admits(hand[0]) && hand[0].rank.spec_value() > -1);
    if plays.len() > 0 {
        let lead = plays[0].card.suit;
        let suit = CardFilter::SuitIs(lead);
        lemma_first_ace(hand, suit);
        lemma_lowest_matching(hand, suit, -1);
        lemma_lowest_matching(hand, suit, top_played(plays, lead) as int);
        lemma_lowest_matching(hand, CardFilter::SuitIs(trump), top_played(plays, trump) as int);
        if has_suit(hand, lead) {
            let i = choose|i: int| 0 <= i < hand.len() && #[trigger] hand[i].suit == lead;
            assert(suit.admits(hand[i]) && hand[i].rank.spec_value() > -1);
            assert(hand.contains(c) && c.suit == lead);
        } else {
            if has_suit(hand, trump) {
                let i = choose|i: int| 0 <= i < hand.len() && #[trigger] hand[i].suit == trump;
                assert(CardFilter::SuitIs(trump).admits(hand[i]) && hand[i].rank.spec_value() > -1);
            }
            assert(hand.contains(c));
        }
    } else {
        assert(hand.contains(c));
    }
}

/// The cards of the given suit, in hand order.
pub open spec fn cards_of_suit(hand: Seq<Card>, suit: Suit) -> Seq<Card>
    decreases hand.len(),
{
    if hand.len() == 0 {
        Seq::empty()
    } else {
        let prev = cards_of_suit(hand.drop_last(), suit);
        if hand.last().suit == suit {
            prev.push(hand.last())
        } else {
            prev
        }
    }
}

/// The legal cards for the trick so far, in hand order: the whole hand when
/// nothing was led or the hand holds none of the led suit, otherwise the
/// hand's cards of the led suit.
pub open spec fn legal_cards(hand: Seq<Card>, plays: Seq<Play>) -> Seq<Card> {
    if plays.len() == 0 || !has_suit(hand, plays[0].card.suit) {
        hand
    } else {
        cards_of_suit(hand, plays[0].card.suit)
    }
}

/// The cards of a suit are cards of the hand of that suit; there is one
/// whenever the hand holds the suit.
pub proof fn lemma_cards_of_suit(hand: Seq<Card>, suit: Suit)
    ensures
        forall|i: int|
            0 <= i < cards_of_suit(hand, suit).len() ==> #[trigger] cards_of_suit(hand, suit)[i].suit == suit
                && hand.contains(cards_of_suit(hand, suit)[i]),
        has_suit(hand, suit) ==> cards_of_suit(hand, suit).len() > 0,
    decreases hand.len(),
{
    if hand.len() > 0 {
        let t = hand.drop_last();
        lemma_cards_of_suit(t, suit);
        let cs = cards_of_suit(hand, suit);
        let ct = cards_of_suit(t, suit);
        assert forall|i: int| 0 <= i < cs.len() implies #[trigger] cs[i].suit == suit && hand.contains(cs[i]) by {
            if i < ct.len() {
                assert(cs[i] == ct[i]);
                assert(ct[i].suit == suit && t.contains(ct[i]));
                let j = choose|j: int| 0 <= j < t.len() && t[j] == ct[i];
                assert(hand[j] == t[j]);
            } else {
                assert(cs[i] == hand.last());
                assert(hand[hand.len() - 1] == hand.last());
            }
        }
        if has_suit(hand, suit) && hand.last().suit != suit {
            let i = choose|i: int| 0 <= i < hand.len() && #[trigger] hand[i].suit == suit;
            assert(i < hand.len() - 1);
            assert(t[i].suit == suit);
        }
    }
}

/// Law: every legal card of a non-empty hand is a legal play, and there is
/// at least one.
pub proof fn lemma_legal_cards_are_legal(hand: Seq<Card>, plays: Seq<Play>)
    requires
        hand.len() > 0,
    ensures
        legal_cards(hand, plays).len() > 0,
        forall|i: int|
            0 <= i < legal_cards(hand, plays).len() ==> valid_play(
                #[trigger] legal_cards(hand, plays)[i],
                hand,
                leading_suit_of(plays),
            ),
{
    if plays.len() > 0 {
        lemma_cards_of_suit(hand, plays[0].card.suit);
    }
    assert forall|i: int| 0 <= i < legal_cards(hand, plays).len() implies valid_play(
        #[trigger] legal_cards(hand, plays)[i],
        hand,
        leading_suit_of(plays),
    ) by {
        if plays.len() == 0 || !has_suit(hand, plays[0].card.suit) {
            assert(hand.contains(hand[i]));
        }
    }
}

/// The legal cards for the trick so far, in hand order.
pub fn legal_card_list(hand: &[Card], plays: &[Play]) -> (v: Vec<Card>)
    ensures
        v@ == legal_cards(hand@, plays@),
{
    let everything = if plays.len() == 0 {
        true
    } else {
        !hand_has_suit(hand, plays[0].card.suit)
    };
    let mut v: Vec<Card> = Vec::new();
    let mut i: usize = 0;
    while i < hand.len()
        invariant
            0 <= i <= hand.len(),
            everything == (plays@.len() == 0 || !has_suit(hand@, plays@[0].card.suit)),
            everything ==> v@ == hand@.take(i as int),
            !everything ==> v@ == cards_of_suit(hand@.take(i as int), plays@[0].card.suit),
        decreases hand.len() - i,
    {
        assert(hand@.take(i + 1).drop_last() =~= hand@.take(i as int));
        assert(hand@.take(i + 1).last() == hand@[i as int]);
        if everything || hand[i].suit == plays[0].card.suit {
            v.push(hand[i]);
        }
        i = i + 1;
        assert(everything ==> v@ =~= hand@.take(i as int));
    }
    assert(hand@.take(hand.len() as int) =~= hand@);
    v
}

/// The bot's card for its draws: a percentile `roll` below the difficulty's
/// random-play chance plays the `pick`-th legal card; any other roll plays
/// the strategy's card.
pub open spec fn bot_card(
    hand: Seq<Card>,
    plays: Seq<Play>,
    trump: Suit,
    teammate_id: Option<u64>,
    difficulty: u8,
    roll: u8,
    pick: int,
) -> Card {
    if roll < random_play_chance(difficulty) {
        legal_cards(hand, plays)[pick]
    } else {
        strategy_choice(hand, plays, trump, teammate_id)
    }
}

/// Draws that the bot can make: a roll below 100 and, when the roll calls
/// for a random play, a pick among the legal cards.
pub open spec fn possible_draws(hand: Seq<Card>, plays: Seq<Play>, difficulty: u8, roll: u8, pick: int) -> bool {
    &&& roll < 100
    &&& roll < random_play_chance(difficulty) ==> 0 <= pick < legal_cards(hand, plays).len()
}

/// Percent chance that a bot of the given difficulty plays a random legal
/// card: 40 for difficulty 0 (easy), 10 for 1 (medium), 0 above.
pub open spec fn random_play_chance(difficulty: u8) -> u8 {
    if difficulty == 0 {
        40
    } else if difficulty == 1 {
        10
    } else {
        0
    }
}

fn play_chance(difficulty: u8) -> (c: u8)
    ensures
        c == random_play_chance(difficulty),
{
    match difficulty {
        0 => 40,
        1 => 10,
        _ => 0,
    }
}

/// The bot's card once its draws are known (see `bot_card`).
pub fn decide_card_for_draws(
    hand: &[Card],
    plays: &[Play],
    trump: Suit,
    teammate_id: Option<u64>,
    difficulty: u8,
    roll: u8,
    pick: usize,
) -> (c: Card)
    requires
        hand.len() > 0,
        roll < random_play_chance(difficulty) ==> pick < legal_cards(hand@, plays@).len(),
    ensures
        c == bot_card(hand@, plays@, trump, teammate_id, difficulty, roll, pick as int),
        valid_play(c, hand@, leading_suit_of(plays@)),
{
    proof {
        lemma_strategy_choice_is_valid(hand@, plays@, trump, teammate_id);
        lemma_legal_cards_are_legal(hand@, plays@);
    }
    if roll < play_chance(difficulty) {
        let legal = legal_card_list(hand, plays);
        return legal[pick];
    }
    if plays.len() == 0 {
        first_player_strategy(hand, trump)
    } else {
        following_player_strategy(hand, plays, trump, teammate_id)
    }
}

/// Decide which card to play given the bot's hand, current plays, trump suit,
/// and teammate info: roll a percentile on `rng`; if the roll calls for a
/// random play, draw one of the legal cards uniformly; then play as
/// `decide_card_for_draws` does for these draws. Difficulty 0 plays a random
/// legal card 40% of the time, difficulty 1 10% of the time, higher
/// difficulties never.
pub fn decide_card(
    hand: &[Card],
    plays: &[Play],
    trump: Suit,
    teammate_id: Option<u64>,
    difficulty: u8,
    rng: &mut StdRng,
) -> (c: Card)
    requires
        hand.len() > 0,
    ensures
        exists|roll: u8, pick: int|
            possible_draws(hand@, plays@, difficulty, roll, pick) && c == #[trigger] bot_card(
                hand@,
                plays@,
                trump,
                teammate_id,
                difficulty,
                roll,
                pick,
            ),
        valid_play(c, hand@, leading_suit_of(plays@)),
        difficulty >= 2 ==> c == strategy_choice(hand@, plays@, trump, teammate_id),
{
    let roll = gen_percent(rng);
    let pick: usize = if roll < play_chance(difficulty) {
        let n = legal_card_list(hand, plays).len();
        proof {
            lemma_legal_cards_are_legal(hand@, plays@);
        }
        gen_index(rng, n)
    } else {
        0
    };
    let c = decide_card_for_draws(hand, plays, trump, teammate_id, difficulty, roll, pick);
    assert(possible_draws(hand@, plays@, difficulty, roll, pick as int));
    c
}

/// Law: the trick winner the bot reads off a trick is the player that
/// `resolve_hand_winner` declares once the trick is led by its first card.
pub proof fn lemma_current_winner_agrees(plays: Seq<Play>, trump: Suit)
    requires
        plays.len() > 0,
    ensures
        current_winner(plays, plays[0].card.suit, trump) matches Some(p)
            && crate::game_logic::hand_winner(plays, trump) == Some(p.player_id),
{
}

/// Number of cards of the suit in a multiset of cards.
pub open spec fn suit_count_in(m: vstd::multiset::Multiset<Card>, suit: Suit) -> nat {
    m.count(Card { suit, rank: Rank::Ace }) + m.count(Card { suit, rank: Rank::King }) + m.count(
        Card { suit, rank: Rank::Queen },
    ) + m.count(Card { suit, rank: Rank::Jack }) + m.count(Card { suit, rank: Rank::Ten }) + m.count(
        Card { suit, rank: Rank::Nine },
    ) + m.count(Card { suit, rank: Rank::Eight }) + m.count(Card { suit, rank: Rank::Seven })
}

/// Highest rank value of the suit in a multiset of cards (0 when there is none).
pub open spec fn top_value_in(m: vstd::multiset::Multiset<Card>, suit: Suit) -> u8 {
    if m.count(Card { suit, rank: Rank::Ace }) > 0 {
        7
    } else if m.count(Card { suit, rank: Rank::King }) > 0 {
        6
    } else if m.count(Card { suit, rank: Rank::Queen }) > 0 {
        5
    } else if m.count(Card { suit, rank: Rank::Jack }) > 0 {
        4
    } else if m.count(Card { suit, rank: Rank::Ten }) > 0 {
        3
    } else if m.count(Card { suit, rank: Rank::Nine }) > 0 {
        2
    } else if m.count(Card { suit, rank: Rank::Eight }) > 0 {
        1
    } else {
        0
    }
}

/// A suit's count and top card depend only on which cards there are, not on
/// their order.
pub proof fn lemma_suit_summary_by_multiset(cards: Seq<Card>, suit: Suit)
    ensures
        suit_count(cards, suit) == suit_count_in(cards.to_multiset(), suit),
        top_value(cards, suit) == top_value_in(cards.to_multiset(), suit),
    decreases cards.len(),
{
    broadcast use vstd::seq_lib::group_to_multiset_ensures;

    if cards.len() == 0 {
        assert(cards.to_multiset() =~= vstd::multiset::Multiset::empty());
    } else {
        let t = cards.drop_last();
        lemma_suit_summary_by_multiset(t, suit);
        assert(t.push(cards.last()) =~= cards);
        assert(cards.to_multiset() =~= t.to_multiset().insert(cards.last()));
    }
}

/// Law: the bot's trump choice does not depend on the order of the cards in
/// its hand.
pub proof fn lemma_trump_choice_ignores_order(cards1: Seq<Card>, cards2: Seq<Card>)
    requires
        cards1.to_multiset() == cards2.to_multiset(),
    ensures
        preferred_trump(cards1) == preferred_trump(cards2),
{
    lemma_suit_summary_by_multiset(cards1, Suit::Hearts);
    lemma_suit_summary_by_multiset(cards2, Suit::Hearts);
    lemma_suit_summary_by_multiset(cards1, Suit::Diamonds);
    lemma_suit_summary_by_multiset(cards2, Suit::Diamonds);
    lemma_suit_summary_by_multiset(cards1, Suit::Clubs);
    lemma_suit_summary_by_multiset(cards2, Suit::Clubs);
    lemma_suit_summary_by_multiset(cards1, Suit::Spades);
    lemma_suit_summary_by_multiset(cards2, Suit::Spades);
}

/// Law: the suit the bot names holds at least as many cards as any other
/// suit (counted as the bot counts, modulo 256), and among suits with as many
/// cards it has the highest top card.
pub proof fn lemma_preferred_trump_is_best(cards: Seq<Card>, s: Suit)
    ensures
        ({
            let t = preferred_trump(cards);
            &&& count_u8(cards, t) >= count_u8(cards, s)
            &&& count_u8(cards, t) == count_u8(cards, s) ==> top_value(cards, t) >= top_value(cards, s)
        }),
{
}

} // verus!
