use vstd::prelude::*;
use crate::types::{Card, GameStatus, Play, RoomMode, Suit};
use crate::deck::dealt_count;
use crate::game_logic::{hand_winner, valid_play};
use crate::bot_ai::{
    bot_card, count_u8, leading_suit_of, possible_draws, preferred_trump, select_trump, top_value,
};
use crate::game_logic::{calculate_round_score, round_score};
use crate::queries::player_pos_by_identity;
use crate::tables::{DbView, GameDb, GameError, HandRecord, HandView, RecordView, Room, RoomView, Score};
use crate::queries::{
    first_index, hand_pos, latest_record, player_pos, player_pos_by_seat, room_pos, score_pos,
    seating,
};
use crate::ops::{insert_record, put_hand, put_record, purge_records, with_room, with_score};

verus! {

/// What the server does next, on its own, after a step of a request.
#[derive(Clone, Copy, Debug, PartialEq, Eq, Structural)]
pub enum NextStep {
    /// Nothing more.
    Done,
    /// A bot names this suit as trump.
    SelectTrump(Suit),
    /// If it is a bot's turn, the bot plays.
    BotTurn,
    /// Score the round that just ended.
    EndRound,
    /// A bot dealer deals the next round.
    AutoDeal,
}

/// The step's result agrees with the step's specification: the next step on
/// success with the given database, or the given error.
pub open spec fn step_matches(
    r: Result<NextStep, GameError>,
    after: DbView,
    expected: Result<(DbView, NextStep), GameError>,
) -> bool {
    match expected {
        Ok((v, n)) => r == Ok::<NextStep, GameError>(n) && after == v,
        Err(e) => r == Err::<NextStep, GameError>(e),
    }
}

/// Whether an error is met before a step writes anything: every error but a
/// key clash or an exhausted id sequence, which only an insert can meet.
pub open spec fn found_before_writes(e: GameError) -> bool {
    e != GameError::DuplicateKey && e != GameError::IdSequenceExhausted
}

// ── Giving out cards ───────────────────────────────────────────────────

/// Delete the player's hand row (if any) and insert it again with `more`
/// appended; a player without a hand row is left alone.
pub open spec fn extend_hand(v: DbView, player_id: u64, more: Seq<Card>) -> Result<DbView, GameError> {
    match hand_pos(v, player_id) {
        None => Ok(v),
        Some(i) => {
            let h = v.hands[i];
            let v1 = DbView { hands: v.hands.remove(i), ..v };
            if hand_pos(v1, h.player_id) is Some {
                Err(GameError::DuplicateKey)
            } else {
                Ok(
                    DbView {
                        hands: v1.hands.push(HandView { player_id: h.player_id, cards: h.cards + more }),
                        ..v1
                    },
                )
            }
        },
    }
}

/// Give four cards (or what is left) from the top of `deck` to each player of
/// `order` in turn, either as a new hand or appended to the current one.
/// Returns the database and the rest of the deck.
pub open spec fn deal_round(v: DbView, order: Seq<u64>, deck: Seq<Card>, append: bool) -> Result<
    (DbView, Seq<Card>),
    GameError,
>
    decreases order.len(),
{
    if order.len() == 0 {
        Ok((v, deck))
    } else {
        match deal_round(v, order.drop_last(), deck, append) {
            Err(e) => Err(e),
            Ok((v1, d1)) => {
                let n = dealt_count(4, d1.len());
                let given = if append {
                    extend_hand(v1, order.last(), d1.take(n))
                } else {
                    put_hand(v1, order.last(), d1.take(n))
                };
                match given {
                    Err(e) => Err(e),
                    Ok(v2) => Ok((v2, d1.skip(n))),
                }
            },
        }
    }
}

proof fn lemma_deal_round_error(v: DbView, order: Seq<u64>, deck: Seq<Card>, append: bool, k: int)
    requires
        0 <= k <= order.len(),
        deal_round(v, order.take(k), deck, append) is Err,
    ensures
        deal_round(v, order, deck, append) == deal_round(v, order.take(k), deck, append),
    decreases order.len() - k,
{
    if k < order.len() {
        assert(order.take(k + 1).drop_last() =~= order.take(k));
        lemma_deal_round_error(v, order, deck, append, k + 1);
    } else {
        assert(order.take(k) =~= order);
    }
}

/// Dealing touches only the hand table.
pub proof fn lemma_deal_round_frame(v: DbView, order: Seq<u64>, deck: Seq<Card>, append: bool)
    ensures
        deal_round(v, order, deck, append) matches Ok((v1, rest)) ==> {
            &&& v1.rooms == v.rooms
            &&& v1.players == v.players
            &&& v1.records == v.records
            &&& v1.scores == v.scores
            &&& v1.next_player_id == v.next_player_id
            &&& v1.next_room_id == v.next_room_id
            &&& v1.next_record_id == v.next_record_id
        },
    decreases order.len(),
{
    if order.len() > 0 {
        lemma_deal_round_frame(v, order.drop_last(), deck, append);
    }
}

/// Dealing fails only on a key clash in the hand table.
pub proof fn lemma_deal_round_error_kind(v: DbView, order: Seq<u64>, deck: Seq<Card>, append: bool)
    ensures
        deal_round(v, order, deck, append) matches Err(e) ==> e == GameError::DuplicateKey,
    decreases order.len(),
{
    if order.len() > 0 {
        lemma_deal_round_error_kind(v, order.drop_last(), deck, append);
    }
}

impl GameDb {
    /// Delete the player's hand row (if any) and insert it with `more` appended.
    pub fn extend_hand(&mut self, player_id: u64, more: Vec<Card>) -> (res: Result<(), GameError>)
        ensures
            final(self).rooms.len() == old(self).rooms.len(),
            match extend_hand(old(self)@, player_id, more@) {
                Ok(v) => res is Ok && final(self)@ == v,
                Err(e) => res == Err::<(), GameError>(e),
            },
    {
        match self.find_hand(player_id) {
            None => Ok(()),
            Some(i) => {
                let ghost before = self.player_hands@;
                let mut h = self.player_hands.remove(i);
                assert(crate::tables::hands_view(self.player_hands@) =~= crate::tables::hands_view(
                    before,
                ).remove(i as int));
                if self.find_hand(h.player_id).is_some() {
                    return Err(GameError::DuplicateKey);
                }
                let mut more = more;
                h.cards.append(&mut more);
                let ghost hv = h@;
                let ghost before2 = self.player_hands@;
                self.player_hands.push(h);
                assert(crate::tables::hands_view(self.player_hands@) =~= crate::tables::hands_view(
                    before2,
                ).push(hv));
                Ok(())
            },
        }
    }
}

/// Deal to the players of `order` from `deck`; returns the rest of the deck.
fn deal_to_players(db: &mut GameDb, order: &Vec<u64>, deck: Vec<Card>, append: bool) -> (res: Result<
    Vec<Card>,
    GameError,
>)
    ensures
        final(db).rooms.len() == old(db).rooms.len(),
        match deal_round(old(db)@, order@, deck@, append) {
            Ok((v, rest)) => res matches Ok(d) && d@ == rest && final(db)@ == v,
            Err(e) => res == Err::<Vec<Card>, GameError>(e),
        },
{
    let ghost v0 = db@;
    let ghost deck0 = deck@;
    let mut pile = deck;
    let mut i: usize = 0;
    while i < order.len()
        invariant
            0 <= i <= order.len(),
            v0 == old(db)@,
            deck0 == deck@,
            db.rooms.len() == old(db).rooms.len(),
            deal_round(v0, order@.take(i as int), deck0, append) == Ok::<
                (DbView, Seq<Card>),
                GameError,
            >((db@, pile@)),
        decreases order.len() - i,
    {
        assert(order@.take(i + 1).drop_last() =~= order@.take(i as int));
        assert(order@.take(i + 1).last() == order@[i as int]);
        let ghost vb = db@;
        let ghost db_deck = pile@;
        let cards = crate::deck::deal_cards(&mut pile, 4);
        let given = if append {
            db.extend_hand(order[i], cards)
        } else {
            db.put_hand(order[i], cards)
        };
        match given {
            Err(e) => {
                proof {
                    assert(deal_round(v0, order@.take(i + 1), deck0, append) == Err::<
                        (DbView, Seq<Card>),
                        GameError,
                    >(e));
                    lemma_deal_round_error(v0, order@, deck0, append, i + 1);
                }
                return Err(e);
            },
            Ok(_) => {},
        }
        i = i + 1;
    }
    assert(order@.take(order.len() as int) =~= order@);
    Ok(pile)
}

// ── Naming trump ───────────────────────────────────────────────────────

/// Trump is named: everyone gets four more cards, the room's old hand
/// records are dropped, the first hand of the round is opened, the round's
/// hand counts are reset and play starts with the trump selector.
pub open spec fn select_trump_step(v: DbView, room_id: u64, suit: Suit) -> Result<
    (DbView, NextStep),
    GameError,
> {
    match room_pos(v, room_id) {
        None => Err(GameError::RoomNotFound),
        Some(pos) => {
            let room = v.rooms[pos];
            match deal_round(v, seating(v, room_id), room.deck, true) {
                Err(e) => Err(e),
                Ok((v1, rest)) => {
                    let v2 = purge_records(v1, room_id);
                    match insert_record(v2, first_record(room_id, 1)) {
                        Err(e) => Err(e),
                        Ok(v3) => {
                            let v4 = match score_pos(v3, room_id) {
                                Some(sp) => with_score(
                                    v3,
                                    sp,
                                    Score { team_a_hands: 0, team_b_hands: 0, ..v3.scores[sp] },
                                ),
                                None => v3,
                            };
                            let room2 = RoomView {
                                trump_suit: Some(suit),
                                status: GameStatus::Playing,
                                current_turn_index: room.trump_selector_index,
                                deck: rest,
                                ..room
                            };
                            Ok((with_room(v4, pos, room2), NextStep::BotTurn))
                        },
                    }
                },
            }
        },
    }
}

/// An empty record for the given hand of a room (its id is assigned on insert).
pub open spec fn first_record(room_id: u64, hand_number: u8) -> RecordView {
    RecordView {
        id: 0,
        room_id,
        hand_number,
        plays: Seq::empty(),
        winner_id: None,
        leading_suit: None,
    }
}

fn empty_record(room_id: u64, hand_number: u8) -> (r: HandRecord)
    ensures
        r@ == first_record(room_id, hand_number),
{
    HandRecord { id: 0, room_id, hand_number, plays: Vec::new(), winner_id: None, leading_suit: None }
}

/// Internal function to handle trump selection and dealing remaining cards.
pub fn do_select_trump(db: &mut GameDb, room_id: u64, suit: Suit) -> (r: Result<NextStep, GameError>)
    ensures
        step_matches(r, final(db)@, select_trump_step(old(db)@, room_id, suit)),
        r matches Err(e) && found_before_writes(e) ==> final(db)@ == old(db)@,
{
    let pos = match db.find_room(room_id) {
        Some(p) => p,
        None => {
            return Err(GameError::RoomNotFound);
        },
    };
    let mut room = db.rooms[pos].duplicate();
    let ghost room0 = room@;
    let remaining = crate::tables::copy_cards(&room.deck);
    let order = db.seating_order(room_id);
    proof {
        lemma_deal_round_frame(db@, order@, remaining@, true);
        lemma_deal_round_error_kind(db@, order@, remaining@, true);
    }
    let remaining = match deal_to_players(db, &order, remaining, true) {
        Ok(d) => d,
        Err(e) => {
            return Err(e);
        },
    };
    db.purge_records(room_id);
    match db.insert_record(empty_record(room_id, 1)) {
        Err(e) => {
            return Err(e);
        },
        Ok(_) => {},
    }
    if let Some(sp) = db.find_score(room_id) {
        let mut score = db.scores[sp];
        score.team_a_hands = 0;
        score.team_b_hands = 0;
        db.set_score(sp, score);
    }
    room.trump_suit = Some(suit);
    room.status = GameStatus::Playing;
    room.current_turn_index = room.trump_selector_index;
    room.deck = remaining;
    assert(room@ == RoomView {
        trump_suit: Some(suit),
        status: GameStatus::Playing,
        current_turn_index: room0.trump_selector_index,
        deck: room@.deck,
        ..room0
    });
    db.set_room(pos, room);
    Ok(NextStep::BotTurn)
}

// ── Playing a card ─────────────────────────────────────────────────────

pub open spec fn card_is(c: Card) -> spec_fn(Card) -> bool {
    |x: Card| x == c
}

/// The hand with the first copy of `card` taken out.
pub open spec fn without_card(cards: Seq<Card>, card: Card) -> Seq<Card> {
    match first_index(cards, card_is(card)) {
        Some(k) => cards.remove(k),
        None => cards,
    }
}

/// The record after `card` is added to the trick: the first card sets the
/// leading suit, and the fourth card decides the winner.
pub open spec fn record_after_play(rec: RecordView, player_id: u64, card: Card, trump: Suit) -> RecordView {
    let plays = rec.plays.push(Play { player_id, card });
    RecordView {
        plays,
        leading_suit: if rec.plays.len() == 0 {
            Some(card.suit)
        } else {
            rec.leading_suit
        },
        winner_id: if plays.len() == 4 {
            hand_winner(plays, trump)
        } else {
            rec.winner_id
        },
        ..rec
    }
}

/// Credit the hand to team A (or B) in the room's score, if it has one.
pub open spec fn count_hand_won(v: DbView, room_id: u64, team_a: bool) -> Result<DbView, GameError> {
    match score_pos(v, room_id) {
        None => Ok(v),
        Some(sp) => {
            let s = v.scores[sp];
            if team_a {
                Ok(with_score(v, sp, Score { team_a_hands: s.team_a_hands.wrapping_add(1), ..s }))
            } else {
                Ok(with_score(v, sp, Score { team_b_hands: s.team_b_hands.wrapping_add(1), ..s }))
            }
        },
    }
}

/// A complete hand was recorded: its winner's team gets the hand; after the
/// eighth hand the round ends, otherwise the winner leads the next hand.
pub open spec fn finish_hand(v: DbView, pos: int, room: RoomView, room_id: u64, winner: Option<u64>) -> Result<
    (DbView, NextStep),
    GameError,
> {
    match winner {
        None => Ok((v, NextStep::Done)),
        Some(wid) => match player_pos(v, wid) {
            None => Ok((v, NextStep::Done)),
            Some(pp) => {
                let w = v.players[pp];
                match count_hand_won(v, room_id, w.team == seq!['A']) {
                    Err(e) => Err(e),
                    Ok(v1) => if room.hand_number >= 8 {
                        Ok((v1, NextStep::EndRound))
                    } else {
                        let next = (room.hand_number + 1) as u8;
                        let v2 = with_room(
                            v1,
                            pos,
                            RoomView { hand_number: next, current_turn_index: w.seat_index, ..room },
                        );
                        match insert_record(v2, first_record(room_id, next)) {
                            Err(e) => Err(e),
                            Ok(v3) => Ok((v3, NextStep::BotTurn)),
                        }
                    },
                }
            },
        },
    }
}

/// A player plays a card in a room: it must be a legal play; it leaves the
/// hand and joins the current trick; the turn passes clockwise, or, once four
/// cards are down, the hand is decided.
pub open spec fn play_step(v: DbView, room_id: u64, player_id: u64, card: Card) -> Result<
    (DbView, NextStep),
    GameError,
> {
    match room_pos(v, room_id) {
        None => Err(GameError::RoomNotFound),
        Some(pos) => {
            let room = v.rooms[pos];
            match room.trump_suit {
                None => Err(GameError::TrumpNotSet),
                Some(trump) => match hand_pos(v, player_id) {
                    None => Err(GameError::HandNotFound),
                    Some(hp) => match latest_record(v.records, room_id, room.hand_number) {
                        None => Err(GameError::HandRecordNotFound),
                        Some(rp) => {
                            let hand = v.hands[hp];
                            let rec = v.records[rp];
                            if !valid_play(card, hand.cards, leading_suit_of(rec.plays)) {
                                Err(GameError::MustFollowSuit)
                            } else {
                                match put_hand(v, player_id, without_card(hand.cards, card)) {
                                    Err(e) => Err(e),
                                    Ok(v1) => advance_after_play(
                                        v1,
                                        pos,
                                        room,
                                        room_id,
                                        record_after_play(rec, player_id, card, trump),
                                    ),
                                }
                            }
                        },
                    },
                },
            }
        },
    }
}

/// The trick's record is stored; then either the hand is decided or the turn
/// passes to the next seat clockwise.
pub open spec fn advance_after_play(v: DbView, pos: int, room: RoomView, room_id: u64, rec: RecordView) -> Result<
    (DbView, NextStep),
    GameError,
> {
    match put_record(v, rec) {
        Err(e) => Err(e),
        Ok(v2) => if rec.plays.len() == 4 {
            finish_hand(v2, pos, room, room_id, rec.winner_id)
        } else {
            Ok(
                (
                    with_room(
                        v2,
                        pos,
                        RoomView { current_turn_index: room.current_turn_index.wrapping_add(1) % 4, ..room },
                    ),
                    NextStep::BotTurn,
                ),
            )
        },
    }
}

fn position_of(cards: &Vec<Card>, card: Card) -> (r: Option<usize>)
    ensures
        crate::queries::same_pos(r, first_index(cards@, card_is(card))),
        r matches Some(i) ==> i < cards.len(),
{
    let mut i: usize = 0;
    while i < cards.len()
        invariant
            0 <= i <= cards.len(),
            forall|j: int| 0 <= j < i ==> !card_is(card)(#[trigger] cards@[j]),
        decreases cards.len() - i,
    {
        if cards[i] == card {
            proof {
                crate::queries::lemma_first_index_at(cards@, card_is(card), i as int);
            }
            return Some(i);
        }
        i = i + 1;
    }
    proof {
        crate::queries::lemma_first_index_none(cards@, card_is(card));
    }
    None
}

fn count_hand(db: &mut GameDb, room_id: u64, team_a: bool) -> (r: Result<(), GameError>)
    ensures
        final(db).rooms.len() == old(db).rooms.len(),
        match count_hand_won(old(db)@, room_id, team_a) {
            Ok(v) => r is Ok && final(db)@ == v,
            Err(e) => r == Err::<(), GameError>(e),
        },
{
    if let Some(sp) = db.find_score(room_id) {
        let mut score = db.scores[sp];
        if team_a {
            score.team_a_hands = score.team_a_hands.wrapping_add(1);
        } else {
            score.team_b_hands = score.team_b_hands.wrapping_add(1);
        }
        db.set_score(sp, score);
    }
    Ok(())
}

/// Internal card play logic shared by human and bot players.
pub fn do_play_card(db: &mut GameDb, room_id: u64, player_id: u64, card: Card) -> (r: Result<
    NextStep,
    GameError,
>)
    ensures
        step_matches(r, final(db)@, play_step(old(db)@, room_id, player_id, card)),
        r matches Err(e) && found_before_writes(e) ==> final(db)@ == old(db)@,
{
    let pos = match db.find_room(room_id) {
        Some(p) => p,
        None => {
            return Err(GameError::RoomNotFound);
        },
    };
    let room = db.rooms[pos].duplicate();
    let ghost room0 = room@;
    let trump = match room.trump_suit {
        Some(t) => t,
        None => {
            return Err(GameError::TrumpNotSet);
        },
    };
    let hp = match db.find_hand(player_id) {
        Some(h) => h,
        None => {
            return Err(GameError::HandNotFound);
        },
    };
    let rp = match db.find_current_hand_record(room_id, room.hand_number) {
        Some(r) => r,
        None => {
            return Err(GameError::HandRecordNotFound);
        },
    };
    let mut rec = db.hand_records[rp].duplicate();
    let ghost rec0 = rec@;
    let leading_suit = if rec.plays.len() == 0 {
        None
    } else {
        Some(rec.plays[0].card.suit)
    };
    if !crate::game_logic::is_valid_play(card, db.player_hands[hp].cards.as_slice(), leading_suit) {
        return Err(GameError::MustFollowSuit);
    }
    let mut updated_cards = crate::tables::copy_cards(&db.player_hands[hp].cards);
    let card_pos = match position_of(&updated_cards, card) {
        Some(k) => k,
        None => {
            proof {
                crate::queries::lemma_first_index(updated_cards@, card_is(card));
                let j = choose|j: int| 0 <= j < updated_cards@.len() && updated_cards@[j] == card;
                assert(card_is(card)(updated_cards@[j]));
            }
            return Err(GameError::CardNotInHand);
        },
    };
    updated_cards.remove(card_pos);
    match db.put_hand(player_id, updated_cards) {
        Err(e) => {
            return Err(e);
        },
        Ok(_) => {},
    }
    let new_leading_suit = if rec.plays.len() == 0 {
        Some(card.suit)
    } else {
        rec.leading_suit
    };
    rec.plays.push(Play { player_id, card });
    rec.leading_suit = new_leading_suit;
    if rec.plays.len() == 4 {
        rec.winner_id = crate::game_logic::resolve_hand_winner(rec.plays.as_slice(), trump);
    }
    assert(rec@ == record_after_play(rec0, player_id, card, trump));
    store_play(db, pos, room, room_id, rec)
}

fn store_play(db: &mut GameDb, pos: usize, room: Room, room_id: u64, rec: HandRecord) -> (r: Result<
    NextStep,
    GameError,
>)
    requires
        pos < old(db).rooms.len(),
    ensures
        step_matches(r, final(db)@, advance_after_play(old(db)@, pos as int, room@, room_id, rec@)),
        r matches Err(e) && found_before_writes(e) ==> final(db)@ == old(db)@,
{
    let ghost rv = rec@;
    let winner_id = rec.winner_id;
    let complete = rec.plays.len() == 4;
    match db.put_record(rec) {
        Err(e) => {
            return Err(e);
        },
        Ok(_) => {},
    }
    if complete {
        finish_hand_exec(db, pos, room, room_id, winner_id)
    } else {
        let mut room2 = room;
        room2.current_turn_index = room2.current_turn_index.wrapping_add(1) % 4;
        db.set_room(pos, room2);
        Ok(NextStep::BotTurn)
    }
}

fn finish_hand_exec(db: &mut GameDb, pos: usize, room: Room, room_id: u64, winner: Option<u64>) -> (r:
    Result<NextStep, GameError>)
    requires
        pos < old(db).rooms.len(),
    ensures
        step_matches(r, final(db)@, finish_hand(old(db)@, pos as int, room@, room_id, winner)),
        r matches Err(e) && found_before_writes(e) ==> final(db)@ == old(db)@,
{
    match winner {
        None => Ok(NextStep::Done),
        Some(wid) => match db.find_player(wid) {
            None => Ok(NextStep::Done),
            Some(pp) => {
                let team_a = crate::text::is_team_a(&db.players[pp].team);
                let seat = db.players[pp].seat_index;
                match count_hand(db, room_id, team_a) {
                    Err(e) => {
                        return Err(e);
                    },
                    Ok(_) => {},
                }
                if room.hand_number >= 8 {
                    Ok(NextStep::EndRound)
                } else {
                    let next_hand = room.hand_number + 1;
                    let mut room2 = room;
                    room2.hand_number = next_hand;
                    room2.current_turn_index = seat;
                    db.set_room(pos, room2);
                    match db.insert_record(empty_record(room_id, next_hand)) {
                        Err(e) => {
                            return Err(e);
                        },
                        Ok(_) => {},
                    }
                    Ok(NextStep::BotTurn)
                }
            },
        },
    }
}

// ── Ending a round ─────────────────────────────────────────────────────

/// The round is scored into the room's points. At 10 points for either team
/// the game is over; otherwise the deal passes clockwise, the next round
/// waits for a deal, and in a single-player room a bot dealer deals at once.
pub open spec fn end_round_step(v: DbView, room_id: u64) -> Result<(DbView, NextStep), GameError> {
    match room_pos(v, room_id) {
        None => Err(GameError::RoomNotFound),
        Some(pos) => {
            let room = v.rooms[pos];
            match score_pos(v, room_id) {
                None => Err(GameError::ScoreNotFound),
                Some(sp) => {
                    let score = v.scores[sp];
                    match player_pos_by_seat(v, room_id, room.trump_selector_index) {
                        None => Err(GameError::TrumpSelectorNotFound),
                        Some(tp) => {
                            let result = round_score(
                                score.team_a_hands,
                                score.team_b_hands,
                                v.players[tp].team == seq!['A'],
                                room.previous_round_tied,
                            );
                            let score2 = Score {
                                team_a_points: score.team_a_points.wrapping_add(
                                    result.team_a_round_points,
                                ),
                                team_b_points: score.team_b_points.wrapping_add(
                                    result.team_b_round_points,
                                ),
                                ..score
                            };
                            let v1 = with_score(v, sp, score2);
                            if score2.team_a_points >= 10 || score2.team_b_points >= 10 {
                                Ok(
                                    (
                                        with_room(v1, pos, RoomView { status: GameStatus::GameOver, ..room }),
                                        NextStep::Done,
                                    ),
                                )
                            } else {
                                let d = room.dealer_index.wrapping_add(1) % 4;
                                let room2 = RoomView {
                                    dealer_index: d,
                                    trump_selector_index: ((d + 1) % 4) as u8,
                                    current_turn_index: d,
                                    status: GameStatus::WaitingForDeal,
                                    trump_suit: None,
                                    hand_number: 0,
                                    previous_round_tied: result.is_tie,
                                    deck: Seq::empty(),
                                    ..room
                                };
                                let v2 = with_room(v1, pos, room2);
                                let bot_dealer = match player_pos_by_seat(v2, room_id, d) {
                                    Some(dp) => v2.players[dp].is_bot,
                                    None => false,
                                };
                                if room.mode == RoomMode::SinglePlayer && bot_dealer {
                                    Ok((v2, NextStep::AutoDeal))
                                } else {
                                    Ok((v2, NextStep::Done))
                                }
                            }
                        },
                    }
                },
            }
        },
    }
}

/// End the current round, calculate scores, check for game over.
pub fn do_end_round(db: &mut GameDb, room_id: u64) -> (r: Result<NextStep, GameError>)
    ensures
        step_matches(r, final(db)@, end_round_step(old(db)@, room_id)),
        r matches Err(e) && found_before_writes(e) ==> final(db)@ == old(db)@,
{
    let pos = match db.find_room(room_id) {
        Some(p) => p,
        None => {
            return Err(GameError::RoomNotFound);
        },
    };
    let mut room = db.rooms[pos].duplicate();
    let ghost room0 = room@;
    let sp = match db.find_score(room_id) {
        Some(p) => p,
        None => {
            return Err(GameError::ScoreNotFound);
        },
    };
    let mut score = db.scores[sp];
    let tp = match db.find_player_by_seat(room_id, room.trump_selector_index) {
        Some(p) => p,
        None => {
            return Err(GameError::TrumpSelectorNotFound);
        },
    };
    let trump_team_is_a = crate::text::is_team_a(&db.players[tp].team);
    let result = calculate_round_score(
        score.team_a_hands,
        score.team_b_hands,
        trump_team_is_a,
        room.previous_round_tied,
    );
    score.team_a_points = score.team_a_points.wrapping_add(result.team_a_round_points);
    score.team_b_points = score.team_b_points.wrapping_add(result.team_b_round_points);
    db.set_score(sp, score);
    if score.team_a_points >= 10 || score.team_b_points >= 10 {
        room.status = GameStatus::GameOver;
        db.set_room(pos, room);
        return Ok(NextStep::Done);
    }
    room.dealer_index = room.dealer_index.wrapping_add(1) % 4;
    room.trump_selector_index = (room.dealer_index + 1) % 4;
    room.current_turn_index = room.dealer_index;
    room.status = GameStatus::WaitingForDeal;
    room.trump_suit = None;
    room.hand_number = 0;
    room.previous_round_tied = result.is_tie;
    room.deck = Vec::new();
    let mode = room.mode;
    let dealer = room.dealer_index;
    assert(room@.deck =~= Seq::<Card>::empty());
    db.set_room(pos, room);
    if mode == RoomMode::SinglePlayer {
        if let Some(dp) = db.find_player_by_seat(room_id, dealer) {
            if db.players[dp].is_bot {
                return Ok(NextStep::AutoDeal);
            }
        }
    }
    Ok(NextStep::Done)
}

// ── Dealing ────────────────────────────────────────────────────────────

/// After the first four cards are out: if the trump selector is a bot with a
/// hand, it names the suit its hand prefers.
pub open spec fn trump_after_deal(v: DbView, room_id: u64, selector_seat: u8) -> NextStep {
    match player_pos_by_seat(v, room_id, selector_seat) {
        Some(sp) => if v.players[sp].is_bot {
            match hand_pos(v, v.players[sp].id) {
                Some(hp) => NextStep::SelectTrump(preferred_trump(v.hands[hp].cards)),
                None => NextStep::Done,
            }
        } else {
            NextStep::Done
        },
        None => NextStep::Done,
    }
}

/// Deal four cards of the (shuffled) `deck` to each player of the room in
/// seat order, keep the rest as the room's deck, and wait for the seat after
/// the dealer to name trump.
pub open spec fn deal_step(v: DbView, pos: int, room_id: u64, deck: Seq<Card>) -> Result<
    (DbView, NextStep),
    GameError,
> {
    let room = v.rooms[pos];
    match deal_round(v, seating(v, room_id), deck, false) {
        Err(e) => Err(e),
        Ok((v1, rest)) => {
            let t = room.dealer_index.wrapping_add(1) % 4;
            let v2 = with_room(
                v1,
                pos,
                RoomView {
                    deck: rest,
                    status: GameStatus::WaitingForTrump,
                    trump_selector_index: t,
                    current_turn_index: t,
                    hand_number: 1,
                    trump_suit: None,
                    ..room
                },
            );
            Ok((v2, trump_after_deal(v2, room_id, t)))
        },
    }
}

/// A deck holding each of the 32 cards once, in some order.
pub open spec fn is_shuffled_deck(deck: Seq<Card>) -> bool {
    &&& deck.len() == 32
    &&& deck.to_multiset() == crate::deck::standard_deck().to_multiset()
}

pub fn deal_from(db: &mut GameDb, pos: usize, room_id: u64, deck: Vec<Card>) -> (r: Result<NextStep, GameError>)
    requires
        pos < old(db).rooms.len(),
    ensures
        step_matches(r, final(db)@, deal_step(old(db)@, pos as int, room_id, deck@)),
        r matches Err(e) && found_before_writes(e) ==> final(db)@ == old(db)@,
{
    let mut room = db.rooms[pos].duplicate();
    let ghost room0 = room@;
    let order = db.seating_order(room_id);
    proof {
        lemma_deal_round_frame(db@, order@, deck@, false);
        lemma_deal_round_error_kind(db@, order@, deck@, false);
    }
    let rest = match deal_to_players(db, &order, deck, false) {
        Ok(d) => d,
        Err(e) => {
            return Err(e);
        },
    };
    let trump_selector_index = room.dealer_index.wrapping_add(1) % 4;
    room.deck = rest;
    room.status = GameStatus::WaitingForTrump;
    room.trump_selector_index = trump_selector_index;
    room.current_turn_index = trump_selector_index;
    room.hand_number = 1;
    room.trump_suit = None;
    db.set_room(pos, room);
    if let Some(sp) = db.find_player_by_seat(room_id, trump_selector_index) {
        if db.players[sp].is_bot {
            if let Some(hp) = db.find_hand(db.players[sp].id) {
                let trump = select_trump(db.player_hands[hp].cards.as_slice());
                return Ok(NextStep::SelectTrump(trump));
            }
        }
    }
    Ok(NextStep::Done)
}

/// A freshly generated and shuffled deck.
pub(crate) fn shuffled_deck(seed: u64) -> (deck: Vec<Card>)
    ensures
        is_shuffled_deck(deck@),
{
    let mut deck = crate::deck::generate_deck();
    let mut rng = crate::random::rng_from_seed(seed);
    crate::deck::shuffle_deck(&mut deck, &mut rng);
    deck
}

// ── Bot moves ──────────────────────────────────────────────────────────

/// The id of the player sitting opposite the given seat in the room, if any.
pub open spec fn teammate_of(v: DbView, room_id: u64, seat: u8) -> Option<u64> {
    match player_pos_by_seat(v, room_id, seat.wrapping_add(2) % 4) {
        Some(t) => Some(v.players[t].id),
        None => None,
    }
}

/// What a bot's turn may lead to: if it is a bot's turn in a room at play,
/// the bot plays its medium-difficulty card for some possible draws (its
/// strategy's card or, on a roll below 10, a random legal card).
pub open spec fn bot_turn_outcome(v: DbView, room_id: u64, out: Result<(DbView, NextStep), GameError>) -> bool {
    match room_pos(v, room_id) {
        None => out == Err::<(DbView, NextStep), GameError>(GameError::RoomNotFound),
        Some(pos) => {
            let room = v.rooms[pos];
            if room.status != GameStatus::Playing {
                out == Ok::<(DbView, NextStep), GameError>((v, NextStep::Done))
            } else {
                match player_pos_by_seat(v, room_id, room.current_turn_index) {
                    None => out == Ok::<(DbView, NextStep), GameError>((v, NextStep::Done)),
                    Some(pp) => {
                        let p = v.players[pp];
                        if !p.is_bot {
                            out == Ok::<(DbView, NextStep), GameError>((v, NextStep::Done))
                        } else {
                            match room.trump_suit {
                                None => out == Err::<(DbView, NextStep), GameError>(GameError::TrumpNotSet),
                                Some(trump) => match hand_pos(v, p.id) {
                                    None => out == Err::<(DbView, NextStep), GameError>(
                                        GameError::BotHandNotFound,
                                    ),
                                    Some(hp) => match latest_record(v.records, room_id, room.hand_number) {
                                        None => out == Err::<(DbView, NextStep), GameError>(
                                            GameError::HandRecordNotFound,
                                        ),
                                        Some(rp) => {
                                            let cards = v.hands[hp].cards;
                                            let plays = v.records[rp].plays;
                                            if cards.len() == 0 {
                                                out == Err::<(DbView, NextStep), GameError>(
                                                    GameError::BotHasNoCards,
                                                )
                                            } else {
                                                exists|roll: u8, pick: int|
                                                    possible_draws(cards, plays, 1, roll, pick)
                                                        && out == #[trigger] play_step(
                                                        v,
                                                        room_id,
                                                        p.id,
                                                        bot_card(
                                                            cards,
                                                            plays,
                                                            trump,
                                                            teammate_of(v, room_id, p.seat_index),
                                                            1,
                                                            roll,
                                                            pick,
                                                        ),
                                                    )
                                            }
                                        },
                                    },
                                },
                            }
                        }
                    },
                }
            }
        },
    }
}

/// The exec result of a step as a value comparable with the step outcomes.
pub open spec fn step_result(r: Result<NextStep, GameError>, after: DbView) -> Result<
    (DbView, NextStep),
    GameError,
> {
    match r {
        Ok(n) => Ok((after, n)),
        Err(e) => Err(e),
    }
}

/// If the current turn belongs to a bot, automatically play for it.
pub fn maybe_run_bot_turn(db: &mut GameDb, room_id: u64, seed: u64) -> (r: Result<NextStep, GameError>)
    ensures
        bot_turn_outcome(old(db)@, room_id, step_result(r, final(db)@)),
        r matches Err(e) && found_before_writes(e) ==> final(db)@ == old(db)@,
{
    let pos = match db.find_room(room_id) {
        Some(p) => p,
        None => {
            return Err(GameError::RoomNotFound);
        },
    };
    if db.rooms[pos].status != GameStatus::Playing {
        return Ok(NextStep::Done);
    }
    let turn = db.rooms[pos].current_turn_index;
    let pp = match db.find_player_by_seat(room_id, turn) {
        Some(p) => p,
        None => {
            return Ok(NextStep::Done);
        },
    };
    if !db.players[pp].is_bot {
        return Ok(NextStep::Done);
    }
    let trump = match db.rooms[pos].trump_suit {
        Some(t) => t,
        None => {
            return Err(GameError::TrumpNotSet);
        },
    };
    let player_id = db.players[pp].id;
    let hp = match db.find_hand(player_id) {
        Some(h) => h,
        None => {
            return Err(GameError::BotHandNotFound);
        },
    };
    let rp = match db.find_current_hand_record(room_id, db.rooms[pos].hand_number) {
        Some(r) => r,
        None => {
            return Err(GameError::HandRecordNotFound);
        },
    };
    let teammate_seat = db.players[pp].seat_index.wrapping_add(2) % 4;
    let teammate_id = match db.find_player_by_seat(room_id, teammate_seat) {
        Some(t) => Some(db.players[t].id),
        None => None,
    };
    if db.player_hands[hp].cards.len() == 0 {
        return Err(GameError::BotHasNoCards);
    }
    let ghost cards0 = db.player_hands@[hp as int]@.cards;
    let ghost plays0 = db.hand_records@[rp as int]@.plays;
    let mut rng = crate::random::rng_from_seed(seed);
    let card = crate::bot_ai::decide_card(
        db.player_hands[hp].cards.as_slice(),
        db.hand_records[rp].plays.as_slice(),
        trump,
        teammate_id,
        1,
        &mut rng,
    );
    let ghost v0 = db@;
    let ghost (roll, pick) = choose|roll: u8, pick: int|
        possible_draws(cards0, plays0, 1, roll, pick) && card == #[trigger] bot_card(
            cards0,
            plays0,
            trump,
            teammate_id,
            1,
            roll,
            pick,
        );
    let r = do_play_card(db, room_id, player_id, card);
    assert(step_result(r, db@) == play_step(v0, room_id, player_id, card));
    assert(possible_draws(cards0, plays0, 1, roll, pick) && step_result(r, db@) == play_step(
        v0,
        room_id,
        player_id,
        bot_card(cards0, plays0, trump, teammate_id, 1, roll, pick),
    ));
    r
}

/// What a bot dealer's automatic deal may lead to: a fresh deck in some
/// shuffled order is dealt.
pub open spec fn auto_deal_outcome(v: DbView, room_id: u64, out: Result<(DbView, NextStep), GameError>) -> bool {
    match room_pos(v, room_id) {
        None => out == Err::<(DbView, NextStep), GameError>(GameError::RoomNotFound),
        Some(pos) => if v.rooms[pos].status != GameStatus::WaitingForDeal {
            out == Ok::<(DbView, NextStep), GameError>((v, NextStep::Done))
        } else {
            exists|deck: Seq<Card>| is_shuffled_deck(deck) && out == #[trigger] deal_step(v, pos, room_id, deck)
        },
    }
}

/// Auto-deal for bot dealers in single-player mode.
pub fn do_auto_deal(db: &mut GameDb, room_id: u64, seed: u64) -> (r: Result<NextStep, GameError>)
    ensures
        auto_deal_outcome(old(db)@, room_id, step_result(r, final(db)@)),
        r matches Err(e) && found_before_writes(e) ==> final(db)@ == old(db)@,
{
    let pos = match db.find_room(room_id) {
        Some(p) => p,
        None => {
            return Err(GameError::RoomNotFound);
        },
    };
    if db.rooms[pos].status != GameStatus::WaitingForDeal {
        return Ok(NextStep::Done);
    }
    let deck = shuffled_deck(seed);
    let ghost v0 = db@;
    let ghost d = deck@;
    let r = deal_from(db, pos, room_id, deck);
    assert(step_result(r, db@) == deal_step(v0, pos as int, room_id, d));
    r
}

// ── Running the automatic steps ────────────────────────────────────────

/// How many automatic steps one request may run: the largest count its step
/// counter holds. A room with a person's seat needs at most ten
/// (`progress::lemma_chain_with_free_seat`); a room without bots at most two
/// (`lemma_chain_without_bots`).
pub const AUTOMATIC_STEP_LIMIT: u64 = 0xffff_ffff_ffff_ffffu64;

/// A possible result of one automatic step.
pub open spec fn step_outcome(v: DbView, room_id: u64, next: NextStep, out: Result<(DbView, NextStep), GameError>) -> bool {
    match next {
        NextStep::Done => out == Ok::<(DbView, NextStep), GameError>((v, NextStep::Done)),
        NextStep::SelectTrump(suit) => out == select_trump_step(v, room_id, suit),
        NextStep::BotTurn => bot_turn_outcome(v, room_id, out),
        NextStep::EndRound => out == end_round_step(v, room_id),
        NextStep::AutoDeal => auto_deal_outcome(v, room_id, out),
    }
}

/// A possible final result of running the automatic steps from `next`, with
/// at most `fuel` steps: the database once nothing more is due, the first
/// error met, or a refusal when the steps run out.
pub open spec fn chain_outcome(v: DbView, room_id: u64, next: NextStep, fuel: nat, out: Result<DbView, GameError>) -> bool
    decreases fuel,
{
    if next == NextStep::Done {
        out == Ok::<DbView, GameError>(v)
    } else if fuel == 0 {
        out == Err::<DbView, GameError>(GameError::AutomaticPlayLimit)
    } else {
        exists|so: Result<(DbView, NextStep), GameError>|
            #[trigger] step_outcome(v, room_id, next, so) && match so {
                Err(e) => out == Err::<DbView, GameError>(e),
                Ok((v2, n2)) => chain_outcome(v2, room_id, n2, (fuel - 1) as nat, out),
            }
    }
}

/// A request's result as a value: the database on success, or the error.
pub open spec fn db_result(r: Result<(), GameError>, after: DbView) -> Result<DbView, GameError> {
    match r {
        Ok(_) => Ok(after),
        Err(e) => Err(e),
    }
}

/// A possible final result of a request whose own step had the result `so`.
pub open spec fn continue_from(so: Result<(DbView, NextStep), GameError>, room_id: u64, out: Result<DbView, GameError>) -> bool {
    match so {
        Err(e) => out == Err::<DbView, GameError>(e),
        Ok((v2, n)) => chain_outcome(v2, room_id, n, AUTOMATIC_STEP_LIMIT as nat, out),
    }
}

fn run_step(db: &mut GameDb, room_id: u64, next: NextStep, seed: u64) -> (r: Result<NextStep, GameError>)
    ensures
        step_outcome(old(db)@, room_id, next, step_result(r, final(db)@)),
{
    match next {
        NextStep::Done => Ok(NextStep::Done),
        NextStep::SelectTrump(suit) => do_select_trump(db, room_id, suit),
        NextStep::BotTurn => maybe_run_bot_turn(db, room_id, seed),
        NextStep::EndRound => do_end_round(db, room_id),
        NextStep::AutoDeal => do_auto_deal(db, room_id, seed),
    }
}

/// Run the automatic steps (bot trump choices, bot plays, round ends, bot
/// deals) that follow a request, until nothing more is due.
pub fn run_automatic_steps(db: &mut GameDb, room_id: u64, first: NextStep, seed: u64) -> (r: Result<(), GameError>)
    ensures
        chain_outcome(old(db)@, room_id, first, AUTOMATIC_STEP_LIMIT as nat, db_result(r, final(db)@)),
{
    let ghost v0 = db@;
    let mut next = first;
    let mut fuel: u64 = AUTOMATIC_STEP_LIMIT;
    loop
        invariant
            fuel <= AUTOMATIC_STEP_LIMIT,
            forall|out: Result<DbView, GameError>|
                #[trigger] chain_outcome(db@, room_id, next, fuel as nat, out) ==> chain_outcome(
                    v0,
                    room_id,
                    first,
                    AUTOMATIC_STEP_LIMIT as nat,
                    out,
                ),
            v0 == old(db)@,
        decreases fuel,
    {
        if next == NextStep::Done {
            assert(chain_outcome(db@, room_id, next, fuel as nat, Ok::<DbView, GameError>(db@)));
            return Ok(());
        }
        if fuel == 0 {
            assert(chain_outcome(
                db@,
                room_id,
                next,
                fuel as nat,
                Err::<DbView, GameError>(GameError::AutomaticPlayLimit),
            ));
            return Err(GameError::AutomaticPlayLimit);
        }
        let ghost before = db@;
        let ghost fuel0 = fuel;
        let ghost next0 = next;
        let step = run_step(db, room_id, next, seed);
        let ghost so = step_result(step, db@);
        assert(step_outcome(before, room_id, next0, so));
        match step {
            Err(e) => {
                assert(chain_outcome(before, room_id, next0, fuel0 as nat, Err::<DbView, GameError>(e)));
                return Err(e);
            },
            Ok(n) => {
                next = n;
                fuel = fuel - 1;
                assert forall|out: Result<DbView, GameError>|
                    #[trigger] chain_outcome(db@, room_id, next, fuel as nat, out) implies chain_outcome(
                    before,
                    room_id,
                    next0,
                    fuel0 as nat,
                    out,
                ) by {
                    assert(step_outcome(before, room_id, next0, so));
                }
            },
        }
    }
}

// ── Laws of the game flow ──────────────────────────────────────────────

/// Law: a legal play takes exactly the played card out of the hand (one copy
/// of it); every other card stays.
pub proof fn lemma_played_card_leaves_hand(cards: Seq<Card>, card: Card, lead: Option<Suit>)
    requires
        valid_play(card, cards, lead),
    ensures
        without_card(cards, card).to_multiset() == cards.to_multiset().remove(card),
        without_card(cards, card).len() + 1 == cards.len(),
{
    crate::queries::lemma_first_index(cards, card_is(card));
    let j = choose|j: int| 0 <= j < cards.len() && cards[j] == card;
    assert(card_is(card)(cards[j]));
    let k = first_index(cards, card_is(card))->0;
    vstd::seq_lib::to_multiset_remove(cards, k);
}

/// Law: dealing gives each player in turn the next cards from the top of
/// the deck (four each while they last); what is left is the rest of the
/// deck below them.
pub proof fn lemma_deal_round_takes_from_top(v: DbView, order: Seq<u64>, deck: Seq<Card>, append: bool)
    ensures
        deal_round(v, order, deck, append) matches Ok((v1, rest)) ==> rest == deck.skip(
            if 4 * order.len() <= deck.len() {
                (4 * order.len()) as int
            } else {
                deck.len() as int
            },
        ),
    decreases order.len(),
{
    if order.len() > 0 {
        lemma_deal_round_takes_from_top(v, order.drop_last(), deck, append);
        if let Ok((v1, d1)) = deal_round(v, order.drop_last(), deck, append) {
            let m = if 4 * (order.len() - 1) <= deck.len() {
                (4 * (order.len() - 1)) as int
            } else {
                deck.len() as int
            };
            let n = dealt_count(4, d1.len());
            assert(d1.skip(n) =~= deck.skip(m + n));
        }
    } else {
        assert(deck.skip(0) =~= deck);
    }
}

/// Law of the round's end: the game is over exactly when a team has reached
/// 10 points; otherwise the deal passes to the next seat clockwise, the seat
/// after the new dealer will name trump, the room waits for the deal, and it
/// remembers whether the round just ended was a 4-4 tie.
pub proof fn lemma_round_end_rules(v: DbView, room_id: u64)
    ensures
        end_round_step(v, room_id) matches Ok((v2, next)) ==> {
            let pos = room_pos(v, room_id)->0;
            let sp = score_pos(v, room_id)->0;
            let room = v.rooms[pos];
            let score = v2.scores[sp];
            &&& (v2.rooms[pos].status == GameStatus::GameOver) <==> (score.team_a_points >= 10
                || score.team_b_points >= 10)
            &&& v2.rooms[pos].status == GameStatus::GameOver ==> next == NextStep::Done
            &&& v2.rooms[pos].status != GameStatus::GameOver ==> {
                &&& v2.rooms[pos].status == GameStatus::WaitingForDeal
                &&& v2.rooms[pos].dealer_index == room.dealer_index.wrapping_add(1) % 4
                &&& v2.rooms[pos].trump_selector_index == (v2.rooms[pos].dealer_index + 1) % 4
                &&& v2.rooms[pos].hand_number == 0
                &&& v2.rooms[pos].trump_suit is None
                &&& v2.rooms[pos].previous_round_tied == (v.scores[sp].team_a_hands == 4
                    && v.scores[sp].team_b_hands == 4)
            }
        },
{
    if let Some(pos) = room_pos(v, room_id) {
        crate::queries::lemma_first_index(v.rooms, crate::queries::room_has_id(room_id));
        if let Some(sp) = score_pos(v, room_id) {
            crate::queries::lemma_first_index(v.scores, crate::queries::score_of_room(room_id));
        }
    }
}

/// Law of play: after a card that does not complete the hand the turn passes
/// to the next seat clockwise; after a hand's fourth card its winner leads
/// the next hand (until the eighth hand ends the round).
pub proof fn lemma_turn_order(v: DbView, room_id: u64, player_id: u64, card: Card)
    ensures
        play_step(v, room_id, player_id, card) matches Ok((v2, next)) ==> {
            let pos = room_pos(v, room_id)->0;
            let room = v.rooms[pos];
            let rec = v.records[latest_record(v.records, room_id, room.hand_number)->0];
            if rec.plays.len() + 1 != 4 {
                &&& v2.rooms[pos].current_turn_index == room.current_turn_index.wrapping_add(1) % 4
                &&& next == NextStep::BotTurn
            } else {
                let winner = hand_winner(rec.plays.push(crate::types::Play { player_id, card }), room.trump_suit->0);
                next == NextStep::BotTurn ==> (winner matches Some(w) && player_pos(v2, w) matches Some(
                    wp,
                ) && v2.rooms[pos].current_turn_index == v2.players[wp].seat_index
                    && v2.rooms[pos].hand_number == room.hand_number + 1)
            }
        },
{
    if let Some(pos) = room_pos(v, room_id) {
        crate::queries::lemma_first_index(v.rooms, crate::queries::room_has_id(room_id));
        let room = v.rooms[pos];
        if let (Some(trump), Some(hp), Some(rp)) = (
            room.trump_suit,
            hand_pos(v, player_id),
            latest_record(v.records, room_id, room.hand_number),
        ) {
            let hand = v.hands[hp];
            let rec = v.records[rp];
            if let Ok(v1) = put_hand(v, player_id, without_card(hand.cards, card)) {
                assert(v1.rooms == v.rooms && v1.players == v.players);
                let rec2 = record_after_play(rec, player_id, card, trump);
                if let Ok(v2) = put_record(v1, rec2) {
                    assert(v2.rooms == v.rooms && v2.players == v.players);
                    if rec2.plays.len() == 4 {
                        if let Some(w) = rec2.winner_id {
                            if let Some(pp) = player_pos(v2, w) {
                                if let Ok(v3) = count_hand_won(v2, room_id, v2.players[pp].team == seq!['A']) {
                                    assert(v3.players == v2.players && v3.rooms == v2.rooms);
                                }
                            }
                        }
                    }
                }
            }
        }
    }
}

/// Law of the hand's end: when a play completes a hand (its fourth card),
/// the room's score gains one hand for the team of the hand's winner: team
/// A's count when the winner plays for "A", team B's otherwise. The other
/// team's count and both teams' points stay as they were.
pub proof fn lemma_completed_hand_scores_winner(v: DbView, room_id: u64, player_id: u64, card: Card)
    ensures
        play_step(v, room_id, player_id, card) matches Ok((v2, n)) ==> {
            let pos = room_pos(v, room_id)->0;
            let room = v.rooms[pos];
            let rec = v.records[latest_record(v.records, room_id, room.hand_number)->0];
            let plays = rec.plays.push(Play { player_id, card });
            plays.len() == 4 ==> match hand_winner(plays, room.trump_suit->0) {
                Some(w) => match (player_pos(v, w), score_pos(v, room_id)) {
                    (Some(wp), Some(sp)) => {
                        let s = v.scores[sp];
                        let s2 = v2.scores[sp];
                        &&& v2.scores.len() == v.scores.len()
                        &&& s2.room_id == s.room_id
                        &&& s2.team_a_points == s.team_a_points
                        &&& s2.team_b_points == s.team_b_points
                        &&& v.players[wp].team == seq!['A'] ==> s2.team_a_hands == s.team_a_hands.wrapping_add(1)
                            && s2.team_b_hands == s.team_b_hands
                        &&& v.players[wp].team != seq!['A'] ==> s2.team_b_hands == s.team_b_hands.wrapping_add(1)
                            && s2.team_a_hands == s.team_a_hands
                    },
                    _ => true,
                },
                None => true,
            }
        },
{
    if let Some(pos) = room_pos(v, room_id) {
        let room = v.rooms[pos];
        if let (Some(trump), Some(hp), Some(rp)) = (
            room.trump_suit,
            hand_pos(v, player_id),
            latest_record(v.records, room_id, room.hand_number),
        ) {
            let hand = v.hands[hp];
            let rec = v.records[rp];
            if let Ok(v1) = put_hand(v, player_id, without_card(hand.cards, card)) {
                assert(v1.scores == v.scores && v1.players == v.players);
                let rec2 = record_after_play(rec, player_id, card, trump);
                if let Ok(v2) = put_record(v1, rec2) {
                    assert(v2.scores == v.scores && v2.players == v.players);
                    if rec2.plays.len() == 4 {
                        if let Some(w) = rec2.winner_id {
                            if let (Some(wp), Some(sp)) = (player_pos(v2, w), score_pos(v2, room_id)) {
                                crate::queries::lemma_first_index(v.scores, crate::queries::score_of_room(room_id));
                                let team_a = v2.players[wp].team == seq!['A'];
                                if let Ok(v3) = count_hand_won(v2, room_id, team_a) {
                                    assert(v3.scores.len() == v.scores.len());
                                    if room.hand_number < 8 {
                                        let next = (room.hand_number + 1) as u8;
                                        let v4 = with_room(
                                            v3,
                                            pos,
                                            RoomView { hand_number: next, current_turn_index: v2.players[wp].seat_index, ..room },
                                        );
                                        assert(v4.scores == v3.scores);
                                        if let Ok(v5) = insert_record(v4, first_record(room_id, next)) {
                                            assert(v5.scores == v3.scores);
                                        }
                                    }
                                }
                            }
                        }
                    }
                }
            }
        }
    }
}

/// Law of naming trump: the round's hand counts start again from 0-0, while
/// the teams' points stay as they were.
pub proof fn lemma_naming_trump_resets_hands(v: DbView, room_id: u64, suit: Suit)
    ensures
        select_trump_step(v, room_id, suit) matches Ok((v2, n)) ==> (score_pos(v, room_id) matches Some(sp)
            ==> {
            &&& v2.scores.len() == v.scores.len()
            &&& v2.scores[sp].room_id == v.scores[sp].room_id
            &&& v2.scores[sp].team_a_hands == 0
            &&& v2.scores[sp].team_b_hands == 0
            &&& v2.scores[sp].team_a_points == v.scores[sp].team_a_points
            &&& v2.scores[sp].team_b_points == v.scores[sp].team_b_points
        }),
{
    crate::queries::lemma_first_index(v.scores, crate::queries::score_of_room(room_id));
    if let Some(pos) = room_pos(v, room_id) {
        let room = v.rooms[pos];
        lemma_deal_round_frame(v, seating(v, room_id), room.deck, true);
        if let Ok((v1, rest)) = deal_round(v, seating(v, room_id), room.deck, true) {
            let v2 = purge_records(v1, room_id);
            if let Ok(v3) = insert_record(v2, first_record(room_id, 1)) {
                assert(v3.scores == v.scores);
            }
        }
    }
}

/// Law of the deal: when the seat after the dealer holds a bot with a hand,
/// the bot names trump at once, and the suit it names holds as many of its
/// cards as any other suit (counted as the bot counts, modulo 256) and,
/// among such suits, has the highest top card.
pub proof fn lemma_bot_selector_names_its_best_suit(v: DbView, pos: int, room_id: u64, deck: Seq<Card>)
    requires
        0 <= pos < v.rooms.len(),
    ensures
        deal_step(v, pos, room_id, deck) matches Ok((v2, n)) ==> {
            let t = v2.rooms[pos].trump_selector_index;
            match player_pos_by_seat(v2, room_id, t) {
                Some(sp) => match hand_pos(v2, v2.players[sp].id) {
                    Some(hp) => v2.players[sp].is_bot ==> {
                        let cards = v2.hands[hp].cards;
                        (n matches NextStep::SelectTrump(s) && forall|x: Suit|
                            count_u8(cards, s) >= #[trigger] count_u8(cards, x) && (count_u8(cards, s) == count_u8(
                                cards,
                                x,
                            ) ==> top_value(cards, s) >= top_value(cards, x)))
                    },
                    None => true,
                },
                None => true,
            }
        },
{
    lemma_deal_round_frame(v, seating(v, room_id), deck, false);
    if let Ok((v2, n)) = deal_step(v, pos, room_id, deck) {
        let t = v2.rooms[pos].trump_selector_index;
        assert(t == v.rooms[pos].dealer_index.wrapping_add(1) % 4);
        assert(n == trump_after_deal(v2, room_id, t));
        if let Some(sp) = player_pos_by_seat(v2, room_id, t) {
            if let Some(hp) = hand_pos(v2, v2.players[sp].id) {
                let cards = v2.hands[hp].cards;
                if v2.players[sp].is_bot {
                    assert(n == NextStep::SelectTrump(preferred_trump(cards)));
                }
                assert forall|x: Suit|
                    count_u8(cards, preferred_trump(cards)) >= #[trigger] count_u8(cards, x) && (count_u8(
                        cards,
                        preferred_trump(cards),
                    ) == count_u8(cards, x) ==> top_value(cards, preferred_trump(cards)) >= top_value(
                        cards,
                        x,
                    )) by {
                    crate::bot_ai::lemma_preferred_trump_is_best(cards, x);
                }
            }
        }
    }
}

// ── Rooms without bots ─────────────────────────────────────────────────

/// No player of the room is a bot.
pub open spec fn no_bots(v: DbView, room_id: u64) -> bool {
    forall|i: int| 0 <= i < v.players.len() && #[trigger] v.players[i].room_id == room_id ==> !v.players[i].is_bot
}

/// A bound on the automatic steps still to run from `next` in a room without
/// bots.
pub open spec fn steps_left(next: NextStep) -> nat {
    match next {
        NextStep::Done => 0,
        NextStep::SelectTrump(_) => 2,
        _ => 1,
    }
}

proof fn lemma_seat_is_no_bot(v: DbView, room_id: u64, seat: u8)
    requires
        no_bots(v, room_id),
    ensures
        player_pos_by_seat(v, room_id, seat) matches Some(pp) ==> !v.players[pp].is_bot,
{
    crate::queries::lemma_first_index(v.players, crate::queries::player_at_seat(room_id, seat));
}

/// Dealing keeps the player table and fails only on a key clash.
proof fn lemma_deal_step_keeps_players(v: DbView, pos: int, room_id: u64, deck: Seq<Card>)
    ensures
        deal_step(v, pos, room_id, deck) matches Ok((v2, n)) ==> v2.players == v.players && (no_bots(
            v,
            room_id,
        ) ==> n == NextStep::Done),
        deal_step(v, pos, room_id, deck) matches Err(e) ==> e == GameError::DuplicateKey,
{
    lemma_deal_round_frame(v, seating(v, room_id), deck, false);
    lemma_deal_round_error_kind(v, seating(v, room_id), deck, false);
    if no_bots(v, room_id) {
        let t = v.rooms[pos].dealer_index.wrapping_add(1) % 4;
        lemma_seat_is_no_bot(v, room_id, t);
    }
}

/// Playing a card keeps the player table.
proof fn lemma_play_step_keeps_players(v: DbView, room_id: u64, player_id: u64, card: Card)
    ensures
        play_step(v, room_id, player_id, card) matches Ok((v2, n)) ==> v2.players == v.players,
{
    if let Some(pos) = room_pos(v, room_id) {
        let room = v.rooms[pos];
        if let (Some(trump), Some(hp), Some(rp)) = (
            room.trump_suit,
            hand_pos(v, player_id),
            latest_record(v.records, room_id, room.hand_number),
        ) {
            let hand = v.hands[hp];
            let rec = v.records[rp];
            if let Ok(v1) = put_hand(v, player_id, without_card(hand.cards, card)) {
                assert(v1.players == v.players);
                let rec2 = record_after_play(rec, player_id, card, trump);
                if let Ok(v2) = put_record(v1, rec2) {
                    assert(v2.players == v.players);
                    if rec2.plays.len() == 4 {
                        if let Some(w) = rec2.winner_id {
                            if let Some(pp) = player_pos(v2, w) {
                                if let Ok(v3) = count_hand_won(v2, room_id, v2.players[pp].team == seq!['A']) {
                                    assert(v3.players == v2.players);
                                }
                            }
                        }
                    }
                }
            }
        }
    }
}

/// One automatic step in a room without bots keeps the player table, brings
/// the steps left down, and never runs out of steps itself.
proof fn lemma_step_without_bots(v: DbView, room_id: u64, next: NextStep, so: Result<(DbView, NextStep), GameError>)
    requires
        no_bots(v, room_id),
        next != NextStep::Done,
        step_outcome(v, room_id, next, so),
    ensures
        so matches Ok((v2, n2)) ==> v2.players == v.players && steps_left(n2) < steps_left(next),
        so matches Err(e) ==> e != GameError::AutomaticPlayLimit,
{
    match next {
        NextStep::BotTurn => {
            if let Some(pos) = room_pos(v, room_id) {
                lemma_seat_is_no_bot(v, room_id, v.rooms[pos].current_turn_index);
            }
        },
        NextStep::EndRound => {
            if let Some(pos) = room_pos(v, room_id) {
                let d = v.rooms[pos].dealer_index.wrapping_add(1) % 4;
                lemma_seat_is_no_bot(v, room_id, d);
            }
        },
        NextStep::AutoDeal => {
            if let Some(pos) = room_pos(v, room_id) {
                if v.rooms[pos].status == GameStatus::WaitingForDeal {
                    let deck = choose|deck: Seq<Card>|
                        is_shuffled_deck(deck) && so == #[trigger] deal_step(v, pos, room_id, deck);
                    lemma_deal_step_keeps_players(v, pos, room_id, deck);
                }
            }
        },
        NextStep::SelectTrump(suit) => {
            if let Some(pos) = room_pos(v, room_id) {
                lemma_deal_round_frame(v, seating(v, room_id), v.rooms[pos].deck, true);
                lemma_deal_round_error_kind(v, seating(v, room_id), v.rooms[pos].deck, true);
            }
        },
        NextStep::Done => {},
    }
}

/// Law: in a room without bots the automatic steps stop on their own within
/// `steps_left(next)` (at most two) steps, so they never run out.
pub proof fn lemma_chain_without_bots(
    v: DbView,
    room_id: u64,
    next: NextStep,
    fuel: nat,
    out: Result<DbView, GameError>,
)
    requires
        no_bots(v, room_id),
        fuel >= steps_left(next),
        chain_outcome(v, room_id, next, fuel, out),
    ensures
        out != Err::<DbView, GameError>(GameError::AutomaticPlayLimit),
    decreases fuel,
{
    if next != NextStep::Done {
        let so = choose|so: Result<(DbView, NextStep), GameError>|
            #[trigger] step_outcome(v, room_id, next, so) && match so {
                Err(e) => out == Err::<DbView, GameError>(e),
                Ok((v2, n2)) => chain_outcome(v2, room_id, n2, (fuel - 1) as nat, out),
            };
        lemma_step_without_bots(v, room_id, next, so);
        if let Ok((v2, n2)) = so {
            assert(no_bots(v2, room_id));
            lemma_chain_without_bots(v2, room_id, n2, (fuel - 1) as nat, out);
        }
    }
}

/// The first step of a deal or a play keeps the player table, and a deal
/// fails only on a key clash (see `lemma_chain_without_bots` for what
/// follows).
pub proof fn lemma_request_steps_keep_players(v: DbView, pos: int, room_id: u64, deck: Seq<Card>, player_id: u64, card: Card)
    ensures
        deal_step(v, pos, room_id, deck) matches Ok((v2, n)) ==> v2.players == v.players,
        deal_step(v, pos, room_id, deck) matches Err(e) ==> e == GameError::DuplicateKey,
        play_step(v, room_id, player_id, card) matches Ok((v2, n)) ==> v2.players == v.players,
{
    lemma_deal_step_keeps_players(v, pos, room_id, deck);
    lemma_play_step_keeps_players(v, room_id, player_id, card);
}

} // verus!
