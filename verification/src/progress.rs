//! How far the automatic steps can run: in a room where one seat holds no
//! bot, the steps that follow a request stop within ten steps.

use vstd::prelude::*;
use crate::types::{Card, GameStatus, Suit};
use crate::tables::{DbView, GameError, RecordView, RoomView};
use crate::game_logic::valid_play;
use crate::bot_ai::leading_suit_of;
use crate::ops::{insert_record, put_hand, put_record, records_not_of_room, with_room};
use crate::steps::{
    NextStep, chain_outcome, count_hand_won, deal_round, deal_step, first_record, is_shuffled_deck,
    lemma_deal_round_error_kind, lemma_deal_round_frame, lemma_request_steps_keep_players, play_step,
    record_after_play, step_outcome, teammate_of, without_card,
};
use crate::bot_ai::{bot_card, possible_draws};
use crate::queries::seating;
use crate::ops::purge_records;
use crate::tables::PlayerIdentity;
use crate::queries::player_pos_by_identity;
use crate::steps::{AUTOMATIC_STEP_LIMIT, continue_from};
use crate::reducers::{dealer_click_deal_outcome, play_card_outcome, select_trump_outcome};
use crate::queries::{
    hand_pos, latest_record, lemma_first_index, lemma_latest_record, player_pos,
    player_pos_by_seat, room_pos,
};
use crate::integrity::{record_key, room_key, wf};

verus! {

// ── The current hand record ────────────────────────────────────────────

/// The record chosen as the latest has the highest id among the records of
/// its room and hand.
pub proof fn lemma_latest_record_is_highest(s: Seq<RecordView>, room_id: u64, hand_number: u8)
    ensures
        latest_record(s, room_id, hand_number) matches Some(i) ==> forall|j: int|
            0 <= j < s.len() && #[trigger] s[j].room_id == room_id && s[j].hand_number == hand_number
                ==> s[j].id <= s[i].id,
    decreases s.len(),
{
    if s.len() > 0 {
        let t = s.drop_last();
        lemma_latest_record_is_highest(t, room_id, hand_number);
        lemma_latest_record(t, room_id, hand_number);
        assert forall|j: int| 0 <= j < t.len() implies #[trigger] t[j] == s[j] by {}
        assert(s[s.len() - 1] == s.last());
        if let Some(i) = latest_record(s, room_id, hand_number) {
            assert forall|j: int|
                0 <= j < s.len() && #[trigger] s[j].room_id == room_id && s[j].hand_number == hand_number
                    implies s[j].id <= s[i].id by {
                if j < s.len() - 1 {
                    assert(s[j] == t[j]);
                    assert(t[j].room_id == room_id && t[j].hand_number == hand_number);
                    let p = latest_record(t, room_id, hand_number)->0;
                    assert(t[j].id <= t[p].id);
                    assert(t[p] == s[p]);
                }
            }
        }
    }
}

/// A record pushed after every record of its room and hand with a lower id
/// is the latest one.
proof fn lemma_latest_after_push(s: Seq<RecordView>, x: RecordView, room_id: u64, hand_number: u8)
    requires
        x.room_id == room_id,
        x.hand_number == hand_number,
        forall|j: int|
            0 <= j < s.len() && #[trigger] s[j].room_id == room_id && s[j].hand_number == hand_number
                ==> s[j].id <= x.id,
    ensures
        latest_record(s.push(x), room_id, hand_number) == Some(s.len() as int),
{
    let t = s.push(x);
    assert(t.drop_last() =~= s);
    lemma_latest_record(s, room_id, hand_number);
}

/// Under unique ids, the row found for a record's id is that record's row.
pub proof fn lemma_record_pos_unique(v: DbView, i: int)
    requires
        wf(v),
        0 <= i < v.records.len(),
    ensures
        crate::queries::record_pos(v, v.records[i].id) == Some(i),
{
    let id = v.records[i].id;
    lemma_first_index(v.records, crate::queries::record_has_id(id));
    assert(crate::queries::record_has_id(id)(v.records[i]));
    let q = crate::queries::record_pos(v, id)->0;
    assert(record_key()(v.records[q]) == record_key()(v.records[i]));
}

/// Under unique ids, the row found for a room's id is that room's row.
pub proof fn lemma_room_pos_unique(v: DbView, pos: int)
    requires
        wf(v),
        0 <= pos < v.rooms.len(),
    ensures
        room_pos(v, v.rooms[pos].id) == Some(pos),
{
    let id = v.rooms[pos].id;
    lemma_first_index(v.rooms, crate::queries::room_has_id(id));
    assert(crate::queries::room_has_id(id)(v.rooms[pos]));
    let q = room_pos(v, id)->0;
    assert(room_key()(v.rooms[q]) == room_key()(v.rooms[pos]));
}

/// Replacing the latest record by a record with the same id, room and hand
/// keeps it the latest.
pub proof fn lemma_put_record_keeps_latest(v: DbView, rp: int, x: RecordView)
    requires
        wf(v),
        latest_record(v.records, x.room_id, x.hand_number) == Some(rp),
        x.id == v.records[rp].id,
        crate::ops::put_record(v, x) is Ok,
    ensures
        latest_record(crate::ops::put_record(v, x)->Ok_0.records, x.room_id, x.hand_number) == Some(
            (v.records.len() - 1) as int,
        ),
{
    lemma_latest_record(v.records, x.room_id, x.hand_number);
    lemma_latest_record_is_highest(v.records, x.room_id, x.hand_number);
    lemma_record_pos_unique(v, rp);
    let s = v.records.remove(rp);
    assert forall|j: int|
        0 <= j < s.len() && #[trigger] s[j].room_id == x.room_id && s[j].hand_number == x.hand_number
            implies s[j].id <= x.id by {
        let a = if j < rp { j } else { j + 1 };
        assert(s[j] == v.records[a]);
    }
    lemma_latest_after_push(s, x, x.room_id, x.hand_number);
}

/// A record inserted with the next id is the latest of its room and hand.
pub proof fn lemma_insert_record_latest(v: DbView, x: RecordView)
    requires
        wf(v),
        crate::ops::insert_record(v, x) is Ok,
    ensures
        latest_record(crate::ops::insert_record(v, x)->Ok_0.records, x.room_id, x.hand_number) == Some(
            v.records.len() as int,
        ),
{
    let y = RecordView { id: v.next_record_id, ..x };
    assert forall|j: int|
        0 <= j < v.records.len() && #[trigger] v.records[j].room_id == x.room_id && v.records[j].hand_number
            == x.hand_number implies v.records[j].id <= y.id by {
        assert(record_key()(v.records[j]) < v.next_record_id);
    }
    lemma_latest_after_push(v.records, y, x.room_id, x.hand_number);
}

// ── A bound on the automatic steps ─────────────────────────────────────

/// Every player of the room sits on one of the four seats.
pub open spec fn seats_in_range(v: DbView, room_id: u64) -> bool {
    forall|i: int|
        0 <= i < v.players.len() && #[trigger] v.players[i].room_id == room_id ==> v.players[i].seat_index < 4
}

/// A bot sits on the seat (the first player of the room found on it).
pub open spec fn bot_at(v: DbView, room_id: u64, seat: u8) -> bool {
    match player_pos_by_seat(v, room_id, seat) {
        Some(pp) => v.players[pp].is_bot,
        None => false,
    }
}

/// Well-formed tables, and a room whose players sit on the four seats, where
/// seat `h` holds no bot.
pub open spec fn room_with_free_seat(v: DbView, room_id: u64, h: u8) -> bool {
    &&& wf(v)
    &&& h < 4
    &&& seats_in_range(v, room_id)
    &&& !bot_at(v, room_id, h)
}

/// Seats to go, clockwise, from seat `t` to seat `h`.
pub open spec fn seats_to(t: u8, h: u8) -> nat {
    ((h + 4 - t) % 4) as nat
}

/// A bound on the steps from a bot's turn: bots play until seat `h`'s turn,
/// at most once around the table after the current hand is complete.
pub open spec fn bot_turn_bound(v: DbView, room_id: u64, h: u8) -> nat {
    match room_pos(v, room_id) {
        None => 1,
        Some(pos) => {
            let room = v.rooms[pos];
            if room.status != GameStatus::Playing || !bot_at(v, room_id, room.current_turn_index) {
                1
            } else {
                match latest_record(v.records, room_id, room.hand_number) {
                    None => 1,
                    Some(rp) => {
                        let k = v.records[rp].plays.len();
                        let d = seats_to(room.current_turn_index, h);
                        if k >= 4 || k + d < 4 {
                            d + 1
                        } else {
                            (11 - k) as nat
                        }
                    },
                }
            }
        },
    }
}

/// A bound on the automatic steps still to run from `next`.
pub open spec fn steps_bound(v: DbView, room_id: u64, h: u8, next: NextStep) -> nat {
    match next {
        NextStep::Done => 0,
        NextStep::BotTurn => bot_turn_bound(v, room_id, h),
        NextStep::SelectTrump(_) => 5,
        NextStep::AutoDeal => 6,
        NextStep::EndRound => 7,
    }
}

/// The bound never exceeds ten steps.
pub proof fn lemma_steps_bound_small(v: DbView, room_id: u64, h: u8, next: NextStep)
    ensures
        steps_bound(v, room_id, h, next) <= 10,
{
}

proof fn lemma_bot_at_in_range(v: DbView, room_id: u64, seat: u8)
    requires
        seats_in_range(v, room_id),
        bot_at(v, room_id, seat),
    ensures
        seat < 4,
{
    lemma_first_index(v.players, crate::queries::player_at_seat(room_id, seat));
}

proof fn lemma_same_players(v: DbView, v2: DbView, room_id: u64, h: u8)
    requires
        room_with_free_seat(v, room_id, h),
        wf(v2),
        v2.players == v.players,
    ensures
        room_with_free_seat(v2, room_id, h),
        forall|t: u8| #[trigger] bot_at(v2, room_id, t) == bot_at(v, room_id, t),
{
}

/// The records left after purging a room belong to other rooms.
proof fn lemma_purged_records(s: Seq<RecordView>, room_id: u64)
    ensures
        forall|k: int|
            0 <= k < records_not_of_room(s, room_id).len() ==> #[trigger] records_not_of_room(s, room_id)[k].room_id
                != room_id,
    decreases s.len(),
{
    if s.len() > 0 {
        lemma_purged_records(s.drop_last(), room_id);
    }
}

/// A bot's play in a room with a free seat keeps the room so and brings the
/// bound down.
proof fn lemma_bot_play_progress(v: DbView, room_id: u64, h: u8, pid: u64, card: Card)
    requires
        room_with_free_seat(v, room_id, h),
        room_pos(v, room_id) is Some,
        v.rooms[room_pos(v, room_id)->0].status == GameStatus::Playing,
        bot_at(v, room_id, v.rooms[room_pos(v, room_id)->0].current_turn_index),
    ensures
        play_step(v, room_id, pid, card) matches Ok((v2, n2)) ==> room_with_free_seat(v2, room_id, h)
            && steps_bound(v2, room_id, h, n2) < bot_turn_bound(v, room_id, h),
        play_step(v, room_id, pid, card) matches Err(e) ==> e != GameError::AutomaticPlayLimit,
{
    let pos = room_pos(v, room_id)->0;
    crate::integrity::lemma_room_pos(v, room_id);
    let room = v.rooms[pos];
    let t = room.current_turn_index;
    lemma_bot_at_in_range(v, room_id, t);
    assert(t != h);
    crate::integrity::lemma_play_step_wf(v, room_id, pid, card);
    lemma_request_steps_keep_players(v, pos, room_id, Seq::empty(), pid, card);
    if let Ok((vf, nf)) = play_step(v, room_id, pid, card) {
        lemma_same_players(v, vf, room_id, h);
    }
    lemma_first_index(v.hands, crate::queries::hand_of_player(pid));
    lemma_latest_record(v.records, room_id, room.hand_number);
    if let (Some(trump), Some(hp), Some(rp)) = (
        room.trump_suit,
        hand_pos(v, pid),
        latest_record(v.records, room_id, room.hand_number),
    ) {
        let hand = v.hands[hp];
        let rec = v.records[rp];
        let k = rec.plays.len();
        if valid_play(card, hand.cards, leading_suit_of(rec.plays)) && put_hand(
            v,
            pid,
            without_card(hand.cards, card),
        ) is Ok {
            crate::integrity::lemma_put_hand_wf(v, pid, without_card(hand.cards, card));
            let v1 = put_hand(v, pid, without_card(hand.cards, card))->Ok_0;
            assert(v1.records == v.records && v1.rooms == v.rooms && v1.players == v.players);
            let rec2 = record_after_play(rec, pid, card, trump);
            if put_record(v1, rec2) is Ok {
                lemma_put_record_keeps_latest(v1, rp, rec2);
                crate::integrity::lemma_put_record_wf(v1, rec2);
                let v2 = put_record(v1, rec2)->Ok_0;
                let last = (v1.records.len() - 1) as int;
                lemma_record_pos_unique(v1, rp);
                assert(v2.records[last] == rec2);
                assert(v2.rooms == v.rooms && v2.players == v.players);
                if rec2.plays.len() != 4 {
                    let t2 = t.wrapping_add(1) % 4;
                    let v3 = with_room(v2, pos, RoomView { current_turn_index: t2, ..room });
                    crate::integrity::lemma_with_room_wf(v2, pos, RoomView { current_turn_index: t2, ..room });
                    lemma_room_pos_unique(v3, pos);
                    assert(v3.records == v2.records);
                    lemma_same_players(v, v3, room_id, h);
                    if bot_at(v3, room_id, t2) {
                        lemma_bot_at_in_range(v3, room_id, t2);
                        assert(seats_to(t2, h) + 1 == seats_to(t, h));
                    }
                } else {
                    assert(k == 3);
                    if let Some(wid) = rec2.winner_id {
                        if let Some(pp) = player_pos(v2, wid) {
                            let w = v2.players[pp];
                            if let Ok(v3) = count_hand_won(v2, room_id, w.team == seq!['A']) {
                                assert(v3.records == v2.records && v3.rooms == v2.rooms && v3.players == v2.players);
                                crate::integrity::lemma_score_pos(v2, room_id);
                                if room.hand_number < 8 {
                                    let next = (room.hand_number + 1) as u8;
                                    let r4 = RoomView { hand_number: next, current_turn_index: w.seat_index, ..room };
                                    crate::integrity::lemma_play_step_wf(v, room_id, pid, card);
                                    let v4 = with_room(v3, pos, r4);
                                    if crate::ops::insert_record(v4, first_record(room_id, next)) is Ok {
                                        let v5 = crate::ops::insert_record(v4, first_record(room_id, next))->Ok_0;
                                        if wf(v3) {
                                            crate::integrity::lemma_with_room_wf(v3, pos, r4);
                                            lemma_insert_record_latest(v4, first_record(room_id, next));
                                            lemma_room_pos_unique(v5, pos);
                                            lemma_same_players(v, v5, room_id, h);
                                            if bot_at(v5, room_id, w.seat_index) {
                                                lemma_bot_at_in_range(v5, room_id, w.seat_index);
                                            }
                                        }
                                    }
                                }
                            }
                        }
                    }
                }
            }
        }
    }
}

/// One automatic step in a room with a free seat keeps the room so, brings
/// the bound down, and does not itself run out of steps.
proof fn lemma_step_progress(
    v: DbView,
    room_id: u64,
    h: u8,
    next: NextStep,
    so: Result<(DbView, NextStep), GameError>,
)
    requires
        room_with_free_seat(v, room_id, h),
        next != NextStep::Done,
        step_outcome(v, room_id, next, so),
    ensures
        so matches Ok((v2, n2)) ==> room_with_free_seat(v2, room_id, h) && steps_bound(v2, room_id, h, n2)
            < steps_bound(v, room_id, h, next),
        so matches Err(e) ==> e != GameError::AutomaticPlayLimit,
{
    crate::integrity::lemma_room_pos(v, room_id);
    match next {
        NextStep::BotTurn => {
            if let Some(pos) = room_pos(v, room_id) {
                let room = v.rooms[pos];
                if let Some(pp) = player_pos_by_seat(v, room_id, room.current_turn_index) {
                    let p = v.players[pp];
                    if let (Some(trump), Some(hp), Some(rp)) = (
                        room.trump_suit,
                        hand_pos(v, p.id),
                        latest_record(v.records, room_id, room.hand_number),
                    ) {
                        let cards = v.hands[hp].cards;
                        let plays = v.records[rp].plays;
                        if p.is_bot && room.status == GameStatus::Playing && cards.len() > 0 {
                            let (roll, pick) = choose|roll: u8, pick: int|
                                possible_draws(cards, plays, 1, roll, pick) && so == #[trigger] play_step(
                                    v,
                                    room_id,
                                    p.id,
                                    bot_card(cards, plays, trump, teammate_of(v, room_id, p.seat_index), 1, roll, pick),
                                );
                            lemma_bot_play_progress(
                                v,
                                room_id,
                                h,
                                p.id,
                                bot_card(cards, plays, trump, teammate_of(v, room_id, p.seat_index), 1, roll, pick),
                            );
                        }
                    }
                }
            }
        },
        NextStep::EndRound => {
            crate::integrity::lemma_end_round_step_wf(v, room_id);
            if let Ok((v2, n2)) = so {
                assert(v2.players == v.players);
                lemma_same_players(v, v2, room_id, h);
            }
        },
        NextStep::AutoDeal => {
            if let Some(pos) = room_pos(v, room_id) {
                if v.rooms[pos].status == GameStatus::WaitingForDeal {
                    let deck = choose|deck: Seq<Card>|
                        is_shuffled_deck(deck) && so == #[trigger] deal_step(v, pos, room_id, deck);
                    lemma_request_steps_keep_players(v, pos, room_id, deck, 0, Card { suit: Suit::Hearts, rank: crate::types::Rank::Ace });
                    crate::integrity::lemma_deal_step_wf(v, pos, room_id, deck);
                    if let Ok((v2, n2)) = so {
                        lemma_same_players(v, v2, room_id, h);
                    }
                }
            }
        },
        NextStep::SelectTrump(suit) => {
            crate::integrity::lemma_select_trump_step_wf(v, room_id, suit);
            if let Some(pos) = room_pos(v, room_id) {
                let room = v.rooms[pos];
                lemma_deal_round_frame(v, seating(v, room_id), room.deck, true);
                lemma_deal_round_error_kind(v, seating(v, room_id), room.deck, true);
                if let Ok((v1, rest)) = deal_round(v, seating(v, room_id), room.deck, true) {
                    let v2 = purge_records(v1, room_id);
                    lemma_purged_records(v1.records, room_id);
                    if insert_record(v2, first_record(room_id, 1)) is Ok {
                        let v3 = insert_record(v2, first_record(room_id, 1))->Ok_0;
                        if let Ok((vf, nf)) = so {
                            assert(vf.records == v3.records);
                            assert(vf.players == v.players);
                            lemma_same_players(v, vf, room_id, h);
                            lemma_room_pos_unique(vf, pos);
                            let rf = vf.rooms[pos];
                            lemma_latest_record(vf.records, room_id, rf.hand_number);
                            if let Some(i) = latest_record(vf.records, room_id, rf.hand_number) {
                                assert(i == v2.records.len()) by {
                                    if i < v2.records.len() {
                                        assert(vf.records[i] == v2.records[i]);
                                    }
                                }
                                assert(vf.records[i].plays.len() == 0);
                            }
                            if bot_at(vf, room_id, rf.current_turn_index) {
                                lemma_bot_at_in_range(vf, room_id, rf.current_turn_index);
                            }
                        }
                    }
                }
            }
        },
        NextStep::Done => {},
    }
}

/// Law: in a room whose players sit on the four seats and where one seat
/// holds no bot, the automatic steps from `next` stop on their own within
/// `steps_bound` steps (at most ten), so they never run out.
pub proof fn lemma_chain_with_free_seat(
    v: DbView,
    room_id: u64,
    h: u8,
    next: NextStep,
    fuel: nat,
    out: Result<DbView, GameError>,
)
    requires
        room_with_free_seat(v, room_id, h),
        fuel >= steps_bound(v, room_id, h, next),
        chain_outcome(v, room_id, next, fuel, out),
    ensures
        out != Err::<DbView, GameError>(GameError::AutomaticPlayLimit),
    decreases fuel,
{
    if next != NextStep::Done {
        let so = choose|so: Result<(DbView, NextStep), GameError>|
            #[trigger] step_outcome(v, room_id, next, so) && match so {
                Err(e) => out == Err::<DbView, GameError>(e),
                Ok((v2, n2)) => chain_outcome(v2, room_id, n2, (fuel - 1) as nat, out),
            };
        lemma_step_progress(v, room_id, h, next, so);
        if let Ok((v2, n2)) = so {
            lemma_chain_with_free_seat(v2, room_id, h, n2, (fuel - 1) as nat, out);
        }
    }
}

/// Law: in a room whose players sit on the four seats and where one seat
/// holds no bot (a person's seat, as in every single-player room), no request
/// is refused for running out of automatic steps: after a deal, a trump
/// choice, a play or a bot check, the steps that follow stop within ten.
pub proof fn lemma_requests_with_free_seat_finish(
    v: DbView,
    who: PlayerIdentity,
    room_id: u64,
    h: u8,
    suit: Suit,
    card: Card,
    out: Result<DbView, GameError>,
)
    requires
        room_with_free_seat(v, room_id, h),
    ensures
        dealer_click_deal_outcome(v, who, room_id, out) ==> out != Err::<DbView, GameError>(
            GameError::AutomaticPlayLimit,
        ),
        select_trump_outcome(v, who, room_id, suit, out) ==> out != Err::<DbView, GameError>(
            GameError::AutomaticPlayLimit,
        ),
        play_card_outcome(v, who, room_id, card, out) ==> out != Err::<DbView, GameError>(
            GameError::AutomaticPlayLimit,
        ),
        chain_outcome(v, room_id, NextStep::BotTurn, AUTOMATIC_STEP_LIMIT as nat, out) ==> out != Err::<
            DbView,
            GameError,
        >(GameError::AutomaticPlayLimit),
{
    lemma_steps_bound_small(v, room_id, h, NextStep::BotTurn);
    lemma_steps_bound_small(v, room_id, h, NextStep::SelectTrump(suit));
    if chain_outcome(v, room_id, NextStep::BotTurn, AUTOMATIC_STEP_LIMIT as nat, out) {
        lemma_chain_with_free_seat(v, room_id, h, NextStep::BotTurn, AUTOMATIC_STEP_LIMIT as nat, out);
    }
    if select_trump_outcome(v, who, room_id, suit, out) {
        if out == Err::<DbView, GameError>(GameError::AutomaticPlayLimit) {
            lemma_chain_with_free_seat(v, room_id, h, NextStep::SelectTrump(suit), AUTOMATIC_STEP_LIMIT as nat, out);
        }
    }
    crate::integrity::lemma_room_pos(v, room_id);
    if let Some(pos) = room_pos(v, room_id) {
        if exists|deck: Seq<Card>|
            is_shuffled_deck(deck) && continue_from(#[trigger] deal_step(v, pos, room_id, deck), room_id, out)
        {
            let deck = choose|deck: Seq<Card>|
                is_shuffled_deck(deck) && continue_from(#[trigger] deal_step(v, pos, room_id, deck), room_id, out);
            lemma_request_steps_keep_players(v, pos, room_id, deck, 0, card);
            crate::integrity::lemma_deal_step_wf(v, pos, room_id, deck);
            match deal_step(v, pos, room_id, deck) {
                Ok((v2, n)) => {
                    lemma_same_players(v, v2, room_id, h);
                    lemma_steps_bound_small(v2, room_id, h, n);
                    lemma_chain_with_free_seat(v2, room_id, h, n, AUTOMATIC_STEP_LIMIT as nat, out);
                },
                Err(e) => {},
            }
        }
        if let Some(cp) = player_pos_by_identity(v, room_id, who) {
            let pid = v.players[cp].id;
            if continue_from(play_step(v, room_id, pid, card), room_id, out) {
                lemma_request_steps_keep_players(v, pos, room_id, Seq::empty(), pid, card);
                crate::integrity::lemma_play_step_wf(v, room_id, pid, card);
                match play_step(v, room_id, pid, card) {
                    Ok((v2, n)) => {
                        lemma_same_players(v, v2, room_id, h);
                        lemma_steps_bound_small(v2, room_id, h, n);
                        lemma_chain_with_free_seat(v2, room_id, h, n, AUTOMATIC_STEP_LIMIT as nat, out);
                    },
                    Err(e) => {},
                }
            }
        }
    }
}

} // verus!
