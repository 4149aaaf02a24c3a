//! The integrity of the game's tables: primary keys are unique, and every
//! auto-increment key lies below its sequence's next value. Every table
//! operation, game step and request keeps it.

use vstd::prelude::*;
use crate::types::{Card, GameStatus, Suit};
use crate::tables::{GameError, PlayerIdentity};
use crate::types::RoomMode;
use crate::queries::{player_pos_by_identity, room_players, room_pos_by_code};
use crate::reducers::{
    add_bots, bot_name, code_of_hash, create_room_result, create_single_player_result,
    dealer_click_deal_outcome, disconnected, join_room_result, new_player, new_room, new_score,
    play_card_outcome, select_trump_outcome,
};
use crate::deck::dealt_count;
use crate::game_logic::round_score;
use crate::bot_ai::{bot_card, possible_draws};
use crate::steps::{
    AUTOMATIC_STEP_LIMIT, NextStep, chain_outcome, continue_from, count_hand_won, deal_round, deal_step, end_round_step, extend_hand,
    finish_hand, first_record, is_shuffled_deck, lemma_deal_round_frame, play_step,
    record_after_play, select_trump_step, step_outcome, teammate_of, without_card,
};
use crate::tables::{DbView, HandView, PlayerView, RecordView, RoomView, Score};
use crate::queries::{
    hand_pos, latest_record, lemma_first_index, lemma_latest_record, player_pos,
    player_pos_by_seat, record_pos, room_pos, score_pos, seating,
};
use crate::ops::{
    insert_player, insert_record, insert_room, insert_score, purge_records, put_hand, put_record,
    records_not_of_room, with_player, with_room, with_score,
};

verus! {

// ── Keys ───────────────────────────────────────────────────────────────

/// No two rows of the table share a key.
pub open spec fn distinct_keys<T>(s: Seq<T>, key: spec_fn(T) -> u64) -> bool {
    forall|i: int, j: int|
        #![trigger s[i], s[j]]
        0 <= i < s.len() && 0 <= j < s.len() && i != j ==> key(s[i]) != key(s[j])
}

/// Every key of the table lies below `bound`.
pub open spec fn keys_below<T>(s: Seq<T>, key: spec_fn(T) -> u64, bound: u64) -> bool {
    forall|i: int| 0 <= i < s.len() ==> key(#[trigger] s[i]) < bound
}

pub open spec fn room_key() -> spec_fn(RoomView) -> u64 {
    |r: RoomView| r.id
}

pub open spec fn player_key() -> spec_fn(PlayerView) -> u64 {
    |p: PlayerView| p.id
}

pub open spec fn hand_key() -> spec_fn(HandView) -> u64 {
    |h: HandView| h.player_id
}

pub open spec fn record_key() -> spec_fn(RecordView) -> u64 {
    |r: RecordView| r.id
}

pub open spec fn score_key() -> spec_fn(Score) -> u64 {
    |s: Score| s.room_id
}

/// The tables are well formed: each table's primary key is unique, and the
/// ids of rooms, players and hand records lie below the next id of their
/// sequence.
pub open spec fn wf(v: DbView) -> bool {
    &&& distinct_keys(v.rooms, room_key())
    &&& distinct_keys(v.players, player_key())
    &&& distinct_keys(v.hands, hand_key())
    &&& distinct_keys(v.records, record_key())
    &&& distinct_keys(v.scores, score_key())
    &&& keys_below(v.rooms, room_key(), v.next_room_id)
    &&& keys_below(v.players, player_key(), v.next_player_id)
    &&& keys_below(v.records, record_key(), v.next_record_id)
}

// ── Keys through sequence operations ───────────────────────────────────

proof fn lemma_push_key<T>(s: Seq<T>, key: spec_fn(T) -> u64, x: T, bound: u64, new_bound: u64)
    requires
        distinct_keys(s, key),
        forall|j: int| 0 <= j < s.len() ==> key(#[trigger] s[j]) != key(x),
    ensures
        distinct_keys(s.push(x), key),
        keys_below(s, key, bound) && key(x) < new_bound && bound <= new_bound ==> keys_below(
            s.push(x),
            key,
            new_bound,
        ),
{
    let t = s.push(x);
    assert forall|i: int, j: int|
        #![trigger t[i], t[j]]
        0 <= i < t.len() && 0 <= j < t.len() && i != j implies key(t[i]) != key(t[j]) by {
        if i < s.len() && j < s.len() {
            assert(t[i] == s[i] && t[j] == s[j]);
        } else if i < s.len() {
            assert(t[i] == s[i]);
        } else {
            assert(t[j] == s[j]);
        }
    }
    if keys_below(s, key, bound) && key(x) < new_bound && bound <= new_bound {
        assert forall|i: int| 0 <= i < t.len() implies key(#[trigger] t[i]) < new_bound by {
            if i < s.len() {
                assert(t[i] == s[i]);
            }
        }
    }
}

proof fn lemma_remove_key<T>(s: Seq<T>, key: spec_fn(T) -> u64, k: int, bound: u64)
    requires
        distinct_keys(s, key),
        0 <= k < s.len(),
    ensures
        distinct_keys(s.remove(k), key),
        keys_below(s, key, bound) ==> keys_below(s.remove(k), key, bound),
        forall|j: int| 0 <= j < s.remove(k).len() ==> key(#[trigger] s.remove(k)[j]) != key(s[k]),
{
    let t = s.remove(k);
    assert forall|i: int| 0 <= i < t.len() implies #[trigger] t[i] == s[if i < k { i } else { i + 1 }] by {}
    assert forall|i: int, j: int|
        #![trigger t[i], t[j]]
        0 <= i < t.len() && 0 <= j < t.len() && i != j implies key(t[i]) != key(t[j]) by {
        let a = if i < k { i } else { i + 1 };
        let b = if j < k { j } else { j + 1 };
        assert(t[i] == s[a] && t[j] == s[b]);
    }
    if keys_below(s, key, bound) {
        assert forall|i: int| 0 <= i < t.len() implies key(#[trigger] t[i]) < bound by {
            let a = if i < k { i } else { i + 1 };
            assert(t[i] == s[a]);
        }
    }
    assert forall|j: int| 0 <= j < t.len() implies key(#[trigger] t[j]) != key(s[k]) by {
        let a = if j < k { j } else { j + 1 };
        assert(t[j] == s[a]);
    }
}

proof fn lemma_update_key<T>(s: Seq<T>, key: spec_fn(T) -> u64, k: int, x: T, bound: u64)
    requires
        distinct_keys(s, key),
        0 <= k < s.len(),
        key(x) == key(s[k]),
    ensures
        distinct_keys(s.update(k, x), key),
        keys_below(s, key, bound) ==> keys_below(s.update(k, x), key, bound),
{
    let t = s.update(k, x);
    assert forall|i: int, j: int|
        #![trigger t[i], t[j]]
        0 <= i < t.len() && 0 <= j < t.len() && i != j implies key(t[i]) != key(t[j]) by {
        assert(key(t[i]) == key(s[i]) && key(t[j]) == key(s[j]));
    }
    if keys_below(s, key, bound) {
        assert forall|i: int| 0 <= i < t.len() implies key(#[trigger] t[i]) < bound by {
            assert(key(t[i]) == key(s[i]));
        }
    }
}

/// The first row found for a key that is absent: no row has the key.
proof fn lemma_absent_key<T>(s: Seq<T>, key: spec_fn(T) -> u64, p: spec_fn(T) -> bool, k: u64)
    requires
        crate::queries::first_index(s, p) is None,
        forall|x: T| #[trigger] p(x) == (key(x) == k),
    ensures
        forall|j: int| 0 <= j < s.len() ==> key(#[trigger] s[j]) != k,
{
    lemma_first_index(s, p);
    assert forall|j: int| 0 <= j < s.len() implies key(#[trigger] s[j]) != k by {
        assert(!p(s[j]));
    }
}

/// A key below every key's bound belongs to no row.
proof fn lemma_fresh_key<T>(s: Seq<T>, key: spec_fn(T) -> u64, bound: u64)
    requires
        keys_below(s, key, bound),
    ensures
        forall|j: int| 0 <= j < s.len() ==> key(#[trigger] s[j]) != bound,
{
}

// ── Keys through table operations ──────────────────────────────────────

pub proof fn lemma_insert_room_wf(v: DbView, r: RoomView)
    requires
        wf(v),
        insert_room(v, r) is Ok,
    ensures
        wf(insert_room(v, r)->Ok_0),
{
    let id = v.next_room_id;
    lemma_fresh_key(v.rooms, room_key(), id);
    lemma_push_key(v.rooms, room_key(), RoomView { id, ..r }, id, (id + 1) as u64);
}

pub proof fn lemma_insert_player_wf(v: DbView, p: PlayerView)
    requires
        wf(v),
        insert_player(v, p) is Ok,
    ensures
        wf(insert_player(v, p)->Ok_0),
{
    let id = v.next_player_id;
    lemma_fresh_key(v.players, player_key(), id);
    lemma_push_key(v.players, player_key(), PlayerView { id, ..p }, id, (id + 1) as u64);
}

/// Under `wf`, inserting a player fails only when the id sequence is spent.
pub proof fn lemma_insert_player_ok(v: DbView, p: PlayerView)
    requires
        wf(v),
        v.next_player_id < u64::MAX,
    ensures
        insert_player(v, p) is Ok,
{
    lemma_first_index(v.players, crate::queries::player_has_id(v.next_player_id));
    if let Some(i) = player_pos(v, v.next_player_id) {
        assert(player_key()(v.players[i]) < v.next_player_id);
    }
}

pub proof fn lemma_insert_record_wf(v: DbView, r: RecordView)
    requires
        wf(v),
        insert_record(v, r) is Ok,
    ensures
        wf(insert_record(v, r)->Ok_0),
{
    let id = v.next_record_id;
    lemma_fresh_key(v.records, record_key(), id);
    lemma_push_key(v.records, record_key(), RecordView { id, ..r }, id, (id + 1) as u64);
}

pub proof fn lemma_insert_score_wf(v: DbView, s: Score)
    requires
        wf(v),
        insert_score(v, s) is Ok,
    ensures
        wf(insert_score(v, s)->Ok_0),
{
    lemma_absent_key(v.scores, score_key(), crate::queries::score_of_room(s.room_id), s.room_id);
    lemma_push_key(v.scores, score_key(), s, 0, 0);
}

pub proof fn lemma_put_hand_wf(v: DbView, player_id: u64, cards: Seq<Card>)
    requires
        wf(v),
        put_hand(v, player_id, cards) is Ok,
    ensures
        wf(put_hand(v, player_id, cards)->Ok_0),
{
    let v1 = match hand_pos(v, player_id) {
        Some(i) => {
            lemma_first_index(v.hands, crate::queries::hand_of_player(player_id));
            lemma_remove_key(v.hands, hand_key(), i, 0);
            DbView { hands: v.hands.remove(i), ..v }
        },
        None => v,
    };
    lemma_absent_key(v1.hands, hand_key(), crate::queries::hand_of_player(player_id), player_id);
    lemma_push_key(v1.hands, hand_key(), HandView { player_id, cards }, 0, 0);
}

/// Re-inserting a hand row with more cards keeps the tables well formed.
pub proof fn lemma_extend_hand_wf(v: DbView, player_id: u64, more: Seq<Card>)
    requires
        wf(v),
        extend_hand(v, player_id, more) is Ok,
    ensures
        wf(extend_hand(v, player_id, more)->Ok_0),
{
    lemma_first_index(v.hands, crate::queries::hand_of_player(player_id));
    if let Some(i) = hand_pos(v, player_id) {
        let h = v.hands[i];
        lemma_remove_key(v.hands, hand_key(), i, 0);
        let v1 = DbView { hands: v.hands.remove(i), ..v };
        lemma_absent_key(v1.hands, hand_key(), crate::queries::hand_of_player(h.player_id), h.player_id);
        lemma_push_key(v1.hands, hand_key(), HandView { player_id: h.player_id, cards: h.cards + more }, 0, 0);
    }
}

pub proof fn lemma_put_record_wf(v: DbView, r: RecordView)
    requires
        wf(v),
        r.id < v.next_record_id,
        put_record(v, r) is Ok,
    ensures
        wf(put_record(v, r)->Ok_0),
{
    lemma_first_index(v.records, crate::queries::record_has_id(r.id));
    let v1 = match record_pos(v, r.id) {
        Some(i) => {
            lemma_remove_key(v.records, record_key(), i, v.next_record_id);
            DbView { records: v.records.remove(i), ..v }
        },
        None => v,
    };
    lemma_absent_key(v1.records, record_key(), crate::queries::record_has_id(r.id), r.id);
    lemma_push_key(v1.records, record_key(), r, v.next_record_id, v.next_record_id);
}

pub proof fn lemma_with_room_wf(v: DbView, pos: int, r: RoomView)
    requires
        wf(v),
        0 <= pos < v.rooms.len(),
        r.id == v.rooms[pos].id,
    ensures
        wf(with_room(v, pos, r)),
{
    lemma_update_key(v.rooms, room_key(), pos, r, v.next_room_id);
}

pub proof fn lemma_with_score_wf(v: DbView, pos: int, s: Score)
    requires
        wf(v),
        0 <= pos < v.scores.len(),
        s.room_id == v.scores[pos].room_id,
    ensures
        wf(with_score(v, pos, s)),
{
    lemma_update_key(v.scores, score_key(), pos, s, 0);
}

pub proof fn lemma_with_player_wf(v: DbView, pos: int, p: PlayerView)
    requires
        wf(v),
        0 <= pos < v.players.len(),
        p.id == v.players[pos].id,
    ensures
        wf(with_player(v, pos, p)),
{
    lemma_update_key(v.players, player_key(), pos, p, v.next_player_id);
}

proof fn lemma_records_not_of_room_keys(s: Seq<RecordView>, room_id: u64, bound: u64)
    requires
        distinct_keys(s, record_key()),
        keys_below(s, record_key(), bound),
    ensures
        distinct_keys(records_not_of_room(s, room_id), record_key()),
        keys_below(records_not_of_room(s, room_id), record_key(), bound),
        forall|k: int|
            0 <= k < records_not_of_room(s, room_id).len() ==> exists|j: int|
                0 <= j < s.len() && s[j] == #[trigger] records_not_of_room(s, room_id)[k],
    decreases s.len(),
{
    if s.len() > 0 {
        let t = s.drop_last();
        assert forall|i: int| 0 <= i < t.len() implies #[trigger] t[i] == s[i] by {}
        assert(distinct_keys(t, record_key()));
        assert(keys_below(t, record_key(), bound));
        lemma_records_not_of_room_keys(t, room_id, bound);
        let prev = records_not_of_room(t, room_id);
        let last = s.last();
        assert(s[s.len() - 1] == last);
        if last.room_id != room_id {
            assert forall|j: int| 0 <= j < prev.len() implies record_key()(#[trigger] prev[j]) != record_key()(last) by {
                let m = choose|m: int| 0 <= m < t.len() && t[m] == prev[j];
                assert(s[m] == prev[j]);
            }
            lemma_push_key(prev, record_key(), last, bound, bound);
            let res = records_not_of_room(s, room_id);
            assert forall|k: int| 0 <= k < res.len() implies exists|j: int|
                0 <= j < s.len() && s[j] == #[trigger] res[k] by {
                if k < prev.len() {
                    let m = choose|m: int| 0 <= m < t.len() && t[m] == prev[k];
                    assert(s[m] == res[k]);
                } else {
                    assert(s[s.len() - 1] == res[k]);
                }
            }
        } else {
            let res = records_not_of_room(s, room_id);
            assert forall|k: int| 0 <= k < res.len() implies exists|j: int|
                0 <= j < s.len() && s[j] == #[trigger] res[k] by {
                let m = choose|m: int| 0 <= m < t.len() && t[m] == prev[k];
                assert(s[m] == res[k]);
            }
        }
    }
}

pub proof fn lemma_purge_records_wf(v: DbView, room_id: u64)
    requires
        wf(v),
    ensures
        wf(purge_records(v, room_id)),
{
    lemma_records_not_of_room_keys(v.records, room_id, v.next_record_id);
}

/// A row found by its key holds that key.
pub proof fn lemma_room_pos(v: DbView, id: u64)
    ensures
        room_pos(v, id) matches Some(p) ==> 0 <= p < v.rooms.len() && v.rooms[p].id == id,
{
    lemma_first_index(v.rooms, crate::queries::room_has_id(id));
}

pub proof fn lemma_score_pos(v: DbView, room_id: u64)
    ensures
        score_pos(v, room_id) matches Some(p) ==> 0 <= p < v.scores.len() && v.scores[p].room_id == room_id,
{
    lemma_first_index(v.scores, crate::queries::score_of_room(room_id));
}

// ── Game steps keep the tables well formed ─────────────────────────────

pub proof fn lemma_deal_round_wf(v: DbView, order: Seq<u64>, deck: Seq<Card>, append: bool)
    requires
        wf(v),
    ensures
        deal_round(v, order, deck, append) matches Ok((v1, rest)) ==> wf(v1),
    decreases order.len(),
{
    if order.len() > 0 {
        lemma_deal_round_wf(v, order.drop_last(), deck, append);
        if let Ok((v1, d1)) = deal_round(v, order.drop_last(), deck, append) {
            let n = dealt_count(4, d1.len());
            if append {
                if extend_hand(v1, order.last(), d1.take(n)) is Ok {
                    lemma_extend_hand_wf(v1, order.last(), d1.take(n));
                }
            } else {
                if put_hand(v1, order.last(), d1.take(n)) is Ok {
                    lemma_put_hand_wf(v1, order.last(), d1.take(n));
                }
            }
        }
    }
}

pub proof fn lemma_select_trump_step_wf(v: DbView, room_id: u64, suit: Suit)
    requires
        wf(v),
    ensures
        select_trump_step(v, room_id, suit) matches Ok((v2, n)) ==> wf(v2),
{
    lemma_room_pos(v, room_id);
    if let Some(pos) = room_pos(v, room_id) {
        let room = v.rooms[pos];
        lemma_deal_round_wf(v, seating(v, room_id), room.deck, true);
        lemma_deal_round_frame(v, seating(v, room_id), room.deck, true);
        if let Ok((v1, rest)) = deal_round(v, seating(v, room_id), room.deck, true) {
            lemma_purge_records_wf(v1, room_id);
            let v2 = purge_records(v1, room_id);
            if insert_record(v2, first_record(room_id, 1)) is Ok {
                lemma_insert_record_wf(v2, first_record(room_id, 1));
                let v3 = insert_record(v2, first_record(room_id, 1))->Ok_0;
                lemma_score_pos(v3, room_id);
                let v4 = match score_pos(v3, room_id) {
                    Some(sp) => {
                        let sc = Score { team_a_hands: 0, team_b_hands: 0, ..v3.scores[sp] };
                        lemma_with_score_wf(v3, sp, sc);
                        with_score(v3, sp, sc)
                    },
                    None => v3,
                };
                let room2 = RoomView {
                    trump_suit: Some(suit),
                    status: GameStatus::Playing,
                    current_turn_index: room.trump_selector_index,
                    deck: rest,
                    ..room
                };
                lemma_with_room_wf(v4, pos, room2);
            }
        }
    }
}

pub proof fn lemma_finish_hand_wf(v: DbView, pos: int, room: RoomView, room_id: u64, winner: Option<u64>)
    requires
        wf(v),
        0 <= pos < v.rooms.len(),
        v.rooms[pos].id == room.id,
    ensures
        finish_hand(v, pos, room, room_id, winner) matches Ok((v2, n)) ==> wf(v2),
{
    if let Some(wid) = winner {
        if let Some(pp) = player_pos(v, wid) {
            let w = v.players[pp];
            lemma_score_pos(v, room_id);
            let team_a = w.team == seq!['A'];
            if let Some(sp) = score_pos(v, room_id) {
                let sc = v.scores[sp];
                if team_a {
                    lemma_with_score_wf(v, sp, Score { team_a_hands: sc.team_a_hands.wrapping_add(1), ..sc });
                } else {
                    lemma_with_score_wf(v, sp, Score { team_b_hands: sc.team_b_hands.wrapping_add(1), ..sc });
                }
            }
            if let Ok(v1) = count_hand_won(v, room_id, team_a) {
                if room.hand_number < 8 {
                    let next = (room.hand_number + 1) as u8;
                    let r2 = RoomView { hand_number: next, current_turn_index: w.seat_index, ..room };
                    lemma_with_room_wf(v1, pos, r2);
                    let v2 = with_room(v1, pos, r2);
                    if insert_record(v2, first_record(room_id, next)) is Ok {
                        lemma_insert_record_wf(v2, first_record(room_id, next));
                    }
                }
            }
        }
    }
}

pub proof fn lemma_play_step_wf(v: DbView, room_id: u64, player_id: u64, card: Card)
    requires
        wf(v),
    ensures
        play_step(v, room_id, player_id, card) matches Ok((v2, n)) ==> wf(v2),
{
    lemma_room_pos(v, room_id);
    if let Some(pos) = room_pos(v, room_id) {
        let room = v.rooms[pos];
        lemma_first_index(v.hands, crate::queries::hand_of_player(player_id));
        lemma_latest_record(v.records, room_id, room.hand_number);
        if let (Some(trump), Some(hp), Some(rp)) = (
            room.trump_suit,
            hand_pos(v, player_id),
            latest_record(v.records, room_id, room.hand_number),
        ) {
            let hand = v.hands[hp];
            let rec = v.records[rp];
            assert(record_key()(v.records[rp]) < v.next_record_id);
            if put_hand(v, player_id, without_card(hand.cards, card)) is Ok {
                lemma_put_hand_wf(v, player_id, without_card(hand.cards, card));
                let v1 = put_hand(v, player_id, without_card(hand.cards, card))->Ok_0;
                let rec2 = record_after_play(rec, player_id, card, trump);
                if put_record(v1, rec2) is Ok {
                    lemma_put_record_wf(v1, rec2);
                    let v2 = put_record(v1, rec2)->Ok_0;
                    if rec2.plays.len() == 4 {
                        lemma_finish_hand_wf(v2, pos, room, room_id, rec2.winner_id);
                    } else {
                        lemma_with_room_wf(
                            v2,
                            pos,
                            RoomView { current_turn_index: room.current_turn_index.wrapping_add(1) % 4, ..room },
                        );
                    }
                }
            }
        }
    }
}

pub proof fn lemma_end_round_step_wf(v: DbView, room_id: u64)
    requires
        wf(v),
    ensures
        end_round_step(v, room_id) matches Ok((v2, n)) ==> wf(v2),
{
    lemma_room_pos(v, room_id);
    lemma_score_pos(v, room_id);
    if let (Some(pos), Some(sp)) = (room_pos(v, room_id), score_pos(v, room_id)) {
        let room = v.rooms[pos];
        let score = v.scores[sp];
        if let Some(tp) = player_pos_by_seat(v, room_id, room.trump_selector_index) {
            let result = round_score(
                score.team_a_hands,
                score.team_b_hands,
                v.players[tp].team == seq!['A'],
                room.previous_round_tied,
            );
            let score2 = Score {
                team_a_points: score.team_a_points.wrapping_add(result.team_a_round_points),
                team_b_points: score.team_b_points.wrapping_add(result.team_b_round_points),
                ..score
            };
            lemma_with_score_wf(v, sp, score2);
            let v1 = with_score(v, sp, score2);
            lemma_with_room_wf(v1, pos, RoomView { status: GameStatus::GameOver, ..room });
            let d = room.dealer_index.wrapping_add(1) % 4;
            lemma_with_room_wf(
                v1,
                pos,
                RoomView {
                    dealer_index: d,
                    trump_selector_index: ((d + 1) % 4) as u8,
                    current_turn_index: d,
                    status: GameStatus::WaitingForDeal,
                    trump_suit: None,
                    hand_number: 0,
                    previous_round_tied: result.is_tie,
                    deck: Seq::empty(),
                    ..room
                },
            );
        }
    }
}

pub proof fn lemma_deal_step_wf(v: DbView, pos: int, room_id: u64, deck: Seq<Card>)
    requires
        wf(v),
        0 <= pos < v.rooms.len(),
    ensures
        deal_step(v, pos, room_id, deck) matches Ok((v2, n)) ==> wf(v2),
{
    let room = v.rooms[pos];
    lemma_deal_round_wf(v, seating(v, room_id), deck, false);
    lemma_deal_round_frame(v, seating(v, room_id), deck, false);
    if let Ok((v1, rest)) = deal_round(v, seating(v, room_id), deck, false) {
        let t = room.dealer_index.wrapping_add(1) % 4;
        lemma_with_room_wf(
            v1,
            pos,
            RoomView {
                deck: rest,
                status: GameStatus::WaitingForTrump,
                trump_selector_index: t,
                current_turn_index: t,
                hand_number: 1,
                trump_suit: None,
                ..room
            },
        );
    }
}

/// Law: every automatic step keeps the tables well formed.
pub proof fn lemma_step_wf(v: DbView, room_id: u64, next: NextStep, v2: DbView, n: NextStep)
    requires
        wf(v),
        step_outcome(v, room_id, next, Ok((v2, n))),
    ensures
        wf(v2),
{
    match next {
        NextStep::Done => {},
        NextStep::SelectTrump(suit) => lemma_select_trump_step_wf(v, room_id, suit),
        NextStep::EndRound => lemma_end_round_step_wf(v, room_id),
        NextStep::BotTurn => {
            let out = Ok::<(DbView, NextStep), GameError>((v2, n));
            if let Some(pos) = room_pos(v, room_id) {
                let room = v.rooms[pos];
                if let Some(pp) = player_pos_by_seat(v, room_id, room.current_turn_index) {
                    let p = v.players[pp];
                    if let (Some(trump), Some(hp), Some(rp)) = (
                        room.trump_suit,
                        hand_pos(v, p.id),
                        latest_record(v.records, room_id, room.hand_number),
                    ) {
                        let cards = v.hands[hp].cards;
                        let plays = v.records[rp].plays;
                        if p.is_bot && room.status == GameStatus::Playing && cards.len() > 0 {
                            let (roll, pick) = choose|roll: u8, pick: int|
                                possible_draws(cards, plays, 1, roll, pick) && out == #[trigger] play_step(
                                    v,
                                    room_id,
                                    p.id,
                                    bot_card(cards, plays, trump, teammate_of(v, room_id, p.seat_index), 1, roll, pick),
                                );
                            lemma_play_step_wf(
                                v,
                                room_id,
                                p.id,
                                bot_card(cards, plays, trump, teammate_of(v, room_id, p.seat_index), 1, roll, pick),
                            );
                        }
                    }
                }
            }
        },
        NextStep::AutoDeal => {
            lemma_room_pos(v, room_id);
            if let Some(pos) = room_pos(v, room_id) {
                if v.rooms[pos].status == GameStatus::WaitingForDeal {
                    let deck = choose|deck: Seq<Card>|
                        is_shuffled_deck(deck) && Ok::<(DbView, NextStep), GameError>((v2, n))
                            == #[trigger] deal_step(v, pos, room_id, deck);
                    lemma_deal_step_wf(v, pos, room_id, deck);
                }
            }
        },
    }
}

/// Law: the automatic steps that follow a request keep the tables well formed.
pub proof fn lemma_chain_wf(v: DbView, room_id: u64, next: NextStep, fuel: nat, v2: DbView)
    requires
        wf(v),
        chain_outcome(v, room_id, next, fuel, Ok(v2)),
    ensures
        wf(v2),
    decreases fuel,
{
    if next != NextStep::Done && fuel > 0 {
        let out = Ok::<DbView, GameError>(v2);
        let so = choose|so: Result<(DbView, NextStep), GameError>|
            #[trigger] step_outcome(v, room_id, next, so) && match so {
                Err(e) => out == Err::<DbView, GameError>(e),
                Ok((v3, n3)) => chain_outcome(v3, room_id, n3, (fuel - 1) as nat, out),
            };
        if let Ok((v3, n3)) = so {
            lemma_step_wf(v, room_id, next, v3, n3);
            lemma_chain_wf(v3, room_id, n3, (fuel - 1) as nat, v2);
        }
    }
}

// ── Requests keep the tables well formed ───────────────────────────────

pub proof fn lemma_create_room_wf(v: DbView, who: PlayerIdentity, username: Seq<char>, hash: u64)
    requires
        wf(v),
    ensures
        create_room_result(v, who, username, hash) matches Ok(v2) ==> wf(v2),
{
    let r = new_room(code_of_hash(hash), GameStatus::WaitingForPlayers, RoomMode::Multiplayer);
    if insert_room(v, r) is Ok {
        lemma_insert_room_wf(v, r);
        let v1 = insert_room(v, r)->Ok_0;
        let p = new_player(username, who, v.next_room_id, 0, false);
        if insert_player(v1, p) is Ok {
            lemma_insert_player_wf(v1, p);
            let v2 = insert_player(v1, p)->Ok_0;
            if insert_score(v2, new_score(v.next_room_id)) is Ok {
                lemma_insert_score_wf(v2, new_score(v.next_room_id));
            }
        }
    }
}

proof fn lemma_add_bots_wf(v: DbView, who: PlayerIdentity, room_id: u64, k: nat)
    requires
        wf(v),
    ensures
        add_bots(v, who, room_id, k) matches Ok(v2) ==> wf(v2),
    decreases k,
{
    if k > 0 {
        lemma_add_bots_wf(v, who, room_id, (k - 1) as nat);
        if let Ok(v1) = add_bots(v, who, room_id, (k - 1) as nat) {
            let p = new_player(bot_name(k), who, room_id, k as u8, true);
            if insert_player(v1, p) is Ok {
                lemma_insert_player_wf(v1, p);
            }
        }
    }
}

pub proof fn lemma_create_single_player_wf(v: DbView, who: PlayerIdentity, username: Seq<char>, hash: u64)
    requires
        wf(v),
    ensures
        create_single_player_result(v, who, username, hash) matches Ok(v2) ==> wf(v2),
{
    let r = new_room(code_of_hash(hash), GameStatus::WaitingForDeal, RoomMode::SinglePlayer);
    if insert_room(v, r) is Ok {
        lemma_insert_room_wf(v, r);
        let v1 = insert_room(v, r)->Ok_0;
        let rid = v.next_room_id;
        let p = new_player(username, who, rid, 0, false);
        if insert_player(v1, p) is Ok {
            lemma_insert_player_wf(v1, p);
            let v2 = insert_player(v1, p)->Ok_0;
            lemma_add_bots_wf(v2, who, rid, 3);
            if let Ok(v3) = add_bots(v2, who, rid, 3) {
                if insert_score(v3, new_score(rid)) is Ok {
                    lemma_insert_score_wf(v3, new_score(rid));
                }
            }
        }
    }
}

pub proof fn lemma_join_room_wf(v: DbView, who: PlayerIdentity, code: Seq<char>, username: Seq<char>)
    requires
        wf(v),
    ensures
        join_room_result(v, who, code, username) matches Ok(v2) ==> wf(v2),
{
    if let Some(pos) = room_pos_by_code(v, code) {
        lemma_first_index(v.rooms, crate::queries::room_has_code(code));
        let room = v.rooms[pos];
        let n = room_players(v.players, room.id).len();
        let p = new_player(username, who, room.id, n as u8, false);
        if insert_player(v, p) is Ok {
            lemma_insert_player_wf(v, p);
            let v1 = insert_player(v, p)->Ok_0;
            lemma_room_pos(v1, room.id);
            if let Some(p2) = room_pos(v1, room.id) {
                lemma_with_room_wf(v1, p2, RoomView { status: GameStatus::WaitingForDeal, ..room });
            }
        }
    }
}

pub proof fn lemma_dealer_click_deal_wf(v: DbView, who: PlayerIdentity, room_id: u64, v2: DbView)
    requires
        wf(v),
        dealer_click_deal_outcome(v, who, room_id, Ok(v2)),
    ensures
        wf(v2),
{
    lemma_room_pos(v, room_id);
    let pos = room_pos(v, room_id)->0;
    let out = Ok::<DbView, GameError>(v2);
    let deck = choose|deck: Seq<Card>|
        is_shuffled_deck(deck) && continue_from(#[trigger] deal_step(v, pos, room_id, deck), room_id, out);
    lemma_deal_step_wf(v, pos, room_id, deck);
    if let Ok((v3, n)) = deal_step(v, pos, room_id, deck) {
        lemma_chain_wf(v3, room_id, n, AUTOMATIC_STEP_LIMIT as nat, v2);
    }
}

pub proof fn lemma_select_trump_wf(v: DbView, who: PlayerIdentity, room_id: u64, suit: Suit, v2: DbView)
    requires
        wf(v),
        select_trump_outcome(v, who, room_id, suit, Ok(v2)),
    ensures
        wf(v2),
{
    lemma_chain_wf(v, room_id, NextStep::SelectTrump(suit), AUTOMATIC_STEP_LIMIT as nat, v2);
}

pub proof fn lemma_play_card_wf(v: DbView, who: PlayerIdentity, room_id: u64, card: Card, v2: DbView)
    requires
        wf(v),
        play_card_outcome(v, who, room_id, card, Ok(v2)),
    ensures
        wf(v2),
{
    let cp = player_pos_by_identity(v, room_id, who)->0;
    let pid = v.players[cp].id;
    lemma_play_step_wf(v, room_id, pid, card);
    if let Ok((v3, n)) = play_step(v, room_id, pid, card) {
        lemma_chain_wf(v3, room_id, n, AUTOMATIC_STEP_LIMIT as nat, v2);
    }
}

pub proof fn lemma_disconnected_wf(v: DbView, who: PlayerIdentity)
    requires
        wf(v),
    ensures
        wf(disconnected(v, who)),
{
    let v2 = disconnected(v, who);
    assert forall|i: int| 0 <= i < v.players.len() implies #[trigger] v2.players[i].id == v.players[i].id by {}
    assert forall|i: int, j: int|
        #![trigger v2.players[i], v2.players[j]]
        0 <= i < v2.players.len() && 0 <= j < v2.players.len() && i != j implies player_key()(v2.players[i])
        != player_key()(v2.players[j]) by {
        assert(v2.players[i].id == v.players[i].id && v2.players[j].id == v.players[j].id);
        assert(player_key()(v.players[i]) != player_key()(v.players[j]));
    }
    assert forall|i: int| 0 <= i < v2.players.len() implies player_key()(#[trigger] v2.players[i])
        < v2.next_player_id by {
        assert(v2.players[i].id == v.players[i].id);
        assert(player_key()(v.players[i]) < v.next_player_id);
    }
}

} // verus!
