//! The server's requests. Each one either succeeds, or is refused with an
//! error and leaves the database exactly as it was.

use vstd::prelude::*;
use crate::types::{Card, GameStatus, RoomMode, Suit};
use crate::tables::{DbView, GameDb, GameError, Player, PlayerIdentity, PlayerView, Room, RoomView, Score};
use crate::queries::{
    player_pos_by_identity, room_players, room_pos, room_pos_by_code,
};
use crate::ops::{insert_player, insert_room, insert_score, with_room};
use crate::steps::{
    NextStep, chain_outcome, continue_from, db_result, deal_step, is_shuffled_deck, play_step,
    AUTOMATIC_STEP_LIMIT, lemma_chain_without_bots, lemma_request_steps_keep_players, no_bots,
};
use crate::text::{blank, six_digits, team_of_seat};
use crate::integrity::wf;

verus! {

// ── Creating and joining rooms ─────────────────────────────────────────

/// A new room row (its id is assigned on insert).
pub open spec fn new_room(code: Seq<char>, status: GameStatus, mode: RoomMode) -> RoomView {
    RoomView {
        id: 0,
        room_code: code,
        status,
        mode,
        dealer_index: 0,
        trump_selector_index: 1,
        current_turn_index: 0,
        trump_suit: None,
        previous_round_tied: false,
        hand_number: 0,
        deck: Seq::empty(),
    }
}

/// A new connected player row on the team of its seat (its id is assigned on insert).
pub open spec fn new_player(
    username: Seq<char>,
    who: PlayerIdentity,
    room_id: u64,
    seat: u8,
    is_bot: bool,
) -> PlayerView {
    PlayerView {
        id: 0,
        username,
        identity: who,
        room_id,
        team: team_of_seat(seat),
        seat_index: seat,
        is_bot,
        is_connected: true,
    }
}

/// A room's score row at the start of the game.
pub open spec fn new_score(room_id: u64) -> Score {
    Score { room_id, team_a_points: 0, team_b_points: 0, team_a_hands: 0, team_b_hands: 0 }
}

/// The code of a room created with the given hash.
pub open spec fn code_of_hash(hash: u64) -> Seq<char> {
    six_digits((hash % 1000000) as int)
}

/// A multiplayer room is created, waiting for players, with its creator on
/// seat 0 and a zero score.
pub open spec fn create_room_result(v: DbView, who: PlayerIdentity, username: Seq<char>, hash: u64) -> Result<
    DbView,
    GameError,
> {
    if blank(username) {
        Err(GameError::UsernameEmpty)
    } else {
        match insert_room(v, new_room(code_of_hash(hash), GameStatus::WaitingForPlayers, RoomMode::Multiplayer)) {
            Err(e) => Err(e),
            Ok(v1) => {
                let rid = v.next_room_id;
                match insert_player(v1, new_player(username, who, rid, 0, false)) {
                    Err(e) => Err(e),
                    Ok(v2) => insert_score(v2, new_score(rid)),
                }
            },
        }
    }
}

/// The name of the `k`-th bot (1 to 3).
pub open spec fn bot_name(k: nat) -> Seq<char> {
    if k == 1 {
        "Bot 1"@
    } else if k == 2 {
        "Bot 2"@
    } else {
        "Bot 3"@
    }
}

/// Bots 1 to `k` join the room on seats 1 to `k`, under the creator's identity.
pub open spec fn add_bots(v: DbView, who: PlayerIdentity, room_id: u64, k: nat) -> Result<DbView, GameError>
    decreases k,
{
    if k == 0 {
        Ok(v)
    } else {
        match add_bots(v, who, room_id, (k - 1) as nat) {
            Err(e) => Err(e),
            Ok(v1) => insert_player(v1, new_player(bot_name(k), who, room_id, k as u8, true)),
        }
    }
}

/// A single-player room is created, ready to deal, with the person on seat 0,
/// three bots on seats 1 to 3 and a zero score.
pub open spec fn create_single_player_result(
    v: DbView,
    who: PlayerIdentity,
    username: Seq<char>,
    hash: u64,
) -> Result<DbView, GameError> {
    if blank(username) {
        Err(GameError::UsernameEmpty)
    } else {
        match insert_room(v, new_room(code_of_hash(hash), GameStatus::WaitingForDeal, RoomMode::SinglePlayer)) {
            Err(e) => Err(e),
            Ok(v1) => {
                let rid = v.next_room_id;
                match insert_player(v1, new_player(username, who, rid, 0, false)) {
                    Err(e) => Err(e),
                    Ok(v2) => match add_bots(v2, who, rid, 3) {
                        Err(e) => Err(e),
                        Ok(v3) => insert_score(v3, new_score(rid)),
                    },
                }
            },
        }
    }
}

/// A person joins the room with the given code on the next free seat; the
/// fourth player makes the room ready to deal.
pub open spec fn join_room_result(
    v: DbView,
    who: PlayerIdentity,
    code: Seq<char>,
    username: Seq<char>,
) -> Result<DbView, GameError> {
    if blank(username) {
        Err(GameError::UsernameEmpty)
    } else {
        match room_pos_by_code(v, code) {
            None => Err(GameError::RoomNotFound),
            Some(pos) => {
                let room = v.rooms[pos];
                let n = room_players(v.players, room.id).len();
                if room.status != GameStatus::WaitingForPlayers {
                    Err(GameError::GameAlreadyStarted)
                } else if n >= 4 {
                    Err(GameError::RoomFull)
                } else if player_pos_by_identity(v, room.id, who) is Some {
                    Err(GameError::AlreadyInRoom)
                } else {
                    match insert_player(v, new_player(username, who, room.id, n as u8, false)) {
                        Err(e) => Err(e),
                        Ok(v1) => if n + 1 == 4 {
                            match room_pos(v1, room.id) {
                                Some(p2) => Ok(
                                    with_room(v1, p2, RoomView { status: GameStatus::WaitingForDeal, ..room }),
                                ),
                                None => Ok(v1),
                            }
                        } else {
                            Ok(v1)
                        },
                    }
                }
            },
        }
    }
}

/// Law of joining: a successful join adds exactly one player to the room with
/// the code: the caller, as a connected person on the next free seat and on
/// that seat's team. So a room never holds more than four players, and a
/// room whose players sat on seats 0 to n-1 then has them on seats 0 to n.
/// The fourth player makes the room ready to deal; no other room changes.
/// On well-formed tables whose player id sequence is not spent, a join that
/// meets none of the refusals succeeds, and the room with the code is the
/// one room with its id.
pub proof fn lemma_join_seats_next_player(v: DbView, who: PlayerIdentity, code: Seq<char>, username: Seq<char>)
    ensures
        (wf(v) && v.next_player_id < u64::MAX && !blank(username) && room_pos_by_code(v, code) is Some
            && v.rooms[room_pos_by_code(v, code)->0].status == GameStatus::WaitingForPlayers
            && room_players(v.players, v.rooms[room_pos_by_code(v, code)->0].id).len() < 4
            && player_pos_by_identity(v, v.rooms[room_pos_by_code(v, code)->0].id, who) is None)
            ==> join_room_result(v, who, code, username) is Ok,
        (wf(v) && room_pos_by_code(v, code) is Some) ==> room_pos(
            v,
            v.rooms[room_pos_by_code(v, code)->0].id,
        ) == room_pos_by_code(v, code),
        join_room_result(v, who, code, username) matches Ok(v2) ==> {
            let room = v.rooms[room_pos_by_code(v, code)->0];
            let before = room_players(v.players, room.id);
            let after = room_players(v2.players, room.id);
            &&& after.len() == before.len() + 1
            &&& after.len() <= 4
            &&& after.drop_last() == before
            &&& after.last() == (PlayerView {
                id: v.next_player_id,
                ..new_player(username, who, room.id, before.len() as u8, false)
            })
            &&& (forall|i: int| 0 <= i < before.len() ==> #[trigger] before[i].seat_index == i)
                ==> (forall|i: int| 0 <= i < after.len() ==> #[trigger] after[i].seat_index == i)
            &&& forall|r: u64| r != room.id ==> #[trigger] room_players(v2.players, r) == room_players(v.players, r)
            &&& v2.rooms.len() == v.rooms.len()
            &&& forall|i: int|
                0 <= i < v.rooms.len() && v.rooms[i].id != room.id ==> #[trigger] v2.rooms[i] == v.rooms[i]
            &&& after.len() < 4 ==> v2.rooms == v.rooms
            &&& after.len() == 4 ==> v2.rooms[room_pos(v, room.id)->0] == (RoomView {
                status: GameStatus::WaitingForDeal,
                ..room
            })
        },
{
    if let Some(pos) = room_pos_by_code(v, code) {
        crate::queries::lemma_first_index(v.rooms, crate::queries::room_has_code(code));
        let id = v.rooms[pos].id;
        crate::queries::lemma_first_index(v.rooms, crate::queries::room_has_id(id));
        assert(crate::queries::room_has_id(id)(v.rooms[pos]));
        if wf(v) {
            let q = room_pos(v, id)->0;
            assert(crate::integrity::room_key()(v.rooms[q]) == crate::integrity::room_key()(v.rooms[pos]));
            if v.next_player_id < u64::MAX {
                let n = room_players(v.players, id).len();
                crate::integrity::lemma_insert_player_ok(v, new_player(username, who, id, n as u8, false));
            }
        }
    }
    if let Ok(v2) = join_room_result(v, who, code, username) {
        let pos = room_pos_by_code(v, code)->0;
        crate::queries::lemma_first_index(v.rooms, crate::queries::room_has_code(code));
        let room = v.rooms[pos];
        crate::queries::lemma_first_index(v.rooms, crate::queries::room_has_id(room.id));
        assert(crate::queries::room_has_id(room.id)(v.rooms[pos]));
        let n = room_players(v.players, room.id).len();
        let v1 = insert_player(v, new_player(username, who, room.id, n as u8, false))->Ok_0;
        assert(v2.players == v1.players);
        assert(v1.players.drop_last() =~= v.players);
        assert(v1.rooms == v.rooms);
        let before = room_players(v.players, room.id);
        let after = room_players(v2.players, room.id);
        assert(after =~= before.push(v1.players.last()));
        assert forall|r: u64| r != room.id implies #[trigger] room_players(v2.players, r) == room_players(v.players, r) by {
            assert(v1.players.drop_last() =~= v.players);
        }
        if (forall|i: int| 0 <= i < before.len() ==> #[trigger] before[i].seat_index == i) {
            assert forall|i: int| 0 <= i < after.len() implies #[trigger] after[i].seat_index == i by {
                if i < before.len() {
                    assert(after[i] == before[i]);
                }
            }
        }
    }
}

fn fresh_room(code: String, status: GameStatus, mode: RoomMode) -> (r: Room)
    ensures
        r@ == new_room(code@, status, mode),
{
    let r = Room {
        id: 0,
        room_code: code,
        status,
        mode,
        dealer_index: 0,
        trump_selector_index: 1,
        current_turn_index: 0,
        trump_suit: None,
        previous_round_tied: false,
        hand_number: 0,
        deck: Vec::new(),
    };
    assert(r@.deck =~= Seq::<Card>::empty());
    r
}

fn fresh_player(username: String, who: PlayerIdentity, room_id: u64, seat: u8, is_bot: bool) -> (p: Player)
    ensures
        p@ == new_player(username@, who, room_id, seat, is_bot),
{
    Player {
        id: 0,
        username,
        identity: who,
        room_id,
        team: crate::text::team_for_seat(seat),
        seat_index: seat,
        is_bot,
        is_connected: true,
    }
}

fn fresh_score(room_id: u64) -> (s: Score)
    ensures
        s == new_score(room_id),
{
    Score { room_id, team_a_points: 0, team_b_points: 0, team_a_hands: 0, team_b_hands: 0 }
}

fn create_room_attempt(db: &mut GameDb, who: PlayerIdentity, username: String, code_hash: u64) -> (r: Result<
    (),
    GameError,
>)
    ensures
        db_result(r, final(db)@) == create_room_result(old(db)@, who, username@, code_hash),
{
    if crate::text::is_blank(&username) {
        return Err(GameError::UsernameEmpty);
    }
    let code = crate::text::room_code_from_hash(code_hash);
    let room_id = match db.insert_room(fresh_room(code, GameStatus::WaitingForPlayers, RoomMode::Multiplayer)) {
        Ok(id) => id,
        Err(e) => {
            return Err(e);
        },
    };
    match db.insert_player(fresh_player(username, who, room_id, 0, false)) {
        Ok(_) => {},
        Err(e) => {
            return Err(e);
        },
    }
    db.insert_score(fresh_score(room_id))
}

/// Create a multiplayer room (its code comes from `code_hash`) with the
/// caller on seat 0.
pub fn create_room(db: &mut GameDb, who: PlayerIdentity, username: String, code_hash: u64) -> (r: Result<
    (),
    GameError,
>)
    ensures
        db_result(r, final(db)@) == create_room_result(old(db)@, who, username@, code_hash),
        r is Err ==> final(db)@ == old(db)@,
        wf(old(db)@) ==> wf(final(db)@),
{
    proof {
        if wf(old(db)@) {
            crate::integrity::lemma_create_room_wf(old(db)@, who, username@, code_hash);
        }
    }
    let saved = db.duplicate();
    let r = create_room_attempt(db, who, username, code_hash);
    if r.is_err() {
        *db = saved;
    }
    r
}

fn bot_username(k: u8) -> (name: String)
    requires
        1 <= k <= 3,
    ensures
        name@ == bot_name(k as nat),
{
    if k == 1 {
        "Bot 1".to_string()
    } else if k == 2 {
        "Bot 2".to_string()
    } else {
        "Bot 3".to_string()
    }
}

fn create_single_player_attempt(
    db: &mut GameDb,
    who: PlayerIdentity,
    username: String,
    code_hash: u64,
) -> (r: Result<(), GameError>)
    ensures
        db_result(r, final(db)@) == create_single_player_result(old(db)@, who, username@, code_hash),
{
    if crate::text::is_blank(&username) {
        return Err(GameError::UsernameEmpty);
    }
    let code = crate::text::room_code_from_hash(code_hash);
    let room_id = match db.insert_room(fresh_room(code, GameStatus::WaitingForDeal, RoomMode::SinglePlayer)) {
        Ok(id) => id,
        Err(e) => {
            return Err(e);
        },
    };
    match db.insert_player(fresh_player(username, who, room_id, 0, false)) {
        Ok(_) => {},
        Err(e) => {
            return Err(e);
        },
    }
    let ghost v2 = db@;
    let ghost expected = match add_bots(v2, who, room_id, 3) {
        Err(e) => Err(e),
        Ok(v3) => insert_score(v3, new_score(room_id)),
    };
    assert(expected == create_single_player_result(old(db)@, who, username@, code_hash));
    let mut k: u8 = 1;
    while k <= 3
        invariant
            1 <= k <= 4,
            expected == create_single_player_result(old(db)@, who, username@, code_hash),
            expected == match add_bots(v2, who, room_id, 3) {
                Err(e) => Err(e),
                Ok(v3) => insert_score(v3, new_score(room_id)),
            },
            add_bots(v2, who, room_id, (k - 1) as nat) == Ok::<DbView, GameError>(db@),
        decreases 4 - k,
    {
        match db.insert_player(fresh_player(bot_username(k), who, room_id, k, true)) {
            Ok(_) => {},
            Err(e) => {
                proof {
                    assert(add_bots(v2, who, room_id, k as nat) == Err::<DbView, GameError>(e));
                    lemma_add_bots_error(v2, who, room_id, k as nat, 3);
                }
                return Err(e);
            },
        }
        k = k + 1;
    }
    db.insert_score(fresh_score(room_id))
}

proof fn lemma_add_bots_error(v: DbView, who: PlayerIdentity, room_id: u64, k: nat, m: nat)
    requires
        1 <= k <= m,
        add_bots(v, who, room_id, k) is Err,
    ensures
        add_bots(v, who, room_id, m) == add_bots(v, who, room_id, k),
    decreases m - k,
{
    if k < m {
        lemma_add_bots_error(v, who, room_id, k, (m - 1) as nat);
    }
}

/// Create a single-player room: the caller on seat 0 and three bots.
pub fn create_single_player_game(
    db: &mut GameDb,
    who: PlayerIdentity,
    username: String,
    code_hash: u64,
) -> (r: Result<(), GameError>)
    ensures
        db_result(r, final(db)@) == create_single_player_result(old(db)@, who, username@, code_hash),
        r is Err ==> final(db)@ == old(db)@,
        wf(old(db)@) ==> wf(final(db)@),
{
    proof {
        if wf(old(db)@) {
            crate::integrity::lemma_create_single_player_wf(old(db)@, who, username@, code_hash);
        }
    }
    let saved = db.duplicate();
    let r = create_single_player_attempt(db, who, username, code_hash);
    if r.is_err() {
        *db = saved;
    }
    r
}

fn join_room_attempt(db: &mut GameDb, who: PlayerIdentity, room_code: String, username: String) -> (r: Result<
    (),
    GameError,
>)
    ensures
        db_result(r, final(db)@) == join_room_result(old(db)@, who, room_code@, username@),
{
    if crate::text::is_blank(&username) {
        return Err(GameError::UsernameEmpty);
    }
    let pos = match db.find_room_by_code(&room_code) {
        Some(p) => p,
        None => {
            return Err(GameError::RoomNotFound);
        },
    };
    let mut room = db.rooms[pos].duplicate();
    let ghost room0 = room@;
    if room.status != GameStatus::WaitingForPlayers {
        return Err(GameError::GameAlreadyStarted);
    }
    let n = db.count_room_players(room.id);
    if n >= 4 {
        return Err(GameError::RoomFull);
    }
    if db.identity_in_room(room.id, who) {
        return Err(GameError::AlreadyInRoom);
    }
    let seat_index = n as u8;
    match db.insert_player(fresh_player(username, who, room.id, seat_index, false)) {
        Ok(_) => {},
        Err(e) => {
            return Err(e);
        },
    }
    if n + 1 == 4 {
        match db.find_room(room.id) {
            Some(p2) => {
                room.status = GameStatus::WaitingForDeal;
                db.set_room(p2, room);
            },
            None => {},
        }
    }
    Ok(())
}

/// Join the room with the given code.
pub fn join_room_by_code(db: &mut GameDb, who: PlayerIdentity, room_code: String, username: String) -> (r:
    Result<(), GameError>)
    ensures
        db_result(r, final(db)@) == join_room_result(old(db)@, who, room_code@, username@),
        r is Err ==> final(db)@ == old(db)@,
        wf(old(db)@) ==> wf(final(db)@),
{
    proof {
        if wf(old(db)@) {
            crate::integrity::lemma_join_room_wf(old(db)@, who, room_code@, username@);
        }
    }
    let saved = db.duplicate();
    let r = join_room_attempt(db, who, room_code, username);
    if r.is_err() {
        *db = saved;
    }
    r
}

/// Join by link: the link carries the room code.
pub fn join_room_by_link(db: &mut GameDb, who: PlayerIdentity, room_code: String, username: String) -> (r:
    Result<(), GameError>)
    ensures
        db_result(r, final(db)@) == join_room_result(old(db)@, who, room_code@, username@),
        r is Err ==> final(db)@ == old(db)@,
        wf(old(db)@) ==> wf(final(db)@),
{
    join_room_by_code(db, who, room_code, username)
}

// ── Playing ────────────────────────────────────────────────────────────

/// The possible results of the dealer's deal: a room waiting for a deal is
/// dealt by its dealer (by anyone in it, in single-player mode) from a
/// freshly shuffled deck, and the automatic steps follow.
pub open spec fn dealer_click_deal_outcome(v: DbView, who: PlayerIdentity, room_id: u64, out: Result<DbView, GameError>) -> bool {
    match room_pos(v, room_id) {
        None => out == Err::<DbView, GameError>(GameError::RoomNotFound),
        Some(pos) => {
            let room = v.rooms[pos];
            if room.status != GameStatus::WaitingForDeal {
                out == Err::<DbView, GameError>(GameError::NotDealingPhase)
            } else {
                match player_pos_by_identity(v, room_id, who) {
                    None => out == Err::<DbView, GameError>(GameError::NotInRoom),
                    Some(cp) => if room.mode == RoomMode::Multiplayer && v.players[cp].seat_index
                        != room.dealer_index {
                        out == Err::<DbView, GameError>(GameError::NotDealer)
                    } else {
                        exists|deck: Seq<Card>|
                            is_shuffled_deck(deck) && continue_from(
                                #[trigger] deal_step(v, pos, room_id, deck),
                                room_id,
                                out,
                            )
                    },
                }
            }
        },
    }
}

/// The possible results of naming trump: only the room's trump selector, while
/// trump is awaited; then the automatic steps follow from the choice.
pub open spec fn select_trump_outcome(
    v: DbView,
    who: PlayerIdentity,
    room_id: u64,
    suit: Suit,
    out: Result<DbView, GameError>,
) -> bool {
    match room_pos(v, room_id) {
        None => out == Err::<DbView, GameError>(GameError::RoomNotFound),
        Some(pos) => {
            let room = v.rooms[pos];
            if room.status != GameStatus::WaitingForTrump {
                out == Err::<DbView, GameError>(GameError::NotTrumpPhase)
            } else {
                match player_pos_by_identity(v, room_id, who) {
                    None => out == Err::<DbView, GameError>(GameError::NotInRoom),
                    Some(cp) => if v.players[cp].seat_index != room.trump_selector_index {
                        out == Err::<DbView, GameError>(GameError::NotTrumpSelector)
                    } else {
                        chain_outcome(
                            v,
                            room_id,
                            NextStep::SelectTrump(suit),
                            AUTOMATIC_STEP_LIMIT as nat,
                            out,
                        )
                    },
                }
            }
        },
    }
}

/// The possible results of playing a card: only in a room at play, only on
/// the caller's turn; the play itself is `play_step`, then the automatic
/// steps follow.
pub open spec fn play_card_outcome(
    v: DbView,
    who: PlayerIdentity,
    room_id: u64,
    card: Card,
    out: Result<DbView, GameError>,
) -> bool {
    match room_pos(v, room_id) {
        None => out == Err::<DbView, GameError>(GameError::RoomNotFound),
        Some(pos) => {
            let room = v.rooms[pos];
            if room.status != GameStatus::Playing {
                out == Err::<DbView, GameError>(GameError::NotPlayingPhase)
            } else {
                match player_pos_by_identity(v, room_id, who) {
                    None => out == Err::<DbView, GameError>(GameError::NotInRoom),
                    Some(cp) => if v.players[cp].seat_index != room.current_turn_index {
                        out == Err::<DbView, GameError>(GameError::NotYourTurn)
                    } else {
                        continue_from(play_step(v, room_id, v.players[cp].id, card), room_id, out)
                    },
                }
            }
        },
    }
}

/// Law: in a room without bots no request is refused for running out of
/// automatic steps: after a deal, a trump choice, a play or a bot check, the
/// steps that follow stop on their own within two steps.
pub proof fn lemma_requests_without_bots_finish(
    v: DbView,
    who: PlayerIdentity,
    room_id: u64,
    suit: Suit,
    card: Card,
    out: Result<DbView, GameError>,
)
    requires
        no_bots(v, room_id),
    ensures
        dealer_click_deal_outcome(v, who, room_id, out) ==> out != Err::<DbView, GameError>(
            GameError::AutomaticPlayLimit,
        ),
        select_trump_outcome(v, who, room_id, suit, out) ==> out != Err::<DbView, GameError>(
            GameError::AutomaticPlayLimit,
        ),
        play_card_outcome(v, who, room_id, card, out) ==> out != Err::<DbView, GameError>(
            GameError::AutomaticPlayLimit,
        ),
        chain_outcome(v, room_id, NextStep::BotTurn, AUTOMATIC_STEP_LIMIT as nat, out) ==> out != Err::<
            DbView,
            GameError,
        >(GameError::AutomaticPlayLimit),
{
    if chain_outcome(v, room_id, NextStep::BotTurn, AUTOMATIC_STEP_LIMIT as nat, out) {
        lemma_chain_without_bots(v, room_id, NextStep::BotTurn, AUTOMATIC_STEP_LIMIT as nat, out);
    }
    if select_trump_outcome(v, who, room_id, suit, out) {
        if out == Err::<DbView, GameError>(GameError::AutomaticPlayLimit) {
            lemma_chain_without_bots(v, room_id, NextStep::SelectTrump(suit), AUTOMATIC_STEP_LIMIT as nat, out);
        }
    }
    if let Some(pos) = room_pos(v, room_id) {
        if exists|deck: Seq<Card>|
            is_shuffled_deck(deck) && continue_from(#[trigger] deal_step(v, pos, room_id, deck), room_id, out)
        {
            let deck = choose|deck: Seq<Card>|
                is_shuffled_deck(deck) && continue_from(#[trigger] deal_step(v, pos, room_id, deck), room_id, out);
            lemma_request_steps_keep_players(v, pos, room_id, deck, 0, card);
            match deal_step(v, pos, room_id, deck) {
                Ok((v2, n)) => {
                    assert(no_bots(v2, room_id));
                    lemma_chain_without_bots(v2, room_id, n, AUTOMATIC_STEP_LIMIT as nat, out);
                },
                Err(e) => {},
            }
        }
        if let Some(cp) = player_pos_by_identity(v, room_id, who) {
            let pid = v.players[cp].id;
            if continue_from(play_step(v, room_id, pid, card), room_id, out) {
                lemma_request_steps_keep_players(v, pos, room_id, Seq::empty(), pid, card);
                match play_step(v, room_id, pid, card) {
                    Ok((v2, n)) => {
                        assert(no_bots(v2, room_id));
                        lemma_chain_without_bots(v2, room_id, n, AUTOMATIC_STEP_LIMIT as nat, out);
                    },
                    Err(e) => {},
                }
            }
        }
    }
}

fn dealer_click_deal_attempt(db: &mut GameDb, who: PlayerIdentity, room_id: u64, seed: u64) -> (r: Result<
    (),
    GameError,
>)
    ensures
        dealer_click_deal_outcome(old(db)@, who, room_id, db_result(r, final(db)@)),
{
    let pos = match db.find_room(room_id) {
        Some(p) => p,
        None => {
            return Err(GameError::RoomNotFound);
        },
    };
    if db.rooms[pos].status != GameStatus::WaitingForDeal {
        return Err(GameError::NotDealingPhase);
    }
    let cp = match db.find_player_by_identity(room_id, who) {
        Some(c) => c,
        None => {
            return Err(GameError::NotInRoom);
        },
    };
    if db.rooms[pos].mode == RoomMode::Multiplayer && db.players[cp].seat_index
        != db.rooms[pos].dealer_index {
        return Err(GameError::NotDealer);
    }
    let ghost v0 = db@;
    let deck = crate::steps::shuffled_deck(seed);
    let ghost d = deck@;
    let first = crate::steps::deal_from(db, pos, room_id, deck);
    let ghost so = crate::steps::step_result(first, db@);
    assert(so == deal_step(v0, pos as int, room_id, d));
    match first {
        Err(e) => {
            assert(continue_from(deal_step(v0, pos as int, room_id, d), room_id, Err::<DbView, GameError>(e)));
            Err(e)
        },
        Ok(next) => {
            let ghost v1 = db@;
            let r = crate::steps::run_automatic_steps(db, room_id, next, seed);
            assert(continue_from(deal_step(v0, pos as int, room_id, d), room_id, db_result(r, db@)));
            r
        },
    }
}

/// The dealer deals the first four cards to each player (`seed` seeds the
/// shuffle and the bots' random choices).
pub fn dealer_click_deal(db: &mut GameDb, who: PlayerIdentity, room_id: u64, seed: u64) -> (r: Result<
    (),
    GameError,
>)
    ensures
        dealer_click_deal_outcome(old(db)@, who, room_id, db_result(r, final(db)@)),
        r is Err ==> final(db)@ == old(db)@,
        wf(old(db)@) ==> wf(final(db)@),
{
    let ghost v0 = db@;
    let saved = db.duplicate();
    let r = dealer_click_deal_attempt(db, who, room_id, seed);
    proof {
        if wf(v0) && r is Ok {
            crate::integrity::lemma_dealer_click_deal_wf(v0, who, room_id, db@);
        }
    }
    if r.is_err() {
        *db = saved;
    }
    r
}

fn select_trump_attempt(db: &mut GameDb, who: PlayerIdentity, room_id: u64, suit: Suit, seed: u64) -> (r:
    Result<(), GameError>)
    ensures
        select_trump_outcome(old(db)@, who, room_id, suit, db_result(r, final(db)@)),
{
    let pos = match db.find_room(room_id) {
        Some(p) => p,
        None => {
            return Err(GameError::RoomNotFound);
        },
    };
    if db.rooms[pos].status != GameStatus::WaitingForTrump {
        return Err(GameError::NotTrumpPhase);
    }
    let cp = match db.find_player_by_identity(room_id, who) {
        Some(c) => c,
        None => {
            return Err(GameError::NotInRoom);
        },
    };
    if db.players[cp].seat_index != db.rooms[pos].trump_selector_index {
        return Err(GameError::NotTrumpSelector);
    }
    crate::steps::run_automatic_steps(db, room_id, NextStep::SelectTrump(suit), seed)
}

/// The trump selector names the trump suit.
pub fn select_trump(db: &mut GameDb, who: PlayerIdentity, room_id: u64, suit: Suit, seed: u64) -> (r: Result<
    (),
    GameError,
>)
    ensures
        select_trump_outcome(old(db)@, who, room_id, suit, db_result(r, final(db)@)),
        r is Err ==> final(db)@ == old(db)@,
        wf(old(db)@) ==> wf(final(db)@),
{
    let ghost v0 = db@;
    let saved = db.duplicate();
    let r = select_trump_attempt(db, who, room_id, suit, seed);
    proof {
        if wf(v0) && r is Ok {
            crate::integrity::lemma_select_trump_wf(v0, who, room_id, suit, db@);
        }
    }
    if r.is_err() {
        *db = saved;
    }
    r
}

fn play_card_attempt(db: &mut GameDb, who: PlayerIdentity, room_id: u64, card: Card, seed: u64) -> (r: Result<
    (),
    GameError,
>)
    ensures
        play_card_outcome(old(db)@, who, room_id, card, db_result(r, final(db)@)),
{
    let pos = match db.find_room(room_id) {
        Some(p) => p,
        None => {
            return Err(GameError::RoomNotFound);
        },
    };
    if db.rooms[pos].status != GameStatus::Playing {
        return Err(GameError::NotPlayingPhase);
    }
    let cp = match db.find_player_by_identity(room_id, who) {
        Some(c) => c,
        None => {
            return Err(GameError::NotInRoom);
        },
    };
    if db.players[cp].seat_index != db.rooms[pos].current_turn_index {
        return Err(GameError::NotYourTurn);
    }
    let player_id = db.players[cp].id;
    let ghost v0 = db@;
    let first = crate::steps::do_play_card(db, room_id, player_id, card);
    match first {
        Err(e) => Err(e),
        Ok(next) => crate::steps::run_automatic_steps(db, room_id, next, seed),
    }
}

/// The player whose turn it is plays a card.
pub fn play_card(db: &mut GameDb, who: PlayerIdentity, room_id: u64, card: Card, seed: u64) -> (r: Result<
    (),
    GameError,
>)
    ensures
        play_card_outcome(old(db)@, who, room_id, card, db_result(r, final(db)@)),
        r is Err ==> final(db)@ == old(db)@,
        wf(old(db)@) ==> wf(final(db)@),
{
    let ghost v0 = db@;
    let saved = db.duplicate();
    let r = play_card_attempt(db, who, room_id, card, seed);
    proof {
        if wf(v0) && r is Ok {
            crate::integrity::lemma_play_card_wf(v0, who, room_id, card, db@);
        }
    }
    if r.is_err() {
        *db = saved;
    }
    r
}

/// Let a bot play if it is a bot's turn in the room.
pub fn run_bot_decision(db: &mut GameDb, room_id: u64, seed: u64) -> (r: Result<(), GameError>)
    ensures
        chain_outcome(old(db)@, room_id, NextStep::BotTurn, AUTOMATIC_STEP_LIMIT as nat, db_result(r, final(db)@)),
        r is Err ==> final(db)@ == old(db)@,
        wf(old(db)@) ==> wf(final(db)@),
{
    let ghost v0 = db@;
    let saved = db.duplicate();
    let r = crate::steps::run_automatic_steps(db, room_id, NextStep::BotTurn, seed);
    proof {
        if wf(v0) && r is Ok {
            crate::integrity::lemma_chain_wf(v0, room_id, NextStep::BotTurn, AUTOMATIC_STEP_LIMIT as nat, db@);
        }
    }
    if r.is_err() {
        *db = saved;
    }
    r
}

// ── Connections ────────────────────────────────────────────────────────

/// Every player row of the client (bots aside) is marked disconnected.
pub open spec fn disconnected(v: DbView, who: PlayerIdentity) -> DbView {
    DbView {
        players: Seq::new(
            v.players.len(),
            |i: int|
                if v.players[i].identity == who && !v.players[i].is_bot {
                    PlayerView { is_connected: false, ..v.players[i] }
                } else {
                    v.players[i]
                },
        ),
        ..v
    }
}

/// Mark the client's players as disconnected in all rooms.
pub fn client_disconnected(db: &mut GameDb, who: PlayerIdentity)
    ensures
        final(db)@ == disconnected(old(db)@, who),
        wf(old(db)@) ==> wf(final(db)@),
{
    proof {
        if wf(old(db)@) {
            crate::integrity::lemma_disconnected_wf(old(db)@, who);
        }
    }
    let ghost v0 = db@;
    let mut i: usize = 0;
    while i < db.players.len()
        invariant
            0 <= i <= db.players.len(),
            db.players.len() == v0.players.len(),
            db@ == (DbView { players: db@.players, ..v0 }),
            forall|j: int|
                0 <= j < i ==> #[trigger] db@.players[j] == disconnected(v0, who).players[j],
            forall|j: int| i <= j < db.players.len() ==> #[trigger] db@.players[j] == v0.players[j],
        decreases db.players.len() - i,
    {
        assert(db@.players[i as int] == v0.players[i as int]);
        assert(db@.players[i as int] == db.players@[i as int]@);
        if db.players[i].identity == who && !db.players[i].is_bot {
            let mut p = db.players[i].duplicate();
            p.is_connected = false;
            assert(p@ == PlayerView { is_connected: false, ..v0.players[i as int] });
            db.set_player(i, p);
            assert(db@.players[i as int] == disconnected(v0, who).players[i as int]);
        } else {
            assert(db@.players[i as int] == disconnected(v0, who).players[i as int]);
        }
        i = i + 1;
    }
    assert(db@.players =~= disconnected(v0, who).players);
}

} // verus!
