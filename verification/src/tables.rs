use vstd::prelude::*;
use crate::types::{Card, GameStatus, Play, RoomMode, Suit};

verus! {

// ── Rows ───────────────────────────────────────────────────────────────

/// A client's identity as a 256-bit value (two 128-bit halves).
#[derive(Clone, Copy, Debug, PartialEq, Eq, Hash, Structural)]
pub struct PlayerIdentity {
    pub hi: u128,
    pub lo: u128,
}

/// A seat at a table: a person or a bot, in a room, on team "A" or "B".
pub struct Player {
    pub id: u64,
    pub username: String,
    pub identity: PlayerIdentity,
    pub room_id: u64,
    pub team: String,
    pub seat_index: u8,
    pub is_bot: bool,
    pub is_connected: bool,
}

/// A game room and the state of its current round.
pub struct Room {
    pub id: u64,
    pub room_code: String,
    pub status: GameStatus,
    pub mode: RoomMode,
    pub dealer_index: u8,
    pub trump_selector_index: u8,
    pub current_turn_index: u8,
    pub trump_suit: Option<Suit>,
    pub previous_round_tied: bool,
    pub hand_number: u8,
    pub deck: Vec<Card>,
}

/// The cards a player holds.
pub struct PlayerHand {
    pub player_id: u64,
    pub cards: Vec<Card>,
}

/// One hand (trick) of a round: the plays so far and, once complete, its winner.
pub struct HandRecord {
    pub id: u64,
    pub room_id: u64,
    pub hand_number: u8,
    pub plays: Vec<Play>,
    pub winner_id: Option<u64>,
    pub leading_suit: Option<Suit>,
}

/// Game points and hands taken in the current round, per team, for a room.
#[derive(Clone, Copy, Debug, PartialEq, Eq, Structural)]
pub struct Score {
    pub room_id: u64,
    pub team_a_points: u32,
    pub team_b_points: u32,
    pub team_a_hands: u32,
    pub team_b_hands: u32,
}

// ── Mathematical views of the rows ─────────────────────────────────────

pub struct PlayerView {
    pub id: u64,
    pub username: Seq<char>,
    pub identity: PlayerIdentity,
    pub room_id: u64,
    pub team: Seq<char>,
    pub seat_index: u8,
    pub is_bot: bool,
    pub is_connected: bool,
}

pub struct RoomView {
    pub id: u64,
    pub room_code: Seq<char>,
    pub status: GameStatus,
    pub mode: RoomMode,
    pub dealer_index: u8,
    pub trump_selector_index: u8,
    pub current_turn_index: u8,
    pub trump_suit: Option<Suit>,
    pub previous_round_tied: bool,
    pub hand_number: u8,
    pub deck: Seq<Card>,
}

pub struct HandView {
    pub player_id: u64,
    pub cards: Seq<Card>,
}

pub struct RecordView {
    pub id: u64,
    pub room_id: u64,
    pub hand_number: u8,
    pub plays: Seq<Play>,
    pub winner_id: Option<u64>,
    pub leading_suit: Option<Suit>,
}

impl View for Player {
    type V = PlayerView;

    open spec fn view(&self) -> PlayerView {
        PlayerView {
            id: self.id,
            username: self.username@,
            identity: self.identity,
            room_id: self.room_id,
            team: self.team@,
            seat_index: self.seat_index,
            is_bot: self.is_bot,
            is_connected: self.is_connected,
        }
    }
}

impl View for Room {
    type V = RoomView;

    open spec fn view(&self) -> RoomView {
        RoomView {
            id: self.id,
            room_code: self.room_code@,
            status: self.status,
            mode: self.mode,
            dealer_index: self.dealer_index,
            trump_selector_index: self.trump_selector_index,
            current_turn_index: self.current_turn_index,
            trump_suit: self.trump_suit,
            previous_round_tied: self.previous_round_tied,
            hand_number: self.hand_number,
            deck: self.deck@,
        }
    }
}

impl View for PlayerHand {
    type V = HandView;

    open spec fn view(&self) -> HandView {
        HandView { player_id: self.player_id, cards: self.cards@ }
    }
}

impl View for HandRecord {
    type V = RecordView;

    open spec fn view(&self) -> RecordView {
        RecordView {
            id: self.id,
            room_id: self.room_id,
            hand_number: self.hand_number,
            plays: self.plays@,
            winner_id: self.winner_id,
            leading_suit: self.leading_suit,
        }
    }
}

impl Player {
    pub fn duplicate(&self) -> (r: Self)
        ensures
            r@ == self@,
    {
        Player {
            id: self.id,
            username: self.username.clone(),
            identity: self.identity,
            room_id: self.room_id,
            team: self.team.clone(),
            seat_index: self.seat_index,
            is_bot: self.is_bot,
            is_connected: self.is_connected,
        }
    }
}

/// A copy of a vector of cards.
pub fn copy_cards(v: &Vec<Card>) -> (r: Vec<Card>)
    ensures
        r@ == v@,
{
    let mut r: Vec<Card> = Vec::new();
    let mut i: usize = 0;
    while i < v.len()
        invariant
            0 <= i <= v.len(),
            r@ =~= v@.take(i as int),
        decreases v.len() - i,
    {
        r.push(v[i]);
        i = i + 1;
    }
    assert(v@.take(v.len() as int) =~= v@);
    r
}

/// A copy of a vector of plays.
pub fn copy_plays(v: &Vec<Play>) -> (r: Vec<Play>)
    ensures
        r@ == v@,
{
    let mut r: Vec<Play> = Vec::new();
    let mut i: usize = 0;
    while i < v.len()
        invariant
            0 <= i <= v.len(),
            r@ =~= v@.take(i as int),
        decreases v.len() - i,
    {
        r.push(v[i]);
        i = i + 1;
    }
    assert(v@.take(v.len() as int) =~= v@);
    r
}

impl Room {
    pub fn duplicate(&self) -> (r: Self)
        ensures
            r@ == self@,
    {
        Room {
            id: self.id,
            room_code: self.room_code.clone(),
            status: self.status,
            mode: self.mode,
            dealer_index: self.dealer_index,
            trump_selector_index: self.trump_selector_index,
            current_turn_index: self.current_turn_index,
            trump_suit: self.trump_suit,
            previous_round_tied: self.previous_round_tied,
            hand_number: self.hand_number,
            deck: copy_cards(&self.deck),
        }
    }
}

impl PlayerHand {
    pub fn duplicate(&self) -> (r: Self)
        ensures
            r@ == self@,
    {
        PlayerHand { player_id: self.player_id, cards: copy_cards(&self.cards) }
    }
}

impl HandRecord {
    pub fn duplicate(&self) -> (r: Self)
        ensures
            r@ == self@,
    {
        HandRecord {
            id: self.id,
            room_id: self.room_id,
            hand_number: self.hand_number,
            plays: copy_plays(&self.plays),
            winner_id: self.winner_id,
            leading_suit: self.leading_suit,
        }
    }
}

// ── The database ───────────────────────────────────────────────────────

/// The server's tables, each in iteration order, with the next value of each
/// auto-increment key.
pub struct GameDb {
    pub players: Vec<Player>,
    pub rooms: Vec<Room>,
    pub player_hands: Vec<PlayerHand>,
    pub hand_records: Vec<HandRecord>,
    pub scores: Vec<Score>,
    pub next_player_id: u64,
    pub next_room_id: u64,
    pub next_hand_record_id: u64,
}

pub open spec fn players_view(s: Seq<Player>) -> Seq<PlayerView> {
    Seq::new(s.len(), |i: int| s[i]@)
}

pub open spec fn rooms_view(s: Seq<Room>) -> Seq<RoomView> {
    Seq::new(s.len(), |i: int| s[i]@)
}

pub open spec fn hands_view(s: Seq<PlayerHand>) -> Seq<HandView> {
    Seq::new(s.len(), |i: int| s[i]@)
}

pub open spec fn records_view(s: Seq<HandRecord>) -> Seq<RecordView> {
    Seq::new(s.len(), |i: int| s[i]@)
}

pub struct DbView {
    pub players: Seq<PlayerView>,
    pub rooms: Seq<RoomView>,
    pub hands: Seq<HandView>,
    pub records: Seq<RecordView>,
    pub scores: Seq<Score>,
    pub next_player_id: u64,
    pub next_room_id: u64,
    pub next_record_id: u64,
}

impl View for GameDb {
    type V = DbView;

    open spec fn view(&self) -> DbView {
        DbView {
            players: players_view(self.players@),
            rooms: rooms_view(self.rooms@),
            hands: hands_view(self.player_hands@),
            records: records_view(self.hand_records@),
            scores: self.scores@,
            next_player_id: self.next_player_id,
            next_room_id: self.next_room_id,
            next_record_id: self.next_hand_record_id,
        }
    }
}

impl GameDb {
    /// An empty database whose keys start at 1.
    pub fn new() -> (db: Self)
        ensures
            db@.players.len() == 0,
            db@.rooms.len() == 0,
            db@.hands.len() == 0,
            db@.records.len() == 0,
            db@.scores.len() == 0,
            db@.next_player_id == 1,
            db@.next_room_id == 1,
            db@.next_record_id == 1,
            crate::integrity::wf(db@),
    {
        GameDb {
            players: Vec::new(),
            rooms: Vec::new(),
            player_hands: Vec::new(),
            hand_records: Vec::new(),
            scores: Vec::new(),
            next_player_id: 1,
            next_room_id: 1,
            next_hand_record_id: 1,
        }
    }

    /// A full copy of the database.
    pub fn duplicate(&self) -> (r: Self)
        ensures
            r@ == self@,
    {
        let mut players: Vec<Player> = Vec::new();
        let mut i: usize = 0;
        while i < self.players.len()
            invariant
                0 <= i <= self.players.len(),
                players@.len() == i,
                players_view(players@) =~= self@.players.take(i as int),
            decreases self.players.len() - i,
        {
            players.push(self.players[i].duplicate());
            i = i + 1;
        }
        let mut rooms: Vec<Room> = Vec::new();
        let mut i: usize = 0;
        while i < self.rooms.len()
            invariant
                0 <= i <= self.rooms.len(),
                rooms@.len() == i,
                rooms_view(rooms@) =~= self@.rooms.take(i as int),
            decreases self.rooms.len() - i,
        {
            rooms.push(self.rooms[i].duplicate());
            i = i + 1;
        }
        let mut hands: Vec<PlayerHand> = Vec::new();
        let mut i: usize = 0;
        while i < self.player_hands.len()
            invariant
                0 <= i <= self.player_hands.len(),
                hands@.len() == i,
                hands_view(hands@) =~= self@.hands.take(i as int),
            decreases self.player_hands.len() - i,
        {
            hands.push(self.player_hands[i].duplicate());
            i = i + 1;
        }
        let mut records: Vec<HandRecord> = Vec::new();
        let mut i: usize = 0;
        while i < self.hand_records.len()
            invariant
                0 <= i <= self.hand_records.len(),
                records@.len() == i,
                records_view(records@) =~= self@.records.take(i as int),
            decreases self.hand_records.len() - i,
        {
            records.push(self.hand_records[i].duplicate());
            i = i + 1;
        }
        let mut scores: Vec<Score> = Vec::new();
        let mut i: usize = 0;
        while i < self.scores.len()
            invariant
                0 <= i <= self.scores.len(),
                scores@ =~= self.scores@.take(i as int),
            decreases self.scores.len() - i,
        {
            scores.push(self.scores[i]);
            i = i + 1;
        }
        let r = GameDb {
            players,
            rooms,
            player_hands: hands,
            hand_records: records,
            scores,
            next_player_id: self.next_player_id,
            next_room_id: self.next_room_id,
            next_hand_record_id: self.next_hand_record_id,
        };
        assert(r@.players =~= self@.players);
        assert(r@.rooms =~= self@.rooms);
        assert(r@.hands =~= self@.hands);
        assert(r@.records =~= self@.records);
        assert(r@.scores =~= self@.scores);
        r
    }
}

/// Why a request was refused. `message` gives the text the server reports.
#[derive(Clone, Copy, Debug, PartialEq, Eq, Structural)]
pub enum GameError {
    UsernameEmpty,
    RoomNotFound,
    GameAlreadyStarted,
    RoomFull,
    AlreadyInRoom,
    NotDealingPhase,
    NotInRoom,
    NotDealer,
    NotTrumpPhase,
    NotTrumpSelector,
    NotPlayingPhase,
    NotYourTurn,
    TrumpNotSet,
    HandNotFound,
    HandRecordNotFound,
    MustFollowSuit,
    CardNotInHand,
    BotHandNotFound,
    ScoreNotFound,
    TrumpSelectorNotFound,
    BotHasNoCards,
    DuplicateKey,
    IdSequenceExhausted,
    AutomaticPlayLimit,
}

} // verus!
