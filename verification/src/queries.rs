use vstd::prelude::*;
use crate::types::Card;
use crate::tables::{
    DbView, GameDb, HandView, PlayerHand, PlayerIdentity, PlayerView, RecordView, RoomView,
    Score, hands_view, records_view, rooms_view, players_view,
};

verus! {

// ── Searching a table ──────────────────────────────────────────────────

/// Position of the first element satisfying `p`.
pub open spec fn first_index<T>(s: Seq<T>, p: spec_fn(T) -> bool) -> Option<int>
    decreases s.len(),
{
    if s.len() == 0 {
        None
    } else {
        match first_index(s.drop_last(), p) {
            Some(i) => Some(i),
            None => if p(s.last()) {
                Some(s.len() - 1)
            } else {
                None
            },
        }
    }
}

pub proof fn lemma_first_index<T>(s: Seq<T>, p: spec_fn(T) -> bool)
    ensures
        match first_index(s, p) {
            Some(i) => 0 <= i < s.len() && p(s[i]) && forall|j: int|
                0 <= j < i ==> !p(#[trigger] s[j]),
            None => forall|j: int| 0 <= j < s.len() ==> !p(#[trigger] s[j]),
        },
    decreases s.len(),
{
    if s.len() > 0 {
        let t = s.drop_last();
        lemma_first_index(t, p);
        assert forall|j: int| 0 <= j < t.len() implies #[trigger] t[j] == s[j] by {}
        assert(s[s.len() - 1] == s.last());
        match first_index(t, p) {
            Some(i) => {
                assert(s[i] == t[i]);
                assert forall|j: int| 0 <= j < i implies !p(#[trigger] s[j]) by {
                    assert(s[j] == t[j]);
                }
            },
            None => {
                assert forall|j: int| 0 <= j < s.len() - 1 implies !p(#[trigger] s[j]) by {
                    assert(s[j] == t[j]);
                }
            },
        }
    }
}

/// The search finds position `i` when `i` is the first position satisfying `p`.
pub proof fn lemma_first_index_at<T>(s: Seq<T>, p: spec_fn(T) -> bool, i: int)
    requires
        0 <= i < s.len(),
        p(s[i]),
        forall|j: int| 0 <= j < i ==> !p(#[trigger] s[j]),
    ensures
        first_index(s, p) == Some(i),
{
    lemma_first_index(s, p);
    match first_index(s, p) {
        Some(k) => {
            if k < i {
                assert(!p(s[k]));
            } else if k > i {
                assert(!p(s[i]));
            }
        },
        None => {
            assert(!p(s[i]));
        },
    }
}

/// The search finds nothing when nothing satisfies `p`.
pub proof fn lemma_first_index_none<T>(s: Seq<T>, p: spec_fn(T) -> bool)
    requires
        forall|j: int| 0 <= j < s.len() ==> !p(#[trigger] s[j]),
    ensures
        first_index(s, p) is None,
{
    lemma_first_index(s, p);
    if let Some(k) = first_index(s, p) {
        assert(!p(s[k]));
    }
}

/// The first search result `r` (a position of a vector) agrees with the
/// mathematical search result `s`.
pub open spec fn same_pos(r: Option<usize>, s: Option<int>) -> bool {
    match r {
        Some(i) => s == Some(i as int),
        None => s is None,
    }
}

pub open spec fn room_has_id(id: u64) -> spec_fn(RoomView) -> bool {
    |r: RoomView| r.id == id
}

pub open spec fn room_has_code(code: Seq<char>) -> spec_fn(RoomView) -> bool {
    |r: RoomView| r.room_code == code
}

pub open spec fn player_has_id(id: u64) -> spec_fn(PlayerView) -> bool {
    |p: PlayerView| p.id == id
}

pub open spec fn player_with_identity(room_id: u64, who: PlayerIdentity) -> spec_fn(PlayerView) -> bool {
    |p: PlayerView| p.room_id == room_id && p.identity == who
}

pub open spec fn player_at_seat(room_id: u64, seat: u8) -> spec_fn(PlayerView) -> bool {
    |p: PlayerView| p.room_id == room_id && p.seat_index == seat
}

pub open spec fn hand_of_player(player_id: u64) -> spec_fn(HandView) -> bool {
    |h: HandView| h.player_id == player_id
}

pub open spec fn score_of_room(room_id: u64) -> spec_fn(Score) -> bool {
    |s: Score| s.room_id == room_id
}

pub open spec fn record_has_id(id: u64) -> spec_fn(RecordView) -> bool {
    |r: RecordView| r.id == id
}

/// The room row with the given id.
pub open spec fn room_pos(v: DbView, id: u64) -> Option<int> {
    first_index(v.rooms, room_has_id(id))
}

/// The first room (in table order) with the given code.
pub open spec fn room_pos_by_code(v: DbView, code: Seq<char>) -> Option<int> {
    first_index(v.rooms, room_has_code(code))
}

/// The player row with the given id.
pub open spec fn player_pos(v: DbView, id: u64) -> Option<int> {
    first_index(v.players, player_has_id(id))
}

/// The first player of the room (in table order) with the given identity.
pub open spec fn player_pos_by_identity(v: DbView, room_id: u64, who: PlayerIdentity) -> Option<int> {
    first_index(v.players, player_with_identity(room_id, who))
}

/// The first player of the room (in table order) sitting at the given seat.
pub open spec fn player_pos_by_seat(v: DbView, room_id: u64, seat: u8) -> Option<int> {
    first_index(v.players, player_at_seat(room_id, seat))
}

/// The hand row of the given player.
pub open spec fn hand_pos(v: DbView, player_id: u64) -> Option<int> {
    first_index(v.hands, hand_of_player(player_id))
}

/// The score row of the given room.
pub open spec fn score_pos(v: DbView, room_id: u64) -> Option<int> {
    first_index(v.scores, score_of_room(room_id))
}

/// The hand record row with the given id.
pub open spec fn record_pos(v: DbView, id: u64) -> Option<int> {
    first_index(v.records, record_has_id(id))
}

/// The most recent record (highest id; the last one among equal ids) of the
/// given hand number in the given room.
pub open spec fn latest_record(s: Seq<RecordView>, room_id: u64, hand_number: u8) -> Option<int>
    decreases s.len(),
{
    if s.len() == 0 {
        None
    } else {
        let prev = latest_record(s.drop_last(), room_id, hand_number);
        let r = s.last();
        if r.room_id == room_id && r.hand_number == hand_number && (prev is None || r.id
            >= s[prev->0].id) {
            Some(s.len() - 1)
        } else {
            prev
        }
    }
}

pub proof fn lemma_latest_record(s: Seq<RecordView>, room_id: u64, hand_number: u8)
    ensures
        latest_record(s, room_id, hand_number) matches Some(i) ==> 0 <= i < s.len()
            && s[i].room_id == room_id && s[i].hand_number == hand_number,
        latest_record(s, room_id, hand_number) is None ==> forall|j: int|
            0 <= j < s.len() ==> !(#[trigger] s[j].room_id == room_id && s[j].hand_number
                == hand_number),
    decreases s.len(),
{
    if s.len() > 0 {
        let t = s.drop_last();
        lemma_latest_record(t, room_id, hand_number);
        assert forall|j: int| 0 <= j < t.len() implies #[trigger] t[j] == s[j] by {}
        assert(s[s.len() - 1] == s.last());
        if latest_record(s, room_id, hand_number) is None {
            assert forall|j: int| 0 <= j < s.len() implies !(#[trigger] s[j].room_id == room_id
                && s[j].hand_number == hand_number) by {
                if j < s.len() - 1 {
                    assert(s[j] == t[j]);
                }
            }
        }
    }
}

/// The players of a room, in table order.
pub open spec fn room_players(ps: Seq<PlayerView>, room_id: u64) -> Seq<PlayerView>
    decreases ps.len(),
{
    if ps.len() == 0 {
        Seq::empty()
    } else {
        let prev = room_players(ps.drop_last(), room_id);
        if ps.last().room_id == room_id {
            prev.push(ps.last())
        } else {
            prev
        }
    }
}

/// Ids of the room's players at the given seat, in table order.
pub open spec fn ids_at_seat(ps: Seq<PlayerView>, room_id: u64, seat: int) -> Seq<u64>
    decreases ps.len(),
{
    if ps.len() == 0 {
        Seq::empty()
    } else {
        let prev = ids_at_seat(ps.drop_last(), room_id, seat);
        if ps.last().room_id == room_id && ps.last().seat_index == seat {
            prev.push(ps.last().id)
        } else {
            prev
        }
    }
}

/// Ids of the room's players on seats below `k`, ordered by seat and, within
/// a seat, by table order (a stable sort by seat).
pub open spec fn seating_below(ps: Seq<PlayerView>, room_id: u64, k: int) -> Seq<u64>
    decreases k,
{
    if k <= 0 {
        Seq::empty()
    } else {
        seating_below(ps, room_id, k - 1) + ids_at_seat(ps, room_id, k - 1)
    }
}

/// Ids of the room's players sorted (stably) by seat: the dealing order.
pub open spec fn seating(v: DbView, room_id: u64) -> Seq<u64> {
    seating_below(v.players, room_id, 256)
}

impl GameDb {
    pub fn find_room(&self, id: u64) -> (r: Option<usize>)
        ensures
            same_pos(r, room_pos(self@, id)),
            r matches Some(i) ==> i < self.rooms.len(),
    {
        let mut i: usize = 0;
        while i < self.rooms.len()
            invariant
                0 <= i <= self.rooms.len(),
                forall|j: int| 0 <= j < i ==> !room_has_id(id)(#[trigger] self@.rooms[j]),
            decreases self.rooms.len() - i,
        {
            if self.rooms[i].id == id {
                proof {
                    lemma_first_index_at(self@.rooms, room_has_id(id), i as int);
                }
                return Some(i);
            }
            i = i + 1;
        }
        proof {
            lemma_first_index_none(self@.rooms, room_has_id(id));
        }
        None
    }

    pub fn find_room_by_code(&self, code: &String) -> (r: Option<usize>)
        ensures
            same_pos(r, room_pos_by_code(self@, code@)),
            r matches Some(i) ==> i < self.rooms.len(),
    {
        let mut i: usize = 0;
        while i < self.rooms.len()
            invariant
                0 <= i <= self.rooms.len(),
                forall|j: int| 0 <= j < i ==> !room_has_code(code@)(#[trigger] self@.rooms[j]),
            decreases self.rooms.len() - i,
        {
            if self.rooms[i].room_code == *code {
                proof {
                    lemma_first_index_at(self@.rooms, room_has_code(code@), i as int);
                }
                return Some(i);
            }
            i = i + 1;
        }
        proof {
            lemma_first_index_none(self@.rooms, room_has_code(code@));
        }
        None
    }

    pub fn find_player(&self, id: u64) -> (r: Option<usize>)
        ensures
            same_pos(r, player_pos(self@, id)),
            r matches Some(i) ==> i < self.players.len(),
    {
        let mut i: usize = 0;
        while i < self.players.len()
            invariant
                0 <= i <= self.players.len(),
                forall|j: int| 0 <= j < i ==> !player_has_id(id)(#[trigger] self@.players[j]),
            decreases self.players.len() - i,
        {
            if self.players[i].id == id {
                proof {
                    lemma_first_index_at(self@.players, player_has_id(id), i as int);
                }
                return Some(i);
            }
            i = i + 1;
        }
        proof {
            lemma_first_index_none(self@.players, player_has_id(id));
        }
        None
    }

    pub fn find_player_by_identity(&self, room_id: u64, who: PlayerIdentity) -> (r: Option<usize>)
        ensures
            same_pos(r, player_pos_by_identity(self@, room_id, who)),
            r matches Some(i) ==> i < self.players.len(),
    {
        let mut i: usize = 0;
        while i < self.players.len()
            invariant
                0 <= i <= self.players.len(),
                forall|j: int|
                    0 <= j < i ==> !player_with_identity(room_id, who)(#[trigger] self@.players[j]),
            decreases self.players.len() - i,
        {
            if self.players[i].room_id == room_id && self.players[i].identity == who {
                proof {
                    lemma_first_index_at(self@.players, player_with_identity(room_id, who), i as int);
                }
                return Some(i);
            }
            i = i + 1;
        }
        proof {
            lemma_first_index_none(self@.players, player_with_identity(room_id, who));
        }
        None
    }

    pub fn find_player_by_seat(&self, room_id: u64, seat: u8) -> (r: Option<usize>)
        ensures
            same_pos(r, player_pos_by_seat(self@, room_id, seat)),
            r matches Some(i) ==> i < self.players.len(),
    {
        let mut i: usize = 0;
        while i < self.players.len()
            invariant
                0 <= i <= self.players.len(),
                forall|j: int|
                    0 <= j < i ==> !player_at_seat(room_id, seat)(#[trigger] self@.players[j]),
            decreases self.players.len() - i,
        {
            if self.players[i].room_id == room_id && self.players[i].seat_index == seat {
                proof {
                    lemma_first_index_at(self@.players, player_at_seat(room_id, seat), i as int);
                }
                return Some(i);
            }
            i = i + 1;
        }
        proof {
            lemma_first_index_none(self@.players, player_at_seat(room_id, seat));
        }
        None
    }

    pub fn find_hand(&self, player_id: u64) -> (r: Option<usize>)
        ensures
            same_pos(r, hand_pos(self@, player_id)),
            r matches Some(i) ==> i < self.player_hands.len(),
    {
        let mut i: usize = 0;
        while i < self.player_hands.len()
            invariant
                0 <= i <= self.player_hands.len(),
                forall|j: int|
                    0 <= j < i ==> !hand_of_player(player_id)(#[trigger] self@.hands[j]),
            decreases self.player_hands.len() - i,
        {
            if self.player_hands[i].player_id == player_id {
                proof {
                    lemma_first_index_at(self@.hands, hand_of_player(player_id), i as int);
                }
                return Some(i);
            }
            i = i + 1;
        }
        proof {
            lemma_first_index_none(self@.hands, hand_of_player(player_id));
        }
        None
    }

    pub fn find_score(&self, room_id: u64) -> (r: Option<usize>)
        ensures
            same_pos(r, score_pos(self@, room_id)),
            r matches Some(i) ==> i < self.scores.len(),
    {
        let mut i: usize = 0;
        while i < self.scores.len()
            invariant
                0 <= i <= self.scores.len(),
                forall|j: int| 0 <= j < i ==> !score_of_room(room_id)(#[trigger] self@.scores[j]),
            decreases self.scores.len() - i,
        {
            if self.scores[i].room_id == room_id {
                proof {
                    lemma_first_index_at(self@.scores, score_of_room(room_id), i as int);
                }
                return Some(i);
            }
            i = i + 1;
        }
        proof {
            lemma_first_index_none(self@.scores, score_of_room(room_id));
        }
        None
    }

    pub fn find_record(&self, id: u64) -> (r: Option<usize>)
        ensures
            same_pos(r, record_pos(self@, id)),
            r matches Some(i) ==> i < self.hand_records.len(),
    {
        let mut i: usize = 0;
        while i < self.hand_records.len()
            invariant
                0 <= i <= self.hand_records.len(),
                forall|j: int| 0 <= j < i ==> !record_has_id(id)(#[trigger] self@.records[j]),
            decreases self.hand_records.len() - i,
        {
            if self.hand_records[i].id == id {
                proof {
                    lemma_first_index_at(self@.records, record_has_id(id), i as int);
                }
                return Some(i);
            }
            i = i + 1;
        }
        proof {
            lemma_first_index_none(self@.records, record_has_id(id));
        }
        None
    }

    /// Find the most recent hand record of the given hand number in a room.
    pub fn find_current_hand_record(&self, room_id: u64, hand_number: u8) -> (r: Option<usize>)
        ensures
            same_pos(r, latest_record(self@.records, room_id, hand_number)),
            r matches Some(i) ==> i < self.hand_records.len(),
    {
        let mut best: Option<usize> = None;
        let mut i: usize = 0;
        while i < self.hand_records.len()
            invariant
                0 <= i <= self.hand_records.len(),
                same_pos(best, latest_record(self@.records.take(i as int), room_id, hand_number)),
                best matches Some(b) ==> b < i,
            decreases self.hand_records.len() - i,
        {
            let ghost s = self@.records.take(i + 1);
            assert(s.drop_last() =~= self@.records.take(i as int));
            proof {
                lemma_latest_record(self@.records.take(i as int), room_id, hand_number);
            }
            let h = &self.hand_records[i];
            if h.room_id == room_id && h.hand_number == hand_number {
                match best {
                    None => {
                        best = Some(i);
                    },
                    Some(b) => {
                        assert(s[b as int] == self@.records[b as int]);
                        if h.id >= self.hand_records[b].id {
                            best = Some(i);
                        }
                    },
                }
            }
            i = i + 1;
        }
        assert(self@.records.take(self.hand_records.len() as int) =~= self@.records);
        best
    }

    /// Ids of the room's players ordered by seat (a stable sort by seat).
    pub fn seating_order(&self, room_id: u64) -> (ids: Vec<u64>)
        ensures
            ids@ == seating(self@, room_id),
    {
        let mut ids: Vec<u64> = Vec::new();
        let mut seat: u16 = 0;
        while seat < 256
            invariant
                seat <= 256,
                ids@ == seating_below(self@.players, room_id, seat as int),
            decreases 256 - seat,
        {
            let ghost before = ids@;
            let mut i: usize = 0;
            while i < self.players.len()
                invariant
                    0 <= i <= self.players.len(),
                    seat < 256,
                    ids@ == before + ids_at_seat(self@.players.take(i as int), room_id, seat as int),
                decreases self.players.len() - i,
            {
                let ghost t = self@.players.take(i + 1);
                assert(t.drop_last() =~= self@.players.take(i as int));
                if self.players[i].room_id == room_id && self.players[i].seat_index as u16 == seat {
                    ids.push(self.players[i].id);
                    assert(ids@ =~= before + ids_at_seat(t, room_id, seat as int));
                }
                i = i + 1;
            }
            assert(self@.players.take(self.players.len() as int) =~= self@.players);
            seat = seat + 1;
        }
        ids
    }

    /// Number of players seated in a room.
    pub fn count_room_players(&self, room_id: u64) -> (n: usize)
        ensures
            n == room_players(self@.players, room_id).len(),
    {
        let mut n: usize = 0;
        let mut i: usize = 0;
        while i < self.players.len()
            invariant
                0 <= i <= self.players.len(),
                n == room_players(self@.players.take(i as int), room_id).len(),
                n <= i,
            decreases self.players.len() - i,
        {
            assert(self@.players.take(i + 1).drop_last() =~= self@.players.take(i as int));
            if self.players[i].room_id == room_id {
                n = n + 1;
            }
            i = i + 1;
        }
        assert(self@.players.take(self.players.len() as int) =~= self@.players);
        n
    }

    /// Does some player of the room have the given identity?
    pub fn identity_in_room(&self, room_id: u64, who: PlayerIdentity) -> (b: bool)
        ensures
            b == player_pos_by_identity(self@, room_id, who) is Some,
    {
        self.find_player_by_identity(room_id, who).is_some()
    }
}

} // verus!
