use vstd::prelude::*;
use crate::types::Card;
use crate::tables::{
    DbView, GameDb, GameError, HandRecord, HandView, Player, PlayerHand, PlayerView, RecordView,
    Room, RoomView, Score, hands_view, players_view, records_view, rooms_view,
};
use crate::queries::{
    first_index, hand_of_player, hand_pos, lemma_first_index, player_pos, record_pos, room_pos,
    score_pos,
};

verus! {

// ── Updating rows in place ─────────────────────────────────────────────

pub open spec fn with_room(v: DbView, pos: int, r: RoomView) -> DbView {
    DbView { rooms: v.rooms.update(pos, r), ..v }
}

pub open spec fn with_score(v: DbView, pos: int, s: Score) -> DbView {
    DbView { scores: v.scores.update(pos, s), ..v }
}

pub open spec fn with_player(v: DbView, pos: int, p: PlayerView) -> DbView {
    DbView { players: v.players.update(pos, p), ..v }
}

// ── Inserting and deleting rows ────────────────────────────────────────

/// Insert a room; its id comes from the room sequence. Fails when the
/// sequence is exhausted or the id is already taken.
pub open spec fn insert_room(v: DbView, r: RoomView) -> Result<DbView, GameError> {
    let id = v.next_room_id;
    if id == u64::MAX {
        Err(GameError::IdSequenceExhausted)
    } else if room_pos(v, id) is Some {
        Err(GameError::DuplicateKey)
    } else {
        Ok(DbView { rooms: v.rooms.push(RoomView { id, ..r }), next_room_id: (id + 1) as u64, ..v })
    }
}

/// Insert a player; its id comes from the player sequence.
pub open spec fn insert_player(v: DbView, p: PlayerView) -> Result<DbView, GameError> {
    let id = v.next_player_id;
    if id == u64::MAX {
        Err(GameError::IdSequenceExhausted)
    } else if player_pos(v, id) is Some {
        Err(GameError::DuplicateKey)
    } else {
        Ok(
            DbView {
                players: v.players.push(PlayerView { id, ..p }),
                next_player_id: (id + 1) as u64,
                ..v
            },
        )
    }
}

/// Insert a hand record; its id comes from the record sequence.
pub open spec fn insert_record(v: DbView, r: RecordView) -> Result<DbView, GameError> {
    let id = v.next_record_id;
    if id == u64::MAX {
        Err(GameError::IdSequenceExhausted)
    } else if record_pos(v, id) is Some {
        Err(GameError::DuplicateKey)
    } else {
        Ok(
            DbView {
                records: v.records.push(RecordView { id, ..r }),
                next_record_id: (id + 1) as u64,
                ..v
            },
        )
    }
}

/// Insert a score row (keyed by room id).
pub open spec fn insert_score(v: DbView, s: Score) -> Result<DbView, GameError> {
    if score_pos(v, s.room_id) is Some {
        Err(GameError::DuplicateKey)
    } else {
        Ok(DbView { scores: v.scores.push(s), ..v })
    }
}

/// Delete the player's hand row if there is one, then insert the given hand.
pub open spec fn put_hand(v: DbView, player_id: u64, cards: Seq<Card>) -> Result<DbView, GameError> {
    let h = HandView { player_id, cards };
    let v1 = match hand_pos(v, player_id) {
        Some(i) => DbView { hands: v.hands.remove(i), ..v },
        None => v,
    };
    if hand_pos(v1, player_id) is Some {
        Err(GameError::DuplicateKey)
    } else {
        Ok(DbView { hands: v1.hands.push(h), ..v1 })
    }
}

/// Delete the record with the record's id if there is one, then insert the record.
pub open spec fn put_record(v: DbView, r: RecordView) -> Result<DbView, GameError> {
    let v1 = match record_pos(v, r.id) {
        Some(i) => DbView { records: v.records.remove(i), ..v },
        None => v,
    };
    if record_pos(v1, r.id) is Some {
        Err(GameError::DuplicateKey)
    } else {
        Ok(DbView { records: v1.records.push(r), ..v1 })
    }
}

/// The records that do not belong to the room, in table order.
pub open spec fn records_not_of_room(s: Seq<RecordView>, room_id: u64) -> Seq<RecordView>
    decreases s.len(),
{
    if s.len() == 0 {
        Seq::empty()
    } else {
        let prev = records_not_of_room(s.drop_last(), room_id);
        if s.last().room_id != room_id {
            prev.push(s.last())
        } else {
            prev
        }
    }
}

/// Delete every hand record of the room.
pub open spec fn purge_records(v: DbView, room_id: u64) -> DbView {
    DbView { records: records_not_of_room(v.records, room_id), ..v }
}

impl GameDb {
    pub fn set_room(&mut self, pos: usize, r: Room)
        requires
            pos < old(self).rooms.len(),
        ensures
            final(self).rooms.len() == old(self).rooms.len(),
            final(self)@ == with_room(old(self)@, pos as int, r@),
    {
        let ghost rv = r@;
        self.rooms.set(pos, r);
        assert(rooms_view(self.rooms@) =~= rooms_view(old(self).rooms@).update(pos as int, rv));
    }

    pub fn set_score(&mut self, pos: usize, s: Score)
        requires
            pos < old(self).scores.len(),
        ensures
            final(self).rooms.len() == old(self).rooms.len(),
            final(self)@ == with_score(old(self)@, pos as int, s),
    {
        self.scores.set(pos, s);
    }

    pub fn set_player(&mut self, pos: usize, p: Player)
        requires
            pos < old(self).players.len(),
        ensures
            final(self).players.len() == old(self).players.len(),
            final(self).rooms.len() == old(self).rooms.len(),
            final(self)@ == with_player(old(self)@, pos as int, p@),
    {
        let ghost pv = p@;
        self.players.set(pos, p);
        assert(players_view(self.players@) =~= players_view(old(self).players@).update(
            pos as int,
            pv,
        ));
    }

    /// Insert a room with a fresh id from the room sequence; returns the id.
    pub fn insert_room(&mut self, r: Room) -> (res: Result<u64, GameError>)
        ensures
            match insert_room(old(self)@, r@) {
                Ok(v) => res == Ok::<u64, GameError>(old(self)@.next_room_id) && final(self)@ == v,
                Err(e) => res == Err::<u64, GameError>(e),
            },
    {
        let id = self.next_room_id;
        if id == u64::MAX {
            return Err(GameError::IdSequenceExhausted);
        }
        if self.find_room(id).is_some() {
            return Err(GameError::DuplicateKey);
        }
        let mut r = r;
        r.id = id;
        let ghost rv = r@;
        self.rooms.push(r);
        self.next_room_id = id + 1;
        assert(rooms_view(self.rooms@) =~= rooms_view(old(self).rooms@).push(rv));
        Ok(id)
    }

    /// Insert a player with a fresh id from the player sequence; returns the id.
    pub fn insert_player(&mut self, p: Player) -> (res: Result<u64, GameError>)
        ensures
            final(self).rooms.len() == old(self).rooms.len(),
            match insert_player(old(self)@, p@) {
                Ok(v) => res == Ok::<u64, GameError>(old(self)@.next_player_id) && final(self)@ == v,
                Err(e) => res == Err::<u64, GameError>(e),
            },
    {
        let id = self.next_player_id;
        if id == u64::MAX {
            return Err(GameError::IdSequenceExhausted);
        }
        if self.find_player(id).is_some() {
            return Err(GameError::DuplicateKey);
        }
        let mut p = p;
        p.id = id;
        let ghost pv = p@;
        self.players.push(p);
        self.next_player_id = id + 1;
        assert(players_view(self.players@) =~= players_view(old(self).players@).push(pv));
        Ok(id)
    }

    /// Insert a hand record with a fresh id from the record sequence.
    pub fn insert_record(&mut self, r: HandRecord) -> (res: Result<(), GameError>)
        ensures
            final(self).rooms.len() == old(self).rooms.len(),
            match insert_record(old(self)@, r@) {
                Ok(v) => res is Ok && final(self)@ == v,
                Err(e) => res == Err::<(), GameError>(e),
            },
    {
        let id = self.next_hand_record_id;
        if id == u64::MAX {
            return Err(GameError::IdSequenceExhausted);
        }
        if self.find_record(id).is_some() {
            return Err(GameError::DuplicateKey);
        }
        let mut r = r;
        r.id = id;
        let ghost rv = r@;
        self.hand_records.push(r);
        self.next_hand_record_id = id + 1;
        assert(records_view(self.hand_records@) =~= records_view(old(self).hand_records@).push(rv));
        Ok(())
    }

    /// Insert a score row.
    pub fn insert_score(&mut self, s: Score) -> (res: Result<(), GameError>)
        ensures
            final(self).rooms.len() == old(self).rooms.len(),
            match insert_score(old(self)@, s) {
                Ok(v) => res is Ok && final(self)@ == v,
                Err(e) => res == Err::<(), GameError>(e),
            },
    {
        if self.find_score(s.room_id).is_some() {
            return Err(GameError::DuplicateKey);
        }
        self.scores.push(s);
        Ok(())
    }

    /// Replace (or create) the player's hand.
    pub fn put_hand(&mut self, player_id: u64, cards: Vec<Card>) -> (res: Result<(), GameError>)
        ensures
            final(self).rooms.len() == old(self).rooms.len(),
            match put_hand(old(self)@, player_id, cards@) {
                Ok(v) => res is Ok && final(self)@ == v,
                Err(e) => res == Err::<(), GameError>(e),
            },
    {
        if let Some(i) = self.find_hand(player_id) {
            let ghost before = self.player_hands@;
            self.player_hands.remove(i);
            assert(hands_view(self.player_hands@) =~= hands_view(before).remove(i as int));
        }
        if self.find_hand(player_id).is_some() {
            return Err(GameError::DuplicateKey);
        }
        let h = PlayerHand { player_id, cards };
        let ghost hv = h@;
        let ghost before = self.player_hands@;
        self.player_hands.push(h);
        assert(hands_view(self.player_hands@) =~= hands_view(before).push(hv));
        Ok(())
    }

    /// Replace (or create) a hand record, keeping its id.
    pub fn put_record(&mut self, r: HandRecord) -> (res: Result<(), GameError>)
        ensures
            final(self).rooms.len() == old(self).rooms.len(),
            match put_record(old(self)@, r@) {
                Ok(v) => res is Ok && final(self)@ == v,
                Err(e) => res == Err::<(), GameError>(e),
            },
    {
        if let Some(i) = self.find_record(r.id) {
            let ghost before = self.hand_records@;
            self.hand_records.remove(i);
            assert(records_view(self.hand_records@) =~= records_view(before).remove(i as int));
        }
        if self.find_record(r.id).is_some() {
            return Err(GameError::DuplicateKey);
        }
        let ghost rv = r@;
        let ghost before = self.hand_records@;
        self.hand_records.push(r);
        assert(records_view(self.hand_records@) =~= records_view(before).push(rv));
        Ok(())
    }

    /// Delete every hand record of the room.
    pub fn purge_records(&mut self, room_id: u64)
        ensures
            final(self).rooms.len() == old(self).rooms.len(),
            final(self)@ == purge_records(old(self)@, room_id),
    {
        let mut kept: Vec<HandRecord> = Vec::new();
        let mut old_records: Vec<HandRecord> = Vec::new();
        std::mem::swap(&mut old_records, &mut self.hand_records);
        let ghost s = records_view(old_records@);
        assert(s == old(self)@.records);
        let mut i: usize = 0;
        while i < old_records.len()
            invariant
                0 <= i <= old_records.len(),
                s == records_view(old_records@),
                records_view(kept@) == records_not_of_room(s.take(i as int), room_id),
            decreases old_records.len() - i,
        {
            assert(s.take(i + 1).drop_last() =~= s.take(i as int));
            if old_records[i].room_id != room_id {
                let r = old_records[i].duplicate();
                let ghost before = kept@;
                kept.push(r);
                assert(records_view(kept@) =~= records_view(before).push(s[i as int]));
            }
            i = i + 1;
        }
        assert(s.take(old_records.len() as int) =~= s);
        self.hand_records = kept;
    }
}

} // verus!
