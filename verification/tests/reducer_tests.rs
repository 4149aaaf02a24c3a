use omi_game::game_logic::{calculate_round_score, is_valid_play};
use omi_game::reducers::{
    client_disconnected, create_room, create_single_player_game, dealer_click_deal,
    join_room_by_code, join_room_by_link, play_card, run_bot_decision, select_trump,
};
use omi_game::tables::{GameDb, GameError, PlayerIdentity};
use omi_game::types::{Card, GameStatus, Rank, RoomMode, Suit};

fn who(n: u128) -> PlayerIdentity {
    PlayerIdentity { hi: 0, lo: n }
}

fn room_code(db: &GameDb, room_id: u64) -> String {
    db.rooms.iter().find(|r| r.id == room_id).unwrap().room_code.clone()
}

fn room_of(db: &GameDb, room_id: u64) -> &omi_game::tables::Room {
    db.rooms.iter().find(|r| r.id == room_id).unwrap()
}

fn hand_of(db: &GameDb, player_id: u64) -> Vec<Card> {
    db.player_hands.iter().find(|h| h.player_id == player_id).unwrap().cards.clone()
}

fn player_at(db: &GameDb, room_id: u64, seat: u8) -> &omi_game::tables::Player {
    db.players.iter().find(|p| p.room_id == room_id && p.seat_index == seat).unwrap()
}

/// A full four-person room, ready to deal; returns the room id.
fn full_room(db: &mut GameDb) -> u64 {
    create_room(db, who(1), "ann".to_string(), 1234567).unwrap();
    let room_id = db.rooms.last().unwrap().id;
    let code = room_code(db, room_id);
    join_room_by_code(db, who(2), code.clone(), "bob".to_string()).unwrap();
    join_room_by_code(db, who(3), code.clone(), "cat".to_string()).unwrap();
    join_room_by_link(db, who(4), code, "dan".to_string()).unwrap();
    room_id
}

fn db_summary(db: &GameDb) -> String {
    let mut s = String::new();
    for p in &db.players {
        s += &format!("P{} {} {:?} {} {} {} {} {};", p.id, p.username, p.identity, p.room_id, p.team, p.seat_index, p.is_bot, p.is_connected);
    }
    for r in &db.rooms {
        s += &format!("R{} {} {:?} {:?} {} {} {} {:?} {} {} {:?};", r.id, r.room_code, r.status, r.mode, r.dealer_index, r.trump_selector_index, r.current_turn_index, r.trump_suit, r.previous_round_tied, r.hand_number, r.deck);
    }
    for h in &db.player_hands {
        s += &format!("H{} {:?};", h.player_id, h.cards);
    }
    for h in &db.hand_records {
        s += &format!("T{} {} {} {:?} {:?} {:?};", h.id, h.room_id, h.hand_number, h.plays, h.winner_id, h.leading_suit);
    }
    for x in &db.scores {
        s += &format!("S{:?};", x);
    }
    s += &format!("{} {} {}", db.next_player_id, db.next_room_id, db.next_hand_record_id);
    s
}

#[test]
fn create_room_seats_the_creator() {
    let mut db = GameDb::new();
    create_room(&mut db, who(1), "ann".to_string(), 1234567).unwrap();
    assert_eq!(db.rooms.len(), 1);
    let room = &db.rooms[0];
    assert_eq!(room.id, 1);
    assert_eq!(room.room_code, "234567");
    assert_eq!(room.status, GameStatus::WaitingForPlayers);
    assert_eq!(room.mode, RoomMode::Multiplayer);
    assert_eq!(room.dealer_index, 0);
    assert_eq!(room.trump_selector_index, 1);
    assert_eq!(db.players.len(), 1);
    let p = &db.players[0];
    assert_eq!(p.username, "ann");
    assert_eq!(p.team, "A");
    assert_eq!(p.seat_index, 0);
    assert!(!p.is_bot && p.is_connected);
    assert_eq!(db.scores.len(), 1);
    assert_eq!(db.scores[0].room_id, 1);
    assert_eq!(db.scores[0].team_a_points, 0);
}

#[test]
fn room_code_is_zero_padded() {
    let mut db = GameDb::new();
    create_room(&mut db, who(1), "ann".to_string(), 42).unwrap();
    assert_eq!(db.rooms[0].room_code, "000042");
}

#[test]
fn blank_username_is_refused_and_nothing_changes() {
    let mut db = GameDb::new();
    let before = db_summary(&db);
    assert_eq!(create_room(&mut db, who(1), "  \t".to_string(), 5), Err(GameError::UsernameEmpty));
    assert_eq!(create_single_player_game(&mut db, who(1), "".to_string(), 5), Err(GameError::UsernameEmpty));
    assert_eq!(db_summary(&db), before);
    assert_eq!(GameError::UsernameEmpty.message(), "Username cannot be empty");
}

#[test]
fn joining_fills_seats_and_teams() {
    let mut db = GameDb::new();
    let room_id = full_room(&mut db);
    assert_eq!(room_of(&db, room_id).status, GameStatus::WaitingForDeal);
    for seat in 0..4u8 {
        let p = player_at(&db, room_id, seat);
        assert_eq!(p.team, if seat % 2 == 0 { "A" } else { "B" });
    }
    assert_eq!(player_at(&db, room_id, 3).username, "dan");
}

#[test]
fn join_errors() {
    let mut db = GameDb::new();
    create_room(&mut db, who(1), "ann".to_string(), 1).unwrap();
    let code = room_code(&db, 1);
    assert_eq!(join_room_by_code(&mut db, who(2), "999999".to_string(), "bob".to_string()), Err(GameError::RoomNotFound));
    assert_eq!(join_room_by_code(&mut db, who(1), code.clone(), "ann2".to_string()), Err(GameError::AlreadyInRoom));
    assert_eq!(join_room_by_code(&mut db, who(2), code.clone(), " ".to_string()), Err(GameError::UsernameEmpty));
    join_room_by_code(&mut db, who(2), code.clone(), "bob".to_string()).unwrap();
    join_room_by_code(&mut db, who(3), code.clone(), "cat".to_string()).unwrap();
    join_room_by_code(&mut db, who(4), code.clone(), "dan".to_string()).unwrap();
    let before = db_summary(&db);
    assert_eq!(join_room_by_code(&mut db, who(5), code.clone(), "eve".to_string()), Err(GameError::GameAlreadyStarted));
    assert_eq!(db_summary(&db), before);
    assert_eq!(GameError::RoomFull.message(), "Room is full");
}

#[test]
fn a_full_room_still_waiting_refuses_a_fifth_player() {
    let mut db = GameDb::new();
    create_room(&mut db, who(1), "ann".to_string(), 1).unwrap();
    for k in 2..5u128 {
        let p = omi_game::tables::Player {
            id: 100 + k as u64,
            username: "x".to_string(),
            identity: who(k),
            room_id: 1,
            team: "A".to_string(),
            seat_index: k as u8 - 1,
            is_bot: false,
            is_connected: true,
        };
        db.players.push(p);
    }
    assert_eq!(join_room_by_code(&mut db, who(9), "000001".to_string(), "eve".to_string()), Err(GameError::RoomFull));
}

#[test]
fn single_player_game_has_three_bots() {
    let mut db = GameDb::new();
    create_single_player_game(&mut db, who(1), "ann".to_string(), 7).unwrap();
    assert_eq!(db.rooms[0].status, GameStatus::WaitingForDeal);
    assert_eq!(db.rooms[0].mode, RoomMode::SinglePlayer);
    assert_eq!(db.players.len(), 4);
    assert_eq!(db.players[0].username, "ann");
    assert!(!db.players[0].is_bot);
    for k in 1..4usize {
        assert_eq!(db.players[k].username, format!("Bot {}", k));
        assert!(db.players[k].is_bot);
        assert_eq!(db.players[k].seat_index as usize, k);
        assert_eq!(db.players[k].identity, who(1));
    }
    assert_eq!(db.players[1].team, "B");
    assert_eq!(db.players[2].team, "A");
    assert_eq!(db.scores.len(), 1);
}

#[test]
fn deal_errors() {
    let mut db = GameDb::new();
    create_room(&mut db, who(1), "ann".to_string(), 1).unwrap();
    assert_eq!(dealer_click_deal(&mut db, who(1), 99, 5), Err(GameError::RoomNotFound));
    assert_eq!(dealer_click_deal(&mut db, who(1), 1, 5), Err(GameError::NotDealingPhase));
    let code = room_code(&db, 1);
    for k in 2..5u128 {
        join_room_by_code(&mut db, who(k), code.clone(), format!("p{}", k)).unwrap();
    }
    assert_eq!(dealer_click_deal(&mut db, who(9), 1, 5), Err(GameError::NotInRoom));
    let before = db_summary(&db);
    assert_eq!(dealer_click_deal(&mut db, who(2), 1, 5), Err(GameError::NotDealer));
    assert_eq!(db_summary(&db), before);
}

#[test]
fn dealer_deals_four_cards_each() {
    let mut db = GameDb::new();
    let room_id = full_room(&mut db);
    dealer_click_deal(&mut db, who(1), room_id, 11).unwrap();
    let room = room_of(&db, room_id);
    assert_eq!(room.status, GameStatus::WaitingForTrump);
    assert_eq!(room.trump_selector_index, 1);
    assert_eq!(room.current_turn_index, 1);
    assert_eq!(room.hand_number, 1);
    assert_eq!(room.deck.len(), 16);
    let mut all: Vec<Card> = room.deck.clone();
    for seat in 0..4u8 {
        let h = hand_of(&db, player_at(&db, room_id, seat).id);
        assert_eq!(h.len(), 4);
        all.extend(h);
    }
    let mut keys: Vec<String> = all.iter().map(|c| format!("{:?}", c)).collect();
    keys.sort();
    keys.dedup();
    assert_eq!(keys.len(), 32);
}

#[test]
fn trump_selection_deals_the_rest_and_starts_play() {
    let mut db = GameDb::new();
    let room_id = full_room(&mut db);
    dealer_click_deal(&mut db, who(1), room_id, 11).unwrap();
    assert_eq!(select_trump(&mut db, who(1), room_id, Suit::Clubs, 3), Err(GameError::NotTrumpSelector));
    assert_eq!(select_trump(&mut db, who(9), room_id, Suit::Clubs, 3), Err(GameError::NotInRoom));
    assert_eq!(play_card(&mut db, who(2), room_id, Card { suit: Suit::Clubs, rank: Rank::Ace }, 3), Err(GameError::NotPlayingPhase));
    select_trump(&mut db, who(2), room_id, Suit::Clubs, 3).unwrap();
    let room = room_of(&db, room_id);
    assert_eq!(room.status, GameStatus::Playing);
    assert_eq!(room.trump_suit, Some(Suit::Clubs));
    assert_eq!(room.current_turn_index, 1);
    assert!(room.deck.is_empty());
    for seat in 0..4u8 {
        assert_eq!(hand_of(&db, player_at(&db, room_id, seat).id).len(), 8);
    }
    assert_eq!(db.hand_records.len(), 1);
    assert_eq!(db.hand_records[0].hand_number, 1);
    assert_eq!(select_trump(&mut db, who(2), room_id, Suit::Clubs, 3), Err(GameError::NotTrumpPhase));
}

/// A legal card for the seat, preferring the leading suit's first card.
fn some_legal_card(db: &GameDb, room_id: u64, seat: u8) -> Card {
    let p = player_at(db, room_id, seat);
    let hand = hand_of(db, p.id);
    let room = room_of(db, room_id);
    let rec = db
        .hand_records
        .iter()
        .filter(|h| h.room_id == room_id && h.hand_number == room.hand_number)
        .max_by_key(|h| h.id)
        .unwrap();
    let lead = rec.plays.first().map(|pl| pl.card.suit);
    *hand.iter().find(|c| is_valid_play(**c, &hand, lead)).unwrap()
}

#[test]
fn a_hand_of_four_plays_is_decided() {
    let mut db = GameDb::new();
    let room_id = full_room(&mut db);
    dealer_click_deal(&mut db, who(1), room_id, 11).unwrap();
    select_trump(&mut db, who(2), room_id, Suit::Hearts, 3).unwrap();
    // Seat 1 leads; a card of another seat is refused.
    let wrong = some_legal_card(&db, room_id, 2);
    assert_eq!(play_card(&mut db, who(3), room_id, wrong, 3), Err(GameError::NotYourTurn));
    for k in 0..4u8 {
        let seat = (1 + k) % 4;
        let card = some_legal_card(&db, room_id, seat);
        let before = hand_of(&db, player_at(&db, room_id, seat).id).len();
        play_card(&mut db, who(seat as u128 + 1), room_id, card, 3).unwrap();
        assert_eq!(hand_of(&db, player_at(&db, room_id, seat).id).len(), before - 1);
    }
    let first = db.hand_records.iter().find(|h| h.hand_number == 1).unwrap();
    assert_eq!(first.plays.len(), 4);
    let winner = first.winner_id.unwrap();
    let w = db.players.iter().find(|p| p.id == winner).unwrap();
    let room = room_of(&db, room_id);
    assert_eq!(room.hand_number, 2);
    assert_eq!(room.current_turn_index, w.seat_index);
    let score = db.scores.iter().find(|s| s.room_id == room_id).unwrap();
    assert_eq!(score.team_a_hands + score.team_b_hands, 1);
}

#[test]
fn a_card_off_the_leading_suit_is_refused() {
    let mut db = GameDb::new();
    let room_id = full_room(&mut db);
    dealer_click_deal(&mut db, who(1), room_id, 11).unwrap();
    select_trump(&mut db, who(2), room_id, Suit::Hearts, 3).unwrap();
    let lead = some_legal_card(&db, room_id, 1);
    play_card(&mut db, who(2), room_id, lead, 3).unwrap();
    let p2 = player_at(&db, room_id, 2).id;
    let hand = hand_of(&db, p2);
    if let Some(bad) = hand.iter().find(|c| c.suit != lead.suit) {
        if hand.iter().any(|c| c.suit == lead.suit) {
            let before = db_summary(&db);
            assert_eq!(play_card(&mut db, who(3), room_id, *bad, 3), Err(GameError::MustFollowSuit));
            assert_eq!(db_summary(&db), before);
        }
    }
    let missing = [Suit::Hearts, Suit::Diamonds, Suit::Clubs, Suit::Spades]
        .iter()
        .flat_map(|s| [Rank::Ace, Rank::King, Rank::Seven].map(|r| Card { suit: *s, rank: r }))
        .find(|c| !hand.contains(c))
        .unwrap();
    assert_eq!(play_card(&mut db, who(3), room_id, missing, 3), Err(GameError::MustFollowSuit));
}

#[test]
fn single_player_game_runs_to_the_end() {
    let mut db = GameDb::new();
    create_single_player_game(&mut db, who(1), "ann".to_string(), 77).unwrap();
    let room_id = db.rooms[0].id;
    dealer_click_deal(&mut db, who(1), room_id, 1000).unwrap();
    let mut moves = 0u64;
    loop {
        let room = room_of(&db, room_id);
        if room.status == GameStatus::GameOver {
            break;
        }
        moves += 1;
        assert!(moves < 5000);
        let seed = 1000 + moves;
        match room.status {
            GameStatus::WaitingForDeal => dealer_click_deal(&mut db, who(1), room_id, seed).unwrap(),
            GameStatus::WaitingForTrump => {
                assert_eq!(room.trump_selector_index, 0);
                select_trump(&mut db, who(1), room_id, Suit::Spades, seed).unwrap()
            }
            GameStatus::Playing => {
                assert_eq!(room.current_turn_index, 0);
                let card = some_legal_card(&db, room_id, 0);
                play_card(&mut db, who(1), room_id, card, seed).unwrap()
            }
            other => panic!("unexpected status {:?}", other),
        }
    }
    let score = db.scores.iter().find(|s| s.room_id == room_id).unwrap();
    assert!(score.team_a_points >= 10 || score.team_b_points >= 10);
    assert!(score.team_a_points < 13 && score.team_b_points < 13);
}

#[test]
fn run_bot_decision_does_nothing_on_a_human_turn() {
    let mut db = GameDb::new();
    let room_id = full_room(&mut db);
    let before = db_summary(&db);
    run_bot_decision(&mut db, room_id, 1).unwrap();
    assert_eq!(db_summary(&db), before);
    assert_eq!(run_bot_decision(&mut db, 77, 1), Err(GameError::RoomNotFound));
}

#[test]
fn disconnect_marks_only_the_clients_people() {
    let mut db = GameDb::new();
    create_single_player_game(&mut db, who(1), "ann".to_string(), 7).unwrap();
    create_room(&mut db, who(2), "bob".to_string(), 8).unwrap();
    client_disconnected(&mut db, who(1));
    assert!(!db.players[0].is_connected);
    for k in 1..4 {
        assert!(db.players[k].is_connected);
    }
    assert!(db.players[4].is_connected);
}

#[test]
fn error_messages_match_the_server_texts() {
    assert_eq!(GameError::RoomNotFound.message(), "Room not found");
    assert_eq!(GameError::NotYourTurn.message(), "It's not your turn");
    assert_eq!(GameError::MustFollowSuit.message(), "You must follow the leading suit");
    assert_eq!(GameError::NotDealer.message(), "Only the dealer can deal");
    assert_eq!(GameError::NotTrumpSelector.message(), "You are not the trump selector");
}

#[test]
fn a_full_round_is_scored_and_the_deal_passes_on() {
    let mut db = GameDb::new();
    let room_id = full_room(&mut db);
    dealer_click_deal(&mut db, who(1), room_id, 21).unwrap();
    select_trump(&mut db, who(2), room_id, Suit::Diamonds, 22).unwrap();
    for _ in 0..32 {
        let seat = room_of(&db, room_id).current_turn_index;
        let card = some_legal_card(&db, room_id, seat);
        play_card(&mut db, who(seat as u128 + 1), room_id, card, 23).unwrap();
    }
    for seat in 0..4u8 {
        assert!(hand_of(&db, player_at(&db, room_id, seat).id).is_empty());
    }
    let score = db.scores.iter().find(|s| s.room_id == room_id).unwrap();
    assert_eq!(score.team_a_hands + score.team_b_hands, 8);
    // Seat 1 (team B) chose trump; no earlier round was tied.
    let expected = calculate_round_score(score.team_a_hands, score.team_b_hands, false, false);
    assert_eq!(score.team_a_points, expected.team_a_round_points);
    assert_eq!(score.team_b_points, expected.team_b_round_points);
    let room = room_of(&db, room_id);
    assert_eq!(room.status, GameStatus::WaitingForDeal);
    assert_eq!(room.dealer_index, 1);
    assert_eq!(room.trump_selector_index, 2);
    assert_eq!(room.current_turn_index, 1);
    assert_eq!(room.hand_number, 0);
    assert_eq!(room.trump_suit, None);
    assert_eq!(room.previous_round_tied, expected.is_tie);
    // Only the new dealer may deal the next round.
    assert_eq!(dealer_click_deal(&mut db, who(1), room_id, 24), Err(GameError::NotDealer));
    dealer_click_deal(&mut db, who(2), room_id, 24).unwrap();
    assert_eq!(room_of(&db, room_id).current_turn_index, 2);
}

#[test]
fn a_step_refused_before_writing_changes_nothing() {
    let mut db = GameDb::new();
    let room_id = full_room(&mut db);
    dealer_click_deal(&mut db, who(1), room_id, 11).unwrap();
    select_trump(&mut db, who(2), room_id, Suit::Hearts, 3).unwrap();
    let pid = player_at(&db, room_id, 1).id;
    let hand = hand_of(&db, pid);
    let missing = [Suit::Hearts, Suit::Diamonds, Suit::Clubs, Suit::Spades]
        .iter()
        .flat_map(|s| [Rank::Ace, Rank::King, Rank::Seven].map(|r| Card { suit: *s, rank: r }))
        .find(|c| !hand.contains(c))
        .unwrap();
    let before = db_summary(&db);
    assert_eq!(omi_game::steps::do_play_card(&mut db, room_id, pid, missing), Err(GameError::MustFollowSuit));
    assert_eq!(omi_game::steps::do_play_card(&mut db, 999, pid, missing), Err(GameError::RoomNotFound));
    assert_eq!(omi_game::steps::do_end_round(&mut db, 999), Err(GameError::RoomNotFound));
    assert_eq!(db_summary(&db), before);
}

#[test]
fn dealing_a_chosen_deck_gives_four_cards_each_in_seat_order() {
    let mut db = GameDb::new();
    let room_id = full_room(&mut db);
    let pos = db.rooms.iter().position(|r| r.id == room_id).unwrap();
    let deck = omi_game::deck::generate_deck();
    let next = omi_game::steps::deal_from(&mut db, pos, room_id, deck.clone());
    assert_eq!(next, Ok(omi_game::steps::NextStep::Done));
    for seat in 0..4u8 {
        let start = 4 * seat as usize;
        assert_eq!(hand_of(&db, player_at(&db, room_id, seat).id), deck[start..start + 4].to_vec());
    }
    let room = room_of(&db, room_id);
    assert_eq!(room.deck, deck[16..].to_vec());
    assert_eq!(room.status, GameStatus::WaitingForTrump);
    assert_eq!(room.trump_selector_index, 1);
}
