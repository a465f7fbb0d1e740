use yggdrasil::poker::lobby::{LobbyError, PokerLobby, SeatOccupant, BOT_USER_ID, SEATS_PER_LOBBY};

const NOW: i64 = 1_780_000_000_000;

#[test]
fn empty_lobby_has_six_empty_seats_and_no_bot() {
    let l = PokerLobby::new("t1", "Mesa Carvalho");
    assert_eq!(l.seats.len(), SEATS_PER_LOBBY);
    assert_eq!(l.human_count(), 0);
    assert_eq!(l.bot_count(), 0);
}

#[test]
fn one_human_seats_spawns_one_bot() {
    let mut l = PokerLobby::new("t1", "Mesa Carvalho");
    l.sit(2, "user-a", NOW).unwrap();
    assert_eq!(l.human_count(), 1);
    assert_eq!(l.bot_count(), 1);
}

#[test]
fn second_human_removes_bot() {
    let mut l = PokerLobby::new("t1", "Mesa Carvalho");
    l.sit(0, "user-a", NOW).unwrap();
    l.sit(3, "user-b", NOW).unwrap();
    assert_eq!(l.human_count(), 2);
    assert_eq!(l.bot_count(), 0);
}

#[test]
fn standing_back_to_one_human_respawns_bot() {
    let mut l = PokerLobby::new("t1", "Mesa Carvalho");
    l.sit(0, "user-a", NOW).unwrap();
    l.sit(3, "user-b", NOW).unwrap();
    assert_eq!(l.bot_count(), 0);
    l.stand("user-b").unwrap();
    assert_eq!(l.human_count(), 1);
    assert_eq!(l.bot_count(), 1);
}

#[test]
fn last_human_leaving_clears_bot() {
    let mut l = PokerLobby::new("t1", "Mesa Carvalho");
    l.sit(0, "user-a", NOW).unwrap();
    l.stand("user-a").unwrap();
    assert_eq!(l.human_count(), 0);
    assert_eq!(l.bot_count(), 0);
}

#[test]
fn cannot_sit_in_occupied_human_seat() {
    let mut l = PokerLobby::new("t1", "Mesa Carvalho");
    l.sit(0, "user-a", NOW).unwrap();
    let err = l.sit(0, "user-b", NOW).unwrap_err();
    assert!(matches!(err, LobbyError::SeatTaken));
}

#[test]
fn sitting_in_bot_seat_displaces_bot() {
    let mut l = PokerLobby::new("t1", "Mesa Carvalho");
    l.sit(0, "user-a", NOW).unwrap();
    let bot_seat = l.seats.iter().position(|s| matches!(s, SeatOccupant::Bot)).unwrap();
    l.sit(bot_seat, "user-b", NOW).unwrap();
    assert_eq!(l.human_count(), 2);
    assert_eq!(l.bot_count(), 0);
}

#[test]
fn cannot_sit_twice() {
    let mut l = PokerLobby::new("t1", "Mesa Carvalho");
    l.sit(0, "user-a", NOW).unwrap();
    let err = l.sit(2, "user-a", NOW).unwrap_err();
    assert!(matches!(err, LobbyError::AlreadySeated));
}

#[test]
fn out_of_range_seat_errors() {
    let mut l = PokerLobby::new("t1", "Mesa Carvalho");
    let err = l.sit(99, "user-a", NOW).unwrap_err();
    assert!(matches!(err, LobbyError::InvalidSeat(_)));
}

#[test]
fn heads_up_lobby_recusa_assento_3() {
    let mut l = PokerLobby::with_max_seats("hu", "Heads-Up", 2);
    assert_eq!(l.seats.len(), 2);
    assert_eq!(l.max_seats, 2);
    l.sit(0, "alice", NOW).unwrap();
    l.sit(1, "bob", NOW).unwrap();
    let err = l.sit(2, "clara", NOW).unwrap_err();
    assert!(matches!(err, LobbyError::InvalidSeat(2)));
}

#[test]
fn with_max_seats_clamps_to_minimum_2() {
    let l = PokerLobby::with_max_seats("hu", "Heads-Up", 1);
    assert_eq!(l.seats.len(), 2);
    assert_eq!(l.max_seats, 2);
}

#[test]
fn bot_takes_the_first_empty_seat() {
    let mut l = PokerLobby::new("t1", "Mesa");
    l.sit(0, "user-a", NOW).unwrap();
    assert_eq!(l.seats[1], SeatOccupant::Bot);
    assert_eq!(
        l.seats[0],
        SeatOccupant::Human { user_id: "user-a".to_string(), sat_at: NOW }
    );
}

#[test]
fn stand_when_not_seated_is_refused_and_changes_nothing() {
    let mut l = PokerLobby::new("t1", "Mesa");
    l.sit(4, "user-a", NOW).unwrap();
    let before = l.seats.clone();
    assert_eq!(l.stand("ghost"), Err(LobbyError::NotSeated));
    assert_eq!(l.seats, before);
    assert_eq!(BOT_USER_ID, "bot:carvalho");
}
