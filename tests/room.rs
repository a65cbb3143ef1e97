use std::sync::Arc;
use quizroom::game::pinyin_utils::PinyinTable;
use quizroom::game::room::{GameSession, JoinError, Room};
use quizroom::models::{GamePhase, InternalMsg, RoomType, ToastKind};

fn room(kind: RoomType, max: usize) -> Room {
    Room::new("r1".to_string(), "Room".to_string(), kind, max, 100)
}

fn table() -> Arc<PinyinTable> {
    let mut t = PinyinTable::new();
    t.insert('猫', "m".to_string(), "ao".to_string());
    Arc::new(t)
}

#[test]
fn join_refuses_when_full_or_running() {
    let mut r = room(RoomType::Chain, 2);
    assert_eq!(r.join(1, "a".to_string(), false, false, 0), Ok(()));
    assert_eq!(r.join(2, "b".to_string(), false, false, 0), Ok(()));
    assert_eq!(r.join(3, "c".to_string(), false, false, 0), Err(JoinError::RoomFull));
    assert_eq!(r.join(4, "d".to_string(), true, false, 0), Ok(()));
    r.start_game("AB".to_string(), "x".to_string(), "h".to_string(), table(), 0);
    r.leave(2, 5);
    assert_eq!(r.join(5, "e".to_string(), false, false, 0), Err(JoinError::GameInProgress));
    // A known player comes back during the game.
    assert_eq!(r.join(2, "b".to_string(), false, false, 6), Ok(()));
    assert!(r.players.iter().any(|p| p.id == 2 && p.is_online));
    assert_eq!(JoinError::RoomFull.message(), "Room is full");
    assert_eq!(JoinError::GameInProgress.message(), "Game is in progress");
}

#[test]
fn leave_removes_while_waiting_and_marks_offline_in_game() {
    let mut r = room(RoomType::Chain, 5);
    r.join(1, "a".to_string(), false, false, 0).unwrap();
    r.join(2, "b".to_string(), false, false, 0).unwrap();
    r.join(3, "s".to_string(), true, false, 0).unwrap();
    r.leave(1, 1);
    assert_eq!(r.players.iter().map(|p| p.id).collect::<Vec<_>>(), vec![2, 3]);
    r.join(1, "a".to_string(), false, false, 2).unwrap();
    r.start_game("ABC".to_string(), "x".to_string(), "h".to_string(), table(), 3);
    r.leave(1, 4);
    r.leave(3, 4);
    assert_eq!(r.players.iter().map(|p| (p.id, p.is_online)).collect::<Vec<_>>(), vec![(1, false), (2, true)]);
}

#[test]
fn start_without_players_only_toasts() {
    let mut r = room(RoomType::Pinyin, 5);
    r.join(9, "s".to_string(), true, false, 0).unwrap();
    r.take_events();
    r.start_game("".to_string(), "猫".to_string(), "h".to_string(), table(), 0);
    assert!(matches!(r.session, GameSession::Idle));
    let ev = r.take_events();
    assert_eq!(ev.len(), 1);
    match &ev[0] {
        InternalMsg::Toast { to_user, kind, .. } => {
            assert_eq!(*to_user, 0);
            assert_eq!(*kind, ToastKind::Error);
        }
        other => panic!("unexpected {:?}", other),
    }
}

#[test]
fn start_seats_online_players_only() {
    let mut r = room(RoomType::Pinyin, 5);
    for id in [3, 1, 2] {
        r.join(id, format!("p{}", id), false, false, 0).unwrap();
    }
    r.join(8, "s".to_string(), true, false, 0).unwrap();
    r.leave(2, 0);
    r.start_game("".to_string(), "猫".to_string(), "h".to_string(), table(), 0);
    match &r.session {
        GameSession::Pinyin(g) => {
            let mut ids: Vec<i64> = g.players.iter().map(|p| p.id).collect();
            ids.sort();
            assert_eq!(ids, vec![1, 3]);
            assert_eq!(g.phase, GamePhase::Gaming);
        }
        _ => panic!("no pinyin session"),
    }
}

#[test]
fn spectators_cannot_act_and_kick_closes_connection() {
    let mut r = room(RoomType::Chain, 5);
    r.join(1, "a".to_string(), false, false, 0).unwrap();
    r.join(2, "s".to_string(), true, false, 0).unwrap();
    r.start_game("AB".to_string(), "x".to_string(), "h".to_string(), table(), 0);
    r.handle_action(2, "take", 1);
    if let GameSession::Chain(g) = &r.session {
        assert_eq!(g.cursor, 0);
    }
    r.handle_action(1, "take", 1);
    if let GameSession::Chain(g) = &r.session {
        assert_eq!(g.cursor, 1);
    }
    r.take_events();
    r.kick(1, 2);
    assert!(r.players.iter().all(|p| p.id != 1));
    assert!(r.take_events().iter().any(|e| matches!(e, InternalMsg::Kick { target: 1 })));
}

#[test]
fn settled_room_sweeps_offline_players() {
    let mut r = room(RoomType::Chain, 5);
    r.join(1, "a".to_string(), false, false, 0).unwrap();
    r.join(2, "b".to_string(), false, false, 0).unwrap();
    r.start_game("AB".to_string(), "x".to_string(), "h".to_string(), table(), 0);
    // Both stop; answering starts; one leaves; the other submits.
    let first = match &r.session {
        GameSession::Chain(g) => g.players[0].id,
        _ => unreachable!(),
    };
    let second = 3 - first;
    r.handle_action(first, "stop", 1);
    r.leave(first, 2);
    r.handle_answer(second, "x".to_string(), 3);
    r.tick(4);
    assert_eq!(r.session.phase(), GamePhase::Settlement);
    assert_eq!(r.players.iter().map(|p| p.id).collect::<Vec<_>>(), vec![second]);
    r.stop_game(5);
    assert!(matches!(r.session, GameSession::Idle));
}

#[test]
fn view_orders_seats_first_and_hides_spectators() {
    let mut r = room(RoomType::Chain, 5);
    r.join(5, "e".to_string(), false, false, 0).unwrap();
    r.join(2, "b".to_string(), false, false, 0).unwrap();
    r.join(9, "spec".to_string(), true, false, 0).unwrap();
    let v = r.get_view(Some(5), false, 0);
    assert_eq!(v.players.iter().map(|p| p.id).collect::<Vec<_>>(), vec![2, 5]);
    assert_eq!(v.players.iter().map(|p| p.color_hue).collect::<Vec<_>>(), vec![0, 180]);
    assert!(v.players[1].is_me);
    assert!(!v.is_admin);
    assert!(v.admin_ids.is_none());
    assert_eq!(v.phase, GamePhase::Waiting);
    let a = r.get_view(Some(100), false, 0);
    assert!(a.is_admin);
    assert_eq!(a.admin_ids, Some(vec![100]));
    assert_eq!(a.players.iter().map(|p| p.id).collect::<Vec<_>>(), vec![2, 5, 9]);
    r.start_game("ABCD".to_string(), "ans".to_string(), "hint".to_string(), table(), 0);
    let v = r.get_view(Some(2), false, 0);
    let seats = match &r.session {
        GameSession::Chain(g) => g.players.iter().map(|p| p.id).collect::<Vec<_>>(),
        _ => unreachable!(),
    };
    assert_eq!(v.players.iter().map(|p| p.id).collect::<Vec<_>>(), seats);
    assert_eq!(v.hint, "hint");
    assert_eq!(v.grid.as_ref().unwrap().len(), 4);
    assert_eq!(v.correct_answer, None);
    assert_eq!(v.players[0].score_display, Some("0".to_string()));
    let s = r.get_view(Some(9), true, 0);
    assert_eq!(s.correct_answer, Some("ans".to_string()));
}

#[test]
fn summary_counts_players() {
    let mut r = room(RoomType::Pinyin, 4);
    r.join(1, "a".to_string(), false, false, 0).unwrap();
    r.join(2, "s".to_string(), true, false, 0).unwrap();
    let s = r.summary();
    assert_eq!(s.player_count, 1);
    assert_eq!(s.max_players, 4);
    assert_eq!(s.phase, GamePhase::Waiting);
    assert_eq!(s.room_type, RoomType::Pinyin);
}

#[test]
fn game_view_colours_seats_and_lists_spectators_last() {
    let mut r = room(RoomType::Chain, 5);
    for id in [1, 2, 3] {
        r.join(id, format!("p{}", id), false, false, 0).unwrap();
    }
    r.join(0, "watcher".to_string(), true, false, 0).unwrap();
    r.start_game("ABC".to_string(), "x".to_string(), "h".to_string(), table(), 0);
    let seats = match &r.session {
        GameSession::Chain(g) => g.players.iter().map(|p| p.id).collect::<Vec<_>>(),
        _ => unreachable!(),
    };
    let v = r.get_view(Some(100), false, 0);
    let ids: Vec<i64> = v.players.iter().map(|p| p.id).collect();
    let mut expected = seats.clone();
    expected.push(0);
    assert_eq!(ids, expected);
    assert_eq!(v.players.iter().map(|p| p.color_hue).collect::<Vec<_>>(), vec![0, 120, 240, 0]);
    assert!(v.players[0].is_active_turn);
    assert_eq!(v.players[3].status, quizroom::models::PlayerStatus::Waiting);
    let plain = r.get_view(Some(seats[1]), false, 0);
    assert_eq!(plain.players.len(), 3);
}
