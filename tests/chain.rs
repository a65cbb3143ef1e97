use quizroom::game::chain::{ChainGame, ChainPlayer};
use quizroom::models::{GamePhase, InternalMsg, PlayerStatus};

fn seated(problem: &str, ids: &[i64]) -> (ChainGame, Vec<InternalMsg>) {
    let mut g = ChainGame::new(problem.to_string(), "answer".to_string(), "hint".to_string());
    let mut out = Vec::new();
    g.seat_players(ids.to_vec(), 0, &mut out);
    (g, out)
}

fn claims(g: &ChainGame, seat: usize) -> Vec<usize> {
    g.players[seat].obtained_indices.clone()
}

#[test]
fn last_waiting_player_is_awarded_the_rest() {
    let (mut g, mut out) = seated("ABCD", &[1, 2, 3]);
    g.handle_action(1, "take", 1, &mut out); // P1 claims A
    g.handle_action(1, "stop", 2, &mut out);
    g.handle_action(2, "take", 3, &mut out); // P2 claims B
    assert_eq!(g.phase, GamePhase::Picking);
    assert_eq!(g.current_turn_idx, 1);
    g.handle_action(2, "stop", 4, &mut out);
    // P3 is the only one waiting: they get C and D with no move of theirs.
    assert_eq!(claims(&g, 0), vec![0]);
    assert_eq!(claims(&g, 1), vec![1]);
    assert_eq!(claims(&g, 2), vec![2, 3]);
    assert_eq!(g.players[2].status, PlayerStatus::Answering);
    assert_eq!(g.phase, GamePhase::Answering);
    assert_eq!(g.answer_deadline, Some(4 + 60000));
    assert_eq!(g.turn_deadline, None);
}

fn seat(id: i64, status: PlayerStatus, claimed: Vec<usize>) -> ChainPlayer {
    ChainPlayer { id, color_hue: 0, status, obtained_indices: claimed, answer: None, is_online: true }
}

#[test]
fn scenario_abcd_p2_p3_stop_and_p1_gets_d() {
    // P1, P2, P3 hold A, B, C; P2 is active and P1, P3 are still waiting.
    let mut g = ChainGame::new("ABCD".to_string(), "ans".to_string(), "h".to_string());
    g.players = vec![
        seat(1, PlayerStatus::Waiting, vec![0]),
        seat(2, PlayerStatus::Picking, vec![1]),
        seat(3, PlayerStatus::Waiting, vec![2]),
    ];
    g.phase = GamePhase::Picking;
    g.cursor = 3;
    g.current_turn_idx = 1;
    g.turn_deadline = Some(3000);
    let mut out = Vec::new();
    g.handle_action(2, "stop", 10, &mut out);
    assert_eq!(g.current_turn_idx, 2);
    g.handle_action(3, "stop", 20, &mut out);
    // P1 is the sole waiting player: D is theirs and answering starts.
    assert_eq!(claims(&g, 0), vec![0, 3]);
    assert_eq!(g.cursor, 4);
    assert_eq!(g.phase, GamePhase::Answering);
}

#[test]
fn take_to_exhaustion_partitions_the_text() {
    for n in 1..5usize {
        for len in 0..7usize {
            let text: String = "ABCDEFG".chars().take(len).collect();
            let ids: Vec<i64> = (1..=n as i64).collect();
            let (mut g, mut out) = seated(&text, &ids);
            let mut now = 0u64;
            while g.phase == GamePhase::Picking {
                let pid = g.players[g.current_turn_idx].id;
                now += 1;
                g.handle_action(pid, "take", now, &mut out);
                assert!(now < 1000);
            }
            let mut all: Vec<usize> = g.players.iter().flat_map(|p| p.obtained_indices.clone()).collect();
            all.sort();
            assert_eq!(all, (0..len).collect::<Vec<usize>>(), "n={} len={}", n, len);
            assert_eq!(g.cursor, len);
        }
    }
}

#[test]
fn take_moves_cursor_and_resets_deadline() {
    let (mut g, mut out) = seated("XYZ", &[7, 8]);
    assert_eq!(g.turn_deadline, Some(3000));
    g.handle_action(7, "take", 500, &mut out);
    assert_eq!(g.cursor, 1);
    assert_eq!(g.turn_deadline, Some(3500));
    assert_eq!(claims(&g, 0), vec![0]);
}

#[test]
fn action_from_non_active_seat_is_ignored() {
    let (mut g, mut out) = seated("XYZ", &[7, 8]);
    g.handle_action(8, "take", 5, &mut out);
    g.handle_action(7, "jump", 5, &mut out);
    assert_eq!(g.cursor, 0);
    assert_eq!(g.current_turn_idx, 0);
}

#[test]
fn disconnect_on_active_turn_passes_turn_and_keeps_claims() {
    let (mut g, mut out) = seated("ABCDEF", &[1, 2, 3]);
    g.handle_action(1, "take", 1, &mut out);
    g.handle_leave(1, &mut out);
    g.tick(2, &mut out);
    assert_eq!(claims(&g, 0), vec![0]);
    assert_eq!(g.players[0].status, PlayerStatus::Stopped);
    assert_eq!(g.current_turn_idx, 1);
    assert_eq!(g.players[1].status, PlayerStatus::Picking);
    assert_eq!(g.phase, GamePhase::Picking);
}

#[test]
fn expired_turn_takes_for_the_active_seat() {
    let (mut g, mut out) = seated("AB", &[1, 2]);
    g.tick(3000, &mut out);
    assert_eq!(g.cursor, 0);
    g.tick(3001, &mut out);
    assert_eq!(g.cursor, 1);
    assert_eq!(claims(&g, 0), vec![0]);
}

#[test]
fn stopped_player_answers_during_picking_once() {
    let (mut g, mut out) = seated("ABCDEF", &[1, 2, 3]);
    g.handle_action(1, "stop", 1, &mut out);
    assert_eq!(g.phase, GamePhase::Picking);
    g.handle_answer(1, "first".to_string(), &mut out);
    assert_eq!(g.players[0].answer, Some("first".to_string()));
    assert_eq!(g.players[0].status, PlayerStatus::Submitted);
    g.handle_answer(1, "second".to_string(), &mut out);
    assert_eq!(g.players[0].answer, Some("first".to_string()));
    // A waiting player may not answer yet.
    g.handle_answer(3, "early".to_string(), &mut out);
    assert_eq!(g.players[2].answer, None);
}

#[test]
fn all_submitted_finishes_and_finish_is_idempotent() {
    let (mut g, mut out) = seated("AB", &[1, 2]);
    g.handle_action(1, "stop", 1, &mut out);
    // Player 2 is the last waiting: gets everything, answering starts.
    assert_eq!(g.phase, GamePhase::Answering);
    g.handle_answer(1, "a".to_string(), &mut out);
    assert_eq!(g.phase, GamePhase::Answering);
    g.handle_answer(2, "b".to_string(), &mut out);
    assert_eq!(g.phase, GamePhase::Settlement);
    g.finish_game(&mut out);
    assert_eq!(g.phase, GamePhase::Settlement);
    g.tick(1_000_000, &mut out);
    assert_eq!(g.phase, GamePhase::Settlement);
}

#[test]
fn answering_times_out() {
    let (mut g, mut out) = seated("AB", &[1, 2]);
    g.handle_action(1, "stop", 100, &mut out);
    assert_eq!(g.answer_deadline, Some(60100));
    g.tick(60100, &mut out);
    assert_eq!(g.phase, GamePhase::Answering);
    g.tick(60101, &mut out);
    assert_eq!(g.phase, GamePhase::Settlement);
    assert_eq!(g.answer_deadline, None);
}

#[test]
fn single_player_empty_text_stops_into_answering() {
    let (mut g, mut out) = seated("", &[5]);
    g.handle_action(5, "take", 1, &mut out);
    assert_eq!(g.phase, GamePhase::Answering);
    assert_eq!(g.cursor, 0);
}

#[test]
fn start_shuffles_every_online_player_in() {
    let mut g = ChainGame::new("ABC".to_string(), "a".to_string(), "h".to_string());
    let mut out = Vec::new();
    g.start(vec![4, 5, 6], 0, &mut out);
    let mut ids: Vec<i64> = g.players.iter().map(|p| p.id).collect();
    ids.sort();
    assert_eq!(ids, vec![4, 5, 6]);
    assert_eq!(g.phase, GamePhase::Picking);
    assert_eq!(g.players[0].status, PlayerStatus::Picking);
    assert_eq!(g.players.iter().map(|p| p.color_hue).collect::<Vec<u16>>(), vec![0, 120, 240]);
    // A second start changes nothing.
    g.start(vec![9], 0, &mut out);
    assert_eq!(g.players.len(), 3);
}

#[test]
fn grid_hides_other_players_characters() {
    let (mut g, mut out) = seated("ABC", &[1, 2]);
    g.handle_action(1, "take", 1, &mut out);
    g.handle_action(1, "stop", 2, &mut out);
    // Player 2 is the last waiting and receives B and C.
    let mine = g.build_grid(Some(1), false);
    assert_eq!(mine[0].char_content, Some('A'));
    assert_eq!(mine[0].owner_color_hue, Some(0));
    assert_eq!(mine[1].char_content, None);
    assert_eq!(mine[1].owner_color_hue, Some(180));
    let theirs = g.build_grid(Some(2), false);
    assert_eq!(theirs[0].char_content, None);
    assert_eq!(theirs[2].char_content, Some('C'));
    let admin = g.build_grid(None, true);
    assert_eq!(admin.iter().map(|c| c.char_content).collect::<Vec<_>>(), vec![Some('A'), Some('B'), Some('C')]);
}

#[test]
fn view_data_counts_claims_and_hides_answers() {
    let (mut g, mut out) = seated("ABCDEFGHIJKL", &[1, 2]);
    for t in 0..11 {
        g.handle_action(1, "take", t, &mut out);
    }
    let s = g.get_player_state(1, Some(2), false);
    assert_eq!(s.score_display, Some("11".to_string()));
    assert!(s.is_active_turn);
    let d = g.get_view_data(Some(2), false, 11);
    assert_eq!(d.correct_answer, None);
    assert_eq!(d.deadline_ms, Some(3000 + 10 - 11));
    let d2 = g.get_view_data(None, true, 100_000);
    assert_eq!(d2.correct_answer, Some("answer".to_string()));
    assert_eq!(d2.deadline_ms, Some(0));
}

#[test]
fn dropped_operations_publish_nothing() {
    let (mut g, mut out) = seated("ABC", &[1, 2]);
    let n = out.len();
    g.tick(10, &mut out); // before the deadline
    g.handle_action(2, "take", 10, &mut out); // out of turn
    g.handle_action(1, "jump", 10, &mut out); // unknown verb
    g.handle_answer(2, "early".to_string(), &mut out); // still waiting
    assert_eq!(out.len(), n);
    g.handle_action(1, "stop", 11, &mut out);
    g.handle_answer(1, "a".to_string(), &mut out);
    let n = out.len();
    g.handle_answer(1, "again".to_string(), &mut out);
    assert_eq!(out.len(), n);
    g.finish_game(&mut out);
    let n = out.len();
    g.finish_game(&mut out);
    g.tick(1_000_000, &mut out);
    assert_eq!(out.len(), n);
}

#[test]
fn changes_end_with_state_updated() {
    let (mut g, mut out) = seated("ABC", &[1, 2]);
    assert!(matches!(out.last(), Some(InternalMsg::StateUpdated)));
    g.handle_action(1, "take", 1, &mut out);
    assert!(matches!(out.last(), Some(InternalMsg::StateUpdated)));
    g.handle_action(1, "stop", 2, &mut out);
    assert!(matches!(out.last(), Some(InternalMsg::StateUpdated)));
    g.handle_answer(2, "x".to_string(), &mut out);
    assert!(matches!(out.last(), Some(InternalMsg::StateUpdated)));
    assert!(out.iter().any(|m| matches!(m, InternalMsg::Log { text, .. } if text == "1 stopped.")));
}
