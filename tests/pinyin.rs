use std::sync::Arc;
use quizroom::game::pinyin::PinyinGame;
use quizroom::game::pinyin_utils::{get_text_components, split_pinyin, validate_char, PinyinTable};
use quizroom::models::{GamePhase, InternalMsg, PlayerStatus, ToastKind};

fn table() -> PinyinTable {
    let mut t = PinyinTable::new();
    for (c, i, f) in [
        ('猫', "m", "ao"),
        ('毛', "m", "ao"),
        ('马', "m", "a"),
        ('好', "h", "ao"),
        ('大', "d", "a"),
        ('狗', "g", "ou"),
        ('小', "x", "iao"),
        ('动', "d", "ong"),
        ('物', "", "u"),
    ] {
        t.insert(c, i.to_string(), f.to_string());
    }
    t
}

fn game(ids: &[i64]) -> (PinyinGame, Vec<InternalMsg>) {
    let mut g = PinyinGame::new("猫".to_string(), "animal".to_string(), Arc::new(table()));
    let mut out = Vec::new();
    g.seat_players(ids.to_vec(), 0, &mut out);
    (g, out)
}

fn sorted(v: &[String]) -> Vec<String> {
    let mut v = v.to_vec();
    v.sort();
    v
}

#[test]
fn scenario_first_describer_may_not_use_answer_sounds() {
    let (mut g, mut out) = game(&[1, 2, 3]);
    g.handle_answer(1, "马".to_string(), 1, &mut out); // initial m
    assert_eq!(g.current_player_idx, 0);
    g.handle_answer(1, "好".to_string(), 1, &mut out); // final ao
    assert_eq!(g.current_player_idx, 0);
    assert!(g.history.is_empty());
    g.handle_answer(1, "狗".to_string(), 2, &mut out);
    assert_eq!(g.current_player_idx, 1);
    assert_eq!(g.banned_initials, vec!["g".to_string()]);
    assert_eq!(g.banned_finals, vec!["ou".to_string()]);
    assert_eq!(g.current_input_prompt, "狗");
    assert!(!g.is_first_describer);
    assert_eq!(g.players[0].status, PlayerStatus::Submitted);
    assert_eq!(g.players[1].status, PlayerStatus::Picking);
    assert_eq!(g.turn_deadline, Some(2 + 180000));
}

#[test]
fn reusing_a_banned_sound_is_refused_without_change() {
    let (mut g, mut out) = game(&[1, 2, 3]);
    g.handle_answer(1, "狗".to_string(), 1, &mut out);
    let before_hist = g.history.len();
    let before_i = g.banned_initials.clone();
    let before_f = g.banned_finals.clone();
    let n = out.len();
    g.handle_answer(2, "狗".to_string(), 2, &mut out);
    assert_eq!(g.current_player_idx, 1);
    assert_eq!(g.history.len(), before_hist);
    assert_eq!(g.banned_initials, before_i);
    assert_eq!(g.banned_finals, before_f);
    assert_eq!(g.current_input_prompt, "狗");
    match &out[n] {
        InternalMsg::Toast { to_user, msg, kind } => {
            assert_eq!(*to_user, 2);
            assert_eq!(msg, "Char '狗' uses banned initial 'g'.");
            assert_eq!(*kind, ToastKind::Error);
        }
        other => panic!("expected a toast, got {:?}", other),
    }
}

#[test]
fn bans_grow_and_a_new_session_starts_empty() {
    let (mut g, mut out) = game(&[1, 2, 3]);
    g.handle_answer(1, "狗".to_string(), 1, &mut out);
    g.handle_answer(2, "大马".to_string(), 2, &mut out);
    assert_eq!(sorted(&g.banned_initials), vec!["d", "g", "m"]);
    assert_eq!(sorted(&g.banned_finals), vec!["a", "ou"]);
    let (fresh, _) = game(&[1, 2]);
    assert!(fresh.banned_initials.is_empty());
    assert!(fresh.banned_finals.is_empty());
}

#[test]
fn guesser_wins_with_the_exact_answer() {
    let (mut g, mut out) = game(&[1, 2]);
    g.handle_answer(1, "狗".to_string(), 1, &mut out);
    g.handle_answer(2, "猫".to_string(), 2, &mut out);
    assert_eq!(g.phase, GamePhase::Settlement);
    assert!(g.winner);
    assert!(g.history.last().unwrap().is_guess);
    // Settlement is final.
    g.handle_answer(2, "狗".to_string(), 3, &mut out);
    g.tick(10_000_000, &mut out);
    assert!(g.winner);
    assert_eq!(g.history.len(), 2);
}

#[test]
fn guesser_loses_with_anything_else() {
    let (mut g, mut out) = game(&[1, 2]);
    g.handle_answer(1, "狗".to_string(), 1, &mut out);
    g.handle_answer(2, "毛".to_string(), 2, &mut out);
    assert_eq!(g.phase, GamePhase::Settlement);
    assert!(!g.winner);
}

#[test]
fn blank_content_is_refused() {
    let (mut g, mut out) = game(&[1, 2]);
    g.handle_answer(1, "  \t".to_string(), 1, &mut out);
    assert_eq!(g.current_player_idx, 0);
    assert!(g.history.is_empty());
    g.handle_answer(1, "狗 ".to_string(), 1, &mut out); // a space is not in the table
    assert_eq!(g.current_player_idx, 0);
}

#[test]
fn timeout_skips_describer_and_keeps_first_turn_rule() {
    let (mut g, mut out) = game(&[1, 2, 3]);
    g.tick(180000, &mut out);
    assert_eq!(g.current_player_idx, 0);
    g.tick(180001, &mut out);
    assert_eq!(g.current_player_idx, 1);
    assert_eq!(g.history[0].content, "(Timeout)");
    assert!(!g.history[0].is_guess);
    assert!(g.is_first_describer);
    assert_eq!(g.current_input_prompt, "猫");
    // The guesser going offline loses the game.
    g.handle_answer(2, "狗".to_string(), 5, &mut out);
    g.handle_leave(3, &mut out);
    g.tick(6, &mut out);
    assert_eq!(g.phase, GamePhase::Settlement);
    assert!(!g.winner);
    assert_eq!(g.history.last().unwrap().content, "(Timeout)");
}

#[test]
fn repeating_the_answer_rearms_the_first_turn_rule() {
    let mut t = table();
    t.insert('猫', "m".to_string(), "ao".to_string());
    // An answer made of characters the first describer may not use, so only a
    // later describer can repeat it: use an answer with no table entry.
    let mut g = PinyinGame::new("狗".to_string(), "h".to_string(), Arc::new(t));
    let mut out = Vec::new();
    g.seat_players(vec![1, 2, 3, 4], 0, &mut out);
    g.handle_answer(1, "猫".to_string(), 1, &mut out);
    assert!(!g.is_first_describer);
    // The second describer repeats the answer text verbatim.
    g.handle_answer(2, "狗".to_string(), 2, &mut out);
    assert_eq!(g.current_input_prompt, "狗");
    assert!(g.is_first_describer);
}

#[test]
fn views_redact_by_seat() {
    let (mut g, mut out) = game(&[1, 2, 3]);
    let first = g.get_view_data(Some(1), false, 0).pinyin_state.unwrap();
    assert_eq!(first.my_prompt, Some("猫".to_string()));
    assert!(first.is_first_turn);
    assert_eq!(sorted(&first.banned_initials), vec!["m"]);
    assert_eq!(sorted(&first.banned_finals), vec!["ao"]);
    g.handle_answer(1, "狗".to_string(), 1, &mut out);
    let future = g.get_view_data(Some(3), false, 1).pinyin_state.unwrap();
    assert!(future.banned_initials.is_empty());
    assert!(future.history.is_empty());
    assert_eq!(future.my_prompt, None);
    let past = g.get_view_data(Some(1), false, 1).pinyin_state.unwrap();
    assert_eq!(past.history.len(), 1);
    assert_eq!(past.banned_initials, vec!["g".to_string()]);
    let active = g.get_view_data(Some(2), false, 1).pinyin_state.unwrap();
    assert_eq!(active.my_prompt, Some("狗".to_string()));
    assert!(!active.is_first_turn);
    let outsider = g.get_view_data(None, false, 1);
    assert_eq!(outsider.correct_answer, None);
    let st = outsider.pinyin_state.unwrap();
    assert_eq!(st.banned_initials, vec!["g".to_string()]);
    assert!(st.history.is_empty());
    let admin = g.get_view_data(None, true, 1);
    assert_eq!(admin.correct_answer, Some("猫".to_string()));
    assert_eq!(admin.pinyin_state.unwrap().history.len(), 1);
}

#[test]
fn catalogue_is_sorted_and_unique() {
    let g = PinyinGame::new("猫".to_string(), "h".to_string(), Arc::new(table()));
    assert_eq!(g.all_initials, vec!["", "d", "g", "h", "m", "x"]);
    assert_eq!(g.all_finals, vec!["a", "ao", "iao", "ong", "ou", "u"]);
    assert_eq!(g.answer_initials, vec!["m".to_string()]);
    assert_eq!(g.answer_finals, vec!["ao".to_string()]);
}

#[test]
fn split_pinyin_cases() {
    assert_eq!(split_pinyin("zhang"), Some(("zh".to_string(), "ang".to_string())));
    assert_eq!(split_pinyin("mao"), Some(("m".to_string(), "ao".to_string())));
    assert_eq!(split_pinyin("ai"), Some(("".to_string(), "ai".to_string())));
    assert_eq!(split_pinyin("lv"), Some(("l".to_string(), "v".to_string())));
    assert_eq!(split_pinyin("hm"), None);
    assert_eq!(split_pinyin("ng"), None);
    assert_eq!(split_pinyin(""), None);
}

#[test]
fn text_components_skip_unknown_characters() {
    let t = table();
    let (i, f) = get_text_components("猫毛x狗", &t);
    assert_eq!(sorted(&i), vec!["g", "m"]);
    assert_eq!(sorted(&f), vec!["ao", "ou"]);
    let (i, f) = get_text_components("", &t);
    assert!(i.is_empty() && f.is_empty());
}

#[test]
fn validate_char_errors() {
    let t = table();
    let none: Vec<String> = vec![];
    assert_eq!(validate_char('猫', &t, &none, &none), Ok(()));
    assert_eq!(validate_char('x', &t, &none, &none), Err("Char 'x' invalid (not in table).".to_string()));
    assert_eq!(
        validate_char('猫', &t, &vec!["m".to_string()], &none),
        Err("Char '猫' uses banned initial 'm'.".to_string())
    );
    assert_eq!(
        validate_char('猫', &t, &none, &vec!["ao".to_string()]),
        Err("Char '猫' uses banned final 'ao'.".to_string())
    );
}

#[test]
fn table_insert_replaces() {
    let mut t = table();
    t.insert('猫', "n".to_string(), "iu".to_string());
    assert_eq!(t.entries.iter().filter(|e| e.ch == '猫').count(), 1);
    assert_eq!(t.find('猫').map(|k| t.entries[k].initial.clone()), Some("n".to_string()));
    assert!(!t.contains('z'));
}

fn only_toast(out: &[InternalMsg], n: usize, pid: i64) -> String {
    assert_eq!(out.len(), n + 1);
    match &out[n] {
        InternalMsg::Toast { to_user, msg, kind } => {
            assert_eq!(*to_user, pid);
            assert_eq!(*kind, ToastKind::Error);
            msg.clone()
        }
        other => panic!("expected a toast, got {:?}", other),
    }
}

#[test]
fn first_describer_answer_sound_gets_a_toast() {
    let mut t = table();
    t.insert('妈', "m".to_string(), "a".to_string());
    let mut g = PinyinGame::new("猫".to_string(), "h".to_string(), Arc::new(t));
    let mut out = Vec::new();
    g.seat_players(vec![1, 2], 0, &mut out);
    let n = out.len();
    g.handle_answer(1, "妈".to_string(), 1, &mut out);
    assert_eq!(only_toast(&out, n, 1), "Forbidden char '妈' (part of answer components).");
    assert_eq!(g.current_player_idx, 0);
    assert!(g.banned_initials.is_empty());
}

#[test]
fn refusals_toast_once_and_drops_are_silent() {
    let (mut g, mut out) = game(&[1, 2, 3]);
    let n = out.len();
    g.handle_answer(2, "狗".to_string(), 1, &mut out); // not their turn
    assert_eq!(out.len(), n);
    g.handle_answer(1, " ".to_string(), 1, &mut out);
    assert_eq!(only_toast(&out, n, 1), "Content cannot be empty.");
    let n = out.len();
    g.handle_answer(1, "x".to_string(), 1, &mut out);
    assert_eq!(only_toast(&out, n, 1), "Char 'x' invalid (not in table).");
    g.handle_answer(1, "狗".to_string(), 2, &mut out);
    assert!(matches!(out.last(), Some(InternalMsg::StateUpdated)));
    let n = out.len();
    g.handle_answer(2, "小狗".to_string(), 3, &mut out);
    assert_eq!(only_toast(&out, n, 2), "Char '狗' uses banned initial 'g'.");
    g.handle_answer(2, "小".to_string(), 3, &mut out);
    g.handle_answer(3, "猫".to_string(), 4, &mut out);
    assert_eq!(g.phase, GamePhase::Settlement);
    let n = out.len();
    g.handle_answer(3, "猫".to_string(), 5, &mut out);
    g.tick(10_000_000, &mut out);
    assert_eq!(out.len(), n);
}
