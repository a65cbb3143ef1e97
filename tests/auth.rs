use base64::Engine;
use quizroom::auth::{check_auth, check_credentials, AuthResult, Role, User};
use quizroom::text::is_blank;

fn header(s: &str) -> String {
    format!("Basic {}", base64::engine::general_purpose::STANDARD.encode(s))
}

#[test]
fn basic_auth_outcomes() {
    let h = header("alice_1:pw");
    assert!(matches!(check_auth(Some(&h), "pw", "root"), AuthResult::Player(ref u) if u == "alice_1"));
    let h = header("anyone:root");
    assert!(matches!(check_auth(Some(&h), "pw", "root"), AuthResult::SuperSpectator));
    let h = header("bad name:pw");
    assert!(matches!(check_auth(Some(&h), "pw", "root"), AuthResult::Invalid));
    let h = header("seventeen_chars_x:pw");
    assert!(matches!(check_auth(Some(&h), "pw", "root"), AuthResult::Invalid));
    let h = header("alice:wrong");
    assert!(matches!(check_auth(Some(&h), "pw", "root"), AuthResult::Invalid));
    assert!(matches!(check_auth(Some("Basic !!!"), "pw", "root"), AuthResult::Invalid));
    assert!(matches!(check_auth(Some("Bearer abc"), "pw", "root"), AuthResult::Invalid));
    assert!(matches!(check_auth(None, "pw", "root"), AuthResult::Invalid));
    let h = format!("Basic {}", base64::engine::general_purpose::STANDARD.encode([0xffu8, 0xfe, b':']));
    assert!(matches!(check_auth(Some(&h), "pw", "root"), AuthResult::Invalid));
}

#[test]
fn credentials_split_at_first_colon() {
    assert!(matches!(check_credentials("bob:p:w", "p:w", "x"), AuthResult::Player(ref u) if u == "bob"));
    assert!(matches!(check_credentials("nocolon", "p", "x"), AuthResult::Invalid));
    assert!(matches!(check_credentials(":pw", "pw", "x"), AuthResult::Invalid));
}

#[test]
fn admin_role() {
    let u = User { id: 1, name: "a".to_string(), password: None, role: Role::Admin, valid_after: 0 };
    assert!(u.is_admin());
    let v = User { role: Role::Normal, ..u };
    assert!(!v.is_admin());
}

#[test]
fn blank_text() {
    assert!(is_blank(""));
    assert!(is_blank(" \u{3000}\n"));
    assert!(!is_blank(" a "));
}

#[test]
fn blank_means_only_white_space() {
    assert!(!is_blank("天"));
    assert!(is_blank("\u{2003}\u{a0}\u{85}"));
    assert!(!is_blank("\u{200b}"));
}
