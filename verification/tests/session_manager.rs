use grand_cross::session_manager::{JoinResult, SessionManager};

#[test]
fn new_player_opens_session_one() {
    let mut m = SessionManager::new();
    assert_eq!(m.on_join("alice", None), JoinResult::Joined(1));
    assert_eq!(m.session_id_for("alice"), Some(1));
    assert_eq!(m.active_sessions(), 1);
    assert_eq!(m.active_players(), 1);
    assert_eq!(m.on_join("bob", None), JoinResult::Joined(2));
    assert_eq!(m.active_sessions(), 2);
}

#[test]
fn join_is_idempotent() {
    let mut m = SessionManager::new();
    assert_eq!(m.on_join("alice", None), JoinResult::Joined(1));
    assert_eq!(m.on_join("alice", Some(77)), JoinResult::AlreadyJoined(1));
    assert_eq!(m.active_sessions(), 1);
    assert_eq!(m.active_players(), 1);
}

#[test]
fn invited_players_share_a_session_up_to_nine() {
    let mut m = SessionManager::default();
    assert_eq!(m.on_join("p0", None), JoinResult::Joined(1));
    for i in 1..9 {
        assert_eq!(m.on_join(&format!("p{}", i), Some(1)), JoinResult::Joined(1));
    }
    assert_eq!(m.on_join("p9", Some(1)), JoinResult::SessionFull);
    assert_eq!(m.session_id_for("p9"), None);
    m.on_leave("p3");
    assert_eq!(m.on_join("p9", Some(1)), JoinResult::Joined(1));
}

#[test]
fn relay_saturates_at_a_thousand_sessions() {
    let mut m = SessionManager::new();
    for i in 0..1000 {
        assert!(matches!(m.on_join(&format!("p{}", i), None), JoinResult::Joined(_)));
    }
    assert_eq!(m.on_join("late", None), JoinResult::RelaySaturated);
    // an invite still works
    assert_eq!(m.on_join("late", Some(5)), JoinResult::Joined(5));
}

#[test]
fn leave_closes_empty_session() {
    let mut m = SessionManager::new();
    m.on_join("a", None);
    m.on_join("b", Some(1));
    m.on_leave("a");
    assert_eq!(m.active_sessions(), 1);
    assert_eq!(m.session_id_for("a"), None);
    m.on_leave("b");
    assert_eq!(m.active_sessions(), 0);
    assert_eq!(m.active_players(), 0);
    // leaving again changes nothing
    m.on_leave("b");
    assert_eq!(m.active_sessions(), 0);
}

#[test]
fn invite_to_unknown_session_is_refused() {
    let mut m = SessionManager::new();
    assert_eq!(m.on_join("a", Some(42)), JoinResult::SessionNotFound);
    assert_eq!(m.active_sessions(), 0);
    assert_eq!(m.active_players(), 0);
    assert_eq!(m.session_id_for("a"), None);
}

#[test]
fn sessions_close_when_their_last_player_leaves() {
    let mut m = SessionManager::new();
    assert_eq!(m.on_join("a", None), JoinResult::Joined(1));
    assert_eq!(m.on_join("b", None), JoinResult::Joined(2));
    assert_eq!(m.on_join("c", Some(1)), JoinResult::Joined(1));
    assert_eq!(m.active_sessions(), 2);
    m.on_leave("b");
    assert_eq!(m.active_sessions(), 1);
    assert_eq!(m.on_join("d", Some(2)), JoinResult::SessionNotFound);
    m.on_leave("a");
    assert_eq!(m.session_id_for("c"), Some(1));
    assert_eq!(m.active_sessions(), 1);
    assert_eq!(m.active_players(), 1);
    assert_eq!(m.on_join("e", None), JoinResult::Joined(3));
}
