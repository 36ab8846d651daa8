use url_translator::hooks::use_auth::{
    get_current_user, is_authenticated, login_outcome, register_outcome, restored_auth, AuthStatus,
};
use url_translator::services::api_client::{LoginResponse, UserProfile};

fn user(name: &str) -> UserProfile {
    UserProfile {
        id: "u1".to_string(),
        username: name.to_string(),
        email: format!("{}@example.com", name),
        is_active: true,
        created_at: "2025-01-01T00:00:00Z".to_string(),
        last_login_at: None,
    }
}

#[test]
fn only_a_signed_in_status_has_a_user() {
    let signed_in = AuthStatus::Authenticated(user("alice"));
    assert!(is_authenticated(&signed_in));
    assert_eq!(get_current_user(&signed_in).map(|u| u.username.clone()), Some("alice".to_string()));
    for other in [
        AuthStatus::Uninitialized,
        AuthStatus::Unauthenticated,
        AuthStatus::Authenticating,
        AuthStatus::Failed("bad".to_string()),
    ] {
        assert!(!is_authenticated(&other));
        assert!(get_current_user(&other).is_none());
    }
}

#[test]
fn a_whole_stored_session_is_restored() {
    let (status, delete) = restored_auth(Some("tok".to_string()), Some(user("bob")));
    assert!(matches!(status, AuthStatus::Authenticated(ref u) if u.username == "bob"));
    assert!(!delete);
}

#[test]
fn a_token_without_a_user_is_deleted() {
    let (status, delete) = restored_auth(Some("tok".to_string()), None);
    assert!(matches!(status, AuthStatus::Unauthenticated));
    assert!(delete);
    let (status, delete) = restored_auth(None, Some(user("bob")));
    assert!(matches!(status, AuthStatus::Unauthenticated));
    assert!(!delete);
}

#[test]
fn login_answers_lead_to_signed_in_or_failed() {
    let resp = LoginResponse {
        access_token: "access".to_string(),
        refresh_token: "refresh".to_string(),
        expires_in: 3600,
        user: user("carol"),
    };
    let (status, token) = login_outcome(Ok(resp));
    assert!(matches!(status, AuthStatus::Authenticated(ref u) if u.username == "carol"));
    assert_eq!(token, Some("access".to_string()));
    let (status, token) = login_outcome(Err("登录失败".to_string()));
    assert!(matches!(status, AuthStatus::Failed(ref m) if m == "登录失败"));
    assert_eq!(token, None);
}

#[test]
fn registering_does_not_sign_in() {
    assert!(matches!(register_outcome(Ok(user("dan"))), AuthStatus::Unauthenticated));
    assert!(matches!(register_outcome(Err("注册失败".to_string())), AuthStatus::Failed(ref m) if m == "注册失败"));
}
