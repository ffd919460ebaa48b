//! Credentials, cookie parsing, the access gate, login and logout.

use simple_docker_manager::auth::extract_session_id;
use simple_docker_manager::auth::gate_request;
use simple_docker_manager::auth::login_attempt;
use simple_docker_manager::auth::logout_request;
use simple_docker_manager::auth::session_cookie;
use simple_docker_manager::auth::GateDecision;
use simple_docker_manager::auth::LoginOutcome;
use simple_docker_manager::auth::SessionStore;
use simple_docker_manager::config::Config;
use simple_docker_manager::credentials::provision_password_hash;

#[test]
fn test_extract_session_id() {
    assert_eq!(extract_session_id("session_id=abc123"), Some("abc123".to_string()));
    assert_eq!(
        extract_session_id("theme=dark; session_id=tok; other=1"),
        Some("tok".to_string())
    );
    assert_eq!(extract_session_id("  session_id=padded  "), Some("padded".to_string()));
    assert_eq!(extract_session_id("theme=dark; other=1"), None);
    assert_eq!(extract_session_id(""), None);
    // Exact name match: a prefix of the name is not the name.
    assert_eq!(extract_session_id("session=oops"), None);
    // First match wins.
    assert_eq!(
        extract_session_id("session_id=first; session_id=second"),
        Some("first".to_string())
    );
}

fn config_with_password(password: &str) -> Config {
    let provisioned = provision_password_hash(Some(password), None, None)
        .expect("hashing a short password succeeds");
    Config {
        auth_password_hash: Some(provisioned.password_hash),
        ..Config::default()
    }
}

#[test]
fn test_verify_password_right_and_wrong() {
    let config = config_with_password("s3cret");
    assert!(config.verify_password("s3cret"));
    assert!(!config.verify_password("wrong"));
    assert!(!config.verify_password(""));
}

#[test]
fn test_verify_password_fails_closed_without_hash() {
    let config = Config::default();
    assert!(config.auth_password_hash.is_none());
    assert!(!config.verify_password("anything"));
}

#[test]
fn test_provision_explicit_hash_is_kept() {
    let first = provision_password_hash(Some("pw"), None, None).unwrap();
    let second = provision_password_hash(None, Some(&first.password_hash), None).unwrap();
    assert_eq!(second.password_hash, first.password_hash);
    assert!(second.generated_password.is_none());
}

#[test]
fn test_provision_file_password_is_hashed() {
    let provisioned = provision_password_hash(None, None, Some("from-file")).unwrap();
    let config = Config {
        auth_password_hash: Some(provisioned.password_hash),
        ..Config::default()
    };
    assert!(config.verify_password("from-file"));
    assert!(!config.verify_password("other"));
}

#[test]
fn test_provision_generates_when_nothing_configured() {
    let provisioned = provision_password_hash(None, None, None).unwrap();
    let generated = provisioned.generated_password.clone().expect("a password was generated");
    assert!(generated.chars().count() >= 24);
    assert!(generated.chars().all(|c| c.is_ascii_alphanumeric()));
    let config = Config {
        auth_password_hash: Some(provisioned.password_hash),
        ..Config::default()
    };
    assert!(config.verify_password(&generated));
    assert!(!config.verify_password("not-the-generated-one"));
}

#[test]
fn test_gate_api_without_session_is_unauthorized() {
    let mut store = SessionStore::new(3600).unwrap();
    let decision = gate_request(&mut store, true, "/api/anything", None, 0);
    assert!(matches!(decision, GateDecision::Unauthorized));
    let decision = gate_request(&mut store, true, "/api/metrics", Some("session_id=bogus"), 0);
    assert!(matches!(decision, GateDecision::Unauthorized));
}

#[test]
fn test_gate_page_without_session_redirects() {
    let mut store = SessionStore::new(3600).unwrap();
    let decision = gate_request(&mut store, true, "/dashboard", None, 0);
    assert!(matches!(decision, GateDecision::RedirectToLogin));
}

#[test]
fn test_gate_health_always_passes() {
    let mut store = SessionStore::new(3600).unwrap();
    let decision = gate_request(&mut store, true, "/health", None, 0);
    assert!(matches!(decision, GateDecision::Allow(None)));
    let decision = gate_request(&mut store, true, "/ready", Some("session_id=bogus"), 0);
    assert!(matches!(decision, GateDecision::Allow(None)));
    let decision = gate_request(&mut store, true, "/login", None, 0);
    assert!(matches!(decision, GateDecision::Allow(None)));
}

#[test]
fn test_gate_disabled_auth_passes() {
    let mut store = SessionStore::new(3600).unwrap();
    let decision = gate_request(&mut store, false, "/anything", None, 0);
    assert!(matches!(decision, GateDecision::Allow(None)));
}

#[test]
fn test_gate_with_live_session_allows() {
    let mut store = SessionStore::new(3600).unwrap();
    let token = store.create_session("admin", 100);
    let header = format!("session_id={}", token);
    let decision = gate_request(&mut store, true, "/dashboard", Some(&header), 101);
    match decision {
        GateDecision::Allow(Some(session)) => assert_eq!(session.username, "admin"),
        _ => panic!("expected the session to authorize the request"),
    }
}

#[test]
fn test_gate_expired_session_is_rejected_and_deleted() {
    let mut store = SessionStore::new(10).unwrap();
    let token = store.create_session("admin", 100);
    let header = format!("session_id={}", token);
    let decision = gate_request(&mut store, true, "/api/metrics", Some(&header), 200);
    assert!(matches!(decision, GateDecision::Unauthorized));
    assert!(!store.remove_session(&token));
}

#[test]
fn test_login_attempt_outcomes() {
    let config = config_with_password("hunter2");
    let mut store = SessionStore::new(3600).unwrap();

    let outcome = login_attempt(&mut store, &config, "admin", "hunter2", 50);
    let token = match outcome {
        LoginOutcome::Success(token) => token,
        _ => panic!("correct credentials must log in"),
    };
    assert!(store.get_session(&token, 50).is_some());

    // Wrong password and unknown user give the same outcome.
    let wrong_pw = login_attempt(&mut store, &config, "admin", "wrong", 50);
    assert!(matches!(wrong_pw, LoginOutcome::InvalidCredentials));
    let wrong_user = login_attempt(&mut store, &config, "root", "hunter2", 50);
    assert!(matches!(wrong_user, LoginOutcome::InvalidCredentials));

    let mut disabled = config_with_password("hunter2");
    disabled.auth_enabled = false;
    let outcome = login_attempt(&mut store, &disabled, "admin", "hunter2", 50);
    assert!(matches!(outcome, LoginOutcome::Disabled));
}

#[test]
fn test_session_cookie_shape() {
    let cookie = session_cookie("tok123", 3600);
    assert_eq!(
        cookie,
        "session_id=tok123; HttpOnly; SameSite=Strict; Path=/; Max-Age=3600"
    );
}

#[test]
fn test_logout_removes_the_cookie_session() {
    let mut store = SessionStore::new(3600).unwrap();
    let token = store.create_session("admin", 0);
    let header = format!("theme=dark; session_id={}", token);
    assert!(logout_request(&mut store, Some(&header)));
    assert!(store.get_session(&token, 0).is_none());
    assert!(!logout_request(&mut store, Some(&header)));
    assert!(!logout_request(&mut store, None));
}
