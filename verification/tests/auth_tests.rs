use switch_index::auth::{AuthService, UserCred};

fn service() -> AuthService {
    AuthService::new(vec![
        UserCred {
            user: "admin".to_string(),
            pass: "alpha-pass".to_string(),
        },
        UserCred {
            user: "user".to_string(),
            pass: "beta-pass".to_string(),
        },
    ])
}

#[test]
fn accepts_a_configured_pair() {
    let auth = service();
    assert!(auth.check_credentials("admin", "alpha-pass"));
    assert!(auth.check_credentials("user", "beta-pass"));
}

#[test]
fn rejects_a_wrong_password_or_unknown_user() {
    let auth = service();
    assert!(!auth.check_credentials("admin", "beta-pass"));
    assert!(!auth.check_credentials("user", "alpha-pass"));
    assert!(!auth.check_credentials("guest", "beta-pass"));
    assert!(!auth.check_credentials("", ""));
}

#[test]
fn empty_configuration_rejects_everyone() {
    let auth = AuthService::new(Vec::new());
    assert!(!auth.check_credentials("admin", "anything"));
}
