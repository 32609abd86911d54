use fwp::auth::{LoginAction, LoginEvent, LoginFlow, LoginStage, UserInfo};
use fwp::error::ApiError;

fn alice() -> UserInfo {
    UserInfo { id: 7, username: "alice".to_string(), role: "admin".to_string() }
}

fn start() -> LoginFlow {
    let (flow, action) = LoginFlow::start("alice".to_string(), "10.0.0.9".to_string(), 1000, 3600);
    assert!(matches!(action, LoginAction::CheckIp));
    flow
}

#[test]
fn banned_address_refused_first() {
    let (flow, action) = start().step(LoginEvent::IpBan(Some(42)));
    assert_eq!(flow.stage, LoginStage::Done);
    match action {
        LoginAction::Refuse { count_failure, status, detail, error: ApiError::IpBanned(m) } => {
            assert!(!count_failure);
            assert_eq!(status, 429);
            assert_eq!(detail, "IP banned (10.0.0.9), 42s remaining");
            assert_eq!(m, "this IP address has been banned; try again in 42 seconds");
        }
        other => panic!("unexpected {other:?}"),
    }
}

#[test]
fn locked_account_then_unknown_user() {
    let (flow, action) = start().step(LoginEvent::IpBan(None));
    assert!(matches!(action, LoginAction::CheckUser));
    let (_, action) = flow.step(LoginEvent::UserLock(Some(5)));
    match action {
        LoginAction::Refuse { count_failure: false, status: 429, detail, error: ApiError::AccountLocked(m) } => {
            assert_eq!(detail, "account locked");
            assert_eq!(m, "too many failed attempts; try again in 5 seconds");
        }
        other => panic!("unexpected {other:?}"),
    }
    let (flow, _) = start().step(LoginEvent::IpBan(None));
    let (flow, action) = flow.step(LoginEvent::UserLock(None));
    assert!(matches!(action, LoginAction::LookupUser));
    let (_, action) = flow.step(LoginEvent::Account(None));
    match action {
        LoginAction::Refuse { count_failure: true, status: 401, detail, error: ApiError::Unauthorized } => {
            assert_eq!(detail, "unknown user (from 10.0.0.9)");
        }
        other => panic!("unexpected {other:?}"),
    }
}

#[test]
fn password_decides_the_end() {
    let walk = |pw: Result<(), ApiError>| {
        let (flow, _) = start().step(LoginEvent::IpBan(None));
        let (flow, _) = flow.step(LoginEvent::UserLock(None));
        let (flow, action) = flow.step(LoginEvent::Account(Some(alice())));
        assert!(matches!(action, LoginAction::VerifyPassword));
        flow.step(LoginEvent::Password(pw)).1
    };
    match walk(Ok(())) {
        LoginAction::Accept { user, expires_at } => {
            assert_eq!((user.id, user.username.as_str()), (7, "alice"));
            assert_eq!(expires_at, 4600);
        }
        other => panic!("unexpected {other:?}"),
    }
    match walk(Err(ApiError::Unauthorized)) {
        LoginAction::Refuse { count_failure: true, status: 401, detail, error: ApiError::Unauthorized } => {
            assert_eq!(detail, "bad password (from 10.0.0.9)");
        }
        other => panic!("unexpected {other:?}"),
    }
}
