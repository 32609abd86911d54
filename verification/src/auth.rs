//! Login and session payloads, and the decisions a login goes through:
//! the address ban, then the account lockout, then the account lookup,
//! then the password, each refusal counted and audited.
use vstd::prelude::*;
use crate::error::ApiError;
use crate::num::{dec, push_dec};
use crate::text::{owned, push_str};

verus! {

/// Credentials posted to the login endpoint.
#[derive(Debug, Clone)]
pub struct LoginRequest {
    pub username: String,
    pub password: String,
}

/// The account behind a session.
#[derive(Debug, Clone)]
pub struct UserInfo {
    pub id: i64,
    pub username: String,
    pub role: String,
}

/// A fresh session token, when it expires, and whose it is.
#[derive(Debug, Clone)]
pub struct LoginResponse {
    pub token: String,
    pub expires_at: i64,
    pub user: UserInfo,
}

/// Where a login stands: what it waits for next.
#[derive(Debug, Clone, Copy, PartialEq, Eq, Structural)]
pub enum LoginStage {
    CheckIp,
    CheckUser,
    LookupUser,
    VerifyPassword,
    Done,
}

/// What the caller found out for the stage it was asked about.
#[derive(Debug)]
pub enum LoginEvent {
    /// The address ban: seconds left when the address is banned.
    IpBan(Option<u64>),
    /// The account lockout: seconds left when the account is locked.
    UserLock(Option<u64>),
    /// The account found under the name, if any.
    Account(Option<UserInfo>),
    /// The password check: its error when the password does not match.
    Password(Result<(), ApiError>),
}

/// What the caller does next.
#[derive(Debug)]
pub enum LoginAction {
    CheckIp,
    CheckUser,
    LookupUser,
    VerifyPassword,
    /// Refuse the login: when `count_failure`, count a failed attempt for
    /// the name and for the address; audit it with `status` and `detail`;
    /// answer with `error`.
    Refuse { count_failure: bool, status: u16, detail: String, error: ApiError },
    /// Accept the login: clear both failure histories, open a session
    /// until `expires_at`, audit it with status 200, answer with `user`.
    Accept { user: UserInfo, expires_at: i64 },
}

/// One login attempt: who, from where, when, and how long a session lasts.
#[derive(Debug)]
pub struct LoginFlow {
    pub username: String,
    pub ip: String,
    pub now: i64,
    pub session_ttl: i64,
    pub stage: LoginStage,
    /// The account found by the lookup.
    pub account: Option<UserInfo>,
}

/// The event that answers `stage`.
pub open spec fn answers(stage: LoginStage, ev: LoginEvent) -> bool {
    match stage {
        LoginStage::CheckIp => ev is IpBan,
        LoginStage::CheckUser => ev is UserLock,
        LoginStage::LookupUser => ev is Account,
        LoginStage::VerifyPassword => ev is Password,
        LoginStage::Done => false,
    }
}

pub open spec fn ip_banned_message(secs: u64) -> Seq<char> {
    "this IP address has been banned; try again in "@ + dec(secs as nat) + " seconds"@
}

pub open spec fn ip_banned_detail(ip: Seq<char>, secs: u64) -> Seq<char> {
    "IP banned ("@ + ip + "), "@ + dec(secs as nat) + "s remaining"@
}

pub open spec fn locked_message(secs: u64) -> Seq<char> {
    "too many failed attempts; try again in "@ + dec(secs as nat) + " seconds"@
}

/// A refusal as contracts speak of it.
pub open spec fn refuses(a: LoginAction, count: bool, status: u16, detail: Seq<char>) -> bool {
    a matches LoginAction::Refuse { count_failure, status: st, detail: d, .. } && count_failure == count
        && st == status && d@ == detail
}

impl LoginFlow {
    /// A new attempt: the address ban is checked first.
    pub fn start(username: String, ip: String, now: i64, session_ttl: i64) -> (r: (LoginFlow, LoginAction))
        ensures
            r.0.username@ == username@ && r.0.ip@ == ip@ && r.0.now == now && r.0.session_ttl == session_ttl,
            r.0.stage == LoginStage::CheckIp && r.0.account is None,
            r.1 is CheckIp,
    {
        (LoginFlow { username, ip, now, session_ttl, stage: LoginStage::CheckIp, account: None }, LoginAction::CheckIp)
    }

    /// The next step once the caller reports `ev` for the current stage. A
    /// banned address is refused before anything else (429, not counted); a
    /// locked account next (429, not counted); an unknown name or a wrong
    /// password is counted against both name and address (401); a match
    /// opens a session of `session_ttl` seconds.
    pub fn step(self, ev: LoginEvent) -> (r: (LoginFlow, LoginAction))
        requires
            answers(self.stage, ev),
            self.stage == LoginStage::VerifyPassword ==> self.account is Some,
            (self.stage == LoginStage::VerifyPassword && (ev matches LoginEvent::Password(Ok(_)))) ==> i64::MIN
                <= self.now + self.session_ttl <= i64::MAX,
        ensures
            r.0.username@ == self.username@ && r.0.ip@ == self.ip@ && r.0.now == self.now
                && r.0.session_ttl == self.session_ttl,
            r.1 is Refuse || r.1 is Accept <==> r.0.stage == LoginStage::Done,
            match ev {
                LoginEvent::IpBan(Some(secs)) => refuses(r.1, false, 429, ip_banned_detail(self.ip@, secs))
                    && (r.1 matches LoginAction::Refuse { error: ApiError::IpBanned(m), .. } && m@
                    == ip_banned_message(secs)),
                LoginEvent::IpBan(None) => r.1 is CheckUser && r.0.stage == LoginStage::CheckUser,
                LoginEvent::UserLock(Some(secs)) => refuses(r.1, false, 429, "account locked"@) && (
                r.1 matches LoginAction::Refuse { error: ApiError::AccountLocked(m), .. } && m@ == locked_message(
                    secs,
                )),
                LoginEvent::UserLock(None) => r.1 is LookupUser && r.0.stage == LoginStage::LookupUser,
                LoginEvent::Account(None) => refuses(r.1, true, 401, "unknown user (from "@ + self.ip@ + ")"@)
                    && (r.1 matches LoginAction::Refuse { error: ApiError::Unauthorized, .. }),
                LoginEvent::Account(Some(u)) => r.1 is VerifyPassword && r.0.stage == LoginStage::VerifyPassword
                    && r.0.account == Some(u),
                LoginEvent::Password(Err(e)) => refuses(r.1, true, 401, "bad password (from "@ + self.ip@ + ")"@)
                    && (r.1 matches LoginAction::Refuse { error, .. } && error == e),
                LoginEvent::Password(Ok(_)) => r.1 matches LoginAction::Accept { user, expires_at } && expires_at
                    == self.now + self.session_ttl && Some(user) == self.account,
            },
    {
        let LoginFlow { username, ip, now, session_ttl, stage: _, account } = self;
        match ev {
            LoginEvent::IpBan(Some(secs)) => {
                let mut detail = owned("IP banned (");
                push_str(&mut detail, ip.as_str());
                push_str(&mut detail, "), ");
                push_dec(&mut detail, secs);
                push_str(&mut detail, "s remaining");
                let mut msg = owned("this IP address has been banned; try again in ");
                push_dec(&mut msg, secs);
                push_str(&mut msg, " seconds");
                (
                    LoginFlow { username, ip, now, session_ttl, stage: LoginStage::Done, account: None },
                    LoginAction::Refuse { count_failure: false, status: 429, detail, error: ApiError::IpBanned(msg) },
                )
            },
            LoginEvent::IpBan(None) => (
                LoginFlow { username, ip, now, session_ttl, stage: LoginStage::CheckUser, account },
                LoginAction::CheckUser,
            ),
            LoginEvent::UserLock(Some(secs)) => {
                let mut msg = owned("too many failed attempts; try again in ");
                push_dec(&mut msg, secs);
                push_str(&mut msg, " seconds");
                (
                    LoginFlow { username, ip, now, session_ttl, stage: LoginStage::Done, account: None },
                    LoginAction::Refuse {
                        count_failure: false,
                        status: 429,
                        detail: owned("account locked"),
                        error: ApiError::AccountLocked(msg),
                    },
                )
            },
            LoginEvent::UserLock(None) => (
                LoginFlow { username, ip, now, session_ttl, stage: LoginStage::LookupUser, account },
                LoginAction::LookupUser,
            ),
            LoginEvent::Account(None) => {
                let mut detail = owned("unknown user (from ");
                push_str(&mut detail, ip.as_str());
                push_str(&mut detail, ")");
                (
                    LoginFlow { username, ip, now, session_ttl, stage: LoginStage::Done, account: None },
                    LoginAction::Refuse { count_failure: true, status: 401, detail, error: ApiError::Unauthorized },
                )
            },
            LoginEvent::Account(Some(u)) => (
                LoginFlow { username, ip, now, session_ttl, stage: LoginStage::VerifyPassword, account: Some(u) },
                LoginAction::VerifyPassword,
            ),
            LoginEvent::Password(Err(e)) => {
                let mut detail = owned("bad password (from ");
                push_str(&mut detail, ip.as_str());
                push_str(&mut detail, ")");
                (
                    LoginFlow { username, ip, now, session_ttl, stage: LoginStage::Done, account: None },
                    LoginAction::Refuse { count_failure: true, status: 401, detail, error: e },
                )
            },
            LoginEvent::Password(Ok(())) => {
                let expires_at = now + session_ttl;
                let user = account.unwrap();
                (
                    LoginFlow { username, ip, now, session_ttl, stage: LoginStage::Done, account: None },
                    LoginAction::Accept { user, expires_at },
                )
            },
        }
    }
}

} // verus!
