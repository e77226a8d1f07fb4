//! Accounts and the claims of a login session.
use vstd::prelude::*;
use crate::text::same_text;

verus! {

/// How long a login session lasts, in seconds.
pub const SESSION_SECONDS: usize = 3600;

/// A stored account. `role` is `"admin"` or `"viewer"`.
#[derive(Debug, Clone)]
pub struct User {
    pub id: i32,
    pub username: String,
    pub hashed_password: String,
    pub role: String,
}

/// An account to be created.
#[derive(Debug, Clone)]
pub struct NewUser {
    pub username: String,
    pub hashed_password: String,
    pub role: String,
}

/// The credentials given at login.
#[derive(Debug, Clone)]
pub struct UserPass {
    pub username: String,
    pub hashed_password: String,
}

/// The claims of a session token: subject, role, and when it was issued and
/// expires, in seconds since the epoch.
#[derive(Debug, Clone)]
pub struct TokenClaims {
    pub sub: String,
    pub role: String,
    pub iat: usize,
    pub exp: usize,
}

impl User {
    pub fn is_admin(&self) -> (r: bool)
        ensures
            r == (self.role@ == "admin"@),
    {
        same_text(self.role.as_str(), "admin")
    }
}

impl TokenClaims {
    /// The claims of a session for `user` opened at `issued_at`, lasting
    /// `SESSION_SECONDS`.
    pub fn for_session(user: &User, issued_at: usize) -> (r: TokenClaims)
        requires
            issued_at <= usize::MAX - SESSION_SECONDS,
        ensures
            r.sub@ == user.username@,
            r.role@ == user.role@,
            r.iat == issued_at,
            r.exp == issued_at + SESSION_SECONDS,
    {
        TokenClaims {
            sub: user.username.clone(),
            role: user.role.clone(),
            iat: issued_at,
            exp: issued_at + SESSION_SECONDS,
        }
    }
}

} // verus!
