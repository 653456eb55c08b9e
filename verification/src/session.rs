//! The metadata-provider session: the bearer token and its validity window.
//!
//! The session is process-wide state guarded by a reader/writer discipline at
//! the call site: the cheap `needs_login` check runs under shared access, and
//! a refresh re-checks it under exclusive access before logging in again.
//! What is decided here — when a login is needed and what a login response
//! does to the session — is verified; the HTTP call itself is not part of
//! this type.

use vstd::prelude::*;

verus! {

/// Seconds a fresh login stays valid.
pub const TOKEN_VALIDITY_SECS: u64 = 3600;

/// The session state: a token, and the time it stops being usable.
pub struct AuthSession {
    pub token: Option<String>,
    pub expires_at: Option<u64>,
}

/// A login is needed iff no token is held, or an expiry was recorded and
/// `now` has reached it.
pub open spec fn spec_needs_login(s: AuthSession, now: u64) -> bool {
    match s.token {
        None => true,
        Some(_) => match s.expires_at {
            Some(e) => now >= e,
            None => false,
        },
    }
}

impl AuthSession {
    /// A fresh, unauthenticated session.
    pub fn new() -> (r: AuthSession)
        ensures
            r.token is None,
            r.expires_at is None,
    {
        AuthSession { token: None, expires_at: None }
    }

    pub fn needs_login(&self, now: u64) -> (r: bool)
        ensures
            r == spec_needs_login(*self, now),
    {
        match &self.token {
            Option::None => true,
            Option::Some(_) => match &self.expires_at {
                Option::Some(e) => now >= *e,
                Option::None => false,
            },
        }
    }

    /// Folds one login response into the session. A successful response
    /// installs its token field (present or not) and a fresh expiry of
    /// `now + TOKEN_VALIDITY_SECS`; an unsuccessful response leaves the
    /// session unchanged and yields no token.
    pub fn apply_login_response(&mut self, success: bool, token: Option<String>, now: u64) -> (r:
        Option<String>)
        requires
            now + TOKEN_VALIDITY_SECS <= u64::MAX,
        ensures
            success ==> final(self).token == token && final(self).expires_at == Some(
                (now + TOKEN_VALIDITY_SECS) as u64,
            ),
            !success ==> final(self).token == old(self).token && final(self).expires_at == old(
                self,
            ).expires_at,
            r == if success {
                token
            } else {
                None::<String>
            },
    {
        if success {
            self.token = token;
            self.expires_at = Some(now + TOKEN_VALIDITY_SECS);
            match &self.token {
                Option::Some(s) => Some(s.clone()),
                Option::None => None,
            }
        } else {
            None
        }
    }
}

} // verus!
