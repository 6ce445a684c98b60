//! The claims carried by an admin session token.  Signing and verifying
//! the token itself is transport work and happens outside the library.

use vstd::prelude::*;
use vstd::string::StringExecFns;

verus! {

/// Seconds an admin token stays valid.
pub const TOKEN_LIFETIME_SECS: i64 = 86400;

/// Claims of an admin session token.
pub struct Claims {
    pub sub: String,
    pub iat: i64,
    pub exp: i64,
}

impl Claims {
    /// The claims issued to the admin at `now`: subject `admin`, valid
    /// for [`TOKEN_LIFETIME_SECS`] (24 hours).
    pub fn for_admin(now: i64) -> (r: Claims)
        requires
            now <= i64::MAX - TOKEN_LIFETIME_SECS,
        ensures
            r.sub@ == "admin"@,
            r.iat == now,
            r.exp == now + TOKEN_LIFETIME_SECS,
    {
        Claims { sub: "admin".to_owned(), iat: now, exp: now + TOKEN_LIFETIME_SECS }
    }

    /// Whether these claims name the admin subject.
    pub fn is_admin(&self) -> (r: bool)
        ensures
            r == (self.sub@ == "admin"@),
    {
        let admin = "admin".to_owned();
        self.sub == admin
    }

    /// Whether the claims are still valid at `now`.
    pub fn is_valid_at(&self, now: i64) -> (r: bool)
        ensures
            r == (self.iat <= now <= self.exp),
    {
        self.iat <= now && now <= self.exp
    }
}

} // verus!
