//! The claims of a token, and what they permit.

use vstd::prelude::*;

use crate::text::{holds_text, texts_of};
use crate::time::{utc_now, UtcInstant};

verus! {

/// What a token says of its bearer.
#[derive(Clone, Debug, PartialEq, Eq)]
pub struct Claims {
    /// Whom the token speaks of.
    pub sub: String,
    /// Who issued it.
    pub iss: String,
    pub scope: String,
    /// What the bearer may do.
    pub permissions: Vec<String>,
    /// For whom the token is meant.
    pub aud: Vec<String>,
    /// When its time is over, in seconds since 1970-01-01 00:00:00 UTC.
    pub exp: usize,
    /// When it was issued, in the same measure.
    pub iat: usize,
}

impl Claims {
    /// The expiry can be read as an instant of UTC.
    pub open spec fn well_formed(&self) -> bool {
        self.exp <= i64::MAX
    }

    /// The instant at which the time of the token is over.
    pub open spec fn expiry(&self) -> UtcInstant {
        UtcInstant { secs: self.exp as i64, nanos: 0 }
    }

    /// The time of the token is over at `now`: `now` is strictly later than the expiry.
    /// Claims whose expiry cannot be read as an instant are expired at every time.
    pub open spec fn expired_at(&self, now: UtcInstant) -> bool {
        !self.well_formed() || now.secs > self.exp || (now.secs == self.exp && now.nanos > 0)
    }

    /// Whether the time of the token is over by the system clock. Claims whose expiry
    /// cannot be read as an instant are expired, whatever the clock says.
    pub fn is_expired(&self) -> (expired: bool)
        ensures
            !self.well_formed() ==> expired,
    {
        let now = utc_now();
        self.is_expired_at(now)
    }

    /// Whether the time of the token is over at `now`.
    pub fn is_expired_at(&self, now: UtcInstant) -> (expired: bool)
        ensures
            expired == self.expired_at(now),
    {
        if self.exp as u64 > i64::MAX as u64 {
            true
        } else if now.secs < 0 {
            false
        } else {
            let secs = now.secs as u64;
            let exp = self.exp as u64;
            secs > exp || (secs == exp && now.nanos > 0)
        }
    }

    /// The instant at which the time of the token is over.
    pub fn expires_at(&self) -> (at: UtcInstant)
        requires
            self.well_formed(),
        ensures
            at == self.expiry(),
            at.secs == self.exp,
            at.nanos == 0,
    {
        UtcInstant { secs: self.exp as i64, nanos: 0 }
    }

    /// Whether the token grants exactly the permission asked for.
    pub fn has_permission(&self, permission: &str) -> (granted: bool)
        ensures
            granted == texts_of(self.permissions@).contains(permission@),
    {
        holds_text(&self.permissions, permission)
    }

    /// Whether the token is meant for exactly the audience asked for.
    pub fn has_audience(&self, audience: &str) -> (meant: bool)
        ensures
            meant == texts_of(self.aud@).contains(audience@),
    {
        holds_text(&self.aud, audience)
    }

    /// Whom the token speaks of.
    pub fn user_id(&self) -> (id: &str)
        ensures
            id@ == self.sub@,
    {
        self.sub.as_str()
    }
}

/// A token is expired from the first moment after its expiry on, and not before: with
/// the clock one second past the expiry it is, with the clock one second short of it
/// or exactly on it, it is not.
pub proof fn lemma_expiry_boundary(claims: Claims, now: UtcInstant)
    requires
        claims.well_formed(),
    ensures
        claims.expired_at(now) == now.after(claims.expiry()),
        now.secs == claims.exp + 1 ==> claims.expired_at(now),
        now.secs == claims.exp - 1 ==> !claims.expired_at(now),
        now == claims.expiry() ==> !claims.expired_at(now),
{
}

} // verus!
