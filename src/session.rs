use vstd::prelude::*;
use crate::crypto::{SessionKey, KEY_LEN};

verus! {

/// Seconds of inactivity after which a session lapses.
pub const SESSION_TIMEOUT_SECS: u64 = 900;

/// Seconds from `last` to `now`; a clock that went back counts as no time.
pub open spec fn elapsed(last: u64, now: u64) -> int {
    if now >= last {
        now - last
    } else {
        0
    }
}

/// The live key, if any, and the time of the last activity that passed the
/// session check. Without a key the session is unauthenticated.
pub struct Session {
    key: Option<SessionKey>,
    last_activity: u64,
}

impl Session {
    /// The bytes of the live key, if one is installed.
    pub closed spec fn key_view(&self) -> Option<Seq<u8>> {
        match self.key {
            Some(k) => Some(k@),
            None => None,
        }
    }

    /// Time of the last activity, in seconds.
    pub closed spec fn last(&self) -> u64 {
        self.last_activity
    }

    /// An installed key is a full-width key.
    pub open spec fn wf(&self) -> bool {
        self.key_view() matches Some(k) ==> k.len() == KEY_LEN
    }

    /// Authenticated, and used recently enough at time `now`.
    pub open spec fn valid_at(&self, now: u64) -> bool {
        self.key_view() is Some && elapsed(self.last(), now) < SESSION_TIMEOUT_SECS
    }

    /// An unauthenticated session whose clock was never set.
    pub fn new() -> (r: Session)
        ensures
            r.key_view() is None,
            r.last() == 0,
            r.wf(),
    {
        Session { key: None, last_activity: 0 }
    }

    /// Whether the session is valid at `now`; the clock is left as it is.
    pub fn is_valid(&self, now: u64) -> (r: bool)
        ensures
            r == self.valid_at(now),
    {
        let elapsed: u64 = if now >= self.last_activity {
            now - self.last_activity
        } else {
            0
        };
        self.key.is_some() && elapsed < SESSION_TIMEOUT_SECS
    }

    /// The live key, if any.
    pub fn key(&self) -> (r: Option<&SessionKey>)
        ensures
            r matches Some(k) ==> self.key_view() == Some(k@),
            r is None ==> self.key_view() is None,
    {
        match &self.key {
            Some(k) => Some(k),
            None => None,
        }
    }

    /// Erases and drops the live key, if any, and resets the clock to "never".
    pub fn clear(&mut self)
        ensures
            final(self).key_view() is None,
            final(self).last() == 0,
            final(self).wf(),
    {
        if let Some(k) = &mut self.key {
            k.wipe();
        }
        self.key = None;
        self.last_activity = 0;
    }

    /// Erases any earlier key, installs `key` and sets the clock to `now`.
    pub fn install(&mut self, key: SessionKey, now: u64)
        requires
            key@.len() == KEY_LEN,
        ensures
            final(self).key_view() == Some(key@),
            final(self).last() == now,
            final(self).wf(),
    {
        self.clear();
        self.key = Some(key);
        self.last_activity = now;
    }

    /// The check that every privileged operation passes first. A valid session
    /// has its clock refreshed to `now`; a stale one is cleared. Returns whether
    /// the session was valid.
    pub fn enter(&mut self, now: u64) -> (r: bool)
        requires
            old(self).wf(),
        ensures
            r == old(self).valid_at(now),
            r ==> final(self).key_view() == old(self).key_view() && final(self).last() == now,
            !r ==> final(self).key_view() is None && final(self).last() == 0,
            final(self).wf(),
    {
        if self.is_valid(now) {
            self.last_activity = now;
            true
        } else {
            self.clear();
            false
        }
    }
}

/// A session lapses: once `SESSION_TIMEOUT_SECS` or more have passed since the
/// last activity, it is not valid, whatever key it holds.
pub proof fn lemma_session_timeout(s: Session, t0: u64, t: u64)
    requires
        s.last() == t0,
        t >= t0 + SESSION_TIMEOUT_SECS,
    ensures
        !s.valid_at(t),
{
}

/// A cleared session (after logout, a refused password or a lapse) is valid at
/// no time, however recent the last activity was.
pub proof fn lemma_cleared_session_invalid(s: Session, t: u64)
    requires
        s.key_view() is None,
    ensures
        !s.valid_at(t),
{
}

} // verus!
