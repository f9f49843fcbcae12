//! Sessions: the bearer tokens handed out at login, and what each stands for.
use vstd::hash_map::StringHashMap;
use vstd::prelude::*;

use crate::clock::{new_session_token, utc_now_millis};

verus! {

/// Who is logged in.
pub struct UserProfile {
    pub id: i64,
    pub name: String,
    pub login: String,
    pub role: String,
}

impl UserProfile {
    /// Field by field equality of text.
    pub open spec fn eqv(&self, o: &Self) -> bool {
        &&& self.id == o.id
        &&& self.name@ == o.name@
        &&& self.login@ == o.login@
        &&& self.role@ == o.role@
    }

    pub fn duplicate(&self) -> (r: Self)
        ensures
            r.eqv(self),
    {
        UserProfile {
            id: self.id,
            name: self.name.clone(),
            login: self.login.clone(),
            role: self.role.clone(),
        }
    }
}

/// A live session: its token, its user, and when it was issued, in
/// milliseconds since the epoch.
pub struct ActiveSession {
    pub token: String,
    pub profile: UserProfile,
    pub issued_at: i64,
}

impl ActiveSession {
    /// Field by field equality of text.
    pub open spec fn eqv(&self, o: &Self) -> bool {
        &&& self.token@ == o.token@
        &&& self.profile.eqv(&o.profile)
        &&& self.issued_at == o.issued_at
    }

    pub fn duplicate(&self) -> (r: Self)
        ensures
            r.eqv(self),
    {
        ActiveSession {
            token: self.token.clone(),
            profile: self.profile.duplicate(),
            issued_at: self.issued_at,
        }
    }
}

/// The message given for a token that names no session.
pub open spec fn invalid_session_message() -> Seq<char> {
    "Sessão inválida. Faça login novamente."@
}

/// The live sessions, by token.
pub struct SessionStore {
    sessions: StringHashMap<ActiveSession>,
}

impl View for SessionStore {
    type V = Map<Seq<char>, ActiveSession>;

    closed spec fn view(&self) -> Map<Seq<char>, ActiveSession> {
        self.sessions@
    }
}

impl SessionStore {
    /// A store without sessions.
    pub fn new() -> (r: Self)
        ensures
            r@ == Map::<Seq<char>, ActiveSession>::empty(),
    {
        SessionStore { sessions: StringHashMap::new() }
    }

    /// Opens a session for `profile` under a fresh random token.
    pub fn create(&mut self, profile: UserProfile) -> (r: ActiveSession)
        ensures
            r.token@.len() == 36,
            r.profile == profile,
            final(self)@.contains_key(r.token@),
            final(self)@[r.token@].eqv(&r),
            final(self)@.remove(r.token@) == old(self)@.remove(r.token@),
    {
        let token = new_session_token();
        let session = ActiveSession { token: token.clone(), profile, issued_at: utc_now_millis() };
        self.sessions.insert(token, session.duplicate());
        proof {
            assert(final(self)@.remove(session.token@) =~= old(self)@.remove(session.token@));
        }
        session
    }

    /// The session of `token`, if there is one.
    pub fn get(&self, token: &str) -> (r: Option<ActiveSession>)
        ensures
            r is None <==> !self@.contains_key(token@),
            r matches Some(s) ==> s.eqv(&self@[token@]),
    {
        match self.sessions.get(token) {
            Some(s) => Some(s.duplicate()),
            None => None,
        }
    }

    /// The session of `token`, or the message that asks to log in again.
    pub fn require(&self, token: &str) -> (r: Result<ActiveSession, &'static str>)
        ensures
            r is Err <==> !self@.contains_key(token@),
            r matches Ok(s) ==> s.eqv(&self@[token@]),
            r matches Err(m) ==> m@ == invalid_session_message(),
    {
        match self.get(token) {
            Some(s) => Ok(s),
            None => Err("Sessão inválida. Faça login novamente."),
        }
    }

    /// Ends the session of `token`, if there is one.
    pub fn revoke(&mut self, token: &str)
        ensures
            final(self)@ == old(self)@.remove(token@),
    {
        self.sessions.remove(token);
    }
}

impl Default for SessionStore {
    fn default() -> (r: Self)
        ensures
            r@ == Map::<Seq<char>, ActiveSession>::empty(),
    {
        SessionStore::new()
    }
}

/// Length of the window in which login attempts are counted, in ms.
pub const ATTEMPT_WINDOW_MS: i64 = 60_000;

/// Attempts allowed within one window.
pub const MAX_ATTEMPTS: u32 = 5;

/// The record of a login after one more attempt at time `now`: a window
/// older than a minute starts over at one attempt, else the count grows.
pub open spec fn next_attempts(prev: Option<(u32, i64)>, now: i64) -> (u32, i64) {
    let (count, first) = match prev {
        Some(e) => e,
        None => (0u32, now),
    };
    if now - first > ATTEMPT_WINDOW_MS {
        (1u32, now)
    } else if count == u32::MAX {
        (count, first)
    } else {
        ((count + 1) as u32, first)
    }
}

/// `after` is `before` with one more attempt by `login` at time `now`, and
/// `allowed` says whether that attempt may go ahead.
pub open spec fn attempt_recorded(
    before: Map<Seq<char>, (u32, i64)>,
    login: Seq<char>,
    now: i64,
    after: Map<Seq<char>, (u32, i64)>,
    allowed: bool,
) -> bool {
    let prev = if before.contains_key(login) {
        Some(before[login])
    } else {
        None
    };
    let next = next_attempts(prev, now);
    &&& after == before.insert(login, next)
    &&& allowed <==> next.0 <= MAX_ATTEMPTS
}

/// Counts login attempts per login name and refuses more than five in a
/// minute.
pub struct LoginRateLimiter {
    attempts: StringHashMap<(u32, i64)>,
}

impl View for LoginRateLimiter {
    type V = Map<Seq<char>, (u32, i64)>;

    closed spec fn view(&self) -> Map<Seq<char>, (u32, i64)> {
        self.attempts@
    }
}

/// The message given when a login is refused for too many attempts.
pub open spec fn too_many_attempts_message() -> Seq<char> {
    "Muitas tentativas de login. Tente novamente em 1 minuto."@
}

impl LoginRateLimiter {
    /// A limiter that has seen no attempt.
    pub fn new() -> (r: Self)
        ensures
            r@ == Map::<Seq<char>, (u32, i64)>::empty(),
    {
        LoginRateLimiter { attempts: StringHashMap::new() }
    }

    /// Records an attempt to log in as `login` at time `now_ms` and says
    /// whether it may go ahead.
    pub fn check_at(&mut self, login: &str, now_ms: i64) -> (r: Result<(), String>)
        ensures
            attempt_recorded(old(self)@, login@, now_ms, final(self)@, r is Ok),
            r matches Err(m) ==> m@ == too_many_attempts_message(),
    {
        let (count, first) = match self.attempts.get(login) {
            Some(e) => *e,
            None => (0u32, now_ms),
        };
        let next = if (now_ms as i128) - (first as i128) > ATTEMPT_WINDOW_MS as i128 {
            (1u32, now_ms)
        } else if count == u32::MAX {
            (count, first)
        } else {
            (count + 1, first)
        };
        self.attempts.insert(login.to_string(), next);
        if next.0 > MAX_ATTEMPTS {
            Err(String::from_str("Muitas tentativas de login. Tente novamente em 1 minuto."))
        } else {
            Ok(())
        }
    }

    /// Records an attempt to log in as `login` now, by the UTC clock; see
    /// [`Self::check_at`].
    pub fn check(&mut self, login: &str) -> (r: Result<(), String>)
        ensures
            exists|now: i64| #[trigger] attempt_recorded(old(self)@, login@, now, final(self)@, r is Ok),
            r matches Err(m) ==> m@ == too_many_attempts_message(),
    {
        let now = utc_now_millis();
        self.check_at(login, now)
    }
}

impl Default for LoginRateLimiter {
    fn default() -> (r: Self)
        ensures
            r@ == Map::<Seq<char>, (u32, i64)>::empty(),
    {
        LoginRateLimiter::new()
    }
}

/// The answer to a request: the data on success, else a message.
pub struct ApiResponse<T> {
    pub success: bool,
    pub data: Option<T>,
    pub error: Option<String>,
}

impl<T> ApiResponse<T> {
    /// A successful answer carrying `data`.
    pub fn success(data: T) -> (r: Self)
        ensures
            r.success,
            r.data == Some(data),
            r.error is None,
    {
        ApiResponse { success: true, data: Some(data), error: None }
    }

    /// A failed answer carrying the message `error`.
    pub fn error(error: &str) -> (r: Self)
        ensures
            !r.success,
            r.data is None,
            r.error matches Some(e) && e@ == error@,
    {
        ApiResponse { success: false, data: None, error: Some(error.to_string()) }
    }
}

} // verus!
