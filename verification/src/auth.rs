//! Who may use the server: nobody is asked (`none`), or users log in with a
//! name and a password and get a session token (`userpass`).

use vstd::prelude::*;
use vstd::string::*;
use dashmap::DashMap;
use crate::clock::now_timestamp;
use crate::config::{get_property, property, AuthConfig, PropertyValue};
use crate::duration::Duration;
use crate::entries::{
    keys_where, lemma_listed_where_none, lemma_listed_where_step, lemma_listing_count,
    listed_where, lists_map,
};
use crate::error::DoomsdayError;
use crate::ident::new_uuid;
use crate::text::{concat, str_eq};
use crate::types::{AuthRequest, AuthResponse};

verus! {

#[verifier::external_type_specification]
#[verifier::external_body]
pub struct ExBcryptError(bcrypt::BcryptError);

/// What checking a password against a bcrypt hash gives: whether it matches,
/// or nothing where the hash is malformed.
pub uninterp spec fn bcrypt_check(password: Seq<char>, hash: Seq<char>) -> Option<bool>;

/// Trusted: `bcrypt::hash` at the default cost. The salt is random, so the
/// hash differs from call to call; every hash it gives is one that the
/// password checks against.
#[verifier::external_body]
fn bcrypt_hash(password: &str) -> (r: Result<String, bcrypt::BcryptError>)
    ensures
        r matches Ok(h) ==> bcrypt_check(password@, h@) == Some(true),
{
    bcrypt::hash(password, bcrypt::DEFAULT_COST)
}

/// Trusted: `bcrypt::verify`. The result depends on the password and the
/// hash alone.
#[verifier::external_body]
fn bcrypt_verify(password: &str, hash: &str) -> (r: Result<bool, bcrypt::BcryptError>)
    ensures
        match r {
            Ok(b) => bcrypt_check(password@, hash@) == Some(b),
            Err(_) => bcrypt_check(password@, hash@) is None,
        },
{
    bcrypt::verify(password, hash)
}

/// Trusted: the text that `bcrypt::BcryptError` displays. Nothing is claimed
/// of it.
#[verifier::external_body]
fn bcrypt_error_text(e: &bcrypt::BcryptError) -> (r: String) {
    e.to_string()
}

/// A session: who logged in, when, until when the token is good, and when
/// it was last used.
#[derive(Debug)]
pub struct SessionInfo {
    pub username: String,
    pub created_at: i64,
    pub expires_at: i64,
    pub last_used: i64,
}

pub struct SessionView {
    pub username: Seq<char>,
    pub created_at: int,
    pub expires_at: int,
    pub last_used: int,
}

impl View for SessionInfo {
    type V = SessionView;

    open spec fn view(&self) -> SessionView {
        SessionView {
            username: self.username@,
            created_at: self.created_at as int,
            expires_at: self.expires_at as int,
            last_used: self.last_used as int,
        }
    }
}

impl Clone for SessionInfo {
    fn clone(&self) -> (r: Self)
        ensures
            r@ == self@,
    {
        SessionInfo {
            username: self.username.clone(),
            created_at: self.created_at,
            expires_at: self.expires_at,
            last_used: self.last_used,
        }
    }
}

/// What a map of sessions holds: for each token, the view of its session.
pub uninterp spec fn session_entries(m: DashMap<String, SessionInfo>) -> Map<Seq<char>, SessionView>;

/// The map without sessions.
pub open spec fn no_sessions() -> Map<Seq<char>, SessionView> {
    Map::empty()
}

/// The tokens of a listing of sessions.
pub open spec fn session_keys(s: Seq<(String, SessionInfo)>) -> Seq<Seq<char>> {
    s.map_values(|e: (String, SessionInfo)| e.0@)
}

/// The sessions of a listing of sessions.
pub open spec fn session_values(s: Seq<(String, SessionInfo)>) -> Seq<SessionView> {
    s.map_values(|e: (String, SessionInfo)| e.1@)
}

/// Trusted: `DashMap::new` gives a map that holds nothing.
#[verifier::external_body]
fn sessions_new() -> (m: DashMap<String, SessionInfo>)
    ensures
        session_entries(m) == no_sessions(),
{
    DashMap::new()
}

/// Trusted: `DashMap::get` finds the session stored under exactly this token,
/// if there is one; the wrapper hands out a copy of it.
#[verifier::external_body]
fn sessions_get(m: &DashMap<String, SessionInfo>, token: &str) -> (r: Option<SessionInfo>)
    ensures
        match r {
            Some(v) => session_entries(*m).contains_key(token@) && session_entries(*m)[token@]
                == v@,
            None => !session_entries(*m).contains_key(token@),
        },
{
    m.get(token).map(|entry| entry.value().clone())
}

/// Trusted: `DashMap::insert` stores the session under the token, replacing
/// what was there, and leaves every other session as it was.
#[verifier::external_body]
fn sessions_insert(m: &mut DashMap<String, SessionInfo>, token: String, value: SessionInfo)
    ensures
        session_entries(*final(m)) == session_entries(*old(m)).insert(token@, value@),
{
    m.insert(token, value);
}

/// Trusted: `DashMap::remove` takes out the session under the token, if
/// there is one; every other session stays.
#[verifier::external_body]
fn sessions_remove(m: &mut DashMap<String, SessionInfo>, token: &str)
    ensures
        session_entries(*final(m)) == session_entries(*old(m)).remove(token@),
{
    m.remove(token);
}

/// Trusted: `DashMap::iter` visits every session exactly once, in an order
/// that is not specified; the wrapper copies each token and session as it
/// comes.
#[verifier::external_body]
fn sessions_snapshot(m: &DashMap<String, SessionInfo>) -> (r: Vec<(String, SessionInfo)>)
    ensures
        lists_map(session_keys(r@), session_values(r@), session_entries(*m)),
{
    m.iter().map(|entry| (entry.key().clone(), entry.value().clone())).collect()
}

/// The instant `span` seconds after `now`, kept within what 64 bits hold.
pub open spec fn instant_plus(now: i64, span: i64) -> i64 {
    if now + span > i64::MAX {
        i64::MAX
    } else if now + span < i64::MIN {
        i64::MIN
    } else {
        (now + span) as i64
    }
}

/// The instant `span` seconds after `now`, kept within what 64 bits hold.
pub fn instant_after(now: i64, span: i64) -> (r: i64)
    ensures
        r == instant_plus(now, span),
{
    let sum: i128 = now as i128 + span as i128;
    if sum > i64::MAX as i128 {
        i64::MAX
    } else if sum < i64::MIN as i128 {
        i64::MIN
    } else {
        sum as i64
    }
}

/// The sessions that have not expired at the instant `now`.
pub open spec fn unexpired(sessions: Map<Seq<char>, SessionView>, now: int) -> Map<
    Seq<char>,
    SessionView,
> {
    sessions.remove_keys(keys_where(sessions, |s: SessionView| s.expires_at < now))
}

/// Whether `token` stands for a session that has not expired at `now`.
pub open spec fn token_valid(sessions: Map<Seq<char>, SessionView>, token: Seq<char>, now: int) -> bool {
    unexpired(sessions, now).contains_key(token)
}

/// The sessions after `token` was presented at `now`: the expired ones are
/// gone; where the token is valid and sessions are refreshed on use, its
/// session was last used now and is good for the whole timeout again.
pub open spec fn sessions_after_use(
    sessions: Map<Seq<char>, SessionView>,
    token: Seq<char>,
    now: i64,
    timeout: i64,
    refresh_on_use: bool,
) -> Map<Seq<char>, SessionView> {
    let live = unexpired(sessions, now as int);
    if live.contains_key(token) && refresh_on_use {
        live.insert(
            token,
            SessionView {
                last_used: now as int,
                expires_at: instant_plus(now, timeout) as int,
                ..live[token]
            },
        )
    } else {
        live
    }
}

/// The session of a user who logged in at `now`.
pub open spec fn fresh_session(username: Seq<char>, now: i64, timeout: i64) -> SessionView {
    SessionView {
        username,
        created_at: now as int,
        expires_at: instant_plus(now, timeout) as int,
        last_used: now as int,
    }
}

/// A token that was revoked is not valid, at whatever instant it is
/// presented next.
pub proof fn lemma_revoked_token_is_invalid(
    sessions: Map<Seq<char>, SessionView>,
    token: Seq<char>,
    now: int,
)
    ensures
        !token_valid(sessions.remove(token), token, now),
{
}

/// The password hash stored for `username` among the first `n` users: that
/// of the last user of that name.
pub open spec fn password_hash(users: Seq<(String, String)>, username: Seq<char>, n: int) -> Option<
    Seq<char>,
>
    decreases n,
{
    if n <= 0 {
        None
    } else if users[n - 1].0@ == username {
        Some(users[n - 1].1@)
    } else {
        password_hash(users, username, n - 1)
    }
}

/// What a provider of authentication does.
pub trait AuthProvider {
    /// Whether requests must carry a token.
    spec fn spec_requires_auth(&self) -> bool;

    /// Logs a user in.
    fn authenticate(&mut self, request: &AuthRequest) -> (r: Result<AuthResponse, DoomsdayError>);

    /// Whether `token` is good now.
    fn validate_token(&mut self, token: &str) -> (r: Result<bool, DoomsdayError>);

    /// Makes `token` no good from now on.
    fn revoke_token(&mut self, token: &str) -> (r: Result<(), DoomsdayError>);

    /// Whether requests must carry a token.
    fn requires_auth(&self) -> (r: bool)
        ensures
            r == self.spec_requires_auth(),
    ;
}

/// The provider that asks nobody: every token is good, and nobody can log
/// in.
#[derive(Debug)]
pub struct NopAuthProvider;

impl NopAuthProvider {
    pub fn new() -> (r: Self)
        ensures
            !r.spec_requires_auth(),
    {
        NopAuthProvider
    }
}

impl AuthProvider for NopAuthProvider {
    open spec fn spec_requires_auth(&self) -> bool {
        false
    }

    fn authenticate(&mut self, request: &AuthRequest) -> (r: Result<AuthResponse, DoomsdayError>)
        ensures
            r matches Err(DoomsdayError::Auth(m)) && m@ == "Authentication not required"@,
    {
        Err(DoomsdayError::auth("Authentication not required"))
    }

    fn validate_token(&mut self, token: &str) -> (r: Result<bool, DoomsdayError>)
        ensures
            r == Ok::<bool, DoomsdayError>(true),
    {
        Ok(true)
    }

    fn revoke_token(&mut self, token: &str) -> (r: Result<(), DoomsdayError>)
        ensures
            r is Ok,
    {
        Ok(())
    }

    fn requires_auth(&self) -> (r: bool) {
        false
    }
}

/// The provider that knows users by name and password hash and keeps their
/// sessions.
pub struct UserPassAuthProvider {
    users: Vec<(String, String)>,
    sessions: DashMap<String, SessionInfo>,
    session_timeout: Duration,
    refresh_on_use: bool,
}

/// The timeout in minutes that the settings give: the number under
/// `session_timeout`, or 60 where there is none.
pub open spec fn configured_timeout_minutes(properties: Seq<(String, PropertyValue)>) -> u64 {
    match property(properties, "session_timeout"@) {
        Some(PropertyValue::Integer(n)) => n,
        _ => 60,
    }
}

/// Minutes in seconds, with as many minutes as 64 bits hold in seconds at
/// most.
pub open spec fn timeout_seconds(minutes: u64) -> i64 {
    if minutes > 153722867280912930 {
        9223372036854775800
    } else {
        (minutes * 60) as i64
    }
}

/// Whether sessions are refreshed on use by the settings: the truth value
/// under `refresh_on_use`, or yes where there is none.
pub open spec fn configured_refresh(properties: Seq<(String, PropertyValue)>) -> bool {
    match property(properties, "refresh_on_use"@) {
        Some(PropertyValue::Bool(b)) => b,
        _ => true,
    }
}

/// The table of users in the settings, where there is one.
pub open spec fn configured_users(properties: Seq<(String, PropertyValue)>) -> Option<
    Seq<(PropertyValue, PropertyValue)>,
> {
    match property(properties, "users"@) {
        Some(PropertyValue::Mapping(pairs)) => Some(pairs@),
        _ => None,
    }
}

/// Whether `user` is what is kept of the line `pair` of the table of users:
/// the name, and a hash that the password checks against.
pub open spec fn user_stored(user: (String, String), pair: (PropertyValue, PropertyValue)) -> bool {
    pair.0.spec_as_str() == Some(user.0@) && match pair.1.spec_as_str() {
        Some(password) => bcrypt_check(password, user.1@) == Some(true),
        None => false,
    }
}

/// What is wrong with one line of the table of users, if anything.
pub open spec fn user_fault(pair: (PropertyValue, PropertyValue)) -> Option<Seq<char>> {
    if pair.0.spec_as_str() is None {
        Some("Username must be a string"@)
    } else if pair.1.spec_as_str() is None {
        Some("Password must be a string"@)
    } else {
        None
    }
}

/// The fault of the first faulty line among the first `n`.
pub open spec fn first_user_fault(pairs: Seq<(PropertyValue, PropertyValue)>, n: int) -> Option<
    Seq<char>,
>
    decreases n,
{
    if n <= 0 {
        None
    } else {
        match first_user_fault(pairs, n - 1) {
            Some(m) => Some(m),
            None => user_fault(pairs[n - 1]),
        }
    }
}

/// Where the first `n` lines have no fault, and there is a first line, that
/// line has none.
pub proof fn lemma_no_fault_at_start(pairs: Seq<(PropertyValue, PropertyValue)>, n: int)
    requires
        1 <= n,
        first_user_fault(pairs, n) is None,
    ensures
        user_fault(pairs[0]) is None,
    decreases n,
{
    if n > 1 {
        lemma_no_fault_at_start(pairs, n - 1);
    }
}

/// Once a faulty line is found among the first `n`, its fault is the one
/// found among any more.
pub proof fn lemma_user_fault_stays(pairs: Seq<(PropertyValue, PropertyValue)>, n: int, more: int)
    requires
        0 <= n <= more,
        first_user_fault(pairs, n) is Some,
    ensures
        first_user_fault(pairs, more) == first_user_fault(pairs, n),
    decreases more - n,
{
    if n < more {
        lemma_user_fault_stays(pairs, n, more - 1);
    }
}

impl UserPassAuthProvider {
    /// The users, each with the hash of the password, in the order given.
    pub closed spec fn users(&self) -> Seq<(String, String)> {
        self.users@
    }

    /// The sessions, by token.
    pub closed spec fn sessions(&self) -> Map<Seq<char>, SessionView> {
        session_entries(self.sessions)
    }

    /// How long a session is good for.
    pub closed spec fn session_timeout(&self) -> Duration {
        self.session_timeout
    }

    /// Whether using a token makes its session good for the whole timeout
    /// again.
    pub closed spec fn refresh_on_use(&self) -> bool {
        self.refresh_on_use
    }

    /// Whether only the sessions differ between `self` and `other`.
    pub open spec fn same_settings(&self, other: &Self) -> bool {
        &&& self.users() == other.users()
        &&& self.session_timeout() == other.session_timeout()
        &&& self.refresh_on_use() == other.refresh_on_use()
    }

    /// The hash stored for `username`.
    pub open spec fn hash_of(&self, username: Seq<char>) -> Option<Seq<char>> {
        password_hash(self.users(), username, self.users().len() as int)
    }

    /// Whether `p` is the provider that the settings `properties` describe:
    /// it knows the users in the table, each by a hash that the password checks
    /// against, has no session, and has the timeout and the refreshing that the
    /// settings give.
    pub open spec fn configured(p: Self, properties: Seq<(String, PropertyValue)>) -> bool {
        configured_users(properties) matches Some(pairs) && first_user_fault(
            pairs,
            pairs.len() as int,
        ) is None && p.users().len() == pairs.len() && (forall|i: int|
            0 <= i < pairs.len() ==> user_stored(#[trigger] p.users()[i], pairs[i])) && p.sessions()
            == no_sessions() && p.session_timeout().seconds == timeout_seconds(
            configured_timeout_minutes(properties),
        ) && p.refresh_on_use() == configured_refresh(properties)
    }

    /// Whether `e` is an error that the settings `properties` can give: a
    /// configuration error that says that the table of users is missing or
    /// which line of it is the first faulty one, or an authentication error
    /// about a password that could not be hashed.
    pub open spec fn refused(e: DoomsdayError, properties: Seq<(String, PropertyValue)>) -> bool {
        match configured_users(properties) {
            None => e matches DoomsdayError::Config(m) && m@
                == "userpass auth requires users configuration"@,
            Some(pairs) => match e {
                DoomsdayError::Config(m) => first_user_fault(pairs, pairs.len() as int) == Some(m@),
                DoomsdayError::Auth(m) => "Failed to hash password: "@.is_prefix_of(m@)
                    && pairs.len() > 0 && user_fault(pairs[0]) is None,
                _ => false,
            },
        }
    }

    /// Whether `r` is as the settings `properties` demand where no hash
    /// decides: without a table of users it is an error; an empty table of
    /// users gives a provider; and a table whose first line is faulty gives the
    /// configuration error that says so.
    pub open spec fn owed(r: Result<Self, DoomsdayError>, properties: Seq<(String, PropertyValue)>) -> bool {
        match configured_users(properties) {
            None => r is Err,
            Some(pairs) => if pairs.len() == 0 {
                r is Ok
            } else {
                match user_fault(pairs[0]) {
                    Some(fault) => r matches Err(DoomsdayError::Config(m)) && m@ == fault,
                    None => true,
                }
            },
        }
    }

    /// Whether `after` is `before` once `token` was presented at some instant
    /// and found to be good or not, as `valid` says.
    pub open spec fn presented(before: &Self, after: &Self, token: Seq<char>, valid: bool) -> bool {
        after.same_settings(before) && exists|now: i64|
            valid == #[trigger] token_valid(before.sessions(), token, now as int)
                && after.sessions() == sessions_after_use(
                before.sessions(),
                token,
                now,
                before.session_timeout().seconds,
                before.refresh_on_use(),
            )
    }

    /// Whether `after` is `before` once the user of `request` logged in at
    /// some instant and was answered with `response`.
    pub open spec fn logged_in(
        before: &Self,
        after: &Self,
        request: &AuthRequest,
        response: &AuthResponse,
    ) -> bool {
        after.same_settings(before) && (match before.hash_of(request.username@) {
            Some(hash) => bcrypt_check(request.password@, hash) == Some(true),
            None => false,
        }) && exists|now: i64|
            response.expires_at == instant_plus(now, before.session_timeout().seconds)
                && after.sessions() == (#[trigger] unexpired(before.sessions(), now as int)).insert(
                response.token@,
                fresh_session(request.username@, now, before.session_timeout().seconds),
            )
    }

    /// Whether the credentials of `request` are those of a user that `self`
    /// knows.
    pub open spec fn accepts(&self, request: &AuthRequest) -> bool {
        match self.hash_of(request.username@) {
            Some(hash) => bcrypt_check(request.password@, hash) == Some(true),
            None => false,
        }
    }

    /// A provider with these users, each given with the hash of the password,
    /// and no session.
    pub fn new(users: Vec<(String, String)>, session_timeout: Duration, refresh_on_use: bool) -> (r:
        Self)
        ensures
            r.users() == users@,
            r.sessions() == no_sessions(),
            r.session_timeout() == session_timeout,
            r.refresh_on_use() == refresh_on_use,
    {
        UserPassAuthProvider { users, sessions: sessions_new(), session_timeout, refresh_on_use }
    }

    /// A provider with the settings in `properties`: a table of users under
    /// `users`, each a name with a password, which must be there; the session
    /// timeout in minutes under `session_timeout` (60 where it is not set); and
    /// `refresh_on_use` (yes where it is not set). Passwords are kept as hashes.
    /// Refused as a configuration error for the first line of the table that is
    /// no name with a password, and as an authentication error where a password
    /// cannot be hashed.
    pub fn from_config(properties: &Vec<(String, PropertyValue)>) -> (r: Result<Self, DoomsdayError>)
        ensures
            match r {
                Ok(p) => UserPassAuthProvider::configured(p, properties@),
                Err(e) => UserPassAuthProvider::refused(e, properties@),
            },
            UserPassAuthProvider::owed(r, properties@),
    {
        let pairs = match get_property(properties, "users") {
            Some(PropertyValue::Mapping(pairs)) => pairs,
            _ => {
                return Err(DoomsdayError::config("userpass auth requires users configuration"));
            },
        };
        let mut users: Vec<(String, String)> = Vec::new();
        let mut i: usize = 0;
        while i < pairs.len()
            invariant
                i <= pairs.len(),
                configured_users(properties@) == Some(pairs@),
                first_user_fault(pairs@, i as int) is None,
                users.len() == i,
                forall|j: int| 0 <= j < i ==> user_stored(#[trigger] users@[j], pairs@[j]),
            decreases pairs.len() - i,
        {
            proof {
                assert(first_user_fault(pairs@, i + 1) == user_fault(pairs@[i as int]));
                if user_fault(pairs@[i as int]) is Some {
                    lemma_user_fault_stays(pairs@, i + 1, pairs@.len() as int);
                }
                if i > 0 {
                    lemma_no_fault_at_start(pairs@, i as int);
                }
            }
            let username = match pairs[i].0.as_str() {
                Some(s) => s,
                None => {
                    return Err(DoomsdayError::config("Username must be a string"));
                },
            };
            let password = match pairs[i].1.as_str() {
                Some(s) => s,
                None => {
                    return Err(DoomsdayError::config("Password must be a string"));
                },
            };
            let hash = match bcrypt_hash(password) {
                Ok(h) => h,
                Err(e) => {
                    let detail = bcrypt_error_text(&e);
                    let msg = concat("Failed to hash password: ", detail.as_str());
                    return Err(DoomsdayError::auth(msg.as_str()));
                },
            };
            users.push((String::from_str(username), hash));
            i += 1;
        }
        proof {
            if pairs@.len() > 0 {
                lemma_no_fault_at_start(pairs@, pairs@.len() as int);
            }
        }
        let minutes: u64 = match get_property(properties, "session_timeout") {
            Some(PropertyValue::Integer(n)) => *n,
            _ => 60,
        };
        let seconds: i64 = if minutes > 153722867280912930 {
            9223372036854775800
        } else {
            (minutes * 60) as i64
        };
        let refresh_on_use = match get_property(properties, "refresh_on_use") {
            Some(PropertyValue::Bool(b)) => *b,
            _ => true,
        };
        Ok(UserPassAuthProvider::new(users, Duration::seconds(seconds), refresh_on_use))
    }

    /// Forgets the sessions that have expired at the instant `now`.
    pub fn cleanup_expired_sessions(&mut self, now: i64)
        ensures
            final(self).sessions() == unexpired(old(self).sessions(), now as int),
            final(self).same_settings(old(self)),
    {
        let ghost before = self.sessions();
        let ghost pred = |s: SessionView| s.expires_at < now as int;
        let snapshot = sessions_snapshot(&self.sessions);
        let ghost keys = session_keys(snapshot@);
        let ghost vals = session_values(snapshot@);
        proof {
            lemma_listed_where_none(keys, vals, pred);
            assert(before.remove_keys(Set::<Seq<char>>::empty()) =~= before);
        }
        let mut i: usize = 0;
        while i < snapshot.len()
            invariant
                i <= snapshot.len(),
                keys == session_keys(snapshot@),
                vals == session_values(snapshot@),
                keys.len() == vals.len() == snapshot.len(),
                pred == |s: SessionView| s.expires_at < now as int,
                self.sessions() == before.remove_keys(listed_where(keys, vals, pred, i as int)),
                self.same_settings(old(self)),
            decreases snapshot.len() - i,
        {
            proof {
                lemma_listed_where_step(keys, vals, pred, i as int);
                assert(vals[i as int] == snapshot@[i as int].1@);
            }
            if snapshot[i].1.expires_at < now {
                sessions_remove(&mut self.sessions, snapshot[i].0.as_str());
                proof {
                    let found = listed_where(keys, vals, pred, i as int);
                    assert(before.remove_keys(found).remove(keys[i as int]) =~= before.remove_keys(
                        found.insert(keys[i as int]),
                    ));
                }
            }
            i += 1;
        }
        proof {
            lemma_listing_count(keys, vals, before, pred);
        }
    }

    fn find_hash(&self, username: &str) -> (r: Option<&str>)
        ensures
            match r {
                Some(h) => self.hash_of(username@) == Some(h@),
                None => self.hash_of(username@) is None,
            },
    {
        let mut n: usize = self.users.len();
        while n > 0
            invariant
                n <= self.users.len(),
                password_hash(self.users@, username@, self.users@.len() as int) == password_hash(
                    self.users@,
                    username@,
                    n as int,
                ),
            decreases n,
        {
            if str_eq(self.users[n - 1].0.as_str(), username) {
                return Some(self.users[n - 1].1.as_str());
            }
            n -= 1;
        }
        None
    }

    /// Logs a user in at the instant `now`, with `token` as the token of the
    /// new session. The expired sessions are forgotten first. Refused as an
    /// authentication error where the user is unknown or the password does not
    /// match.
    pub fn authenticate_with(&mut self, request: &AuthRequest, token: String, now: i64) -> (r:
        Result<AuthResponse, DoomsdayError>)
        ensures
            final(self).same_settings(old(self)),
            match r {
                Ok(response) => old(self).hash_of(request.username@) matches Some(hash)
                    && bcrypt_check(request.password@, hash) == Some(true) && response.token@
                    == token@ && response.expires_at == instant_plus(
                    now,
                    old(self).session_timeout().seconds,
                ) && final(self).sessions() == unexpired(old(self).sessions(), now as int).insert(
                    token@,
                    fresh_session(request.username@, now, old(self).session_timeout().seconds),
                ),
                Err(e) => e matches DoomsdayError::Auth(m) && final(self).sessions() == unexpired(
                    old(self).sessions(),
                    now as int,
                ) && match old(self).hash_of(request.username@) {
                    None => m@ == "Invalid credentials"@,
                    Some(hash) => match bcrypt_check(request.password@, hash) {
                        Some(matches) => !matches && m@ == "Invalid credentials"@,
                        None => "Password verification failed: "@.is_prefix_of(m@),
                    },
                },
            },
    {
        self.cleanup_expired_sessions(now);
        let hash = match self.find_hash(request.username.as_str()) {
            Some(h) => h,
            None => {
                return Err(DoomsdayError::auth("Invalid credentials"));
            },
        };
        let valid = match bcrypt_verify(request.password.as_str(), hash) {
            Ok(v) => v,
            Err(e) => {
                let detail = bcrypt_error_text(&e);
                let msg = concat("Password verification failed: ", detail.as_str());
                return Err(DoomsdayError::auth(msg.as_str()));
            },
        };
        if !valid {
            return Err(DoomsdayError::auth("Invalid credentials"));
        }
        let expires_at = instant_after(now, self.session_timeout.seconds);
        let session = SessionInfo {
            username: request.username.clone(),
            created_at: now,
            expires_at,
            last_used: now,
        };
        sessions_insert(&mut self.sessions, token.clone(), session);
        Ok(AuthResponse { token, expires_at })
    }

    /// Whether `token` is good at the instant `now`. The expired sessions are
    /// forgotten first; where sessions are refreshed on use, a good token is
    /// good for the whole timeout again. Never fails.
    pub fn validate_token_at(&mut self, token: &str, now: i64) -> (r: Result<bool, DoomsdayError>)
        ensures
            final(self).same_settings(old(self)),
            r matches Ok(valid) && valid == token_valid(old(self).sessions(), token@, now as int),
            final(self).sessions() == sessions_after_use(
                old(self).sessions(),
                token@,
                now,
                old(self).session_timeout().seconds,
                old(self).refresh_on_use(),
            ),
    {
        self.cleanup_expired_sessions(now);
        match sessions_get(&self.sessions, token) {
            None => Ok(false),
            Some(session) => {
                if self.refresh_on_use {
                    let refreshed = SessionInfo {
                        username: session.username,
                        created_at: session.created_at,
                        expires_at: instant_after(now, self.session_timeout.seconds),
                        last_used: now,
                    };
                    sessions_insert(&mut self.sessions, String::from_str(token), refreshed);
                }
                Ok(true)
            },
        }
    }
}

impl AuthProvider for UserPassAuthProvider {
    open spec fn spec_requires_auth(&self) -> bool {
        true
    }

    /// Logs a user in at the instant the clock shows, under a fresh random
    /// token. Refused as an authentication error where the user is unknown or
    /// the password does not match.
    fn authenticate(&mut self, request: &AuthRequest) -> (r: Result<AuthResponse, DoomsdayError>)
        ensures
            final(self).same_settings(old(self)),
            match r {
                Ok(response) => UserPassAuthProvider::logged_in(
                    old(self),
                    final(self),
                    request,
                    &response,
                ),
                Err(e) => e is Auth && !old(self).accepts(request),
            },
    {
        let token = new_uuid();
        let now = now_timestamp();
        self.authenticate_with(request, token, now)
    }

    /// Whether `token` is good at the instant the clock shows. A token that
    /// stands for no session is never good.
    fn validate_token(&mut self, token: &str) -> (r: Result<bool, DoomsdayError>)
        ensures
            r matches Ok(valid) && UserPassAuthProvider::presented(
                old(self),
                final(self),
                token@,
                valid,
            ),
            !old(self).sessions().contains_key(token@) ==> r == Ok::<bool, DoomsdayError>(false),
    {
        let now = now_timestamp();
        self.validate_token_at(token, now)
    }

    /// Forgets the session of `token`: from now on the token is not good.
    /// Never fails.
    fn revoke_token(&mut self, token: &str) -> (r: Result<(), DoomsdayError>)
        ensures
            r is Ok,
            final(self).same_settings(old(self)),
            final(self).sessions() == old(self).sessions().remove(token@),
            !final(self).sessions().contains_key(token@),
    {
        sessions_remove(&mut self.sessions, token);
        Ok(())
    }

    fn requires_auth(&self) -> (r: bool) {
        true
    }
}

/// A provider of one of the two kinds.
pub enum AuthProviderKind {
    Nop(NopAuthProvider),
    UserPass(UserPassAuthProvider),
}

impl AuthProvider for AuthProviderKind {
    open spec fn spec_requires_auth(&self) -> bool {
        self is UserPass
    }

    fn authenticate(&mut self, request: &AuthRequest) -> (r: Result<AuthResponse, DoomsdayError>)
        ensures
            match (*old(self), *final(self)) {
                (AuthProviderKind::Nop(_), AuthProviderKind::Nop(_)) => r is Err,
                (AuthProviderKind::UserPass(before), AuthProviderKind::UserPass(after)) => match r {
                    Ok(response) => UserPassAuthProvider::logged_in(
                        &before,
                        &after,
                        request,
                        &response,
                    ),
                    Err(e) => e is Auth && !before.accepts(request) && after.same_settings(&before),
                },
                _ => false,
            },
    {
        match self {
            AuthProviderKind::Nop(p) => p.authenticate(request),
            AuthProviderKind::UserPass(p) => p.authenticate(request),
        }
    }

    fn validate_token(&mut self, token: &str) -> (r: Result<bool, DoomsdayError>)
        ensures
            match (*old(self), *final(self)) {
                (AuthProviderKind::Nop(_), AuthProviderKind::Nop(_)) => r == Ok::<
                    bool,
                    DoomsdayError,
                >(true),
                (AuthProviderKind::UserPass(before), AuthProviderKind::UserPass(after)) => r
                    matches Ok(valid) && UserPassAuthProvider::presented(
                    &before,
                    &after,
                    token@,
                    valid,
                ) && (!before.sessions().contains_key(token@) ==> !valid),
                _ => false,
            },
    {
        match self {
            AuthProviderKind::Nop(p) => p.validate_token(token),
            AuthProviderKind::UserPass(p) => p.validate_token(token),
        }
    }

    fn revoke_token(&mut self, token: &str) -> (r: Result<(), DoomsdayError>)
        ensures
            r is Ok,
            match (*old(self), *final(self)) {
                (AuthProviderKind::Nop(_), AuthProviderKind::Nop(_)) => true,
                (AuthProviderKind::UserPass(before), AuthProviderKind::UserPass(after)) => {
                    after.same_settings(&before) && after.sessions() == before.sessions().remove(
                        token@,
                    )
                },
                _ => false,
            },
    {
        match self {
            AuthProviderKind::Nop(p) => p.revoke_token(token),
            AuthProviderKind::UserPass(p) => p.revoke_token(token),
        }
    }

    fn requires_auth(&self) -> (r: bool) {
        match self {
            AuthProviderKind::Nop(_) => false,
            AuthProviderKind::UserPass(_) => true,
        }
    }
}

/// Whether `provider` is the one that the configuration `config` describes.
pub open spec fn provider_for(provider: AuthProviderKind, config: AuthConfig) -> bool {
    match provider {
        AuthProviderKind::Nop(_) => config.auth_type@ == "none"@,
        AuthProviderKind::UserPass(p) => config.auth_type@ == "userpass"@
            && UserPassAuthProvider::configured(p, config.properties@),
    }
}

/// Whether `e` is an error that says why the configuration `config`
/// describes no provider: what its settings lack, or that its type names no
/// kind of provider.
pub open spec fn no_provider_for(e: DoomsdayError, config: AuthConfig) -> bool {
    if config.auth_type@ == "none"@ {
        false
    } else if config.auth_type@ == "userpass"@ {
        UserPassAuthProvider::refused(e, config.properties@)
    } else {
        e matches DoomsdayError::Config(m) && m@ == "Unknown auth type: "@ + config.auth_type@
    }
}

/// The provider that the configuration `config` describes: `none` asks
/// nobody, `userpass` knows users; any other type is a configuration error.
pub fn create_auth_provider(config: &AuthConfig) -> (r: Result<AuthProviderKind, DoomsdayError>)
    ensures
        match r {
            Ok(provider) => provider_for(provider, *config),
            Err(e) => no_provider_for(e, *config),
        },
{
    proof {
        reveal_strlit("none");
        reveal_strlit("userpass");
    }
    if str_eq(config.auth_type.as_str(), "none") {
        Ok(AuthProviderKind::Nop(NopAuthProvider::new()))
    } else if str_eq(config.auth_type.as_str(), "userpass") {
        match UserPassAuthProvider::from_config(&config.properties) {
            Ok(p) => Ok(AuthProviderKind::UserPass(p)),
            Err(e) => Err(e),
        }
    } else {
        let msg = concat("Unknown auth type: ", config.auth_type.as_str());
        Err(DoomsdayError::config(msg.as_str()))
    }
}

} // verus!
