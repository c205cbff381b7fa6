//! Cookie sessions and CSRF protection, required only when web credentials
//! are configured (LAN mode).

use vstd::prelude::*;
use vstd::utf8::encode_utf8;

use crate::api::ApiError;
use crate::config::Credentials;
use crate::domain::{is_lower_hex, timestamp_before_or_at, timestamp_le, Timestamp};
use crate::socks::{credentials_accepted, digests_equal, sha256, sha256_digest};
use crate::text::{
    chars_eq, chars_to_string, is_unicode_whitespace, lemma_split_rest, lemma_split_through, push_str, split_chars,
    split_on, str_chars, trim, trim_bounds, trim_end, trim_start, views,
};

verus! {

/// Name of the session cookie.
pub const SESSION_COOKIE: &'static str = "vpngate2socks_session";

/// Lifetime of a session in seconds (eight hours).
pub const SESSION_SECONDS: i64 = 28800;

/// A logged-in browser session: its CSRF token and when it expires.
#[derive(Debug)]
pub struct Session {
    pub csrf_token: String,
    pub expires_at: Timestamp,
}

/// What a session holds, as plain values.
pub struct SessionView {
    pub csrf_token: Seq<char>,
    pub expires_at: Timestamp,
}

impl View for Session {
    type V = SessionView;

    open spec fn view(&self) -> SessionView {
        SessionView { csrf_token: self.csrf_token@, expires_at: self.expires_at }
    }
}

pub open spec fn tokens_unique(s: Seq<(String, Session)>) -> bool {
    forall|i: int, j: int| 0 <= i < j < s.len() ==> #[trigger] s[i].0@ != #[trigger] s[j].0@
}

pub open spec fn has_token(s: Seq<(String, Session)>, t: Seq<char>) -> bool {
    exists|i: int| 0 <= i < s.len() && #[trigger] s[i].0@ == t
}

/// The sessions as a map from session token.
pub open spec fn sessions_view(s: Seq<(String, Session)>) -> Map<Seq<char>, SessionView> {
    Map::new(
        |t: Seq<char>| has_token(s, t),
        |t: Seq<char>| s[choose|i: int| 0 <= i < s.len() && #[trigger] s[i].0@ == t].1@,
    )
}

proof fn lemma_sessions_push(s: Seq<(String, Session)>, e: (String, Session))
    requires
        tokens_unique(s),
        !has_token(s, e.0@),
    ensures
        tokens_unique(s.push(e)),
        sessions_view(s.push(e)) =~= sessions_view(s).insert(e.0@, e.1@),
{
    let t = s.push(e);
    assert forall|k: Seq<char>| #[trigger] has_token(t, k) == (has_token(s, k) || k == e.0@) by {
        if has_token(s, k) {
            let j = choose|j: int| 0 <= j < s.len() && #[trigger] s[j].0@ == k;
            assert(t[j].0@ == k);
        }
        if has_token(t, k) && k != e.0@ {
            let j = choose|j: int| 0 <= j < t.len() && #[trigger] t[j].0@ == k;
            assert(s[j].0@ == k);
        }
        if k == e.0@ {
            assert(t[s.len() as int].0@ == k);
        }
    }
    assert forall|k: Seq<char>| #[trigger] sessions_view(t).contains_key(k) implies sessions_view(t)[k]
        == sessions_view(s).insert(e.0@, e.1@)[k] by {
        let j = choose|j: int| 0 <= j < t.len() && #[trigger] t[j].0@ == k;
        if k != e.0@ {
            let m = choose|m: int| 0 <= m < s.len() && #[trigger] s[m].0@ == k;
            assert(j == m);
        } else {
            assert(j == s.len());
        }
    }
}

proof fn lemma_sessions_remove(s: Seq<(String, Session)>, i: int)
    requires
        tokens_unique(s),
        0 <= i < s.len(),
    ensures
        tokens_unique(s.remove(i)),
        sessions_view(s.remove(i)) =~= sessions_view(s).remove(s[i].0@),
{
    let t = s.remove(i);
    let key = s[i].0@;
    assert forall|a: int, b: int| 0 <= a < b < t.len() implies #[trigger] t[a].0@ != #[trigger] t[b].0@ by {
        let a2 = if a < i { a } else { a + 1 };
        let b2 = if b < i { b } else { b + 1 };
        assert(t[a] == s[a2] && t[b] == s[b2]);
    }
    assert forall|k: Seq<char>| #[trigger] has_token(t, k) == (has_token(s, k) && k != key) by {
        if has_token(s, k) && k != key {
            let j = choose|j: int| 0 <= j < s.len() && #[trigger] s[j].0@ == k;
            if j < i {
                assert(t[j].0@ == k);
            } else {
                assert(t[j - 1].0@ == k);
            }
        }
        if has_token(t, k) {
            let j = choose|j: int| 0 <= j < t.len() && #[trigger] t[j].0@ == k;
            let j2 = if j < i { j } else { j + 1 };
            assert(s[j2].0@ == k);
        }
    }
    assert forall|k: Seq<char>| #[trigger] sessions_view(t).contains_key(k) implies sessions_view(t)[k]
        == sessions_view(s).remove(key)[k] by {
        let j = choose|j: int| 0 <= j < t.len() && #[trigger] t[j].0@ == k;
        let m = choose|m: int| 0 <= m < s.len() && #[trigger] s[m].0@ == k;
        let j2 = if j < i { j } else { j + 1 };
        assert(s[j2].0@ == k);
        assert(j2 == m);
    }
}

/// The live sessions, keyed by session token.
pub struct SessionStore {
    entries: Vec<(String, Session)>,
}

impl View for SessionStore {
    type V = Map<Seq<char>, SessionView>;

    closed spec fn view(&self) -> Map<Seq<char>, SessionView> {
        sessions_view(self.entries@)
    }
}

impl SessionStore {
    pub closed spec fn wf(&self) -> bool {
        tokens_unique(self.entries@)
    }

    /// An empty store.
    pub fn new() -> (r: SessionStore)
        ensures
            r.wf(),
            r@ == Map::<Seq<char>, SessionView>::empty(),
    {
        let r = SessionStore { entries: Vec::new() };
        assert(r@ =~= Map::<Seq<char>, SessionView>::empty());
        r
    }

    fn position(&self, token: &str) -> (r: Option<usize>)
        requires
            self.wf(),
        ensures
            match r {
                Some(i) => i < self.entries@.len() && self.entries@[i as int].0@ == token@,
                None => !has_token(self.entries@, token@),
            },
    {
        let t = str_chars(token);
        let mut i: usize = 0;
        while i < self.entries.len()
            invariant
                i <= self.entries@.len(),
                t@ == token@,
                forall|m: int| 0 <= m < i ==> (#[trigger] self.entries@[m]).0@ != token@,
            decreases self.entries.len() - i,
        {
            let k = str_chars(self.entries[i].0.as_str());
            if chars_eq(k.as_slice(), t.as_slice()) {
                return Some(i);
            }
            i = i + 1;
        }
        None
    }

    /// The session stored under `token`.
    pub fn get(&self, token: &str) -> (r: Option<&Session>)
        requires
            self.wf(),
        ensures
            match r {
                Some(s) => self@.contains_key(token@) && self@[token@] == s@,
                None => !self@.contains_key(token@),
            },
    {
        match self.position(token) {
            Some(i) => {
                proof {
                    let s = self.entries@;
                    let j = choose|j: int| 0 <= j < s.len() && #[trigger] s[j].0@ == token@;
                    assert(s[i as int].0@ == token@);
                    assert(j == i);
                }
                Some(&self.entries[i].1)
            },
            None => None,
        }
    }

    /// Removes the session stored under `token`, if any.
    pub fn remove(&mut self, token: &str)
        requires
            old(self).wf(),
        ensures
            final(self).wf(),
            final(self)@ == old(self)@.remove(token@),
    {
        match self.position(token) {
            Some(i) => {
                proof {
                    lemma_sessions_remove(self.entries@, i as int);
                }
                self.entries.remove(i);
            },
            None => {
                assert(self@ =~= self@.remove(token@));
            },
        }
    }

    /// Stores `session` under `token`, replacing any session stored there.
    pub fn insert(&mut self, token: String, session: Session)
        requires
            old(self).wf(),
        ensures
            final(self).wf(),
            final(self)@ == old(self)@.insert(token@, session@),
    {
        self.remove(token.as_str());
        assert(!self@.contains_key(token@));
        assert(!has_token(self.entries@, token@));
        proof {
            lemma_sessions_push(self.entries@, (token, session));
        }
        self.entries.push((token, session));
        assert(self@ =~= old(self)@.remove(token@).insert(token@, session@));
    }
}

/// The value of a `name=value` pair after trimming, if the pair names `name`.
pub open spec fn cookie_pair(part: Seq<char>, name: Seq<char>) -> Option<Seq<char>> {
    let p = trim(part);
    if p.len() > name.len() && p.subrange(0, name.len() as int) == name && p[name.len() as int] == '=' {
        Some(p.subrange(name.len() as int + 1, p.len() as int))
    } else {
        None
    }
}

/// The first pair from index `i` on that names `name`.
pub open spec fn first_cookie(parts: Seq<Seq<char>>, name: Seq<char>, i: int) -> Option<Seq<char>>
    decreases parts.len() - i,
{
    if i < 0 || i >= parts.len() {
        None
    } else {
        match cookie_pair(parts[i], name) {
            Some(v) => Some(v),
            None => first_cookie(parts, name, i + 1),
        }
    }
}

/// The value of cookie `name` in a `Cookie` header: the header is split at
/// `;`, each piece trimmed, and the first piece that starts with `name=` wins.
pub open spec fn cookie_value(header: Seq<char>, name: Seq<char>) -> Option<Seq<char>> {
    first_cookie(split_on(header, ';'), name, 0)
}

fn pair_value(part: &[char], name: &[char]) -> (r: Option<Vec<char>>)
    ensures
        match cookie_pair(part@, name@) {
            Some(v) => r matches Some(x) && x@ == v,
            None => r is None,
        },
{
    let (a, b) = trim_bounds(part);
    let ghost p = part@.subrange(a as int, b as int);
    let n = name.len();
    if b - a <= n {
        return None;
    }
    let mut k: usize = 0;
    while k < n
        invariant
            a <= b <= part@.len(),
            b - a > n == name@.len(),
            k <= n,
            p == part@.subrange(a as int, b as int),
            p == trim(part@),
            forall|m: int| 0 <= m < k ==> p[m] == #[trigger] name@[m],
        decreases n - k,
    {
        if part[a + k] != name[k] {
            assert(p[k as int] == part@[a + k]);
            assert(p.subrange(0, n as int)[k as int] != name@[k as int]);
            assert(p.subrange(0, n as int) != name@);
            return None;
        }
        k = k + 1;
    }
    assert(p.subrange(0, n as int) =~= name@);
    if part[a + n] != '=' {
        return None;
    }
    let mut v: Vec<char> = Vec::new();
    let mut j: usize = a + n + 1;
    while j < b
        invariant
            a + n + 1 <= j <= b <= part@.len(),
            v@ == part@.subrange(a + n + 1, j as int),
        decreases b - j,
    {
        v.push(part[j]);
        j = j + 1;
    }
    assert(v@ =~= p.subrange(n + 1, p.len() as int));
    Some(v)
}

/// The value of cookie `name` in a `Cookie` header.
pub fn cookie(header: &str, name: &str) -> (r: Option<String>)
    ensures
        match cookie_value(header@, name@) {
            Some(v) => r matches Some(x) && x@ == v,
            None => r is None,
        },
{
    let h = str_chars(header);
    let nm = str_chars(name);
    let parts = split_chars(h.as_slice(), ';');
    let ghost ps = split_on(header@, ';');
    let mut i: usize = 0;
    while i < parts.len()
        invariant
            i <= parts@.len(),
            views(parts@) == ps,
            nm@ == name@,
            cookie_value(header@, name@) == first_cookie(ps, name@, i as int),
        decreases parts.len() - i,
    {
        assert(parts@[i as int]@ == ps[i as int]);
        match pair_value(parts[i].as_slice(), nm.as_slice()) {
            Some(v) => {
                return Some(chars_to_string(v.as_slice()));
            },
            None => {},
        }
        i = i + 1;
    }
    None
}

/// Compares two byte strings through their SHA-256 digests in constant time.
pub fn constant_time_equal(left: &[u8], right: &[u8]) -> (r: bool)
    ensures
        r == (sha256_digest(left@) == sha256_digest(right@)),
{
    let l = sha256(left);
    let rr = sha256(right);
    digests_equal(&l, &rr)
}

/// The `Set-Cookie` value that starts a session.
pub open spec fn session_cookie_text(token: Seq<char>, secure: bool) -> Seq<char> {
    "vpngate2socks_session="@ + token + "; Path=/; HttpOnly; SameSite=Strict; Max-Age=28800"@
        + if secure { "; Secure"@ } else { Seq::empty() }
}

/// The `Set-Cookie` value that ends a session.
pub open spec fn logout_cookie_text(secure: bool) -> Seq<char> {
    if secure {
        "vpngate2socks_session=; Path=/; HttpOnly; SameSite=Strict; Max-Age=0; Secure"@
    } else {
        "vpngate2socks_session=; Path=/; HttpOnly; SameSite=Strict; Max-Age=0"@
    }
}

/// Builds the session cookie for `token`.
pub fn session_cookie(token: &str, secure: bool) -> (r: String)
    ensures
        r@ == session_cookie_text(token@, secure),
{
    let mut v: Vec<char> = Vec::new();
    push_str(&mut v, "vpngate2socks_session=");
    push_str(&mut v, token);
    push_str(&mut v, "; Path=/; HttpOnly; SameSite=Strict; Max-Age=28800");
    if secure {
        push_str(&mut v, "; Secure");
    }
    chars_to_string(v.as_slice())
}

/// Builds the cookie that clears the session.
pub fn logout_cookie(secure: bool) -> (r: String)
    ensures
        r@ == logout_cookie_text(secure),
{
    if secure {
        "vpngate2socks_session=; Path=/; HttpOnly; SameSite=Strict; Max-Age=0; Secure".to_owned()
    } else {
        "vpngate2socks_session=; Path=/; HttpOnly; SameSite=Strict; Max-Age=0".to_owned()
    }
}

/// A fresh random token: `uuid::Uuid::new_v4()` in its simple form, which
/// the crate documents as 32 lowercase hexadecimal digits.
#[verifier::external_body]
fn random_token() -> (r: String)
    ensures
        r@.len() == 32,
        forall|i: int| 0 <= i < 32 ==> is_lower_hex(#[trigger] r@[i]),
{
    uuid::Uuid::new_v4().simple().to_string()
}

/// The current time from `chrono::Utc::now`, as seconds and nanoseconds
/// since the Unix epoch. chrono builds it from `SystemTime::duration_since(UNIX_EPOCH)`,
/// so the seconds are not negative and the nanoseconds are below one second;
/// which instant it is, is the clock's reading and is not stated.
#[verifier::external_body]
fn current_time() -> (r: Timestamp)
    ensures
        r.secs >= 0,
        r.nanos < 1_000_000_000,
{
    let now = chrono::Utc::now();
    Timestamp { secs: now.timestamp(), nanos: now.timestamp_subsec_nanos() }
}

/// Answer to a session query or a login.
#[derive(Debug)]
pub struct SessionResponse {
    pub authenticated: bool,
    pub csrf_token: Option<String>,
}

/// A successful login: the response body and the cookie to set, if any.
#[derive(Debug)]
pub struct LoginReply {
    pub response: SessionResponse,
    pub set_cookie: Option<String>,
}

/// The session that a request's `Cookie` header presents at time `now`,
/// when it is stored and not expired.
pub open spec fn live_session(
    sessions: Map<Seq<char>, SessionView>,
    cookie_header: Option<Seq<char>>,
    now: Timestamp,
) -> Option<(Seq<char>, SessionView)> {
    match cookie_header {
        None => None,
        Some(h) => match cookie_value(h, "vpngate2socks_session"@) {
            None => None,
            Some(t) => if sessions.contains_key(t) && !timestamp_le(sessions[t].expires_at, now) {
                Some((t, sessions[t]))
            } else {
                None
            },
        },
    }
}

/// The stored session that a request's `Cookie` header presents, whether
/// or not it has expired.
pub open spec fn presented_session(
    sessions: Map<Seq<char>, SessionView>,
    cookie_header: Option<Seq<char>>,
) -> Option<(Seq<char>, SessionView)> {
    match cookie_header {
        None => None,
        Some(h) => match cookie_value(h, "vpngate2socks_session"@) {
            None => None,
            Some(t) => if sessions.contains_key(t) {
                Some((t, sessions[t]))
            } else {
                None
            },
        },
    }
}

/// The header as a character sequence.
pub open spec fn header_view(cookie_header: Option<&str>) -> Option<Seq<char>> {
    match cookie_header {
        Some(s) => Some(s@),
        None => None,
    }
}

/// The sessions after a lookup: an expired session that was presented is
/// dropped.
pub open spec fn after_lookup(
    sessions: Map<Seq<char>, SessionView>,
    cookie_header: Option<Seq<char>>,
    now: Timestamp,
) -> Map<Seq<char>, SessionView> {
    match cookie_header {
        None => sessions,
        Some(h) => match cookie_value(h, "vpngate2socks_session"@) {
            None => sessions,
            Some(t) => if sessions.contains_key(t) && timestamp_le(sessions[t].expires_at, now) {
                sessions.remove(t)
            } else {
                sessions
            },
        },
    }
}

/// The sessions after a logout: the presented session is removed.
pub open spec fn after_logout(sessions: Map<Seq<char>, SessionView>, cookie_header: Option<Seq<char>>) -> Map<
    Seq<char>,
    SessionView,
> {
    match cookie_header {
        Some(h) => match cookie_value(h, "vpngate2socks_session"@) {
            Some(t) => sessions.remove(t),
            None => sessions,
        },
        None => sessions,
    }
}

/// The `Cookie` header that a browser sends back for the cookie that a login
/// set presents the login's session: until the session expires, a request
/// carrying it is authenticated with the login's CSRF token.
pub proof fn login_cookie_opens_session(
    sessions: Map<Seq<char>, SessionView>,
    token: Seq<char>,
    csrf: Seq<char>,
    now: Timestamp,
    secure: bool,
    later: Timestamp,
)
    requires
        token.len() == 32,
        forall|i: int| 0 <= i < 32 ==> is_lower_hex(#[trigger] token[i]),
        now.secs <= i64::MAX - SESSION_SECONDS,
        !timestamp_le(Timestamp { secs: (now.secs + SESSION_SECONDS) as i64, nanos: now.nanos }, later),
    ensures
        ({
            let header = split_on(session_cookie_text(token, secure), ';')[0];
            let view = SessionView {
                csrf_token: csrf,
                expires_at: Timestamp { secs: (now.secs + SESSION_SECONDS) as i64, nanos: now.nanos },
            };
            live_session(sessions.insert(token, view), Some(header), later) == Some((token, view))
        }),
{
    reveal_strlit("vpngate2socks_session=");
    reveal_strlit("vpngate2socks_session");
    reveal_strlit("; Path=/; HttpOnly; SameSite=Strict; Max-Age=28800");
    reveal_strlit("; Secure");
    let name = "vpngate2socks_session"@;
    let prefix = "vpngate2socks_session="@;
    let text = session_cookie_text(token, secure);
    let pair = prefix + token;
    assert(text.subrange(0, 54) =~= pair);
    assert forall|k: int| 0 <= k < 54 implies text[k] != ';' by {
        if k >= 22 {
            assert(text[k] == token[k - 22]);
            assert(is_lower_hex(token[k - 22]));
        }
    }
    assert(text[54] == ';');
    lemma_split_through(text, ';', 0, 0, 54);
    assert forall|k: int| 0 <= k < pair.len() implies pair[k] != ';' by {
        if k >= 22 {
            assert(is_lower_hex(token[k - 22]));
        }
    }
    lemma_split_rest(pair, ';', 0, 0);
    assert(pair.subrange(0, pair.len() as int) =~= pair);
    assert(is_lower_hex(token[31]));
    assert(trim_start(pair) == pair);
    assert(trim_end(pair) == pair);
    assert(pair.subrange(0, 21) =~= name);
    assert(pair.subrange(22, 54) =~= token);
    assert(cookie_pair(pair, name) == Some(token));
}

/// After a logout that presents a session, that session is no longer accepted.
pub proof fn logout_ends_session(sessions: Map<Seq<char>, SessionView>, header: Seq<char>, now: Timestamp)
    ensures
        live_session(after_logout(sessions, Some(header)), Some(header), now) is None,
{
}

/// A safe method needs no CSRF token.
pub open spec fn safe_method(method: Seq<char>) -> bool {
    method == "GET"@ || method == "HEAD"@ || method == "OPTIONS"@
}

/// How a protected request is answered.
#[derive(Clone, Copy, PartialEq, Eq, Structural, Debug)]
pub enum AccessDecision {
    Allowed,
    AuthenticationRequired,
    CsrfRequired,
    CsrfInvalid,
}

/// Authentication state of the Web API.
pub struct AuthManager {
    credentials: Option<Credentials>,
    sessions: SessionStore,
    secure_cookie: bool,
}

impl AuthManager {
    pub closed spec fn wf(&self) -> bool {
        self.sessions.wf()
    }

    /// The configured credentials; none means that no login is required.
    pub closed spec fn credentials(&self) -> Option<Credentials> {
        self.credentials
    }

    /// Whether cookies carry the `Secure` attribute (HTTPS is enabled).
    pub closed spec fn secure(&self) -> bool {
        self.secure_cookie
    }

    /// The live sessions.
    pub closed spec fn sessions(&self) -> Map<Seq<char>, SessionView> {
        self.sessions@
    }

    /// A manager without sessions.
    pub fn new(credentials: Option<Credentials>, secure_cookie: bool) -> (r: AuthManager)
        ensures
            r.wf(),
            r.credentials() == credentials,
            r.secure() == secure_cookie,
            r.sessions() == Map::<Seq<char>, SessionView>::empty(),
    {
        AuthManager { credentials, sessions: SessionStore::new(), secure_cookie }
    }

    /// Whether a login is required.
    pub fn is_required(&self) -> (r: bool)
        ensures
            r == self.credentials() is Some,
    {
        self.credentials.is_some()
    }

    /// The session token and CSRF token that a request presents at `now`;
    /// a presented session that has expired is removed. Without credentials
    /// there are no sessions.
    pub fn session_at(&mut self, cookie_header: Option<&str>, now: Timestamp) -> (r: Option<(String, String)>)
        requires
            old(self).wf(),
        ensures
            final(self).wf(),
            final(self).credentials() == old(self).credentials(),
            final(self).secure() == old(self).secure(),
            old(self).credentials() is None ==> r is None && final(self).sessions() == old(self).sessions(),
            old(self).credentials() is Some ==> {
                let h = match cookie_header {
                    Some(s) => Some(s@),
                    None => None,
                };
                &&& final(self).sessions() == after_lookup(old(self).sessions(), h, now)
                &&& match live_session(old(self).sessions(), h, now) {
                    Some((t, s)) => r matches Some((a, b)) && a@ == t && b@ == s.csrf_token,
                    None => r is None,
                }
            },
    {
        if !self.is_required() {
            return None;
        }
        let header = match cookie_header {
            Some(h) => h,
            None => {
                return None;
            },
        };
        let token = match cookie(header, SESSION_COOKIE) {
            Some(t) => t,
            None => {
                proof {
                    reveal_strlit("vpngate2socks_session");
                }
                return None;
            },
        };
        proof {
            reveal_strlit("vpngate2socks_session");
        }
        let (expired, csrf) = match self.sessions.get(token.as_str()) {
            None => {
                return None;
            },
            Some(s) => (timestamp_before_or_at(s.expires_at, now), s.csrf_token.clone()),
        };
        if expired {
            self.sessions.remove(token.as_str());
            return None;
        }
        Some((token, csrf))
    }

    /// `session_at` at the current time.
    pub fn session(&mut self, cookie_header: Option<&str>) -> (r: Option<(String, String)>)
        requires
            old(self).wf(),
        ensures
            final(self).wf(),
            final(self).credentials() == old(self).credentials(),
            final(self).secure() == old(self).secure(),
            old(self).credentials() is None ==> r is None && final(self).sessions() == old(self).sessions(),
            old(self).credentials() is Some ==> match presented_session(old(self).sessions(), header_view(cookie_header)) {
                None => r is None && final(self).sessions() == old(self).sessions(),
                Some((t, v)) => (r matches Some((a, b)) && a@ == t && b@ == v.csrf_token
                    && final(self).sessions() == old(self).sessions())
                    || (r is None && final(self).sessions() == old(self).sessions().remove(t)),
            },
    {
        let now = current_time();
        self.session_at(cookie_header, now)
    }

    /// The answer to a session query at `now`.
    pub fn session_response_at(&mut self, cookie_header: Option<&str>, now: Timestamp) -> (r: SessionResponse)
        requires
            old(self).wf(),
        ensures
            final(self).wf(),
            final(self).credentials() == old(self).credentials(),
            final(self).secure() == old(self).secure(),
            old(self).credentials() is None ==> r.authenticated && r.csrf_token is None
                && final(self).sessions() == old(self).sessions(),
            old(self).credentials() is Some ==> {
                let h = match cookie_header {
                    Some(s) => Some(s@),
                    None => None,
                };
                &&& final(self).sessions() == after_lookup(old(self).sessions(), h, now)
                &&& match live_session(old(self).sessions(), h, now) {
                    Some((t, s)) => r.authenticated && (r.csrf_token matches Some(c) && c@ == s.csrf_token),
                    None => !r.authenticated && r.csrf_token is None,
                }
            },
    {
        if !self.is_required() {
            return SessionResponse { authenticated: true, csrf_token: None };
        }
        match self.session_at(cookie_header, now) {
            Some((_, csrf)) => SessionResponse { authenticated: true, csrf_token: Some(csrf) },
            None => SessionResponse { authenticated: false, csrf_token: None },
        }
    }

    /// `session_response_at` at the current time.
    pub fn session_response(&mut self, cookie_header: Option<&str>) -> (r: SessionResponse)
        requires
            old(self).wf(),
        ensures
            final(self).wf(),
            final(self).credentials() == old(self).credentials(),
            final(self).secure() == old(self).secure(),
            old(self).credentials() is None ==> r.authenticated && r.csrf_token is None
                && final(self).sessions() == old(self).sessions(),
            old(self).credentials() is Some ==> match presented_session(old(self).sessions(), header_view(cookie_header)) {
                None => !r.authenticated && r.csrf_token is None && final(self).sessions() == old(self).sessions(),
                Some((t, v)) => (r.authenticated && (r.csrf_token matches Some(c) && c@ == v.csrf_token)
                    && final(self).sessions() == old(self).sessions())
                    || (!r.authenticated && r.csrf_token is None && final(self).sessions() == old(self).sessions().remove(t)),
            },
    {
        let now = current_time();
        self.session_response_at(cookie_header, now)
    }

    /// Decides a login at `now` with the given fresh tokens. Without
    /// credentials every login succeeds and no session is made. Otherwise the
    /// username and password must match (through their SHA-256 digests); a
    /// match stores a session under `token` with `csrf` that expires eight
    /// hours after `now`, and answers with its CSRF token and cookie.
    pub fn login_at(&mut self, username: &str, password: &str, now: Timestamp, token: String, csrf: String) -> (r: Result<LoginReply, ApiError>)
        requires
            old(self).wf(),
            now.secs <= i64::MAX - SESSION_SECONDS,
        ensures
            final(self).wf(),
            final(self).credentials() == old(self).credentials(),
            final(self).secure() == old(self).secure(),
            old(self).credentials() is None ==> (r matches Ok(reply) && reply.response.authenticated
                && reply.response.csrf_token is None && reply.set_cookie is None
                && final(self).sessions() == old(self).sessions()),
            old(self).credentials() matches Some(c) ==> {
                if credentials_accepted(encode_utf8(username@), encode_utf8(password@), c) {
                    &&& r matches Ok(reply)
                    &&& reply.response.authenticated
                    &&& reply.response.csrf_token matches Some(x) && x@ == csrf@
                    &&& reply.set_cookie matches Some(k) && k@ == session_cookie_text(token@, old(self).secure())
                    &&& final(self).sessions() == old(self).sessions().insert(
                        token@,
                        SessionView {
                            csrf_token: csrf@,
                            expires_at: Timestamp { secs: (now.secs + SESSION_SECONDS) as i64, nanos: now.nanos },
                        },
                    )
                } else {
                    &&& r matches Err(e)
                    &&& e.status == 401
                    &&& e.code@ == "invalidCredentials"@
                    &&& e.message@ == "用户名或密码错误"@
                    &&& final(self).sessions() == old(self).sessions()
                }
            },
    {
        let expected = match &self.credentials {
            None => {
                return Ok(LoginReply {
                    response: SessionResponse { authenticated: true, csrf_token: None },
                    set_cookie: None,
                });
            },
            Some(c) => c,
        };
        let supplied_user = sha256(username.as_bytes());
        let expected_user = sha256(expected.username.as_str().as_bytes());
        let supplied_password = sha256(password.as_bytes());
        let expected_password = sha256(expected.password.expose().as_bytes());
        let user_ok = digests_equal(&supplied_user, &expected_user);
        let password_ok = digests_equal(&supplied_password, &expected_password);
        if !(user_ok && password_ok) {
            return Err(ApiError::new(401, "invalidCredentials", "用户名或密码错误"));
        }
        let cookie_text = session_cookie(token.as_str(), self.secure_cookie);
        let session = Session {
            csrf_token: csrf.clone(),
            expires_at: Timestamp { secs: now.secs + SESSION_SECONDS, nanos: now.nanos },
        };
        self.sessions.insert(token, session);
        Ok(LoginReply {
            response: SessionResponse { authenticated: true, csrf_token: Some(csrf) },
            set_cookie: Some(cookie_text),
        })
    }

    /// A login at the current time with fresh random tokens. A clock reading
    /// too late to add the session lifetime to is answered as an internal error.
    pub fn login(&mut self, username: &str, password: &str) -> (r: Result<LoginReply, ApiError>)
        requires
            old(self).wf(),
        ensures
            final(self).wf(),
            final(self).credentials() == old(self).credentials(),
            final(self).secure() == old(self).secure(),
            old(self).credentials() is None ==> (r matches Ok(reply) && reply.response.authenticated
                && reply.response.csrf_token is None && reply.set_cookie is None
                && final(self).sessions() == old(self).sessions()),
            old(self).credentials() matches Some(c) && !credentials_accepted(encode_utf8(username@), encode_utf8(password@), c)
                ==> (r matches Err(e) && (e.status == 401 || e.status == 500) && final(self).sessions() == old(self).sessions()),
            old(self).credentials() is Some && r is Ok ==> (r matches Ok(reply) && reply.response.authenticated
                && (reply.response.csrf_token matches Some(x) && x@.len() == 32
                    && (forall|i: int| 0 <= i < 32 ==> is_lower_hex(#[trigger] x@[i])))
                && reply.set_cookie is Some
                && exists|t: Seq<char>| #[trigger] session_cookie_text(t, old(self).secure()) == reply.set_cookie.unwrap()@
                    && t.len() == 32
                    && final(self).sessions().contains_key(t)
                    && final(self).sessions()[t].csrf_token == reply.response.csrf_token.unwrap()@
                    && final(self).sessions() == old(self).sessions().insert(t, final(self).sessions()[t])),
    {
        if !self.is_required() {
            return Ok(LoginReply {
                response: SessionResponse { authenticated: true, csrf_token: None },
                set_cookie: None,
            });
        }
        let now = current_time();
        if now.secs > i64::MAX - SESSION_SECONDS {
            return Err(ApiError::internal());
        }
        let token = random_token();
        let csrf = random_token();
        self.login_at(username, password, now, token, csrf)
    }

    /// Ends the session that the request presents, if any, and returns the
    /// cookie that clears it in the browser.
    pub fn logout(&mut self, cookie_header: Option<&str>) -> (r: String)
        requires
            old(self).wf(),
        ensures
            final(self).wf(),
            final(self).credentials() == old(self).credentials(),
            final(self).secure() == old(self).secure(),
            r@ == logout_cookie_text(old(self).secure()),
            final(self).sessions() == after_logout(
                old(self).sessions(),
                match cookie_header {
                    Some(h) => Some(h@),
                    None => None,
                },
            ),
    {
        proof {
            reveal_strlit("vpngate2socks_session");
        }
        match cookie_header {
            Some(h) => match cookie(h, SESSION_COOKIE) {
                Some(t) => self.sessions.remove(t.as_str()),
                None => {},
            },
            None => {},
        }
        logout_cookie(self.secure_cookie)
    }

    /// Decides a protected request at `now`. Without credentials every
    /// request passes. Otherwise it needs a live session, and a method other
    /// than GET, HEAD and OPTIONS also needs the session's CSRF token in the
    /// `X-CSRF-Token` header (compared through SHA-256 digests).
    pub fn authorize_at(
        &mut self,
        cookie_header: Option<&str>,
        method: &str,
        csrf_header: Option<&str>,
        now: Timestamp,
    ) -> (r: AccessDecision)
        requires
            old(self).wf(),
        ensures
            final(self).wf(),
            final(self).credentials() == old(self).credentials(),
            final(self).secure() == old(self).secure(),
            old(self).credentials() is None ==> r == AccessDecision::Allowed
                && final(self).sessions() == old(self).sessions(),
            old(self).credentials() is Some ==> {
                let h = match cookie_header {
                    Some(s) => Some(s@),
                    None => None,
                };
                &&& final(self).sessions() == after_lookup(old(self).sessions(), h, now)
                &&& r == match live_session(old(self).sessions(), h, now) {
                    None => AccessDecision::AuthenticationRequired,
                    Some((_, s)) => if safe_method(method@) {
                        AccessDecision::Allowed
                    } else {
                        match csrf_header {
                            None => AccessDecision::CsrfRequired,
                            Some(c) => if sha256_digest(encode_utf8(c@)) == sha256_digest(encode_utf8(s.csrf_token)) {
                                AccessDecision::Allowed
                            } else {
                                AccessDecision::CsrfInvalid
                            },
                        }
                    },
                }
            },
    {
        if !self.is_required() {
            return AccessDecision::Allowed;
        }
        let csrf = match self.session_at(cookie_header, now) {
            None => {
                return AccessDecision::AuthenticationRequired;
            },
            Some((_, csrf)) => csrf,
        };
        let m = str_chars(method);
        let get = str_chars("GET");
        let head = str_chars("HEAD");
        let options = str_chars("OPTIONS");
        proof {
            reveal_strlit("GET");
            reveal_strlit("HEAD");
            reveal_strlit("OPTIONS");
        }
        if chars_eq(m.as_slice(), get.as_slice()) || chars_eq(m.as_slice(), head.as_slice())
            || chars_eq(m.as_slice(), options.as_slice()) {
            return AccessDecision::Allowed;
        }
        let supplied = match csrf_header {
            None => {
                return AccessDecision::CsrfRequired;
            },
            Some(c) => c,
        };
        if constant_time_equal(supplied.as_bytes(), csrf.as_str().as_bytes()) {
            AccessDecision::Allowed
        } else {
            AccessDecision::CsrfInvalid
        }
    }

    /// `authorize_at` at the current time.
    pub fn authorize(&mut self, cookie_header: Option<&str>, method: &str, csrf_header: Option<&str>) -> (r: AccessDecision)
        requires
            old(self).wf(),
        ensures
            final(self).wf(),
            final(self).credentials() == old(self).credentials(),
            final(self).secure() == old(self).secure(),
            old(self).credentials() is None ==> r == AccessDecision::Allowed
                && final(self).sessions() == old(self).sessions(),
            old(self).credentials() is Some && presented_session(old(self).sessions(), header_view(cookie_header)) is None
                ==> r == AccessDecision::AuthenticationRequired && final(self).sessions() == old(self).sessions(),
            old(self).credentials() is Some && r != AccessDecision::AuthenticationRequired ==> {
                let p = presented_session(old(self).sessions(), header_view(cookie_header));
                &&& p is Some
                &&& final(self).sessions() == old(self).sessions()
                &&& r == if safe_method(method@) {
                    AccessDecision::Allowed
                } else {
                    match csrf_header {
                        None => AccessDecision::CsrfRequired,
                        Some(c) => if sha256_digest(encode_utf8(c@)) == sha256_digest(encode_utf8(p.unwrap().1.csrf_token)) {
                            AccessDecision::Allowed
                        } else {
                            AccessDecision::CsrfInvalid
                        },
                    }
                }
            },
    {
        let now = current_time();
        self.authorize_at(cookie_header, method, csrf_header, now)
    }
}

/// The API error for a refused protected request.
pub fn access_error(d: AccessDecision) -> (r: Option<ApiError>)
    ensures
        match d {
            AccessDecision::Allowed => r is None,
            AccessDecision::AuthenticationRequired => r matches Some(e) && e.status == 401
                && e.code@ == "authenticationRequired"@ && e.message@ == "需要登录"@,
            AccessDecision::CsrfRequired => r matches Some(e) && e.status == 403 && e.code@ == "csrfRequired"@
                && e.message@ == "缺少 CSRF 令牌"@,
            AccessDecision::CsrfInvalid => r matches Some(e) && e.status == 403 && e.code@ == "csrfInvalid"@
                && e.message@ == "CSRF 令牌无效"@,
        },
{
    match d {
        AccessDecision::Allowed => None,
        AccessDecision::AuthenticationRequired => Some(ApiError::new(401, "authenticationRequired", "需要登录")),
        AccessDecision::CsrfRequired => Some(ApiError::new(403, "csrfRequired", "缺少 CSRF 令牌")),
        AccessDecision::CsrfInvalid => Some(ApiError::new(403, "csrfInvalid", "CSRF 令牌无效")),
    }
}

} // verus!
