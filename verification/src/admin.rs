use vstd::prelude::*;
use rand::Rng;
use crate::event::{event_from_json, event_verifies, parse_event_json, tag_views, verify_event};
use crate::keys::{contains_key, key_views};
use crate::pubkey::Pubkey;
use crate::table::{
    keys_unique, key_other_than, lemma_filter_keeps_all, lemma_filter_unique, lemma_put_keeps_all, lemma_lookup_filter, lemma_put, lemma_take_out,
    lookup, put, take_out,
};
use crate::text::{hex_lower, hex_text, str_equals, strip_prefix};

verus! {

broadcast use vstd::seq_lib::group_seq_properties;

/// How long an issued challenge may be answered, in nanoseconds (five minutes).
pub const CHALLENGE_TTL_NANOS: u64 = 300_000_000_000;

/// How long an admin session lasts, in nanoseconds (four hours).
pub const SESSION_TTL_NANOS: u64 = 14_400_000_000_000;

/// The kind of a nip42 authentication event.
pub const AUTH_EVENT_KIND: u16 = 22242;

/// Why an admin login was refused.
#[derive(Debug, Clone, Copy, PartialEq, Eq)]
pub enum AuthError {
    InvalidEvent,
    WrongKind,
    InvalidSignature,
    NotAdmin,
    MissingChallengeValue,
    MissingChallengeTag,
    ChallengeExpired,
    UnknownChallenge,
}

impl AuthError {
    /// The HTTP status of the refusal.
    pub fn status(&self) -> (r: u16)
        ensures
            r == (if *self == AuthError::NotAdmin { 403u16 } else { 400u16 }),
    {
        match self {
            AuthError::NotAdmin => 403,
            _ => 400,
        }
    }

    /// The message of the refusal.
    pub fn message(&self) -> (r: String)
        ensures
            r@ == auth_error_text(*self),
    {
        let text: &str = match self {
            AuthError::InvalidEvent => "Invalid event",
            AuthError::WrongKind => "Event must be kind 22242",
            AuthError::InvalidSignature => "Invalid signature",
            AuthError::NotAdmin => "Not an admin pubkey",
            AuthError::MissingChallengeValue => "Missing challenge value in tag",
            AuthError::MissingChallengeTag => "Missing challenge tag",
            AuthError::ChallengeExpired => "Challenge expired",
            AuthError::UnknownChallenge => "Unknown or already used challenge",
        };
        String::from_str(text)
    }
}

/// The message of each refusal.
pub open spec fn auth_error_text(e: AuthError) -> Seq<char> {
    match e {
        AuthError::InvalidEvent => "Invalid event"@,
        AuthError::WrongKind => "Event must be kind 22242"@,
        AuthError::InvalidSignature => "Invalid signature"@,
        AuthError::NotAdmin => "Not an admin pubkey"@,
        AuthError::MissingChallengeValue => "Missing challenge value in tag"@,
        AuthError::MissingChallengeTag => "Missing challenge tag"@,
        AuthError::ChallengeExpired => "Challenge expired"@,
        AuthError::UnknownChallenge => "Unknown or already used challenge"@,
    }
}

/// Sessions by token: the admin key and the expiry time of each.
pub type SessionTable = Seq<(Seq<char>, (Seq<u8>, u64))>;

/// Challenges by text: the time each was issued.
pub type ChallengeTable = Seq<(Seq<char>, u64)>;

/// The token of an `Authorization` header value of the form `Bearer <token>`.
pub open spec fn bearer_token(header: Option<Seq<char>>) -> Option<Seq<char>> {
    match header {
        Some(h) => if crate::text::has_prefix(h, "Bearer "@) {
            Some(h.subrange(7, h.len() as int))
        } else {
            None
        },
        None => None,
    }
}

/// The admin key of the session a token opens at time `now`: its session must exist
/// and expire after `now`.
pub open spec fn session_key(sessions: SessionTable, token: Option<Seq<char>>, now: u64) -> Option<Seq<u8>> {
    match token {
        Some(t) => match lookup(sessions, t) {
            Some(s) => if s.1 > now { Some(s.0) } else { None },
            None => None,
        },
        None => None,
    }
}

/// Holds of the sessions that expire after `now`.
pub open spec fn live_at(now: u64) -> spec_fn((Seq<char>, (Seq<u8>, u64))) -> bool {
    |e: (Seq<char>, (Seq<u8>, u64))| e.1.1 > now
}

/// Holds of the challenges issued less than the challenge lifetime before `now`.
pub open spec fn recent_at(now: u64) -> spec_fn((Seq<char>, u64)) -> bool {
    |e: (Seq<char>, u64)| e.1 + CHALLENGE_TTL_NANOS > now
}

/// The challenges after `challenge` is issued at `now`: it is stored (replacing an
/// earlier record of the same text) and those older than the lifetime are dropped.
pub open spec fn challenges_after_issue(challenges: ChallengeTable, challenge: Seq<char>, now: u64) -> ChallengeTable {
    put(challenges, challenge, now).filter(recent_at(now))
}

/// The sessions after `token` is opened for `key` at `now`: it is stored with an expiry
/// one session lifetime later, and the sessions expired at `now` are dropped.
pub open spec fn sessions_after_login(sessions: SessionTable, token: Seq<char>, key: Seq<u8>, now: u64) -> SessionTable {
    put(sessions, token, (key, (now + SESSION_TTL_NANOS) as u64)).filter(live_at(now))
}

/// A tag whose first string is `challenge`.
pub open spec fn is_challenge_tag(tag: Seq<Seq<char>>) -> bool {
    tag.len() >= 1 && tag[0] == "challenge"@
}

/// The first challenge tag.
pub open spec fn first_challenge_tag(tags: Seq<Seq<Seq<char>>>) -> Option<Seq<Seq<char>>>
    decreases tags.len(),
{
    if tags.len() == 0 {
        None
    } else if is_challenge_tag(tags[0]) {
        Some(tags[0])
    } else {
        first_challenge_tag(tags.drop_first())
    }
}

/// How long ago `then` was at `now`, or zero where it lies ahead.
pub open spec fn elapsed(then: u64, now: u64) -> int {
    if now >= then { now - then } else { 0 }
}

/// What an authentication event decides, before any session is opened.
pub enum AuthVerdict {
    /// Refused with this error; the challenges are then as given.
    Reject(AuthError, ChallengeTable),
    /// Accepted; the answered challenge is taken out, which leaves the challenges as given.
    Accept(ChallengeTable),
}

/// The decision on an authentication event of `author`, of `kind`, with `tags` and a
/// signature that checks or not, at `now`: the kind, the signature, the author's
/// admin rights and the answered challenge are checked in this order. The challenge
/// is used up once it is found, whether or not it has expired.
pub open spec fn auth_verdict(
    admins: Seq<Seq<u8>>,
    challenges: ChallengeTable,
    author: Seq<u8>,
    kind: u16,
    tags: Seq<Seq<Seq<char>>>,
    signature_valid: bool,
    now: u64,
) -> AuthVerdict {
    if kind != AUTH_EVENT_KIND {
        AuthVerdict::Reject(AuthError::WrongKind, challenges)
    } else if !signature_valid {
        AuthVerdict::Reject(AuthError::InvalidSignature, challenges)
    } else if !admins.contains(author) {
        AuthVerdict::Reject(AuthError::NotAdmin, challenges)
    } else {
        match first_challenge_tag(tags) {
            None => AuthVerdict::Reject(AuthError::MissingChallengeTag, challenges),
            Some(tag) => if tag.len() < 2 {
                AuthVerdict::Reject(AuthError::MissingChallengeValue, challenges)
            } else {
                match lookup(challenges, tag[1]) {
                    None => AuthVerdict::Reject(AuthError::UnknownChallenge, challenges),
                    Some(issued) => if elapsed(issued, now) > CHALLENGE_TTL_NANOS {
                        AuthVerdict::Reject(AuthError::ChallengeExpired, take_out(challenges, tag[1]))
                    } else {
                        AuthVerdict::Accept(take_out(challenges, tag[1]))
                    },
                }
            },
        }
    }
}

/// Text of lowercase hexadecimal digits only.
pub open spec fn is_lower_hex(text: Seq<char>) -> bool {
    forall|i: int| 0 <= i < text.len() ==> ('0' <= #[trigger] text[i] <= '9' || 'a' <= text[i] <= 'f')
}

/// Holds of the sessions of an admin key.
pub open spec fn admin_session(admins: Seq<Seq<u8>>) -> spec_fn((Seq<char>, (Seq<u8>, u64))) -> bool {
    |e: (Seq<char>, (Seq<u8>, u64))| admins.contains(e.1.0)
}

struct Session {
    token: String,
    pubkey: Pubkey,
    expires_at: u64,
}

struct ChallengeRecord {
    challenge: String,
    created_at: u64,
}

spec fn session_table(s: Seq<Session>) -> SessionTable {
    s.map_values(|e: Session| (e.token@, (e.pubkey@, e.expires_at)))
}

spec fn challenge_table(s: Seq<ChallengeRecord>) -> ChallengeTable {
    s.map_values(|e: ChallengeRecord| (e.challenge@, e.created_at))
}

fn copy_session(e: &Session) -> (r: Session)
    ensures
        r.token@ == e.token@,
        r.pubkey == e.pubkey,
        r.expires_at == e.expires_at,
{
    Session { token: e.token.clone(), pubkey: e.pubkey, expires_at: e.expires_at }
}

fn copy_challenge(e: &ChallengeRecord) -> (r: ChallengeRecord)
    ensures
        r.challenge@ == e.challenge@,
        r.created_at == e.created_at,
{
    ChallengeRecord { challenge: e.challenge.clone(), created_at: e.created_at }
}

/// The sessions whose token is not `token`, or, with `now` given, those that expire
/// after it.
fn filter_sessions(s: &Vec<Session>, token: &str, now: Option<u64>) -> (r: Vec<Session>)
    ensures
        session_table(r@) == (match now {
            Some(t) => session_table(s@).filter(live_at(t)),
            None => session_table(s@).filter(key_other_than(token@)),
        }),
{
    let ghost p = match now {
        Some(t) => live_at(t),
        None => key_other_than::<(Seq<u8>, u64)>(token@),
    };
    let mut out: Vec<Session> = Vec::new();
    let n = s.len();
    for i in 0..n
        invariant
            n == s@.len(),
            p == (match now {
                Some(t) => live_at(t),
                None => key_other_than::<(Seq<u8>, u64)>(token@),
            }),
            session_table(out@) == session_table(s@).subrange(0, i as int).filter(p),
    {
        let ghost before = out@;
        let ghost entry = session_table(s@)[i as int];
        let keep = match now {
            Some(t) => s[i].expires_at > t,
            None => !str_equals(s[i].token.as_str(), token),
        };
        assert(keep == p(entry));
        if keep {
            let e = copy_session(&s[i]);
            out.push(e);
            assert(session_table(out@) =~= session_table(before).push(entry));
        }
        proof {
            let prefix = session_table(s@).subrange(0, i as int);
            assert(session_table(s@).subrange(0, i + 1) =~= prefix.push(entry));
            prefix.lemma_filter_push(entry, p);
        }
    }
    assert(session_table(s@).subrange(0, n as int) =~= session_table(s@));
    out
}

/// The challenges whose text is not `challenge`, or, with `now` given, those issued
/// less than the challenge lifetime before it.
fn filter_challenges(s: &Vec<ChallengeRecord>, challenge: &str, now: Option<u64>) -> (r: Vec<ChallengeRecord>)
    ensures
        challenge_table(r@) == (match now {
            Some(t) => challenge_table(s@).filter(recent_at(t)),
            None => challenge_table(s@).filter(key_other_than(challenge@)),
        }),
{
    let ghost p = match now {
        Some(t) => recent_at(t),
        None => key_other_than::<u64>(challenge@),
    };
    let mut out: Vec<ChallengeRecord> = Vec::new();
    let n = s.len();
    for i in 0..n
        invariant
            n == s@.len(),
            p == (match now {
                Some(t) => recent_at(t),
                None => key_other_than::<u64>(challenge@),
            }),
            challenge_table(out@) == challenge_table(s@).subrange(0, i as int).filter(p),
    {
        let ghost before = out@;
        let ghost entry = challenge_table(s@)[i as int];
        let keep = match now {
            Some(t) => t < CHALLENGE_TTL_NANOS || s[i].created_at > t - CHALLENGE_TTL_NANOS,
            None => !str_equals(s[i].challenge.as_str(), challenge),
        };
        assert(keep == p(entry));
        if keep {
            let e = copy_challenge(&s[i]);
            out.push(e);
            assert(challenge_table(out@) =~= challenge_table(before).push(entry));
        }
        proof {
            let prefix = challenge_table(s@).subrange(0, i as int);
            assert(challenge_table(s@).subrange(0, i + 1) =~= prefix.push(entry));
            prefix.lemma_filter_push(entry, p);
        }
    }
    assert(challenge_table(s@).subrange(0, n as int) =~= challenge_table(s@));
    out
}

/// The session stored under `token`, if any.
fn find_session(s: &Vec<Session>, token: &str) -> (r: Option<usize>)
    ensures
        match r {
            Some(i) => i < s@.len() && lookup(session_table(s@), token@) == Some(session_table(s@)[i as int].1),
            None => lookup(session_table(s@), token@) is None,
        },
{
    let mut i = s.len();
    assert(session_table(s@).subrange(0, i as int) =~= session_table(s@));
    while i > 0
        invariant
            i <= s@.len(),
            lookup(session_table(s@), token@) == lookup(session_table(s@).subrange(0, i as int), token@),
        decreases i,
    {
        let ghost sub = session_table(s@).subrange(0, i as int);
        assert(sub.drop_last() =~= session_table(s@).subrange(0, i - 1));
        assert(sub.last() == session_table(s@)[i - 1]);
        if str_equals(s[i - 1].token.as_str(), token) {
            return Some(i - 1);
        }
        i = i - 1;
    }
    None
}

/// The challenge record stored under `challenge`, if any.
fn find_challenge(s: &Vec<ChallengeRecord>, challenge: &str) -> (r: Option<usize>)
    ensures
        match r {
            Some(i) => i < s@.len() && lookup(challenge_table(s@), challenge@) == Some(challenge_table(s@)[i as int].1),
            None => lookup(challenge_table(s@), challenge@) is None,
        },
{
    let mut i = s.len();
    assert(challenge_table(s@).subrange(0, i as int) =~= challenge_table(s@));
    while i > 0
        invariant
            i <= s@.len(),
            lookup(challenge_table(s@), challenge@) == lookup(challenge_table(s@).subrange(0, i as int), challenge@),
        decreases i,
    {
        let ghost sub = challenge_table(s@).subrange(0, i as int);
        assert(sub.drop_last() =~= challenge_table(s@).subrange(0, i - 1));
        assert(sub.last() == challenge_table(s@)[i - 1]);
        if str_equals(s[i - 1].challenge.as_str(), challenge) {
            return Some(i - 1);
        }
        i = i - 1;
    }
    None
}

/// `rand::thread_rng().fill`: fills `n` bytes from the thread's random generator;
/// nothing is said of their values.
#[verifier::external_body]
fn random_bytes(n: usize) -> (r: Vec<u8>)
    ensures
        r@.len() == n,
{
    let mut bytes = vec![0u8; n];
    rand::thread_rng().fill(&mut bytes[..]);
    bytes
}

/// Lowercase hexadecimal text has only lowercase hexadecimal digits.
pub proof fn lemma_hex_text_is_lower_hex(bytes: Seq<u8>)
    ensures
        is_lower_hex(hex_text(bytes)),
        hex_text(bytes).len() == 2 * bytes.len(),
{
    let t = hex_text(bytes);
    assert forall|i: int| 0 <= i < t.len() implies ('0' <= #[trigger] t[i] <= '9' || 'a' <= t[i] <= 'f') by {
        let n: int = if i % 2 == 0 { bytes[i / 2] as int / 16 } else { bytes[i / 2] as int % 16 };
        assert(0 <= n < 16);
        assert(t[i] == crate::text::hex_digit(n));
    }
}

/// `bytes` random bytes as lowercase hexadecimal text.
pub fn random_hex(bytes: usize) -> (r: String)
    requires
        bytes <= usize::MAX / 2,
    ensures
        r@.len() == 2 * bytes,
        is_lower_hex(r@),
{
    let raw = random_bytes(bytes);
    let text = hex_lower(raw.as_slice());
    proof {
        lemma_hex_text_is_lower_hex(raw@);
    }
    text
}

/// The token of an `Authorization` header value of the form `Bearer <token>`.
pub fn extract_bearer_token(authorization: Option<&str>) -> (r: Option<String>)
    ensures
        match r {
            Some(t) => bearer_token(crate::storage::opt_text(authorization)) == Some(t@),
            None => bearer_token(crate::storage::opt_text(authorization)) is None,
        },
{
    match authorization {
        None => None,
        Some(h) => {
            let prefix: &str = "Bearer ";
            proof {
                reveal_strlit("Bearer ");
            }
            strip_prefix(h, prefix)
        },
    }
}

/// The index of the first challenge tag.
fn find_challenge_tag(tags: &Vec<Vec<String>>) -> (r: Option<usize>)
    ensures
        match r {
            Some(i) => i < tags@.len() && first_challenge_tag(tag_views(tags@)) == Some(tag_views(tags@)[i as int]),
            None => first_challenge_tag(tag_views(tags@)) is None,
        },
{
    let ghost tv = tag_views(tags@);
    let n = tags.len();
    assert(tv.subrange(0, n as int) =~= tv);
    for i in 0..n
        invariant
            n == tags@.len(),
            tv == tag_views(tags@),
            first_challenge_tag(tv) == first_challenge_tag(tv.subrange(i as int, n as int)),
    {
        let ghost rest = tv.subrange(i as int, n as int);
        assert(rest[0] == tv[i as int]);
        assert(rest.drop_first() =~= tv.subrange(i + 1, n as int));
        assert(tv[i as int] =~= tags@[i as int]@.map_values(|s: String| s@));
        let tag = &tags[i];
        if tag.len() >= 1 && str_equals(tag[0].as_str(), "challenge") {
            assert(tv[i as int][0] == tag@[0]@);
            return Some(i);
        }
        assert(!is_challenge_tag(tv[i as int])) by {
            if tag@.len() >= 1 {
                assert(tv[i as int][0] == tag@[0]@);
            }
        }
    }
    assert(tv.subrange(n as int, n as int).len() == 0);
    None
}

/// The admin login state: the admin keys, the open sessions and the issued challenges.
/// Times are readings of a monotonic clock, in nanoseconds.
pub struct AdminState {
    admin_pubkeys: Vec<Pubkey>,
    sessions: Vec<Session>,
    challenges: Vec<ChallengeRecord>,
    relay_url: String,
}

/// Admin login state with the given admin keys, no session and no challenge.
pub fn init_admin_state(admin_pubkeys: Vec<Pubkey>, relay_url: String) -> (r: AdminState)
    ensures
        r.admins() == key_views(admin_pubkeys@),
        r.sessions() == SessionTable::empty(),
        r.challenges() == ChallengeTable::empty(),
        r.relay_url() == relay_url@,
        keys_unique(r.sessions()),
        keys_unique(r.challenges()),
{
    let r = AdminState { admin_pubkeys, sessions: Vec::new(), challenges: Vec::new(), relay_url };
    assert(r.sessions() =~= SessionTable::empty());
    assert(r.challenges() =~= ChallengeTable::empty());
    r
}

impl AdminState {
    #[verifier::type_invariant]
    spec fn tables_unique(&self) -> bool {
        &&& keys_unique(session_table(self.sessions@))
        &&& keys_unique(challenge_table(self.challenges@))
        &&& forall|i: int| 0 <= i < session_table(self.sessions@).len() ==> #[trigger] admin_session(
            key_views(self.admin_pubkeys@),
        )(session_table(self.sessions@)[i])
    }

    /// The admin keys.
    pub closed spec fn admins(&self) -> Seq<Seq<u8>> {
        key_views(self.admin_pubkeys@)
    }

    /// The open sessions.
    pub closed spec fn sessions(&self) -> SessionTable {
        session_table(self.sessions@)
    }

    /// The issued challenges.
    pub closed spec fn challenges(&self) -> ChallengeTable {
        challenge_table(self.challenges@)
    }

    /// The relay's URL.
    pub closed spec fn relay_url(&self) -> Seq<char> {
        self.relay_url@
    }

    /// The admin key of the session that the `Authorization` header opens at `now`.
    pub fn validate_session(&self, authorization: Option<&str>, now: u64) -> (r: Option<Pubkey>)
        ensures
            match r {
                Some(k) => session_key(self.sessions(), bearer_token(crate::storage::opt_text(authorization)), now) == Some(k@),
                None => session_key(self.sessions(), bearer_token(crate::storage::opt_text(authorization)), now) is None,
            },
            r matches Some(k) ==> self.admins().contains(k@),
            keys_unique(self.sessions()),
            keys_unique(self.challenges()),
    {
        proof {
            use_type_invariant(self);
        }
        let token = match extract_bearer_token(authorization) {
            Some(t) => t,
            None => return None,
        };
        match find_session(&self.sessions, token.as_str()) {
            Some(i) => {
                assert(admin_session(self.admins())(session_table(self.sessions@)[i as int]));
                if self.sessions[i].expires_at > now {
                    Some(self.sessions[i].pubkey)
                } else {
                    None
                }
            },
            None => None,
        }
    }

    /// Stores a challenge issued at `now` and drops the challenges older than the
    /// challenge lifetime.
    pub fn record_challenge(&mut self, challenge: String, now: u64)
        ensures
            final(self).challenges() == challenges_after_issue(old(self).challenges(), challenge@, now),
            final(self).sessions() == old(self).sessions(),
            final(self).admins() == old(self).admins(),
            final(self).relay_url() == old(self).relay_url(),
            keys_unique(final(self).sessions()),
            keys_unique(final(self).challenges()),
    {
        proof {
            use_type_invariant(&*self);
        }
        let ghost before = challenge_table(self.challenges@);
        let mut others = filter_challenges(&self.challenges, challenge.as_str(), None);
        let ghost taken = challenge_table(others@);
        others.push(ChallengeRecord { challenge, created_at: now });
        assert(challenge_table(others@) =~= put(before, challenge@, now));
        let kept = filter_challenges(&others, "", Some(now));
        proof {
            lemma_put(before, challenge@, now, challenge@);
            lemma_filter_unique(put(before, challenge@, now), recent_at(now));
        }
        self.challenges = kept;
    }

    /// Issues a fresh random challenge: 64 lowercase hexadecimal digits, stored as
    /// issued at `now`, with the challenges older than the lifetime dropped.
    pub fn issue_challenge(&mut self, now: u64) -> (r: String)
        ensures
            r@.len() == 64,
            is_lower_hex(r@),
            final(self).challenges() == challenges_after_issue(old(self).challenges(), r@, now),
            final(self).sessions() == old(self).sessions(),
            final(self).admins() == old(self).admins(),
            final(self).relay_url() == old(self).relay_url(),
            keys_unique(final(self).sessions()),
            keys_unique(final(self).challenges()),
    {
        let challenge = random_hex(32);
        self.record_challenge(challenge.clone(), now);
        challenge
    }

    /// Decides on an authentication event of `author`, of `kind`, with `tags`, whose
    /// signature checks or not, at `now` (see `auth_verdict`); where it is accepted,
    /// opens a session under `token` for `author` that expires one session lifetime
    /// later, drops the sessions expired at `now`, and returns the token.
    pub fn admit_auth_event(
        &mut self,
        author: &Pubkey,
        kind: u16,
        tags: &Vec<Vec<String>>,
        signature_valid: bool,
        token: String,
        now: u64,
    ) -> (r: Result<String, AuthError>)
        requires
            now <= u64::MAX - SESSION_TTL_NANOS,
        ensures
            match auth_verdict(old(self).admins(), old(self).challenges(), author@, kind, tag_views(tags@), signature_valid, now) {
                AuthVerdict::Reject(e, challenges) => {
                    &&& r == Err::<String, AuthError>(e)
                    &&& final(self).challenges() == challenges
                    &&& final(self).sessions() == old(self).sessions()
                },
                AuthVerdict::Accept(challenges) => {
                    &&& r matches Ok(t) && t@ == token@
                    &&& final(self).challenges() == challenges
                    &&& final(self).sessions() == sessions_after_login(old(self).sessions(), token@, author@, now)
                },
            },
            final(self).admins() == old(self).admins(),
            final(self).relay_url() == old(self).relay_url(),
            keys_unique(final(self).sessions()),
            keys_unique(final(self).challenges()),
    {
        proof {
            use_type_invariant(&*self);
        }
        if kind != AUTH_EVENT_KIND {
            return Err(AuthError::WrongKind);
        }
        if !signature_valid {
            return Err(AuthError::InvalidSignature);
        }
        if !contains_key(&self.admin_pubkeys, author) {
            return Err(AuthError::NotAdmin);
        }
        let ti = match find_challenge_tag(tags) {
            Some(i) => i,
            None => return Err(AuthError::MissingChallengeTag),
        };
        let tag = &tags[ti];
        let ghost tv = tag_views(tags@)[ti as int];
        assert(tv =~= tag@.map_values(|s: String| s@));
        if tag.len() < 2 {
            return Err(AuthError::MissingChallengeValue);
        }
        let challenge = tag[1].as_str();
        assert(tv[1] == challenge@);
        let ci = match find_challenge(&self.challenges, challenge) {
            Some(i) => i,
            None => return Err(AuthError::UnknownChallenge),
        };
        let issued = self.challenges[ci].created_at;
        let ghost before = challenge_table(self.challenges@);
        let remaining = filter_challenges(&self.challenges, challenge, None);
        proof {
            lemma_take_out(before, challenge@, challenge@);
        }
        self.challenges = remaining;
        let age = if now >= issued { now - issued } else { 0 };
        if age > CHALLENGE_TTL_NANOS {
            return Err(AuthError::ChallengeExpired);
        }
        let ghost sessions_before = session_table(self.sessions@);
        let mut others = filter_sessions(&self.sessions, token.as_str(), None);
        others.push(Session { token: token.clone(), pubkey: *author, expires_at: now + SESSION_TTL_NANOS });
        assert(session_table(others@) =~= put(sessions_before, token@, (author@, (now + SESSION_TTL_NANOS) as u64)));
        let live = filter_sessions(&others, "", Some(now));
        proof {
            let v = (author@, (now + SESSION_TTL_NANOS) as u64);
            lemma_put(sessions_before, token@, v, token@);
            lemma_filter_unique(put(sessions_before, token@, v), live_at(now));
            lemma_put_keeps_all(sessions_before, token@, v, admin_session(self.admins()));
            lemma_filter_keeps_all(put(sessions_before, token@, v), live_at(now), admin_session(self.admins()));
        }
        self.sessions = live;
        Ok(token)
    }

    /// Logs an admin in with a signed nip42 event given as JSON, at `now`: the event is
    /// parsed and its signature checked, then decided on as `admit_auth_event` does,
    /// with a fresh random token of 64 lowercase hexadecimal digits.
    pub fn authenticate(&mut self, signed_event_json: &str, now: u64) -> (r: Result<String, AuthError>)
        requires
            now <= u64::MAX - SESSION_TTL_NANOS,
        ensures
            match event_from_json(signed_event_json@) {
                None => {
                    &&& r == Err::<String, AuthError>(AuthError::InvalidEvent)
                    &&& final(self).challenges() == old(self).challenges()
                    &&& final(self).sessions() == old(self).sessions()
                },
                Some(ev) => match auth_verdict(old(self).admins(), old(self).challenges(), ev.pubkey, ev.kind, ev.tags, event_verifies(ev), now) {
                    AuthVerdict::Reject(e, challenges) => {
                        &&& r == Err::<String, AuthError>(e)
                        &&& final(self).challenges() == challenges
                        &&& final(self).sessions() == old(self).sessions()
                    },
                    AuthVerdict::Accept(challenges) => {
                        &&& r matches Ok(t) && t@.len() == 64 && is_lower_hex(t@)
                        &&& final(self).challenges() == challenges
                        &&& final(self).sessions() == sessions_after_login(old(self).sessions(), r->Ok_0@, ev.pubkey, now)
                    },
                },
            },
            final(self).admins() == old(self).admins(),
            final(self).relay_url() == old(self).relay_url(),
            keys_unique(final(self).sessions()),
            keys_unique(final(self).challenges()),
    {
        proof {
            use_type_invariant(&*self);
        }
        let event = match parse_event_json(signed_event_json) {
            Some(e) => e,
            None => return Err(AuthError::InvalidEvent),
        };
        let signature_valid = verify_event(&event);
        let token = random_hex(32);
        let author = event.pubkey();
        self.admit_auth_event(&author, event.kind(), event.tags(), signature_valid, token, now)
    }
}

/// A session opened at `now` opens for its key at every time before its expiry one
/// session lifetime later, and at no time after.
pub proof fn lemma_login_opens_session(sessions: SessionTable, token: Seq<char>, key: Seq<u8>, now: u64, later: u64)
    requires
        now <= u64::MAX - SESSION_TTL_NANOS,
    ensures
        session_key(sessions_after_login(sessions, token, key, now), Some(token), later)
            == (if later < now + SESSION_TTL_NANOS { Some(key) } else { None::<Seq<u8>> }),
{
    let v = (key, (now + SESSION_TTL_NANOS) as u64);
    let t = take_out(sessions, token);
    let p = live_at(now);
    t.lemma_filter_push((token, v), p);
    let f = t.filter(p);
    assert(f.push((token, v)).drop_last() =~= f);
}

/// A challenge is used up by the attempt that finds it: once an event answering it
/// has been accepted, the same answer is refused as unknown.
pub proof fn lemma_challenge_answered_once(
    admins: Seq<Seq<u8>>,
    challenges: ChallengeTable,
    author: Seq<u8>,
    kind: u16,
    tags: Seq<Seq<Seq<char>>>,
    now: u64,
    later: u64,
)
    requires
        auth_verdict(admins, challenges, author, kind, tags, true, now) is Accept,
    ensures
        ({
            let remaining = auth_verdict(admins, challenges, author, kind, tags, true, now)->Accept_0;
            auth_verdict(admins, remaining, author, kind, tags, true, later)
                == AuthVerdict::Reject(AuthError::UnknownChallenge, remaining)
        }),
{
    let c = first_challenge_tag(tags)->0[1];
    lemma_take_out(challenges, c, c);
}

/// A challenge just issued is accepted from an admin's signed authentication event
/// that answers it within the challenge lifetime.
pub proof fn lemma_issued_challenge_accepted(
    admins: Seq<Seq<u8>>,
    challenges: ChallengeTable,
    challenge: Seq<char>,
    issued: u64,
    author: Seq<u8>,
    tags: Seq<Seq<Seq<char>>>,
    now: u64,
)
    requires
        admins.contains(author),
        first_challenge_tag(tags) matches Some(tag) && tag.len() >= 2 && tag[1] == challenge,
        issued <= now,
        now - issued <= CHALLENGE_TTL_NANOS,
    ensures
        auth_verdict(admins, challenges_after_issue(challenges, challenge, issued), author, AUTH_EVENT_KIND, tags, true, now)
            == AuthVerdict::Accept(take_out(challenges_after_issue(challenges, challenge, issued), challenge)),
{
    let stored = put(challenges, challenge, issued);
    let p = recent_at(issued);
    let t = take_out(challenges, challenge);
    t.lemma_filter_push((challenge, issued), p);
    let f = t.filter(p);
    assert(f.push((challenge, issued)).drop_last() =~= f);
}

/// Logging in ends no other live session: every other token opens what it opened
/// before, where its session outlives the login time, and nothing otherwise.
pub proof fn lemma_login_keeps_other_sessions(
    sessions: SessionTable,
    token: Seq<char>,
    key: Seq<u8>,
    now: u64,
    other: Seq<char>,
)
    requires
        keys_unique(sessions),
        other != token,
    ensures
        lookup(sessions_after_login(sessions, token, key, now), other) == (match lookup(sessions, other) {
            Some(v) => if v.1 > now { Some(v) } else { None },
            None => None,
        }),
{
    let v = (key, (now + SESSION_TTL_NANOS) as u64);
    lemma_put(sessions, token, v, other);
    lemma_lookup_filter(put(sessions, token, v), live_at(now), other);
}

/// Issuing a challenge at `now` keeps every other challenge issued less than five
/// minutes (300 s) before `now`, with its issue time, and drops the others; the new
/// challenge is stored as issued at `now`.
pub proof fn lemma_issue_keeps_recent_challenges(challenges: ChallengeTable, issued: Seq<char>, now: u64, other: Seq<char>)
    requires
        keys_unique(challenges),
        other != issued,
    ensures
        lookup(challenges_after_issue(challenges, issued, now), other) == (match lookup(challenges, other) {
            Some(t) => if t + 300_000_000_000 > now { Some(t) } else { None },
            None => None,
        }),
        lookup(challenges_after_issue(challenges, issued, now), issued) == Some(now),
{
    lemma_put(challenges, issued, now, other);
    lemma_put(challenges, issued, now, issued);
    lemma_lookup_filter(put(challenges, issued, now), recent_at(now), other);
    lemma_lookup_filter(put(challenges, issued, now), recent_at(now), issued);
}

/// A challenge answered by an admin within five minutes (300 s) of its issue is
/// accepted even where another challenge was issued in the meantime (say from a
/// second browser tab).
pub proof fn lemma_challenge_survives_later_issue(
    admins: Seq<Seq<u8>>,
    challenges: ChallengeTable,
    first: Seq<char>,
    first_at: u64,
    second: Seq<char>,
    second_at: u64,
    author: Seq<u8>,
    tags: Seq<Seq<Seq<char>>>,
    now: u64,
)
    requires
        keys_unique(challenges),
        admins.contains(author),
        first_challenge_tag(tags) matches Some(tag) && tag.len() >= 2 && tag[1] == first,
        first != second,
        first_at <= second_at <= now,
        now < first_at + 300_000_000_000,
    ensures
        auth_verdict(
            admins,
            challenges_after_issue(challenges_after_issue(challenges, first, first_at), second, second_at),
            author,
            22242,
            tags,
            true,
            now,
        ) is Accept,
{
    let once = challenges_after_issue(challenges, first, first_at);
    lemma_put(challenges, first, first_at, first);
    lemma_filter_unique(put(challenges, first, first_at), recent_at(first_at));
    lemma_lookup_filter(put(challenges, first, first_at), recent_at(first_at), first);
    lemma_issue_keeps_recent_challenges(once, second, second_at, first);
}

} // verus!
