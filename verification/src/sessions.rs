//! Session store and temporary-token store: an expiring key-value cache
//! keyed by purpose and token, with purpose-specific lifetimes, length
//! validation before lookup, and atomic single-use redemption.
//!
//! The cache is modelled as a map from `(purpose, token)` to the granted
//! user id and an absolute expiry instant; the clock is handed in by the
//! caller as seconds since an epoch.

use vstd::prelude::*;

use crate::auth::generate_token;
use crate::errors::AuthError;
use crate::text::is_alnum_char;
use crate::{CONFIRM_TOKEN_LIFE_TIME, RESET_TOKEN_LIFE_TIME, SESSION_ID_LENGTH, SESSION_LIFE_TIME};

verus! {

/// What a cached token stands for; the purpose selects the key prefix and
/// the lifetime of the entry.
#[derive(Clone, Copy, PartialEq, Eq, Structural, Debug)]
pub enum TokenPurpose {
    Session,
    Confirm,
    Reset,
}

impl TokenPurpose {
    /// The key prefix of the purpose in the cache's key layout.
    pub open spec fn spec_prefix(self) -> Seq<char> {
        match self {
            TokenPurpose::Session => "sessions"@,
            TokenPurpose::Confirm => "confirm_token"@,
            TokenPurpose::Reset => "reset_token"@,
        }
    }

    /// Render the key prefix of the purpose.
    pub fn prefix(&self) -> (r: String)
        ensures
            r@ == self.spec_prefix(),
    {
        match self {
            TokenPurpose::Session => "sessions".to_owned(),
            TokenPurpose::Confirm => "confirm_token".to_owned(),
            TokenPurpose::Reset => "reset_token".to_owned(),
        }
    }

    /// The lifetime of an entry of this purpose, in seconds.
    pub open spec fn spec_lifetime(self) -> u64 {
        match self {
            TokenPurpose::Session => SESSION_LIFE_TIME,
            TokenPurpose::Confirm => CONFIRM_TOKEN_LIFE_TIME,
            TokenPurpose::Reset => RESET_TOKEN_LIFE_TIME,
        }
    }

    /// Look up the lifetime of an entry of this purpose.
    pub fn lifetime(&self) -> (r: u64)
        ensures
            r == self.spec_lifetime(),
    {
        match self {
            TokenPurpose::Session => SESSION_LIFE_TIME,
            TokenPurpose::Confirm => CONFIRM_TOKEN_LIFE_TIME,
            TokenPurpose::Reset => RESET_TOKEN_LIFE_TIME,
        }
    }
}

struct CacheEntry {
    purpose: TokenPurpose,
    token: String,
    user_id: i32,
    expires_at: u64,
}

/// The expiring token cache. Its abstract state is `contents()`, a map
/// from `(purpose, token)` to `(user id, expiry instant)`; an entry past
/// its expiry is never returned by a lookup.
pub struct TokenCache {
    entries: Vec<CacheEntry>,
}

/// The map key of a stored entry.
spec fn entry_key(e: CacheEntry) -> (TokenPurpose, Seq<char>) {
    (e.purpose, e.token@)
}

impl TokenCache {
    /// At most one entry per `(purpose, token)` key.
    pub closed spec fn wf(self) -> bool {
        forall|i: int, j: int|
            0 <= i < j < self.entries@.len() ==> entry_key(self.entries@[i]) != entry_key(
                self.entries@[j],
            )
    }

    spec fn has_key(self, k: (TokenPurpose, Seq<char>)) -> bool {
        exists|i: int| 0 <= i < self.entries@.len() && entry_key(#[trigger] self.entries@[i]) == k
    }

    spec fn index_of(self, k: (TokenPurpose, Seq<char>)) -> int {
        choose|i: int|
            0 <= i < self.entries@.len() && entry_key(#[trigger] self.entries@[i]) == k
    }

    /// The abstract state of the cache.
    pub closed spec fn contents(self) -> Map<(TokenPurpose, Seq<char>), (i32, u64)> {
        Map::new(
            |k: (TokenPurpose, Seq<char>)| self.has_key(k),
            |k: (TokenPurpose, Seq<char>)|
                (self.entries@[self.index_of(k)].user_id, self.entries@[self.index_of(k)].expires_at),
        )
    }

    /// What a lookup at instant `now` returns: the user id of a stored,
    /// unexpired entry, and nothing otherwise.
    pub open spec fn lookup(self, purpose: TokenPurpose, token: Seq<char>, now: u64) -> Option<
        i32,
    > {
        let k = (purpose, token);
        if self.contents().dom().contains(k) && now < self.contents()[k].1 {
            Some(self.contents()[k].0)
        } else {
            None
        }
    }

    proof fn lemma_at_index(self, i: int)
        requires
            self.wf(),
            0 <= i < self.entries@.len(),
        ensures
            self.contents().dom().contains(entry_key(self.entries@[i])),
            self.contents()[entry_key(self.entries@[i])] == (
                self.entries@[i].user_id,
                self.entries@[i].expires_at,
            ),
    {
        let k = entry_key(self.entries@[i]);
        assert(self.has_key(k));
        let j = self.index_of(k);
        assert(0 <= j < self.entries@.len() && entry_key(self.entries@[j]) == k);
        if i < j {
            assert(entry_key(self.entries@[i]) != entry_key(self.entries@[j]));
        } else if j < i {
            assert(entry_key(self.entries@[j]) != entry_key(self.entries@[i]));
        }
    }

    /// A fresh, empty cache.
    pub fn new() -> (r: TokenCache)
        ensures
            r.wf(),
            r.contents() == Map::<(TokenPurpose, Seq<char>), (i32, u64)>::empty(),
    {
        let r = TokenCache { entries: Vec::new() };
        proof {
            assert(r.contents() =~= Map::<(TokenPurpose, Seq<char>), (i32, u64)>::empty());
        }
        r
    }

    /// Index of the entry holding the key, if any.
    fn find_index(&self, purpose: TokenPurpose, token: &str) -> (r: Option<usize>)
        requires
            self.wf(),
        ensures
            r matches Some(i) ==> i < self.entries@.len() && entry_key(self.entries@[i as int])
                == (purpose, token@),
            r is None ==> !self.has_key((purpose, token@)),
    {
        let mut i: usize = 0;
        let n = self.entries.len();
        while i < n
            invariant
                i <= n,
                n == self.entries@.len(),
                forall|k: int| 0 <= k < i ==> entry_key(#[trigger] self.entries@[k]) != (
                    purpose,
                    token@,
                ),
            decreases n - i,
        {
            let e = &self.entries[i];
            if e.purpose == purpose && crate::text::str_eq(e.token.as_str(), token) {
                return Some(i);
            }
            i += 1;
        }
        None
    }

    /// Drop the entry of the key, if present.
    pub fn del(&mut self, purpose: TokenPurpose, token: &str)
        requires
            old(self).wf(),
        ensures
            final(self).wf(),
            final(self).contents() == old(self).contents().remove((purpose, token@)),
    {
        let ghost k = (purpose, token@);
        match self.find_index(purpose, token) {
            None => {
                proof {
                    assert(self.contents() =~= old(self).contents().remove(k));
                }
            },
            Some(i) => {
                let ghost pre = *self;
                self.entries.remove(i);
                proof {
                    assert forall|i2: int, j2: int|
                        0 <= i2 < j2 < self.entries@.len() implies entry_key(self.entries@[i2])
                        != entry_key(self.entries@[j2]) by {
                        let oi = if i2 < i as int { i2 } else { i2 + 1 };
                        let oj = if j2 < i as int { j2 } else { j2 + 1 };
                        assert(self.entries@[i2] == pre.entries@[oi]);
                        assert(self.entries@[j2] == pre.entries@[oj]);
                    }
                    assert forall|k2: (TokenPurpose, Seq<char>)| #![auto] true implies {
                        (self.has_key(k2) <==> pre.has_key(k2) && k2 != k)
                    } by {
                        if self.has_key(k2) {
                            let i2 = choose|i2: int|
                                0 <= i2 < self.entries@.len() && entry_key(
                                    #[trigger] self.entries@[i2],
                                ) == k2;
                            let oi = if i2 < i as int { i2 } else { i2 + 1 };
                            assert(pre.entries@[oi] == self.entries@[i2]);
                            assert(pre.has_key(k2));
                            if k2 == k {
                                pre.lemma_at_index(oi);
                                pre.lemma_at_index(i as int);
                                assert(oi == i as int);
                            }
                        }
                        if pre.has_key(k2) && k2 != k {
                            let i2 = choose|i2: int|
                                0 <= i2 < pre.entries@.len() && entry_key(
                                    #[trigger] pre.entries@[i2],
                                ) == k2;
                            if i2 < i as int {
                                assert(self.entries@[i2] == pre.entries@[i2]);
                                assert(self.has_key(k2));
                            } else {
                                assert(i2 != i as int);
                                assert(self.entries@[i2 - 1] == pre.entries@[i2]);
                                assert(self.has_key(k2));
                            }
                        }
                    }
                    assert forall|k2: (TokenPurpose, Seq<char>)|
                        self.contents().dom().contains(k2) implies self.contents()[k2] == pre.contents()[k2] by {
                        let i2 = self.index_of(k2);
                        let oi = if i2 < i as int { i2 } else { i2 + 1 };
                        assert(pre.entries@[oi] == self.entries@[i2]);
                        self.lemma_at_index(i2);
                        pre.lemma_at_index(oi);
                    }
                    assert(self.contents() =~= pre.contents().remove(k));
                }
            },
        }
    }

    /// Write the key with its user id, expiring `ttl` seconds from `now`;
    /// an entry already stored under the key is replaced.
    pub fn set_ex(&mut self, purpose: TokenPurpose, token: &str, user_id: i32, now: u64, ttl: u64)
        requires
            old(self).wf(),
            now + ttl <= u64::MAX,
        ensures
            final(self).wf(),
            final(self).contents() == old(self).contents().insert(
                (purpose, token@),
                (user_id, (now + ttl) as u64),
            ),
    {
        let ghost k = (purpose, token@);
        self.del(purpose, token);
        let ghost mid = *self;
        let e = CacheEntry {
            purpose,
            token: token.to_owned(),
            user_id,
            expires_at: now + ttl,
        };
        self.entries.push(e);
        proof {
            let last = self.entries@.len() - 1;
            assert(entry_key(self.entries@[last]) == k);
            assert forall|i2: int, j2: int|
                0 <= i2 < j2 < self.entries@.len() implies entry_key(self.entries@[i2])
                != entry_key(self.entries@[j2]) by {
                if j2 == last {
                    assert(self.entries@[i2] == mid.entries@[i2]);
                    assert(mid.has_key(entry_key(mid.entries@[i2])));
                    assert(!mid.contents().dom().contains(k));
                }
            }
            assert forall|k2: (TokenPurpose, Seq<char>)| #![auto] true implies {
                (self.has_key(k2) <==> mid.has_key(k2) || k2 == k)
            } by {
                if self.has_key(k2) {
                    let i2 = choose|i2: int|
                        0 <= i2 < self.entries@.len() && entry_key(#[trigger] self.entries@[i2])
                            == k2;
                    if i2 < last {
                        assert(mid.entries@[i2] == self.entries@[i2]);
                        assert(mid.has_key(k2));
                    }
                }
                if mid.has_key(k2) {
                    let i2 = choose|i2: int|
                        0 <= i2 < mid.entries@.len() && entry_key(#[trigger] mid.entries@[i2])
                            == k2;
                    assert(self.entries@[i2] == mid.entries@[i2]);
                    assert(self.has_key(k2));
                }
            }
            assert forall|k2: (TokenPurpose, Seq<char>)|
                self.contents().dom().contains(k2) && k2 != k implies self.contents()[k2]
                == mid.contents()[k2] by {
                let i2 = self.index_of(k2);
                assert(entry_key(self.entries@[i2]) == k2);
                assert(i2 != last);
                assert(mid.entries@[i2] == self.entries@[i2]);
                self.lemma_at_index(i2);
                mid.lemma_at_index(i2);
            }
            self.lemma_at_index(last);
            assert(self.contents() =~= mid.contents().insert(k, (user_id, (now + ttl) as u64)));
            assert(self.contents() =~= old(self).contents().insert(
                k,
                (user_id, (now + ttl) as u64),
            ));
        }
    }

    /// Read the key at instant `now`, without consuming it.
    pub fn get(&self, purpose: TokenPurpose, token: &str, now: u64) -> (r: Option<i32>)
        requires
            self.wf(),
        ensures
            r == self.lookup(purpose, token@, now),
    {
        match self.find_index(purpose, token) {
            None => None,
            Some(i) => {
                proof {
                    self.lemma_at_index(i as int);
                }
                let e = &self.entries[i];
                if now < e.expires_at {
                    Some(e.user_id)
                } else {
                    None
                }
            },
        }
    }

    /// Atomically read and consume the key: a stored, unexpired entry is
    /// removed and its user id returned in one step, so a second
    /// redemption of the same token finds nothing.
    pub fn get_del(&mut self, purpose: TokenPurpose, token: &str, now: u64) -> (r: Option<i32>)
        requires
            old(self).wf(),
        ensures
            final(self).wf(),
            r == old(self).lookup(purpose, token@, now),
            r is Some ==> final(self).contents() == old(self).contents().remove(
                (purpose, token@),
            ),
            r is None ==> final(self).contents() == old(self).contents(),
    {
        match self.find_index(purpose, token) {
            None => None,
            Some(i) => {
                proof {
                    self.lemma_at_index(i as int);
                }
                let expires_at = self.entries[i].expires_at;
                let user_id = self.entries[i].user_id;
                if now < expires_at {
                    self.del(purpose, token);
                    Some(user_id)
                } else {
                    None
                }
            },
        }
    }
}

/// Cache-facing operations of the session and temporary-token stores.
pub struct SessionRepository;

impl SessionRepository {
    /// Store a freshly minted session id for the user, expiring after the
    /// session lifetime.
    pub fn cache_session_id(session_id: &str, user_id: i32, cache: &mut TokenCache, now: u64)
        requires
            old(cache).wf(),
            now + SESSION_LIFE_TIME <= u64::MAX,
        ensures
            final(cache).wf(),
            final(cache).contents() == old(cache).contents().insert(
                (TokenPurpose::Session, session_id@),
                (user_id, (now + SESSION_LIFE_TIME) as u64),
            ),
    {
        cache.set_ex(TokenPurpose::Session, session_id, user_id, now, SESSION_LIFE_TIME)
    }

    /// Store a temporary token for the user under its purpose, expiring
    /// after the given lifetime.
    pub fn cache_token(
        token: &str,
        user_id: i32,
        purpose: TokenPurpose,
        lifetime: u64,
        cache: &mut TokenCache,
        now: u64,
    )
        requires
            old(cache).wf(),
            now + lifetime <= u64::MAX,
        ensures
            final(cache).wf(),
            final(cache).contents() == old(cache).contents().insert(
                (purpose, token@),
                (user_id, (now + lifetime) as u64),
            ),
    {
        cache.set_ex(purpose, token, user_id, now, lifetime)
    }

    /// Drop a token that has served its single use.
    pub fn redeem_token(token: &str, purpose: TokenPurpose, cache: &mut TokenCache)
        requires
            old(cache).wf(),
        ensures
            final(cache).wf(),
            final(cache).contents() == old(cache).contents().remove((purpose, token@)),
    {
        cache.del(purpose, token)
    }
}

/// Mint a session token for the user and store it with the session
/// lifetime; the token is returned to be handed to the client.
pub fn issue(cache: &mut TokenCache, user_id: i32, now: u64) -> (token: String)
    requires
        old(cache).wf(),
        now + SESSION_LIFE_TIME <= u64::MAX,
    ensures
        final(cache).wf(),
        token@.len() == SESSION_ID_LENGTH,
        forall|i: int| 0 <= i < token@.len() ==> is_alnum_char(token@[i]),
        final(cache).contents() == old(cache).contents().insert(
            (TokenPurpose::Session, token@),
            (user_id, (now + SESSION_LIFE_TIME) as u64),
        ),
{
    let token = generate_token(SESSION_ID_LENGTH);
    SessionRepository::cache_session_id(token.as_str(), user_id, cache, now);
    token
}

/// Resolve a presented session token to its user id; an unknown or
/// expired token resolves to nothing. Expiry is fixed at issuance: no
/// activity renews it.
pub fn resolve(cache: &TokenCache, token: &str, now: u64) -> (r: Option<i32>)
    requires
        cache.wf(),
    ensures
        r == cache.lookup(TokenPurpose::Session, token@, now),
{
    cache.get(TokenPurpose::Session, token, now)
}

/// Mint a temporary token of the given purpose for the user and store it
/// with the purpose's lifetime.
pub fn issue_temporary(
    cache: &mut TokenCache,
    user_id: i32,
    purpose: TokenPurpose,
    now: u64,
) -> (token: String)
    requires
        old(cache).wf(),
        !(purpose is Session),
        now + purpose.spec_lifetime() <= u64::MAX,
    ensures
        final(cache).wf(),
        token@.len() == SESSION_ID_LENGTH,
        forall|i: int| 0 <= i < token@.len() ==> is_alnum_char(token@[i]),
        final(cache).contents() == old(cache).contents().insert(
            (purpose, token@),
            (user_id, (now + purpose.spec_lifetime()) as u64),
        ),
{
    let token = generate_token(SESSION_ID_LENGTH);
    let lifetime = purpose.lifetime();
    SessionRepository::cache_token(token.as_str(), user_id, purpose, lifetime, cache, now);
    token
}

/// What presenting a temporary token yields: a token of the wrong length
/// is rejected before any lookup, and otherwise the cache decides.
pub open spec fn redemption_of(cache: TokenCache, purpose: TokenPurpose, token: Seq<char>, now: u64) -> Result<i32, AuthError> {
    if token.len() != SESSION_ID_LENGTH {
        Err(AuthError::InvalidToken)
    } else {
        match cache.lookup(purpose, token, now) {
            Some(uid) => Ok(uid),
            None => Err(AuthError::InvalidToken),
        }
    }
}

/// Read the user id a temporary token stands for, without consuming the
/// token. A token of the wrong length is rejected without a lookup.
pub fn find_id_by_temporary_token(
    token: &str,
    purpose: TokenPurpose,
    cache: &TokenCache,
    now: u64,
) -> (r: Result<i32, AuthError>)
    requires
        cache.wf(),
    ensures
        r == redemption_of(*cache, purpose, token@, now),
{
    if token.unicode_len() != SESSION_ID_LENGTH {
        return Err(AuthError::InvalidToken);
    }
    match cache.get(purpose, token, now) {
        Some(uid) => Ok(uid),
        None => Err(AuthError::InvalidToken),
    }
}

/// Redeem a temporary token: read and consume it in one step. A token of
/// the wrong length is rejected without a lookup, and a redeemed token is
/// gone, so presenting it again fails.
pub fn redeem_temporary_token(
    token: &str,
    purpose: TokenPurpose,
    cache: &mut TokenCache,
    now: u64,
) -> (r: Result<i32, AuthError>)
    requires
        old(cache).wf(),
    ensures
        final(cache).wf(),
        r == redemption_of(*old(cache), purpose, token@, now),
        r is Ok ==> final(cache).contents() == old(cache).contents().remove((purpose, token@)),
        r is Err ==> final(cache).contents() == old(cache).contents(),
{
    if token.unicode_len() != SESSION_ID_LENGTH {
        return Err(AuthError::InvalidToken);
    }
    match cache.get_del(purpose, token, now) {
        Some(uid) => Ok(uid),
        None => Err(AuthError::InvalidToken),
    }
}

/// A session issued at `t_issue` resolves to exactly its user at every
/// instant before the lifetime elapses, and to nothing from the instant it
/// has elapsed.
pub proof fn lemma_session_resolution(
    c0: TokenCache,
    c1: TokenCache,
    token: Seq<char>,
    user_id: i32,
    t_issue: u64,
    t_read: u64,
)
    requires
        t_issue + SESSION_LIFE_TIME <= u64::MAX,
        c1.contents() == c0.contents().insert(
            (TokenPurpose::Session, token),
            (user_id, (t_issue + SESSION_LIFE_TIME) as u64),
        ),
    ensures
        c1.lookup(TokenPurpose::Session, token, t_read) == if t_read < t_issue
            + SESSION_LIFE_TIME {
            Some(user_id)
        } else {
            None::<i32>
        },
{
}

/// A redeemed temporary token is single-use: once its redemption has
/// removed the entry, a second redemption of the same token fails,
/// whenever it is attempted.
pub proof fn lemma_single_use_redemption(
    c0: TokenCache,
    c1: TokenCache,
    token: Seq<char>,
    purpose: TokenPurpose,
    later: u64,
)
    requires
        c1.contents() == c0.contents().remove((purpose, token)),
    ensures
        redemption_of(c1, purpose, token, later) == Err::<i32, AuthError>(AuthError::InvalidToken),
{
}

} // verus!
