//! The per-request authentication gate: extract the bearer token from
//! the authorization header, resolve it to a user id through the session
//! store, and look the user up — failing with one invalid-token error
//! whatever the step that broke, so that nothing is leaked about the
//! cause. Resolution is performed fresh on every request.

use vstd::prelude::*;

use crate::errors::{AuthError, ServiceError};
use crate::models::User;
use crate::repositories::{Ledger, UserRepository};
use crate::sessions::{resolve, TokenCache, TokenPurpose};
use crate::text::{char_is_space, is_space_char, str_eq};

verus! {

/// First position at or after `i` that does not hold whitespace.
pub open spec fn skip_spaces(s: Seq<char>, i: int) -> int
    decreases s.len() - i,
{
    if 0 <= i < s.len() && is_space_char(s[i]) {
        skip_spaces(s, i + 1)
    } else {
        i
    }
}

/// First position at or after `i` that holds whitespace, or the end.
pub open spec fn skip_word(s: Seq<char>, i: int) -> int
    decreases s.len() - i,
{
    if 0 <= i < s.len() && !is_space_char(s[i]) {
        skip_word(s, i + 1)
    } else {
        i
    }
}

/// The token of a well-formed authorization header: the header must
/// consist of exactly the word `Bearer` followed by one non-empty token,
/// separated and surrounded by whitespace only.
pub open spec fn bearer_token_of(s: Seq<char>) -> Option<Seq<char>> {
    let b1 = skip_spaces(s, 0);
    let e1 = skip_word(s, b1);
    let b2 = skip_spaces(s, e1);
    let e2 = skip_word(s, b2);
    let rest = skip_spaces(s, e2);
    if s.subrange(b1, e1) == "Bearer"@ && b2 < e2 && rest == s.len() {
        Some(s.subrange(b2, e2))
    } else {
        None
    }
}

proof fn lemma_skip_spaces_bounds(s: Seq<char>, i: int)
    requires
        0 <= i <= s.len(),
    ensures
        i <= skip_spaces(s, i) <= s.len(),
        skip_spaces(s, i) < s.len() ==> !is_space_char(s[skip_spaces(s, i)]),
        forall|k: int| i <= k < skip_spaces(s, i) ==> is_space_char(s[k]),
    decreases s.len() - i,
{
    if i < s.len() && is_space_char(s[i]) {
        lemma_skip_spaces_bounds(s, i + 1);
    }
}

proof fn lemma_skip_word_bounds(s: Seq<char>, i: int)
    requires
        0 <= i <= s.len(),
    ensures
        i <= skip_word(s, i) <= s.len(),
        skip_word(s, i) < s.len() ==> is_space_char(s[skip_word(s, i)]),
        forall|k: int| i <= k < skip_word(s, i) ==> !is_space_char(s[k]),
    decreases s.len() - i,
{
    if i < s.len() && !is_space_char(s[i]) {
        lemma_skip_word_bounds(s, i + 1);
    }
}

/// Advance past whitespace, as the executable twin of `skip_spaces`.
fn scan_spaces(s: &str, from: usize) -> (r: usize)
    requires
        from <= s@.len(),
    ensures
        r == skip_spaces(s@, from as int),
        from <= r <= s@.len(),
{
    let n = s.unicode_len();
    let mut i = from;
    while i < n && char_is_space(s.get_char(i))
        invariant
            from <= i <= n,
            n == s@.len(),
            skip_spaces(s@, from as int) == skip_spaces(s@, i as int),
        decreases n - i,
    {
        i += 1;
    }
    i
}

/// Advance past a word, as the executable twin of `skip_word`.
fn scan_word(s: &str, from: usize) -> (r: usize)
    requires
        from <= s@.len(),
    ensures
        r == skip_word(s@, from as int),
        from <= r <= s@.len(),
{
    let n = s.unicode_len();
    let mut i = from;
    while i < n && !char_is_space(s.get_char(i))
        invariant
            from <= i <= n,
            n == s@.len(),
            skip_word(s@, from as int) == skip_word(s@, i as int),
        decreases n - i,
    {
        i += 1;
    }
    i
}

/// Extract the bearer token from an authorization header, if the header
/// is well-formed.
pub fn extract_bearer_token(header: &str) -> (r: Option<String>)
    ensures
        r matches Some(t) ==> bearer_token_of(header@) == Some(t@),
        r is None ==> bearer_token_of(header@) is None,
{
    let n = header.unicode_len();
    let b1 = scan_spaces(header, 0);
    let e1 = scan_word(header, b1);
    let b2 = scan_spaces(header, e1);
    let e2 = scan_word(header, b2);
    let rest = scan_spaces(header, e2);
    proof {
        lemma_skip_spaces_bounds(header@, 0);
        lemma_skip_word_bounds(header@, b1 as int);
        lemma_skip_spaces_bounds(header@, e1 as int);
        lemma_skip_word_bounds(header@, b2 as int);
        lemma_skip_spaces_bounds(header@, e2 as int);
    }
    let scheme = header.substring_char(b1, e1);
    if !str_eq(scheme, "Bearer") {
        return None;
    }
    if b2 >= e2 || rest != n {
        return None;
    }
    let token = header.substring_char(b2, e2);
    Some(token.to_owned())
}

/// Spec-level view of an optional header.
pub open spec fn header_view(h: Option<&str>) -> Option<Seq<char>> {
    match h {
        Option::None => None,
        Option::Some(s) => Some(s@),
    }
}

/// What resolving a request yields: the stored user whose unexpired
/// session the header's bearer token names, if every step holds.
pub open spec fn resolved_identity(
    db: Ledger,
    cache: TokenCache,
    header: Option<Seq<char>>,
    now: u64,
) -> Option<User> {
    match header {
        Option::None => None,
        Option::Some(h) => match bearer_token_of(h) {
            Option::None => None,
            Option::Some(t) => match cache.lookup(TokenPurpose::Session, t, now) {
                Option::None => None,
                Option::Some(uid) => if db.has_user_id(uid) {
                    Some(db.user_by_id(uid))
                } else {
                    None
                },
            },
        },
    }
}

/// Resolve the identity behind a request from its authorization header:
/// a missing or malformed header, an unknown or expired session token,
/// and a session naming a deleted user all fail alike.
pub fn authenticate(db: &Ledger, cache: &TokenCache, header: Option<&str>, now: u64) -> (r: Result<
    User,
    ServiceError,
>)
    requires
        db.wf(),
        cache.wf(),
    ensures
        r matches Ok(u) ==> resolved_identity(*db, *cache, header_view(header), now) == Some(u),
        r is Err ==> resolved_identity(*db, *cache, header_view(header), now) is None,
        r matches Err(e) ==> e == ServiceError::Auth(AuthError::InvalidToken),
{
    let h = match header {
        Option::None => {
            return Err(ServiceError::Auth(AuthError::InvalidToken));
        },
        Option::Some(h) => h,
    };
    let token = match extract_bearer_token(h) {
        Option::None => {
            return Err(ServiceError::Auth(AuthError::InvalidToken));
        },
        Option::Some(t) => t,
    };
    let user_id = match resolve(cache, token.as_str(), now) {
        Option::None => {
            return Err(ServiceError::Auth(AuthError::InvalidToken));
        },
        Option::Some(uid) => uid,
    };
    match UserRepository::find(db, user_id) {
        Err(_) => Err(ServiceError::Auth(AuthError::InvalidToken)),
        Ok(user) => Ok(user),
    }
}

} // verus!
