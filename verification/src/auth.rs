//! Credential rules and primitives: signup-input validation, password
//! hashing and verification through argon2, and secure random token
//! generation through the operating system's entropy source.

use vstd::prelude::*;

use crate::dto::CredentialsDto;
use crate::errors::AuthError;
use crate::models::NewUser;
use crate::text::{
    char_is_alnum, char_is_upper, is_alnum_char, is_ascii_char, is_upper_char,
};
use crate::SESSION_ID_LENGTH;

verus! {

/// Minimum password length, in characters.
pub const MIN_PASSWORD_LENGTH: usize = 6;

/// Minimum username length, in characters.
pub const MIN_USERNAME_LENGTH: usize = 3;

/// Every character of the string is ASCII.
pub open spec fn all_ascii(s: Seq<char>) -> bool {
    forall|i: int| 0 <= i < s.len() ==> is_ascii_char(s[i])
}

/// A valid username: at least three characters, ASCII alphanumeric only.
pub open spec fn valid_username(s: Seq<char>) -> bool {
    s.len() >= MIN_USERNAME_LENGTH && forall|i: int| 0 <= i < s.len() ==> is_alnum_char(s[i])
}

/// A valid password: at least six characters, all ASCII, at least one
/// ASCII upper-case letter.
pub open spec fn valid_password(s: Seq<char>) -> bool {
    &&& s.len() >= MIN_PASSWORD_LENGTH
    &&& all_ascii(s)
    &&& exists|i: int| 0 <= i < s.len() && is_upper_char(s[i])
}

/// A well-placed `@`: position `a` holds the only `@` of the string, the
/// local part before it is non-empty, and the domain after it consists of
/// at least two non-empty dot-separated labels.
pub open spec fn valid_email_split(s: Seq<char>, a: int) -> bool {
    &&& 0 < a < s.len() - 1
    &&& s[a] == '@'
    &&& forall|i: int| 0 <= i < s.len() && i != a ==> s[i] != '@'
    &&& s[a + 1] != '.'
    &&& s[s.len() - 1] != '.'
    &&& exists|k: int| a < k < s.len() && s[k] == '.'
    &&& forall|k: int| a < k < s.len() - 1 ==> !(#[trigger] s[k] == '.' && s[k + 1] == '.')
}

/// A valid email address: ASCII only, one `@` between a non-empty local
/// part and a domain of two or more non-empty labels.
pub open spec fn valid_email(s: Seq<char>) -> bool {
    all_ascii(s) && exists|a: int| valid_email_split(s, a)
}

/// Check a username: length and alphanumeric characters.
pub fn is_username_valid(username: &str) -> (r: bool)
    ensures
        r == valid_username(username@),
{
    let n = username.unicode_len();
    if n < MIN_USERNAME_LENGTH {
        return false;
    }
    let mut i: usize = 0;
    while i < n
        invariant
            i <= n,
            n == username@.len(),
            forall|k: int| 0 <= k < i ==> is_alnum_char(username@[k]),
        decreases n - i,
    {
        if !char_is_alnum(username.get_char(i)) {
            return false;
        }
        i += 1;
    }
    true
}

/// Check a password: length, ASCII characters, and an upper-case letter.
pub fn is_password_valid(password: &str) -> (r: bool)
    ensures
        r == valid_password(password@),
{
    let n = password.unicode_len();
    if n < MIN_PASSWORD_LENGTH {
        return false;
    }
    let mut has_upper = false;
    let mut i: usize = 0;
    while i < n
        invariant
            i <= n,
            n == password@.len(),
            forall|k: int| 0 <= k < i ==> is_ascii_char(password@[k]),
            has_upper <==> exists|k: int| 0 <= k < i && is_upper_char(password@[k]),
        decreases n - i,
    {
        let c = password.get_char(i);
        if (c as u32) >= 128 {
            return false;
        }
        if char_is_upper(c) {
            has_upper = true;
        }
        i += 1;
    }
    has_upper
}

/// Check an email address against the `@` and domain-label rules.
pub fn is_email_valid(email: &str) -> (r: bool)
    ensures
        r == valid_email(email@),
{
    let n = email.unicode_len();
    let ghost s = email@;
    let mut at_pos: usize = 0;
    let mut have_at = false;
    let mut i: usize = 0;
    while i < n
        invariant
            i <= n,
            n == s.len(),
            s == email@,
            forall|k: int| 0 <= k < i ==> is_ascii_char(s[k]),
            !have_at ==> forall|k: int| 0 <= k < i ==> s[k] != '@',
            have_at ==> at_pos < i && s[at_pos as int] == '@',
            have_at ==> forall|k: int| 0 <= k < i && k != at_pos ==> s[k] != '@',
        decreases n - i,
    {
        let c = email.get_char(i);
        if (c as u32) >= 128 {
            return false;
        }
        if c == '@' {
            if have_at {
                proof {
                    let p1 = at_pos as int;
                    let p2 = i as int;
                    assert forall|a: int| !valid_email_split(s, a) by {
                        if valid_email_split(s, a) {
                            if a == p1 {
                                assert(s[p2] != '@');
                            } else {
                                assert(s[p1] != '@');
                            }
                        }
                    }
                }
                return false;
            }
            at_pos = i;
            have_at = true;
        }
        i += 1;
    }
    if !have_at {
        return false;
    }
    let a = at_pos;
    if a == 0 || a + 1 >= n {
        return false;
    }
    if email.get_char(a + 1) == '.' {
        return false;
    }
    if email.get_char(n - 1) == '.' {
        return false;
    }
    let mut found_dot = false;
    let mut j: usize = a + 1;
    while j < n
        invariant
            a + 1 <= j <= n,
            n == s.len(),
            s == email@,
            0 < a,
            a + 1 < n,
            all_ascii(s),
            s[a as int] == '@',
            forall|k: int| 0 <= k < n && k != a ==> s[k] != '@',
            s[a + 1] != '.',
            s[n - 1] != '.',
            found_dot ==> exists|k: int| a < k < j && s[k] == '.',
            !found_dot ==> forall|k: int| a < k < j ==> s[k] != '.',
            forall|k: int| a < k < j ==> !(#[trigger] s[k] == '.' && k + 1 < n && s[k + 1] == '.'),
        decreases n - j,
    {
        let c = email.get_char(j);
        if c == '.' {
            found_dot = true;
            if j + 1 < n && email.get_char(j + 1) == '.' {
                proof {
                    assert forall|x: int| !valid_email_split(s, x) by {
                        if valid_email_split(s, x) {
                            assert(s[x] == '@');
                            assert(x == a);
                            assert(!(s[j as int] == '.' && s[j + 1] == '.'));
                        }
                    }
                }
                return false;
            }
        }
        j += 1;
    }
    if !found_dot {
        proof {
            assert forall|x: int| !valid_email_split(s, x) by {
                if valid_email_split(s, x) {
                    assert(x == a);
                    let k = choose|k: int| a < k < s.len() && s[k] == '.';
                    assert(s[k] != '.');
                }
            }
        }
        return false;
    }
    proof {
        assert(valid_email_split(s, a as int));
    }
    true
}

/// Validate the three signup fields, reporting the first rule that fails:
/// username, then email, then password.
pub fn validate_signup_credentials(credentials: &NewUser) -> (r: Result<(), AuthError>)
    ensures
        r == (if !valid_username(credentials.username@) {
            Err::<(), AuthError>(AuthError::InvalidUsername)
        } else if !valid_email(credentials.email@) {
            Err::<(), AuthError>(AuthError::InvalidEmail)
        } else if !valid_password(credentials.password@) {
            Err::<(), AuthError>(AuthError::InvalidPassword)
        } else {
            Ok::<(), AuthError>(())
        }),
{
    if !is_username_valid(credentials.username.as_str()) {
        return Err(AuthError::InvalidUsername);
    }
    if !is_email_valid(credentials.email.as_str()) {
        return Err(AuthError::InvalidEmail);
    }
    if !is_password_valid(credentials.password.as_str()) {
        return Err(AuthError::InvalidPassword);
    }
    Ok(())
}

/// What argon2's password verification concludes for a stored PHC string
/// and a candidate password. The outcome depends on the two strings alone.
pub uninterp spec fn password_verifies(stored: Seq<char>, candidate: Seq<char>) -> bool;

/// Relies on argon2: `Argon2::hash_password` derives a digest from the
/// password and a fresh OS-random salt under the default parameters, and
/// encodes digest, salt and parameters as a PHC string. Verifying that
/// string against the same password recomputes the same digest, so the
/// returned hash verifies the password it was derived from.
#[verifier::external_body]
pub fn hash_password(password: &str) -> (r: Result<String, argon2::password_hash::Error>)
    ensures
        r matches Ok(h) ==> password_verifies(h@, password@),
{
    let salt = argon2::password_hash::SaltString::generate(rand::rngs::OsRng);
    let argon = argon2::Argon2::default();
    match argon2::PasswordHasher::hash_password(&argon, password.as_bytes(), &salt) {
        Ok(h) => Ok(h.to_string()),
        Err(e) => Err(e),
    }
}

/// Relies on argon2: `PasswordHash::new` parses the stored PHC string and
/// `Argon2::verify_password` recomputes the digest with the embedded salt
/// and parameters and compares in constant time. A malformed stored string
/// and a mismatch both come back as `false`; for fixed inputs the outcome
/// is a function of the two strings alone.
#[verifier::external_body]
pub(crate) fn verify_password(stored: &str, candidate: &str) -> (r: bool)
    ensures
        r == password_verifies(stored@, candidate@),
{
    match argon2::password_hash::PasswordHash::new(stored) {
        Ok(parsed) => argon2::PasswordVerifier::verify_password(
            &argon2::Argon2::default(),
            candidate.as_bytes(),
            &parsed,
        ).is_ok(),
        Err(_) => false,
    }
}

/// The error type argon2 reports from hashing, declared so that it can be
/// carried through a `Result` and mapped to an error of this crate.
#[verifier::external_type_specification]
#[verifier::external_body]
pub struct ExPasswordHashError(argon2::password_hash::Error);

/// Relies on rand: the thread-local CSPRNG sampled through the
/// `Alphanumeric` distribution yields only ASCII letters and digits, and
/// `take` bounds the sample count, so the collected string holds exactly
/// `length` alphanumeric characters.
#[verifier::external_body]
pub fn generate_token(length: usize) -> (r: String)
    ensures
        r@.len() == length as nat,
        forall|i: int| 0 <= i < r@.len() ==> is_alnum_char(r@[i]),
{
    rand::Rng::sample_iter(rand::thread_rng(), &rand::distributions::Alphanumeric)
        .take(length)
        .map(char::from)
        .collect()
}

/// Verify the presented credentials against the stored hash; on a match,
/// mint a fresh session token.
pub fn authorize_user(user: &crate::models::User, credentials: &CredentialsDto) -> (r: Result<
    String,
    AuthError,
>)
    ensures
        r is Ok <==> password_verifies(user.password@, credentials.password@),
        r matches Ok(t) ==> t@.len() == SESSION_ID_LENGTH && forall|i: int|
            0 <= i < t@.len() ==> is_alnum_char(t@[i]),
        r matches Err(e) ==> e == AuthError::WrongCredentials,
{
    if !verify_password(user.password.as_str(), credentials.password.as_str()) {
        return Err(AuthError::WrongCredentials);
    }
    Ok(generate_token(SESSION_ID_LENGTH))
}

} // verus!
