//! The signup, login and password-reset flows: orchestration of
//! validation, credential hashing, the user ledger and the token cache.
//! Each flow takes the clock as an argument and returns either its
//! success payload or the coded error the caller reports.

use vstd::prelude::*;

use crate::auth::{
    authorize_user, hash_password, password_verifies, valid_email, valid_password, valid_username,
    validate_signup_credentials,
};
use crate::dto::{AuthTokenDto, CredentialsDto, NewPasswordDto, NewUserResponseDto, ResetPasswordEmailDto};
use crate::errors::{AuthError, RepoError, ServiceError};
use crate::models::{NewUser, NewUserCompanyRoles, NewUserRole, RoleCode, User};
use crate::repositories::{Ledger, UserRepository};
use crate::sessions::{
    issue_temporary, redeem_temporary_token, SessionRepository, TokenCache, TokenPurpose,
};
use crate::text::is_alnum_char;
use crate::{CONFIRM_TOKEN_LIFE_TIME, RESET_TOKEN_LIFE_TIME, SESSION_ID_LENGTH, SESSION_LIFE_TIME};

verus! {

/// All three signup fields pass validation.
pub open spec fn signup_fields_ok(credentials: NewUser) -> bool {
    valid_username(credentials.username@) && valid_email(credentials.email@) && valid_password(
        credentials.password@,
    )
}

/// An unconfirmed registration holds the email address and its
/// confirmation window has not yet elapsed.
pub open spec fn blocked_by_unconfirmed(db: Ledger, email: Seq<char>, now: u64) -> bool {
    db.has_email(email) && !db.user_by_email(email).confirmed && now <= db.user_by_email(
        email,
    ).created_at + CONFIRM_TOKEN_LIFE_TIME
}

/// An unconfirmed registration holds the email address but its
/// confirmation window has elapsed, so the record may be reclaimed.
pub open spec fn stale_unconfirmed(db: Ledger, email: Seq<char>, now: u64) -> bool {
    db.has_email(email) && !db.user_by_email(email).confirmed && now > db.user_by_email(
        email,
    ).created_at + CONFIRM_TOKEN_LIFE_TIME
}

/// A confirmed account already holds the email address.
pub open spec fn email_conflict(db: Ledger, email: Seq<char>) -> bool {
    db.has_email(email) && db.user_by_email(email).confirmed
}

/// The username is held by an account other than the stale registration
/// a signup for `email` would reclaim.
pub open spec fn username_taken_for_signup(
    db: Ledger,
    username: Seq<char>,
    email: Seq<char>,
    now: u64,
) -> bool {
    exists|i: int|
        0 <= i < db.users@.len() && (#[trigger] db.users@[i]).username@ == username && !(
        stale_unconfirmed(db, email, now) && db.users@[i].email@ == email)
}

/// Register a new user: validate the fields, reject a live unconfirmed
/// registration or a taken email or username, reclaim an abandoned
/// unconfirmed registration, store the user with the default viewer role
/// and an unconfirmed flag, and issue a confirmation token for the
/// caller to send by email.
pub fn signup(db: &mut Ledger, cache: &mut TokenCache, credentials: NewUser, now: u64) -> (r:
    Result<(NewUserResponseDto, String), ServiceError>)
    requires
        old(db).wf(),
        old(cache).wf(),
        now + CONFIRM_TOKEN_LIFE_TIME <= u64::MAX,
    ensures
        final(db).wf(),
        final(cache).wf(),
        r == Err::<(NewUserResponseDto, String), ServiceError>(
            ServiceError::Auth(AuthError::InvalidUsername),
        ) <==> !valid_username(credentials.username@),
        r == Err::<(NewUserResponseDto, String), ServiceError>(
            ServiceError::Auth(AuthError::InvalidEmail),
        ) <==> valid_username(credentials.username@) && !valid_email(credentials.email@),
        r == Err::<(NewUserResponseDto, String), ServiceError>(
            ServiceError::Auth(AuthError::InvalidPassword),
        ) <==> valid_username(credentials.username@) && valid_email(credentials.email@)
            && !valid_password(credentials.password@),
        r == Err::<(NewUserResponseDto, String), ServiceError>(
            ServiceError::Auth(AuthError::UnconfirmedUser),
        ) <==> signup_fields_ok(credentials) && blocked_by_unconfirmed(
            *old(db),
            credentials.email@,
            now,
        ),
        r == Err::<(NewUserResponseDto, String), ServiceError>(
            ServiceError::Auth(AuthError::EmailInUse),
        ) <==> signup_fields_ok(credentials) && email_conflict(*old(db), credentials.email@),
        r == Err::<(NewUserResponseDto, String), ServiceError>(
            ServiceError::Auth(AuthError::UnavailableUsername),
        ) <==> signup_fields_ok(credentials) && !blocked_by_unconfirmed(
            *old(db),
            credentials.email@,
            now,
        ) && !email_conflict(*old(db), credentials.email@) && username_taken_for_signup(
            *old(db),
            credentials.username@,
            credentials.email@,
            now,
        ),
        r is Err ==> *final(cache) == *old(cache),
        (r is Err && !(signup_fields_ok(credentials) && stale_unconfirmed(
            *old(db),
            credentials.email@,
            now,
        ))) ==> *final(db) == *old(db),
        (r is Err && signup_fields_ok(credentials) && stale_unconfirmed(
            *old(db),
            credentials.email@,
            now,
        )) ==> ({
            let stale_id = old(db).user_by_email(credentials.email@).id;
            &&& final(db).users@ == old(db).users@.remove(
                old(db).email_index_of(credentials.email@),
            )
            &&& (forall|x: NewUserRole| #[trigger] final(db).user_roles@.contains(x) <==> old(db).user_roles@.contains(x) && x.user_id != stale_id)
            &&& (forall|y: NewUserCompanyRoles| #[trigger] final(db).user_company_roles@.contains(y) <==> old(db).user_company_roles@.contains(y)
                && y.user_id != stale_id)
            &&& final(db).roles == old(db).roles
            &&& final(db).companies == old(db).companies
            &&& final(db).next_user_id == old(db).next_user_id
            &&& final(db).next_company_id == old(db).next_company_id
        }),
        (r is Ok || r == Err::<(NewUserResponseDto, String), ServiceError>(
            ServiceError::Internal,
        )) <==> signup_fields_ok(credentials) && !blocked_by_unconfirmed(
            *old(db),
            credentials.email@,
            now,
        ) && !email_conflict(*old(db), credentials.email@) && !username_taken_for_signup(
            *old(db),
            credentials.username@,
            credentials.email@,
            now,
        ),
        r is Ok ==> signup_fields_ok(credentials) && !blocked_by_unconfirmed(
            *old(db),
            credentials.email@,
            now,
        ) && !email_conflict(*old(db), credentials.email@) && !username_taken_for_signup(
            *old(db),
            credentials.username@,
            credentials.email@,
            now,
        ),
        r matches Ok((dto, token)) ==> ({
            let u = final(db).user_by_email(credentials.email@);
            &&& dto.username@ == credentials.username@
            &&& dto.email@ == credentials.email@
            &&& token@.len() == SESSION_ID_LENGTH
            &&& (forall|i: int| 0 <= i < token@.len() ==> is_alnum_char(token@[i]))
            &&& final(db).has_email(credentials.email@)
            &&& u.username@ == credentials.username@
            &&& !u.confirmed
            &&& u.created_at == now
            &&& u.user_type == crate::models::UserType::Regular
            &&& password_verifies(u.password@, credentials.password@)
            &&& (forall|c: RoleCode| #[trigger] final(db).has_global_role(u.id, c) <==> c
                == RoleCode::Viewer)
            &&& final(cache).contents() == old(cache).contents().insert(
                (TokenPurpose::Confirm, token@),
                (u.id, (now + CONFIRM_TOKEN_LIFE_TIME) as u64),
            )
        }),
{
    if let Err(e) = validate_signup_credentials(&credentials) {
        return Err(ServiceError::Auth(e));
    }
    let ghost pre = *db;
    match UserRepository::find_by_email(db, credentials.email.as_str()) {
        Err(_) => {},
        Ok(existing) => {
            if existing.confirmed {
                return Err(ServiceError::Auth(AuthError::EmailInUse));
            }
            let within = if existing.created_at > u64::MAX - CONFIRM_TOKEN_LIFE_TIME {
                true
            } else {
                now <= existing.created_at + CONFIRM_TOKEN_LIFE_TIME
            };
            if within {
                return Err(ServiceError::Auth(AuthError::UnconfirmedUser));
            }
            UserRepository::delete(db, existing.id);
            proof {
                let eidx = pre.email_index_of(credentials.email@);
                assert(pre.has_email(credentials.email@));
                assert(0 <= eidx < pre.users@.len() && pre.users@[eidx].email@
                    == credentials.email@);
                pre.lemma_user_index(eidx);
                assert(existing == pre.users@[eidx]);
                assert(pre.user_index_of(existing.id) == eidx);
                assert(db.users@ == pre.users@.remove(eidx));
                assert forall|i: int|
                    0 <= i < db.users@.len() implies (#[trigger] db.users@[i]).email@
                    != credentials.email@ by {
                    let oi = if i < eidx {
                        i
                    } else {
                        i + 1
                    };
                    assert(db.users@[i] == pre.users@[oi]);
                    if pre.users@[oi].email@ == credentials.email@ {
                        pre.lemma_user_index(oi);
                    }
                }
                assert(!db.has_email(credentials.email@));
            }
        },
    }
    let ghost mid = *db;
    proof {
        assert(!mid.has_email(credentials.email@));
        assert(mid.has_username(credentials.username@) == username_taken_for_signup(
            pre,
            credentials.username@,
            credentials.email@,
            now,
        )) by {
            if stale_unconfirmed(pre, credentials.email@, now) {
                let idx = pre.user_index_of(
                    pre.user_by_email(credentials.email@).id,
                );
                if mid.has_username(credentials.username@) {
                    let i = choose|i: int|
                        0 <= i < mid.users@.len() && (#[trigger] mid.users@[i]).username@
                            == credentials.username@;
                    let oi = if i < idx {
                        i
                    } else {
                        i + 1
                    };
                    assert(mid.users@[i] == pre.users@[oi]);
                    assert(pre.users@[oi].email@ != credentials.email@) by {
                        if oi != idx && pre.users@[oi].email@ == credentials.email@ {
                            pre.lemma_user_index(oi);
                        }
                    }
                }
                if username_taken_for_signup(pre, credentials.username@, credentials.email@, now) {
                    let i = choose|i: int|
                        0 <= i < pre.users@.len() && (#[trigger] pre.users@[i]).username@
                            == credentials.username@ && !(stale_unconfirmed(
                            pre,
                            credentials.email@,
                            now,
                        ) && pre.users@[i].email@ == credentials.email@);
                    assert(i != idx) by {
                        pre.lemma_user_index(idx);
                    }
                    let ni = if i < idx {
                        i
                    } else {
                        i - 1
                    };
                    assert(mid.users@[ni] == pre.users@[i]);
                    assert(mid.has_username(credentials.username@));
                }
            } else {
                assert(mid.users@ == pre.users@);
                if mid.has_username(credentials.username@) {
                    let i = choose|i: int|
                        0 <= i < mid.users@.len() && (#[trigger] mid.users@[i]).username@
                            == credentials.username@;
                    assert(pre.users@[i].username@ == credentials.username@);
                }
                if username_taken_for_signup(pre, credentials.username@, credentials.email@, now) {
                    let i = choose|i: int|
                        0 <= i < pre.users@.len() && (#[trigger] pre.users@[i]).username@
                            == credentials.username@ && !(stale_unconfirmed(
                            pre,
                            credentials.email@,
                            now,
                        ) && pre.users@[i].email@ == credentials.email@);
                    assert(mid.users@[i].username@ == credentials.username@);
                }
            }
        }
    }
    if db.find_user_index_by_username(credentials.username.as_str()).is_some() {
        proof {
            let i = choose|i: int|
                0 <= i < db.users@.len() && (#[trigger] db.users@[i]).username@
                    == credentials.username@;
        }
        return Err(ServiceError::Auth(AuthError::UnavailableUsername));
    }
    let password_hash = match hash_password(credentials.password.as_str()) {
        Err(_) => {
            return Err(ServiceError::Internal);
        },
        Ok(h) => h,
    };
    let new_user = NewUser {
        username: credentials.username,
        email: credentials.email,
        password: password_hash,
    };
    let ghost email_view = new_user.email@;
    let mut default_roles: Vec<RoleCode> = Vec::new();
    default_roles.push(RoleCode::Viewer);
    proof {
        assert(default_roles@[0] == RoleCode::Viewer);
        assert forall|c: RoleCode| #[trigger] default_roles@.contains(c) <==> c
            == RoleCode::Viewer by {
            if default_roles@.contains(c) {
                let k = choose|k: int| 0 <= k < default_roles@.len() && default_roles@[k] == c;
            }
            if c == RoleCode::Viewer {
                assert(default_roles@[0] == c);
            }
        }
    }
    match UserRepository::create(db, new_user, default_roles, now) {
        Err(RepoError::DuplicateEmail) => Err(ServiceError::Auth(AuthError::EmailInUse)),
        Err(RepoError::DuplicateUsername) => Err(
            ServiceError::Auth(AuthError::UnavailableUsername),
        ),
        Err(_) => Err(ServiceError::Internal),
        Ok(user) => {
            proof {
                let last = mid.users@.len() as int;
                assert(db.users@[last] == user);
                db.lemma_user_index(last);
                assert(db.user_by_email(email_view) == user);
            }
            let token = issue_temporary(cache, user.id, TokenPurpose::Confirm, now);
            let dto = NewUserResponseDto { username: user.username, email: user.email };
            Ok((dto, token))
        },
    }
}

/// Log a user in: the email must belong to a confirmed account and the
/// password must verify against the stored hash; on success a fresh
/// session token is issued and cached.
pub fn login(db: &Ledger, cache: &mut TokenCache, credentials: &CredentialsDto, now: u64) -> (r:
    Result<AuthTokenDto, ServiceError>)
    requires
        db.wf(),
        old(cache).wf(),
        now + SESSION_LIFE_TIME <= u64::MAX,
    ensures
        final(cache).wf(),
        r == Err::<AuthTokenDto, ServiceError>(ServiceError::Auth(AuthError::EmailNotExist)) <==>
            !db.has_email(credentials.email@),
        r == Err::<AuthTokenDto, ServiceError>(ServiceError::Auth(AuthError::UnconfirmedUser))
            <==> db.has_email(credentials.email@) && !db.user_by_email(
            credentials.email@,
        ).confirmed,
        r == Err::<AuthTokenDto, ServiceError>(ServiceError::Auth(AuthError::WrongCredentials))
            <==> db.has_email(credentials.email@) && db.user_by_email(credentials.email@).confirmed
            && !password_verifies(
            db.user_by_email(credentials.email@).password@,
            credentials.password@,
        ),
        r is Ok <==> db.has_email(credentials.email@) && db.user_by_email(
            credentials.email@,
        ).confirmed && password_verifies(
            db.user_by_email(credentials.email@).password@,
            credentials.password@,
        ),
        r is Err ==> *final(cache) == *old(cache),
        r matches Ok(dto) ==> ({
            &&& dto.token@.len() == SESSION_ID_LENGTH
            &&& (forall|i: int| 0 <= i < dto.token@.len() ==> is_alnum_char(dto.token@[i]))
            &&& final(cache).contents() == old(cache).contents().insert(
                (TokenPurpose::Session, dto.token@),
                (db.user_by_email(credentials.email@).id, (now + SESSION_LIFE_TIME) as u64),
            )
        }),
{
    let user = match UserRepository::find_by_email(db, credentials.email.as_str()) {
        Err(_) => {
            return Err(ServiceError::Auth(AuthError::EmailNotExist));
        },
        Ok(u) => u,
    };
    if !user.confirmed {
        return Err(ServiceError::Auth(AuthError::UnconfirmedUser));
    }
    let session_id = match authorize_user(&user, credentials) {
        Err(_) => {
            return Err(ServiceError::Auth(AuthError::WrongCredentials));
        },
        Ok(t) => t,
    };
    SessionRepository::cache_session_id(session_id.as_str(), user.id, cache, now);
    Ok(AuthTokenDto { token: session_id })
}

/// Begin a password reset: the email must be well-formed and belong to a
/// stored account; a reset token with a one-hour lifetime is issued and
/// returned with the account, for the caller to send by email.
pub fn reset_password(
    db: &Ledger,
    cache: &mut TokenCache,
    email_dto: &ResetPasswordEmailDto,
    now: u64,
) -> (r: Result<(User, String), ServiceError>)
    requires
        db.wf(),
        old(cache).wf(),
        now + RESET_TOKEN_LIFE_TIME <= u64::MAX,
    ensures
        final(cache).wf(),
        r == Err::<(User, String), ServiceError>(ServiceError::Auth(AuthError::InvalidEmail)) <==>
            !valid_email(email_dto.email@),
        r == Err::<(User, String), ServiceError>(ServiceError::Auth(AuthError::EmailNotExist))
            <==> valid_email(email_dto.email@) && !db.has_email(email_dto.email@),
        r is Ok <==> valid_email(email_dto.email@) && db.has_email(email_dto.email@),
        r is Err ==> *final(cache) == *old(cache),
        r matches Ok((user, token)) ==> ({
            &&& user == db.user_by_email(email_dto.email@)
            &&& token@.len() == SESSION_ID_LENGTH
            &&& (forall|i: int| 0 <= i < token@.len() ==> is_alnum_char(token@[i]))
            &&& final(cache).contents() == old(cache).contents().insert(
                (TokenPurpose::Reset, token@),
                (user.id, (now + RESET_TOKEN_LIFE_TIME) as u64),
            )
        }),
{
    if !crate::auth::is_email_valid(email_dto.email.as_str()) {
        return Err(ServiceError::Auth(AuthError::InvalidEmail));
    }
    let user = match UserRepository::find_by_email(db, email_dto.email.as_str()) {
        Err(_) => {
            return Err(ServiceError::Auth(AuthError::EmailNotExist));
        },
        Ok(u) => u,
    };
    let token = issue_temporary(cache, user.id, TokenPurpose::Reset, now);
    Ok((user, token))
}

/// The two fields of a new-password request agree and satisfy the
/// password rule.
pub open spec fn new_password_ok(dto: NewPasswordDto) -> bool {
    dto.password@ == dto.confirmation@ && valid_password(dto.password@)
}

/// Complete a password reset: the token must have the expected length,
/// the new password must match its confirmation and pass validation, and
/// the token must resolve; it is consumed in the same step, so a second
/// use fails. The resolved account's password hash is replaced.
pub fn change_password(
    db: &mut Ledger,
    cache: &mut TokenCache,
    token: &str,
    password_dto: &NewPasswordDto,
    now: u64,
) -> (r: Result<(), ServiceError>)
    requires
        old(db).wf(),
        old(cache).wf(),
    ensures
        final(db).wf(),
        final(cache).wf(),
        r == Err::<(), ServiceError>(ServiceError::Auth(AuthError::InvalidToken)) <==> token@.len()
            != SESSION_ID_LENGTH || (new_password_ok(*password_dto) && old(cache).lookup(
            TokenPurpose::Reset,
            token@,
            now,
        ) is None),
        r == Err::<(), ServiceError>(ServiceError::Auth(AuthError::InvalidPassword)) <==> token@
            .len() == SESSION_ID_LENGTH && !new_password_ok(*password_dto),
        r is Ok || r == Err::<(), ServiceError>(ServiceError::Internal) <==> token@.len()
            == SESSION_ID_LENGTH && new_password_ok(*password_dto) && old(cache).lookup(
            TokenPurpose::Reset,
            token@,
            now,
        ) is Some,
        (r is Ok || r == Err::<(), ServiceError>(ServiceError::Internal)) ==> final(cache).contents() == old(cache).contents().remove((TokenPurpose::Reset, token@)),
        r matches Err(e) && e != ServiceError::Internal ==> *final(db) == *old(db)
            && final(cache).contents() == old(cache).contents(),
        r == Err::<(), ServiceError>(ServiceError::Internal) ==> *final(db) == *old(db),
        r is Ok ==> ({
            let uid = old(cache).lookup(TokenPurpose::Reset, token@, now)->Some_0;
            &&& old(db).has_user_id(uid)
            &&& final(db).has_user_id(uid)
            &&& password_verifies(final(db).user_by_id(uid).password@, password_dto.password@)
        }),
        r is Ok ==> ({
            let uid = old(cache).lookup(TokenPurpose::Reset, token@, now)->Some_0;
            let prev = old(db).user_by_id(uid);
            let u = final(db).user_by_id(uid);
            &&& final(db).users@ == old(db).users@.update(old(db).user_index_of(uid), u)
            &&& u.id == prev.id
            &&& u.username == prev.username
            &&& u.email == prev.email
            &&& u.first_name == prev.first_name
            &&& u.last_name == prev.last_name
            &&& u.country == prev.country
            &&& u.birth_date == prev.birth_date
            &&& u.created_at == prev.created_at
            &&& u.confirmed == prev.confirmed
            &&& u.user_type == prev.user_type
            &&& u.updated_at == now
            &&& final(db).roles == old(db).roles
            &&& final(db).user_roles == old(db).user_roles
            &&& final(db).companies == old(db).companies
            &&& final(db).user_company_roles == old(db).user_company_roles
            &&& final(db).next_user_id == old(db).next_user_id
            &&& final(db).next_company_id == old(db).next_company_id
        }),
{
    if token.unicode_len() != SESSION_ID_LENGTH {
        return Err(ServiceError::Auth(AuthError::InvalidToken));
    }
    let is_confirmation_match = password_dto.password == password_dto.confirmation;
    if !is_confirmation_match || !crate::auth::is_password_valid(password_dto.password.as_str()) {
        return Err(ServiceError::Auth(AuthError::InvalidPassword));
    }
    let user_id = match redeem_temporary_token(token, TokenPurpose::Reset, cache, now) {
        Err(_) => {
            return Err(ServiceError::Auth(AuthError::InvalidToken));
        },
        Ok(uid) => uid,
    };
    let user = match UserRepository::find(db, user_id) {
        Err(_) => {
            return Err(ServiceError::Internal);
        },
        Ok(u) => u,
    };
    let password_hash = match hash_password(password_dto.password.as_str()) {
        Err(_) => {
            return Err(ServiceError::Internal);
        },
        Ok(h) => h,
    };
    let ghost mid = *db;
    match UserRepository::update_password(db, user_id, password_hash.as_str(), now) {
        Err(_) => Err(ServiceError::Internal),
        Ok(updated) => {
            proof {
                let idx = mid.user_index_of(user_id);
                mid.lemma_user_index(idx);
                assert(db.users@[idx] == updated);
                db.lemma_user_index(idx);
                assert(db.user_by_id(user_id) == updated);
            }
            Ok(())
        },
    }
}

/// Confirm a signup: the token must have the expected length and resolve
/// to a stored user. A first confirmation marks the user confirmed and
/// consumes the token; presenting the token of an already confirmed user
/// changes nothing and does not fail.
pub fn confirm_signup(db: &mut Ledger, cache: &mut TokenCache, token: &str, now: u64) -> (r:
    Result<User, ServiceError>)
    requires
        old(db).wf(),
        old(cache).wf(),
    ensures
        final(db).wf(),
        final(cache).wf(),
        r is Ok <==> token@.len() == SESSION_ID_LENGTH && (old(cache).lookup(
            TokenPurpose::Confirm,
            token@,
            now,
        ) matches Some(uid) && old(db).has_user_id(uid)),
        r matches Err(e) ==> e == ServiceError::Auth(AuthError::InvalidToken) && *final(db) == *old(db) && *final(cache) == *old(cache),
        r matches Ok(u) ==> ({
            let uid = old(cache).lookup(TokenPurpose::Confirm, token@, now)->Some_0;
            &&& u.id == uid
            &&& u.confirmed
            &&& final(db).has_user_id(uid)
            &&& final(db).user_by_id(uid) == u
            &&& (old(db).user_by_id(uid).confirmed ==> *final(db) == *old(db) && *final(cache)
                == *old(cache))
            &&& (!old(db).user_by_id(uid).confirmed ==> final(cache).contents() == old(cache).contents().remove((TokenPurpose::Confirm, token@)))
            &&& (!old(db).user_by_id(uid).confirmed ==> ({
                let prev = old(db).user_by_id(uid);
                &&& final(db).users@ == old(db).users@.update(old(db).user_index_of(uid), u)
                &&& u.username == prev.username
                &&& u.email == prev.email
                &&& u.password == prev.password
                &&& u.first_name == prev.first_name
                &&& u.last_name == prev.last_name
                &&& u.country == prev.country
                &&& u.birth_date == prev.birth_date
                &&& u.created_at == prev.created_at
                &&& u.user_type == prev.user_type
                &&& u.updated_at == now
                &&& final(db).roles == old(db).roles
                &&& final(db).user_roles == old(db).user_roles
                &&& final(db).companies == old(db).companies
                &&& final(db).user_company_roles == old(db).user_company_roles
                &&& final(db).next_user_id == old(db).next_user_id
                &&& final(db).next_company_id == old(db).next_company_id
            }))
        }),
{
    if token.unicode_len() != SESSION_ID_LENGTH {
        return Err(ServiceError::Auth(AuthError::InvalidToken));
    }
    let user_id = match cache.get(TokenPurpose::Confirm, token, now) {
        None => {
            return Err(ServiceError::Auth(AuthError::InvalidToken));
        },
        Some(uid) => uid,
    };
    let user = match UserRepository::find(db, user_id) {
        Err(_) => {
            return Err(ServiceError::Auth(AuthError::InvalidToken));
        },
        Ok(u) => u,
    };
    if user.confirmed {
        return Ok(user);
    }
    let ghost mid = *db;
    match UserRepository::confirm_signup(db, user_id, now) {
        Err(_) => Err(ServiceError::Auth(AuthError::InvalidToken)),
        Ok(updated) => {
            proof {
                let idx = mid.user_index_of(user_id);
                mid.lemma_user_index(idx);
                assert(db.users@[idx] == updated);
                db.lemma_user_index(idx);
                assert(db.user_by_id(user_id) == updated);
            }
            SessionRepository::redeem_token(token, TokenPurpose::Confirm, cache);
            Ok(updated)
        },
    }
}

} // verus!
