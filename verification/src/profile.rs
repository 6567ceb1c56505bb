//! The profile flows of an authenticated user: reading the profile
//! without the credential hash, changing the password, updating the
//! profile fields with trimming and validation, and deleting the
//! account.

use vstd::prelude::*;

use crate::auth::{hash_password, is_password_valid, password_verifies};
use crate::authorization::new_password_ok;
use crate::dto::{NewPasswordDto, UpdateUserDto, UserProfileDto};
use crate::errors::{AuthError, ProfileError, ServiceError};
use crate::models::{parse_date, Date, UpdatedUserInfo, User};
use crate::repositories::{Ledger, UserRepository};
use crate::text::{char_is_alpha, char_is_blank, char_is_space, is_alpha_char, is_blank_char, is_space_char};

verus! {

/// A profile text field is acceptable when it holds at least one ASCII
/// letter, and what remains of it after trimming consists of ASCII
/// letters and blanks only: every character standing between two
/// non-whitespace characters must be a letter or a blank, while the
/// whitespace run at either end is trimmed away unexamined.
pub open spec fn valid_profile_field(s: Seq<char>) -> bool {
    &&& exists|i: int| 0 <= i < s.len() && is_alpha_char(s[i])
    &&& forall|i: int, j: int, k: int|
        #![trigger s[i], s[j], s[k]]
        0 <= i <= j <= k < s.len() && !is_space_char(s[i]) && !is_space_char(s[k])
            ==> is_alpha_char(s[j]) || is_blank_char(s[j])
}

/// Check a profile text field.
pub fn is_profile_field_valid(s: &str) -> (r: bool)
    ensures
        r == valid_profile_field(s@),
{
    let n = s.unicode_len();
    let mut a: usize = 0;
    while a < n && char_is_space(s.get_char(a))
        invariant
            a <= n,
            n == s@.len(),
            forall|k: int| 0 <= k < a ==> is_space_char(s@[k]),
        decreases n - a,
    {
        a += 1;
    }
    if a == n {
        proof {
            if exists|i: int| 0 <= i < s@.len() && is_alpha_char(s@[i]) {
                let i = choose|i: int| 0 <= i < s@.len() && is_alpha_char(s@[i]);
                assert(is_space_char(s@[i]));
            }
        }
        return false;
    }
    let mut b: usize = n - 1;
    while b > a && char_is_space(s.get_char(b))
        invariant
            a <= b < n,
            n == s@.len(),
            forall|k: int| b < k < n ==> is_space_char(s@[k]),
            forall|k: int| 0 <= k < a ==> is_space_char(s@[k]),
            !is_space_char(s@[a as int]),
        decreases b,
    {
        b -= 1;
    }
    let mut has_alpha = false;
    let mut j: usize = a;
    while j <= b
        invariant
            a <= j <= b + 1,
            b < n,
            n == s@.len(),
            !is_space_char(s@[a as int]),
            !is_space_char(s@[b as int]),
            forall|k: int| 0 <= k < a ==> is_space_char(s@[k]),
            forall|k: int| b < k < n ==> is_space_char(s@[k]),
            has_alpha <==> exists|k: int| a <= k < j && is_alpha_char(s@[k]),
            forall|k: int|
                a <= k < j ==> is_alpha_char(#[trigger] s@[k]) || is_blank_char(s@[k]),
        decreases b + 1 - j,
    {
        let c = s.get_char(j);
        if char_is_alpha(c) {
            has_alpha = true;
        } else if !char_is_blank(c) {
            proof {
                if valid_profile_field(s@) {
                    assert(s@[a as int] == s@[a as int] && s@[j as int] == s@[j as int] && s@[
                    b as int] == s@[b as int]);
                    assert(is_alpha_char(s@[j as int]) || is_blank_char(s@[j as int]));
                }
            }
            return false;
        }
        j += 1;
    }
    proof {
        if has_alpha {
            assert forall|i: int, j2: int, k: int|
                0 <= i <= j2 <= k < s@.len() && !is_space_char(#[trigger] s@[i]) && !is_space_char(
                #[trigger] s@[k]) implies is_alpha_char(#[trigger] s@[j2]) || is_blank_char(
                s@[j2],
            ) by {
                assert(a <= i);
                assert(k <= b);
                assert(a <= j2 < j);
            }
        } else {
            if exists|i: int| 0 <= i < s@.len() && is_alpha_char(s@[i]) {
                let i = choose|i: int| 0 <= i < s@.len() && is_alpha_char(s@[i]);
                if i < a || i > b {
                    assert(is_space_char(s@[i]));
                } else {
                    assert(exists|k: int| a <= k < j && is_alpha_char(s@[k]));
                }
            }
        }
    }
    has_alpha
}

/// `r` is `s` with its leading and trailing whitespace removed: the
/// subrange from the first to the last non-whitespace character, or
/// empty when the string is all whitespace.
pub open spec fn is_trimmed_view(s: Seq<char>, r: Seq<char>) -> bool {
    if exists|i: int| 0 <= i < s.len() && !is_space_char(s[i]) {
        exists|a: int, b: int|
            {
                &&& 0 <= a <= b < s.len()
                &&& r == s.subrange(a, b + 1)
                &&& !is_space_char(s[a])
                &&& !is_space_char(s[b])
                &&& (forall|i: int| 0 <= i < a ==> is_space_char(s[i]))
                &&& (forall|i: int| b < i < s.len() ==> is_space_char(s[i]))
            }
    } else {
        r == Seq::<char>::empty()
    }
}

/// Remove leading and trailing whitespace.
pub fn trim_spaces(s: &str) -> (r: String)
    ensures
        is_trimmed_view(s@, r@),
{
    let n = s.unicode_len();
    let mut a: usize = 0;
    while a < n && char_is_space(s.get_char(a))
        invariant
            a <= n,
            n == s@.len(),
            forall|k: int| 0 <= k < a ==> is_space_char(s@[k]),
        decreases n - a,
    {
        a += 1;
    }
    if a == n {
        proof {
            if exists|i: int| 0 <= i < s@.len() && !is_space_char(s@[i]) {
                let i = choose|i: int| 0 <= i < s@.len() && !is_space_char(s@[i]);
            }
        }
        return String::new();
    }
    let mut b: usize = n - 1;
    while b > a && char_is_space(s.get_char(b))
        invariant
            a <= b < n,
            n == s@.len(),
            forall|k: int| b < k < n ==> is_space_char(s@[k]),
            forall|k: int| 0 <= k < a ==> is_space_char(s@[k]),
            !is_space_char(s@[a as int]),
        decreases b,
    {
        b -= 1;
    }
    let trimmed = s.substring_char(a, b + 1);
    let r = trimmed.to_owned();
    proof {
        assert(!is_space_char(s@[b as int]));
        assert(r@ == s@.subrange(a as int, b + 1));
    }
    r
}

/// The profile as handed to the caller; the credential hash is left out.
pub fn user_profile(user: &User) -> (r: UserProfileDto)
    ensures
        r.id == user.id,
        r.username == user.username,
        r.email == user.email,
        r.first_name == user.first_name,
        r.last_name == user.last_name,
        r.country == user.country,
        r.birth_date == user.birth_date,
        r.created_at == user.created_at,
        r.updated_at == user.updated_at,
{
    UserProfileDto {
        id: user.id,
        username: user.username.clone(),
        email: user.email.clone(),
        first_name: crate::models::clone_opt_string(&user.first_name),
        last_name: crate::models::clone_opt_string(&user.last_name),
        country: crate::models::clone_opt_string(&user.country),
        birth_date: user.birth_date,
        created_at: user.created_at,
        updated_at: user.updated_at,
    }
}

/// Change the authenticated user's password: the new password must match
/// its confirmation and pass validation; the stored hash is replaced.
pub fn update_password(
    db: &mut Ledger,
    user: &User,
    password_dto: &NewPasswordDto,
    now: u64,
) -> (r: Result<(), ServiceError>)
    requires
        old(db).wf(),
        old(db).has_user_id(user.id),
    ensures
        final(db).wf(),
        r == Err::<(), ServiceError>(ServiceError::Auth(AuthError::InvalidPassword)) <==>
            !new_password_ok(*password_dto),
        r is Ok || r == Err::<(), ServiceError>(ServiceError::Internal) <==> new_password_ok(
            *password_dto,
        ),
        r is Err ==> *final(db) == *old(db),
        r is Ok ==> final(db).has_user_id(user.id) && password_verifies(
            final(db).user_by_id(user.id).password@,
            password_dto.password@,
        ),
        r is Ok ==> ({
            let prev = old(db).user_by_id(user.id);
            let u = final(db).user_by_id(user.id);
            &&& final(db).users@ == old(db).users@.update(old(db).user_index_of(user.id), u)
            &&& u.id == prev.id
            &&& u.username == prev.username
            &&& u.email == prev.email
            &&& u.first_name == prev.first_name
            &&& u.last_name == prev.last_name
            &&& u.country == prev.country
            &&& u.birth_date == prev.birth_date
            &&& u.created_at == prev.created_at
            &&& u.confirmed == prev.confirmed
            &&& u.user_type == prev.user_type
            &&& u.updated_at == now
            &&& final(db).roles == old(db).roles
            &&& final(db).user_roles == old(db).user_roles
            &&& final(db).companies == old(db).companies
            &&& final(db).user_company_roles == old(db).user_company_roles
            &&& final(db).next_user_id == old(db).next_user_id
            &&& final(db).next_company_id == old(db).next_company_id
        }),
{
    let is_confirmation_equal = password_dto.password == password_dto.confirmation;
    if !is_confirmation_equal || !is_password_valid(password_dto.password.as_str()) {
        return Err(ServiceError::Auth(AuthError::InvalidPassword));
    }
    let password_hash = match hash_password(password_dto.password.as_str()) {
        Err(_) => {
            return Err(ServiceError::Internal);
        },
        Ok(h) => h,
    };
    let ghost mid = *db;
    match UserRepository::update_password(db, user.id, password_hash.as_str(), now) {
        Err(_) => Err(ServiceError::Internal),
        Ok(updated) => {
            proof {
                let idx = mid.user_index_of(user.id);
                mid.lemma_user_index(idx);
                assert(db.users@[idx] == updated);
                db.lemma_user_index(idx);
            }
            Ok(())
        },
    }
}

/// What the stored value of an optional profile text field must be: the
/// given value trimmed, or cleared when none was given.
pub open spec fn stored_field_ok(given: Option<String>, stored: Option<String>) -> bool {
    match given {
        Option::None => stored is None,
        Option::Some(v) => stored matches Some(t) && is_trimmed_view(v@, t@),
    }
}

/// Update the authenticated user's profile fields. Each given text field
/// must hold letters and whitespace only and something besides
/// whitespace; the birth date must spell an existing calendar day. The
/// first failing field decides the error, in the order first name, last
/// name, country, birth date; text fields are stored trimmed, and a
/// field not given is cleared.
pub fn update_user(db: &mut Ledger, user: &User, update: UpdateUserDto, now: u64) -> (r: Result<
    User,
    ServiceError,
>)
    requires
        old(db).wf(),
        old(db).has_user_id(user.id),
    ensures
        final(db).wf(),
        r == Err::<User, ServiceError>(ServiceError::Profile(ProfileError::InvalidFirstName))
            <==> (update.first_name matches Some(v) && !valid_profile_field(v@)),
        r == Err::<User, ServiceError>(ServiceError::Profile(ProfileError::InvalidLastName)) <==>
            !(update.first_name matches Some(v) && !valid_profile_field(v@)) && (update.last_name
            matches Some(v) && !valid_profile_field(v@)),
        r == Err::<User, ServiceError>(ServiceError::Profile(ProfileError::InvalidCountry)) <==> !(
        update.first_name matches Some(v) && !valid_profile_field(v@)) && !(update.last_name
            matches Some(v) && !valid_profile_field(v@)) && (update.country matches Some(v)
            && !valid_profile_field(v@)),
        r == Err::<User, ServiceError>(ServiceError::Profile(ProfileError::InvalidBirthDate)) <==>
            !(update.first_name matches Some(v) && !valid_profile_field(v@)) && !(update.last_name
            matches Some(v) && !valid_profile_field(v@)) && !(update.country matches Some(v)
            && !valid_profile_field(v@)) && (update.birth_date matches Some(v) && !(
        crate::models::date_text_shape(v@) && crate::models::date_of_text(v@).valid())),
        r is Err ==> *final(db) == *old(db),
        r is Ok <==> !(update.first_name matches Some(v) && !valid_profile_field(v@)) && !(
        update.last_name matches Some(v) && !valid_profile_field(v@)) && !(update.country
            matches Some(v) && !valid_profile_field(v@)) && !(update.birth_date matches Some(v)
            && !(crate::models::date_text_shape(v@) && crate::models::date_of_text(v@).valid())),
        r matches Ok(u) ==> ({
            let prev = old(db).user_by_id(user.id);
            &&& final(db).users@ == old(db).users@.update(old(db).user_index_of(user.id), u)
            &&& u.created_at == prev.created_at
            &&& u.user_type == prev.user_type
            &&& final(db).roles == old(db).roles
            &&& final(db).user_roles == old(db).user_roles
            &&& final(db).companies == old(db).companies
            &&& final(db).user_company_roles == old(db).user_company_roles
            &&& final(db).next_user_id == old(db).next_user_id
            &&& final(db).next_company_id == old(db).next_company_id
        }),
        r matches Ok(u) ==> ({
            &&& stored_field_ok(update.first_name, u.first_name)
            &&& stored_field_ok(update.last_name, u.last_name)
            &&& stored_field_ok(update.country, u.country)
            &&& (update.birth_date matches Some(v) ==> u.birth_date == Some(
                crate::models::date_of_text(v@),
            ))
            &&& (update.birth_date is None ==> u.birth_date is None)
            &&& u.id == user.id
            &&& u.updated_at == now
            &&& u.username == old(db).user_by_id(user.id).username
            &&& u.email == old(db).user_by_id(user.id).email
            &&& u.password == old(db).user_by_id(user.id).password
            &&& u.confirmed == old(db).user_by_id(user.id).confirmed
            &&& final(db).has_user_id(user.id)
            &&& final(db).user_by_id(user.id) == u
        }),
{
    let first_name: Option<String> = match &update.first_name {
        Option::None => Option::None,
        Option::Some(v) => {
            if !is_profile_field_valid(v.as_str()) {
                return Err(ServiceError::Profile(ProfileError::InvalidFirstName));
            }
            Option::Some(trim_spaces(v.as_str()))
        },
    };
    let last_name: Option<String> = match &update.last_name {
        Option::None => Option::None,
        Option::Some(v) => {
            if !is_profile_field_valid(v.as_str()) {
                return Err(ServiceError::Profile(ProfileError::InvalidLastName));
            }
            Option::Some(trim_spaces(v.as_str()))
        },
    };
    let country: Option<String> = match &update.country {
        Option::None => Option::None,
        Option::Some(v) => {
            if !is_profile_field_valid(v.as_str()) {
                return Err(ServiceError::Profile(ProfileError::InvalidCountry));
            }
            Option::Some(trim_spaces(v.as_str()))
        },
    };
    let birth_date: Option<Date> = match &update.birth_date {
        Option::None => Option::None,
        Option::Some(v) => {
            match parse_date(v.as_str()) {
                Option::None => {
                    return Err(ServiceError::Profile(ProfileError::InvalidBirthDate));
                },
                Option::Some(d) => Option::Some(d),
            }
        },
    };
    let info = UpdatedUserInfo { first_name, last_name, country, birth_date };
    let ghost mid = *db;
    match UserRepository::update_user(db, user.id, info, now) {
        Err(_) => Err(ServiceError::Internal),
        Ok(updated) => {
            proof {
                let idx = mid.user_index_of(user.id);
                mid.lemma_user_index(idx);
                assert(db.users@[idx] == updated);
                db.lemma_user_index(idx);
            }
            Ok(updated)
        },
    }
}

/// Delete the authenticated user's account together with every grant the
/// user holds.
pub fn delete_user(db: &mut Ledger, user: &User)
    requires
        old(db).wf(),
    ensures
        final(db).wf(),
        !final(db).has_user_id(user.id),
        old(db).has_user_id(user.id) ==> final(db).users@ == old(db).users@.remove(
            old(db).user_index_of(user.id),
        ),
{
    let ghost pre = *db;
    UserRepository::delete(db, user.id);
    proof {
        if db.has_user_id(user.id) {
            let i = choose|i: int|
                0 <= i < db.users@.len() && (#[trigger] db.users@[i]).id == user.id;
            if pre.has_user_id(user.id) {
                let idx = pre.user_index_of(user.id);
                pre.lemma_user_index(idx);
                let oi = if i < idx {
                    i
                } else {
                    i + 1
                };
                assert(db.users@[i] == pre.users@[oi]);
                pre.lemma_user_index(oi);
            } else {
                assert(pre.has_user_id(user.id));
            }
        }
    }
}

} // verus!
