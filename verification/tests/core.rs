// The core primitives and the cross-cutting guarantees: credential
// hashing, token generation, session expiry, single-use redemption, the
// full signup-confirm-login journey, and the role-ledger cascades.

use auth_core::auth::{
    authorize_user, generate_token, hash_password, is_email_valid, is_password_valid,
    is_username_valid,
};
use auth_core::authorization::{change_password, confirm_signup, login, reset_password, signup};
use auth_core::commands::{
    add_user_to_company, create_company, create_user, delete_company, delete_user, list_companies,
    list_users, set_roles, set_user_type,
};
use auth_core::dto::{CredentialsDto, NewPasswordDto, ResetPasswordEmailDto};
use auth_core::errors::{AuthError, CommandError, RepoError, ServiceError};
use auth_core::gate::extract_bearer_token;
use auth_core::models::{parse_date, Date, NewUser, RoleCode, User, UserType};
use auth_core::repositories::Ledger;
use auth_core::sessions::{
    issue, issue_temporary, redeem_temporary_token, resolve, TokenCache, TokenPurpose,
};
use auth_core::{
    CONFIRM_TOKEN_LIFE_TIME, RESET_TOKEN_LIFE_TIME, SESSION_ID_LENGTH, SESSION_LIFE_TIME,
};

const NOW: u64 = 1_000_000;

fn fresh() -> (Ledger, TokenCache) {
    (Ledger::new(), TokenCache::new())
}

fn make_user(db: &mut Ledger, username: &str, email: &str, user_type: &str, roles: Vec<&str>) -> User {
    let (user, _roles) = create_user(
        db,
        username.to_string(),
        email.to_string(),
        "123456aA".to_string(),
        true,
        user_type,
        roles.into_iter().map(|s| s.to_string()).collect(),
        NOW,
    )
    .expect("test user should be created");
    user
}

fn stored_user_with_password_hash(hash: &str) -> User {
    User {
        id: 1,
        username: "holder".to_string(),
        email: "holder@gmail.com".to_string(),
        password: hash.to_string(),
        first_name: None,
        last_name: None,
        country: None,
        birth_date: None,
        created_at: NOW,
        confirmed: true,
        updated_at: NOW,
        user_type: UserType::Regular,
    }
}

fn try_password(hash: &str, candidate: &str) -> bool {
    let user = stored_user_with_password_hash(hash);
    let credentials = CredentialsDto {
        email: "holder@gmail.com".to_string(),
        password: candidate.to_string(),
    };
    authorize_user(&user, &credentials).is_ok()
}

#[test]
fn hashed_password_verifies_and_wrong_password_does_not() {
    let hash = hash_password("123456aA").expect("hashing should succeed");
    assert!(try_password(&hash, "123456aA"));
    assert!(!try_password(&hash, "123456aB"));
    assert!(!try_password(&hash, ""));
    assert!(!try_password("not a stored hash", "123456aA"));
}

#[test]
fn two_hashes_of_one_password_use_different_salts() {
    let first = hash_password("123456aA").expect("hashing should succeed");
    let second = hash_password("123456aA").expect("hashing should succeed");
    assert_ne!(first, second);
    assert!(try_password(&first, "123456aA"));
    assert!(try_password(&second, "123456aA"));
}

#[test]
fn generated_token_is_128_alphanumeric_characters() {
    let token = generate_token(128);
    assert_eq!(token.len(), 128);
    assert!(token.chars().all(|c| c.is_ascii_alphanumeric()));
    let other = generate_token(128);
    assert_ne!(token, other);
    assert_eq!(generate_token(0).len(), 0);
    assert_eq!(generate_token(64).len(), 64);
}

#[test]
fn issued_session_resolves_until_its_lifetime_elapses() {
    let mut cache = TokenCache::new();
    let token = issue(&mut cache, 7, NOW);
    assert_eq!(resolve(&cache, &token, NOW), Some(7));
    assert_eq!(resolve(&cache, &token, NOW + SESSION_LIFE_TIME - 1), Some(7));
    assert_eq!(resolve(&cache, &token, NOW + SESSION_LIFE_TIME), None);
    assert_eq!(resolve(&cache, "someOtherTokenEntirely", NOW), None);
}

#[test]
fn temporary_token_redeems_once_and_only_once() {
    let mut cache = TokenCache::new();
    let token = issue_temporary(&mut cache, 9, TokenPurpose::Reset, NOW);
    let first = redeem_temporary_token(&token, TokenPurpose::Reset, &mut cache, NOW);
    assert_eq!(first, Ok(9));
    let second = redeem_temporary_token(&token, TokenPurpose::Reset, &mut cache, NOW);
    assert_eq!(second, Err(AuthError::InvalidToken));
}

#[test]
fn reset_token_expires_after_one_hour() {
    let mut cache = TokenCache::new();
    let token = issue_temporary(&mut cache, 9, TokenPurpose::Reset, NOW);
    let late = redeem_temporary_token(&token, TokenPurpose::Reset, &mut cache, NOW + RESET_TOKEN_LIFE_TIME);
    assert_eq!(late, Err(AuthError::InvalidToken));
    let in_time = redeem_temporary_token(&token, TokenPurpose::Reset, &mut cache, NOW + RESET_TOKEN_LIFE_TIME - 1);
    assert_eq!(in_time, Ok(9));
}

#[test]
fn token_of_wrong_length_is_rejected_before_lookup() {
    let mut cache = TokenCache::new();
    let r = redeem_temporary_token("short", TokenPurpose::Reset, &mut cache, NOW);
    assert_eq!(r, Err(AuthError::InvalidToken));
}

#[test]
fn signup_rejects_the_documented_invalid_fields() {
    let (mut db, mut cache) = fresh();
    let short_username = NewUser {
        username: "ab".to_string(),
        email: "ab@gmail.com".to_string(),
        password: "123456aA".to_string(),
    };
    match signup(&mut db, &mut cache, short_username, NOW) {
        Err(ServiceError::Auth(e)) => assert_eq!(e, AuthError::InvalidUsername),
        _ => panic!("expected an invalid-username error"),
    }
    let bad_email = NewUser {
        username: "gunrock".to_string(),
        email: "nodomain".to_string(),
        password: "123456aA".to_string(),
    };
    match signup(&mut db, &mut cache, bad_email, NOW) {
        Err(ServiceError::Auth(e)) => assert_eq!(e, AuthError::InvalidEmail),
        _ => panic!("expected an invalid-email error"),
    }
    let no_uppercase = NewUser {
        username: "gunrock".to_string(),
        email: "gunrock@gmail.com".to_string(),
        password: "abcdef".to_string(),
    };
    match signup(&mut db, &mut cache, no_uppercase, NOW) {
        Err(ServiceError::Auth(e)) => assert_eq!(e, AuthError::InvalidPassword),
        _ => panic!("expected an invalid-password error"),
    }
    let good = NewUser {
        username: "gunrock".to_string(),
        email: "gunrock@gmail.com".to_string(),
        password: "123456aA".to_string(),
    };
    let (_dto, token) = signup(&mut db, &mut cache, good, NOW).expect("signup should succeed");
    confirm_signup(&mut db, &mut cache, &token, NOW).expect("confirmation should succeed");
    let reused_email = NewUser {
        username: "gunrockTwo".to_string(),
        email: "gunrock@gmail.com".to_string(),
        password: "123456aA".to_string(),
    };
    match signup(&mut db, &mut cache, reused_email, NOW) {
        Err(ServiceError::Auth(e)) => assert_eq!(e, AuthError::EmailInUse),
        _ => panic!("expected an email-in-use error"),
    }
}

#[test]
fn signup_confirm_login_journey_succeeds_end_to_end() {
    let (mut db, mut cache) = fresh();
    let request = NewUser {
        username: "userA".to_string(),
        email: "userA@gmail.com".to_string(),
        password: "123456aA".to_string(),
    };
    let (dto, confirm_token) = signup(&mut db, &mut cache, request, NOW).expect("signup should succeed");
    assert_eq!(dto.username, "userA".to_string());
    assert_eq!(dto.email, "userA@gmail.com".to_string());

    let credentials = CredentialsDto {
        email: "userA@gmail.com".to_string(),
        password: "123456aA".to_string(),
    };
    match login(&db, &mut cache, &credentials, NOW) {
        Err(ServiceError::Auth(e)) => assert_eq!(e, AuthError::UnconfirmedUser),
        _ => panic!("login before confirmation should be rejected"),
    }

    let confirmed = confirm_signup(&mut db, &mut cache, &confirm_token, NOW).expect("confirmation should succeed");
    assert!(confirmed.confirmed);

    let dto = login(&db, &mut cache, &credentials, NOW).expect("login should succeed");
    assert_eq!(dto.token.len(), 128);
    assert_eq!(resolve(&cache, &dto.token, NOW), Some(confirmed.id));
}

#[test]
fn stale_unconfirmed_signup_is_reclaimed_after_its_window() {
    let (mut db, mut cache) = fresh();
    let first = NewUser {
        username: "slowpoke".to_string(),
        email: "slowpoke@gmail.com".to_string(),
        password: "123456aA".to_string(),
    };
    signup(&mut db, &mut cache, first, NOW).expect("signup should succeed");
    let retry_too_soon = NewUser {
        username: "slowpoke".to_string(),
        email: "slowpoke@gmail.com".to_string(),
        password: "123456aA".to_string(),
    };
    match signup(&mut db, &mut cache, retry_too_soon, NOW + 100) {
        Err(ServiceError::Auth(e)) => assert_eq!(e, AuthError::UnconfirmedUser),
        _ => panic!("signup inside the confirmation window should be rejected"),
    }
    let retry_after_window = NewUser {
        username: "slowpoke".to_string(),
        email: "slowpoke@gmail.com".to_string(),
        password: "123456aA".to_string(),
    };
    let r = signup(&mut db, &mut cache, retry_after_window, NOW + CONFIRM_TOKEN_LIFE_TIME + 1);
    assert!(r.is_ok());
}

#[test]
fn password_reset_journey_replaces_the_password() {
    let (mut db, mut cache) = fresh();
    make_user(&mut db, "resetter", "resetter@gmail.com", "regular", vec!["viewer"]);
    let request = ResetPasswordEmailDto {
        email: "resetter@gmail.com".to_string(),
    };
    let (_user, token) = reset_password(&db, &mut cache, &request, NOW).expect("reset should start");
    assert_eq!(token.len(), 128);
    let new_password = NewPasswordDto {
        password: "987654zZ".to_string(),
        confirmation: "987654zZ".to_string(),
    };
    change_password(&mut db, &mut cache, &token, &new_password, NOW).expect("password change should succeed");
    let old_credentials = CredentialsDto {
        email: "resetter@gmail.com".to_string(),
        password: "123456aA".to_string(),
    };
    match login(&db, &mut cache, &old_credentials, NOW) {
        Err(ServiceError::Auth(e)) => assert_eq!(e, AuthError::WrongCredentials),
        _ => panic!("old password should be rejected"),
    }
    let new_credentials = CredentialsDto {
        email: "resetter@gmail.com".to_string(),
        password: "987654zZ".to_string(),
    };
    login(&db, &mut cache, &new_credentials, NOW).expect("new password should log in");
    let reuse = NewPasswordDto {
        password: "111111bB".to_string(),
        confirmation: "111111bB".to_string(),
    };
    match change_password(&mut db, &mut cache, &token, &reuse, NOW) {
        Err(ServiceError::Auth(e)) => assert_eq!(e, AuthError::InvalidToken),
        _ => panic!("a reset token must not be redeemable twice"),
    }
}

#[test]
fn adding_roles_to_enterprise_user_propagates_to_its_companies() {
    let (mut db, _cache) = fresh();
    let user = make_user(&mut db, "entUser", "entUser@gmail.com", "enterprise", vec!["viewer"]);
    let c1 = create_company(&mut db, "Company One".to_string(), None, None, None, NOW).expect("company one");
    let c2 = create_company(&mut db, "Company Two".to_string(), None, None, None, NOW).expect("company two");
    add_user_to_company(&mut db, "Company One", "entUser@gmail.com", vec!["viewer".to_string()])
        .expect("assignment to company one");
    add_user_to_company(&mut db, "Company Two", "entUser@gmail.com", vec!["viewer".to_string()])
        .expect("assignment to company two");

    set_roles(&mut db, user.id, vec!["editor".to_string()], true).expect("role grant");
    assert!(db.holds_global_role(user.id, RoleCode::Editor));
    assert!(db.holds_company_role(user.id, c1.id, RoleCode::Editor));
    assert!(db.holds_company_role(user.id, c2.id, RoleCode::Editor));

    set_roles(&mut db, user.id, vec!["editor".to_string()], false).expect("role revocation");
    assert!(!db.holds_global_role(user.id, RoleCode::Editor));
    assert!(!db.holds_company_role(user.id, c1.id, RoleCode::Editor));
    assert!(!db.holds_company_role(user.id, c2.id, RoleCode::Editor));
}

#[test]
fn company_assignment_replaces_the_global_role_set() {
    let (mut db, _cache) = fresh();
    let user = make_user(&mut db, "entAdmin", "entAdmin@gmail.com", "enterprise", vec!["viewer", "editor"]);
    let company = create_company(&mut db, "Company C".to_string(), None, None, None, NOW).expect("company");
    assert!(db.holds_global_role(user.id, RoleCode::Viewer));
    assert!(db.holds_global_role(user.id, RoleCode::Editor));

    add_user_to_company(&mut db, "Company C", "entAdmin@gmail.com", vec!["admin".to_string()])
        .expect("assignment should succeed");

    assert!(db.holds_global_role(user.id, RoleCode::Admin));
    assert!(!db.holds_global_role(user.id, RoleCode::Viewer));
    assert!(!db.holds_global_role(user.id, RoleCode::Editor));
    assert!(db.holds_company_role(user.id, company.id, RoleCode::Admin));
    assert!(!db.holds_company_role(user.id, company.id, RoleCode::Viewer));
}

#[test]
fn company_assignment_of_regular_user_fails_and_stores_nothing() {
    let (mut db, _cache) = fresh();
    let user = make_user(&mut db, "regUser", "regUser@gmail.com", "regular", vec!["viewer"]);
    let company = create_company(&mut db, "Company R".to_string(), None, None, None, NOW).expect("company");
    let r = add_user_to_company(&mut db, "Company R", "regUser@gmail.com", vec!["viewer".to_string()]);
    assert_eq!(r, Err(CommandError::Repo(RepoError::NotEnterpriseUser)));
    assert!(!db.is_member(user.id, company.id));
    assert!(!db.holds_company_role(user.id, company.id, RoleCode::Viewer));
    assert!(db.holds_global_role(user.id, RoleCode::Viewer));
}

#[test]
fn role_and_user_type_names_round_trip_and_reject_unknown_names() {
    assert_eq!(RoleCode::from_name("admin"), Some(RoleCode::Admin));
    assert_eq!(RoleCode::from_name("editor"), Some(RoleCode::Editor));
    assert_eq!(RoleCode::from_name("viewer"), Some(RoleCode::Viewer));
    assert_eq!(RoleCode::from_name("superuser"), None);
    assert_eq!(RoleCode::from_name(""), None);
    assert_eq!(RoleCode::Admin.name(), "admin".to_string());
    assert_eq!(UserType::from_name("regular"), Some(UserType::Regular));
    assert_eq!(UserType::from_name("enterprise"), Some(UserType::Enterprise));
    assert_eq!(UserType::from_name("premium"), None);
    assert_eq!(UserType::Enterprise.name(), "enterprise".to_string());
}

#[test]
fn unknown_role_code_aborts_the_whole_grant() {
    let (mut db, _cache) = fresh();
    let user = make_user(&mut db, "parseUser", "parseUser@gmail.com", "regular", vec!["viewer"]);
    let r = set_roles(
        &mut db,
        user.id,
        vec!["editor".to_string(), "superuser".to_string()],
        true,
    );
    assert_eq!(r.unwrap_err(), CommandError::InvalidRoleCode);
    assert!(!db.holds_global_role(user.id, RoleCode::Editor));
}

#[test]
fn validators_accept_and_reject_the_documented_edges() {
    assert!(is_username_valid("abc"));
    assert!(!is_username_valid("ab"));
    assert!(!is_username_valid(""));
    assert!(!is_username_valid("abc def"));
    assert!(is_password_valid("123456aA"));
    assert!(!is_password_valid("abcdef"));
    assert!(!is_password_valid("aA1"));
    assert!(is_email_valid("a@b.c"));
    assert!(!is_email_valid("a@b"));
    assert!(!is_email_valid("@b.c"));
    assert!(!is_email_valid("a@b..c"));
    assert!(!is_email_valid("a@.bc"));
    assert!(!is_email_valid("a@bc."));
    assert!(!is_email_valid("a@b@c.d"));
    assert!(!is_email_valid("nodomain"));
}

#[test]
fn date_parsing_checks_shape_and_calendar() {
    assert_eq!(parse_date("1970-01-01"), Some(Date { year: 1970, month: 1, day: 1 }));
    assert_eq!(parse_date("2000-02-29"), Some(Date { year: 2000, month: 2, day: 29 }));
    assert_eq!(parse_date("1900-02-29"), None);
    assert_eq!(parse_date("2001-02-29"), None);
    assert_eq!(parse_date("2000-13-01"), None);
    assert_eq!(parse_date("2000-04-31"), None);
    assert_eq!(parse_date("2000-12-31"), Some(Date { year: 2000, month: 12, day: 31 }));
    assert_eq!(parse_date("01-01-1970"), None);
    assert_eq!(parse_date(""), None);
}

#[test]
fn bearer_extraction_accepts_one_scheme_and_token_pair() {
    assert_eq!(extract_bearer_token("Bearer abc"), Some("abc".to_string()));
    assert_eq!(extract_bearer_token("  Bearer   tok9  "), Some("tok9".to_string()));
    assert_eq!(extract_bearer_token("Basic abc"), None);
    assert_eq!(extract_bearer_token("Bearer"), None);
    assert_eq!(extract_bearer_token("Bearer a b"), None);
    assert_eq!(extract_bearer_token(""), None);
    assert_eq!(extract_bearer_token("bearer abc"), None);
}

#[test]
fn error_catalog_produces_the_documented_codes() {
    let e = AuthError::WrongCredentials.value();
    assert_eq!(e.error_type, "auth_error".to_string());
    assert_eq!(e.code, "wrong_credentials".to_string());
    assert_eq!(AuthError::InvalidToken.value().code, "invalid_token".to_string());
    assert_eq!(AuthError::EmailInUse.value().code, "email_in_use".to_string());
    assert_eq!(AuthError::UnconfirmedUser.value().code, "unconfirmed_user".to_string());
    let p = auth_core::errors::ProfileError::InvalidBirthDate.value();
    assert_eq!(p.error_type, "profile_error".to_string());
    assert_eq!(p.code, "invalid_birth_date".to_string());
}

#[test]
fn token_purposes_carry_the_documented_prefixes_and_lifetimes() {
    assert_eq!(TokenPurpose::Session.prefix(), "sessions".to_string());
    assert_eq!(TokenPurpose::Confirm.prefix(), "confirm_token".to_string());
    assert_eq!(TokenPurpose::Reset.prefix(), "reset_token".to_string());
    assert_eq!(TokenPurpose::Session.lifetime(), 86400);
    assert_eq!(TokenPurpose::Confirm.lifetime(), 86400);
    assert_eq!(TokenPurpose::Reset.lifetime(), 3600);
    assert_eq!(SESSION_ID_LENGTH, 128);
}

#[test]
fn deleting_a_user_removes_the_account_and_its_grants() {
    let (mut db, _cache) = fresh();
    let user = make_user(&mut db, "goner", "goner@gmail.com", "enterprise", vec!["viewer"]);
    create_company(&mut db, "Left Behind".to_string(), None, None, None, NOW).expect("company");
    add_user_to_company(&mut db, "Left Behind", "goner@gmail.com", vec!["viewer".to_string()])
        .expect("assignment");
    delete_user(&mut db, user.id);
    assert!(list_users(&db).iter().all(|entry| entry.0.id != user.id));
    assert!(!db.holds_global_role(user.id, RoleCode::Viewer));
}

#[test]
fn deleting_a_company_removes_its_grants_but_not_its_users() {
    let (mut db, _cache) = fresh();
    let user = make_user(&mut db, "stays", "stays@gmail.com", "enterprise", vec!["viewer"]);
    let company = create_company(&mut db, "Folds".to_string(), None, None, None, NOW).expect("company");
    add_user_to_company(&mut db, "Folds", "stays@gmail.com", vec!["viewer".to_string()]).expect("assignment");
    assert!(db.is_member(user.id, company.id));
    delete_company(&mut db, company.id);
    assert!(list_companies(&db).is_empty());
    assert!(!db.is_member(user.id, company.id));
    assert!(db.holds_global_role(user.id, RoleCode::Viewer));
}

#[test]
fn set_user_type_switches_between_the_two_types() {
    let (mut db, _cache) = fresh();
    let user = make_user(&mut db, "mover", "mover@gmail.com", "regular", vec!["viewer"]);
    let promoted = set_user_type(&mut db, user.id, "enterprise", NOW).expect("promotion");
    assert_eq!(promoted.user_type, UserType::Enterprise);
    let r = set_user_type(&mut db, user.id, "imaginary", NOW);
    assert_eq!(r.unwrap_err(), CommandError::InvalidUserType);
}
