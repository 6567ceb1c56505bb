// The signup, login, password-reset and confirmation flows, driven as the
// HTTP layer would drive them, against a fresh ledger and token cache.

use auth_core::authorization::{change_password, confirm_signup, login, reset_password, signup};
use auth_core::commands::create_user;
use auth_core::dto::{CredentialsDto, NewPasswordDto, ResetPasswordEmailDto};
use auth_core::errors::{AuthError, ServiceError};
use auth_core::models::{NewUser, User};
use auth_core::repositories::Ledger;
use auth_core::sessions::TokenCache;
use auth_core::SESSION_ID_LENGTH;

const NOW: u64 = 1_000_000;

fn fresh() -> (Ledger, TokenCache) {
    (Ledger::new(), TokenCache::new())
}

fn create_test_user(
    db: &mut Ledger,
    username: &str,
    email: &str,
    password: &str,
    role: &str,
    confirmed: bool,
) -> User {
    let (user, _roles) = create_user(
        db,
        username.to_string(),
        email.to_string(),
        password.to_string(),
        confirmed,
        "regular",
        vec![role.to_string()],
        NOW,
    )
    .expect("test user should be created");
    user
}

fn credentials(email: &str, password: &str) -> CredentialsDto {
    CredentialsDto {
        email: email.to_string(),
        password: password.to_string(),
    }
}

fn new_user(username: &str, email: &str, password: &str) -> NewUser {
    NewUser {
        username: username.to_string(),
        email: email.to_string(),
        password: password.to_string(),
    }
}

fn auth_error(r: Result<impl Sized, ServiceError>) -> AuthError {
    match r {
        Err(ServiceError::Auth(e)) => e,
        _ => panic!("expected an authentication error"),
    }
}

fn generate_test_token(length: usize) -> String {
    auth_core::auth::generate_token(length)
}

#[test]
fn when_credentials_correct_then_login_success() {
    let (mut db, mut cache) = fresh();
    create_test_user(&mut db, "testViewer1", "testViewer1@gmail.com", "1234", "viewer", true);
    let r = login(&db, &mut cache, &credentials("testViewer1@gmail.com", "1234"), NOW);
    assert!(r.is_ok());
}

#[test]
fn when_credentials_correct_then_login_returns_token() {
    let (mut db, mut cache) = fresh();
    create_test_user(&mut db, "testViewer2", "testViewer2@gmail.com", "1234", "viewer", true);
    let r = login(&db, &mut cache, &credentials("testViewer2@gmail.com", "1234"), NOW);
    let dto = r.expect("login should succeed");
    assert_eq!(dto.token.len(), 128);
}

#[test]
fn when_password_is_wrong_then_login_failed() {
    let (mut db, mut cache) = fresh();
    create_test_user(&mut db, "testViewer3", "testViewer3@gmail.com", "1234", "viewer", true);
    let r = login(
        &db,
        &mut cache,
        &credentials("testViewer3@gmail.com", "wrong_password"),
        NOW,
    );
    assert_eq!(auth_error(r), AuthError::WrongCredentials);
}

#[test]
fn when_email_is_wrong_then_login_failed() {
    let (mut db, mut cache) = fresh();
    create_test_user(&mut db, "testViewer4", "testViewer4@gmail.com", "1234", "viewer", true);
    let r = login(&db, &mut cache, &credentials("wrong_email", "1234"), NOW);
    assert_eq!(auth_error(r), AuthError::EmailNotExist);
}

#[test]
fn when_user_exist_and_unconfirmed_then_login_return_unconfirmed_error() {
    let (mut db, mut cache) = fresh();
    create_test_user(&mut db, "testViewer5", "testViewer5@gmail.com", "1234", "viewer", false);
    let r = login(&db, &mut cache, &credentials("testViewer5@gmail.com", "1234"), NOW);
    let e = auth_error(r);
    assert_eq!(e, AuthError::UnconfirmedUser);
    assert_eq!(e.value(), AuthError::UnconfirmedUser.value());
}

#[test]
fn when_credentials_correct_and_available_then_signup_success() {
    let (mut db, mut cache) = fresh();
    let r = signup(
        &mut db,
        &mut cache,
        new_user("testViewer6", "testViewer6@gmail.com", "123456aA"),
        NOW,
    );
    assert!(r.is_ok());
}

#[test]
fn when_credentials_ok_then_signup_returns_username_and_email() {
    let (mut db, mut cache) = fresh();
    let r = signup(
        &mut db,
        &mut cache,
        new_user("testViewer7", "testViewer7@gmail.com", "123456aA"),
        NOW,
    );
    let (dto, _token) = r.expect("signup should succeed");
    assert_eq!(dto.username, "testViewer7".to_string());
    assert_eq!(dto.email, "testViewer7@gmail.com".to_string());
}

#[test]
fn when_user_exist_then_signup_failed() {
    let (mut db, mut cache) = fresh();
    create_test_user(&mut db, "testViewer8", "testViewer8@gmail.com", "123456aA", "viewer", true);
    let r = signup(
        &mut db,
        &mut cache,
        new_user("testViewer8", "testViewer8@gmail.com", "123456aA"),
        NOW,
    );
    assert!(r.is_err());
}

#[test]
fn when_user_exist_and_not_confirmed_then_returns_unconfirmed_user_error() {
    let (mut db, mut cache) = fresh();
    create_test_user(&mut db, "testViewer9", "testViewer9@gmail.com", "123456aA", "viewer", false);
    let r = signup(
        &mut db,
        &mut cache,
        new_user("testViewer9", "testViewer9@gmail.com", "123456aA"),
        NOW,
    );
    assert_eq!(auth_error(r).value(), AuthError::UnconfirmedUser.value());
}

#[test]
fn when_username_exist_then_signup_returns_username_unavailable_error() {
    let (mut db, mut cache) = fresh();
    create_test_user(&mut db, "testViewer10", "testViewer10@gmail.com", "123456aA", "viewer", true);
    let r = signup(
        &mut db,
        &mut cache,
        new_user("testViewer10", "notExistedEmail@gmail.com", "123456aA"),
        NOW,
    );
    assert_eq!(auth_error(r).value(), AuthError::UnavailableUsername.value());
}

#[test]
fn when_inconsistent_username_then_signup_returns_invalid_username_error() {
    let (mut db, mut cache) = fresh();
    let r = signup(
        &mut db,
        &mut cache,
        new_user("test_viewer11", "test_viewer11@gmail.com", "123456aA"),
        NOW,
    );
    assert_eq!(auth_error(r).value(), AuthError::InvalidUsername.value());
}

#[test]
fn when_username_to_short_then_signup_returns_invalid_username_error() {
    let (mut db, mut cache) = fresh();
    let r = signup(&mut db, &mut cache, new_user("te", "te@gmail.com", "123456aA"), NOW);
    assert_eq!(auth_error(r).value(), AuthError::InvalidUsername.value());
}

#[test]
fn when_email_exist_then_signup_returns_email_in_use_error() {
    let (mut db, mut cache) = fresh();
    create_test_user(&mut db, "testViewer12", "testViewer12@gmail.com", "123456aA", "viewer", true);
    let r = signup(
        &mut db,
        &mut cache,
        new_user("availableUsername", "testViewer12@gmail.com", "123456aA"),
        NOW,
    );
    assert_eq!(auth_error(r).value(), AuthError::EmailInUse.value());
}

#[test]
fn when_email_without_at_sign_then_signup_returns_email_invalid_error() {
    let (mut db, mut cache) = fresh();
    let r = signup(
        &mut db,
        &mut cache,
        new_user("availableUsername", "testViewer13gmail.com", "123456aA"),
        NOW,
    );
    assert_eq!(auth_error(r).value(), AuthError::InvalidEmail.value());
}

#[test]
fn when_email_without_domain_then_signup_returns_email_invalid_error() {
    let (mut db, mut cache) = fresh();
    let r = signup(
        &mut db,
        &mut cache,
        new_user("availableUsername", "testViewer14gmailcom", "123456aA"),
        NOW,
    );
    assert_eq!(auth_error(r).value(), AuthError::InvalidEmail.value());
}

#[test]
fn when_password_to_short_then_signup_returns_invalid_password_error() {
    let (mut db, mut cache) = fresh();
    let r = signup(
        &mut db,
        &mut cache,
        new_user("testViewer15", "testViewer15@gmail.com", "12345"),
        NOW,
    );
    assert_eq!(auth_error(r).value(), AuthError::InvalidPassword.value());
}

#[test]
fn when_inconsistent_password_then_signup_returns_invalid_password_error() {
    let (mut db, mut cache) = fresh();
    let r = signup(
        &mut db,
        &mut cache,
        new_user("testViewer16", "testViewer16@gmail.com", "abc123"),
        NOW,
    );
    assert_eq!(auth_error(r).value(), AuthError::InvalidPassword.value());
}

#[test]
fn when_email_correct_and_exists_password_reset_success() {
    let (mut db, mut cache) = fresh();
    create_test_user(&mut db, "testViewer17", "testViewer17@gmail.com", "123456aA", "viewer", true);
    let dto = ResetPasswordEmailDto {
        email: "testViewer17@gmail.com".to_string(),
    };
    let r = reset_password(&db, &mut cache, &dto, NOW);
    assert!(r.is_ok());
}

#[test]
fn when_email_is_wrong_then_password_reset_returns_invalid_email_error() {
    let (db, mut cache) = fresh();
    let dto = ResetPasswordEmailDto {
        email: "wrong_email.gmail.com".to_string(),
    };
    let r = reset_password(&db, &mut cache, &dto, NOW);
    assert_eq!(auth_error(r).value(), AuthError::InvalidEmail.value());
}

#[test]
fn when_email_is_not_present_then_password_reset_returns_email_not_exist_error() {
    let (db, mut cache) = fresh();
    let dto = ResetPasswordEmailDto {
        email: "testViewer18@gmail.com".to_string(),
    };
    let r = reset_password(&db, &mut cache, &dto, NOW);
    assert_eq!(auth_error(r).value(), AuthError::EmailNotExist.value());
}

#[test]
fn when_password_wrong_then_password_failed() {
    let (mut db, mut cache) = fresh();
    let token = generate_test_token(SESSION_ID_LENGTH);
    let dto = NewPasswordDto {
        password: "1234".to_string(),
        confirmation: "1234".to_string(),
    };
    let r = change_password(&mut db, &mut cache, &token, &dto, NOW);
    assert!(r.is_err());
}

#[test]
fn when_password_wrong_then_password_returns_invalid_password_error() {
    let (mut db, mut cache) = fresh();
    let token = generate_test_token(SESSION_ID_LENGTH);
    let dto = NewPasswordDto {
        password: "1234".to_string(),
        confirmation: "1234".to_string(),
    };
    let r = change_password(&mut db, &mut cache, &token, &dto, NOW);
    assert_eq!(auth_error(r).value(), AuthError::InvalidPassword.value());
}

#[test]
fn when_confirmation_is_not_match_then_password_returns_invalid_password_error() {
    let (mut db, mut cache) = fresh();
    let token = generate_test_token(SESSION_ID_LENGTH);
    let dto = NewPasswordDto {
        password: "123456aA".to_string(),
        confirmation: "123456aB".to_string(),
    };
    let r = change_password(&mut db, &mut cache, &token, &dto, NOW);
    assert_eq!(auth_error(r).value(), AuthError::InvalidPassword.value());
}

#[test]
fn when_token_length_is_incorrect_then_password_returns_invalid_token_error() {
    let (mut db, mut cache) = fresh();
    let token = generate_test_token(64);
    let dto = NewPasswordDto {
        password: "123456aA".to_string(),
        confirmation: "123456aA".to_string(),
    };
    let r = change_password(&mut db, &mut cache, &token, &dto, NOW);
    assert_eq!(auth_error(r).value(), AuthError::InvalidToken.value());
}

#[test]
fn when_token_wrong_or_expired_then_password_returns_unauthorized_status() {
    let (mut db, mut cache) = fresh();
    let token = generate_test_token(SESSION_ID_LENGTH);
    let dto = NewPasswordDto {
        password: "123456aA".to_string(),
        confirmation: "123456aA".to_string(),
    };
    let r = change_password(&mut db, &mut cache, &token, &dto, NOW);
    assert_eq!(auth_error(r), AuthError::InvalidToken);
}

#[test]
fn when_confirmation_token_invalid_then_confirm_returns_invalid_token_error() {
    let (mut db, mut cache) = fresh();
    let token = generate_test_token(SESSION_ID_LENGTH);
    let r = confirm_signup(&mut db, &mut cache, &token, NOW);
    assert_eq!(auth_error(r).value(), AuthError::InvalidToken.value());
}
