// Profile flows behind the authentication gate: reading the profile,
// changing the password, updating profile fields, and requests that
// carry no usable session.

use auth_core::authorization::login;
use auth_core::commands::create_user;
use auth_core::dto::{NewPasswordDto, UpdateUserDto};
use auth_core::errors::{AuthError, ProfileError, ServiceError};
use auth_core::gate::authenticate;
use auth_core::models::{Date, User};
use auth_core::profile::{update_password, update_user, user_profile};
use auth_core::repositories::Ledger;
use auth_core::sessions::TokenCache;

const NOW: u64 = 1_000_000;

fn fresh() -> (Ledger, TokenCache) {
    (Ledger::new(), TokenCache::new())
}

fn make_user(db: &mut Ledger, username: &str, email: &str, role: &str) -> User {
    let (user, _roles) = create_user(
        db,
        username.to_string(),
        email.to_string(),
        "123456aA".to_string(),
        true,
        "regular",
        vec![role.to_string()],
        NOW,
    )
    .expect("test user should be created");
    user
}

fn logged_in(db: &mut Ledger, cache: &mut TokenCache, username: &str, email: &str, role: &str) -> (User, String) {
    make_user(db, username, email, role);
    let credentials = auth_core::dto::CredentialsDto {
        email: email.to_string(),
        password: "123456aA".to_string(),
    };
    let dto = login(db, cache, &credentials, NOW).expect("login should succeed");
    let header = format!("Bearer {}", dto.token);
    let user = authenticate(db, cache, Some(header.as_str()), NOW).expect("session should resolve");
    (user, header)
}

fn profile_error(r: Result<impl Sized, ServiceError>) -> ProfileError {
    match r {
        Err(ServiceError::Profile(e)) => e,
        _ => panic!("expected a profile error"),
    }
}

fn empty_update() -> UpdateUserDto {
    UpdateUserDto {
        first_name: None,
        last_name: None,
        country: None,
        birth_date: None,
    }
}

#[test]
fn when_session_is_active_and_role_viewer_then_me_success() {
    let (mut db, mut cache) = fresh();
    let (user, _header) = logged_in(&mut db, &mut cache, "testViewer20", "testViewer20@gmail.com", "viewer");
    let me = user_profile(&user);
    assert_eq!(me.id, user.id);
}

#[test]
fn when_session_is_active_and_role_editor_then_me_success() {
    let (mut db, mut cache) = fresh();
    let (user, _header) = logged_in(&mut db, &mut cache, "testEditor21", "testEditor21@gmail.com", "editor");
    let me = user_profile(&user);
    assert_eq!(me.id, user.id);
}

#[test]
fn when_session_is_active_and_role_viewer_then_me_returns_username_and_email() {
    let (mut db, mut cache) = fresh();
    let (user, _header) = logged_in(&mut db, &mut cache, "testViewer22", "testViewer22@gmail.com", "viewer");
    let me = user_profile(&user);
    assert_eq!(me.username, "testViewer22".to_string());
    assert_eq!(me.email, "testViewer22@gmail.com".to_string());
}

#[test]
fn when_session_is_active_and_me_success_then_password_is_none() {
    // The profile body type carries no password field at all; what it
    // does carry must match the stored record.
    let (mut db, mut cache) = fresh();
    let (user, _header) = logged_in(&mut db, &mut cache, "testViewer23", "testViewer23@gmail.com", "viewer");
    let me = user_profile(&user);
    assert_eq!(me.created_at, user.created_at);
    assert_eq!(me.updated_at, user.updated_at);
}

#[test]
fn when_session_is_not_active_me_failed() {
    let (db, cache) = fresh();
    let r = authenticate(&db, &cache, None, NOW);
    match r {
        Err(ServiceError::Auth(e)) => assert_eq!(e.value(), AuthError::InvalidToken.value()),
        _ => panic!("expected an invalid-token error"),
    }
}

#[test]
fn when_session_is_active_and_payload_is_correct_then_password_success() {
    let (mut db, mut cache) = fresh();
    let (user, _header) = logged_in(&mut db, &mut cache, "testViewer24", "testViewer24@gmail.com", "viewer");
    let dto = NewPasswordDto {
        password: "123456aA".to_string(),
        confirmation: "123456aA".to_string(),
    };
    let r = update_password(&mut db, &user, &dto, NOW);
    assert!(r.is_ok());
}

#[test]
fn when_session_is_not_active_then_password_returns_unauthorized_status() {
    let (db, cache) = fresh();
    let r = authenticate(&db, &cache, Some("Bearer notAStoredToken"), NOW);
    assert!(r.is_err());
}

#[test]
fn when_session_is_active_and_password_is_wrong_then_password_failed() {
    let (mut db, mut cache) = fresh();
    let (user, _header) = logged_in(&mut db, &mut cache, "testViewer25", "testViewer25@gmail.com", "viewer");
    let dto = NewPasswordDto {
        password: "1234".to_string(),
        confirmation: "123456aA".to_string(),
    };
    let r = update_password(&mut db, &user, &dto, NOW);
    assert!(r.is_err());
}

#[test]
fn when_session_is_active_and_password_is_wrong_then_password_returns_invalid_password_error() {
    let (mut db, mut cache) = fresh();
    let (user, _header) = logged_in(&mut db, &mut cache, "testViewer26", "testViewer26@gmail.com", "viewer");
    let dto = NewPasswordDto {
        password: "1234".to_string(),
        confirmation: "123456aA".to_string(),
    };
    let r = update_password(&mut db, &user, &dto, NOW);
    match r {
        Err(ServiceError::Auth(e)) => assert_eq!(e.value(), AuthError::InvalidPassword.value()),
        _ => panic!("expected an invalid-password error"),
    }
}

#[test]
fn when_session_is_active_and_confirmation_not_match_then_password_returns_invalid_password_err() {
    let (mut db, mut cache) = fresh();
    let (user, _header) = logged_in(&mut db, &mut cache, "testViewer27", "testViewer27@gmail.com", "viewer");
    let dto = NewPasswordDto {
        password: "123456aA".to_string(),
        confirmation: "123456aB".to_string(),
    };
    let r = update_password(&mut db, &user, &dto, NOW);
    match r {
        Err(ServiceError::Auth(e)) => assert_eq!(e.value(), AuthError::InvalidPassword.value()),
        _ => panic!("expected an invalid-password error"),
    }
}

#[test]
fn when_new_data_is_valid_then_update_user_returns_updated_user() {
    let (mut db, mut cache) = fresh();
    let (user, _header) = logged_in(&mut db, &mut cache, "testViewer28", "testViewer28@gmail.com", "viewer");
    let update = UpdateUserDto {
        first_name: Some("Edward".to_string()),
        last_name: Some("Falcon".to_string()),
        country: Some("Great Britain".to_string()),
        birth_date: Some("1970-01-01".to_string()),
    };
    let updated = update_user(&mut db, &user, update, NOW).expect("update should succeed");
    assert_eq!(updated.first_name, Some("Edward".to_string()));
    assert_eq!(updated.last_name, Some("Falcon".to_string()));
    assert_eq!(updated.country, Some("Great Britain".to_string()));
    assert_eq!(updated.birth_date, Some(Date { year: 1970, month: 1, day: 1 }));
}

#[test]
fn when_first_name_is_valid_then_update_user_returns_updated_user() {
    let (mut db, mut cache) = fresh();
    let (user, _header) = logged_in(&mut db, &mut cache, "testViewer29", "testViewer29@gmail.com", "viewer");
    let update = UpdateUserDto {
        first_name: Some("Edward".to_string()),
        ..empty_update()
    };
    let updated = update_user(&mut db, &user, update, NOW).expect("update should succeed");
    assert_eq!(updated.first_name, Some("Edward".to_string()));
}

#[test]
fn when_last_name_is_valid_then_update_user_returns_updated_user() {
    let (mut db, mut cache) = fresh();
    let (user, _header) = logged_in(&mut db, &mut cache, "testViewer30", "testViewer30@gmail.com", "viewer");
    let update = UpdateUserDto {
        last_name: Some("Falcon".to_string()),
        ..empty_update()
    };
    let updated = update_user(&mut db, &user, update, NOW).expect("update should succeed");
    assert_eq!(updated.last_name, Some("Falcon".to_string()));
}

#[test]
fn when_country_is_valid_then_update_user_returns_updated_user() {
    let (mut db, mut cache) = fresh();
    let (user, _header) = logged_in(&mut db, &mut cache, "testViewer31", "testViewer31@gmail.com", "viewer");
    let update = UpdateUserDto {
        country: Some("Great Britain".to_string()),
        ..empty_update()
    };
    let updated = update_user(&mut db, &user, update, NOW).expect("update should succeed");
    assert_eq!(updated.country, Some("Great Britain".to_string()));
}

#[test]
fn when_birth_date_is_valid_then_update_user_returns_updated_user() {
    let (mut db, mut cache) = fresh();
    let (user, _header) = logged_in(&mut db, &mut cache, "testViewer32", "testViewer32@gmail.com", "viewer");
    let update = UpdateUserDto {
        birth_date: Some("1970-01-01".to_string()),
        ..empty_update()
    };
    let updated = update_user(&mut db, &user, update, NOW).expect("update should succeed");
    assert_eq!(updated.birth_date, Some(Date { year: 1970, month: 1, day: 1 }));
}

#[test]
fn when_name_is_invalid_or_empty_then_update_user_returns_invalid_first_name_error() {
    let (mut db, mut cache) = fresh();
    let (user, _header) = logged_in(&mut db, &mut cache, "testViewer33", "testViewer33@gmail.com", "viewer");
    let good = UpdateUserDto {
        first_name: Some("Edward".to_string()),
        ..empty_update()
    };
    update_user(&mut db, &user, good, NOW).expect("update should succeed");
    let bad = UpdateUserDto {
        first_name: Some("".to_string()),
        ..empty_update()
    };
    let r = update_user(&mut db, &user, bad, NOW);
    assert_eq!(profile_error(r).value(), ProfileError::InvalidFirstName.value());
}

#[test]
fn when_last_name_is_invalid_or_empty_then_update_user_returns_invalid_last_name_error() {
    let (mut db, mut cache) = fresh();
    let (user, _header) = logged_in(&mut db, &mut cache, "testViewer34", "testViewer34@gmail.com", "viewer");
    let bad_digit = UpdateUserDto {
        last_name: Some("Falcon 9".to_string()),
        ..empty_update()
    };
    let r = update_user(&mut db, &user, bad_digit, NOW);
    assert_eq!(profile_error(r).value(), ProfileError::InvalidLastName.value());
    let bad_empty = UpdateUserDto {
        last_name: Some("".to_string()),
        ..empty_update()
    };
    let r = update_user(&mut db, &user, bad_empty, NOW);
    assert_eq!(profile_error(r).value(), ProfileError::InvalidLastName.value());
}

#[test]
fn when_country_is_invalid_or_empty_then_update_user_returns_invalid_country_error() {
    let (mut db, mut cache) = fresh();
    let (user, _header) = logged_in(&mut db, &mut cache, "testViewer35", "testViewer35@gmail.com", "viewer");
    let bad_chars = UpdateUserDto {
        country: Some("(qGreat Britain)".to_string()),
        ..empty_update()
    };
    let r = update_user(&mut db, &user, bad_chars, NOW);
    assert_eq!(profile_error(r).value(), ProfileError::InvalidCountry.value());
    let bad_empty = UpdateUserDto {
        country: Some("".to_string()),
        ..empty_update()
    };
    let r = update_user(&mut db, &user, bad_empty, NOW);
    assert_eq!(profile_error(r).value(), ProfileError::InvalidCountry.value());
}

#[test]
fn when_birth_data_is_invalid_or_empty_then_update_user_returns_invalid_country_error() {
    let (mut db, mut cache) = fresh();
    let (user, _header) = logged_in(&mut db, &mut cache, "testViewer36", "testViewer36@gmail.com", "viewer");
    let bad_format = UpdateUserDto {
        birth_date: Some("01-01-1970".to_string()),
        ..empty_update()
    };
    let r = update_user(&mut db, &user, bad_format, NOW);
    assert_eq!(profile_error(r).value(), ProfileError::InvalidBirthDate.value());
    let bad_empty = UpdateUserDto {
        birth_date: Some("".to_string()),
        ..empty_update()
    };
    let r = update_user(&mut db, &user, bad_empty, NOW);
    assert_eq!(profile_error(r).value(), ProfileError::InvalidBirthDate.value());
}

#[test]
fn if_values_are_null_patch_user_returns_user_with_null_values() {
    let (mut db, mut cache) = fresh();
    let (user, _header) = logged_in(&mut db, &mut cache, "testViewer37", "testViewer37@gmail.com", "viewer");
    let filled = UpdateUserDto {
        first_name: Some("Edward".to_string()),
        last_name: Some("Falcon".to_string()),
        country: Some("Great Britain".to_string()),
        birth_date: Some("1970-01-01".to_string()),
    };
    update_user(&mut db, &user, filled, NOW).expect("update should succeed");
    let cleared = empty_update();
    let updated = update_user(&mut db, &user, cleared, NOW).expect("update should succeed");
    assert_eq!(updated.first_name, None);
    assert_eq!(updated.last_name, None);
    assert_eq!(updated.country, None);
    assert_eq!(updated.birth_date, None);
}

#[test]
fn profile_field_tolerates_edge_whitespace_but_not_interior_control_characters() {
    let (mut db, mut cache) = fresh();
    let (user, _header) = logged_in(&mut db, &mut cache, "testViewer38", "testViewer38@gmail.com", "viewer");
    let edge = UpdateUserDto {
        first_name: Some("\u{b}Edward ".to_string()),
        ..empty_update()
    };
    let updated = update_user(&mut db, &user, edge, NOW).expect("edge whitespace is trimmed away");
    assert_eq!(updated.first_name, Some("Edward".to_string()));
    let interior = UpdateUserDto {
        first_name: Some("Ed\u{b}ward".to_string()),
        ..empty_update()
    };
    let r = update_user(&mut db, &user, interior, NOW);
    assert_eq!(profile_error(r).value(), ProfileError::InvalidFirstName.value());
}

#[test]
fn when_session_is_not_active_then_update_user_returns_unauthorized_status() {
    let (db, cache) = fresh();
    let r = authenticate(&db, &cache, Some("Bearer notAStoredToken"), NOW);
    match r {
        Err(ServiceError::Auth(e)) => assert_eq!(e.value(), AuthError::InvalidToken.value()),
        _ => panic!("expected an invalid-token error"),
    }
}
