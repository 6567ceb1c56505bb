//! Request and response bodies exchanged with the surrounding transport
//! layer, as plain values.

use vstd::prelude::*;

use crate::models::Date;

verus! {

/// New user request body.
pub struct NewUserDto {
    /// Unique username (at least 3 characters, ASCII alphanumeric only).
    pub username: String,
    /// Unique email address.
    pub email: String,
    /// Password (at least 6 characters, at least one uppercase).
    pub password: String,
}

/// New user response body.
#[derive(Debug, PartialEq)]
pub struct NewUserResponseDto {
    pub username: String,
    pub email: String,
}

/// Login credentials request body.
pub struct CredentialsDto {
    pub email: String,
    pub password: String,
}

/// Reset password request body.
pub struct ResetPasswordEmailDto {
    /// Registered email address.
    pub email: String,
}

/// New password request body.
pub struct NewPasswordDto {
    /// New password (at least 6 characters, at least one uppercase).
    pub password: String,
    /// Password confirmation.
    pub confirmation: String,
}

/// Login response body.
pub struct AuthTokenDto {
    /// Token used for authentication.
    pub token: String,
}

/// User profile response body; the password hash is never included.
pub struct UserProfileDto {
    pub id: i32,
    pub username: String,
    pub email: String,
    pub first_name: Option<String>,
    pub last_name: Option<String>,
    pub country: Option<String>,
    pub birth_date: Option<Date>,
    pub created_at: u64,
    pub updated_at: u64,
}

/// User profile update body. The birth date arrives as text and is parsed
/// and calendar-checked by the profile flow.
pub struct UpdateUserDto {
    pub first_name: Option<String>,
    pub last_name: Option<String>,
    pub country: Option<String>,
    pub birth_date: Option<String>,
}

} // verus!
