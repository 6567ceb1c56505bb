//! Error taxonomy of the core: authentication errors, profile errors, the
//! structured body each maps to, and the service-level result shape that
//! folds infrastructure failures into one opaque variant.

use vstd::prelude::*;

verus! {

/// The structured error body handed to callers: a stable machine-readable
/// code under a coarse error type, with a human-readable message.
#[derive(Debug, PartialEq)]
pub struct ApiError {
    pub error_type: String,
    pub code: String,
    pub message: String,
}

/// Authentication and credential-lifecycle failures.
#[derive(Clone, Copy, PartialEq, Eq, Structural, Debug)]
pub enum AuthError {
    WrongCredentials,
    InvalidUsername,
    InvalidEmail,
    InvalidPassword,
    InvalidToken,
    UnavailableUsername,
    EmailInUse,
    EmailNotExist,
    UnconfirmedUser,
}

impl AuthError {
    /// The stable machine-readable code of the error.
    pub open spec fn spec_code(self) -> Seq<char> {
        match self {
            AuthError::WrongCredentials => "wrong_credentials"@,
            AuthError::InvalidUsername => "invalid_username"@,
            AuthError::InvalidEmail => "invalid_email"@,
            AuthError::InvalidPassword => "invalid_password"@,
            AuthError::InvalidToken => "invalid_token"@,
            AuthError::UnavailableUsername => "unavailable_username"@,
            AuthError::EmailInUse => "email_in_use"@,
            AuthError::EmailNotExist => "email_not_exist"@,
            AuthError::UnconfirmedUser => "unconfirmed_user"@,
        }
    }

    /// The human-readable message of the error.
    pub open spec fn spec_message(self) -> Seq<char> {
        match self {
            AuthError::WrongCredentials => "Wrong credentials"@,
            AuthError::InvalidUsername => "Invalid username"@,
            AuthError::InvalidEmail => "Invalid email"@,
            AuthError::InvalidPassword => "Invalid password"@,
            AuthError::InvalidToken => "Token is invalid or expired"@,
            AuthError::UnavailableUsername => "Unavailable username"@,
            AuthError::EmailInUse => "Email already in use"@,
            AuthError::EmailNotExist => "Email address is not associated with a personal user account"@,
            AuthError::UnconfirmedUser => "User has not confirmed the registration via e-mail link"@,
        }
    }

    /// The structured body of the error, under the `auth_error` type.
    pub fn value(&self) -> (r: ApiError)
        ensures
            r.error_type@ == "auth_error"@,
            r.code@ == self.spec_code(),
            r.message@ == self.spec_message(),
    {
        let error_type = "auth_error".to_owned();
        match self {
            AuthError::WrongCredentials => ApiError {
                error_type,
                code: "wrong_credentials".to_owned(),
                message: "Wrong credentials".to_owned(),
            },
            AuthError::InvalidUsername => ApiError {
                error_type,
                code: "invalid_username".to_owned(),
                message: "Invalid username".to_owned(),
            },
            AuthError::InvalidEmail => ApiError {
                error_type,
                code: "invalid_email".to_owned(),
                message: "Invalid email".to_owned(),
            },
            AuthError::InvalidPassword => ApiError {
                error_type,
                code: "invalid_password".to_owned(),
                message: "Invalid password".to_owned(),
            },
            AuthError::InvalidToken => ApiError {
                error_type,
                code: "invalid_token".to_owned(),
                message: "Token is invalid or expired".to_owned(),
            },
            AuthError::UnavailableUsername => ApiError {
                error_type,
                code: "unavailable_username".to_owned(),
                message: "Unavailable username".to_owned(),
            },
            AuthError::EmailInUse => ApiError {
                error_type,
                code: "email_in_use".to_owned(),
                message: "Email already in use".to_owned(),
            },
            AuthError::EmailNotExist => ApiError {
                error_type,
                code: "email_not_exist".to_owned(),
                message: "Email address is not associated with a personal user account".to_owned(),
            },
            AuthError::UnconfirmedUser => ApiError {
                error_type,
                code: "unconfirmed_user".to_owned(),
                message: "User has not confirmed the registration via e-mail link".to_owned(),
            },
        }
    }
}

/// Profile-field validation failures.
#[derive(Clone, Copy, PartialEq, Eq, Structural, Debug)]
pub enum ProfileError {
    InvalidFirstName,
    InvalidLastName,
    InvalidCountry,
    InvalidBirthDate,
}

impl ProfileError {
    /// The stable machine-readable code of the error.
    pub open spec fn spec_code(self) -> Seq<char> {
        match self {
            ProfileError::InvalidFirstName => "invalid_first_name"@,
            ProfileError::InvalidLastName => "invalid_last_name"@,
            ProfileError::InvalidCountry => "invalid_country"@,
            ProfileError::InvalidBirthDate => "invalid_birth_date"@,
        }
    }

    /// The human-readable message of the error.
    pub open spec fn spec_message(self) -> Seq<char> {
        match self {
            ProfileError::InvalidFirstName => "Invalid first name"@,
            ProfileError::InvalidLastName => "Invalid last name"@,
            ProfileError::InvalidCountry => "Invalid country"@,
            ProfileError::InvalidBirthDate => "Birth date must be in YYYY-MM-DD format"@,
        }
    }

    /// The structured body of the error, under the `profile_error` type.
    pub fn value(&self) -> (r: ApiError)
        ensures
            r.error_type@ == "profile_error"@,
            r.code@ == self.spec_code(),
            r.message@ == self.spec_message(),
    {
        let error_type = "profile_error".to_owned();
        match self {
            ProfileError::InvalidFirstName => ApiError {
                error_type,
                code: "invalid_first_name".to_owned(),
                message: "Invalid first name".to_owned(),
            },
            ProfileError::InvalidLastName => ApiError {
                error_type,
                code: "invalid_last_name".to_owned(),
                message: "Invalid last name".to_owned(),
            },
            ProfileError::InvalidCountry => ApiError {
                error_type,
                code: "invalid_country".to_owned(),
                message: "Invalid country".to_owned(),
            },
            ProfileError::InvalidBirthDate => ApiError {
                error_type,
                code: "invalid_birth_date".to_owned(),
                message: "Birth date must be in YYYY-MM-DD format".to_owned(),
            },
        }
    }
}

/// What a repository operation can report: a conflict with a stored row, a
/// missing row, or an exhausted identifier space.
#[derive(Clone, Copy, PartialEq, Eq, Structural, Debug)]
pub enum RepoError {
    DuplicateEmail,
    DuplicateUsername,
    DuplicateCompanyName,
    NoSuchUser,
    NoSuchCompany,
    NotEnterpriseUser,
    Capacity,
}

/// What an operator command can report: a code or type that does not
/// parse, a repository failure, or an opaque internal failure.
#[derive(Clone, Copy, PartialEq, Eq, Structural, Debug)]
pub enum CommandError {
    InvalidRoleCode,
    InvalidUserType,
    Repo(RepoError),
    Internal,
}

/// What a flow can report: a coded authentication or profile error, or an
/// opaque internal failure that reveals nothing to the caller.
#[derive(Clone, Copy, PartialEq, Eq, Structural, Debug)]
pub enum ServiceError {
    Auth(AuthError),
    Profile(ProfileError),
    Internal,
}

} // verus!
