//! Authentication, credential-lifecycle and role-based access-control core
//! of a multi-tenant user platform.
//!
//! The crate verifies the rules of the platform: credential hashing and
//! verification, token issuance with expiry and single-use redemption,
//! per-request identity resolution, and the role ledger that keeps a user's
//! global and per-company grants consistent. Storage and transport are left
//! to the surrounding application, which hands plain values in and out.

use vstd::prelude::*;

pub mod auth;
pub mod commands;
pub mod authorization;
pub mod dto;
pub mod errors;
pub mod gate;
pub mod models;
pub mod profile;
pub mod repositories;
pub mod sessions;
pub mod text;

verus! {

/// Length, in characters, of every session and temporary token.
pub const SESSION_ID_LENGTH: usize = 128;

/// Lifetime of a session entry, in seconds.
pub const SESSION_LIFE_TIME: u64 = 86400;

/// Lifetime of a password-reset token, in seconds.
pub const RESET_TOKEN_LIFE_TIME: u64 = 3600;

/// Lifetime of a signup-confirmation token, in seconds.
pub const CONFIRM_TOKEN_LIFE_TIME: u64 = 86400;

} // verus!
