//! Data model of the platform: users, roles, companies and the grant rows
//! that relate them, together with the closed role and user-type catalogs
//! and the calendar date carried in a profile.
//!
//! Timestamps are seconds since an epoch; a birth date is held as plain
//! year, month and day fields. Relational storage assigns nothing here:
//! identifiers are chosen by the in-memory ledger.

use vstd::prelude::*;

use crate::text::{char_is_digit, is_digit_char, str_eq};

verus! {

/// The closed role catalog. Parsing an unknown name fails loudly rather
/// than falling back to a default.
#[derive(Clone, Copy, PartialEq, Eq, Structural, Debug)]
pub enum RoleCode {
    Admin,
    Editor,
    Viewer,
}

impl RoleCode {
    /// The code a catalog name parses to, if any.
    pub open spec fn spec_of_name(s: Seq<char>) -> Option<RoleCode> {
        if s == RoleCode::Admin.spec_name() {
            Some(RoleCode::Admin)
        } else if s == RoleCode::Editor.spec_name() {
            Some(RoleCode::Editor)
        } else if s == RoleCode::Viewer.spec_name() {
            Some(RoleCode::Viewer)
        } else {
            None
        }
    }

    /// The storage and display name of the code.
    pub open spec fn spec_name(self) -> Seq<char> {
        match self {
            RoleCode::Admin => "admin"@,
            RoleCode::Editor => "editor"@,
            RoleCode::Viewer => "viewer"@,
        }
    }

    /// Render the code as its catalog name.
    pub fn name(&self) -> (r: String)
        ensures
            r@ == self.spec_name(),
    {
        match self {
            RoleCode::Admin => "admin".to_owned(),
            RoleCode::Editor => "editor".to_owned(),
            RoleCode::Viewer => "viewer".to_owned(),
        }
    }

    /// Parse a catalog name; an unrecognized name is an explicit failure.
    pub fn from_name(s: &str) -> (r: Option<RoleCode>)
        ensures
            r == RoleCode::spec_of_name(s@),
    {
        if str_eq(s, "admin") {
            Some(RoleCode::Admin)
        } else if str_eq(s, "editor") {
            Some(RoleCode::Editor)
        } else if str_eq(s, "viewer") {
            Some(RoleCode::Viewer)
        } else {
            None
        }
    }
}

/// The closed user-type catalog; only enterprise users may hold
/// company-scoped grants.
#[derive(Clone, Copy, PartialEq, Eq, Structural, Debug)]
pub enum UserType {
    Regular,
    Enterprise,
}

impl UserType {
    /// The type a catalog name parses to, if any.
    pub open spec fn spec_of_name(s: Seq<char>) -> Option<UserType> {
        if s == UserType::Regular.spec_name() {
            Some(UserType::Regular)
        } else if s == UserType::Enterprise.spec_name() {
            Some(UserType::Enterprise)
        } else {
            None
        }
    }

    /// The storage and display name of the type.
    pub open spec fn spec_name(self) -> Seq<char> {
        match self {
            UserType::Regular => "regular"@,
            UserType::Enterprise => "enterprise"@,
        }
    }

    /// Render the type as its catalog name.
    pub fn name(&self) -> (r: String)
        ensures
            r@ == self.spec_name(),
    {
        match self {
            UserType::Regular => "regular".to_owned(),
            UserType::Enterprise => "enterprise".to_owned(),
        }
    }

    /// Parse a catalog name; an unrecognized name is an explicit failure.
    pub fn from_name(s: &str) -> (r: Option<UserType>)
        ensures
            r == UserType::spec_of_name(s@),
    {
        if str_eq(s, "regular") {
            Some(UserType::Regular)
        } else if str_eq(s, "enterprise") {
            Some(UserType::Enterprise)
        } else {
            None
        }
    }
}

/// A calendar date, as carried in a user profile.
#[derive(Clone, Copy, PartialEq, Eq, Structural, Debug)]
pub struct Date {
    pub year: i32,
    pub month: u8,
    pub day: u8,
}

/// Leap years of the proleptic Gregorian calendar.
pub open spec fn is_leap_year(y: int) -> bool {
    y % 4 == 0 && (y % 100 != 0 || y % 400 == 0)
}

/// Number of days of month `m` of year `y`, for `1 <= m <= 12`.
pub open spec fn days_in_month(y: int, m: int) -> int {
    if m == 2 {
        if is_leap_year(y) {
            29
        } else {
            28
        }
    } else if m == 4 || m == 6 || m == 9 || m == 11 {
        30
    } else {
        31
    }
}

/// A month and day that exist in the given year.
pub open spec fn valid_date(y: int, m: int, d: int) -> bool {
    1 <= m <= 12 && 1 <= d <= days_in_month(y, m)
}

impl Date {
    pub open spec fn valid(self) -> bool {
        valid_date(self.year as int, self.month as int, self.day as int)
    }
}

/// The shape of a ten-character `YYYY-MM-DD` date string.
pub open spec fn date_text_shape(s: Seq<char>) -> bool {
    &&& s.len() == 10
    &&& is_digit_char(s[0]) && is_digit_char(s[1]) && is_digit_char(s[2]) && is_digit_char(s[3])
    &&& s[4] == '-'
    &&& is_digit_char(s[5]) && is_digit_char(s[6])
    &&& s[7] == '-'
    &&& is_digit_char(s[8]) && is_digit_char(s[9])
}

/// Numeric value of a digit character.
pub open spec fn digit_val(c: char) -> int {
    (c as u32) - 48
}

/// The date spelled by a string of shape `YYYY-MM-DD`.
pub open spec fn date_of_text(s: Seq<char>) -> Date {
    Date {
        year: (digit_val(s[0]) * 1000 + digit_val(s[1]) * 100 + digit_val(s[2]) * 10 + digit_val(
            s[3],
        )) as i32,
        month: (digit_val(s[5]) * 10 + digit_val(s[6])) as u8,
        day: (digit_val(s[8]) * 10 + digit_val(s[9])) as u8,
    }
}

/// Parse a `YYYY-MM-DD` string into a calendar-checked date. Any other
/// shape, or a month and day that do not exist, is rejected.
pub fn parse_date(s: &str) -> (r: Option<Date>)
    ensures
        r matches Some(d) ==> date_text_shape(s@) && d == date_of_text(s@) && d.valid(),
        r is None ==> !(date_text_shape(s@) && date_of_text(s@).valid()),
{
    let n = s.unicode_len();
    if n != 10 {
        return None;
    }
    let c0 = s.get_char(0);
    let c1 = s.get_char(1);
    let c2 = s.get_char(2);
    let c3 = s.get_char(3);
    let c4 = s.get_char(4);
    let c5 = s.get_char(5);
    let c6 = s.get_char(6);
    let c7 = s.get_char(7);
    let c8 = s.get_char(8);
    let c9 = s.get_char(9);
    if !(char_is_digit(c0) && char_is_digit(c1) && char_is_digit(c2) && char_is_digit(c3)
        && c4 == '-' && char_is_digit(c5) && char_is_digit(c6) && c7 == '-' && char_is_digit(c8)
        && char_is_digit(c9)) {
        return None;
    }
    let year: u32 = (c0 as u32 - 48) * 1000 + (c1 as u32 - 48) * 100 + (c2 as u32 - 48) * 10 + (
    c3 as u32 - 48);
    let month: u32 = (c5 as u32 - 48) * 10 + (c6 as u32 - 48);
    let day: u32 = (c8 as u32 - 48) * 10 + (c9 as u32 - 48);
    let d = Date { year: year as i32, month: month as u8, day: day as u8 };
    if month < 1 || month > 12 {
        return None;
    }
    let max_day: u32 = if month == 2 {
        if year % 4 == 0 && (year % 100 != 0 || year % 400 == 0) {
            29
        } else {
            28
        }
    } else if month == 4 || month == 6 || month == 9 || month == 11 {
        30
    } else {
        31
    };
    if day < 1 || day > max_day {
        return None;
    }
    Some(d)
}

/// A stored user record.
#[derive(Debug)]
pub struct User {
    pub id: i32,
    pub username: String,
    pub email: String,
    pub password: String,
    pub first_name: Option<String>,
    pub last_name: Option<String>,
    pub country: Option<String>,
    pub birth_date: Option<Date>,
    pub created_at: u64,
    pub confirmed: bool,
    pub updated_at: u64,
    pub user_type: UserType,
}

/// Clone an optional owned string, keeping the value.
pub fn clone_opt_string(o: &Option<String>) -> (r: Option<String>)
    ensures
        r == *o,
{
    match o {
        Option::None => Option::None,
        Option::Some(s) => Option::Some(s.clone()),
    }
}

impl Clone for User {
    fn clone(&self) -> (r: Self)
        ensures
            r == *self,
    {
        User {
            id: self.id,
            username: self.username.clone(),
            email: self.email.clone(),
            password: self.password.clone(),
            first_name: clone_opt_string(&self.first_name),
            last_name: clone_opt_string(&self.last_name),
            country: clone_opt_string(&self.country),
            birth_date: self.birth_date,
            created_at: self.created_at,
            confirmed: self.confirmed,
            updated_at: self.updated_at,
            user_type: self.user_type,
        }
    }
}

/// The fields a signup supplies for a new user.
#[derive(Debug)]
pub struct NewUser {
    pub username: String,
    pub email: String,
    pub password: String,
}

/// A stored role-catalog record.
#[derive(Debug)]
pub struct Role {
    pub id: i32,
    pub code: RoleCode,
    pub name: String,
}

impl Clone for Role {
    fn clone(&self) -> (r: Self)
        ensures
            r == *self,
    {
        Role { id: self.id, code: self.code, name: self.name.clone() }
    }
}

/// The fields of a new role-catalog record.
#[derive(Debug)]
pub struct NewRole {
    pub code: RoleCode,
    pub name: String,
}

/// A global grant of a role to a user. At most one row exists per
/// `(user_id, role_id)` pair.
#[derive(Clone, Copy, PartialEq, Eq, Structural, Debug)]
pub struct NewUserRole {
    pub user_id: i32,
    pub role_id: i32,
}

/// A replacement set of profile fields; a field given as `None` is cleared.
#[derive(Debug)]
pub struct UpdatedUserInfo {
    pub first_name: Option<String>,
    pub last_name: Option<String>,
    pub country: Option<String>,
    pub birth_date: Option<Date>,
}

/// A stored tenant record.
#[derive(Debug)]
pub struct Company {
    pub id: i32,
    pub name: String,
    pub email: Option<String>,
    pub website: Option<String>,
    pub address: Option<String>,
    pub created_at: u64,
    pub updated_at: u64,
}

impl Clone for Company {
    fn clone(&self) -> (r: Self)
        ensures
            r == *self,
    {
        Company {
            id: self.id,
            name: self.name.clone(),
            email: clone_opt_string(&self.email),
            website: clone_opt_string(&self.website),
            address: clone_opt_string(&self.address),
            created_at: self.created_at,
            updated_at: self.updated_at,
        }
    }
}

/// The fields of a new tenant record.
#[derive(Debug)]
pub struct NewCompany {
    pub name: String,
    pub email: Option<String>,
    pub website: Option<String>,
    pub address: Option<String>,
}

/// A grant of a role to a user scoped to one company. At most one row
/// exists per `(user_id, company_id, role_id)` triple, and only for a row's
/// user also holding the same role globally.
#[derive(Clone, Copy, PartialEq, Eq, Structural, Debug)]
pub struct NewUserCompanyRoles {
    pub user_id: i32,
    pub company_id: i32,
    pub role_id: i32,
}

} // verus!
