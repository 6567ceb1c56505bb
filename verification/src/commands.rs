//! Operator commands over the ledger: creating and listing users and
//! companies, changing a user's type, granting and revoking roles, and
//! assigning a user to a company. Role codes and user types arrive as
//! text and are parsed all-or-nothing: one unrecognized name aborts the
//! whole command before anything is stored.

use vstd::prelude::*;

use crate::auth::{hash_password, password_verifies};
use crate::errors::{CommandError, RepoError};
use crate::models::{Company, NewCompany, NewUser, NewUserCompanyRoles, NewUserRole, Role, RoleCode, User, UserType};
use crate::repositories::{
    companies_listing_ok, roles_listing_ok, CompanyRepository, Ledger, RoleRepository,
    UserRepository,
};

verus! {

/// Every listed name parses to a role code.
pub open spec fn all_codes_parse(codes: Seq<String>) -> bool {
    forall|k: int| 0 <= k < codes.len() ==> RoleCode::spec_of_name((#[trigger] codes[k])@) is Some
}

/// Parse a list of role-code names, all or nothing: one unrecognized
/// name fails the whole list.
pub fn parse_role_codes(codes: &Vec<String>) -> (r: Result<Vec<RoleCode>, CommandError>)
    ensures
        r is Ok <==> all_codes_parse(codes@),
        r matches Err(e) ==> e == CommandError::InvalidRoleCode,
        r matches Ok(v) ==> v@.len() == codes@.len() && forall|k: int|
            0 <= k < v@.len() ==> Some(#[trigger] v@[k]) == RoleCode::spec_of_name(codes@[k]@),
{
    let mut parsed: Vec<RoleCode> = Vec::new();
    let n = codes.len();
    let mut i: usize = 0;
    while i < n
        invariant
            i <= n,
            n == codes@.len(),
            parsed@.len() == i,
            forall|k: int|
                0 <= k < i ==> Some(#[trigger] parsed@[k]) == RoleCode::spec_of_name(codes@[k]@),
        decreases n - i,
    {
        match RoleCode::from_name(codes[i].as_str()) {
            None => {
                return Err(CommandError::InvalidRoleCode);
            },
            Some(c) => {
                parsed.push(c);
            },
        }
        i += 1;
    }
    proof {
        assert forall|k: int|
            0 <= k < codes@.len() implies RoleCode::spec_of_name(
            (#[trigger] codes@[k])@) is Some by {
            assert(Some(parsed@[k]) == RoleCode::spec_of_name(codes@[k]@));
        }
    }
    Ok(parsed)
}

/// The set of codes a list of names spells.
pub open spec fn named_code(codes: Seq<String>, c: RoleCode) -> bool {
    exists|k: int| 0 <= k < codes.len() && RoleCode::spec_of_name((#[trigger] codes[k])@) == Some(
        c,
    )
}

/// Create a user with the given credentials, confirmation state, user
/// type and role codes, and return the stored record with its roles.
pub fn create_user(
    db: &mut Ledger,
    username: String,
    email: String,
    password: String,
    confirmed: bool,
    user_type_code: &str,
    role_codes: Vec<String>,
    now: u64,
) -> (r: Result<(User, Vec<Role>), CommandError>)
    requires
        old(db).wf(),
    ensures
        final(db).wf(),
        r == Err::<(User, Vec<Role>), CommandError>(CommandError::InvalidRoleCode) <==>
            !all_codes_parse(role_codes@),
        r == Err::<(User, Vec<Role>), CommandError>(CommandError::InvalidUserType) <==>
            all_codes_parse(role_codes@) && UserType::spec_of_name(user_type_code@) is None,
        r matches Err(e) && e != CommandError::Internal ==> *final(db) == *old(db),
        r == Err::<(User, Vec<Role>), CommandError>(CommandError::Internal) ==> *final(db) == *old(db),
        r == Err::<(User, Vec<Role>), CommandError>(CommandError::Repo(RepoError::DuplicateEmail))
            <==> all_codes_parse(role_codes@) && UserType::spec_of_name(
            user_type_code@,
        ) is Some && old(db).has_email(email@),
        r == Err::<(User, Vec<Role>), CommandError>(
            CommandError::Repo(RepoError::DuplicateUsername),
        ) <==> all_codes_parse(role_codes@) && UserType::spec_of_name(user_type_code@) is Some
            && !old(db).has_email(email@) && old(db).has_username(username@),
        r == Err::<(User, Vec<Role>), CommandError>(CommandError::Repo(RepoError::Capacity)) <==>
            all_codes_parse(role_codes@) && UserType::spec_of_name(user_type_code@) is Some && !old(db).has_email(email@) && !old(db).has_username(username@) && old(db).next_user_id
            == i32::MAX,
        (r is Ok || r == Err::<(User, Vec<Role>), CommandError>(CommandError::Internal)) <==>
            all_codes_parse(role_codes@) && UserType::spec_of_name(user_type_code@) is Some && !old(db).has_email(email@) && !old(db).has_username(username@) && old(db).next_user_id
            < i32::MAX,
        r is Ok ==> all_codes_parse(role_codes@) && UserType::spec_of_name(
            user_type_code@,
        ) is Some && !old(db).has_email(email@) && !old(db).has_username(username@),
        r matches Ok((u, roles)) ==> ({
            &&& u.username@ == username@
            &&& u.email@ == email@
            &&& u.confirmed == confirmed
            &&& Some(u.user_type) == UserType::spec_of_name(user_type_code@)
            &&& password_verifies(u.password@, password@)
            &&& final(db).has_user_id(u.id)
            &&& final(db).user_by_id(u.id) == u
            &&& (forall|c: RoleCode| #[trigger] final(db).has_global_role(u.id, c) <==> named_code(
                role_codes@,
                c,
            ))
            &&& roles_listing_ok(*final(db), u.id, roles@)
        }),
{
    let parsed = match parse_role_codes(&role_codes) {
        Err(e) => {
            return Err(e);
        },
        Ok(v) => v,
    };
    let user_type = match UserType::from_name(user_type_code) {
        None => {
            return Err(CommandError::InvalidUserType);
        },
        Some(t) => t,
    };
    match db.find_user_index_by_email(email.as_str()) {
        Some(i) => {
            proof {
                assert(db.users@[i as int].email@ == email@);
                assert(db.has_email(email@));
            }
            return Err(CommandError::Repo(RepoError::DuplicateEmail));
        },
        None => {},
    }
    match db.find_user_index_by_username(username.as_str()) {
        Some(i) => {
            proof {
                assert(db.users@[i as int].username@ == username@);
                assert(db.has_username(username@));
            }
            return Err(CommandError::Repo(RepoError::DuplicateUsername));
        },
        None => {},
    }
    if db.next_user_id == i32::MAX {
        return Err(CommandError::Repo(RepoError::Capacity));
    }
    let password_hash = match hash_password(password.as_str()) {
        Err(_) => {
            return Err(CommandError::Internal);
        },
        Ok(h) => h,
    };
    let new_user = NewUser { username, email, password: password_hash };
    let created = match UserRepository::create(db, new_user, parsed, now) {
        Err(RepoError::DuplicateEmail) => {
            return Err(CommandError::Repo(RepoError::DuplicateEmail));
        },
        Err(RepoError::DuplicateUsername) => {
            return Err(CommandError::Repo(RepoError::DuplicateUsername));
        },
        Err(e) => {
            return Err(CommandError::Repo(e));
        },
        Ok(u) => u,
    };
    let ghost s1 = *db;
    let uid = created.id;
    proof {
        let last = s1.users@.len() - 1;
        assert(s1.users@[last] == created);
        s1.lemma_user_index(last);
    }
    if confirmed {
        let _ = UserRepository::confirm_signup(db, uid, now);
    }
    let ghost s2 = *db;
    proof {
        if confirmed {
            let idx = s1.user_index_of(uid);
            assert(s2.users@[idx].id == uid);
            s2.lemma_user_index(idx);
        }
        assert(s2.has_user_id(uid));
    }
    let user = match UserRepository::set_user_type(db, uid, &user_type, now) {
        Err(_) => {
            return Err(CommandError::Internal);
        },
        Ok(u) => u,
    };
    proof {
        let idx = s2.user_index_of(uid);
        s2.lemma_user_index(idx);
        assert(db.users@[idx] == user);
        db.lemma_user_index(idx);
        assert(db.user_by_id(uid) == user);
        assert(db.user_roles@ == s1.user_roles@);
        assert(db.roles@ == s1.roles@);
        assert forall|c: RoleCode| #[trigger] db.has_global_role(uid, c) <==> s1.has_global_role(
            uid,
            c,
        ) by {
            if db.has_global_role(uid, c) {
                let rid = choose|rid: i32|
                    #[trigger] db.has_user_role(uid, rid) && db.role_has_code(rid, c);
                assert(s1.has_user_role(uid, rid));
                assert(s1.role_has_code(rid, c));
                assert(s1.has_global_role(uid, c));
            }
            if s1.has_global_role(uid, c) {
                let rid = choose|rid: i32|
                    #[trigger] s1.has_user_role(uid, rid) && s1.role_has_code(rid, c);
                assert(db.has_user_role(uid, rid));
                assert(db.role_has_code(rid, c));
                assert(db.has_global_role(uid, c));
            }
        }
        assert forall|c: RoleCode| #[trigger] db.has_global_role(uid, c) <==> named_code(
            role_codes@,
            c,
        ) by {
            if db.has_global_role(uid, c) {
                assert(parsed@.contains(c));
                let k = choose|k: int| 0 <= k < parsed@.len() && parsed@[k] == c;
                assert(RoleCode::spec_of_name(role_codes@[k]@) == Some(c));
            }
            if named_code(role_codes@, c) {
                let k = choose|k: int|
                    0 <= k < role_codes@.len() && RoleCode::spec_of_name(
                        (#[trigger] role_codes@[k])@,
                    ) == Some(c);
                assert(parsed@[k] == c);
                assert(parsed@.contains(c));
            }
        }
    }
    let roles = RoleRepository::find_by_user(db, &user);
    Ok((user, roles))
}

/// Every user row with its roles and companies, for listing.
pub fn list_users(db: &Ledger) -> (r: Vec<(User, Vec<Role>, Vec<Company>)>)
    requires
        db.wf(),
    ensures
        r@.len() == db.users@.len(),
        forall|i: int| 0 <= i < r@.len() ==> (#[trigger] r@[i]).0 == db.users@[i],
        forall|i: int|
            0 <= i < r@.len() ==> roles_listing_ok(*db, db.users@[i].id, (#[trigger] r@[i]).1@),
        forall|i: int|
            0 <= i < r@.len() ==> companies_listing_ok(
                *db,
                db.users@[i].id,
                (#[trigger] r@[i]).2@,
            ),
{
    let mut r: Vec<(User, Vec<Role>, Vec<Company>)> = Vec::new();
    let n = db.users.len();
    let mut i: usize = 0;
    while i < n
        invariant
            i <= n,
            n == db.users@.len(),
            db.wf(),
            r@.len() == i,
            forall|k: int| 0 <= k < i ==> (#[trigger] r@[k]).0 == db.users@[k],
            forall|k: int|
                0 <= k < i ==> roles_listing_ok(*db, db.users@[k].id, (#[trigger] r@[k]).1@),
            forall|k: int|
                0 <= k < i ==> companies_listing_ok(*db, db.users@[k].id, (#[trigger] r@[k]).2@),
        decreases n - i,
    {
        let user = UserRepository::find(db, db.users[i].id);
        let user = match user {
            Err(_) => {
                proof {
                    db.lemma_user_index(i as int);
                }
                return r;
            },
            Ok(u) => u,
        };
        proof {
            db.lemma_user_index(i as int);
        }
        let roles = RoleRepository::find_by_user(db, &user);
        let companies = UserRepository::find_companies(db, user.id);
        r.push((user, roles, companies));
        i += 1;
    }
    r
}

/// Delete a user and every grant the user holds.
pub fn delete_user(db: &mut Ledger, id: i32)
    requires
        old(db).wf(),
    ensures
        final(db).wf(),
        !final(db).has_user_id(id),
        forall|c: RoleCode| !final(db).has_global_role(id, c),
        forall|cid: i32| !final(db).member_of(id, cid),
{
    let ghost pre = *db;
    UserRepository::delete(db, id);
    proof {
        if db.has_user_id(id) {
            let i = choose|i: int| 0 <= i < db.users@.len() && (#[trigger] db.users@[i]).id == id;
            if pre.has_user_id(id) {
                let idx = pre.user_index_of(id);
                pre.lemma_user_index(idx);
                let oi = if i < idx {
                    i
                } else {
                    i + 1
                };
                assert(db.users@[i] == pre.users@[oi]);
                pre.lemma_user_index(oi);
            } else {
                assert(pre.has_user_id(id));
            }
        }
        assert forall|c: RoleCode| !db.has_global_role(id, c) by {
            if db.has_global_role(id, c) {
                let rid = choose|rid: i32|
                    #[trigger] db.has_user_role(id, rid) && db.role_has_code(rid, c);
                assert(db.user_roles@.contains(NewUserRole { user_id: id, role_id: rid }));
            }
        }
        assert forall|cid: i32| !db.member_of(id, cid) by {
            if db.member_of(id, cid) {
                let rid = choose|rid: i32| db.has_company_grant(id, cid, rid);
                assert(db.user_company_roles@.contains(
                    NewUserCompanyRoles { user_id: id, company_id: cid, role_id: rid },
                ));
            }
        }
    }
}

/// Set a user's type from its textual name.
pub fn set_user_type(db: &mut Ledger, id: i32, user_type_code: &str, now: u64) -> (r: Result<
    User,
    CommandError,
>)
    requires
        old(db).wf(),
    ensures
        final(db).wf(),
        r == Err::<User, CommandError>(CommandError::InvalidUserType) <==> UserType::spec_of_name(
            user_type_code@,
        ) is None,
        r == Err::<User, CommandError>(CommandError::Repo(RepoError::NoSuchUser)) <==>
            UserType::spec_of_name(user_type_code@) is Some && !old(db).has_user_id(id),
        r is Ok <==> UserType::spec_of_name(user_type_code@) is Some && old(db).has_user_id(id),
        r is Err ==> *final(db) == *old(db),
        r matches Ok(u) ==> u.id == id && Some(u.user_type) == UserType::spec_of_name(
            user_type_code@,
        ) && final(db).has_user_id(id) && final(db).user_by_id(id) == u,
{
    let user_type = match UserType::from_name(user_type_code) {
        None => {
            return Err(CommandError::InvalidUserType);
        },
        Some(t) => t,
    };
    let ghost mid = *db;
    match UserRepository::set_user_type(db, id, &user_type, now) {
        Err(_) => Err(CommandError::Repo(RepoError::NoSuchUser)),
        Ok(u) => {
            proof {
                let idx = mid.user_index_of(id);
                mid.lemma_user_index(idx);
                assert(db.users@[idx] == u);
                db.lemma_user_index(idx);
            }
            Ok(u)
        },
    }
}

/// Grant or revoke the named roles of a user, all or nothing, and return
/// the user's roles afterwards.
pub fn set_roles(db: &mut Ledger, id: i32, role_codes: Vec<String>, is_adding: bool) -> (r: Result<
    Vec<Role>,
    CommandError,
>)
    requires
        old(db).wf(),
    ensures
        final(db).wf(),
        r == Err::<Vec<Role>, CommandError>(CommandError::InvalidRoleCode) <==> !all_codes_parse(
            role_codes@,
        ),
        r == Err::<Vec<Role>, CommandError>(CommandError::Repo(RepoError::NoSuchUser)) <==>
            all_codes_parse(role_codes@) && !old(db).has_user_id(id),
        r is Ok <==> all_codes_parse(role_codes@) && old(db).has_user_id(id),
        r is Err ==> *final(db) == *old(db),
        r is Ok && is_adding ==> forall|c: RoleCode| #[trigger] final(db).has_global_role(id, c)
            <==> old(db).has_global_role(id, c) || named_code(role_codes@, c),
        r is Ok && !is_adding ==> forall|c: RoleCode| #[trigger] final(db).has_global_role(id, c)
            <==> old(db).has_global_role(id, c) && !named_code(role_codes@, c),
        r matches Ok(roles) ==> roles_listing_ok(*final(db), id, roles@),
{
    let parsed = match parse_role_codes(&role_codes) {
        Err(e) => {
            return Err(e);
        },
        Ok(v) => v,
    };
    proof {
        assert forall|c: RoleCode| #[trigger] parsed@.contains(c) <==> named_code(
            role_codes@,
            c,
        ) by {
            if parsed@.contains(c) {
                let k = choose|k: int| 0 <= k < parsed@.len() && parsed@[k] == c;
                assert(RoleCode::spec_of_name(role_codes@[k]@) == Some(c));
            }
            if named_code(role_codes@, c) {
                let k = choose|k: int|
                    0 <= k < role_codes@.len() && RoleCode::spec_of_name(
                        (#[trigger] role_codes@[k])@,
                    ) == Some(c);
                assert(parsed@[k] == c);
            }
        }
    }
    let user = match UserRepository::find(db, id) {
        Err(_) => {
            return Err(CommandError::Repo(RepoError::NoSuchUser));
        },
        Ok(u) => u,
    };
    proof {
        let idx = db.user_index_of(id);
        db.lemma_user_index(idx);
    }
    if is_adding {
        UserRepository::add_roles(db, &user, &parsed);
    } else {
        UserRepository::remove_roles(db, &user, &parsed);
    }
    let roles = RoleRepository::find_by_user(db, &user);
    Ok(roles)
}

/// Create a company with the given fields.
pub fn create_company(
    db: &mut Ledger,
    name: String,
    email: Option<String>,
    website: Option<String>,
    address: Option<String>,
    now: u64,
) -> (r: Result<Company, CommandError>)
    requires
        old(db).wf(),
    ensures
        final(db).wf(),
        r is Err ==> *final(db) == *old(db),
        r == Err::<Company, CommandError>(CommandError::Repo(RepoError::DuplicateCompanyName))
            <==> old(db).has_company_name(name@),
        r == Err::<Company, CommandError>(CommandError::Repo(RepoError::Capacity)) <==> !old(db).has_company_name(name@) && old(db).next_company_id == i32::MAX,
        r is Ok <==> !old(db).has_company_name(name@) && old(db).next_company_id < i32::MAX,
        r matches Ok(co) ==> co.name@ == name@ && co.email == email && co.website == website
            && co.address == address && final(db).companies@ == old(db).companies@.push(co)
            && final(db).next_company_id == old(db).next_company_id + 1 && final(db).users == old(db).users && final(db).roles == old(db).roles && final(db).user_roles == old(db).user_roles
            && final(db).user_company_roles == old(db).user_company_roles && final(db).next_user_id == old(db).next_user_id,
{
    let company = NewCompany { name, email, website, address };
    match CompanyRepository::create(db, company, now) {
        Err(e) => Err(CommandError::Repo(e)),
        Ok(co) => Ok(co),
    }
}

/// Assign a user, looked up by email, to a company, looked up by name,
/// with exactly the named roles: the user's global role set is replaced
/// to match, and each role is granted within the company. A user that is
/// not an enterprise user is rejected with nothing stored.
pub fn add_user_to_company(
    db: &mut Ledger,
    company_name: &str,
    user_email: &str,
    role_codes: Vec<String>,
) -> (r: Result<(), CommandError>)
    requires
        old(db).wf(),
    ensures
        final(db).wf(),
        r == Err::<(), CommandError>(CommandError::InvalidRoleCode) <==> !all_codes_parse(
            role_codes@,
        ),
        r == Err::<(), CommandError>(CommandError::Repo(RepoError::NoSuchCompany)) <==>
            all_codes_parse(role_codes@) && !old(db).has_company_name(company_name@),
        r == Err::<(), CommandError>(CommandError::Repo(RepoError::NoSuchUser)) <==>
            all_codes_parse(role_codes@) && old(db).has_company_name(company_name@) && !old(db).has_email(user_email@),
        r == Err::<(), CommandError>(CommandError::Repo(RepoError::NotEnterpriseUser)) <==>
            all_codes_parse(role_codes@) && old(db).has_company_name(company_name@) && old(db).has_email(user_email@) && old(db).user_by_email(user_email@).user_type
            != UserType::Enterprise,
        r is Err ==> *final(db) == *old(db),
        r is Ok <==> all_codes_parse(role_codes@) && old(db).has_company_name(company_name@)
            && old(db).has_email(user_email@) && old(db).user_by_email(user_email@).user_type
            == UserType::Enterprise,
        r is Ok ==> ({
            let uid = old(db).user_by_email(user_email@).id;
            let cid = old(db).company_by_name(company_name@).id;
            &&& (forall|c: RoleCode| #[trigger] final(db).has_global_role(uid, c) <==> named_code(
                role_codes@,
                c,
            ))
            &&& (forall|c: RoleCode| #[trigger] final(db).has_company_role(uid, cid, c) <==>
                named_code(role_codes@, c))
            &&& final(db).users == old(db).users
            &&& final(db).companies == old(db).companies
        }),
{
    let parsed = match parse_role_codes(&role_codes) {
        Err(e) => {
            return Err(e);
        },
        Ok(v) => v,
    };
    proof {
        assert forall|c: RoleCode| #[trigger] parsed@.contains(c) <==> named_code(
            role_codes@,
            c,
        ) by {
            if parsed@.contains(c) {
                let k = choose|k: int| 0 <= k < parsed@.len() && parsed@[k] == c;
                assert(RoleCode::spec_of_name(role_codes@[k]@) == Some(c));
            }
            if named_code(role_codes@, c) {
                let k = choose|k: int|
                    0 <= k < role_codes@.len() && RoleCode::spec_of_name(
                        (#[trigger] role_codes@[k])@,
                    ) == Some(c);
                assert(parsed@[k] == c);
            }
        }
    }
    let company = match CompanyRepository::find_by_name(db, company_name) {
        Err(_) => {
            return Err(CommandError::Repo(RepoError::NoSuchCompany));
        },
        Ok(co) => co,
    };
    let user = match UserRepository::find_by_email(db, user_email) {
        Err(_) => {
            return Err(CommandError::Repo(RepoError::NoSuchUser));
        },
        Ok(u) => u,
    };
    proof {
        let idx = db.email_index_of(user_email@);
        db.lemma_user_index(idx);
    }
    match user.user_type {
        UserType::Regular => Err(CommandError::Repo(RepoError::NotEnterpriseUser)),
        UserType::Enterprise => {
            match CompanyRepository::add_user(db, &company, &user, &parsed) {
                Err(_) => Err(CommandError::Repo(RepoError::NotEnterpriseUser)),
                Ok(()) => Ok(()),
            }
        },
    }
}

/// Every company row, for listing.
pub fn list_companies(db: &Ledger) -> (r: Vec<Company>)
    ensures
        r@ == db.companies@,
{
    CompanyRepository::list(db)
}

/// Delete a company and every grant scoped to it.
pub fn delete_company(db: &mut Ledger, id: i32)
    requires
        old(db).wf(),
    ensures
        final(db).wf(),
        !final(db).company_id_exists(id),
        forall|u2: i32, c: RoleCode| !final(db).has_company_role(u2, id, c),
        final(db).users == old(db).users,
        final(db).roles == old(db).roles,
        final(db).user_roles == old(db).user_roles,
{
    let ghost pre = *db;
    CompanyRepository::delete(db, id);
    proof {
        if db.company_id_exists(id) {
            let i = choose|i: int|
                0 <= i < db.companies@.len() && (#[trigger] db.companies@[i]).id == id;
            if pre.company_id_exists(id) {
                let idx = choose|idx: int|
                    0 <= idx < pre.companies@.len() && (#[trigger] pre.companies@[idx]).id == id;
                assert(db.companies@ == pre.companies@.remove(idx)) by {
                    assert(pre.company_id_exists(id));
                }
            }
        }
        assert forall|u2: i32, c: RoleCode| !db.has_company_role(u2, id, c) by {
            if db.has_company_role(u2, id, c) {
                let rid = choose|rid: i32|
                    #[trigger] db.has_company_grant(u2, id, rid) && db.role_has_code(rid, c);
                assert(db.user_company_roles@.contains(
                    NewUserCompanyRoles { user_id: u2, company_id: id, role_id: rid },
                ));
            }
        }
    }
}

} // verus!
