//! The role ledger: an in-memory model of the relational tables behind
//! the platform — users, the role catalog, global grants, companies and
//! company-scoped grants — with the uniqueness and consistency rules of
//! the data model as its invariant.
//!
//! Identifiers are assigned from per-table counters and never reused. A
//! role-catalog row's identifier equals its position plus one, since the
//! catalog only ever grows. A company-scoped grant always has a matching
//! global grant of the same role for the same user.

use vstd::prelude::*;

use crate::errors::RepoError;
use crate::models::{
    Company, NewCompany, NewRole, NewUser, NewUserCompanyRoles, NewUserRole, Role, RoleCode,
    UpdatedUserInfo, User, UserType,
};
use crate::text::str_eq;

verus! {

/// The stored state of the platform.
pub struct Ledger {
    pub users: Vec<User>,
    pub roles: Vec<Role>,
    pub user_roles: Vec<NewUserRole>,
    pub companies: Vec<Company>,
    pub user_company_roles: Vec<NewUserCompanyRoles>,
    pub next_user_id: i32,
    pub next_company_id: i32,
}

impl Ledger {
    /// User rows have pairwise distinct identifiers, usernames and email
    /// addresses, and identifiers below the allocation counter.
    pub open spec fn users_wf(self) -> bool {
        &&& forall|i: int, j: int|
            0 <= i < j < self.users@.len() ==> #[trigger] self.users@[i].id
                != #[trigger] self.users@[j].id && self.users@[i].username@
                != self.users@[j].username@ && self.users@[i].email@ != self.users@[j].email@
        &&& forall|i: int|
            0 <= i < self.users@.len() ==> (#[trigger] self.users@[i]).id < self.next_user_id
    }

    /// Role-catalog rows have pairwise distinct codes, and the identifier
    /// of the row at position `i` is `i + 1`.
    pub open spec fn roles_wf(self) -> bool {
        &&& forall|i: int|
            0 <= i < self.roles@.len() ==> (#[trigger] self.roles@[i]).id == i + 1
        &&& forall|i: int, j: int|
            0 <= i < j < self.roles@.len() ==> #[trigger] self.roles@[i].code
                != #[trigger] self.roles@[j].code
    }

    /// Global grant rows are pairwise distinct and reference a stored
    /// role and an allocated user identifier.
    pub open spec fn user_roles_wf(self) -> bool {
        &&& forall|i: int, j: int|
            0 <= i < j < self.user_roles@.len() ==> #[trigger] self.user_roles@[i]
                != #[trigger] self.user_roles@[j]
        &&& forall|i: int|
            0 <= i < self.user_roles@.len() ==> (#[trigger] self.user_roles@[i]).user_id
                < self.next_user_id
        &&& forall|i: int|
            0 <= i < self.user_roles@.len() ==> 1 <= (#[trigger] self.user_roles@[i]).role_id
                <= self.roles@.len()
    }

    /// Company rows have pairwise distinct identifiers and names, and
    /// identifiers below the allocation counter.
    pub open spec fn companies_wf(self) -> bool {
        &&& forall|i: int, j: int|
            0 <= i < j < self.companies@.len() ==> #[trigger] self.companies@[i].id
                != #[trigger] self.companies@[j].id && self.companies@[i].name@
                != self.companies@[j].name@
        &&& forall|i: int|
            0 <= i < self.companies@.len() ==> (#[trigger] self.companies@[i]).id
                < self.next_company_id
    }

    /// Company-scoped grant rows are pairwise distinct, reference a
    /// stored role, company and allocated user identifier, and each is
    /// backed by the matching global grant.
    pub open spec fn company_roles_wf(self) -> bool {
        &&& forall|i: int, j: int|
            0 <= i < j < self.user_company_roles@.len() ==> #[trigger] self.user_company_roles@[i]
                != #[trigger] self.user_company_roles@[j]
        &&& forall|i: int|
            0 <= i < self.user_company_roles@.len() ==> (
            #[trigger] self.user_company_roles@[i]).user_id < self.next_user_id
        &&& forall|i: int|
            0 <= i < self.user_company_roles@.len() ==> 1 <= (
            #[trigger] self.user_company_roles@[i]).role_id <= self.roles@.len()
        &&& forall|i: int|
            0 <= i < self.user_company_roles@.len() ==> self.company_id_exists(
                (#[trigger] self.user_company_roles@[i]).company_id,
            )
        &&& forall|i: int|
            0 <= i < self.user_company_roles@.len() ==> self.user_roles@.contains(
                NewUserRole {
                    user_id: (#[trigger] self.user_company_roles@[i]).user_id,
                    role_id: self.user_company_roles@[i].role_id,
                },
            )
    }

    /// The well-formedness invariant of the whole ledger.
    pub open spec fn wf(self) -> bool {
        &&& self.users_wf()
        &&& self.roles_wf()
        &&& self.user_roles_wf()
        &&& self.companies_wf()
        &&& self.company_roles_wf()
        &&& 0 < self.next_user_id
        &&& 0 < self.next_company_id
    }

    /// The role identifier `rid` is stored and carries `code`.
    pub open spec fn role_has_code(self, rid: i32, code: RoleCode) -> bool {
        1 <= rid <= self.roles@.len() && self.roles@[rid - 1].code == code
    }

    /// Some role-catalog row carries `code`.
    pub open spec fn role_code_exists(self, code: RoleCode) -> bool {
        exists|i: int| 0 <= i < self.roles@.len() && (#[trigger] self.roles@[i]).code == code
    }

    /// A global grant row links the user to the role.
    pub open spec fn has_user_role(self, uid: i32, rid: i32) -> bool {
        self.user_roles@.contains(NewUserRole { user_id: uid, role_id: rid })
    }

    /// The user holds the role code globally.
    pub open spec fn has_global_role(self, uid: i32, code: RoleCode) -> bool {
        exists|rid: i32| #[trigger] self.has_user_role(uid, rid) && self.role_has_code(rid, code)
    }

    /// A company-scoped grant row links the user to the role within the
    /// company.
    pub open spec fn has_company_grant(self, uid: i32, cid: i32, rid: i32) -> bool {
        self.user_company_roles@.contains(
            NewUserCompanyRoles { user_id: uid, company_id: cid, role_id: rid },
        )
    }

    /// The user holds the role code within the company.
    pub open spec fn has_company_role(self, uid: i32, cid: i32, code: RoleCode) -> bool {
        exists|rid: i32| #[trigger] self.has_company_grant(uid, cid, rid) && self.role_has_code(
            rid,
            code,
        )
    }

    /// The user belongs to the company: some grant row ties them.
    pub open spec fn member_of(self, uid: i32, cid: i32) -> bool {
        exists|rid: i32| self.has_company_grant(uid, cid, rid)
    }

    /// Some user row carries the identifier.
    pub open spec fn has_user_id(self, id: i32) -> bool {
        exists|i: int| 0 <= i < self.users@.len() && (#[trigger] self.users@[i]).id == id
    }

    /// Position of the user row carrying the identifier.
    pub open spec fn user_index_of(self, id: i32) -> int {
        choose|i: int| 0 <= i < self.users@.len() && (#[trigger] self.users@[i]).id == id
    }

    /// The user row carrying the identifier.
    pub open spec fn user_by_id(self, id: i32) -> User {
        self.users@[self.user_index_of(id)]
    }

    /// Some user row carries the email address.
    pub open spec fn has_email(self, email: Seq<char>) -> bool {
        exists|i: int| 0 <= i < self.users@.len() && (#[trigger] self.users@[i]).email@ == email
    }

    /// Position of the user row carrying the email address.
    pub open spec fn email_index_of(self, email: Seq<char>) -> int {
        choose|i: int| 0 <= i < self.users@.len() && (#[trigger] self.users@[i]).email@ == email
    }

    /// The user row carrying the email address.
    pub open spec fn user_by_email(self, email: Seq<char>) -> User {
        self.users@[self.email_index_of(email)]
    }

    /// Some user row carries the username.
    pub open spec fn has_username(self, username: Seq<char>) -> bool {
        exists|i: int|
            0 <= i < self.users@.len() && (#[trigger] self.users@[i]).username@ == username
    }

    /// Some company row carries the identifier.
    pub open spec fn company_id_exists(self, cid: i32) -> bool {
        exists|i: int| 0 <= i < self.companies@.len() && (#[trigger] self.companies@[i]).id == cid
    }

    /// Some company row carries the name.
    pub open spec fn has_company_name(self, name: Seq<char>) -> bool {
        exists|i: int|
            0 <= i < self.companies@.len() && (#[trigger] self.companies@[i]).name@ == name
    }

    /// Position of the company row carrying the name.
    pub open spec fn company_name_index_of(self, name: Seq<char>) -> int {
        choose|i: int|
            0 <= i < self.companies@.len() && (#[trigger] self.companies@[i]).name@ == name
    }

    /// The company row carrying the name.
    pub open spec fn company_by_name(self, name: Seq<char>) -> Company {
        self.companies@[self.company_name_index_of(name)]
    }

    /// The uniqueness of company names makes any witnessing row the one
    /// the specification functions pick.
    pub proof fn lemma_company_index(self, i: int)
        requires
            self.companies_wf(),
            0 <= i < self.companies@.len(),
        ensures
            self.has_company_name(self.companies@[i].name@),
            self.company_name_index_of(self.companies@[i].name@) == i,
            self.company_by_name(self.companies@[i].name@) == self.companies@[i],
            self.company_id_exists(self.companies@[i].id),
    {
        assert(self.has_company_name(self.companies@[i].name@));
        let j = self.company_name_index_of(self.companies@[i].name@);
        if i < j {
            assert(self.companies@[i].name@ != self.companies@[j].name@);
        } else if j < i {
            assert(self.companies@[j].name@ != self.companies@[i].name@);
        }
    }

    /// The user holds the role code within the company, as the
    /// executable check.
    pub fn holds_company_role(&self, uid: i32, cid: i32, code: RoleCode) -> (r: bool)
        requires
            self.wf(),
        ensures
            r == self.has_company_role(uid, cid, code),
    {
        match self.find_role_by_code(code) {
            None => {
                proof {
                    if self.has_company_role(uid, cid, code) {
                        let rid = choose|rid: i32|
                            #[trigger] self.has_company_grant(uid, cid, rid)
                                && self.role_has_code(rid, code);
                        assert(self.roles@[rid - 1].code == code);
                        assert(self.role_code_exists(code));
                    }
                }
                false
            },
            Some(i) => {
                let rid = self.roles[i].id;
                let held = self.company_grant_row_exists(uid, cid, rid);
                proof {
                    if held {
                        assert(self.role_has_code(rid, code));
                        assert(self.has_company_role(uid, cid, code));
                    } else if self.has_company_role(uid, cid, code) {
                        let rid2 = choose|rid2: i32|
                            #[trigger] self.has_company_grant(uid, cid, rid2)
                                && self.role_has_code(rid2, code);
                        if rid2 != rid {
                            assert(self.roles@[rid2 - 1].code == code);
                            assert(self.roles@[rid - 1].code == code);
                            assert(rid2 - 1 != i as int);
                        }
                    }
                }
                held
            },
        }
    }

    /// An empty ledger.
    pub fn new() -> (r: Ledger)
        ensures
            r.wf(),
            r.users@ == Seq::<User>::empty(),
            r.roles@ == Seq::<Role>::empty(),
            r.user_roles@ == Seq::<NewUserRole>::empty(),
            r.companies@ == Seq::<Company>::empty(),
            r.user_company_roles@ == Seq::<NewUserCompanyRoles>::empty(),
            r.next_user_id == 1,
            r.next_company_id == 1,
    {
        Ledger {
            users: Vec::new(),
            roles: Vec::new(),
            user_roles: Vec::new(),
            companies: Vec::new(),
            user_company_roles: Vec::new(),
            next_user_id: 1,
            next_company_id: 1,
        }
    }

    /// The uniqueness of user identifiers makes any witnessing row the
    /// one the specification functions pick.
    pub proof fn lemma_user_index(self, i: int)
        requires
            self.users_wf(),
            0 <= i < self.users@.len(),
        ensures
            self.has_user_id(self.users@[i].id),
            self.user_index_of(self.users@[i].id) == i,
            self.user_by_id(self.users@[i].id) == self.users@[i],
            self.has_email(self.users@[i].email@),
            self.email_index_of(self.users@[i].email@) == i,
            self.user_by_email(self.users@[i].email@) == self.users@[i],
    {
        assert(self.has_user_id(self.users@[i].id));
        let j = self.user_index_of(self.users@[i].id);
        if i < j {
            assert(self.users@[i].id != self.users@[j].id);
        } else if j < i {
            assert(self.users@[j].id != self.users@[i].id);
        }
        assert(self.has_email(self.users@[i].email@));
        let k = self.email_index_of(self.users@[i].email@);
        if i < k {
            assert(self.users@[i].email@ != self.users@[k].email@);
        } else if k < i {
            assert(self.users@[k].email@ != self.users@[i].email@);
        }
    }

    /// Position of the role-catalog row carrying the code, if any.
    fn find_role_by_code(&self, code: RoleCode) -> (r: Option<usize>)
        ensures
            r matches Some(i) ==> i < self.roles@.len() && self.roles@[i as int].code == code,
            r is None ==> !self.role_code_exists(code),
    {
        let n = self.roles.len();
        let mut i: usize = 0;
        while i < n
            invariant
                i <= n,
                n == self.roles@.len(),
                forall|k: int| 0 <= k < i ==> (#[trigger] self.roles@[k]).code != code,
            decreases n - i,
        {
            if self.roles[i].code == code {
                return Some(i);
            }
            i += 1;
        }
        None
    }

    /// The catalog never outgrows the closed set of codes.
    proof fn lemma_roles_bound(self)
        requires
            self.roles_wf(),
        ensures
            self.roles@.len() <= 3,
    {
        if self.roles@.len() > 3 {
            let c0 = self.roles@[0].code;
            let c1 = self.roles@[1].code;
            let c2 = self.roles@[2].code;
            let c3 = self.roles@[3].code;
            assert(c0 != c1 && c0 != c2 && c0 != c3 && c1 != c2 && c1 != c3 && c2 != c3);
        }
    }

    /// Find the role-catalog row of the code, or create it, returning
    /// its identifier. Grants and every other table stay untouched.
    pub fn ensure_role(&mut self, code: RoleCode) -> (rid: i32)
        requires
            old(self).wf(),
        ensures
            final(self).wf(),
            final(self).role_has_code(rid, code),
            forall|c: RoleCode| #[trigger] final(self).role_code_exists(c) <==> old(self).role_code_exists(c) || c == code,
            forall|r2: i32, c2: RoleCode| #[trigger] old(self).role_has_code(r2, c2) ==> final(self).role_has_code(r2, c2),
            forall|r2: i32, c2: RoleCode|
                final(self).role_has_code(r2, c2) && r2 <= old(self).roles@.len() ==> old(self).role_has_code(r2, c2),
            final(self).roles@.len() >= old(self).roles@.len(),
            forall|u: i32, c: RoleCode| #[trigger] final(self).has_global_role(u, c) <==> old(self).has_global_role(u, c),
            forall|u: i32, cid: i32, c: RoleCode| #[trigger] final(self).has_company_role(
                u,
                cid,
                c,
            ) <==> old(self).has_company_role(u, cid, c),
            final(self).users == old(self).users,
            final(self).user_roles == old(self).user_roles,
            final(self).companies == old(self).companies,
            final(self).user_company_roles == old(self).user_company_roles,
            final(self).next_user_id == old(self).next_user_id,
            final(self).next_company_id == old(self).next_company_id,
    {
        match self.find_role_by_code(code) {
            Some(i) => {
                let rid = self.roles[i].id;
                proof {
                    assert(self.role_has_code(rid, code));
                    assert forall|c: RoleCode|
                        #[trigger] self.role_code_exists(c) <==> old(self).role_code_exists(c)
                            || c == code by {
                        if c == code {
                            assert(self.roles@[i as int].code == c);
                            assert(self.role_code_exists(c));
                        }
                    }
                }
                rid
            },
            None => self.push_role(code, code.name()),
        }
    }

    /// Append a role-catalog row for a code not yet stored, returning its
    /// identifier. Grants and every other table stay untouched.
    fn push_role(&mut self, code: RoleCode, name: String) -> (rid: i32)
        requires
            old(self).wf(),
            !old(self).role_code_exists(code),
        ensures
            final(self).wf(),
            rid == old(self).roles@.len() + 1,
            final(self).roles@ == old(self).roles@.push(Role { id: rid, code, name }),
            final(self).role_has_code(rid, code),
            forall|c: RoleCode| #[trigger] final(self).role_code_exists(c) <==> old(self).role_code_exists(c) || c == code,
            forall|r2: i32, c2: RoleCode| #[trigger] old(self).role_has_code(r2, c2) ==> final(self).role_has_code(r2, c2),
            forall|r2: i32, c2: RoleCode|
                final(self).role_has_code(r2, c2) && r2 <= old(self).roles@.len() ==> old(self).role_has_code(r2, c2),
            forall|u: i32, c: RoleCode| #[trigger] final(self).has_global_role(u, c) <==> old(self).has_global_role(u, c),
            forall|u: i32, cid: i32, c: RoleCode| #[trigger] final(self).has_company_role(
                u,
                cid,
                c,
            ) <==> old(self).has_company_role(u, cid, c),
            final(self).users == old(self).users,
            final(self).user_roles == old(self).user_roles,
            final(self).companies == old(self).companies,
            final(self).user_company_roles == old(self).user_company_roles,
            final(self).next_user_id == old(self).next_user_id,
            final(self).next_company_id == old(self).next_company_id,
    {
        proof {
            self.lemma_roles_bound();
        }
        let ghost pre = *self;
        let rid: i32 = (self.roles.len() + 1) as i32;
        let role = Role { id: rid, code, name };
        self.roles.push(role);
                proof {
                    let last = self.roles@.len() - 1;
                    assert(self.roles@[last].code == code);
                    assert(self.role_code_exists(code));
                    assert forall|c: RoleCode|
                        #[trigger] self.role_code_exists(c) <==> pre.role_code_exists(c) || c
                            == code by {
                        if self.role_code_exists(c) && c != code {
                            let i2 = choose|i2: int|
                                0 <= i2 < self.roles@.len() && (#[trigger] self.roles@[i2]).code
                                    == c;
                            assert(i2 != last);
                            assert(pre.roles@[i2].code == c);
                            assert(pre.role_code_exists(c));
                        }
                        if pre.role_code_exists(c) {
                            let i2 = choose|i2: int|
                                0 <= i2 < pre.roles@.len() && (#[trigger] pre.roles@[i2]).code
                                    == c;
                            assert(self.roles@[i2].code == c);
                            assert(self.role_code_exists(c));
                        }
                    }
                    assert forall|u: i32, c: RoleCode|
                        #[trigger] self.has_global_role(u, c) <==> pre.has_global_role(u, c) by {
                        if self.has_global_role(u, c) {
                            let r2 = choose|r2: i32|
                                #[trigger] self.has_user_role(u, r2) && self.role_has_code(r2, c);
                            assert(pre.user_roles@.contains(
                                NewUserRole { user_id: u, role_id: r2 },
                            ));
                            let w = choose|w: int|
                                0 <= w < pre.user_roles@.len() && pre.user_roles@[w]
                                    == NewUserRole { user_id: u, role_id: r2 };
                            assert(1 <= r2 <= pre.roles@.len());
                            assert(pre.has_user_role(u, r2));
                            assert(pre.role_has_code(r2, c));
                            assert(pre.has_global_role(u, c));
                        }
                        if pre.has_global_role(u, c) {
                            let r2 = choose|r2: i32|
                                #[trigger] pre.has_user_role(u, r2) && pre.role_has_code(r2, c);
                            assert(self.has_user_role(u, r2));
                            assert(self.role_has_code(r2, c));
                        }
                    }
                    assert forall|u: i32, cid: i32, c: RoleCode|
                        #[trigger] self.has_company_role(u, cid, c) <==> pre.has_company_role(
                            u,
                            cid,
                            c,
                        ) by {
                        if self.has_company_role(u, cid, c) {
                            let r2 = choose|r2: i32|
                                #[trigger] self.has_company_grant(u, cid, r2)
                                    && self.role_has_code(r2, c);
                            let w = choose|w: int|
                                0 <= w < pre.user_company_roles@.len()
                                    && pre.user_company_roles@[w] == NewUserCompanyRoles {
                                    user_id: u,
                                    company_id: cid,
                                    role_id: r2,
                                };
                            assert(1 <= r2 <= pre.roles@.len());
                            assert(pre.has_company_grant(u, cid, r2));
                            assert(pre.role_has_code(r2, c));
                            assert(pre.has_company_role(u, cid, c));
                        }
                        if pre.has_company_role(u, cid, c) {
                            let r2 = choose|r2: i32|
                                #[trigger] pre.has_company_grant(u, cid, r2)
                                    && pre.role_has_code(r2, c);
                            assert(self.has_company_grant(u, cid, r2));
                            assert(self.role_has_code(r2, c));
                        }
                    }
                }
        rid
    }

    /// A stored global grant row for the pair, as the executable check.
    fn user_role_row_exists(&self, uid: i32, rid: i32) -> (r: bool)
        ensures
            r == self.has_user_role(uid, rid),
    {
        let n = self.user_roles.len();
        let mut i: usize = 0;
        while i < n
            invariant
                i <= n,
                n == self.user_roles@.len(),
                forall|k: int|
                    0 <= k < i ==> #[trigger] self.user_roles@[k] != (NewUserRole {
                        user_id: uid,
                        role_id: rid,
                    }),
            decreases n - i,
        {
            let row = self.user_roles[i];
            if row.user_id == uid && row.role_id == rid {
                assert(self.has_user_role(uid, rid));
                return true;
            }
            i += 1;
        }
        assert forall|k: int| 0 <= k < self.user_roles@.len() implies #[trigger] self
            .user_roles@[k] != (NewUserRole { user_id: uid, role_id: rid }) by {}
        false
    }

    /// Ensure the global grant row for the pair, leaving every other row
    /// and table untouched. A grant already stored is kept as it is.
    fn insert_user_role(&mut self, uid: i32, rid: i32)
        requires
            old(self).wf(),
            uid < old(self).next_user_id,
            1 <= rid <= old(self).roles@.len(),
        ensures
            final(self).wf(),
            forall|x: NewUserRole| #[trigger] final(self).user_roles@.contains(x) <==> old(self).user_roles@.contains(x) || x == (NewUserRole { user_id: uid, role_id: rid }),
            final(self).users == old(self).users,
            final(self).roles == old(self).roles,
            final(self).companies == old(self).companies,
            final(self).user_company_roles == old(self).user_company_roles,
            final(self).next_user_id == old(self).next_user_id,
            final(self).next_company_id == old(self).next_company_id,
    {
        let row = NewUserRole { user_id: uid, role_id: rid };
        if !self.user_role_row_exists(uid, rid) {
            let ghost pre = *self;
            self.user_roles.push(row);
            proof {
                let last = pre.user_roles@.len() as int;
                assert forall|x: NewUserRole| #[trigger] self.user_roles@.contains(x) <==> pre
                    .user_roles@.contains(x) || x == row by {
                    if self.user_roles@.contains(x) {
                        let k = choose|k: int|
                            0 <= k < self.user_roles@.len() && self.user_roles@[k] == x;
                        if k < last {
                            assert(pre.user_roles@[k] == x);
                            assert(pre.user_roles@.contains(x));
                        }
                    }
                    if pre.user_roles@.contains(x) {
                        let k = choose|k: int|
                            0 <= k < pre.user_roles@.len() && pre.user_roles@[k] == x;
                        assert(self.user_roles@[k] == x);
                        assert(self.user_roles@.contains(x));
                    }
                    if x == row {
                        assert(self.user_roles@[last] == x);
                        assert(self.user_roles@.contains(x));
                    }
                }
                assert forall|i2: int, j2: int|
                    0 <= i2 < j2 < self.user_roles@.len() implies #[trigger] self.user_roles@[i2]
                    != #[trigger] self.user_roles@[j2] by {
                    if j2 == last {
                        assert(pre.user_roles@[i2] == self.user_roles@[i2]);
                        assert(pre.user_roles@.contains(self.user_roles@[i2]));
                        assert(!pre.has_user_role(uid, rid));
                    }
                }
                assert forall|i2: int|
                    0 <= i2 < self.user_company_roles@.len() implies self.user_roles@.contains(
                    NewUserRole {
                        user_id: (#[trigger] self.user_company_roles@[i2]).user_id,
                        role_id: self.user_company_roles@[i2].role_id,
                    },
                ) by {
                    assert(pre.user_roles@.contains(
                        NewUserRole {
                            user_id: pre.user_company_roles@[i2].user_id,
                            role_id: pre.user_company_roles@[i2].role_id,
                        },
                    ));
                }
            }
        }
    }

    /// A stored company-scoped grant row for the triple.
    fn company_grant_row_exists(&self, uid: i32, cid: i32, rid: i32) -> (r: bool)
        ensures
            r == self.has_company_grant(uid, cid, rid),
    {
        let n = self.user_company_roles.len();
        let mut i: usize = 0;
        while i < n
            invariant
                i <= n,
                n == self.user_company_roles@.len(),
                forall|k: int|
                    0 <= k < i ==> #[trigger] self.user_company_roles@[k] != (NewUserCompanyRoles {
                        user_id: uid,
                        company_id: cid,
                        role_id: rid,
                    }),
            decreases n - i,
        {
            let row = self.user_company_roles[i];
            if row.user_id == uid && row.company_id == cid && row.role_id == rid {
                assert(self.has_company_grant(uid, cid, rid));
                return true;
            }
            i += 1;
        }
        false
    }

    /// The user belongs to the company, as the executable check.
    pub fn is_member(&self, uid: i32, cid: i32) -> (r: bool)
        ensures
            r == self.member_of(uid, cid),
    {
        let n = self.user_company_roles.len();
        let mut i: usize = 0;
        while i < n
            invariant
                i <= n,
                n == self.user_company_roles@.len(),
                forall|k: int|
                    0 <= k < i ==> !((#[trigger] self.user_company_roles@[k]).user_id == uid
                        && self.user_company_roles@[k].company_id == cid),
            decreases n - i,
        {
            let row = self.user_company_roles[i];
            if row.user_id == uid && row.company_id == cid {
                assert(self.has_company_grant(uid, cid, row.role_id));
                return true;
            }
            i += 1;
        }
        proof {
            if self.member_of(uid, cid) {
                let rid = choose|rid: i32| self.has_company_grant(uid, cid, rid);
                let k = choose|k: int|
                    0 <= k < self.user_company_roles@.len() && self.user_company_roles@[k]
                        == (NewUserCompanyRoles { user_id: uid, company_id: cid, role_id: rid });
                assert(false);
            }
        }
        false
    }

    /// Ensure the company-scoped grant row for the triple, leaving every
    /// other row and table untouched. The matching global grant must
    /// already be stored.
    fn insert_company_grant(&mut self, uid: i32, cid: i32, rid: i32)
        requires
            old(self).wf(),
            uid < old(self).next_user_id,
            1 <= rid <= old(self).roles@.len(),
            old(self).company_id_exists(cid),
            old(self).has_user_role(uid, rid),
        ensures
            final(self).wf(),
            forall|y: NewUserCompanyRoles| #[trigger] final(self).user_company_roles@.contains(y)
                <==> old(self).user_company_roles@.contains(y) || y == (NewUserCompanyRoles {
                user_id: uid,
                company_id: cid,
                role_id: rid,
            }),
            final(self).users == old(self).users,
            final(self).roles == old(self).roles,
            final(self).user_roles == old(self).user_roles,
            final(self).companies == old(self).companies,
            final(self).next_user_id == old(self).next_user_id,
            final(self).next_company_id == old(self).next_company_id,
    {
        let row = NewUserCompanyRoles { user_id: uid, company_id: cid, role_id: rid };
        if !self.company_grant_row_exists(uid, cid, rid) {
            let ghost pre = *self;
            self.user_company_roles.push(row);
            proof {
                let last = pre.user_company_roles@.len() as int;
                assert forall|y: NewUserCompanyRoles| #[trigger] self.user_company_roles@.contains(
                    y,
                ) <==> pre.user_company_roles@.contains(y) || y == row by {
                    if self.user_company_roles@.contains(y) {
                        let k = choose|k: int|
                            0 <= k < self.user_company_roles@.len() && self.user_company_roles@[k]
                                == y;
                        if k < last {
                            assert(pre.user_company_roles@[k] == y);
                            assert(pre.user_company_roles@.contains(y));
                        }
                    }
                    if pre.user_company_roles@.contains(y) {
                        let k = choose|k: int|
                            0 <= k < pre.user_company_roles@.len() && pre.user_company_roles@[k]
                                == y;
                        assert(self.user_company_roles@[k] == y);
                        assert(self.user_company_roles@.contains(y));
                    }
                    if y == row {
                        assert(self.user_company_roles@[last] == y);
                        assert(self.user_company_roles@.contains(y));
                    }
                }
                assert forall|i2: int, j2: int|
                    0 <= i2 < j2 < self.user_company_roles@.len() implies #[trigger] self
                    .user_company_roles@[i2] != #[trigger] self.user_company_roles@[j2] by {
                    if j2 == last {
                        assert(pre.user_company_roles@[i2] == self.user_company_roles@[i2]);
                        assert(pre.user_company_roles@.contains(self.user_company_roles@[i2]));
                        assert(!pre.has_company_grant(uid, cid, rid));
                    }
                }
            }
        }
    }

    /// Delete the user's global grant of the role together with every
    /// company-scoped grant of the same role, so that the two levels stay
    /// in step.
    fn remove_role_rows(&mut self, uid: i32, rid: i32)
        requires
            old(self).wf(),
        ensures
            final(self).wf(),
            forall|x: NewUserRole| #[trigger] final(self).user_roles@.contains(x) <==> old(self).user_roles@.contains(x) && !(x.user_id == uid && x.role_id == rid),
            forall|y: NewUserCompanyRoles| #[trigger] final(self).user_company_roles@.contains(y)
                <==> old(self).user_company_roles@.contains(y) && !(y.user_id == uid && y.role_id
                == rid),
            final(self).users == old(self).users,
            final(self).roles == old(self).roles,
            final(self).companies == old(self).companies,
            final(self).next_user_id == old(self).next_user_id,
            final(self).next_company_id == old(self).next_company_id,
    {
        let ghost pre = *self;
        let mut kept_global: Vec<NewUserRole> = Vec::new();
        let n = self.user_roles.len();
        let mut i: usize = 0;
        while i < n
            invariant
                i <= n,
                n == self.user_roles@.len(),
                *self == pre,
                pre.wf(),
                forall|x: NewUserRole| #[trigger] kept_global@.contains(x) <==> ((exists|k: int|
                    0 <= k < i && pre.user_roles@[k] == x) && !(x.user_id == uid && x.role_id
                    == rid)),
                forall|i2: int, j2: int|
                    0 <= i2 < j2 < kept_global@.len() ==> #[trigger] kept_global@[i2]
                        != #[trigger] kept_global@[j2],
            decreases n - i,
        {
            let row = self.user_roles[i];
            if !(row.user_id == uid && row.role_id == rid) {
                proof {
                    if kept_global@.contains(row) {
                        let k = choose|k: int| 0 <= k < i && pre.user_roles@[k] == row;
                        assert(pre.user_roles@[k] == pre.user_roles@[i as int]);
                        assert(false);
                    }
                }
                let ghost kept_pre = kept_global@;
                kept_global.push(row);
                proof {
                    let last = kept_pre.len() as int;
                    assert forall|x: NewUserRole| #[trigger] kept_global@.contains(x) <==> ((
                    exists|k: int| 0 <= k < i + 1 && pre.user_roles@[k] == x) && !(x.user_id == uid
                        && x.role_id == rid)) by {
                        if kept_global@.contains(x) {
                            let k = choose|k: int|
                                0 <= k < kept_global@.len() && kept_global@[k] == x;
                            if k < last {
                                assert(kept_pre[k] == x);
                                assert(kept_pre.contains(x));
                            } else {
                                assert(x == row);
                                assert(pre.user_roles@[i as int] == x);
                            }
                        }
                        if (exists|k: int| 0 <= k < i + 1 && pre.user_roles@[k] == x) && !(
                        x.user_id == uid && x.role_id == rid) {
                            let k = choose|k: int| 0 <= k < i + 1 && pre.user_roles@[k] == x;
                            if k < i {
                                assert(kept_pre.contains(x));
                                let k2 = choose|k2: int|
                                    0 <= k2 < kept_pre.len() && kept_pre[k2] == x;
                                assert(kept_global@[k2] == x);
                            } else {
                                assert(x == row);
                                assert(kept_global@[last] == x);
                            }
                        }
                    }
                }
            } else {
                proof {
                    assert forall|x: NewUserRole| #[trigger] kept_global@.contains(x) <==> ((
                    exists|k: int| 0 <= k < i + 1 && pre.user_roles@[k] == x) && !(x.user_id == uid
                        && x.role_id == rid)) by {
                        if (exists|k: int| 0 <= k < i + 1 && pre.user_roles@[k] == x) && !(
                        x.user_id == uid && x.role_id == rid) {
                            let k = choose|k: int| 0 <= k < i + 1 && pre.user_roles@[k] == x;
                            assert(k < i);
                        }
                    }
                }
            }
            i += 1;
        }
        self.user_roles = kept_global;
        let ghost mid = *self;
        let mut kept_scoped: Vec<NewUserCompanyRoles> = Vec::new();
        let m = self.user_company_roles.len();
        let mut j: usize = 0;
        while j < m
            invariant
                j <= m,
                m == self.user_company_roles@.len(),
                *self == mid,
                forall|i2: int, j2: int|
                    0 <= i2 < j2 < mid.user_company_roles@.len()
                        ==> #[trigger] mid.user_company_roles@[i2]
                        != #[trigger] mid.user_company_roles@[j2],
                forall|y: NewUserCompanyRoles| #[trigger] kept_scoped@.contains(y) <==> ((exists|
                    k: int,
                |
                    0 <= k < j && mid.user_company_roles@[k] == y) && !(y.user_id == uid
                    && y.role_id == rid)),
                forall|i2: int, j2: int|
                    0 <= i2 < j2 < kept_scoped@.len() ==> #[trigger] kept_scoped@[i2]
                        != #[trigger] kept_scoped@[j2],
            decreases m - j,
        {
            let row = self.user_company_roles[j];
            if !(row.user_id == uid && row.role_id == rid) {
                proof {
                    if kept_scoped@.contains(row) {
                        let k = choose|k: int| 0 <= k < j && mid.user_company_roles@[k] == row;
                        assert(mid.user_company_roles@[k] == mid.user_company_roles@[j as int]);
                        assert(false);
                    }
                }
                let ghost kept_pre = kept_scoped@;
                kept_scoped.push(row);
                proof {
                    let last = kept_pre.len() as int;
                    assert forall|y: NewUserCompanyRoles| #[trigger] kept_scoped@.contains(y) <==>
                        ((exists|k: int| 0 <= k < j + 1 && mid.user_company_roles@[k] == y) && !(
                    y.user_id == uid && y.role_id == rid)) by {
                        if kept_scoped@.contains(y) {
                            let k = choose|k: int|
                                0 <= k < kept_scoped@.len() && kept_scoped@[k] == y;
                            if k < last {
                                assert(kept_pre[k] == y);
                                assert(kept_pre.contains(y));
                            } else {
                                assert(y == row);
                                assert(mid.user_company_roles@[j as int] == y);
                            }
                        }
                        if (exists|k: int| 0 <= k < j + 1 && mid.user_company_roles@[k] == y) && !(
                        y.user_id == uid && y.role_id == rid) {
                            let k = choose|k: int|
                                0 <= k < j + 1 && mid.user_company_roles@[k] == y;
                            if k < j {
                                assert(kept_pre.contains(y));
                                let k2 = choose|k2: int|
                                    0 <= k2 < kept_pre.len() && kept_pre[k2] == y;
                                assert(kept_scoped@[k2] == y);
                            } else {
                                assert(y == row);
                                assert(kept_scoped@[last] == y);
                            }
                        }
                    }
                }
            } else {
                proof {
                    assert forall|y: NewUserCompanyRoles| #[trigger] kept_scoped@.contains(y) <==>
                        ((exists|k: int| 0 <= k < j + 1 && mid.user_company_roles@[k] == y) && !(
                    y.user_id == uid && y.role_id == rid)) by {
                        if (exists|k: int| 0 <= k < j + 1 && mid.user_company_roles@[k] == y) && !(
                        y.user_id == uid && y.role_id == rid) {
                            let k = choose|k: int|
                                0 <= k < j + 1 && mid.user_company_roles@[k] == y;
                            assert(k < j);
                        }
                    }
                }
            }
            j += 1;
        }
        self.user_company_roles = kept_scoped;
        proof {
            assert forall|x: NewUserRole| #[trigger] self.user_roles@.contains(x) <==> pre
                .user_roles@.contains(x) && !(x.user_id == uid && x.role_id == rid) by {}
            assert forall|i2: int|
                0 <= i2 < self.user_roles@.len() implies (#[trigger] self.user_roles@[i2]).user_id
                < self.next_user_id && 1 <= self.user_roles@[i2].role_id <= self.roles@.len() by {
                assert(self.user_roles@.contains(self.user_roles@[i2]));
                let w = choose|w: int|
                    0 <= w < pre.user_roles@.len() && pre.user_roles@[w] == self.user_roles@[i2];
            }
            assert forall|i2: int|
                0 <= i2 < self.user_company_roles@.len() implies {
                &&& (#[trigger] self.user_company_roles@[i2]).user_id < self.next_user_id
                &&& 1 <= self.user_company_roles@[i2].role_id <= self.roles@.len()
                &&& self.company_id_exists(self.user_company_roles@[i2].company_id)
                &&& self.user_roles@.contains(
                    NewUserRole {
                        user_id: self.user_company_roles@[i2].user_id,
                        role_id: self.user_company_roles@[i2].role_id,
                    },
                )
            } by {
                let y = self.user_company_roles@[i2];
                assert(self.user_company_roles@.contains(y));
                let w = choose|w: int|
                    0 <= w < pre.user_company_roles@.len() && pre.user_company_roles@[w] == y;
                assert(pre.company_id_exists(y.company_id));
                let cw = choose|cw: int|
                    0 <= cw < pre.companies@.len() && (#[trigger] pre.companies@[cw]).id
                        == y.company_id;
                assert(self.companies@[cw].id == y.company_id);
                assert(self.company_id_exists(y.company_id));
                assert(pre.user_roles@.contains(
                    NewUserRole { user_id: y.user_id, role_id: y.role_id },
                ));
                assert(!(y.user_id == uid && y.role_id == rid));
                assert(self.user_roles@.contains(
                    NewUserRole { user_id: y.user_id, role_id: y.role_id },
                ));
            }
        }
    }


    /// The companies the user belongs to, each listed once.
    pub fn companies_of_user(&self, uid: i32) -> (r: Vec<Company>)
        requires
            self.wf(),
        ensures
            forall|j: int| 0 <= j < r@.len() ==> self.companies@.contains(#[trigger] r@[j])
                && self.member_of(uid, r@[j].id),
            forall|cid: i32| #[trigger] self.member_of(uid, cid) ==> exists|j: int|
                0 <= j < r@.len() && (#[trigger] r@[j]).id == cid,
            forall|j1: int, j2: int| 0 <= j1 < j2 < r@.len() ==> #[trigger] r@[j1].id
                != #[trigger] r@[j2].id,
            companies_listing_ok(*self, uid, r@),
    {
        let mut r: Vec<Company> = Vec::new();
        let n = self.companies.len();
        let mut i: usize = 0;
        while i < n
            invariant
                i <= n,
                n == self.companies@.len(),
                self.wf(),
                forall|j: int|
                    0 <= j < r@.len() ==> exists|k: int|
                        0 <= k < i && self.companies@[k] == (#[trigger] r@[j]),
                forall|j: int| 0 <= j < r@.len() ==> self.member_of(uid, (#[trigger] r@[j]).id),
                forall|k: int|
                    0 <= k < i && self.member_of(uid, (#[trigger] self.companies@[k]).id)
                        ==> exists|j: int| 0 <= j < r@.len() && (#[trigger] r@[j]).id
                        == self.companies@[k].id,
                forall|j1: int, j2: int| 0 <= j1 < j2 < r@.len() ==> #[trigger] r@[j1].id
                    != #[trigger] r@[j2].id,
            decreases n - i,
        {
            let cid = self.companies[i].id;
            if self.is_member(uid, cid) {
                let ghost r_pre = r@;
                r.push(
                    Company {
                        id: self.companies[i].id,
                        name: self.companies[i].name.clone(),
                        email: crate::models::clone_opt_string(&self.companies[i].email),
                        website: crate::models::clone_opt_string(&self.companies[i].website),
                        address: crate::models::clone_opt_string(&self.companies[i].address),
                        created_at: self.companies[i].created_at,
                        updated_at: self.companies[i].updated_at,
                    },
                );
                proof {
                    let last = r_pre.len() as int;
                    assert(r@[last] == self.companies@[i as int]);
                    assert forall|j1: int, j2: int|
                        0 <= j1 < j2 < r@.len() implies #[trigger] r@[j1].id
                        != #[trigger] r@[j2].id by {
                        if j2 == last {
                            assert(r_pre[j1] == r@[j1]);
                            let w = choose|w: int|
                                0 <= w < i && self.companies@[w] == (#[trigger] r@[j1]);
                            assert(self.companies@[w].id != self.companies@[i as int].id);
                        }
                    }
                    assert forall|k: int|
                        0 <= k < i + 1 && self.member_of(
                            uid,
                            (#[trigger] self.companies@[k]).id,
                        ) implies exists|j: int| 0 <= j < r@.len() && (#[trigger] r@[j]).id
                        == self.companies@[k].id by {
                        if k < i as int {
                            let j = choose|j: int|
                                0 <= j < r_pre.len() && (#[trigger] r_pre[j]).id
                                    == self.companies@[k].id;
                            assert(r@[j].id == self.companies@[k].id);
                        } else {
                            assert(r@[last].id == self.companies@[k].id);
                        }
                    }
                }
            } else {
                proof {
                    assert forall|k: int|
                        0 <= k < i + 1 && self.member_of(
                            uid,
                            (#[trigger] self.companies@[k]).id,
                        ) implies exists|j: int| 0 <= j < r@.len() && (#[trigger] r@[j]).id
                        == self.companies@[k].id by {
                        if k == i as int {
                            assert(!self.member_of(uid, cid));
                        }
                    }
                }
            }
            i += 1;
        }
        proof {
            assert forall|j: int| 0 <= j < r@.len() implies self.companies@.contains(
                #[trigger] r@[j],
            ) by {
                let k = choose|k: int| 0 <= k < n && self.companies@[k] == r@[j];
            }
            assert forall|cid2: i32| #[trigger] self.member_of(uid, cid2) implies exists|j: int|
                0 <= j < r@.len() && (#[trigger] r@[j]).id == cid2 by {
                let rid = choose|rid: i32| self.has_company_grant(uid, cid2, rid);
                let w = choose|w: int|
                    0 <= w < self.user_company_roles@.len() && self.user_company_roles@[w]
                        == (NewUserCompanyRoles { user_id: uid, company_id: cid2, role_id: rid });
                assert(self.company_id_exists(cid2));
                let k = choose|k: int|
                    0 <= k < self.companies@.len() && (#[trigger] self.companies@[k]).id == cid2;
            }
        }
        r
    }

    /// A copy of the user row at the position.
    fn clone_user_at(&self, i: usize) -> (r: User)
        requires
            i < self.users@.len(),
        ensures
            r == self.users@[i as int],
    {
        self.users[i].clone()
    }

    /// Replace a user row with an updated record carrying the same
    /// identifier, username and email; grants and every other table stay
    /// untouched.
    fn replace_user_row(&mut self, i: usize, updated: User)
        requires
            old(self).wf(),
            i < old(self).users@.len(),
            updated.id == old(self).users@[i as int].id,
            updated.username@ == old(self).users@[i as int].username@,
            updated.email@ == old(self).users@[i as int].email@,
        ensures
            final(self).wf(),
            final(self).users@ == old(self).users@.update(i as int, updated),
            final(self).roles == old(self).roles,
            final(self).user_roles == old(self).user_roles,
            final(self).companies == old(self).companies,
            final(self).user_company_roles == old(self).user_company_roles,
            final(self).next_user_id == old(self).next_user_id,
            final(self).next_company_id == old(self).next_company_id,
    {
        let ghost pre = *self;
        self.users.set(i, updated);
        proof {
            assert forall|i2: int, j2: int|
                0 <= i2 < j2 < self.users@.len() implies #[trigger] self.users@[i2].id
                != #[trigger] self.users@[j2].id && self.users@[i2].username@
                != self.users@[j2].username@ && self.users@[i2].email@
                != self.users@[j2].email@ by {
                assert(pre.users@[i2].id != pre.users@[j2].id);
            }
        }
    }

    /// Drop every grant row of the user, global and company-scoped.
    fn purge_user_grants(&mut self, uid: i32)
        requires
            old(self).wf(),
        ensures
            final(self).wf(),
            forall|x: NewUserRole| #[trigger] final(self).user_roles@.contains(x) <==> old(
                self,
            ).user_roles@.contains(x) && x.user_id != uid,
            forall|y: NewUserCompanyRoles| #[trigger] final(self).user_company_roles@.contains(y)
                <==> old(self).user_company_roles@.contains(y) && y.user_id != uid,
            final(self).users == old(self).users,
            final(self).roles == old(self).roles,
            final(self).companies == old(self).companies,
            final(self).next_user_id == old(self).next_user_id,
            final(self).next_company_id == old(self).next_company_id,
    {
        let ghost pre = *self;
        let mut kept_global: Vec<NewUserRole> = Vec::new();
        let n = self.user_roles.len();
        let mut i: usize = 0;
        while i < n
            invariant
                i <= n,
                n == self.user_roles@.len(),
                *self == pre,
                pre.wf(),
                forall|x: NewUserRole| #[trigger] kept_global@.contains(x) <==> ((exists|k: int|
                    0 <= k < i && pre.user_roles@[k] == x) && x.user_id != uid),
                forall|i2: int, j2: int|
                    0 <= i2 < j2 < kept_global@.len() ==> #[trigger] kept_global@[i2]
                        != #[trigger] kept_global@[j2],
            decreases n - i,
        {
            let row = self.user_roles[i];
            if row.user_id != uid {
                proof {
                    if kept_global@.contains(row) {
                        let k = choose|k: int| 0 <= k < i && pre.user_roles@[k] == row;
                        assert(pre.user_roles@[k] == pre.user_roles@[i as int]);
                        assert(false);
                    }
                }
                let ghost kept_pre = kept_global@;
                kept_global.push(row);
                proof {
                    let last = kept_pre.len() as int;
                    assert forall|x: NewUserRole| #[trigger] kept_global@.contains(x) <==> ((
                    exists|k: int| 0 <= k < i + 1 && pre.user_roles@[k] == x) && x.user_id != uid)
                        by {
                        if kept_global@.contains(x) {
                            let k = choose|k: int|
                                0 <= k < kept_global@.len() && kept_global@[k] == x;
                            if k < last {
                                assert(kept_pre[k] == x);
                                assert(kept_pre.contains(x));
                            } else {
                                assert(x == row);
                                assert(pre.user_roles@[i as int] == x);
                            }
                        }
                        if (exists|k: int| 0 <= k < i + 1 && pre.user_roles@[k] == x) && x.user_id
                            != uid {
                            let k = choose|k: int| 0 <= k < i + 1 && pre.user_roles@[k] == x;
                            if k < i {
                                assert(kept_pre.contains(x));
                                let k2 = choose|k2: int|
                                    0 <= k2 < kept_pre.len() && kept_pre[k2] == x;
                                assert(kept_global@[k2] == x);
                            } else {
                                assert(x == row);
                                assert(kept_global@[last] == x);
                            }
                        }
                    }
                }
            } else {
                proof {
                    assert forall|x: NewUserRole| #[trigger] kept_global@.contains(x) <==> ((
                    exists|k: int| 0 <= k < i + 1 && pre.user_roles@[k] == x) && x.user_id != uid)
                        by {
                        if (exists|k: int| 0 <= k < i + 1 && pre.user_roles@[k] == x) && x.user_id
                            != uid {
                            let k = choose|k: int| 0 <= k < i + 1 && pre.user_roles@[k] == x;
                            assert(k < i);
                        }
                    }
                }
            }
            i += 1;
        }
        self.user_roles = kept_global;
        let ghost mid = *self;
        let mut kept_scoped: Vec<NewUserCompanyRoles> = Vec::new();
        let m = self.user_company_roles.len();
        let mut j: usize = 0;
        while j < m
            invariant
                j <= m,
                m == self.user_company_roles@.len(),
                *self == mid,
                forall|i2: int, j2: int|
                    0 <= i2 < j2 < mid.user_company_roles@.len()
                        ==> #[trigger] mid.user_company_roles@[i2]
                        != #[trigger] mid.user_company_roles@[j2],
                forall|y: NewUserCompanyRoles| #[trigger] kept_scoped@.contains(y) <==> ((exists|
                    k: int,
                |
                    0 <= k < j && mid.user_company_roles@[k] == y) && y.user_id != uid),
                forall|i2: int, j2: int|
                    0 <= i2 < j2 < kept_scoped@.len() ==> #[trigger] kept_scoped@[i2]
                        != #[trigger] kept_scoped@[j2],
            decreases m - j,
        {
            let row = self.user_company_roles[j];
            if row.user_id != uid {
                proof {
                    if kept_scoped@.contains(row) {
                        let k = choose|k: int| 0 <= k < j && mid.user_company_roles@[k] == row;
                        assert(mid.user_company_roles@[k] == mid.user_company_roles@[j as int]);
                        assert(false);
                    }
                }
                let ghost kept_pre = kept_scoped@;
                kept_scoped.push(row);
                proof {
                    let last = kept_pre.len() as int;
                    assert forall|y: NewUserCompanyRoles| #[trigger] kept_scoped@.contains(y) <==>
                        ((exists|k: int| 0 <= k < j + 1 && mid.user_company_roles@[k] == y)
                            && y.user_id != uid) by {
                        if kept_scoped@.contains(y) {
                            let k = choose|k: int|
                                0 <= k < kept_scoped@.len() && kept_scoped@[k] == y;
                            if k < last {
                                assert(kept_pre[k] == y);
                                assert(kept_pre.contains(y));
                            } else {
                                assert(y == row);
                                assert(mid.user_company_roles@[j as int] == y);
                            }
                        }
                        if (exists|k: int| 0 <= k < j + 1 && mid.user_company_roles@[k] == y)
                            && y.user_id != uid {
                            let k = choose|k: int|
                                0 <= k < j + 1 && mid.user_company_roles@[k] == y;
                            if k < j {
                                assert(kept_pre.contains(y));
                                let k2 = choose|k2: int|
                                    0 <= k2 < kept_pre.len() && kept_pre[k2] == y;
                                assert(kept_scoped@[k2] == y);
                            } else {
                                assert(y == row);
                                assert(kept_scoped@[last] == y);
                            }
                        }
                    }
                }
            } else {
                proof {
                    assert forall|y: NewUserCompanyRoles| #[trigger] kept_scoped@.contains(y) <==>
                        ((exists|k: int| 0 <= k < j + 1 && mid.user_company_roles@[k] == y)
                            && y.user_id != uid) by {
                        if (exists|k: int| 0 <= k < j + 1 && mid.user_company_roles@[k] == y)
                            && y.user_id != uid {
                            let k = choose|k: int|
                                0 <= k < j + 1 && mid.user_company_roles@[k] == y;
                            assert(k < j);
                        }
                    }
                }
            }
            j += 1;
        }
        self.user_company_roles = kept_scoped;
        proof {
            assert forall|i2: int|
                0 <= i2 < self.user_roles@.len() implies (#[trigger] self.user_roles@[i2]).user_id
                < self.next_user_id && 1 <= self.user_roles@[i2].role_id <= self.roles@.len() by {
                assert(self.user_roles@.contains(self.user_roles@[i2]));
                let w = choose|w: int|
                    0 <= w < pre.user_roles@.len() && pre.user_roles@[w] == self.user_roles@[i2];
            }
            assert forall|i2: int|
                0 <= i2 < self.user_company_roles@.len() implies {
                &&& (#[trigger] self.user_company_roles@[i2]).user_id < self.next_user_id
                &&& 1 <= self.user_company_roles@[i2].role_id <= self.roles@.len()
                &&& self.company_id_exists(self.user_company_roles@[i2].company_id)
                &&& self.user_roles@.contains(
                    NewUserRole {
                        user_id: self.user_company_roles@[i2].user_id,
                        role_id: self.user_company_roles@[i2].role_id,
                    },
                )
            } by {
                let y = self.user_company_roles@[i2];
                assert(self.user_company_roles@.contains(y));
                let w = choose|w: int|
                    0 <= w < pre.user_company_roles@.len() && pre.user_company_roles@[w] == y;
                assert(pre.company_id_exists(y.company_id));
                let cw = choose|cw: int|
                    0 <= cw < pre.companies@.len() && (#[trigger] pre.companies@[cw]).id
                        == y.company_id;
                assert(self.companies@[cw].id == y.company_id);
                assert(self.company_id_exists(y.company_id));
                assert(pre.user_roles@.contains(
                    NewUserRole { user_id: y.user_id, role_id: y.role_id },
                ));
                assert(self.user_roles@.contains(
                    NewUserRole { user_id: y.user_id, role_id: y.role_id },
                ));
            }
        }
    }

    /// Drop every company-scoped grant row of the company.
    fn purge_company_grants(&mut self, cid: i32)
        requires
            old(self).wf(),
        ensures
            final(self).wf(),
            forall|y: NewUserCompanyRoles| #[trigger] final(self).user_company_roles@.contains(y)
                <==> old(self).user_company_roles@.contains(y) && y.company_id != cid,
            final(self).users == old(self).users,
            final(self).roles == old(self).roles,
            final(self).user_roles == old(self).user_roles,
            final(self).companies == old(self).companies,
            final(self).next_user_id == old(self).next_user_id,
            final(self).next_company_id == old(self).next_company_id,
    {
        let ghost pre = *self;
        let mut kept: Vec<NewUserCompanyRoles> = Vec::new();
        let m = self.user_company_roles.len();
        let mut j: usize = 0;
        while j < m
            invariant
                j <= m,
                m == self.user_company_roles@.len(),
                *self == pre,
                pre.wf(),
                forall|y: NewUserCompanyRoles| #[trigger] kept@.contains(y) <==> ((exists|k: int|
                    0 <= k < j && pre.user_company_roles@[k] == y) && y.company_id != cid),
                forall|i2: int, j2: int|
                    0 <= i2 < j2 < kept@.len() ==> #[trigger] kept@[i2] != #[trigger] kept@[j2],
            decreases m - j,
        {
            let row = self.user_company_roles[j];
            if row.company_id != cid {
                proof {
                    if kept@.contains(row) {
                        let k = choose|k: int| 0 <= k < j && pre.user_company_roles@[k] == row;
                        assert(pre.user_company_roles@[k] == pre.user_company_roles@[j as int]);
                        assert(false);
                    }
                }
                let ghost kept_pre = kept@;
                kept.push(row);
                proof {
                    let last = kept_pre.len() as int;
                    assert forall|y: NewUserCompanyRoles| #[trigger] kept@.contains(y) <==> ((
                    exists|k: int| 0 <= k < j + 1 && pre.user_company_roles@[k] == y)
                        && y.company_id != cid) by {
                        if kept@.contains(y) {
                            let k = choose|k: int| 0 <= k < kept@.len() && kept@[k] == y;
                            if k < last {
                                assert(kept_pre[k] == y);
                                assert(kept_pre.contains(y));
                            } else {
                                assert(y == row);
                                assert(pre.user_company_roles@[j as int] == y);
                            }
                        }
                        if (exists|k: int| 0 <= k < j + 1 && pre.user_company_roles@[k] == y)
                            && y.company_id != cid {
                            let k = choose|k: int|
                                0 <= k < j + 1 && pre.user_company_roles@[k] == y;
                            if k < j {
                                assert(kept_pre.contains(y));
                                let k2 = choose|k2: int|
                                    0 <= k2 < kept_pre.len() && kept_pre[k2] == y;
                                assert(kept@[k2] == y);
                            } else {
                                assert(y == row);
                                assert(kept@[last] == y);
                            }
                        }
                    }
                }
            } else {
                proof {
                    assert forall|y: NewUserCompanyRoles| #[trigger] kept@.contains(y) <==> ((
                    exists|k: int| 0 <= k < j + 1 && pre.user_company_roles@[k] == y)
                        && y.company_id != cid) by {
                        if (exists|k: int| 0 <= k < j + 1 && pre.user_company_roles@[k] == y)
                            && y.company_id != cid {
                            let k = choose|k: int|
                                0 <= k < j + 1 && pre.user_company_roles@[k] == y;
                            assert(k < j);
                        }
                    }
                }
            }
            j += 1;
        }
        self.user_company_roles = kept;
        proof {
            assert forall|i2: int|
                0 <= i2 < self.user_company_roles@.len() implies {
                &&& (#[trigger] self.user_company_roles@[i2]).user_id < self.next_user_id
                &&& 1 <= self.user_company_roles@[i2].role_id <= self.roles@.len()
                &&& self.company_id_exists(self.user_company_roles@[i2].company_id)
                &&& self.user_roles@.contains(
                    NewUserRole {
                        user_id: self.user_company_roles@[i2].user_id,
                        role_id: self.user_company_roles@[i2].role_id,
                    },
                )
            } by {
                let y = self.user_company_roles@[i2];
                assert(self.user_company_roles@.contains(y));
                let w = choose|w: int|
                    0 <= w < pre.user_company_roles@.len() && pre.user_company_roles@[w] == y;
                assert(pre.company_id_exists(y.company_id));
                let cw = choose|cw: int|
                    0 <= cw < pre.companies@.len() && (#[trigger] pre.companies@[cw]).id
                        == y.company_id;
                assert(self.companies@[cw].id == y.company_id);
                assert(self.company_id_exists(y.company_id));
                assert(pre.user_roles@.contains(
                    NewUserRole { user_id: y.user_id, role_id: y.role_id },
                ));
            }
        }
    }

    /// Position of the company row with the identifier, if any.
    fn find_company_index(&self, id: i32) -> (r: Option<usize>)
        ensures
            r matches Some(i) ==> i < self.companies@.len() && self.companies@[i as int].id == id,
            r is None ==> !self.company_id_exists(id),
    {
        let n = self.companies.len();
        let mut i: usize = 0;
        while i < n
            invariant
                i <= n,
                n == self.companies@.len(),
                forall|k: int| 0 <= k < i ==> (#[trigger] self.companies@[k]).id != id,
            decreases n - i,
        {
            if self.companies[i].id == id {
                return Some(i);
            }
            i += 1;
        }
        None
    }

    /// Position of the company row with the name, if any.
    fn find_company_index_by_name(&self, name: &str) -> (r: Option<usize>)
        ensures
            r matches Some(i) ==> i < self.companies@.len() && self.companies@[i as int].name@
                == name@,
            r is None ==> !self.has_company_name(name@),
    {
        let n = self.companies.len();
        let mut i: usize = 0;
        while i < n
            invariant
                i <= n,
                n == self.companies@.len(),
                forall|k: int| 0 <= k < i ==> (#[trigger] self.companies@[k]).name@ != name@,
            decreases n - i,
        {
            if str_eq(self.companies[i].name.as_str(), name) {
                return Some(i);
            }
            i += 1;
        }
        None
    }

    /// A copy of the company row at the position.
    fn clone_company_at(&self, i: usize) -> (r: Company)
        requires
            i < self.companies@.len(),
        ensures
            r == self.companies@[i as int],
    {
        self.companies[i].clone()
    }

    /// Position of the user row with the identifier, if any.
    fn find_user_index(&self, id: i32) -> (r: Option<usize>)
        ensures
            r matches Some(i) ==> i < self.users@.len() && self.users@[i as int].id == id,
            r is None ==> !self.has_user_id(id),
    {
        let n = self.users.len();
        let mut i: usize = 0;
        while i < n
            invariant
                i <= n,
                n == self.users@.len(),
                forall|k: int| 0 <= k < i ==> (#[trigger] self.users@[k]).id != id,
            decreases n - i,
        {
            if self.users[i].id == id {
                return Some(i);
            }
            i += 1;
        }
        None
    }

    /// Position of the user row with the email address, if any.
    pub(crate) fn find_user_index_by_email(&self, email: &str) -> (r: Option<usize>)
        ensures
            r matches Some(i) ==> i < self.users@.len() && self.users@[i as int].email@ == email@,
            r is None ==> !self.has_email(email@),
    {
        let n = self.users.len();
        let mut i: usize = 0;
        while i < n
            invariant
                i <= n,
                n == self.users@.len(),
                forall|k: int| 0 <= k < i ==> (#[trigger] self.users@[k]).email@ != email@,
            decreases n - i,
        {
            if str_eq(self.users[i].email.as_str(), email) {
                return Some(i);
            }
            i += 1;
        }
        None
    }

    /// Position of the user row with the username, if any.
    pub(crate) fn find_user_index_by_username(&self, username: &str) -> (r: Option<usize>)
        ensures
            r matches Some(i) ==> i < self.users@.len() && self.users@[i as int].username@
                == username@,
            r is None ==> !self.has_username(username@),
    {
        let n = self.users.len();
        let mut i: usize = 0;
        while i < n
            invariant
                i <= n,
                n == self.users@.len(),
                forall|k: int| 0 <= k < i ==> (#[trigger] self.users@[k]).username@ != username@,
            decreases n - i,
        {
            if str_eq(self.users[i].username.as_str(), username) {
                return Some(i);
            }
            i += 1;
        }
        None
    }

    /// The user holds the role code globally, as the executable check.
    pub fn holds_global_role(&self, uid: i32, code: RoleCode) -> (r: bool)
        requires
            self.wf(),
        ensures
            r == self.has_global_role(uid, code),
    {
        match self.find_role_by_code(code) {
            None => {
                proof {
                    if self.has_global_role(uid, code) {
                        let rid = choose|rid: i32|
                            #[trigger] self.has_user_role(uid, rid) && self.role_has_code(
                                rid,
                                code,
                            );
                        assert(self.roles@[rid - 1].code == code);
                        assert(self.role_code_exists(code));
                    }
                }
                false
            },
            Some(i) => {
                let rid = self.roles[i].id;
                let held = self.user_role_row_exists(uid, rid);
                proof {
                    if held {
                        assert(self.role_has_code(rid, code));
                        assert(self.has_global_role(uid, code));
                    } else if self.has_global_role(uid, code) {
                        let rid2 = choose|rid2: i32|
                            #[trigger] self.has_user_role(uid, rid2) && self.role_has_code(
                                rid2,
                                code,
                            );
                        if rid2 != rid {
                            assert(self.roles@[rid2 - 1].code == code);
                            assert(self.roles@[rid - 1].code == code);
                            assert(rid2 - 1 != i as int);
                        }
                    }
                }
                held
            },
        }
    }

}

/// Whether the list of role codes carries the code.
fn contains_code(codes: &Vec<RoleCode>, code: RoleCode) -> (r: bool)
    ensures
        r == codes@.contains(code),
{
    let n = codes.len();
    let mut i: usize = 0;
    while i < n
        invariant
            i <= n,
            n == codes@.len(),
            forall|k: int| 0 <= k < i ==> codes@[k] != code,
        decreases n - i,
    {
        if codes[i] == code {
            return true;
        }
        i += 1;
    }
    false
}

/// The sequence `rs` lists exactly the user's global roles: each entry is
/// a stored catalog row the user holds, each listed once, and every code
/// the user holds appears.
pub open spec fn roles_listing_ok(ledger: Ledger, uid: i32, rs: Seq<Role>) -> bool {
    &&& forall|j: int|
        0 <= j < rs.len() ==> 1 <= (#[trigger] rs[j]).id <= ledger.roles@.len()
            && ledger.roles@[rs[j].id - 1] == rs[j] && ledger.has_user_role(uid, rs[j].id)
    &&& forall|j1: int, j2: int| 0 <= j1 < j2 < rs.len() ==> #[trigger] rs[j1].id
        != #[trigger] rs[j2].id
    &&& forall|c: RoleCode| #[trigger] ledger.has_global_role(uid, c) ==> exists|j: int|
        0 <= j < rs.len() && (#[trigger] rs[j]).code == c
}

/// Whether the list of identifiers carries the identifier.
fn contains_id(ids: &Vec<i32>, id: i32) -> (r: bool)
    ensures
        r == ids@.contains(id),
{
    let n = ids.len();
    let mut i: usize = 0;
    while i < n
        invariant
            i <= n,
            n == ids@.len(),
            forall|k: int| 0 <= k < i ==> ids@[k] != id,
        decreases n - i,
    {
        if ids[i] == id {
            return true;
        }
        i += 1;
    }
    false
}

/// The sequence `cs` lists exactly the companies the user belongs to,
/// each once.
pub open spec fn companies_listing_ok(ledger: Ledger, uid: i32, cs: Seq<Company>) -> bool {
    &&& forall|j: int|
        0 <= j < cs.len() ==> ledger.companies@.contains(#[trigger] cs[j]) && ledger.member_of(
            uid,
            cs[j].id,
        )
    &&& forall|cid: i32| #[trigger] ledger.member_of(uid, cid) ==> exists|j: int|
        0 <= j < cs.len() && (#[trigger] cs[j]).id == cid
    &&& forall|j1: int, j2: int| 0 <= j1 < j2 < cs.len() ==> #[trigger] cs[j1].id
        != #[trigger] cs[j2].id
}

/// A company-scoped grant is always backed by the matching global
/// grant: a user holding a role within some company holds the same role
/// globally.
pub proof fn lemma_company_role_implies_global(ledger: Ledger, uid: i32, cid: i32, code: RoleCode)
    requires
        ledger.wf(),
        ledger.has_company_role(uid, cid, code),
    ensures
        ledger.has_global_role(uid, code),
{
    let rid = choose|rid: i32|
        #[trigger] ledger.has_company_grant(uid, cid, rid) && ledger.role_has_code(rid, code);
    let w = choose|w: int|
        0 <= w < ledger.user_company_roles@.len() && ledger.user_company_roles@[w]
            == (NewUserCompanyRoles { user_id: uid, company_id: cid, role_id: rid });
    assert(ledger.user_roles@.contains(NewUserRole { user_id: uid, role_id: rid }));
    assert(ledger.has_user_role(uid, rid));
    assert(ledger.has_global_role(uid, code));
}

/// Operations on the role catalog.
pub struct RoleRepository;

impl RoleRepository {
    /// Look up the catalog row of a code.
    pub fn find_by_code(ledger: &Ledger, code: &RoleCode) -> (r: Option<Role>)
        requires
            ledger.wf(),
        ensures
            r is Some <==> ledger.role_code_exists(*code),
            r matches Some(role) ==> 1 <= role.id <= ledger.roles@.len() && ledger.roles@[role.id
                - 1] == role && role.code == *code,
    {
        match ledger.find_role_by_code(*code) {
            None => None,
            Some(i) => {
                let role = Role {
                    id: ledger.roles[i].id,
                    code: ledger.roles[i].code,
                    name: ledger.roles[i].name.clone(),
                };
                proof {
                    assert(ledger.roles@[i as int].code == *code);
                    assert(ledger.role_code_exists(*code));
                }
                Some(role)
            },
        }
    }

    /// Insert a catalog row for a code not yet stored.
    pub fn create(ledger: &mut Ledger, role: NewRole) -> (r: Role)
        requires
            old(ledger).wf(),
            !old(ledger).role_code_exists(role.code),
        ensures
            final(ledger).wf(),
            r.id == old(ledger).roles@.len() + 1,
            r.code == role.code,
            r.name == role.name,
            final(ledger).roles@ == old(ledger).roles@.push(r),
            final(ledger).role_has_code(r.id, role.code),
            final(ledger).users == old(ledger).users,
            final(ledger).user_roles == old(ledger).user_roles,
            final(ledger).companies == old(ledger).companies,
            final(ledger).user_company_roles == old(ledger).user_company_roles,
            final(ledger).next_user_id == old(ledger).next_user_id,
            final(ledger).next_company_id == old(ledger).next_company_id,
    {
        let name_kept = role.name.clone();
        let code = role.code;
        let rid = ledger.push_role(code, role.name);
        Role { id: rid, code, name: name_kept }
    }

    /// Insert a catalog row for a code not yet stored, named after the
    /// code itself.
    pub fn create_by_code(ledger: &mut Ledger, code: &RoleCode) -> (r: Role)
        requires
            old(ledger).wf(),
            !old(ledger).role_code_exists(*code),
        ensures
            final(ledger).wf(),
            r.id == old(ledger).roles@.len() + 1,
            r.code == *code,
            r.name@ == code.spec_name(),
            final(ledger).roles@ == old(ledger).roles@.push(r),
            final(ledger).role_has_code(r.id, *code),
            final(ledger).users == old(ledger).users,
            final(ledger).user_roles == old(ledger).user_roles,
            final(ledger).companies == old(ledger).companies,
            final(ledger).user_company_roles == old(ledger).user_company_roles,
            final(ledger).next_user_id == old(ledger).next_user_id,
            final(ledger).next_company_id == old(ledger).next_company_id,
    {
        let name = code.name();
        let new_role = NewRole { name, code: *code };
        RoleRepository::create(ledger, new_role)
    }

    /// The stored catalog rows whose identifiers are listed.
    pub fn find_by_ids(ledger: &Ledger, ids: Vec<i32>) -> (r: Vec<Role>)
        requires
            ledger.wf(),
        ensures
            forall|j: int|
                0 <= j < r@.len() ==> ledger.roles@.contains(#[trigger] r@[j]) && ids@.contains(
                    r@[j].id,
                ),
            forall|k: int|
                0 <= k < ledger.roles@.len() && ids@.contains((#[trigger] ledger.roles@[k]).id)
                    ==> r@.contains(ledger.roles@[k]),
    {
        let mut r: Vec<Role> = Vec::new();
        let n = ledger.roles.len();
        let mut i: usize = 0;
        while i < n
            invariant
                i <= n,
                n == ledger.roles@.len(),
                forall|j: int|
                    0 <= j < r@.len() ==> ledger.roles@.contains(#[trigger] r@[j])
                        && ids@.contains(r@[j].id),
                forall|k: int|
                    0 <= k < i && ids@.contains((#[trigger] ledger.roles@[k]).id) ==> r@.contains(
                        ledger.roles@[k],
                    ),
            decreases n - i,
        {
            if contains_id(&ids, ledger.roles[i].id) {
                let ghost r_pre = r@;
                r.push(
                    Role {
                        id: ledger.roles[i].id,
                        code: ledger.roles[i].code,
                        name: ledger.roles[i].name.clone(),
                    },
                );
                proof {
                    let last = r_pre.len() as int;
                    assert(r@[last] == ledger.roles@[i as int]);
                    assert(ledger.roles@.contains(r@[last]));
                    assert forall|k: int|
                        0 <= k < i + 1 && ids@.contains(
                            (#[trigger] ledger.roles@[k]).id,
                        ) implies r@.contains(ledger.roles@[k]) by {
                        if k < i as int {
                            let j = choose|j: int|
                                0 <= j < r_pre.len() && r_pre[j] == ledger.roles@[k];
                            assert(r@[j] == ledger.roles@[k]);
                        } else {
                            assert(r@[last] == ledger.roles@[k]);
                        }
                    }
                }
            } else {
                proof {
                    assert forall|k: int|
                        0 <= k < i + 1 && ids@.contains(
                            (#[trigger] ledger.roles@[k]).id,
                        ) implies r@.contains(ledger.roles@[k]) by {
                        if k == i as int {
                            assert(!ids@.contains(ledger.roles@[k].id));
                        }
                    }
                }
            }
            i += 1;
        }
        r
    }

    /// The user's global roles, read back from the catalog.
    pub fn find_by_user(ledger: &Ledger, user: &User) -> (r: Vec<Role>)
        requires
            ledger.wf(),
        ensures
            roles_listing_ok(*ledger, user.id, r@),
    {
        let uid = user.id;
        let mut r: Vec<Role> = Vec::new();
        let n = ledger.roles.len();
        let mut i: usize = 0;
        while i < n
            invariant
                i <= n,
                n == ledger.roles@.len(),
                ledger.wf(),
                forall|j: int|
                    0 <= j < r@.len() ==> 1 <= (#[trigger] r@[j]).id <= ledger.roles@.len()
                        && ledger.roles@[r@[j].id - 1] == r@[j] && ledger.has_user_role(
                        uid,
                        r@[j].id,
                    ),
                forall|j: int| 0 <= j < r@.len() ==> (#[trigger] r@[j]).id <= i,
                forall|j1: int, j2: int| 0 <= j1 < j2 < r@.len() ==> #[trigger] r@[j1].id
                    != #[trigger] r@[j2].id,
                forall|k: int|
                    0 <= k < i && ledger.has_user_role(uid, (#[trigger] ledger.roles@[k]).id)
                        ==> exists|j: int| 0 <= j < r@.len() && (#[trigger] r@[j]).id
                        == ledger.roles@[k].id,
            decreases n - i,
        {
            let rid = ledger.roles[i].id;
            if ledger.user_role_row_exists(uid, rid) {
                let ghost r_pre = r@;
                r.push(
                    Role {
                        id: rid,
                        code: ledger.roles[i].code,
                        name: ledger.roles[i].name.clone(),
                    },
                );
                proof {
                    let last = r_pre.len() as int;
                    assert(r@[last] == ledger.roles@[i as int]);
                    assert forall|k: int|
                        0 <= k < i + 1 && ledger.has_user_role(
                            uid,
                            (#[trigger] ledger.roles@[k]).id,
                        ) implies exists|j: int| 0 <= j < r@.len() && (#[trigger] r@[j]).id
                        == ledger.roles@[k].id by {
                        if k < i as int {
                            let j = choose|j: int|
                                0 <= j < r_pre.len() && (#[trigger] r_pre[j]).id
                                    == ledger.roles@[k].id;
                            assert(r@[j].id == ledger.roles@[k].id);
                        } else {
                            assert(r@[last].id == ledger.roles@[k].id);
                        }
                    }
                }
            } else {
                proof {
                    assert forall|k: int|
                        0 <= k < i + 1 && ledger.has_user_role(
                            uid,
                            (#[trigger] ledger.roles@[k]).id,
                        ) implies exists|j: int| 0 <= j < r@.len() && (#[trigger] r@[j]).id
                        == ledger.roles@[k].id by {
                        if k == i as int {
                            assert(!ledger.has_user_role(uid, rid));
                        }
                    }
                }
            }
            i += 1;
        }
        proof {
            assert forall|c: RoleCode| #[trigger] ledger.has_global_role(uid, c) implies exists|
                j: int,
            | 0 <= j < r@.len() && (#[trigger] r@[j]).code == c by {
                let rid = choose|rid: i32|
                    #[trigger] ledger.has_user_role(uid, rid) && ledger.role_has_code(rid, c);
                assert(ledger.roles@[rid - 1].id == rid);
                assert(ledger.has_user_role(uid, (ledger.roles@[rid - 1]).id));
                let j = choose|j: int|
                    0 <= j < r@.len() && (#[trigger] r@[j]).id == ledger.roles@[rid - 1].id;
                assert(r@[j] == ledger.roles@[rid - 1]);
            }
        }
        r
    }
}

/// Operations on user rows and their grants.
pub struct UserRepository;

impl UserRepository {
    /// Insert a user with the given signup fields and grant the listed
    /// role codes globally. The email conflict is reported first, then
    /// the username conflict; a fresh user holds exactly the listed
    /// codes and nothing else changes.
    pub fn create(
        ledger: &mut Ledger,
        new_user: NewUser,
        role_codes: Vec<RoleCode>,
        now: u64,
    ) -> (r: Result<User, RepoError>)
        requires
            old(ledger).wf(),
        ensures
            final(ledger).wf(),
            r is Err ==> *final(ledger) == *old(ledger),
            r == Err::<User, RepoError>(RepoError::DuplicateEmail) <==> old(ledger).has_email(
                new_user.email@,
            ),
            r == Err::<User, RepoError>(RepoError::DuplicateUsername) <==> !old(ledger).has_email(
                new_user.email@,
            ) && old(ledger).has_username(new_user.username@),
            r == Err::<User, RepoError>(RepoError::Capacity) <==> !old(ledger).has_email(
                new_user.email@,
            ) && !old(ledger).has_username(new_user.username@) && old(ledger).next_user_id
                == i32::MAX,
            r is Ok <==> !old(ledger).has_email(new_user.email@) && !old(ledger).has_username(
                new_user.username@,
            ) && old(ledger).next_user_id < i32::MAX,
            r matches Ok(u) ==> {
                &&& u.id == old(ledger).next_user_id
                &&& u.username == new_user.username
                &&& u.email == new_user.email
                &&& u.password == new_user.password
                &&& u.first_name is None
                &&& u.last_name is None
                &&& u.country is None
                &&& u.birth_date is None
                &&& u.created_at == now
                &&& u.updated_at == now
                &&& !u.confirmed
                &&& u.user_type == UserType::Regular
                &&& final(ledger).users@ == old(ledger).users@.push(u)
                &&& final(ledger).next_user_id == old(ledger).next_user_id + 1
                &&& final(ledger).companies == old(ledger).companies
                &&& final(ledger).user_company_roles == old(ledger).user_company_roles
                &&& final(ledger).next_company_id == old(ledger).next_company_id
                &&& forall|c: RoleCode| #[trigger] final(ledger).has_global_role(u.id, c) <==>
                    role_codes@.contains(c)
                &&& forall|u2: i32, c: RoleCode|
                    u2 != u.id ==> (#[trigger] final(ledger).has_global_role(u2, c) <==> old(ledger).has_global_role(u2, c))
                &&& forall|u2: i32, cid: i32, c: RoleCode| #[trigger] final(ledger).has_company_role(u2, cid, c) <==> old(ledger).has_company_role(u2, cid, c)
                &&& forall|c: RoleCode| #[trigger] final(ledger).role_code_exists(c) <==> old(ledger).role_code_exists(c) || role_codes@.contains(c)
            },
    {
        if ledger.find_user_index_by_email(new_user.email.as_str()).is_some() {
            proof {
                let i = choose|i: int|
                    0 <= i < ledger.users@.len() && (#[trigger] ledger.users@[i]).email@
                        == new_user.email@;
            }
            return Err(RepoError::DuplicateEmail);
        }
        if ledger.find_user_index_by_username(new_user.username.as_str()).is_some() {
            return Err(RepoError::DuplicateUsername);
        }
        if ledger.next_user_id == i32::MAX {
            return Err(RepoError::Capacity);
        }
        let uid = ledger.next_user_id;
        let user = User {
            id: uid,
            username: new_user.username,
            email: new_user.email,
            password: new_user.password,
            first_name: None,
            last_name: None,
            country: None,
            birth_date: None,
            created_at: now,
            confirmed: false,
            updated_at: now,
            user_type: UserType::Regular,
        };
        let returned = user.clone();
        let ghost pre = *ledger;
        ledger.users.push(user);
        ledger.next_user_id = uid + 1;
        let ghost base = *ledger;
        proof {
            let last = pre.users@.len() as int;
            assert forall|i: int, j: int|
                0 <= i < j < base.users@.len() implies #[trigger] base.users@[i].id
                != #[trigger] base.users@[j].id && base.users@[i].username@
                != base.users@[j].username@ && base.users@[i].email@ != base.users@[j].email@ by {
                if j == last {
                    assert(base.users@[i] == pre.users@[i]);
                    assert(pre.has_user_id(pre.users@[i].id) ==> true);
                    if base.users@[i].email@ == base.users@[j].email@ {
                        assert(pre.has_email(new_user.email@));
                    }
                    if base.users@[i].username@ == base.users@[j].username@ {
                        assert(pre.has_username(new_user.username@));
                    }
                    if base.users@[i].id == base.users@[j].id {
                        assert(pre.users@[i].id < pre.next_user_id);
                    }
                }
            }
            assert(base.wf());
            assert(base.user_roles@ == pre.user_roles@);
            assert(base.roles@ == pre.roles@);
            assert(base.user_company_roles@ == pre.user_company_roles@);
            assert forall|u2: i32, c: RoleCode| #[trigger] base.has_global_role(u2, c) <==> pre
                .has_global_role(u2, c) by {
                if base.has_global_role(u2, c) {
                    let rid = choose|rid: i32|
                        #[trigger] base.has_user_role(u2, rid) && base.role_has_code(rid, c);
                    assert(pre.has_user_role(u2, rid));
                    assert(pre.role_has_code(rid, c));
                    assert(pre.has_global_role(u2, c));
                }
                if pre.has_global_role(u2, c) {
                    let rid = choose|rid: i32|
                        #[trigger] pre.has_user_role(u2, rid) && pre.role_has_code(rid, c);
                    assert(base.has_user_role(u2, rid));
                    assert(base.role_has_code(rid, c));
                    assert(base.has_global_role(u2, c));
                }
            }
            assert forall|u2: i32, cid: i32, c: RoleCode| #[trigger] base.has_company_role(
                u2,
                cid,
                c,
            ) <==> pre.has_company_role(u2, cid, c) by {
                if base.has_company_role(u2, cid, c) {
                    let rid = choose|rid: i32|
                        #[trigger] base.has_company_grant(u2, cid, rid) && base.role_has_code(
                            rid,
                            c,
                        );
                    assert(pre.has_company_grant(u2, cid, rid));
                    assert(pre.role_has_code(rid, c));
                    assert(pre.has_company_role(u2, cid, c));
                }
                if pre.has_company_role(u2, cid, c) {
                    let rid = choose|rid: i32|
                        #[trigger] pre.has_company_grant(u2, cid, rid) && pre.role_has_code(
                            rid,
                            c,
                        );
                    assert(base.has_company_grant(u2, cid, rid));
                    assert(base.role_has_code(rid, c));
                    assert(base.has_company_role(u2, cid, c));
                }
            }
            assert forall|c: RoleCode| #[trigger] base.role_code_exists(c) <==> pre
                .role_code_exists(c) by {}
            assert forall|c: RoleCode| !base.has_global_role(uid, c) by {
                if base.has_global_role(uid, c) {
                    let rid = choose|rid: i32|
                        #[trigger] base.has_user_role(uid, rid) && base.role_has_code(rid, c);
                    let w = choose|w: int|
                        0 <= w < base.user_roles@.len() && base.user_roles@[w] == (NewUserRole {
                            user_id: uid,
                            role_id: rid,
                        });
                    assert(pre.user_roles@[w].user_id < pre.next_user_id);
                }
            }
        }
        let n = role_codes.len();
        let mut ci: usize = 0;
        while ci < n
            invariant
                n == role_codes@.len(),
                ci <= n,
                ledger.wf(),
                uid == pre.next_user_id,
                ledger.users == base.users,
                ledger.companies == base.companies,
                ledger.user_company_roles == base.user_company_roles,
                ledger.next_user_id == base.next_user_id,
                ledger.next_company_id == base.next_company_id,
                uid < ledger.next_user_id,
                forall|c: RoleCode| #[trigger] ledger.has_global_role(uid, c) <==> exists|k: int|
                    0 <= k < ci && role_codes@[k] == c,
                forall|u2: i32, c: RoleCode|
                    u2 != uid ==> (#[trigger] ledger.has_global_role(u2, c)
                        <==> base.has_global_role(u2, c)),
                forall|u2: i32, cid: i32, c: RoleCode| #[trigger] ledger.has_company_role(
                    u2,
                    cid,
                    c,
                ) <==> base.has_company_role(u2, cid, c),
                forall|c: RoleCode| #[trigger] ledger.role_code_exists(c) <==> base
                    .role_code_exists(c) || exists|k: int| 0 <= k < ci && role_codes@[k] == c,
            decreases n - ci,
        {
            let code = role_codes[ci];
            let ghost before = *ledger;
            let rid = ledger.ensure_role(code);
            let ghost mid = *ledger;
            ledger.insert_user_role(uid, rid);
            proof {
                assert forall|c: RoleCode| #[trigger] ledger.has_global_role(uid, c) <==> (exists|
                    k: int,
                |
                    0 <= k < ci + 1 && role_codes@[k] == c) by {
                    if ledger.has_global_role(uid, c) {
                        let rid2 = choose|rid2: i32|
                            #[trigger] ledger.has_user_role(uid, rid2) && ledger.role_has_code(
                                rid2,
                                c,
                            );
                        if rid2 == rid {
                            assert(ledger.role_has_code(rid, code));
                            assert(c == code);
                            assert(role_codes@[ci as int] == c);
                        } else {
                            assert(mid.user_roles@.contains(
                                NewUserRole { user_id: uid, role_id: rid2 },
                            ));
                            assert(mid.has_user_role(uid, rid2));
                            assert(mid.role_has_code(rid2, c));
                            assert(mid.has_global_role(uid, c));
                            assert(before.has_global_role(uid, c));
                            let k = choose|k: int| 0 <= k < ci && role_codes@[k] == c;
                        }
                    }
                    if exists|k: int| 0 <= k < ci + 1 && role_codes@[k] == c {
                        let k = choose|k: int| 0 <= k < ci + 1 && role_codes@[k] == c;
                        if k < ci {
                            assert(before.has_global_role(uid, c));
                            let rid2 = choose|rid2: i32|
                                #[trigger] before.has_user_role(uid, rid2)
                                    && before.role_has_code(rid2, c);
                            assert(mid.has_user_role(uid, rid2));
                            assert(mid.role_has_code(rid2, c));
                            assert(ledger.has_user_role(uid, rid2));
                            assert(ledger.role_has_code(rid2, c));
                            assert(ledger.has_global_role(uid, c));
                        } else {
                            assert(c == code);
                            assert(ledger.has_user_role(uid, rid));
                            assert(ledger.role_has_code(rid, c));
                            assert(ledger.has_global_role(uid, c));
                        }
                    }
                }
                assert forall|u2: i32, c: RoleCode| u2 != uid implies (
                #[trigger] ledger.has_global_role(u2, c) <==> base.has_global_role(u2, c)) by {
                    if ledger.has_global_role(u2, c) {
                        let rid2 = choose|rid2: i32|
                            #[trigger] ledger.has_user_role(u2, rid2) && ledger.role_has_code(
                                rid2,
                                c,
                            );
                        assert(mid.user_roles@.contains(NewUserRole { user_id: u2, role_id: rid2 })
                            || (NewUserRole { user_id: u2, role_id: rid2 }) == (NewUserRole {
                            user_id: uid,
                            role_id: rid,
                        }));
                        assert(mid.has_user_role(u2, rid2));
                        assert(mid.has_global_role(u2, c));
                        assert(before.has_global_role(u2, c));
                    }
                    if base.has_global_role(u2, c) {
                        assert(before.has_global_role(u2, c));
                        let rid2 = choose|rid2: i32|
                            #[trigger] before.has_user_role(u2, rid2) && before.role_has_code(
                                rid2,
                                c,
                            );
                        assert(mid.has_user_role(u2, rid2));
                        assert(mid.role_has_code(rid2, c));
                        assert(ledger.has_user_role(u2, rid2));
                        assert(ledger.has_global_role(u2, c));
                    }
                }
                assert forall|u2: i32, cid: i32, c: RoleCode| #[trigger] ledger.has_company_role(
                    u2,
                    cid,
                    c,
                ) <==> base.has_company_role(u2, cid, c) by {
                    assert(ledger.user_company_roles == mid.user_company_roles);
                    assert(ledger.roles == mid.roles);
                    assert(mid.has_company_role(u2, cid, c) <==> before.has_company_role(
                        u2,
                        cid,
                        c,
                    ));
                    if ledger.has_company_role(u2, cid, c) {
                        let rid2 = choose|rid2: i32|
                            #[trigger] ledger.has_company_grant(u2, cid, rid2)
                                && ledger.role_has_code(rid2, c);
                        assert(mid.has_company_grant(u2, cid, rid2));
                        assert(mid.has_company_role(u2, cid, c));
                    }
                    if mid.has_company_role(u2, cid, c) {
                        let rid2 = choose|rid2: i32|
                            #[trigger] mid.has_company_grant(u2, cid, rid2) && mid.role_has_code(
                                rid2,
                                c,
                            );
                        assert(ledger.has_company_grant(u2, cid, rid2));
                        assert(ledger.has_company_role(u2, cid, c));
                    }
                }
                assert forall|c: RoleCode| #[trigger] ledger.role_code_exists(c) <==> base
                    .role_code_exists(c) || (exists|k: int| 0 <= k < ci + 1 && role_codes@[k] == c)
                    by {
                    assert(ledger.roles@ == mid.roles@);
                    assert(ledger.role_code_exists(c) <==> mid.role_code_exists(c));
                    if ledger.role_code_exists(c) && !base.role_code_exists(c) {
                        assert(before.role_code_exists(c) || c == code);
                        if c == code {
                            assert(role_codes@[ci as int] == c);
                        } else {
                            let k = choose|k: int| 0 <= k < ci && role_codes@[k] == c;
                        }
                    }
                    if exists|k: int| 0 <= k < ci + 1 && role_codes@[k] == c {
                        let k = choose|k: int| 0 <= k < ci + 1 && role_codes@[k] == c;
                        if k < ci {
                            assert(before.role_code_exists(c));
                        } else {
                            assert(c == code);
                            assert(mid.role_code_exists(c));
                        }
                    }
                }
            }
            ci += 1;
        }
        proof {
            assert forall|c: RoleCode| #[trigger] ledger.has_global_role(uid, c) <==> role_codes@
                .contains(c) by {}
            assert forall|c: RoleCode| #[trigger] ledger.role_code_exists(c) <==> pre
                .role_code_exists(c) || role_codes@.contains(c) by {}
        }
        Ok(returned)
    }

    /// Ensure a global grant of every listed code for the user; for an
    /// enterprise user, also ensure the matching company-scoped grant in
    /// every company the user currently belongs to. Re-granting a held
    /// role changes nothing.
    #[verifier::rlimit(100)]
    #[verifier::spinoff_prover]
    #[verifier::loop_isolation(false)]
    pub fn add_roles(ledger: &mut Ledger, user: &User, role_codes: &Vec<RoleCode>)
        requires
            old(ledger).wf(),
            user.id < old(ledger).next_user_id,
        ensures
            final(ledger).wf(),
            forall|c: RoleCode| #[trigger] final(ledger).has_global_role(user.id, c) <==> old(
                ledger,
            ).has_global_role(user.id, c) || role_codes@.contains(c),
            forall|u2: i32, c: RoleCode|
                u2 != user.id ==> (#[trigger] final(ledger).has_global_role(u2, c) <==> old(
                    ledger,
                ).has_global_role(u2, c)),
            user.user_type == UserType::Enterprise ==> forall|cid: i32, c: RoleCode| #[trigger]
                final(ledger).has_company_role(user.id, cid, c) <==> old(
                    ledger,
                ).has_company_role(user.id, cid, c) || (old(ledger).member_of(user.id, cid)
                    && role_codes@.contains(c)),
            user.user_type != UserType::Enterprise ==> forall|u2: i32, cid: i32, c: RoleCode|
                #[trigger] final(ledger).has_company_role(u2, cid, c) <==> old(
                    ledger,
                ).has_company_role(u2, cid, c),
            user.user_type == UserType::Enterprise ==> forall|u2: i32, cid: i32, c: RoleCode|
                u2 != user.id ==> (#[trigger] final(ledger).has_company_role(u2, cid, c) <==> old(
                    ledger,
                ).has_company_role(u2, cid, c)),
            forall|u2: i32, cid: i32| #[trigger] final(ledger).member_of(u2, cid) <==> old(
                ledger,
            ).member_of(u2, cid),
            forall|c: RoleCode| #[trigger] final(ledger).role_code_exists(c) <==> old(
                ledger,
            ).role_code_exists(c) || role_codes@.contains(c),
            final(ledger).users == old(ledger).users,
            final(ledger).companies == old(ledger).companies,
            final(ledger).next_user_id == old(ledger).next_user_id,
            final(ledger).next_company_id == old(ledger).next_company_id,
    {
        let uid = user.id;
        let companies = ledger.companies_of_user(uid);
        let ghost pre = *ledger;
        let enterprise = match user.user_type {
            UserType::Enterprise => true,
            UserType::Regular => false,
        };
        let n = role_codes.len();
        let mut ci: usize = 0;
        while ci < n
            invariant
                n == role_codes@.len(),
                ci <= n,
                ledger.wf(),
                pre.wf(),
                uid == user.id,
                uid < ledger.next_user_id,
                enterprise == (user.user_type == UserType::Enterprise),
                ledger.users == pre.users,
                ledger.companies == pre.companies,
                ledger.next_user_id == pre.next_user_id,
                ledger.next_company_id == pre.next_company_id,
                forall|j: int| 0 <= j < companies@.len() ==> pre.companies@.contains(
                    #[trigger] companies@[j],
                ) && pre.member_of(uid, companies@[j].id),
                forall|cid: i32| #[trigger] pre.member_of(uid, cid) ==> exists|j: int|
                    0 <= j < companies@.len() && (#[trigger] companies@[j]).id == cid,
                forall|c: RoleCode| #[trigger] ledger.has_global_role(uid, c) <==> pre
                    .has_global_role(uid, c) || exists|k: int| 0 <= k < ci && role_codes@[k] == c,
                forall|u2: i32, c: RoleCode|
                    u2 != uid ==> (#[trigger] ledger.has_global_role(u2, c)
                        <==> pre.has_global_role(u2, c)),
                enterprise ==> forall|cid: i32, c: RoleCode| #[trigger] ledger.has_company_role(
                    uid,
                    cid,
                    c,
                ) <==> pre.has_company_role(uid, cid, c) || (pre.member_of(uid, cid) && exists|
                    k: int,
                | 0 <= k < ci && role_codes@[k] == c),
                !enterprise ==> forall|u2: i32, cid: i32, c: RoleCode|
                    #[trigger] ledger.has_company_role(u2, cid, c) <==> pre.has_company_role(
                        u2,
                        cid,
                        c,
                    ),
                enterprise ==> forall|u2: i32, cid: i32, c: RoleCode|
                    u2 != uid ==> (#[trigger] ledger.has_company_role(u2, cid, c) <==> pre
                        .has_company_role(u2, cid, c)),
                forall|u2: i32, cid: i32| #[trigger] ledger.member_of(u2, cid) <==> pre.member_of(
                    u2,
                    cid,
                ),
                forall|c: RoleCode| #[trigger] ledger.role_code_exists(c) <==> pre
                    .role_code_exists(c) || exists|k: int| 0 <= k < ci && role_codes@[k] == c,
            decreases n - ci,
        {
            let code = role_codes[ci];
            let ghost before = *ledger;
            let rid = ledger.ensure_role(code);
            let ghost mid1 = *ledger;
            ledger.insert_user_role(uid, rid);
            let ghost mid2 = *ledger;
            proof {
                assert forall|c: RoleCode| #[trigger] ledger.has_global_role(uid, c) <==> (pre
                    .has_global_role(uid, c) || exists|k: int|
                    0 <= k < ci + 1 && role_codes@[k] == c) by {
                    if ledger.has_global_role(uid, c) {
                        let rid2 = choose|rid2: i32|
                            #[trigger] ledger.has_user_role(uid, rid2) && ledger.role_has_code(
                                rid2,
                                c,
                            );
                        if rid2 == rid {
                            assert(ledger.role_has_code(rid, code));
                            assert(c == code);
                            assert(role_codes@[ci as int] == c);
                        } else {
                            assert(mid1.has_user_role(uid, rid2));
                            assert(mid1.has_global_role(uid, c));
                            assert(before.has_global_role(uid, c));
                        }
                    }
                    if pre.has_global_role(uid, c) || exists|k: int|
                        0 <= k < ci + 1 && role_codes@[k] == c {
                        let prior = before.has_global_role(uid, c);
                        if !prior {
                            let k = choose|k: int| 0 <= k < ci + 1 && role_codes@[k] == c;
                            assert(k == ci as int);
                            assert(c == code);
                            assert(ledger.has_user_role(uid, rid));
                            assert(ledger.role_has_code(rid, c));
                            assert(ledger.has_global_role(uid, c));
                        } else {
                            let rid2 = choose|rid2: i32|
                                #[trigger] before.has_user_role(uid, rid2)
                                    && before.role_has_code(rid2, c);
                            assert(mid1.has_user_role(uid, rid2));
                            assert(mid1.role_has_code(rid2, c));
                            assert(ledger.has_user_role(uid, rid2));
                            assert(ledger.has_global_role(uid, c));
                        }
                    }
                }
                assert forall|u2: i32, c: RoleCode| u2 != uid implies (
                #[trigger] ledger.has_global_role(u2, c) <==> pre.has_global_role(u2, c)) by {
                    if ledger.has_global_role(u2, c) {
                        let rid2 = choose|rid2: i32|
                            #[trigger] ledger.has_user_role(u2, rid2) && ledger.role_has_code(
                                rid2,
                                c,
                            );
                        assert(mid1.has_user_role(u2, rid2));
                        assert(mid1.has_global_role(u2, c));
                        assert(before.has_global_role(u2, c));
                    }
                    if pre.has_global_role(u2, c) {
                        assert(before.has_global_role(u2, c));
                        let rid2 = choose|rid2: i32|
                            #[trigger] before.has_user_role(u2, rid2) && before.role_has_code(
                                rid2,
                                c,
                            );
                        assert(mid1.has_user_role(u2, rid2));
                        assert(mid1.role_has_code(rid2, c));
                        assert(ledger.has_user_role(u2, rid2));
                        assert(ledger.has_global_role(u2, c));
                    }
                }
                assert forall|u2: i32, cid: i32, c: RoleCode| #[trigger] ledger.has_company_role(
                    u2,
                    cid,
                    c,
                ) <==> before.has_company_role(u2, cid, c) by {
                    if ledger.has_company_role(u2, cid, c) {
                        let rid2 = choose|rid2: i32|
                            #[trigger] ledger.has_company_grant(u2, cid, rid2)
                                && ledger.role_has_code(rid2, c);
                        assert(mid1.has_company_grant(u2, cid, rid2));
                        assert(mid1.has_company_role(u2, cid, c));
                    }
                    if before.has_company_role(u2, cid, c) {
                        let rid2 = choose|rid2: i32|
                            #[trigger] before.has_company_grant(u2, cid, rid2)
                                && before.role_has_code(rid2, c);
                        assert(mid1.has_company_grant(u2, cid, rid2));
                        assert(mid1.role_has_code(rid2, c));
                        assert(ledger.has_company_grant(u2, cid, rid2));
                        assert(ledger.has_company_role(u2, cid, c));
                    }
                }
                assert forall|u2: i32, cid: i32| #[trigger] ledger.member_of(u2, cid) <==> before
                    .member_of(u2, cid) by {
                    if ledger.member_of(u2, cid) {
                        let rid2 = choose|rid2: i32| ledger.has_company_grant(u2, cid, rid2);
                        assert(before.has_company_grant(u2, cid, rid2));
                        assert(before.member_of(u2, cid));
                    }
                    if before.member_of(u2, cid) {
                        let rid2 = choose|rid2: i32| before.has_company_grant(u2, cid, rid2);
                        assert(ledger.has_company_grant(u2, cid, rid2));
                        assert(ledger.member_of(u2, cid));
                    }
                }
                assert forall|c: RoleCode| #[trigger] ledger.role_code_exists(c) <==> (pre
                    .role_code_exists(c) || exists|k: int| 0 <= k < ci + 1 && role_codes@[k] == c)
                    by {
                    assert(ledger.roles@ == mid1.roles@);
                    assert(ledger.role_code_exists(c) <==> mid1.role_code_exists(c));
                    if ledger.role_code_exists(c) && !pre.role_code_exists(c) {
                        if c == code {
                            assert(role_codes@[ci as int] == c);
                        } else {
                            assert(before.role_code_exists(c));
                            let k = choose|k: int| 0 <= k < ci && role_codes@[k] == c;
                        }
                    }
                    if exists|k: int| 0 <= k < ci + 1 && role_codes@[k] == c {
                        let k = choose|k: int| 0 <= k < ci + 1 && role_codes@[k] == c;
                        if k < ci {
                            assert(before.role_code_exists(c));
                        } else {
                            assert(c == code);
                            assert(mid1.role_code_exists(c));
                        }
                    }
                }
            }
            if enterprise {
                let m = companies.len();
                let mut j: usize = 0;
                while j < m
                    invariant
                        m == companies@.len(),
                        j <= m,
                        ledger.wf(),
                        pre.wf(),
                        mid2.wf(),
                        uid == user.id,
                        uid < ledger.next_user_id,
                        1 <= rid <= ledger.roles@.len(),
                        ledger.roles == mid2.roles,
                        ledger.role_has_code(rid, code),
                        ledger.has_user_role(uid, rid),
                        ledger.users == pre.users,
                        ledger.companies == pre.companies,
                        ledger.user_roles == mid2.user_roles,
                        ledger.next_user_id == pre.next_user_id,
                        ledger.next_company_id == pre.next_company_id,
                        forall|j2: int| 0 <= j2 < companies@.len() ==> pre.companies@.contains(
                            #[trigger] companies@[j2],
                        ) && pre.member_of(uid, companies@[j2].id),
                        forall|cid: i32| #[trigger] pre.member_of(uid, cid) ==> exists|j2: int|
                            0 <= j2 < companies@.len() && (#[trigger] companies@[j2]).id == cid,
                        forall|cid: i32, c: RoleCode| #[trigger] ledger.has_company_role(
                            uid,
                            cid,
                            c,
                        ) <==> mid2.has_company_role(uid, cid, c) || (ledger.role_has_code(rid, c)
                            && exists|j2: int| 0 <= j2 < j && (#[trigger] companies@[j2]).id
                            == cid),
                        forall|u2: i32, cid: i32, c: RoleCode|
                            u2 != uid ==> (#[trigger] ledger.has_company_role(u2, cid, c) <==> mid2
                                .has_company_role(u2, cid, c)),
                        forall|u2: i32, cid: i32| #[trigger] ledger.member_of(u2, cid) <==> mid2
                            .member_of(u2, cid),
                    decreases m - j,
                {
                    let cid = companies[j].id;
                    proof {
                        assert(pre.companies@.contains(companies@[j as int]));
                        let w = choose|w: int|
                            0 <= w < pre.companies@.len() && pre.companies@[w] == companies@[
                            j as int];
                        assert(ledger.companies@[w].id == cid);
                        assert(ledger.company_id_exists(cid));
                    }
                    let ghost ib = *ledger;
                    ledger.insert_company_grant(uid, cid, rid);
                    proof {
                        let new_row = NewUserCompanyRoles {
                            user_id: uid,
                            company_id: cid,
                            role_id: rid,
                        };
                        assert(ledger.roles@ == ib.roles@);
                        assert forall|cid2: i32, c: RoleCode| #[trigger] ledger.has_company_role(
                            uid,
                            cid2,
                            c,
                        ) <==> mid2.has_company_role(uid, cid2, c) || (ledger.role_has_code(
                            rid,
                            c,
                        ) && exists|j2: int|
                            0 <= j2 < j + 1 && (#[trigger] companies@[j2]).id == cid2) by {
                            if ledger.has_company_role(uid, cid2, c) {
                                let rid2 = choose|rid2: i32|
                                    #[trigger] ledger.has_company_grant(uid, cid2, rid2)
                                        && ledger.role_has_code(rid2, c);
                                if ib.has_company_grant(uid, cid2, rid2) {
                                    assert(ib.role_has_code(rid2, c));
                                    assert(ib.has_company_role(uid, cid2, c));
                                    if !mid2.has_company_role(uid, cid2, c) {
                                        assert(ib.role_has_code(rid, c) && exists|j2: int|
                                            0 <= j2 < j && (#[trigger] companies@[j2]).id == cid2);
                                        assert(ledger.role_has_code(rid, c));
                                    }
                                } else {
                                    assert((NewUserCompanyRoles {
                                        user_id: uid,
                                        company_id: cid2,
                                        role_id: rid2,
                                    }) == new_row);
                                    assert(cid2 == cid && rid2 == rid);
                                    assert(companies@[j as int].id == cid2);
                                }
                            }
                            if mid2.has_company_role(uid, cid2, c) {
                                assert(ib.has_company_role(uid, cid2, c));
                                let rid2 = choose|rid2: i32|
                                    #[trigger] ib.has_company_grant(uid, cid2, rid2)
                                        && ib.role_has_code(rid2, c);
                                assert(ledger.has_company_grant(uid, cid2, rid2));
                                assert(ledger.role_has_code(rid2, c));
                                assert(ledger.has_company_role(uid, cid2, c));
                            }
                            if ledger.role_has_code(rid, c) && exists|j2: int|
                                0 <= j2 < j + 1 && (#[trigger] companies@[j2]).id == cid2 {
                                let j2 = choose|j2: int|
                                    0 <= j2 < j + 1 && (#[trigger] companies@[j2]).id == cid2;
                                if j2 < j {
                                    assert(ib.role_has_code(rid, c));
                                    assert(ib.has_company_role(uid, cid2, c));
                                    let rid2 = choose|rid2: i32|
                                        #[trigger] ib.has_company_grant(uid, cid2, rid2)
                                            && ib.role_has_code(rid2, c);
                                    assert(ledger.has_company_grant(uid, cid2, rid2));
                                    assert(ledger.role_has_code(rid2, c));
                                    assert(ledger.has_company_role(uid, cid2, c));
                                } else {
                                    assert(cid2 == cid);
                                    assert(ledger.has_company_grant(uid, cid, rid));
                                    assert(ledger.has_company_role(uid, cid2, c));
                                }
                            }
                        }
                        assert forall|u2: i32, cid2: i32, c: RoleCode| u2 != uid implies (
                        #[trigger] ledger.has_company_role(u2, cid2, c) <==> mid2.has_company_role(
                            u2,
                            cid2,
                            c,
                        )) by {
                            if ledger.has_company_role(u2, cid2, c) {
                                let rid2 = choose|rid2: i32|
                                    #[trigger] ledger.has_company_grant(u2, cid2, rid2)
                                        && ledger.role_has_code(rid2, c);
                                assert(ib.has_company_grant(u2, cid2, rid2));
                                assert(ib.role_has_code(rid2, c));
                                assert(ib.has_company_role(u2, cid2, c));
                            }
                            if mid2.has_company_role(u2, cid2, c) {
                                assert(ib.has_company_role(u2, cid2, c));
                                let rid2 = choose|rid2: i32|
                                    #[trigger] ib.has_company_grant(u2, cid2, rid2)
                                        && ib.role_has_code(rid2, c);
                                assert(ledger.has_company_grant(u2, cid2, rid2));
                                assert(ledger.role_has_code(rid2, c));
                                assert(ledger.has_company_role(u2, cid2, c));
                            }
                        }
                        assert forall|u2: i32, cid2: i32| #[trigger] ledger.member_of(u2, cid2)
                            <==> mid2.member_of(u2, cid2) by {
                            if ledger.member_of(u2, cid2) {
                                let rid2 = choose|rid2: i32|
                                    ledger.has_company_grant(u2, cid2, rid2);
                                if !ib.has_company_grant(u2, cid2, rid2) {
                                    assert(u2 == uid && cid2 == cid);
                                    assert(pre.member_of(uid, cid));
                                    assert(before.member_of(uid, cid));
                                    assert(mid2.member_of(uid, cid));
                                    assert(ib.member_of(uid, cid));
                                } else {
                                    assert(ib.member_of(u2, cid2));
                                }
                            }
                            if mid2.member_of(u2, cid2) {
                                assert(ib.member_of(u2, cid2));
                                let rid2 = choose|rid2: i32| ib.has_company_grant(u2, cid2, rid2);
                                assert(ledger.has_company_grant(u2, cid2, rid2));
                                assert(ledger.member_of(u2, cid2));
                            }
                        }
                    }
                    j += 1;
                }
                proof {
                    assert(ledger.user_roles@ == mid2.user_roles@);
                    assert(ledger.roles@ == mid2.roles@);
                    assert forall|u2: i32, c: RoleCode| #[trigger] ledger.has_global_role(u2, c)
                        <==> mid2.has_global_role(u2, c) by {
                        if ledger.has_global_role(u2, c) {
                            let rid2 = choose|rid2: i32|
                                #[trigger] ledger.has_user_role(u2, rid2) && ledger.role_has_code(
                                    rid2,
                                    c,
                                );
                            assert(mid2.has_user_role(u2, rid2));
                            assert(mid2.role_has_code(rid2, c));
                            assert(mid2.has_global_role(u2, c));
                        }
                        if mid2.has_global_role(u2, c) {
                            let rid2 = choose|rid2: i32|
                                #[trigger] mid2.has_user_role(u2, rid2) && mid2.role_has_code(
                                    rid2,
                                    c,
                                );
                            assert(ledger.has_user_role(u2, rid2));
                            assert(ledger.role_has_code(rid2, c));
                            assert(ledger.has_global_role(u2, c));
                        }
                    }
                    assert forall|c: RoleCode| #[trigger] ledger.role_code_exists(c) <==> mid2
                        .role_code_exists(c) by {}
                    assert forall|cid: i32, c: RoleCode| #[trigger] ledger.has_company_role(
                        uid,
                        cid,
                        c,
                    ) <==> pre.has_company_role(uid, cid, c) || (pre.member_of(uid, cid) && exists|
                        k: int,
                    | 0 <= k < ci + 1 && role_codes@[k] == c) by {
                        if ledger.has_company_role(uid, cid, c) {
                            if mid2.has_company_role(uid, cid, c) {
                                assert(before.has_company_role(uid, cid, c));
                            } else {
                                assert(ledger.role_has_code(rid, c) && exists|j2: int|
                                    0 <= j2 < companies@.len() && (#[trigger] companies@[j2]).id
                                        == cid);
                                assert(ledger.role_has_code(rid, code));
                                assert(c == code);
                                assert(role_codes@[ci as int] == c);
                                let j2 = choose|j2: int|
                                    0 <= j2 < companies@.len() && (#[trigger] companies@[j2]).id
                                        == cid;
                                assert(pre.member_of(uid, companies@[j2].id));
                            }
                        }
                        if pre.has_company_role(uid, cid, c) {
                            assert(before.has_company_role(uid, cid, c));
                            assert(mid2.has_company_role(uid, cid, c));
                            assert(ledger.has_company_role(uid, cid, c));
                        }
                        if pre.member_of(uid, cid) && exists|k: int|
                            0 <= k < ci + 1 && role_codes@[k] == c {
                            let k = choose|k: int| 0 <= k < ci + 1 && role_codes@[k] == c;
                            if k < ci {
                                assert(before.has_company_role(uid, cid, c));
                                assert(mid2.has_company_role(uid, cid, c));
                                assert(ledger.has_company_role(uid, cid, c));
                            } else {
                                assert(c == code);
                                let j2 = choose|j2: int|
                                    0 <= j2 < companies@.len() && (#[trigger] companies@[j2]).id
                                        == cid;
                                assert(ledger.role_has_code(rid, c));
                                assert(ledger.has_company_role(uid, cid, c));
                            }
                        }
                    }
                }
            }
            ci += 1;
        }
        proof {
            assert forall|c: RoleCode| #[trigger] ledger.has_global_role(uid, c) <==> pre
                .has_global_role(uid, c) || role_codes@.contains(c) by {}
            assert forall|c: RoleCode| #[trigger] ledger.role_code_exists(c) <==> pre
                .role_code_exists(c) || role_codes@.contains(c) by {}
            if enterprise {
                assert forall|cid: i32, c: RoleCode| #[trigger] ledger.has_company_role(
                    uid,
                    cid,
                    c,
                ) <==> pre.has_company_role(uid, cid, c) || (pre.member_of(uid, cid)
                    && role_codes@.contains(c)) by {}
            }
        }
    }

    /// Delete the user's global grant of every role whose code is listed,
    /// together with all of the user's company-scoped grants of those
    /// roles, whatever the user's type is now.
    pub fn remove_roles(ledger: &mut Ledger, user: &User, role_codes: &Vec<RoleCode>)
        requires
            old(ledger).wf(),
        ensures
            final(ledger).wf(),
            forall|c: RoleCode| #[trigger] final(ledger).has_global_role(user.id, c) <==> old(
                ledger,
            ).has_global_role(user.id, c) && !role_codes@.contains(c),
            forall|u2: i32, c: RoleCode|
                u2 != user.id ==> (#[trigger] final(ledger).has_global_role(u2, c) <==> old(
                    ledger,
                ).has_global_role(u2, c)),
            forall|cid: i32, c: RoleCode| #[trigger] final(ledger).has_company_role(
                user.id,
                cid,
                c,
            ) <==> old(ledger).has_company_role(user.id, cid, c) && !role_codes@.contains(c),
            forall|u2: i32, cid: i32, c: RoleCode|
                u2 != user.id ==> (#[trigger] final(ledger).has_company_role(u2, cid, c) <==> old(
                    ledger,
                ).has_company_role(u2, cid, c)),
            final(ledger).users == old(ledger).users,
            final(ledger).roles == old(ledger).roles,
            final(ledger).companies == old(ledger).companies,
            final(ledger).next_user_id == old(ledger).next_user_id,
            final(ledger).next_company_id == old(ledger).next_company_id,
    {
        let uid = user.id;
        let ghost pre = *ledger;
        let n = role_codes.len();
        let mut ci: usize = 0;
        while ci < n
            invariant
                n == role_codes@.len(),
                ci <= n,
                ledger.wf(),
                pre.wf(),
                uid == user.id,
                ledger.users == pre.users,
                ledger.roles == pre.roles,
                ledger.companies == pre.companies,
                ledger.next_user_id == pre.next_user_id,
                ledger.next_company_id == pre.next_company_id,
                forall|c: RoleCode| #[trigger] ledger.has_global_role(uid, c) <==> pre
                    .has_global_role(uid, c) && !(exists|k: int|
                    0 <= k < ci && role_codes@[k] == c),
                forall|u2: i32, c: RoleCode|
                    u2 != uid ==> (#[trigger] ledger.has_global_role(u2, c)
                        <==> pre.has_global_role(u2, c)),
                forall|cid: i32, c: RoleCode| #[trigger] ledger.has_company_role(uid, cid, c) <==>
                    pre.has_company_role(uid, cid, c) && !(exists|k: int|
                    0 <= k < ci && role_codes@[k] == c),
                forall|u2: i32, cid: i32, c: RoleCode|
                    u2 != uid ==> (#[trigger] ledger.has_company_role(u2, cid, c) <==> pre
                        .has_company_role(u2, cid, c)),
            decreases n - ci,
        {
            let code = role_codes[ci];
            let ghost before = *ledger;
            match ledger.find_role_by_code(code) {
                None => {
                    proof {
                        assert forall|c: RoleCode| #[trigger] ledger.has_global_role(uid, c) <==>
                            pre.has_global_role(uid, c) && !(exists|k: int|
                            0 <= k < ci + 1 && role_codes@[k] == c) by {
                            if pre.has_global_role(uid, c) && !(exists|k: int|
                                0 <= k < ci + 1 && role_codes@[k] == c) {
                                assert(!(exists|k: int| 0 <= k < ci && role_codes@[k] == c));
                            }
                            if ledger.has_global_role(uid, c) {
                                let rid2 = choose|rid2: i32|
                                    #[trigger] ledger.has_user_role(uid, rid2)
                                        && ledger.role_has_code(rid2, c);
                                assert(ledger.roles@[rid2 - 1].code == c);
                                assert(c != code);
                                assert forall|k: int|
                                    0 <= k < ci + 1 implies !(role_codes@[k] == c && k == ci as int)
                                    by {}
                                if exists|k: int| 0 <= k < ci + 1 && role_codes@[k] == c {
                                    let k = choose|k: int|
                                        0 <= k < ci + 1 && role_codes@[k] == c;
                                    assert(k < ci);
                                }
                            }
                        }
                        assert forall|cid: i32, c: RoleCode| #[trigger] ledger.has_company_role(
                            uid,
                            cid,
                            c,
                        ) <==> pre.has_company_role(uid, cid, c) && !(exists|k: int|
                            0 <= k < ci + 1 && role_codes@[k] == c) by {
                            if ledger.has_company_role(uid, cid, c) {
                                let rid2 = choose|rid2: i32|
                                    #[trigger] ledger.has_company_grant(uid, cid, rid2)
                                        && ledger.role_has_code(rid2, c);
                                assert(ledger.roles@[rid2 - 1].code == c);
                                assert(c != code);
                                if exists|k: int| 0 <= k < ci + 1 && role_codes@[k] == c {
                                    let k = choose|k: int|
                                        0 <= k < ci + 1 && role_codes@[k] == c;
                                    assert(k < ci);
                                }
                            }
                            if pre.has_company_role(uid, cid, c) && !(exists|k: int|
                                0 <= k < ci + 1 && role_codes@[k] == c) {
                                assert(!(exists|k: int| 0 <= k < ci && role_codes@[k] == c));
                            }
                        }
                    }
                },
                Some(i) => {
                    let rid = ledger.roles[i].id;
                    ledger.remove_role_rows(uid, rid);
                    proof {
                        assert(before.role_has_code(rid, code));
                        assert forall|c: RoleCode| #[trigger] ledger.has_global_role(uid, c) <==>
                            pre.has_global_role(uid, c) && !(exists|k: int|
                            0 <= k < ci + 1 && role_codes@[k] == c) by {
                            if ledger.has_global_role(uid, c) {
                                let rid2 = choose|rid2: i32|
                                    #[trigger] ledger.has_user_role(uid, rid2)
                                        && ledger.role_has_code(rid2, c);
                                assert(before.has_user_role(uid, rid2));
                                assert(rid2 != rid);
                                assert(before.has_global_role(uid, c));
                                assert(c != code || rid2 == rid) by {
                                    if c == code {
                                        assert(ledger.roles@[rid2 - 1].code == c);
                                        assert(ledger.roles@[rid - 1].code == code);
                                        if rid2 != rid {
                                            assert(rid2 - 1 != rid - 1);
                                        }
                                    }
                                }
                                if exists|k: int| 0 <= k < ci + 1 && role_codes@[k] == c {
                                    let k = choose|k: int|
                                        0 <= k < ci + 1 && role_codes@[k] == c;
                                    assert(k < ci);
                                }
                            }
                            if pre.has_global_role(uid, c) && !(exists|k: int|
                                0 <= k < ci + 1 && role_codes@[k] == c) {
                                assert(!(exists|k: int| 0 <= k < ci && role_codes@[k] == c));
                                assert(before.has_global_role(uid, c));
                                let rid2 = choose|rid2: i32|
                                    #[trigger] before.has_user_role(uid, rid2)
                                        && before.role_has_code(rid2, c);
                                assert(c != code);
                                assert(rid2 != rid) by {
                                    if rid2 == rid {
                                        assert(before.roles@[rid - 1].code == c);
                                        assert(before.roles@[rid - 1].code == code);
                                    }
                                }
                                assert(ledger.has_user_role(uid, rid2));
                                assert(ledger.role_has_code(rid2, c));
                                assert(ledger.has_global_role(uid, c));
                            }
                        }
                        assert forall|u2: i32, c: RoleCode| u2 != uid implies (
                        #[trigger] ledger.has_global_role(u2, c) <==> pre.has_global_role(
                            u2,
                            c,
                        )) by {
                            if ledger.has_global_role(u2, c) {
                                let rid2 = choose|rid2: i32|
                                    #[trigger] ledger.has_user_role(u2, rid2)
                                        && ledger.role_has_code(rid2, c);
                                assert(before.has_user_role(u2, rid2));
                                assert(before.has_global_role(u2, c));
                            }
                            if pre.has_global_role(u2, c) {
                                assert(before.has_global_role(u2, c));
                                let rid2 = choose|rid2: i32|
                                    #[trigger] before.has_user_role(u2, rid2)
                                        && before.role_has_code(rid2, c);
                                assert(ledger.has_user_role(u2, rid2));
                                assert(ledger.has_global_role(u2, c));
                            }
                        }
                        assert forall|cid: i32, c: RoleCode| #[trigger] ledger.has_company_role(
                            uid,
                            cid,
                            c,
                        ) <==> pre.has_company_role(uid, cid, c) && !(exists|k: int|
                            0 <= k < ci + 1 && role_codes@[k] == c) by {
                            if ledger.has_company_role(uid, cid, c) {
                                let rid2 = choose|rid2: i32|
                                    #[trigger] ledger.has_company_grant(uid, cid, rid2)
                                        && ledger.role_has_code(rid2, c);
                                assert(before.has_company_grant(uid, cid, rid2));
                                assert(rid2 != rid);
                                assert(before.has_company_role(uid, cid, c));
                                assert(c != code) by {
                                    if c == code {
                                        assert(ledger.roles@[rid2 - 1].code == c);
                                        assert(ledger.roles@[rid - 1].code == code);
                                        assert(rid2 - 1 != rid - 1);
                                    }
                                }
                                if exists|k: int| 0 <= k < ci + 1 && role_codes@[k] == c {
                                    let k = choose|k: int|
                                        0 <= k < ci + 1 && role_codes@[k] == c;
                                    assert(k < ci);
                                }
                            }
                            if pre.has_company_role(uid, cid, c) && !(exists|k: int|
                                0 <= k < ci + 1 && role_codes@[k] == c) {
                                assert(!(exists|k: int| 0 <= k < ci && role_codes@[k] == c));
                                assert(before.has_company_role(uid, cid, c));
                                let rid2 = choose|rid2: i32|
                                    #[trigger] before.has_company_grant(uid, cid, rid2)
                                        && before.role_has_code(rid2, c);
                                assert(c != code);
                                assert(rid2 != rid) by {
                                    if rid2 == rid {
                                        assert(before.roles@[rid - 1].code == c);
                                    }
                                }
                                assert(ledger.has_company_grant(uid, cid, rid2));
                                assert(ledger.has_company_role(uid, cid, c));
                            }
                        }
                        assert forall|u2: i32, cid: i32, c: RoleCode| u2 != uid implies (
                        #[trigger] ledger.has_company_role(u2, cid, c) <==> pre.has_company_role(
                            u2,
                            cid,
                            c,
                        )) by {
                            if ledger.has_company_role(u2, cid, c) {
                                let rid2 = choose|rid2: i32|
                                    #[trigger] ledger.has_company_grant(u2, cid, rid2)
                                        && ledger.role_has_code(rid2, c);
                                assert(before.has_company_grant(u2, cid, rid2));
                                assert(before.has_company_role(u2, cid, c));
                            }
                            if pre.has_company_role(u2, cid, c) {
                                assert(before.has_company_role(u2, cid, c));
                                let rid2 = choose|rid2: i32|
                                    #[trigger] before.has_company_grant(u2, cid, rid2)
                                        && before.role_has_code(rid2, c);
                                assert(ledger.has_company_grant(u2, cid, rid2));
                                assert(ledger.has_company_role(u2, cid, c));
                            }
                        }
                    }
                },
            }
            ci += 1;
        }
        proof {
            assert forall|c: RoleCode| #[trigger] ledger.has_global_role(uid, c) <==> pre
                .has_global_role(uid, c) && !role_codes@.contains(c) by {}
            assert forall|cid: i32, c: RoleCode| #[trigger] ledger.has_company_role(uid, cid, c)
                <==> pre.has_company_role(uid, cid, c) && !role_codes@.contains(c) by {}
        }
    }

    /// Read the user id a temporary token stands for, without consuming
    /// the token; a token of the wrong length is rejected before any
    /// lookup.
    pub fn find_id_by_temporary_token(
        token: &str,
        purpose: crate::sessions::TokenPurpose,
        cache: &crate::sessions::TokenCache,
        now: u64,
    ) -> (r: Result<i32, crate::errors::AuthError>)
        requires
            cache.wf(),
        ensures
            r == crate::sessions::redemption_of(*cache, purpose, token@, now),
    {
        crate::sessions::find_id_by_temporary_token(token, purpose, cache, now)
    }

    /// Look up a user by identifier.
    pub fn find(ledger: &Ledger, id: i32) -> (r: Result<User, RepoError>)
        requires
            ledger.wf(),
        ensures
            r is Ok <==> ledger.has_user_id(id),
            r matches Ok(u) ==> u == ledger.user_by_id(id),
            r matches Err(e) ==> e == RepoError::NoSuchUser,
    {
        match ledger.find_user_index(id) {
            None => Err(RepoError::NoSuchUser),
            Some(i) => {
                proof {
                    ledger.lemma_user_index(i as int);
                }
                Ok(ledger.clone_user_at(i))
            },
        }
    }

    /// Look up a user by email address.
    pub fn find_by_email(ledger: &Ledger, email: &str) -> (r: Result<User, RepoError>)
        requires
            ledger.wf(),
        ensures
            r is Ok <==> ledger.has_email(email@),
            r matches Ok(u) ==> u == ledger.user_by_email(email@),
            r matches Err(e) ==> e == RepoError::NoSuchUser,
    {
        match ledger.find_user_index_by_email(email) {
            None => Err(RepoError::NoSuchUser),
            Some(i) => {
                proof {
                    ledger.lemma_user_index(i as int);
                }
                Ok(ledger.clone_user_at(i))
            },
        }
    }

    /// Store a new password hash for the user, refreshing the update
    /// instant.
    pub fn update_password(ledger: &mut Ledger, id: i32, password: &str, now: u64) -> (r: Result<
        User,
        RepoError,
    >)
        requires
            old(ledger).wf(),
        ensures
            final(ledger).wf(),
            r is Ok <==> old(ledger).has_user_id(id),
            r is Err ==> *final(ledger) == *old(ledger) && r == Err::<User, RepoError>(
                RepoError::NoSuchUser,
            ),
            r matches Ok(u) ==> ({
                let prev = old(ledger).user_by_id(id);
                &&& u.password@ == password@
                &&& u.updated_at == now
                &&& u.id == prev.id
                &&& u.username == prev.username
                &&& u.email == prev.email
                &&& u.first_name == prev.first_name
                &&& u.last_name == prev.last_name
                &&& u.country == prev.country
                &&& u.birth_date == prev.birth_date
                &&& u.created_at == prev.created_at
                &&& u.confirmed == prev.confirmed
                &&& u.user_type == prev.user_type
                &&& final(ledger).users@ == old(ledger).users@.update(
                    old(ledger).user_index_of(id),
                    u,
                )
                &&& final(ledger).roles == old(ledger).roles
                &&& final(ledger).user_roles == old(ledger).user_roles
                &&& final(ledger).companies == old(ledger).companies
                &&& final(ledger).user_company_roles == old(ledger).user_company_roles
                &&& final(ledger).next_user_id == old(ledger).next_user_id
                &&& final(ledger).next_company_id == old(ledger).next_company_id
            }),
    {
        match ledger.find_user_index(id) {
            None => Err(RepoError::NoSuchUser),
            Some(i) => {
                proof {
                    ledger.lemma_user_index(i as int);
                }
                let prev = ledger.clone_user_at(i);
                let updated = User { password: password.to_owned(), updated_at: now, ..prev };
                let ret = updated.clone();
                ledger.replace_user_row(i, updated);
                Ok(ret)
            },
        }
    }

    /// Mark the user's registration as confirmed; confirming an already
    /// confirmed user is a no-op.
    pub fn confirm_signup(ledger: &mut Ledger, id: i32, now: u64) -> (r: Result<User, RepoError>)
        requires
            old(ledger).wf(),
        ensures
            final(ledger).wf(),
            r is Ok <==> old(ledger).has_user_id(id),
            r is Err ==> *final(ledger) == *old(ledger) && r == Err::<User, RepoError>(
                RepoError::NoSuchUser,
            ),
            r matches Ok(u) ==> ({
                let prev = old(ledger).user_by_id(id);
                &&& u.confirmed
                &&& u.updated_at == now
                &&& u.id == prev.id
                &&& u.username == prev.username
                &&& u.email == prev.email
                &&& u.password == prev.password
                &&& u.first_name == prev.first_name
                &&& u.last_name == prev.last_name
                &&& u.country == prev.country
                &&& u.birth_date == prev.birth_date
                &&& u.created_at == prev.created_at
                &&& u.user_type == prev.user_type
                &&& final(ledger).users@ == old(ledger).users@.update(
                    old(ledger).user_index_of(id),
                    u,
                )
                &&& final(ledger).roles == old(ledger).roles
                &&& final(ledger).user_roles == old(ledger).user_roles
                &&& final(ledger).companies == old(ledger).companies
                &&& final(ledger).user_company_roles == old(ledger).user_company_roles
                &&& final(ledger).next_user_id == old(ledger).next_user_id
                &&& final(ledger).next_company_id == old(ledger).next_company_id
            }),
    {
        match ledger.find_user_index(id) {
            None => Err(RepoError::NoSuchUser),
            Some(i) => {
                proof {
                    ledger.lemma_user_index(i as int);
                }
                let prev = ledger.clone_user_at(i);
                let updated = User { confirmed: true, updated_at: now, ..prev };
                let ret = updated.clone();
                ledger.replace_user_row(i, updated);
                Ok(ret)
            },
        }
    }

    /// Replace the user's profile fields with the given set, clearing any
    /// field given as empty.
    pub fn update_user(ledger: &mut Ledger, id: i32, user_info: UpdatedUserInfo, now: u64) -> (r:
        Result<User, RepoError>)
        requires
            old(ledger).wf(),
        ensures
            final(ledger).wf(),
            r is Ok <==> old(ledger).has_user_id(id),
            r is Err ==> *final(ledger) == *old(ledger) && r == Err::<User, RepoError>(
                RepoError::NoSuchUser,
            ),
            r matches Ok(u) ==> ({
                let prev = old(ledger).user_by_id(id);
                &&& u.first_name == user_info.first_name
                &&& u.last_name == user_info.last_name
                &&& u.country == user_info.country
                &&& u.birth_date == user_info.birth_date
                &&& u.updated_at == now
                &&& u.id == prev.id
                &&& u.username == prev.username
                &&& u.email == prev.email
                &&& u.password == prev.password
                &&& u.created_at == prev.created_at
                &&& u.confirmed == prev.confirmed
                &&& u.user_type == prev.user_type
                &&& final(ledger).users@ == old(ledger).users@.update(
                    old(ledger).user_index_of(id),
                    u,
                )
                &&& final(ledger).roles == old(ledger).roles
                &&& final(ledger).user_roles == old(ledger).user_roles
                &&& final(ledger).companies == old(ledger).companies
                &&& final(ledger).user_company_roles == old(ledger).user_company_roles
                &&& final(ledger).next_user_id == old(ledger).next_user_id
                &&& final(ledger).next_company_id == old(ledger).next_company_id
            }),
    {
        match ledger.find_user_index(id) {
            None => Err(RepoError::NoSuchUser),
            Some(i) => {
                proof {
                    ledger.lemma_user_index(i as int);
                }
                let prev = ledger.clone_user_at(i);
                let updated = User {
                    first_name: user_info.first_name,
                    last_name: user_info.last_name,
                    country: user_info.country,
                    birth_date: user_info.birth_date,
                    updated_at: now,
                    ..prev
                };
                let ret = updated.clone();
                ledger.replace_user_row(i, updated);
                Ok(ret)
            },
        }
    }

    /// Set the user's type, gating or permitting future company-scoped
    /// grants; existing grants stay as they are.
    pub fn set_user_type(ledger: &mut Ledger, id: i32, user_type: &UserType, now: u64) -> (r:
        Result<User, RepoError>)
        requires
            old(ledger).wf(),
        ensures
            final(ledger).wf(),
            r is Ok <==> old(ledger).has_user_id(id),
            r is Err ==> *final(ledger) == *old(ledger) && r == Err::<User, RepoError>(
                RepoError::NoSuchUser,
            ),
            r matches Ok(u) ==> ({
                let prev = old(ledger).user_by_id(id);
                &&& u.user_type == *user_type
                &&& u.updated_at == now
                &&& u.id == prev.id
                &&& u.username == prev.username
                &&& u.email == prev.email
                &&& u.password == prev.password
                &&& u.first_name == prev.first_name
                &&& u.last_name == prev.last_name
                &&& u.country == prev.country
                &&& u.birth_date == prev.birth_date
                &&& u.created_at == prev.created_at
                &&& u.confirmed == prev.confirmed
                &&& final(ledger).users@ == old(ledger).users@.update(
                    old(ledger).user_index_of(id),
                    u,
                )
                &&& final(ledger).roles == old(ledger).roles
                &&& final(ledger).user_roles == old(ledger).user_roles
                &&& final(ledger).companies == old(ledger).companies
                &&& final(ledger).user_company_roles == old(ledger).user_company_roles
                &&& final(ledger).next_user_id == old(ledger).next_user_id
                &&& final(ledger).next_company_id == old(ledger).next_company_id
            }),
    {
        match ledger.find_user_index(id) {
            None => Err(RepoError::NoSuchUser),
            Some(i) => {
                proof {
                    ledger.lemma_user_index(i as int);
                }
                let prev = ledger.clone_user_at(i);
                let updated = User { user_type: *user_type, updated_at: now, ..prev };
                let ret = updated.clone();
                ledger.replace_user_row(i, updated);
                Ok(ret)
            },
        }
    }

    /// Delete the user row and every grant of the user, returning the
    /// number of user rows removed.
    pub fn delete(ledger: &mut Ledger, id: i32) -> (r: usize)
        requires
            old(ledger).wf(),
        ensures
            final(ledger).wf(),
            r == (if old(ledger).has_user_id(id) {
                1usize
            } else {
                0usize
            }),
            old(ledger).has_user_id(id) ==> final(ledger).users@ == old(ledger).users@.remove(
                old(ledger).user_index_of(id),
            ),
            !old(ledger).has_user_id(id) ==> final(ledger).users == old(ledger).users,
            forall|x: NewUserRole| #[trigger] final(ledger).user_roles@.contains(x) <==> old(
                ledger,
            ).user_roles@.contains(x) && x.user_id != id,
            forall|y: NewUserCompanyRoles| #[trigger] final(ledger).user_company_roles@.contains(
                y,
            ) <==> old(ledger).user_company_roles@.contains(y) && y.user_id != id,
            final(ledger).roles == old(ledger).roles,
            final(ledger).companies == old(ledger).companies,
            final(ledger).next_user_id == old(ledger).next_user_id,
            final(ledger).next_company_id == old(ledger).next_company_id,
    {
        ledger.purge_user_grants(id);
        match ledger.find_user_index(id) {
            None => 0,
            Some(i) => {
                proof {
                    ledger.lemma_user_index(i as int);
                    old(ledger).lemma_user_index(i as int);
                }
                let ghost pre = *ledger;
                ledger.users.remove(i);
                proof {
                    assert forall|i2: int, j2: int|
                        0 <= i2 < j2 < ledger.users@.len() implies #[trigger] ledger.users@[i2].id
                        != #[trigger] ledger.users@[j2].id && ledger.users@[i2].username@
                        != ledger.users@[j2].username@ && ledger.users@[i2].email@
                        != ledger.users@[j2].email@ by {
                        let oi = if i2 < i as int { i2 } else { i2 + 1 };
                        let oj = if j2 < i as int { j2 } else { j2 + 1 };
                        assert(ledger.users@[i2] == pre.users@[oi]);
                        assert(ledger.users@[j2] == pre.users@[oj]);
                    }
                    assert forall|i2: int|
                        0 <= i2 < ledger.users@.len() implies (#[trigger] ledger.users@[i2]).id
                        < ledger.next_user_id by {
                        let oi = if i2 < i as int { i2 } else { i2 + 1 };
                        assert(ledger.users@[i2] == pre.users@[oi]);
                    }
                }
                1
            },
        }
    }

    /// The companies the user belongs to.
    pub fn find_companies(ledger: &Ledger, user_id: i32) -> (r: Vec<Company>)
        requires
            ledger.wf(),
        ensures
            forall|j: int| 0 <= j < r@.len() ==> ledger.companies@.contains(#[trigger] r@[j])
                && ledger.member_of(user_id, r@[j].id),
            forall|cid: i32| #[trigger] ledger.member_of(user_id, cid) ==> exists|j: int|
                0 <= j < r@.len() && (#[trigger] r@[j]).id == cid,
            forall|j1: int, j2: int| 0 <= j1 < j2 < r@.len() ==> #[trigger] r@[j1].id
                != #[trigger] r@[j2].id,
    {
        ledger.companies_of_user(user_id)
    }

    /// Every user row, each with the user's global roles.
    pub fn find_with_roles(ledger: &Ledger) -> (r: Vec<(User, Vec<Role>)>)
        requires
            ledger.wf(),
        ensures
            r@.len() == ledger.users@.len(),
            forall|i: int| 0 <= i < r@.len() ==> (#[trigger] r@[i]).0 == ledger.users@[i],
            forall|i: int|
                0 <= i < r@.len() ==> roles_listing_ok(
                    *ledger,
                    ledger.users@[i].id,
                    (#[trigger] r@[i]).1@,
                ),
    {
        let mut r: Vec<(User, Vec<Role>)> = Vec::new();
        let n = ledger.users.len();
        let mut i: usize = 0;
        while i < n
            invariant
                i <= n,
                n == ledger.users@.len(),
                ledger.wf(),
                r@.len() == i,
                forall|k: int| 0 <= k < i ==> (#[trigger] r@[k]).0 == ledger.users@[k],
                forall|k: int|
                    0 <= k < i ==> roles_listing_ok(
                        *ledger,
                        ledger.users@[k].id,
                        (#[trigger] r@[k]).1@,
                    ),
            decreases n - i,
        {
            let user = ledger.clone_user_at(i);
            let roles = RoleRepository::find_by_user(ledger, &user);
            r.push((user, roles));
            i += 1;
        }
        r
    }
}

/// Operations on tenant rows and their per-company grants.
pub struct CompanyRepository;

impl CompanyRepository {
    /// Insert a company with the given fields; the name must not be
    /// taken.
    pub fn create(ledger: &mut Ledger, new_company: NewCompany, now: u64) -> (r: Result<
        Company,
        RepoError,
    >)
        requires
            old(ledger).wf(),
        ensures
            final(ledger).wf(),
            r is Err ==> *final(ledger) == *old(ledger),
            r == Err::<Company, RepoError>(RepoError::DuplicateCompanyName) <==> old(
                ledger,
            ).has_company_name(new_company.name@),
            r == Err::<Company, RepoError>(RepoError::Capacity) <==> !old(
                ledger,
            ).has_company_name(new_company.name@) && old(ledger).next_company_id == i32::MAX,
            r is Ok <==> !old(ledger).has_company_name(new_company.name@) && old(
                ledger,
            ).next_company_id < i32::MAX,
            r matches Ok(co) ==> {
                &&& co.id == old(ledger).next_company_id
                &&& co.name == new_company.name
                &&& co.email == new_company.email
                &&& co.website == new_company.website
                &&& co.address == new_company.address
                &&& co.created_at == now
                &&& co.updated_at == now
                &&& final(ledger).companies@ == old(ledger).companies@.push(co)
                &&& final(ledger).next_company_id == old(ledger).next_company_id + 1
                &&& final(ledger).users == old(ledger).users
                &&& final(ledger).roles == old(ledger).roles
                &&& final(ledger).user_roles == old(ledger).user_roles
                &&& final(ledger).user_company_roles == old(ledger).user_company_roles
                &&& final(ledger).next_user_id == old(ledger).next_user_id
            },
    {
        if ledger.find_company_index_by_name(new_company.name.as_str()).is_some() {
            return Err(RepoError::DuplicateCompanyName);
        }
        if ledger.next_company_id == i32::MAX {
            return Err(RepoError::Capacity);
        }
        let cid = ledger.next_company_id;
        let company = Company {
            id: cid,
            name: new_company.name,
            email: new_company.email,
            website: new_company.website,
            address: new_company.address,
            created_at: now,
            updated_at: now,
        };
        let returned = company.clone();
        let ghost pre = *ledger;
        ledger.companies.push(company);
        ledger.next_company_id = cid + 1;
        proof {
            let last = pre.companies@.len() as int;
            assert forall|i: int, j: int|
                0 <= i < j < ledger.companies@.len() implies #[trigger] ledger.companies@[i].id
                != #[trigger] ledger.companies@[j].id && ledger.companies@[i].name@
                != ledger.companies@[j].name@ by {
                if j == last {
                    assert(ledger.companies@[i] == pre.companies@[i]);
                    if ledger.companies@[i].name@ == ledger.companies@[j].name@ {
                        assert(pre.has_company_name(new_company.name@));
                    }
                }
            }
            assert forall|i: int|
                0 <= i < ledger.user_company_roles@.len() implies ledger.company_id_exists(
                (#[trigger] ledger.user_company_roles@[i]).company_id) by {
                assert(pre.company_id_exists(pre.user_company_roles@[i].company_id));
                let cw = choose|cw: int|
                    0 <= cw < pre.companies@.len() && (#[trigger] pre.companies@[cw]).id
                        == pre.user_company_roles@[i].company_id;
                assert(ledger.companies@[cw].id == ledger.user_company_roles@[i].company_id);
            }
        }
        Ok(returned)
    }

    /// Look up a company by name.
    pub fn find_by_name(ledger: &Ledger, name: &str) -> (r: Result<Company, RepoError>)
        requires
            ledger.wf(),
        ensures
            r is Ok <==> ledger.has_company_name(name@),
            r matches Ok(co) ==> ledger.companies@.contains(co) && co.name@ == name@ && co
                == ledger.company_by_name(name@) && ledger.company_id_exists(co.id),
            r matches Err(e) ==> e == RepoError::NoSuchCompany,
    {
        match ledger.find_company_index_by_name(name) {
            None => Err(RepoError::NoSuchCompany),
            Some(i) => {
                let co = ledger.clone_company_at(i);
                proof {
                    assert(ledger.companies@[i as int].name@ == name@);
                    ledger.lemma_company_index(i as int);
                    assert(ledger.companies@.contains(co));
                }
                Ok(co)
            },
        }
    }

    /// Every company row.
    pub fn list(ledger: &Ledger) -> (r: Vec<Company>)
        ensures
            r@ == ledger.companies@,
    {
        let mut r: Vec<Company> = Vec::new();
        let n = ledger.companies.len();
        let mut i: usize = 0;
        while i < n
            invariant
                i <= n,
                n == ledger.companies@.len(),
                r@ == ledger.companies@.subrange(0, i as int),
            decreases n - i,
        {
            let co = ledger.clone_company_at(i);
            r.push(co);
            proof {
                assert(r@ =~= ledger.companies@.subrange(0, i + 1));
            }
            i += 1;
        }
        proof {
            assert(r@ =~= ledger.companies@);
        }
        r
    }

    /// The stored company rows whose identifiers are listed.
    pub fn find_by_ids(ledger: &Ledger, ids: Vec<i32>) -> (r: Vec<Company>)
        requires
            ledger.wf(),
        ensures
            forall|j: int|
                0 <= j < r@.len() ==> ledger.companies@.contains(#[trigger] r@[j])
                    && ids@.contains(r@[j].id),
            forall|k: int|
                0 <= k < ledger.companies@.len() && ids@.contains(
                    (#[trigger] ledger.companies@[k]).id,
                ) ==> r@.contains(ledger.companies@[k]),
    {
        let mut r: Vec<Company> = Vec::new();
        let n = ledger.companies.len();
        let mut i: usize = 0;
        while i < n
            invariant
                i <= n,
                n == ledger.companies@.len(),
                forall|j: int|
                    0 <= j < r@.len() ==> ledger.companies@.contains(#[trigger] r@[j])
                        && ids@.contains(r@[j].id),
                forall|k: int|
                    0 <= k < i && ids@.contains((#[trigger] ledger.companies@[k]).id)
                        ==> r@.contains(ledger.companies@[k]),
            decreases n - i,
        {
            if contains_id(&ids, ledger.companies[i].id) {
                let ghost r_pre = r@;
                let co = ledger.clone_company_at(i);
                r.push(co);
                proof {
                    let last = r_pre.len() as int;
                    assert(r@[last] == ledger.companies@[i as int]);
                    assert(ledger.companies@.contains(r@[last]));
                    assert forall|k: int|
                        0 <= k < i + 1 && ids@.contains(
                            (#[trigger] ledger.companies@[k]).id,
                        ) implies r@.contains(ledger.companies@[k]) by {
                        if k < i as int {
                            let j = choose|j: int|
                                0 <= j < r_pre.len() && r_pre[j] == ledger.companies@[k];
                            assert(r@[j] == ledger.companies@[k]);
                        } else {
                            assert(r@[last] == ledger.companies@[k]);
                        }
                    }
                }
            } else {
                proof {
                    assert forall|k: int|
                        0 <= k < i + 1 && ids@.contains(
                            (#[trigger] ledger.companies@[k]).id,
                        ) implies r@.contains(ledger.companies@[k]) by {
                        if k == i as int {
                            assert(!ids@.contains(ledger.companies@[k].id));
                        }
                    }
                }
            }
            i += 1;
        }
        r
    }

    /// Delete the company row and every grant scoped to it, returning the
    /// number of company rows removed.
    pub fn delete(ledger: &mut Ledger, id: i32) -> (r: usize)
        requires
            old(ledger).wf(),
        ensures
            final(ledger).wf(),
            r == (if old(ledger).company_id_exists(id) {
                1usize
            } else {
                0usize
            }),
            forall|y: NewUserCompanyRoles| #[trigger] final(ledger).user_company_roles@.contains(
                y,
            ) <==> old(ledger).user_company_roles@.contains(y) && y.company_id != id,
            !final(ledger).company_id_exists(id),
            final(ledger).users == old(ledger).users,
            final(ledger).roles == old(ledger).roles,
            final(ledger).user_roles == old(ledger).user_roles,
            final(ledger).next_user_id == old(ledger).next_user_id,
            final(ledger).next_company_id == old(ledger).next_company_id,
    {
        ledger.purge_company_grants(id);
        match ledger.find_company_index(id) {
            None => 0,
            Some(i) => {
                let ghost pre = *ledger;
                ledger.companies.remove(i);
                proof {
                    assert forall|i2: int, j2: int|
                        0 <= i2 < j2 < ledger.companies@.len() implies #[trigger] ledger
                        .companies@[i2].id != #[trigger] ledger.companies@[j2].id && ledger
                        .companies@[i2].name@ != ledger.companies@[j2].name@ by {
                        let oi = if i2 < i as int { i2 } else { i2 + 1 };
                        let oj = if j2 < i as int { j2 } else { j2 + 1 };
                        assert(ledger.companies@[i2] == pre.companies@[oi]);
                        assert(ledger.companies@[j2] == pre.companies@[oj]);
                    }
                    assert forall|i2: int|
                        0 <= i2 < ledger.companies@.len() implies (
                    #[trigger] ledger.companies@[i2]).id < ledger.next_company_id by {
                        let oi = if i2 < i as int { i2 } else { i2 + 1 };
                        assert(ledger.companies@[i2] == pre.companies@[oi]);
                    }
                    assert forall|i2: int|
                        0 <= i2 < ledger.user_company_roles@.len() implies ledger.company_id_exists(
                        (#[trigger] ledger.user_company_roles@[i2]).company_id,
                    ) by {
                        let y = ledger.user_company_roles@[i2];
                        assert(ledger.user_company_roles@.contains(y));
                        assert(y.company_id != id);
                        assert(pre.company_id_exists(y.company_id));
                        let cw = choose|cw: int|
                            0 <= cw < pre.companies@.len() && (#[trigger] pre.companies@[cw]).id
                                == y.company_id;
                        assert(cw != i as int);
                        if cw < i as int {
                            assert(ledger.companies@[cw].id == y.company_id);
                        } else {
                            assert(ledger.companies@[cw - 1] == pre.companies@[cw]);
                        }
                    }
                    assert(!ledger.company_id_exists(id)) by {
                        if ledger.company_id_exists(id) {
                            let i2 = choose|i2: int|
                                0 <= i2 < ledger.companies@.len() && (
                                #[trigger] ledger.companies@[i2]).id == id;
                            let oi = if i2 < i as int {
                                i2
                            } else {
                                i2 + 1
                            };
                            assert(ledger.companies@[i2] == pre.companies@[oi]);
                            assert(pre.companies@[oi].id != pre.companies@[i as int].id || oi == i as int);
                        }
                    }
                }
                1
            },
        }
    }

    /// Assign the user to the company with exactly the listed role
    /// codes: the user's global role set is replaced to match the list —
    /// global roles outside it are removed together with their grants in
    /// every company — and each listed code is granted globally and
    /// within this company. Only an enterprise user may be assigned.
    #[verifier::rlimit(100)]
    #[verifier::spinoff_prover]
    #[verifier::loop_isolation(false)]
    pub fn add_user(
        ledger: &mut Ledger,
        company: &Company,
        user: &User,
        role_codes: &Vec<RoleCode>,
    ) -> (r: Result<(), RepoError>)
        requires
            old(ledger).wf(),
            user.id < old(ledger).next_user_id,
            old(ledger).company_id_exists(company.id),
        ensures
            final(ledger).wf(),
            r is Err <==> user.user_type != UserType::Enterprise,
            r is Err ==> *final(ledger) == *old(ledger) && r == Err::<(), RepoError>(
                RepoError::NotEnterpriseUser,
            ),
            r is Ok ==> {
                &&& forall|c: RoleCode| #[trigger] final(ledger).has_global_role(user.id, c) <==>
                    role_codes@.contains(c)
                &&& forall|c: RoleCode| #[trigger] final(ledger).has_company_role(
                    user.id,
                    company.id,
                    c,
                ) <==> role_codes@.contains(c)
                &&& forall|cid: i32, c: RoleCode|
                    cid != company.id ==> (#[trigger] final(ledger).has_company_role(
                        user.id,
                        cid,
                        c,
                    ) <==> old(ledger).has_company_role(user.id, cid, c) && role_codes@.contains(
                        c,
                    ))
                &&& forall|u2: i32, c: RoleCode|
                    u2 != user.id ==> (#[trigger] final(ledger).has_global_role(u2, c) <==> old(
                        ledger,
                    ).has_global_role(u2, c))
                &&& forall|u2: i32, cid: i32, c: RoleCode|
                    u2 != user.id ==> (#[trigger] final(ledger).has_company_role(u2, cid, c) <==>
                        old(ledger).has_company_role(u2, cid, c))
                &&& final(ledger).users == old(ledger).users
                &&& final(ledger).companies == old(ledger).companies
                &&& final(ledger).next_user_id == old(ledger).next_user_id
                &&& final(ledger).next_company_id == old(ledger).next_company_id
            },
    {
        match user.user_type {
            UserType::Regular => Err(RepoError::NotEnterpriseUser),
            UserType::Enterprise => {
                let uid = user.id;
                let ghost pre = *ledger;
                let mut redundant: Vec<RoleCode> = Vec::new();
                let drop_admin = ledger.holds_global_role(uid, RoleCode::Admin) && !contains_code(
                    role_codes,
                    RoleCode::Admin,
                );
                let drop_editor = ledger.holds_global_role(uid, RoleCode::Editor)
                    && !contains_code(role_codes, RoleCode::Editor);
                let drop_viewer = ledger.holds_global_role(uid, RoleCode::Viewer)
                    && !contains_code(role_codes, RoleCode::Viewer);
                if drop_admin {
                    redundant.push(RoleCode::Admin);
                }
                if drop_editor {
                    redundant.push(RoleCode::Editor);
                }
                if drop_viewer {
                    redundant.push(RoleCode::Viewer);
                }
                proof {
                    assert forall|c: RoleCode| #[trigger] redundant@.contains(c) <==> (pre
                        .has_global_role(uid, c) && !role_codes@.contains(c)) by {
                        if c != RoleCode::Admin && c != RoleCode::Editor {
                            assert(c == RoleCode::Viewer);
                        }
                        if redundant@.contains(c) {
                            let k = choose|k: int|
                                0 <= k < redundant@.len() && redundant@[k] == c;
                        }
                        if pre.has_global_role(uid, c) && !role_codes@.contains(c) {
                            if c == RoleCode::Admin {
                                assert(redundant@[0] == c);
                            } else if c == RoleCode::Editor {
                                if drop_admin {
                                    assert(redundant@[1] == c);
                                } else {
                                    assert(redundant@[0] == c);
                                }
                            } else {
                                if drop_admin && drop_editor {
                                    assert(redundant@[2] == c);
                                } else if drop_admin || drop_editor {
                                    assert(redundant@[1] == c);
                                } else {
                                    assert(redundant@[0] == c);
                                }
                            }
                        }
                    }
                }
                UserRepository::remove_roles(ledger, user, &redundant);
                let ghost mid = *ledger;
                proof {
                    assert forall|c: RoleCode| #[trigger] mid.has_global_role(uid, c) <==> (pre
                        .has_global_role(uid, c) && role_codes@.contains(c)) by {}
                    assert forall|cid: i32, c: RoleCode| #[trigger] mid.has_company_role(
                        uid,
                        cid,
                        c,
                    ) <==> (pre.has_company_role(uid, cid, c) && role_codes@.contains(c)) by {
                        if pre.has_company_role(uid, cid, c) {
                            let rid = choose|rid: i32|
                                #[trigger] pre.has_company_grant(uid, cid, rid)
                                    && pre.role_has_code(rid, c);
                            let w = choose|w: int|
                                0 <= w < pre.user_company_roles@.len()
                                    && pre.user_company_roles@[w] == (NewUserCompanyRoles {
                                    user_id: uid,
                                    company_id: cid,
                                    role_id: rid,
                                });
                            assert(pre.user_roles@.contains(
                                NewUserRole { user_id: uid, role_id: rid },
                            ));
                            assert(pre.has_user_role(uid, rid));
                            assert(pre.has_global_role(uid, c));
                        }
                    }
                }
                let n = role_codes.len();
                let mut ci: usize = 0;
                while ci < n
                    invariant
                        n == role_codes@.len(),
                        ci <= n,
                        ledger.wf(),
                        uid < ledger.next_user_id,
                        ledger.users == mid.users,
                        ledger.companies == mid.companies,
                        ledger.next_user_id == mid.next_user_id,
                        ledger.next_company_id == mid.next_company_id,
                        ledger.company_id_exists(company.id),
                        forall|c: RoleCode| #[trigger] ledger.has_global_role(uid, c) <==> mid
                            .has_global_role(uid, c) || exists|k: int|
                            0 <= k < ci && role_codes@[k] == c,
                        forall|u2: i32, c: RoleCode|
                            u2 != uid ==> (#[trigger] ledger.has_global_role(u2, c)
                                <==> mid.has_global_role(u2, c)),
                        forall|c: RoleCode| #[trigger] ledger.has_company_role(
                            uid,
                            company.id,
                            c,
                        ) <==> mid.has_company_role(uid, company.id, c) || exists|k: int|
                            0 <= k < ci && role_codes@[k] == c,
                        forall|cid: i32, c: RoleCode|
                            cid != company.id ==> (#[trigger] ledger.has_company_role(uid, cid, c)
                                <==> mid.has_company_role(uid, cid, c)),
                        forall|u2: i32, cid: i32, c: RoleCode|
                            u2 != uid ==> (#[trigger] ledger.has_company_role(u2, cid, c) <==> mid
                                .has_company_role(u2, cid, c)),
                    decreases n - ci,
                {
                    let code = role_codes[ci];
                    let ghost before = *ledger;
                    let rid = ledger.ensure_role(code);
                    let ghost mid1 = *ledger;
                    ledger.insert_user_role(uid, rid);
                    let ghost mid2 = *ledger;
                    proof {
                        assert forall|c: RoleCode| #[trigger] ledger.has_global_role(uid, c) <==>
                            (before.has_global_role(uid, c) || c == code) by {
                            if ledger.has_global_role(uid, c) {
                                let rid2 = choose|rid2: i32|
                                    #[trigger] ledger.has_user_role(uid, rid2)
                                        && ledger.role_has_code(rid2, c);
                                if rid2 == rid {
                                    assert(ledger.role_has_code(rid, code));
                                    assert(c == code);
                                } else {
                                    assert(mid1.has_user_role(uid, rid2));
                                    assert(mid1.has_global_role(uid, c));
                                    assert(before.has_global_role(uid, c));
                                }
                            }
                            if before.has_global_role(uid, c) {
                                let rid2 = choose|rid2: i32|
                                    #[trigger] before.has_user_role(uid, rid2)
                                        && before.role_has_code(rid2, c);
                                assert(mid1.has_user_role(uid, rid2));
                                assert(mid1.role_has_code(rid2, c));
                                assert(ledger.has_user_role(uid, rid2));
                                assert(ledger.has_global_role(uid, c));
                            }
                            if c == code {
                                assert(ledger.has_user_role(uid, rid));
                                assert(ledger.role_has_code(rid, c));
                                assert(ledger.has_global_role(uid, c));
                            }
                        }
                        assert forall|u2: i32, c: RoleCode| u2 != uid implies (
                        #[trigger] ledger.has_global_role(u2, c) <==> before.has_global_role(
                            u2,
                            c,
                        )) by {
                            if ledger.has_global_role(u2, c) {
                                let rid2 = choose|rid2: i32|
                                    #[trigger] ledger.has_user_role(u2, rid2)
                                        && ledger.role_has_code(rid2, c);
                                assert(mid1.has_user_role(u2, rid2));
                                assert(mid1.has_global_role(u2, c));
                                assert(before.has_global_role(u2, c));
                            }
                            if before.has_global_role(u2, c) {
                                let rid2 = choose|rid2: i32|
                                    #[trigger] before.has_user_role(u2, rid2)
                                        && before.role_has_code(rid2, c);
                                assert(mid1.has_user_role(u2, rid2));
                                assert(mid1.role_has_code(rid2, c));
                                assert(ledger.has_user_role(u2, rid2));
                                assert(ledger.has_global_role(u2, c));
                            }
                        }
                        assert forall|u2: i32, cid: i32, c: RoleCode|
                            #[trigger] mid2.has_company_role(u2, cid, c) <==> before
                            .has_company_role(u2, cid, c) by {
                            if mid2.has_company_role(u2, cid, c) {
                                let rid2 = choose|rid2: i32|
                                    #[trigger] mid2.has_company_grant(u2, cid, rid2)
                                        && mid2.role_has_code(rid2, c);
                                assert(mid1.has_company_grant(u2, cid, rid2));
                                assert(mid1.has_company_role(u2, cid, c));
                            }
                            if before.has_company_role(u2, cid, c) {
                                let rid2 = choose|rid2: i32|
                                    #[trigger] before.has_company_grant(u2, cid, rid2)
                                        && before.role_has_code(rid2, c);
                                assert(mid1.has_company_grant(u2, cid, rid2));
                                assert(mid1.role_has_code(rid2, c));
                                assert(mid2.has_company_grant(u2, cid, rid2));
                                assert(mid2.has_company_role(u2, cid, c));
                            }
                        }
                    }
                    let ghost ib = *ledger;
                    ledger.insert_company_grant(uid, company.id, rid);
                    proof {
                        let new_row = NewUserCompanyRoles {
                            user_id: uid,
                            company_id: company.id,
                            role_id: rid,
                        };
                        assert(ledger.roles@ == ib.roles@);
                        assert forall|c: RoleCode| #[trigger] ledger.has_company_role(
                            uid,
                            company.id,
                            c,
                        ) <==> (ib.has_company_role(uid, company.id, c) || c == code) by {
                            if ledger.has_company_role(uid, company.id, c) {
                                let rid2 = choose|rid2: i32|
                                    #[trigger] ledger.has_company_grant(uid, company.id, rid2)
                                        && ledger.role_has_code(rid2, c);
                                if ib.has_company_grant(uid, company.id, rid2) {
                                    assert(ib.role_has_code(rid2, c));
                                    assert(ib.has_company_role(uid, company.id, c));
                                } else {
                                    assert((NewUserCompanyRoles {
                                        user_id: uid,
                                        company_id: company.id,
                                        role_id: rid2,
                                    }) == new_row);
                                    assert(rid2 == rid);
                                    assert(ledger.role_has_code(rid, code));
                                    assert(c == code);
                                }
                            }
                            if ib.has_company_role(uid, company.id, c) {
                                let rid2 = choose|rid2: i32|
                                    #[trigger] ib.has_company_grant(uid, company.id, rid2)
                                        && ib.role_has_code(rid2, c);
                                assert(ledger.has_company_grant(uid, company.id, rid2));
                                assert(ledger.role_has_code(rid2, c));
                                assert(ledger.has_company_role(uid, company.id, c));
                            }
                            if c == code {
                                assert(ledger.has_company_grant(uid, company.id, rid));
                                assert(ledger.role_has_code(rid, c));
                                assert(ledger.has_company_role(uid, company.id, c));
                            }
                        }
                        assert forall|cid: i32, c: RoleCode| cid != company.id implies (
                        #[trigger] ledger.has_company_role(uid, cid, c) <==> ib.has_company_role(
                            uid,
                            cid,
                            c,
                        )) by {
                            if ledger.has_company_role(uid, cid, c) {
                                let rid2 = choose|rid2: i32|
                                    #[trigger] ledger.has_company_grant(uid, cid, rid2)
                                        && ledger.role_has_code(rid2, c);
                                assert(ib.has_company_grant(uid, cid, rid2));
                                assert(ib.role_has_code(rid2, c));
                                assert(ib.has_company_role(uid, cid, c));
                            }
                            if ib.has_company_role(uid, cid, c) {
                                let rid2 = choose|rid2: i32|
                                    #[trigger] ib.has_company_grant(uid, cid, rid2)
                                        && ib.role_has_code(rid2, c);
                                assert(ledger.has_company_grant(uid, cid, rid2));
                                assert(ledger.role_has_code(rid2, c));
                                assert(ledger.has_company_role(uid, cid, c));
                            }
                        }
                        assert forall|u2: i32, cid: i32, c: RoleCode| u2 != uid implies (
                        #[trigger] ledger.has_company_role(u2, cid, c) <==> ib.has_company_role(
                            u2,
                            cid,
                            c,
                        )) by {
                            if ledger.has_company_role(u2, cid, c) {
                                let rid2 = choose|rid2: i32|
                                    #[trigger] ledger.has_company_grant(u2, cid, rid2)
                                        && ledger.role_has_code(rid2, c);
                                assert(ib.has_company_grant(u2, cid, rid2));
                                assert(ib.role_has_code(rid2, c));
                                assert(ib.has_company_role(u2, cid, c));
                            }
                            if ib.has_company_role(u2, cid, c) {
                                let rid2 = choose|rid2: i32|
                                    #[trigger] ib.has_company_grant(u2, cid, rid2)
                                        && ib.role_has_code(rid2, c);
                                assert(ledger.has_company_grant(u2, cid, rid2));
                                assert(ledger.role_has_code(rid2, c));
                                assert(ledger.has_company_role(u2, cid, c));
                            }
                        }
                        assert forall|u2: i32, c: RoleCode| #[trigger] ledger.has_global_role(
                            u2,
                            c,
                        ) <==> mid2.has_global_role(u2, c) by {
                            if ledger.has_global_role(u2, c) {
                                let rid2 = choose|rid2: i32|
                                    #[trigger] ledger.has_user_role(u2, rid2)
                                        && ledger.role_has_code(rid2, c);
                                assert(mid2.has_user_role(u2, rid2));
                                assert(mid2.role_has_code(rid2, c));
                                assert(mid2.has_global_role(u2, c));
                            }
                            if mid2.has_global_role(u2, c) {
                                let rid2 = choose|rid2: i32|
                                    #[trigger] mid2.has_user_role(u2, rid2)
                                        && mid2.role_has_code(rid2, c);
                                assert(ledger.has_user_role(u2, rid2));
                                assert(ledger.role_has_code(rid2, c));
                                assert(ledger.has_global_role(u2, c));
                            }
                        }
                    }
                    ci += 1;
                }
                proof {
                    assert forall|c: RoleCode| #[trigger] ledger.has_global_role(uid, c) <==>
                        role_codes@.contains(c) by {
                        if mid.has_global_role(uid, c) {
                            assert(role_codes@.contains(c));
                        }
                    }
                    assert forall|c: RoleCode| #[trigger] ledger.has_company_role(
                        uid,
                        company.id,
                        c,
                    ) <==> role_codes@.contains(c) by {
                        if mid.has_company_role(uid, company.id, c) {
                            assert(role_codes@.contains(c));
                        }
                    }
                    assert forall|cid: i32, c: RoleCode| cid != company.id implies (
                    #[trigger] ledger.has_company_role(uid, cid, c) <==> pre.has_company_role(
                        uid,
                        cid,
                        c,
                    ) && role_codes@.contains(c)) by {}
                }
                Ok(())
            },
        }
    }

    /// The companies the user belongs to.
    pub fn find_by_user(ledger: &Ledger, user: &User) -> (r: Vec<Company>)
        requires
            ledger.wf(),
        ensures
            forall|j: int| 0 <= j < r@.len() ==> ledger.companies@.contains(#[trigger] r@[j])
                && ledger.member_of(user.id, r@[j].id),
            forall|cid: i32| #[trigger] ledger.member_of(user.id, cid) ==> exists|j: int|
                0 <= j < r@.len() && (#[trigger] r@[j]).id == cid,
            forall|j1: int, j2: int| 0 <= j1 < j2 < r@.len() ==> #[trigger] r@[j1].id
                != #[trigger] r@[j2].id,
    {
        ledger.companies_of_user(user.id)
    }
}

} // verus!
