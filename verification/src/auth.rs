use vstd::prelude::*;

use crate::ApiError;
use crate::api::{AccessTokenClaims, RefreshTokenClaims};
use crate::model::{
    Room, StoreModel, User, UserModel, UserRole, UserStatus, has_room, has_user, has_username,
    user_ix, username_ix, wf, wf_accounts, wf_fees, wf_payments,
};
use crate::password::{argon2_hash_of, hash_password, verify_password};
use crate::settle::clone_string;
use crate::store::Store;
use vstd::string::StringSliceAdditionalSpecFns;

verus! {

/// Outcome of a login attempt: `Ok` exactly when the account exists, is
/// active, and the offered password hashes to the stored hash.
pub open spec fn login_ok(m: StoreModel, username: Seq<char>, password: Seq<u8>) -> bool {
    &&& has_username(m, username)
    &&& m.users[username_ix(m, username)].status is Active
    &&& argon2_hash_of(password, m.users[username_ix(m, username)].salt) == m.users[username_ix(
        m,
        username,
    )].password
}

/// The error a failed login reports: an unknown account is `Unauthorized`;
/// an inactive account or a wrong password is `BadRequest`.
pub open spec fn login_err(m: StoreModel, username: Seq<char>, password: Seq<u8>) -> ApiError {
    if !has_username(m, username) {
        ApiError::Unauthorized
    } else if !(m.users[username_ix(m, username)].status is Active) {
        ApiError::BadRequest
    } else {
        ApiError::BadRequest
    }
}

/// A new account as registration stores it: inactive until an admin
/// activates it, with the revocation epoch starting at 1.
pub open spec fn registered_user(
    m: StoreModel,
    name: Seq<char>,
    username: Seq<char>,
    email: Seq<char>,
    phone: Seq<char>,
    password: Seq<u8>,
    salt: Seq<u8>,
    role: UserRole,
) -> UserModel {
    UserModel {
        id: m.next_user_id as i32,
        name: name,
        username: username,
        email: email,
        phone: phone,
        salt: salt,
        password: argon2_hash_of(password, salt),
        role: role,
        status: UserStatus::Inactive,
        refresh_token_version: 1,
    }
}

/// An account with this username or this email already exists.
pub open spec fn account_taken(m: StoreModel, username: Seq<char>, email: Seq<char>) -> bool {
    exists|i: int|
        0 <= i < m.users.len() && (m.users[i].username == username || m.users[i].email == email)
}

/// Registration: reject a taken username or email; store the new account
/// with the salted hash of its password; a tenant naming a fresh room also
/// creates that room, while naming an existing room fails after the account
/// was already stored (no rollback of the earlier write).
pub open spec fn register_spec(
    m: StoreModel,
    name: Seq<char>,
    username: Seq<char>,
    email: Seq<char>,
    phone: Seq<char>,
    password: Seq<u8>,
    salt: Seq<u8>,
    role: UserRole,
    room_id: Option<i32>,
) -> (StoreModel, Result<(), ApiError>) {
    if account_taken(m, username, email) {
        (m, Err(ApiError::BadRequest))
    } else {
        let nu = registered_user(m, name, username, email, phone, password, salt, role);
        let m1 = StoreModel { users: m.users.push(nu), next_user_id: m.next_user_id + 1, ..m };
        if room_id is Some && role is Tenant {
            if has_room(m1, room_id->0 as int) {
                (m1, Err(ApiError::BadRequest))
            } else {
                (
                    StoreModel {
                        rooms: m1.rooms.push(
                            Room { room_number: room_id->0, tenant_id: nu.id },
                        ),
                        ..m1
                    },
                    Ok(()),
                )
            }
        } else {
            (m1, Ok(()))
        }
    }
}

/// Logout: bump the account's refresh-token version, invalidating every
/// refresh token issued before; an unknown or inactive account is rejected.
pub open spec fn logout_spec(m: StoreModel, username: Seq<char>) -> (StoreModel, Result<
    (),
    ApiError,
>) {
    if !has_username(m, username) {
        (m, Err(ApiError::Unauthorized))
    } else {
        let ui = username_ix(m, username);
        if !(m.users[ui].status is Active) {
            (m, Err(ApiError::Unauthorized))
        } else {
            (
                StoreModel {
                    users: m.users.update(
                        ui,
                        UserModel {
                            refresh_token_version: (m.users[ui].refresh_token_version + 1) as i32,
                            ..m.users[ui]
                        },
                    ),
                    ..m
                },
                Ok(()),
            )
        }
    }
}

/// A refresh token is honoured exactly when its user still exists and the
/// token's version is the user's current revocation epoch.
pub open spec fn refresh_ok(m: StoreModel, uid: i32, version: i32) -> bool {
    has_user(m, uid as int) && m.users[user_ix(m, uid as int)].refresh_token_version == version
}

impl Store {
    /// Login decision: checks that the account exists and is active, hashes
    /// the offered password with the account's salt, and compares against
    /// the stored hash. On success returns the access and refresh claims to
    /// sign; the refresh claims carry the account's current revocation
    /// epoch.
    pub fn login(&self, username: &str, password: &str) -> (r: Result<
        (AccessTokenClaims, RefreshTokenClaims),
        ApiError,
    >)
        requires
            wf(self@),
            password.spec_bytes().len() <= u32::MAX,
        ensures
            r is Ok <==> login_ok(self@, username@, password.spec_bytes()),
            r matches Ok(c) ==> {
                let u = self@.users[username_ix(self@, username@)];
                &&& c.0.username@ == u.username
                &&& c.0.id == u.id
                &&& c.0.role == u.role
                &&& c.1.username@ == u.username
                &&& c.1.id == u.id
                &&& c.1.role == u.role
                &&& c.1.refresh_token_version == u.refresh_token_version
            },
            r matches Err(e) ==> e == login_err(self@, username@, password.spec_bytes()),
    {
        let ui = match self.username_pos(&username.to_owned()) {
            Some(ui) => ui,
            None => {
                return Err(ApiError::Unauthorized);
            },
        };
        proof {
            assert(ui as int == username_ix(self@, username@));
        }
        let u = &self.users[ui];
        if !matches!(u.status, UserStatus::Active) {
            return Err(ApiError::BadRequest);
        }
        let hashed = match hash_password(password.as_bytes(), self.users[ui].salt.as_slice()) {
            Some(h) => h,
            None => {
                proof {
                    assert(8 <= self@.users[ui as int].salt.len());
                    assert(self@.users[ui as int].salt.len() <= u32::MAX);
                    assert(false);
                }
                return Err(ApiError::Internal);
            },
        };
        if !vecs_equal(&hashed, &self.users[ui].password) {
            return Err(ApiError::BadRequest);
        }
        let access = AccessTokenClaims {
            username: clone_string(&self.users[ui].username),
            id: u.id,
            role: u.role,
        };
        let refresh = RefreshTokenClaims {
            username: clone_string(&self.users[ui].username),
            id: u.id,
            role: u.role,
            refresh_token_version: u.refresh_token_version,
        };
        Ok((access, refresh))
    }

    /// Registration: store a new inactive account under a fresh id, hashing
    /// the password with the caller-supplied salt; for a tenant naming a
    /// room, create the room bound to the new account, or fail when the
    /// room already exists — the account row, already written, stays.
    pub fn register(
        &mut self,
        name: &str,
        username: &str,
        email: &str,
        phone: &str,
        password: &str,
        role: UserRole,
        room_id: Option<i32>,
        salt: &Vec<u8>,
    ) -> (r: Result<(), ApiError>)
        requires
            wf(old(self)@),
            old(self)@.next_user_id < i32::MAX,
            8 <= salt@.len() <= u32::MAX,
            password.spec_bytes().len() <= u32::MAX,
        ensures
            wf(final(self)@),
            final(self)@ == register_spec(
                old(self)@,
                name@,
                username@,
                email@,
                phone@,
                password.spec_bytes(),
                salt@,
                role,
                room_id,
            ).0,
            r == register_spec(
                old(self)@,
                name@,
                username@,
                email@,
                phone@,
                password.spec_bytes(),
                salt@,
                role,
                room_id,
            ).1,
    {
        // a taken username or email rejects the registration
        let n = self.users.len();
        let mut i: usize = 0;
        while i < n
            invariant
                i <= n,
                n == self@.users.len(),
                self@ == old(self)@,
                wf(self@),
                forall|j: int|
                    0 <= j < i ==> !(self@.users[j].username == username@ || self@.users[j].email
                        == email@),
            decreases n - i,
        {
            let taken = {
                let u = &self.users[i];
                strings_equal(&u.username, username) || strings_equal(&u.email, email)
            };
            if taken {
                proof {
                    assert(self@.users[i as int].username == username@ || self@.users[i as int]
                        .email == email@);
                    assert(account_taken(self@, username@, email@));
                }
                return Err(ApiError::BadRequest);
            }
            i += 1;
        }
        let hashed = match hash_password(password.as_bytes(), salt.as_slice()) {
            Some(h) => h,
            None => {
                proof {
                    assert(false);
                }
                return Err(ApiError::BadRequest);
            },
        };
        let new_id = self.next_user_id;
        let nu = User {
            id: new_id,
            name: name.to_owned(),
            username: username.to_owned(),
            email: email.to_owned(),
            phone: phone.to_owned(),
            salt: clone_vec_u8(salt),
            password: hashed,
            role: role,
            status: UserStatus::Inactive,
            refresh_token_version: 1,
        };
        self.users.push(nu);
        self.next_user_id = self.next_user_id + 1;
        proof {
            let m = old(self)@;
            let m1 = StoreModel {
                users: m.users.push(
                    registered_user(
                        m,
                        name@,
                        username@,
                        email@,
                        phone@,
                        password.spec_bytes(),
                        salt@,
                        role,
                    ),
                ),
                next_user_id: m.next_user_id + 1,
                ..m
            };
            assert(self@.users =~= m1.users);
            assert(self@ =~= m1);
            assert forall|x: int| has_user(m, x) implies has_user(self@, x) by {
                let w = choose|j: int| 0 <= j < m.users.len() && m.users[j].id == x;
                assert(self@.users[w].id == x);
            }
            assert(wf_fees(self@));
            assert(wf_payments(self@));
            assert(wf_accounts(self@));
        }
        if role_is_tenant(role) {
            if let Some(rid) = room_id {
                if self.room_pos(rid).is_some() {
                    return Err(ApiError::BadRequest);
                }
                let room = Room { room_number: rid, tenant_id: new_id };
                self.rooms.push(room);
                proof {
                    let mn = register_spec(
                        old(self)@,
                        name@,
                        username@,
                        email@,
                        phone@,
                        password.spec_bytes(),
                        salt@,
                        role,
                        room_id,
                    ).0;
                    assert(self@.rooms =~= mn.rooms);
                    assert(self@ =~= mn);
                    let m = old(self)@;
                    assert forall|i2: int| 0 <= i2 < m.rooms.len() implies m.rooms[i2].tenant_id
                        != new_id by {
                        assert(has_user(m, m.rooms[i2].tenant_id as int));
                        let w = choose|j: int|
                            0 <= j < m.users.len() && m.users[j].id == m.rooms[i2].tenant_id;
                        assert(m.users[w].id < m.next_user_id);
                    }
                    assert(self@.users[m.users.len() as int].id == new_id);
                    assert(has_user(self@, new_id as int));
                    assert forall|x: int| has_user(m, x) implies has_user(self@, x) by {
                        let w = choose|j: int| 0 <= j < m.users.len() && m.users[j].id == x;
                        assert(self@.users[w].id == x);
                    }
                    assert forall|i2: int| 0 <= i2 < self@.rooms.len() implies has_user(
                        self@,
                        self@.rooms[i2].tenant_id as int,
                    ) by {
                        if i2 < m.rooms.len() {
                            assert(has_user(m, m.rooms[i2].tenant_id as int));
                        } else {
                            assert(self@.rooms[i2].tenant_id == new_id);
                        }
                    }
                    assert(wf_fees(self@));
                    assert(wf_payments(self@));
                    assert(wf_accounts(self@));
                }
            }
        }
        Ok(())
    }

    /// Logout: invalidate every refresh token of the account by bumping its
    /// revocation epoch; unknown or inactive accounts are rejected.
    pub fn account_logout(&mut self, username: &str) -> (r: Result<(), ApiError>)
        requires
            wf(old(self)@),
            has_username(old(self)@, username@) ==> old(self)@.users[username_ix(
                old(self)@,
                username@,
            )].refresh_token_version < i32::MAX,
        ensures
            wf(final(self)@),
            final(self)@ == logout_spec(old(self)@, username@).0,
            r == logout_spec(old(self)@, username@).1,
    {
        let ui = match self.username_pos(&username.to_owned()) {
            Some(ui) => ui,
            None => {
                return Err(ApiError::Unauthorized);
            },
        };
        proof {
            assert(ui as int == username_ix(self@, username@));
        }
        if !matches!(self.users[ui].status, UserStatus::Active) {
            return Err(ApiError::Unauthorized);
        }
        let bumped = self.users[ui].refresh_token_version + 1;
        let name2 = clone_string(&self.users[ui].name);
        let username2 = clone_string(&self.users[ui].username);
        let email2 = clone_string(&self.users[ui].email);
        let phone2 = clone_string(&self.users[ui].phone);
        let salt2 = clone_vec_u8(&self.users[ui].salt);
        let password2 = clone_vec_u8(&self.users[ui].password);
        let updated = User {
            id: self.users[ui].id,
            name: name2,
            username: username2,
            email: email2,
            phone: phone2,
            salt: salt2,
            password: password2,
            role: self.users[ui].role,
            status: self.users[ui].status,
            refresh_token_version: bumped,
        };
        self.users[ui] = updated;
        proof {
            let m = old(self)@;
            let mn = logout_spec(m, username@).0;
            assert(self@.users =~= mn.users);
            assert(self@ =~= mn);
            assert(forall|j: int| 0 <= j < m.users.len() ==> self@.users[j].id == m.users[j].id);
            assert forall|x: int| has_user(m, x) implies has_user(self@, x) by {
                let w = choose|j: int| 0 <= j < m.users.len() && m.users[j].id == x;
                assert(self@.users[w].id == x);
            }
            assert(wf_fees(self@));
            assert(wf_payments(self@));
            assert(wf_accounts(self@));
        }
        Ok(())
    }

    /// Decision of the token-refresh endpoint: the refresh claims are
    /// honoured exactly when their user exists and their version equals the
    /// user's current revocation epoch; the new access claims carry the
    /// user's current identity.
    pub fn refresh_access(&self, claims: &RefreshTokenClaims) -> (r: Result<
        AccessTokenClaims,
        ApiError,
    >)
        requires
            wf(self@),
        ensures
            r is Ok <==> refresh_ok(self@, claims.id, claims.refresh_token_version),
            r matches Ok(c) ==> {
                let u = self@.users[user_ix(self@, claims.id as int)];
                &&& c.username@ == u.username
                &&& c.id == u.id
                &&& c.role == u.role
            },
            r matches Err(e) ==> e == ApiError::Unauthorized,
    {
        let ui = match self.user_pos(claims.id) {
            Some(ui) => ui,
            None => {
                return Err(ApiError::Unauthorized);
            },
        };
        proof {
            assert(ui as int == user_ix(self@, claims.id as int));
        }
        if self.users[ui].refresh_token_version != claims.refresh_token_version {
            return Err(ApiError::Unauthorized);
        }
        Ok(
            AccessTokenClaims {
                username: clone_string(&self.users[ui].username),
                id: self.users[ui].id,
                role: self.users[ui].role,
            },
        )
    }

    /// Password change: the old password must verify against the stored
    /// hash; the new password is hashed with the account's salt and stored.
    pub fn update_password(&mut self, user_id: i32, old_password: &str, new_password: &str) -> (r:
        Result<(), ApiError>)
        requires
            wf(old(self)@),
            old_password.spec_bytes().len() <= u32::MAX,
            new_password.spec_bytes().len() <= u32::MAX,
        ensures
            wf(final(self)@),
            !has_user(old(self)@, user_id as int) ==> final(self)@ == old(self)@ && r == Err::<
                (),
                ApiError,
            >(ApiError::NotFound),
            has_user(old(self)@, user_id as int) ==> {
                let u = old(self)@.users[user_ix(old(self)@, user_id as int)];
                if argon2_hash_of(old_password.spec_bytes(), u.salt) == u.password {
                    &&& r == Ok::<(), ApiError>(())
                    &&& final(self)@ == (StoreModel {
                        users: old(self)@.users.update(
                            user_ix(old(self)@, user_id as int),
                            UserModel {
                                password: argon2_hash_of(new_password.spec_bytes(), u.salt),
                                ..u
                            },
                        ),
                        ..old(self)@
                    })
                } else {
                    &&& r == Err::<(), ApiError>(ApiError::BadRequest)
                    &&& final(self)@ == old(self)@
                }
            },
    {
        let ui = match self.user_pos(user_id) {
            Some(ui) => ui,
            None => {
                return Err(ApiError::NotFound);
            },
        };
        proof {
            assert(ui as int == user_ix(self@, user_id as int));
        }
        let ok = match verify_password(
            old_password.as_bytes(),
            self.users[ui].salt.as_slice(),
            self.users[ui].password.as_slice(),
        ) {
            Some(b) => b,
            None => {
                proof {
                    assert(false);
                }
                return Err(ApiError::Internal);
            },
        };
        if !ok {
            return Err(ApiError::BadRequest);
        }
        let hashed = match hash_password(new_password.as_bytes(), self.users[ui].salt.as_slice()) {
            Some(h) => h,
            None => {
                proof {
                    assert(false);
                }
                return Err(ApiError::Internal);
            },
        };
        let name2 = clone_string(&self.users[ui].name);
        let username2 = clone_string(&self.users[ui].username);
        let email2 = clone_string(&self.users[ui].email);
        let phone2 = clone_string(&self.users[ui].phone);
        let salt2 = clone_vec_u8(&self.users[ui].salt);
        let updated = User {
            id: self.users[ui].id,
            name: name2,
            username: username2,
            email: email2,
            phone: phone2,
            salt: salt2,
            password: hashed,
            role: self.users[ui].role,
            status: self.users[ui].status,
            refresh_token_version: self.users[ui].refresh_token_version,
        };
        self.users[ui] = updated;
        proof {
            let m = old(self)@;
            let u = m.users[user_ix(m, user_id as int)];
            let mn = StoreModel {
                users: m.users.update(
                    user_ix(m, user_id as int),
                    UserModel {
                        password: argon2_hash_of(new_password.spec_bytes(), u.salt),
                        ..u
                    },
                ),
                ..m
            };
            assert(self@.users =~= mn.users);
            assert(self@ =~= mn);
            assert(forall|j: int| 0 <= j < m.users.len() ==> self@.users[j].id == m.users[j].id);
            assert forall|x: int| has_user(m, x) implies has_user(self@, x) by {
                let w = choose|j: int| 0 <= j < m.users.len() && m.users[j].id == x;
                assert(self@.users[w].id == x);
            }
            assert(wf_fees(self@));
            assert(wf_payments(self@));
            assert(wf_accounts(self@));
        }
        Ok(())
    }
}

/// Role check of the admin endpoints: only an admin passes.
pub fn check_admin(claims: &AccessTokenClaims) -> (r: Result<(), ApiError>)
    ensures
        r is Ok <==> claims.role is Admin,
        r is Err ==> r == Err::<(), ApiError>(ApiError::Forbidden),
{
    if matches!(claims.role, UserRole::Admin) {
        Ok(())
    } else {
        Err(ApiError::Forbidden)
    }
}

/// The middleware's expiry test: a token whose expiry lies strictly in the
/// past is rejected.
pub fn token_fresh(now: u64, expires_at: u64) -> (r: bool)
    ensures
        r == (now <= expires_at),
{
    now <= expires_at
}

/// Password recovery is not offered: every request reports so.
pub fn recover_password() -> (r: Result<(), ApiError>)
    ensures
        r == Err::<(), ApiError>(ApiError::NotImplemented),
{
    Err(ApiError::NotImplemented)
}

/// Byte-vector equality, compared element by element.
fn vecs_equal(a: &Vec<u8>, b: &Vec<u8>) -> (r: bool)
    ensures
        r == (a@ == b@),
{
    if a.len() != b.len() {
        proof {
            assert(a@ != b@);
        }
        return false;
    }
    let n = a.len();
    let mut i: usize = 0;
    while i < n
        invariant
            i <= n,
            n == a@.len(),
            n == b@.len(),
            forall|j: int| 0 <= j < i ==> a@[j] == b@[j],
        decreases n - i,
    {
        if a[i] != b[i] {
            proof {
                assert(a@[i as int] != b@[i as int]);
            }
            return false;
        }
        i += 1;
    }
    proof {
        assert(a@ =~= b@);
    }
    true
}

/// String equality against a borrowed str, by view.
fn strings_equal(a: &String, b: &str) -> (r: bool)
    ensures
        r == (a@ == b@),
{
    let bs = b.to_owned();
    a.eq(&bs)
}

/// A copy of a byte vector; view-preserving.
pub fn clone_vec_u8(v: &Vec<u8>) -> (r: Vec<u8>)
    ensures
        r@ == v@,
{
    let mut out: Vec<u8> = Vec::new();
    let n = v.len();
    let mut i: usize = 0;
    while i < n
        invariant
            i <= n,
            n == v@.len(),
            out@ == v@.subrange(0, i as int),
        decreases n - i,
    {
        out.push(v[i]);
        proof {
            assert(out@ =~= v@.subrange(0, i as int + 1));
        }
        i += 1;
    }
    proof {
        assert(out@ =~= v@);
    }
    out
}

/// Whether the role is the tenant role.
fn role_is_tenant(role: UserRole) -> (r: bool)
    ensures
        r == (role is Tenant),
{
    matches!(role, UserRole::Tenant)
}

} // verus!
