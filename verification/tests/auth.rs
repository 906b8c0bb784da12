use flatapp::ApiError;
use flatapp::api::{ActivateUserParams, RefreshTokenClaims, UpdateUserInfo};
use flatapp::model::{UserRole, UserStatus};
use flatapp::store::Store;

const SALT: [u8; 16] = [9u8; 16];

/// Register an account and activate it, the way an admin would.
fn registered_active(s: &mut Store, username: &str, password: &str, role: UserRole) -> i32 {
    let id = s.next_user_id;
    s.register(
        &format!("{} name", username),
        username,
        &format!("{}@example.com", username),
        "0123",
        password,
        role,
        None,
        &SALT.to_vec(),
    )
    .unwrap();
    if !matches!(role, UserRole::Admin) {
        s.activate_user(&ActivateUserParams { user_id: id, status: "active".to_string() })
            .unwrap();
    }
    id
}

#[test]
fn register_then_login_round_trip() {
    let mut s = Store::new();
    let id = registered_active(&mut s, "alice", "hunter22", UserRole::Tenant);
    let r = s.login("alice", "hunter22").unwrap();
    assert_eq!(r.0.id, id);
    assert_eq!(r.0.username, "alice");
    assert!(matches!(r.0.role, UserRole::Tenant));
    assert_eq!(r.1.refresh_token_version, 1);
}

#[test]
fn login_wrong_password_is_rejected() {
    let mut s = Store::new();
    registered_active(&mut s, "alice", "hunter22", UserRole::Tenant);
    assert_eq!(s.login("alice", "hunter23").unwrap_err(), ApiError::BadRequest);
    assert_eq!(s.login("nobody", "hunter22").unwrap_err(), ApiError::Unauthorized);
}

#[test]
fn inactive_account_cannot_login() {
    let mut s = Store::new();
    s.register("a", "alice", "a@example.com", "0123", "pw-eight", UserRole::Tenant, None, &SALT
        .to_vec())
        .unwrap();
    // accounts start inactive
    assert_eq!(s.login("alice", "pw-eight").unwrap_err(), ApiError::BadRequest);
}

#[test]
fn stored_password_is_a_hash_not_the_password() {
    // if hashing handed its input back, an account whose stored bytes are
    // the raw password would authenticate; it must not
    let mut s = Store::new();
    let id = registered_active(&mut s, "alice", "hunter22hunter22hunter22hunter22", UserRole::Tenant);
    let ui = s.users.iter().position(|u| u.id == id).unwrap();
    assert_ne!(s.users[ui].password, b"hunter22hunter22hunter22hunter22".to_vec());
    s.users[ui].password = b"hunter22hunter22hunter22hunter22".to_vec();
    assert_eq!(
        s.login("alice", "hunter22hunter22hunter22hunter22").unwrap_err(),
        ApiError::BadRequest
    );
}

#[test]
fn duplicate_username_or_email_rejected() {
    let mut s = Store::new();
    registered_active(&mut s, "alice", "pw-eight", UserRole::Tenant);
    let r = s.register("b", "alice", "b@example.com", "1", "pw-eight", UserRole::Tenant, None,
        &SALT.to_vec());
    assert_eq!(r, Err(ApiError::BadRequest));
    let r = s.register("b", "bob", "alice@example.com", "1", "pw-eight", UserRole::Tenant, None,
        &SALT.to_vec());
    assert_eq!(r, Err(ApiError::BadRequest));
}

#[test]
fn tenant_registration_creates_room() {
    let mut s = Store::new();
    let r = s.register("a", "alice", "a@example.com", "1", "pw-eight", UserRole::Tenant,
        Some(101), &SALT.to_vec());
    assert_eq!(r, Ok(()));
    assert_eq!(s.rooms.len(), 1);
    assert_eq!(s.rooms[0].room_number, 101);
    assert_eq!(s.rooms[0].tenant_id, 1);
    // a second registration naming the same room fails, though the account
    // row was already stored
    let r = s.register("b", "bob", "b@example.com", "1", "pw-eight", UserRole::Tenant, Some(101),
        &SALT.to_vec());
    assert_eq!(r, Err(ApiError::BadRequest));
    assert_eq!(s.users.len(), 2);
    assert_eq!(s.rooms.len(), 1);
}

#[test]
fn logout_invalidates_refresh_tokens() {
    let mut s = Store::new();
    let id = registered_active(&mut s, "alice", "pw-eight", UserRole::Tenant);
    let (_, refresh) = s.login("alice", "pw-eight").unwrap();
    assert!(s.refresh_access(&refresh).is_ok());
    s.account_logout("alice").unwrap();
    // the old refresh claims carry version 1; the account is now at 2
    assert_eq!(s.refresh_access(&refresh).unwrap_err(), ApiError::Unauthorized);
    let (_, refresh2) = s.login("alice", "pw-eight").unwrap();
    assert_eq!(refresh2.refresh_token_version, 2);
    assert_eq!(s.refresh_access(&refresh2).unwrap().id, id);
}

#[test]
fn refresh_unknown_user_rejected() {
    let s = Store::new();
    let claims = RefreshTokenClaims {
        username: "ghost".to_string(),
        id: 4,
        role: UserRole::Tenant,
        refresh_token_version: 1,
    };
    assert_eq!(s.refresh_access(&claims).unwrap_err(), ApiError::Unauthorized);
}

#[test]
fn update_password_requires_old_password() {
    let mut s = Store::new();
    let id = registered_active(&mut s, "alice", "old-password", UserRole::Tenant);
    assert_eq!(s.update_password(id, "wrong", "brand-new").unwrap_err(), ApiError::BadRequest);
    assert!(s.login("alice", "old-password").is_ok());
    assert_eq!(s.update_password(id, "old-password", "brand-new"), Ok(()));
    assert_eq!(s.login("alice", "old-password").unwrap_err(), ApiError::BadRequest);
    assert!(s.login("alice", "brand-new").is_ok());
    assert_eq!(s.update_password(77, "x", "y").unwrap_err(), ApiError::NotFound);
}

#[test]
fn admin_gate() {
    let mut s = Store::new();
    registered_active(&mut s, "alice", "pw-eight", UserRole::Tenant);
    let (claims, _) = s.login("alice", "pw-eight").unwrap();
    assert_eq!(flatapp::auth::check_admin(&claims).unwrap_err(), ApiError::Forbidden);
    assert_eq!(s.get_all_users(&claims).unwrap_err(), ApiError::Forbidden);
}

#[test]
fn admin_lists_users_in_id_order() {
    let mut s = Store::new();
    registered_active(&mut s, "alice", "pw-eight", UserRole::Tenant);
    registered_active(&mut s, "bob", "pw-eight", UserRole::Tenant);
    let admin = registered_active(&mut s, "root", "pw-eight", UserRole::Admin);
    // admins may not be activated through the endpoint, and are not targets
    assert_eq!(
        s.activate_user(&ActivateUserParams { user_id: admin, status: "active".to_string() }),
        Err(ApiError::BadRequest)
    );
    let claims = flatapp::api::AccessTokenClaims {
        username: "root".to_string(),
        id: admin,
        role: UserRole::Admin,
    };
    let users = s.get_all_users(&claims).unwrap();
    let ids: Vec<i32> = users.iter().map(|u| u.id).collect();
    assert_eq!(ids, vec![1, 2, 3]);
}

#[test]
fn activate_user_parses_status() {
    let mut s = Store::new();
    let id = registered_active(&mut s, "alice", "pw-eight", UserRole::Tenant);
    assert!(matches!(s.users[0].status, UserStatus::Active));
    assert_eq!(
        s.activate_user(&ActivateUserParams { user_id: id, status: "inactive".to_string() }),
        Ok(())
    );
    assert!(matches!(s.users[0].status, UserStatus::Inactive));
    assert_eq!(
        s.activate_user(&ActivateUserParams { user_id: id, status: "dormant".to_string() }),
        Err(ApiError::BadRequest)
    );
    assert_eq!(
        s.activate_user(&ActivateUserParams { user_id: 99, status: "active".to_string() }),
        Err(ApiError::BadRequest)
    );
}

#[test]
fn update_user_info_and_username_clash() {
    let mut s = Store::new();
    let a = registered_active(&mut s, "alice", "pw-eight", UserRole::Tenant);
    registered_active(&mut s, "bob", "pw-eight", UserRole::Tenant);
    let info = UpdateUserInfo {
        name: "Alice A".to_string(),
        username: "alice2".to_string(),
        email: "alice2@example.com".to_string(),
        phone: "999".to_string(),
    };
    assert_eq!(s.update_user_info(a, &info), Ok(()));
    assert_eq!(s.users[0].username, "alice2");
    assert_eq!(s.users[0].phone, "999");
    let clash = UpdateUserInfo {
        name: "Alice A".to_string(),
        username: "bob".to_string(),
        email: "x@example.com".to_string(),
        phone: "999".to_string(),
    };
    assert_eq!(s.update_user_info(a, &clash), Err(ApiError::Internal));
    assert_eq!(s.update_user_info(42, &info), Err(ApiError::NotFound));
}

#[test]
fn basic_user_info_lookup() {
    let mut s = Store::new();
    let id = registered_active(&mut s, "alice", "pw-eight", UserRole::Tenant);
    let b = s.get_user_info(id).unwrap();
    assert_eq!(b.id, id);
    assert_eq!(b.username, "alice");
    assert_eq!(s.get_user_info(5).unwrap_err(), ApiError::NotFound);
}

#[test]
fn token_freshness_and_recovery_stub() {
    assert!(flatapp::auth::token_fresh(10, 10));
    assert!(flatapp::auth::token_fresh(9, 10));
    assert!(!flatapp::auth::token_fresh(11, 10));
    assert_eq!(flatapp::auth::recover_password(), Err(ApiError::NotImplemented));
}
