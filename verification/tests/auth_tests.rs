use scada_core::auth::{
    access_claims, bearer_token, check_access, check_login, check_logout, check_refresh,
    credentials_valid, group_scope, issue_refresh_token, refresh_record, require_admin,
    revoke_refresh_token, AuthError, GroupScope, ACCESS_TOKEN_SECONDS, REFRESH_TOKEN_SECONDS,
};
use scada_core::schemas::{Claims, RefreshToken, UserRead};

fn user(active: bool) -> UserRead {
    UserRead {
        id: 5,
        username: "Harold_Finch".to_string(),
        password_hash: "secret".to_string(),
        role_id: 2,
        is_active: active,
    }
}

#[test]
fn bearer_header_gives_its_token() {
    assert_eq!(bearer_token(Some("Bearer abc.def")).unwrap(), "abc.def");
    assert_eq!(bearer_token(Some("Bearer ")).unwrap(), "");
}

#[test]
fn bearer_header_errors() {
    assert_eq!(bearer_token(None).unwrap_err(), AuthError::MissingHeader);
    assert_eq!(bearer_token(Some("Basic abc")).unwrap_err(), AuthError::BadFormat);
    assert_eq!(bearer_token(Some("bearer abc")).unwrap_err(), AuthError::BadFormat);
    assert_eq!(bearer_token(Some("Bear")).unwrap_err(), AuthError::BadFormat);
    assert_eq!(AuthError::MissingHeader.status(), 401);
    assert_eq!(AuthError::BadFormat.status(), 400);
    assert_eq!(AuthError::Forbidden.status(), 403);
    assert_eq!(AuthError::BadFormat.message(), "Invalid Authorization format");
    assert_eq!(AuthError::Expired.message(), "Token expired. Please login again");
    assert_eq!(AuthError::InvalidToken.status(), 401);
    assert_eq!(AuthError::InvalidToken.message(), "Invalid or expired token");
    assert_eq!(AuthError::UnknownRefreshToken.message(), "Invalid refresh token");
    assert_eq!(AuthError::RefreshExpired.message(), "Refresh token expired. Please login again");
}

#[test]
fn access_token_lives_fifteen_minutes() {
    let c = access_claims(5, 2, 1_000);
    assert_eq!(c.id, 5);
    assert_eq!(c.role_id, 2);
    assert_eq!(c.iat, 1_000);
    assert_eq!(c.exp, 1_000 + ACCESS_TOKEN_SECONDS);
    assert_eq!(ACCESS_TOKEN_SECONDS, 900);
    assert_eq!(check_access(&c, 1_900).unwrap(), 5);
    assert_eq!(check_access(&c, 1_901).unwrap_err(), AuthError::Expired);
}

#[test]
fn login_checks_user_and_password() {
    let u = user(true);
    assert_eq!(check_login(Some(&u), &"secret".to_string()).unwrap(), (5, 2));
    assert_eq!(check_login(Some(&u), &"Secret".to_string()).unwrap_err(), AuthError::WrongPassword);
    assert_eq!(check_login(None, &"secret".to_string()).unwrap_err(), AuthError::UserNotFound);
    assert_eq!(AuthError::UserNotFound.message(), "User not found");
    assert_eq!(AuthError::WrongPassword.message(), "Password incorrect");
}

#[test]
fn credentials_need_an_active_user() {
    assert!(credentials_valid(Some(&user(true)), &"secret".to_string()));
    assert!(!credentials_valid(Some(&user(false)), &"secret".to_string()));
    assert!(!credentials_valid(Some(&user(true)), &"other".to_string()));
    assert!(!credentials_valid(None, &"secret".to_string()));
}

#[test]
fn refresh_token_is_random_hex() {
    let a = issue_refresh_token(5, 2, 100);
    let b = issue_refresh_token(5, 2, 100);
    assert_eq!(a.token_hash.len(), 32);
    assert!(a.token_hash.chars().all(|c| c.is_ascii_digit() || ('a'..='f').contains(&c)));
    assert_eq!(a.token_hash.chars().nth(12), Some('4'));
    assert_ne!(a.token_hash, b.token_hash);
    assert_eq!(a.created_at, 100);
    assert_eq!(a.expires_at, 100 + REFRESH_TOKEN_SECONDS);
    assert_eq!(REFRESH_TOKEN_SECONDS, 2_678_400);
}

#[test]
fn refresh_token_lifetime_and_logout() {
    let t = refresh_record(5, 2, "abc".to_string(), 1_000);
    assert_eq!(check_refresh(Some(&t), 1_000 + REFRESH_TOKEN_SECONDS).unwrap(), (5, 2));
    assert_eq!(check_refresh(Some(&t), 1_001 + REFRESH_TOKEN_SECONDS).unwrap_err(), AuthError::RefreshExpired);
    assert_eq!(check_refresh(None, 0).unwrap_err(), AuthError::UnknownRefreshToken);
    let revoked = check_logout(Some(t.clone()), 5_000).unwrap();
    assert_eq!(revoked.token_hash, "abc");
    assert_eq!(revoked.created_at, 5_000);
    assert_eq!(revoked.expires_at, 5_000);
    assert!(check_refresh(Some(&revoked), 5_000).is_ok());
    assert_eq!(check_refresh(Some(&revoked), 5_001).unwrap_err(), AuthError::RefreshExpired);
    assert_eq!(check_logout(None, 1).unwrap_err(), AuthError::UnknownRefreshToken);
    let r2 = revoke_refresh_token(RefreshToken { user_id: 1, user_role_id: 3, token_hash: "x".to_string(), created_at: 0, expires_at: 9 }, 7);
    assert_eq!((r2.user_id, r2.user_role_id, r2.created_at, r2.expires_at), (1, 3, 7, 7));
}

#[test]
fn admin_routes_need_role_one() {
    let admin = Claims { id: 1, role_id: 1, exp: 0, iat: 0 };
    let engineer = Claims { id: 2, role_id: 2, exp: 0, iat: 0 };
    assert!(require_admin(Some(&admin)).is_ok());
    assert_eq!(require_admin(Some(&engineer)).unwrap_err(), AuthError::Forbidden);
    assert_eq!(require_admin(None).unwrap_err(), AuthError::NoClaims);
    assert_eq!(AuthError::NoClaims.status(), 401);
}

#[test]
fn group_scope_by_role() {
    let c = |role: i32| Claims { id: 9, role_id: role, exp: 0, iat: 0 };
    assert_eq!(group_scope(&c(1)), GroupScope::AllGroups);
    assert_eq!(group_scope(&c(2)), GroupScope::AllGroups);
    assert_eq!(group_scope(&c(3)), GroupScope::OwnGroups(9));
    assert_eq!(group_scope(&c(4)), GroupScope::OwnGroups(9));
    assert_eq!(group_scope(&c(5)), GroupScope::Forbidden);
    assert_eq!(group_scope(&c(0)), GroupScope::Forbidden);
}
