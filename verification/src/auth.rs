//! Authentication rules: the bearer header, the lifetimes of access and
//! refresh tokens, the login check and the role checks.
use vstd::prelude::*;
use vstd::string::StrSliceExecFns;
use crate::schemas::{Claims, RefreshToken, UserRead};

verus! {

/// An access token lives 15 minutes.
pub const ACCESS_TOKEN_SECONDS: i64 = 900;

/// A refresh token lives 31 days.
pub const REFRESH_TOKEN_SECONDS: i64 = 2678400;

/// The role id of an administrator.
pub const ADMIN_ROLE: i32 = 1;

/// Why a request is refused before it reaches the data.
#[derive(Clone, Copy, Debug, PartialEq, Eq)]
pub enum AuthError {
    /// No `Authorization` header.
    MissingHeader,
    /// The header does not start with `Bearer `.
    BadFormat,
    /// The token does not decode or its signature is wrong.
    InvalidToken,
    /// The access token expired.
    Expired,
    /// No user has the name given at login.
    UserNotFound,
    /// The password given at login is not the user's.
    WrongPassword,
    /// No refresh token is stored under the given one.
    UnknownRefreshToken,
    /// The refresh token expired (or was revoked by a logout).
    RefreshExpired,
    /// The request carries no claims.
    NoClaims,
    /// The role may not do this.
    Forbidden,
}

/// The HTTP status each refusal is answered with.
pub open spec fn auth_status(e: AuthError) -> u16 {
    match e {
        AuthError::BadFormat => 400,
        AuthError::Forbidden => 403,
        _ => 401,
    }
}

/// The text each refusal is answered with.
pub open spec fn auth_text(e: AuthError) -> Seq<char> {
    match e {
        AuthError::MissingHeader => "Missing Authorization Header"@,
        AuthError::BadFormat => "Invalid Authorization format"@,
        AuthError::InvalidToken => "Invalid or expired token"@,
        AuthError::Expired => "Token expired. Please login again"@,
        AuthError::UserNotFound => "User not found"@,
        AuthError::WrongPassword => "Password incorrect"@,
        AuthError::UnknownRefreshToken => "Invalid refresh token"@,
        AuthError::RefreshExpired => "Refresh token expired. Please login again"@,
        AuthError::NoClaims => ""@,
        AuthError::Forbidden => ""@,
    }
}

impl AuthError {
    /// The HTTP status of this refusal.
    pub fn status(&self) -> (r: u16)
        ensures
            r == auth_status(*self),
    {
        match self {
            AuthError::BadFormat => 400,
            AuthError::Forbidden => 403,
            _ => 401,
        }
    }

    /// The text of this refusal.
    pub fn message(&self) -> (r: &'static str)
        ensures
            r@ == auth_text(*self),
    {
        match self {
            AuthError::MissingHeader => "Missing Authorization Header",
            AuthError::BadFormat => "Invalid Authorization format",
            AuthError::InvalidToken => "Invalid or expired token",
            AuthError::Expired => "Token expired. Please login again",
            AuthError::UserNotFound => "User not found",
            AuthError::WrongPassword => "Password incorrect",
            AuthError::UnknownRefreshToken => "Invalid refresh token",
            AuthError::RefreshExpired => "Refresh token expired. Please login again",
            AuthError::NoClaims => "",
            AuthError::Forbidden => "",
        }
    }
}

/// The scheme word that starts an `Authorization` header, with its space.
pub open spec fn bearer_prefix() -> Seq<char> {
    seq!['B', 'e', 'a', 'r', 'e', 'r', ' ']
}

/// What `bearer_token` gives for a header value.
pub open spec fn bearer_spec(header: Option<Seq<char>>) -> Result<Seq<char>, AuthError> {
    match header {
        None => Err(AuthError::MissingHeader),
        Some(h) => if h.len() >= 7 && h.subrange(0, 7) == bearer_prefix() {
            Ok(h.skip(7))
        } else {
            Err(AuthError::BadFormat)
        },
    }
}

/// The token of an `Authorization: Bearer <token>` header.
pub fn bearer_token<'a>(header: Option<&'a str>) -> (r: Result<&'a str, AuthError>)
    ensures
        match (r, bearer_spec(
            match header {
                Some(h) => Some(h@),
                None => None,
            },
        )) {
            (Ok(t), Ok(s)) => t@ == s,
            (Err(e), Err(f)) => e == f,
            _ => false,
        },
{
    let h = match header {
        None => {
            return Err(AuthError::MissingHeader);
        },
        Some(h) => h,
    };
    let n: usize = h.unicode_len();
    if n < 7 {
        return Err(AuthError::BadFormat);
    }
    let prefix = ['B', 'e', 'a', 'r', 'e', 'r', ' '];
    let mut i: usize = 0;
    while i < 7
        invariant
            header == Some(h),
            n == h@.len(),
            7 <= n,
            i <= 7,
            prefix@ == bearer_prefix(),
            forall|k: int| 0 <= k < i ==> h@[k] == #[trigger] bearer_prefix()[k],
        decreases 7 - i,
    {
        if h.get_char(i) != prefix[i] {
            assert(h@.subrange(0, 7)[i as int] != bearer_prefix()[i as int]);
            assert(h@.subrange(0, 7) != bearer_prefix());
            return Err(AuthError::BadFormat);
        }
        i = i + 1;
    }
    assert(h@.subrange(0, 7) =~= bearer_prefix());
    let t = h.substring_char(7, n);
    assert(t@ =~= h@.skip(7));
    Ok(t)
}

/// The claims of an access token issued at `now`: it expires 15 minutes later.
pub open spec fn access_claims_spec(id: i32, role_id: i32, now: i64) -> Claims {
    Claims { id, role_id, exp: (now + ACCESS_TOKEN_SECONDS) as i64, iat: now }
}

/// The claims of an access token for user `id` with role `role_id`, issued at `now`.
pub fn access_claims(id: i32, role_id: i32, now: i64) -> (r: Claims)
    requires
        now + ACCESS_TOKEN_SECONDS <= i64::MAX,
    ensures
        r == access_claims_spec(id, role_id, now),
{
    Claims { id, role_id, exp: now + ACCESS_TOKEN_SECONDS, iat: now }
}

/// The user an access token speaks for, unless it expired before `now`.
pub fn check_access(claims: &Claims, now: i64) -> (r: Result<i32, AuthError>)
    ensures
        claims.exp < now ==> r == Err::<i32, AuthError>(AuthError::Expired),
        claims.exp >= now ==> r == Ok::<i32, AuthError>(claims.id),
{
    if claims.exp < now {
        Err(AuthError::Expired)
    } else {
        Ok(claims.id)
    }
}

/// What the login handler answers for the user found under the given name.
pub open spec fn login_spec(found: Option<UserRead>, password: Seq<char>) -> Result<(i32, i32), AuthError> {
    match found {
        None => Err(AuthError::UserNotFound),
        Some(u) => if u.password_hash@ != password {
            Err(AuthError::WrongPassword)
        } else {
            Ok((u.id, u.role_id))
        },
    }
}

/// Checks a login: the user must exist and the password must be its own.
/// Gives the user's id and role.
pub fn check_login(found: Option<&UserRead>, password: &String) -> (r: Result<(i32, i32), AuthError>)
    ensures
        r == login_spec(
            match found {
                Some(u) => Some(*u),
                None => None,
            },
            password@,
        ),
{
    match found {
        None => Err(AuthError::UserNotFound),
        Some(u) => {
            if u.password_hash != *password {
                Err(AuthError::WrongPassword)
            } else {
                Ok((u.id, u.role_id))
            }
        },
    }
}

/// Whether the credentials name an active user with this password, as the
/// database worker decides.
pub fn credentials_valid(found: Option<&UserRead>, password: &String) -> (r: bool)
    ensures
        r == match found {
            Some(u) => u.is_active && u.password_hash@ == password@,
            None => false,
        },
{
    match found {
        Some(u) => u.is_active && u.password_hash == *password,
        None => false,
    }
}

/// A refresh token: 32 lower-case hexadecimal digits of a random (version 4) UUID.
pub open spec fn is_refresh_token_text(t: Seq<char>) -> bool {
    &&& t.len() == 32
    &&& forall|i: int|
        0 <= i < 32 ==> ('0' <= #[trigger] t[i] <= '9' || 'a' <= t[i] <= 'f')
    &&& t[12] == '4'
}

/// A new random refresh token.
///
/// Calls `uuid::Uuid::new_v4` and formats it with `simple()`: the claim is
/// that the text has 32 lower-case hexadecimal digits, the version digit `4`
/// at index 12. Which digits come out is chance and is not stated.
#[verifier::external_body]
fn random_token_text() -> (r: String)
    ensures
        is_refresh_token_text(r@),
{
    uuid::Uuid::new_v4().simple().to_string()
}

/// The stored record of a refresh token issued at `now` for a user.
pub open spec fn refresh_record_spec(user_id: i32, role_id: i32, token: Seq<char>, now: i64, r: RefreshToken) -> bool {
    &&& r.user_id == user_id
    &&& r.user_role_id == role_id
    &&& r.token_hash@ == token
    &&& r.created_at == now
    &&& r.expires_at == now + REFRESH_TOKEN_SECONDS
}

/// The record of refresh token `token` issued at `now`: it expires 31 days later.
pub fn refresh_record(user_id: i32, role_id: i32, token: String, now: i64) -> (r: RefreshToken)
    requires
        now + REFRESH_TOKEN_SECONDS <= i64::MAX,
    ensures
        refresh_record_spec(user_id, role_id, token@, now, r),
{
    RefreshToken {
        user_id,
        user_role_id: role_id,
        token_hash: token,
        created_at: now,
        expires_at: now + REFRESH_TOKEN_SECONDS,
    }
}

/// Issues a new refresh token at `now` for a user who logged in.
pub fn issue_refresh_token(user_id: i32, role_id: i32, now: i64) -> (r: RefreshToken)
    requires
        now + REFRESH_TOKEN_SECONDS <= i64::MAX,
    ensures
        refresh_record_spec(user_id, role_id, r.token_hash@, now, r),
        is_refresh_token_text(r.token_hash@),
{
    let token = random_token_text();
    refresh_record(user_id, role_id, token, now)
}

/// The record a logout writes: the same token, created and expiring at `now`.
pub fn revoke_refresh_token(token: RefreshToken, now: i64) -> (r: RefreshToken)
    ensures
        r.user_id == token.user_id,
        r.user_role_id == token.user_role_id,
        r.token_hash@ == token.token_hash@,
        r.created_at == now,
        r.expires_at == now,
{
    RefreshToken {
        user_id: token.user_id,
        user_role_id: token.user_role_id,
        token_hash: token.token_hash,
        created_at: now,
        expires_at: now,
    }
}

/// What a refresh request at `now` is answered, for the stored record found.
pub open spec fn refresh_spec(found: Option<RefreshToken>, now: i64) -> Result<(i32, i32), AuthError> {
    match found {
        None => Err(AuthError::UnknownRefreshToken),
        Some(t) => if t.expires_at < now {
            Err(AuthError::RefreshExpired)
        } else {
            Ok((t.user_id, t.user_role_id))
        },
    }
}

/// Checks a refresh token at `now`: it must be stored and not expired.
/// Gives the user and role the new access token is for.
pub fn check_refresh(found: Option<&RefreshToken>, now: i64) -> (r: Result<(i32, i32), AuthError>)
    ensures
        r == refresh_spec(
            match found {
                Some(t) => Some(*t),
                None => None,
            },
            now,
        ),
{
    match found {
        None => Err(AuthError::UnknownRefreshToken),
        Some(t) => {
            if t.expires_at < now {
                Err(AuthError::RefreshExpired)
            } else {
                Ok((t.user_id, t.user_role_id))
            }
        },
    }
}

/// Checks a logout: the refresh token must be stored.
pub fn check_logout(found: Option<RefreshToken>, now: i64) -> (r: Result<RefreshToken, AuthError>)
    ensures
        found is None ==> r == Err::<RefreshToken, AuthError>(AuthError::UnknownRefreshToken),
        found matches Some(t) ==> (r matches Ok(v) && v.user_id == t.user_id && v.user_role_id
            == t.user_role_id && v.token_hash@ == t.token_hash@ && v.created_at == now
            && v.expires_at == now),
{
    match found {
        None => Err(AuthError::UnknownRefreshToken),
        Some(t) => Ok(revoke_refresh_token(t, now)),
    }
}

/// Only an administrator passes the admin routes.
pub fn require_admin(claims: Option<&Claims>) -> (r: Result<(), AuthError>)
    ensures
        match claims {
            None => r == Err::<(), AuthError>(AuthError::NoClaims),
            Some(c) => if c.role_id == ADMIN_ROLE {
                r is Ok
            } else {
                r == Err::<(), AuthError>(AuthError::Forbidden)
            },
        },
{
    match claims {
        None => Err(AuthError::NoClaims),
        Some(c) => {
            if c.role_id != ADMIN_ROLE {
                Err(AuthError::Forbidden)
            } else {
                Ok(())
            }
        },
    }
}

/// Which user groups a user may list.
#[derive(Clone, Copy, Debug, PartialEq, Eq)]
pub enum GroupScope {
    /// Only the groups of this user.
    OwnGroups(i32),
    /// Every group.
    AllGroups,
    /// None: the role is unknown.
    Forbidden,
}

/// Operators and viewers (roles 3 and 4) see their own groups; administrators
/// and engineers (roles 1 and 2) see all of them.
pub open spec fn group_scope_spec(claims: Claims) -> GroupScope {
    if claims.role_id == 3 || claims.role_id == 4 {
        GroupScope::OwnGroups(claims.id)
    } else if claims.role_id == 1 || claims.role_id == 2 {
        GroupScope::AllGroups
    } else {
        GroupScope::Forbidden
    }
}

/// The groups the caller of `/user_group/me` may list.
pub fn group_scope(claims: &Claims) -> (r: GroupScope)
    ensures
        r == group_scope_spec(*claims),
{
    match claims.role_id {
        3 | 4 => GroupScope::OwnGroups(claims.id),
        1 | 2 => GroupScope::AllGroups,
        _ => GroupScope::Forbidden,
    }
}

/// An access token issued at `now` is accepted exactly until 15 minutes later.
pub proof fn law_access_token_lifetime(id: i32, role_id: i32, now: i64, t: i64)
    requires
        now + ACCESS_TOKEN_SECONDS <= i64::MAX,
    ensures
        (access_claims_spec(id, role_id, now).exp >= t) <==> t <= now + ACCESS_TOKEN_SECONDS,
{
}

/// A refresh token issued at `now` is accepted at any time up to 31 days
/// later and refused after that.
pub proof fn law_refresh_token_lifetime(r: RefreshToken, user_id: i32, role_id: i32, now: i64, t: i64)
    requires
        refresh_record_spec(user_id, role_id, r.token_hash@, now, r),
    ensures
        refresh_spec(Some(r), t) == (if t <= now + REFRESH_TOKEN_SECONDS {
            Ok::<(i32, i32), AuthError>((user_id, role_id))
        } else {
            Err::<(i32, i32), AuthError>(AuthError::RefreshExpired)
        }),
{
}

/// After a logout at `now`, the token is refused at every later time.
pub proof fn law_logout_revokes(token: RefreshToken, revoked: RefreshToken, now: i64, t: i64)
    requires
        revoked.user_id == token.user_id,
        revoked.user_role_id == token.user_role_id,
        revoked.created_at == now,
        revoked.expires_at == now,
        now < t,
    ensures
        refresh_spec(Some(revoked), t) == Err::<(i32, i32), AuthError>(AuthError::RefreshExpired),
{
}

/// A login succeeds exactly for a known user and its own password, and
/// gives that user's id and role.
pub proof fn law_login_needs_own_password(u: UserRead, password: Seq<char>)
    ensures
        (login_spec(Some(u), password) is Ok) <==> u.password_hash@ == password,
        login_spec(Some(u), password) is Ok ==> login_spec(Some(u), password) == Ok::<(i32, i32), AuthError>((u.id, u.role_id)),
        login_spec(None, password) == Err::<(i32, i32), AuthError>(AuthError::UserNotFound),
{
}


/// The token of a `Bearer` header is what follows the scheme word, whatever
/// it is.
pub proof fn law_bearer_gives_back_token(token: Seq<char>)
    ensures
        bearer_spec(Some(bearer_prefix() + token)) == Ok::<Seq<char>, AuthError>(token),
{
    let h = bearer_prefix() + token;
    assert(h.subrange(0, 7) =~= bearer_prefix());
    assert(h.skip(7) =~= token);
}

} // verus!
