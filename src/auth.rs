use vstd::prelude::*;
use argon2::password_hash::{PasswordHash, PasswordHasher, PasswordVerifier, SaltString};
use crate::text::{chars_of, chars_eq, string_of, starts_with};
use crate::media::MediaError;

verus! {

/// An HTTP failure: its status code and message.
#[derive(Debug, Clone)]
pub struct ApiError {
    pub status: u16,
    pub message: String,
}

/// A user's standing.
#[derive(PartialEq, Eq, Structural, Clone, Copy, Debug)]
pub enum UserRole {
    Admin,
    User,
}

pub open spec fn role_name(r: UserRole) -> Seq<char> {
    match r {
        UserRole::Admin => "admin"@,
        UserRole::User => "user"@,
    }
}

/// The stored name of a role.
pub fn role_to_str(role: UserRole) -> (r: &'static str)
    ensures
        r@ == role_name(role),
{
    match role {
        UserRole::Admin => "admin",
        UserRole::User => "user",
    }
}

/// Reads a stored role name; anything else is a server fault.
pub fn parse_role(role: &str) -> (r: Result<UserRole, ApiError>)
    ensures
        role@ == "admin"@ ==> r == Ok::<UserRole, ApiError>(UserRole::Admin),
        role@ == "user"@ ==> r == Ok::<UserRole, ApiError>(UserRole::User),
        role@ != "admin"@ && role@ != "user"@ ==> (r matches Err(e) && e.status == 500 && e.message@ == "invalid role"@),
{
    let c = chars_of(role);
    proof {
        reveal_strlit("admin");
        reveal_strlit("user");
        assert("user"@.len() == 4);
        assert("admin"@.len() == 5);
        assert("user"@ != "admin"@);
    }
    if chars_eq(&c, &chars_of("admin")) {
        Ok(UserRole::Admin)
    } else if chars_eq(&c, &chars_of("user")) {
        Ok(UserRole::User)
    } else {
        Err(ApiError { status: 500, message: "invalid role".to_string() })
    }
}

/// The lowest and highest role levels; level 3 and above administer, and the
/// bootstrap administrator holds the highest.
pub const MIN_ROLE_LEVEL: i64 = 1;
pub const MAX_ROLE_LEVEL: i64 = 5;
pub const ADMIN_LEVEL: i64 = 3;

pub open spec fn clamp_level(level: i64) -> i64 {
    if level < MIN_ROLE_LEVEL { MIN_ROLE_LEVEL } else if level > MAX_ROLE_LEVEL { MAX_ROLE_LEVEL } else { level }
}

/// A role level as read from a token or the store, held to `[1, 5]`.
pub fn clamp_role_level(level: i64) -> (r: i64)
    ensures
        r == clamp_level(level),
        MIN_ROLE_LEVEL <= r <= MAX_ROLE_LEVEL,
{
    if level < MIN_ROLE_LEVEL {
        MIN_ROLE_LEVEL
    } else if level > MAX_ROLE_LEVEL {
        MAX_ROLE_LEVEL
    } else {
        level
    }
}

/// Whether a (raw) role level grants administration.
pub fn is_admin_level(level: i64) -> (r: bool)
    ensures
        r == (clamp_level(level) >= ADMIN_LEVEL),
{
    clamp_role_level(level) >= ADMIN_LEVEL
}

/// The token that authenticates a request: the one embedded in the path,
/// else the `token` query parameter, else a `Bearer` authorization header.
pub open spec fn chosen_token(
    path_token: Option<Seq<char>>,
    query_token: Option<Seq<char>>,
    authorization: Option<Seq<char>>,
) -> Option<Seq<char>> {
    if path_token is Some {
        path_token
    } else if query_token is Some {
        query_token
    } else if authorization is Some && starts_with(authorization->0, "Bearer "@) {
        Some(authorization->0.subrange(7, authorization->0.len() as int))
    } else {
        None
    }
}

pub open spec fn opt_view(o: Option<&str>) -> Option<Seq<char>> {
    match o {
        Some(s) => Some(s@),
        None => None,
    }
}

pub fn extract_token(path_token: Option<&str>, query_token: Option<&str>, authorization: Option<&str>) -> (r: Option<String>)
    ensures
        match chosen_token(opt_view(path_token), opt_view(query_token), opt_view(authorization)) {
            Some(t) => r is Some && r->0@ == t,
            None => r is None,
        },
{
    if let Some(t) = path_token {
        return Some(t.to_string());
    }
    if let Some(t) = query_token {
        return Some(t.to_string());
    }
    match authorization {
        Some(h) => {
            let hc = chars_of(h);
            let prefix = chars_of("Bearer ");
            if crate::text::chars_start_with(&hc, &prefix) {
                proof { reveal_strlit("Bearer "); }
                let mut out: Vec<char> = Vec::new();
                let mut k: usize = 7;
                while k < hc.len()
                    invariant
                        7 <= k <= hc@.len(),
                        out@ == hc@.subrange(7, k as int),
                    decreases hc.len() - k,
                {
                    out.push(hc[k]);
                    k = k + 1;
                    assert(out@ =~= hc@.subrange(7, k as int));
                }
                Some(string_of(&out))
            } else {
                None
            }
        },
        None => None,
    }
}

/// The status a media failure is reported with.
pub open spec fn media_status(e: MediaError) -> u16 {
    match e {
        MediaError::NotFound(_) => 404,
        MediaError::MissingMediaDir => 400,
        MediaError::InvalidMediaDir(_) => 400,
        MediaError::InvalidConfig(_) => 400,
        MediaError::Io(_) => 500,
    }
}

pub fn media_error_status(e: &MediaError) -> (r: u16)
    ensures
        r == media_status(*e),
{
    match e {
        MediaError::NotFound(_) => 404,
        MediaError::MissingMediaDir => 400,
        MediaError::InvalidMediaDir(_) => 400,
        MediaError::InvalidConfig(_) => 400,
        MediaError::Io(_) => 500,
    }
}

/// Whether password-hash's `PasswordHash::new` accepts a PHC string.
pub uninterp spec fn phc_valid(hash: Seq<char>) -> bool;

/// Whether argon2's `verify_password` accepts a password for a PHC string.
pub uninterp spec fn password_matches(password: Seq<char>, hash: Seq<char>) -> bool;

/// Relies on password-hash's `PasswordHash::new`: whether the PHC string parses.
#[verifier::external_body]
fn phc_parses(hash: &str) -> (r: bool)
    ensures
        r == phc_valid(hash@),
{
    PasswordHash::new(hash).is_ok()
}

/// Relies on argon2's `PasswordVerifier::verify_password` with default
/// parameters, for a PHC string that parses.
#[verifier::external_body]
fn argon2_verify(password: &str, hash: &str) -> (r: bool)
    requires
        phc_valid(hash@),
    ensures
        r == password_matches(password@, hash@),
{
    match PasswordHash::new(hash) {
        Ok(parsed) => argon2::Argon2::default().verify_password(password.as_bytes(), &parsed).is_ok(),
        Err(_) => false,
    }
}

/// Relies on argon2's `PasswordHasher::hash_password` with default
/// parameters and a fresh salt from the OS generator; the result depends on
/// the salt, but a hash it returns is a PHC string that verifies the
/// password (`verify_password` recomputes it from the stored salt and
/// parameters).
#[verifier::external_body]
fn argon2_hash(password: &str) -> (r: Option<String>)
    ensures
        r matches Some(h) ==> phc_valid(h@) && password_matches(password@, h@),
{
    let salt = SaltString::generate(&mut rand::rngs::OsRng);
    argon2::Argon2::default().hash_password(password.as_bytes(), &salt).map(|h| h.to_string()).ok()
}

/// What a login's password check answers, given whether the stored hash
/// parses and whether the password matches it.
pub fn password_outcome(hash_valid: bool, matches: bool) -> (r: Result<(), ApiError>)
    ensures
        !hash_valid ==> (r matches Err(e) && e.status == 500 && e.message@ == "invalid password hash"@),
        hash_valid && !matches ==> (r matches Err(e) && e.status == 401 && e.message@ == "invalid credentials"@),
        hash_valid && matches ==> r is Ok,
{
    if !hash_valid {
        Err(ApiError { status: 500, message: "invalid password hash".to_string() })
    } else if !matches {
        Err(ApiError { status: 401, message: "invalid credentials".to_string() })
    } else {
        Ok(())
    }
}

/// Checks a password against a stored Argon2 hash.
pub fn verify_password(password: &str, hash: &str) -> (r: Result<(), ApiError>)
    ensures
        !phc_valid(hash@) ==> (r matches Err(e) && e.status == 500),
        phc_valid(hash@) && !password_matches(password@, hash@) ==> (r matches Err(e) && e.status == 401),
        phc_valid(hash@) && password_matches(password@, hash@) ==> r is Ok,
{
    if !phc_parses(hash) {
        return password_outcome(false, false);
    }
    let m = argon2_verify(password, hash);
    password_outcome(true, m)
}

/// Hashes a password with Argon2 and a random salt.
pub fn hash_password(password: &str) -> (r: Result<String, ApiError>)
    ensures
        r matches Err(e) ==> e.status == 500 && e.message@ == "failed to hash password"@,
        r matches Ok(h) ==> phc_valid(h@) && password_matches(password@, h@),
{
    match argon2_hash(password) {
        Some(h) => Ok(h),
        None => Err(ApiError { status: 500, message: "failed to hash password".to_string() }),
    }
}

} // verus!
