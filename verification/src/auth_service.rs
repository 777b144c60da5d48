//! The authentication service: password hashing, token issuance and
//! verification, and credential-store lookups and updates.

use vstd::prelude::*;
use vstd::string::StringExecFns;
use crate::errors::ApiError;
use crate::ids::{format_uuid, uuid_str_of};
use crate::password::{bcrypt_check, bcrypt_hash, bcrypt_verify};
use crate::tokens::{jwt_claims, jwt_decode, jwt_encode, jwt_token, Claims};
use crate::users::{User, UserTable};

verus! {

/// Message attached to internal password-hashing failures.
pub open spec fn hashing_error_msg() -> Seq<char> {
    "Password hashing error"@
}

/// Generic message for a token that does not verify.
pub open spec fn token_error_msg() -> Seq<char> {
    "JWT error"@
}

/// Message for a structurally valid token past its expiry.
pub open spec fn expired_msg() -> Seq<char> {
    "Token expired"@
}

/// Message for a row lookup that matched nothing.
pub open spec fn not_found_msg() -> Seq<char> {
    "Resource not found"@
}

pub open spec fn username_exists_msg() -> Seq<char> {
    "Username already exists"@
}

pub open spec fn email_exists_msg() -> Seq<char> {
    "Email already exists"@
}

/// Token issuer/verifier plus credential-store client; the secret and ttl
/// are process-wide configuration fixed at startup.
#[derive(Clone)]
pub struct AuthService {
    jwt_secret: String,
    jwt_expiration: i64,
}

impl AuthService {
    pub closed spec fn spec_secret(&self) -> Seq<char> {
        self.jwt_secret@
    }

    pub closed spec fn spec_ttl(&self) -> i64 {
        self.jwt_expiration
    }

    pub fn new(jwt_secret: String, jwt_expiration: i64) -> (s: AuthService)
        ensures
            s.spec_secret() == jwt_secret@,
            s.spec_ttl() == jwt_expiration,
    {
        AuthService { jwt_secret, jwt_expiration }
    }

    /// The configured token lifetime, in seconds.
    pub fn ttl(&self) -> (t: i64)
        ensures
            t == self.spec_ttl(),
    {
        self.jwt_expiration
    }

    /// Produces a salted one-way digest of the password: a 60-character
    /// hash string, never the plaintext.
    pub fn hash_password(&self, password: &str) -> (r: Result<String, ApiError>)
        ensures
            r matches Ok(h) ==> bcrypt_check(password@, h@) == Some(true) && h@.len() == 60
                && h@[0] == '$',
            r matches Err(e) ==> e matches ApiError::InternalServerError(m) && m@
                == hashing_error_msg(),
    {
        match bcrypt_hash(password) {
            Ok(h) => Ok(h),
            Err(_) => Err(
                ApiError::InternalServerError(String::from_str("Password hashing error")),
            ),
        }
    }

    /// Recomputes and compares the digest; errs only on a malformed digest.
    pub fn verify_password(&self, password: &str, hash: &str) -> (r: Result<bool, ApiError>)
        ensures
            r matches Ok(b) ==> bcrypt_check(password@, hash@) == Some(b),
            r matches Err(e) ==> bcrypt_check(password@, hash@) is None && (e matches
                ApiError::InternalServerError(m) && m@ == hashing_error_msg()),
    {
        match bcrypt_verify(password, hash) {
            Ok(b) => Ok(b),
            Err(_) => Err(
                ApiError::InternalServerError(String::from_str("Password hashing error")),
            ),
        }
    }

    /// Issues a token whose claims are {subject: the canonical rendering of
    /// `user_id`, issued_at: `now`, expires_at: `now` + ttl}. Issuance always
    /// succeeds: the signing scheme is total on these inputs.
    pub fn generate_token(&self, user_id: u128, now: i64) -> (r: Result<String, ApiError>)
        requires
            i64::MIN <= now + self.spec_ttl() <= i64::MAX,
        ensures
            r matches Ok(t) && t@ == jwt_token(
                uuid_str_of(user_id),
                (now + self.spec_ttl()) as i64,
                now,
                self.spec_secret(),
            ) && jwt_claims(t@, self.spec_secret()) == Some(
                (uuid_str_of(user_id), (now + self.spec_ttl()) as i64, now),
            ),
    {
        let sub = format_uuid(user_id);
        let exp = now + self.jwt_expiration;
        match jwt_encode(sub.as_str(), exp, now, self.jwt_secret.as_str()) {
            Ok(t) => Ok(t),
            Err(_) => Err(ApiError::Unauthorized(String::from_str("JWT error"))),
        }
    }

    /// Verifies signature and expiry: the claims come back exactly when the
    /// token was signed under this secret and `now` is before its expiry;
    /// a structurally valid but stale token is rejected as expired.
    pub fn verify_token(&self, token: &str, now: i64) -> (r: Result<Claims, ApiError>)
        ensures
            match jwt_claims(token@, self.spec_secret()) {
                Some(t3) => if now < t3.1 {
                    r matches Ok(c) && c.sub@ == t3.0 && c.exp == t3.1 && c.iat == t3.2
                } else {
                    r matches Err(e) && e matches ApiError::Unauthorized(m) && m@ == expired_msg()
                },
                None => r matches Err(e) && e matches ApiError::Unauthorized(m) && m@
                    == token_error_msg(),
            },
    {
        match jwt_decode(token, self.jwt_secret.as_str()) {
            Some(c) => {
                if now < c.exp {
                    Ok(c)
                } else {
                    Err(ApiError::Unauthorized(String::from_str("Token expired")))
                }
            },
            None => Err(ApiError::Unauthorized(String::from_str("JWT error"))),
        }
    }

    /// Looks a user up by id; absence maps to the store's not-found error.
    pub fn get_user_by_id<'a>(&self, table: &'a UserTable, user_id: u128) -> (r: Result<
        &'a User,
        ApiError,
    >)
        ensures
            match r {
                Ok(u) => u.id == user_id && exists|i: int|
                    0 <= i < table.rows().len() && #[trigger] table.rows()[i] == *u,
                Err(e) => !table.has_id(user_id) && (e matches ApiError::NotFound(m) && m@
                    == not_found_msg()),
            },
    {
        match table.find_by_id(user_id) {
            Some(u) => Ok(u),
            None => Err(ApiError::NotFound(String::from_str("Resource not found"))),
        }
    }

    /// Looks a user up by email; absence maps to the store's not-found error.
    pub fn get_user_by_email<'a>(&self, table: &'a UserTable, email: &str) -> (r: Result<
        &'a User,
        ApiError,
    >)
        ensures
            match r {
                Ok(u) => u.email@ == email@ && exists|i: int|
                    0 <= i < table.rows().len() && #[trigger] table.rows()[i] == *u,
                Err(e) => !table.has_email(email@) && (e matches ApiError::NotFound(m) && m@
                    == not_found_msg()),
            },
    {
        match table.find_by_email(email) {
            Some(u) => Ok(u),
            None => Err(ApiError::NotFound(String::from_str("Resource not found"))),
        }
    }

    /// Creates a user: both uniqueness checks, then hash, then insert. A
    /// duplicate error comes exactly when the duplicate exists; on clean
    /// inputs only the hasher's own failure can stand in the way.
    pub fn create_user(
        &self,
        table: &mut UserTable,
        username: &str,
        email: &str,
        password: &str,
        now: i64,
    ) -> (r: Result<User, ApiError>)
        requires
            old(table).wf(),
            old(table).spec_next_id() < u128::MAX,
        ensures
            final(table).wf(),
            r matches Ok(u) ==> {
                &&& !old(table).has_username(username@)
                &&& !old(table).has_email(email@)
                &&& final(table).rows() == old(table).rows().push(u)
                &&& final(table).spec_next_id() == old(table).spec_next_id() + 1
                &&& u.id == old(table).spec_next_id()
                &&& u.username@ == username@
                &&& u.email@ == email@
                &&& bcrypt_check(password@, u.password_hash@) == Some(true)
                &&& u.created_at == now
                &&& u.updated_at == now
                &&& u.last_login is None
            },
            r is Err ==> *final(table) == *old(table),
            r matches Err(e) ==> e is BadRequest || e is InternalServerError,
            old(table).has_username(username@) ==> (r matches Err(e) && e matches
                ApiError::BadRequest(m) && m@ == username_exists_msg()),
            !old(table).has_username(username@) && old(table).has_email(email@) ==> (r matches
                Err(e) && e matches ApiError::BadRequest(m) && m@ == email_exists_msg()),
            r matches Err(e) ==> (e matches ApiError::BadRequest(m) ==> (m@
                == username_exists_msg() && old(table).has_username(username@)) || (m@
                == email_exists_msg() && !old(table).has_username(username@) && old(
                table,
            ).has_email(email@))),
            r matches Err(e) ==> (e matches ApiError::InternalServerError(m) ==> !old(
                table,
            ).has_username(username@) && !old(table).has_email(email@) && m@
                == hashing_error_msg()),
            !old(table).has_username(username@) && !old(table).has_email(email@) ==> (r is Ok || (
            r matches Err(e) && e matches ApiError::InternalServerError(m) && m@
                == hashing_error_msg())),
    {
        if table.username_taken(username) {
            return Err(ApiError::BadRequest(String::from_str("Username already exists")));
        }
        if table.email_taken(email) {
            return Err(ApiError::BadRequest(String::from_str("Email already exists")));
        }
        let password_hash = match self.hash_password(password) {
            Ok(h) => h,
            Err(e) => {
                return Err(e);
            },
        };
        let u = table.insert(username.to_owned(), email.to_owned(), password_hash, now);
        Ok(u)
    }

    /// Stamps the user's last-login time; every other row is untouched.
    pub fn update_last_login(&self, table: &mut UserTable, user_id: u128, now: i64) -> (r: Result<
        (),
        ApiError,
    >)
        requires
            old(table).wf(),
        ensures
            final(table).wf(),
            r is Ok,
            final(table).rows().len() == old(table).rows().len(),
            final(table).spec_next_id() == old(table).spec_next_id(),
            forall|i: int|
                0 <= i < old(table).rows().len() ==> #[trigger] final(table).rows()[i] == (if old(
                    table,
                ).rows()[i].id == user_id {
                    crate::users::with_login(old(table).rows()[i], now)
                } else {
                    old(table).rows()[i]
                }),
    {
        table.set_last_login(user_id, now);
        Ok(())
    }
}

/// Law: a token issued for subject `sub` at `t0` with lifetime `ttl`
/// carries claims that pass verification at every `t` with `t0 <= t <
/// t0 + ttl` and are rejected as expired at every `t >= t0 + ttl`; by the
/// contract of `verify_token`, the verified subject is `sub` itself.
pub proof fn lemma_token_lifecycle(
    token: Seq<char>,
    sub: Seq<char>,
    t0: i64,
    ttl: i64,
    t: i64,
    secret: Seq<char>,
)
    requires
        i64::MIN <= t0 + ttl <= i64::MAX,
        jwt_claims(token, secret) == Some((sub, (t0 + ttl) as i64, t0)),
    ensures
        t < t0 + ttl ==> (jwt_claims(token, secret) matches Some(t3) && t < t3.1 && t3.0 == sub),
        t >= t0 + ttl ==> (jwt_claims(token, secret) matches Some(t3) && t >= t3.1),
{
}

} // verus!
