//! Registration and login flows: input policy validation, uniqueness checks,
//! hashing, token issuance and last-login stamping, over the credential
//! store model.

use vstd::prelude::*;
use vstd::string::{StrSliceExecFns, StringExecFns};
use crate::auth_service::{
    username_exists_msg, email_exists_msg, hashing_error_msg, AuthService,
};
use crate::errors::ApiError;
use crate::ids::uuid_str_of;
use crate::password::bcrypt_check;
use crate::tokens::jwt_claims;
use crate::users::{with_login, User, UserTable};

verus! {

/// What the outside email check answers for a string: the HTML5 email
/// grammar, a pure function of the characters.
pub uninterp spec fn email_ok(email: Seq<char>) -> bool;

/// Relies on validator's email check, a deterministic function of the
/// string alone.
#[verifier::external_body]
pub fn email_valid(email: &str) -> (r: bool)
    ensures
        r == email_ok(email@),
{
    validator::ValidateEmail::validate_email(&email)
}

/// Policy owned by this core: username length 3 to 50 characters.
pub open spec fn username_len_ok(u: Seq<char>) -> bool {
    3 <= u.len() <= 50
}

/// Policy owned by this core: password length at least 8 characters.
pub open spec fn password_len_ok(p: Seq<char>) -> bool {
    p.len() >= 8
}

/// A registration input passes the whole policy.
pub open spec fn registration_valid(u: Seq<char>, e: Seq<char>, p: Seq<char>) -> bool {
    username_len_ok(u) && email_ok(e) && password_len_ok(p)
}

/// The structured message listing exactly the failing fields.
pub open spec fn validation_msg(bad_username: bool, bad_email: bool, bad_password: bool) -> Seq<
    char,
> {
    (if bad_username {
        "username must be 3 to 50 characters; "@
    } else {
        Seq::<char>::empty()
    }) + (if bad_email {
        "email must be a valid email address; "@
    } else {
        Seq::<char>::empty()
    }) + (if bad_password {
        "password must be at least 8 characters; "@
    } else {
        Seq::<char>::empty()
    })
}

/// The one message both credential failures share: no enumeration signal.
pub open spec fn invalid_credentials_msg() -> Seq<char> {
    "Invalid email or password"@
}

fn build_validation_msg(bad_username: bool, bad_email: bool, bad_password: bool) -> (m: String)
    ensures
        m@ == validation_msg(bad_username, bad_email, bad_password),
{
    let mut m = String::new();
    if bad_username {
        m.append("username must be 3 to 50 characters; ");
    }
    if bad_email {
        m.append("email must be a valid email address; ");
    }
    if bad_password {
        m.append("password must be at least 8 characters; ");
    }
    assert(m@ =~= validation_msg(bad_username, bad_email, bad_password));
    m
}

/// A registration request as decoded from the transport layer.
pub struct RegisterRequest {
    pub username: String,
    pub email: String,
    pub password: String,
}

impl RegisterRequest {
    /// Accepts exactly the inputs that meet the policy; the error lists the
    /// failing fields.
    pub fn validate(&self) -> (r: Result<(), ApiError>)
        ensures
            r is Ok <==> registration_valid(self.username@, self.email@, self.password@),
            r matches Err(e) ==> e matches ApiError::ValidationError(m) && m@ == validation_msg(
                !username_len_ok(self.username@),
                !email_ok(self.email@),
                !password_len_ok(self.password@),
            ),
    {
        let ulen = self.username.as_str().unicode_len();
        let bad_username = ulen < 3 || ulen > 50;
        let bad_email = !email_valid(self.email.as_str());
        let bad_password = self.password.as_str().unicode_len() < 8;
        if bad_username || bad_email || bad_password {
            Err(ApiError::ValidationError(build_validation_msg(bad_username, bad_email, bad_password)))
        } else {
            Ok(())
        }
    }
}

/// A login request as decoded from the transport layer.
pub struct LoginRequest {
    pub email: String,
    pub password: String,
}

impl LoginRequest {
    /// Accepts exactly syntactically valid email addresses.
    pub fn validate(&self) -> (r: Result<(), ApiError>)
        ensures
            r is Ok <==> email_ok(self.email@),
            r matches Err(e) ==> e matches ApiError::ValidationError(m) && m@ == validation_msg(
                false,
                true,
                false,
            ),
    {
        if !email_valid(self.email.as_str()) {
            Err(ApiError::ValidationError(build_validation_msg(false, true, false)))
        } else {
            Ok(())
        }
    }
}

/// A user (hash stripped only at serialization time) and a fresh token.
pub struct AuthResponse {
    pub user: User,
    pub token: String,
}

/// A table state accepts these credentials: some row carries the email and
/// a digest the password verifies against.
pub open spec fn credential_ok(rows: Seq<User>, email: Seq<char>, password: Seq<char>) -> bool {
    exists|i: int|
        0 <= i < rows.len() && (#[trigger] rows[i]).email@ == email && bcrypt_check(
            password,
            rows[i].password_hash@,
        ) == Some(true)
}

/// Registers a user: validate the policy, reject duplicate username or
/// email, hash, insert, issue a token, stamp last-login. Each error comes
/// exactly on its own cause and leaves the store untouched; on a valid,
/// duplicate-free request only the hasher's own failure can refuse.
pub fn register(auth: &AuthService, table: &mut UserTable, req: &RegisterRequest, now: i64) -> (r:
    Result<AuthResponse, ApiError>)
    requires
        old(table).wf(),
        old(table).spec_next_id() < u128::MAX,
        i64::MIN <= now + auth.spec_ttl() <= i64::MAX,
    ensures
        final(table).wf(),
        !registration_valid(req.username@, req.email@, req.password@) ==> *final(table) == *old(
            table,
        ) && (r matches Err(e) && e matches ApiError::ValidationError(m) && m@ == validation_msg(
            !username_len_ok(req.username@),
            !email_ok(req.email@),
            !password_len_ok(req.password@),
        )),
        registration_valid(req.username@, req.email@, req.password@) && old(table).has_username(
            req.username@,
        ) ==> *final(table) == *old(table) && (r matches Err(e) && e matches ApiError::BadRequest(m)
            && m@ == username_exists_msg()),
        registration_valid(req.username@, req.email@, req.password@) && !old(table).has_username(
            req.username@,
        ) && old(table).has_email(req.email@) ==> *final(table) == *old(table) && (r matches Err(e)
            && e matches ApiError::BadRequest(m) && m@ == email_exists_msg()),
        r matches Ok(resp) ==> {
            &&& registration_valid(req.username@, req.email@, req.password@)
            &&& !old(table).has_username(req.username@)
            &&& !old(table).has_email(req.email@)
            &&& resp.user.id == old(table).spec_next_id()
            &&& resp.user.username@ == req.username@
            &&& resp.user.email@ == req.email@
            &&& bcrypt_check(req.password@, resp.user.password_hash@) == Some(true)
            &&& resp.user.created_at == now
            &&& resp.user.last_login is None
            &&& jwt_claims(resp.token@, auth.spec_secret()) == Some(
                (uuid_str_of(resp.user.id), (now + auth.spec_ttl()) as i64, now),
            )
            &&& final(table).rows() == old(table).rows().push(with_login(resp.user, now))
        },
        r is Err ==> *final(table) == *old(table),
        registration_valid(req.username@, req.email@, req.password@) && !old(table).has_username(
            req.username@,
        ) && !old(table).has_email(req.email@) ==> (r is Ok || (r matches Err(e) && e matches
            ApiError::InternalServerError(m) && m@ == hashing_error_msg())),
        r matches Err(e) ==> (e matches ApiError::ValidationError(m) ==> !registration_valid(
            req.username@,
            req.email@,
            req.password@,
        )),
        r matches Err(e) ==> (e matches ApiError::BadRequest(m) ==> registration_valid(
            req.username@,
            req.email@,
            req.password@,
        ) && ((m@ == username_exists_msg() && old(table).has_username(req.username@)) || (m@
            == email_exists_msg() && !old(table).has_username(req.username@) && old(
        table,
        ).has_email(req.email@)))),
        r matches Err(e) ==> (e matches ApiError::InternalServerError(m) ==> registration_valid(
            req.username@,
            req.email@,
            req.password@,
        ) && !old(table).has_username(req.username@) && !old(table).has_email(req.email@) && m@
            == hashing_error_msg()),
        r matches Err(e) ==> e is ValidationError || e is BadRequest || e is InternalServerError,
{
    match req.validate() {
        Ok(()) => (),
        Err(e) => {
            return Err(e);
        },
    }
    let user = match auth.create_user(
        table,
        req.username.as_str(),
        req.email.as_str(),
        req.password.as_str(),
        now,
    ) {
        Ok(u) => u,
        Err(e) => {
            return Err(e);
        },
    };
    let token = match auth.generate_token(user.id, now) {
        Ok(t) => t,
        Err(e) => {
            return Err(e);
        },
    };
    let ghost mid = *table;
    match auth.update_last_login(table, user.id, now) {
        Ok(()) => (),
        Err(e) => {
            return Err(e);
        },
    }
    proof {
        let n = old(table).rows().len() as int;
        assert forall|i: int| 0 <= i < n implies (#[trigger] mid.rows()[i]).id != user.id by {
            assert(mid.rows()[i] == old(table).rows()[i]);
        }
        assert(mid.rows()[n] == user);
        assert(table.rows() =~= old(table).rows().push(with_login(user, now)));
    }
    Ok(AuthResponse { user, token })
}

/// Logs a user in: any lookup or password failure yields one and the same
/// generic message (no account-enumeration signal), and that message comes
/// only on a genuine credential failure; correct credentials are owed
/// success. Success stamps the last-login time and issues a token for the
/// row's id.
pub fn login(auth: &AuthService, table: &mut UserTable, req: &LoginRequest, now: i64) -> (r: Result<
    AuthResponse,
    ApiError,
>)
    requires
        old(table).wf(),
        i64::MIN <= now + auth.spec_ttl() <= i64::MAX,
    ensures
        final(table).wf(),
        final(table).rows().len() == old(table).rows().len(),
        r is Err ==> *final(table) == *old(table),
        !email_ok(req.email@) ==> (r matches Err(e) && e matches ApiError::ValidationError(m) && m@
            == validation_msg(false, true, false)),
        email_ok(req.email@) && !old(table).has_email(req.email@) ==> (r matches Err(e) && e
            matches ApiError::Unauthorized(m) && m@ == invalid_credentials_msg()),
        email_ok(req.email@) && old(table).has_email(req.email@) && (forall|i: int|
            0 <= i < old(table).rows().len() && (#[trigger] old(table).rows()[i]).email@
                == req.email@ ==> bcrypt_check(req.password@, old(table).rows()[i].password_hash@)
                == Some(false)) ==> (r matches Err(e) && e matches ApiError::Unauthorized(m) && m@
            == invalid_credentials_msg()),
        email_ok(req.email@) && old(table).has_email(req.email@) && (forall|i: int|
            0 <= i < old(table).rows().len() && (#[trigger] old(table).rows()[i]).email@
                == req.email@ ==> bcrypt_check(req.password@, old(table).rows()[i].password_hash@)
                is None) ==> (r matches Err(e) && e matches ApiError::InternalServerError(m) && m@
            == hashing_error_msg()),
        email_ok(req.email@) && credential_ok(old(table).rows(), req.email@, req.password@)
            ==> r is Ok,
        r matches Err(e) ==> (e matches ApiError::Unauthorized(m) ==> m@
            == invalid_credentials_msg() && !credential_ok(
            old(table).rows(),
            req.email@,
            req.password@,
        )),
        r matches Err(e) ==> e is ValidationError || e is Unauthorized || e
            is InternalServerError,
        r matches Ok(resp) ==> {
            &&& email_ok(req.email@)
            &&& credential_ok(old(table).rows(), req.email@, req.password@)
            &&& exists|i: int|
                0 <= i < old(table).rows().len() && #[trigger] old(table).rows()[i] == resp.user
            &&& resp.user.email@ == req.email@
            &&& bcrypt_check(req.password@, resp.user.password_hash@) == Some(true)
            &&& jwt_claims(resp.token@, auth.spec_secret()) == Some(
                (uuid_str_of(resp.user.id), (now + auth.spec_ttl()) as i64, now),
            )
            &&& forall|k: int|
                0 <= k < old(table).rows().len() ==> #[trigger] final(table).rows()[k] == (if old(
                    table,
                ).rows()[k].id == resp.user.id {
                    with_login(old(table).rows()[k], now)
                } else {
                    old(table).rows()[k]
                })
        },
{
    match req.validate() {
        Ok(()) => (),
        Err(e) => {
            return Err(e);
        },
    }
    let user = match auth.get_user_by_email(&*table, req.email.as_str()) {
        Ok(u) => u.duplicate(),
        Err(_) => {
            return Err(ApiError::Unauthorized(String::from_str("Invalid email or password")));
        },
    };
    let ok = match auth.verify_password(req.password.as_str(), user.password_hash.as_str()) {
        Ok(b) => b,
        Err(e) => {
            return Err(e);
        },
    };
    if !ok {
        return Err(ApiError::Unauthorized(String::from_str("Invalid email or password")));
    }
    let token = match auth.generate_token(user.id, now) {
        Ok(t) => t,
        Err(e) => {
            return Err(e);
        },
    };
    match auth.update_last_login(table, user.id, now) {
        Ok(()) => (),
        Err(e) => {
            return Err(e);
        },
    }
    Ok(AuthResponse { user, token })
}

/// Law: credentials accepted by `register` are accepted by `login`. After a
/// successful registration the table contains exactly one row with the
/// registered email; that row's digest verifies against the registered
/// password, and its id is the registered id — so a login under these
/// credentials can only answer with a token for the registered id.
pub proof fn lemma_register_then_login(t: UserTable, u: User, password: Seq<char>, now: i64)
    requires
        t.wf(),
        t.rows().len() > 0,
        t.rows().last() == with_login(u, now),
        bcrypt_check(password, u.password_hash@) == Some(true),
    ensures
        credential_ok(t.rows(), u.email@, password),
        forall|i: int|
            0 <= i < t.rows().len() && (#[trigger] t.rows()[i]).email@ == u.email@ ==> t.rows()[i].id
                == u.id,
{
    let n = t.rows().len() as int;
    assert(t.rows()[n - 1] == with_login(u, now));
    assert(t.rows()[n - 1].email@ == u.email@);
    assert(t.rows()[n - 1].password_hash@ == u.password_hash@);
    assert(credential_ok(t.rows(), u.email@, password));
    assert forall|i: int|
        0 <= i < n && (#[trigger] t.rows()[i]).email@ == u.email@ implies t.rows()[i].id
        == u.id by {
        if i != n - 1 {
            assert(t.rows()[i].email@ != t.rows()[n - 1].email@);
        }
    }
}

} // verus!
