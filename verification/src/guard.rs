//! The request-interception gate: turns an inbound Authorization header into
//! a verified user identity before any handler runs. A pure gate — no store
//! access, no side effects.

use vstd::prelude::*;
use vstd::string::{StrSliceExecFns, StringExecFns};
use crate::auth_service::{expired_msg, token_error_msg, AuthService};
use crate::errors::ApiError;
use crate::ids::{is_uuid_str, parse_uuid, uuid_str_of};
use crate::tokens::jwt_claims;

verus! {

/// Message for a missing or non-bearer Authorization header.
pub open spec fn missing_auth_msg() -> Seq<char> {
    "Missing authorization header"@
}

/// Message for a verified token whose subject is not an identifier.
pub open spec fn invalid_user_id_msg() -> Seq<char> {
    "Invalid user ID in token"@
}

/// The token carried by a `Bearer` Authorization header, if any.
pub open spec fn spec_bearer(h: Seq<char>) -> Option<Seq<char>> {
    if h.len() >= 7 && h.take(7) == "Bearer "@ {
        Some(h.skip(7))
    } else {
        None
    }
}

/// The authentication stage, wrapped around protected routes.
pub struct AuthMiddleware;

impl AuthMiddleware {
    /// Builds the per-service interceptor around the given verifier.
    pub fn new_transform(&self, auth: AuthService) -> (s: AuthMiddlewareService)
        ensures
            s.spec_auth() == auth,
    {
        AuthMiddlewareService { auth }
    }
}

/// The interceptor itself: holds the token verifier it gates with.
pub struct AuthMiddlewareService {
    auth: AuthService,
}

impl AuthMiddlewareService {
    pub closed spec fn spec_auth(&self) -> AuthService {
        self.auth
    }

    /// Authenticates one request from its Authorization header at time
    /// `now`: demands a `Bearer` token signed under the service secret,
    /// not yet expired, whose subject parses as a user identifier. The
    /// identity handed back is exactly the token's subject.
    pub fn authenticate(&self, authorization: Option<&str>, now: i64) -> (r: Result<u128, ApiError>)
        ensures
            match authorization {
                None => r matches Err(e) && e matches ApiError::Unauthorized(m) && m@
                    == missing_auth_msg(),
                Some(h) => match spec_bearer(h@) {
                    None => r matches Err(e) && e matches ApiError::Unauthorized(m) && m@
                        == missing_auth_msg(),
                    Some(tok) => match jwt_claims(tok, self.spec_auth().spec_secret()) {
                        None => r matches Err(e) && e matches ApiError::Unauthorized(m) && m@
                            == token_error_msg(),
                        Some(t3) => if now >= t3.1 {
                            r matches Err(e) && e matches ApiError::Unauthorized(m) && m@
                                == expired_msg()
                        } else if !is_uuid_str(t3.0) {
                            r matches Err(e) && e matches ApiError::Unauthorized(m) && m@
                                == invalid_user_id_msg()
                        } else {
                            r matches Ok(uid) && uuid_str_of(uid) == t3.0
                        },
                    },
                },
            },
    {
        let h = match authorization {
            Some(h) => h,
            None => {
                return Err(ApiError::Unauthorized(String::from_str("Missing authorization header")));
            },
        };
        let len = h.unicode_len();
        let bearer = len >= 7 && h.get_char(0) == 'B' && h.get_char(1) == 'e' && h.get_char(2)
            == 'a' && h.get_char(3) == 'r' && h.get_char(4) == 'e' && h.get_char(5) == 'r'
            && h.get_char(6) == ' ';
        proof {
            reveal_strlit("Bearer ");
            if len >= 7 {
                if bearer {
                    assert(h@.take(7) =~= "Bearer "@);
                } else {
                    assert(h@.take(7)[0] == h@[0] && h@.take(7)[1] == h@[1] && h@.take(7)[2]
                        == h@[2] && h@.take(7)[3] == h@[3] && h@.take(7)[4] == h@[4] && h@.take(
                        7,
                    )[5] == h@[5] && h@.take(7)[6] == h@[6]);
                }
            }
        }
        if !bearer {
            return Err(ApiError::Unauthorized(String::from_str("Missing authorization header")));
        }
        let token = h.substring_char(7, len);
        assert(token@ =~= h@.skip(7));
        let claims = match self.auth.verify_token(token, now) {
            Ok(c) => c,
            Err(e) => {
                return Err(e);
            },
        };
        match parse_uuid(claims.sub.as_str()) {
            Some(uid) => Ok(uid),
            None => Err(ApiError::Unauthorized(String::from_str("Invalid user ID in token"))),
        }
    }
}

} // verus!
