//! Stateless signed-token lifecycle: claims, issuance and verification,
//! wrapping a standard signed-claims scheme (HS256).

use vstd::prelude::*;

verus! {

/// The decoded payload of a signed token.
#[derive(Clone, Debug)]
pub struct Claims {
    /// The token subject: a user identifier in canonical string form.
    pub sub: String,
    /// Expiry time, unix seconds.
    pub exp: i64,
    /// Issue time, unix seconds.
    pub iat: i64,
}

#[verifier::external_type_specification]
#[verifier::external_body]
pub struct ExJwtError(jsonwebtoken::errors::Error);

/// The signed token that the claims scheme produces for these claims under
/// this secret. Deterministic: HS256 is a keyed hash of a fixed encoding.
pub uninterp spec fn jwt_token(sub: Seq<char>, exp: i64, iat: i64, secret: Seq<char>) -> Seq<char>;

/// What decoding a token under a secret yields: the claims that were signed,
/// or nothing when the signature does not match or the payload is malformed.
pub uninterp spec fn jwt_claims(token: Seq<char>, secret: Seq<char>) -> Option<(Seq<char>, i64, i64)>;

/// Relies on jsonwebtoken::encode with HS256: the token is a deterministic
/// function of claims and secret, and decoding it under the same secret
/// yields exactly the claims that were signed. Signing cannot fail here:
/// the HMAC-SHA256 signer accepts a secret of any length, and serializing
/// the default header and this fixed claims object is infallible.
#[verifier::external_body]
pub(crate) fn jwt_encode(sub: &str, exp: i64, iat: i64, secret: &str) -> (r: Result<
    String,
    jsonwebtoken::errors::Error,
>)
    ensures
        r is Ok,
        r matches Ok(t) ==> t@ == jwt_token(sub@, exp, iat, secret@) && jwt_claims(t@, secret@)
            == Some((sub@, exp, iat)),
{
    let mut claims = serde_json::Map::new();
    claims.insert("sub".to_string(), serde_json::Value::String(sub.to_string()));
    claims.insert("exp".to_string(), serde_json::Value::from(exp));
    claims.insert("iat".to_string(), serde_json::Value::from(iat));
    jsonwebtoken::encode(
        &jsonwebtoken::Header::default(),
        &serde_json::Value::Object(claims),
        &jsonwebtoken::EncodingKey::from_secret(secret.as_bytes()),
    )
}

/// Relies on jsonwebtoken::decode with HS256, with expiry validation turned
/// off (expiry is the caller's check): deterministic in token and secret;
/// `None` when the signature does not match or the claims are malformed.
#[verifier::external_body]
pub(crate) fn jwt_decode(token: &str, secret: &str) -> (r: Option<Claims>)
    ensures
        match r {
            Some(c) => jwt_claims(token@, secret@) == Some((c.sub@, c.exp, c.iat)),
            None => jwt_claims(token@, secret@) is None,
        },
{
    let mut validation = jsonwebtoken::Validation::new(jsonwebtoken::Algorithm::HS256);
    validation.validate_exp = false;
    validation.required_spec_claims = std::collections::HashSet::new();
    let data = jsonwebtoken::decode::<serde_json::Value>(
        token,
        &jsonwebtoken::DecodingKey::from_secret(secret.as_bytes()),
        &validation,
    ).ok()?;
    let sub = data.claims.get("sub")?.as_str()?.to_string();
    let exp = data.claims.get("exp")?.as_i64()?;
    let iat = data.claims.get("iat")?.as_i64()?;
    Some(Claims { sub, exp, iat })
}

} // verus!
