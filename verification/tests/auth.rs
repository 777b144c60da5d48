use retrovault::account::{login, register, LoginRequest, RegisterRequest};
use retrovault::auth_service::AuthService;
use retrovault::errors::ApiError;
use retrovault::guard::AuthMiddleware;
use retrovault::ids::{format_uuid, parse_uuid};
use retrovault::users::UserTable;

fn service() -> AuthService {
    AuthService::new("test-secret".to_string(), 3600)
}

fn alice() -> RegisterRequest {
    RegisterRequest {
        username: "alice".to_string(),
        email: "alice@x.com".to_string(),
        password: "password1".to_string(),
    }
}

#[test]
fn register_then_login_succeeds_with_same_credentials() {
    let auth = service();
    let mut users = UserTable::new();
    let reg = register(&auth, &mut users, &alice(), 1_000).expect("register");
    assert_eq!(reg.user.username, "alice");
    assert_eq!(reg.user.email, "alice@x.com");
    assert!(reg.user.last_login.is_none());

    let resp = login(
        &auth,
        &mut users,
        &LoginRequest { email: "alice@x.com".to_string(), password: "password1".to_string() },
        2_000,
    )
    .expect("login");
    assert_eq!(resp.user.id, reg.user.id);

    // The token's verified subject is the registered user id.
    let claims = auth.verify_token(&resp.token, 2_000).expect("verify");
    assert_eq!(claims.sub, format_uuid(reg.user.id));
    assert_eq!(parse_uuid(&claims.sub), Some(reg.user.id));
}

#[test]
fn token_verifies_inside_window_and_expires_after() {
    let auth = service();
    let t0: i64 = 50_000;
    let token = auth.generate_token(7, t0).expect("issue");

    assert!(auth.verify_token(&token, t0).is_ok());
    assert!(auth.verify_token(&token, t0 + 3599).is_ok());

    let expired = auth.verify_token(&token, t0 + 3600);
    match expired {
        Err(ApiError::Unauthorized(m)) => assert_eq!(m, "Token expired"),
        _ => panic!("expected expired token to be rejected"),
    }
    let much_later = auth.verify_token(&token, t0 + 1_000_000);
    assert!(matches!(much_later, Err(ApiError::Unauthorized(_))));
}

#[test]
fn tampered_token_fails_signature_check() {
    let auth = service();
    let token = auth.generate_token(7, 1_000).expect("issue");
    let mut bytes: Vec<char> = token.chars().collect();
    let mid = bytes.len() / 2;
    bytes[mid] = if bytes[mid] == 'A' { 'B' } else { 'A' };
    let tampered: String = bytes.into_iter().collect();
    match auth.verify_token(&tampered, 1_000) {
        Err(ApiError::Unauthorized(m)) => assert_eq!(m, "JWT error"),
        other => panic!("tampered token must not verify: {:?}", other.is_ok()),
    }
}

#[test]
fn token_with_wrong_secret_fails() {
    let auth = service();
    let other = AuthService::new("another-secret".to_string(), 3600);
    let token = auth.generate_token(7, 1_000).expect("issue");
    assert!(other.verify_token(&token, 1_000).is_err());
}

#[test]
fn login_failures_share_one_exact_message() {
    let auth = service();
    let mut users = UserTable::new();
    register(&auth, &mut users, &alice(), 1_000).expect("register");

    let wrong_password = login(
        &auth,
        &mut users,
        &LoginRequest { email: "alice@x.com".to_string(), password: "wrong-password".to_string() },
        2_000,
    );
    let unknown_email = login(
        &auth,
        &mut users,
        &LoginRequest { email: "nobody@x.com".to_string(), password: "password1".to_string() },
        2_000,
    );
    let m1 = match wrong_password {
        Err(ApiError::Unauthorized(m)) => m,
        _ => panic!("wrong password must be unauthorized"),
    };
    let m2 = match unknown_email {
        Err(ApiError::Unauthorized(m)) => m,
        _ => panic!("unknown email must be unauthorized"),
    };
    assert_eq!(m1, m2);
    assert_eq!(m1, "Invalid email or password");
}

#[test]
fn registration_policy_rejects_bad_fields() {
    let auth = service();
    let mut users = UserTable::new();

    let short_username = RegisterRequest {
        username: "ab".to_string(),
        email: "a@x.com".to_string(),
        password: "password1".to_string(),
    };
    match register(&auth, &mut users, &short_username, 0) {
        Err(ApiError::ValidationError(m)) => assert!(m.contains("username")),
        _ => panic!("short username must fail validation"),
    }

    let bad_email = RegisterRequest {
        username: "alice".to_string(),
        email: "not-an-email".to_string(),
        password: "password1".to_string(),
    };
    match register(&auth, &mut users, &bad_email, 0) {
        Err(ApiError::ValidationError(m)) => assert!(m.contains("email")),
        _ => panic!("bad email must fail validation"),
    }

    let short_password = RegisterRequest {
        username: "alice".to_string(),
        email: "a@x.com".to_string(),
        password: "short".to_string(),
    };
    match register(&auth, &mut users, &short_password, 0) {
        Err(ApiError::ValidationError(m)) => assert!(m.contains("password")),
        _ => panic!("short password must fail validation"),
    }
    assert_eq!(users.len(), 0);
}

#[test]
fn duplicate_username_and_email_are_rejected() {
    let auth = service();
    let mut users = UserTable::new();
    register(&auth, &mut users, &alice(), 0).expect("register");

    let same_username = RegisterRequest {
        username: "alice".to_string(),
        email: "other@x.com".to_string(),
        password: "password1".to_string(),
    };
    match register(&auth, &mut users, &same_username, 0) {
        Err(ApiError::BadRequest(m)) => assert_eq!(m, "Username already exists"),
        _ => panic!("duplicate username must be rejected"),
    }

    let same_email = RegisterRequest {
        username: "bob".to_string(),
        email: "alice@x.com".to_string(),
        password: "password1".to_string(),
    };
    match register(&auth, &mut users, &same_email, 0) {
        Err(ApiError::BadRequest(m)) => assert_eq!(m, "Email already exists"),
        _ => panic!("duplicate email must be rejected"),
    }
    assert_eq!(users.len(), 1);
}

#[test]
fn guard_authenticates_bearer_token_and_rejects_the_rest() {
    let auth = service();
    let mut users = UserTable::new();
    let reg = register(&auth, &mut users, &alice(), 1_000).expect("register");
    let gate = AuthMiddleware.new_transform(auth.clone());

    let header = format!("Bearer {}", reg.token);
    let uid = gate.authenticate(Some(&header), 1_500).expect("authenticated");
    assert_eq!(uid, reg.user.id);

    // `GET me` with the verified identity finds the registered user.
    let me = auth.get_user_by_id(&users, uid).expect("me");
    assert_eq!(me.username, "alice");

    match gate.authenticate(None, 1_500) {
        Err(ApiError::Unauthorized(m)) => assert_eq!(m, "Missing authorization header"),
        _ => panic!("missing header must be unauthorized"),
    }
    match gate.authenticate(Some("Basic abc"), 1_500) {
        Err(ApiError::Unauthorized(m)) => assert_eq!(m, "Missing authorization header"),
        _ => panic!("non-bearer header must be unauthorized"),
    }
    match gate.authenticate(Some(&header), 1_000 + 3600) {
        Err(ApiError::Unauthorized(m)) => assert_eq!(m, "Token expired"),
        _ => panic!("stale token must be rejected"),
    }
}

#[test]
fn guard_rejects_signed_token_with_malformed_subject() {
    // A correctly signed token whose subject is not an identifier must be
    // rejected defensively, since the format is attacker-controllable.
    let mut claims = serde_json::Map::new();
    claims.insert("sub".to_string(), serde_json::Value::String("not-a-uuid".to_string()));
    claims.insert("exp".to_string(), serde_json::Value::from(10_000i64));
    claims.insert("iat".to_string(), serde_json::Value::from(1_000i64));
    let token = jsonwebtoken::encode(
        &jsonwebtoken::Header::default(),
        &serde_json::Value::Object(claims),
        &jsonwebtoken::EncodingKey::from_secret("test-secret".as_bytes()),
    )
    .expect("sign");

    let gate = AuthMiddleware.new_transform(service());
    let header = format!("Bearer {}", token);
    match gate.authenticate(Some(&header), 2_000) {
        Err(ApiError::Unauthorized(m)) => assert_eq!(m, "Invalid user ID in token"),
        _ => panic!("malformed subject must be rejected"),
    }
}

#[test]
fn password_hashing_round_trips_and_hides_the_password() {
    let auth = service();
    let digest = auth.hash_password("hunter2-secret").expect("hash");
    assert_ne!(digest, "hunter2-secret");
    assert!(auth.verify_password("hunter2-secret", &digest).expect("verify"));
    assert!(!auth.verify_password("wrong", &digest).expect("verify"));
    assert!(auth.verify_password("anything", "not-a-digest").is_err());
}

#[test]
fn uuid_rendering_matches_the_canonical_form() {
    let id: u128 = 0x0123_4567_89ab_cdef_0011_2233_4455_6677;
    let rendered = format_uuid(id);
    assert_eq!(rendered, uuid::Uuid::from_u128(id).to_string());
    assert_eq!(parse_uuid(&rendered), Some(id));
    assert_eq!(parse_uuid("00000000-0000-0000-0000-000000000001"), Some(1));
    assert_eq!(parse_uuid("not-a-uuid"), None);
    assert_eq!(parse_uuid("00000000-0000-0000-0000-00000000000G"), None);
    // Only the canonical lowercase hyphenated form is accepted.
    assert_eq!(parse_uuid("00000000-0000-0000-0000-00000000000A"), None);
}
