use retrovault::account::{register, RegisterRequest};
use retrovault::auth_service::AuthService;
use retrovault::errors::ApiError;
use retrovault::guard::AuthMiddleware;
use retrovault::saves::{BlobStore, SaveService, SaveTable};
use retrovault::users::UserTable;

/// The full walkthrough: register alice, read her identity back through the
/// bearer token, upload to a slot, supersede it, download the latest bytes,
/// and watch a second user's delete bounce off without touching the row.
#[test]
fn register_me_upload_reupload_download_foreign_delete() {
    let auth = AuthService::new("walkthrough-secret".to_string(), 3600);
    let saves_svc = SaveService::new("saves".to_string());
    let mut users = UserTable::new();
    let mut table = SaveTable::new();
    let mut blobs = BlobStore::new();
    let game: u128 = 42;

    // register "alice"/"alice@x.com"/"password1" -> created, with token T.
    let reg = register(
        &auth,
        &mut users,
        &RegisterRequest {
            username: "alice".to_string(),
            email: "alice@x.com".to_string(),
            password: "password1".to_string(),
        },
        1_000,
    )
    .expect("register");

    // GET me with `Authorization: Bearer T` -> user "alice".
    let gate = AuthMiddleware.new_transform(auth.clone());
    let header = format!("Bearer {}", reg.token);
    let alice = gate.authenticate(Some(&header), 1_001).expect("bearer accepted");
    let me = auth.get_user_by_id(&users, alice).expect("me");
    assert_eq!(me.username, "alice");

    // Upload save_data [1,2,3] to slot 1 -> a row with slot 1.
    let first = saves_svc
        .create_save_state(&mut table, &mut blobs, alice, game, 1, vec![1, 2, 3], None, None, 1_002)
        .expect("upload");
    assert_eq!(first.slot, 1);

    // Re-upload [9,9] to slot 1 -> exactly one row remains; download gives [9,9].
    let second = saves_svc
        .create_save_state(&mut table, &mut blobs, alice, game, 1, vec![9, 9], None, None, 1_003)
        .expect("re-upload");
    let listing = saves_svc.get_user_saves(&table, alice, game).expect("list");
    assert_eq!(listing.len(), 1);
    let bytes = saves_svc.download(&table, &blobs, second.id, alice).expect("download");
    assert_eq!(bytes.clone(), vec![9u8, 9u8]);

    // A second authenticated user deleting alice's row gets 403 and changes nothing.
    let reg2 = register(
        &auth,
        &mut users,
        &RegisterRequest {
            username: "mallory".to_string(),
            email: "mallory@x.com".to_string(),
            password: "password2".to_string(),
        },
        1_004,
    )
    .expect("register second user");
    let header2 = format!("Bearer {}", reg2.token);
    let mallory = gate.authenticate(Some(&header2), 1_005).expect("second bearer");
    let refused = saves_svc.delete_save_state(&mut table, &mut blobs, second.id, mallory);
    match refused {
        Err(e @ ApiError::Forbidden(_)) => assert_eq!(e.status_code(), 403),
        _ => panic!("foreign delete must be forbidden"),
    }

    // The original row is still retrievable by alice.
    let still = saves_svc.download(&table, &blobs, second.id, alice).expect("still there");
    assert_eq!(still.clone(), vec![9u8, 9u8]);
}
