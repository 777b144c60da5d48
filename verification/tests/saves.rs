use retrovault::errors::ApiError;
use retrovault::saves::{
    assemble_upload, save_data_filename, screenshot_filename, BlobStore, SaveService, SaveTable,
};

const ALICE: u128 = 1;
const BOB: u128 = 2;
const GAME: u128 = 9;

fn service() -> SaveService {
    SaveService::new("../storage/saves".to_string())
}

#[test]
fn filenames_are_deterministic_and_slot_addressed() {
    let name = save_data_filename(1, 2, 1);
    assert_eq!(
        name,
        "00000000-0000-0000-0000-000000000001_00000000-0000-0000-0000-000000000002_slot1.sav"
    );
    let shot = screenshot_filename(1, 2, 1);
    assert_eq!(
        shot,
        "00000000-0000-0000-0000-000000000001_00000000-0000-0000-0000-000000000002_slot1.png"
    );
    let negative = save_data_filename(1, 2, -3);
    assert!(negative.ends_with("_slot-3.sav"));
    assert_eq!(
        service().get_save_file_path(&name),
        format!("../storage/saves/{}", name)
    );
}

#[test]
fn reupload_to_occupied_slot_leaves_exactly_one_row_with_latest_bytes() {
    let svc = service();
    let mut table = SaveTable::new();
    let mut blobs = BlobStore::new();

    let first = svc
        .create_save_state(&mut table, &mut blobs, ALICE, GAME, 1, vec![1, 2, 3], None, None, 100)
        .expect("first upload");
    assert_eq!(first.slot, 1);

    let saves = svc.get_user_saves(&table, ALICE, GAME).expect("list");
    assert_eq!(saves.len(), 1);

    let second = svc
        .create_save_state(&mut table, &mut blobs, ALICE, GAME, 1, vec![9, 9], None, None, 200)
        .expect("second upload");

    let saves = svc.get_user_saves(&table, ALICE, GAME).expect("list");
    assert_eq!(saves.len(), 1);
    assert_eq!(saves[0].id, second.id);
    assert_eq!(saves[0].created_at, 200);

    let bytes = svc.download(&table, &blobs, second.id, ALICE).expect("download");
    assert_eq!(bytes.clone(), vec![9u8, 9u8]);

    // The superseded row is gone: its id no longer resolves.
    assert!(matches!(
        svc.download(&table, &blobs, first.id, ALICE),
        Err(ApiError::NotFound(_))
    ));
}

#[test]
fn listing_is_ordered_by_slot_ascending() {
    let svc = service();
    let mut table = SaveTable::new();
    let mut blobs = BlobStore::new();
    for slot in [3, 1, 2] {
        svc.create_save_state(&mut table, &mut blobs, ALICE, GAME, slot, vec![slot as u8], None, None, 0)
            .expect("upload");
    }
    // Another user's and another game's rows stay out of the listing.
    svc.create_save_state(&mut table, &mut blobs, BOB, GAME, 1, vec![7], None, None, 0)
        .expect("upload");
    svc.create_save_state(&mut table, &mut blobs, ALICE, GAME + 1, 1, vec![8], None, None, 0)
        .expect("upload");

    let saves = svc.get_user_saves(&table, ALICE, GAME).expect("list");
    let slots: Vec<i32> = saves.iter().map(|s| s.slot).collect();
    assert_eq!(slots, vec![1, 2, 3]);
}

#[test]
fn foreign_saves_are_forbidden_and_untouched() {
    let svc = service();
    let mut table = SaveTable::new();
    let mut blobs = BlobStore::new();
    let save = svc
        .create_save_state(&mut table, &mut blobs, ALICE, GAME, 1, vec![4, 2], None, None, 0)
        .expect("upload");

    match svc.download(&table, &blobs, save.id, BOB) {
        Err(ApiError::Forbidden(m)) => {
            assert_eq!(m, "Not authorized to access this save state")
        },
        _ => panic!("foreign download must be forbidden"),
    }
    match svc.delete_save_state(&mut table, &mut blobs, save.id, BOB) {
        Err(ApiError::Forbidden(m)) => {
            assert_eq!(m, "Not authorized to delete this save state")
        },
        _ => panic!("foreign delete must be forbidden"),
    }

    // The owner still sees the row and the exact bytes.
    let bytes = svc.download(&table, &blobs, save.id, ALICE).expect("still there");
    assert_eq!(bytes.clone(), vec![4u8, 2u8]);
    assert_eq!(svc.get_user_saves(&table, ALICE, GAME).expect("list").len(), 1);
}

#[test]
fn delete_removes_row_and_backing_files() {
    let svc = service();
    let mut table = SaveTable::new();
    let mut blobs = BlobStore::new();
    let save = svc
        .create_save_state(
            &mut table,
            &mut blobs,
            ALICE,
            GAME,
            2,
            vec![1],
            Some(vec![2, 2]),
            Some("mid-boss".to_string()),
            0,
        )
        .expect("upload");
    assert_eq!(save.description.as_deref(), Some("mid-boss"));
    assert!(save.screenshot_filename.is_some());

    svc.delete_save_state(&mut table, &mut blobs, save.id, ALICE).expect("delete");
    assert!(svc.get_user_saves(&table, ALICE, GAME).expect("list").is_empty());
    assert!(matches!(
        svc.download(&table, &blobs, save.id, ALICE),
        Err(ApiError::NotFound(_))
    ));
    match svc.delete_save_state(&mut table, &mut blobs, save.id, ALICE) {
        Err(ApiError::NotFound(m)) => assert_eq!(m, "Resource not found"),
        _ => panic!("second delete must be not-found"),
    }
}

#[test]
fn missing_backing_file_maps_to_not_found() {
    let svc = service();
    let mut table = SaveTable::new();
    let mut blobs = BlobStore::new();
    let save = svc
        .create_save_state(&mut table, &mut blobs, ALICE, GAME, 1, vec![5], None, None, 0)
        .expect("upload");

    // Delete then re-create only the row's file mapping by wiping the store:
    // a fresh store has no bytes for the row's filename.
    let empty = BlobStore::new();
    match svc.download(&table, &empty, save.id, ALICE) {
        Err(ApiError::NotFound(m)) => assert_eq!(m, "Save file not found"),
        _ => panic!("missing blob must be not-found, not a crash"),
    }
}

#[test]
fn upload_assembly_enforces_required_fields() {
    let gid = "00000000-0000-0000-0000-000000000009".to_string();

    match assemble_upload(None, None, None, None, None) {
        Err(ApiError::BadRequest(m)) => assert_eq!(m, "Missing game_id"),
        _ => panic!("missing game_id"),
    }
    match assemble_upload(Some("zzz".to_string()), None, None, None, None) {
        Err(ApiError::BadRequest(m)) => assert_eq!(m, "Invalid game_id UUID"),
        _ => panic!("bad game_id"),
    }
    match assemble_upload(Some(gid.clone()), None, None, None, None) {
        Err(ApiError::BadRequest(m)) => assert_eq!(m, "Missing slot"),
        _ => panic!("missing slot"),
    }
    match assemble_upload(Some(gid.clone()), Some("x1".to_string()), None, None, None) {
        Err(ApiError::BadRequest(m)) => assert_eq!(m, "Invalid slot number"),
        _ => panic!("bad slot"),
    }
    match assemble_upload(Some(gid.clone()), Some("1".to_string()), None, None, None) {
        Err(ApiError::BadRequest(m)) => assert_eq!(m, "Missing save_data"),
        _ => panic!("missing save_data"),
    }

    let req = assemble_upload(
        Some(gid),
        Some("-2".to_string()),
        Some(vec![1, 2, 3]),
        Some(Vec::new()),
        Some(String::new()),
    )
    .expect("assemble");
    assert_eq!(req.game_id, 9);
    assert_eq!(req.slot, -2);
    assert_eq!(req.save_data, vec![1, 2, 3]);
    assert!(req.screenshot.is_none());
    assert!(req.description.is_none());
}
