use retrovault::config::Config;
use retrovault::errors::ApiError;
use retrovault::games::{Console, GameService, GameTable, RomFile};
use retrovault::sql::sql_statements;
use retrovault::text::{parse_i32, parse_u64};

fn nes_console() -> Console {
    Console {
        id: "nes".to_string(),
        name: "Nintendo Entertainment System".to_string(),
        manufacturer: Some("Nintendo".to_string()),
        release_year: Some(1983),
        icon_url: None,
        emulator_core: "fceumm".to_string(),
        supported_extensions: vec![".nes".to_string(), ".zip".to_string()],
    }
}

fn files(entries: &[(&str, i64)]) -> Vec<RomFile> {
    entries
        .iter()
        .map(|(n, s)| RomFile { name: n.to_string(), size_bytes: *s })
        .collect()
}

fn service() -> GameService {
    GameService::new("../storage/roms".to_string())
}

#[test]
fn first_scan_inserts_second_scan_inserts_nothing() {
    let svc = service();
    let console = nes_console();
    let mut games = GameTable::new();
    let listing = files(&[("Super_Mario-Bros.nes", 40_976), ("Zelda.nes", 131_088), ("notes.txt", 10)]);

    let added = svc.scan_console(&mut games, &console, &listing, 500);
    assert_eq!(added, 2);

    // Identical directory, no filesystem change: nothing new.
    let again = svc.scan_console(&mut games, &console, &listing, 600);
    assert_eq!(again, 0);
}

#[test]
fn scan_never_updates_an_existing_row() {
    let svc = service();
    let console = nes_console();
    let mut games = GameTable::new();

    svc.scan_console(&mut games, &console, &files(&[("Zelda.nes", 100)]), 500);
    let before = svc.get_games(&games, Some("nes"), 50, 0).expect("page");
    assert_eq!(before.0.len(), 1);
    assert_eq!(before.0[0].rom_size_bytes, 100);

    // The file changed size on disk; the catalog row must keep its size.
    let added = svc.scan_console(&mut games, &console, &files(&[("Zelda.nes", 999)]), 600);
    assert_eq!(added, 0);
    let after = svc.get_games(&games, Some("nes"), 50, 0).expect("page");
    assert_eq!(after.0.len(), 1);
    assert_eq!(after.0[0].rom_size_bytes, 100);
    assert_eq!(after.0[0].created_at, 500);
}

#[test]
fn scan_derives_titles_and_sizes() {
    let svc = service();
    let console = nes_console();
    let mut games = GameTable::new();
    svc.scan_console(&mut games, &console, &files(&[("Super_Mario-Bros.nes", 40_976)]), 500);

    let (page, total) = svc.get_games(&games, None, 50, 0).expect("page");
    assert_eq!(total, 1);
    assert_eq!(page[0].title, "Super Mario Bros");
    assert_eq!(page[0].rom_filename, "Super_Mario-Bros.nes");
    assert_eq!(page[0].rom_size_bytes, 40_976);
    assert_eq!(page[0].console_id, "nes");
}

#[test]
fn scan_roms_walks_consoles_and_skips_missing_directories() {
    let svc = service();
    let mut games = GameTable::new();
    let consoles = vec![nes_console(), Console {
        id: "snes".to_string(),
        name: "Super Nintendo".to_string(),
        manufacturer: None,
        release_year: None,
        icon_url: None,
        emulator_core: "snes9x".to_string(),
        supported_extensions: vec![".sfc".to_string()],
    }];
    let listings = vec![
        Some(files(&[("Metroid.nes", 1_000), ("skip.bin", 5)])),
        None,  // directory missing: skipped with a warning, not an error
    ];
    let count = svc.scan_roms(&mut games, &consoles, &listings, 500).expect("scan");
    assert_eq!(count, 1);

    let (_, total) = svc.get_games(&games, None, 50, 0).expect("page");
    assert_eq!(total, 1);
}

#[test]
fn game_listing_pages_and_filters() {
    let svc = service();
    let console = nes_console();
    let mut games = GameTable::new();
    let listing = files(&[("a.nes", 1), ("b.nes", 2), ("c.nes", 3), ("d.nes", 4)]);
    svc.scan_console(&mut games, &console, &listing, 0);

    let (page, total) = svc.get_games(&games, Some("nes"), 2, 1).expect("page");
    assert_eq!(total, 4);
    assert_eq!(page.len(), 2);
    assert_eq!(page[0].rom_filename, "b.nes");
    assert_eq!(page[1].rom_filename, "c.nes");

    let (none, zero) = svc.get_games(&games, Some("snes"), 50, 0).expect("page");
    assert!(none.is_empty());
    assert_eq!(zero, 0);

    let (tail, _) = svc.get_games(&games, None, 50, 3).expect("page");
    assert_eq!(tail.len(), 1);

    let game_id = page[0].id;
    let found = svc.get_game(&games, game_id).expect("game");
    assert_eq!(found.rom_filename, "b.nes");
    assert!(matches!(svc.get_game(&games, 99_999), Err(ApiError::NotFound(_))));

    let consoles = vec![nes_console()];
    let found_console = svc.get_console(&consoles, "nes").expect("console");
    assert_eq!(found_console.name, "Nintendo Entertainment System");
    assert!(matches!(svc.get_console(&consoles, "gb"), Err(ApiError::NotFound(_))));
}

#[test]
fn game_listing_is_ordered_by_title() {
    let svc = service();
    let console = nes_console();
    let mut games = GameTable::new();
    svc.scan_console(&mut games, &console, &files(&[("zelda.nes", 1), ("alpha.nes", 2), ("metroid.nes", 3)]), 0);

    let (page, total) = svc.get_games(&games, None, 50, 0).expect("page");
    assert_eq!(total, 3);
    let titles: Vec<&str> = page.iter().map(|g| g.title.as_str()).collect();
    assert_eq!(titles, vec!["alpha", "metroid", "zelda"]);
}

#[test]
fn rescanning_the_same_tree_inserts_nothing() {
    let svc = service();
    let mut games = GameTable::new();
    let consoles = vec![nes_console()];
    let listings = vec![Some(files(&[("a.nes", 1), ("b.nes", 2)]))];

    let first = svc.scan_roms(&mut games, &consoles, &listings, 100).expect("scan");
    assert_eq!(first, 2);
    let second = svc.scan_roms(&mut games, &consoles, &listings, 200).expect("rescan");
    assert_eq!(second, 0);
    let (_, total) = svc.get_games(&games, None, 50, 0).expect("page");
    assert_eq!(total, 2);
}

#[test]
fn rom_path_is_rooted_at_the_storage_tree() {
    let svc = service();
    assert_eq!(
        svc.get_rom_path("nes", "Zelda.nes"),
        "../storage/roms/nes/Zelda.nes"
    );
}

#[test]
fn server_address_joins_host_and_port() {
    let config = Config {
        database_url: "postgres://localhost/retro".to_string(),
        jwt_secret: "secret".to_string(),
        jwt_expiration: 86_400,
        server_host: "127.0.0.1".to_string(),
        server_port: 8080,
        cors_origin: "http://localhost:5173".to_string(),
        rom_storage_path: "../storage/roms".to_string(),
        save_storage_path: "../storage/saves".to_string(),
        max_rom_size_mb: 100,
        rate_limit_per_minute: 60,
    };
    assert_eq!(config.server_address(), "127.0.0.1:8080");
}

#[test]
fn error_kinds_map_to_their_status_codes() {
    assert_eq!(ApiError::NotFound("x".to_string()).status_code(), 404);
    assert_eq!(ApiError::BadRequest("x".to_string()).status_code(), 400);
    assert_eq!(ApiError::Unauthorized("x".to_string()).status_code(), 401);
    assert_eq!(ApiError::Forbidden("x".to_string()).status_code(), 403);
    assert_eq!(ApiError::InternalServerError("x".to_string()).status_code(), 500);
    assert_eq!(ApiError::DatabaseError("x".to_string()).status_code(), 500);
    assert_eq!(ApiError::ValidationError("x".to_string()).status_code(), 400);
    assert_eq!(ApiError::Forbidden("why".to_string()).message(), "why");
    assert_eq!(
        ApiError::NotFound("gone".to_string()).describe(),
        "Not Found: gone"
    );
}

#[test]
fn decimal_parsing_is_exact() {
    assert_eq!(parse_u64("0"), Some(0));
    assert_eq!(parse_u64("18446744073709551615"), Some(u64::MAX));
    assert_eq!(parse_u64("18446744073709551616"), None);
    assert_eq!(parse_u64(""), None);
    assert_eq!(parse_u64("12a"), None);
    assert_eq!(parse_i32("-2147483648"), Some(i32::MIN));
    assert_eq!(parse_i32("2147483647"), Some(i32::MAX));
    assert_eq!(parse_i32("2147483648"), None);
    assert_eq!(parse_i32("-2147483649"), None);
    assert_eq!(parse_i32("-0"), Some(0));
    assert_eq!(parse_i32("-"), None);
    assert_eq!(parse_i32("7"), Some(7));
}

#[test]
fn migration_text_splits_into_clean_statements() {
    let text = "-- users table\nCREATE TABLE users (\n  id UUID\n);\n\n-- pure comment\n;\nINSERT INTO consoles VALUES ('nes')  ;\n";
    let statements = sql_statements(text);
    assert_eq!(statements.len(), 2);
    assert_eq!(statements[0], "CREATE TABLE users (\n  id UUID\n)");
    assert_eq!(statements[1], "INSERT INTO consoles VALUES ('nes')");
    assert!(sql_statements("  \n-- only comments\n  ").is_empty());
}
