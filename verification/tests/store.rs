//! Board store behaviour on concrete directories.
use boardstore::boards::{
    create_board, delete_board, delete_board_asset, load_all_boards, load_board, save_board,
    update_board,
};
use boardstore::types::{Asset, Board, BoardUpdate, DirEntry, StoreError};

fn empty_update() -> BoardUpdate {
    BoardUpdate {
        name: None,
        bg_color: None,
        layers: None,
        assets: None,
        thumbnail: None,
        view_state: None,
        strokes: None,
        objects: None,
        groups: None,
    }
}

fn sample_asset(id: u64, name: &str, src: &str) -> Asset {
    Asset { id, name: name.to_string(), src: src.to_string(), tags: None, metadata: None }
}

fn full_board(id: u64) -> Board {
    Board {
        id,
        name: "Mood".to_string(),
        bg_color: "#202020".to_string(),
        created_at: id,
        updated_at: id,
        layers: Vec::new(),
        assets: vec![
            sample_asset(1, "sunset", "a.png"),
            sample_asset(2, "dawn", "b.png"),
            sample_asset(3, "noon", "c.png"),
        ],
        thumbnail: Some("data:image/png;base64,AAAA".to_string()),
        view_state: Some("{\"zoom\":2}".to_string()),
        strokes: Some("[{\"points\":[1,2]}]".to_string()),
        objects: Some("[{\"kind\":\"note\"}]".to_string()),
        groups: Some("[[1,2]]".to_string()),
    }
}

#[test]
fn create_then_load_returns_equal_board() {
    let mut entries: Vec<DirEntry> = Vec::new();
    let (board, plan) = create_board(&mut entries, "My Board".to_string(), "#fff".to_string(), 1000);
    assert_eq!(board.id, 1000);
    assert_eq!(board.created_at, board.updated_at);
    assert_eq!(plan.write_file, "my-board-1000.json");
    assert_eq!(plan.remove_file, None);
    let loaded = load_board(&entries, 1000).unwrap();
    assert_eq!(loaded, board);
}

#[test]
fn save_then_load_keeps_every_optional_field() {
    let mut entries: Vec<DirEntry> = Vec::new();
    let board = full_board(77);
    save_board(&mut entries, &board);
    let loaded = load_board(&entries, 77).unwrap();
    assert_eq!(loaded, board);
    assert_eq!(loaded.thumbnail.as_deref(), Some("data:image/png;base64,AAAA"));
    assert_eq!(loaded.view_state.as_deref(), Some("{\"zoom\":2}"));
    assert_eq!(loaded.strokes.as_deref(), Some("[{\"points\":[1,2]}]"));
    assert_eq!(loaded.objects.as_deref(), Some("[{\"kind\":\"note\"}]"));
    assert_eq!(loaded.groups.as_deref(), Some("[[1,2]]"));
}

#[test]
fn rename_then_list_yields_one_entry() {
    let mut entries: Vec<DirEntry> = Vec::new();
    create_board(&mut entries, "Old Name".to_string(), "#fff".to_string(), 5);
    let mut u = empty_update();
    u.name = Some("New Name".to_string());
    let (renamed, plan) = update_board(&mut entries, 5, u, 9).unwrap();
    assert_eq!(renamed.name, "New Name");
    assert_eq!(plan.remove_file, Some("old-name-5.json".to_string()));
    assert_eq!(plan.write_file, "new-name-5.json");
    let listing = load_all_boards(&entries);
    let matching: Vec<_> = listing.iter().filter(|m| m.id == 5).collect();
    assert_eq!(matching.len(), 1);
    assert_eq!(matching[0].name, "New Name");
    assert_eq!(entries.len(), 1);
}

#[test]
fn delete_missing_board_is_not_found() {
    let mut entries: Vec<DirEntry> = Vec::new();
    let err = delete_board(&mut entries, 42).unwrap_err();
    assert_eq!(err, StoreError::NotFound { board_id: 42 });
    assert_eq!(err.missing_board_id(), 42);
    assert_eq!(err.message(), "Board 42 not found");
}

#[test]
fn delete_existing_board_removes_it_from_listing() {
    let mut entries: Vec<DirEntry> = Vec::new();
    create_board(&mut entries, "A".to_string(), "#fff".to_string(), 1);
    create_board(&mut entries, "B".to_string(), "#000".to_string(), 2);
    let removed = delete_board(&mut entries, 1).unwrap();
    assert_eq!(removed, "a-1.json");
    let listing = load_all_boards(&entries);
    assert!(listing.iter().all(|m| m.id != 1));
    assert_eq!(listing.len(), 1);
    assert_eq!(listing[0].id, 2);
}

#[test]
fn load_missing_board_is_not_found() {
    let entries: Vec<DirEntry> = Vec::new();
    let err = load_board(&entries, 9).unwrap_err();
    assert_eq!(err, StoreError::NotFound { board_id: 9 });
}

#[test]
fn corrupt_entries_are_skipped_by_every_scan() {
    let mut entries: Vec<DirEntry> = Vec::new();
    entries.push(DirEntry { file_name: "junk.json".to_string(), doc: None });
    let board = full_board(3);
    save_board(&mut entries, &board);
    entries.push(DirEntry { file_name: "more-junk.json".to_string(), doc: None });
    let listing = load_all_boards(&entries);
    assert_eq!(listing.len(), 1);
    assert_eq!(listing[0].id, 3);
    assert_eq!(load_board(&entries, 3).unwrap(), full_board(3));
}

#[test]
fn empty_update_changes_only_the_timestamp() {
    let mut entries: Vec<DirEntry> = Vec::new();
    let board = full_board(50);
    save_board(&mut entries, &board);
    let (updated, _) = update_board(&mut entries, 50, empty_update(), 60).unwrap();
    assert_eq!(updated.updated_at, 60);
    let mut expected = full_board(50);
    expected.updated_at = 60;
    assert_eq!(updated, expected);
}

#[test]
fn update_missing_board_is_not_found() {
    let mut entries: Vec<DirEntry> = Vec::new();
    let err = update_board(&mut entries, 7, empty_update(), 8).unwrap_err();
    assert_eq!(err, StoreError::NotFound { board_id: 7 });
}

#[test]
fn partial_update_overwrites_only_present_fields() {
    let mut entries: Vec<DirEntry> = Vec::new();
    let board = full_board(10);
    save_board(&mut entries, &board);
    let mut u = empty_update();
    u.bg_color = Some("#abcdef".to_string());
    u.thumbnail = Some("data:image/png;base64,BBBB".to_string());
    let (updated, _) = update_board(&mut entries, 10, u, 99).unwrap();
    assert_eq!(updated.bg_color, "#abcdef");
    assert_eq!(updated.thumbnail.as_deref(), Some("data:image/png;base64,BBBB"));
    assert_eq!(updated.name, "Mood");
    assert_eq!(updated.view_state, board.view_state);
    assert_eq!(updated.created_at, board.created_at);
    assert_eq!(updated.updated_at, 99);
}

#[test]
fn remove_board_asset_keeps_the_others_and_bumps_updated_at() {
    let mut entries: Vec<DirEntry> = Vec::new();
    let board = full_board(20);
    let before = board.updated_at;
    save_board(&mut entries, &board);
    let (after, _) = delete_board_asset(&mut entries, 20, 2, 30).unwrap();
    assert!(after.updated_at >= before);
    assert_eq!(after.assets.len(), 2);
    assert_eq!(after.assets[0], sample_asset(1, "sunset", "a.png"));
    assert_eq!(after.assets[1], sample_asset(3, "noon", "c.png"));
    assert_eq!(after.layers, board.layers);
    assert_eq!(after.name, board.name);
    let reloaded = load_board(&entries, 20).unwrap();
    assert_eq!(reloaded, after);
}

#[test]
fn remove_board_asset_on_missing_board_is_not_found() {
    let mut entries: Vec<DirEntry> = Vec::new();
    let err = delete_board_asset(&mut entries, 4, 1, 5).unwrap_err();
    assert_eq!(err, StoreError::NotFound { board_id: 4 });
}

#[test]
fn saving_same_id_same_name_overwrites_in_place() {
    let mut entries: Vec<DirEntry> = Vec::new();
    let mut board = full_board(8);
    save_board(&mut entries, &board);
    board.bg_color = "#ff0000".to_string();
    let plan = save_board(&mut entries, &board);
    assert_eq!(plan.remove_file, None);
    assert_eq!(entries.len(), 1);
    assert_eq!(load_board(&entries, 8).unwrap().bg_color, "#ff0000");
}
