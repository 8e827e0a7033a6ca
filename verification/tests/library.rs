//! Shared asset library behaviour on concrete asset arrays.
use boardstore::assets::{add_to_all_assets, delete_from_all_assets, update_asset};
use boardstore::types::Asset;

fn asset(id: u64, name: &str, src: &str) -> Asset {
    Asset { id, name: name.to_string(), src: src.to_string(), tags: None, metadata: None }
}

#[test]
fn dedup_insert_same_key_twice_returns_same_id_and_grows_once() {
    let mut assets: Vec<Asset> = Vec::new();
    let first = add_to_all_assets(
        &mut assets,
        "sunset".to_string(),
        "a.png".to_string(),
        Some(vec!["warm".to_string()]),
        Some("{\"w\":640}".to_string()),
        100,
    );
    let second = add_to_all_assets(
        &mut assets,
        "sunset".to_string(),
        "a.png".to_string(),
        Some(vec!["cold".to_string()]),
        None,
        200,
    );
    assert_eq!(first.id, 100);
    assert_eq!(second.id, 100);
    assert_eq!(second, first);
    assert_eq!(assets.len(), 1);
    // the existing entry keeps its tags and metadata, whatever the second call supplied
    assert_eq!(assets[0].tags, Some(vec!["warm".to_string()]));
    assert_eq!(assets[0].metadata.as_deref(), Some("{\"w\":640}"));
}

#[test]
fn dedup_insert_same_name_different_src_makes_two_entries() {
    let mut assets: Vec<Asset> = Vec::new();
    let a = add_to_all_assets(&mut assets, "sunset".to_string(), "a.png".to_string(), None, None, 1);
    let b = add_to_all_assets(&mut assets, "sunset".to_string(), "b.png".to_string(), None, None, 2);
    assert_eq!(assets.len(), 2);
    assert_ne!(a.id, b.id);
    assert_ne!(a.src, b.src);
}

#[test]
fn dedup_insert_same_src_different_name_makes_two_entries() {
    let mut assets: Vec<Asset> = Vec::new();
    let a = add_to_all_assets(&mut assets, "sunset".to_string(), "a.png".to_string(), None, None, 1);
    let b = add_to_all_assets(&mut assets, "dusk".to_string(), "a.png".to_string(), None, None, 2);
    assert_eq!(assets.len(), 2);
    assert_ne!(a.id, b.id);
    assert_ne!(a.name, b.name);
}

#[test]
fn delete_removes_only_the_given_id_and_is_idempotent() {
    let mut assets = vec![asset(1, "a", "a.png"), asset(2, "b", "b.png"), asset(3, "c", "c.png")];
    delete_from_all_assets(&mut assets, 2);
    assert_eq!(assets, vec![asset(1, "a", "a.png"), asset(3, "c", "c.png")]);
    delete_from_all_assets(&mut assets, 2);
    assert_eq!(assets, vec![asset(1, "a", "a.png"), asset(3, "c", "c.png")]);
}

#[test]
fn update_replaces_the_matching_entry_in_place() {
    let mut assets = vec![asset(1, "a", "a.png"), asset(2, "b", "b.png")];
    update_asset(&mut assets, asset(2, "brighter", "b2.png"));
    assert_eq!(assets, vec![asset(1, "a", "a.png"), asset(2, "brighter", "b2.png")]);
}

#[test]
fn update_with_unknown_id_is_a_silent_no_op() {
    let mut assets = vec![asset(1, "a", "a.png")];
    update_asset(&mut assets, asset(9, "ghost", "g.png"));
    assert_eq!(assets, vec![asset(1, "a", "a.png")]);
}
