use lkjmcrs::inventory::{Inventory, InventorySlot};
use lkjmcrs::names::names_under_prefix;
use lkjmcrs::store::{
    check_home_limit, checked_hotbar, checked_u8, home_key, home_prefix, profile_key, profile_upsert_sql,
    slot_from_row, validate_inventory, validate_location, PlayerStoreError, MAX_HOMES, OVERWORLD,
};

fn slot(slot: i32, count: u8) -> InventorySlot {
    InventorySlot { slot, item_id: "minecraft:stone".to_string(), count, data: None }
}

#[test]
fn inventories_are_checked_before_storage() {
    let good = Inventory { selected_hotbar_slot: 8, slots: vec![slot(0, 1), slot(35, 64)] };
    assert!(validate_inventory(&good).is_ok());
    let bad_selected = Inventory { selected_hotbar_slot: 9, slots: vec![] };
    assert!(matches!(
        validate_inventory(&bad_selected),
        Err(PlayerStoreError::InvalidSelectedHotbarSlot)
    ));
    let negative = Inventory { selected_hotbar_slot: 0, slots: vec![slot(-1, 1)] };
    assert!(matches!(validate_inventory(&negative), Err(PlayerStoreError::InvalidInventorySlot)));
    let empty = Inventory { selected_hotbar_slot: 0, slots: vec![slot(3, 0)] };
    assert!(matches!(validate_inventory(&empty), Err(PlayerStoreError::InvalidInventorySlot)));
}

#[test]
fn locations_must_be_named_and_in_the_overworld() {
    assert!(validate_location("base", OVERWORLD).is_ok());
    assert!(matches!(validate_location("", OVERWORLD), Err(PlayerStoreError::InvalidLocation)));
    assert!(matches!(
        validate_location("base", "minecraft:the_nether"),
        Err(PlayerStoreError::InvalidLocation)
    ));
}

#[test]
fn stored_numbers_are_range_checked() {
    assert_eq!(checked_u8(0).unwrap(), 0);
    assert_eq!(checked_u8(255).unwrap(), 255);
    assert!(matches!(checked_u8(256), Err(PlayerStoreError::InvalidInventorySlot)));
    assert!(matches!(checked_u8(-1), Err(PlayerStoreError::InvalidInventorySlot)));
    assert_eq!(checked_hotbar(8).unwrap(), 8);
    assert!(matches!(checked_hotbar(9), Err(PlayerStoreError::InvalidSelectedHotbarSlot)));
    assert!(matches!(checked_hotbar(300), Err(PlayerStoreError::InvalidInventorySlot)));
}

#[test]
fn slots_are_read_from_rows() {
    let s = slot_from_row((4, "minecraft:dirt".to_string(), 12, Some("{}".to_string()))).unwrap();
    assert_eq!(s.slot, 4);
    assert_eq!(s.item_id, "minecraft:dirt");
    assert_eq!(s.count, 12);
    assert_eq!(s.data.as_deref(), Some("{}"));
    assert!(slot_from_row((-1, "x".to_string(), 1, None)).is_err());
    assert!(slot_from_row((1, "x".to_string(), 0, None)).is_err());
    assert!(slot_from_row((1, "x".to_string(), 256, None)).is_err());
}

#[test]
fn the_home_limit_only_stops_new_homes() {
    assert_eq!(MAX_HOMES, 16);
    assert!(check_home_limit(false, 15).is_ok());
    assert!(matches!(check_home_limit(false, 16), Err(PlayerStoreError::HomeLimitExceeded)));
    assert!(check_home_limit(true, 16).is_ok());
}

#[test]
fn home_keys_hold_the_hyphenated_uuid() {
    assert_eq!(home_prefix(7), "00000000-0000-0000-0000-000000000007/");
    assert_eq!(home_key(7, "base"), "00000000-0000-0000-0000-000000000007/base");
    assert_eq!(
        home_key(0x0123456789abcdef0123456789abcdef, "spawnish"),
        "01234567-89ab-cdef-0123-456789abcdef/spawnish"
    );
}

#[test]
fn saved_homes_are_listed_for_their_owner_only() {
    let keys = vec![home_key(7, "spawnish"), home_key(8, "other"), home_key(7, "base")];
    assert_eq!(names_under_prefix(&keys, &home_prefix(7)), vec!["base".to_string(), "spawnish".to_string()]);
    assert_eq!(names_under_prefix(&keys, &home_prefix(8)), vec!["other".to_string()]);
    assert!(names_under_prefix(&keys, &home_prefix(9)).is_empty());
}

#[test]
fn the_profile_statement_updates_on_conflict() {
    let sql = profile_upsert_sql();
    assert!(sql.starts_with("INSERT INTO player_profiles"));
    assert!(sql.contains("ON CONFLICT(uuid) DO UPDATE SET"));
}

#[test]
fn profile_keys_are_the_hyphenated_uuid() {
    assert_eq!(profile_key(7), "00000000-0000-0000-0000-000000000007");
    assert_eq!(
        profile_key(0x0123456789abcdef0123456789abcdef),
        "01234567-89ab-cdef-0123-456789abcdef"
    );
}
