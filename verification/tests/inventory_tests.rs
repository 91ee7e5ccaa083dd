use lkjmcrs::inventory::{Inventory, InventorySlot};
use lkjmcrs::model::PlayerDefaults;

fn slot(slot: i32, item_id: &str, count: u8) -> InventorySlot {
    InventorySlot {
        slot,
        item_id: item_id.to_string(),
        count,
        data: None,
    }
}

#[test]
fn selected_item_can_be_consumed() {
    let mut inventory = Inventory {
        selected_hotbar_slot: 0,
        slots: vec![slot(0, "minecraft:stone", 1)],
    };

    assert!(inventory.consume_selected("minecraft:stone"));
    assert!(inventory.slots.is_empty());
}

#[test]
fn simple_items_stack_before_new_slots() {
    let mut inventory = Inventory {
        selected_hotbar_slot: 0,
        slots: vec![slot(0, "minecraft:dirt", 63)],
    };

    inventory.add_simple_item("minecraft:dirt", 2);

    assert_eq!(inventory.slots[0].count, 64);
    assert_eq!(inventory.slots[1].count, 1);
}

#[test]
fn simple_items_use_synced_slot_bounds() {
    let mut inventory = Inventory {
        selected_hotbar_slot: 0,
        slots: (0..=35)
            .map(|id| slot(id, &format!("minecraft:test_{id}"), 1))
            .collect(),
    };

    inventory.add_simple_item("minecraft:dirt", 1);

    assert_eq!(inventory.slots.len(), 36);
    assert!(Inventory::is_synced_slot(35));
    assert!(!Inventory::is_synced_slot(36));
    assert!(Inventory::is_hotbar_slot(8));
    assert!(!Inventory::is_hotbar_slot(9));
}

#[test]
fn selected_item_ignores_empty_slots() {
    let inventory = Inventory {
        selected_hotbar_slot: 0,
        slots: vec![slot(0, "minecraft:stone", 0)],
    };

    assert_eq!(inventory.selected_item_id(), None);
}

#[test]
fn capacity_detects_full_inventory() {
    let inventory = Inventory {
        selected_hotbar_slot: 0,
        slots: (0..=35)
            .map(|id| slot(id, &format!("minecraft:test_{id}"), 64))
            .collect(),
    };

    assert!(!inventory.can_add_simple_item("minecraft:dirt", 1));
}

#[test]
fn consuming_the_last_item_of_a_stack_leaves_the_rest() {
    let mut inventory = Inventory {
        selected_hotbar_slot: 2,
        slots: vec![slot(0, "minecraft:stone", 5), slot(2, "minecraft:stone", 3)],
    };

    assert_eq!(inventory.selected_item_count("minecraft:stone"), 3);
    assert!(inventory.consume_selected("minecraft:stone"));
    assert_eq!(inventory.selected_item_count("minecraft:stone"), 2);
    assert_eq!(inventory.slots[0].count, 5);
    assert!(!inventory.consume_selected("minecraft:dirt"));
    assert_eq!(inventory.slots.len(), 2);
}

#[test]
fn adding_what_fits_raises_the_count_exactly() {
    let mut inventory = Inventory {
        selected_hotbar_slot: 0,
        slots: vec![slot(0, "minecraft:dirt", 60), slot(1, "minecraft:stone", 64)],
    };
    assert!(inventory.can_add_simple_item("minecraft:dirt", 10));
    inventory.add_simple_item("minecraft:dirt", 10);
    let total: u32 = inventory
        .slots
        .iter()
        .filter(|s| s.item_id == "minecraft:dirt")
        .map(|s| u32::from(s.count))
        .sum();
    assert_eq!(total, 70);
    assert_eq!(inventory.slots[2].slot, 2);
    assert_eq!(inventory.slots[2].count, 6);
}

#[test]
fn a_large_add_fills_one_new_stack_only() {
    let mut inventory = Inventory::for_new_profile(PlayerDefaults::default());
    assert!(inventory.can_add_simple_item("minecraft:dirt", 200));
    inventory.add_simple_item("minecraft:dirt", 200);
    assert_eq!(inventory.slots.len(), 1);
    assert_eq!(inventory.slots[0].count, 64);
}

#[test]
fn slot_lookup_skips_empty_slots() {
    let inventory = Inventory {
        selected_hotbar_slot: 0,
        slots: vec![slot(4, "minecraft:dirt", 0), slot(4, "minecraft:stone", 2)],
    };
    assert_eq!(inventory.slot(4).map(|s| s.item_id.as_str()), Some("minecraft:stone"));
    assert!(inventory.slot(5).is_none());
    assert_eq!(inventory.selected_item_id(), None);
    assert_eq!(Inventory::synced_slot_ids(), 0..=35);
}

#[test]
fn adding_to_a_full_inventory_takes_only_the_room_left() {
    let mut slots: Vec<InventorySlot> =
        (1..=35).map(|id| slot(id, &format!("minecraft:test_{id}"), 64)).collect();
    slots.insert(0, slot(0, "minecraft:dirt", 60));
    let mut inventory = Inventory { selected_hotbar_slot: 0, slots };
    assert!(!inventory.can_add_simple_item("minecraft:dirt", 10));
    assert!(inventory.can_add_simple_item("minecraft:dirt", 4));
    inventory.add_simple_item("minecraft:dirt", 10);
    assert_eq!(inventory.slots.len(), 36);
    assert_eq!(inventory.slots[0].count, 64);
}

fn total(inventory: &Inventory, item_id: &str) -> u32 {
    inventory
        .slots
        .iter()
        .filter(|s| s.item_id == item_id)
        .map(|s| u32::from(s.count))
        .sum()
}

#[test]
fn adding_one_item_leaves_the_others_alone() {
    let mut inventory = Inventory {
        selected_hotbar_slot: 0,
        slots: vec![
            slot(0, "minecraft:stone", 30),
            slot(1, "minecraft:dirt", 60),
            slot(2, "minecraft:stone", 64),
        ],
    };
    inventory.add_simple_item("minecraft:dirt", 40);
    assert_eq!(total(&inventory, "minecraft:stone"), 94);
    assert_eq!(total(&inventory, "minecraft:dirt"), 100);
    assert_eq!(total(&inventory, "minecraft:sand"), 0);
    assert_eq!(inventory.slots[0].count, 30);
    assert_eq!(inventory.slots[2].count, 64);
}
