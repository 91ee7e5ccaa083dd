use lkjmcrs::chunk::ProbeError;
use lkjmcrs::codec::{write_var_i32, CodecError};
use lkjmcrs::entities::{
    decode_item_spawn, validate_collect, validate_destroy, validate_inventory_delta,
    validate_item_metadata,
};
use lkjmcrs::packets::PlayerInventorySlot;

const ITEM_TYPE: i32 = 71;

fn varints(values: &[i32]) -> Vec<u8> {
    let mut out = Vec::new();
    for v in values {
        write_var_i32(&mut out, *v);
    }
    out
}

fn phase<T>(result: Result<T, ProbeError>) -> &'static str {
    match result {
        Err(ProbeError::Phase(phase)) => phase,
        _ => "",
    }
}

fn spawn(entity_id: i32, kind: i32, velocity: u8, object_data: i32) -> Vec<u8> {
    let mut data = varints(&[entity_id]);
    data.extend_from_slice(&[0xAA; 16]);
    data.extend(varints(&[kind]));
    for coordinate in [0.5f64, 80.0, 0.5] {
        data.extend_from_slice(&coordinate.to_be_bytes());
    }
    data.push(velocity);
    data.extend_from_slice(&[0, 0, 0]);
    data.extend(varints(&[object_data]));
    data
}

#[test]
fn item_spawns_give_the_entity_id() {
    assert_eq!(decode_item_spawn(spawn(42, ITEM_TYPE, 0, 0), ITEM_TYPE).unwrap(), 42);
    assert_eq!(decode_item_spawn(spawn(300, ITEM_TYPE, 0, 0), ITEM_TYPE).unwrap(), 300);
}

#[test]
fn item_spawns_are_checked() {
    assert_eq!(phase(decode_item_spawn(spawn(42, 3, 0, 0), ITEM_TYPE)), "item entity type");
    assert_eq!(phase(decode_item_spawn(spawn(42, ITEM_TYPE, 1, 0), ITEM_TYPE)), "item zero velocity");
    assert_eq!(phase(decode_item_spawn(spawn(42, ITEM_TYPE, 0, 5), ITEM_TYPE)), "item object data");
    let mut trailing = spawn(42, ITEM_TYPE, 0, 0);
    trailing.push(0);
    assert_eq!(phase(decode_item_spawn(trailing, ITEM_TYPE)), "item spawn trailing bytes");
    let short = spawn(42, ITEM_TYPE, 0, 0);
    assert!(matches!(
        decode_item_spawn(short[..20].to_vec(), ITEM_TYPE),
        Err(ProbeError::Codec(CodecError::Eof))
    ));
}

fn metadata(entity_id: i32, index: u8, serializer: i32, count: i32, item: i32, marker: u8) -> Vec<u8> {
    let mut data = varints(&[entity_id]);
    data.push(index);
    data.extend(varints(&[serializer, count, item, 0, 0]));
    data.push(marker);
    data
}

#[test]
fn item_metadata_is_checked() {
    assert!(validate_item_metadata(metadata(42, 8, 7, 1, 10, 0xff), 42, 10).is_ok());
    assert_eq!(phase(validate_item_metadata(metadata(41, 8, 7, 1, 10, 0xff), 42, 10)), "item metadata header");
    assert_eq!(phase(validate_item_metadata(metadata(42, 9, 7, 1, 10, 0xff), 42, 10)), "item metadata header");
    assert_eq!(phase(validate_item_metadata(metadata(42, 8, 6, 1, 10, 0xff), 42, 10)), "item metadata slot");
    assert_eq!(phase(validate_item_metadata(metadata(42, 8, 7, 2, 10, 0xff), 42, 10)), "item metadata slot");
    assert_eq!(phase(validate_item_metadata(metadata(42, 8, 7, 1, 11, 0xff), 42, 10)), "item metadata item");
    assert_eq!(phase(validate_item_metadata(metadata(42, 8, 7, 1, 10, 0), 42, 10)), "item metadata terminator");
    let mut components = varints(&[42]);
    components.push(8);
    components.extend(varints(&[7, 1, 10, 1, 0]));
    components.push(0xff);
    assert_eq!(phase(validate_item_metadata(components, 42, 10)), "item metadata components");
}

#[test]
fn collections_and_removals_are_checked() {
    assert!(validate_collect(varints(&[42, 1, 1]), 42).is_ok());
    assert_eq!(phase(validate_collect(varints(&[43, 1, 1]), 42)), "collect payload");
    assert_eq!(phase(validate_collect(varints(&[42, 2, 1]), 42)), "collect payload");
    assert_eq!(phase(validate_collect(varints(&[42, 1, 3]), 42)), "collect count");
    assert!(validate_destroy(varints(&[1, 42]), 42).is_ok());
    assert_eq!(phase(validate_destroy(varints(&[2, 42]), 42)), "destroy payload");
    assert_eq!(phase(validate_destroy(varints(&[1, 41]), 42)), "destroy payload");
}

#[test]
fn pickups_must_land_the_item() {
    assert_eq!(
        validate_inventory_delta(varints(&[0, 1, 1, 0, 0]), 1).unwrap(),
        PlayerInventorySlot { slot_id: 0, item_count: 1, item_id: Some(1) }
    );
    assert_eq!(phase(validate_inventory_delta(varints(&[0, 1, 2, 0, 0]), 1)), "pickup inventory item");
    assert_eq!(phase(validate_inventory_delta(varints(&[0, 0]), 1)), "pickup inventory item");
}
