use lkjmcrs::chunk::ProbeError;
use lkjmcrs::codec::{write_var_i32, CodecError};
use lkjmcrs::packets::{
    decode_default_spawn, decode_encryption_request, decode_held_item_slot, decode_login_packet,
    decode_login_success_uuid, decode_player_inventory_slot, decode_unload, expect_radius,
    expect_slot, require, spawn_from_packet, validate_ack, validate_cache_center,
    validate_chunk_batch_finished, validate_login_success, validate_update_at,
    validate_update_state, PlayerInventorySlot, QualitySeen, UpdateMismatch, SCALE_RADIUS,
};
use lkjmcrs::persistence::BlockPos;
use lkjmcrs::packets::{
    assert_bootstrap_inventory, decode_inventory_slot_in_order, status_ping_payload,
    validate_status_pong, validate_status_version, finish_scale_batch, validate_login_view_distance,
    MINECRAFT_VERSION, PROTOCOL_VERSION,
};

fn varint(out: &mut Vec<u8>, value: i32) {
    write_var_i32(out, value);
}

fn varints(values: &[i32]) -> Vec<u8> {
    let mut out = Vec::new();
    for v in values {
        varint(&mut out, *v);
    }
    out
}

fn string(out: &mut Vec<u8>, text: &str) {
    varint(out, text.len() as i32);
    out.extend_from_slice(text.as_bytes());
}

fn position(x: i64, y: i64, z: i64) -> Vec<u8> {
    let packed: u64 =
        (((x as u64) & 0x3FF_FFFF) << 38) | (((z as u64) & 0x3FF_FFFF) << 12) | ((y as u64) & 0xFFF);
    packed.to_be_bytes().to_vec()
}

fn phase<T>(result: Result<T, ProbeError>) -> &'static str {
    match result {
        Err(ProbeError::Phase(phase)) => phase,
        _ => "",
    }
}

#[test]
fn chunk_batch_sizes_are_checked() {
    assert!(validate_chunk_batch_finished(varints(&[25]), 25).is_ok());
    assert_eq!(phase(validate_chunk_batch_finished(varints(&[24]), 25)), "chunk batch size");
    assert!(matches!(
        validate_chunk_batch_finished(vec![], 1),
        Err(ProbeError::Codec(CodecError::Eof))
    ));
}

#[test]
fn the_scale_radius_is_expected() {
    assert_eq!(SCALE_RADIUS, 4);
    assert!(expect_radius(varints(&[4])).is_ok());
    assert_eq!(phase(expect_radius(varints(&[8]))), "scale chunk radius");
}

#[test]
fn held_item_slots_are_one_var_int() {
    assert_eq!(decode_held_item_slot(varints(&[3])).unwrap(), 3);
    assert_eq!(phase(decode_held_item_slot(varints(&[3, 0]))), "held item slot trailing");
}

#[test]
fn inventory_slots_decode_with_and_without_items() {
    assert_eq!(
        decode_player_inventory_slot(varints(&[36, 0])).unwrap(),
        PlayerInventorySlot { slot_id: 36, item_count: 0, item_id: None }
    );
    assert_eq!(
        decode_player_inventory_slot(varints(&[0, 64, 1, 0, 0])).unwrap(),
        PlayerInventorySlot { slot_id: 0, item_count: 64, item_id: Some(1) }
    );
    assert_eq!(phase(decode_player_inventory_slot(varints(&[0, 64, 1, 1, 0]))), "slot components");
    assert_eq!(phase(decode_player_inventory_slot(varints(&[0, 64, 1, 0, 2]))), "slot components");
    assert_eq!(
        phase(decode_player_inventory_slot(varints(&[0, 0, 9]))),
        "player inventory trailing"
    );
}

#[test]
fn synchronised_slots_are_compared_field_by_field() {
    let s = PlayerInventorySlot { slot_id: 36, item_count: 2, item_id: Some(10) };
    assert!(expect_slot(&s, 36, 2, Some(10), "slot").is_ok());
    assert_eq!(phase(expect_slot(&s, 36, 2, None, "item")), "item");
    assert_eq!(phase(expect_slot(&s, 36, 3, Some(10), "count")), "count");
    assert_eq!(phase(expect_slot(&s, 37, 2, Some(10), "id")), "id");
}

#[test]
fn block_acks_name_the_sequence() {
    assert!(validate_ack(varints(&[20]), 20).is_ok());
    assert_eq!(phase(validate_ack(varints(&[21]), 20)), "block mutation ack sequence");
    assert_eq!(phase(validate_ack(varints(&[20, 1]), 20)), "block mutation ack trailing");
}

#[test]
fn block_updates_are_checked_at_a_position() {
    let pos = BlockPos::new(48, 80, 0);
    let mut data = position(48, 80, 0);
    varint(&mut data, 10);
    assert!(validate_update_at(data.clone(), pos, 10).is_ok());
    assert!(matches!(
        validate_update_at(data.clone(), pos, 11),
        Err(UpdateMismatch::State { expected: 11, actual: 10, .. })
    ));
    assert!(matches!(
        validate_update_at(data.clone(), BlockPos::new(48, 81, 0), 10),
        Err(UpdateMismatch::Probe(ProbeError::Phase("block mutation update pos")))
    ));
    let mut trailing = data.clone();
    trailing.push(0);
    assert!(matches!(
        validate_update_at(trailing, pos, 10),
        Err(UpdateMismatch::Probe(ProbeError::Phase("block mutation update trailing")))
    ));
}

#[test]
fn block_update_mismatches_report_what_came() {
    let mut data = position(-3, 64, 7);
    varint(&mut data, 1);
    assert!(validate_update_state(data.clone(), BlockPos::new(-3, 64, 7), 1, "place").is_ok());
    assert!(matches!(
        validate_update_state(data.clone(), BlockPos::new(-3, 65, 7), 1, "place"),
        Err(UpdateMismatch::Position { phase: "place", expected: (-3, 65, 7), actual: (-3, 64, 7) })
    ));
    assert!(matches!(
        validate_update_state(data.clone(), BlockPos::new(-3, 64, 7), 0, "break"),
        Err(UpdateMismatch::State { phase: "break", expected: 0, actual: 1 })
    ));
    assert!(matches!(
        validate_update_state(data[..5].to_vec(), BlockPos::new(-3, 64, 7), 1, "place"),
        Err(UpdateMismatch::Probe(ProbeError::Codec(CodecError::Eof)))
    ));
    assert!(matches!(
        validate_update_state(data[..8].to_vec(), BlockPos::new(0, 64, 7), 1, "place"),
        Err(UpdateMismatch::Position { phase: "place", expected: (0, 64, 7), actual: (-3, 64, 7) })
    ));
    assert!(matches!(
        validate_update_state(data[..8].to_vec(), BlockPos::new(-3, 64, 7), 1, "place"),
        Err(UpdateMismatch::Probe(ProbeError::Codec(CodecError::Eof)))
    ));
}

#[test]
fn quality_checks_name_the_first_missing_quality() {
    assert!(require(true, "x").is_ok());
    assert_eq!(phase(require(false, "x")), "x");
    let all = QualitySeen { dry_spawn: true, natural: true, water: true, wood: true };
    assert!(all.require_all().is_ok());
    let no_water = QualitySeen { water: false, wood: false, ..all };
    assert_eq!(phase(no_water.require_all()), "quality water access");
    assert_eq!(phase(QualitySeen::default().require_all()), "quality dry spawn");
    let no_wood = QualitySeen { wood: false, ..all };
    assert_eq!(phase(no_wood.require_all()), "quality generated wood");
}

fn login_packet(game_mode: u8, view_distance: i32) -> Vec<u8> {
    let mut data = Vec::new();
    data.extend_from_slice(&7i32.to_be_bytes());
    data.push(0);
    varint(&mut data, 2);
    string(&mut data, "minecraft:overworld");
    string(&mut data, "minecraft:the_nether");
    varint(&mut data, 100);
    varint(&mut data, view_distance);
    varint(&mut data, 8);
    data.extend_from_slice(&[0, 1, 0]);
    varint(&mut data, 0);
    string(&mut data, "minecraft:overworld");
    data.extend_from_slice(&(-42i64).to_be_bytes());
    data.push(game_mode);
    data
}

#[test]
fn login_packets_give_game_mode_and_view_distance() {
    let login = decode_login_packet(login_packet(0, 32)).unwrap();
    assert_eq!(login.game_mode, 0);
    assert_eq!(login.view_distance, 32);
    let login = decode_login_packet(login_packet(1, 3)).unwrap();
    assert_eq!(login.game_mode, 1);
    assert_eq!(login.view_distance, 3);
    assert_eq!(decode_login_packet(login_packet(255, 3)).unwrap().game_mode, -1);
    let full = login_packet(0, 32);
    assert!(matches!(
        decode_login_packet(full[..full.len() - 1].to_vec()),
        Err(ProbeError::Codec(CodecError::Eof))
    ));
}

fn login_success(name: &str, properties: i32) -> Vec<u8> {
    let mut data = vec![0u8; 15];
    data.push(9);
    string(&mut data, name);
    varint(&mut data, properties);
    data
}

#[test]
fn login_success_names_the_player() {
    assert!(validate_login_success(login_success("Probe", 0), "Probe").is_ok());
    assert_eq!(phase(validate_login_success(login_success("Other", 0), "Probe")), "login success payload");
    assert_eq!(phase(validate_login_success(login_success("Probe", 1), "Probe")), "login success payload");
    let mut trailing = login_success("Probe", 0);
    trailing.push(1);
    assert_eq!(phase(validate_login_success(trailing, "Probe")), "login success trailing bytes");
    assert_eq!(decode_login_success_uuid(login_success("Probe", 0)).unwrap(), 9);
    assert!(matches!(
        decode_login_success_uuid(vec![0; 15]),
        Err(ProbeError::Codec(CodecError::Eof))
    ));
}

#[test]
fn encryption_requests_give_key_and_token() {
    let mut data = Vec::new();
    string(&mut data, "");
    varint(&mut data, 3);
    data.extend_from_slice(&[1, 2, 3]);
    varint(&mut data, 2);
    data.extend_from_slice(&[9, 8]);
    data.push(1);
    assert_eq!(decode_encryption_request(data.clone()).unwrap(), (vec![1, 2, 3], vec![9, 8]));
    let mut unauthenticated = data.clone();
    *unauthenticated.last_mut().unwrap() = 0;
    assert!(decode_encryption_request(unauthenticated).is_err());
    let mut named = Vec::new();
    string(&mut named, "x");
    named.extend_from_slice(&data[1..]);
    assert!(decode_encryption_request(named).is_err());
}

fn spawn_packet(dimension: &str, x: i64, y: i64, z: i64) -> Vec<u8> {
    let mut data = Vec::new();
    string(&mut data, dimension);
    data.extend_from_slice(&position(x, y, z));
    data.extend_from_slice(&0f32.to_be_bytes());
    data.extend_from_slice(&0f32.to_be_bytes());
    data
}

#[test]
fn spawn_positions_are_read_in_the_overworld() {
    assert_eq!(decode_default_spawn(spawn_packet("minecraft:overworld", 0, 80, 0)).unwrap(), (0, 80, 0));
    assert_eq!(spawn_from_packet(spawn_packet("minecraft:overworld", -20, 70, 33)).unwrap(), (-20, 70, 33));
    assert_eq!(
        phase(decode_default_spawn(spawn_packet("minecraft:the_end", 0, 80, 0))),
        "terrain spawn dimension"
    );
    assert_eq!(
        phase(spawn_from_packet(spawn_packet("minecraft:the_end", 0, 80, 0))),
        "quality spawn dimension"
    );
    let mut trailing = spawn_packet("minecraft:overworld", 0, 80, 0);
    trailing.push(0);
    assert_eq!(phase(decode_default_spawn(trailing.clone())), "terrain spawn trailing bytes");
    assert_eq!(spawn_from_packet(trailing).unwrap(), (0, 80, 0));
    let mut nether_only = Vec::new();
    string(&mut nether_only, "minecraft:the_nether");
    assert_eq!(phase(decode_default_spawn(nether_only.clone())), "terrain spawn dimension");
    assert_eq!(phase(spawn_from_packet(nether_only)), "quality spawn dimension");
    let short = spawn_packet("minecraft:overworld", 0, 80, 0);
    assert!(matches!(
        decode_default_spawn(short[..short.len() - 1].to_vec()),
        Err(ProbeError::Codec(CodecError::Eof))
    ));
}

#[test]
fn unload_bodies_give_x_and_z() {
    let mut data = Vec::new();
    data.extend_from_slice(&2i32.to_be_bytes());
    data.extend_from_slice(&(-1i32).to_be_bytes());
    assert_eq!(decode_unload(data).unwrap(), (-1, 2));
    assert!(matches!(decode_unload(vec![0; 7]), Err(ProbeError::Codec(CodecError::Eof))));
}

#[test]
fn cache_centers_are_compared() {
    assert!(validate_cache_center(varints(&[1, 0]), 1, 0, "center").is_ok());
    assert_eq!(phase(validate_cache_center(varints(&[2, 0]), 1, 0, "center")), "center");
    assert_eq!(phase(validate_cache_center(varints(&[1, 5]), 1, 0, "center")), "center");
}

#[test]
fn inventory_slots_must_come_in_order() {
    assert_eq!(decode_inventory_slot_in_order(varints(&[5, 0]), 5).unwrap().slot_id, 5);
    assert_eq!(
        phase(decode_inventory_slot_in_order(varints(&[6, 0]), 5)),
        "player inventory slot order"
    );
}

#[test]
fn the_bootstrap_inventory_holds_one_starter_stone() {
    let empty = |slot_id: i32| PlayerInventorySlot { slot_id, item_count: 0, item_id: None };
    let stone = PlayerInventorySlot { slot_id: 0, item_count: 1, item_id: Some(1) };
    let mut slots = vec![stone];
    slots.extend((1..36).map(empty));
    assert!(assert_bootstrap_inventory(0, &slots).is_ok());
    assert_eq!(phase(assert_bootstrap_inventory(1, &slots)), "bootstrap held slot");
    assert_eq!(phase(assert_bootstrap_inventory(0, &vec![])), "bootstrap inventory");
    let mut no_stone = slots.clone();
    no_stone[0] = empty(0);
    assert_eq!(phase(assert_bootstrap_inventory(0, &no_stone)), "bootstrap starter stone");
    let mut extra = slots.clone();
    extra[20] = PlayerInventorySlot { slot_id: 20, item_count: 2, item_id: Some(3) };
    assert_eq!(phase(assert_bootstrap_inventory(0, &extra)), "bootstrap empty slot");
}

#[test]
fn status_replies_are_checked() {
    assert_eq!(PROTOCOL_VERSION, 774);
    assert_eq!(MINECRAFT_VERSION, "1.21.11");
    assert!(validate_status_version(774, "1.21.11").is_ok());
    assert_eq!(phase(validate_status_version(773, "1.21.11")), "status version");
    assert_eq!(phase(validate_status_version(774, "1.21.10")), "status version");
    assert_eq!(status_ping_payload(), 123i64.to_be_bytes().to_vec());
    assert!(validate_status_pong(&123i64.to_be_bytes().to_vec()).is_ok());
    assert_eq!(phase(validate_status_pong(&124i64.to_be_bytes().to_vec())), "status pong payload");
    assert_eq!(phase(validate_status_pong(&vec![0; 7])), "status pong payload");
}

#[test]
fn scale_batches_hold_one_to_eight_chunks() {
    assert!(finish_scale_batch(varints(&[3]), 3).is_ok());
    assert!(finish_scale_batch(varints(&[8]), 8).is_ok());
    assert_eq!(phase(finish_scale_batch(varints(&[9]), 9)), "scale batch size");
    assert_eq!(phase(finish_scale_batch(varints(&[0]), 0)), "scale batch size");
    assert_eq!(phase(finish_scale_batch(varints(&[2]), 3)), "chunk batch size");
}

#[test]
fn login_view_distance_must_match_the_radius() {
    let login = decode_login_packet(login_packet(0, 4)).unwrap();
    assert!(validate_login_view_distance(login, 4).is_ok());
    assert_eq!(phase(validate_login_view_distance(login, 8)), "login view distance");
}
