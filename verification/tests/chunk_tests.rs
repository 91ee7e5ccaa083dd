use lkjmcrs::chunk::{level_chunk_pos, validate_level_chunk_with_light, ProbeError};
use lkjmcrs::codec::write_var_i32;
use lkjmcrs::persistence::{block_state_at, BlockPos};
use lkjmcrs::terrain_chunk::DecodedChunk;
use lkjmcrs::persistence::{check_persisted_block, observe_chunk, spawn_ground};
use lkjmcrs::packets::QualitySeen;
use lkjmcrs::survey::{checked_chunk, CaveSurvey, RiverSurvey, TerrainSurvey, WATER_LEVEL};

const STONE: i32 = 1;
const DIRT: i32 = 10;

fn varint(out: &mut Vec<u8>, value: i32) {
    write_var_i32(out, value);
}

fn single_section(state: i32) -> Vec<u8> {
    let mut out = Vec::new();
    let count: u16 = if state == 0 { 0 } else { 4096 };
    out.extend_from_slice(&count.to_be_bytes());
    out.push(0);
    varint(&mut out, state);
    out.push(0);
    varint(&mut out, 0);
    out
}

/// A four-bit section whose entry `i` points at palette index `index_of(i)`.
fn paletted_section(palette: &[i32], index_of: impl Fn(usize) -> u64) -> Vec<u8> {
    let mut out = Vec::new();
    out.extend_from_slice(&4096u16.to_be_bytes());
    out.push(4);
    varint(&mut out, palette.len() as i32);
    for state in palette {
        varint(&mut out, *state);
    }
    for long in 0..256 {
        let mut value = 0u64;
        for k in 0..16 {
            value |= index_of(long * 16 + k) << (4 * k);
        }
        out.extend_from_slice(&value.to_be_bytes());
    }
    out.push(0);
    varint(&mut out, 0);
    out
}

fn heightmaps(out: &mut Vec<u8>, count: i32) {
    varint(out, count);
    for kind in 0..count {
        varint(out, kind + 1);
        varint(out, 37);
        out.extend_from_slice(&[0u8; 37 * 8]);
    }
}

fn light(out: &mut Vec<u8>) {
    for _ in 0..4 {
        varint(out, 1);
        out.extend_from_slice(&[0u8; 8]);
    }
    varint(out, 26);
    for _ in 0..26 {
        varint(out, 2048);
        out.extend_from_slice(&[0u8; 2048]);
    }
    varint(out, 0);
}

fn chunk_packet(x: i32, z: i32, sections: &[Vec<u8>]) -> Vec<u8> {
    let mut out = Vec::new();
    out.extend_from_slice(&x.to_be_bytes());
    out.extend_from_slice(&z.to_be_bytes());
    heightmaps(&mut out, 2);
    let data: Vec<u8> = sections.iter().flatten().copied().collect();
    varint(&mut out, data.len() as i32);
    out.extend_from_slice(&data);
    varint(&mut out, 0);
    light(&mut out);
    out
}

/// Stone up to y = 79, air above.
fn flat_sections() -> Vec<Vec<u8>> {
    (0..24).map(|section| single_section(if section <= 8 { STONE } else { 0 })).collect()
}

/// Flat stone with one air block at (0, 20, 0).
fn cave_sections() -> Vec<Vec<u8>> {
    let mut sections = flat_sections();
    sections[5] = paletted_section(&[STONE, 0], |i| if i == 4 * 256 { 1 } else { 0 });
    sections
}

/// Flat stone with one dirt block on top at (3, 80, 2).
fn hill_sections() -> Vec<Vec<u8>> {
    let mut sections = flat_sections();
    sections[9] = paletted_section(&[0, DIRT], |i| if i == 2 * 16 + 3 { 1 } else { 0 });
    sections
}

fn phase<T>(result: Result<T, ProbeError>) -> &'static str {
    match result {
        Err(ProbeError::Phase(phase)) => phase,
        _ => "",
    }
}

#[test]
fn well_formed_chunks_are_accepted() {
    assert!(validate_level_chunk_with_light(chunk_packet(0, 0, &flat_sections())).is_ok());
    assert!(validate_level_chunk_with_light(chunk_packet(-3, 7, &cave_sections())).is_ok());
    assert!(validate_level_chunk_with_light(chunk_packet(1, 1, &hill_sections())).is_ok());
}

#[test]
fn chunk_position_is_read_from_the_front() {
    let packet = chunk_packet(3, -2, &flat_sections());
    assert_eq!(level_chunk_pos(&packet).unwrap(), (3, -2));
    assert_eq!(phase(level_chunk_pos(&packet[..6])), "chunk position");
}

#[test]
fn malformed_chunks_are_refused() {
    let mut trailing = chunk_packet(0, 0, &flat_sections());
    trailing.push(0);
    assert_eq!(phase(validate_level_chunk_with_light(trailing)), "chunk trailing bytes");

    let mut packet = chunk_packet(0, 0, &flat_sections());
    packet[8] = 3;
    assert_eq!(phase(validate_level_chunk_with_light(packet)), "heightmap count");

    let mut packet = chunk_packet(0, 0, &flat_sections());
    packet[10] = 36;
    assert_eq!(phase(validate_level_chunk_with_light(packet)), "heightmap long count");

    let mut sections = flat_sections();
    sections[0][2] = 5;
    assert_eq!(
        phase(validate_level_chunk_with_light(chunk_packet(0, 0, &sections))),
        "block palette bits"
    );

    let mut packet = Vec::new();
    packet.extend_from_slice(&0i32.to_be_bytes());
    packet.extend_from_slice(&0i32.to_be_bytes());
    heightmaps(&mut packet, 2);
    let data: Vec<u8> = flat_sections().iter().flatten().copied().collect();
    varint(&mut packet, data.len() as i32 + 1);
    packet.extend_from_slice(&data);
    packet.push(0);
    varint(&mut packet, 0);
    light(&mut packet);
    assert_eq!(phase(validate_level_chunk_with_light(packet)), "chunk data boundary");

    let full = chunk_packet(0, 0, &flat_sections());
    assert!(matches!(
        validate_level_chunk_with_light(full[..full.len() - 10].to_vec()),
        Err(_)
    ));
}

#[test]
fn block_entities_are_refused() {
    let mut packet = Vec::new();
    packet.extend_from_slice(&0i32.to_be_bytes());
    packet.extend_from_slice(&0i32.to_be_bytes());
    heightmaps(&mut packet, 2);
    let data: Vec<u8> = flat_sections().iter().flatten().copied().collect();
    varint(&mut packet, data.len() as i32);
    packet.extend_from_slice(&data);
    varint(&mut packet, 1);
    light(&mut packet);
    assert_eq!(phase(validate_level_chunk_with_light(packet)), "chunk block entities");
}

#[test]
fn flat_terrain_queries() {
    let chunk = DecodedChunk::from_packet(chunk_packet(0, 0, &flat_sections())).unwrap();
    assert_eq!(chunk.surface_y(0, 0), Some(79));
    assert_eq!(chunk.surface_y(15, 15), Some(79));
    assert!(!chunk.has_non_flat_surface());
    assert!(chunk.contains_state(STONE));
    assert!(!chunk.contains_state(DIRT));
    assert!(!chunk.contains_state(0));
    assert!(!chunk.has_enclosed_underground_air());
}

#[test]
fn empty_columns_have_no_surface() {
    let sections: Vec<Vec<u8>> = (0..24).map(|_| single_section(0)).collect();
    let chunk = DecodedChunk::from_packet(chunk_packet(0, 0, &sections)).unwrap();
    assert_eq!(chunk.surface_y(4, 4), None);
    assert!(chunk.has_non_flat_surface());
}

#[test]
fn a_raised_block_makes_the_surface_non_flat() {
    let chunk = DecodedChunk::from_packet(chunk_packet(0, 0, &hill_sections())).unwrap();
    assert_eq!(chunk.surface_y(3, 2), Some(80));
    assert_eq!(chunk.surface_y(2, 3), Some(79));
    assert!(chunk.has_non_flat_surface());
    assert!(chunk.contains_state(DIRT));
}

#[test]
fn enclosed_air_is_found_underground() {
    let chunk = DecodedChunk::from_packet(chunk_packet(0, 0, &cave_sections())).unwrap();
    assert_eq!(chunk.surface_y(0, 0), Some(79));
    assert!(chunk.has_enclosed_underground_air());
}

#[test]
fn decoding_refuses_a_wrong_data_length() {
    let mut packet = Vec::new();
    packet.extend_from_slice(&0i32.to_be_bytes());
    packet.extend_from_slice(&0i32.to_be_bytes());
    heightmaps(&mut packet, 2);
    let data: Vec<u8> = flat_sections().iter().flatten().copied().collect();
    varint(&mut packet, data.len() as i32 - 1);
    packet.extend_from_slice(&data);
    assert_eq!(phase(DecodedChunk::from_packet(packet)), "terrain chunk data boundary");
    let sections = {
        let mut s = flat_sections();
        s[2] = paletted_section(&[STONE], |i| if i == 7 { 3 } else { 0 });
        s
    };
    assert_eq!(
        phase(DecodedChunk::from_packet(chunk_packet(0, 0, &sections))),
        "terrain palette index"
    );
}

#[test]
fn block_states_are_read_at_a_position() {
    let packet = chunk_packet(0, 0, &cave_sections());
    assert_eq!(block_state_at(packet.clone(), BlockPos::new(0, 20, 0)).unwrap(), Some(0));
    assert_eq!(block_state_at(packet.clone(), BlockPos::new(1, 20, 0)).unwrap(), Some(STONE));
    assert_eq!(block_state_at(packet.clone(), BlockPos::new(0, 100, 0)).unwrap(), Some(0));
    assert_eq!(block_state_at(packet.clone(), BlockPos::new(0, -64, 15)).unwrap(), Some(STONE));
    assert_eq!(block_state_at(packet.clone(), BlockPos::new(16, 20, 0)).unwrap(), None);
    assert_eq!(block_state_at(packet, BlockPos::new(0, 320, 0)).unwrap(), None);
}

#[test]
fn block_states_use_floor_division_for_negative_coordinates() {
    let packet = chunk_packet(-1, -1, &hill_sections());
    assert_eq!(block_state_at(packet.clone(), BlockPos::new(-13, 80, -14)).unwrap(), Some(DIRT));
    assert_eq!(block_state_at(packet.clone(), BlockPos::new(-14, 80, -13)).unwrap(), Some(0));
    assert_eq!(block_state_at(packet, BlockPos::new(-17, 80, -14)).unwrap(), None);
}

#[test]
fn block_state_reading_refuses_bad_heightmaps() {
    let mut packet = chunk_packet(0, 0, &flat_sections());
    packet[8] = 1;
    assert_eq!(phase(block_state_at(packet, BlockPos::new(0, 0, 0))), "persist heightmaps");
    let mut packet = chunk_packet(0, 0, &flat_sections());
    packet[10] = 38;
    assert_eq!(phase(block_state_at(packet, BlockPos::new(0, 0, 0))), "persist heightmap longs");
}

#[test]
fn states_are_found_at_a_height() {
    let chunk = DecodedChunk::from_packet(chunk_packet(0, 0, &hill_sections())).unwrap();
    assert!(chunk.contains_state_at_y(DIRT, 80));
    assert!(!chunk.contains_state_at_y(DIRT, 79));
    assert!(chunk.contains_state_at_y(STONE, 79));
    assert!(!chunk.contains_state_at_y(STONE, 81));
    assert!(!chunk.contains_state_at_y(0, 100));
    assert!(!chunk.contains_state_at_y(STONE, 400));
}

#[test]
fn cave_surveys_need_air_and_relief() {
    let mut survey = CaveSurvey::default();
    assert_eq!(phase(survey.verdict()), "cave underground air");
    survey.record(&checked_chunk(chunk_packet(0, 0, &cave_sections())).unwrap());
    assert_eq!(phase(survey.verdict()), "cave natural terrain");
    survey.record(&checked_chunk(chunk_packet(1, 0, &hill_sections())).unwrap());
    assert!(survey.verdict().is_ok());
    survey.record(&checked_chunk(chunk_packet(2, 0, &flat_sections())).unwrap());
    assert!(survey.cave_air && survey.natural);
}

#[test]
fn river_surveys_need_water_at_sea_level() {
    const WATER: i32 = 86;
    assert_eq!(WATER_LEVEL, 72);
    let mut sections = flat_sections();
    sections[8] = paletted_section(&[STONE, WATER], |i| if i == 5 * 256 { 1 } else { 0 });
    let low_water = DecodedChunk::from_packet(chunk_packet(0, 0, &sections)).unwrap();
    let mut survey = RiverSurvey::default();
    survey.record(&low_water, WATER);
    assert!(survey.has_water);
    assert_eq!(phase(survey.verdict()), "river water level");
    let mut sections = flat_sections();
    sections[8] = paletted_section(&[STONE, WATER], |i| if i == 8 * 256 { 1 } else { 0 });
    let level_water = DecodedChunk::from_packet(chunk_packet(0, 0, &sections)).unwrap();
    survey.record(&level_water, WATER);
    assert_eq!(phase(survey.verdict()), "river natural terrain");
    survey.record(&DecodedChunk::from_packet(chunk_packet(0, 0, &hill_sections())).unwrap(), WATER);
    assert!(survey.verdict().is_ok());
    assert_eq!(phase(RiverSurvey::default().verdict()), "river water");
}

#[test]
fn checked_chunks_are_validated_before_decoding() {
    let mut trailing = chunk_packet(0, 0, &flat_sections());
    trailing.push(0);
    assert_eq!(phase(checked_chunk(trailing)), "chunk trailing bytes");
}

#[test]
fn the_persisted_block_is_observed_in_the_login_batch() {
    let target = BlockPos::new(3, 80, 0);
    let here = chunk_packet(0, 0, &hill_sections());
    let elsewhere = chunk_packet(5, 5, &flat_sections());
    let observed = observe_chunk(elsewhere.clone(), Some(DIRT), target, None).unwrap();
    assert_eq!(observed, None);
    let mut hill = hill_sections();
    hill[9] = paletted_section(&[0, DIRT], |i| if i == 3 { 1 } else { 0 });
    let placed = chunk_packet(0, 0, &hill);
    let observed = observe_chunk(placed, Some(DIRT), target, observed).unwrap();
    assert_eq!(observed, Some(DIRT));
    assert!(check_persisted_block(Some(DIRT), observed).is_ok());
    assert_eq!(phase(check_persisted_block(Some(0), observed)), "persisted block state");
    assert!(check_persisted_block(None, None).is_ok());
    assert_eq!(phase(check_persisted_block(Some(0), None)), "persisted block state");
    assert_eq!(observe_chunk(here, None, target, Some(7)).unwrap(), Some(7));
    let mut trailing = elsewhere;
    trailing.push(1);
    assert_eq!(phase(observe_chunk(trailing, Some(0), target, None)), "chunk trailing bytes");
}

#[test]
fn players_stand_on_the_block_below_their_spawn() {
    assert_eq!(spawn_ground(BlockPos::new(0, 80, 0)), BlockPos::new(0, 79, 0));
    assert_eq!(spawn_ground(BlockPos::new(-7, -63, 12)), BlockPos::new(-7, -64, 12));
}

#[test]
fn terrain_surveys_need_relief_and_a_dry_spawn() {
    let mut survey = TerrainSurvey::default();
    assert_eq!(phase(survey.verdict()), "terrain natural variation");
    let flat = checked_chunk(chunk_packet(0, 0, &flat_sections())).unwrap();
    survey.record(&flat, Some(true));
    assert!(!survey.natural && survey.dry_spawn);
    assert_eq!(phase(survey.verdict()), "terrain natural variation");
    let hill = checked_chunk(chunk_packet(1, 0, &hill_sections())).unwrap();
    survey.record(&hill, None);
    assert!(survey.natural && survey.dry_spawn);
    assert!(survey.verdict().is_ok());
    survey.record(&flat, Some(false));
    assert!(survey.natural && !survey.dry_spawn);
    assert_eq!(phase(survey.verdict()), "terrain dry spawn");
}

#[test]
fn quality_records_water_wood_and_relief_per_chunk() {
    const WATER: i32 = 86;
    const LOG: i32 = 140;
    const LEAVES: i32 = 250;
    let mut seen = QualitySeen::default();
    let flat = DecodedChunk::from_packet(chunk_packet(0, 0, &flat_sections())).unwrap();
    seen.record(&flat, WATER, LOG, LEAVES, None);
    assert_eq!(seen, QualitySeen::default());
    let mut sections = flat_sections();
    sections[8] = paletted_section(&[STONE, WATER], |i| if i == 5 * 256 { 1 } else { 0 });
    let wet = DecodedChunk::from_packet(chunk_packet(0, 0, &sections)).unwrap();
    seen.record(&wet, WATER, LOG, LEAVES, Some(true));
    assert_eq!(seen, QualitySeen { dry_spawn: true, natural: false, water: true, wood: false });
    let mut sections = hill_sections();
    sections[9] = paletted_section(&[0, LEAVES], |i| if i == 2 * 16 + 3 { 1 } else { 0 });
    let leafy = DecodedChunk::from_packet(chunk_packet(0, 0, &sections)).unwrap();
    seen.record(&leafy, WATER, LOG, LEAVES, None);
    assert_eq!(seen, QualitySeen { dry_spawn: true, natural: true, water: true, wood: true });
    assert!(seen.require_all().is_ok());
    seen.record(&flat, WATER, LOG, LEAVES, Some(false));
    assert_eq!(phase(seen.require_all()), "quality dry spawn");
    let mut logs = QualitySeen::default();
    let mut sections = flat_sections();
    sections[8] = paletted_section(&[STONE, LOG], |i| if i == 7 { 1 } else { 0 });
    logs.record(&DecodedChunk::from_packet(chunk_packet(0, 0, &sections)).unwrap(), WATER, LOG, LEAVES, None);
    assert!(logs.wood && !logs.water);
}
