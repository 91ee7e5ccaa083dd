use vstd::prelude::*;

use crate::chunk::{lift, var, ProbeError};
use crate::codec::{read_u64, read_u8, read_uuid, spec_read_u64, spec_read_u8, spec_read_uuid, spec_read_var_i32};
use crate::packets::{decode_player_inventory_slot, spec_decode_player_inventory_slot, PlayerInventorySlot};

verus! {

/// Skips `n` eight-byte fields.
pub open spec fn skip_longs(s: Seq<u8>, p: usize, n: nat) -> Result<usize, ProbeError>
    decreases n,
{
    if n == 0 {
        Ok(p)
    } else {
        match lift(spec_read_u64(s, p)) {
            Err(e) => Err(e),
            Ok((_, q)) => skip_longs(s, q, (n - 1) as nat),
        }
    }
}

/// Skips `n` single bytes.
pub open spec fn skip_u8s(s: Seq<u8>, p: usize, n: nat) -> Result<usize, ProbeError>
    decreases n,
{
    if n == 0 {
        Ok(p)
    } else {
        match lift(spec_read_u8(s, p)) {
            Err(e) => Err(e),
            Ok((_, q)) => skip_u8s(s, q, (n - 1) as nat),
        }
    }
}

/// A spawn-entity body for a dropped item: entity id, uuid, entity type (the item type), the
/// three coordinates, a zero velocity byte, three angle bytes, and zero object data; nothing
/// after it. Gives the entity id.
pub open spec fn spec_item_spawn(s: Seq<u8>, item_type: i32) -> Result<i32, ProbeError> {
    match lift(spec_read_var_i32(s, 0)) {
        Err(e) => Err(e),
        Ok((entity_id, p1)) => match lift(spec_read_uuid(s, p1)) {
            Err(e) => Err(e),
            Ok((_, p2)) => match lift(spec_read_var_i32(s, p2)) {
                Err(e) => Err(e),
                Ok((kind, p3)) => if kind != item_type {
                    Err(ProbeError::Phase("item entity type"))
                } else {
                    match skip_longs(s, p3, 3) {
                        Err(e) => Err(e),
                        Ok(p4) => match lift(spec_read_u8(s, p4)) {
                            Err(e) => Err(e),
                            Ok((velocity, p5)) => if velocity != 0 {
                                Err(ProbeError::Phase("item zero velocity"))
                            } else {
                                match skip_u8s(s, p5, 3) {
                                    Err(e) => Err(e),
                                    Ok(p6) => match lift(spec_read_var_i32(s, p6)) {
                                        Err(e) => Err(e),
                                        Ok((object_data, p7)) => if object_data != 0 {
                                            Err(ProbeError::Phase("item object data"))
                                        } else if p7 != s.len() {
                                            Err(ProbeError::Phase("item spawn trailing bytes"))
                                        } else {
                                            Ok(entity_id)
                                        },
                                    },
                                }
                            },
                        },
                    }
                },
            },
        },
    }
}

fn u64_at(data: &[u8], pos: usize) -> (r: Result<usize, ProbeError>)
    ensures
        match lift(spec_read_u64(data@, pos)) {
            Err(e) => r == Err::<usize, ProbeError>(e),
            Ok((_, q)) => r == Ok::<usize, ProbeError>(q),
        },
{
    match read_u64(data, pos) {
        Ok((_, q)) => Ok(q),
        Err(e) => Err(ProbeError::Codec(e)),
    }
}

fn u8_at(data: &[u8], pos: usize) -> (r: Result<(u8, usize), ProbeError>)
    ensures
        r == lift(spec_read_u8(data@, pos)),
{
    match read_u8(data, pos) {
        Ok(v) => Ok(v),
        Err(e) => Err(ProbeError::Codec(e)),
    }
}

/// Reads the spawn of a dropped item entity of type `item_type` and gives its entity id.
pub fn decode_item_spawn(data: Vec<u8>, item_type: i32) -> (r: Result<i32, ProbeError>)
    ensures
        r == spec_item_spawn(data@, item_type),
{
    proof {
        reveal_with_fuel(skip_longs, 4);
        reveal_with_fuel(skip_u8s, 4);
    }
    let d = data.as_slice();
    let (entity_id, p1) = var(d, 0)?;
    let (_uuid, p2) = match read_uuid(d, p1) {
        Ok(v) => v,
        Err(e) => return Err(ProbeError::Codec(e)),
    };
    let (kind, p3) = var(d, p2)?;
    if kind != item_type {
        return Err(ProbeError::Phase("item entity type"));
    }
    let q1 = u64_at(d, p3)?;
    let q2 = u64_at(d, q1)?;
    let p4 = u64_at(d, q2)?;
    let (velocity, p5) = u8_at(d, p4)?;
    if velocity != 0 {
        return Err(ProbeError::Phase("item zero velocity"));
    }
    let (_, r1) = u8_at(d, p5)?;
    let (_, r2) = u8_at(d, r1)?;
    let (_, p6) = u8_at(d, r2)?;
    let (object_data, p7) = var(d, p6)?;
    if object_data != 0 {
        return Err(ProbeError::Phase("item object data"));
    }
    if p7 != d.len() {
        return Err(ProbeError::Phase("item spawn trailing bytes"));
    }
    Ok(entity_id)
}

/// An entity-metadata body for a dropped item: the entity id, index 8, the slot serializer
/// (7) with one item of `item_id` and no components, and the end marker.
pub open spec fn spec_item_metadata(s: Seq<u8>, entity_id: i32, item_id: i32) -> Result<(), ProbeError> {
    match lift(spec_read_var_i32(s, 0)) {
        Err(e) => Err(e),
        Ok((id, p1)) => if id != entity_id {
            Err(ProbeError::Phase("item metadata header"))
        } else {
            match lift(spec_read_u8(s, p1)) {
                Err(e) => Err(e),
                Ok((index, p2)) => if index != 8 {
                    Err(ProbeError::Phase("item metadata header"))
                } else {
                    match lift(spec_read_var_i32(s, p2)) {
                        Err(e) => Err(e),
                        Ok((serializer, p3)) => if serializer != 7 {
                            Err(ProbeError::Phase("item metadata slot"))
                        } else {
                            match lift(spec_read_var_i32(s, p3)) {
                                Err(e) => Err(e),
                                Ok((count, p4)) => if count != 1 {
                                    Err(ProbeError::Phase("item metadata slot"))
                                } else {
                                    match lift(spec_read_var_i32(s, p4)) {
                                        Err(e) => Err(e),
                                        Ok((item, p5)) => if item != item_id {
                                            Err(ProbeError::Phase("item metadata item"))
                                        } else {
                                            spec_item_metadata_tail(s, p5)
                                        },
                                    }
                                },
                            }
                        },
                    }
                },
            }
        },
    }
}

/// The end of an item's metadata: two empty component lists and the end marker 0xff.
pub open spec fn spec_item_metadata_tail(s: Seq<u8>, p: usize) -> Result<(), ProbeError> {
    match lift(spec_read_var_i32(s, p)) {
        Err(e) => Err(e),
        Ok((added, p1)) => if added != 0 {
            Err(ProbeError::Phase("item metadata components"))
        } else {
            match lift(spec_read_var_i32(s, p1)) {
                Err(e) => Err(e),
                Ok((removed, p2)) => if removed != 0 {
                    Err(ProbeError::Phase("item metadata components"))
                } else {
                    match lift(spec_read_u8(s, p2)) {
                        Err(e) => Err(e),
                        Ok((marker, _)) => if marker != 0xff {
                            Err(ProbeError::Phase("item metadata terminator"))
                        } else {
                            Ok(())
                        },
                    }
                },
            }
        },
    }
}

/// Checks the metadata of the dropped item `entity_id` holding one `item_id`.
pub fn validate_item_metadata(data: Vec<u8>, entity_id: i32, item_id: i32) -> (r: Result<(), ProbeError>)
    ensures
        r == spec_item_metadata(data@, entity_id, item_id),
{
    let d = data.as_slice();
    let (id, p1) = var(d, 0)?;
    if id != entity_id {
        return Err(ProbeError::Phase("item metadata header"));
    }
    let (index, p2) = u8_at(d, p1)?;
    if index != 8 {
        return Err(ProbeError::Phase("item metadata header"));
    }
    let (serializer, p3) = var(d, p2)?;
    if serializer != 7 {
        return Err(ProbeError::Phase("item metadata slot"));
    }
    let (count, p4) = var(d, p3)?;
    if count != 1 {
        return Err(ProbeError::Phase("item metadata slot"));
    }
    let (item, p5) = var(d, p4)?;
    if item != item_id {
        return Err(ProbeError::Phase("item metadata item"));
    }
    let (added, q1) = var(d, p5)?;
    if added != 0 {
        return Err(ProbeError::Phase("item metadata components"));
    }
    let (removed, q2) = var(d, q1)?;
    if removed != 0 {
        return Err(ProbeError::Phase("item metadata components"));
    }
    let (marker, _) = u8_at(d, q2)?;
    if marker != 0xff {
        return Err(ProbeError::Phase("item metadata terminator"));
    }
    Ok(())
}

/// A take-item-entity body: the collected entity, the collector (entity 1), and the count 1.
pub open spec fn spec_collect(s: Seq<u8>, entity_id: i32) -> Result<(), ProbeError> {
    match lift(spec_read_var_i32(s, 0)) {
        Err(e) => Err(e),
        Ok((collected, p1)) => if collected != entity_id {
            Err(ProbeError::Phase("collect payload"))
        } else {
            match lift(spec_read_var_i32(s, p1)) {
                Err(e) => Err(e),
                Ok((collector, p2)) => if collector != 1 {
                    Err(ProbeError::Phase("collect payload"))
                } else {
                    match lift(spec_read_var_i32(s, p2)) {
                        Err(e) => Err(e),
                        Ok((count, _)) => if count != 1 {
                            Err(ProbeError::Phase("collect count"))
                        } else {
                            Ok(())
                        },
                    }
                },
            }
        },
    }
}

/// Checks that the player (entity 1) collected one item of the entity `entity_id`.
pub fn validate_collect(data: Vec<u8>, entity_id: i32) -> (r: Result<(), ProbeError>)
    ensures
        r == spec_collect(data@, entity_id),
{
    let d = data.as_slice();
    let (collected, p1) = var(d, 0)?;
    if collected != entity_id {
        return Err(ProbeError::Phase("collect payload"));
    }
    let (collector, p2) = var(d, p1)?;
    if collector != 1 {
        return Err(ProbeError::Phase("collect payload"));
    }
    let (count, _) = var(d, p2)?;
    if count != 1 {
        return Err(ProbeError::Phase("collect count"));
    }
    Ok(())
}

/// A remove-entities body that removes exactly the entity `entity_id`.
pub open spec fn spec_destroy(s: Seq<u8>, entity_id: i32) -> Result<(), ProbeError> {
    match lift(spec_read_var_i32(s, 0)) {
        Err(e) => Err(e),
        Ok((count, p1)) => if count != 1 {
            Err(ProbeError::Phase("destroy payload"))
        } else {
            match lift(spec_read_var_i32(s, p1)) {
                Err(e) => Err(e),
                Ok((id, _)) => if id != entity_id {
                    Err(ProbeError::Phase("destroy payload"))
                } else {
                    Ok(())
                },
            }
        },
    }
}

/// Checks that the entity `entity_id`, and only it, was removed.
pub fn validate_destroy(data: Vec<u8>, entity_id: i32) -> (r: Result<(), ProbeError>)
    ensures
        r == spec_destroy(data@, entity_id),
{
    let d = data.as_slice();
    let (count, p1) = var(d, 0)?;
    if count != 1 {
        return Err(ProbeError::Phase("destroy payload"));
    }
    let (id, _) = var(d, p1)?;
    if id != entity_id {
        return Err(ProbeError::Phase("destroy payload"));
    }
    Ok(())
}

/// Reads the inventory slot that a pickup changed and checks that it holds `item_id`.
pub fn validate_inventory_delta(data: Vec<u8>, item_id: i32) -> (r: Result<PlayerInventorySlot, ProbeError>)
    ensures
        match spec_decode_player_inventory_slot(data@) {
            Err(e) => r == Err::<PlayerInventorySlot, ProbeError>(e),
            Ok(slot) => if slot.item_id != Some(item_id) {
                r == Err::<PlayerInventorySlot, ProbeError>(ProbeError::Phase("pickup inventory item"))
            } else {
                r == Ok::<PlayerInventorySlot, ProbeError>(slot)
            },
        },
{
    let slot = decode_player_inventory_slot(data)?;
    let holds = match slot.item_id {
        Some(id) => id == item_id,
        None => false,
    };
    if !holds {
        return Err(ProbeError::Phase("pickup inventory item"));
    }
    Ok(slot)
}

} // verus!
