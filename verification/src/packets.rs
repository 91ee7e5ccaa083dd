use vstd::prelude::*;

use crate::chunk::{lift, var, ProbeError};
use crate::codec::{
    read_bool, read_bytes, read_i32, read_i64, read_position, read_string, read_u8, read_uuid,
    spec_read_bool, spec_read_bytes, spec_read_i32, spec_read_i64, spec_read_position,
    spec_read_string, spec_read_u8, spec_read_uuid, spec_read_var_i32, CodecError,
};
use crate::persistence::BlockPos;
use crate::terrain_chunk::{spec_contains_state, spec_non_flat, DecodedChunk};
use crate::text::str_eq;

verus! {

/// A slot as the server synchronises it: its id, its item count, and the item when the count is
/// not zero.
#[derive(Debug, Clone, Copy, PartialEq, Eq, Structural)]
pub struct PlayerInventorySlot {
    pub slot_id: i32,
    pub item_count: i32,
    pub item_id: Option<i32>,
}

/// What a probe reads from the play login packet.
#[derive(Debug, Clone, Copy, PartialEq, Eq, Structural)]
pub struct LoginPacket {
    pub game_mode: i8,
    pub view_distance: i32,
}

/// Why a block update was refused, with what was expected and what came.
#[derive(Debug, Clone, Copy)]
#[allow(inconsistent_fields)]
pub enum UpdateMismatch {
    Probe(ProbeError),
    Position { phase: &'static str, expected: (i32, i32, i32), actual: (i32, i32, i32) },
    State { phase: &'static str, expected: i32, actual: i32 },
}

/// The view distance the chunk stream scale probes run with.
pub const SCALE_RADIUS: i32 = 4;

/// The largest chunk batch the scale probes accept.
pub const MAX_BATCH: usize = 8;

/// Accepts a chunk-batch-finished body that counts `expected` chunks.
pub fn validate_chunk_batch_finished(data: Vec<u8>, expected: usize) -> (r: Result<(), ProbeError>)
    ensures
        match lift(spec_read_var_i32(data@, 0)) {
            Err(e) => r == Err::<(), ProbeError>(e),
            Ok((n, _)) => if n != expected as i32 {
                r == Err::<(), ProbeError>(ProbeError::Phase("chunk batch size"))
            } else {
                r is Ok
            },
        },
{
    let (n, _end) = var(data.as_slice(), 0)?;
    if n != expected as i32 {
        return Err(ProbeError::Phase("chunk batch size"));
    }
    Ok(())
}

/// Ends a follow-up batch of the scale probes: the batch-finished body must count the chunks
/// that came, and there must be at least one and at most `MAX_BATCH` of them.
pub fn finish_scale_batch(data: Vec<u8>, batch_len: usize) -> (r: Result<(), ProbeError>)
    ensures
        match lift(spec_read_var_i32(data@, 0)) {
            Err(e) => r == Err::<(), ProbeError>(e),
            Ok((n, _)) => if n != batch_len as i32 {
                r == Err::<(), ProbeError>(ProbeError::Phase("chunk batch size"))
            } else if batch_len == 0 || batch_len > MAX_BATCH {
                r == Err::<(), ProbeError>(ProbeError::Phase("scale batch size"))
            } else {
                r is Ok
            },
        },
{
    validate_chunk_batch_finished(data, batch_len)?;
    if batch_len == 0 || batch_len > MAX_BATCH {
        return Err(ProbeError::Phase("scale batch size"));
    }
    Ok(())
}

/// Accepts a play login whose view distance is the radius the probe expects.
pub fn validate_login_view_distance(login: LoginPacket, expected_radius: i32) -> (r: Result<(), ProbeError>)
    ensures
        r == (if login.view_distance != expected_radius {
            Err(ProbeError::Phase("login view distance"))
        } else {
            Ok::<(), ProbeError>(())
        }),
{
    if login.view_distance != expected_radius {
        return Err(ProbeError::Phase("login view distance"));
    }
    Ok(())
}

/// Accepts a chunk-cache-radius body that holds the scale probes' radius.
pub fn expect_radius(data: Vec<u8>) -> (r: Result<(), ProbeError>)
    ensures
        match lift(spec_read_var_i32(data@, 0)) {
            Err(e) => r == Err::<(), ProbeError>(e),
            Ok((n, _)) => if n != SCALE_RADIUS {
                r == Err::<(), ProbeError>(ProbeError::Phase("scale chunk radius"))
            } else {
                r is Ok
            },
        },
{
    let (n, _end) = var(data.as_slice(), 0)?;
    if n != SCALE_RADIUS {
        return Err(ProbeError::Phase("scale chunk radius"));
    }
    Ok(())
}

/// Reads a held-item-slot body: one VarInt and nothing after it.
pub fn decode_held_item_slot(data: Vec<u8>) -> (r: Result<i32, ProbeError>)
    ensures
        match lift(spec_read_var_i32(data@, 0)) {
            Err(e) => r == Err::<i32, ProbeError>(e),
            Ok((slot, end)) => if end != data@.len() {
                r == Err::<i32, ProbeError>(ProbeError::Phase("held item slot trailing"))
            } else {
                r == Ok::<i32, ProbeError>(slot)
            },
        },
{
    let d = data.as_slice();
    let (slot, end) = var(d, 0)?;
    if end != d.len() {
        return Err(ProbeError::Phase("held item slot trailing"));
    }
    Ok(slot)
}

/// A set-player-inventory body: slot id, item count, and, for a non-empty slot, the item id and
/// two empty component lists; nothing after it.
pub open spec fn spec_decode_player_inventory_slot(s: Seq<u8>) -> Result<PlayerInventorySlot, ProbeError> {
    match lift(spec_read_var_i32(s, 0)) {
        Err(e) => Err(e),
        Ok((slot_id, p1)) => match lift(spec_read_var_i32(s, p1)) {
            Err(e) => Err(e),
            Ok((item_count, p2)) => {
                let item: Result<(Option<i32>, usize), ProbeError> = if item_count == 0 {
                    Ok((None, p2))
                } else {
                    match lift(spec_read_var_i32(s, p2)) {
                        Err(e) => Err(e),
                        Ok((item_id, p3)) => match lift(spec_read_var_i32(s, p3)) {
                            Err(e) => Err(e),
                            Ok((added, p4)) => if added != 0 {
                                Err(ProbeError::Phase("slot components"))
                            } else {
                                match lift(spec_read_var_i32(s, p4)) {
                                    Err(e) => Err(e),
                                    Ok((removed, p5)) => if removed != 0 {
                                        Err(ProbeError::Phase("slot components"))
                                    } else {
                                        Ok((Some(item_id), p5))
                                    },
                                }
                            },
                        },
                    }
                };
                match item {
                    Err(e) => Err(e),
                    Ok((item_id, end)) => if end != s.len() {
                        Err(ProbeError::Phase("player inventory trailing"))
                    } else {
                        Ok(PlayerInventorySlot { slot_id, item_count, item_id })
                    },
                }
            },
        },
    }
}

/// Reads a set-player-inventory body.
pub fn decode_player_inventory_slot(data: Vec<u8>) -> (r: Result<PlayerInventorySlot, ProbeError>)
    ensures
        r == spec_decode_player_inventory_slot(data@),
{
    let d = data.as_slice();
    let (slot_id, p1) = var(d, 0)?;
    let (item_count, p2) = var(d, p1)?;
    let (item_id, end) = if item_count == 0 {
        (None, p2)
    } else {
        let (item_id, p3) = var(d, p2)?;
        let (added, p4) = var(d, p3)?;
        if added != 0 {
            return Err(ProbeError::Phase("slot components"));
        }
        let (removed, p5) = var(d, p4)?;
        if removed != 0 {
            return Err(ProbeError::Phase("slot components"));
        }
        (Some(item_id), p5)
    };
    if end != d.len() {
        return Err(ProbeError::Phase("player inventory trailing"));
    }
    Ok(PlayerInventorySlot { slot_id, item_count, item_id })
}

/// Accepts a block-changed-ack body that acknowledges `sequence` and holds nothing more.
pub fn validate_ack(data: Vec<u8>, sequence: i32) -> (r: Result<(), ProbeError>)
    ensures
        match lift(spec_read_var_i32(data@, 0)) {
            Err(e) => r == Err::<(), ProbeError>(e),
            Ok((n, end)) => if n != sequence {
                r == Err::<(), ProbeError>(ProbeError::Phase("block mutation ack sequence"))
            } else if end != data@.len() {
                r == Err::<(), ProbeError>(ProbeError::Phase("block mutation ack trailing"))
            } else {
                r is Ok
            },
        },
{
    let d = data.as_slice();
    let (n, end) = var(d, 0)?;
    if n != sequence {
        return Err(ProbeError::Phase("block mutation ack sequence"));
    }
    if end != d.len() {
        return Err(ProbeError::Phase("block mutation ack trailing"));
    }
    Ok(())
}

/// A block-update body: position, state, nothing after.
pub open spec fn spec_block_update(s: Seq<u8>) -> Result<((i32, i32, i32), i32, bool), ProbeError> {
    match lift(spec_read_position(s, 0)) {
        Err(e) => Err(e),
        Ok((pos, p1)) => match lift(spec_read_var_i32(s, p1)) {
            Err(e) => Err(e),
            Ok((state, p2)) => Ok((pos, state, p2 == s.len())),
        },
    }
}

/// Accepts a block-update body for `pos` that sets `state` and holds nothing more.
pub fn validate_update_at(data: Vec<u8>, pos: BlockPos, state: i32) -> (r: Result<(), UpdateMismatch>)
    ensures
        match lift(spec_read_position(data@, 0)) {
            Err(e) => r == Err::<(), UpdateMismatch>(UpdateMismatch::Probe(e)),
            Ok((at, _)) => if at != (pos.x, pos.y, pos.z) {
                r == Err::<(), UpdateMismatch>(UpdateMismatch::Probe(ProbeError::Phase("block mutation update pos")))
            } else {
                match spec_block_update(data@) {
                    Err(e) => r == Err::<(), UpdateMismatch>(UpdateMismatch::Probe(e)),
                    Ok((_, actual, at_end)) => if actual != state {
                        r == Err::<(), UpdateMismatch>(UpdateMismatch::State { phase: "block mutation update state", expected: state, actual })
                    } else if !at_end {
                        r == Err::<(), UpdateMismatch>(UpdateMismatch::Probe(ProbeError::Phase("block mutation update trailing")))
                    } else {
                        r is Ok
                    },
                }
            },
        },
{
    let d = data.as_slice();
    let (at, p1) = match read_position(d, 0) {
        Ok(v) => v,
        Err(e) => return Err(UpdateMismatch::Probe(ProbeError::Codec(e))),
    };
    if at.0 != pos.x || at.1 != pos.y || at.2 != pos.z {
        return Err(UpdateMismatch::Probe(ProbeError::Phase("block mutation update pos")));
    }
    let (actual, p2) = match var(d, p1) {
        Ok(v) => v,
        Err(e) => return Err(UpdateMismatch::Probe(e)),
    };
    if actual != state {
        return Err(UpdateMismatch::State { phase: "block mutation update state", expected: state, actual });
    }
    if p2 != d.len() {
        return Err(UpdateMismatch::Probe(ProbeError::Phase("block mutation update trailing")));
    }
    Ok(())
}

/// Accepts a block-update body for `pos` that sets `state` and holds nothing more; a mismatch
/// names `phase` with what was expected and what came.
pub fn validate_update_state(data: Vec<u8>, pos: BlockPos, state: i32, phase: &'static str) -> (r: Result<(), UpdateMismatch>)
    ensures
        match lift(spec_read_position(data@, 0)) {
            Err(e) => r == Err::<(), UpdateMismatch>(UpdateMismatch::Probe(e)),
            Ok((at, _)) => if at != (pos.x, pos.y, pos.z) {
                r == Err::<(), UpdateMismatch>(UpdateMismatch::Position { phase, expected: (pos.x, pos.y, pos.z), actual: at })
            } else {
                match spec_block_update(data@) {
                    Err(e) => r == Err::<(), UpdateMismatch>(UpdateMismatch::Probe(e)),
                    Ok((_, actual, at_end)) => if actual != state {
                        r == Err::<(), UpdateMismatch>(UpdateMismatch::State { phase, expected: state, actual })
                    } else if !at_end {
                        r == Err::<(), UpdateMismatch>(UpdateMismatch::Probe(ProbeError::Phase(phase)))
                    } else {
                        r is Ok
                    },
                }
            },
        },
{
    let d = data.as_slice();
    let (at, p1) = match read_position(d, 0) {
        Ok(v) => v,
        Err(e) => return Err(UpdateMismatch::Probe(ProbeError::Codec(e))),
    };
    if at.0 != pos.x || at.1 != pos.y || at.2 != pos.z {
        return Err(UpdateMismatch::Position { phase, expected: (pos.x, pos.y, pos.z), actual: at });
    }
    let (actual, p2) = match var(d, p1) {
        Ok(v) => v,
        Err(e) => return Err(UpdateMismatch::Probe(e)),
    };
    if actual != state {
        return Err(UpdateMismatch::State { phase, expected: state, actual });
    }
    if p2 != d.len() {
        return Err(UpdateMismatch::Probe(ProbeError::Phase(phase)));
    }
    Ok(())
}

/// Skips `n` length-prefixed strings.
pub open spec fn skip_strings(s: Seq<u8>, p: usize, n: nat) -> Result<usize, ProbeError>
    decreases n,
{
    if n == 0 {
        Ok(p)
    } else {
        match lift(spec_read_string(s, p)) {
            Err(e) => Err(e),
            Ok((_, q)) => skip_strings(s, q, (n - 1) as nat),
        }
    }
}

/// Skips `n` boolean bytes.
pub open spec fn skip_bools(s: Seq<u8>, p: usize, n: nat) -> Result<usize, ProbeError>
    decreases n,
{
    if n == 0 {
        Ok(p)
    } else {
        match lift(spec_read_bool(s, p)) {
            Err(e) => Err(e),
            Ok((_, q)) => skip_bools(s, q, (n - 1) as nat),
        }
    }
}

/// The play login body, up to the game mode: entity id, hardcore flag, dimension names, player
/// limit, view distance, simulation distance, three flags, dimension type, dimension, hashed
/// seed, game mode.
pub open spec fn spec_decode_login_packet(s: Seq<u8>) -> Result<LoginPacket, ProbeError> {
    match lift(spec_read_i32(s, 0)) {
        Err(e) => Err(e),
        Ok((_, p1)) => match lift(spec_read_bool(s, p1)) {
            Err(e) => Err(e),
            Ok((_, p2)) => match lift(spec_read_var_i32(s, p2)) {
                Err(e) => Err(e),
                Ok((dims, p3)) => match skip_strings(s, p3, if dims > 0 { dims as nat } else { 0 }) {
                    Err(e) => Err(e),
                    Ok(p4) => match lift(spec_read_var_i32(s, p4)) {
                        Err(e) => Err(e),
                        Ok((_, p5)) => match lift(spec_read_var_i32(s, p5)) {
                            Err(e) => Err(e),
                            Ok((view_distance, p6)) => match lift(spec_read_var_i32(s, p6)) {
                                Err(e) => Err(e),
                                Ok((_, p7)) => match skip_bools(s, p7, 3) {
                                    Err(e) => Err(e),
                                    Ok(p8) => match lift(spec_read_var_i32(s, p8)) {
                                        Err(e) => Err(e),
                                        Ok((_, p9)) => match lift(spec_read_string(s, p9)) {
                                            Err(e) => Err(e),
                                            Ok((_, p10)) => match lift(spec_read_i64(s, p10)) {
                                                Err(e) => Err(e),
                                                Ok((_, p11)) => match lift(spec_read_u8(s, p11)) {
                                                    Err(e) => Err(e),
                                                    Ok((mode, _)) => Ok(
                                                        LoginPacket {
                                                            game_mode: if mode < 128 {
                                                                mode as i8
                                                            } else {
                                                                (mode - 256) as i8
                                                            },
                                                            view_distance,
                                                        },
                                                    ),
                                                },
                                            },
                                        },
                                    },
                                },
                            },
                        },
                    },
                },
            },
        },
    }
}

fn string_at(data: &[u8], pos: usize) -> (r: Result<(String, usize), ProbeError>)
    ensures
        match r {
            Ok((text, q)) => lift(spec_read_string(data@, pos)) == Ok::<(Seq<char>, usize), ProbeError>((text@, q)),
            Err(e) => lift(spec_read_string(data@, pos)) == Err::<(Seq<char>, usize), ProbeError>(e),
        },
{
    match read_string(data, pos) {
        Ok(v) => Ok(v),
        Err(e) => Err(ProbeError::Codec(e)),
    }
}

fn bool_at(data: &[u8], pos: usize) -> (r: Result<(bool, usize), ProbeError>)
    ensures
        r == lift(spec_read_bool(data@, pos)),
{
    match read_bool(data, pos) {
        Ok(v) => Ok(v),
        Err(e) => Err(ProbeError::Codec(e)),
    }
}

/// Accepts a synchronised slot only when it has the expected id, count and item.
pub fn expect_slot(
    slot: &PlayerInventorySlot,
    slot_id: i32,
    item_count: i32,
    item_id: Option<i32>,
    phase: &'static str,
) -> (r: Result<(), ProbeError>)
    ensures
        r == (if slot.slot_id == slot_id && slot.item_count == item_count && slot.item_id == item_id {
            Ok::<(), ProbeError>(())
        } else {
            Err(ProbeError::Phase(phase))
        }),
{
    let same_item = match (slot.item_id, item_id) {
        (None, None) => true,
        (Some(a), Some(b)) => a == b,
        _ => false,
    };
    if slot.slot_id != slot_id || slot.item_count != item_count || !same_item {
        return Err(ProbeError::Phase(phase));
    }
    Ok(())
}

/// Reads the set-player-inventory body that must describe slot `expected_slot`, the slots
/// coming in order.
pub fn decode_inventory_slot_in_order(data: Vec<u8>, expected_slot: i32) -> (r: Result<PlayerInventorySlot, ProbeError>)
    ensures
        match spec_decode_player_inventory_slot(data@) {
            Err(e) => r == Err::<PlayerInventorySlot, ProbeError>(e),
            Ok(slot) => if slot.slot_id != expected_slot {
                r == Err::<PlayerInventorySlot, ProbeError>(ProbeError::Phase("player inventory slot order"))
            } else {
                r == Ok::<PlayerInventorySlot, ProbeError>(slot)
            },
        },
{
    let slot = decode_player_inventory_slot(data)?;
    if slot.slot_id != expected_slot {
        return Err(ProbeError::Phase("player inventory slot order"));
    }
    Ok(slot)
}

/// The inventory a fresh probe player is sent: the first hotbar slot selected, one starter
/// stone (item 1) in slot 0, and every later slot empty.
pub open spec fn spec_bootstrap_inventory(selected: i32, slots: Seq<PlayerInventorySlot>) -> Result<(), ProbeError> {
    if selected != 0 {
        Err(ProbeError::Phase("bootstrap held slot"))
    } else if slots.len() == 0 {
        Err(ProbeError::Phase("bootstrap inventory"))
    } else if !(slots[0].slot_id == 0 && slots[0].item_count == 1 && slots[0].item_id == Some(1i32)) {
        Err(ProbeError::Phase("bootstrap starter stone"))
    } else if exists|i: int| 1 <= i < slots.len() && !((#[trigger] slots[i]).item_count == 0 && slots[i].item_id is None) {
        Err(ProbeError::Phase("bootstrap empty slot"))
    } else {
        Ok(())
    }
}

/// Checks the inventory a fresh probe player was sent at login.
pub fn assert_bootstrap_inventory(selected_hotbar_slot: i32, slots: &Vec<PlayerInventorySlot>) -> (r: Result<(), ProbeError>)
    ensures
        r == spec_bootstrap_inventory(selected_hotbar_slot, slots@),
{
    if selected_hotbar_slot != 0 {
        return Err(ProbeError::Phase("bootstrap held slot"));
    }
    if slots.len() == 0 {
        return Err(ProbeError::Phase("bootstrap inventory"));
    }
    expect_slot(&slots[0], 0, 1, Some(1), "bootstrap starter stone")?;
    let n = slots.len();
    let mut i: usize = 1;
    while i < n
        invariant
            n == slots@.len(),
            1 <= i <= n,
            selected_hotbar_slot == 0,
            slots@[0].slot_id == 0 && slots@[0].item_count == 1 && slots@[0].item_id == Some(1i32),
            forall|j: int| 1 <= j < i ==> (#[trigger] slots@[j]).item_count == 0 && slots@[j].item_id is None,
        decreases n - i,
    {
        let slot = &slots[i];
        if slot.item_count != 0 || slot.item_id.is_some() {
            assert(!(slots@[i as int].item_count == 0 && slots@[i as int].item_id is None));
            return Err(ProbeError::Phase("bootstrap empty slot"));
        }
        assert(slots@[i as int].item_count == 0 && slots@[i as int].item_id is None);
        i += 1;
    }
    Ok(())
}

/// What the terrain quality probe has seen across a batch of chunks.
#[derive(Debug, Clone, Copy, PartialEq, Eq, Structural, Default)]
pub struct QualitySeen {
    pub dry_spawn: bool,
    pub natural: bool,
    pub water: bool,
    pub wood: bool,
}

/// Turns a check that did not hold into a phase error.
pub fn require(value: bool, phase: &'static str) -> (r: Result<(), ProbeError>)
    ensures
        r == (if value { Ok::<(), ProbeError>(()) } else { Err(ProbeError::Phase(phase)) }),
{
    if value {
        Ok(())
    } else {
        Err(ProbeError::Phase(phase))
    }
}

impl QualitySeen {
    /// Notes what `chunk` shows: a surface that is not flat, the `water` state, and spruce wood
    /// (the `spruce_log` or the `spruce_leaves` state); the states are the block registry's
    /// numbers. `spawn_headroom` is `Some(dry)` when the chunk holds the spawn column, `dry`
    /// telling whether the spawn has dry headroom; that finding then replaces the earlier one.
    /// The column test and the headroom test are the caller's, as the chunk does not hold its
    /// own position.
    pub fn record(
        &mut self,
        chunk: &DecodedChunk,
        water: i32,
        spruce_log: i32,
        spruce_leaves: i32,
        spawn_headroom: Option<bool>,
    )
        ensures
            final(self).natural == (old(self).natural || spec_non_flat(chunk@)),
            final(self).water == (old(self).water || spec_contains_state(chunk@, water)),
            final(self).wood == (old(self).wood || spec_contains_state(chunk@, spruce_log)
                || spec_contains_state(chunk@, spruce_leaves)),
            final(self).dry_spawn == match spawn_headroom {
                Some(dry) => dry,
                None => old(self).dry_spawn,
            },
    {
        let natural = chunk.has_non_flat_surface();
        let water_seen = chunk.contains_state(water);
        let log_seen = chunk.contains_state(spruce_log);
        let leaves_seen = chunk.contains_state(spruce_leaves);
        self.natural = self.natural || natural;
        self.water = self.water || water_seen;
        self.wood = self.wood || log_seen || leaves_seen;
        if let Some(dry) = spawn_headroom {
            self.dry_spawn = dry;
        }
    }

    /// Succeeds only when every quality was seen; otherwise names the first that was not.
    pub fn require_all(self) -> (r: Result<(), ProbeError>)
        ensures
            r == (if !self.dry_spawn {
                Err(ProbeError::Phase("quality dry spawn"))
            } else if !self.natural {
                Err(ProbeError::Phase("quality non-flat terrain"))
            } else if !self.water {
                Err(ProbeError::Phase("quality water access"))
            } else if !self.wood {
                Err(ProbeError::Phase("quality generated wood"))
            } else {
                Ok::<(), ProbeError>(())
            }),
    {
        require(self.dry_spawn, "quality dry spawn")?;
        require(self.natural, "quality non-flat terrain")?;
        require(self.water, "quality water access")?;
        require(self.wood, "quality generated wood")
    }
}

/// The game version the server speaks.
pub const MINECRAFT_VERSION: &'static str = "1.21.11";

/// The protocol number of that game version.
pub const PROTOCOL_VERSION: i32 = 774;

/// Accepts a status response whose version is this project's protocol and game version.
pub fn validate_status_version(protocol: i32, name: &str) -> (r: Result<(), ProbeError>)
    ensures
        r == (if protocol != PROTOCOL_VERSION || name@ != MINECRAFT_VERSION@ {
            Err(ProbeError::Phase("status version"))
        } else {
            Ok::<(), ProbeError>(())
        }),
{
    if protocol != PROTOCOL_VERSION || !str_eq(name, MINECRAFT_VERSION) {
        return Err(ProbeError::Phase("status version"));
    }
    Ok(())
}

/// The status ping payload: 123 as a big-endian 64-bit integer.
pub open spec fn spec_status_ping_payload() -> Seq<u8> {
    seq![0u8, 0u8, 0u8, 0u8, 0u8, 0u8, 0u8, 123u8]
}

/// The payload of the status ping.
pub fn status_ping_payload() -> (r: Vec<u8>)
    ensures
        r@ == spec_status_ping_payload(),
{
    let r: Vec<u8> = vec![0, 0, 0, 0, 0, 0, 0, 123];
    assert(r@ =~= spec_status_ping_payload());
    r
}

/// Accepts a status pong that echoes the ping payload.
pub fn validate_status_pong(data: &Vec<u8>) -> (r: Result<(), ProbeError>)
    ensures
        r == (if data@ != spec_status_ping_payload() {
            Err(ProbeError::Phase("status pong payload"))
        } else {
            Ok::<(), ProbeError>(())
        }),
{
    let expected = status_ping_payload();
    if data.len() != 8 {
        return Err(ProbeError::Phase("status pong payload"));
    }
    let mut i: usize = 0;
    while i < 8
        invariant
            data@.len() == 8,
            expected@ == spec_status_ping_payload(),
            i <= 8,
            forall|j: int| 0 <= j < i ==> data@[j] == expected@[j],
        decreases 8 - i,
    {
        if data[i] != expected[i] {
            return Err(ProbeError::Phase("status pong payload"));
        }
        i += 1;
    }
    assert(data@ =~= spec_status_ping_payload());
    Ok(())
}

/// Reads the game mode and view distance of a play login body.
pub fn decode_login_packet(data: Vec<u8>) -> (r: Result<LoginPacket, ProbeError>)
    ensures
        r == spec_decode_login_packet(data@),
{
    let d = data.as_slice();
    let (_entity_id, p1) = match read_i32(d, 0) {
        Ok(v) => v,
        Err(e) => return Err(ProbeError::Codec(e)),
    };
    let (_hardcore, p2) = bool_at(d, p1)?;
    let (dimension_count, p3) = var(d, p2)?;
    let ghost total: nat = if dimension_count > 0 {
        dimension_count as nat
    } else {
        0
    };
    let mut p = p3;
    let mut k: i32 = 0;
    while k < dimension_count
        invariant
            0 <= k,
            dimension_count > 0 ==> k <= dimension_count,
            dimension_count <= 0 ==> k == 0,
            total == (if dimension_count > 0 { dimension_count as nat } else { 0 }),
            d@ == data@,
            skip_strings(d@, p3, total) == skip_strings(d@, p, (total - k) as nat),
            lift(spec_read_i32(d@, 0)) == Ok::<(i32, usize), ProbeError>((_entity_id, p1)),
            lift(spec_read_bool(d@, p1)) == Ok::<(bool, usize), ProbeError>((_hardcore, p2)),
            lift(spec_read_var_i32(d@, p2)) == Ok::<(i32, usize), ProbeError>((dimension_count, p3)),
        decreases dimension_count - k,
    {
        let (_dimension, q) = match string_at(d, p) {
            Ok(v) => v,
            Err(e) => {
                assert(skip_strings(d@, p, (total - k) as nat) == Err::<usize, ProbeError>(e));
                return Err(e);
            },
        };
        p = q;
        k += 1;
    }
    let (_max_players, p5) = var(d, p)?;
    let (view_distance, p6) = var(d, p5)?;
    let (_simulation_distance, p7) = var(d, p6)?;
    proof {
        reveal_with_fuel(skip_bools, 4);
    }
    let (_, q1) = bool_at(d, p7)?;
    let (_, q2) = bool_at(d, q1)?;
    let (_, p8) = bool_at(d, q2)?;
    let (_dimension_type, p9) = var(d, p8)?;
    let (_dimension, p10) = string_at(d, p9)?;
    let (_seed, p11) = match read_i64(d, p10) {
        Ok(v) => v,
        Err(e) => return Err(ProbeError::Codec(e)),
    };
    let (mode, _) = match read_u8(d, p11) {
        Ok(v) => v,
        Err(e) => return Err(ProbeError::Codec(e)),
    };
    let game_mode: i8 = if mode < 128 {
        mode as i8
    } else {
        (mode as i16 - 256) as i8
    };
    Ok(LoginPacket { game_mode, view_distance })
}

/// A login-success body: uuid, user name, property count.
pub open spec fn spec_login_success(s: Seq<u8>) -> Result<(Seq<char>, i32, bool), ProbeError> {
    match lift(spec_read_uuid(s, 0)) {
        Err(e) => Err(e),
        Ok((_, p1)) => match lift(spec_read_string(s, p1)) {
            Err(e) => Err(e),
            Ok((name, p2)) => match lift(spec_read_var_i32(s, p2)) {
                Err(e) => Err(e),
                Ok((properties, p3)) => Ok((name, properties, p3 == s.len())),
            },
        },
    }
}

/// Accepts a login-success body for `expected_name` with no properties and nothing more.
pub fn validate_login_success(data: Vec<u8>, expected_name: &str) -> (r: Result<(), ProbeError>)
    ensures
        match spec_login_success(data@) {
            Err(e) => r == Err::<(), ProbeError>(e),
            Ok((name, properties, at_end)) => if name != expected_name@ || properties != 0 {
                r == Err::<(), ProbeError>(ProbeError::Phase("login success payload"))
            } else if !at_end {
                r == Err::<(), ProbeError>(ProbeError::Phase("login success trailing bytes"))
            } else {
                r is Ok
            },
        },
{
    let d = data.as_slice();
    let (_uuid, p1) = match read_uuid(d, 0) {
        Ok(v) => v,
        Err(e) => return Err(ProbeError::Codec(e)),
    };
    let (username, p2) = string_at(d, p1)?;
    let (properties, p3) = var(d, p2)?;
    if !str_eq(username.as_str(), expected_name) || properties != 0 {
        return Err(ProbeError::Phase("login success payload"));
    }
    if p3 != d.len() {
        return Err(ProbeError::Phase("login success trailing bytes"));
    }
    Ok(())
}

/// Reads the uuid at the start of a login-success body.
pub fn decode_login_success_uuid(data: Vec<u8>) -> (r: Result<u128, ProbeError>)
    ensures
        match spec_read_uuid(data@, 0) {
            Ok((u, _)) => r == Ok::<u128, ProbeError>(u),
            Err(e) => r == Err::<u128, ProbeError>(ProbeError::Codec(e)),
        },
{
    match read_uuid(data.as_slice(), 0) {
        Ok((uuid, _)) => Ok(uuid),
        Err(e) => Err(ProbeError::Codec(e)),
    }
}

/// An encryption-request body: an empty server id, the public key, the verify token, and the
/// should-authenticate flag, which must be set.
pub open spec fn spec_encryption_request(s: Seq<u8>) -> Result<(Seq<u8>, Seq<u8>), CodecError> {
    match spec_read_string(s, 0) {
        Err(e) => Err(e),
        Ok((server_id, p1)) => if server_id.len() != 0 {
            Err(CodecError::Eof)
        } else {
            match spec_read_bytes(s, p1) {
                Err(e) => Err(e),
                Ok((key, p2)) => match spec_read_bytes(s, p2) {
                    Err(e) => Err(e),
                    Ok((token, p3)) => match spec_read_bool(s, p3) {
                        Err(e) => Err(e),
                        Ok((authenticate, _)) => if !authenticate {
                            Err(CodecError::Eof)
                        } else {
                            Ok((key, token))
                        },
                    },
                },
            }
        },
    }
}

/// Reads the public key and verify token of an encryption-request body.
pub fn decode_encryption_request(data: Vec<u8>) -> (r: Result<(Vec<u8>, Vec<u8>), CodecError>)
    ensures
        match r {
            Ok((key, token)) => spec_encryption_request(data@) == Ok::<(Seq<u8>, Seq<u8>), CodecError>((key@, token@)),
            Err(e) => spec_encryption_request(data@) == Err::<(Seq<u8>, Seq<u8>), CodecError>(e),
        },
{
    let d = data.as_slice();
    let (server_id, p1) = read_string(d, 0)?;
    if server_id.as_str().unicode_len() != 0 {
        return Err(CodecError::Eof);
    }
    let (public_key, p2) = read_bytes(d, p1)?;
    let (verify_token, p3) = read_bytes(d, p2)?;
    let (authenticate, _) = read_bool(d, p3)?;
    if !authenticate {
        return Err(CodecError::Eof);
    }
    Ok((public_key, verify_token))
}

/// The packed position at `p` of a default-spawn-position body, then its yaw and pitch (two
/// four-byte floats); gives the position and where the body's fields end.
pub open spec fn spec_spawn_position(s: Seq<u8>, p: usize) -> Result<((i32, i32, i32), usize), ProbeError> {
    match lift(spec_read_position(s, p)) {
        Err(e) => Err(e),
        Ok((pos, p2)) => if p2 + 8 > s.len() {
            Err(ProbeError::Codec(CodecError::Eof))
        } else {
            Ok((pos, (p2 + 8) as usize))
        },
    }
}

fn spawn_position(data: &[u8], pos: usize) -> (r: Result<((i32, i32, i32), usize), ProbeError>)
    ensures
        r == spec_spawn_position(data@, pos),
{
    let (at, p2) = match read_position(data, pos) {
        Ok(v) => v,
        Err(e) => return Err(ProbeError::Codec(e)),
    };
    if p2 > data.len() || 8 > data.len() - p2 {
        return Err(ProbeError::Codec(CodecError::Eof));
    }
    Ok((at, p2 + 8))
}

/// A default-spawn-position body in the overworld: the dimension name, which is read and
/// checked first, then the packed position, yaw and pitch, and nothing after them.
pub open spec fn spec_decode_default_spawn(s: Seq<u8>) -> Result<(i32, i32, i32), ProbeError> {
    match lift(spec_read_string(s, 0)) {
        Err(e) => Err(e),
        Ok((dimension, p1)) => if dimension != "minecraft:overworld"@ {
            Err(ProbeError::Phase("terrain spawn dimension"))
        } else {
            match spec_spawn_position(s, p1) {
                Err(e) => Err(e),
                Ok((pos, end)) => if end != s.len() {
                    Err(ProbeError::Phase("terrain spawn trailing bytes"))
                } else {
                    Ok(pos)
                },
            }
        },
    }
}

/// Reads the spawn position of a default-spawn-position body in the overworld, with nothing
/// after it.
pub fn decode_default_spawn(data: Vec<u8>) -> (r: Result<(i32, i32, i32), ProbeError>)
    ensures
        r == spec_decode_default_spawn(data@),
{
    let d = data.as_slice();
    let (dimension, p1) = string_at(d, 0)?;
    if !str_eq(dimension.as_str(), "minecraft:overworld") {
        return Err(ProbeError::Phase("terrain spawn dimension"));
    }
    let (pos, end) = spawn_position(d, p1)?;
    if end != d.len() {
        return Err(ProbeError::Phase("terrain spawn trailing bytes"));
    }
    Ok(pos)
}

/// A default-spawn-position body in the overworld as the quality probe reads it: what follows
/// the yaw and pitch is not looked at.
pub open spec fn spec_spawn_from_packet(s: Seq<u8>) -> Result<(i32, i32, i32), ProbeError> {
    match lift(spec_read_string(s, 0)) {
        Err(e) => Err(e),
        Ok((dimension, p1)) => if dimension != "minecraft:overworld"@ {
            Err(ProbeError::Phase("quality spawn dimension"))
        } else {
            match spec_spawn_position(s, p1) {
                Err(e) => Err(e),
                Ok((pos, _)) => Ok(pos),
            }
        },
    }
}

/// Reads the spawn position of a default-spawn-position body in the overworld.
pub fn spawn_from_packet(data: Vec<u8>) -> (r: Result<(i32, i32, i32), ProbeError>)
    ensures
        r == spec_spawn_from_packet(data@),
{
    let d = data.as_slice();
    let (dimension, p1) = string_at(d, 0)?;
    if !str_eq(dimension.as_str(), "minecraft:overworld") {
        return Err(ProbeError::Phase("quality spawn dimension"));
    }
    let (pos, _end) = spawn_position(d, p1)?;
    Ok(pos)
}

/// Reads an unload-chunk body: the chunk z, then x; gives (x, z).
pub fn decode_unload(data: Vec<u8>) -> (r: Result<(i32, i32), ProbeError>)
    ensures
        match lift(spec_read_i32(data@, 0)) {
            Err(e) => r == Err::<(i32, i32), ProbeError>(e),
            Ok((z, p1)) => match lift(spec_read_i32(data@, p1)) {
                Err(e) => r == Err::<(i32, i32), ProbeError>(e),
                Ok((x, _)) => r == Ok::<(i32, i32), ProbeError>((x, z)),
            },
        },
{
    let d = data.as_slice();
    let (z, p1) = match read_i32(d, 0) {
        Ok(v) => v,
        Err(e) => return Err(ProbeError::Codec(e)),
    };
    let (x, _) = match read_i32(d, p1) {
        Ok(v) => v,
        Err(e) => return Err(ProbeError::Codec(e)),
    };
    Ok((x, z))
}

/// Accepts a chunk-cache-center body naming column (x, z).
pub fn validate_cache_center(data: Vec<u8>, x: i32, z: i32, phase: &'static str) -> (r: Result<(), ProbeError>)
    ensures
        match lift(spec_read_var_i32(data@, 0)) {
            Err(e) => r == Err::<(), ProbeError>(e),
            Ok((cx, p1)) => if cx != x {
                r == Err::<(), ProbeError>(ProbeError::Phase(phase))
            } else {
                match lift(spec_read_var_i32(data@, p1)) {
                    Err(e) => r == Err::<(), ProbeError>(e),
                    Ok((cz, _)) => if cz != z {
                        r == Err::<(), ProbeError>(ProbeError::Phase(phase))
                    } else {
                        r is Ok
                    },
                }
            },
        },
{
    let d = data.as_slice();
    let (cx, p1) = var(d, 0)?;
    if cx != x {
        return Err(ProbeError::Phase(phase));
    }
    let (cz, _) = var(d, p1)?;
    if cz != z {
        return Err(ProbeError::Phase(phase));
    }
    Ok(())
}

} // verus!
