use vstd::prelude::*;

use crate::chunk::ProbeError;
use crate::codec::{
    be_bytes, lemma_position_roundtrip, pack_position, pow256, read_i64, spec_read_i64,
    spec_read_position, string_bytes, unsigned_of, varint_bytes, write_position, write_string,
    write_var_i32, CodecError,
};
use crate::persistence::BlockPos;

verus! {

/// The big-endian bytes of the single float 0.5.
pub open spec fn half_bytes() -> Seq<u8> {
    seq![0x3fu8, 0u8, 0u8, 0u8]
}

/// The big-endian bytes of the single float 1.0.
pub open spec fn one_bytes() -> Seq<u8> {
    seq![0x3fu8, 0x80u8, 0u8, 0u8]
}

/// The bytes of a packed block position.
pub open spec fn position_bytes(pos: BlockPos) -> Seq<u8> {
    be_bytes(pack_position(pos.x as int, pos.y as int, pos.z as int), 8)
}

/// A use-item-on body: the main hand, the clicked block, its top face, the cursor at
/// (0.5, 1.0, 0.5) on it, not inside it, no world border hit, and the sequence number.
pub open spec fn spec_use_item_on(sequence: i32, pos: BlockPos) -> Seq<u8> {
    varint_bytes(0) + position_bytes(pos) + varint_bytes(1) + half_bytes() + one_bytes() + half_bytes()
        + seq![0u8] + seq![0u8] + varint_bytes(unsigned_of(sequence))
}

/// A player-action body: the action, the block, its top face, and the sequence number.
pub open spec fn spec_player_action(action: i32, sequence: i32, pos: BlockPos) -> Seq<u8> {
    varint_bytes(unsigned_of(action)) + position_bytes(pos) + seq![1u8] + varint_bytes(
        unsigned_of(sequence),
    )
}

fn push_bytes(out: &mut Vec<u8>, a: u8, b: u8, c: u8, d: u8)
    ensures
        final(out)@ == old(out)@ + seq![a, b, c, d],
{
    out.push(a);
    out.push(b);
    out.push(c);
    out.push(d);
    assert(out@ =~= old(out)@ + seq![a, b, c, d]);
}

/// The body of a use-item-on packet that clicks the top of `pos` with the main hand.
pub fn encode_use_item_on(sequence: i32, pos: BlockPos) -> (r: Vec<u8>)
    ensures
        r@ == spec_use_item_on(sequence, pos),
{
    let mut payload: Vec<u8> = Vec::new();
    write_var_i32(&mut payload, 0);
    write_position(&mut payload, pos.x, pos.y, pos.z);
    write_var_i32(&mut payload, 1);
    push_bytes(&mut payload, 0x3f, 0, 0, 0);
    push_bytes(&mut payload, 0x3f, 0x80, 0, 0);
    push_bytes(&mut payload, 0x3f, 0, 0, 0);
    payload.push(0);
    payload.push(0);
    write_var_i32(&mut payload, sequence);
    proof {
        assert(unsigned_of(0) == 0);
        assert(unsigned_of(1) == 1);
        assert(payload@ =~= spec_use_item_on(sequence, pos));
    }
    payload
}

fn encode_player_action(action: i32, sequence: i32, pos: BlockPos) -> (r: Vec<u8>)
    ensures
        r@ == spec_player_action(action, sequence, pos),
{
    let mut payload: Vec<u8> = Vec::new();
    write_var_i32(&mut payload, action);
    write_position(&mut payload, pos.x, pos.y, pos.z);
    payload.push(1);
    write_var_i32(&mut payload, sequence);
    proof {
        assert(payload@ =~= spec_player_action(action, sequence, pos));
    }
    payload
}

/// The body of a player-action packet that starts breaking `pos`.
pub fn encode_start_destroy(sequence: i32, pos: BlockPos) -> (r: Vec<u8>)
    ensures
        r@ == spec_player_action(0, sequence, pos),
{
    encode_player_action(0, sequence, pos)
}

/// The body of a player-action packet that finishes breaking `pos`.
pub fn encode_stop_destroy(sequence: i32, pos: BlockPos) -> (r: Vec<u8>)
    ensures
        r@ == spec_player_action(2, sequence, pos),
{
    encode_player_action(2, sequence, pos)
}

/// The sequence number under which the block at `pos` is mined for dirt: 1000 plus the
/// distance from the origin along x and z.
pub fn acquire_sequence(pos: BlockPos) -> (r: i32)
    requires
        pos.x > i32::MIN,
        pos.z > i32::MIN,
        1000 + (if pos.x < 0 { -pos.x } else { pos.x as int }) + (if pos.z < 0 { -pos.z } else { pos.z as int })
            <= i32::MAX,
    ensures
        r == 1000 + (if pos.x < 0 { -pos.x } else { pos.x as int }) + (if pos.z < 0 { -pos.z } else { pos.z as int }),
{
    let ax = if pos.x < 0 { -pos.x } else { pos.x };
    let az = if pos.z < 0 { -pos.z } else { pos.z };
    1000 + ax + az
}

/// A chat-command body: the command, without its slash.
pub fn encode_chat_command(command: &str) -> (r: Vec<u8>)
    ensures
        r@ == string_bytes(command@),
{
    let mut payload: Vec<u8> = Vec::new();
    write_string(&mut payload, command);
    assert(payload@ =~= string_bytes(command@));
    payload
}

/// An unsigned chat-message body: the message, a zero timestamp and salt, no signature, no
/// acknowledged messages, and a zero checksum.
pub open spec fn spec_chat_message(message: Seq<char>) -> Seq<u8> {
    string_bytes(message) + Seq::new(16, |i: int| 0u8) + seq![0u8] + varint_bytes(0) + seq![0u8, 0u8, 0u8]
        + seq![0u8]
}

/// The body of an unsigned chat message.
pub fn encode_chat_message(message: &str) -> (r: Vec<u8>)
    ensures
        r@ == spec_chat_message(message@),
{
    let mut payload: Vec<u8> = Vec::new();
    write_string(&mut payload, message);
    let ghost text = payload@;
    let mut i: usize = 0;
    while i < 16
        invariant
            i <= 16,
            payload@ == text + Seq::new(i as nat, |k: int| 0u8),
        decreases 16 - i,
    {
        payload.push(0);
        i += 1;
        assert(payload@ =~= text + Seq::new(i as nat, |k: int| 0u8));
    }
    payload.push(0);
    write_var_i32(&mut payload, 0);
    payload.push(0);
    payload.push(0);
    payload.push(0);
    payload.push(0);
    proof {
        assert(unsigned_of(0) == 0);
        assert(payload@ =~= spec_chat_message(message@));
    }
    payload
}

/// The big-endian bytes of a 16-bit slot number.
pub open spec fn spec_held_item_slot(slot: i16) -> Seq<u8> {
    be_bytes(if slot < 0 { slot + 0x1_0000 } else { slot as int }, 2)
}

/// The body of a serverbound held-item-slot packet that selects `slot`.
pub fn encode_held_item_slot(slot: i16) -> (r: Vec<u8>)
    ensures
        r@ == spec_held_item_slot(slot),
{
    let bits: u16 = if slot < 0 {
        (slot as i32 + 0x1_0000) as u16
    } else {
        slot as u16
    };
    let mut payload: Vec<u8> = Vec::new();
    payload.push((bits / 256) as u8);
    payload.push((bits % 256) as u8);
    proof {
        reveal_with_fuel(pow256, 2);
        assert(payload@ =~= spec_held_item_slot(slot));
    }
    payload
}

/// The two's complement bits of `v`.
pub open spec fn i64_bits(v: i64) -> int {
    if v < 0 {
        v + 0x1_0000_0000_0000_0000
    } else {
        v as int
    }
}

/// Reads a keep-alive body and checks that it carries `expected`.
pub fn validate_keepalive(data: Vec<u8>, expected: i64) -> (r: Result<i64, ProbeError>)
    ensures
        match spec_read_i64(data@, 0) {
            Err(e) => r == Err::<i64, ProbeError>(ProbeError::Codec(e)),
            Ok((id, _)) => if id != expected {
                r == Err::<i64, ProbeError>(ProbeError::Phase("keepalive id"))
            } else {
                r == Ok::<i64, ProbeError>(id)
            },
        },
{
    let (id, _) = match read_i64(data.as_slice(), 0) {
        Ok(v) => v,
        Err(e) => return Err(ProbeError::Codec(e)),
    };
    if id != expected {
        return Err(ProbeError::Phase("keepalive id"));
    }
    Ok(id)
}

/// The body that answers a keep-alive: its id as a big-endian long.
pub fn encode_keepalive_response(id: i64) -> (r: Vec<u8>)
    ensures
        r@ == be_bytes(i64_bits(id), 8),
{
    let u: u64 = if id < 0 {
        (id as i128 + 0x1_0000_0000_0000_0000i128) as u64
    } else {
        id as u64
    };
    let mut payload: Vec<u8> = Vec::new();
    payload.push(((u / 0x100_0000_0000_0000) % 256) as u8);
    payload.push(((u / 0x1_0000_0000_0000) % 256) as u8);
    payload.push(((u / 0x100_0000_0000) % 256) as u8);
    payload.push(((u / 0x1_0000_0000) % 256) as u8);
    payload.push(((u / 0x100_0000) % 256) as u8);
    payload.push(((u / 0x1_0000) % 256) as u8);
    payload.push(((u / 0x100) % 256) as u8);
    payload.push((u % 256) as u8);
    proof {
        reveal_with_fuel(pow256, 8);
        assert(payload@ =~= be_bytes(i64_bits(id), 8));
    }
    payload
}

/// A use-item-on body names the clicked block: its position reads back right after the hand,
/// for blocks whose coordinates fit the packed widths.
pub proof fn lemma_use_item_on_names_the_block(sequence: i32, pos: BlockPos)
    requires
        -0x200_0000 <= pos.x < 0x200_0000,
        -0x200_0000 <= pos.z < 0x200_0000,
        -0x800 <= pos.y < 0x800,
    ensures
        spec_read_position(spec_use_item_on(sequence, pos), 1)
            == Ok::<((i32, i32, i32), usize), CodecError>(((pos.x, pos.y, pos.z), 9usize)),
{
    let before = varint_bytes(0);
    assert(before =~= seq![0u8]);
    let rest = varint_bytes(1) + half_bytes() + one_bytes() + half_bytes() + seq![0u8] + seq![0u8]
        + varint_bytes(unsigned_of(sequence));
    assert(spec_use_item_on(sequence, pos) =~= before + position_bytes(pos) + rest);
    lemma_position_roundtrip(pos.x, pos.y, pos.z, before, rest);
}

} // verus!
