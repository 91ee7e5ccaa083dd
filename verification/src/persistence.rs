use vstd::prelude::*;

use crate::chunk::{
    lift, long_count, spec_level_chunk_with_light, validate_level_chunk_with_light, var, ProbeError,
    MIN_Y, SECTION_COUNT,
};
use crate::codec::{read_i32, read_u16, read_u8, skip, spec_read_i32, spec_read_u16, spec_read_u8, spec_read_var_i32, spec_skip};
use crate::terrain_chunk::{
    lemma_shift_in_range, low_mask, packed_index, read_long_list, read_longs_acc, read_varint_list,
    read_varints_acc,
};

verus! {

/// A block position in the world.
#[derive(Debug, Clone, Copy, PartialEq, Eq, Structural)]
pub struct BlockPos {
    pub x: i32,
    pub y: i32,
    pub z: i32,
}

impl BlockPos {
    pub fn new(x: i32, y: i32, z: i32) -> (r: Self)
        ensures
            r == (BlockPos { x, y, z }),
    {
        BlockPos { x, y, z }
    }
}

/// The block a player spawning at `spawn_block` stands on: the one just below.
pub fn spawn_ground(spawn_block: BlockPos) -> (r: BlockPos)
    requires
        spawn_block.y > i32::MIN,
    ensures
        r.x == spawn_block.x,
        r.y == spawn_block.y - 1,
        r.z == spawn_block.z,
{
    BlockPos::new(spawn_block.x, spawn_block.y - 1, spawn_block.z)
}

/// The index of `pos` within the section of chunk (chunk_x, chunk_z) whose lowest y is `min_y`,
/// when the position lies in that section.
pub open spec fn spec_target_index(chunk_x: i32, chunk_z: i32, min_y: int, pos: BlockPos) -> Option<int> {
    if chunk_x != pos.x / 16 || chunk_z != pos.z / 16 || !(min_y <= pos.y < min_y + 16) {
        None
    } else {
        Some((pos.y - min_y) * 256 + (pos.z % 16) * 16 + pos.x % 16)
    }
}

/// The section of chunk (chunk_x, chunk_z) that starts at height `min_y` holds `pos` exactly
/// when the position's x lies in `16 * chunk_x .. 16 * chunk_x + 16`, its z in
/// `16 * chunk_z .. 16 * chunk_z + 16` and its y in `min_y .. min_y + 16`; the block's index is
/// then its height in the section times 256, plus its z in the chunk times 16, plus its x in the
/// chunk, below 4096.
pub proof fn lemma_target_index_is_the_block_in_the_section(
    chunk_x: i32,
    chunk_z: i32,
    min_y: int,
    pos: BlockPos,
)
    ensures
        spec_target_index(chunk_x, chunk_z, min_y, pos) is Some <==> (16 * chunk_x <= pos.x < 16
            * chunk_x + 16 && 16 * chunk_z <= pos.z < 16 * chunk_z + 16 && min_y <= pos.y < min_y
            + 16),
        spec_target_index(chunk_x, chunk_z, min_y, pos) matches Some(i) ==> i == (pos.y - min_y)
            * 256 + (pos.z - 16 * chunk_z) * 16 + (pos.x - 16 * chunk_x) && 0 <= i < 4096,
{
    let x = pos.x as int;
    let z = pos.z as int;
    assert(x == 16 * (x / 16) + x % 16 && 0 <= x % 16 < 16) by (nonlinear_arith);
    assert(z == 16 * (z / 16) + z % 16 && 0 <= z % 16 < 16) by (nonlinear_arith);
    assert((16 * chunk_x <= x < 16 * chunk_x + 16) <==> chunk_x == x / 16) by (nonlinear_arith)
        requires
            x == 16 * (x / 16) + x % 16,
            0 <= x % 16 < 16,
    ;
    assert((16 * chunk_z <= z < 16 * chunk_z + 16) <==> chunk_z == z / 16) by (nonlinear_arith)
        requires
            z == 16 * (z / 16) + z % 16,
            0 <= z % 16 < 16,
    ;
}

/// Rounds `v / 16` down.
fn div_floor16(v: i32) -> (r: i32)
    ensures
        r == v / 16,
{
    if v >= 0 {
        v / 16
    } else {
        let a: u64 = (0i64 - v as i64) as u64;
        let q: u64 = (a + 15) / 16;
        (0i64 - q as i64) as i32
    }
}

fn target_index(chunk_x: i32, chunk_z: i32, min_y: i32, pos: BlockPos) -> (r: Option<usize>)
    requires
        -64 <= min_y <= 304,
    ensures
        match r {
            Some(i) => spec_target_index(chunk_x, chunk_z, min_y as int, pos) == Some(i as int),
            None => spec_target_index(chunk_x, chunk_z, min_y as int, pos) is None,
        },
{
    let cx = div_floor16(pos.x);
    let cz = div_floor16(pos.z);
    if chunk_x != cx || chunk_z != cz || !(min_y <= pos.y && pos.y < min_y + 16) {
        return None;
    }
    let local_x = (pos.x as i64 - 16 * cx as i64) as usize;
    let local_y = (pos.y - min_y) as usize;
    let local_z = (pos.z as i64 - 16 * cz as i64) as usize;
    Some(local_y * 256 + local_z * 16 + local_x)
}

/// A paletted container of `count` entries; gives the value at `index`, when one is asked for.
pub open spec fn spec_persist_container(s: Seq<u8>, p: usize, count: int, index: Option<int>) -> Result<(Option<i32>, usize), ProbeError> {
    match lift(spec_read_u8(s, p)) {
        Err(e) => Err(e),
        Ok((bits, p1)) => if bits == 0 {
            match lift(spec_read_var_i32(s, p1)) {
                Err(e) => Err(e),
                Ok((v, p2)) => Ok((
                    if index is Some {
                        Some(v)
                    } else {
                        None
                    },
                    p2,
                )),
            }
        } else {
            match lift(spec_read_var_i32(s, p1)) {
                Err(e) => Err(e),
                Ok((len, p2)) => match read_varints_acc(
                    s,
                    p2,
                    if len > 0 {
                        len as nat
                    } else {
                        0
                    },
                    Seq::empty(),
                ) {
                    Err(e) => Err(e),
                    Ok((palette, p3)) => if bits > 32 {
                        Err(ProbeError::Phase("persist palette bits"))
                    } else {
                        match read_longs_acc(s, p3, long_count(count, bits as int) as nat, Seq::empty()) {
                            Err(e) => Err(e),
                            Ok((longs, p4)) => match index {
                                None => Ok((None, p4)),
                                Some(i) => if packed_index(longs, bits, i) < palette.len() {
                                    Ok((Some(palette[packed_index(longs, bits, i)]), p4))
                                } else {
                                    Err(ProbeError::Phase("persist palette index"))
                                },
                            },
                        }
                    },
                },
            }
        },
    }
}

/// Reads the sections from section `k` on, keeping the first state seen at `pos`.
pub open spec fn persist_sections_from(
    s: Seq<u8>,
    p: usize,
    k: nat,
    chunk_x: i32,
    chunk_z: i32,
    pos: BlockPos,
    observed: Option<i32>,
) -> Result<(Option<i32>, usize), ProbeError>
    decreases 24 - k,
{
    if k >= 24 {
        Ok((observed, p))
    } else {
        let target = spec_target_index(chunk_x, chunk_z, MIN_Y + 16 * k, pos);
        match lift(spec_read_u16(s, p)) {
            Err(e) => Err(e),
            Ok((_, p1)) => match spec_persist_container(s, p1, 4096, target) {
                Err(e) => Err(e),
                Ok((state, p2)) => match spec_persist_container(s, p2, 64, None) {
                    Err(e) => Err(e),
                    Ok((_, p3)) => persist_sections_from(
                        s,
                        p3,
                        k + 1,
                        chunk_x,
                        chunk_z,
                        pos,
                        if observed is Some {
                            observed
                        } else {
                            state
                        },
                    ),
                },
            },
        }
    }
}

/// One heightmap of the two a chunk packet must carry: a kind and exactly 37 longs.
pub open spec fn persist_heightmap(s: Seq<u8>, p: usize) -> Result<usize, ProbeError> {
    match lift(spec_read_var_i32(s, p)) {
        Err(e) => Err(e),
        Ok((_, p1)) => match lift(spec_read_var_i32(s, p1)) {
            Err(e) => Err(e),
            Ok((n, p2)) => if n != 37 {
                Err(ProbeError::Phase("persist heightmap longs"))
            } else {
                match spec_skip(s, p2, 296int) {
                    None => Err(ProbeError::Phase("persist packet eof")),
                    Some(p3) => Ok(p3),
                }
            },
        },
    }
}

/// The heightmaps of a chunk packet as the block lookup reads them: exactly two, each of 37
/// longs.
pub open spec fn persist_heightmaps(s: Seq<u8>, p: usize) -> Result<usize, ProbeError> {
    match lift(spec_read_var_i32(s, p)) {
        Err(e) => Err(e),
        Ok((n, p1)) => if n != 2 {
            Err(ProbeError::Phase("persist heightmaps"))
        } else {
            match persist_heightmap(s, p1) {
                Err(e) => Err(e),
                Ok(p2) => persist_heightmap(s, p2),
            }
        },
    }
}

/// The block state at `pos` that a chunk packet body carries, if the chunk holds `pos`.
pub open spec fn spec_block_state_at(s: Seq<u8>, pos: BlockPos) -> Result<Option<i32>, ProbeError> {
    match lift(spec_read_i32(s, 0)) {
        Err(e) => Err(e),
        Ok((chunk_x, p1)) => match lift(spec_read_i32(s, p1)) {
            Err(e) => Err(e),
            Ok((chunk_z, p2)) => match persist_heightmaps(s, p2) {
                Err(e) => Err(e),
                Ok(p3) => match lift(spec_read_var_i32(s, p3)) {
                    Err(e) => Err(e),
                    Ok((len, p4)) => if len < 0 {
                        Err(ProbeError::Phase("persist chunk length"))
                    } else {
                        match persist_sections_from(s, p4, 0, chunk_x, chunk_z, pos, None) {
                            Err(e) => Err(e),
                            Ok((state, p5)) => if p5 != p4 + len {
                                Err(ProbeError::Phase("persist chunk boundary"))
                            } else {
                                Ok(state)
                            },
                        }
                    },
                },
            },
        },
    }
}

fn read_packed_longs(data: &[u8], pos: usize, count: usize, bits: u8) -> (r: Result<(Vec<u64>, usize), ProbeError>)
    requires
        count <= 4096,
    ensures
        bits == 0 || bits > 32 ==> r == Err::<(Vec<u64>, usize), ProbeError>(ProbeError::Phase("persist palette bits")),
        1 <= bits <= 32 ==> match r {
            Ok((v, q)) => read_longs_acc(data@, pos, long_count(count as int, bits as int) as nat, Seq::empty())
                == Ok::<(Seq<u64>, usize), ProbeError>((v@, q)) && v@.len() == long_count(count as int, bits as int),
            Err(e) => read_longs_acc(data@, pos, long_count(count as int, bits as int) as nat, Seq::empty())
                == Err::<(Seq<u64>, usize), ProbeError>(e),
        },
{
    if bits == 0 || bits > 32 {
        return Err(ProbeError::Phase("persist palette bits"));
    }
    let per = 64 / bits as usize;
    proof {
        lemma_shift_in_range(0, per as int, bits as int);
        assert(count / per <= count) by (nonlinear_arith)
            requires
                per >= 1,
        ;
    }
    let long_total = if count % per == 0 {
        count / per
    } else {
        count / per + 1
    };
    read_long_list(data, pos, long_total)
}

fn decode_index(palette: &Vec<i32>, longs: &Vec<u64>, bits: u8, index: usize) -> (r: Result<i32, ProbeError>)
    requires
        1 <= bits <= 32,
        index < 4096,
        longs@.len() == long_count(4096, bits as int),
    ensures
        match r {
            Ok(v) => packed_index(longs@, bits, index as int) < palette@.len() && v == palette@[packed_index(longs@, bits, index as int)],
            Err(e) => packed_index(longs@, bits, index as int) >= palette@.len() && e == ProbeError::Phase("persist palette index"),
        },
{
    let values_per_long = 64 / bits as usize;
    proof {
        lemma_shift_in_range(index as int, values_per_long as int, bits as int);
        assert((index as int) / (values_per_long as int) < long_count(4096, bits as int)) by (nonlinear_arith)
            requires
                0 <= index < 4096,
                values_per_long >= 1,
                values_per_long == 64int / bits as int,
                long_count(4096, bits as int) == if 4096int % values_per_long as int == 0 {
                    4096int / values_per_long as int
                } else {
                    4096int / values_per_long as int + 1
                },
        ;
    }
    assert(1u64 << bits >= 1) by (bit_vector)
        requires
            1 <= bits <= 32,
    ;
    let mask: u64 = (1u64 << bits) - 1;
    assert(mask == low_mask(bits)) by (bit_vector)
        requires
            1 <= bits <= 32,
            mask == ((1u64 << bits) - 1) as u64,
    ;
    let long = longs[index / values_per_long];
    let offset = ((index % values_per_long) * bits as usize) as u64;
    let palette_index: u64 = (long >> offset) & mask;
    assert(palette_index as int == packed_index(longs@, bits, index as int));
    if palette_index >= palette.len() as u64 {
        return Err(ProbeError::Phase("persist palette index"));
    }
    Ok(palette[palette_index as usize])
}

fn read_container(data: &[u8], pos: usize, count: usize, index: Option<usize>) -> (r: Result<(Option<i32>, usize), ProbeError>)
    requires
        count == 4096 || (count == 64 && index is None),
        index matches Some(i) ==> i < count,
    ensures
        r == spec_persist_container(
            data@,
            pos,
            count as int,
            match index {
                Some(i) => Some(i as int),
                None => None,
            },
        ),
{
    let (bits, p1) = match read_u8(data, pos) {
        Ok(v) => v,
        Err(e) => return Err(ProbeError::Codec(e)),
    };
    if bits == 0 {
        let (value, p2) = var(data, p1)?;
        return Ok(
            (
                match index {
                    Some(_) => Some(value),
                    None => None,
                },
                p2,
            ),
        );
    }
    let (palette_len, p2) = var(data, p1)?;
    let (palette, p3) = read_varint_list(data, p2, palette_len)?;
    let (longs, p4) = read_packed_longs(data, p3, count, bits)?;
    match index {
        None => Ok((None, p4)),
        Some(item) => {
            let value = decode_index(&palette, &longs, bits, item)?;
            Ok((Some(value), p4))
        },
    }
}

fn read_sections(data: &[u8], pos: usize, chunk_x: i32, chunk_z: i32, block: BlockPos) -> (r: Result<(Option<i32>, usize), ProbeError>)
    ensures
        r == persist_sections_from(data@, pos, 0, chunk_x, chunk_z, block, None),
{
    let mut observed: Option<i32> = None;
    let mut p = pos;
    let mut section: usize = 0;
    while section < SECTION_COUNT
        invariant
            section <= SECTION_COUNT,
            persist_sections_from(data@, pos, 0, chunk_x, chunk_z, block, None) == persist_sections_from(
                data@,
                p,
                section as nat,
                chunk_x,
                chunk_z,
                block,
                observed,
            ),
        decreases SECTION_COUNT - section,
    {
        let min_y = MIN_Y + section as i32 * 16;
        let target = target_index(chunk_x, chunk_z, min_y, block);
        let (_non_air, p1) = match read_u16(data, p) {
            Ok(v) => v,
            Err(e) => return Err(ProbeError::Codec(e)),
        };
        proof {
            if let Some(i) = target {
                assert(i < 4096);
            }
        }
        let (state, p2) = read_container(data, p1, 4096, target)?;
        let (_biomes, p3) = read_container(data, p2, 64, None)?;
        observed = match observed {
            Some(v) => Some(v),
            None => state,
        };
        p = p3;
        section += 1;
    }
    Ok((observed, p))
}

fn skip_heightmap(data: &[u8], pos: usize) -> (r: Result<usize, ProbeError>)
    ensures
        r == persist_heightmap(data@, pos),
{
    let (_kind, p1) = var(data, pos)?;
    let (longs, p2) = var(data, p1)?;
    if longs != 37 {
        return Err(ProbeError::Phase("persist heightmap longs"));
    }
    match skip(data, p2, 37 * 8) {
        Some(p3) => Ok(p3),
        None => Err(ProbeError::Phase("persist packet eof")),
    }
}

fn skip_heightmaps(data: &[u8], pos: usize) -> (r: Result<usize, ProbeError>)
    ensures
        r == persist_heightmaps(data@, pos),
{
    let (n, p1) = var(data, pos)?;
    if n != 2 {
        return Err(ProbeError::Phase("persist heightmaps"));
    }
    let p2 = skip_heightmap(data, p1)?;
    skip_heightmap(data, p2)
}

/// The block state at `pos` carried by a chunk packet body; `None` when the chunk does not
/// hold `pos`.
pub fn block_state_at(data: Vec<u8>, pos: BlockPos) -> (r: Result<Option<i32>, ProbeError>)
    ensures
        r == spec_block_state_at(data@, pos),
{
    let d = data.as_slice();
    let (chunk_x, p1) = match read_i32(d, 0) {
        Ok(v) => v,
        Err(e) => return Err(ProbeError::Codec(e)),
    };
    let (chunk_z, p2) = match read_i32(d, p1) {
        Ok(v) => v,
        Err(e) => return Err(ProbeError::Codec(e)),
    };
    let p3 = skip_heightmaps(d, p2)?;
    let (len, p4) = var(d, p3)?;
    if len < 0 {
        return Err(ProbeError::Phase("persist chunk length"));
    }
    let (state, p5) = read_sections(d, p4, chunk_x, chunk_z, pos)?;
    if p5 < p4 || (p5 - p4) as u64 != len as u64 {
        return Err(ProbeError::Phase("persist chunk boundary"));
    }
    Ok(state)
}

/// One chunk of the login batch: where a persisted block is expected, the state at `target`
/// is read from it; a chunk that does not hold `target` (or any chunk, when nothing is
/// expected) is checked as a whole instead. Gives the first state observed so far.
pub open spec fn spec_observe_chunk(s: Seq<u8>, expected_block: Option<i32>, target: BlockPos, observed: Option<i32>) -> Result<Option<i32>, ProbeError> {
    let persisted: Result<Option<i32>, ProbeError> = if expected_block is Some {
        spec_block_state_at(s, target)
    } else {
        Ok(None)
    };
    match persisted {
        Err(e) => Err(e),
        Ok(state) => {
            let checked: Result<(), ProbeError> = if state is None {
                spec_level_chunk_with_light(s)
            } else {
                Ok(())
            };
            match checked {
                Err(e) => Err(e),
                Ok(_) => Ok(if observed is Some { observed } else { state }),
            }
        },
    }
}

/// Takes one chunk of the login batch into the observation of the persisted block.
pub fn observe_chunk(data: Vec<u8>, expected_block: Option<i32>, target: BlockPos, observed: Option<i32>) -> (r: Result<Option<i32>, ProbeError>)
    ensures
        r == spec_observe_chunk(data@, expected_block, target, observed),
{
    let persisted = if expected_block.is_some() {
        block_state_at(data.clone(), target)?
    } else {
        None
    };
    if persisted.is_none() {
        validate_level_chunk_with_light(data)?;
    }
    Ok(match observed {
        Some(v) => Some(v),
        None => persisted,
    })
}

/// After the batch: where a block state is expected, it must be the one observed.
pub fn check_persisted_block(expected_block: Option<i32>, observed: Option<i32>) -> (r: Result<(), ProbeError>)
    ensures
        r == (match expected_block {
            Some(expected) => if observed != Some(expected) {
                Err(ProbeError::Phase("persisted block state"))
            } else {
                Ok::<(), ProbeError>(())
            },
            None => Ok::<(), ProbeError>(()),
        }),
{
    match expected_block {
        Some(expected) => {
            let same = match observed {
                Some(v) => v == expected,
                None => false,
            };
            if !same {
                return Err(ProbeError::Phase("persisted block state"));
            }
            Ok(())
        },
        None => Ok(()),
    }
}

} // verus!
