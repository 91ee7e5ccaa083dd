use vstd::prelude::*;

use crate::chunk::{lift, long_count, var, ProbeError, SECTION_COUNT};
use crate::codec::{
    read_i32, read_u16, read_u64, read_u8, skip, spec_read_i32, spec_read_u16, spec_read_u64,
    spec_read_u8, spec_read_var_i32, spec_skip,
};

verus! {

/// The block state of air.
pub const AIR: i32 = 0;

/// Blocks in one column of chunk sections.
pub const COLUMN_BLOCKS: usize = 98304;

/// The block states of a chunk column, decoded from a chunk packet. Blocks are stored section
/// by section from the bottom, each section in y, z, x order.
pub struct DecodedChunk {
    blocks: Vec<i32>,
}

impl DecodedChunk {
    #[verifier::type_invariant]
    spec fn full_column(self) -> bool {
        self.blocks@.len() == COLUMN_BLOCKS
    }
}

impl View for DecodedChunk {
    type V = Seq<i32>;

    closed spec fn view(&self) -> Seq<i32> {
        self.blocks@
    }
}

/// The state at (x, y, z) of a column given as its block sequence; air outside the column.
pub open spec fn column_state(b: Seq<i32>, x: int, y: int, z: int) -> i32 {
    if 0 <= x < 16 && 0 <= z < 16 && -64 <= y < 320 && b.len() == COLUMN_BLOCKS {
        b[(y + 64) * 256 + z * 16 + x]
    } else {
        AIR
    }
}

/// The highest non-air y at or below `y` in column (x, z).
pub open spec fn top_solid(b: Seq<i32>, x: int, z: int, y: int) -> Option<i32>
    decreases y + 65,
{
    if y < -64 {
        None
    } else if column_state(b, x, y, z) != AIR {
        Some(y as i32)
    } else {
        top_solid(b, x, z, y - 1)
    }
}

/// The highest non-air y of column (x, z), if any.
pub open spec fn spec_surface_y(b: Seq<i32>, x: int, z: int) -> Option<i32> {
    top_solid(b, x, z, 319)
}

/// Some y in `min_y..=max_y` of column (x, z) is not air.
pub open spec fn spec_solid_between(b: Seq<i32>, x: int, min_y: int, max_y: int, z: int) -> bool {
    min_y <= max_y && exists|y: int| min_y <= y <= max_y && #[trigger] column_state(b, x, y, z) != AIR
}

/// Some column's surface is not at y = 79, the surface of flat terrain.
pub open spec fn spec_non_flat(b: Seq<i32>) -> bool {
    exists|x: int, z: int|
        0 <= x < 16 && 0 <= z < 16 && #[trigger] spec_surface_y(b, x, z) != Some(79i32)
}

/// Some block of the column has the given, non-air, state.
pub open spec fn spec_contains_state(b: Seq<i32>, state: i32) -> bool {
    state != AIR && exists|i: int| 0 <= i < b.len() && b[i] == state
}

/// Some block at height `y` has the given, non-air, state.
pub open spec fn spec_contains_state_at_y(b: Seq<i32>, state: i32, y: int) -> bool {
    state != AIR && exists|x: int, z: int| 0 <= x < 16 && 0 <= z < 16 && #[trigger] column_state(b, x, y, z) == state
}

/// Air at height `y` of column (x, z) with solid blocks both above (up to the surface `sy`)
/// and below (down to y = 8).
pub open spec fn enclosed_air_at(b: Seq<i32>, x: int, z: int, sy: int, y: int) -> bool {
    &&& column_state(b, x, y, z) == AIR
    &&& spec_solid_between(b, x, y + 1, sy, z)
    &&& spec_solid_between(b, x, 8, y - 1, z)
}

/// Column (x, z) has a surface at y = 17 or higher and, between y = 8 and eight blocks below
/// the surface, air closed in by solid blocks above and below.
pub open spec fn column_has_enclosed_air(b: Seq<i32>, x: int, z: int) -> bool {
    let sy = spec_surface_y(b, x, z)->0 as int;
    &&& spec_surface_y(b, x, z) is Some
    &&& sy >= 17
    &&& exists|y: int| 8 <= y <= sy - 8 && #[trigger] enclosed_air_at(b, x, z, sy, y)
}

/// Some column of the chunk has enclosed underground air.
pub open spec fn spec_enclosed_underground_air(b: Seq<i32>) -> bool {
    exists|x: int, z: int| 0 <= x < 16 && 0 <= z < 16 && #[trigger] column_has_enclosed_air(b, x, z)
}

/// Reads `n` VarInts, appending them to `acc`.
pub open spec fn read_varints_acc(s: Seq<u8>, p: usize, n: nat, acc: Seq<i32>) -> Result<(Seq<i32>, usize), ProbeError>
    decreases n,
{
    if n == 0 {
        Ok((acc, p))
    } else {
        match lift(spec_read_var_i32(s, p)) {
            Err(e) => Err(e),
            Ok((v, q)) => read_varints_acc(s, q, (n - 1) as nat, acc.push(v)),
        }
    }
}

/// Reads `n` big-endian 64-bit words, appending them to `acc`.
pub open spec fn read_longs_acc(s: Seq<u8>, p: usize, n: nat, acc: Seq<u64>) -> Result<(Seq<u64>, usize), ProbeError>
    decreases n,
{
    if n == 0 {
        Ok((acc, p))
    } else {
        match lift(spec_read_u64(s, p)) {
            Err(e) => Err(e),
            Ok((v, q)) => read_longs_acc(s, q, (n - 1) as nat, acc.push(v)),
        }
    }
}

/// Bits `bits` wide, all set.
pub open spec fn low_mask(bits: u8) -> u64 {
    ((1u64 << bits) - 1) as u64
}

/// The palette index packed at entry `i`.
pub open spec fn packed_index(longs: Seq<u64>, bits: u8, i: int) -> int {
    let per = 64int / bits as int;
    ((longs[i / per] >> (((i % per) * bits) as u64)) & low_mask(bits)) as int
}

/// The block states of `count` packed entries, or an error when one points past the palette.
pub open spec fn spec_decode_indexes(palette: Seq<i32>, longs: Seq<u64>, bits: u8, count: int) -> Result<Seq<i32>, ProbeError> {
    if exists|i: int| 0 <= i < count && #[trigger] packed_index(longs, bits, i) >= palette.len() {
        Err(ProbeError::Phase("terrain palette index"))
    } else {
        Ok(Seq::new(count as nat, |i: int| palette[packed_index(longs, bits, i)]))
    }
}

/// A paletted container of `count` entries, decoded to its values.
pub open spec fn spec_read_container(s: Seq<u8>, p: usize, count: int) -> Result<(Seq<i32>, usize), ProbeError> {
    match lift(spec_read_u8(s, p)) {
        Err(e) => Err(e),
        Ok((bits, p1)) => if bits == 0 {
            match lift(spec_read_var_i32(s, p1)) {
                Err(e) => Err(e),
                Ok((v, p2)) => Ok((Seq::new(count as nat, |i: int| v), p2)),
            }
        } else if bits >= 64 {
            Err(ProbeError::Phase("terrain palette bits"))
        } else {
            match lift(spec_read_var_i32(s, p1)) {
                Err(e) => Err(e),
                Ok((len, p2)) => match read_varints_acc(
                    s,
                    p2,
                    if len > 0 {
                        len as nat
                    } else {
                        0
                    },
                    Seq::empty(),
                ) {
                    Err(e) => Err(e),
                    Ok((palette, p3)) => match read_longs_acc(
                        s,
                        p3,
                        long_count(count, bits as int) as nat,
                        Seq::empty(),
                    ) {
                        Err(e) => Err(e),
                        Ok((longs, p4)) => match spec_decode_indexes(palette, longs, bits, count) {
                            Err(e) => Err(e),
                            Ok(values) => Ok((values, p4)),
                        },
                    },
                },
            }
        },
    }
}

/// One section: a block count, the 4096 block states, and the biomes (decoded, then dropped).
pub open spec fn spec_read_section(s: Seq<u8>, p: usize) -> Result<(Seq<i32>, usize), ProbeError> {
    match lift(spec_read_u16(s, p)) {
        Err(e) => Err(e),
        Ok((_, p1)) => match spec_read_container(s, p1, 4096) {
            Err(e) => Err(e),
            Ok((states, p2)) => match spec_read_container(s, p2, 64) {
                Err(e) => Err(e),
                Ok((_, p3)) => Ok((states, p3)),
            },
        },
    }
}

/// Reads `n` sections, appending their block states to `acc`.
pub open spec fn read_sections_acc(s: Seq<u8>, p: usize, n: nat, acc: Seq<i32>) -> Result<(Seq<i32>, usize), ProbeError>
    decreases n,
{
    if n == 0 {
        Ok((acc, p))
    } else {
        match spec_read_section(s, p) {
            Err(e) => Err(e),
            Ok((states, q)) => read_sections_acc(s, q, (n - 1) as nat, acc + states),
        }
    }
}

/// Skips `n` heightmaps of any kind and length.
pub open spec fn skip_heightmaps_from(s: Seq<u8>, p: usize, n: nat) -> Result<usize, ProbeError>
    decreases n,
{
    if n == 0 {
        Ok(p)
    } else {
        match lift(spec_read_var_i32(s, p)) {
            Err(e) => Err(e),
            Ok((_, p1)) => match lift(spec_read_var_i32(s, p1)) {
                Err(e) => Err(e),
                Ok((longs, p2)) => match spec_skip(s, p2, longs as int * 8) {
                    None => Err(ProbeError::Phase("terrain packet eof")),
                    Some(p3) => skip_heightmaps_from(s, p3, (n - 1) as nat),
                },
            },
        }
    }
}

/// The heightmaps: a count, then that many heightmaps.
pub open spec fn spec_skip_heightmaps(s: Seq<u8>, p: usize) -> Result<usize, ProbeError> {
    match lift(spec_read_var_i32(s, p)) {
        Err(e) => Err(e),
        Ok((n, p1)) => skip_heightmaps_from(
            s,
            p1,
            if n > 0 {
                n as nat
            } else {
                0
            },
        ),
    }
}

/// The block states of a chunk packet body: the chunk position, the heightmaps, and the chunk
/// data, whose sections must end where its length says.
pub open spec fn spec_decode_chunk(s: Seq<u8>) -> Result<Seq<i32>, ProbeError> {
    match lift(spec_read_i32(s, 0)) {
        Err(e) => Err(e),
        Ok((_, p1)) => match lift(spec_read_i32(s, p1)) {
            Err(e) => Err(e),
            Ok((_, p2)) => match spec_skip_heightmaps(s, p2) {
                Err(e) => Err(e),
                Ok(p3) => match lift(spec_read_var_i32(s, p3)) {
                    Err(e) => Err(e),
                    Ok((len, p4)) => if len < 0 {
                        Err(ProbeError::Phase("terrain chunk data boundary"))
                    } else {
                        match read_sections_acc(s, p4, SECTION_COUNT as nat, Seq::empty()) {
                            Err(e) => Err(e),
                            Ok((blocks, p5)) => if p5 != p4 + len {
                                Err(ProbeError::Phase("terrain chunk data boundary"))
                            } else {
                                Ok(blocks)
                            },
                        }
                    },
                },
            },
        },
    }
}

proof fn lemma_top_solid_range(b: Seq<i32>, x: int, z: int, y: int)
    ensures
        top_solid(b, x, z, y) matches Some(t) ==> -64 <= t <= y,
    decreases y + 65,
{
    if y >= -64 && column_state(b, x, y, z) == AIR {
        lemma_top_solid_range(b, x, z, y - 1);
    }
}

proof fn lemma_top_solid_is(b: Seq<i32>, x: int, z: int, sy: int, h: int)
    requires
        -64 <= sy <= h,
        column_state(b, x, sy, z) != AIR,
        forall|k: int| sy < k <= h ==> #[trigger] column_state(b, x, k, z) == AIR,
    ensures
        top_solid(b, x, z, h) == Some(sy as i32),
    decreases h - sy,
{
    if h > sy {
        lemma_top_solid_is(b, x, z, sy, h - 1);
    }
}

/// A chunk has enclosed underground air as soon as any one of its 256 columns has it: a
/// column whose highest non-air block is at `sy`, at least 17, with air at some `y` between
/// y = 8 and `sy - 8`, a non-air block above that air no higher than `sy`, and a non-air block
/// below it no lower than y = 8.
pub proof fn lemma_enclosed_air_in_any_column(
    b: Seq<i32>,
    x: int,
    z: int,
    sy: int,
    y: int,
    above: int,
    below: int,
)
    requires
        b.len() == COLUMN_BLOCKS,
        0 <= x < 16,
        0 <= z < 16,
        17 <= sy < 320,
        column_state(b, x, sy, z) != AIR,
        forall|k: int| sy < k < 320 ==> #[trigger] column_state(b, x, k, z) == AIR,
        8 <= y <= sy - 8,
        column_state(b, x, y, z) == AIR,
        y < above <= sy,
        column_state(b, x, above, z) != AIR,
        8 <= below < y,
        column_state(b, x, below, z) != AIR,
    ensures
        spec_enclosed_underground_air(b),
{
    lemma_top_solid_is(b, x, z, sy, 319);
    assert(spec_surface_y(b, x, z) == Some(sy as i32));
    assert(spec_solid_between(b, x, y + 1, sy, z));
    assert(spec_solid_between(b, x, 8, y - 1, z));
    assert(enclosed_air_at(b, x, z, sy, y));
    assert(column_has_enclosed_air(b, x, z));
}

proof fn lemma_top_solid_facts(b: Seq<i32>, x: int, z: int, h: int)
    ensures
        top_solid(b, x, z, h) matches Some(t) ==> column_state(b, x, t as int, z) != AIR && forall|k: int|
            t < k <= h ==> #[trigger] column_state(b, x, k, z) == AIR,
    decreases h + 65,
{
    if h >= -64 && column_state(b, x, h, z) == AIR {
        lemma_top_solid_facts(b, x, z, h - 1);
    }
}

/// Enclosed underground air is found only where some column has it: a column whose highest
/// non-air block is at `sy`, at least 17, with air at some `y` between y = 8 and `sy - 8`, a
/// non-air block above that air no higher than `sy`, and a non-air block below it no lower
/// than y = 8.
pub proof fn lemma_enclosed_air_has_a_witness(b: Seq<i32>)
    requires
        spec_enclosed_underground_air(b),
    ensures
        exists|x: int, z: int, sy: int, y: int, above: int, below: int|
            #![trigger column_state(b, x, sy, z), column_state(b, x, y, z), column_state(b, x, above, z), column_state(b, x, below, z)]
            {
                &&& 0 <= x < 16
                &&& 0 <= z < 16
                &&& 17 <= sy < 320
                &&& column_state(b, x, sy, z) != AIR
                &&& forall|k: int| sy < k < 320 ==> #[trigger] column_state(b, x, k, z) == AIR
                &&& 8 <= y <= sy - 8
                &&& column_state(b, x, y, z) == AIR
                &&& y < above <= sy
                &&& column_state(b, x, above, z) != AIR
                &&& 8 <= below < y
                &&& column_state(b, x, below, z) != AIR
            },
{
    let (x, z) = choose|x: int, z: int| 0 <= x < 16 && 0 <= z < 16 && #[trigger] column_has_enclosed_air(b, x, z);
    let sy = spec_surface_y(b, x, z)->0 as int;
    lemma_top_solid_range(b, x, z, 319);
    lemma_top_solid_facts(b, x, z, 319);
    let y = choose|y: int| 8 <= y <= sy - 8 && #[trigger] enclosed_air_at(b, x, z, sy, y);
    let above = choose|k: int| y + 1 <= k <= sy && #[trigger] column_state(b, x, k, z) != AIR;
    let below = choose|k: int| 8 <= k <= y - 1 && #[trigger] column_state(b, x, k, z) != AIR;
    assert(column_state(b, x, sy, z) != AIR && column_state(b, x, y, z) == AIR && column_state(b, x, above, z)
        != AIR && column_state(b, x, below, z) != AIR);
}

proof fn lemma_sections_len(s: Seq<u8>, p: usize, n: nat, acc: Seq<i32>)
    ensures
        read_sections_acc(s, p, n, acc) matches Ok((v, _)) ==> v.len() == acc.len() + n * 4096,
    decreases n,
{
    if n > 0 {
        match spec_read_section(s, p) {
            Err(_) => {},
            Ok((states, q)) => {
                assert(states.len() == 4096);
                lemma_sections_len(s, q, (n - 1) as nat, acc + states);
            },
        }
    }
}

pub(crate) fn read_varint_list(data: &[u8], pos: usize, n: i32) -> (r: Result<(Vec<i32>, usize), ProbeError>)
    ensures
        match r {
            Ok((v, q)) => read_varints_acc(data@, pos, if n > 0 { n as nat } else { 0 }, Seq::empty())
                == Ok::<(Seq<i32>, usize), ProbeError>((v@, q)),
            Err(e) => read_varints_acc(data@, pos, if n > 0 { n as nat } else { 0 }, Seq::empty())
                == Err::<(Seq<i32>, usize), ProbeError>(e),
        },
{
    let ghost total: nat = if n > 0 {
        n as nat
    } else {
        0
    };
    let mut out: Vec<i32> = Vec::new();
    let mut p = pos;
    let mut k: i32 = 0;
    while k < n
        invariant
            0 <= k,
            n > 0 ==> k <= n,
            n <= 0 ==> k == 0,
            total == (if n > 0 { n as nat } else { 0 }),
            read_varints_acc(data@, pos, total, Seq::empty()) == read_varints_acc(
                data@,
                p,
                (total - k) as nat,
                out@,
            ),
        decreases n - k,
    {
        let (v, q) = var(data, p)?;
        out.push(v);
        p = q;
        k += 1;
    }
    Ok((out, p))
}

pub(crate) fn read_long_list(data: &[u8], pos: usize, n: usize) -> (r: Result<(Vec<u64>, usize), ProbeError>)
    ensures
        match r {
            Ok((v, q)) => read_longs_acc(data@, pos, n as nat, Seq::empty()) == Ok::<(Seq<u64>, usize), ProbeError>((v@, q)),
            Err(e) => read_longs_acc(data@, pos, n as nat, Seq::empty()) == Err::<(Seq<u64>, usize), ProbeError>(e),
        },
        r matches Ok((v, _)) ==> v@.len() == n,
{
    let mut out: Vec<u64> = Vec::new();
    let mut p = pos;
    let mut k: usize = 0;
    while k < n
        invariant
            k <= n,
            out@.len() == k,
            read_longs_acc(data@, pos, n as nat, Seq::empty()) == read_longs_acc(
                data@,
                p,
                (n - k) as nat,
                out@,
            ),
        decreases n - k,
    {
        let (v, q) = match read_u64(data, p) {
            Ok(x) => x,
            Err(e) => return Err(ProbeError::Codec(e)),
        };
        out.push(v);
        p = q;
        k += 1;
    }
    Ok((out, p))
}

pub(crate) proof fn lemma_shift_in_range(i: int, per: int, bits: int)
    requires
        1 <= bits <= 63,
        per == 64int / bits,
        0 <= i,
    ensures
        1 <= per,
        0 <= (i % per) * bits <= 64 - bits,
{
    assert(1 <= per) by (nonlinear_arith)
        requires
            1 <= bits <= 63,
            per == 64int / bits,
    ;
    assert(per * bits <= 64) by (nonlinear_arith)
        requires
            1 <= bits,
            per == 64int / bits,
    ;
    assert(0 <= i % per < per);
    assert(0 <= (i % per) * bits <= per * bits - bits) by (nonlinear_arith)
        requires
            0 <= i % per <= per - 1,
            bits >= 1,
    ;
}

fn decode_indexes(palette: &Vec<i32>, longs: &Vec<u64>, bits: u8, count: usize) -> (r: Result<Vec<i32>, ProbeError>)
    requires
        1 <= bits <= 63,
        count <= 4096,
        longs@.len() == long_count(count as int, bits as int),
    ensures
        match r {
            Ok(v) => spec_decode_indexes(palette@, longs@, bits, count as int) == Ok::<Seq<i32>, ProbeError>(v@),
            Err(e) => spec_decode_indexes(palette@, longs@, bits, count as int) == Err::<Seq<i32>, ProbeError>(e),
        },
{
    let per = 64 / bits as usize;
    assert(1u64 << bits >= 1) by (bit_vector)
        requires
            1 <= bits <= 63,
    ;
    let mask: u64 = (1u64 << bits) - 1;
    assert(mask == low_mask(bits)) by (bit_vector)
        requires
            1 <= bits <= 63,
            mask == ((1u64 << bits) - 1) as u64,
    ;
    let mut out: Vec<i32> = Vec::new();
    let mut index: usize = 0;
    while index < count
        invariant
            1 <= bits <= 63,
            per == 64int / bits as int,
            mask == low_mask(bits),
            count <= 4096,
            longs@.len() == long_count(count as int, bits as int),
            index <= count,
            out@.len() == index,
            forall|i: int| 0 <= i < index ==> packed_index(longs@, bits, i) < palette@.len(),
            forall|i: int| 0 <= i < index ==> out@[i] == palette@[packed_index(longs@, bits, i)],
        decreases count - index,
    {
        proof {
            lemma_shift_in_range(index as int, per as int, bits as int);
            assert((index as int) / (per as int) < long_count(count as int, bits as int)) by (nonlinear_arith)
                requires
                    0 <= index < count,
                    per >= 1,
                    per == 64int / bits as int,
                    long_count(count as int, bits as int) == if count as int % per as int == 0 {
                        count as int / per as int
                    } else {
                        count as int / per as int + 1
                    },
            ;
        }
        let shift = ((index % per) * bits as usize) as u64;
        let palette_index: u64 = (longs[index / per] >> shift) & mask;
        assert(palette_index as int == packed_index(longs@, bits, index as int));
        if palette_index >= palette.len() as u64 {
            return Err(ProbeError::Phase("terrain palette index"));
        }
        out.push(palette[palette_index as usize]);
        index += 1;
    }
    assert(out@ =~= Seq::new(count as nat, |i: int| palette@[packed_index(longs@, bits, i)]));
    Ok(out)
}

fn read_container(data: &[u8], pos: usize, count: usize) -> (r: Result<(Vec<i32>, usize), ProbeError>)
    requires
        count <= 4096,
    ensures
        match r {
            Ok((v, q)) => spec_read_container(data@, pos, count as int) == Ok::<(Seq<i32>, usize), ProbeError>((v@, q)),
            Err(e) => spec_read_container(data@, pos, count as int) == Err::<(Seq<i32>, usize), ProbeError>(e),
        },
{
    let (bits, p1) = match read_u8(data, pos) {
        Ok(v) => v,
        Err(e) => return Err(ProbeError::Codec(e)),
    };
    if bits == 0 {
        let (value, p2) = var(data, p1)?;
        let mut out: Vec<i32> = Vec::new();
        let mut k: usize = 0;
        while k < count
            invariant
                k <= count,
                out@ =~= Seq::new(k as nat, |i: int| value),
            decreases count - k,
        {
            out.push(value);
            k += 1;
        }
        return Ok((out, p2));
    }
    if bits >= 64 {
        return Err(ProbeError::Phase("terrain palette bits"));
    }
    let (palette_len, p2) = var(data, p1)?;
    let (palette, p3) = read_varint_list(data, p2, palette_len)?;
    let per = 64 / bits as usize;
    proof {
        lemma_shift_in_range(0, per as int, bits as int);
        assert(count / per <= count) by (nonlinear_arith)
            requires
                per >= 1,
        ;
    }
    let long_total = if count % per == 0 {
        count / per
    } else {
        count / per + 1
    };
    let (longs, p4) = read_long_list(data, p3, long_total)?;
    let values = decode_indexes(&palette, &longs, bits, count)?;
    Ok((values, p4))
}

fn read_section(data: &[u8], pos: usize) -> (r: Result<(Vec<i32>, usize), ProbeError>)
    ensures
        match r {
            Ok((v, q)) => spec_read_section(data@, pos) == Ok::<(Seq<i32>, usize), ProbeError>((v@, q)),
            Err(e) => spec_read_section(data@, pos) == Err::<(Seq<i32>, usize), ProbeError>(e),
        },
{
    let (_non_air, p1) = match read_u16(data, pos) {
        Ok(v) => v,
        Err(e) => return Err(ProbeError::Codec(e)),
    };
    let (states, p2) = read_container(data, p1, 4096)?;
    let (_biomes, p3) = read_container(data, p2, 64)?;
    Ok((states, p3))
}

fn read_sections(data: &[u8], pos: usize) -> (r: Result<(Vec<i32>, usize), ProbeError>)
    ensures
        match r {
            Ok((v, q)) => read_sections_acc(data@, pos, SECTION_COUNT as nat, Seq::empty())
                == Ok::<(Seq<i32>, usize), ProbeError>((v@, q)),
            Err(e) => read_sections_acc(data@, pos, SECTION_COUNT as nat, Seq::empty())
                == Err::<(Seq<i32>, usize), ProbeError>(e),
        },
{
    let mut blocks: Vec<i32> = Vec::new();
    let mut p = pos;
    let mut k: usize = 0;
    while k < SECTION_COUNT
        invariant
            k <= SECTION_COUNT,
            read_sections_acc(data@, pos, SECTION_COUNT as nat, Seq::empty()) == read_sections_acc(
                data@,
                p,
                (SECTION_COUNT - k) as nat,
                blocks@,
            ),
        decreases SECTION_COUNT - k,
    {
        let (mut states, q) = read_section(data, p)?;
        proof {
            assert(blocks@ + states@ =~= blocks@ + states@);
        }
        let ghost before = blocks@;
        let ghost added = states@;
        blocks.append(&mut states);
        assert(blocks@ =~= before + added);
        p = q;
        k += 1;
    }
    Ok((blocks, p))
}

fn skip_heightmaps(data: &[u8], pos: usize) -> (r: Result<usize, ProbeError>)
    ensures
        r == spec_skip_heightmaps(data@, pos),
{
    let (n, p1) = var(data, pos)?;
    let ghost total: nat = if n > 0 {
        n as nat
    } else {
        0
    };
    let mut p = p1;
    let mut k: i32 = 0;
    while k < n
        invariant
            0 <= k,
            n > 0 ==> k <= n,
            n <= 0 ==> k == 0,
            total == (if n > 0 { n as nat } else { 0 }),
            lift(spec_read_var_i32(data@, pos)) == Ok::<(i32, usize), ProbeError>((n, p1)),
            skip_heightmaps_from(data@, p1, total) == skip_heightmaps_from(data@, p, (total - k) as nat),
        decreases n - k,
    {
        let (_kind, q1) = var(data, p)?;
        let (longs, q2) = var(data, q1)?;
        let dlen = data.len();
        assert(data@.len() == dlen);
        if longs < 0 || longs as usize > usize::MAX / 8 {
            return Err(ProbeError::Phase("terrain packet eof"));
        }
        p = match skip(data, q2, longs as usize * 8) {
            Some(q3) => q3,
            None => return Err(ProbeError::Phase("terrain packet eof")),
        };
        k += 1;
    }
    Ok(p)
}

impl DecodedChunk {
    /// Decodes the block states of a chunk packet body.
    pub fn from_packet(data: Vec<u8>) -> (r: Result<Self, ProbeError>)
        ensures
            match r {
                Ok(c) => spec_decode_chunk(data@) == Ok::<Seq<i32>, ProbeError>(c@),
                Err(e) => spec_decode_chunk(data@) == Err::<Seq<i32>, ProbeError>(e),
            },
    {
        let d = data.as_slice();
        let (_x, p1) = match read_i32(d, 0) {
            Ok(v) => v,
            Err(e) => return Err(ProbeError::Codec(e)),
        };
        let (_z, p2) = match read_i32(d, p1) {
            Ok(v) => v,
            Err(e) => return Err(ProbeError::Codec(e)),
        };
        let p3 = skip_heightmaps(d, p2)?;
        let (len, p4) = var(d, p3)?;
        if len < 0 {
            return Err(ProbeError::Phase("terrain chunk data boundary"));
        }
        let (blocks, p5) = read_sections(d, p4)?;
        proof {
            lemma_sections_len(d@, p4, SECTION_COUNT as nat, Seq::empty());
        }
        if p5 < p4 || (p5 - p4) as u64 != len as u64 {
            return Err(ProbeError::Phase("terrain chunk data boundary"));
        }
        Ok(DecodedChunk { blocks })
    }
}

impl DecodedChunk {
    /// The block state at (x, y, z) of this column; air outside it.
    fn state(&self, x: usize, y: i32, z: usize) -> (r: i32)
        ensures
            r == column_state(self@, x as int, y as int, z as int),
    {
        proof {
            use_type_invariant(self);
        }
        if x < 16 && z < 16 && -64 <= y && y < 320 {
            self.blocks[(y + 64) as usize * 256 + z * 16 + x]
        } else {
            AIR
        }
    }

    /// The highest non-air y of column (x, z), if any.
    pub fn surface_y(&self, x: usize, z: usize) -> (r: Option<i32>)
        ensures
            r == spec_surface_y(self@, x as int, z as int),
    {
        let mut y: i32 = 319;
        while y >= -64
            invariant
                -65 <= y <= 319,
                spec_surface_y(self@, x as int, z as int) == top_solid(self@, x as int, z as int, y as int),
            decreases y + 65,
        {
            if self.state(x, y, z) != AIR {
                return Some(y);
            }
            y -= 1;
        }
        None
    }

    /// Whether some block between `min_y` and `max_y` of column (x, z) is not air.
    fn has_solid_between(&self, x: usize, min_y: i32, max_y: i32, z: usize) -> (r: bool)
        ensures
            r == spec_solid_between(self@, x as int, min_y as int, max_y as int, z as int),
    {
        if min_y > max_y {
            return false;
        }
        let mut y: i64 = min_y as i64;
        while y <= max_y as i64
            invariant
                min_y <= y <= max_y as int + 1,
                forall|k: int| min_y <= k < y ==> #[trigger] column_state(self@, x as int, k, z as int) == AIR,
            decreases max_y as int + 1 - y,
        {
            if self.state(x, y as i32, z) != AIR {
                return true;
            }
            y += 1;
        }
        false
    }

    /// Whether some column's surface is not at y = 79, the surface of flat terrain.
    pub fn has_non_flat_surface(&self) -> (r: bool)
        ensures
            r == spec_non_flat(self@),
    {
        let mut z: usize = 0;
        while z < 16
            invariant
                z <= 16,
                forall|a: int, c: int| 0 <= a < 16 && 0 <= c < z ==> #[trigger] spec_surface_y(self@, a, c) == Some(79i32),
            decreases 16 - z,
        {
            let mut x: usize = 0;
            while x < 16
                invariant
                    z < 16,
                    x <= 16,
                    forall|a: int, c: int| 0 <= a < 16 && 0 <= c < z ==> #[trigger] spec_surface_y(self@, a, c) == Some(79i32),
                    forall|a: int| 0 <= a < x ==> #[trigger] spec_surface_y(self@, a, z as int) == Some(79i32),
                decreases 16 - x,
            {
                if self.surface_y(x, z) != Some(79i32) {
                    return true;
                }
                x += 1;
            }
            z += 1;
        }
        false
    }

    /// Whether some block of the column has the given, non-air, state.
    pub fn contains_state(&self, state: i32) -> (r: bool)
        ensures
            r == spec_contains_state(self@, state),
    {
        if state == AIR {
            return false;
        }
        let n = self.blocks.len();
        let mut i: usize = 0;
        while i < n
            invariant
                n == self@.len(),
                i <= n,
                state != AIR,
                forall|j: int| 0 <= j < i ==> self@[j] != state,
            decreases n - i,
        {
            if self.blocks[i] == state {
                assert(self@[i as int] == state);
                return true;
            }
            i += 1;
        }
        false
    }

    /// Whether some block at height `y` has the given, non-air, state.
    pub fn contains_state_at_y(&self, state: i32, y: i32) -> (r: bool)
        ensures
            r == spec_contains_state_at_y(self@, state, y as int),
    {
        if state == AIR {
            return false;
        }
        let mut z: usize = 0;
        while z < 16
            invariant
                z <= 16,
                state != AIR,
                forall|a: int, c: int| 0 <= a < 16 && 0 <= c < z ==> #[trigger] column_state(self@, a, y as int, c) != state,
            decreases 16 - z,
        {
            let mut x: usize = 0;
            while x < 16
                invariant
                    z < 16,
                    x <= 16,
                    state != AIR,
                    forall|a: int, c: int| 0 <= a < 16 && 0 <= c < z ==> #[trigger] column_state(self@, a, y as int, c) != state,
                    forall|a: int| 0 <= a < x ==> #[trigger] column_state(self@, a, y as int, z as int) != state,
                decreases 16 - x,
            {
                if self.state(x, y, z) == state {
                    return true;
                }
                x += 1;
            }
            z += 1;
        }
        false
    }

    /// Whether some column, whose surface is at y = 17 or higher, has air between y = 8 and
    /// eight blocks below its surface that is closed in by solid blocks above and below.
    pub fn has_enclosed_underground_air(&self) -> (r: bool)
        ensures
            r == spec_enclosed_underground_air(self@),
    {
        let mut z: usize = 0;
        while z < 16
            invariant
                z <= 16,
                forall|a: int, c: int| 0 <= a < 16 && 0 <= c < z ==> !#[trigger] column_has_enclosed_air(self@, a, c),
            decreases 16 - z,
        {
            let mut x: usize = 0;
            while x < 16
                invariant
                    z < 16,
                    x <= 16,
                    forall|a: int, c: int| 0 <= a < 16 && 0 <= c < z ==> !#[trigger] column_has_enclosed_air(self@, a, c),
                    forall|a: int| 0 <= a < x ==> !#[trigger] column_has_enclosed_air(self@, a, z as int),
                decreases 16 - x,
            {
                if self.column_enclosed_air(x, z) {
                    return true;
                }
                x += 1;
            }
            z += 1;
        }
        false
    }

    fn column_enclosed_air(&self, x: usize, z: usize) -> (r: bool)
        ensures
            r == column_has_enclosed_air(self@, x as int, z as int),
    {
        let surface_y = match self.surface_y(x, z) {
            Some(y) => y,
            None => return false,
        };
        if surface_y < 17 {
            return false;
        }
        proof {
            lemma_top_solid_range(self@, x as int, z as int, 319);
        }
        let mut y: i32 = 8;
        while y <= surface_y - 8
            invariant
                17 <= surface_y <= 319,
                spec_surface_y(self@, x as int, z as int) == Some(surface_y),
                8 <= y <= surface_y - 7,
                forall|k: int| 8 <= k < y ==> !#[trigger] enclosed_air_at(self@, x as int, z as int, surface_y as int, k),
            decreases surface_y - 7 - y,
        {
            if self.state(x, y, z) == AIR && self.has_solid_between(x, y + 1, surface_y, z)
                && self.has_solid_between(x, 8, y - 1, z) {
                let ghost sy = spec_surface_y(self@, x as int, z as int)->0 as int;
                assert(enclosed_air_at(self@, x as int, z as int, sy, y as int));
                return true;
            }
            y += 1;
        }
        false
    }
}

} // verus!
