use vstd::prelude::*;

use crate::codec::{
    be_value, read_i32, read_u16, read_u64, read_u8, read_var_i32, skip, spec_read_i32, spec_read_u16,
    spec_read_u64, spec_read_u8, spec_read_var_i32, spec_skip, wrap_i32, CodecError,
};
use crate::codec::{lemma_var_i32_read_at, unsigned_of, varint_bytes};

verus! {

/// Why a probe refused what the server sent.
#[derive(Debug, Clone, Copy)]
pub enum ProbeError {
    /// A primitive could not be read.
    Codec(CodecError),
    /// A value broke the protocol contract; the text names the check.
    Phase(&'static str),
}

/// Chunk sections in a column: the world spans y = -64 up to y = 320.
pub const SECTION_COUNT: usize = 24;

/// The lowest block y of the world.
pub const MIN_Y: i32 = -64;

/// Heightmaps a chunk packet carries.
pub const HEIGHTMAP_COUNT: i32 = 2;

/// Longs in one heightmap.
pub const HEIGHTMAP_LONG_COUNT: i32 = 37;

/// Block states in one section.
pub const BLOCK_ENTRY_COUNT: usize = 4096;

/// Biome entries in one section.
pub const BIOME_ENTRY_COUNT: usize = 64;

/// Light sections: one more below and one more above the block sections.
pub const LIGHT_SECTION_COUNT: usize = 26;

/// Bytes of one light array: half a byte for each block of a section.
pub const LIGHT_ARRAY_BYTES: usize = 2048;

/// A codec result with its error taken as a probe error.
pub open spec fn lift<T>(r: Result<T, CodecError>) -> Result<T, ProbeError> {
    match r {
        Ok(v) => Ok(v),
        Err(e) => Err(ProbeError::Codec(e)),
    }
}

/// Skips `count` bytes at `p`, or reports a packet that ended early.
pub open spec fn skip_or_short(s: Seq<u8>, p: usize, count: int) -> Result<usize, ProbeError> {
    match spec_skip(s, p, count) {
        Some(q) => Ok(q),
        None => Err(ProbeError::Phase("packet ended early")),
    }
}

/// Reads a VarInt, reporting a short or overlong one as a probe error.
pub fn var(data: &[u8], pos: usize) -> (r: Result<(i32, usize), ProbeError>)
    ensures
        r == lift(spec_read_var_i32(data@, pos)),
        r matches Ok((_, end)) ==> pos < end <= data@.len(),
{
    match read_var_i32(data, pos) {
        Ok(v) => Ok(v),
        Err(e) => Err(ProbeError::Codec(e)),
    }
}

fn skip_bytes(data: &[u8], pos: usize, count: usize) -> (r: Result<usize, ProbeError>)
    ensures
        r == skip_or_short(data@, pos, count as int),
{
    match skip(data, pos, count) {
        Some(q) => Ok(q),
        None => Err(ProbeError::Phase("packet ended early")),
    }
}

/// One heightmap: a kind, a long count that must be 37, and the longs.
pub open spec fn spec_heightmap(s: Seq<u8>, p: usize) -> Result<usize, ProbeError> {
    match lift(spec_read_var_i32(s, p)) {
        Err(e) => Err(e),
        Ok((_, p1)) => match lift(spec_read_var_i32(s, p1)) {
            Err(e) => Err(e),
            Ok((n, p2)) => if n != HEIGHTMAP_LONG_COUNT {
                Err(ProbeError::Phase("heightmap long count"))
            } else {
                skip_or_short(s, p2, HEIGHTMAP_LONG_COUNT * 8)
            },
        },
    }
}

/// The heightmaps of a chunk packet: exactly two.
pub open spec fn spec_heightmaps(s: Seq<u8>, p: usize) -> Result<usize, ProbeError> {
    match lift(spec_read_var_i32(s, p)) {
        Err(e) => Err(e),
        Ok((n, p1)) => if n != HEIGHTMAP_COUNT {
            Err(ProbeError::Phase("heightmap count"))
        } else {
            match spec_heightmap(s, p1) {
                Err(e) => Err(e),
                Ok(p2) => spec_heightmap(s, p2),
            }
        },
    }
}

/// Skips `n` VarInts.
pub open spec fn spec_skip_varints(s: Seq<u8>, p: usize, n: nat) -> Result<usize, ProbeError>
    decreases n,
{
    if n == 0 {
        Ok(p)
    } else {
        match lift(spec_read_var_i32(s, p)) {
            Err(e) => Err(e),
            Ok((_, q)) => spec_skip_varints(s, q, (n - 1) as nat),
        }
    }
}

/// The number of longs that pack `entries` indices of `bits` bits, none split across longs.
pub open spec fn long_count(entries: int, bits: int) -> int {
    let per = 64int / bits;
    if entries % per == 0 {
        entries / per
    } else {
        entries / per + 1
    }
}

/// A paletted container of `entries` entries; gives its bits per entry.
pub open spec fn spec_container(s: Seq<u8>, p: usize, entries: int) -> Result<(u8, usize), ProbeError> {
    match lift(spec_read_u8(s, p)) {
        Err(e) => Err(e),
        Ok((bits, p1)) => if bits == 0 {
            match lift(spec_read_var_i32(s, p1)) {
                Err(e) => Err(e),
                Ok((_, p2)) => Ok((0u8, p2)),
            }
        } else {
            match lift(spec_read_var_i32(s, p1)) {
                Err(e) => Err(e),
                Ok((len, p2)) => if len <= 0 {
                    Err(ProbeError::Phase("palette length"))
                } else {
                    match spec_skip_varints(s, p2, len as nat) {
                        Err(e) => Err(e),
                        Ok(p3) => if bits > 32 {
                            Err(ProbeError::Phase("palette bits too wide"))
                        } else {
                            match skip_or_short(s, p3, long_count(entries, bits as int) * 8) {
                                Err(e) => Err(e),
                                Ok(p4) => Ok((bits, p4)),
                            }
                        },
                    }
                },
            }
        },
    }
}

/// The VarInt bytes of each value in turn.
pub open spec fn varints_bytes(values: Seq<i32>) -> Seq<u8>
    decreases values.len(),
{
    if values.len() == 0 {
        Seq::empty()
    } else {
        varint_bytes(unsigned_of(values[0])) + varints_bytes(values.drop_first())
    }
}

proof fn lemma_skip_varints_over(values: Seq<i32>, before: Seq<u8>, rest: Seq<u8>)
    requires
        before.len() + varints_bytes(values).len() <= usize::MAX,
    ensures
        spec_skip_varints(before + varints_bytes(values) + rest, before.len() as usize, values.len())
            == Ok::<usize, ProbeError>((before.len() + varints_bytes(values).len()) as usize),
    decreases values.len(),
{
    if values.len() > 0 {
        let head = varint_bytes(unsigned_of(values[0]));
        let tail = varints_bytes(values.drop_first());
        let s = before + varints_bytes(values) + rest;
        assert(s =~= before + head + (tail + rest));
        lemma_var_i32_read_at(values[0], before, tail + rest);
        assert(s =~= (before + head) + tail + rest);
        lemma_skip_varints_over(values.drop_first(), before + head, rest);
    }
}

/// The bytes of a chunk section with the given two-byte block count, block states packed four
/// bits each with `palette` and the 256 longs `longs`, and a single-valued biome container.
pub open spec fn four_bit_section_bytes(block_count: Seq<u8>, palette: Seq<i32>, longs: Seq<u8>, biome: i32) -> Seq<u8> {
    block_count + seq![4u8] + varint_bytes(unsigned_of(palette.len() as i32)) + varints_bytes(palette)
        + longs + seq![0u8] + varint_bytes(unsigned_of(biome))
}

/// A chunk section whose block states are packed four bits each (256 longs) with a palette of
/// any positive number of states, followed by a single-valued biome container, is accepted and
/// ends right after its bytes, whatever comes before or after it.
pub proof fn lemma_four_bit_section_accepted(
    before: Seq<u8>,
    block_count: Seq<u8>,
    palette: Seq<i32>,
    longs: Seq<u8>,
    biome: i32,
    rest: Seq<u8>,
)
    requires
        block_count.len() == 2,
        1 <= palette.len() <= i32::MAX,
        longs.len() == 256 * 8,
        before.len() + four_bit_section_bytes(block_count, palette, longs, biome).len() + rest.len()
            <= usize::MAX,
    ensures
        spec_section(
            before + four_bit_section_bytes(block_count, palette, longs, biome) + rest,
            before.len() as usize,
        ) == Ok::<usize, ProbeError>(
            (before.len() + four_bit_section_bytes(block_count, palette, longs, biome).len()) as usize,
        ),
{
    let n = palette.len() as i32;
    let len_bytes = varint_bytes(unsigned_of(n));
    let pal_bytes = varints_bytes(palette);
    let biome_bytes = varint_bytes(unsigned_of(biome));
    let section = four_bit_section_bytes(block_count, palette, longs, biome);
    let s = before + section + rest;
    let p0 = before.len() as usize;
    let a = before + block_count + seq![4u8];
    let b = a + len_bytes;
    let c = b + pal_bytes;
    let d = c + longs + seq![0u8];
    assert(s =~= a + len_bytes + (pal_bytes + longs + seq![0u8] + biome_bytes + rest));
    assert(s =~= b + pal_bytes + (longs + seq![0u8] + biome_bytes + rest));
    assert(s =~= d + biome_bytes + rest);
    assert(s.len() == d.len() + biome_bytes.len() + rest.len());
    assert(s[p0 + 2] == 4u8);
    assert(spec_read_u16(s, p0) == Ok::<(u16, usize), CodecError>((be_value(s, p0 as int, 2) as u16, (p0 + 2) as usize)));
    lemma_var_i32_read_at(n, a, pal_bytes + longs + seq![0u8] + biome_bytes + rest);
    lemma_skip_varints_over(palette, b, longs + seq![0u8] + biome_bytes + rest);
    assert(long_count(4096, 4) == 256);
    assert(spec_skip(s, c.len() as usize, 256int * 8) == Some((c.len() + 2048) as usize));
    assert(spec_container(s, (p0 + 2) as usize, BLOCK_ENTRY_COUNT as int) == Ok::<(u8, usize), ProbeError>(
        (4u8, (c.len() + 2048) as usize),
    ));
    assert(s[c.len() + 2048int] == 0u8);
    lemma_var_i32_read_at(biome, d, rest);
    assert(spec_container(s, (c.len() + 2048) as usize, BIOME_ENTRY_COUNT as int) == Ok::<(u8, usize), ProbeError>(
        (0u8, (d.len() + biome_bytes.len()) as usize),
    ));
}

/// A paletted container with bits per entry other than zero whose palette length is zero or
/// negative is refused as a bad palette length, whatever follows.
pub proof fn lemma_empty_palette_refused(before: Seq<u8>, bits: u8, len: i32, rest: Seq<u8>, entries: int)
    requires
        bits != 0,
        len <= 0,
        before.len() + 1 + varint_bytes(unsigned_of(len)).len() <= usize::MAX,
    ensures
        spec_container(
            before + seq![bits] + varint_bytes(unsigned_of(len)) + rest,
            before.len() as usize,
            entries,
        ) == Err::<(u8, usize), ProbeError>(ProbeError::Phase("palette length")),
{
    let s = before + seq![bits] + varint_bytes(unsigned_of(len)) + rest;
    assert(s[before.len() as int] == bits);
    lemma_var_i32_read_at(len, before + seq![bits], rest);
}

/// A chunk section: a block count, the block states (direct value or four bits per entry), and
/// the biomes (a single value).
pub open spec fn spec_section(s: Seq<u8>, p: usize) -> Result<usize, ProbeError> {
    match lift(spec_read_u16(s, p)) {
        Err(e) => Err(e),
        Ok((_, p1)) => match spec_container(s, p1, BLOCK_ENTRY_COUNT as int) {
            Err(e) => Err(e),
            Ok((bits, p2)) => if bits != 0 && bits != 4 {
                Err(ProbeError::Phase("block palette bits"))
            } else {
                match spec_container(s, p2, BIOME_ENTRY_COUNT as int) {
                    Err(e) => Err(e),
                    Ok((biome_bits, p3)) => if biome_bits != 0 {
                        Err(ProbeError::Phase("biome palette bits"))
                    } else {
                        Ok(p3)
                    },
                }
            },
        },
    }
}

/// `n` chunk sections in a row.
pub open spec fn spec_sections(s: Seq<u8>, p: usize, n: nat) -> Result<usize, ProbeError>
    decreases n,
{
    if n == 0 {
        Ok(p)
    } else {
        match spec_section(s, p) {
            Err(e) => Err(e),
            Ok(q) => spec_sections(s, q, (n - 1) as nat),
        }
    }
}

/// The chunk data: a length, then every section, which must end exactly there.
pub open spec fn spec_chunk_data(s: Seq<u8>, p: usize) -> Result<usize, ProbeError> {
    match lift(spec_read_var_i32(s, p)) {
        Err(e) => Err(e),
        Ok((len, p1)) => if len < 0 {
            Err(ProbeError::Phase("negative chunk data length"))
        } else {
            match spec_sections(s, p1, SECTION_COUNT as nat) {
                Err(e) => Err(e),
                Ok(q) => if q != p1 + len {
                    Err(ProbeError::Phase("chunk data boundary"))
                } else {
                    Ok(q)
                },
            }
        },
    }
}

/// A light bitset of exactly one long.
pub open spec fn spec_bitset(s: Seq<u8>, p: usize) -> Result<usize, ProbeError> {
    match lift(spec_read_var_i32(s, p)) {
        Err(e) => Err(e),
        Ok((n, p1)) => if n != 1 {
            Err(ProbeError::Phase("light bitset length"))
        } else {
            match lift(spec_read_u64(s, p1)) {
                Err(e) => Err(e),
                Ok((_, p2)) => Ok(p2),
            }
        },
    }
}

/// `n` light bitsets in a row.
pub open spec fn spec_bitsets(s: Seq<u8>, p: usize, n: nat) -> Result<usize, ProbeError>
    decreases n,
{
    if n == 0 {
        Ok(p)
    } else {
        match spec_bitset(s, p) {
            Err(e) => Err(e),
            Ok(q) => spec_bitsets(s, q, (n - 1) as nat),
        }
    }
}

/// `n` light arrays, each 2048 bytes with its length.
pub open spec fn spec_light_entries(s: Seq<u8>, p: usize, n: nat) -> Result<usize, ProbeError>
    decreases n,
{
    if n == 0 {
        Ok(p)
    } else {
        match lift(spec_read_var_i32(s, p)) {
            Err(e) => Err(e),
            Ok((len, p1)) => if len != LIGHT_ARRAY_BYTES as i32 {
                Err(ProbeError::Phase("light array length"))
            } else {
                match skip_or_short(s, p1, LIGHT_ARRAY_BYTES as int) {
                    Err(e) => Err(e),
                    Ok(p2) => spec_light_entries(s, p2, (n - 1) as nat),
                }
            },
        }
    }
}

/// A counted list of exactly `expected` light arrays.
pub open spec fn spec_light_arrays(s: Seq<u8>, p: usize, expected: nat) -> Result<usize, ProbeError> {
    match lift(spec_read_var_i32(s, p)) {
        Err(e) => Err(e),
        Ok((n, p1)) => if n != expected as i32 {
            Err(ProbeError::Phase("light array count"))
        } else {
            spec_light_entries(s, p1, expected)
        },
    }
}

/// The light data: four bitsets, the sky light arrays of every light section, and no block
/// light arrays.
pub open spec fn spec_light_data(s: Seq<u8>, p: usize) -> Result<usize, ProbeError> {
    match spec_bitsets(s, p, 4) {
        Err(e) => Err(e),
        Ok(p1) => match spec_light_arrays(s, p1, LIGHT_SECTION_COUNT as nat) {
            Err(e) => Err(e),
            Ok(p2) => spec_light_arrays(s, p2, 0),
        },
    }
}

/// A whole chunk-with-light packet body: the chunk position, the heightmaps, the chunk data,
/// no block entities, the light data, and nothing after it.
pub open spec fn spec_level_chunk_with_light(s: Seq<u8>) -> Result<(), ProbeError> {
    match lift(spec_read_i32(s, 0)) {
        Err(e) => Err(e),
        Ok((_, p1)) => match lift(spec_read_i32(s, p1)) {
            Err(e) => Err(e),
            Ok((_, p2)) => match spec_heightmaps(s, p2) {
                Err(e) => Err(e),
                Ok(p3) => match spec_chunk_data(s, p3) {
                    Err(e) => Err(e),
                    Ok(p4) => match lift(spec_read_var_i32(s, p4)) {
                        Err(e) => Err(e),
                        Ok((entities, p5)) => if entities != 0 {
                            Err(ProbeError::Phase("chunk block entities"))
                        } else {
                            match spec_light_data(s, p5) {
                                Err(e) => Err(e),
                                Ok(p6) => if p6 != s.len() {
                                    Err(ProbeError::Phase("chunk trailing bytes"))
                                } else {
                                    Ok(())
                                },
                            }
                        },
                    },
                },
            },
        },
    }
}

/// Checks that `data` is a well-formed chunk-with-light packet body as the server sends it.
pub fn validate_level_chunk_with_light(data: Vec<u8>) -> (r: Result<(), ProbeError>)
    ensures
        r == spec_level_chunk_with_light(data@),
{
    let d = data.as_slice();
    let (_chunk_x, p1) = match read_i32(d, 0) {
        Ok(v) => v,
        Err(e) => return Err(ProbeError::Codec(e)),
    };
    let (_chunk_z, p2) = match read_i32(d, p1) {
        Ok(v) => v,
        Err(e) => return Err(ProbeError::Codec(e)),
    };
    let p3 = validate_heightmaps(d, p2)?;
    let p4 = validate_chunk_data(d, p3)?;
    let (entities, p5) = var(d, p4)?;
    if entities != 0 {
        return Err(ProbeError::Phase("chunk block entities"));
    }
    let p6 = validate_light_data(d, p5)?;
    if p6 != d.len() {
        return Err(ProbeError::Phase("chunk trailing bytes"));
    }
    Ok(())
}

/// The chunk coordinates at the start of a chunk packet body.
pub open spec fn spec_level_chunk_pos(s: Seq<u8>) -> Result<(i32, i32), ProbeError> {
    if s.len() < 8 {
        Err(ProbeError::Phase("chunk position"))
    } else {
        Ok((wrap_i32(be_value(s, 0, 4)), wrap_i32(be_value(s, 4, 4))))
    }
}

/// Reads the chunk coordinates of a chunk packet body.
pub fn level_chunk_pos(data: &[u8]) -> (r: Result<(i32, i32), ProbeError>)
    ensures
        r == spec_level_chunk_pos(data@),
{
    if data.len() < 8 {
        return Err(ProbeError::Phase("chunk position"));
    }
    let x = match read_i32(data, 0) {
        Ok((x, _)) => x,
        Err(e) => return Err(ProbeError::Codec(e)),
    };
    let z = match read_i32(data, 4) {
        Ok((z, _)) => z,
        Err(e) => return Err(ProbeError::Codec(e)),
    };
    Ok((x, z))
}

fn validate_heightmap(data: &[u8], pos: usize) -> (r: Result<usize, ProbeError>)
    ensures
        r == spec_heightmap(data@, pos),
{
    let (_kind, p1) = var(data, pos)?;
    let (n, p2) = var(data, p1)?;
    if n != HEIGHTMAP_LONG_COUNT {
        return Err(ProbeError::Phase("heightmap long count"));
    }
    skip_bytes(data, p2, HEIGHTMAP_LONG_COUNT as usize * 8)
}

fn validate_heightmaps(data: &[u8], pos: usize) -> (r: Result<usize, ProbeError>)
    ensures
        r == spec_heightmaps(data@, pos),
{
    let (n, p1) = var(data, pos)?;
    if n != HEIGHTMAP_COUNT {
        return Err(ProbeError::Phase("heightmap count"));
    }
    let p2 = validate_heightmap(data, p1)?;
    validate_heightmap(data, p2)
}

fn skip_varints(data: &[u8], pos: usize, n: i32) -> (r: Result<usize, ProbeError>)
    requires
        n >= 0,
    ensures
        r == spec_skip_varints(data@, pos, n as nat),
{
    let mut p = pos;
    let mut k: i32 = 0;
    while k < n
        invariant
            0 <= k <= n,
            spec_skip_varints(data@, pos, n as nat) == spec_skip_varints(data@, p, (n - k) as nat),
        decreases n - k,
    {
        let (_value, q) = var(data, p)?;
        p = q;
        k += 1;
    }
    Ok(p)
}

/// The number of longs that pack `entry_count` indices of `bits` bits.
fn fixed_long_count(entry_count: usize, bits: u8) -> (r: Result<usize, ProbeError>)
    requires
        bits != 0,
        entry_count <= 4096,
    ensures
        match r {
            Ok(n) => bits <= 32 && n == long_count(entry_count as int, bits as int) && n <= 4097,
            Err(e) => bits > 32 && e == ProbeError::Phase("palette bits too wide"),
        },
{
    if bits > 32 {
        return Err(ProbeError::Phase("palette bits too wide"));
    }
    let per = 64 / bits as usize;
    assert(2 <= per <= 64) by (nonlinear_arith)
        requires
            1 <= bits <= 32,
            per == 64int / (bits as int),
    ;
    assert(entry_count / per <= entry_count) by (nonlinear_arith)
        requires
            per >= 1,
    ;
    if entry_count % per == 0 {
        Ok(entry_count / per)
    } else {
        Ok(entry_count / per + 1)
    }
}

fn validate_container(data: &[u8], pos: usize, entry_count: usize) -> (r: Result<(u8, usize), ProbeError>)
    requires
        entry_count <= 4096,
    ensures
        r == spec_container(data@, pos, entry_count as int),
{
    let (bits, p1) = match read_u8(data, pos) {
        Ok(v) => v,
        Err(e) => return Err(ProbeError::Codec(e)),
    };
    if bits == 0 {
        let (_single, p2) = var(data, p1)?;
        return Ok((bits, p2));
    }
    let (palette_len, p2) = var(data, p1)?;
    if palette_len <= 0 {
        return Err(ProbeError::Phase("palette length"));
    }
    let p3 = skip_varints(data, p2, palette_len)?;
    let longs = fixed_long_count(entry_count, bits)?;
    let p4 = skip_bytes(data, p3, longs * 8)?;
    Ok((bits, p4))
}

fn validate_section(data: &[u8], pos: usize) -> (r: Result<usize, ProbeError>)
    ensures
        r == spec_section(data@, pos),
{
    let (_non_air, p1) = match read_u16(data, pos) {
        Ok(v) => v,
        Err(e) => return Err(ProbeError::Codec(e)),
    };
    let (block_bits, p2) = validate_container(data, p1, BLOCK_ENTRY_COUNT)?;
    if block_bits != 0 && block_bits != 4 {
        return Err(ProbeError::Phase("block palette bits"));
    }
    let (biome_bits, p3) = validate_container(data, p2, BIOME_ENTRY_COUNT)?;
    if biome_bits != 0 {
        return Err(ProbeError::Phase("biome palette bits"));
    }
    Ok(p3)
}

fn validate_chunk_data(data: &[u8], pos: usize) -> (r: Result<usize, ProbeError>)
    ensures
        r == spec_chunk_data(data@, pos),
{
    let (len, p1) = var(data, pos)?;
    if len < 0 {
        return Err(ProbeError::Phase("negative chunk data length"));
    }
    let mut p = p1;
    let mut k: usize = 0;
    while k < SECTION_COUNT
        invariant
            k <= SECTION_COUNT,
            lift(spec_read_var_i32(data@, pos)) == Ok::<(i32, usize), ProbeError>((len, p1)),
            len >= 0,
            spec_sections(data@, p1, SECTION_COUNT as nat) == spec_sections(
                data@,
                p,
                (SECTION_COUNT - k) as nat,
            ),
        decreases SECTION_COUNT - k,
    {
        p = validate_section(data, p)?;
        k += 1;
    }
    if p < p1 || (p - p1) as u64 != len as u64 {
        return Err(ProbeError::Phase("chunk data boundary"));
    }
    Ok(p)
}

fn validate_bitset(data: &[u8], pos: usize) -> (r: Result<usize, ProbeError>)
    ensures
        r == spec_bitset(data@, pos),
{
    let (n, p1) = var(data, pos)?;
    if n != 1 {
        return Err(ProbeError::Phase("light bitset length"));
    }
    match read_u64(data, p1) {
        Ok((_mask, p2)) => Ok(p2),
        Err(e) => Err(ProbeError::Codec(e)),
    }
}

fn validate_light_arrays(data: &[u8], pos: usize, expected_count: usize) -> (r: Result<usize, ProbeError>)
    requires
        expected_count <= LIGHT_SECTION_COUNT,
    ensures
        r == spec_light_arrays(data@, pos, expected_count as nat),
{
    let (n, p1) = var(data, pos)?;
    if n != expected_count as i32 {
        return Err(ProbeError::Phase("light array count"));
    }
    let mut p = p1;
    let mut k: usize = 0;
    while k < expected_count
        invariant
            k <= expected_count,
            lift(spec_read_var_i32(data@, pos)) == Ok::<(i32, usize), ProbeError>((n, p1)),
            n == expected_count as i32,
            spec_light_entries(data@, p1, expected_count as nat) == spec_light_entries(
                data@,
                p,
                (expected_count - k) as nat,
            ),
        decreases expected_count - k,
    {
        let (len, q) = var(data, p)?;
        if len != LIGHT_ARRAY_BYTES as i32 {
            return Err(ProbeError::Phase("light array length"));
        }
        p = skip_bytes(data, q, LIGHT_ARRAY_BYTES)?;
        k += 1;
    }
    Ok(p)
}

fn validate_light_data(data: &[u8], pos: usize) -> (r: Result<usize, ProbeError>)
    ensures
        r == spec_light_data(data@, pos),
{
    let mut p = pos;
    let mut k: usize = 0;
    while k < 4
        invariant
            k <= 4,
            spec_bitsets(data@, pos, 4) == spec_bitsets(data@, p, (4 - k) as nat),
        decreases 4 - k,
    {
        p = validate_bitset(data, p)?;
        k += 1;
    }
    let p2 = validate_light_arrays(data, p, LIGHT_SECTION_COUNT)?;
    validate_light_arrays(data, p2, 0)
}

} // verus!
