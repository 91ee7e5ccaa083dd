use vstd::prelude::*;
use vstd::arithmetic::div_mod::{
    lemma_basic_div, lemma_div_denominator, lemma_fundamental_div_mod,
    lemma_fundamental_div_mod_converse, lemma_mod_multiples_vanish,
};
use vstd::utf8::{decode_utf8, encode_utf8, encode_utf8_decode_utf8, encode_utf8_valid_utf8, valid_utf8};

verus! {

/// Why a primitive could not be read from a packet body.
#[derive(Debug, Clone, Copy, PartialEq, Eq, Structural)]
pub enum CodecError {
    /// The body ended before the value did.
    Eof,
    /// A VarInt ran past its fifth byte.
    VarIntTooLong,
    /// A length prefix was negative.
    NegativeLength,
    /// String bytes were not UTF-8.
    InvalidUtf8,
}

/// 128 to the power `k`.
pub open spec fn pow128(k: nat) -> int
    decreases k,
{
    if k == 0 {
        1
    } else {
        128 * pow128((k - 1) as nat)
    }
}

/// The seven value bits of a VarInt byte.
pub open spec fn payload(b: u8) -> int {
    if b >= 128 {
        b - 128
    } else {
        b as int
    }
}

/// Reads an unsigned 32-bit value as a two's complement `i32`.
pub open spec fn wrap_i32(u: int) -> i32 {
    if u < 0x8000_0000 {
        u as i32
    } else {
        (u - 0x1_0000_0000) as i32
    }
}

/// Reads VarInt bytes from `p + i` on, `acc` holding the value of the first `i` bytes; gives
/// the unbounded value and the position after the last byte.
pub open spec fn varint_from(s: Seq<u8>, p: int, i: nat, acc: int) -> Result<(int, int), CodecError>
    decreases 5 - i,
{
    if i >= 5 {
        Err(CodecError::VarIntTooLong)
    } else if p + i >= s.len() || p + i < 0 {
        Err(CodecError::Eof)
    } else {
        let b = s[p + i];
        let acc2 = acc + payload(b) * pow128(i);
        if b < 128 {
            Ok((acc2, p + i + 1))
        } else {
            varint_from(s, p, i + 1, acc2)
        }
    }
}

/// A VarInt at `p`: up to five bytes, seven value bits each, least significant first, the
/// high bit marking that another byte follows; the value is the low 32 bits as an `i32`.
pub open spec fn spec_read_var_i32(s: Seq<u8>, p: usize) -> Result<(i32, usize), CodecError> {
    match varint_from(s, p as int, 0, 0) {
        Ok((raw, end)) => Ok((wrap_i32(raw % 0x1_0000_0000), end as usize)),
        Err(e) => Err(e),
    }
}

/// A byte at `p`.
pub open spec fn spec_read_u8(s: Seq<u8>, p: usize) -> Result<(u8, usize), CodecError> {
    if p < s.len() {
        Ok((s[p as int], (p + 1) as usize))
    } else {
        Err(CodecError::Eof)
    }
}

/// The big-endian value of the `n` bytes at `p`.
pub open spec fn be_value(s: Seq<u8>, p: int, n: nat) -> int
    decreases n,
{
    if n == 0 {
        0
    } else {
        be_value(s, p, (n - 1) as nat) * 256 + s[p + n - 1]
    }
}

/// A big-endian `u16` at `p`.
pub open spec fn spec_read_u16(s: Seq<u8>, p: usize) -> Result<(u16, usize), CodecError> {
    if p + 2 <= s.len() {
        Ok((be_value(s, p as int, 2) as u16, (p + 2) as usize))
    } else {
        Err(CodecError::Eof)
    }
}

/// A big-endian `i32` at `p`.
pub open spec fn spec_read_i32(s: Seq<u8>, p: usize) -> Result<(i32, usize), CodecError> {
    if p + 4 <= s.len() {
        Ok((wrap_i32(be_value(s, p as int, 4)), (p + 4) as usize))
    } else {
        Err(CodecError::Eof)
    }
}

/// A big-endian 64-bit word at `p`, as unsigned.
pub open spec fn spec_read_u64(s: Seq<u8>, p: usize) -> Result<(u64, usize), CodecError> {
    if p + 8 <= s.len() {
        Ok((be_value(s, p as int, 8) as u64, (p + 8) as usize))
    } else {
        Err(CodecError::Eof)
    }
}

/// The position `count` bytes after `p`, when the body is that long.
pub open spec fn spec_skip(s: Seq<u8>, p: usize, count: int) -> Option<usize> {
    if 0 <= count && p + count <= s.len() {
        Some((p + count) as usize)
    } else {
        None
    }
}

proof fn lemma_pow128_values()
    ensures
        pow128(0) == 1,
        pow128(1) == 128,
        pow128(2) == 0x4000,
        pow128(3) == 0x20_0000,
        pow128(4) == 0x1000_0000,
        pow128(5) == 0x8_0000_0000,
{
    assert(pow128(0) == 1);
    assert(pow128(1) == 128 * pow128(0));
    assert(pow128(2) == 128 * pow128(1));
    assert(pow128(3) == 128 * pow128(2));
    assert(pow128(4) == 128 * pow128(3));
    assert(pow128(5) == 128 * pow128(4));
}

proof fn lemma_pow128_bounds(k: nat)
    ensures
        pow128(k) >= 1,
        k <= 4 ==> pow128(k) <= 0x1000_0000,
        k == 4 ==> pow128(k) == 0x1000_0000,
    decreases k,
{
    lemma_pow128_values();
    if k > 0 {
        lemma_pow128_bounds((k - 1) as nat);
    }
}

proof fn lemma_varint_acc_bound(s: Seq<u8>, p: int, i: nat, acc: int)
    requires
        i <= 5,
        0 <= acc < pow128(i),
    ensures
        varint_from(s, p, i, acc) matches Ok((raw, end)) ==> 0 <= raw < 0x8_0000_0000 && p < end
            <= s.len() && end <= p + 5,
    decreases 5 - i,
{
    if i < 5 && p + i < s.len() && p + i >= 0 {
        let b = s[p + i];
        lemma_pow128_bounds(i);
        lemma_pow128_bounds(i + 1);
        assert(0 <= payload(b) < 128);
        assert(0 <= payload(b) * pow128(i) <= 127 * pow128(i)) by (nonlinear_arith)
            requires
                0 <= payload(b) < 128,
                pow128(i) >= 1,
        ;
        assert(pow128(i + 1) == 128 * pow128(i));
        if b >= 128 {
            lemma_varint_acc_bound(s, p, i + 1, acc + payload(b) * pow128(i));
        } else {
            if i == 4 {
                assert(pow128(5) == 128 * 0x1000_0000);
            }
        }
    }
}

/// Reads a VarInt at `pos`.
pub fn read_var_i32(data: &[u8], pos: usize) -> (r: Result<(i32, usize), CodecError>)
    ensures
        r == spec_read_var_i32(data@, pos),
        r matches Ok((_, end)) ==> pos < end <= data@.len(),
{
    let ghost s = data@;
    let mut acc: u64 = 0;
    let mut mult: u64 = 1;
    let mut i: usize = 0;
    proof {
        lemma_varint_acc_bound(s, pos as int, 0, 0);
    }
    while i < 5
        invariant
            s == data@,
            i <= 5,
            mult == pow128(i as nat),
            0 <= acc < pow128(i as nat),
            varint_from(s, pos as int, 0, 0) == varint_from(s, pos as int, i as nat, acc as int),
        decreases 5 - i,
    {
        proof {
            lemma_pow128_bounds(i as nat);
            lemma_pow128_bounds(i as nat + 1);
        }
        if pos >= data.len() || i >= data.len() - pos {
            return Err(CodecError::Eof);
        }
        let b = data[pos + i];
        let value: u64 = if b >= 128 {
            (b - 128) as u64
        } else {
            b as u64
        };
        assert(value * mult <= 127 * 0x1000_0000) by (nonlinear_arith)
            requires
                value < 128,
                mult <= 0x1000_0000,
        ;
        assert(value * mult < pow128(i as nat + 1) - acc) by (nonlinear_arith)
            requires
                value < 128,
                mult == pow128(i as nat),
                acc < pow128(i as nat),
                pow128(i as nat + 1) == 128 * pow128(i as nat),
        ;
        acc = acc + value * mult;
        if b < 128 {
            let wrapped: u64 = acc % 0x1_0000_0000;
            let v: i32 = if wrapped < 0x8000_0000 {
                wrapped as i32
            } else {
                (wrapped as i64 - 0x1_0000_0000i64) as i32
            };
            return Ok((v, pos + i + 1));
        }
        mult = mult * 128;
        i = i + 1;
    }
    Err(CodecError::VarIntTooLong)
}

/// Reads a byte at `pos`.
pub fn read_u8(data: &[u8], pos: usize) -> (r: Result<(u8, usize), CodecError>)
    ensures
        r == spec_read_u8(data@, pos),
{
    if pos < data.len() {
        Ok((data[pos], pos + 1))
    } else {
        Err(CodecError::Eof)
    }
}

/// The big-endian value of `n` bytes at `pos`, which the body holds.
fn read_be(data: &[u8], pos: usize, n: usize) -> (r: u64)
    requires
        n <= 8,
        pos + n <= data@.len(),
    ensures
        r == be_value(data@, pos as int, n as nat),
{
    let len = data.len();
    let mut acc: u64 = 0;
    let mut i: usize = 0;
    while i < n
        invariant
            len == data@.len(),
            i <= n <= 8,
            pos + n <= data@.len(),
            acc == be_value(data@, pos as int, i as nat),
            be_value(data@, pos as int, i as nat) < pow256(i as nat),
        decreases n - i,
    {
        proof {
            lemma_pow256_step(i as nat);
            lemma_be_bound(data@, pos as int, i as nat + 1);
        }
        acc = acc * 256 + data[pos + i] as u64;
        i = i + 1;
    }
    acc
}

/// 256 to the power `k`.
pub open spec fn pow256(k: nat) -> int
    decreases k,
{
    if k == 0 {
        1
    } else {
        256 * pow256((k - 1) as nat)
    }
}

proof fn lemma_pow256_step(k: nat)
    requires
        k < 8,
    ensures
        pow256(k + 1) == 256 * pow256(k),
        pow256(k + 1) <= 0x1_0000_0000_0000_0000,
{
    assert(pow256(1) == 256 * pow256(0));
    assert(pow256(2) == 256 * pow256(1));
    assert(pow256(3) == 256 * pow256(2));
    assert(pow256(4) == 256 * pow256(3));
    assert(pow256(5) == 256 * pow256(4));
    assert(pow256(6) == 256 * pow256(5));
    assert(pow256(7) == 256 * pow256(6));
    assert(pow256(8) == 256 * pow256(7));
}

proof fn lemma_be_bound(s: Seq<u8>, p: int, n: nat)
    ensures
        0 <= be_value(s, p, n) < pow256(n),
    decreases n,
{
    if n > 0 {
        lemma_be_bound(s, p, (n - 1) as nat);
        let prev = be_value(s, p, (n - 1) as nat);
        assert(prev * 256 + s[p + n - 1] < pow256(n)) by (nonlinear_arith)
            requires
                0 <= prev < pow256((n - 1) as nat),
                pow256(n) == 256 * pow256((n - 1) as nat),
                0 <= s[p + n - 1] < 256,
        ;
    }
}

/// Reads a big-endian `u16` at `pos`.
pub fn read_u16(data: &[u8], pos: usize) -> (r: Result<(u16, usize), CodecError>)
    ensures
        r == spec_read_u16(data@, pos),
{
    if pos <= data.len() && 2 <= data.len() - pos {
        let v = read_be(data, pos, 2);
        proof {
            lemma_be_bound(data@, pos as int, 2);
            lemma_pow256_step(0);
            lemma_pow256_step(1);
        }
        Ok((v as u16, pos + 2))
    } else {
        Err(CodecError::Eof)
    }
}

/// Reads a big-endian `i32` at `pos`.
pub fn read_i32(data: &[u8], pos: usize) -> (r: Result<(i32, usize), CodecError>)
    ensures
        r == spec_read_i32(data@, pos),
{
    if pos <= data.len() && 4 <= data.len() - pos {
        let v = read_be(data, pos, 4);
        proof {
            lemma_be_bound(data@, pos as int, 4);
            lemma_pow256_step(0);
            lemma_pow256_step(1);
            lemma_pow256_step(2);
            lemma_pow256_step(3);
        }
        let w: i32 = if v < 0x8000_0000 {
            v as i32
        } else {
            (v as i64 - 0x1_0000_0000i64) as i32
        };
        Ok((w, pos + 4))
    } else {
        Err(CodecError::Eof)
    }
}

/// Reads a big-endian 64-bit word at `pos`.
pub fn read_u64(data: &[u8], pos: usize) -> (r: Result<(u64, usize), CodecError>)
    ensures
        r == spec_read_u64(data@, pos),
{
    if pos <= data.len() && 8 <= data.len() - pos {
        let v = read_be(data, pos, 8);
        Ok((v, pos + 8))
    } else {
        Err(CodecError::Eof)
    }
}

/// Moves `count` bytes past `pos`, when the body is that long.
pub fn skip(data: &[u8], pos: usize, count: usize) -> (r: Option<usize>)
    ensures
        r == spec_skip(data@, pos, count as int),
{
    if pos <= data.len() && count <= data.len() - pos {
        Some(pos + count)
    } else {
        None
    }
}

/// The VarInt bytes of an unsigned 32-bit value.
pub open spec fn varint_bytes(u: nat) -> Seq<u8>
    decreases u,
{
    if u < 128 {
        seq![u as u8]
    } else {
        seq![(u % 128 + 128) as u8] + varint_bytes(u / 128)
    }
}

/// The unsigned 32-bit value a VarInt carries for `v`.
pub open spec fn unsigned_of(v: i32) -> nat {
    if v >= 0 {
        v as nat
    } else {
        (v + 0x1_0000_0000) as nat
    }
}

/// Appends the VarInt encoding of `value` to `out`.
pub fn write_var_i32(out: &mut Vec<u8>, value: i32)
    ensures
        final(out)@ == old(out)@ + varint_bytes(unsigned_of(value)),
{
    let mut u: u64 = if value >= 0 {
        value as u64
    } else {
        (value as i64 + 0x1_0000_0000i64) as u64
    };
    let ghost start = old(out)@;
    let ghost total = unsigned_of(value);
    while u >= 128
        invariant
            u < 0x1_0000_0000,
            start + varint_bytes(total) == out@ + varint_bytes(u as nat),
        decreases u,
    {
        let b = (u % 128 + 128) as u8;
        proof {
            assert(varint_bytes(u as nat) == seq![b] + varint_bytes((u / 128) as nat));
            assert(out@ + varint_bytes(u as nat) =~= out@.push(b) + varint_bytes((u / 128) as nat));
        }
        out.push(b);
        u = u / 128;
    }
    proof {
        assert(varint_bytes(u as nat) == seq![u as u8]);
        assert(out@ + varint_bytes(u as nat) =~= out@.push(u as u8));
    }
    out.push(u as u8);
}

/// Reading the VarInt bytes of an unsigned 32-bit value, at `i` bytes into the VarInt, gives the
/// value back and ends right after the bytes.
proof fn lemma_varint_bytes_read(u: nat, s: Seq<u8>, p: int, i: nat, acc: int, total: nat)
    requires
        u < pow128((5 - i) as nat),
        i <= 4,
        0 <= p,
        p + i + varint_bytes(u).len() <= s.len(),
        s.subrange(p + i, p + i + varint_bytes(u).len()) == varint_bytes(u),
        total == acc + u * pow128(i),
    ensures
        varint_from(s, p, i, acc) == Ok::<(int, int), CodecError>((total as int, p + i + varint_bytes(u).len())),
    decreases u,
{
    lemma_pow128_bounds(i);
    lemma_pow128_bounds((5 - i) as nat);
    let b = s[p + i];
    assert(b == varint_bytes(u)[0]);
    if u < 128 {
        assert(b == u as u8);
        assert(payload(b) == u);
    } else {
        assert(b == (u % 128 + 128) as u8);
        assert(payload(b) == u % 128);
        let rest = varint_bytes(u / 128);
        assert(varint_bytes(u) == seq![b] + rest);
        assert(s.subrange(p + i + 1, p + i + 1 + rest.len()) =~= rest) by {
            assert forall|k: int| 0 <= k < rest.len() implies s.subrange(p + i + 1, p + i + 1 + rest.len())[k]
                == rest[k] by {
                assert(s[p + i + 1 + k] == s.subrange(p + i, p + i + varint_bytes(u).len())[1 + k]);
            }
        }
        assert(pow128(i + 1) == 128 * pow128(i));
        assert(total == (acc + (u % 128) * pow128(i)) + (u / 128) * pow128(i + 1)) by (nonlinear_arith)
            requires
                total == acc + u * pow128(i),
                pow128(i + 1) == 128 * pow128(i),
                u == 128 * (u / 128) + u % 128,
        ;
        if i == 4 {
            assert(pow128(1) == 128 * pow128(0));
        }
        assert(pow128((5 - i) as nat) == 128 * pow128((4 - i) as nat));
        assert(u / 128 < pow128((4 - i) as nat)) by (nonlinear_arith)
            requires
                u < pow128((5 - i) as nat),
                pow128((5 - i) as nat) == 128 * pow128((4 - i) as nat),
        ;
        lemma_varint_bytes_read(u / 128, s, p, i + 1, acc + (u % 128) * pow128(i), total);
    }
}

proof fn lemma_varint_bytes_len(u: nat)
    ensures
        varint_bytes(u).len() >= 1,
    decreases u,
{
    if u >= 128 {
        lemma_varint_bytes_len(u / 128);
    }
}

/// Reading back what `write_var_i32` wrote gives the value, and the read ends right after the
/// written bytes, whatever follows them.
pub proof fn lemma_var_i32_roundtrip(v: i32, rest: Seq<u8>)
    ensures
        spec_read_var_i32(varint_bytes(unsigned_of(v)) + rest, 0) == Ok::<(i32, usize), CodecError>(
            (v, varint_bytes(unsigned_of(v)).len() as usize),
        ),
{
    let u = unsigned_of(v);
    let bytes = varint_bytes(u);
    let s = bytes + rest;
    lemma_varint_bytes_len(u);
    lemma_pow128_bounds(4);
    assert(pow128(5) == 128 * pow128(4));
    assert(s.subrange(0, bytes.len() as int) =~= bytes);
    lemma_varint_bytes_read(u, s, 0, 0, 0, u);
    assert(u % 0x1_0000_0000 == u);
}


/// Reading a VarInt where `write_var_i32` put one, after any bytes, gives the value and ends
/// right after the written bytes, whatever follows.
pub proof fn lemma_var_i32_read_at(v: i32, before: Seq<u8>, rest: Seq<u8>)
    requires
        before.len() + varint_bytes(unsigned_of(v)).len() <= usize::MAX,
    ensures
        spec_read_var_i32(before + varint_bytes(unsigned_of(v)) + rest, before.len() as usize)
            == Ok::<(i32, usize), CodecError>(
            (v, (before.len() + varint_bytes(unsigned_of(v)).len()) as usize),
        ),
{
    let u = unsigned_of(v);
    let bytes = varint_bytes(u);
    let s = before + bytes + rest;
    let p = before.len() as int;
    lemma_varint_bytes_len(u);
    lemma_pow128_bounds(4);
    assert(pow128(5) == 128 * pow128(4));
    assert(s.subrange(p, p + bytes.len()) =~= bytes);
    lemma_varint_bytes_read(u, s, p, 0, 0, u);
    assert(u % 0x1_0000_0000 == u);
}

/// Reads a two's complement `i64` from its unsigned 64-bit pattern.
pub open spec fn wrap_i64(u: int) -> i64 {
    if u < 0x8000_0000_0000_0000 {
        u as i64
    } else {
        (u - 0x1_0000_0000_0000_0000) as i64
    }
}

/// A big-endian `i64` at `p`.
pub open spec fn spec_read_i64(s: Seq<u8>, p: usize) -> Result<(i64, usize), CodecError> {
    if p + 8 <= s.len() {
        Ok((wrap_i64(be_value(s, p as int, 8)), (p + 8) as usize))
    } else {
        Err(CodecError::Eof)
    }
}

/// Reads a big-endian `i64` at `pos`.
pub fn read_i64(data: &[u8], pos: usize) -> (r: Result<(i64, usize), CodecError>)
    ensures
        r == spec_read_i64(data@, pos),
{
    if pos <= data.len() && 8 <= data.len() - pos {
        let v = read_be(data, pos, 8);
        let w: i64 = if v < 0x8000_0000_0000_0000 {
            v as i64
        } else {
            (v - 0x8000_0000_0000_0000) as i64 - 0x4000_0000_0000_0000 - 0x4000_0000_0000_0000
        };
        Ok((w, pos + 8))
    } else {
        Err(CodecError::Eof)
    }
}

/// A boolean byte at `p`: any byte but zero is true.
pub open spec fn spec_read_bool(s: Seq<u8>, p: usize) -> Result<(bool, usize), CodecError> {
    match spec_read_u8(s, p) {
        Ok((b, q)) => Ok((b != 0, q)),
        Err(e) => Err(e),
    }
}

/// Reads a boolean byte at `pos`.
pub fn read_bool(data: &[u8], pos: usize) -> (r: Result<(bool, usize), CodecError>)
    ensures
        r == spec_read_bool(data@, pos),
{
    match read_u8(data, pos) {
        Ok((b, q)) => Ok((b != 0, q)),
        Err(e) => Err(e),
    }
}

/// A uuid at `p`: sixteen bytes, most significant first.
pub open spec fn spec_read_uuid(s: Seq<u8>, p: usize) -> Result<(u128, usize), CodecError> {
    if p + 16 <= s.len() {
        Ok(
            (
                (be_value(s, p as int, 8) * 0x1_0000_0000_0000_0000 + be_value(s, p + 8, 8)) as u128,
                (p + 16) as usize,
            ),
        )
    } else {
        Err(CodecError::Eof)
    }
}

/// Reads a uuid at `pos`.
pub fn read_uuid(data: &[u8], pos: usize) -> (r: Result<(u128, usize), CodecError>)
    ensures
        r == spec_read_uuid(data@, pos),
{
    if pos <= data.len() && 16 <= data.len() - pos {
        let hi = read_be(data, pos, 8);
        let lo = read_be(data, pos + 8, 8);
        let v: u128 = hi as u128 * 0x1_0000_0000_0000_0000u128 + lo as u128;
        Ok((v, pos + 16))
    } else {
        Err(CodecError::Eof)
    }
}

/// A signed value from its low `bits` bits.
pub open spec fn sign_extend(v: int, bits: nat) -> int {
    if v >= pow2(bits) / 2 {
        v - pow2(bits)
    } else {
        v
    }
}

/// 2 to the power `k`.
pub open spec fn pow2(k: nat) -> int
    decreases k,
{
    if k == 0 {
        1
    } else {
        2 * pow2((k - 1) as nat)
    }
}

/// The block position packed in a long, as (x, y, z): x in the top 26 bits, z in the next
/// 26, y in the low 12, each two's complement.
pub open spec fn unpack_position(u: int) -> (i32, i32, i32) {
    (
        sign_extend(u / 0x40_0000_0000, 26) as i32,
        sign_extend(u % 0x1000, 12) as i32,
        sign_extend((u / 0x1000) % 0x400_0000, 26) as i32,
    )
}

/// A packed block position at `p`.
pub open spec fn spec_read_position(s: Seq<u8>, p: usize) -> Result<((i32, i32, i32), usize), CodecError> {
    if p + 8 <= s.len() {
        Ok((unpack_position(be_value(s, p as int, 8)), (p + 8) as usize))
    } else {
        Err(CodecError::Eof)
    }
}

proof fn lemma_pow2_values()
    ensures
        pow2(12) == 0x1000,
        pow2(26) == 0x400_0000,
{
    assert(pow2(0) == 1);
    assert(pow2(1) == 2 * pow2(0));
    assert(pow2(2) == 2 * pow2(1));
    assert(pow2(3) == 2 * pow2(2));
    assert(pow2(4) == 2 * pow2(3));
    assert(pow2(5) == 2 * pow2(4));
    assert(pow2(6) == 2 * pow2(5));
    assert(pow2(7) == 2 * pow2(6));
    assert(pow2(8) == 2 * pow2(7));
    assert(pow2(9) == 2 * pow2(8));
    assert(pow2(10) == 2 * pow2(9));
    assert(pow2(11) == 2 * pow2(10));
    assert(pow2(12) == 2 * pow2(11));
    assert(pow2(13) == 2 * pow2(12));
    assert(pow2(14) == 2 * pow2(13));
    assert(pow2(15) == 2 * pow2(14));
    assert(pow2(16) == 2 * pow2(15));
    assert(pow2(17) == 2 * pow2(16));
    assert(pow2(18) == 2 * pow2(17));
    assert(pow2(19) == 2 * pow2(18));
    assert(pow2(20) == 2 * pow2(19));
    assert(pow2(21) == 2 * pow2(20));
    assert(pow2(22) == 2 * pow2(21));
    assert(pow2(23) == 2 * pow2(22));
    assert(pow2(24) == 2 * pow2(23));
    assert(pow2(25) == 2 * pow2(24));
    assert(pow2(26) == 2 * pow2(25));
}

/// Reads a packed block position at `pos`.
pub fn read_position(data: &[u8], pos: usize) -> (r: Result<((i32, i32, i32), usize), CodecError>)
    ensures
        r == spec_read_position(data@, pos),
{
    if pos <= data.len() && 8 <= data.len() - pos {
        let u = read_be(data, pos, 8);
        proof {
            lemma_pow2_values();
            lemma_be_bound(data@, pos as int, 8);
            lemma_pow256_step(0);
            lemma_pow256_step(1);
            lemma_pow256_step(2);
            lemma_pow256_step(3);
            lemma_pow256_step(4);
            lemma_pow256_step(5);
            lemma_pow256_step(6);
            lemma_pow256_step(7);
        }
        let x26 = u / 0x40_0000_0000;
        let z26 = (u / 0x1000) % 0x400_0000;
        let y12 = u % 0x1000;
        let x: i32 = if x26 >= 0x200_0000 {
            (x26 as i64 - 0x400_0000) as i32
        } else {
            x26 as i32
        };
        let z: i32 = if z26 >= 0x200_0000 {
            (z26 as i64 - 0x400_0000) as i32
        } else {
            z26 as i32
        };
        let y: i32 = if y12 >= 0x800 {
            (y12 as i64 - 0x1000) as i32
        } else {
            y12 as i32
        };
        Ok(((x, y, z), pos + 8))
    } else {
        Err(CodecError::Eof)
    }
}

/// The long a block position is packed into: x in the top 26 bits, z in the next 26, y in
/// the low 12, each taken modulo its width (its two's complement bits).
pub open spec fn pack_position(x: int, y: int, z: int) -> int {
    (x % 0x400_0000) * 0x40_0000_0000 + (z % 0x400_0000) * 0x1000 + (y % 0x1000)
}

/// The `n` big-endian bytes of `u`.
pub open spec fn be_bytes(u: int, n: nat) -> Seq<u8> {
    Seq::new(n, |i: int| ((u / pow256((n - 1 - i) as nat)) % 256) as u8)
}

proof fn lemma_pow256_values()
    ensures
        pow256(0) == 1,
        pow256(1) == 0x100,
        pow256(2) == 0x1_0000,
        pow256(3) == 0x100_0000,
        pow256(4) == 0x1_0000_0000,
        pow256(5) == 0x100_0000_0000,
        pow256(6) == 0x1_0000_0000_0000,
        pow256(7) == 0x100_0000_0000_0000,
        pow256(8) == 0x1_0000_0000_0000_0000,
{
    reveal_with_fuel(pow256, 9);
}

/// The residue of a 32-bit value modulo `m`, a power of two up to 2^31, computed without
/// signed remainders.
fn residue(v: i32, m: u64) -> (r: u64)
    requires
        m == 0x400_0000 || m == 0x1000,
    ensures
        r == (v as int) % (m as int),
{
    let shifted: u64 = (v as i64 + 0x8000_0000i64) as u64;
    proof {
        let k: int = 0x8000_0000int / (m as int);
        assert(k * (m as int) == 0x8000_0000);
        lemma_mod_multiples_vanish(k, v as int, m as int);
        assert((m as int) * k + v as int == shifted as int);
    }
    shifted % m
}

/// Appends a block position packed into a big-endian long.
pub fn write_position(out: &mut Vec<u8>, x: i32, y: i32, z: i32)
    ensures
        final(out)@ == old(out)@ + be_bytes(pack_position(x as int, y as int, z as int), 8),
{
    let xs = residue(x, 0x400_0000);
    let zs = residue(z, 0x400_0000);
    let ys = residue(y, 0x1000);
    assert(xs * 0x40_0000_0000 + zs * 0x1000 + ys < 0x1_0000_0000_0000_0000) by (nonlinear_arith)
        requires
            xs < 0x400_0000,
            zs < 0x400_0000,
            ys < 0x1000,
    ;
    let u: u64 = xs * 0x40_0000_0000 + zs * 0x1000 + ys;
    let ghost start = out@;
    out.push(((u / 0x100_0000_0000_0000) % 256) as u8);
    out.push(((u / 0x1_0000_0000_0000) % 256) as u8);
    out.push(((u / 0x100_0000_0000) % 256) as u8);
    out.push(((u / 0x1_0000_0000) % 256) as u8);
    out.push(((u / 0x100_0000) % 256) as u8);
    out.push(((u / 0x1_0000) % 256) as u8);
    out.push(((u / 0x100) % 256) as u8);
    out.push((u % 256) as u8);
    proof {
        lemma_pow256_values();
        assert(u as int == pack_position(x as int, y as int, z as int));
        assert(out@ =~= start + be_bytes(u as int, 8));
    }
}

/// Reading the first `k` of the big-endian bytes of `u` gives `u` without its last `8 - k`
/// bytes.
proof fn lemma_be_value_of_bytes(s: Seq<u8>, p: int, u: int, k: nat)
    requires
        0 <= u < 0x1_0000_0000_0000_0000,
        0 <= p,
        k <= 8,
        p + 8 <= s.len(),
        s.subrange(p, p + 8) == be_bytes(u, 8),
    ensures
        be_value(s, p, k) == u / pow256((8 - k) as nat),
    decreases k,
{
    lemma_pow256_values();
    if k == 0 {
        lemma_basic_div(u, pow256(8));
    } else {
        lemma_be_value_of_bytes(s, p, u, (k - 1) as nat);
        let y = u / pow256((8 - k) as nat);
        assert(s[p + k - 1] == s.subrange(p, p + 8)[k - 1]);
        assert(pow256((9 - k) as nat) == pow256((8 - k) as nat) * 256);
        lemma_div_denominator(u, pow256((8 - k) as nat), 256);
        lemma_fundamental_div_mod(y, 256);
    }
}

/// Reading back a block position that was written gives the position, for coordinates that fit
/// their widths (x and z in 26 bits, y in 12, two's complement), whatever follows.
pub proof fn lemma_position_roundtrip(x: i32, y: i32, z: i32, before: Seq<u8>, rest: Seq<u8>)
    requires
        -0x200_0000 <= x < 0x200_0000,
        -0x200_0000 <= z < 0x200_0000,
        -0x800 <= y < 0x800,
        before.len() + 8 <= usize::MAX,
    ensures
        spec_read_position(before + be_bytes(pack_position(x as int, y as int, z as int), 8) + rest, before.len() as usize)
            == Ok::<((i32, i32, i32), usize), CodecError>(((x, y, z), (before.len() + 8) as usize)),
{
    let xs = (x as int) % 0x400_0000;
    let zs = (z as int) % 0x400_0000;
    let ys = (y as int) % 0x1000;
    let u = pack_position(x as int, y as int, z as int);
    let s = before + be_bytes(u, 8) + rest;
    let p = before.len() as int;
    assert(0 <= u < 0x1_0000_0000_0000_0000) by (nonlinear_arith)
        requires
            0 <= xs < 0x400_0000,
            0 <= zs < 0x400_0000,
            0 <= ys < 0x1000,
            u == xs * 0x40_0000_0000 + zs * 0x1000 + ys,
    ;
    assert(s.subrange(p, p + 8) =~= be_bytes(u, 8));
    lemma_be_value_of_bytes(s, p, u, 8);
    lemma_pow256_values();
    assert(be_value(s, p, 8) == u);
    lemma_pow2_values();
    lemma_fundamental_div_mod_converse(u, 0x40_0000_0000, xs, zs * 0x1000 + ys);
    lemma_fundamental_div_mod_converse(u, 0x1000, xs * 0x400_0000 + zs, ys);
    lemma_fundamental_div_mod_converse(xs * 0x400_0000 + zs, 0x400_0000, xs, zs);
    assert(u / 0x1000 == xs * 0x400_0000 + zs);
    assert(xs == if x < 0 { x + 0x400_0000 } else { x as int });
    assert(zs == if z < 0 { z + 0x400_0000 } else { z as int });
    assert(ys == if y < 0 { y + 0x1000 } else { y as int });
    assert(sign_extend(u / 0x40_0000_0000, 26) == x);
    assert(sign_extend((u / 0x1000) % 0x400_0000, 26) == z);
    assert(sign_extend(u % 0x1000, 12) == y);
    assert(unpack_position(u) == (x, y, z));
}

/// A length-prefixed UTF-8 string at `p`.
pub open spec fn spec_read_string(s: Seq<u8>, p: usize) -> Result<(Seq<char>, usize), CodecError> {
    match spec_read_var_i32(s, p) {
        Err(e) => Err(e),
        Ok((len, p1)) => if len < 0 {
            Err(CodecError::NegativeLength)
        } else if p1 + len > s.len() {
            Err(CodecError::Eof)
        } else if !valid_utf8(s.subrange(p1 as int, p1 + len)) {
            Err(CodecError::InvalidUtf8)
        } else {
            Ok((decode_utf8(s.subrange(p1 as int, p1 + len)), (p1 + len) as usize))
        },
    }
}

/// The bytes of a length-prefixed string: the UTF-8 length as a VarInt, then the UTF-8 bytes.
pub open spec fn string_bytes(text: Seq<char>) -> Seq<u8> {
    varint_bytes(unsigned_of(encode_utf8(text).len() as i32)) + encode_utf8(text)
}

/// Appends `text` as a length-prefixed UTF-8 string.
pub fn write_string(out: &mut Vec<u8>, text: &str)
    ensures
        final(out)@ == old(out)@ + string_bytes(text@),
{
    let bytes = text.as_bytes();
    write_var_i32(out, bytes.len() as i32);
    let ghost start = out@;
    let mut i: usize = 0;
    while i < bytes.len()
        invariant
            i <= bytes@.len(),
            out@ == start + bytes@.subrange(0, i as int),
        decreases bytes.len() - i,
    {
        out.push(bytes[i]);
        i += 1;
        assert(out@ =~= start + bytes@.subrange(0, i as int));
    }
    assert(bytes@.subrange(0, bytes@.len() as int) =~= bytes@);
    assert(out@ =~= old(out)@ + string_bytes(text@));
}

/// Reading back a string that was written gives its text, and the read ends right after the
/// written bytes, whatever follows them (for texts whose UTF-8 form fits an `i32` length).
pub proof fn lemma_string_roundtrip(text: Seq<char>, rest: Seq<u8>)
    requires
        encode_utf8(text).len() <= i32::MAX,
        string_bytes(text).len() + rest.len() <= usize::MAX,
    ensures
        spec_read_string(string_bytes(text) + rest, 0) == Ok::<(Seq<char>, usize), CodecError>(
            (text, string_bytes(text).len() as usize),
        ),
{
    let enc = encode_utf8(text);
    let len = enc.len() as i32;
    assert(unsigned_of(len) == enc.len());
    let prefix = varint_bytes(unsigned_of(len));
    let s = string_bytes(text) + rest;
    assert(s =~= prefix + (enc + rest));
    lemma_var_i32_roundtrip(len, enc + rest);
    let p1 = prefix.len() as int;
    assert(s.subrange(p1, p1 + enc.len()) =~= enc);
    encode_utf8_valid_utf8(text);
    encode_utf8_decode_utf8(text);
}

/// Decodes UTF-8 with `std::str::from_utf8`, which accepts exactly the valid UTF-8 byte strings
/// and then holds the characters they encode.
#[verifier::external_body]
fn utf8_to_string(bytes: &[u8]) -> (r: Option<String>)
    ensures
        r is Some == valid_utf8(bytes@),
        r matches Some(text) ==> text@ == decode_utf8(bytes@),
{
    match std::str::from_utf8(bytes) {
        Ok(text) => Some(text.to_string()),
        Err(_) => None,
    }
}

/// A length-prefixed byte string at `p`.
pub open spec fn spec_read_bytes(s: Seq<u8>, p: usize) -> Result<(Seq<u8>, usize), CodecError> {
    match spec_read_var_i32(s, p) {
        Err(e) => Err(e),
        Ok((len, p1)) => if len < 0 {
            Err(CodecError::NegativeLength)
        } else if p1 + len > s.len() {
            Err(CodecError::Eof)
        } else {
            Ok((s.subrange(p1 as int, p1 + len), (p1 + len) as usize))
        },
    }
}

/// Reads a length-prefixed byte string at `pos`.
pub fn read_bytes(data: &[u8], pos: usize) -> (r: Result<(Vec<u8>, usize), CodecError>)
    ensures
        match r {
            Ok((v, q)) => spec_read_bytes(data@, pos) == Ok::<(Seq<u8>, usize), CodecError>((v@, q)),
            Err(e) => spec_read_bytes(data@, pos) == Err::<(Seq<u8>, usize), CodecError>(e),
        },
{
    let (len, p1) = read_var_i32(data, pos)?;
    if len < 0 {
        return Err(CodecError::NegativeLength);
    }
    if len as usize > data.len() - p1 {
        return Err(CodecError::Eof);
    }
    let end = p1 + len as usize;
    let mut out: Vec<u8> = Vec::new();
    let mut i = p1;
    while i < end
        invariant
            p1 <= i <= end <= data@.len(),
            out@ =~= data@.subrange(p1 as int, i as int),
        decreases end - i,
    {
        out.push(data[i]);
        i += 1;
    }
    Ok((out, end))
}

/// Reads a length-prefixed UTF-8 string at `pos`.
pub fn read_string(data: &[u8], pos: usize) -> (r: Result<(String, usize), CodecError>)
    ensures
        match r {
            Ok((text, q)) => spec_read_string(data@, pos) == Ok::<(Seq<char>, usize), CodecError>((text@, q)),
            Err(e) => spec_read_string(data@, pos) == Err::<(Seq<char>, usize), CodecError>(e),
        },
{
    let (bytes, end) = read_bytes(data, pos)?;
    match utf8_to_string(bytes.as_slice()) {
        Some(text) => Ok((text, end)),
        None => Err(CodecError::InvalidUtf8),
    }
}

} // verus!
