use vstd::prelude::*;

verus! {

/// The lowercase hexadecimal digit for `d`.
pub open spec fn hex_char(d: nat) -> char {
    if d < 10 {
        (48 + d) as char
    } else {
        (87 + d) as char
    }
}

/// The lowercase hexadecimal form of `n`, without leading zeros.
pub open spec fn hex_text(n: nat) -> Seq<char>
    decreases n,
{
    if n < 16 {
        seq![hex_char(n)]
    } else {
        hex_text(n / 16).push(hex_char(n % 16))
    }
}

/// The decimal form of `n`, without leading zeros.
pub open spec fn decimal_text(n: nat) -> Seq<char>
    decreases n,
{
    if n < 10 {
        seq![hex_char(n)]
    } else {
        decimal_text(n / 10).push(hex_char(n % 10))
    }
}

/// The one-character text of the digit `d`.
fn digit_text(d: u32) -> (r: &'static str)
    requires
        d < 16,
    ensures
        r@ == seq![hex_char(d as nat)],
{
    proof {
        reveal_strlit("0");
        reveal_strlit("1");
        reveal_strlit("2");
        reveal_strlit("3");
        reveal_strlit("4");
        reveal_strlit("5");
        reveal_strlit("6");
        reveal_strlit("7");
        reveal_strlit("8");
        reveal_strlit("9");
        reveal_strlit("a");
        reveal_strlit("b");
        reveal_strlit("c");
        reveal_strlit("d");
        reveal_strlit("e");
        reveal_strlit("f");
    }
    let r = match d {
        0 => "0",
        1 => "1",
        2 => "2",
        3 => "3",
        4 => "4",
        5 => "5",
        6 => "6",
        7 => "7",
        8 => "8",
        9 => "9",
        10 => "a",
        11 => "b",
        12 => "c",
        13 => "d",
        14 => "e",
        _ => "f",
    };
    assert(r@ =~= seq![hex_char(d as nat)]);
    r
}

fn append_hex(out: &mut String, n: u32)
    ensures
        final(out)@ == old(out)@ + hex_text(n as nat),
    decreases n,
{
    if n >= 16 {
        append_hex(out, n / 16);
    }
    out.append(digit_text(n % 16));
    assert(out@ =~= old(out)@ + hex_text(n as nat)) by {
        if n >= 16 {
            assert(hex_text(n as nat) == hex_text((n / 16) as nat).push(hex_char((n % 16) as nat)));
        }
    }
}

fn append_decimal(out: &mut String, n: usize)
    ensures
        final(out)@ == old(out)@ + decimal_text(n as nat),
    decreases n,
{
    if n >= 10 {
        append_decimal(out, n / 10);
    }
    out.append(digit_text((n % 10) as u32));
    assert(out@ =~= old(out)@ + decimal_text(n as nat)) by {
        if n >= 10 {
            assert(decimal_text(n as nat) == decimal_text((n / 10) as nat).push(hex_char((n % 10) as nat)));
        }
    }
}

/// The two's complement bits of `v` read as an unsigned number.
pub open spec fn bits_of(v: i32) -> nat {
    if v >= 0 {
        v as nat
    } else {
        (v + 0x1_0000_0000) as nat
    }
}

/// The message for a packet that came where another was expected: the phase, then the packet
/// id in lowercase hexadecimal (a negative id by its two's complement bits).
pub fn format_packet_error(phase: &str, packet_id: i32) -> (r: String)
    ensures
        r@ == phase@ + ": got packet 0x"@ + hex_text(bits_of(packet_id)),
{
    let mut message = phase.to_owned();
    message.append(": got packet 0x");
    let bits: u32 = if packet_id >= 0 {
        packet_id as u32
    } else {
        (packet_id as i64 + 0x1_0000_0000i64) as u32
    };
    append_hex(&mut message, bits);
    message
}

/// The message for a moving-pending probe that stopped receiving chunks after `seen` of them.
pub fn missing_chunks_error(seen: usize) -> (r: String)
    ensures
        r@ == "moving pending timed out after "@ + decimal_text(seen as nat) + " chunks"@,
{
    let mut message = "moving pending timed out after ".to_owned();
    append_decimal(&mut message, seen);
    message.append(" chunks");
    message
}

} // verus!
