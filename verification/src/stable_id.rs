//! Stable identifiers: sixteen random bytes written as hexadecimal groups of
//! 8, 4, 4, 4 and 12 digits, with the version and variant bits of a random
//! UUID.

use crate::error::{CoreError, ErrorKind};
use crate::text::string_of;
use vstd::prelude::*;

verus! {

/// The hexadecimal digit for a value below sixteen.
pub open spec fn hex_digit(n: int) -> char {
    if n == 0 {
        '0'
    } else if n == 1 {
        '1'
    } else if n == 2 {
        '2'
    } else if n == 3 {
        '3'
    } else if n == 4 {
        '4'
    } else if n == 5 {
        '5'
    } else if n == 6 {
        '6'
    } else if n == 7 {
        '7'
    } else if n == 8 {
        '8'
    } else if n == 9 {
        '9'
    } else if n == 10 {
        'a'
    } else if n == 11 {
        'b'
    } else if n == 12 {
        'c'
    } else if n == 13 {
        'd'
    } else if n == 14 {
        'e'
    } else {
        'f'
    }
}

/// The byte at position `i` of an identifier: the random byte, but for
/// the version bits in byte 6 and the variant bits in byte 8.
pub open spec fn id_byte(random: Seq<u8>, i: int) -> u8 {
    if i == 6 {
        (random[6] & 0x0f) | 0x40
    } else if i == 8 {
        (random[8] & 0x3f) | 0x80
    } else {
        random[i]
    }
}

/// The two hexadecimal digits of the bytes from `from` up to `to`.
pub open spec fn hex_group(random: Seq<u8>, from: int, to: int) -> Seq<char> {
    Seq::new(
        (2 * (to - from)) as nat,
        |k: int|
            if k % 2 == 0 {
                hex_digit(id_byte(random, from + k / 2) as int / 16)
            } else {
                hex_digit(id_byte(random, from + k / 2) as int % 16)
            },
    )
}

/// The identifier made of sixteen random bytes.
pub open spec fn stable_id_of(random: Seq<u8>) -> Seq<char> {
    hex_group(random, 0, 4) + seq!['-'] + hex_group(random, 4, 6) + seq!['-'] + hex_group(
        random,
        6,
        8,
    ) + seq!['-'] + hex_group(random, 8, 10) + seq!['-'] + hex_group(random, 10, 16)
}

/// An identifier has 36 characters, a dash after each group but the
/// last, the version digit `4`, and a variant digit from `8` to `b`.
pub proof fn lemma_stable_id_format(random: Seq<u8>)
    requires
        random.len() == 16,
    ensures
        stable_id_of(random).len() == 36,
        stable_id_of(random)[8] == '-',
        stable_id_of(random)[13] == '-',
        stable_id_of(random)[18] == '-',
        stable_id_of(random)[23] == '-',
        stable_id_of(random)[14] == '4',
        stable_id_of(random)[19] == '8' || stable_id_of(random)[19] == '9' || stable_id_of(
            random,
        )[19] == 'a' || stable_id_of(random)[19] == 'b',
{
    let b6 = random[6];
    let b8 = random[8];
    assert(((b6 & 0x0f) | 0x40) / 16 == 4) by (bit_vector);
    assert(8 <= ((b8 & 0x3f) | 0x80) / 16 <= 11) by (bit_vector);
    let s = stable_id_of(random);
    assert(s[14] == hex_group(random, 6, 8)[0]);
    assert(s[19] == hex_group(random, 8, 10)[0]);
}

/// The hexadecimal digit for a value below sixteen.
fn hex_char(n: u8) -> (c: char)
    requires
        n < 16,
    ensures
        c == hex_digit(n as int),
{
    if n == 0 {
        '0'
    } else if n == 1 {
        '1'
    } else if n == 2 {
        '2'
    } else if n == 3 {
        '3'
    } else if n == 4 {
        '4'
    } else if n == 5 {
        '5'
    } else if n == 6 {
        '6'
    } else if n == 7 {
        '7'
    } else if n == 8 {
        '8'
    } else if n == 9 {
        '9'
    } else if n == 10 {
        'a'
    } else if n == 11 {
        'b'
    } else if n == 12 {
        'c'
    } else if n == 13 {
        'd'
    } else if n == 14 {
        'e'
    } else {
        'f'
    }
}

/// Appends the hexadecimal digits of the bytes from `from` up to `to`.
fn push_group(out: &mut Vec<char>, random: &Vec<u8>, from: usize, to: usize)
    requires
        random.len() == 16,
        from <= to <= 16,
    ensures
        final(out)@ == old(out)@ + hex_group(random@, from as int, to as int),
{
    let mut i: usize = from;
    let ghost start = out@;
    assert(out@ =~= start + hex_group(random@, from as int, from as int));
    while i < to
        invariant
            from <= i <= to <= 16,
            random.len() == 16,
            out@ == start + hex_group(random@, from as int, i as int),
        decreases to - i,
    {
        let raw = random[i];
        let byte: u8 = if i == 6 {
            (raw & 0x0f) | 0x40
        } else if i == 8 {
            (raw & 0x3f) | 0x80
        } else {
            raw
        };
        assert(byte == id_byte(random@, i as int));
        out.push(hex_char(byte / 16));
        out.push(hex_char(byte % 16));
        assert(out@ =~= start + hex_group(random@, from as int, i + 1));
        i = i + 1;
    }
}

/// The stable identifier made of the random bytes `random`, of which
/// there must be sixteen.
pub fn generate_stable_id(random: &Vec<u8>) -> (r: Result<String, CoreError>)
    ensures
        match r {
            Ok(id) => random@.len() == 16 && id@ == stable_id_of(random@),
            Err(e) => random@.len() != 16 && e.is(
                ErrorKind::Store,
                "failed to generate stable_id"@,
            ),
        },
{
    if random.len() != 16 {
        return Err(CoreError::Store("failed to generate stable_id".to_owned()));
    }
    let mut out: Vec<char> = Vec::new();
    push_group(&mut out, random, 0, 4);
    out.push('-');
    push_group(&mut out, random, 4, 6);
    out.push('-');
    push_group(&mut out, random, 6, 8);
    out.push('-');
    push_group(&mut out, random, 8, 10);
    out.push('-');
    push_group(&mut out, random, 10, 16);
    assert(out@ =~= stable_id_of(random@));
    Ok(string_of(&out))
}

} // verus!
