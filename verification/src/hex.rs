//! Hex-string representation of byte buffers: lowercase pairs on output,
//! case-insensitive with an optional `0x`/`0X` prefix on input.

use vstd::prelude::*;

use crate::formatter::DecodeError;

verus! {

/// Relies on `String::push` from std: appends exactly the given character.
pub assume_specification[ String::push ](s: &mut String, ch: char)
    ensures
        final(s)@ == old(s)@.push(ch),
;

/// True of the sixteen hex digit characters, either case.
pub open spec fn is_hex_digit(c: char) -> bool {
    (48 <= c as int <= 57) || (97 <= c as int <= 102) || (65 <= c as int <= 70)
}

/// Numeric value of a hex digit character; meaningful only under
/// [`is_hex_digit`].
pub open spec fn hex_digit_value(c: char) -> int {
    if 48 <= c as int <= 57 {
        c as int - 48
    } else if 97 <= c as int <= 102 {
        c as int - 87
    } else {
        c as int - 55
    }
}

/// The lowercase hex digit character for a value in `0..16`.
pub open spec fn hex_digit_lower(v: int) -> char {
    if v < 10 {
        (v + 48) as char
    } else {
        (v + 87) as char
    }
}

/// The two lowercase digits of the `0x` prefix, or nothing.
pub open spec fn hex_prefix_seq(with_prefix: bool) -> Seq<char> {
    if with_prefix {
        seq!['0', 'x']
    } else {
        Seq::<char>::empty()
    }
}

/// Lowercase hex digits of a byte buffer, two per byte, high digit first.
pub open spec fn spec_hex_digits(b: Seq<u8>) -> Seq<char> {
    Seq::new(
        2 * b.len(),
        |i: int|
            if i % 2 == 0 {
                hex_digit_lower(b[i / 2] as int / 16)
            } else {
                hex_digit_lower(b[i / 2] as int % 16)
            },
    )
}

/// The full hex encoding of a byte buffer: optional prefix, then digits.
pub open spec fn spec_hex_encode(b: Seq<u8>, with_prefix: bool) -> Seq<char> {
    hex_prefix_seq(with_prefix) + spec_hex_digits(b)
}

/// Drops one leading `0x` or `0X`, if present.
pub open spec fn strip_hex_prefix(s: Seq<char>) -> Seq<char> {
    if s.len() >= 2 && s[0] == '0' && (s[1] == 'x' || s[1] == 'X') {
        s.skip(2)
    } else {
        s
    }
}

pub open spec fn all_hex_digits(s: Seq<char>) -> bool {
    forall|i: int| 0 <= i < s.len() ==> is_hex_digit(#[trigger] s[i])
}

/// The bytes named by an even-length sequence of hex digits.
pub open spec fn spec_hex_digits_decode(s: Seq<char>) -> Seq<u8> {
    Seq::new(
        s.len() / 2,
        |i: int| (hex_digit_value(s[2 * i]) * 16 + hex_digit_value(s[2 * i + 1])) as u8,
    )
}

/// What decoding a hex string yields: after dropping an optional prefix,
/// an odd digit count fails with `OddLength`, any non-hex character fails
/// with `InvalidHexDigit`, and otherwise each digit pair names one byte.
pub open spec fn spec_hex_decode(s: Seq<char>) -> Result<Seq<u8>, DecodeError> {
    let t = strip_hex_prefix(s);
    if t.len() % 2 != 0 {
        Err(DecodeError::OddLength)
    } else if !all_hex_digits(t) {
        Err(DecodeError::InvalidHexDigit)
    } else {
        Ok(spec_hex_digits_decode(t))
    }
}

/// Maps a decode result to its mathematical value, error unchanged.
pub open spec fn bytes_result_view(r: Result<Vec<u8>, DecodeError>) -> Result<
    Seq<u8>,
    DecodeError,
> {
    match r {
        Ok(v) => Ok(v@),
        Err(e) => Err(e),
    }
}

/// The lowercase hex digit character for a value in `0..16`, executably.
fn hex_digit_char(v: u8) -> (c: char)
    requires
        v < 16,
    ensures
        c == hex_digit_lower(v as int),
        is_hex_digit(c),
        hex_digit_value(c) == v as int,
{
    let d: u8 = if v < 10 {
        v + 48
    } else {
        v + 87
    };
    d as char
}

/// The value of one hex digit character, or `None` for any other character.
fn hex_digit_of(c: char) -> (r: Option<u8>)
    ensures
        match r {
            Some(v) => is_hex_digit(c) && v as int == hex_digit_value(c) && v < 16,
            None => !is_hex_digit(c),
        },
{
    let u = c as u32;
    if 48 <= u && u <= 57 {
        Some((u - 48) as u8)
    } else if 97 <= u && u <= 102 {
        Some((u - 87) as u8)
    } else if 65 <= u && u <= 70 {
        Some((u - 55) as u8)
    } else {
        None
    }
}

/// Encodes a byte buffer as hex: lowercase digit pairs, high digit first,
/// preceded by `0x` exactly when `with_prefix` is set.
pub fn encode_hex(bytes: &Vec<u8>, with_prefix: bool) -> (r: String)
    ensures
        r@ == spec_hex_encode(bytes@, with_prefix),
{
    let mut r = String::new();
    if with_prefix {
        r.push('0');
        r.push('x');
    }
    proof {
        assert(r@ =~= hex_prefix_seq(with_prefix) + spec_hex_digits(bytes@.take(0)));
    }
    let n = bytes.len();
    let mut i: usize = 0;
    while i < n
        invariant
            n == bytes.len(),
            i <= n,
            r@ == hex_prefix_seq(with_prefix) + spec_hex_digits(bytes@.take(i as int)),
        decreases n - i,
    {
        let b = bytes[i];
        let hi = hex_digit_char(b / 16);
        let lo = hex_digit_char(b % 16);
        r.push(hi);
        r.push(lo);
        proof {
            assert(spec_hex_digits(bytes@.take(i + 1)) =~= spec_hex_digits(
                bytes@.take(i as int),
            ).push(hi).push(lo)) by {
                let pre = spec_hex_digits(bytes@.take(i as int)).push(hi).push(lo);
                assert forall|j: int| 0 <= j < 2 * (i + 1) implies spec_hex_digits(
                    bytes@.take(i + 1),
                )[j] == pre[j] by {
                    if j < 2 * i {
                        assert(bytes@.take(i + 1)[j / 2] == bytes@.take(i as int)[j / 2]);
                    } else if j == 2 * i {
                        assert(j % 2 == 0 && j / 2 == i);
                    } else {
                        assert(j == 2 * i + 1 && j % 2 == 1 && j / 2 == i);
                    }
                }
            }
        }
        i += 1;
    }
    proof {
        assert(bytes@.take(n as int) =~= bytes@);
    }
    r
}

/// Decodes a hex string to a byte buffer.  An optional `0x`/`0X` prefix is
/// accepted and dropped whatever the configuration says; the remaining
/// digit count must be even and every character a hex digit.
pub fn decode_hex(s: &str) -> (r: Result<Vec<u8>, DecodeError>)
    ensures
        bytes_result_view(r) == spec_hex_decode(s@),
{
    let n = s.unicode_len();
    let start: usize = if n >= 2 && s.get_char(0) == '0' && (s.get_char(1) == 'x' || s.get_char(1)
        == 'X') {
        2
    } else {
        0
    };
    let ghost t = strip_hex_prefix(s@);
    proof {
        assert(t =~= s@.skip(start as int));
    }
    if (n - start) % 2 != 0 {
        return Err(DecodeError::OddLength);
    }
    let mut out: Vec<u8> = Vec::new();
    let mut i: usize = start;
    while i < n
        invariant
            n == s@.len(),
            t == strip_hex_prefix(s@),
            t == s@.skip(start as int),
            t.len() % 2 == 0,
            start <= i <= n,
            (i - start) % 2 == 0,
            out@.len() == (i - start) / 2,
            forall|j: int|
                0 <= j < (i - start) ==> is_hex_digit(#[trigger] t[j]),
            forall|j: int|
                0 <= j < out@.len() ==> out@[j] == (hex_digit_value(t[2 * j]) * 16
                    + hex_digit_value(t[2 * j + 1])) as u8,
        decreases n - i,
    {
        let c1 = s.get_char(i);
        let c2 = s.get_char(i + 1);
        let v1 = match hex_digit_of(c1) {
            Some(v) => v,
            None => {
                proof {
                    assert(t[i - start] == c1);
                    assert(!all_hex_digits(t));
                }
                return Err(DecodeError::InvalidHexDigit);
            },
        };
        let v2 = match hex_digit_of(c2) {
            Some(v) => v,
            None => {
                proof {
                    assert(t[i + 1 - start] == c2);
                    assert(!all_hex_digits(t));
                }
                return Err(DecodeError::InvalidHexDigit);
            },
        };
        out.push(v1 * 16 + v2);
        proof {
            assert(t[2 * ((i - start) / 2)] == c1);
            assert(t[2 * ((i - start) / 2) + 1] == c2);
        }
        i += 2;
    }
    proof {
        assert(all_hex_digits(t));
        assert(out@ =~= spec_hex_digits_decode(t));
    }
    Ok(out)
}

/// A value in `0..16` survives the trip through its lowercase digit.
pub proof fn lemma_hex_digit_round_trip(v: int)
    requires
        0 <= v < 16,
    ensures
        is_hex_digit(hex_digit_lower(v)),
        hex_digit_value(hex_digit_lower(v)) == v,
{
}

/// Law: decoding undoes hex encoding, whatever the prefix choice.
pub proof fn lemma_hex_round_trip(b: Seq<u8>, with_prefix: bool)
    ensures
        spec_hex_decode(spec_hex_encode(b, with_prefix)) == Ok::<Seq<u8>, DecodeError>(b),
{
    let d = spec_hex_digits(b);
    let e = spec_hex_encode(b, with_prefix);
    assert forall|i: int| 0 <= i < d.len() implies is_hex_digit(#[trigger] d[i]) by {
        if i % 2 == 0 {
            lemma_hex_digit_round_trip(b[i / 2] as int / 16);
        } else {
            lemma_hex_digit_round_trip(b[i / 2] as int % 16);
        }
    }
    if with_prefix {
        assert(e.len() >= 2 && e[0] == '0' && e[1] == 'x');
        assert(strip_hex_prefix(e) =~= d);
    } else {
        assert(e =~= d);
        if d.len() >= 2 {
            assert('x' as int == 120 && 'X' as int == 88);
            assert(is_hex_digit(d[1]));
            assert(d[1] != 'x' && d[1] != 'X');
        }
        assert(strip_hex_prefix(e) =~= d);
    }
    assert(all_hex_digits(d));
    assert(spec_hex_digits_decode(d) =~= b) by {
        assert forall|j: int| 0 <= j < b.len() implies spec_hex_digits_decode(d)[j] == b[j] by {
            let bj = b[j] as int;
            lemma_hex_digit_round_trip(bj / 16);
            lemma_hex_digit_round_trip(bj % 16);
            assert(d[2 * j] == hex_digit_lower(bj / 16));
            assert(d[2 * j + 1] == hex_digit_lower(bj % 16));
        }
    }
}

/// Law: a hex string decodes the same with or without a leading `0x` or
/// `0X`, for any string that does not already carry one.
pub proof fn lemma_hex_prefix_leniency(s: Seq<char>)
    requires
        strip_hex_prefix(s) == s,
    ensures
        spec_hex_decode(seq!['0', 'x'] + s) == spec_hex_decode(s),
        spec_hex_decode(seq!['0', 'X'] + s) == spec_hex_decode(s),
{
    let lower = seq!['0', 'x'] + s;
    assert(lower.len() >= 2 && lower[0] == '0' && lower[1] == 'x');
    assert(strip_hex_prefix(lower) =~= s);
    let upper = seq!['0', 'X'] + s;
    assert(upper.len() >= 2 && upper[0] == '0' && upper[1] == 'X');
    assert(strip_hex_prefix(upper) =~= s);
}

} // verus!
