//! Standard base64 representation of byte buffers, with `=` padding.

use vstd::prelude::*;

use crate::formatter::DecodeError;
use crate::hex::bytes_result_view;

verus! {

/// The standard-alphabet character for a value in `0..64`.
pub open spec fn b64_char(v: int) -> char {
    if v < 26 {
        (v + 65) as char
    } else if v < 52 {
        (v + 71) as char
    } else if v < 62 {
        (v - 4) as char
    } else if v == 62 {
        '+'
    } else {
        '/'
    }
}

/// The value of a standard-alphabet character, or `-1` for any other
/// character (`=` included).
pub open spec fn b64_value(c: char) -> int {
    if 65 <= c as int <= 90 {
        c as int - 65
    } else if 97 <= c as int <= 122 {
        c as int - 71
    } else if 48 <= c as int <= 57 {
        c as int + 4
    } else if c == '+' {
        62
    } else if c == '/' {
        63
    } else {
        -1
    }
}

pub open spec fn is_b64_char(c: char) -> bool {
    b64_value(c) >= 0
}

/// Standard base64 of a byte buffer: each group of three bytes becomes
/// four alphabet characters; a final group of one or two bytes is padded
/// with `==` or `=`.
pub open spec fn spec_b64_encode(b: Seq<u8>) -> Seq<char>
    decreases b.len(),
{
    if b.len() == 0 {
        Seq::<char>::empty()
    } else if b.len() == 1 {
        let x = b[0] as int;
        seq![b64_char(x / 4), b64_char((x % 4) * 16), '=', '=']
    } else if b.len() == 2 {
        let x = b[0] as int;
        let y = b[1] as int;
        seq![b64_char(x / 4), b64_char((x % 4) * 16 + y / 16), b64_char((y % 16) * 4), '=']
    } else {
        let x = b[0] as int;
        let y = b[1] as int;
        let z = b[2] as int;
        seq![
            b64_char(x / 4),
            b64_char((x % 4) * 16 + y / 16),
            b64_char((y % 16) * 4 + z / 64),
            b64_char(z % 64),
        ] + spec_b64_encode(b.skip(3))
    }
}

/// Well-formed standard base64: length a multiple of four, every block of
/// four made of alphabet characters, except that the last block may end in
/// `=` or `==`.
pub open spec fn spec_b64_valid(s: Seq<char>) -> bool
    decreases s.len(),
{
    if s.len() == 0 {
        true
    } else if s.len() % 4 != 0 {
        false
    } else if s.len() == 4 {
        is_b64_char(s[0]) && is_b64_char(s[1]) && ((is_b64_char(s[2]) && (is_b64_char(s[3])
            || s[3] == '=')) || (s[2] == '=' && s[3] == '='))
    } else {
        is_b64_char(s[0]) && is_b64_char(s[1]) && is_b64_char(s[2]) && is_b64_char(s[3])
            && spec_b64_valid(s.skip(4))
    }
}

/// The bytes named by a well-formed base64 string, block by block: a last
/// block ending in `==` names one byte, one ending in `=` names two, and
/// every other block names three.
pub open spec fn spec_b64_decode_blocks(s: Seq<char>) -> Seq<u8>
    decreases s.len(),
{
    if s.len() < 4 {
        Seq::<u8>::empty()
    } else {
        let a = b64_value(s[0]);
        let b = b64_value(s[1]);
        let c = b64_value(s[2]);
        let d = b64_value(s[3]);
        if s.len() == 4 && s[2] == '=' {
            seq![(a * 4 + b / 16) as u8]
        } else if s.len() == 4 && s[3] == '=' {
            seq![(a * 4 + b / 16) as u8, ((b % 16) * 16 + c / 4) as u8]
        } else {
            seq![(a * 4 + b / 16) as u8, ((b % 16) * 16 + c / 4) as u8, ((c % 4) * 64 + d) as u8]
                + spec_b64_decode_blocks(s.skip(4))
        }
    }
}

/// What decoding a base64 string yields: the blocks' bytes when the string
/// is well formed, `InvalidBase64` otherwise.
pub open spec fn spec_b64_decode(s: Seq<char>) -> Result<Seq<u8>, DecodeError> {
    if spec_b64_valid(s) {
        Ok(spec_b64_decode_blocks(s))
    } else {
        Err(DecodeError::InvalidBase64)
    }
}

/// The standard-alphabet character for a value in `0..64`, executably.
fn b64_char_of(v: u8) -> (c: char)
    requires
        v < 64,
    ensures
        c == b64_char(v as int),
        is_b64_char(c),
        b64_value(c) == v as int,
{
    let d: u8 = if v < 26 {
        v + 65
    } else if v < 52 {
        v + 71
    } else if v < 62 {
        v - 4
    } else if v == 62 {
        43
    } else {
        47
    };
    d as char
}

/// The value of one standard-alphabet character, or `None` for any other
/// character.
fn b64_value_of(c: char) -> (r: Option<u8>)
    ensures
        match r {
            Some(v) => is_b64_char(c) && v as int == b64_value(c) && v < 64,
            None => !is_b64_char(c),
        },
{
    let u = c as u32;
    if 65 <= u && u <= 90 {
        Some((u - 65) as u8)
    } else if 97 <= u && u <= 122 {
        Some((u - 71) as u8)
    } else if 48 <= u && u <= 57 {
        Some((u + 4) as u8)
    } else if u == 43 {
        Some(62)
    } else if u == 47 {
        Some(63)
    } else {
        None
    }
}

/// Encodes a byte buffer as standard base64 with `=` padding.
pub fn encode_base64(bytes: &Vec<u8>) -> (r: String)
    ensures
        r@ == spec_b64_encode(bytes@),
{
    let mut r = String::new();
    let n = bytes.len();
    let mut i: usize = 0;
    proof {
        assert(bytes@.skip(0) =~= bytes@);
        assert(r@ + spec_b64_encode(bytes@) =~= spec_b64_encode(bytes@));
    }
    while n - i >= 3
        invariant
            n == bytes@.len(),
            i <= n,
            i % 3 == 0,
            r@ + spec_b64_encode(bytes@.skip(i as int)) == spec_b64_encode(bytes@),
        decreases n - i,
    {
        let x = bytes[i];
        let y = bytes[i + 1];
        let z = bytes[i + 2];
        let c0 = b64_char_of(x / 4);
        let c1 = b64_char_of((x % 4) * 16 + y / 16);
        let c2 = b64_char_of((y % 16) * 4 + z / 64);
        let c3 = b64_char_of(z % 64);
        let ghost r_old = r@;
        r.push(c0);
        r.push(c1);
        r.push(c2);
        r.push(c3);
        proof {
            let rest = bytes@.skip(i as int);
            assert(rest[0] == bytes@[i as int]);
            assert(rest[1] == bytes@[i + 1]);
            assert(rest[2] == bytes@[i + 2]);
            assert(rest.skip(3) =~= bytes@.skip(i + 3));
            assert(r@ =~= r_old + seq![c0, c1, c2, c3]);
            assert(r@ + spec_b64_encode(bytes@.skip(i + 3)) =~= r_old + spec_b64_encode(
                bytes@.skip(i as int),
            ));
        }
        i += 3;
    }
    if n - i == 1 {
        let x = bytes[i];
        let c0 = b64_char_of(x / 4);
        let c1 = b64_char_of((x % 4) * 16);
        let ghost r_old = r@;
        r.push(c0);
        r.push(c1);
        r.push('=');
        r.push('=');
        proof {
            let rest = bytes@.skip(i as int);
            assert(rest[0] == bytes@[i as int]);
            assert(r@ =~= r_old + spec_b64_encode(rest));
        }
    } else if n - i == 2 {
        let x = bytes[i];
        let y = bytes[i + 1];
        let c0 = b64_char_of(x / 4);
        let c1 = b64_char_of((x % 4) * 16 + y / 16);
        let c2 = b64_char_of((y % 16) * 4);
        let ghost r_old = r@;
        r.push(c0);
        r.push(c1);
        r.push(c2);
        r.push('=');
        proof {
            let rest = bytes@.skip(i as int);
            assert(rest[0] == bytes@[i as int]);
            assert(rest[1] == bytes@[i + 1]);
            assert(r@ =~= r_old + spec_b64_encode(rest));
        }
    } else {
        proof {
            assert(bytes@.skip(i as int) =~= Seq::<u8>::empty());
            assert(r@ =~= r@ + spec_b64_encode(bytes@.skip(i as int)));
        }
    }
    r
}

/// Decodes a standard base64 string to a byte buffer; any malformed input
/// fails with `InvalidBase64`.
pub fn decode_base64(s: &str) -> (r: Result<Vec<u8>, DecodeError>)
    ensures
        bytes_result_view(r) == spec_b64_decode(s@),
{
    let n = s.unicode_len();
    if n % 4 != 0 {
        return Err(DecodeError::InvalidBase64);
    }
    let mut out: Vec<u8> = Vec::new();
    let mut i: usize = 0;
    proof {
        assert(s@.skip(0) =~= s@);
        assert(out@ + spec_b64_decode_blocks(s@) =~= spec_b64_decode_blocks(s@));
    }
    while i < n
        invariant
            n == s@.len(),
            n % 4 == 0,
            i % 4 == 0,
            i <= n,
            spec_b64_valid(s@) <==> spec_b64_valid(s@.skip(i as int)),
            out@ + spec_b64_decode_blocks(s@.skip(i as int)) == spec_b64_decode_blocks(s@),
        decreases n - i,
    {
        let ghost rest = s@.skip(i as int);
        proof {
            assert(rest[0] == s@[i as int]);
            assert(rest[1] == s@[i + 1]);
            assert(rest[2] == s@[i + 2]);
            assert(rest[3] == s@[i + 3]);
            assert(rest.skip(4) =~= s@.skip(i + 4));
        }
        let c0 = s.get_char(i);
        let c1 = s.get_char(i + 1);
        let c2 = s.get_char(i + 2);
        let c3 = s.get_char(i + 3);
        let a = match b64_value_of(c0) {
            Some(v) => v,
            None => {
                return Err(DecodeError::InvalidBase64);
            },
        };
        let b = match b64_value_of(c1) {
            Some(v) => v,
            None => {
                return Err(DecodeError::InvalidBase64);
            },
        };
        let ghost out_old = out@;
        if i + 4 == n && c2 == '=' {
            if c3 != '=' {
                return Err(DecodeError::InvalidBase64);
            }
            out.push(a * 4 + b / 16);
            proof {
                assert(out@ =~= out_old + seq![(b64_value(rest[0]) * 4 + b64_value(rest[1]) / 16) as u8]);
                assert(out@ + spec_b64_decode_blocks(s@.skip(i + 4)) =~= out_old
                    + spec_b64_decode_blocks(rest));
            }
        } else if i + 4 == n && c3 == '=' {
            let c = match b64_value_of(c2) {
                Some(v) => v,
                None => {
                    return Err(DecodeError::InvalidBase64);
                },
            };
            out.push(a * 4 + b / 16);
            out.push((b % 16) * 16 + c / 4);
            proof {
                assert(out@ + spec_b64_decode_blocks(s@.skip(i + 4)) =~= out_old
                    + spec_b64_decode_blocks(rest));
            }
        } else {
            let c = match b64_value_of(c2) {
                Some(v) => v,
                None => {
                    return Err(DecodeError::InvalidBase64);
                },
            };
            let d = match b64_value_of(c3) {
                Some(v) => v,
                None => {
                    return Err(DecodeError::InvalidBase64);
                },
            };
            out.push(a * 4 + b / 16);
            out.push((b % 16) * 16 + c / 4);
            out.push((c % 4) * 64 + d);
            proof {
                assert(out@ + spec_b64_decode_blocks(s@.skip(i + 4)) =~= out_old
                    + spec_b64_decode_blocks(rest));
            }
        }
        i += 4;
    }
    proof {
        assert(s@.skip(n as int) =~= Seq::<char>::empty());
        assert(out@ =~= out@ + spec_b64_decode_blocks(s@.skip(n as int)));
        assert(out@ == spec_b64_decode_blocks(s@));
    }
    Ok(out)
}

/// A value in `0..64` survives the trip through its alphabet character,
/// and no alphabet character is the padding character.
proof fn lemma_b64_char_round_trip(v: int)
    requires
        0 <= v < 64,
    ensures
        is_b64_char(b64_char(v)),
        b64_value(b64_char(v)) == v,
        b64_char(v) != '=',
{
    assert('+' as int == 43 && '/' as int == 47 && '=' as int == 61);
}

/// The six-bit groups of one block recombine into the three bytes they
/// came from.
proof fn lemma_b64_block_arith(x: int, y: int, z: int)
    requires
        0 <= x < 256,
        0 <= y < 256,
        0 <= z < 256,
    ensures
        0 <= x / 4 < 64,
        0 <= (x % 4) * 16 + y / 16 < 64,
        0 <= (y % 16) * 4 + z / 64 < 64,
        0 <= z % 64 < 64,
        (x / 4) * 4 + ((x % 4) * 16 + y / 16) / 16 == x,
        (((x % 4) * 16 + y / 16) % 16) * 16 + ((y % 16) * 4 + z / 64) / 4 == y,
        (((y % 16) * 4 + z / 64) % 4) * 64 + (z % 64) == z,
{
    assert(((x % 4) * 16 + y / 16) / 16 == x % 4 && ((x % 4) * 16 + y / 16) % 16 == y / 16) by (nonlinear_arith)
        requires
            0 <= x < 256 && 0 <= y < 256,
    ;
    assert(((y % 16) * 4 + z / 64) / 4 == y % 16 && ((y % 16) * 4 + z / 64) % 4 == z / 64) by (nonlinear_arith)
        requires
            0 <= y < 256 && 0 <= z < 256,
    ;
    assert((x / 4) * 4 + x % 4 == x);
    assert((y / 16) * 16 + y % 16 == y);
    assert((z / 64) * 64 + z % 64 == z);
}

/// Law: decoding undoes base64 encoding.
pub proof fn lemma_b64_round_trip(b: Seq<u8>)
    ensures
        spec_b64_encode(b).len() == 4 * ((b.len() + 2) / 3),
        spec_b64_decode(spec_b64_encode(b)) == Ok::<Seq<u8>, DecodeError>(b),
    decreases b.len(),
{
    let e = spec_b64_encode(b);
    if b.len() == 0 {
        assert(spec_b64_decode_blocks(e) =~= b);
    } else if b.len() == 1 {
        let x = b[0] as int;
        lemma_b64_block_arith(x, 0, 0);
        lemma_b64_char_round_trip(x / 4);
        lemma_b64_char_round_trip((x % 4) * 16);
        assert(spec_b64_valid(e));
        assert(spec_b64_decode_blocks(e) =~= b);
    } else if b.len() == 2 {
        let x = b[0] as int;
        let y = b[1] as int;
        lemma_b64_block_arith(x, y, 0);
        lemma_b64_char_round_trip(x / 4);
        lemma_b64_char_round_trip((x % 4) * 16 + y / 16);
        lemma_b64_char_round_trip((y % 16) * 4);
        assert(spec_b64_valid(e));
        assert(spec_b64_decode_blocks(e) =~= b);
    } else {
        lemma_b64_round_trip(b.skip(3));
        let x = b[0] as int;
        let y = b[1] as int;
        let z = b[2] as int;
        lemma_b64_block_arith(x, y, z);
        lemma_b64_char_round_trip(x / 4);
        lemma_b64_char_round_trip((x % 4) * 16 + y / 16);
        lemma_b64_char_round_trip((y % 16) * 4 + z / 64);
        lemma_b64_char_round_trip(z % 64);
        let rest = spec_b64_encode(b.skip(3));
        assert(e.skip(4) =~= rest);
        assert(e.len() == 4 + rest.len());
        if b.len() == 3 {
            assert(rest.len() == 0);
            assert(spec_b64_valid(e));
        } else {
            assert(rest.len() >= 4);
            assert(spec_b64_valid(rest));
            assert(spec_b64_valid(e));
        }
        assert(e[2] != '=');
        assert(spec_b64_decode_blocks(e) =~= seq![b[0], b[1], b[2]] + spec_b64_decode_blocks(
            rest,
        ));
        assert(seq![b[0], b[1], b[2]] + b.skip(3) =~= b);
    }
}

} // verus!
