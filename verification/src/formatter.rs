//! The byte codec: pure conversions between a byte buffer and its wire
//! representation, chosen by a [`Config`].

use vstd::prelude::*;

use crate::base64::lemma_b64_round_trip;
use crate::base64::decode_base64;
use crate::base64::encode_base64;
use crate::base64::spec_b64_decode;
use crate::base64::spec_b64_encode;
use crate::config::ByteMode;
use crate::config::Config;
use crate::hex::bytes_result_view;
use crate::hex::decode_hex;
use crate::hex::encode_hex;
use crate::hex::lemma_hex_prefix_leniency;
use crate::hex::lemma_hex_round_trip;
use crate::hex::spec_hex_decode;
use crate::hex::spec_hex_encode;
use crate::hex::strip_hex_prefix;

verus! {

/// Why a wire representation failed to decode as a byte buffer.
#[derive(Clone, Copy, PartialEq, Eq, Structural, Debug)]
pub enum DecodeError {
    /// Hex mode: the digit count after the optional prefix is odd.
    OddLength,
    /// Hex mode: a character is not a hex digit.
    InvalidHexDigit,
    /// Base64 mode: bad length, bad padding, or a character outside the
    /// standard alphabet.
    InvalidBase64,
    /// Array mode: an integer element lies outside `0..=255`.
    ValueOutOfRange,
    /// Array mode: an element is not a whole number.
    NotAnInteger,
    /// The representation's shape (string vs. array) does not match the
    /// configured mode.
    WrongShape,
}

/// One element of a JSON array representation: either a whole number
/// (any JSON integer fits in `i128`) or some other value.
#[derive(Clone, Copy, PartialEq, Eq, Structural, Debug)]
pub enum ArrayElem {
    Int(i128),
    NonInt,
}

/// A wire representation of a byte buffer: a JSON string (hex or base64)
/// or a JSON array of elements.
#[derive(Clone, PartialEq, Eq, Debug)]
pub enum Encoded {
    Str(String),
    Arr(Vec<ArrayElem>),
}

/// The mathematical shape of an [`Encoded`] value.
pub enum EncodedView {
    Str(Seq<char>),
    Arr(Seq<ArrayElem>),
}

impl View for Encoded {
    type V = EncodedView;

    open spec fn view(&self) -> EncodedView {
        match self {
            Encoded::Str(s) => EncodedView::Str(s@),
            Encoded::Arr(v) => EncodedView::Arr(v@),
        }
    }
}

/// True of an array element that names a byte: a whole number in `0..=255`.
pub open spec fn elem_is_byte(e: ArrayElem) -> bool {
    match e {
        ArrayElem::Int(v) => 0 <= v <= 255,
        ArrayElem::NonInt => false,
    }
}

/// The array representation of a byte buffer: its bytes, each as a whole
/// number.
pub open spec fn spec_array_encode(b: Seq<u8>) -> Seq<ArrayElem> {
    Seq::new(b.len(), |i: int| ArrayElem::Int(b[i] as i128))
}

/// What decoding an array representation yields, element by element from
/// the left: a value outside `0..=255` fails with `ValueOutOfRange`, an
/// element that is not a whole number fails with `NotAnInteger`, and
/// otherwise every element names one byte.
pub open spec fn spec_array_decode(elems: Seq<ArrayElem>) -> Result<Seq<u8>, DecodeError>
    decreases elems.len(),
{
    if elems.len() == 0 {
        Ok(Seq::<u8>::empty())
    } else {
        match elems[0] {
            ArrayElem::NonInt => Err(DecodeError::NotAnInteger),
            ArrayElem::Int(v) => if !(0 <= v <= 255) {
                Err(DecodeError::ValueOutOfRange)
            } else {
                match spec_array_decode(elems.skip(1)) {
                    Ok(rest) => Ok(seq![v as u8] + rest),
                    Err(e) => Err(e),
                }
            },
        }
    }
}

/// Prepends already-decoded bytes to the outcome of the remainder.
pub open spec fn prepend_bytes(pre: Seq<u8>, r: Result<Seq<u8>, DecodeError>) -> Result<
    Seq<u8>,
    DecodeError,
> {
    match r {
        Ok(rest) => Ok(pre + rest),
        Err(e) => Err(e),
    }
}

/// Encodes a byte buffer as an array of whole numbers, one per byte.
pub fn encode_array(bytes: &Vec<u8>) -> (r: Vec<ArrayElem>)
    ensures
        r@ == spec_array_encode(bytes@),
{
    let n = bytes.len();
    let mut r: Vec<ArrayElem> = Vec::new();
    let mut i: usize = 0;
    while i < n
        invariant
            n == bytes@.len(),
            i <= n,
            r@ =~= spec_array_encode(bytes@.take(i as int)),
        decreases n - i,
    {
        r.push(ArrayElem::Int(bytes[i] as i128));
        proof {
            assert(r@ =~= spec_array_encode(bytes@.take(i + 1)));
        }
        i += 1;
    }
    proof {
        assert(bytes@.take(n as int) =~= bytes@);
    }
    r
}

/// Decodes an array representation to a byte buffer; the first offending
/// element, scanning from the left, decides the error.
pub fn decode_array(elems: &Vec<ArrayElem>) -> (r: Result<Vec<u8>, DecodeError>)
    ensures
        bytes_result_view(r) == spec_array_decode(elems@),
{
    let n = elems.len();
    let mut out: Vec<u8> = Vec::new();
    let mut i: usize = 0;
    proof {
        assert(elems@.skip(0) =~= elems@);
        if spec_array_decode(elems@) is Ok {
            assert(Seq::<u8>::empty() + spec_array_decode(elems@)->Ok_0 =~= spec_array_decode(
                elems@,
            )->Ok_0);
        }
    }
    while i < n
        invariant
            n == elems@.len(),
            i <= n,
            prepend_bytes(out@, spec_array_decode(elems@.skip(i as int))) == spec_array_decode(
                elems@,
            ),
        decreases n - i,
    {
        let ghost rest = elems@.skip(i as int);
        proof {
            assert(rest[0] == elems@[i as int]);
            assert(rest.skip(1) =~= elems@.skip(i + 1));
        }
        let ghost out_old = out@;
        match elems[i] {
            ArrayElem::NonInt => {
                return Err(DecodeError::NotAnInteger);
            },
            ArrayElem::Int(v) => {
                if v < 0 || v > 255 {
                    return Err(DecodeError::ValueOutOfRange);
                }
                out.push(v as u8);
                proof {
                    let tail = spec_array_decode(elems@.skip(i + 1));
                    if tail is Ok {
                        assert(out@ + tail->Ok_0 =~= out_old + (seq![v as u8] + tail->Ok_0));
                    }
                }
            },
        }
        i += 1;
    }
    proof {
        assert(elems@.skip(n as int) =~= Seq::<ArrayElem>::empty());
        assert(out@ + Seq::<u8>::empty() =~= out@);
    }
    Ok(out)
}

/// What encoding a byte buffer yields under a configuration: the bytes as
/// whole numbers in `Array` mode, lowercase hex digits (prefixed exactly
/// when the option is on) in `Hex` mode, padded standard base64 in
/// `Base64` mode.
pub open spec fn spec_encode(b: Seq<u8>, c: Config) -> EncodedView {
    match c.byte_mode {
        ByteMode::Array => EncodedView::Arr(spec_array_encode(b)),
        ByteMode::Hex => EncodedView::Str(spec_hex_encode(b, c.hex_prefix_enabled)),
        ByteMode::Base64 => EncodedView::Str(spec_b64_encode(b)),
    }
}

/// What decoding a representation yields under a configuration.  A string
/// under `Array` mode, or an array under `Hex` or `Base64` mode, fails
/// with `WrongShape`; otherwise the mode's own decoder decides.
pub open spec fn spec_decode(e: EncodedView, c: Config) -> Result<Seq<u8>, DecodeError> {
    match e {
        EncodedView::Str(s) => match c.byte_mode {
            ByteMode::Hex => spec_hex_decode(s),
            ByteMode::Base64 => spec_b64_decode(s),
            ByteMode::Array => Err(DecodeError::WrongShape),
        },
        EncodedView::Arr(elems) => match c.byte_mode {
            ByteMode::Array => spec_array_decode(elems),
            ByteMode::Hex => Err(DecodeError::WrongShape),
            ByteMode::Base64 => Err(DecodeError::WrongShape),
        },
    }
}

/// Encodes a byte buffer into the wire representation the configuration
/// chooses.
pub fn encode(bytes: &Vec<u8>, config: &Config) -> (r: Encoded)
    ensures
        r@ == spec_encode(bytes@, *config),
{
    match config.byte_mode {
        ByteMode::Array => Encoded::Arr(encode_array(bytes)),
        ByteMode::Hex => Encoded::Str(encode_hex(bytes, config.hex_prefix_enabled)),
        ByteMode::Base64 => Encoded::Str(encode_base64(bytes)),
    }
}

/// Decodes a wire representation under the configuration's mode; the
/// result is exactly what [`spec_decode`] names, error cases included.
pub fn decode(enc: &Encoded, config: &Config) -> (r: Result<Vec<u8>, DecodeError>)
    ensures
        bytes_result_view(r) == spec_decode(enc@, *config),
{
    match enc {
        Encoded::Str(s) => match config.byte_mode {
            ByteMode::Hex => decode_hex(s.as_str()),
            ByteMode::Base64 => decode_base64(s.as_str()),
            ByteMode::Array => Err(DecodeError::WrongShape),
        },
        Encoded::Arr(elems) => match config.byte_mode {
            ByteMode::Array => decode_array(elems),
            ByteMode::Hex => Err(DecodeError::WrongShape),
            ByteMode::Base64 => Err(DecodeError::WrongShape),
        },
    }
}

/// Law: decoding undoes array encoding.
pub proof fn lemma_array_round_trip(b: Seq<u8>)
    ensures
        spec_array_decode(spec_array_encode(b)) == Ok::<Seq<u8>, DecodeError>(b),
    decreases b.len(),
{
    let e = spec_array_encode(b);
    if b.len() == 0 {
        assert(b =~= Seq::<u8>::empty());
    } else {
        lemma_array_round_trip(b.skip(1));
        assert(e.skip(1) =~= spec_array_encode(b.skip(1)));
        assert(seq![b[0]] + b.skip(1) =~= b);
    }
}

/// Law: for every byte buffer and every configuration, decoding the
/// encoded representation under the same configuration gives the buffer
/// back.
pub proof fn lemma_round_trip(b: Seq<u8>, c: Config)
    ensures
        spec_decode(spec_encode(b, c), c) == Ok::<Seq<u8>, DecodeError>(b),
{
    match c.byte_mode {
        ByteMode::Array => lemma_array_round_trip(b),
        ByteMode::Hex => lemma_hex_round_trip(b, c.hex_prefix_enabled),
        ByteMode::Base64 => lemma_b64_round_trip(b),
    }
}

/// Law: decoding never looks at the prefix option; two configurations
/// that agree on the mode decode every representation alike.
pub proof fn lemma_decode_ignores_prefix_option(e: EncodedView, c1: Config, c2: Config)
    requires
        c1.byte_mode == c2.byte_mode,
    ensures
        spec_decode(e, c1) == spec_decode(e, c2),
{
}

/// Law: under `Hex` mode a string decodes the same with or without a
/// leading `0x` or `0X`, for any string that does not already carry one,
/// whatever the prefix option says.
pub proof fn lemma_decode_hex_prefix_leniency(s: Seq<char>, c1: Config, c2: Config)
    requires
        c1.byte_mode == ByteMode::Hex,
        c2.byte_mode == ByteMode::Hex,
        strip_hex_prefix(s) == s,
    ensures
        spec_decode(EncodedView::Str(seq!['0', 'x'] + s), c1) == spec_decode(
            EncodedView::Str(s),
            c2,
        ),
        spec_decode(EncodedView::Str(seq!['0', 'X'] + s), c1) == spec_decode(
            EncodedView::Str(s),
            c2,
        ),
{
    lemma_hex_prefix_leniency(s);
}

} // verus!
