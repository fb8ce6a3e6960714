//! Decoding the hex text that the disassembler is given into raw bytes.

use vstd::prelude::*;
use vstd::utf8::encode_utf8;
use crate::text::{remove_char, trim, trimmed, without_char};

verus! {

/// Why hex text could not be decoded.
#[derive(Clone, Copy, Debug, PartialEq, Eq, Structural)]
pub enum HexDecodeError {
    /// The number of hex digits is odd.
    InvalidInputLength,
    /// The output buffer is shorter than half the input.
    InvalidOutputLength,
    /// A character is not a hex digit.
    InvalidInput,
}

/// The value of a hex digit (either case).
pub open spec fn hex_digit(b: u8) -> Option<u8> {
    if 0x30 <= b <= 0x39 {
        Some((b - 0x30) as u8)
    } else if 0x61 <= b <= 0x66 {
        Some((b - 0x61 + 10) as u8)
    } else if 0x41 <= b <= 0x46 {
        Some((b - 0x41 + 10) as u8)
    } else {
        None
    }
}

/// The outcome of decoding the hex digits `input` into a buffer of
/// `out_len` bytes: odd length, then a too short buffer, then a non-digit
/// are refused; otherwise byte `k` is digit `2k` times 16 plus digit `2k+1`.
pub open spec fn hex2bin_spec(input: Seq<u8>, out_len: int) -> Result<Seq<u8>, HexDecodeError> {
    if input.len() % 2 != 0 {
        Err(HexDecodeError::InvalidInputLength)
    } else if input.len() / 2 > out_len {
        Err(HexDecodeError::InvalidOutputLength)
    } else if exists|i: int| 0 <= i < input.len() && #[trigger] hex_digit(input[i]) is None {
        Err(HexDecodeError::InvalidInput)
    } else {
        Ok(
            Seq::new(
                (input.len() / 2) as nat,
                |k: int|
                    (hex_digit(input[2 * k]).unwrap() * 16 + hex_digit(input[2 * k + 1]).unwrap()) as u8,
            ),
        )
    }
}

/// `binascii::hex2bin`, decoding `input` into a fresh buffer of `out_len`
/// bytes. Claimed, as its source shows: an odd input length gives
/// `InvalidInputLength`; else an `out_len` below half the input length gives
/// `InvalidOutputLength`; else any byte that is not an ASCII hex digit gives
/// `InvalidInput`; else the result is the decoded bytes, one per digit pair,
/// high nibble first.
#[verifier::external_body]
fn hex2bin(input: &[u8], out_len: usize) -> (r: Result<Vec<u8>, HexDecodeError>)
    ensures
        match r {
            Ok(v) => hex2bin_spec(input@, out_len as int) == Ok::<Seq<u8>, HexDecodeError>(v@),
            Err(e) => hex2bin_spec(input@, out_len as int) == Err::<Seq<u8>, HexDecodeError>(e),
        },
{
    let mut output = vec![0u8; out_len];
    match binascii::hex2bin(input, &mut output) {
        Ok(bin) => Ok(bin.to_vec()),
        Err(binascii::ConvertError::InvalidInputLength) => Err(HexDecodeError::InvalidInputLength),
        Err(binascii::ConvertError::InvalidOutputLength) => Err(HexDecodeError::InvalidOutputLength),
        Err(binascii::ConvertError::InvalidInput) => Err(HexDecodeError::InvalidInput),
    }
}

/// The hex digits of a hex file: the text trimmed, its spaces and line
/// breaks removed.
pub open spec fn hex_digits_of(text: Seq<char>) -> Seq<char> {
    without_char(without_char(trimmed(text), ' '), '\n')
}

/// What a hex file decodes to: the UTF-8 bytes of its digits decoded as hex,
/// into a buffer as long as those bytes.
pub open spec fn hex_file_decoded(text: Seq<char>) -> Result<Seq<u8>, HexDecodeError> {
    let bytes = encode_utf8(hex_digits_of(text));
    hex2bin_spec(bytes, bytes.len() as int)
}

/// Decodes the content of a hex file (see `hex_file_decoded`).
pub fn hex_text_to_bin(file_data: &str) -> (r: Result<Vec<u8>, HexDecodeError>)
    ensures
        match r {
            Ok(v) => hex_file_decoded(file_data@) == Ok::<Seq<u8>, HexDecodeError>(v@),
            Err(e) => hex_file_decoded(file_data@) == Err::<Seq<u8>, HexDecodeError>(e),
        },
{
    let no_spaces = remove_char(trim(file_data), ' ');
    let digits = remove_char(no_spaces.as_str(), '\n');
    let input = digits.as_str().as_bytes();
    hex2bin(input, input.len())
}

/// Decoding a hex file never runs short of output room, and a decoded file
/// holds one byte per two digits.
pub proof fn lemma_hex_file_decoded(text: Seq<char>)
    ensures
        hex_file_decoded(text) != Err::<Seq<u8>, HexDecodeError>(HexDecodeError::InvalidOutputLength),
        hex_file_decoded(text) matches Ok(v) ==> 2 * v.len() == encode_utf8(hex_digits_of(text)).len(),
{
}

} // verus!
