//! Reading single CBOR data items out of a byte buffer.
//!
//! The item readers here are the trusted boundary to the `minicbor` decoder.
//! Each one decodes exactly one item head (or one text string) that starts at a
//! given offset and reports the offset just behind it. What the decoder makes
//! of given bytes is not restated here: it is given a name, and the readers
//! promise only that they return what that name stands for.

use vstd::prelude::*;

verus! {

/// The ways in which a chunk can be malformed.
#[derive(Debug, Clone, Copy, PartialEq, Eq)]
pub enum DecodeFault {
    /// An item of another kind than the format asks for, or an array of the
    /// wrong or of no declared length.
    Structure,
    /// The buffer ended in the middle of an item.
    Truncated,
    /// A text that is not UTF-8, or a number outside the range of its field.
    Encoding,
}

/// Why a chunk could not be decoded, and where.
#[derive(Debug, Clone, Copy, PartialEq, Eq)]
pub struct DecodeError {
    /// What is wrong.
    pub kind: DecodeFault,
    /// The offset in the chunk of the item that is wrong: where the item
    /// starts that could not be read, or whose value cannot be taken.
    pub offset: usize,
}

/// What `minicbor::Decoder::array` yields at offset `pos` of `bytes`: the
/// declared length (`None` for an array of indefinite length) and the offset
/// behind the array head, or the kind of the decoder's error.
pub uninterp spec fn array_header_at(bytes: Seq<u8>, pos: usize) -> Result<(Option<u64>, usize), DecodeFault>;

/// What `minicbor::Decoder::u32` yields at offset `pos` of `bytes`, with the
/// offset behind the number, or the kind of the decoder's error.
pub uninterp spec fn u32_at(bytes: Seq<u8>, pos: usize) -> Result<(u32, usize), DecodeFault>;

/// What `minicbor::Decoder::i32` yields at offset `pos` of `bytes`, with the
/// offset behind the number, or the kind of the decoder's error.
pub uninterp spec fn i32_at(bytes: Seq<u8>, pos: usize) -> Result<(i32, usize), DecodeFault>;

/// What `minicbor::Decoder::str` yields at offset `pos` of `bytes`, with the
/// offset behind the text, or the kind of the decoder's error.
pub uninterp spec fn text_at(bytes: Seq<u8>, pos: usize) -> Result<(Seq<char>, usize), DecodeFault>;

/// The head of a definite-length array at `pos`: its declared length and the
/// offset of its first element. An array of indefinite length is a fault of
/// structure.
pub open spec fn definite_array_at(bytes: Seq<u8>, pos: usize) -> Result<(u64, usize), DecodeError> {
    match array_header_at(bytes, pos) {
        Ok((Some(len), next)) => Ok((len, next)),
        Ok((None, _)) => Err(DecodeError { kind: DecodeFault::Structure, offset: pos }),
        Err(kind) => Err(DecodeError { kind, offset: pos }),
    }
}

/// The unsigned number at `pos` and the offset behind it.
pub open spec fn number_at(bytes: Seq<u8>, pos: usize) -> Result<(u32, usize), DecodeError> {
    match u32_at(bytes, pos) {
        Ok(read) => Ok(read),
        Err(kind) => Err(DecodeError { kind, offset: pos }),
    }
}

/// The signed number at `pos` and the offset behind it.
pub open spec fn signed_at(bytes: Seq<u8>, pos: usize) -> Result<(i32, usize), DecodeError> {
    match i32_at(bytes, pos) {
        Ok(read) => Ok(read),
        Err(kind) => Err(DecodeError { kind, offset: pos }),
    }
}

/// The text at `pos` and the offset behind it.
pub open spec fn string_at(bytes: Seq<u8>, pos: usize) -> Result<(Seq<char>, usize), DecodeError> {
    match text_at(bytes, pos) {
        Ok(read) => Ok(read),
        Err(kind) => Err(DecodeError { kind, offset: pos }),
    }
}

/// Calls `minicbor::Decoder::array` on a decoder over `bytes` placed at `pos`.
/// Trusted: the result is the one named by [`array_header_at`]; the decoder's
/// error is reported as `Truncated` where it is an end of input, as
/// `Structure` where it is a type mismatch, and as `Encoding` otherwise.
#[verifier::external_body]
fn read_array_header(bytes: &[u8], pos: usize) -> (r: Result<(Option<u64>, usize), DecodeFault>)
    ensures
        r == array_header_at(bytes@, pos),
{
    let mut decoder = minicbor::Decoder::new(bytes);
    decoder.set_position(pos);
    match decoder.array() {
        Ok(len) => Ok((len, decoder.position())),
        Err(e) if e.is_end_of_input() => Err(DecodeFault::Truncated),
        Err(e) if e.is_type_mismatch() => Err(DecodeFault::Structure),
        Err(_) => Err(DecodeFault::Encoding),
    }
}

/// Calls `minicbor::Decoder::u32` on a decoder over `bytes` placed at `pos`.
/// Trusted: the result is the one named by [`u32_at`], with the decoder's
/// error reported as in [`read_array_header`].
#[verifier::external_body]
fn read_u32(bytes: &[u8], pos: usize) -> (r: Result<(u32, usize), DecodeFault>)
    ensures
        r == u32_at(bytes@, pos),
{
    let mut decoder = minicbor::Decoder::new(bytes);
    decoder.set_position(pos);
    match decoder.u32() {
        Ok(n) => Ok((n, decoder.position())),
        Err(e) if e.is_end_of_input() => Err(DecodeFault::Truncated),
        Err(e) if e.is_type_mismatch() => Err(DecodeFault::Structure),
        Err(_) => Err(DecodeFault::Encoding),
    }
}

/// Calls `minicbor::Decoder::i32` on a decoder over `bytes` placed at `pos`.
/// Trusted: the result is the one named by [`i32_at`], with the decoder's
/// error reported as in [`read_array_header`].
#[verifier::external_body]
fn read_i32(bytes: &[u8], pos: usize) -> (r: Result<(i32, usize), DecodeFault>)
    ensures
        r == i32_at(bytes@, pos),
{
    let mut decoder = minicbor::Decoder::new(bytes);
    decoder.set_position(pos);
    match decoder.i32() {
        Ok(n) => Ok((n, decoder.position())),
        Err(e) if e.is_end_of_input() => Err(DecodeFault::Truncated),
        Err(e) if e.is_type_mismatch() => Err(DecodeFault::Structure),
        Err(_) => Err(DecodeFault::Encoding),
    }
}

/// Calls `minicbor::Decoder::str` on a decoder over `bytes` placed at `pos`
/// and copies the text. Trusted: text and offset are the ones named by
/// [`text_at`], with the decoder's error reported as in
/// [`read_array_header`].
#[verifier::external_body]
fn read_text(bytes: &[u8], pos: usize) -> (r: Result<(String, usize), DecodeFault>)
    ensures
        match r {
            Ok((text, next)) => text_at(bytes@, pos) == Ok::<(Seq<char>, usize), DecodeFault>((text@, next)),
            Err(e) => text_at(bytes@, pos) == Err::<(Seq<char>, usize), DecodeFault>(e),
        },
{
    let mut decoder = minicbor::Decoder::new(bytes);
    decoder.set_position(pos);
    match decoder.str() {
        Ok(text) => Ok((text.to_owned(), decoder.position())),
        Err(e) if e.is_end_of_input() => Err(DecodeFault::Truncated),
        Err(e) if e.is_type_mismatch() => Err(DecodeFault::Structure),
        Err(_) => Err(DecodeFault::Encoding),
    }
}

/// Reads the head of an array of definite length.
pub(crate) fn read_definite_array(bytes: &[u8], pos: usize) -> (r: Result<(u64, usize), DecodeError>)
    ensures
        r == definite_array_at(bytes@, pos),
{
    match read_array_header(bytes, pos) {
        Ok((Some(len), next)) => Ok((len, next)),
        Ok((None, _)) => Err(DecodeError { kind: DecodeFault::Structure, offset: pos }),
        Err(kind) => Err(DecodeError { kind, offset: pos }),
    }
}

/// Reads an unsigned number.
pub(crate) fn read_number(bytes: &[u8], pos: usize) -> (r: Result<(u32, usize), DecodeError>)
    ensures
        r == number_at(bytes@, pos),
{
    match read_u32(bytes, pos) {
        Ok(read) => Ok(read),
        Err(kind) => Err(DecodeError { kind, offset: pos }),
    }
}

/// Reads a signed number.
pub(crate) fn read_signed(bytes: &[u8], pos: usize) -> (r: Result<(i32, usize), DecodeError>)
    ensures
        r == signed_at(bytes@, pos),
{
    match read_i32(bytes, pos) {
        Ok(read) => Ok(read),
        Err(kind) => Err(DecodeError { kind, offset: pos }),
    }
}

/// Reads a text.
pub(crate) fn read_string(bytes: &[u8], pos: usize) -> (r: Result<(String, usize), DecodeError>)
    ensures
        match r {
            Ok((text, next)) => string_at(bytes@, pos) == Ok::<(Seq<char>, usize), DecodeError>((text@, next)),
            Err(e) => string_at(bytes@, pos) == Err::<(Seq<char>, usize), DecodeError>(e),
        },
{
    match read_text(bytes, pos) {
        Ok(read) => Ok(read),
        Err(kind) => Err(DecodeError { kind, offset: pos }),
    }
}

} // verus!
