//! The WebSocket handshake key, and base64 by way of the `base64` crate.

use crate::random::random_bytes;
use base64::engine::general_purpose::STANDARD;
use base64::{DecodeError, Engine};
use vstd::prelude::*;

verus! {

/// How many random bytes a handshake key is made of.
pub const KEY_BYTES: usize = 16;

/// Why a text is not base64, as the `base64` crate reports it.
#[derive(Debug, Clone, Copy, PartialEq, Eq, Structural)]
pub enum Base64Error {
    /// A byte that is no symbol of the alphabet, or padding out of place.
    InvalidByte { offset: usize, byte: u8 },
    /// A number of symbols that no encoding has.
    InvalidLength { length: usize },
    /// A last symbol with bits set that belong to no byte.
    InvalidLastSymbol { offset: usize, byte: u8 },
    /// Padding that is missing or not canonical.
    InvalidPadding,
}

/// What the standard base64 alphabet with padding makes of `data`: the
/// result of `STANDARD.encode` of the `base64` crate.
pub uninterp spec fn base64_text(data: Seq<u8>) -> Seq<char>;

/// What the standard base64 decoder makes of `text`: the bytes where
/// `STANDARD.decode` of the `base64` crate accepts it, and the error that it
/// reports where not.
pub uninterp spec fn base64_outcome(text: Seq<char>) -> Result<Seq<u8>, Base64Error>;

/// How long the padded encoding of `len` bytes is: four symbols for every
/// three bytes or part of three.
pub open spec fn base64_len(len: nat) -> nat {
    (len + 2) / 3 * 4
}

/// Calls `Engine::encode` on `STANDARD` of the `base64` crate. The result is
/// a function of the input alone and is named, not spelled out; its length
/// is what the crate's `encoded_len` computes with padding. The crate panics
/// where that length is above `usize::MAX`, which `requires` leaves out.
#[verifier::external_body]
fn standard_encode(data: &[u8]) -> (text: String)
    requires
        base64_len(data@.len()) <= usize::MAX,
    ensures
        text@ == base64_text(data@),
        text@.len() == base64_len(data@.len()),
{
    STANDARD.encode(data)
}

/// What a decoder result is as a mathematical value.
pub open spec fn decoded_view(decoded: Result<Vec<u8>, Base64Error>) -> Result<
    Seq<u8>,
    Base64Error,
> {
    match decoded {
        Ok(bytes) => Ok(bytes@),
        Err(error) => Err(error),
    }
}

/// Calls `Engine::decode` on `STANDARD` of the `base64` crate and moves the
/// fields of its error over, variant by variant. Whether it accepts, what
/// bytes it gives and which error it reports is a function of the input
/// alone and is named, not spelled out.
#[verifier::external_body]
fn standard_decode(text: &str) -> (decoded: Result<Vec<u8>, Base64Error>)
    ensures
        decoded_view(decoded) == base64_outcome(text@),
{
    match STANDARD.decode(text) {
        Ok(bytes) => Ok(bytes),
        Err(DecodeError::InvalidByte(offset, byte)) => Err(Base64Error::InvalidByte { offset, byte }),
        Err(DecodeError::InvalidLength(length)) => Err(Base64Error::InvalidLength { length }),
        Err(DecodeError::InvalidLastSymbol(offset, byte)) => Err(
            Base64Error::InvalidLastSymbol { offset, byte },
        ),
        Err(DecodeError::InvalidPadding) => Err(Base64Error::InvalidPadding),
    }
}

/// Whether `text` is the handshake key made of `bytes`.
pub open spec fn is_websocket_key(text: Seq<char>, bytes: Seq<u8>) -> bool {
    bytes.len() == KEY_BYTES && text == base64_text(bytes)
}

/// The handshake key for the given key material.
pub fn websocket_key_of(material: &[u8]) -> (key: Option<String>)
    ensures
        key is Some <==> material@.len() == KEY_BYTES,
        key matches Some(text) ==> is_websocket_key(text@, material@) && text@.len() == 24,
{
    if material.len() == KEY_BYTES {
        Some(standard_encode(material))
    } else {
        None
    }
}

/// A fresh handshake key: 16 random bytes in base64, 24 characters.
pub fn generate_websocket_key() -> (key: String)
    ensures
        exists|bytes: Seq<u8>| #[trigger] is_websocket_key(key@, bytes),
        key@.len() == 24,
{
    let material = random_bytes(KEY_BYTES);
    let key = standard_encode(material.as_slice());
    assert(is_websocket_key(key@, material@));
    key
}

/// `data` in base64 with padding, or `None` where the encoding would be
/// longer than a `String` can be.
pub fn try_base64_encode(data: &[u8]) -> (text: Option<String>)
    ensures
        text is Some <==> base64_len(data@.len()) <= usize::MAX,
        text matches Some(encoded) ==> encoded@ == base64_text(data@) && encoded@.len()
            == base64_len(data@.len()),
{
    let groups: usize = if data.len() % 3 == 0 {
        data.len() / 3
    } else {
        data.len() / 3 + 1
    };
    assert(groups == (data@.len() + 2) / 3);
    if groups > usize::MAX / 4 {
        None
    } else {
        Some(standard_encode(data))
    }
}

/// `data` in base64 with padding.
pub fn base64_encode(data: &[u8]) -> (text: String)
    requires
        base64_len(data@.len()) <= usize::MAX,
    ensures
        text@ == base64_text(data@),
        text@.len() == base64_len(data@.len()),
{
    standard_encode(data)
}

/// The bytes that `text` stands for in base64 with padding, or why it
/// stands for none.
pub fn base64_decode(text: &str) -> (decoded: Result<Vec<u8>, Base64Error>)
    ensures
        decoded_view(decoded) == base64_outcome(text@),
{
    standard_decode(text)
}

} // verus!
