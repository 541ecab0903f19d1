//! Errors of encoding, decoding and converting values and messages.
use vstd::prelude::*;

use crate::message::{signature_of, Message};
use crate::packstream::DecodeError;
use crate::value::BoltValue;

verus! {

/// A value could not be encoded.
#[derive(Debug, PartialEq)]
pub enum SerializationError {
    /// A string, list or map holds more items than a header can announce.
    ValueTooLarge(usize),
}

/// A value or message was not of the kind asked for.
#[derive(Debug, PartialEq)]
pub enum ConversionError {
    FromValue(BoltValue),
    FromMessage(Message),
}

/// Bytes could not be decoded.
#[derive(Debug, PartialEq)]
pub enum DeserializationError {
    /// The bytes ended before the value or message did.
    Panicked,
    InvalidMarkerByte(u8),
    InvalidSignatureByte(u8),
    InvalidSize { size: usize, signature: u8 },
    /// The bytes of a string are not UTF-8; it holds them.
    InvalidUTF8(Vec<u8>),
    ConversionError(ConversionError),
}

/// Any error of this library.
#[derive(Debug, PartialEq)]
pub enum Error {
    ConversionError(ConversionError),
    SerializationError(SerializationError),
    DeserializationError(DeserializationError),
}

impl View for DeserializationError {
    type V = DecodeError;

    open spec fn view(&self) -> DecodeError {
        match self {
            DeserializationError::Panicked => DecodeError::Truncated,
            DeserializationError::InvalidMarkerByte(m) => DecodeError::InvalidMarkerByte(*m),
            DeserializationError::InvalidSignatureByte(s) => DecodeError::InvalidSignatureByte(*s),
            DeserializationError::InvalidSize { size, signature } => DecodeError::InvalidSize(
                *size,
                *signature,
            ),
            DeserializationError::InvalidUTF8(bytes) => DecodeError::InvalidUtf8(bytes@),
            DeserializationError::ConversionError(ConversionError::FromValue(v)) =>
                DecodeError::ConversionFromValue(v@),
            DeserializationError::ConversionError(ConversionError::FromMessage(m)) =>
                DecodeError::ConversionFromMessage(signature_of(m@)),
        }
    }
}

} // verus!
