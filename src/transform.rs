//! The four codecs, one type each, the closed set of them, and the factory
//! that picks one by its direction and kind.
use vstd::prelude::*;

use crate::codec::{
    binary_encoded, decodable, decode_ascii_nary, decodes_to, encode_ascii_nary, encoded,
    hex_encoded, DecodeError,
};
use crate::text::same_text;

verus! {

/// Writes each character as its code point in lowercase hexadecimal, at
/// least two digits, separated by single spaces.
#[derive(Debug, Clone, Copy, PartialEq, Eq)]
pub struct AsciiHexEncoder;

/// Reads whitespace-separated hexadecimal code points back into text.
#[derive(Debug, Clone, Copy, PartialEq, Eq)]
pub struct AsciiHexDecoder;

/// Writes each character as its code point in binary, at least eight
/// digits, separated by single spaces.
#[derive(Debug, Clone, Copy, PartialEq, Eq)]
pub struct AsciiBinaryEncoder;

/// Reads whitespace-separated binary code points back into text.
#[derive(Debug, Clone, Copy, PartialEq, Eq)]
pub struct AsciiBinaryDecoder;

impl AsciiHexEncoder {
    pub fn transform(&self, text: &str) -> (r: String)
        ensures
            r@ == hex_encoded(text@),
    {
        encode_ascii_nary(text, 16, 2)
    }
}

impl AsciiHexDecoder {
    pub fn transform(&self, text: &str) -> (r: Result<String, DecodeError>)
        ensures
            r is Ok <==> decodable(text@, 16),
            r matches Ok(s) ==> decodes_to(text@, 16, s@),
    {
        decode_ascii_nary(text, 16)
    }
}

impl AsciiBinaryEncoder {
    pub fn transform(&self, text: &str) -> (r: String)
        ensures
            r@ == binary_encoded(text@),
    {
        encode_ascii_nary(text, 2, 8)
    }
}

impl AsciiBinaryDecoder {
    pub fn transform(&self, text: &str) -> (r: Result<String, DecodeError>)
        ensures
            r is Ok <==> decodable(text@, 2),
            r matches Ok(s) ==> decodes_to(text@, 2, s@),
    {
        decode_ascii_nary(text, 2)
    }
}

/// One of the four codecs.
#[derive(Debug, Clone, Copy, PartialEq, Eq)]
pub enum Codec {
    HexEncoder,
    HexDecoder,
    BinaryEncoder,
    BinaryDecoder,
}

impl Codec {
    pub open spec fn encodes(self) -> bool {
        self is HexEncoder || self is BinaryEncoder
    }

    /// The base its numerals are written in.
    pub open spec fn base(self) -> nat {
        if self is HexEncoder || self is HexDecoder {
            16
        } else {
            2
        }
    }

    /// The fewest digits an encoder writes for one character.
    pub open spec fn width(self) -> nat {
        if self is HexEncoder || self is HexDecoder {
            2
        } else {
            8
        }
    }

    /// Encodes or decodes `text`; only a decoder can fail.
    pub fn transform(&self, text: &str) -> (r: Result<String, DecodeError>)
        ensures
            self.encodes() ==> (r matches Ok(s) && s@ == encoded(text@, self.base(), self.width())),
            !self.encodes() ==> (r is Ok <==> decodable(text@, self.base())),
            !self.encodes() ==> (r matches Ok(s) ==> decodes_to(text@, self.base(), s@)),
    {
        match self {
            Codec::HexEncoder => Ok(AsciiHexEncoder.transform(text)),
            Codec::HexDecoder => AsciiHexDecoder.transform(text),
            Codec::BinaryEncoder => Ok(AsciiBinaryEncoder.transform(text)),
            Codec::BinaryDecoder => AsciiBinaryDecoder.transform(text),
        }
    }
}

/// A direction and kind that name no codec.
#[derive(Debug, Clone, Copy, PartialEq, Eq)]
pub enum CreateTransformErr {
    UnsupportedTransform,
}

/// The codec that a direction and a kind name, matched exactly.
pub open spec fn codec_named(direction: Seq<char>, kind: Seq<char>) -> Option<Codec> {
    if direction == "encode"@ && kind == "asciihex"@ {
        Some(Codec::HexEncoder)
    } else if direction == "decode"@ && kind == "asciihex"@ {
        Some(Codec::HexDecoder)
    } else if direction == "encode"@ && kind == "asciibin"@ {
        Some(Codec::BinaryEncoder)
    } else if direction == "decode"@ && kind == "asciibin"@ {
        Some(Codec::BinaryDecoder)
    } else {
        None
    }
}

/// Picks the codec for `direction` (`encode` or `decode`) and `kind`
/// (`asciihex` or `asciibin`).
pub fn create_transform(direction: &str, kind: &str) -> (r: Result<Codec, CreateTransformErr>)
    ensures
        r == (match codec_named(direction@, kind@) {
            Some(c) => Ok(c),
            None => Err(CreateTransformErr::UnsupportedTransform),
        }),
{
    let encode = same_text(direction, "encode");
    let decode = same_text(direction, "decode");
    let hex = same_text(kind, "asciihex");
    let bin = same_text(kind, "asciibin");
    if encode && hex {
        Ok(Codec::HexEncoder)
    } else if decode && hex {
        Ok(Codec::HexDecoder)
    } else if encode && bin {
        Ok(Codec::BinaryEncoder)
    } else if decode && bin {
        Ok(Codec::BinaryDecoder)
    } else {
        Err(CreateTransformErr::UnsupportedTransform)
    }
}

} // verus!
