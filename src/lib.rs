//! Text codecs that write each character's code point as space-separated
//! hexadecimal or binary numerals, and read such numerals back.
pub mod radix;
pub mod text;
pub mod codec;
pub mod transform;
pub mod driver;
