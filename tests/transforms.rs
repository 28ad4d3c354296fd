use recruiter_crypto::codec::{decode_ascii_nary, encode_ascii_nary, DecodeError};
use recruiter_crypto::driver::{codec_from_args, UsageError};
use recruiter_crypto::transform::{
    create_transform, AsciiBinaryDecoder, AsciiBinaryEncoder, AsciiHexDecoder, AsciiHexEncoder,
    Codec, CreateTransformErr,
};

#[test]
fn can_decode_asciihex() {
    assert_eq!(
        "Rust is awesome!",
        create_transform("decode", "asciihex")
            .unwrap()
            .transform("52 75 73 74 20 69 73 20 61 77 65 73 6f 6d 65 21")
            .unwrap()
    );
}

#[test]
fn can_encode_asciihex() {
    assert_eq!(
        "52 75 73 74 20 69 73 20 61 77 65 73 6f 6d 65 21",
        create_transform("encode", "asciihex")
            .unwrap()
            .transform("Rust is awesome!")
            .unwrap()
    );
}

#[test]
fn can_encode_asciibin() {
    assert_eq!(
        "01010010 01110101 01110011 01110100 00100000 01101001 01110011 00100000 01100001 01110111 01100101 01110011 01101111 01101101 01100101 00100001",
        create_transform("encode", "asciibin").unwrap()
            .transform("Rust is awesome!")
            .unwrap()
    );
}

#[test]
fn can_decode_asciibin() {
    assert_eq!(
        "Rust is awesome!",
        create_transform("decode", "asciibin").unwrap()
            .transform("01010010 01110101 01110011 01110100 00100000 01101001 01110011 00100000 01100001 01110111 01100101 01110011 01101111 01101101 01100101 00100001")
            .unwrap()
    );
}

#[test]
fn encoders_leave_empty_text_empty() {
    assert_eq!(AsciiHexEncoder.transform(""), "");
    assert_eq!(AsciiBinaryEncoder.transform(""), "");
}

#[test]
fn hex_encoder_writes_two_digits_per_character() {
    assert_eq!(AsciiHexEncoder.transform("A"), "41");
    assert_eq!(AsciiHexEncoder.transform("AB"), "41 42");
}

#[test]
fn binary_encoder_writes_eight_digits() {
    assert_eq!(AsciiBinaryEncoder.transform("A"), "01000001");
}

#[test]
fn hex_decoder_reads_rust() {
    assert_eq!(AsciiHexDecoder.transform("52 75 73 74"), Ok(String::from("Rust")));
}

#[test]
fn binary_decoder_reads_rust() {
    assert_eq!(
        AsciiBinaryDecoder.transform("01010010 01110101 01110011 01110100"),
        Ok(String::from("Rust"))
    );
}

#[test]
fn factory_accepts_exactly_four_pairs() {
    assert_eq!(create_transform("encode", "asciihex"), Ok(Codec::HexEncoder));
    assert_eq!(create_transform("decode", "asciihex"), Ok(Codec::HexDecoder));
    assert_eq!(create_transform("encode", "asciibin"), Ok(Codec::BinaryEncoder));
    assert_eq!(create_transform("decode", "asciibin"), Ok(Codec::BinaryDecoder));
    assert_eq!(
        create_transform("encode", "rot13"),
        Err(CreateTransformErr::UnsupportedTransform)
    );
    assert_eq!(
        create_transform("frobnicate", "asciihex"),
        Err(CreateTransformErr::UnsupportedTransform)
    );
    assert_eq!(
        create_transform("asciihex", "encode"),
        Err(CreateTransformErr::UnsupportedTransform)
    );
    assert_eq!(
        create_transform("Encode", "asciihex"),
        Err(CreateTransformErr::UnsupportedTransform)
    );
}

#[test]
fn printable_ascii_round_trips() {
    let mut all = String::new();
    for b in 0x20u8..=0x7e {
        all.push(b as char);
    }
    let hex = AsciiHexEncoder.transform(&all);
    assert_eq!(AsciiHexDecoder.transform(&hex), Ok(all.clone()));
    let bin = AsciiBinaryEncoder.transform(&all);
    assert_eq!(AsciiBinaryDecoder.transform(&bin), Ok(all.clone()));
}

#[test]
fn wide_code_points_are_not_truncated() {
    assert_eq!(AsciiHexEncoder.transform("\u{20ac}"), "20ac");
    assert_eq!(AsciiBinaryEncoder.transform("\u{20ac}"), "10000010101100");
    assert_eq!(AsciiHexEncoder.transform("\u{10ffff}\0"), "10ffff 00");
    assert_eq!(AsciiHexDecoder.transform("20ac"), Ok(String::from("\u{20ac}")));
}

#[test]
fn decoders_skip_whitespace_runs() {
    assert_eq!(AsciiHexDecoder.transform(""), Ok(String::new()));
    assert_eq!(AsciiHexDecoder.transform(" \t\n "), Ok(String::new()));
    assert_eq!(AsciiBinaryDecoder.transform("   "), Ok(String::new()));
    assert_eq!(AsciiHexDecoder.transform("  41\t\t42\n"), Ok(String::from("AB")));
}

#[test]
fn hex_digits_of_either_case_and_a_plus_sign() {
    assert_eq!(AsciiHexDecoder.transform("4A 4a +41"), Ok(String::from("JJA")));
    assert_eq!(AsciiHexDecoder.transform("0000041"), Ok(String::from("A")));
}

#[test]
fn invalid_tokens_are_rejected() {
    assert_eq!(AsciiHexDecoder.transform("4g"), Err(DecodeError::InvalidEncoding));
    assert_eq!(AsciiHexDecoder.transform("41 +"), Err(DecodeError::InvalidEncoding));
    assert_eq!(AsciiHexDecoder.transform("-41"), Err(DecodeError::InvalidEncoding));
    assert_eq!(AsciiBinaryDecoder.transform("012"), Err(DecodeError::InvalidEncoding));
}

#[test]
fn values_that_are_not_scalars_are_rejected() {
    assert_eq!(AsciiHexDecoder.transform("d800"), Err(DecodeError::InvalidEncoding));
    assert_eq!(AsciiHexDecoder.transform("110000"), Err(DecodeError::InvalidEncoding));
    assert_eq!(
        AsciiHexDecoder.transform("ffffffffffffffff"),
        Err(DecodeError::InvalidEncoding)
    );
    assert_eq!(AsciiHexDecoder.transform("10ffff"), Ok(String::from("\u{10ffff}")));
}

#[test]
fn nary_functions_take_any_base() {
    assert_eq!(encode_ascii_nary("A", 8, 3), "101");
    assert_eq!(decode_ascii_nary("101", 8), Ok(String::from("A")));
    assert_eq!(decode_ascii_nary("1T", 36), Ok(String::from("A")));
}

#[test]
fn codec_dispatches_to_its_variant() {
    assert_eq!(Codec::HexEncoder.transform("Hi"), Ok(String::from("48 69")));
    assert_eq!(Codec::HexDecoder.transform("48 69"), Ok(String::from("Hi")));
    assert_eq!(
        Codec::BinaryEncoder.transform("Hi"),
        Ok(String::from("01001000 01101001"))
    );
    assert_eq!(
        Codec::BinaryDecoder.transform("01001000 01101001"),
        Ok(String::from("Hi"))
    );
    assert_eq!(Codec::BinaryDecoder.transform("2"), Err(DecodeError::InvalidEncoding));
}

fn args(words: &[&str]) -> Vec<String> {
    words.iter().map(|w| String::from(*w)).collect()
}

#[test]
fn wrong_argument_counts_are_usage_errors() {
    assert_eq!(codec_from_args(&args(&["prog"])), Err(UsageError::WrongArgumentCount));
    assert_eq!(
        codec_from_args(&args(&["prog", "encode"])),
        Err(UsageError::WrongArgumentCount)
    );
    assert_eq!(
        codec_from_args(&args(&["prog", "encode", "asciihex", "extra"])),
        Err(UsageError::WrongArgumentCount)
    );
    assert_eq!(codec_from_args(&args(&[])), Err(UsageError::WrongArgumentCount));
}

#[test]
fn arguments_pick_the_codec() {
    assert_eq!(
        codec_from_args(&args(&["prog", "decode", "asciibin"])),
        Ok(Codec::BinaryDecoder)
    );
    assert_eq!(
        codec_from_args(&args(&["prog", "encode", "rot13"])),
        Err(UsageError::UnsupportedTransform)
    );
}
