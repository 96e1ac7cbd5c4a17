use irremocon::infrared_codes::{DecodeError, InfraredCodes};

fn train(samples: &[u16]) -> InfraredCodes {
    let mut codes = InfraredCodes::new();
    for s in samples {
        codes.push(*s);
    }
    codes
}

#[test]
fn hexdump() {
    let x = "840042000E0010000E0010000C0032000E0032000C0012000C0032000E0010000E0010000C0012000E0030000E0010000E0010000E0030000E0010000E0032000C0010000E0032000C0012000A0010000E0032000C0012000C00100010000E000E0010000C0034000C0032000E0032000E0030000E0010000E0030000E0010000E0010000E0010000E0030000E0032000C0012000C0010000E0032000E0010000E000E000E008E02";
    let y = InfraredCodes::from_hexdump(x).unwrap().to_hexdump();
    assert_eq!(x, y);
}

#[test]
fn hexdump_decodes_low_byte_first() {
    let codes = InfraredCodes::from_hexdump("840042008E02").unwrap();
    assert_eq!(codes.to_counts(), &[0x0084, 0x0042, 0x028E]);
}

#[test]
fn encode_exact_text() {
    assert_eq!(train(&[0x1234]).to_hexdump(), "3412");
    assert_eq!(train(&[0x00AB, 0xFFFF, 0]).to_hexdump(), "AB00FFFF0000");
    assert_eq!(train(&[10, 20, 5]).to_hexdump(), "0A0014000500");
}

#[test]
fn encode_empty_train_is_empty_text() {
    assert_eq!(InfraredCodes::new().to_hexdump(), "");
}

#[test]
fn encode_shape_is_four_upper_hex_digits_per_sample() {
    let samples = [0u16, 1, 0x00ff, 0xabcd, 0xffff, 38, 653];
    let text = train(&samples).to_hexdump();
    assert_eq!(text.len(), 4 * samples.len());
    assert!(text.chars().all(|c| c.is_ascii_digit() || ('A'..='F').contains(&c)));
}

#[test]
fn round_trip_concrete() {
    let samples = [0u16, 1, 0x1234, 0x8000, 0xffff, 26, 654];
    let text = train(&samples).to_hexdump();
    let back = InfraredCodes::from_hexdump(&text).unwrap();
    assert_eq!(back.to_counts(), &samples);
}

#[test]
fn decode_accepts_lower_case() {
    let codes = InfraredCodes::from_hexdump("ab00ffff").unwrap();
    assert_eq!(codes.to_counts(), &[0x00AB, 0xFFFF]);
}

#[test]
fn decode_rejects_bad_length() {
    assert_eq!(InfraredCodes::from_hexdump("123").err(), Some(DecodeError::MalformedGroupLength));
    assert_eq!(InfraredCodes::from_hexdump("12345").err(), Some(DecodeError::MalformedGroupLength));
    assert_eq!(InfraredCodes::from_hexdump("G0000").err(), Some(DecodeError::MalformedGroupLength));
}

#[test]
fn decode_rejects_empty_text() {
    assert_eq!(InfraredCodes::from_hexdump("").err(), Some(DecodeError::MalformedGroupLength));
}

#[test]
fn decode_rejects_invalid_hex_digit() {
    assert_eq!(InfraredCodes::from_hexdump("12G4").err(), Some(DecodeError::InvalidHexDigit));
    assert_eq!(InfraredCodes::from_hexdump("0000+123").err(), Some(DecodeError::InvalidHexDigit));
    assert_eq!(InfraredCodes::from_hexdump("00 0").err(), Some(DecodeError::InvalidHexDigit));
}

#[test]
fn micro_seconds_scale_linearly() {
    let codes = train(&[0, 1, 10, 65535]);
    assert_eq!(codes.to_micro_seconds(), vec![0u32, 26, 260, 1_703_910]);
}

#[test]
fn clear_and_push() {
    let mut codes = train(&[1, 2, 3]);
    codes.clear();
    assert_eq!(codes.to_counts(), &[] as &[u16]);
    codes.push(7);
    codes.push(9);
    assert_eq!(codes.to_counts(), &[7, 9]);
}
