use base32::{decode, encode, DecodeError, ALPHABET};

#[test]
fn encode_tests() {
    assert!(encode("".as_bytes()).eq_ignore_ascii_case(""));
    assert!(encode("f".as_bytes()).eq_ignore_ascii_case("MY"));
    assert!(encode("foo".as_bytes()).eq_ignore_ascii_case("MZXw6"));
    assert!(encode("foob".as_bytes()).eq_ignore_ascii_case("MZXW6YQ"));
    assert!(encode("fooba".as_bytes()).eq_ignore_ascii_case("MZXW6YTB"));
    assert!(encode("foobar".as_bytes()).eq_ignore_ascii_case("MZXW6YTBOI"));
}

#[test]
fn decode_tests() {
    let d = String::from_utf8(decode("".as_bytes()).unwrap());
    assert_eq!("", d.ok().unwrap());
    let d = String::from_utf8(decode("MY".as_bytes()).unwrap());
    assert_eq!("f", d.ok().unwrap());
    let d = String::from_utf8(decode("MZXW6".as_bytes()).unwrap());
    assert_eq!("foo", d.ok().unwrap());
    let d = String::from_utf8(decode("MZxw6YQ".as_bytes()).unwrap());
    assert_eq!("foob", d.ok().unwrap());
    let d = String::from_utf8(decode("MZXW6YTB".as_bytes()).unwrap());
    assert_eq!("fooba", d.ok().unwrap());
    let d = String::from_utf8(decode("MZXW6YTBOI".as_bytes()).unwrap());
    assert_eq!("foobar", d.ok().unwrap());
}

#[test]
fn alphabet_is_lowercase_letters_then_digits() {
    assert_eq!(ALPHABET, "abcdefghijklmnopqrstuvwxyz234567");
    assert_eq!(ALPHABET.len(), 32);
}

#[test]
fn encode_writes_lowercase_without_padding() {
    assert_eq!(encode(b""), "");
    assert_eq!(encode(b"f"), "my");
    assert_eq!(encode(b"fo"), "mzxq");
    assert_eq!(encode(b"foo"), "mzxw6");
    assert_eq!(encode(b"foob"), "mzxw6yq");
    assert_eq!(encode(b"fooba"), "mzxw6ytb");
    assert_eq!(encode(b"foobar"), "mzxw6ytboi");
}

#[test]
fn encode_uses_every_symbol() {
    // The 5-bit values 0 to 31 in turn, packed into 20 bytes.
    let bytes: [u8; 20] = [
        0x00, 0x44, 0x32, 0x14, 0xc7, 0x42, 0x54, 0xb6, 0x35, 0xcf, 0x84, 0x65, 0x3a, 0x56, 0xd7,
        0xc6, 0x75, 0xbe, 0x77, 0xdf,
    ];
    assert_eq!(encode(&bytes), ALPHABET);
    assert_eq!(decode(ALPHABET.as_bytes()), Ok(bytes.to_vec()));
    assert_eq!(decode(ALPHABET.to_uppercase().as_bytes()), Ok(bytes.to_vec()));
}

#[test]
fn encode_extreme_bytes() {
    assert_eq!(encode(&[0x00]), "aa");
    assert_eq!(encode(&[0xff]), "74");
    assert_eq!(encode(&[0xff, 0xff]), "777q");
    assert_eq!(encode(&[0xff, 0xff, 0xff]), "77776");
    assert_eq!(encode(&[0xff, 0xff, 0xff, 0xff]), "777777y");
    assert_eq!(encode(&[0xff, 0xff, 0xff, 0xff, 0xff]), "77777777");
    assert_eq!(encode(&[0x00, 0x00, 0x00, 0x00, 0x00, 0x80]), "aaaaaaaaqa");
}

#[test]
fn empty_input_gives_empty_output() {
    assert_eq!(encode(&[]), "");
    assert_eq!(decode(&[]), Ok(Vec::new()));
}

#[test]
fn decode_literal_vectors_in_lowercase() {
    assert_eq!(decode(b"my"), Ok(b"f".to_vec()));
    assert_eq!(decode(b"mzxq"), Ok(b"fo".to_vec()));
    assert_eq!(decode(b"mzxw6"), Ok(b"foo".to_vec()));
    assert_eq!(decode(b"mzxw6yq"), Ok(b"foob".to_vec()));
    assert_eq!(decode(b"mzxw6ytb"), Ok(b"fooba".to_vec()));
    assert_eq!(decode(b"mzxw6ytboi"), Ok(b"foobar".to_vec()));
}

#[test]
fn decode_rejects_characters_outside_the_alphabet() {
    assert_eq!(
        decode(b"0"),
        Err(DecodeError::InvalidCharacter { position: 0, character: b'0' })
    );
    assert_eq!(
        decode(b"1"),
        Err(DecodeError::InvalidCharacter { position: 0, character: b'1' })
    );
    assert_eq!(
        decode(b"8"),
        Err(DecodeError::InvalidCharacter { position: 0, character: b'8' })
    );
    assert_eq!(
        decode(b"9"),
        Err(DecodeError::InvalidCharacter { position: 0, character: b'9' })
    );
    assert_eq!(
        decode(b"="),
        Err(DecodeError::InvalidCharacter { position: 0, character: b'=' })
    );
}

#[test]
fn decode_rejects_padding() {
    assert_eq!(
        decode(b"my======"),
        Err(DecodeError::InvalidCharacter { position: 2, character: b'=' })
    );
}

#[test]
fn decode_reports_the_first_invalid_character() {
    assert_eq!(
        decode(b"mzx1w0"),
        Err(DecodeError::InvalidCharacter { position: 3, character: b'1' })
    );
    assert_eq!(
        decode(b"mzxw6ytb!"),
        Err(DecodeError::InvalidCharacter { position: 8, character: b'!' })
    );
    assert_eq!(
        decode(b"mzxw6yt "),
        Err(DecodeError::InvalidCharacter { position: 7, character: b' ' })
    );
}

#[test]
fn decode_rejects_the_neighbours_of_the_alphabet() {
    // The bytes just outside each of the three accepted ranges.
    for c in [b'@', b'[', b'`', b'{', b'1', b'8', 0x00, 0x7f, 0x80, 0xff] {
        assert_eq!(
            decode(&[b'a', c]),
            Err(DecodeError::InvalidCharacter { position: 1, character: c })
        );
    }
    for c in [b'A', b'Z', b'a', b'z', b'2', b'7'] {
        assert!(decode(&[b'a', c]).is_ok());
    }
}

#[test]
fn decode_reads_a_final_block_of_any_length() {
    assert_eq!(decode(b"7"), Ok(vec![]));
    assert_eq!(decode(b"77"), Ok(vec![0xff]));
    assert_eq!(decode(b"777"), Ok(vec![0xff, 0xfe]));
    assert_eq!(decode(b"7777"), Ok(vec![0xff, 0xff]));
    assert_eq!(decode(b"77777"), Ok(vec![0xff, 0xff, 0xff]));
    assert_eq!(decode(b"777777"), Ok(vec![0xff, 0xff, 0xff, 0xfc]));
    assert_eq!(decode(b"7777777"), Ok(vec![0xff, 0xff, 0xff, 0xff]));
    assert_eq!(decode(b"77777777"), Ok(vec![0xff, 0xff, 0xff, 0xff, 0xff]));
    assert_eq!(decode(b"777777777"), Ok(vec![0xff, 0xff, 0xff, 0xff, 0xff]));
    assert_eq!(
        decode(b"7777777777"),
        Ok(vec![0xff, 0xff, 0xff, 0xff, 0xff, 0xff])
    );
}

#[test]
fn decode_drops_the_bits_that_fill_no_byte() {
    // "mz" holds ten bits; the last two are not part of the byte.
    assert_eq!(decode(b"my"), Ok(vec![b'f']));
    assert_eq!(decode(b"mz"), Ok(vec![b'f']));
    assert_eq!(decode(b"m7"), Ok(vec![b'g']));
}

#[test]
fn decode_error_can_be_copied_and_compared() {
    let e = DecodeError::InvalidCharacter { position: 4, character: b'?' };
    let f = e;
    assert_eq!(e, f);
    assert_ne!(e, DecodeError::InvalidCharacter { position: 5, character: b'?' });
    assert_ne!(e, DecodeError::InvalidCharacter { position: 4, character: b'!' });
    assert!(format!("{:?}", e).contains("InvalidCharacter"));
}
