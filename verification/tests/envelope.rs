use librcrypt::frame::{open, seal};
use librcrypt::{
    decode_from_base64, decrypt_base64, decrypt_envelope, decrypt_raw, encode_base64, encrypt,
    encrypt_base64, encrypt_raw, encrypt_with, DecryptError, ErrorKind,
};

const KEY: &str = "very secret secret key";
const MESSAGE: &str = "we ride at dawn";

fn kind_of(res: Result<String, DecryptError>) -> ErrorKind {
    res.unwrap_err().kind()
}

#[test]
fn decrypt_inverts_encrypt() {
    for key in ["", "k", KEY, "schlüssel", "鍵"] {
        for message in ["", "a", MESSAGE, "grüße, мир, 世界 🌍", "line one\nline two\n", "\0"] {
            for offset in [0u128, 1, 69, 1 << 68, u128::MAX] {
                let text = encrypt_base64(key, offset, message);
                assert_eq!(decrypt_base64(key, &text).unwrap(), message);
            }
            let text = encrypt(key, message).unwrap();
            assert_eq!(decrypt_base64(key, &text).unwrap(), message);
        }
    }
}

#[test]
fn decrypt_inverts_encrypt_on_a_long_message() {
    let message: String = (0..20_000u32).map(|i| char::from_u32(32 + i % 90).unwrap()).collect();
    let text = encrypt_base64(KEY, 1 << 100, &message);
    assert_eq!(decrypt_base64(KEY, &text).unwrap(), message);
}

#[test]
fn envelope_has_marker_position_and_message() {
    let offset = 0x0102030405060708090a0b0c0d0e0f10u128;
    let text = encrypt_base64(KEY, offset, MESSAGE);
    assert!(text.starts_with("UkNyeXB0"));
    let sealed = base64::decode(&text).unwrap();
    assert_eq!(sealed.len(), 6 + 32 + 2 * MESSAGE.len());
    assert_eq!(&sealed[..6], b"RCrypt");
    assert_eq!(decrypt_raw(KEY, 0, &sealed[6..38]).unwrap(), offset.to_be_bytes().to_vec());
    assert_eq!(decrypt_raw(KEY, offset, &sealed[38..]).unwrap(), MESSAGE.as_bytes().to_vec());
    assert_eq!(&sealed[6..38], &encrypt_raw(KEY, 0, &offset.to_be_bytes())[..]);
    assert_eq!(&sealed[38..], &encrypt_raw(KEY, offset, MESSAGE.as_bytes())[..]);
    assert_eq!(sealed, seal(KEY, offset, MESSAGE.as_bytes()));
    assert_eq!(text, base64::encode(&sealed));
    assert_eq!(open(KEY, &sealed).unwrap(), MESSAGE.as_bytes().to_vec());
    assert_eq!(decrypt_envelope(KEY, &sealed).unwrap(), MESSAGE);
}

#[test]
fn envelope_of_the_empty_message_is_the_header() {
    let text = encrypt_base64(KEY, 3, "");
    let sealed = base64::decode(&text).unwrap();
    assert_eq!(sealed.len(), 38);
    assert_eq!(decrypt_base64(KEY, &text).unwrap(), "");
}

#[test]
fn encrypt_base64_twice_gives_the_same_text() {
    assert_eq!(encrypt_base64(KEY, 42, MESSAGE), encrypt_base64(KEY, 42, MESSAGE));
}

#[test]
fn positions_vary_the_ciphertext() {
    let first = encrypt_base64(KEY, 1, MESSAGE);
    let second = encrypt_base64(KEY, 2, MESSAGE);
    assert_ne!(first, second);
    assert_eq!(decrypt_base64(KEY, &first).unwrap(), MESSAGE);
    assert_eq!(decrypt_base64(KEY, &second).unwrap(), MESSAGE);
}

#[test]
fn random_positions_vary_the_ciphertext() {
    let texts: Vec<String> = (0..20).map(|_| encrypt(KEY, MESSAGE).unwrap()).collect();
    for text in &texts {
        assert_eq!(decrypt_base64(KEY, text).unwrap(), MESSAGE);
    }
    let mut distinct = texts.clone();
    distinct.sort();
    distinct.dedup();
    assert!(distinct.len() > 1);
}

#[test]
fn wrong_keys_are_rejected() {
    let text = encrypt_base64(KEY, 123_456_789, MESSAGE);
    let mut decoded_to_the_message = 0;
    for i in 0..10_000 {
        let wrong = format!("wrong key {i}");
        match decrypt_base64(&wrong, &text) {
            Ok(message) => {
                if message == MESSAGE {
                    decoded_to_the_message += 1;
                }
            }
            Err(e) => assert!(e.kind().may_be_key_mismatch()),
        }
    }
    assert_eq!(decoded_to_the_message, 0);
    assert_eq!(kind_of(decrypt_base64("very secret secret kez", &text)), ErrorKind::Corrupt);
}

#[test]
fn a_flipped_bit_in_the_message_is_corrupt() {
    let sealed = seal(KEY, 99, MESSAGE.as_bytes());
    for at in 38..sealed.len() {
        for bit in 0..8 {
            let mut altered = sealed.clone();
            altered[at] ^= 1 << bit;
            assert_eq!(open(KEY, &altered).unwrap_err().kind(), ErrorKind::Corrupt);
            assert_eq!(kind_of(decrypt_envelope(KEY, &altered)), ErrorKind::Corrupt);
            assert_eq!(kind_of(decrypt_base64(KEY, &base64::encode(&altered))), ErrorKind::Corrupt);
        }
    }
}

#[test]
fn a_flipped_bit_in_the_header_is_noticed() {
    let sealed = seal(KEY, 99, MESSAGE.as_bytes());
    for at in 0..38 {
        for bit in 0..8 {
            let mut altered = sealed.clone();
            altered[at] ^= 1 << bit;
            let expected = if at < 6 { ErrorKind::NoMagic } else { ErrorKind::Corrupt };
            assert_eq!(kind_of(decrypt_envelope(KEY, &altered)), expected);
        }
    }
}

#[test]
fn empty_text_is_too_short() {
    assert!(matches!(decrypt_base64(KEY, ""), Err(DecryptError::TooShort)));
    assert!(matches!(decrypt_envelope(KEY, &[]), Err(DecryptError::TooShort)));
}

#[test]
fn envelopes_below_38_bytes_are_too_short() {
    let sealed = seal(KEY, 5, b"");
    for len in 0..38 {
        assert_eq!(kind_of(decrypt_envelope(KEY, &sealed[..len])), ErrorKind::TooShort);
        assert_eq!(kind_of(decrypt_base64(KEY, &base64::encode(&sealed[..len]))), ErrorKind::TooShort);
    }
    assert_eq!(decrypt_envelope(KEY, &sealed).unwrap(), "");
}

#[test]
fn another_marker_is_no_magic() {
    let mut bytes = b"XXXXXX".to_vec();
    bytes.extend_from_slice(&[0u8; 32]);
    assert!(matches!(decrypt_base64(KEY, &base64::encode(&bytes)), Err(DecryptError::NoMagic)));
    let mut sealed = seal(KEY, 5, MESSAGE.as_bytes());
    sealed[5] = b'T';
    assert!(matches!(decrypt_envelope(KEY, &sealed), Err(DecryptError::NoMagic)));
    let lower = base64::encode(b"rcrypt00000000000000000000000000000000");
    assert!(matches!(decrypt_base64(KEY, &lower), Err(DecryptError::NoMagic)));
}

#[test]
fn an_odd_message_segment_is_a_length_mismatch() {
    let mut sealed = seal(KEY, 5, MESSAGE.as_bytes());
    sealed.push(0);
    assert!(matches!(decrypt_envelope(KEY, &sealed), Err(DecryptError::LengthMismatch)));
    assert!(matches!(
        decrypt_base64(KEY, &base64::encode(&sealed)),
        Err(DecryptError::LengthMismatch)
    ));
    sealed.pop();
    sealed.pop();
    assert!(matches!(decrypt_envelope(KEY, &sealed), Err(DecryptError::LengthMismatch)));
}

#[test]
fn a_corrupt_position_comes_before_the_message_length() {
    let mut sealed = seal(KEY, 5, MESSAGE.as_bytes());
    sealed.push(0);
    sealed[10] ^= 1;
    assert!(matches!(decrypt_envelope(KEY, &sealed), Err(DecryptError::Corrupt)));
}

#[test]
fn text_outside_the_alphabet_is_invalid_encoding() {
    assert!(matches!(decrypt_base64(KEY, "%%%"), Err(DecryptError::Base64Decode(_))));
    assert_eq!(kind_of(decrypt_base64(KEY, "%%%")), ErrorKind::InvalidEncoding);
    assert_eq!(kind_of(decrypt_base64(KEY, "UkNyeXB0 ")), ErrorKind::InvalidEncoding);
    assert_eq!(kind_of(decrypt_base64(KEY, "UkNyeXB")), ErrorKind::InvalidEncoding);
    assert_eq!(kind_of(decode_from_base64(KEY, "%%%")), ErrorKind::InvalidEncoding);
    match decrypt_base64(KEY, "%%%") {
        Err(DecryptError::Base64Decode(cause)) => {
            assert_eq!(cause, base64::decode("%%%").unwrap_err())
        }
        _ => panic!("the text is not base64"),
    }
}

#[test]
fn bytes_that_are_no_text_are_invalid_utf8() {
    let sealed = seal(KEY, 5, &[0xff, 0xfe, 0x80]);
    assert!(matches!(decrypt_envelope(KEY, &sealed), Err(DecryptError::InvalidUTF8(_))));
    assert_eq!(kind_of(decrypt_base64(KEY, &base64::encode(&sealed))), ErrorKind::InvalidUTF8);
    assert_eq!(open(KEY, &sealed).unwrap(), vec![0xff, 0xfe, 0x80]);
    match decrypt_envelope(KEY, &sealed) {
        Err(DecryptError::InvalidUTF8(cause)) => assert_eq!(cause.into_bytes(), vec![0xff, 0xfe, 0x80]),
        _ => panic!("the bytes are not UTF-8"),
    }
    let bare = base64::encode(encrypt_raw(KEY, 0, &[0xc3]));
    assert_eq!(kind_of(decode_from_base64(KEY, &bare)), ErrorKind::InvalidUTF8);
}

#[test]
fn bare_format_is_the_raw_cipher_in_base64() {
    let text = encode_base64(KEY, MESSAGE);
    assert_eq!(text, base64::encode(encrypt_raw(KEY, 0, MESSAGE.as_bytes())));
    assert_eq!(base64::decode(&text).unwrap().len(), 2 * MESSAGE.len());
    assert_eq!(decode_from_base64(KEY, &text).unwrap(), MESSAGE);
    assert_eq!(encode_base64(KEY, ""), "");
    assert_eq!(decode_from_base64(KEY, "").unwrap(), "");
}

#[test]
fn bare_format_reports_its_failures() {
    let text = encode_base64(KEY, MESSAGE);
    assert_eq!(kind_of(decode_from_base64("another key", &text)), ErrorKind::Corrupt);
    let mut raw = encrypt_raw(KEY, 0, MESSAGE.as_bytes());
    raw.pop();
    assert_eq!(kind_of(decode_from_base64(KEY, &base64::encode(&raw))), ErrorKind::LengthMismatch);
    assert_eq!(kind_of(decrypt_base64(KEY, &text)), ErrorKind::TooShort);
}

#[test]
fn random_bytes_spell_the_position() {
    assert_eq!(encrypt_with(KEY, MESSAGE, Some([0; 16])).unwrap(), encrypt_base64(KEY, 0, MESSAGE));
    assert_eq!(
        encrypt_with(KEY, MESSAGE, Some([0xff; 16])).unwrap(),
        encrypt_base64(KEY, u128::MAX, MESSAGE)
    );
    let bytes = [1, 2, 3, 4, 5, 6, 7, 8, 9, 10, 11, 12, 13, 14, 15, 16];
    let text = encrypt_with(KEY, MESSAGE, Some(bytes)).unwrap();
    assert_eq!(text, encrypt_base64(KEY, 0x0102030405060708090a0b0c0d0e0f10, MESSAGE));
    assert_eq!(decrypt_base64(KEY, &text).unwrap(), MESSAGE);
    let sealed = base64::decode(&text).unwrap();
    assert_eq!(decrypt_raw(KEY, 0, &sealed[6..38]).unwrap(), bytes.to_vec());
}

#[test]
fn without_random_bytes_there_is_no_text() {
    assert!(encrypt_with(KEY, MESSAGE, None).is_none());
    assert!(encrypt_with("", "", None).is_none());
    assert!(encrypt_with("", "", Some([7; 16])).is_some());
}
