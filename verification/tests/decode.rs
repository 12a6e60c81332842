use keysearch::base58::{b58_digit, base58_decode, base58_decode_scalar, Base58Error};

const ALPHABET: &[u8] = b"123456789ABCDEFGHJKLMNPQRSTUVWXYZabcdefghijkmnopqrstuvwxyz";

fn decode_hex_string(s: &[u8]) -> String {
    String::from_utf8(base58_decode(s).expect("decodes")).expect("ascii")
}

#[test]
fn decode_reference_vector_one() {
    // '2' is the second alphabet character: the number 1.
    assert_eq!(
        decode_hex_string(b"2"),
        "0000000000000000000000000000000000000000000000000000000000000001"
    );
}

#[test]
fn decode_reference_vector_two_digits() {
    // "21" is 1 * 58 + 0 = 58 = 0x3a.
    assert_eq!(
        decode_hex_string(b"21"),
        "000000000000000000000000000000000000000000000000000000000000003a"
    );
}

#[test]
fn decode_reference_vector_empty() {
    assert_eq!(
        decode_hex_string(b""),
        "0000000000000000000000000000000000000000000000000000000000000000"
    );
}

#[test]
fn decode_reference_vector_candidate() {
    // A full-length candidate, checked against an independently computed value.
    assert_eq!(
        decode_hex_string(b"11111111111111111111111223456789ABCD"),
        "00000000000000000000000000000000000000000000004ff71332573614dd3a"
    );
}

#[test]
fn decode_reference_vector_all_twos() {
    assert_eq!(
        decode_hex_string(&[b'2'; 36]),
        "000000000000213af285bf6644110d0251928a0a73d43c74c67afd0047dc11f7"
    );
}

#[test]
fn decode_scalar_matches_hex_form() {
    let scalar = base58_decode_scalar(b"11111111111111111111111223456789ABCD").expect("decodes");
    assert_eq!(scalar.len(), 32);
    assert_eq!(
        hex::encode(&scalar),
        "00000000000000000000000000000000000000000000004ff71332573614dd3a"
    );
}

#[test]
fn decoder_is_not_inverse_of_standard_encoding() {
    // The decoder reads the whole string as one big number with no
    // leading-zero convention, while the standard encoding spells every
    // leading zero byte of the 32-byte scalar as a `1`.  Re-encoding the
    // scalar therefore does not in general give the input string back.
    let input = b"2";
    let scalar = base58_decode_scalar(input).expect("decodes");
    let reencoded = bitcoin::base58::encode(&scalar);
    assert_ne!(reencoded.as_bytes(), &input[..]);
    // The 31 leading zero bytes come back as 31 extra characters.
    let mut padded = vec![b'1'; 31];
    padded.push(b'2');
    assert_eq!(reencoded.as_bytes(), &padded[..]);
}

#[test]
fn decode_overflow_on_long_maximal_input() {
    // 44 'z' characters denote 58^44 - 1, which outgrows 32 bytes.
    assert_eq!(base58_decode(&[b'z'; 44]), Err(Base58Error::Overflow));
}

#[test]
fn decode_no_overflow_at_candidate_length() {
    // Even the maximal candidate-length string still fits in 32 bytes.
    assert!(base58_decode(&[b'z'; 36]).is_ok());
    // 43 'z' characters still fit; the value is checked against an
    // independently computed reference.
    assert_eq!(
        decode_hex_string(&[b'z'; 43]),
        "0edbafda67ca37188cf28263571f03b9716879e4acc9c514ab6727ffffffffff"
    );
}

#[test]
fn decode_rejects_out_of_alphabet_characters() {
    for c in [b'0', b'I', b'O', b'l', b'!', b' ', b'+', 0u8, 200u8] {
        assert_eq!(base58_decode(&[b'2', c]), Err(Base58Error::InvalidCharacter));
    }
}

#[test]
fn decode_overflow_wins_when_it_comes_first() {
    // The characters are consumed left to right: 44 maximal digits overflow
    // before the bad character is reached.
    let mut v = vec![b'z'; 44];
    v.push(b'0');
    assert_eq!(base58_decode(&v), Err(Base58Error::Overflow));
    // With the bad character first, it is reported instead.
    let mut w = vec![b'0'];
    w.extend_from_slice(&[b'z'; 44]);
    assert_eq!(base58_decode(&w), Err(Base58Error::InvalidCharacter));
}

#[test]
fn digit_indices_match_the_alphabet() {
    for (i, &c) in ALPHABET.iter().enumerate() {
        assert_eq!(b58_digit(c), Some(i as u8));
    }
    for c in 0u8..=255u8 {
        if !ALPHABET.contains(&c) {
            assert_eq!(b58_digit(c), None);
        }
    }
}
