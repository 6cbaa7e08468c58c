use wirecode::ser::{EncodeError, Serializer};

/// Folds the magnitude bits of an unsigned encoding back together,
/// most significant group first: 7 bits from every byte.
fn unsigned_magnitude(bytes: &[u8]) -> u128 {
    let mut value: u128 = 0;
    for byte in bytes {
        value = value * 0x80 + u128::from(byte & 0x7F);
    }
    value
}

/// Folds the magnitude bits of a signed encoding back together: 6 bits
/// from the leading byte, 7 bits from every further byte.
fn signed_magnitude(bytes: &[u8]) -> u128 {
    let mut value: u128 = u128::from(bytes[0] & 0x3F);
    for byte in &bytes[1..] {
        value = value * 0x80 + u128::from(byte & 0x7F);
    }
    value
}

#[test]
fn unsigned_continuation_and_magnitude_bits() {
    for value in [0u64, 1, 0x7F, 0x80, 9001, 40000, 4_000_000_000, u64::MAX] {
        let mut serializer = Serializer::new();
        assert!(serializer.serialize_u64(value).is_ok());
        let bytes = serializer.into_bytes();
        assert!(!bytes.is_empty());
        for byte in &bytes[..bytes.len() - 1] {
            assert_eq!(0x80, byte & 0x80);
        }
        assert_eq!(0, bytes[bytes.len() - 1] & 0x80);
        assert_eq!(u128::from(value), unsigned_magnitude(&bytes));
    }
}

#[test]
fn unsigned_zero_is_one_zero_byte() {
    let mut serializer = Serializer::new();
    assert!(serializer.serialize_u64(0).is_ok());
    assert_eq!(vec![0x00u8], serializer.into_bytes());
}

#[test]
fn signed_sign_and_magnitude_bits() {
    for value in [0i64, 1, -1, 42, -42, 0x3F, 0x40, -9001, i64::MAX, i64::MIN] {
        let mut serializer = Serializer::new();
        assert!(serializer.serialize_i64(value).is_ok());
        let bytes = serializer.into_bytes();
        assert!(!bytes.is_empty());
        assert_eq!(value < 0, bytes[0] & 0x40 == 0x40);
        for byte in &bytes[..bytes.len() - 1] {
            assert_eq!(0x80, byte & 0x80);
        }
        assert_eq!(0, bytes[bytes.len() - 1] & 0x80);
        assert_eq!(value.unsigned_abs() as u128, signed_magnitude(&bytes));
    }
}

#[test]
fn signed_zero_is_one_zero_byte() {
    let mut serializer = Serializer::new();
    assert!(serializer.serialize_i64(0).is_ok());
    assert_eq!(vec![0x00u8], serializer.into_bytes());
}

#[test]
fn signed_most_negative_value() {
    let mut serializer = Serializer::new();
    assert!(serializer.serialize_i64(i64::MIN).is_ok());
    assert_eq!(
        vec![0xC1u8, 0x80, 0x80, 0x80, 0x80, 0x80, 0x80, 0x80, 0x80, 0x00],
        serializer.into_bytes()
    );
}

#[test]
fn unsigned_largest_value() {
    let mut serializer = Serializer::new();
    assert!(serializer.serialize_u64(u64::MAX).is_ok());
    assert_eq!(
        vec![0x81u8, 0xFF, 0xFF, 0xFF, 0xFF, 0xFF, 0xFF, 0xFF, 0xFF, 0x7F],
        serializer.into_bytes()
    );
}

#[test]
fn str_prefix_is_unsigned_encoding_of_byte_count() {
    let text: String = "a".repeat(200);
    let mut serializer = Serializer::new();
    assert!(serializer.serialize_str(&text).is_ok());
    let bytes = serializer.into_bytes();

    let mut prefix = Serializer::new();
    prefix.serialize_usize(text.len());
    let prefix = prefix.into_bytes();

    assert_eq!(prefix, bytes[..prefix.len()]);
    assert_eq!(text.as_bytes(), &bytes[prefix.len()..]);
}

#[test]
fn str_prefix_counts_bytes_not_characters() {
    let text = "é€";
    assert_eq!(2, text.chars().count());
    let mut serializer = Serializer::new();
    assert!(serializer.serialize_str(text).is_ok());
    let bytes = serializer.into_bytes();
    assert_eq!(5, usize::from(bytes[0]));
    assert_eq!(text.as_bytes(), &bytes[1..]);
}

#[test]
fn optional_markers() {
    let mut absent = Serializer::new();
    assert!(absent.serialize_none().is_ok());
    assert_eq!(vec![0x00u8], absent.into_bytes());

    let mut present = Serializer::new();
    assert!(present.serialize_some().is_ok() && present.serialize_u16(9001).is_ok());
    let bytes = present.into_bytes();
    assert_eq!(0x01, bytes[0]);

    let mut inner = Serializer::new();
    assert!(inner.serialize_u16(9001).is_ok());
    assert_eq!(inner.into_bytes(), bytes[1..]);
}

#[test]
fn sequence_without_length_is_refused() {
    let mut serializer = Serializer::new();
    assert_eq!(Err(EncodeError::LengthRequired), serializer.serialize_seq(None));
    assert_eq!(Vec::<u8>::new(), serializer.into_bytes());
}

#[test]
fn map_without_length_is_refused() {
    let mut serializer = Serializer::new();
    serializer.serialize_u8(7).unwrap();
    assert_eq!(Err(EncodeError::LengthRequired), serializer.serialize_map(None));
    assert_eq!(vec![7u8], serializer.into_bytes());
}

#[test]
fn sequence_prefix_is_declared_count() {
    let mut serializer = Serializer::new();
    assert!(serializer.serialize_seq(Some(300)).is_ok());
    let bytes = serializer.into_bytes();

    let mut count = Serializer::new();
    count.serialize_usize(300);
    assert_eq!(count.into_bytes(), bytes);
}

#[test]
fn encoding_is_deterministic() {
    let encode = || {
        let mut serializer = Serializer::new();
        assert!(
            serializer.serialize_map(Some(2)).is_ok()
                && serializer.serialize_str("key").is_ok()
                && serializer.serialize_i64(-9001).is_ok()
                && serializer.serialize_str("other").is_ok()
                && serializer.serialize_some().is_ok()
                && serializer.serialize_char('💩').is_ok()
        );
        serializer.into_bytes()
    };
    assert_eq!(encode(), encode());
}
