use bson::Bson;
use bson::DecodeError;
use bson::Document;
use bson::EncodeError;
use bson::decode;
use bson::encode;
use bson::encode_then_decode;
use bson::decoder::declared_length;

#[test]
fn empty_document_encodes_to_five_bytes() {
    let bytes = encode(&Document::new()).unwrap();
    assert_eq!(bytes, vec![0x05, 0x00, 0x00, 0x00, 0x00]);
}

#[test]
fn string_field_encodes_exactly() {
    let mut d = Document::new();
    d.insert("x".to_string(), Bson::String("hi".to_string()));
    let bytes = encode(&d).unwrap();
    assert_eq!(
        bytes,
        vec![
            0x0f, 0x00, 0x00, 0x00, // total length: 15
            0x02, // string tag
            b'x', 0x00, // key
            0x03, 0x00, 0x00, 0x00, // value byte length + 1
            b'h', b'i', 0x00, // the text and its terminator
            0x00, // document terminator
        ]
    );
}

#[test]
fn decode_of_empty_document_bytes_yields_empty_document() {
    let d = decode(&[0x05, 0x00, 0x00, 0x00, 0x00]).unwrap();
    assert_eq!(d.len(), 0);
    assert!(d.get("x").is_none());
    assert!(d.get("").is_none());
}

#[test]
fn array_round_trips_and_is_keyed_by_positions() {
    let mut d = Document::new();
    d.insert(
        "nums".to_string(),
        Bson::Array(vec![Bson::Int32(1), Bson::Int32(2), Bson::Int32(3)]),
    );
    let bytes = encode(&d).unwrap();
    let d2 = decode(&bytes).unwrap();
    assert_eq!(d2, d);
    assert_eq!(
        d2.get("nums"),
        Some(&Bson::Array(vec![
            Bson::Int32(1),
            Bson::Int32(2),
            Bson::Int32(3)
        ]))
    );
    // The embedded array document is the document with the keys
    // "0", "1", "2", in that order.
    let mut ad = Document::new();
    ad.insert("0".to_string(), Bson::Int32(1));
    ad.insert("1".to_string(), Bson::Int32(2));
    ad.insert("2".to_string(), Bson::Int32(3));
    let abytes = encode(&ad).unwrap();
    // 4 length bytes, 1 tag byte, 5 key bytes precede the array body.
    assert_eq!(&bytes[10..bytes.len() - 1], &abytes[..]);
}

#[test]
fn embedded_null_in_key_is_an_encode_error() {
    let mut d = Document::new();
    d.insert("a\0b".to_string(), Bson::Int32(1));
    assert_eq!(encode(&d), Err(EncodeError::InvalidCString));
}

#[test]
fn embedded_null_in_regex_is_an_encode_error() {
    let mut d = Document::new();
    d.insert(
        "r".to_string(),
        Bson::RegExp("a\0b".to_string(), "i".to_string()),
    );
    assert_eq!(encode(&d), Err(EncodeError::InvalidCString));
    let mut d2 = Document::new();
    d2.insert(
        "r".to_string(),
        Bson::RegExp("ab".to_string(), "\0".to_string()),
    );
    assert_eq!(encode(&d2), Err(EncodeError::InvalidCString));
}

#[test]
fn embedded_null_in_string_value_round_trips() {
    let mut d = Document::new();
    d.insert("s".to_string(), Bson::String("h\0i".to_string()));
    let bytes = encode(&d).unwrap();
    let d2 = decode(&bytes).unwrap();
    assert_eq!(d2, d);
    assert_eq!(d2.get("s"), Some(&Bson::String("h\0i".to_string())));
}

#[test]
fn every_type_round_trips() {
    let mut scope = Document::new();
    scope.insert("s".to_string(), Bson::String("value".to_string()));
    let mut inner = Document::new();
    inner.insert("test".to_string(), Bson::String("value".to_string()));
    let mut d = Document::new();
    d.insert("double".to_string(), Bson::Double(24.5f64.to_bits()));
    d.insert("string".to_string(), Bson::String("value".to_string()));
    d.insert("document".to_string(), Bson::Document(inner));
    d.insert(
        "array".to_string(),
        Bson::Array(vec![
            Bson::Null,
            Bson::String("x".to_string()),
            Bson::Array(vec![Bson::Int32(-1)]),
        ]),
    );
    d.insert("binary".to_string(), Bson::Binary(1, vec![1, 1, 1]));
    d.insert("undefined".to_string(), Bson::Undefined);
    d.insert("boolean".to_string(), Bson::Boolean(true));
    d.insert("datetime".to_string(), Bson::DateTime(1486564200000));
    d.insert("null".to_string(), Bson::Null);
    d.insert(
        "regexp".to_string(),
        Bson::RegExp("/test/".to_string(), "i".to_string()),
    );
    d.insert(
        "dbpointer".to_string(),
        Bson::DbPointer("db.c".to_string(), [9u8; 12]),
    );
    d.insert("code".to_string(), Bson::Code("foo = bar".to_string()));
    d.insert(
        "codescope".to_string(),
        Bson::CodeWithScope("foo = bar".to_string(), scope),
    );
    d.insert("symbol".to_string(), Bson::Symbol("test".to_string()));
    d.insert("int32".to_string(), Bson::Int32(-42));
    d.insert("timestamp".to_string(), Bson::Timestamp(1000));
    d.insert("int64".to_string(), Bson::Int64(-42));
    d.insert("minkey".to_string(), Bson::MinKey);
    d.insert("maxkey".to_string(), Bson::MaxKey);
    let bytes = encode(&d).unwrap();
    let d2 = decode(&bytes).unwrap();
    assert_eq!(d2, d);
}

#[test]
fn encode_then_decode_returns_an_equal_document() {
    let mut d = Document::new();
    d.insert("a".to_string(), Bson::Int32(1));
    d.insert("b".to_string(), Bson::String("text".to_string()));
    let d2 = encode_then_decode(&d).unwrap();
    assert_eq!(d2, d);
    let mut bad = Document::new();
    bad.insert("a\0b".to_string(), Bson::Int32(1));
    assert!(encode_then_decode(&bad).is_none());
}

#[test]
fn length_prefix_matches_total_length_and_terminator() {
    let mut d = Document::new();
    d.insert("a".to_string(), Bson::Int32(1));
    d.insert("b".to_string(), Bson::String("text".to_string()));
    let bytes = encode(&d).unwrap();
    let declared = u32::from_le_bytes([bytes[0], bytes[1], bytes[2], bytes[3]]);
    assert_eq!(declared as usize, bytes.len());
    assert_eq!(bytes[bytes.len() - 1], 0x00);
}

#[test]
fn declared_length_beyond_buffer_is_rejected() {
    let mut d = Document::new();
    d.insert("a".to_string(), Bson::Int32(1));
    let mut bytes = encode(&d).unwrap();
    let bigger = (bytes.len() as u32 + 1).to_le_bytes();
    bytes[0] = bigger[0];
    bytes[1] = bigger[1];
    bytes[2] = bigger[2];
    bytes[3] = bigger[3];
    assert_eq!(decode(&bytes), Err(DecodeError::Truncated));
}

#[test]
fn truncated_buffer_is_rejected() {
    let mut d = Document::new();
    d.insert("a".to_string(), Bson::Int32(1));
    let bytes = encode(&d).unwrap();
    assert_eq!(
        decode(&bytes[..bytes.len() - 1]),
        Err(DecodeError::Truncated)
    );
    assert!(decode(&bytes[..3]).is_err());
    assert!(decode(&[]).is_err());
}

#[test]
fn corrupted_terminator_is_rejected() {
    let bytes = [0x05, 0x00, 0x00, 0x00, 0x01];
    assert!(decode(&bytes).is_err());
}

#[test]
fn trailing_bytes_after_document_are_rejected() {
    let mut bytes = encode(&Document::new()).unwrap();
    bytes.push(0x00);
    assert_eq!(decode(&bytes), Err(DecodeError::LengthMismatch));
}

#[test]
fn declared_length_helper_validates_the_prefix() {
    assert_eq!(declared_length(&[0x05, 0x00, 0x00, 0x00]), Some(5));
    assert_eq!(declared_length(&[0x04, 0x00, 0x00, 0x00]), None);
    assert_eq!(declared_length(&[0xff, 0xff, 0xff, 0xff]), None);
    assert_eq!(declared_length(&[0x05, 0x00, 0x00]), None);
}

#[test]
fn declared_length_below_minimum_is_rejected() {
    assert_eq!(
        decode(&[0x04, 0x00, 0x00, 0x00]),
        Err(DecodeError::LengthMismatch)
    );
}

#[test]
fn unknown_type_tag_is_rejected() {
    let bytes = [0x08, 0x00, 0x00, 0x00, 0x13, b'k', 0x00, 0x00];
    assert_eq!(decode(&bytes), Err(DecodeError::UnknownTag));
}

#[test]
fn invalid_utf8_in_string_is_rejected() {
    let bytes = [
        0x0e, 0x00, 0x00, 0x00, 0x02, b'x', 0x00, 0x02, 0x00, 0x00, 0x00, 0xff, 0x00,
        0x00,
    ];
    assert_eq!(decode(&bytes), Err(DecodeError::InvalidUtf8));
}

#[test]
fn invalid_boolean_byte_is_rejected() {
    let bytes = [0x09, 0x00, 0x00, 0x00, 0x08, b'b', 0x00, 0x02, 0x00];
    assert_eq!(decode(&bytes), Err(DecodeError::InvalidData));
}

#[test]
fn missing_element_terminator_is_rejected() {
    let bytes = [0x07, 0x00, 0x00, 0x00, 0x0a, b'0', 0x00];
    assert_eq!(decode(&bytes), Err(DecodeError::MissingTerminator));
}

#[test]
fn string_without_trailing_null_is_rejected() {
    let bytes = [
        0x0e, 0x00, 0x00, 0x00, 0x02, b'x', 0x00, 0x02, 0x00, 0x00, 0x00, b'h', b'i',
        0x00,
    ];
    assert_eq!(decode(&bytes), Err(DecodeError::MalformedText));
}

#[test]
fn key_without_terminator_is_rejected() {
    let bytes = [0x06, 0x00, 0x00, 0x00, 0x10, b'k'];
    assert_eq!(decode(&bytes), Err(DecodeError::MalformedText));
}

#[test]
fn duplicate_keys_replace_in_place_when_decoding() {
    let bytes = [
        0x13, 0x00, 0x00, 0x00, // total length: 19
        0x10, b'a', 0x00, 0x01, 0x00, 0x00, 0x00, // a -> 1
        0x10, b'a', 0x00, 0x02, 0x00, 0x00, 0x00, // a -> 2
        0x00,
    ];
    let d = decode(&bytes).unwrap();
    assert_eq!(d.len(), 1);
    assert_eq!(d.get("a"), Some(&Bson::Int32(2)));
}

#[test]
fn nested_documents_round_trip() {
    let mut innermost = Document::new();
    innermost.insert("test".to_string(), Bson::String("value".to_string()));
    let mut middle = Document::new();
    middle.insert("embed_with_vals".to_string(), Bson::Document(innermost));
    let mut d = Document::new();
    d.insert("document_with_vals".to_string(), Bson::Document(middle));
    let bytes = encode(&d).unwrap();
    let d2 = decode(&bytes).unwrap();
    assert_eq!(d2, d);
}

#[test]
fn double_bits_round_trip_bit_exactly() {
    let mut d = Document::new();
    d.insert("f".to_string(), Bson::Double(24.5f64.to_bits()));
    let d2 = decode(&encode(&d).unwrap()).unwrap();
    match d2.get("f") {
        Some(Bson::Double(bits)) => assert_eq!(f64::from_bits(*bits), 24.5),
        other => panic!("unexpected value: {:?}", other),
    }
}

#[test]
fn timestamp_halves_pack_and_unpack() {
    let packed = bson::timestamp_pack(7, 9);
    assert_eq!(packed, 7 | (9u64 << 32));
    assert_eq!(bson::timestamp_increment(packed), 7);
    assert_eq!(bson::timestamp_seconds(packed), 9);
}

#[test]
fn timestamp_packs_increment_then_seconds() {
    // Increment 7 in the low half, seconds 9 in the high half.
    let packed: u64 = bson::timestamp_pack(7, 9);
    let mut d = Document::new();
    d.insert("t".to_string(), Bson::Timestamp(packed));
    let bytes = encode(&d).unwrap();
    // 4 length bytes, 1 tag byte, 2 key bytes precede the payload.
    assert_eq!(&bytes[7..15], &[7, 0, 0, 0, 9, 0, 0, 0]);
    let d2 = decode(&bytes).unwrap();
    assert_eq!(d2.get("t"), Some(&Bson::Timestamp(packed)));
}
