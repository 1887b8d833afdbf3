use bson::Bson;
use bson::Document;
use bson::DocumentSerializer;
use bson::TypeSerializer;

#[test]
fn document_serializer_serializes_empty_document() {
    let mut serializer = DocumentSerializer::new();
    let document = Document::new();
    let result = serializer.serialize(&document);
    assert!(result.is_ok());
    assert_eq!(serializer.into_bytes(), vec![0x05, 0x00, 0x00, 0x00, 0x00]);
}

#[test]
fn document_serializer_appends_successive_documents() {
    let mut serializer = DocumentSerializer::new();
    serializer.serialize(&Document::new()).unwrap();
    serializer.serialize(&Document::new()).unwrap();
    assert_eq!(
        serializer.into_bytes(),
        vec![0x05, 0x00, 0x00, 0x00, 0x00, 0x05, 0x00, 0x00, 0x00, 0x00]
    );
}

#[test]
fn document_serializer_leaves_buffer_untouched_on_error() {
    let mut serializer = DocumentSerializer::new();
    serializer.serialize(&Document::new()).unwrap();
    let mut bad = Document::new();
    bad.insert("a\0b".to_string(), Bson::Int32(1));
    assert!(serializer.serialize(&bad).is_err());
    assert_eq!(serializer.into_bytes(), vec![0x05, 0x00, 0x00, 0x00, 0x00]);
}

#[test]
fn type_serializer_writes_string_payload() {
    let mut s = TypeSerializer::new();
    s.serialize_string("hi").unwrap();
    assert_eq!(
        s.into_bytes(),
        vec![0x03, 0x00, 0x00, 0x00, b'h', b'i', 0x00]
    );
}

#[test]
fn type_serializer_writes_i32_payload() {
    let mut s = TypeSerializer::new();
    s.serialize_i32(42).unwrap();
    assert_eq!(s.into_bytes(), vec![42, 0, 0, 0]);
}

#[test]
fn type_serializer_writes_negative_i32_payload() {
    let mut s = TypeSerializer::new();
    s.serialize_i32(-1).unwrap();
    assert_eq!(s.into_bytes(), vec![0xff, 0xff, 0xff, 0xff]);
}

#[test]
fn type_serializer_writes_boolean_payloads() {
    let mut s = TypeSerializer::new();
    s.serialize_boolean(true).unwrap();
    s.serialize_boolean(false).unwrap();
    assert_eq!(s.into_bytes(), vec![0x01, 0x00]);
}

#[test]
fn type_serializer_writes_double_bits() {
    let mut s = TypeSerializer::new();
    s.serialize_double(24.5f64.to_bits()).unwrap();
    assert_eq!(s.into_bytes(), 24.5f64.to_le_bytes().to_vec());
}

#[test]
fn type_serializer_writes_datetime_payload() {
    let mut s = TypeSerializer::new();
    s.serialize_datetime(1486564200000).unwrap();
    assert_eq!(s.into_bytes(), 1486564200000i64.to_le_bytes().to_vec());
}

#[test]
fn type_serializer_writes_u64_and_i64_payloads() {
    let mut s = TypeSerializer::new();
    s.serialize_u64(1000).unwrap();
    s.serialize_i64(-2).unwrap();
    let mut expected = 1000u64.to_le_bytes().to_vec();
    expected.extend_from_slice(&(-2i64).to_le_bytes());
    assert_eq!(s.into_bytes(), expected);
}

#[test]
fn type_serializer_writes_binary_payload() {
    let mut s = TypeSerializer::new();
    s.serialize_binary(1, &vec![1, 1, 1]).unwrap();
    assert_eq!(s.into_bytes(), vec![3, 0, 0, 0, 1, 1, 1, 1]);
}

#[test]
fn type_serializer_writes_regexp_payload() {
    let mut s = TypeSerializer::new();
    s.serialize_regexp("ab", "i").unwrap();
    assert_eq!(s.into_bytes(), vec![b'a', b'b', 0x00, b'i', 0x00]);
}

#[test]
fn type_serializer_rejects_null_in_regexp() {
    let mut s = TypeSerializer::new();
    assert!(s.serialize_regexp("a\0b", "i").is_err());
    assert_eq!(s.into_bytes(), Vec::<u8>::new());
}

#[test]
fn type_serializer_writes_dbpointer_payload() {
    let mut s = TypeSerializer::new();
    let id = [1, 2, 3, 4, 5, 6, 7, 8, 9, 10, 11, 12];
    s.serialize_dbpointer("db.c", &id).unwrap();
    let mut expected = vec![0x05, 0x00, 0x00, 0x00, b'd', b'b', b'.', b'c', 0x00];
    expected.extend_from_slice(&id);
    assert_eq!(s.into_bytes(), expected);
}

#[test]
fn type_serializer_writes_code_with_scope_payload() {
    let mut s = TypeSerializer::new();
    s.serialize_code("foo = bar", &Document::new()).unwrap();
    let mut expected = vec![23, 0, 0, 0, 10, 0, 0, 0];
    expected.extend_from_slice(b"foo = bar");
    expected.extend_from_slice(&[0x00, 0x05, 0x00, 0x00, 0x00, 0x00]);
    assert_eq!(s.into_bytes(), expected);
}

#[test]
fn type_serializer_writes_empty_payloads() {
    let mut s = TypeSerializer::new();
    s.serialize_null().unwrap();
    s.serialize_minkey().unwrap();
    s.serialize_maxkey().unwrap();
    assert_eq!(s.into_bytes(), Vec::<u8>::new());
}

#[test]
fn type_serializer_writes_document_and_array_payloads() {
    let mut inner = Document::new();
    inner.insert("x".to_string(), Bson::Int32(1));
    let mut s = TypeSerializer::new();
    s.serialize_document(&inner).unwrap();
    let doc_bytes = s.into_bytes();
    assert_eq!(
        doc_bytes,
        vec![0x0c, 0, 0, 0, 0x10, b'x', 0x00, 1, 0, 0, 0, 0x00]
    );
    let mut s2 = TypeSerializer::new();
    s2.serialize_array(&vec![Bson::Int32(1)]).unwrap();
    assert_eq!(
        s2.into_bytes(),
        vec![0x0c, 0, 0, 0, 0x10, b'0', 0x00, 1, 0, 0, 0, 0x00]
    );
}

#[test]
fn type_serializer_serialize_dispatches_by_variant() {
    let mut s = TypeSerializer::new();
    s.serialize(&Bson::Int32(7)).unwrap();
    s.serialize(&Bson::MinKey).unwrap();
    s.serialize(&Bson::Undefined).unwrap();
    s.serialize(&Bson::Symbol("test".to_string())).unwrap();
    let mut expected = vec![7, 0, 0, 0];
    expected.extend_from_slice(&[0x05, 0x00, 0x00, 0x00, b't', b'e', b's', b't', 0x00]);
    assert_eq!(s.into_bytes(), expected);
}
