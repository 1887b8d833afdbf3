use bson::Bson;
use bson::Document;

#[test]
fn new_document_is_empty() {
    let d = Document::new();
    assert_eq!(d.len(), 0);
    assert!(d.get("test").is_none());
}

#[test]
fn get_when_key_does_not_exist_returns_none() {
    let mut d = Document::new();
    d.insert("test".to_string(), Bson::String("value".to_string()));
    assert!(d.get("other").is_none());
    assert!(d.get("").is_none());
}

#[test]
fn insert_fresh_key_returns_none_and_stores_value() {
    let mut d = Document::new();
    let prev = d.insert("test".to_string(), Bson::String("value".to_string()));
    assert!(prev.is_none());
    assert_eq!(d.get("test"), Some(&Bson::String("value".to_string())));
}

#[test]
fn insert_existing_key_returns_prior_and_replaces() {
    let mut d = Document::new();
    d.insert("test".to_string(), Bson::String("value".to_string()));
    let prev = d.insert("test".to_string(), Bson::String("values".to_string()));
    assert_eq!(prev, Some(Bson::String("value".to_string())));
    assert_eq!(d.get("test"), Some(&Bson::String("values".to_string())));
    assert_eq!(d.len(), 1);
}

#[test]
fn insertion_order_is_preserved() {
    let mut d = Document::new();
    d.insert("b".to_string(), Bson::Int32(1));
    d.insert("a".to_string(), Bson::Int32(2));
    d.insert("c".to_string(), Bson::Int32(3));
    assert_eq!(d.len(), 3);
    assert_eq!(d.entry_at(0).0, "b");
    assert_eq!(d.entry_at(1).0, "a");
    assert_eq!(d.entry_at(2).0, "c");
}

#[test]
fn replacement_keeps_the_key_position() {
    let mut d = Document::new();
    d.insert("a".to_string(), Bson::Int32(1));
    d.insert("b".to_string(), Bson::Int32(2));
    d.insert("c".to_string(), Bson::Int32(3));
    let prev = d.insert("b".to_string(), Bson::Int32(9));
    assert_eq!(prev, Some(Bson::Int32(2)));
    assert_eq!(d.len(), 3);
    assert_eq!(d.entry_at(0).0, "a");
    assert_eq!(d.entry_at(1).0, "b");
    assert_eq!(d.entry_at(2).0, "c");
    assert_eq!(d.entry_at(1).1, Bson::Int32(9));
    assert_eq!(d.get("b"), Some(&Bson::Int32(9)));
}

#[test]
fn conversions_pick_the_smallest_variant() {
    assert_eq!(Bson::from(42i8), Bson::Int32(42));
    assert_eq!(Bson::from(-7i8), Bson::Int32(-7));
    assert_eq!(Bson::from(42i16), Bson::Int32(42));
    assert_eq!(Bson::from(42i32), Bson::Int32(42));
    assert_eq!(Bson::from(42i64), Bson::Int64(42));
    assert_eq!(Bson::from(1000u64), Bson::Timestamp(1000));
    assert_eq!(Bson::from(true), Bson::Boolean(true));
    assert_eq!(Bson::from(false), Bson::Boolean(false));
    assert_eq!(Bson::from("value"), Bson::String("value".to_string()));
}

#[test]
fn clone_is_structural_and_deep() {
    let mut inner = Document::new();
    inner.insert("x".to_string(), Bson::Int32(1));
    let mut d = Document::new();
    d.insert("doc".to_string(), Bson::Document(inner));
    d.insert(
        "arr".to_string(),
        Bson::Array(vec![Bson::Int32(1), Bson::String("s".to_string())]),
    );
    let mut c = d.clone();
    assert_eq!(c, d);
    c.insert("more".to_string(), Bson::Null);
    assert_eq!(c.len(), 3);
    assert_eq!(d.len(), 2);
    assert!(d.get("more").is_none());
}

#[test]
fn values_of_every_variant_are_stored_and_found() {
    let mut scope = Document::new();
    scope.insert("s".to_string(), Bson::Int32(1));
    let mut d = Document::new();
    d.insert("double".to_string(), Bson::Double(24.5f64.to_bits()));
    d.insert("string".to_string(), Bson::String("value".to_string()));
    d.insert("document".to_string(), Bson::Document(Document::new()));
    d.insert("array".to_string(), Bson::Array(vec![]));
    d.insert("binary".to_string(), Bson::Binary(1, vec![1, 1, 1]));
    d.insert("undefined".to_string(), Bson::Undefined);
    d.insert("true".to_string(), Bson::Boolean(true));
    d.insert("false".to_string(), Bson::Boolean(false));
    d.insert("datetime".to_string(), Bson::DateTime(1486564200000));
    d.insert("null".to_string(), Bson::Null);
    d.insert(
        "regexp".to_string(),
        Bson::RegExp("/test/".to_string(), "i".to_string()),
    );
    d.insert(
        "dbpointer".to_string(),
        Bson::DbPointer("db.c".to_string(), [7u8; 12]),
    );
    d.insert("code".to_string(), Bson::Code("foo = bar".to_string()));
    d.insert(
        "codescope".to_string(),
        Bson::CodeWithScope("foo = bar".to_string(), scope),
    );
    d.insert("symbol".to_string(), Bson::Symbol("test".to_string()));
    d.insert("int32".to_string(), Bson::Int32(42));
    d.insert("timestamp".to_string(), Bson::Timestamp(1000));
    d.insert("int64".to_string(), Bson::Int64(42));
    d.insert("minkey".to_string(), Bson::MinKey);
    d.insert("maxkey".to_string(), Bson::MaxKey);
    assert_eq!(d.len(), 20);
    assert_eq!(d.get("double"), Some(&Bson::Double(24.5f64.to_bits())));
    assert_eq!(d.get("binary"), Some(&Bson::Binary(1, vec![1, 1, 1])));
    assert_eq!(d.get("minkey"), Some(&Bson::MinKey));
    assert_eq!(d.get("maxkey"), Some(&Bson::MaxKey));
    assert_eq!(d.get("int32"), Some(&Bson::Int32(42)));
    assert_eq!(d.get("timestamp"), Some(&Bson::Timestamp(1000)));
}
