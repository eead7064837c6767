use upkf::{CompressionType, JsonField, RichPresence, UpkfMeta};

#[test]
fn default_meta() {
    let m = UpkfMeta::default(CompressionType::GZIP);
    assert_eq!(m.get_compression(), CompressionType::GZIP);
    assert_eq!(m.get_string_meta(), "");
    assert!(m.is_binary());
}

#[test]
fn deserialize_reads_fields() {
    let m = UpkfMeta::deserialize(
        r#"{"compression": "LZMA2", "binary": false, "metadata": {"a": 1}}"#,
        CompressionType::NONE,
    )
    .unwrap();
    assert_eq!(m.get_compression(), CompressionType::LZMA2);
    assert!(!m.is_binary());
    assert_eq!(m.get_string_meta(), r#"{"a":1}"#);
}

#[test]
fn deserialize_numbers_and_defaults() {
    let m = UpkfMeta::deserialize(r#"{"compression": 1}"#, CompressionType::GZIP).unwrap();
    assert_eq!(m.get_compression(), CompressionType::LZMA);
    let m = UpkfMeta::deserialize(r#"{"compression": 9}"#, CompressionType::GZIP).unwrap();
    assert_eq!(m.get_compression(), CompressionType::GZIP);
    let m = UpkfMeta::deserialize(r#"{"compression": "zip", "binary": "no", "metadata": "x"}"#, CompressionType::BZIP2).unwrap();
    assert_eq!(m.get_compression(), CompressionType::BZIP2);
    assert!(m.is_binary());
    assert_eq!(m.get_string_meta(), "");
}

#[test]
fn deserialize_refuses_bad_json() {
    assert!(UpkfMeta::deserialize("{not json", CompressionType::NONE).is_err());
    assert!(UpkfMeta::deserialize("", CompressionType::NONE).is_err());
    assert!(UpkfMeta::try_deserialize(r#"{"compression": -1}"#, CompressionType::NONE).is_none());
    assert!(UpkfMeta::try_deserialize(r#"{"compression": 300}"#, CompressionType::NONE).is_none());
    assert!(matches!(UpkfMeta::try_deserialize("[1", CompressionType::NONE), Some(Err(()))));
    let m = UpkfMeta::try_deserialize(r#"{"compression": 2}"#, CompressionType::NONE).unwrap().unwrap();
    assert_eq!(m.get_compression(), CompressionType::LZMA2);
}

#[test]
fn from_fields_selects() {
    let m = UpkfMeta::from_fields(
        &JsonField::Number(Some(4)),
        &JsonField::Boolean(false),
        &JsonField::Object("{}".to_string()),
        CompressionType::NONE,
    );
    assert_eq!(m.get_compression(), CompressionType::BZIP2);
    assert!(!m.is_binary());
    assert_eq!(m.get_string_meta(), "{}");
    let m = UpkfMeta::from_fields(&JsonField::Null, &JsonField::Other, &JsonField::Text("t".to_string()), CompressionType::LZMA);
    assert_eq!(m.get_compression(), CompressionType::LZMA);
    assert!(m.is_binary());
    assert_eq!(m.get_string_meta(), "");
}

#[test]
fn serialize_writes_all_fields_as_strings() {
    let m = UpkfMeta::default(CompressionType::LZMA);
    let entries = m.serialize_entries();
    assert_eq!(
        entries,
        vec![
            ("compression".to_string(), "LZMA".to_string()),
            ("metadata".to_string(), String::new()),
            ("binary".to_string(), "true".to_string()),
        ]
    );
    let text = m.serialize();
    let parsed = json::parse(&text).unwrap();
    assert_eq!(parsed["compression"], "LZMA");
    assert_eq!(parsed["binary"], "true");
    assert_eq!(parsed["metadata"], "");
    assert!(text.contains("\n    \""));
}

#[test]
fn serialize_then_deserialize_keeps_compression_only() {
    let m = UpkfMeta::from_fields(
        &JsonField::Text("GZIP".to_string()),
        &JsonField::Boolean(false),
        &JsonField::Object("{\"k\":2}".to_string()),
        CompressionType::NONE,
    );
    let back = UpkfMeta::deserialize(&m.serialize(), CompressionType::NONE).unwrap();
    assert_eq!(back.get_compression(), CompressionType::GZIP);
    assert!(back.is_binary());
    assert_eq!(back.get_string_meta(), "");
}

#[test]
fn rich_presence_state() {
    let mut p = RichPresence::new(42);
    p.set_state("playing");
    p.set_client_id(7);
    p.tick();
}
