use upkf::CompressionType;

#[test]
fn names() {
    assert_eq!(CompressionType::NONE.name(), "NONE");
    assert_eq!(CompressionType::LZMA.name(), "LZMA");
    assert_eq!(CompressionType::LZMA2.name(), "LZMA2");
    assert_eq!(CompressionType::GZIP.name(), "GZIP");
    assert_eq!(CompressionType::BZIP2.name(), "BZIP2");
}

#[test]
fn from_bytes() {
    assert_eq!(CompressionType::try_from(0u8), Ok(CompressionType::NONE));
    assert_eq!(CompressionType::try_from(2u8), Ok(CompressionType::LZMA2));
    assert_eq!(CompressionType::try_from(4u8), Ok(CompressionType::BZIP2));
    assert_eq!(CompressionType::try_from(5u8), Err(()));
    assert_eq!(CompressionType::try_from(255u8), Err(()));
}

#[test]
fn from_names() {
    assert_eq!(CompressionType::try_from("GZIP"), Ok(CompressionType::GZIP));
    assert_eq!(CompressionType::try_from("LZMA"), Ok(CompressionType::LZMA));
    assert_eq!(CompressionType::try_from("lzma"), Err(()));
    assert_eq!(CompressionType::try_from(""), Err(()));
}

#[test]
fn name_and_code_round_trip() {
    for c in [
        CompressionType::NONE,
        CompressionType::LZMA,
        CompressionType::LZMA2,
        CompressionType::GZIP,
        CompressionType::BZIP2,
    ] {
        assert_eq!(CompressionType::try_from(c.name()), Ok(c));
        assert_eq!(CompressionType::try_from(c.code()), Ok(c));
    }
}

#[test]
fn ordering_follows_declaration() {
    assert!(CompressionType::NONE < CompressionType::BZIP2);
}
