use upkf::format::{EntryHeader, FileHeader};
use upkf::{CompressionType, Upkf, UpkfError};

fn sample() -> Upkf {
    let mut u = Upkf::new("UngineTest".to_string());
    u.add_text_file("first.txt".to_string(), "first".to_string(), CompressionType::NONE)
        .add_text_file("notes/readme.txt".to_string(), "hello world".to_string(), CompressionType::NONE)
        .add_binary_file("data.bin".to_string(), vec![0, 1, 2, 255], CompressionType::LZMA);
    u
}

#[test]
fn empty_archive_bytes() {
    let u = Upkf::new("ab".to_string());
    let bytes = u.save();
    assert_eq!(
        bytes,
        vec![0x55, 0x50, 0x4b, 0x46, 0, 0, 2, 0, b'a', b'b', 0, 0, 0, 0, 0, 0, 0, 0]
    );
}

#[test]
fn file_header_new_counts_utf8_bytes() {
    let h = FileHeader::new("é".to_string(), 3, true);
    assert_eq!(h.origin_size, 2);
    assert_eq!(h.signature, 0x464b5055);
    assert_eq!(h.version, 0);
    let mut out = Vec::new();
    h.save(&mut out);
    assert_eq!(out, vec![0x55, 0x50, 0x4b, 0x46, 0, 1, 2, 0, 0xc3, 0xa9, 3, 0, 0, 0, 0, 0, 0, 0]);
}

#[test]
fn save_then_load_keeps_entries() {
    let u = sample();
    let bytes = u.save();
    for check in [false, true] {
        let back = Upkf::load(&bytes, check);
        assert_eq!(back.get_origin(), "UngineTest");
        let mut it = back.iter();
        let second = it.next().unwrap();
        assert_eq!(second.get_path(), "notes/readme.txt");
        assert_eq!(second.get_meta(), "");
        assert_eq!(*second.is_bynary(), false);
        assert_eq!(second.get_content(), &b"hello world".to_vec());
        assert!(!second.is_compressed());
        assert_eq!(*second.get_compression(), CompressionType::NONE);
        let third = it.next().unwrap();
        assert_eq!(third.get_path(), "data.bin");
        assert_eq!(*third.is_bynary(), true);
        assert_eq!(third.get_content(), &vec![0, 1, 2, 255]);
        assert!(third.is_compressed());
        assert_eq!(*third.get_compression(), CompressionType::LZMA);
        assert!(it.next().is_none());
    }
}

#[test]
fn iterator_skips_the_first_element() {
    let u = sample();
    let mut it = u.iter();
    assert_eq!(it.next().unwrap().get_path(), "notes/readme.txt");
    assert_eq!(it.next().unwrap().get_path(), "data.bin");
    assert!(it.next().is_none());
    assert!(it.next().is_none());
}

#[test]
fn new_elements_have_no_checksums() {
    let u = sample();
    let mut it = u.iter();
    let e = it.next().unwrap();
    assert_eq!(*e.get_crc32(), None);
    assert_eq!(*e.get_sha256(), None);
}

#[test]
fn loaded_checksums_are_those_of_the_payload() {
    let mut u = Upkf::new(String::new());
    u.add_text_file("a".to_string(), "x".to_string(), CompressionType::NONE)
        .add_text_file("b".to_string(), "123456789".to_string(), CompressionType::NONE);
    let back = Upkf::load(&u.save(), true);
    let mut it = back.iter();
    let e = it.next().unwrap();
    assert_eq!(*e.get_crc32(), Some(0xCBF43926));
    assert_eq!(
        e.get_sha256().as_deref(),
        Some("15e2b0d3c33891ebb0f1ef609ec419420c20e320ce94c65fbc8c3312448eb225")
    );
}

#[test]
fn entry_bytes_layout() {
    let mut u = Upkf::new(String::new());
    u.add_file("p".to_string(), "m".to_string(), vec![7, 8], true, CompressionType::NONE);
    let bytes = u.save();
    // file header: 4 + 1 + 1 + 2 + 0 + 8 bytes
    let e = &bytes[16..];
    assert_eq!(&e[0..8], &[2, 0, 0, 0, 0, 0, 0, 0]);
    assert_eq!(&e[8..12], &[1, 0, 0, 0]);
    assert_eq!(e[12], b'p');
    assert_eq!(e[13], 1);
    assert_eq!(e[14], 0);
    let crc = crc32fast::hash(&[7, 8]);
    assert_eq!(&e[15..19], &crc.to_le_bytes());
    assert_eq!(&e[19..21], &[64, 0]);
    let sha = sha256::digest(&[7u8, 8][..]);
    assert_eq!(&e[21..85], sha.as_bytes());
    assert_eq!(&e[85..89], &[1, 0, 0, 0]);
    assert_eq!(e[89], b'm');
    assert_eq!(&e[90..], &[7, 8]);
}

#[test]
fn lzma_payload_is_compressed_and_restored() {
    let data: Vec<u8> = (0..200u32).map(|i| (i % 7) as u8).collect();
    let mut u = Upkf::new(String::new());
    u.add_binary_file("skip".to_string(), vec![], CompressionType::NONE)
        .add_binary_file("z".to_string(), data.clone(), CompressionType::LZMA)
        .add_binary_file("z2".to_string(), data.clone(), CompressionType::LZMA2);
    let bytes = u.save();
    let mut expected = Vec::new();
    lzma_rs::lzma_compress(&mut &data[..], &mut expected).unwrap();
    assert_ne!(expected, data);
    assert!(bytes.windows(expected.len()).any(|w| w == &expected[..]));
    let back = Upkf::load(&bytes, true);
    let mut it = back.iter();
    assert_eq!(it.next().unwrap().get_content(), &data);
    assert_eq!(it.next().unwrap().get_content(), &data);
}

#[test]
fn bzip2_and_gzip_contents_come_back_empty() {
    let mut u = Upkf::new(String::new());
    u.add_binary_file("skip".to_string(), vec![], CompressionType::NONE)
        .add_binary_file("b".to_string(), vec![1, 2, 3], CompressionType::BZIP2)
        .add_binary_file("g".to_string(), vec![1, 2, 3], CompressionType::GZIP);
    let back = Upkf::load(&u.save(), true);
    let mut it = back.iter();
    let b = it.next().unwrap();
    assert_eq!(b.get_content(), &Vec::<u8>::new());
    assert_eq!(*b.get_compression(), CompressionType::BZIP2);
    let g = it.next().unwrap();
    assert_eq!(g.get_content(), &Vec::<u8>::new());
    assert_eq!(*g.get_compression(), CompressionType::GZIP);
}

#[test]
fn foreign_data_is_refused() {
    assert!(matches!(Upkf::try_load(b"PK\x03\x04rest", false), Err(UpkfError::NotAnUpkFileError)));
}

#[test]
fn other_versions_are_refused() {
    let mut bytes = Upkf::new(String::new()).save();
    bytes[4] = 1;
    assert!(matches!(Upkf::try_load(&bytes, false), Err(UpkfError::VersionNotSupportedError)));
}

#[test]
fn short_data_is_corrupted() {
    assert!(matches!(Upkf::try_load(b"UP", false), Err(UpkfError::CorruptedDataError)));
    let bytes = sample().save();
    assert!(matches!(Upkf::try_load(&bytes[..20], false), Err(UpkfError::CorruptedDataError)));
}

#[test]
fn short_last_payload_is_filled_with_ones() {
    let mut u = Upkf::new(String::new());
    u.add_binary_file("s".to_string(), vec![], CompressionType::NONE)
        .add_binary_file("a".to_string(), vec![5, 6, 7], CompressionType::NONE);
    let bytes = u.save();
    let short = &bytes[..bytes.len() - 2];
    let back = Upkf::load(short, false);
    assert_eq!(back.iter().next().unwrap().get_content(), &vec![5, 1, 1]);
    assert!(matches!(Upkf::try_load(short, true), Err(UpkfError::Crc32CheckFailed)));
}

#[test]
fn short_last_metadata_is_filled_with_zeros() {
    let mut u = Upkf::new(String::new());
    u.add_file("s".to_string(), String::new(), vec![], true, CompressionType::NONE)
        .add_file("a".to_string(), "meta".to_string(), vec![], true, CompressionType::NONE);
    let bytes = u.save();
    let short = &bytes[..bytes.len() - 2];
    let back = Upkf::load(short, false);
    let e = back.iter().next().unwrap();
    assert_eq!(e.get_meta(), "me\0\0");
    assert_eq!(e.get_content(), &Vec::<u8>::new());
}

#[test]
fn invalid_utf8_origin_is_corrupted() {
    let bytes = vec![0x55, 0x50, 0x4b, 0x46, 0, 0, 1, 0, 0xff, 0, 0, 0, 0, 0, 0, 0, 0];
    assert!(matches!(Upkf::try_load(&bytes, false), Err(UpkfError::CorruptedDataError)));
}

#[test]
fn trailing_bytes_are_ignored() {
    let mut bytes = sample().save();
    bytes.extend_from_slice(&[9, 9, 9]);
    assert!(Upkf::try_load(&bytes, true).is_ok());
}

#[test]
fn corrupted_payload_fails_crc_check() {
    let mut u = Upkf::new(String::new());
    u.add_binary_file("a".to_string(), vec![1, 2, 3], CompressionType::NONE);
    let mut bytes = u.save();
    let last = bytes.len() - 1;
    bytes[last] ^= 0xff;
    assert!(matches!(Upkf::try_load(&bytes, true), Err(UpkfError::Crc32CheckFailed)));
    assert!(Upkf::try_load(&bytes, false).is_ok());
}

#[test]
fn corrupted_digest_fails_sha_check() {
    let mut u = Upkf::new(String::new());
    u.add_binary_file("a".to_string(), vec![1, 2, 3], CompressionType::NONE);
    let mut bytes = u.save();
    // first digest character: after 16 + 8 + 4 + 1 + 1 + 1 + 4 + 2 bytes
    let pos = 16 + 8 + 4 + 1 + 1 + 1 + 4 + 2;
    bytes[pos] = if bytes[pos] == b'0' { b'1' } else { b'0' };
    assert!(matches!(Upkf::try_load(&bytes, true), Err(UpkfError::Sha256CheckFailed)));
}

#[test]
fn unknown_compression_byte_reads_as_none() {
    let mut u = Upkf::new(String::new());
    u.add_binary_file("s".to_string(), vec![], CompressionType::NONE)
        .add_binary_file("a".to_string(), vec![5], CompressionType::NONE);
    let mut bytes = u.save();
    let first_entry = 16 + 8 + 4 + 1 + 1 + 1 + 4 + 2 + 64 + 4;
    let second = first_entry + 8 + 4 + 1 + 1;
    assert_eq!(bytes[second], 0);
    bytes[second] = 9;
    let back = Upkf::load(&bytes, false);
    let mut it = back.iter();
    let e = it.next().unwrap();
    assert_eq!(*e.get_compression(), CompressionType::NONE);
    assert_eq!(e.get_content(), &vec![5]);
}

#[test]
fn entry_header_reads_back() {
    let h = EntryHeader {
        size: 3,
        name_size: 1,
        name: "n".to_string(),
        binary: true,
        compression_type: CompressionType::LZMA2,
        crc: 77,
        sha256_size: 2,
        sha256: "ab".to_string(),
        metadata_size: 0,
        metadata: String::new(),
    };
    let mut out = Vec::new();
    h.save(&mut out);
    let (back, end) = EntryHeader::load(&out, 0).unwrap();
    assert_eq!(end, out.len());
    assert_eq!(back.name, "n");
    assert_eq!(back.compression_type, CompressionType::LZMA2);
    assert_eq!(back.crc, 77);
    assert_eq!(back.sha256, "ab");
    assert!(back.binary);
}

#[test]
fn get_path_is_empty() {
    assert_eq!(Upkf::new("o".to_string()).get_path(), "");
}

#[test]
fn lzma2_payload_is_the_lzma2_stream() {
    let data = b"abcabcabcabc".to_vec();
    let mut u = Upkf::new(String::new());
    u.add_binary_file("z2".to_string(), data.clone(), CompressionType::LZMA2);
    let bytes = u.save();
    let mut expected = Vec::new();
    lzma_rs::lzma2_compress(&mut &data[..], &mut expected).unwrap();
    assert_ne!(expected, data);
    assert!(bytes.ends_with(&expected));
}

#[test]
fn oversized_origin_is_cut() {
    let origin = format!("ab{}", "\0".repeat(65536));
    let mut u = Upkf::new(origin);
    u.add_binary_file("x".to_string(), vec![1], CompressionType::NONE);
    let bytes = u.save();
    assert_eq!(&bytes[6..8], &[2, 0]);
    let back = Upkf::load(&bytes, false);
    assert_eq!(back.get_origin(), "ab");
    assert!(back.iter().next().is_none());
}
