//! The calls into outside crates that the archive format needs: little-endian
//! integers (byteorder), checksums (crc32fast, sha256), the compressors
//! (lzma-rs, libflate, bzip2), and UTF-8 decoding (std).
use vstd::prelude::*;
use vstd::bytes::*;
use vstd::utf8::*;

use byteorder::{ByteOrder, LittleEndian, WriteBytesExt};
use std::io::{Read, Write};

verus! {

/// One step of the CRC-32 (IEEE) register, least significant bit first: shift
/// right, and where a one fell out, add the reflected polynomial 0xEDB88320.
pub open spec fn crc32_shift(c: u32) -> u32 {
    if c & 1 == 1 {
        (c >> 1) ^ 0xEDB88320u32
    } else {
        c >> 1
    }
}

/// The CRC-32 register after taking in one byte: the byte is added to the
/// low bits, then the register steps eight times.
pub open spec fn crc32_byte(c: u32, b: u8) -> u32 {
    let x0 = c ^ (b as u32);
    let x1 = crc32_shift(x0);
    let x2 = crc32_shift(x1);
    let x3 = crc32_shift(x2);
    let x4 = crc32_shift(x3);
    let x5 = crc32_shift(x4);
    let x6 = crc32_shift(x5);
    let x7 = crc32_shift(x6);
    crc32_shift(x7)
}

/// The CRC-32 register after taking in some bytes, from all ones.
pub open spec fn crc32_register(data: Seq<u8>) -> u32
    decreases data.len(),
{
    if data.len() == 0 {
        0xFFFF_FFFFu32
    } else {
        crc32_byte(crc32_register(data.drop_last()), data.last())
    }
}

/// The CRC-32 (IEEE) checksum of some bytes: the register, inverted.
pub open spec fn spec_crc32(data: Seq<u8>) -> u32 {
    crc32_register(data) ^ 0xFFFF_FFFFu32
}

/// The lower-case hexadecimal SHA-256 digest that `sha256::digest_bytes`
/// computes of some bytes.
pub uninterp spec fn spec_sha256_hex(data: Seq<u8>) -> Seq<char>;

/// What `lzma_rs::lzma_compress` writes for some input.
pub uninterp spec fn spec_lzma_compress(data: Seq<u8>) -> Seq<u8>;

/// What `lzma_rs::lzma_decompress` writes for some input, whether or not it
/// reaches the end of the stream without error.
pub uninterp spec fn spec_lzma_decompress(data: Seq<u8>) -> Seq<u8>;

/// What `lzma_rs::lzma2_compress` writes for some input.
pub uninterp spec fn spec_lzma2_compress(data: Seq<u8>) -> Seq<u8>;

/// What `lzma_rs::lzma2_decompress` writes for some input, whether or not it
/// reaches the end of the stream without error.
pub uninterp spec fn spec_lzma2_decompress(data: Seq<u8>) -> Seq<u8>;

/// Whether `libflate::gzip::Decoder::new` accepts the GZIP header at the
/// start of some bytes.
pub uninterp spec fn spec_gzip_header_ok(data: Seq<u8>) -> bool;

/// What libflate's deflate stage (default options) has emitted after being
/// handed all of some bytes, without being finished: the blocks it flushed
/// as its buffer filled.
pub uninterp spec fn spec_gzip_deflate_partial(data: Seq<u8>) -> Seq<u8>;

/// The ten-byte GZIP header that `libflate::gzip::Encoder::new` writes with
/// default options: the identification bytes, the DEFLATE method, no flags,
/// the modification time, an unknown compression level and the Unix system.
pub open spec fn gzip_header_bytes(modification_time: u32) -> Seq<u8> {
    seq![31u8, 139u8, 8u8, 0u8] + spec_u32_to_le_bytes(modification_time) + seq![0u8, 3u8]
}

/// Whether a character is a lower-case hexadecimal digit.
pub open spec fn is_lower_hex_digit(c: char) -> bool {
    ('0' <= c && c <= '9') || ('a' <= c && c <= 'f')
}

/// `LittleEndian::read_u16` of byteorder on the two bytes at `pos`.
#[verifier::external_body]
pub(crate) fn read_u16_le(data: &[u8], pos: usize) -> (r: u16)
    requires
        pos + 2 <= data@.len(),
    ensures
        r == spec_u16_from_le_bytes(data@.subrange(pos as int, pos + 2)),
{
    LittleEndian::read_u16(&data[pos..pos + 2])
}

/// `LittleEndian::read_u32` of byteorder on the four bytes at `pos`.
#[verifier::external_body]
pub(crate) fn read_u32_le(data: &[u8], pos: usize) -> (r: u32)
    requires
        pos + 4 <= data@.len(),
    ensures
        r == spec_u32_from_le_bytes(data@.subrange(pos as int, pos + 4)),
{
    LittleEndian::read_u32(&data[pos..pos + 4])
}

/// `LittleEndian::read_u64` of byteorder on the eight bytes at `pos`.
#[verifier::external_body]
pub(crate) fn read_u64_le(data: &[u8], pos: usize) -> (r: u64)
    requires
        pos + 8 <= data@.len(),
    ensures
        r == spec_u64_from_le_bytes(data@.subrange(pos as int, pos + 8)),
{
    LittleEndian::read_u64(&data[pos..pos + 8])
}

/// byteorder's `WriteBytesExt::write_u16::<LittleEndian>` on a vector, which
/// appends the two little-endian bytes of `v` (writing to a vector cannot fail).
#[verifier::external_body]
pub(crate) fn write_u16_le(out: &mut Vec<u8>, v: u16)
    ensures
        final(out)@ == old(out)@ + spec_u16_to_le_bytes(v),
{
    let _ = out.write_u16::<LittleEndian>(v);
}

/// byteorder's `WriteBytesExt::write_u32::<LittleEndian>` on a vector, which
/// appends the four little-endian bytes of `v`.
#[verifier::external_body]
pub(crate) fn write_u32_le(out: &mut Vec<u8>, v: u32)
    ensures
        final(out)@ == old(out)@ + spec_u32_to_le_bytes(v),
{
    let _ = out.write_u32::<LittleEndian>(v);
}

/// byteorder's `WriteBytesExt::write_u64::<LittleEndian>` on a vector, which
/// appends the eight little-endian bytes of `v`.
#[verifier::external_body]
pub(crate) fn write_u64_le(out: &mut Vec<u8>, v: u64)
    ensures
        final(out)@ == old(out)@ + spec_u64_to_le_bytes(v),
{
    let _ = out.write_u64::<LittleEndian>(v);
}

/// `crc32fast::hash`: the CRC-32 (IEEE) checksum of some bytes, as the
/// crate's documentation names it.
#[verifier::external_body]
pub(crate) fn crc32(data: &[u8]) -> (r: u32)
    ensures
        r == spec_crc32(data@),
{
    crc32fast::hash(data)
}

/// `sha256::digest_bytes`: the SHA-256 digest of some bytes, written as
/// sixty-four lower-case hexadecimal digits (`hex::encode` of the 32-byte
/// digest, as the crate's source shows).
#[verifier::external_body]
#[allow(deprecated)]
pub(crate) fn sha256_hex(data: &[u8]) -> (r: String)
    ensures
        r@ == spec_sha256_hex(data@),
        r@.len() == 64,
        forall|i: int| 0 <= i < 64 ==> is_lower_hex_digit(#[trigger] r@[i]),
{
    sha256::digest_bytes(data)
}

/// `lzma_rs::lzma_compress` of some bytes into a fresh vector; writing to a
/// vector cannot fail, so the whole stream is there. The encoder
/// (`encode/dumbencoder.rs`) writes the properties, the dictionary size, an
/// unknown unpacked size, each byte as a range-coded literal and an end
/// marker, which `lzma_decompress` reads back as the same bytes.
#[verifier::external_body]
pub(crate) fn lzma_compress(data: &[u8]) -> (r: Vec<u8>)
    ensures
        r@ == spec_lzma_compress(data@),
        spec_lzma_decompress(r@) == data@,
{
    let mut out: Vec<u8> = Vec::new();
    let _ = lzma_rs::lzma_compress(&mut &data[..], &mut out);
    out
}

/// `lzma_rs::lzma_decompress` of some bytes into a fresh vector; the vector
/// holds what was written before the decoder stopped, whether it stopped at
/// the end of the stream or on an error.
#[verifier::external_body]
pub(crate) fn lzma_decompress(data: &[u8]) -> (r: Vec<u8>)
    ensures
        r@ == spec_lzma_decompress(data@),
{
    let mut out: Vec<u8> = Vec::new();
    let _ = lzma_rs::lzma_decompress(&mut &data[..], &mut out);
    out
}

/// `lzma_rs::lzma2_compress` of some bytes into a fresh vector. The encoder
/// (`encode/lzma2.rs`) stores the bytes in uncompressed chunks of at most
/// 65536 bytes followed by an end byte, which `lzma2_decompress` copies back
/// out.
#[verifier::external_body]
pub(crate) fn lzma2_compress(data: &[u8]) -> (r: Vec<u8>)
    ensures
        r@ == spec_lzma2_compress(data@),
        spec_lzma2_decompress(r@) == data@,
{
    let mut out: Vec<u8> = Vec::new();
    let _ = lzma_rs::lzma2_compress(&mut &data[..], &mut out);
    out
}

/// `lzma_rs::lzma2_decompress` of some bytes into a fresh vector, holding what
/// was written before the decoder stopped.
#[verifier::external_body]
pub(crate) fn lzma2_decompress(data: &[u8]) -> (r: Vec<u8>)
    ensures
        r@ == spec_lzma2_decompress(data@),
{
    let mut out: Vec<u8> = Vec::new();
    let _ = lzma_rs::lzma2_decompress(&mut &data[..], &mut out);
    out
}

/// A `libflate::gzip::Encoder` over a fresh vector, given all of `data` and
/// dropped without `finish` (neither it nor its deflate stage does anything on
/// drop), with the modification time its header records. `Encoder::new`
/// writes the header at once (writing to a vector cannot fail); the deflate
/// stage then emits the blocks it flushes. The header is one that
/// `Decoder::new` accepts.
#[verifier::external_body]
pub(crate) fn gzip_encode_unfinished(data: &[u8]) -> (r: (Vec<u8>, u32))
    ensures
        r.0@ == gzip_header_bytes(r.1) + spec_gzip_deflate_partial(data@),
        spec_gzip_header_ok(r.0@),
{
    let mut out: Vec<u8> = Vec::new();
    let mut modification_time: u32 = 0;
    if let Ok(mut encoder) = libflate::gzip::Encoder::new(&mut out) {
        modification_time = encoder.header().modification_time();
        let _ = encoder.write_all(data);
    }
    (out, modification_time)
}

/// `libflate::gzip::Decoder::new` on some bytes, then one `read` into an empty
/// vector's zero-length slice, which can receive no byte: `None` when the
/// decoder rejects the header, else the (empty) vector.
#[verifier::external_body]
pub(crate) fn gzip_decode_into_empty(data: &[u8]) -> (r: Option<Vec<u8>>)
    ensures
        r is Some <==> spec_gzip_header_ok(data@),
        r matches Some(v) ==> v@ == Seq::<u8>::empty(),
{
    match libflate::gzip::Decoder::new(data) {
        Ok(mut decoder) => {
            let mut out: Vec<u8> = Vec::new();
            let _ = decoder.read(&mut out);
            Some(out)
        },
        Err(_) => None,
    }
}

/// `bzip2::Compress::compress` (best level, work factor 30, `Action::Run`)
/// into an empty vector's zero-length slice, which can receive no byte: the
/// vector stays empty.
#[verifier::external_body]
pub(crate) fn bzip2_compress_into_empty(data: &[u8]) -> (r: Vec<u8>)
    ensures
        r@ == Seq::<u8>::empty(),
{
    let mut out: Vec<u8> = Vec::new();
    let mut encoder = bzip2::Compress::new(bzip2::Compression::best(), 30);
    let _ = encoder.compress(data, &mut out, bzip2::Action::Run);
    out
}

/// `bzip2::Decompress::decompress` into an empty vector's zero-length slice,
/// which can receive no byte: the vector stays empty.
#[verifier::external_body]
pub(crate) fn bzip2_decompress_into_empty(data: &[u8]) -> (r: Vec<u8>)
    ensures
        r@ == Seq::<u8>::empty(),
{
    let mut out: Vec<u8> = Vec::new();
    let mut decoder = bzip2::Decompress::new(false);
    let _ = decoder.decompress(data, &mut out);
    out
}

/// `String::from_utf8`: the text that some bytes encode, or `None` when they
/// are not valid UTF-8.
#[verifier::external_body]
pub(crate) fn string_from_utf8(bytes: Vec<u8>) -> (r: Option<String>)
    ensures
        r is Some <==> valid_utf8(bytes@),
        r matches Some(s) ==> s@ == decode_utf8(bytes@),
{
    String::from_utf8(bytes).ok()
}

} // verus!
