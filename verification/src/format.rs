//! The byte layout of an archive: the file header, the entry headers, and the
//! readers and writers of their fields. All integers are little-endian; all
//! text is UTF-8.
use vstd::prelude::*;
use vstd::bytes::*;
use vstd::utf8::*;

use crate::codec::{
    read_u16_le, read_u32_le, read_u64_le, string_from_utf8, write_u16_le, write_u32_le,
    write_u64_le,
};
use crate::compression::{CompressionType, compression_code, compression_from_code};
use crate::error::UpkfError;

verus! {

/// The first four bytes of every archive, read as a little-endian `u32`
/// ("UPKF").
pub const UPKF_SIGNATURE: u32 = 0x464b5055;

/// The only format version this library reads and writes.
pub const UPKF_VERSION: u8 = 0;

// ---------------------------------------------------------------------------
// Fields, as a reader at a position sees them.

/// A byte at `pos`, and the position after it.
pub open spec fn field_u8(d: Seq<u8>, pos: int) -> Result<(u8, int), UpkfError> {
    if 0 <= pos && pos + 1 <= d.len() {
        Ok((d[pos], pos + 1))
    } else {
        Err(UpkfError::CorruptedDataError)
    }
}

/// A little-endian `u16` at `pos`, and the position after it.
pub open spec fn field_u16(d: Seq<u8>, pos: int) -> Result<(u16, int), UpkfError> {
    if 0 <= pos && pos + 2 <= d.len() {
        Ok((spec_u16_from_le_bytes(d.subrange(pos, pos + 2)), pos + 2))
    } else {
        Err(UpkfError::CorruptedDataError)
    }
}

/// A little-endian `u32` at `pos`, and the position after it.
pub open spec fn field_u32(d: Seq<u8>, pos: int) -> Result<(u32, int), UpkfError> {
    if 0 <= pos && pos + 4 <= d.len() {
        Ok((spec_u32_from_le_bytes(d.subrange(pos, pos + 4)), pos + 4))
    } else {
        Err(UpkfError::CorruptedDataError)
    }
}

/// A little-endian `u64` at `pos`, and the position after it.
pub open spec fn field_u64(d: Seq<u8>, pos: int) -> Result<(u64, int), UpkfError> {
    if 0 <= pos && pos + 8 <= d.len() {
        Ok((spec_u64_from_le_bytes(d.subrange(pos, pos + 8)), pos + 8))
    } else {
        Err(UpkfError::CorruptedDataError)
    }
}

/// The `n` bytes at `pos`, and the position after them. Where the data ends
/// first, a reader that fills a buffer of `n` copies of `fill` and goes on past
/// the early end gets the bytes up to the end followed by `fill` up to `n`
/// bytes, and stands at the end of the data.
pub open spec fn field_bytes(d: Seq<u8>, pos: int, n: int, fill: u8) -> Result<(Seq<u8>, int), UpkfError> {
    if 0 <= pos && 0 <= n && pos + n <= d.len() {
        Ok((d.subrange(pos, pos + n), pos + n))
    } else if 0 <= pos <= d.len() && 0 <= n <= usize::MAX {
        Ok(
            (
                d.subrange(pos, d.len() as int) + Seq::new((pos + n - d.len()) as nat, |i: int| fill),
                d.len() as int,
            ),
        )
    } else {
        Err(UpkfError::CorruptedDataError)
    }
}

/// The text that the `n` bytes at `pos` (filled with zeros past the end of
/// the data) encode in UTF-8, and the position after them.
pub open spec fn field_text(d: Seq<u8>, pos: int, n: int) -> Result<(Seq<char>, int), UpkfError> {
    match field_bytes(d, pos, n, 0) {
        Ok((b, p)) => if valid_utf8(b) {
            Ok((decode_utf8(b), p))
        } else {
            Err(UpkfError::CorruptedDataError)
        },
        Err(e) => Err(e),
    }
}

/// A flag byte as written: one for true, zero for false.
pub open spec fn flag_byte(b: bool) -> u8 {
    if b {
        1
    } else {
        0
    }
}

/// An executable result with its position matches a spec result.
pub open spec fn lifts<T>(r: Result<(T, usize), UpkfError>, s: Result<(T, int), UpkfError>) -> bool {
    match r {
        Ok((v, p)) => s == Ok::<(T, int), UpkfError>((v, p as int)),
        Err(e) => s == Err::<(T, int), UpkfError>(e),
    }
}

/// An executable byte vector with its position matches a spec result.
pub open spec fn lifts_bytes(r: Result<(Vec<u8>, usize), UpkfError>, s: Result<(Seq<u8>, int), UpkfError>) -> bool {
    match r {
        Ok((v, p)) => s == Ok::<(Seq<u8>, int), UpkfError>((v@, p as int)),
        Err(e) => s == Err::<(Seq<u8>, int), UpkfError>(e),
    }
}

/// An executable string with its position matches a spec result.
pub open spec fn lifts_text(r: Result<(String, usize), UpkfError>, s: Result<(Seq<char>, int), UpkfError>) -> bool {
    match r {
        Ok((v, p)) => s == Ok::<(Seq<char>, int), UpkfError>((v@, p as int)),
        Err(e) => s == Err::<(Seq<char>, int), UpkfError>(e),
    }
}

/// Reads a byte.
pub fn take_u8(d: &[u8], pos: usize) -> (r: Result<(u8, usize), UpkfError>)
    ensures
        lifts(r, field_u8(d@, pos as int)),
{
    if pos < d.len() {
        Ok((d[pos], pos + 1))
    } else {
        Err(UpkfError::CorruptedDataError)
    }
}

/// Reads a little-endian `u16`.
pub fn take_u16(d: &[u8], pos: usize) -> (r: Result<(u16, usize), UpkfError>)
    ensures
        lifts(r, field_u16(d@, pos as int)),
{
    if pos <= d.len() && 2 <= d.len() - pos {
        Ok((read_u16_le(d, pos), pos + 2))
    } else {
        Err(UpkfError::CorruptedDataError)
    }
}

/// Reads a little-endian `u32`.
pub fn take_u32(d: &[u8], pos: usize) -> (r: Result<(u32, usize), UpkfError>)
    ensures
        lifts(r, field_u32(d@, pos as int)),
{
    if pos <= d.len() && 4 <= d.len() - pos {
        Ok((read_u32_le(d, pos), pos + 4))
    } else {
        Err(UpkfError::CorruptedDataError)
    }
}

/// Reads a little-endian `u64`.
pub fn take_u64(d: &[u8], pos: usize) -> (r: Result<(u64, usize), UpkfError>)
    ensures
        lifts(r, field_u64(d@, pos as int)),
{
    if pos <= d.len() && 8 <= d.len() - pos {
        Ok((read_u64_le(d, pos), pos + 8))
    } else {
        Err(UpkfError::CorruptedDataError)
    }
}

/// Reads `n` bytes into a vector; past the end of the data, `fill` bytes
/// make up the rest.
pub fn take_bytes(d: &[u8], pos: usize, n: u64, fill: u8) -> (r: Result<(Vec<u8>, usize), UpkfError>)
    ensures
        lifts_bytes(r, field_bytes(d@, pos as int, n as int, fill)),
{
    if pos > d.len() || n > usize::MAX as u64 {
        return Err(UpkfError::CorruptedDataError);
    }
    let n: usize = n as usize;
    let avail: usize = d.len() - pos;
    let take: usize = if n <= avail { n } else { avail };
    let mut v: Vec<u8> = Vec::with_capacity(take);
    let mut i: usize = 0;
    while i < take
        invariant
            pos + take <= d.len(),
            i <= take,
            v@ == d@.subrange(pos as int, pos + i),
        decreases take - i,
    {
        v.push(d[pos + i]);
        i += 1;
        assert(v@ =~= d@.subrange(pos as int, pos + i));
    }
    if n <= avail {
        return Ok((v, pos + n));
    }
    while i < n
        invariant
            take == avail,
            avail < n,
            pos + avail == d.len(),
            avail <= i <= n,
            v@ == d@.subrange(pos as int, d@.len() as int) + Seq::new((i - avail) as nat, |k: int| fill),
        decreases n - i,
    {
        v.push(fill);
        i += 1;
        assert(v@ =~= d@.subrange(pos as int, d@.len() as int) + Seq::new((i - avail) as nat, |k: int| fill));
    }
    Ok((v, d.len()))
}

/// Reads `n` bytes as UTF-8 text.
pub fn take_text(d: &[u8], pos: usize, n: u64) -> (r: Result<(String, usize), UpkfError>)
    ensures
        lifts_text(r, field_text(d@, pos as int, n as int)),
{
    match take_bytes(d, pos, n, 0) {
        Ok((b, p)) => match string_from_utf8(b) {
            Some(s) => Ok((s, p)),
            None => Err(UpkfError::CorruptedDataError),
        },
        Err(e) => Err(e),
    }
}

/// Appends some bytes to a vector.
pub fn put_bytes(out: &mut Vec<u8>, b: &[u8])
    ensures
        final(out)@ == old(out)@ + b@,
{
    let mut i: usize = 0;
    while i < b.len()
        invariant
            i <= b@.len(),
            out@ == old(out)@ + b@.subrange(0, i as int),
        decreases b@.len() - i,
    {
        out.push(b[i]);
        i += 1;
        assert(out@ =~= old(out)@ + b@.subrange(0, i as int));
    }
    assert(b@.subrange(0, b@.len() as int) =~= b@);
}

/// Appends the UTF-8 bytes of a text.
pub fn put_text(out: &mut Vec<u8>, s: &String)
    ensures
        final(out)@ == old(out)@ + encode_utf8(s@),
{
    put_bytes(out, s.as_str().as_bytes());
}

/// The length in bytes of a text's UTF-8 encoding.
pub fn text_len(s: &String) -> (r: usize)
    ensures
        r == encode_utf8(s@).len(),
{
    s.as_str().as_bytes().len()
}


// ---------------------------------------------------------------------------
// The file header.

/// What a file header holds.
pub struct FileHeaderView {
    pub signature: u32,
    pub version: u8,
    pub recompressed: bool,
    pub origin_size: u16,
    pub origin: Seq<char>,
    pub entry_count: u64,
}

/// The header at the start of an archive.
pub struct FileHeader {
    pub signature: u32,
    pub version: u8,
    pub recompressed: bool,
    pub origin_size: u16,
    pub origin: String,
    pub entry_count: u64,
}

impl View for FileHeader {
    type V = FileHeaderView;

    open spec fn view(&self) -> FileHeaderView {
        FileHeaderView {
            signature: self.signature,
            version: self.version,
            recompressed: self.recompressed,
            origin_size: self.origin_size,
            origin: self.origin@,
            entry_count: self.entry_count,
        }
    }
}

/// The header that a writer makes for an origin and a number of entries: the
/// origin's size is the length of its UTF-8 encoding, cut to 16 bits.
pub open spec fn new_file_header(origin: Seq<char>, entry_count: u64, recompressed: bool) -> FileHeaderView {
    FileHeaderView {
        signature: UPKF_SIGNATURE,
        version: UPKF_VERSION,
        recompressed,
        origin_size: encode_utf8(origin).len() as u16,
        origin,
        entry_count,
    }
}

/// The bytes of a file header: signature, version, recompression flag,
/// origin size, origin, entry count.
pub open spec fn file_header_bytes(h: FileHeaderView) -> Seq<u8> {
    spec_u32_to_le_bytes(h.signature) + seq![h.version, flag_byte(h.recompressed)]
        + spec_u16_to_le_bytes(h.origin_size) + encode_utf8(h.origin) + spec_u64_to_le_bytes(
        h.entry_count,
    )
}

/// Reading a file header at the start of some bytes: a wrong signature or
/// version is reported as such; data that ends early or an origin that is not
/// UTF-8 is corrupted.
pub open spec fn parse_file_header(d: Seq<u8>) -> Result<(FileHeaderView, int), UpkfError> {
    match field_u32(d, 0) {
        Err(e) => Err(e),
        Ok((signature, p1)) => if signature != UPKF_SIGNATURE {
            Err(UpkfError::NotAnUpkFileError)
        } else {
            match field_u8(d, p1) {
                Err(e) => Err(e),
                Ok((version, p2)) => if version != UPKF_VERSION {
                    Err(UpkfError::VersionNotSupportedError)
                } else {
                    match field_u8(d, p2) {
                        Err(e) => Err(e),
                        Ok((rec, p3)) => match field_u16(d, p3) {
                            Err(e) => Err(e),
                            Ok((origin_size, p4)) => match field_text(d, p4, origin_size as int) {
                                Err(e) => Err(e),
                                Ok((origin, p5)) => match field_u64(d, p5) {
                                    Err(e) => Err(e),
                                    Ok((entry_count, p6)) => Ok(
                                        (
                                            FileHeaderView {
                                                signature,
                                                version,
                                                recompressed: rec != 0,
                                                origin_size,
                                                origin,
                                                entry_count,
                                            },
                                            p6,
                                        ),
                                    ),
                                },
                            },
                        },
                    }
                }
            }
        }
    }
}

impl FileHeader {
    /// The header for an archive with this origin and number of entries.
    pub fn new(origin: String, entry_count: u64, compress_entries: bool) -> (r: FileHeader)
        ensures
            r@ == new_file_header(origin@, entry_count, compress_entries),
    {
        let origin_size: u16 = text_len(&origin) as u16;
        FileHeader {
            signature: UPKF_SIGNATURE,
            version: UPKF_VERSION,
            recompressed: compress_entries,
            origin_size,
            origin,
            entry_count,
        }
    }

    /// Appends the header's bytes.
    pub fn save(&self, out: &mut Vec<u8>)
        ensures
            final(out)@ == old(out)@ + file_header_bytes(self@),
    {
        write_u32_le(out, self.signature);
        out.push(self.version);
        out.push(if self.recompressed { 1u8 } else { 0u8 });
        write_u16_le(out, self.origin_size);
        put_text(out, &self.origin);
        write_u64_le(out, self.entry_count);
        assert(final(out)@ =~= old(out)@ + file_header_bytes(self@));
    }

    /// Reads the header at the start of some bytes, with the position after it.
    #[verifier::spinoff_prover]
    pub fn load(d: &[u8]) -> (r: Result<(FileHeader, usize), UpkfError>)
        ensures
            match r {
                Ok((h, p)) => parse_file_header(d@) == Ok::<(FileHeaderView, int), UpkfError>((h@, p as int)),
                Err(e) => parse_file_header(d@) == Err::<(FileHeaderView, int), UpkfError>(e),
            },
    {
        let (signature, p) = match take_u32(d, 0) {
            Ok(x) => x,
            Err(e) => return Err(e),
        };
        if signature != UPKF_SIGNATURE {
            return Err(UpkfError::NotAnUpkFileError);
        }
        let (version, p) = match take_u8(d, p) {
            Ok(x) => x,
            Err(e) => return Err(e),
        };
        if version != UPKF_VERSION {
            return Err(UpkfError::VersionNotSupportedError);
        }
        let (rec, p) = match take_u8(d, p) {
            Ok(x) => x,
            Err(e) => return Err(e),
        };
        let (origin_size, p) = match take_u16(d, p) {
            Ok(x) => x,
            Err(e) => return Err(e),
        };
        let (origin, p) = match take_text(d, p, origin_size as u64) {
            Ok(x) => x,
            Err(e) => return Err(e),
        };
        let (entry_count, p) = match take_u64(d, p) {
            Ok(x) => x,
            Err(e) => return Err(e),
        };
        Ok((
            FileHeader {
                signature,
                version,
                recompressed: rec != 0,
                origin_size,
                origin,
                entry_count,
            },
            p,
        ))
    }
}

// ---------------------------------------------------------------------------
// Entry headers.

/// What an entry header holds.
pub struct EntryHeaderView {
    pub size: u64,
    pub name_size: u32,
    pub name: Seq<char>,
    pub binary: bool,
    pub compression: CompressionType,
    pub crc: u32,
    pub sha256_size: u16,
    pub sha256: Seq<char>,
    pub metadata_size: u32,
    pub metadata: Seq<char>,
}

/// The header in front of each entry's payload.
pub struct EntryHeader {
    pub size: u64,
    pub name_size: u32,
    pub name: String,
    pub binary: bool,
    pub compression_type: CompressionType,
    pub crc: u32,
    pub sha256_size: u16,
    pub sha256: String,
    pub metadata_size: u32,
    pub metadata: String,
}

impl View for EntryHeader {
    type V = EntryHeaderView;

    open spec fn view(&self) -> EntryHeaderView {
        EntryHeaderView {
            size: self.size,
            name_size: self.name_size,
            name: self.name@,
            binary: self.binary,
            compression: self.compression_type,
            crc: self.crc,
            sha256_size: self.sha256_size,
            sha256: self.sha256@,
            metadata_size: self.metadata_size,
            metadata: self.metadata@,
        }
    }
}

/// The bytes of an entry header: payload size, name size, name, binary flag,
/// compression byte, CRC-32, digest size, digest, metadata size, metadata.
/// The digest size written is the length of the digest's encoding, cut to 16
/// bits.
pub open spec fn entry_header_bytes(h: EntryHeaderView) -> Seq<u8> {
    spec_u64_to_le_bytes(h.size) + spec_u32_to_le_bytes(h.name_size) + encode_utf8(h.name)
        + seq![flag_byte(h.binary), compression_code(h.compression)] + spec_u32_to_le_bytes(h.crc)
        + spec_u16_to_le_bytes(encode_utf8(h.sha256).len() as u16) + encode_utf8(h.sha256)
        + spec_u32_to_le_bytes(h.metadata_size) + encode_utf8(h.metadata)
}

/// The compression method a byte stands for, where an unknown byte stands for
/// no compression.
pub open spec fn compression_or_none(b: u8) -> CompressionType {
    match compression_from_code(b) {
        Some(c) => c,
        None => CompressionType::NONE,
    }
}

/// Reading an entry header at `pos`: data that ends early or a text field
/// that is not UTF-8 is corrupted.
pub open spec fn parse_entry_header(d: Seq<u8>, pos: int) -> Result<(EntryHeaderView, int), UpkfError> {
    match field_u64(d, pos) {
        Err(e) => Err(e),
        Ok((size, p1)) => match field_u32(d, p1) {
            Err(e) => Err(e),
            Ok((name_size, p2)) => match field_text(d, p2, name_size as int) {
                Err(e) => Err(e),
                Ok((name, p3)) => match field_u8(d, p3) {
                    Err(e) => Err(e),
                    Ok((binary, p4)) => match field_u8(d, p4) {
                        Err(e) => Err(e),
                        Ok((comp, p5)) => match field_u32(d, p5) {
                            Err(e) => Err(e),
                            Ok((crc, p6)) => match field_u16(d, p6) {
                                Err(e) => Err(e),
                                Ok((sha256_size, p7)) => match field_text(d, p7, sha256_size as int) {
                                    Err(e) => Err(e),
                                    Ok((sha256, p8)) => match field_u32(d, p8) {
                                        Err(e) => Err(e),
                                        Ok((metadata_size, p9)) => match field_text(
                                            d,
                                            p9,
                                            metadata_size as int,
                                        ) {
                                            Err(e) => Err(e),
                                            Ok((metadata, p10)) => Ok(
                                                (
                                                    EntryHeaderView {
                                                        size,
                                                        name_size,
                                                        name,
                                                        binary: binary != 0,
                                                        compression: compression_or_none(comp),
                                                        crc,
                                                        sha256_size,
                                                        sha256,
                                                        metadata_size,
                                                        metadata,
                                                    },
                                                    p10,
                                                ),
                                            ),
                                        },
                                    },
                                },
                            },
                        },
                    },
                },
            },
        },
    }
}

impl EntryHeader {
    /// Appends the header's bytes.
    pub fn save(&self, out: &mut Vec<u8>)
        ensures
            final(out)@ == old(out)@ + entry_header_bytes(self@),
    {
        write_u64_le(out, self.size);
        write_u32_le(out, self.name_size);
        put_text(out, &self.name);
        out.push(if self.binary { 1u8 } else { 0u8 });
        out.push(self.compression_type.code());
        write_u32_le(out, self.crc);
        write_u16_le(out, text_len(&self.sha256) as u16);
        put_text(out, &self.sha256);
        write_u32_le(out, self.metadata_size);
        put_text(out, &self.metadata);
        assert(final(out)@ =~= old(out)@ + entry_header_bytes(self@));
    }

    /// Reads the header at `pos`, with the position after it.
    #[verifier::spinoff_prover]
    pub fn load(d: &[u8], pos: usize) -> (r: Result<(EntryHeader, usize), UpkfError>)
        ensures
            match r {
                Ok((h, p)) => parse_entry_header(d@, pos as int) == Ok::<(EntryHeaderView, int), UpkfError>((h@, p as int)),
                Err(e) => parse_entry_header(d@, pos as int) == Err::<(EntryHeaderView, int), UpkfError>(e),
            },
    {
        let (size, p) = match take_u64(d, pos) {
            Ok(x) => x,
            Err(e) => return Err(e),
        };
        let (name_size, p) = match take_u32(d, p) {
            Ok(x) => x,
            Err(e) => return Err(e),
        };
        let (name, p) = match take_text(d, p, name_size as u64) {
            Ok(x) => x,
            Err(e) => return Err(e),
        };
        let (binary, p) = match take_u8(d, p) {
            Ok(x) => x,
            Err(e) => return Err(e),
        };
        let (comp, p) = match take_u8(d, p) {
            Ok(x) => x,
            Err(e) => return Err(e),
        };
        let compression_type = match CompressionType::try_from(comp) {
            Ok(c) => c,
            Err(_) => CompressionType::NONE,
        };
        let (crc, p) = match take_u32(d, p) {
            Ok(x) => x,
            Err(e) => return Err(e),
        };
        let (sha256_size, p) = match take_u16(d, p) {
            Ok(x) => x,
            Err(e) => return Err(e),
        };
        let (sha256, p) = match take_text(d, p, sha256_size as u64) {
            Ok(x) => x,
            Err(e) => return Err(e),
        };
        let (metadata_size, p) = match take_u32(d, p) {
            Ok(x) => x,
            Err(e) => return Err(e),
        };
        let (metadata, p) = match take_text(d, p, metadata_size as u64) {
            Ok(x) => x,
            Err(e) => return Err(e),
        };
        Ok((
            EntryHeader {
                size,
                name_size,
                name,
                binary: binary != 0,
                compression_type,
                crc,
                sha256_size,
                sha256,
                metadata_size,
                metadata,
            },
            p,
        ))
    }
}

// ---------------------------------------------------------------------------
// Entry payloads.

/// The stored payload of an entry.
pub struct Entry {
    pub data: Vec<u8>,
}

impl Entry {
    /// Appends the payload.
    pub fn save(&self, out: &mut Vec<u8>)
        ensures
            final(out)@ == old(out)@ + self.data@,
    {
        put_bytes(out, self.data.as_slice());
    }

    /// Reads the payload that a header announces, at `pos`; where the data
    /// ends first, one-bytes make up the rest.
    pub fn load(d: &[u8], pos: usize, header: &EntryHeader) -> (r: Result<(Entry, usize), UpkfError>)
        ensures
            match r {
                Ok((e, p)) => field_bytes(d@, pos as int, header.size as int, 1) == Ok::<(Seq<u8>, int), UpkfError>((e.data@, p as int)),
                Err(x) => field_bytes(d@, pos as int, header.size as int, 1) == Err::<(Seq<u8>, int), UpkfError>(x),
            },
    {
        match take_bytes(d, pos, header.size, 1) {
            Ok((data, p)) => Ok((Entry { data }, p)),
            Err(e) => Err(e),
        }
    }
}

} // verus!
