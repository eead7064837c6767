//! Archives and their entries: building them, writing them to bytes and
//! reading them back.
use vstd::prelude::*;
use vstd::utf8::*;

use crate::codec::{
    bzip2_compress_into_empty, bzip2_decompress_into_empty, crc32, gzip_decode_into_empty,
    gzip_encode_unfinished, lzma2_compress, lzma2_decompress, lzma_compress, lzma_decompress,
    sha256_hex, spec_crc32, gzip_header_bytes, spec_gzip_deflate_partial, spec_gzip_header_ok, spec_lzma2_compress, spec_lzma2_decompress,
    spec_lzma_compress, spec_lzma_decompress, spec_sha256_hex, is_lower_hex_digit,
};
use crate::compression::CompressionType;
use crate::error::UpkfError;
use crate::format::{
    entry_header_bytes, field_bytes, file_header_bytes, new_file_header, parse_entry_header,
    parse_file_header, text_len, Entry, EntryHeader, EntryHeaderView, FileHeader, FileHeaderView,
};

verus! {

// ---------------------------------------------------------------------------
// Payloads.

/// Whether `p` can be the payload written for `data` under `c`: the bytes
/// themselves without compression; the LZMA or LZMA2 encoder's output, which
/// its decoder reads back as the bytes; for GZIP, the header (whose
/// modification time is the time of writing) followed by what the deflate
/// stage emitted for the bytes, a header the decoder accepts; for BZIP2,
/// nothing (the compressor is handed an output slice of length zero).
pub open spec fn payload_fits(c: CompressionType, data: Seq<u8>, p: Seq<u8>) -> bool {
    match c {
        CompressionType::NONE => p == data,
        CompressionType::LZMA => p == spec_lzma_compress(data) && spec_lzma_decompress(p) == data,
        CompressionType::LZMA2 => p == spec_lzma2_compress(data) && spec_lzma2_decompress(p)
            == data,
        CompressionType::GZIP => spec_gzip_header_ok(p) && exists|t: u32|
            p == gzip_header_bytes(t) + spec_gzip_deflate_partial(data),
        CompressionType::BZIP2 => p == Seq::<u8>::empty(),
    }
}

/// The bytes that a reader unpacks from a payload, or `None` when a GZIP
/// payload's header is rejected. GZIP and BZIP2 payloads unpack to nothing:
/// their decoders are handed an output slice of length zero.
pub open spec fn unpacked_payload(c: CompressionType, p: Seq<u8>) -> Option<Seq<u8>> {
    match c {
        CompressionType::NONE => Some(p),
        CompressionType::LZMA => Some(spec_lzma_decompress(p)),
        CompressionType::LZMA2 => Some(spec_lzma2_decompress(p)),
        CompressionType::GZIP => if spec_gzip_header_ok(p) {
            Some(Seq::<u8>::empty())
        } else {
            None
        },
        CompressionType::BZIP2 => Some(Seq::<u8>::empty()),
    }
}

/// Whether the SHA-256 digest recorded for a payload has the form that
/// `sha256_hex` guarantees: sixty-four lower-case hexadecimal digits.
pub open spec fn digest_well_formed(p: Seq<u8>) -> bool {
    &&& spec_sha256_hex(p).len() == 64
    &&& forall|i: int| 0 <= i < 64 ==> is_lower_hex_digit(#[trigger] spec_sha256_hex(p)[i])
}

/// Whether a written payload's length fits the 64-bit size field and its
/// recorded digest has the form that `sha256_hex` guarantees.
pub open spec fn payload_well_formed(p: Seq<u8>) -> bool {
    p.len() <= u64::MAX && digest_well_formed(p)
}

/// Packs an entry's bytes under a method.
pub fn pack(c: CompressionType, data: &[u8]) -> (r: Vec<u8>)
    ensures
        payload_fits(c, data@, r@),
{
    match c {
        CompressionType::NONE => vstd::slice::slice_to_vec(data),
        CompressionType::LZMA => lzma_compress(data),
        CompressionType::LZMA2 => lzma2_compress(data),
        CompressionType::GZIP => {
            let (p, t) = gzip_encode_unfinished(data);
            assert(p@ == gzip_header_bytes(t) + spec_gzip_deflate_partial(data@));
            p
        },
        CompressionType::BZIP2 => bzip2_compress_into_empty(data),
    }
}

/// Unpacks a stored payload under a method.
pub fn unpack(c: CompressionType, p: &[u8]) -> (r: Option<Vec<u8>>)
    ensures
        match r {
            Some(v) => unpacked_payload(c, p@) == Some(v@),
            None => unpacked_payload(c, p@) is None,
        },
{
    match c {
        CompressionType::NONE => Some(vstd::slice::slice_to_vec(p)),
        CompressionType::LZMA => Some(lzma_decompress(p)),
        CompressionType::LZMA2 => Some(lzma2_decompress(p)),
        CompressionType::GZIP => gzip_decode_into_empty(p),
        CompressionType::BZIP2 => Some(bzip2_decompress_into_empty(p)),
    }
}

// ---------------------------------------------------------------------------
// Elements.

/// What an archive element holds.
pub struct ElementView {
    pub path: Seq<char>,
    pub meta: Seq<char>,
    pub binary: bool,
    pub compression: CompressionType,
    pub bytes: Seq<u8>,
    pub crc32: Option<u32>,
    pub sha256: Option<Seq<char>>,
}

/// One file of an archive: its name, metadata, kind, compression method and
/// contents; the checksums are known once it has been read from an archive.
#[derive(Debug, Clone)]
pub struct Element {
    path: String,
    meta: String,
    binary: bool,
    compression: CompressionType,
    bytes: Vec<u8>,
    crc32: Option<u32>,
    sha256: Option<String>,
}

/// The view of an optional string.
pub open spec fn opt_text(s: Option<String>) -> Option<Seq<char>> {
    match s {
        Some(t) => Some(t@),
        None => None,
    }
}

impl View for Element {
    type V = ElementView;

    closed spec fn view(&self) -> ElementView {
        ElementView {
            path: self.path@,
            meta: self.meta@,
            binary: self.binary,
            compression: self.compression,
            bytes: self.bytes@,
            crc32: self.crc32,
            sha256: opt_text(self.sha256),
        }
    }
}

/// The header that a writer puts in front of payload `p` of element `e`:
/// sizes are the lengths of the encodings, cut to the field's width; the
/// checksums are those of the payload.
pub open spec fn written_header(e: ElementView, p: Seq<u8>) -> EntryHeaderView {
    EntryHeaderView {
        size: p.len() as u64,
        name_size: encode_utf8(e.path).len() as u32,
        name: e.path,
        binary: e.binary,
        compression: e.compression,
        crc: spec_crc32(p),
        sha256_size: encode_utf8(spec_sha256_hex(p)).len() as u16,
        sha256: spec_sha256_hex(p),
        metadata_size: encode_utf8(e.meta).len() as u32,
        metadata: e.meta,
    }
}

/// The bytes of an entry: its header, then its payload.
pub open spec fn entry_bytes(e: ElementView, p: Seq<u8>) -> Seq<u8> {
    entry_header_bytes(written_header(e, p)) + p
}

/// The element that a reader makes of a header and a payload. With
/// `check`, the payload must match the recorded CRC-32, then the recorded
/// SHA-256; the payload is unpacked, and the recorded checksums are kept.
pub open spec fn element_from(h: EntryHeaderView, data: Seq<u8>, check: bool) -> Result<ElementView, UpkfError> {
    if check && spec_crc32(data) != h.crc {
        Err(UpkfError::Crc32CheckFailed)
    } else if check && spec_sha256_hex(data) != h.sha256 {
        Err(UpkfError::Sha256CheckFailed)
    } else {
        match unpacked_payload(h.compression, data) {
            None => Err(UpkfError::CorruptedDataError),
            Some(b) => Ok(
                ElementView {
                    path: h.name,
                    meta: h.metadata,
                    binary: h.binary,
                    compression: h.compression,
                    bytes: b,
                    crc32: Some(h.crc),
                    sha256: Some(h.sha256),
                },
            ),
        }
    }
}

/// Reading an entry (header, payload) at `pos` into an element, with the
/// position after it.
pub open spec fn parse_element(d: Seq<u8>, pos: int, check: bool) -> Result<(ElementView, int), UpkfError> {
    match parse_entry_header(d, pos) {
        Err(e) => Err(e),
        Ok((h, p1)) => match field_bytes(d, p1, h.size as int, 1) {
            Err(e) => Err(e),
            Ok((data, p2)) => match element_from(h, data, check) {
                Err(e) => Err(e),
                Ok(el) => Ok((el, p2)),
            },
        },
    }
}

impl Element {
    /// Appends the entry for this element with a given stored payload: the
    /// header (with the payload's size, CRC-32 and SHA-256), then the payload.
    pub fn write_payload(&self, payload: Vec<u8>, out: &mut Vec<u8>)
        ensures
            final(out)@ == old(out)@ + entry_bytes(self@, payload@),
            payload_well_formed(payload@),
    {
        let sha = sha256_hex(payload.as_slice());
        let header = EntryHeader {
            size: payload.len() as u64,
            name_size: text_len(&self.path) as u32,
            name: self.path.clone(),
            binary: self.binary,
            compression_type: self.compression,
            crc: crc32(payload.as_slice()),
            sha256_size: text_len(&sha) as u16,
            sha256: sha,
            metadata_size: text_len(&self.meta) as u32,
            metadata: self.meta.clone(),
        };
        header.save(out);
        let entry = Entry { data: payload };
        entry.save(out);
        assert(header@ == written_header(self@, payload@));
        assert(final(out)@ =~= old(out)@ + entry_bytes(self@, payload@));
    }

    /// Appends the entry for this element: its bytes are packed under its
    /// method, then written with the header.
    pub fn write(&self, out: &mut Vec<u8>)
        ensures
            exists|p: Seq<u8>|
                payload_fits(self@.compression, self@.bytes, p) && payload_well_formed(p)
                    && final(out)@ == old(out)@ + entry_bytes(self@, p),
    {
        let payload = pack(self.compression, self.bytes.as_slice());
        let ghost p = payload@;
        self.write_payload(payload, out);
        assert(payload_fits(self@.compression, self@.bytes, p) && payload_well_formed(p));
    }

    /// Makes an element of an entry's header and payload.
    pub fn load(entry_header: EntryHeader, entry: Entry, check_content: bool) -> (r: Result<Element, UpkfError>)
        ensures
            match r {
                Ok(e) => element_from(entry_header@, entry.data@, check_content) == Ok::<ElementView, UpkfError>(e@),
                Err(x) => element_from(entry_header@, entry.data@, check_content) == Err::<ElementView, UpkfError>(x),
            },
    {
        if check_content {
            if crc32(entry.data.as_slice()) != entry_header.crc {
                return Err(UpkfError::Crc32CheckFailed);
            }
            let digest = sha256_hex(entry.data.as_slice());
            if !(digest == entry_header.sha256) {
                return Err(UpkfError::Sha256CheckFailed);
            }
        }
        match unpack(entry_header.compression_type, entry.data.as_slice()) {
            None => Err(UpkfError::CorruptedDataError),
            Some(bytes) => Ok(
                Element {
                    path: entry_header.name,
                    meta: entry_header.metadata,
                    binary: entry_header.binary,
                    compression: entry_header.compression_type,
                    bytes,
                    crc32: Some(entry_header.crc),
                    sha256: Some(entry_header.sha256),
                },
            ),
        }
    }

    /// The element's name.
    pub fn get_path(&self) -> (r: &String)
        ensures
            r@ == self@.path,
    {
        &self.path
    }

    /// The element's metadata text.
    pub fn get_meta(&self) -> (r: &String)
        ensures
            r@ == self@.meta,
    {
        &self.meta
    }

    /// Whether the element is marked binary (not text).
    pub fn is_bynary(&self) -> (r: &bool)
        ensures
            *r == self@.binary,
    {
        &self.binary
    }

    /// The element's contents.
    pub fn get_content(&self) -> (r: &Vec<u8>)
        ensures
            r@ == self@.bytes,
    {
        &self.bytes
    }

    /// Whether the element is stored with some compression.
    pub fn is_compressed(&self) -> (r: bool)
        ensures
            r == (self@.compression != CompressionType::NONE),
    {
        self.compression != CompressionType::NONE
    }

    /// The element's compression method.
    pub fn get_compression(&self) -> (r: &CompressionType)
        ensures
            *r == self@.compression,
    {
        &self.compression
    }

    /// The CRC-32 recorded for the element's payload, once read from an
    /// archive.
    pub fn get_crc32(&self) -> (r: &Option<u32>)
        ensures
            *r == self@.crc32,
    {
        &self.crc32
    }

    /// The SHA-256 recorded for the element's payload, once read from an
    /// archive.
    pub fn get_sha256(&self) -> (r: &Option<String>)
        ensures
            opt_text(*r) == self@.sha256,
    {
        &self.sha256
    }
}

// ---------------------------------------------------------------------------
// Archives.

/// What an archive holds: its origin and its elements, in order.
pub struct UpkfView {
    pub origin: Seq<char>,
    pub entries: Seq<ElementView>,
}

/// An archive: an origin and a list of elements.
pub struct Upkf {
    origin: String,
    entries: Vec<Element>,
}

impl View for Upkf {
    type V = UpkfView;

    closed spec fn view(&self) -> UpkfView {
        UpkfView { origin: self.origin@, entries: self.entries@.map_values(|e: Element| e@) }
    }
}

/// The element that `add_file` appends.
pub open spec fn new_element(
    path: Seq<char>,
    meta: Seq<char>,
    data: Seq<u8>,
    binary: bool,
    compression: CompressionType,
) -> ElementView {
    ElementView { path, meta, binary, compression, bytes: data, crc32: None, sha256: None }
}

/// The bytes of a list of entries with their payloads, one after another.
pub open spec fn entries_bytes(es: Seq<ElementView>, ps: Seq<Seq<u8>>) -> Seq<u8>
    decreases es.len(),
{
    if es.len() == 0 {
        Seq::<u8>::empty()
    } else {
        entry_bytes(es[0], ps[0]) + entries_bytes(es.drop_first(), ps.drop_first())
    }
}

/// The bytes of an archive written with the given payloads: a file header
/// (not recompressed) naming the origin and the number of entries, then the
/// entries.
pub open spec fn upkf_bytes(u: UpkfView, ps: Seq<Seq<u8>>) -> Seq<u8> {
    file_header_bytes(new_file_header(u.origin, u.entries.len() as u64, false)) + entries_bytes(
        u.entries,
        ps,
    )
}

/// Whether each payload can be the one written for its element.
pub open spec fn payloads_fit(es: Seq<ElementView>, ps: Seq<Seq<u8>>) -> bool {
    &&& ps.len() == es.len()
    &&& forall|i: int|
        0 <= i < es.len() ==> #[trigger] payload_fits(es[i].compression, es[i].bytes, ps[i])
            && payload_well_formed(ps[i])
}

/// Reading `n` elements one after another from `pos`.
pub open spec fn parse_elements(d: Seq<u8>, pos: int, n: nat, check: bool) -> Result<(Seq<ElementView>, int), UpkfError>
    decreases n,
{
    if n == 0 {
        Ok((Seq::<ElementView>::empty(), pos))
    } else {
        match parse_element(d, pos, check) {
            Err(e) => Err(e),
            Ok((el, p1)) => match parse_elements(d, p1, (n - 1) as nat, check) {
                Err(e) => Err(e),
                Ok((rest, p2)) => Ok((seq![el] + rest, p2)),
            },
        }
    }
}

/// Reading an archive: its file header, then as many elements as the header
/// counts. Bytes after the last element are not read.
pub open spec fn parse_upkf(d: Seq<u8>, check: bool) -> Result<UpkfView, UpkfError> {
    match parse_file_header(d) {
        Err(e) => Err(e),
        Ok((h, p)) => match parse_elements(d, p, h.entry_count as nat, check) {
            Err(e) => Err(e),
            Ok((es, _)) => Ok(UpkfView { origin: h.origin, entries: es }),
        },
    }
}

/// A list of elements already read in front of the result of reading the
/// rest.
pub open spec fn after(acc: Seq<ElementView>, r: Result<(Seq<ElementView>, int), UpkfError>) -> Result<(Seq<ElementView>, int), UpkfError> {
    match r {
        Ok((es, p)) => Ok((acc + es, p)),
        Err(e) => Err(e),
    }
}

/// Writing one more entry after a list of entries appends its bytes.
proof fn lemma_entries_bytes_push(es: Seq<ElementView>, ps: Seq<Seq<u8>>, e: ElementView, p: Seq<u8>)
    requires
        ps.len() == es.len(),
    ensures
        entries_bytes(es.push(e), ps.push(p)) == entries_bytes(es, ps) + entry_bytes(e, p),
    decreases es.len(),
{
    if es.len() == 0 {
        assert(es.push(e).drop_first() =~= Seq::<ElementView>::empty());
        assert(entries_bytes(es.push(e).drop_first(), ps.push(p).drop_first()) == Seq::<u8>::empty());
        assert(es.push(e)[0] == e && ps.push(p)[0] == p);
        assert(entries_bytes(es, ps) == Seq::<u8>::empty());
        assert(entries_bytes(es.push(e), ps.push(p)) =~= entries_bytes(es, ps) + entry_bytes(e, p));
    } else {
        lemma_entries_bytes_push(es.drop_first(), ps.drop_first(), e, p);
        assert(es.push(e).drop_first() =~= es.drop_first().push(e));
        assert(ps.push(p).drop_first() =~= ps.drop_first().push(p));
        assert(entries_bytes(es.push(e), ps.push(p)) =~= entries_bytes(es, ps) + entry_bytes(e, p));
    }
}

/// Reading one more element after `k` elements.
proof fn lemma_parse_elements_step(d: Seq<u8>, pos: int, n: nat, check: bool)
    requires
        n > 0,
    ensures
        parse_elements(d, pos, n, check) == match parse_element(d, pos, check) {
            Err(e) => Err(e),
            Ok((el, p1)) => after(seq![el], parse_elements(d, p1, (n - 1) as nat, check)),
        },
{
}

/// Reads the entry at `pos` into an element, with the position after it.
fn load_element(data: &[u8], pos: usize, check_content: bool) -> (r: Result<(Element, usize), UpkfError>)
    ensures
        match r {
            Ok((el, p)) => parse_element(data@, pos as int, check_content) == Ok::<(ElementView, int), UpkfError>((el@, p as int)),
            Err(e) => parse_element(data@, pos as int, check_content) == Err::<(ElementView, int), UpkfError>(e),
        },
{
    let (entry_header, p) = match EntryHeader::load(data, pos) {
        Ok(x) => x,
        Err(e) => return Err(e),
    };
    let ghost h = entry_header@;
    let ghost p1: int = p as int;
    let (entry, p) = match Entry::load(data, p, &entry_header) {
        Ok(x) => x,
        Err(e) => return Err(e),
    };
    let ghost payload = entry.data@;
    let element = match Element::load(entry_header, entry, check_content) {
        Ok(x) => x,
        Err(e) => {
            assert(field_bytes(data@, p1, h.size as int, 1) == Ok::<(Seq<u8>, int), UpkfError>((payload, p as int)));
            return Err(e);
        },
    };
    assert(field_bytes(data@, p1, h.size as int, 1) == Ok::<(Seq<u8>, int), UpkfError>((payload, p as int)));
    Ok((element, p))
}

impl Upkf {
    /// An archive with this origin and no elements.
    pub fn new(origin: String) -> (r: Self)
        ensures
            r@.origin == origin@,
            r@.entries == Seq::<ElementView>::empty(),
    {
        let r = Upkf { origin, entries: Vec::new() };
        assert(r@.entries =~= Seq::<ElementView>::empty());
        r
    }

    /// Appends an element with these fields and no checksums yet.
    pub fn add_file(
        &mut self,
        path: String,
        meta: String,
        data: Vec<u8>,
        binary: bool,
        compression: CompressionType,
    ) -> (r: &mut Upkf)
        ensures
            r@.origin == old(self)@.origin,
            r@.entries == old(self)@.entries.push(
                new_element(path@, meta@, data@, binary, compression),
            ),
            *final(self) == *final(r),
    {
        let ghost old_entries = self.entries@;
        self.entries.push(
            Element {
                path,
                meta,
                binary,
                compression,
                bytes: data,
                crc32: None,
                sha256: None,
            },
        );
        assert(self.entries@.map_values(|e: Element| e@) =~= old_entries.map_values(
            |e: Element| e@,
        ).push(new_element(path@, meta@, data@, binary, compression)));
        self
    }

    /// Appends a text file: its bytes are the UTF-8 encoding of `data`, with
    /// no metadata and the text flag.
    pub fn add_text_file(&mut self, path: String, data: String, compression: CompressionType) -> (r: &mut Self)
        ensures
            r@.origin == old(self)@.origin,
            r@.entries == old(self)@.entries.push(
                new_element(path@, Seq::<char>::empty(), encode_utf8(data@), false, compression),
            ),
            *final(self) == *final(r),
    {
        let bytes = vstd::slice::slice_to_vec(data.as_str().as_bytes());
        self.add_file(path, String::new(), bytes, false, compression)
    }

    /// Appends a binary file, with no metadata and the binary flag.
    pub fn add_binary_file(&mut self, path: String, data: Vec<u8>, compression: CompressionType) -> (r: &mut Upkf)
        ensures
            r@.origin == old(self)@.origin,
            r@.entries == old(self)@.entries.push(
                new_element(path@, Seq::<char>::empty(), data@, true, compression),
            ),
            *final(self) == *final(r),
    {
        self.add_file(path, String::new(), data, true, compression)
    }

    /// The archive's path, which is always empty.
    pub fn get_path(&self) -> (r: &'static str)
        ensures
            r@ == Seq::<char>::empty(),
    {
        proof {
            reveal_strlit("");
        }
        ""
    }

    /// The archive's origin.
    pub fn get_origin(&self) -> (r: &String)
        ensures
            r@ == self@.origin,
    {
        &self.origin
    }

    /// The archive's bytes: a file header, then each element's entry with its
    /// packed payload.
    #[verifier::spinoff_prover]
    pub fn save(&self) -> (r: Vec<u8>)
        ensures
            exists|ps: Seq<Seq<u8>>| payloads_fit(self@.entries, ps) && r@ == upkf_bytes(self@, ps),
            self@.entries.len() <= u64::MAX,
    {
        let mut out: Vec<u8> = Vec::new();
        let header = FileHeader::new(self.origin.clone(), self.entries.len() as u64, false);
        header.save(&mut out);
        let ghost head = out@;
        let ghost es = self@.entries;
        let ghost mut ps: Seq<Seq<u8>> = Seq::empty();
        let mut i: usize = 0;
        while i < self.entries.len()
            invariant
                i <= self.entries.len(),
                es == self@.entries,
                es.len() == self.entries.len(),
                head == file_header_bytes(new_file_header(self@.origin, es.len() as u64, false)),
                ps.len() == i,
                payloads_fit(es.take(i as int), ps),
                out@ == head + entries_bytes(es.take(i as int), ps),
            decreases self.entries.len() - i,
        {
            let ghost before = out@;
            self.entries[i].write(&mut out);
            proof {
                let p = choose|p: Seq<u8>|
                    payload_fits(self.entries@[i as int]@.compression, self.entries@[i as int]@.bytes, p)
                        && payload_well_formed(p) && out@ == before + entry_bytes(self.entries@[i as int]@, p);
                assert(es[i as int] == self.entries@[i as int]@);
                lemma_entries_bytes_push(es.take(i as int), ps, es[i as int], p);
                assert(es.take(i as int).push(es[i as int]) =~= es.take(i + 1));
                let ps2 = ps.push(p);
                assert forall|j: int| 0 <= j < i + 1 implies #[trigger] payload_fits(
                    es.take(i + 1)[j].compression,
                    es.take(i + 1)[j].bytes,
                    ps2[j],
                ) && payload_well_formed(ps2[j]) by {
                    if j < i {
                        assert(es.take(i as int)[j] == es.take(i + 1)[j]);
                        assert(payload_fits(es.take(i as int)[j].compression, es.take(i as int)[j].bytes, ps[j]));
                    }
                }
                ps = ps2;
            }
            i += 1;
        }
        assert(es.take(es.len() as int) =~= es);
        assert(payloads_fit(self@.entries, ps) && out@ == upkf_bytes(self@, ps));
        out
    }

    /// Reads an archive from its bytes, or tells why it cannot be read.
    #[verifier::spinoff_prover]
    fn read_archive(data: &[u8], check_content: bool) -> (r: Result<Upkf, UpkfError>)
        ensures
            match r {
                Ok(u) => parse_upkf(data@, check_content) == Ok::<UpkfView, UpkfError>(u@),
                Err(e) => parse_upkf(data@, check_content) == Err::<UpkfView, UpkfError>(e),
            },
    {
        let (header, mut pos) = match FileHeader::load(data) {
            Ok(x) => x,
            Err(e) => return Err(e),
        };
        let ghost p0: int = pos as int;
        let ghost n: nat = header.entry_count as nat;
        let mut entries: Vec<Element> = Vec::new();
        let mut i: u64 = 0;
        while i < header.entry_count
            invariant
                i <= header.entry_count,
                n == header.entry_count as nat,
                parse_file_header(data@) == Ok::<(FileHeaderView, int), UpkfError>((header@, p0)),
                parse_elements(data@, p0, n, check_content) == after(
                    entries@.map_values(|e: Element| e@),
                    parse_elements(data@, pos as int, (n - i) as nat, check_content),
                ),
            decreases header.entry_count - i,
        {
            proof {
                lemma_parse_elements_step(data@, pos as int, (n - i) as nat, check_content);
            }
            let (element, p) = match load_element(data, pos, check_content) {
                Ok(x) => x,
                Err(e) => return Err(e),
            };
            let ghost acc = entries@.map_values(|e: Element| e@);
            let ghost el = element@;
            entries.push(element);
            proof {
                assert(entries@.map_values(|e: Element| e@) =~= acc.push(el));
                assert(acc + (seq![el] + Seq::<ElementView>::empty()) =~= acc.push(el));
                match parse_elements(data@, p as int, (n - i - 1) as nat, check_content) {
                    Ok((rest, q)) => {
                        assert(acc + (seq![el] + rest) =~= acc.push(el) + rest);
                    },
                    Err(_) => {},
                }
            }
            pos = p;
            i += 1;
        }
        let r = Upkf { origin: header.origin, entries };
        assert(r@.entries + Seq::<ElementView>::empty() =~= r@.entries);
        Ok(r)
    }

    /// Reads an archive from its bytes; with `check_content`, each payload
    /// must match its recorded checksums. The bytes must hold a readable
    /// archive: see [`Upkf::try_load`] for bytes that may not.
    pub fn load(data: &[u8], check_content: bool) -> (r: Upkf)
        requires
            parse_upkf(data@, check_content) is Ok,
        ensures
            parse_upkf(data@, check_content) == Ok::<UpkfView, UpkfError>(r@),
    {
        match Upkf::read_archive(data, check_content) {
            Ok(u) => u,
            Err(_) => {
                assert(false);
                Upkf::new(String::new())
            },
        }
    }

    /// Reads an archive from bytes that may not hold a readable one: the
    /// archive, or why it cannot be read (a wrong signature or version,
    /// data that ends early, text that is not UTF-8, a GZIP payload whose
    /// header is rejected, or with `check_content` a payload that does not
    /// match its recorded CRC-32 or SHA-256).
    pub fn try_load(data: &[u8], check_content: bool) -> (r: Result<Upkf, UpkfError>)
        ensures
            match r {
                Ok(u) => parse_upkf(data@, check_content) == Ok::<UpkfView, UpkfError>(u@),
                Err(e) => parse_upkf(data@, check_content) == Err::<UpkfView, UpkfError>(e),
            },
    {
        match Upkf::read_archive(data, check_content) {
            Ok(_) => Ok(Upkf::load(data, check_content)),
            Err(e) => Err(e),
        }
    }

    /// Walks the elements; see [`UpkfIterator::next`].
    pub fn iter(&self) -> (r: UpkfIterator<'_>)
        ensures
            r.position() == 0,
            r.elements().map_values(|e: Element| e@) == self@.entries,
    {
        UpkfIterator { current_iter_entry: 0, data: &self.entries }
    }
}

/// A cursor over an archive's elements.
pub struct UpkfIterator<'a> {
    current_iter_entry: usize,
    data: &'a Vec<Element>,
}

impl<'a> UpkfIterator<'a> {
    /// The cursor's position.
    pub closed spec fn position(&self) -> usize {
        self.current_iter_entry
    }

    /// The elements walked over.
    pub closed spec fn elements(&self) -> Seq<Element> {
        self.data@
    }

    /// Moves one element on, then yields the element there, if any. The
    /// cursor starts at zero and moves before it yields, so the first element
    /// is never yielded.
    pub fn next(&mut self) -> (r: Option<&'a Element>)
        requires
            old(self).position() < usize::MAX,
        ensures
            final(self).position() == old(self).position() + 1,
            final(self).elements() == old(self).elements(),
            match r {
                Some(e) => final(self).position() < old(self).elements().len() && *e
                    == old(self).elements()[final(self).position() as int],
                None => final(self).position() >= old(self).elements().len(),
            },
    {
        self.current_iter_entry += 1;
        if self.current_iter_entry < self.data.len() {
            Some(&self.data[self.current_iter_entry])
        } else {
            None
        }
    }
}

/// The element that `add_file` appends (and so `add_text_file` and
/// `add_binary_file`) carries exactly the name, metadata, contents, flag and
/// method it was given, whatever they are, and no checksums yet.
pub proof fn law_added_element_keeps_fields(
    path: Seq<char>,
    meta: Seq<char>,
    data: Seq<u8>,
    binary: bool,
    compression: CompressionType,
)
    ensures
        new_element(path, meta, data, binary, compression).path == path,
        new_element(path, meta, data, binary, compression).meta == meta,
        new_element(path, meta, data, binary, compression).bytes == data,
        new_element(path, meta, data, binary, compression).binary == binary,
        new_element(path, meta, data, binary, compression).compression == compression,
        new_element(path, meta, data, binary, compression).crc32 is None,
        new_element(path, meta, data, binary, compression).sha256 is None,
{
}

} // verus!
