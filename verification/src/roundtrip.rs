//! What reading gives back of what was written.
use vstd::prelude::*;
use vstd::bytes::*;
use vstd::utf8::*;
use vstd::seq_lib::lemma_concat_associative;

use crate::archive::{
    after, element_from, entries_bytes, entry_bytes, parse_element, parse_elements, parse_upkf,
    payload_fits, payload_well_formed, payloads_fit, unpacked_payload, upkf_bytes,
    written_header, ElementView, UpkfView,
};
use crate::codec::{crc32_byte, crc32_register, crc32_shift, spec_crc32, spec_sha256_hex};
use crate::compression::{compression_code, lemma_code_roundtrip, CompressionType};
use crate::error::UpkfError;
use crate::format::{
    entry_header_bytes, field_bytes, field_text, field_u16, field_u32, field_u64, field_u8,
    file_header_bytes, flag_byte, new_file_header, parse_entry_header, parse_file_header,
    EntryHeaderView, FileHeaderView, UPKF_SIGNATURE, UPKF_VERSION,
};

verus! {

/// Where the bytes from `pos` on start with `b`, the `b.len()` bytes at `pos`
/// are `b` and what follows them is the rest.
proof fn lemma_skip_split(d: Seq<u8>, pos: int, b: Seq<u8>, rest: Seq<u8>)
    requires
        0 <= pos <= d.len(),
        d.skip(pos) == b + rest,
    ensures
        pos + b.len() <= d.len(),
        d.subrange(pos, pos + b.len()) == b,
        d.skip(pos + b.len()) == rest,
{
    assert(d.skip(pos).len() == b.len() + rest.len());
    assert(d.subrange(pos, pos + b.len()) =~= b) by {
        assert forall|i: int| 0 <= i < b.len() implies d.subrange(pos, pos + b.len())[i] == b[i] by {
            assert(d.skip(pos)[i] == (b + rest)[i]);
        }
    }
    assert(d.skip(pos + b.len()) =~= rest) by {
        assert forall|i: int| 0 <= i < rest.len() implies d.skip(pos + b.len())[i] == rest[i] by {
            assert(d.skip(pos)[b.len() + i] == (b + rest)[b.len() + i]);
            assert(d.skip(pos)[b.len() + i] == d[pos + b.len() + i]);
            assert(d.skip(pos + b.len())[i] == d[pos + b.len() + i]);
        }
    }
}

proof fn lemma_read_u8(d: Seq<u8>, pos: int, x: u8, rest: Seq<u8>)
    requires
        0 <= pos <= d.len(),
        d.skip(pos) == seq![x] + rest,
    ensures
        field_u8(d, pos) == Ok::<(u8, int), UpkfError>((x, pos + 1)),
        d.skip(pos + 1) == rest,
{
    lemma_skip_split(d, pos, seq![x], rest);
    assert(d.subrange(pos, pos + 1)[0] == d[pos]);
}

proof fn lemma_read_u16(d: Seq<u8>, pos: int, x: u16, rest: Seq<u8>)
    requires
        0 <= pos <= d.len(),
        d.skip(pos) == spec_u16_to_le_bytes(x) + rest,
    ensures
        field_u16(d, pos) == Ok::<(u16, int), UpkfError>((x, pos + 2)),
        d.skip(pos + 2) == rest,
{
    lemma_auto_spec_u16_to_from_le_bytes();
    lemma_skip_split(d, pos, spec_u16_to_le_bytes(x), rest);
}

proof fn lemma_read_u32(d: Seq<u8>, pos: int, x: u32, rest: Seq<u8>)
    requires
        0 <= pos <= d.len(),
        d.skip(pos) == spec_u32_to_le_bytes(x) + rest,
    ensures
        field_u32(d, pos) == Ok::<(u32, int), UpkfError>((x, pos + 4)),
        d.skip(pos + 4) == rest,
{
    lemma_auto_spec_u32_to_from_le_bytes();
    lemma_skip_split(d, pos, spec_u32_to_le_bytes(x), rest);
}

proof fn lemma_read_u64(d: Seq<u8>, pos: int, x: u64, rest: Seq<u8>)
    requires
        0 <= pos <= d.len(),
        d.skip(pos) == spec_u64_to_le_bytes(x) + rest,
    ensures
        field_u64(d, pos) == Ok::<(u64, int), UpkfError>((x, pos + 8)),
        d.skip(pos + 8) == rest,
{
    lemma_auto_spec_u64_to_from_le_bytes();
    lemma_skip_split(d, pos, spec_u64_to_le_bytes(x), rest);
}

proof fn lemma_read_bytes(d: Seq<u8>, pos: int, b: Seq<u8>, rest: Seq<u8>)
    requires
        0 <= pos <= d.len(),
        d.skip(pos) == b + rest,
    ensures
        field_bytes(d, pos, b.len() as int, 1) == Ok::<(Seq<u8>, int), UpkfError>((b, pos + b.len())),
        d.skip(pos + b.len()) == rest,
{
    lemma_skip_split(d, pos, b, rest);
}

proof fn lemma_read_text(d: Seq<u8>, pos: int, s: Seq<char>, rest: Seq<u8>)
    requires
        0 <= pos <= d.len(),
        d.skip(pos) == encode_utf8(s) + rest,
    ensures
        field_text(d, pos, encode_utf8(s).len() as int) == Ok::<(Seq<char>, int), UpkfError>(
            (s, pos + encode_utf8(s).len()),
        ),
        d.skip(pos + encode_utf8(s).len()) == rest,
{
    lemma_skip_split(d, pos, encode_utf8(s), rest);
    encode_utf8_valid_utf8(s);
    encode_utf8_decode_utf8(s);
}

/// The file header that `FileHeader::new` makes and `FileHeader::save` writes
/// reads back with `FileHeader::load` as itself, followed by anything, when
/// the origin's encoding fits its 16-bit size field; reading stops just after
/// it.
#[verifier::spinoff_prover]
pub proof fn law_file_header_roundtrip(h: FileHeaderView, rest: Seq<u8>)
    requires
        h == new_file_header(h.origin, h.entry_count, h.recompressed),
        encode_utf8(h.origin).len() <= u16::MAX,
    ensures
        parse_file_header(file_header_bytes(h) + rest) == Ok::<(FileHeaderView, int), UpkfError>(
            (h, file_header_bytes(h).len() as int),
        ),
{
    let d = file_header_bytes(h) + rest;
    lemma_auto_spec_u32_to_from_le_bytes();
    lemma_auto_spec_u16_to_from_le_bytes();
    lemma_auto_spec_u64_to_from_le_bytes();
    let o = encode_utf8(h.origin);
    assert(d.skip(0) =~= spec_u32_to_le_bytes(h.signature) + (seq![h.version] + (seq![
        flag_byte(h.recompressed),
    ] + (spec_u16_to_le_bytes(h.origin_size) + (o + (spec_u64_to_le_bytes(h.entry_count)
        + rest))))));
    lemma_read_u32(
        d,
        0,
        h.signature,
        seq![h.version] + (seq![flag_byte(h.recompressed)] + (spec_u16_to_le_bytes(h.origin_size)
            + (o + (spec_u64_to_le_bytes(h.entry_count) + rest)))),
    );
    lemma_read_u8(
        d,
        4,
        h.version,
        seq![flag_byte(h.recompressed)] + (spec_u16_to_le_bytes(h.origin_size) + (o + (
        spec_u64_to_le_bytes(h.entry_count) + rest))),
    );
    lemma_read_u8(
        d,
        5,
        flag_byte(h.recompressed),
        spec_u16_to_le_bytes(h.origin_size) + (o + (spec_u64_to_le_bytes(h.entry_count) + rest)),
    );
    lemma_read_u16(d, 6, h.origin_size, o + (spec_u64_to_le_bytes(h.entry_count) + rest));
    assert(h.origin_size as int == o.len());
    lemma_read_text(d, 8, h.origin, spec_u64_to_le_bytes(h.entry_count) + rest);
    lemma_read_u64(d, 8 + o.len() as int, h.entry_count, rest);
    assert(file_header_bytes(h).len() == 8 + o.len() + 8);
}

/// Whether an element and the payload written for it fit the archive's size
/// fields: the name and metadata encodings fit 32 bits, the payload's length
/// fits 64 bits, and its digest has the recorded form.
pub open spec fn entry_readable(e: ElementView, p: Seq<u8>) -> bool {
    &&& encode_utf8(e.path).len() <= u32::MAX
    &&& encode_utf8(e.meta).len() <= u32::MAX
    &&& payload_well_formed(p)
}

/// The element that a reader makes of the entry written for `e` with payload
/// `p`: the same name, metadata, flag and method, the unpacked payload as its
/// bytes, and the payload's checksums.
pub open spec fn reloaded_element(e: ElementView, p: Seq<u8>) -> ElementView {
    ElementView {
        path: e.path,
        meta: e.meta,
        binary: e.binary,
        compression: e.compression,
        bytes: unpacked_payload(e.compression, p).unwrap(),
        crc32: Some(spec_crc32(p)),
        sha256: Some(spec_sha256_hex(p)),
    }
}

/// The bytes after the size field of an entry header, field by field.
spec fn entry_header_tail(h: EntryHeaderView, rest: Seq<u8>) -> Seq<u8> {
    spec_u32_to_le_bytes(h.name_size) + (encode_utf8(h.name) + (seq![flag_byte(h.binary)] + (seq![
        compression_code(h.compression),
    ] + (spec_u32_to_le_bytes(h.crc) + (spec_u16_to_le_bytes(h.sha256_size) + (encode_utf8(
        h.sha256,
    ) + (spec_u32_to_le_bytes(h.metadata_size) + (encode_utf8(h.metadata) + rest))))))))
}

#[verifier::spinoff_prover]
proof fn lemma_entry_header_split(h: EntryHeaderView, rest: Seq<u8>)
    requires
        h.sha256_size == encode_utf8(h.sha256).len(),
    ensures
        entry_header_bytes(h) + rest == spec_u64_to_le_bytes(h.size) + entry_header_tail(h, rest),
{
    lemma_auto_spec_u16_to_from_le_bytes();
    let a1 = spec_u64_to_le_bytes(h.size);
    let a2 = spec_u32_to_le_bytes(h.name_size);
    let a3 = encode_utf8(h.name);
    let a4 = seq![flag_byte(h.binary), compression_code(h.compression)];
    let a5 = spec_u32_to_le_bytes(h.crc);
    let a6 = spec_u16_to_le_bytes(h.sha256_size);
    let a7 = encode_utf8(h.sha256);
    let a8 = spec_u32_to_le_bytes(h.metadata_size);
    let a9 = encode_utf8(h.metadata);
    let l2 = a1 + a2;
    let l3 = l2 + a3;
    let l4 = l3 + a4;
    let l5 = l4 + a5;
    let l6 = l5 + a6;
    let l7 = l6 + a7;
    let l8 = l7 + a8;
    let r9 = a9 + rest;
    let r8 = a8 + r9;
    let r7 = a7 + r8;
    let r6 = a6 + r7;
    let r5 = a5 + r6;
    let r4 = a4 + r5;
    let r3 = a3 + r4;
    let r2 = a2 + r3;
    assert(entry_header_bytes(h) == l8 + a9);
    lemma_concat_associative(l8, a9, rest);
    lemma_concat_associative(l7, a8, r9);
    lemma_concat_associative(l6, a7, r8);
    lemma_concat_associative(l5, a6, r7);
    lemma_concat_associative(l4, a5, r6);
    lemma_concat_associative(l3, a4, r5);
    lemma_concat_associative(l2, a3, r4);
    lemma_concat_associative(a1, a2, r3);
    assert(a4 + r5 =~= seq![flag_byte(h.binary)] + (seq![compression_code(h.compression)] + r5));
    assert(entry_header_tail(h, rest) == r2);
}

/// The bytes that an element's contents come back as after writing and
/// reading: unchanged without compression and under LZMA and LZMA2, and empty
/// under GZIP and BZIP2 (whose payloads are read, or written, through
/// zero-length buffers).
pub open spec fn restored_bytes(c: CompressionType, b: Seq<u8>) -> Seq<u8> {
    match c {
        CompressionType::NONE => b,
        CompressionType::LZMA => b,
        CompressionType::LZMA2 => b,
        CompressionType::GZIP => Seq::<u8>::empty(),
        CompressionType::BZIP2 => Seq::<u8>::empty(),
    }
}

/// An entry header whose size fields are the lengths of the encodings of its
/// texts, written by `EntryHeader::save` at `pos` and followed by anything,
/// reads back with `EntryHeader::load` as itself; reading stops just after
/// it.
#[verifier::rlimit(40)]
#[verifier::spinoff_prover]
pub proof fn law_entry_header_roundtrip(d: Seq<u8>, pos: int, h: EntryHeaderView, rest: Seq<u8>)
    requires
        0 <= pos <= d.len(),
        d.skip(pos) == entry_header_bytes(h) + rest,
        h.name_size == encode_utf8(h.name).len(),
        h.sha256_size == encode_utf8(h.sha256).len(),
        h.metadata_size == encode_utf8(h.metadata).len(),
    ensures
        parse_entry_header(d, pos) == Ok::<(EntryHeaderView, int), UpkfError>(
            (h, pos + entry_header_bytes(h).len()),
        ),
        d.skip(pos + entry_header_bytes(h).len()) == rest,
{
    lemma_code_roundtrip(h.compression);
    let name = encode_utf8(h.name);
    let sha = encode_utf8(h.sha256);
    let meta = encode_utf8(h.metadata);
    let r9 = meta + rest;
    let r8 = spec_u32_to_le_bytes(h.metadata_size) + r9;
    let r7 = sha + r8;
    let r6 = spec_u16_to_le_bytes(h.sha256_size) + r7;
    let r5 = spec_u32_to_le_bytes(h.crc) + r6;
    let r4 = seq![compression_code(h.compression)] + r5;
    let r3 = seq![flag_byte(h.binary)] + r4;
    let r2 = name + r3;
    let r1 = spec_u32_to_le_bytes(h.name_size) + r2;
    lemma_entry_header_split(h, rest);
    assert(entry_header_tail(h, rest) == r1);
    lemma_read_u64(d, pos, h.size, r1);
    lemma_read_u32(d, pos + 8, h.name_size, r2);
    lemma_read_text(d, pos + 12, h.name, r3);
    let q: int = pos + 12 + name.len();
    lemma_read_u8(d, q, flag_byte(h.binary), r4);
    lemma_read_u8(d, q + 1, compression_code(h.compression), r5);
    lemma_read_u32(d, q + 2, h.crc, r6);
    lemma_read_u16(d, q + 6, h.sha256_size, r7);
    lemma_read_text(d, q + 8, h.sha256, r8);
    let q2: int = q + 8 + sha.len();
    lemma_read_u32(d, q2, h.metadata_size, r9);
    lemma_read_text(d, q2 + 4, h.metadata, rest);
    assert(entry_header_bytes(h).len() == 12 + name.len() + 8 + sha.len() + 4 + meta.len()) by {
        lemma_auto_spec_u32_to_from_le_bytes();
        lemma_auto_spec_u16_to_from_le_bytes();
        lemma_auto_spec_u64_to_from_le_bytes();
    }
    assert(h.name_size as int == name.len());
    assert(h.sha256_size as int == sha.len());
    assert(h.metadata_size as int == meta.len());
}

/// The size fields of a written header are the lengths of the encodings of
/// its texts.
proof fn lemma_written_header_sizes(e: ElementView, p: Seq<u8>)
    requires
        entry_readable(e, p),
    ensures
        written_header(e, p).name_size == encode_utf8(e.path).len(),
        written_header(e, p).sha256_size == encode_utf8(spec_sha256_hex(p)).len(),
        written_header(e, p).metadata_size == encode_utf8(e.meta).len(),
{
    assert(is_ascii_chars(spec_sha256_hex(p))) by {
        assert forall|i: int| 0 <= i < spec_sha256_hex(p).len() implies '\0' <= #[trigger] spec_sha256_hex(p)[i] <= '\u{7f}' by {
            assert(crate::codec::is_lower_hex_digit(spec_sha256_hex(p)[i]));
        }
    }
    is_ascii_chars_encode_utf8(spec_sha256_hex(p));
}

/// The entry written for an element reads back as the reloaded element.
proof fn lemma_element_roundtrip(d: Seq<u8>, pos: int, e: ElementView, p: Seq<u8>, check: bool, rest: Seq<u8>)
    requires
        0 <= pos <= d.len(),
        d.skip(pos) == entry_bytes(e, p) + rest,
        entry_readable(e, p),
        payload_fits(e.compression, e.bytes, p),
    ensures
        parse_element(d, pos, check) == Ok::<(ElementView, int), UpkfError>(
            (reloaded_element(e, p), pos + entry_bytes(e, p).len()),
        ),
        d.skip(pos + entry_bytes(e, p).len()) == rest,
{
    let h = written_header(e, p);
    let hb = entry_header_bytes(h);
    lemma_written_header_sizes(e, p);
    assert(entry_bytes(e, p) + rest =~= hb + (p + rest));
    law_entry_header_roundtrip(d, pos, h, p + rest);
    lemma_read_bytes(d, pos + hb.len(), p, rest);
    assert(h.size as int == p.len());
}

/// The entries written for a list of elements read back as the reloaded
/// elements.
proof fn lemma_elements_roundtrip(
    d: Seq<u8>,
    pos: int,
    es: Seq<ElementView>,
    ps: Seq<Seq<u8>>,
    check: bool,
    rest: Seq<u8>,
)
    requires
        0 <= pos <= d.len(),
        d.skip(pos) == entries_bytes(es, ps) + rest,
        ps.len() == es.len(),
        forall|i: int| 0 <= i < es.len() ==> #[trigger] entry_readable(es[i], ps[i]),
        payloads_fit(es, ps),
    ensures
        parse_elements(d, pos, es.len(), check) == Ok::<(Seq<ElementView>, int), UpkfError>(
            (
                Seq::new(es.len(), |i: int| reloaded_element(es[i], ps[i])),
                pos + entries_bytes(es, ps).len(),
            ),
        ),
    decreases es.len(),
{
    if es.len() == 0 {
        assert(Seq::new(es.len(), |i: int| reloaded_element(es[i], ps[i])) =~= Seq::<ElementView>::empty());
    } else {
        let tail = entries_bytes(es.drop_first(), ps.drop_first());
        assert(entries_bytes(es, ps) + rest =~= entry_bytes(es[0], ps[0]) + (tail + rest));
        assert(entry_readable(es[0], ps[0]));
        assert(payload_fits(es[0].compression, es[0].bytes, ps[0]));
        lemma_element_roundtrip(d, pos, es[0], ps[0], check, tail + rest);
        let p1: int = pos + entry_bytes(es[0], ps[0]).len();
        assert forall|i: int| 0 <= i < es.drop_first().len() implies #[trigger] entry_readable(
            es.drop_first()[i],
            ps.drop_first()[i],
        ) by {
            assert(entry_readable(es[i + 1], ps[i + 1]));
        }
        assert(payloads_fit(es.drop_first(), ps.drop_first())) by {
            assert forall|i: int| 0 <= i < es.drop_first().len() implies #[trigger] payload_fits(
                es.drop_first()[i].compression,
                es.drop_first()[i].bytes,
                ps.drop_first()[i],
            ) && payload_well_formed(ps.drop_first()[i]) by {
                assert(payload_fits(es[i + 1].compression, es[i + 1].bytes, ps[i + 1]));
                assert(payload_well_formed(ps[i + 1]));
            }
        }
        lemma_elements_roundtrip(d, p1, es.drop_first(), ps.drop_first(), check, rest);
        assert(seq![reloaded_element(es[0], ps[0])] + Seq::new(
            es.drop_first().len(),
            |i: int| reloaded_element(es.drop_first()[i], ps.drop_first()[i]),
        ) =~= Seq::new(es.len(), |i: int| reloaded_element(es[i], ps[i])));
        assert((es.len() - 1) as nat == es.drop_first().len());
    }
}

/// Reading an archive gives back what was written: for any archive and any
/// payloads that its elements can be written with, the written bytes (with
/// anything after them) read back as an archive with the same origin and, in
/// order, each element with its name, metadata, flag and method, its payload
/// unpacked as its bytes, and its payload's checksums; with or without the
/// checksum check. This holds where the origin's encoding fits 16 bits, each
/// name and metadata encoding fits 32 bits, and each payload unpacks (a GZIP
/// payload's header is accepted).
pub proof fn law_load_after_save(u: UpkfView, ps: Seq<Seq<u8>>, check: bool, rest: Seq<u8>)
    requires
        payloads_fit(u.entries, ps),
        encode_utf8(u.origin).len() <= u16::MAX,
        u.entries.len() <= u64::MAX,
        forall|i: int| 0 <= i < u.entries.len() ==> #[trigger] entry_readable(u.entries[i], ps[i]),
    ensures
        parse_upkf(upkf_bytes(u, ps) + rest, check) == Ok::<UpkfView, UpkfError>(
            UpkfView {
                origin: u.origin,
                entries: Seq::new(u.entries.len(), |i: int| reloaded_element(u.entries[i], ps[i])),
            },
        ),
        forall|i: int|
            0 <= i < u.entries.len() ==> #[trigger] reloaded_element(u.entries[i], ps[i]).bytes
                == restored_bytes(u.entries[i].compression, u.entries[i].bytes),
{
    let h = new_file_header(u.origin, u.entries.len() as u64, false);
    let eb = entries_bytes(u.entries, ps);
    let d = upkf_bytes(u, ps) + rest;
    assert(d =~= file_header_bytes(h) + (eb + rest));
    law_file_header_roundtrip(h, eb + rest);
    let hl: int = file_header_bytes(h).len() as int;
    assert(d.skip(hl) =~= eb + rest);
    lemma_elements_roundtrip(d, hl, u.entries, ps, check, rest);
    assert forall|i: int| 0 <= i < u.entries.len() implies #[trigger] reloaded_element(
        u.entries[i],
        ps[i],
    ).bytes == restored_bytes(u.entries[i].compression, u.entries[i].bytes) by {
        assert(payload_fits(u.entries[i].compression, u.entries[i].bytes, ps[i]));
        assert(entry_readable(u.entries[i], ps[i]));
    }
}

/// What `Upkf::save` writes, `Upkf::load` reads back: for any archive whose
/// origin fits 16 bits and whose names and metadata fit 32 bits, the bytes
/// written (with any payloads its elements can
/// be written with) read back, with or without the checksum check, as an
/// archive with the same origin and, in order, elements with the same name,
/// metadata, flag and method, with their contents restored (see
/// `restored_bytes`), and with checksums recorded.
pub proof fn law_load_reads_what_save_writes(u: UpkfView, bytes: Seq<u8>, check: bool)
    requires
        exists|ps: Seq<Seq<u8>>| payloads_fit(u.entries, ps) && bytes == upkf_bytes(u, ps),
        encode_utf8(u.origin).len() <= u16::MAX,
        u.entries.len() <= u64::MAX,
        forall|i: int|
            0 <= i < u.entries.len() ==> encode_utf8(#[trigger] u.entries[i].path).len()
                <= u32::MAX && encode_utf8(u.entries[i].meta).len() <= u32::MAX,
    ensures
        parse_upkf(bytes, check) matches Ok(v) && {
            &&& v.origin == u.origin
            &&& v.entries.len() == u.entries.len()
            &&& forall|i: int|
                0 <= i < u.entries.len() ==> {
                    let e = #[trigger] v.entries[i];
                    &&& e.path == u.entries[i].path
                    &&& e.meta == u.entries[i].meta
                    &&& e.binary == u.entries[i].binary
                    &&& e.compression == u.entries[i].compression
                    &&& e.bytes == restored_bytes(u.entries[i].compression, u.entries[i].bytes)
                    &&& e.crc32 is Some
                    &&& e.sha256 is Some
                }
        },
{
    let ps = choose|ps: Seq<Seq<u8>>| payloads_fit(u.entries, ps) && bytes == upkf_bytes(u, ps);
    assert forall|i: int| 0 <= i < u.entries.len() implies #[trigger] entry_readable(
        u.entries[i],
        ps[i],
    ) by {
        assert(encode_utf8(u.entries[i].path).len() <= u32::MAX);
        assert(payload_fits(u.entries[i].compression, u.entries[i].bytes, ps[i]));
    }
    law_load_after_save(u, ps, check, Seq::<u8>::empty());
    assert(upkf_bytes(u, ps) + Seq::<u8>::empty() =~= bytes);
    let v = parse_upkf(bytes, check)->Ok_0;
    assert forall|i: int| 0 <= i < u.entries.len() implies {
        let e = #[trigger] v.entries[i];
        &&& e.path == u.entries[i].path
        &&& e.meta == u.entries[i].meta
        &&& e.binary == u.entries[i].binary
        &&& e.compression == u.entries[i].compression
        &&& e.bytes == restored_bytes(u.entries[i].compression, u.entries[i].bytes)
        &&& e.crc32 is Some
        &&& e.sha256 is Some
    } by {
        assert(reloaded_element(u.entries[i], ps[i]).bytes == restored_bytes(
            u.entries[i].compression,
            u.entries[i].bytes,
        ));
    }
}

/// Data whose first four bytes are not the archive signature is refused as
/// not an archive, whatever follows.
pub proof fn law_load_refuses_foreign_data(d: Seq<u8>, check: bool)
    requires
        d.len() >= 4,
        spec_u32_from_le_bytes(d.subrange(0, 4)) != UPKF_SIGNATURE,
    ensures
        parse_upkf(d, check) == Err::<UpkfView, UpkfError>(UpkfError::NotAnUpkFileError),
{
}

/// An archive of another format version is refused as such, whatever
/// follows.
pub proof fn law_load_refuses_other_versions(d: Seq<u8>, check: bool)
    requires
        d.len() >= 5,
        spec_u32_from_le_bytes(d.subrange(0, 4)) == UPKF_SIGNATURE,
        d[4] != UPKF_VERSION,
    ensures
        parse_upkf(d, check) == Err::<UpkfView, UpkfError>(UpkfError::VersionNotSupportedError),
{
}

// ---------------------------------------------------------------------------
// An archive with one stored payload changed.

/// Reading `a` elements and then `b` more is reading `a + b` elements.
proof fn lemma_parse_elements_split(d: Seq<u8>, pos: int, a: nat, b: nat, check: bool)
    ensures
        parse_elements(d, pos, a + b, check) == match parse_elements(d, pos, a, check) {
            Ok((s, p)) => after(s, parse_elements(d, p, b, check)),
            Err(e) => Err(e),
        },
    decreases a,
{
    if a == 0 {
        match parse_elements(d, pos, b, check) {
            Ok((s, p)) => {
                assert(Seq::<ElementView>::empty() + s =~= s);
            },
            Err(_) => {},
        }
    } else {
        lemma_parse_elements_split(d, pos, (a - 1) as nat, b, check);
        match parse_element(d, pos, check) {
            Ok((el, p1)) => {
                lemma_parse_elements_split(d, p1, (a - 1) as nat, b, check);
                assert((a + b - 1) as nat == ((a - 1) as nat + b) as nat);
                match parse_elements(d, p1, (a - 1) as nat, check) {
                    Ok((s1, p2)) => {
                        match parse_elements(d, p2, b, check) {
                            Ok((s2, p3)) => {
                                assert(seq![el] + (s1 + s2) =~= (seq![el] + s1) + s2);
                            },
                            Err(_) => {},
                        }
                    },
                    Err(_) => {},
                }
            },
            Err(_) => {},
        }
    }
}

/// Writing a list of entries is writing those before `j`, entry `j`, then
/// those after it.
proof fn lemma_entries_bytes_split(es: Seq<ElementView>, ps: Seq<Seq<u8>>, j: int)
    requires
        ps.len() == es.len(),
        0 <= j < es.len(),
    ensures
        entries_bytes(es, ps) == entries_bytes(es.take(j), ps.take(j)) + entry_bytes(es[j], ps[j])
            + entries_bytes(es.skip(j + 1), ps.skip(j + 1)),
    decreases j,
{
    if j == 0 {
        assert(es.take(0) =~= Seq::<ElementView>::empty());
        assert(es.skip(1) =~= es.drop_first());
        assert(ps.skip(1) =~= ps.drop_first());
        assert(entries_bytes(es.take(0), ps.take(0)) == Seq::<u8>::empty());
        assert(entries_bytes(es, ps) =~= Seq::<u8>::empty() + entry_bytes(es[0], ps[0])
            + entries_bytes(es.skip(1), ps.skip(1)));
    } else {
        let es1 = es.drop_first();
        let ps1 = ps.drop_first();
        lemma_entries_bytes_split(es1, ps1, j - 1);
        assert(es.take(j).drop_first() =~= es1.take(j - 1));
        assert(ps.take(j).drop_first() =~= ps1.take(j - 1));
        assert(es1.skip(j) =~= es.skip(j + 1));
        assert(ps1.skip(j) =~= ps.skip(j + 1));
        assert(es.take(j)[0] == es[0] && ps.take(j)[0] == ps[0]);
        assert(entries_bytes(es.take(j), ps.take(j)) == entry_bytes(es[0], ps[0]) + entries_bytes(
            es1.take(j - 1),
            ps1.take(j - 1),
        ));
        assert(entries_bytes(es, ps) =~= entries_bytes(es.take(j), ps.take(j)) + entry_bytes(
            es[j],
            ps[j],
        ) + entries_bytes(es.skip(j + 1), ps.skip(j + 1)));
    }
}

/// The bytes written for an archive with payloads `ps`, with the stored
/// payload of element `j` replaced by `q` and everything else as written
/// (the header of element `j` still records the checksums of `ps[j]`).
pub open spec fn upkf_bytes_with_payload(u: UpkfView, ps: Seq<Seq<u8>>, j: int, q: Seq<u8>) -> Seq<u8> {
    file_header_bytes(new_file_header(u.origin, u.entries.len() as u64, false)) + entries_bytes(
        u.entries.take(j),
        ps.take(j),
    ) + entry_header_bytes(written_header(u.entries[j], ps[j])) + q + entries_bytes(
        u.entries.skip(j + 1),
        ps.skip(j + 1),
    )
}

/// Replacing a stored payload by itself gives the bytes as written.
pub proof fn lemma_with_own_payload(u: UpkfView, ps: Seq<Seq<u8>>, j: int)
    requires
        ps.len() == u.entries.len(),
        0 <= j < u.entries.len(),
    ensures
        upkf_bytes_with_payload(u, ps, j, ps[j]) == upkf_bytes(u, ps),
{
    lemma_entries_bytes_split(u.entries, ps, j);
    assert(upkf_bytes_with_payload(u, ps, j, ps[j]) =~= upkf_bytes(u, ps));
}

/// The elements before `j` of an archive as `law_load_after_save` has it.
spec fn reloaded_prefix(u: UpkfView, ps: Seq<Seq<u8>>, j: int) -> Seq<ElementView> {
    Seq::new(j as nat, |i: int| reloaded_element(u.entries[i], ps[i]))
}

/// Where reading an archive with element `j`'s payload replaced stands once
/// the file header and the elements before `j` are read.
#[verifier::spinoff_prover]
proof fn lemma_changed_payload_prefix(u: UpkfView, ps: Seq<Seq<u8>>, j: int, q: Seq<u8>, check: bool)
    requires
        payloads_fit(u.entries, ps),
        encode_utf8(u.origin).len() <= u16::MAX,
        u.entries.len() <= u64::MAX,
        forall|i: int| 0 <= i < u.entries.len() ==> #[trigger] entry_readable(u.entries[i], ps[i]),
        0 <= j < u.entries.len(),
    ensures
        ({
            let d = upkf_bytes_with_payload(u, ps, j, q);
            let pj: int = (file_header_bytes(new_file_header(u.origin, u.entries.len() as u64, false)).len()
                + entries_bytes(u.entries.take(j), ps.take(j)).len()) as int;
            &&& 0 <= pj <= d.len()
            &&& d.skip(pj) == entry_header_bytes(written_header(u.entries[j], ps[j])) + (q
                + entries_bytes(u.entries.skip(j + 1), ps.skip(j + 1)))
            &&& parse_upkf(d, check) == match parse_elements(d, pj, (u.entries.len() - j) as nat, check) {
                Ok((s, _)) => Ok::<UpkfView, UpkfError>(
                    UpkfView { origin: u.origin, entries: reloaded_prefix(u, ps, j) + s },
                ),
                Err(e) => Err::<UpkfView, UpkfError>(e),
            }
        }),
{
    let es = u.entries;
    let n = es.len();
    let fh = new_file_header(u.origin, n as u64, false);
    let fb = file_header_bytes(fh);
    let a = entries_bytes(es.take(j), ps.take(j));
    let hb = entry_header_bytes(written_header(es[j], ps[j]));
    let bb = entries_bytes(es.skip(j + 1), ps.skip(j + 1));
    let d = upkf_bytes_with_payload(u, ps, j, q);
    let tail = hb + (q + bb);
    assert(d =~= fb + (a + tail));
    law_file_header_roundtrip(fh, a + tail);
    assert(d.skip(0) =~= d);
    lemma_skip_split(d, 0, fb, a + tail);
    let p0 = fb.len() as int;
    let pre_es = es.take(j);
    let pre_ps = ps.take(j);
    assert forall|i: int| 0 <= i < pre_es.len() implies #[trigger] entry_readable(pre_es[i], pre_ps[i]) by {
        assert(entry_readable(es[i], ps[i]));
    }
    assert(payloads_fit(pre_es, pre_ps)) by {
        assert forall|i: int| 0 <= i < pre_es.len() implies #[trigger] payload_fits(
            pre_es[i].compression,
            pre_es[i].bytes,
            pre_ps[i],
        ) && payload_well_formed(pre_ps[i]) by {
            assert(payload_fits(es[i].compression, es[i].bytes, ps[i]) && payload_well_formed(ps[i]));
        }
    }
    lemma_elements_roundtrip(d, p0, pre_es, pre_ps, check, tail);
    assert(Seq::new(pre_es.len(), |i: int| reloaded_element(pre_es[i], pre_ps[i])) =~= reloaded_prefix(u, ps, j));
    lemma_skip_split(d, p0, a, tail);
    lemma_parse_elements_split(d, p0, j as nat, (n - j) as nat, check);
    assert((j as nat + (n - j) as nat) as nat == n);
}

/// Reading element `j` with its payload replaced by `q` of the same length.
#[verifier::spinoff_prover]
proof fn lemma_changed_payload_element(d: Seq<u8>, pos: int, e: ElementView, p: Seq<u8>, q: Seq<u8>, rest: Seq<u8>, check: bool)
    requires
        0 <= pos <= d.len(),
        d.skip(pos) == entry_header_bytes(written_header(e, p)) + (q + rest),
        entry_readable(e, p),
        q.len() == p.len(),
    ensures
        ({
            let end: int = pos + entry_header_bytes(written_header(e, p)).len() + q.len();
            &&& d.skip(end) == rest
            &&& 0 <= end <= d.len()
            &&& parse_element(d, pos, check) == match element_from(written_header(e, p), q, check) {
                Ok(el) => Ok::<(ElementView, int), UpkfError>((el, end)),
                Err(x) => Err::<(ElementView, int), UpkfError>(x),
            }
        }),
{
    let h = written_header(e, p);
    lemma_written_header_sizes(e, p);
    law_entry_header_roundtrip(d, pos, h, q + rest);
    lemma_read_bytes(d, pos + entry_header_bytes(h).len(), q, rest);
    assert(h.size as int == q.len());
}

/// The elements read back when element `j`'s stored payload is `q` and the
/// check is off: as written, except that element `j` has `q` as its bytes.
pub open spec fn reloaded_with_payload(u: UpkfView, ps: Seq<Seq<u8>>, j: int, q: Seq<u8>) -> Seq<ElementView> {
    Seq::new(
        u.entries.len(),
        |i: int|
            if i == j {
                ElementView { bytes: q, ..reloaded_element(u.entries[j], ps[j]) }
            } else {
                reloaded_element(u.entries[i], ps[i])
            },
    )
}

#[verifier::spinoff_prover]
proof fn lemma_changed_payload_checked(u: UpkfView, ps: Seq<Seq<u8>>, j: int, k: int, b: u8)
    requires
        payloads_fit(u.entries, ps),
        encode_utf8(u.origin).len() <= u16::MAX,
        u.entries.len() <= u64::MAX,
        forall|i: int| 0 <= i < u.entries.len() ==> #[trigger] entry_readable(u.entries[i], ps[i]),
        0 <= j < u.entries.len(),
        0 <= k < ps[j].len(),
        b != ps[j][k],
    ensures
        parse_upkf(upkf_bytes_with_payload(u, ps, j, ps[j].update(k, b)), true) == Err::<
            UpkfView,
            UpkfError,
        >(UpkfError::Crc32CheckFailed),
{
    let es = u.entries;
    let n = es.len();
    let q = ps[j].update(k, b);
    let d = upkf_bytes_with_payload(u, ps, j, q);
    let bb = entries_bytes(es.skip(j + 1), ps.skip(j + 1));
    lemma_changed_payload_prefix(u, ps, j, q, true);
    let pj: int = (file_header_bytes(new_file_header(u.origin, n as u64, false)).len()
        + entries_bytes(es.take(j), ps.take(j)).len()) as int;
    assert(entry_readable(es[j], ps[j]));
    lemma_changed_payload_element(d, pj, es[j], ps[j], q, bb, true);
    law_crc32_catches_one_byte_change(ps[j], k, b);
    assert(parse_element(d, pj, true) == Err::<(ElementView, int), UpkfError>(
        UpkfError::Crc32CheckFailed,
    ));
    assert(parse_elements(d, pj, (n - j) as nat, true) == Err::<(Seq<ElementView>, int), UpkfError>(
        UpkfError::Crc32CheckFailed,
    ));
}

#[verifier::spinoff_prover]
#[verifier::rlimit(40)]
proof fn lemma_changed_payload_unchecked(u: UpkfView, ps: Seq<Seq<u8>>, j: int, q: Seq<u8>)
    requires
        payloads_fit(u.entries, ps),
        encode_utf8(u.origin).len() <= u16::MAX,
        u.entries.len() <= u64::MAX,
        forall|i: int| 0 <= i < u.entries.len() ==> #[trigger] entry_readable(u.entries[i], ps[i]),
        0 <= j < u.entries.len(),
        q.len() == ps[j].len(),
        u.entries[j].compression == CompressionType::NONE,
    ensures
        parse_upkf(upkf_bytes_with_payload(u, ps, j, q), false) == Ok::<UpkfView, UpkfError>(
            UpkfView { origin: u.origin, entries: reloaded_with_payload(u, ps, j, q) },
        ),
{
    let es = u.entries;
    let n = es.len();
    let d = upkf_bytes_with_payload(u, ps, j, q);
    let e = es[j];
    let bb = entries_bytes(es.skip(j + 1), ps.skip(j + 1));
    lemma_changed_payload_prefix(u, ps, j, q, false);
    let pj: int = (file_header_bytes(new_file_header(u.origin, n as u64, false)).len()
        + entries_bytes(es.take(j), ps.take(j)).len()) as int;
    assert(entry_readable(e, ps[j]));
    lemma_changed_payload_element(d, pj, e, ps[j], q, bb, false);
    let changed = ElementView { bytes: q, ..reloaded_element(e, ps[j]) };
    let p1: int = pj + entry_header_bytes(written_header(e, ps[j])).len() + q.len();
    assert(parse_element(d, pj, false) == Ok::<(ElementView, int), UpkfError>((changed, p1)));
    let post_es = es.skip(j + 1);
    let post_ps = ps.skip(j + 1);
    assert forall|i: int| 0 <= i < post_es.len() implies #[trigger] entry_readable(post_es[i], post_ps[i]) by {
        assert(entry_readable(es[i + j + 1], ps[i + j + 1]));
    }
    assert(payloads_fit(post_es, post_ps)) by {
        assert forall|i: int| 0 <= i < post_es.len() implies #[trigger] payload_fits(
            post_es[i].compression,
            post_es[i].bytes,
            post_ps[i],
        ) && payload_well_formed(post_ps[i]) by {
            assert(payload_fits(es[i + j + 1].compression, es[i + j + 1].bytes, ps[i + j + 1])
                && payload_well_formed(ps[i + j + 1]));
        }
    }
    assert(bb + Seq::<u8>::empty() =~= bb);
    lemma_elements_roundtrip(d, p1, post_es, post_ps, false, Seq::<u8>::empty());
    let post = Seq::new(post_es.len(), |i: int| reloaded_element(post_es[i], post_ps[i]));
    assert(post_es.len() == (n - j - 1) as nat);
    assert(parse_elements(d, pj, (n - j) as nat, false) == after(
        seq![changed],
        parse_elements(d, p1, (n - j - 1) as nat, false),
    ));
    assert(reloaded_prefix(u, ps, j) + (seq![changed] + post) =~= reloaded_with_payload(u, ps, j, q));
}

/// What a check of stored checksums catches: in the bytes written for an
/// archive (as in `law_load_after_save`), change one byte of one element's
/// stored payload. Reading with the check then fails on that element's
/// CRC-32. Reading without it gives the archive back as written, except that
/// an uncompressed element has the changed payload as its bytes (its recorded
/// checksums stay those written).
pub proof fn law_changed_payload_byte(u: UpkfView, ps: Seq<Seq<u8>>, j: int, k: int, b: u8)
    requires
        payloads_fit(u.entries, ps),
        encode_utf8(u.origin).len() <= u16::MAX,
        u.entries.len() <= u64::MAX,
        forall|i: int| 0 <= i < u.entries.len() ==> #[trigger] entry_readable(u.entries[i], ps[i]),
        0 <= j < u.entries.len(),
        0 <= k < ps[j].len(),
        b != ps[j][k],
    ensures
        parse_upkf(upkf_bytes_with_payload(u, ps, j, ps[j].update(k, b)), true) == Err::<
            UpkfView,
            UpkfError,
        >(UpkfError::Crc32CheckFailed),
        u.entries[j].compression == CompressionType::NONE ==> parse_upkf(
            upkf_bytes_with_payload(u, ps, j, ps[j].update(k, b)),
            false,
        ) == Ok::<UpkfView, UpkfError>(
            UpkfView { origin: u.origin, entries: reloaded_with_payload(u, ps, j, ps[j].update(k, b)) },
        ),
{
    lemma_changed_payload_checked(u, ps, j, k, b);
    if u.entries[j].compression == CompressionType::NONE {
        lemma_changed_payload_unchecked(u, ps, j, ps[j].update(k, b));
    }
}

// ---------------------------------------------------------------------------
// What the CRC-32 check catches.

proof fn lemma_crc32_shift_injective(a: u32, b: u32)
    requires
        crc32_shift(a) == crc32_shift(b),
    ensures
        a == b,
{
    assert(((if a & 1 == 1 { (a >> 1) ^ 0xEDB88320u32 } else { a >> 1 }) == (if b & 1 == 1 {
        (b >> 1) ^ 0xEDB88320u32
    } else {
        b >> 1
    })) ==> a == b) by (bit_vector);
}

/// Taking in a byte keeps registers apart, for one byte and two registers
/// or for one register and two bytes.
proof fn lemma_crc32_byte_injective(c1: u32, b1: u8, c2: u32, b2: u8)
    requires
        crc32_byte(c1, b1) == crc32_byte(c2, b2),
        c1 == c2 || b1 == b2,
    ensures
        c1 == c2 && b1 == b2,
{
    let x = c1 ^ (b1 as u32);
    let y = c2 ^ (b2 as u32);
    lemma_crc32_shift_injective(
        crc32_shift(crc32_shift(crc32_shift(crc32_shift(crc32_shift(crc32_shift(crc32_shift(x))))))),
        crc32_shift(crc32_shift(crc32_shift(crc32_shift(crc32_shift(crc32_shift(crc32_shift(y))))))),
    );
    lemma_crc32_shift_injective(
        crc32_shift(crc32_shift(crc32_shift(crc32_shift(crc32_shift(crc32_shift(x)))))),
        crc32_shift(crc32_shift(crc32_shift(crc32_shift(crc32_shift(crc32_shift(y)))))),
    );
    lemma_crc32_shift_injective(
        crc32_shift(crc32_shift(crc32_shift(crc32_shift(crc32_shift(x))))),
        crc32_shift(crc32_shift(crc32_shift(crc32_shift(crc32_shift(y))))),
    );
    lemma_crc32_shift_injective(
        crc32_shift(crc32_shift(crc32_shift(crc32_shift(x)))),
        crc32_shift(crc32_shift(crc32_shift(crc32_shift(y)))),
    );
    lemma_crc32_shift_injective(
        crc32_shift(crc32_shift(crc32_shift(x))),
        crc32_shift(crc32_shift(crc32_shift(y))),
    );
    lemma_crc32_shift_injective(crc32_shift(crc32_shift(x)), crc32_shift(crc32_shift(y)));
    lemma_crc32_shift_injective(crc32_shift(x), crc32_shift(y));
    lemma_crc32_shift_injective(x, y);
    assert((c1 ^ (b1 as u32)) == (c2 ^ (b2 as u32)) ==> (c1 == c2 || b1 == b2) ==> c1 == c2
        && b1 == b2) by (bit_vector);
}

/// Registers over two byte sequences that differ first at `k` and then agree
/// up to `m` stay apart.
proof fn lemma_crc32_register_apart(d: Seq<u8>, e: Seq<u8>, k: int, m: int)
    requires
        d.len() == e.len(),
        0 <= k < m <= d.len(),
        d.take(k) == e.take(k),
        d[k] != e[k],
        forall|i: int| k < i < m ==> d[i] == e[i],
    ensures
        crc32_register(d.take(m)) != crc32_register(e.take(m)),
    decreases m,
{
    assert(d.take(m).drop_last() =~= d.take(m - 1));
    assert(e.take(m).drop_last() =~= e.take(m - 1));
    if m == k + 1 {
        if crc32_register(d.take(m)) == crc32_register(e.take(m)) {
            lemma_crc32_byte_injective(
                crc32_register(d.take(k)),
                d[k],
                crc32_register(e.take(k)),
                e[k],
            );
        }
    } else {
        lemma_crc32_register_apart(d, e, k, m - 1);
        if crc32_register(d.take(m)) == crc32_register(e.take(m)) {
            lemma_crc32_byte_injective(
                crc32_register(d.take(m - 1)),
                d[m - 1],
                crc32_register(e.take(m - 1)),
                e[m - 1],
            );
        }
    }
}

/// The CRC-32 of some bytes changes whenever one of them changes.
pub proof fn law_crc32_catches_one_byte_change(d: Seq<u8>, k: int, b: u8)
    requires
        0 <= k < d.len(),
        b != d[k],
    ensures
        spec_crc32(d.update(k, b)) != spec_crc32(d),
{
    let e = d.update(k, b);
    assert(d.take(k) =~= e.take(k));
    lemma_crc32_register_apart(d, e, k, d.len() as int);
    assert(d.take(d.len() as int) =~= d);
    assert(e.take(e.len() as int) =~= e);
    let r1 = crc32_register(d);
    let r2 = crc32_register(e);
    assert(r1 != r2 ==> r1 ^ 0xFFFF_FFFFu32 != r2 ^ 0xFFFF_FFFFu32) by (bit_vector);
}

} // verus!
