# upkf

A library for UPKF package archives, verified with Verus.

An archive is a file header (the signature `UPKF`, a format version, a flag,
an origin text and an entry count) followed by entries. Each entry is a header
(payload size, name, binary flag, compression method, CRC-32 and SHA-256 of the
payload, metadata) followed by the stored payload.

- `src/format.rs`: the byte layout, with readers and writers of each field.
- `src/archive.rs`: `Upkf`, `Element` and `UpkfIterator`; writing an archive
  to bytes and reading one from bytes.
- `src/roundtrip.rs`: proofs that reading gives back what was written, and
  what reading refuses.
- `src/compression.rs`: the compression methods, their bytes and names.
- `src/meta.rs`: per-file packing options read from and written as JSON.
- `src/presence.rs`: a Discord rich-presence state.
- `src/codec.rs`: the calls into byteorder, crc32fast, sha256, lzma-rs,
  libflate, bzip2 and `String::from_utf8`, with the contracts they are
  trusted to meet.
- `app/`: file input and output around the library, and the programs.
