# payload_dumper

Reads Android OTA payloads (`payload.bin`, bare or stored in a ZIP
archive) and summarizes or applies their operations. The library in `src/`
is verified with Verus; `app/` is the command line around it.

- `zip_io`: the `ZipIO` reader trait (random access to bytes) and an
  in-memory reader.
- `zip`: finding `payload.bin` in a ZIP archive (end-of-central-directory
  search, ZIP64 records, central directory, local header).
- `payload`: the payload header (`CrAU`, version, manifest, signature) and a
  reader over the ZIP entry holding the payload.
- `manifest`: the manifest's data, as plain values.
- `diff`: read and write plans over extents (with the round trip of a
  write and a read proved over a byte model of the image), and building
  the target of a differential operation: a source copy and BSDF2 here;
  LZ4DIFF and PUFFDIFF patches are applied by the caller, because those
  crates panic on some malformed patches, and their results are checked
  here.
- `metadata`: the payload summary and per-kind operation statistics.
- `cli`: the command line's decisions (run mode, thread count).
- `bytes`, `text`, `stats`: byte fields, decimal and hex text, and the hash
  map behind the statistics.

Each reader's contract is stated over a spec function of the archive's
bytes; where a reader's reads cannot fail (`ZipIO::reads_succeed`, true of
the in-memory reader), the result is exactly that spec's.
