# workshadow

The verified core of WorkShadow, a desktop recorder of screen activity: it
captures frames, encodes them into video segments, reads their text with OCR,
flags personal data, and keeps everything encrypted and searchable.

- `src/` is the library, verified with Verus: capture-loop decisions, segment
  rotation and file names, window metadata parsing, exclusion rules, AES-GCM
  encryption of data at rest and key derivation, key setup as a state machine,
  retention, segment listing, OCR output parsing, text deduplication, PII
  detection and search filters. Calls into `aes-gcm`, `sha2`, `regex` and
  `serde_json` stand behind small trusted wrappers whose contracts say what
  the library relies on.
- `tests/` exercises the library on concrete values.
- `app/` is the unverified agent around it: threads, processes, files, the
  SQLite store (`rusqlite`), the full-text index (`tantivy`), video encoding
  (`ffmpeg-next`), images, the OS keychain, configuration files and the
  arithmetic on floating-point settings.
